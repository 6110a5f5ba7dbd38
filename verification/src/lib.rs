use vstd::prelude::*;

pub mod lexer;
pub mod natural;
pub mod number;
pub mod rat;
pub mod rng;
pub mod roll;
pub mod utils;
pub mod value;

use lexer::{
    lemma_number_text_subrange, lemma_roll_text_subrange, token_at, ws_len, Lexer, TokV, Token,
};
use number::{number_display, number_rat};
use rat::{
    rat_add, rat_bool, rat_div, rat_eqv, rat_le, rat_lt, rat_mul, rat_neg, rat_of_nat, rat_sub,
    rat_zero, RatV,
};
use rng::RngSource;
use roll::{roll_model, roll_state, RollError};
use roll::realize::display::render_spec;
use roll::value::rz_value;
use value::{approx_decimal, DivisionByZeroError, Value, ValueError};

verus! {

// The expression evaluator: a precedence-climbing recursive descent over the
// token stream, computing the exact value and appending the printable trace
// as it goes. The grammar, lowest to highest precedence, all binary operators
// left-associative:
//
//   expression  := equality
//   equality    := comparison (('=' | '!=') comparison)*
//   comparison  := term (('<' | '<=' | '>' | '>=') term)*
//   term        := factor (('+' | '-') factor)*
//   factor      := unary (('*' | '/') unary)*
//   unary       := ('!' | '-') unary | primary
//   primary     := '(' expression ')' | numberLiteral | rollLiteral

#[derive(Debug, PartialEq, Eq, Structural)]
pub enum EvalError {
    UnexpectedToken,
    Roll(RollError),
    Value(ValueError),
}

// ---- The evaluation model ----
//
// Evaluation is a deterministic function of the input bytes and the random
// source's state. One grammar rule's outcome: its result, the trace bytes it
// appended, the scan position it reached (the start of the lookahead token)
// and the generator state it left behind.

pub ghost struct EvalStep {
    pub r: Result<RatV, EvalError>,
    pub trace: Seq<u8>,
    pub pos: int,
    pub st: Seq<u8>,
}

/// Keeps a claimed position inside `(lo, s.len()]` so that the recursion
/// below visibly terminates; every position an actual run produces is already
/// in that range, where this is the identity.
pub open spec fn clamp_pos(s: Seq<u8>, lo: int, p: int) -> int {
    if p <= lo {
        lo + 1
    } else if p > s.len() {
        s.len() as int
    } else {
        p
    }
}

/// The scan position just after the token at `i`: its end, whitespace skipped.
pub open spec fn next_pos(s: Seq<u8>, i: int) -> int {
    let e = token_at(s, i).1;
    e + ws_len(s, e)
}

/// The binary operator of precedence level `level` standing at `i`, if any.
pub open spec fn level_op(s: Seq<u8>, i: int, level: nat) -> Option<TokV> {
    let t = token_at(s, i).0;
    if level == 0 && (t == TokV::Eq || t == TokV::BangEq) {
        Some(t)
    } else if level == 1 && (t == TokV::Lt || t == TokV::Le || t == TokV::Gt || t == TokV::Ge) {
        Some(t)
    } else if level == 2 && (t == TokV::Plus || t == TokV::Minus) {
        Some(t)
    } else if level == 3 && (t == TokV::Star || t == TokV::Slash) {
        Some(t)
    } else {
        None
    }
}

/// The printable spelling of a binary operator.
pub open spec fn op_trace(t: TokV) -> Seq<u8> {
    match t {
        TokV::Eq => seq![32u8, 61u8, 32u8],
        TokV::BangEq => seq![32u8, 33u8, 61u8, 32u8],
        TokV::Lt => seq![32u8, 60u8, 32u8],
        TokV::Le => seq![32u8, 60u8, 61u8, 32u8],
        TokV::Gt => seq![32u8, 62u8, 32u8],
        TokV::Ge => seq![32u8, 62u8, 61u8, 32u8],
        TokV::Plus => seq![32u8, 43u8, 32u8],
        TokV::Minus => seq![32u8, 45u8, 32u8],
        TokV::Star => seq![42u8],
        _ => seq![47u8],
    }
}

/// Applying a binary operator to exact rational operands; only division can
/// fail, on a divisor equal to zero.
pub open spec fn apply_op(t: TokV, l: RatV, rr: RatV) -> Result<RatV, EvalError> {
    match t {
        TokV::Eq => Ok(rat_bool(rat_eqv(l, rr))),
        TokV::BangEq => Ok(rat_bool(!rat_eqv(l, rr))),
        TokV::Lt => Ok(rat_bool(rat_lt(l, rr))),
        TokV::Le => Ok(rat_bool(rat_le(l, rr))),
        TokV::Gt => Ok(rat_bool(rat_lt(rr, l))),
        TokV::Ge => Ok(rat_bool(rat_le(rr, l))),
        TokV::Plus => Ok(rat_add(l, rr)),
        TokV::Minus => Ok(rat_sub(l, rr)),
        TokV::Star => Ok(rat_mul(l, rr)),
        _ => if rat_eqv(rr, rat_zero()) {
            Err(EvalError::Value(ValueError::DivisionByZero(DivisionByZeroError)))
        } else {
            Ok(rat_div(l, rr))
        },
    }
}

pub open spec fn ev_stuck(i: int, st: Seq<u8>) -> EvalStep {
    EvalStep { r: Err(EvalError::UnexpectedToken), trace: Seq::empty(), pos: i, st }
}

/// One level of the binary-operator chain: the tighter operand, then the
/// left-associative chain of this level's operators.
pub open spec fn ev_binary(s: Seq<u8>, i: int, st: Seq<u8>, level: nat) -> EvalStep
    decreases s.len() - i, 20 - level, 10int,
{
    if !(0 <= i < s.len()) || level > 3 {
        ev_stuck(i, st)
    } else {
        let first = if level == 3 {
            ev_unary(s, i, st)
        } else {
            ev_binary(s, i, st, (level + 1) as nat)
        };
        match first.r {
            Err(_) => first,
            Ok(v) => ev_binary_more(
                s,
                clamp_pos(s, i, first.pos),
                first.st,
                level,
                v,
                first.trace,
            ),
        }
    }
}

/// The rest of one level's operator chain, the left operand and the trace so
/// far carried along.
pub open spec fn ev_binary_more(
    s: Seq<u8>,
    i: int,
    st: Seq<u8>,
    level: nat,
    left: RatV,
    acc: Seq<u8>,
) -> EvalStep
    decreases s.len() - i, 20 - level, 30int,
{
    if !(0 <= i < s.len()) || level > 3 {
        EvalStep { r: Ok(left), trace: acc, pos: i, st }
    } else {
        match level_op(s, i, level) {
            None => EvalStep { r: Ok(left), trace: acc, pos: i, st },
            Some(op) => {
                let i2 = clamp_pos(s, i, next_pos(s, i));
                let m2 = if level == 3 {
                    ev_unary(s, i2, st)
                } else {
                    ev_binary(s, i2, st, (level + 1) as nat)
                };
                let trace2 = acc + op_trace(op) + m2.trace;
                match m2.r {
                    Err(e) => EvalStep { r: Err(e), trace: trace2, pos: m2.pos, st: m2.st },
                    Ok(rv) => match apply_op(op, left, rv) {
                        Err(e) => EvalStep {
                            r: Err(e),
                            trace: trace2,
                            pos: m2.pos,
                            st: m2.st,
                        },
                        Ok(v2) => ev_binary_more(
                            s,
                            clamp_pos(s, i, m2.pos),
                            m2.st,
                            level,
                            v2,
                            trace2,
                        ),
                    },
                }
            },
        }
    }
}

/// The right-recursive unary rule.
pub open spec fn ev_unary(s: Seq<u8>, i: int, st: Seq<u8>) -> EvalStep
    decreases s.len() - i, 0int, 5int,
{
    if !(0 <= i < s.len()) {
        ev_stuck(i, st)
    } else if token_at(s, i).0 == TokV::Bang {
        let m = ev_unary(s, clamp_pos(s, i, next_pos(s, i)), st);
        match m.r {
            Err(e) => EvalStep { r: Err(e), trace: seq![33u8] + m.trace, pos: m.pos, st: m.st },
            Ok(v) => EvalStep {
                r: Ok(rat_bool(rat_eqv(v, rat_zero()))),
                trace: seq![33u8] + m.trace,
                pos: m.pos,
                st: m.st,
            },
        }
    } else if token_at(s, i).0 == TokV::Minus {
        let m = ev_unary(s, clamp_pos(s, i, next_pos(s, i)), st);
        match m.r {
            Err(e) => EvalStep { r: Err(e), trace: seq![45u8] + m.trace, pos: m.pos, st: m.st },
            Ok(v) => EvalStep {
                r: Ok(rat_neg(v)),
                trace: seq![45u8] + m.trace,
                pos: m.pos,
                st: m.st,
            },
        }
    } else {
        ev_primary(s, i, st)
    }
}

/// A grouping, a numeric literal or a roll literal; anything else is the
/// unexpected-token error.
pub open spec fn ev_primary(s: Seq<u8>, i: int, st: Seq<u8>) -> EvalStep
    decreases s.len() - i, 0int, 2int,
{
    if !(0 <= i < s.len()) {
        ev_stuck(i, st)
    } else {
        match token_at(s, i).0 {
            TokV::LParen => {
                let m = ev_binary(s, clamp_pos(s, i, next_pos(s, i)), st, 0);
                match m.r {
                    Err(e) => EvalStep {
                        r: Err(e),
                        trace: seq![40u8] + m.trace,
                        pos: m.pos,
                        st: m.st,
                    },
                    Ok(v) => if 0 <= m.pos < s.len() && token_at(s, m.pos).0 == TokV::RParen {
                        EvalStep {
                            r: Ok(v),
                            trace: seq![40u8] + m.trace + seq![41u8],
                            pos: next_pos(s, m.pos),
                            st: m.st,
                        }
                    } else {
                        EvalStep {
                            r: Err(EvalError::UnexpectedToken),
                            trace: seq![40u8] + m.trace + seq![41u8],
                            pos: m.pos,
                            st: m.st,
                        }
                    },
                }
            },
            TokV::Number(q) => EvalStep {
                r: Ok(number_rat(q)),
                trace: number_display(q),
                pos: next_pos(s, i),
                st,
            },
            TokV::Roll(q) => match roll_model(q, st) {
                Ok(rv) => EvalStep {
                    r: Ok(rat_of_nat(rz_value(rv))),
                    trace: render_spec(rv),
                    pos: next_pos(s, i),
                    st: roll_state(q, st),
                },
                Err(e) => EvalStep {
                    r: Err(EvalError::Roll(e)),
                    trace: Seq::empty(),
                    pos: next_pos(s, i),
                    st: roll_state(q, st),
                },
            },
            _ => ev_stuck(i, st),
        }
    }
}

/// What evaluating one whole line yields: the expression's outcome, and the
/// unexpected-token error if tokens remain after it.
pub open spec fn eval_model(s: Seq<u8>, st: Seq<u8>) -> EvalStep {
    let m = ev_binary(s, ws_len(s, 0) as int, st, 0);
    match m.r {
        Err(_) => m,
        Ok(_) => if m.pos < s.len() {
            EvalStep { r: Err(EvalError::UnexpectedToken), ..m }
        } else {
            m
        },
    }
}

/// The number of bytes the parse has not yet reached.
spec fn rest(lexer: Lexer<'_>) -> int {
    lexer.src@.len() - lexer.tok_start
}

/// What every grammar rule maintains: the lexer stays well-formed on the same
/// source, the trace only grows, and success consumes at least one token.
spec fn step_ok(
    pre: Lexer<'_>,
    post: Lexer<'_>,
    out_pre: Seq<u8>,
    out_post: Seq<u8>,
    ok: bool,
) -> bool {
    &&& post.wf()
    &&& post.src == pre.src
    &&& out_pre.is_prefix_of(out_post)
    &&& post.tok_start >= pre.tok_start
    &&& (ok ==> post.tok_start > pre.tok_start)
}

/// The run agrees with one model step: the trace it appended, the position
/// and generator state it reached, and its result.
spec fn agrees(
    m: EvalStep,
    out_pre: Seq<u8>,
    out_post: Seq<u8>,
    pos_post: int,
    st_post: Seq<u8>,
    r: Result<Value, EvalError>,
) -> bool {
    &&& out_post == out_pre + m.trace
    &&& pos_post == m.pos
    &&& st_post == m.st
    &&& match (r, m.r) {
        (Ok(v), Ok(rv)) => v@ == rv,
        (Err(a), Err(b)) => a == b,
        _ => false,
    }
}

/// One level of the binary-operator chain; level 3 binds tightest.
#[verifier::loop_isolation(false)]
#[verifier::rlimit(100)]
fn binary_level(
    lexer: &mut Lexer<'_>,
    output: &mut Vec<u8>,
    rng: &mut RngSource,
    level: u8,
) -> (r: Result<Value, EvalError>)
    requires
        old(lexer).wf(),
        level <= 3,
    ensures
        step_ok(*old(lexer), *final(lexer), old(output)@, final(output)@, r is Ok),
        agrees(
            ev_binary(old(lexer).src@, old(lexer).tok_start as int, old(rng)@, level as nat),
            old(output)@,
            final(output)@,
            final(lexer).tok_start as int,
            final(rng)@,
            r,
        ),
    decreases rest(*old(lexer)), 8 - level,
{
    let ghost s = lexer.src@;
    let ghost i0 = lexer.tok_start as int;
    let ghost st0 = rng@;
    let ghost target = ev_binary(s, i0, st0, level as nat);
    let ghost m1 = if level == 3 {
        ev_unary(s, i0, st0)
    } else {
        ev_binary(s, i0, st0, (level + 1) as nat)
    };
    let first = if level == 3 {
        unary(lexer, output, rng)
    } else {
        binary_level(lexer, output, rng, level + 1)
    };
    let mut left = match first {
        Ok(v) => v,
        Err(e) => {
            proof {
                if !(0 <= i0 < s.len()) {
                    assert(target == ev_stuck(i0, st0));
                    assert(m1 == ev_stuck(i0, st0));
                } else {
                    assert(target == m1);
                }
            }
            return Err(e);
        },
    };
    proof {
        assert(target == ev_binary_more(
            s,
            lexer.tok_start as int,
            rng@,
            level as nat,
            left@,
            output@.subrange(old(output)@.len() as int, output@.len() as int),
        )) by {
            assert(0 <= i0 < s.len());
            assert(m1.r is Ok && target == ev_binary_more(
                s,
                clamp_pos(s, i0, m1.pos),
                m1.st,
                level as nat,
                m1.r->Ok_0,
                m1.trace,
            ));
            assert(clamp_pos(s, i0, m1.pos) == m1.pos);
            assert(output@.subrange(old(output)@.len() as int, output@.len() as int)
                =~= m1.trace);
        }
    }
    loop
        invariant
            lexer.wf(),
            lexer.src == old(lexer).src,
            old(output)@.is_prefix_of(output@),
            lexer.tok_start > old(lexer).tok_start,
            level <= 3,
            target == ev_binary_more(
                s,
                lexer.tok_start as int,
                rng@,
                level as nat,
                left@,
                output@.subrange(old(output)@.len() as int, output@.len() as int),
            ),
        decreases rest(*lexer),
    {
        let ghost cur = lexer.tok_start as int;
        let ghost st_cur = rng@;
        let ghost acc = output@.subrange(old(output)@.len() as int, output@.len() as int);
        let op: Token = if level == 0 && lexer.matches(Token::Equals) {
            Token::Equals
        } else if level == 0 && lexer.matches(Token::ExclamationPointEquals) {
            Token::ExclamationPointEquals
        } else if level == 1 && lexer.matches(Token::LessThan) {
            Token::LessThan
        } else if level == 1 && lexer.matches(Token::LessThanEquals) {
            Token::LessThanEquals
        } else if level == 1 && lexer.matches(Token::GreaterThan) {
            Token::GreaterThan
        } else if level == 1 && lexer.matches(Token::GreaterThanEquals) {
            Token::GreaterThanEquals
        } else if level == 2 && lexer.matches(Token::Plus) {
            Token::Plus
        } else if level == 2 && lexer.matches(Token::Minus) {
            Token::Minus
        } else if level == 3 && lexer.matches(Token::Asterisk) {
            Token::Asterisk
        } else if level == 3 && lexer.matches(Token::Slant) {
            Token::Slant
        } else {
            proof {
                assert(cur >= s.len() || level_op(s, cur, level as nat) is None);
                assert(output@ =~= old(output)@ + acc);
            }
            return Ok(left);
        };
        let ghost opv = level_op(s, cur, level as nat)->0;
        proof {
            assert(level_op(s, cur, level as nat) == Some(opv) && (match op {
                Token::Equals => opv == TokV::Eq,
                Token::ExclamationPointEquals => opv == TokV::BangEq,
                Token::LessThan => opv == TokV::Lt,
                Token::LessThanEquals => opv == TokV::Le,
                Token::GreaterThan => opv == TokV::Gt,
                Token::GreaterThanEquals => opv == TokV::Ge,
                Token::Plus => opv == TokV::Plus,
                Token::Minus => opv == TokV::Minus,
                Token::Asterisk => opv == TokV::Star,
                _ => opv == TokV::Slash,
            }) && clamp_pos(s, cur, next_pos(s, cur)) == next_pos(s, cur)
                && lexer.tok_start as int == next_pos(s, cur)) by {
                assert(cur < s.len());
            }
        }
        match op {
            Token::Equals => utils::push_all(output, &[32, 61, 32]),
            Token::ExclamationPointEquals => utils::push_all(output, &[32, 33, 61, 32]),
            Token::LessThan => utils::push_all(output, &[32, 60, 32]),
            Token::LessThanEquals => utils::push_all(output, &[32, 60, 61, 32]),
            Token::GreaterThan => utils::push_all(output, &[32, 62, 32]),
            Token::GreaterThanEquals => utils::push_all(output, &[32, 62, 61, 32]),
            Token::Plus => utils::push_all(output, &[32, 43, 32]),
            Token::Minus => utils::push_all(output, &[32, 45, 32]),
            Token::Asterisk => utils::push_all(output, &[42]),
            _ => utils::push_all(output, &[47]),
        }
        proof {
            assert(output@ =~= old(output)@ + (acc + op_trace(opv)));
            assert(old(output)@.is_prefix_of(output@)) by {
                assert(old(output)@ =~= output@.subrange(0, old(output)@.len() as int));
            }
        }
        let ghost m2 = if level == 3 {
            ev_unary(s, next_pos(s, cur), st_cur)
        } else {
            ev_binary(s, next_pos(s, cur), st_cur, (level + 1) as nat)
        };
        let right_r = if level == 3 {
            unary(lexer, output, rng)
        } else {
            binary_level(lexer, output, rng, level + 1)
        };
        proof {
            assert(output@ =~= old(output)@ + (acc + op_trace(opv) + m2.trace));
            assert(old(output)@.is_prefix_of(output@)) by {
                assert(old(output)@ =~= output@.subrange(0, old(output)@.len() as int));
            }
        }
        let right = match right_r {
            Ok(v) => v,
            Err(e) => {
                return Err(e);
            },
        };
        proof {
            assert(clamp_pos(s, cur, m2.pos) == m2.pos);
        }
        left = match op {
            Token::Equals => left.eq(right),
            Token::ExclamationPointEquals => left.ne(right),
            Token::LessThan => left.lt(right),
            Token::LessThanEquals => left.le(right),
            Token::GreaterThan => left.gt(right),
            Token::GreaterThanEquals => left.ge(right),
            Token::Plus => left.add(right),
            Token::Minus => left.sub(right),
            Token::Asterisk => left.mul(right),
            _ => match left.div(right) {
                Ok(v) => v,
                Err(e) => {
                    return Err(EvalError::Value(ValueError::DivisionByZero(e)));
                },
            },
        };
        proof {
            assert(output@.subrange(old(output)@.len() as int, output@.len() as int) =~= acc
                + op_trace(opv) + m2.trace);
        }
    }
}

/// The right-recursive unary rule: `! !x` and `- - x` are both legal, applied
/// innermost first.
fn unary(lexer: &mut Lexer<'_>, output: &mut Vec<u8>, rng: &mut RngSource) -> (r: Result<
    Value,
    EvalError,
>)
    requires
        old(lexer).wf(),
    ensures
        step_ok(*old(lexer), *final(lexer), old(output)@, final(output)@, r is Ok),
        agrees(
            ev_unary(old(lexer).src@, old(lexer).tok_start as int, old(rng)@),
            old(output)@,
            final(output)@,
            final(lexer).tok_start as int,
            final(rng)@,
            r,
        ),
    decreases rest(*old(lexer)), 3int,
{
    let ghost s = lexer.src@;
    let ghost i0 = lexer.tok_start as int;
    if lexer.matches(Token::ExclamationPoint) {
        output.push(33);
        proof {
            assert(clamp_pos(s, i0, next_pos(s, i0)) == next_pos(s, i0));
        }
        let ghost out_mid = output@;
        let right = unary(lexer, output, rng);
        proof {
            let m = ev_unary(s, next_pos(s, i0), old(rng)@);
            assert(output@ =~= old(output)@ + (seq![33u8] + m.trace));
            assert(old(output)@.is_prefix_of(output@)) by {
                assert(old(output)@ =~= output@.subrange(0, old(output)@.len() as int));
            }
        }
        let right = right?;
        Ok(right.not())
    } else if lexer.matches(Token::Minus) {
        output.push(45);
        proof {
            assert(clamp_pos(s, i0, next_pos(s, i0)) == next_pos(s, i0));
        }
        let right = unary(lexer, output, rng);
        proof {
            let m = ev_unary(s, next_pos(s, i0), old(rng)@);
            assert(output@ =~= old(output)@ + (seq![45u8] + m.trace));
            assert(old(output)@.is_prefix_of(output@)) by {
                assert(old(output)@ =~= output@.subrange(0, old(output)@.len() as int));
            }
        }
        let right = right?;
        Ok(right.neg())
    } else {
        primary(lexer, output, rng)
    }
}

/// A grouping, a numeric literal or a roll literal, tried in that order; any
/// other token is the unexpected-token error.
#[verifier::rlimit(100)]
fn primary(lexer: &mut Lexer<'_>, output: &mut Vec<u8>, rng: &mut RngSource) -> (r: Result<
    Value,
    EvalError,
>)
    requires
        old(lexer).wf(),
    ensures
        step_ok(*old(lexer), *final(lexer), old(output)@, final(output)@, r is Ok),
        agrees(
            ev_primary(old(lexer).src@, old(lexer).tok_start as int, old(rng)@),
            old(output)@,
            final(output)@,
            final(lexer).tok_start as int,
            final(rng)@,
            r,
        ),
    decreases rest(*old(lexer)), 2int,
{
    let ghost pre = *lexer;
    let ghost s = pre.src@;
    let ghost i0 = pre.tok_start as int;
    if lexer.matches(Token::OpeningParenthesis) {
        output.push(40);
        proof {
            assert(clamp_pos(s, i0, next_pos(s, i0)) == next_pos(s, i0));
        }
        let v = binary_level(lexer, output, rng, 0);
        proof {
            let m = ev_binary(s, next_pos(s, i0), old(rng)@, 0);
            assert(output@ =~= old(output)@ + (seq![40u8] + m.trace));
            assert(old(output)@.is_prefix_of(output@)) by {
                assert(old(output)@ =~= output@.subrange(0, old(output)@.len() as int));
            }
        }
        let v = v?;
        output.push(41);
        proof {
            let m = ev_binary(s, next_pos(s, i0), old(rng)@, 0);
            assert(output@ =~= old(output)@ + (seq![40u8] + m.trace + seq![41u8]));
            assert(old(output)@.is_prefix_of(output@)) by {
                assert(old(output)@ =~= output@.subrange(0, old(output)@.len() as int));
            }
        }
        if !lexer.matches(Token::ClosingParenthesis) {
            return Err(EvalError::UnexpectedToken);
        }
        return Ok(v);
    }
    match lexer.matching(Token::Number) {
        Some(text) => {
            proof {
                assert(utils::is_ascii_digit(s[i0]));
                lemma_number_text_subrange(s, i0);
            }
            let v = number::build_number(text.as_slice(), output);
            return Ok(v);
        },
        None => (),
    }
    match lexer.matching(Token::Roll) {
        Some(text) => {
            proof {
                assert(lexer::roll_len_at(s, i0) > 0);
                lemma_roll_text_subrange(s, i0);
            }
            match roll::roll_literal(text.as_slice(), output, rng) {
                Ok(v) => Ok(v),
                Err(e) => Err(EvalError::Roll(e)),
            }
        },
        None => Err(EvalError::UnexpectedToken),
    }
}

/// Evaluates one line as trace bytes, exactly as `eval_model` describes: the
/// printable trace of the expression, ` = `, and the decimal approximation of
/// its exact value. The entire input must be one expression; leftover tokens
/// are the unexpected-token error.
pub fn eval_bytes(raw: &[u8], rng: &mut RngSource) -> (r: Result<Vec<u8>, EvalError>)
    ensures
        ({
            let m = eval_model(raw@, old(rng)@);
            &&& final(rng)@ == m.st
            &&& match (r, m.r) {
                (Ok(out), Ok(v)) => out@ == m.trace + seq![32u8, 61u8, 32u8] + approx_decimal(v),
                (Err(a), Err(b)) => a == b,
                _ => false,
            }
        }),
{
    let mut lexer = Lexer::new(raw);
    let mut output: Vec<u8> = Vec::new();
    let value = binary_level(&mut lexer, &mut output, rng, 0)?;
    if !lexer.is_eos() {
        return Err(EvalError::UnexpectedToken);
    }
    let ghost t = output@;
    utils::push_all(&mut output, &[32, 61, 32]);
    let shown = value.display_bytes();
    utils::push_all(&mut output, shown.as_slice());
    proof {
        assert(output@ =~= t + seq![32u8, 61u8, 32u8] + approx_decimal(value@));
    }
    Ok(output)
}

/// Relies on `String::from_utf8_lossy`: ASCII bytes come back as the same
/// characters, one per byte.
#[verifier::external_body]
fn bytes_to_string(v: &Vec<u8>) -> (r: String)
    ensures
        (forall|i: int| 0 <= i < v@.len() ==> v@[i] < 128) ==> r@ == v@.map(
            |i: int, b: u8| b as char,
        ),
{
    String::from_utf8_lossy(v.as_slice()).into_owned()
}

/// Evaluates one line of input with the given random source, exactly as
/// `eval_model` describes; the trace bytes are all printable ASCII in
/// practice, and come back as a string of the same characters.
pub fn eval(raw: &[u8], rng: &mut RngSource) -> (r: Result<String, EvalError>)
    ensures
        ({
            let m = eval_model(raw@, old(rng)@);
            &&& final(rng)@ == m.st
            &&& match (r, m.r) {
                (Ok(out), Ok(v)) => ({
                    let bytes = m.trace + seq![32u8, 61u8, 32u8] + approx_decimal(v);
                    (forall|i: int| 0 <= i < bytes.len() ==> bytes[i] < 128) ==> out@ == bytes.map(
                        |i: int, b: u8| b as char,
                    )
                }),
                (Err(a), Err(b)) => a == b,
                _ => false,
            }
        }),
{
    let bytes = eval_bytes(raw, rng)?;
    Ok(bytes_to_string(&bytes))
}

} // verus!
