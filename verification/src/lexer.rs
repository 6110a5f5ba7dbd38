use vstd::prelude::*;
use crate::utils::{is_ascii_alpha, is_ascii_digit};

verus! {

// The tokenizer. One line of input is cut, with maximal munch, into operator
// tokens, numeric literals (`digits`, optionally `. digits`), and roll
// literals (`digits? d digits` followed by letter-plus-digits argument
// groups). Whitespace is skipped; a byte no token can start from becomes a
// `Bad` token, which no grammar rule accepts, so it surfaces as an
// unexpected-token error exactly where the scan reaches it.

pub open spec fn is_ws(b: u8) -> bool {
    b == 32 || (9 <= b <= 13)
}

/// Length of the whitespace run beginning at `i`.
pub open spec fn ws_len(s: Seq<u8>, i: int) -> nat
    decreases s.len() - i,
{
    if 0 <= i < s.len() && is_ws(s[i]) {
        1 + ws_len(s, i + 1)
    } else {
        0
    }
}

/// Length of the digit run beginning at `i`.
pub open spec fn digits_len(s: Seq<u8>, i: int) -> nat
    decreases s.len() - i,
{
    if 0 <= i < s.len() && is_ascii_digit(s[i]) {
        1 + digits_len(s, i + 1)
    } else {
        0
    }
}

pub proof fn lemma_digits_len_bound(s: Seq<u8>, i: int)
    requires
        0 <= i <= s.len(),
    ensures
        i + digits_len(s, i) <= s.len(),
    decreases s.len() - i,
{
    if i < s.len() && is_ascii_digit(s[i]) {
        lemma_digits_len_bound(s, i + 1);
    }
}

/// Length of the run of roll argument groups (a letter, then a digit run)
/// beginning at `i`.
pub open spec fn args_len(s: Seq<u8>, i: int) -> nat
    decreases s.len() - i,
        via args_len_decreases
{
    if 0 <= i < s.len() && is_ascii_alpha(s[i]) {
        let d = digits_len(s, i + 1);
        1 + d + args_len(s, i + 1 + d)
    } else {
        0
    }
}

#[via_fn]
proof fn args_len_decreases(s: Seq<u8>, i: int) {
    if 0 <= i < s.len() && is_ascii_alpha(s[i]) {
        lemma_digits_len_bound(s, i + 1);
    }
}

pub proof fn lemma_args_len_bound(s: Seq<u8>, i: int)
    requires
        0 <= i <= s.len(),
    ensures
        i + args_len(s, i) <= s.len(),
    decreases s.len() - i,
{
    if i < s.len() && is_ascii_alpha(s[i]) {
        lemma_digits_len_bound(s, i + 1);
        lemma_args_len_bound(s, i + 1 + digits_len(s, i + 1));
    }
}

/// Length of the roll literal beginning at `i`, or zero if none begins there.
/// A roll literal is never empty, so zero is unambiguous.
pub open spec fn roll_len_at(s: Seq<u8>, i: int) -> nat {
    let d = digits_len(s, i);
    let j = i + d;
    if 0 <= i && j < s.len() && s[j] == 100 && digits_len(s, j + 1) >= 1 {
        let e = digits_len(s, j + 1);
        d + 1 + e + args_len(s, j + 1 + e)
    } else {
        0
    }
}

/// Length of the numeric literal beginning at `i` (meaningful when a digit
/// stands at `i`).
pub open spec fn number_len_at(s: Seq<u8>, i: int) -> nat {
    let d = digits_len(s, i);
    if i + d < s.len() && s[i + d] == 46 {
        d + 1 + digits_len(s, i + d + 1)
    } else {
        d
    }
}

/// The whole of `s` is one roll literal.
pub open spec fn is_roll_text(s: Seq<u8>) -> bool {
    s.len() > 0 && roll_len_at(s, 0) == s.len()
}

/// The whole of `s` is one numeric literal.
pub open spec fn is_number_text(s: Seq<u8>) -> bool {
    s.len() > 0 && is_ascii_digit(s[0]) && number_len_at(s, 0) == s.len()
}

/// A token, with the source slice for the two literal forms.
pub ghost enum TokV {
    Bang,
    Eq,
    BangEq,
    Lt,
    Le,
    Gt,
    Ge,
    Star,
    Slash,
    Plus,
    Minus,
    LParen,
    RParen,
    Number(Seq<u8>),
    Roll(Seq<u8>),
    Bad,
}

/// The token beginning at `i` (meaningful when `i` is in range and not on
/// whitespace), and the position just after it.
pub open spec fn token_at(s: Seq<u8>, i: int) -> (TokV, int) {
    let b = s[i];
    if b == 33 {  // '!'
        if i + 1 < s.len() && s[i + 1] == 61 {
            (TokV::BangEq, i + 2)
        } else {
            (TokV::Bang, i + 1)
        }
    } else if b == 60 {  // '<'
        if i + 1 < s.len() && s[i + 1] == 61 {
            (TokV::Le, i + 2)
        } else {
            (TokV::Lt, i + 1)
        }
    } else if b == 62 {  // '>'
        if i + 1 < s.len() && s[i + 1] == 61 {
            (TokV::Ge, i + 2)
        } else {
            (TokV::Gt, i + 1)
        }
    } else if b == 61 {  // '='
        (TokV::Eq, i + 1)
    } else if b == 42 {  // '*'
        (TokV::Star, i + 1)
    } else if b == 47 {  // '/'
        (TokV::Slash, i + 1)
    } else if b == 43 {  // '+'
        (TokV::Plus, i + 1)
    } else if b == 45 {  // '-'
        (TokV::Minus, i + 1)
    } else if b == 40 {  // '('
        (TokV::LParen, i + 1)
    } else if b == 41 {  // ')'
        (TokV::RParen, i + 1)
    } else if is_ascii_digit(b) || b == 100 {  // a digit or 'd'
        let rl = roll_len_at(s, i);
        if rl > 0 {
            (TokV::Roll(s.subrange(i, i + rl)), i + rl)
        } else if is_ascii_digit(b) {
            let nl = number_len_at(s, i);
            (TokV::Number(s.subrange(i, i + nl)), i + nl)
        } else {
            (TokV::Bad, i + 1)
        }
    } else {
        (TokV::Bad, i + 1)
    }
}

/// Every byte inside a digit run is a digit.
pub proof fn lemma_digits_run(s: Seq<u8>, i: int)
    ensures
        forall|j: int| i <= j < i + digits_len(s, i) ==> is_ascii_digit(#[trigger] s[j]),
    decreases s.len() - i,
{
    if 0 <= i < s.len() && is_ascii_digit(s[i]) {
        lemma_digits_run(s, i + 1);
    }
}

pub proof fn lemma_digits_len_subrange(s: Seq<u8>, a: int, b: int, i: int)
    requires
        0 <= i,
        0 <= a <= b <= s.len(),
        digits_len(s, a + i) <= b - a - i,
    ensures
        digits_len(s.subrange(a, b), i) == digits_len(s, a + i),
    decreases b - a - i,
{
    let t = s.subrange(a, b);
    if i < b - a && is_ascii_digit(t[i]) {
        lemma_digits_len_subrange(s, a, b, i + 1);
    }
}

pub proof fn lemma_args_len_subrange(s: Seq<u8>, a: int, b: int, i: int)
    requires
        0 <= i,
        0 <= a <= b <= s.len(),
        args_len(s, a + i) <= b - a - i,
    ensures
        args_len(s.subrange(a, b), i) == args_len(s, a + i),
    decreases b - a - i,
{
    let t = s.subrange(a, b);
    if i < b - a && is_ascii_alpha(t[i]) {
        let d = digits_len(s, a + i + 1);
        lemma_digits_len_subrange(s, a, b, i + 1);
        lemma_args_len_subrange(s, a, b, i + 1 + d);
    }
}

/// The slice that a roll token covers is itself a complete roll literal.
pub proof fn lemma_roll_text_subrange(s: Seq<u8>, i: int)
    requires
        0 <= i,
        roll_len_at(s, i) > 0,
        i + roll_len_at(s, i) <= s.len(),
    ensures
        is_roll_text(s.subrange(i, i + roll_len_at(s, i))),
{
    let rl = roll_len_at(s, i) as int;
    let t = s.subrange(i, i + rl);
    let d = digits_len(s, i) as int;
    let e = digits_len(s, i + d + 1) as int;
    let ar = args_len(s, i + d + 1 + e) as int;
    lemma_digits_len_subrange(s, i, i + rl, 0);
    lemma_digits_len_subrange(s, i, i + rl, d + 1);
    lemma_args_len_subrange(s, i, i + rl, d + 1 + e);
    assert(t[d] == 100);
    assert(roll_len_at(t, 0) == t.len());
}

/// The slice that a number token covers is itself a complete numeric literal.
pub proof fn lemma_number_text_subrange(s: Seq<u8>, i: int)
    requires
        0 <= i < s.len(),
        is_ascii_digit(s[i]),
        i + number_len_at(s, i) <= s.len(),
    ensures
        is_number_text(s.subrange(i, i + number_len_at(s, i))),
{
    let nl = number_len_at(s, i) as int;
    let t = s.subrange(i, i + nl);
    let d = digits_len(s, i) as int;
    assert(d >= 1);
    lemma_digits_len_subrange(s, i, i + nl, 0);
    if i + d < s.len() && s[i + d] == 46 {
        lemma_digits_len_subrange(s, i, i + nl, d + 1);
        assert(t[d] == 46);
    }
    assert(number_len_at(t, 0) == t.len());
}

#[derive(Clone, Copy, PartialEq, Eq, Structural, Debug)]
pub(crate) enum Token {
    ExclamationPoint,
    Equals,
    ExclamationPointEquals,
    LessThan,
    LessThanEquals,
    GreaterThan,
    GreaterThanEquals,
    Asterisk,
    Slant,
    Plus,
    Minus,
    OpeningParenthesis,
    ClosingParenthesis,
    Number,
    Roll,
}

/// The lookahead: a recognized token, an unrecognized run, or end of input.
#[derive(Clone, Copy, PartialEq, Eq, Structural, Debug)]
pub(crate) enum Peeked {
    Tok(Token),
    Bad,
    End,
}

/// The executable token kind `t` names the spec token `v`.
pub(crate) open spec fn tok_is(v: TokV, t: Token) -> bool {
    match (v, t) {
        (TokV::Bang, Token::ExclamationPoint) => true,
        (TokV::Eq, Token::Equals) => true,
        (TokV::BangEq, Token::ExclamationPointEquals) => true,
        (TokV::Lt, Token::LessThan) => true,
        (TokV::Le, Token::LessThanEquals) => true,
        (TokV::Gt, Token::GreaterThan) => true,
        (TokV::Ge, Token::GreaterThanEquals) => true,
        (TokV::Star, Token::Asterisk) => true,
        (TokV::Slash, Token::Slant) => true,
        (TokV::Plus, Token::Plus) => true,
        (TokV::Minus, Token::Minus) => true,
        (TokV::LParen, Token::OpeningParenthesis) => true,
        (TokV::RParen, Token::ClosingParenthesis) => true,
        (TokV::Number(_), Token::Number) => true,
        (TokV::Roll(_), Token::Roll) => true,
        _ => false,
    }
}

/// What `scan` promises: `st` is the start of the token found from `from`,
/// `en` the position just after it, and `k` its kind.
pub(crate) open spec fn scan_ok(s: Seq<u8>, from: int, k: Peeked, st: int, en: int) -> bool {
    &&& st == from + ws_len(s, from)
    &&& st <= en <= s.len()
    &&& match k {
        Peeked::End => st == s.len() && en == st,
        Peeked::Bad => st < s.len() && !is_ws(s[st]) && token_at(s, st).0 is Bad && token_at(
            s,
            st,
        ).1 == en,
        Peeked::Tok(t) => st < s.len() && !is_ws(s[st]) && tok_is(token_at(s, st).0, t)
            && token_at(s, st).1 == en && st < en,
    }
}

fn ws_end(src: &[u8], from: usize) -> (r: usize)
    requires
        from <= src@.len(),
    ensures
        r as int == from + ws_len(src@, from as int),
        from <= r <= src@.len(),
        r < src@.len() ==> !is_ws(src@[r as int]),
{
    let mut i: usize = from;
    while i < src.len() && (src[i] == 32 || (9 <= src[i] && src[i] <= 13))
        invariant
            from <= i <= src@.len(),
            ws_len(src@, from as int) == (i - from) + ws_len(src@, i as int),
        decreases src@.len() - i,
    {
        i = i + 1;
    }
    i
}

pub(crate) fn digits_end(src: &[u8], from: usize) -> (r: usize)
    requires
        from <= src@.len(),
    ensures
        r as int == from + digits_len(src@, from as int),
        from <= r <= src@.len(),
        r < src@.len() ==> !is_ascii_digit(src@[r as int]),
{
    let mut i: usize = from;
    while i < src.len() && 48 <= src[i] && src[i] <= 57
        invariant
            from <= i <= src@.len(),
            digits_len(src@, from as int) == (i - from) + digits_len(src@, i as int),
        decreases src@.len() - i,
    {
        i = i + 1;
    }
    i
}

fn args_end(src: &[u8], from: usize) -> (r: usize)
    requires
        from <= src@.len(),
    ensures
        r as int == from + args_len(src@, from as int),
        from <= r <= src@.len(),
        r < src@.len() ==> !is_ascii_alpha(src@[r as int]),
{
    let mut i: usize = from;
    while i < src.len() && ((65 <= src[i] && src[i] <= 90) || (97 <= src[i] && src[i] <= 122))
        invariant
            from <= i <= src@.len(),
            args_len(src@, from as int) == (i - from) + args_len(src@, i as int),
        decreases src@.len() - i,
    {
        i = digits_end(src, i + 1);
    }
    i
}

/// Finds the token that begins at or after `from`.
fn scan(src: &[u8], from: usize) -> (r: (Peeked, usize, usize))
    requires
        from <= src@.len(),
    ensures
        scan_ok(src@, from as int, r.0, r.1 as int, r.2 as int),
{
    let st = ws_end(src, from);
    if st == src.len() {
        return (Peeked::End, st, st);
    }
    let b = src[st];
    if b == 33 {
        if st + 1 < src.len() && src[st + 1] == 61 {
            (Peeked::Tok(Token::ExclamationPointEquals), st, st + 2)
        } else {
            (Peeked::Tok(Token::ExclamationPoint), st, st + 1)
        }
    } else if b == 60 {
        if st + 1 < src.len() && src[st + 1] == 61 {
            (Peeked::Tok(Token::LessThanEquals), st, st + 2)
        } else {
            (Peeked::Tok(Token::LessThan), st, st + 1)
        }
    } else if b == 62 {
        if st + 1 < src.len() && src[st + 1] == 61 {
            (Peeked::Tok(Token::GreaterThanEquals), st, st + 2)
        } else {
            (Peeked::Tok(Token::GreaterThan), st, st + 1)
        }
    } else if b == 61 {
        (Peeked::Tok(Token::Equals), st, st + 1)
    } else if b == 42 {
        (Peeked::Tok(Token::Asterisk), st, st + 1)
    } else if b == 47 {
        (Peeked::Tok(Token::Slant), st, st + 1)
    } else if b == 43 {
        (Peeked::Tok(Token::Plus), st, st + 1)
    } else if b == 45 {
        (Peeked::Tok(Token::Minus), st, st + 1)
    } else if b == 40 {
        (Peeked::Tok(Token::OpeningParenthesis), st, st + 1)
    } else if b == 41 {
        (Peeked::Tok(Token::ClosingParenthesis), st, st + 1)
    } else if (48 <= b && b <= 57) || b == 100 {
        let d_end = digits_end(src, st);
        if d_end < src.len() && src[d_end] == 100 {
            let ds_end = digits_end(src, d_end + 1);
            if ds_end > d_end + 1 {
                let a_end = args_end(src, ds_end);
                assert(roll_len_at(src@, st as int) == a_end - st);
                return (Peeked::Tok(Token::Roll), st, a_end);
            }
        }
        assert(roll_len_at(src@, st as int) == 0);
        if 48 <= b && b <= 57 {
            let mut en: usize = d_end;
            if d_end < src.len() && src[d_end] == 46 {
                en = digits_end(src, d_end + 1);
            }
            assert(number_len_at(src@, st as int) == en - st);
            (Peeked::Tok(Token::Number), st, en)
        } else {
            (Peeked::Bad, st, st + 1)
        }
    } else {
        (Peeked::Bad, st, st + 1)
    }
}

/// One token of lookahead over a byte slice.
pub(crate) struct Lexer<'a> {
    pub(crate) src: &'a [u8],
    pub(crate) next: Peeked,
    pub(crate) tok_start: usize,
    pub(crate) tok_end: usize,
}

impl<'a> Lexer<'a> {
    /// The stored lookahead is exactly what a scan at `tok_start` finds.
    pub(crate) open spec fn wf(&self) -> bool {
        let s = self.src@;
        &&& self.tok_start <= self.tok_end <= s.len()
        &&& match self.next {
            Peeked::End => self.tok_start == s.len() && self.tok_end == s.len(),
            Peeked::Bad => self.tok_start < s.len() && !is_ws(s[self.tok_start as int])
                && token_at(s, self.tok_start as int).0 is Bad && token_at(
                s,
                self.tok_start as int,
            ).1 == self.tok_end,
            Peeked::Tok(t) => self.tok_start < s.len() && !is_ws(s[self.tok_start as int])
                && tok_is(token_at(s, self.tok_start as int).0, t) && token_at(
                s,
                self.tok_start as int,
            ).1 == self.tok_end && self.tok_start < self.tok_end,
        }
    }

    pub(crate) fn new(src: &'a [u8]) -> (r: Lexer<'a>)
        ensures
            r.wf(),
            r.src@ == src@,
            r.tok_start as int == ws_len(src@, 0),
    {
        let (k, st, en) = scan(src, 0);
        Lexer { src, next: k, tok_start: st, tok_end: en }
    }

    pub(crate) fn is_eos(&self) -> (r: bool)
        ensures
            r == (self.next is End),
    {
        match self.next {
            Peeked::End => true,
            _ => false,
        }
    }

    fn advance(&mut self)
        requires
            old(self).wf(),
        ensures
            final(self).wf(),
            final(self).src == old(self).src,
            final(self).tok_start as int == old(self).tok_end + ws_len(
                old(self).src@,
                old(self).tok_end as int,
            ),
    {
        let (k, st, en) = scan(self.src, self.tok_end);
        self.next = k;
        self.tok_start = st;
        self.tok_end = en;
    }

    /// Consumes the current token exactly when it is a `token`.
    pub(crate) fn matches(&mut self, token: Token) -> (r: bool)
        requires
            old(self).wf(),
        ensures
            final(self).wf(),
            final(self).src == old(self).src,
            r == (old(self).next == Peeked::Tok(token)),
            !r ==> *final(self) == *old(self),
            r ==> final(self).tok_start as int == old(self).tok_end + ws_len(
                old(self).src@,
                old(self).tok_end as int,
            ) && old(self).tok_start < old(self).tok_end,
    {
        let m = match self.next {
            Peeked::Tok(t) => t == token,
            _ => false,
        };
        if m {
            self.advance();
        }
        m
    }

    /// Like `matches`, and hands back the bytes the token covered.
    pub(crate) fn matching(&mut self, token: Token) -> (r: Option<Vec<u8>>)
        requires
            old(self).wf(),
        ensures
            final(self).wf(),
            final(self).src == old(self).src,
            r is Some <==> old(self).next == Peeked::Tok(token),
            r is None ==> *final(self) == *old(self),
            match r {
                Some(v) => v@ == old(self).src@.subrange(
                    old(self).tok_start as int,
                    old(self).tok_end as int,
                ) && final(self).tok_start as int == old(self).tok_end + ws_len(
                    old(self).src@,
                    old(self).tok_end as int,
                ) && old(self).tok_start < old(self).tok_end,
                None => true,
            },
    {
        let m = match self.next {
            Peeked::Tok(t) => t == token,
            _ => false,
        };
        if m {
            let slice = crate::utils::copy_range(self.src, self.tok_start, self.tok_end);
            self.advance();
            Some(slice)
        } else {
            None
        }
    }
}

} // verus!
