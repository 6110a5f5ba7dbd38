use vstd::prelude::*;
use crate::lexer::{digits_end, digits_len, is_roll_text, lemma_digits_run, roll_len_at};
use crate::natural::{big_from_u64, digits_value, nat_of};
use crate::utils::{all_digits, copy_range, parse_validated};

verus! {

// The roll-specification parser. The lexer has already matched the overall
// shape `digits? d digits (letter digits*)*`; here the argument groups are
// read against the four fixed keys and each value's digits are required to be
// present, exactly as `parse_spec` states.

/// A structured roll specification.
pub struct Parse {
    pub roll_len: num::BigUint,
    pub die_size: num::BigUint,
    pub drop_least: Option<num::BigUint>,
    pub drop_greatest: Option<num::BigUint>,
    pub count_greater: Option<num::BigUint>,
    pub count_lesser: Option<num::BigUint>,
}

#[derive(Debug, PartialEq, Eq, Structural)]
pub enum ParseError {
    InvalidArgumentKey,
    RepeatedArgumentKey,
    EmptyArgumentValue,
}

pub ghost struct ParseV {
    pub roll_len: nat,
    pub die_size: nat,
    pub drop_least: Option<nat>,
    pub drop_greatest: Option<nat>,
    pub count_greater: Option<nat>,
    pub count_lesser: Option<nat>,
}

pub open spec fn opt_nat_of(o: Option<num::BigUint>) -> Option<nat> {
    match o {
        Some(b) => Some(nat_of(b)),
        None => None,
    }
}

impl View for Parse {
    type V = ParseV;

    open spec fn view(&self) -> ParseV {
        ParseV {
            roll_len: nat_of(self.roll_len),
            die_size: nat_of(self.die_size),
            drop_least: opt_nat_of(self.drop_least),
            drop_greatest: opt_nat_of(self.drop_greatest),
            count_greater: opt_nat_of(self.count_greater),
            count_lesser: opt_nat_of(self.count_lesser),
        }
    }
}

/// The four argument slots while the groups are being read: the raw digit run
/// of each key that has appeared so far.
pub ghost struct ArgsV {
    pub dl: Option<Seq<u8>>,
    pub dg: Option<Seq<u8>>,
    pub cg: Option<Seq<u8>>,
    pub cl: Option<Seq<u8>>,
}

pub open spec fn key_at(s: Seq<u8>, i: int, a: u8, b: u8) -> bool {
    i + 2 <= s.len() && s[i] == a && s[i + 1] == b
}

/// Reads the argument groups from position `i` on.
pub open spec fn args_spec(s: Seq<u8>, i: int, acc: ArgsV) -> Result<ArgsV, ParseError>
    decreases s.len() - i,
        via args_spec_decreases
{
    if !(0 <= i < s.len()) {
        Ok(acc)
    } else if key_at(s, i, 100, 108) {  // "dl"
        if acc.dl is Some {
            Err(ParseError::RepeatedArgumentKey)
        } else {
            let v = digits_len(s, i + 2) as int;
            args_spec(s, i + 2 + v, ArgsV { dl: Some(s.subrange(i + 2, i + 2 + v)), ..acc })
        }
    } else if key_at(s, i, 100, 103) {  // "dg"
        if acc.dg is Some {
            Err(ParseError::RepeatedArgumentKey)
        } else {
            let v = digits_len(s, i + 2) as int;
            args_spec(s, i + 2 + v, ArgsV { dg: Some(s.subrange(i + 2, i + 2 + v)), ..acc })
        }
    } else if key_at(s, i, 99, 103) {  // "cg"
        if acc.cg is Some {
            Err(ParseError::RepeatedArgumentKey)
        } else {
            let v = digits_len(s, i + 2) as int;
            args_spec(s, i + 2 + v, ArgsV { cg: Some(s.subrange(i + 2, i + 2 + v)), ..acc })
        }
    } else if key_at(s, i, 99, 108) {  // "cl"
        if acc.cl is Some {
            Err(ParseError::RepeatedArgumentKey)
        } else {
            let v = digits_len(s, i + 2) as int;
            args_spec(s, i + 2 + v, ArgsV { cl: Some(s.subrange(i + 2, i + 2 + v)), ..acc })
        }
    } else {
        Err(ParseError::InvalidArgumentKey)
    }
}

#[via_fn]
proof fn args_spec_decreases(s: Seq<u8>, i: int, acc: ArgsV) {
    if 0 <= i && i + 2 <= s.len() {
        crate::lexer::lemma_digits_len_bound(s, i + 2);
    }
}

pub open spec fn opt_is_empty(o: Option<Seq<u8>>) -> bool {
    match o {
        Some(v) => v.len() == 0,
        None => false,
    }
}

pub open spec fn arg_val(o: Option<Seq<u8>>) -> Option<nat> {
    match o {
        Some(v) => Some(digits_value(v)),
        None => None,
    }
}

/// What parsing a whole roll literal yields.
pub open spec fn parse_spec(s: Seq<u8>) -> Result<ParseV, ParseError> {
    let d = digits_len(s, 0) as int;
    let e = digits_len(s, d + 1) as int;
    match args_spec(s, d + 1 + e, ArgsV { dl: None, dg: None, cg: None, cl: None }) {
        Err(er) => Err(er),
        Ok(a) => if opt_is_empty(a.dl) || opt_is_empty(a.dg) || opt_is_empty(a.cg) || opt_is_empty(
            a.cl,
        ) {
            Err(ParseError::EmptyArgumentValue)
        } else {
            Ok(
                ParseV {
                    roll_len: if d == 0 {
                        1
                    } else {
                        digits_value(s.subrange(0, d))
                    },
                    die_size: digits_value(s.subrange(d + 1, d + 1 + e)),
                    drop_least: arg_val(a.dl),
                    drop_greatest: arg_val(a.dg),
                    count_greater: arg_val(a.cg),
                    count_lesser: arg_val(a.cl),
                },
            )
        },
    }
}

pub open spec fn opt_view(o: Option<Vec<u8>>) -> Option<Seq<u8>> {
    match o {
        Some(v) => Some(v@),
        None => None,
    }
}

pub open spec fn opt_digit_run(o: Option<Vec<u8>>) -> bool {
    match o {
        Some(v) => all_digits(v@),
        None => true,
    }
}

/// Splits a byte string at the end of its leading digit run.
pub fn split_once_number(s: &[u8]) -> (r: (Vec<u8>, Vec<u8>))
    ensures
        r.0@ == s@.subrange(0, digits_len(s@, 0) as int),
        r.1@ == s@.subrange(digits_len(s@, 0) as int, s@.len() as int),
{
    let mid = digits_end(s, 0);
    (copy_range(s, 0, mid), copy_range(s, mid, s.len()))
}

/// Parses a roll literal into its specification, exactly as `parse_spec`
/// describes.
#[verifier::loop_isolation(false)]
pub fn parse_roll(raw: &[u8]) -> (r: Result<Parse, ParseError>)
    requires
        is_roll_text(raw@),
    ensures
        ({
            let sp = parse_spec(raw@);
            match r {
                Ok(p) => sp matches Ok(v) && p@ == v,
                Err(e) => sp matches Err(e2) && e == e2,
            }
        }),
{
    let ghost s = raw@;
    proof {
        assert(roll_len_at(s, 0) == s.len());
        assert(digits_len(s, 0) < s.len());
    }
    let n = raw.len();
    let d = digits_end(raw, 0);
    assert(d < n);
    let ds_end = digits_end(raw, d + 1);
    let mut dl: Option<Vec<u8>> = None;
    let mut dg: Option<Vec<u8>> = None;
    let mut cg: Option<Vec<u8>> = None;
    let mut cl: Option<Vec<u8>> = None;
    let ghost acc0 = ArgsV { dl: None, dg: None, cg: None, cl: None };
    let mut i: usize = ds_end;
    while i < raw.len()
        invariant
            raw@ == s,
            ds_end <= i <= s.len(),
            args_spec(s, ds_end as int, acc0) == args_spec(
                s,
                i as int,
                ArgsV { dl: opt_view(dl), dg: opt_view(dg), cg: opt_view(cg), cl: opt_view(cl) },
            ),
            opt_digit_run(dl) && opt_digit_run(dg) && opt_digit_run(cg) && opt_digit_run(cl),
        decreases s.len() - i,
    {
        let two = raw.len() >= 2 && i <= raw.len() - 2;
        if two && raw[i] == 100 && raw[i + 1] == 108 {
            if dl.is_some() {
                return Err(ParseError::RepeatedArgumentKey);
            }
            let v_end = digits_end(raw, i + 2);
            proof {
                lemma_digits_run(s, i + 2);
            }
            dl = Some(copy_range(raw, i + 2, v_end));
            i = v_end;
        } else if two && raw[i] == 100 && raw[i + 1] == 103 {
            if dg.is_some() {
                return Err(ParseError::RepeatedArgumentKey);
            }
            let v_end = digits_end(raw, i + 2);
            proof {
                lemma_digits_run(s, i + 2);
            }
            dg = Some(copy_range(raw, i + 2, v_end));
            i = v_end;
        } else if two && raw[i] == 99 && raw[i + 1] == 103 {
            if cg.is_some() {
                return Err(ParseError::RepeatedArgumentKey);
            }
            let v_end = digits_end(raw, i + 2);
            proof {
                lemma_digits_run(s, i + 2);
            }
            cg = Some(copy_range(raw, i + 2, v_end));
            i = v_end;
        } else if two && raw[i] == 99 && raw[i + 1] == 108 {
            if cl.is_some() {
                return Err(ParseError::RepeatedArgumentKey);
            }
            let v_end = digits_end(raw, i + 2);
            proof {
                lemma_digits_run(s, i + 2);
            }
            cl = Some(copy_range(raw, i + 2, v_end));
            i = v_end;
        } else {
            return Err(ParseError::InvalidArgumentKey);
        }
    }
    if matches!(&dl, Some(v) if v.len() == 0) {
        return Err(ParseError::EmptyArgumentValue);
    }
    if matches!(&dg, Some(v) if v.len() == 0) {
        return Err(ParseError::EmptyArgumentValue);
    }
    if matches!(&cg, Some(v) if v.len() == 0) {
        return Err(ParseError::EmptyArgumentValue);
    }
    if matches!(&cl, Some(v) if v.len() == 0) {
        return Err(ParseError::EmptyArgumentValue);
    }
    proof {
        lemma_digits_run(s, 0);
        lemma_digits_run(s, d + 1);
    }
    let roll_len = if d == 0 {
        big_from_u64(1)
    } else {
        let t = copy_range(raw, 0, d);
        parse_validated(t.as_slice())
    };
    let die = copy_range(raw, d + 1, ds_end);
    let die_size = parse_validated(die.as_slice());
    let drop_least = match dl {
        Some(v) => Some(parse_validated(v.as_slice())),
        None => None,
    };
    let drop_greatest = match dg {
        Some(v) => Some(parse_validated(v.as_slice())),
        None => None,
    };
    let count_greater = match cg {
        Some(v) => Some(parse_validated(v.as_slice())),
        None => None,
    };
    let count_lesser = match cl {
        Some(v) => Some(parse_validated(v.as_slice())),
        None => None,
    };
    Ok(Parse { roll_len, die_size, drop_least, drop_greatest, count_greater, count_lesser })
}

} // verus!
