use vstd::prelude::*;

pub mod parse;
pub mod realize;
pub mod value;

use crate::lexer::is_roll_text;
use crate::rat::rat_of_nat;
use crate::rng::RngSource;
use crate::value::Value;
use parse::{parse_roll, parse_spec, ParseError};
use realize::{realize, realize_ok, rz_model, rz_state, RealizeError, RealizeV};
use crate::roll::realize::display::render_spec;
use value::{roll_value, rz_value};

verus! {

#[derive(Debug, PartialEq, Eq, Structural)]
pub enum RollError {
    Parse(ParseError),
    Realize(RealizeError),
}

/// What evaluating one roll literal from generator state `st` yields.
pub open spec fn roll_model(s: Seq<u8>, st: Seq<u8>) -> Result<RealizeV, RollError> {
    match parse_spec(s) {
        Err(e) => Err(RollError::Parse(e)),
        Ok(p) => match rz_model(p, st) {
            Err(e) => Err(RollError::Realize(e)),
            Ok(rv) => Ok(rv),
        },
    }
}

/// The generator state one roll literal leaves behind: unchanged when the
/// literal is rejected (all checks precede any sampling), else the state
/// after the realization's sampling and shuffles.
pub open spec fn roll_state(s: Seq<u8>, st: Seq<u8>) -> Seq<u8> {
    match parse_spec(s) {
        Err(_) => st,
        Ok(p) => rz_state(p, st),
    }
}

/// Evaluates one roll literal: parses it, realizes it, appends the trace text
/// of the realization, and reduces it to its value.
pub fn roll_literal(raw: &[u8], output: &mut Vec<u8>, rng: &mut RngSource) -> (r: Result<
    Value,
    RollError,
>)
    requires
        is_roll_text(raw@),
    ensures
        final(rng)@ == roll_state(raw@, old(rng)@),
        match r {
            Ok(v) => roll_model(raw@, old(rng)@) matches Ok(rv) && v@ == rat_of_nat(rz_value(rv))
                && final(output)@ == old(output)@ + render_spec(rv) && (parse_spec(raw@)
                matches Ok(p) && realize_ok_of(rv, p, old(rng)@)),
            Err(e) => roll_model(raw@, old(rng)@) == Err::<RealizeV, RollError>(e)
                && final(output)@ == old(output)@,
        },
{
    let parsed = match parse_roll(raw) {
        Ok(p) => p,
        Err(e) => {
            return Err(RollError::Parse(e));
        },
    };
    let rl = match realize(parsed, rng) {
        Ok(rl) => rl,
        Err(e) => {
            return Err(RollError::Realize(e));
        },
    };
    realize::display::render(&rl, output);
    Ok(roll_value(&rl))
}

/// `realize_ok` restated of the realization's view: what `roll_literal`
/// passes through about a successful realization.
pub open spec fn realize_ok_of(rv: RealizeV, p: parse::ParseV, st: Seq<u8>) -> bool {
    exists|rl: realize::Realize| rl@ == rv && #[trigger] realize_ok(rl, p, st)
}

} // verus!
