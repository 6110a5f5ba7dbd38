use vstd::prelude::*;
use crate::natural::{big_dec_bytes, dec_repr, nats_of};
use crate::roll::realize::{Realize, RealizeV};
use crate::utils::push_all;

verus! {

// The trace rendering of a realization: bracket nesting shows which
// partitions are present, and the values of each partition stand in their
// shuffled order, space-separated.

/// The values of `s`, space-separated, in decimal.
pub open spec fn spaced(s: Seq<nat>) -> Seq<u8>
    decreases s.len(),
{
    if s.len() == 0 {
        Seq::empty()
    } else if s.len() == 1 {
        dec_repr(s[0])
    } else {
        spaced(s.drop_last()) + seq![32u8] + dec_repr(s.last())
    }
}

pub open spec fn opt_block(o: Option<Seq<nat>>, before: Seq<u8>, after: Seq<u8>) -> Seq<u8> {
    match o {
        Some(v) => before + spaced(v) + after,
        None => Seq::empty(),
    }
}

/// `[<least> [<lesser><middle>greater]<greatest>]`, with each optional part
/// and its bracket or threshold mark present only when the partition is.
pub open spec fn render_under(
    least: Option<Seq<nat>>,
    lesser: Option<Seq<nat>>,
    middle: Seq<nat>,
    greater: Option<Seq<nat>>,
    greatest: Option<Seq<nat>>,
) -> Seq<u8> {
    opt_block(least, seq![91u8], Seq::empty()) + seq![91u8] + opt_block(
        lesser,
        Seq::empty(),
        seq![60u8],
    ) + spaced(middle) + opt_block(greater, seq![62u8], Seq::empty()) + seq![93u8] + opt_block(
        greatest,
        Seq::empty(),
        seq![93u8],
    )
}

/// `[<least>]<middle>[<greatest>]`: independent brackets around each present
/// drop partition.
pub open spec fn render_over_dropped(
    least: Option<Seq<nat>>,
    middle: Seq<nat>,
    greatest: Option<Seq<nat>>,
) -> Seq<u8> {
    seq![91u8] + opt_block(least, Seq::empty(), seq![93u8]) + spaced(middle) + opt_block(
        greatest,
        seq![91u8],
        Seq::empty(),
    ) + seq![93u8]
}

/// `[<least> [<lesser>><middle><<greater>]<greatest>]`: the two bands are
/// always present, marked with inverted threshold signs.
pub open spec fn render_over_filtered(
    least: Option<Seq<nat>>,
    lesser: Seq<nat>,
    middle: Seq<nat>,
    greater: Seq<nat>,
    greatest: Option<Seq<nat>>,
) -> Seq<u8> {
    opt_block(least, seq![91u8], Seq::empty()) + seq![91u8] + spaced(lesser) + seq![62u8] + spaced(
        middle,
    ) + seq![60u8] + spaced(greater) + seq![93u8] + opt_block(greatest, Seq::empty(), seq![93u8])
}

pub open spec fn render_spec(r: RealizeV) -> Seq<u8> {
    match r {
        RealizeV::Under { least, lesser, middle, greater, greatest } => render_under(
            least,
            lesser,
            middle,
            greater,
            greatest,
        ),
        RealizeV::OverDropped { least, middle, greatest } => render_over_dropped(
            least,
            middle,
            greatest,
        ),
        RealizeV::OverFiltered { least, lesser, middle, greater, greatest } => render_over_filtered(
            least,
            lesser,
            middle,
            greater,
            greatest,
        ),
    }
}

/// Appends the values of `v`, space-separated, in decimal.
#[verifier::loop_isolation(false)]
pub fn display_spaced(v: &Vec<num::BigUint>, out: &mut Vec<u8>)
    ensures
        final(out)@ == old(out)@ + spaced(nats_of(v@)),
{
    let mut i: usize = 0;
    while i < v.len()
        invariant
            0 <= i <= v@.len(),
            out@ == old(out)@ + spaced(nats_of(v@.subrange(0, i as int))),
        decreases v@.len() - i,
    {
        if i > 0 {
            out.push(32);
        }
        let d = big_dec_bytes(&v[i]);
        push_all(out, d.as_slice());
        proof {
            let cur = nats_of(v@.subrange(0, (i + 1) as int));
            assert(cur.drop_last() =~= nats_of(v@.subrange(0, i as int)));
            assert(cur.last() == crate::natural::nat_of(v@[i as int]));
            if i == 0 {
                assert(out@ =~= old(out)@ + spaced(cur));
            } else {
                assert(out@ =~= old(out)@ + (spaced(cur.drop_last()) + seq![32u8] + dec_repr(
                    cur.last(),
                )));
            }
        }
        i = i + 1;
    }
    proof {
        assert(v@.subrange(0, v@.len() as int) =~= v@);
    }
}

fn render_opt(
    o: &Option<Vec<num::BigUint>>,
    before: Option<u8>,
    after: Option<u8>,
    out: &mut Vec<u8>,
)
    ensures
        final(out)@ == old(out)@ + opt_block(
            crate::roll::realize::opt_nats(*o),
            match before {
                Some(b) => seq![b],
                None => Seq::empty(),
            },
            match after {
                Some(b) => seq![b],
                None => Seq::empty(),
            },
        ),
{
    match o {
        Some(v) => {
            match before {
                Some(b) => out.push(b),
                None => (),
            }
            display_spaced(v, out);
            match after {
                Some(b) => out.push(b),
                None => (),
            }
            proof {
                assert(final(out)@ =~= old(out)@ + opt_block(
                    crate::roll::realize::opt_nats(*o),
                    match before {
                        Some(b) => seq![b],
                        None => Seq::<u8>::empty(),
                    },
                    match after {
                        Some(b) => seq![b],
                        None => Seq::<u8>::empty(),
                    },
                ));
            }
        },
        None => {
            proof {
                assert(final(out)@ =~= old(out)@ + Seq::<u8>::empty());
            }
        },
    }
}

/// Appends the trace text of a realization.
#[verifier::rlimit(100)]
pub fn render(r: &Realize, out: &mut Vec<u8>)
    ensures
        final(out)@ == old(out)@ + render_spec(r@),
{
    match r {
        Realize::Under(u) => {
            render_opt(&u.least, Some(91), None, out);
            out.push(91);
            render_opt(&u.lesser, None, Some(60), out);
            display_spaced(&u.middle, out);
            render_opt(&u.greater, Some(62), None, out);
            out.push(93);
            render_opt(&u.greatest, None, Some(93), out);
            proof {
                assert(final(out)@ =~= old(out)@ + render_spec(r@));
            }
        },
        Realize::OverDropped(u) => {
            out.push(91);
            render_opt(&u.least, None, Some(93), out);
            display_spaced(&u.middle, out);
            render_opt(&u.greatest, Some(91), None, out);
            out.push(93);
            proof {
                assert(final(out)@ =~= old(out)@ + render_spec(r@));
            }
        },
        Realize::OverFiltered(u) => {
            render_opt(&u.least, Some(91), None, out);
            out.push(91);
            display_spaced(&u.lesser, out);
            out.push(62);
            display_spaced(&u.middle, out);
            out.push(60);
            display_spaced(&u.greater, out);
            out.push(93);
            render_opt(&u.greatest, None, Some(93), out);
            proof {
                assert(final(out)@ =~= old(out)@ + render_spec(r@));
            }
        },
    }
}

} // verus!
