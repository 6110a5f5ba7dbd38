use vstd::prelude::*;
use crate::natural::{big_add, big_from_usize, nat_of, nats_of};
use crate::rat::rat_of_nat;
use crate::roll::realize::{
    band_drop, over_dropped, over_filtered, realize_ok, Realize, RealizeV,
};
use crate::roll::parse::ParseV;
use crate::value::Value;

verus! {

// The numeric value of a realization: zero for the two degenerate shapes, and
// for the normal shape either the sum of the middle partition or, when a
// count threshold was present, the number of dice it kept.

pub open spec fn sum_nats(s: Seq<nat>) -> nat
    decreases s.len(),
{
    if s.len() == 0 {
        0
    } else {
        sum_nats(s.drop_last()) + s.last()
    }
}

pub open spec fn rz_value(r: RealizeV) -> nat {
    match r {
        RealizeV::Under { lesser, middle, greater, .. } => if lesser is Some || greater is Some {
            middle.len()
        } else {
            sum_nats(middle)
        },
        RealizeV::OverDropped { .. } => 0,
        RealizeV::OverFiltered { .. } => 0,
    }
}

/// Reduces a realization to its numeric value, exactly `rz_value` of it.
#[verifier::loop_isolation(false)]
pub fn roll_value(r: &Realize) -> (v: Value)
    ensures
        v@ == rat_of_nat(rz_value(r@)),
{
    match r {
        Realize::Under(u) => {
            if u.lesser.is_some() || u.greater.is_some() {
                let n = big_from_usize(u.middle.len());
                Value::from_big(&n)
            } else {
                let mut acc = big_from_usize(0);
                let mut i: usize = 0;
                while i < u.middle.len()
                    invariant
                        0 <= i <= u.middle@.len(),
                        nat_of(acc) == sum_nats(nats_of(u.middle@.subrange(0, i as int))),
                    decreases u.middle@.len() - i,
                {
                    acc = big_add(&acc, &u.middle[i]);
                    proof {
                        let cur = nats_of(u.middle@.subrange(0, (i + 1) as int));
                        assert(cur.drop_last() =~= nats_of(u.middle@.subrange(0, i as int)));
                        assert(cur.last() == nat_of(u.middle@[i as int]));
                    }
                    i = i + 1;
                }
                proof {
                    assert(u.middle@.subrange(0, u.middle@.len() as int) =~= u.middle@);
                }
                Value::from_big(&acc)
            }
        },
        Realize::OverDropped(_) => {
            let n = big_from_usize(0);
            Value::from_big(&n)
        },
        Realize::OverFiltered(_) => {
            let n = big_from_usize(0);
            Value::from_big(&n)
        },
    }
}

proof fn lemma_sum_nats_remove(s: Seq<nat>, j: int)
    requires
        0 <= j < s.len(),
    ensures
        sum_nats(s.remove(j)) + s[j] == sum_nats(s),
    decreases s.len(),
{
    if j == s.len() - 1 {
        assert(s.remove(j) =~= s.drop_last());
    } else {
        assert(s.remove(j).drop_last() =~= s.drop_last().remove(j));
        lemma_sum_nats_remove(s.drop_last(), j);
        assert(s.remove(j).last() == s.last());
    }
}

/// The sum of a sequence of naturals depends only on its multiset.
pub proof fn lemma_sum_nats_permuted(a: Seq<nat>, b: Seq<nat>)
    requires
        a.to_multiset() == b.to_multiset(),
    ensures
        sum_nats(a) == sum_nats(b),
    decreases a.len(),
{
    broadcast use vstd::seq_lib::group_to_multiset_ensures;
    broadcast use vstd::multiset::group_multiset_axioms;

    if a.len() == 0 {
        assert(b.len() == b.to_multiset().len());
    } else {
        let x = a.last();
        assert(a.contains(x));
        assert(b.to_multiset().count(x) > 0);
        assert(b.contains(x));
        let j = choose|j: int| 0 <= j < b.len() && b[j] == x;
        assert(a.drop_last().push(x) =~= a);
        assert(a.to_multiset() =~= a.drop_last().to_multiset().insert(x));
        assert(b.remove(j).to_multiset() =~= b.to_multiset().remove(x));
        assert(a.drop_last().to_multiset() =~= a.to_multiset().remove(x));
        lemma_sum_nats_permuted(a.drop_last(), b.remove(j));
        lemma_sum_nats_remove(b, j);
    }
}

/// In sum mode (no count threshold given, drops not degenerate) the roll's
/// value is the sum of the kept band: the sorted sample minus the dropped
/// least and greatest values.
pub proof fn lemma_sum_mode_value(rl: Realize, p: ParseV, st0: Seq<u8>)
    requires
        realize_ok(rl, p, st0),
        !over_dropped(p),
        !over_filtered(p),
        p.count_greater is None,
        p.count_lesser is None,
    ensures
        rl@ is Under,
        rz_value(rl@) == sum_nats(band_drop(p, st0).2),
{
    let w2 = band_drop(p, st0).2;
    assert(w2.subrange(0, w2.len() as int) =~= w2);
    match rl@ {
        RealizeV::Under { lesser, middle, greater, .. } => {
            assert(lesser is None && greater is None);
            lemma_sum_nats_permuted(middle, w2);
        },
        _ => {
            assert(false);
        },
    }
}

/// A degenerate drop always realizes to the over-dropped shape, and that
/// shape is always worth zero.
pub proof fn lemma_degenerate_drop(rl: Realize, p: ParseV, st0: Seq<u8>)
    requires
        realize_ok(rl, p, st0),
        over_dropped(p),
    ensures
        rl@ is OverDropped,
        rz_value(rl@) == 0,
{
}

/// Overlapping count thresholds always realize to the over-filtered shape:
/// the `greater` band is bounded by `count_greater`, the `lesser` band by
/// `count_lesser` (the roles are swapped), and the value is zero.
pub proof fn lemma_overlapping_thresholds(rl: Realize, p: ParseV, st0: Seq<u8>)
    requires
        realize_ok(rl, p, st0),
        !over_dropped(p),
        over_filtered(p),
    ensures
        rl@ is OverFiltered,
        rz_value(rl@) == 0,
        rl@ matches RealizeV::OverFiltered { lesser, middle, greater, .. } ==> {
            &&& forall|k: int|
                0 <= k < greater.len() ==> #[trigger] greater[k] >= crate::roll::realize::or0(
                    p.count_greater,
                )
            &&& forall|k: int|
                0 <= k < lesser.len() ==> #[trigger] lesser[k] <= crate::roll::realize::or0(
                    p.count_lesser,
                )
        },
{
}

} // verus!
