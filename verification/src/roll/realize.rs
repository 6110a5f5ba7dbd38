use vstd::prelude::*;

pub mod display;
use vstd::relations::{sorted_by, total_ordering};
use vstd::multiset::Multiset;
use vstd::seq_lib::{lemma_multiset_commutative, lemma_sorted_unique};
use crate::natural::{big_dup, big_from_u64, big_le, big_lt, big_is_zero, big_to_usize, nat_of, nats_of};
use crate::rng::{
    sample_die, sample_of, sample_step, shuffle_of, shuffle_step, shuffled, RngSource,
};
use crate::roll::parse::{Parse, ParseV};

verus! {

// The roll realizer. A specification is realized by sampling `roll_len` dice,
// sorting them, cutting drop partitions off the ends, cutting count partitions
// out of the middle by threshold, and shuffling every partition for display.
// The whole realization is a deterministic function (`rz_model`) of the
// specification and the random source's state, which is what a fixed seed
// reproduces.

#[derive(Debug, PartialEq, Eq, Structural)]
pub enum RealizeError {
    DieSizeIsZero,
    RollLenExceedsMaximum,
}

pub struct RealizeUnder {
    pub least: Option<Vec<num::BigUint>>,
    pub lesser: Option<Vec<num::BigUint>>,
    pub middle: Vec<num::BigUint>,
    pub greater: Option<Vec<num::BigUint>>,
    pub greatest: Option<Vec<num::BigUint>>,
}

pub struct RealizeOverDropped {
    pub least: Option<Vec<num::BigUint>>,
    pub middle: Vec<num::BigUint>,
    pub greatest: Option<Vec<num::BigUint>>,
}

pub struct RealizeOverFiltered {
    pub least: Option<Vec<num::BigUint>>,
    pub lesser: Vec<num::BigUint>,
    pub middle: Vec<num::BigUint>,
    pub greater: Vec<num::BigUint>,
    pub greatest: Option<Vec<num::BigUint>>,
}

pub enum Realize {
    Under(RealizeUnder),
    OverDropped(RealizeOverDropped),
    OverFiltered(RealizeOverFiltered),
}

pub ghost enum RealizeV {
    Under {
        least: Option<Seq<nat>>,
        lesser: Option<Seq<nat>>,
        middle: Seq<nat>,
        greater: Option<Seq<nat>>,
        greatest: Option<Seq<nat>>,
    },
    OverDropped { least: Option<Seq<nat>>, middle: Seq<nat>, greatest: Option<Seq<nat>> },
    OverFiltered {
        least: Option<Seq<nat>>,
        lesser: Seq<nat>,
        middle: Seq<nat>,
        greater: Seq<nat>,
        greatest: Option<Seq<nat>>,
    },
}

pub open spec fn opt_nats(o: Option<Vec<num::BigUint>>) -> Option<Seq<nat>> {
    match o {
        Some(v) => Some(nats_of(v@)),
        None => None,
    }
}

impl View for Realize {
    type V = RealizeV;

    open spec fn view(&self) -> RealizeV {
        match self {
            Realize::Under(u) => RealizeV::Under {
                least: opt_nats(u.least),
                lesser: opt_nats(u.lesser),
                middle: nats_of(u.middle@),
                greater: opt_nats(u.greater),
                greatest: opt_nats(u.greatest),
            },
            Realize::OverDropped(u) => RealizeV::OverDropped {
                least: opt_nats(u.least),
                middle: nats_of(u.middle@),
                greatest: opt_nats(u.greatest),
            },
            Realize::OverFiltered(u) => RealizeV::OverFiltered {
                least: opt_nats(u.least),
                lesser: nats_of(u.lesser@),
                middle: nats_of(u.middle@),
                greater: nats_of(u.greater@),
                greatest: opt_nats(u.greatest),
            },
        }
    }
}

pub open spec fn opt_seq(o: Option<Seq<nat>>) -> Seq<nat> {
    match o {
        Some(v) => v,
        None => Seq::empty(),
    }
}

/// All partitions of a realization, concatenated.
pub open spec fn rz_total(r: RealizeV) -> Seq<nat> {
    match r {
        RealizeV::Under { least, lesser, middle, greater, greatest } => opt_seq(least) + opt_seq(
            lesser,
        ) + middle + opt_seq(greater) + opt_seq(greatest),
        RealizeV::OverDropped { least, middle, greatest } => opt_seq(least) + middle + opt_seq(
            greatest,
        ),
        RealizeV::OverFiltered { least, lesser, middle, greater, greatest } => opt_seq(least)
            + lesser + middle + greater + opt_seq(greatest),
    }
}

// ---- The deterministic model ----

/// The values drawn by `n` successive die samples from state `st`.
pub open spec fn sample_vals(st: Seq<u8>, n: nat, die: nat) -> Seq<nat>
    decreases n,
{
    if n == 0 {
        Seq::empty()
    } else {
        seq![sample_of(st, die)] + sample_vals(sample_step(st, die), (n - 1) as nat, die)
    }
}

/// The generator state after those `n` samples.
pub open spec fn sample_state(st: Seq<u8>, n: nat, die: nat) -> Seq<u8>
    decreases n,
{
    if n == 0 {
        st
    } else {
        sample_state(sample_step(st, die), (n - 1) as nat, die)
    }
}

pub open spec fn sorted_spec(s: Seq<nat>) -> Seq<nat> {
    s.sort_by(|a: nat, b: nat| a <= b)
}

pub proof fn lemma_sorted_spec_ensures(s: Seq<nat>)
    ensures
        s.to_multiset() =~= sorted_spec(s).to_multiset(),
        sorted_by(sorted_spec(s), |a: nat, b: nat| a <= b),
{
    s.lemma_sort_by_ensures(|a: nat, b: nat| a <= b);
}

/// Number of leading values strictly below `t` (on a sorted sequence: the
/// index where the values `>= t` begin).
pub open spec fn first_ge(s: Seq<nat>, t: nat) -> nat
    decreases s.len(),
{
    if s.len() > 0 && s[0] < t {
        1 + first_ge(s.drop_first(), t)
    } else {
        0
    }
}

/// Number of leading values at most `t`.
pub open spec fn first_gt(s: Seq<nat>, t: nat) -> nat
    decreases s.len(),
{
    if s.len() > 0 && s[0] <= t {
        1 + first_gt(s.drop_first(), t)
    } else {
        0
    }
}

pub open spec fn or0(o: Option<nat>) -> nat {
    match o {
        Some(v) => v,
        None => 0,
    }
}

/// Drop amounts are clamped to the greatest representable count.
pub open spec fn sat_opt(o: Option<nat>) -> Option<nat> {
    match o {
        Some(v) => Some(
            if v > usize::MAX as nat {
                usize::MAX as nat
            } else {
                v
            },
        ),
        None => None,
    }
}

/// The degenerate-drop inversion: the amount kept after the other drop.
pub open spec fn inv_opt(o: Option<nat>, n: nat) -> Option<nat> {
    match o {
        Some(v) => Some(
            if v > n {
                0
            } else {
                (n - v) as nat
            },
        ),
        None => None,
    }
}

/// One optional partition is shuffled: its permutation and the state after.
pub open spec fn shuffle_opt(st: Seq<u8>, o: Option<Seq<nat>>) -> (Option<Seq<nat>>, Seq<u8>) {
    match o {
        Some(v) => (Some(shuffle_of(st, v)), shuffle_step(st, v)),
        None => (None, st),
    }
}

/// Whether dropping would consume the whole roll.
pub open spec fn over_dropped(p: ParseV) -> bool {
    or0(p.drop_least) + or0(p.drop_greatest) >= p.roll_len
}

/// Whether the two count thresholds are inverted.
pub open spec fn over_filtered(p: ParseV) -> bool {
    p.count_greater is Some && p.count_lesser is Some && or0(p.count_greater) > or0(p.count_lesser)
}

/// The intermediate stage of a realization: the drop partitions are cut and
/// shuffled, the remaining working set and generator state are carried on.
pub ghost struct DropStage {
    pub least: Option<Seq<nat>>,
    pub greatest: Option<Seq<nat>>,
    pub work: Seq<nat>,
    pub st: Seq<u8>,
}

pub open spec fn rz_drop_stage(p: ParseV, st0: Seq<u8>) -> DropStage {
    let n = p.roll_len;
    let sorted = sorted_spec(sample_vals(st0, n, p.die_size));
    let st1 = sample_state(st0, n, p.die_size);
    let over = over_dropped(p);
    let dl = if over {
        inv_opt(sat_opt(p.drop_greatest), n)
    } else {
        sat_opt(p.drop_least)
    };
    let dg = if over {
        inv_opt(sat_opt(p.drop_least), n)
    } else {
        sat_opt(p.drop_greatest)
    };
    let cut_g = sorted.len() - or0(dg);
    let g_part = if dg is Some {
        Some(sorted.subrange(cut_g, sorted.len() as int))
    } else {
        None
    };
    let w1 = if dg is Some {
        sorted.subrange(0, cut_g)
    } else {
        sorted
    };
    let (greatest, st2) = shuffle_opt(st1, g_part);
    let l_part = if dl is Some {
        Some(w1.subrange(0, or0(dl) as int))
    } else {
        None
    };
    let w2 = if dl is Some {
        w1.subrange(or0(dl) as int, w1.len() as int)
    } else {
        w1
    };
    let (least, st3) = shuffle_opt(st2, l_part);
    DropStage { least, greatest, work: w2, st: st3 }
}

/// The over-filtered shape and the generator state it leaves behind: the
/// threshold roles are swapped, both bands are cut.
pub open spec fn rz_filtered(p: ParseV, ds: DropStage) -> (RealizeV, Seq<u8>) {
    let cg = or0(p.count_greater);
    let cl = or0(p.count_lesser);
    let w2 = ds.work;
    let pg = first_ge(w2, cg) as int;
    let greater = shuffle_of(ds.st, w2.subrange(pg, w2.len() as int));
    let st4 = shuffle_step(ds.st, w2.subrange(pg, w2.len() as int));
    let w3 = w2.subrange(0, pg);
    let pl = first_gt(w3, cl) as int;
    let lesser = shuffle_of(st4, w3.subrange(0, pl));
    let st5 = shuffle_step(st4, w3.subrange(0, pl));
    let w4 = w3.subrange(pl, w3.len() as int);
    (
        RealizeV::OverFiltered {
            least: ds.least,
            lesser,
            middle: shuffle_of(st5, w4),
            greater,
            greatest: ds.greatest,
        },
        shuffle_step(st5, w4),
    )
}

/// The normal shape and the generator state it leaves behind: each present
/// threshold cuts its band out of the middle.
pub open spec fn rz_under(p: ParseV, ds: DropStage) -> (RealizeV, Seq<u8>) {
    let w2 = ds.work;
    let pg = if p.count_lesser is Some {
        first_ge(w2, or0(p.count_lesser)) as int
    } else {
        w2.len() as int
    };
    let g_part2 = if p.count_lesser is Some {
        Some(w2.subrange(pg, w2.len() as int))
    } else {
        None
    };
    let w3 = w2.subrange(0, pg);
    let (greater, st4) = shuffle_opt(ds.st, g_part2);
    let pl = if p.count_greater is Some {
        first_gt(w3, or0(p.count_greater)) as int
    } else {
        0
    };
    let l_part2 = if p.count_greater is Some {
        Some(w3.subrange(0, pl))
    } else {
        None
    };
    let w4 = w3.subrange(pl, w3.len() as int);
    let (lesser, st5) = shuffle_opt(st4, l_part2);
    (
        RealizeV::Under {
            least: ds.least,
            lesser,
            middle: shuffle_of(st5, w4),
            greater,
            greatest: ds.greatest,
        },
        shuffle_step(st5, w4),
    )
}

/// The realization as a function of the specification and the generator state.
pub open spec fn rz_model(p: ParseV, st0: Seq<u8>) -> Result<RealizeV, RealizeError> {
    if p.die_size == 0 {
        Err(RealizeError::DieSizeIsZero)
    } else if p.roll_len > usize::MAX as nat {
        Err(RealizeError::RollLenExceedsMaximum)
    } else {
        let ds = rz_drop_stage(p, st0);
        if over_dropped(p) {
            Ok(
                RealizeV::OverDropped {
                    least: ds.least,
                    middle: shuffle_of(ds.st, ds.work),
                    greatest: ds.greatest,
                },
            )
        } else if over_filtered(p) {
            Ok(rz_filtered(p, ds).0)
        } else {
            Ok(rz_under(p, ds).0)
        }
    }
}

/// The generator state a realization leaves behind: unchanged when the
/// specification is rejected, else the state after the sampling and every
/// partition shuffle.
pub open spec fn rz_state(p: ParseV, st0: Seq<u8>) -> Seq<u8> {
    if p.die_size == 0 || p.roll_len > usize::MAX as nat {
        st0
    } else {
        let ds = rz_drop_stage(p, st0);
        if over_dropped(p) {
            shuffle_step(ds.st, ds.work)
        } else if over_filtered(p) {
            rz_filtered(p, ds).1
        } else {
            rz_under(p, ds).1
        }
    }
}

// ---- The partitions before their shuffles ----

/// The drop stage without the shuffles: the least band, the greatest band and
/// the remaining working set, cut from the sorted sample.
pub open spec fn band_drop(p: ParseV, st0: Seq<u8>) -> (Option<Seq<nat>>, Option<Seq<nat>>, Seq<
    nat,
>) {
    let n = p.roll_len;
    let sorted = sorted_spec(sample_vals(st0, n, p.die_size));
    let over = over_dropped(p);
    let dl = if over {
        inv_opt(sat_opt(p.drop_greatest), n)
    } else {
        sat_opt(p.drop_least)
    };
    let dg = if over {
        inv_opt(sat_opt(p.drop_least), n)
    } else {
        sat_opt(p.drop_greatest)
    };
    let cut_g = sorted.len() - or0(dg);
    let g_band = if dg is Some {
        Some(sorted.subrange(cut_g, sorted.len() as int))
    } else {
        None
    };
    let w1 = if dg is Some {
        sorted.subrange(0, cut_g)
    } else {
        sorted
    };
    let l_band = if dl is Some {
        Some(w1.subrange(0, or0(dl) as int))
    } else {
        None
    };
    let w2 = if dl is Some {
        w1.subrange(or0(dl) as int, w1.len() as int)
    } else {
        w1
    };
    (l_band, g_band, w2)
}

/// The realization's partitions before their shuffles: each partition of the
/// realized shape is a permutation of the matching band here.
pub open spec fn rz_bands(p: ParseV, st0: Seq<u8>) -> RealizeV {
    let (l_band, g_band, w2) = band_drop(p, st0);
    if over_dropped(p) {
        RealizeV::OverDropped { least: l_band, middle: w2, greatest: g_band }
    } else if over_filtered(p) {
        let pg = first_ge(w2, or0(p.count_greater)) as int;
        let gr = w2.subrange(pg, w2.len() as int);
        let w3 = w2.subrange(0, pg);
        let pl = first_gt(w3, or0(p.count_lesser)) as int;
        RealizeV::OverFiltered {
            least: l_band,
            lesser: w3.subrange(0, pl),
            middle: w3.subrange(pl, w3.len() as int),
            greater: gr,
            greatest: g_band,
        }
    } else {
        let pg = if p.count_lesser is Some {
            first_ge(w2, or0(p.count_lesser)) as int
        } else {
            w2.len() as int
        };
        let gr = if p.count_lesser is Some {
            Some(w2.subrange(pg, w2.len() as int))
        } else {
            None
        };
        let w3 = w2.subrange(0, pg);
        let pl = if p.count_greater is Some {
            first_gt(w3, or0(p.count_greater)) as int
        } else {
            0
        };
        let le = if p.count_greater is Some {
            Some(w3.subrange(0, pl))
        } else {
            None
        };
        RealizeV::Under {
            least: l_band,
            lesser: le,
            middle: w3.subrange(pl, w3.len() as int),
            greater: gr,
            greatest: g_band,
        }
    }
}

/// Present with the same shape, and equal as multisets.
pub open spec fn opt_ms_eq(a: Option<Seq<nat>>, b: Option<Seq<nat>>) -> bool {
    match (a, b) {
        (Some(x), Some(y)) => x.to_multiset() == y.to_multiset(),
        (None, None) => true,
        _ => false,
    }
}

/// The realization's partitions are, partition by partition, permutations of
/// the bands.
pub open spec fn parts_permuted(rl: RealizeV, bd: RealizeV) -> bool {
    match (rl, bd) {
        (
            RealizeV::Under { least, lesser, middle, greater, greatest },
            RealizeV::Under {
                least: least_b,
                lesser: lesser_b,
                middle: middle_b,
                greater: greater_b,
                greatest: greatest_b,
            },
        ) => opt_ms_eq(least, least_b) && opt_ms_eq(lesser, lesser_b) && middle.to_multiset()
            == middle_b.to_multiset() && opt_ms_eq(greater, greater_b) && opt_ms_eq(
            greatest,
            greatest_b,
        ),
        (
            RealizeV::OverDropped { least, middle, greatest },
            RealizeV::OverDropped { least: least_b, middle: middle_b, greatest: greatest_b },
        ) => opt_ms_eq(least, least_b) && middle.to_multiset() == middle_b.to_multiset()
            && opt_ms_eq(greatest, greatest_b),
        (
            RealizeV::OverFiltered { least, lesser, middle, greater, greatest },
            RealizeV::OverFiltered {
                least: least_b,
                lesser: lesser_b,
                middle: middle_b,
                greater: greater_b,
                greatest: greatest_b,
            },
        ) => opt_ms_eq(least, least_b) && lesser.to_multiset() == lesser_b.to_multiset()
            && middle.to_multiset() == middle_b.to_multiset() && greater.to_multiset()
            == greater_b.to_multiset() && opt_ms_eq(greatest, greatest_b),
        _ => false,
    }
}

// ---- helper lemmas ----

pub proof fn lemma_nats_subrange(s: Seq<num::BigUint>, x: int, y: int)
    requires
        0 <= x <= y <= s.len(),
    ensures
        nats_of(s.subrange(x, y)) == nats_of(s).subrange(x, y),
{
    assert(nats_of(s.subrange(x, y)) =~= nats_of(s).subrange(x, y));
}

pub proof fn lemma_first_ge_char(s: Seq<nat>, t: nat, at: int)
    requires
        0 <= at <= s.len(),
        forall|k: int| 0 <= k < at ==> s[k] < t,
        at < s.len() ==> s[at] >= t,
    ensures
        first_ge(s, t) == at,
    decreases s.len(),
{
    if at == 0 {
    } else {
        assert(forall|k: int| 0 <= k < at - 1 ==> s.drop_first()[k] < t);
        lemma_first_ge_char(s.drop_first(), t, at - 1);
    }
}

pub proof fn lemma_first_gt_char(s: Seq<nat>, t: nat, at: int)
    requires
        0 <= at <= s.len(),
        forall|k: int| 0 <= k < at ==> s[k] <= t,
        at < s.len() ==> s[at] > t,
    ensures
        first_gt(s, t) == at,
    decreases s.len(),
{
    if at == 0 {
    } else {
        assert(forall|k: int| 0 <= k < at - 1 ==> s.drop_first()[k] <= t);
        lemma_first_gt_char(s.drop_first(), t, at - 1);
    }
}

/// Two sequences with the same multiset hold the same values.
pub proof fn lemma_multiset_member(a: Seq<nat>, b: Seq<nat>, i: int)
    requires
        a.to_multiset() == b.to_multiset(),
        0 <= i < b.len(),
    ensures
        a.contains(b[i]),
{
    broadcast use vstd::seq_lib::group_to_multiset_ensures;

    assert(b.contains(b[i]));
    assert(b.to_multiset().count(b[i]) > 0);
    assert(a.to_multiset().count(b[i]) > 0);
}

pub open spec fn sorted_nats(s: Seq<nat>) -> bool {
    forall|i: int, j: int| 0 <= i <= j < s.len() ==> s[i] <= s[j]
}

// ---- splitting a sorted working set ----

/// The tail of `vec` from `at` on, removed.
pub fn split_off_back(vec: &mut Vec<num::BigUint>, at: usize) -> (r: Vec<num::BigUint>)
    requires
        at <= old(vec)@.len(),
    ensures
        final(vec)@ == old(vec)@.subrange(0, at as int),
        r@ == old(vec)@.subrange(at as int, old(vec)@.len() as int),
{
    vec.split_off(at)
}

/// The head of `vec` up to `at`, removed.
pub fn split_off_front(vec: &mut Vec<num::BigUint>, at: usize) -> (r: Vec<num::BigUint>)
    requires
        at <= old(vec)@.len(),
    ensures
        final(vec)@ == old(vec)@.subrange(at as int, old(vec)@.len() as int),
        r@ == old(vec)@.subrange(0, at as int),
{
    let mut split_off = split_off_back(vec, at);
    core::mem::swap(&mut split_off, vec);
    split_off
}

/// Removes the highest `amount` values of a sorted working set.
pub fn take_greatest(sorted: &mut Vec<num::BigUint>, amount: usize) -> (r: Vec<num::BigUint>)
    requires
        amount <= old(sorted)@.len(),
    ensures
        final(sorted)@ == old(sorted)@.subrange(0, old(sorted)@.len() - amount),
        r@ == old(sorted)@.subrange(old(sorted)@.len() - amount, old(sorted)@.len() as int),
{
    let at = sorted.len() - amount;
    split_off_back(sorted, at)
}

/// Removes the lowest `amount` values of a sorted working set.
pub fn take_least(sorted: &mut Vec<num::BigUint>, amount: usize) -> (r: Vec<num::BigUint>)
    requires
        amount <= old(sorted)@.len(),
    ensures
        final(sorted)@ == old(sorted)@.subrange(amount as int, old(sorted)@.len() as int),
        r@ == old(sorted)@.subrange(0, amount as int),
{
    split_off_front(sorted, amount)
}

/// Removes the values `>= threshold` of a sorted working set.
#[verifier::loop_isolation(false)]
pub fn take_greater(sorted: &mut Vec<num::BigUint>, threshold: &num::BigUint) -> (r: Vec<
    num::BigUint,
>)
    requires
        sorted_nats(nats_of(old(sorted)@)),
    ensures
        ({
            let pp = first_ge(nats_of(old(sorted)@), nat_of(*threshold)) as int;
            final(sorted)@ == old(sorted)@.subrange(0, pp) && r@ == old(sorted)@.subrange(
                pp,
                old(sorted)@.len() as int,
            )
        }),
{
    let mut at: usize = 0;
    while at < sorted.len() && big_lt(&sorted[at], threshold)
        invariant
            at <= sorted@.len(),
            forall|k: int| 0 <= k < at ==> nats_of(sorted@)[k] < nat_of(*threshold),
        decreases sorted@.len() - at,
    {
        at = at + 1;
    }
    proof {
        lemma_first_ge_char(nats_of(sorted@), nat_of(*threshold), at as int);
    }
    split_off_back(sorted, at)
}

/// Removes the values `<= threshold` of a sorted working set.
#[verifier::loop_isolation(false)]
pub fn take_lesser(sorted: &mut Vec<num::BigUint>, threshold: &num::BigUint) -> (r: Vec<
    num::BigUint,
>)
    requires
        sorted_nats(nats_of(old(sorted)@)),
    ensures
        ({
            let pp = first_gt(nats_of(old(sorted)@), nat_of(*threshold)) as int;
            final(sorted)@ == old(sorted)@.subrange(pp, old(sorted)@.len() as int) && r@ == old(
                sorted,
            )@.subrange(0, pp)
        }),
{
    let mut at: usize = 0;
    while at < sorted.len() && big_le(&sorted[at], threshold)
        invariant
            at <= sorted@.len(),
            forall|k: int| 0 <= k < at ==> nats_of(sorted@)[k] <= nat_of(*threshold),
        decreases sorted@.len() - at,
    {
        at = at + 1;
    }
    proof {
        lemma_first_gt_char(nats_of(sorted@), nat_of(*threshold), at as int);
    }
    split_off_front(sorted, at)
}

// ---- sorting ----

/// Sorts the sample ascending (insertion sort over exact comparisons).
#[verifier::loop_isolation(false)]
#[verifier::rlimit(60)]
pub fn sort_naturals(v: Vec<num::BigUint>) -> (r: Vec<num::BigUint>)
    ensures
        nats_of(r@) == sorted_spec(nats_of(v@)),
        nats_of(r@).to_multiset() == nats_of(v@).to_multiset(),
        sorted_nats(nats_of(r@)),
        r@.len() == v@.len(),
{
    let mut out: Vec<num::BigUint> = Vec::new();
    let mut i: usize = 0;
    proof {
        assert(nats_of(out@) =~= nats_of(v@.subrange(0, 0)));
    }
    while i < v.len()
        invariant
            i <= v@.len(),
            out@.len() == i,
            sorted_nats(nats_of(out@)),
            nats_of(out@).to_multiset() == nats_of(v@.subrange(0, i as int)).to_multiset(),
        decreases v@.len() - i,
    {
        let x = big_dup(&v[i]);
        let mut j: usize = 0;
        while j < out.len() && big_le(&out[j], &x)
            invariant
                j <= out@.len(),
                forall|k: int| 0 <= k < j ==> nats_of(out@)[k] <= nat_of(x),
            decreases out@.len() - j,
        {
            j = j + 1;
        }
        let ghost pre = out@;
        let mut tail = split_off_back(&mut out, j);
        out.push(x);
        out.append(&mut tail);
        proof {
            let a = pre.subrange(0, j as int);
            let b = pre.subrange(j as int, pre.len() as int);
            assert(out@ =~= a.push(x) + b);
            assert(nats_of(out@) =~= (nats_of(a) + seq![nat_of(x)]) + nats_of(b));
            assert(nats_of(a) =~= nats_of(pre).subrange(0, j as int));
            assert(nats_of(b) =~= nats_of(pre).subrange(j as int, pre.len() as int));
            // sortedness: everything in `a` is <= x, everything in `b` is > x
            assert(sorted_nats(nats_of(out@))) by {
                assert(forall|k: int| 0 <= k < j ==> nats_of(pre)[k] <= nat_of(x));
                assert(j < pre.len() ==> nats_of(pre)[j as int] > nat_of(x));
            }
            // multiset bookkeeping
            lemma_multiset_commutative(nats_of(a) + seq![nat_of(x)], nats_of(b));
            lemma_multiset_commutative(nats_of(a), seq![nat_of(x)]);
            lemma_multiset_commutative(nats_of(a), nats_of(b));
            assert(nats_of(pre) =~= nats_of(a) + nats_of(b));
            broadcast use vstd::seq_lib::group_to_multiset_ensures;
            broadcast use vstd::multiset::group_multiset_axioms;
            assert(seq![nat_of(x)].to_multiset() =~= Multiset::empty().insert(nat_of(x))) by {
                broadcast use vstd::seq_lib::group_to_multiset_ensures;
                broadcast use vstd::multiset::lemma_multiset_empty_len;
                assert(seq![nat_of(x)] =~= Seq::<nat>::empty().push(nat_of(x)));
                assert(Seq::<nat>::empty().to_multiset().len() == 0);
            }
            assert(nats_of(out@).to_multiset() =~= nats_of(pre).to_multiset().insert(nat_of(x)));
            assert(nats_of(v@.subrange(0, (i + 1) as int)) =~= nats_of(v@.subrange(0, i as int)).push(
                nat_of(v@[i as int]),
            ));
        }
        i = i + 1;
    }
    proof {
        assert(v@.subrange(0, v@.len() as int) =~= v@);
        lemma_sorted_spec_ensures(nats_of(v@));
        let leq = |a: nat, b: nat| a <= b;
        assert(sorted_by(nats_of(out@), leq));
        assert(total_ordering(leq));
        lemma_sorted_unique(nats_of(out@), sorted_spec(nats_of(v@)), leq);
        broadcast use vstd::seq_lib::group_to_multiset_ensures;
    }
    out
}

// ---- sampling ----

/// Draws `len` dice, in order, from the random source.
#[verifier::loop_isolation(false)]
pub fn sample_dice(rng: &mut RngSource, len: usize, die: &num::BigUint) -> (r: Vec<num::BigUint>)
    requires
        nat_of(*die) >= 1,
    ensures
        nats_of(r@) == sample_vals(old(rng)@, len as nat, nat_of(*die)),
        final(rng)@ == sample_state(old(rng)@, len as nat, nat_of(*die)),
        r@.len() == len,
        forall|k: int| 0 <= k < r@.len() ==> 1 <= #[trigger] nats_of(r@)[k] <= nat_of(*die),
{
    let ghost st0 = rng@;
    let ghost d = nat_of(*die);
    let mut out: Vec<num::BigUint> = Vec::new();
    let mut i: usize = 0;
    while i < len
        invariant
            i <= len,
            out@.len() == i,
            sample_vals(st0, len as nat, d) == nats_of(out@) + sample_vals(
                rng@,
                (len - i) as nat,
                d,
            ),
            sample_state(st0, len as nat, d) == sample_state(rng@, (len - i) as nat, d),
            forall|k: int| 0 <= k < out@.len() ==> 1 <= #[trigger] nats_of(out@)[k] <= d,
        decreases len - i,
    {
        let ghost pre = rng@;
        let x = sample_die(rng, die);
        proof {
            assert(sample_vals(pre, (len - i) as nat, d) == seq![sample_of(pre, d)] + sample_vals(
                rng@,
                (len - i - 1) as nat,
                d,
            ));
            assert(nats_of(out@.push(x)) =~= nats_of(out@).push(nat_of(x)));
            assert(nats_of(out@) + (seq![nat_of(x)] + sample_vals(rng@, (len - i - 1) as nat, d))
                =~= nats_of(out@).push(nat_of(x)) + sample_vals(rng@, (len - i - 1) as nat, d));
        }
        out.push(x);
        i = i + 1;
    }
    proof {
        assert(nats_of(out@) + sample_vals(rng@, 0, d) =~= nats_of(out@));
    }
    out
}

/// Shuffles an optional partition in place.
fn shuffle_opt_exec(o: Option<Vec<num::BigUint>>, rng: &mut RngSource) -> (r: Option<Vec<
    num::BigUint,
>>)
    ensures
        ({
            let (so, st2) = shuffle_opt(old(rng)@, opt_nats(o));
            opt_nats(r) == so && final(rng)@ == st2
        }),
        match (r, o) {
            (Some(rv), Some(ov)) => nats_of(rv@).to_multiset() == nats_of(ov@).to_multiset()
                && rv@.len() == ov@.len(),
            (None, None) => true,
            _ => false,
        },
{
    match o {
        Some(v) => Some(shuffled(v, rng)),
        None => None,
    }
}

pub open spec fn opt_un(o: Option<usize>) -> Option<nat> {
    match o {
        Some(u) => Some(u as nat),
        None => None,
    }
}

pub open spec fn rz_res(r: Result<Realize, RealizeError>) -> Result<RealizeV, RealizeError> {
    match r {
        Ok(x) => Ok(x@),
        Err(e) => Err(e),
    }
}

/// Elements travel with their multiset: whatever is in `b` is found in `a`.
pub proof fn lemma_multiset_transfer(a: Seq<nat>, b: Seq<nat>)
    requires
        a.to_multiset() == b.to_multiset(),
    ensures
        forall|k: int| 0 <= k < b.len() ==> a.contains(#[trigger] b[k]),
{
    assert forall|k: int| 0 <= k < b.len() implies a.contains(#[trigger] b[k]) by {
        lemma_multiset_member(a, b, k);
    }
}

/// What every successful realization satisfies: the sampled multiset is
/// wholly and disjointly partitioned with every die in range, degenerate
/// drops yield the over-dropped shape, and inverted count thresholds yield
/// the over-filtered shape with the threshold roles swapped.
pub open spec fn realize_ok(rl: Realize, p: ParseV, st0: Seq<u8>) -> bool {
    let dice = sample_vals(st0, p.roll_len, p.die_size);
    &&& rz_total(rl@).to_multiset() == dice.to_multiset()
    &&& rz_total(rl@).len() == p.roll_len
    &&& dice.len() == p.roll_len
    &&& forall|k: int|
        0 <= k < rz_total(rl@).len() ==> 1 <= #[trigger] rz_total(rl@)[k] <= p.die_size
    &&& parts_permuted(rl@, rz_bands(p, st0))
    &&& (rl@ is OverDropped <==> over_dropped(p))
    &&& (rl@ is OverFiltered <==> (!over_dropped(p) && over_filtered(p)))
    &&& (rl@ is Under <==> (!over_dropped(p) && !over_filtered(p)))
    &&& match rl@ {
        RealizeV::OverFiltered { lesser, middle, greater, .. } => {
            let cg = or0(p.count_greater);
            let cl = or0(p.count_lesser);
            &&& forall|k: int| 0 <= k < greater.len() ==> #[trigger] greater[k] >= cg
            &&& forall|k: int| 0 <= k < lesser.len() ==> #[trigger] lesser[k] <= cl
            &&& forall|k: int| 0 <= k < middle.len() ==> cl < #[trigger] middle[k] < cg
        },
        _ => true,
    }
}

/// What holds between the drop stage and the count stage: the working set is
/// sorted, and together with the two shuffled drop partitions it carries
/// exactly the sampled multiset, whose values are all in range.
pub open spec fn drop_stage_ok(
    least: Option<Vec<num::BigUint>>,
    greatest: Option<Vec<num::BigUint>>,
    work: Seq<nat>,
    st: Seq<u8>,
    p: ParseV,
    st0: Seq<u8>,
) -> bool {
    let dice = sample_vals(st0, p.roll_len, p.die_size);
    &&& p.die_size > 0
    &&& p.roll_len <= usize::MAX as nat
    &&& rz_drop_stage(p, st0) == DropStage {
        least: opt_nats(least),
        greatest: opt_nats(greatest),
        work,
        st,
    }
    &&& sorted_nats(work)
    &&& dice.len() == p.roll_len
    &&& forall|k: int| 0 <= k < dice.len() ==> 1 <= #[trigger] dice[k] <= p.die_size
    &&& opt_seq(opt_nats(least)).to_multiset().add(work.to_multiset()).add(
        opt_seq(opt_nats(greatest)).to_multiset(),
    ) == dice.to_multiset()
    &&& opt_ms_eq(opt_nats(least), band_drop(p, st0).0)
    &&& opt_ms_eq(opt_nats(greatest), band_drop(p, st0).1)
    &&& work == band_drop(p, st0).2
}

/// Determinism: realization is a function of the specification and the
/// generator state alone, so two realizations of the same specification from
/// the same seeded state are identical, partitions and all.
pub proof fn lemma_realize_deterministic(
    r1: Result<Realize, RealizeError>,
    r2: Result<Realize, RealizeError>,
    p: ParseV,
    st: Seq<u8>,
)
    requires
        rz_res(r1) == rz_model(p, st),
        rz_res(r2) == rz_model(p, st),
    ensures
        rz_res(r1) == rz_res(r2),
{
}

fn saturating_cast(value: &num::BigUint) -> (r: usize)
    ensures
        ({
            let v = nat_of(*value);
            ((v > usize::MAX as nat) ==> r == usize::MAX) && ((v <= usize::MAX as nat) ==> r as nat
                == v)
        }),
{
    match big_to_usize(value) {
        Some(u) => u,
        None => usize::MAX,
    }
}

/// Realizes a roll specification with the given random source, exactly as
/// `rz_model` describes.
pub fn realize(parse: Parse, rng: &mut RngSource) -> (r: Result<Realize, RealizeError>)
    ensures
        rz_res(r) == rz_model(parse@, old(rng)@),
        final(rng)@ == rz_state(parse@, old(rng)@),
        (r matches Err(e) && e == RealizeError::DieSizeIsZero) <==> parse@.die_size == 0,
        (r matches Err(e) && e == RealizeError::RollLenExceedsMaximum) <==> (parse@.die_size != 0
            && parse@.roll_len > usize::MAX as nat),
        match r {
            Ok(rl) => realize_ok(rl, parse@, old(rng)@),
            Err(_) => true,
        },
{
    if big_is_zero(&parse.die_size) {
        return Err(RealizeError::DieSizeIsZero);
    }
    match big_to_usize(&parse.roll_len) {
        Some(_) => (),
        None => {
            return Err(RealizeError::RollLenExceedsMaximum);
        },
    }
    Ok(realize_valid(parse, rng))
}

/// Samples, sorts and cuts the drop partitions, then hands the working set to
/// the count stage of the matching shape.
#[verifier::rlimit(100)]
fn realize_valid(parse: Parse, rng: &mut RngSource) -> (rl: Realize)
    requires
        parse@.die_size > 0,
        parse@.roll_len <= usize::MAX as nat,
    ensures
        Ok::<RealizeV, RealizeError>(rl@) == rz_model(parse@, old(rng)@),
        realize_ok(rl, parse@, old(rng)@),
        final(rng)@ == rz_state(parse@, old(rng)@),
{
    let ghost p = parse@;
    let ghost st0 = rng@;
    let Parse { roll_len, die_size, drop_least, drop_greatest, count_greater, count_lesser } =
        parse;
    let roll_len_u = match big_to_usize(&roll_len) {
        Some(u) => u,
        None => {
            assert(false);
            0
        },
    };
    let drop_least_u: Option<usize> = match &drop_least {
        Some(b) => Some(saturating_cast(b)),
        None => None,
    };
    let drop_greatest_u: Option<usize> = match &drop_greatest {
        Some(b) => Some(saturating_cast(b)),
        None => None,
    };
    let dl0: usize = match drop_least_u {
        Some(a) => a,
        None => 0,
    };
    let dg0: usize = match drop_greatest_u {
        Some(a) => a,
        None => 0,
    };
    let over = dl0 >= roll_len_u || dg0 >= roll_len_u - dl0;
    proof {
        assert(over == over_dropped(p));
    }
    let eff_least_u: Option<usize> = if over {
        match drop_greatest_u {
            Some(a) => Some(
                if a >= roll_len_u {
                    0
                } else {
                    roll_len_u - a
                },
            ),
            None => None,
        }
    } else {
        drop_least_u
    };
    let eff_greatest_u: Option<usize> = if over {
        match drop_least_u {
            Some(a) => Some(
                if a >= roll_len_u {
                    0
                } else {
                    roll_len_u - a
                },
            ),
            None => None,
        }
    } else {
        drop_greatest_u
    };
    let ghost dl_m = if over {
        inv_opt(sat_opt(p.drop_greatest), p.roll_len)
    } else {
        sat_opt(p.drop_least)
    };
    let ghost dg_m = if over {
        inv_opt(sat_opt(p.drop_least), p.roll_len)
    } else {
        sat_opt(p.drop_greatest)
    };
    proof {
        assert(opt_un(eff_least_u) == dl_m && opt_un(eff_greatest_u) == dg_m) by {
            assert(opt_un(drop_least_u) == sat_opt(p.drop_least));
            assert(opt_un(drop_greatest_u) == sat_opt(p.drop_greatest));
        }
    }
    let dice = sample_dice(rng, roll_len_u, &die_size);
    let ghost dice_v = nats_of(dice@);
    let ghost st1 = rng@;
    let mut roll = sort_naturals(dice);
    let ghost sorted0 = nats_of(roll@);
    let ghost pre1 = roll@;
    let g_part: Option<Vec<num::BigUint>> = match eff_greatest_u {
        Some(a) => {
            proof {
                if !over {
                    assert(dl0 + dg0 < roll_len_u);
                }
                assert(a <= roll@.len());
            }
            Some(take_greatest(&mut roll, a))
        },
        None => None,
    };
    let ghost after_g = nats_of(roll@);
    let ghost gp_nats = opt_seq(opt_nats(g_part));
    proof {
        assert(sorted0.to_multiset() == after_g.to_multiset().add(gp_nats.to_multiset())
            && sorted_nats(after_g) && after_g == (if dg_m is Some {
            sorted0.subrange(0, sorted0.len() - or0(dg_m))
        } else {
            sorted0
        }) && opt_nats(g_part) == (if dg_m is Some {
            Some(sorted0.subrange(sorted0.len() - or0(dg_m), sorted0.len() as int))
        } else {
            None::<Seq<nat>>
        })) by {
            if eff_greatest_u is Some {
                let a = eff_greatest_u->0 as int;
                lemma_nats_subrange(pre1, 0, pre1.len() - a);
                lemma_nats_subrange(pre1, pre1.len() - a, pre1.len() as int);
            }
            assert(sorted0 =~= after_g + gp_nats);
            lemma_multiset_commutative(after_g, gp_nats);
        }
    }
    let greatest = shuffle_opt_exec(g_part, rng);
    let ghost st2 = rng@;
    let ghost pre2 = roll@;
    let l_part: Option<Vec<num::BigUint>> = match eff_least_u {
        Some(a) => {
            proof {
                assert(a <= roll@.len());
            }
            Some(take_least(&mut roll, a))
        },
        None => None,
    };
    let ghost after_l = nats_of(roll@);
    let ghost lp_nats = opt_seq(opt_nats(l_part));
    proof {
        assert(after_g.to_multiset() == lp_nats.to_multiset().add(after_l.to_multiset())
            && sorted_nats(after_l) && after_l == (if dl_m is Some {
            after_g.subrange(or0(dl_m) as int, after_g.len() as int)
        } else {
            after_g
        }) && opt_nats(l_part) == (if dl_m is Some {
            Some(after_g.subrange(0, or0(dl_m) as int))
        } else {
            None::<Seq<nat>>
        })) by {
            if eff_least_u is Some {
                let a = eff_least_u->0 as int;
                lemma_nats_subrange(pre2, 0, a);
                lemma_nats_subrange(pre2, a, pre2.len() as int);
            }
            assert(after_g =~= lp_nats + after_l);
            lemma_multiset_commutative(lp_nats, after_l);
        }
    }
    let least = shuffle_opt_exec(l_part, rng);
    let ghost st3 = rng@;
    proof {
        assert(drop_stage_ok(least, greatest, nats_of(roll@), st3, p, st0)) by {
            assert(sample_vals(st0, p.roll_len, p.die_size) == dice_v);
            assert(sample_state(st0, p.roll_len, p.die_size) == st1);
            assert(sorted_spec(dice_v) == sorted0);
            assert(opt_nats(greatest) == shuffle_opt(st1, opt_nats(g_part)).0);
            assert(st2 == shuffle_opt(st1, opt_nats(g_part)).1);
            assert(opt_nats(least) == shuffle_opt(st2, opt_nats(l_part)).0);
            assert(st3 == shuffle_opt(st2, opt_nats(l_part)).1);
            assert(opt_seq(opt_nats(least)).to_multiset() == lp_nats.to_multiset());
            assert(opt_seq(opt_nats(greatest)).to_multiset() == gp_nats.to_multiset());
            assert(opt_nats(g_part) == band_drop(p, st0).1);
            assert(opt_nats(l_part) == band_drop(p, st0).0);
            assert(nats_of(roll@) == band_drop(p, st0).2);
            broadcast use vstd::multiset::group_multiset_axioms;

            assert(sorted0.to_multiset() == dice_v.to_multiset());
        }
    }
    if over {
        finish_over_dropped(least, greatest, roll, rng, Ghost(p), Ghost(st0))
    } else {
        let mut overlap = false;
        if let (Some(cgb), Some(clb)) = (&count_greater, &count_lesser) {
            if big_lt(clb, cgb) {
                overlap = true;
            }
        }
        if overlap {
            let cgb = match count_greater {
                Some(b) => b,
                None => {
                    assert(false);
                    big_from_u64(0)
                },
            };
            let clb = match count_lesser {
                Some(b) => b,
                None => {
                    assert(false);
                    big_from_u64(0)
                },
            };
            finish_over_filtered(least, greatest, roll, cgb, clb, rng, Ghost(p), Ghost(st0))
        } else {
            finish_under(least, greatest, roll, count_greater, count_lesser, rng, Ghost(p), Ghost(
                st0,
            ))
        }
    }
}

/// The degenerate-drop shape: what is left is the middle, and nothing more is
/// cut.
fn finish_over_dropped(
    least: Option<Vec<num::BigUint>>,
    greatest: Option<Vec<num::BigUint>>,
    roll: Vec<num::BigUint>,
    rng: &mut RngSource,
    Ghost(p): Ghost<ParseV>,
    Ghost(st0): Ghost<Seq<u8>>,
) -> (out: Realize)
    requires
        drop_stage_ok(least, greatest, nats_of(roll@), old(rng)@, p, st0),
        over_dropped(p),
    ensures
        Ok::<RealizeV, RealizeError>(out@) == rz_model(p, st0),
        realize_ok(out, p, st0),
        final(rng)@ == rz_state(p, st0),
{
    let ghost least_v = opt_nats(least);
    let ghost greatest_v = opt_nats(greatest);
    let ghost work = nats_of(roll@);
    let ghost dice_v = sample_vals(st0, p.roll_len, p.die_size);
    let middle = shuffled(roll, rng);
    let out = Realize::OverDropped(RealizeOverDropped { least, middle, greatest });
    proof {
        let tot = rz_total(out@);
        assert(tot.to_multiset() == dice_v.to_multiset()) by {
            assert(tot =~= opt_seq(least_v) + nats_of(middle@) + opt_seq(greatest_v));
            lemma_multiset_commutative(opt_seq(least_v) + nats_of(middle@), opt_seq(greatest_v));
            lemma_multiset_commutative(opt_seq(least_v), nats_of(middle@));
            assert(nats_of(middle@).to_multiset() == work.to_multiset());
            assert(tot.to_multiset() =~= dice_v.to_multiset());
        }
        vstd::seq_lib::to_multiset_len(tot);
        vstd::seq_lib::to_multiset_len(dice_v);
        assert(tot.len() == dice_v.len());
        assert(parts_permuted(out@, rz_bands(p, st0))) by {
            assert(nats_of(middle@).to_multiset() == work.to_multiset());
        }
        assert(realize_ok(out, p, st0)) by {
            lemma_multiset_transfer(dice_v, tot);
        }
        assert(Ok::<RealizeV, RealizeError>(out@) == rz_model(p, st0));
        assert(final(rng)@ == rz_state(p, st0));
    }
    out
}

/// The inverted-threshold shape: the roles of the two count thresholds are
/// swapped, and both bands are always cut.
#[verifier::rlimit(100)]
fn finish_over_filtered(
    least: Option<Vec<num::BigUint>>,
    greatest: Option<Vec<num::BigUint>>,
    roll: Vec<num::BigUint>,
    cgb: num::BigUint,
    clb: num::BigUint,
    rng: &mut RngSource,
    Ghost(p): Ghost<ParseV>,
    Ghost(st0): Ghost<Seq<u8>>,
) -> (out: Realize)
    requires
        drop_stage_ok(least, greatest, nats_of(roll@), old(rng)@, p, st0),
        !over_dropped(p),
        over_filtered(p),
        p.count_greater == Some(nat_of(cgb)),
        p.count_lesser == Some(nat_of(clb)),
    ensures
        Ok::<RealizeV, RealizeError>(out@) == rz_model(p, st0),
        realize_ok(out, p, st0),
        final(rng)@ == rz_state(p, st0),
{
    let mut roll = roll;
    let ghost least_v = opt_nats(least);
    let ghost greatest_v = opt_nats(greatest);
    let ghost work = nats_of(roll@);
    let ghost dice_v = sample_vals(st0, p.roll_len, p.die_size);
    let ghost st3 = rng@;
    let ghost cg = nat_of(cgb);
    let ghost cl = nat_of(clb);
    let ghost pre3 = roll@;
    let g2 = take_greater(&mut roll, &cgb);
    let ghost w3 = nats_of(roll@);
    let ghost g2n = nats_of(g2@);
    proof {
        let pg = first_ge(work, cg) as int;
        lemma_first_ge_bound(work, cg);
        lemma_nats_subrange(pre3, 0, pg);
        lemma_nats_subrange(pre3, pg, pre3.len() as int);
        assert(work =~= w3 + g2n);
        lemma_multiset_commutative(w3, g2n);
        assert(sorted_nats(w3));
        lemma_first_ge_prefix(work, cg);
        assert(forall|k: int| 0 <= k < w3.len() ==> #[trigger] w3[k] < cg);
        assert(forall|k: int| 0 <= k < g2n.len() ==> #[trigger] g2n[k] >= cg) by {
            lemma_first_ge_char_all(work, cg);
        }
    }
    let greater = shuffled(g2, rng);
    let ghost pre4 = roll@;
    let l2 = take_lesser(&mut roll, &clb);
    let ghost w4 = nats_of(roll@);
    let ghost l2n = nats_of(l2@);
    proof {
        let pl = first_gt(w3, cl) as int;
        lemma_first_gt_bound(w3, cl);
        lemma_nats_subrange(pre4, 0, pl);
        lemma_nats_subrange(pre4, pl, pre4.len() as int);
        assert(w3 =~= l2n + w4);
        lemma_multiset_commutative(l2n, w4);
        lemma_first_gt_prefix(w3, cl);
        assert(forall|k: int| 0 <= k < l2n.len() ==> #[trigger] l2n[k] <= cl);
        assert(forall|k: int| 0 <= k < w4.len() ==> #[trigger] w4[k] > cl) by {
            lemma_first_gt_char_all(w3, cl);
        }
    }
    let lesser = shuffled(l2, rng);
    let middle = shuffled(roll, rng);
    let out = Realize::OverFiltered(
        RealizeOverFiltered { least, lesser, middle, greater, greatest },
    );
    proof {
        let tot = rz_total(out@);
        let le_n = nats_of(out->OverFiltered_0.lesser@);
        let mi_n = nats_of(out->OverFiltered_0.middle@);
        let gr_n = nats_of(out->OverFiltered_0.greater@);
        assert(tot.to_multiset() == dice_v.to_multiset()) by {
            assert(tot =~= opt_seq(least_v) + le_n + mi_n + gr_n + opt_seq(greatest_v));
            lemma_multiset_commutative(
                opt_seq(least_v) + le_n + mi_n + gr_n,
                opt_seq(greatest_v),
            );
            lemma_multiset_commutative(opt_seq(least_v) + le_n + mi_n, gr_n);
            lemma_multiset_commutative(opt_seq(least_v) + le_n, mi_n);
            lemma_multiset_commutative(opt_seq(least_v), le_n);
            broadcast use vstd::multiset::group_multiset_axioms;

            assert(tot.to_multiset() =~= dice_v.to_multiset());
        }
        vstd::seq_lib::to_multiset_len(tot);
        vstd::seq_lib::to_multiset_len(dice_v);
        assert(tot.len() == dice_v.len());
        assert(parts_permuted(out@, rz_bands(p, st0))) by {
            assert(gr_n.to_multiset() == g2n.to_multiset());
            assert(le_n.to_multiset() == l2n.to_multiset());
            assert(mi_n.to_multiset() == w4.to_multiset());
        }
        assert(realize_ok(out, p, st0)) by {
            lemma_multiset_transfer(dice_v, tot);
            lemma_multiset_transfer(g2n, gr_n);
            lemma_multiset_transfer(l2n, le_n);
            lemma_multiset_transfer(w4, mi_n);
        }
        assert(Ok::<RealizeV, RealizeError>(out@) == rz_model(p, st0)) by {
            assert(out@ == rz_filtered(p, rz_drop_stage(p, st0)).0);
        }
        assert(final(rng)@ == rz_state(p, st0)) by {
            assert(final(rng)@ == rz_filtered(p, rz_drop_stage(p, st0)).1);
        }
    }
    out
}

/// Cuts the values `>=` the threshold, if one is present, and shuffles them.
fn cut_greater_opt(
    roll: &mut Vec<num::BigUint>,
    threshold: &Option<num::BigUint>,
    rng: &mut RngSource,
) -> (r: Option<Vec<num::BigUint>>)
    requires
        sorted_nats(nats_of(old(roll)@)),
    ensures
        ({
            let w = nats_of(old(roll)@);
            match *threshold {
                Some(t) => {
                    let pg = first_ge(w, nat_of(t)) as int;
                    let band = w.subrange(pg, w.len() as int);
                    &&& nats_of(final(roll)@) == w.subrange(0, pg)
                    &&& opt_nats(r) == Some(shuffle_of(old(rng)@, band))
                    &&& final(rng)@ == shuffle_step(old(rng)@, band)
                    &&& opt_seq(opt_nats(r)).to_multiset() == band.to_multiset()
                    &&& w.to_multiset() == nats_of(final(roll)@).to_multiset().add(
                        band.to_multiset(),
                    )
                },
                None => r is None && *final(roll) == *old(roll) && final(rng)@ == old(rng)@
                    && opt_seq(opt_nats(r)).to_multiset() == Seq::<nat>::empty().to_multiset(),
            }
        }),
        sorted_nats(nats_of(final(roll)@)),
{
    match threshold {
        Some(t) => {
            let ghost w = nats_of(roll@);
            let ghost pre = roll@;
            let g2 = take_greater(roll, t);
            proof {
                let pg = first_ge(w, nat_of(*t)) as int;
                lemma_first_ge_bound(w, nat_of(*t));
                lemma_nats_subrange(pre, 0, pg);
                lemma_nats_subrange(pre, pg, pre.len() as int);
                assert(w =~= nats_of(roll@) + nats_of(g2@));
                lemma_multiset_commutative(nats_of(roll@), nats_of(g2@));
            }
            Some(shuffled(g2, rng))
        },
        None => None,
    }
}

/// Cuts the values `<=` the threshold, if one is present, and shuffles them.
fn cut_lesser_opt(
    roll: &mut Vec<num::BigUint>,
    threshold: &Option<num::BigUint>,
    rng: &mut RngSource,
) -> (r: Option<Vec<num::BigUint>>)
    requires
        sorted_nats(nats_of(old(roll)@)),
    ensures
        ({
            let w = nats_of(old(roll)@);
            match *threshold {
                Some(t) => {
                    let pl = first_gt(w, nat_of(t)) as int;
                    let band = w.subrange(0, pl);
                    &&& nats_of(final(roll)@) == w.subrange(pl, w.len() as int)
                    &&& opt_nats(r) == Some(shuffle_of(old(rng)@, band))
                    &&& final(rng)@ == shuffle_step(old(rng)@, band)
                    &&& opt_seq(opt_nats(r)).to_multiset() == band.to_multiset()
                    &&& w.to_multiset() == band.to_multiset().add(
                        nats_of(final(roll)@).to_multiset(),
                    )
                },
                None => r is None && *final(roll) == *old(roll) && final(rng)@ == old(rng)@
                    && opt_seq(opt_nats(r)).to_multiset() == Seq::<nat>::empty().to_multiset(),
            }
        }),
        sorted_nats(nats_of(final(roll)@)),
{
    match threshold {
        Some(t) => {
            let ghost w = nats_of(roll@);
            let ghost pre = roll@;
            let l2 = take_lesser(roll, t);
            proof {
                let pl = first_gt(w, nat_of(*t)) as int;
                lemma_first_gt_bound(w, nat_of(*t));
                lemma_nats_subrange(pre, 0, pl);
                lemma_nats_subrange(pre, pl, pre.len() as int);
                assert(w =~= nats_of(l2@) + nats_of(roll@));
                lemma_multiset_commutative(nats_of(l2@), nats_of(roll@));
            }
            Some(shuffled(l2, rng))
        },
        None => None,
    }
}

/// The normal shape: each present count threshold cuts its band.
#[verifier::rlimit(100)]
fn finish_under(
    least: Option<Vec<num::BigUint>>,
    greatest: Option<Vec<num::BigUint>>,
    roll: Vec<num::BigUint>,
    count_greater: Option<num::BigUint>,
    count_lesser: Option<num::BigUint>,
    rng: &mut RngSource,
    Ghost(p): Ghost<ParseV>,
    Ghost(st0): Ghost<Seq<u8>>,
) -> (out: Realize)
    requires
        drop_stage_ok(least, greatest, nats_of(roll@), old(rng)@, p, st0),
        !over_dropped(p),
        !over_filtered(p),
        crate::roll::parse::opt_nat_of(count_greater) == p.count_greater,
        crate::roll::parse::opt_nat_of(count_lesser) == p.count_lesser,
    ensures
        Ok::<RealizeV, RealizeError>(out@) == rz_model(p, st0),
        realize_ok(out, p, st0),
        final(rng)@ == rz_state(p, st0),
{
    let mut roll = roll;
    let ghost least_v = opt_nats(least);
    let ghost greatest_v = opt_nats(greatest);
    let ghost work = nats_of(roll@);
    let ghost dice_v = sample_vals(st0, p.roll_len, p.die_size);
    let ghost st3 = rng@;
    let greater: Option<Vec<num::BigUint>> = cut_greater_opt(&mut roll, &count_lesser, rng);
    let ghost st4 = rng@;
    let ghost w3 = nats_of(roll@);
    let ghost greater_v = opt_nats(greater);
    let lesser: Option<Vec<num::BigUint>> = cut_lesser_opt(&mut roll, &count_greater, rng);
    let ghost st5 = rng@;
    let ghost w4 = nats_of(roll@);
    let ghost lesser_v = opt_nats(lesser);
    let middle = shuffled(roll, rng);
    let out = Realize::Under(RealizeUnder { least, lesser, middle, greater, greatest });
    proof {
        let tot = rz_total(out@);
        let mi_n = nats_of(out->Under_0.middle@);
        assert(tot.to_multiset() == dice_v.to_multiset()) by {
            assert(tot =~= opt_seq(least_v) + opt_seq(lesser_v) + mi_n + opt_seq(greater_v)
                + opt_seq(greatest_v));
            lemma_multiset_commutative(
                opt_seq(least_v) + opt_seq(lesser_v) + mi_n + opt_seq(greater_v),
                opt_seq(greatest_v),
            );
            lemma_multiset_commutative(
                opt_seq(least_v) + opt_seq(lesser_v) + mi_n,
                opt_seq(greater_v),
            );
            lemma_multiset_commutative(opt_seq(least_v) + opt_seq(lesser_v), mi_n);
            lemma_multiset_commutative(opt_seq(least_v), opt_seq(lesser_v));
            broadcast use vstd::multiset::group_multiset_axioms;

            assert(tot.to_multiset() =~= dice_v.to_multiset());
        }
        vstd::seq_lib::to_multiset_len(tot);
        vstd::seq_lib::to_multiset_len(dice_v);
        assert(tot.len() == dice_v.len());
        assert(parts_permuted(out@, rz_bands(p, st0))) by {
            assert(work.subrange(0, work.len() as int) =~= work);
            assert(w3.subrange(0, w3.len() as int) =~= w3);
            assert(mi_n.to_multiset() == w4.to_multiset());
        }
        assert(realize_ok(out, p, st0)) by {
            lemma_multiset_transfer(dice_v, tot);
        }
        assert(Ok::<RealizeV, RealizeError>(out@) == rz_model(p, st0)) by {
            assert(work.subrange(0, work.len() as int) =~= work);
            assert(w3.subrange(0, w3.len() as int) =~= w3);
            assert(nats_of(middle@) == shuffle_of(st5, w4));
            assert(out@ == rz_under(p, rz_drop_stage(p, st0)).0);
        }
        assert(final(rng)@ == rz_state(p, st0)) by {
            assert(work.subrange(0, work.len() as int) =~= work);
            assert(w3.subrange(0, w3.len() as int) =~= w3);
            assert(final(rng)@ == rz_under(p, rz_drop_stage(p, st0)).1);
        }
    }
    out
}

/// The values before the first `>= t` are all `< t`.
pub proof fn lemma_first_ge_prefix(s: Seq<nat>, t: nat)
    ensures
        forall|k: int| 0 <= k < first_ge(s, t) ==> #[trigger] s[k] < t,
    decreases s.len(),
{
    if s.len() > 0 && s[0] < t {
        lemma_first_ge_bound(s, t);
        lemma_first_ge_prefix(s.drop_first(), t);
        assert(forall|k: int| 1 <= k < first_ge(s, t) ==> s[k] == s.drop_first()[k - 1]);
    }
}

/// The values before the first `> t` are all `<= t`.
pub proof fn lemma_first_gt_prefix(s: Seq<nat>, t: nat)
    ensures
        forall|k: int| 0 <= k < first_gt(s, t) ==> #[trigger] s[k] <= t,
    decreases s.len(),
{
    if s.len() > 0 && s[0] <= t {
        lemma_first_gt_bound(s, t);
        lemma_first_gt_prefix(s.drop_first(), t);
        assert(forall|k: int| 1 <= k < first_gt(s, t) ==> s[k] == s.drop_first()[k - 1]);
    }
}

pub proof fn lemma_first_ge_bound(s: Seq<nat>, t: nat)
    ensures
        first_ge(s, t) <= s.len(),
    decreases s.len(),
{
    if s.len() > 0 && s[0] < t {
        lemma_first_ge_bound(s.drop_first(), t);
    }
}

pub proof fn lemma_first_gt_bound(s: Seq<nat>, t: nat)
    ensures
        first_gt(s, t) <= s.len(),
    decreases s.len(),
{
    if s.len() > 0 && s[0] <= t {
        lemma_first_gt_bound(s.drop_first(), t);
    }
}

/// On a sorted sequence, everything from the first value `>= t` on is `>= t`.
pub proof fn lemma_first_ge_char_all(s: Seq<nat>, t: nat)
    requires
        sorted_nats(s),
    ensures
        forall|k: int| first_ge(s, t) <= k < s.len() ==> #[trigger] s[k] >= t,
    decreases s.len(),
{
    if s.len() > 0 && s[0] < t {
        lemma_first_ge_char_all(s.drop_first(), t);
        assert(forall|k: int| 1 <= k < s.len() ==> s[k] == s.drop_first()[k - 1]);
        assert(sorted_nats(s.drop_first()));
    }
}

/// On a sorted sequence, everything from the first value `> t` on is `> t`.
pub proof fn lemma_first_gt_char_all(s: Seq<nat>, t: nat)
    requires
        sorted_nats(s),
    ensures
        forall|k: int| first_gt(s, t) <= k < s.len() ==> #[trigger] s[k] > t,
    decreases s.len(),
{
    if s.len() > 0 && s[0] <= t {
        lemma_first_gt_char_all(s.drop_first(), t);
        assert(forall|k: int| 1 <= k < s.len() ==> s[k] == s.drop_first()[k - 1]);
        assert(sorted_nats(s.drop_first()));
    }
}

} // verus!
