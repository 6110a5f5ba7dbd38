use dice_eval::rng::RngSource;
use dice_eval::roll::parse::parse_roll;
use dice_eval::roll::realize::{
    realize, sort_naturals, split_off_back, split_off_front, take_greater, take_greatest,
    take_least, take_lesser, Realize, RealizeOverDropped, RealizeOverFiltered, RealizeUnder,
};
use dice_eval::roll::realize::display::render;
use dice_eval::roll::value::roll_value;
use num::BigUint;

fn big(x: u32) -> BigUint {
    BigUint::from(x)
}

fn bigs(xs: &[u32]) -> Vec<BigUint> {
    xs.iter().map(|x| big(*x)).collect()
}

#[test]
fn parse_reads_all_fields() {
    let p = parse_roll(b"4d6dl1dg2cg5cl3").unwrap();
    assert_eq!(p.roll_len, big(4));
    assert_eq!(p.die_size, big(6));
    assert_eq!(p.drop_least, Some(big(1)));
    assert_eq!(p.drop_greatest, Some(big(2)));
    assert_eq!(p.count_greater, Some(big(5)));
    assert_eq!(p.count_lesser, Some(big(3)));
}

#[test]
fn parse_defaults_roll_len_to_one() {
    let p = parse_roll(b"d20").unwrap();
    assert_eq!(p.roll_len, big(1));
    assert_eq!(p.die_size, big(20));
    assert_eq!(p.drop_least, None);
}

#[test]
fn sorting_is_ascending() {
    let sorted = sort_naturals(bigs(&[6, 1, 4, 3]));
    assert_eq!(sorted, bigs(&[1, 3, 4, 6]));
}

#[test]
fn drop_least_keeps_the_high_dice() {
    // The fixed scenario: sorted dice [1, 3, 4, 6] dropping the least one.
    let mut work = sort_naturals(bigs(&[6, 1, 4, 3]));
    let least = take_least(&mut work, 1);
    assert_eq!(least, bigs(&[1]));
    assert_eq!(work, bigs(&[3, 4, 6]));
    let shape = Realize::Under(RealizeUnder {
        least: Some(least),
        lesser: None,
        middle: work,
        greater: None,
        greatest: None,
    });
    let value = roll_value(&shape);
    assert_eq!(value.display_bytes(), b"13");
    let mut trace: Vec<u8> = Vec::new();
    render(&shape, &mut trace);
    assert_eq!(trace, b"[1[3 4 6]");
}

#[test]
fn threshold_cuts_split_sorted_bands() {
    let mut work = bigs(&[1, 2, 3, 4, 5, 6]);
    let greater = take_greater(&mut work, &big(5));
    assert_eq!(greater, bigs(&[5, 6]));
    let lesser = take_lesser(&mut work, &big(2));
    assert_eq!(lesser, bigs(&[1, 2]));
    assert_eq!(work, bigs(&[3, 4]));
}

#[test]
fn split_off_front_and_back() {
    let mut v = bigs(&[1, 2, 3, 4]);
    let back = split_off_back(&mut v, 3);
    assert_eq!(back, bigs(&[4]));
    let front = split_off_front(&mut v, 1);
    assert_eq!(front, bigs(&[1]));
    assert_eq!(v, bigs(&[2, 3]));
}

#[test]
fn take_greatest_removes_the_top_of_the_sorted_set() {
    let mut v = bigs(&[1, 2, 3, 4]);
    let top = take_greatest(&mut v, 2);
    assert_eq!(top, bigs(&[3, 4]));
    assert_eq!(v, bigs(&[1, 2]));
}

#[test]
fn realized_multiset_has_roll_len_values_in_range() {
    let p = parse_roll(b"10d6").unwrap();
    let mut rng = RngSource::from_entropy();
    match realize(p, &mut rng).unwrap() {
        Realize::Under(u) => {
            assert!(u.least.is_none() && u.lesser.is_none());
            assert!(u.greater.is_none() && u.greatest.is_none());
            assert_eq!(u.middle.len(), 10);
            for die in &u.middle {
                assert!(*die >= big(1) && *die <= big(6));
            }
        }
        _ => panic!("a plain roll realizes to the normal shape"),
    }
}

#[test]
fn degenerate_drop_is_over_dropped_and_worth_zero() {
    let p = parse_roll(b"3d6dl2dg1").unwrap();
    let mut rng = RngSource::from_entropy();
    let shape = realize(p, &mut rng).unwrap();
    match &shape {
        Realize::OverDropped(u) => {
            let total = u.least.as_ref().map_or(0, |v| v.len()) + u.middle.len()
                + u.greatest.as_ref().map_or(0, |v| v.len());
            assert_eq!(total, 3);
        }
        _ => panic!("a degenerate drop realizes to the over-dropped shape"),
    }
    assert_eq!(roll_value(&shape).display_bytes(), b"0");
}

#[test]
fn overlapping_thresholds_are_over_filtered_with_swapped_roles() {
    let p = parse_roll(b"8d9cg6cl3").unwrap();
    let mut rng = RngSource::from_entropy();
    let shape = realize(p, &mut rng).unwrap();
    match &shape {
        Realize::OverFiltered(u) => {
            for die in &u.greater {
                assert!(*die >= big(6));
            }
            for die in &u.lesser {
                assert!(*die <= big(3));
            }
            for die in &u.middle {
                assert!(*die > big(3) && *die < big(6));
            }
            let total = u.least.as_ref().map_or(0, |v| v.len()) + u.lesser.len() + u.middle.len()
                + u.greater.len() + u.greatest.as_ref().map_or(0, |v| v.len());
            assert_eq!(total, 8);
        }
        _ => panic!("overlapping thresholds realize to the over-filtered shape"),
    }
    assert_eq!(roll_value(&shape).display_bytes(), b"0");
}

#[test]
fn counting_mode_reports_a_count_not_a_sum() {
    let p = parse_roll(b"5d6cg0").unwrap();
    let mut rng = RngSource::from_entropy();
    let shape = realize(p, &mut rng).unwrap();
    // Every die is greater than zero, so the middle keeps all five and the
    // value is the count.
    assert_eq!(roll_value(&shape).display_bytes(), b"5");
}

fn partitions(r: &Realize) -> Vec<Option<Vec<BigUint>>> {
    match r {
        Realize::Under(u) => vec![
            u.least.clone(),
            u.lesser.clone(),
            Some(u.middle.clone()),
            u.greater.clone(),
            u.greatest.clone(),
        ],
        Realize::OverDropped(u) => {
            vec![u.least.clone(), Some(u.middle.clone()), u.greatest.clone()]
        }
        Realize::OverFiltered(u) => vec![
            u.least.clone(),
            Some(u.lesser.clone()),
            Some(u.middle.clone()),
            Some(u.greater.clone()),
            u.greatest.clone(),
        ],
    }
}

#[test]
fn same_seed_reproduces_the_same_realization() {
    let seed = [7u8; 32];
    let mut rng1 = RngSource::from_seed(&seed);
    let mut rng2 = RngSource::from_seed(&seed);
    let p1 = parse_roll(b"6d20dl1dg1").unwrap();
    let p2 = parse_roll(b"6d20dl1dg1").unwrap();
    let r1 = realize(p1, &mut rng1).unwrap();
    let r2 = realize(p2, &mut rng2).unwrap();
    assert_eq!(partitions(&r1), partitions(&r2));
    assert_eq!(roll_value(&r1).display_bytes(), roll_value(&r2).display_bytes());
}

#[test]
fn duplicated_source_draws_the_same_future() {
    let mut rng1 = RngSource::from_entropy();
    let mut rng2 = rng1.dup();
    let p1 = parse_roll(b"4d6").unwrap();
    let p2 = parse_roll(b"4d6").unwrap();
    let r1 = realize(p1, &mut rng1).unwrap();
    let r2 = realize(p2, &mut rng2).unwrap();
    assert_eq!(partitions(&r1), partitions(&r2));
}

#[test]
fn render_under_shows_all_partitions() {
    let shape = Realize::Under(RealizeUnder {
        least: Some(bigs(&[1])),
        lesser: Some(bigs(&[2])),
        middle: bigs(&[3]),
        greater: Some(bigs(&[5])),
        greatest: Some(bigs(&[6])),
    });
    let mut trace: Vec<u8> = Vec::new();
    render(&shape, &mut trace);
    assert_eq!(trace, b"[1[2<3>5]6]");
}

#[test]
fn render_over_dropped_brackets_each_side() {
    let shape = Realize::OverDropped(RealizeOverDropped {
        least: Some(bigs(&[2])),
        middle: bigs(&[3]),
        greatest: Some(bigs(&[5])),
    });
    let mut trace: Vec<u8> = Vec::new();
    render(&shape, &mut trace);
    assert_eq!(trace, b"[2]3[5]");

    let bare = Realize::OverDropped(RealizeOverDropped {
        least: None,
        middle: bigs(&[1, 2]),
        greatest: None,
    });
    let mut trace: Vec<u8> = Vec::new();
    render(&bare, &mut trace);
    assert_eq!(trace, b"[1 2]");
}

#[test]
fn render_over_filtered_marks_inverted_bands() {
    let shape = Realize::OverFiltered(RealizeOverFiltered {
        least: None,
        lesser: bigs(&[1]),
        middle: bigs(&[3]),
        greater: bigs(&[6]),
        greatest: None,
    });
    let mut trace: Vec<u8> = Vec::new();
    render(&shape, &mut trace);
    assert_eq!(trace, b"[1>3<6]");
}

#[test]
fn counting_mode_with_both_thresholds() {
    // Sensible band: count the dice strictly between the two thresholds.
    let shape = Realize::Under(RealizeUnder {
        least: None,
        lesser: Some(bigs(&[1, 2])),
        middle: bigs(&[3, 4]),
        greater: Some(bigs(&[5, 6])),
        greatest: None,
    });
    assert_eq!(roll_value(&shape).display_bytes(), b"2");
}
