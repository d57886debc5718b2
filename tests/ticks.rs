use poloto::ticks::{closest_to_ideal, DataBound, IndexRequester, IntegerContext, Tick};

fn values(t: &[Tick<i64>]) -> Vec<i64> {
    t.iter().map(|k| k.value).collect()
}

fn positions(t: &[Tick<i64>]) -> Vec<i64> {
    t.iter().map(|k| k.position).collect()
}

#[test]
fn int_ticks_zero_to_six_thousand() {
    // The rough step 6000 / 7 puts the candidates at 100, 200 and 500; 500 gives 13 ticks.
    let t = IntegerContext
        .compute_ticks(8, DataBound { min: 0, max: 6000 })
        .unwrap();
    assert_eq!(values(&t.ticks), (0..=12).map(|i| i * 500).collect::<Vec<i64>>());
    assert_eq!(t.unit_data, 500);
    assert_eq!(t.display_relative, None);
}

#[test]
fn int_ticks_large_range_picks_five_million() {
    let t = IntegerContext
        .compute_ticks(8, DataBound { min: 0, max: 50424323 })
        .unwrap();
    assert_eq!(t.unit_data, 5_000_000);
    assert_eq!(t.ticks.len(), 11);
    assert_eq!(positions(&t.ticks), (0..=10).map(|i| i * 5_000_000).collect::<Vec<i64>>());
    // The last label, 50000000, is eight characters wide: labels become offsets.
    assert_eq!(t.display_relative, Some(0));
    assert_eq!(values(&t.ticks), positions(&t.ticks));
}

#[test]
fn int_ticks_relative_display_for_close_large_numbers() {
    let t = IntegerContext
        .compute_ticks(5, DataBound { min: 100_000_000, max: 100_000_100 })
        .unwrap();
    assert_eq!(t.unit_data, 20);
    assert_eq!(t.display_relative, Some(100_000_000));
    assert_eq!(values(&t.ticks), vec![0, 20, 40, 60, 80, 100]);
    assert_eq!(
        positions(&t.ticks),
        vec![100_000_000, 100_000_020, 100_000_040, 100_000_060, 100_000_080, 100_000_100]
    );
}

#[test]
fn int_ticks_negative_range() {
    let t = IntegerContext
        .compute_ticks(5, DataBound { min: -10, max: 10 })
        .unwrap();
    assert_eq!(t.unit_data, 5);
    assert_eq!(values(&t.ticks), vec![-10, -5, 0, 5, 10]);
    assert_eq!(t.display_relative, None);
}

#[test]
fn int_ticks_small_range_uses_unit_steps() {
    let t = IntegerContext
        .compute_ticks(8, DataBound { min: 3, max: 6 })
        .unwrap();
    assert_eq!(t.unit_data, 1);
    assert_eq!(values(&t.ticks), vec![3, 4, 5, 6]);
}

#[test]
fn int_ticks_at_least_two_for_three_or_more() {
    for n in 3..=100u32 {
        for (lo, hi) in [(0i64, 1i64), (1, 12), (-7, 13), (5, 1_000_003), (-999_999, 1)] {
            let t = IntegerContext
                .compute_ticks(n, DataBound { min: lo, max: hi })
                .unwrap();
            assert!(t.ticks.len() >= 2);
            for k in &t.ticks {
                assert!(lo <= k.position && k.position <= hi);
            }
        }
    }
}

#[test]
fn int_ticks_two_ideal_can_fall_short() {
    // Steps 10, 20 and 50 over [1, 12] give 1, 0 and 0 ticks.
    assert!(IntegerContext
        .compute_ticks(2, DataBound { min: 1, max: 12 })
        .is_none());
}

#[test]
fn int_ticks_same_inputs_same_result() {
    let a = IntegerContext
        .compute_ticks(7, DataBound { min: -321, max: 98765 })
        .unwrap();
    let b = IntegerContext
        .compute_ticks(7, DataBound { min: -321, max: 98765 })
        .unwrap();
    assert_eq!(a.ticks, b.ticks);
    assert_eq!(a.unit_data, b.unit_data);
    assert_eq!(a.display_relative, b.display_relative);
}

#[test]
fn int_unit_range() {
    assert_eq!(IntegerContext.unit_range(Some(5)), DataBound { min: 4, max: 6 });
    assert_eq!(IntegerContext.unit_range(None), DataBound { min: -1, max: 1 });
}

#[test]
fn closest_prefers_first_on_tie() {
    assert_eq!(closest_to_ideal(&vec![3, 7, 5], 5), 2);
    assert_eq!(closest_to_ideal(&vec![4, 6, 5], 5), 2);
    assert_eq!(closest_to_ideal(&vec![4, 6, 9], 5), 0);
    assert_eq!(closest_to_ideal(&vec![9], 2), 0);
}

#[test]
fn index_requester_counts_up() {
    let mut r = IndexRequester::new(3);
    assert_eq!(r.request(), 3);
    assert_eq!(r.request(), 4);
    assert_eq!(r.peek(), 5);
}

#[test]
fn int_ticks_at_the_ends_of_the_domain() {
    let up = IntegerContext
        .compute_ticks(8, DataBound { min: 0, max: i64::MAX })
        .unwrap();
    assert_eq!(up.unit_data, 1_000_000_000_000_000_000);
    assert_eq!(
        positions(&up.ticks),
        (0..10).map(|i| i * 1_000_000_000_000_000_000).collect::<Vec<i64>>()
    );
    assert_eq!(up.display_relative, Some(0));
    let down = IntegerContext
        .compute_ticks(8, DataBound { min: i64::MIN, max: -1 })
        .unwrap();
    assert_eq!(down.unit_data, 1_000_000_000_000_000_000);
    assert_eq!(
        positions(&down.ticks),
        (0..9).map(|i| -9_000_000_000_000_000_000 + i * 1_000_000_000_000_000_000).collect::<Vec<i64>>()
    );
    assert_eq!(down.display_relative, Some(-9_000_000_000_000_000_000));
    assert_eq!(
        values(&down.ticks),
        (0..9).map(|i| i * 1_000_000_000_000_000_000).collect::<Vec<i64>>()
    );
}

#[test]
fn int_tick_labels() {
    assert_eq!(IntegerContext.tick_label(-1203), "-1203");
    assert_eq!(IntegerContext.tick_label(0), "0");
    assert_eq!(IntegerContext.tick_label(50000000), "50000000");
    assert_eq!(IntegerContext.tick_label(i64::MIN), "-9223372036854775808");
}
