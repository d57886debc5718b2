use poloto::ticks::DataBound;
use poloto::timestamp::{month_str, TimestampType, UnixTime, UnixTimeContext};

fn times(t: &poloto::ticks::TickInfo<UnixTime, TimestampType>) -> Vec<i64> {
    t.ticks.iter().map(|k| k.position.0).collect()
}

#[test]
fn one_day_in_six_hour_steps() {
    let ctx = UnixTimeContext::utc();
    let t = ctx
        .compute_ticks(5, DataBound { min: UnixTime(0), max: UnixTime(86400) })
        .unwrap();
    assert_eq!(t.unit_data, TimestampType::HR);
    assert_eq!(times(&t), vec![0, 21600, 43200, 64800, 86400]);
    assert!(t.display_relative.is_none());
    for k in &t.ticks {
        assert_eq!(k.position, k.value);
    }
}

#[test]
fn ticks_align_in_local_time() {
    let ctx = UnixTimeContext::new(3600);
    let t = ctx
        .compute_ticks(5, DataBound { min: UnixTime(0), max: UnixTime(86400) })
        .unwrap();
    assert_eq!(t.unit_data, TimestampType::HR);
    assert_eq!(times(&t), vec![10800, 25200, 39600, 54000, 68400, 82800]);
}

#[test]
fn months_follow_the_calendar() {
    let ctx = UnixTimeContext::utc();
    let t = ctx
        .compute_ticks(6, DataBound { min: UnixTime(1579046400), max: UnixTime(1607990400) })
        .unwrap();
    assert_eq!(t.unit_data, TimestampType::MO);
    assert_eq!(
        times(&t),
        vec![1583020800, 1588291200, 1593561600, 1598918400, 1604188800]
    );
}

#[test]
fn time_labels_per_unit() {
    let ctx = UnixTimeContext::utc();
    // 2020-03-01T00:00:00Z
    let t = UnixTime(1583020800);
    assert_eq!(ctx.tick_label(t, TimestampType::YR).unwrap(), "2020");
    assert_eq!(ctx.tick_label(t, TimestampType::MO).unwrap(), "2020:Mar");
    assert_eq!(ctx.tick_label(t, TimestampType::DY).unwrap(), "3:1");
    // 2020-03-01T13:05:09Z
    let u = UnixTime(1583020800 + 13 * 3600 + 5 * 60 + 9);
    assert_eq!(ctx.tick_label(u, TimestampType::HR).unwrap(), "1:13");
    assert_eq!(ctx.tick_label(u, TimestampType::MI).unwrap(), "13:5");
    assert_eq!(ctx.tick_label(u, TimestampType::SE).unwrap(), "5:9");
    // One hour east of UTC, the same instant is past two in the afternoon.
    assert_eq!(UnixTimeContext::new(3600).tick_label(u, TimestampType::MI).unwrap(), "14:5");
    assert_eq!(ctx.tick_label(UnixTime(-1), TimestampType::YR).unwrap(), "1969");
}

#[test]
fn time_never_fewer_than_two_ticks() {
    let ctx = UnixTimeContext::utc();
    for n in 2..40u32 {
        for (a, b) in [(0i64, 1i64), (0, 59), (100, 100_000), (0, 31_536_000), (-5_000_000, 5)] {
            if let Some(t) = ctx.compute_ticks(n, DataBound { min: UnixTime(a), max: UnixTime(b) }) {
                assert!(t.ticks.len() >= 2);
                for k in &t.ticks {
                    assert!(a <= k.position.0 && k.position.0 <= b);
                }
            }
        }
    }
}

#[test]
fn time_unit_range() {
    let ctx = UnixTimeContext::utc();
    assert_eq!(
        ctx.unit_range(Some(UnixTime(10))),
        DataBound { min: UnixTime(10), max: UnixTime(11) }
    );
    assert_eq!(ctx.unit_range(None), DataBound { min: UnixTime(0), max: UnixTime(1) });
}

#[test]
fn month_and_unit_names() {
    assert_eq!(month_str(1), "Jan");
    assert_eq!(month_str(9), "Sep");
    assert_eq!(month_str(12), "Dec");
    assert_eq!(TimestampType::YR.name(), "Years");
    assert_eq!(TimestampType::SE.name(), "Seconds");
}
