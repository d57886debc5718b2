use poloto::context_ext::{PlotNumContext, PlotNumContextExt};
use poloto::ticks::{DataBound, IntegerContext};
use poloto::timestamp::{UnixTime, UnixTimeContext};

#[test]
fn adapters_stack() {
    let ctx = IntegerContext.marker(5).marker(-2).no_dash().with_ideal_num_ticks(4);
    assert_eq!(ctx.get_markers(), vec![5, -2]);
    assert!(!ctx.dashed());
    assert_eq!(ctx.ideal_num_ticks(), Some(4));
    assert!(IntegerContext.dashed());
    assert_eq!(IntegerContext.ideal_num_ticks(), None);
}

#[test]
fn time_axis_has_no_dashes() {
    let ctx = UnixTimeContext::utc().marker(UnixTime(7));
    assert!(!ctx.dashed());
    assert_eq!(ctx.get_markers(), vec![UnixTime(7)]);
}

#[test]
fn time_ticks_can_fall_short() {
    // Fifty years with three ticks wanted: the closest candidate, every hundred years, has one tick.
    let ctx = UnixTimeContext::utc();
    assert!(ctx
        .compute_ticks(3, DataBound { min: UnixTime(0), max: UnixTime(1577836800) })
        .is_none());
}
