use poloto::build::{
    markers, origin, plot, plots_dyn, PlotMetaType, PlotResult, PlotType, RenderablePlotIter,
};

#[test]
fn builders_set_kind_and_label() {
    let p = plot("a").line().buffered(vec![(1i64, 2i64), (3, 4)]);
    assert_eq!(p.typ, PlotMetaType::Plot(PlotType::Line));
    assert_eq!(p.label, "a");
    assert_eq!(p.points, vec![(1, 2), (3, 4)]);
    let data = vec![(5i64, 6i64)];
    let q = plot("b").scatter().cloned(&data);
    assert_eq!(q.typ, PlotMetaType::Plot(PlotType::Scatter));
    assert_eq!(q.points, data);
    assert_eq!(plot("c").histogram().typ, PlotMetaType::Plot(PlotType::Histo));
    assert_eq!(plot("d").line_fill().typ, PlotMetaType::Plot(PlotType::LineFill));
    assert_eq!(plot("e").line_fill_raw().typ, PlotMetaType::Plot(PlotType::LineFillRaw));
    let t = plot("note").text::<i64, i64>();
    assert_eq!(t.typ, PlotMetaType::Text);
    assert!(t.points.is_empty());
    let all = plots_dyn(vec![p, q]);
    assert_eq!(all.plots.len(), 2);
}

#[test]
fn marker_values_kept() {
    let m = markers(vec![1i64, 2], vec![3i64]);
    assert_eq!(m.xmarkers, vec![1, 2]);
    assert_eq!(m.ymarkers, vec![3]);
    let o = origin();
    assert_eq!(o.xmarkers, vec![0]);
    assert_eq!(o.ymarkers, vec![0]);
}

#[test]
fn all_points_in_drawing_order() {
    let a = plot("a").line().buffered(vec![(1i64, 2i64), (3, 4)]);
    let b = plot("b").text::<i64, i64>();
    let c = plot("c").scatter().buffered(vec![(5i64, 6i64)]);
    let all = plots_dyn(vec![a, b, c]);
    assert_eq!(all.all_points(), vec![(1, 2), (3, 4), (5, 6)]);
}

#[test]
fn plots_step_through_once() {
    let a = plot("a").line().buffered(vec![(1i64, 2i64), (3, 4)]);
    let b = plot("b").histogram().buffered(vec![(5i64, 6i64)]);
    let mut it = RenderablePlotIter::new(plots_dyn(vec![a, b]));
    assert_eq!(it.next_plot_point(), PlotResult::EndOfPlot);
    assert_eq!(it.next_plot(), Some(PlotMetaType::Plot(PlotType::Line)));
    assert_eq!(*it.name(), "a");
    assert_eq!(it.next_plot_point(), PlotResult::Point((1, 2)));
    assert_eq!(it.next_plot_point(), PlotResult::Point((3, 4)));
    assert_eq!(it.next_plot_point(), PlotResult::EndOfPlot);
    assert_eq!(it.next_plot(), Some(PlotMetaType::Plot(PlotType::Histo)));
    assert_eq!(it.next_plot_point(), PlotResult::Point((5, 6)));
    assert_eq!(it.next_plot_point(), PlotResult::Finished);
    assert_eq!(it.next_plot(), None);
}
