//! Assembling plots: a label, a kind, and the points.

use vstd::prelude::*;

verus! {

/// How the points of a plot are drawn.
#[derive(Clone, Copy, Debug, PartialEq, Eq, Structural)]
pub enum PlotType {
    Scatter,
    Line,
    Histo,
    LineFill,
    LineFillRaw,
    Bars,
}

/// Whether an entry is a plot, or only text in the legend.
#[derive(Clone, Copy, Debug, PartialEq, Eq, Structural)]
pub enum PlotMetaType {
    Plot(PlotType),
    Text,
}

/// What stepping through the points of several plots yields: a point, the end of one plot,
/// or the end of them all.
#[derive(Clone, Copy, Debug, PartialEq, Eq)]
pub enum PlotResult<T> {
    Point(T),
    EndOfPlot,
    Finished,
}

/// A labelled plot and its points.
pub struct SinglePlot<X, Y, D> {
    pub typ: PlotMetaType,
    pub label: D,
    pub points: Vec<(X, Y)>,
}

/// A label waiting for its plot kind.
pub struct SinglePlotBuilder<D> {
    pub label: D,
}

/// A label and a plot kind waiting for their points.
pub struct PointBuilder<D> {
    pub label: D,
    pub typ: PlotMetaType,
}

/// Values that a plot keeps in view without drawing them.
pub struct Markers<X, Y> {
    pub xmarkers: Vec<X>,
    pub ymarkers: Vec<Y>,
}

/// Starts a plot with a label.
pub fn plot<D>(label: D) -> (r: SinglePlotBuilder<D>)
    ensures
        r.label == label,
{
    SinglePlotBuilder { label }
}

impl<D> SinglePlotBuilder<D> {
    /// A line through the points.
    pub fn line(self) -> (r: PointBuilder<D>)
        ensures
            r.label == self.label,
            r.typ == PlotMetaType::Plot(PlotType::Line),
    {
        PointBuilder { label: self.label, typ: PlotMetaType::Plot(PlotType::Line) }
    }

    /// Bars at the points.
    pub(crate) fn bars(self) -> (r: PointBuilder<D>)
        ensures
            r.label == self.label,
            r.typ == PlotMetaType::Plot(PlotType::Bars),
    {
        PointBuilder { label: self.label, typ: PlotMetaType::Plot(PlotType::Bars) }
    }

    /// A mark at each point.
    pub fn scatter(self) -> (r: PointBuilder<D>)
        ensures
            r.label == self.label,
            r.typ == PlotMetaType::Plot(PlotType::Scatter),
    {
        PointBuilder { label: self.label, typ: PlotMetaType::Plot(PlotType::Scatter) }
    }

    /// A rectangle from each point to the next.
    pub fn histogram(self) -> (r: PointBuilder<D>)
        ensures
            r.label == self.label,
            r.typ == PlotMetaType::Plot(PlotType::Histo),
    {
        PointBuilder { label: self.label, typ: PlotMetaType::Plot(PlotType::Histo) }
    }

    /// A line filled down to the baseline.
    pub fn line_fill(self) -> (r: PointBuilder<D>)
        ensures
            r.label == self.label,
            r.typ == PlotMetaType::Plot(PlotType::LineFill),
    {
        PointBuilder { label: self.label, typ: PlotMetaType::Plot(PlotType::LineFill) }
    }

    /// A line whose first and last points are joined, and the shape filled.
    pub fn line_fill_raw(self) -> (r: PointBuilder<D>)
        ensures
            r.label == self.label,
            r.typ == PlotMetaType::Plot(PlotType::LineFillRaw),
    {
        PointBuilder { label: self.label, typ: PlotMetaType::Plot(PlotType::LineFillRaw) }
    }

    /// Text in the legend, with no points.
    pub fn text<X, Y>(self) -> (r: SinglePlot<X, Y, D>)
        ensures
            r.label == self.label,
            r.typ == PlotMetaType::Text,
            r.points@.len() == 0,
    {
        SinglePlot { typ: PlotMetaType::Text, label: self.label, points: Vec::new() }
    }
}

impl<D> PointBuilder<D> {
    /// The plot over points that it takes.
    pub fn buffered<X, Y>(self, points: Vec<(X, Y)>) -> (r: SinglePlot<X, Y, D>)
        ensures
            r.label == self.label,
            r.typ == self.typ,
            r.points@ == points@,
    {
        SinglePlot { typ: self.typ, label: self.label, points }
    }

    /// The plot over a copy of the points.
    pub fn cloned<X: Copy, Y: Copy>(self, points: &Vec<(X, Y)>) -> (r: SinglePlot<X, Y, D>)
        ensures
            r.label == self.label,
            r.typ == self.typ,
            r.points@ == points@,
    {
        let mut copy: Vec<(X, Y)> = Vec::new();
        let mut i: usize = 0;
        while i < points.len()
            invariant
                0 <= i <= points@.len(),
                copy@ == points@.take(i as int),
            decreases points@.len() - i,
        {
            let p = points[i];
            copy.push(p);
            proof {
                assert(copy@ =~= points@.take(i + 1));
            }
            i = i + 1;
        }
        proof {
            assert(points@.take(points@.len() as int) =~= points@);
        }
        SinglePlot { typ: self.typ, label: self.label, points: copy }
    }
}

/// Keeps the given values in view.
pub fn markers<X, Y>(x: Vec<X>, y: Vec<Y>) -> (r: Markers<X, Y>)
    ensures
        r.xmarkers@ == x@,
        r.ymarkers@ == y@,
{
    Markers { xmarkers: x, ymarkers: y }
}

/// Keeps the origin in view.
pub fn origin() -> (r: Markers<i64, i64>)
    ensures
        r.xmarkers@ == seq![0i64],
        r.ymarkers@ == seq![0i64],
{
    markers(vec![0i64], vec![0i64])
}

/// Several plots, drawn in order.
pub struct PlotsDyn<X, Y, D> {
    pub plots: Vec<SinglePlot<X, Y, D>>,
}

/// Collects plots to be drawn in order.
pub fn plots_dyn<X, Y, D>(stuff: Vec<SinglePlot<X, Y, D>>) -> (r: PlotsDyn<X, Y, D>)
    ensures
        r.plots@ == stuff@,
{
    PlotsDyn { plots: stuff }
}

/// The points of the first `n` plots, one plot after another.
pub open spec fn points_of<X, Y, D>(plots: Seq<SinglePlot<X, Y, D>>, n: nat) -> Seq<(X, Y)>
    decreases n,
{
    if n == 0 {
        seq![]
    } else {
        points_of(plots, (n - 1) as nat) + plots[n - 1].points@
    }
}

impl<X: Copy, Y: Copy, D> PlotsDyn<X, Y, D> {
    /// Every point of every plot, in drawing order: what the bounds of the drawing cover.
    pub fn all_points(&self) -> (r: Vec<(X, Y)>)
        ensures
            r@ == points_of(self.plots@, self.plots@.len()),
    {
        let mut out: Vec<(X, Y)> = Vec::new();
        let mut i: usize = 0;
        while i < self.plots.len()
            invariant
                0 <= i <= self.plots@.len(),
                out@ == points_of(self.plots@, i as nat),
            decreases self.plots@.len() - i,
        {
            let pts = &self.plots[i].points;
            let ghost before = out@;
            let mut j: usize = 0;
            while j < pts.len()
                invariant
                    0 <= j <= pts@.len(),
                    pts@ == self.plots@[i as int].points@,
                    out@ == before + pts@.take(j as int),
                decreases pts@.len() - j,
            {
                let p = pts[j];
                out.push(p);
                proof {
                    assert(out@ =~= before + pts@.take(j + 1));
                }
                j = j + 1;
            }
            proof {
                assert(pts@.take(pts@.len() as int) =~= pts@);
                assert(points_of(self.plots@, (i + 1) as nat) == before + pts@);
            }
            i = i + 1;
        }
        out
    }
}

/// Steps through several plots once: a plot at a time, and within it a point at a time.
pub struct RenderablePlotIter<X, Y, D> {
    plots: Vec<SinglePlot<X, Y, D>>,
    started: usize,
    point: usize,
}

impl<X: Copy, Y: Copy, D> RenderablePlotIter<X, Y, D> {
    /// The plots being stepped through.
    pub closed spec fn plots_view(&self) -> Seq<SinglePlot<X, Y, D>> {
        self.plots@
    }

    /// How many plots have been started.
    pub closed spec fn started_view(&self) -> nat {
        self.started as nat
    }

    /// How many points of the current plot have been handed out.
    pub closed spec fn point_view(&self) -> nat {
        self.point as nat
    }

    /// Well-formedness: the cursor stays within the plots.
    pub closed spec fn wf(&self) -> bool {
        &&& self.started <= self.plots@.len()
        &&& self.started == 0 ==> self.point == 0
        &&& self.started > 0 ==> self.point <= self.plots@[self.started - 1].points@.len()
    }

    /// Starts before the first plot.
    pub fn new(plots: PlotsDyn<X, Y, D>) -> (r: Self)
        ensures
            r.wf(),
            r.plots_view() == plots.plots@,
            r.started_view() == 0,
            r.point_view() == 0,
    {
        RenderablePlotIter { plots: plots.plots, started: 0, point: 0 }
    }

    /// Moves to the next plot and gives its kind; `None` when every plot has been started.
    pub fn next_plot(&mut self) -> (r: Option<PlotMetaType>)
        requires
            old(self).wf(),
        ensures
            final(self).wf(),
            final(self).plots_view() == old(self).plots_view(),
            old(self).started_view() < old(self).plots_view().len() ==> r == Some(
                old(self).plots_view()[old(self).started_view() as int].typ,
            ) && final(self).started_view() == old(self).started_view() + 1
                && final(self).point_view() == 0,
            old(self).started_view() == old(self).plots_view().len() ==> r is None && *final(self)
                == *old(self),
    {
        if self.started < self.plots.len() {
            let typ = self.plots[self.started].typ;
            self.started = self.started + 1;
            self.point = 0;
            Some(typ)
        } else {
            None
        }
    }

    /// The next point of the current plot; at its end, `EndOfPlot` while plots remain and
    /// `Finished` after the last.
    pub fn next_plot_point(&mut self) -> (r: PlotResult<(X, Y)>)
        requires
            old(self).wf(),
        ensures
            final(self).wf(),
            final(self).plots_view() == old(self).plots_view(),
            final(self).started_view() == old(self).started_view(),
            ({
                let s = old(self).started_view() as int;
                let p = old(self).point_view() as int;
                let ps = old(self).plots_view();
                if s > 0 && p < ps[s - 1].points@.len() {
                    r == PlotResult::Point(ps[s - 1].points@[p]) && final(self).point_view() == p + 1
                } else if s < ps.len() {
                    r == PlotResult::<(X, Y)>::EndOfPlot && final(self).point_view() == p
                } else {
                    r == PlotResult::<(X, Y)>::Finished && final(self).point_view() == p
                }
            }),
    {
        if self.started > 0 && self.point < self.plots[self.started - 1].points.len() {
            let pt = self.plots[self.started - 1].points[self.point];
            self.point = self.point + 1;
            PlotResult::Point(pt)
        } else if self.started < self.plots.len() {
            PlotResult::EndOfPlot
        } else {
            PlotResult::Finished
        }
    }

    /// The label of the current plot.
    pub fn name(&self) -> (r: &D)
        requires
            self.wf(),
            self.started_view() > 0,
        ensures
            *r == self.plots_view()[self.started_view() - 1].label,
    {
        &self.plots[self.started - 1].label
    }
}

} // verus!
