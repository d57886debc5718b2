//! Adapters that change how an axis is set up: its ideal tick count, whether
//! grid lines are dashed, and values that must stay in view.

use crate::ticks::IntegerContext;
use crate::timestamp::UnixTimeContext;
use vstd::prelude::*;

verus! {

/// How one axis chooses and shows its ticks.
pub trait PlotNumContext {
    type Num: Copy;

    /// The ideal number of ticks, when the axis asks for one of its own.
    spec fn ideal_spec(&self) -> Option<u32>;

    /// The values that the axis keeps in view.
    spec fn markers_spec(&self) -> Seq<Self::Num>;

    /// Whether grid lines on the axis are dashed.
    spec fn dash_spec(&self) -> bool;

    /// The ideal number of ticks, when the axis asks for one of its own.
    fn ideal_num_ticks(&self) -> (r: Option<u32>)
        ensures
            r == self.ideal_spec(),
    ;

    /// The values that the axis keeps in view.
    fn get_markers(&self) -> (r: Vec<Self::Num>)
        ensures
            r@ == self.markers_spec(),
    ;

    /// Whether grid lines on the axis are dashed.
    fn dashed(&self) -> (r: bool)
        ensures
            r == self.dash_spec(),
    ;
}

impl PlotNumContext for IntegerContext {
    type Num = i64;

    open spec fn ideal_spec(&self) -> Option<u32> {
        None
    }

    open spec fn markers_spec(&self) -> Seq<i64> {
        seq![]
    }

    open spec fn dash_spec(&self) -> bool {
        true
    }

    fn ideal_num_ticks(&self) -> (r: Option<u32>) {
        None
    }

    fn get_markers(&self) -> (r: Vec<i64>) {
        Vec::new()
    }

    fn dashed(&self) -> (r: bool) {
        true
    }
}

impl PlotNumContext for UnixTimeContext {
    type Num = crate::timestamp::UnixTime;

    open spec fn ideal_spec(&self) -> Option<u32> {
        None
    }

    open spec fn markers_spec(&self) -> Seq<crate::timestamp::UnixTime> {
        seq![]
    }

    /// Months and years differ in length, so time axes get no dashes.
    open spec fn dash_spec(&self) -> bool {
        false
    }

    fn ideal_num_ticks(&self) -> (r: Option<u32>) {
        None
    }

    fn get_markers(&self) -> (r: Vec<crate::timestamp::UnixTime>) {
        Vec::new()
    }

    fn dashed(&self) -> (r: bool) {
        false
    }
}

/// An axis that asks for its own ideal number of ticks.
pub struct WithNumTicks<T> {
    pub t: T,
    pub num: u32,
}

impl<P: PlotNumContext> PlotNumContext for WithNumTicks<P> {
    type Num = P::Num;

    open spec fn ideal_spec(&self) -> Option<u32> {
        Some(self.num)
    }

    open spec fn markers_spec(&self) -> Seq<P::Num> {
        self.t.markers_spec()
    }

    open spec fn dash_spec(&self) -> bool {
        self.t.dash_spec()
    }

    fn ideal_num_ticks(&self) -> (r: Option<u32>) {
        Some(self.num)
    }

    fn get_markers(&self) -> (r: Vec<P::Num>) {
        self.t.get_markers()
    }

    fn dashed(&self) -> (r: bool) {
        self.t.dashed()
    }
}

/// An axis whose grid lines are solid.
pub struct NoDash<T>(pub T);

impl<P: PlotNumContext> PlotNumContext for NoDash<P> {
    type Num = P::Num;

    open spec fn ideal_spec(&self) -> Option<u32> {
        self.0.ideal_spec()
    }

    open spec fn markers_spec(&self) -> Seq<P::Num> {
        self.0.markers_spec()
    }

    open spec fn dash_spec(&self) -> bool {
        false
    }

    fn ideal_num_ticks(&self) -> (r: Option<u32>) {
        self.0.ideal_num_ticks()
    }

    fn get_markers(&self) -> (r: Vec<P::Num>) {
        self.0.get_markers()
    }

    fn dashed(&self) -> (r: bool) {
        false
    }
}

/// An axis that keeps one more value in view.
pub struct Marker<T: PlotNumContext>(pub T, pub T::Num);

impl<P: PlotNumContext> PlotNumContext for Marker<P> {
    type Num = P::Num;

    open spec fn ideal_spec(&self) -> Option<u32> {
        self.0.ideal_spec()
    }

    open spec fn markers_spec(&self) -> Seq<P::Num> {
        self.0.markers_spec().push(self.1)
    }

    open spec fn dash_spec(&self) -> bool {
        self.0.dash_spec()
    }

    fn ideal_num_ticks(&self) -> (r: Option<u32>) {
        self.0.ideal_num_ticks()
    }

    fn get_markers(&self) -> (r: Vec<P::Num>) {
        let mut a = self.0.get_markers();
        a.push(self.1);
        a
    }

    fn dashed(&self) -> (r: bool) {
        self.0.dashed()
    }
}

/// Adapters on any axis context.
pub trait PlotNumContextExt: PlotNumContext + Sized {
    /// Keeps `a` in view on the axis.
    fn marker(self, a: Self::Num) -> (r: Marker<Self>)
        ensures
            r.markers_spec() == self.markers_spec().push(a),
            r.ideal_spec() == self.ideal_spec(),
            r.dash_spec() == self.dash_spec(),
    {
        Marker(self, a)
    }

    /// Makes the axis's grid lines solid.
    fn no_dash(self) -> (r: NoDash<Self>)
        ensures
            r.markers_spec() == self.markers_spec(),
            r.ideal_spec() == self.ideal_spec(),
            !r.dash_spec(),
    {
        NoDash(self)
    }

    /// Asks for `num` ticks on the axis.
    fn with_ideal_num_ticks(self, num: u32) -> (r: WithNumTicks<Self>)
        requires
            num >= 2,
        ensures
            r.ideal_spec() == Some(num),
            r.markers_spec() == self.markers_spec(),
            r.dash_spec() == self.dash_spec(),
    {
        WithNumTicks { t: self, num }
    }
}

impl<T: PlotNumContext> PlotNumContextExt for T {

}

} // verus!
