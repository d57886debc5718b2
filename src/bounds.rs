//! The extent of plotted data on each axis.
//!
//! One pass over the points tracks the least and greatest value of each axis;
//! marker values always count. A bound with no width is widened to the
//! domain's unit range.

use crate::ticks::DataBound;
use vstd::prelude::*;

verus! {

/// The kind of value that an axis holds.
#[derive(Clone, Copy, Debug, PartialEq, Eq, Structural)]
pub enum Domain {
    /// Plain integers: a bound with no width becomes one either side of its value.
    Integer,
    /// Seconds since the epoch: a bound with no width becomes one second from its value.
    Time,
}

/// The least value of a non-empty sequence.
pub open spec fn seq_min(s: Seq<int>) -> int
    decreases s.len(),
{
    if s.len() <= 1 {
        s[0]
    } else {
        let m = seq_min(s.drop_last());
        if s.last() < m {
            s.last()
        } else {
            m
        }
    }
}

/// The greatest value of a non-empty sequence.
pub open spec fn seq_max(s: Seq<int>) -> int
    decreases s.len(),
{
    if s.len() <= 1 {
        s[0]
    } else {
        let m = seq_max(s.drop_last());
        if s.last() > m {
            s.last()
        } else {
            m
        }
    }
}

/// The range shown for a domain when the data gives no width, around `offset` or the origin.
pub open spec fn unit_range_of(d: Domain, offset: Option<int>) -> (int, int) {
    match d {
        Domain::Integer => match offset {
            Some(o) => (o - 1, o + 1),
            None => (-1, 1),
        },
        Domain::Time => match offset {
            Some(o) => (o, o + 1),
            None => (0, 1),
        },
    }
}

/// The bound of an axis of domain `d` whose values, markers included, are `vals`.
pub open spec fn bound_of(d: Domain, vals: Seq<int>) -> (int, int) {
    if vals.len() == 0 {
        unit_range_of(d, None)
    } else if seq_min(vals) == seq_max(vals) {
        unit_range_of(d, Some(seq_min(vals)))
    } else {
        (seq_min(vals), seq_max(vals))
    }
}

proof fn lemma_min_max_bounds(s: Seq<int>)
    requires
        s.len() >= 1,
    ensures
        forall|i: int| 0 <= i < s.len() ==> seq_min(s) <= #[trigger] s[i] <= seq_max(s),
        exists|i: int| 0 <= i < s.len() && seq_min(s) == #[trigger] s[i],
        exists|i: int| 0 <= i < s.len() && seq_max(s) == #[trigger] s[i],
    decreases s.len(),
{
    if s.len() > 1 {
        lemma_min_max_bounds(s.drop_last());
        let p = s.drop_last();
        assert forall|i: int| 0 <= i < s.len() implies seq_min(s) <= #[trigger] s[i] <= seq_max(
            s,
        ) by {
            if i < s.len() - 1 {
                assert(s[i] == p[i]);
            }
        }
        let j = choose|j: int| 0 <= j < p.len() && seq_min(p) == #[trigger] p[j];
        let k = choose|k: int| 0 <= k < p.len() && seq_max(p) == #[trigger] p[k];
        assert(s[j] == p[j]);
        assert(s[k] == p[k]);
        if s.last() < seq_min(p) {
            assert(seq_min(s) == s[s.len() - 1]);
        } else {
            assert(seq_min(s) == s[j]);
        }
        if s.last() > seq_max(p) {
            assert(seq_max(s) == s[s.len() - 1]);
        } else {
            assert(seq_max(s) == s[k]);
        }
    } else {
        assert(seq_min(s) == s[0]);
        assert(seq_max(s) == s[0]);
    }
}

/// The range to show for domain `d` when the data gives no width.
pub fn default_unit_range(d: Domain, offset: Option<i64>) -> (r: DataBound<i64>)
    requires
        offset matches Some(o) ==> fits(unit_range_of(d, Some(o as int))),
    ensures
        (r.min as int, r.max as int) == unit_range_of(
            d,
            match offset {
                Some(o) => Some(o as int),
                None => None,
            },
        ),
        r.min < r.max,
{
    match d {
        Domain::Integer => match offset {
            Some(o) => DataBound { min: o - 1, max: o + 1 },
            None => DataBound { min: -1, max: 1 },
        },
        Domain::Time => match offset {
            Some(o) => DataBound { min: o, max: o + 1 },
            None => DataBound { min: 0, max: 1 },
        },
    }
}

/// The least and greatest value of a sequence, when it is not empty.
pub open spec fn extent_of(s: Seq<int>) -> Option<(int, int)> {
    if s.len() == 0 {
        None
    } else {
        Some((seq_min(s), seq_max(s)))
    }
}

/// The x values of a sequence of points.
pub open spec fn xs_of(points: Seq<(i64, i64)>) -> Seq<int> {
    points.map_values(|p: (i64, i64)| p.0 as int)
}

/// The y values of a sequence of points.
pub open spec fn ys_of(points: Seq<(i64, i64)>) -> Seq<int> {
    points.map_values(|p: (i64, i64)| p.1 as int)
}

/// Whether a bound fits the values of the domain.
pub open spec fn fits(b: (int, int)) -> bool {
    i64::MIN <= b.0 && b.1 <= i64::MAX
}

/// Widens a running extent by one value.
fn grow(ext: Option<(i64, i64)>, v: i64, Ghost(seen): Ghost<Seq<int>>) -> (r: Option<(i64, i64)>)
    requires
        ext matches Some(e) ==> extent_of(seen) == Some((e.0 as int, e.1 as int)),
        ext is None ==> seen.len() == 0,
    ensures
        r matches Some(e) && extent_of(seen.push(v as int)) == Some((e.0 as int, e.1 as int)),
{
    proof {
        assert(seen.push(v as int).drop_last() =~= seen);
    }
    match ext {
        None => {
            proof {
                assert(seq_min(seq![v as int]) == v);
                assert(seq_max(seq![v as int]) == v);
                assert(seen.push(v as int) =~= seq![v as int]);
            }
            Some((v, v))
        },
        Some((lo, hi)) => {
            let lo2 = if v < lo {
                v
            } else {
                lo
            };
            let hi2 = if v > hi {
                v
            } else {
                hi
            };
            Some((lo2, hi2))
        },
    }
}

/// The bound that a running extent gives in domain `d`.
fn finish(d: Domain, ext: Option<(i64, i64)>, Ghost(vals): Ghost<Seq<int>>) -> (r: DataBound<i64>)
    requires
        ext matches Some(e) ==> extent_of(vals) == Some((e.0 as int, e.1 as int)),
        ext is None ==> vals.len() == 0,
        fits(bound_of(d, vals)),
    ensures
        (r.min as int, r.max as int) == bound_of(d, vals),
        r.min < r.max,
{
    match ext {
        None => default_unit_range(d, None),
        Some((lo, hi)) => {
            proof {
                lemma_min_max_bounds(vals);
            }
            if lo == hi {
                default_unit_range(d, Some(lo))
            } else {
                DataBound { min: lo, max: hi }
            }
        },
    }
}

/// The bounds of both axes over `points` and the marker values, in one pass over the points.
pub fn find_bounds(
    points: &Vec<(i64, i64)>,
    xmarkers: &Vec<i64>,
    ymarkers: &Vec<i64>,
    xdomain: Domain,
    ydomain: Domain,
) -> (r: (DataBound<i64>, DataBound<i64>))
    requires
        fits(bound_of(xdomain, xs_of(points@) + xmarkers@.map_values(|v: i64| v as int))),
        fits(bound_of(ydomain, ys_of(points@) + ymarkers@.map_values(|v: i64| v as int))),
    ensures
        (r.0.min as int, r.0.max as int) == bound_of(
            xdomain,
            xs_of(points@) + xmarkers@.map_values(|v: i64| v as int),
        ),
        (r.1.min as int, r.1.max as int) == bound_of(
            ydomain,
            ys_of(points@) + ymarkers@.map_values(|v: i64| v as int),
        ),
        r.0.min < r.0.max,
        r.1.min < r.1.max,
{
    let mut ex: Option<(i64, i64)> = None;
    let mut ey: Option<(i64, i64)> = None;
    let mut i: usize = 0;
    while i < points.len()
        invariant
            0 <= i <= points@.len(),
            ex matches Some(e) ==> extent_of(xs_of(points@).take(i as int)) == Some(
                (e.0 as int, e.1 as int),
            ),
            ex is None ==> i == 0,
            ey matches Some(e) ==> extent_of(ys_of(points@).take(i as int)) == Some(
                (e.0 as int, e.1 as int),
            ),
            ey is None ==> i == 0,
        decreases points@.len() - i,
    {
        let (x, y) = points[i];
        proof {
            assert(xs_of(points@).take(i + 1) =~= xs_of(points@).take(i as int).push(x as int));
            assert(ys_of(points@).take(i + 1) =~= ys_of(points@).take(i as int).push(y as int));
        }
        ex = grow(ex, x, Ghost(xs_of(points@).take(i as int)));
        ey = grow(ey, y, Ghost(ys_of(points@).take(i as int)));
        i = i + 1;
    }
    let ghost xall = xs_of(points@) + xmarkers@.map_values(|v: i64| v as int);
    let ghost yall = ys_of(points@) + ymarkers@.map_values(|v: i64| v as int);
    proof {
        assert(xs_of(points@).take(points@.len() as int) =~= xs_of(points@));
        assert(ys_of(points@).take(points@.len() as int) =~= ys_of(points@));
        assert(xall.take(points@.len() as int) =~= xs_of(points@));
        assert(yall.take(points@.len() as int) =~= ys_of(points@));
    }
    let mut j: usize = 0;
    while j < xmarkers.len()
        invariant
            0 <= j <= xmarkers@.len(),
            xall == xs_of(points@) + xmarkers@.map_values(|v: i64| v as int),
            ex matches Some(e) ==> extent_of(xall.take(points@.len() + j)) == Some(
                (e.0 as int, e.1 as int),
            ),
            ex is None ==> points@.len() + j == 0,
        decreases xmarkers@.len() - j,
    {
        let v = xmarkers[j];
        proof {
            assert(xall.take(points@.len() + j + 1) =~= xall.take(points@.len() + j).push(v as int));
        }
        ex = grow(ex, v, Ghost(xall.take(points@.len() + j)));
        j = j + 1;
    }
    let mut k: usize = 0;
    while k < ymarkers.len()
        invariant
            0 <= k <= ymarkers@.len(),
            yall == ys_of(points@) + ymarkers@.map_values(|v: i64| v as int),
            ey matches Some(e) ==> extent_of(yall.take(points@.len() + k)) == Some(
                (e.0 as int, e.1 as int),
            ),
            ey is None ==> points@.len() + k == 0,
        decreases ymarkers@.len() - k,
    {
        let v = ymarkers[k];
        proof {
            assert(yall.take(points@.len() + k + 1) =~= yall.take(points@.len() + k).push(v as int));
        }
        ey = grow(ey, v, Ghost(yall.take(points@.len() + k)));
        k = k + 1;
    }
    proof {
        assert(xall.take(xall.len() as int) =~= xall);
        assert(yall.take(yall.len() as int) =~= yall);
    }
    let bx = finish(xdomain, ex, Ghost(xall));
    let by = finish(ydomain, ey, Ghost(yall));
    (bx, by)
}

/// A single data point and no markers give each axis a bound of positive width; on an integer
/// axis the value lies strictly inside it, on a time axis the bound starts at the value and is
/// one second wide.
pub proof fn lemma_single_point_bounds(d: Domain, x: i64, y: i64)
    ensures
        ({
            let b = bound_of(d, xs_of(seq![(x, y)]) + Seq::<int>::empty());
            &&& b.0 < b.1
            &&& d == Domain::Integer ==> b.0 < x < b.1
            &&& d == Domain::Time ==> b.0 == x && b.1 == b.0 + 1
        }),
        ({
            let b = bound_of(d, ys_of(seq![(x, y)]) + Seq::<int>::empty());
            &&& b.0 < b.1
            &&& d == Domain::Integer ==> b.0 < y < b.1
            &&& d == Domain::Time ==> b.0 == y && b.1 == b.0 + 1
        }),
{
    assert(xs_of(seq![(x, y)]) + Seq::<int>::empty() =~= seq![x as int]);
    assert(ys_of(seq![(x, y)]) + Seq::<int>::empty() =~= seq![y as int]);
    assert(seq_min(seq![x as int]) == x && seq_max(seq![x as int]) == x);
    assert(seq_min(seq![y as int]) == y && seq_max(seq![y as int]) == y);
}

} // verus!
