//! Path geometry for each kind of plot.
//!
//! The caller maps each point into pixel space and says whether it is finite;
//! these functions decide which commands join the points. A command names a
//! point by its index, so the caller writes out its coordinates.

use vstd::prelude::*;

verus! {

/// One drawing command over indexed points.
#[derive(Clone, Copy, Debug, PartialEq, Eq, Structural)]
pub enum PathCommand {
    /// Start a subpath at point `i`.
    MoveTo(usize),
    /// Draw a segment to point `i`.
    LineTo(usize),
    /// Start a subpath on the baseline below point `i`.
    MoveToBase(usize),
    /// Draw a segment to the baseline below point `i`.
    LineToBase(usize),
    /// Close the current subpath.
    Close,
}

/// A rectangle of a histogram, from the x of point `left` to the x of point `right`, as high as
/// point `left`.
#[derive(Clone, Copy, Debug, PartialEq, Eq, Structural)]
pub struct Bar {
    pub left: usize,
    pub right: usize,
}

/// Whether point `i` starts a run of finite points.
pub open spec fn starts_run(f: Seq<bool>, i: int) -> bool {
    f[i] && (i == 0 || !f[i - 1])
}

/// Whether point `i` ends a run of finite points.
pub open spec fn ends_run(f: Seq<bool>, i: int) -> bool {
    f[i] && (i == f.len() - 1 || !f[i + 1])
}

/// The commands that a line emits for point `i`.
pub open spec fn line_step(f: Seq<bool>, i: int) -> Seq<PathCommand> {
    if !f[i] {
        seq![]
    } else if starts_run(f, i) {
        seq![PathCommand::MoveTo(i as usize)]
    } else {
        seq![PathCommand::LineTo(i as usize)]
    }
}

/// The commands that a line emits for the first `n` points.
pub open spec fn line_path(f: Seq<bool>, n: nat) -> Seq<PathCommand>
    decreases n,
{
    if n == 0 {
        seq![]
    } else {
        line_path(f, (n - 1) as nat) + line_step(f, n - 1)
    }
}

/// The commands that a filled line emits for point `i`; `to_base` drops each run to the baseline
/// at both ends.
pub open spec fn fill_step(f: Seq<bool>, i: int, to_base: bool) -> Seq<PathCommand> {
    if !f[i] {
        seq![]
    } else {
        let head = if !starts_run(f, i) {
            seq![PathCommand::LineTo(i as usize)]
        } else if to_base {
            seq![PathCommand::MoveToBase(i as usize), PathCommand::LineTo(i as usize)]
        } else {
            seq![PathCommand::MoveTo(i as usize)]
        };
        let tail = if !ends_run(f, i) {
            seq![]
        } else if to_base {
            seq![PathCommand::LineToBase(i as usize), PathCommand::Close]
        } else {
            seq![PathCommand::Close]
        };
        head + tail
    }
}

/// The commands that a filled line emits for the first `n` points.
pub open spec fn fill_path(f: Seq<bool>, n: nat, to_base: bool) -> Seq<PathCommand>
    decreases n,
{
    if n == 0 {
        seq![]
    } else {
        fill_path(f, (n - 1) as nat, to_base) + fill_step(f, n - 1, to_base)
    }
}

/// The indices of the finite points among the first `n`.
pub open spec fn finite_points(f: Seq<bool>, n: nat) -> Seq<usize>
    decreases n,
{
    if n == 0 {
        seq![]
    } else if f[n - 1] {
        finite_points(f, (n - 1) as nat).push((n - 1) as usize)
    } else {
        finite_points(f, (n - 1) as nat)
    }
}

/// The bars of a histogram over the first `n` points: one for each pair of neighbours that
/// are both finite.
pub open spec fn histogram_bars(f: Seq<bool>, n: nat) -> Seq<Bar>
    decreases n,
{
    if n <= 1 {
        seq![]
    } else if f[n - 2] && f[n - 1] {
        histogram_bars(f, (n - 1) as nat).push(Bar { left: (n - 2) as usize, right: (n - 1) as usize })
    } else {
        histogram_bars(f, (n - 1) as nat)
    }
}

/// The commands of a line through the points: each run of finite points is a subpath of its
/// own, so a point that is not finite breaks the line.
pub fn line(finite: &Vec<bool>) -> (r: Vec<PathCommand>)
    ensures
        r@ == line_path(finite@, finite@.len()),
{
    let mut out: Vec<PathCommand> = Vec::new();
    let mut i: usize = 0;
    while i < finite.len()
        invariant
            0 <= i <= finite@.len(),
            out@ == line_path(finite@, i as nat),
        decreases finite@.len() - i,
    {
        let ghost before = out@;
        if finite[i] {
            if i == 0 || !finite[i - 1] {
                out.push(PathCommand::MoveTo(i));
            } else {
                out.push(PathCommand::LineTo(i));
            }
        }
        proof {
            assert(line_path(finite@, (i + 1) as nat) == before + line_step(finite@, i as int));
            assert(out@ =~= before + line_step(finite@, i as int));
        }
        i = i + 1;
    }
    out
}

/// The commands of a filled line through the points: each run of finite points is a closed
/// subpath; with `add_start_end_base` it also drops to the baseline at both ends of the run.
pub fn line_fill(finite: &Vec<bool>, add_start_end_base: bool) -> (r: Vec<PathCommand>)
    ensures
        r@ == fill_path(finite@, finite@.len(), add_start_end_base),
{
    let mut out: Vec<PathCommand> = Vec::new();
    let mut i: usize = 0;
    let n = finite.len();
    while i < n
        invariant
            0 <= i <= n,
            n == finite@.len(),
            out@ == fill_path(finite@, i as nat, add_start_end_base),
        decreases n - i,
    {
        let ghost before = out@;
        if finite[i] {
            let first = i == 0 || !finite[i - 1];
            let last = i + 1 == n || !finite[i + 1];
            if !first {
                out.push(PathCommand::LineTo(i));
            } else if add_start_end_base {
                out.push(PathCommand::MoveToBase(i));
                out.push(PathCommand::LineTo(i));
            } else {
                out.push(PathCommand::MoveTo(i));
            }
            if last {
                if add_start_end_base {
                    out.push(PathCommand::LineToBase(i));
                }
                out.push(PathCommand::Close);
            }
        }
        proof {
            assert(fill_path(finite@, (i + 1) as nat, add_start_end_base) == before + fill_step(
                finite@,
                i as int,
                add_start_end_base,
            ));
            assert(out@ =~= before + fill_step(finite@, i as int, add_start_end_base));
        }
        i = i + 1;
    }
    out
}

/// The points that a scatter plot marks: every finite one, in order; the others are skipped.
pub fn scatter(finite: &Vec<bool>) -> (r: Vec<usize>)
    ensures
        r@ == finite_points(finite@, finite@.len()),
{
    let mut out: Vec<usize> = Vec::new();
    let mut i: usize = 0;
    while i < finite.len()
        invariant
            0 <= i <= finite@.len(),
            out@ == finite_points(finite@, i as nat),
        decreases finite@.len() - i,
    {
        if finite[i] {
            out.push(i);
        }
        i = i + 1;
    }
    out
}

/// The bars of a histogram: one for each pair of neighbouring points that are both finite.
pub fn histogram(finite: &Vec<bool>) -> (r: Vec<Bar>)
    ensures
        r@ == histogram_bars(finite@, finite@.len()),
{
    let mut out: Vec<Bar> = Vec::new();
    let n = finite.len();
    if n < 2 {
        return out;
    }
    let mut i: usize = 1;
    while i < n
        invariant
            1 <= i <= n,
            n == finite@.len(),
            out@ == histogram_bars(finite@, i as nat),
        decreases n - i,
    {
        if finite[i - 1] && finite[i] {
            out.push(Bar { left: i - 1, right: i });
        }
        i = i + 1;
    }
    out
}

} // verus!
