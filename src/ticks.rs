//! Tick layout over the integer domain.
//!
//! Steps are taken from `{1, 2, 5}` times a power of ten; the candidate whose
//! tick count is closest to the ideal count wins, the earliest on a tie.

use vstd::prelude::*;

verus! {

/// The largest power of ten that is not above `r`, and one when `r < 10`.
pub open spec fn step_power(r: int) -> int
    decreases r,
{
    if r < 10 {
        1
    } else {
        10 * step_power(r / 10)
    }
}

/// The smallest multiple of `s` that is not below `v` (for `s > 0`).
pub open spec fn ceil_multiple(v: int, s: int) -> int {
    if v % s == 0 {
        v
    } else {
        v - v % s + s
    }
}

/// The number of steps of size `s` from `ceil_multiple(lo, s)` that stay within `hi`.
pub open spec fn tick_count(lo: int, hi: int, s: int) -> int {
    let start = ceil_multiple(lo, s);
    if start > hi {
        0
    } else {
        (hi - start) / s + 1
    }
}

/// How far a tick count is from the ideal count.
pub open spec fn distance(count: int, ideal: int) -> int {
    if count >= ideal {
        count - ideal
    } else {
        ideal - count
    }
}

/// The index of the first count in `counts[0..len]` that is closest to `ideal`.
pub open spec fn closest_index(counts: Seq<int>, ideal: int, len: nat) -> nat
    decreases len,
{
    if len <= 1 {
        0
    } else {
        let b = closest_index(counts, ideal, (len - 1) as nat);
        if distance(counts[len - 1], ideal) < distance(counts[b as int], ideal) {
            (len - 1) as nat
        } else {
            b
        }
    }
}

pub proof fn lemma_step_power_bounds(r: int)
    requires
        r >= 1,
    ensures
        1 <= step_power(r) <= r,
        r < 10 * step_power(r),
    decreases r,
{
    if r >= 10 {
        lemma_step_power_bounds(r / 10);
    }
}

/// The index that `closest_index` gives is within range, as close to the ideal as any other,
/// and strictly closer than every one before it.
pub proof fn lemma_closest_index_is_min(counts: Seq<int>, ideal: int, len: nat)
    requires
        1 <= len <= counts.len(),
    ensures
        closest_index(counts, ideal, len) < len,
        forall|i: int|
            0 <= i < len ==> distance(counts[closest_index(counts, ideal, len) as int], ideal)
                <= distance(#[trigger] counts[i], ideal),
        forall|i: int|
            0 <= i < closest_index(counts, ideal, len) ==> distance(
                counts[closest_index(counts, ideal, len) as int],
                ideal,
            ) < distance(#[trigger] counts[i], ideal),
    decreases len,
{
    if len > 1 {
        lemma_closest_index_is_min(counts, ideal, (len - 1) as nat);
    }
}

/// The largest power of ten that is not above `r`, and one when `r < 10`.
pub fn power_of_ten_below(r: u128) -> (p: u128)
    ensures
        p == step_power(r as int),
        r >= 1 ==> p <= r,
    decreases r,
{
    if r < 10 {
        1
    } else {
        let q = power_of_ten_below(r / 10);
        proof {
            lemma_step_power_bounds(r as int / 10);
        }
        10 * q
    }
}

/// The index of the first count that is closest to `ideal`.
pub fn closest_to_ideal(counts: &Vec<u128>, ideal: u32) -> (r: usize)
    requires
        counts@.len() > 0,
    ensures
        r as nat == closest_index(counts@.map_values(|c: u128| c as int), ideal as int, counts@.len()),
        r < counts@.len(),
        forall|i: int|
            0 <= i < counts@.len() ==> distance(counts@[r as int] as int, ideal as int) <= distance(
                #[trigger] counts@[i] as int,
                ideal as int,
            ),
        forall|i: int|
            0 <= i < r ==> distance(counts@[r as int] as int, ideal as int) < distance(
                #[trigger] counts@[i] as int,
                ideal as int,
            ),
{
    let ghost cs = counts@.map_values(|c: u128| c as int);
    let mut best: usize = 0;
    let mut best_dist: u128 = if counts[0] >= ideal as u128 {
        counts[0] - ideal as u128
    } else {
        ideal as u128 - counts[0]
    };
    let mut i: usize = 1;
    while i < counts.len()
        invariant
            1 <= i <= counts@.len(),
            cs == counts@.map_values(|c: u128| c as int),
            best as nat == closest_index(cs, ideal as int, i as nat),
            best < i,
            best_dist == distance(counts@[best as int] as int, ideal as int),
        decreases counts@.len() - i,
    {
        let c = counts[i];
        let d: u128 = if c >= ideal as u128 {
            c - ideal as u128
        } else {
            ideal as u128 - c
        };
        if d < best_dist {
            best = i;
            best_dist = d;
        }
        i = i + 1;
    }
    proof {
        lemma_closest_index_is_min(cs, ideal as int, counts@.len());
        assert forall|i: int| 0 <= i < counts@.len() implies distance(
            counts@[best as int] as int,
            ideal as int,
        ) <= distance(#[trigger] counts@[i] as int, ideal as int) by {
            assert(cs[i] == counts@[i] as int);
            assert(cs[best as int] == counts@[best as int] as int);
        }
        assert forall|i: int| 0 <= i < best implies distance(
            counts@[best as int] as int,
            ideal as int,
        ) < distance(#[trigger] counts@[i] as int, ideal as int) by {
            assert(cs[i] == counts@[i] as int);
            assert(cs[best as int] == counts@[best as int] as int);
        }
    }
    best
}

/// The multiplier of a candidate step, by its position in `{1, 2, 5}`.
pub open spec fn normalized_step(i: int) -> int {
    if i == 0 {
        1
    } else if i == 1 {
        2
    } else {
        5
    }
}

/// The ideal number of ticks, raised to two when it is lower.
pub open spec fn clamp_ideal(n: int) -> int {
    if n < 2 {
        2
    } else {
        n
    }
}

/// The power of ten that the candidate steps over `[lo, hi]` are built on.
pub open spec fn base_power(lo: int, hi: int, n: int) -> int {
    step_power((hi - lo) / (clamp_ideal(n) - 1))
}

/// The step of candidate `i`.
pub open spec fn candidate_step(lo: int, hi: int, n: int, i: int) -> int {
    normalized_step(i) * base_power(lo, hi, n)
}

/// The tick counts of the three candidate steps, in the order `1, 2, 5`.
pub open spec fn candidate_counts(lo: int, hi: int, n: int) -> Seq<int> {
    seq![
        tick_count(lo, hi, candidate_step(lo, hi, n, 0)),
        tick_count(lo, hi, candidate_step(lo, hi, n, 1)),
        tick_count(lo, hi, candidate_step(lo, hi, n, 2)),
    ]
}

/// The index of the candidate that the layout picks.
pub open spec fn chosen(lo: int, hi: int, n: int) -> int {
    closest_index(candidate_counts(lo, hi, n), clamp_ideal(n), 3) as int
}

/// The step that the layout picks.
pub open spec fn chosen_step(lo: int, hi: int, n: int) -> int {
    candidate_step(lo, hi, n, chosen(lo, hi, n))
}

/// The number of ticks that the layout yields.
pub open spec fn chosen_count(lo: int, hi: int, n: int) -> int {
    candidate_counts(lo, hi, n)[chosen(lo, hi, n)]
}

/// A chosen step for the integer domain.
pub struct IntTickLayout {
    pub step: i128,
    pub start_tick: i128,
    pub num_steps: u128,
    pub normalized_step: u32,
}

/// The smallest multiple of `s` that is not below `v`.
pub fn round_up_to_nearest_multiple(v: i128, s: i128) -> (r: i128)
    requires
        s > 0,
        i64::MIN <= v <= i64::MAX,
        s <= 5 * u64::MAX,
    ensures
        r == ceil_multiple(v as int, s as int),
        v <= r < v + s,
{
    let m = match v.checked_rem_euclid(s) {
        Some(m) => m,
        None => 0,
    };
    proof {
        assert(m == v as int % s as int);
    }
    if m == 0 {
        v
    } else {
        v - m + s
    }
}

/// The number of steps of size `s`, from the first multiple of `s` not below `lo`, that stay within `hi`.
pub fn count_ticks(lo: i64, hi: i64, s: i128) -> (r: u128)
    requires
        s > 0,
        s <= 5 * u64::MAX,
    ensures
        r == tick_count(lo as int, hi as int, s as int),
{
    let start = round_up_to_nearest_multiple(lo as i128, s);
    if start > hi as i128 {
        0
    } else {
        let q = (hi as i128 - start) / s;
        proof {
            assert(0 <= q <= hi as int - start) by (nonlinear_arith)
                requires
                    s >= 1,
                    hi as int - start >= 0,
                    q == (hi as int - start) / (s as int),
            ;
        }
        q as u128 + 1
    }
}

/// The number of characters in the decimal form of `v`.
pub open spec fn decimal_len(v: int) -> int
    decreases (if v < 0 { 1 - v } else { v }),
{
    if v < 0 {
        1 + decimal_len(-v)
    } else if v < 10 {
        1
    } else {
        1 + decimal_len(v / 10)
    }
}

/// The longest label that is shown as it is; wider labels switch to offsets from the first tick.
pub const MAX_LABEL_LEN: u32 = 7;

/// Whether ticks from `start` by `step`, `count` of them, are shown relative to the first.
pub open spec fn shows_relative(start: int, step: int, count: int) -> bool {
    decimal_len(start) > MAX_LABEL_LEN || decimal_len(start + (count - 1) * step)
        > MAX_LABEL_LEN
}

/// A tick: where it stands in the domain, and the value its label shows.
#[derive(Clone, Copy, Debug, PartialEq, Eq)]
pub struct Tick<N> {
    pub position: N,
    pub value: N,
}

/// A generated set of ticks.
pub struct TickInfo<N, U> {
    /// The step between ticks.
    pub unit_data: U,
    pub ticks: Vec<Tick<N>>,
    /// When present, the labels are offsets from this value.
    pub display_relative: Option<N>,
}

/// The power of ten with exponent `k`.
pub open spec fn pow10(k: nat) -> int
    decreases k,
{
    if k == 0 {
        1
    } else {
        10 * pow10((k - 1) as nat)
    }
}

proof fn lemma_decimal_len_positive(x: int)
    requires
        x >= 0,
    ensures
        decimal_len(x) >= 1,
    decreases x,
{
    if x >= 10 {
        lemma_decimal_len_positive(x / 10);
    }
}

proof fn lemma_decimal_len_bound(x: int, k: nat)
    requires
        0 <= x < pow10(k),
        k >= 1,
    ensures
        decimal_len(x) <= k,
    decreases k,
{
    if x >= 10 {
        assert(k >= 2) by {
            if k == 1 {
                assert(pow10(1) == 10) by {
                    reveal_with_fuel(pow10, 2);
                }
            }
        }
        assert(x / 10 < pow10((k - 1) as nat));
        lemma_decimal_len_bound(x / 10, (k - 1) as nat);
    }
}

/// The number of characters in the decimal form of `v`.
pub fn decimal_len_of(v: i64) -> (r: u32)
    ensures
        r == decimal_len(v as int),
{
    let neg = v < 0;
    let mut u: u128 = if neg {
        (0i128 - v as i128) as u128
    } else {
        v as u128
    };
    let mut len: u32 = 1;
    let ghost a: int = if neg { -(v as int) } else { v as int };
    proof {
        reveal_with_fuel(pow10, 21);
        assert(pow10(20) == 100000000000000000000);
        lemma_decimal_len_bound(a, 20);
        lemma_decimal_len_positive(u as int);
    }
    while u >= 10
        invariant
            a >= 0,
            u >= 0,
            len >= 1,
            len + decimal_len(u as int) == 1 + decimal_len(a),
            u <= a,
            decimal_len(u as int) >= 1,
            decimal_len(a) <= 20,
        decreases u,
    {
        proof {
            assert(decimal_len(u as int) == 1 + decimal_len(u as int / 10));
        }
        u = u / 10;
        proof {
            lemma_decimal_len_positive(u as int);
        }
        len = len + 1;
    }
    proof {
        assert(decimal_len(u as int) == 1);
        if neg {
            assert(decimal_len(v as int) == 1 + decimal_len(a));
        }
    }
    if neg {
        len + 1
    } else {
        len
    }
}

impl IntTickLayout {
    /// Picks the step for `[lo, hi]` among `{1, 2, 5}` times a power of ten, aiming at `ideal` ticks.
    pub fn new(ideal: u32, lo: i64, hi: i64) -> (r: IntTickLayout)
        requires
            lo <= hi,
        ensures
            r.step == chosen_step(lo as int, hi as int, ideal as int),
            r.start_tick == ceil_multiple(lo as int, r.step as int),
            r.num_steps == chosen_count(lo as int, hi as int, ideal as int),
            r.normalized_step == normalized_step(chosen(lo as int, hi as int, ideal as int)),
            r.step >= 1,
    {
        let n: u32 = if ideal < 2 {
            2
        } else {
            ideal
        };
        let span: u128 = (hi as i128 - lo as i128) as u128;
        let rough: u128 = span / (n as u128 - 1);
        let p = power_of_ten_below(rough);
        proof {
            assert(rough <= span) by (nonlinear_arith)
                requires
                    rough as int == span as int / (n as int - 1),
                    n >= 2,
                    span >= 0,
            ;
            if rough >= 1 {
                lemma_step_power_bounds(rough as int);
            }
            assert(p >= 1) by {
                if rough < 1 {
                    assert(step_power(rough as int) == 1);
                }
            }
            assert(p <= u64::MAX);
        }
        let p = p as i128;
        let c1 = count_ticks(lo, hi, p);
        let c2 = count_ticks(lo, hi, 2 * p);
        let c5 = count_ticks(lo, hi, 5 * p);
        let counts = vec![c1, c2, c5];
        let ghost cs = candidate_counts(lo as int, hi as int, ideal as int);
        proof {
            assert(base_power(lo as int, hi as int, ideal as int) == p);
            assert(counts@.map_values(|c: u128| c as int) =~= cs);
        }
        let best = closest_to_ideal(&counts, n);
        let mult: u32 = if best == 0 {
            1
        } else if best == 1 {
            2
        } else {
            5
        };
        let step = mult as i128 * p;
        let start_tick = round_up_to_nearest_multiple(lo as i128, step);
        IntTickLayout { step, start_tick, num_steps: counts[best], normalized_step: mult }
    }

    /// Lists the ticks of this layout, with labels relative to the first tick when they would be wide.
    pub fn generate(&self) -> (r: (Option<i64>, Vec<Tick<i64>>))
        requires
            self.step >= 1,
            self.num_steps >= 2,
            i64::MIN <= self.start_tick,
            self.start_tick + (self.num_steps - 1) * self.step <= i64::MAX,
            (self.num_steps - 1) * self.step <= i64::MAX,
        ensures
            r.1@.len() == self.num_steps,
            r.0 == (if shows_relative(
                self.start_tick as int,
                self.step as int,
                self.num_steps as int,
            ) {
                Some(self.start_tick as i64)
            } else {
                None::<i64>
            }),
            forall|i: int|
                0 <= i < r.1@.len() ==> (#[trigger] r.1@[i]).position == self.start_tick + i
                    * self.step && r.1@[i].value == (if r.0.is_some() {
                    i * self.step
                } else {
                    self.start_tick + i * self.step
                }),
    {
        let ghost s = self.step as int;
        let ghost c = self.num_steps as int;
        proof {
            assert(0 <= c - 1 <= (c - 1) * s) by (nonlinear_arith)
                requires
                    c >= 2,
                    s >= 1,
            ;
        }
        let last = self.start_tick + (self.num_steps as i128 - 1) * self.step;
        let start_len = decimal_len_of(self.start_tick as i64);
        let end_len = decimal_len_of(last as i64);
        let relative = start_len > MAX_LABEL_LEN || end_len > MAX_LABEL_LEN;
        let first: i128 = if relative {
            0
        } else {
            self.start_tick
        };
        let mut ticks: Vec<Tick<i64>> = Vec::new();
        let mut a: u128 = 0;
        while a < self.num_steps
            invariant
                0 <= a <= c,
                c == self.num_steps,
                s == self.step,
                s >= 1,
                c >= 2,
                first == 0 || first == self.start_tick,
                c - 1 <= (c - 1) * s,
                i64::MIN <= self.start_tick,
                self.start_tick + (c - 1) * s <= i64::MAX,
                (c - 1) * s <= i64::MAX,
                ticks@.len() == a,
                forall|i: int|
                    0 <= i < a ==> (#[trigger] ticks@[i]).position == self.start_tick + i * s
                        && ticks@[i].value == first + i * s,
            decreases c - a,
        {
            proof {
                assert(0 <= a * s <= (c - 1) * s) by (nonlinear_arith)
                    requires
                        0 <= a < c,
                        s >= 1,
                ;
            }
            proof {
                assert(a * s == s * a) by (nonlinear_arith);
            }
            let ai = a as i128;
            let off = self.step * ai;
            let position = (self.start_tick + off) as i64;
            let value = (first + off) as i64;
            ticks.push(Tick { position, value });
            proof {
                assert(ticks@[a as int].position == self.start_tick + a * s);
                assert(ticks@[a as int].value == first + a * s);
            }
            a = a + 1;
        }
        let rel = if relative {
            Some(self.start_tick as i64)
        } else {
            None
        };
        (rel, ticks)
    }
}

/// The extent of the data on one axis.
#[derive(Clone, Copy, Debug, PartialEq, Eq)]
pub struct DataBound<X> {
    pub min: X,
    pub max: X,
}

/// Which axis a bound or a tick set belongs to.
#[derive(Clone, Copy, Debug, PartialEq, Eq)]
pub enum Axis {
    X,
    Y,
}

/// What the integer tick layout yields for `[lo, hi]` and `ideal` ticks, when it yields two or more.
pub open spec fn int_ticks_match(t: TickInfo<i64, i64>, lo: int, hi: int, ideal: int) -> bool {
    let s = chosen_step(lo, hi, ideal);
    let st = ceil_multiple(lo, s);
    let c = chosen_count(lo, hi, ideal);
    &&& t.unit_data == s
    &&& t.ticks@.len() == c
    &&& t.display_relative == (if shows_relative(st, s, c) {
        Some(st as i64)
    } else {
        None::<i64>
    })
    &&& forall|i: int|
        0 <= i < c ==> (#[trigger] t.ticks@[i]).position == st + i * s && t.ticks@[i].value == (
        if shows_relative(st, s, c) {
            i * s
        } else {
            st + i * s
        })
}

/// Ticks for the integer domain.
pub struct IntegerContext;

impl IntegerContext {
    /// Chooses ticks for `range` aiming at `ideal_num_steps` of them; `None` when the best
    /// candidate step yields fewer than two.
    pub fn compute_ticks(&self, ideal_num_steps: u32, range: DataBound<i64>) -> (r: Option<
        TickInfo<i64, i64>,
    >)
        requires
            range.min <= range.max,
            range.max - range.min <= i64::MAX,
        ensures
            r.is_some() <==> chosen_count(range.min as int, range.max as int, ideal_num_steps as int)
                >= 2,
            r matches Some(t) ==> int_ticks_match(
                t,
                range.min as int,
                range.max as int,
                ideal_num_steps as int,
            ),
    {
        let lo = range.min;
        let hi = range.max;
        let layout = IntTickLayout::new(ideal_num_steps, lo, hi);
        if layout.num_steps < 2 {
            return None;
        }
        let ghost s = layout.step as int;
        let ghost st = layout.start_tick as int;
        let ghost c = layout.num_steps as int;
        proof {
            let cs = candidate_counts(lo as int, hi as int, ideal_num_steps as int);
            lemma_closest_index_is_min(cs, clamp_ideal(ideal_num_steps as int), 3);
            let k = chosen(lo as int, hi as int, ideal_num_steps as int);
            assert(0 <= k < 3);
            assert(c == tick_count(lo as int, hi as int, s));
            assert(st <= hi);
            assert((c - 1) == (hi - st) / s);
            assert((c - 1) * s <= hi - st) by (nonlinear_arith)
                requires
                    c - 1 == (hi - st) / s,
                    s >= 1,
                    hi - st >= 0,
            ;
            assert(s <= (c - 1) * s) by (nonlinear_arith)
                requires
                    c >= 2,
                    s >= 1,
            ;
        }
        let (display_relative, ticks) = layout.generate();
        Some(TickInfo { unit_data: layout.step as i64, ticks, display_relative })
    }

    /// The label of a tick: the decimal text of its value. Its length is what decides whether
    /// labels are shown relative to the first tick.
    pub fn tick_label(&self, val: i64) -> (r: String)
        ensures
            r@ == crate::label::decimal(val as int),
            r@.len() == decimal_len(val as int),
    {
        proof {
            crate::label::lemma_decimal_length(val as int);
        }
        crate::label::decimal_string(val)
    }

    /// The range to show when the data gives no extent: one either side of `offset`, or of zero.
    pub fn unit_range(&self, offset: Option<i64>) -> (r: DataBound<i64>)
        requires
            offset matches Some(o) ==> i64::MIN < o < i64::MAX,
        ensures
            r == (match offset {
                Some(o) => DataBound { min: (o - 1) as i64, max: (o + 1) as i64 },
                None => DataBound { min: -1i64, max: 1i64 },
            }),
    {
        crate::bounds::default_unit_range(crate::bounds::Domain::Integer, offset)
    }
}

proof fn lemma_count_bounds(lo: int, hi: int, s: int)
    requires
        lo <= hi,
        s >= 1,
    ensures
        tick_count(lo, hi, s) >= 0,
        tick_count(lo, hi, s) * s <= hi - lo + s,
        tick_count(lo, hi, s) * s > hi - lo - s,
{
    let st = ceil_multiple(lo, s);
    let m = lo % s;
    assert(0 <= m < s);
    assert(lo <= st < lo + s);
    if st <= hi {
        let d = hi - st;
        let q = d / s;
        let r = d % s;
        assert(d == q * s + r && 0 <= r < s) by {
            vstd::arithmetic::div_mod::lemma_fundamental_div_mod(d, s);
        }
        assert(q >= 0) by (nonlinear_arith)
            requires
                d == q * s + r,
                0 <= r < s,
                d >= 0,
        ;
        assert((q + 1) * s <= hi - lo + s) by (nonlinear_arith)
            requires
                d == q * s + r,
                0 <= r,
                d <= hi - lo,
        ;
        assert((q + 1) * s > hi - lo - s) by (nonlinear_arith)
            requires
                d == q * s + r,
                r < s,
                d > hi - lo - s,
        ;
    }
}

/// Over a non-empty range, with an ideal of three or more ticks, the integer layout yields at
/// least two ticks, and its count is the count of one of the candidate steps.
pub proof fn lemma_layout_yields_two_ticks(lo: int, hi: int, n: int)
    requires
        lo < hi,
        n >= 3,
    ensures
        chosen_count(lo, hi, n) >= 2,
        exists|i: int|
            0 <= i < 3 && chosen_count(lo, hi, n) == #[trigger] candidate_counts(lo, hi, n)[i],
{
    let len = hi - lo;
    let r = len / (n - 1);
    let p = base_power(lo, hi, n);
    assert(clamp_ideal(n) == n);
    let cs = candidate_counts(lo, hi, n);
    lemma_closest_index_is_min(cs, n, 3);
    let k = chosen(lo, hi, n);
    assert(0 <= k < 3);
    assert(r >= 0) by (nonlinear_arith)
        requires
            r == len / (n - 1),
            len >= 0,
            n >= 3,
    ;
    if r >= 1 {
        lemma_step_power_bounds(r);
    } else {
        assert(p == 1);
    }
    assert(p >= 1);
    let c1 = cs[0];
    let c2 = cs[1];
    let c5 = cs[2];
    lemma_count_bounds(lo, hi, p);
    lemma_count_bounds(lo, hi, 2 * p);
    lemma_count_bounds(lo, hi, 5 * p);
    assert(c1 == tick_count(lo, hi, p));
    assert(c2 == tick_count(lo, hi, 2 * p));
    assert(c5 == tick_count(lo, hi, 5 * p));
    if r >= 1 {
        assert((n - 1) * p <= len) by (nonlinear_arith)
            requires
                p <= r,
                r == len / (n - 1),
                n >= 3,
                len >= 0,
        ;
        assert(c1 >= n - 1) by (nonlinear_arith)
            requires
                c1 * p > len - p,
                (n - 1) * p <= len,
                p >= 1,
        ;
        if k == 1 {
            if c2 <= 1 {
                assert(c1 >= 2 * n);
                assert((2 * n - 1) * p <= len) by (nonlinear_arith)
                    requires
                        c1 * p <= len + p,
                        c1 >= 2 * n,
                        p >= 1,
                ;
                assert(c2 >= n - 1) by (nonlinear_arith)
                    requires
                        c2 * (2 * p) > len - 2 * p,
                        (2 * n - 1) * p <= len,
                        p >= 1,
                ;
            }
        } else if k == 2 {
            if c5 <= 1 {
                assert(c1 >= 2 * n);
                assert((2 * n - 1) * p <= len) by (nonlinear_arith)
                    requires
                        c1 * p <= len + p,
                        c1 >= 2 * n,
                        p >= 1,
                ;
                assert(c2 >= n - 1) by (nonlinear_arith)
                    requires
                        c2 * (2 * p) > len - 2 * p,
                        (2 * n - 1) * p <= len,
                        p >= 1,
                ;
                assert(c2 >= 2 * n);
                assert((4 * n - 2) * p <= len) by (nonlinear_arith)
                    requires
                        c2 * (2 * p) <= len + 2 * p,
                        c2 >= 2 * n,
                        p >= 1,
                ;
                assert(c5 >= 2) by (nonlinear_arith)
                    requires
                        c5 * (5 * p) > len - 5 * p,
                        (4 * n - 2) * p <= len,
                        n >= 3,
                        p >= 1,
                ;
            }
        }
    } else {
        assert(len < n - 1) by (nonlinear_arith)
            requires
                r == len / (n - 1),
                r < 1,
                len >= 0,
                n >= 3,
        ;
        assert(c1 == len + 1) by {
            assert(ceil_multiple(lo, 1) == lo);
        }
        assert(k == 0);
    }
    assert(chosen_count(lo, hi, n) == cs[k]);
}

/// Hands out consecutive numbers, for footnotes that tell one axis from the other.
pub struct IndexRequester {
    counter: usize,
}

impl IndexRequester {
    /// Numbers from `counter` on.
    pub fn new(counter: usize) -> (r: Self)
        ensures
            r.next_index() == counter,
    {
        IndexRequester { counter }
    }

    /// The number that the next request gets.
    pub closed spec fn next_index(&self) -> nat {
        self.counter as nat
    }

    /// The next number.
    pub fn request(&mut self) -> (r: usize)
        requires
            old(self).next_index() < usize::MAX,
        ensures
            r == old(self).next_index(),
            final(self).next_index() == old(self).next_index() + 1,
    {
        let val = self.counter;
        self.counter = self.counter + 1;
        val
    }

    /// The number that the next request gets.
    pub fn peek(&self) -> (r: usize)
        ensures
            r == self.next_index(),
    {
        self.counter
    }
}

/// The integer tick layout is a function of its inputs: two tick sets that meet its contract for
/// the same range and ideal count are the same.
pub proof fn lemma_int_ticks_determined(
    a: TickInfo<i64, i64>,
    b: TickInfo<i64, i64>,
    lo: int,
    hi: int,
    ideal: int,
)
    requires
        int_ticks_match(a, lo, hi, ideal),
        int_ticks_match(b, lo, hi, ideal),
    ensures
        a.ticks@ == b.ticks@,
        a.unit_data == b.unit_data,
        a.display_relative == b.display_relative,
{
    assert forall|i: int| 0 <= i < a.ticks@.len() implies a.ticks@[i] == b.ticks@[i] by {
        let (x, y) = (a.ticks@[i], b.ticks@[i]);
        assert(x.position == y.position && x.value == y.value);
    }
    assert(a.ticks@ =~= b.ticks@);
}

} // verus!
