//! Discretization of a straight segment.
use vstd::prelude::*;
use crate::geometry::{Point3, SCALE, LIMIT};

verus! {

pub open spec fn abs(v: int) -> int {
    if v < 0 { -v } else { v }
}

pub open spec fn max3(a: int, b: int, c: int) -> int {
    if a >= b && a >= c { a } else if b >= c { b } else { c }
}

/// Largest per-axis displacement of the segment, in millionths.
pub open spec fn max_delta(start: Point3, end: Point3) -> int {
    max3(
        abs(end.x - start.x),
        abs(end.y - start.y),
        abs(end.z - start.z),
    )
}

/// Number of steps of a segment: the largest displacement in whole units,
/// rounded up, and at least one.
pub open spec fn step_count(start: Point3, end: Point3) -> int {
    let m = max_delta(start, end);
    if m == 0 { 1 } else { (m + SCALE - 1) / (SCALE as int) }
}

/// `d * i / n`, rounded toward zero.
pub open spec fn scaled_offset(d: int, i: int, n: int) -> int {
    if d >= 0 { (d * i) / n } else { -((-d * i) / n) }
}

/// Coordinate of waypoint `i` out of `n` steps along one axis.
pub open spec fn lerp(a: int, b: int, i: int, n: int) -> int {
    a + scaled_offset(b - a, i, n)
}

pub open spec fn waypoint(start: Point3, end: Point3, i: int) -> Point3 {
    let n = step_count(start, end);
    Point3 {
        x: lerp(start.x as int, end.x as int, i, n) as i64,
        y: lerp(start.y as int, end.y as int, i, n) as i64,
        z: lerp(start.z as int, end.z as int, i, n) as i64,
    }
}

/// The waypoints of a segment: the start alone when it has no length,
/// otherwise `step_count + 1` points with parameter `i / step_count`.
pub open spec fn linear_path(start: Point3, end: Point3) -> Seq<Point3> {
    if start == end {
        seq![start]
    } else {
        Seq::new((step_count(start, end) + 1) as nat, |i: int| waypoint(start, end, i))
    }
}

proof fn lemma_offset_bounds(d: int, i: int, n: int)
    requires
        n > 0,
        0 <= i <= n,
    ensures
        abs(scaled_offset(d, i, n)) <= abs(d),
        scaled_offset(d, 0, n) == 0,
        scaled_offset(d, n, n) == d,
{
    let a = abs(d);
    assert(a * i <= a * n) by (nonlinear_arith)
        requires a >= 0, i <= n, 0 <= i;
    assert(0 <= a * i) by (nonlinear_arith)
        requires a >= 0, i >= 0;
    assert((a * i) / n <= (a * n) / n) by {
        vstd::arithmetic::div_mod::lemma_div_is_ordered(a * i, a * n, n);
    }
    assert((a * n) / n == a) by {
        vstd::arithmetic::div_mod::lemma_div_by_multiple(a, n);
    }
    assert(0 <= (a * i) / n) by {
        vstd::arithmetic::div_mod::lemma_div_pos_is_pos(a * i, n);
    }
    assert(d >= 0 ==> d * n == a * n);
    assert(d < 0 ==> -d * n == a * n) by (nonlinear_arith)
        requires a == abs(d);
    assert(d * 0 == 0 && -d * 0 == 0);
}

/// One axis of waypoint `i`, computed on magnitudes.
fn axis_at(a: i64, b: i64, i: u64, n: u64) -> (r: i64)
    requires
        -LIMIT <= a <= LIMIT,
        -LIMIT <= b <= LIMIT,
        0 < n <= 2 * SCALE + 1,
        i <= n,
    ensures
        r == lerp(a as int, b as int, i as int, n as int),
{
    proof {
        lemma_offset_bounds(b - a, i as int, n as int);
    }
    let d: i128 = (b as i128) - (a as i128);
    let mag: u128 = if d >= 0 { d as u128 } else { (-d) as u128 };
    assert(mag <= 2 * LIMIT);
    assert((mag as int) * (i as int) <= 2 * LIMIT * (2 * SCALE + 1)) by (nonlinear_arith)
        requires mag <= 2 * LIMIT, i <= 2 * SCALE + 1, mag >= 0, i >= 0;
    let prod: u128 = mag * (i as u128);
    let q: u128 = prod / (n as u128);
    if d >= 0 {
        assert(q == (d * (i as int)) / (n as int));
        (a as i128 + q as i128) as i64
    } else {
        assert(q == (-d * (i as int)) / (n as int));
        (a as i128 - q as i128) as i64
    }
}

fn abs_diff(a: i64, b: i64) -> (r: u64)
    requires
        -LIMIT <= a <= LIMIT,
        -LIMIT <= b <= LIMIT,
    ensures
        r == abs(b - a),
{
    if b >= a { (b - a) as u64 } else { (a - b) as u64 }
}

/// Number of steps for the segment from `start` to `end`.
pub fn steps_between(start: Point3, end: Point3) -> (r: u64)
    requires
        start.wf(),
        end.wf(),
    ensures
        r == step_count(start, end),
        1 <= r <= 2 * SCALE,
{
    let dx = abs_diff(start.x, end.x);
    let dy = abs_diff(start.y, end.y);
    let dz = abs_diff(start.z, end.z);
    let m: u64 = if dx >= dy && dx >= dz { dx } else if dy >= dz { dy } else { dz };
    if m == 0 {
        1
    } else {
        assert((m + SCALE - 1) / (SCALE as int) <= 2 * SCALE) by (nonlinear_arith)
            requires m <= 2 * LIMIT, m >= 1;
        assert((m + SCALE - 1) / (SCALE as int) >= 1) by (nonlinear_arith)
            requires m >= 1;
        (m + (SCALE as u64) - 1) / (SCALE as u64)
    }
}

/// Discretizes the segment from `start` to `end` into waypoints, each
/// computed from its parameter rather than by accumulation, so that the
/// first waypoint is `start` and the last is `end` exactly.
pub fn linear_interpolate(start: Point3, end: Point3) -> (r: Vec<Point3>)
    requires
        start.wf(),
        end.wf(),
    ensures
        r@ == linear_path(start, end),
{
    let mut out: Vec<Point3> = Vec::new();
    if start == end {
        out.push(start);
        assert(out@ =~= linear_path(start, end));
        return out;
    }
    let n = steps_between(start, end);
    let mut i: u64 = 0;
    while i <= n
        invariant
            start.wf(),
            end.wf(),
            start != end,
            n == step_count(start, end),
            1 <= n <= 2 * SCALE,
            i <= n + 1,
            out@.len() == i,
            forall|k: int| 0 <= k < i ==> out@[k] == waypoint(start, end, k),
        decreases n + 1 - i,
    {
        let p = Point3 {
            x: axis_at(start.x, end.x, i, n),
            y: axis_at(start.y, end.y, i, n),
            z: axis_at(start.z, end.z, i, n),
        };
        out.push(p);
        i = i + 1;
    }
    assert(out@ =~= linear_path(start, end));
    out
}

/// A segment's waypoints begin at its start and end exactly at its end.
pub proof fn lemma_linear_endpoints(start: Point3, end: Point3)
    requires
        start.wf(),
        end.wf(),
    ensures
        linear_path(start, end).len() >= 1,
        linear_path(start, end)[0] == start,
        linear_path(start, end).last() == end,
{
    if start != end {
        let n = step_count(start, end);
        assert(n >= 1) by {
            let m = max_delta(start, end);
            if m != 0 {
                assert((m + SCALE - 1) / (SCALE as int) >= 1) by (nonlinear_arith)
                    requires m >= 1;
            }
        }
        lemma_offset_bounds(end.x - start.x, 0, n);
        lemma_offset_bounds(end.y - start.y, 0, n);
        lemma_offset_bounds(end.z - start.z, 0, n);
        lemma_offset_bounds(end.x - start.x, n, n);
        lemma_offset_bounds(end.y - start.y, n, n);
        lemma_offset_bounds(end.z - start.z, n, n);
        assert(linear_path(start, end)[0] == waypoint(start, end, 0));
        assert(linear_path(start, end).last() == waypoint(start, end, n));
    }
}

/// A segment whose start and end coincide yields exactly one waypoint.
pub proof fn lemma_linear_zero_length(start: Point3, end: Point3)
    requires
        start == end,
    ensures
        linear_path(start, end) == seq![start],
{
}

} // verus!
