//! Discretization of a planar arc.
//!
//! Sampling always runs in increasing angle, from zero up to the stop angle;
//! the `clockwise` flag is carried along unchanged, and a caller that wants the
//! other sense supplies the stop angle accordingly. The positions themselves,
//! `center + radius * (cos, sin)` at each sampled angle, are left to the
//! consumer of an [`ArcPlan`].
use vstd::prelude::*;
use crate::geometry::{CircularMotion, MotionError, Point2, Vector3, SCALE, LIMIT};

verus! {

/// Angular distance between two samples, in whole degrees.
pub const STEP_DEGREES: i64 = 5;

/// Number of samples of an arc whose stop angle is `stop` millionths of a degree.
pub open spec fn sample_count(stop: int) -> int {
    if stop < 0 { 1 } else { stop / (STEP_DEGREES * SCALE) as int + 1 }
}

/// The sampled angles, in whole degrees: 0, 5, 10, ... up to the stop angle.
pub open spec fn arc_degrees(stop: int) -> Seq<i64> {
    Seq::new(sample_count(stop) as nat, |k: int| (STEP_DEGREES * k) as i64)
}

/// Sampled angles of an arc stopping at `stop` millionths of a degree; the
/// angle zero is always present.
pub fn sample_degrees(stop: i64) -> (r: Vec<i64>)
    requires
        -LIMIT <= stop <= LIMIT,
    ensures
        r@ == arc_degrees(stop as int),
{
    let mut out: Vec<i64> = Vec::new();
    out.push(0);
    let mut k: i64 = 1;
    while k * STEP_DEGREES * SCALE <= stop
        invariant
            -LIMIT <= stop <= LIMIT,
            1 <= k <= 200_001,
            (k - 1) * STEP_DEGREES * SCALE <= stop || k == 1,
            out@.len() == k,
            forall|j: int| 0 <= j < k ==> out@[j] == STEP_DEGREES * j,
        decreases LIMIT - k,
    {
        out.push(k * STEP_DEGREES);
        k = k + 1;
    }
    proof {
        if stop >= 0 {
            vstd::arithmetic::div_mod::lemma_fundamental_div_mod_converse(
                stop as int,
                STEP_DEGREES * SCALE,
                k - 1,
                stop - (k - 1) * STEP_DEGREES * SCALE,
            );
        }
    }
    assert(out@ =~= arc_degrees(stop as int));
    out
}

/// Fixed-point square of the unit length: a unit vector's components count
/// millionths, so its squared length is `SCALE * SCALE`.
pub open spec fn unit_sq() -> int {
    SCALE * SCALE
}

/// Integer square root, rounded down.
pub open spec fn isqrt(q: nat) -> nat
    decreases q,
{
    if q == 0 {
        0
    } else {
        let r = isqrt((q - 1) as nat);
        if (r + 1) * (r + 1) <= q { r + 1 } else { r }
    }
}

pub open spec fn sign(v: int) -> int {
    if v > 0 { 1 } else if v < 0 { -1 } else { 0 }
}

pub open spec fn norm_sq(v: Vector3) -> int {
    v.i * v.i + v.j * v.j + v.k * v.k
}

/// One component of the unit vector along `v`: `c / |v|` in millionths,
/// rounded toward zero through the integer square root.
pub open spec fn unit_component(c: int, s: int) -> int {
    sign(c) * isqrt(((c * c * unit_sq()) / s) as nat)
}

/// The direction of an arc: `v` scaled to unit length, or the default axis
/// `(1, 0, 0)` where there is no vector or it has no length.
pub open spec fn direction_of(o: Option<Vector3>) -> Vector3 {
    match o {
        Some(v) if !v.is_zero() => {
            let s = norm_sq(v);
            Vector3 {
                i: unit_component(v.i as int, s) as i64,
                j: unit_component(v.j as int, s) as i64,
                k: unit_component(v.k as int, s) as i64,
            }
        },
        _ => Vector3 { i: SCALE, j: 0, k: 0 },
    }
}

proof fn lemma_isqrt(q: nat)
    ensures
        isqrt(q) * isqrt(q) <= q,
        q < (isqrt(q) + 1) * (isqrt(q) + 1),
    decreases q,
{
    if q > 0 {
        let p = (q - 1) as nat;
        lemma_isqrt(p);
        let r = isqrt(p);
        let n = isqrt(q);
        if (r + 1) * (r + 1) <= q {
            assert(n == r + 1);
            assert(n * n <= q);
            assert(q < (n + 1) * (n + 1)) by (nonlinear_arith)
                requires q - 1 < (r + 1) * (r + 1), r >= 0, n == r + 1;
        } else {
            assert(n == r);
            assert(n * n <= q);
            assert(q < (n + 1) * (n + 1));
        }
    } else {
        let n = isqrt(q);
        assert(n == 0);
        assert(q < (n + 1) * (n + 1)) by (nonlinear_arith)
            requires n == 0, q == 0;
    }
}

proof fn lemma_isqrt_unique(q: nat, n: nat)
    requires
        n * n <= q < (n + 1) * (n + 1),
    ensures
        isqrt(q) == n,
{
    lemma_isqrt(q);
    let r = isqrt(q);
    if r < n {
        assert((r + 1) * (r + 1) <= n * n) by (nonlinear_arith)
            requires r + 1 <= n, r >= 0;
    } else if r > n {
        assert((n + 1) * (n + 1) <= r * r) by (nonlinear_arith)
            requires n + 1 <= r, n >= 0;
    }
}

/// Integer square root of `q`, by bisection.
fn sqrt_floor(q: u64) -> (r: u64)
    requires
        q <= unit_sq(),
    ensures
        r == isqrt(q as nat),
        r <= SCALE,
{
    let mut lo: u64 = 0;
    let mut hi: u64 = (SCALE as u64) + 1;
    assert(q < hi * hi) by (nonlinear_arith)
        requires q <= SCALE * SCALE, hi == SCALE + 1;
    while lo + 1 < hi
        invariant
            lo < hi <= SCALE + 1,
            lo * lo <= q,
            q < hi * hi,
        decreases hi - lo,
    {
        let mid = lo + (hi - lo) / 2;
        assert(lo < mid < hi);
        assert(mid * mid <= 1_000_002_000_001) by (nonlinear_arith)
            requires mid <= 1_000_001, mid >= 0;
        if mid * mid <= q {
            lo = mid;
        } else {
            hi = mid;
        }
    }
    proof {
        lemma_isqrt_unique(q as nat, lo as nat);
    }
    assert(lo <= SCALE) by (nonlinear_arith)
        requires lo < hi, hi <= SCALE + 1;
    lo
}

/// One component of the unit vector along a vector with squared length `s`.
fn unit_part(c: i64, s: u128) -> (r: i64)
    requires
        -LIMIT <= c <= LIMIT,
        c * c <= s,
        s > 0,
    ensures
        r == unit_component(c as int, s as int),
        -SCALE <= r <= SCALE,
{
    let m: u128 = if c >= 0 { c as u128 } else { (-c) as u128 };
    assert(m * m == c * c) by (nonlinear_arith)
        requires m == c || m == -c;
    assert(m * m <= LIMIT * LIMIT) by (nonlinear_arith)
        requires m <= LIMIT, m >= 0;
    let sq: u128 = m * m;
    assert(sq * unit_sq() <= LIMIT * LIMIT * unit_sq()) by (nonlinear_arith)
        requires sq <= LIMIT * LIMIT, sq >= 0;
    let scaled: u128 = sq * ((SCALE as u128) * (SCALE as u128));
    let q: u128 = scaled / s;
    assert(q <= unit_sq()) by {
        assert(scaled <= s * unit_sq()) by (nonlinear_arith)
            requires scaled == sq * unit_sq(), sq <= s;
        vstd::arithmetic::div_mod::lemma_div_is_ordered(scaled as int, s * unit_sq(), s as int);
        vstd::arithmetic::div_mod::lemma_div_by_multiple(unit_sq(), s as int);
        assert(s * unit_sq() == unit_sq() * s) by (nonlinear_arith);
    }
    let n = sqrt_floor(q as u64);
    if c > 0 {
        n as i64
    } else if c < 0 {
        -(n as i64)
    } else {
        assert(scaled == 0);
        assert(q == 0);
        0
    }
}

/// Resolves an arc's orientation to a unit direction (components in
/// millionths); an absent or zero vector gives the default axis `(1, 0, 0)`.
pub fn resolve_orientation(o: Option<Vector3>) -> (r: Vector3)
    requires
        match o {
            Some(v) => v.wf(),
            None => true,
        },
    ensures
        r == direction_of(o),
{
    match o {
        Some(v) => {
            if v.i == 0 && v.j == 0 && v.k == 0 {
                Vector3 { i: SCALE, j: 0, k: 0 }
            } else {
                assert(v.i * v.i <= LIMIT * LIMIT) by (nonlinear_arith)
                    requires -LIMIT <= v.i <= LIMIT;
                assert(v.j * v.j <= LIMIT * LIMIT) by (nonlinear_arith)
                    requires -LIMIT <= v.j <= LIMIT;
                assert(v.k * v.k <= LIMIT * LIMIT) by (nonlinear_arith)
                    requires -LIMIT <= v.k <= LIMIT;
                assert(v.i * v.i >= 0 && v.j * v.j >= 0 && v.k * v.k >= 0) by (nonlinear_arith);
                assert(norm_sq(v) > 0) by (nonlinear_arith)
                    requires !(v.i == 0 && v.j == 0 && v.k == 0);
                let s: u128 = (v.i as i128 * v.i as i128) as u128 + (v.j as i128 * v.j as i128) as u128
                    + (v.k as i128 * v.k as i128) as u128;
                Vector3 { i: unit_part(v.i, s), j: unit_part(v.j, s), k: unit_part(v.k, s) }
            }
        },
        None => Vector3 { i: SCALE, j: 0, k: 0 },
    }
}

/// What an arc comes to once checked: its plane geometry, its resolved
/// direction, and the angles, in whole degrees, at which it is sampled.
#[derive(Debug)]
pub struct ArcPlan {
    pub center: Point2,
    pub radius: i64,
    pub clockwise: bool,
    pub direction: Vector3,
    pub degrees: Vec<i64>,
}

/// `p` is the plan of arc `m`: the same geometry, the direction resolved
/// from `m`'s orientation, and the angles sampled up to `m`'s stop angle.
pub open spec fn is_plan_of(p: ArcPlan, m: CircularMotion) -> bool {
    &&& p.center == m.center
    &&& p.radius == m.radius
    &&& p.clockwise == m.clockwise
    &&& p.direction == direction_of(m.orientation)
    &&& p.degrees@ == arc_degrees(m.stop_angle as int)
}

/// Discretizes an arc. A radius that is zero or negative is refused with
/// `InvalidRadius`, and no sample is produced.
pub fn circular_interpolate(m: CircularMotion) -> (r: Result<ArcPlan, MotionError>)
    requires
        m.wf(),
    ensures
        m.radius <= 0 ==> r == Err::<ArcPlan, MotionError>(MotionError::InvalidRadius),
        m.radius > 0 ==> (r is Ok && is_plan_of(r->Ok_0, m)),
{
    if m.radius <= 0 {
        return Err(MotionError::InvalidRadius);
    }
    let direction = resolve_orientation(m.orientation);
    let degrees = sample_degrees(m.stop_angle);
    Ok(ArcPlan { center: m.center, radius: m.radius, clockwise: m.clockwise, direction, degrees })
}

proof fn lemma_component(c: int, s: int)
    requires
        s > 0,
        0 <= c * c <= s,
    ensures
        ({
            let q = (c * c * unit_sq()) / s;
            let n = isqrt(q as nat);
            &&& 0 <= q <= unit_sq()
            &&& q * s <= c * c * unit_sq() < (q + 1) * s
            &&& n * n <= q <= n * n + 2 * n
            &&& 0 <= n <= SCALE
            &&& unit_component(c, s) * unit_component(c, s) == n * n
            &&& -SCALE <= unit_component(c, s) <= SCALE
        }),
{
    let x = c * c * unit_sq();
    let q = x / s;
    assert(x >= 0) by (nonlinear_arith)
        requires c * c >= 0, x == c * c * unit_sq();
    vstd::arithmetic::div_mod::lemma_fundamental_div_mod(x, s);
    vstd::arithmetic::div_mod::lemma_mod_pos_bound(x, s);
    assert(x == s * q + x % s);
    assert(q * s <= x < (q + 1) * s) by (nonlinear_arith)
        requires x == s * q + x % s, 0 <= x % s < s;
    assert(0 <= q) by {
        vstd::arithmetic::div_mod::lemma_div_pos_is_pos(x, s);
    }
    assert(q <= unit_sq()) by (nonlinear_arith)
        requires q * s <= x, x == c * c * unit_sq(), c * c <= s, s > 0, q >= 0;
    let n = isqrt(q as nat);
    lemma_isqrt(q as nat);
    assert(q <= n * n + 2 * n) by (nonlinear_arith)
        requires q < (n + 1) * (n + 1);
    assert(n <= SCALE) by (nonlinear_arith)
        requires n * n <= q, q <= SCALE * SCALE, n >= 0;
    let u = unit_component(c, s);
    if c == 0 {
        assert(x == 0) by (nonlinear_arith)
            requires c == 0, x == c * c * unit_sq();
        assert(q == 0) by {
            vstd::arithmetic::div_mod::lemma_div_basics(s);
        }
        assert(isqrt(0) == 0);
    }
    assert(u == sign(c) * n);
    assert(u * u == n * n) by (nonlinear_arith)
        requires u == sign(c) * n, sign(c) == 1 || sign(c) == -1 || (sign(c) == 0 && c == 0 && n == 0);
}

/// The direction of an arc has unit length, up to rounding to millionths
/// (its squared length lies within `8 * SCALE` of `SCALE * SCALE`), and is the
/// default axis `(1, 0, 0)` for an absent or zero vector.
pub proof fn lemma_direction_is_unit(o: Option<Vector3>)
    requires
        match o {
            Some(v) => v.wf(),
            None => true,
        },
    ensures
        unit_sq() - 8 * SCALE <= norm_sq(direction_of(o)) <= unit_sq(),
        (o is None || o->Some_0.is_zero()) ==> direction_of(o) == (Vector3 { i: SCALE, j: 0, k: 0 }),
{
    match o {
        Some(v) if !v.is_zero() => {
            let s = norm_sq(v);
            let (a, b, c) = (v.i as int, v.j as int, v.k as int);
            assert(a * a >= 0 && b * b >= 0 && c * c >= 0) by (nonlinear_arith);
            assert(s > 0) by (nonlinear_arith)
                requires s == a * a + b * b + c * c, !(a == 0 && b == 0 && c == 0);
            lemma_component(a, s);
            lemma_component(b, s);
            lemma_component(c, s);
            let (qa, qb, qc) = ((a * a * unit_sq()) / s, (b * b * unit_sq()) / s, (c * c * unit_sq()) / s);
            let (na, nb, nc) = (isqrt(qa as nat) as int, isqrt(qb as nat) as int, isqrt(qc as nat) as int);
            assert(a * a * unit_sq() + b * b * unit_sq() + c * c * unit_sq() == s * unit_sq()) by (nonlinear_arith)
                requires s == a * a + b * b + c * c;
            assert(qa + qb + qc <= unit_sq()) by (nonlinear_arith)
                requires
                    qa * s <= a * a * unit_sq(),
                    qb * s <= b * b * unit_sq(),
                    qc * s <= c * c * unit_sq(),
                    a * a * unit_sq() + b * b * unit_sq() + c * c * unit_sq() == s * unit_sq(),
                    s > 0;
            assert(qa + qb + qc + 3 > unit_sq()) by (nonlinear_arith)
                requires
                    a * a * unit_sq() < (qa + 1) * s,
                    b * b * unit_sq() < (qb + 1) * s,
                    c * c * unit_sq() < (qc + 1) * s,
                    a * a * unit_sq() + b * b * unit_sq() + c * c * unit_sq() == s * unit_sq(),
                    s > 0;
            let d = direction_of(o);
            assert(d.i == unit_component(a, s));
            assert(d.j == unit_component(b, s));
            assert(d.k == unit_component(c, s));
            assert(norm_sq(d) == na * na + nb * nb + nc * nc);
            assert(na * na + nb * nb + nc * nc >= qa + qb + qc - 2 * (na + nb + nc));
            assert(na + nb + nc <= 3 * SCALE);
            assert(unit_sq() - 8 * SCALE <= norm_sq(d) <= unit_sq());
        },
        _ => {
            assert(norm_sq(direction_of(o)) == SCALE * SCALE);
        },
    }
}

} // verus!
