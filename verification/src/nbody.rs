//! The n-body force integrator of the orbital toy.
//!
//! Bodies carry a mass, a position, and a velocity, all in fixed-point
//! integer units.  Each physics tick computes the pairwise Newtonian
//! attraction for every ordered pair of distinct bodies, sums each body's
//! resultant force, and adds the scaled force to the body's velocity
//! (semi-implicit Euler: the external physics step integrates positions from
//! the updated velocities afterwards).  Coincident bodies contribute no
//! force.  The per-pair forces are also reported for visualization; that side
//! channel never feeds back into the physics.
//!
//! The gravitational constant 6.6743e-11 is carried exactly as the rational
//! 66743 / 10^15; every division floors, so the computed magnitudes are the
//! stepwise-floored value of G * m_i * m_j * |delta| / (d^2 * d).

use vstd::prelude::*;

use vstd::math::abs;

verus! {

/// Numerator of the gravitational constant.
pub const G_NUM: u64 = 66743;

/// Denominator of the gravitational constant: `G = G_NUM / G_DEN`.
pub const G_DEN: u64 = 1000000000000000;

/// Positions are kept within this bound so squared distances fit the
/// machine's integers.
pub const COORD_LIMIT: i64 = 4611686018427387903;

/// No computed force component exceeds this bound.
pub const FORCE_COMPONENT_BOUND: i128 = 4294967296;

/// A two-dimensional vector in fixed-point integer units.
#[derive(Clone, Copy, Debug, PartialEq, Eq, Structural)]
pub struct IVec2 {
    pub x: i64,
    pub y: i64,
}

/// A two-dimensional force accumulator.
#[derive(Clone, Copy, Debug, PartialEq, Eq, Structural)]
pub struct Force2 {
    pub x: i128,
    pub y: i128,
}

/// One celestial body of the orbital toy.
#[derive(Clone, Copy, Debug, PartialEq, Eq, Structural)]
pub struct CelestialBody {
    /// An external identity, carried through for the visualization map.
    pub id: u64,
    pub mass: u32,
    pub pos: IVec2,
    pub vel: IVec2,
}

/// The force another body exerts on the owning body, kept for visualization.
#[derive(Clone, Copy, Debug, PartialEq, Eq, Structural)]
pub struct PairForce {
    pub other: u64,
    pub force: Force2,
}

/// The per-tick force data of one body.
#[derive(Debug)]
pub struct BodyForces {
    pub id: u64,
    /// The resultant force to apply to the velocity.
    pub total: Force2,
    /// One entry per other body at nonzero separation, in body order.
    pub per_other: Vec<PairForce>,
}

impl CelestialBody {
    /// The position is within the coordinate bound.
    pub open spec fn bounded(self) -> bool {
        -COORD_LIMIT <= self.pos.x <= COORD_LIMIT && -COORD_LIMIT <= self.pos.y <= COORD_LIMIT
    }
}

/// The integer square root: the largest `r` with `r * r <= n`.
pub open spec fn spec_isqrt(n: nat) -> nat
    decreases n,
{
    if n == 0 {
        0
    } else {
        let r = spec_isqrt((n - 1) as nat);
        if (r + 1) * (r + 1) <= n {
            r + 1
        } else {
            r
        }
    }
}

/// `spec_isqrt` is the floor of the square root.
pub proof fn lemma_isqrt_bounds(n: nat)
    ensures
        (spec_isqrt(n) as int) * (spec_isqrt(n) as int) <= n as int,
        (n as int) < ((spec_isqrt(n) as int) + 1) * ((spec_isqrt(n) as int) + 1),
    decreases n,
{
    let r = spec_isqrt(n) as int;
    if n > 0 {
        lemma_isqrt_bounds((n - 1) as nat);
        let r0 = spec_isqrt((n - 1) as nat) as int;
        assert(r0 * r0 <= n - 1 && n - 1 < (r0 + 1) * (r0 + 1));
        if (r0 + 1) * (r0 + 1) <= n {
            assert(r == r0 + 1);
            assert((r0 + 1 + 1) * (r0 + 1 + 1) > (r0 + 1) * (r0 + 1)) by (nonlinear_arith)
                requires
                    0 <= r0,
            ;
            assert(n <= (r0 + 1) * (r0 + 1));
        } else {
            assert(r == r0);
        }
    } else {
        assert(r == 0);
    }
}

/// Any `r` with `r^2 <= n < (r+1)^2` is the integer square root.
pub proof fn lemma_isqrt_unique(n: nat, r: nat)
    requires
        (r as int) * (r as int) <= n as int,
        (n as int) < ((r as int) + 1) * ((r as int) + 1),
    ensures
        r == spec_isqrt(n),
{
    lemma_isqrt_bounds(n);
    let q = spec_isqrt(n) as int;
    let r = r as int;
    if q < r {
        assert((q + 1) * (q + 1) <= r * r) by (nonlinear_arith)
            requires
                q + 1 <= r,
                0 <= q,
        ;
    }
    if r < q {
        assert((r + 1) * (r + 1) <= q * q) by (nonlinear_arith)
            requires
                r + 1 <= q,
                0 <= r,
        ;
    }
}

/// Binary search for the integer square root of a 128-bit value.
pub fn isqrt(n: u128) -> (r: u64)
    ensures
        r == spec_isqrt(n as nat),
{
    let mut lo: u64 = 0;
    let mut hi: u64 = u64::MAX;
    proof {
        assert((hi as int + 1) * (hi as int + 1) > n) by (nonlinear_arith)
            requires
                hi == u64::MAX,
                n <= u128::MAX,
        ;
    }
    while lo < hi
        invariant
            lo <= hi,
            (lo as int) * (lo as int) <= n,
            n < (hi as int + 1) * (hi as int + 1),
        decreases hi - lo,
    {
        proof {
            vstd::arithmetic::div_mod::lemma_div_nonincreasing(hi as int - lo as int, 2);
        }
        let mid = lo + (hi - lo) / 2 + 1;
        if (mid as u128) <= n / (mid as u128) {
            proof {
                let m = mid as int;
                let q = n as int / m;
                vstd::arithmetic::div_mod::lemma_fundamental_div_mod(n as int, m);
                assert(m * m <= m * q) by (nonlinear_arith)
                    requires
                        0 < m,
                        m <= q,
                ;
                assert(m * q <= n) by (nonlinear_arith)
                    requires
                        0 < m,
                        n as int == m * q + n as int % m,
                        0 <= n as int % m,
                ;
            }
            lo = mid;
        } else {
            proof {
                let m = mid as int;
                let q = n as int / m;
                vstd::arithmetic::div_mod::lemma_fundamental_div_mod(n as int, m);
                assert(n < m * m) by (nonlinear_arith)
                    requires
                        0 < m,
                        q < m,
                        n as int == m * q + n as int % m,
                        n as int % m < m,
                ;
            }
            hi = mid - 1;
        }
    }
    proof {
        lemma_isqrt_unique(n as nat, lo as nat);
    }
    lo
}

/// The scaled scalar `floor(G_NUM * mi * mj / G_DEN)` shared by both force
/// components of a pair.
pub open spec fn spec_force_scalar(mi: int, mj: int) -> int {
    (G_NUM * mi * mj) / (G_DEN as int)
}

/// The magnitude of one force component: the scalar projected on the
/// separation `delta` along this axis and divided by the squared distance
/// and by the distance, each division flooring.
pub open spec fn spec_mag(a: int, delta: int, d2: int, d: int) -> int {
    ((a * abs(delta)) / d2) / d
}

/// The force along one axis that body `j` exerts on body `i`: directed from
/// `i` toward `j`, with magnitude `spec_mag`; zero at zero separation.
pub open spec fn spec_force_component(bi: CelestialBody, bj: CelestialBody, delta: int, d2: int) -> int {
    if d2 == 0 {
        0
    } else {
        let d = spec_isqrt(d2 as nat) as int;
        let a = spec_force_scalar(bi.mass as int, bj.mass as int);
        let m = spec_mag(a, delta, d2, d);
        if delta < 0 {
            -m
        } else {
            m
        }
    }
}

/// Squared distance between two bodies.
pub open spec fn spec_d2(bi: CelestialBody, bj: CelestialBody) -> int {
    let dx = bj.pos.x - bi.pos.x;
    let dy = bj.pos.y - bi.pos.y;
    dx * dx + dy * dy
}

/// The x component of the force `j` exerts on `i`.
pub open spec fn spec_force_x(bi: CelestialBody, bj: CelestialBody) -> int {
    spec_force_component(bi, bj, bj.pos.x - bi.pos.x, spec_d2(bi, bj))
}

/// The y component of the force `j` exerts on `i`.
pub open spec fn spec_force_y(bi: CelestialBody, bj: CelestialBody) -> int {
    spec_force_component(bi, bj, bj.pos.y - bi.pos.y, spec_d2(bi, bj))
}

/// The magnitude never exceeds the pair's scaled scalar.
proof fn lemma_mag_le_scalar(a: int, delta: int, d2: int, d: int)
    requires
        0 <= a,
        1 <= d,
        1 <= d2,
        abs(delta) <= d,
        d <= d2,
    ensures
        0 <= spec_mag(a, delta, d2, d) <= a,
{
    let num = a * abs(delta);
    assert(0 <= num && num <= a * d) by (nonlinear_arith)
        requires
            num == a * abs(delta),
            0 <= a,
            0 <= abs(delta) <= d,
    ;
    assert(a * d <= a * d2) by (nonlinear_arith)
        requires
            0 <= a,
            d <= d2,
    ;
    vstd::arithmetic::div_mod::lemma_div_is_ordered(num, a * d2, d2);
    vstd::arithmetic::div_mod::lemma_div_by_multiple(a, d2);
    assert((a * d2) / d2 == a);
    assert(num / d2 <= a);
    vstd::arithmetic::div_mod::lemma_div_pos_is_pos(num, d2);
    vstd::arithmetic::div_mod::lemma_div_nonincreasing(num / d2, d);
    vstd::arithmetic::div_mod::lemma_div_pos_is_pos(num / d2, d);
    assert((num / d2) / d <= num / d2);
}

/// The scaled scalar of any pair of 32-bit masses is below the force
/// component bound.
proof fn lemma_scalar_bound(mi: int, mj: int)
    requires
        0 <= mi < 4294967296,
        0 <= mj < 4294967296,
    ensures
        0 <= spec_force_scalar(mi, mj) < FORCE_COMPONENT_BOUND,
{
    let num = G_NUM * mi * mj;
    assert(0 <= num && num < 4294967296 * (G_DEN as int)) by (nonlinear_arith)
        requires
            num == G_NUM * mi * mj,
            G_NUM == 66743,
            G_DEN == 1000000000000000,
            0 <= mi < 4294967296,
            0 <= mj < 4294967296,
    ;
    vstd::arithmetic::div_mod::lemma_div_pos_is_pos(num, G_DEN as int);
    vstd::arithmetic::div_mod::lemma_multiply_divide_lt(num, 4294967296, G_DEN as int);
}

/// The force one body exerts on another, exactly as the specification
/// formula gives it; both components stay within the force bound.
pub fn pair_force(bi: &CelestialBody, bj: &CelestialBody) -> (f: Force2)
    requires
        bi.bounded(),
        bj.bounded(),
    ensures
        f.x == spec_force_x(*bi, *bj),
        f.y == spec_force_y(*bi, *bj),
        -FORCE_COMPONENT_BOUND <= f.x <= FORCE_COMPONENT_BOUND,
        -FORCE_COMPONENT_BOUND <= f.y <= FORCE_COMPONENT_BOUND,
{
    let dx: i128 = bj.pos.x as i128 - bi.pos.x as i128;
    let dy: i128 = bj.pos.y as i128 - bi.pos.y as i128;
    proof {
        assert(0 <= dx * dx <= 85070591730234615828950163710522949636 && 0 <= dy * dy
            <= 85070591730234615828950163710522949636) by (nonlinear_arith)
            requires
                -9223372036854775806 <= dx <= 9223372036854775806,
                -9223372036854775806 <= dy <= 9223372036854775806,
        ;
    }
    let d2: i128 = dx * dx + dy * dy;
    if d2 == 0 {
        return Force2 { x: 0, y: 0 };
    }
    let d2u = d2 as u128;
    let d: u64 = isqrt(d2u);
    proof {
        lemma_isqrt_bounds(d2u as nat);
        if d == 0 {
            assert((d2u as int) < ((spec_isqrt(d2u as nat) as int) + 1) * ((spec_isqrt(
                d2u as nat,
            ) as int) + 1));
            assert(((spec_isqrt(d2u as nat) as int) + 1) * ((spec_isqrt(d2u as nat) as int) + 1)
                == 1) by (nonlinear_arith)
                requires
                    spec_isqrt(d2u as nat) == 0,
            ;
            assert((d2u as int) < 1);
            assert(false);
        }
    }
    proof {
        assert(0 <= (G_NUM as int) * (bi.mass as int) * (bj.mass as int) && (G_NUM as int) * (
        bi.mass as int) * (bj.mass as int) < 0x200000000000000000000) by (nonlinear_arith)
            requires
                G_NUM == 66743,
                0 <= bi.mass < 0x100000000,
                0 <= bj.mass < 0x100000000,
        ;
    }
    let a: u128 = (G_NUM as u128) * (bi.mass as u128) * (bj.mass as u128) / (G_DEN as u128);
    proof {
        lemma_scalar_bound(bi.mass as int, bj.mass as int);
        assert(a as int == spec_force_scalar(bi.mass as int, bj.mass as int));
        // |dx| <= d and d <= d2, so the stepwise products below stay in range.
        lemma_abs_delta_le_d(dx as int, dy as int, d2 as int, d as int);
        lemma_abs_delta_le_d(dy as int, dx as int, d2 as int, d as int);
        assert(d as int <= d2 as int) by (nonlinear_arith)
            requires
                1 <= d as int,
                (d as int) * (d as int) <= d2 as int,
        ;
        lemma_mag_le_scalar(a as int, dx as int, d2 as int, d as int);
        lemma_mag_le_scalar(a as int, dy as int, d2 as int, d as int);
    }
    let adx: u128 = if dx < 0 {
        (-dx) as u128
    } else {
        dx as u128
    };
    let ady: u128 = if dy < 0 {
        (-dy) as u128
    } else {
        dy as u128
    };
    proof {
        assert(a * adx < 0x1000000000000000000000000) by (nonlinear_arith)
            requires
                0 <= a < 0x100000000,
                0 <= adx < 0x10000000000000000,
        ;
        assert(a * ady < 0x1000000000000000000000000) by (nonlinear_arith)
            requires
                0 <= a < 0x100000000,
                0 <= ady < 0x10000000000000000,
        ;
    }
    let mx: u128 = a * adx / d2u / (d as u128);
    let my: u128 = a * ady / d2u / (d as u128);
    let fx: i128 = if dx < 0 {
        -(mx as i128)
    } else {
        mx as i128
    };
    let fy: i128 = if dy < 0 {
        -(my as i128)
    } else {
        my as i128
    };
    Force2 { x: fx, y: fy }
}

/// In a sum of two squares, each term's root is at most the floor root of
/// the sum.
proof fn lemma_abs_delta_le_d(delta: int, other: int, d2: int, d: int)
    requires
        d2 == delta * delta + other * other,
        1 <= d2,
        d == spec_isqrt(d2 as nat),
    ensures
        abs(delta) <= d,
        abs(delta) <= d2,
{
    lemma_isqrt_bounds(d2 as nat);
    assert(abs(delta) * abs(delta) <= d2) by (nonlinear_arith)
        requires
            d2 == delta * delta + other * other,
            abs(delta) == if delta < 0 {
                -delta
            } else {
                delta
            },
    ;
    if abs(delta) > d {
        assert((d + 1) * (d + 1) <= abs(delta) * abs(delta)) by (nonlinear_arith)
            requires
                d + 1 <= abs(delta),
                0 <= d,
        ;
    }
    assert(abs(delta) * 1 <= abs(delta) * abs(delta) || abs(delta) == 0) by (nonlinear_arith)
        requires
            0 <= abs(delta),
    ;
}

/// Total forces stay within this bound when at most 2^31 bodies are
/// integrated.
pub const FORCE_TOTAL_BOUND: i128 = 9223372036854775808;

/// The sum of the x force components the first `n` bodies exert on body `i`.
/// A body exerts no force on itself, so the sum may simply run over all of
/// them.
pub open spec fn spec_total_x(bodies: Seq<CelestialBody>, i: int, n: int) -> int
    decreases n,
{
    if n <= 0 {
        0
    } else {
        spec_total_x(bodies, i, n - 1) + spec_force_x(bodies[i], bodies[n - 1])
    }
}

/// The sum of the y force components the first `n` bodies exert on body `i`.
pub open spec fn spec_total_y(bodies: Seq<CelestialBody>, i: int, n: int) -> int
    decreases n,
{
    if n <= 0 {
        0
    } else {
        spec_total_y(bodies, i, n - 1) + spec_force_y(bodies[i], bodies[n - 1])
    }
}

/// The visualization entries of body `i` over the first `n` bodies: one per
/// other body at nonzero separation, in body order.
pub open spec fn spec_pairs_prefix(bodies: Seq<CelestialBody>, i: int, n: int) -> Seq<PairForce>
    decreases n,
{
    if n <= 0 {
        Seq::empty()
    } else {
        let prev = spec_pairs_prefix(bodies, i, n - 1);
        let j = n - 1;
        if j != i && spec_d2(bodies[i], bodies[j]) != 0 {
            prev.push(
                PairForce {
                    other: bodies[j].id,
                    force: Force2 {
                        x: spec_force_x(bodies[i], bodies[j]) as i128,
                        y: spec_force_y(bodies[i], bodies[j]) as i128,
                    },
                },
            )
        } else {
            prev
        }
    }
}

/// Compute, for every body, the pairwise Newtonian forces from all other
/// bodies: the resultant to apply to its velocity, and the per-pair map kept
/// for visualization.  Coincident pairs are skipped and a body never acts on
/// itself; an empty body set is a plain no-op.
pub fn compute_forces(bodies: &Vec<CelestialBody>) -> (out: Vec<BodyForces>)
    requires
        forall|i: int| 0 <= i < bodies@.len() ==> (#[trigger] bodies@[i]).bounded(),
    ensures
        out@.len() == bodies@.len(),
        forall|i: int|
            0 <= i < out@.len() ==> (#[trigger] out@[i]).id == bodies@[i].id && out@[i].total.x
                == spec_total_x(bodies@, i, bodies@.len() as int) && out@[i].total.y
                == spec_total_y(bodies@, i, bodies@.len() as int) && out@[i].per_other@
                == spec_pairs_prefix(bodies@, i, bodies@.len() as int),
        forall|i: int|
            0 <= i < out@.len() ==> -(bodies@.len() as int) * FORCE_COMPONENT_BOUND <= (
            #[trigger] out@[i]).total.x <= (bodies@.len() as int) * FORCE_COMPONENT_BOUND && -(
            bodies@.len() as int) * FORCE_COMPONENT_BOUND <= out@[i].total.y <= (
            bodies@.len() as int) * FORCE_COMPONENT_BOUND,
{
    let n = bodies.len();
    let mut out: Vec<BodyForces> = Vec::new();
    let mut i: usize = 0;
    while i < n
        invariant
            forall|m: int| 0 <= m < bodies@.len() ==> (#[trigger] bodies@[m]).bounded(),
            n == bodies@.len(),
            i <= n,
            out@.len() == i,
            forall|m: int|
                0 <= m < i ==> (#[trigger] out@[m]).id == bodies@[m].id && out@[m].total.x
                    == spec_total_x(bodies@, m, bodies@.len() as int) && out@[m].total.y
                    == spec_total_y(bodies@, m, bodies@.len() as int) && out@[m].per_other@
                    == spec_pairs_prefix(bodies@, m, bodies@.len() as int),
            forall|m: int|
                0 <= m < i ==> -(bodies@.len() as int) * FORCE_COMPONENT_BOUND <= (
                #[trigger] out@[m]).total.x <= (bodies@.len() as int) * FORCE_COMPONENT_BOUND
                    && -(bodies@.len() as int) * FORCE_COMPONENT_BOUND <= out@[m].total.y <= (
                bodies@.len() as int) * FORCE_COMPONENT_BOUND,
        decreases n - i,
    {
        let bi = bodies[i];
        let mut tx: i128 = 0;
        let mut ty: i128 = 0;
        let mut pairs: Vec<PairForce> = Vec::new();
        let mut j: usize = 0;
        while j < n
            invariant
                forall|m: int| 0 <= m < bodies@.len() ==> (#[trigger] bodies@[m]).bounded(),
                n == bodies@.len(),
                i < n,
                j <= n,
                bi == bodies@[i as int],
                tx == spec_total_x(bodies@, i as int, j as int),
                ty == spec_total_y(bodies@, i as int, j as int),
                -(j as int) * FORCE_COMPONENT_BOUND <= tx <= (j as int) * FORCE_COMPONENT_BOUND,
                -(j as int) * FORCE_COMPONENT_BOUND <= ty <= (j as int) * FORCE_COMPONENT_BOUND,
                pairs@ == spec_pairs_prefix(bodies@, i as int, j as int),
            decreases n - j,
        {
            let bj = bodies[j];
            if j != i {
                let f = pair_force(&bi, &bj);
                tx = tx + f.x;
                ty = ty + f.y;
                let dx: i128 = bj.pos.x as i128 - bi.pos.x as i128;
                let dy: i128 = bj.pos.y as i128 - bi.pos.y as i128;
                proof {
                    assert((dx * dx + dy * dy == 0) == (spec_d2(
                        bodies@[i as int],
                        bodies@[j as int],
                    ) == 0)) by (nonlinear_arith)
                        requires
                            dx == bodies@[j as int].pos.x - bodies@[i as int].pos.x,
                            dy == bodies@[j as int].pos.y - bodies@[i as int].pos.y,
                            spec_d2(bodies@[i as int], bodies@[j as int]) == dx * dx + dy * dy,
                    ;
                }
                if !(dx == 0 && dy == 0) {
                    proof {
                        assert(dx * dx + dy * dy != 0) by (nonlinear_arith)
                            requires
                                !(dx == 0 && dy == 0),
                        ;
                    }
                    pairs.push(PairForce { other: bj.id, force: f });
                } else {
                    proof {
                        assert(spec_d2(bodies@[i as int], bodies@[j as int]) == 0);
                    }
                }
            } else {
                proof {
                    assert(spec_d2(bodies@[i as int], bodies@[i as int]) == 0) by (
                    nonlinear_arith)
                    ;
                    assert(spec_force_x(bodies@[i as int], bodies@[j as int]) == 0);
                    assert(spec_force_y(bodies@[i as int], bodies@[j as int]) == 0);
                }
            }
            j = j + 1;
        }
        out.push(BodyForces { id: bi.id, total: Force2 { x: tx, y: ty }, per_other: pairs });
        i = i + 1;
    }
    out
}

/// Clamp an unbounded velocity to the 64-bit range.
pub open spec fn spec_clamp_i64(v: int) -> int {
    if v < i64::MIN {
        i64::MIN as int
    } else if v > i64::MAX {
        i64::MAX as int
    } else {
        v
    }
}

/// The velocity change a force produces over a tick: the force scaled by the
/// force-scale factor and the elapsed milliseconds.  The division rounds the
/// magnitude down, symmetrically for either direction.
pub open spec fn spec_dv(f: int, scale: int, dt_millis: int) -> int {
    if f < 0 {
        -((-f * scale * dt_millis) / 1000)
    } else {
        (f * scale * dt_millis) / 1000
    }
}

/// Add each body's scaled resultant force to its velocity (semi-implicit
/// Euler; positions integrate externally from the updated velocities).
/// Velocities saturate at the 64-bit range instead of wrapping.
pub fn apply_forces(
    bodies: &mut Vec<CelestialBody>,
    forces: &Vec<BodyForces>,
    force_scale: u32,
    dt_millis: u32,
)
    requires
        old(bodies)@.len() == forces@.len(),
        forall|i: int|
            0 <= i < forces@.len() ==> -FORCE_TOTAL_BOUND <= (#[trigger] forces@[i]).total.x
                <= FORCE_TOTAL_BOUND && -FORCE_TOTAL_BOUND <= forces@[i].total.y
                <= FORCE_TOTAL_BOUND,
        dt_millis <= 60000,
    ensures
        final(bodies)@.len() == old(bodies)@.len(),
        forall|i: int|
            0 <= i < final(bodies)@.len() ==> (#[trigger] final(bodies)@[i]).id == old(
                bodies,
            )@[i].id && final(bodies)@[i].mass == old(bodies)@[i].mass && final(bodies)@[i].pos
                == old(bodies)@[i].pos,
        forall|i: int|
            0 <= i < final(bodies)@.len() ==> (#[trigger] final(bodies)@[i]).vel.x
                == spec_clamp_i64(
                old(bodies)@[i].vel.x + spec_dv(
                    forces@[i].total.x as int,
                    force_scale as int,
                    dt_millis as int,
                ),
            ) && final(bodies)@[i].vel.y == spec_clamp_i64(
                old(bodies)@[i].vel.y + spec_dv(
                    forces@[i].total.y as int,
                    force_scale as int,
                    dt_millis as int,
                ),
            ),
{
    let n = bodies.len();
    let mut i: usize = 0;
    while i < n
        invariant
            bodies@.len() == old(bodies)@.len(),
            forces@.len() == old(bodies)@.len(),
            forall|m: int|
                0 <= m < forces@.len() ==> -FORCE_TOTAL_BOUND <= (#[trigger] forces@[m]).total.x
                    <= FORCE_TOTAL_BOUND && -FORCE_TOTAL_BOUND <= forces@[m].total.y
                    <= FORCE_TOTAL_BOUND,
            dt_millis <= 60000,
            n == bodies@.len(),
            i <= n,
            forall|m: int|
                i <= m < bodies@.len() ==> #[trigger] bodies@[m] == old(bodies)@[m],
            forall|m: int|
                0 <= m < i ==> (#[trigger] bodies@[m]).id == old(bodies)@[m].id && bodies@[m].mass
                    == old(bodies)@[m].mass && bodies@[m].pos == old(bodies)@[m].pos,
            forall|m: int|
                0 <= m < i ==> (#[trigger] bodies@[m]).vel.x == spec_clamp_i64(
                    old(bodies)@[m].vel.x + spec_dv(
                        forces@[m].total.x as int,
                        force_scale as int,
                        dt_millis as int,
                    ),
                ) && bodies@[m].vel.y == spec_clamp_i64(
                    old(bodies)@[m].vel.y + spec_dv(
                        forces@[m].total.y as int,
                        force_scale as int,
                        dt_millis as int,
                    ),
                ),
        decreases n - i,
    {
        let b = bodies[i];
        let f = forces[i].total;
        let vx = scaled_velocity(b.vel.x, f.x, force_scale, dt_millis);
        let vy = scaled_velocity(b.vel.y, f.y, force_scale, dt_millis);
        bodies.set(
            i,
            CelestialBody { id: b.id, mass: b.mass, pos: b.pos, vel: IVec2 { x: vx, y: vy } },
        );
        i = i + 1;
    }
}

/// One velocity component after a scaled force is applied, saturating at the
/// 64-bit range.
fn scaled_velocity(vel: i64, f: i128, force_scale: u32, dt_millis: u32) -> (r: i64)
    requires
        -FORCE_TOTAL_BOUND <= f <= FORCE_TOTAL_BOUND,
        dt_millis <= 60000,
    ensures
        r == spec_clamp_i64(vel + spec_dv(f as int, force_scale as int, dt_millis as int)),
{
    let neg = f < 0;
    let mag: u128 = if neg {
        (-f) as u128
    } else {
        f as u128
    };
    proof {
        assert(mag * (force_scale as u128) <= 0x80000000000000000000000000) by (nonlinear_arith)
            requires
                0 <= mag <= 0x8000000000000000,
                force_scale < 0x100000000,
        ;
        assert(mag * (force_scale as u128) * (dt_millis as u128)
            <= 0x80000000000000000000000000 * 0x10000) by (nonlinear_arith)
            requires
                0 <= mag * (force_scale as u128) <= 0x80000000000000000000000000,
                dt_millis <= 60000,
        ;
    }
    let dvm: u128 = mag * (force_scale as u128) * (dt_millis as u128) / 1000;
    let dv: i128 = if neg {
        -(dvm as i128)
    } else {
        dvm as i128
    };
    let v = (vel as i128) + dv;
    if v < i64::MIN as i128 {
        i64::MIN
    } else if v > i64::MAX as i128 {
        i64::MAX
    } else {
        v as i64
    }
}

/// One physics tick over the whole body set: compute all pairwise forces,
/// then integrate the velocities; the computed per-body forces are returned
/// for the visualization layer.
pub fn physics_tick(bodies: &mut Vec<CelestialBody>, force_scale: u32, dt_millis: u32) -> (out:
    Vec<BodyForces>)
    requires
        forall|i: int| 0 <= i < old(bodies)@.len() ==> (#[trigger] old(bodies)@[i]).bounded(),
        old(bodies)@.len() <= 0x80000000,
        dt_millis <= 60000,
    ensures
        out@.len() == old(bodies)@.len(),
        forall|i: int|
            0 <= i < out@.len() ==> (#[trigger] out@[i]).id == old(bodies)@[i].id && out@[i].total.x
                == spec_total_x(old(bodies)@, i, old(bodies)@.len() as int) && out@[i].total.y
                == spec_total_y(old(bodies)@, i, old(bodies)@.len() as int) && out@[i].per_other@
                == spec_pairs_prefix(old(bodies)@, i, old(bodies)@.len() as int),
        final(bodies)@.len() == old(bodies)@.len(),
        forall|i: int|
            0 <= i < final(bodies)@.len() ==> (#[trigger] final(bodies)@[i]).id == old(
                bodies,
            )@[i].id && final(bodies)@[i].mass == old(bodies)@[i].mass && final(bodies)@[i].pos
                == old(bodies)@[i].pos,
        forall|i: int|
            0 <= i < final(bodies)@.len() ==> (#[trigger] final(bodies)@[i]).vel.x
                == spec_clamp_i64(
                old(bodies)@[i].vel.x + spec_dv(
                    spec_total_x(old(bodies)@, i, old(bodies)@.len() as int),
                    force_scale as int,
                    dt_millis as int,
                ),
            ) && final(bodies)@[i].vel.y == spec_clamp_i64(
                old(bodies)@[i].vel.y + spec_dv(
                    spec_total_y(old(bodies)@, i, old(bodies)@.len() as int),
                    force_scale as int,
                    dt_millis as int,
                ),
            ),
{
    let out = compute_forces(bodies);
    proof {
        assert forall|i: int| 0 <= i < out@.len() implies -FORCE_TOTAL_BOUND <= (
        #[trigger] out@[i]).total.x <= FORCE_TOTAL_BOUND && -FORCE_TOTAL_BOUND <= out@[i].total.y
            <= FORCE_TOTAL_BOUND by {
            assert((bodies@.len() as int) * FORCE_COMPONENT_BOUND <= 0x80000000
                * FORCE_COMPONENT_BOUND) by (nonlinear_arith)
                requires
                    bodies@.len() <= 0x80000000,
                    0 < FORCE_COMPONENT_BOUND,
            ;
        }
    }
    apply_forces(bodies, &out, force_scale, dt_millis);
    out
}

/// Newton's third law: the force body `j` exerts on body `i` is exactly the
/// negation of the force `i` exerts on `j`, component by component, for
/// every pair of bodies (coincident pairs exert zero force both ways).
pub proof fn lemma_force_antisymmetric(bi: CelestialBody, bj: CelestialBody)
    ensures
        spec_force_x(bi, bj) == -spec_force_x(bj, bi),
        spec_force_y(bi, bj) == -spec_force_y(bj, bi),
{
    let dx = bj.pos.x - bi.pos.x;
    let dy = bj.pos.y - bi.pos.y;
    assert(spec_d2(bi, bj) == spec_d2(bj, bi) && abs(dx) == abs(-dx) && abs(dy) == abs(-dy)) by (
    nonlinear_arith)
        requires
            dx == bj.pos.x - bi.pos.x,
            dy == bj.pos.y - bi.pos.y,
    ;
    assert(spec_force_scalar(bi.mass as int, bj.mass as int) == spec_force_scalar(
        bj.mass as int,
        bi.mass as int,
    )) by {
        assert((G_NUM as int) * (bi.mass as int) * (bj.mass as int) == (G_NUM as int) * (
        bj.mass as int) * (bi.mass as int)) by (nonlinear_arith);
    }
    let d2 = spec_d2(bi, bj);
    if d2 != 0 {
        assert(d2 > 0) by (nonlinear_arith)
            requires
                d2 == dx * dx + dy * dy,
                d2 != 0,
                dx == bj.pos.x - bi.pos.x,
                dy == bj.pos.y - bi.pos.y,
        ;
        let d = spec_isqrt(d2 as nat) as int;
        lemma_isqrt_bounds(d2 as nat);
        if d == 0 {
            assert((d2 as int) < ((0int) + 1) * ((0int) + 1)) by (nonlinear_arith)
                requires
                    (d2 as int) < ((spec_isqrt(d2 as nat) as int) + 1) * ((spec_isqrt(
                        d2 as nat,
                    ) as int) + 1),
                    spec_isqrt(d2 as nat) == 0,
            ;
        }
        let a = spec_force_scalar(bi.mass as int, bj.mass as int);
        assert(spec_mag(a, dx, d2, d) == spec_mag(a, -dx, d2, d));
        assert(spec_mag(a, dy, d2, d) == spec_mag(a, -dy, d2, d));
        if dx == 0 {
            assert(a * abs(dx) == 0) by (nonlinear_arith)
                requires
                    abs(dx) == 0,
            ;
            vstd::arithmetic::div_mod::lemma_div_of0(d2);
            vstd::arithmetic::div_mod::lemma_div_of0(d);
        }
        if dy == 0 {
            assert(a * abs(dy) == 0) by (nonlinear_arith)
                requires
                    abs(dy) == 0,
            ;
            vstd::arithmetic::div_mod::lemma_div_of0(d2);
            vstd::arithmetic::div_mod::lemma_div_of0(d);
        }
    }
}

/// A body of zero mass feels no force and exerts none: every force component
/// of such a pair is zero, in both directions.
pub proof fn lemma_zero_mass_no_force(bi: CelestialBody, bj: CelestialBody)
    requires
        bi.mass == 0 || bj.mass == 0,
    ensures
        spec_force_x(bi, bj) == 0,
        spec_force_y(bi, bj) == 0,
        spec_force_x(bj, bi) == 0,
        spec_force_y(bj, bi) == 0,
{
    assert((G_NUM as int) * (bi.mass as int) * (bj.mass as int) == 0 && (G_NUM as int) * (
    bj.mass as int) * (bi.mass as int) == 0) by (nonlinear_arith)
        requires
            bi.mass == 0 || bj.mass == 0,
    ;
    vstd::arithmetic::div_mod::lemma_div_of0(G_DEN as int);
    let d2 = spec_d2(bi, bj);
    let d2r = spec_d2(bj, bi);
    if d2 != 0 {
        let d = spec_isqrt(d2 as nat) as int;
        lemma_isqrt_bounds(d2 as nat);
        assert(d2 > 0) by (nonlinear_arith)
            requires
                d2 == (bj.pos.x - bi.pos.x) * (bj.pos.x - bi.pos.x) + (bj.pos.y - bi.pos.y) * (
                bj.pos.y - bi.pos.y),
                d2 != 0,
        ;
        if d == 0 {
            assert((d2 as int) < ((0int) + 1) * ((0int) + 1)) by (nonlinear_arith)
                requires
                    (d2 as int) < ((spec_isqrt(d2 as nat) as int) + 1) * ((spec_isqrt(
                        d2 as nat,
                    ) as int) + 1),
                    spec_isqrt(d2 as nat) == 0,
            ;
        }
        assert(0 * abs(bj.pos.x - bi.pos.x) == 0 && 0 * abs(bj.pos.y - bi.pos.y) == 0) by (
        nonlinear_arith)
        ;
        vstd::arithmetic::div_mod::lemma_div_of0(d2);
        vstd::arithmetic::div_mod::lemma_div_of0(d);
    }
    if d2r != 0 {
        let d = spec_isqrt(d2r as nat) as int;
        lemma_isqrt_bounds(d2r as nat);
        assert(d2r > 0) by (nonlinear_arith)
            requires
                d2r == (bi.pos.x - bj.pos.x) * (bi.pos.x - bj.pos.x) + (bi.pos.y - bj.pos.y) * (
                bi.pos.y - bj.pos.y),
                d2r != 0,
        ;
        if d == 0 {
            assert((d2r as int) < ((0int) + 1) * ((0int) + 1)) by (nonlinear_arith)
                requires
                    (d2r as int) < ((spec_isqrt(d2r as nat) as int) + 1) * ((spec_isqrt(
                        d2r as nat,
                    ) as int) + 1),
                    spec_isqrt(d2r as nat) == 0,
            ;
        }
        assert(0 * abs(bi.pos.x - bj.pos.x) == 0 && 0 * abs(bi.pos.y - bj.pos.y) == 0) by (
        nonlinear_arith)
        ;
        vstd::arithmetic::div_mod::lemma_div_of0(d2r);
        vstd::arithmetic::div_mod::lemma_div_of0(d);
    }
}

/// The ideal scaled magnitude of the attraction between two masses at
/// squared distance `d2`, before the direction projection: the flooring of
/// `G * mi * mj / d2` in the fixed-point scale.
pub open spec fn spec_ideal_mag(mi: int, mj: int, d2: int) -> int {
    (G_NUM * mi * mj) / ((G_DEN as int) * d2)
}

/// The inverse-square law, exactly, at the fixed-point level: scaling the
/// squared distance by any factor `k` divides the ideal magnitude by `k`.
/// The computed per-axis magnitude is this ideal value projected on the
/// separation direction with stepwise-floored divisions.
pub proof fn lemma_inverse_square_scaling(mi: int, mj: int, d2: int, k: int)
    requires
        0 <= mi,
        0 <= mj,
        1 <= d2,
        1 <= k,
    ensures
        spec_ideal_mag(mi, mj, k * d2) == spec_ideal_mag(mi, mj, d2) / k,
{
    let num = G_NUM * mi * mj;
    assert(0 <= num) by (nonlinear_arith)
        requires
            num == G_NUM * mi * mj,
            G_NUM == 66743,
            0 <= mi,
            0 <= mj,
    ;
    assert(0 < (G_DEN as int) * d2) by (nonlinear_arith)
        requires
            1 <= d2,
    ;
    vstd::arithmetic::div_mod::lemma_div_denominator(num, (G_DEN as int) * d2, k);
    assert((G_DEN as int) * d2 * k == (G_DEN as int) * (k * d2)) by (nonlinear_arith);
}

/// The computed per-axis magnitude is a flooring of the ideal value: scaled
/// back up by both of its divisors it never exceeds the exact numerator
/// `a * |delta|`, whose inverse-square scaling `lemma_inverse_square_scaling`
/// states.
pub proof fn lemma_mag_floors_ideal(a: int, delta: int, d2: int, d: int)
    requires
        0 <= a,
        1 <= d,
        1 <= d2,
    ensures
        spec_mag(a, delta, d2, d) * d * d2 <= a * abs(delta),
{
    let num = a * abs(delta);
    assert(0 <= num) by (nonlinear_arith)
        requires
            num == a * abs(delta),
            0 <= a,
            0 <= abs(delta),
    ;
    let q1 = num / d2;
    let q = q1 / d;
    vstd::arithmetic::div_mod::lemma_fundamental_div_mod(num, d2);
    vstd::arithmetic::div_mod::lemma_fundamental_div_mod(q1, d);
    vstd::arithmetic::div_mod::lemma_div_pos_is_pos(num, d2);
    vstd::arithmetic::div_mod::lemma_div_pos_is_pos(q1, d);
    assert(q * d <= q1) by (nonlinear_arith)
        requires
            q1 == d * q + q1 % d,
            0 <= q1 % d,
    ;
    assert(q1 * d2 <= num) by (nonlinear_arith)
        requires
            num == d2 * q1 + num % d2,
            0 <= num % d2,
    ;
    assert(q * d * d2 <= q1 * d2) by (nonlinear_arith)
        requires
            q * d <= q1,
            1 <= d2,
    ;
}

} // verus!
