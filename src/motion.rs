//! Per-particle phases of a tick: forcefields, border containment, speed
//! limiting with damping, and integration of positions.
use vstd::prelude::*;
use crate::config::{Forcefield, BORDER_LIMIT, DAMPING_SCALE, DT_LIMIT, SPEED_LIMIT};
use crate::fixed::{
    abs, ceil_sqrt, clamp, csqrt, div_toward_zero, lemma_csqrt_props, lemma_sq_le, saturate, trunc_div, POS_LIMIT, VEL_LIMIT,
};
use crate::forces::{kick, kick_exec};
use crate::particle::{all_wf, Particle};

verus! {

/// `p` lies in the rectangle of `z`, bounds included.
pub open spec fn zone_contains(z: Forcefield, p: Particle) -> bool {
    z.min_x <= p.pos.x <= z.max_x && z.min_y <= p.pos.y <= z.max_y
}

/// `p` after the zones `0 .. n` of `zones`, in order, each containing it
/// adding its force times `dt` to the velocity.
pub open spec fn zones_push(p: Particle, zones: Seq<Forcefield>, n: int, dt: int) -> Particle
    decreases n,
{
    if n <= 0 {
        p
    } else {
        let q = zones_push(p, zones, n - 1, dt);
        if zone_contains(zones[n - 1], p) {
            kick(q, zones[n - 1].force_x * dt, zones[n - 1].force_y * dt)
        } else {
            q
        }
    }
}

pub open spec fn forcefield_pass(s: Seq<Particle>, zones: Seq<Forcefield>, dt: int) -> Seq<Particle> {
    Seq::new(s.len(), |i: int| zones_push(s[i], zones, zones.len() as int, dt))
}

/// One velocity component after containment along its axis: beyond the
/// border it is turned inward and pushed by `push * dt`.
pub open spec fn border_axis(v: int, x: int, border: int, push: int, dt: int) -> int {
    if x > border {
        clamp(-abs(v) - push * dt, VEL_LIMIT as int)
    } else if x < -border {
        clamp(abs(v) + push * dt, VEL_LIMIT as int)
    } else {
        v
    }
}

pub open spec fn contain(p: Particle, border: int, push: int, dt: int) -> Particle {
    p.with_vel(
        border_axis(p.vel.x as int, p.pos.x as int, border, push, dt),
        border_axis(p.vel.y as int, p.pos.y as int, border, push, dt),
    )
}

pub open spec fn border_pass(s: Seq<Particle>, border: int, push: int, dt: int) -> Seq<Particle> {
    Seq::new(s.len(), |i: int| contain(s[i], border, push, dt))
}

/// The velocity `(vx, vy)` scaled down, if needed, so that its magnitude is
/// at most `max`: each component times `max / |v|`, with `|v|` rounded up.
pub open spec fn clamp_speed(vx: int, vy: int, max: int) -> (int, int) {
    let m2 = vx * vx + vy * vy;
    if m2 > max * max {
        let r = csqrt(m2);
        (trunc_div(vx * max, r), trunc_div(vy * max, r))
    } else {
        (vx, vy)
    }
}

/// `v` times `damping / DAMPING_SCALE`, the magnitude rounded up.
pub open spec fn damp(v: int, damping: int) -> int {
    if v >= 0 {
        (v * damping + DAMPING_SCALE - 1) / (DAMPING_SCALE as int)
    } else {
        -(((-v) * damping + DAMPING_SCALE - 1) / (DAMPING_SCALE as int))
    }
}

/// Speed clamped to `max`, then damped.
pub open spec fn limit(p: Particle, max: int, damping: int) -> Particle {
    let c = clamp_speed(p.vel.x as int, p.vel.y as int, max);
    p.with_vel(damp(c.0, damping), damp(c.1, damping))
}

pub open spec fn limit_pass(s: Seq<Particle>, max: int, damping: int) -> Seq<Particle> {
    Seq::new(s.len(), |i: int| limit(s[i], max, damping))
}

/// Position advanced by velocity times `dt`, saturated to the position range.
pub open spec fn advance(p: Particle, dt: int) -> Particle {
    p.with_pos(
        clamp(p.pos.x + p.vel.x * dt, POS_LIMIT as int),
        clamp(p.pos.y + p.vel.y * dt, POS_LIMIT as int),
    )
}

pub open spec fn integrate_pass(s: Seq<Particle>, dt: int) -> Seq<Particle> {
    Seq::new(s.len(), |i: int| advance(s[i], dt))
}

/// Squared magnitude of a particle's velocity.
pub open spec fn speed2(p: Particle) -> int {
    p.vel.x * p.vel.x + p.vel.y * p.vel.y
}

/// Damping keeps the sign, keeps a nonzero value nonzero and does not grow
/// the magnitude.
pub proof fn lemma_damp(v: int, damping: int)
    requires
        0 < damping < DAMPING_SCALE,
    ensures
        abs(damp(v, damping)) <= abs(v),
        v > 0 ==> damp(v, damping) >= 1,
        v < 0 ==> damp(v, damping) <= -1,
        v == 0 ==> damp(v, damping) == 0,
{
    let s = DAMPING_SCALE as int;
    let a = abs(v);
    assert((a * damping + s - 1) / s <= a) by (nonlinear_arith)
        requires a >= 0, 0 < damping < s, s == 1000000;
    assert((a * damping + s - 1) / s >= 0) by (nonlinear_arith)
        requires a >= 0, 0 < damping, s == 1000000;
    if a >= 1 {
        assert((a * damping + s - 1) / s >= 1) by (nonlinear_arith)
            requires a >= 1, 0 < damping, s == 1000000;
    }
    if v == 0 {
        assert((0 * damping + s - 1) / s == 0) by (nonlinear_arith)
            requires s == 1000000;
    }
}

proof fn lemma_sq_mono(a: int, b: int)
    requires
        abs(a) <= abs(b),
    ensures
        a * a <= b * b,
{
    assert(abs(a) * abs(a) <= abs(b) * abs(b)) by (nonlinear_arith)
        requires abs(a) <= abs(b), abs(a) >= 0;
    assert(abs(a) * abs(a) == a * a) by (nonlinear_arith);
    assert(abs(b) * abs(b) == b * b) by (nonlinear_arith);
}

/// One scaled component: `|trunc(v * max / r)| * r <= |v| * max`.
proof fn lemma_scaled_component(v: int, max: int, r: int)
    requires
        max >= 0,
        r >= 1,
    ensures
        trunc_div(v * max, r) * trunc_div(v * max, r) * (r * r) <= v * v * (max * max),
{
    let a = abs(v) * max;
    assert(abs(v * max) == a) by (nonlinear_arith)
        requires max >= 0, a == abs(v) * max;
    let q = a / r;
    assert(q * r <= a) by (nonlinear_arith)
        requires a >= 0, r >= 1, q == a / r;
    assert(q >= 0) by (nonlinear_arith)
        requires a >= 0, r >= 1, q == a / r;
    assert(abs(trunc_div(v * max, r)) == q);
    lemma_sq_mono(trunc_div(v * max, r), q);
    assert(q * q * (r * r) <= a * a) by (nonlinear_arith)
        requires q * r <= a, q >= 0, r >= 1;
    assert(a * a == v * v * (max * max)) by (nonlinear_arith)
        requires a == abs(v) * max;
    assert(trunc_div(v * max, r) * trunc_div(v * max, r) * (r * r) <= q * q * (r * r)) by (nonlinear_arith)
        requires trunc_div(v * max, r) * trunc_div(v * max, r) <= q * q, r >= 1;
}

/// Clamping leaves each component, and the magnitude, within `max`.
pub proof fn lemma_clamp_speed_bounded(vx: int, vy: int, max: int)
    requires
        max >= 0,
    ensures
        ({
            let c = clamp_speed(vx, vy, max);
            &&& c.0 * c.0 + c.1 * c.1 <= max * max
            &&& abs(c.0) <= max
            &&& abs(c.1) <= max
        }),
{
    let m2 = vx * vx + vy * vy;
    let c = clamp_speed(vx, vy, max);
    if m2 > max * max {
        lemma_csqrt_props(m2);
        let r = csqrt(m2);
        lemma_scaled_component(vx, max, r);
        lemma_scaled_component(vy, max, r);
        let cx = c.0;
        let cy = c.1;
        assert((cx * cx + cy * cy) * (r * r) <= m2 * (max * max)) by (nonlinear_arith)
            requires
                cx * cx * (r * r) <= vx * vx * (max * max),
                cy * cy * (r * r) <= vy * vy * (max * max),
                m2 == vx * vx + vy * vy;
        assert(m2 * (max * max) <= (r * r) * (max * max)) by (nonlinear_arith)
            requires m2 <= r * r;
        assert(cx * cx + cy * cy <= max * max) by (nonlinear_arith)
            requires (cx * cx + cy * cy) * (r * r) <= (r * r) * (max * max), r >= 1;
    }
    assert(c.0 * c.0 >= 0 && c.1 * c.1 >= 0) by (nonlinear_arith);
    lemma_sq_le(c.0, max);
    lemma_sq_le(c.1, max);
}

/// Law: after the speed limiter and damper no velocity is faster than `max`,
/// whatever the input speed.
pub proof fn lemma_limit_bounds_speed(p: Particle, max: int, damping: int)
    requires
        0 <= max <= SPEED_LIMIT,
        0 < damping < DAMPING_SCALE,
    ensures
        speed2(limit(p, max, damping)) <= max * max,
{
    let c = clamp_speed(p.vel.x as int, p.vel.y as int, max);
    lemma_clamp_speed_bounded(p.vel.x as int, p.vel.y as int, max);
    lemma_damp(c.0, damping);
    lemma_damp(c.1, damping);
    lemma_sq_mono(damp(c.0, damping), c.0);
    lemma_sq_mono(damp(c.1, damping), c.1);
}

fn zones_push_exec(p: Particle, zones: &Vec<Forcefield>, dt: u64) -> (r: Particle)
    requires
        p.wf(),
        forall|z: int| 0 <= z < zones@.len() ==> (#[trigger] zones@[z]).force_ok(),
        dt <= DT_LIMIT,
    ensures
        r == zones_push(p, zones@, zones@.len() as int, dt as int),
        r.wf(),
{
    let n = zones.len();
    let mut q = p;
    let mut z: usize = 0;
    while z < n
        invariant
            n == zones@.len(),
            z <= n,
            p.wf(),
            q.wf(),
            q == zones_push(p, zones@, z as int, dt as int),
            forall|t: int| 0 <= t < zones@.len() ==> (#[trigger] zones@[t]).force_ok(),
            dt <= DT_LIMIT,
        decreases n - z,
    {
        let f = zones[z];
        if f.min_x <= p.pos.x && p.pos.x <= f.max_x && f.min_y <= p.pos.y && p.pos.y <= f.max_y {
            assert(zones@[z as int].force_ok());
            assert(abs(f.force_x * dt) <= 68719476736) by (nonlinear_arith)
                requires -1048576 <= f.force_x <= 1048576, 0 <= dt <= 65536;
            assert(abs(f.force_y * dt) <= 68719476736) by (nonlinear_arith)
                requires -1048576 <= f.force_y <= 1048576, 0 <= dt <= 65536;
            q = kick_exec(q, f.force_x as i128 * dt as i128, f.force_y as i128 * dt as i128);
        }
        z += 1;
    }
    q
}

/// Adds each containing zone's force times `dt` to every particle's velocity.
pub fn apply_forcefields(ps: &mut Vec<Particle>, zones: &Vec<Forcefield>, dt: u64)
    requires
        all_wf(old(ps)@),
        forall|z: int| 0 <= z < zones@.len() ==> (#[trigger] zones@[z]).force_ok(),
        dt <= DT_LIMIT,
    ensures
        final(ps)@ == forcefield_pass(old(ps)@, zones@, dt as int),
        all_wf(final(ps)@),
{
    let ghost orig = ps@;
    let n = ps.len();
    let mut i: usize = 0;
    while i < n
        invariant
            n == ps@.len(),
            n == orig.len(),
            i <= n,
            all_wf(orig),
            all_wf(ps@),
            forall|t: int| 0 <= t < i ==> #[trigger] ps@[t] == zones_push(orig[t], zones@, zones@.len() as int, dt as int),
            forall|t: int| i <= t < n ==> #[trigger] ps@[t] == orig[t],
            forall|z: int| 0 <= z < zones@.len() ==> (#[trigger] zones@[z]).force_ok(),
            dt <= DT_LIMIT,
        decreases n - i,
    {
        let p = ps[i];
        let q = zones_push_exec(p, zones, dt);
        ps.set(i, q);
        i += 1;
    }
    proof {
        assert(ps@ =~= forcefield_pass(orig, zones@, dt as int));
    }
}

fn border_axis_exec(v: i64, x: i64, border: i64, push: i64, dt: u64) -> (r: i64)
    requires
        abs(v as int) <= VEL_LIMIT,
        0 <= border <= BORDER_LIMIT,
        0 <= push <= SPEED_LIMIT,
        dt <= DT_LIMIT,
    ensures
        r == border_axis(v as int, x as int, border as int, push as int, dt as int),
        abs(r as int) <= VEL_LIMIT,
{
    assert(push * dt <= 68719476736) by (nonlinear_arith)
        requires 0 <= push <= 1048576, 0 <= dt <= 65536;
    assert(push * dt >= 0) by (nonlinear_arith)
        requires 0 <= push, 0 <= dt;
    let a: i128 = if v < 0 { -(v as i128) } else { v as i128 };
    let bias: i128 = push as i128 * dt as i128;
    if x > border {
        saturate(-a - bias, VEL_LIMIT)
    } else if x < -border {
        saturate(a + bias, VEL_LIMIT)
    } else {
        v
    }
}

/// Turns inward every velocity component of a particle beyond the border on
/// that axis, adding an inward push.
pub fn contain_borders(ps: &mut Vec<Particle>, border: i64, push: i64, dt: u64)
    requires
        all_wf(old(ps)@),
        0 <= border <= BORDER_LIMIT,
        0 <= push <= SPEED_LIMIT,
        dt <= DT_LIMIT,
    ensures
        final(ps)@ == border_pass(old(ps)@, border as int, push as int, dt as int),
        all_wf(final(ps)@),
{
    let ghost orig = ps@;
    let n = ps.len();
    let mut i: usize = 0;
    while i < n
        invariant
            n == ps@.len(),
            n == orig.len(),
            i <= n,
            all_wf(orig),
            all_wf(ps@),
            forall|t: int| 0 <= t < i ==> #[trigger] ps@[t] == contain(orig[t], border as int, push as int, dt as int),
            forall|t: int| i <= t < n ==> #[trigger] ps@[t] == orig[t],
            0 <= border <= BORDER_LIMIT,
            0 <= push <= SPEED_LIMIT,
            dt <= DT_LIMIT,
        decreases n - i,
    {
        let mut p = ps[i];
        assert(p.wf());
        let vx = border_axis_exec(p.vel.x, p.pos.x, border, push, dt);
        let vy = border_axis_exec(p.vel.y, p.pos.y, border, push, dt);
        p.vel.x = vx;
        p.vel.y = vy;
        ps.set(i, p);
        i += 1;
    }
    proof {
        assert(ps@ =~= border_pass(orig, border as int, push as int, dt as int));
    }
}

fn damp_exec(v: i128, damping: i64) -> (r: i64)
    requires
        abs(v as int) <= SPEED_LIMIT,
        0 < damping < DAMPING_SCALE,
    ensures
        r == damp(v as int, damping as int),
{
    proof {
        lemma_damp(v as int, damping as int);
    }
    let s: i128 = DAMPING_SCALE as i128;
    assert(abs(v as int) * damping <= 1099511627776000000) by (nonlinear_arith)
        requires abs(v as int) <= 1048576, 0 < damping < 1000000;
    assert(abs(v as int) * damping >= 0) by (nonlinear_arith)
        requires 0 < damping;
    if v >= 0 {
        ((v * damping as i128 + s - 1) / s) as i64
    } else {
        let a = -v;
        let q = (a * damping as i128 + s - 1) / s;
        -(q as i64)
    }
}

fn limit_exec(p: Particle, max: i64, damping: i64) -> (r: Particle)
    requires
        p.wf(),
        0 <= max <= SPEED_LIMIT,
        0 < damping < DAMPING_SCALE,
    ensures
        r == limit(p, max as int, damping as int),
        r.wf(),
{
    let vx = p.vel.x as i128;
    let vy = p.vel.y as i128;
    assert(vx * vx <= 1208925819614629174706176) by (nonlinear_arith)
        requires -1099511627776 <= vx <= 1099511627776;
    assert(vy * vy <= 1208925819614629174706176) by (nonlinear_arith)
        requires -1099511627776 <= vy <= 1099511627776;
    assert(vx * vx >= 0 && vy * vy >= 0) by (nonlinear_arith);
    let m2 = vx * vx + vy * vy;
    let mx = max as i128;
    assert(mx * mx <= 1099511627776) by (nonlinear_arith)
        requires 0 <= mx <= 1048576;
    let mut cx = vx;
    let mut cy = vy;
    if m2 > mx * mx {
        let r = ceil_sqrt(m2 as u128) as i128;
        proof {
            lemma_csqrt_props(m2 as int);
        }
        assert(abs(vx * mx) <= 1152921504606846976) by (nonlinear_arith)
            requires -1099511627776 <= vx <= 1099511627776, 0 <= mx <= 1048576;
        assert(abs(vy * mx) <= 1152921504606846976) by (nonlinear_arith)
            requires -1099511627776 <= vy <= 1099511627776, 0 <= mx <= 1048576;
        cx = div_toward_zero(vx * mx, r);
        cy = div_toward_zero(vy * mx, r);
    }
    proof {
        let c = clamp_speed(vx as int, vy as int, max as int);
        assert(c == (cx as int, cy as int));
        lemma_clamp_speed_bounded(vx as int, vy as int, max as int);
    }
    let dx = damp_exec(cx, damping);
    let dy = damp_exec(cy, damping);
    proof {
        lemma_damp(cx as int, damping as int);
        lemma_damp(cy as int, damping as int);
    }
    let mut r = p;
    r.vel.x = dx;
    r.vel.y = dy;
    r
}

/// Clamps every particle's speed to `max`, then damps it.
pub fn limit_speed(ps: &mut Vec<Particle>, max: i64, damping: i64)
    requires
        all_wf(old(ps)@),
        0 <= max <= SPEED_LIMIT,
        0 < damping < DAMPING_SCALE,
    ensures
        final(ps)@ == limit_pass(old(ps)@, max as int, damping as int),
        all_wf(final(ps)@),
        forall|t: int| 0 <= t < final(ps)@.len() ==> speed2(#[trigger] final(ps)@[t]) <= max * max,
{
    let ghost orig = ps@;
    let n = ps.len();
    let mut i: usize = 0;
    while i < n
        invariant
            n == ps@.len(),
            n == orig.len(),
            i <= n,
            all_wf(orig),
            all_wf(ps@),
            forall|t: int| 0 <= t < i ==> #[trigger] ps@[t] == limit(orig[t], max as int, damping as int),
            forall|t: int| i <= t < n ==> #[trigger] ps@[t] == orig[t],
            0 <= max <= SPEED_LIMIT,
            0 < damping < DAMPING_SCALE,
        decreases n - i,
    {
        let p = ps[i];
        let q = limit_exec(p, max, damping);
        ps.set(i, q);
        i += 1;
    }
    proof {
        assert(ps@ =~= limit_pass(orig, max as int, damping as int));
        assert forall|t: int| 0 <= t < ps@.len() implies speed2(#[trigger] ps@[t]) <= max * max by {
            lemma_limit_bounds_speed(orig[t], max as int, damping as int);
        }
    }
}

/// Advances every particle's position by its velocity times `dt`.
pub fn apply_velocities(ps: &mut Vec<Particle>, dt: u64)
    requires
        all_wf(old(ps)@),
        dt <= DT_LIMIT,
    ensures
        final(ps)@ == integrate_pass(old(ps)@, dt as int),
        all_wf(final(ps)@),
{
    let ghost orig = ps@;
    let n = ps.len();
    let mut i: usize = 0;
    while i < n
        invariant
            n == ps@.len(),
            n == orig.len(),
            i <= n,
            all_wf(orig),
            all_wf(ps@),
            forall|t: int| 0 <= t < i ==> #[trigger] ps@[t] == advance(orig[t], dt as int),
            forall|t: int| i <= t < n ==> #[trigger] ps@[t] == orig[t],
            dt <= DT_LIMIT,
        decreases n - i,
    {
        let mut p = ps[i];
        assert(p.wf());
        assert(abs(p.vel.x * dt) <= 72057594037927936) by (nonlinear_arith)
            requires -1099511627776 <= p.vel.x <= 1099511627776, 0 <= dt <= 65536;
        assert(abs(p.vel.y * dt) <= 72057594037927936) by (nonlinear_arith)
            requires -1099511627776 <= p.vel.y <= 1099511627776, 0 <= dt <= 65536;
        let x = saturate(p.pos.x as i128 + p.vel.x as i128 * dt as i128, POS_LIMIT);
        let y = saturate(p.pos.y as i128 + p.vel.y as i128 * dt as i128, POS_LIMIT);
        p.pos.x = x;
        p.pos.y = y;
        ps.set(i, p);
        i += 1;
    }
    proof {
        assert(ps@ =~= integrate_pass(orig, dt as int));
    }
}

} // verus!
