//! Properties of whole ticks and of runs of ticks.
use vstd::prelude::*;
use crate::annihilation::{doomed, lemma_like_charges_survive, mark_pass};
use crate::config::{Config, ForceMode, Forcefield, DT_LIMIT};
use crate::emitter::{
    advance_timer, advance_timers, emit_upto, fires, spawned, Direction, Emitter,
};
use crate::fixed::{abs, csqrt, lemma_csqrt_of_square, lemma_sq_le, trunc_div, VEL_LIMIT};
use crate::forces::{gather, snapshot_pass, sym_pair, sym_row, sym_rows};
use crate::motion::{
    advance, border_axis, border_pass, clamp_speed, contain, damp, forcefield_pass,
    integrate_pass, lemma_damp, limit, limit_pass, zone_contains, zones_push,
};
use crate::particle::{lemma_survivors_props, none_cancelled, Particle};
use crate::sim::{force_pass, tick_result};

verus! {

/// The particles after `n` ticks of `dt`, the emitters advancing each tick.
pub open spec fn run(
    cfg: Config,
    ps: Seq<Particle>,
    ems: Seq<Emitter>,
    dt: int,
    dirs: Seq<Direction>,
    n: nat,
) -> Seq<Particle>
    decreases n,
{
    if n == 0 {
        ps
    } else {
        run(cfg, tick_result(cfg, ps, ems, dt, dirs), advance_timers(ems, dt), dt, dirs, (n - 1) as nat)
    }
}

/// Charges and marks of `t` are those of `s`.
pub open spec fn same_tags(s: Seq<Particle>, t: Seq<Particle>) -> bool {
    &&& s.len() == t.len()
    &&& forall|z: int|
        0 <= z < s.len() ==> (#[trigger] t[z]).charge == s[z].charge && t[z].cancelled == s[z].cancelled
}

/// Every particle of `s` carries charge `q`.
pub open spec fn all_charged(s: Seq<Particle>, q: int) -> bool {
    forall|i: int| 0 <= i < s.len() ==> (#[trigger] s[i]).charge == q
}

proof fn lemma_sym_row_tags(s: Seq<Particle>, i: int, j: int, n: int, k: int, cutoff: int, dt: int)
    requires
        n == s.len(),
        0 <= i < n,
        i < j,
    ensures
        same_tags(s, sym_row(s, i, j, n, k, cutoff, dt)),
    decreases n - j,
{
    if j < n {
        let t = sym_pair(s, i, j, k, cutoff, dt);
        lemma_sym_row_tags(t, i, j + 1, n, k, cutoff, dt);
    }
}

proof fn lemma_sym_rows_tags(s: Seq<Particle>, i: int, n: int, k: int, cutoff: int, dt: int)
    requires
        n == s.len(),
        0 <= i,
    ensures
        same_tags(s, sym_rows(s, i, n, k, cutoff, dt)),
    decreases n - i,
{
    if i < n {
        let t = sym_row(s, i, i + 1, n, k, cutoff, dt);
        lemma_sym_row_tags(s, i, i + 1, n, k, cutoff, dt);
        lemma_sym_rows_tags(t, i + 1, n, k, cutoff, dt);
    }
}

proof fn lemma_gather_tags(s: Seq<Particle>, i: int, j: int, k: int, cutoff: int, dt: int)
    requires
        0 <= i < s.len(),
    ensures
        gather(s, i, j, k, cutoff, dt).charge == s[i].charge,
        gather(s, i, j, k, cutoff, dt).cancelled == s[i].cancelled,
    decreases j,
{
    if j > 0 {
        lemma_gather_tags(s, i, j - 1, k, cutoff, dt);
    }
}

proof fn lemma_zones_push_tags(p: Particle, zones: Seq<Forcefield>, n: int, dt: int)
    ensures
        zones_push(p, zones, n, dt).charge == p.charge,
        zones_push(p, zones, n, dt).cancelled == p.cancelled,
    decreases n,
{
    if n > 0 {
        lemma_zones_push_tags(p, zones, n - 1, dt);
    }
}

/// The phases between emission and annihilation keep every charge and mark.
proof fn lemma_motion_tags(cfg: Config, s: Seq<Particle>, dt: int)
    ensures
        ({
            let s1 = force_pass(cfg, s, dt);
            let s2 = forcefield_pass(s1, cfg.zones@, dt);
            let s3 = border_pass(s2, cfg.border as int, cfg.border_push as int, dt);
            let s4 = limit_pass(s3, cfg.max_speed as int, cfg.damping as int);
            let s5 = integrate_pass(s4, dt);
            same_tags(s, s5)
        }),
{
    let s1 = force_pass(cfg, s, dt);
    match cfg.mode {
        ForceMode::Symmetric => {
            lemma_sym_rows_tags(s, 0, s.len() as int, cfg.k as int, cfg.cutoff as int, dt);
        },
        ForceMode::Snapshot => {
            assert forall|z: int| 0 <= z < s.len() implies (#[trigger] s1[z]).charge == s[z].charge
                && s1[z].cancelled == s[z].cancelled by {
                lemma_gather_tags(s, z, s.len() as int, cfg.k as int, cfg.cutoff as int, dt);
            }
        },
    }
    let s2 = forcefield_pass(s1, cfg.zones@, dt);
    assert forall|z: int| 0 <= z < s1.len() implies (#[trigger] s2[z]).charge == s1[z].charge
        && s2[z].cancelled == s1[z].cancelled by {
        lemma_zones_push_tags(s1[z], cfg.zones@, cfg.zones@.len() as int, dt);
    }
}

/// One tick with a single emitter that fires every tick, on particles that
/// all carry its charge.
proof fn lemma_single_emitter_tick(cfg: Config, ps: Seq<Particle>, em: Emitter, dt: int, dirs: Seq<Direction>)
    requires
        em.valid(),
        em.period <= dt,
        dt >= 0,
        ps.len() <= cfg.max_particles,
        all_charged(ps, em.charge as int),
        none_cancelled(ps),
    ensures
        ({
            let t = tick_result(cfg, ps, seq![em], dt, dirs);
            &&& t.len() == if ps.len() < cfg.max_particles { ps.len() + 1int } else { ps.len() + 0int }
            &&& all_charged(t, em.charge as int)
            &&& none_cancelled(t)
        }),
        advance_timers(seq![em], dt) == seq![advance_timer(em, dt)],
        advance_timer(em, dt).valid(),
        advance_timer(em, dt).period == em.period,
        advance_timer(em, dt).charge == em.charge,
{
    let ems = seq![em];
    let s0 = emit_upto(ps, ems, dirs, 1, cfg.max_particles as int, cfg.spawn_speed as int, dt);
    assert(emit_upto(ps, ems, dirs, 0, cfg.max_particles as int, cfg.spawn_speed as int, dt) == ps);
    assert(fires(em, dt));
    if ps.len() < cfg.max_particles {
        assert(s0 == ps.push(spawned(em, dirs[0], cfg.spawn_speed as int)));
    } else {
        assert(s0 == ps);
    }
    assert(all_charged(s0, em.charge as int));
    assert(none_cancelled(s0));
    lemma_motion_tags(cfg, s0, dt);
    let s1 = force_pass(cfg, s0, dt);
    let s2 = forcefield_pass(s1, cfg.zones@, dt);
    let s3 = border_pass(s2, cfg.border as int, cfg.border_push as int, dt);
    let s4 = limit_pass(s3, cfg.max_speed as int, cfg.damping as int);
    let s5 = integrate_pass(s4, dt);
    assert(all_charged(s5, em.charge as int));
    assert(none_cancelled(s5));
    lemma_like_charges_survive(s5, cfg.deletion_radius as int, em.charge as int);
    lemma_survivors_props(s5);
    assert(advance_timers(ems, dt) =~= seq![advance_timer(em, dt)]);
    assert((em.elapsed + dt) % (em.period as int) < em.period) by (nonlinear_arith)
        requires em.period >= 1;
    assert((em.elapsed + dt) % (em.period as int) >= 0) by (nonlinear_arith)
        requires em.period >= 1;
}

proof fn lemma_single_emitter_run(
    cfg: Config,
    ps: Seq<Particle>,
    em: Emitter,
    dt: int,
    dirs: Seq<Direction>,
    n: nat,
)
    requires
        em.valid(),
        em.period <= dt,
        ps.len() <= cfg.max_particles,
        all_charged(ps, em.charge as int),
        none_cancelled(ps),
    ensures
        run(cfg, ps, seq![em], dt, dirs, n).len() == if ps.len() + n < cfg.max_particles {
            (ps.len() + n) as int
        } else {
            cfg.max_particles as int
        },
    decreases n,
{
    if n > 0 {
        lemma_single_emitter_tick(cfg, ps, em, dt, dirs);
        let t = tick_result(cfg, ps, seq![em], dt, dirs);
        lemma_single_emitter_run(cfg, t, advance_timer(em, dt), dt, dirs, (n - 1) as nat);
    }
}

/// Law: starting empty, with a single emitter whose timer completes every
/// tick and no annihilation possible, the live count after `n` ticks is
/// `min(n, max_particles)`.
pub proof fn lemma_emission_count(cfg: Config, em: Emitter, dt: int, dirs: Seq<Direction>, n: nat)
    requires
        em.valid(),
        em.period <= dt,
    ensures
        run(cfg, Seq::<Particle>::empty(), seq![em], dt, dirs, n).len() == if n < cfg.max_particles {
            n as int
        } else {
            cfg.max_particles as int
        },
{
    lemma_single_emitter_run(cfg, Seq::<Particle>::empty(), em, dt, dirs, n);
}

proof fn lemma_zones_push_outside(p: Particle, zones: Seq<Forcefield>, n: int, dt: int)
    requires
        forall|z: int| 0 <= z < zones.len() ==> !zone_contains(#[trigger] zones[z], p),
        n <= zones.len(),
    ensures
        zones_push(p, zones, n, dt) == p,
    decreases n,
{
    if n > 0 {
        lemma_zones_push_outside(p, zones, n - 1, dt);
    }
}

/// A lone particle feels no pairwise force and survives annihilation: a
/// tick with no emitters acts on it through the per-particle phases alone.
proof fn lemma_lone_tick(cfg: Config, p: Particle, dt: int, dirs: Seq<Direction>)
    requires
        !p.cancelled,
    ensures
        ({
            let q = zones_push(p, cfg.zones@, cfg.zones@.len() as int, dt);
            let r = advance(
                limit(contain(q, cfg.border as int, cfg.border_push as int, dt), cfg.max_speed as int, cfg.damping as int),
                dt,
            );
            tick_result(cfg, seq![p], Seq::<Emitter>::empty(), dt, dirs) == seq![r]
        }),
        advance_timers(Seq::<Emitter>::empty(), dt) == Seq::<Emitter>::empty(),
{
    let s = seq![p];
    let s0 = emit_upto(s, Seq::<Emitter>::empty(), dirs, 0, cfg.max_particles as int, cfg.spawn_speed as int, dt);
    assert(s0 == s);
    let s1 = force_pass(cfg, s, dt);
    match cfg.mode {
        ForceMode::Symmetric => {
            let k = cfg.k as int;
            let c = cfg.cutoff as int;
            assert(sym_row(s, 0, 1, 1, k, c, dt) == s);
            assert(sym_rows(s, 1, 1, k, c, dt) == s);
            assert(sym_rows(s, 0, 1, k, c, dt) == s);
        },
        ForceMode::Snapshot => {
            assert(gather(s, 0, 0, cfg.k as int, cfg.cutoff as int, dt) == p);
            assert(gather(s, 0, 1, cfg.k as int, cfg.cutoff as int, dt) == p);
            assert(snapshot_pass(s, cfg.k as int, cfg.cutoff as int, dt) =~= s);
        },
    }
    assert(s1 == s);
    let q = zones_push(p, cfg.zones@, cfg.zones@.len() as int, dt);
    let r = advance(
        limit(contain(q, cfg.border as int, cfg.border_push as int, dt), cfg.max_speed as int, cfg.damping as int),
        dt,
    );
    let s5 = integrate_pass(
        limit_pass(
            border_pass(forcefield_pass(s1, cfg.zones@, dt), cfg.border as int, cfg.border_push as int, dt),
            cfg.max_speed as int,
            cfg.damping as int,
        ),
        dt,
    );
    assert(s5 =~= seq![r]);
    lemma_zones_push_tags(p, cfg.zones@, cfg.zones@.len() as int, dt);
    assert(!doomed(s5, 0, cfg.deletion_radius as int));
    assert(mark_pass(s5, cfg.deletion_radius as int) =~= s5);
    assert(none_cancelled(s5));
    lemma_survivors_props(s5);
    assert(advance_timers(Seq::<Emitter>::empty(), dt) =~= Seq::<Emitter>::empty());
}

/// Law: a lone particle at rest inside the arena and outside every
/// forcefield stays exactly where it is, at rest, for any number of ticks.
pub proof fn lemma_lone_particle_stationary(cfg: Config, p: Particle, dt: int, dirs: Seq<Direction>, n: nat)
    requires
        cfg.valid(),
        p.wf(),
        !p.cancelled,
        p.vel.x == 0,
        p.vel.y == 0,
        abs(p.pos.x as int) <= cfg.border,
        abs(p.pos.y as int) <= cfg.border,
        forall|z: int| 0 <= z < cfg.zones@.len() ==> !zone_contains(#[trigger] cfg.zones@[z], p),
        0 <= dt <= DT_LIMIT,
    ensures
        run(cfg, seq![p], Seq::<Emitter>::empty(), dt, dirs, n) == seq![p],
    decreases n,
{
    if n > 0 {
        lemma_lone_tick(cfg, p, dt, dirs);
        lemma_zones_push_outside(p, cfg.zones@, cfg.zones@.len() as int, dt);
        let c = contain(p, cfg.border as int, cfg.border_push as int, dt);
        assert(c == p);
        lemma_damp(0, cfg.damping as int);
        assert(clamp_speed(0, 0, cfg.max_speed as int) == (0int, 0int)) by (nonlinear_arith)
            requires cfg.max_speed >= 0;
        let l = limit(c, cfg.max_speed as int, cfg.damping as int);
        assert(l == p);
        assert(p.vel.x * dt == 0 && p.vel.y * dt == 0) by (nonlinear_arith)
            requires p.vel.x == 0, p.vel.y == 0;
        assert(advance(l, dt) == p);
        lemma_lone_particle_stationary(cfg, p, dt, dirs, (n - 1) as nat);
    }
}

/// One tick of a lone particle beyond the right border, with no forcefields:
/// it moves strictly inward and keeps a nonzero inward velocity.
proof fn lemma_escape_step(cfg: Config, p: Particle, dt: int, dirs: Seq<Direction>) -> (r: Particle)
    requires
        cfg.valid(),
        cfg.max_speed >= 1,
        1 <= dt <= DT_LIMIT,
        cfg.zones@.len() == 0,
        p.wf(),
        !p.cancelled,
        p.pos.x > cfg.border,
        p.vel.x != 0,
        p.vel.y == 0,
        abs(p.pos.y as int) <= cfg.border,
    ensures
        tick_result(cfg, seq![p], Seq::<Emitter>::empty(), dt, dirs) == seq![r],
        r.wf(),
        !r.cancelled,
        r.pos.x <= p.pos.x - 1,
        r.vel.x != 0,
        r.vel.y == 0,
        r.pos.y == p.pos.y,
{
    lemma_lone_tick(cfg, p, dt, dirs);
    let q = zones_push(p, cfg.zones@, cfg.zones@.len() as int, dt);
    assert(q == p);
    let b = cfg.border as int;
    let push = cfg.border_push as int;
    let max = cfg.max_speed as int;
    assert(push * dt >= 0) by (nonlinear_arith)
        requires push >= 0, dt >= 1;
    let c = contain(p, b, push, dt);
    let vx1 = border_axis(p.vel.x as int, p.pos.x as int, b, push, dt);
    assert(-VEL_LIMIT <= vx1 <= -1);
    assert(border_axis(0, p.pos.y as int, b, push, dt) == 0);
    assert(c.vel.x == vx1 && c.vel.y == 0);
    let cs = clamp_speed(vx1, 0, max);
    let m2 = vx1 * vx1 + 0 * 0;
    if m2 > max * max {
        let a = -vx1;
        assert(a * a == m2) by (nonlinear_arith)
            requires a == -vx1, m2 == vx1 * vx1 + 0 * 0;
        lemma_csqrt_of_square(a);
        assert(csqrt(m2) == a);
        assert(vx1 * max <= 0) by (nonlinear_arith)
            requires vx1 <= -1, max >= 1;
        assert(-(vx1 * max) == a * max) by (nonlinear_arith)
            requires a == -vx1;
        assert((a * max) / a == max) by (nonlinear_arith)
            requires a >= 1;
        assert(trunc_div(vx1 * max, a) == -max);
        assert(0 * max == 0);
        assert(trunc_div(0, a) == 0) by (nonlinear_arith)
            requires a >= 1;
        assert(cs == (-max, 0int));
    } else {
        assert(vx1 * vx1 >= 0) by (nonlinear_arith);
        lemma_sq_le(vx1, max);
        assert(cs == (vx1, 0int));
    }
    assert(-max <= cs.0 <= -1 && cs.1 == 0);
    lemma_damp(cs.0, cfg.damping as int);
    lemma_damp(cs.1, cfg.damping as int);
    let l = limit(c, max, cfg.damping as int);
    let dx = damp(cs.0, cfg.damping as int);
    assert(-max <= dx <= -1);
    assert(l.vel.x == dx && l.vel.y == 0);
    assert(dx * dt <= -1 && dx * dt >= -68719476736) by (nonlinear_arith)
        requires -1048576 <= -max, -max <= dx <= -1, 1 <= dt <= 65536;
    assert(0 * dt == 0);
    let r = advance(l, dt);
    assert(r.pos.x == p.pos.x + dx * dt);
    r
}

proof fn lemma_escape_run(cfg: Config, p: Particle, dt: int, dirs: Seq<Direction>)
    requires
        cfg.valid(),
        cfg.max_speed >= 1,
        1 <= dt <= DT_LIMIT,
        cfg.zones@.len() == 0,
        p.wf(),
        !p.cancelled,
        p.vel.x != 0,
        p.vel.y == 0,
        abs(p.pos.y as int) <= cfg.border,
    ensures
        exists|k: nat|
            k <= (if p.pos.x > cfg.border { p.pos.x - cfg.border } else { 0 })
            && #[trigger] run(cfg, seq![p], Seq::<Emitter>::empty(), dt, dirs, k).len() == 1
            && run(cfg, seq![p], Seq::<Emitter>::empty(), dt, dirs, k)[0].pos.x <= cfg.border,
    decreases (if p.pos.x > cfg.border { p.pos.x - cfg.border } else { 0 }),
{
    if p.pos.x <= cfg.border {
        assert(run(cfg, seq![p], Seq::<Emitter>::empty(), dt, dirs, 0) == seq![p]);
    } else {
        let r = lemma_escape_step(cfg, p, dt, dirs);
        lemma_lone_tick(cfg, p, dt, dirs);
        lemma_escape_run(cfg, r, dt, dirs);
        let k = choose|k: nat|
            k <= (if r.pos.x > cfg.border { r.pos.x - cfg.border } else { 0 })
            && #[trigger] run(cfg, seq![r], Seq::<Emitter>::empty(), dt, dirs, k).len() == 1
            && run(cfg, seq![r], Seq::<Emitter>::empty(), dt, dirs, k)[0].pos.x <= cfg.border;
        assert(run(cfg, seq![p], Seq::<Emitter>::empty(), dt, dirs, k + 1) == run(cfg, seq![r], Seq::<Emitter>::empty(), dt, dirs, k));
    }
}

/// Law: a lone particle just beyond the right border, moving outward, with
/// no forcefields, is back within the border after at most as many ticks as
/// the distance by which it overshoots.
pub proof fn lemma_escape_returns(cfg: Config, p: Particle, dt: int, dirs: Seq<Direction>)
    requires
        cfg.valid(),
        cfg.max_speed >= 1,
        1 <= dt <= DT_LIMIT,
        cfg.zones@.len() == 0,
        p.wf(),
        !p.cancelled,
        p.pos.x > cfg.border,
        p.vel.x > 0,
        p.vel.y == 0,
        abs(p.pos.y as int) <= cfg.border,
    ensures
        exists|k: nat|
            k <= p.pos.x - cfg.border
            && #[trigger] run(cfg, seq![p], Seq::<Emitter>::empty(), dt, dirs, k).len() == 1
            && run(cfg, seq![p], Seq::<Emitter>::empty(), dt, dirs, k)[0].pos.x <= cfg.border,
{
    lemma_escape_run(cfg, p, dt, dirs);
}

} // verus!
