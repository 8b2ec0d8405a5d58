//! Emission points with independent repeating timers.
use vstd::prelude::*;
use crate::config::{DT_LIMIT, SPEED_LIMIT};
use crate::fixed::{abs, div_toward_zero, lemma_trunc_div_bounds, trunc_div, POS_LIMIT};
use crate::particle::{all_wf, Particle, ParticleStore, Position, Velocity, CHARGE_LIMIT};

verus! {

/// Fixed-point scale of a spawn direction: a unit vector has components of
/// magnitude up to `DIR_SCALE`.
pub const DIR_SCALE: i64 = 65536;

/// Largest accepted emitter period.
pub const PERIOD_LIMIT: u64 = 4611686018427387904;

/// A direction of emission, in units of `1 / DIR_SCALE`.
#[derive(Clone, Copy, Debug, PartialEq, Eq, Structural)]
pub struct Direction {
    pub x: i64,
    pub y: i64,
}

impl Direction {
    pub open spec fn valid(self) -> bool {
        abs(self.x as int) <= DIR_SCALE && abs(self.y as int) <= DIR_SCALE
    }
}

/// A fixed point that spawns particles of one charge whenever its repeating
/// timer completes.
#[derive(Clone, Copy, Debug, PartialEq, Eq, Structural)]
pub struct Emitter {
    pub pos: Position,
    pub charge: i64,
    /// Timer period in time quanta.
    pub period: u64,
    /// Time accumulated since the timer last completed.
    pub elapsed: u64,
}

impl Emitter {
    /// An emitter whose timer has just started.
    pub fn new(pos: Position, charge: i64, period: u64) -> (r: Emitter)
        ensures
            r == (Emitter { pos, charge, period, elapsed: 0 }),
    {
        Emitter { pos, charge, period, elapsed: 0 }
    }

    pub open spec fn period_ok(self) -> bool {
        1 <= self.period <= PERIOD_LIMIT
    }

    pub open spec fn placement_ok(self) -> bool {
        &&& abs(self.pos.x as int) <= POS_LIMIT
        &&& abs(self.pos.y as int) <= POS_LIMIT
        &&& abs(self.charge as int) <= CHARGE_LIMIT
    }

    pub open spec fn valid(self) -> bool {
        self.period_ok() && self.placement_ok() && self.elapsed < self.period
    }
}

/// All emitters of `ems` are valid.
pub open spec fn all_valid(ems: Seq<Emitter>) -> bool {
    forall|e: int| 0 <= e < ems.len() ==> (#[trigger] ems[e]).valid()
}

/// All directions of `dirs` are valid.
pub open spec fn all_dirs_valid(dirs: Seq<Direction>) -> bool {
    forall|e: int| 0 <= e < dirs.len() ==> (#[trigger] dirs[e]).valid()
}

/// The timer completes during a step of `dt`.
pub open spec fn fires(em: Emitter, dt: int) -> bool {
    em.elapsed + dt >= em.period
}

/// The emitter after its timer advanced by `dt`, wrapping around its period.
pub open spec fn advance_timer(em: Emitter, dt: int) -> Emitter {
    Emitter { elapsed: ((em.elapsed + dt) % (em.period as int)) as u64, ..em }
}

pub open spec fn advance_timers(ems: Seq<Emitter>, dt: int) -> Seq<Emitter> {
    Seq::new(ems.len(), |e: int| advance_timer(ems[e], dt))
}

/// Velocity of magnitude `speed` along `d`, each component rounded toward zero.
pub open spec fn spawn_velocity(d: Direction, speed: int) -> Velocity {
    Velocity {
        x: trunc_div(d.x * speed, DIR_SCALE as int) as i64,
        y: trunc_div(d.y * speed, DIR_SCALE as int) as i64,
    }
}

/// The particle that `em` spawns moving along `d`.
pub open spec fn spawned(em: Emitter, d: Direction, speed: int) -> Particle {
    Particle { pos: em.pos, vel: spawn_velocity(d, speed), charge: em.charge, cancelled: false }
}

/// `s` after the emitters `0 .. n` took their turn, in order: each whose
/// timer completes adds one particle while fewer than `max` are live.
pub open spec fn emit_upto(
    s: Seq<Particle>,
    ems: Seq<Emitter>,
    dirs: Seq<Direction>,
    n: int,
    max: int,
    speed: int,
    dt: int,
) -> Seq<Particle>
    decreases n,
{
    if n <= 0 {
        s
    } else {
        let prev = emit_upto(s, ems, dirs, n - 1, max, speed, dt);
        if fires(ems[n - 1], dt) && prev.len() < max {
            prev.push(spawned(ems[n - 1], dirs[n - 1], speed))
        } else {
            prev
        }
    }
}

proof fn lemma_spawned_wf(em: Emitter, d: Direction, speed: int)
    requires
        em.valid(),
        d.valid(),
        0 <= speed <= SPEED_LIMIT,
    ensures
        spawned(em, d, speed).wf(),
{
    let nx = d.x * speed;
    let ny = d.y * speed;
    assert(abs(nx) <= DIR_SCALE * speed) by (nonlinear_arith)
        requires nx == d.x * speed, abs(d.x as int) <= DIR_SCALE, speed >= 0;
    assert(abs(ny) <= DIR_SCALE * speed) by (nonlinear_arith)
        requires ny == d.y * speed, abs(d.y as int) <= DIR_SCALE, speed >= 0;
    let s = DIR_SCALE as int;
    assert(abs(nx) / s <= speed && abs(ny) / s <= speed) by (nonlinear_arith)
        requires abs(nx) <= s * speed, abs(ny) <= s * speed, s == 65536;
    assert(abs(nx) / s >= 0 && abs(ny) / s >= 0) by (nonlinear_arith)
        requires abs(nx) >= 0, abs(ny) >= 0, s == 65536;
}

/// Advances every emitter's timer by `dt`; each whose timer completes
/// spawns one particle moving along its direction in `dirs`, unless `max`
/// particles are already live, in which case that firing is dropped.
/// Returns how many particles were spawned.
pub fn emit_particles(
    store: &mut ParticleStore,
    emitters: &mut Vec<Emitter>,
    dirs: &Vec<Direction>,
    max: u64,
    speed: i64,
    dt: u64,
) -> (spawned_count: usize)
    requires
        all_wf(old(store)@),
        all_valid(old(emitters)@),
        all_dirs_valid(dirs@),
        dirs@.len() == old(emitters)@.len(),
        0 <= speed <= SPEED_LIMIT,
        dt <= DT_LIMIT,
    ensures
        final(store)@ == emit_upto(old(store)@, old(emitters)@, dirs@, old(emitters)@.len() as int, max as int, speed as int, dt as int),
        final(emitters)@ == advance_timers(old(emitters)@, dt as int),
        spawned_count == final(store)@.len() - old(store)@.len(),
        all_wf(final(store)@),
        all_valid(final(emitters)@),
{
    let ghost s0 = store@;
    let ghost ems = emitters@;
    let n = emitters.len();
    let mut e: usize = 0;
    let start = store.len();
    while e < n
        invariant
            n == emitters@.len(),
            n == ems.len(),
            n == dirs@.len(),
            e <= n,
            all_valid(ems),
            all_dirs_valid(dirs@),
            0 <= speed <= SPEED_LIMIT,
            dt <= DT_LIMIT,
            all_wf(store@),
            store@ == emit_upto(s0, ems, dirs@, e as int, max as int, speed as int, dt as int),
            start == s0.len(),
            s0.len() <= store@.len(),
            forall|t: int| 0 <= t < e ==> #[trigger] emitters@[t] == advance_timer(ems[t], dt as int),
            forall|t: int| e <= t < n ==> #[trigger] emitters@[t] == ems[t],
        decreases n - e,
    {
        let mut em = emitters[e];
        assert(em.valid());
        let total: u64 = em.elapsed + dt;
        let fired = total >= em.period;
        em.elapsed = total % em.period;
        emitters.set(e, em);
        if fired && (store.len() as u64) < max {
            let d = dirs[e];
            assert(d.valid());
            assert(abs(d.x * speed) <= 68719476736 && abs(d.y * speed) <= 68719476736) by (nonlinear_arith)
                requires abs(d.x as int) <= 65536, abs(d.y as int) <= 65536, 0 <= speed <= 1048576;
            let vx = div_toward_zero(d.x as i128 * speed as i128, DIR_SCALE as i128);
            let vy = div_toward_zero(d.y as i128 * speed as i128, DIR_SCALE as i128);
            proof {
                lemma_trunc_div_bounds(d.x * speed, DIR_SCALE as int);
                lemma_trunc_div_bounds(d.y * speed, DIR_SCALE as int);
                lemma_spawned_wf(ems[e as int], d, speed as int);
            }
            let p = Particle::new(em.pos, Velocity { x: vx as i64, y: vy as i64 }, em.charge);
            assert(p == spawned(ems[e as int], d, speed as int));
            store.insert(p);
        }
        e += 1;
    }
    proof {
        assert(emitters@ =~= advance_timers(ems, dt as int));
    }
    store.len() - start
}

/// Emission never takes the store past `max`, and never shrinks it.
pub proof fn lemma_emit_len(
    s: Seq<Particle>,
    ems: Seq<Emitter>,
    dirs: Seq<Direction>,
    n: int,
    max: int,
    speed: int,
    dt: int,
)
    requires
        s.len() <= max,
    ensures
        s.len() <= emit_upto(s, ems, dirs, n, max, speed, dt).len() <= max,
    decreases n,
{
    if n > 0 {
        lemma_emit_len(s, ems, dirs, n - 1, max, speed, dt);
    }
}

} // verus!
