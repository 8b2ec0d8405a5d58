//! The simulation state and its tick.
use vstd::prelude::*;
use crate::annihilation::{annihilate, mark_pass, resolve_annihilations};
use crate::fixed::POS_LIMIT;
use crate::config::{Config, ConfigError, ForceMode, DT_LIMIT, PARTICLE_LIMIT};
use crate::emitter::{
    advance_timers, all_dirs_valid, all_valid, emit_particles, emit_upto, lemma_emit_len, Direction,
    Emitter, PERIOD_LIMIT,
};
use crate::forces::{apply_forces_snapshot, apply_forces_symmetric, snapshot_pass, symmetric_pass};
use crate::motion::{
    apply_forcefields, apply_velocities, border_pass, contain_borders, forcefield_pass,
    integrate_pass, limit_pass, limit_speed,
};
use crate::particle::{
    all_wf, kinetic_sum, lemma_survivors_props, none_cancelled, Particle, ParticleStore,
    CHARGE_LIMIT,
};

verus! {

/// Largest squared speed of a well-formed particle.
pub const SPEED2_LIMIT: u128 = 2417851639229258349412352;

/// The pairwise phase selected by the configuration.
pub open spec fn force_pass(cfg: Config, s: Seq<Particle>, dt: int) -> Seq<Particle> {
    match cfg.mode {
        ForceMode::Symmetric => symmetric_pass(s, cfg.k as int, cfg.cutoff as int, dt),
        ForceMode::Snapshot => snapshot_pass(s, cfg.k as int, cfg.cutoff as int, dt),
    }
}

/// Every phase after emission: forces, forcefields, border containment,
/// speed limiting, integration and annihilation.
pub open spec fn physics(cfg: Config, s: Seq<Particle>, dt: int) -> Seq<Particle> {
    let s1 = force_pass(cfg, s, dt);
    let s2 = forcefield_pass(s1, cfg.zones@, dt);
    let s3 = border_pass(s2, cfg.border as int, cfg.border_push as int, dt);
    let s4 = limit_pass(s3, cfg.max_speed as int, cfg.damping as int);
    let s5 = integrate_pass(s4, dt);
    annihilate(s5, cfg.deletion_radius as int)
}

/// The particles after one tick of `dt` with spawn directions `dirs`.
pub open spec fn tick_result(
    cfg: Config,
    ps: Seq<Particle>,
    ems: Seq<Emitter>,
    dt: int,
    dirs: Seq<Direction>,
) -> Seq<Particle> {
    let s0 = emit_upto(ps, ems, dirs, ems.len() as int, cfg.max_particles as int, cfg.spawn_speed as int, dt);
    physics(cfg, s0, dt)
}

/// The first reason why `cfg` with emitters `ems` cannot start, if any.
pub open spec fn setup_error(cfg: Config, ems: Seq<Emitter>) -> Option<ConfigError> {
    if cfg.own_error() is Some {
        cfg.own_error()
    } else if exists|e: int| 0 <= e < ems.len() && !(#[trigger] ems[e]).period_ok() {
        Some(ConfigError::EmitterPeriod)
    } else if exists|e: int| 0 <= e < ems.len() && !(#[trigger] ems[e]).placement_ok() {
        Some(ConfigError::EmitterPlacement)
    } else {
        None
    }
}

/// `ems` with every timer restarted.
pub open spec fn restarted(ems: Seq<Emitter>) -> Seq<Emitter> {
    Seq::new(ems.len(), |e: int| Emitter { elapsed: 0, ..ems[e] })
}

/// A running simulation: configuration, particles, emitters and the
/// diagnostics recomputed after every tick.
pub struct Simulation {
    config: Config,
    store: ParticleStore,
    emitters: Vec<Emitter>,
    count: u64,
    energy: u128,
}

impl Simulation {
    pub closed spec fn config(&self) -> Config {
        self.config
    }

    pub closed spec fn particles(&self) -> Seq<Particle> {
        self.store@
    }

    pub closed spec fn emitters(&self) -> Seq<Emitter> {
        self.emitters@
    }

    pub closed spec fn count(&self) -> int {
        self.count as int
    }

    pub closed spec fn energy(&self) -> int {
        self.energy as int
    }

    /// Law: the stored energy never drifts from a fresh sum over the live
    /// particles, and the stored count is their number.
    pub proof fn lemma_diagnostics_fresh(&self)
        requires
            self.wf(),
        ensures
            self.energy() == kinetic_sum(self.particles()),
            self.count() == self.particles().len(),
            self.particles().len() <= self.config().max_particles,
    {
    }

    pub closed spec fn wf(&self) -> bool {
        &&& self.config.valid()
        &&& all_valid(self.emitters@)
        &&& all_wf(self.store@)
        &&& none_cancelled(self.store@)
        &&& self.store@.len() <= self.config.max_particles
        &&& self.count == self.store@.len()
        &&& self.energy == kinetic_sum(self.store@)
    }

    /// Starts a simulation with no particles, or reports why `config` and
    /// `emitters` are rejected. Emitter timers start at zero.
    pub fn new(config: Config, emitters: Vec<Emitter>) -> (r: Result<Simulation, ConfigError>)
        ensures
            r is Ok <==> setup_error(config, emitters@) is None,
            r matches Err(e) ==> setup_error(config, emitters@) == Some(e),
            r matches Ok(sim) ==> {
                &&& sim.wf()
                &&& sim.config() == config
                &&& sim.particles() == Seq::<Particle>::empty()
                &&& sim.emitters() == restarted(emitters@)
            },
    {
        match config.check() {
            Err(e) => {
                return Err(e);
            },
            Ok(()) => {},
        }
        let n = emitters.len();
        let mut e: usize = 0;
        while e < n
            invariant
                n == emitters@.len(),
                e <= n,
                config.own_error() is None,
                forall|t: int| 0 <= t < e ==> (#[trigger] emitters@[t]).period_ok(),
            decreases n - e,
        {
            if emitters[e].period == 0 || emitters[e].period > PERIOD_LIMIT {
                assert(!emitters@[e as int].period_ok());
                assert(exists|t: int| 0 <= t < emitters@.len() && !(#[trigger] emitters@[t]).period_ok());
                return Err(ConfigError::EmitterPeriod);
            }
            e += 1;
        }
        let mut started: Vec<Emitter> = Vec::new();
        let mut e: usize = 0;
        while e < n
            invariant
                n == emitters@.len(),
                e <= n,
                config.own_error() is None,
                config.valid(),
                forall|t: int| 0 <= t < n ==> (#[trigger] emitters@[t]).period_ok(),
                forall|t: int| 0 <= t < e ==> (#[trigger] emitters@[t]).placement_ok(),
                started@ =~= restarted(emitters@).take(e as int),
            decreases n - e,
        {
            let em = emitters[e];
            if !(-POS_LIMIT <= em.pos.x && em.pos.x <= POS_LIMIT
                && -POS_LIMIT <= em.pos.y && em.pos.y <= POS_LIMIT
                && -CHARGE_LIMIT <= em.charge && em.charge
                <= CHARGE_LIMIT) {
                assert(!emitters@[e as int].placement_ok());
                assert(exists|t: int| 0 <= t < emitters@.len() && !(#[trigger] emitters@[t]).placement_ok());
                return Err(ConfigError::EmitterPlacement);
            }
            started.push(Emitter::new(em.pos, em.charge, em.period));
            e += 1;
        }
        proof {
            assert(started@ =~= restarted(emitters@));
        }
        Ok(Simulation { config, store: ParticleStore::new(), emitters: started, count: 0, energy: 0 })
    }

    /// Adds a live particle, or returns `None` when it lies outside the
    /// supported ranges or the store already holds the maximum count.
    pub fn spawn(&mut self, p: Particle) -> (r: Option<usize>)
        requires
            old(self).wf(),
        ensures
            final(self).wf(),
            final(self).config() == old(self).config(),
            final(self).emitters() == old(self).emitters(),
            r is Some <==> p.wf() && old(self).particles().len() < old(self).config().max_particles,
            r matches Some(h) ==> h == old(self).particles().len() && final(self).particles()
                == old(self).particles().push(Particle { cancelled: false, ..p }),
            r is None ==> final(self).particles() == old(self).particles(),
    {
        if !p.is_valid() || self.store.len() as u64 >= self.config.max_particles {
            return None;
        }
        let live = Particle { cancelled: false, ..p };
        let h = self.store.insert(live);
        self.count = self.store.len() as u64;
        self.energy = kinetic_energy(&self.store.particles);
        Some(h)
    }

    /// Number of live particles.
    pub fn live_count(&self) -> (r: u64)
        requires
            self.wf(),
        ensures
            r == self.particles().len(),
    {
        self.count
    }

    /// Sum of squared speeds over the live particles, as recomputed after
    /// the last change.
    pub fn total_kinetic_energy(&self) -> (r: u128)
        requires
            self.wf(),
        ensures
            r == kinetic_sum(self.particles()),
    {
        self.energy
    }

    /// The live particles, in store order.
    pub fn snapshot(&self) -> (r: Vec<Particle>)
        ensures
            r@ == self.particles(),
    {
        self.store.snapshot()
    }

    /// The emitters with their timers.
    pub fn emitter_states(&self) -> (r: Vec<Emitter>)
        ensures
            r@ == self.emitters(),
    {
        self.emitters.clone()
    }

    /// Number of emitters.
    pub fn emitter_count(&self) -> (r: usize)
        ensures
            r == self.emitters().len(),
    {
        self.emitters.len()
    }

    /// Advances the simulation by `dt` time quanta. `dirs` holds one spawn
    /// direction per emitter, drawn by the caller's random source.
    pub fn tick(&mut self, dt: u64, dirs: &Vec<Direction>)
        requires
            old(self).wf(),
            dt <= DT_LIMIT,
            dirs@.len() == old(self).emitters().len(),
            all_dirs_valid(dirs@),
        ensures
            final(self).wf(),
            final(self).config() == old(self).config(),
            final(self).particles() == tick_result(old(self).config(), old(self).particles(), old(self).emitters(), dt as int, dirs@),
            final(self).emitters() == advance_timers(old(self).emitters(), dt as int),
    {
        let ghost cfg = self.config;
        let ghost s_in = self.store@;
        emit_particles(
            &mut self.store,
            &mut self.emitters,
            dirs,
            self.config.max_particles,
            self.config.spawn_speed,
            dt,
        );
        match self.config.mode {
            ForceMode::Symmetric => {
                apply_forces_symmetric(&mut self.store.particles, self.config.k, self.config.cutoff, dt);
            },
            ForceMode::Snapshot => {
                let next = apply_forces_snapshot(&self.store.particles, self.config.k, self.config.cutoff, dt);
                self.store.particles = next;
            },
        }
        proof {
            lemma_emit_len(s_in, old(self).emitters@, dirs@, old(self).emitters@.len() as int, cfg.max_particles as int, cfg.spawn_speed as int, dt as int);
        }
        apply_forcefields(&mut self.store.particles, &self.config.zones, dt);
        contain_borders(&mut self.store.particles, self.config.border, self.config.border_push, dt);
        limit_speed(&mut self.store.particles, self.config.max_speed, self.config.damping);
        apply_velocities(&mut self.store.particles, dt);
        let ghost s5 = self.store@;
        resolve_annihilations(&mut self.store, self.config.deletion_radius);
        proof {
            lemma_survivors_props(mark_pass(s5, cfg.deletion_radius as int));
        }
        self.count = self.store.len() as u64;
        self.energy = kinetic_energy(&self.store.particles);
    }
}

/// Sum of squared speeds over `ps`, computed from scratch.
pub fn kinetic_energy(ps: &Vec<Particle>) -> (r: u128)
    requires
        all_wf(ps@),
        ps@.len() <= PARTICLE_LIMIT,
    ensures
        r == kinetic_sum(ps@),
{
    let n = ps.len();
    let mut sum: u128 = 0;
    let mut i: usize = 0;
    while i < n
        invariant
            n == ps@.len(),
            n <= PARTICLE_LIMIT,
            i <= n,
            all_wf(ps@),
            sum == kinetic_sum(ps@.take(i as int)),
            sum <= i * SPEED2_LIMIT,
        decreases n - i,
    {
        let p = ps[i];
        assert(p.wf());
        assert(p.vel.x * p.vel.x <= 1208925819614629174706176) by (nonlinear_arith)
            requires -1099511627776 <= p.vel.x <= 1099511627776;
        assert(p.vel.y * p.vel.y <= 1208925819614629174706176) by (nonlinear_arith)
            requires -1099511627776 <= p.vel.y <= 1099511627776;
        assert(p.vel.x * p.vel.x >= 0 && p.vel.y * p.vel.y >= 0) by (nonlinear_arith);
        let vx = p.vel.x as i128;
        let vy = p.vel.y as i128;
        let term = (vx * vx + vy * vy) as u128;
        proof {
            assert(ps@.take(i as int + 1).drop_last() =~= ps@.take(i as int));
            assert(i * SPEED2_LIMIT + SPEED2_LIMIT <= 65536 * SPEED2_LIMIT) by (nonlinear_arith)
                requires i < 65536;
        }
        sum = sum + term;
        i += 1;
    }
    proof {
        assert(ps@.take(n as int) =~= ps@);
    }
    sum
}

} // verus!
