use particle_sim::annihilation::resolve_annihilations;
use particle_sim::config::{Config, ConfigError, ForceMode, Forcefield};
use particle_sim::emitter::{emit_particles, Direction, Emitter};
use particle_sim::fixed::{ceil_sqrt, div_toward_zero, saturate, POS_LIMIT, VEL_LIMIT};
use particle_sim::forces::{apply_forces_snapshot, apply_forces_symmetric, pair_impulse_exec};
use particle_sim::motion::{apply_forcefields, apply_velocities, contain_borders, limit_speed};
use particle_sim::particle::{Particle, ParticleStore, Position, Velocity};
use particle_sim::sim::{kinetic_energy, Simulation};

fn base_config(mode: ForceMode) -> Config {
    Config {
        max_particles: 100,
        k: 1_000_000,
        cutoff: 500,
        deletion_radius: 10,
        border: 5000,
        border_push: 1,
        max_speed: 1000,
        spawn_speed: 250,
        damping: 999_000,
        mode,
        zones: Vec::new(),
    }
}

fn particle(x: i64, y: i64, vx: i64, vy: i64, charge: i64) -> Particle {
    Particle::new(Position { x, y }, Velocity { x: vx, y: vy }, charge)
}

fn fresh_sum(ps: &[Particle]) -> u128 {
    ps.iter()
        .map(|p| (p.vel.x as i128 * p.vel.x as i128 + p.vel.y as i128 * p.vel.y as i128) as u128)
        .sum()
}

#[test]
fn opposite_charges_within_radius_annihilate() {
    let mut cfg = base_config(ForceMode::Symmetric);
    cfg.k = 1;
    let mut sim = Simulation::new(cfg, Vec::new()).unwrap();
    assert_eq!(sim.spawn(particle(0, 0, 0, 0, 1)), Some(0));
    assert_eq!(sim.spawn(particle(5, 0, 0, 0, -1)), Some(1));
    assert_eq!(sim.live_count(), 2);
    sim.tick(1, &Vec::new());
    assert_eq!(sim.live_count(), 0);
    assert!(sim.snapshot().is_empty());
}

#[test]
fn like_charges_do_not_annihilate() {
    let mut cfg = base_config(ForceMode::Symmetric);
    cfg.k = 1;
    let mut sim = Simulation::new(cfg, Vec::new()).unwrap();
    sim.spawn(particle(0, 0, 0, 0, 1));
    sim.spawn(particle(5, 0, 0, 0, 1));
    sim.tick(1, &Vec::new());
    assert_eq!(sim.live_count(), 2);
}

#[test]
fn like_charges_repel() {
    let a = particle(0, 0, 0, 0, 1);
    let b = particle(100, 0, 0, 0, 1);
    let (ix, iy) = pair_impulse_exec(&a, &b, 1_000_000, 500, 1);
    assert_eq!((ix, iy), (-100, 0));
    let (jx, jy) = pair_impulse_exec(&b, &a, 1_000_000, 500, 1);
    assert_eq!((jx, jy), (100, 0));
    let mut ps = vec![a, b];
    apply_forces_symmetric(&mut ps, 1_000_000, 500, 1);
    assert_eq!(ps[0].vel, Velocity { x: -100, y: 0 });
    assert_eq!(ps[1].vel, Velocity { x: 100, y: 0 });
}

#[test]
fn opposite_charges_attract() {
    let a = particle(0, 0, 0, 0, 1);
    let b = particle(0, 100, 0, 0, -1);
    let (ix, iy) = pair_impulse_exec(&a, &b, 1_000_000, 500, 2);
    assert_eq!((ix, iy), (0, 200));
}

#[test]
fn diagonal_impulse_rounds_distance_up() {
    // distance sqrt(2) * 100 = 141.42.. rounds up to 142
    let a = particle(100, 100, 0, 0, 1);
    let b = particle(0, 0, 0, 0, 1);
    let (ix, iy) = pair_impulse_exec(&a, &b, 1_000_000, 500, 1);
    // 1e6 * 100 / (20000 * 142) = 35.2..
    assert_eq!((ix, iy), (35, 35));
}

#[test]
fn pairs_beyond_cutoff_exchange_nothing() {
    let a = particle(0, 0, 3, 4, 1);
    let b = particle(501, 0, -7, 2, 1);
    assert_eq!(pair_impulse_exec(&a, &b, 1_000_000, 500, 10), (0, 0));
    let mut ps = vec![a, b];
    apply_forces_symmetric(&mut ps, 1_000_000, 500, 10);
    assert_eq!(ps, vec![a, b]);
    let snap = apply_forces_snapshot(&vec![a, b], 1_000_000, 500, 10);
    assert_eq!(snap, vec![a, b]);
}

#[test]
fn coincident_pair_gives_no_impulse() {
    let a = particle(7, 7, 0, 0, 1);
    assert_eq!(pair_impulse_exec(&a, &a, 1_000_000, 500, 1), (0, 0));
}

#[test]
fn neutral_particle_feels_no_force() {
    let ps = vec![
        particle(0, 0, 5, -5, 0),
        particle(30, 0, 0, 0, 1),
        particle(0, 40, 0, 0, -1),
        particle(-20, -20, 0, 0, 1),
    ];
    let mut sym = ps.clone();
    apply_forces_symmetric(&mut sym, 1_000_000, 500, 3);
    assert_eq!(sym[0], ps[0]);
    let snap = apply_forces_snapshot(&ps, 1_000_000, 500, 3);
    assert_eq!(snap[0], ps[0]);
    assert_ne!(snap[1].vel, ps[1].vel);
}

#[test]
fn modes_agree_without_saturation() {
    let ps = vec![particle(0, 0, 0, 0, 1), particle(60, 80, 0, 0, 1), particle(-50, 20, 0, 0, -1)];
    let mut sym = ps.clone();
    apply_forces_symmetric(&mut sym, 1_000_000, 500, 1);
    let snap = apply_forces_snapshot(&ps, 1_000_000, 500, 1);
    assert_eq!(sym, snap);
}

#[test]
fn velocity_saturates_at_limit() {
    let a = particle(0, 0, VEL_LIMIT - 1, 0, 1);
    let b = particle(-1, 0, 0, 0, 1);
    let mut ps = vec![a, b];
    apply_forces_symmetric(&mut ps, 1_000_000, 500, 1);
    assert_eq!(ps[0].vel.x, VEL_LIMIT);
    assert_eq!(ps[1].vel.x, -1_000_000);
}

#[test]
fn speed_never_exceeds_maximum() {
    let mut ps = vec![
        particle(0, 0, VEL_LIMIT, VEL_LIMIT, 1),
        particle(0, 0, -3000, 4000, 1),
        particle(0, 0, 1, -VEL_LIMIT, 1),
        particle(0, 0, 600, 800, 1),
    ];
    limit_speed(&mut ps, 1000, 999_000);
    for p in &ps {
        let s2 = p.vel.x as i128 * p.vel.x as i128 + p.vel.y as i128 * p.vel.y as i128;
        assert!(s2 <= 1000 * 1000);
    }
    // 5000 scaled to 1000: (-600, 800), then damped with rounding up: (-600, 800)
    assert_eq!(ps[1].vel, Velocity { x: -600, y: 800 });
    // exactly at the maximum: only damping applies
    assert_eq!(ps[3].vel, Velocity { x: 600, y: 800 });
}

#[test]
fn damping_reduces_speed() {
    let mut ps = vec![particle(0, 0, 1000, -10000, 1)];
    limit_speed(&mut ps, 1_000_000, 500_000);
    assert_eq!(ps[0].vel, Velocity { x: 500, y: -5000 });
    let mut odd = vec![particle(0, 0, 3, -3, 1)];
    limit_speed(&mut odd, 1_000_000, 500_000);
    assert_eq!(odd[0].vel, Velocity { x: 2, y: -2 });
}

#[test]
fn border_turns_velocity_inward() {
    let mut ps = vec![
        particle(5001, 0, 10, 3, 1),
        particle(-5001, 5002, -10, 7, 1),
        particle(100, -100, 10, -10, 1),
    ];
    contain_borders(&mut ps, 5000, 2, 5);
    assert_eq!(ps[0].vel, Velocity { x: -20, y: 3 });
    assert_eq!(ps[1].vel, Velocity { x: 20, y: -17 });
    assert_eq!(ps[2].vel, Velocity { x: 10, y: -10 });
}

#[test]
fn forcefields_add_inside_inclusive_bounds() {
    let zones = vec![
        Forcefield { min_x: -500, min_y: -500, max_x: 500, max_y: 500, force_x: 500, force_y: 0 },
        Forcefield { min_x: 0, min_y: 0, max_x: 10, max_y: 10, force_x: 0, force_y: -3 },
    ];
    let mut ps = vec![particle(500, 500, 0, 0, 1), particle(5, 5, 1, 1, -1), particle(501, 0, 0, 0, 1)];
    apply_forcefields(&mut ps, &zones, 2);
    assert_eq!(ps[0].vel, Velocity { x: 1000, y: 0 });
    assert_eq!(ps[1].vel, Velocity { x: 1001, y: -5 });
    assert_eq!(ps[2].vel, Velocity { x: 0, y: 0 });
}

#[test]
fn integration_moves_by_velocity_times_dt() {
    let mut ps = vec![particle(10, -10, 3, -4, 1), particle(POS_LIMIT - 1, 0, 1000, 0, 1)];
    apply_velocities(&mut ps, 16);
    assert_eq!(ps[0].pos, Position { x: 58, y: -74 });
    assert_eq!(ps[1].pos, Position { x: POS_LIMIT, y: 0 });
}

#[test]
fn annihilation_marks_every_close_opposite_pair() {
    let mut store = ParticleStore::new();
    store.insert(particle(0, 0, 0, 0, 1));
    store.insert(particle(3, 4, 0, 0, -1));
    store.insert(particle(6, 8, 0, 0, 1));
    store.insert(particle(100, 100, 0, 0, -1));
    let removed = resolve_annihilations(&mut store, 10);
    assert_eq!(removed, 3);
    assert_eq!(store.snapshot(), vec![particle(100, 100, 0, 0, -1)]);
}

#[test]
fn annihilation_radius_is_exclusive() {
    let mut store = ParticleStore::new();
    store.insert(particle(0, 0, 0, 0, 1));
    store.insert(particle(10, 0, 0, 0, -1));
    assert_eq!(resolve_annihilations(&mut store, 10), 0);
    assert_eq!(store.len(), 2);
}

#[test]
fn store_compacts_marked_records() {
    let mut store = ParticleStore::new();
    let a = store.insert(particle(1, 0, 0, 0, 1));
    let b = store.insert(particle(2, 0, 0, 0, 1));
    let c = store.insert(particle(3, 0, 0, 0, 1));
    assert_eq!((a, b, c), (0, 1, 2));
    store.mark_dead(b);
    store.mark_dead(b);
    assert!(store.get(b).cancelled);
    assert_eq!(store.compact(), 1);
    assert_eq!(store.snapshot(), vec![particle(1, 0, 0, 0, 1), particle(3, 0, 0, 0, 1)]);
    assert_eq!(store.compact(), 0);
}

#[test]
fn emitter_count_reaches_cap() {
    let mut cfg = base_config(ForceMode::Symmetric);
    cfg.max_particles = 3;
    let em = Emitter::new(Position { x: 0, y: 0 }, 1, 1);
    let mut sim = Simulation::new(cfg, vec![em]).unwrap();
    let dirs = vec![Direction { x: 65536, y: 0 }];
    for n in 1..=6u64 {
        sim.tick(1, &dirs);
        assert_eq!(sim.live_count(), n.min(3));
    }
}

#[test]
fn emitter_fires_on_its_period() {
    let mut store = ParticleStore::new();
    let mut ems = vec![
        Emitter::new(Position { x: 10, y: 20 }, -1, 3),
        Emitter::new(Position { x: -5, y: 0 }, 1, 2),
    ];
    let dirs = vec![Direction { x: 0, y: -65536 }, Direction { x: 32768, y: 32768 }];
    assert_eq!(emit_particles(&mut store, &mut ems, &dirs, 10, 250, 2), 1);
    assert_eq!(store.snapshot(), vec![particle(-5, 0, 125, 125, 1)]);
    assert_eq!((ems[0].elapsed, ems[1].elapsed), (2, 0));
    assert_eq!(emit_particles(&mut store, &mut ems, &dirs, 10, 250, 2), 2);
    assert_eq!(store.get(1), particle(10, 20, 0, -250, -1));
    assert_eq!((ems[0].elapsed, ems[1].elapsed), (1, 0));
}

#[test]
fn emission_skips_when_full() {
    let mut store = ParticleStore::new();
    let mut ems = vec![Emitter::new(Position { x: 0, y: 0 }, 1, 1), Emitter::new(Position { x: 1, y: 1 }, 1, 1)];
    let dirs = vec![Direction { x: 65536, y: 0 }, Direction { x: 65536, y: 0 }];
    assert_eq!(emit_particles(&mut store, &mut ems, &dirs, 1, 250, 1), 1);
    assert_eq!(emit_particles(&mut store, &mut ems, &dirs, 1, 250, 1), 0);
    assert_eq!(store.len(), 1);
}

#[test]
fn kinetic_energy_matches_fresh_sum() {
    let em_a = Emitter::new(Position { x: 0, y: 0 }, 1, 2);
    let em_b = Emitter::new(Position { x: 40, y: 0 }, -1, 3);
    let mut sim = Simulation::new(base_config(ForceMode::Snapshot), vec![em_a, em_b]).unwrap();
    sim.spawn(particle(20, 0, 30, -40, -1));
    assert_eq!(sim.total_kinetic_energy(), 2500);
    let dirs = vec![Direction { x: 65536, y: 0 }, Direction { x: -65536, y: 0 }];
    for _ in 0..12 {
        sim.tick(1, &dirs);
        let ps = sim.snapshot();
        assert_eq!(sim.total_kinetic_energy(), fresh_sum(&ps));
        assert_eq!(sim.total_kinetic_energy(), kinetic_energy(&ps));
        assert_eq!(sim.live_count() as usize, ps.len());
    }
}

#[test]
fn lone_particle_stays_at_rest() {
    for mode in [ForceMode::Symmetric, ForceMode::Snapshot] {
        let mut cfg = base_config(mode);
        cfg.zones = vec![Forcefield { min_x: 100, min_y: 100, max_x: 200, max_y: 200, force_x: 5, force_y: 5 }];
        let mut sim = Simulation::new(cfg, Vec::new()).unwrap();
        sim.spawn(particle(17, -23, 0, 0, 1));
        for _ in 0..20 {
            sim.tick(16, &Vec::new());
        }
        assert_eq!(sim.snapshot(), vec![particle(17, -23, 0, 0, 1)]);
        assert_eq!(sim.total_kinetic_energy(), 0);
    }
}

#[test]
fn escaped_particle_returns() {
    let cfg = base_config(ForceMode::Symmetric);
    let mut sim = Simulation::new(cfg, Vec::new()).unwrap();
    sim.spawn(particle(5010, 0, 700, 0, 1));
    let mut back = None;
    for t in 1..=10u32 {
        sim.tick(1, &Vec::new());
        if sim.snapshot()[0].pos.x <= 5000 {
            back = Some(t);
            break;
        }
    }
    assert_eq!(back, Some(1));
    assert!(sim.snapshot()[0].vel.x < 0);
}

#[test]
fn config_errors_are_reported() {
    let mut c = base_config(ForceMode::Symmetric);
    c.max_particles = 1_000_000;
    assert_eq!(c.check(), Err(ConfigError::ParticleLimit));
    let mut c = base_config(ForceMode::Symmetric);
    c.cutoff = -1;
    assert_eq!(c.check(), Err(ConfigError::ConstantRange));
    let mut c = base_config(ForceMode::Symmetric);
    c.damping = 1_000_000;
    assert_eq!(c.check(), Err(ConfigError::Damping));
    let mut c = base_config(ForceMode::Symmetric);
    c.zones = vec![Forcefield { min_x: 1, min_y: 0, max_x: 0, max_y: 0, force_x: 0, force_y: 0 }];
    assert_eq!(c.check(), Err(ConfigError::MalformedZone));
    let mut c = base_config(ForceMode::Symmetric);
    c.zones = vec![Forcefield { min_x: 0, min_y: 0, max_x: 1, max_y: 1, force_x: 1 << 30, force_y: 0 }];
    assert_eq!(c.check(), Err(ConfigError::ZoneForce));
    assert_eq!(base_config(ForceMode::Symmetric).check(), Ok(()));
    let bad_period = Emitter::new(Position { x: 0, y: 0 }, 1, 0);
    assert_eq!(
        Simulation::new(base_config(ForceMode::Symmetric), vec![bad_period]).err(),
        Some(ConfigError::EmitterPeriod)
    );
    let far = Emitter::new(Position { x: POS_LIMIT + 1, y: 0 }, 1, 5);
    assert_eq!(
        Simulation::new(base_config(ForceMode::Symmetric), vec![far]).err(),
        Some(ConfigError::EmitterPlacement)
    );
}

#[test]
fn spawn_respects_cap_and_ranges() {
    let mut cfg = base_config(ForceMode::Symmetric);
    cfg.max_particles = 1;
    let mut sim = Simulation::new(cfg, Vec::new()).unwrap();
    assert_eq!(sim.spawn(particle(0, 0, VEL_LIMIT + 1, 0, 1)), None);
    assert_eq!(sim.spawn(particle(0, 0, 3, 4, 1)), Some(0));
    assert_eq!(sim.spawn(particle(1, 1, 0, 0, 1)), None);
    assert_eq!(sim.total_kinetic_energy(), 25);
}

#[test]
fn arithmetic_helpers() {
    assert_eq!(ceil_sqrt(0), 0);
    assert_eq!(ceil_sqrt(1), 1);
    assert_eq!(ceil_sqrt(2), 2);
    assert_eq!(ceil_sqrt(16), 4);
    assert_eq!(ceil_sqrt(17), 5);
    assert_eq!(div_toward_zero(-7, 2), -3);
    assert_eq!(div_toward_zero(7, 2), 3);
    assert_eq!(saturate(-10, 5), -5);
    assert_eq!(saturate(3, 5), 3);
}

#[test]
fn snapshot_is_the_default_mode() {
    assert_eq!(ForceMode::default(), ForceMode::Snapshot);
}
