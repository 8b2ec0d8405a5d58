//! The static configuration of a simulation.
use vstd::prelude::*;

verus! {

/// Largest accepted maximum particle count.
pub const PARTICLE_LIMIT: u64 = 65536;

/// Largest accepted force constant.
pub const K_LIMIT: i64 = 1099511627776;

/// Largest accepted interaction cutoff or deletion radius.
pub const RANGE_LIMIT: i64 = 1073741824;

/// Largest accepted border distance.
pub const BORDER_LIMIT: i64 = 274877906944;

/// Largest accepted maximum speed, border push, spawn speed component and
/// forcefield force component.
pub const SPEED_LIMIT: i64 = 1048576;

/// Largest accepted time step.
pub const DT_LIMIT: u64 = 65536;

/// Denominator of the damping coefficient: velocities are multiplied by
/// `damping / DAMPING_SCALE` each tick.
pub const DAMPING_SCALE: i64 = 1000000;

/// How pairwise forces are accumulated.
#[derive(Clone, Copy, Debug, PartialEq, Eq, Structural)]
pub enum ForceMode {
    /// Each unordered pair updates both velocities with opposite impulses in
    /// one sequential pass.
    Symmetric,
    /// Each particle sums the impulses from every other particle, reading a
    /// snapshot of the store and writing only its own velocity.
    Snapshot,
}

/// The default is `Snapshot`, whose per-particle work is independent and so
/// may be spread over workers; `Symmetric` is the exactly
/// momentum-exchanging alternative.
impl Default for ForceMode {
    fn default() -> (r: ForceMode)
        ensures
            r == ForceMode::Snapshot,
    {
        ForceMode::Snapshot
    }
}

/// An axis-aligned rectangle (bounds inclusive) that adds a uniform force to
/// every particle inside it.
#[derive(Clone, Copy, Debug, PartialEq, Eq, Structural)]
pub struct Forcefield {
    pub min_x: i64,
    pub min_y: i64,
    pub max_x: i64,
    pub max_y: i64,
    pub force_x: i64,
    pub force_y: i64,
}

impl Forcefield {
    pub open spec fn bounds_ok(self) -> bool {
        self.min_x <= self.max_x && self.min_y <= self.max_y
    }

    pub open spec fn force_ok(self) -> bool {
        -SPEED_LIMIT <= self.force_x <= SPEED_LIMIT && -SPEED_LIMIT <= self.force_y <= SPEED_LIMIT
    }

    pub open spec fn valid(self) -> bool {
        self.bounds_ok() && self.force_ok()
    }
}

/// The tunable constants of a simulation.
#[derive(Clone, Debug)]
pub struct Config {
    pub max_particles: u64,
    /// Force constant `K` of the pairwise law.
    pub k: i64,
    /// Pairs farther apart than this exert no force.
    pub cutoff: i64,
    /// Opposite charges closer than this annihilate.
    pub deletion_radius: i64,
    /// Half the side of the square arena centred on the origin.
    pub border: i64,
    /// Inward velocity added per time quantum to a particle beyond the border.
    pub border_push: i64,
    pub max_speed: i64,
    /// Speed of a newly spawned particle.
    pub spawn_speed: i64,
    /// Damping coefficient, in millionths; strictly between 0 and 1.
    pub damping: i64,
    pub mode: ForceMode,
    pub zones: Vec<Forcefield>,
}

/// Why a configuration was rejected.
#[derive(Clone, Copy, Debug, PartialEq, Eq, Structural)]
pub enum ConfigError {
    /// The maximum particle count exceeds `PARTICLE_LIMIT`.
    ParticleLimit,
    /// A constant lies outside its supported range.
    ConstantRange,
    /// The damping coefficient is not strictly between 0 and 1.
    Damping,
    /// A zone has a minimum corner beyond its maximum corner.
    MalformedZone,
    /// A zone's force lies outside its supported range.
    ZoneForce,
    /// An emitter has a zero period.
    EmitterPeriod,
    /// An emitter lies outside the arena or has a charge out of range.
    EmitterPlacement,
}

impl Config {
    pub open spec fn constants_ok(&self) -> bool {
        &&& 0 <= self.k <= K_LIMIT
        &&& 0 <= self.cutoff <= RANGE_LIMIT
        &&& 0 <= self.deletion_radius <= RANGE_LIMIT
        &&& 0 <= self.border <= BORDER_LIMIT
        &&& 0 <= self.border_push <= SPEED_LIMIT
        &&& 0 <= self.max_speed <= SPEED_LIMIT
        &&& 0 <= self.spawn_speed <= SPEED_LIMIT
    }

    pub open spec fn damping_ok(&self) -> bool {
        0 < self.damping < DAMPING_SCALE
    }

    pub open spec fn valid(&self) -> bool {
        &&& self.max_particles <= PARTICLE_LIMIT
        &&& self.constants_ok()
        &&& self.damping_ok()
        &&& forall|i: int| 0 <= i < self.zones@.len() ==> (#[trigger] self.zones@[i]).valid()
    }

    /// The first problem with the configuration's own fields, if any.
    pub open spec fn own_error(&self) -> Option<ConfigError> {
        if self.max_particles > PARTICLE_LIMIT {
            Some(ConfigError::ParticleLimit)
        } else if !self.constants_ok() {
            Some(ConfigError::ConstantRange)
        } else if !self.damping_ok() {
            Some(ConfigError::Damping)
        } else if exists|i: int| 0 <= i < self.zones@.len() && !(#[trigger] self.zones@[i]).bounds_ok() {
            Some(ConfigError::MalformedZone)
        } else if exists|i: int| 0 <= i < self.zones@.len() && !(#[trigger] self.zones@[i]).force_ok() {
            Some(ConfigError::ZoneForce)
        } else {
            None
        }
    }

    /// Checks the configuration's own fields.
    pub fn check(&self) -> (r: Result<(), ConfigError>)
        ensures
            r is Ok <==> self.own_error() is None,
            r is Ok ==> self.valid(),
            r matches Err(e) ==> self.own_error() == Some(e),
    {
        if self.max_particles > PARTICLE_LIMIT {
            return Err(ConfigError::ParticleLimit);
        }
        if !(0 <= self.k && self.k <= K_LIMIT && 0 <= self.cutoff && self.cutoff <= RANGE_LIMIT
            && 0 <= self.deletion_radius && self.deletion_radius <= RANGE_LIMIT && 0 <= self.border
            && self.border <= BORDER_LIMIT && 0 <= self.border_push && self.border_push
            <= SPEED_LIMIT && 0 <= self.max_speed && self.max_speed <= SPEED_LIMIT
            && 0 <= self.spawn_speed && self.spawn_speed <= SPEED_LIMIT) {
            return Err(ConfigError::ConstantRange);
        }
        if !(0 < self.damping && self.damping < DAMPING_SCALE) {
            return Err(ConfigError::Damping);
        }
        let n = self.zones.len();
        let mut i: usize = 0;
        while i < n
            invariant
                n == self.zones@.len(),
                i <= n,
                self.max_particles <= PARTICLE_LIMIT,
                self.constants_ok(),
                self.damping_ok(),
                forall|j: int| 0 <= j < i ==> (#[trigger] self.zones@[j]).bounds_ok(),
            decreases n - i,
        {
            let z = self.zones[i];
            if !(z.min_x <= z.max_x && z.min_y <= z.max_y) {
                assert(!self.zones@[i as int].bounds_ok());
                assert(exists|j: int| 0 <= j < self.zones@.len() && !(#[trigger] self.zones@[j]).bounds_ok());
                return Err(ConfigError::MalformedZone);
            }
            i += 1;
        }
        let mut i: usize = 0;
        while i < n
            invariant
                n == self.zones@.len(),
                i <= n,
                self.max_particles <= PARTICLE_LIMIT,
                self.constants_ok(),
                self.damping_ok(),
                forall|j: int| 0 <= j < n ==> (#[trigger] self.zones@[j]).bounds_ok(),
                forall|j: int| 0 <= j < i ==> (#[trigger] self.zones@[j]).force_ok(),
            decreases n - i,
        {
            let z = self.zones[i];
            if !(-SPEED_LIMIT <= z.force_x && z.force_x <= SPEED_LIMIT && -SPEED_LIMIT <= z.force_y
                && z.force_y <= SPEED_LIMIT) {
                assert(!self.zones@[i as int].force_ok());
                assert(exists|j: int| 0 <= j < self.zones@.len() && !(#[trigger] self.zones@[j]).force_ok());
                return Err(ConfigError::ZoneForce);
            }
            i += 1;
        }
        Ok(())
    }
}

} // verus!
