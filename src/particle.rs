//! Particle records and the store that owns them.
use vstd::prelude::*;
use crate::fixed::{abs, POS_LIMIT, VEL_LIMIT};

verus! {

/// Largest magnitude of a particle's charge.
pub const CHARGE_LIMIT: i64 = 256;

#[derive(Clone, Copy, Debug, PartialEq, Eq, Structural)]
pub struct Position {
    pub x: i64,
    pub y: i64,
}

#[derive(Clone, Copy, Debug, PartialEq, Eq, Structural)]
pub struct Velocity {
    pub x: i64,
    pub y: i64,
}

/// One charged point particle; `cancelled` marks it for removal.
#[derive(Clone, Copy, Debug, PartialEq, Eq, Structural)]
pub struct Particle {
    pub pos: Position,
    pub vel: Velocity,
    pub charge: i64,
    pub cancelled: bool,
}

impl Particle {
    /// Every field lies within the ranges the arithmetic of a tick is sized for.
    pub open spec fn wf(self) -> bool {
        &&& abs(self.pos.x as int) <= POS_LIMIT
        &&& abs(self.pos.y as int) <= POS_LIMIT
        &&& abs(self.vel.x as int) <= VEL_LIMIT
        &&& abs(self.vel.y as int) <= VEL_LIMIT
        &&& abs(self.charge as int) <= CHARGE_LIMIT
    }

    /// A live particle at `pos` moving with `vel`.
    pub fn new(pos: Position, vel: Velocity, charge: i64) -> (r: Particle)
        ensures
            r == (Particle { pos, vel, charge, cancelled: false }),
    {
        Particle { pos, vel, charge, cancelled: false }
    }

    /// Whether every field lies within the supported ranges.
    pub fn is_valid(&self) -> (r: bool)
        ensures
            r == self.wf(),
    {
        -POS_LIMIT <= self.pos.x && self.pos.x <= POS_LIMIT && -POS_LIMIT <= self.pos.y
            && self.pos.y <= POS_LIMIT && -VEL_LIMIT <= self.vel.x && self.vel.x <= VEL_LIMIT
            && -VEL_LIMIT <= self.vel.y && self.vel.y <= VEL_LIMIT && -CHARGE_LIMIT <= self.charge
            && self.charge <= CHARGE_LIMIT
    }

    /// The particle with its velocity replaced.
    pub open spec fn with_vel(self, vx: int, vy: int) -> Particle {
        Particle { vel: Velocity { x: vx as i64, y: vy as i64 }, ..self }
    }

    /// The particle with its position replaced.
    pub open spec fn with_pos(self, x: int, y: int) -> Particle {
        Particle { pos: Position { x: x as i64, y: y as i64 }, ..self }
    }
}

/// Every particle of `s` is well formed.
pub open spec fn all_wf(s: Seq<Particle>) -> bool {
    forall|i: int| 0 <= i < s.len() ==> #[trigger] s[i].wf()
}

/// Every particle of `s` is live.
pub open spec fn none_cancelled(s: Seq<Particle>) -> bool {
    forall|i: int| 0 <= i < s.len() ==> !(#[trigger] s[i]).cancelled
}

/// The particles of `s` that are not marked, in their order.
pub open spec fn survivors(s: Seq<Particle>) -> Seq<Particle>
    decreases s.len(),
{
    if s.len() == 0 {
        s
    } else {
        let rest = survivors(s.drop_last());
        if s.last().cancelled {
            rest
        } else {
            rest.push(s.last())
        }
    }
}

/// Sum of squared speeds over `s`.
pub open spec fn kinetic_sum(s: Seq<Particle>) -> int
    decreases s.len(),
{
    if s.len() == 0 {
        0
    } else {
        kinetic_sum(s.drop_last()) + s.last().vel.x * s.last().vel.x + s.last().vel.y
            * s.last().vel.y
    }
}

pub proof fn lemma_survivors_props(s: Seq<Particle>)
    ensures
        survivors(s).len() <= s.len(),
        none_cancelled(survivors(s)),
        all_wf(s) ==> all_wf(survivors(s)),
        none_cancelled(s) ==> survivors(s) == s,
    decreases s.len(),
{
    if s.len() > 0 {
        lemma_survivors_props(s.drop_last());
        if none_cancelled(s) {
            assert(none_cancelled(s.drop_last()));
            assert(s.drop_last().push(s.last()) =~= s);
        }
    }
}

/// The particles of a simulation, addressed by index handles.
///
/// A handle is the index of a record; `compact` invalidates all of them.
pub struct ParticleStore {
    pub particles: Vec<Particle>,
}

impl View for ParticleStore {
    type V = Seq<Particle>;

    open spec fn view(&self) -> Seq<Particle> {
        self.particles@
    }
}

impl ParticleStore {
    pub open spec fn wf(&self) -> bool {
        all_wf(self@)
    }

    pub fn new() -> (r: ParticleStore)
        ensures
            r@ == Seq::<Particle>::empty(),
            r.wf(),
    {
        ParticleStore { particles: Vec::new() }
    }

    /// A store holding `particles`, in their order.
    pub fn from_vec(particles: Vec<Particle>) -> (r: ParticleStore)
        ensures
            r@ == particles@,
    {
        ParticleStore { particles }
    }

    pub fn len(&self) -> (r: usize)
        ensures
            r == self@.len(),
    {
        self.particles.len()
    }

    /// The record behind handle `h`.
    pub fn get(&self, h: usize) -> (r: Particle)
        requires
            h < self@.len(),
        ensures
            r == self@[h as int],
    {
        self.particles[h]
    }

    /// Adds `p` at the end and returns its handle.
    pub fn insert(&mut self, p: Particle) -> (h: usize)
        ensures
            final(self)@ == old(self)@.push(p),
            h == old(self)@.len(),
    {
        let h = self.particles.len();
        self.particles.push(p);
        h
    }

    /// Marks the record behind `h` for removal; marking it twice changes nothing.
    pub fn mark_dead(&mut self, h: usize)
        requires
            h < old(self)@.len(),
        ensures
            final(self)@ == old(self)@.update(h as int, Particle { cancelled: true, ..old(self)@[h as int] }),
    {
        let mut p = self.particles[h];
        p.cancelled = true;
        self.particles.set(h, p);
    }

    /// Removes every marked record, keeping the order of the rest, and returns
    /// how many were removed.
    pub fn compact(&mut self) -> (removed: usize)
        ensures
            final(self)@ == survivors(old(self)@),
            removed == old(self)@.len() - survivors(old(self)@).len(),
            old(self).wf() ==> final(self).wf(),
    {
        let mut kept: Vec<Particle> = Vec::new();
        let n = self.particles.len();
        let mut i: usize = 0;
        while i < n
            invariant
                n == self.particles@.len(),
                i <= n,
                kept@ == survivors(self.particles@.take(i as int)),
            decreases n - i,
        {
            let p = self.particles[i];
            proof {
                assert(self.particles@.take(i as int + 1).drop_last() =~= self.particles@.take(i as int));
            }
            if !p.cancelled {
                kept.push(p);
            }
            i += 1;
        }
        proof {
            assert(self.particles@.take(n as int) =~= self.particles@);
            lemma_survivors_props(self.particles@);
        }
        let removed = n - kept.len();
        self.particles = kept;
        removed
    }

    /// The live records, in store order.
    pub fn snapshot(&self) -> (r: Vec<Particle>)
        ensures
            r@ == self@,
    {
        self.particles.clone()
    }
}

} // verus!
