//! Mutual removal of opposite charges that come too close.
use vstd::prelude::*;
use crate::config::RANGE_LIMIT;
use crate::forces::dist2;
use crate::particle::{all_wf, lemma_survivors_props, survivors, Particle, ParticleStore};

verus! {

/// `a` and `b` have opposite charges and lie closer than `radius`.
pub open spec fn annihilates(a: Particle, b: Particle, radius: int) -> bool {
    a.charge * b.charge < 0 && dist2(a, b) < radius * radius
}

/// Some other particle of `s` annihilates with particle `i`.
pub open spec fn doomed(s: Seq<Particle>, i: int, radius: int) -> bool {
    exists|j: int| 0 <= j < s.len() && j != i && annihilates(s[i], #[trigger] s[j], radius)
}

/// Every doomed particle marked; the others unchanged.
pub open spec fn mark_pass(s: Seq<Particle>, radius: int) -> Seq<Particle> {
    Seq::new(
        s.len(),
        |i: int|
            if doomed(s, i, radius) {
                Particle { cancelled: true, ..s[i] }
            } else {
                s[i]
            },
    )
}

/// The particles of `s` that survive annihilation, in order.
pub open spec fn annihilate(s: Seq<Particle>, radius: int) -> Seq<Particle> {
    survivors(mark_pass(s, radius))
}

fn annihilates_exec(a: &Particle, b: &Particle, radius: i64) -> (r: bool)
    requires
        a.wf(),
        b.wf(),
        0 <= radius <= RANGE_LIMIT,
    ensures
        r == annihilates(*a, *b, radius as int),
{
    assert(a.charge * b.charge <= 65536 && a.charge * b.charge >= -65536) by (nonlinear_arith)
        requires -256 <= a.charge <= 256, -256 <= b.charge <= 256;
    if (a.charge as i64) * (b.charge as i64) >= 0 {
        return false;
    }
    let dx: i128 = a.pos.x as i128 - b.pos.x as i128;
    let dy: i128 = a.pos.y as i128 - b.pos.y as i128;
    assert(dx * dx <= 4835703278458516698824704) by (nonlinear_arith)
        requires -2199023255552 <= dx <= 2199023255552;
    assert(dy * dy <= 4835703278458516698824704) by (nonlinear_arith)
        requires -2199023255552 <= dy <= 2199023255552;
    assert(dx * dx >= 0 && dy * dy >= 0) by (nonlinear_arith);
    assert(radius * radius <= 1152921504606846976) by (nonlinear_arith)
        requires 0 <= radius <= 1073741824;
    dx * dx + dy * dy < (radius as i128) * (radius as i128)
}

/// Marks both particles of every pair of opposite charges closer than
/// `radius`, then compacts the store once; returns how many were removed.
pub fn resolve_annihilations(store: &mut ParticleStore, radius: i64) -> (removed: usize)
    requires
        all_wf(old(store)@),
        0 <= radius <= RANGE_LIMIT,
    ensures
        final(store)@ == annihilate(old(store)@, radius as int),
        removed == old(store)@.len() - final(store)@.len(),
        all_wf(final(store)@),
{
    let ghost orig = store@;
    let n = store.len();
    let mut flags: Vec<bool> = Vec::new();
    let mut i: usize = 0;
    while i < n
        invariant
            n == store@.len(),
            store@ == orig,
            i <= n,
            all_wf(orig),
            0 <= radius <= RANGE_LIMIT,
            flags@.len() == i,
            forall|t: int| 0 <= t < i ==> #[trigger] flags@[t] == doomed(orig, t, radius as int),
        decreases n - i,
    {
        let a = store.get(i);
        let mut hit = false;
        let mut j: usize = 0;
        while j < n
            invariant
                n == store@.len(),
                store@ == orig,
                i < n,
                j <= n,
                a == orig[i as int],
                all_wf(orig),
                0 <= radius <= RANGE_LIMIT,
                hit <==> exists|t: int| 0 <= t < j && t != i && annihilates(orig[i as int], #[trigger] orig[t], radius as int),
            decreases n - j,
        {
            if j != i {
                let b = store.get(j);
                if annihilates_exec(&a, &b, radius) {
                    hit = true;
                }
            }
            j += 1;
        }
        flags.push(hit);
        i += 1;
    }
    let mut h: usize = 0;
    while h < n
        invariant
            n == store@.len(),
            n == orig.len(),
            h <= n,
            flags@.len() == n,
            forall|t: int| 0 <= t < n ==> #[trigger] flags@[t] == doomed(orig, t, radius as int),
            forall|t: int| 0 <= t < h ==> #[trigger] store@[t] == mark_pass(orig, radius as int)[t],
            forall|t: int| h <= t < n ==> #[trigger] store@[t] == orig[t],
        decreases n - h,
    {
        if flags[h] {
            store.mark_dead(h);
        }
        h += 1;
    }
    proof {
        assert(store@ =~= mark_pass(orig, radius as int));
        assert forall|t: int| 0 <= t < n implies #[trigger] store@[t].wf() by {
            assert(orig[t].wf());
        }
        lemma_survivors_props(store@);
    }
    store.compact()
}

/// With all charges of one sign, nothing annihilates.
pub proof fn lemma_like_charges_survive(s: Seq<Particle>, radius: int, q: int)
    requires
        forall|i: int| 0 <= i < s.len() ==> (#[trigger] s[i]).charge == q,
    ensures
        mark_pass(s, radius) == s,
{
    assert forall|i: int| 0 <= i < s.len() implies !doomed(s, i, radius) by {
        assert forall|j: int| 0 <= j < s.len() && j != i implies !annihilates(s[i], #[trigger] s[j], radius) by {
            assert(q * q >= 0) by (nonlinear_arith);
        }
    }
    assert(mark_pass(s, radius) =~= s);
}

} // verus!
