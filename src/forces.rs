//! The pairwise force law and the two ways of accumulating it.
use vstd::prelude::*;
use crate::config::{DT_LIMIT, K_LIMIT, RANGE_LIMIT};
use crate::fixed::{
    abs, ceil_sqrt, clamp, csqrt, div_toward_zero, is_ceil_sqrt, lemma_csqrt_props, lemma_sq_le, lemma_trunc_div_bounds, saturate,
    trunc_div, VEL_LIMIT,
};
use crate::particle::{all_wf, Particle};

verus! {

/// Largest magnitude of one component of a pairwise impulse.
pub const IMPULSE_LIMIT: i128 = 5070602400912917605986812821504;

/// Squared distance between two particles.
pub open spec fn dist2(a: Particle, b: Particle) -> int {
    let dx = a.pos.x - b.pos.x;
    let dy = a.pos.y - b.pos.y;
    dx * dx + dy * dy
}

/// Change of velocity of `a` caused by `b` over `dt` quanta.
///
/// With `delta = a - b` and `d` the distance rounded up to an integer, the
/// impulse is `K * qa * qb * dt * delta / d^3`, each component rounded toward
/// zero. Coincident pairs and pairs beyond `cutoff` give no impulse.
pub open spec fn pair_impulse(a: Particle, b: Particle, k: int, cutoff: int, dt: int) -> (int, int) {
    let dx = a.pos.x - b.pos.x;
    let dy = a.pos.y - b.pos.y;
    let d2 = dx * dx + dy * dy;
    if d2 == 0 || d2 > cutoff * cutoff {
        (0, 0)
    } else {
        let d = csqrt(d2);
        let c = k * a.charge * b.charge * dt;
        (trunc_div(c * dx, d2 * d), trunc_div(c * dy, d2 * d))
    }
}

/// `p` with `(ix, iy)` added to its velocity, saturated.
pub open spec fn kick(p: Particle, ix: int, iy: int) -> Particle {
    p.with_vel(clamp(p.vel.x + ix, VEL_LIMIT as int), clamp(p.vel.y + iy, VEL_LIMIT as int))
}

/// The impulse that `b` gives `a`.
pub fn pair_impulse_exec(a: &Particle, b: &Particle, k: i64, cutoff: i64, dt: u64) -> (r: (i128, i128))
    requires
        a.wf(),
        b.wf(),
        0 <= k <= K_LIMIT,
        0 <= cutoff <= RANGE_LIMIT,
        dt <= DT_LIMIT,
    ensures
        (r.0 as int, r.1 as int) == pair_impulse(*a, *b, k as int, cutoff as int, dt as int),
        abs(r.0 as int) <= IMPULSE_LIMIT,
        abs(r.1 as int) <= IMPULSE_LIMIT,
{
    let dx: i128 = a.pos.x as i128 - b.pos.x as i128;
    let dy: i128 = a.pos.y as i128 - b.pos.y as i128;
    assert(dx * dx <= 4835703278458516698824704) by (nonlinear_arith)
        requires -2199023255552 <= dx <= 2199023255552;
    assert(dy * dy <= 4835703278458516698824704) by (nonlinear_arith)
        requires -2199023255552 <= dy <= 2199023255552;
    assert(dx * dx >= 0 && dy * dy >= 0) by (nonlinear_arith);
    let d2: i128 = dx * dx + dy * dy;
    assert(cutoff * cutoff <= 1152921504606846976) by (nonlinear_arith)
        requires 0 <= cutoff <= 1073741824;
    let c2: i128 = (cutoff as i128) * (cutoff as i128);
    if d2 == 0 || d2 > c2 {
        return (0, 0);
    }
    let d: i128 = ceil_sqrt(d2 as u128) as i128;
    proof {
        assert(is_ceil_sqrt(d2 as int, d as int));
        // the rounded distance does not exceed the cutoff
        if d > cutoff {
            assert((d - 1) * (d - 1) >= cutoff * cutoff) by (nonlinear_arith)
                requires d - 1 >= cutoff, cutoff >= 0;
        }
        assert(dx * dx <= d * d);
        assert(dy * dy <= d * d);
        lemma_sq_le(dx as int, d as int);
        lemma_sq_le(dy as int, d as int);
        assert(d >= 1);
    }
    assert(abs(k * a.charge) <= 281474976710656) by (nonlinear_arith)
        requires 0 <= k <= 1099511627776, -256 <= a.charge <= 256;
    let kq: i128 = (k as i128) * (a.charge as i128);
    assert(abs(kq * b.charge) <= 72057594037927936) by (nonlinear_arith)
        requires abs(kq as int) <= 281474976710656, -256 <= b.charge <= 256;
    let kqq: i128 = kq * (b.charge as i128);
    assert(abs(kqq * dt) <= 4722366482869645213696) by (nonlinear_arith)
        requires abs(kqq as int) <= 72057594037927936, 0 <= dt <= 65536;
    let c: i128 = kqq * (dt as i128);
    assert(abs((c * dx) as int) <= 5070602400912917605986812821504) by (nonlinear_arith)
        requires abs(c as int) <= 4722366482869645213696, abs(dx as int) <= 1073741824;
    assert(abs((c * dy) as int) <= 5070602400912917605986812821504) by (nonlinear_arith)
        requires abs(c as int) <= 4722366482869645213696, abs(dy as int) <= 1073741824;
    assert(d2 * d <= 1237940039285380274899124224) by (nonlinear_arith)
        requires 1 <= d2 <= 1152921504606846976, 1 <= d <= 1073741824;
    assert(d2 * d >= 1) by (nonlinear_arith)
        requires 1 <= d2, 1 <= d;
    let den: i128 = d2 * d;
    let ix = div_toward_zero(c * dx, den);
    let iy = div_toward_zero(c * dy, den);
    proof {
        lemma_trunc_div_bounds((c * dx) as int, den as int);
        lemma_trunc_div_bounds((c * dy) as int, den as int);
    }
    (ix, iy)
}

/// One pair of the symmetric pass: `i` receives the impulse of `j`, and `j`
/// the opposite impulse.
pub open spec fn sym_pair(s: Seq<Particle>, i: int, j: int, k: int, cutoff: int, dt: int) -> Seq<Particle> {
    let imp = pair_impulse(s[i], s[j], k, cutoff, dt);
    s.update(i, kick(s[i], imp.0, imp.1)).update(j, kick(s[j], -imp.0, -imp.1))
}

/// The pairs `(i, j), (i, j + 1), .., (i, n - 1)` of the symmetric pass, in order.
pub open spec fn sym_row(s: Seq<Particle>, i: int, j: int, n: int, k: int, cutoff: int, dt: int) -> Seq<Particle>
    decreases n - j,
{
    if j >= n {
        s
    } else {
        sym_row(sym_pair(s, i, j, k, cutoff, dt), i, j + 1, n, k, cutoff, dt)
    }
}

/// The rows `i, i + 1, .., n - 1` of the symmetric pass, in order.
pub open spec fn sym_rows(s: Seq<Particle>, i: int, n: int, k: int, cutoff: int, dt: int) -> Seq<Particle>
    decreases n - i,
{
    if i >= n {
        s
    } else {
        sym_rows(sym_row(s, i, i + 1, n, k, cutoff, dt), i + 1, n, k, cutoff, dt)
    }
}

/// Every unordered pair `i < j`, in lexicographic order, updating both.
pub open spec fn symmetric_pass(s: Seq<Particle>, k: int, cutoff: int, dt: int) -> Seq<Particle> {
    sym_rows(s, 0, s.len() as int, k, cutoff, dt)
}

/// Particle `i` after the impulses of particles `0 .. j` (itself skipped),
/// all read from the unchanged sequence `s`.
pub open spec fn gather(s: Seq<Particle>, i: int, j: int, k: int, cutoff: int, dt: int) -> Particle
    decreases j,
{
    if j <= 0 {
        s[i]
    } else {
        let p = gather(s, i, j - 1, k, cutoff, dt);
        if j - 1 == i {
            p
        } else {
            let imp = pair_impulse(s[i], s[j - 1], k, cutoff, dt);
            kick(p, imp.0, imp.1)
        }
    }
}

/// Each particle summing the impulses of all others from a snapshot.
pub open spec fn snapshot_pass(s: Seq<Particle>, k: int, cutoff: int, dt: int) -> Seq<Particle> {
    Seq::new(s.len(), |i: int| gather(s, i, s.len() as int, k, cutoff, dt))
}

/// `p` with `(ix, iy)` added to its velocity, saturated.
pub fn kick_exec(p: Particle, ix: i128, iy: i128) -> (r: Particle)
    requires
        p.wf(),
        abs(ix as int) <= IMPULSE_LIMIT,
        abs(iy as int) <= IMPULSE_LIMIT,
    ensures
        r == kick(p, ix as int, iy as int),
        r.wf(),
{
    let vx = saturate(p.vel.x as i128 + ix, VEL_LIMIT);
    let vy = saturate(p.vel.y as i128 + iy, VEL_LIMIT);
    let mut r = p;
    r.vel.x = vx;
    r.vel.y = vy;
    r
}

/// Applies the pairwise law over every unordered pair, each pair updating
/// both velocities with opposite impulses.
pub fn apply_forces_symmetric(ps: &mut Vec<Particle>, k: i64, cutoff: i64, dt: u64)
    requires
        all_wf(old(ps)@),
        0 <= k <= K_LIMIT,
        0 <= cutoff <= RANGE_LIMIT,
        dt <= DT_LIMIT,
    ensures
        final(ps)@ == symmetric_pass(old(ps)@, k as int, cutoff as int, dt as int),
        final(ps)@.len() == old(ps)@.len(),
        all_wf(final(ps)@),
{
    let ghost n0 = ps@.len();
    let ghost target = symmetric_pass(ps@, k as int, cutoff as int, dt as int);
    let n = ps.len();
    let mut i: usize = 0;
    while i < n
        invariant
            n == ps@.len(),
            n == n0,
            i <= n,
            all_wf(ps@),
            sym_rows(ps@, i as int, n as int, k as int, cutoff as int, dt as int) == target,
            0 <= k <= K_LIMIT,
            0 <= cutoff <= RANGE_LIMIT,
            dt <= DT_LIMIT,
        decreases n - i,
    {
        let mut j: usize = i + 1;
        while j < n
            invariant
                n == ps@.len(),
                i < n,
                i < j <= n,
                all_wf(ps@),
                sym_rows(sym_row(ps@, i as int, j as int, n as int, k as int, cutoff as int, dt as int), i + 1, n as int, k as int, cutoff as int, dt as int) == target,
                0 <= k <= K_LIMIT,
                0 <= cutoff <= RANGE_LIMIT,
                dt <= DT_LIMIT,
            decreases n - j,
        {
            let a = ps[i];
            let b = ps[j];
            let imp = pair_impulse_exec(&a, &b, k, cutoff, dt);
            let na = kick_exec(a, imp.0, imp.1);
            let nb = kick_exec(b, -imp.0, -imp.1);
            let ghost before = ps@;
            ps.set(i, na);
            ps.set(j, nb);
            proof {
                assert(ps@ == sym_pair(before, i as int, j as int, k as int, cutoff as int, dt as int));
                assert forall|t: int| 0 <= t < ps@.len() implies #[trigger] ps@[t].wf() by {
                    if t != i && t != j {
                        assert(ps@[t] == before[t]);
                    }
                }
            }
            j += 1;
        }
        i += 1;
    }
}

/// Applies the pairwise law particle by particle: each particle sums the
/// impulses of all others read from the unchanged input, and only its own
/// velocity changes.
pub fn apply_forces_snapshot(ps: &Vec<Particle>, k: i64, cutoff: i64, dt: u64) -> (r: Vec<Particle>)
    requires
        all_wf(ps@),
        0 <= k <= K_LIMIT,
        0 <= cutoff <= RANGE_LIMIT,
        dt <= DT_LIMIT,
    ensures
        r@ == snapshot_pass(ps@, k as int, cutoff as int, dt as int),
        all_wf(r@),
{
    let n = ps.len();
    let mut out: Vec<Particle> = Vec::new();
    let mut i: usize = 0;
    while i < n
        invariant
            n == ps@.len(),
            i <= n,
            out@.len() == i,
            all_wf(ps@),
            all_wf(out@),
            forall|t: int| 0 <= t < i ==> #[trigger] out@[t] == gather(ps@, t, n as int, k as int, cutoff as int, dt as int),
            0 <= k <= K_LIMIT,
            0 <= cutoff <= RANGE_LIMIT,
            dt <= DT_LIMIT,
        decreases n - i,
    {
        let a = ps[i];
        let mut p = a;
        let mut j: usize = 0;
        while j < n
            invariant
                n == ps@.len(),
                i < n,
                j <= n,
                a == ps@[i as int],
                all_wf(ps@),
                p.wf(),
                p == gather(ps@, i as int, j as int, k as int, cutoff as int, dt as int),
                0 <= k <= K_LIMIT,
                0 <= cutoff <= RANGE_LIMIT,
                dt <= DT_LIMIT,
            decreases n - j,
        {
            if j != i {
                let b = ps[j];
                let imp = pair_impulse_exec(&a, &b, k, cutoff, dt);
                p = kick_exec(p, imp.0, imp.1);
            }
            j += 1;
        }
        out.push(p);
        i += 1;
    }
    proof {
        assert(out@ =~= snapshot_pass(ps@, k as int, cutoff as int, dt as int));
    }
    out
}

/// Positions, charges and marks of `t` are those of `s`.
pub open spec fn same_frame(s: Seq<Particle>, t: Seq<Particle>) -> bool {
    &&& s.len() == t.len()
    &&& forall|z: int|
        0 <= z < s.len() ==> (#[trigger] t[z]).pos == s[z].pos && t[z].charge == s[z].charge
            && t[z].cancelled == s[z].cancelled
}

/// A zero impulse leaves a well-formed particle unchanged.
pub proof fn lemma_kick_zero(p: Particle)
    requires
        p.wf(),
    ensures
        kick(p, 0, 0) == p,
{
}

/// A pair in which either charge is zero exchanges no impulse.
pub proof fn lemma_neutral_pair(a: Particle, b: Particle, k: int, cutoff: int, dt: int)
    requires
        a.charge == 0 || b.charge == 0,
    ensures
        pair_impulse(a, b, k, cutoff, dt) == (0int, 0int),
{
    let dx = a.pos.x - b.pos.x;
    let dy = a.pos.y - b.pos.y;
    let d2 = dx * dx + dy * dy;
    let d = csqrt(d2);
    let c = k * a.charge * b.charge * dt;
    assert(c == 0) by (nonlinear_arith)
        requires c == k * a.charge * b.charge * dt, a.charge == 0 || b.charge == 0;
    assert(c * dx == 0 && c * dy == 0) by (nonlinear_arith)
        requires c == 0;
    assert(d2 >= 0) by (nonlinear_arith)
        requires d2 == dx * dx + dy * dy;
    if d2 > 0 {
        lemma_csqrt_props(d2);
        assert(d2 * d > 0) by (nonlinear_arith)
            requires d2 > 0, d >= 1;
        lemma_trunc_div_bounds(c * dx, d2 * d);
        lemma_trunc_div_bounds(c * dy, d2 * d);
    }
}

/// Law: a pair farther apart than the cutoff contributes exactly nothing to
/// either velocity, in either accumulation mode.
pub proof fn lemma_beyond_cutoff_no_force(s: Seq<Particle>, i: int, j: int, k: int, cutoff: int, dt: int)
    requires
        all_wf(s),
        0 <= i < s.len(),
        0 <= j < s.len(),
        i != j,
        dist2(s[i], s[j]) > cutoff * cutoff,
    ensures
        pair_impulse(s[i], s[j], k, cutoff, dt) == (0int, 0int),
        pair_impulse(s[j], s[i], k, cutoff, dt) == (0int, 0int),
        sym_pair(s, i, j, k, cutoff, dt) == s,
{
    assert(dist2(s[j], s[i]) == dist2(s[i], s[j])) by (nonlinear_arith);
    assert(s[i].wf() && s[j].wf());
    assert(sym_pair(s, i, j, k, cutoff, dt) =~= s);
}

/// Law: for like charges within the cutoff, the impulse on each particle of
/// the pair points away from the other, component by component.
pub proof fn lemma_like_charges_repel(a: Particle, b: Particle, k: int, cutoff: int, dt: int)
    requires
        a.charge * b.charge > 0,
        k >= 0,
        dt >= 0,
        dist2(a, b) <= cutoff * cutoff,
    ensures
        ({
            let imp = pair_impulse(a, b, k, cutoff, dt);
            &&& imp.0 * (a.pos.x - b.pos.x) >= 0
            &&& imp.1 * (a.pos.y - b.pos.y) >= 0
            &&& (-imp.0) * (b.pos.x - a.pos.x) >= 0
            &&& (-imp.1) * (b.pos.y - a.pos.y) >= 0
        }),
{
    let dx = a.pos.x - b.pos.x;
    let dy = a.pos.y - b.pos.y;
    let d2 = dx * dx + dy * dy;
    if d2 != 0 {
        let d = csqrt(d2);
        let c = k * a.charge * b.charge * dt;
        assert(c >= 0) by (nonlinear_arith)
            requires c == k * a.charge * b.charge * dt, k >= 0, dt >= 0, a.charge * b.charge > 0;
        let den = d2 * d;
        assert(d2 > 0) by (nonlinear_arith)
            requires d2 == dx * dx + dy * dy, d2 != 0;
        lemma_csqrt_props(d2);
        assert(den > 0) by (nonlinear_arith)
            requires den == d2 * d, d2 > 0, d >= 1;
        lemma_trunc_div_bounds(c * dx, den);
        lemma_trunc_div_bounds(c * dy, den);
        let ix = trunc_div(c * dx, den);
        let iy = trunc_div(c * dy, den);
        assert(ix * dx >= 0) by (nonlinear_arith)
            requires c >= 0, (c * dx >= 0 ==> ix >= 0), (c * dx <= 0 ==> ix <= 0);
        assert(iy * dy >= 0) by (nonlinear_arith)
            requires c >= 0, (c * dy >= 0 ==> iy >= 0), (c * dy <= 0 ==> iy <= 0);
        assert((-ix) * (b.pos.x - a.pos.x) == ix * dx) by (nonlinear_arith)
            requires dx == a.pos.x - b.pos.x;
        assert((-iy) * (b.pos.y - a.pos.y) == iy * dy) by (nonlinear_arith)
            requires dy == a.pos.y - b.pos.y;
        assert(dist2(a, b) == d2);
        assert(pair_impulse(a, b, k, cutoff, dt) == (ix, iy));
    } else {
        assert(pair_impulse(a, b, k, cutoff, dt) == (0int, 0int));
        assert(0 * (a.pos.x - b.pos.x) == 0 && 0 * (a.pos.y - b.pos.y) == 0);
    }
}

/// The impulse that `a` gives `b` is the opposite of the one `b` gives `a`:
/// the snapshot mode hands each partner the reaction that the symmetric mode
/// applies at once.
pub proof fn lemma_impulse_antisymmetric(a: Particle, b: Particle, k: int, cutoff: int, dt: int)
    ensures
        pair_impulse(b, a, k, cutoff, dt).0 == -pair_impulse(a, b, k, cutoff, dt).0,
        pair_impulse(b, a, k, cutoff, dt).1 == -pair_impulse(a, b, k, cutoff, dt).1,
{
    let dx = a.pos.x - b.pos.x;
    let dy = a.pos.y - b.pos.y;
    let d2 = dx * dx + dy * dy;
    assert((b.pos.x - a.pos.x) * (b.pos.x - a.pos.x) + (b.pos.y - a.pos.y) * (b.pos.y - a.pos.y) == d2)
        by (nonlinear_arith)
        requires dx == a.pos.x - b.pos.x, dy == a.pos.y - b.pos.y, d2 == dx * dx + dy * dy;
    if d2 != 0 && d2 <= cutoff * cutoff {
        let d = csqrt(d2);
        let c = k * a.charge * b.charge * dt;
        assert(k * b.charge * a.charge * dt == c) by (nonlinear_arith)
            requires c == k * a.charge * b.charge * dt;
        assert(c * (b.pos.x - a.pos.x) == -(c * dx)) by (nonlinear_arith)
            requires dx == a.pos.x - b.pos.x;
        assert(c * (b.pos.y - a.pos.y) == -(c * dy)) by (nonlinear_arith)
            requires dy == a.pos.y - b.pos.y;
        assert(d2 > 0) by (nonlinear_arith)
            requires d2 == dx * dx + dy * dy, d2 != 0;
        lemma_csqrt_props(d2);
        assert(d2 * d > 0) by (nonlinear_arith)
            requires d2 > 0, d >= 1;
        lemma_trunc_div_bounds(c * dx, d2 * d);
        lemma_trunc_div_bounds(c * dy, d2 * d);
    }
}

proof fn lemma_sym_pair_frame(s: Seq<Particle>, i: int, j: int, k: int, cutoff: int, dt: int)
    requires
        all_wf(s),
        0 <= i < s.len(),
        0 <= j < s.len(),
        i != j,
    ensures
        all_wf(sym_pair(s, i, j, k, cutoff, dt)),
        same_frame(s, sym_pair(s, i, j, k, cutoff, dt)),
        forall|z: int| 0 <= z < s.len() && s[z].charge == 0 ==> #[trigger] sym_pair(s, i, j, k, cutoff, dt)[z] == s[z],
{
    let t = sym_pair(s, i, j, k, cutoff, dt);
    let imp = pair_impulse(s[i], s[j], k, cutoff, dt);
    if s[i].charge == 0 || s[j].charge == 0 {
        lemma_neutral_pair(s[i], s[j], k, cutoff, dt);
        assert(s[i].wf() && s[j].wf());
    }
    assert forall|z: int| 0 <= z < t.len() implies #[trigger] t[z].wf() by {
        assert(s[z].wf());
    }
}

proof fn lemma_sym_row_frame(s: Seq<Particle>, i: int, j: int, n: int, k: int, cutoff: int, dt: int)
    requires
        all_wf(s),
        n == s.len(),
        0 <= i < n,
        i < j,
    ensures
        all_wf(sym_row(s, i, j, n, k, cutoff, dt)),
        same_frame(s, sym_row(s, i, j, n, k, cutoff, dt)),
        forall|z: int| 0 <= z < s.len() && s[z].charge == 0 ==> #[trigger] sym_row(s, i, j, n, k, cutoff, dt)[z] == s[z],
    decreases n - j,
{
    if j < n {
        let t = sym_pair(s, i, j, k, cutoff, dt);
        lemma_sym_pair_frame(s, i, j, k, cutoff, dt);
        lemma_sym_row_frame(t, i, j + 1, n, k, cutoff, dt);
    }
}

proof fn lemma_sym_rows_frame(s: Seq<Particle>, i: int, n: int, k: int, cutoff: int, dt: int)
    requires
        all_wf(s),
        n == s.len(),
        0 <= i,
    ensures
        all_wf(sym_rows(s, i, n, k, cutoff, dt)),
        same_frame(s, sym_rows(s, i, n, k, cutoff, dt)),
        forall|z: int| 0 <= z < s.len() && s[z].charge == 0 ==> #[trigger] sym_rows(s, i, n, k, cutoff, dt)[z] == s[z],
    decreases n - i,
{
    if i < n {
        let t = sym_row(s, i, i + 1, n, k, cutoff, dt);
        lemma_sym_row_frame(s, i, i + 1, n, k, cutoff, dt);
        lemma_sym_rows_frame(t, i + 1, n, k, cutoff, dt);
    }
}

proof fn lemma_gather_neutral(s: Seq<Particle>, i: int, j: int, k: int, cutoff: int, dt: int)
    requires
        all_wf(s),
        0 <= i < s.len(),
        s[i].charge == 0,
    ensures
        gather(s, i, j, k, cutoff, dt) == s[i],
    decreases j,
{
    if j > 0 {
        lemma_gather_neutral(s, i, j - 1, k, cutoff, dt);
        if j - 1 != i {
            lemma_neutral_pair(s[i], s[j - 1], k, cutoff, dt);
            assert(s[i].wf());
        }
    }
}

/// Law: a particle of zero charge receives no net pairwise impulse, in
/// either accumulation mode, and the passes move no particle and change no
/// charge.
pub proof fn lemma_neutral_particle_unmoved(s: Seq<Particle>, z: int, k: int, cutoff: int, dt: int)
    requires
        all_wf(s),
        0 <= z < s.len(),
        s[z].charge == 0,
    ensures
        symmetric_pass(s, k, cutoff, dt)[z] == s[z],
        snapshot_pass(s, k, cutoff, dt)[z] == s[z],
        same_frame(s, symmetric_pass(s, k, cutoff, dt)),
{
    lemma_sym_rows_frame(s, 0, s.len() as int, k, cutoff, dt);
    lemma_gather_neutral(s, z, s.len() as int, k, cutoff, dt);
}

} // verus!
