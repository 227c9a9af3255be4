//! The constraint set and the relaxation solver.
//!
//! Constraints are kept in declaration order. One `solve` call performs
//! exactly one relaxation sweep: each constraint's correction rule is
//! applied sequentially to transient working positions, so a later
//! constraint reads the corrections already made by earlier ones in the
//! same sweep, and the results are committed to the store in one bulk
//! write at the end.

use vstd::prelude::*;

use crate::dat::{
    slot_live, slot_put, slot_val, sq_dist, Color, DrawCmd, StoreError, Vec2, COORD_LIMIT, ID,
};
use crate::num::{isqrt, isqrt_spec, lemma_isqrt_is};
use crate::pointman::{store_wf, PointMan};

verus! {

/// The slot sequence of a point store: transient working state of a sweep.
pub type Slots = Seq<Option<(u32, Vec2)>>;

/// A declared pairwise relationship between two stored points: equal y
/// level, equal x level, or a fixed target separation (in coordinate
/// units, non-negative).
#[derive(Clone, Copy, Debug, PartialEq, Eq, Structural)]
pub enum Constr {
    Hor(ID, ID),
    Ver(ID, ID),
    Dist(ID, ID, u64),
}

/// The two endpoint handles of a constraint.
pub open spec fn ends(c: Constr) -> (ID, ID) {
    match c {
        Constr::Hor(a, b) => (a, b),
        Constr::Ver(a, b) => (a, b),
        Constr::Dist(a, b, _) => (a, b),
    }
}

/// Absolute value.
pub open spec fn iabs(v: int) -> int {
    if v >= 0 {
        v
    } else {
        -v
    }
}

/// The coordinate lies within the representable world.
pub open spec fn coord_ok(v: int) -> bool {
    -COORD_LIMIT <= v <= COORD_LIMIT
}

/// One tenth of the gap from `a` toward `b`, truncated toward zero: the
/// amount one endpoint moves per sweep under a leveling rule.
pub open spec fn step_toward(a: int, b: int) -> int {
    if b >= a {
        (b - a) / 10
    } else {
        -((a - b) / 10)
    }
}

/// The horizontal-leveling rule: both y coordinates move a tenth of their
/// gap toward each other; x coordinates are untouched.
pub open spec fn hor_step(a: Vec2, b: Vec2) -> (Vec2, Vec2) {
    (
        Vec2 { x: a.x, y: (a.y + step_toward(a.y as int, b.y as int)) as i64 },
        Vec2 { x: b.x, y: (b.y + step_toward(b.y as int, a.y as int)) as i64 },
    )
}

/// The vertical-leveling rule: the same with x and y swapped.
pub open spec fn ver_step(a: Vec2, b: Vec2) -> (Vec2, Vec2) {
    (
        Vec2 { x: (a.x + step_toward(a.x as int, b.x as int)) as i64, y: a.y },
        Vec2 { x: (b.x + step_toward(b.x as int, a.x as int)) as i64, y: b.y },
    )
}

/// The current separation of two points: the floor of their Euclidean
/// distance.
pub open spec fn sep_of(a: Vec2, b: Vec2) -> int {
    isqrt_spec(sq_dist(a, b) as nat) as int
}

/// The per-axis correction of the distance rule: one tenth of
/// `delta * diff / cd`, truncated toward zero.
pub open spec fn pull(delta: int, diff: int, cd: int) -> int
    recommends
        cd > 0,
{
    if (delta >= 0) == (diff >= 0) {
        (iabs(delta) * iabs(diff)) / (10 * cd)
    } else {
        -((iabs(delta) * iabs(diff)) / (10 * cd))
    }
}

/// The distance rule: both endpoints move along their connecting line,
/// symmetrically, a tenth of the way toward separation `d`; the results
/// are given as unbounded integers.
pub open spec fn dist_step(a: Vec2, b: Vec2, d: int) -> ((int, int), (int, int)) {
    let cd = sep_of(a, b);
    let ix = pull(a.x - b.x, d - cd, cd);
    let iy = pull(a.y - b.y, d - cd, cd);
    ((a.x + ix, a.y + iy), (b.x - ix, b.y - iy))
}

/// The distance rule's result stays within the representable world.
pub open spec fn dist_step_ok(a: Vec2, b: Vec2, d: int) -> bool {
    let r = dist_step(a, b, d);
    coord_ok(r.0.0) && coord_ok(r.0.1) && coord_ok(r.1.0) && coord_ok(r.1.1)
}

/// Both endpoints of `c` are live in `w`.
pub open spec fn constr_live(w: Slots, c: Constr) -> bool {
    slot_live(w, ends(c).0) && slot_live(w, ends(c).1)
}

/// What `c`'s rule does to its endpoints' working positions: the two
/// corrected positions, or nothing when the rule must be skipped for this
/// sweep (a distance constraint between coincident points, or a correction
/// that leaves the representable world).
pub open spec fn step_of(w: Slots, c: Constr) -> Option<(Vec2, Vec2)>
    recommends
        constr_live(w, c),
{
    match c {
        Constr::Hor(a, b) => Some(hor_step(slot_val(w, a), slot_val(w, b))),
        Constr::Ver(a, b) => Some(ver_step(slot_val(w, a), slot_val(w, b))),
        Constr::Dist(a, b, d) => {
            let pa = slot_val(w, a);
            let pb = slot_val(w, b);
            if sep_of(pa, pb) == 0 || !dist_step_ok(pa, pb, d as int) {
                None
            } else {
                let r = dist_step(pa, pb, d as int);
                Some(
                    (
                        Vec2 { x: r.0.0 as i64, y: r.0.1 as i64 },
                        Vec2 { x: r.1.0 as i64, y: r.1.1 as i64 },
                    ),
                )
            }
        },
    }
}

/// One constraint applied to the working state: its endpoints' positions
/// are overwritten with the rule's result, first endpoint first; a skipped
/// rule leaves the state unchanged.
pub open spec fn apply1(w: Slots, c: Constr) -> Slots {
    if !constr_live(w, c) {
        w
    } else {
        match step_of(w, c) {
            None => w,
            Some(pq) => slot_put(slot_put(w, ends(c).0, pq.0), ends(c).1, pq.1),
        }
    }
}

/// `c` is live but its rule yields nothing for this sweep.
pub open spec fn skipped_at(w: Slots, c: Constr) -> bool {
    constr_live(w, c) && step_of(w, c) is None
}

/// Every constraint in `cs` has both endpoints live in `w`.
pub open spec fn all_live(w: Slots, cs: Seq<Constr>) -> bool {
    forall|i: int| 0 <= i < cs.len() ==> constr_live(w, #[trigger] cs[i])
}

/// One full relaxation sweep: the constraints applied in declaration
/// order, each reading the working positions its predecessors produced.
pub open spec fn sweep_pos(w: Slots, cs: Seq<Constr>) -> Slots
    decreases cs.len(),
{
    if cs.len() == 0 {
        w
    } else {
        apply1(sweep_pos(w, cs.drop_last()), cs.last())
    }
}

/// How many constraints the sweep skips (degenerate or unrepresentable
/// corrections), at the working state each one is processed in.
pub open spec fn sweep_skips(w: Slots, cs: Seq<Constr>) -> nat
    decreases cs.len(),
{
    if cs.len() == 0 {
        0
    } else {
        sweep_skips(w, cs.drop_last()) + (if skipped_at(sweep_pos(w, cs.drop_last()), cs.last()) {
            1nat
        } else {
            0nat
        })
    }
}

/// `s1` has the same length, occupancy and generations as `s0`; only the
/// stored positions may differ.
pub open spec fn same_shape(s0: Slots, s1: Slots) -> bool {
    s1.len() == s0.len() && forall|i: int|
        0 <= i < s0.len() ==> (match (#[trigger] s0[i], #[trigger] s1[i]) {
            (Some(p), Some(q)) => p.0 == q.0,
            (None, None) => true,
            _ => false,
        })
}

/// Stores of the same shape make exactly the same handles live.
pub proof fn lemma_same_shape_live(s0: Slots, s1: Slots, id: ID)
    requires
        same_shape(s0, s1),
    ensures
        slot_live(s0, id) == slot_live(s1, id),
{
}

/// Applying one constraint never changes which slots are occupied nor
/// their generations.
pub proof fn lemma_apply1_shape(w: Slots, c: Constr)
    ensures
        same_shape(w, apply1(w, c)),
{
}

/// A whole sweep never changes which slots are occupied nor their
/// generations.
pub proof fn lemma_sweep_shape(w: Slots, cs: Seq<Constr>)
    ensures
        same_shape(w, sweep_pos(w, cs)),
    decreases cs.len(),
{
    if cs.len() > 0 {
        lemma_sweep_shape(w, cs.drop_last());
        lemma_apply1_shape(sweep_pos(w, cs.drop_last()), cs.last());
    }
}

/// Basic bounds of the truncated tenth: it never overshoots the gap, it
/// makes progress once the gap reaches ten units, and twice of it never
/// exceeds the gap.
pub proof fn lemma_tenth_bounds(g: int)
    requires
        g >= 0,
    ensures
        0 <= g / 10,
        2 * (g / 10) <= g,
        g / 10 <= g,
        g >= 10 ==> g / 10 >= 1,
{
}

/// The leveling rules keep both results within the representable world
/// and between the two inputs on the moving axis.
pub proof fn lemma_step_in_range(w: Slots, c: Constr)
    requires
        store_wf(w),
        constr_live(w, c),
    ensures
        match step_of(w, c) {
            Some(pq) => pq.0.in_range() && pq.1.in_range(),
            None => true,
        },
{
    match c {
        Constr::Hor(a, b) => {
            let pa = slot_val(w, a);
            let pb = slot_val(w, b);
            if pb.y >= pa.y {
                lemma_tenth_bounds(pb.y - pa.y);
            } else {
                lemma_tenth_bounds(pa.y - pb.y);
            }
        },
        Constr::Ver(a, b) => {
            let pa = slot_val(w, a);
            let pb = slot_val(w, b);
            if pb.x >= pa.x {
                lemma_tenth_bounds(pb.x - pa.x);
            } else {
                lemma_tenth_bounds(pa.x - pb.x);
            }
        },
        Constr::Dist(a, b, d) => {},
    }
}

/// Applying one constraint preserves the store's well-formedness.
pub proof fn lemma_apply1_wf(w: Slots, c: Constr)
    requires
        store_wf(w),
    ensures
        store_wf(apply1(w, c)),
{
    if constr_live(w, c) {
        lemma_step_in_range(w, c);
    }
}

/// A whole sweep preserves the store's well-formedness.
pub proof fn lemma_sweep_wf(w: Slots, cs: Seq<Constr>)
    requires
        store_wf(w),
    ensures
        store_wf(sweep_pos(w, cs)),
    decreases cs.len(),
{
    if cs.len() > 0 {
        lemma_sweep_wf(w, cs.drop_last());
        lemma_apply1_wf(sweep_pos(w, cs.drop_last()), cs.last());
    }
}

/// What one `solve` call reports on success.
#[derive(Clone, Copy, Debug, PartialEq, Eq, Structural)]
pub struct SweepStats {
    /// Constraints whose correction was applied this sweep.
    pub applied: usize,
    /// Constraints skipped this sweep: distance constraints between
    /// coincident points, or corrections leaving the representable world.
    pub skipped: usize,
}

/// The horizontal-leveling rule on concrete positions.
fn hor_apply(pa: Vec2, pb: Vec2) -> (r: (Vec2, Vec2))
    requires
        pa.in_range(),
        pb.in_range(),
    ensures
        r == hor_step(pa, pb),
        r.0.in_range(),
        r.1.in_range(),
{
    if pb.y >= pa.y {
        let g: u64 = (pb.y - pa.y) as u64;
        let m: i64 = (g / 10) as i64;
        proof {
            lemma_tenth_bounds(pb.y - pa.y);
        }
        (Vec2::new(pa.x, pa.y + m), Vec2::new(pb.x, pb.y - m))
    } else {
        let g: u64 = (pa.y - pb.y) as u64;
        let m: i64 = (g / 10) as i64;
        proof {
            lemma_tenth_bounds(pa.y - pb.y);
        }
        (Vec2::new(pa.x, pa.y - m), Vec2::new(pb.x, pb.y + m))
    }
}

/// The vertical-leveling rule on concrete positions.
fn ver_apply(pa: Vec2, pb: Vec2) -> (r: (Vec2, Vec2))
    requires
        pa.in_range(),
        pb.in_range(),
    ensures
        r == ver_step(pa, pb),
        r.0.in_range(),
        r.1.in_range(),
{
    if pb.x >= pa.x {
        let g: u64 = (pb.x - pa.x) as u64;
        let m: i64 = (g / 10) as i64;
        proof {
            lemma_tenth_bounds(pb.x - pa.x);
        }
        (Vec2::new(pa.x + m, pa.y), Vec2::new(pb.x - m, pb.y))
    } else {
        let g: u64 = (pa.x - pb.x) as u64;
        let m: i64 = (g / 10) as i64;
        proof {
            lemma_tenth_bounds(pa.x - pb.x);
        }
        (Vec2::new(pa.x - m, pa.y), Vec2::new(pb.x + m, pb.y))
    }
}

/// The distance rule on concrete positions: the corrected pair, or
/// nothing when the points coincide or the correction is unrepresentable.
fn dist_apply(pa: Vec2, pb: Vec2, d: u64) -> (r: Option<(Vec2, Vec2)>)
    requires
        pa.in_range(),
        pb.in_range(),
    ensures
        r is Some <==> (sep_of(pa, pb) != 0 && dist_step_ok(pa, pb, d as int)),
        match r {
            Some(pq) => {
                let s = dist_step(pa, pb, d as int);
                &&& pq.0.x == s.0.0
                &&& pq.0.y == s.0.1
                &&& pq.1.x == s.1.0
                &&& pq.1.y == s.1.1
                &&& pq.0.in_range()
                &&& pq.1.in_range()
            },
            None => true,
        },
{
    let ghost dx: int = pa.x - pb.x;
    let ghost dy: int = pa.y - pb.y;
    let dxm: u64 = if pa.x >= pb.x {
        (pa.x - pb.x) as u64
    } else {
        (pb.x - pa.x) as u64
    };
    let dym: u64 = if pa.y >= pb.y {
        (pa.y - pb.y) as u64
    } else {
        (pb.y - pa.y) as u64
    };
    proof {
        assert(dxm == iabs(dx));
        assert(dym == iabs(dy));
        assert(dxm * dxm == dx * dx && dxm * dxm <= 0x4000000000000000) by (nonlinear_arith)
            requires
                dxm == iabs(dx),
                dxm <= 0x80000000,
        ;
        assert(dym * dym == dy * dy && dym * dym <= 0x4000000000000000) by (nonlinear_arith)
            requires
                dym == iabs(dy),
                dym <= 0x80000000,
        ;
    }
    let s2: u64 = dxm * dxm + dym * dym;
    proof {
        assert(s2 == sq_dist(pa, pb));
    }
    let cd: u64 = isqrt(s2);
    proof {
        assert(cd as int == sep_of(pa, pb));
    }
    if cd == 0 {
        return None;
    }
    proof {
        assert(cd < 0x100000000) by (nonlinear_arith)
            requires
                (cd as nat) * (cd as nat) <= s2 as nat,
                s2 <= 0xffffffffffffffffu64,
        ;
    }
    let ghost diff: int = d - cd;
    let diffm: u64 = if d >= cd {
        d - cd
    } else {
        cd - d
    };
    proof {
        assert(diffm == iabs(diff));
        assert((dxm as u128) * (diffm as u128) == dxm * diffm && dxm * diffm
            <= 0x80000000000000000000000000000000) by (nonlinear_arith)
            requires
                dxm <= 0x80000000u64,
                diffm <= 0xffffffffffffffffu64,
        ;
        assert((dym as u128) * (diffm as u128) == dym * diffm && dym * diffm
            <= 0x80000000000000000000000000000000) by (nonlinear_arith)
            requires
                dym <= 0x80000000u64,
                diffm <= 0xffffffffffffffffu64,
        ;
    }
    let den: u128 = 10u128 * (cd as u128);
    let mx: u128 = ((dxm as u128) * (diffm as u128)) / den;
    let my: u128 = ((dym as u128) * (diffm as u128)) / den;
    proof {
        assert(mx == (iabs(dx) * iabs(diff)) / (10 * (cd as int)));
        assert(my == (iabs(dy) * iabs(diff)) / (10 * (cd as int)));
        assert(mx == iabs(pull(dx, diff, cd as int)));
        assert(my == iabs(pull(dy, diff, cd as int)));
    }
    let lim2: u128 = 2 * (COORD_LIMIT as u128);
    if mx > lim2 {
        proof {
            let ix = pull(dx, diff, cd as int);
            assert(!coord_ok(pa.x + ix));
        }
        return None;
    }
    if my > lim2 {
        proof {
            let iy = pull(dy, diff, cd as int);
            assert(!coord_ok(pa.y + iy));
        }
        return None;
    }
    let mxs: i64 = mx as i64;
    let mys: i64 = my as i64;
    let ix: i64 = if (pa.x >= pb.x) == (d >= cd) {
        mxs
    } else {
        -mxs
    };
    let iy: i64 = if (pa.y >= pb.y) == (d >= cd) {
        mys
    } else {
        -mys
    };
    proof {
        assert(ix == pull(dx, diff, cd as int));
        assert(iy == pull(dy, diff, cd as int));
    }
    let nax: i64 = pa.x + ix;
    let nay: i64 = pa.y + iy;
    let nbx: i64 = pb.x - ix;
    let nby: i64 = pb.y - iy;
    if nax > COORD_LIMIT || nax < -COORD_LIMIT || nay > COORD_LIMIT || nay < -COORD_LIMIT
        || nbx > COORD_LIMIT || nbx < -COORD_LIMIT || nby > COORD_LIMIT || nby < -COORD_LIMIT {
        return None;
    }
    Some((Vec2::new(nax, nay), Vec2::new(nbx, nby)))
}

/// Looks a handle up in the transient working state.
fn wget(w: &Vec<Option<(u32, Vec2)>>, id: ID) -> (r: Option<Vec2>)
    ensures
        match r {
            Some(p) => slot_live(w@, id) && p == slot_val(w@, id),
            None => !slot_live(w@, id),
        },
{
    let s = id.slot() as usize;
    if s >= w.len() {
        return None;
    }
    match &w[s] {
        Some(p) => {
            if p.0 == id.gen() {
                Some(p.1)
            } else {
                None
            }
        },
        None => None,
    }
}

/// Overwrites the working position a live handle denotes.
fn wput(w: &mut Vec<Option<(u32, Vec2)>>, id: ID, p: Vec2)
    requires
        slot_live(old(w)@, id),
    ensures
        final(w)@ == slot_put(old(w)@, id, p),
{
    let s = id.slot() as usize;
    let g = id.gen();
    w[s] = Some((g, p));
    proof {
        assert(w@ =~= slot_put(old(w)@, id, p));
    }
}

/// Writing through a live handle keeps the shape: occupancy and
/// generations are unchanged.
proof fn lemma_put_shape(w: Slots, id: ID, p: Vec2)
    requires
        slot_live(w, id),
    ensures
        same_shape(w, slot_put(w, id, p)),
{
}

/// An ordered, append-only set of constraints, with the relaxation solver
/// that enforces them approximately, one sweep per call.
pub struct ConstrMan {
    ct: Vec<Constr>,
}

impl View for ConstrMan {
    type V = Seq<Constr>;

    closed spec fn view(&self) -> Seq<Constr> {
        self.ct.view()
    }
}

impl ConstrMan {
    pub fn new() -> (r: ConstrMan)
        ensures
            r@.len() == 0,
    {
        ConstrMan { ct: Vec::new() }
    }

    /// Appends a constraint; nothing is validated here, by design —
    /// duplicates and self-referencing constraints are left to the
    /// solver's rules.
    pub fn add(&mut self, c: Constr)
        ensures
            final(self)@ == old(self)@.push(c),
    {
        self.ct.push(c);
    }

    /// One relaxation sweep: snapshots the store, applies every
    /// constraint's rule in declaration order against the working
    /// positions (so later constraints see earlier corrections), and
    /// commits the result in one bulk write. Fails, leaving the store
    /// untouched, exactly when some constraint references a stale or
    /// unknown handle; skipped rules (coincident distance endpoints,
    /// unrepresentable corrections) are counted, not errors.
    pub fn solve(&self, pm: &mut PointMan) -> (r: Result<SweepStats, StoreError>)
        requires
            old(pm).wf(),
        ensures
            final(pm).wf(),
            match r {
                Ok(stats) => {
                    &&& all_live(old(pm)@, self@)
                    &&& final(pm)@ == sweep_pos(old(pm)@, self@)
                    &&& stats.skipped == sweep_skips(old(pm)@, self@)
                    &&& stats.applied + stats.skipped == self@.len()
                },
                Err(e) => {
                    &&& !all_live(old(pm)@, self@)
                    &&& e == StoreError::StaleOrUnknownID
                    &&& final(pm)@ == old(pm)@
                },
            },
    {
        let ghost s0: Slots = pm@;
        let ghost cs: Seq<Constr> = self@;
        let mut work: Vec<Option<(u32, Vec2)>> = pm.snapshot();
        let mut skipped: usize = 0;
        let mut applied: usize = 0;
        let n = self.ct.len();
        let mut k: usize = 0;
        proof {
            assert(cs.take(0) =~= Seq::<Constr>::empty());
        }
        while k < n
            invariant
                pm.wf(),
                pm@ == s0,
                cs == self@,
                n == cs.len(),
                k <= n,
                work@ == sweep_pos(s0, cs.take(k as int)),
                skipped == sweep_skips(s0, cs.take(k as int)),
                applied + skipped == k,
                all_live(s0, cs.take(k as int)),
                store_wf(work@),
                same_shape(s0, work@),
            decreases n - k,
        {
            let c = self.ct[k];
            let ghost wpre = work@;
            proof {
                assert(cs.take(k + 1).drop_last() =~= cs.take(k as int));
                assert(cs.take(k + 1).last() == cs[k as int]);
            }
            let (a, b) = match c {
                Constr::Hor(a, b) => (a, b),
                Constr::Ver(a, b) => (a, b),
                Constr::Dist(a, b, _) => (a, b),
            };
            let pa = match wget(&work, a) {
                Some(p) => p,
                None => {
                    proof {
                        lemma_same_shape_live(s0, wpre, a);
                        assert(!constr_live(s0, cs[k as int]));
                    }
                    return Err(StoreError::StaleOrUnknownID);
                },
            };
            let pb = match wget(&work, b) {
                Some(p) => p,
                None => {
                    proof {
                        lemma_same_shape_live(s0, wpre, b);
                        assert(!constr_live(s0, cs[k as int]));
                    }
                    return Err(StoreError::StaleOrUnknownID);
                },
            };
            proof {
                assert(constr_live(wpre, c));
                assert(pa.in_range() && pb.in_range());
            }
            match c {
                Constr::Hor(_, _) => {
                    let q = hor_apply(pa, pb);
                    proof {
                        lemma_put_shape(wpre, a, q.0);
                        lemma_same_shape_live(wpre, slot_put(wpre, a, q.0), b);
                    }
                    wput(&mut work, a, q.0);
                    wput(&mut work, b, q.1);
                    applied = applied + 1;
                    proof {
                        assert(step_of(wpre, c) == Some(q));
                        assert(work@ == apply1(wpre, c));
                        assert(!skipped_at(wpre, c));
                    }
                },
                Constr::Ver(_, _) => {
                    let q = ver_apply(pa, pb);
                    proof {
                        lemma_put_shape(wpre, a, q.0);
                        lemma_same_shape_live(wpre, slot_put(wpre, a, q.0), b);
                    }
                    wput(&mut work, a, q.0);
                    wput(&mut work, b, q.1);
                    applied = applied + 1;
                    proof {
                        assert(step_of(wpre, c) == Some(q));
                        assert(work@ == apply1(wpre, c));
                        assert(!skipped_at(wpre, c));
                    }
                },
                Constr::Dist(_, _, dd) => {
                    match dist_apply(pa, pb, dd) {
                        Some(q) => {
                            proof {
                                lemma_put_shape(wpre, a, q.0);
                                lemma_same_shape_live(wpre, slot_put(wpre, a, q.0), b);
                                assert(step_of(wpre, c) == Some(q));
                            }
                            wput(&mut work, a, q.0);
                            wput(&mut work, b, q.1);
                            applied = applied + 1;
                            proof {
                                assert(work@ == apply1(wpre, c));
                                assert(!skipped_at(wpre, c));
                            }
                        },
                        None => {
                            skipped = skipped + 1;
                            proof {
                                assert(step_of(wpre, c) is None);
                                assert(skipped_at(wpre, c));
                                assert(work@ == apply1(wpre, c));
                            }
                        },
                    }
                },
            }
            proof {
                lemma_apply1_wf(wpre, c);
                lemma_apply1_shape(wpre, c);
                assert(same_shape(s0, work@));
                assert(all_live(s0, cs.take(k + 1))) by {
                    lemma_same_shape_live(s0, wpre, a);
                    lemma_same_shape_live(s0, wpre, b);
                    assert(forall|i: int|
                        0 <= i < k ==> constr_live(s0, #[trigger] cs.take(k + 1)[i]));
                }
            }
            k = k + 1;
        }
        proof {
            assert(cs.take(n as int) =~= cs);
        }
        // Commit: one bulk write of every final working position.
        let wn = work.len();
        let mut i: usize = 0;
        while i < wn
            invariant
                pm.wf(),
                wn == work@.len(),
                work@.len() == s0.len(),
                i <= wn,
                store_wf(work@),
                same_shape(s0, work@),
                pm@.len() == s0.len(),
                forall|j: int| 0 <= j < i ==> pm@[j] == work@[j],
                forall|j: int| i <= j < s0.len() ==> pm@[j] == s0[j],
            decreases wn - i,
        {
            let entry = work[i];
            match entry {
                Some(pr) => {
                    let idc = ID::new(i as u32, pr.0);
                    proof {
                        assert(work@[i as int] is Some);
                        assert(pm@[i as int] == s0[i as int]);
                        assert(slot_live(pm@, idc));
                        assert(pr.1.in_range());
                    }
                    let ghost pmpre = pm@;
                    let res = pm.set(idc, pr.1);
                    match res {
                        Ok(_) => {
                            proof {
                                assert(pm@ == slot_put(pmpre, idc, pr.1));
                            }
                        },
                        Err(_) => {
                            proof {
                                assert(false);
                            }
                        },
                    }
                },
                None => {
                    proof {
                        assert(false);
                    }
                },
            }
            i = i + 1;
        }
        proof {
            assert(pm@ =~= work@);
        }
        Ok(SweepStats { applied, skipped })
    }
}

/// The line primitive visualizing a constraint: its endpoints' current
/// positions joined in a neutral grey, unit stroke.
pub open spec fn line_cmd(w: Slots, c: Constr) -> DrawCmd {
    DrawCmd::Line(
        slot_val(w, ends(c).0),
        slot_val(w, ends(c).1),
        Color::spec_new(128, 128, 128, 255),
        1,
    )
}

/// The squared displacement of the point in slot `i` between two states
/// of the same shape.
pub open spec fn disp_sq_at(s0: Slots, s1: Slots, i: int) -> int {
    match (s0[i], s1[i]) {
        (Some(p), Some(q)) => sq_dist(p.1, q.1),
        _ => 0,
    }
}

/// The largest squared displacement over the first `n` slots.
pub open spec fn max_disp_sq(s0: Slots, s1: Slots, n: int) -> int
    decreases n,
{
    if n <= 0 {
        0
    } else {
        let rest = max_disp_sq(s0, s1, n - 1);
        let here = disp_sq_at(s0, s1, n - 1);
        if here > rest {
            here
        } else {
            rest
        }
    }
}

impl ConstrMan {
    /// One line primitive per constraint, in declaration order; fails
    /// exactly when some constraint references a stale or unknown handle.
    pub fn draw(&self, pm: &PointMan) -> (r: Result<Vec<DrawCmd>, StoreError>)
        ensures
            match r {
                Ok(cmds) => {
                    &&& all_live(pm@, self@)
                    &&& cmds@.len() == self@.len()
                    &&& forall|i: int|
                        0 <= i < self@.len() ==> cmds@[i] == line_cmd(pm@, self@[i])
                },
                Err(e) => !all_live(pm@, self@) && e == StoreError::StaleOrUnknownID,
            },
    {
        let grey = Color::new(128, 128, 128, 255);
        let mut out: Vec<DrawCmd> = Vec::new();
        let n = self.ct.len();
        let mut k: usize = 0;
        while k < n
            invariant
                n == self@.len(),
                k <= n,
                out@.len() == k,
                grey == Color::spec_new(128, 128, 128, 255),
                forall|i: int| 0 <= i < k ==> out@[i] == line_cmd(pm@, self@[i]),
                forall|i: int| 0 <= i < k ==> constr_live(pm@, #[trigger] self@[i]),
            decreases n - k,
        {
            let c = self.ct[k];
            let (a, b) = match c {
                Constr::Hor(a, b) => (a, b),
                Constr::Ver(a, b) => (a, b),
                Constr::Dist(a, b, _) => (a, b),
            };
            let pa = match pm.get(a) {
                Ok(p) => p,
                Err(e) => {
                    proof {
                        assert(!constr_live(pm@, self@[k as int]));
                    }
                    return Err(e);
                },
            };
            let pb = match pm.get(b) {
                Ok(p) => p,
                Err(e) => {
                    proof {
                        assert(!constr_live(pm@, self@[k as int]));
                    }
                    return Err(e);
                },
            };
            out.push(DrawCmd::Line(pa, pb, grey, 1));
            k = k + 1;
        }
        Ok(out)
    }

    /// One relaxation sweep plus the opt-in convergence diagnostic: also
    /// yields the largest squared displacement any point saw over the
    /// sweep, for the caller to hold against a convergence threshold of
    /// its own choosing.
    pub fn solve_measured(&self, pm: &mut PointMan) -> (r: Result<(SweepStats, u64), StoreError>)
        requires
            old(pm).wf(),
        ensures
            final(pm).wf(),
            match r {
                Ok(sm) => {
                    &&& all_live(old(pm)@, self@)
                    &&& final(pm)@ == sweep_pos(old(pm)@, self@)
                    &&& sm.0.skipped == sweep_skips(old(pm)@, self@)
                    &&& sm.0.applied + sm.0.skipped == self@.len()
                    &&& sm.1 == max_disp_sq(old(pm)@, final(pm)@, old(pm)@.len() as int)
                },
                Err(e) => {
                    &&& !all_live(old(pm)@, self@)
                    &&& e == StoreError::StaleOrUnknownID
                    &&& final(pm)@ == old(pm)@
                },
            },
    {
        let ghost s0: Slots = pm@;
        let before = pm.snapshot();
        let stats = match self.solve(pm) {
            Ok(s) => s,
            Err(e) => {
                return Err(e);
            },
        };
        proof {
            lemma_sweep_shape(s0, self@);
        }
        let mut best: u64 = 0;
        let n = before.len();
        let mut i: usize = 0;
        while i < n
            invariant
                pm.wf(),
                store_wf(s0),
                before@ == s0,
                n == s0.len(),
                i <= n,
                same_shape(s0, pm@),
                best == max_disp_sq(s0, pm@, i as int),
            decreases n - i,
        {
            let bp = before[i];
            match bp {
                Some(pr) => {
                    let idc = ID::new(i as u32, pr.0);
                    proof {
                        assert(slot_live(pm@, idc));
                    }
                    let cur = match pm.get(idc) {
                        Ok(p) => p,
                        Err(_) => {
                            proof {
                                assert(false);
                            }
                            Vec2::new(0, 0)
                        },
                    };
                    let d2 = pr.1.dist2(cur);
                    proof {
                        assert(disp_sq_at(s0, pm@, i as int) == sq_dist(pr.1, cur));
                    }
                    if d2 > best {
                        best = d2;
                    }
                },
                None => {
                    proof {
                        assert(disp_sq_at(s0, pm@, i as int) == 0);
                    }
                },
            }
            i = i + 1;
        }
        Ok((stats, best))
    }
}

/// A sweep over an empty constraint set is a no-op: every stored position
/// comes through unchanged.
pub proof fn lemma_sweep_empty(w: Slots)
    ensures
        sweep_pos(w, Seq::<Constr>::empty()) == w,
{
}

/// Constraints relax sequentially in declaration order: a sweep is the
/// first constraint's correction followed by a sweep of the rest over the
/// corrected state, so each later rule reads what earlier rules in the
/// same sweep already produced; equally it is a sweep of all but the last
/// followed by the last rule's correction.
pub proof fn lemma_sweep_order(w: Slots, cs: Seq<Constr>)
    requires
        cs.len() > 0,
    ensures
        sweep_pos(w, cs) == apply1(sweep_pos(w, cs.drop_last()), cs.last()),
        sweep_pos(w, cs) == sweep_pos(apply1(w, cs.first()), cs.drop_first()),
    decreases cs.len(),
{
    if cs.len() == 1 {
        assert(cs.drop_last() =~= Seq::<Constr>::empty());
        assert(cs.drop_first() =~= Seq::<Constr>::empty());
        assert(cs.first() == cs.last());
    } else {
        lemma_sweep_order(w, cs.drop_last());
        let w1 = apply1(w, cs.first());
        lemma_sweep_order(w1, cs.drop_first());
        assert(cs.drop_first().drop_last() =~= cs.drop_last().drop_first());
        assert(cs.drop_first().last() == cs.last());
        assert(cs.drop_last().first() == cs.first());
    }
}

/// Cancelling a common positive factor above and below the line:
/// `(q * k) / (10 * q) == k / 10`.
proof fn lemma_div_cancel_tenth(q: int, k: int)
    requires
        q > 0,
        k >= 0,
    ensures
        (q * k) / (10 * q) == k / 10,
{
    vstd::arithmetic::div_mod::lemma_fundamental_div_mod(k, 10);
    let t = k / 10;
    let r = k % 10;
    assert(q * k == (10 * q) * t + q * r && 0 <= q * r < 10 * q) by (nonlinear_arith)
        requires
            q > 0,
            k == 10 * t + r,
            0 <= r < 10,
    ;
    vstd::arithmetic::div_mod::lemma_fundamental_div_mod_converse(q * k, 10 * q, t, q * r);
}

/// The horizontal rule touches no x coordinate, moves both y coordinates
/// a truncated tenth of their gap toward each other, preserves their sum
/// exactly, never grows or sign-flips the gap, and strictly shrinks it
/// while it is at least ten units.
pub proof fn lemma_hor_rule(a: Vec2, b: Vec2)
    requires
        a.in_range(),
        b.in_range(),
    ensures
        hor_step(a, b).0.x == a.x,
        hor_step(a, b).1.x == b.x,
        hor_step(a, b).0.y + hor_step(a, b).1.y == a.y + b.y,
        iabs(hor_step(a, b).0.y - hor_step(a, b).1.y) <= iabs(a.y - b.y),
        a.y <= b.y ==> a.y <= hor_step(a, b).0.y && hor_step(a, b).1.y <= b.y,
        b.y <= a.y ==> b.y <= hor_step(a, b).1.y && hor_step(a, b).0.y <= a.y,
        iabs(a.y - b.y) >= 10 ==> iabs(hor_step(a, b).0.y - hor_step(a, b).1.y) < iabs(
            a.y - b.y,
        ),
{
    if b.y >= a.y {
        lemma_tenth_bounds(b.y - a.y);
    } else {
        lemma_tenth_bounds(a.y - b.y);
    }
}

/// The vertical rule: the same with x and y swapped.
pub proof fn lemma_ver_rule(a: Vec2, b: Vec2)
    requires
        a.in_range(),
        b.in_range(),
    ensures
        ver_step(a, b).0.y == a.y,
        ver_step(a, b).1.y == b.y,
        ver_step(a, b).0.x + ver_step(a, b).1.x == a.x + b.x,
        iabs(ver_step(a, b).0.x - ver_step(a, b).1.x) <= iabs(a.x - b.x),
        a.x <= b.x ==> a.x <= ver_step(a, b).0.x && ver_step(a, b).1.x <= b.x,
        b.x <= a.x ==> b.x <= ver_step(a, b).1.x && ver_step(a, b).0.x <= a.x,
        iabs(a.x - b.x) >= 10 ==> iabs(ver_step(a, b).0.x - ver_step(a, b).1.x) < iabs(
            a.x - b.x,
        ),
{
    if b.x >= a.x {
        lemma_tenth_bounds(b.x - a.x);
    } else {
        lemma_tenth_bounds(a.x - b.x);
    }
}

/// Applying a horizontal constraint modifies no point's x coordinate,
/// whatever the working state.
pub proof fn lemma_hor_apply_x(w: Slots, a: ID, b: ID)
    ensures
        apply1(w, Constr::Hor(a, b)).len() == w.len(),
        forall|i: int|
            0 <= i < w.len() ==> crate::pointman::pos_at(apply1(w, Constr::Hor(a, b)), i).x
                == crate::pointman::pos_at(w, i).x,
{
    lemma_apply1_shape(w, Constr::Hor(a, b));
}

/// Applying a vertical constraint modifies no point's y coordinate,
/// whatever the working state.
pub proof fn lemma_ver_apply_y(w: Slots, a: ID, b: ID)
    ensures
        apply1(w, Constr::Ver(a, b)).len() == w.len(),
        forall|i: int|
            0 <= i < w.len() ==> crate::pointman::pos_at(apply1(w, Constr::Ver(a, b)), i).y
                == crate::pointman::pos_at(w, i).y,
{
    lemma_apply1_shape(w, Constr::Ver(a, b));
}

/// Over a whole sweep of horizontal constraints — however many, in any
/// order, overlapping or not — no point's x coordinate ever changes.
pub proof fn lemma_hor_sweep_x(w: Slots, cs: Seq<Constr>)
    requires
        forall|i: int| 0 <= i < cs.len() ==> (#[trigger] cs[i]) is Hor,
    ensures
        sweep_pos(w, cs).len() == w.len(),
        forall|i: int|
            0 <= i < w.len() ==> crate::pointman::pos_at(sweep_pos(w, cs), i).x
                == crate::pointman::pos_at(w, i).x,
    decreases cs.len(),
{
    if cs.len() > 0 {
        lemma_hor_sweep_x(w, cs.drop_last());
        let prev = sweep_pos(w, cs.drop_last());
        match cs.last() {
            Constr::Hor(a, b) => {
                lemma_hor_apply_x(prev, a, b);
            },
            _ => {
                assert(false);
            },
        }
    }
}

/// Over a whole sweep of vertical constraints, no point's y coordinate
/// ever changes.
pub proof fn lemma_ver_sweep_y(w: Slots, cs: Seq<Constr>)
    requires
        forall|i: int| 0 <= i < cs.len() ==> (#[trigger] cs[i]) is Ver,
    ensures
        sweep_pos(w, cs).len() == w.len(),
        forall|i: int|
            0 <= i < w.len() ==> crate::pointman::pos_at(sweep_pos(w, cs), i).y
                == crate::pointman::pos_at(w, i).y,
    decreases cs.len(),
{
    if cs.len() > 0 {
        lemma_ver_sweep_y(w, cs.drop_last());
        let prev = sweep_pos(w, cs.drop_last());
        match cs.last() {
            Constr::Ver(a, b) => {
                lemma_ver_apply_y(prev, a, b);
            },
            _ => {
                assert(false);
            },
        }
    }
}

/// The distance rule preserves both coordinate sums of the pair exactly:
/// the midpoint does not drift, however the correction rounds.
pub proof fn lemma_dist_rule_midpoint(a: Vec2, b: Vec2, d: int)
    ensures
        dist_step(a, b, d).0.0 + dist_step(a, b, d).1.0 == a.x + b.x,
        dist_step(a, b, d).0.1 + dist_step(a, b, d).1.1 == a.y + b.y,
{
}

/// For a distance constraint between distinct points on a common
/// horizontal line, one application of the rule keeps both points on
/// that line, never moves the separation past the target `d`, never
/// moves it away from `d`, and moves it strictly closer to `d` whenever
/// the residue is at least ten units.
pub proof fn lemma_dist_rule_collinear(a: Vec2, b: Vec2, d: int)
    requires
        a.in_range(),
        b.in_range(),
        a.y == b.y,
        a.x != b.x,
        d >= 0,
    ensures
        ({
            let r = dist_step(a, b, d);
            let cd0 = iabs(a.x - b.x);
            let sep1 = iabs(r.0.0 - r.1.0);
            &&& r.0.1 == a.y
            &&& r.1.1 == b.y
            &&& cd0 <= d ==> sep1 <= d
            &&& d <= cd0 ==> d <= sep1
            &&& iabs(sep1 - d) <= iabs(cd0 - d)
            &&& iabs(cd0 - d) >= 10 ==> iabs(sep1 - d) < iabs(cd0 - d)
        }),
{
    let dx = a.x - b.x;
    let cd0 = iabs(dx);
    assert(sq_dist(a, b) == dx * dx && cd0 * cd0 == dx * dx && dx * dx < (cd0 + 1) * (cd0 + 1))
        by (nonlinear_arith)
        requires
            cd0 == iabs(dx),
            a.y == b.y,
            dx == a.x - b.x,
            sq_dist(a, b) == (a.x - b.x) * (a.x - b.x) + (a.y - b.y) * (a.y - b.y),
    ;
    lemma_isqrt_is(sq_dist(a, b) as nat, cd0 as nat);
    assert(sep_of(a, b) == cd0);
    let k = iabs(d - cd0);
    let m = k / 10;
    lemma_tenth_bounds(k);
    lemma_div_cancel_tenth(cd0, k);
    assert(iabs(dx) * iabs(d - cd0) == cd0 * k);
    assert((cd0 * k) / (10 * cd0) == m);
    assert(iabs(a.y - b.y) * iabs(d - cd0) == 0 * k);
    assert((0 * k) / (10 * cd0) == 0) by {
        vstd::arithmetic::div_mod::lemma_fundamental_div_mod_converse(0, 10 * cd0, 0, 0);
    }
    let ix = pull(dx, d - cd0, cd0);
    let iy = pull(a.y - b.y, d - cd0, cd0);
    assert(iy == 0);
    assert(iabs(ix) == m);
    let r = dist_step(a, b, d);
    assert(r.0.0 == a.x + ix && r.1.0 == b.x - ix);
    if dx > 0 {
        if d >= cd0 {
            assert(ix == m);
            assert(r.0.0 - r.1.0 == cd0 + 2 * m);
        } else {
            assert(ix == -m);
            assert(r.0.0 - r.1.0 == cd0 - 2 * m && cd0 - 2 * m >= d);
        }
    } else {
        if d >= cd0 {
            assert(ix == -m);
            assert(r.0.0 - r.1.0 == -(cd0 + 2 * m));
        } else {
            assert(ix == m);
            assert(r.0.0 - r.1.0 == -(cd0 - 2 * m) && cd0 - 2 * m >= d);
        }
    }
}

} // verus!
