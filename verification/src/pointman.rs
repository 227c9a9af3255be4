//! The point store: positions in a generational slot arena, with creation,
//! handle-based lookup and mutation, proximity queries, ordered iteration,
//! and drawable primitives for the stored points.

use vstd::prelude::*;

use crate::dat::{
    slot_live, slot_lookup, slot_put, slot_val, sq_dist, Color, DrawCmd, IDMap, IDMapIterator,
    StoreError, Vec2, COORD_LIMIT, ID,
};

verus! {

/// Default hit radius for `grab`, in coordinate units.
pub const POINT_RADIUS: u64 = 5;

/// Every slot of the store is occupied, every stored position is within the
/// coordinate bound, and the slot count fits the handle's index width.
pub open spec fn store_wf(s: Seq<Option<(u32, Vec2)>>) -> bool {
    &&& s.len() <= 0xffffffffu32
    &&& forall|i: int|
        0 <= i < s.len() ==> (match #[trigger] s[i] {
            Some(p) => p.1.in_range(),
            None => false,
        })
}

/// The position stored in slot `i`.
pub open spec fn pos_at(s: Seq<Option<(u32, Vec2)>>, i: int) -> Vec2 {
    match s[i] {
        Some(p) => p.1,
        None => arbitrary(),
    }
}

/// The generation tag of slot `i`.
pub open spec fn gen_at(s: Seq<Option<(u32, Vec2)>>, i: int) -> u32 {
    match s[i] {
        Some(p) => p.0,
        None => arbitrary(),
    }
}

/// The position `q` lies within Euclidean distance `radius` of `p`
/// (boundary inclusive), stated exactly over squared distances.
pub open spec fn within(q: Vec2, p: Vec2, radius: u64) -> bool {
    sq_dist(q, p) <= radius * radius
}

/// `p` shifted by `delta`.
pub open spec fn moved(p: Vec2, delta: Vec2) -> Vec2 {
    Vec2 { x: (p.x + delta.x) as i64, y: (p.y + delta.y) as i64 }
}

/// Some handle in `sel` points at slot `slot` with generation `gen`.
pub open spec fn sel_has(sel: Seq<ID>, slot: int, gen: u32) -> bool {
    exists|j: int|
        0 <= j < sel.len() && (#[trigger] sel[j]).spec_slot() == slot && sel[j].spec_gen() == gen
}

/// The filled-circle primitive for the point in slot `i`: hit-radius sized,
/// highlighted when some handle in `sel` denotes it.
pub open spec fn point_cmd(s: Seq<Option<(u32, Vec2)>>, sel: Seq<ID>, i: int) -> DrawCmd {
    DrawCmd::CircleFilled(
        pos_at(s, i),
        POINT_RADIUS as i64,
        if sel_has(sel, i, gen_at(s, i)) {
            Color::spec_new(255, 127, 127, 255)
        } else {
            Color::spec_new(127, 0, 0, 255)
        },
    )
}

/// Read-after-write: a handle that is live reads back exactly the value
/// most recently written through it.
pub proof fn lemma_read_after_write(s: Seq<Option<(u32, Vec2)>>, id: ID, p: Vec2)
    requires
        slot_live(s, id),
    ensures
        slot_lookup(slot_put(s, id, p), id) == Some(p),
{
}

/// Writing through one handle leaves what every handle to a different slot
/// reads unchanged.
pub proof fn lemma_write_frame(s: Seq<Option<(u32, Vec2)>>, id: ID, p: Vec2, other: ID)
    requires
        slot_live(s, id),
        other.spec_slot() != id.spec_slot(),
    ensures
        slot_lookup(slot_put(s, id, p), other) == slot_lookup(s, other),
{
}

/// Owns every point position, keyed by stable generational handles that it
/// mints itself; handles from other stores or later generations fail lookups
/// rather than aliasing.
pub struct PointMan {
    pt: IDMap<Vec2>,
}

impl View for PointMan {
    type V = Seq<Option<(u32, Vec2)>>;

    closed spec fn view(&self) -> Seq<Option<(u32, Vec2)>> {
        self.pt.view()
    }
}

impl PointMan {
    pub open spec fn wf(&self) -> bool {
        store_wf(self.view())
    }

    pub fn new() -> (r: PointMan)
        ensures
            r@.len() == 0,
            r.wf(),
    {
        PointMan { pt: IDMap::new() }
    }

    /// Creates a point at `p`, minting a fresh handle (next slot,
    /// generation 0) that no earlier handle of this store aliases.
    pub fn add(&mut self, p: Vec2) -> (id: ID)
        requires
            old(self).wf(),
            p.in_range(),
            old(self)@.len() < 0xffffffffu32,
        ensures
            final(self).wf(),
            id.spec_slot() == old(self)@.len(),
            id.spec_gen() == 0,
            !slot_live(old(self)@, id),
            slot_live(final(self)@, id),
            slot_val(final(self)@, id) == p,
            final(self)@ == old(self)@.push(Some((0u32, p))),
    {
        let s = self.pt.len();
        let id = ID::new(s as u32, 0);
        self.pt.insert(id, p);
        proof {
            assert(self@ =~= old(self)@.push(Some((0u32, p))));
        }
        id
    }

    /// Looks a handle up; fails exactly when the handle is stale or unknown.
    pub fn get(&self, id: ID) -> (r: Result<Vec2, StoreError>)
        ensures
            match r {
                Ok(p) => slot_live(self@, id) && p == slot_val(self@, id),
                Err(e) => !slot_live(self@, id) && e == StoreError::StaleOrUnknownID,
            },
    {
        match self.pt.get(id) {
            Some(v) => Ok(*v),
            None => Err(StoreError::StaleOrUnknownID),
        }
    }

    /// Overwrites the position a handle denotes; fails exactly when the
    /// handle is stale or unknown, leaving the store unchanged.
    pub fn set(&mut self, id: ID, p: Vec2) -> (r: Result<(), StoreError>)
        requires
            old(self).wf(),
            p.in_range(),
        ensures
            final(self).wf(),
            match r {
                Ok(_) => slot_live(old(self)@, id) && final(self)@ == slot_put(old(self)@, id, p),
                Err(e) => !slot_live(old(self)@, id) && e == StoreError::StaleOrUnknownID
                    && final(self)@ == old(self)@,
            },
    {
        match self.pt.get_mut(id) {
            Some(v) => {
                *v = p;
                Ok(())
            },
            None => Err(StoreError::StaleOrUnknownID),
        }
    }

    /// Shifts the position a handle denotes by `delta`; fails exactly when
    /// the handle is stale or unknown, leaving the store unchanged.
    pub fn move_relative(&mut self, id: ID, delta: Vec2) -> (r: Result<(), StoreError>)
        requires
            old(self).wf(),
            slot_live(old(self)@, id) ==> moved(slot_val(old(self)@, id), delta).in_range()
                && -COORD_LIMIT <= slot_val(old(self)@, id).x + delta.x <= COORD_LIMIT
                && -COORD_LIMIT <= slot_val(old(self)@, id).y + delta.y <= COORD_LIMIT,
        ensures
            final(self).wf(),
            match r {
                Ok(_) => slot_live(old(self)@, id) && final(self)@ == slot_put(
                    old(self)@,
                    id,
                    moved(slot_val(old(self)@, id), delta),
                ),
                Err(e) => !slot_live(old(self)@, id) && e == StoreError::StaleOrUnknownID
                    && final(self)@ == old(self)@,
            },
    {
        let q = match self.get(id) {
            Ok(q) => q,
            Err(e) => {
                return Err(e);
            },
        };
        let n = q.add(delta);
        self.set(id, n)
    }

    /// All handles whose stored point lies within `radius` of `p` (boundary
    /// inclusive), in ascending slot order.
    pub fn query_radius(&self, p: Vec2, radius: u64) -> (r: Vec<ID>)
        requires
            self.wf(),
            p.in_range(),
        ensures
            forall|j1: int, j2: int|
                0 <= j1 < j2 < r@.len() ==> (#[trigger] r@[j1]).spec_slot() < (
                #[trigger] r@[j2]).spec_slot(),
            forall|j: int|
                0 <= j < r@.len() ==> slot_live(self@, #[trigger] r@[j]) && within(
                    slot_val(self@, r@[j]),
                    p,
                    radius,
                ),
            forall|i: int|
                0 <= i < self@.len() && within(pos_at(self@, i), p, radius) ==> exists|j: int|
                    0 <= j < r@.len() && (#[trigger] r@[j]).spec_slot() == i,
    {
        proof {
            assert((radius as u128) * (radius as u128) <= u128::MAX) by (nonlinear_arith)
                requires
                    radius <= 0xffffffffffffffffu64,
            ;
        }
        let rsq: u128 = (radius as u128) * (radius as u128);
        let mut r: Vec<ID> = Vec::new();
        let n = self.pt.len();
        let mut i: usize = 0;
        while i < n
            invariant
                self.wf(),
                p.in_range(),
                n == self@.len(),
                i <= n,
                rsq == (radius as int) * (radius as int),
                forall|j1: int, j2: int|
                    0 <= j1 < j2 < r@.len() ==> (#[trigger] r@[j1]).spec_slot() < (
                    #[trigger] r@[j2]).spec_slot(),
                forall|j: int|
                    0 <= j < r@.len() ==> slot_live(self@, #[trigger] r@[j]) && within(
                        slot_val(self@, r@[j]),
                        p,
                        radius,
                    ) && r@[j].spec_slot() < i,
                forall|k: int|
                    0 <= k < i && within(pos_at(self@, k), p, radius) ==> exists|j: int|
                        0 <= j < r@.len() && (#[trigger] r@[j]).spec_slot() == k,
            decreases n - i,
        {
            match self.pt.at(i) {
                Some(q) => {
                    let d2 = q.1.dist2(p);
                    if (d2 as u128) <= rsq {
                        let ghost rold = r@;
                        r.push(ID::new(i as u32, q.0));
                        proof {
                            assert(forall|j: int|
                                0 <= j < rold.len() ==> r@[j] == #[trigger] rold[j]);
                            assert(r@[rold.len() as int].spec_slot() == i);
                            assert(forall|k: int|
                                0 <= k < i + 1 && within(pos_at(self@, k), p, radius)
                                    ==> exists|j: int|
                                    0 <= j < r@.len() && (#[trigger] r@[j]).spec_slot() == k);
                        }
                    } else {
                        proof {
                            assert(!within(pos_at(self@, i as int), p, radius));
                        }
                    }
                },
                None => {
                    proof {
                        assert(false);
                    }
                },
            }
            i = i + 1;
        }
        r
    }

    /// All handles whose stored point lies within the default hit radius of
    /// `p`, in ascending slot order.
    pub fn grab(&self, p: Vec2) -> (r: Vec<ID>)
        requires
            self.wf(),
            p.in_range(),
        ensures
            forall|j1: int, j2: int|
                0 <= j1 < j2 < r@.len() ==> (#[trigger] r@[j1]).spec_slot() < (
                #[trigger] r@[j2]).spec_slot(),
            forall|j: int|
                0 <= j < r@.len() ==> slot_live(self@, #[trigger] r@[j]) && within(
                    slot_val(self@, r@[j]),
                    p,
                    POINT_RADIUS,
                ),
            forall|i: int|
                0 <= i < self@.len() && within(pos_at(self@, i), p, POINT_RADIUS) ==> exists|
                    j: int,
                |
                    0 <= j < r@.len() && (#[trigger] r@[j]).spec_slot() == i,
    {
        self.query_radius(p, POINT_RADIUS)
    }

    /// One filled-circle primitive per stored point, in ascending slot
    /// order, highlighting the points that `sel` selects.
    pub fn draw(&self, sel: &Vec<ID>) -> (r: Vec<DrawCmd>)
        requires
            self.wf(),
        ensures
            r@.len() == self@.len(),
            forall|i: int| 0 <= i < r@.len() ==> r@[i] == point_cmd(self@, sel@, i),
    {
        let radius: i64 = POINT_RADIUS as i64;
        let mut r: Vec<DrawCmd> = Vec::new();
        let n = self.pt.len();
        let mut i: usize = 0;
        while i < n
            invariant
                self.wf(),
                radius == POINT_RADIUS as i64,
                n == self@.len(),
                i <= n,
                r@.len() == i,
                forall|k: int| 0 <= k < i ==> r@[k] == point_cmd(self@, sel@, k),
            decreases n - i,
        {
            match self.pt.at(i) {
                Some(q) => {
                    let selected = sel_contains(sel, i as u32, q.0);
                    let c = if selected {
                        Color::new(255, 127, 127, 255)
                    } else {
                        Color::new(127, 0, 0, 255)
                    };
                    r.push(DrawCmd::CircleFilled(q.1, radius, c));
                },
                None => {
                    proof {
                        assert(false);
                    }
                },
            }
            i = i + 1;
        }
        r
    }

    /// A fresh cursor over the stored points in ascending slot order.
    pub fn iter<'a>(&'a self) -> (r: IDMapIterator<'a, Vec2>)
        ensures
            r.entries() == self@,
            r.cursor() == 0,
    {
        self.pt.iter()
    }

    /// A copy of the store's slots, for transient working state.
    pub(crate) fn snapshot(&self) -> (r: Vec<Option<(u32, Vec2)>>)
        ensures
            r@ == self@,
    {
        let mut r: Vec<Option<(u32, Vec2)>> = Vec::new();
        let n = self.pt.len();
        let mut i: usize = 0;
        while i < n
            invariant
                n == self@.len(),
                i <= n,
                r@.len() == i,
                forall|k: int| 0 <= k < i ==> r@[k] == self@[k],
            decreases n - i,
        {
            r.push(*self.pt.at(i));
            i = i + 1;
        }
        proof {
            assert(r@ =~= self@);
        }
        r
    }
}

/// Whether some handle in `sel` has exactly this slot and generation.
fn sel_contains(sel: &Vec<ID>, slot: u32, gen: u32) -> (r: bool)
    ensures
        r == sel_has(sel@, slot as int, gen),
{
    let n = sel.len();
    let mut j: usize = 0;
    while j < n
        invariant
            n == sel@.len(),
            j <= n,
            forall|k: int|
                0 <= k < j ==> !((#[trigger] sel@[k]).spec_slot() == slot && sel@[k].spec_gen()
                    == gen),
        decreases n - j,
    {
        let cand = sel[j];
        if cand.slot() == slot && cand.gen() == gen {
            return true;
        }
        j = j + 1;
    }
    false
}

} // verus!
