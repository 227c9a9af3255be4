//! Core data types: integer 2D vectors, colors, generational handles and
//! the slot arena they index, and neutral drawable primitives.

use vstd::prelude::*;

verus! {

/// Largest magnitude a stored coordinate may have. Coordinates are integers
/// in caller-chosen fixed-point units; keeping them within this bound makes
/// every squared distance and every correction rule exact and overflow-free.
pub const COORD_LIMIT: i64 = 1073741824;

/// A 2D position or displacement in integer coordinate units.
#[derive(Clone, Copy, Debug, PartialEq, Eq, Structural)]
pub struct Vec2 {
    pub x: i64,
    pub y: i64,
}

/// Squared Euclidean distance between two positions, as an unbounded integer.
pub open spec fn sq_dist(a: Vec2, b: Vec2) -> int {
    (a.x - b.x) * (a.x - b.x) + (a.y - b.y) * (a.y - b.y)
}

impl Vec2 {
    /// Both coordinates lie within [-COORD_LIMIT, COORD_LIMIT].
    pub open spec fn in_range(self) -> bool {
        -COORD_LIMIT <= self.x <= COORD_LIMIT && -COORD_LIMIT <= self.y <= COORD_LIMIT
    }

    pub fn new(x: i64, y: i64) -> (r: Vec2)
        ensures
            r.x == x,
            r.y == y,
    {
        Vec2 { x, y }
    }

    pub fn zero() -> (r: Vec2)
        ensures
            r.x == 0,
            r.y == 0,
    {
        Vec2 { x: 0, y: 0 }
    }

    /// Componentwise sum.
    pub fn add(self, other: Vec2) -> (r: Vec2)
        requires
            i64::MIN <= self.x + other.x <= i64::MAX,
            i64::MIN <= self.y + other.y <= i64::MAX,
        ensures
            r.x == self.x + other.x,
            r.y == self.y + other.y,
    {
        Vec2 { x: self.x + other.x, y: self.y + other.y }
    }

    /// Componentwise difference.
    pub fn sub(self, other: Vec2) -> (r: Vec2)
        requires
            i64::MIN <= self.x - other.x <= i64::MAX,
            i64::MIN <= self.y - other.y <= i64::MAX,
        ensures
            r.x == self.x - other.x,
            r.y == self.y - other.y,
    {
        Vec2 { x: self.x - other.x, y: self.y - other.y }
    }

    /// Squared Euclidean distance to `other`.
    pub fn dist2(self, other: Vec2) -> (r: u64)
        requires
            self.in_range(),
            other.in_range(),
        ensures
            r == sq_dist(self, other),
    {
        let dx: u64 = if self.x >= other.x {
            (self.x - other.x) as u64
        } else {
            (other.x - self.x) as u64
        };
        let dy: u64 = if self.y >= other.y {
            (self.y - other.y) as u64
        } else {
            (other.y - self.y) as u64
        };
        proof {
            assert(dx * dx == (self.x - other.x) * (self.x - other.x)
                && dx * dx <= 0x4000000000000000) by (nonlinear_arith)
                requires
                    dx == self.x - other.x || dx == other.x - self.x,
                    dx <= 0x80000000,
            ;
            assert(dy * dy == (self.y - other.y) * (self.y - other.y)
                && dy * dy <= 0x4000000000000000) by (nonlinear_arith)
                requires
                    dy == self.y - other.y || dy == other.y - self.y,
                    dy <= 0x80000000,
            ;
        }
        dx * dx + dy * dy
    }
}

/// An RGBA color with 8-bit channels.
#[derive(Clone, Copy, Debug, PartialEq, Eq, Structural)]
pub struct Color {
    r: u8,
    g: u8,
    b: u8,
    a: u8,
}

impl Color {
    /// The color with the given channels, for use in specifications.
    pub closed spec fn spec_new(r: u8, g: u8, b: u8, a: u8) -> Color {
        Color { r, g, b, a }
    }

    pub closed spec fn spec_r(self) -> u8 {
        self.r
    }

    pub closed spec fn spec_g(self) -> u8 {
        self.g
    }

    pub closed spec fn spec_b(self) -> u8 {
        self.b
    }

    pub closed spec fn spec_a(self) -> u8 {
        self.a
    }

    pub fn new(r: u8, g: u8, b: u8, a: u8) -> (c: Color)
        ensures
            c == Color::spec_new(r, g, b, a),
            c.spec_r() == r,
            c.spec_g() == g,
            c.spec_b() == b,
            c.spec_a() == a,
    {
        Color { r, g, b, a }
    }

    /// Packs the channels as 0xAABBGGRR.
    pub fn to_u32(&self) -> (r: u32)
        ensures
            r == (self.spec_a() as u32) << 24 | (self.spec_b() as u32) << 16
                | (self.spec_g() as u32) << 8 | (self.spec_r() as u32),
    {
        (self.a as u32) << 24 | (self.b as u32) << 16 | (self.g as u32) << 8 | (self.r as u32)
    }
}

/// An opaque, copyable handle to a stored value: a slot index paired with a
/// generation counter, so that a handle left over from an earlier occupant
/// of the slot can be told apart from the current one.
#[derive(Clone, Copy, Debug, PartialEq, Eq, Hash, Structural)]
pub struct ID {
    slot: u32,
    gen: u32,
}

impl ID {
    pub closed spec fn spec_slot(self) -> u32 {
        self.slot
    }

    pub closed spec fn spec_gen(self) -> u32 {
        self.gen
    }

    pub fn new(slot: u32, gen: u32) -> (r: ID)
        ensures
            r.spec_slot() == slot,
            r.spec_gen() == gen,
    {
        ID { slot, gen }
    }

    pub fn slot(&self) -> (r: u32)
        ensures
            r == self.spec_slot(),
    {
        self.slot
    }

    pub fn gen(&self) -> (r: u32)
        ensures
            r == self.spec_gen(),
    {
        self.gen
    }
}

/// Two handles are equal exactly when their slot and generation agree.
pub proof fn lemma_id_eq(a: ID, b: ID)
    ensures
        (a == b) <==> (a.spec_slot() == b.spec_slot() && a.spec_gen() == b.spec_gen()),
{
}

/// Failure of a handle-based lookup: the slot is empty, out of range, or
/// currently holds a different generation than the handle.
#[derive(Clone, Copy, Debug, PartialEq, Eq, Structural)]
pub enum StoreError {
    StaleOrUnknownID,
}

/// The handle `id` currently denotes a value in the slot sequence `s`:
/// its slot index is in range, occupied, and holds `id`'s generation.
pub open spec fn slot_live<T>(s: Seq<Option<(u32, T)>>, id: ID) -> bool {
    id.spec_slot() < s.len() && match s[id.spec_slot() as int] {
        Some(p) => p.0 == id.spec_gen(),
        None => false,
    }
}

/// The value the handle `id` denotes in the slot sequence `s`.
pub open spec fn slot_val<T>(s: Seq<Option<(u32, T)>>, id: ID) -> T
    recommends
        slot_live(s, id),
{
    match s[id.spec_slot() as int] {
        Some(p) => p.1,
        None => arbitrary(),
    }
}

/// The slot sequence `s` with the value denoted by `id` replaced by `v`.
pub open spec fn slot_put<T>(s: Seq<Option<(u32, T)>>, id: ID, v: T) -> Seq<Option<(u32, T)>> {
    s.update(id.spec_slot() as int, Some((id.spec_gen(), v)))
}

/// What a lookup of `id` in the slot sequence `s` yields.
pub open spec fn slot_lookup<T>(s: Seq<Option<(u32, T)>>, id: ID) -> Option<T> {
    if slot_live(s, id) {
        Some(slot_val(s, id))
    } else {
        None
    }
}

/// A slot arena addressed by generational handles: slot `i` of the map is
/// either empty or holds a generation tag together with a value. A lookup
/// succeeds only when the handle's generation matches the slot's.
pub struct IDMap<T> {
    data: Vec<Option<(u32, T)>>,
}

impl<T> View for IDMap<T> {
    type V = Seq<Option<(u32, T)>>;

    closed spec fn view(&self) -> Seq<Option<(u32, T)>> {
        self.data.view()
    }
}

impl<T> IDMap<T> {
    pub fn new() -> (r: IDMap<T>)
        ensures
            r@ == Seq::<Option<(u32, T)>>::empty(),
    {
        IDMap { data: Vec::new() }
    }

    pub fn len(&self) -> (r: usize)
        ensures
            r == self@.len(),
    {
        self.data.len()
    }

    /// The slot at index `i`, empty or occupied.
    pub(crate) fn at(&self, i: usize) -> (r: &Option<(u32, T)>)
        requires
            i < self@.len(),
        ensures
            *r == self@[i as int],
    {
        &self.data[i]
    }

    /// Stores `val` under `key`, growing the arena to reach `key`'s slot.
    /// An occupied slot may only be overwritten by the generation it holds.
    pub fn insert(&mut self, key: ID, val: T)
        requires
            key.spec_slot() < 0xffffffffu32,
            key.spec_slot() < old(self)@.len() ==> match old(self)@[key.spec_slot() as int] {
                Some(p) => p.0 == key.spec_gen(),
                None => true,
            },
        ensures
            final(self)@.len() == (if key.spec_slot() < old(self)@.len() {
                old(self)@.len() as int
            } else {
                key.spec_slot() + 1
            }),
            final(self)@[key.spec_slot() as int] == Some((key.spec_gen(), val)),
            forall|i: int|
                0 <= i < final(self)@.len() && i != key.spec_slot() ==> final(self)@[i] == (
                if i < old(self)@.len() {
                    old(self)@[i]
                } else {
                    None::<(u32, T)>
                }),
    {
        let s = key.slot() as usize;
        let ghost orig = self.data@;
        if s >= self.data.len() {
            while self.data.len() < s + 1
                invariant
                    s + 1 <= usize::MAX,
                    self.data@.len() <= s + 1,
                    orig.len() <= self.data@.len(),
                    forall|i: int| 0 <= i < orig.len() ==> self.data@[i] == orig[i],
                    forall|i: int|
                        orig.len() <= i < self.data@.len() ==> self.data@[i] == None::<(u32, T)>,
                decreases s + 1 - self.data@.len(),
            {
                self.data.push(None);
            }
        }
        self.data[s] = Some((key.gen(), val));
    }

    /// Looks `key` up; yields the value only when the slot is occupied by
    /// `key`'s generation.
    pub fn get(&self, key: ID) -> (r: Option<&T>)
        ensures
            match r {
                Some(v) => slot_live(self@, key) && *v == slot_val(self@, key),
                None => !slot_live(self@, key),
            },
    {
        let s = key.slot() as usize;
        if s >= self.data.len() {
            return None;
        }
        match &self.data[s] {
            Some(p) => {
                if p.0 == key.gen() {
                    Some(&p.1)
                } else {
                    None
                }
            },
            None => None,
        }
    }

    /// Like `get`, but hands out a mutable borrow of the value.
    pub fn get_mut(&mut self, key: ID) -> (r: Option<&mut T>)
        ensures
            r is None ==> !slot_live(old(self)@, key) && final(self)@ == old(self)@,
            r matches Some(v) ==> slot_live(old(self)@, key) && *v == slot_val(old(self)@, key)
                && final(self)@ == slot_put(old(self)@, key, *final(v)),
    {
        let s = key.slot() as usize;
        if s >= self.data.len() {
            return None;
        }
        let live = match &self.data[s] {
            Some(p) => p.0 == key.gen(),
            None => false,
        };
        if !live {
            return None;
        }
        match &mut self.data[s] {
            Some(p) => Some(&mut p.1),
            None => None,
        }
    }

    /// A fresh cursor over the occupied slots in ascending order.
    pub fn iter<'a>(&'a self) -> (r: IDMapIterator<'a, T>)
        ensures
            r.entries() == self@,
            r.cursor() == 0,
    {
        IDMapIterator { map: self, id: 0 }
    }
}

/// A cursor over the occupied slots of an [`IDMap`], in ascending slot
/// order, skipping empty slots. Restartable by asking the map for a new one.
pub struct IDMapIterator<'a, T> {
    map: &'a IDMap<T>,
    id: u32,
}

impl<'a, T> IDMapIterator<'a, T> {
    /// The slot sequence being walked.
    pub closed spec fn entries(&self) -> Seq<Option<(u32, T)>> {
        self.map@
    }

    /// The next slot index to look at.
    pub closed spec fn cursor(&self) -> u32 {
        self.id
    }

    /// The occupied slot at the lowest index at or past the cursor, as a
    /// handle and a borrow of the value, or nothing when only empty slots
    /// remain.
    pub fn next(&mut self) -> (r: Option<(ID, &'a T)>)
        requires
            old(self).entries().len() <= 0xffffffffu32,
        ensures
            final(self).entries() == old(self).entries(),
            match r {
                Some(p) => {
                    &&& old(self).cursor() <= p.0.spec_slot() < old(self).entries().len()
                    &&& slot_live(old(self).entries(), p.0)
                    &&& *p.1 == slot_val(old(self).entries(), p.0)
                    &&& forall|j: int|
                        old(self).cursor() <= j < p.0.spec_slot() ==> old(self).entries()[j]
                            is None
                    &&& final(self).cursor() == p.0.spec_slot() + 1
                },
                None => {
                    &&& forall|j: int|
                        old(self).cursor() <= j < old(self).entries().len() ==> old(
                            self,
                        ).entries()[j] is None
                    &&& final(self).cursor() >= old(self).entries().len()
                },
            },
    {
        loop
            invariant
                self.map == old(self).map,
                old(self).cursor() <= self.id,
                self.entries().len() <= 0xffffffffu32,
                forall|j: int| old(self).cursor() <= j < self.id ==> self.entries()[j] is None,
            ensures
                final(self).entries() == old(self).entries(),
            decreases self.map@.len() - self.id,
        {
            let i = self.id as usize;
            if i >= self.map.len() {
                return None;
            }
            self.id = self.id + 1;
            match self.map.at(i) {
                Some(p) => {
                    let found = ID::new(i as u32, p.0);
                    return Some((found, &p.1));
                },
                None => {},
            }
        }
    }
}

/// A neutral drawable primitive for an external renderer to consume.
/// Lengths and stroke widths are in the same integer units as coordinates.
#[derive(Clone, Copy, Debug, PartialEq, Eq, Structural)]
pub enum DrawCmd {
    Circle(Vec2, i64, Color, i64),
    CircleFilled(Vec2, i64, Color),
    Line(Vec2, Vec2, Color, i64),
    Rect(Vec2, Vec2, Color, i64),
    RectFilled(Vec2, Vec2, Color),
}

} // verus!
