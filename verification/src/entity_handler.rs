//! Entity identifiers with generation tagging, and the handler that
//! allocates and recycles them.
//!
//! An [`Entity`] packs a slot index and a version counter into one
//! 32-bit integer.  The [`EntityHandler`] keeps the currently valid
//! identifier of every slot and threads a free list through the dead
//! slots, so that recycled indices are reused in LIFO order.

use vstd::prelude::*;

verus! {

/// Number of distinct values the version field can report; versions
/// wrap modulo this constant, so after that many recyclings of one
/// slot an old handle becomes indistinguishable from a fresh one.
pub const VERSION_MODULUS: u32 = 16384;

/// Factor that places the index field above the version bits of the
/// packed identifier.
pub const INDEX_UNIT: u32 = 262144;

/// Exclusive upper bound on slot indices, chosen so that the packed
/// identifier always fits in 32 bits.
pub const INDEX_LIMIT: u32 = 16384;

/// An entity identifier: an index into the handler's slot table
/// together with a version counter that detects stale handles.
#[derive(Clone, Copy, PartialEq, Eq, Structural, Hash, Debug)]
pub struct Entity {
    pub id: u32,
}

impl Entity {
    /// The slot index encoded in the identifier.
    pub open spec fn spec_index(self) -> int {
        self.id as int / INDEX_UNIT as int
    }

    /// The version counter encoded in the identifier.
    pub open spec fn spec_version(self) -> int {
        self.id as int % VERSION_MODULUS as int
    }

    /// The identifier built from an index and a version.
    pub open spec fn spec_new(index: int, version: int) -> Entity {
        Entity { id: (index * INDEX_UNIT as int + version) as u32 }
    }

    /// Packs an index and a version into one identifier.
    pub fn new(index: u32, version: u32) -> (e: Entity)
        requires
            index < INDEX_LIMIT,
            version < INDEX_UNIT,
        ensures
            e == Entity::spec_new(index as int, version as int),
            e.spec_index() == index as int,
            e.spec_version() == version as int % VERSION_MODULUS as int,
    {
        proof {
            lemma_packed_fields(index as int, version as int);
        }
        Entity { id: index * INDEX_UNIT + version }
    }

    /// Reads the slot index back out of the identifier.
    pub fn get_index(&self) -> (r: u32)
        ensures
            r as int == self.spec_index(),
    {
        self.id / INDEX_UNIT
    }

    /// Reads the version counter back out of the identifier.
    pub fn get_version(&self) -> (r: u32)
        ensures
            r as int == self.spec_version(),
    {
        self.id % VERSION_MODULUS
    }
}

/// How a packed identifier decodes: the quotient by [`INDEX_UNIT`]
/// recovers the index, and the remainder modulo [`VERSION_MODULUS`]
/// recovers the version (up to its wraparound).
pub proof fn lemma_packed_fields(index: int, version: int)
    requires
        0 <= index < INDEX_LIMIT as int,
        0 <= version < INDEX_UNIT as int,
    ensures
        Entity::spec_new(index, version).id == index * INDEX_UNIT as int + version,
        Entity::spec_new(index, version).spec_index() == index,
        Entity::spec_new(index, version).spec_version() == version % VERSION_MODULUS as int,
{
    let u = INDEX_UNIT as int;
    let m = VERSION_MODULUS as int;
    assert(0 <= index * u + version <= u32::MAX as int) by (nonlinear_arith)
        requires
            0 <= index < 16384,
            0 <= version < 262144,
            u == 262144,
    ;
    assert((index * u + version) / u == index) by (nonlinear_arith)
        requires
            0 <= index,
            0 <= version < u,
            u == 262144,
    ;
    assert((index * u + version) % m == version % m) by (nonlinear_arith)
        requires
            0 <= index,
            0 <= version,
            u == 262144,
            m == 16384,
    ;
}

/// The mathematical state of an [`EntityHandler`]: the slot table,
/// the head of the embedded free list, and the number of slots
/// waiting on that list.
#[verifier::ext_equal]
pub struct EhView {
    pub slots: Seq<Entity>,
    pub head: int,
    pub killed: int,
}

impl EhView {
    /// Well-formedness: the table never outgrows the index width,
    /// every stored identifier's index field points into the table
    /// (live slots point at themselves, dead slots at the next free
    /// slot), and the free-list head is in range whenever the table
    /// is not empty.
    pub open spec fn inv(self) -> bool {
        &&& self.slots.len() <= INDEX_LIMIT as int
        &&& 0 <= self.head < INDEX_LIMIT as int
        &&& 0 <= self.killed
        &&& self.slots.len() > 0 ==> self.head < self.slots.len()
        &&& self.slots.len() == 0 ==> self.head == 0
        &&& self.killed > 0 ==> self.slots.len() > 0
        &&& forall|i: int|
            0 <= i < self.slots.len() ==> (#[trigger] self.slots[i]).spec_index()
                < self.slots.len()
    }

    /// A handle is alive exactly when its slot currently stores an
    /// identifier bit-equal to it.
    pub open spec fn alive(self, e: Entity) -> bool {
        &&& 0 <= e.spec_index() < self.slots.len()
        &&& self.slots[e.spec_index()] == e
    }

    /// The state after recycling `e`: within range, the slot is
    /// overwritten with a tombstone that links to the previous free
    /// head and carries the bumped version; out of range, nothing
    /// happens.
    pub open spec fn kill_tr(self, e: Entity) -> EhView {
        if 0 <= e.spec_index() < self.slots.len() {
            EhView {
                slots: self.slots.update(
                    e.spec_index(),
                    Entity::spec_new(self.head, e.spec_version() + 1),
                ),
                head: e.spec_index(),
                killed: self.killed + 1,
            }
        } else {
            self
        }
    }

    /// The state and the handle produced by one allocation: with
    /// recycled slots pending, the free-list head is revived under
    /// its stored version; otherwise a fresh slot is appended with
    /// version zero.
    pub open spec fn alloc_tr(self) -> (EhView, Entity) {
        if self.killed > 0 {
            let tomb = self.slots[self.head];
            let e = Entity::spec_new(self.head, tomb.spec_version());
            (
                EhView {
                    slots: self.slots.update(self.head, e),
                    head: tomb.spec_index(),
                    killed: self.killed - 1,
                },
                e,
            )
        } else {
            let e = Entity::spec_new(self.slots.len() as int, 0);
            (EhView { slots: self.slots.push(e), head: self.head, killed: self.killed }, e)
        }
    }
}

/// Allocates entity identifiers and recycles dead ones through a
/// free list embedded in the slot table itself: while a slot is
/// dead, its stored identifier's index field holds the next free
/// index and its version field holds the version the slot will
/// revive with.
pub struct EntityHandler {
    entities: Vec<Entity>,
    head_index: u32,
    killed: usize,
}

impl View for EntityHandler {
    type V = EhView;

    closed spec fn view(&self) -> EhView {
        EhView {
            slots: self.entities@,
            head: self.head_index as int,
            killed: self.killed as int,
        }
    }
}

impl EntityHandler {
    /// Creates a handler with no slots.
    pub fn new() -> (r: EntityHandler)
        ensures
            r@ == (EhView { slots: Seq::<Entity>::empty(), head: 0int, killed: 0int }),
            r@.inv(),
    {
        let r = EntityHandler { entities: Vec::new(), head_index: 0, killed: 0 };
        proof {
            assert(r@.slots =~= Seq::<Entity>::empty());
            assert(r@ =~= (EhView { slots: Seq::<Entity>::empty(), head: 0int, killed: 0int }));
        }
        r
    }

    /// Allocates an identifier: pops the free-list head when a
    /// recycled slot is pending, and appends a fresh slot otherwise.
    pub fn new_entity(&mut self) -> (e: Entity)
        requires
            old(self)@.inv(),
            old(self)@.slots.len() < INDEX_LIMIT as int,
        ensures
            final(self)@.inv(),
            (final(self)@, e) == old(self)@.alloc_tr(),
    {
        if self.killed > 0 {
            let head_entity: Entity = self.entities[self.head_index as usize];
            let new_ident = Entity::new(self.head_index, head_entity.get_version());
            self.entities.set(self.head_index as usize, new_ident);
            self.head_index = head_entity.get_index();
            self.killed = self.killed - 1;
            new_ident
        } else {
            let index = self.entities.len() as u32;
            let new_ident = Entity::new(index, 0);
            self.entities.push(new_ident);
            new_ident
        }
    }

    /// Recycles an identifier: its slot becomes the new free-list
    /// head and remembers the bumped version; handles whose index is
    /// out of range are silently ignored.
    pub fn kill_entity(&mut self, entity: Entity)
        requires
            old(self)@.inv(),
            old(self)@.killed < usize::MAX as int,
        ensures
            final(self)@.inv(),
            final(self)@ == old(self)@.kill_tr(entity),
    {
        let index = entity.get_index();
        if (index as usize) < self.entities.len() {
            let tomb = Entity::new(self.head_index, entity.get_version() + 1);
            self.entities.set(index as usize, tomb);
            self.head_index = index;
            self.killed = self.killed + 1;
        }
    }

    /// Reports whether the handle still matches the identifier
    /// stored at its slot.
    pub fn is_alive(&self, entity: Entity) -> (r: bool)
        ensures
            r == self@.alive(entity),
    {
        let index = entity.get_index();
        if (index as usize) < self.entities.len() {
            let stored: Entity = self.entities[index as usize];
            stored.id == entity.id
        } else {
            false
        }
    }

    /// The index of the slot that the next recycled allocation would
    /// revive.
    pub fn head_index(&self) -> (r: u32)
        ensures
            r as int == self@.head,
    {
        self.head_index
    }

    /// The number of slots in the table, live and dead together.
    /// New slots can be appended while this stays below
    /// [`INDEX_LIMIT`].
    pub fn slot_count(&self) -> (r: usize)
        ensures
            r as int == self@.slots.len(),
    {
        self.entities.len()
    }

    /// The number of slots currently waiting on the free list.
    pub fn killed_count(&self) -> (r: usize)
        ensures
            r as int == self@.killed,
    {
        self.killed
    }
}

/// Two live handles with the same index are the same handle: the
/// slot table stores exactly one identifier per index, so liveness
/// pins the whole handle down.
pub proof fn lemma_live_entities_unique(v: EhView, e1: Entity, e2: Entity)
    requires
        v.alive(e1),
        v.alive(e2),
        e1.spec_index() == e2.spec_index(),
    ensures
        e1 == e2,
{
}

/// Recycling a handle kills it: the tombstone written into the slot
/// carries the bumped version, so it can never be bit-equal to the
/// handle that was recycled.
pub proof fn lemma_recycle_kills(v: EhView, e: Entity)
    requires
        0 <= v.head < INDEX_LIMIT as int,
    ensures
        !v.kill_tr(e).alive(e),
{
    if 0 <= e.spec_index() < v.slots.len() {
        let tomb = Entity::spec_new(v.head, e.spec_version() + 1);
        lemma_packed_fields(v.head, e.spec_version() + 1);
        assert(tomb.spec_version() == (e.spec_version() + 1) % VERSION_MODULUS as int);
        if tomb == e {
            assert(e.spec_version() == (e.spec_version() + 1) % VERSION_MODULUS as int);
            if e.spec_version() + 1 < VERSION_MODULUS as int {
                assert((e.spec_version() + 1) % VERSION_MODULUS as int == e.spec_version() + 1);
            } else {
                assert(e.spec_version() == VERSION_MODULUS as int - 1);
                assert((e.spec_version() + 1) % VERSION_MODULUS as int == 0);
            }
            assert(false);
        }
    }
}

/// A dead handle stays dead across a recycling that touches a
/// different slot.
pub proof fn lemma_dead_after_other_kill(v: EhView, e: Entity, e2: Entity)
    requires
        !v.alive(e),
        e2.spec_index() != e.spec_index(),
    ensures
        !v.kill_tr(e2).alive(e),
{
}

/// A dead handle stays dead across an allocation that does not
/// revive or create its slot.
pub proof fn lemma_dead_after_other_alloc(v: EhView, e: Entity)
    requires
        v.inv(),
        !v.alive(e),
        v.killed > 0 ==> v.head != e.spec_index(),
        v.killed == 0 ==> e.spec_index() != v.slots.len(),
    ensures
        !v.alloc_tr().0.alive(e),
{
}

/// Recycling a live handle and then allocating revives the same
/// slot with the version advanced by exactly one, as long as the
/// version field does not wrap.
pub proof fn lemma_realloc_after_recycle(v: EhView, e: Entity)
    requires
        v.inv(),
        v.alive(e),
        e.spec_version() < VERSION_MODULUS as int - 1,
    ensures
        ({
            let v1 = v.kill_tr(e);
            let (v2, r) = v1.alloc_tr();
            &&& r.spec_index() == e.spec_index()
            &&& r.spec_version() == e.spec_version() + 1
            &&& v2.alive(r)
            &&& !v2.alive(e)
        }),
{
    let v1 = v.kill_tr(e);
    let tomb = Entity::spec_new(v.head, e.spec_version() + 1);
    lemma_packed_fields(v.head, e.spec_version() + 1);
    assert(v1.slots[e.spec_index()] == tomb);
    assert(v1.head == e.spec_index());
    assert(v1.killed > 0);
    let (v2, r) = v1.alloc_tr();
    assert(r == Entity::spec_new(e.spec_index(), tomb.spec_version()));
    assert(tomb.spec_version() == e.spec_version() + 1);
    lemma_packed_fields(e.spec_index(), e.spec_version() + 1);
    assert(r.spec_version() == (e.spec_version() + 1) % VERSION_MODULUS as int);
    assert(r.spec_version() == e.spec_version() + 1);
    assert(v2.slots[e.spec_index()] == r);
    assert(r != e);
}

} // verus!
