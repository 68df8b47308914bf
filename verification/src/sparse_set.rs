//! A sparse set: dense storage for one component kind with O(1)
//! insert, remove and lookup, plus an in-place grouping partition.
//!
//! Three companion structures hold the data: a packed array of
//! component values, a parallel array of the owning keys, and a
//! sparse index mapping each key to its current position in the
//! packed arrays.  All positions below the group boundary are
//! "grouped": a progressive partition point used to co-locate
//! entities that share several component kinds.

use vstd::prelude::*;

use crate::entity_handler::Entity;
use std::collections::HashMap;

verus! {

/// A key a sparse set can index: a copyable value identified by a
/// 64-bit code.  Two keys with the same code are treated as the same
/// key.
pub trait SparseKey: Sized + Copy {
    /// The numeric identity of the key inside the sparse index.
    spec fn code_spec(self) -> u64;

    /// Returns the numeric identity of the key.
    fn code(&self) -> (c: u64)
        ensures
            c == self.code_spec(),
    ;
}

impl SparseKey for Entity {
    open spec fn code_spec(self) -> u64 {
        self.id as u64
    }

    fn code(&self) -> u64 {
        self.id as u64
    }
}

impl SparseKey for u32 {
    open spec fn code_spec(self) -> u64 {
        self as u64
    }

    fn code(&self) -> u64 {
        *self as u64
    }
}

/// The sequence `s` with the elements at `i` and `j` exchanged.
pub open spec fn seq_swap<A>(s: Seq<A>, i: int, j: int) -> Seq<A> {
    s.update(i, s[j]).update(j, s[i])
}

/// The state of a sparse set with nothing in it.
pub open spec fn empty_ss<K, V>() -> SsView<K, V> {
    SsView {
        keys: Seq::<K>::empty(),
        vals: Seq::<V>::empty(),
        sparse: Map::<u64, usize>::empty(),
        boundary: 0int,
    }
}

/// The mathematical state of a sparse set: the dense key and value
/// sequences, the sparse index, and the group boundary.
#[verifier::ext_equal]
pub struct SsView<K, V> {
    /// Keys in dense order; `keys[i]` owns `vals[i]`.
    pub keys: Seq<K>,
    /// Component values in dense order.
    pub vals: Seq<V>,
    /// Key code to position in the dense arrays.
    pub sparse: Map<u64, usize>,
    /// Positions below this bound form the grouped prefix.
    pub boundary: int,
}

impl<K: SparseKey, V> SsView<K, V> {
    /// Well-formedness: the arrays run in parallel, the boundary
    /// stays within them, and the sparse index is exactly the
    /// inverse of the dense key array.
    pub open spec fn inv(self) -> bool {
        &&& self.vals.len() == self.keys.len()
        &&& self.keys.len() <= usize::MAX as int
        &&& 0 <= self.boundary <= self.keys.len()
        &&& forall|i: int|
            0 <= i < self.keys.len() ==> self.sparse.contains_key(
                (#[trigger] self.keys[i]).code_spec(),
            ) && self.sparse[self.keys[i].code_spec()] == i
        &&& forall|c: u64| #[trigger]
            self.sparse.contains_key(c) ==> (self.sparse[c] as int) < self.keys.len()
                && self.keys[self.sparse[c] as int].code_spec() == c
    }

    /// Whether a key with code `c` is present.
    pub open spec fn contains(self, c: u64) -> bool {
        self.sparse.contains_key(c)
    }

    /// The dense position of the key with code `c`.
    pub open spec fn index_of(self, c: u64) -> int {
        self.sparse[c] as int
    }

    /// The state after inserting `key` with `value`: appended to the
    /// dense arrays when the key is absent, unchanged when it is
    /// already present (first write wins).
    pub open spec fn add_tr(self, key: K, value: V) -> Self {
        if self.contains(key.code_spec()) {
            self
        } else {
            SsView {
                keys: self.keys.push(key),
                vals: self.vals.push(value),
                sparse: self.sparse.insert(key.code_spec(), self.keys.len() as usize),
                boundary: self.boundary,
            }
        }
    }

    /// The state after grouping the key with code `c`: a key just
    /// past the boundary is absorbed by advancing the boundary, a
    /// key further out swaps with the first ungrouped entry, and a
    /// key already grouped or absent changes nothing.
    pub open spec fn group_tr(self, c: u64) -> Self {
        if !self.contains(c) {
            self
        } else {
            let i = self.index_of(c);
            let b = self.boundary;
            if i < b {
                self
            } else if i == b {
                SsView { boundary: b + 1, ..self }
            } else {
                SsView {
                    keys: seq_swap(self.keys, b, i),
                    vals: seq_swap(self.vals, b, i),
                    sparse: self.sparse.insert(c, b as usize).insert(
                        self.keys[b].code_spec(),
                        i as usize,
                    ),
                    boundary: b + 1,
                }
            }
        }
    }

    /// The state after ungrouping the key with code `c`: the last
    /// grouped entry absorbs by retreating the boundary, an entry
    /// deeper in the prefix swaps with the last grouped one, and a
    /// key outside the prefix or absent changes nothing.
    pub open spec fn ungroup_tr(self, c: u64) -> Self {
        if !self.contains(c) {
            self
        } else {
            let i = self.index_of(c);
            let b = self.boundary;
            if i >= b {
                self
            } else if i == b - 1 {
                SsView { boundary: b - 1, ..self }
            } else {
                SsView {
                    keys: seq_swap(self.keys, i, b - 1),
                    vals: seq_swap(self.vals, i, b - 1),
                    sparse: self.sparse.insert(c, (b - 1) as usize).insert(
                        self.keys[b - 1].code_spec(),
                        i as usize,
                    ),
                    boundary: b - 1,
                }
            }
        }
    }

    /// The state after removing the key with code `c`: the key is
    /// first ungrouped if needed, then swap-removed, with the moved
    /// tail entry re-indexed; an absent key changes nothing.
    pub open spec fn remove_tr(self, c: u64) -> Self {
        if !self.contains(c) {
            self
        } else {
            let v1 = if self.index_of(c) < self.boundary {
                self.ungroup_tr(c)
            } else {
                self
            };
            let i = v1.index_of(c);
            let last = v1.keys.len() - 1;
            SsView {
                keys: v1.keys.update(i, v1.keys.last()).drop_last(),
                vals: v1.vals.update(i, v1.vals.last()).drop_last(),
                sparse: if i < last {
                    v1.sparse.remove(c).insert(v1.keys[last].code_spec(), i as usize)
                } else {
                    v1.sparse.remove(c)
                },
                boundary: v1.boundary,
            }
        }
    }
}

/// Exchanges the elements at the two indices and leaves the rest of
/// the vector unchanged, in constant time: the last element is
/// popped to serve as the loose value that cycles through the two
/// slots, and pushed back at the end.
fn vec_swap<T>(v: &mut Vec<T>, i: usize, j: usize)
    requires
        i < old(v)@.len(),
        j < old(v)@.len(),
    ensures
        final(v)@ == seq_swap(old(v)@, i as int, j as int),
{
    if i == j {
        proof {
            assert(seq_swap(v@, i as int, j as int) =~= v@);
        }
        return ;
    }
    let lo: usize = if i < j {
        i
    } else {
        j
    };
    let hi: usize = if i < j {
        j
    } else {
        i
    };
    let last = v.len() - 1;
    let mut loose = match v.pop() {
        Some(x) => x,
        None => unreached(),
    };
    if hi == last {
        v.set_and_swap(lo, &mut loose);
        v.push(loose);
    } else {
        v.set_and_swap(lo, &mut loose);
        v.set_and_swap(hi, &mut loose);
        v.set_and_swap(lo, &mut loose);
        v.push(loose);
    }
    proof {
        assert(final(v)@ =~= seq_swap(old(v)@, i as int, j as int));
    }
}

/// A sparse set keyed by `K` storing one component value of type `V`
/// per key.
pub struct SparseSet<K: SparseKey, V> {
    comp_array: Vec<V>,
    entity_array: Vec<K>,
    sparse_array: HashMap<u64, usize>,
    next_group: usize,
}

impl<K: SparseKey, V> View for SparseSet<K, V> {
    type V = SsView<K, V>;

    closed spec fn view(&self) -> SsView<K, V> {
        SsView {
            keys: self.entity_array@,
            vals: self.comp_array@,
            sparse: self.sparse_array@,
            boundary: self.next_group as int,
        }
    }
}

impl<K: SparseKey, V> SparseSet<K, V> {
    /// Creates an empty sparse set.
    pub fn new() -> (r: SparseSet<K, V>)
        ensures
            r@ == (SsView {
                keys: Seq::<K>::empty(),
                vals: Seq::<V>::empty(),
                sparse: Map::<u64, usize>::empty(),
                boundary: 0int,
            }),
            r@.inv(),
    {
        let r = SparseSet {
            comp_array: Vec::new(),
            entity_array: Vec::new(),
            sparse_array: HashMap::new(),
            next_group: 0,
        };
        proof {
            assert(r@ =~= (SsView {
                keys: Seq::<K>::empty(),
                vals: Seq::<V>::empty(),
                sparse: Map::<u64, usize>::empty(),
                boundary: 0int,
            }));
        }
        r
    }

    /// Adds a new entry.  If the key is already present, nothing
    /// happens: the first written value wins.
    pub fn add(&mut self, key: &K, value: V)
        requires
            old(self)@.inv(),
            old(self)@.keys.len() < usize::MAX as int,
        ensures
            final(self)@.inv(),
            final(self)@ == old(self)@.add_tr(*key, value),
    {
        let c = key.code();
        let present = match self.sparse_array.get(&c) {
            Some(_) => true,
            None => false,
        };
        if !present {
            let idx = self.comp_array.len();
            self.sparse_array.insert(c, idx);
            self.comp_array.push(value);
            self.entity_array.push(*key);
            proof {
                let v0 = old(self)@;
                let v1 = final(self)@;
                assert(v1 =~= v0.add_tr(*key, value));
                assert forall|i: int| 0 <= i < v1.keys.len() implies v1.sparse.contains_key(
                    (#[trigger] v1.keys[i]).code_spec(),
                ) && v1.sparse[v1.keys[i].code_spec()] == i by {
                    if i < v0.keys.len() {
                        assert(v0.keys[i].code_spec() != c);
                    }
                }
            }
        }
    }

    /// Returns the value stored for the key, if any.
    pub fn get(&self, key: &K) -> (r: Option<&V>)
        requires
            self@.inv(),
        ensures
            match r {
                Some(v) => self@.contains(key.code_spec()) && *v == self@.vals[self@.index_of(
                    key.code_spec(),
                )],
                None => !self@.contains(key.code_spec()),
            },
    {
        let c = key.code();
        match self.sparse_array.get(&c) {
            Some(i) => {
                proof {
                    assert(self@.sparse.contains_key(c));
                    assert((self@.sparse[c] as int) < self@.vals.len());
                }
                Some(&self.comp_array[*i])
            },
            None => None,
        }
    }

    /// Returns a mutable borrow of the value stored for the key, if
    /// any.  Only that value can change through the borrow; keys,
    /// index and boundary stay as they were.
    pub fn get_mut(&mut self, key: &K) -> (r: Option<&mut V>)
        requires
            old(self)@.inv(),
        ensures
            !old(self)@.contains(key.code_spec()) ==> r.is_none() && final(self)@ == old(self)@,
            old(self)@.contains(key.code_spec()) ==> r.is_some() && *r.unwrap() == old(
                self,
            )@.vals[old(self)@.index_of(key.code_spec())] && final(self)@.keys == old(self)@.keys
                && final(self)@.sparse == old(self)@.sparse && final(self)@.boundary == old(
                self,
            )@.boundary && final(self)@.vals == old(self)@.vals.update(
                old(self)@.index_of(key.code_spec()),
                *final(r.unwrap()),
            ),
    {
        let c = key.code();
        let idx_opt = match self.sparse_array.get(&c) {
            Some(i) => Some(*i),
            None => None,
        };
        match idx_opt {
            Some(i) => {
                proof {
                    assert(self@.sparse.contains_key(c));
                    assert((self@.sparse[c] as int) < self@.vals.len());
                }
                Some(&mut self.comp_array[i])
            },
            None => None,
        }
    }

    /// Returns the value at the given position in the packed array,
    /// if the position is in range.
    pub fn component_at(&self, index: usize) -> (r: Option<&V>)
        ensures
            match r {
                Some(v) => index < self@.vals.len() && *v == self@.vals[index as int],
                None => index >= self@.vals.len(),
            },
    {
        if index < self.comp_array.len() {
            Some(&self.comp_array[index])
        } else {
            None
        }
    }

    /// Returns a mutable borrow of the value at the given position
    /// in the packed array.  Only that value can change through the
    /// borrow; keys, index and boundary stay as they were.
    pub fn component_at_mut(&mut self, index: usize) -> (r: &mut V)
        requires
            index < old(self)@.vals.len(),
        ensures
            *r == old(self)@.vals[index as int],
            final(self)@.keys == old(self)@.keys,
            final(self)@.sparse == old(self)@.sparse,
            final(self)@.boundary == old(self)@.boundary,
            final(self)@.vals == old(self)@.vals.update(index as int, *final(r)),
    {
        &mut self.comp_array[index]
    }

    /// Returns the key owning the value at the given position in the
    /// packed array, if the position is in range.
    pub fn key_at(&self, index: usize) -> (r: Option<&K>)
        ensures
            match r {
                Some(k) => index < self@.keys.len() && *k == self@.keys[index as int],
                None => index >= self@.keys.len(),
            },
    {
        if index < self.entity_array.len() {
            Some(&self.entity_array[index])
        } else {
            None
        }
    }

    /// Reports whether the key is in the set.
    pub fn contains(&self, key: &K) -> (r: bool)
        ensures
            r == self@.contains(key.code_spec()),
    {
        let c = key.code();
        match self.sparse_array.get(&c) {
            Some(_) => true,
            None => false,
        }
    }

    /// The number of entries in the set.
    pub fn len(&self) -> (r: usize)
        ensures
            r as int == self@.keys.len(),
    {
        self.entity_array.len()
    }

    /// The current group boundary: every position below it is
    /// grouped.
    pub fn group_boundary(&self) -> (r: usize)
        ensures
            r as int == self@.boundary,
    {
        self.next_group
    }

    /// Groups a key: moves its entry to the end of the grouped
    /// prefix and advances the boundary.  Absent or already grouped
    /// keys are left alone.
    pub fn group(&mut self, key: &K)
        requires
            old(self)@.inv(),
        ensures
            final(self)@.inv(),
            final(self)@ == old(self)@.group_tr(key.code_spec()),
    {
        let c = key.code();
        let idx_opt = match self.sparse_array.get(&c) {
            Some(i) => Some(*i),
            None => None,
        };
        match idx_opt {
            None => {},
            Some(entity_array_index) => {
                proof {
                    assert(self@.sparse.contains_key(c));
                    assert((self@.sparse[c] as int) < self@.keys.len());
                }
                if self.next_group < entity_array_index {
                    let b = self.next_group;
                    let ungrouped: K = self.entity_array[b];
                    self.sparse_array.insert(c, b);
                    self.sparse_array.insert(ungrouped.code(), entity_array_index);
                    vec_swap(&mut self.comp_array, b, entity_array_index);
                    vec_swap(&mut self.entity_array, b, entity_array_index);
                    self.next_group = b + 1;
                    proof {
                        let v0 = old(self)@;
                        let v1 = final(self)@;
                        let i = entity_array_index as int;
                        let bb = b as int;
                        assert(v0.keys[bb].code_spec() != c);
                        assert(v1 =~= v0.group_tr(c));
                        assert forall|t: int| 0 <= t < v1.keys.len() implies v1
                            .sparse
                            .contains_key((#[trigger] v1.keys[t]).code_spec()) && v1.sparse[(
                        v1.keys[t]).code_spec()] == t by {
                            if t != bb && t != i {
                                assert(v0.keys[t].code_spec() != c);
                                assert(v0.keys[t].code_spec() != v0.keys[bb].code_spec());
                            }
                        }
                        assert forall|d: u64| #[trigger]
                            v1.sparse.contains_key(d) implies (v1.sparse[d] as int)
                            < v1.keys.len() && v1.keys[v1.sparse[d] as int].code_spec() == d by {
                            if d != c && d != v0.keys[bb].code_spec() {
                                assert(v0.sparse[d] as int != i && v0.sparse[d] as int != bb);
                            }
                        }
                    }
                } else if self.next_group == entity_array_index {
                    self.next_group = self.next_group + 1;
                    proof {
                        assert(final(self)@ =~= old(self)@.group_tr(c));
                    }
                }
            },
        }
    }

    /// Ungroups a key: moves its entry to the last grouped position
    /// and retreats the boundary.  Absent or ungrouped keys are left
    /// alone.
    pub fn ungroup(&mut self, key: &K)
        requires
            old(self)@.inv(),
        ensures
            final(self)@.inv(),
            final(self)@ == old(self)@.ungroup_tr(key.code_spec()),
    {
        let c = key.code();
        let idx_opt = match self.sparse_array.get(&c) {
            Some(i) => Some(*i),
            None => None,
        };
        match idx_opt {
            None => {},
            Some(entity_array_index) => {
                proof {
                    assert(self@.sparse.contains_key(c));
                    assert((self@.sparse[c] as int) < self@.keys.len());
                }
                if entity_array_index < self.next_group {
                    let j = self.next_group - 1;
                    if entity_array_index < j {
                        let last_grouped: K = self.entity_array[j];
                        self.sparse_array.insert(c, j);
                        self.sparse_array.insert(last_grouped.code(), entity_array_index);
                        vec_swap(&mut self.comp_array, entity_array_index, j);
                        vec_swap(&mut self.entity_array, entity_array_index, j);
                        self.next_group = j;
                        proof {
                            let v0 = old(self)@;
                            let v1 = final(self)@;
                            let i = entity_array_index as int;
                            let jj = j as int;
                            assert(v0.keys[jj].code_spec() != c);
                            assert(v1 =~= v0.ungroup_tr(c));
                            assert forall|t: int| 0 <= t < v1.keys.len() implies v1
                                .sparse
                                .contains_key((#[trigger] v1.keys[t]).code_spec()) && v1.sparse[v1
                                .keys[t].code_spec()] == t by {
                                if t != jj && t != i {
                                    assert(v0.keys[t].code_spec() != c);
                                    assert(v0.keys[t].code_spec() != v0.keys[jj].code_spec());
                                }
                            }
                            assert forall|d: u64| #[trigger]
                                v1.sparse.contains_key(d) implies (v1.sparse[d] as int)
                                < v1.keys.len() && v1.keys[v1.sparse[d] as int].code_spec()
                                == d by {
                                if d != c && d != v0.keys[jj].code_spec() {
                                    assert(v0.sparse[d] as int != i && v0.sparse[d] as int != jj);
                                }
                            }
                        }
                    } else {
                        self.next_group = j;
                        proof {
                            assert(final(self)@ =~= old(self)@.ungroup_tr(c));
                        }
                    }
                }
            },
        }
    }

    /// Removes a key and its value.  A grouped key is first
    /// ungrouped, then the entry is swap-removed and the moved tail
    /// entry is re-indexed.  Absent keys are left alone.
    pub fn remove(&mut self, key: &K)
        requires
            old(self)@.inv(),
        ensures
            final(self)@.inv(),
            final(self)@ == old(self)@.remove_tr(key.code_spec()),
    {
        let c = key.code();
        let idx_opt = match self.sparse_array.get(&c) {
            Some(i) => Some(*i),
            None => None,
        };
        match idx_opt {
            None => {},
            Some(idx0) => {
                let ghost v0 = self@;
                let mut index: usize = idx0;
                if index < self.next_group {
                    self.ungroup(key);
                    index = self.next_group;
                    proof {
                        let v1 = v0.ungroup_tr(c);
                        assert(self@ == v1);
                        assert(v1.contains(c) && v1.index_of(c) == index as int);
                    }
                }
                let ghost v1 = self@;
                proof {
                    assert(v1.contains(c) && v1.index_of(c) == index as int);
                    assert((index as int) < v1.keys.len());
                }
                self.sparse_array.remove(&c);
                self.comp_array.swap_remove(index);
                self.entity_array.swap_remove(index);
                if index < self.entity_array.len() {
                    let moved: K = self.entity_array[index];
                    self.sparse_array.insert(moved.code(), index);
                }
                proof {
                    let v2 = final(self)@;
                    let i = index as int;
                    let last = v1.keys.len() - 1;
                    assert(v2 =~= v0.remove_tr(c));
                    assert forall|t: int| 0 <= t < v2.keys.len() implies v2.sparse.contains_key(
                        (#[trigger] v2.keys[t]).code_spec(),
                    ) && v2.sparse[v2.keys[t].code_spec()] == t by {
                        if t != i {
                            assert(v1.keys[t].code_spec() != c);
                            assert(v1.keys[t].code_spec() != v1.keys[last].code_spec());
                        }
                    }
                    assert forall|d: u64| #[trigger]
                        v2.sparse.contains_key(d) implies (v2.sparse[d] as int) < v2.keys.len()
                        && v2.keys[v2.sparse[d] as int].code_spec() == d by {
                        if i < last && d == v1.keys[last].code_spec() {
                        } else {
                            assert(v1.sparse[d] as int != i && v1.sparse[d] as int != last);
                        }
                    }
                }
            },
        }
    }
}

/// Position and index stay consistent: in a well-formed sparse set
/// the sparse index maps the key stored at any position straight
/// back to that position, and every operation of the set keeps
/// well-formedness, so this holds after any combination of insert,
/// remove, group and ungroup.
pub proof fn lemma_index_round_trip<K: SparseKey, V>(v: SsView<K, V>)
    requires
        v.inv(),
    ensures
        forall|i: int|
            0 <= i < v.keys.len() ==> v.contains((#[trigger] v.keys[i]).code_spec()) && v.index_of(
                v.keys[i].code_spec(),
            ) == i,
{
}

/// Removal inverts insertion: adding an absent key and then removing
/// it restores the whole state, length and membership included.
pub proof fn lemma_remove_inverts_add<K: SparseKey, V>(v: SsView<K, V>, key: K, value: V)
    requires
        v.inv(),
        !v.contains(key.code_spec()),
        v.keys.len() < usize::MAX as int,
    ensures
        v.add_tr(key, value).remove_tr(key.code_spec()) == v,
{
    let c = key.code_spec();
    let v1 = v.add_tr(key, value);
    let v2 = v1.remove_tr(c);
    assert(v1.index_of(c) == v.keys.len());
    assert(v2.keys =~= v.keys);
    assert(v2.vals =~= v.vals);
    assert(v2.sparse =~= v.sparse);
    assert(v2 =~= v);
}

/// Grouping is idempotent: once a key has been grouped, grouping it
/// again changes nothing.
pub proof fn lemma_group_idempotent<K: SparseKey, V>(v: SsView<K, V>, c: u64)
    requires
        v.inv(),
    ensures
        v.group_tr(c).group_tr(c) == v.group_tr(c),
{
    if v.contains(c) {
        lemma_group_makes_grouped(v, c);
    }
}

/// Ungrouping keeps a sparse set well-formed.
pub proof fn lemma_ungroup_preserves_inv<K: SparseKey, V>(v: SsView<K, V>, c: u64)
    requires
        v.inv(),
    ensures
        v.ungroup_tr(c).inv(),
        v.ungroup_tr(c).contains(c) == v.contains(c),
        v.contains(c) ==> v.ungroup_tr(c).index_of(c) >= v.ungroup_tr(c).boundary,
{
    let v1 = v.ungroup_tr(c);
    if v.contains(c) {
        let i = v.index_of(c);
        let b = v.boundary;
        if i >= b {
        } else if i == b - 1 {
            assert(v1 =~= (SsView { boundary: b - 1, ..v }));
        } else {
            assert(v.keys[b - 1].code_spec() != c);
            assert forall|t: int| 0 <= t < v1.keys.len() implies v1.sparse.contains_key(
                (#[trigger] v1.keys[t]).code_spec(),
            ) && v1.sparse[v1.keys[t].code_spec()] == t by {
                if t != i && t != b - 1 {
                    assert(v.keys[t].code_spec() != c);
                    assert(v.keys[t].code_spec() != v.keys[b - 1].code_spec());
                }
            }
            assert forall|d: u64| #[trigger]
                v1.sparse.contains_key(d) implies (v1.sparse[d] as int) < v1.keys.len() && v1.keys[
                v1.sparse[d] as int].code_spec() == d by {
                if d != c && d != v.keys[b - 1].code_spec() {
                    assert(v.sparse[d] as int != i && v.sparse[d] as int != b - 1);
                }
            }
        }
    }
}

/// Removal erases the key: after `remove_tr` the key's code is no
/// longer in the set.
pub proof fn lemma_remove_erases<K: SparseKey, V>(v: SsView<K, V>, c: u64)
    requires
        v.inv(),
    ensures
        !v.remove_tr(c).contains(c),
{
    if v.contains(c) {
        let v1 = if v.index_of(c) < v.boundary {
            v.ungroup_tr(c)
        } else {
            v
        };
        lemma_ungroup_preserves_inv(v, c);
        let i = v1.index_of(c);
        let last = v1.keys.len() - 1;
        if i < last {
            assert(v1.sparse[v1.keys[last].code_spec()] == last);
            assert(v1.keys[last].code_spec() != c);
        }
    }
}

/// Grouping a present key lands it inside the grouped prefix.
pub proof fn lemma_group_makes_grouped<K: SparseKey, V>(v: SsView<K, V>, c: u64)
    requires
        v.inv(),
        v.contains(c),
    ensures
        v.group_tr(c).inv(),
        v.group_tr(c).contains(c),
        v.group_tr(c).index_of(c) < v.group_tr(c).boundary,
        v.group_tr(c).keys.len() == v.keys.len(),
{
    let v1 = v.group_tr(c);
    let i = v.index_of(c);
    let b = v.boundary;
    if i < b {
    } else if i == b {
        assert(v1 =~= (SsView { boundary: b + 1, ..v }));
    } else {
        assert(v.keys[b].code_spec() != c);
        assert forall|t: int| 0 <= t < v1.keys.len() implies v1.sparse.contains_key(
            (#[trigger] v1.keys[t]).code_spec(),
        ) && v1.sparse[v1.keys[t].code_spec()] == t by {
            if t != b && t != i {
                assert(v.keys[t].code_spec() != c);
                assert(v.keys[t].code_spec() != v.keys[b].code_spec());
            }
        }
        assert forall|d: u64| #[trigger]
            v1.sparse.contains_key(d) implies (v1.sparse[d] as int) < v1.keys.len() && v1.keys[v1
            .sparse[d] as int].code_spec() == d by {
            if d != c && d != v.keys[b].code_spec() {
                assert(v.sparse[d] as int != i && v.sparse[d] as int != b);
            }
        }
    }
}

} // verus!
