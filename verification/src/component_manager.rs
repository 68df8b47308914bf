//! The component manager: routes component insertion, lookup and
//! removal through the per-kind registry, runs the grouping protocol
//! after every insertion, and keeps the removal table that lets an
//! entity's death evict its components from every kind that ever
//! held one.
//!
//! Grouping is driven by data: each component kind may carry one
//! [`GroupRule`], declared up front.  After a component of that kind
//! is inserted for an entity, the rule checks that the entity also
//! holds every kind in `needed`, and if so groups the entity in
//! every kind in `targets`.  A clique of mutually grouped kinds
//! declares, for each member, the others as `needed` and the whole
//! clique as `targets`; a partial declaration groups only its own
//! kind.

use vstd::prelude::*;

use crate::entity_handler::Entity;
use crate::family_manager::Container;
use crate::family_manager::Family;
use crate::sparse_set::empty_ss;
use crate::sparse_set::lemma_group_makes_grouped;
use crate::sparse_set::SparseKey;
use crate::sparse_set::SparseSet;
use crate::sparse_set::SsView;

verus! {

/// One grouping rule: after an insertion of the owning kind, group
/// the entity in every `targets` kind once every `needed` kind holds
/// the entity.
pub struct GroupRule {
    needed: Vec<usize>,
    targets: Vec<usize>,
}

/// The mathematical content of a grouping rule.
#[verifier::ext_equal]
pub struct RuleView {
    pub needed: Seq<usize>,
    pub targets: Seq<usize>,
}

impl View for GroupRule {
    type V = RuleView;

    closed spec fn view(&self) -> RuleView {
        RuleView { needed: self.needed@, targets: self.targets@ }
    }
}

impl RuleView {
    /// A rule owned by kind `k` only targets kinds whose presence it
    /// checked: its own, or one of the needed ones; and it names no
    /// target twice.
    pub open spec fn wf(self, k: usize) -> bool {
        &&& forall|i: int, j: int|
            0 <= i < j < self.targets.len() ==> self.targets[i] != self.targets[j]
        &&& forall|i: int|
            0 <= i < self.targets.len() ==> ((#[trigger] self.targets[i]) == k
                || self.needed.contains(self.targets[i]))
    }
}

/// The grouping rule of the kind at position `i` of a mutually
/// grouped clique: every other member is needed, and the whole
/// clique is grouped together.
pub open spec fn clique_rule(kinds: Seq<usize>, i: int) -> RuleView {
    RuleView { needed: kinds.remove(i), targets: seq![kinds[i]] + kinds.remove(i) }
}

/// The mathematical state of a [`ComponentManager`]: the family of
/// every registered kind, the declared grouping rules, and the
/// removal table.
#[verifier::ext_equal]
pub struct CmView<V> {
    /// Kind to the state of its family's sparse set.
    pub families: Map<usize, SsView<Entity, V>>,
    /// Kind to its declared grouping rule.
    pub rules: Map<usize, RuleView>,
    /// The kinds with a registered family, in registration order.
    pub cleans: Seq<usize>,
}

impl<V> CmView<V> {
    /// Well-formedness: every family is well-formed, the removal
    /// table lists exactly the registered kinds and lists none
    /// twice, and every rule is owned by the kind it is stored
    /// under.
    pub open spec fn inv(self) -> bool {
        &&& forall|k: usize| self.families.contains_key(k) ==> (#[trigger] self.families[k]).inv()
        &&& forall|i: int, j: int|
            0 <= i < j < self.cleans.len() ==> self.cleans[i] != self.cleans[j]
        &&& forall|i: int|
            0 <= i < self.cleans.len() ==> self.families.contains_key(#[trigger] self.cleans[i])
        &&& forall|k: usize| #[trigger] self.families.contains_key(k) ==> self.cleans.contains(k)
        &&& forall|k: usize| self.rules.contains_key(k) ==> (#[trigger] self.rules[k]).wf(k)
    }

    /// Whether the entity holds a component of the kind.
    pub open spec fn has(self, kind: usize, e: Entity) -> bool {
        self.families.contains_key(kind) && self.families[kind].contains(e.code_spec())
    }

    /// Whether the entity sits inside the grouped prefix of the
    /// kind's family.
    pub open spec fn grouped(self, kind: usize, e: Entity) -> bool {
        self.has(kind, e) && self.families[kind].index_of(e.code_spec())
            < self.families[kind].boundary
    }

    /// The state after the insertion step of `add_component`: the
    /// kind's family is created on first use (and recorded in the
    /// removal table), then the component is added under
    /// first-write-wins.
    pub open spec fn insert_tr(self, kind: usize, e: Entity, value: V) -> CmView<V> {
        let fam0 = if self.families.contains_key(kind) {
            self.families[kind]
        } else {
            empty_ss()
        };
        let cleans1 = if self.families.contains_key(kind) {
            self.cleans
        } else {
            self.cleans.push(kind)
        };
        CmView {
            families: self.families.insert(kind, fam0.add_tr(e, value)),
            rules: self.rules,
            cleans: cleans1,
        }
    }

    /// Whether the kind's grouping rule fires for the entity: a rule
    /// is declared and every needed kind holds the entity.
    pub open spec fn fires(self, kind: usize, e: Entity) -> bool {
        &&& self.rules.contains_key(kind)
        &&& forall|j: int|
            0 <= j < self.rules[kind].needed.len() ==> self.has(
                #[trigger] self.rules[kind].needed[j],
                e,
            )
    }

    /// The state after grouping the entity in every target of the
    /// kind's rule.
    pub open spec fn group_all_tr(self, kind: usize, e: Entity) -> CmView<V> {
        CmView {
            families: Map::new(
                |k: usize| self.families.contains_key(k),
                |k: usize|
                    if self.rules[kind].targets.contains(k) {
                        self.families[k].group_tr(e.code_spec())
                    } else {
                        self.families[k]
                    },
            ),
            rules: self.rules,
            cleans: self.cleans,
        }
    }

    /// The full effect of `add_component`: insert, then run the
    /// kind's grouping rule if it fires.
    pub open spec fn add_tr(self, kind: usize, e: Entity, value: V) -> CmView<V> {
        let mid = self.insert_tr(kind, e, value);
        if mid.fires(kind, e) {
            mid.group_all_tr(kind, e)
        } else {
            mid
        }
    }

    /// The state after removing the entity's component from every
    /// registered kind.
    pub open spec fn clean_tr(self, e: Entity) -> CmView<V> {
        CmView {
            families: Map::new(
                |k: usize| self.families.contains_key(k),
                |k: usize| self.families[k].remove_tr(e.code_spec()),
            ),
            rules: self.rules,
            cleans: self.cleans,
        }
    }
}

/// Orchestrates component storage: owns the registry, the grouping
/// rules and the removal table.
pub struct ComponentManager<V> {
    family_container: Container<V>,
    rules: Vec<Option<GroupRule>>,
    cleans: Vec<usize>,
}

impl<V> View for ComponentManager<V> {
    type V = CmView<V>;

    closed spec fn view(&self) -> CmView<V> {
        CmView {
            families: self.family_container@,
            rules: Map::new(
                |k: usize| k < self.rules@.len() && self.rules@[k as int] is Some,
                |k: usize| self.rules@[k as int]->Some_0@,
            ),
            cleans: self.cleans@,
        }
    }
}

impl<V> ComponentManager<V> {
    /// Creates a manager with no families, no rules and an empty
    /// removal table.
    pub fn new() -> (r: ComponentManager<V>)
        ensures
            r@ == (CmView {
                families: Map::<usize, SsView<Entity, V>>::empty(),
                rules: Map::<usize, RuleView>::empty(),
                cleans: Seq::<usize>::empty(),
            }),
            r@.inv(),
    {
        let r = ComponentManager {
            family_container: Container::new(),
            rules: Vec::new(),
            cleans: Vec::new(),
        };
        proof {
            assert(r@ =~= (CmView {
                families: Map::<usize, SsView<Entity, V>>::empty(),
                rules: Map::<usize, RuleView>::empty(),
                cleans: Seq::<usize>::empty(),
            }));
        }
        r
    }

    /// Stores a rule under its kind, growing the rule table as
    /// needed.
    fn put_rule(&mut self, kind: usize, rule: GroupRule)
        ensures
            final(self)@ == (CmView {
                rules: old(self)@.rules.insert(kind, rule@),
                ..old(self)@
            }),
    {
        while self.rules.len() <= kind
            invariant
                self@ == old(self)@,
            decreases kind as int + 1 - self.rules@.len(),
        {
            self.rules.push(None);
            proof {
                assert(self@ =~= old(self)@);
            }
        }
        self.rules.set(kind, Some(rule));
        proof {
            assert(self@ =~= (CmView { rules: old(self)@.rules.insert(kind, rule@), ..old(self)@ }));
        }
    }

    /// Declares that `kind` groups after the already declared kinds
    /// in `deps`, without the reverse dependency: once an entity
    /// holds every kind in `deps`, inserting `kind` groups the
    /// entity in `kind`'s own family only.
    pub fn declare_partial_group(&mut self, kind: usize, deps: Vec<usize>)
        requires
            old(self)@.inv(),
            !old(self)@.rules.contains_key(kind),
        ensures
            final(self)@.inv(),
            final(self)@ == (CmView {
                rules: old(self)@.rules.insert(
                    kind,
                    (RuleView { needed: deps@, targets: seq![kind] }),
                ),
                ..old(self)@
            }),
    {
        let mut targets: Vec<usize> = Vec::new();
        targets.push(kind);
        let rule = GroupRule { needed: deps, targets };
        proof {
            assert(rule@ =~= (RuleView { needed: deps@, targets: seq![kind] }));
        }
        self.put_rule(kind, rule);
    }

    /// Declares the kinds in `kinds` as one mutually grouped clique:
    /// each member's rule needs all the others and groups the whole
    /// clique.  Every member must be distinct and not yet own a
    /// rule.
    pub fn declare_group(&mut self, kinds: Vec<usize>)
        requires
            old(self)@.inv(),
            forall|i: int, j: int| 0 <= i < j < kinds@.len() ==> kinds@[i] != kinds@[j],
            forall|i: int|
                0 <= i < kinds@.len() ==> !old(self)@.rules.contains_key(#[trigger] kinds@[i]),
        ensures
            final(self)@.inv(),
            final(self)@.families == old(self)@.families,
            final(self)@.cleans == old(self)@.cleans,
            forall|k: usize|
                !kinds@.contains(k) ==> (#[trigger] final(self)@.rules.contains_key(k) == old(self)@.rules.contains_key(k)
                    && (old(self)@.rules.contains_key(k) ==> final(self)@.rules[k]
                    == old(self)@.rules[k])),
            forall|i: int|
                0 <= i < kinds@.len() ==> final(self)@.rules.contains_key(#[trigger] kinds@[i])
                    && final(self)@.rules[kinds@[i]] == clique_rule(kinds@, i),
    {
        let n = kinds.len();
        let mut i: usize = 0;
        while i < n
            invariant
                n == kinds@.len(),
                0 <= i <= n,
                forall|s: int, t: int| 0 <= s < t < kinds@.len() ==> kinds@[s] != kinds@[t],
                self@.inv(),
                self@.families == old(self)@.families,
                self@.cleans == old(self)@.cleans,
                forall|k: usize|
                    !kinds@.contains(k) ==> (#[trigger] self@.rules.contains_key(k) == old(self)@.rules.contains_key(k)
                        && (old(self)@.rules.contains_key(k) ==> self@.rules[k]
                        == old(self)@.rules[k])),
                forall|s: int|
                    0 <= s < i ==> self@.rules.contains_key(#[trigger] kinds@[s])
                        && self@.rules[kinds@[s]] == clique_rule(kinds@, s),
                forall|s: int|
                    i <= s < kinds@.len() ==> !self@.rules.contains_key(#[trigger] kinds@[s]),
            decreases n - i,
        {
            let kind = kinds[i];
            let mut needed: Vec<usize> = Vec::new();
            let mut targets: Vec<usize> = Vec::new();
            targets.push(kind);
            let mut j: usize = 0;
            while j < n
                invariant
                    n == kinds@.len(),
                    0 <= j <= n,
                    i < n,
                    kind == kinds@[i as int],
                    needed@ == (if j <= i {
                        kinds@.subrange(0, j as int)
                    } else {
                        kinds@.subrange(0, i as int) + kinds@.subrange(i as int + 1, j as int)
                    }),
                    targets@ == seq![kind] + needed@,
                decreases n - j,
            {
                if j != i {
                    needed.push(kinds[j]);
                    targets.push(kinds[j]);
                }
                j = j + 1;
                proof {
                    if j - 1 != i {
                        if j <= i {
                            assert(needed@ =~= kinds@.subrange(0, j as int));
                        } else {
                            assert(needed@ =~= kinds@.subrange(0, i as int) + kinds@.subrange(
                                i as int + 1,
                                j as int,
                            ));
                        }
                    } else {
                        assert(needed@ =~= kinds@.subrange(0, i as int) + kinds@.subrange(
                            i as int + 1,
                            j as int,
                        ));
                    }
                }
            }
            proof {
                assert(needed@ =~= kinds@.remove(i as int));
                assert(targets@ =~= seq![kinds@[i as int]] + kinds@.remove(i as int));
            }
            let rule = GroupRule { needed, targets };
            proof {
                assert(rule@ =~= clique_rule(kinds@, i as int));
                assert(rule@.wf(kind)) by {
                    let others = kinds@.remove(i as int);
                    assert forall|s: int|
                        0 <= s < rule@.targets.len() implies #[trigger] rule@.targets[s] == kind
                        || rule@.needed.contains(rule@.targets[s]) by {
                        if s > 0 {
                            assert(rule@.targets[s] == others[s - 1]);
                            assert(rule@.needed.contains(others[s - 1]));
                        }
                    }
                }
            }
            self.put_rule(kind, rule);
            i = i + 1;
        }
    }

    /// Whether the entity holds a component of the kind; an
    /// unregistered kind holds nothing.
    pub fn has_component(&self, kind: usize, entity: &Entity) -> (r: bool)
        ensures
            r == self@.has(kind, *entity),
    {
        match self.family_container.get_family(kind) {
            Some(f) => f.components.contains(entity),
            None => false,
        }
    }

    /// Whether the kind's grouping rule is declared and fires for
    /// the entity.
    fn rule_fires(&self, kind: usize, entity: &Entity) -> (r: bool)
        ensures
            r == self@.fires(kind, *entity),
    {
        if kind >= self.rules.len() {
            return false;
        }
        match &self.rules[kind] {
            None => false,
            Some(rule) => {
                let n = rule.needed.len();
                let mut j: usize = 0;
                let mut all = true;
                while j < n
                    invariant
                        n == rule.needed@.len(),
                        0 <= j <= n,
                        rule@ == self@.rules[kind],
                        self@.rules.contains_key(kind),
                        all == (forall|t: int|
                            0 <= t < j ==> self@.has(
                                #[trigger] self@.rules[kind].needed[t],
                                *entity,
                            )),
                    decreases n - j,
                {
                    proof {
                        assert(rule.needed@[j as int] == self@.rules[kind].needed[j as int]);
                    }
                    if !self.has_component(rule.needed[j], entity) {
                        all = false;
                    }
                    j = j + 1;
                }
                all
            },
        }
    }

    /// Groups the entity in every target of the kind's rule.
    fn group_targets(&mut self, kind: usize, entity: &Entity)
        requires
            old(self)@.inv(),
            old(self)@.families.contains_key(kind),
            old(self)@.fires(kind, *entity),
        ensures
            final(self)@.inv(),
            final(self)@ == old(self)@.group_all_tr(kind, *entity),
    {
        let ghost v0 = old(self)@;
        let ghost targets = v0.rules[kind].targets;
        let ghost c = entity.code_spec();
        let n = match &self.rules[kind] {
            Some(rule) => rule.targets.len(),
            None => unreached(),
        };
        let mut i: usize = 0;
        while i < n
            invariant
                self@.inv(),
                v0.inv(),
                v0.rules.contains_key(kind),
                v0.families.contains_key(kind),
                v0.fires(kind, *entity),
                targets == v0.rules[kind].targets,
                c == entity.code_spec(),
                n == targets.len(),
                0 <= i <= n,
                self@.rules == v0.rules,
                self@.cleans == v0.cleans,
                forall|k: usize| #[trigger]
                    self@.families.contains_key(k) == v0.families.contains_key(k),
                forall|s: int|
                    0 <= s < i ==> v0.families.contains_key(#[trigger] targets[s])
                        && self@.families[targets[s]] == v0.families[targets[s]].group_tr(c),
                forall|k: usize|
                    v0.families.contains_key(k) && !(exists|s: int|
                        0 <= s < i && targets[s] == k) ==> #[trigger] self@.families[k]
                        == v0.families[k],
            decreases n - i,
        {
            let t = match &self.rules[kind] {
                Some(rule) => rule.targets[i],
                None => unreached(),
            };
            proof {
                let rv = v0.rules[kind];
                assert(rv.wf(kind));
                assert(rv.targets[i as int] == t);
                if t != kind {
                    assert(rv.needed.contains(rv.targets[i as int]));
                    let j = choose|j: int| 0 <= j < rv.needed.len() && rv.needed[j] == t;
                    assert(v0.has(v0.rules[kind].needed[j], *entity));
                }
                assert(v0.families.contains_key(t));
                assert(self@.families.contains_key(t));
            }
            let ghost pre = self@;
            let fam = match self.family_container.get_family_mut(t) {
                Some(f) => f,
                None => unreached(),
            };
            fam.components.group(entity);
            proof {
                assert(self@.families =~= pre.families.insert(t, pre.families[t].group_tr(c)));
                assert forall|s: int|
                    0 <= s < i + 1 implies v0.families.contains_key(#[trigger] targets[s])
                    && self@.families[targets[s]] == v0.families[targets[s]].group_tr(c) by {
                    if s < i {
                        assert(targets[s] != t);
                    } else {
                        assert(pre.families[t] == v0.families[t]);
                    }
                }
            }
            i = i + 1;
        }
        proof {
            assert forall|k: usize| #[trigger]
                v0.families.contains_key(k) implies self@.families.contains_key(k) && self@.families[k]
                == (if targets.contains(k) {
                v0.families[k].group_tr(c)
            } else {
                v0.families[k]
            }) by {
                if targets.contains(k) {
                    let s = choose|s: int| 0 <= s < targets.len() && targets[s] == k;
                    assert(self@.families[targets[s]] == v0.families[targets[s]].group_tr(c));
                }
            }
            assert(self@ =~= v0.group_all_tr(kind, *entity));
        }
    }

    /// Adds a component to an entity: the kind's family is created
    /// on first use (registering the kind in the removal table), the
    /// value is inserted under first-write-wins, and the kind's
    /// grouping rule runs before the call returns.
    pub fn add_component(&mut self, kind: usize, entity: &Entity, component: V)
        requires
            old(self)@.inv(),
            old(self)@.families.contains_key(kind) ==> old(self)@.families[kind].keys.len()
                < usize::MAX as int,
        ensures
            final(self)@.inv(),
            final(self)@ == old(self)@.add_tr(kind, *entity, component),
    {
        let registered = match self.family_container.get_family(kind) {
            Some(_) => true,
            None => false,
        };
        if !registered {
            self.family_container.add_family(kind, Family::new());
            self.cleans.push(kind);
        }
        let ghost v0 = old(self)@;
        let fam = match self.family_container.get_family_mut(kind) {
            Some(f) => f,
            None => unreached(),
        };
        fam.components.add(entity, component);
        proof {
            assert(self@.families =~= v0.families.insert(
                kind,
                (if v0.families.contains_key(kind) {
                    v0.families[kind]
                } else {
                    empty_ss()
                }).add_tr(*entity, component),
            ));
            assert(self@ =~= v0.insert_tr(kind, *entity, component));
            assert(self@.inv()) by {
                let mid = self@;
                assert forall|k: usize| #[trigger]
                    mid.families.contains_key(k) implies mid.cleans.contains(k) by {
                    if k != kind {
                        assert(v0.cleans.contains(k));
                        let s = choose|s: int| 0 <= s < v0.cleans.len() && v0.cleans[s] == k;
                        assert(mid.cleans[s] == k);
                    } else {
                        if v0.families.contains_key(kind) {
                        } else {
                            assert(mid.cleans[mid.cleans.len() - 1] == kind);
                        }
                    }
                }
            }
        }
        let fired = self.rule_fires(kind, entity);
        if fired {
            self.group_targets(kind, entity);
        }
    }

    /// Shares the component set of a kind, or reports the kind as
    /// never registered.
    pub fn get_components(&self, kind: usize) -> (r: Option<&SparseSet<Entity, V>>)
        ensures
            match r {
                Some(s) => self@.families.contains_key(kind) && s@ == self@.families[kind],
                None => !self@.families.contains_key(kind),
            },
    {
        match self.family_container.get_family(kind) {
            Some(f) => Some(&f.components),
            None => None,
        }
    }

    /// Lends the component set of a kind exclusively, when the kind
    /// is registered.  Only that family can change through the
    /// borrow.
    pub fn get_components_mut(&mut self, kind: usize) -> (r: Option<&mut SparseSet<Entity, V>>)
        ensures
            !old(self)@.families.contains_key(kind) ==> r.is_none() && final(self)@ == old(self)@,
            old(self)@.families.contains_key(kind) ==> r.is_some() && (*r.unwrap())@ == old(
                self,
            )@.families[kind] && final(self)@.rules == old(self)@.rules && final(self)@.cleans
                == old(self)@.cleans && final(self)@.families == old(self)@.families.insert(
                kind,
                (*final(r.unwrap()))@,
            ),
    {
        match self.family_container.get_family_mut(kind) {
            Some(f) => Some(&mut f.components),
            None => None,
        }
    }

    /// Removes the entity's component from every kind in the
    /// removal table, that is from every registered kind; kinds that
    /// never held the entity are unaffected.
    pub fn clean_components(&mut self, entity: Entity)
        requires
            old(self)@.inv(),
        ensures
            final(self)@.inv(),
            final(self)@ == old(self)@.clean_tr(entity),
    {
        let ghost v0 = old(self)@;
        let ghost c = entity.code_spec();
        let n = self.cleans.len();
        let mut i: usize = 0;
        while i < n
            invariant
                self@.inv(),
                v0.inv(),
                c == entity.code_spec(),
                n == v0.cleans.len(),
                0 <= i <= n,
                self@.rules == v0.rules,
                self@.cleans == v0.cleans,
                forall|k: usize| #[trigger]
                    self@.families.contains_key(k) == v0.families.contains_key(k),
                forall|s: int|
                    0 <= s < i ==> v0.families.contains_key(#[trigger] v0.cleans[s])
                        && self@.families[v0.cleans[s]] == v0.families[v0.cleans[s]].remove_tr(c),
                forall|k: usize|
                    v0.families.contains_key(k) && !(exists|s: int|
                        0 <= s < i && v0.cleans[s] == k) ==> #[trigger] self@.families[k]
                        == v0.families[k],
            decreases n - i,
        {
            let kind = self.cleans[i];
            let ghost pre = self@;
            let fam = match self.family_container.get_family_mut(kind) {
                Some(f) => f,
                None => unreached(),
            };
            fam.components.remove(&entity);
            proof {
                assert(self@.families =~= pre.families.insert(
                    kind,
                    pre.families[kind].remove_tr(c),
                ));
                assert forall|s: int|
                    0 <= s < i + 1 implies v0.families.contains_key(#[trigger] v0.cleans[s])
                    && self@.families[v0.cleans[s]] == v0.families[v0.cleans[s]].remove_tr(c) by {
                    if s < i {
                        assert(v0.cleans[s] != kind);
                    } else {
                        assert(pre.families[kind] == v0.families[kind]);
                    }
                }
            }
            i = i + 1;
        }
        proof {
            assert forall|k: usize| #[trigger]
                v0.families.contains_key(k) implies self@.families[k] == v0.families[k].remove_tr(
                c,
            ) by {
                assert(v0.cleans.contains(k));
                let s = choose|s: int| 0 <= s < v0.cleans.len() && v0.cleans[s] == k;
                assert(self@.families[v0.cleans[s]] == v0.families[v0.cleans[s]].remove_tr(c));
            }
            assert(self@ =~= v0.clean_tr(entity));
        }
    }
}

/// The grouping invariant: when an insertion makes a kind's rule
/// fire, the entity ends up inside the grouped prefix of every
/// target of that rule — the whole declared clique at once.
pub proof fn lemma_add_groups_clique<V>(cm: CmView<V>, kind: usize, e: Entity, value: V)
    requires
        cm.inv(),
        cm.insert_tr(kind, e, value).fires(kind, e),
        cm.families.contains_key(kind) ==> cm.families[kind].keys.len() < usize::MAX as int,
    ensures
        ({
            let out = cm.add_tr(kind, e, value);
            forall|j: int|
                0 <= j < cm.rules[kind].targets.len() ==> out.grouped(
                    #[trigger] cm.rules[kind].targets[j],
                    e,
                )
        }),
{
    let mid = cm.insert_tr(kind, e, value);
    let out = cm.add_tr(kind, e, value);
    let rule = cm.rules[kind];
    let c = e.code_spec();
    assert(rule.wf(kind));
    assert(mid.families[kind].inv()) by {
        if cm.families.contains_key(kind) {
            lemma_add_preserves_inv(cm.families[kind], e, value);
        } else {
            lemma_add_preserves_inv(empty_ss::<Entity, V>(), e, value);
        }
    }
    assert forall|j: int| 0 <= j < rule.targets.len() implies out.grouped(
        #[trigger] rule.targets[j],
        e,
    ) by {
        let t = rule.targets[j];
        if t != kind {
            assert(rule.needed.contains(t));
            let s = choose|s: int| 0 <= s < rule.needed.len() && rule.needed[s] == t;
            assert(mid.has(rule.needed[s], e));
        }
        assert(mid.families.contains_key(t));
        assert(mid.families[t].inv());
        assert(mid.families[t].contains(c));
        lemma_group_makes_grouped(mid.families[t], c);
        assert(out.families[t] == mid.families[t].group_tr(c));
    }
}

/// Cleaning an entity's components evicts it from every kind: after
/// `clean_tr` no registered family holds the entity, so a killed
/// entity leaves no component behind.
pub proof fn lemma_clean_removes_everywhere<V>(cm: CmView<V>, e: Entity)
    requires
        cm.inv(),
    ensures
        forall|k: usize| !cm.clean_tr(e).has(k, e),
{
    let out = cm.clean_tr(e);
    assert forall|k: usize| !out.has(k, e) by {
        if out.families.contains_key(k) {
            crate::sparse_set::lemma_remove_erases(cm.families[k], e.code_spec());
        }
    }
}

/// Inserting into a well-formed sparse set keeps it well-formed.
proof fn lemma_add_preserves_inv<K: SparseKey, V>(v: SsView<K, V>, key: K, value: V)
    requires
        v.inv(),
        v.keys.len() < usize::MAX as int,
    ensures
        v.add_tr(key, value).inv(),
{
    let c = key.code_spec();
    if !v.contains(c) {
        let v1 = v.add_tr(key, value);
        assert forall|i: int| 0 <= i < v1.keys.len() implies v1.sparse.contains_key(
            (#[trigger] v1.keys[i]).code_spec(),
        ) && v1.sparse[v1.keys[i].code_spec()] == i by {
            if i < v.keys.len() {
                assert(v.keys[i].code_spec() != c);
            }
        }
    }
}

} // verus!
