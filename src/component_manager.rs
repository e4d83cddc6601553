use vstd::prelude::*;

use crate::component::{ComponentError, ComponentRootType, ComponentSupplier, ComponentType, SdComponent};
use crate::config::Properties;
use crate::container::ObjectWrapperContainer;
use crate::table::{Table, TableKey};

verus! {

/// The view of a component type: its category and its name.
pub type TypeKey = (ComponentRootType, Seq<char>);

/// The view of a registry: the suppliers in the order they were accepted,
/// and for each bound component type the position of its supplier.
pub struct Registrations<S> {
    pub suppliers: Seq<S>,
    pub bindings: Map<TypeKey, int>,
}

impl<S> Registrations<S> {
    pub open spec fn empty() -> Registrations<S> {
        Registrations { suppliers: Seq::empty(), bindings: Map::empty() }
    }

    /// Whether `key` is bound.
    pub open spec fn binds(self, key: TypeKey) -> bool {
        self.bindings.contains_key(key)
    }

    pub open spec fn well_formed(self) -> bool {
        forall|k: TypeKey| #[trigger] self.bindings.contains_key(k) ==> 0 <= self.bindings[k] < self.suppliers.len()
    }
}

/// Whether binding `keys` in `reg` would meet a key that is already bound,
/// or a key that `keys` names twice.
pub open spec fn has_conflict(bindings: Map<TypeKey, int>, keys: Seq<TypeKey>) -> bool {
    exists|i: int|
        0 <= i < keys.len() && (bindings.contains_key(#[trigger] keys[i]) || exists|j: int|
            0 <= j < i && keys[j] == keys[i])
}

/// `bindings` with every key of `keys` bound to position `at`.
pub open spec fn bind_all(bindings: Map<TypeKey, int>, keys: Seq<TypeKey>, at: int) -> Map<TypeKey, int>
    decreases keys.len(),
{
    if keys.len() == 0 {
        bindings
    } else {
        bind_all(bindings, keys.drop_last(), at).insert(keys.last(), at)
    }
}

/// The types that each of `sups` supplies.
pub open spec fn supplied_keys<S: ComponentSupplier>(sups: Seq<S>) -> Seq<Seq<TypeKey>> {
    Seq::new(sups.len(), |i: int| sups[i].supplied())
}

/// What registering, one after the other, suppliers that supply `keys[0]`,
/// `keys[1]`, ... does to `bindings` when `count` suppliers are registered
/// already: the bindings at the end, and how many of the suppliers were
/// accepted. The first refused supplier stops the run; those before it stay.
pub open spec fn registered_all(bindings: Map<TypeKey, int>, count: int, keys: Seq<Seq<TypeKey>>) -> (Map<TypeKey, int>, int)
    decreases keys.len(),
{
    if keys.len() == 0 || has_conflict(bindings, keys[0]) {
        (bindings, 0)
    } else {
        let next = registered_all(bind_all(bindings, keys[0], count), count + 1, keys.skip(1));
        (next.0, next.1 + 1)
    }
}

pub proof fn lemma_bind_all(bindings: Map<TypeKey, int>, keys: Seq<TypeKey>, at: int)
    ensures
        forall|k: TypeKey| #[trigger] bind_all(bindings, keys, at).contains_key(k) <==> (bindings.contains_key(k) || keys.contains(k)),
        forall|k: TypeKey| #[trigger] bind_all(bindings, keys, at).contains_key(k) ==> bind_all(bindings, keys, at)[k] == if keys.contains(k) { at } else { bindings[k] },
    decreases keys.len(),
{
    if keys.len() == 0 {
        assert forall|k: TypeKey| !keys.contains(k) by {}
    } else {
        let prev = keys.drop_last();
        lemma_bind_all(bindings, prev, at);
        let m = bind_all(bindings, keys, at);
        assert(m == bind_all(bindings, prev, at).insert(keys.last(), at));
        assert forall|k: TypeKey| keys.contains(k) <==> (prev.contains(k) || k == keys.last()) by {
            if keys.contains(k) {
                let i = choose|i: int| 0 <= i < keys.len() && keys[i] == k;
                if i < keys.len() - 1 {
                    assert(prev[i] == k);
                }
            }
            if prev.contains(k) {
                let i = choose|i: int| 0 <= i < prev.len() && prev[i] == k;
                assert(keys[i] == k);
            }
            if k == keys.last() {
                assert(keys[keys.len() - 1] == k);
            }
        }
        assert forall|k: TypeKey| #[trigger] m.contains_key(k) <==> (bindings.contains_key(k) || keys.contains(k)) by {
            assert(bind_all(bindings, prev, at).contains_key(k) <==> (bindings.contains_key(k) || prev.contains(k)));
        }
        assert forall|k: TypeKey| #[trigger] m.contains_key(k) implies m[k] == if keys.contains(k) { at } else { bindings[k] } by {
            if k != keys.last() {
                assert(bind_all(bindings, prev, at).contains_key(k));
            }
        }
    }
}

/// Whether `b` keeps every binding and every supplier of `a`.
pub open spec fn extends<S>(a: Registrations<S>, b: Registrations<S>) -> bool {
    &&& a.bindings.submap_of(b.bindings)
    &&& a.suppliers.is_prefix_of(b.suppliers)
}

/// Registering suppliers never unbinds or rebinds a type.
pub proof fn lemma_registered_all_extends(bindings: Map<TypeKey, int>, count: int, keys: Seq<Seq<TypeKey>>)
    ensures
        bindings.submap_of(registered_all(bindings, count, keys).0),
        0 <= registered_all(bindings, count, keys).1 <= keys.len(),
    decreases keys.len(),
{
    if keys.len() > 0 && !has_conflict(bindings, keys[0]) {
        let next = bind_all(bindings, keys[0], count);
        lemma_bind_all(bindings, keys[0], count);
        assert forall|k: TypeKey| #[trigger] bindings.contains_key(k) implies next.contains_key(k) && next[k] == bindings[k] by {
            if keys[0].contains(k) {
                let i = choose|i: int| 0 <= i < keys[0].len() && keys[0][i] == k;
                assert(bindings.contains_key(keys[0][i]));
                assert(has_conflict(bindings, keys[0]));
            }
            assert(next.contains_key(k));
        }
        lemma_registered_all_extends(next, count + 1, keys.skip(1));
    }
}

/// Once `first` is registered, a supplier `second` that supplies one of the
/// same types is refused, and that type stays bound to `first`.
pub proof fn lemma_uniqueness<S: ComponentSupplier>(reg: Registrations<S>, first: S, second: S, key: TypeKey)
    requires
        !has_conflict(reg.bindings, first.supplied()),
        first.supplied().contains(key),
        second.supplied().contains(key),
    ensures
        ({
            let after = Registrations {
                suppliers: reg.suppliers.push(first),
                bindings: bind_all(reg.bindings, first.supplied(), reg.suppliers.len() as int),
            };
            &&& has_conflict(after.bindings, second.supplied())
            &&& after.binds(key)
            &&& after.suppliers[after.bindings[key]] == first
        }),
{
    let at = reg.suppliers.len() as int;
    let bindings = bind_all(reg.bindings, first.supplied(), at);
    lemma_bind_all(reg.bindings, first.supplied(), at);
    assert(bindings.contains_key(key));
    let i = choose|i: int| 0 <= i < second.supplied().len() && second.supplied()[i] == key;
    assert(bindings.contains_key(second.supplied()[i]));
}

/// Binds component types to the suppliers that make them; each type is
/// bound at most once, and bindings are never taken back.
pub struct ComponentManager<S> {
    suppliers: Vec<S>,
    component_suppliers: Table<ComponentType, usize>,
    object_container: Box<ObjectWrapperContainer>,
}

impl<S> View for ComponentManager<S> {
    type V = Registrations<S>;

    closed spec fn view(&self) -> Registrations<S> {
        Registrations {
            suppliers: self.suppliers@,
            bindings: self.component_suppliers.view().map_values(|i: usize| i as int),
        }
    }
}

impl<S: ComponentSupplier> ComponentManager<S> {
    pub closed spec fn wf(&self) -> bool {
        &&& self.component_suppliers.wf()
        &&& self.object_container.wf()
        &&& self@.well_formed()
    }

    pub closed spec fn objects(&self) -> ObjectWrapperContainer {
        *self.object_container
    }

    pub fn new(object_container: Box<ObjectWrapperContainer>) -> (r: Self)
        requires
            object_container.wf(),
        ensures
            r.wf(),
            r@ == Registrations::<S>::empty(),
            r.objects() == *object_container,
    {
        let r = ComponentManager { suppliers: Vec::new(), component_suppliers: Table::new(), object_container };
        assert(r@.bindings =~= Map::<TypeKey, int>::empty());
        r
    }

    /// The object store that this manager was given.
    pub fn object_container(&self) -> (r: &ObjectWrapperContainer)
        ensures
            *r == self.objects(),
    {
        &self.object_container
    }

    /// Registers `supplier` under every type it supplies. Nothing is bound
    /// when one of those types is bound already, or named twice.
    pub fn register(&mut self, supplier: S) -> (r: Result<bool, ComponentError>)
        requires
            old(self).wf(),
        ensures
            final(self).wf(),
            final(self).objects() == old(self).objects(),
            r is Ok <==> !has_conflict(old(self)@.bindings, supplier.supplied()),
            r is Ok ==> {
                &&& r == Ok::<bool, ComponentError>(true)
                &&& final(self)@.suppliers == old(self)@.suppliers.push(supplier)
                &&& final(self)@.bindings == bind_all(old(self)@.bindings, supplier.supplied(), old(self)@.suppliers.len() as int)
            },
            r is Err ==> final(self)@ == old(self)@,
    {
        let component_types = supplier.supply_types();
        let ghost keys = supplier.supplied();
        let mut i: usize = 0;
        while i < component_types.len()
            invariant
                self.wf(),
                *self == *old(self),
                keys == supplier.supplied(),
                component_types@.len() == keys.len(),
                forall|j: int| 0 <= j < keys.len() ==> #[trigger] component_types@[j]@ == keys[j],
                i <= keys.len(),
                forall|a: int| 0 <= a < i ==> !self@.bindings.contains_key(#[trigger] keys[a]),
                forall|a: int, b: int| 0 <= b < a < i ==> #[trigger] keys[b] != #[trigger] keys[a],
            decreases keys.len() - i,
        {
            let t = &component_types[i];
            let mut clash = match self.component_suppliers.find(t) {
                Some(x) => {
                    proof {
                        self.component_suppliers.lemma_entry(x as int);
                    }
                    true
                },
                None => {
                    proof {
                        assert(!self@.bindings.contains_key(t@));
                    }
                    false
                },
            };
            let mut j: usize = 0;
            while j < i && !clash
                invariant
                    self.wf(),
                    *self == *old(self),
                    keys == supplier.supplied(),
                    i < keys.len(),
                    component_types@.len() == keys.len(),
                    forall|x: int| 0 <= x < keys.len() ==> #[trigger] component_types@[x]@ == keys[x],
                    *t == component_types@[i as int],
                    j <= i,
                    !clash ==> forall|b: int| 0 <= b < j ==> #[trigger] keys[b] != keys[i as int],
                    !clash ==> !self@.bindings.contains_key(keys[i as int]),
                    clash ==> (self@.bindings.contains_key(keys[i as int]) || exists|b: int| 0 <= b < i && keys[b] == keys[i as int]),
                decreases i - j,
            {
                if component_types[j].same_key(t) {
                    clash = true;
                }
                j = j + 1;
            }
            if clash {
                proof {
                    assert(has_conflict(self@.bindings, keys));
                }
                let mut message = "Component type ".to_string();
                message.append(t.describe().as_str());
                message.append(" already registered");
                return Err(ComponentError::from_message(message));
            }
            i = i + 1;
        }
        proof {
            assert(!has_conflict(self@.bindings, keys));
        }
        let ghost start = self@;
        let at = self.suppliers.len();
        let mut component_types = component_types;
        let ghost mut n: int = 0;
        let ghost all = component_types@;
        while component_types.len() > 0
            invariant
                self.component_suppliers.wf(),
                self.object_container.wf(),
                self.objects() == old(self).objects(),
                self.suppliers@ == start.suppliers,
                keys == supplier.supplied(),
                at == start.suppliers.len(),
                start.well_formed(),
                all.len() == keys.len(),
                forall|j: int| 0 <= j < keys.len() ==> #[trigger] all[j]@ == keys[j],
                n <= keys.len(),
                0 <= n <= all.len(),
                component_types@ == all.subrange(n, all.len() as int),
                self@.bindings == bind_all(start.bindings, keys.subrange(0, n), at as int),
            decreases component_types@.len(),
        {
            let t = component_types.remove(0);
            proof {
                assert(t@ == keys[n]);
                assert(keys.subrange(0, n + 1).drop_last() =~= keys.subrange(0, n));
                assert(component_types@ =~= all.subrange(n + 1, all.len() as int));
            }
            let ghost before = self.component_suppliers.view();
            self.component_suppliers.insert(t, at);
            proof {
                assert(self@.bindings =~= before.map_values(|i: usize| i as int).insert(keys[n], at as int));
                n = n + 1;
            }
        }
        self.suppliers.push(supplier);
        proof {
            assert(keys.subrange(0, n) =~= keys);
            lemma_bind_all(start.bindings, keys, at as int);
            assert(self@.suppliers.len() == start.suppliers.len() + 1);
            assert(self@.bindings == bind_all(start.bindings, keys, at as int));
            assert forall|k: TypeKey| #[trigger] self@.bindings.contains_key(k) implies 0 <= self@.bindings[k] < self@.suppliers.len() by {
                if !keys.contains(k) {
                    assert(start.bindings.contains_key(k));
                }
            }
            assert(self@.well_formed());
        }
        Ok(true)
    }

    /// Registers the suppliers in order, stopping at the first one refused;
    /// those registered before it stay.
    pub fn register_suppliers(&mut self, suppliers: Vec<S>) -> (r: Result<bool, ComponentError>)
        requires
            old(self).wf(),
        ensures
            final(self).wf(),
            final(self).objects() == old(self).objects(),
            ({
                let outcome = registered_all(
                    old(self)@.bindings,
                    old(self)@.suppliers.len() as int,
                    supplied_keys(suppliers@),
                );
                &&& final(self)@.bindings == outcome.0
                &&& final(self)@.suppliers == old(self)@.suppliers + suppliers@.take(outcome.1)
                &&& r is Ok <==> outcome.1 == suppliers@.len()
            }),
            r is Ok ==> r == Ok::<bool, ComponentError>(true),
    {
        let ghost all = suppliers@;
        let ghost keys = supplied_keys(all);
        let ghost outcome = registered_all(old(self)@.bindings, old(self)@.suppliers.len() as int, keys);
        let ghost end_bindings = outcome.0;
        let ghost accepted = outcome.1;
        let mut pending = suppliers;
        let ghost mut done: int = 0;
        proof {
            assert(keys.skip(0) =~= keys);
            assert(all.skip(0) =~= all);
            assert(all.take(0) =~= Seq::<S>::empty());
            assert(old(self)@.suppliers + all.take(0) =~= old(self)@.suppliers);
        }
        while pending.len() > 0
            invariant
                all == suppliers@,
                self.wf(),
                self.objects() == old(self).objects(),
                0 <= done <= all.len(),
                keys == supplied_keys(all),
                outcome == registered_all(old(self)@.bindings, old(self)@.suppliers.len() as int, keys),
                end_bindings == outcome.0,
                accepted == outcome.1,
                pending@ == all.skip(done),
                self@.suppliers == old(self)@.suppliers + all.take(done),
                ({
                    let rest = registered_all(self@.bindings, self@.suppliers.len() as int, keys.skip(done));
                    rest.0 == end_bindings && rest.1 + done == accepted
                }),
            decreases pending@.len(),
        {
            proof {
                assert(done < all.len());
            }
            let s = pending.remove(0);
            proof {
                assert(all.skip(done)[0] == s);
                assert(all[done] == s);
                assert(keys.skip(done)[0] == s.supplied());
                assert(keys.skip(done).skip(1) =~= keys.skip(done + 1));
                assert(all.skip(done).skip(1) =~= all.skip(done + 1));
                assert(pending@ =~= all.skip(done + 1));
            }
            let ghost before = self@;
            let res = self.register(s);
            match res {
                Ok(_) => {},
                Err(e) => {
                    proof {
                        assert(has_conflict(before.bindings, keys.skip(done)[0]));
                        assert(registered_all(before.bindings, before.suppliers.len() as int, keys.skip(done)) == (before.bindings, 0int));
                        assert(accepted == done);
                        assert(end_bindings == self@.bindings);
                        assert(done < all.len());
                        assert(self@.suppliers == old(self)@.suppliers + all.take(accepted));
                    }
                    return Err(e);
                },
            }
            proof {
                assert(all.take(done + 1) =~= all.take(done).push(s));
                done = done + 1;
            }
        }
        proof {
            assert(keys.skip(done).len() == 0);
            assert(all.take(done) =~= all);
        }
        Ok(true)
    }

    /// The supplier bound to `key`, if any.
    pub fn resolve(&self, key: &ComponentType) -> (r: Option<&S>)
        requires
            self.wf(),
        ensures
            match r {
                Some(s) => self@.binds(key@) && *s == self@.suppliers[self@.bindings[key@]],
                None => !self@.binds(key@),
            },
    {
        match self.component_suppliers.get(key) {
            Some(i) => {
                proof {
                    assert(self@.bindings.contains_key(key@));
                    assert(self@.bindings[key@] == *i as int);
                }
                Some(&self.suppliers[*i])
            },
            None => None,
        }
    }

    /// Makes a component of type `key` from `props`, with the supplier bound
    /// to `key`. An unbound type is an error; so is whatever the supplier refuses.
    pub fn instantiate(&self, key: &ComponentType, props: &Properties) -> (r: Result<Box<dyn SdComponent>, ComponentError>)
        requires
            self.wf(),
            props.wf(),
        ensures
            r is Ok <==> self@.binds(key@) && self@.suppliers[self@.bindings[key@]].accepts(props@),
            !self@.binds(key@) ==> r is Err && r->Err_0@ == unknown_type_message(key@),
    {
        match self.resolve(key) {
            Some(s) => s.apply(props),
            None => {
                let mut message = "Unknown component type ".to_string();
                message.append(key.describe().as_str());
                Err(ComponentError::from_message(message))
            },
        }
    }

    /// How many component types are bound.
    pub fn registered_count(&self) -> (r: usize)
        requires
            self.wf(),
        ensures
            r == self@.bindings.dom().len(),
    {
        proof {
            self.component_suppliers.lemma_key_seq();
            self.component_suppliers.key_seq().unique_seq_to_set();
            assert(self@.bindings.dom() =~= self.component_suppliers.view().dom());
        }
        self.component_suppliers.len()
    }

    /// The names of the bound types of category `root`, each once, in the
    /// order they were bound.
    pub fn type_names_of(&self, root: ComponentRootType) -> (r: Vec<String>)
        requires
            self.wf(),
        ensures
            forall|i: int| 0 <= i < r@.len() ==> self@.binds((root, #[trigger] r@[i]@)),
            forall|n: Seq<char>| #[trigger] self@.binds((root, n)) ==> exists|i: int| 0 <= i < r@.len() && r@[i]@ == n,
            forall|i: int, j: int| 0 <= i < j < r@.len() ==> r@[i]@ != r@[j]@,
    {
        let mut out: Vec<String> = Vec::new();
        let mut i: usize = 0;
        let ghost t = self.component_suppliers;
        proof {
            t.lemma_key_seq();
        }
        while i < self.component_suppliers.len()
            invariant
                self.wf(),
                t == self.component_suppliers,
                i <= t.len_spec(),
                forall|a: int| #![trigger out@[a]] 0 <= a < out@.len() ==> exists|b: int| 0 <= b < i && #[trigger] t.key_at(b) == (root, out@[a]@),
                forall|b: int| 0 <= b < i && (#[trigger] t.key_at(b)).0 == root ==> exists|a: int| 0 <= a < out@.len() && out@[a]@ == t.key_at(b).1,
                forall|a: int, c: int| 0 <= a < c < out@.len() ==> out@[a]@ != out@[c]@,
            decreases t.len_spec() - i,
        {
            let k = self.component_suppliers.key(i);
            if k.root_type == root {
                let name = k.name.clone();
                proof {
                    t.lemma_key_seq();
                    assert(name@ == k.name@);
                    assert(t.key_at(i as int) == (root, name@));
                    assert forall|a: int| 0 <= a < out@.len() implies out@[a]@ != name@ by {
                        let b = choose|b: int| 0 <= b < i && #[trigger] t.key_at(b) == (root, out@[a]@);
                        t.lemma_entry(b);
                        t.lemma_entry(i as int);
                        assert(t.key_seq()[b] != t.key_seq()[i as int]);
                    }
                }
                let ghost prev = out@;
                out.push(name);
                proof {
                    assert forall|a: int| #![trigger out@[a]] 0 <= a < out@.len() implies exists|b: int| 0 <= b < i + 1 && #[trigger] t.key_at(b) == (root, out@[a]@) by {
                        if a < prev.len() {
                            assert(out@[a] == prev[a]);
                        } else {
                            assert(t.key_at(i as int) == (root, out@[a]@));
                        }
                    }
                    assert forall|b: int| 0 <= b < i + 1 && (#[trigger] t.key_at(b)).0 == root implies exists|a: int| 0 <= a < out@.len() && out@[a]@ == t.key_at(b).1 by {
                        if b < i {
                            let a = choose|a: int| 0 <= a < prev.len() && prev[a]@ == t.key_at(b).1;
                            assert(out@[a] == prev[a]);
                        } else {
                            assert(out@[prev.len() as int]@ == t.key_at(b).1);
                        }
                    }
                }
            }
            i = i + 1;
        }
        proof {
            assert forall|a: int| 0 <= a < out@.len() implies self@.binds((root, #[trigger] out@[a]@)) by {
                let b = choose|b: int| 0 <= b < t.len_spec() && #[trigger] t.key_at(b) == (root, out@[a]@);
                t.lemma_entry(b);
            }
            assert forall|n: Seq<char>| #[trigger] self@.binds((root, n)) implies exists|a: int| 0 <= a < out@.len() && out@[a]@ == n by {
                assert(t.view().contains_key((root, n)));
                assert(t.key_seq().to_set().contains((root, n)));
                assert(t.key_seq().contains((root, n)));
                let b = choose|b: int| 0 <= b < t.key_seq().len() && t.key_seq()[b] == (root, n);
                t.lemma_entry(b);
                assert(t.key_at(b) == (root, n));
            }
        }
        out
    }
}

/// The message of the error for a component type that nothing supplies.
pub open spec fn unknown_type_message(key: TypeKey) -> Seq<char> {
    "Unknown component type "@ + key.0.spec_name() + ":"@ + key.1
}

} // verus!
