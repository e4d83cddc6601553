use vstd::prelude::*;

use crate::component::SdComponent;
use crate::config::Properties;
use crate::table::{Table, TableKey};

verus! {

/// The identity of the type of a stored payload.
#[derive(Debug, Clone, Copy, PartialEq, Eq, Structural)]
pub enum TypeTag {
    Text,
    I32,
    I64,
    U64,
    Bool,
    Properties,
    Component,
}

impl TypeTag {
    pub open spec fn spec_name(self) -> Seq<char> {
        match self {
            TypeTag::Text => "String"@,
            TypeTag::I32 => "i32"@,
            TypeTag::I64 => "i64"@,
            TypeTag::U64 => "u64"@,
            TypeTag::Bool => "bool"@,
            TypeTag::Properties => "Properties"@,
            TypeTag::Component => "Component"@,
        }
    }

    pub fn name(&self) -> (r: &'static str)
        ensures
            r@ == self.spec_name(),
    {
        match self {
            TypeTag::Text => "String",
            TypeTag::I32 => "i32",
            TypeTag::I64 => "i64",
            TypeTag::U64 => "u64",
            TypeTag::Bool => "bool",
            TypeTag::Properties => "Properties",
            TypeTag::Component => "Component",
        }
    }
}

/// A stored payload together with the identity of its type.
pub enum ObjectValue {
    Text(String),
    I32(i32),
    I64(i64),
    U64(u64),
    Bool(bool),
    Properties(Properties),
    Component(Box<dyn SdComponent>),
}

impl ObjectValue {
    pub open spec fn tag(&self) -> TypeTag {
        match self {
            ObjectValue::Text(_) => TypeTag::Text,
            ObjectValue::I32(_) => TypeTag::I32,
            ObjectValue::I64(_) => TypeTag::I64,
            ObjectValue::U64(_) => TypeTag::U64,
            ObjectValue::Bool(_) => TypeTag::Bool,
            ObjectValue::Properties(_) => TypeTag::Properties,
            ObjectValue::Component(_) => TypeTag::Component,
        }
    }

    pub fn type_tag(&self) -> (r: TypeTag)
        ensures
            r == self.tag(),
    {
        match self {
            ObjectValue::Text(_) => TypeTag::Text,
            ObjectValue::I32(_) => TypeTag::I32,
            ObjectValue::I64(_) => TypeTag::I64,
            ObjectValue::U64(_) => TypeTag::U64,
            ObjectValue::Bool(_) => TypeTag::Bool,
            ObjectValue::Properties(_) => TypeTag::Properties,
            ObjectValue::Component(_) => TypeTag::Component,
        }
    }
}

/// A type whose values the store can hold and hand back by type.
pub trait Storable: Sized {
    spec fn tag() -> TypeTag;

    /// The payload that stores `self`.
    spec fn stored(self) -> ObjectValue;

    /// A value is stored under its type's tag, and different values are
    /// stored as different payloads.
    proof fn lemma_stored(a: Self, b: Self)
        ensures
            a.stored().tag() == Self::tag(),
            a.stored() == b.stored() ==> a == b,
    ;

    fn type_tag() -> (r: TypeTag)
        ensures
            r == Self::tag(),
    ;

    fn into_value(self) -> (r: ObjectValue)
        ensures
            r == self.stored(),
            r.tag() == Self::tag(),
    ;

    /// The payload's content, when its type is `Self`.
    fn from_value(v: &ObjectValue) -> (r: Option<&Self>)
        ensures
            r is Some <==> v.tag() == Self::tag(),
            r matches Some(x) ==> x.stored() == *v,
    ;
}

impl Storable for String {
    open spec fn tag() -> TypeTag {
        TypeTag::Text
    }

    open spec fn stored(self) -> ObjectValue {
        ObjectValue::Text(self)
    }

    proof fn lemma_stored(a: Self, b: Self) {
    }

    fn type_tag() -> (r: TypeTag) {
        TypeTag::Text
    }

    fn into_value(self) -> (r: ObjectValue) {
        ObjectValue::Text(self)
    }

    fn from_value(v: &ObjectValue) -> (r: Option<&Self>) {
        match v {
            ObjectValue::Text(x) => Some(x),
            _ => None,
        }
    }
}

impl Storable for i32 {
    open spec fn tag() -> TypeTag {
        TypeTag::I32
    }

    open spec fn stored(self) -> ObjectValue {
        ObjectValue::I32(self)
    }

    proof fn lemma_stored(a: Self, b: Self) {
    }

    fn type_tag() -> (r: TypeTag) {
        TypeTag::I32
    }

    fn into_value(self) -> (r: ObjectValue) {
        ObjectValue::I32(self)
    }

    fn from_value(v: &ObjectValue) -> (r: Option<&Self>) {
        match v {
            ObjectValue::I32(x) => Some(x),
            _ => None,
        }
    }
}

impl Storable for i64 {
    open spec fn tag() -> TypeTag {
        TypeTag::I64
    }

    open spec fn stored(self) -> ObjectValue {
        ObjectValue::I64(self)
    }

    proof fn lemma_stored(a: Self, b: Self) {
    }

    fn type_tag() -> (r: TypeTag) {
        TypeTag::I64
    }

    fn into_value(self) -> (r: ObjectValue) {
        ObjectValue::I64(self)
    }

    fn from_value(v: &ObjectValue) -> (r: Option<&Self>) {
        match v {
            ObjectValue::I64(x) => Some(x),
            _ => None,
        }
    }
}

impl Storable for u64 {
    open spec fn tag() -> TypeTag {
        TypeTag::U64
    }

    open spec fn stored(self) -> ObjectValue {
        ObjectValue::U64(self)
    }

    proof fn lemma_stored(a: Self, b: Self) {
    }

    fn type_tag() -> (r: TypeTag) {
        TypeTag::U64
    }

    fn into_value(self) -> (r: ObjectValue) {
        ObjectValue::U64(self)
    }

    fn from_value(v: &ObjectValue) -> (r: Option<&Self>) {
        match v {
            ObjectValue::U64(x) => Some(x),
            _ => None,
        }
    }
}

impl Storable for bool {
    open spec fn tag() -> TypeTag {
        TypeTag::Bool
    }

    open spec fn stored(self) -> ObjectValue {
        ObjectValue::Bool(self)
    }

    proof fn lemma_stored(a: Self, b: Self) {
    }

    fn type_tag() -> (r: TypeTag) {
        TypeTag::Bool
    }

    fn into_value(self) -> (r: ObjectValue) {
        ObjectValue::Bool(self)
    }

    fn from_value(v: &ObjectValue) -> (r: Option<&Self>) {
        match v {
            ObjectValue::Bool(x) => Some(x),
            _ => None,
        }
    }
}

impl Storable for Properties {
    open spec fn tag() -> TypeTag {
        TypeTag::Properties
    }

    open spec fn stored(self) -> ObjectValue {
        ObjectValue::Properties(self)
    }

    proof fn lemma_stored(a: Self, b: Self) {
    }

    fn type_tag() -> (r: TypeTag) {
        TypeTag::Properties
    }

    fn into_value(self) -> (r: ObjectValue) {
        ObjectValue::Properties(self)
    }

    fn from_value(v: &ObjectValue) -> (r: Option<&Self>) {
        match v {
            ObjectValue::Properties(x) => Some(x),
            _ => None,
        }
    }
}

/// After a value `v` of type `T` is stored under `name`, asking for a `T`
/// under `name` succeeds and gives back `v`, and asking for a type with
/// another tag fails with a type mismatch.
pub proof fn lemma_round_trip<T: Storable, U: Storable>(before: Map<Seq<char>, ObjectValue>, name: Seq<char>, v: T, got: T)
    requires
        got.stored() == before.insert(name, v.stored())[name],
    ensures
        before.insert(name, v.stored()).contains_key(name),
        before.insert(name, v.stored())[name].tag() == T::tag(),
        got == v,
        U::tag() != T::tag() ==> before.insert(name, v.stored())[name].tag() != U::tag(),
{
    T::lemma_stored(v, got);
}

/// Removing a name that is not stored leaves the store as it was.
pub proof fn lemma_remove_absent(store: Map<Seq<char>, ObjectValue>, name: Seq<char>)
    requires
        !store.contains_key(name),
    ensures
        store.remove(name) == store,
{
    assert(store.remove(name) =~= store);
}

/// Something that can be put in the store: it turns into a payload.
pub trait ObjectWrapper: Sized {
    /// Whether `v` is the payload that this wrapper turns into.
    spec fn holds(&self, v: ObjectValue) -> bool;

    fn into_value(self) -> (r: ObjectValue)
        ensures
            self.holds(r),
    ;
}

/// Wraps a value of a storable type.
pub struct GenericObjectWrapper<T: Storable> {
    inner: T,
}

impl<T: Storable> GenericObjectWrapper<T> {
    pub closed spec fn inner(&self) -> T {
        self.inner
    }

    pub fn new(obj: T) -> (r: Self)
        ensures
            r.inner() == obj,
    {
        Self { inner: obj }
    }

    pub fn get_typed(&self) -> (r: &T)
        ensures
            *r == self.inner(),
    {
        &self.inner
    }
}

impl<T: Storable> ObjectWrapper for GenericObjectWrapper<T> {
    open spec fn holds(&self, v: ObjectValue) -> bool {
        v == self.inner().stored()
    }

    fn into_value(self) -> (r: ObjectValue) {
        self.inner.into_value()
    }
}

/// Wraps a component, which the store then holds as a component handle.
pub struct ComponentWrapper<T: SdComponent + 'static> {
    inner: T,
}

impl<T: SdComponent + 'static> ComponentWrapper<T> {
    pub closed spec fn inner(&self) -> T {
        self.inner
    }

    pub fn new(component: T) -> (r: Self)
        ensures
            r.inner() == component,
    {
        Self { inner: component }
    }

    pub fn get_component(&self) -> (r: &T)
        ensures
            *r == self.inner(),
    {
        &self.inner
    }
}

impl<T: SdComponent + 'static> ObjectWrapper for ComponentWrapper<T> {
    open spec fn holds(&self, v: ObjectValue) -> bool {
        v.tag() == TypeTag::Component
    }

    fn into_value(self) -> (r: ObjectValue) {
        let boxed: Box<dyn SdComponent> = Box::new(self.inner);
        ObjectValue::Component(boxed)
    }
}

/// Why a lookup in the store failed.
#[derive(Debug)]
pub enum ObjectWrapperError {
    /// Nothing is stored under the name.
    NotFound(String),
    /// The payload under the name is of another type than the one asked for.
    TypeCast { name: String, expected: TypeTag, actual: TypeTag },
}

impl ObjectWrapperError {
    pub open spec fn spec_message(&self) -> Seq<char> {
        match self {
            ObjectWrapperError::NotFound(name) => "Object '"@ + name@ + "' not found"@,
            ObjectWrapperError::TypeCast { name, expected, actual } => "Object '"@ + name@
                + "' cannot be cast to "@ + expected.spec_name() + ", actual type: "@
                + actual.spec_name(),
        }
    }

    pub fn message(&self) -> (r: String)
        ensures
            r@ == self.spec_message(),
    {
        match self {
            ObjectWrapperError::NotFound(name) => {
                let mut s = "Object '".to_string();
                s.append(name.as_str());
                s.append("' not found");
                s
            },
            ObjectWrapperError::TypeCast { name, expected, actual } => {
                let mut s = "Object '".to_string();
                s.append(name.as_str());
                s.append("' cannot be cast to ");
                s.append(expected.name());
                s.append(", actual type: ");
                s.append(actual.name());
                s
            },
        }
    }
}

/// A store of named payloads, handed back by the type asked for.
pub struct ObjectWrapperContainer {
    objects: Table<String, ObjectValue>,
}

impl View for ObjectWrapperContainer {
    type V = Map<Seq<char>, ObjectValue>;

    closed spec fn view(&self) -> Map<Seq<char>, ObjectValue> {
        self.objects.view()
    }
}

impl ObjectWrapperContainer {
    pub closed spec fn wf(&self) -> bool {
        self.objects.wf()
    }

    pub fn new() -> (r: Self)
        ensures
            r.wf(),
            r@ == Map::<Seq<char>, ObjectValue>::empty(),
    {
        ObjectWrapperContainer { objects: Table::new() }
    }

    pub fn contains(&self, name: &str) -> (r: bool)
        requires
            self.wf(),
        ensures
            r == self@.contains_key(name@),
    {
        match self.objects.find(&name.to_string()) {
            Some(i) => {
                proof {
                    self.objects.lemma_entry(i as int);
                }
                true
            },
            None => false,
        }
    }

    /// Stores `value` under `name`, replacing what was there.
    pub fn put<W: ObjectWrapper>(&mut self, name: &str, value: Box<W>)
        requires
            old(self).wf(),
        ensures
            final(self).wf(),
            final(self)@.contains_key(name@),
            value.holds(final(self)@[name@]),
            final(self)@ == old(self)@.insert(name@, final(self)@[name@]),
    {
        let v = (*value).into_value();
        self.objects.insert(name.to_string(), v);
    }

    /// The payload under `name`, when it is of type `T`.
    pub fn get<T: Storable>(&self, name: &str) -> (r: Result<&T, ObjectWrapperError>)
        requires
            self.wf(),
        ensures
            match r {
                Ok(x) => self@.contains_key(name@) && x.stored() == self@[name@],
                Err(ObjectWrapperError::NotFound(n)) => !self@.contains_key(name@) && n@ == name@,
                Err(ObjectWrapperError::TypeCast { name: n, expected, actual }) => {
                    &&& self@.contains_key(name@)
                    &&& n@ == name@
                    &&& expected == T::tag()
                    &&& actual == self@[name@].tag()
                    &&& actual != expected
                },
            },
            r is Ok <==> self@.contains_key(name@) && self@[name@].tag() == T::tag(),
    {
        match self.objects.get(&name.to_string()) {
            None => Err(ObjectWrapperError::NotFound(name.to_string())),
            Some(v) => match T::from_value(v) {
                Some(x) => Ok(x),
                None => Err(
                    ObjectWrapperError::TypeCast {
                        name: name.to_string(),
                        expected: T::type_tag(),
                        actual: v.type_tag(),
                    },
                ),
            },
        }
    }

    /// Every name whose payload is of type `T`, with that payload.
    pub fn get_objects_of_type<T: Storable>(&self) -> (r: Vec<(String, &T)>)
        requires
            self.wf(),
        ensures
            forall|i: int|
                0 <= i < r@.len() ==> {
                    &&& self@.contains_key(#[trigger] r@[i].0@)
                    &&& r@[i].1.stored() == self@[r@[i].0@]
                },
            forall|k: Seq<char>|
                self@.contains_key(k) && self@[k].tag() == T::tag() ==> exists|i: int|
                    0 <= i < r@.len() && #[trigger] r@[i].0@ == k,
            forall|i: int, j: int| 0 <= i < j < r@.len() ==> r@[i].0@ != r@[j].0@,
    {
        let mut out: Vec<(String, &T)> = Vec::new();
        let mut i: usize = 0;
        proof {
            self.objects.lemma_key_seq();
        }
        while i < self.objects.len()
            invariant
                self.wf(),
                i <= self.objects.len_spec(),
                forall|a: int|
                    0 <= a < out@.len() ==> {
                        &&& self@.contains_key(#[trigger] out@[a].0@)
                        &&& out@[a].1.stored() == self@[out@[a].0@]
                    },
                forall|a: int| 0 <= a < out@.len() ==> exists|b: int| 0 <= b < i && #[trigger] out@[a].0@ == self.objects.key_at(b),
                forall|b: int|
                    0 <= b < i && #[trigger] self.objects.value_at(b).tag() == T::tag() ==> exists|a: int|
                        0 <= a < out@.len() && #[trigger] out@[a].0@ == self.objects.key_at(b),
                forall|a: int, c: int| 0 <= a < c < out@.len() ==> out@[a].0@ != out@[c].0@,
            decreases self.objects.len_spec() - i,
        {
            let v = self.objects.value(i);
            proof {
                self.objects.lemma_entry(i as int);
                self.objects.lemma_key_seq();
            }
            match T::from_value(v) {
                Some(x) => {
                    let k = self.objects.key(i).copy_key();
                    proof {
                        assert forall|a: int| 0 <= a < out@.len() implies out@[a].0@ != k@ by {
                            let b = choose|b: int| 0 <= b < i && #[trigger] out@[a].0@ == self.objects.key_at(b);
                            self.objects.lemma_entry(b);
                            assert(self.objects.key_seq()[b] != self.objects.key_seq()[i as int]);
                        }
                    }
                    let ghost prev = out@;
                    out.push((k, x));
                    proof {
                        let n = out@.len() - 1;
                        assert(out@[n].0@ == self.objects.key_at(i as int));
                        assert forall|b: int|
                            0 <= b < i + 1 && #[trigger] self.objects.value_at(b).tag() == T::tag() implies exists|a: int|
                                0 <= a < out@.len() && #[trigger] out@[a].0@ == self.objects.key_at(b) by {
                            if b == i {
                                assert(out@[n].0@ == self.objects.key_at(b));
                            } else {
                                let a = choose|a: int| 0 <= a < prev.len() && #[trigger] prev[a].0@ == self.objects.key_at(b);
                                assert(out@[a] == prev[a]);
                            }
                        }
                    }
                },
                None => {},
            }
            i = i + 1;
        }
        proof {
            assert forall|k: Seq<char>| self@.contains_key(k) && self@[k].tag() == T::tag() implies exists|a: int|
                0 <= a < out@.len() && #[trigger] out@[a].0@ == k by {
                assert(self.objects.key_seq().to_set().contains(k));
                let b = choose|b: int| 0 <= b < self.objects.key_seq().len() && self.objects.key_seq()[b] == k;
                self.objects.lemma_entry(b);
                assert(self.objects.value_at(b).tag() == T::tag());
            }
        }
        out
    }

    /// Removes what is stored under `name`; an absent name is no error.
    pub fn remove(&mut self, name: &str)
        requires
            old(self).wf(),
        ensures
            final(self).wf(),
            final(self)@ == old(self)@.remove(name@),
    {
        self.objects.remove(&name.to_string());
    }

    /// The stored names, each once.
    pub fn get_all_object_names(&self) -> (r: Vec<String>)
        requires
            self.wf(),
        ensures
            r@.len() == self@.dom().len(),
            forall|i: int| 0 <= i < r@.len() ==> self@.contains_key(#[trigger] r@[i]@),
            forall|k: Seq<char>| self@.contains_key(k) ==> exists|i: int| 0 <= i < r@.len() && #[trigger] r@[i]@ == k,
            forall|i: int, j: int| 0 <= i < j < r@.len() ==> r@[i]@ != r@[j]@,
    {
        let mut out: Vec<String> = Vec::new();
        let mut i: usize = 0;
        proof {
            self.objects.lemma_key_seq();
            self.objects.key_seq().unique_seq_to_set();
        }
        while i < self.objects.len()
            invariant
                self.wf(),
                i <= self.objects.len_spec(),
                out@.len() == i,
                forall|a: int| 0 <= a < i ==> #[trigger] out@[a]@ == self.objects.key_seq()[a],
            decreases self.objects.len_spec() - i,
        {
            let k = self.objects.key(i).copy_key();
            proof {
                self.objects.lemma_entry(i as int);
            }
            out.push(k);
            i = i + 1;
        }
        proof {
            let ks = self.objects.key_seq();
            assert forall|a: int| 0 <= a < out@.len() implies self@.contains_key(#[trigger] out@[a]@) by {
                assert(ks.to_set().contains(ks[a]));
            }
            assert forall|k: Seq<char>| self@.contains_key(k) implies exists|a: int| 0 <= a < out@.len() && #[trigger] out@[a]@ == k by {
                assert(ks.to_set().contains(k));
                let b = choose|b: int| 0 <= b < ks.len() && ks[b] == k;
                assert(out@[b]@ == k);
            }
            assert forall|a: int, c: int| 0 <= a < c < out@.len() implies out@[a]@ != out@[c]@ by {
                assert(ks[a] != ks[c]);
            }
        }
        out
    }
}

} // verus!
