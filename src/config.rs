use vstd::prelude::*;

use crate::component::{ComponentError, ComponentRootType};
use crate::table::{Table, TableKey};

verus! {

/// A value in a property bag: the shapes that a JSON document can hold.
/// A number that is not an `i64` is kept as its decimal text.
#[derive(Debug)]
pub enum PropertyValue {
    Null,
    Bool(bool),
    Integer(i64),
    Number(String),
    Text(String),
    List(Vec<PropertyValue>),
    Object(Vec<(String, PropertyValue)>),
}

impl PropertyValue {
    pub open spec fn spec_as_str(&self) -> Option<Seq<char>> {
        match self {
            PropertyValue::Text(s) => Some(s@),
            _ => None,
        }
    }

    pub open spec fn spec_as_i64(&self) -> Option<i64> {
        match self {
            PropertyValue::Integer(n) => Some(*n),
            _ => None,
        }
    }

    /// The text, when the value is text.
    pub fn as_str(&self) -> (r: Option<&str>)
        ensures
            match r {
                Some(s) => self.spec_as_str() == Some(s@),
                None => self.spec_as_str() is None,
            },
    {
        match self {
            PropertyValue::Text(s) => Some(s.as_str()),
            _ => None,
        }
    }

    /// The number, when the value is an integer.
    pub fn as_i64(&self) -> (r: Option<i64>)
        ensures
            r == self.spec_as_i64(),
    {
        match self {
            PropertyValue::Integer(n) => Some(*n),
            _ => None,
        }
    }
}

/// The integer under `key`, or `default` when it is absent or not an integer.
pub open spec fn prop_i64_or(props: Map<Seq<char>, PropertyValue>, key: Seq<char>, default: i64) -> i64 {
    if props.contains_key(key) && props[key].spec_as_i64() is Some {
        props[key].spec_as_i64()->0
    } else {
        default
    }
}

/// The text under `key`, when there is text there.
pub open spec fn prop_str(props: Map<Seq<char>, PropertyValue>, key: Seq<char>) -> Option<Seq<char>> {
    if props.contains_key(key) {
        props[key].spec_as_str()
    } else {
        None
    }
}

/// A string-keyed bag of property values handed to a supplier.
pub struct Properties {
    inner: Table<String, PropertyValue>,
}

impl View for Properties {
    type V = Map<Seq<char>, PropertyValue>;

    closed spec fn view(&self) -> Map<Seq<char>, PropertyValue> {
        self.inner.view()
    }
}

impl Properties {
    pub closed spec fn wf(&self) -> bool {
        self.inner.wf()
    }

    pub fn new() -> (r: Properties)
        ensures
            r.wf(),
            r@ == Map::<Seq<char>, PropertyValue>::empty(),
    {
        Properties { inner: Table::new() }
    }

    /// Builds a bag from key/value pairs; a later pair wins over an earlier
    /// one with the same key.
    pub fn from_map(map: Vec<(String, PropertyValue)>) -> (r: Properties)
        ensures
            r.wf(),
            r@ == pairs_to_map(map@),
    {
        let mut props = Properties::new();
        let mut map = map;
        let ghost all = map@;
        let ghost mut done: int = 0;
        while map.len() > 0
            invariant
                0 <= done <= all.len(),
                map@ == all.subrange(done, all.len() as int),
                props.wf(),
                props@ == pairs_to_map(all.subrange(0, done)),
            decreases map@.len(),
        {
            let (k, v) = map.remove(0);
            proof {
                assert(all.subrange(0, done + 1).drop_last() =~= all.subrange(0, done));
                assert(map@ =~= all.subrange(done + 1, all.len() as int));
                done = done + 1;
            }
            props.insert(k, v);
        }
        proof {
            assert(all.subrange(0, done) =~= all);
        }
        props
    }

    pub fn insert(&mut self, key: String, value: PropertyValue)
        requires
            old(self).wf(),
        ensures
            final(self).wf(),
            final(self)@ == old(self)@.insert(key@, value),
    {
        self.inner.insert(key, value);
    }

    pub fn get(&self, key: &str) -> (r: Option<&PropertyValue>)
        requires
            self.wf(),
        ensures
            match r {
                Some(v) => self@.contains_key(key@) && *v == self@[key@],
                None => !self@.contains_key(key@),
            },
    {
        self.inner.get(&key.to_string())
    }
}

/// The map that a sequence of pairs describes, later pairs winning.
pub open spec fn pairs_to_map(pairs: Seq<(String, PropertyValue)>) -> Map<Seq<char>, PropertyValue>
    decreases pairs.len(),
{
    if pairs.len() == 0 {
        Map::empty()
    } else {
        let last = pairs.last();
        pairs_to_map(pairs.drop_last()).insert(last.0@, last.1)
    }
}

impl Properties {
    pub fn len(&self) -> (r: usize)
        requires
            self.wf(),
        ensures
            r == self@.dom().len(),
    {
        proof {
            self.inner.lemma_key_seq();
            self.inner.key_seq().unique_seq_to_set();
        }
        self.inner.len()
    }

    /// The key and value at position `i`, for walking the bag.
    pub fn entry(&self, i: usize) -> (r: (&String, &PropertyValue))
        requires
            self.wf(),
            i < self@.dom().len(),
        ensures
            self@.contains_key(r.0@),
            self@[r.0@] == *r.1,
    {
        proof {
            self.inner.lemma_key_seq();
            self.inner.key_seq().unique_seq_to_set();
            self.inner.lemma_entry(i as int);
        }
        (self.inner.key(i), self.inner.value(i))
    }
}

/// The properties of a named instance.
pub struct InstanceConfig {
    pub name: String,
    pub props: Properties,
}

/// A configured component: its name, its type within its category, and
/// its properties.
pub struct ComponentConfig {
    pub name: String,
    pub component_type: String,
    pub props: Properties,
}

/// Whether a processor is enabled.
pub struct ProcessorConfig {
    pub name: String,
    pub enabled: bool,
}

/// The position of the first processor named `name`.
pub open spec fn processor_index(ps: Seq<ProcessorConfig>, name: Seq<char>) -> Option<int>
    decreases ps.len(),
{
    if ps.len() == 0 {
        None
    } else {
        match processor_index(ps.drop_last(), name) {
            Some(i) => Some(i),
            None => if ps.last().name@ == name {
                Some(ps.len() - 1)
            } else {
                None
            },
        }
    }
}

/// The position of the first component of type `component_type` named `name`.
pub open spec fn component_index(cs: Seq<ComponentConfig>, component_type: Seq<char>, name: Seq<char>) -> Option<int>
    decreases cs.len(),
{
    if cs.len() == 0 {
        None
    } else {
        match component_index(cs.drop_last(), component_type, name) {
            Some(i) => Some(i),
            None => if cs.last().component_type@ == component_type && cs.last().name@ == name {
                Some(cs.len() - 1)
            } else {
                None
            },
        }
    }
}

/// The position of the first instance named `name`.
pub open spec fn instance_index(xs: Seq<InstanceConfig>, name: Seq<char>) -> Option<int>
    decreases xs.len(),
{
    if xs.len() == 0 {
        None
    } else {
        match instance_index(xs.drop_last(), name) {
            Some(i) => Some(i),
            None => if xs.last().name@ == name {
                Some(xs.len() - 1)
            } else {
                None
            },
        }
    }
}

proof fn lemma_processor_index(ps: Seq<ProcessorConfig>, name: Seq<char>, i: int)
    requires
        0 <= i <= ps.len(),
        forall|j: int| 0 <= j < i ==> #[trigger] ps[j].name@ != name,
    ensures
        i == ps.len() ==> processor_index(ps, name) is None,
        i < ps.len() && ps[i].name@ == name ==> processor_index(ps, name) == Some(i),
    decreases ps.len(),
{
    if ps.len() > 0 {
        let prev = ps.drop_last();
        if i < ps.len() {
            lemma_processor_index(prev, name, if i < prev.len() { i } else { prev.len() as int });
        } else {
            lemma_processor_index(prev, name, prev.len() as int);
        }
    }
}

proof fn lemma_component_index(cs: Seq<ComponentConfig>, t: Seq<char>, name: Seq<char>, i: int)
    requires
        0 <= i <= cs.len(),
        forall|j: int| 0 <= j < i ==> !(#[trigger] cs[j].component_type@ == t && cs[j].name@ == name),
    ensures
        i == cs.len() ==> component_index(cs, t, name) is None,
        i < cs.len() && cs[i].component_type@ == t && cs[i].name@ == name ==> component_index(cs, t, name) == Some(i),
    decreases cs.len(),
{
    if cs.len() > 0 {
        let prev = cs.drop_last();
        if i < cs.len() {
            lemma_component_index(prev, t, name, if i < prev.len() { i } else { prev.len() as int });
        } else {
            lemma_component_index(prev, t, name, prev.len() as int);
        }
    }
}

proof fn lemma_instance_index(xs: Seq<InstanceConfig>, name: Seq<char>, i: int)
    requires
        0 <= i <= xs.len(),
        forall|j: int| 0 <= j < i ==> #[trigger] xs[j].name@ != name,
    ensures
        i == xs.len() ==> instance_index(xs, name) is None,
        i < xs.len() && xs[i].name@ == name ==> instance_index(xs, name) == Some(i),
    decreases xs.len(),
{
    if xs.len() > 0 {
        let prev = xs.drop_last();
        if i < xs.len() {
            lemma_instance_index(prev, name, if i < prev.len() { i } else { prev.len() as int });
        } else {
            lemma_instance_index(prev, name, prev.len() as int);
        }
    }
}

/// The persisted configuration: instances, components grouped by the name
/// of their category, and processors.
pub struct Config {
    instances: Vec<InstanceConfig>,
    components: Table<String, Vec<ComponentConfig>>,
    processors: Vec<ProcessorConfig>,
}

impl Config {
    pub closed spec fn instances_seq(&self) -> Seq<InstanceConfig> {
        self.instances@
    }

    pub closed spec fn processors_seq(&self) -> Seq<ProcessorConfig> {
        self.processors@
    }

    pub fn instances(&self) -> (r: &Vec<InstanceConfig>)
        ensures
            r@ == self.instances_seq(),
    {
        &self.instances
    }

    pub fn processors(&self) -> (r: &Vec<ProcessorConfig>)
        ensures
            r@ == self.processors_seq(),
    {
        &self.processors
    }

    pub closed spec fn wf(&self) -> bool {
        self.components.wf()
    }

    /// The components of each category.
    pub closed spec fn components_view(&self) -> Map<Seq<char>, Seq<ComponentConfig>> {
        self.components.view().map_values(|v: Vec<ComponentConfig>| v@)
    }

    pub fn new(instances: Vec<InstanceConfig>, processors: Vec<ProcessorConfig>) -> (r: Config)
        ensures
            r.wf(),
            r.instances_seq() == instances@,
            r.processors_seq() == processors@,
            r.components_view() == Map::<Seq<char>, Seq<ComponentConfig>>::empty(),
    {
        let r = Config { instances, components: Table::new(), processors };
        assert(r.components_view() =~= Map::<Seq<char>, Seq<ComponentConfig>>::empty());
        r
    }

    /// Sets the components of the category named `category`.
    pub fn set_components(&mut self, category: String, components: Vec<ComponentConfig>)
        requires
            old(self).wf(),
        ensures
            final(self).wf(),
            final(self).instances_seq() == old(self).instances_seq(),
            final(self).processors_seq() == old(self).processors_seq(),
            final(self).components_view() == old(self).components_view().insert(category@, components@),
    {
        let ghost before = self.components.view();
        let ghost cv = components@;
        self.components.insert(category, components);
        proof {
            assert(self.components_view() =~= before.map_values(|v: Vec<ComponentConfig>| v@).insert(category@, cv));
        }
    }

    /// The components of the category named `category`.
    pub fn components_of(&self, category: &str) -> (r: Option<&Vec<ComponentConfig>>)
        requires
            self.wf(),
        ensures
            match r {
                Some(v) => self.components_view().contains_key(category@) && v@ == self.components_view()[category@],
                None => !self.components_view().contains_key(category@),
            },
    {
        self.components.get(&category.to_string())
    }

    /// The number of categories with components.
    pub fn category_count(&self) -> (r: usize)
        requires
            self.wf(),
        ensures
            r == self.components_view().dom().len(),
    {
        proof {
            self.components.lemma_key_seq();
            self.components.key_seq().unique_seq_to_set();
            assert(self.components_view().dom() =~= self.components.view().dom());
        }
        self.components.len()
    }

    /// The category name and components at position `i`, for walking the
    /// categories.
    pub fn category(&self, i: usize) -> (r: (&String, &Vec<ComponentConfig>))
        requires
            self.wf(),
            i < self.components_view().dom().len(),
        ensures
            self.components_view().contains_key(r.0@),
            self.components_view()[r.0@] == r.1@,
    {
        proof {
            self.components.lemma_key_seq();
            self.components.key_seq().unique_seq_to_set();
            assert(self.components_view().dom() =~= self.components.view().dom());
            self.components.lemma_entry(i as int);
        }
        (self.components.key(i), self.components.value(i))
    }

    /// Adds `component_config` at the end of the components of `root_type`'s category.
    pub fn save_component(&mut self, root_type: &ComponentRootType, component_config: ComponentConfig)
        requires
            old(self).wf(),
        ensures
            final(self).wf(),
            final(self).instances_seq() == old(self).instances_seq(),
            final(self).processors_seq() == old(self).processors_seq(),
            final(self).components_view() == old(self).components_view().insert(
                root_type.spec_name(),
                if old(self).components_view().contains_key(root_type.spec_name()) {
                    old(self).components_view()[root_type.spec_name()]
                } else {
                    Seq::empty()
                }.push(component_config),
            ),
    {
        let key = root_type.name().to_string();
        let ghost before = self.components.view();
        let existing = self.components.remove(&key);
        let mut list = match existing {
            Some(v) => v,
            None => Vec::new(),
        };
        list.push(component_config);
        let ghost lv = list@;
        self.components.insert(key, list);
        proof {
            assert(self.components_view() =~= before.map_values(|v: Vec<ComponentConfig>| v@).insert(root_type.spec_name(), lv));
        }
    }

    /// Removes the first component of type `component_type` named `name`
    /// from `root_type`'s category; tells whether one was there.
    pub fn delete_component(&mut self, root_type: &ComponentRootType, component_type: &str, name: &str) -> (r: bool)
        requires
            old(self).wf(),
        ensures
            final(self).wf(),
            final(self).instances_seq() == old(self).instances_seq(),
            final(self).processors_seq() == old(self).processors_seq(),
            ({
                let k = root_type.spec_name();
                let old_v = old(self).components_view();
                if old_v.contains_key(k) && component_index(old_v[k], component_type@, name@) is Some {
                    &&& r
                    &&& final(self).components_view() == old_v.insert(k, old_v[k].remove(component_index(old_v[k], component_type@, name@)->0))
                } else {
                    &&& !r
                    &&& final(self).components_view() == old_v
                }
            }),
    {
        let key = root_type.name().to_string();
        let ghost before = self.components.view();
        let existing = self.components.remove(&key);
        match existing {
            None => {
                proof {
                    assert(self.components_view() =~= before.map_values(|v: Vec<ComponentConfig>| v@));
                }
                false
            },
            Some(list) => {
                let mut list = list;
                let ghost lv = list@;
                let mut i: usize = 0;
                let mut found = false;
                while i < list.len() && !found
                    invariant
                        list@ == lv,
                        i <= lv.len(),
                        forall|j: int| 0 <= j < i ==> !(#[trigger] lv[j].component_type@ == component_type@ && lv[j].name@ == name@),
                        found ==> i < lv.len() && lv[i as int].component_type@ == component_type@ && lv[i as int].name@ == name@,
                    decreases lv.len() - i + if found { 0int } else { 1int },
                {
                    if list[i].component_type == component_type.to_string() && list[i].name == name.to_string() {
                        found = true;
                    } else {
                        i = i + 1;
                    }
                }
                proof {
                    lemma_component_index(lv, component_type@, name@, i as int);
                }
                if found {
                    list.remove(i);
                }
                let ghost nv = list@;
                self.components.insert(key, list);
                proof {
                    assert(self.components_view() =~= before.map_values(|v: Vec<ComponentConfig>| v@).insert(root_type.spec_name(), nv));
                    if !found {
                        assert(before.map_values(|v: Vec<ComponentConfig>| v@).insert(root_type.spec_name(), nv) =~= before.map_values(|v: Vec<ComponentConfig>| v@));
                    }
                }
                found
            },
        }
    }

    /// Sets whether the first processor named `name` is enabled, as
    /// `processor_config` says; adds `processor_config` when none is named so.
    pub fn save_processor(&mut self, name: &str, processor_config: ProcessorConfig)
        requires
            old(self).wf(),
        ensures
            final(self).wf(),
            final(self).instances_seq() == old(self).instances_seq(),
            final(self).components_view() == old(self).components_view(),
            match processor_index(old(self).processors_seq(), name@) {
                Some(i) => final(self).processors_seq() == old(self).processors_seq().update(
                    i,
                    ProcessorConfig { name: old(self).processors_seq()[i].name, enabled: processor_config.enabled },
                ),
                None => final(self).processors_seq() == old(self).processors_seq().push(processor_config),
            },
    {
        let mut i: usize = 0;
        while i < self.processors.len()
            invariant
                i <= self.processors@.len(),
                self.processors@ == old(self).processors@,
                self.instances == old(self).instances,
                self.components == old(self).components,
                self.wf(),
                forall|j: int| 0 <= j < i ==> #[trigger] self.processors@[j].name@ != name@,
            decreases self.processors@.len() - i,
        {
            if self.processors[i].name == name.to_string() {
                proof {
                    lemma_processor_index(self.processors@, name@, i as int);
                }
                let old_p = self.processors.remove(i);
                self.processors.insert(i, ProcessorConfig { name: old_p.name, enabled: processor_config.enabled });
                proof {
                    assert(self.processors@ =~= old(self).processors@.update(
                        i as int,
                        ProcessorConfig { name: old(self).processors@[i as int].name, enabled: processor_config.enabled },
                    ));
                }
                return;
            }
            i = i + 1;
        }
        proof {
            lemma_processor_index(self.processors@, name@, i as int);
        }
        self.processors.push(processor_config);
    }

    /// Removes the first processor named `name`; tells whether one was there.
    pub fn delete_processor(&mut self, name: &str) -> (r: bool)
        requires
            old(self).wf(),
        ensures
            final(self).wf(),
            final(self).instances_seq() == old(self).instances_seq(),
            final(self).components_view() == old(self).components_view(),
            match processor_index(old(self).processors_seq(), name@) {
                Some(i) => r && final(self).processors_seq() == old(self).processors_seq().remove(i),
                None => !r && final(self).processors_seq() == old(self).processors_seq(),
            },
    {
        let mut i: usize = 0;
        while i < self.processors.len()
            invariant
                i <= self.processors@.len(),
                self.processors@ == old(self).processors@,
                self.instances == old(self).instances,
                self.components == old(self).components,
                self.wf(),
                forall|j: int| 0 <= j < i ==> #[trigger] self.processors@[j].name@ != name@,
            decreases self.processors@.len() - i,
        {
            if self.processors[i].name == name.to_string() {
                proof {
                    lemma_processor_index(self.processors@, name@, i as int);
                }
                self.processors.remove(i);
                return true;
            }
            i = i + 1;
        }
        proof {
            lemma_processor_index(self.processors@, name@, i as int);
        }
        false
    }

    /// The properties of the first instance named `name`.
    pub fn instance_props(&self, name: &str) -> (r: Option<&Properties>)
        ensures
            match instance_index(self.instances_seq(), name@) {
                Some(i) => r == Some(&self.instances_seq()[i].props),
                None => r is None,
            },
    {
        let mut i: usize = 0;
        while i < self.instances.len()
            invariant
                i <= self.instances@.len(),
                forall|j: int| 0 <= j < i ==> #[trigger] self.instances@[j].name@ != name@,
            decreases self.instances@.len() - i,
        {
            if self.instances[i].name == name.to_string() {
                proof {
                    lemma_instance_index(self.instances@, name@, i as int);
                }
                return Some(&self.instances[i].props);
            }
            i = i + 1;
        }
        proof {
            lemma_instance_index(self.instances@, name@, i as int);
        }
        None
    }
}

/// Reads and writes the persisted configuration.
pub trait ConfigOperator {
    fn get_all_processor_config(&self) -> Vec<ProcessorConfig>;

    fn get_all_component_config(&self) -> Vec<(String, Vec<ComponentConfig>)>;

    fn save_component(&self, root_type: &ComponentRootType, component_config: ComponentConfig);

    fn save_processor(&self, name: &str, processor_config: ProcessorConfig);

    fn delete_component(&self, root_type: &ComponentRootType, component_type: &str, name: &str) -> Result<(), ComponentError>;

    fn delete_processor(&self, name: String) -> bool;

    fn get_instance_props(&self, name: String) -> Properties;
}

} // verus!
