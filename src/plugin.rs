use vstd::prelude::*;

use crate::component::DynSupplier;
use crate::component_manager::{
    extends, lemma_registered_all_extends, registered_all, supplied_keys, ComponentManager,
    Registrations,
};
use crate::component::ComponentError;
use crate::container::ObjectValue;

verus! {

/// The name and version that a loaded module reports.
pub struct PluginDescription {
    pub name: String,
    pub version: String,
}

impl PluginDescription {
    /// `<name>:<version>` and a line break.
    pub fn to_text(&self) -> (r: String)
        ensures
            r@ == self.name@ + ":"@ + self.version@ + "\n"@,
    {
        let mut s = self.name.clone();
        s.append(":");
        s.append(self.version.as_str());
        s.append("\n");
        s
    }
}

/// Makes instances by id.
pub trait InstanceFactory {
    fn create_instance(&self, instance_id: &str) -> ObjectValue;
}

pub trait InstanceManager {

}

/// What registering `suppliers`, one after the other, makes of `before`.
pub open spec fn after_registering(before: Registrations<DynSupplier>, suppliers: Seq<DynSupplier>) -> Registrations<DynSupplier> {
    let outcome = registered_all(before.bindings, before.suppliers.len() as int, supplied_keys(suppliers));
    Registrations { suppliers: before.suppliers + suppliers.take(outcome.1), bindings: outcome.0 }
}

/// Whether registering `suppliers` one after the other is refused at one of them.
pub open spec fn registering_fails(before: Registrations<DynSupplier>, suppliers: Seq<DynSupplier>) -> bool {
    registered_all(before.bindings, before.suppliers.len() as int, supplied_keys(suppliers)).1 < suppliers.len()
}

/// The channel through which a loaded module acts on the host.
pub trait PluginContext {
    spec fn registrations(&self) -> Registrations<DynSupplier>;

    spec fn context_wf(&self) -> bool;

    spec fn failures(&self) -> Seq<Seq<char>>;

    fn get_persistent_data_path(&self) -> &str;

    /// Registers the suppliers in order; a refusal stops the run and is
    /// recorded, not raised.
    fn register_supplier(&mut self, suppliers: Vec<DynSupplier>)
        requires
            old(self).context_wf(),
        ensures
            final(self).context_wf(),
            final(self).registrations() == after_registering(old(self).registrations(), suppliers@),
            registering_fails(old(self).registrations(), suppliers@) ==> final(self).failures().len() == old(self).failures().len() + 1,
            !registering_fails(old(self).registrations(), suppliers@) ==> final(self).failures() == old(self).failures(),
    ;

    fn register_instance_factory(&mut self, factories: Vec<Box<dyn InstanceFactory>>)
        requires
            old(self).context_wf(),
        ensures
            final(self).context_wf(),
            final(self).registrations() == old(self).registrations(),
            final(self).failures() == old(self).failures(),
    ;
}

/// The host's plugin context: it owns the component registry that modules
/// register into.
pub struct CorePluginContext {
    component_manager: ComponentManager<DynSupplier>,
    persistent_data_path: String,
    failures: Vec<ComponentError>,
}

impl CorePluginContext {
    pub fn new(manager: ComponentManager<DynSupplier>, persistent_data_path: String) -> (r: Self)
        requires
            manager.wf(),
        ensures
            r.context_wf(),
            r.registrations() == manager@,
            r.failures().len() == 0,
    {
        CorePluginContext { component_manager: manager, persistent_data_path, failures: Vec::new() }
    }

    pub fn component_manager(&self) -> (r: &ComponentManager<DynSupplier>)
        ensures
            r@ == self.registrations(),
            self.context_wf() ==> r.wf(),
    {
        &self.component_manager
    }

    pub fn into_component_manager(self) -> (r: ComponentManager<DynSupplier>)
        ensures
            r@ == self.registrations(),
            self.context_wf() ==> r.wf(),
    {
        self.component_manager
    }

    /// The errors of the refused registrations, oldest first.
    pub fn registration_failures(&self) -> (r: &Vec<ComponentError>)
        ensures
            r@.len() == self.failures().len(),
            forall|i: int| 0 <= i < r@.len() ==> #[trigger] r@[i]@ == self.failures()[i],
    {
        &self.failures
    }
}

impl PluginContext for CorePluginContext {
    closed spec fn registrations(&self) -> Registrations<DynSupplier> {
        self.component_manager@
    }

    closed spec fn context_wf(&self) -> bool {
        self.component_manager.wf()
    }

    closed spec fn failures(&self) -> Seq<Seq<char>> {
        self.failures@.map_values(|e: ComponentError| e@)
    }

    fn get_persistent_data_path(&self) -> &str {
        self.persistent_data_path.as_str()
    }

    fn register_supplier(&mut self, suppliers: Vec<DynSupplier>) {
        proof {
            let before = self.component_manager@;
            lemma_registered_all_extends(before.bindings, before.suppliers.len() as int, supplied_keys(suppliers@));
        }
        let res = self.component_manager.register_suppliers(suppliers);
        match res {
            Ok(_) => {
                assert(self.failures() =~= old(self).failures());
            },
            Err(e) => {
                let ghost before = self.failures@;
                self.failures.push(e);
                proof {
                    assert(self.failures@.map_values(|e: ComponentError| e@).len() == before.len() + 1);
                }
            },
        }
    }

    fn register_instance_factory(&mut self, factories: Vec<Box<dyn InstanceFactory>>) {
    }
}

/// Whether `after` keeps every binding and supplier of `before`.
pub open spec fn keeps_registrations(before: &CorePluginContext, after: &CorePluginContext) -> bool {
    &&& after.context_wf()
    &&& extends(before.registrations(), after.registrations())
}

/// Registering through a context never takes a registration back.
pub proof fn lemma_registering_extends(before: Registrations<DynSupplier>, suppliers: Seq<DynSupplier>)
    ensures
        extends(before, after_registering(before, suppliers)),
{
    let outcome = registered_all(before.bindings, before.suppliers.len() as int, supplied_keys(suppliers));
    lemma_registered_all_extends(before.bindings, before.suppliers.len() as int, supplied_keys(suppliers));
    let after = after_registering(before, suppliers);
    assert(before.suppliers =~= after.suppliers.subrange(0, before.suppliers.len() as int));
}

/// A module loaded into the host.
pub trait Plugin {
    /// Registers what the module offers; what was registered stays.
    fn init(&self, plugin_context: &mut CorePluginContext)
        requires
            old(plugin_context).context_wf(),
        ensures
            keeps_registrations(&*old(plugin_context), &*final(plugin_context)),
    ;

    fn destroy(&self, plugin_context: &CorePluginContext);

    fn description(&self) -> PluginDescription;
}

} // verus!
