use source_downloader::component::{ComponentRootType, ComponentSupplier, ComponentType, DynSupplier};
use source_downloader::component_manager::ComponentManager;
use source_downloader::components::{SystemFileSourceSupplier, TestSourceSupplier};
use source_downloader::config::{Properties, PropertyValue};
use source_downloader::container::ObjectWrapperContainer;

fn manager() -> ComponentManager<DynSupplier> {
    ComponentManager::new(Box::new(ObjectWrapperContainer::new()))
}

fn system_file() -> DynSupplier {
    DynSupplier::new(Box::new(SystemFileSourceSupplier))
}

fn test_source() -> DynSupplier {
    DynSupplier::new(Box::new(TestSourceSupplier::new()))
}

fn props(pairs: Vec<(&str, PropertyValue)>) -> Properties {
    let mut p = Properties::new();
    for (k, v) in pairs {
        p.insert(k.to_string(), v);
    }
    p
}

#[test]
fn system_file_scenario() {
    let mut m = manager();
    assert_eq!(m.register(system_file()).unwrap(), true);
    let key = ComponentType::source("system-file".to_string());
    let ok = m.instantiate(&key, &props(vec![("path", PropertyValue::Text("/tmp/a".to_string()))]));
    assert!(ok.is_ok());
    match m.instantiate(&key, &Properties::new()) {
        Err(e) => assert!(e.message().contains("path")),
        Ok(_) => panic!("a missing path must be refused"),
    }
}

#[test]
fn second_supplier_of_a_key_is_refused_and_first_stays() {
    let mut m = manager();
    assert!(m.register(system_file()).is_ok());
    let err = m.register(system_file()).unwrap_err();
    assert_eq!(err.message(), "Component type source:system-file already registered");
    let key = ComponentType::source("system-file".to_string());
    let first = m.resolve(&key).expect("still bound");
    assert_eq!(first.supply_types().len(), 1);
    assert!(m.instantiate(&key, &props(vec![("path", PropertyValue::Text("/x".to_string()))])).is_ok());
}

#[test]
fn unknown_key_is_an_error() {
    let m = manager();
    let key = ComponentType::trigger("cron".to_string());
    assert!(m.resolve(&key).is_none());
    match m.instantiate(&key, &Properties::new()) {
        Err(e) => assert_eq!(e.message(), "Unknown component type trigger:cron"),
        Ok(_) => panic!("nothing supplies a cron trigger"),
    }
}

#[test]
fn factory_failure_leaves_other_keys_alone() {
    let mut m = manager();
    assert!(m.register_suppliers(vec![system_file(), test_source()]).is_ok());
    let test_key = ComponentType::source("test".to_string());
    let refused = m.instantiate(&test_key, &props(vec![("mode", PropertyValue::Integer(1))]));
    match refused {
        Err(e) => assert_eq!(e.message(), "Mode 1 is not supported"),
        Ok(_) => panic!("mode 1 must be refused"),
    }
    let file_key = ComponentType::source("system-file".to_string());
    assert!(m.resolve(&file_key).is_some());
    assert!(m.instantiate(&file_key, &props(vec![("path", PropertyValue::Text("/a".to_string()))])).is_ok());
    assert!(m.instantiate(&test_key, &Properties::new()).is_ok());
}

#[test]
fn register_suppliers_stops_at_first_refusal_and_keeps_earlier_ones() {
    let mut m = manager();
    let r = m.register_suppliers(vec![test_source(), test_source(), system_file()]);
    assert!(r.is_err());
    assert!(m.resolve(&ComponentType::source("test".to_string())).is_some());
    assert!(m.resolve(&ComponentType::source("system-file".to_string())).is_none());
}

#[test]
fn test_source_mode_keeps_only_the_low_byte() {
    let mut m = manager();
    m.register(test_source()).unwrap();
    let key = ComponentType::source("test".to_string());
    assert!(m.instantiate(&key, &props(vec![("mode", PropertyValue::Integer(257))])).is_err());
    assert!(m.instantiate(&key, &props(vec![("mode", PropertyValue::Integer(2))])).is_ok());
    assert!(m.instantiate(&key, &props(vec![("mode", PropertyValue::Text("1".to_string()))])).is_ok());
}

#[test]
fn path_must_be_text() {
    let mut m = manager();
    m.register(system_file()).unwrap();
    let key = ComponentType::source("system-file".to_string());
    assert!(m.instantiate(&key, &props(vec![("path", PropertyValue::Integer(3))])).is_err());
}

#[test]
fn object_container_is_kept() {
    let m = manager();
    assert!(!m.object_container().contains("x"));
}

#[test]
fn component_type_constructors_and_names() {
    let t = ComponentType::trigger("t".to_string());
    assert_eq!(t.root_type, ComponentRootType::Trigger);
    assert_eq!(t.describe(), "trigger:t");
    let n = ComponentType::new(ComponentRootType::FileReplacementDecider, "x".to_string());
    assert_eq!(n.describe(), "file-replacement-decider:x");
    assert_eq!(ComponentRootType::Source.name(), "source");
    assert_eq!(ComponentRootType::ItemFileResolver.name(), "item-file-resolver");
    assert_eq!(ComponentRootType::SourceItemFilter.name(), "source-item-filter");
    assert_eq!(ComponentRootType::Trimmer.name(), "trimmer");
    assert_eq!(ComponentRootType::VariableReplacer.name(), "variable-replacer");
}
