use source_downloader::component::{ComponentRootType, DynSupplier};
use source_downloader::component_manager::ComponentManager;
use source_downloader::components::{SystemFileSourceSupplier, TestSourceSupplier};
use source_downloader::config::{ComponentConfig, Config, InstanceConfig, ProcessorConfig, Properties, PropertyValue};
use source_downloader::container::ObjectWrapperContainer;

fn component(name: &str, component_type: &str) -> ComponentConfig {
    ComponentConfig { name: name.to_string(), component_type: component_type.to_string(), props: Properties::new() }
}

fn processor(name: &str, enabled: bool) -> ProcessorConfig {
    ProcessorConfig { name: name.to_string(), enabled }
}

#[test]
fn save_component_appends_to_its_category() {
    let mut c = Config::new(Vec::new(), Vec::new());
    c.save_component(&ComponentRootType::Source, component("a", "system-file"));
    c.save_component(&ComponentRootType::Source, component("b", "test"));
    c.save_component(&ComponentRootType::Downloader, component("d", "http"));
    let sources = c.components_of("source").unwrap();
    let names: Vec<&str> = sources.iter().map(|x| x.name.as_str()).collect();
    assert_eq!(names, vec!["a", "b"]);
    assert_eq!(c.components_of("downloader").unwrap().len(), 1);
    assert!(c.components_of("trigger").is_none());
    assert_eq!(c.category_count(), 2);
}

#[test]
fn delete_component_removes_the_matching_entry_only() {
    let mut c = Config::new(Vec::new(), Vec::new());
    c.save_component(&ComponentRootType::Source, component("test", "test"));
    c.save_component(&ComponentRootType::Source, component("test", "system-file"));
    c.save_component(&ComponentRootType::Source, component("keep", "system-file"));
    assert!(c.delete_component(&ComponentRootType::Source, "system-file", "test"));
    let left: Vec<(String, String)> = c
        .components_of("source")
        .unwrap()
        .iter()
        .map(|x| (x.name.clone(), x.component_type.clone()))
        .collect();
    assert_eq!(
        left,
        vec![("test".to_string(), "test".to_string()), ("keep".to_string(), "system-file".to_string())]
    );
    assert!(!c.delete_component(&ComponentRootType::Source, "system-file", "absent"));
    assert!(!c.delete_component(&ComponentRootType::Trigger, "x", "y"));
    assert_eq!(c.components_of("source").unwrap().len(), 2);
}

#[test]
fn save_processor_updates_or_appends() {
    let mut c = Config::new(Vec::new(), vec![processor("rss", false)]);
    c.save_processor("rss", processor("ignored-name", true));
    assert_eq!(c.processors().len(), 1);
    assert_eq!(c.processors()[0].name, "rss");
    assert!(c.processors()[0].enabled);
    c.save_processor("mirror", processor("mirror", false));
    assert_eq!(c.processors().len(), 2);
    assert_eq!(c.processors()[1].name, "mirror");
}

#[test]
fn delete_processor_reports_whether_it_was_there() {
    let mut c = Config::new(Vec::new(), vec![processor("rss", true), processor("mirror", true)]);
    assert!(c.delete_processor("rss"));
    assert!(!c.delete_processor("rss"));
    assert_eq!(c.processors().len(), 1);
    assert_eq!(c.processors()[0].name, "mirror");
}

#[test]
fn instance_props_by_name() {
    let mut props = Properties::new();
    props.insert("url".to_string(), PropertyValue::Text("http://x".to_string()));
    let c = Config::new(
        vec![InstanceConfig { name: "one".to_string(), props }],
        Vec::new(),
    );
    let found = c.instance_props("one").unwrap();
    assert_eq!(found.get("url").and_then(|v| v.as_str()), Some("http://x"));
    assert_eq!(found.len(), 1);
    assert!(c.instance_props("two").is_none());
    assert_eq!(c.instances().len(), 1);
}

#[test]
fn registry_lists_names_by_category() {
    let mut m: ComponentManager<DynSupplier> = ComponentManager::new(Box::new(ObjectWrapperContainer::new()));
    m.register(DynSupplier::new(Box::new(SystemFileSourceSupplier))).unwrap();
    m.register(DynSupplier::new(Box::new(TestSourceSupplier::new()))).unwrap();
    assert_eq!(m.registered_count(), 2);
    assert_eq!(m.type_names_of(ComponentRootType::Source), vec!["system-file".to_string(), "test".to_string()]);
    assert!(m.type_names_of(ComponentRootType::Trigger).is_empty());
}

#[test]
fn properties_can_be_walked() {
    let mut p = Properties::new();
    p.insert("a".to_string(), PropertyValue::Null);
    p.insert("b".to_string(), PropertyValue::Number("1.5".to_string()));
    let mut keys: Vec<String> = (0..p.len()).map(|i| p.entry(i).0.clone()).collect();
    keys.sort();
    assert_eq!(keys, vec!["a".to_string(), "b".to_string()]);
}

fn starting_config() -> Config {
    let mut c = Config::new(Vec::new(), vec![processor("default", true)]);
    c.save_component(&ComponentRootType::Source, component("test", "system-file"));
    c
}

#[test]
fn test_save_component() {
    let mut config = starting_config();
    let component_config = ComponentConfig {
        name: "test_save_component".to_string(),
        component_type: "test".to_string(),
        props: Properties::new(),
    };
    config.save_component(&ComponentRootType::Source, component_config);
    let sources = config.components_of("source").expect("no source components");
    assert!(sources
        .iter()
        .any(|c| c.name == "test_save_component" && c.component_type == "test"));
}

#[test]
fn test_delete_component() {
    let mut config = starting_config();
    let removed = config.delete_component(&ComponentRootType::Source, "system-file", "test");
    assert!(removed);
    let sources = config.components_of("source").expect("no source components");
    assert!(!sources.iter().any(|c| c.name == "system-file"));
    assert!(!sources.iter().any(|c| c.name == "test" && c.component_type == "system-file"));
}
