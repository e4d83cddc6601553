use source_downloader::component::{ComponentType, DynSupplier, Source};
use source_downloader::component_manager::ComponentManager;
use source_downloader::components::{create_plugin, CommonPlugin, SystemFileSource, SystemFileSourceSupplier, TestSourceSupplier};
use source_downloader::config::{Properties, PropertyValue};
use source_downloader::container::ObjectWrapperContainer;
use source_downloader::loader::{
    has_extension, select_candidates, CandidateOutcome, ImageAction, LoadFailure, PluginManager,
};
use source_downloader::plugin::{CorePluginContext, Plugin, PluginContext, PluginDescription};

fn context() -> CorePluginContext {
    let mut m = ComponentManager::new(Box::new(ObjectWrapperContainer::new()));
    m.register(DynSupplier::new(Box::new(SystemFileSourceSupplier))).unwrap();
    CorePluginContext::new(m, "/var/lib/plugins".to_string())
}

#[test]
fn loader_goes_on_past_a_bad_file() {
    let mut loader = PluginManager::new(context());
    let a = loader.settle("/plugins/broken.so".to_string(), CandidateOutcome::LoadFailed);
    assert_eq!(a, ImageAction::Nothing);
    let b = loader.settle("/plugins/libcommon.so".to_string(), CandidateOutcome::Loaded(create_plugin()));
    assert_eq!(b, ImageAction::Retain);
    let failures = loader.load_failures();
    assert_eq!(failures.len(), 1);
    assert_eq!(failures[0], ("/plugins/broken.so".to_string(), LoadFailure::ModuleLoad));
    assert_eq!(loader.resident_paths(), &vec!["/plugins/libcommon.so".to_string()]);
    assert_eq!(loader.descriptions().len(), 1);
    let m = loader.context_ref().component_manager();
    assert!(m.resolve(&ComponentType::source("test".to_string())).is_some());
    assert!(m.resolve(&ComponentType::source("system-file".to_string())).is_some());
}

#[test]
fn missing_entry_point_releases_the_image() {
    let mut loader = PluginManager::new(context());
    let a = loader.settle("/plugins/other.so".to_string(), CandidateOutcome::SymbolMissing);
    assert_eq!(a, ImageAction::Release);
    assert_eq!(loader.load_failures()[0].1, LoadFailure::SymbolResolution);
    assert!(loader.resident_paths().is_empty());
}

#[test]
fn second_plugin_with_same_types_is_recorded_not_fatal() {
    let mut ctx = context();
    CommonPlugin.init(&mut ctx);
    assert_eq!(ctx.registration_failures().len(), 0);
    CommonPlugin.init(&mut ctx);
    assert_eq!(ctx.registration_failures().len(), 1);
    assert_eq!(
        ctx.registration_failures()[0].message(),
        "Component type source:test already registered"
    );
    assert!(ctx.component_manager().resolve(&ComponentType::source("test".to_string())).is_some());
}

#[test]
fn context_reports_its_data_path_and_ignores_instance_factories() {
    let mut ctx = context();
    assert_eq!(ctx.get_persistent_data_path(), "/var/lib/plugins");
    ctx.register_instance_factory(Vec::new());
    ctx.register_supplier(vec![DynSupplier::new(Box::new(TestSourceSupplier::new()))]);
    let m = ctx.into_component_manager();
    assert!(m.resolve(&ComponentType::source("test".to_string())).is_some());
}

#[test]
fn candidates_are_chosen_by_extension() {
    let paths = vec![
        "/p/libone.so".to_string(),
        "/p/readme.txt".to_string(),
        "/p/.so".to_string(),
        "/p/two.so".to_string(),
        "/p/noext".to_string(),
        "/p/three.so.1".to_string(),
    ];
    let chosen = select_candidates(paths, "so");
    assert_eq!(chosen, vec!["/p/libone.so".to_string(), "/p/two.so".to_string()]);
    assert!(select_candidates(Vec::new(), "so").is_empty());
}

#[test]
fn extension_comparison() {
    assert!(has_extension(&Some("dll".to_string()), "dll"));
    assert!(!has_extension(&Some("so".to_string()), "dll"));
    assert!(!has_extension(&None, "so"));
}

#[test]
fn description_text() {
    let d = create_plugin().description();
    assert_eq!(d.to_text(), "common:0.1.0\n");
    let d = PluginDescription { name: "x".to_string(), version: "2".to_string() };
    assert_eq!(d.to_text(), "x:2\n");
}

#[test]
fn system_file_source_reads_path_and_mode() {
    let mut p = Properties::new();
    p.insert("path".to_string(), PropertyValue::Text("/data/.test".to_string()));
    p.insert("mode".to_string(), PropertyValue::Integer(300));
    let s = SystemFileSource::from_properties(&p).unwrap();
    assert_eq!(s.path(), "/data/.test");
    assert_eq!(s.mode(), 44);
    assert!(s.test());
    let mut q = Properties::new();
    q.insert("path".to_string(), PropertyValue::Text("/data/x.test".to_string()));
    assert!(!SystemFileSource::from_properties(&q).unwrap().test());
    assert_eq!(SystemFileSource::from_properties(&q).unwrap().mode(), 0);
    match SystemFileSource::from_properties(&Properties::new()) {
        Err(e) => assert_eq!(e.message(), "Missing path property"),
        Ok(_) => panic!("path is required"),
    }
}

#[test]
fn system_file_source_lists_one_item() {
    let mut p = Properties::new();
    p.insert("path".to_string(), PropertyValue::Text("/data".to_string()));
    let s = SystemFileSource::from_properties(&p).unwrap();
    let items = s.listing(1_700_000_000);
    assert_eq!(items.len(), 1);
    assert_eq!(items[0].title, "test");
    assert_eq!(items[0].link, "https://example.com");
    assert_eq!(items[0].download_uri, "https://example.com/download");
    assert_eq!(items[0].datetime, 1_700_000_000);
    assert_eq!(items[0].content_type, "text/plain");
    assert!(items[0].tags.is_empty());
    let fetched = s.fetch();
    assert_eq!(fetched.len(), 1);
    assert!(fetched[0].source_item.datetime > 1_600_000_000);
}
