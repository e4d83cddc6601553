use vstd::prelude::*;

use crate::component::{
    empty_pointer, ComponentError, ComponentRootType, ComponentSupplier, ComponentType,
    PointedItem, SdComponent, SdComponentMetadata, Source, SourceItem,
};
use crate::component::DynSupplier;
use crate::config::{prop_i64_or, prop_str, Properties, PropertyValue};
use crate::plugin::{lemma_registering_extends, CorePluginContext, Plugin, PluginContext, PluginDescription};

verus! {

/// Whether the last components of the path `path` are the components of `child`.
pub uninterp spec fn path_ends_with(path: Seq<char>, child: Seq<char>) -> bool;

/// Whether `s` parses as a URI.
pub uninterp spec fn uri_parses(s: Seq<char>) -> bool;

/// Relies on `std::path::Path::ends_with`, which compares whole path
/// components; the answer depends on the two strings alone.
#[verifier::external_body]
fn path_has_suffix(path: &str, child: &str) -> (r: bool)
    ensures
        r == path_ends_with(path@, child@),
{
    std::path::Path::new(path).ends_with(child)
}

/// Relies on `http::Uri`'s `FromStr`: whether the text is accepted as a URI.
#[verifier::external_body]
fn uri_is_valid(s: &str) -> (r: bool)
    ensures
        r == uri_parses(s@),
{
    s.parse::<http::Uri>().is_ok()
}

/// Relies on `time::OffsetDateTime::now_utc` and `unix_timestamp`: the
/// current time, in seconds since the Unix epoch. Nothing is promised of it.
#[verifier::external_body]
fn now_unix_timestamp() -> (r: i64) {
    time::OffsetDateTime::now_utc().unix_timestamp()
}

/// Makes sources that read files of the local system.
pub struct SystemFileSourceSupplier;

impl ComponentSupplier for SystemFileSourceSupplier {
    open spec fn supplied(&self) -> Seq<(ComponentRootType, Seq<char>)> {
        seq![(ComponentRootType::Source, "system-file"@)]
    }

    open spec fn accepts(&self, props: Map<Seq<char>, PropertyValue>) -> bool {
        prop_str(props, "path"@) is Some
    }

    fn supply_types(&self) -> (r: Vec<ComponentType>) {
        vec![ComponentType::source("system-file".to_string())]
    }

    fn apply(&self, props: &Properties) -> (r: Result<Box<dyn SdComponent>, ComponentError>) {
        match SystemFileSource::from_properties(props) {
            Ok(source) => Ok(Box::new(source)),
            Err(e) => Err(e),
        }
    }

    fn get_metadata(&self) -> Option<Box<SdComponentMetadata>> {
        None
    }
}

/// A source of the files under a path of the local system.
pub struct SystemFileSource {
    path: String,
    mode: i8,
}

impl SystemFileSource {
    pub closed spec fn path_spec(&self) -> Seq<char> {
        self.path@
    }

    pub fn path(&self) -> (r: &str)
        ensures
            r@ == self.path_spec(),
    {
        self.path.as_str()
    }

    pub closed spec fn mode_spec(&self) -> i8 {
        self.mode
    }

    /// Reads `path` (text, required) and `mode` (an integer, 0 when absent;
    /// only its low byte is kept) from `props`.
    pub fn from_properties(props: &Properties) -> (r: Result<SystemFileSource, ComponentError>)
        requires
            props.wf(),
        ensures
            r is Ok <==> prop_str(props@, "path"@) is Some,
            r matches Ok(s) ==> s.path_spec() == prop_str(props@, "path"@)->0
                && s.mode_spec() == prop_i64_or(props@, "mode"@, 0) as i8,
            r matches Err(e) ==> e@ == "Missing path property"@,
    {
        let path = match props.get("path") {
            Some(v) => v.as_str(),
            None => None,
        };
        match path {
            None => Err(ComponentError::new("Missing path property")),
            Some(p) => {
                let mode = match props.get("mode") {
                    Some(v) => match v.as_i64() {
                        Some(n) => n,
                        None => 0,
                    },
                    None => 0,
                };
                Ok(SystemFileSource { path: p.to_string(), mode: mode as i8 })
            },
        }
    }

    pub fn mode(&self) -> (r: i8)
        ensures
            r == self.mode_spec(),
    {
        self.mode
    }

    /// Whether the path's last component is `.test`.
    pub fn test(&self) -> (r: bool)
        ensures
            r == path_ends_with(self.path_spec(), ".test"@),
    {
        path_has_suffix(self.path.as_str(), ".test")
    }

    /// The single placeholder item that this source lists, when its two
    /// addresses parse.
    pub fn listing(&self, now: i64) -> (r: Vec<SourceItem>)
        ensures
            r@.len() == if uri_parses("https://example.com"@) && uri_parses(
                "https://example.com/download"@,
            ) {
                1int
            } else {
                0int
            },
            r@.len() == 1 ==> {
                &&& r@[0].title@ == "test"@
                &&& r@[0].link@ == "https://example.com"@
                &&& r@[0].datetime == now
                &&& r@[0].content_type@ == "text/plain"@
                &&& r@[0].download_uri@ == "https://example.com/download"@
                &&& r@[0].attrs@ == Map::<Seq<char>, PropertyValue>::empty()
                &&& r@[0].tags@.len() == 0
            },
    {
        let link = "https://example.com";
        let download = "https://example.com/download";
        let mut items: Vec<SourceItem> = Vec::new();
        if uri_is_valid(link) && uri_is_valid(download) {
            let item = SourceItem {
                title: "test".to_string(),
                link: link.to_string(),
                datetime: now,
                content_type: "text/plain".to_string(),
                download_uri: download.to_string(),
                attrs: Properties::new(),
                tags: Vec::new(),
            };
            items.push(item);
        }
        items
    }
}

impl SdComponent for SystemFileSource {

}

impl Source for SystemFileSource {
    fn fetch(&self) -> Vec<PointedItem> {
        let now = now_unix_timestamp();
        let mut listed = self.listing(now);
        let mut items: Vec<PointedItem> = Vec::new();
        while listed.len() > 0
            decreases listed@.len(),
        {
            let item = listed.remove(0);
            items.push(PointedItem { source_item: item, pointer: empty_pointer() });
        }
        items
    }
}

/// A source that lists nothing, for trying the plugin machinery.
pub struct TestSource {}

impl TestSource {
    pub fn new() -> (r: Self) {
        TestSource {  }
    }
}

impl SdComponent for TestSource {

}

impl Source for TestSource {
    fn fetch(&self) -> Vec<PointedItem> {
        Vec::new()
    }
}

/// Makes test sources; refuses `mode` 1.
pub struct TestSourceSupplier {}

impl TestSourceSupplier {
    pub fn new() -> (r: Self) {
        TestSourceSupplier {  }
    }
}

impl ComponentSupplier for TestSourceSupplier {
    open spec fn supplied(&self) -> Seq<(ComponentRootType, Seq<char>)> {
        seq![(ComponentRootType::Source, "test"@)]
    }

    open spec fn accepts(&self, props: Map<Seq<char>, PropertyValue>) -> bool {
        prop_i64_or(props, "mode"@, 0) as i8 != 1
    }

    fn supply_types(&self) -> (r: Vec<ComponentType>) {
        vec![ComponentType::source("test".to_string())]
    }

    fn apply(&self, props: &Properties) -> (r: Result<Box<dyn SdComponent>, ComponentError>) {
        let mode = match props.get("mode") {
            Some(v) => match v.as_i64() {
                Some(n) => n,
                None => 0,
            },
            None => 0,
        };
        if mode as i8 == 1 {
            return Err(ComponentError::new("Mode 1 is not supported"));
        }
        Ok(Box::new(TestSource::new()))
    }

    fn get_metadata(&self) -> Option<Box<SdComponentMetadata>> {
        None
    }
}

/// The plugin that ships the test source.
pub struct CommonPlugin;

impl Plugin for CommonPlugin {
    fn init(&self, plugin_context: &mut CorePluginContext) {
        let supplier = DynSupplier::new(Box::new(TestSourceSupplier::new()));
        let suppliers = vec![supplier];
        proof {
            lemma_registering_extends(plugin_context.registrations(), suppliers@);
        }
        plugin_context.register_supplier(suppliers);
    }

    fn destroy(&self, plugin_context: &CorePluginContext) {
    }

    fn description(&self) -> PluginDescription {
        PluginDescription { name: "common".to_string(), version: "0.1.0".to_string() }
    }
}

/// The entry point of the common plugin.
pub fn create_plugin() -> Box<dyn Plugin> {
    Box::new(CommonPlugin)
}

} // verus!
