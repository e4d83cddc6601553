use vstd::prelude::*;

use crate::config::{Properties, PropertyValue};
use crate::table::TableKey;

verus! {

/// The functional category of a component.
#[derive(Debug, Clone, Copy, PartialEq, Eq, Hash, Structural)]
pub enum ComponentRootType {
    Trigger,
    Source,
    Downloader,
    ItemFileResolver,
    FileMover,
    VariableProvider,
    ProcessListener,
    SourceItemFilter,
    SourceFileFilter,
    ItemContentFilter,
    FileContentFilter,
    Tagger,
    FileReplacementDecider,
    FileExistsDetector,
    VariableReplacer,
    Trimmer,
}

impl ComponentRootType {
    /// The canonical lower-case, hyphenated name of the category.
    pub open spec fn spec_name(self) -> Seq<char> {
        match self {
            ComponentRootType::Trigger => "trigger"@,
            ComponentRootType::Source => "source"@,
            ComponentRootType::Downloader => "downloader"@,
            ComponentRootType::ItemFileResolver => "item-file-resolver"@,
            ComponentRootType::FileMover => "file-mover"@,
            ComponentRootType::VariableProvider => "variable-provider"@,
            ComponentRootType::ProcessListener => "process-listener"@,
            ComponentRootType::SourceItemFilter => "source-item-filter"@,
            ComponentRootType::SourceFileFilter => "source-file-filter"@,
            ComponentRootType::ItemContentFilter => "item-content-filter"@,
            ComponentRootType::FileContentFilter => "file-content-filter"@,
            ComponentRootType::Tagger => "tagger"@,
            ComponentRootType::FileReplacementDecider => "file-replacement-decider"@,
            ComponentRootType::FileExistsDetector => "file-exists-detector"@,
            ComponentRootType::VariableReplacer => "variable-replacer"@,
            ComponentRootType::Trimmer => "trimmer"@,
        }
    }

    pub fn name(&self) -> (r: &'static str)
        ensures
            r@ == self.spec_name(),
    {
        match self {
            ComponentRootType::Trigger => "trigger",
            ComponentRootType::Source => "source",
            ComponentRootType::Downloader => "downloader",
            ComponentRootType::ItemFileResolver => "item-file-resolver",
            ComponentRootType::FileMover => "file-mover",
            ComponentRootType::VariableProvider => "variable-provider",
            ComponentRootType::ProcessListener => "process-listener",
            ComponentRootType::SourceItemFilter => "source-item-filter",
            ComponentRootType::SourceFileFilter => "source-file-filter",
            ComponentRootType::ItemContentFilter => "item-content-filter",
            ComponentRootType::FileContentFilter => "file-content-filter",
            ComponentRootType::Tagger => "tagger",
            ComponentRootType::FileReplacementDecider => "file-replacement-decider",
            ComponentRootType::FileExistsDetector => "file-exists-detector",
            ComponentRootType::VariableReplacer => "variable-replacer",
            ComponentRootType::Trimmer => "trimmer",
        }
    }
}

/// The key under which a supplier is registered: a category and a name.
#[derive(Debug)]
pub struct ComponentType {
    pub root_type: ComponentRootType,
    pub name: String,
}

impl View for ComponentType {
    type V = (ComponentRootType, Seq<char>);

    open spec fn view(&self) -> (ComponentRootType, Seq<char>) {
        (self.root_type, self.name@)
    }
}

impl TableKey for ComponentType {
    fn same_key(&self, other: &Self) -> (r: bool) {
        self.root_type == other.root_type && self.name == other.name
    }

    fn copy_key(&self) -> (r: Self) {
        ComponentType { root_type: self.root_type, name: self.name.clone() }
    }
}

impl ComponentType {
    pub fn new(root_type: ComponentRootType, name: String) -> (r: ComponentType)
        ensures
            r@ == (root_type, name@),
    {
        ComponentType { root_type, name }
    }

    pub fn trigger(name: String) -> (r: ComponentType)
        ensures
            r@ == (ComponentRootType::Trigger, name@),
    {
        ComponentType { root_type: ComponentRootType::Trigger, name }
    }

    pub fn source(name: String) -> (r: ComponentType)
        ensures
            r@ == (ComponentRootType::Source, name@),
    {
        ComponentType { root_type: ComponentRootType::Source, name }
    }

    /// `<category>:<name>`, as used in messages.
    pub fn describe(&self) -> (r: String)
        ensures
            r@ == self@.0.spec_name() + ":"@ + self@.1,
    {
        let mut s = self.root_type.name().to_string();
        s.append(":");
        s.append(self.name.as_str());
        s
    }
}

/// An error raised by a component or a supplier, carrying a message.
#[derive(Debug)]
pub struct ComponentError {
    message: String,
}

impl View for ComponentError {
    type V = Seq<char>;

    closed spec fn view(&self) -> Seq<char> {
        self.message@
    }
}

impl ComponentError {
    pub fn new(message: &str) -> (r: ComponentError)
        ensures
            r@ == message@,
    {
        ComponentError { message: message.to_string() }
    }

    pub fn from_message(message: String) -> (r: ComponentError)
        ensures
            r@ == message@,
    {
        ComponentError { message }
    }

    pub fn message(&self) -> (r: &str)
        ensures
            r@ == self@,
    {
        self.message.as_str()
    }
}

/// A supplier of any type, behind a box; it answers as the boxed supplier does.
pub struct DynSupplier {
    inner: Box<dyn ComponentSupplier>,
}

impl DynSupplier {
    // The verifier does not relate a boxed trait object moved into a field to
    // the argument it came from, so this constructor states nothing.
    pub fn new(inner: Box<dyn ComponentSupplier>) -> (r: DynSupplier) {
        DynSupplier { inner }
    }
}

impl ComponentSupplier for DynSupplier {
    closed spec fn supplied(&self) -> Seq<(ComponentRootType, Seq<char>)> {
        self.inner.supplied()
    }

    closed spec fn accepts(&self, props: Map<Seq<char>, PropertyValue>) -> bool {
        self.inner.accepts(props)
    }

    fn supply_types(&self) -> (r: Vec<ComponentType>) {
        self.inner.supply_types()
    }

    fn apply(&self, props: &Properties) -> (r: Result<Box<dyn SdComponent>, ComponentError>) {
        self.inner.apply(props)
    }

    fn is_support_no_props(&self) -> bool {
        self.inner.is_support_no_props()
    }

    fn get_metadata(&self) -> Option<Box<SdComponentMetadata>> {
        self.inner.get_metadata()
    }
}

/// A component: an opaque capability produced by a supplier.
pub trait SdComponent {

}

/// A component that lists items.
pub trait Source: SdComponent {
    fn fetch(&self) -> Vec<PointedItem>;
}

/// An item found by a source. Addresses are kept as text; the time is in
/// seconds since the Unix epoch.
pub struct SourceItem {
    pub title: String,
    pub link: String,
    pub datetime: i64,
    pub content_type: String,
    pub download_uri: String,
    pub attrs: Properties,
    pub tags: Vec<String>,
}

/// An item together with where it came from.
pub struct PointedItem {
    pub source_item: SourceItem,
    pub pointer: Box<dyn ItemPointer>,
}

/// Where an item came from, as far as the component that produced it knows.
pub trait ItemPointer {

}

struct EmptyPointer {}

impl ItemPointer for EmptyPointer {

}

pub fn empty_pointer() -> Box<dyn ItemPointer> {
    Box::new(EmptyPointer {  })
}

/// What a supplier says about itself.
pub struct SdComponentMetadata {
    description: String,
    json_schema: Option<Properties>,
    ui_schema: Option<Properties>,
}

/// A factory of components, registered under one or more component types.
pub trait ComponentSupplier {
    /// The component types this supplier answers for, in the order it gives them.
    spec fn supplied(&self) -> Seq<(ComponentRootType, Seq<char>)>;

    /// Whether `apply` succeeds on a property bag with this content.
    spec fn accepts(&self, props: Map<Seq<char>, PropertyValue>) -> bool;

    fn supply_types(&self) -> (r: Vec<ComponentType>)
        ensures
            r@.len() == self.supplied().len(),
            forall|i: int| 0 <= i < r@.len() ==> #[trigger] r@[i]@ == self.supplied()[i],
    ;

    fn apply(&self, props: &Properties) -> (r: Result<Box<dyn SdComponent>, ComponentError>)
        requires
            props.wf(),
        ensures
            r is Ok <==> self.accepts(props@),
    ;

    fn is_support_no_props(&self) -> bool {
        false
    }

    fn get_metadata(&self) -> Option<Box<SdComponentMetadata>>;
}

} // verus!
