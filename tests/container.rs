use source_downloader::config::Properties;
use source_downloader::container::{
    ComponentWrapper, GenericObjectWrapper, ObjectWrapperContainer, ObjectWrapperError, TypeTag,
};
use source_downloader::components::TestSource;

#[test]
fn test_simple_object_wrapper_container() {
    let mut container = ObjectWrapperContainer::new();

    let string_wrapper = Box::new(GenericObjectWrapper::new("Hello, world!".to_owned()));
    container.put("greeting", string_wrapper);

    assert!(container.contains("greeting"));
    assert!(!container.contains("nonexistent"));

    let result = container.get::<String>("greeting");
    assert!(result.is_ok());

    let value = result.unwrap();
    assert_eq!(value, "Hello, world!");

    let result = container.get::<i32>("greeting");
    assert!(result.is_err());

    let names = container.get_all_object_names();
    assert_eq!(names.len(), 1);
    assert!(names.contains(&"greeting".to_owned()));

    container.remove("greeting");
    assert!(!container.contains("greeting"));
}

#[test]
fn round_trip_gives_back_the_value_and_refuses_other_types() {
    let mut container = ObjectWrapperContainer::new();
    container.put("answer", Box::new(GenericObjectWrapper::new(42i64)));
    assert_eq!(*container.get::<i64>("answer").unwrap(), 42);
    match container.get::<String>("answer") {
        Err(ObjectWrapperError::TypeCast { name, expected, actual }) => {
            assert_eq!(name, "answer");
            assert_eq!(expected, TypeTag::Text);
            assert_eq!(actual, TypeTag::I64);
        }
        other => panic!("unexpected result: {:?}", other.map(|v| v.clone())),
    }
}

#[test]
fn missing_name_is_not_found() {
    let container = ObjectWrapperContainer::new();
    match container.get::<String>("nothing") {
        Err(ObjectWrapperError::NotFound(name)) => assert_eq!(name, "nothing"),
        other => panic!("unexpected result: {:?}", other.map(|v| v.clone())),
    }
}

#[test]
fn later_put_overwrites() {
    let mut container = ObjectWrapperContainer::new();
    container.put("k", Box::new(GenericObjectWrapper::new(1i32)));
    container.put("k", Box::new(GenericObjectWrapper::new(true)));
    assert!(container.get::<i32>("k").is_err());
    assert_eq!(*container.get::<bool>("k").unwrap(), true);
    assert_eq!(container.get_all_object_names().len(), 1);
}

#[test]
fn removing_an_absent_name_changes_nothing() {
    let mut container = ObjectWrapperContainer::new();
    container.put("kept", Box::new(GenericObjectWrapper::new(7u64)));
    container.remove("absent");
    assert!(container.contains("kept"));
    assert_eq!(container.get_all_object_names(), vec!["kept".to_string()]);
    assert_eq!(*container.get::<u64>("kept").unwrap(), 7);
}

#[test]
fn objects_of_one_type_are_listed() {
    let mut container = ObjectWrapperContainer::new();
    container.put("a", Box::new(GenericObjectWrapper::new("x".to_string())));
    container.put("b", Box::new(GenericObjectWrapper::new(5i32)));
    container.put("c", Box::new(GenericObjectWrapper::new("y".to_string())));
    container.put("d", Box::new(GenericObjectWrapper::new(Properties::new())));
    let mut texts: Vec<(String, String)> = container
        .get_objects_of_type::<String>()
        .into_iter()
        .map(|(k, v)| (k, v.clone()))
        .collect();
    texts.sort();
    assert_eq!(texts, vec![("a".to_string(), "x".to_string()), ("c".to_string(), "y".to_string())]);
    assert_eq!(container.get_objects_of_type::<i32>().len(), 1);
    assert_eq!(container.get_objects_of_type::<bool>().len(), 0);
    assert!(container.get::<Properties>("d").is_ok());
}

#[test]
fn components_are_stored_under_the_component_tag() {
    let mut container = ObjectWrapperContainer::new();
    let wrapper = ComponentWrapper::new(TestSource::new());
    let _ = wrapper.get_component();
    container.put("source", Box::new(wrapper));
    assert!(container.contains("source"));
    match container.get::<String>("source") {
        Err(ObjectWrapperError::TypeCast { actual, .. }) => assert_eq!(actual, TypeTag::Component),
        _ => panic!("a component is not text"),
    }
}

#[test]
fn error_messages_name_the_object_and_types() {
    let e = ObjectWrapperError::NotFound("greeting".to_string());
    assert_eq!(e.message(), "Object 'greeting' not found");
    let e = ObjectWrapperError::TypeCast {
        name: "greeting".to_string(),
        expected: TypeTag::I32,
        actual: TypeTag::Text,
    };
    assert_eq!(e.message(), "Object 'greeting' cannot be cast to i32, actual type: String");
}

#[test]
fn generic_wrapper_hands_back_its_value() {
    let w = GenericObjectWrapper::new(3i32);
    assert_eq!(*w.get_typed(), 3);
}
