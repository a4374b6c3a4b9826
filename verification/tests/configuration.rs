use group::configuration::{InputAttributeSpec, InputAttributeType, InputSpec, SpecError};

fn attribute(name: &str) -> InputAttributeSpec {
    InputAttributeSpec { name: String::from(name), attr_type: InputAttributeType::Integer }
}

fn names(list: &[&str]) -> Vec<String> {
    list.iter().map(|name| String::from(*name)).collect()
}

fn spec(attrs: &[&str], group_by: &[&str], shown: &[&str], timeline: Option<&str>) -> InputSpec {
    InputSpec {
        attrs: attrs.iter().map(|name| attribute(name)).collect(),
        group_by: names(group_by),
        show_in_grouped: names(shown),
        timeline_column: timeline.map(String::from),
    }
}

fn message_of(spec: &InputSpec) -> Option<String> {
    spec.validate().err().map(|e| e.message())
}

#[test]
fn validate_accepts_a_spec_that_names_only_its_attributes() {
    assert!(spec(&["a", "b", "t"], &["a"], &["b", "a"], Some("t")).validate().is_ok());
    assert!(spec(&["a"], &[], &[], None).validate().is_ok());
    assert!(spec(&[], &[], &[], None).validate().is_ok());
    assert_eq!(spec(&["a", "b"], &[], &[], None).attribute_names(), names(&["a", "b"]));
}

#[test]
fn validate_rejects_attributes_of_one_name() {
    assert_eq!(
        message_of(&spec(&["a", "b", "a"], &["zz"], &[], None)),
        Some(String::from("spec contains duplicates"))
    );
    assert!(matches!(
        spec(&["a", "b", "b"], &[], &[], None).validate(),
        Err(SpecError::Duplicates)
    ));
}

#[test]
fn validate_names_the_first_missing_attribute() {
    assert_eq!(
        message_of(&spec(&["a", "b"], &["a", "x", "y"], &["z"], Some("w"))),
        Some(String::from("missing grouping attribute x in spec"))
    );
    assert_eq!(
        message_of(&spec(&["a", "b"], &["a"], &["b", "z", "y"], Some("w"))),
        Some(String::from("missing attribute z requested to show in grouped mode"))
    );
    assert_eq!(
        message_of(&spec(&["a", "b"], &["a"], &["b"], Some("w"))),
        Some(String::from("missing timeline attribute w in spec"))
    );
    assert!(matches!(
        spec(&["a"], &["b"], &[], None).validate(),
        Err(SpecError::MissingGrouping(name)) if name == "b"
    ));
    assert!(matches!(
        spec(&["a"], &[], &["c"], None).validate(),
        Err(SpecError::MissingShown(name)) if name == "c"
    ));
    assert!(matches!(
        spec(&["a"], &[], &[], Some("d")).validate(),
        Err(SpecError::MissingTimeline(name)) if name == "d"
    ));
}
