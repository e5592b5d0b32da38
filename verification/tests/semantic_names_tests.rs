use inspector_core::semantic_names::SemanticFieldNames;

#[test]
fn registered_names_come_back_by_index() {
    let mut names = SemanticFieldNames::new();
    names.register(5, vec!["r".to_string(), "g".to_string(), "b".to_string(), "a".to_string()]);
    assert_eq!(names.get_field_name(5, 0), Some("r".to_string()));
    assert_eq!(names.get_field_name(5, 3), Some("a".to_string()));
    assert_eq!(names.get_field_name(5, 4), None);
    assert_eq!(names.get_field_name(6, 0), None);
}

#[test]
fn axis_names_follow_the_arity() {
    let mut names = SemanticFieldNames::new();
    names.register_axis_names(2, 2);
    names.register_axis_names(3, 3);
    names.register_axis_names(4, 4);
    assert_eq!(names.get_field_name(2, 1), Some("y".to_string()));
    assert_eq!(names.get_field_name(2, 2), None);
    assert_eq!(names.get_field_name(3, 2), Some("z".to_string()));
    assert_eq!(names.get_field_name(4, 3), Some("w".to_string()));
}

#[test]
fn has_override_reports_registration() {
    let mut names = SemanticFieldNames::new();
    assert!(!names.has_override(8));
    names.register_axis_names(8, 4);
    assert!(names.has_override(8));
}

#[test]
fn a_later_registration_replaces_the_earlier_one() {
    let mut names = SemanticFieldNames::new();
    names.register(1, vec!["a".to_string()]);
    names.register(1, vec!["b".to_string()]);
    assert_eq!(names.get_field_name(1, 0), Some("b".to_string()));
}
