use cnls::scope::{starts_a_valid_scope, Scope, ScopeError, ScopeVariant};

#[test]
fn parsed_descriptor_matches_its_identifiers_only() {
    let scope = Scope::from_str("att:a,b,c").unwrap();
    assert!(scope.matches("b", ScopeVariant::AttrNames));
    assert!(!scope.matches("d", ScopeVariant::AttrNames));
    assert!(!scope.matches("b", ScopeVariant::FnCall));
    assert!(!scope.matches("b", ScopeVariant::RecordEntries));
    assert!(scope.matches("a", ScopeVariant::AttrNames));
    assert!(scope.matches("c", ScopeVariant::AttrNames));
    assert_eq!(scope.variant(), ScopeVariant::AttrNames);
    assert_eq!(scope.identifier_count(), 3);
}

#[test]
fn each_tag_selects_its_variant() {
    assert_eq!(Scope::from_str("att:x").unwrap().variant(), ScopeVariant::AttrNames);
    assert_eq!(Scope::from_str("fn:x").unwrap().variant(), ScopeVariant::FnCall);
    assert_eq!(Scope::from_str("rec:x").unwrap().variant(), ScopeVariant::RecordEntries);
}

#[test]
fn unknown_tag_is_refused() {
    assert_eq!(Scope::from_str("attr:a").err(), Some(ScopeError::UnknownTag));
    assert_eq!(Scope::from_str("").err(), Some(ScopeError::UnknownTag));
    assert_eq!(Scope::from_str(":a").err(), Some(ScopeError::UnknownTag));
    assert_eq!(Scope::from_str("ATT:a").err(), Some(ScopeError::UnknownTag));
    assert_eq!(Scope::from_str("className").err(), Some(ScopeError::UnknownTag));
}

#[test]
fn missing_identifiers_are_refused() {
    assert_eq!(Scope::from_str("att:").err(), Some(ScopeError::NoIdentifiers));
    assert_eq!(Scope::from_str("fn").err(), Some(ScopeError::NoIdentifiers));
    assert_eq!(Scope::from_str("rec:").err(), Some(ScopeError::NoIdentifiers));
}

#[test]
fn only_the_first_colon_ends_the_tag() {
    let scope = Scope::from_str("fn:a:b,c").unwrap();
    assert_eq!(scope.identifier_count(), 2);
    assert!(scope.matches("a:b", ScopeVariant::FnCall));
    assert!(scope.matches("c", ScopeVariant::FnCall));
    assert!(!scope.matches("a", ScopeVariant::FnCall));
}

#[test]
fn matching_is_exact() {
    let scope = Scope::from_str("att:className, class").unwrap();
    assert!(scope.matches("className", ScopeVariant::AttrNames));
    assert!(!scope.matches("classname", ScopeVariant::AttrNames));
    assert!(!scope.matches("class", ScopeVariant::AttrNames));
    assert!(scope.matches(" class", ScopeVariant::AttrNames));
    assert!(!scope.matches("className ", ScopeVariant::AttrNames));
}

#[test]
fn pieces_between_commas_are_kept_as_they_are() {
    let scope = Scope::from_str("rec:a,,b,").unwrap();
    assert_eq!(scope.identifier_count(), 4);
    assert!(scope.matches("", ScopeVariant::RecordEntries));
    assert!(scope.matches("b", ScopeVariant::RecordEntries));
}

#[test]
fn a_list_matches_where_one_descriptor_does() {
    let scopes = vec![
        Scope::from_str("att:className,class").unwrap(),
        Scope::from_str("fn:createElement").unwrap(),
    ];
    assert!(starts_a_valid_scope(&scopes, "class", ScopeVariant::AttrNames));
    assert!(starts_a_valid_scope(&scopes, "createElement", ScopeVariant::FnCall));
    assert!(!starts_a_valid_scope(&scopes, "createElement", ScopeVariant::AttrNames));
    assert!(!starts_a_valid_scope(&scopes, "style", ScopeVariant::AttrNames));
    assert!(!starts_a_valid_scope(&Vec::new(), "class", ScopeVariant::AttrNames));
}

#[test]
fn new_descriptor_holds_its_parts() {
    let scope = Scope::new(ScopeVariant::RecordEntries, vec!["classes".to_owned()]);
    assert!(scope.matches("classes", ScopeVariant::RecordEntries));
    assert!(!scope.matches("classes", ScopeVariant::AttrNames));
}
