use cnls::config::{Config, Rejection};
use cnls::scope::{starts_a_valid_scope, ScopeError, ScopeVariant};

#[test]
fn default_configuration() {
    let config = Config::default();
    let scopes = config.scopes();
    assert_eq!(scopes.len(), 2);
    assert!(starts_a_valid_scope(scopes, "className", ScopeVariant::AttrNames));
    assert!(starts_a_valid_scope(scopes, "class", ScopeVariant::AttrNames));
    assert!(starts_a_valid_scope(scopes, "createElement", ScopeVariant::FnCall));
    assert!(!starts_a_valid_scope(scopes, "createElement", ScopeVariant::RecordEntries));
    assert_eq!(scopes[0].variant(), ScopeVariant::AttrNames);
    assert_eq!(scopes[0].identifier_count(), 2);
    assert_eq!(scopes[1].variant(), ScopeVariant::FnCall);
    assert_eq!(scopes[1].identifier_count(), 1);
}

#[test]
fn replacing_keeps_nothing_of_the_old_configuration() {
    let mut config = Config::default();
    let refused = config.replace_scopes(&vec!["rec:classes".to_owned()]);
    assert_eq!(refused, Vec::new());
    let scopes = config.scopes();
    assert_eq!(scopes.len(), 1);
    assert!(starts_a_valid_scope(scopes, "classes", ScopeVariant::RecordEntries));
    assert!(!starts_a_valid_scope(scopes, "className", ScopeVariant::AttrNames));
    assert!(!starts_a_valid_scope(scopes, "createElement", ScopeVariant::FnCall));
}

#[test]
fn a_refused_descriptor_is_reported_and_the_others_apply() {
    let mut config = Config::default();
    let refused = config.replace_scopes(&vec![
        "bogus:a".to_owned(),
        "att:tw".to_owned(),
        "fn:".to_owned(),
        "fn:cx,clsx".to_owned(),
    ]);
    assert_eq!(
        refused,
        vec![
            Rejection { index: 0, error: ScopeError::UnknownTag },
            Rejection { index: 2, error: ScopeError::NoIdentifiers },
        ]
    );
    let scopes = config.scopes();
    assert_eq!(scopes.len(), 2);
    assert_eq!(scopes[0].variant(), ScopeVariant::AttrNames);
    assert_eq!(scopes[1].variant(), ScopeVariant::FnCall);
    assert!(starts_a_valid_scope(scopes, "clsx", ScopeVariant::FnCall));
}

#[test]
fn replacing_by_nothing_empties_the_configuration() {
    let mut config = Config::default();
    assert_eq!(config.replace_scopes(&Vec::new()), Vec::new());
    assert_eq!(config.scopes().len(), 0);
}
