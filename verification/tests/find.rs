use cnls::find::{visit_node, visit_nodes, Node, SrcCodeMeta};
use cnls::locate::Position;
use cnls::scope::{Scope, ScopeVariant};

fn other(children: Vec<Node>) -> Node {
    Node::Other { children }
}

fn literal(value: &str, lo: u32) -> Node {
    Node::Str { value: value.to_owned(), lo, hi: lo + value.len() as u32 + 2 }
}

fn entry(variant: ScopeVariant, name: Option<&str>, scoped: Vec<Node>) -> Node {
    Node::Entry {
        variant,
        name: name.map(|n| n.to_owned()),
        head: vec![other(vec![])],
        scoped,
        tail: vec![],
    }
}

/// `createElement("foo bar", null)`
fn create_element_call() -> (String, Vec<Node>) {
    let code = "createElement(\"foo bar\", null)".to_owned();
    let call = entry(
        ScopeVariant::FnCall,
        Some("createElement"),
        vec![other(vec![literal("foo bar", 14)]), other(vec![])],
    );
    (code, vec![other(vec![call])])
}

fn query(code: &str, character: u32) -> SrcCodeMeta {
    SrcCodeMeta::build(code, Position { line: 0, character }).unwrap()
}

#[test]
fn call_argument_yields_the_token_under_the_cursor() {
    let (code, module) = create_element_call();
    let scopes = vec![Scope::from_str("fn:createElement").unwrap()];
    for character in 19..=21 {
        let found = query(&code, character).get_classname_on_cursor(&module, &scopes);
        assert_eq!(found, Some("bar".to_owned()));
    }
    for character in 15..=17 {
        let found = query(&code, character).get_classname_on_cursor(&module, &scopes);
        assert_eq!(found, Some("foo".to_owned()));
    }
    assert_eq!(query(&code, 18).get_classname_on_cursor(&module, &scopes), None);
    assert_eq!(query(&code, 14).get_classname_on_cursor(&module, &scopes), None);
    assert_eq!(query(&code, 3).get_classname_on_cursor(&module, &scopes), None);
}

#[test]
fn nothing_is_found_outside_a_scope() {
    let (code, module) = create_element_call();
    let none: Vec<Scope> = Vec::new();
    let other_fn = vec![Scope::from_str("fn:h").unwrap()];
    let attribute = vec![Scope::from_str("att:createElement").unwrap()];
    for character in 0..code.len() as u32 {
        assert_eq!(query(&code, character).get_classname_on_cursor(&module, &none), None);
        assert_eq!(query(&code, character).get_classname_on_cursor(&module, &other_fn), None);
        assert_eq!(query(&code, character).get_classname_on_cursor(&module, &attribute), None);
    }
}

#[test]
fn a_callee_that_is_no_plain_identifier_opens_no_scope() {
    let call = entry(ScopeVariant::FnCall, None, vec![literal("foo bar", 20)]);
    let scopes = vec![Scope::from_str("fn:createElement").unwrap()];
    let walked = visit_node(&call, &scopes, 23, false);
    assert_eq!(walked.found, None);
    assert!(!walked.in_scope);
}

#[test]
fn attribute_and_entry_scopes() {
    let scopes = vec![
        Scope::from_str("att:className,class").unwrap(),
        Scope::from_str("rec:classes").unwrap(),
    ];
    let attribute = entry(ScopeVariant::AttrNames, Some("class"), vec![literal("a b", 10)]);
    assert_eq!(visit_node(&attribute, &scopes, 13, false).found, Some("b".to_owned()));
    let prop = entry(ScopeVariant::RecordEntries, Some("classes"), vec![literal("a b", 10)]);
    assert_eq!(visit_node(&prop, &scopes, 11, false).found, Some("a".to_owned()));
    let style = entry(ScopeVariant::AttrNames, Some("style"), vec![literal("a b", 10)]);
    assert_eq!(visit_node(&style, &scopes, 11, false).found, None);
}

#[test]
fn the_first_hit_in_document_order_wins() {
    let scopes = vec![Scope::from_str("att:class").unwrap()];
    let first = entry(ScopeVariant::AttrNames, Some("class"), vec![literal("first", 10)]);
    let second = entry(ScopeVariant::AttrNames, Some("class"), vec![literal("second", 10)]);
    let walked = visit_nodes(&vec![first, second], &scopes, 12, false);
    assert_eq!(walked.found, Some("first".to_owned()));
}

#[test]
fn the_flag_is_cleared_behind_a_scope() {
    let scopes = vec![Scope::from_str("att:class").unwrap(), Scope::from_str("fn:cx").unwrap()];
    let inner = entry(ScopeVariant::AttrNames, Some("class"), vec![literal("x", 50)]);
    let call = entry(ScopeVariant::FnCall, Some("cx"), vec![inner, literal("late", 10)]);
    assert_eq!(visit_node(&call, &scopes, 12, false).found, None);
    let plain = entry(ScopeVariant::FnCall, Some("cx"), vec![other(vec![]), literal("late", 10)]);
    assert_eq!(visit_node(&plain, &scopes, 12, false).found, Some("late".to_owned()));
}

#[test]
fn a_literal_counts_only_in_scope() {
    let scopes: Vec<Scope> = Vec::new();
    let node = literal("a b", 10);
    assert_eq!(visit_node(&node, &scopes, 11, false).found, None);
    let walked = visit_node(&node, &scopes, 11, true);
    assert_eq!(walked.found, Some("a".to_owned()));
    assert!(walked.in_scope);
}

#[test]
fn a_cursor_on_a_missing_line_builds_no_query() {
    assert!(SrcCodeMeta::build("one line", Position { line: 1, character: 0 }).is_none());
    let built = SrcCodeMeta::build("a\nbc", Position { line: 1, character: 1 }).unwrap();
    assert_eq!(built.cursor_byte_position(), 3);
}
