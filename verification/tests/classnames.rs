use cnls::classnames::{class_name_from_selector, ClassNamesCollector, CssNode, Span};
use cnls::resolve::{definition_range, resolve, rule_text, Definition, Range};
use cnls::locate::Position;
use cnls::Str;

fn compound(classes: &[&str]) -> CssNode {
    CssNode::CompoundSelector { classes: classes.iter().map(|c| (*c).to_owned()).collect() }
}

fn other(children: Vec<CssNode>) -> CssNode {
    CssNode::Other { children }
}

fn rule(lo: u32, hi: u32, selectors: Vec<CssNode>, block: Vec<CssNode>) -> CssNode {
    CssNode::QualifiedRule { span: Span { lo, hi }, children: vec![other(selectors), other(block)] }
}

fn values(index: &ClassNamesCollector) -> Vec<(String, Span)> {
    (0..index.len())
        .map(|i| (index.get(i).value.as_str().to_owned(), index.get(i).span))
        .collect()
}

#[test]
fn a_rule_gives_an_entry_with_the_span_of_the_rule() {
    let css = ".bar { color: red; }";
    let index = ClassNamesCollector::parse(&vec![rule(0, 20, vec![compound(&["bar"])], vec![])]);
    assert_eq!(values(&index), vec![("bar".to_owned(), Span { lo: 0, hi: 20 })]);
    let class = index.find_class_name_by_value("bar").unwrap();
    assert_eq!(class.span, Span { lo: 0, hi: 20 });
    assert_eq!(rule_text(css.as_bytes(), class.span), Some(".bar { color: red; }".to_owned()));
}

#[test]
fn a_pseudo_suffix_replaces_the_class_name() {
    let index =
        ClassNamesCollector::parse(&vec![rule(0, 30, vec![compound(&["foo:hover"])], vec![])]);
    assert_eq!(values(&index), vec![("hover".to_owned(), Span { lo: 0, hi: 30 })]);
    assert!(index.find_class_name_by_value("foo").is_none());
    assert!(index.find_class_name_by_value("hover").is_some());
    assert_eq!(class_name_from_selector("foo:hover"), "hover");
    assert_eq!(class_name_from_selector("a:b:c"), "c");
    assert_eq!(class_name_from_selector("foo:"), "");
    assert_eq!(class_name_from_selector("foo"), "foo");
    assert_eq!(class_name_from_selector(""), "");
}

#[test]
fn entries_stand_in_document_order() {
    let nested = rule(40, 60, vec![compound(&["inner"])], vec![]);
    let sheet = vec![
        rule(0, 20, vec![compound(&["a", "b"]), compound(&["c"])], vec![]),
        other(vec![rule(30, 70, vec![compound(&["outer"])], vec![nested, compound(&["after"])])]),
        compound(&["stray"]),
    ];
    let index = ClassNamesCollector::parse(&sheet);
    assert_eq!(
        values(&index),
        vec![
            ("a".to_owned(), Span { lo: 0, hi: 20 }),
            ("b".to_owned(), Span { lo: 0, hi: 20 }),
            ("c".to_owned(), Span { lo: 0, hi: 20 }),
            ("outer".to_owned(), Span { lo: 30, hi: 70 }),
            ("inner".to_owned(), Span { lo: 40, hi: 60 }),
            ("after".to_owned(), Span { lo: 40, hi: 60 }),
            ("stray".to_owned(), Span { lo: 40, hi: 60 }),
        ]
    );
}

#[test]
fn a_selector_before_any_rule_gets_the_empty_span() {
    let index = ClassNamesCollector::parse(&vec![compound(&["early"])]);
    assert_eq!(values(&index), vec![("early".to_owned(), Span { lo: 0, hi: 0 })]);
}

#[test]
fn an_empty_index_finds_nothing() {
    let index = ClassNamesCollector::new();
    assert_eq!(index.len(), 0);
    assert!(index.find_class_name_by_value("a").is_none());
}

#[test]
fn the_first_entry_of_a_value_wins() {
    let index = ClassNamesCollector::parse(&vec![
        rule(0, 10, vec![compound(&["x"])], vec![]),
        rule(20, 30, vec![compound(&["y"])], vec![]),
        rule(40, 50, vec![compound(&["x"])], vec![]),
    ]);
    assert_eq!(index.find_class_name_by_value("x").unwrap().span, Span { lo: 0, hi: 10 });
    assert_eq!(index.find_class_name_by_value("y").unwrap().span, Span { lo: 20, hi: 30 });
    assert!(index.find_class_name_by_value("X").is_none());
}

#[test]
fn the_stylesheet_discovered_first_wins() {
    let first = ClassNamesCollector::parse(&vec![rule(5, 15, vec![compound(&["x"])], vec![])]);
    let second = ClassNamesCollector::parse(&vec![rule(7, 9, vec![compound(&["x", "z"])], vec![])]);
    let empty = ClassNamesCollector::new();
    let indexes = vec![empty, first, second];
    for _ in 0..3 {
        assert_eq!(
            resolve("x", &indexes),
            Some(Definition { stylesheet: 1, span: Span { lo: 5, hi: 15 } })
        );
    }
    assert_eq!(
        resolve("z", &indexes),
        Some(Definition { stylesheet: 2, span: Span { lo: 7, hi: 9 } })
    );
    assert_eq!(resolve("missing", &indexes), None);
    assert_eq!(resolve("x", &Vec::new()), None);
}

#[test]
fn rule_text_is_the_bytes_under_the_span() {
    let css = "a{}\n.bar { color: red; }\n";
    assert_eq!(
        rule_text(css.as_bytes(), Span { lo: 4, hi: 24 }),
        Some(".bar { color: red; }".to_owned())
    );
    assert_eq!(rule_text(css.as_bytes(), Span { lo: 4, hi: 4 }), Some(String::new()));
    assert_eq!(rule_text(css.as_bytes(), Span { lo: 4, hi: 26 }), None);
    assert_eq!(rule_text(css.as_bytes(), Span { lo: 5, hi: 4 }), None);
    let bytes = [b'a', 0xc3, 0xa9, b'b'];
    assert_eq!(rule_text(&bytes, Span { lo: 0, hi: 4 }), Some("a\u{e9}b".to_owned()));
    assert_eq!(rule_text(&bytes, Span { lo: 0, hi: 2 }), None);
    assert_eq!(rule_text(&bytes, Span { lo: 2, hi: 4 }), None);
}

#[test]
fn definition_range_counts_lines_of_the_stylesheet() {
    let css = "a{}\n.bar {\n  color: red;\n}\n";
    assert_eq!(
        definition_range(css, Span { lo: 4, hi: 26 }),
        Some(Range {
            start: Position { line: 1, character: 0 },
            end: Position { line: 3, character: 1 },
        })
    );
    assert_eq!(definition_range(css, Span { lo: 4, hi: 28 }), None);
}

#[test]
fn str_holds_its_text() {
    let s = Str::new("bar");
    assert_eq!(s.as_str(), "bar");
    assert!(s.eq_str("bar"));
    assert!(!s.eq_str("baz"));
    assert!(!s.eq_str("ba"));
}
