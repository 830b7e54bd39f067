//! The stylesheet class index: the class names that a stylesheet's rules
//! select, each with the span of the rule that holds it.

use vstd::prelude::*;
use vstd::string::StringSliceAdditionalSpecFns;
use vstd::utf8::{encode_utf8_valid_utf8, is_char_boundary_start_end_of_seq};
use crate::scope::{all_bytes, COLON};
use crate::text::{bytes_of, lemma_boundary_after_ascii, slice_str};
use crate::Str;

verus! {

broadcast use {
    vstd::std_specs::vec::axiom_vec_index_decreases,
    vstd::std_specs::vec::axiom_vec_decreases_to_view,
    vstd::seq::axiom_seq_index_decreases,
};

/// A range of bytes in a file, from `lo` up to `hi`.
#[derive(Clone, Copy, Debug, PartialEq, Eq, Structural)]
pub struct Span {
    pub lo: u32,
    pub hi: u32,
}

/// A node of a parsed stylesheet, reduced to what the index reads.
/// Children stand in document order.
pub enum CssNode {
    /// A qualified rule: its span, and its prelude and block.
    QualifiedRule { span: Span, children: Vec<CssNode> },
    /// A compound selector: the text of each of its class selectors, without
    /// the dot, in order.
    CompoundSelector { classes: Vec<String> },
    /// Any other node.
    Other { children: Vec<CssNode> },
}

/// One entry of the index.
pub struct ClassName {
    /// The class name.
    pub value: Str,
    /// The span of the rule that selects it.
    pub span: Span,
}

/// An entry as a value.
pub ghost struct Entry {
    pub value: Seq<u8>,
    pub span: Span,
}

impl View for ClassName {
    type V = Entry;

    open spec fn view(&self) -> Entry {
        Entry { value: self.value@, span: self.span }
    }
}

/// The index of one stylesheet, and the walk that fills it.
pub struct ClassNamesCollector {
    class_names: Vec<ClassName>,
    last_rule_span: Option<Span>,
}

/// A collector as a value: the entries so far, and the span of the rule
/// entered last.
pub ghost struct Index {
    pub entries: Seq<Entry>,
    pub last_rule_span: Option<Span>,
}

impl View for ClassNamesCollector {
    type V = Index;

    closed spec fn view(&self) -> Index {
        Index {
            entries: self.class_names@.map_values(|c: ClassName| c@),
            last_rule_span: self.last_rule_span,
        }
    }
}

/// The index of the last `wanted` before `upto`; -1 where there is none.
pub open spec fn last_index_before(bytes: Seq<u8>, wanted: u8, upto: int) -> int
    decreases upto,
{
    if upto <= 0 || upto > bytes.len() {
        -1
    } else if bytes[upto - 1] == wanted {
        upto - 1
    } else {
        last_index_before(bytes, wanted, upto - 1)
    }
}

/// The name under which a class selector is entered: its text, or, where
/// the text holds a colon, what follows the last one. So `foo:hover` is
/// entered as `hover`.
pub open spec fn class_name_of(selector: Seq<u8>) -> Seq<u8> {
    selector.subrange(
        last_index_before(selector, COLON, selector.len() as int) + 1,
        selector.len() as int,
    )
}

/// An entered name holds no colon.
pub proof fn lemma_class_name_has_no_colon(selector: Seq<u8>)
    ensures
        forall|k: int|
            0 <= k < class_name_of(selector).len() ==> #[trigger] class_name_of(selector)[k]
                != COLON,
        !selector.contains(COLON) ==> class_name_of(selector) == selector,
{
    lemma_last_index_before(selector, selector.len() as int);
    let cut = last_index_before(selector, COLON, selector.len() as int);
    assert forall|k: int| 0 <= k < class_name_of(selector).len() implies #[trigger] class_name_of(
        selector,
    )[k] != COLON by {
        assert(class_name_of(selector)[k] == selector[cut + 1 + k]);
    }
    if !selector.contains(COLON) {
        if cut >= 0 {
            assert(selector[cut] == COLON);
        }
        assert(class_name_of(selector) =~= selector);
    }
}

/// An entered name is the end of its selector's text, so it holds no byte
/// that the text does not hold: no whitespace and no dot, where the text
/// has none.
pub proof fn lemma_class_name_is_suffix(selector: Seq<u8>)
    ensures
        class_name_of(selector).len() <= selector.len(),
        forall|k: int|
            0 <= k < class_name_of(selector).len() ==> #[trigger] class_name_of(selector)[k]
                == selector[selector.len() - class_name_of(selector).len() + k],
{
    lemma_last_index_before(selector, selector.len() as int);
}

/// What [`last_index_before`] returns is the last such index.
pub proof fn lemma_last_index_before(bytes: Seq<u8>, upto: int)
    requires
        0 <= upto <= bytes.len(),
    ensures
        -1 <= last_index_before(bytes, COLON, upto) < upto,
        last_index_before(bytes, COLON, upto) >= 0 ==> bytes[last_index_before(
            bytes,
            COLON,
            upto,
        )] == COLON,
        forall|k: int| last_index_before(bytes, COLON, upto) < k < upto ==> bytes[k] != COLON,
    decreases upto,
{
    if upto > 0 && bytes[upto - 1] != COLON {
        lemma_last_index_before(bytes, upto - 1);
    }
}

/// The span that entries get: that of the rule entered last, and the empty
/// span at 0 before any rule.
pub open spec fn rule_span(last: Option<Span>) -> Span {
    match last {
        Some(span) => span,
        None => Span { lo: 0, hi: 0 },
    }
}

/// The entries that a compound selector adds.
pub open spec fn selector_entries(classes: Seq<Seq<u8>>, span: Span) -> Seq<Entry> {
    classes.map_values(|c: Seq<u8>| Entry { value: class_name_of(c), span })
}

/// The walk over one node and what lies under it. A qualified rule becomes
/// the rule entered last before its children are walked; a compound
/// selector adds one entry for each of its classes, in order.
pub open spec fn collect_node(node: CssNode, state: Index) -> Index
    decreases node, 0int,
{
    match node {
        CssNode::QualifiedRule { span, children } => collect_nodes(
            children@,
            0,
            Index { entries: state.entries, last_rule_span: Some(span) },
        ),
        CssNode::CompoundSelector { classes } => Index {
            entries: state.entries + selector_entries(
                all_bytes(classes@),
                rule_span(state.last_rule_span),
            ),
            last_rule_span: state.last_rule_span,
        },
        CssNode::Other { children } => collect_nodes(children@, 0, state),
    }
}

/// The walk over the nodes of a list from index `from` on, in order.
pub open spec fn collect_nodes(nodes: Seq<CssNode>, from: int, state: Index) -> Index
    decreases nodes, nodes.len() - from,
{
    if from < 0 || from >= nodes.len() {
        state
    } else {
        collect_nodes(nodes, from + 1, collect_node(nodes[from], state))
    }
}

/// The class selectors under a node, in document order: depth first, left
/// to right.
pub open spec fn selectors_of_node(node: CssNode) -> Seq<Seq<u8>>
    decreases node, 0int,
{
    match node {
        CssNode::QualifiedRule { span, children } => selectors_of_nodes(children@, 0),
        CssNode::CompoundSelector { classes } => all_bytes(classes@),
        CssNode::Other { children } => selectors_of_nodes(children@, 0),
    }
}

/// The class selectors under the nodes of a list from `from` on, in
/// document order.
pub open spec fn selectors_of_nodes(nodes: Seq<CssNode>, from: int) -> Seq<Seq<u8>>
    decreases nodes, nodes.len() - from,
{
    if from < 0 || from >= nodes.len() {
        seq![]
    } else {
        selectors_of_node(nodes[from]) + selectors_of_nodes(nodes, from + 1)
    }
}

/// The values of a list of entries.
pub open spec fn entry_values(entries: Seq<Entry>) -> Seq<Seq<u8>> {
    entries.map_values(|e: Entry| e.value)
}

/// The entered name of each selector of a list.
pub open spec fn class_names_of(selectors: Seq<Seq<u8>>) -> Seq<Seq<u8>> {
    selectors.map_values(|s: Seq<u8>| class_name_of(s))
}

/// The index keeps document order: a node adds, behind the entries that
/// were there, one entry for each class selector under it, in the order in
/// which the selectors stand in the document.
pub proof fn lemma_entries_in_document_order(node: CssNode, state: Index)
    ensures
        entry_values(collect_node(node, state).entries) == entry_values(state.entries)
            + class_names_of(selectors_of_node(node)),
    decreases node, 0int,
{
    match node {
        CssNode::QualifiedRule { span, children } => {
            lemma_list_in_document_order(
                children@,
                0,
                Index { entries: state.entries, last_rule_span: Some(span) },
            );
        },
        CssNode::CompoundSelector { classes } => {
            let added = selector_entries(all_bytes(classes@), rule_span(state.last_rule_span));
            assert(entry_values(state.entries + added) =~= entry_values(state.entries)
                + class_names_of(all_bytes(classes@)));
        },
        CssNode::Other { children } => {
            lemma_list_in_document_order(children@, 0, state);
        },
    }
}

/// The same of a list of nodes: a whole stylesheet's entries stand in the
/// document order of its class selectors.
pub proof fn lemma_list_in_document_order(nodes: Seq<CssNode>, from: int, state: Index)
    ensures
        entry_values(collect_nodes(nodes, from, state).entries) == entry_values(state.entries)
            + class_names_of(selectors_of_nodes(nodes, from)),
    decreases nodes, nodes.len() - from,
{
    if 0 <= from < nodes.len() {
        let next = collect_node(nodes[from], state);
        lemma_entries_in_document_order(nodes[from], state);
        lemma_list_in_document_order(nodes, from + 1, next);
        let here = selectors_of_node(nodes[from]);
        let rest = selectors_of_nodes(nodes, from + 1);
        assert(class_names_of(here + rest) =~= class_names_of(here) + class_names_of(rest));
        assert(entry_values(state.entries) + class_names_of(here) + class_names_of(rest)
            =~= entry_values(state.entries) + (class_names_of(here) + class_names_of(rest)));
    } else {
        assert(entry_values(state.entries) + class_names_of(Seq::<Seq<u8>>::empty())
            =~= entry_values(state.entries));
    }
}

/// The first entry at or behind `from` whose value is `value`, by its
/// index; the number of entries where there is none.
pub open spec fn first_entry_from(entries: Seq<Entry>, value: Seq<u8>, from: int) -> int
    decreases entries.len() - from,
{
    if from >= entries.len() {
        entries.len() as int
    } else if from >= 0 && entries[from].value == value {
        from
    } else {
        first_entry_from(entries, value, from + 1)
    }
}

/// What [`first_entry_from`] returns is the first such entry.
pub proof fn lemma_first_entry_from(entries: Seq<Entry>, value: Seq<u8>, from: int)
    requires
        0 <= from <= entries.len(),
    ensures
        from <= first_entry_from(entries, value, from) <= entries.len(),
        first_entry_from(entries, value, from) < entries.len() ==> entries[first_entry_from(
            entries,
            value,
            from,
        )].value == value,
        forall|k: int|
            from <= k < first_entry_from(entries, value, from) ==> (#[trigger] entries[k]).value
                != value,
    decreases entries.len() - from,
{
    if from < entries.len() && entries[from].value != value {
        lemma_first_entry_from(entries, value, from + 1);
    }
}

/// The name under which a class selector is entered.
pub fn class_name_from_selector(selector: &str) -> (r: &str)
    ensures
        r.spec_bytes() == class_name_of(selector.spec_bytes()),
{
    let bytes = selector.as_bytes();
    let mut upto: usize = bytes.len();
    while upto > 0 && bytes[upto - 1] != COLON
        invariant
            upto <= bytes.len(),
            last_index_before(bytes@, COLON, upto as int) == last_index_before(
                bytes@,
                COLON,
                bytes.len() as int,
            ),
        decreases upto,
    {
        upto -= 1;
    }
    proof {
        encode_utf8_valid_utf8(selector@);
        is_char_boundary_start_end_of_seq(bytes@);
        if upto > 0 {
            lemma_boundary_after_ascii(bytes@, upto - 1);
        }
    }
    slice_str(selector, upto, bytes.len())
}

impl ClassNamesCollector {
    /// An empty index, before any rule.
    pub fn new() -> (r: ClassNamesCollector)
        ensures
            r@ == (Index { entries: Seq::<Entry>::empty(), last_rule_span: None }),
    {
        let r = ClassNamesCollector { last_rule_span: None, class_names: Vec::new() };
        assert(r@.entries =~= Seq::<Entry>::empty());
        r
    }

    /// How many entries the index holds.
    pub fn len(&self) -> (r: usize)
        ensures
            r == self@.entries.len(),
    {
        self.class_names.len()
    }

    /// The entry at `i`.
    pub fn get(&self, i: usize) -> (r: &ClassName)
        requires
            i < self@.entries.len(),
        ensures
            r@ == self@.entries[i as int],
    {
        &self.class_names[i]
    }

    /// The first entry whose value is `value`, byte for byte.
    pub fn find_class_name_by_value(&self, value: &str) -> (r: Option<&ClassName>)
        ensures
            r is Some <==> first_entry_from(self@.entries, value.spec_bytes(), 0)
                < self@.entries.len(),
            r is Some ==> r.unwrap()@ == self@.entries[first_entry_from(
                self@.entries,
                value.spec_bytes(),
                0,
            )],
    {
        let mut i: usize = 0;
        while i < self.class_names.len()
            invariant
                i <= self.class_names.len(),
                first_entry_from(self@.entries, value.spec_bytes(), 0) == first_entry_from(
                    self@.entries,
                    value.spec_bytes(),
                    i as int,
                ),
            decreases self.class_names.len() - i,
        {
            if self.class_names[i].value.eq_str(value) {
                return Some(&self.class_names[i]);
            }
            i += 1;
        }
        None
    }

    /// Enters the classes of one compound selector, in order, under the span
    /// of the rule entered last.
    pub fn visit_compound_selector(&mut self, classes: &Vec<String>)
        ensures
            final(self)@ == (Index {
                entries: old(self)@.entries + selector_entries(
                    all_bytes(classes@),
                    rule_span(old(self)@.last_rule_span),
                ),
                last_rule_span: old(self)@.last_rule_span,
            }),
    {
        let span = match self.last_rule_span {
            Some(s) => s,
            None => Span { lo: 0, hi: 0 },
        };
        let ghost before = self@;
        let mut i: usize = 0;
        while i < classes.len()
            invariant
                i <= classes.len(),
                span == rule_span(before.last_rule_span),
                self@.last_rule_span == before.last_rule_span,
                self@.entries == before.entries + selector_entries(
                    all_bytes(classes@),
                    span,
                ).subrange(0, i as int),
            decreases classes.len() - i,
        {
            let name = class_name_from_selector(classes[i].as_str());
            let entry = ClassName { value: Str::new(name), span };
            let ghost added = entry@;
            let ghost so_far = self@.entries;
            self.class_names.push(entry);
            proof {
                assert(all_bytes(classes@)[i as int] == bytes_of(classes@[i as int]));
                assert(added == selector_entries(all_bytes(classes@), span)[i as int]);
                assert(self@.entries =~= so_far.push(added));
                assert(self@.entries =~= before.entries + selector_entries(
                    all_bytes(classes@),
                    span,
                ).subrange(0, i + 1));
            }
            i += 1;
        }
        proof {
            assert(self@.entries =~= before.entries + selector_entries(all_bytes(classes@), span));
        }
    }

    /// Walks one node and what lies under it.
    pub fn visit(&mut self, node: &CssNode)
        ensures
            final(self)@ == collect_node(*node, old(self)@),
        decreases *node, 0int,
    {
        match node {
            CssNode::QualifiedRule { span, children } => {
                proof {
                    assert(node is QualifiedRule);
                    assert(*children == node->QualifiedRule_children);
                    assert(decreases_to!(*node => node->QualifiedRule_children));
                }
                self.last_rule_span = Some(*span);
                self.visit_all(children);
            },
            CssNode::CompoundSelector { classes } => {
                self.visit_compound_selector(classes);
            },
            CssNode::Other { children } => {
                proof {
                    assert(node is Other);
                    assert(*children == node->Other_children);
                    assert(decreases_to!(*node => node->Other_children));
                }
                self.visit_all(children);
            },
        }
    }

    /// Walks the nodes of a list in order.
    pub fn visit_all(&mut self, nodes: &Vec<CssNode>)
        ensures
            final(self)@ == collect_nodes(nodes@, 0, old(self)@),
        decreases *nodes, 1int,
    {
        let ghost before = self@;
        let mut i: usize = 0;
        while i < nodes.len()
            invariant
                i <= nodes.len(),
                collect_nodes(nodes@, 0, before) == collect_nodes(nodes@, i as int, self@),
            decreases nodes.len() - i,
        {
            proof {
                assert(decreases_to!(*nodes => nodes[i as int]));
            }
            self.visit(&nodes[i]);
            i += 1;
        }
    }

    /// The index of a parsed stylesheet: the walk over its rules, begun
    /// with nothing. Its entries stand in the document order of the class
    /// selectors.
    pub fn parse(rules: &Vec<CssNode>) -> (r: ClassNamesCollector)
        ensures
            r@ == collect_nodes(
                rules@,
                0,
                Index { entries: Seq::<Entry>::empty(), last_rule_span: None },
            ),
            entry_values(r@.entries) == class_names_of(selectors_of_nodes(rules@, 0)),
    {
        let mut collector = ClassNamesCollector::new();
        proof {
            let start = Index { entries: Seq::<Entry>::empty(), last_rule_span: None };
            lemma_list_in_document_order(rules@, 0, start);
            assert(entry_values(start.entries) + class_names_of(selectors_of_nodes(rules@, 0))
                =~= class_names_of(selectors_of_nodes(rules@, 0)));
        }
        collector.visit_all(rules);
        collector
    }
}

} // verus!
