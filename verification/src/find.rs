//! The scoped-string finder: a walk over a parsed source file that looks at
//! string literals only inside the scopes that the descriptors open.

use vstd::prelude::*;
use vstd::string::StringSliceAdditionalSpecFns;
use crate::locate::{locate, offset_of, Position};
use crate::scope::{
    any_scope_matches, scope_models, starts_a_valid_scope, Scope, ScopeModel, ScopeVariant,
};
use crate::text::{bytes_of, is_space};
use crate::token::{
    class_name_span, find_class_name_in_str, lemma_token_has_no_space, run_bytes,
};

verus! {

broadcast use {
    vstd::std_specs::vec::axiom_vec_index_decreases,
    vstd::std_specs::vec::axiom_vec_decreases_to_view,
    vstd::seq::axiom_seq_index_decreases,
};

/// A node of a parsed source file, reduced to what the finder reads.
/// Children stand in document order.
pub enum Node {
    /// A string literal: its content and the span of its quoted source text.
    Str { value: String, lo: u32, hi: u32 },
    /// A node that may open a scope: an attribute, a call or an object
    /// entry. `name` is the attribute's name, the callee or the key where
    /// that is a plain identifier. `scoped` holds the children that the
    /// scope covers (the attribute's value, the call's arguments, the
    /// entry's value), `head` the children before them and `tail` those
    /// behind them.
    Entry {
        variant: ScopeVariant,
        name: Option<String>,
        head: Vec<Node>,
        scoped: Vec<Node>,
        tail: Vec<Node>,
    },
    /// Any other node.
    Other { children: Vec<Node> },
}

/// The state of a walk: the class name found so far, and whether string
/// literals count at this point.
pub ghost struct Walk {
    pub found: Option<Seq<u8>>,
    pub in_scope: bool,
}

/// The class name that a literal yields for a cursor.
pub open spec fn literal_class_name(value: Seq<u8>, lo: int, hi: int, cursor: int) -> Option<
    Seq<u8>,
> {
    match class_name_span(value, lo, hi, cursor) {
        Some(run) => Some(run_bytes(value, run)),
        None => None,
    }
}

/// The walk over one node and what lies under it.
///
/// Once a class name is found nothing changes any more. A literal is looked
/// at only in scope. A node whose name one of the descriptors admits has
/// its scoped children walked in scope first; the flag is cleared behind
/// them, and then all its children are walked in order, as those of a node
/// that opens no scope are.
pub open spec fn walk_node(node: Node, scopes: Seq<ScopeModel>, cursor: int, state: Walk) -> Walk
    decreases node, 0int,
{
    if state.found is Some {
        state
    } else {
        match node {
            Node::Str { value, lo, hi } => if state.in_scope {
                Walk {
                    found: literal_class_name(bytes_of(value), lo as int, hi as int, cursor),
                    in_scope: true,
                }
            } else {
                state
            },
            Node::Entry { variant, name, head, scoped, tail } => {
                let entered = if opens_scope(name, variant, scopes) {
                    Walk {
                        found: walk_nodes(
                            scoped@,
                            0,
                            scopes,
                            cursor,
                            Walk { found: None, in_scope: true },
                        ).found,
                        in_scope: false,
                    }
                } else {
                    state
                };
                let after_head = walk_nodes(head@, 0, scopes, cursor, entered);
                let after_scoped = walk_nodes(scoped@, 0, scopes, cursor, after_head);
                walk_nodes(tail@, 0, scopes, cursor, after_scoped)
            },
            Node::Other { children } => walk_nodes(children@, 0, scopes, cursor, state),
        }
    }
}

/// The walk over the nodes of a list from index `from` on, in order.
pub open spec fn walk_nodes(
    nodes: Seq<Node>,
    from: int,
    scopes: Seq<ScopeModel>,
    cursor: int,
    state: Walk,
) -> Walk
    decreases nodes, nodes.len() - from,
{
    if from < 0 || from >= nodes.len() {
        state
    } else {
        walk_nodes(nodes, from + 1, scopes, cursor, walk_node(nodes[from], scopes, cursor, state))
    }
}

/// Whether a node with this name opens a scope.
pub open spec fn opens_scope(
    name: Option<String>,
    variant: ScopeVariant,
    scopes: Seq<ScopeModel>,
) -> bool {
    name is Some && any_scope_matches(scopes, bytes_of(name.unwrap()), variant)
}

/// The bytes of a class name that was found.
pub open spec fn found_bytes(found: Option<String>) -> Option<Seq<u8>> {
    match found {
        Some(s) => Some(bytes_of(s)),
        None => None,
    }
}

/// The first hit wins: behind it the walk changes nothing.
pub proof fn lemma_walk_stops(
    nodes: Seq<Node>,
    from: int,
    scopes: Seq<ScopeModel>,
    cursor: int,
    state: Walk,
)
    requires
        state.found is Some,
    ensures
        walk_nodes(nodes, from, scopes, cursor, state) == state,
    decreases nodes.len() - from,
{
    if 0 <= from < nodes.len() {
        assert(walk_node(nodes[from], scopes, cursor, state) == state);
        lemma_walk_stops(nodes, from + 1, scopes, cursor, state);
    }
}

/// With no descriptor nothing is found, whatever the literals hold: a
/// literal counts only inside a scope, and nothing opens one.
pub proof fn lemma_no_scopes_nothing_found(nodes: Seq<Node>, from: int, cursor: int)
    ensures
        walk_nodes(
            nodes,
            from,
            Seq::<ScopeModel>::empty(),
            cursor,
            Walk { found: None, in_scope: false },
        ) == (Walk { found: None, in_scope: false }),
    decreases nodes, nodes.len() - from,
{
    if 0 <= from < nodes.len() {
        lemma_node_no_scopes(nodes[from], cursor);
        lemma_no_scopes_nothing_found(nodes, from + 1, cursor);
    }
}

proof fn lemma_node_no_scopes(node: Node, cursor: int)
    ensures
        walk_node(node, Seq::<ScopeModel>::empty(), cursor, Walk { found: None, in_scope: false })
            == (Walk { found: None, in_scope: false }),
    decreases node, 0int,
{
    match node {
        Node::Str { value, lo, hi } => {},
        Node::Entry { variant, name, head, scoped, tail } => {
            lemma_no_scopes_nothing_found(head@, 0, cursor);
            lemma_no_scopes_nothing_found(scoped@, 0, cursor);
            lemma_no_scopes_nothing_found(tail@, 0, cursor);
        },
        Node::Other { children } => {
            lemma_no_scopes_nothing_found(children@, 0, cursor);
        },
    }
}

/// Whether a class name, if there is one, holds no whitespace.
pub open spec fn has_no_space(found: Option<Seq<u8>>) -> bool {
    found is Some ==> forall|k: int|
        0 <= k < found.unwrap().len() ==> !is_space(#[trigger] found.unwrap()[k])
}

/// What a walk finds holds no whitespace.
pub proof fn lemma_found_has_no_space(
    nodes: Seq<Node>,
    from: int,
    scopes: Seq<ScopeModel>,
    cursor: int,
    state: Walk,
)
    requires
        has_no_space(state.found),
    ensures
        has_no_space(walk_nodes(nodes, from, scopes, cursor, state).found),
    decreases nodes, nodes.len() - from,
{
    if 0 <= from < nodes.len() {
        lemma_node_found_has_no_space(nodes[from], scopes, cursor, state);
        lemma_found_has_no_space(
            nodes,
            from + 1,
            scopes,
            cursor,
            walk_node(nodes[from], scopes, cursor, state),
        );
    }
}

proof fn lemma_node_found_has_no_space(
    node: Node,
    scopes: Seq<ScopeModel>,
    cursor: int,
    state: Walk,
)
    requires
        has_no_space(state.found),
    ensures
        has_no_space(walk_node(node, scopes, cursor, state).found),
    decreases node, 0int,
{
    if state.found is None {
        match node {
            Node::Str { value, lo, hi } => {
                if state.in_scope && class_name_span(
                    bytes_of(value),
                    lo as int,
                    hi as int,
                    cursor,
                ) is Some {
                    lemma_token_has_no_space(bytes_of(value), cursor - (lo + 1));
                }
            },
            Node::Entry { variant, name, head, scoped, tail } => {
                let fresh = Walk { found: None, in_scope: true };
                lemma_found_has_no_space(scoped@, 0, scopes, cursor, fresh);
                let entered = if opens_scope(name, variant, scopes) {
                    Walk {
                        found: walk_nodes(scoped@, 0, scopes, cursor, fresh).found,
                        in_scope: false,
                    }
                } else {
                    state
                };
                lemma_found_has_no_space(head@, 0, scopes, cursor, entered);
                let after_head = walk_nodes(head@, 0, scopes, cursor, entered);
                lemma_found_has_no_space(scoped@, 0, scopes, cursor, after_head);
                let after_scoped = walk_nodes(scoped@, 0, scopes, cursor, after_head);
                lemma_found_has_no_space(tail@, 0, scopes, cursor, after_scoped);
            },
            Node::Other { children } => {
                lemma_found_has_no_space(children@, 0, scopes, cursor, state);
            },
        }
    }
}

/// What a walk returns: the class name, if one was found, and the flag.
pub struct Walked {
    pub found: Option<String>,
    pub in_scope: bool,
}

impl View for Walked {
    type V = Walk;

    open spec fn view(&self) -> Walk {
        Walk { found: found_bytes(self.found), in_scope: self.in_scope }
    }
}

/// Walks one node and what lies under it, with nothing found so far.
pub fn visit_node(node: &Node, scopes: &Vec<Scope>, cursor: u32, in_scope: bool) -> (r: Walked)
    ensures
        r@ == walk_node(
            *node,
            scope_models(scopes@),
            cursor as int,
            Walk { found: None, in_scope },
        ),
    decreases *node, 0int,
{
    match node {
        Node::Str { value, lo, hi } => {
            if in_scope {
                Walked { found: find_class_name_in_str(value.as_str(), *lo, *hi, cursor), in_scope }
            } else {
                Walked { found: None, in_scope }
            }
        },
        Node::Entry { variant, name, head, scoped, tail } => {
            proof {
                assert(node is Entry);
                assert(*head == node->head && *scoped == node->scoped && *tail == node->tail);
                assert(decreases_to!(*node => node->head));
                assert(decreases_to!(*node => node->scoped));
                assert(decreases_to!(*node => node->tail));
            }
            let opens = match name {
                Some(n) => starts_a_valid_scope(scopes, n.as_str(), *variant),
                None => false,
            };
            let mut flag = in_scope;
            if opens {
                let inner = visit_nodes(scoped, scopes, cursor, true);
                if inner.found.is_some() {
                    proof {
                        let entered = Walk { found: inner@.found, in_scope: false };
                        lemma_walk_stops(head@, 0, scope_models(scopes@), cursor as int, entered);
                        lemma_walk_stops(scoped@, 0, scope_models(scopes@), cursor as int, entered);
                        lemma_walk_stops(tail@, 0, scope_models(scopes@), cursor as int, entered);
                    }
                    return Walked { found: inner.found, in_scope: false };
                }
                flag = false;
            }
            let first = visit_nodes(head, scopes, cursor, flag);
            if first.found.is_some() {
                proof {
                    lemma_walk_stops(scoped@, 0, scope_models(scopes@), cursor as int, first@);
                    lemma_walk_stops(tail@, 0, scope_models(scopes@), cursor as int, first@);
                }
                return first;
            }
            let second = visit_nodes(scoped, scopes, cursor, first.in_scope);
            if second.found.is_some() {
                proof {
                    lemma_walk_stops(tail@, 0, scope_models(scopes@), cursor as int, second@);
                }
                return second;
            }
            visit_nodes(tail, scopes, cursor, second.in_scope)
        },
        Node::Other { children } => {
            proof {
                assert(node is Other);
                assert(*children == node->children);
                assert(decreases_to!(*node => node->children));
            }
            visit_nodes(children, scopes, cursor, in_scope)
        },
    }
}

/// Walks the nodes of a list in order, with nothing found so far, and stops
/// at the first class name.
pub fn visit_nodes(nodes: &Vec<Node>, scopes: &Vec<Scope>, cursor: u32, in_scope: bool) -> (r:
    Walked)
    ensures
        r@ == walk_nodes(
            nodes@,
            0,
            scope_models(scopes@),
            cursor as int,
            Walk { found: None, in_scope },
        ),
    decreases *nodes, 1int,
{
    let mut flag = in_scope;
    let mut i: usize = 0;
    while i < nodes.len()
        invariant
            i <= nodes.len(),
            walk_nodes(
                nodes@,
                0,
                scope_models(scopes@),
                cursor as int,
                Walk { found: None, in_scope },
            ) == walk_nodes(
                nodes@,
                i as int,
                scope_models(scopes@),
                cursor as int,
                Walk { found: None, in_scope: flag },
            ),
        decreases nodes.len() - i,
    {
        proof {
            assert(decreases_to!(*nodes => nodes[i as int]));
        }
        let step = visit_node(&nodes[i], scopes, cursor, flag);
        if step.found.is_some() {
            proof {
                lemma_walk_stops(nodes@, i + 1, scope_models(scopes@), cursor as int, step@);
            }
            return step;
        }
        flag = step.in_scope;
        i += 1;
    }
    Walked { found: None, in_scope: flag }
}

/// The class name that a parsed source file yields for a cursor: what the
/// walk over its top-level nodes finds, begun outside every scope.
pub open spec fn class_name_on_cursor(
    module: Seq<Node>,
    scopes: Seq<ScopeModel>,
    cursor: int,
) -> Option<Seq<u8>> {
    walk_nodes(module, 0, scopes, cursor, Walk { found: None, in_scope: false }).found
}

/// A query on one source file: where the cursor is, as a byte offset.
#[derive(Clone, Copy, Debug)]
pub struct SrcCodeMeta {
    cursor_byte_position: u32,
}

impl SrcCodeMeta {
    /// The query for a cursor at `position` in `code`. None where the code
    /// has no such line, or the offset does not fit 32 bits.
    pub fn build(code: &str, position: Position) -> (r: Option<SrcCodeMeta>)
        ensures
            match offset_of(
                code.spec_bytes(),
                position.line as nat,
                position.character as nat,
            ) {
                Some(offset) => r is Some && r.unwrap().cursor() == offset,
                None => r is None,
            },
    {
        match locate(code, position.line, position.character) {
            Some(offset) => Some(SrcCodeMeta { cursor_byte_position: offset }),
            None => None,
        }
    }

    /// The cursor's byte offset.
    pub closed spec fn cursor(&self) -> int {
        self.cursor_byte_position as int
    }

    /// The cursor's byte offset.
    pub fn cursor_byte_position(&self) -> (r: u32)
        ensures
            r == self.cursor(),
    {
        self.cursor_byte_position
    }

    /// The class name under the cursor in the parsed file `module`, where
    /// the cursor stands on one inside a scope that `scopes` opens. The
    /// first hit in document order wins.
    pub fn get_classname_on_cursor(&self, module: &Vec<Node>, scopes: &Vec<Scope>) -> (r: Option<
        String,
    >)
        ensures
            found_bytes(r) == class_name_on_cursor(module@, scope_models(scopes@), self.cursor()),
            has_no_space(found_bytes(r)),
    {
        proof {
            lemma_found_has_no_space(
                module@,
                0,
                scope_models(scopes@),
                self.cursor(),
                Walk { found: None, in_scope: false },
            );
        }
        visit_nodes(module, scopes, self.cursor_byte_position, false).found
    }
}

} // verus!
