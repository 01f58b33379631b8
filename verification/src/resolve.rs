use vstd::prelude::*;
use crate::chars::{spec_trim, trim_vec, eq_chars_lit};
use crate::clean::{spec_clean, extract_clean_type};
use crate::db::{SymbolDb, CompletionItem, ItemView, items_view, spec_fetch, fetch_members_recursive,
    spec_resolve_typedef, resolve_typedef, spec_find_member_return_type, find_member_return_type,
    spec_is_known_type, is_known_type, item_wf, lemma_fetch_wf};
use crate::tree::{NodeKind, FieldLabel, NodeData, SyntaxTree, tree_wf, node_ok,
    spec_child_by_field, child_by_field, spec_enclosing_class, enclosing_class_name,
    spec_prev_meaningful, prev_meaningful_sibling, spec_node_at_point, node_at_point};
use crate::infer::{spec_infer_variable, infer_variable_type};

verus! {

// ---------------------------------------------------------------------------
// Expression typing: the static type of the expression a syntax node stands
// for, drawn from local declarations, the enclosing class's members, and the
// symbol store.
// ---------------------------------------------------------------------------
pub open spec fn is_identifier_like(k: NodeKind) -> bool {
    k == NodeKind::Identifier || k == NodeKind::TypeIdentifier || k == NodeKind::FieldIdentifier
        || k == NodeKind::NamespaceIdentifier || k == NodeKind::ScopedTypeIdentifier
}

pub open spec fn spec_resolve_expr(
    db: SymbolDb,
    nodes: Seq<NodeData>,
    i: int,
    cursor_row: int,
) -> Option<Seq<char>>
    decreases nodes.len() - i, 1int
        when 0 <= i < nodes.len() && tree_wf(nodes)
        via spec_resolve_expr_dec
{
    let k = nodes[i].kind;
    if k == NodeKind::This {
        spec_enclosing_class(nodes, i)
    } else if is_identifier_like(k) {
        let name = spec_trim(nodes[i].text@);
        if name.len() == 0 {
            None
        } else if name == "this"@ {
            spec_enclosing_class(nodes, i)
        } else if spec_infer_variable(nodes, name, cursor_row) is Some {
            spec_infer_variable(nodes, name, cursor_row)
        } else {
            let from_class = match spec_enclosing_class(nodes, i) {
                Some(cls) => spec_find_member_return_type(db, cls, name),
                None => None,
            };
            if from_class is Some {
                from_class
            } else if spec_is_known_type(db, name) {
                Some(name)
            } else {
                None
            }
        }
    } else if k == NodeKind::QualifiedIdentifier {
        if spec_is_known_type(db, nodes[i].text@) {
            Some(nodes[i].text@)
        } else {
            None
        }
    } else if k == NodeKind::CallExpression {
        match spec_child_by_field(nodes, i, FieldLabel::FFunction) {
            Some(f) => if nodes[f].kind == NodeKind::FieldExpression {
                spec_member_access_type(db, nodes, f, cursor_row)
            } else {
                let fname = spec_trim(nodes[f].text@);
                match spec_enclosing_class(nodes, i) {
                    Some(cls) => spec_find_member_return_type(db, cls, fname),
                    None => None,
                }
            },
            None => None,
        }
    } else if k == NodeKind::FieldExpression {
        spec_member_access_type(db, nodes, i, cursor_row)
    } else {
        None
    }
}

/// The type of `obj.field`: resolve the object, then look the field up.
pub open spec fn spec_member_access_type(
    db: SymbolDb,
    nodes: Seq<NodeData>,
    f: int,
    cursor_row: int,
) -> Option<Seq<char>>
    decreases nodes.len() - f, 0int
        when 0 <= f < nodes.len() && tree_wf(nodes)
        via spec_member_access_type_dec
{
    match spec_child_by_field(nodes, f, FieldLabel::FArgument) {
        Some(obj) => match spec_resolve_expr(db, nodes, obj, cursor_row) {
            Some(ot) => match spec_child_by_field(nodes, f, FieldLabel::FField) {
                Some(fld) => spec_find_member_return_type(db, ot, spec_trim(nodes[fld].text@)),
                None => None,
            },
            None => None,
        },
        None => None,
    }
}

#[via_fn]
proof fn spec_resolve_expr_dec(db: SymbolDb, nodes: Seq<NodeData>, i: int, cursor_row: int) {
    crate::tree::lemma_child_by_field_bounds(nodes, i, FieldLabel::FFunction, 0);
}

#[via_fn]
proof fn spec_member_access_type_dec(db: SymbolDb, nodes: Seq<NodeData>, f: int, cursor_row: int) {
    crate::tree::lemma_child_by_field_bounds(nodes, f, FieldLabel::FArgument, 0);
}

/// Resolves the static type of the expression node `i`.
pub fn resolve_expression_type(db: &SymbolDb, tree: &SyntaxTree, i: usize, cursor_row: usize) -> (r:
    Option<Vec<char>>)
    requires
        tree.wf(),
        i < tree.nodes@.len(),
    ensures
        match r {
            Some(t) => spec_resolve_expr(*db, tree.nodes@, i as int, cursor_row as int) == Some(
                t@,
            ),
            None => spec_resolve_expr(*db, tree.nodes@, i as int, cursor_row as int) is None,
        },
    decreases tree.nodes@.len() - i, 1int,
{
    let nodes = &tree.nodes;
    let k = nodes[i].kind;
    if k == NodeKind::This {
        return enclosing_class_name(tree, i);
    }
    if k == NodeKind::Identifier || k == NodeKind::TypeIdentifier || k == NodeKind::FieldIdentifier
        || k == NodeKind::NamespaceIdentifier || k == NodeKind::ScopedTypeIdentifier {
        let name = trim_vec(&nodes[i].text);
        if name.len() == 0 {
            return None;
        }
        if eq_chars_lit(&name, "this") {
            return enclosing_class_name(tree, i);
        }
        match infer_variable_type(tree, &name, cursor_row) {
            Some(t) => {
                return Some(t);
            },
            None => {},
        }
        match enclosing_class_name(tree, i) {
            Some(cls) => {
                match find_member_return_type(db, &cls, &name) {
                    Some(rt) => {
                        return Some(rt);
                    },
                    None => {},
                }
            },
            None => {},
        }
        if is_known_type(db, &name) {
            return Some(name);
        }
        return None;
    }
    if k == NodeKind::QualifiedIdentifier {
        if is_known_type(db, &nodes[i].text) {
            return Some(crate::chars::clone_chars(&nodes[i].text));
        }
        return None;
    }
    if k == NodeKind::CallExpression {
        match child_by_field(tree, i, FieldLabel::FFunction) {
            Some(f) => {
                if nodes[f].kind == NodeKind::FieldExpression {
                    return member_access_type(db, tree, f, cursor_row);
                }
                let fname = trim_vec(&nodes[f].text);
                match enclosing_class_name(tree, i) {
                    Some(cls) => {
                        return find_member_return_type(db, &cls, &fname);
                    },
                    None => {
                        return None;
                    },
                }
            },
            None => {
                return None;
            },
        }
    }
    if k == NodeKind::FieldExpression {
        return member_access_type(db, tree, i, cursor_row);
    }
    None
}

fn member_access_type(db: &SymbolDb, tree: &SyntaxTree, f: usize, cursor_row: usize) -> (r: Option<
    Vec<char>,
>)
    requires
        tree.wf(),
        f < tree.nodes@.len(),
    ensures
        match r {
            Some(t) => spec_member_access_type(*db, tree.nodes@, f as int, cursor_row as int)
                == Some(t@),
            None => spec_member_access_type(*db, tree.nodes@, f as int, cursor_row as int) is None,
        },
    decreases tree.nodes@.len() - f, 0int,
{
    let nodes = &tree.nodes;
    match child_by_field(tree, f, FieldLabel::FArgument) {
        Some(obj) => {
            match resolve_expression_type(db, tree, obj, cursor_row) {
                Some(ot) => {
                    match child_by_field(tree, f, FieldLabel::FField) {
                        Some(fld) => {
                            let fname = trim_vec(&nodes[fld].text);
                            find_member_return_type(db, &ot, &fname)
                        },
                        None => None,
                    }
                },
                None => None,
            }
        },
        None => None,
    }
}

// ---------------------------------------------------------------------------
// From a resolved expression to completion items.
// ---------------------------------------------------------------------------
/// Items for the expression node `i`: its type, typedef-resolved, walked for
/// members; an untypable expression yields nothing.
pub open spec fn spec_resolve_and_fetch(
    db: SymbolDb,
    nodes: Seq<NodeData>,
    i: int,
    cursor_row: int,
) -> Seq<ItemView> {
    match spec_resolve_expr(db, nodes, i, cursor_row) {
        Some(t) => spec_fetch(db, seq![spec_resolve_typedef(db, t)], Set::empty()),
        None => Seq::empty(),
    }
}

pub fn resolve_node_and_fetch_members(
    db: &SymbolDb,
    tree: &SyntaxTree,
    i: usize,
    cursor_row: usize,
) -> (r: Vec<CompletionItem>)
    requires
        tree.wf(),
        i < tree.nodes@.len(),
    ensures
        items_view(r@) == spec_resolve_and_fetch(*db, tree.nodes@, i as int, cursor_row as int),
{
    match resolve_expression_type(db, tree, i, cursor_row) {
        Some(t) => {
            let resolved = resolve_typedef(db, &t);
            fetch_members_recursive(db, &resolved)
        },
        None => {
            let r: Vec<CompletionItem> = Vec::new();
            proof {
                assert(items_view(r@) =~= Seq::<ItemView>::empty());
            }
            r
        },
    }
}

/// Items for a static scope (`EMyEnum::`): clean the scope's text, resolve
/// typedefs, walk for members.
pub open spec fn spec_static_members(db: SymbolDb, scope: Seq<char>) -> Seq<ItemView> {
    spec_fetch(db, seq![spec_resolve_typedef(db, spec_clean(scope))], Set::empty())
}

pub fn resolve_static_members(db: &SymbolDb, scope: &Vec<char>) -> (r: Vec<CompletionItem>)
    ensures
        items_view(r@) == spec_static_members(*db, scope@),
{
    let clean_scope = extract_clean_type(scope);
    let t = resolve_typedef(db, &clean_scope);
    fetch_members_recursive(db, &t)
}

// ---------------------------------------------------------------------------
// The context classifier's ancestor walk.
// ---------------------------------------------------------------------------
/// Scanning an error-recovery node's children backwards: the nearest access
/// operator with a meaningful left-hand sibling names the target expression.
pub open spec fn spec_error_scan(nodes: Seq<NodeData>, i: int, j: int) -> Option<int>
    decreases j,
{
    if j <= 0 || i < 0 || i >= nodes.len() {
        None
    } else if j > nodes[i].children@.len() {
        None
    } else {
        let c = nodes[i].children@[j - 1] as int;
        if (nodes[c].kind == NodeKind::Dot || nodes[c].kind == NodeKind::Arrow || nodes[c].kind
            == NodeKind::ColonColon) && spec_prev_meaningful(nodes, c) is Some {
            spec_prev_meaningful(nodes, c)
        } else {
            spec_error_scan(nodes, i, j - 1)
        }
    }
}

/// One step of the ancestor walk at node `i`: `Some(items)` when a context
/// rule fires or the walk stops on a malformed node, `None` when nothing up
/// the chain decides and the implicit-this fallback is next.
pub open spec fn spec_walk_up(db: SymbolDb, nodes: Seq<NodeData>, i: int, cursor_row: int) -> Option<
    Seq<ItemView>,
>
    decreases i
        when 0 <= i < nodes.len() && tree_wf(nodes)
        via spec_walk_up_dec
{
    let k = nodes[i].kind;
    if k == NodeKind::FieldExpression {
        match spec_child_by_field(nodes, i, FieldLabel::FArgument) {
            Some(obj) => Some(spec_resolve_and_fetch(db, nodes, obj, cursor_row)),
            None => None,
        }
    } else if k == NodeKind::QualifiedIdentifier {
        match spec_child_by_field(nodes, i, FieldLabel::FScope) {
            Some(sc) => Some(spec_static_members(db, nodes[sc].text@)),
            None => None,
        }
    } else {
        let err_hit = if k == NodeKind::Error {
            spec_error_scan(nodes, i, nodes[i].children@.len() as int)
        } else {
            None
        };
        match err_hit {
            Some(prev) => Some(spec_resolve_and_fetch(db, nodes, prev, cursor_row)),
            None => match nodes[i].parent {
                Some(p) => spec_walk_up(db, nodes, p as int, cursor_row),
                None => None,
            },
        }
    }
}

#[via_fn]
proof fn spec_walk_up_dec(db: SymbolDb, nodes: Seq<NodeData>, i: int, cursor_row: int) {
    assert(node_ok(nodes, i));
}

// ---------------------------------------------------------------------------
// The resolver pipeline on a parsed tree and a loaded store.
// ---------------------------------------------------------------------------
/// The completion items for a cursor position: find the cursor's node;
/// resolve the expression left of an access operator; otherwise walk the
/// ancestors for a member access, a scoped name, or an error-recovery
/// operator; otherwise offer the enclosing class's members for a bare
/// identifier; otherwise nothing.
pub open spec fn spec_complete(db: SymbolDb, nodes: Seq<NodeData>, row: int, col: int) -> Seq<
    ItemView,
> {
    match spec_node_at_point(nodes, row, col) {
        None => Seq::empty(),
        Some(n) => {
            let k = nodes[n].kind;
            let op_result = if k == NodeKind::Dot || k == NodeKind::Arrow || k
                == NodeKind::ColonColon || k == NodeKind::Colon {
                let op = if k == NodeKind::Colon && (match nodes[n].parent {
                    Some(p) => nodes[p as int].kind == NodeKind::ColonColon,
                    None => false,
                }) {
                    nodes[n].parent->0 as int
                } else {
                    n
                };
                match spec_prev_meaningful(nodes, op) {
                    Some(prev) => Some(spec_resolve_and_fetch(db, nodes, prev, row)),
                    None => None,
                }
            } else {
                None
            };
            match op_result {
                Some(items) => items,
                None => match spec_walk_up(db, nodes, n, row) {
                    Some(items) => items,
                    None => if nodes[n].kind == NodeKind::Identifier || nodes[n].kind
                        == NodeKind::TypeIdentifier || nodes[n].kind == NodeKind::FieldIdentifier
                        || nodes[n].kind == NodeKind::This {
                        match spec_enclosing_class(nodes, n) {
                            Some(cls) => spec_fetch(db, seq![cls], Set::empty()),
                            None => Seq::empty(),
                        }
                    } else {
                        Seq::empty()
                    },
                },
            }
        },
    }
}

fn error_scan_exec(db: &SymbolDb, tree: &SyntaxTree, i: usize) -> (r: Option<usize>)
    requires
        tree.wf(),
        i < tree.nodes@.len(),
    ensures
        match r {
            Some(prev) => spec_error_scan(
                tree.nodes@,
                i as int,
                tree.nodes@[i as int].children@.len() as int,
            ) == Some(prev as int) && prev < tree.nodes@.len(),
            None => spec_error_scan(
                tree.nodes@,
                i as int,
                tree.nodes@[i as int].children@.len() as int,
            ) is None,
        },
{
    let nodes = &tree.nodes;
    proof {
        assert(node_ok(nodes@, i as int));
    }
    let ch_len = nodes[i].children.len();
    let mut j = ch_len;
    while j > 0
        invariant
            j <= ch_len,
            i < nodes@.len(),
            tree_wf(nodes@),
            nodes@ == tree.nodes@,
            ch_len == nodes@[i as int].children@.len(),
            spec_error_scan(nodes@, i as int, ch_len as int) == spec_error_scan(
                nodes@,
                i as int,
                j as int,
            ),
        decreases j,
    {
        proof {
            assert(node_ok(nodes@, i as int));
        }
        let c = nodes[i].children[j - 1];
        let ck = nodes[c].kind;
        if ck == NodeKind::Dot || ck == NodeKind::Arrow || ck == NodeKind::ColonColon {
            match prev_meaningful_sibling(tree, c) {
                Some(prev) => {
                    return Some(prev);
                },
                None => {},
            }
        }
        j -= 1;
    }
    None
}

/// Walks the ancestors of the cursor node for a context that decides the
/// completion: a member access, a scoped name, or an access operator inside
/// an error-recovery node.
fn walk_up_exec(db: &SymbolDb, tree: &SyntaxTree, i: usize, cursor_row: usize) -> (r: Option<
    Vec<CompletionItem>,
>)
    requires
        tree.wf(),
        i < tree.nodes@.len(),
    ensures
        match r {
            Some(v) => spec_walk_up(*db, tree.nodes@, i as int, cursor_row as int) == Some(
                items_view(v@),
            ),
            None => spec_walk_up(*db, tree.nodes@, i as int, cursor_row as int) is None,
        },
    decreases i,
{
    let nodes = &tree.nodes;
    let k = nodes[i].kind;
    if k == NodeKind::FieldExpression {
        match child_by_field(tree, i, FieldLabel::FArgument) {
            Some(obj) => Some(resolve_node_and_fetch_members(db, tree, obj, cursor_row)),
            None => None,
        }
    } else if k == NodeKind::QualifiedIdentifier {
        match child_by_field(tree, i, FieldLabel::FScope) {
            Some(sc) => Some(resolve_static_members(db, &nodes[sc].text)),
            None => None,
        }
    } else {
        if k == NodeKind::Error {
            match error_scan_exec(db, tree, i) {
                Some(prev) => {
                    return Some(resolve_node_and_fetch_members(db, tree, prev, cursor_row));
                },
                None => {},
            }
        }
        proof {
            assert(node_ok(tree.nodes@, i as int));
        }
        match nodes[i].parent {
            Some(p) => walk_up_exec(db, tree, p, cursor_row),
            None => None,
        }
    }
}

/// Resolves a completion request against a loaded symbol store and a parsed
/// tree. Always returns a list; every item carries one of the four LSP kind
/// codes and inserts exactly its label.
pub fn complete(db: &SymbolDb, tree: &SyntaxTree, row: usize, col: usize) -> (r: Vec<
    CompletionItem,
>)
    requires
        tree.wf(),
    ensures
        items_view(r@) == spec_complete(*db, tree.nodes@, row as int, col as int),
        forall|i: int| 0 <= i < r@.len() ==> item_wf(#[trigger] items_view(r@)[i]),
{
    let r = complete_inner(db, tree, row, col);
    proof {
        lemma_complete_wf(*db, tree.nodes@, row as int, col as int);
        assert forall|i: int| 0 <= i < r@.len() implies item_wf(items_view(r@)[i]) by {
            assert(items_view(r@)[i] == spec_complete(*db, tree.nodes@, row as int, col as int)[i]);
        }
    }
    r
}

fn complete_inner(db: &SymbolDb, tree: &SyntaxTree, row: usize, col: usize) -> (r: Vec<
    CompletionItem,
>)
    requires
        tree.wf(),
    ensures
        items_view(r@) == spec_complete(*db, tree.nodes@, row as int, col as int),
{
    let nodes = &tree.nodes;
    let n = match node_at_point(tree, row, col) {
        Some(n) => n,
        None => {
            let r: Vec<CompletionItem> = Vec::new();
            proof {
                assert(items_view(r@) =~= Seq::<ItemView>::empty());
            }
            return r;
        },
    };
    let k = nodes[n].kind;
    if k == NodeKind::Dot || k == NodeKind::Arrow || k == NodeKind::ColonColon || k
        == NodeKind::Colon {
        let op = if k == NodeKind::Colon {
            match nodes[n].parent {
                Some(p) => {
                    proof {
                        assert(node_ok(nodes@, n as int));
                    }
                    if nodes[p].kind == NodeKind::ColonColon {
                        p
                    } else {
                        n
                    }
                },
                None => n,
            }
        } else {
            n
        };
        match prev_meaningful_sibling(tree, op) {
            Some(prev) => {
                return resolve_node_and_fetch_members(db, tree, prev, row);
            },
            None => {},
        }
    }
    // ancestor walk
    match walk_up_exec(db, tree, n, row) {
        Some(items) => {
            return items;
        },
        None => {},
    }
    // implicit this
    if k == NodeKind::Identifier || k == NodeKind::TypeIdentifier || k == NodeKind::FieldIdentifier
        || k == NodeKind::This {
        match enclosing_class_name(tree, n) {
            Some(cls) => {
                return fetch_members_recursive(db, &cls);
            },
            None => {},
        }
    }
    let r: Vec<CompletionItem> = Vec::new();
    proof {
        assert(items_view(r@) =~= Seq::<ItemView>::empty());
    }
    r
}

// ---------------------------------------------------------------------------
// Shape of everything `complete` can return.
// ---------------------------------------------------------------------------
proof fn lemma_resolve_and_fetch_wf(db: SymbolDb, nodes: Seq<NodeData>, i: int, cursor_row: int)
    ensures
        forall|q: int|
            0 <= q < spec_resolve_and_fetch(db, nodes, i, cursor_row).len() ==> item_wf(
                #[trigger] spec_resolve_and_fetch(db, nodes, i, cursor_row)[q],
            ),
{
    match spec_resolve_expr(db, nodes, i, cursor_row) {
        Some(t) => {
            lemma_fetch_wf(db, seq![spec_resolve_typedef(db, t)], Set::empty());
        },
        None => {},
    }
}

proof fn lemma_walk_up_wf(db: SymbolDb, nodes: Seq<NodeData>, i: int, cursor_row: int)
    requires
        tree_wf(nodes),
        0 <= i < nodes.len(),
    ensures
        match spec_walk_up(db, nodes, i, cursor_row) {
            Some(items) => forall|q: int|
                0 <= q < items.len() ==> item_wf(#[trigger] items[q]),
            None => true,
        },
    decreases i,
{
    assert(node_ok(nodes, i));
    let k = nodes[i].kind;
    if k == NodeKind::FieldExpression {
        match spec_child_by_field(nodes, i, FieldLabel::FArgument) {
            Some(obj) => {
                lemma_resolve_and_fetch_wf(db, nodes, obj, cursor_row);
            },
            None => {},
        }
    } else if k == NodeKind::QualifiedIdentifier {
        match spec_child_by_field(nodes, i, FieldLabel::FScope) {
            Some(sc) => {
                lemma_fetch_wf(
                    db,
                    seq![spec_resolve_typedef(db, spec_clean(nodes[sc].text@))],
                    Set::empty(),
                );
            },
            None => {},
        }
    } else {
        let err_hit = if k == NodeKind::Error {
            spec_error_scan(nodes, i, nodes[i].children@.len() as int)
        } else {
            None
        };
        match err_hit {
            Some(prev) => {
                lemma_resolve_and_fetch_wf(db, nodes, prev, cursor_row);
            },
            None => {
                match nodes[i].parent {
                    Some(p) => {
                        lemma_walk_up_wf(db, nodes, p as int, cursor_row);
                    },
                    None => {},
                }
            },
        }
    }
}

/// Every item of a completion response has a valid kind code and inserts
/// exactly its label.
pub proof fn lemma_complete_wf(db: SymbolDb, nodes: Seq<NodeData>, row: int, col: int)
    requires
        tree_wf(nodes),
    ensures
        forall|q: int|
            0 <= q < spec_complete(db, nodes, row, col).len() ==> item_wf(
                #[trigger] spec_complete(db, nodes, row, col)[q],
            ),
{
    match spec_node_at_point(nodes, row, col) {
        None => {},
        Some(n) => {
            crate::tree::lemma_node_at_point_bounds(nodes, row, col);
            let k = nodes[n].kind;
            if k == NodeKind::Dot || k == NodeKind::Arrow || k == NodeKind::ColonColon || k
                == NodeKind::Colon {
                let op = if k == NodeKind::Colon && (match nodes[n].parent {
                    Some(p) => nodes[p as int].kind == NodeKind::ColonColon,
                    None => false,
                }) {
                    nodes[n].parent->0 as int
                } else {
                    n
                };
                match spec_prev_meaningful(nodes, op) {
                    Some(prev) => {
                        lemma_resolve_and_fetch_wf(db, nodes, prev, row);
                    },
                    None => {},
                }
            }
            lemma_walk_up_wf(db, nodes, n, row);
            match spec_enclosing_class(nodes, n) {
                Some(cls) => {
                    lemma_fetch_wf(db, seq![cls], Set::empty());
                },
                None => {},
            }
        },
    }
}

} // verus!
