use vstd::prelude::*;
use crate::chars::{spec_trim, trim_vec};
use crate::clean::{spec_clean, extract_clean_type};

verus! {

// ---------------------------------------------------------------------------
// A concrete syntax tree as a flat arena. Nodes are stored in preorder, so a
// parent's index is smaller than its children's; that shape is the
// well-formedness invariant, and it bounds every ancestor or descendant walk.
// ---------------------------------------------------------------------------
/// The node kinds the resolver distinguishes; everything else is `Other`.
/// `Whitespace` stands for the grammar's bare space and line-break tokens.
#[derive(PartialEq, Eq, Structural, Clone, Copy, Debug)]
pub enum NodeKind {
    Dot,
    Arrow,
    ColonColon,
    Colon,
    Identifier,
    TypeIdentifier,
    FieldIdentifier,
    NamespaceIdentifier,
    ScopedTypeIdentifier,
    This,
    FieldExpression,
    QualifiedIdentifier,
    CallExpression,
    Declaration,
    ParameterDeclaration,
    ForRangeLoop,
    InitDeclarator,
    AssignmentExpression,
    FunctionDefinition,
    ClassSpecifier,
    StructSpecifier,
    UnrealClassDeclaration,
    UnrealStructDeclaration,
    Error,
    Comment,
    Whitespace,
    Other,
}

/// The grammar field a node fills in its parent, where the resolver reads one.
#[derive(PartialEq, Eq, Structural, Clone, Copy, Debug)]
pub enum FieldLabel {
    FType,
    FDeclarator,
    FArgument,
    FScope,
    FName,
    FFunction,
    FField,
    FValue,
    FLeft,
    FRight,
    FNone,
}

pub struct NodeData {
    pub kind: NodeKind,
    pub text: Vec<char>,
    pub start_row: usize,
    pub start_col: usize,
    pub end_row: usize,
    pub end_col: usize,
    pub parent: Option<usize>,
    pub children: Vec<usize>,
    pub field: FieldLabel,
}

pub open spec fn node_ok(nodes: Seq<NodeData>, i: int) -> bool {
    &&& (match nodes[i].parent {
        Some(p) => 0 <= p < i && nodes[p as int].children@.contains(i as usize),
        None => true,
    })
    &&& (forall|j: int|
        0 <= j < nodes[i].children@.len() ==> i < #[trigger] nodes[i].children@[j] < nodes.len()
            && nodes[nodes[i].children@[j] as int].parent == Some(i as usize))
    &&& (forall|j: int|
        0 <= j && j + 1 < nodes[i].children@.len() ==> #[trigger] nodes[i].children@[j]
            < nodes[i].children@[j + 1])
}

pub open spec fn tree_wf(nodes: Seq<NodeData>) -> bool {
    forall|i: int| 0 <= i < nodes.len() ==> #[trigger] node_ok(nodes, i)
}

pub struct SyntaxTree {
    pub nodes: Vec<NodeData>,
}

impl SyntaxTree {
    pub open spec fn wf(&self) -> bool {
        tree_wf(self.nodes@)
    }
}

/// Runtime well-formedness check, for trees built outside the library.
pub fn tree_from_nodes(nodes: Vec<NodeData>) -> (r: Option<SyntaxTree>)
    ensures
        match r {
            Some(t) => t.wf() && t.nodes@ == nodes@,
            None => !tree_wf(nodes@),
        },
{
    let n = nodes.len();
    let mut i: usize = 0;
    while i < n
        invariant
            i <= n,
            nodes@.len() == n,
            forall|k: int| 0 <= k < i ==> #[trigger] node_ok(nodes@, k),
        decreases n - i,
    {
        if !check_node_ok(&nodes, i) {
            return None;
        }
        i += 1;
    }
    Some(SyntaxTree { nodes })
}

fn check_node_ok(nodes: &Vec<NodeData>, i: usize) -> (r: bool)
    requires
        i < nodes@.len(),
    ensures
        r == node_ok(nodes@, i as int),
{
    let nd = &nodes[i];
    match nd.parent {
        Some(p) => {
            if !(p < i) {
                return false;
            }
            let pch = &nodes[p].children;
            let mut found = false;
            let mut j: usize = 0;
            while j < pch.len()
                invariant
                    j <= pch@.len(),
                    pch@ == nodes@[p as int].children@,
                    found == exists|q: int| 0 <= q < j && pch@[q] == i,
                decreases pch@.len() - j,
            {
                if pch[j] == i {
                    found = true;
                }
                j += 1;
            }
            if !found {
                assert(!nodes@[p as int].children@.contains(i as usize));
                return false;
            }
            assert(nodes@[p as int].children@.contains(i as usize));
            check_children_ok(nodes, i)
        },
        None => check_children_ok(nodes, i),
    }
}

fn check_children_ok(nodes: &Vec<NodeData>, i: usize) -> (r: bool)
    requires
        i < nodes@.len(),
        match nodes@[i as int].parent {
            Some(p) => 0 <= p < i && nodes@[p as int].children@.contains(i as usize),
            None => true,
        },
    ensures
        r == node_ok(nodes@, i as int),
{
    let n = nodes.len();
    let ch = &nodes[i].children;
    let cl = ch.len();
    let mut j: usize = 0;
    while j < cl
        invariant
            j <= cl,
            cl == ch@.len(),
            i < n,
            nodes@.len() == n,
            ch@ == nodes@[i as int].children@,
            forall|q: int|
                0 <= q < j ==> i < #[trigger] ch@[q] < n && nodes@[ch@[q] as int].parent == Some(
                    i as usize,
                ),
            forall|q: int|
                0 <= q && q + 1 <= j && q + 1 < cl ==> #[trigger] ch@[q] < ch@[q + 1],
        decreases cl - j,
    {
        let c = ch[j];
        if !(i < c && c < n) {
            return false;
        }
        match nodes[c].parent {
            Some(cp) => {
                if cp != i {
                    return false;
                }
            },
            None => {
                return false;
            },
        }
        if j + 1 < cl {
            if !(ch[j] < ch[j + 1]) {
                return false;
            }
        }
        j += 1;
    }
    true
}

// ---------------------------------------------------------------------------
// Point containment and cursor lookup.
// ---------------------------------------------------------------------------
pub open spec fn point_le(r1: int, c1: int, r2: int, c2: int) -> bool {
    r1 < r2 || (r1 == r2 && c1 <= c2)
}

/// Does node `i` span the range from (row, pcol) to (row, col)?
pub open spec fn covers(nodes: Seq<NodeData>, i: int, row: int, pcol: int, col: int) -> bool {
    point_le(nodes[i].start_row as int, nodes[i].start_col as int, row, pcol) && point_le(
        row,
        col,
        nodes[i].end_row as int,
        nodes[i].end_col as int,
    )
}

fn covers_exec(nodes: &Vec<NodeData>, i: usize, row: usize, pcol: usize, col: usize) -> (r: bool)
    requires
        i < nodes@.len(),
    ensures
        r == covers(nodes@, i as int, row as int, pcol as int, col as int),
{
    let nd = &nodes[i];
    (nd.start_row < row || (nd.start_row == row && nd.start_col <= pcol)) && (row < nd.end_row || (
    row == nd.end_row && col <= nd.end_col))
}

/// First child of `i`, from child position `j` on, that covers the range.
pub open spec fn first_cover_from(
    nodes: Seq<NodeData>,
    i: int,
    row: int,
    pcol: int,
    col: int,
    j: int,
) -> Option<int>
    decreases nodes[i].children@.len() - j,
{
    if j < 0 || j >= nodes[i].children@.len() {
        None
    } else if covers(nodes, nodes[i].children@[j] as int, row, pcol, col) {
        Some(nodes[i].children@[j] as int)
    } else {
        first_cover_from(nodes, i, row, pcol, col, j + 1)
    }
}

/// The deepest node reached from `i` by stepping into the first child that
/// covers the range.
pub open spec fn descend_at(nodes: Seq<NodeData>, i: int, row: int, pcol: int, col: int) -> int
    decreases nodes.len() - i
        when 0 <= i < nodes.len() && tree_wf(nodes)
        via descend_at_dec
{
    match first_cover_from(nodes, i, row, pcol, col, 0) {
        Some(c) => descend_at(nodes, c, row, pcol, col),
        None => i,
    }
}

proof fn lemma_first_cover_bounds(
    nodes: Seq<NodeData>,
    i: int,
    row: int,
    pcol: int,
    col: int,
    j: int,
)
    requires
        tree_wf(nodes),
        0 <= i < nodes.len(),
    ensures
        match first_cover_from(nodes, i, row, pcol, col, j) {
            Some(c) => i < c < nodes.len(),
            None => true,
        },
    decreases nodes[i].children@.len() - j,
{
    if 0 <= j < nodes[i].children@.len() {
        assert(node_ok(nodes, i));
        if !covers(nodes, nodes[i].children@[j] as int, row, pcol, col) {
            lemma_first_cover_bounds(nodes, i, row, pcol, col, j + 1);
        }
    }
}

#[via_fn]
proof fn descend_at_dec(nodes: Seq<NodeData>, i: int, row: int, pcol: int, col: int) {
    lemma_first_cover_bounds(nodes, i, row, pcol, col, 0);
}

pub proof fn lemma_descend_bounds(nodes: Seq<NodeData>, i: int, row: int, pcol: int, col: int)
    requires
        tree_wf(nodes),
        0 <= i < nodes.len(),
    ensures
        0 <= descend_at(nodes, i, row, pcol, col) < nodes.len(),
    decreases nodes.len() - i,
{
    lemma_first_cover_bounds(nodes, i, row, pcol, col, 0);
    match first_cover_from(nodes, i, row, pcol, col, 0) {
        Some(c) => {
            lemma_descend_bounds(nodes, c, row, pcol, col);
        },
        None => {},
    }
}

pub proof fn lemma_node_at_point_bounds(nodes: Seq<NodeData>, row: int, col: int)
    requires
        tree_wf(nodes),
    ensures
        match spec_node_at_point(nodes, row, col) {
            Some(n) => 0 <= n < nodes.len(),
            None => true,
        },
{
    let pcol = if col > 0 {
        col - 1
    } else {
        0
    };
    if nodes.len() > 0 && covers(nodes, 0, row, pcol, col) {
        lemma_descend_bounds(nodes, 0, row, pcol, col);
    }
}

/// The node the cursor rests on: the deepest node whose range spans from the
/// character before the cursor to the cursor itself.
pub open spec fn spec_node_at_point(nodes: Seq<NodeData>, row: int, col: int) -> Option<int> {
    let pcol = if col > 0 {
        col - 1
    } else {
        0
    };
    if nodes.len() == 0 || !covers(nodes, 0, row, pcol, col) {
        None
    } else {
        Some(descend_at(nodes, 0, row, pcol, col))
    }
}

#[verifier::loop_isolation(false)]
pub fn node_at_point(tree: &SyntaxTree, row: usize, col: usize) -> (r: Option<usize>)
    requires
        tree.wf(),
    ensures
        match r {
            Some(i) => spec_node_at_point(tree.nodes@, row as int, col as int) == Some(i as int)
                && i < tree.nodes@.len(),
            None => spec_node_at_point(tree.nodes@, row as int, col as int) is None,
        },
{
    let nodes = &tree.nodes;
    let pcol = if col > 0 {
        col - 1
    } else {
        0
    };
    if nodes.len() == 0 {
        return None;
    }
    if !covers_exec(nodes, 0, row, pcol, col) {
        return None;
    }
    let mut cur: usize = 0;
    loop
        invariant
            tree_wf(nodes@),
            nodes@ == tree.nodes@,
            cur < nodes@.len(),
            descend_at(nodes@, 0, row as int, pcol as int, col as int) == descend_at(
                nodes@,
                cur as int,
                row as int,
                pcol as int,
                col as int,
            ),
        decreases nodes@.len() - cur,
    {
        match first_cover_exec(tree, cur, row, pcol, col) {
            Some(c) => {
                cur = c;
            },
            None => {
                proof {
                    assert(descend_at(nodes@, cur as int, row as int, pcol as int, col as int)
                        == cur as int);
                }
                return Some(cur);
            },
        }
    }
}

/// First child of `i` that covers the range, if any.
fn first_cover_exec(tree: &SyntaxTree, i: usize, row: usize, pcol: usize, col: usize) -> (r: Option<
    usize,
>)
    requires
        tree.wf(),
        i < tree.nodes@.len(),
    ensures
        match r {
            Some(c) => first_cover_from(tree.nodes@, i as int, row as int, pcol as int, col as int, 0)
                == Some(c as int) && i < c < tree.nodes@.len(),
            None => first_cover_from(
                tree.nodes@,
                i as int,
                row as int,
                pcol as int,
                col as int,
                0,
            ) is None,
        },
{
    let nodes = &tree.nodes;
    proof {
        assert(node_ok(nodes@, i as int));
    }
    let ch_len = nodes[i].children.len();
    let mut j: usize = 0;
    while j < ch_len
        invariant
            j <= ch_len,
            i < nodes@.len(),
            tree_wf(nodes@),
            nodes@ == tree.nodes@,
            ch_len == nodes@[i as int].children@.len(),
            first_cover_from(nodes@, i as int, row as int, pcol as int, col as int, 0)
                == first_cover_from(nodes@, i as int, row as int, pcol as int, col as int, j as int),
        decreases ch_len - j,
    {
        proof {
            assert(node_ok(nodes@, i as int));
        }
        let c = nodes[i].children[j];
        if covers_exec(nodes, c, row, pcol, col) {
            return Some(c);
        }
        j += 1;
    }
    None
}

// ---------------------------------------------------------------------------
// Siblings.
// ---------------------------------------------------------------------------
/// Whitespace tokens and comments do not count as siblings.
pub open spec fn meaningful(k: NodeKind) -> bool {
    k != NodeKind::Comment && k != NodeKind::Whitespace
}

/// First position of `x` in a child list, or its length when absent.
pub open spec fn pos_of(ch: Seq<usize>, x: usize) -> int
    decreases ch.len(),
{
    if ch.len() == 0 {
        0
    } else if ch[0] == x {
        0
    } else {
        1 + pos_of(ch.drop_first(), x)
    }
}

proof fn lemma_pos_of_determined(ch: Seq<usize>, x: usize, k: int)
    requires
        0 <= k <= ch.len(),
        k < ch.len() ==> ch[k] == x,
        forall|j: int| 0 <= j < k ==> ch[j] != x,
        k == ch.len() ==> forall|j: int| 0 <= j < ch.len() ==> ch[j] != x,
    ensures
        pos_of(ch, x) == k,
    decreases ch.len(),
{
    if ch.len() > 0 && ch[0] != x {
        assert forall|j: int| 0 <= j < k - 1 implies ch.drop_first()[j] != x by {
            assert(ch.drop_first()[j] == ch[j + 1]);
        }
        if k == ch.len() {
            assert forall|j: int| 0 <= j < ch.drop_first().len() implies ch.drop_first()[j]
                != x by {
                assert(ch.drop_first()[j] == ch[j + 1]);
            }
        } else {
            assert(ch.drop_first()[k - 1] == ch[k]);
        }
        lemma_pos_of_determined(ch.drop_first(), x, k - 1);
    }
}

/// The nearest meaningful sibling strictly before child position `j`.
pub open spec fn prev_meaningful_from(nodes: Seq<NodeData>, ch: Seq<usize>, j: int) -> Option<int>
    decreases j,
{
    if j <= 0 {
        None
    } else if 0 <= j - 1 < ch.len() && meaningful(nodes[ch[j - 1] as int].kind) {
        Some(ch[j - 1] as int)
    } else {
        prev_meaningful_from(nodes, ch, j - 1)
    }
}

/// The previous sibling of `n` that is neither whitespace nor a comment.
pub open spec fn spec_prev_meaningful(nodes: Seq<NodeData>, n: int) -> Option<int> {
    match nodes[n].parent {
        None => None,
        Some(p) => {
            let ch = nodes[p as int].children@;
            prev_meaningful_from(nodes, ch, pos_of(ch, n as usize))
        },
    }
}

#[verifier::loop_isolation(false)]
pub fn prev_meaningful_sibling(tree: &SyntaxTree, n: usize) -> (r: Option<usize>)
    requires
        tree.wf(),
        n < tree.nodes@.len(),
    ensures
        match r {
            Some(m) => spec_prev_meaningful(tree.nodes@, n as int) == Some(m as int) && m
                < tree.nodes@.len(),
            None => spec_prev_meaningful(tree.nodes@, n as int) is None,
        },
{
    let nodes = &tree.nodes;
    let p = match nodes[n].parent {
        Some(p) => p,
        None => {
            return None;
        },
    };
    proof {
        assert(node_ok(nodes@, n as int));
        assert(node_ok(nodes@, p as int));
    }
    let ch_len = nodes[p].children.len();
    let mut j: usize = 0;
    while j < ch_len && nodes[p].children[j] != n
        invariant
            j <= ch_len,
            p < nodes@.len(),
            nodes@ == tree.nodes@,
            ch_len == nodes@[p as int].children@.len(),
            forall|q: int| 0 <= q < j ==> nodes@[p as int].children@[q] != n,
        decreases ch_len - j,
    {
        j += 1;
    }
    let pos = j;
    proof {
        lemma_pos_of_determined(nodes@[p as int].children@, n, pos as int);
    }
    let mut k = pos;
    while k > 0
        invariant
            k <= ch_len,
            p < nodes@.len(),
            tree_wf(nodes@),
            nodes@ == tree.nodes@,
            ch_len == nodes@[p as int].children@.len(),
            prev_meaningful_from(nodes@, nodes@[p as int].children@, pos as int)
                == prev_meaningful_from(nodes@, nodes@[p as int].children@, k as int),
        decreases k,
    {
        proof {
            assert(node_ok(nodes@, p as int));
        }
        let c = nodes[p].children[k - 1];
        let mk = nodes[c].kind;
        if mk != NodeKind::Comment && mk != NodeKind::Whitespace {
            return Some(c);
        }
        k -= 1;
    }
    None
}

// ---------------------------------------------------------------------------
// Fields.
// ---------------------------------------------------------------------------
/// First child of `i` carrying field label `f`, scanning from position `j`.
pub open spec fn child_by_field_from(nodes: Seq<NodeData>, i: int, f: FieldLabel, j: int) -> Option<
    int,
>
    decreases nodes[i].children@.len() - j,
{
    if j < 0 || j >= nodes[i].children@.len() {
        None
    } else if nodes[nodes[i].children@[j] as int].field == f {
        Some(nodes[i].children@[j] as int)
    } else {
        child_by_field_from(nodes, i, f, j + 1)
    }
}

pub open spec fn spec_child_by_field(nodes: Seq<NodeData>, i: int, f: FieldLabel) -> Option<int> {
    child_by_field_from(nodes, i, f, 0)
}

pub proof fn lemma_child_by_field_bounds(nodes: Seq<NodeData>, i: int, f: FieldLabel, j: int)
    requires
        tree_wf(nodes),
        0 <= i < nodes.len(),
    ensures
        match child_by_field_from(nodes, i, f, j) {
            Some(c) => i < c < nodes.len(),
            None => true,
        },
    decreases nodes[i].children@.len() - j,
{
    if 0 <= j < nodes[i].children@.len() {
        assert(node_ok(nodes, i));
        if nodes[nodes[i].children@[j] as int].field != f {
            lemma_child_by_field_bounds(nodes, i, f, j + 1);
        }
    }
}

pub fn child_by_field(tree: &SyntaxTree, i: usize, f: FieldLabel) -> (r: Option<usize>)
    requires
        tree.wf(),
        i < tree.nodes@.len(),
    ensures
        match r {
            Some(c) => spec_child_by_field(tree.nodes@, i as int, f) == Some(c as int) && i < c
                < tree.nodes@.len(),
            None => spec_child_by_field(tree.nodes@, i as int, f) is None,
        },
{
    let nodes = &tree.nodes;
    proof {
        assert(node_ok(nodes@, i as int));
    }
    let ch_len = nodes[i].children.len();
    let mut j: usize = 0;
    while j < ch_len
        invariant
            j <= ch_len,
            i < nodes@.len(),
            tree_wf(nodes@),
            nodes@ == tree.nodes@,
            ch_len == nodes@[i as int].children@.len(),
            spec_child_by_field(nodes@, i as int, f) == child_by_field_from(
                nodes@,
                i as int,
                f,
                j as int,
            ),
        decreases ch_len - j,
    {
        proof {
            assert(node_ok(nodes@, i as int));
        }
        let c = nodes[i].children[j];
        if nodes[c].field == f {
            return Some(c);
        }
        j += 1;
    }
    None
}

// ---------------------------------------------------------------------------
// Enclosing class discovery.
// ---------------------------------------------------------------------------
pub open spec fn is_class_like(k: NodeKind) -> bool {
    k == NodeKind::ClassSpecifier || k == NodeKind::StructSpecifier
        || k == NodeKind::UnrealClassDeclaration || k == NodeKind::UnrealStructDeclaration
}

/// Drops every trailing `::` from a scope text.
pub open spec fn trim_end_sep(s: Seq<char>) -> Seq<char>
    decreases s.len(),
{
    if s.len() >= 2 && s[s.len() - 2] == ':' && s[s.len() - 1] == ':' {
        trim_end_sep(s.take(s.len() - 2))
    } else {
        s
    }
}

pub fn trim_end_sep_exec(v: &Vec<char>) -> (r: Vec<char>)
    ensures
        r@ == trim_end_sep(v@),
{
    let mut e = v.len();
    proof {
        assert(v@.take(e as int) =~= v@);
    }
    while e >= 2 && v[e - 2] == ':' && v[e - 1] == ':'
        invariant
            e <= v@.len(),
            trim_end_sep(v@) == trim_end_sep(v@.take(e as int)),
        decreases e,
    {
        proof {
            let t = v@.take(e as int);
            assert(t[e - 2] == v@[e - 2] && t[e - 1] == v@[e - 1]);
            assert(t.take(e - 2) =~= v@.take(e as int - 2));
        }
        e -= 2;
    }
    proof {
        let t = v@.take(e as int);
        assert(!(t.len() >= 2 && t[t.len() - 2] == ':' && t[t.len() - 1] == ':')) by {
            if t.len() >= 2 {
                assert(t[e - 2] == v@[e - 2] && t[e - 1] == v@[e - 1]);
            }
        }
    }
    crate::chars::subvec(v, 0, e)
}

/// The qualified identifier inside a declarator, found in preorder.
pub open spec fn spec_find_qualid(nodes: Seq<NodeData>, i: int) -> Option<int>
    decreases nodes.len() - i, 1 + nodes[i].children@.len()
        when 0 <= i < nodes.len() && tree_wf(nodes)
        via spec_find_qualid_dec
{
    if nodes[i].kind == NodeKind::QualifiedIdentifier {
        Some(i)
    } else {
        spec_find_qualid_children(nodes, i, 0)
    }
}

pub open spec fn spec_find_qualid_children(nodes: Seq<NodeData>, i: int, j: int) -> Option<int>
    decreases nodes.len() - i, nodes[i].children@.len() - j
        when 0 <= i < nodes.len() && tree_wf(nodes) && 0 <= j
        via spec_find_qualid_children_dec
{
    if j >= nodes[i].children@.len() {
        None
    } else {
        match spec_find_qualid(nodes, nodes[i].children@[j] as int) {
            Some(q) => Some(q),
            None => spec_find_qualid_children(nodes, i, j + 1),
        }
    }
}

#[via_fn]
proof fn spec_find_qualid_dec(nodes: Seq<NodeData>, i: int) {
    assert(node_ok(nodes, i));
}

#[via_fn]
proof fn spec_find_qualid_children_dec(nodes: Seq<NodeData>, i: int, j: int) {
    assert(node_ok(nodes, i));
}

pub fn find_qualified_identifier(tree: &SyntaxTree, i: usize) -> (r: Option<usize>)
    requires
        tree.wf(),
        i < tree.nodes@.len(),
    ensures
        match r {
            Some(q) => spec_find_qualid(tree.nodes@, i as int) == Some(q as int) && q
                < tree.nodes@.len(),
            None => spec_find_qualid(tree.nodes@, i as int) is None,
        },
    decreases tree.nodes@.len() - i,
{
    let nodes = &tree.nodes;
    if nodes[i].kind == NodeKind::QualifiedIdentifier {
        return Some(i);
    }
    proof {
        assert(node_ok(nodes@, i as int));
    }
    let ch_len = nodes[i].children.len();
    let mut j: usize = 0;
    while j < ch_len
        invariant
            j <= ch_len,
            i < nodes@.len(),
            tree_wf(nodes@),
            nodes@ == tree.nodes@,
            nodes@[i as int].kind != NodeKind::QualifiedIdentifier,
            ch_len == nodes@[i as int].children@.len(),
            spec_find_qualid(nodes@, i as int) == spec_find_qualid_children(
                nodes@,
                i as int,
                j as int,
            ),
        decreases ch_len - j,
    {
        proof {
            assert(node_ok(nodes@, i as int));
        }
        let c = nodes[i].children[j];
        let sub = find_qualified_identifier(tree, c);
        match sub {
            Some(q) => {
                return Some(q);
            },
            None => {},
        }
        j += 1;
    }
    None
}

/// The class around node `i`: the name field of the nearest class-like
/// ancestor, or the scope of the qualified declarator of an enclosing
/// out-of-line function definition.
pub open spec fn spec_enclosing_class(nodes: Seq<NodeData>, i: int) -> Option<Seq<char>>
    decreases i
        when 0 <= i < nodes.len() && tree_wf(nodes)
        via spec_enclosing_class_dec
{
    let step = if is_class_like(nodes[i].kind) {
        match spec_child_by_field(nodes, i, FieldLabel::FName) {
            Some(c) => Some(spec_trim(nodes[c].text@)),
            None => None,
        }
    } else if nodes[i].kind == NodeKind::FunctionDefinition {
        match spec_child_by_field(nodes, i, FieldLabel::FDeclarator) {
            Some(d) => match spec_find_qualid(nodes, d) {
                Some(q) => match spec_child_by_field(nodes, q, FieldLabel::FScope) {
                    Some(sc) => Some(spec_clean(trim_end_sep(spec_trim(nodes[sc].text@)))),
                    None => None,
                },
                None => None,
            },
            None => None,
        }
    } else {
        None
    };
    match step {
        Some(name) => Some(name),
        None => match nodes[i].parent {
            Some(p) => spec_enclosing_class(nodes, p as int),
            None => None,
        },
    }
}

#[via_fn]
proof fn spec_enclosing_class_dec(nodes: Seq<NodeData>, i: int) {
    assert(node_ok(nodes, i));
    lemma_child_by_field_bounds(nodes, i, FieldLabel::FName, 0);
    lemma_child_by_field_bounds(nodes, i, FieldLabel::FDeclarator, 0);
}

pub fn enclosing_class_name(tree: &SyntaxTree, i: usize) -> (r: Option<Vec<char>>)
    requires
        tree.wf(),
        i < tree.nodes@.len(),
    ensures
        match r {
            Some(name) => spec_enclosing_class(tree.nodes@, i as int) == Some(name@),
            None => spec_enclosing_class(tree.nodes@, i as int) is None,
        },
    decreases i,
{
    let nodes = &tree.nodes;
    let k = nodes[i].kind;
    if k == NodeKind::ClassSpecifier || k == NodeKind::StructSpecifier || k
        == NodeKind::UnrealClassDeclaration || k == NodeKind::UnrealStructDeclaration {
        match child_by_field(tree, i, FieldLabel::FName) {
            Some(c) => {
                return Some(trim_vec(&nodes[c].text));
            },
            None => {},
        }
    } else if k == NodeKind::FunctionDefinition {
        match child_by_field(tree, i, FieldLabel::FDeclarator) {
            Some(d) => {
                match find_qualified_identifier(tree, d) {
                    Some(q) => {
                        match child_by_field(tree, q, FieldLabel::FScope) {
                            Some(sc) => {
                                let t = trim_vec(&nodes[sc].text);
                                let t2 = trim_end_sep_exec(&t);
                                return Some(extract_clean_type(&t2));
                            },
                            None => {},
                        }
                    },
                    None => {},
                }
            },
            None => {},
        }
    }
    proof {
        assert(node_ok(tree.nodes@, i as int));
    }
    match nodes[i].parent {
        Some(p) => enclosing_class_name(tree, p),
        None => None,
    }
}

} // verus!
