use vstd::prelude::*;
use crate::chars::{spec_is_ws, spec_is_word, is_ws, is_word, spec_trim, trim_vec, subvec,
    eq_chars_lit};
use crate::clean::{spec_clean, extract_clean_type, word_end, lemma_word_end_bounds,
    lemma_word_end_determined};
use crate::tree::{NodeKind, FieldLabel, NodeData, SyntaxTree, tree_wf, node_ok,
    spec_child_by_field, child_by_field};

verus! {

// ---------------------------------------------------------------------------
// Value-text inference: recover a type from the Unreal construction idioms
// `CreateDefaultSubobject<T>(...)`, `NewObject<T>(...)`, wrapper
// constructions `W<T>(...)`, and plain constructor calls `T(...)`.
// ---------------------------------------------------------------------------
pub open spec fn spec_is_wordcolon(c: char) -> bool {
    spec_is_word(c) || c == ':'
}

pub fn is_wordcolon(c: char) -> (r: bool)
    ensures
        r == spec_is_wordcolon(c),
{
    is_word(c) || c == ':'
}

/// First non-whitespace position at or after `i`.
pub open spec fn skip_ws_at(s: Seq<char>, i: int) -> int
    decreases s.len() - i when 0 <= i <= s.len()
{
    if i < s.len() && spec_is_ws(s[i]) {
        skip_ws_at(s, i + 1)
    } else {
        i
    }
}

pub proof fn lemma_skip_ws_bounds(s: Seq<char>, i: int)
    requires
        0 <= i <= s.len(),
    ensures
        i <= skip_ws_at(s, i) <= s.len(),
    decreases s.len() - i,
{
    if i < s.len() && spec_is_ws(s[i]) {
        lemma_skip_ws_bounds(s, i + 1);
    }
}

/// End of the maximal run of word-or-colon characters beginning at `i`.
pub open spec fn wc_end(s: Seq<char>, i: int) -> int
    decreases s.len() - i when 0 <= i <= s.len()
{
    if i < s.len() && spec_is_wordcolon(s[i]) {
        wc_end(s, i + 1)
    } else {
        i
    }
}

fn skip_ws_exec(s: &Vec<char>, i: usize) -> (r: usize)
    requires
        i <= s@.len(),
    ensures
        r == skip_ws_at(s@, i as int),
        i <= r <= s@.len(),
{
    let n = s.len();
    let mut j = i;
    while j < n && is_ws(s[j])
        invariant
            i <= j <= n,
            s@.len() == n,
            skip_ws_at(s@, i as int) == skip_ws_at(s@, j as int),
        decreases n - j,
    {
        j += 1;
    }
    j
}

fn wc_end_exec(s: &Vec<char>, i: usize) -> (r: usize)
    requires
        i <= s@.len(),
    ensures
        r == wc_end(s@, i as int),
        i <= r <= s@.len(),
{
    let n = s.len();
    let mut j = i;
    while j < n && is_wordcolon(s[j])
        invariant
            i <= j <= n,
            s@.len() == n,
            wc_end(s@, i as int) == wc_end(s@, j as int),
        decreases n - j,
    {
        j += 1;
    }
    j
}

fn word_end_exec(s: &Vec<char>, i: usize) -> (r: usize)
    requires
        i <= s@.len(),
    ensures
        r == word_end(s@, i as int),
        i <= r <= s@.len(),
{
    let n = s.len();
    let mut j = i;
    while j < n && is_word(s[j])
        invariant
            i <= j <= n,
            s@.len() == n,
            forall|q: int| i <= q < j ==> spec_is_word(s@[q]),
        decreases n - j,
    {
        j += 1;
    }
    proof {
        lemma_word_end_determined(s@, i as int, j as int);
    }
    j
}

/// Does the literal stand at position `i`?
pub open spec fn lit_at(s: Seq<char>, i: int, lit: Seq<char>) -> bool {
    0 <= i && i + lit.len() <= s.len() && s.subrange(i, i + lit.len()) == lit
}

fn lit_at_exec(s: &Vec<char>, i: usize, lit: &str) -> (r: bool)
    requires
        i <= s@.len(),
    ensures
        r == lit_at(s@, i as int, lit@),
{
    let n = s.len();
    let ll = lit.unicode_len();
    if n - i < ll {
        return false;
    }
    let mut j: usize = 0;
    while j < ll
        invariant
            j <= ll,
            n == s@.len(),
            i + ll <= n,
            lit@.len() == ll,
            forall|q: int| 0 <= q < j ==> s@[i + q] == lit@[q],
        decreases ll - j,
    {
        if s[i + j] != lit.get_char(j) {
            assert(s@.subrange(i as int, i as int + ll) != lit@) by {
                assert(s@.subrange(i as int, i as int + ll)[j as int] == s@[i + j]);
            }
            return false;
        }
        j += 1;
    }
    assert(s@.subrange(i as int, i as int + ll) =~= lit@);
    true
}

/// `CreateDefaultSubobject ws* < ws* [word or colon]+` at position `i`.
pub open spec fn cds_match_at(s: Seq<char>, i: int) -> bool {
    lit_at(s, i, "CreateDefaultSubobject"@) && {
        let j1 = skip_ws_at(s, i + "CreateDefaultSubobject"@.len());
        j1 < s.len() && s[j1] == '<' && {
            let j2 = skip_ws_at(s, j1 + 1);
            wc_end(s, j2) > j2
        }
    }
}

pub open spec fn cds_capture(s: Seq<char>, i: int) -> Seq<char> {
    let j1 = skip_ws_at(s, i + "CreateDefaultSubobject"@.len());
    let j2 = skip_ws_at(s, j1 + 1);
    s.subrange(j2, wc_end(s, j2))
}

/// `word+ ws* < ws* [word or colon]+` at position `i`; the leftmost such
/// position is where the wrapper pattern fires.
pub open spec fn p2_match_at(s: Seq<char>, i: int) -> bool {
    0 <= i < s.len() && spec_is_word(s[i]) && {
        let we = word_end(s, i);
        let j1 = skip_ws_at(s, we);
        j1 < s.len() && s[j1] == '<' && {
            let j2 = skip_ws_at(s, j1 + 1);
            wc_end(s, j2) > j2
        }
    }
}

pub open spec fn p2_func(s: Seq<char>, i: int) -> Seq<char> {
    s.subrange(i, word_end(s, i))
}

pub open spec fn p2_inner(s: Seq<char>, i: int) -> Seq<char> {
    let we = word_end(s, i);
    let j1 = skip_ws_at(s, we);
    let j2 = skip_ws_at(s, j1 + 1);
    s.subrange(j2, wc_end(s, j2))
}

/// First position at or after `i` where the pattern fires, or `s.len()`.
pub open spec fn first_cds(s: Seq<char>, i: int) -> int
    decreases s.len() - i when 0 <= i <= s.len()
{
    if i >= s.len() {
        i
    } else if cds_match_at(s, i) {
        i
    } else {
        first_cds(s, i + 1)
    }
}

pub open spec fn first_p2(s: Seq<char>, i: int) -> int
    decreases s.len() - i when 0 <= i <= s.len()
{
    if i >= s.len() {
        i
    } else if p2_match_at(s, i) {
        i
    } else {
        first_p2(s, i + 1)
    }
}

/// `[word or colon]+ ws* (` anchored at the start.
pub open spec fn p3_match(s: Seq<char>) -> bool {
    wc_end(s, 0) > 0 && {
        let j = skip_ws_at(s, wc_end(s, 0));
        j < s.len() && s[j] == '('
    }
}

/// The type inferred from an initializer's text: the first matching Unreal
/// construction idiom names it; the peeled argument is preferred for the
/// object-construction wrappers, the wrapper name otherwise.
pub open spec fn spec_infer_value(text: Seq<char>) -> Option<Seq<char>> {
    let s = spec_trim(text);
    let ci = first_cds(s, 0);
    if ci < s.len() {
        Some(spec_clean(cds_capture(s, ci)))
    } else {
        let pi = first_p2(s, 0);
        if pi < s.len() {
            let func = p2_func(s, pi);
            if func == "NewObject"@ || func == "TObjectPtr"@ || func == "TSharedPtr"@ {
                Some(spec_clean(p2_inner(s, pi)))
            } else {
                Some(spec_clean(func))
            }
        } else if p3_match(s) {
            Some(spec_clean(s.subrange(0, wc_end(s, 0))))
        } else {
            None
        }
    }
}

fn cds_match_at_exec(s: &Vec<char>, i: usize) -> (r: bool)
    requires
        i <= s@.len(),
    ensures
        r == cds_match_at(s@, i as int),
{
    proof {
        reveal_strlit("CreateDefaultSubobject");
    }
    if !lit_at_exec(s, i, "CreateDefaultSubobject") {
        return false;
    }
    let n = s.len();
    assert(i + 22 <= n);
    let j1 = skip_ws_exec(s, i + 22);
    if j1 >= s.len() {
        return false;
    }
    if s[j1] != '<' {
        return false;
    }
    let j2 = skip_ws_exec(s, j1 + 1);
    let e = wc_end_exec(s, j2);
    e > j2
}

fn p2_match_at_exec(s: &Vec<char>, i: usize) -> (r: bool)
    requires
        i <= s@.len(),
    ensures
        r == p2_match_at(s@, i as int),
{
    if i >= s.len() {
        return false;
    }
    if !is_word(s[i]) {
        return false;
    }
    let we = word_end_exec(s, i);
    let j1 = skip_ws_exec(s, we);
    if j1 >= s.len() {
        return false;
    }
    if s[j1] != '<' {
        return false;
    }
    let j2 = skip_ws_exec(s, j1 + 1);
    let e = wc_end_exec(s, j2);
    e > j2
}

/// Infers a type from an initializer or assigned value's text.
pub fn infer_from_value_text(text: &Vec<char>) -> (r: Option<Vec<char>>)
    ensures
        match r {
            Some(t) => spec_infer_value(text@) == Some(t@),
            None => spec_infer_value(text@) is None,
        },
{
    let s = trim_vec(text);
    let n = s.len();
    // pattern 1: CreateDefaultSubobject<T>
    let mut i: usize = 0;
    while i < n
        invariant
            i <= n,
            s@.len() == n,
            s@ == spec_trim(text@),
            first_cds(s@, 0) == first_cds(s@, i as int),
        decreases n - i,
    {
        if cds_match_at_exec(&s, i) {
            proof {
                reveal_strlit("CreateDefaultSubobject");
                lemma_skip_ws_bounds(s@, i as int + 22);
            }
            let j1 = skip_ws_exec(&s, i + 22);
            let j2 = skip_ws_exec(&s, j1 + 1);
            let e = wc_end_exec(&s, j2);
            let cap = subvec(&s, j2, e);
            return Some(extract_clean_type(&cap));
        }
        i += 1;
    }
    // pattern 2: W<T>
    let mut i2: usize = 0;
    while i2 < n
        invariant
            i2 <= n,
            s@.len() == n,
            s@ == spec_trim(text@),
            first_cds(s@, 0) == n as int,
            first_p2(s@, 0) == first_p2(s@, i2 as int),
        decreases n - i2,
    {
        if p2_match_at_exec(&s, i2) {
            proof {
                lemma_word_end_bounds(s@, i2 as int);
            }
            let we = word_end_exec(&s, i2);
            let func = subvec(&s, i2, we);
            let j1 = skip_ws_exec(&s, we);
            let j2 = skip_ws_exec(&s, j1 + 1);
            let e = wc_end_exec(&s, j2);
            if eq_chars_lit(&func, "NewObject") || eq_chars_lit(&func, "TObjectPtr")
                || eq_chars_lit(&func, "TSharedPtr") {
                let inner = subvec(&s, j2, e);
                return Some(extract_clean_type(&inner));
            }
            return Some(extract_clean_type(&func));
        }
        i2 += 1;
    }
    // pattern 3: T( at the start
    let e0 = wc_end_exec(&s, 0);
    if e0 > 0 {
        let j = skip_ws_exec(&s, e0);
        if j < n && s[j] == '(' {
            let cap = subvec(&s, 0, e0);
            return Some(extract_clean_type(&cap));
        }
    }
    None
}

// ---------------------------------------------------------------------------
// Does a declarator subtree bind this identifier?
// ---------------------------------------------------------------------------
pub open spec fn spec_find_ident(nodes: Seq<NodeData>, i: int, target: Seq<char>) -> bool
    decreases nodes.len() - i, 1 + nodes[i].children@.len()
        when 0 <= i < nodes.len() && tree_wf(nodes)
        via spec_find_ident_dec
{
    if nodes[i].kind == NodeKind::Identifier || nodes[i].kind == NodeKind::FieldIdentifier {
        spec_trim(nodes[i].text@) == target
    } else {
        spec_find_ident_children(nodes, i, 0, target)
    }
}

pub open spec fn spec_find_ident_children(
    nodes: Seq<NodeData>,
    i: int,
    j: int,
    target: Seq<char>,
) -> bool
    decreases nodes.len() - i, nodes[i].children@.len() - j
        when 0 <= i < nodes.len() && tree_wf(nodes) && 0 <= j
        via spec_find_ident_children_dec
{
    if j >= nodes[i].children@.len() {
        false
    } else {
        spec_find_ident(nodes, nodes[i].children@[j] as int, target) || spec_find_ident_children(
            nodes,
            i,
            j + 1,
            target,
        )
    }
}

#[via_fn]
proof fn spec_find_ident_dec(nodes: Seq<NodeData>, i: int, target: Seq<char>) {
    assert(node_ok(nodes, i));
}

#[via_fn]
proof fn spec_find_ident_children_dec(nodes: Seq<NodeData>, i: int, j: int, target: Seq<char>) {
    assert(node_ok(nodes, i));
}

pub fn find_identifier_in_decl(tree: &SyntaxTree, i: usize, target: &Vec<char>) -> (r: bool)
    requires
        tree.wf(),
        i < tree.nodes@.len(),
    ensures
        r == spec_find_ident(tree.nodes@, i as int, target@),
    decreases tree.nodes@.len() - i,
{
    let nodes = &tree.nodes;
    let k = nodes[i].kind;
    if k == NodeKind::Identifier || k == NodeKind::FieldIdentifier {
        let t = trim_vec(&nodes[i].text);
        return crate::chars::eq_chars(&t, target);
    }
    proof {
        assert(node_ok(nodes@, i as int));
    }
    let ch_len = nodes[i].children.len();
    let mut j: usize = 0;
    while j < ch_len
        invariant
            j <= ch_len,
            i < nodes@.len(),
            tree_wf(nodes@),
            nodes@ == tree.nodes@,
            nodes@[i as int].kind != NodeKind::Identifier,
            nodes@[i as int].kind != NodeKind::FieldIdentifier,
            ch_len == nodes@[i as int].children@.len(),
            spec_find_ident(nodes@, i as int, target@) == spec_find_ident_children(
                nodes@,
                i as int,
                j as int,
                target@,
            ),
        decreases ch_len - j,
    {
        proof {
            assert(node_ok(nodes@, i as int));
        }
        let c = nodes[i].children[j];
        if find_identifier_in_decl(tree, c, target) {
            return true;
        }
        j += 1;
    }
    false
}

// ---------------------------------------------------------------------------
// Assignment and initializer scan: the latest binding of the identifier at
// or before the cursor row names the value whose text is inferred from.
// ---------------------------------------------------------------------------
/// The (declarator, value) pair a node contributes: an `init_declarator`
/// standing as a declaration's declarator, or an assignment expression.
pub open spec fn assign_pair(nodes: Seq<NodeData>, i: int) -> Option<(int, int)> {
    if nodes[i].kind == NodeKind::InitDeclarator && nodes[i].field == FieldLabel::FDeclarator
        && (match nodes[i].parent {
        Some(p) => nodes[p as int].kind == NodeKind::Declaration,
        None => false,
    }) {
        match (
            spec_child_by_field(nodes, i, FieldLabel::FDeclarator),
            spec_child_by_field(nodes, i, FieldLabel::FValue),
        ) {
            (Some(d), Some(v)) => Some((d, v)),
            _ => None,
        }
    } else if nodes[i].kind == NodeKind::AssignmentExpression {
        match (
            spec_child_by_field(nodes, i, FieldLabel::FLeft),
            spec_child_by_field(nodes, i, FieldLabel::FRight),
        ) {
            (Some(d), Some(v)) => Some((d, v)),
            _ => None,
        }
    } else {
        None
    }
}

pub open spec fn assign_hit(
    nodes: Seq<NodeData>,
    target: Seq<char>,
    cursor_row: int,
    i: int,
) -> Option<(int, int)> {
    match assign_pair(nodes, i) {
        Some(p) => if spec_find_ident(nodes, p.0, target) && nodes[p.0].start_row <= cursor_row {
            Some(p)
        } else {
            None
        },
        None => None,
    }
}

/// The latest binding of `target` among the first `n` nodes: the pair is the
/// value node and the binding's row; among bindings at or before the cursor
/// row the greatest row wins, and the later node in document order on ties.
pub open spec fn best_assign_upto(
    nodes: Seq<NodeData>,
    target: Seq<char>,
    cursor_row: int,
    n: int,
) -> Option<(int, int)>
    decreases n,
{
    if n <= 0 {
        None
    } else {
        let prev = best_assign_upto(nodes, target, cursor_row, n - 1);
        match assign_hit(nodes, target, cursor_row, n - 1) {
            Some(p) => {
                let row = nodes[p.0].start_row as int;
                match prev {
                    Some(b) => if row >= b.1 {
                        Some((p.1, row))
                    } else {
                        prev
                    },
                    None => Some((p.1, row)),
                }
            },
            None => prev,
        }
    }
}

/// The type inferred from the latest matching binding's value text; `None`
/// both when no binding matches and when the value text names no type.
pub open spec fn spec_infer_assign(nodes: Seq<NodeData>, target: Seq<char>, cursor_row: int) -> Option<
    Seq<char>,
> {
    match best_assign_upto(nodes, target, cursor_row, nodes.len() as int) {
        Some(b) => spec_infer_value(nodes[b.0].text@),
        None => None,
    }
}

fn assign_pair_exec(tree: &SyntaxTree, i: usize) -> (r: Option<(usize, usize)>)
    requires
        tree.wf(),
        i < tree.nodes@.len(),
    ensures
        match r {
            Some(p) => assign_pair(tree.nodes@, i as int) == Some((p.0 as int, p.1 as int)) && p.0
                < tree.nodes@.len() && p.1 < tree.nodes@.len(),
            None => assign_pair(tree.nodes@, i as int) is None,
        },
{
    let nodes = &tree.nodes;
    let k = nodes[i].kind;
    proof {
        assert(node_ok(nodes@, i as int));
    }
    if k == NodeKind::InitDeclarator && nodes[i].field == FieldLabel::FDeclarator {
        let pok = match nodes[i].parent {
            Some(p) => nodes[p].kind == NodeKind::Declaration,
            None => false,
        };
        if pok {
            let d = child_by_field(tree, i, FieldLabel::FDeclarator);
            let v = child_by_field(tree, i, FieldLabel::FValue);
            match (d, v) {
                (Some(d), Some(v)) => {
                    return Some((d, v));
                },
                _ => {
                    return None;
                },
            }
        }
        return None;
    }
    if k == NodeKind::AssignmentExpression {
        let d = child_by_field(tree, i, FieldLabel::FLeft);
        let v = child_by_field(tree, i, FieldLabel::FRight);
        match (d, v) {
            (Some(d), Some(v)) => {
                return Some((d, v));
            },
            _ => {
                return None;
            },
        }
    }
    None
}

/// Infers a type for `target` from the latest assignment or initializer at
/// or before the cursor row.
pub fn infer_from_assignment(tree: &SyntaxTree, target: &Vec<char>, cursor_row: usize) -> (r:
    Option<Vec<char>>)
    requires
        tree.wf(),
    ensures
        match r {
            Some(t) => spec_infer_assign(tree.nodes@, target@, cursor_row as int) == Some(t@),
            None => spec_infer_assign(tree.nodes@, target@, cursor_row as int) is None,
        },
{
    let nodes = &tree.nodes;
    let n = nodes.len();
    let mut best_v: Option<usize> = None;
    let mut best_row: usize = 0;
    let mut i: usize = 0;
    while i < n
        invariant
            i <= n,
            tree.wf(),
            nodes@ == tree.nodes@,
            nodes@.len() == n,
            match best_v {
                Some(v) => best_assign_upto(nodes@, target@, cursor_row as int, i as int) == Some(
                    (v as int, best_row as int),
                ) && v < n,
                None => best_assign_upto(nodes@, target@, cursor_row as int, i as int) is None,
            },
        decreases n - i,
    {
        match assign_pair_exec(tree, i) {
            Some((d, v)) => {
                if find_identifier_in_decl(tree, d, target) && nodes[d].start_row <= cursor_row {
                    let row = nodes[d].start_row;
                    match best_v {
                        Some(_) => {
                            if row >= best_row {
                                best_v = Some(v);
                                best_row = row;
                            }
                        },
                        None => {
                            best_v = Some(v);
                            best_row = row;
                        },
                    }
                }
            },
            None => {},
        }
        i += 1;
    }
    match best_v {
        Some(v) => infer_from_value_text(&nodes[v].text),
        None => None,
    }
}

// ---------------------------------------------------------------------------
// Declaration scan: among declarations, parameters and range-for bindings of
// `target` at or before the cursor row, the latest one decides; an `auto`
// type defers to the assignment scan.
// ---------------------------------------------------------------------------
pub struct IvState {
    pub seen: bool,
    pub best: Option<Seq<char>>,
    pub row: int,
}

/// The type-field child of a declaration-like node.
pub open spec fn decl_type_node(nodes: Seq<NodeData>, i: int) -> Option<int> {
    if nodes[i].kind == NodeKind::Declaration || nodes[i].kind == NodeKind::ParameterDeclaration
        || nodes[i].kind == NodeKind::ForRangeLoop {
        spec_child_by_field(nodes, i, FieldLabel::FType)
    } else {
        None
    }
}

/// The (type, declarator) candidates a node contributes, one per
/// declarator-field child, from child position `j` on.
pub open spec fn node_cands_from(nodes: Seq<NodeData>, i: int, t: int, j: int) -> Seq<(int, int)>
    decreases nodes[i].children@.len() - j,
{
    if j < 0 || j >= nodes[i].children@.len() {
        Seq::empty()
    } else {
        (if nodes[nodes[i].children@[j] as int].field == FieldLabel::FDeclarator {
            seq![(t, nodes[i].children@[j] as int)]
        } else {
            Seq::empty()
        }) + node_cands_from(nodes, i, t, j + 1)
    }
}

pub open spec fn node_cands(nodes: Seq<NodeData>, i: int) -> Seq<(int, int)> {
    match decl_type_node(nodes, i) {
        Some(t) => node_cands_from(nodes, i, t, 0),
        None => Seq::empty(),
    }
}

/// All candidates from node `i` on, in document order.
pub open spec fn cands_from(nodes: Seq<NodeData>, i: int) -> Seq<(int, int)>
    decreases nodes.len() - i when 0 <= i <= nodes.len()
{
    if i >= nodes.len() {
        Seq::empty()
    } else {
        node_cands(nodes, i) + cands_from(nodes, i + 1)
    }
}

/// One candidate against the running best: among bindings of `target` at or
/// before the cursor the greatest row wins, the later candidate on ties; the
/// selected binding alone decides, so an `auto` type takes the assignment
/// scan's answer even when that scan finds none.
pub open spec fn iv_step(
    nodes: Seq<NodeData>,
    target: Seq<char>,
    cursor_row: int,
    st: IvState,
    c: (int, int),
) -> IvState {
    let t = c.0;
    let d = c.1;
    if spec_find_ident(nodes, d, target) && nodes[d].start_row <= cursor_row && (!st.seen
        || nodes[d].start_row as int >= st.row) {
        let tt = spec_trim(nodes[t].text@);
        if tt == "auto"@ {
            IvState {
                seen: true,
                best: spec_infer_assign(nodes, target, cursor_row),
                row: nodes[d].start_row as int,
            }
        } else {
            IvState { seen: true, best: Some(spec_clean(tt)), row: nodes[d].start_row as int }
        }
    } else {
        st
    }
}

pub open spec fn iv_fold(
    nodes: Seq<NodeData>,
    target: Seq<char>,
    cursor_row: int,
    st: IvState,
    cands: Seq<(int, int)>,
) -> IvState
    decreases cands.len(),
{
    if cands.len() == 0 {
        st
    } else {
        iv_fold(
            nodes,
            target,
            cursor_row,
            iv_step(nodes, target, cursor_row, st, cands.first()),
            cands.drop_first(),
        )
    }
}

proof fn lemma_iv_fold_add(
    nodes: Seq<NodeData>,
    target: Seq<char>,
    cursor_row: int,
    st: IvState,
    a: Seq<(int, int)>,
    b: Seq<(int, int)>,
)
    ensures
        iv_fold(nodes, target, cursor_row, st, a + b) == iv_fold(
            nodes,
            target,
            cursor_row,
            iv_fold(nodes, target, cursor_row, st, a),
            b,
        ),
    decreases a.len(),
{
    if a.len() == 0 {
        assert(a + b =~= b);
    } else {
        assert((a + b).first() == a.first());
        assert((a + b).drop_first() =~= a.drop_first() + b);
        lemma_iv_fold_add(
            nodes,
            target,
            cursor_row,
            iv_step(nodes, target, cursor_row, st, a.first()),
            a.drop_first(),
            b,
        );
    }
}

/// The type of the variable `target` at the cursor row: the latest matching
/// declaration alone decides, its `auto` deferring to the initializer scan;
/// with no matching declaration the initializer scan decides by itself.
pub open spec fn spec_infer_variable(
    nodes: Seq<NodeData>,
    target: Seq<char>,
    cursor_row: int,
) -> Option<Seq<char>> {
    let st = iv_fold(
        nodes,
        target,
        cursor_row,
        IvState { seen: false, best: None, row: 0 },
        cands_from(nodes, 0),
    );
    if st.seen {
        st.best
    } else {
        spec_infer_assign(nodes, target, cursor_row)
    }
}

#[verifier::loop_isolation(false)]
#[verifier::rlimit(100)]
pub fn infer_variable_type(tree: &SyntaxTree, target: &Vec<char>, cursor_row: usize) -> (r: Option<
    Vec<char>,
>)
    requires
        tree.wf(),
    ensures
        match r {
            Some(t) => spec_infer_variable(tree.nodes@, target@, cursor_row as int) == Some(t@),
            None => spec_infer_variable(tree.nodes@, target@, cursor_row as int) is None,
        },
{
    let nodes = &tree.nodes;
    let n = nodes.len();
    let ghost init = IvState { seen: false, best: None, row: 0 };
    let mut seen = false;
    let mut best: Option<Vec<char>> = None;
    let mut best_row: usize = 0;
    let mut i: usize = 0;
    while i < n
        invariant
            i <= n,
            iv_fold(tree.nodes@, target@, cursor_row as int, init, cands_from(tree.nodes@, 0))
                == iv_fold(
                tree.nodes@,
                target@,
                cursor_row as int,
                IvState {
                    seen,
                    best: match best {
                        Some(ref b) => Some(b@),
                        None => None::<Seq<char>>,
                    },
                    row: best_row as int,
                },
                cands_from(tree.nodes@, i as int),
            ),
        decreases n - i,
    {
        let t_opt = if nodes[i].kind == NodeKind::Declaration || nodes[i].kind
            == NodeKind::ParameterDeclaration || nodes[i].kind == NodeKind::ForRangeLoop {
            child_by_field(tree, i, FieldLabel::FType)
        } else {
            proof {
                assert(decl_type_node(tree.nodes@, i as int) is None);
            }
            None
        };
        match t_opt {
            Some(t) => {
                proof {
                    assert(node_ok(tree.nodes@, i as int));
                }
                let ghost st_entry = IvState {
                    seen,
                    best: match best {
                        Some(ref b) => Some(b@),
                        None => None::<Seq<char>>,
                    },
                    row: best_row as int,
                };
                let ch_len = nodes[i].children.len();
                let mut j: usize = 0;
                while j < ch_len
                    invariant
                        j <= ch_len,
                        t < tree.nodes@.len(),
                        ch_len == tree.nodes@[i as int].children@.len(),
                        i < n,
                        iv_fold(
                            tree.nodes@,
                            target@,
                            cursor_row as int,
                            st_entry,
                            node_cands_from(tree.nodes@, i as int, t as int, 0),
                        ) == iv_fold(
                            tree.nodes@,
                            target@,
                            cursor_row as int,
                            IvState {
                                seen,
                                best: match best {
                                    Some(ref b) => Some(b@),
                                    None => None::<Seq<char>>,
                                },
                                row: best_row as int,
                            },
                            node_cands_from(tree.nodes@, i as int, t as int, j as int),
                        ),
                    decreases ch_len - j,
                {
                    proof {
                        assert(node_ok(tree.nodes@, i as int));
                    }
                    let d = nodes[i].children[j];
                    if nodes[d].field == FieldLabel::FDeclarator {
                        let ghost st_now = IvState {
                            seen,
                            best: match best {
                                Some(ref b) => Some(b@),
                                None => None::<Seq<char>>,
                            },
                            row: best_row as int,
                        };
                        proof {
                            assert(node_cands_from(tree.nodes@, i as int, t as int, j as int)
                                =~= seq![(t as int, d as int)] + node_cands_from(
                                tree.nodes@,
                                i as int,
                                t as int,
                                j as int + 1,
                            ));
                            lemma_iv_fold_add(
                                tree.nodes@,
                                target@,
                                cursor_row as int,
                                st_now,
                                seq![(t as int, d as int)],
                                node_cands_from(tree.nodes@, i as int, t as int, j as int + 1),
                            );
                            assert(seq![(t as int, d as int)].first() == (t as int, d as int));
                            assert(seq![(t as int, d as int)].drop_first() =~= Seq::<
                                (int, int),
                            >::empty());
                            let ghost stepped = iv_step(
                                tree.nodes@,
                                target@,
                                cursor_row as int,
                                st_now,
                                (t as int, d as int),
                            );
                            assert(iv_fold(
                                tree.nodes@,
                                target@,
                                cursor_row as int,
                                stepped,
                                Seq::<(int, int)>::empty(),
                            ) == stepped);
                            assert(iv_fold(
                                tree.nodes@,
                                target@,
                                cursor_row as int,
                                st_now,
                                seq![(t as int, d as int)],
                            ) == stepped);
                        }
                        let matched = find_identifier_in_decl(tree, d, target)
                            && nodes[d].start_row <= cursor_row && (!seen
                            || nodes[d].start_row >= best_row);
                        if matched {
                            let tt = trim_vec(&nodes[t].text);
                            if eq_chars_lit(&tt, "auto") {
                                best = infer_from_assignment(tree, target, cursor_row);
                            } else {
                                best = Some(extract_clean_type(&tt));
                            }
                            seen = true;
                            best_row = nodes[d].start_row;
                        }
                    } else {
                        proof {
                            assert(node_cands_from(tree.nodes@, i as int, t as int, j as int)
                                == node_cands_from(tree.nodes@, i as int, t as int, j as int + 1));
                        }
                    }
                    j += 1;
                }
                proof {
                    assert(node_cands(tree.nodes@, i as int) == node_cands_from(
                        tree.nodes@,
                        i as int,
                        t as int,
                        0,
                    ));
                    assert(cands_from(tree.nodes@, i as int) == node_cands(tree.nodes@, i as int)
                        + cands_from(tree.nodes@, i as int + 1));
                    lemma_iv_fold_add(
                        tree.nodes@,
                        target@,
                        cursor_row as int,
                        st_entry,
                        node_cands(tree.nodes@, i as int),
                        cands_from(tree.nodes@, i as int + 1),
                    );
                }
            },
            None => {
                proof {
                    assert(node_cands(tree.nodes@, i as int) =~= Seq::<(int, int)>::empty());
                    assert(node_cands(tree.nodes@, i as int) + cands_from(
                        tree.nodes@,
                        i as int + 1,
                    ) =~= cands_from(tree.nodes@, i as int + 1));
                }
            },
        }
        i += 1;
    }
    if seen {
        best
    } else {
        infer_from_assignment(tree, target, cursor_row)
    }
}

} // verus!
