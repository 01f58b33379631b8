use vstd::prelude::*;
use crate::chars::str_to_chars;
use crate::db::{ClassRow, MemberRow, InheritRow, EnumValueRow, SymbolDb, CompletionItem, item_wf,
    items_view};
use crate::tree::{NodeKind, FieldLabel, NodeData, SyntaxTree, tree_wf, node_ok};
use crate::resolve::complete;

verus! {

// ---------------------------------------------------------------------------
// Declarations of the outside types this library works with.
// ---------------------------------------------------------------------------
#[verifier::external_type_specification]
#[verifier::external_body]
pub struct ExConnection(rusqlite::Connection);

#[verifier::external_type_specification]
#[verifier::external_body]
pub struct ExSqlError(rusqlite::Error);

#[verifier::external_type_specification]
#[verifier::external_body]
pub struct ExLanguage(tree_sitter::Language);

#[verifier::external_type_specification]
#[verifier::external_body]
pub struct ExParser(tree_sitter::Parser);

#[verifier::external_type_specification]
#[verifier::external_body]
pub struct ExTree(tree_sitter::Tree);

#[verifier::external_type_specification]
#[verifier::external_body]
pub struct ExNode<'a>(tree_sitter::Node<'a>);

/// What went wrong on a request that cannot produce items.
#[derive(PartialEq, Eq, Structural, Clone, Copy, Debug)]
pub enum CompletionError {
    ParserUnavailable,
    ParseFailed,
    Db,
}

// ---------------------------------------------------------------------------
// Symbol-database loading. What the store holds depends on the file behind
// the connection, so nothing is promised of the rows; the resolver is
// verified for every value they may take.
// ---------------------------------------------------------------------------
/// Relies on rusqlite's `Connection::prepare` and `Statement::query_map` to
/// read the `classes` table; a NULL or missing `base_class` becomes empty.
#[verifier::external_body]
fn load_classes(conn: &rusqlite::Connection) -> Result<Vec<ClassRow>, rusqlite::Error> {
    let mut stmt = conn.prepare("SELECT id, name, symbol_type, base_class FROM classes")?;
    let rows = stmt.query_map([], |r| {
        Ok(ClassRow {
            id: r.get(0)?,
            name: r.get::<_, String>(1)?.chars().collect(),
            symbol_type: r.get::<_, String>(2)?.chars().collect(),
            base_class: r.get::<_, Option<String>>(3)?.unwrap_or_default().chars().collect(),
        })
    })?;
    rows.collect()
}

/// Relies on rusqlite's `Connection::prepare` and `Statement::query_map` to
/// read the columns of `members` the resolver uses.
#[verifier::external_body]
fn load_members(conn: &rusqlite::Connection) -> Result<Vec<MemberRow>, rusqlite::Error> {
    let mut stmt = conn.prepare("SELECT class_id, name, type, return_type, detail FROM members")?;
    let rows = stmt.query_map([], |r| {
        Ok(MemberRow {
            class_id: r.get(0)?,
            name: r.get::<_, String>(1)?.chars().collect(),
            mtype: r.get::<_, String>(2)?.chars().collect(),
            return_type: r.get::<_, Option<String>>(3)?.map(|s| s.chars().collect()),
            detail: r.get::<_, Option<String>>(4)?.map(|s| s.chars().collect()),
        })
    })?;
    rows.collect()
}

/// Relies on rusqlite's `Connection::prepare` and `Statement::query_map` to
/// read the `inheritance` edges.
#[verifier::external_body]
fn load_inheritance(conn: &rusqlite::Connection) -> Result<Vec<InheritRow>, rusqlite::Error> {
    let mut stmt = conn.prepare("SELECT child_id, parent_name FROM inheritance")?;
    let rows = stmt.query_map([], |r| {
        Ok(InheritRow { child_id: r.get(0)?, parent_name: r.get::<_, String>(1)?.chars().collect() })
    })?;
    rows.collect()
}

/// Relies on rusqlite's `Connection::prepare` and `Statement::query_map` to
/// read the `enum_values` table.
#[verifier::external_body]
fn load_enum_values(conn: &rusqlite::Connection) -> Result<Vec<EnumValueRow>, rusqlite::Error> {
    let mut stmt = conn.prepare("SELECT enum_id, name FROM enum_values")?;
    let rows = stmt.query_map([], |r| {
        Ok(EnumValueRow { enum_id: r.get(0)?, name: r.get::<_, String>(1)?.chars().collect() })
    })?;
    rows.collect()
}

/// Loads the whole symbol store behind a connection into plain values.
pub fn load_symbol_db(conn: &rusqlite::Connection) -> Result<SymbolDb, CompletionError> {
    let classes = match load_classes(conn) {
        Ok(v) => v,
        Err(_) => {
            return Err(CompletionError::Db);
        },
    };
    let members = match load_members(conn) {
        Ok(v) => v,
        Err(_) => {
            return Err(CompletionError::Db);
        },
    };
    let inheritance = match load_inheritance(conn) {
        Ok(v) => v,
        Err(_) => {
            return Err(CompletionError::Db);
        },
    };
    let enum_values = match load_enum_values(conn) {
        Ok(v) => v,
        Err(_) => {
            return Err(CompletionError::Db);
        },
    };
    Ok(SymbolDb { classes, members, inheritance, enum_values })
}

// ---------------------------------------------------------------------------
// Parsing. The grammar is handed in by the host; what the parser returns
// depends on it, so the wrappers promise nothing and the arena built from
// the nodes is checked to be well formed by construction.
// ---------------------------------------------------------------------------
/// Relies on tree_sitter's `Parser::new`.
#[verifier::external_body]
fn ts_new_parser() -> tree_sitter::Parser {
    tree_sitter::Parser::new()
}

/// Relies on tree_sitter's `Parser::set_language`: true exactly on success.
#[verifier::external_body]
fn ts_set_language(p: &mut tree_sitter::Parser, language: &tree_sitter::Language) -> bool {
    p.set_language(language).is_ok()
}

/// Relies on tree_sitter's `Parser::parse` over the source bytes.
#[verifier::external_body]
fn ts_parse(p: &mut tree_sitter::Parser, content: &str) -> Option<tree_sitter::Tree> {
    p.parse(content, None)
}

/// Relies on tree_sitter's `Tree::root_node`.
#[verifier::external_body]
fn ts_root_node<'t>(t: &'t tree_sitter::Tree) -> tree_sitter::Node<'t> {
    t.root_node()
}

/// Relies on tree_sitter's `Node::kind`.
#[verifier::external_body]
fn ts_kind(n: &tree_sitter::Node) -> String {
    n.kind().to_string()
}

/// Relies on tree_sitter's `Node::child_count`.
#[verifier::external_body]
fn ts_child_count(n: &tree_sitter::Node) -> u32 {
    n.child_count()
}

/// The number of nodes in the subtree under a parse node. Trees are finite
/// and a child's subtree is a strict part of its parent's, which grounds the
/// termination of the walk below.
pub uninterp spec fn node_extent(n: tree_sitter::Node) -> nat;

/// Relies on tree_sitter's `Node::child`: a child subtree is strictly
/// smaller than its parent's.
#[verifier::external_body]
fn ts_child<'t>(n: &tree_sitter::Node<'t>, i: u32) -> (r: Option<tree_sitter::Node<'t>>)
    ensures
        match r {
            Some(c) => node_extent(c) < node_extent(*n),
            None => true,
        },
{
    n.child(i)
}

/// Relies on tree_sitter's `Node::field_name_for_child`.
#[verifier::external_body]
fn ts_field_name_for_child(n: &tree_sitter::Node, i: u32) -> Option<String> {
    n.field_name_for_child(i).map(|s| s.to_string())
}

/// Relies on tree_sitter's `Node::start_position`; the pair is (row, column).
#[verifier::external_body]
fn ts_start_position(n: &tree_sitter::Node) -> (usize, usize) {
    let p = n.start_position();
    (p.row, p.column)
}

/// Relies on tree_sitter's `Node::end_position`; the pair is (row, column).
#[verifier::external_body]
fn ts_end_position(n: &tree_sitter::Node) -> (usize, usize) {
    let p = n.end_position();
    (p.row, p.column)
}

/// Relies on tree_sitter's `Node::byte_range` and `str::get`: the node's
/// source text, empty when the range is out of bounds or splits a character.
#[verifier::external_body]
fn ts_text(n: &tree_sitter::Node, content: &str) -> Vec<char> {
    content.get(n.byte_range()).unwrap_or("").chars().collect()
}

/// The grammar's node-kind names, mapped onto the kinds the resolver reads.
pub open spec fn spec_kind_of(s: Seq<char>) -> NodeKind {
    if s == "."@ {
        NodeKind::Dot
    } else if s == "->"@ {
        NodeKind::Arrow
    } else if s == "::"@ {
        NodeKind::ColonColon
    } else if s == ":"@ {
        NodeKind::Colon
    } else if s == "identifier"@ {
        NodeKind::Identifier
    } else if s == "type_identifier"@ {
        NodeKind::TypeIdentifier
    } else if s == "field_identifier"@ {
        NodeKind::FieldIdentifier
    } else if s == "namespace_identifier"@ {
        NodeKind::NamespaceIdentifier
    } else if s == "scoped_type_identifier"@ {
        NodeKind::ScopedTypeIdentifier
    } else if s == "this"@ {
        NodeKind::This
    } else if s == "field_expression"@ {
        NodeKind::FieldExpression
    } else if s == "qualified_identifier"@ {
        NodeKind::QualifiedIdentifier
    } else if s == "call_expression"@ {
        NodeKind::CallExpression
    } else if s == "declaration"@ {
        NodeKind::Declaration
    } else if s == "parameter_declaration"@ {
        NodeKind::ParameterDeclaration
    } else if s == "for_range_loop"@ {
        NodeKind::ForRangeLoop
    } else if s == "init_declarator"@ {
        NodeKind::InitDeclarator
    } else if s == "assignment_expression"@ {
        NodeKind::AssignmentExpression
    } else if s == "function_definition"@ {
        NodeKind::FunctionDefinition
    } else if s == "class_specifier"@ {
        NodeKind::ClassSpecifier
    } else if s == "struct_specifier"@ {
        NodeKind::StructSpecifier
    } else if s == "unreal_class_declaration"@ {
        NodeKind::UnrealClassDeclaration
    } else if s == "unreal_struct_declaration"@ {
        NodeKind::UnrealStructDeclaration
    } else if s == "ERROR"@ {
        NodeKind::Error
    } else if s == "comment"@ {
        NodeKind::Comment
    } else if s == " "@ || s == "\n"@ || s == "\r"@ {
        NodeKind::Whitespace
    } else {
        NodeKind::Other
    }
}

pub fn kind_of(v: &Vec<char>) -> (r: NodeKind)
    ensures
        r == spec_kind_of(v@),
{
    if crate::chars::eq_chars_lit(v, ".") {
        NodeKind::Dot
    } else if crate::chars::eq_chars_lit(v, "->") {
        NodeKind::Arrow
    } else if crate::chars::eq_chars_lit(v, "::") {
        NodeKind::ColonColon
    } else if crate::chars::eq_chars_lit(v, ":") {
        NodeKind::Colon
    } else if crate::chars::eq_chars_lit(v, "identifier") {
        NodeKind::Identifier
    } else if crate::chars::eq_chars_lit(v, "type_identifier") {
        NodeKind::TypeIdentifier
    } else if crate::chars::eq_chars_lit(v, "field_identifier") {
        NodeKind::FieldIdentifier
    } else if crate::chars::eq_chars_lit(v, "namespace_identifier") {
        NodeKind::NamespaceIdentifier
    } else if crate::chars::eq_chars_lit(v, "scoped_type_identifier") {
        NodeKind::ScopedTypeIdentifier
    } else if crate::chars::eq_chars_lit(v, "this") {
        NodeKind::This
    } else if crate::chars::eq_chars_lit(v, "field_expression") {
        NodeKind::FieldExpression
    } else if crate::chars::eq_chars_lit(v, "qualified_identifier") {
        NodeKind::QualifiedIdentifier
    } else if crate::chars::eq_chars_lit(v, "call_expression") {
        NodeKind::CallExpression
    } else if crate::chars::eq_chars_lit(v, "declaration") {
        NodeKind::Declaration
    } else if crate::chars::eq_chars_lit(v, "parameter_declaration") {
        NodeKind::ParameterDeclaration
    } else if crate::chars::eq_chars_lit(v, "for_range_loop") {
        NodeKind::ForRangeLoop
    } else if crate::chars::eq_chars_lit(v, "init_declarator") {
        NodeKind::InitDeclarator
    } else if crate::chars::eq_chars_lit(v, "assignment_expression") {
        NodeKind::AssignmentExpression
    } else if crate::chars::eq_chars_lit(v, "function_definition") {
        NodeKind::FunctionDefinition
    } else if crate::chars::eq_chars_lit(v, "class_specifier") {
        NodeKind::ClassSpecifier
    } else if crate::chars::eq_chars_lit(v, "struct_specifier") {
        NodeKind::StructSpecifier
    } else if crate::chars::eq_chars_lit(v, "unreal_class_declaration") {
        NodeKind::UnrealClassDeclaration
    } else if crate::chars::eq_chars_lit(v, "unreal_struct_declaration") {
        NodeKind::UnrealStructDeclaration
    } else if crate::chars::eq_chars_lit(v, "ERROR") {
        NodeKind::Error
    } else if crate::chars::eq_chars_lit(v, "comment") {
        NodeKind::Comment
    } else if crate::chars::eq_chars_lit(v, " ") || crate::chars::eq_chars_lit(v, "\n")
        || crate::chars::eq_chars_lit(v, "\r") {
        NodeKind::Whitespace
    } else {
        NodeKind::Other
    }
}

/// The grammar's field names, mapped onto the fields the resolver reads.
pub open spec fn spec_field_of(s: Option<Seq<char>>) -> FieldLabel {
    match s {
        None => FieldLabel::FNone,
        Some(s) => {
            if s == "type"@ {
                FieldLabel::FType
            } else if s == "declarator"@ {
                FieldLabel::FDeclarator
            } else if s == "argument"@ {
                FieldLabel::FArgument
            } else if s == "scope"@ {
                FieldLabel::FScope
            } else if s == "name"@ {
                FieldLabel::FName
            } else if s == "function"@ {
                FieldLabel::FFunction
            } else if s == "field"@ {
                FieldLabel::FField
            } else if s == "value"@ {
                FieldLabel::FValue
            } else if s == "left"@ {
                FieldLabel::FLeft
            } else if s == "right"@ {
                FieldLabel::FRight
            } else {
                FieldLabel::FNone
            }
        },
    }
}

pub fn field_of(v: &Option<Vec<char>>) -> (r: FieldLabel)
    ensures
        r == spec_field_of(match *v {
            Some(ref s) => Some(s@),
            None => None,
        }),
{
    match v {
        None => FieldLabel::FNone,
        Some(s) => {
            if crate::chars::eq_chars_lit(s, "type") {
                FieldLabel::FType
            } else if crate::chars::eq_chars_lit(s, "declarator") {
                FieldLabel::FDeclarator
            } else if crate::chars::eq_chars_lit(s, "argument") {
                FieldLabel::FArgument
            } else if crate::chars::eq_chars_lit(s, "scope") {
                FieldLabel::FScope
            } else if crate::chars::eq_chars_lit(s, "name") {
                FieldLabel::FName
            } else if crate::chars::eq_chars_lit(s, "function") {
                FieldLabel::FFunction
            } else if crate::chars::eq_chars_lit(s, "field") {
                FieldLabel::FField
            } else if crate::chars::eq_chars_lit(s, "value") {
                FieldLabel::FValue
            } else if crate::chars::eq_chars_lit(s, "left") {
                FieldLabel::FLeft
            } else if crate::chars::eq_chars_lit(s, "right") {
                FieldLabel::FRight
            } else {
                FieldLabel::FNone
            }
        },
    }
}

// A node drawn from the parser before its children are known.
struct RawNode {
    kind: NodeKind,
    text: Vec<char>,
    start_row: usize,
    start_col: usize,
    end_row: usize,
    end_col: usize,
    parent: Option<usize>,
    field: FieldLabel,
}

spec fn raw_wf(raw: Seq<RawNode>) -> bool {
    forall|j: int|
        0 <= j < raw.len() ==> (match (#[trigger] raw[j]).parent {
            Some(p) => p < j,
            None => true,
        })
}

/// Children of `i` among the first `j` raw nodes, in index order.
spec fn children_of_upto(raw: Seq<RawNode>, i: int, j: int) -> Seq<usize>
    decreases j,
{
    if j <= 0 {
        Seq::empty()
    } else {
        children_of_upto(raw, i, j - 1) + if raw[j - 1].parent == Some(i as usize) && i >= 0 {
            seq![(j - 1) as usize]
        } else {
            Seq::empty()
        }
    }
}

#[verifier::rlimit(100)]
proof fn lemma_children_of_props(raw: Seq<RawNode>, i: int, j: int)
    requires
        0 <= j <= raw.len(),
        raw.len() <= usize::MAX,
    ensures
        forall|q: int|
            0 <= q < children_of_upto(raw, i, j).len() ==> (#[trigger] children_of_upto(
                raw,
                i,
                j,
            )[q]) < j && raw[children_of_upto(raw, i, j)[q] as int].parent == Some(i as usize) && i
                >= 0,
        forall|q: int|
            0 <= q && q + 1 < children_of_upto(raw, i, j).len() ==> #[trigger] children_of_upto(
                raw,
                i,
                j,
            )[q] < children_of_upto(raw, i, j)[q + 1],
        forall|c: int|
            0 <= c < j && raw[c].parent == Some(i as usize) && i >= 0
                ==> children_of_upto(raw, i, j).contains(c as usize),
    decreases j,
{
    if j > 0 {
        lemma_children_of_props(raw, i, j - 1);
        let s1 = children_of_upto(raw, i, j - 1);
        let s = children_of_upto(raw, i, j);
        assert forall|q: int|
            0 <= q < s.len() implies (#[trigger] s[q]) < j && raw[s[q] as int].parent == Some(
            i as usize,
        ) && i >= 0 by {
            if q < s1.len() {
                assert(s[q] == s1[q]);
                assert(raw[children_of_upto(raw, i, j - 1)[q] as int].parent == Some(i as usize));
                assert(s[q] as int == children_of_upto(raw, i, j - 1)[q] as int);
                assert(raw[s[q] as int].parent == Some(i as usize));
            } else {
                assert(s.len() > s1.len());
                assert(raw[j - 1].parent == Some(i as usize) && i >= 0);
                assert(q == s1.len());
                assert(s[q] == (j - 1) as usize);
                assert(raw[s[q] as int].parent == Some(i as usize));
            }
        }
        assert forall|q: int| 0 <= q && q + 1 < s.len() implies #[trigger] s[q] < s[q + 1] by {
            if q + 1 < s1.len() {
                assert(s[q] == s1[q] && s[q + 1] == s1[q + 1]);
            } else {
                assert(q + 1 == s1.len());
                assert(s.len() > s1.len());
                assert(s[q] == s1[q]);
                assert(s[q + 1] == (j - 1) as usize);
                assert(s1[q] < j - 1);
            }
        }
        assert forall|c: int|
            0 <= c < j && raw[c].parent == Some(i as usize) && i >= 0 implies children_of_upto(
            raw,
            i,
            j,
        ).contains(c as usize) by {
            if c < j - 1 {
                assert(s1.contains(c as usize));
                let q = choose|q: int| 0 <= q < s1.len() && s1[q] == c as usize;
                assert(children_of_upto(raw, i, j)[q] == c as usize);
            } else {
                assert(children_of_upto(raw, i, j)[s1.len() as int] == c as usize);
            }
        }
    }
}

/// Pulls one parse node and, recursively, its subtree into the raw arena, in
/// document order; parents land before their children.
fn build_raw<'t>(
    nd: tree_sitter::Node<'t>,
    parent: Option<usize>,
    field: FieldLabel,
    content: &str,
    raw: &mut Vec<RawNode>,
)
    requires
        raw_wf(old(raw)@),
        match parent {
            Some(p) => p < old(raw)@.len(),
            None => true,
        },
    ensures
        raw_wf(final(raw)@),
        final(raw)@.len() > old(raw)@.len(),
        forall|q: int| 0 <= q < old(raw)@.len() ==> final(raw)@[q] == old(raw)@[q],
        final(raw)@[old(raw)@.len() as int].parent == parent,
    decreases node_extent(nd),
{
    let idx = raw.len();
    let kind_chars = str_to_chars(ts_kind(&nd).as_str());
    let (start_row, start_col) = ts_start_position(&nd);
    let (end_row, end_col) = ts_end_position(&nd);
    raw.push(
        RawNode {
            kind: kind_of(&kind_chars),
            text: ts_text(&nd, content),
            start_row,
            start_col,
            end_row,
            end_col,
            parent,
            field,
        },
    );
    let count = ts_child_count(&nd);
    let mut k: u32 = 0;
    while k < count
        invariant
            raw_wf(raw@),
            idx < raw@.len(),
            idx == old(raw)@.len(),
            forall|q: int| 0 <= q < old(raw)@.len() ==> raw@[q] == old(raw)@[q],
            raw@[idx as int].parent == parent,
        decreases count - k,
    {
        match ts_child(&nd, k) {
            Some(c) => {
                let fname = ts_field_name_for_child(&nd, k);
                let fchars = match fname {
                    Some(s) => Some(str_to_chars(s.as_str())),
                    None => None,
                };
                let f = field_of(&fchars);
                build_raw(c, Some(idx), f, content, raw);
            },
            None => {},
        }
        k = k + 1;
    }
}

/// Builds the flat arena from a parsed tree's root node, visiting the nodes
/// in document order: the result is well formed by construction, nonempty,
/// and rooted at index zero. What each node's kind, text, span and field
/// hold of the parse rests on the node wrappers above — they are this
/// crate's trusted boundary; the structural assembly below is verified.
pub fn build_tree<'t>(root: tree_sitter::Node<'t>, content: &str) -> (r: SyntaxTree)
    ensures
        r.wf(),
        r.nodes@.len() > 0,
        r.nodes@[0].parent is None,
{
    // first pass: pull every node out of the parser, parents before children
    let mut raw: Vec<RawNode> = Vec::new();
    build_raw(root, None, FieldLabel::FNone, content, &mut raw);
    // second pass: collect each node's children from the parent links
    let n = raw.len();
    let mut nodes: Vec<NodeData> = Vec::new();
    let mut i: usize = 0;
    while i < n
        invariant
            i <= n,
            raw@.len() == n,
            raw_wf(raw@),
            nodes@.len() == i,
            forall|q: int|
                0 <= q < i ==> {
                    let nd = #[trigger] nodes@[q];
                    nd.parent == raw@[q].parent && nd.children@ == children_of_upto(
                        raw@,
                        q,
                        n as int,
                    )
                },
        decreases n - i,
    {
        let mut children: Vec<usize> = Vec::new();
        let mut j: usize = 0;
        while j < n
            invariant
                j <= n,
                raw@.len() == n,
                i < n,
                children@ =~= children_of_upto(raw@, i as int, j as int),
            decreases n - j,
        {
            let is_child = match raw[j].parent {
                Some(p) => p == i,
                None => false,
            };
            if is_child {
                children.push(j);
            }
            proof {
                assert(children@ =~= children_of_upto(raw@, i as int, j as int + 1));
            }
            j += 1;
        }
        let rn = &raw[i];
        let text = crate::chars::clone_chars(&rn.text);
        nodes.push(
            NodeData {
                kind: rn.kind,
                text,
                start_row: rn.start_row,
                start_col: rn.start_col,
                end_row: rn.end_row,
                end_col: rn.end_col,
                parent: rn.parent,
                children,
                field: rn.field,
            },
        );
        i += 1;
    }
    proof {
        assert forall|q: int| 0 <= q < nodes@.len() implies #[trigger] node_ok(nodes@, q) by {
            lemma_children_of_props(raw@, q, n as int);
            match nodes@[q].parent {
                Some(p) => {
                    assert(raw@[q].parent == Some(p));
                    assert(p < q);
                    lemma_children_of_props(raw@, p as int, n as int);
                    assert(children_of_upto(raw@, p as int, n as int).contains(q as usize));
                },
                None => {},
            }
            assert forall|k: int| 0 <= k < nodes@[q].children@.len() implies q
                < #[trigger] nodes@[q].children@[k] < nodes@.len() && nodes@[nodes@[q].children@[k] as int].parent
                == Some(q as usize) by {
                let c = nodes@[q].children@[k];
                assert(raw@[c as int].parent == Some(q as usize));
            }
        }
    }
    SyntaxTree { nodes }
}

// ---------------------------------------------------------------------------
// The resolver's outermost entry: parse with the host's grammar, load the
// store, and complete.
// ---------------------------------------------------------------------------
/// Serves one completion request. The grammar decides the tree and the disk
/// decides the store, so the contract promises the response's shape: every
/// item of an `Ok` answer carries one of the four LSP kind codes and inserts
/// exactly its label. `file_path` is accepted and ignored.
pub fn process_completion(
    conn: &rusqlite::Connection,
    language: &tree_sitter::Language,
    content: &str,
    line: u32,
    character: u32,
    _file_path: Option<String>,
) -> (r: Result<Vec<CompletionItem>, CompletionError>)
    ensures
        match r {
            Ok(items) => forall|i: int|
                0 <= i < items@.len() ==> item_wf(#[trigger] items_view(items@)[i]),
            Err(_) => true,
        },
{
    let mut parser = ts_new_parser();
    if !ts_set_language(&mut parser, language) {
        return Err(CompletionError::ParserUnavailable);
    }
    let ts_tree = match ts_parse(&mut parser, content) {
        Some(t) => t,
        None => {
            return Err(CompletionError::ParseFailed);
        },
    };
    let root = ts_root_node(&ts_tree);
    let tree = build_tree(root, content);
    // a cursor that misses every node answers empty before the store is read
    if crate::tree::node_at_point(&tree, line as usize, character as usize).is_none() {
        return Ok(Vec::new());
    }
    // the whole store is read at once; the resolver below queries the rows
    let db = match load_symbol_db(conn) {
        Ok(db) => db,
        Err(e) => {
            return Err(e);
        },
    };
    let items = complete(&db, &tree, line as usize, character as usize);
    Ok(items)
}

} // verus!
