use vstd::prelude::*;
use crate::chars::{spec_eq_ci, eq_ci, eq_chars, eq_chars_lit, clone_chars};
use crate::clean::{spec_clean, extract_clean_type};

verus! {

// ---------------------------------------------------------------------------
// The symbol database, loaded as plain values. The resolver only reads it.
// ---------------------------------------------------------------------------
/// One row of `classes`: a class, struct, enum or typedef. An absent
/// `base_class` is stored as the empty string; the resolver treats the two
/// alike.
pub struct ClassRow {
    pub id: i64,
    pub name: Vec<char>,
    pub symbol_type: Vec<char>,
    pub base_class: Vec<char>,
}

/// One row of `members`, restricted to the columns the resolver reads.
/// `return_type` and `detail` are nullable in the store.
pub struct MemberRow {
    pub class_id: i64,
    pub name: Vec<char>,
    pub mtype: Vec<char>,
    pub return_type: Option<Vec<char>>,
    pub detail: Option<Vec<char>>,
}

/// One row of `inheritance`: an edge from a class id to a parent, by name.
pub struct InheritRow {
    pub child_id: i64,
    pub parent_name: Vec<char>,
}

/// One row of `enum_values`.
pub struct EnumValueRow {
    pub enum_id: i64,
    pub name: Vec<char>,
}

pub struct SymbolDb {
    pub classes: Vec<ClassRow>,
    pub members: Vec<MemberRow>,
    pub inheritance: Vec<InheritRow>,
    pub enum_values: Vec<EnumValueRow>,
}

/// One completion item, in the shape the host serializes: `kind` is the LSP
/// CompletionItemKind code and `insert_text` always equals `label`.
pub struct CompletionItem {
    pub label: Vec<char>,
    pub kind: i64,
    pub detail: Vec<char>,
    pub documentation: Vec<char>,
    pub insert_text: Vec<char>,
}

/// The mathematical shadow of a completion item.
pub struct ItemView {
    pub label: Seq<char>,
    pub kind: i64,
    pub detail: Seq<char>,
    pub documentation: Seq<char>,
    pub insert_text: Seq<char>,
}

impl View for CompletionItem {
    type V = ItemView;

    open spec fn view(&self) -> ItemView {
        ItemView {
            label: self.label@,
            kind: self.kind,
            detail: self.detail@,
            documentation: self.documentation@,
            insert_text: self.insert_text@,
        }
    }
}

pub open spec fn items_view(v: Seq<CompletionItem>) -> Seq<ItemView> {
    v.map_values(|it: CompletionItem| it@)
}

/// Maps a member's recorded type string onto the LSP completion-item kind code.
pub open spec fn spec_map_kind(k: Seq<char>) -> i64 {
    if k == "function"@ {
        2
    } else if k == "variable"@ || k == "property"@ {
        5
    } else if k == "enum_item"@ {
        20
    } else {
        1
    }
}

pub fn map_kind(k: &Vec<char>) -> (r: i64)
    ensures
        r == spec_map_kind(k@),
{
    if eq_chars_lit(k, "function") {
        2
    } else if eq_chars_lit(k, "variable") || eq_chars_lit(k, "property") {
        5
    } else if eq_chars_lit(k, "enum_item") {
        20
    } else {
        1
    }
}

/// Every kind code this library emits is one of the four LSP codes.
pub open spec fn valid_kind(k: i64) -> bool {
    k == 1 || k == 2 || k == 5 || k == 20
}

// ---------------------------------------------------------------------------
// Class selection: case-insensitive match, preferring the row with the most
// members, and the earliest row on ties.
// ---------------------------------------------------------------------------
pub open spec fn count_members_upto(db: SymbolDb, id: i64, n: int) -> int
    decreases n,
{
    if n <= 0 {
        0
    } else {
        count_members_upto(db, id, n - 1) + if db.members@[n - 1].class_id == id {
            1int
        } else {
            0int
        }
    }
}

pub open spec fn count_members(db: SymbolDb, id: i64) -> int {
    count_members_upto(db, id, db.members@.len() as int)
}

pub fn count_members_exec(db: &SymbolDb, id: i64) -> (r: usize)
    ensures
        r == count_members(*db, id),
{
    let n = db.members.len();
    let mut r: usize = 0;
    let mut i: usize = 0;
    while i < n
        invariant
            i <= n,
            db.members@.len() == n,
            r == count_members_upto(*db, id, i as int),
            r <= i,
        decreases n - i,
    {
        if db.members[i].class_id == id {
            r += 1;
        }
        i += 1;
    }
    r
}

/// Index of the best `classes` row for `name` among the first `n` rows:
/// the earliest row with the greatest member count among case-insensitive
/// matches.
pub open spec fn best_class_upto(db: SymbolDb, name: Seq<char>, n: int) -> Option<int>
    decreases n,
{
    if n <= 0 {
        None
    } else {
        let prev = best_class_upto(db, name, n - 1);
        if !spec_eq_ci(db.classes@[n - 1].name@, name) {
            prev
        } else {
            match prev {
                None => Some(n - 1),
                Some(k) => if count_members(db, db.classes@[n - 1].id) > count_members(
                    db,
                    db.classes@[k].id,
                ) {
                    Some(n - 1)
                } else {
                    Some(k)
                },
            }
        }
    }
}

pub open spec fn best_class(db: SymbolDb, name: Seq<char>) -> Option<int> {
    best_class_upto(db, name, db.classes@.len() as int)
}

pub fn best_class_exec(db: &SymbolDb, name: &Vec<char>) -> (r: Option<usize>)
    ensures
        match r {
            Some(k) => best_class(*db, name@) == Some(k as int) && k < db.classes@.len(),
            None => best_class(*db, name@) is None,
        },
{
    let n = db.classes.len();
    let mut best: Option<usize> = None;
    let mut best_count: usize = 0;
    let mut i: usize = 0;
    while i < n
        invariant
            i <= n,
            db.classes@.len() == n,
            match best {
                Some(k) => best_class_upto(*db, name@, i as int) == Some(k as int) && k < i
                    && best_count == count_members(*db, db.classes@[k as int].id),
                None => best_class_upto(*db, name@, i as int) is None,
            },
        decreases n - i,
    {
        if eq_ci(&db.classes[i].name, name) {
            let c = count_members_exec(db, db.classes[i].id);
            match best {
                None => {
                    best = Some(i);
                    best_count = c;
                },
                Some(_) => {
                    if c > best_count {
                        best = Some(i);
                        best_count = c;
                    }
                },
            }
        }
        i += 1;
    }
    best
}

// ---------------------------------------------------------------------------
// Items of one class id: its member rows, then its enum values, in row order.
// The `detail` of a member item is the cleaned declared type; the
// documentation is the row's free-text detail column.
// ---------------------------------------------------------------------------
pub open spec fn opt_chars(v: Option<Vec<char>>) -> Seq<char> {
    match v {
        Some(s) => s@,
        None => Seq::empty(),
    }
}

pub open spec fn member_item_view(m: MemberRow) -> ItemView {
    ItemView {
        label: m.name@,
        kind: spec_map_kind(m.mtype@),
        detail: spec_clean(opt_chars(m.return_type)),
        documentation: opt_chars(m.detail),
        insert_text: m.name@,
    }
}

pub open spec fn enum_item_view(e: EnumValueRow) -> ItemView {
    ItemView {
        label: e.name@,
        kind: 20,
        detail: "enum item"@,
        documentation: Seq::empty(),
        insert_text: e.name@,
    }
}

pub open spec fn member_items_upto(db: SymbolDb, id: i64, n: int) -> Seq<ItemView>
    decreases n,
{
    if n <= 0 {
        Seq::empty()
    } else {
        member_items_upto(db, id, n - 1) + if db.members@[n - 1].class_id == id {
            seq![member_item_view(db.members@[n - 1])]
        } else {
            Seq::empty()
        }
    }
}

pub open spec fn enum_items_upto(db: SymbolDb, id: i64, n: int) -> Seq<ItemView>
    decreases n,
{
    if n <= 0 {
        Seq::empty()
    } else {
        enum_items_upto(db, id, n - 1) + if db.enum_values@[n - 1].enum_id == id {
            seq![enum_item_view(db.enum_values@[n - 1])]
        } else {
            Seq::empty()
        }
    }
}

/// All items of one class id, members first, then enum values.
pub open spec fn items_of(db: SymbolDb, id: i64) -> Seq<ItemView> {
    member_items_upto(db, id, db.members@.len() as int) + enum_items_upto(
        db,
        id,
        db.enum_values@.len() as int,
    )
}

fn opt_chars_exec(v: &Option<Vec<char>>) -> (r: Vec<char>)
    ensures
        r@ == opt_chars(*v),
{
    match v {
        Some(s) => clone_chars(s),
        None => Vec::new(),
    }
}

fn member_item_exec(m: &MemberRow) -> (it: CompletionItem)
    ensures
        it@ == member_item_view(*m),
{
    let raw = opt_chars_exec(&m.return_type);
    CompletionItem {
        label: clone_chars(&m.name),
        kind: map_kind(&m.mtype),
        detail: extract_clean_type(&raw),
        documentation: opt_chars_exec(&m.detail),
        insert_text: clone_chars(&m.name),
    }
}

fn enum_item_exec(e: &EnumValueRow) -> (it: CompletionItem)
    ensures
        it@ == enum_item_view(*e),
{
    let mut detail: Vec<char> = Vec::new();
    detail.push('e');
    detail.push('n');
    detail.push('u');
    detail.push('m');
    detail.push(' ');
    detail.push('i');
    detail.push('t');
    detail.push('e');
    detail.push('m');
    proof {
        reveal_strlit("enum item");
        assert(detail@ =~= "enum item"@);
    }
    CompletionItem {
        label: clone_chars(&e.name),
        kind: 20,
        detail,
        documentation: Vec::new(),
        insert_text: clone_chars(&e.name),
    }
}

proof fn lemma_items_view_push(s: Seq<CompletionItem>, it: CompletionItem)
    ensures
        items_view(s.push(it)) =~= items_view(s).push(it@),
{
    assert forall|i: int| 0 <= i < s.len() + 1 implies items_view(s.push(it))[i] == items_view(
        s,
    ).push(it@)[i] by {
        if i < s.len() {
            assert(s.push(it)[i] == s[i]);
        }
    }
}

/// Appends the items of class `id` onto `out`.
fn push_items_of(db: &SymbolDb, id: i64, out: &mut Vec<CompletionItem>)
    ensures
        items_view(final(out)@) == items_view(old(out)@) + items_of(*db, id),
{
    let nm = db.members.len();
    let mut i: usize = 0;
    while i < nm
        invariant
            i <= nm,
            db.members@.len() == nm,
            items_view(out@) =~= items_view(old(out)@) + member_items_upto(*db, id, i as int),
        decreases nm - i,
    {
        if db.members[i].class_id == id {
            let it = member_item_exec(&db.members[i]);
            let ghost prev = out@;
            out.push(it);
            proof {
                lemma_items_view_push(prev, it);
            }
        }
        proof {
            assert(items_view(out@) =~= items_view(old(out)@) + member_items_upto(
                *db,
                id,
                i as int + 1,
            ));
        }
        i += 1;
    }
    let ne = db.enum_values.len();
    let mut j: usize = 0;
    while j < ne
        invariant
            j <= ne,
            db.enum_values@.len() == ne,
            items_view(out@) =~= items_view(old(out)@) + member_items_upto(
                *db,
                id,
                db.members@.len() as int,
            ) + enum_items_upto(*db, id, j as int),
        decreases ne - j,
    {
        if db.enum_values[j].enum_id == id {
            let it = enum_item_exec(&db.enum_values[j]);
            let ghost prev = out@;
            out.push(it);
            proof {
                lemma_items_view_push(prev, it);
            }
        }
        proof {
            assert(items_view(out@) =~= items_view(old(out)@) + member_items_upto(
                *db,
                id,
                db.members@.len() as int,
            ) + enum_items_upto(*db, id, j as int + 1));
        }
        j += 1;
    }
    proof {
        assert(items_view(out@) =~= items_view(old(out)@) + items_of(*db, id));
    }
}

// ---------------------------------------------------------------------------
// Typedef resolution: follow `base_class` of typedef rows, cleaning at each
// step, for at most three steps.
// ---------------------------------------------------------------------------
/// Earliest `classes` row that is a typedef named `name` (exact case) with a
/// nonempty `base_class`, among the first `n` rows.
pub open spec fn first_typedef_upto(db: SymbolDb, name: Seq<char>, n: int) -> Option<int>
    decreases n,
{
    if n <= 0 {
        None
    } else {
        match first_typedef_upto(db, name, n - 1) {
            Some(k) => Some(k),
            None => {
                let c = db.classes@[n - 1];
                if c.name@ == name && c.symbol_type@ == "typedef"@ && c.base_class@.len() > 0 {
                    Some(n - 1)
                } else {
                    None
                }
            },
        }
    }
}

/// The raw typedef target of `name`, when a typedef row with a nonempty
/// target exists.
pub open spec fn typedef_base(db: SymbolDb, name: Seq<char>) -> Option<Seq<char>> {
    match first_typedef_upto(db, name, db.classes@.len() as int) {
        Some(k) => Some(db.classes@[k].base_class@),
        None => None,
    }
}

/// At most `fuel` typedef steps from `current`; a step that loops, empties or
/// finds no typedef row stops the chase.
pub open spec fn resolve_iter(db: SymbolDb, current: Seq<char>, fuel: nat) -> Seq<char>
    decreases fuel,
{
    if fuel == 0 {
        current
    } else {
        match typedef_base(db, current) {
            None => current,
            Some(raw) => {
                let c = spec_clean(raw);
                if c == current || c.len() == 0 {
                    current
                } else {
                    resolve_iter(db, c, (fuel - 1) as nat)
                }
            },
        }
    }
}

/// The typedef resolution of a raw type string: clean it, then follow the
/// typedef chain for at most three steps.
pub open spec fn spec_resolve_typedef(db: SymbolDb, name: Seq<char>) -> Seq<char> {
    let c0 = spec_clean(name);
    if c0.len() == 0 || c0 == "T"@ || c0 == "void"@ {
        c0
    } else {
        resolve_iter(db, c0, 3)
    }
}

fn typedef_base_exec(db: &SymbolDb, name: &Vec<char>) -> (r: Option<Vec<char>>)
    ensures
        match r {
            Some(raw) => typedef_base(*db, name@) == Some(raw@),
            None => typedef_base(*db, name@) is None,
        },
{
    let n = db.classes.len();
    let mut i: usize = 0;
    while i < n
        invariant
            i <= n,
            db.classes@.len() == n,
            first_typedef_upto(*db, name@, i as int) is None,
        decreases n - i,
    {
        let c = &db.classes[i];
        if eq_chars(&c.name, name) && eq_chars_lit(&c.symbol_type, "typedef") && c.base_class.len()
            > 0 {
            proof {
                lemma_first_typedef_extend(*db, name@, i as int, n as int);
            }
            return Some(clone_chars(&c.base_class));
        }
        i += 1;
    }
    None
}

/// A hit at row `i` with no hit before it makes `i` the first hit overall.
proof fn lemma_first_typedef_extend(db: SymbolDb, name: Seq<char>, i: int, n: int)
    requires
        0 <= i < n <= db.classes@.len(),
        first_typedef_upto(db, name, i) is None,
        db.classes@[i].name@ == name,
        db.classes@[i].symbol_type@ == "typedef"@,
        db.classes@[i].base_class@.len() > 0,
    ensures
        first_typedef_upto(db, name, n) == Some(i),
    decreases n,
{
    if n - 1 > i {
        lemma_first_typedef_extend(db, name, i, n - 1);
    }
}

/// Resolves a raw type string through the typedef table: the chase is
/// bounded by three steps whatever the table holds.
#[verifier::loop_isolation(false)]
pub fn resolve_typedef(db: &SymbolDb, name: &Vec<char>) -> (r: Vec<char>)
    ensures
        r@ == spec_resolve_typedef(*db, name@),
{
    let mut current = extract_clean_type(name);
    if current.len() == 0 || eq_chars_lit(&current, "T") || eq_chars_lit(&current, "void") {
        return current;
    }
    let ghost c0 = current@;
    let mut fuel: usize = 3;
    while fuel > 0
        invariant
            fuel <= 3,
            resolve_iter(*db, current@, fuel as nat) == resolve_iter(*db, c0, 3),
        decreases fuel,
    {
        match typedef_base_exec(db, &current) {
            None => {
                proof {
                    assert(resolve_iter(*db, current@, fuel as nat) == current@);
                }
                return current;
            },
            Some(raw) => {
                let c = extract_clean_type(&raw);
                if eq_chars(&c, &current) || c.len() == 0 {
                    proof {
                        assert(resolve_iter(*db, current@, fuel as nat) == current@);
                    }
                    return current;
                }
                proof {
                    assert(resolve_iter(*db, current@, fuel as nat) == resolve_iter(
                        *db,
                        c@,
                        (fuel - 1) as nat,
                    ));
                }
                current = c;
            },
        }
        fuel -= 1;
    }
    current
}

// ---------------------------------------------------------------------------
// Known-type check: case-insensitive existence after cleaning.
// ---------------------------------------------------------------------------
pub open spec fn exists_class_ci_upto(db: SymbolDb, name: Seq<char>, n: int) -> bool
    decreases n,
{
    if n <= 0 {
        false
    } else {
        exists_class_ci_upto(db, name, n - 1) || spec_eq_ci(db.classes@[n - 1].name@, name)
    }
}

pub open spec fn spec_is_known_type(db: SymbolDb, name: Seq<char>) -> bool {
    let c = spec_clean(name);
    c.len() > 0 && exists_class_ci_upto(db, c, db.classes@.len() as int)
}

#[verifier::loop_isolation(false)]
pub fn is_known_type(db: &SymbolDb, name: &Vec<char>) -> (r: bool)
    ensures
        r == spec_is_known_type(*db, name@),
{
    let c = extract_clean_type(name);
    if c.len() == 0 {
        return false;
    }
    let n = db.classes.len();
    let mut i: usize = 0;
    while i < n
        invariant
            i <= n,
            db.classes@.len() == n,
            !exists_class_ci_upto(*db, c@, i as int),
        decreases n - i,
    {
        if eq_ci(&db.classes[i].name, &c) {
            proof {
                lemma_exists_class_extend(*db, c@, i as int, n as int);
            }
            return true;
        }
        i += 1;
    }
    false
}

// ---------------------------------------------------------------------------
// Inheritance walks. A stack of class names is processed with a visited set;
// every name that can ever enter the stack is drawn from the finite universe
// of the initial stack and the parent names recorded in the database, so the
// walk terminates even on cyclic inheritance.
// ---------------------------------------------------------------------------
pub open spec fn names_seq(v: Seq<Vec<char>>) -> Seq<Seq<char>> {
    v.map_values(|e: Vec<char>| e@)
}

pub open spec fn parent_names_set(db: SymbolDb) -> Set<Seq<char>> {
    db.inheritance@.map_values(|r: InheritRow| r.parent_name@).to_set()
}

/// The names the walk may still visit.
pub open spec fn walk_univ(db: SymbolDb, stack: Seq<Seq<char>>, visited: Set<Seq<char>>) -> Set<
    Seq<char>,
> {
    stack.to_set().union(parent_names_set(db)).difference(visited)
}

/// Termination measure of the walk.
pub open spec fn walk_measure(db: SymbolDb, stack: Seq<Seq<char>>, visited: Set<Seq<char>>) -> int {
    walk_univ(db, stack, visited).len() as int * (1 + db.inheritance@.len() as int)
        + stack.len() as int
}

proof fn lemma_walk_univ_finite(db: SymbolDb, stack: Seq<Seq<char>>, visited: Set<Seq<char>>)
    ensures
        walk_univ(db, stack, visited).finite(),
{
    broadcast use vstd::seq_lib::seq_to_set_is_finite;

    assert(stack.to_set().finite());
    assert(db.inheritance@.map_values(|r: InheritRow| r.parent_name@).to_set().finite());
}

/// One step of the walk shrinks the measure: the popped name joins the
/// visited set (or was already in it), and whatever parents are pushed lie
/// in the universe.
proof fn lemma_measure_skip(db: SymbolDb, stack: Seq<Seq<char>>, visited: Set<Seq<char>>)
    requires
        stack.len() > 0,
        visited.contains(stack.first()),
    ensures
        walk_measure(db, stack.drop_first(), visited) < walk_measure(db, stack, visited),
{
    lemma_walk_univ_finite(db, stack, visited);
    lemma_walk_univ_finite(db, stack.drop_first(), visited);
    let u1 = walk_univ(db, stack, visited);
    let u2 = walk_univ(db, stack.drop_first(), visited);
    assert(u2.subset_of(u1)) by {
        assert forall|x: Seq<char>| u2.contains(x) implies u1.contains(x) by {
            assert(stack.drop_first().to_set().contains(x) ==> stack.to_set().contains(x)) by {
                if stack.drop_first().contains(x) {
                    let j = choose|j: int|
                        0 <= j < stack.drop_first().len() && stack.drop_first()[j] == x;
                    assert(stack[j + 1] == x);
                }
            }
        }
    }
    vstd::set_lib::lemma_len_subset(u2, u1);
    let p = 1 + db.inheritance@.len() as int;
    assert(u2.len() * p <= u1.len() * p) by (nonlinear_arith)
        requires
            u2.len() <= u1.len(),
            p >= 1,
    ;
}

proof fn lemma_measure_visit(
    db: SymbolDb,
    stack: Seq<Seq<char>>,
    visited: Set<Seq<char>>,
    parents: Seq<Seq<char>>,
)
    requires
        visited.finite(),
        stack.len() > 0,
        !visited.contains(stack.first()),
        forall|x: Seq<char>| parents.contains(x) ==> parent_names_set(db).contains(x),
        parents.len() <= db.inheritance@.len(),
    ensures
        walk_measure(db, stack.drop_first() + parents, visited.insert(stack.first()))
            < walk_measure(db, stack, visited),
{
    let cur = stack.first();
    let stack2 = stack.drop_first() + parents;
    let v2 = visited.insert(cur);
    lemma_walk_univ_finite(db, stack, visited);
    lemma_walk_univ_finite(db, stack2, v2);
    let u1 = walk_univ(db, stack, visited);
    let u2 = walk_univ(db, stack2, v2);
    assert(u1.contains(cur)) by {
        assert(stack[0] == cur);
        assert(stack.to_set().contains(cur));
    }
    assert(u2.subset_of(u1.remove(cur))) by {
        assert forall|x: Seq<char>| u2.contains(x) implies u1.remove(cur).contains(x) by {
            assert(x != cur);
            assert(!visited.contains(x));
            if stack2.to_set().contains(x) {
                let j = choose|j: int| 0 <= j < stack2.len() && stack2[j] == x;
                if j < stack.drop_first().len() {
                    assert(stack[j + 1] == x);
                    assert(stack.to_set().contains(x));
                } else {
                    assert(parents[j - stack.drop_first().len()] == x);
                    assert(parents.contains(x));
                    assert(parent_names_set(db).contains(x));
                }
            }
        }
    }
    assert(u1.remove(cur).len() == u1.len() - 1) by {
        vstd::set::axiom_set_remove_len(u1, cur);
    }
    vstd::set_lib::lemma_len_subset(u2, u1.remove(cur));
    let p = 1 + db.inheritance@.len() as int;
    assert(u1.len() >= 1);
    assert(u2.len() * p + stack2.len() < u1.len() * p + stack.len()) by (nonlinear_arith)
        requires
            u2.len() <= u1.len() - 1,
            u1.len() >= 1,
            p >= 1,
            stack2.len() <= stack.len() - 1 + (p - 1),
            stack.len() >= 1,
    ;
}

// Parents of a class id, in the order the edges stand in the table.
pub open spec fn parents_of_id_upto(db: SymbolDb, id: i64, n: int) -> Seq<Seq<char>>
    decreases n,
{
    if n <= 0 {
        Seq::empty()
    } else {
        parents_of_id_upto(db, id, n - 1) + if db.inheritance@[n - 1].child_id == id {
            seq![db.inheritance@[n - 1].parent_name@]
        } else {
            Seq::empty()
        }
    }
}

pub open spec fn parents_of_id(db: SymbolDb, id: i64) -> Seq<Seq<char>> {
    parents_of_id_upto(db, id, db.inheritance@.len() as int)
}

proof fn lemma_parents_of_id_bounds(db: SymbolDb, id: i64, n: int)
    requires
        0 <= n <= db.inheritance@.len(),
    ensures
        parents_of_id_upto(db, id, n).len() <= n,
        forall|x: Seq<char>|
            parents_of_id_upto(db, id, n).contains(x) ==> parent_names_set(db).contains(x),
    decreases n,
{
    if n > 0 {
        lemma_parents_of_id_bounds(db, id, n - 1);
        assert forall|x: Seq<char>| parents_of_id_upto(db, id, n).contains(x) implies
            parent_names_set(db).contains(x) by {
            let s = parents_of_id_upto(db, id, n);
            let j = choose|j: int| 0 <= j < s.len() && s[j] == x;
            if j < parents_of_id_upto(db, id, n - 1).len() {
                assert(parents_of_id_upto(db, id, n - 1)[j] == x);
                assert(parents_of_id_upto(db, id, n - 1).contains(x));
            } else {
                assert(x == db.inheritance@[n - 1].parent_name@);
                let m = db.inheritance@.map_values(|r: InheritRow| r.parent_name@);
                assert(m[n - 1] == x);
                assert(m.contains(x));
            }
        }
    }
}

/// The items the inheritance walk returns from `stack` with `visited`
/// already seen: take the front name, resolve it to its best class row, emit
/// that row's items, and enqueue its parents; the walk is breadth first.
pub open spec fn spec_fetch(db: SymbolDb, stack: Seq<Seq<char>>, visited: Set<Seq<char>>) -> Seq<
    ItemView,
>
    decreases walk_measure(db, stack, visited)
        when visited.finite()
        via spec_fetch_dec
{
    if stack.len() == 0 {
        Seq::empty()
    } else {
        let cur = stack.first();
        let rest = stack.drop_first();
        if visited.contains(cur) {
            spec_fetch(db, rest, visited)
        } else {
            let v2 = visited.insert(cur);
            match best_class(db, cur) {
                None => spec_fetch(db, rest, v2),
                Some(k) => items_of(db, db.classes@[k].id) + spec_fetch(
                    db,
                    rest + parents_of_id(db, db.classes@[k].id),
                    v2,
                ),
            }
        }
    }
}

#[via_fn]
proof fn spec_fetch_dec(db: SymbolDb, stack: Seq<Seq<char>>, visited: Set<Seq<char>>) {
    if stack.len() > 0 {
        let cur = stack.first();
        if visited.contains(cur) {
            lemma_measure_skip(db, stack, visited);
        } else {
            match best_class(db, cur) {
                None => {
                    lemma_measure_visit(db, stack, visited, Seq::empty());
                    assert(stack.drop_first() + Seq::<Seq<char>>::empty() =~= stack.drop_first());
                },
                Some(k) => {
                    lemma_parents_of_id_bounds(
                        db,
                        db.classes@[k].id,
                        db.inheritance@.len() as int,
                    );
                    lemma_measure_visit(
                        db,
                        stack,
                        visited,
                        parents_of_id(db, db.classes@[k].id),
                    );
                },
            }
        }
    }
}

proof fn lemma_names_seq_push(v: Seq<Vec<char>>, e: Vec<char>)
    ensures
        names_seq(v.push(e)) =~= names_seq(v).push(e@),
{
    assert forall|i: int| 0 <= i < v.len() + 1 implies names_seq(v.push(e))[i] == names_seq(
        v,
    ).push(e@)[i] by {
        if i < v.len() {
            assert(v.push(e)[i] == v[i]);
        }
    }
}

/// Recording one more visited name inserts exactly that name into the
/// visited set.
proof fn lemma_names_set_insert(prev: Seq<Vec<char>>, v: Seq<Vec<char>>, x: Seq<char>)
    requires
        v.len() == prev.len() + 1,
        forall|q: int| 0 <= q < prev.len() ==> v[q] == prev[q],
        v.last()@ == x,
    ensures
        names_seq(v).to_set() =~= names_seq(prev).to_set().insert(x),
{
    assert forall|y: Seq<char>|
        names_seq(v).contains(y) <==> (names_seq(prev).contains(y) || y == x) by {
        if names_seq(v).contains(y) {
            let j = choose|j: int| 0 <= j < names_seq(v).len() && names_seq(v)[j] == y;
            if j < prev.len() {
                assert(names_seq(prev)[j] == y);
            } else {
                assert(names_seq(v)[j] == v.last()@);
            }
        }
        if names_seq(prev).contains(y) {
            let j = choose|j: int| 0 <= j < names_seq(prev).len() && names_seq(prev)[j] == y;
            assert(names_seq(v)[j] == y);
        }
        if y == x {
            assert(names_seq(v)[v.len() - 1] == y);
        }
    }
}

/// Linear scan for a name among those already visited.
fn contains_name(v: &Vec<Vec<char>>, x: &Vec<char>) -> (r: bool)
    ensures
        r == names_seq(v@).to_set().contains(x@),
{
    let n = v.len();
    let mut i: usize = 0;
    while i < n
        invariant
            i <= n,
            v@.len() == n,
            forall|j: int| 0 <= j < i ==> names_seq(v@)[j] != x@,
        decreases n - i,
    {
        if eq_chars(&v[i], x) {
            assert(names_seq(v@)[i as int] == x@);
            assert(names_seq(v@).contains(x@));
            return true;
        }
        assert(names_seq(v@)[i as int] == v@[i as int]@);
        i += 1;
    }
    assert(!names_seq(v@).contains(x@));
    false
}

/// Pushes the parents of class id `id` onto the walk stack, in table order.
fn push_parents_of_id(db: &SymbolDb, id: i64, stack: &mut Vec<Vec<char>>)
    ensures
        names_seq(final(stack)@) == names_seq(old(stack)@) + parents_of_id(*db, id),
{
    let n = db.inheritance.len();
    let mut j: usize = 0;
    while j < n
        invariant
            j <= n,
            db.inheritance@.len() == n,
            names_seq(stack@) =~= names_seq(old(stack)@) + parents_of_id_upto(*db, id, j as int),
        decreases n - j,
    {
        if db.inheritance[j].child_id == id {
            let ghost prev = stack@;
            let p = clone_chars(&db.inheritance[j].parent_name);
            stack.push(p);
            proof {
                lemma_names_seq_push(prev, stack@.last());
            }
        }
        proof {
            assert(names_seq(stack@) =~= names_seq(old(stack)@) + parents_of_id_upto(
                *db,
                id,
                j as int + 1,
            ));
        }
        j += 1;
    }
}

/// Collects the items of `class_name` and of everything it transitively
/// inherits, walking the inheritance table with a visited set; the walk
/// terminates for every database, cyclic inheritance included, because each
/// step either visits a new name from the finite universe of recorded names
/// or shrinks the stack.
#[verifier::loop_isolation(false)]
#[verifier::rlimit(50)]
pub fn fetch_members_recursive(db: &SymbolDb, class_name: &Vec<char>) -> (r: Vec<CompletionItem>)
    ensures
        items_view(r@) == spec_fetch(*db, seq![class_name@], Set::empty()),
{
    let mut result: Vec<CompletionItem> = Vec::new();
    let mut stack: Vec<Vec<char>> = Vec::new();
    stack.push(clone_chars(class_name));
    let mut visited: Vec<Vec<char>> = Vec::new();
    let ghost mut vset: Set<Seq<char>> = Set::empty();
    proof {
        assert(names_seq(stack@) =~= seq![class_name@]);
        assert(items_view(result@) =~= Seq::<ItemView>::empty());
    }
    while stack.len() > 0
        invariant
            vset.finite(),
            vset == names_seq(visited@).to_set(),
            items_view(result@) + spec_fetch(*db, names_seq(stack@), vset) == spec_fetch(
                *db,
                seq![class_name@],
                Set::empty(),
            ),
        decreases walk_measure(*db, names_seq(stack@), vset),
    {
        let ghost s = names_seq(stack@);
        let cur = stack.remove(0);
        proof {
            assert(cur@ == s.first());
            assert(names_seq(stack@) =~= s.drop_first());
        }
        if contains_name(&visited, &cur) {
            proof {
                lemma_measure_skip(*db, s, vset);
                assert(spec_fetch(*db, s, vset) == spec_fetch(*db, s.drop_first(), vset));
            }
        } else {
            let ghost prev_visited = visited@;
            visited.push(clone_chars(&cur));
            proof {
                lemma_names_set_insert(prev_visited, visited@, cur@);
                vset = vset.insert(cur@);
            }
            match best_class_exec(db, &cur) {
                None => {
                    proof {
                        lemma_measure_visit(*db, s, names_seq(prev_visited).to_set(), Seq::empty());
                        assert(s.drop_first() + Seq::<Seq<char>>::empty() =~= s.drop_first());
                        assert(spec_fetch(*db, s, names_seq(prev_visited).to_set()) == spec_fetch(
                            *db,
                            s.drop_first(),
                            vset,
                        ));
                    }
                },
                Some(k) => {
                    let id = db.classes[k].id;
                    push_items_of(db, id, &mut result);
                    push_parents_of_id(db, id, &mut stack);
                    proof {
                        lemma_parents_of_id_bounds(*db, id, db.inheritance@.len() as int);
                        lemma_measure_visit(
                            *db,
                            s,
                            names_seq(prev_visited).to_set(),
                            parents_of_id(*db, id),
                        );
                        assert(spec_fetch(*db, s, names_seq(prev_visited).to_set()) == items_of(
                            *db,
                            id,
                        ) + spec_fetch(*db, s.drop_first() + parents_of_id(*db, id), vset));
                        assert(names_seq(stack@) =~= s.drop_first() + parents_of_id(*db, id));
                    }
                },
            }
        }
    }
    proof {
        assert(names_seq(stack@).len() == 0);
        assert(spec_fetch(*db, names_seq(stack@), vset) =~= Seq::<ItemView>::empty());
        assert(items_view(result@) =~= spec_fetch(*db, seq![class_name@], Set::empty()));
    }
    result
}

// ---------------------------------------------------------------------------
// Member-return-type lookup: exact-case class match, preferring informative
// return types, then longer ones, then the earliest row.
// ---------------------------------------------------------------------------
/// Does any of the first `n` class rows carry this exact name and id?
pub open spec fn exists_named_id_upto(db: SymbolDb, cls: Seq<char>, id: i64, n: int) -> bool
    decreases n,
{
    if n <= 0 {
        false
    } else {
        exists_named_id_upto(db, cls, id, n - 1) || (db.classes@[n - 1].name@ == cls
            && db.classes@[n - 1].id == id)
    }
}

pub open spec fn exists_named_id(db: SymbolDb, cls: Seq<char>, id: i64) -> bool {
    exists_named_id_upto(db, cls, id, db.classes@.len() as int)
}

/// A return type of `T`, `T*` or `void` says nothing about the member.
pub open spec fn rt_uninformative(m: MemberRow) -> int {
    match m.return_type {
        Some(rt) => if rt@ == "T"@ || rt@ == "T*"@ || rt@ == "void"@ {
            1
        } else {
            0
        },
        None => 0,
    }
}

/// Length used to break ties; an absent return type sorts after all others.
pub open spec fn rt_length(m: MemberRow) -> int {
    match m.return_type {
        Some(rt) => rt@.len() as int,
        None => -1,
    }
}

pub open spec fn member_matches(db: SymbolDb, cls: Seq<char>, member: Seq<char>, j: int) -> bool {
    &&& 0 <= j < db.members@.len()
    &&& db.members@[j].name@ == member
    &&& exists_named_id(db, cls, db.members@[j].class_id)
}

/// Strictly better under the selection order.
pub open spec fn member_better(a: MemberRow, b: MemberRow) -> bool {
    rt_uninformative(a) < rt_uninformative(b) || (rt_uninformative(a) == rt_uninformative(b)
        && rt_length(a) > rt_length(b))
}

/// The selected member row for (`cls`, `member`) among the first `n` rows.
pub open spec fn best_member_upto(db: SymbolDb, cls: Seq<char>, member: Seq<char>, n: int) -> Option<
    int,
>
    decreases n,
{
    if n <= 0 {
        None
    } else {
        let prev = best_member_upto(db, cls, member, n - 1);
        if !member_matches(db, cls, member, n - 1) {
            prev
        } else {
            match prev {
                None => Some(n - 1),
                Some(k) => if member_better(db.members@[n - 1], db.members@[k]) {
                    Some(n - 1)
                } else {
                    Some(k)
                },
            }
        }
    }
}

pub open spec fn best_member(db: SymbolDb, cls: Seq<char>, member: Seq<char>) -> Option<int> {
    best_member_upto(db, cls, member, db.members@.len() as int)
}

/// The cleaned return type that one class contributes, when its selected
/// member row has a recorded return type.
pub open spec fn member_hit(db: SymbolDb, cls: Seq<char>, member: Seq<char>) -> Option<Seq<char>> {
    match best_member(db, cls, member) {
        Some(j) => match db.members@[j].return_type {
            Some(raw) => Some(spec_clean(raw@)),
            None => None,
        },
        None => None,
    }
}

/// Parents of every class row with this exact name, in edge-table order.
pub open spec fn parents_by_name_upto(db: SymbolDb, cls: Seq<char>, n: int) -> Seq<Seq<char>>
    decreases n,
{
    if n <= 0 {
        Seq::empty()
    } else {
        parents_by_name_upto(db, cls, n - 1) + if exists_named_id(
            db,
            cls,
            db.inheritance@[n - 1].child_id,
        ) {
            seq![db.inheritance@[n - 1].parent_name@]
        } else {
            Seq::empty()
        }
    }
}

pub open spec fn parents_by_name(db: SymbolDb, cls: Seq<char>) -> Seq<Seq<char>> {
    parents_by_name_upto(db, cls, db.inheritance@.len() as int)
}

proof fn lemma_parents_by_name_bounds(db: SymbolDb, cls: Seq<char>, n: int)
    requires
        0 <= n <= db.inheritance@.len(),
    ensures
        parents_by_name_upto(db, cls, n).len() <= n,
        forall|x: Seq<char>|
            parents_by_name_upto(db, cls, n).contains(x) ==> parent_names_set(db).contains(x),
    decreases n,
{
    if n > 0 {
        lemma_parents_by_name_bounds(db, cls, n - 1);
        assert forall|x: Seq<char>| parents_by_name_upto(db, cls, n).contains(x) implies
            parent_names_set(db).contains(x) by {
            let s = parents_by_name_upto(db, cls, n);
            let j = choose|j: int| 0 <= j < s.len() && s[j] == x;
            if j < parents_by_name_upto(db, cls, n - 1).len() {
                assert(parents_by_name_upto(db, cls, n - 1)[j] == x);
                assert(parents_by_name_upto(db, cls, n - 1).contains(x));
            } else {
                assert(x == db.inheritance@[n - 1].parent_name@);
                let m = db.inheritance@.map_values(|r: InheritRow| r.parent_name@);
                assert(m[n - 1] == x);
                assert(m.contains(x));
            }
        }
    }
}

/// The walk behind `find_member_return_type`: search each class up the
/// inheritance graph for the member, stopping at the first class whose
/// selected row has a recorded return type.
pub open spec fn spec_member_walk(
    db: SymbolDb,
    member: Seq<char>,
    stack: Seq<Seq<char>>,
    visited: Set<Seq<char>>,
) -> Option<Seq<char>>
    decreases walk_measure(db, stack, visited)
        when visited.finite()
        via spec_member_walk_dec
{
    if stack.len() == 0 {
        None
    } else {
        let cur = stack.first();
        let rest = stack.drop_first();
        if visited.contains(cur) {
            spec_member_walk(db, member, rest, visited)
        } else {
            let v2 = visited.insert(cur);
            match member_hit(db, cur, member) {
                Some(t) => Some(t),
                None => spec_member_walk(db, member, rest + parents_by_name(db, cur), v2),
            }
        }
    }
}

#[via_fn]
proof fn spec_member_walk_dec(
    db: SymbolDb,
    member: Seq<char>,
    stack: Seq<Seq<char>>,
    visited: Set<Seq<char>>,
) {
    if stack.len() > 0 {
        let cur = stack.first();
        if visited.contains(cur) {
            lemma_measure_skip(db, stack, visited);
        } else {
            lemma_parents_by_name_bounds(db, cur, db.inheritance@.len() as int);
            lemma_measure_visit(db, stack, visited, parents_by_name(db, cur));
        }
    }
}

/// The return type of `member` on `class_name` or the nearest ancestor that
/// records one: clean the class name, resolve typedefs, then walk.
pub open spec fn spec_find_member_return_type(
    db: SymbolDb,
    class_name: Seq<char>,
    member: Seq<char>,
) -> Option<Seq<char>> {
    let resolved = spec_resolve_typedef(db, spec_clean(class_name));
    spec_member_walk(db, member, seq![resolved], Set::empty())
}

fn exists_named_id_exec(db: &SymbolDb, cls: &Vec<char>, id: i64) -> (r: bool)
    ensures
        r == exists_named_id(*db, cls@, id),
{
    let n = db.classes.len();
    let mut i: usize = 0;
    while i < n
        invariant
            i <= n,
            db.classes@.len() == n,
            !exists_named_id_upto(*db, cls@, id, i as int),
        decreases n - i,
    {
        if db.classes[i].id == id && eq_chars(&db.classes[i].name, cls) {
            proof {
                lemma_exists_named_id_extend(*db, cls@, id, i as int, n as int);
            }
            return true;
        }
        i += 1;
    }
    false
}

proof fn lemma_exists_named_id_extend(db: SymbolDb, cls: Seq<char>, id: i64, i: int, n: int)
    requires
        0 <= i < n <= db.classes@.len(),
        db.classes@[i].name@ == cls,
        db.classes@[i].id == id,
    ensures
        exists_named_id_upto(db, cls, id, n),
    decreases n,
{
    if n - 1 > i {
        lemma_exists_named_id_extend(db, cls, id, i, n - 1);
    }
}

fn rt_uninformative_exec(m: &MemberRow) -> (r: i64)
    ensures
        r == rt_uninformative(*m),
{
    match &m.return_type {
        Some(rt) => {
            if eq_chars_lit(rt, "T") || eq_chars_lit(rt, "T*") || eq_chars_lit(rt, "void") {
                1
            } else {
                0
            }
        },
        None => 0,
    }
}

fn member_better_exec(a: &MemberRow, b: &MemberRow) -> (r: bool)
    ensures
        r == member_better(*a, *b),
{
    let ua = rt_uninformative_exec(a);
    let ub = rt_uninformative_exec(b);
    if ua < ub {
        return true;
    }
    if ua > ub {
        return false;
    }
    match (&a.return_type, &b.return_type) {
        (Some(ra), Some(rb)) => ra.len() > rb.len(),
        (Some(_), None) => true,
        (None, _) => false,
    }
}

fn best_member_exec(db: &SymbolDb, cls: &Vec<char>, member: &Vec<char>) -> (r: Option<usize>)
    ensures
        match r {
            Some(j) => best_member(*db, cls@, member@) == Some(j as int) && j
                < db.members@.len(),
            None => best_member(*db, cls@, member@) is None,
        },
{
    let n = db.members.len();
    let mut best: Option<usize> = None;
    let mut i: usize = 0;
    while i < n
        invariant
            i <= n,
            db.members@.len() == n,
            match best {
                Some(k) => best_member_upto(*db, cls@, member@, i as int) == Some(k as int) && k
                    < i,
                None => best_member_upto(*db, cls@, member@, i as int) is None,
            },
        decreases n - i,
    {
        if eq_chars(&db.members[i].name, member) && exists_named_id_exec(
            db,
            cls,
            db.members[i].class_id,
        ) {
            match best {
                None => {
                    best = Some(i);
                },
                Some(k) => {
                    if member_better_exec(&db.members[i], &db.members[k]) {
                        best = Some(i);
                    }
                },
            }
        }
        i += 1;
    }
    best
}

fn push_parents_by_name(db: &SymbolDb, cls: &Vec<char>, stack: &mut Vec<Vec<char>>)
    ensures
        names_seq(final(stack)@) == names_seq(old(stack)@) + parents_by_name(*db, cls@),
{
    let n = db.inheritance.len();
    let mut j: usize = 0;
    while j < n
        invariant
            j <= n,
            db.inheritance@.len() == n,
            names_seq(stack@) =~= names_seq(old(stack)@) + parents_by_name_upto(
                *db,
                cls@,
                j as int,
            ),
        decreases n - j,
    {
        if exists_named_id_exec(db, cls, db.inheritance[j].child_id) {
            let ghost prev = stack@;
            let p = clone_chars(&db.inheritance[j].parent_name);
            stack.push(p);
            proof {
                lemma_names_seq_push(prev, stack@.last());
            }
        }
        proof {
            assert(names_seq(stack@) =~= names_seq(old(stack)@) + parents_by_name_upto(
                *db,
                cls@,
                j as int + 1,
            ));
        }
        j += 1;
    }
}

/// Looks up the declared type of `member` on `class_name`, searching the
/// class and then its ancestors; cycles in the inheritance table cannot make
/// the search diverge.
#[verifier::loop_isolation(false)]
#[verifier::rlimit(50)]
pub fn find_member_return_type(db: &SymbolDb, class_name: &Vec<char>, member: &Vec<char>) -> (r:
    Option<Vec<char>>)
    ensures
        match r {
            Some(t) => spec_find_member_return_type(*db, class_name@, member@) == Some(t@),
            None => spec_find_member_return_type(*db, class_name@, member@) is None,
        },
{
    let clean_class = extract_clean_type(class_name);
    let resolved = resolve_typedef(db, &clean_class);
    let mut stack: Vec<Vec<char>> = Vec::new();
    stack.push(resolved);
    let mut visited: Vec<Vec<char>> = Vec::new();
    let ghost mut vset: Set<Seq<char>> = Set::empty();
    let ghost resolved_v = spec_resolve_typedef(*db, spec_clean(class_name@));
    proof {
        assert(names_seq(stack@) =~= seq![resolved_v]);
    }
    while stack.len() > 0
        invariant
            vset.finite(),
            vset == names_seq(visited@).to_set(),
            spec_member_walk(*db, member@, names_seq(stack@), vset) == spec_member_walk(
                *db,
                member@,
                seq![resolved_v],
                Set::empty(),
            ),
        decreases walk_measure(*db, names_seq(stack@), vset),
    {
        let ghost s = names_seq(stack@);
        let cur = stack.remove(0);
        proof {
            assert(cur@ == s.first());
            assert(names_seq(stack@) =~= s.drop_first());
        }
        if contains_name(&visited, &cur) {
            proof {
                lemma_measure_skip(*db, s, vset);
            }
        } else {
            let ghost prev_visited = visited@;
            visited.push(clone_chars(&cur));
            proof {
                lemma_names_set_insert(prev_visited, visited@, cur@);
                vset = vset.insert(cur@);
            }
            match best_member_exec(db, &cur, member) {
                Some(j) => {
                    match &db.members[j].return_type {
                        Some(raw) => {
                            let t = extract_clean_type(raw);
                            return Some(t);
                        },
                        None => {},
                    }
                },
                None => {},
            }
            push_parents_by_name(db, &cur, &mut stack);
            proof {
                lemma_parents_by_name_bounds(*db, cur@, db.inheritance@.len() as int);
                lemma_measure_visit(
                    *db,
                    s,
                    names_seq(prev_visited).to_set(),
                    parents_by_name(*db, cur@),
                );
                assert(member_hit(*db, cur@, member@) is None);
                assert(names_seq(stack@) =~= s.drop_first() + parents_by_name(*db, cur@));
            }
        }
    }
    proof {
        assert(names_seq(stack@).len() == 0);
    }
    None
}

// ---------------------------------------------------------------------------
// Laws of the assembled items
// ---------------------------------------------------------------------------
/// Shape of every item this library emits: the kind is one of the four LSP
/// codes and the insert text equals the label.
pub open spec fn item_wf(it: ItemView) -> bool {
    valid_kind(it.kind) && it.label == it.insert_text
}

proof fn lemma_member_items_upto_wf(db: SymbolDb, id: i64, n: int)
    ensures
        forall|i: int|
            0 <= i < member_items_upto(db, id, n).len() ==> item_wf(
                #[trigger] member_items_upto(db, id, n)[i],
            ),
    decreases n,
{
    if n > 0 {
        lemma_member_items_upto_wf(db, id, n - 1);
        let s1 = member_items_upto(db, id, n - 1);
        assert forall|i: int| 0 <= i < member_items_upto(db, id, n).len() implies item_wf(
            member_items_upto(db, id, n)[i],
        ) by {
            if i < s1.len() {
                assert(member_items_upto(db, id, n)[i] == s1[i]);
            } else {
                assert(member_items_upto(db, id, n)[i] == member_item_view(db.members@[n - 1]));
            }
        }
    }
}

proof fn lemma_enum_items_upto_wf(db: SymbolDb, id: i64, n: int)
    ensures
        forall|i: int|
            0 <= i < enum_items_upto(db, id, n).len() ==> item_wf(
                #[trigger] enum_items_upto(db, id, n)[i],
            ),
    decreases n,
{
    if n > 0 {
        lemma_enum_items_upto_wf(db, id, n - 1);
        let s1 = enum_items_upto(db, id, n - 1);
        assert forall|i: int| 0 <= i < enum_items_upto(db, id, n).len() implies item_wf(
            enum_items_upto(db, id, n)[i],
        ) by {
            if i < s1.len() {
                assert(enum_items_upto(db, id, n)[i] == s1[i]);
            } else {
                assert(enum_items_upto(db, id, n)[i] == enum_item_view(db.enum_values@[n - 1]));
            }
        }
    }
}

proof fn lemma_items_of_wf(db: SymbolDb, id: i64)
    ensures
        forall|i: int| 0 <= i < items_of(db, id).len() ==> item_wf(#[trigger] items_of(db, id)[i]),
{
    lemma_member_items_upto_wf(db, id, db.members@.len() as int);
    lemma_enum_items_upto_wf(db, id, db.enum_values@.len() as int);
}

/// Every item an inheritance walk returns has a valid kind and an insert
/// text equal to its label.
pub proof fn lemma_fetch_wf(db: SymbolDb, stack: Seq<Seq<char>>, visited: Set<Seq<char>>)
    requires
        visited.finite(),
    ensures
        forall|i: int|
            0 <= i < spec_fetch(db, stack, visited).len() ==> item_wf(
                #[trigger] spec_fetch(db, stack, visited)[i],
            ),
    decreases walk_measure(db, stack, visited),
{
    if stack.len() > 0 {
        let cur = stack.first();
        let rest = stack.drop_first();
        if visited.contains(cur) {
            lemma_measure_skip(db, stack, visited);
            lemma_fetch_wf(db, rest, visited);
            assert forall|i: int| 0 <= i < spec_fetch(db, stack, visited).len() implies item_wf(
                spec_fetch(db, stack, visited)[i],
            ) by {
                assert(spec_fetch(db, stack, visited)[i] == spec_fetch(db, rest, visited)[i]);
            }
        } else {
            let v2 = visited.insert(cur);
            match best_class(db, cur) {
                None => {
                    lemma_measure_visit(db, stack, visited, Seq::empty());
                    assert(rest + Seq::<Seq<char>>::empty() =~= rest);
                    lemma_fetch_wf(db, rest, v2);
                    assert forall|i: int| 0 <= i < spec_fetch(db, stack, visited).len() implies
                        item_wf(spec_fetch(db, stack, visited)[i]) by {
                        assert(spec_fetch(db, stack, visited)[i] == spec_fetch(db, rest, v2)[i]);
                    }
                },
                Some(k) => {
                    let id = db.classes@[k].id;
                    lemma_parents_of_id_bounds(db, id, db.inheritance@.len() as int);
                    lemma_measure_visit(db, stack, visited, parents_of_id(db, id));
                    lemma_fetch_wf(db, rest + parents_of_id(db, id), v2);
                    lemma_items_of_wf(db, id);
                    let sub = spec_fetch(db, rest + parents_of_id(db, id), v2);
                    assert forall|i: int| 0 <= i < spec_fetch(db, stack, visited).len() implies
                        item_wf(spec_fetch(db, stack, visited)[i]) by {
                        if i < items_of(db, id).len() {
                            assert(spec_fetch(db, stack, visited)[i] == items_of(db, id)[i]);
                        } else {
                            assert(spec_fetch(db, stack, visited)[i] == sub[i - items_of(
                                db,
                                id,
                            ).len()]);
                        }
                    }
                },
            }
        }
    }
}

/// A member row of class id `id` appears among the items of `id`.
proof fn lemma_member_in_upto(db: SymbolDb, id: i64, j: int, n: int)
    requires
        0 <= j < n <= db.members@.len(),
        db.members@[j].class_id == id,
    ensures
        member_items_upto(db, id, n).contains(member_item_view(db.members@[j])),
    decreases n,
{
    if n - 1 > j {
        lemma_member_in_upto(db, id, j, n - 1);
        let s1 = member_items_upto(db, id, n - 1);
        let i = choose|i: int| 0 <= i < s1.len() && s1[i] == member_item_view(db.members@[j]);
        assert(member_items_upto(db, id, n)[i] == member_item_view(db.members@[j]));
    } else {
        let s1 = member_items_upto(db, id, n - 1);
        assert(member_items_upto(db, id, n)[s1.len() as int] == member_item_view(
            db.members@[j],
        ));
    }
}

proof fn lemma_member_in_items(db: SymbolDb, id: i64, j: int)
    requires
        0 <= j < db.members@.len(),
        db.members@[j].class_id == id,
    ensures
        items_of(db, id).contains(member_item_view(db.members@[j])),
{
    lemma_member_in_upto(db, id, j, db.members@.len() as int);
    let s1 = member_items_upto(db, id, db.members@.len() as int);
    let i = choose|i: int| 0 <= i < s1.len() && s1[i] == member_item_view(db.members@[j]);
    assert(items_of(db, id)[i] == member_item_view(db.members@[j]));
}

/// An enum value of enum id `id` appears among the items of `id`.
proof fn lemma_enum_in_upto(db: SymbolDb, id: i64, j: int, n: int)
    requires
        0 <= j < n <= db.enum_values@.len(),
        db.enum_values@[j].enum_id == id,
    ensures
        enum_items_upto(db, id, n).contains(enum_item_view(db.enum_values@[j])),
    decreases n,
{
    if n - 1 > j {
        lemma_enum_in_upto(db, id, j, n - 1);
        let s1 = enum_items_upto(db, id, n - 1);
        let i = choose|i: int| 0 <= i < s1.len() && s1[i] == enum_item_view(db.enum_values@[j]);
        assert(enum_items_upto(db, id, n)[i] == enum_item_view(db.enum_values@[j]));
    } else {
        let s1 = enum_items_upto(db, id, n - 1);
        assert(enum_items_upto(db, id, n)[s1.len() as int] == enum_item_view(db.enum_values@[j]));
    }
}

proof fn lemma_enum_in_items(db: SymbolDb, id: i64, j: int)
    requires
        0 <= j < db.enum_values@.len(),
        db.enum_values@[j].enum_id == id,
    ensures
        items_of(db, id).contains(enum_item_view(db.enum_values@[j])),
{
    lemma_enum_in_upto(db, id, j, db.enum_values@.len() as int);
    let s2 = enum_items_upto(db, id, db.enum_values@.len() as int);
    let s1 = member_items_upto(db, id, db.members@.len() as int);
    let i = choose|i: int| 0 <= i < s2.len() && s2[i] == enum_item_view(db.enum_values@[j]);
    assert(items_of(db, id)[s1.len() + i] == enum_item_view(db.enum_values@[j]));
}

/// If an unvisited name on the stack resolves to a class row, everything
/// that row contributes appears in the walk's output.
proof fn lemma_fetch_contains(
    db: SymbolDb,
    stack: Seq<Seq<char>>,
    visited: Set<Seq<char>>,
    x: Seq<char>,
    k: int,
    it: ItemView,
)
    requires
        visited.finite(),
        stack.contains(x),
        !visited.contains(x),
        best_class(db, x) == Some(k),
        items_of(db, db.classes@[k].id).contains(it),
    ensures
        spec_fetch(db, stack, visited).contains(it),
    decreases walk_measure(db, stack, visited),
{
    let cur = stack.first();
    let rest = stack.drop_first();
    if cur == x && !visited.contains(cur) {
        let id = db.classes@[k].id;
        lemma_parents_of_id_bounds(db, id, db.inheritance@.len() as int);
        lemma_measure_visit(db, stack, visited, parents_of_id(db, id));
        let i = choose|i: int| 0 <= i < items_of(db, id).len() && items_of(db, id)[i] == it;
        assert(spec_fetch(db, stack, visited)[i] == it);
    } else {
        assert(rest.contains(x)) by {
            let j = choose|j: int| 0 <= j < stack.len() && stack[j] == x;
            assert(j >= 1);
            assert(rest[j - 1] == x);
        }
        if visited.contains(cur) {
            lemma_measure_skip(db, stack, visited);
            lemma_fetch_contains(db, rest, visited, x, k, it);
        } else {
            let v2 = visited.insert(cur);
            match best_class(db, cur) {
                None => {
                    lemma_measure_visit(db, stack, visited, Seq::empty());
                    assert(rest + Seq::<Seq<char>>::empty() =~= rest);
                    lemma_fetch_contains(db, rest, v2, x, k, it);
                },
                Some(kc) => {
                    let id = db.classes@[kc].id;
                    lemma_parents_of_id_bounds(db, id, db.inheritance@.len() as int);
                    lemma_measure_visit(db, stack, visited, parents_of_id(db, id));
                    let stack2 = rest + parents_of_id(db, id);
                    assert(stack2.contains(x)) by {
                        let j = choose|j: int| 0 <= j < rest.len() && rest[j] == x;
                        assert(stack2[j] == x);
                    }
                    lemma_fetch_contains(db, stack2, v2, x, k, it);
                    let sub = spec_fetch(db, stack2, v2);
                    let i = choose|i: int| 0 <= i < sub.len() && sub[i] == it;
                    assert(spec_fetch(db, stack, visited)[items_of(db, id).len() + i] == it);
                },
            }
        }
    }
}

/// Round trip through the store: when a class name resolves to a class row,
/// each member recorded for that row appears, under its own name, among the
/// completion items fetched for the class.
pub proof fn lemma_fetch_contains_member(db: SymbolDb, c: Seq<char>, k: int, mj: int)
    requires
        best_class(db, c) == Some(k),
        0 <= mj < db.members@.len(),
        db.members@[mj].class_id == db.classes@[k].id,
    ensures
        spec_fetch(db, seq![c], Set::empty()).contains(member_item_view(db.members@[mj])),
{
    lemma_member_in_items(db, db.classes@[k].id, mj);
    assert(seq![c].contains(c)) by {
        assert(seq![c][0] == c);
    }
    lemma_fetch_contains(db, seq![c], Set::empty(), c, k, member_item_view(db.members@[mj]));
}

/// Round trip for enumerations: when an enum name resolves to a class row,
/// each value recorded for that row appears, under its own name, among the
/// completion items fetched for the enum.
pub proof fn lemma_fetch_contains_enum_value(db: SymbolDb, c: Seq<char>, k: int, ej: int)
    requires
        best_class(db, c) == Some(k),
        0 <= ej < db.enum_values@.len(),
        db.enum_values@[ej].enum_id == db.classes@[k].id,
    ensures
        spec_fetch(db, seq![c], Set::empty()).contains(enum_item_view(db.enum_values@[ej])),
{
    lemma_enum_in_items(db, db.classes@[k].id, ej);
    assert(seq![c].contains(c)) by {
        assert(seq![c][0] == c);
    }
    lemma_fetch_contains(db, seq![c], Set::empty(), c, k, enum_item_view(db.enum_values@[ej]));
}

/// Inheritance inclusion: when `b`'s class row has a recorded parent edge to
/// a differently-named class `a`, the members of `a`'s class row appear
/// among the completion items fetched for `b`.
pub proof fn lemma_inheritance_inclusion(
    db: SymbolDb,
    b: Seq<char>,
    kb: int,
    e: int,
    ka: int,
    mj: int,
)
    requires
        best_class(db, b) == Some(kb),
        0 <= e < db.inheritance@.len(),
        db.inheritance@[e].child_id == db.classes@[kb].id,
        best_class(db, db.inheritance@[e].parent_name@) == Some(ka),
        db.inheritance@[e].parent_name@ != b,
        0 <= mj < db.members@.len(),
        db.members@[mj].class_id == db.classes@[ka].id,
    ensures
        spec_fetch(db, seq![b], Set::empty()).contains(member_item_view(db.members@[mj])),
{
    let a = db.inheritance@[e].parent_name@;
    let idb = db.classes@[kb].id;
    let it = member_item_view(db.members@[mj]);
    lemma_member_in_items(db, db.classes@[ka].id, mj);
    assert(seq![b].contains(b)) by {
        assert(seq![b][0] == b);
    }
    // unfold one visit of `b`
    lemma_parents_of_id_bounds(db, idb, db.inheritance@.len() as int);
    lemma_measure_visit(db, seq![b], Set::empty(), parents_of_id(db, idb));
    let rest = seq![b].drop_first();
    let stack2 = rest + parents_of_id(db, idb);
    let v2 = Set::empty().insert(b);
    assert(spec_fetch(db, seq![b], Set::empty()) == items_of(db, idb) + spec_fetch(
        db,
        stack2,
        v2,
    ));
    // `a` stands among the pushed parents
    lemma_edge_in_parents(db, idb, e, db.inheritance@.len() as int);
    assert(stack2.contains(a)) by {
        let j = choose|j: int|
            0 <= j < parents_of_id(db, idb).len() && parents_of_id(db, idb)[j] == a;
        assert(stack2[rest.len() + j] == a);
    }
    assert(!v2.contains(a));
    lemma_fetch_contains(db, stack2, v2, a, ka, it);
    let sub = spec_fetch(db, stack2, v2);
    let i = choose|i: int| 0 <= i < sub.len() && sub[i] == it;
    assert(spec_fetch(db, seq![b], Set::empty())[items_of(db, idb).len() + i] == it);
}

proof fn lemma_edge_in_parents(db: SymbolDb, id: i64, e: int, n: int)
    requires
        0 <= e < n <= db.inheritance@.len(),
        db.inheritance@[e].child_id == id,
    ensures
        parents_of_id_upto(db, id, n).contains(db.inheritance@[e].parent_name@),
    decreases n,
{
    if n - 1 > e {
        lemma_edge_in_parents(db, id, e, n - 1);
        let s1 = parents_of_id_upto(db, id, n - 1);
        let i = choose|i: int| 0 <= i < s1.len() && s1[i] == db.inheritance@[e].parent_name@;
        assert(parents_of_id_upto(db, id, n)[i] == db.inheritance@[e].parent_name@);
    } else {
        let s1 = parents_of_id_upto(db, id, n - 1);
        assert(parents_of_id_upto(db, id, n)[s1.len() as int] == db.inheritance@[e].parent_name@);
    }
}

proof fn lemma_exists_class_extend(db: SymbolDb, name: Seq<char>, i: int, n: int)
    requires
        0 <= i < n <= db.classes@.len(),
        spec_eq_ci(db.classes@[i].name@, name),
    ensures
        exists_class_ci_upto(db, name, n),
    decreases n,
{
    if n - 1 > i {
        lemma_exists_class_extend(db, name, i, n - 1);
    }
}

} // verus!
