use unreal_completion::chars::trim_vec;
use unreal_completion::clean::extract_clean_type;
use unreal_completion::db::{ClassRow, CompletionItem, EnumValueRow, InheritRow, MemberRow,
    SymbolDb, fetch_members_recursive, find_member_return_type, is_known_type, map_kind,
    resolve_typedef};
use unreal_completion::infer::{infer_from_assignment, infer_from_value_text, infer_variable_type};
use unreal_completion::outside::load_symbol_db;
use unreal_completion::resolve::complete;
use unreal_completion::tree::{FieldLabel, NodeData, NodeKind, SyntaxTree, tree_from_nodes};

fn cv(s: &str) -> Vec<char> {
    s.chars().collect()
}

fn sv(v: &[char]) -> String {
    v.iter().collect()
}

fn class(id: i64, name: &str, symbol_type: &str, base_class: &str) -> ClassRow {
    ClassRow { id, name: cv(name), symbol_type: cv(symbol_type), base_class: cv(base_class) }
}

fn member(class_id: i64, name: &str, mtype: &str, return_type: Option<&str>) -> MemberRow {
    MemberRow {
        class_id,
        name: cv(name),
        mtype: cv(mtype),
        return_type: return_type.map(cv),
        detail: None,
    }
}

fn node(
    kind: NodeKind,
    text: &str,
    span: (usize, usize, usize, usize),
    parent: Option<usize>,
    children: Vec<usize>,
    field: FieldLabel,
) -> NodeData {
    NodeData {
        kind,
        text: cv(text),
        start_row: span.0,
        start_col: span.1,
        end_row: span.2,
        end_col: span.3,
        parent,
        children,
        field,
    }
}

fn tree(nodes: Vec<NodeData>) -> SyntaxTree {
    tree_from_nodes(nodes).expect("tree should be well formed")
}

fn empty_db() -> SymbolDb {
    SymbolDb { classes: vec![], members: vec![], inheritance: vec![], enum_values: vec![] }
}

fn assert_items_shape(items: &[CompletionItem]) {
    for it in items {
        assert!(it.kind == 1 || it.kind == 2 || it.kind == 5 || it.kind == 20);
        assert_eq!(sv(&it.label), sv(&it.insert_text));
    }
}

fn labels(items: &[CompletionItem]) -> Vec<String> {
    items.iter().map(|it| sv(&it.label)).collect()
}

// ---------------------------------------------------------------------------
// The type cleaner
// ---------------------------------------------------------------------------
#[test]
fn clean_peels_every_wrapper() {
    let wrappers = ["TObjectPtr", "TSharedPtr", "TUniquePtr", "TWeakObjectPtr", "TSubclassOf",
        "TSoftObjectPtr", "TSoftClassPtr", "TEnumAsByte"];
    for w in wrappers {
        let raw = cv(&format!("{}<UFoo>", w));
        assert_eq!(sv(&extract_clean_type(&raw)), "UFoo");
    }
}

#[test]
fn clean_drops_other_template_arguments() {
    assert_eq!(sv(&extract_clean_type(&cv("TArray<FFoo>"))), "TArray");
    assert_eq!(sv(&extract_clean_type(&cv("TMap<FName, int32>"))), "TMap");
}

#[test]
fn clean_removes_keywords_and_api_macros() {
    assert_eq!(sv(&extract_clean_type(&cv("const UObject*"))), "UObject");
    assert_eq!(sv(&extract_clean_type(&cv("MYMODULE_API UClass"))), "UClass");
    assert_eq!(sv(&extract_clean_type(&cv("virtual static UFoo&"))), "UFoo");
    assert_eq!(sv(&extract_clean_type(&cv("class AActor *"))), "AActor");
}

#[test]
fn clean_takes_last_scope_segment() {
    assert_eq!(sv(&extract_clean_type(&cv("UE::Math::TTransform<double>"))), "TTransform");
    assert_eq!(sv(&extract_clean_type(&cv("Foo::Bar"))), "Bar");
}

#[test]
fn clean_nested_wrappers_peel_recursively() {
    assert_eq!(sv(&extract_clean_type(&cv("TObjectPtr<TSharedPtr<UFoo>>"))), "UFoo");
}

#[test]
fn clean_empty_input_stays_empty() {
    assert_eq!(sv(&extract_clean_type(&cv(""))), "");
}

#[test]
fn clean_is_idempotent_on_examples() {
    let inputs = ["TObjectPtr<UFoo>", "const UObject*", "UE::Math::TTransform<double>",
        "MYMODULE_API UClass", "TArray<FFoo>", "", "void", "T*", "auto x"];
    for raw in inputs {
        let once = extract_clean_type(&cv(raw));
        let twice = extract_clean_type(&once);
        assert_eq!(sv(&once), sv(&twice));
    }
}

// ---------------------------------------------------------------------------
// Kind codes
// ---------------------------------------------------------------------------
#[test]
fn map_kind_codes() {
    assert_eq!(map_kind(&cv("function")), 2);
    assert_eq!(map_kind(&cv("variable")), 5);
    assert_eq!(map_kind(&cv("property")), 5);
    assert_eq!(map_kind(&cv("enum_item")), 20);
    assert_eq!(map_kind(&cv("anything else")), 1);
}

// ---------------------------------------------------------------------------
// Value-text inference
// ---------------------------------------------------------------------------
#[test]
fn infer_value_create_default_subobject() {
    let r = infer_from_value_text(&cv("CreateDefaultSubobject<USceneComponent>(TEXT(\"Root\"))"));
    assert_eq!(sv(&r.expect("should infer")), "USceneComponent");
}

#[test]
fn infer_value_new_object_peels_argument() {
    let r = infer_from_value_text(&cv("NewObject<UFoo>(GetOuter())"));
    assert_eq!(sv(&r.expect("should infer")), "UFoo");
}

#[test]
fn infer_value_other_template_keeps_wrapper() {
    let r = infer_from_value_text(&cv("MakeShared<FVector>()"));
    assert_eq!(sv(&r.expect("should infer")), "MakeShared");
}

#[test]
fn infer_value_constructor_call() {
    let r = infer_from_value_text(&cv("FVector(1, 2, 3)"));
    assert_eq!(sv(&r.expect("should infer")), "FVector");
}

#[test]
fn infer_value_no_match() {
    assert!(infer_from_value_text(&cv("42 + 17")).is_none());
}

#[test]
fn assignment_scan_takes_latest_binding() {
    // obj = FVector(1);  then  obj = NewObject<UBar>();
    let t = tree(vec![
        node(NodeKind::Other, "obj = FVector(1); obj = NewObject<UBar>();", (0, 0, 2, 0), None,
            vec![1, 4], FieldLabel::FNone),
        node(NodeKind::AssignmentExpression, "obj = FVector(1)", (0, 0, 0, 16), Some(0),
            vec![2, 3], FieldLabel::FNone),
        node(NodeKind::Identifier, "obj", (0, 0, 0, 3), Some(1), vec![], FieldLabel::FLeft),
        node(NodeKind::Other, "FVector(1)", (0, 6, 0, 16), Some(1), vec![], FieldLabel::FRight),
        node(NodeKind::AssignmentExpression, "obj = NewObject<UBar>()", (1, 0, 1, 23), Some(0),
            vec![5, 6], FieldLabel::FNone),
        node(NodeKind::Identifier, "obj", (1, 0, 1, 3), Some(4), vec![], FieldLabel::FLeft),
        node(NodeKind::Other, "NewObject<UBar>()", (1, 6, 1, 23), Some(4), vec![],
            FieldLabel::FRight),
    ]);
    let latest = infer_from_assignment(&t, &cv("obj"), 5);
    assert_eq!(sv(&latest.expect("should infer")), "UBar");
    // with the cursor on the first line, only the first binding counts
    let early = infer_from_assignment(&t, &cv("obj"), 0);
    assert_eq!(sv(&early.expect("should infer")), "FVector");
}

#[test]
fn auto_binding_without_initializer_yields_nothing() {
    // UFoo x;  then  auto x;  — the latest declaration alone decides
    let t = tree(vec![
        node(NodeKind::Other, "UFoo x; auto x;", (0, 0, 2, 0), None, vec![1, 4],
            FieldLabel::FNone),
        node(NodeKind::Declaration, "UFoo x;", (0, 0, 0, 7), Some(0), vec![2, 3],
            FieldLabel::FNone),
        node(NodeKind::TypeIdentifier, "UFoo", (0, 0, 0, 4), Some(1), vec![], FieldLabel::FType),
        node(NodeKind::Identifier, "x", (0, 5, 0, 6), Some(1), vec![], FieldLabel::FDeclarator),
        node(NodeKind::Declaration, "auto x;", (1, 0, 1, 7), Some(0), vec![5, 6],
            FieldLabel::FNone),
        node(NodeKind::Other, "auto", (1, 0, 1, 4), Some(4), vec![], FieldLabel::FType),
        node(NodeKind::Identifier, "x", (1, 5, 1, 6), Some(4), vec![], FieldLabel::FDeclarator),
    ]);
    // the latest binding is auto and nothing initializes x: no type
    assert!(infer_variable_type(&t, &cv("x"), 5).is_none());
    // with the cursor on the first line, the first declaration decides
    let early = infer_variable_type(&t, &cv("x"), 0);
    assert_eq!(sv(&early.expect("should infer")), "UFoo");
}

// ---------------------------------------------------------------------------
// Typedef resolution
// ---------------------------------------------------------------------------
#[test]
fn typedef_chase_cleans_each_step() {
    let db = SymbolDb {
        classes: vec![
            class(1, "FTransform", "typedef", "UE::Math::TTransform<double>"),
            class(2, "TTransform", "class", ""),
        ],
        members: vec![],
        inheritance: vec![],
        enum_values: vec![],
    };
    assert_eq!(sv(&resolve_typedef(&db, &cv("FTransform"))), "TTransform");
}

#[test]
fn typedef_stops_after_three_steps() {
    let db = SymbolDb {
        classes: vec![
            class(1, "A", "typedef", "B"),
            class(2, "B", "typedef", "C"),
            class(3, "C", "typedef", "D"),
            class(4, "D", "typedef", "E"),
        ],
        members: vec![],
        inheritance: vec![],
        enum_values: vec![],
    };
    assert_eq!(sv(&resolve_typedef(&db, &cv("A"))), "D");
}

#[test]
fn typedef_cycle_terminates() {
    let db = SymbolDb {
        classes: vec![class(1, "A", "typedef", "B"), class(2, "B", "typedef", "A")],
        members: vec![],
        inheritance: vec![],
        enum_values: vec![],
    };
    assert_eq!(sv(&resolve_typedef(&db, &cv("A"))), "B");
}

#[test]
fn typedef_uninformative_names_pass_through() {
    let db = empty_db();
    assert_eq!(sv(&resolve_typedef(&db, &cv("void"))), "void");
    assert_eq!(sv(&resolve_typedef(&db, &cv("T*"))), "T");
}

// ---------------------------------------------------------------------------
// Member assembly and inheritance
// ---------------------------------------------------------------------------
#[test]
fn fetch_includes_inherited_members() {
    let db = SymbolDb {
        classes: vec![class(1, "AActor", "class", ""), class(2, "APawn", "class", "")],
        members: vec![
            member(1, "GetName", "function", Some("FString")),
            member(2, "GetController", "function", Some("AController*")),
        ],
        inheritance: vec![InheritRow { child_id: 2, parent_name: cv("AActor") }],
        enum_values: vec![],
    };
    let items = fetch_members_recursive(&db, &cv("APawn"));
    let ls = labels(&items);
    assert!(ls.contains(&"GetController".to_string()));
    assert!(ls.contains(&"GetName".to_string()));
    assert_items_shape(&items);
}

#[test]
fn fetch_terminates_on_inheritance_cycle() {
    let db = SymbolDb {
        classes: vec![class(1, "A", "class", ""), class(2, "B", "class", "")],
        members: vec![member(1, "fa", "variable", Some("int")), member(
            2,
            "fb",
            "variable",
            Some("int"),
        )],
        inheritance: vec![
            InheritRow { child_id: 1, parent_name: cv("B") },
            InheritRow { child_id: 2, parent_name: cv("A") },
        ],
        enum_values: vec![],
    };
    let items = fetch_members_recursive(&db, &cv("A"));
    assert_eq!(items.len(), 2);
    let ls = labels(&items);
    assert!(ls.contains(&"fa".to_string()));
    assert!(ls.contains(&"fb".to_string()));
}

#[test]
fn fetch_prefers_class_row_with_most_members() {
    let db = SymbolDb {
        classes: vec![class(1, "Foo", "class", ""), class(2, "foo", "class", "")],
        members: vec![
            member(1, "lonely", "variable", Some("int")),
            member(2, "a", "variable", Some("int")),
            member(2, "b", "variable", Some("int")),
        ],
        inheritance: vec![],
        enum_values: vec![],
    };
    let items = fetch_members_recursive(&db, &cv("Foo"));
    let ls = labels(&items);
    assert_eq!(items.len(), 2);
    assert!(ls.contains(&"a".to_string()));
    assert!(ls.contains(&"b".to_string()));
}

#[test]
fn fetch_emits_enum_values() {
    let db = SymbolDb {
        classes: vec![class(7, "EMyEnum", "enum", "")],
        members: vec![],
        inheritance: vec![],
        enum_values: vec![
            EnumValueRow { enum_id: 7, name: cv("A") },
            EnumValueRow { enum_id: 7, name: cv("B") },
        ],
    };
    let items = fetch_members_recursive(&db, &cv("EMyEnum"));
    assert_eq!(items.len(), 2);
    for it in &items {
        assert_eq!(it.kind, 20);
        assert_eq!(sv(&it.detail), "enum item");
    }
}

#[test]
fn member_lookup_prefers_informative_and_longer_return() {
    let db = SymbolDb {
        classes: vec![class(1, "C", "class", "")],
        members: vec![
            member(1, "Get", "function", Some("T")),
            member(1, "Get", "function", Some("UBar*")),
            member(1, "Get", "function", Some("UB*")),
        ],
        inheritance: vec![],
        enum_values: vec![],
    };
    let r = find_member_return_type(&db, &cv("C"), &cv("Get"));
    assert_eq!(sv(&r.expect("should find")), "UBar");
}

#[test]
fn member_lookup_searches_parents() {
    let db = SymbolDb {
        classes: vec![class(1, "Base", "class", ""), class(2, "Derived", "class", "")],
        members: vec![member(1, "GetOwner", "function", Some("AActor*"))],
        inheritance: vec![InheritRow { child_id: 2, parent_name: cv("Base") }],
        enum_values: vec![],
    };
    let r = find_member_return_type(&db, &cv("Derived"), &cv("GetOwner"));
    assert_eq!(sv(&r.expect("should find")), "AActor");
}

#[test]
fn known_type_check_is_case_insensitive() {
    let db = SymbolDb {
        classes: vec![class(1, "UFoo", "class", "")],
        members: vec![],
        inheritance: vec![],
        enum_values: vec![],
    };
    assert!(is_known_type(&db, &cv("ufoo")));
    assert!(is_known_type(&db, &cv("const UFoo*")));
    assert!(!is_known_type(&db, &cv("UBar")));
}

// ---------------------------------------------------------------------------
// Full requests over hand-shaped trees
// ---------------------------------------------------------------------------
#[test]
fn implicit_this_offers_enclosing_class_members() {
    // class C { void f() { x| } int m; };
    let t = tree(vec![
        node(NodeKind::ClassSpecifier, "class C { void f() { x } int m; };", (0, 0, 0, 40), None,
            vec![1, 2], FieldLabel::FNone),
        node(NodeKind::TypeIdentifier, "C", (0, 6, 0, 7), Some(0), vec![], FieldLabel::FName),
        node(NodeKind::Identifier, "x", (0, 21, 0, 22), Some(0), vec![], FieldLabel::FNone),
    ]);
    let db = SymbolDb {
        classes: vec![class(1, "C", "class", "")],
        members: vec![member(1, "m", "variable", Some("int"))],
        inheritance: vec![],
        enum_values: vec![],
    };
    let items = complete(&db, &t, 0, 22);
    assert_eq!(items.len(), 1);
    assert_eq!(sv(&items[0].label), "m");
    assert_eq!(items[0].kind, 5);
    assert_eq!(sv(&items[0].detail), "int");
    assert_items_shape(&items);
}

#[test]
fn arrow_on_inferred_auto_object() {
    // auto obj = NewObject<UFoo>(); obj->|
    let t = tree(vec![
        node(NodeKind::Other, "auto obj = NewObject<UFoo>(); obj->", (0, 0, 0, 36), None,
            vec![1, 6, 7], FieldLabel::FNone),
        node(NodeKind::Declaration, "auto obj = NewObject<UFoo>();", (0, 0, 0, 29), Some(0),
            vec![2, 3], FieldLabel::FNone),
        node(NodeKind::Other, "auto", (0, 0, 0, 4), Some(1), vec![], FieldLabel::FType),
        node(NodeKind::InitDeclarator, "obj = NewObject<UFoo>()", (0, 5, 0, 28), Some(1),
            vec![4, 5], FieldLabel::FDeclarator),
        node(NodeKind::Identifier, "obj", (0, 5, 0, 8), Some(3), vec![], FieldLabel::FDeclarator),
        node(NodeKind::CallExpression, "NewObject<UFoo>()", (0, 11, 0, 28), Some(3), vec![],
            FieldLabel::FValue),
        node(NodeKind::Identifier, "obj", (0, 30, 0, 33), Some(0), vec![], FieldLabel::FNone),
        node(NodeKind::Arrow, "->", (0, 33, 0, 35), Some(0), vec![], FieldLabel::FNone),
    ]);
    let db = SymbolDb {
        classes: vec![class(1, "UFoo", "class", "")],
        members: vec![member(1, "Bar", "function", Some("UBar*"))],
        inheritance: vec![],
        enum_values: vec![],
    };
    let items = complete(&db, &t, 0, 35);
    assert_eq!(items.len(), 1);
    assert_eq!(sv(&items[0].label), "Bar");
    assert_eq!(items[0].kind, 2);
    assert_eq!(sv(&items[0].detail), "UBar");
    assert_items_shape(&items);
}

#[test]
fn static_scope_offers_enum_values() {
    // EMyEnum::|
    let t = tree(vec![
        node(NodeKind::Other, "EMyEnum::", (0, 0, 0, 9), None, vec![1, 2], FieldLabel::FNone),
        node(NodeKind::Identifier, "EMyEnum", (0, 0, 0, 7), Some(0), vec![], FieldLabel::FNone),
        node(NodeKind::ColonColon, "::", (0, 7, 0, 9), Some(0), vec![], FieldLabel::FNone),
    ]);
    let db = SymbolDb {
        classes: vec![class(1, "EMyEnum", "enum", "")],
        members: vec![],
        inheritance: vec![],
        enum_values: vec![
            EnumValueRow { enum_id: 1, name: cv("A") },
            EnumValueRow { enum_id: 1, name: cv("B") },
            EnumValueRow { enum_id: 1, name: cv("C") },
        ],
    };
    let items = complete(&db, &t, 0, 9);
    assert_eq!(items.len(), 3);
    assert_eq!(labels(&items), vec!["A", "B", "C"]);
    for it in &items {
        assert_eq!(it.kind, 20);
    }
    assert_items_shape(&items);
}

#[test]
fn typedef_chase_reaches_target_members() {
    // FTransform t; t.|
    let t = tree(vec![
        node(NodeKind::Other, "FTransform t; t.", (0, 0, 0, 16), None, vec![1, 4, 5],
            FieldLabel::FNone),
        node(NodeKind::Declaration, "FTransform t;", (0, 0, 0, 13), Some(0), vec![2, 3],
            FieldLabel::FNone),
        node(NodeKind::TypeIdentifier, "FTransform", (0, 0, 0, 10), Some(1), vec![],
            FieldLabel::FType),
        node(NodeKind::Identifier, "t", (0, 11, 0, 12), Some(1), vec![], FieldLabel::FDeclarator),
        node(NodeKind::Identifier, "t", (0, 14, 0, 15), Some(0), vec![], FieldLabel::FNone),
        node(NodeKind::Dot, ".", (0, 15, 0, 16), Some(0), vec![], FieldLabel::FNone),
    ]);
    let db = SymbolDb {
        classes: vec![
            class(1, "FTransform", "typedef", "UE::Math::TTransform<double>"),
            class(2, "TTransform", "class", ""),
        ],
        members: vec![member(2, "GetLocation", "function", Some("FVector"))],
        inheritance: vec![],
        enum_values: vec![],
    };
    let items = complete(&db, &t, 0, 16);
    assert_eq!(labels(&items), vec!["GetLocation"]);
    assert_items_shape(&items);
}

#[test]
fn chained_call_resolves_through_return_type() {
    // GetOwner()->| inside class C
    let t = tree(vec![
        node(NodeKind::ClassSpecifier, "class C { GetOwner()-> };", (0, 0, 0, 40), None,
            vec![1, 2, 5], FieldLabel::FNone),
        node(NodeKind::TypeIdentifier, "C", (0, 6, 0, 7), Some(0), vec![], FieldLabel::FName),
        node(NodeKind::CallExpression, "GetOwner()", (0, 10, 0, 20), Some(0), vec![3, 4],
            FieldLabel::FNone),
        node(NodeKind::Identifier, "GetOwner", (0, 10, 0, 18), Some(2), vec![],
            FieldLabel::FFunction),
        node(NodeKind::Other, "()", (0, 18, 0, 20), Some(2), vec![], FieldLabel::FNone),
        node(NodeKind::Arrow, "->", (0, 20, 0, 22), Some(0), vec![], FieldLabel::FNone),
    ]);
    let db = SymbolDb {
        classes: vec![class(1, "C", "class", ""), class(2, "AActor", "class", "")],
        members: vec![
            member(1, "GetOwner", "function", Some("AActor*")),
            member(2, "GetName", "function", Some("FString")),
        ],
        inheritance: vec![],
        enum_values: vec![],
    };
    let items = complete(&db, &t, 0, 22);
    assert_eq!(labels(&items), vec!["GetName"]);
    assert_items_shape(&items);
}

#[test]
fn error_recovery_node_still_resolves_object() {
    // UFoo obj; obj.   (with error-recovery node around the dangling access)
    let t = tree(vec![
        node(NodeKind::Other, "UFoo obj; obj.\n", (0, 0, 1, 0), None, vec![1, 4],
            FieldLabel::FNone),
        node(NodeKind::Declaration, "UFoo obj;", (0, 0, 0, 9), Some(0), vec![2, 3],
            FieldLabel::FNone),
        node(NodeKind::TypeIdentifier, "UFoo", (0, 0, 0, 4), Some(1), vec![], FieldLabel::FType),
        node(NodeKind::Identifier, "obj", (0, 5, 0, 8), Some(1), vec![], FieldLabel::FDeclarator),
        node(NodeKind::Error, "obj.", (0, 10, 1, 0), Some(0), vec![5, 6], FieldLabel::FNone),
        node(NodeKind::Identifier, "obj", (0, 10, 0, 13), Some(4), vec![], FieldLabel::FNone),
        node(NodeKind::Dot, ".", (0, 13, 0, 14), Some(4), vec![], FieldLabel::FNone),
    ]);
    let db = SymbolDb {
        classes: vec![class(1, "UFoo", "class", "")],
        members: vec![
            member(1, "Bar", "function", Some("UBar*")),
            member(1, "Baz", "variable", Some("int")),
        ],
        inheritance: vec![],
        enum_values: vec![],
    };
    let items = complete(&db, &t, 0, 15);
    let ls = labels(&items);
    assert!(ls.contains(&"Bar".to_string()));
    assert!(ls.contains(&"Baz".to_string()));
    assert_items_shape(&items);
}

#[test]
fn round_trip_member_appears_for_declared_variable() {
    // C x; x.|
    let t = tree(vec![
        node(NodeKind::Other, "C x; x.", (0, 0, 0, 7), None, vec![1, 4, 5], FieldLabel::FNone),
        node(NodeKind::Declaration, "C x;", (0, 0, 0, 4), Some(0), vec![2, 3], FieldLabel::FNone),
        node(NodeKind::TypeIdentifier, "C", (0, 0, 0, 1), Some(1), vec![], FieldLabel::FType),
        node(NodeKind::Identifier, "x", (0, 2, 0, 3), Some(1), vec![], FieldLabel::FDeclarator),
        node(NodeKind::Identifier, "x", (0, 5, 0, 6), Some(0), vec![], FieldLabel::FNone),
        node(NodeKind::Dot, ".", (0, 6, 0, 7), Some(0), vec![], FieldLabel::FNone),
    ]);
    let db = SymbolDb {
        classes: vec![class(1, "C", "class", "")],
        members: vec![member(1, "m", "function", Some("UBar"))],
        inheritance: vec![],
        enum_values: vec![],
    };
    let items = complete(&db, &t, 0, 7);
    assert_eq!(labels(&items), vec!["m"]);
    assert_items_shape(&items);
}

#[test]
fn lone_colon_counts_as_scope_access() {
    // EMyEnum:| while the second colon is still being typed
    let t = tree(vec![
        node(NodeKind::Other, "EMyEnum::", (0, 0, 0, 9), None, vec![1, 2], FieldLabel::FNone),
        node(NodeKind::Identifier, "EMyEnum", (0, 0, 0, 7), Some(0), vec![], FieldLabel::FNone),
        node(NodeKind::ColonColon, "::", (0, 7, 0, 9), Some(0), vec![3], FieldLabel::FNone),
        node(NodeKind::Colon, ":", (0, 8, 0, 9), Some(2), vec![], FieldLabel::FNone),
    ]);
    let db = SymbolDb {
        classes: vec![class(1, "EMyEnum", "enum", "")],
        members: vec![],
        inheritance: vec![],
        enum_values: vec![EnumValueRow { enum_id: 1, name: cv("A") }],
    };
    let items = complete(&db, &t, 0, 9);
    assert_eq!(labels(&items), vec!["A"]);
}

#[test]
fn operator_skips_comment_and_whitespace_siblings() {
    let t = tree(vec![
        node(NodeKind::Other, "x /*c*/ .", (0, 0, 0, 9), None, vec![1, 2, 3, 4],
            FieldLabel::FNone),
        node(NodeKind::Identifier, "x", (0, 0, 0, 1), Some(0), vec![], FieldLabel::FNone),
        node(NodeKind::Whitespace, " ", (0, 1, 0, 2), Some(0), vec![], FieldLabel::FNone),
        node(NodeKind::Comment, "/*c*/", (0, 2, 0, 7), Some(0), vec![], FieldLabel::FNone),
        node(NodeKind::Dot, ".", (0, 8, 0, 9), Some(0), vec![], FieldLabel::FNone),
    ]);
    let db = SymbolDb {
        classes: vec![class(1, "x", "class", "")],
        members: vec![member(1, "f", "variable", Some("int"))],
        inheritance: vec![],
        enum_values: vec![],
    };
    let items = complete(&db, &t, 0, 9);
    assert_eq!(labels(&items), vec!["f"]);
}

#[test]
fn unresolvable_context_yields_empty_list() {
    let t = tree(vec![node(NodeKind::Other, "1 + 2", (0, 0, 0, 5), None, vec![],
        FieldLabel::FNone)]);
    let items = complete(&empty_db(), &t, 0, 3);
    assert!(items.is_empty());
    let far = complete(&empty_db(), &t, 9, 9);
    assert!(far.is_empty());
}

// ---------------------------------------------------------------------------
// Tree construction
// ---------------------------------------------------------------------------
#[test]
fn malformed_arena_is_rejected() {
    // a node naming a later node as its parent is refused
    let bad = vec![
        node(NodeKind::Other, "", (0, 0, 0, 5), Some(1), vec![], FieldLabel::FNone),
        node(NodeKind::Other, "", (0, 0, 0, 5), None, vec![0], FieldLabel::FNone),
    ];
    assert!(tree_from_nodes(bad).is_none());
}

// ---------------------------------------------------------------------------
// Loading from a real store
// ---------------------------------------------------------------------------
#[test]
fn loads_symbol_database_from_sqlite() {
    let conn = rusqlite::Connection::open_in_memory().expect("open");
    conn.execute_batch(
        "CREATE TABLE classes(id INTEGER, name TEXT, symbol_type TEXT, base_class TEXT);
         CREATE TABLE members(id INTEGER, class_id INTEGER, name TEXT, type TEXT,
                              return_type TEXT, access TEXT, is_static INTEGER, detail TEXT);
         CREATE TABLE inheritance(child_id INTEGER, parent_name TEXT);
         CREATE TABLE enum_values(id INTEGER, enum_id INTEGER, name TEXT);
         INSERT INTO classes VALUES (1, 'AActor', 'class', NULL);
         INSERT INTO classes VALUES (2, 'APawn', 'class', NULL);
         INSERT INTO members VALUES (1, 1, 'GetName', 'function', 'FString', 'public', 0, 'doc');
         INSERT INTO members VALUES (2, 2, 'GetController', 'function', 'AController*', 'public', 0, NULL);
         INSERT INTO inheritance VALUES (2, 'AActor');",
    ).expect("schema");
    let db = load_symbol_db(&conn).expect("load");
    assert_eq!(db.classes.len(), 2);
    assert_eq!(db.members.len(), 2);
    assert_eq!(db.inheritance.len(), 1);
    let items = fetch_members_recursive(&db, &cv("APawn"));
    let ls = labels(&items);
    assert!(ls.contains(&"GetController".to_string()));
    assert!(ls.contains(&"GetName".to_string()));
    assert_items_shape(&items);
    let ctl = items.iter().find(|it| sv(&it.label) == "GetController").expect("present");
    assert_eq!(sv(&ctl.detail), "AController");
    let nm = items.iter().find(|it| sv(&it.label) == "GetName").expect("present");
    assert_eq!(sv(&nm.documentation), "doc");
}

#[test]
fn trimming_drops_surrounding_whitespace() {
    assert_eq!(sv(&trim_vec(&cv("  UFoo \t"))), "UFoo");
    assert_eq!(sv(&trim_vec(&cv(""))), "");
}
