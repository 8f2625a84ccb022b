use fe_analyzer::ast::{
    ConstantDecl, Expr, Contract, Field, Function, FunctionArg, Module, ModuleStmt, Name, Path, Span, Struct, Use,
};
use fe_analyzer::db::{Db, FileKind, IngotMode};
use fe_analyzer::depgraph::{walk_local_dependencies, DepGraph, DepLocality};
use fe_analyzer::entities::{Constant, Type};
use fe_analyzer::ids::{Base, IngotId, Integer, Item, ModuleId, TypeDef};
use fe_analyzer::ingot::ParsedFile;
use fe_analyzer::namemap::NameMap;
use fe_analyzer::paths::{file_stem, split_path};
use fe_analyzer::scope::IncompleteItem;

fn span() -> Span {
    Span { start: 0, end: 0 }
}

fn name(s: &str) -> Name {
    Name { text: s.to_string(), span: span() }
}

fn path(segs: &[&str]) -> Path {
    Path { segments: segs.iter().map(|s| name(s)).collect() }
}

fn field(n: &str, t: &[&str]) -> Field {
    Field { is_pub: true, name: name(n), typ: path(t), span: span() }
}

fn file(p: &str, body: Vec<ModuleStmt>) -> ParsedFile {
    ParsedFile { path: p.to_string(), ast: Module { body }, diagnostics: vec![], incomplete: false }
}

fn contract(n: &str, fields: Vec<Field>, functions: Vec<Function>) -> ModuleStmt {
    ModuleStmt::Contract(Contract { name: name(n), fields, functions, events: vec![], span: span() })
}

fn strukt(n: &str, fields: Vec<Field>) -> ModuleStmt {
    ModuleStmt::Struct(Struct { name: name(n), fields, functions: vec![], span: span() })
}

fn use_stmt(segs: &[&str], alias: Option<&str>) -> ModuleStmt {
    ModuleStmt::Use(Use { path: path(segs), alias: alias.map(name), span: span() })
}

fn function(n: &str, public: bool, args: Vec<FunctionArg>) -> Function {
    Function {
        pub_: if public { Some(span()) } else { None },
        unsafe_: None,
        name: name(n),
        args,
        return_type: None,
        span: span(),
    }
}

fn build(db: &mut Db, mode: IngotMode, files: Vec<ParsedFile>) -> IngotId {
    IngotId::from_files(db, "test", mode, FileKind::Local, &files, NameMap::new()).unwrap()
}

fn module_names(db: &Db, ingot: IngotId) -> Vec<String> {
    ingot.all_modules(db).iter().map(|m| m.name(db)).collect()
}

fn module_named(db: &Db, ingot: IngotId, n: &str) -> ModuleId {
    *ingot.all_modules(db).iter().find(|m| m.name(db) == n).unwrap()
}

fn scope_get(db: &Db, m: ModuleId, n: &str) -> Option<Item> {
    m.internal_items(db).get(&n.to_string())
}

#[test]
fn lib_only_ingot() {
    let mut db = Db::new();
    let ingot = build(&mut db, IngotMode::Lib, vec![file("src/lib.fe", vec![])]);
    assert_eq!(module_names(&db, ingot), vec!["lib".to_string()]);
    let root = ingot.root_module(&db).unwrap();
    assert_eq!(root.name(&db), "lib");
    assert!(ingot.diagnostics(&db).is_empty());
    assert_eq!(db.ingots[ingot.0 as usize].src_dir, "src");
}

#[test]
fn module_tree_follows_directories() {
    let mut db = Db::new();
    let ingot = build(
        &mut db,
        IngotMode::Lib,
        vec![file("src/lib.fe", vec![]), file("src/a/b/x.fe", vec![]), file("src/a/c/d/y.fe", vec![])],
    );
    let mut names = module_names(&db, ingot);
    names.sort();
    assert_eq!(names, vec!["a", "b", "c", "d", "lib", "x", "y"]);
    let a = module_named(&db, ingot, "a");
    let b = module_named(&db, ingot, "b");
    let subs_a: Vec<String> = a.submodules(&db).iter().map(|m| m.name(&db)).collect();
    assert_eq!(subs_a, vec!["b", "c"]);
    let subs_b: Vec<String> = b.submodules(&db).iter().map(|m| m.name(&db)).collect();
    assert_eq!(subs_b, vec!["x"]);
    let root = ingot.root_module(&db).unwrap();
    let subs_root: Vec<String> = root.submodules(&db).iter().map(|m| m.name(&db)).collect();
    assert_eq!(subs_root, vec!["a"]);
}

#[test]
fn contract_field_of_primitive_type() {
    let mut db = Db::new();
    let ingot = build(
        &mut db,
        IngotMode::Main,
        vec![file("src/main.fe", vec![contract("Foo", vec![field("x", &["u256"])], vec![])])],
    );
    let root = ingot.root_module(&db).unwrap();
    let foo = match scope_get(&db, root, "Foo") {
        Some(Item::Type(TypeDef::Contract(c))) => c,
        other => panic!("expected a contract, got {:?}", other),
    };
    let x = foo.fields(&db).get(&"x".to_string()).unwrap();
    let u256 = Type::Base(Base::Numeric(Integer::U256));
    assert_eq!(x.typ(&db).value, Ok(u256));
    assert_eq!(foo.field_type(&db, &"x".to_string()).map(|(t, i)| (t, i)), Some((Ok(u256), 0)));
    let g = foo.dependency_graph(&db);
    let foo_item = Item::Type(TypeDef::Contract(foo));
    let u256_item = Item::Type(TypeDef::Primitive(Base::Numeric(Integer::U256)));
    assert!(g.edges.contains(&(foo_item, u256_item, DepLocality::Local)));
    assert!(g.nodes.contains(&foo_item) && g.nodes.contains(&u256_item));
}

#[test]
fn use_of_ingot_path_resolves() {
    let mut db = Db::new();
    let ingot = build(
        &mut db,
        IngotMode::Main,
        vec![
            file("src/main.fe", vec![use_stmt(&["ingot", "a", "b", "T"], None)]),
            file("src/a/b.fe", vec![strukt("T", vec![])]),
        ],
    );
    let root = ingot.root_module(&db).unwrap();
    let res = root.resolve_path_internal(&db, &path(&["T"]));
    let t = match res.value {
        Some(Item::Type(TypeDef::Struct(s))) => s,
        other => panic!("expected a struct, got {:?}", other),
    };
    assert_eq!(db.structs[t.0 as usize].module, module_named(&db, ingot, "b"));
    assert!(res.diagnostics.is_empty());
}

#[test]
fn use_resolution_skips_imported_names() {
    let mut db = Db::new();
    let ingot = build(
        &mut db,
        IngotMode::Main,
        vec![
            file("src/main.fe", vec![use_stmt(&["a", "T"], None), use_stmt(&["ingot", "T"], Some("U"))]),
            file("src/a.fe", vec![strukt("T", vec![])]),
        ],
    );
    let root = ingot.root_module(&db).unwrap();
    let cycle_safe = root.resolve_path_non_used_internal(&db, &path(&["T"]));
    assert_eq!(cycle_safe.value, None);
    assert_eq!(cycle_safe.diagnostics.len(), 1);
    assert_eq!(cycle_safe.diagnostics[0].message, "unresolved path item");
    let full = root.resolve_path_internal(&db, &path(&["T"]));
    assert!(matches!(full.value, Some(Item::Type(TypeDef::Struct(_)))));
    assert_eq!(scope_get(&db, root, "U"), None);
}

#[test]
fn missing_main_module() {
    let mut db = Db::new();
    let ingot = build(&mut db, IngotMode::Main, vec![file("src/other.fe", vec![contract("C", vec![field("x", &["nope"])], vec![])])]);
    assert_eq!(ingot.root_module(&db), None);
    let diags = ingot.diagnostics(&db);
    assert_eq!(diags.len(), 1);
    assert!(diags[0].message.contains("missing a `main` module"));
    assert!(diags[0].message.contains("The ingot named \"test\""));
}

#[test]
fn missing_lib_module() {
    let mut db = Db::new();
    let ingot = build(&mut db, IngotMode::Lib, vec![file("src/a.fe", vec![]), file("src/b.fe", vec![])]);
    let diags = ingot.diagnostics(&db);
    assert_eq!(diags.len(), 1);
    assert!(diags[0].message.contains("missing a `lib` module"));
    assert!(diags[0].message.contains("src/lib.fe"));
}

#[test]
fn empty_path_gives_start() {
    let mut db = Db::new();
    let ingot = build(&mut db, IngotMode::Lib, vec![file("src/lib.fe", vec![])]);
    let root = ingot.root_module(&db).unwrap();
    let res = Item::Module(root).resolve_path_segments(&db, &vec![]);
    assert_eq!(res.value, Some(Item::Module(root)));
    assert!(res.diagnostics.is_empty());
}

#[test]
fn single_file_ingot() {
    let mut db = Db::new();
    let ingot = IngotId::from_files(
        &mut db,
        "",
        IngotMode::StandaloneModule,
        FileKind::Local,
        &vec![file("contracts/demo/token.v2.fe", vec![])],
        NameMap::new(),
    )
    .unwrap();
    assert_eq!(db.ingots[ingot.0 as usize].src_dir, "contracts/demo");
    let root = ingot.root_module(&db).unwrap();
    assert_eq!(root.name(&db), "token.v2");
    assert_eq!(module_names(&db, ingot).len(), 1);
}

#[test]
fn file_owns_directory_scope() {
    let mut db = Db::new();
    let ingot = build(
        &mut db,
        IngotMode::Lib,
        vec![file("src/lib.fe", vec![]), file("src/a.fe", vec![]), file("src/a/b.fe", vec![])],
    );
    assert_eq!(module_names(&db, ingot), vec!["lib", "a", "b"]);
    let a = module_named(&db, ingot, "a");
    let b = module_named(&db, ingot, "b");
    assert_eq!(b.parent_module(&db), Some(a));
    assert_eq!(scope_get(&db, a, "b"), Some(Item::Module(b)));
}

#[test]
fn prelude_name_collision() {
    let mut db = Db::new();
    let ingot = build(&mut db, IngotMode::Lib, vec![file("src/lib.fe", vec![strukt("u8", vec![]), strukt("S", vec![]), strukt("S", vec![])])]);
    let root = ingot.root_module(&db).unwrap();
    let all = root.all_items(&db);
    assert_eq!(all.len(), 3);
    assert_eq!(scope_get(&db, root, "u8"), Some(Item::Type(TypeDef::Primitive(Base::Numeric(Integer::U8)))));
    assert_eq!(scope_get(&db, root, "S"), Some(all[1]));
    let diags = ingot.diagnostics(&db);
    assert_eq!(diags.len(), 2);
    assert!(diags[1].message.contains("already been defined"));
}

#[test]
fn interning_is_idempotent() {
    let mut db = Db::new();
    let files = vec![file("src/lib.fe", vec![]), file("src/a/x.fe", vec![])];
    let first = build(&mut db, IngotMode::Lib, files.clone());
    let dirs_before: Vec<ModuleId> = first.all_modules(&db).into_iter().skip(2).collect();
    let second = build(&mut db, IngotMode::Lib, files);
    assert_eq!(first, second);
    let dirs_after: Vec<ModuleId> = second.all_modules(&db).into_iter().skip(2).collect();
    assert_eq!(dirs_before, dirs_after);
    assert_eq!(db.ingots.len(), 1);
}

#[test]
fn path_of_nested_item() {
    let mut db = Db::new();
    let ingot = build(
        &mut db,
        IngotMode::Lib,
        vec![file("src/lib.fe", vec![]), file("src/a/b.fe", vec![contract("Foo", vec![], vec![function("run", true, vec![])])])],
    );
    let b = module_named(&db, ingot, "b");
    let foo = scope_get(&db, b, "Foo").unwrap();
    assert_eq!(foo.path(&db), vec!["lib", "a", "b", "Foo"]);
    let run = match foo {
        Item::Type(TypeDef::Contract(c)) => c.function(&db, &"run".to_string()).unwrap(),
        _ => unreachable!(),
    };
    assert_eq!(Item::Function(run).path(&db), vec!["lib", "a", "b", "Foo", "run"]);
    assert_eq!(Item::Module(ingot.root_module(&db).unwrap()).path(&db), vec!["lib"]);
}

#[test]
fn scopes_are_nested() {
    let mut db = Db::new();
    let ingot = build(
        &mut db,
        IngotMode::Lib,
        vec![file("src/lib.fe", vec![use_stmt(&["a", "T"], None), strukt("S", vec![])]), file("src/a.fe", vec![strukt("T", vec![])])],
    );
    let root = ingot.root_module(&db).unwrap();
    let full = root.internal_items(&db);
    let safe = root.non_used_internal_items(&db);
    let global = root.global_items(&db);
    for (k, _) in global.entries.iter() {
        assert!(safe.contains_key(k));
    }
    for (k, _) in safe.entries.iter() {
        assert!(full.contains_key(k));
    }
    assert!(full.contains_key(&"T".to_string()));
    assert!(!safe.contains_key(&"T".to_string()));
    assert!(safe.contains_key(&"S".to_string()) && safe.contains_key(&"a".to_string()));
    assert!(global.contains_key(&"ingot".to_string()) && global.contains_key(&"keccak256".to_string()));
}

#[test]
fn walk_visits_each_node_once() {
    let a = Item::Type(TypeDef::Primitive(Base::Bool));
    let b = Item::Type(TypeDef::Primitive(Base::Address));
    let c = Item::Type(TypeDef::Primitive(Base::Numeric(Integer::U8)));
    let d = Item::Type(TypeDef::Primitive(Base::Numeric(Integer::U16)));
    let g = DepGraph {
        nodes: vec![a, b, c, d],
        edges: vec![
            (a, b, DepLocality::Local),
            (b, a, DepLocality::Local),
            (b, c, DepLocality::Local),
            (a, c, DepLocality::Local),
            (c, d, DepLocality::External),
        ],
    };
    assert_eq!(walk_local_dependencies(&g, a), vec![a, b, c]);
    assert_eq!(walk_local_dependencies(&g, d), vec![d]);
}

#[test]
fn runtime_graph_reaches_from_public_functions() {
    let mut db = Db::new();
    let arg = FunctionArg::Regular { name: name("s"), typ: path(&["S"]) };
    let ingot = build(
        &mut db,
        IngotMode::Lib,
        vec![file(
            "src/lib.fe",
            vec![
                strukt("S", vec![field("y", &["u8"])]),
                contract("C", vec![field("z", &["bool"])], vec![function("f", true, vec![FunctionArg::Zelf(span()), arg]), function("g", false, vec![])]),
            ],
        )],
    );
    let root = ingot.root_module(&db).unwrap();
    let c = match scope_get(&db, root, "C") {
        Some(Item::Type(TypeDef::Contract(c))) => c,
        _ => unreachable!(),
    };
    let s = scope_get(&db, root, "S").unwrap();
    let f = c.function(&db, &"f".to_string()).unwrap();
    let u8_item = Item::Type(TypeDef::Primitive(Base::Numeric(Integer::U8)));
    let rt = c.runtime_dependency_graph(&db);
    assert!(rt.nodes.contains(&Item::Function(f)));
    assert!(rt.nodes.contains(&s) && rt.nodes.contains(&u8_item));
    assert!(!rt.nodes.contains(&Item::Function(c.function(&db, &"g".to_string()).unwrap())));
    for n in rt.nodes.iter() {
        assert!(walk_local_dependencies(&rt, Item::Function(f)).contains(n));
    }
    assert!(f.takes_self(&db) && f.is_public(&db));
    assert_eq!(c.self_function(&db, &"f".to_string()), Some(f));
}

#[test]
fn resolve_from_parent_gives_item() {
    let mut db = Db::new();
    let ingot = build(&mut db, IngotMode::Lib, vec![file("src/lib.fe", vec![contract("Foo", vec![], vec![])])]);
    let root = ingot.root_module(&db).unwrap();
    let foo = scope_get(&db, root, "Foo").unwrap();
    let parent = foo.parent(&db).unwrap();
    assert_eq!(parent, Item::Module(root));
    let res = parent.resolve_path_segments(&db, &vec![name("Foo")]);
    assert_eq!(res.value, Some(foo));
}

#[test]
fn ingot_items_are_root_items() {
    let mut db = Db::new();
    let ingot = build(&mut db, IngotMode::Lib, vec![file("src/lib.fe", vec![strukt("S", vec![])])]);
    let root = ingot.root_module(&db).unwrap();
    let a = Item::Ingot(ingot).items(&db);
    let b = Item::Module(root).items(&db);
    let ka: Vec<String> = a.entries.iter().map(|e| e.0.clone()).collect();
    let kb: Vec<String> = b.entries.iter().map(|e| e.0.clone()).collect();
    assert_eq!(ka, kb);
    let va: Vec<Item> = a.entries.iter().map(|e| e.1).collect();
    let vb: Vec<Item> = b.entries.iter().map(|e| e.1).collect();
    assert_eq!(va, vb);
}

#[test]
fn incomplete_module_name_lookup() {
    let mut db = Db::new();
    let mut f = file("src/lib.fe", vec![]);
    f.incomplete = true;
    let ingot = build(&mut db, IngotMode::Lib, vec![f]);
    let root = ingot.root_module(&db).unwrap();
    assert_eq!(root.resolve_name(&db, &"missing".to_string()), Err(IncompleteItem));
    assert_eq!(root.resolve_name(&db, &"bool".to_string()), Ok(Some(Item::Type(TypeDef::Primitive(Base::Bool)))));
    let mut db2 = Db::new();
    let ingot2 = build(&mut db2, IngotMode::Lib, vec![file("src/lib.fe", vec![])]);
    let root2 = ingot2.root_module(&db2).unwrap();
    assert_eq!(root2.resolve_name(&db2, &"missing".to_string()), Ok(None));
}

#[test]
fn unknown_field_type_is_an_error() {
    let mut db = Db::new();
    let ingot = build(&mut db, IngotMode::Lib, vec![file("src/lib.fe", vec![strukt("S", vec![field("y", &["Nope"]), field("z", &["u8"])])])]);
    let root = ingot.root_module(&db).unwrap();
    let s = match scope_get(&db, root, "S") {
        Some(Item::Type(TypeDef::Struct(s))) => s,
        _ => unreachable!(),
    };
    assert!(s.field_type(&db, &"y".to_string()).unwrap().is_err());
    assert!(s.is_base_type(&db, &"z".to_string()));
    assert!(s.has_complex_fields(&db));
    assert_eq!(s.field_index(&db, &"z".to_string()), Some(1));
    let diags = ingot.diagnostics(&db);
    assert_eq!(diags.len(), 1);
    assert_eq!(diags[0].message, "unresolved path item");
}

#[test]
fn path_helpers() {
    let parts = split_path("src/a/b.fe");
    assert_eq!(parts, vec!["src", "a", "b.fe"]);
    assert_eq!(file_stem(&"x.tar.fe".to_string()), "x.tar");
    assert_eq!(file_stem(&".fe".to_string()), ".fe");
    assert_eq!(file_stem(&"main".to_string()), "main");
}

#[test]
fn item_kind_names() {
    assert_eq!(Item::Type(TypeDef::Primitive(Base::Bool)).item_kind_display_name(), "type");
    assert!(Item::Type(TypeDef::Primitive(Base::Bool)).is_builtin());
    assert_eq!(Item::Ingot(IngotId(0)).item_kind_display_name(), "ingot");
    assert!(!Item::Ingot(IngotId(0)).is_builtin());
}

#[test]
fn prelude_names() {
    let p = fe_analyzer::scope::std_prelude_items();
    for n in ["bool", "address", "u256", "i8", "Array", "Map", "String", "keccak256", "block", "msg", "__add"] {
        assert!(p.contains_key(&n.to_string()), "missing {}", n);
    }
    assert_eq!(p.get(&"u8".to_string()), Some(Item::Type(TypeDef::Primitive(Base::Numeric(Integer::U8)))));
    assert_eq!(p.entries[0].0, "bool");
    assert_eq!(p.entries[1].0, "address");
}

#[test]
fn module_queries_by_kind() {
    let mut db = Db::new();
    let constant = ModuleStmt::Constant(ConstantDecl { name: name("MAX"), typ: path(&["u64"]), value: Expr::Num(7), span: span() });
    let ingot = build(
        &mut db,
        IngotMode::Lib,
        vec![file("src/lib.fe", vec![strukt("S", vec![]), contract("C", vec![], vec![]), constant])],
    );
    let root = ingot.root_module(&db).unwrap();
    assert_eq!(root.all_contracts(&db).len(), 1);
    assert_eq!(root.all_structs(&db).len(), 1);
    let k = root.resolve_constant(&db, &"MAX".to_string()).unwrap().unwrap();
    assert_eq!(k.constant_value(&db), Constant::Int(7));
    assert_eq!(k.typ(&db).value, Ok(Type::Base(Base::Numeric(Integer::U64))));
    assert!(k.is_base_type(&db));
    assert_eq!(root.resolve_constant(&db, &"MIN".to_string()), Ok(None));
}

#[test]
fn contract_name_resolution_and_signature() {
    let mut db = Db::new();
    let mut f = function("f", true, vec![FunctionArg::Regular { name: name("a"), typ: path(&["u8"]) }]);
    f.return_type = Some(path(&["bool"]));
    let g = function("g", false, vec![FunctionArg::Zelf(span())]);
    let init = function("__init__", false, vec![]);
    let ingot = build(&mut db, IngotMode::Lib, vec![file("src/lib.fe", vec![contract("C", vec![], vec![f, g, init])])]);
    let root = ingot.root_module(&db).unwrap();
    let c = match scope_get(&db, root, "C") {
        Some(Item::Type(TypeDef::Contract(c))) => c,
        _ => unreachable!(),
    };
    let fid = c.function(&db, &"f".to_string()).unwrap();
    assert_eq!(c.resolve_name(&db, &"f".to_string()), Ok(Some(Item::Function(fid))));
    assert_eq!(c.resolve_name(&db, &"g".to_string()), Ok(None));
    assert_eq!(c.resolve_name(&db, &"bool".to_string()), Ok(Some(Item::Type(TypeDef::Primitive(Base::Bool)))));
    assert!(c.function(&db, &"__init__".to_string()).is_none());
    assert!(c.init_function(&db).unwrap().is_constructor(&db));
    assert_eq!(c.call_function(&db), None);
    assert_eq!(c.public_functions(&db).len(), 1);
    assert_eq!(c.functions(&db).len(), 2);
    let sig = fid.signature(&db);
    assert!(!sig.self_decl);
    assert_eq!(sig.params.len(), 1);
    assert_eq!(sig.params[0].1, Ok(Type::Base(Base::Numeric(Integer::U8))));
    assert_eq!(sig.return_type, Ok(Type::Base(Base::Bool)));
    assert_eq!(TypeDef::Contract(c).typ(&db), Ok(Type::Contract(c)));
}

#[test]
fn standalone_module() {
    let mut db = Db::new();
    let std = build(&mut db, IngotMode::Lib, vec![file("std/src/lib.fe", vec![])]);
    let m = ModuleId::new_standalone(&mut db, file("demo/app.fe", vec![]), std).unwrap();
    assert_eq!(m.name(&db), "app");
    assert_eq!(scope_get(&db, m, "std"), Some(Item::Ingot(std)));
    assert_eq!(scope_get(&db, m, "ingot"), None);
}

#[test]
fn graph_equality_is_structural() {
    let mut db = Db::new();
    let ingot = build(&mut db, IngotMode::Lib, vec![file("src/lib.fe", vec![contract("C", vec![field("x", &["u8"])], vec![])])]);
    let root = ingot.root_module(&db).unwrap();
    let c = match scope_get(&db, root, "C") {
        Some(Item::Type(TypeDef::Contract(c))) => c,
        _ => unreachable!(),
    };
    let g1 = c.dependency_graph(&db);
    let g2 = Item::Type(TypeDef::Contract(c)).dependency_graph(&db).unwrap();
    assert!(g1.same_as(&g2));
    let empty = DepGraph { nodes: vec![], edges: vec![] };
    assert!(!g1.same_as(&empty));
    assert!(Item::Module(root).dependency_graph(&db).is_none());
}

#[test]
fn member_and_signature_diagnostics() {
    let mut db = Db::new();
    let mut f = function("f", true, vec![FunctionArg::Regular { name: name("a"), typ: path(&["Missing"]) }]);
    f.return_type = Some(path(&["u8"]));
    let ev = fe_analyzer::ast::Event { name: name("E"), fields: vec![field("v", &["Gone"])], span: span() };
    let c = ModuleStmt::Contract(Contract {
        name: name("C"),
        fields: vec![field("x", &["u8"]), field("x", &["u16"])],
        functions: vec![f],
        events: vec![ev],
        span: span(),
    });
    let ingot = build(&mut db, IngotMode::Lib, vec![file("src/lib.fe", vec![c])]);
    let diags = ingot.diagnostics(&db);
    let msgs: Vec<String> = diags.iter().map(|d| d.message.clone()).collect();
    assert_eq!(msgs.len(), 3);
    assert_eq!(msgs[0], "unresolved path item");
    assert_eq!(msgs[1], "unresolved path item");
    assert_eq!(msgs[2], "a field named \"x\" has already been defined");
    assert_eq!(diags[0].label, "not found");
}

#[test]
fn declarations_become_entities() {
    let mut db = Db::new();
    let ingot = build(
        &mut db,
        IngotMode::Main,
        vec![file("src/main.fe", vec![contract("Foo", vec![field("x", &["u256"])], vec![]), strukt("S", vec![]), strukt("S", vec![])])],
    );
    let root = ingot.root_module(&db).unwrap();
    let cs = root.all_contracts(&db);
    assert_eq!(cs.len(), 1);
    assert_eq!(cs[0].name(&db), "Foo");
    assert_eq!(root.all_structs(&db).len(), 2);
    assert_eq!(cs[0].field_type(&db, &"x".to_string()), Some((Ok(Type::Base(Base::Numeric(Integer::U256))), 0)));
    assert_eq!(cs[0].field_type(&db, &"y".to_string()), None);
}

#[test]
fn module_file_paths() {
    let mut db = Db::new();
    let ingot = build(&mut db, IngotMode::Lib, vec![file("src/lib.fe", vec![]), file("src/a/x.fe", vec![])]);
    let x = module_named(&db, ingot, "x");
    let a = module_named(&db, ingot, "a");
    assert_eq!(x.file_path_relative_to_src_dir(&db), "a/x.fe");
    assert_eq!(a.file_path_relative_to_src_dir(&db), "a");
}
