//! Dependency graphs of contracts, structs and functions.
use crate::ast;
use crate::db::Db;
use crate::depgraph::{
    contains_item, is_local_path, local_edge, reachable, walk_local_dependencies, DepGraph,
    DepLocality,
};
use crate::entities::{
    function_pairs, members, members_of, resolve_type, type_item, type_of_path,
    type_result, user_functions, Type, TypeError,
};
use crate::namemap::first_entries;
use crate::ids::{Class, ContractId, EventId, FunctionId, Item, StructId, TypeDef};
use crate::scope::seg_texts;
use vstd::prelude::*;

verus! {

/// An edge of a dependency graph.
pub type Edge = (Item, Item, DepLocality);

/// A contract is reached only through a call; every other type is compiled in.
pub open spec fn loc_of(t: Type) -> DepLocality {
    match t {
        Type::Contract(_) => DepLocality::External,
        _ => DepLocality::Local,
    }
}

/// The edge from `src` to a resolved type; none for an unresolved one.
pub open spec fn type_edge(src: Item, t: Result<Type, TypeError>) -> Seq<Edge> {
    match t {
        Ok(t) => seq![(src, type_item(t), loc_of(t))],
        Err(_) => Seq::empty(),
    }
}

/// The edges from `src` to the types of the paths `ps`, written in module `m`.
pub open spec fn path_edges(db: &Db, src: Item, m: crate::ids::ModuleId, ps: Seq<ast::Path>) -> Seq<Edge>
    decreases ps.len(),
{
    if ps.len() == 0 {
        Seq::empty()
    } else {
        path_edges(db, src, m, ps.drop_last()) + type_edge(
            src,
            type_result(type_of_path(db, m, seg_texts(ps.last().segments@))),
        )
    }
}

/// The declared types of a function: its parameters' and its return type.
pub open spec fn signature_paths(f: ast::Function) -> Seq<ast::Path> {
    arg_paths(f.args@) + match f.return_type {
        Some(p) => seq![p],
        None => Seq::empty(),
    }
}

/// The types of the parameters other than `self`.
pub open spec fn arg_paths(args: Seq<ast::FunctionArg>) -> Seq<ast::Path>
    decreases args.len(),
{
    if args.len() == 0 {
        Seq::empty()
    } else {
        match args.last() {
            ast::FunctionArg::Regular { typ, .. } => arg_paths(args.drop_last()).push(typ),
            ast::FunctionArg::Zelf(_) => arg_paths(args.drop_last()),
        }
    }
}

/// The field types of the records `ids` of a field table.
pub open spec fn contract_field_paths(db: &Db, ids: Seq<int>) -> Seq<ast::Path> {
    ids.map_values(|j: int| db.contract_fields@[j].ast.typ)
}

/// The field types of the records `ids` of a field table.
pub open spec fn struct_field_paths(db: &Db, ids: Seq<int>) -> Seq<ast::Path> {
    ids.map_values(|j: int| db.struct_fields@[j].ast.typ)
}

/// The local edges from `src` to each function of `ids`.
pub open spec fn function_edges(src: Item, ids: Seq<int>) -> Seq<Edge> {
    ids.map_values(|j: int| (src, Item::Function(FunctionId(j as u32)), DepLocality::Local))
}

/// The local edges from `src` to each event of `ids`.
pub open spec fn event_edges(src: Item, ids: Seq<int>) -> Seq<Edge> {
    ids.map_values(|j: int| (src, Item::Event(EventId(j as u32)), DepLocality::Local))
}

/// The direct dependencies of an item: for a contract its field types, its
/// functions and its events; for a struct its field types and its functions;
/// for a function the types of its parameters and its return type.
pub open spec fn direct_edges(db: &Db, i: Item) -> Seq<Edge> {
    match i {
        Item::Type(TypeDef::Contract(c)) => {
            let m = db.contracts@[c.0 as int].module;
            path_edges(db, i, m, contract_field_paths(db, members_of(db.contract_fields@, c)))
                + function_edges(i, members_of(db.functions@, Some(Class::Contract(c))))
                + event_edges(i, members_of(db.events@, Some(c)))
        },
        Item::Type(TypeDef::Struct(s)) => {
            let m = db.structs@[s.0 as int].module;
            path_edges(db, i, m, struct_field_paths(db, members_of(db.struct_fields@, s)))
                + function_edges(i, members_of(db.functions@, Some(Class::Struct(s))))
        },
        Item::Function(f) => path_edges(
            db,
            i,
            db.functions@[f.0 as int].module,
            signature_paths(db.functions@[f.0 as int].ast),
        ),
        _ => Seq::empty(),
    }
}

/// The items whose direct dependencies make up the whole graph: every
/// contract, then every struct, then every function.
pub open spec fn graph_sources(db: &Db) -> Seq<Item> {
    Seq::new(db.contracts@.len(), |j: int| Item::Type(TypeDef::Contract(ContractId(j as u32))))
        + Seq::new(db.structs@.len(), |j: int| Item::Type(TypeDef::Struct(StructId(j as u32))))
        + Seq::new(db.functions@.len(), |j: int| Item::Function(FunctionId(j as u32)))
}

/// All direct dependencies of the given items, one after the other.
pub open spec fn edges_of(db: &Db, s: Seq<Item>) -> Seq<Edge>
    decreases s.len(),
{
    if s.len() == 0 {
        Seq::empty()
    } else {
        edges_of(db, s.drop_last()) + direct_edges(db, s.last())
    }
}

/// Every direct dependency in the database.
pub open spec fn all_edges(db: &Db) -> Seq<Edge> {
    edges_of(db, graph_sources(db))
}

/// Appends the edge from `src` to the type that `p` names in module `m`.
fn push_type_edge(db: &Db, src: Item, m: crate::ids::ModuleId, p: &ast::Path, out: &mut Vec<Edge>)
    requires
        db.wf(),
        (m.0 as int) < db.modules@.len(),
    ensures
        final(out)@ == old(out)@ + type_edge(src, type_result(type_of_path(db, m, seg_texts(p.segments@)))),
{
    match resolve_type(db, m, p).value {
        Ok(t) => {
            let loc = match t {
                Type::Contract(_) => DepLocality::External,
                _ => DepLocality::Local,
            };
            let target = match t {
                Type::Base(b) => Item::Type(TypeDef::Primitive(b)),
                Type::Struct(s) => Item::Type(TypeDef::Struct(s)),
                Type::Contract(c) => Item::Type(TypeDef::Contract(c)),
            };
            out.push((src, target, loc));
            assert(final(out)@ =~= old(out)@ + type_edge(src, Ok(t)));
        },
        Err(_) => {
            assert(final(out)@ =~= old(out)@ + type_edge(src, Err(TypeError)));
        },
    }
}

proof fn lemma_path_edges_push(db: &Db, src: Item, m: crate::ids::ModuleId, ps: Seq<ast::Path>, p: ast::Path)
    ensures
        path_edges(db, src, m, ps.push(p)) == path_edges(db, src, m, ps) + type_edge(
            src,
            type_result(type_of_path(db, m, seg_texts(p.segments@))),
        ),
{
    assert(ps.push(p).drop_last() =~= ps);
}

proof fn lemma_path_edges_concat(db: &Db, src: Item, m: crate::ids::ModuleId, a: Seq<ast::Path>, b: Seq<ast::Path>)
    ensures
        path_edges(db, src, m, a + b) == path_edges(db, src, m, a) + path_edges(db, src, m, b),
    decreases b.len(),
{
    if b.len() == 0 {
        assert(a + b =~= a);
        assert(path_edges(db, src, m, a) + Seq::<Edge>::empty() =~= path_edges(db, src, m, a));
    } else {
        assert((a + b).drop_last() =~= a + b.drop_last());
        lemma_path_edges_concat(db, src, m, a, b.drop_last());
        assert(path_edges(db, src, m, a) + path_edges(db, src, m, b.drop_last()) + type_edge(src, type_result(type_of_path(db, m, seg_texts(b.last().segments@))))
            =~= path_edges(db, src, m, a) + (path_edges(db, src, m, b.drop_last()) + type_edge(src, type_result(type_of_path(db, m, seg_texts(b.last().segments@))))));
    }
}

/// The direct dependencies of a function: the types of its parameters and
/// its return type.
fn function_edge_list(db: &Db, f: FunctionId) -> (r: Vec<Edge>)
    requires
        db.wf(),
        (f.0 as int) < db.functions@.len(),
    ensures
        r@ == direct_edges(db, Item::Function(f)),
{
    let rec = &db.functions[f.0 as usize];
    let src = Item::Function(f);
    let m = rec.module;
    let args = &rec.ast.args;
    let mut out: Vec<Edge> = Vec::new();
    let mut i: usize = 0;
    while i < args.len()
        invariant
            i <= args@.len(),
            db.wf(),
            (m.0 as int) < db.modules@.len(),
            out@ == path_edges(db, src, m, arg_paths(args@.take(i as int))),
        decreases args@.len() - i,
    {
        assert(args@.take(i as int + 1).drop_last() =~= args@.take(i as int));
        assert(args@.take(i as int + 1).last() == args@[i as int]);
        match &args[i] {
            ast::FunctionArg::Regular { typ, .. } => {
                proof {
                    lemma_path_edges_push(db, src, m, arg_paths(args@.take(i as int)), *typ);
                }
                push_type_edge(db, src, m, typ, &mut out);
            },
            ast::FunctionArg::Zelf(_) => {},
        }
        i = i + 1;
    }
    assert(args@.take(i as int) =~= args@);
    match &rec.ast.return_type {
        Some(p) => {
            proof {
                lemma_path_edges_push(db, src, m, arg_paths(args@), *p);
                assert(arg_paths(args@).push(*p) =~= arg_paths(args@) + seq![*p]);
            }
            push_type_edge(db, src, m, p, &mut out);
        },
        None => {
            assert(arg_paths(args@) + Seq::<ast::Path>::empty() =~= arg_paths(args@));
        },
    }
    out
}

/// Appends the local edges from `src` to the functions `ids`.
fn push_function_edges(src: Item, ids: &Vec<usize>, out: &mut Vec<Edge>)
    ensures
        final(out)@ == old(out)@ + function_edges(src, ids@.map_values(|x: usize| x as int)),
{
    let ghost is = ids@.map_values(|x: usize| x as int);
    let mut i: usize = 0;
    while i < ids.len()
        invariant
            i <= ids@.len(),
            is == ids@.map_values(|x: usize| x as int),
            out@ == old(out)@ + function_edges(src, is.take(i as int)),
        decreases ids@.len() - i,
    {
        out.push((src, Item::Function(FunctionId(ids[i] as u32)), DepLocality::Local));
        assert(function_edges(src, is.take(i as int + 1)) =~= function_edges(src, is.take(i as int)).push((src, Item::Function(FunctionId(ids@[i as int] as u32)), DepLocality::Local)));
        assert(out@ =~= old(out)@ + function_edges(src, is.take(i as int + 1)));
        i = i + 1;
    }
    assert(is.take(i as int) =~= is);
}

/// Appends the local edges from `src` to the events `ids`.
fn push_event_edges(src: Item, ids: &Vec<usize>, out: &mut Vec<Edge>)
    ensures
        final(out)@ == old(out)@ + event_edges(src, ids@.map_values(|x: usize| x as int)),
{
    let ghost is = ids@.map_values(|x: usize| x as int);
    let mut i: usize = 0;
    while i < ids.len()
        invariant
            i <= ids@.len(),
            is == ids@.map_values(|x: usize| x as int),
            out@ == old(out)@ + event_edges(src, is.take(i as int)),
        decreases ids@.len() - i,
    {
        out.push((src, Item::Event(EventId(ids[i] as u32)), DepLocality::Local));
        assert(event_edges(src, is.take(i as int + 1)) =~= event_edges(src, is.take(i as int)).push((src, Item::Event(EventId(ids@[i as int] as u32)), DepLocality::Local)));
        assert(out@ =~= old(out)@ + event_edges(src, is.take(i as int + 1)));
        i = i + 1;
    }
    assert(is.take(i as int) =~= is);
}

/// The direct dependencies of a contract.
fn contract_edge_list(db: &Db, c: ContractId) -> (r: Vec<Edge>)
    requires
        db.wf(),
        (c.0 as int) < db.contracts@.len(),
    ensures
        r@ == direct_edges(db, Item::Type(TypeDef::Contract(c))),
{
    let src = Item::Type(TypeDef::Contract(c));
    let m = db.contracts[c.0 as usize].module;
    let ids = members(&db.contract_fields, &c);
    let ghost is = ids@.map_values(|x: usize| x as int);
    let mut out: Vec<Edge> = Vec::new();
    let mut i: usize = 0;
    while i < ids.len()
        invariant
            i <= ids@.len(),
            db.wf(),
            (m.0 as int) < db.modules@.len(),
            is == ids@.map_values(|x: usize| x as int),
            forall|j: int| 0 <= j < ids@.len() ==> (#[trigger] ids@[j]) < db.contract_fields@.len(),
            out@ == path_edges(db, src, m, contract_field_paths(db, is.take(i as int))),
        decreases ids@.len() - i,
    {
        let p = &db.contract_fields[ids[i]].ast.typ;
        proof {
            assert(contract_field_paths(db, is.take(i as int + 1)) =~= contract_field_paths(db, is.take(i as int)).push(*p));
            lemma_path_edges_push(db, src, m, contract_field_paths(db, is.take(i as int)), *p);
        }
        push_type_edge(db, src, m, p, &mut out);
        i = i + 1;
    }
    assert(is.take(i as int) =~= is);
    let fids = members(&db.functions, &Some(Class::Contract(c)));
    push_function_edges(src, &fids, &mut out);
    let eids = members(&db.events, &Some(c));
    push_event_edges(src, &eids, &mut out);
    out
}

/// The direct dependencies of a struct.
fn struct_edge_list(db: &Db, s: StructId) -> (r: Vec<Edge>)
    requires
        db.wf(),
        (s.0 as int) < db.structs@.len(),
    ensures
        r@ == direct_edges(db, Item::Type(TypeDef::Struct(s))),
{
    let src = Item::Type(TypeDef::Struct(s));
    let m = db.structs[s.0 as usize].module;
    let ids = members(&db.struct_fields, &s);
    let ghost is = ids@.map_values(|x: usize| x as int);
    let mut out: Vec<Edge> = Vec::new();
    let mut i: usize = 0;
    while i < ids.len()
        invariant
            i <= ids@.len(),
            db.wf(),
            (m.0 as int) < db.modules@.len(),
            is == ids@.map_values(|x: usize| x as int),
            forall|j: int| 0 <= j < ids@.len() ==> (#[trigger] ids@[j]) < db.struct_fields@.len(),
            out@ == path_edges(db, src, m, struct_field_paths(db, is.take(i as int))),
        decreases ids@.len() - i,
    {
        let p = &db.struct_fields[ids[i]].ast.typ;
        proof {
            assert(struct_field_paths(db, is.take(i as int + 1)) =~= struct_field_paths(db, is.take(i as int)).push(*p));
            lemma_path_edges_push(db, src, m, struct_field_paths(db, is.take(i as int)), *p);
        }
        push_type_edge(db, src, m, p, &mut out);
        i = i + 1;
    }
    assert(is.take(i as int) =~= is);
    let fids = members(&db.functions, &Some(Class::Struct(s)));
    push_function_edges(src, &fids, &mut out);
    out
}

/// Appends `b` to `a`.
fn append_edges(a: &mut Vec<Edge>, b: Vec<Edge>)
    ensures
        final(a)@ == old(a)@ + b@,
{
    let mut b = b;
    a.append(&mut b);
}

/// Appends the direct dependencies of the `n` sources that follow the first
/// `lo` of `g`: the contracts, the structs or the functions.
fn push_source_edges(db: &Db, n: usize, kind: u8, out: &mut Vec<Edge>, Ghost(g): Ghost<Seq<Item>>, Ghost(lo): Ghost<int>)
    requires
        db.wf(),
        g == graph_sources(db),
        old(out)@ == edges_of(db, g.take(lo)),
        kind == 0 ==> n == db.contracts@.len() && lo == 0,
        kind == 1 ==> n == db.structs@.len() && lo == db.contracts@.len(),
        kind == 2 ==> n == db.functions@.len() && lo == db.contracts@.len() + db.structs@.len(),
        kind <= 2,
    ensures
        final(out)@ == edges_of(db, g.take(lo + n)),
{
    let mut k: usize = 0;
    while k < n
        invariant
            db.wf(),
            k <= n,
            g == graph_sources(db),
            kind == 0 ==> n == db.contracts@.len() && lo == 0,
            kind == 1 ==> n == db.structs@.len() && lo == db.contracts@.len(),
            kind == 2 ==> n == db.functions@.len() && lo == db.contracts@.len() + db.structs@.len(),
            kind <= 2,
            out@ == edges_of(db, g.take(lo + k)),
        decreases n - k,
    {
        let es = if kind == 0 {
            assert(g[lo + k] == Item::Type(TypeDef::Contract(ContractId(k as u32))));
            contract_edge_list(db, ContractId(k as u32))
        } else if kind == 1 {
            assert(g[lo + k] == Item::Type(TypeDef::Struct(StructId(k as u32))));
            struct_edge_list(db, StructId(k as u32))
        } else {
            assert(g[lo + k] == Item::Function(FunctionId(k as u32)));
            function_edge_list(db, FunctionId(k as u32))
        };
        assert(g.take(lo + k + 1).drop_last() =~= g.take(lo + k));
        assert(g.take(lo + k + 1).last() == g[lo + k]);
        append_edges(out, es);
        k = k + 1;
    }
}

/// Every direct dependency in the database, as one graph.
pub fn all_edge_list(db: &Db) -> (r: Vec<Edge>)
    requires
        db.wf(),
    ensures
        r@ == all_edges(db),
{
    let ghost g = graph_sources(db);
    let mut out: Vec<Edge> = Vec::new();
    assert(g.take(0) =~= Seq::<Item>::empty());
    push_source_edges(db, db.contracts.len(), 0, &mut out, Ghost(g), Ghost(0));
    push_source_edges(db, db.structs.len(), 1, &mut out, Ghost(g), Ghost(db.contracts@.len() as int));
    push_source_edges(db, db.functions.len(), 2, &mut out, Ghost(g), Ghost((db.contracts@.len() + db.structs@.len()) as int));
    assert(g.take(g.len() as int) =~= g);
    out
}

/// The edges of `s` whose source `root` reaches in `u`.
pub open spec fn filter_reach(s: Seq<Edge>, u: Seq<Edge>, root: Item) -> Seq<Edge>
    decreases s.len(),
{
    if s.len() == 0 {
        Seq::empty()
    } else {
        let p = filter_reach(s.drop_last(), u, root);
        if reachable(u, root, s.last().0) {
            p.push(s.last())
        } else {
            p
        }
    }
}

proof fn lemma_filter_reach(s: Seq<Edge>, u: Seq<Edge>, root: Item, e: Edge)
    ensures
        filter_reach(s, u, root).contains(e) <==> s.contains(e) && reachable(u, root, e.0),
    decreases s.len(),
{
    if s.len() > 0 {
        let d = s.drop_last();
        lemma_filter_reach(d, u, root, e);
        let p = filter_reach(d, u, root);
        if s.contains(e) && reachable(u, root, e.0) {
            let j = choose|j: int| 0 <= j < s.len() && s[j] == e;
            if j < s.len() - 1 {
                assert(d[j] == e);
                let k = choose|k: int| 0 <= k < p.len() && p[k] == e;
                if reachable(u, root, s.last().0) {
                    assert(p.push(s.last())[k] == e);
                }
            } else {
                assert(p.push(s.last())[p.len() as int] == e);
            }
        }
        if filter_reach(s, u, root).contains(e) {
            let f = filter_reach(s, u, root);
            let k = choose|k: int| 0 <= k < f.len() && f[k] == e;
            if k < p.len() {
                assert(p[k] == e);
                let j = choose|j: int| 0 <= j < d.len() && d[j] == e;
                assert(s[j] == e);
            } else {
                assert(s[s.len() - 1] == e);
            }
        }
    }
}

/// `init` and then the targets of the edges of `s` not yet present.
pub open spec fn node_fold(s: Seq<Edge>, init: Seq<Item>) -> Seq<Item>
    decreases s.len(),
{
    if s.len() == 0 {
        init
    } else {
        let p = node_fold(s.drop_last(), init);
        if p.contains(s.last().1) {
            p
        } else {
            p.push(s.last().1)
        }
    }
}

proof fn lemma_node_fold(s: Seq<Edge>, init: Seq<Item>, x: Item)
    ensures
        node_fold(s, init).contains(x) <==> (init.contains(x) || exists|e: Edge| s.contains(e) && e.1 == x),
    decreases s.len(),
{
    if s.len() > 0 {
        let d = s.drop_last();
        lemma_node_fold(d, init, x);
        let p = node_fold(d, init);
        let n = node_fold(s, init);
        let t = s.last().1;
        assert(n == if p.contains(t) { p } else { p.push(t) });
        if n.contains(x) && !init.contains(x) {
            let k = choose|k: int| 0 <= k < n.len() && n[k] == x;
            if k < p.len() {
                assert(n[k] == p[k]);
                assert(p.contains(x));
                let e = choose|e: Edge| d.contains(e) && e.1 == x;
                let j = choose|j: int| 0 <= j < d.len() && d[j] == e;
                assert(s[j] == e);
                assert(s.contains(e));
            } else {
                assert(x == t);
                assert(s[s.len() - 1] == s.last());
                assert(s.contains(s.last()));
            }
        }
        if init.contains(x) || exists|e: Edge| s.contains(e) && e.1 == x {
            if p.contains(x) {
                let k = choose|k: int| 0 <= k < p.len() && p[k] == x;
                assert(n[k] == x);
            } else {
                let e = choose|e: Edge| s.contains(e) && e.1 == x;
                let j = choose|j: int| 0 <= j < s.len() && s[j] == e;
                if j < s.len() - 1 {
                    assert(d[j] == e);
                    assert(d.contains(e));
                } else {
                    assert(x == t);
                    assert(n[p.len() as int] == x);
                }
            }
        }
    }
}

/// The dependency graph of `root`: every direct dependency of every item
/// that `root` reaches along local edges, itself included. A local
/// dependency is followed further; an external one is only recorded.
pub open spec fn is_dependency_graph(db: &Db, root: Item, g: DepGraph) -> bool {
    &&& forall|e: Edge| #[trigger] g.edges@.contains(e) <==> all_edges(db).contains(e) && reachable(all_edges(db), root, e.0)
    &&& forall|x: Item| #[trigger] g.nodes@.contains(x) <==> (x == root || exists|e: Edge| g.edges@.contains(e) && e.1 == x)
}

/// The items `root` and the targets of `edges`, each once.
fn node_list(edges: &Vec<Edge>, init: Vec<Item>) -> (r: Vec<Item>)
    ensures
        r@ == node_fold(edges@, init@),
{
    let mut nodes: Vec<Item> = init;
    let mut i: usize = 0;
    assert(edges@.take(0) =~= Seq::<Edge>::empty());
    while i < edges.len()
        invariant
            i <= edges@.len(),
            nodes@ == node_fold(edges@.take(i as int), init@),
        decreases edges@.len() - i,
    {
        assert(edges@.take(i as int + 1).drop_last() =~= edges@.take(i as int));
        assert(edges@.take(i as int + 1).last() == edges@[i as int]);
        if !contains_item(&nodes, edges[i].1) {
            nodes.push(edges[i].1);
        }
        i = i + 1;
    }
    assert(edges@.take(i as int) =~= edges@);
    nodes
}

/// The dependency graph of an item.
pub fn dependency_graph_of(db: &Db, root: Item) -> (r: DepGraph)
    requires
        db.wf(),
    ensures
        is_dependency_graph(db, root, r),
{
    let all = all_edge_list(db);
    let ghost u = all@;
    let universe = DepGraph { nodes: Vec::new(), edges: all };
    let reach = walk_local_dependencies(&universe, root);
    let mut edges: Vec<Edge> = Vec::new();
    let mut i: usize = 0;
    assert(u.take(0) =~= Seq::<Edge>::empty());
    while i < universe.edges.len()
        invariant
            i <= universe.edges@.len(),
            u == universe.edges@,
            u == all_edges(db),
            forall|x: Item| reach@.contains(x) <==> reachable(u, root, x),
            edges@ == filter_reach(u.take(i as int), u, root),
        decreases universe.edges@.len() - i,
    {
        let e = universe.edges[i];
        assert(u.take(i as int + 1).drop_last() =~= u.take(i as int));
        assert(u.take(i as int + 1).last() == e);
        if contains_item(&reach, e.0) {
            edges.push(e);
        }
        i = i + 1;
    }
    assert(u.take(i as int) =~= u);
    let init = vec![root];
    assert(init@ =~= seq![root]);
    let nodes = node_list(&edges, init);
    proof {
        assert forall|e: Edge| #[trigger] edges@.contains(e) <==> u.contains(e) && reachable(u, root, e.0) by {
            lemma_filter_reach(u, u, root, e);
        }
        assert forall|x: Item| #[trigger] nodes@.contains(x) <==> (x == root || exists|e: Edge| edges@.contains(e) && e.1 == x) by {
            lemma_node_fold(edges@, seq![root], x);
            assert(seq![root].contains(x) <==> x == root) by {
                if seq![root].contains(x) {
                    let k = choose|k: int| 0 <= k < 1 && seq![root][k] == x;
                }
                assert(seq![root][0] == root);
            }
        }
    }
    let ghost ev = edges@;
    let ghost nv = nodes@;
    let r = DepGraph { nodes, edges };
    assert(r.edges@ == ev && r.nodes@ == nv);
    assert forall|e: Edge| #[trigger] r.edges@.contains(e) <==> all_edges(db).contains(e) && reachable(all_edges(db), root, e.0) by {
        assert(ev.contains(e) <==> u.contains(e) && reachable(u, root, e.0));
    }
    assert forall|x: Item| #[trigger] r.nodes@.contains(x) <==> (x == root || exists|e: Edge| r.edges@.contains(e) && e.1 == x) by {
        assert(nv.contains(x) <==> (x == root || exists|e: Edge| ev.contains(e) && e.1 == x));
    }
    r
}

/// The public user functions of a contract, in the order of its function map.
pub open spec fn public_fns(db: &Db, p: Seq<(Seq<char>, FunctionId)>) -> Seq<Item>
    decreases p.len(),
{
    if p.len() == 0 {
        Seq::empty()
    } else if db.functions@[p.last().1.0 as int].ast.pub_ is Some {
        public_fns(db, p.drop_last()).push(Item::Function(p.last().1))
    } else {
        public_fns(db, p.drop_last())
    }
}

/// The public functions of contract `c`.
pub open spec fn contract_public_fns(db: &Db, c: ContractId) -> Seq<Item> {
    public_fns(db, first_entries(user_functions(function_pairs(db, Class::Contract(c)))))
}

/// An edge that a dispatcher calling every public function of a contract
/// compiles in: a local edge whose source a public function reaches.
pub open spec fn runtime_edge(u: Seq<Edge>, pubs: Seq<Item>, e: Edge) -> bool {
    e.2 == DepLocality::Local && exists|k: int| 0 <= k < pubs.len() && reachable(u, pubs[k], e.0)
}

/// The runtime graph of contract `c`: the public functions, and every local
/// edge that they reach.
pub open spec fn is_runtime_graph(db: &Db, c: ContractId, g: DepGraph) -> bool {
    let u = all_edges(db);
    let pubs = contract_public_fns(db, c);
    &&& forall|e: Edge| #[trigger] g.edges@.contains(e) <==> u.contains(e) && runtime_edge(u, pubs, e)
    &&& forall|x: Item| #[trigger] g.nodes@.contains(x) <==> (pubs.contains(x) || exists|e: Edge| g.edges@.contains(e) && e.1 == x)
}

/// The edges of `s` that the dispatcher compiles in.
pub open spec fn filter_runtime(s: Seq<Edge>, u: Seq<Edge>, pubs: Seq<Item>) -> Seq<Edge>
    decreases s.len(),
{
    if s.len() == 0 {
        Seq::empty()
    } else {
        let p = filter_runtime(s.drop_last(), u, pubs);
        if runtime_edge(u, pubs, s.last()) {
            p.push(s.last())
        } else {
            p
        }
    }
}

proof fn lemma_filter_runtime(s: Seq<Edge>, u: Seq<Edge>, pubs: Seq<Item>, e: Edge)
    ensures
        filter_runtime(s, u, pubs).contains(e) <==> s.contains(e) && runtime_edge(u, pubs, e),
    decreases s.len(),
{
    if s.len() > 0 {
        let d = s.drop_last();
        lemma_filter_runtime(d, u, pubs, e);
        let p = filter_runtime(d, u, pubs);
        let f = filter_runtime(s, u, pubs);
        if s.contains(e) && runtime_edge(u, pubs, e) {
            let j = choose|j: int| 0 <= j < s.len() && s[j] == e;
            if j < s.len() - 1 {
                assert(d[j] == e);
                let k = choose|k: int| 0 <= k < p.len() && p[k] == e;
                assert(f[k] == e);
            } else {
                assert(f[p.len() as int] == e);
            }
        }
        if f.contains(e) {
            let k = choose|k: int| 0 <= k < f.len() && f[k] == e;
            if k < p.len() {
                assert(p[k] == e);
                let j = choose|j: int| 0 <= j < d.len() && d[j] == e;
                assert(s[j] == e);
            } else {
                assert(s[s.len() - 1] == e);
            }
        }
    }
}

/// The public functions of a contract, as items.
fn public_fn_list(db: &Db, c: ContractId) -> (r: Vec<Item>)
    requires
        db.wf(),
    ensures
        r@ == contract_public_fns(db, c),
{
    let fm = crate::entities::function_map(db, Class::Contract(c));
    let ghost p = fm@;
    let mut r: Vec<Item> = Vec::new();
    let mut i: usize = 0;
    assert(fm@.len() == fm.entries@.len());
    while i < fm.entries.len()
        invariant
            i <= fm.entries@.len(),
            p == fm@,
            p.len() == fm.entries@.len(),
            p == first_entries(user_functions(function_pairs(db, Class::Contract(c)))),
            db.wf(),
            r@ == public_fns(db, p.take(i as int)),
        decreases fm.entries@.len() - i,
    {
        let f = fm.entries[i].1;
        assert(p[i as int] == (fm.entries@[i as int].0@, f));
        assert(p.take(i as int + 1).drop_last() =~= p.take(i as int));
        assert(p.take(i as int + 1).last() == p[i as int]);
        proof {
            crate::entities::lemma_function_map_entry(db, Class::Contract(c), i as int);
        }
        if f.is_public(db) {
            r.push(Item::Function(f));
        }
        i = i + 1;
    }
    assert(p.take(i as int) =~= p);
    r
}

/// Whether one of the walks in `reach` holds `x`.
fn reached_by_any(reach: &Vec<Vec<Item>>, x: Item) -> (r: bool)
    ensures
        r == exists|k: int| 0 <= k < reach@.len() && reach@[k]@.contains(x),
{
    let mut k: usize = 0;
    while k < reach.len()
        invariant
            k <= reach@.len(),
            forall|j: int| 0 <= j < k ==> !reach@[j]@.contains(x),
        decreases reach@.len() - k,
    {
        if contains_item(&reach[k], x) {
            return true;
        }
        k = k + 1;
    }
    false
}

/// The dependency graph of a dispatcher that calls every public function of
/// contract `c`: the public functions and every local edge they reach.
pub fn runtime_graph_of(db: &Db, c: ContractId) -> (r: DepGraph)
    requires
        db.wf(),
    ensures
        is_runtime_graph(db, c, r),
{
    let all = all_edge_list(db);
    let ghost u = all@;
    let universe = DepGraph { nodes: Vec::new(), edges: all };
    let pubs = public_fn_list(db, c);
    let ghost pv = pubs@;
    let mut reach: Vec<Vec<Item>> = Vec::new();
    let mut k: usize = 0;
    while k < pubs.len()
        invariant
            k <= pubs@.len(),
            u == universe.edges@,
            reach@.len() == k,
            forall|j: int, x: Item| 0 <= j < k ==> (#[trigger] reach@[j]@.contains(x) <==> reachable(u, pubs@[j], x)),
        decreases pubs@.len() - k,
    {
        let w = walk_local_dependencies(&universe, pubs[k]);
        reach.push(w);
        proof {
            assert forall|j: int, x: Item| 0 <= j < k + 1 implies (#[trigger] reach@[j]@.contains(x) <==> reachable(u, pubs@[j], x)) by {
                if j == k {
                    assert(reach@[j] == w);
                }
            }
        }
        k = k + 1;
    }
    let mut edges: Vec<Edge> = Vec::new();
    let mut i: usize = 0;
    assert(u.take(0) =~= Seq::<Edge>::empty());
    while i < universe.edges.len()
        invariant
            i <= universe.edges@.len(),
            u == universe.edges@,
            u == all_edges(db),
            pv == pubs@,
            reach@.len() == pv.len(),
            forall|j: int, x: Item| 0 <= j < pv.len() ==> (#[trigger] reach@[j]@.contains(x) <==> reachable(u, pv[j], x)),
            edges@ == filter_runtime(u.take(i as int), u, pv),
        decreases universe.edges@.len() - i,
    {
        let e = universe.edges[i];
        assert(u.take(i as int + 1).drop_last() =~= u.take(i as int));
        assert(u.take(i as int + 1).last() == e);
        let local = match e.2 {
            DepLocality::Local => true,
            DepLocality::External => false,
        };
        if local && reached_by_any(&reach, e.0) {
            proof {
                let j = choose|j: int| 0 <= j < reach@.len() && reach@[j]@.contains(e.0);
                assert(reachable(u, pv[j], e.0));
            }
            edges.push(e);
        } else {
            proof {
                if runtime_edge(u, pv, e) {
                    let j = choose|j: int| 0 <= j < pv.len() && reachable(u, pv[j], e.0);
                    assert(reach@[j]@.contains(e.0));
                }
            }
        }
        i = i + 1;
    }
    assert(u.take(i as int) =~= u);
    let ghost ev = edges@;
    let nodes = node_list(&edges, pubs);
    let ghost nv = nodes@;
    assert(nv == node_fold(ev, pv));
    let r = DepGraph { nodes, edges };
    assert(r.edges@ == ev && r.nodes@ == nv);
    proof {
        assert forall|e: Edge| #[trigger] r.edges@.contains(e) <==> u.contains(e) && runtime_edge(u, pv, e) by {
            lemma_filter_runtime(u, u, pv, e);
        }
        assert forall|x: Item| #[trigger] r.nodes@.contains(x) <==> (pv.contains(x) || exists|e: Edge| r.edges@.contains(e) && e.1 == x) by {
            lemma_node_fold(ev, pv, x);
        }
    }
    r
}

proof fn lemma_path_prefix(u: Seq<Edge>, p: Seq<Item>, i: int)
    requires
        is_local_path(u, p),
        0 <= i < p.len(),
    ensures
        reachable(u, p[0], p[i]),
{
    let q = p.take(i + 1);
    assert forall|j: int| 0 <= j < q.len() - 1 implies local_edge(u, #[trigger] q[j], q[j + 1]) by {
        assert(q[j] == p[j] && q[j + 1] == p[j + 1]);
        assert(local_edge(u, p[j], p[j + 1]));
    }
    assert(q[0] == p[0] && q.last() == p[i]);
}

/// Every node of a contract's runtime graph is reached from one of its public
/// functions by a walk along the graph's own local edges.
pub proof fn lemma_runtime_nodes_reachable(db: &Db, c: ContractId, g: DepGraph, x: Item)
    requires
        is_runtime_graph(db, c, g),
        g.nodes@.contains(x),
    ensures
        exists|k: int| 0 <= k < contract_public_fns(db, c).len() && reachable(g.edges@, contract_public_fns(db, c)[k], x),
{
    let u = all_edges(db);
    let pubs = contract_public_fns(db, c);
    let r = g.edges@;
    if pubs.contains(x) {
        let k = choose|k: int| 0 <= k < pubs.len() && pubs[k] == x;
        let p = seq![x];
        assert(is_local_path(r, p) && p[0] == x && p.last() == x);
        assert(reachable(r, pubs[k], x));
    } else {
        let e = choose|e: Edge| r.contains(e) && e.1 == x;
        assert(r.contains(e));
        assert(u.contains(e) && runtime_edge(u, pubs, e));
        let k = choose|k: int| 0 <= k < pubs.len() && reachable(u, pubs[k], e.0);
        let f = pubs[k];
        let p = choose|p: Seq<Item>| is_local_path(u, p) && p[0] == f && p.last() == e.0;
        assert forall|i: int| 0 <= i < p.len() - 1 implies local_edge(r, #[trigger] p[i], p[i + 1]) by {
            assert(local_edge(u, p[i], p[i + 1]));
            let j = choose|j: int| 0 <= j < u.len() && u[j] == (p[i], p[i + 1], DepLocality::Local);
            lemma_path_prefix(u, p, i);
            let ed = (p[i], p[i + 1], DepLocality::Local);
            assert(u.contains(ed));
            assert(runtime_edge(u, pubs, ed));
            assert(r.contains(ed));
            let j2 = choose|j2: int| 0 <= j2 < r.len() && r[j2] == ed;
        }
        assert(reachable(r, f, e.0));
        let j3 = choose|j3: int| 0 <= j3 < r.len() && r[j3] == e;
        assert(local_edge(r, e.0, x));
        lemma_extend(r, f, e.0, x);
    }
}

proof fn lemma_extend(edges: Seq<Edge>, root: Item, x: Item, y: Item)
    requires
        reachable(edges, root, x),
        local_edge(edges, x, y),
    ensures
        reachable(edges, root, y),
{
    let p = choose|p: Seq<Item>| is_local_path(edges, p) && p[0] == root && p.last() == x;
    let q = p.push(y);
    assert forall|i: int| 0 <= i < q.len() - 1 implies local_edge(edges, #[trigger] q[i], q[i + 1]) by {
        if i < p.len() - 1 {
            assert(q[i] == p[i] && q[i + 1] == p[i + 1]);
        } else {
            assert(q[i] == x && q[i + 1] == y);
        }
    }
    assert(q[0] == root && q.last() == y);
}

impl ContractId {
    /// The contract's dependency graph: its field types, functions and events,
    /// and what those depend on locally.
    pub fn dependency_graph(&self, db: &Db) -> (r: DepGraph)
        requires
            db.wf(),
        ensures
            is_dependency_graph(db, Item::Type(TypeDef::Contract(*self)), r),
    {
        dependency_graph_of(db, Item::Type(TypeDef::Contract(*self)))
    }

    /// The dependency graph of a dispatcher that calls every public function.
    pub fn runtime_dependency_graph(&self, db: &Db) -> (r: DepGraph)
        requires
            db.wf(),
        ensures
            is_runtime_graph(db, *self, r),
    {
        runtime_graph_of(db, *self)
    }
}

impl StructId {
    /// The struct's dependency graph.
    pub fn dependency_graph(&self, db: &Db) -> (r: DepGraph)
        requires
            db.wf(),
        ensures
            is_dependency_graph(db, Item::Type(TypeDef::Struct(*self)), r),
    {
        dependency_graph_of(db, Item::Type(TypeDef::Struct(*self)))
    }
}

impl FunctionId {
    /// The function's dependency graph.
    pub fn dependency_graph(&self, db: &Db) -> (r: DepGraph)
        requires
            db.wf(),
        ensures
            is_dependency_graph(db, Item::Function(*self), r),
    {
        dependency_graph_of(db, Item::Function(*self))
    }
}

impl Item {
    /// The dependency graph of a contract, a struct or a function; none for
    /// other items.
    pub fn dependency_graph(&self, db: &Db) -> (r: Option<DepGraph>)
        requires
            db.wf(),
        ensures
            match *self {
                Item::Type(TypeDef::Contract(_)) | Item::Type(TypeDef::Struct(_)) | Item::Function(_) =>
                    r matches Some(g) && is_dependency_graph(db, *self, g),
                _ => r is None,
            },
    {
        match self {
            Item::Type(TypeDef::Contract(_)) | Item::Type(TypeDef::Struct(_)) | Item::Function(_) => Some(dependency_graph_of(db, *self)),
            _ => None,
        }
    }
}

} // verus!
