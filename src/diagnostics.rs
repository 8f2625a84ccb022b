//! Collecting the diagnostics of an ingot, its modules and their items.
use crate::db::{Db, Diagnostic, IngotMode, ModuleSource};
use crate::ast;
use crate::deps::{arg_paths, contract_field_paths, signature_paths, struct_field_paths};
use crate::entities::{dview, dviews, members, members_of, resolve_type, type_diags, DiagView};
use crate::ids::{Class, ContractId, StructId, EventId, FunctionId, IngotId, Item, ModuleId, TypeDef};
use crate::item::root_of;
use crate::namemap::NameMap;
use crate::scope::{named_error_d, named_view, item_map_diags, items_of, module_all_items};
use crate::ast::Span;
use vstd::prelude::*;
use vstd::string::*;

verus! {

/// The root file that an ingot of mode `mode` needs.
pub open spec fn root_file_name(mode: IngotMode) -> Seq<char> {
    match mode {
        IngotMode::Lib => "lib"@,
        _ => "main"@,
    }
}

/// The error for an ingot without its root module.
pub open spec fn missing_root_message(name: Seq<char>, file: Seq<char>) -> Seq<char> {
    "The ingot named \""@ + name + "\" is missing a `"@ + file + "` module. \nPlease add a `src/"@ + file
        + ".fe` file to the base directory."@
}

/// Appends `b` to `a`.
fn append_diags(a: &mut Vec<Diagnostic>, b: Vec<Diagnostic>)
    ensures
        final(a)@ == old(a)@ + b@,
        dviews(final(a)@) == dviews(old(a)@) + dviews(b@),
{
    let mut b = b;
    let ghost b0 = b@;
    a.append(&mut b);
    assert(dviews(a@) =~= dviews(old(a)@) + dviews(b0));
}

/// The diagnostics of the types `ps`, written in module `m`, one after the other.
pub open spec fn paths_diags(db: &Db, m: ModuleId, ps: Seq<ast::Path>) -> Seq<DiagView>
    decreases ps.len(),
{
    if ps.len() == 0 {
        Seq::empty()
    } else {
        paths_diags(db, m, ps.drop_last()) + type_diags(db, m, ps.last().segments@)
    }
}

/// The diagnostics of a function's signature.
pub open spec fn fn_diags(db: &Db, f: FunctionId) -> Seq<DiagView> {
    paths_diags(db, db.functions@[f.0 as int].module, signature_paths(db.functions@[f.0 as int].ast))
}

/// The types of a field list.
pub open spec fn field_paths(fs: Seq<ast::Field>) -> Seq<ast::Path> {
    fs.map_values(|f: ast::Field| f.typ)
}

/// The diagnostics of an event's field types.
pub open spec fn event_diags(db: &Db, e: EventId) -> Seq<DiagView> {
    paths_diags(db, db.events@[e.0 as int].module, field_paths(db.events@[e.0 as int].ast.fields@))
}

/// The diagnostics of the functions `ids`, one after the other.
pub open spec fn fns_diags(db: &Db, ids: Seq<int>) -> Seq<DiagView>
    decreases ids.len(),
{
    if ids.len() == 0 {
        Seq::empty()
    } else {
        fns_diags(db, ids.drop_last()) + fn_diags(db, FunctionId(ids.last() as u32))
    }
}

/// The diagnostics of the events `ids`, one after the other.
pub open spec fn evs_diags(db: &Db, ids: Seq<int>) -> Seq<DiagView>
    decreases ids.len(),
{
    if ids.len() == 0 {
        Seq::empty()
    } else {
        evs_diags(db, ids.drop_last()) + event_diags(db, EventId(ids.last() as u32))
    }
}

/// `p` holds a name `n` before index `k`.
pub open spec fn named_before(p: Seq<(Seq<char>, Option<Span>)>, n: Seq<char>, k: int) -> bool {
    exists|q: int| 0 <= q < k && p[q].0 == n
}

/// One error for each name of `p` that an earlier entry already took.
pub open spec fn dup_diags(p: Seq<(Seq<char>, Option<Span>)>, kind: Seq<char>) -> Seq<DiagView>
    decreases p.len(),
{
    if p.len() == 0 {
        Seq::empty()
    } else if named_before(p, p.last().0, p.len() - 1) {
        dup_diags(p.drop_last(), kind).push(named_view(kind, p.last().0, "has already been defined"@, p.last().1))
    } else {
        dup_diags(p.drop_last(), kind)
    }
}

/// The names of contract fields `ids`, with where they were written.
pub open spec fn cfield_names(db: &Db, ids: Seq<int>) -> Seq<(Seq<char>, Option<Span>)> {
    ids.map_values(|j: int| (db.contract_fields@[j].ast.name.text@, Some(db.contract_fields@[j].ast.name.span)))
}

/// The names of struct fields `ids`, with where they were written.
pub open spec fn sfield_names(db: &Db, ids: Seq<int>) -> Seq<(Seq<char>, Option<Span>)> {
    ids.map_values(|j: int| (db.struct_fields@[j].ast.name.text@, Some(db.struct_fields@[j].ast.name.span)))
}

/// The names of functions `ids`, with where they were written.
pub open spec fn fn_names(db: &Db, ids: Seq<int>) -> Seq<(Seq<char>, Option<Span>)> {
    ids.map_values(|j: int| (db.functions@[j].ast.name.text@, Some(db.functions@[j].ast.name.span)))
}

/// The names of events `ids`, with where they were written.
pub open spec fn ev_names(db: &Db, ids: Seq<int>) -> Seq<(Seq<char>, Option<Span>)> {
    ids.map_values(|j: int| (db.events@[j].ast.name.text@, Some(db.events@[j].ast.name.span)))
}

/// The errors for members of contract `c` that share a name: fields, then
/// functions, then events.
pub open spec fn contract_dup_diags(db: &Db, c: ContractId) -> Seq<DiagView> {
    dup_diags(cfield_names(db, members_of(db.contract_fields@, c)), "field"@)
        + dup_diags(fn_names(db, members_of(db.functions@, Some(Class::Contract(c)))), "function"@)
        + dup_diags(ev_names(db, members_of(db.events@, Some(c))), "event"@)
}

/// The errors for members of struct `s` that share a name: fields, then functions.
pub open spec fn struct_dup_diags(db: &Db, s: StructId) -> Seq<DiagView> {
    dup_diags(sfield_names(db, members_of(db.struct_fields@, s)), "field"@)
        + dup_diags(fn_names(db, members_of(db.functions@, Some(Class::Struct(s)))), "function"@)
}

/// Pushes an error for each name of `p` that an earlier entry already took.
fn sink_dups(p: &Vec<(String, Option<Span>)>, kind: &str, sink: &mut Vec<Diagnostic>, Ghost(pv): Ghost<Seq<(Seq<char>, Option<Span>)>>)
    requires
        pv == p@.map_values(|e: (String, Option<Span>)| (e.0@, e.1)),
    ensures
        dviews(final(sink)@) == dviews(old(sink)@) + dup_diags(pv, kind@),
{
    let ghost s0 = dviews(sink@);
    let mut i: usize = 0;
    while i < p.len()
        invariant
            i <= p@.len(),
            pv == p@.map_values(|e: (String, Option<Span>)| (e.0@, e.1)),
            dviews(sink@) == s0 + dup_diags(pv.take(i as int), kind@),
        decreases p@.len() - i,
    {
        let mut k: usize = 0;
        let mut seen = false;
        while k < i
            invariant
                k <= i,
                i < p@.len(),
                pv == p@.map_values(|e: (String, Option<Span>)| (e.0@, e.1)),
                seen == exists|q: int| 0 <= q < k && pv[q].0 == pv[i as int].0,
            decreases i - k,
        {
            assert(pv[k as int] == (p@[k as int].0@, p@[k as int].1));
            assert(pv[i as int] == (p@[i as int].0@, p@[i as int].1));
            if p[k].0 == p[i].0 {
                seen = true;
            }
            k = k + 1;
        }
        let ghost t = pv.take(i as int + 1);
        assert(t.drop_last() =~= pv.take(i as int));
        assert(t.last() == pv[i as int]);
        assert(named_before(t, t.last().0, t.len() - 1) == seen) by {
            if seen {
                let q = choose|q: int| 0 <= q < i && pv[q].0 == pv[i as int].0;
                assert(t[q] == pv[q]);
            }
            if named_before(t, t.last().0, t.len() - 1) {
                let q = choose|q: int| 0 <= q < t.len() - 1 && t[q].0 == t.last().0;
                assert(t[q] == pv[q]);
            }
        }
        if seen {
            assert(pv[i as int] == (p@[i as int].0@, p@[i as int].1));
            let d = named_error_d(kind, &p[i].0, "has already been defined", p[i].1);
            let ghost before = sink@;
            sink.push(d);
            assert(dviews(sink@) =~= dviews(before).push(dview(d)));
        }
        i = i + 1;
    }
    assert(pv.take(i as int) =~= pv);
}

/// The names of the records `ids`, with where they were written.
fn member_names<T: crate::entities::Named>(table: &Vec<T>, ids: &Vec<usize>) -> (r: Vec<(String, Option<Span>)>)
    requires
        forall|j: int| 0 <= j < ids@.len() ==> (#[trigger] ids@[j]) < table@.len(),
    ensures
        r@.map_values(|e: (String, Option<Span>)| (e.0@, e.1)) == ids@.map_values(|x: usize| x as int).map_values(
            |j: int| (table@[j].spec_name(), Some(table@[j].spec_name_span())),
        ),
{
    let ghost is = ids@.map_values(|x: usize| x as int);
    let ghost want = is.map_values(|j: int| (table@[j].spec_name(), Some(table@[j].spec_name_span())));
    let mut r: Vec<(String, Option<Span>)> = Vec::new();
    let mut i: usize = 0;
    while i < ids.len()
        invariant
            i <= ids@.len(),
            forall|j: int| 0 <= j < ids@.len() ==> (#[trigger] ids@[j]) < table@.len(),
            is == ids@.map_values(|x: usize| x as int),
            want == is.map_values(|j: int| (table@[j].spec_name(), Some(table@[j].spec_name_span()))),
            r@.map_values(|e: (String, Option<Span>)| (e.0@, e.1)) == want.take(i as int),
        decreases ids@.len() - i,
    {
        let rec = &table[ids[i]];
        let e = (rec.name_text(), Some(rec.name_span_of()));
        let ghost before = r@;
        r.push(e);
        assert(r@.map_values(|e: (String, Option<Span>)| (e.0@, e.1)) =~= before.map_values(|e: (String, Option<Span>)| (e.0@, e.1)).push((e.0@, e.1)));
        assert(want.take(i as int + 1) =~= want.take(i as int).push(want[i as int]));
        i = i + 1;
    }
    assert(want.take(i as int) =~= want);
    r
}

/// The diagnostics of an item: the errors in every type it declares, its
/// members' included; none for built-ins, modules and ingots.
pub open spec fn item_diags(db: &Db, it: Item) -> Seq<DiagView> {
    match it {
        Item::Type(TypeDef::Alias(a)) => type_diags(db, db.type_aliases@[a.0 as int].module, db.type_aliases@[a.0 as int].ast.typ.segments@),
        Item::Constant(c) => type_diags(db, db.constants@[c.0 as int].module, db.constants@[c.0 as int].ast.typ.segments@),
        Item::Type(TypeDef::Contract(c)) => paths_diags(db, db.contracts@[c.0 as int].module, contract_field_paths(db, members_of(db.contract_fields@, c)))
            + fns_diags(db, members_of(db.functions@, Some(Class::Contract(c))))
            + evs_diags(db, members_of(db.events@, Some(c))) + contract_dup_diags(db, c),
        Item::Type(TypeDef::Struct(s)) => paths_diags(db, db.structs@[s.0 as int].module, struct_field_paths(db, members_of(db.struct_fields@, s)))
            + fns_diags(db, members_of(db.functions@, Some(Class::Struct(s)))) + struct_dup_diags(db, s),
        Item::Function(f) => fn_diags(db, f),
        Item::Event(e) => event_diags(db, e),
        _ => Seq::empty(),
    }
}

/// Pushes the diagnostics of a type.
fn sink_type(db: &Db, m: ModuleId, p: &ast::Path, sink: &mut Vec<Diagnostic>)
    requires
        db.wf(),
        (m.0 as int) < db.modules@.len(),
    ensures
        dviews(final(sink)@) == dviews(old(sink)@) + type_diags(db, m, p.segments@),
{
    append_diags(sink, resolve_type(db, m, p).diagnostics);
}

proof fn lemma_paths_push(db: &Db, m: ModuleId, ps: Seq<ast::Path>, p: ast::Path)
    ensures
        paths_diags(db, m, ps.push(p)) == paths_diags(db, m, ps) + type_diags(db, m, p.segments@),
{
    assert(ps.push(p).drop_last() =~= ps);
}

/// Pushes the diagnostics of a function's signature.
fn sink_fn(db: &Db, f: FunctionId, sink: &mut Vec<Diagnostic>)
    requires
        db.wf(),
        (f.0 as int) < db.functions@.len(),
    ensures
        dviews(final(sink)@) == dviews(old(sink)@) + fn_diags(db, f),
{
    let rec = &db.functions[f.0 as usize];
    let m = rec.module;
    let args = &rec.ast.args;
    let mut i: usize = 0;
    while i < args.len()
        invariant
            i <= args@.len(),
            db.wf(),
            (m.0 as int) < db.modules@.len(),
            dviews(sink@) == dviews(old(sink)@) + paths_diags(db, m, arg_paths(args@.take(i as int))),
        decreases args@.len() - i,
    {
        assert(args@.take(i as int + 1).drop_last() =~= args@.take(i as int));
        assert(args@.take(i as int + 1).last() == args@[i as int]);
        match &args[i] {
            ast::FunctionArg::Regular { typ, .. } => {
                proof { lemma_paths_push(db, m, arg_paths(args@.take(i as int)), *typ); }
                sink_type(db, m, typ, sink);
                assert(dviews(sink@) =~= dviews(old(sink)@) + paths_diags(db, m, arg_paths(args@.take(i as int + 1))));
            },
            ast::FunctionArg::Zelf(_) => {},
        }
        i = i + 1;
    }
    assert(args@.take(i as int) =~= args@);
    match &rec.ast.return_type {
        Some(p) => {
            proof {
                lemma_paths_push(db, m, arg_paths(args@), *p);
                assert(arg_paths(args@).push(*p) =~= arg_paths(args@) + seq![*p]);
            }
            sink_type(db, m, p, sink);
            assert(dviews(sink@) =~= dviews(old(sink)@) + fn_diags(db, f));
        },
        None => {
            assert(arg_paths(args@) + Seq::<ast::Path>::empty() =~= arg_paths(args@));
        },
    }
}

/// Pushes the diagnostics of an event's field types.
fn sink_event(db: &Db, e: EventId, sink: &mut Vec<Diagnostic>)
    requires
        db.wf(),
        (e.0 as int) < db.events@.len(),
    ensures
        dviews(final(sink)@) == dviews(old(sink)@) + event_diags(db, e),
{
    let rec = &db.events[e.0 as usize];
    let m = rec.module;
    let fs = &rec.ast.fields;
    let mut i: usize = 0;
    while i < fs.len()
        invariant
            i <= fs@.len(),
            db.wf(),
            (m.0 as int) < db.modules@.len(),
            dviews(sink@) == dviews(old(sink)@) + paths_diags(db, m, field_paths(fs@.take(i as int))),
        decreases fs@.len() - i,
    {
        proof {
            assert(field_paths(fs@.take(i as int + 1)) =~= field_paths(fs@.take(i as int)).push(fs@[i as int].typ));
            lemma_paths_push(db, m, field_paths(fs@.take(i as int)), fs@[i as int].typ);
        }
        sink_type(db, m, &fs[i].typ, sink);
        assert(dviews(sink@) =~= dviews(old(sink)@) + paths_diags(db, m, field_paths(fs@.take(i as int + 1))));
        i = i + 1;
    }
    assert(fs@.take(i as int) =~= fs@);
}

/// Pushes the diagnostics of the functions `ids`.
fn sink_fns(db: &Db, ids: &Vec<usize>, sink: &mut Vec<Diagnostic>)
    requires
        db.wf(),
        forall|j: int| 0 <= j < ids@.len() ==> (#[trigger] ids@[j]) < db.functions@.len(),
    ensures
        dviews(final(sink)@) == dviews(old(sink)@) + fns_diags(db, ids@.map_values(|x: usize| x as int)),
{
    let ghost is = ids@.map_values(|x: usize| x as int);
    let mut i: usize = 0;
    while i < ids.len()
        invariant
            i <= ids@.len(),
            db.wf(),
            is == ids@.map_values(|x: usize| x as int),
            forall|j: int| 0 <= j < ids@.len() ==> (#[trigger] ids@[j]) < db.functions@.len(),
            dviews(sink@) == dviews(old(sink)@) + fns_diags(db, is.take(i as int)),
        decreases ids@.len() - i,
    {
        assert(is.take(i as int + 1).drop_last() =~= is.take(i as int));
        assert(is.take(i as int + 1).last() == ids@[i as int] as int);
        sink_fn(db, FunctionId(ids[i] as u32), sink);
        assert(dviews(sink@) =~= dviews(old(sink)@) + fns_diags(db, is.take(i as int + 1)));
        i = i + 1;
    }
    assert(is.take(i as int) =~= is);
}

/// Pushes the diagnostics of the events `ids`.
fn sink_events(db: &Db, ids: &Vec<usize>, sink: &mut Vec<Diagnostic>)
    requires
        db.wf(),
        forall|j: int| 0 <= j < ids@.len() ==> (#[trigger] ids@[j]) < db.events@.len(),
    ensures
        dviews(final(sink)@) == dviews(old(sink)@) + evs_diags(db, ids@.map_values(|x: usize| x as int)),
{
    let ghost is = ids@.map_values(|x: usize| x as int);
    let mut i: usize = 0;
    while i < ids.len()
        invariant
            i <= ids@.len(),
            db.wf(),
            is == ids@.map_values(|x: usize| x as int),
            forall|j: int| 0 <= j < ids@.len() ==> (#[trigger] ids@[j]) < db.events@.len(),
            dviews(sink@) == dviews(old(sink)@) + evs_diags(db, is.take(i as int)),
        decreases ids@.len() - i,
    {
        assert(is.take(i as int + 1).drop_last() =~= is.take(i as int));
        assert(is.take(i as int + 1).last() == ids@[i as int] as int);
        sink_event(db, EventId(ids[i] as u32), sink);
        assert(dviews(sink@) =~= dviews(old(sink)@) + evs_diags(db, is.take(i as int + 1)));
        i = i + 1;
    }
    assert(is.take(i as int) =~= is);
}

impl Item {
    /// Pushes this item's diagnostics: the errors in every type it declares,
    /// its members' included, and an error for each member name taken twice.
    #[verifier::rlimit(100)]
    pub fn sink_diagnostics(&self, db: &Db, sink: &mut Vec<Diagnostic>)
        requires
            db.wf(),
            db.valid_item(*self),
        ensures
            dviews(final(sink)@) == dviews(old(sink)@) + item_diags(db, *self),
    {
        match self {
            Item::Type(TypeDef::Alias(a)) => {
                let rec = &db.type_aliases[a.0 as usize];
                sink_type(db, rec.module, &rec.ast.typ, sink);
            },
            Item::Constant(c) => {
                let rec = &db.constants[c.0 as usize];
                sink_type(db, rec.module, &rec.ast.typ, sink);
            },
            Item::Function(f) => sink_fn(db, *f, sink),
            Item::Event(e) => sink_event(db, *e, sink),
            Item::Type(TypeDef::Contract(c)) => {
                let m = db.contracts[c.0 as usize].module;
                let ids = members(&db.contract_fields, c);
                let ghost is = ids@.map_values(|x: usize| x as int);
                let ghost s0 = dviews(sink@);
                let mut j: usize = 0;
                while j < ids.len()
                    invariant
                        j <= ids@.len(),
                        db.wf(),
                        (m.0 as int) < db.modules@.len(),
                        is == ids@.map_values(|x: usize| x as int),
                        forall|q: int| 0 <= q < ids@.len() ==> (#[trigger] ids@[q]) < db.contract_fields@.len(),
                        dviews(sink@) == s0 + paths_diags(db, m, contract_field_paths(db, is.take(j as int))),
                    decreases ids@.len() - j,
                {
                    let p = &db.contract_fields[ids[j]].ast.typ;
                    proof {
                        assert(contract_field_paths(db, is.take(j as int + 1)) =~= contract_field_paths(db, is.take(j as int)).push(*p));
                        lemma_paths_push(db, m, contract_field_paths(db, is.take(j as int)), *p);
                    }
                    sink_type(db, m, p, sink);
                    assert(dviews(sink@) =~= s0 + paths_diags(db, m, contract_field_paths(db, is.take(j as int + 1))));
                    j = j + 1;
                }
                assert(is.take(j as int) =~= is);
                let fids = members(&db.functions, &Some(Class::Contract(*c)));
                sink_fns(db, &fids, sink);
                let eids = members(&db.events, &Some(*c));
                sink_events(db, &eids, sink);
                let ghost s3 = dviews(sink@);
                let n1 = member_names(&db.contract_fields, &ids);
                assert(n1@.map_values(|e: (String, Option<Span>)| (e.0@, e.1)) =~= cfield_names(db, members_of(db.contract_fields@, *c)));
                sink_dups(&n1, "field", sink, Ghost(cfield_names(db, members_of(db.contract_fields@, *c))));
                let n2 = member_names(&db.functions, &fids);
                assert(n2@.map_values(|e: (String, Option<Span>)| (e.0@, e.1)) =~= fn_names(db, members_of(db.functions@, Some(Class::Contract(*c)))));
                sink_dups(&n2, "function", sink, Ghost(fn_names(db, members_of(db.functions@, Some(Class::Contract(*c))))));
                let n3 = member_names(&db.events, &eids);
                assert(n3@.map_values(|e: (String, Option<Span>)| (e.0@, e.1)) =~= ev_names(db, members_of(db.events@, Some(*c))));
                sink_dups(&n3, "event", sink, Ghost(ev_names(db, members_of(db.events@, Some(*c)))));
                assert(dviews(sink@) =~= dviews(old(sink)@) + item_diags(db, *self));
            },
            Item::Type(TypeDef::Struct(st)) => {
                let m = db.structs[st.0 as usize].module;
                let ids = members(&db.struct_fields, st);
                let ghost is = ids@.map_values(|x: usize| x as int);
                let ghost s0 = dviews(sink@);
                let mut j: usize = 0;
                while j < ids.len()
                    invariant
                        j <= ids@.len(),
                        db.wf(),
                        (m.0 as int) < db.modules@.len(),
                        is == ids@.map_values(|x: usize| x as int),
                        forall|q: int| 0 <= q < ids@.len() ==> (#[trigger] ids@[q]) < db.struct_fields@.len(),
                        dviews(sink@) == s0 + paths_diags(db, m, struct_field_paths(db, is.take(j as int))),
                    decreases ids@.len() - j,
                {
                    let p = &db.struct_fields[ids[j]].ast.typ;
                    proof {
                        assert(struct_field_paths(db, is.take(j as int + 1)) =~= struct_field_paths(db, is.take(j as int)).push(*p));
                        lemma_paths_push(db, m, struct_field_paths(db, is.take(j as int)), *p);
                    }
                    sink_type(db, m, p, sink);
                    assert(dviews(sink@) =~= s0 + paths_diags(db, m, struct_field_paths(db, is.take(j as int + 1))));
                    j = j + 1;
                }
                assert(is.take(j as int) =~= is);
                let fids = members(&db.functions, &Some(Class::Struct(*st)));
                sink_fns(db, &fids, sink);
                let n1 = member_names(&db.struct_fields, &ids);
                assert(n1@.map_values(|e: (String, Option<Span>)| (e.0@, e.1)) =~= sfield_names(db, members_of(db.struct_fields@, *st)));
                sink_dups(&n1, "field", sink, Ghost(sfield_names(db, members_of(db.struct_fields@, *st))));
                let n2 = member_names(&db.functions, &fids);
                assert(n2@.map_values(|e: (String, Option<Span>)| (e.0@, e.1)) =~= fn_names(db, members_of(db.functions@, Some(Class::Struct(*st)))));
                sink_dups(&n2, "function", sink, Ghost(fn_names(db, members_of(db.functions@, Some(Class::Struct(*st))))));
                assert(dviews(sink@) =~= dviews(old(sink)@) + item_diags(db, *self));
            },
            _ => {
                assert(dviews(sink@) =~= dviews(old(sink)@) + item_diags(db, *self));
            },
        }
    }
}

impl ModuleId {
    /// The module's name.
    pub fn name(&self, db: &Db) -> (r: String)
        requires
            (self.0 as int) < db.modules@.len(),
        ensures
            r@ == db.modules@[self.0 as int].name@,
    {
        db.modules[self.0 as usize].name.clone()
    }

    /// The ingot the module belongs to.
    pub fn ingot(&self, db: &Db) -> (r: IngotId)
        requires
            (self.0 as int) < db.modules@.len(),
        ensures
            r == db.modules@[self.0 as int].ingot,
    {
        db.modules[self.0 as usize].ingot
    }

    /// The module's diagnostics: those of its parse, those of collecting its
    /// items by name, and those of each item it declares, in that order.
    pub fn diagnostics(&self, db: &Db) -> (r: Vec<Diagnostic>)
        requires
            db.wf(),
            (self.0 as int) < db.modules@.len(),
        ensures
            dviews(r@) == module_diags(db, *self),
    {
        let mut sink: Vec<Diagnostic> = Vec::new();
        self.sink_diagnostics(db, &mut sink);
        assert(dviews(sink@) =~= dviews(Seq::<Diagnostic>::empty()) + module_diags(db, *self));
        sink
    }

    /// Pushes the module's diagnostics.
    pub fn sink_diagnostics(&self, db: &Db, sink: &mut Vec<Diagnostic>)
        requires
            db.wf(),
            (self.0 as int) < db.modules@.len(),
        ensures
            dviews(final(sink)@) == dviews(old(sink)@) + module_diags(db, *self),
    {
        proof {
            assert(db.module_ok(self.0 as int));
        }
        let ghost s0 = dviews(sink@);
        if let ModuleSource::File(f) = &db.modules[self.0 as usize].source {
            let parse = &db.files[f.0 as usize].diagnostics;
            let mut i: usize = 0;
            while i < parse.len()
                invariant
                    i <= parse@.len(),
                    dviews(sink@) == s0 + dviews(parse@.take(i as int)),
                decreases parse@.len() - i,
            {
                let d = copy_diag(&parse[i]);
                let ghost before = sink@;
                sink.push(d);
                assert(dviews(sink@) =~= dviews(before).push(dview(d)));
                assert(dviews(parse@.take(i as int + 1)) =~= dviews(parse@.take(i as int)).push(dview(parse@[i as int])));
                i = i + 1;
            }
            assert(parse@.take(i as int) =~= parse@);
        } else {
            assert(dviews(sink@) =~= s0 + parse_diags(db, *self));
        }
        let ghost s1 = dviews(sink@);
        append_diags(sink, self.items(db).diagnostics);
        let items = self.all_items(db);
        let ghost s2 = dviews(sink@);
        let mut i: usize = 0;
        while i < items.len()
            invariant
                i <= items@.len(),
                db.wf(),
                forall|j: int| 0 <= j < items@.len() ==> db.valid_item(#[trigger] items@[j]),
                dviews(sink@) == s2 + items_diags(db, items@.take(i as int)),
            decreases items@.len() - i,
        {
            assert(items@.take(i as int + 1).drop_last() =~= items@.take(i as int));
            assert(items@.take(i as int + 1).last() == items@[i as int]);
            items[i].sink_diagnostics(db, sink);
            assert(dviews(sink@) =~= s2 + items_diags(db, items@.take(i as int + 1)));
            i = i + 1;
        }
        assert(items@.take(i as int) =~= items@);
        assert(dviews(sink@) =~= s0 + module_diags(db, *self));
    }
}

/// A copy of a diagnostic.
fn copy_diag(d: &Diagnostic) -> (r: Diagnostic)
    ensures
        dview(r) == dview(*d),
{
    Diagnostic { message: d.message.clone(), span: d.span, label: d.label.clone() }
}

/// The parse errors of a module's file; none for other modules.
pub open spec fn parse_diags(db: &Db, m: ModuleId) -> Seq<DiagView> {
    match db.modules@[m.0 as int].source {
        ModuleSource::File(f) => dviews(db.files@[f.0 as int].diagnostics@),
        _ => Seq::empty(),
    }
}

/// The diagnostics of the items of `s`, one after the other.
pub open spec fn items_diags(db: &Db, s: Seq<Item>) -> Seq<DiagView>
    decreases s.len(),
{
    if s.len() == 0 {
        Seq::empty()
    } else {
        items_diags(db, s.drop_last()) + item_diags(db, s.last())
    }
}

/// A module's diagnostics: its parse errors, the errors of collecting its
/// items by name, and each declared item's.
pub open spec fn module_diags(db: &Db, m: ModuleId) -> Seq<DiagView> {
    parse_diags(db, m) + item_map_diags(db, m) + items_diags(db, module_all_items(db, m))
}

/// The diagnostics of the modules of `s`, one after the other.
pub open spec fn modules_diags(db: &Db, s: Seq<ModuleId>) -> Seq<DiagView>
    decreases s.len(),
{
    if s.len() == 0 {
        Seq::empty()
    } else {
        modules_diags(db, s.drop_last()) + module_diags(db, s.last())
    }
}

/// An ingot's diagnostics: the one error for a missing root module, or else
/// every module's, in the ingot's module order.
pub open spec fn ingot_diags(db: &Db, x: IngotId) -> Seq<DiagView> {
    if root_of(db, x) is None {
        seq![(missing_root_message(db.ingots@[x.0 as int].name@, root_file_name(db.ingots@[x.0 as int].mode)), None::<Span>, ""@)]
    } else {
        modules_diags(db, db.ingot_data@[x.0 as int].modules@)
    }
}

impl IngotId {
    /// The ingot's name.
    pub fn name(&self, db: &Db) -> (r: String)
        requires
            (self.0 as int) < db.ingots@.len(),
        ensures
            r@ == db.ingots@[self.0 as int].name@,
    {
        db.ingots[self.0 as usize].name.clone()
    }

    /// The ingot's modules: one per file, then one per directory module.
    pub fn all_modules(&self, db: &Db) -> (r: Vec<ModuleId>)
        requires
            db.wf(),
            (self.0 as int) < db.ingots@.len(),
        ensures
            r@ == db.ingot_data@[self.0 as int].modules@,
    {
        let ms = &db.ingot_data[self.0 as usize].modules;
        let mut r: Vec<ModuleId> = Vec::new();
        let mut i: usize = 0;
        while i < ms.len()
            invariant
                i <= ms@.len(),
                r@ == ms@.take(i as int),
            decreases ms@.len() - i,
        {
            r.push(ms[i]);
            assert(ms@.take(i as int + 1) =~= ms@.take(i as int).push(ms@[i as int]));
            i = i + 1;
        }
        assert(ms@.take(i as int) =~= ms@);
        r
    }

    /// The `main.fe` or `lib.fe` module, or a standalone ingot's module.
    pub fn root_module(&self, db: &Db) -> (r: Option<ModuleId>)
        requires
            db.wf(),
            (self.0 as int) < db.ingots@.len(),
        ensures
            r == root_of(db, *self),
    {
        db.ingot_data[self.0 as usize].root
    }

    /// The ingots this one depends on, by name.
    pub fn external_ingots<'a>(&self, db: &'a Db) -> (r: &'a NameMap<IngotId>)
        requires
            db.wf(),
            (self.0 as int) < db.ingots@.len(),
        ensures
            *r == db.ingot_data@[self.0 as int].deps,
    {
        &db.ingot_data[self.0 as usize].deps
    }

    /// The scope of the ingot: its root module's.
    pub fn items(&self, db: &Db) -> (r: NameMap<Item>)
        requires
            db.wf(),
            (self.0 as int) < db.ingots@.len(),
        ensures
            r@ == items_of(db, Item::Ingot(*self)),
    {
        Item::Ingot(*self).items(db)
    }

    /// The ingot's diagnostics. An ingot without its root module gives just
    /// the one error that says so; otherwise each module's diagnostics, in
    /// the ingot's module order.
    pub fn diagnostics(&self, db: &Db) -> (r: Vec<Diagnostic>)
        requires
            db.wf(),
            (self.0 as int) < db.ingots@.len(),
        ensures
            dviews(r@) == ingot_diags(db, *self),
    {
        let mut sink: Vec<Diagnostic> = Vec::new();
        self.sink_diagnostics(db, &mut sink);
        assert(dviews(sink@) =~= dviews(Seq::<Diagnostic>::empty()) + ingot_diags(db, *self));
        sink
    }

    /// Pushes the ingot's diagnostics.
    pub fn sink_diagnostics(&self, db: &Db, sink: &mut Vec<Diagnostic>)
        requires
            db.wf(),
            (self.0 as int) < db.ingots@.len(),
        ensures
            dviews(final(sink)@) == dviews(old(sink)@) + ingot_diags(db, *self),
    {
        let data = &db.ingot_data[self.0 as usize];
        if data.root.is_none() {
            let ingot = &db.ingots[self.0 as usize];
            let file = match ingot.mode {
                IngotMode::Lib => "lib",
                _ => "main",
            };
            let mut msg = String::from_str("The ingot named \"");
            msg.append(ingot.name.as_str());
            msg.append("\" is missing a `");
            msg.append(file);
            msg.append("` module. \nPlease add a `src/");
            msg.append(file);
            msg.append(".fe` file to the base directory.");
            proof {
                reveal_strlit("lib");
                reveal_strlit("main");
                reveal_strlit("");
            }
            let d = Diagnostic { message: msg, span: None, label: String::new() };
            assert(file@ == root_file_name(ingot.mode));
            assert(d.message@ =~= missing_root_message(ingot.name@, file@));
            assert(d.label@ =~= ""@);
            assert(dview(d) == (missing_root_message(db.ingots@[self.0 as int].name@, root_file_name(db.ingots@[self.0 as int].mode)), None::<Span>, ""@));
            let ghost before = sink@;
            sink.push(d);
            assert(dviews(sink@) =~= dviews(before).push(dview(d)));
            assert(dviews(sink@) =~= dviews(before) + ingot_diags(db, *self));
            return;
        }
        proof {
            assert(db.ingot_ok(self.0 as int));
        }
        let ghost s0 = dviews(sink@);
        let mut i: usize = 0;
        while i < data.modules.len()
            invariant
                i <= data.modules@.len(),
                db.wf(),
                *data == db.ingot_data@[self.0 as int],
                db.ingot_ok(self.0 as int),
                dviews(sink@) == s0 + modules_diags(db, data.modules@.take(i as int)),
            decreases data.modules@.len() - i,
        {
            assert(data.modules@.take(i as int + 1).drop_last() =~= data.modules@.take(i as int));
            assert(data.modules@.take(i as int + 1).last() == data.modules@[i as int]);
            data.modules[i].sink_diagnostics(db, sink);
            assert(dviews(sink@) =~= s0 + modules_diags(db, data.modules@.take(i as int + 1)));
            i = i + 1;
        }
        assert(data.modules@.take(i as int) =~= data.modules@);
    }
}

/// The diagnostics of the ingots of `s`, one after the other.
pub open spec fn ingots_diags(db: &Db, s: Seq<(Seq<char>, IngotId)>) -> Seq<DiagView>
    decreases s.len(),
{
    if s.len() == 0 {
        Seq::empty()
    } else {
        ingots_diags(db, s.drop_last()) + ingot_diags(db, s.last().1)
    }
}

impl IngotId {
    /// Pushes the diagnostics of every ingot this one depends on.
    pub fn sink_external_ingot_diagnostics(&self, db: &Db, sink: &mut Vec<Diagnostic>)
        requires
            db.wf(),
            (self.0 as int) < db.ingots@.len(),
        ensures
            dviews(final(sink)@) == dviews(old(sink)@) + ingots_diags(db, db.ingot_data@[self.0 as int].deps@),
    {
        let ghost s0 = dviews(sink@);
        proof {
            assert(db.ingot_ok(self.0 as int));
        }
        let deps = &db.ingot_data[self.0 as usize].deps;
        let mut i: usize = 0;
        while i < deps.entries.len()
            invariant
                i <= deps.entries@.len(),
                db.wf(),
                *deps == db.ingot_data@[self.0 as int].deps,
                db.ingot_ok(self.0 as int),
                deps@.len() == deps.entries@.len(),
                dviews(sink@) == s0 + ingots_diags(db, deps@.take(i as int)),
            decreases deps.entries@.len() - i,
        {
            let dep = deps.entries[i].1;
            assert(deps@[i as int].1 == dep);
            assert(deps@.take(i as int + 1).drop_last() =~= deps@.take(i as int));
            assert(deps@.take(i as int + 1).last() == deps@[i as int]);
            dep.sink_diagnostics(db, sink);
            assert(dviews(sink@) =~= s0 + ingots_diags(db, deps@.take(i as int + 1)));
            i = i + 1;
        }
        assert(deps@.take(i as int) =~= deps@);
    }
}

} // verus!
