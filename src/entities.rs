//! Queries on contracts, structs, functions, events, fields, aliases and
//! constants: their members by name and their resolved types.
use crate::ast;
use crate::db::{Analysis, ContractField, Db, Diagnostic, Event, Function, StructField};
use crate::ids::{
    Base, Class, ContractFieldId, ContractId, EventId, FunctionId, Item, ModuleConstantId,
    ModuleId, StructFieldId, StructId, TypeAliasId, TypeDef,
};
use crate::namemap::{first_entries, lookup, NameMap};
use crate::scope::{error, internal_scope, module_incomplete, resolve_spec, seg_texts, IncompleteItem};
use crate::deps::arg_paths;
use vstd::prelude::*;

verus! {

/// A resolved type.
#[derive(Debug, Clone, Copy, PartialEq, Eq, Structural)]
pub enum Type {
    Base(Base),
    Struct(StructId),
    Contract(ContractId),
}

/// A type could not be resolved; the diagnostics say why.
#[derive(Debug, Clone, Copy, PartialEq, Eq, Structural)]
pub struct TypeError;

/// The value of a constant.
#[derive(Debug, Clone, Copy, PartialEq, Eq, Structural)]
pub enum Constant {
    Int(u128),
    Bool(bool),
}

/// The item that names a type.
pub open spec fn type_item(t: Type) -> Item {
    match t {
        Type::Base(b) => Item::Type(TypeDef::Primitive(b)),
        Type::Struct(s) => Item::Type(TypeDef::Struct(s)),
        Type::Contract(c) => Item::Type(TypeDef::Contract(c)),
    }
}

/// The type that an item names, following at most `fuel` aliases.
pub open spec fn as_type(db: &Db, it: Item, fuel: nat) -> Option<Type>
    decreases fuel,
{
    match it {
        Item::Type(TypeDef::Primitive(b)) => Some(Type::Base(b)),
        Item::Type(TypeDef::Struct(s)) => Some(Type::Struct(s)),
        Item::Type(TypeDef::Contract(c)) => Some(Type::Contract(c)),
        Item::Type(TypeDef::Alias(a)) => if fuel == 0 {
            None
        } else {
            let rec = db.type_aliases@[a.0 as int];
            let segs = seg_texts(rec.ast.typ.segments@);
            if segs.len() == 0 {
                None
            } else {
                match resolve_spec(db, Item::Module(rec.module), segs) {
                    Some(t) => as_type(db, t, (fuel - 1) as nat),
                    None => None,
                }
            }
        },
        _ => None,
    }
}

/// The type that a path written in module `m` names. An alias chain longer
/// than the number of aliases is a cycle, and names no type.
pub open spec fn type_of_path(db: &Db, m: ModuleId, segs: Seq<Seq<char>>) -> Option<Type> {
    if segs.len() == 0 {
        None
    } else {
        match resolve_spec(db, Item::Module(m), segs) {
            Some(it) => as_type(db, it, db.type_aliases@.len()),
            None => None,
        }
    }
}

/// A resolved type, or the error that stands for one not resolved.
pub open spec fn type_result(t: Option<Type>) -> Result<Type, TypeError> {
    match t {
        Some(t) => Ok(t),
        None => Err(TypeError),
    }
}

/// What a diagnostic says: its message, its place and its label.
pub type DiagView = (Seq<char>, Option<crate::ast::Span>, Seq<char>);

/// The view of a diagnostic.
pub open spec fn dview(d: Diagnostic) -> DiagView {
    (d.message@, d.span, d.label@)
}

/// The views of a list of diagnostics.
pub open spec fn dviews(v: Seq<Diagnostic>) -> Seq<DiagView> {
    v.map_values(|d: Diagnostic| dview(d))
}

/// The error for a path that cannot be followed from `start`.
pub open spec fn path_error(db: &Db, start: Item, segs: Seq<ast::Name>) -> Seq<DiagView> {
    seq![("unresolved path item"@, crate::scope::resolve_fail_span(db, start, segs), "not found"@)]
}

/// The diagnostics of taking item `it` as a type, following at most `fuel` aliases.
pub open spec fn as_type_diags(db: &Db, it: Item, fuel: nat) -> Seq<DiagView>
    decreases fuel,
{
    match it {
        Item::Type(TypeDef::Primitive(_)) | Item::Type(TypeDef::Struct(_)) | Item::Type(TypeDef::Contract(_)) => Seq::empty(),
        Item::Type(TypeDef::Alias(a)) => {
            let rec = db.type_aliases@[a.0 as int];
            if fuel == 0 {
                seq![("recursive type alias"@, Some(rec.ast.name.span), ""@)]
            } else if rec.ast.typ.segments@.len() == 0 {
                seq![("missing type"@, Some(rec.ast.span), ""@)]
            } else {
                match resolve_spec(db, Item::Module(rec.module), seg_texts(rec.ast.typ.segments@)) {
                    Some(t) => as_type_diags(db, t, (fuel - 1) as nat),
                    None => path_error(db, Item::Module(rec.module), rec.ast.typ.segments@),
                }
            }
        },
        _ => seq![("expected a type"@, None, "not a type"@)],
    }
}

/// The diagnostics of resolving the type `segs` written in module `m`.
pub open spec fn type_diags(db: &Db, m: ModuleId, segs: Seq<ast::Name>) -> Seq<DiagView> {
    if segs.len() == 0 {
        Seq::empty()
    } else {
        match resolve_spec(db, Item::Module(m), seg_texts(segs)) {
            Some(it) => as_type_diags(db, it, db.type_aliases@.len()),
            None => path_error(db, Item::Module(m), segs),
        }
    }
}

proof fn lemma_dviews_one(d: Diagnostic, v: Seq<Diagnostic>)
    requires
        v.len() == 1,
        v[0] == d,
    ensures
        dviews(v) == seq![dview(d)],
{
    assert(dviews(v) =~= seq![dview(d)]);
}

fn item_as_type(db: &Db, it: Item, fuel: usize) -> (r: Analysis<Option<Type>>)
    requires
        db.wf(),
        db.valid_item(it),
    ensures
        r.value == as_type(db, it, fuel as nat),
        dviews(r.diagnostics@) == as_type_diags(db, it, fuel as nat),
    decreases fuel,
{
    match it {
        Item::Type(TypeDef::Primitive(b)) => {
            let r = Analysis { value: Some(Type::Base(b)), diagnostics: Vec::new() };
            assert(dviews(r.diagnostics@) =~= Seq::<DiagView>::empty());
            r
        },
        Item::Type(TypeDef::Struct(s)) => {
            let r = Analysis { value: Some(Type::Struct(s)), diagnostics: Vec::new() };
            assert(dviews(r.diagnostics@) =~= Seq::<DiagView>::empty());
            r
        },
        Item::Type(TypeDef::Contract(c)) => {
            let r = Analysis { value: Some(Type::Contract(c)), diagnostics: Vec::new() };
            assert(dviews(r.diagnostics@) =~= Seq::<DiagView>::empty());
            r
        },
        Item::Type(TypeDef::Alias(a)) => {
            let rec = &db.type_aliases[a.0 as usize];
            if fuel == 0 {
                let d = error("recursive type alias", Some(rec.ast.name.span), "");
                proof { reveal_strlit(""); }
                let ghost dg = d;
                let r = Analysis { value: None, diagnostics: vec![d] };
                assert(r.diagnostics@ =~= seq![dg]);
                proof { lemma_dviews_one(dg, r.diagnostics@); }
                return r;
            }
            if rec.ast.typ.segments.len() == 0 {
                let d = error("missing type", Some(rec.ast.span), "");
                let ghost dg = d;
                let r = Analysis { value: None, diagnostics: vec![d] };
                assert(r.diagnostics@ =~= seq![dg]);
                proof { lemma_dviews_one(dg, r.diagnostics@); }
                return r;
            }
            let res = Item::Module(rec.module).resolve_path_segments(db, &rec.ast.typ.segments);
            match res.value {
                Some(t) => item_as_type(db, t, fuel - 1),
                None => {
                    proof { lemma_dviews_one(res.diagnostics@[0], res.diagnostics@); }
                    Analysis { value: None, diagnostics: res.diagnostics }
                },
            }
        },
        _ => {
            let d = error("expected a type", None, "not a type");
            let ghost dg = d;
                let r = Analysis { value: None, diagnostics: vec![d] };
                assert(r.diagnostics@ =~= seq![dg]);
            proof { lemma_dviews_one(dg, r.diagnostics@); }
            r
        },
    }
}

/// Resolves a type written in module `m`.
pub fn resolve_type(db: &Db, m: ModuleId, path: &ast::Path) -> (r: Analysis<Result<Type, TypeError>>)
    requires
        db.wf(),
        (m.0 as int) < db.modules@.len(),
    ensures
        r.value == type_result(type_of_path(db, m, seg_texts(path.segments@))),
        dviews(r.diagnostics@) == type_diags(db, m, path.segments@),
{
    if path.segments.len() == 0 {
        let r = Analysis { value: Err(TypeError), diagnostics: Vec::new() };
        assert(dviews(r.diagnostics@) =~= Seq::<DiagView>::empty());
        return r;
    }
    let res = Item::Module(m).resolve_path_segments(db, &path.segments);
    match res.value {
        Some(it) => {
            let t = item_as_type(db, it, db.type_aliases.len());
            Analysis {
                value: match t.value {
                    Some(t) => Ok(t),
                    None => Err(TypeError),
                },
                diagnostics: t.diagnostics,
            }
        },
        None => {
            proof { lemma_dviews_one(res.diagnostics@[0], res.diagnostics@); }
            Analysis { value: Err(TypeError), diagnostics: res.diagnostics }
        },
    }
}

/// A record that belongs to an owner: a field to its contract or struct, a
/// function to its class, an event to its contract.
pub trait Owned: Sized {
    type Owner;

    spec fn owner(&self) -> Self::Owner;

    fn owned_by(&self, o: &Self::Owner) -> (r: bool)
        ensures
            r == (self.owner() == *o),
    ;
}

impl Owned for ContractField {
    type Owner = ContractId;

    open spec fn owner(&self) -> ContractId {
        self.parent
    }

    fn owned_by(&self, o: &ContractId) -> (r: bool) {
        self.parent == *o
    }
}

impl Owned for StructField {
    type Owner = StructId;

    open spec fn owner(&self) -> StructId {
        self.parent
    }

    fn owned_by(&self, o: &StructId) -> (r: bool) {
        self.parent == *o
    }
}

impl Owned for Function {
    type Owner = Option<Class>;

    open spec fn owner(&self) -> Option<Class> {
        self.parent
    }

    fn owned_by(&self, o: &Option<Class>) -> (r: bool) {
        self.parent == *o
    }
}

impl Owned for Event {
    type Owner = Option<ContractId>;

    open spec fn owner(&self) -> Option<ContractId> {
        self.contract
    }

    fn owned_by(&self, o: &Option<ContractId>) -> (r: bool) {
        self.contract == *o
    }
}

/// The identities of the records of `s` that `o` owns, in table order.
pub open spec fn members_of<T: Owned>(s: Seq<T>, o: T::Owner) -> Seq<int>
    decreases s.len(),
{
    if s.len() == 0 {
        Seq::empty()
    } else {
        let prev = members_of(s.drop_last(), o);
        if s.last().owner() == o {
            prev.push(s.len() - 1)
        } else {
            prev
        }
    }
}

proof fn lemma_members_in_range<T: Owned>(s: Seq<T>, o: T::Owner)
    ensures
        forall|j: int| 0 <= j < members_of(s, o).len() ==> 0 <= #[trigger] members_of(s, o)[j] < s.len()
            && s[members_of(s, o)[j]].owner() == o,
    decreases s.len(),
{
    if s.len() > 0 {
        lemma_members_in_range(s.drop_last(), o);
        let prev = members_of(s.drop_last(), o);
        assert forall|j: int| 0 <= j < prev.len() implies s[prev[j]] == s.drop_last()[prev[j]] by {}
    }
}

/// The identities of the records that `o` owns, in table order.
pub(crate) fn members<T: Owned>(table: &Vec<T>, o: &T::Owner) -> (r: Vec<usize>)
    ensures
        r@.map_values(|x: usize| x as int) == members_of(table@, *o),
        forall|j: int| 0 <= j < r@.len() ==> (#[trigger] r@[j]) < table@.len() && table@[r@[j] as int].owner() == *o,
{
    let mut r: Vec<usize> = Vec::new();
    let mut i: usize = 0;
    while i < table.len()
        invariant
            i <= table@.len(),
            r@.map_values(|x: usize| x as int) == members_of(table@.take(i as int), *o),
            forall|j: int| 0 <= j < r@.len() ==> (#[trigger] r@[j]) < i && table@[r@[j] as int].owner() == *o,
        decreases table@.len() - i,
    {
        assert(table@.take(i as int + 1).drop_last() =~= table@.take(i as int));
        assert(table@.take(i as int + 1).last() == table@[i as int]);
        if table[i].owned_by(o) {
            let ghost before = r@;
            r.push(i);
            assert(r@.map_values(|x: usize| x as int) =~= before.map_values(|x: usize| x as int).push(i as int));
        }
        i = i + 1;
    }
    assert(table@.take(i as int) =~= table@);
    r
}

/// The fields of contract `c` by name, the first of each name.
pub open spec fn contract_field_pairs(db: &Db, c: ContractId) -> Seq<(Seq<char>, ContractFieldId)> {
    members_of(db.contract_fields@, c).map_values(
        |j: int| (db.contract_fields@[j].ast.name.text@, ContractFieldId(j as u32)),
    )
}

/// The fields of struct `s` by name, the first of each name.
pub open spec fn struct_field_pairs(db: &Db, s: StructId) -> Seq<(Seq<char>, StructFieldId)> {
    members_of(db.struct_fields@, s).map_values(
        |j: int| (db.struct_fields@[j].ast.name.text@, StructFieldId(j as u32)),
    )
}

/// The member functions of a class, each under its name.
pub open spec fn function_pairs(db: &Db, c: Class) -> Seq<(Seq<char>, FunctionId)> {
    members_of(db.functions@, Some(c)).map_values(
        |j: int| (db.functions@[j].ast.name.text@, FunctionId(j as u32)),
    )
}

/// The events of contract `c`, each under its name.
pub open spec fn event_pairs(db: &Db, c: ContractId) -> Seq<(Seq<char>, EventId)> {
    members_of(db.events@, Some(c)).map_values(|j: int| (db.events@[j].ast.name.text@, EventId(j as u32)))
}

/// The name of the constructor.
pub open spec fn init_name() -> Seq<char> {
    "__init__"@
}

/// The name of the fallback function.
pub open spec fn call_name() -> Seq<char> {
    "__call__"@
}

/// The pairs whose name is neither the constructor's nor the fallback's.
pub open spec fn user_functions(p: Seq<(Seq<char>, FunctionId)>) -> Seq<(Seq<char>, FunctionId)>
    decreases p.len(),
{
    if p.len() == 0 {
        Seq::empty()
    } else if p.last().0 == init_name() || p.last().0 == call_name() {
        user_functions(p.drop_last())
    } else {
        user_functions(p.drop_last()).push(p.last())
    }
}

/// The first function of `p` named `n`.
pub open spec fn first_named(p: Seq<(Seq<char>, FunctionId)>, n: Seq<char>) -> Option<FunctionId> {
    lookup(first_entries(p), n)
}

impl ContractId {
    /// The module that declares this contract.
    pub fn module(&self, db: &Db) -> (r: ModuleId)
        requires
            (self.0 as int) < db.contracts@.len(),
        ensures
            r == db.contracts@[self.0 as int].module,
    {
        db.contracts[self.0 as usize].module
    }

    /// The item above this contract: its module.
    pub fn parent(&self, db: &Db) -> (r: Item)
        requires
            (self.0 as int) < db.contracts@.len(),
        ensures
            r == Item::Module(db.contracts@[self.0 as int].module),
    {
        Item::Module(db.contracts[self.0 as usize].module)
    }

    /// The fields by name; of two fields with one name the first counts.
    pub fn fields(&self, db: &Db) -> (r: NameMap<ContractFieldId>)
        ensures
            r@ == first_entries(contract_field_pairs(db, *self)),
    {
        let ids = members(&db.contract_fields, self);
        let ghost p = contract_field_pairs(db, *self);
        let mut r: NameMap<ContractFieldId> = NameMap::new();
        let mut i: usize = 0;
        while i < ids.len()
            invariant
                i <= ids@.len(),
                ids@.map_values(|x: usize| x as int) == members_of(db.contract_fields@, *self),
                forall|j: int| 0 <= j < ids@.len() ==> (#[trigger] ids@[j]) < db.contract_fields@.len(),
                p == contract_field_pairs(db, *self),
                r@ == first_entries(p.take(i as int)),
            decreases ids@.len() - i,
        {
            let j = ids[i];
            assert(p[i as int] == (db.contract_fields@[j as int].ast.name.text@, ContractFieldId(j as u32)));
            assert(p.take(i as int + 1).drop_last() =~= p.take(i as int));
            r.insert_new(db.contract_fields[j].ast.name.text.clone(), ContractFieldId(j as u32));
            i = i + 1;
        }
        assert(p.take(i as int) =~= p);
        r
    }

    /// The type of the field `name` and its position, if there is one.
    pub fn field_type(&self, db: &Db, name: &String) -> (r: Option<(Result<Type, TypeError>, usize)>)
        requires
            db.wf(),
            (self.0 as int) < db.contracts@.len(),
        ensures
            match r {
                Some((t, i)) => crate::namemap::find_key(first_entries(contract_field_pairs(db, *self)), name@)
                    == Some(i as int) && t == type_result(type_of_path(
                    db,
                    db.contracts@[self.0 as int].module,
                    seg_texts(db.contract_fields@[first_entries(contract_field_pairs(db, *self))[i as int].1.0 as int].ast.typ.segments@),
                )),
                None => crate::namemap::find_key(first_entries(contract_field_pairs(db, *self)), name@) is None,
            },
    {
        let fields = self.fields(db);
        match fields.get_index_of(name) {
            Some(i) => {
                proof {
                    crate::namemap::lemma_find_key(fields@, name@);
                    assert(fields@.len() == fields.entries@.len());
                }
                let id = fields.entries[i].1;
                proof {
                    assert(fields@[i as int] == (fields.entries@[i as int].0@, fields.entries@[i as int].1));
                    lemma_first_entries_ids(db, *self, i as int);
                }
                let t = id.typ(db);
                Some((t.value, i))
            },
            None => None,
        }
    }
}

proof fn lemma_first_entries_ids(db: &Db, c: ContractId, i: int)
    requires
        0 <= i < first_entries(contract_field_pairs(db, c)).len(),
        db.wf(),
    ensures
        (first_entries(contract_field_pairs(db, c))[i].1.0 as int) < db.contract_fields@.len(),
        db.contract_fields@[first_entries(contract_field_pairs(db, c))[i].1.0 as int].parent == c,
{
    lemma_members_in_range(db.contract_fields@, c);
    lemma_first_entries_sub(contract_field_pairs(db, c), i);
    let p = contract_field_pairs(db, c);
    let k = choose|k: int| 0 <= k < p.len() && p[k] == first_entries(p)[i];
    let ms = members_of(db.contract_fields@, c);
    assert(p[k] == (db.contract_fields@[ms[k]].ast.name.text@, ContractFieldId(ms[k] as u32)));
    assert(0 <= ms[k] < db.contract_fields@.len());
}

/// Every entry of `first_entries(p)` is a pair of `p`.
pub proof fn lemma_first_entries_sub<V>(p: Seq<(Seq<char>, V)>, i: int)
    requires
        0 <= i < first_entries(p).len(),
    ensures
        exists|k: int| 0 <= k < p.len() && p[k] == first_entries(p)[i],
    decreases p.len(),
{
    let prev = first_entries(p.drop_last());
    if i < prev.len() {
        lemma_first_entries_sub(p.drop_last(), i);
        let k = choose|k: int| 0 <= k < p.drop_last().len() && p.drop_last()[k] == prev[i];
        assert(p[k] == p.drop_last()[k]);
    } else {
        assert(p[p.len() - 1] == first_entries(p)[i]);
    }
}

impl ContractFieldId {
    /// The field's name.
    pub fn name(&self, db: &Db) -> (r: String)
        requires
            (self.0 as int) < db.contract_fields@.len(),
        ensures
            r@ == db.contract_fields@[self.0 as int].ast.name.text@,
    {
        db.contract_fields[self.0 as usize].ast.name.text.clone()
    }

    /// The field's declared type, resolved in the contract's module.
    pub fn typ(&self, db: &Db) -> (r: Analysis<Result<Type, TypeError>>)
        requires
            db.wf(),
            (self.0 as int) < db.contract_fields@.len(),
        ensures
            r.value == type_result(type_of_path(
                db,
                db.contracts@[db.contract_fields@[self.0 as int].parent.0 as int].module,
                seg_texts(db.contract_fields@[self.0 as int].ast.typ.segments@),
            )),
    {
        let f = &db.contract_fields[self.0 as usize];
        let c = &db.contracts[f.parent.0 as usize];
        resolve_type(db, c.module, &f.ast.typ)
    }
}

/// The member functions of class `c` by name, the constructor and the
/// fallback left out; of two with one name the first counts.
pub fn function_map(db: &Db, c: Class) -> (r: NameMap<FunctionId>)
    ensures
        r@ == first_entries(user_functions(function_pairs(db, c))),
{
    let ids = members(&db.functions, &Some(c));
    let ghost p = function_pairs(db, c);
    let mut r: NameMap<FunctionId> = NameMap::new();
    let mut i: usize = 0;
    while i < ids.len()
        invariant
            i <= ids@.len(),
            ids@.map_values(|x: usize| x as int) == members_of(db.functions@, Some(c)),
            forall|j: int| 0 <= j < ids@.len() ==> (#[trigger] ids@[j]) < db.functions@.len(),
            p == function_pairs(db, c),
            r@ == first_entries(user_functions(p.take(i as int))),
        decreases ids@.len() - i,
    {
        let j = ids[i];
        assert(p[i as int] == (db.functions@[j as int].ast.name.text@, FunctionId(j as u32)));
        assert(p.take(i as int + 1).drop_last() =~= p.take(i as int));
        let name = &db.functions[j].ast.name.text;
        let ghost q = p.take(i as int + 1);
        assert(q.last() == p[i as int]);
        if !is_special(name) {
            r.insert_new(name.clone(), FunctionId(j as u32));
            assert(user_functions(q) == user_functions(p.take(i as int)).push(p[i as int]));
            assert(user_functions(q).drop_last() =~= user_functions(p.take(i as int)));
        } else {
            assert(user_functions(q) == user_functions(p.take(i as int)));
        }
        i = i + 1;
    }
    assert(p.take(i as int) =~= p);
    r
}

/// Whether `n` is the constructor's or the fallback's name.
fn is_special(n: &String) -> (r: bool)
    ensures
        r == (n@ == init_name() || n@ == call_name()),
{
    let init = String::from_str("__init__");
    let call = String::from_str("__call__");
    *n == init || *n == call
}

/// The first member function of `c` named `name`, the constructor and the
/// fallback included.
pub fn named_function(db: &Db, c: Class, name: &String) -> (r: Option<FunctionId>)
    ensures
        r == first_named(function_pairs(db, c), name@),
{
    let ids = members(&db.functions, &Some(c));
    let ghost p = function_pairs(db, c);
    let mut r: NameMap<FunctionId> = NameMap::new();
    let mut i: usize = 0;
    while i < ids.len()
        invariant
            i <= ids@.len(),
            ids@.map_values(|x: usize| x as int) == members_of(db.functions@, Some(c)),
            forall|j: int| 0 <= j < ids@.len() ==> (#[trigger] ids@[j]) < db.functions@.len(),
            p == function_pairs(db, c),
            r@ == first_entries(p.take(i as int)),
        decreases ids@.len() - i,
    {
        let j = ids[i];
        assert(p[i as int] == (db.functions@[j as int].ast.name.text@, FunctionId(j as u32)));
        assert(p.take(i as int + 1).drop_last() =~= p.take(i as int));
        r.insert_new(db.functions[j].ast.name.text.clone(), FunctionId(j as u32));
        i = i + 1;
    }
    assert(p.take(i as int) =~= p);
    r.get(name)
}

/// Whether function `f` takes `self`.
pub open spec fn spec_takes_self(db: &Db, f: FunctionId) -> bool {
    exists|j: int| 0 <= j < db.functions@[f.0 as int].ast.args@.len() && db.functions@[f.0 as int].ast.args@[j] is Zelf
}

impl FunctionId {
    /// The function's name.
    pub fn name(&self, db: &Db) -> (r: String)
        requires
            (self.0 as int) < db.functions@.len(),
        ensures
            r@ == db.functions@[self.0 as int].ast.name.text@,
    {
        db.functions[self.0 as usize].ast.name.text.clone()
    }

    /// The module that declares the function.
    pub fn module(&self, db: &Db) -> (r: ModuleId)
        requires
            (self.0 as int) < db.functions@.len(),
        ensures
            r == db.functions@[self.0 as int].module,
    {
        db.functions[self.0 as usize].module
    }

    /// The contract or struct the function belongs to, if any.
    pub fn class(&self, db: &Db) -> (r: Option<Class>)
        requires
            (self.0 as int) < db.functions@.len(),
        ensures
            r == db.functions@[self.0 as int].parent,
    {
        db.functions[self.0 as usize].parent
    }

    /// The enclosing item: its class, or else its module.
    pub fn parent(&self, db: &Db) -> (r: Item)
        requires
            (self.0 as int) < db.functions@.len(),
        ensures
            r == match db.functions@[self.0 as int].parent {
                Some(c) => c.spec_as_item(),
                None => Item::Module(db.functions@[self.0 as int].module),
            },
    {
        let f = &db.functions[self.0 as usize];
        match &f.parent {
            Some(c) => c.as_item(),
            None => Item::Module(f.module),
        }
    }

    /// Whether the function takes `self`.
    pub fn takes_self(&self, db: &Db) -> (r: bool)
        requires
            (self.0 as int) < db.functions@.len(),
        ensures
            r == spec_takes_self(db, *self),
    {
        let args = &db.functions[self.0 as usize].ast.args;
        let mut i: usize = 0;
        while i < args.len()
            invariant
                i <= args@.len(),
                *args == db.functions@[self.0 as int].ast.args,
                forall|j: int| 0 <= j < i ==> !(args@[j] is Zelf),
            decreases args@.len() - i,
        {
            if let ast::FunctionArg::Zelf(_) = &args[i] {
                return true;
            }
            i = i + 1;
        }
        false
    }

    /// Whether the function is declared `pub`.
    pub fn is_public(&self, db: &Db) -> (r: bool)
        requires
            (self.0 as int) < db.functions@.len(),
        ensures
            r == db.functions@[self.0 as int].ast.pub_ is Some,
    {
        db.functions[self.0 as usize].ast.pub_.is_some()
    }

    /// Whether the function is declared `unsafe`.
    pub fn is_unsafe(&self, db: &Db) -> (r: bool)
        requires
            (self.0 as int) < db.functions@.len(),
        ensures
            r == db.functions@[self.0 as int].ast.unsafe_ is Some,
    {
        db.functions[self.0 as usize].ast.unsafe_.is_some()
    }

    /// Whether the function is the constructor, `__init__`.
    pub fn is_constructor(&self, db: &Db) -> (r: bool)
        requires
            (self.0 as int) < db.functions@.len(),
        ensures
            r == (db.functions@[self.0 as int].ast.name.text@ == init_name()),
    {
        let init = String::from_str("__init__");
        db.functions[self.0 as usize].ast.name.text == init
    }
}

impl Class {
    /// The member function named `name`, the constructor and the fallback left out.
    pub fn function(&self, db: &Db, name: &String) -> (r: Option<FunctionId>)
        ensures
            r == lookup(first_entries(user_functions(function_pairs(db, *self))), name@),
    {
        function_map(db, *self).get(name)
    }

    /// The member function named `name` where it takes `self`.
    pub fn self_function(&self, db: &Db, name: &String) -> (r: Option<FunctionId>)
        requires
            db.wf(),
            db.class_ok(*self),
        ensures
            r == match lookup(first_entries(user_functions(function_pairs(db, *self))), name@) {
                Some(f) => if spec_takes_self(db, f) { Some(f) } else { None },
                None => None,
            },
    {
        let f = self.function(db, name)?;
        proof {
            lemma_function_map_ids(db, *self, name@);
        }
        if f.takes_self(db) {
            Some(f)
        } else {
            None
        }
    }
}

/// What the function map of a class holds are functions of the database.
proof fn lemma_function_map_ids(db: &Db, c: Class, n: Seq<char>)
    ensures
        lookup(first_entries(user_functions(function_pairs(db, c))), n) matches Some(f) ==> (f.0 as int)
            < db.functions@.len(),
{
    let p = function_pairs(db, c);
    let q = user_functions(p);
    let e = first_entries(q);
    crate::namemap::lemma_find_key(e, n);
    if let Some(i) = crate::namemap::find_key(e, n) {
        lemma_first_entries_sub(q, i);
        let k = choose|k: int| 0 <= k < q.len() && q[k] == e[i];
        lemma_user_functions_sub(p, k);
        let k2 = choose|k2: int| 0 <= k2 < p.len() && p[k2] == q[k];
        lemma_members_in_range(db.functions@, Some(c));
        let ms = members_of(db.functions@, Some(c));
        assert(p[k2] == (db.functions@[ms[k2]].ast.name.text@, FunctionId(ms[k2] as u32)));
    }
}

proof fn lemma_user_functions_sub(p: Seq<(Seq<char>, FunctionId)>, i: int)
    requires
        0 <= i < user_functions(p).len(),
    ensures
        exists|k: int| 0 <= k < p.len() && p[k] == user_functions(p)[i],
    decreases p.len(),
{
    let prev = user_functions(p.drop_last());
    if i < prev.len() {
        lemma_user_functions_sub(p.drop_last(), i);
        let k = choose|k: int| 0 <= k < p.drop_last().len() && p.drop_last()[k] == prev[i];
        assert(p[k] == p.drop_last()[k]);
    } else {
        assert(p[p.len() - 1] == user_functions(p)[i]);
    }
}

impl ContractId {
    /// The user functions by name, public or not; the constructor and the
    /// fallback are left out.
    pub fn functions(&self, db: &Db) -> (r: NameMap<FunctionId>)
        ensures
            r@ == first_entries(user_functions(function_pairs(db, Class::Contract(*self)))),
    {
        function_map(db, Class::Contract(*self))
    }

    /// The user function named `name`.
    pub fn function(&self, db: &Db, name: &String) -> (r: Option<FunctionId>)
        ensures
            r == lookup(first_entries(user_functions(function_pairs(db, Class::Contract(*self)))), name@),
    {
        function_map(db, Class::Contract(*self)).get(name)
    }

    /// The user function named `name` where it takes `self`.
    pub fn self_function(&self, db: &Db, name: &String) -> (r: Option<FunctionId>)
        requires
            db.wf(),
            (self.0 as int) < db.contracts@.len(),
        ensures
            r == match lookup(first_entries(user_functions(function_pairs(db, Class::Contract(*self)))), name@) {
                Some(f) => if spec_takes_self(db, f) { Some(f) } else { None },
                None => None,
            },
    {
        Class::Contract(*self).self_function(db, name)
    }

    /// The constructor, `__init__`, if the contract has one.
    pub fn init_function(&self, db: &Db) -> (r: Option<FunctionId>)
        ensures
            r == first_named(function_pairs(db, Class::Contract(*self)), init_name()),
    {
        named_function(db, Class::Contract(*self), &String::from_str("__init__"))
    }

    /// The fallback, `__call__`, if the contract has one.
    pub fn call_function(&self, db: &Db) -> (r: Option<FunctionId>)
        ensures
            r == first_named(function_pairs(db, Class::Contract(*self)), call_name()),
    {
        named_function(db, Class::Contract(*self), &String::from_str("__call__"))
    }

    /// The events declared in the contract by name; of two with one name the
    /// first counts.
    pub fn events(&self, db: &Db) -> (r: NameMap<EventId>)
        ensures
            r@ == first_entries(event_pairs(db, *self)),
    {
        let ids = members(&db.events, &Some(*self));
        let ghost p = event_pairs(db, *self);
        let mut r: NameMap<EventId> = NameMap::new();
        let mut i: usize = 0;
        while i < ids.len()
            invariant
                i <= ids@.len(),
                ids@.map_values(|x: usize| x as int) == members_of(db.events@, Some(*self)),
                forall|j: int| 0 <= j < ids@.len() ==> (#[trigger] ids@[j]) < db.events@.len(),
                p == event_pairs(db, *self),
                r@ == first_entries(p.take(i as int)),
            decreases ids@.len() - i,
        {
            let j = ids[i];
            assert(p[i as int] == (db.events@[j as int].ast.name.text@, EventId(j as u32)));
            assert(p.take(i as int + 1).drop_last() =~= p.take(i as int));
            r.insert_new(db.events[j].ast.name.text.clone(), EventId(j as u32));
            i = i + 1;
        }
        assert(p.take(i as int) =~= p);
        r
    }

    /// The event named `name`.
    pub fn event(&self, db: &Db, name: &String) -> (r: Option<EventId>)
        ensures
            r == lookup(first_entries(event_pairs(db, *self)), name@),
    {
        self.events(db).get(name)
    }
}

impl StructId {
    /// The module that declares this struct.
    pub fn module(&self, db: &Db) -> (r: ModuleId)
        requires
            (self.0 as int) < db.structs@.len(),
        ensures
            r == db.structs@[self.0 as int].module,
    {
        db.structs[self.0 as usize].module
    }

    /// The item above this struct: its module.
    pub fn parent(&self, db: &Db) -> (r: Item)
        requires
            (self.0 as int) < db.structs@.len(),
        ensures
            r == Item::Module(db.structs@[self.0 as int].module),
    {
        Item::Module(db.structs[self.0 as usize].module)
    }

    /// The fields by name; of two fields with one name the first counts.
    pub fn fields(&self, db: &Db) -> (r: NameMap<StructFieldId>)
        ensures
            r@ == first_entries(struct_field_pairs(db, *self)),
    {
        let ids = members(&db.struct_fields, self);
        let ghost p = struct_field_pairs(db, *self);
        let mut r: NameMap<StructFieldId> = NameMap::new();
        let mut i: usize = 0;
        while i < ids.len()
            invariant
                i <= ids@.len(),
                ids@.map_values(|x: usize| x as int) == members_of(db.struct_fields@, *self),
                forall|j: int| 0 <= j < ids@.len() ==> (#[trigger] ids@[j]) < db.struct_fields@.len(),
                p == struct_field_pairs(db, *self),
                r@ == first_entries(p.take(i as int)),
            decreases ids@.len() - i,
        {
            let j = ids[i];
            assert(p[i as int] == (db.struct_fields@[j as int].ast.name.text@, StructFieldId(j as u32)));
            assert(p.take(i as int + 1).drop_last() =~= p.take(i as int));
            r.insert_new(db.struct_fields[j].ast.name.text.clone(), StructFieldId(j as u32));
            i = i + 1;
        }
        assert(p.take(i as int) =~= p);
        r
    }

    /// The field named `name`.
    pub fn field(&self, db: &Db, name: &String) -> (r: Option<StructFieldId>)
        ensures
            r == lookup(first_entries(struct_field_pairs(db, *self)), name@),
    {
        self.fields(db).get(name)
    }

    /// The position of the field named `name`.
    pub fn field_index(&self, db: &Db, name: &String) -> (r: Option<usize>)
        ensures
            match r {
                Some(i) => crate::namemap::find_key(first_entries(struct_field_pairs(db, *self)), name@) == Some(i as int),
                None => crate::namemap::find_key(first_entries(struct_field_pairs(db, *self)), name@) is None,
            },
    {
        self.fields(db).get_index_of(name)
    }

    /// The resolved type of the field named `name`, if there is one.
    pub fn field_type(&self, db: &Db, name: &String) -> (r: Option<Result<Type, TypeError>>)
        requires
            db.wf(),
        ensures
            match lookup(first_entries(struct_field_pairs(db, *self)), name@) {
                Some(f) => r == Some(struct_field_type(db, f)),
                None => r is None,
            },
    {
        let f = self.field(db, name)?;
        proof {
            lemma_struct_field_ids(db, *self, name@);
        }
        Some(f.typ(db).value)
    }

    /// Whether the field named `name` has a primitive type.
    pub fn is_base_type(&self, db: &Db, name: &String) -> (r: bool)
        requires
            db.wf(),
        ensures
            r == match lookup(first_entries(struct_field_pairs(db, *self)), name@) {
                Some(f) => struct_field_type(db, f) matches Ok(Type::Base(_)),
                None => false,
            },
    {
        match self.field_type(db, name) {
            Some(Ok(Type::Base(_))) => true,
            _ => false,
        }
    }

    /// Whether some field has a type that is not primitive.
    pub fn has_complex_fields(&self, db: &Db) -> (r: bool)
        requires
            db.wf(),
        ensures
            r == exists|j: int| 0 <= j < first_entries(struct_field_pairs(db, *self)).len() && !(struct_field_type(db, #[trigger] first_entries(struct_field_pairs(db, *self))[j].1) matches Ok(Type::Base(_))),
    {
        let fields = self.fields(db);
        let mut i: usize = 0;
        while i < fields.entries.len()
            invariant
                i <= fields.entries@.len(),
                db.wf(),
                fields@ == first_entries(struct_field_pairs(db, *self)),
                fields@.len() == fields.entries@.len(),
                forall|j: int| 0 <= j < i ==> (struct_field_type(db, #[trigger] fields@[j].1) matches Ok(Type::Base(_))),
            decreases fields.entries@.len() - i,
        {
            let f = fields.entries[i].1;
            assert(fields@[i as int].1 == f);
            proof {
                lemma_struct_entries_ids(db, *self, i as int);
            }
            match f.typ(db).value {
                Ok(Type::Base(_)) => {},
                _ => {
                    return true;
                },
            }
            i = i + 1;
        }
        false
    }

    /// Whether some field is not public.
    pub fn has_private_field(&self, db: &Db) -> (r: bool)
        requires
            db.wf(),
        ensures
            r == exists|j: int| 0 <= j < first_entries(struct_field_pairs(db, *self)).len() && !db.struct_fields@[(#[trigger] first_entries(struct_field_pairs(db, *self))[j]).1.0 as int].ast.is_pub,
    {
        let fields = self.fields(db);
        let mut i: usize = 0;
        while i < fields.entries.len()
            invariant
                i <= fields.entries@.len(),
                db.wf(),
                fields@ == first_entries(struct_field_pairs(db, *self)),
                fields@.len() == fields.entries@.len(),
                forall|j: int| 0 <= j < i ==> db.struct_fields@[(#[trigger] fields@[j]).1.0 as int].ast.is_pub,
            decreases fields.entries@.len() - i,
        {
            let f = fields.entries[i].1;
            assert(fields@[i as int].1 == f);
            proof {
                lemma_struct_entries_ids(db, *self, i as int);
            }
            if !f.is_public(db) {
                return true;
            }
            i = i + 1;
        }
        false
    }

    /// The member functions by name; the constructor and the fallback are left out.
    pub fn functions(&self, db: &Db) -> (r: NameMap<FunctionId>)
        ensures
            r@ == first_entries(user_functions(function_pairs(db, Class::Struct(*self)))),
    {
        function_map(db, Class::Struct(*self))
    }

    /// The member function named `name`.
    pub fn function(&self, db: &Db, name: &String) -> (r: Option<FunctionId>)
        ensures
            r == lookup(first_entries(user_functions(function_pairs(db, Class::Struct(*self)))), name@),
    {
        function_map(db, Class::Struct(*self)).get(name)
    }

    /// The member function named `name` where it takes `self`.
    pub fn self_function(&self, db: &Db, name: &String) -> (r: Option<FunctionId>)
        requires
            db.wf(),
            (self.0 as int) < db.structs@.len(),
        ensures
            r == match lookup(first_entries(user_functions(function_pairs(db, Class::Struct(*self)))), name@) {
                Some(f) => if spec_takes_self(db, f) { Some(f) } else { None },
                None => None,
            },
    {
        Class::Struct(*self).self_function(db, name)
    }
}

/// The resolved type of a struct field.
pub open spec fn struct_field_type(db: &Db, f: StructFieldId) -> Result<Type, TypeError> {
    type_result(type_of_path(
        db,
        db.structs@[db.struct_fields@[f.0 as int].parent.0 as int].module,
        seg_texts(db.struct_fields@[f.0 as int].ast.typ.segments@),
    ))
}

proof fn lemma_struct_entries_ids(db: &Db, s: StructId, i: int)
    requires
        0 <= i < first_entries(struct_field_pairs(db, s)).len(),
    ensures
        (first_entries(struct_field_pairs(db, s))[i].1.0 as int) < db.struct_fields@.len(),
{
    lemma_members_in_range(db.struct_fields@, s);
    lemma_first_entries_sub(struct_field_pairs(db, s), i);
    let p = struct_field_pairs(db, s);
    let k = choose|k: int| 0 <= k < p.len() && p[k] == first_entries(p)[i];
    let ms = members_of(db.struct_fields@, s);
    assert(p[k] == (db.struct_fields@[ms[k]].ast.name.text@, StructFieldId(ms[k] as u32)));
}

proof fn lemma_struct_field_ids(db: &Db, s: StructId, n: Seq<char>)
    ensures
        lookup(first_entries(struct_field_pairs(db, s)), n) matches Some(f) ==> (f.0 as int) < db.struct_fields@.len(),
{
    crate::namemap::lemma_find_key(first_entries(struct_field_pairs(db, s)), n);
    if let Some(i) = crate::namemap::find_key(first_entries(struct_field_pairs(db, s)), n) {
        lemma_struct_entries_ids(db, s, i);
    }
}

impl StructFieldId {
    /// The field's name.
    pub fn name(&self, db: &Db) -> (r: String)
        requires
            (self.0 as int) < db.struct_fields@.len(),
        ensures
            r@ == db.struct_fields@[self.0 as int].ast.name.text@,
    {
        db.struct_fields[self.0 as usize].ast.name.text.clone()
    }

    /// Whether the field is declared `pub`.
    pub fn is_public(&self, db: &Db) -> (r: bool)
        requires
            (self.0 as int) < db.struct_fields@.len(),
        ensures
            r == db.struct_fields@[self.0 as int].ast.is_pub,
    {
        db.struct_fields[self.0 as usize].ast.is_pub
    }

    /// The field's declared type, resolved in the struct's module.
    pub fn typ(&self, db: &Db) -> (r: Analysis<Result<Type, TypeError>>)
        requires
            db.wf(),
            (self.0 as int) < db.struct_fields@.len(),
        ensures
            r.value == struct_field_type(db, *self),
    {
        let f = &db.struct_fields[self.0 as usize];
        let s = &db.structs[f.parent.0 as usize];
        resolve_type(db, s.module, &f.ast.typ)
    }

    /// Whether the field's type is primitive.
    pub fn is_base_type(&self, db: &Db) -> (r: bool)
        requires
            db.wf(),
            (self.0 as int) < db.struct_fields@.len(),
        ensures
            r == (struct_field_type(db, *self) matches Ok(Type::Base(_))),
    {
        match self.typ(db).value {
            Ok(Type::Base(_)) => true,
            _ => false,
        }
    }
}

impl TypeAliasId {
    /// The type the alias stands for.
    pub fn typ(&self, db: &Db) -> (r: Analysis<Result<Type, TypeError>>)
        requires
            db.wf(),
            (self.0 as int) < db.type_aliases@.len(),
        ensures
            r.value == type_result(type_of_path(
                db,
                db.type_aliases@[self.0 as int].module,
                seg_texts(db.type_aliases@[self.0 as int].ast.typ.segments@),
            )),
    {
        let a = &db.type_aliases[self.0 as usize];
        resolve_type(db, a.module, &a.ast.typ)
    }

    /// The item above the alias: its module.
    pub fn parent(&self, db: &Db) -> (r: Item)
        requires
            (self.0 as int) < db.type_aliases@.len(),
        ensures
            r == Item::Module(db.type_aliases@[self.0 as int].module),
    {
        Item::Module(db.type_aliases[self.0 as usize].module)
    }
}

impl ModuleConstantId {
    /// The constant's declared type.
    pub fn typ(&self, db: &Db) -> (r: Analysis<Result<Type, TypeError>>)
        requires
            db.wf(),
            (self.0 as int) < db.constants@.len(),
        ensures
            r.value == type_result(type_of_path(
                db,
                db.constants@[self.0 as int].module,
                seg_texts(db.constants@[self.0 as int].ast.typ.segments@),
            )),
    {
        let c = &db.constants[self.0 as usize];
        resolve_type(db, c.module, &c.ast.typ)
    }

    /// Whether the constant's type is primitive.
    pub fn is_base_type(&self, db: &Db) -> (r: bool)
        requires
            db.wf(),
            (self.0 as int) < db.constants@.len(),
        ensures
            r == (type_result(type_of_path(
                db,
                db.constants@[self.0 as int].module,
                seg_texts(db.constants@[self.0 as int].ast.typ.segments@),
            )) matches Ok(Type::Base(_))),
    {
        match self.typ(db).value {
            Ok(Type::Base(_)) => true,
            _ => false,
        }
    }

    /// The constant's value.
    pub fn constant_value(&self, db: &Db) -> (r: Constant)
        requires
            (self.0 as int) < db.constants@.len(),
        ensures
            r == match db.constants@[self.0 as int].ast.value {
                ast::Expr::Num(n) => Constant::Int(n),
                ast::Expr::Bool(b) => Constant::Bool(b),
            },
    {
        match db.constants[self.0 as usize].ast.value {
            ast::Expr::Num(n) => Constant::Int(n),
            ast::Expr::Bool(b) => Constant::Bool(b),
        }
    }

    /// The item above the constant: its module.
    pub fn parent(&self, db: &Db) -> (r: Item)
        requires
            (self.0 as int) < db.constants@.len(),
        ensures
            r == Item::Module(db.constants@[self.0 as int].module),
    {
        Item::Module(db.constants[self.0 as usize].module)
    }
}

impl EventId {
    /// The module that declares the event.
    pub fn module(&self, db: &Db) -> (r: ModuleId)
        requires
            (self.0 as int) < db.events@.len(),
        ensures
            r == db.events@[self.0 as int].module,
    {
        db.events[self.0 as usize].module
    }

    /// The item above the event: its contract, or else its module.
    pub fn parent(&self, db: &Db) -> (r: Item)
        requires
            (self.0 as int) < db.events@.len(),
        ensures
            r == match db.events@[self.0 as int].contract {
                Some(c) => Item::Type(TypeDef::Contract(c)),
                None => Item::Module(db.events@[self.0 as int].module),
            },
    {
        let e = &db.events[self.0 as usize];
        match e.contract {
            Some(c) => Item::Type(TypeDef::Contract(c)),
            None => Item::Module(e.module),
        }
    }

    /// The resolved types of the event's fields, in order.
    pub fn typ(&self, db: &Db) -> (r: Vec<Result<Type, TypeError>>)
        requires
            db.wf(),
            (self.0 as int) < db.events@.len(),
        ensures
            r@.len() == db.events@[self.0 as int].ast.fields@.len(),
            forall|j: int| 0 <= j < r@.len() ==> #[trigger] r@[j] == type_result(type_of_path(
                db,
                db.events@[self.0 as int].module,
                seg_texts(db.events@[self.0 as int].ast.fields@[j].typ.segments@),
            )),
    {
        let e = &db.events[self.0 as usize];
        let mut r: Vec<Result<Type, TypeError>> = Vec::new();
        let mut i: usize = 0;
        while i < e.ast.fields.len()
            invariant
                i <= e.ast.fields@.len(),
                *e == db.events@[self.0 as int],
                db.wf(),
                (e.module.0 as int) < db.modules@.len(),
                r@.len() == i,
                forall|j: int| 0 <= j < i ==> #[trigger] r@[j] == type_result(type_of_path(
                    db,
                    e.module,
                    seg_texts(e.ast.fields@[j].typ.segments@),
                )),
            decreases e.ast.fields@.len() - i,
        {
            r.push(resolve_type(db, e.module, &e.ast.fields[i].typ).value);
            i = i + 1;
        }
        r
    }
}

/// Each entry of a class's function map names a function of the database.
pub proof fn lemma_function_map_entry(db: &Db, c: Class, i: int)
    requires
        0 <= i < first_entries(user_functions(function_pairs(db, c))).len(),
    ensures
        (first_entries(user_functions(function_pairs(db, c)))[i].1.0 as int) < db.functions@.len(),
{
    let p = function_pairs(db, c);
    let q = user_functions(p);
    let e = first_entries(q);
    lemma_first_entries_sub(q, i);
    let k = choose|k: int| 0 <= k < q.len() && q[k] == e[i];
    lemma_user_functions_sub(p, k);
    let k2 = choose|k2: int| 0 <= k2 < p.len() && p[k2] == q[k];
    lemma_members_in_range(db.functions@, Some(c));
    let ms = members_of(db.functions@, Some(c));
    assert(p[k2] == (db.functions@[ms[k2]].ast.name.text@, FunctionId(ms[k2] as u32)));
}

/// A struct as a type: its identity, its name and how many fields it has.
#[derive(Debug, Clone)]
pub struct StructType {
    pub id: StructId,
    pub name: String,
    pub field_count: usize,
}

/// What a function takes and gives.
#[derive(Debug)]
pub struct FunctionSignature {
    pub self_decl: bool,
    pub params: Vec<(String, Result<Type, TypeError>)>,
    pub return_type: Result<Type, TypeError>,
}

/// The pairs of `p` whose function is declared `pub`.
pub open spec fn public_entries(db: &Db, p: Seq<(Seq<char>, FunctionId)>) -> Seq<(Seq<char>, FunctionId)>
    decreases p.len(),
{
    if p.len() == 0 {
        Seq::empty()
    } else if db.functions@[p.last().1.0 as int].ast.pub_ is Some {
        public_entries(db, p.drop_last()).push(p.last())
    } else {
        public_entries(db, p.drop_last())
    }
}

impl TypeDef {
    /// The type this definition stands for.
    pub fn typ(&self, db: &Db) -> (r: Result<Type, TypeError>)
        requires
            db.wf(),
            db.valid_item(Item::Type(*self)),
        ensures
            r == match *self {
                TypeDef::Alias(a) => type_result(type_of_path(
                    db,
                    db.type_aliases@[a.0 as int].module,
                    seg_texts(db.type_aliases@[a.0 as int].ast.typ.segments@),
                )),
                TypeDef::Struct(s) => Ok(Type::Struct(s)),
                TypeDef::Contract(c) => Ok(Type::Contract(c)),
                TypeDef::Primitive(b) => Ok(Type::Base(b)),
            },
    {
        match self {
            TypeDef::Alias(a) => a.typ(db).value,
            TypeDef::Struct(s) => Ok(Type::Struct(*s)),
            TypeDef::Contract(c) => Ok(Type::Contract(*c)),
            TypeDef::Primitive(b) => Ok(Type::Base(*b)),
        }
    }

    /// The item above the definition: its module; none for a primitive.
    pub fn parent(&self, db: &Db) -> (r: Option<Item>)
        requires
            db.valid_item(Item::Type(*self)),
        ensures
            r == match *self {
                TypeDef::Alias(a) => Some(Item::Module(db.type_aliases@[a.0 as int].module)),
                TypeDef::Struct(s) => Some(Item::Module(db.structs@[s.0 as int].module)),
                TypeDef::Contract(c) => Some(Item::Module(db.contracts@[c.0 as int].module)),
                TypeDef::Primitive(_) => None,
            },
    {
        match self {
            TypeDef::Alias(a) => Some(a.parent(db)),
            TypeDef::Struct(s) => Some(s.parent(db)),
            TypeDef::Contract(c) => Some(c.parent(db)),
            TypeDef::Primitive(_) => None,
        }
    }
}

impl ContractId {
    /// The contract's name.
    pub fn name(&self, db: &Db) -> (r: String)
        requires
            (self.0 as int) < db.contracts@.len(),
        ensures
            r@ == db.contracts@[self.0 as int].ast.name.text@,
    {
        db.contracts[self.0 as usize].ast.name.text.clone()
    }

    /// The public user functions by name.
    pub fn public_functions(&self, db: &Db) -> (r: NameMap<FunctionId>)
        requires
            db.wf(),
        ensures
            r@ == public_entries(db, first_entries(user_functions(function_pairs(db, Class::Contract(*self))))),
    {
        let fm = function_map(db, Class::Contract(*self));
        let ghost p = fm@;
        let mut r: NameMap<FunctionId> = NameMap::new();
        let mut i: usize = 0;
        assert(fm@.len() == fm.entries@.len());
        while i < fm.entries.len()
            invariant
                i <= fm.entries@.len(),
                p == fm@,
                p.len() == fm.entries@.len(),
                p == first_entries(user_functions(function_pairs(db, Class::Contract(*self)))),
                r@ == public_entries(db, p.take(i as int)),
            decreases fm.entries@.len() - i,
        {
            let e = &fm.entries[i];
            assert(p[i as int] == (e.0@, e.1));
            assert(p.take(i as int + 1).drop_last() =~= p.take(i as int));
            assert(p.take(i as int + 1).last() == p[i as int]);
            proof {
                lemma_function_map_entry(db, Class::Contract(*self), i as int);
            }
            if e.1.is_public(db) {
                r.entries.push((e.0.clone(), e.1));
                assert(r@ =~= public_entries(db, p.take(i as int)).push(p[i as int]));
            }
            i = i + 1;
        }
        assert(p.take(i as int) =~= p);
        r
    }

    /// Looks a name up from inside the contract: a function that takes no
    /// `self`, then an event, then the module's scope.
    pub fn resolve_name(&self, db: &Db, name: &String) -> (r: Result<Option<Item>, IncompleteItem>)
        requires
            db.wf(),
            (self.0 as int) < db.contracts@.len(),
        ensures
            r == match lookup(first_entries(user_functions(function_pairs(db, Class::Contract(*self)))), name@) {
                Some(f) if !spec_takes_self(db, f) => Ok(Some(Item::Function(f))),
                _ => match lookup(first_entries(event_pairs(db, *self)), name@) {
                    Some(e) => Ok(Some(Item::Event(e))),
                    None => match lookup(internal_scope(db, db.contracts@[self.0 as int].module), name@) {
                        Some(it) => Ok(Some(it)),
                        None => if module_incomplete(db, db.contracts@[self.0 as int].module) {
                            Err(IncompleteItem)
                        } else {
                            Ok(None)
                        },
                    },
                },
            },
    {
        if let Some(f) = self.function(db, name) {
            proof {
                lemma_function_map_ids(db, Class::Contract(*self), name@);
            }
            if !f.takes_self(db) {
                return Ok(Some(Item::Function(f)));
            }
        }
        if let Some(e) = self.event(db, name) {
            return Ok(Some(Item::Event(e)));
        }
        let m = self.module(db);
        m.resolve_name(db, name)
    }
}

impl FunctionId {
    /// What the function takes and gives: whether it takes `self`, the types
    /// of its other parameters, and its return type (unit where none is written).
    pub fn signature(&self, db: &Db) -> (r: FunctionSignature)
        requires
            db.wf(),
            (self.0 as int) < db.functions@.len(),
        ensures
            r.self_decl == spec_takes_self(db, *self),
            r.params@.len() == arg_paths(db.functions@[self.0 as int].ast.args@).len(),
            forall|j: int| 0 <= j < r.params@.len() ==> (#[trigger] r.params@[j]).1 == type_result(type_of_path(
                db,
                db.functions@[self.0 as int].module,
                seg_texts(arg_paths(db.functions@[self.0 as int].ast.args@)[j].segments@),
            )),
            r.return_type == match db.functions@[self.0 as int].ast.return_type {
                Some(p) => type_result(type_of_path(db, db.functions@[self.0 as int].module, seg_texts(p.segments@))),
                None => Ok(Type::Base(Base::Unit)),
            },
    {
        let rec = &db.functions[self.0 as usize];
        let m = rec.module;
        let args = &rec.ast.args;
        let mut params: Vec<(String, Result<Type, TypeError>)> = Vec::new();
        let mut i: usize = 0;
        while i < args.len()
            invariant
                i <= args@.len(),
                db.wf(),
                *rec == db.functions@[self.0 as int],
                *args == rec.ast.args,
                m == rec.module,
                (m.0 as int) < db.modules@.len(),
                params@.len() == arg_paths(args@.take(i as int)).len(),
                forall|j: int| 0 <= j < params@.len() ==> (#[trigger] params@[j]).1 == type_result(type_of_path(
                    db,
                    m,
                    seg_texts(arg_paths(args@.take(i as int))[j].segments@),
                )),
            decreases args@.len() - i,
        {
            assert(args@.take(i as int + 1).drop_last() =~= args@.take(i as int));
            assert(args@.take(i as int + 1).last() == args@[i as int]);
            match &args[i] {
                ast::FunctionArg::Regular { name, typ } => {
                    let t = resolve_type(db, m, typ).value;
                    params.push((name.text.clone(), t));
                    assert(arg_paths(args@.take(i as int + 1)) == arg_paths(args@.take(i as int)).push(*typ));
                },
                ast::FunctionArg::Zelf(_) => {},
            }
            i = i + 1;
        }
        assert(args@.take(i as int) =~= args@);
        let return_type = match &rec.ast.return_type {
            Some(p) => resolve_type(db, m, p).value,
            None => Ok(Type::Base(Base::Unit)),
        };
        FunctionSignature { self_decl: self.takes_self(db), params, return_type }
    }
}

impl Class {
    /// The name of the contract or struct.
    pub fn name(&self, db: &Db) -> (r: String)
        requires
            db.class_ok(*self),
        ensures
            r@ == match *self {
                Class::Contract(c) => db.contracts@[c.0 as int].ast.name.text@,
                Class::Struct(s) => db.structs@[s.0 as int].ast.name.text@,
            },
    {
        match self {
            Class::Contract(c) => c.name(db),
            Class::Struct(s) => s.name(db),
        }
    }
}

impl StructId {
    /// The struct's name.
    pub fn name(&self, db: &Db) -> (r: String)
        requires
            (self.0 as int) < db.structs@.len(),
        ensures
            r@ == db.structs@[self.0 as int].ast.name.text@,
    {
        db.structs[self.0 as usize].ast.name.text.clone()
    }

    /// The struct as a type.
    pub fn typ(&self, db: &Db) -> (r: StructType)
        requires
            (self.0 as int) < db.structs@.len(),
        ensures
            r.id == *self,
            r.name@ == db.structs@[self.0 as int].ast.name.text@,
            r.field_count == first_entries(struct_field_pairs(db, *self)).len(),
    {
        let fields = self.fields(db);
        assert(fields@.len() == fields.entries@.len());
        StructType { id: *self, name: self.name(db), field_count: fields.len() }
    }

    /// The fields that are not public, by name.
    pub fn private_fields(&self, db: &Db) -> (r: NameMap<StructFieldId>)
        requires
            db.wf(),
        ensures
            forall|j: int| 0 <= j < r@.len() ==> first_entries(struct_field_pairs(db, *self)).contains(#[trigger] r@[j])
                && !db.struct_fields@[r@[j].1.0 as int].ast.is_pub,
            forall|j: int| 0 <= j < first_entries(struct_field_pairs(db, *self)).len()
                && !db.struct_fields@[(#[trigger] first_entries(struct_field_pairs(db, *self))[j]).1.0 as int].ast.is_pub
                ==> r@.contains(first_entries(struct_field_pairs(db, *self))[j]),
    {
        let fields = self.fields(db);
        let ghost p = fields@;
        let mut r: NameMap<StructFieldId> = NameMap::new();
        let mut i: usize = 0;
        assert(fields@.len() == fields.entries@.len());
        while i < fields.entries.len()
            invariant
                i <= fields.entries@.len(),
                db.wf(),
                p == fields@,
                p.len() == fields.entries@.len(),
                p == first_entries(struct_field_pairs(db, *self)),
                forall|j: int| 0 <= j < r@.len() ==> p.contains(#[trigger] r@[j]) && !db.struct_fields@[r@[j].1.0 as int].ast.is_pub,
                forall|j: int| 0 <= j < i && !db.struct_fields@[(#[trigger] p[j]).1.0 as int].ast.is_pub ==> r@.contains(p[j]),
            decreases fields.entries@.len() - i,
        {
            let e = &fields.entries[i];
            assert(p[i as int] == (e.0@, e.1));
            proof {
                lemma_struct_entries_ids(db, *self, i as int);
            }
            if !e.1.is_public(db) {
                let ghost before = r@;
                r.entries.push((e.0.clone(), e.1));
                proof {
                    assert(r@ =~= before.push(p[i as int]));
                    assert forall|j: int| 0 <= j < r@.len() implies p.contains(#[trigger] r@[j]) && !db.struct_fields@[r@[j].1.0 as int].ast.is_pub by {
                        if j < before.len() {
                            assert(r@[j] == before[j]);
                        }
                    }
                    assert forall|j: int| 0 <= j < i + 1 && !db.struct_fields@[(#[trigger] p[j]).1.0 as int].ast.is_pub implies r@.contains(p[j]) by {
                        if j < i {
                            let k = choose|k: int| 0 <= k < before.len() && before[k] == p[j];
                            assert(r@[k] == p[j]);
                        } else {
                            assert(r@[before.len() as int] == p[j]);
                        }
                    }
                }
            }
            i = i + 1;
        }
        r
    }
}

impl EventId {
    /// The event's name.
    pub fn name(&self, db: &Db) -> (r: String)
        requires
            (self.0 as int) < db.events@.len(),
        ensures
            r@ == db.events@[self.0 as int].ast.name.text@,
    {
        db.events[self.0 as usize].ast.name.text.clone()
    }
}

impl ModuleConstantId {
    /// The constant's name.
    pub fn name(&self, db: &Db) -> (r: String)
        requires
            (self.0 as int) < db.constants@.len(),
        ensures
            r@ == db.constants@[self.0 as int].ast.name.text@,
    {
        db.constants[self.0 as usize].ast.name.text.clone()
    }
}

impl TypeAliasId {
    /// The alias's name.
    pub fn name(&self, db: &Db) -> (r: String)
        requires
            (self.0 as int) < db.type_aliases@.len(),
        ensures
            r@ == db.type_aliases@[self.0 as int].ast.name.text@,
    {
        db.type_aliases[self.0 as usize].ast.name.text.clone()
    }
}

/// A record with a declared name.
pub trait Named: Sized {
    spec fn spec_name(&self) -> Seq<char>;

    spec fn spec_name_span(&self) -> crate::ast::Span;

    fn name_text(&self) -> (r: String)
        ensures
            r@ == self.spec_name(),
    ;

    fn name_span_of(&self) -> (r: crate::ast::Span)
        ensures
            r == self.spec_name_span(),
    ;
}

impl Named for ContractField {
    open spec fn spec_name(&self) -> Seq<char> {
        self.ast.name.text@
    }

    open spec fn spec_name_span(&self) -> crate::ast::Span {
        self.ast.name.span
    }

    fn name_text(&self) -> (r: String) {
        self.ast.name.text.clone()
    }

    fn name_span_of(&self) -> (r: crate::ast::Span) {
        self.ast.name.span
    }
}

impl Named for StructField {
    open spec fn spec_name(&self) -> Seq<char> {
        self.ast.name.text@
    }

    open spec fn spec_name_span(&self) -> crate::ast::Span {
        self.ast.name.span
    }

    fn name_text(&self) -> (r: String) {
        self.ast.name.text.clone()
    }

    fn name_span_of(&self) -> (r: crate::ast::Span) {
        self.ast.name.span
    }
}

impl Named for Function {
    open spec fn spec_name(&self) -> Seq<char> {
        self.ast.name.text@
    }

    open spec fn spec_name_span(&self) -> crate::ast::Span {
        self.ast.name.span
    }

    fn name_text(&self) -> (r: String) {
        self.ast.name.text.clone()
    }

    fn name_span_of(&self) -> (r: crate::ast::Span) {
        self.ast.name.span
    }
}

impl Named for Event {
    open spec fn spec_name(&self) -> Seq<char> {
        self.ast.name.text@
    }

    open spec fn spec_name_span(&self) -> crate::ast::Span {
        self.ast.name.span
    }

    fn name_text(&self) -> (r: String) {
        self.ast.name.text.clone()
    }

    fn name_span_of(&self) -> (r: crate::ast::Span) {
        self.ast.name.span
    }
}

} // verus!
