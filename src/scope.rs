//! Module scopes: the items a module declares, the global names, the
//! submodules, and the items its `use` statements bring in.
use crate::ast;
use crate::ast::Span;
use crate::db::{
    Analysis, Contract, Db, Diagnostic, Event, Function, IngotMode, ModuleConstant, ModuleSource, Struct, TypeAlias,
};
use crate::ids::{
    ContractId, EventId, FunctionId, IngotId, Item, ModuleConstantId, ModuleId, StructId,
    TypeAliasId, TypeDef,
};
use crate::ids::{
    base_name, generic_type_name, global_function_name, global_object_name, intrinsic_name, spec_is_builtin, Base, GenericType, GlobalFunction, GlobalObject, Integer,
    Intrinsic,
};
use crate::item::{item_name, item_name_span, parent_module_of, root_of};
use crate::ids::kind_name;
use crate::entities::{dview, dviews, DiagView};
use crate::namemap::{
    collect_pairs, key_set, last_value, lemma_collect_pairs,
    lemma_fold_collect, lookup, NameMap,
};
use vstd::string::*;
use vstd::prelude::*;

verus! {

/// A record declared by a statement of a module.
pub trait Located: Sized {
    /// The record is the top-level statement `i` of module `m`.
    spec fn spec_at(&self, m: ModuleId, i: usize) -> bool;

    fn at(&self, m: ModuleId, i: usize) -> (r: bool)
        ensures
            r == self.spec_at(m, i),
    ;
}

impl Located for Contract {
    open spec fn spec_at(&self, m: ModuleId, i: usize) -> bool {
        self.module == m && self.index == i
    }

    fn at(&self, m: ModuleId, i: usize) -> (r: bool) {
        self.module == m && self.index == i
    }
}

impl Located for Struct {
    open spec fn spec_at(&self, m: ModuleId, i: usize) -> bool {
        self.module == m && self.index == i
    }

    fn at(&self, m: ModuleId, i: usize) -> (r: bool) {
        self.module == m && self.index == i
    }
}

impl Located for Function {
    open spec fn spec_at(&self, m: ModuleId, i: usize) -> bool {
        self.module == m && self.parent is None && self.index == i
    }

    fn at(&self, m: ModuleId, i: usize) -> (r: bool) {
        self.module == m && self.parent.is_none() && self.index == i
    }
}

impl Located for Event {
    open spec fn spec_at(&self, m: ModuleId, i: usize) -> bool {
        self.module == m && self.contract is None && self.index == i
    }

    fn at(&self, m: ModuleId, i: usize) -> (r: bool) {
        self.module == m && self.contract.is_none() && self.index == i
    }
}

impl Located for TypeAlias {
    open spec fn spec_at(&self, m: ModuleId, i: usize) -> bool {
        self.module == m && self.index == i
    }

    fn at(&self, m: ModuleId, i: usize) -> (r: bool) {
        self.module == m && self.index == i
    }
}

impl Located for ModuleConstant {
    open spec fn spec_at(&self, m: ModuleId, i: usize) -> bool {
        self.module == m && self.index == i
    }

    fn at(&self, m: ModuleId, i: usize) -> (r: bool) {
        self.module == m && self.index == i
    }
}

/// The first record of `s` declared by statement `i` of module `m`.
pub open spec fn index_at<T: Located>(s: Seq<T>, m: ModuleId, i: usize) -> Option<int>
    decreases s.len(),
{
    if s.len() == 0 {
        None
    } else {
        match index_at(s.drop_last(), m, i) {
            Some(j) => Some(j),
            None => if s.last().spec_at(m, i) {
                Some(s.len() - 1)
            } else {
                None
            },
        }
    }
}

/// The record that `index_at` finds is declared by statement `i` of `m`.
pub proof fn lemma_index_at_pub<T: Located>(s: Seq<T>, m: ModuleId, i: usize)
    ensures
        index_at(s, m, i) matches Some(j) ==> 0 <= j < s.len() && s[j].spec_at(m, i),
{
    lemma_index_at(s, m, i);
}

proof fn lemma_index_at<T: Located>(s: Seq<T>, m: ModuleId, i: usize)
    ensures
        index_at(s, m, i) matches Some(j) ==> 0 <= j < s.len() && s[j].spec_at(m, i),
        index_at(s, m, i) is None ==> forall|j: int| 0 <= j < s.len() ==> !s[j].spec_at(m, i),
    decreases s.len(),
{
    if s.len() > 0 {
        lemma_index_at(s.drop_last(), m, i);
        if index_at(s.drop_last(), m, i) is None {
            assert forall|j: int| 0 <= j < s.len() - 1 implies !s[j].spec_at(m, i) by {
                assert(s.drop_last()[j] == s[j]);
            }
        } else {
            let j = index_at(s.drop_last(), m, i)->0;
            assert(s.drop_last()[j] == s[j]);
        }
    }
}

/// Finds the record declared by statement `i` of module `m`.
fn find_at<T: Located>(table: &Vec<T>, m: ModuleId, i: usize) -> (r: Option<usize>)
    ensures
        match r {
            Some(j) => index_at(table@, m, i) == Some(j as int),
            None => index_at(table@, m, i) is None,
        },
{
    let mut j: usize = 0;
    while j < table.len()
        invariant
            j <= table@.len(),
            index_at(table@.take(j as int), m, i) is None,
        decreases table@.len() - j,
    {
        assert(table@.take(j as int + 1).drop_last() =~= table@.take(j as int));
        if table[j].at(m, i) {
            proof {
                lemma_index_at_prefix(table@, j as int + 1, m, i);
            }
            return Some(j);
        }
        j = j + 1;
    }
    assert(table@.take(j as int) =~= table@);
    None
}

proof fn lemma_index_at_prefix<T: Located>(s: Seq<T>, n: int, m: ModuleId, i: usize)
    requires
        0 < n <= s.len(),
        index_at(s.take(n), m, i) is Some,
    ensures
        index_at(s, m, i) == index_at(s.take(n), m, i),
    decreases s.len(),
{
    if n < s.len() {
        assert(s.drop_last().take(n) =~= s.take(n));
        lemma_index_at_prefix(s.drop_last(), n, m, i);
    } else {
        assert(s.take(n) =~= s);
    }
}

/// The syntax tree of a module: its file's, its lowered form's, or none for a
/// directory.
pub open spec fn module_body(db: &Db, m: ModuleId) -> Seq<ast::ModuleStmt> {
    match db.modules@[m.0 as int].source {
        ModuleSource::File(f) => db.files@[f.0 as int].ast.body@,
        ModuleSource::Lowered { ast, .. } => db.files@[ast.0 as int].ast.body@,
        ModuleSource::Dir(_) => Seq::empty(),
    }
}

/// The entity that statement `i` of module `m` declares, if any.
pub open spec fn entity_at(db: &Db, m: ModuleId, i: usize) -> Option<Item> {
    if let Some(j) = index_at(db.contracts@, m, i) {
        Some(Item::Type(TypeDef::Contract(ContractId(j as u32))))
    } else if let Some(j) = index_at(db.structs@, m, i) {
        Some(Item::Type(TypeDef::Struct(StructId(j as u32))))
    } else if let Some(j) = index_at(db.functions@, m, i) {
        Some(Item::Function(FunctionId(j as u32)))
    } else if let Some(j) = index_at(db.events@, m, i) {
        Some(Item::Event(EventId(j as u32)))
    } else if let Some(j) = index_at(db.type_aliases@, m, i) {
        Some(Item::Type(TypeDef::Alias(TypeAliasId(j as u32))))
    } else if let Some(j) = index_at(db.constants@, m, i) {
        Some(Item::Constant(ModuleConstantId(j as u32)))
    } else {
        None
    }
}

/// The entities that the first `k` statements of module `m` declare, in order.
pub open spec fn items_upto(db: &Db, m: ModuleId, k: nat) -> Seq<Item>
    decreases k,
{
    if k == 0 {
        Seq::empty()
    } else {
        let prev = items_upto(db, m, (k - 1) as nat);
        match entity_at(db, m, (k - 1) as usize) {
            Some(it) => prev.push(it),
            None => prev,
        }
    }
}

/// Every entity that module `m` declares, duplicates included, in order.
pub open spec fn module_all_items(db: &Db, m: ModuleId) -> Seq<Item> {
    items_upto(db, m, module_body(db, m).len())
}

impl Db {
    /// The syntax tree of a module.
    pub fn module_ast(&self, m: ModuleId) -> (r: &ast::Module)
        requires
            self.wf(),
            (m.0 as int) < self.modules@.len(),
        ensures
            r.body@ == module_body(self, m),
    {
        proof {
            assert(self.module_ok(m.0 as int));
        }
        match &self.modules[m.0 as usize].source {
            ModuleSource::File(f) => &self.files[f.0 as usize].ast,
            ModuleSource::Lowered { ast, .. } => &self.files[ast.0 as usize].ast,
            ModuleSource::Dir(_) => &self.empty,
        }
    }
}

proof fn lemma_entity_valid(db: &Db, m: ModuleId, i: usize)
    requires
        db.wf(),
    ensures
        entity_at(db, m, i) matches Some(it) ==> db.valid_item(it),
{
    lemma_index_at(db.contracts@, m, i);
    lemma_index_at(db.structs@, m, i);
    lemma_index_at(db.functions@, m, i);
    lemma_index_at(db.events@, m, i);
    lemma_index_at(db.type_aliases@, m, i);
    lemma_index_at(db.constants@, m, i);
}

impl ModuleId {
    /// Every entity that this module declares, duplicates included, in the
    /// order of the declarations.
    pub fn all_items(&self, db: &Db) -> (r: Vec<Item>)
        requires
            db.wf(),
            (self.0 as int) < db.modules@.len(),
        ensures
            r@ == module_all_items(db, *self),
            forall|j: int| 0 <= j < r@.len() ==> db.valid_item(#[trigger] r@[j]),
    {
        let m = *self;
        let n = db.module_ast(m).body.len();
        let mut r: Vec<Item> = Vec::new();
        let mut i: usize = 0;
        while i < n
            invariant
                i <= n,
                n == module_body(db, m).len(),
                db.wf(),
                r@ == items_upto(db, m, i as nat),
                forall|j: int| 0 <= j < r@.len() ==> db.valid_item(#[trigger] r@[j]),
            decreases n - i,
        {
            proof {
                lemma_entity_valid(db, m, i);
            }
            let found = if let Some(j) = find_at(&db.contracts, m, i) {
                Some(Item::Type(TypeDef::Contract(ContractId(j as u32))))
            } else if let Some(j) = find_at(&db.structs, m, i) {
                Some(Item::Type(TypeDef::Struct(StructId(j as u32))))
            } else if let Some(j) = find_at(&db.functions, m, i) {
                Some(Item::Function(FunctionId(j as u32)))
            } else if let Some(j) = find_at(&db.events, m, i) {
                Some(Item::Event(EventId(j as u32)))
            } else if let Some(j) = find_at(&db.type_aliases, m, i) {
                Some(Item::Type(TypeDef::Alias(TypeAliasId(j as u32))))
            } else if let Some(j) = find_at(&db.constants, m, i) {
                Some(Item::Constant(ModuleConstantId(j as u32)))
            } else {
                None
            };
            assert(found == entity_at(db, m, i));
            if let Some(it) = found {
                r.push(it);
            }
            i = i + 1;
        }
        r
    }
}

/// The entry sequence of a list of pairs.
pub open spec fn pairs_view(v: Seq<(String, Item)>) -> Seq<(Seq<char>, Item)> {
    v.map_values(|e: (String, Item)| (e.0@, e.1))
}

/// Builds a map by inserting the pairs in turn.
pub fn collect(pairs: Vec<(String, Item)>) -> (r: NameMap<Item>)
    ensures
        r@ == collect_pairs(pairs_view(pairs@)),
{
    let mut r: NameMap<Item> = NameMap::new();
    let ghost p = pairs_view(pairs@);
    r.extend(pairs);
    proof {
        lemma_fold_collect(Seq::<(Seq<char>, Item)>::empty(), p);
        assert(Seq::<(Seq<char>, Item)>::empty() + p =~= p);
        assert(collect_pairs(Seq::<(Seq<char>, Item)>::empty()) =~= Seq::<(Seq<char>, Item)>::empty());
    }
    r
}

/// The built-in items, in the order in which the prelude lists them.
pub open spec fn prelude_items() -> Seq<Item> {
    seq![Item::Type(TypeDef::Primitive(Base::Bool)), Item::Type(TypeDef::Primitive(Base::Address))]
        + Integer::all().map_values(|i: Integer| Item::Type(TypeDef::Primitive(Base::Numeric(i))))
        + GenericType::all().map_values(|g: GenericType| Item::GenericType(g))
        + GlobalFunction::all().map_values(|f: GlobalFunction| Item::BuiltinFunction(f))
        + Intrinsic::all().map_values(|f: Intrinsic| Item::Intrinsic(f))
        + GlobalObject::all().map_values(|o: GlobalObject| Item::Object(o))
}

/// The prelude: each built-in under its name.
pub open spec fn prelude_pairs(db: &Db) -> Seq<(Seq<char>, Item)> {
    prelude_items().map_values(|i: Item| (item_name(db, i), i))
}

/// Appends `f(x)` for each `x` of `xs`.
fn push_builtins(out: &mut Vec<Item>, xs: Vec<Item>)
    ensures
        final(out)@ == old(out)@ + xs@,
{
    let mut i: usize = 0;
    while i < xs.len()
        invariant
            i <= xs@.len(),
            out@ == old(out)@ + xs@.take(i as int),
        decreases xs@.len() - i,
    {
        out.push(xs[i]);
        assert(xs@.take(i as int + 1) =~= xs@.take(i as int).push(xs@[i as int]));
        assert(out@ =~= old(out)@ + xs@.take(i as int + 1));
        i = i + 1;
    }
    assert(xs@.take(i as int) =~= xs@);
}

/// The built-in items of the prelude, in order.
pub fn prelude_item_list() -> (r: Vec<Item>)
    ensures
        r@ == prelude_items(),
{
    let mut r: Vec<Item> = vec![
        Item::Type(TypeDef::Primitive(Base::Bool)),
        Item::Type(TypeDef::Primitive(Base::Address)),
    ];
    let ints = Integer::iter_all();
    let mut xs: Vec<Item> = Vec::new();
    let mut i: usize = 0;
    while i < ints.len()
        invariant
            i <= ints@.len(),
            xs@ == ints@.take(i as int).map_values(|x: Integer| Item::Type(TypeDef::Primitive(Base::Numeric(x)))),
        decreases ints@.len() - i,
    {
        xs.push(Item::Type(TypeDef::Primitive(Base::Numeric(ints[i]))));
        assert(ints@.take(i as int + 1) =~= ints@.take(i as int).push(ints@[i as int]));
        assert(xs@ =~= ints@.take(i as int + 1).map_values(|x: Integer| Item::Type(TypeDef::Primitive(Base::Numeric(x)))));
        i = i + 1;
    }
    assert(ints@.take(i as int) =~= ints@);
    push_builtins(&mut r, xs);
    let gs = GenericType::iter_all();
    let mut xs: Vec<Item> = Vec::new();
    let mut i: usize = 0;
    while i < gs.len()
        invariant
            i <= gs@.len(),
            xs@ == gs@.take(i as int).map_values(|x: GenericType| Item::GenericType(x)),
        decreases gs@.len() - i,
    {
        xs.push(Item::GenericType(gs[i]));
        assert(gs@.take(i as int + 1) =~= gs@.take(i as int).push(gs@[i as int]));
        assert(xs@ =~= gs@.take(i as int + 1).map_values(|x: GenericType| Item::GenericType(x)));
        i = i + 1;
    }
    assert(gs@.take(i as int) =~= gs@);
    push_builtins(&mut r, xs);
    let fs = GlobalFunction::iter_all();
    let mut xs: Vec<Item> = Vec::new();
    let mut i: usize = 0;
    while i < fs.len()
        invariant
            i <= fs@.len(),
            xs@ == fs@.take(i as int).map_values(|x: GlobalFunction| Item::BuiltinFunction(x)),
        decreases fs@.len() - i,
    {
        xs.push(Item::BuiltinFunction(fs[i]));
        assert(fs@.take(i as int + 1) =~= fs@.take(i as int).push(fs@[i as int]));
        assert(xs@ =~= fs@.take(i as int + 1).map_values(|x: GlobalFunction| Item::BuiltinFunction(x)));
        i = i + 1;
    }
    assert(fs@.take(i as int) =~= fs@);
    push_builtins(&mut r, xs);
    let ins = Intrinsic::iter_all();
    let mut xs: Vec<Item> = Vec::new();
    let mut i: usize = 0;
    while i < ins.len()
        invariant
            i <= ins@.len(),
            xs@ == ins@.take(i as int).map_values(|x: Intrinsic| Item::Intrinsic(x)),
        decreases ins@.len() - i,
    {
        xs.push(Item::Intrinsic(ins[i]));
        assert(ins@.take(i as int + 1) =~= ins@.take(i as int).push(ins@[i as int]));
        assert(xs@ =~= ins@.take(i as int + 1).map_values(|x: Intrinsic| Item::Intrinsic(x)));
        i = i + 1;
    }
    assert(ins@.take(i as int) =~= ins@);
    push_builtins(&mut r, xs);
    let os = GlobalObject::iter_all();
    let mut xs: Vec<Item> = Vec::new();
    let mut i: usize = 0;
    while i < os.len()
        invariant
            i <= os@.len(),
            xs@ == os@.take(i as int).map_values(|x: GlobalObject| Item::Object(x)),
        decreases os@.len() - i,
    {
        xs.push(Item::Object(os[i]));
        assert(os@.take(i as int + 1) =~= os@.take(i as int).push(os@[i as int]));
        assert(xs@ =~= os@.take(i as int + 1).map_values(|x: GlobalObject| Item::Object(x)));
        i = i + 1;
    }
    assert(os@.take(i as int) =~= os@);
    push_builtins(&mut r, xs);
    assert(r@ =~= prelude_items());
    r
}

/// The prelude's pairs, named.
fn prelude_pair_list(db: &Db) -> (r: Vec<(String, Item)>)
    ensures
        pairs_view(r@) == prelude_pairs(db),
        forall|j: int| 0 <= j < r@.len() ==> db.valid_item(#[trigger] r@[j].1),
{
    let items = prelude_item_list();
    let mut r: Vec<(String, Item)> = Vec::new();
    let mut i: usize = 0;
    while i < items.len()
        invariant
            i <= items@.len(),
            items@ == prelude_items(),
            pairs_view(r@) == prelude_pairs(db).take(i as int),
            forall|j: int| 0 <= j < r@.len() ==> db.valid_item(#[trigger] r@[j].1),
        decreases items@.len() - i,
    {
        let it = items[i];
        assert(db.valid_item(it)) by {
            assert(prelude_items().contains(it));
        }
        let name = it.name(db);
        let ghost before = pairs_view(r@);
        r.push((name, it));
        assert(pairs_view(r@) =~= before.push((item_name(db, it), it)));
        assert(prelude_pairs(db).take(i as int + 1) =~= prelude_pairs(db).take(i as int).push(prelude_pairs(db)[i as int]));
        i = i + 1;
    }
    assert(prelude_pairs(db).take(i as int) =~= prelude_pairs(db));
    r
}

/// The global names of module `m`: its ingot's dependencies, the prelude, and
/// (but in a standalone module) its own ingot under the name `ingot`.
pub open spec fn global_pairs(db: &Db, m: ModuleId) -> Seq<(Seq<char>, Item)> {
    let ingot = db.modules@[m.0 as int].ingot;
    let deps = db.ingot_data@[ingot.0 as int].deps@.map_values(
        |e: (Seq<char>, IngotId)| (e.0, Item::Ingot(e.1)),
    );
    let own = if db.ingots@[ingot.0 as int].mode != IngotMode::StandaloneModule {
        seq![("ingot"@, Item::Ingot(ingot))]
    } else {
        Seq::empty()
    };
    deps + prelude_pairs(db) + own
}

/// The modules of `s` whose parent module is `m`.
pub open spec fn children_in(db: &Db, m: ModuleId, s: Seq<ModuleId>) -> Seq<ModuleId>
    decreases s.len(),
{
    if s.len() == 0 {
        Seq::empty()
    } else {
        let prev = children_in(db, m, s.drop_last());
        if parent_module_of(db, s.last()) == Some(m) {
            prev.push(s.last())
        } else {
            prev
        }
    }
}

/// The submodules of `m`, in the order of the ingot's modules.
pub open spec fn submodules_of(db: &Db, m: ModuleId) -> Seq<ModuleId> {
    children_in(db, m, db.ingot_data@[db.modules@[m.0 as int].ingot.0 as int].modules@)
}

/// Each submodule under its name.
pub open spec fn sub_pairs(db: &Db, m: ModuleId) -> Seq<(Seq<char>, Item)> {
    submodules_of(db, m).map_values(|s: ModuleId| (db.modules@[s.0 as int].name@, Item::Module(s)))
}

/// The declared items under their names: the first of each name, and none
/// whose name is global.
pub open spec fn declared_fold(db: &Db, g: Seq<(Seq<char>, Item)>, items: Seq<Item>) -> Seq<(Seq<char>, Item)>
    decreases items.len(),
{
    if items.len() == 0 {
        Seq::empty()
    } else {
        let prev = declared_fold(db, g, items.drop_last());
        let it = items.last();
        if key_set(g).contains(item_name(db, it)) || key_set(prev).contains(item_name(db, it)) {
            prev
        } else {
            prev.push((item_name(db, it), it))
        }
    }
}

/// The items module `m` declares, by name.
pub open spec fn declared_pairs(db: &Db, m: ModuleId) -> Seq<(Seq<char>, Item)> {
    declared_fold(db, global_pairs(db, m), module_all_items(db, m))
}

/// The scope used while resolving `use` statements: global names, then
/// submodules, then declared items.
pub open spec fn non_used_scope(db: &Db, m: ModuleId) -> Seq<(Seq<char>, Item)> {
    collect_pairs(global_pairs(db, m) + sub_pairs(db, m) + declared_pairs(db, m))
}

/// The scope of an item while resolving `use` statements.
pub open spec fn non_used_items_of(db: &Db, i: Item) -> Seq<(Seq<char>, Item)> {
    match i {
        Item::Ingot(x) => match root_of(db, x) {
            Some(r) => non_used_scope(db, r),
            None => Seq::empty(),
        },
        Item::Module(m) => non_used_scope(db, m),
        _ => Seq::empty(),
    }
}

/// Following `segs` from `start` through the scopes used for `use` statements.
pub open spec fn resolve_non_used(db: &Db, start: Item, segs: Seq<Seq<char>>) -> Option<Item>
    decreases segs.len(),
{
    if segs.len() == 0 {
        Some(start)
    } else {
        match lookup(non_used_items_of(db, start), segs[0]) {
            Some(next) => resolve_non_used(db, next, segs.drop_first()),
            None => None,
        }
    }
}

impl ModuleId {
    /// The global names: the ingot's dependencies, the prelude, and the
    /// ingot itself as `ingot` (but in a standalone module).
    pub fn global_items(&self, db: &Db) -> (r: NameMap<Item>)
        requires
            db.wf(),
            (self.0 as int) < db.modules@.len(),
        ensures
            r@ == collect_pairs(global_pairs(db, *self)),
    {
        let r = self.global_pair_list(db);
        collect(r)
    }

    fn global_pair_list(&self, db: &Db) -> (r: Vec<(String, Item)>)
        requires
            db.wf(),
            (self.0 as int) < db.modules@.len(),
        ensures
            pairs_view(r@) == global_pairs(db, *self),
            forall|j: int| 0 <= j < r@.len() ==> db.valid_item(#[trigger] r@[j].1),
    {
        proof {
            assert(db.module_ok(self.0 as int));
        }
        let ingot = db.modules[self.0 as usize].ingot;
        proof {
            assert(db.ingot_ok(ingot.0 as int));
        }
        let deps = &db.ingot_data[ingot.0 as usize].deps;
        let ghost dv = deps@.map_values(|e: (Seq<char>, IngotId)| (e.0, Item::Ingot(e.1)));
        let mut r: Vec<(String, Item)> = Vec::new();
        let mut i: usize = 0;
        while i < deps.entries.len()
            invariant
                i <= deps.entries@.len(),
                deps@.len() == deps.entries@.len(),
                *deps == db.ingot_data@[ingot.0 as int].deps,
                db.wf(),
                db.ingot_ok(ingot.0 as int),
                (ingot.0 as int) < db.ingots@.len(),
                dv == deps@.map_values(|e: (Seq<char>, IngotId)| (e.0, Item::Ingot(e.1))),
                pairs_view(r@) == dv.take(i as int),
                forall|j: int| 0 <= j < r@.len() ==> db.valid_item(#[trigger] r@[j].1),
            decreases deps.entries@.len() - i,
        {
            let e = &deps.entries[i];
            assert(deps@[i as int] == (e.0@, e.1));
            assert((deps@[i as int].1.0 as int) < db.ingots@.len());
            let ghost before = pairs_view(r@);
            r.push((e.0.clone(), Item::Ingot(e.1)));
            assert(pairs_view(r@) =~= before.push((e.0@, Item::Ingot(e.1))));
            assert(dv.take(i as int + 1) =~= dv.take(i as int).push(dv[i as int]));
            i = i + 1;
        }
        assert(dv.take(i as int) =~= dv);
        let prelude = prelude_pair_list(db);
        let ghost before = pairs_view(r@);
        let ghost r0 = r@;
        let mut prelude = prelude;
        let ghost p0 = prelude@;
        r.append(&mut prelude);
        assert forall|j: int| 0 <= j < r@.len() implies db.valid_item(#[trigger] r@[j].1) by {
            if j < r0.len() {
                assert(r@[j] == r0[j]);
            } else {
                assert(r@[j] == p0[j - r0.len()]);
            }
        }
        assert(pairs_view(r@) =~= before + prelude_pairs(db));
        if db.ingots[ingot.0 as usize].mode != IngotMode::StandaloneModule {
            let ghost b2 = pairs_view(r@);
            r.push((String::from_str("ingot"), Item::Ingot(ingot)));
            assert(pairs_view(r@) =~= b2 + seq![("ingot"@, Item::Ingot(ingot))]);
        } else {
            assert(pairs_view(r@) =~= pairs_view(r@) + Seq::<(Seq<char>, Item)>::empty());
        }
        r
    }

    /// The modules directly below this one in the ingot's tree.
    pub fn submodules(&self, db: &Db) -> (r: Vec<ModuleId>)
        requires
            db.wf(),
            (self.0 as int) < db.modules@.len(),
        ensures
            r@ == submodules_of(db, *self),
            forall|j: int| 0 <= j < r@.len() ==> ((#[trigger] r@[j]).0 as int) < db.modules@.len(),
    {
        proof {
            assert(db.module_ok(self.0 as int));
        }
        let ingot = db.modules[self.0 as usize].ingot;
        proof {
            assert(db.ingot_ok(ingot.0 as int));
        }
        let mods = &db.ingot_data[ingot.0 as usize].modules;
        let mut r: Vec<ModuleId> = Vec::new();
        let mut i: usize = 0;
        while i < mods.len()
            invariant
                i <= mods@.len(),
                *mods == db.ingot_data@[ingot.0 as int].modules,
                ingot == db.modules@[self.0 as int].ingot,
                db.wf(),
                db.ingot_ok(ingot.0 as int),
                r@ == children_in(db, *self, mods@.take(i as int)),
                forall|j: int| 0 <= j < r@.len() ==> ((#[trigger] r@[j]).0 as int) < db.modules@.len(),
            decreases mods@.len() - i,
        {
            let c = mods[i];
            assert(mods@.take(i as int + 1).drop_last() =~= mods@.take(i as int));
            if c.parent_module(db) == Some(*self) {
                r.push(c);
            }
            i = i + 1;
        }
        assert(mods@.take(i as int) =~= mods@);
        r
    }

    fn sub_pair_list(&self, db: &Db) -> (r: Vec<(String, Item)>)
        requires
            db.wf(),
            (self.0 as int) < db.modules@.len(),
        ensures
            pairs_view(r@) == sub_pairs(db, *self),
            forall|j: int| 0 <= j < r@.len() ==> db.valid_item(#[trigger] r@[j].1),
    {
        let subs = self.submodules(db);
        let ghost sp = sub_pairs(db, *self);
        let mut r: Vec<(String, Item)> = Vec::new();
        let mut i: usize = 0;
        while i < subs.len()
            invariant
                i <= subs@.len(),
                subs@ == submodules_of(db, *self),
                sp == sub_pairs(db, *self),
                forall|j: int| 0 <= j < subs@.len() ==> ((#[trigger] subs@[j]).0 as int) < db.modules@.len(),
                pairs_view(r@) == sp.take(i as int),
                forall|j: int| 0 <= j < r@.len() ==> db.valid_item(#[trigger] r@[j].1),
            decreases subs@.len() - i,
        {
            let c = subs[i];
            let name = db.modules[c.0 as usize].name.clone();
            let ghost before = pairs_view(r@);
            r.push((name, Item::Module(c)));
            assert(pairs_view(r@) =~= before.push(sp[i as int]));
            assert(sp.take(i as int + 1) =~= sp.take(i as int).push(sp[i as int]));
            i = i + 1;
        }
        assert(sp.take(i as int) =~= sp);
        r
    }
}

/// Every value that the pairs hold is an item of the database.
pub open spec fn valid_pairs(db: &Db, p: Seq<(Seq<char>, Item)>) -> bool {
    forall|j: int| 0 <= j < p.len() ==> db.valid_item(#[trigger] p[j].1)
}

/// What a name looks up to, if anything, is an item of the database.
pub open spec fn lookup_valid(db: &Db, s: Seq<(Seq<char>, Item)>, k: Seq<char>) -> bool {
    match lookup(s, k) {
        Some(v) => db.valid_item(v),
        None => true,
    }
}

/// The value that a key last takes is one of the pairs'.
pub proof fn lemma_last_value_in(p: Seq<(Seq<char>, Item)>, k: Seq<char>)
    ensures
        last_value(p, k) matches Some(v) ==> exists|j: int| 0 <= j < p.len() && p[j] == (k, v),
    decreases p.len(),
{
    if p.len() > 0 && p.last().0 != k {
        lemma_last_value_in(p.drop_last(), k);
        if let Some(v) = last_value(p, k) {
            let j = choose|j: int| 0 <= j < p.drop_last().len() && p.drop_last()[j] == (k, v);
            assert(p[j] == (k, v));
        }
    } else if p.len() > 0 {
        assert(p[p.len() - 1] == (k, p.last().1));
    }
}

/// Looking a name up in a collected scope gives an item of the database.
pub proof fn lemma_lookup_valid(db: &Db, p: Seq<(Seq<char>, Item)>, k: Seq<char>)
    requires
        valid_pairs(db, p),
    ensures
        lookup_valid(db, collect_pairs(p), k),
{
    lemma_collect_pairs(p);
    lemma_last_value_in(p, k);
    assert(lookup(collect_pairs(p), k) == last_value(p, k));
    if let Some(v) = last_value(p, k) {
        let j = choose|j: int| 0 <= j < p.len() && p[j] == (k, v);
        assert(db.valid_item(p[j].1));
    }
}

/// An error at `span`.
pub fn error(message: &str, span: Option<Span>, label: &str) -> (r: Diagnostic)
    ensures
        r.message@ == message@,
        r.span == span,
        r.label@ == label@,
{
    Diagnostic { message: String::from_str(message), span, label: String::from_str(label) }
}

/// "a <kind> named "<name>" <what>".
fn named_error(kind: &str, name: &String, what: &str, span: Option<Span>) -> (r: Diagnostic)
    ensures
        dview(r) == named_view(kind@, name@, what@, span),
{
    proof { reveal_strlit("a "); reveal_strlit(" named \""); reveal_strlit("\" "); reveal_strlit(""); }
    let mut msg = String::from_str("a ");
    msg.append(kind);
    msg.append(" named \"");
    msg.append(name.as_str());
    msg.append("\" ");
    msg.append(what);
    let r = Diagnostic { message: msg, span, label: String::from_str("") };
    assert(dview(r) =~= named_view(kind@, name@, what@, span));
    r
}

/// The error: a <kind> named "<name>" <what>.
pub fn named_error_d(kind: &str, name: &String, what: &str, span: Option<Span>) -> (r: Diagnostic)
    ensures
        dview(r) == named_view(kind@, name@, what@, span),
{
    named_error(kind, name, what, span)
}

/// An error of the form: a <kind> named "<name>" <what>.
pub open spec fn named_view(kind: Seq<char>, name: Seq<char>, what: Seq<char>, span: Option<Span>) -> DiagView {
    ("a "@ + kind + " named \""@ + name + "\" "@ + what, span, ""@)
}

/// The errors of collecting a module's declared items by name: one for each
/// item whose name is global, and one for each name already taken.
pub open spec fn declared_diags(db: &Db, g: Seq<(Seq<char>, Item)>, items: Seq<Item>) -> Seq<DiagView>
    decreases items.len(),
{
    if items.len() == 0 {
        Seq::empty()
    } else {
        let prev = declared_diags(db, g, items.drop_last());
        let it = items.last();
        let n = item_name(db, it);
        if key_set(g).contains(n) {
            prev.push(named_view(kind_name(it), n, "shares its name with a built-in item"@, item_name_span(db, it)))
        } else if key_set(declared_fold(db, g, items.drop_last())).contains(n) {
            prev.push(named_view(kind_name(it), n, "has already been defined"@, item_name_span(db, it)))
        } else {
            prev
        }
    }
}

/// Where following `segs` from `start` through the scopes of `use`
/// resolution fails: the span of the first segment not found.
pub open spec fn non_used_fail_span(db: &Db, start: Item, segs: Seq<ast::Name>) -> Option<Span>
    decreases segs.len(),
{
    if segs.len() == 0 {
        None
    } else {
        match lookup(non_used_items_of(db, start), segs[0].text@) {
            Some(next) => non_used_fail_span(db, next, segs.drop_first()),
            None => Some(segs[0].span),
        }
    }
}

/// The errors of a module's `use` statements: a path not found, or a name
/// imported twice.
pub open spec fn used_diags(db: &Db, m: ModuleId, stmts: Seq<ast::ModuleStmt>) -> Seq<DiagView>
    decreases stmts.len(),
{
    if stmts.len() == 0 {
        Seq::empty()
    } else {
        let prev = used_diags(db, m, stmts.drop_last());
        match stmts.last() {
            ast::ModuleStmt::Use(u) => if u.path.segments@.len() == 0 {
                prev
            } else {
                match resolve_non_used(db, Item::Module(m), seg_texts(u.path.segments@)) {
                    Some(it) => if key_set(used_fold(db, m, stmts.drop_last())).contains(use_binding(u)) {
                        prev.push(named_view(kind_name(it), use_binding(u), "has already been imported"@, Some(u.span)))
                    } else {
                        prev
                    },
                    None => prev.push(("unresolved path item"@, non_used_fail_span(db, Item::Module(m), u.path.segments@), "not found"@)),
                }
            },
            _ => prev,
        }
    }
}

/// The errors for declared items whose names are also imported.
pub open spec fn conflict_diags(db: &Db, d: Seq<(Seq<char>, Item)>, ks: Set<Seq<char>>) -> Seq<DiagView>
    decreases d.len(),
{
    if d.len() == 0 {
        Seq::empty()
    } else if ks.contains(d.last().0) {
        conflict_diags(db, d.drop_last(), ks).push(named_view(kind_name(d.last().1), d.last().0, "has already been imported"@, item_name_span(db, d.last().1)))
    } else {
        conflict_diags(db, d.drop_last(), ks)
    }
}

/// The errors of collecting a module's own items by name.
pub open spec fn item_map_diags(db: &Db, m: ModuleId) -> Seq<DiagView> {
    declared_diags(db, global_pairs(db, m), module_all_items(db, m)) + used_diags(db, m, module_body(db, m))
        + conflict_diags(db, declared_pairs(db, m), key_set(used_pairs(db, m)))
}

proof fn lemma_collect_keys(p: Seq<(Seq<char>, Item)>, k: Seq<char>)
    ensures
        key_set(collect_pairs(p)).contains(k) == key_set(p).contains(k),
{
    lemma_collect_pairs(p);
}

/// Appends one list of pairs to another.
fn append_pairs(a: &mut Vec<(String, Item)>, b: Vec<(String, Item)>, Ghost(db): Ghost<&Db>)
    requires
        forall|j: int| 0 <= j < old(a)@.len() ==> db.valid_item(#[trigger] old(a)@[j].1),
        forall|j: int| 0 <= j < b@.len() ==> db.valid_item(#[trigger] b@[j].1),
    ensures
        pairs_view(final(a)@) == pairs_view(old(a)@) + pairs_view(b@),
        forall|j: int| 0 <= j < final(a)@.len() ==> db.valid_item(#[trigger] final(a)@[j].1),
{
    let mut b = b;
    let ghost a0 = a@;
    let ghost b0 = b@;
    a.append(&mut b);
    assert(pairs_view(a@) =~= pairs_view(a0) + pairs_view(b0));
    assert forall|j: int| 0 <= j < a@.len() implies db.valid_item(#[trigger] a@[j].1) by {
        if j < a0.len() {
            assert(a@[j] == a0[j]);
        } else {
            assert(a@[j] == b0[j - a0.len()]);
        }
    }
}

impl ModuleId {
    /// The items this module declares, by name, with an error for each that
    /// takes a global name or a name already taken.
    pub fn declared_items(&self, db: &Db) -> (r: Analysis<Vec<(String, Item)>>)
        requires
            db.wf(),
            (self.0 as int) < db.modules@.len(),
        ensures
            pairs_view(r.value@) == declared_pairs(db, *self),
            forall|j: int| 0 <= j < r.value@.len() ==> db.valid_item(#[trigger] r.value@[j].1),
            r.value@.len() + r.diagnostics@.len() == module_all_items(db, *self).len(),
            dviews(r.diagnostics@) == declared_diags(db, global_pairs(db, *self), module_all_items(db, *self)),
    {
        let gp = self.global_pair_list(db);
        let ghost gpv = pairs_view(gp@);
        let g = collect(gp);
        let items = self.all_items(db);
        let mut map: NameMap<Item> = NameMap::new();
        let mut out: Vec<(String, Item)> = Vec::new();
        let mut diags: Vec<Diagnostic> = Vec::new();
        let mut i: usize = 0;
        while i < items.len()
            invariant
                i <= items@.len(),
                items@ == module_all_items(db, *self),
                forall|j: int| 0 <= j < items@.len() ==> db.valid_item(#[trigger] items@[j]),
                gpv == global_pairs(db, *self),
                g@ == collect_pairs(gpv),
                map@ == declared_fold(db, gpv, items@.take(i as int)),
                pairs_view(out@) == map@,
                forall|j: int| 0 <= j < out@.len() ==> db.valid_item(#[trigger] out@[j].1),
                out@.len() + diags@.len() == i,
                dviews(diags@) == declared_diags(db, gpv, items@.take(i as int)),
            decreases items@.len() - i,
        {
            let it = items[i];
            let name = it.name(db);
            proof {
                lemma_collect_keys(gpv, name@);
                assert(items@.take(i as int + 1).drop_last() =~= items@.take(i as int));
                assert(items@.take(i as int + 1).last() == it);
            }
            let ghost dv0 = dviews(diags@);
            if g.contains_key(&name) {
                let d = named_error(it.item_kind_display_name(), &name, "shares its name with a built-in item", it.name_span(db));
                diags.push(d);
                assert(dviews(diags@) =~= dv0.push(dview(d)));
            } else if map.contains_key(&name) {
                let d = named_error(it.item_kind_display_name(), &name, "has already been defined", it.name_span(db));
                diags.push(d);
                assert(dviews(diags@) =~= dv0.push(dview(d)));
            } else {
                proof {
                    crate::namemap::lemma_find_key(map@, name@);
                }
                map.insert(name.clone(), it);
                let ghost before = pairs_view(out@);
                out.push((name, it));
                assert(pairs_view(out@) =~= before.push((item_name(db, it), it)));
            }
            i = i + 1;
        }
        assert(items@.take(i as int) =~= items@);
        Analysis { value: out, diagnostics: diags }
    }

    /// The scope used while resolving this module's `use` statements: global
    /// names, then submodules, then declared items; a later name replaces an
    /// earlier one. Leaving out the imported items keeps `use` resolution from
    /// depending on itself.
    pub fn non_used_internal_items(&self, db: &Db) -> (r: NameMap<Item>)
        requires
            db.wf(),
            (self.0 as int) < db.modules@.len(),
        ensures
            r@ == non_used_scope(db, *self),
            valid_pairs(db, global_pairs(db, *self) + sub_pairs(db, *self) + declared_pairs(db, *self)),
    {
        let mut pairs = self.global_pair_list(db);
        let subs = self.sub_pair_list(db);
        append_pairs(&mut pairs, subs, Ghost(db));
        let declared = self.declared_items(db);
        append_pairs(&mut pairs, declared.value, Ghost(db));
        let ghost p = pairs_view(pairs@);
        assert forall|j: int| 0 <= j < p.len() implies db.valid_item(#[trigger] p[j].1) by {
            assert(p[j].1 == pairs@[j].1);
        }
        collect(pairs)
    }
}

impl Item {
    /// This item's scope while resolving `use` statements.
    pub fn non_used_items(&self, db: &Db) -> (r: NameMap<Item>)
        requires
            db.wf(),
            db.valid_item(*self),
        ensures
            r@ == non_used_items_of(db, *self),
            forall|k: Seq<char>| #[trigger] lookup_valid(db, r@, k),
    {
        match self {
            Item::Ingot(x) => {
                proof {
                    assert(db.ingot_ok(x.0 as int));
                }
                match db.ingot_data[x.0 as usize].root {
                    Some(root) => {
                        let r = root.non_used_internal_items(db);
                        proof {
                            assert forall|k: Seq<char>| #[trigger] lookup_valid(db, r@, k) by {
                                lemma_lookup_valid(db, global_pairs(db, root) + sub_pairs(db, root) + declared_pairs(db, root), k);
                            }
                        }
                        r
                    },
                    None => NameMap::new(),
                }
            },
            Item::Module(m) => {
                let r = m.non_used_internal_items(db);
                proof {
                    assert forall|k: Seq<char>| #[trigger] lookup_valid(db, r@, k) by {
                        lemma_lookup_valid(db, global_pairs(db, *m) + sub_pairs(db, *m) + declared_pairs(db, *m), k);
                    }
                }
                r
            },
            _ => NameMap::new(),
        }
    }
}

/// The texts of a path's segments.
pub open spec fn seg_texts(segs: Seq<ast::Name>) -> Seq<Seq<char>> {
    segs.map_values(|n: ast::Name| n.text@)
}

/// Follows the segments of `segs` from index `from` on, through the scopes used
/// for `use` statements: the item reached, or an error at the first segment not
/// found.
pub fn resolve_segments_non_used(db: &Db, start: Item, segs: &Vec<ast::Name>, from: usize) -> (r: Analysis<Option<Item>>)
    requires
        db.wf(),
        db.valid_item(start),
        from <= segs@.len(),
    ensures
        r.value == resolve_non_used(db, start, seg_texts(segs@).skip(from as int)),
        r.value matches Some(v) ==> db.valid_item(v),
        r.value is Some ==> r.diagnostics@.len() == 0,
        r.value is None ==> r.diagnostics@.len() == 1 && dviews(r.diagnostics@) == seq![("unresolved path item"@, non_used_fail_span(db, start, segs@.skip(from as int)), "not found"@)],
{
    let mut cur = start;
    let mut i: usize = from;
    while i < segs.len()
        invariant
            from <= i <= segs@.len(),
            db.wf(),
            db.valid_item(cur),
            resolve_non_used(db, start, seg_texts(segs@).skip(from as int)) == resolve_non_used(db, cur, seg_texts(segs@).skip(i as int)),
            non_used_fail_span(db, start, segs@.skip(from as int)) == non_used_fail_span(db, cur, segs@.skip(i as int)),
        decreases segs@.len() - i,
    {
        let scope = cur.non_used_items(db);
        let seg = &segs[i];
        assert(segs@.skip(i as int)[0] == *seg);
        assert(segs@.skip(i as int).drop_first() =~= segs@.skip(i as int + 1));
        assert(seg_texts(segs@).skip(i as int)[0] == seg.text@);
        assert(seg_texts(segs@).skip(i as int).drop_first() =~= seg_texts(segs@).skip(i as int + 1));
        match scope.get(&seg.text) {
            Some(next) => {
                assert(lookup_valid(db, scope@, seg.text@));
                cur = next;
            },
            None => {
                let d = error("unresolved path item", Some(seg.span), "not found");
                let ghost dg = d;
                let r = Analysis { value: None, diagnostics: vec![d] };
                assert(r.diagnostics@ =~= seq![dg]);
                assert(dviews(r.diagnostics@) =~= seq![dview(dg)]);
                return r;
            },
        }
        i = i + 1;
    }
    assert(seg_texts(segs@).skip(i as int).len() == 0);
    Analysis { value: Some(cur), diagnostics: Vec::new() }
}

/// The name a `use` statement binds: its alias, or its last segment.
pub open spec fn use_binding(u: ast::Use) -> Seq<char> {
    match u.alias {
        Some(a) => a.text@,
        None => seg_texts(u.path.segments@).last(),
    }
}

/// The items that the `use` statements of `stmts` import into module `m`,
/// each under its name; the first import of a name wins.
pub open spec fn used_fold(db: &Db, m: ModuleId, stmts: Seq<ast::ModuleStmt>) -> Seq<(Seq<char>, Item)>
    decreases stmts.len(),
{
    if stmts.len() == 0 {
        Seq::empty()
    } else {
        let prev = used_fold(db, m, stmts.drop_last());
        match stmts.last() {
            ast::ModuleStmt::Use(u) => if u.path.segments@.len() == 0 {
                prev
            } else {
                match resolve_non_used(db, Item::Module(m), seg_texts(u.path.segments@)) {
                    Some(it) => if key_set(prev).contains(use_binding(u)) {
                        prev
                    } else {
                        prev.push((use_binding(u), it))
                    },
                    None => prev,
                }
            },
            _ => prev,
        }
    }
}

/// The items module `m` imports, by name.
pub open spec fn used_pairs(db: &Db, m: ModuleId) -> Seq<(Seq<char>, Item)> {
    used_fold(db, m, module_body(db, m))
}

/// The pairs of `s` whose key is not in `ks`.
pub open spec fn without_keys(s: Seq<(Seq<char>, Item)>, ks: Set<Seq<char>>) -> Seq<(Seq<char>, Item)>
    decreases s.len(),
{
    if s.len() == 0 {
        Seq::empty()
    } else if ks.contains(s.last().0) {
        without_keys(s.drop_last(), ks)
    } else {
        without_keys(s.drop_last(), ks).push(s.last())
    }
}

/// A module's own items by name: what it declares, but for names that it
/// also imports, and then what it imports.
pub open spec fn item_map_pairs(db: &Db, m: ModuleId) -> Seq<(Seq<char>, Item)> {
    without_keys(declared_pairs(db, m), key_set(used_pairs(db, m))) + used_pairs(db, m)
}

/// The scope inside module `m`: global names, then submodules, then the
/// declared items, then the imported items.
pub open spec fn internal_scope(db: &Db, m: ModuleId) -> Seq<(Seq<char>, Item)> {
    collect_pairs(global_pairs(db, m) + sub_pairs(db, m) + item_map_pairs(db, m))
}

/// The child scope of an item: an ingot's root module's scope, a module's
/// scope, and nothing for any other item.
pub open spec fn items_of(db: &Db, i: Item) -> Seq<(Seq<char>, Item)> {
    match i {
        Item::Ingot(x) => match root_of(db, x) {
            Some(r) => internal_scope(db, r),
            None => Seq::empty(),
        },
        Item::Module(m) => internal_scope(db, m),
        _ => Seq::empty(),
    }
}

/// Where following `segs` from `start` fails: the span of the first segment
/// not found in the child scope of the item reached before it.
pub open spec fn resolve_fail_span(db: &Db, start: Item, segs: Seq<ast::Name>) -> Option<Span>
    decreases segs.len(),
{
    if segs.len() == 0 {
        None
    } else {
        match lookup(items_of(db, start), segs[0].text@) {
            Some(next) => resolve_fail_span(db, next, segs.drop_first()),
            None => Some(segs[0].span),
        }
    }
}

/// Following `segs` from `start`, each segment looked up in the child scope of
/// the item reached so far.
pub open spec fn resolve_spec(db: &Db, start: Item, segs: Seq<Seq<char>>) -> Option<Item>
    decreases segs.len(),
{
    if segs.len() == 0 {
        Some(start)
    } else {
        match lookup(items_of(db, start), segs[0]) {
            Some(next) => resolve_spec(db, next, segs.drop_first()),
            None => None,
        }
    }
}

impl ModuleId {
    /// The items this module's `use` statements import, by name, with an
    /// error for each path not found and each name imported twice.
    pub fn used_items(&self, db: &Db) -> (r: Analysis<Vec<(String, Item)>>)
        requires
            db.wf(),
            (self.0 as int) < db.modules@.len(),
        ensures
            pairs_view(r.value@) == used_pairs(db, *self),
            forall|j: int| 0 <= j < r.value@.len() ==> db.valid_item(#[trigger] r.value@[j].1),
            dviews(r.diagnostics@) == used_diags(db, *self, module_body(db, *self)),
    {
        let body = &db.module_ast(*self).body;
        let mut out: Vec<(String, Item)> = Vec::new();
        let mut diags: Vec<Diagnostic> = Vec::new();
        let mut i: usize = 0;
        while i < body.len()
            invariant
                i <= body@.len(),
                body@ == module_body(db, *self),
                db.wf(),
                (self.0 as int) < db.modules@.len(),
                pairs_view(out@) == used_fold(db, *self, body@.take(i as int)),
                forall|j: int| 0 <= j < out@.len() ==> db.valid_item(#[trigger] out@[j].1),
                dviews(diags@) == used_diags(db, *self, body@.take(i as int)),
            decreases body@.len() - i,
        {
            assert(body@.take(i as int + 1).drop_last() =~= body@.take(i as int));
            assert(body@.take(i as int + 1).last() == body@[i as int]);
            if let ast::ModuleStmt::Use(u) = &body[i] {
                let segs = &u.path.segments;
                if segs.len() > 0 {
                    let res = resolve_segments_non_used(db, Item::Module(*self), segs, 0);
                    assert(seg_texts(segs@).skip(0) =~= seg_texts(segs@));
                    match res.value {
                        Some(it) => {
                            let binding = match &u.alias {
                                Some(a) => a.text.clone(),
                                None => segs[segs.len() - 1].text.clone(),
                            };
                            assert(binding@ == use_binding(*u));
                            if has_key(&out, &binding) {
                                let ghost dv0 = dviews(diags@);
                                let d = named_error(it.item_kind_display_name(), &binding, "has already been imported", Some(u.span));
                                diags.push(d);
                                assert(dviews(diags@) =~= dv0.push(dview(d)));
                            } else {
                                let ghost before = pairs_view(out@);
                                out.push((binding, it));
                                assert(pairs_view(out@) =~= before.push((use_binding(*u), it)));
                            }
                        },
                        None => {
                            let ghost dv0 = dviews(diags@);
                            let mut d = res.diagnostics;
                            let ghost d0 = d@;
                            diags.append(&mut d);
                            assert(segs@.skip(0) =~= segs@);
                            assert(dviews(diags@) =~= dv0 + dviews(d0));
                        },
                    }
                }
            }
            i = i + 1;
        }
        assert(body@.take(i as int) =~= body@);
        Analysis { value: out, diagnostics: diags }
    }

    /// The module's own items by name: declared items (but for names also
    /// imported, which are errors) and imported items.
    pub fn items(&self, db: &Db) -> (r: Analysis<Vec<(String, Item)>>)
        requires
            db.wf(),
            (self.0 as int) < db.modules@.len(),
        ensures
            pairs_view(r.value@) == item_map_pairs(db, *self),
            forall|j: int| 0 <= j < r.value@.len() ==> db.valid_item(#[trigger] r.value@[j].1),
            dviews(r.diagnostics@) == item_map_diags(db, *self),
    {
        let declared = self.declared_items(db);
        let used = self.used_items(db);
        let mut diags = declared.diagnostics;
        let mut ud = used.diagnostics;
        let ghost dd0 = dviews(diags@);
        let ghost ud0 = ud@;
        diags.append(&mut ud);
        assert(dviews(diags@) =~= dd0 + dviews(ud0));
        let ghost base = dviews(diags@);
        let uv = used.value;
        let ghost up = pairs_view(uv@);
        let dv = declared.value;
        let ghost dp = pairs_view(dv@);
        let mut out: Vec<(String, Item)> = Vec::new();
        let mut i: usize = 0;
        while i < dv.len()
            invariant
                i <= dv@.len(),
                dp == pairs_view(dv@),
                dp == declared_pairs(db, *self),
                forall|j: int| 0 <= j < dv@.len() ==> db.valid_item(#[trigger] dv@[j].1),
                forall|j: int| 0 <= j < out@.len() ==> db.valid_item(#[trigger] out@[j].1),
                up == pairs_view(uv@),
                up == used_pairs(db, *self),
                pairs_view(out@) == without_keys(dp.take(i as int), key_set(up)),
                dviews(diags@) == base + conflict_diags(db, dp.take(i as int), key_set(up)),
            decreases dv@.len() - i,
        {
            let name = &dv[i].0;
            assert(dp[i as int] == (name@, dv@[i as int].1));
            assert(dp.take(i as int + 1).drop_last() =~= dp.take(i as int));
            if has_key(&uv, name) {
                let ghost dv0 = dviews(diags@);
                let d = named_error(dv[i].1.item_kind_display_name(), name, "has already been imported", dv[i].1.name_span(db));
                diags.push(d);
                assert(dviews(diags@) =~= dv0.push(dview(d)));
            } else {
                let ghost before = pairs_view(out@);
                out.push((name.clone(), dv[i].1));
                assert(pairs_view(out@) =~= before.push(dp[i as int]));
            }
            i = i + 1;
        }
        assert(dp.take(i as int) =~= dp);
        assert(base + conflict_diags(db, dp, key_set(up)) =~= item_map_diags(db, *self));
        append_pairs(&mut out, uv, Ghost(db));
        Analysis { value: out, diagnostics: diags }
    }
}

/// Whether some pair of `v` has key `k`.
fn has_key(v: &Vec<(String, Item)>, k: &String) -> (r: bool)
    ensures
        r == key_set(pairs_view(v@)).contains(k@),
{
    let ghost p = pairs_view(v@);
    let mut i: usize = 0;
    while i < v.len()
        invariant
            i <= v@.len(),
            p == pairs_view(v@),
            forall|j: int| 0 <= j < i ==> p[j].0 != k@,
        decreases v@.len() - i,
    {
        assert(p[i as int] == (v@[i as int].0@, v@[i as int].1));
        if v[i].0 == *k {
            return true;
        }
        i = i + 1;
    }
    false
}

/// A name was not found in a module whose parse stopped early; the caller
/// reports no second error.
#[derive(Debug, Clone, Copy, PartialEq, Eq, Structural)]
pub struct IncompleteItem;

/// The module's parse stopped early.
pub open spec fn module_incomplete(db: &Db, m: ModuleId) -> bool {
    match db.modules@[m.0 as int].source {
        ModuleSource::File(f) => db.files@[f.0 as int].incomplete,
        _ => false,
    }
}

impl ModuleId {
    /// The scope inside this module: global names, submodules, declared
    /// items, imported items; a later name replaces an earlier one.
    pub fn internal_items(&self, db: &Db) -> (r: NameMap<Item>)
        requires
            db.wf(),
            (self.0 as int) < db.modules@.len(),
        ensures
            r@ == internal_scope(db, *self),
            valid_pairs(db, global_pairs(db, *self) + sub_pairs(db, *self) + item_map_pairs(db, *self)),
    {
        let mut pairs = self.global_pair_list(db);
        let subs = self.sub_pair_list(db);
        append_pairs(&mut pairs, subs, Ghost(db));
        let own = self.items(db);
        append_pairs(&mut pairs, own.value, Ghost(db));
        let ghost p = pairs_view(pairs@);
        assert forall|j: int| 0 <= j < p.len() implies db.valid_item(#[trigger] p[j].1) by {
            assert(p[j].1 == pairs@[j].1);
        }
        collect(pairs)
    }

    /// Whether this module's parse stopped early.
    pub fn is_incomplete(&self, db: &Db) -> (r: bool)
        requires
            db.wf(),
            (self.0 as int) < db.modules@.len(),
        ensures
            r == module_incomplete(db, *self),
    {
        proof {
            assert(db.module_ok(self.0 as int));
        }
        match &db.modules[self.0 as usize].source {
            ModuleSource::File(f) => db.files[f.0 as usize].incomplete,
            _ => false,
        }
    }

    /// Resolves a path from inside this module: the first segment in the
    /// module's scope, each further one in the child scope of the item before.
    pub fn resolve_path_internal(&self, db: &Db, path: &ast::Path) -> (r: Analysis<Option<Item>>)
        requires
            db.wf(),
            (self.0 as int) < db.modules@.len(),
            path.segments@.len() >= 1,
        ensures
            r.value == resolve_spec(db, Item::Module(*self), seg_texts(path.segments@)),
            r.value is Some ==> r.diagnostics@.len() == 0,
            r.value is None ==> r.diagnostics@.len() == 1,
    {
        Item::Module(*self).resolve_path_segments(db, &path.segments)
    }

    /// Resolves a path from inside this module without the items that `use`
    /// statements import; `use` statements are resolved this way.
    pub fn resolve_path_non_used_internal(&self, db: &Db, path: &ast::Path) -> (r: Analysis<Option<Item>>)
        requires
            db.wf(),
            (self.0 as int) < db.modules@.len(),
            path.segments@.len() >= 1,
        ensures
            r.value == resolve_non_used(db, Item::Module(*self), seg_texts(path.segments@)),
            r.value is Some ==> r.diagnostics@.len() == 0,
            r.value is None ==> r.diagnostics@.len() == 1,
    {
        assert(seg_texts(path.segments@).skip(0) =~= seg_texts(path.segments@));
        resolve_segments_non_used(db, Item::Module(*self), &path.segments, 0)
    }

    /// Resolves a path that starts at this module.
    pub fn resolve_path(&self, db: &Db, path: &ast::Path) -> (r: Analysis<Option<Item>>)
        requires
            db.wf(),
            (self.0 as int) < db.modules@.len(),
        ensures
            r.value == resolve_spec(db, Item::Module(*self), seg_texts(path.segments@)),
    {
        Item::Module(*self).resolve_path_segments(db, &path.segments)
    }

    /// Looks a name up in this module's scope. Where it is missing and the
    /// module's parse stopped early, says so instead.
    pub fn resolve_name(&self, db: &Db, name: &String) -> (r: Result<Option<Item>, IncompleteItem>)
        requires
            db.wf(),
            (self.0 as int) < db.modules@.len(),
        ensures
            r == match lookup(internal_scope(db, *self), name@) {
                Some(it) => Ok(Some(it)),
                None => if module_incomplete(db, *self) {
                    Err(IncompleteItem)
                } else {
                    Ok(None)
                },
            },
    {
        match self.internal_items(db).get(name) {
            Some(it) => Ok(Some(it)),
            None => if self.is_incomplete(db) {
                Err(IncompleteItem)
            } else {
                Ok(None)
            },
        }
    }
}

impl Item {
    /// The child scope: for an ingot its root module's scope (none where it
    /// has no root module), for a module its scope, and nothing for the rest.
    pub fn items(&self, db: &Db) -> (r: NameMap<Item>)
        requires
            db.wf(),
            db.valid_item(*self),
        ensures
            r@ == items_of(db, *self),
            forall|k: Seq<char>| #[trigger] lookup_valid(db, r@, k),
    {
        match self {
            Item::Ingot(x) => {
                proof {
                    assert(db.ingot_ok(x.0 as int));
                }
                match db.ingot_data[x.0 as usize].root {
                    Some(root) => {
                        let r = root.internal_items(db);
                        proof {
                            assert forall|k: Seq<char>| #[trigger] lookup_valid(db, r@, k) by {
                                lemma_lookup_valid(db, global_pairs(db, root) + sub_pairs(db, root) + item_map_pairs(db, root), k);
                            }
                        }
                        r
                    },
                    None => NameMap::new(),
                }
            },
            Item::Module(m) => {
                let r = m.internal_items(db);
                proof {
                    assert forall|k: Seq<char>| #[trigger] lookup_valid(db, r@, k) by {
                        lemma_lookup_valid(db, global_pairs(db, *m) + sub_pairs(db, *m) + item_map_pairs(db, *m), k);
                    }
                }
                r
            },
            _ => NameMap::new(),
        }
    }

    /// Follows the segments from this item, each looked up in the child scope
    /// of the item reached so far: the item at the end, or `None` with an
    /// "unresolved path item" error at the first segment not found.
    pub fn resolve_path_segments(&self, db: &Db, segs: &Vec<ast::Name>) -> (r: Analysis<Option<Item>>)
        requires
            db.wf(),
            db.valid_item(*self),
        ensures
            r.value == resolve_spec(db, *self, seg_texts(segs@)),
            r.value matches Some(v) ==> db.valid_item(v),
            r.value is Some ==> r.diagnostics@.len() == 0,
            r.value is None ==> r.diagnostics@.len() == 1 && r.diagnostics@[0].message@ == "unresolved path item"@
                && r.diagnostics@[0].label@ == "not found"@ && r.diagnostics@[0].span == resolve_fail_span(db, *self, segs@),
            segs@.len() == 0 ==> r.value == Some(*self),
    {
        let mut cur = *self;
        let mut i: usize = 0;
        assert(seg_texts(segs@).skip(0) =~= seg_texts(segs@));
        assert(segs@.skip(0) =~= segs@);
        while i < segs.len()
            invariant
                i <= segs@.len(),
                db.wf(),
                db.valid_item(cur),
                resolve_spec(db, *self, seg_texts(segs@)) == resolve_spec(db, cur, seg_texts(segs@).skip(i as int)),
                resolve_fail_span(db, *self, segs@) == resolve_fail_span(db, cur, segs@.skip(i as int)),
                i == 0 ==> cur == *self,
            decreases segs@.len() - i,
        {
            let scope = cur.items(db);
            let seg = &segs[i];
            assert(segs@.skip(i as int)[0] == *seg);
            assert(segs@.skip(i as int).drop_first() =~= segs@.skip(i as int + 1));
            assert(seg_texts(segs@).skip(i as int)[0] == seg.text@);
            assert(seg_texts(segs@).skip(i as int).drop_first() =~= seg_texts(segs@).skip(i as int + 1));
            match scope.get(&seg.text) {
                Some(next) => {
                    assert(lookup_valid(db, scope@, seg.text@));
                    cur = next;
                },
                None => {
                    return Analysis { value: None, diagnostics: vec![error("unresolved path item", Some(seg.span), "not found")] };
                },
            }
            i = i + 1;
        }
        assert(seg_texts(segs@).skip(0) =~= seg_texts(segs@));
        assert(seg_texts(segs@).skip(i as int).len() == 0);
        Analysis { value: Some(cur), diagnostics: Vec::new() }
    }
}

/// The fixed name of a built-in item.
pub open spec fn builtin_name(i: Item) -> Seq<char> {
    match i {
        Item::Type(TypeDef::Primitive(b)) => base_name(b),
        Item::GenericType(g) => generic_type_name(g),
        Item::BuiltinFunction(f) => global_function_name(f),
        Item::Intrinsic(f) => intrinsic_name(f),
        Item::Object(o) => global_object_name(o),
        _ => Seq::empty(),
    }
}

proof fn lemma_prelude_builtin(db: &Db)
    ensures
        prelude_pairs(db) == prelude_items().map_values(|i: Item| (builtin_name(i), i)),
{
    let p = prelude_items();
    let a = seq![Item::Type(TypeDef::Primitive(Base::Bool)), Item::Type(TypeDef::Primitive(Base::Address))];
    let b = Integer::all().map_values(|i: Integer| Item::Type(TypeDef::Primitive(Base::Numeric(i))));
    let c = GenericType::all().map_values(|g: GenericType| Item::GenericType(g));
    let d = GlobalFunction::all().map_values(|f: GlobalFunction| Item::BuiltinFunction(f));
    let e = Intrinsic::all().map_values(|f: Intrinsic| Item::Intrinsic(f));
    let f = GlobalObject::all().map_values(|o: GlobalObject| Item::Object(o));
    assert(p == a + b + c + d + e + f);
    assert forall|j: int| 0 <= j < p.len() implies spec_is_builtin(#[trigger] p[j]) by {
        let n1 = a.len() as int;
        let n2 = n1 + b.len();
        let n3 = n2 + c.len();
        let n4 = n3 + d.len();
        let n5 = n4 + e.len();
        if j < n1 {
            assert(p[j] == a[j]);
        } else if j < n2 {
            assert(p[j] == b[j - n1]);
        } else if j < n3 {
            assert(p[j] == c[j - n2]);
        } else if j < n4 {
            assert(p[j] == d[j - n3]);
        } else if j < n5 {
            assert(p[j] == e[j - n4]);
        } else {
            assert(p[j] == f[j - n5]);
        }
    }
    assert(prelude_pairs(db) =~= p.map_values(|i: Item| (builtin_name(i), i)));
}

/// The prelude: every built-in under its name.
pub fn std_prelude_items() -> (r: NameMap<Item>)
    ensures
        r@ == collect_pairs(prelude_items().map_values(|i: Item| (builtin_name(i), i))),
{
    let db = Db::new();
    proof {
        lemma_prelude_builtin(&db);
    }
    collect(prelude_pair_list(&db))
}

/// The items of `s` that are contracts, in order.
pub open spec fn contracts_in(s: Seq<Item>) -> Seq<ContractId>
    decreases s.len(),
{
    if s.len() == 0 {
        Seq::empty()
    } else {
        match s.last() {
            Item::Type(TypeDef::Contract(c)) => contracts_in(s.drop_last()).push(c),
            _ => contracts_in(s.drop_last()),
        }
    }
}

/// The items of `s` that are structs, in order.
pub open spec fn structs_in(s: Seq<Item>) -> Seq<StructId>
    decreases s.len(),
{
    if s.len() == 0 {
        Seq::empty()
    } else {
        match s.last() {
            Item::Type(TypeDef::Struct(c)) => structs_in(s.drop_last()).push(c),
            _ => structs_in(s.drop_last()),
        }
    }
}

/// The items of `s` that are constants, in order.
pub open spec fn constants_in(s: Seq<Item>) -> Seq<ModuleConstantId>
    decreases s.len(),
{
    if s.len() == 0 {
        Seq::empty()
    } else {
        match s.last() {
            Item::Constant(c) => constants_in(s.drop_last()).push(c),
            _ => constants_in(s.drop_last()),
        }
    }
}

/// The first constant of `s` named `n`.
pub open spec fn constant_named(db: &Db, s: Seq<ModuleConstantId>, n: Seq<char>) -> Option<ModuleConstantId>
    decreases s.len(),
{
    if s.len() == 0 {
        None
    } else {
        match constant_named(db, s.drop_last(), n) {
            Some(c) => Some(c),
            None => if db.constants@[s.last().0 as int].ast.name.text@ == n {
                Some(s.last())
            } else {
                None
            },
        }
    }
}

impl ModuleId {
    /// The module's syntax tree.
    pub fn ast<'a>(&self, db: &'a Db) -> (r: &'a ast::Module)
        requires
            db.wf(),
            (self.0 as int) < db.modules@.len(),
        ensures
            r.body@ == module_body(db, *self),
    {
        db.module_ast(*self)
    }

    /// The contracts this module declares, duplicates included.
    pub fn all_contracts(&self, db: &Db) -> (r: Vec<ContractId>)
        requires
            db.wf(),
            (self.0 as int) < db.modules@.len(),
        ensures
            r@ == contracts_in(module_all_items(db, *self)),
    {
        let items = self.all_items(db);
        let mut r: Vec<ContractId> = Vec::new();
        let mut i: usize = 0;
        while i < items.len()
            invariant
                i <= items@.len(),
                r@ == contracts_in(items@.take(i as int)),
            decreases items@.len() - i,
        {
            assert(items@.take(i as int + 1).drop_last() =~= items@.take(i as int));
            assert(items@.take(i as int + 1).last() == items@[i as int]);
            if let Item::Type(TypeDef::Contract(c)) = items[i] {
                r.push(c);
            }
            i = i + 1;
        }
        assert(items@.take(i as int) =~= items@);
        r
    }

    /// The structs this module declares, duplicates included.
    pub fn all_structs(&self, db: &Db) -> (r: Vec<StructId>)
        requires
            db.wf(),
            (self.0 as int) < db.modules@.len(),
        ensures
            r@ == structs_in(module_all_items(db, *self)),
    {
        let items = self.all_items(db);
        let mut r: Vec<StructId> = Vec::new();
        let mut i: usize = 0;
        while i < items.len()
            invariant
                i <= items@.len(),
                r@ == structs_in(items@.take(i as int)),
            decreases items@.len() - i,
        {
            assert(items@.take(i as int + 1).drop_last() =~= items@.take(i as int));
            assert(items@.take(i as int + 1).last() == items@[i as int]);
            if let Item::Type(TypeDef::Struct(c)) = items[i] {
                r.push(c);
            }
            i = i + 1;
        }
        assert(items@.take(i as int) =~= items@);
        r
    }

    /// The constants this module declares, duplicates included.
    pub fn all_constants(&self, db: &Db) -> (r: Vec<ModuleConstantId>)
        requires
            db.wf(),
            (self.0 as int) < db.modules@.len(),
        ensures
            r@ == constants_in(module_all_items(db, *self)),
            forall|j: int| 0 <= j < r@.len() ==> ((#[trigger] r@[j]).0 as int) < db.constants@.len(),
    {
        let items = self.all_items(db);
        let mut r: Vec<ModuleConstantId> = Vec::new();
        let mut i: usize = 0;
        while i < items.len()
            invariant
                i <= items@.len(),
                forall|j: int| 0 <= j < items@.len() ==> db.valid_item(#[trigger] items@[j]),
                r@ == constants_in(items@.take(i as int)),
                forall|j: int| 0 <= j < r@.len() ==> ((#[trigger] r@[j]).0 as int) < db.constants@.len(),
            decreases items@.len() - i,
        {
            assert(items@.take(i as int + 1).drop_last() =~= items@.take(i as int));
            assert(items@.take(i as int + 1).last() == items@[i as int]);
            if let Item::Constant(c) = items[i] {
                assert(db.valid_item(items@[i as int]));
                r.push(c);
            }
            i = i + 1;
        }
        assert(items@.take(i as int) =~= items@);
        r
    }

    /// The first constant of this module named `name`. Where there is none
    /// and the module's parse stopped early, says so instead.
    pub fn resolve_constant(&self, db: &Db, name: &String) -> (r: Result<Option<ModuleConstantId>, IncompleteItem>)
        requires
            db.wf(),
            (self.0 as int) < db.modules@.len(),
        ensures
            r == match constant_named(db, constants_in(module_all_items(db, *self)), name@) {
                Some(c) => Ok(Some(c)),
                None => if module_incomplete(db, *self) {
                    Err(IncompleteItem)
                } else {
                    Ok(None)
                },
            },
    {
        let cs = self.all_constants(db);
        let ghost s = cs@;
        let mut i: usize = 0;
        while i < cs.len()
            invariant
                i <= cs@.len(),
                s == cs@,
                s == constants_in(module_all_items(db, *self)),
                forall|j: int| 0 <= j < cs@.len() ==> ((#[trigger] cs@[j]).0 as int) < db.constants@.len(),
                constant_named(db, s.take(i as int), name@) is None,
            decreases cs@.len() - i,
        {
            let c = cs[i];
            assert(s.take(i as int + 1).drop_last() =~= s.take(i as int));
            assert(s.take(i as int + 1).last() == c);
            if db.constants[c.0 as usize].ast.name.text == *name {
                proof {
                    assert(constant_named(db, s.take(i as int + 1), name@) == Some(c));
                    lemma_constant_named_prefix(db, s, i as int + 1, name@);
                }
                return Ok(Some(c));
            }
            i = i + 1;
        }
        assert(s.take(i as int) =~= s);
        if self.is_incomplete(db) {
            Err(IncompleteItem)
        } else {
            Ok(None)
        }
    }
}

proof fn lemma_constant_named_prefix(db: &Db, s: Seq<ModuleConstantId>, n: int, name: Seq<char>)
    requires
        0 < n <= s.len(),
        constant_named(db, s.take(n), name) is Some,
    ensures
        constant_named(db, s, name) == constant_named(db, s.take(n), name),
    decreases s.len(),
{
    if n < s.len() {
        assert(s.drop_last().take(n) =~= s.take(n));
        lemma_constant_named_prefix(db, s.drop_last(), n, name);
    } else {
        assert(s.take(n) =~= s);
    }
}

} // verus!
