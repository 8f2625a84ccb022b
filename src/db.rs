//! The database: interned records of every entity, and the well-formedness
//! that ties their identities together.
use crate::ast;
use crate::ast::Span;
use crate::ids::{
    Class, ContractId, IngotId, Item, ModuleId,
    SourceFileId, StructId, TypeDef,
};
use crate::namemap::NameMap;
use crate::paths::{same_strings, strs};
use vstd::prelude::*;

verus! {

/// What an ingot is compiled as.
#[derive(Debug, Clone, Copy, PartialEq, Eq, Hash, Structural)]
pub enum IngotMode {
    /// The target of compilation; has a `main.fe` file.
    Main,
    /// A library; has a `lib.fe` file.
    Lib,
    /// Holds a single module with any file name.
    StandaloneModule,
}

/// Where a source file comes from.
#[derive(Debug, Clone, Copy, PartialEq, Eq, Hash, Structural)]
pub enum FileKind {
    Local,
    Std,
}

/// An error found while analyzing.
#[derive(Debug, Clone)]
pub struct Diagnostic {
    pub message: String,
    pub span: Option<Span>,
    pub label: String,
}

/// A value together with the diagnostics found while computing it.
#[derive(Debug, Clone)]
pub struct Analysis<T> {
    pub value: T,
    pub diagnostics: Vec<Diagnostic>,
}

/// An ingot: a named compilation unit.
#[derive(Debug, Clone)]
pub struct Ingot {
    pub name: String,
    pub mode: IngotMode,
    pub original: Option<IngotId>,
    pub src_dir: String,
}

/// What an ingot is made of, set when it is built.
#[derive(Debug, Clone)]
pub struct IngotData {
    pub modules: Vec<ModuleId>,
    pub deps: NameMap<IngotId>,
    pub root: Option<ModuleId>,
}

/// Where a module's syntax tree comes from.
#[derive(Debug, Clone)]
pub enum ModuleSource {
    File(SourceFileId),
    /// A directory without a file of the same name.
    Dir(String),
    /// The rewritten form of another module.
    Lowered { original: ModuleId, ast: SourceFileId },
}

/// A module. `rel` is its place in the ingot's tree: the path below the
/// ingot's source directory, without the `.fe` of a file.
#[derive(Debug, Clone)]
pub struct Module {
    pub name: String,
    pub ingot: IngotId,
    pub source: ModuleSource,
    pub rel: Vec<String>,
}

/// A source file with what the parser made of it.
#[derive(Debug, Clone)]
pub struct SourceFile {
    pub kind: FileKind,
    pub path: String,
    pub ast: ast::Module,
    pub diagnostics: Vec<Diagnostic>,
    /// Parsing stopped early.
    pub incomplete: bool,
}

/// A contract: the statement at `index` of its module.
#[derive(Debug, Clone)]
pub struct Contract {
    pub module: ModuleId,
    pub index: usize,
    pub ast: ast::Contract,
}

/// The field at `index` of a contract.
#[derive(Debug, Clone)]
pub struct ContractField {
    pub parent: ContractId,
    pub index: usize,
    pub ast: ast::Field,
}

/// A struct: the statement at `index` of its module.
#[derive(Debug, Clone)]
pub struct Struct {
    pub module: ModuleId,
    pub index: usize,
    pub ast: ast::Struct,
}

/// The field at `index` of a struct.
#[derive(Debug, Clone)]
pub struct StructField {
    pub parent: StructId,
    pub index: usize,
    pub ast: ast::Field,
}

/// A function: the statement at `index` of its module, or the member at
/// `index` of its class.
#[derive(Debug, Clone)]
pub struct Function {
    pub module: ModuleId,
    pub parent: Option<Class>,
    pub index: usize,
    pub ast: ast::Function,
}

/// An event: the statement at `index` of its module, or the event at `index`
/// of its contract.
#[derive(Debug, Clone)]
pub struct Event {
    pub module: ModuleId,
    pub contract: Option<ContractId>,
    pub index: usize,
    pub ast: ast::Event,
}

/// A type alias: the statement at `index` of its module.
#[derive(Debug, Clone)]
pub struct TypeAlias {
    pub module: ModuleId,
    pub index: usize,
    pub ast: ast::TypeAlias,
}

/// A module-level constant: the statement at `index` of its module.
#[derive(Debug, Clone)]
pub struct ModuleConstant {
    pub module: ModuleId,
    pub index: usize,
    pub ast: ast::ConstantDecl,
}

/// A record whose identity is a key: two records with equal keys are one entity.
pub trait Keyed: Sized {
    type Key;

    spec fn key(&self) -> Self::Key;

    fn same_key(&self, o: &Self) -> (r: bool)
        ensures
            r == (self.key() == o.key()),
    ;
}

/// The keys of a table.
pub open spec fn keys_of<T: Keyed>(t: Seq<T>) -> Seq<T::Key> {
    t.map_values(|r: T| r.key())
}

/// The first index at which `s` holds `k`.
pub open spec fn first_index<K>(s: Seq<K>, k: K) -> Option<int>
    decreases s.len(),
{
    if s.len() == 0 {
        None
    } else {
        match first_index(s.drop_last(), k) {
            Some(i) => Some(i),
            None => if s.last() == k {
                Some(s.len() - 1)
            } else {
                None
            },
        }
    }
}

/// Interning `k` into a table with keys `s`: the keys after, and the identity.
pub open spec fn intern_spec<K>(s: Seq<K>, k: K) -> (Seq<K>, int) {
    match first_index(s, k) {
        Some(i) => (s, i),
        None => (s.push(k), s.len() as int),
    }
}

pub proof fn lemma_first_index<K>(s: Seq<K>, k: K)
    ensures
        first_index(s, k) matches Some(i) ==> 0 <= i < s.len() && s[i] == k && forall|j: int|
            0 <= j < i ==> s[j] != k,
        first_index(s, k) is None ==> forall|j: int| 0 <= j < s.len() ==> s[j] != k,
    decreases s.len(),
{
    if s.len() > 0 {
        lemma_first_index(s.drop_last(), k);
        match first_index(s.drop_last(), k) {
            Some(i) => {
                assert(s.drop_last()[i] == s[i]);
                assert forall|j: int| 0 <= j < i implies s[j] != k by {
                    assert(s.drop_last()[j] == s[j]);
                }
            },
            None => {
                assert forall|j: int| 0 <= j < s.len() - 1 implies s[j] != k by {
                    assert(s.drop_last()[j] == s[j]);
                }
            },
        }
    }
}

/// Interning is idempotent: interning a record a second time changes nothing
/// and returns the identity that the first time returned, and the table holds
/// the record's key at that identity.
pub proof fn lemma_intern_idempotent<K>(s: Seq<K>, k: K)
    ensures
        ({
            let (t, i) = intern_spec(s, k);
            &&& 0 <= i < t.len()
            &&& t[i] == k
            &&& intern_spec(t, k) == (t, i)
        }),
{
    lemma_first_index(s, k);
    let (t, i) = intern_spec(s, k);
    lemma_first_index(t, k);
    if first_index(s, k) is None {
        assert(t[s.len() as int] == k);
        if first_index(t, k) != Some(i) {
            let j = first_index(t, k)->0;
            assert(t[j] == s[j]);
        }
    } else {
        if first_index(t, k) != Some(i) {
            let j = first_index(t, k)->0;
            assert(j < i || j > i);
        }
    }
}

/// Interning a record: the identity of an equal record already in the table,
/// or a new identity for a record appended to it.
pub fn intern_in<T: Keyed>(table: &mut Vec<T>, rec: T) -> (r: usize)
    requires
        old(table).len() < u32::MAX,
    ensures
        keys_of(final(table)@) == intern_spec(keys_of(old(table)@), rec.key()).0,
        r as int == intern_spec(keys_of(old(table)@), rec.key()).1,
        r < final(table)@.len(),
        final(table)@.len() <= u32::MAX,
        final(table)@[r as int].key() == rec.key(),
        final(table)@ == old(table)@ || final(table)@ == old(table)@.push(rec),
{
    let ghost k = keys_of(table@);
    proof {
        lemma_first_index(k, rec.key());
    }
    let mut i: usize = 0;
    while i < table.len()
        invariant
            0 <= i <= table.len(),
            table@ == old(table)@,
            old(table).len() < u32::MAX,
            k == keys_of(table@),
            forall|j: int| 0 <= j < i ==> k[j] != rec.key(),
        decreases table.len() - i,
    {
        assert(k[i as int] == table@[i as int].key());
        if table[i].same_key(&rec) {
            proof {
                lemma_first_index(k, rec.key());
                if first_index(k, rec.key()) != Some(i as int) {
                    let j = first_index(k, rec.key())->0;
                    assert(j > i);
                }
            }
            return i;
        }
        i = i + 1;
    }
    let n = table.len();
    table.push(rec);
    assert(keys_of(table@) =~= k.push(rec.key()));
    n
}

impl Keyed for Contract {
    type Key = (ModuleId, usize);

    open spec fn key(&self) -> (ModuleId, usize) {
        (self.module, self.index)
    }

    fn same_key(&self, o: &Self) -> (r: bool) {
        self.module == o.module && self.index == o.index
    }
}

impl Keyed for ContractField {
    type Key = (ContractId, usize);

    open spec fn key(&self) -> (ContractId, usize) {
        (self.parent, self.index)
    }

    fn same_key(&self, o: &Self) -> (r: bool) {
        self.parent == o.parent && self.index == o.index
    }
}

impl Keyed for Struct {
    type Key = (ModuleId, usize);

    open spec fn key(&self) -> (ModuleId, usize) {
        (self.module, self.index)
    }

    fn same_key(&self, o: &Self) -> (r: bool) {
        self.module == o.module && self.index == o.index
    }
}

impl Keyed for StructField {
    type Key = (StructId, usize);

    open spec fn key(&self) -> (StructId, usize) {
        (self.parent, self.index)
    }

    fn same_key(&self, o: &Self) -> (r: bool) {
        self.parent == o.parent && self.index == o.index
    }
}

impl Keyed for Function {
    type Key = (ModuleId, Option<Class>, usize);

    open spec fn key(&self) -> (ModuleId, Option<Class>, usize) {
        (self.module, self.parent, self.index)
    }

    fn same_key(&self, o: &Self) -> (r: bool) {
        self.module == o.module && self.parent == o.parent && self.index == o.index
    }
}

impl Keyed for Event {
    type Key = (ModuleId, Option<ContractId>, usize);

    open spec fn key(&self) -> (ModuleId, Option<ContractId>, usize) {
        (self.module, self.contract, self.index)
    }

    fn same_key(&self, o: &Self) -> (r: bool) {
        self.module == o.module && self.contract == o.contract && self.index == o.index
    }
}

impl Keyed for TypeAlias {
    type Key = (ModuleId, usize);

    open spec fn key(&self) -> (ModuleId, usize) {
        (self.module, self.index)
    }

    fn same_key(&self, o: &Self) -> (r: bool) {
        self.module == o.module && self.index == o.index
    }
}

impl Keyed for ModuleConstant {
    type Key = (ModuleId, usize);

    open spec fn key(&self) -> (ModuleId, usize) {
        (self.module, self.index)
    }

    fn same_key(&self, o: &Self) -> (r: bool) {
        self.module == o.module && self.index == o.index
    }
}

/// The identity-bearing content of a module source.
pub open spec fn source_key(s: ModuleSource) -> (u8, u32, u32, Seq<char>) {
    match s {
        ModuleSource::File(f) => (0, f.0, 0, Seq::empty()),
        ModuleSource::Dir(p) => (1, 0, 0, p@),
        ModuleSource::Lowered { original, ast } => (2, original.0, ast.0, Seq::empty()),
    }
}

impl Keyed for Module {
    type Key = (Seq<char>, IngotId, (u8, u32, u32, Seq<char>), Seq<Seq<char>>);

    open spec fn key(&self) -> (Seq<char>, IngotId, (u8, u32, u32, Seq<char>), Seq<Seq<char>>) {
        (self.name@, self.ingot, source_key(self.source), strs(self.rel@))
    }

    fn same_key(&self, o: &Self) -> (r: bool) {
        let same_source = match (&self.source, &o.source) {
            (ModuleSource::File(a), ModuleSource::File(b)) => a.0 == b.0,
            (ModuleSource::Dir(a), ModuleSource::Dir(b)) => *a == *b,
            (
                ModuleSource::Lowered { original: a, ast: x },
                ModuleSource::Lowered { original: b, ast: y },
            ) => a.0 == b.0 && x.0 == y.0,
            _ => false,
        };
        self.name == o.name && self.ingot == o.ingot && same_source && same_strings(&self.rel, &o.rel)
    }
}

impl Keyed for Ingot {
    type Key = (Seq<char>, IngotMode, Option<IngotId>, Seq<char>);

    open spec fn key(&self) -> (Seq<char>, IngotMode, Option<IngotId>, Seq<char>) {
        (self.name@, self.mode, self.original, self.src_dir@)
    }

    fn same_key(&self, o: &Self) -> (r: bool) {
        self.name == o.name && self.mode == o.mode && self.original == o.original && self.src_dir
            == o.src_dir
    }
}

/// Every entity of a compilation, each table indexed by identity.
pub struct Db {
    pub ingots: Vec<Ingot>,
    pub ingot_data: Vec<IngotData>,
    pub modules: Vec<Module>,
    pub files: Vec<SourceFile>,
    pub contracts: Vec<Contract>,
    pub contract_fields: Vec<ContractField>,
    pub structs: Vec<Struct>,
    pub struct_fields: Vec<StructField>,
    pub functions: Vec<Function>,
    pub events: Vec<Event>,
    pub type_aliases: Vec<TypeAlias>,
    pub constants: Vec<ModuleConstant>,
    /// The syntax tree of a directory module.
    pub empty: ast::Module,
}

impl Db {
    /// A database with no entities.
    pub fn new() -> (r: Db)
        ensures
            r.wf(),
            r.ingots@.len() == 0,
            r.modules@.len() == 0,
    {
        Db {
            ingots: Vec::new(),
            ingot_data: Vec::new(),
            modules: Vec::new(),
            files: Vec::new(),
            contracts: Vec::new(),
            contract_fields: Vec::new(),
            structs: Vec::new(),
            struct_fields: Vec::new(),
            functions: Vec::new(),
            events: Vec::new(),
            type_aliases: Vec::new(),
            constants: Vec::new(),
            empty: ast::Module { body: Vec::new() },
        }
    }

    pub open spec fn ingot_ok(&self, i: int) -> bool {
        let d = self.ingot_data@[i];
        &&& forall|j: int|
            0 <= j < d.modules@.len() ==> {
                let m = #[trigger] d.modules@[j];
                &&& (m.0 as int) < self.modules@.len()
                &&& self.modules@[m.0 as int].ingot.0 == i
            }
        &&& forall|j: int|
            0 <= j < d.deps@.len() ==> ((#[trigger] d.deps@[j]).1.0 as int) < self.ingots@.len()
        &&& d.root matches Some(r) ==> {
            &&& (r.0 as int) < self.modules@.len()
            &&& self.modules@[r.0 as int].ingot.0 == i
        }
    }

    pub open spec fn module_ok(&self, m: int) -> bool {
        let r = self.modules@[m];
        &&& (r.ingot.0 as int) < self.ingots@.len()
        &&& match r.source {
            ModuleSource::File(f) => (f.0 as int) < self.files@.len(),
            ModuleSource::Dir(_) => true,
            ModuleSource::Lowered { original, ast } => (original.0 as int) < self.modules@.len()
                && (ast.0 as int) < self.files@.len() && self.modules@[original.0 as int].ingot == r.ingot,
        }
    }

    pub open spec fn class_ok(&self, c: Class) -> bool {
        match c {
            Class::Contract(id) => (id.0 as int) < self.contracts@.len(),
            Class::Struct(id) => (id.0 as int) < self.structs@.len(),
        }
    }

    /// Every identity that a record holds names an entity of the database.
    pub open spec fn wf(&self) -> bool {
        &&& self.ingot_data@.len() == self.ingots@.len()
        &&& self.empty.body@.len() == 0
        &&& self.ingots@.len() < u32::MAX
        &&& self.modules@.len() < u32::MAX
        &&& self.files@.len() < u32::MAX
        &&& self.contracts@.len() < u32::MAX
        &&& self.contract_fields@.len() < u32::MAX
        &&& self.structs@.len() < u32::MAX
        &&& self.struct_fields@.len() < u32::MAX
        &&& self.functions@.len() < u32::MAX
        &&& self.events@.len() < u32::MAX
        &&& self.type_aliases@.len() < u32::MAX
        &&& self.constants@.len() < u32::MAX
        &&& forall|i: int| 0 <= i < self.ingots@.len() ==> #[trigger] self.ingot_ok(i)
        &&& forall|m: int| 0 <= m < self.modules@.len() ==> #[trigger] self.module_ok(m)
        &&& forall|i: int|
            0 <= i < self.contracts@.len() ==> ((#[trigger] self.contracts@[i]).module.0 as int)
                < self.modules@.len()
        &&& forall|i: int|
            0 <= i < self.contract_fields@.len() ==> ((
            #[trigger] self.contract_fields@[i]).parent.0 as int) < self.contracts@.len()
        &&& forall|i: int|
            0 <= i < self.structs@.len() ==> ((#[trigger] self.structs@[i]).module.0 as int)
                < self.modules@.len()
        &&& forall|i: int|
            0 <= i < self.struct_fields@.len() ==> ((
            #[trigger] self.struct_fields@[i]).parent.0 as int) < self.structs@.len()
        &&& forall|i: int|
            0 <= i < self.functions@.len() ==> {
                let f = #[trigger] self.functions@[i];
                &&& (f.module.0 as int) < self.modules@.len()
                &&& f.parent matches Some(c) ==> self.class_ok(c)
            }
        &&& forall|i: int|
            0 <= i < self.events@.len() ==> {
                let e = #[trigger] self.events@[i];
                &&& (e.module.0 as int) < self.modules@.len()
                &&& e.contract matches Some(c) ==> (c.0 as int) < self.contracts@.len()
            }
        &&& forall|i: int|
            0 <= i < self.type_aliases@.len() ==> ((#[trigger] self.type_aliases@[i]).module.0 as int)
                < self.modules@.len()
        &&& forall|i: int|
            0 <= i < self.constants@.len() ==> ((#[trigger] self.constants@[i]).module.0 as int)
                < self.modules@.len()
    }

    /// The item names an entity of the database.
    pub open spec fn valid_item(&self, i: Item) -> bool {
        match i {
            Item::Ingot(id) => (id.0 as int) < self.ingots@.len(),
            Item::Module(id) => (id.0 as int) < self.modules@.len(),
            Item::Type(TypeDef::Alias(id)) => (id.0 as int) < self.type_aliases@.len(),
            Item::Type(TypeDef::Struct(id)) => (id.0 as int) < self.structs@.len(),
            Item::Type(TypeDef::Contract(id)) => (id.0 as int) < self.contracts@.len(),
            Item::Event(id) => (id.0 as int) < self.events@.len(),
            Item::Function(id) => (id.0 as int) < self.functions@.len(),
            Item::Constant(id) => (id.0 as int) < self.constants@.len(),
            _ => true,
        }
    }
}

} // verus!
