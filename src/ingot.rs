//! Building an ingot from source files: the module tree follows the layout
//! of the paths, and every declaration becomes an interned entity.
use crate::ast;
use crate::db::{
    intern_in, Contract, ContractField, Db, Diagnostic, Event, FileKind, Function, Ingot,
    IngotData, IngotMode, Keyed, Module, ModuleConstant, ModuleSource, SourceFile, Struct,
    StructField, TypeAlias,
};
use crate::ids::{
    Class, ContractFieldId, ContractId, EventId, FunctionId, IngotId, ModuleConstantId, ModuleId,
    SourceFileId, StructFieldId, StructId, TypeAliasId,
};
use crate::namemap::NameMap;
use crate::copy::{copy_module, copy_contract, copy_name, copy_path, copy_struct, copy_event, copy_field, copy_function, copy_stmt, same_arg, same_contract, same_event, same_field, same_function, same_path, same_stmt, same_struct};
use crate::scope::{index_at, module_body, Located};
use crate::db::{first_index, intern_spec, keys_of, lemma_first_index, lemma_intern_idempotent};
use crate::paths::{
    common_prefix, common_prefix_of, components, file_stem, is_prefix,
    join_components, join_path, parent_of, path_components, same_strings, skip_components,
    stem_of, strip_fe, strip_fe_suffix, strs, take_components,
};
use vstd::prelude::*;
use vstd::string::*;

verus! {

/// A source file as the parser hands it over.
#[derive(Debug, Clone)]
pub struct ParsedFile {
    pub path: String,
    pub ast: ast::Module,
    pub diagnostics: Vec<Diagnostic>,
    /// Parsing stopped early.
    pub incomplete: bool,
}

/// An identity space ran out: a table already holds as many entities as a
/// 32-bit identity can tell apart.
#[derive(Debug, Clone, Copy, PartialEq, Eq, Structural)]
pub struct IdSpaceFull;

/// The largest table size at which one more entity can be added.
pub const TABLE_LIMIT: usize = 0xFFFF_FFFE;

/// Every entity table but table `k` is as it was.
pub open spec fn unchanged_except(a: Db, b: Db, k: u8) -> bool {
    &&& (k != 0 ==> b.contracts@ == a.contracts@)
    &&& (k != 1 ==> b.contract_fields@ == a.contract_fields@)
    &&& (k != 2 ==> b.structs@ == a.structs@)
    &&& (k != 3 ==> b.struct_fields@ == a.struct_fields@)
    &&& (k != 4 ==> b.functions@ == a.functions@)
    &&& (k != 5 ==> b.events@ == a.events@)
    &&& (k != 6 ==> b.type_aliases@ == a.type_aliases@)
    &&& (k != 7 ==> b.constants@ == a.constants@)
}

/// Some table holds as many entities as the identities allow.
pub open spec fn is_full(db: Db) -> bool {
    ||| db.ingots@.len() >= TABLE_LIMIT
    ||| db.modules@.len() >= TABLE_LIMIT
    ||| db.files@.len() >= TABLE_LIMIT
    ||| db.contracts@.len() >= TABLE_LIMIT
    ||| db.contract_fields@.len() >= TABLE_LIMIT
    ||| db.structs@.len() >= TABLE_LIMIT
    ||| db.struct_fields@.len() >= TABLE_LIMIT
    ||| db.functions@.len() >= TABLE_LIMIT
    ||| db.events@.len() >= TABLE_LIMIT
    ||| db.type_aliases@.len() >= TABLE_LIMIT
    ||| db.constants@.len() >= TABLE_LIMIT
}

/// `a` is a leading part of `b`.
pub open spec fn extends<T>(a: Seq<T>, b: Seq<T>) -> bool {
    a.len() <= b.len() && forall|i: int| 0 <= i < a.len() ==> b[i] == a[i]
}

/// `new` holds everything `old` held, at the same identities.
pub open spec fn grows(old: Db, new: Db) -> bool {
    &&& extends(old.ingots@, new.ingots@)
    &&& extends(old.modules@, new.modules@)
    &&& extends(old.files@, new.files@)
    &&& extends(old.contracts@, new.contracts@)
    &&& extends(old.contract_fields@, new.contract_fields@)
    &&& extends(old.structs@, new.structs@)
    &&& extends(old.struct_fields@, new.struct_fields@)
    &&& extends(old.functions@, new.functions@)
    &&& extends(old.events@, new.events@)
    &&& extends(old.type_aliases@, new.type_aliases@)
    &&& extends(old.constants@, new.constants@)
}

/// `new` is `old` with only entities of a module's declarations added.
pub open spec fn adds_entities(old: Db, new: Db) -> bool {
    &&& grows(old, new)
    &&& new.ingots@ == old.ingots@
    &&& new.ingot_data@ == old.ingot_data@
    &&& new.modules@ == old.modules@
    &&& new.files@ == old.files@
}

/// The path components of each file.
pub open spec fn file_components(files: Seq<ParsedFile>) -> Seq<Seq<Seq<char>>> {
    files.map_values(|f: ParsedFile| components(f.path@))
}

/// The common leading components of all the paths.
pub open spec fn reduce_prefix(cs: Seq<Seq<Seq<char>>>) -> Seq<Seq<char>>
    decreases cs.len(),
{
    if cs.len() == 0 {
        Seq::empty()
    } else if cs.len() == 1 {
        cs[0]
    } else {
        common_prefix(reduce_prefix(cs.drop_last()), cs.last())
    }
}

/// The source directory of an ingot: the directory of its one file, or the
/// common leading components of all its files.
pub open spec fn src_prefix(cs: Seq<Seq<Seq<char>>>) -> Seq<Seq<char>> {
    if cs.len() == 1 {
        parent_of(cs[0])
    } else {
        reduce_prefix(cs)
    }
}

/// A file's path below the source directory.
pub open spec fn file_rel(cs: Seq<Seq<Seq<char>>>, i: int) -> Seq<Seq<char>> {
    cs[i].skip(src_prefix(cs).len() as int)
}

/// A place in the module tree: the path without the `.fe` of its last part.
pub open spec fn module_place(r: Seq<Seq<char>>) -> Seq<Seq<char>> {
    if r.len() == 0 {
        r
    } else {
        r.drop_last().push(strip_fe(r.last()))
    }
}

/// Each file's path below the source directory.
pub open spec fn file_rels(cs: Seq<Seq<Seq<char>>>) -> Seq<Seq<Seq<char>>> {
    Seq::new(cs.len(), |i: int| file_rel(cs, i))
}

/// `d` is a directory that one of the paths `rs` lies below.
pub open spec fn is_dir_in(rs: Seq<Seq<Seq<char>>>, d: Seq<Seq<char>>) -> bool {
    exists|i: int| 0 <= i < rs.len() && 1 <= d.len() < rs[i].len() && #[trigger] rs[i].take(d.len() as int) == d
}

/// A file of `rs` stands for the directory `d`.
pub open spec fn has_file_in(rs: Seq<Seq<Seq<char>>>, d: Seq<Seq<char>>) -> bool {
    exists|i: int| 0 <= i < rs.len() && #[trigger] module_place(rs[i]) == d
}

/// A directory that gets a module of its own: some file lies below it, and
/// no file stands for it.
pub open spec fn is_dir_module(cs: Seq<Seq<Seq<char>>>, d: Seq<Seq<char>>) -> bool {
    is_dir_in(file_rels(cs), d) && !has_file_in(file_rels(cs), d)
}

/// The component lists as sequences.
pub open spec fn views(v: Seq<Vec<String>>) -> Seq<Seq<Seq<char>>> {
    v.map_values(|x: Vec<String>| strs(x@))
}

/// The root module's file, for each mode.
pub open spec fn root_file(mode: IngotMode) -> Seq<Seq<char>> {
    match mode {
        IngotMode::Main => seq!["main.fe"@],
        IngotMode::Lib => seq!["lib.fe"@],
        IngotMode::StandaloneModule => Seq::empty(),
    }
}

/// The index of the file that is the ingot's root module: the first file
/// whose path below the source directory is `main.fe` or `lib.fe`; the one
/// file of a standalone module.
pub open spec fn root_index(rs: Seq<Seq<Seq<char>>>, mode: IngotMode) -> Option<int> {
    if mode == IngotMode::StandaloneModule {
        if rs.len() > 0 {
            Some(0)
        } else {
            None
        }
    } else if exists|i: int| 0 <= i < rs.len() && rs[i] == root_file(mode) {
        Some(
            choose|i: int|
                0 <= i < rs.len() && rs[i] == root_file(mode) && forall|j: int|
                    0 <= j < i ==> rs[j] != root_file(mode),
        )
    } else {
        None
    }
}

/// What building an ingot from `files` leaves in the database.
pub open spec fn built_ingot(
    db: Db,
    id: IngotId,
    name: Seq<char>,
    mode: IngotMode,
    files: Seq<ParsedFile>,
    deps: Seq<(Seq<char>, IngotId)>,
) -> bool {
    let cs = file_components(files);
    let rs = file_rels(cs);
    let n = files.len();
    let d = db.ingot_data@[id.0 as int];
    let ms = d.modules@;
    &&& (id.0 as int) < db.ingots@.len()
    &&& db.ingots@[id.0 as int].key() == (name, mode, None::<IngotId>, join_path(src_prefix(cs)))
    &&& d.deps@ == deps
    &&& n <= ms.len()
    &&& forall|i: int|
        0 <= i < n ==> {
            let m = #[trigger] db.modules@[ms[i].0 as int];
            &&& m.name@ == stem_of(cs[i].last())
            &&& m.source is File
            &&& strs(m.rel@) == module_place(rs[i])
        }
    &&& forall|j: int|
        n <= j < ms.len() ==> {
            let m = #[trigger] db.modules@[ms[j].0 as int];
            &&& is_dir_module(cs, strs(m.rel@))
            &&& m.source matches ModuleSource::Dir(p) && p@ == join_path(strs(m.rel@))
            &&& m.name@ == strs(m.rel@).last()
        }
    &&& forall|a: int, b: int|
        n <= a < b < ms.len() ==> strs(db.modules@[ms[a].0 as int].rel@) != strs(
            db.modules@[ms[b].0 as int].rel@,
        )
    &&& forall|dd: Seq<Seq<char>>|
        is_dir_module(cs, dd) ==> exists|j: int|
            n <= j < ms.len() && #[trigger] strs(db.modules@[ms[j].0 as int].rel@) == dd
    &&& forall|i: int| 0 <= i < n ==> file_decls_ok(db, #[trigger] ms[i], files[i])
    &&& d.root == match root_index(rs, mode) {
        Some(k) => Some(ms[k]),
        None => None::<ModuleId>,
    }
}

proof fn lemma_prefix_trans(a: Seq<Seq<char>>, b: Seq<Seq<char>>, c: Seq<Seq<char>>)
    requires
        is_prefix(a, b),
        is_prefix(b, c),
    ensures
        is_prefix(a, c),
{
    assert(c.take(a.len() as int) =~= b.take(a.len() as int));
}

proof fn lemma_common_prefix(a: Seq<Seq<char>>, b: Seq<Seq<char>>)
    ensures
        is_prefix(common_prefix(a, b), a),
        is_prefix(common_prefix(a, b), b),
    decreases a.len(),
{
    lemma_common_len_bounds(a, b);
    let n = common_prefix(a, b).len();
    assert(a.take(n as int) =~= common_prefix(a, b));
    assert(b.take(n as int) =~= common_prefix(a, b));
}

proof fn lemma_common_len_bounds(a: Seq<Seq<char>>, b: Seq<Seq<char>>)
    ensures
        crate::paths::common_len(a, b) <= a.len(),
        crate::paths::common_len(a, b) <= b.len(),
        forall|i: int| 0 <= i < crate::paths::common_len(a, b) ==> a[i] == b[i],
    decreases a.len(),
{
    if !(a.len() == 0 || b.len() == 0 || a[0] != b[0]) {
        lemma_common_len_bounds(a.drop_first(), b.drop_first());
        assert forall|i: int| 0 <= i < crate::paths::common_len(a, b) implies a[i] == b[i] by {
            if i > 0 {
                assert(a.drop_first()[i - 1] == a[i]);
                assert(b.drop_first()[i - 1] == b[i]);
            }
        }
    }
}

proof fn lemma_reduce_prefix(cs: Seq<Seq<Seq<char>>>)
    requires
        cs.len() >= 1,
    ensures
        forall|i: int| 0 <= i < cs.len() ==> is_prefix(reduce_prefix(cs), #[trigger] cs[i]),
    decreases cs.len(),
{
    if cs.len() == 1 {
        assert(cs[0].take(cs[0].len() as int) =~= cs[0]);
    } else {
        let d = cs.drop_last();
        lemma_reduce_prefix(d);
        lemma_common_prefix(reduce_prefix(d), cs.last());
        assert forall|i: int| 0 <= i < cs.len() implies is_prefix(reduce_prefix(cs), #[trigger] cs[i]) by {
            if i < cs.len() - 1 {
                assert(d[i] == cs[i]);
                lemma_prefix_trans(reduce_prefix(cs), reduce_prefix(d), cs[i]);
            }
        }
    }
}

/// The source directory is a leading part of every file's path.
pub proof fn lemma_src_prefix(cs: Seq<Seq<Seq<char>>>)
    requires
        cs.len() >= 1,
    ensures
        forall|i: int| 0 <= i < cs.len() ==> is_prefix(src_prefix(cs), #[trigger] cs[i]),
{
    if cs.len() == 1 {
        assert forall|i: int| 0 <= i < cs.len() implies is_prefix(src_prefix(cs), #[trigger] cs[i]) by {
            assert(i == 0);
            if cs[0].len() > 0 {
                assert(cs[0].take(cs[0].len() - 1) =~= cs[0].drop_last());
            } else {
                assert(cs[0].take(0) =~= cs[0]);
            }
        }
    } else {
        lemma_reduce_prefix(cs);
    }
}

impl Db {
    /// Adds a source file.
    pub fn add_file(&mut self, f: SourceFile) -> (r: Result<SourceFileId, IdSpaceFull>)
        requires
            old(self).wf(),
        ensures
            r is Err ==> is_full(*final(self)),
            final(self).wf(),
            grows(*old(self), *final(self)),
            final(self).ingots@ == old(self).ingots@,
            final(self).ingot_data@ == old(self).ingot_data@,
            final(self).modules@ == old(self).modules@,
            r matches Ok(id) ==> (id.0 as int) < final(self).files@.len() && id.0 as int == old(self).files@.len()
                && final(self).files@ == old(self).files@.push(f),
            r is Err ==> *final(self) == *old(self),
            grows(*old(self), *final(self)),
    {
        if self.files.len() >= TABLE_LIMIT {
            return Err(IdSpaceFull);
        }
        let id = self.files.len();
        self.files.push(f);
        proof {
            assert forall|m: int| 0 <= m < self.modules@.len() implies #[trigger] self.module_ok(m) by {
                assert(old(self).module_ok(m));
            }
            assert forall|i: int| 0 <= i < self.ingots@.len() implies #[trigger] self.ingot_ok(i) by {
                assert(old(self).ingot_ok(i));
            }
        }
        Ok(SourceFileId(id as u32))
    }

    /// Interns a module record.
    pub fn intern_module(&mut self, rec: Module) -> (r: Result<ModuleId, IdSpaceFull>)
        requires
            old(self).wf(),
            (rec.ingot.0 as int) < old(self).ingots@.len(),
            match rec.source {
                ModuleSource::File(f) => (f.0 as int) < old(self).files@.len(),
                ModuleSource::Dir(_) => true,
                ModuleSource::Lowered { original, ast } => (original.0 as int)
                    < old(self).modules@.len() && (ast.0 as int) < old(self).files@.len()
                    && old(self).modules@[original.0 as int].ingot == rec.ingot,
            },
        ensures
            r matches Ok(id) ==> keys_of(final(self).modules@) == intern_spec(keys_of(old(self).modules@), rec.key()).0
                && id.0 as int == intern_spec(keys_of(old(self).modules@), rec.key()).1,
            final(self).modules@ == old(self).modules@ || final(self).modules@ == old(self).modules@.push(rec),
            r matches Ok(id) ==> first_index(keys_of(final(self).modules@), rec.key()) == Some(id.0 as int),
            unchanged_except(*old(self), *final(self), 8),
            r is Err ==> is_full(*final(self)),
            final(self).wf(),
            grows(*old(self), *final(self)),
            final(self).ingots@ == old(self).ingots@,
            final(self).ingot_data@ == old(self).ingot_data@,
            final(self).files@ == old(self).files@,
            r matches Ok(id) ==> (id.0 as int) < final(self).modules@.len()
                && final(self).modules@[id.0 as int].key() == rec.key(),
            r matches Ok(id) ==> ((id.0 as int) == old(self).modules@.len()
                ==> final(self).modules@[id.0 as int] == rec),
    {
        if self.modules.len() >= TABLE_LIMIT {
            return Err(IdSpaceFull);
        }
        let ghost rec_copy = rec;
        let id = intern_in(&mut self.modules, rec);
        proof {
            lemma_intern_idempotent(keys_of(old(self).modules@), rec_copy.key());
        }
        proof {
            assert forall|m: int| 0 <= m < self.modules@.len() implies #[trigger] self.module_ok(m) by {
                if m < old(self).modules@.len() {
                    assert(old(self).module_ok(m));
                    assert(self.modules@[m] == old(self).modules@[m]);
                } else {
                    assert(self.modules@[m] == rec_copy);
                }
            }
            assert forall|i: int| 0 <= i < self.ingots@.len() implies #[trigger] self.ingot_ok(i) by {
                assert(old(self).ingot_ok(i));
                let d = self.ingot_data@[i];
                assert forall|j: int| 0 <= j < d.modules@.len() implies {
                    let m = #[trigger] d.modules@[j];
                    &&& (m.0 as int) < self.modules@.len()
                    &&& self.modules@[m.0 as int].ingot.0 == i
                } by {
                    let m = d.modules@[j];
                    assert(self.modules@[m.0 as int] == old(self).modules@[m.0 as int]);
                }
                if let Some(r) = d.root {
                    assert(self.modules@[r.0 as int] == old(self).modules@[r.0 as int]);
                }
            }
        }
        Ok(ModuleId(id as u32))
    }
}

impl Db {
    /// Interns a contract.
    pub fn add_contract(&mut self, rec: Contract) -> (r: Result<ContractId, IdSpaceFull>)
        requires
            old(self).wf(),
            (rec.module.0 as int) < old(self).modules@.len(),
        ensures
            final(self).contracts@ == old(self).contracts@ || final(self).contracts@ == old(self).contracts@.push(rec),
            r matches Ok(id) ==> first_index(keys_of(final(self).contracts@), rec.key()) == Some(id.0 as int),
            unchanged_except(*old(self), *final(self), 0),
            r is Err ==> is_full(*final(self)),
            final(self).wf(),
            adds_entities(*old(self), *final(self)),
            r matches Ok(id) ==> (id.0 as int) < final(self).contracts@.len()
                && final(self).contracts@[id.0 as int].key() == rec.key(),
    {
        if self.contracts.len() >= TABLE_LIMIT {
            return Err(IdSpaceFull);
        }
        let ghost r0 = rec;
        let id = intern_in(&mut self.contracts, rec);
        proof {
            lemma_intern_idempotent(keys_of(old(self).contracts@), r0.key());
        }
        proof {
            assert forall|m: int| 0 <= m < self.modules@.len() implies #[trigger] self.module_ok(m) by {
                assert(old(self).module_ok(m));
            }
            assert forall|i: int| 0 <= i < self.ingots@.len() implies #[trigger] self.ingot_ok(i) by {
                assert(old(self).ingot_ok(i));
            }
        }
        Ok(ContractId(id as u32))
    }

    /// Interns a contract field.
    pub fn add_contract_field(&mut self, rec: ContractField) -> (r: Result<ContractFieldId, IdSpaceFull>)
        requires
            old(self).wf(),
            (rec.parent.0 as int) < old(self).contracts@.len(),
        ensures
            final(self).contract_fields@ == old(self).contract_fields@ || final(self).contract_fields@ == old(self).contract_fields@.push(rec),
            r matches Ok(id) ==> first_index(keys_of(final(self).contract_fields@), rec.key()) == Some(id.0 as int),
            unchanged_except(*old(self), *final(self), 1),
            r is Err ==> is_full(*final(self)),
            final(self).wf(),
            adds_entities(*old(self), *final(self)),
            r matches Ok(id) ==> (id.0 as int) < final(self).contract_fields@.len()
                && final(self).contract_fields@[id.0 as int].key() == rec.key(),
    {
        if self.contract_fields.len() >= TABLE_LIMIT {
            return Err(IdSpaceFull);
        }
        let ghost r0 = rec;
        let id = intern_in(&mut self.contract_fields, rec);
        proof {
            lemma_intern_idempotent(keys_of(old(self).contract_fields@), r0.key());
        }
        proof {
            assert forall|m: int| 0 <= m < self.modules@.len() implies #[trigger] self.module_ok(m) by {
                assert(old(self).module_ok(m));
            }
            assert forall|i: int| 0 <= i < self.ingots@.len() implies #[trigger] self.ingot_ok(i) by {
                assert(old(self).ingot_ok(i));
            }
        }
        Ok(ContractFieldId(id as u32))
    }

    /// Interns a struct.
    pub fn add_struct(&mut self, rec: Struct) -> (r: Result<StructId, IdSpaceFull>)
        requires
            old(self).wf(),
            (rec.module.0 as int) < old(self).modules@.len(),
        ensures
            final(self).structs@ == old(self).structs@ || final(self).structs@ == old(self).structs@.push(rec),
            r matches Ok(id) ==> first_index(keys_of(final(self).structs@), rec.key()) == Some(id.0 as int),
            unchanged_except(*old(self), *final(self), 2),
            r is Err ==> is_full(*final(self)),
            final(self).wf(),
            adds_entities(*old(self), *final(self)),
            r matches Ok(id) ==> (id.0 as int) < final(self).structs@.len()
                && final(self).structs@[id.0 as int].key() == rec.key(),
    {
        if self.structs.len() >= TABLE_LIMIT {
            return Err(IdSpaceFull);
        }
        let ghost r0 = rec;
        let id = intern_in(&mut self.structs, rec);
        proof {
            lemma_intern_idempotent(keys_of(old(self).structs@), r0.key());
        }
        proof {
            assert forall|m: int| 0 <= m < self.modules@.len() implies #[trigger] self.module_ok(m) by {
                assert(old(self).module_ok(m));
            }
            assert forall|i: int| 0 <= i < self.ingots@.len() implies #[trigger] self.ingot_ok(i) by {
                assert(old(self).ingot_ok(i));
            }
        }
        Ok(StructId(id as u32))
    }

    /// Interns a struct field.
    pub fn add_struct_field(&mut self, rec: StructField) -> (r: Result<StructFieldId, IdSpaceFull>)
        requires
            old(self).wf(),
            (rec.parent.0 as int) < old(self).structs@.len(),
        ensures
            final(self).struct_fields@ == old(self).struct_fields@ || final(self).struct_fields@ == old(self).struct_fields@.push(rec),
            r matches Ok(id) ==> first_index(keys_of(final(self).struct_fields@), rec.key()) == Some(id.0 as int),
            unchanged_except(*old(self), *final(self), 3),
            r is Err ==> is_full(*final(self)),
            final(self).wf(),
            adds_entities(*old(self), *final(self)),
            r matches Ok(id) ==> (id.0 as int) < final(self).struct_fields@.len()
                && final(self).struct_fields@[id.0 as int].key() == rec.key(),
    {
        if self.struct_fields.len() >= TABLE_LIMIT {
            return Err(IdSpaceFull);
        }
        let ghost r0 = rec;
        let id = intern_in(&mut self.struct_fields, rec);
        proof {
            lemma_intern_idempotent(keys_of(old(self).struct_fields@), r0.key());
        }
        proof {
            assert forall|m: int| 0 <= m < self.modules@.len() implies #[trigger] self.module_ok(m) by {
                assert(old(self).module_ok(m));
            }
            assert forall|i: int| 0 <= i < self.ingots@.len() implies #[trigger] self.ingot_ok(i) by {
                assert(old(self).ingot_ok(i));
            }
        }
        Ok(StructFieldId(id as u32))
    }

    /// Interns a function.
    pub fn add_function(&mut self, rec: Function) -> (r: Result<FunctionId, IdSpaceFull>)
        requires
            old(self).wf(),
            (rec.module.0 as int) < old(self).modules@.len(),
            rec.parent matches Some(c) ==> old(self).class_ok(c),
        ensures
            final(self).functions@ == old(self).functions@ || final(self).functions@ == old(self).functions@.push(rec),
            r matches Ok(id) ==> first_index(keys_of(final(self).functions@), rec.key()) == Some(id.0 as int),
            unchanged_except(*old(self), *final(self), 4),
            r is Err ==> is_full(*final(self)),
            final(self).wf(),
            adds_entities(*old(self), *final(self)),
            r matches Ok(id) ==> (id.0 as int) < final(self).functions@.len()
                && final(self).functions@[id.0 as int].key() == rec.key(),
    {
        if self.functions.len() >= TABLE_LIMIT {
            return Err(IdSpaceFull);
        }
        let ghost r0 = rec;
        let id = intern_in(&mut self.functions, rec);
        proof {
            lemma_intern_idempotent(keys_of(old(self).functions@), r0.key());
        }
        proof {
            assert forall|m: int| 0 <= m < self.modules@.len() implies #[trigger] self.module_ok(m) by {
                assert(old(self).module_ok(m));
            }
            assert forall|i: int| 0 <= i < self.ingots@.len() implies #[trigger] self.ingot_ok(i) by {
                assert(old(self).ingot_ok(i));
            }
        }
        Ok(FunctionId(id as u32))
    }

    /// Interns an event.
    pub fn add_event(&mut self, rec: Event) -> (r: Result<EventId, IdSpaceFull>)
        requires
            old(self).wf(),
            (rec.module.0 as int) < old(self).modules@.len(),
            rec.contract matches Some(c) ==> (c.0 as int) < old(self).contracts@.len(),
        ensures
            final(self).events@ == old(self).events@ || final(self).events@ == old(self).events@.push(rec),
            r matches Ok(id) ==> first_index(keys_of(final(self).events@), rec.key()) == Some(id.0 as int),
            unchanged_except(*old(self), *final(self), 5),
            r is Err ==> is_full(*final(self)),
            final(self).wf(),
            adds_entities(*old(self), *final(self)),
            r matches Ok(id) ==> (id.0 as int) < final(self).events@.len()
                && final(self).events@[id.0 as int].key() == rec.key(),
    {
        if self.events.len() >= TABLE_LIMIT {
            return Err(IdSpaceFull);
        }
        let ghost r0 = rec;
        let id = intern_in(&mut self.events, rec);
        proof {
            lemma_intern_idempotent(keys_of(old(self).events@), r0.key());
        }
        proof {
            assert forall|m: int| 0 <= m < self.modules@.len() implies #[trigger] self.module_ok(m) by {
                assert(old(self).module_ok(m));
            }
            assert forall|i: int| 0 <= i < self.ingots@.len() implies #[trigger] self.ingot_ok(i) by {
                assert(old(self).ingot_ok(i));
            }
        }
        Ok(EventId(id as u32))
    }

    /// Interns a type alias.
    pub fn add_type_alias(&mut self, rec: TypeAlias) -> (r: Result<TypeAliasId, IdSpaceFull>)
        requires
            old(self).wf(),
            (rec.module.0 as int) < old(self).modules@.len(),
        ensures
            final(self).type_aliases@ == old(self).type_aliases@ || final(self).type_aliases@ == old(self).type_aliases@.push(rec),
            r matches Ok(id) ==> first_index(keys_of(final(self).type_aliases@), rec.key()) == Some(id.0 as int),
            unchanged_except(*old(self), *final(self), 6),
            r is Err ==> is_full(*final(self)),
            final(self).wf(),
            adds_entities(*old(self), *final(self)),
            r matches Ok(id) ==> (id.0 as int) < final(self).type_aliases@.len()
                && final(self).type_aliases@[id.0 as int].key() == rec.key(),
    {
        if self.type_aliases.len() >= TABLE_LIMIT {
            return Err(IdSpaceFull);
        }
        let ghost r0 = rec;
        let id = intern_in(&mut self.type_aliases, rec);
        proof {
            lemma_intern_idempotent(keys_of(old(self).type_aliases@), r0.key());
        }
        proof {
            assert forall|m: int| 0 <= m < self.modules@.len() implies #[trigger] self.module_ok(m) by {
                assert(old(self).module_ok(m));
            }
            assert forall|i: int| 0 <= i < self.ingots@.len() implies #[trigger] self.ingot_ok(i) by {
                assert(old(self).ingot_ok(i));
            }
        }
        Ok(TypeAliasId(id as u32))
    }

    /// Interns a module-level constant.
    pub fn add_constant(&mut self, rec: ModuleConstant) -> (r: Result<ModuleConstantId, IdSpaceFull>)
        requires
            old(self).wf(),
            (rec.module.0 as int) < old(self).modules@.len(),
        ensures
            final(self).constants@ == old(self).constants@ || final(self).constants@ == old(self).constants@.push(rec),
            r matches Ok(id) ==> first_index(keys_of(final(self).constants@), rec.key()) == Some(id.0 as int),
            unchanged_except(*old(self), *final(self), 7),
            r is Err ==> is_full(*final(self)),
            final(self).wf(),
            adds_entities(*old(self), *final(self)),
            r matches Ok(id) ==> (id.0 as int) < final(self).constants@.len()
                && final(self).constants@[id.0 as int].key() == rec.key(),
    {
        if self.constants.len() >= TABLE_LIMIT {
            return Err(IdSpaceFull);
        }
        let ghost r0 = rec;
        let id = intern_in(&mut self.constants, rec);
        proof {
            lemma_intern_idempotent(keys_of(old(self).constants@), r0.key());
        }
        proof {
            assert forall|m: int| 0 <= m < self.modules@.len() implies #[trigger] self.module_ok(m) by {
                assert(old(self).module_ok(m));
            }
            assert forall|i: int| 0 <= i < self.ingots@.len() implies #[trigger] self.ingot_ok(i) by {
                assert(old(self).ingot_ok(i));
            }
        }
        Ok(ModuleConstantId(id as u32))
    }
}

proof fn lemma_adds_entities_trans(a: Db, b: Db, c: Db)
    requires
        adds_entities(a, b),
        adds_entities(b, c),
    ensures
        adds_entities(a, c),
{
}

/// Two statement lists alike statement by statement.
pub open spec fn same_body(a: Seq<ast::ModuleStmt>, b: Seq<ast::ModuleStmt>) -> bool {
    a.len() == b.len() && forall|k: int| 0 <= k < a.len() ==> same_stmt(#[trigger] a[k], b[k])
}

/// Module `m` holds a copy of file `f`'s syntax tree, and every declaration
/// of that tree has its entity.
pub open spec fn file_decls_ok(db: Db, m: ModuleId, f: ParsedFile) -> bool {
    &&& db.modules@[m.0 as int].source matches ModuleSource::File(fid) && (fid.0 as int) < db.files@.len()
        && same_body(db.files@[fid.0 as int].ast.body@, f.ast.body@)
    &&& forall|k: int| 0 <= k < f.ast.body@.len() ==> decl_ok(db, m, k as usize, #[trigger] f.ast.body@[k])
}

/// No record of module `m` stands in a top-level table.
proof fn lemma_fresh_untouched(db: Db, m: ModuleId, i: usize)
    requires
        db.wf(),
        (m.0 as int) >= db.modules@.len(),
    ensures
        untouched(db, m, i),
{
    crate::scope::lemma_index_at_pub(db.contracts@, m, i);
    crate::scope::lemma_index_at_pub(db.structs@, m, i);
    crate::scope::lemma_index_at_pub(db.functions@, m, i);
    crate::scope::lemma_index_at_pub(db.events@, m, i);
    crate::scope::lemma_index_at_pub(db.type_aliases@, m, i);
    crate::scope::lemma_index_at_pub(db.constants@, m, i);
}

/// Statement `s` declares an entity.
pub open spec fn declares(s: ast::ModuleStmt) -> bool {
    !(s is Pragma) && !(s is Use)
}

/// No record of a top-level table stands for statement `i` of module `m`.
pub open spec fn untouched(db: Db, m: ModuleId, i: usize) -> bool {
    &&& index_at(db.contracts@, m, i) is None
    &&& index_at(db.structs@, m, i) is None
    &&& index_at(db.functions@, m, i) is None
    &&& index_at(db.events@, m, i) is None
    &&& index_at(db.type_aliases@, m, i) is None
    &&& index_at(db.constants@, m, i) is None
}

/// The members of contract `c` (declared as `ast`) have their records.
pub open spec fn contract_members_ok(db: Db, m: ModuleId, c: ContractId, a: ast::Contract) -> bool {
    &&& forall|j: int| 0 <= j < a.fields@.len() ==> ((#[trigger] first_index(keys_of(db.contract_fields@), (c, j as usize))) matches Some(k)
        && same_field(db.contract_fields@[k].ast, a.fields@[j]))
    &&& forall|j: int| 0 <= j < a.functions@.len() ==> ((#[trigger] first_index(keys_of(db.functions@), (m, Some(Class::Contract(c)), j as usize))) matches Some(k)
        && same_function(db.functions@[k].ast, a.functions@[j]))
    &&& forall|j: int| 0 <= j < a.events@.len() ==> ((#[trigger] first_index(keys_of(db.events@), (m, Some(c), j as usize))) matches Some(k)
        && same_event(db.events@[k].ast, a.events@[j]))
}

/// The members of struct `s` (declared as `ast`) have their records.
pub open spec fn struct_members_ok(db: Db, m: ModuleId, s: StructId, a: ast::Struct) -> bool {
    &&& forall|j: int| 0 <= j < a.fields@.len() ==> ((#[trigger] first_index(keys_of(db.struct_fields@), (s, j as usize))) matches Some(k)
        && same_field(db.struct_fields@[k].ast, a.fields@[j]))
    &&& forall|j: int| 0 <= j < a.functions@.len() ==> ((#[trigger] first_index(keys_of(db.functions@), (m, Some(Class::Struct(s)), j as usize))) matches Some(k)
        && same_function(db.functions@[k].ast, a.functions@[j]))
}

/// Statement `i` of module `m`, `s`, has its entity in the table of its kind,
/// alike in every part; a contract or struct has its members too.
pub open spec fn decl_ok(db: Db, m: ModuleId, i: usize, s: ast::ModuleStmt) -> bool {
    match s {
        ast::ModuleStmt::Contract(c) => index_at(db.contracts@, m, i) matches Some(j)
            && same_contract(db.contracts@[j].ast, c) && contract_members_ok(db, m, ContractId(j as u32), c),
        ast::ModuleStmt::Struct(st) => index_at(db.structs@, m, i) matches Some(j)
            && same_struct(db.structs@[j].ast, st) && struct_members_ok(db, m, StructId(j as u32), st),
        ast::ModuleStmt::Function(f) => index_at(db.functions@, m, i) matches Some(j)
            && same_function(db.functions@[j].ast, f),
        ast::ModuleStmt::Event(e) => index_at(db.events@, m, i) matches Some(j)
            && same_event(db.events@[j].ast, e),
        ast::ModuleStmt::TypeAlias(a) => index_at(db.type_aliases@, m, i) matches Some(j)
            && db.type_aliases@[j].ast.name == a.name && same_path(db.type_aliases@[j].ast.typ, a.typ),
        ast::ModuleStmt::Constant(k) => index_at(db.constants@, m, i) matches Some(j)
            && db.constants@[j].ast.name == k.name && same_path(db.constants@[j].ast.typ, k.typ)
            && db.constants@[j].ast.value == k.value,
        _ => true,
    }
}

proof fn lemma_index_at_some<T: Located>(s: Seq<T>, m: ModuleId, i: usize, j: int)
    requires
        0 <= j < s.len(),
        s[j].spec_at(m, i),
    ensures
        index_at(s, m, i) is Some,
    decreases s.len(),
{
    if j < s.len() - 1 {
        assert(s.drop_last()[j] == s[j]);
        lemma_index_at_some(s.drop_last(), m, i, j);
    }
}

proof fn lemma_index_at_extend<T: Located>(s: Seq<T>, t: Seq<T>, m: ModuleId, i: usize)
    requires
        extends(s, t),
    ensures
        index_at(s, m, i) is Some ==> index_at(t, m, i) == index_at(s, m, i),
        index_at(s, m, i) is None && (forall|k: int| s.len() <= k < t.len() ==> !t[k].spec_at(m, i))
            ==> index_at(t, m, i) is None,
    decreases t.len(),
{
    if t.len() == s.len() {
        assert(t =~= s);
    } else {
        assert(extends(s, t.drop_last()));
        lemma_index_at_extend(s, t.drop_last(), m, i);
    }
}

proof fn lemma_first_index_extend<K>(s: Seq<K>, t: Seq<K>, k: K)
    requires
        extends(s, t),
        first_index(s, k) is Some,
    ensures
        first_index(t, k) == first_index(s, k),
    decreases t.len(),
{
    if t.len() == s.len() {
        assert(t =~= s);
    } else {
        assert(extends(s, t.drop_last()));
        lemma_first_index_extend(s, t.drop_last(), k);
    }
}

proof fn lemma_keys_extend<T: Keyed>(s: Seq<T>, t: Seq<T>)
    requires
        extends(s, t),
    ensures
        extends(keys_of(s), keys_of(t)),
{
}

/// Decl facts survive growth.
proof fn lemma_decl_ok_extend(a: Db, b: Db, m: ModuleId, i: usize, s: ast::ModuleStmt)
    requires
        decl_ok(a, m, i, s),
        grows(a, b),
    ensures
        decl_ok(b, m, i, s),
{
    lemma_index_at_extend(a.contracts@, b.contracts@, m, i);
    lemma_index_at_extend(a.structs@, b.structs@, m, i);
    lemma_index_at_extend(a.functions@, b.functions@, m, i);
    lemma_index_at_extend(a.events@, b.events@, m, i);
    lemma_index_at_extend(a.type_aliases@, b.type_aliases@, m, i);
    lemma_index_at_extend(a.constants@, b.constants@, m, i);
    crate::scope::lemma_index_at_pub(a.contracts@, m, i);
    crate::scope::lemma_index_at_pub(a.structs@, m, i);
    crate::scope::lemma_index_at_pub(a.functions@, m, i);
    crate::scope::lemma_index_at_pub(a.events@, m, i);
    crate::scope::lemma_index_at_pub(a.type_aliases@, m, i);
    crate::scope::lemma_index_at_pub(a.constants@, m, i);
    if let Some(j) = index_at(a.contracts@, m, i) { assert(b.contracts@[j] == a.contracts@[j]); }
    if let Some(j) = index_at(a.structs@, m, i) { assert(b.structs@[j] == a.structs@[j]); }
    if let Some(j) = index_at(a.functions@, m, i) { assert(b.functions@[j] == a.functions@[j]); }
    if let Some(j) = index_at(a.events@, m, i) { assert(b.events@[j] == a.events@[j]); }
    if let Some(j) = index_at(a.type_aliases@, m, i) { assert(b.type_aliases@[j] == a.type_aliases@[j]); }
    if let Some(j) = index_at(a.constants@, m, i) { assert(b.constants@[j] == a.constants@[j]); }
    lemma_keys_extend(a.contract_fields@, b.contract_fields@);
    lemma_keys_extend(a.struct_fields@, b.struct_fields@);
    lemma_keys_extend(a.functions@, b.functions@);
    lemma_keys_extend(a.events@, b.events@);
    match s {
        ast::ModuleStmt::Contract(c) => {
            let j = index_at(a.contracts@, m, i)->0;
            let cid = ContractId(j as u32);
            assert forall|jj: int| 0 <= jj < c.fields@.len() implies ((#[trigger] first_index(keys_of(b.contract_fields@), (cid, jj as usize))) matches Some(k)
                && same_field(b.contract_fields@[k].ast, c.fields@[jj])) by {
                assert(first_index(keys_of(a.contract_fields@), (cid, jj as usize)) is Some);
                let q = first_index(keys_of(a.contract_fields@), (cid, jj as usize))->0;
                lemma_first_index_extend(keys_of(a.contract_fields@), keys_of(b.contract_fields@), (cid, jj as usize));
                lemma_first_index(keys_of(a.contract_fields@), (cid, jj as usize));
            }
            assert forall|jj: int| 0 <= jj < c.functions@.len() implies ((#[trigger] first_index(keys_of(b.functions@), (m, Some(Class::Contract(cid)), jj as usize))) matches Some(k)
                && same_function(b.functions@[k].ast, c.functions@[jj])) by {
                assert(first_index(keys_of(a.functions@), (m, Some(Class::Contract(cid)), jj as usize)) is Some);
                lemma_first_index_extend(keys_of(a.functions@), keys_of(b.functions@), (m, Some(Class::Contract(cid)), jj as usize));
                lemma_first_index(keys_of(a.functions@), (m, Some(Class::Contract(cid)), jj as usize));
            }
            assert forall|jj: int| 0 <= jj < c.events@.len() implies ((#[trigger] first_index(keys_of(b.events@), (m, Some(cid), jj as usize))) matches Some(k)
                && same_event(b.events@[k].ast, c.events@[jj])) by {
                assert(first_index(keys_of(a.events@), (m, Some(cid), jj as usize)) is Some);
                lemma_first_index_extend(keys_of(a.events@), keys_of(b.events@), (m, Some(cid), jj as usize));
                lemma_first_index(keys_of(a.events@), (m, Some(cid), jj as usize));
            }
        },
        ast::ModuleStmt::Struct(st) => {
            let j = index_at(a.structs@, m, i)->0;
            let sid = StructId(j as u32);
            assert forall|jj: int| 0 <= jj < st.fields@.len() implies ((#[trigger] first_index(keys_of(b.struct_fields@), (sid, jj as usize))) matches Some(k)
                && same_field(b.struct_fields@[k].ast, st.fields@[jj])) by {
                assert(first_index(keys_of(a.struct_fields@), (sid, jj as usize)) is Some);
                lemma_first_index_extend(keys_of(a.struct_fields@), keys_of(b.struct_fields@), (sid, jj as usize));
                lemma_first_index(keys_of(a.struct_fields@), (sid, jj as usize));
            }
            assert forall|jj: int| 0 <= jj < st.functions@.len() implies ((#[trigger] first_index(keys_of(b.functions@), (m, Some(Class::Struct(sid)), jj as usize))) matches Some(k)
                && same_function(b.functions@[k].ast, st.functions@[jj])) by {
                assert(first_index(keys_of(a.functions@), (m, Some(Class::Struct(sid)), jj as usize)) is Some);
                lemma_first_index_extend(keys_of(a.functions@), keys_of(b.functions@), (m, Some(Class::Struct(sid)), jj as usize));
                lemma_first_index(keys_of(a.functions@), (m, Some(Class::Struct(sid)), jj as usize));
            }
        },
        _ => {},
    }
}

impl Db {
    /// Interns the fields `fs` of contract `o`, the `j`-th keyed `(o, j)`.
    fn add_contract_fields(&mut self, o: ContractId, fs: &Vec<ast::Field>) -> (r: Result<(), IdSpaceFull>)
        requires
            old(self).wf(),
            (o.0 as int) < old(self).contracts@.len(),
            forall|k: int| 0 <= k < old(self).contract_fields@.len() ==> (#[trigger] old(self).contract_fields@[k]).parent != o,
        ensures
            r is Err ==> is_full(*final(self)),
            final(self).wf(),
            adds_entities(*old(self), *final(self)),
            unchanged_except(*old(self), *final(self), 1),
            r is Ok ==> forall|j: int| 0 <= j < fs@.len() ==> ((#[trigger] first_index(keys_of(final(self).contract_fields@), (o, j as usize))) matches Some(q)
                && same_field(final(self).contract_fields@[q].ast, fs@[j])),
    {
        let mut j: usize = 0;
        while j < fs.len()
            invariant
                j <= fs@.len(),
                self.wf(),
                adds_entities(*old(self), *self),
                unchanged_except(*old(self), *self, 1),
                (o.0 as int) < self.contracts@.len(),
                forall|q: int| 0 <= q < self.contract_fields@.len() && (#[trigger] self.contract_fields@[q]).parent == o ==> self.contract_fields@[q].index < j,
                forall|j2: int| 0 <= j2 < j ==> ((#[trigger] first_index(keys_of(self.contract_fields@), (o, j2 as usize))) matches Some(q)
                    && same_field(self.contract_fields@[q].ast, fs@[j2])),
            decreases fs@.len() - j,
        {
            let ghost before = *self;
            let rec = ContractField { parent: o, index: j, ast: copy_field(&fs[j]) };
            let ghost r0 = rec;
            let res = self.add_contract_field(rec);
            proof {
                lemma_adds_entities_trans(*old(self), before, *self);
            }
            match res {
                Err(e) => {
                    return Err(e);
                },
                Ok(_) => {},
            }
            proof {
                let kb = keys_of(before.contract_fields@);
                lemma_first_index(kb, (o, j));
                if self.contract_fields@ == before.contract_fields@ {
                    let q = first_index(kb, (o, j))->0;
                    assert(kb[q] == before.contract_fields@[q].key());
                    assert(false);
                }
                assert(self.contract_fields@ == before.contract_fields@.push(r0));
                assert(keys_of(self.contract_fields@) =~= kb.push(r0.key()));
                assert forall|j2: int| 0 <= j2 < j + 1 implies ((#[trigger] first_index(keys_of(self.contract_fields@), (o, j2 as usize))) matches Some(q)
                    && same_field(self.contract_fields@[q].ast, fs@[j2])) by {
                    if j2 < j {
                        lemma_first_index_extend(kb, keys_of(self.contract_fields@), (o, j2 as usize));
                        lemma_first_index(kb, (o, j2 as usize));
                    } else {
                        assert(keys_of(self.contract_fields@).drop_last() =~= kb);
                    }
                }
            }
            j = j + 1;
        }
        Ok(())
    }

    /// Interns the fields `fs` of struct `o`, the `j`-th keyed `(o, j)`.
    fn add_struct_fields(&mut self, o: StructId, fs: &Vec<ast::Field>) -> (r: Result<(), IdSpaceFull>)
        requires
            old(self).wf(),
            (o.0 as int) < old(self).structs@.len(),
            forall|k: int| 0 <= k < old(self).struct_fields@.len() ==> (#[trigger] old(self).struct_fields@[k]).parent != o,
        ensures
            r is Err ==> is_full(*final(self)),
            final(self).wf(),
            adds_entities(*old(self), *final(self)),
            unchanged_except(*old(self), *final(self), 3),
            r is Ok ==> forall|j: int| 0 <= j < fs@.len() ==> ((#[trigger] first_index(keys_of(final(self).struct_fields@), (o, j as usize))) matches Some(q)
                && same_field(final(self).struct_fields@[q].ast, fs@[j])),
    {
        let mut j: usize = 0;
        while j < fs.len()
            invariant
                j <= fs@.len(),
                self.wf(),
                adds_entities(*old(self), *self),
                unchanged_except(*old(self), *self, 3),
                (o.0 as int) < self.structs@.len(),
                forall|q: int| 0 <= q < self.struct_fields@.len() && (#[trigger] self.struct_fields@[q]).parent == o ==> self.struct_fields@[q].index < j,
                forall|j2: int| 0 <= j2 < j ==> ((#[trigger] first_index(keys_of(self.struct_fields@), (o, j2 as usize))) matches Some(q)
                    && same_field(self.struct_fields@[q].ast, fs@[j2])),
            decreases fs@.len() - j,
        {
            let ghost before = *self;
            let rec = StructField { parent: o, index: j, ast: copy_field(&fs[j]) };
            let ghost r0 = rec;
            let res = self.add_struct_field(rec);
            proof {
                lemma_adds_entities_trans(*old(self), before, *self);
            }
            match res {
                Err(e) => {
                    return Err(e);
                },
                Ok(_) => {},
            }
            proof {
                let kb = keys_of(before.struct_fields@);
                lemma_first_index(kb, (o, j));
                if self.struct_fields@ == before.struct_fields@ {
                    let q = first_index(kb, (o, j))->0;
                    assert(kb[q] == before.struct_fields@[q].key());
                    assert(false);
                }
                assert(self.struct_fields@ == before.struct_fields@.push(r0));
                assert(keys_of(self.struct_fields@) =~= kb.push(r0.key()));
                assert forall|j2: int| 0 <= j2 < j + 1 implies ((#[trigger] first_index(keys_of(self.struct_fields@), (o, j2 as usize))) matches Some(q)
                    && same_field(self.struct_fields@[q].ast, fs@[j2])) by {
                    if j2 < j {
                        lemma_first_index_extend(kb, keys_of(self.struct_fields@), (o, j2 as usize));
                        lemma_first_index(kb, (o, j2 as usize));
                    } else {
                        assert(keys_of(self.struct_fields@).drop_last() =~= kb);
                    }
                }
            }
            j = j + 1;
        }
        Ok(())
    }

    /// Interns the member functions `fs` of class `c` of module `m`, the
    /// `j`-th keyed `(m, Some(c), j)`.
    fn add_member_functions(&mut self, m: ModuleId, c: Class, fs: &Vec<ast::Function>) -> (r: Result<(), IdSpaceFull>)
        requires
            old(self).wf(),
            (m.0 as int) < old(self).modules@.len(),
            old(self).class_ok(c),
            forall|k: int| 0 <= k < old(self).functions@.len() ==> (#[trigger] old(self).functions@[k]).parent != Some(c),
        ensures
            r is Err ==> is_full(*final(self)),
            final(self).wf(),
            adds_entities(*old(self), *final(self)),
            unchanged_except(*old(self), *final(self), 4),
            forall|k: int| old(self).functions@.len() <= k < final(self).functions@.len() ==> (#[trigger] final(self).functions@[k]).parent == Some(c),
            r is Ok ==> forall|j: int| 0 <= j < fs@.len() ==> ((#[trigger] first_index(keys_of(final(self).functions@), (m, Some(c), j as usize))) matches Some(q)
                && same_function(final(self).functions@[q].ast, fs@[j])),
    {
        let mut j: usize = 0;
        while j < fs.len()
            invariant
                j <= fs@.len(),
                self.wf(),
                adds_entities(*old(self), *self),
                unchanged_except(*old(self), *self, 4),
                (m.0 as int) < self.modules@.len(),
                self.class_ok(c),
                forall|k: int| old(self).functions@.len() <= k < self.functions@.len() ==> (#[trigger] self.functions@[k]).parent == Some(c),
                forall|q: int| 0 <= q < self.functions@.len() && (#[trigger] self.functions@[q]).parent == Some(c) ==> self.functions@[q].index < j,
                forall|j2: int| 0 <= j2 < j ==> ((#[trigger] first_index(keys_of(self.functions@), (m, Some(c), j2 as usize))) matches Some(q)
                    && same_function(self.functions@[q].ast, fs@[j2])),
            decreases fs@.len() - j,
        {
            let ghost before = *self;
            let rec = Function { module: m, parent: Some(c), index: j, ast: copy_function(&fs[j]) };
            let ghost r0 = rec;
            let res = self.add_function(rec);
            proof {
                lemma_adds_entities_trans(*old(self), before, *self);
            }
            match res {
                Err(e) => {
                    return Err(e);
                },
                Ok(_) => {},
            }
            proof {
                let kb = keys_of(before.functions@);
                lemma_first_index(kb, (m, Some(c), j));
                if self.functions@ == before.functions@ {
                    let q = first_index(kb, (m, Some(c), j))->0;
                    assert(kb[q] == before.functions@[q].key());
                    assert(false);
                }
                assert(self.functions@ == before.functions@.push(r0));
                assert(keys_of(self.functions@) =~= kb.push(r0.key()));
                assert forall|j2: int| 0 <= j2 < j + 1 implies ((#[trigger] first_index(keys_of(self.functions@), (m, Some(c), j2 as usize))) matches Some(q)
                    && same_function(self.functions@[q].ast, fs@[j2])) by {
                    if j2 < j {
                        lemma_first_index_extend(kb, keys_of(self.functions@), (m, Some(c), j2 as usize));
                        lemma_first_index(kb, (m, Some(c), j2 as usize));
                    } else {
                        assert(keys_of(self.functions@).drop_last() =~= kb);
                    }
                }
            }
            j = j + 1;
        }
        Ok(())
    }

    /// Interns the events `es` of contract `c` of module `m`, the `j`-th keyed
    /// `(m, Some(c), j)`.
    fn add_member_events(&mut self, m: ModuleId, c: ContractId, es: &Vec<ast::Event>) -> (r: Result<(), IdSpaceFull>)
        requires
            old(self).wf(),
            (m.0 as int) < old(self).modules@.len(),
            (c.0 as int) < old(self).contracts@.len(),
            forall|k: int| 0 <= k < old(self).events@.len() ==> (#[trigger] old(self).events@[k]).contract != Some(c),
        ensures
            r is Err ==> is_full(*final(self)),
            final(self).wf(),
            adds_entities(*old(self), *final(self)),
            unchanged_except(*old(self), *final(self), 5),
            forall|k: int| old(self).events@.len() <= k < final(self).events@.len() ==> (#[trigger] final(self).events@[k]).contract == Some(c),
            r is Ok ==> forall|j: int| 0 <= j < es@.len() ==> ((#[trigger] first_index(keys_of(final(self).events@), (m, Some(c), j as usize))) matches Some(q)
                && same_event(final(self).events@[q].ast, es@[j])),
    {
        let mut j: usize = 0;
        while j < es.len()
            invariant
                j <= es@.len(),
                self.wf(),
                adds_entities(*old(self), *self),
                unchanged_except(*old(self), *self, 5),
                (m.0 as int) < self.modules@.len(),
                (c.0 as int) < self.contracts@.len(),
                forall|k: int| old(self).events@.len() <= k < self.events@.len() ==> (#[trigger] self.events@[k]).contract == Some(c),
                forall|q: int| 0 <= q < self.events@.len() && (#[trigger] self.events@[q]).contract == Some(c) ==> self.events@[q].index < j,
                forall|j2: int| 0 <= j2 < j ==> ((#[trigger] first_index(keys_of(self.events@), (m, Some(c), j2 as usize))) matches Some(q)
                    && same_event(self.events@[q].ast, es@[j2])),
            decreases es@.len() - j,
        {
            let ghost before = *self;
            let rec = Event { module: m, contract: Some(c), index: j, ast: copy_event(&es[j]) };
            let ghost r0 = rec;
            let res = self.add_event(rec);
            proof {
                lemma_adds_entities_trans(*old(self), before, *self);
            }
            match res {
                Err(e) => {
                    return Err(e);
                },
                Ok(_) => {},
            }
            proof {
                let kb = keys_of(before.events@);
                lemma_first_index(kb, (m, Some(c), j));
                if self.events@ == before.events@ {
                    let q = first_index(kb, (m, Some(c), j))->0;
                    assert(kb[q] == before.events@[q].key());
                    assert(false);
                }
                assert(self.events@ == before.events@.push(r0));
                assert(keys_of(self.events@) =~= kb.push(r0.key()));
                assert forall|j2: int| 0 <= j2 < j + 1 implies ((#[trigger] first_index(keys_of(self.events@), (m, Some(c), j2 as usize))) matches Some(q)
                    && same_event(self.events@[q].ast, es@[j2])) by {
                    if j2 < j {
                        lemma_first_index_extend(kb, keys_of(self.events@), (m, Some(c), j2 as usize));
                        lemma_first_index(kb, (m, Some(c), j2 as usize));
                    } else {
                        assert(keys_of(self.events@).drop_last() =~= kb);
                    }
                }
            }
            j = j + 1;
        }
        Ok(())
    }
}

impl Db {
    /// Interns the entities that module `m`'s declarations define: one for
    /// each declaring statement, in the table of its kind and at that
    /// statement's index, and one for each field, function and event of a
    /// contract and each field and function of a struct.
    pub fn intern_declarations(&mut self, m: ModuleId) -> (r: Result<(), IdSpaceFull>)
        requires
            old(self).wf(),
            (m.0 as int) < old(self).modules@.len(),
            forall|i: usize| #[trigger] untouched(*old(self), m, i),
        ensures
            r is Err ==> is_full(*final(self)),
            final(self).wf(),
            adds_entities(*old(self), *final(self)),
            r is Ok ==> forall|i: int| 0 <= i < module_body(final(self), m).len() ==> decl_ok(
                *final(self),
                m,
                i as usize,
                #[trigger] module_body(final(self), m)[i],
            ),
    {
        let n = self.module_ast(m).body.len();
        let ghost body = module_body(self, m);
        let mut i: usize = 0;
        while i < n
            invariant
                self.wf(),
                adds_entities(*old(self), *self),
                (m.0 as int) < self.modules@.len(),
                n == body.len(),
                body == module_body(self, m),
                i <= n,
                forall|i2: usize| i2 >= i ==> #[trigger] untouched(*self, m, i2),
                forall|i2: int| 0 <= i2 < i ==> decl_ok(*self, m, i2 as usize, #[trigger] body[i2]),
            decreases n - i,
        {
            let ghost before = *self;
            let b = &self.module_ast(m).body;
            let stmt = copy_stmt(&b[i]);
            assert(same_stmt(stmt, body[i as int]));
            let res = self.intern_statement(m, i, &stmt);
            proof {
                lemma_adds_entities_trans(*old(self), before, *self);
            }
            if res.is_err() {
                return Err(IdSpaceFull);
            }
            proof {
                assert(body == module_body(self, m));
                assert forall|i2: int| 0 <= i2 < i implies decl_ok(*self, m, i2 as usize, #[trigger] body[i2]) by {
                    lemma_decl_ok_extend(before, *self, m, i2 as usize, body[i2]);
                }
                lemma_same_stmt_decl_ok(*self, m, i, stmt, body[i as int]);
            }
            i = i + 1;
        }
        Ok(())
    }
}

/// Whether `d` is one of `v`.
fn contains_components(v: &Vec<Vec<String>>, d: &Vec<String>) -> (r: bool)
    ensures
        r == views(v@).contains(strs(d@)),
{
    let mut i: usize = 0;
    while i < v.len()
        invariant
            i <= v@.len(),
            forall|j: int| 0 <= j < i ==> views(v@)[j] != strs(d@),
        decreases v@.len() - i,
    {
        if same_strings(&v[i], d) {
            assert(views(v@)[i as int] == strs(d@));
            return true;
        }
        i = i + 1;
    }
    false
}

/// The place in the module tree of a file below the source directory.
fn module_place_of(rel: &Vec<String>) -> (r: Vec<String>)
    ensures
        strs(r@) == module_place(strs(rel@)),
{
    let n = rel.len();
    if n == 0 {
        return Vec::new();
    }
    let mut r = take_components(rel, n - 1);
    let last = strip_fe_suffix(&rel[n - 1]);
    let ghost before = strs(r@);
    r.push(last);
    assert(strs(r@) =~= before.push(strip_fe(rel@[n - 1]@)));
    assert(strs(rel@).take(n - 1) =~= strs(rel@).drop_last());
    r
}

/// The directories that the paths `rels` lie below, each once, deepest first
/// for each path in turn.
fn collect_dirs(rels: &Vec<Vec<String>>) -> (r: Vec<Vec<String>>)
    ensures
        forall|j: int| 0 <= j < r@.len() ==> is_dir_in(views(rels@), #[trigger] views(r@)[j]),
        forall|a: int, b: int| 0 <= a < b < r@.len() ==> views(r@)[a] != views(r@)[b],
        forall|d: Seq<Seq<char>>| is_dir_in(views(rels@), d) ==> #[trigger] views(r@).contains(d),
{
    let ghost rs = views(rels@);
    let mut dirs: Vec<Vec<String>> = Vec::new();
    let mut i: usize = 0;
    while i < rels.len()
        invariant
            i <= rels@.len(),
            rs == views(rels@),
            forall|j: int| 0 <= j < dirs@.len() ==> is_dir_in(rs, #[trigger] views(dirs@)[j]),
            forall|a: int, b: int| 0 <= a < b < dirs@.len() ==> views(dirs@)[a] != views(dirs@)[b],
            forall|i2: int, k: int|
                0 <= i2 < i && 1 <= k < rs[i2].len() ==> views(dirs@).contains(#[trigger] rs[i2].take(k)),
        decreases rels@.len() - i,
    {
        let r = &rels[i];
        assert(rs[i as int] == strs(r@));
        let mut k: usize = r.len();
        while k > 1
            invariant
                i < rels@.len(),
                rs == views(rels@),
                rs[i as int] == strs(r@),
                k <= r@.len(),
                forall|j: int| 0 <= j < dirs@.len() ==> is_dir_in(rs, #[trigger] views(dirs@)[j]),
                forall|a: int, b: int| 0 <= a < b < dirs@.len() ==> views(dirs@)[a] != views(dirs@)[b],
                forall|i2: int, k2: int|
                    0 <= i2 < i && 1 <= k2 < rs[i2].len() ==> views(dirs@).contains(#[trigger] rs[i2].take(k2)),
                forall|k2: int| k <= k2 < r@.len() && k2 >= 1 ==> views(dirs@).contains(#[trigger] rs[i as int].take(k2)),
            decreases k,
        {
            k = k - 1;
            let d = take_components(r, k);
            let ghost dv = strs(d@);
            assert(dv == rs[i as int].take(k as int));

            assert(is_dir_in(rs, dv)) by {
                assert(1 <= dv.len() < rs[i as int].len() && rs[i as int].take(dv.len() as int) == dv);
            }
            if !contains_components(&dirs, &d) {
                let ghost before = views(dirs@);
                dirs.push(d);
                proof {
                    assert(views(dirs@) =~= before.push(dv));
                    assert forall|x: Seq<Seq<char>>| before.contains(x) implies views(dirs@).contains(x) by {
                        let j = choose|j: int| 0 <= j < before.len() && before[j] == x;
                        assert(views(dirs@)[j] == x);
                    }
                    assert(views(dirs@)[before.len() as int] == dv);
                }
            }
        }
        i = i + 1;
    }
    proof {
        assert forall|d: Seq<Seq<char>>| is_dir_in(rs, d) implies #[trigger] views(dirs@).contains(d) by {
            let i2 = choose|i2: int| 0 <= i2 < rs.len() && 1 <= d.len() < rs[i2].len() && #[trigger] rs[i2].take(d.len() as int) == d;
            assert(views(dirs@).contains(rs[i2].take(d.len() as int)));
        }
    }
    dirs
}

/// The components of each file's path.
fn all_file_components(files: &Vec<ParsedFile>) -> (r: Vec<Vec<String>>)
    ensures
        views(r@) == file_components(files@),
        forall|i: int| 0 <= i < r@.len() ==> (#[trigger] r@[i])@.len() >= 1,
{
    let mut r: Vec<Vec<String>> = Vec::new();
    let mut i: usize = 0;
    while i < files.len()
        invariant
            i <= files@.len(),
            views(r@) == file_components(files@).take(i as int),
            forall|k: int| 0 <= k < r@.len() ==> (#[trigger] r@[k])@.len() >= 1,
        decreases files@.len() - i,
    {
        let c = path_components(files[i].path.as_str());
        let ghost before = views(r@);
        r.push(c);
        assert(views(r@) =~= before.push(strs(c@)));
        assert(file_components(files@).take(i as int + 1) =~= file_components(files@).take(i as int).push(
            components(files@[i as int].path@),
        ));
        i = i + 1;
    }
    assert(file_components(files@).take(i as int) =~= file_components(files@));
    r
}

/// The source directory's components.
fn compute_prefix(comps: &Vec<Vec<String>>) -> (r: Vec<String>)
    requires
        comps@.len() >= 1,
    ensures
        strs(r@) == src_prefix(views(comps@)),
{
    let ghost cs = views(comps@);
    assert(cs[0] == strs(comps@[0]@));
    if comps.len() == 1 {
        let c = &comps[0];
        if c.len() == 0 {
            return take_components(c, 0);
        }
        let r = take_components(c, c.len() - 1);
        assert(strs(c@).take(c@.len() - 1) =~= strs(c@).drop_last());
        return r;
    }
    let mut p = take_components(&comps[0], comps[0].len());
    assert(strs(comps@[0]@).take(comps@[0]@.len() as int) =~= cs[0]);
    assert(cs.take(1) =~= seq![cs[0]]);
    let mut k: usize = 1;
    while k < comps.len()
        invariant
            1 <= k <= comps@.len(),
            cs == views(comps@),
            strs(p@) == reduce_prefix(cs.take(k as int)),
        decreases comps@.len() - k,
    {
        p = common_prefix_of(&p, &comps[k]);
        assert(cs.take(k as int + 1).drop_last() =~= cs.take(k as int));
        assert(cs.take(k as int + 1).last() == strs(comps@[k as int]@));
        k = k + 1;
    }
    assert(cs.take(k as int) =~= cs);
    p
}

/// The index of the root module's file.
fn find_root(rels: &Vec<Vec<String>>, mode: IngotMode) -> (r: Option<usize>)
    ensures
        r matches Some(k) ==> (k as int) < rels@.len(),
        match r {
            Some(k) => root_index(views(rels@), mode) == Some(k as int),
            None => root_index(views(rels@), mode) is None,
        },
{
    let ghost rs = views(rels@);
    let target = match mode {
        IngotMode::StandaloneModule => {
            if rels.len() > 0 {
                return Some(0);
            } else {
                return None;
            }
        },
        IngotMode::Main => vec![String::from_str("main.fe")],
        IngotMode::Lib => vec![String::from_str("lib.fe")],
    };
    assert(strs(target@) =~= root_file(mode));
    let mut i: usize = 0;
    while i < rels.len()
        invariant
            i <= rels@.len(),
            rs == views(rels@),
            mode != IngotMode::StandaloneModule,
            strs(target@) == root_file(mode),
            forall|j: int| 0 <= j < i ==> rs[j] != root_file(mode),
        decreases rels@.len() - i,
    {
        if same_strings(&rels[i], &target) {
            proof {
                assert(rs[i as int] == root_file(mode));
                let c = choose|c: int|
                    0 <= c < rs.len() && rs[c] == root_file(mode) && forall|j: int|
                        0 <= j < c ==> rs[j] != root_file(mode);
                assert(c == i);
            }
            return Some(i);
        }
        i = i + 1;
    }
    None
}

/// File module `k` of `mods` is that of the `k`-th file.
pub open spec fn file_module_ok(db: Db, ingot: IngotId, m: ModuleId, cs: Seq<Seq<Seq<char>>>, k: int) -> bool {
    &&& (m.0 as int) < db.modules@.len()
    &&& db.modules@[m.0 as int].ingot == ingot
    &&& db.modules@[m.0 as int].name@ == stem_of(cs[k].last())
    &&& db.modules@[m.0 as int].source is File
    &&& strs(db.modules@[m.0 as int].rel@) == module_place(file_rel(cs, k))
}

/// `m` is a directory module of the ingot.
pub open spec fn dir_module_ok(db: Db, ingot: IngotId, m: ModuleId, cs: Seq<Seq<Seq<char>>>) -> bool {
    &&& (m.0 as int) < db.modules@.len()
    &&& db.modules@[m.0 as int].ingot == ingot
    &&& is_dir_module(cs, strs(db.modules@[m.0 as int].rel@))
    &&& db.modules@[m.0 as int].source matches ModuleSource::Dir(p) && p@ == join_path(
        strs(db.modules@[m.0 as int].rel@),
    )
    &&& db.modules@[m.0 as int].name@ == strs(db.modules@[m.0 as int].rel@).last()
}

/// Each file's path below the source directory, and its place in the tree.
fn compute_rels(comps: &Vec<Vec<String>>, prefix: &Vec<String>) -> (r: (Vec<Vec<String>>, Vec<Vec<String>>))
    requires
        comps@.len() >= 1,
        strs(prefix@) == src_prefix(views(comps@)),
    ensures
        views(r.0@) == file_rels(views(comps@)),
        views(r.1@) == file_rels(views(comps@)).map_values(|x: Seq<Seq<char>>| module_place(x)),
{
    let ghost cs = views(comps@);
    proof {
        lemma_src_prefix(cs);
    }
    let mut rels: Vec<Vec<String>> = Vec::new();
    let mut places: Vec<Vec<String>> = Vec::new();
    let mut i: usize = 0;
    while i < comps.len()
        invariant
            i <= comps@.len(),
            cs == views(comps@),
            forall|k: int| 0 <= k < cs.len() ==> is_prefix(src_prefix(cs), #[trigger] cs[k]),
            strs(prefix@) == src_prefix(cs),
            views(rels@) == file_rels(cs).take(i as int),
            views(places@) == file_rels(cs).map_values(|x: Seq<Seq<char>>| module_place(x)).take(i as int),
        decreases comps@.len() - i,
    {
        assert(cs[i as int] == strs(comps@[i as int]@));
        let r = skip_components(&comps[i], prefix.len());
        let p = module_place_of(&r);
        let ghost (b1, b2) = (views(rels@), views(places@));
        rels.push(r);
        places.push(p);
        assert(views(rels@) =~= b1.push(strs(r@)));
        assert(views(places@) =~= b2.push(strs(p@)));
        assert(file_rels(cs).take(i as int + 1) =~= file_rels(cs).take(i as int).push(file_rel(cs, i as int)));
        assert(file_rels(cs).map_values(|x: Seq<Seq<char>>| module_place(x)).take(i as int + 1)
            =~= file_rels(cs).map_values(|x: Seq<Seq<char>>| module_place(x)).take(i as int).push(module_place(file_rel(cs, i as int))));
        i = i + 1;
    }
    assert(file_rels(cs).take(i as int) =~= file_rels(cs));
    assert(file_rels(cs).map_values(|x: Seq<Seq<char>>| module_place(x)).take(i as int)
        =~= file_rels(cs).map_values(|x: Seq<Seq<char>>| module_place(x)));
    (rels, places)
}

/// Adds a module for each file, with the entities of its declarations.
fn add_file_modules(
    db: &mut Db,
    ingot: IngotId,
    file_kind: FileKind,
    files: &Vec<ParsedFile>,
    comps: &Vec<Vec<String>>,
    rels: &Vec<Vec<String>>,
) -> (r: Result<Vec<ModuleId>, IdSpaceFull>)
    requires
        old(db).wf(),
        (ingot.0 as int) < old(db).ingots@.len(),
        comps@.len() == files@.len(),
        views(comps@) == file_components(files@),
        forall|k: int| 0 <= k < comps@.len() ==> (#[trigger] comps@[k])@.len() >= 1,
        views(rels@) == file_rels(views(comps@)),
    ensures
        r is Err ==> is_full(*final(db)),
        final(db).wf(),
        final(db).ingots@ == old(db).ingots@,
        final(db).ingot_data@ == old(db).ingot_data@,
        grows(*old(db), *final(db)),
        r matches Ok(mods) ==> mods@.len() == files@.len() && forall|k: int|
            0 <= k < mods@.len() ==> file_module_ok(*final(db), ingot, #[trigger] mods@[k], views(comps@), k),
        r matches Ok(mods) ==> forall|k: int|
            0 <= k < mods@.len() ==> file_decls_ok(*final(db), #[trigger] mods@[k], files@[k]),
{
    let ghost cs = views(comps@);
    let n = files.len();
    assert(views(rels@).len() == rels@.len());
    assert(views(comps@).len() == comps@.len());
    let mut mods: Vec<ModuleId> = Vec::new();
    let mut i: usize = 0;
    while i < n
        invariant
            i <= n,
            n == files@.len(),
            n == comps@.len(),
            cs == views(comps@),
            forall|k: int| 0 <= k < n ==> (#[trigger] comps@[k])@.len() >= 1,
            views(rels@) == file_rels(cs),
            rels@.len() == n,
            db.wf(),
            (ingot.0 as int) < db.ingots@.len(),
            db.ingots@ == old(db).ingots@,
            db.ingot_data@ == old(db).ingot_data@,
            mods@.len() == i,
            forall|k: int| 0 <= k < i ==> file_module_ok(*db, ingot, #[trigger] mods@[k], cs, k),
            forall|k: int| 0 <= k < i ==> file_decls_ok(*db, #[trigger] mods@[k], files@[k]),
            grows(*old(db), *db),
        decreases n - i,
    {
        let ghost before = *db;
        let f = &files[i];
        let fid = db.add_file(
            SourceFile {
                kind: file_kind,
                path: f.path.clone(),
                ast: copy_module(&f.ast),
                diagnostics: f.diagnostics.clone(),
                incomplete: f.incomplete,
            },
        )?;
        let c = &comps[i];
        assert(cs[i as int] == strs(c@));
        let mname = file_stem(&c[c.len() - 1]);
        assert(views(rels@)[i as int] == strs(rels@[i as int]@));
        let place = module_place_of(&rels[i]);
        let ghost after_file = *db;
        let rec = Module { name: mname, ingot, source: ModuleSource::File(fid), rel: place };
        let ghost r0 = rec;
        let mid = db.intern_module(rec)?;
        let ghost after_module = *db;
        proof {
            if db.modules@ == after_file.modules@ {
                lemma_first_index(keys_of(after_file.modules@), r0.key());
                let q = mid.0 as int;
                assert(keys_of(after_file.modules@)[q] == after_file.modules@[q].key());
                assert(before.module_ok(q));
                assert(after_file.modules@[q] == before.modules@[q]);
                assert(false);
            }
            assert(db.modules@ == after_file.modules@.push(r0));
            assert forall|x: usize| #[trigger] untouched(*db, mid, x) by {
                lemma_fresh_untouched(after_file, mid, x);
                assert(after_file.contracts@ == db.contracts@);
            }
        }
        let res = db.intern_declarations(mid);
        if res.is_err() {
            return Err(IdSpaceFull);
        }
        mods.push(mid);
        proof {
            let body = db.files@[fid.0 as int].ast.body@;
            assert(module_body(db, mid) == body);
            assert forall|k: int| 0 <= k < f.ast.body@.len() implies decl_ok(*db, mid, k as usize, #[trigger] f.ast.body@[k]) by {
                assert(same_stmt(body[k], f.ast.body@[k]));
                lemma_same_stmt_decl_ok(*db, mid, k as usize, body[k], f.ast.body@[k]);
            }
            assert(file_decls_ok(*db, mid, files@[i as int]));
            assert forall|k: int| 0 <= k < i implies file_decls_ok(*db, #[trigger] mods@[k], files@[k]) by {
                let mk = mods@[k];
                assert(file_decls_ok(before, mk, files@[k]));
                assert(before.modules@[mk.0 as int] == db.modules@[mk.0 as int]);
                assert forall|kk: int| 0 <= kk < files@[k].ast.body@.len() implies decl_ok(*db, mk, kk as usize, #[trigger] files@[k].ast.body@[kk]) by {
                    lemma_decl_ok_extend(before, *db, mk, kk as usize, files@[k].ast.body@[kk]);
                }
                if let ModuleSource::File(fk) = before.modules@[mk.0 as int].source {
                    assert(before.files@[fk.0 as int] == db.files@[fk.0 as int]);
                }
            }
            assert forall|k: int| 0 <= k < i + 1 implies file_module_ok(*db, ingot, #[trigger] mods@[k], cs, k) by {
                let m = mods@[k];
                if k < i {
                    assert(before.modules@[m.0 as int] == db.modules@[m.0 as int]);
                } else {
                    assert(after_module.modules@[mid.0 as int] == db.modules@[mid.0 as int]);
                    assert(cs[k].last() == c@[c@.len() - 1]@);
                    assert(file_rels(cs)[k] == file_rel(cs, k));
                }
            }
        }
        i = i + 1;
    }
    Ok(mods)
}

/// Adds a module for each directory of `dirs` that no file stands for.
#[verifier::rlimit(80)]
fn add_dir_modules(
    db: &mut Db,
    ingot: IngotId,
    dirs: &Vec<Vec<String>>,
    places: &Vec<Vec<String>>,
    Ghost(cs): Ghost<Seq<Seq<Seq<char>>>>,
) -> (r: Result<Vec<ModuleId>, IdSpaceFull>)
    requires
        old(db).wf(),
        (ingot.0 as int) < old(db).ingots@.len(),
        views(places@) == file_rels(cs).map_values(|x: Seq<Seq<char>>| module_place(x)),
        forall|a: int| 0 <= a < dirs@.len() ==> is_dir_in(file_rels(cs), #[trigger] views(dirs@)[a]),
        forall|a: int, b: int| 0 <= a < b < dirs@.len() ==> views(dirs@)[a] != views(dirs@)[b],
    ensures
        grows(*old(db), *final(db)),
        unchanged_except(*old(db), *final(db), 8),
        r is Err ==> is_full(*final(db)),
        final(db).wf(),
        final(db).ingots@ == old(db).ingots@,
        final(db).ingot_data@ == old(db).ingot_data@,
        extends(old(db).modules@, final(db).modules@),
        r matches Ok(mods) ==> {
            &&& forall|k: int| 0 <= k < mods@.len() ==> dir_module_ok(*final(db), ingot, #[trigger] mods@[k], cs)
            &&& forall|a: int, b: int| 0 <= a < b < mods@.len() ==> strs(final(db).modules@[mods@[a].0 as int].rel@)
                != strs(final(db).modules@[mods@[b].0 as int].rel@)
            &&& forall|a: int| 0 <= a < dirs@.len() && !has_file_in(file_rels(cs), #[trigger] views(dirs@)[a])
                ==> exists|k: int| 0 <= k < mods@.len() && strs(final(db).modules@[mods@[k].0 as int].rel@) == views(dirs@)[a]
        },
{
    let ghost rs = file_rels(cs);
    let mut mods: Vec<ModuleId> = Vec::new();
    let mut j: usize = 0;
    while j < dirs.len()
        invariant
            grows(*old(db), *db),
            unchanged_except(*old(db), *db, 8),
            j <= dirs@.len(),
            rs == file_rels(cs),
            views(places@) == rs.map_values(|x: Seq<Seq<char>>| module_place(x)),
            forall|a: int| 0 <= a < dirs@.len() ==> is_dir_in(rs, #[trigger] views(dirs@)[a]),
            forall|a: int, b: int| 0 <= a < b < dirs@.len() ==> views(dirs@)[a] != views(dirs@)[b],
            db.wf(),
            (ingot.0 as int) < db.ingots@.len(),
            db.ingots@ == old(db).ingots@,
            db.ingot_data@ == old(db).ingot_data@,
            extends(old(db).modules@, db.modules@),
            forall|k: int| 0 <= k < mods@.len() ==> dir_module_ok(*db, ingot, #[trigger] mods@[k], cs),
            forall|k: int| 0 <= k < mods@.len() ==> exists|a: int| 0 <= a < j && views(dirs@)[a] == strs(db.modules@[(#[trigger] mods@[k]).0 as int].rel@),
            forall|a: int, b: int| 0 <= a < b < mods@.len() ==> strs(db.modules@[mods@[a].0 as int].rel@)
                != strs(db.modules@[mods@[b].0 as int].rel@),
            forall|a: int| 0 <= a < j && !has_file_in(rs, #[trigger] views(dirs@)[a]) ==> exists|k: int|
                0 <= k < mods@.len() && strs(db.modules@[mods@[k].0 as int].rel@) == views(dirs@)[a],
        decreases dirs@.len() - j,
    {
        let d = &dirs[j];
        assert(views(dirs@)[j as int] == strs(d@));
        if !contains_components(places, d) {
            proof {
                if has_file_in(rs, strs(d@)) {
                    let k = choose|k: int| 0 <= k < rs.len() && #[trigger] module_place(rs[k]) == strs(d@);
                    assert(views(places@)[k] == strs(d@));
                }
            }
            let dl = d.len();
            assert(is_dir_in(rs, strs(d@)));
            let mname = d[dl - 1].clone();
            let path = join_components(d);
            let rel = take_components(d, dl);
            assert(strs(d@).take(dl as int) =~= strs(d@));
            let ghost before = *db;
            let ghost old_mods = mods@;
            let mid = db.intern_module(
                Module { name: mname, ingot, source: ModuleSource::Dir(path), rel },
            )?;
            mods.push(mid);
            proof {
                assert(strs(db.modules@[mid.0 as int].rel@) == views(dirs@)[j as int]);
                assert forall|k: int| 0 <= k < mods@.len() implies dir_module_ok(*db, ingot, #[trigger] mods@[k], cs) by {
                    if k < old_mods.len() {
                        assert(before.modules@[mods@[k].0 as int] == db.modules@[mods@[k].0 as int]);
                        assert(dir_module_ok(before, ingot, old_mods[k], cs));
                    }
                }
                assert forall|k: int| 0 <= k < mods@.len() implies exists|a: int| 0 <= a < j + 1 && views(dirs@)[a] == strs(db.modules@[(#[trigger] mods@[k]).0 as int].rel@) by {
                    if k < old_mods.len() {
                        assert(before.modules@[mods@[k].0 as int] == db.modules@[mods@[k].0 as int]);
                        assert(old_mods[k] == mods@[k]);
                        let a = choose|a: int| 0 <= a < j && views(dirs@)[a] == strs(before.modules@[(old_mods[k]).0 as int].rel@);
                    } else {
                        assert(views(dirs@)[j as int] == strs(db.modules@[mods@[k].0 as int].rel@));
                    }
                }
                assert forall|a: int, b: int| 0 <= a < b < mods@.len() implies strs(db.modules@[mods@[a].0 as int].rel@)
                    != strs(db.modules@[mods@[b].0 as int].rel@) by {
                    assert(old_mods[a] == mods@[a]);
                    assert(before.modules@[mods@[a].0 as int] == db.modules@[mods@[a].0 as int]);
                    let aa = choose|aa: int| 0 <= aa < j && views(dirs@)[aa] == strs(before.modules@[(old_mods[a]).0 as int].rel@);
                    if b < old_mods.len() {
                        assert(old_mods[b] == mods@[b]);
                        assert(before.modules@[mods@[b].0 as int] == db.modules@[mods@[b].0 as int]);
                    } else {
                        assert(views(dirs@)[aa] != views(dirs@)[j as int]);
                    }
                }
                assert forall|a: int| 0 <= a < j + 1 && !has_file_in(rs, #[trigger] views(dirs@)[a]) implies exists|k: int|
                    0 <= k < mods@.len() && strs(db.modules@[mods@[k].0 as int].rel@) == views(dirs@)[a] by {
                    if a < j {
                        let k = choose|k: int| 0 <= k < old_mods.len() && strs(before.modules@[old_mods[k].0 as int].rel@) == views(dirs@)[a];
                        assert(old_mods[k] == mods@[k]);
                        assert(before.modules@[mods@[k].0 as int] == db.modules@[mods@[k].0 as int]);
                    } else {
                        assert(strs(db.modules@[mods@[old_mods.len() as int].0 as int].rel@) == views(dirs@)[a]);
                    }
                }
            }
        } else {
            proof {
                let k = choose|k: int| 0 <= k < views(places@).len() && views(places@)[k] == strs(d@);
                assert(module_place(rs[k]) == strs(d@));
                assert(has_file_in(rs, strs(d@)));
            }
        }
        j = j + 1;
    }
    Ok(mods)
}

impl Db {
    /// Interns an ingot record; a new ingot starts with no modules.
    fn add_ingot(&mut self, rec: Ingot) -> (r: Result<IngotId, IdSpaceFull>)
        requires
            old(self).wf(),
        ensures
            r is Err ==> is_full(*final(self)),
            final(self).wf(),
            final(self).modules@ == old(self).modules@,
            final(self).ingots@.len() >= old(self).ingots@.len(),
            r matches Ok(id) ==> (id.0 as int) < final(self).ingots@.len()
                && final(self).ingots@[id.0 as int].key() == rec.key(),
    {
        if self.ingots.len() >= TABLE_LIMIT {
            return Err(IdSpaceFull);
        }
        let ghost d0 = *self;
        let iid = intern_in(&mut self.ingots, rec);
        if iid == self.ingot_data.len() {
            self.ingot_data.push(IngotData { modules: Vec::new(), deps: NameMap::new(), root: None });
        }
        proof {
            assert forall|m: int| 0 <= m < self.modules@.len() implies #[trigger] self.module_ok(m) by {
                assert(d0.module_ok(m));
            }
            assert forall|i: int| 0 <= i < self.ingots@.len() implies #[trigger] self.ingot_ok(i) by {
                if i < d0.ingots@.len() {
                    assert(d0.ingot_ok(i));
                    assert(self.ingot_data@[i] == d0.ingot_data@[i]);
                } else {
                    assert(self.ingot_data@[i].modules@.len() == 0);
                    assert(self.ingot_data@[i].deps@.len() == 0);
                }
            }
        }
        Ok(IngotId(iid as u32))
    }
}

impl IngotId {
    /// Builds an ingot from its source files. The source directory is the
    /// directory of a single file, or the common leading part of all paths.
    /// Each file becomes a module named by its file stem; each directory that
    /// some file lies below, and that no `d.fe` file stands for, becomes a
    /// module too. Every declaration of every file becomes an entity.
    #[verifier::rlimit(60)]
    pub fn from_files(
        db: &mut Db,
        name: &str,
        mode: IngotMode,
        file_kind: FileKind,
        files: &Vec<ParsedFile>,
        deps: NameMap<IngotId>,
    ) -> (r: Result<IngotId, IdSpaceFull>)
        requires
            old(db).wf(),
            files@.len() >= 1,
            forall|j: int| 0 <= j < deps@.len() ==> (deps@[j].1.0 as int) < old(db).ingots@.len(),
        ensures
            r is Err ==> is_full(*final(db)),
            final(db).wf(),
            r matches Ok(id) ==> built_ingot(*final(db), id, name@, mode, files@, deps@),
    {
        let comps = all_file_components(files);
        let ghost cs = file_components(files@);
        let prefix = compute_prefix(&comps);
        let src_dir = join_components(&prefix);
        let ingot = db.add_ingot(Ingot { name: String::from_str(name), mode, original: None, src_dir })?;
        let ghost ingot_key = db.ingots@[ingot.0 as int].key();
        let (rels, places) = compute_rels(&comps, &prefix);
        let file_mods = add_file_modules(db, ingot, file_kind, files, &comps, &rels)?;
        let ghost db1 = *db;
        let dirs = collect_dirs(&rels);
        let dir_mods = add_dir_modules(db, ingot, &dirs, &places, Ghost(cs))?;
        let root_k = find_root(&rels, mode);
        let root = match root_k {
            Some(k) => Some(file_mods[k]),
            None => None,
        };
        let mut mods = file_mods;
        let ghost fm = mods@;
        let mut dm = dir_mods;
        let ghost dms = dm@;
        mods.append(&mut dm);
        let ghost ms = mods@;
        assert(ms =~= fm + dms);
        let ghost before_set = *db;
        db.ingot_data.set(ingot.0 as usize, IngotData { modules: mods, deps, root });
        proof {
            let n = files@.len();
            assert forall|k: int| 0 <= k < n implies file_module_ok(*db, ingot, #[trigger] ms[k], cs, k) by {
                assert(ms[k] == fm[k]);
                assert(file_module_ok(db1, ingot, fm[k], cs, k));
                assert(db1.modules@[fm[k].0 as int] == db.modules@[fm[k].0 as int]);
            }
            assert forall|k: int| 0 <= k < n implies file_decls_ok(*db, #[trigger] ms[k], files@[k]) by {
                assert(ms[k] == fm[k]);
                let mk = fm[k];
                assert(file_decls_ok(db1, mk, files@[k]));
                assert(db1.modules@[mk.0 as int] == db.modules@[mk.0 as int]);
                assert forall|kk: int| 0 <= kk < files@[k].ast.body@.len() implies decl_ok(*db, mk, kk as usize, #[trigger] files@[k].ast.body@[kk]) by {
                    lemma_decl_ok_extend(db1, *db, mk, kk as usize, files@[k].ast.body@[kk]);
                }
                if let ModuleSource::File(fk) = db1.modules@[mk.0 as int].source {
                    assert(db1.files@[fk.0 as int] == db.files@[fk.0 as int]);
                }
            }
            assert forall|k: int| n <= k < ms.len() implies dir_module_ok(*db, ingot, #[trigger] ms[k], cs) by {
                assert(ms[k] == dms[k - n]);
            }
            assert forall|m: int| 0 <= m < db.modules@.len() implies #[trigger] db.module_ok(m) by {
                assert(before_set.module_ok(m));
            }
            assert forall|x: int| 0 <= x < db.ingots@.len() implies #[trigger] db.ingot_ok(x) by {
                assert(before_set.ingot_ok(x));
                if x != ingot.0 as int {
                    assert(db.ingot_data@[x] == before_set.ingot_data@[x]);
                } else {
                    let dd = db.ingot_data@[x];
                    assert(dd.deps@ == deps@);
                    assert forall|y: int| 0 <= y < dd.modules@.len() implies {
                        let m = #[trigger] dd.modules@[y];
                        &&& (m.0 as int) < db.modules@.len()
                        &&& db.modules@[m.0 as int].ingot.0 == x
                    } by {
                        assert(dd.modules@[y] == ms[y]);
                        if y < n {
                            assert(file_module_ok(*db, ingot, ms[y], cs, y));
                        } else {
                            assert(dir_module_ok(*db, ingot, ms[y], cs));
                        }
                    }
                    if let Some(rt) = dd.root {
                        let k = root_k.unwrap();
                        assert(rt == ms[k as int]);
                        assert(file_module_ok(*db, ingot, ms[k as int], cs, k as int));
                    }
                }
            }
            assert forall|i: int| 0 <= i < n implies {
                let m = #[trigger] db.modules@[ms[i].0 as int];
                &&& m.name@ == stem_of(cs[i].last())
                &&& m.source is File
                &&& strs(m.rel@) == module_place(file_rels(cs)[i])
            } by {
                assert(file_module_ok(*db, ingot, ms[i], cs, i));
            }
            assert forall|j: int| n <= j < ms.len() implies {
                let m = #[trigger] db.modules@[ms[j].0 as int];
                &&& is_dir_module(cs, strs(m.rel@))
                &&& m.source matches ModuleSource::Dir(p) && p@ == join_path(strs(m.rel@))
                &&& m.name@ == strs(m.rel@).last()
            } by {
                assert(dir_module_ok(*db, ingot, ms[j], cs));
            }
            assert forall|a: int, b: int| n <= a < b < ms.len() implies strs(db.modules@[ms[a].0 as int].rel@) != strs(
                db.modules@[ms[b].0 as int].rel@) by {
                assert(ms[a] == dms[a - n]);
                assert(ms[b] == dms[b - n]);
            }
            assert forall|dd: Seq<Seq<char>>| is_dir_module(cs, dd) implies exists|j: int|
                n <= j < ms.len() && #[trigger] strs(db.modules@[ms[j].0 as int].rel@) == dd by {
                assert(views(dirs@).contains(dd));
                let a = choose|a: int| 0 <= a < views(dirs@).len() && views(dirs@)[a] == dd;
                assert(!has_file_in(file_rels(cs), views(dirs@)[a]));
                let k = choose|k: int| 0 <= k < dms.len() && strs(db.modules@[dms[k].0 as int].rel@) == views(dirs@)[a];
                assert(ms[n + k] == dms[k]);
            }
            match root_index(file_rels(cs), mode) {
                Some(k) => { assert(root == Some(ms[k])); },
                None => {},
            }
        }
        Ok(ingot)
    }
}

impl ModuleId {
    /// Interns a module of `ingot` at place `rel` in its tree, and the
    /// entities that its syntax tree declares.
    pub fn new(db: &mut Db, name: String, source: ModuleSource, ingot: IngotId, rel: Vec<String>) -> (r: Result<ModuleId, IdSpaceFull>)
        requires
            old(db).wf(),
            (ingot.0 as int) < old(db).ingots@.len(),
            match source {
                ModuleSource::File(f) => (f.0 as int) < old(db).files@.len(),
                ModuleSource::Dir(_) => true,
                ModuleSource::Lowered { original, ast } => (original.0 as int) < old(db).modules@.len()
                    && (ast.0 as int) < old(db).files@.len() && old(db).modules@[original.0 as int].ingot == ingot,
            },
        ensures
            r is Err ==> is_full(*final(db)),
            final(db).wf(),
            r matches Ok(m) ==> (m.0 as int) < final(db).modules@.len()
                && final(db).modules@[m.0 as int].key() == (name@, ingot, crate::db::source_key(source), strs(rel@))
                && keys_of(final(db).modules@) == intern_spec(keys_of(old(db).modules@), (name@, ingot, crate::db::source_key(source), strs(rel@))).0
                && m.0 as int == intern_spec(keys_of(old(db).modules@), (name@, ingot, crate::db::source_key(source), strs(rel@))).1,
            r matches Ok(m) ==> ((m.0 as int) == old(db).modules@.len() ==> forall|i: int|
                0 <= i < module_body(final(db), m).len() ==> decl_ok(*final(db), m, i as usize, #[trigger] module_body(final(db), m)[i])),
    {
        let rec = Module { name, ingot, source, rel };
        let ghost key = rec.key();
        let ghost d0 = *db;
        let old_len = db.modules.len();
        let m = db.intern_module(rec)?;
        let ghost after = *db;
        if m.0 as usize == old_len {
            proof {
                assert forall|x: usize| #[trigger] untouched(*db, m, x) by {
                    lemma_fresh_untouched(d0, m, x);
                    assert(d0.contracts@ == db.contracts@);
                }
            }
            let res = db.intern_declarations(m);
            if res.is_err() {
                return Err(IdSpaceFull);
            }
            assert(after.modules@ == db.modules@);
                    }
        Ok(m)
    }

    /// Builds a standalone ingot of one file, named "", with `std` as its one
    /// dependency, and returns its module.
    pub fn new_standalone(db: &mut Db, file: ParsedFile, std: IngotId) -> (r: Result<ModuleId, IdSpaceFull>)
        requires
            old(db).wf(),
            (std.0 as int) < old(db).ingots@.len(),
        ensures
            r is Err ==> is_full(*final(db)),
            final(db).wf(),
            r matches Ok(m) ==> (m.0 as int) < final(db).modules@.len()
                && final(db).modules@[m.0 as int].name@ == stem_of(components(file.path@).last())
                && final(db).modules@[m.0 as int].source is File,
    {
        let mut deps: NameMap<IngotId> = NameMap::new();
        deps.insert(String::from_str("std"), std);
        assert(deps@.len() == 1);
        let files = vec![file];
        let ingot = IngotId::from_files(db, "", IngotMode::StandaloneModule, FileKind::Local, &files, deps)?;
        proof {
            let cs = file_components(files@);
            let d = db.ingot_data@[ingot.0 as int];
            assert(root_index(file_rels(cs), IngotMode::StandaloneModule) == Some(0int));
            assert(d.root == Some(d.modules@[0]));
            assert(cs[0] == components(file.path@));
        }
        let root = db.ingot_data[ingot.0 as usize].root;
        proof {
            assert(db.ingot_ok(ingot.0 as int));
            let d = db.ingot_data@[ingot.0 as int];
            assert(0 < d.modules@.len());
            let m = d.modules@[0];
            assert(db.modules@[m.0 as int].name@ == stem_of(file_components(files@)[0].last()));
        }
        assert(root is Some);
        Ok(root.unwrap())
    }
}

/// A statement alike in every part to one whose entity is in place has its
/// entity in place too.
proof fn lemma_same_stmt_decl_ok(db: Db, m: ModuleId, i: usize, a: ast::ModuleStmt, b: ast::ModuleStmt)
    requires
        same_stmt(a, b),
        decl_ok(db, m, i, a),
    ensures
        decl_ok(db, m, i, b),
{
    match (a, b) {
        (ast::ModuleStmt::Contract(x), ast::ModuleStmt::Contract(y)) => {
            let j = index_at(db.contracts@, m, i)->0;
            let cid = ContractId(j as u32);
            assert forall|jj: int| 0 <= jj < y.fields@.len() implies ((#[trigger] first_index(keys_of(db.contract_fields@), (cid, jj as usize))) matches Some(k)
                && same_field(db.contract_fields@[k].ast, y.fields@[jj])) by {
                assert(same_field(x.fields@[jj], y.fields@[jj]));
            }
            assert forall|jj: int| 0 <= jj < y.functions@.len() implies ((#[trigger] first_index(keys_of(db.functions@), (m, Some(Class::Contract(cid)), jj as usize))) matches Some(k)
                && same_function(db.functions@[k].ast, y.functions@[jj])) by {
                assert(same_function(x.functions@[jj], y.functions@[jj]));
                let k = first_index(keys_of(db.functions@), (m, Some(Class::Contract(cid)), jj as usize))->0;
                let f0 = db.functions@[k].ast;
                assert forall|q: int| 0 <= q < f0.args@.len() implies same_arg(#[trigger] f0.args@[q], y.functions@[jj].args@[q]) by {
                    assert(same_arg(f0.args@[q], x.functions@[jj].args@[q]));
                    assert(same_arg(x.functions@[jj].args@[q], y.functions@[jj].args@[q]));
                }
            }
            assert forall|jj: int| 0 <= jj < y.events@.len() implies ((#[trigger] first_index(keys_of(db.events@), (m, Some(cid), jj as usize))) matches Some(k)
                && same_event(db.events@[k].ast, y.events@[jj])) by {
                assert(same_event(x.events@[jj], y.events@[jj]));
                let k = first_index(keys_of(db.events@), (m, Some(cid), jj as usize))->0;
                let e0 = db.events@[k].ast;
                assert forall|q: int| 0 <= q < e0.fields@.len() implies same_field(#[trigger] e0.fields@[q], y.events@[jj].fields@[q]) by {
                    assert(same_field(e0.fields@[q], x.events@[jj].fields@[q]));
                    assert(same_field(x.events@[jj].fields@[q], y.events@[jj].fields@[q]));
                }
            }
            let c0 = db.contracts@[j].ast;
            assert forall|q: int| 0 <= q < c0.fields@.len() implies same_field(#[trigger] c0.fields@[q], y.fields@[q]) by {
                assert(same_field(c0.fields@[q], x.fields@[q]));
            }
            assert forall|q: int| 0 <= q < c0.functions@.len() implies same_function(#[trigger] c0.functions@[q], y.functions@[q]) by {
                assert(same_function(c0.functions@[q], x.functions@[q]));
                assert(same_function(x.functions@[q], y.functions@[q]));
                assert forall|z: int| 0 <= z < c0.functions@[q].args@.len() implies same_arg(#[trigger] c0.functions@[q].args@[z], y.functions@[q].args@[z]) by {
                    assert(same_arg(c0.functions@[q].args@[z], x.functions@[q].args@[z]));
                    assert(same_arg(x.functions@[q].args@[z], y.functions@[q].args@[z]));
                }
            }
            assert forall|q: int| 0 <= q < c0.events@.len() implies same_event(#[trigger] c0.events@[q], y.events@[q]) by {
                assert(same_event(c0.events@[q], x.events@[q]));
                assert(same_event(x.events@[q], y.events@[q]));
                assert forall|z: int| 0 <= z < c0.events@[q].fields@.len() implies same_field(#[trigger] c0.events@[q].fields@[z], y.events@[q].fields@[z]) by {
                    assert(same_field(c0.events@[q].fields@[z], x.events@[q].fields@[z]));
                }
            }
        },
        (ast::ModuleStmt::Struct(x), ast::ModuleStmt::Struct(y)) => {
            let j = index_at(db.structs@, m, i)->0;
            let sid = StructId(j as u32);
            assert forall|jj: int| 0 <= jj < y.fields@.len() implies ((#[trigger] first_index(keys_of(db.struct_fields@), (sid, jj as usize))) matches Some(k)
                && same_field(db.struct_fields@[k].ast, y.fields@[jj])) by {
                assert(same_field(x.fields@[jj], y.fields@[jj]));
            }
            assert forall|jj: int| 0 <= jj < y.functions@.len() implies ((#[trigger] first_index(keys_of(db.functions@), (m, Some(Class::Struct(sid)), jj as usize))) matches Some(k)
                && same_function(db.functions@[k].ast, y.functions@[jj])) by {
                assert(same_function(x.functions@[jj], y.functions@[jj]));
                let k = first_index(keys_of(db.functions@), (m, Some(Class::Struct(sid)), jj as usize))->0;
                let f0 = db.functions@[k].ast;
                assert forall|q: int| 0 <= q < f0.args@.len() implies same_arg(#[trigger] f0.args@[q], y.functions@[jj].args@[q]) by {
                    assert(same_arg(f0.args@[q], x.functions@[jj].args@[q]));
                    assert(same_arg(x.functions@[jj].args@[q], y.functions@[jj].args@[q]));
                }
            }
            let c0 = db.structs@[j].ast;
            assert forall|q: int| 0 <= q < c0.fields@.len() implies same_field(#[trigger] c0.fields@[q], y.fields@[q]) by {
                assert(same_field(c0.fields@[q], x.fields@[q]));
            }
            assert forall|q: int| 0 <= q < c0.functions@.len() implies same_function(#[trigger] c0.functions@[q], y.functions@[q]) by {
                assert(same_function(c0.functions@[q], x.functions@[q]));
                assert(same_function(x.functions@[q], y.functions@[q]));
                assert forall|z: int| 0 <= z < c0.functions@[q].args@.len() implies same_arg(#[trigger] c0.functions@[q].args@[z], y.functions@[q].args@[z]) by {
                    assert(same_arg(c0.functions@[q].args@[z], x.functions@[q].args@[z]));
                    assert(same_arg(x.functions@[q].args@[z], y.functions@[q].args@[z]));
                }
            }
        },
        (ast::ModuleStmt::Function(x), ast::ModuleStmt::Function(y)) => {
            let j = index_at(db.functions@, m, i)->0;
            let f0 = db.functions@[j].ast;
            assert forall|q: int| 0 <= q < f0.args@.len() implies same_arg(#[trigger] f0.args@[q], y.args@[q]) by {
                assert(same_arg(f0.args@[q], x.args@[q]));
                assert(same_arg(x.args@[q], y.args@[q]));
            }
        },
        (ast::ModuleStmt::Event(x), ast::ModuleStmt::Event(y)) => {
            let j = index_at(db.events@, m, i)->0;
            let e0 = db.events@[j].ast;
            assert forall|q: int| 0 <= q < e0.fields@.len() implies same_field(#[trigger] e0.fields@[q], y.fields@[q]) by {
                assert(same_field(e0.fields@[q], x.fields@[q]));
            }
        },
        _ => {},
    }
}

impl Db {
    /// Interns the entity that statement `i` of module `m`, `s`, declares,
    /// with its members.
    #[verifier::rlimit(80)]
    fn intern_statement(&mut self, m: ModuleId, i: usize, s: &ast::ModuleStmt) -> (r: Result<(), IdSpaceFull>)
        requires
            old(self).wf(),
            (m.0 as int) < old(self).modules@.len(),
            forall|i2: usize| i2 >= i ==> #[trigger] untouched(*old(self), m, i2),
        ensures
            r is Err ==> is_full(*final(self)),
            final(self).wf(),
            adds_entities(*old(self), *final(self)),
            r is Ok ==> decl_ok(*final(self), m, i, *s),
            r is Ok ==> forall|i2: usize| i2 > i ==> #[trigger] untouched(*final(self), m, i2),
    {
        let ghost d0 = *self;
        match s {
            ast::ModuleStmt::Contract(c) => {
                let rec = Contract { module: m, index: i, ast: copy_contract(c) };
                let ghost r0 = rec;
                let cid = self.add_contract(rec)?;
                let ghost d1 = *self;
                proof {
                    assert(untouched(d0, m, i));
                    if self.contracts@ == d0.contracts@ {
                        lemma_first_index(keys_of(d0.contracts@), r0.key());
                        let q = cid.0 as int;
                        assert(keys_of(d0.contracts@)[q] == d0.contracts@[q].key());
                        lemma_index_at_some(d0.contracts@, m, i, q);
                    }
                    assert(self.contracts@ == d0.contracts@.push(r0));
                    assert(self.contracts@.drop_last() =~= d0.contracts@);
                    let kd = keys_of(d0.contracts@);
                    lemma_first_index(kd, r0.key());
                    if let Some(q) = first_index(kd, r0.key()) {
                        assert(kd[q] == d0.contracts@[q].key());
                        lemma_index_at_some(d0.contracts@, m, i, q);
                    }
                    assert(keys_of(self.contracts@) =~= kd.push(r0.key()));
                    assert(keys_of(self.contracts@).drop_last() =~= kd);
                    assert(cid.0 as int == d0.contracts@.len());
                    assert(cid.0 as int == d0.contracts@.len());
                    assert forall|k: int| 0 <= k < self.contract_fields@.len() implies (#[trigger] self.contract_fields@[k]).parent != cid by {
                        assert(self.contract_fields@[k] == d0.contract_fields@[k]);
                    }
                    assert forall|k: int| 0 <= k < self.functions@.len() implies (#[trigger] self.functions@[k]).parent != Some(Class::Contract(cid)) by {
                        assert(self.functions@[k] == d0.functions@[k]);
                    }
                    assert forall|k: int| 0 <= k < self.events@.len() implies (#[trigger] self.events@[k]).contract != Some(cid) by {
                        assert(self.events@[k] == d0.events@[k]);
                    }
                }
                let ghost copy_ast = r0.ast;
                let res = self.add_contract_fields(cid, &c.fields);
                proof { lemma_adds_entities_trans(d0, d1, *self); }
                if res.is_err() { return Err(IdSpaceFull); }
                let ghost d2 = *self;
                let res = self.add_member_functions(m, Class::Contract(cid), &c.functions);
                proof { lemma_adds_entities_trans(d0, d2, *self); }
                if res.is_err() { return Err(IdSpaceFull); }
                let ghost d3 = *self;
                let res = self.add_member_events(m, cid, &c.events);
                proof { lemma_adds_entities_trans(d0, d3, *self); }
                if res.is_err() { return Err(IdSpaceFull); }
                proof {
                    assert(self.contracts@ == d1.contracts@);
                    assert(index_at(self.contracts@, m, i) == Some(cid.0 as int));
                    lemma_keys_extend(d2.contract_fields@, self.contract_fields@);
                    lemma_keys_extend(d3.functions@, self.functions@);
                    assert forall|jj: int| 0 <= jj < c.fields@.len() implies ((#[trigger] first_index(keys_of(self.contract_fields@), (cid, jj as usize))) matches Some(k)
                        && same_field(self.contract_fields@[k].ast, c.fields@[jj])) by {
                        assert(self.contract_fields@ == d2.contract_fields@);
                    }
                    assert forall|jj: int| 0 <= jj < c.functions@.len() implies ((#[trigger] first_index(keys_of(self.functions@), (m, Some(Class::Contract(cid)), jj as usize))) matches Some(k)
                        && same_function(self.functions@[k].ast, c.functions@[jj])) by {
                        assert(self.functions@ == d3.functions@);
                    }
                    assert(self.functions@ == d3.functions@ && d2.functions@ == d0.functions@);
                    assert(d3.events@ == d0.events@);
                    assert(self.contracts@[d0.contracts@.len() as int] == r0);
                    assert forall|i2: usize| i2 > i implies #[trigger] untouched(*self, m, i2) by {
                        assert(untouched(d0, m, i2));
                        lemma_index_at_extend(d0.contracts@, self.contracts@, m, i2);
                        lemma_index_at_extend(d0.functions@, self.functions@, m, i2);
                        lemma_index_at_extend(d0.events@, self.events@, m, i2);
                    }
                }
                Ok(())
            },
            ast::ModuleStmt::Struct(st) => {
                let rec = Struct { module: m, index: i, ast: copy_struct(st) };
                let ghost r0 = rec;
                let sid = self.add_struct(rec)?;
                let ghost d1 = *self;
                proof {
                    assert(untouched(d0, m, i));
                    if self.structs@ == d0.structs@ {
                        lemma_first_index(keys_of(d0.structs@), r0.key());
                        let q = sid.0 as int;
                        assert(keys_of(d0.structs@)[q] == d0.structs@[q].key());
                        lemma_index_at_some(d0.structs@, m, i, q);
                    }
                    assert(self.structs@ == d0.structs@.push(r0));
                    assert(self.structs@.drop_last() =~= d0.structs@);
                    let kd = keys_of(d0.structs@);
                    lemma_first_index(kd, r0.key());
                    if let Some(q) = first_index(kd, r0.key()) {
                        assert(kd[q] == d0.structs@[q].key());
                        lemma_index_at_some(d0.structs@, m, i, q);
                    }
                    assert(keys_of(self.structs@) =~= kd.push(r0.key()));
                    assert(keys_of(self.structs@).drop_last() =~= kd);
                    assert(sid.0 as int == d0.structs@.len());
                    assert forall|k: int| 0 <= k < self.struct_fields@.len() implies (#[trigger] self.struct_fields@[k]).parent != sid by {
                        assert(self.struct_fields@[k] == d0.struct_fields@[k]);
                    }
                    assert forall|k: int| 0 <= k < self.functions@.len() implies (#[trigger] self.functions@[k]).parent != Some(Class::Struct(sid)) by {
                        assert(self.functions@[k] == d0.functions@[k]);
                    }
                }
                let res = self.add_struct_fields(sid, &st.fields);
                proof { lemma_adds_entities_trans(d0, d1, *self); }
                if res.is_err() { return Err(IdSpaceFull); }
                let ghost d2 = *self;
                let res = self.add_member_functions(m, Class::Struct(sid), &st.functions);
                proof { lemma_adds_entities_trans(d0, d2, *self); }
                if res.is_err() { return Err(IdSpaceFull); }
                proof {
                    assert(self.structs@ == d1.structs@);
                    assert(index_at(self.structs@, m, i) == Some(sid.0 as int));
                    assert forall|jj: int| 0 <= jj < st.fields@.len() implies ((#[trigger] first_index(keys_of(self.struct_fields@), (sid, jj as usize))) matches Some(k)
                        && same_field(self.struct_fields@[k].ast, st.fields@[jj])) by {
                        assert(self.struct_fields@ == d2.struct_fields@);
                    }
                    assert(d2.functions@ == d0.functions@);
                    assert(self.structs@[d0.structs@.len() as int] == r0);
                    assert forall|i2: usize| i2 > i implies #[trigger] untouched(*self, m, i2) by {
                        assert(untouched(d0, m, i2));
                        lemma_index_at_extend(d0.structs@, self.structs@, m, i2);
                        lemma_index_at_extend(d0.functions@, self.functions@, m, i2);
                    }
                }
                Ok(())
            },
            ast::ModuleStmt::Function(f) => {
                let rec = Function { module: m, parent: None, index: i, ast: copy_function(f) };
                let ghost r0 = rec;
                let id = self.add_function(rec)?;
                proof {
                    assert(untouched(d0, m, i));
                    if self.functions@ == d0.functions@ {
                        lemma_first_index(keys_of(d0.functions@), r0.key());
                        let q = id.0 as int;
                        assert(keys_of(d0.functions@)[q] == d0.functions@[q].key());
                        lemma_index_at_some(d0.functions@, m, i, q);
                    }
                    assert(self.functions@ == d0.functions@.push(r0));
                    assert(self.functions@.drop_last() =~= d0.functions@);
                    assert(self.functions@[d0.functions@.len() as int] == r0);
                    assert forall|i2: usize| i2 > i implies #[trigger] untouched(*self, m, i2) by {
                        assert(untouched(d0, m, i2));
                        lemma_index_at_extend(d0.functions@, self.functions@, m, i2);
                    }
                }
                Ok(())
            },
            ast::ModuleStmt::Event(e) => {
                let rec = Event { module: m, contract: None, index: i, ast: copy_event(e) };
                let ghost r0 = rec;
                let id = self.add_event(rec)?;
                proof {
                    assert(untouched(d0, m, i));
                    if self.events@ == d0.events@ {
                        lemma_first_index(keys_of(d0.events@), r0.key());
                        let q = id.0 as int;
                        assert(keys_of(d0.events@)[q] == d0.events@[q].key());
                        lemma_index_at_some(d0.events@, m, i, q);
                    }
                    assert(self.events@ == d0.events@.push(r0));
                    assert(self.events@.drop_last() =~= d0.events@);
                    assert(self.events@[d0.events@.len() as int] == r0);
                    assert forall|i2: usize| i2 > i implies #[trigger] untouched(*self, m, i2) by {
                        assert(untouched(d0, m, i2));
                        lemma_index_at_extend(d0.events@, self.events@, m, i2);
                    }
                }
                Ok(())
            },
            ast::ModuleStmt::TypeAlias(a) => {
                let rec = TypeAlias { module: m, index: i, ast: ast::TypeAlias { name: copy_name(&a.name), typ: copy_path(&a.typ), span: a.span } };
                let ghost r0 = rec;
                let id = self.add_type_alias(rec)?;
                proof {
                    assert(untouched(d0, m, i));
                    if self.type_aliases@ == d0.type_aliases@ {
                        lemma_first_index(keys_of(d0.type_aliases@), r0.key());
                        let q = id.0 as int;
                        assert(keys_of(d0.type_aliases@)[q] == d0.type_aliases@[q].key());
                        lemma_index_at_some(d0.type_aliases@, m, i, q);
                    }
                    assert(self.type_aliases@ == d0.type_aliases@.push(r0));
                    assert(self.type_aliases@.drop_last() =~= d0.type_aliases@);
                    assert(self.type_aliases@[d0.type_aliases@.len() as int] == r0);
                    assert forall|i2: usize| i2 > i implies #[trigger] untouched(*self, m, i2) by {
                        assert(untouched(d0, m, i2));
                        lemma_index_at_extend(d0.type_aliases@, self.type_aliases@, m, i2);
                    }
                }
                Ok(())
            },
            ast::ModuleStmt::Constant(k) => {
                let rec = ModuleConstant { module: m, index: i, ast: ast::ConstantDecl { name: copy_name(&k.name), typ: copy_path(&k.typ), value: k.value, span: k.span } };
                let ghost r0 = rec;
                let id = self.add_constant(rec)?;
                proof {
                    assert(untouched(d0, m, i));
                    if self.constants@ == d0.constants@ {
                        lemma_first_index(keys_of(d0.constants@), r0.key());
                        let q = id.0 as int;
                        assert(keys_of(d0.constants@)[q] == d0.constants@[q].key());
                        lemma_index_at_some(d0.constants@, m, i, q);
                    }
                    assert(self.constants@ == d0.constants@.push(r0));
                    assert(self.constants@.drop_last() =~= d0.constants@);
                    assert(self.constants@[d0.constants@.len() as int] == r0);
                    assert forall|i2: usize| i2 > i implies #[trigger] untouched(*self, m, i2) by {
                        assert(untouched(d0, m, i2));
                        lemma_index_at_extend(d0.constants@, self.constants@, m, i2);
                    }
                }
                Ok(())
            },
            ast::ModuleStmt::Pragma(_) | ast::ModuleStmt::Use(_) => {
                assert forall|i2: usize| i2 > i implies #[trigger] untouched(*self, m, i2) by {
                    assert(untouched(d0, m, i2));
                }
                Ok(())
            },
        }
    }
}

} // verus!
