//! The uniform view of items: names, parents and canonical paths.
use crate::ast::Span;
use crate::db::Db;
use crate::ids::{
    base_name, generic_type_name, global_function_name, global_object_name, intrinsic_name, Class,
    IngotId, Item, ModuleId, TypeDef,
};
use crate::db::ModuleSource;
use crate::paths::{components, is_prefix, join_components, join_path, path_components, same_strings, skip_components, strs, take_components};
use vstd::prelude::*;
use vstd::string::*;

verus! {

/// The declared name of an item; built-ins have their fixed names.
pub open spec fn item_name(db: &Db, i: Item) -> Seq<char> {
    match i {
        Item::Ingot(id) => db.ingots@[id.0 as int].name@,
        Item::Module(id) => db.modules@[id.0 as int].name@,
        Item::Type(TypeDef::Alias(id)) => db.type_aliases@[id.0 as int].ast.name.text@,
        Item::Type(TypeDef::Struct(id)) => db.structs@[id.0 as int].ast.name.text@,
        Item::Type(TypeDef::Contract(id)) => db.contracts@[id.0 as int].ast.name.text@,
        Item::Type(TypeDef::Primitive(b)) => base_name(b),
        Item::GenericType(g) => generic_type_name(g),
        Item::Event(id) => db.events@[id.0 as int].ast.name.text@,
        Item::Function(id) => db.functions@[id.0 as int].ast.name.text@,
        Item::Constant(id) => db.constants@[id.0 as int].ast.name.text@,
        Item::BuiltinFunction(f) => global_function_name(f),
        Item::Intrinsic(f) => intrinsic_name(f),
        Item::Object(o) => global_object_name(o),
    }
}

/// The root module of an ingot, if it has one.
pub open spec fn root_of(db: &Db, ingot: IngotId) -> Option<ModuleId> {
    db.ingot_data@[ingot.0 as int].root
}

/// A module's place in its ingot's tree.
pub open spec fn rel_of(db: &Db, m: ModuleId) -> Seq<Seq<char>> {
    strs(db.modules@[m.0 as int].rel@)
}

/// The first module of `s` whose place in the tree is `r`.
pub open spec fn first_with_rel(db: &Db, s: Seq<ModuleId>, r: Seq<Seq<char>>) -> Option<ModuleId>
    decreases s.len(),
{
    if s.len() == 0 {
        None
    } else {
        match first_with_rel(db, s.drop_last(), r) {
            Some(m) => Some(m),
            None => if rel_of(db, s.last()) == r {
                Some(s.last())
            } else {
                None
            },
        }
    }
}

proof fn lemma_first_with_rel(db: &Db, s: Seq<ModuleId>, r: Seq<Seq<char>>)
    ensures
        first_with_rel(db, s, r) matches Some(m) ==> s.contains(m) && rel_of(db, m) == r,
        first_with_rel(db, s, r) is None ==> forall|j: int| 0 <= j < s.len() ==> rel_of(db, s[j]) != r,
    decreases s.len(),
{
    if s.len() > 0 {
        lemma_first_with_rel(db, s.drop_last(), r);
        if let Some(m) = first_with_rel(db, s.drop_last(), r) {
            let j = choose|j: int| 0 <= j < s.drop_last().len() && s.drop_last()[j] == m;
            assert(s[j] == m);
        } else {
            assert forall|j: int| 0 <= j < s.len() - 1 implies rel_of(db, s[j]) != r by {
                assert(s.drop_last()[j] == s[j]);
            }
            assert(s[s.len() - 1] == s.last());
        }
    }
}

/// The module above `m`: none for the root; the root for a module at the top
/// of the tree; else the module whose place is `m`'s place less its last part.
pub open spec fn parent_module_of(db: &Db, m: ModuleId) -> Option<ModuleId> {
    let ingot = db.modules@[m.0 as int].ingot;
    if root_of(db, ingot) == Some(m) {
        None
    } else if rel_of(db, m).len() <= 1 {
        root_of(db, ingot)
    } else {
        first_with_rel(db, db.ingot_data@[ingot.0 as int].modules@, rel_of(db, m).drop_last())
    }
}

/// How far a module lies below its ingot's root.
pub open spec fn module_height(db: &Db, m: ModuleId) -> nat {
    if root_of(db, db.modules@[m.0 as int].ingot) == Some(m) {
        0
    } else {
        rel_of(db, m).len() + 1
    }
}

/// The enclosing item: none for ingots and built-ins.
pub open spec fn parent_of(db: &Db, i: Item) -> Option<Item> {
    match i {
        Item::Type(TypeDef::Alias(id)) => Some(Item::Module(db.type_aliases@[id.0 as int].module)),
        Item::Type(TypeDef::Struct(id)) => Some(Item::Module(db.structs@[id.0 as int].module)),
        Item::Type(TypeDef::Contract(id)) => Some(Item::Module(db.contracts@[id.0 as int].module)),
        Item::Event(id) => match db.events@[id.0 as int].contract {
            Some(c) => Some(Item::Type(TypeDef::Contract(c))),
            None => Some(Item::Module(db.events@[id.0 as int].module)),
        },
        Item::Function(id) => match db.functions@[id.0 as int].parent {
            Some(c) => Some(c.spec_as_item()),
            None => Some(Item::Module(db.functions@[id.0 as int].module)),
        },
        Item::Constant(id) => Some(Item::Module(db.constants@[id.0 as int].module)),
        Item::Module(id) => match parent_module_of(db, id) {
            Some(p) => Some(Item::Module(p)),
            None => Some(Item::Ingot(db.modules@[id.0 as int].ingot)),
        },
        _ => None,
    }
}

/// A measure that falls from each item to its parent.
pub open spec fn item_height(db: &Db, i: Item) -> nat {
    match i {
        Item::Module(id) => 1 + module_height(db, id),
        Item::Type(TypeDef::Alias(id)) => 2 + module_height(db, db.type_aliases@[id.0 as int].module),
        Item::Type(TypeDef::Struct(id)) => 2 + module_height(db, db.structs@[id.0 as int].module),
        Item::Type(TypeDef::Contract(id)) => 2 + module_height(
            db,
            db.contracts@[id.0 as int].module,
        ),
        Item::Constant(id) => 2 + module_height(db, db.constants@[id.0 as int].module),
        Item::Event(id) => match db.events@[id.0 as int].contract {
            Some(c) => 3 + module_height(db, db.contracts@[c.0 as int].module),
            None => 2 + module_height(db, db.events@[id.0 as int].module),
        },
        Item::Function(id) => match db.functions@[id.0 as int].parent {
            Some(Class::Contract(c)) => 3 + module_height(db, db.contracts@[c.0 as int].module),
            Some(Class::Struct(s)) => 3 + module_height(db, db.structs@[s.0 as int].module),
            None => 2 + module_height(db, db.functions@[id.0 as int].module),
        },
        _ => 0,
    }
}

/// In a well-formed database the parent of an item is an item of it, and
/// stands lower in the measure.
pub proof fn lemma_parent_valid(db: &Db, i: Item)
    requires
        db.wf(),
        db.valid_item(i),
    ensures
        parent_of(db, i) matches Some(p) ==> db.valid_item(p) && item_height(db, p) < item_height(
            db,
            i,
        ),
{
    match i {
        Item::Module(id) => {
            let m = id.0 as int;
            assert(db.module_ok(m));
            let ingot = db.modules@[m].ingot;
            assert(db.ingot_ok(ingot.0 as int));
            let d = db.ingot_data@[ingot.0 as int];
            if root_of(db, ingot) != Some(id) && rel_of(db, id).len() > 1 {
                let r = rel_of(db, id).drop_last();
                lemma_first_with_rel(db, d.modules@, r);
                if let Some(p) = first_with_rel(db, d.modules@, r) {
                    let j = choose|j: int| 0 <= j < d.modules@.len() && d.modules@[j] == p;
                    assert(d.modules@[j] == p);
                }
            }
        },
        Item::Type(TypeDef::Alias(id)) => {
            assert(db.type_aliases@[id.0 as int].module == db.type_aliases@[id.0 as int].module);
        },
        Item::Type(TypeDef::Struct(id)) => {
            assert(db.structs@[id.0 as int].module == db.structs@[id.0 as int].module);
        },
        Item::Type(TypeDef::Contract(id)) => {
            assert(db.contracts@[id.0 as int].module == db.contracts@[id.0 as int].module);
        },
        Item::Constant(id) => {
            assert(db.constants@[id.0 as int].module == db.constants@[id.0 as int].module);
        },
        Item::Event(id) => {
            assert(db.events@[id.0 as int].module == db.events@[id.0 as int].module);
            if let Some(c) = db.events@[id.0 as int].contract {
                assert(db.contracts@[c.0 as int].module == db.contracts@[c.0 as int].module);
            }
        },
        Item::Function(id) => {
            assert(db.functions@[id.0 as int].module == db.functions@[id.0 as int].module);
            match db.functions@[id.0 as int].parent {
                Some(Class::Contract(c)) => {
                    assert(db.contracts@[c.0 as int].module == db.contracts@[c.0 as int].module);
                },
                Some(Class::Struct(s)) => {
                    assert(db.structs@[s.0 as int].module == db.structs@[s.0 as int].module);
                },
                None => {},
            }
        },
        _ => {},
    }
}

/// The items from the top of the tree down to `i`, the ingot left out.
pub open spec fn parent_chain(db: &Db, i: Item) -> Seq<Item>
    decreases item_height(db, i),
{
    match parent_of(db, i) {
        Some(p) => if p is Ingot || item_height(db, p) >= item_height(db, i) {
            seq![i]
        } else {
            parent_chain(db, p).push(i)
        },
        None => seq![i],
    }
}

/// The canonical path of an item: its parent's path and then its own name,
/// the ingot left out.
pub open spec fn item_path(db: &Db, i: Item) -> Seq<Seq<char>>
    decreases item_height(db, i),
{
    match parent_of(db, i) {
        Some(p) => if p is Ingot || item_height(db, p) >= item_height(db, i) {
            seq![item_name(db, i)]
        } else {
            item_path(db, p).push(item_name(db, i))
        },
        None => seq![item_name(db, i)],
    }
}

/// An item's path is the names along its parent chain, from the top down,
/// with the ingot's name left out.
pub proof fn lemma_path_is_parent_chain_names(db: &Db, i: Item)
    ensures
        item_path(db, i) == parent_chain(db, i).map_values(|x: Item| item_name(db, x)),
    decreases item_height(db, i),
{
    match parent_of(db, i) {
        Some(p) => if p is Ingot || item_height(db, p) >= item_height(db, i) {
            assert(seq![i].map_values(|x: Item| item_name(db, x)) =~= seq![item_name(db, i)]);
        } else {
            lemma_path_is_parent_chain_names(db, p);
            assert(parent_chain(db, p).push(i).map_values(|x: Item| item_name(db, x))
                =~= parent_chain(db, p).map_values(|x: Item| item_name(db, x)).push(item_name(db, i)));
        },
        None => {
            assert(seq![i].map_values(|x: Item| item_name(db, x)) =~= seq![item_name(db, i)]);
        },
    }
}

/// Compares two places in a module tree.
fn same_rel(a: &Vec<String>, b: &Vec<String>, len: usize) -> (r: bool)
    requires
        len <= a@.len(),
        len <= b@.len(),
    ensures
        r == (strs(a@).take(len as int) == strs(b@).take(len as int)),
{
    let mut i: usize = 0;
    while i < len
        invariant
            i <= len,
            len <= a@.len(),
            len <= b@.len(),
            strs(a@).take(i as int) == strs(b@).take(i as int),
        decreases len - i,
    {
        if a[i] != b[i] {
            assert(strs(a@).take(len as int)[i as int] != strs(b@).take(len as int)[i as int]);
            return false;
        }
        assert(strs(a@).take(i as int + 1) =~= strs(a@).take(i as int).push(a@[i as int]@));
        assert(strs(b@).take(i as int + 1) =~= strs(b@).take(i as int).push(b@[i as int]@));
        i = i + 1;
    }
    true
}

impl ModuleId {
    /// The module above this one in its ingot's tree, if any.
    pub fn parent_module(&self, db: &Db) -> (r: Option<ModuleId>)
        requires
            db.wf(),
            (self.0 as int) < db.modules@.len(),
        ensures
            r == parent_module_of(db, *self),
    {
        let m = &db.modules[self.0 as usize];
        proof {
            assert(db.module_ok(self.0 as int));
        }
        let d = &db.ingot_data[m.ingot.0 as usize];
        if d.root == Some(*self) {
            return None;
        }
        let n = m.rel.len();
        if n <= 1 {
            return d.root;
        }
        let ghost target = rel_of(db, *self).drop_last();
        assert(rel_of(db, *self).len() == n);
        let mut i: usize = 0;
        while i < d.modules.len()
            invariant
                0 <= i <= d.modules@.len(),
                n == m.rel@.len(),
                n >= 2,
                (self.0 as int) < db.modules@.len(),
                (m.ingot.0 as int) < db.ingot_data@.len(),
                d.root != Some(*self),
                rel_of(db, *self).len() == n,
                *m == db.modules@[self.0 as int],
                *d == db.ingot_data@[m.ingot.0 as int],
                db.wf(),
                db.ingot_ok(m.ingot.0 as int),
                target == rel_of(db, *self).drop_last(),
                first_with_rel(db, d.modules@.take(i as int), target) is None,
            decreases d.modules@.len() - i,
        {
            let c = d.modules[i];
            let other = &db.modules[c.0 as usize];
            let hit = other.rel.len() == n - 1 && same_rel(&other.rel, &m.rel, n - 1);
            assert(d.modules@.take(i as int + 1).drop_last() =~= d.modules@.take(i as int));
            proof {
                assert(strs(m.rel@).take(n - 1) =~= target);
                assert(strs(other.rel@).len() == other.rel@.len());
                if other.rel@.len() == n - 1 {
                    assert(strs(other.rel@).take(n - 1) =~= strs(other.rel@));
                }
            }
            if hit {
                proof {
                    let t = d.modules@.take(i as int + 1);
                    assert(t.drop_last() =~= d.modules@.take(i as int));
                    assert(t.last() == c);
                    assert(*other == db.modules@[c.0 as int]);
                    assert(rel_of(db, c) == target);
                    assert(first_with_rel(db, t, target) == Some(c));
                    lemma_first_with_rel_prefix(db, d.modules@, i as int + 1, target);
                }
                return Some(c);
            }
            i = i + 1;
        }
        assert(d.modules@.take(i as int) =~= d.modules@);
        None
    }

    /// The item above this module: its parent module, or else its ingot.
    pub fn parent(&self, db: &Db) -> (r: Item)
        requires
            db.wf(),
            (self.0 as int) < db.modules@.len(),
        ensures
            Some(r) == parent_of(db, Item::Module(*self)),
    {
        match self.parent_module(db) {
            Some(p) => Item::Module(p),
            None => Item::Ingot(db.modules[self.0 as usize].ingot),
        }
    }
}

/// Where the first `n` elements already hold a match, the whole does too.
proof fn lemma_first_with_rel_prefix(db: &Db, s: Seq<ModuleId>, n: int, r: Seq<Seq<char>>)
    requires
        0 < n <= s.len(),
        first_with_rel(db, s.take(n), r) is Some,
    ensures
        first_with_rel(db, s, r) == first_with_rel(db, s.take(n), r),
    decreases s.len(),
{
    if n < s.len() {
        assert(s.drop_last().take(n) =~= s.take(n));
        lemma_first_with_rel_prefix(db, s.drop_last(), n, r);
    } else {
        assert(s.take(n) =~= s);
    }
}


impl Item {
    /// The declared name; built-ins give their fixed names.
    pub fn name(&self, db: &Db) -> (r: String)
        requires
            db.valid_item(*self),
        ensures
            r@ == item_name(db, *self),
    {
        match self {
            Item::Ingot(id) => db.ingots[id.0 as usize].name.clone(),
            Item::Module(id) => db.modules[id.0 as usize].name.clone(),
            Item::Type(TypeDef::Alias(id)) => db.type_aliases[id.0 as usize].ast.name.text.clone(),
            Item::Type(TypeDef::Struct(id)) => db.structs[id.0 as usize].ast.name.text.clone(),
            Item::Type(TypeDef::Contract(id)) => db.contracts[id.0 as usize].ast.name.text.clone(),
            Item::Type(TypeDef::Primitive(b)) => String::from_str(b.name()),
            Item::GenericType(g) => String::from_str(g.as_str()),
            Item::Event(id) => db.events[id.0 as usize].ast.name.text.clone(),
            Item::Function(id) => db.functions[id.0 as usize].ast.name.text.clone(),
            Item::Constant(id) => db.constants[id.0 as usize].ast.name.text.clone(),
            Item::BuiltinFunction(f) => String::from_str(f.as_str()),
            Item::Intrinsic(f) => String::from_str(f.as_str()),
            Item::Object(o) => String::from_str(o.as_str()),
        }
    }

    /// Where the name was declared; none for built-ins, ingots and modules.
    pub fn name_span(&self, db: &Db) -> (r: Option<Span>)
        requires
            db.valid_item(*self),
        ensures
            r == item_name_span(db, *self),
    {
        match self {
            Item::Type(TypeDef::Alias(id)) => Some(db.type_aliases[id.0 as usize].ast.name.span),
            Item::Type(TypeDef::Struct(id)) => Some(db.structs[id.0 as usize].ast.name.span),
            Item::Type(TypeDef::Contract(id)) => Some(db.contracts[id.0 as usize].ast.name.span),
            Item::Event(id) => Some(db.events[id.0 as usize].ast.name.span),
            Item::Function(id) => Some(db.functions[id.0 as usize].ast.name.span),
            Item::Constant(id) => Some(db.constants[id.0 as usize].ast.name.span),
            _ => None,
        }
    }

    /// The enclosing item; none for ingots and built-ins.
    pub fn parent(&self, db: &Db) -> (r: Option<Item>)
        requires
            db.wf(),
            db.valid_item(*self),
        ensures
            r == parent_of(db, *self),
    {
        match self {
            Item::Type(TypeDef::Alias(id)) => Some(Item::Module(db.type_aliases[id.0 as usize].module)),
            Item::Type(TypeDef::Struct(id)) => Some(Item::Module(db.structs[id.0 as usize].module)),
            Item::Type(TypeDef::Contract(id)) => Some(Item::Module(db.contracts[id.0 as usize].module)),
            Item::Event(id) => {
                let e = &db.events[id.0 as usize];
                match e.contract {
                    Some(c) => Some(Item::Type(TypeDef::Contract(c))),
                    None => Some(Item::Module(e.module)),
                }
            },
            Item::Function(id) => {
                let f = &db.functions[id.0 as usize];
                match &f.parent {
                    Some(c) => Some(c.as_item()),
                    None => Some(Item::Module(f.module)),
                }
            },
            Item::Constant(id) => Some(Item::Module(db.constants[id.0 as usize].module)),
            Item::Module(id) => Some(id.parent(db)),
            _ => None,
        }
    }

    /// The canonical path: the parent's path and then this item's name, with
    /// the ingot left out.
    pub fn path(&self, db: &Db) -> (r: Vec<String>)
        requires
            db.wf(),
            db.valid_item(*self),
        ensures
            strs(r@) == item_path(db, *self),
        decreases item_height(db, *self),
    {
        proof {
            lemma_parent_valid(db, *self);
        }
        let name = self.name(db);
        match self.parent(db) {
            Some(Item::Ingot(_)) | None => {
                let r = vec![name];
                assert(strs(r@) =~= seq![item_name(db, *self)]);
                r
            },
            Some(p) => {
                let mut r = p.path(db);
                let ghost before = strs(r@);
                r.push(name);
                assert(strs(r@) =~= before.push(item_name(db, *self)));
                r
            },
        }
    }
}

/// Where an item's name was declared.
pub open spec fn item_name_span(db: &Db, i: Item) -> Option<Span> {
    match i {
        Item::Type(TypeDef::Alias(id)) => Some(db.type_aliases@[id.0 as int].ast.name.span),
        Item::Type(TypeDef::Struct(id)) => Some(db.structs@[id.0 as int].ast.name.span),
        Item::Type(TypeDef::Contract(id)) => Some(db.contracts@[id.0 as int].ast.name.span),
        Item::Event(id) => Some(db.events@[id.0 as int].ast.name.span),
        Item::Function(id) => Some(db.functions@[id.0 as int].ast.name.span),
        Item::Constant(id) => Some(db.constants@[id.0 as int].ast.name.span),
        _ => None,
    }
}

/// In a well-formed database an item's path is its parent's path and then its
/// own name, or just its name where its parent is an ingot or it has none:
/// the chain of parents never stops early.
pub proof fn lemma_path_follows_parents(db: &Db, i: Item)
    requires
        db.wf(),
        db.valid_item(i),
    ensures
        item_path(db, i) == match parent_of(db, i) {
            Some(Item::Ingot(_)) | None => seq![item_name(db, i)],
            Some(p) => item_path(db, p).push(item_name(db, i)),
        },
        parent_chain(db, i) == match parent_of(db, i) {
            Some(Item::Ingot(_)) | None => seq![i],
            Some(p) => parent_chain(db, p).push(i),
        },
{
    lemma_parent_valid(db, i);
}

/// `c` with the leading components `p` taken off, where they lead it.
pub open spec fn strip_components(c: Seq<Seq<char>>, p: Seq<Seq<char>>) -> Seq<Seq<char>> {
    if is_prefix(p, c) {
        c.skip(p.len() as int)
    } else {
        c
    }
}

/// A module's path below its ingot's source directory: its file's path for a
/// file module (or its lowered form's), its directory's path for a directory.
pub open spec fn module_file_path(db: &Db, m: ModuleId) -> Seq<char> {
    let src = components(db.ingots@[db.modules@[m.0 as int].ingot.0 as int].src_dir@);
    match db.modules@[m.0 as int].source {
        ModuleSource::File(f) => join_path(strip_components(components(db.files@[f.0 as int].path@), src)),
        ModuleSource::Lowered { ast, .. } => join_path(strip_components(components(db.files@[ast.0 as int].path@), src)),
        ModuleSource::Dir(p) => p@,
    }
}

fn strip_leading(c: Vec<String>, p: &Vec<String>) -> (r: Vec<String>)
    ensures
        strs(r@) == strip_components(strs(c@), strs(p@)),
{
    if p.len() <= c.len() {
        let head = take_components(&c, p.len());
        if same_strings(&head, p) {
            return skip_components(&c, p.len());
        }
    }
    c
}

impl ModuleId {
    /// The module's path below its ingot's source directory.
    pub fn file_path_relative_to_src_dir(&self, db: &Db) -> (r: String)
        requires
            db.wf(),
            (self.0 as int) < db.modules@.len(),
        ensures
            r@ == module_file_path(db, *self),
    {
        proof {
            assert(db.module_ok(self.0 as int));
        }
        let m = &db.modules[self.0 as usize];
        let src = path_components(db.ingots[m.ingot.0 as usize].src_dir.as_str());
        match &m.source {
            ModuleSource::File(f) => {
                let c = path_components(db.files[f.0 as usize].path.as_str());
                join_components(&strip_leading(c, &src))
            },
            ModuleSource::Lowered { ast, .. } => {
                let c = path_components(db.files[ast.0 as usize].path.as_str());
                join_components(&strip_leading(c, &src))
            },
            ModuleSource::Dir(p) => p.clone(),
        }
    }
}

} // verus!
