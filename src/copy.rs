//! Copies of syntax trees that keep every part the analysis reads.
use crate::ast::{
    ConstantDecl, Contract, Event, Field, Function, FunctionArg, ModuleStmt, Name, Path, Pragma,
    Struct, TypeAlias, Use,
};
use vstd::prelude::*;

verus! {

/// Two paths with the same segments.
pub open spec fn same_path(a: Path, b: Path) -> bool {
    a.segments@ == b.segments@
}

/// Two optional paths that are both absent or have the same segments.
pub open spec fn same_opt_path(a: Option<Path>, b: Option<Path>) -> bool {
    match (a, b) {
        (None, None) => true,
        (Some(x), Some(y)) => same_path(x, y),
        _ => false,
    }
}

/// Two fields alike in every part.
pub open spec fn same_field(a: Field, b: Field) -> bool {
    a.is_pub == b.is_pub && a.name == b.name && same_path(a.typ, b.typ) && a.span == b.span
}

/// Two field lists alike field by field.
pub open spec fn same_fields(a: Seq<Field>, b: Seq<Field>) -> bool {
    a.len() == b.len() && forall|j: int| 0 <= j < a.len() ==> same_field(#[trigger] a[j], b[j])
}

/// Two parameters alike in every part.
pub open spec fn same_arg(a: FunctionArg, b: FunctionArg) -> bool {
    match (a, b) {
        (FunctionArg::Zelf(x), FunctionArg::Zelf(y)) => x == y,
        (FunctionArg::Regular { name: n1, typ: t1 }, FunctionArg::Regular { name: n2, typ: t2 }) =>
            n1 == n2 && same_path(t1, t2),
        _ => false,
    }
}

/// Two functions alike in every part but their bodies.
pub open spec fn same_function(a: Function, b: Function) -> bool {
    &&& a.pub_ == b.pub_
    &&& a.unsafe_ == b.unsafe_
    &&& a.name == b.name
    &&& a.span == b.span
    &&& same_opt_path(a.return_type, b.return_type)
    &&& a.args@.len() == b.args@.len()
    &&& forall|j: int| 0 <= j < a.args@.len() ==> same_arg(#[trigger] a.args@[j], b.args@[j])
}

/// Two function lists alike function by function.
pub open spec fn same_functions(a: Seq<Function>, b: Seq<Function>) -> bool {
    a.len() == b.len() && forall|j: int| 0 <= j < a.len() ==> same_function(#[trigger] a[j], b[j])
}

/// Two events alike in every part.
pub open spec fn same_event(a: Event, b: Event) -> bool {
    a.name == b.name && a.span == b.span && same_fields(a.fields@, b.fields@)
}

/// Two contracts alike in every part.
pub open spec fn same_contract(a: Contract, b: Contract) -> bool {
    &&& a.name == b.name
    &&& a.span == b.span
    &&& same_fields(a.fields@, b.fields@)
    &&& same_functions(a.functions@, b.functions@)
    &&& a.events@.len() == b.events@.len()
    &&& forall|j: int| 0 <= j < a.events@.len() ==> same_event(#[trigger] a.events@[j], b.events@[j])
}

/// Two structs alike in every part.
pub open spec fn same_struct(a: Struct, b: Struct) -> bool {
    a.name == b.name && a.span == b.span && same_fields(a.fields@, b.fields@) && same_functions(
        a.functions@,
        b.functions@,
    )
}

/// Two statements alike in every part.
pub open spec fn same_stmt(a: ModuleStmt, b: ModuleStmt) -> bool {
    match (a, b) {
        (ModuleStmt::Pragma(x), ModuleStmt::Pragma(y)) => x.version_requirement@ == y.version_requirement@ && x.span == y.span,
        (ModuleStmt::Use(x), ModuleStmt::Use(y)) => same_path(x.path, y.path) && x.alias == y.alias && x.span == y.span,
        (ModuleStmt::TypeAlias(x), ModuleStmt::TypeAlias(y)) => x.name == y.name && same_path(x.typ, y.typ) && x.span == y.span,
        (ModuleStmt::Contract(x), ModuleStmt::Contract(y)) => same_contract(x, y),
        (ModuleStmt::Struct(x), ModuleStmt::Struct(y)) => same_struct(x, y),
        (ModuleStmt::Function(x), ModuleStmt::Function(y)) => same_function(x, y),
        (ModuleStmt::Constant(x), ModuleStmt::Constant(y)) => x.name == y.name && same_path(x.typ, y.typ) && x.value == y.value && x.span == y.span,
        (ModuleStmt::Event(x), ModuleStmt::Event(y)) => same_event(x, y),
        _ => false,
    }
}

/// A copy of a name.
pub fn copy_name(n: &Name) -> (r: Name)
    ensures
        r == *n,
{
    Name { text: n.text.clone(), span: n.span }
}

/// A copy of a path.
pub fn copy_path(p: &Path) -> (r: Path)
    ensures
        same_path(r, *p),
{
    let mut segments: Vec<Name> = Vec::new();
    let mut i: usize = 0;
    while i < p.segments.len()
        invariant
            i <= p.segments@.len(),
            segments@ == p.segments@.take(i as int),
        decreases p.segments@.len() - i,
    {
        segments.push(copy_name(&p.segments[i]));
        assert(p.segments@.take(i as int + 1) =~= p.segments@.take(i as int).push(p.segments@[i as int]));
        i = i + 1;
    }
    assert(p.segments@.take(i as int) =~= p.segments@);
    Path { segments }
}

/// A copy of a field.
pub fn copy_field(f: &Field) -> (r: Field)
    ensures
        same_field(r, *f),
{
    Field { is_pub: f.is_pub, name: copy_name(&f.name), typ: copy_path(&f.typ), span: f.span }
}

/// A copy of a field list.
pub fn copy_fields(v: &Vec<Field>) -> (r: Vec<Field>)
    ensures
        same_fields(r@, v@),
{
    let mut r: Vec<Field> = Vec::new();
    let mut i: usize = 0;
    while i < v.len()
        invariant
            i <= v@.len(),
            r@.len() == i,
            forall|j: int| 0 <= j < i ==> same_field(#[trigger] r@[j], v@[j]),
        decreases v@.len() - i,
    {
        r.push(copy_field(&v[i]));
        i = i + 1;
    }
    r
}

/// A copy of a function, but for its body.
pub fn copy_function(f: &Function) -> (r: Function)
    ensures
        same_function(r, *f),
{
    let mut args: Vec<FunctionArg> = Vec::new();
    let mut i: usize = 0;
    while i < f.args.len()
        invariant
            i <= f.args@.len(),
            args@.len() == i,
            forall|j: int| 0 <= j < i ==> same_arg(#[trigger] args@[j], f.args@[j]),
        decreases f.args@.len() - i,
    {
        let a = match &f.args[i] {
            FunctionArg::Zelf(s) => FunctionArg::Zelf(*s),
            FunctionArg::Regular { name, typ } => FunctionArg::Regular { name: copy_name(name), typ: copy_path(typ) },
        };
        args.push(a);
        i = i + 1;
    }
    let return_type = match &f.return_type {
        Some(p) => Some(copy_path(p)),
        None => None,
    };
    Function { pub_: f.pub_, unsafe_: f.unsafe_, name: copy_name(&f.name), args, return_type, span: f.span }
}

/// A copy of a function list.
pub fn copy_functions(v: &Vec<Function>) -> (r: Vec<Function>)
    ensures
        same_functions(r@, v@),
{
    let mut r: Vec<Function> = Vec::new();
    let mut i: usize = 0;
    while i < v.len()
        invariant
            i <= v@.len(),
            r@.len() == i,
            forall|j: int| 0 <= j < i ==> same_function(#[trigger] r@[j], v@[j]),
        decreases v@.len() - i,
    {
        r.push(copy_function(&v[i]));
        i = i + 1;
    }
    r
}

/// A copy of an event.
pub fn copy_event(e: &Event) -> (r: Event)
    ensures
        same_event(r, *e),
{
    Event { name: copy_name(&e.name), fields: copy_fields(&e.fields), span: e.span }
}

/// A copy of a contract.
pub fn copy_contract(c: &Contract) -> (r: Contract)
    ensures
        same_contract(r, *c),
{
    let mut events: Vec<Event> = Vec::new();
    let mut i: usize = 0;
    while i < c.events.len()
        invariant
            i <= c.events@.len(),
            events@.len() == i,
            forall|j: int| 0 <= j < i ==> same_event(#[trigger] events@[j], c.events@[j]),
        decreases c.events@.len() - i,
    {
        events.push(copy_event(&c.events[i]));
        i = i + 1;
    }
    Contract {
        name: copy_name(&c.name),
        fields: copy_fields(&c.fields),
        functions: copy_functions(&c.functions),
        events,
        span: c.span,
    }
}

/// A copy of a module's syntax tree.
pub fn copy_module(a: &crate::ast::Module) -> (r: crate::ast::Module)
    ensures
        r.body@.len() == a.body@.len(),
        forall|k: int| 0 <= k < a.body@.len() ==> same_stmt(#[trigger] r.body@[k], a.body@[k]),
{
    let mut body: Vec<ModuleStmt> = Vec::new();
    let mut i: usize = 0;
    while i < a.body.len()
        invariant
            i <= a.body@.len(),
            body@.len() == i,
            forall|k: int| 0 <= k < i ==> same_stmt(#[trigger] body@[k], a.body@[k]),
        decreases a.body@.len() - i,
    {
        body.push(copy_stmt(&a.body[i]));
        i = i + 1;
    }
    crate::ast::Module { body }
}

/// A copy of a struct.
pub fn copy_struct(st: &Struct) -> (r: Struct)
    ensures
        same_struct(r, *st),
{
    Struct { name: copy_name(&st.name), fields: copy_fields(&st.fields), functions: copy_functions(&st.functions), span: st.span }
}

/// A copy of a statement.
pub fn copy_stmt(s: &ModuleStmt) -> (r: ModuleStmt)
    ensures
        same_stmt(r, *s),
{
    match s {
        ModuleStmt::Pragma(p) => ModuleStmt::Pragma(Pragma { version_requirement: p.version_requirement.clone(), span: p.span }),
        ModuleStmt::Use(u) => ModuleStmt::Use(Use {
            path: copy_path(&u.path),
            alias: match &u.alias {
                Some(a) => Some(copy_name(a)),
                None => None,
            },
            span: u.span,
        }),
        ModuleStmt::TypeAlias(a) => ModuleStmt::TypeAlias(TypeAlias { name: copy_name(&a.name), typ: copy_path(&a.typ), span: a.span }),
        ModuleStmt::Contract(c) => ModuleStmt::Contract(copy_contract(c)),
        ModuleStmt::Struct(st) => ModuleStmt::Struct(copy_struct(st)),
        ModuleStmt::Function(f) => ModuleStmt::Function(copy_function(f)),
        ModuleStmt::Constant(c) => ModuleStmt::Constant(ConstantDecl { name: copy_name(&c.name), typ: copy_path(&c.typ), value: c.value, span: c.span }),
        ModuleStmt::Event(e) => ModuleStmt::Event(copy_event(e)),
    }
}

} // verus!
