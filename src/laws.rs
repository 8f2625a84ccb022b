//! Properties that relate the scope and resolution functions.
use crate::db::Db;
use crate::ids::{Item, ModuleId};
use crate::item::{item_name, parent_of, root_of};
use crate::namemap::{collect_pairs, key_set, last_value, lemma_collect_pairs, lookup};
use crate::scope::{
    entity_at, items_upto, lemma_index_at_pub,
    declared_fold, declared_pairs, global_pairs, item_map_pairs, items_of, internal_scope,
    module_all_items, non_used_scope, resolve_spec, sub_pairs, used_pairs, without_keys,
};
use vstd::prelude::*;

verus! {

proof fn lemma_key_set_concat(a: Seq<(Seq<char>, Item)>, b: Seq<(Seq<char>, Item)>)
    ensures
        key_set(a + b) == key_set(a).union(key_set(b)),
{
    assert(key_set(a + b) =~= key_set(a).union(key_set(b))) by {
        assert forall|k: Seq<char>| key_set(a + b).contains(k) implies key_set(a).union(key_set(b)).contains(k) by {
            let j = choose|j: int| 0 <= j < (a + b).len() && (a + b)[j].0 == k;
            if j < a.len() {
                assert(a[j] == (a + b)[j]);
            } else {
                assert(b[j - a.len()] == (a + b)[j]);
            }
        }
        assert forall|k: Seq<char>| key_set(a).union(key_set(b)).contains(k) implies key_set(a + b).contains(k) by {
            if key_set(a).contains(k) {
                let j = choose|j: int| 0 <= j < a.len() && a[j].0 == k;
                assert((a + b)[j] == a[j]);
            } else {
                let j = choose|j: int| 0 <= j < b.len() && b[j].0 == k;
                assert((a + b)[a.len() + j] == b[j]);
            }
        }
    }
}

proof fn lemma_without_keys_keys(s: Seq<(Seq<char>, Item)>, ks: Set<Seq<char>>, k: Seq<char>)
    requires
        key_set(s).contains(k),
        !ks.contains(k),
    ensures
        key_set(without_keys(s, ks)).contains(k),
    decreases s.len(),
{
    let d = s.drop_last();
    if s.last().0 == k {
        assert(without_keys(s, ks) == without_keys(d, ks).push(s.last()));
        assert(without_keys(s, ks)[without_keys(d, ks).len() as int].0 == k);
    } else {
        let j = choose|j: int| 0 <= j < s.len() && s[j].0 == k;
        assert(d[j] == s[j]);
        lemma_without_keys_keys(d, ks, k);
        let w = without_keys(d, ks);
        let i = choose|i: int| 0 <= i < w.len() && w[i].0 == k;
        if !ks.contains(s.last().0) {
            assert(without_keys(s, ks)[i] == w[i]);
        }
    }
}

/// Every name of a module's cycle-safe scope is a name of its full scope, and
/// every global name is a name of its cycle-safe scope.
pub proof fn lemma_scope_keys_nested(db: &Db, m: ModuleId)
    ensures
        key_set(non_used_scope(db, m)).subset_of(key_set(internal_scope(db, m))),
        key_set(collect_pairs(global_pairs(db, m))).subset_of(key_set(non_used_scope(db, m))),
{
    let g = global_pairs(db, m);
    let s = sub_pairs(db, m);
    let d = declared_pairs(db, m);
    let u = used_pairs(db, m);
    let w = without_keys(d, key_set(u));
    lemma_collect_pairs(g);
    lemma_collect_pairs(g + s + d);
    lemma_collect_pairs(g + s + item_map_pairs(db, m));
    lemma_key_set_concat(g, s);
    lemma_key_set_concat(g + s, d);
    lemma_key_set_concat(g + s, w + u);
    lemma_key_set_concat(w, u);
    assert forall|k: Seq<char>| key_set(d).contains(k) implies key_set(w + u).contains(k) by {
        if !key_set(u).contains(k) {
            lemma_without_keys_keys(d, key_set(u), k);
        }
    }
}

/// The child scope of an ingot is that of its root module.
pub proof fn lemma_ingot_items_are_root_items(db: &Db, x: crate::ids::IngotId, r: ModuleId)
    requires
        root_of(db, x) == Some(r),
    ensures
        items_of(db, Item::Ingot(x)) == items_of(db, Item::Module(r)),
{
}

proof fn lemma_last_value_concat(a: Seq<(Seq<char>, Item)>, b: Seq<(Seq<char>, Item)>, n: Seq<char>)
    ensures
        last_value(a + b, n) == if last_value(b, n) is Some {
            last_value(b, n)
        } else {
            last_value(a, n)
        },
    decreases b.len(),
{
    if b.len() == 0 {
        assert(a + b =~= a);
    } else {
        assert((a + b).drop_last() =~= a + b.drop_last());
        assert((a + b).last() == b.last());
        lemma_last_value_concat(a, b.drop_last(), n);
    }
}

proof fn lemma_last_value_absent(a: Seq<(Seq<char>, Item)>, n: Seq<char>)
    requires
        !key_set(a).contains(n),
    ensures
        last_value(a, n) is None,
    decreases a.len(),
{
    if a.len() > 0 {
        assert(a[a.len() - 1].0 == a.last().0);
        assert forall|j: int| 0 <= j < a.drop_last().len() implies a.drop_last()[j].0 != n by {
            assert(a.drop_last()[j] == a[j]);
        }
        lemma_last_value_absent(a.drop_last(), n);
    }
}

proof fn lemma_last_value_without(s: Seq<(Seq<char>, Item)>, ks: Set<Seq<char>>, n: Seq<char>)
    requires
        !ks.contains(n),
    ensures
        last_value(without_keys(s, ks), n) == last_value(s, n),
    decreases s.len(),
{
    if s.len() > 0 {
        let d = s.drop_last();
        lemma_last_value_without(d, ks, n);
        if ks.contains(s.last().0) {
            assert(without_keys(s, ks) == without_keys(d, ks));
            assert(s.last().0 != n);
        } else {
            let w = without_keys(d, ks).push(s.last());
            assert(without_keys(s, ks) == w);
            assert(w.drop_last() =~= without_keys(d, ks));
            assert(w.last() == s.last());
        }
    }
}

proof fn lemma_declared_keys(db: &Db, g: Seq<(Seq<char>, Item)>, items: Seq<Item>, n: Seq<char>)
    requires
        key_set(declared_fold(db, g, items)).contains(n),
    ensures
        exists|j: int| 0 <= j < items.len() && item_name(db, items[j]) == n,
    decreases items.len(),
{
    let prev = declared_fold(db, g, items.drop_last());
    if key_set(prev).contains(n) {
        lemma_declared_keys(db, g, items.drop_last(), n);
        let j = choose|j: int| 0 <= j < items.drop_last().len() && item_name(db, items.drop_last()[j]) == n;
        assert(items[j] == items.drop_last()[j]);
    } else {
        let f = declared_fold(db, g, items);
        let j = choose|j: int| 0 <= j < f.len() && f[j].0 == n;
        if j < prev.len() {
            assert(f[j] == prev[j]);
        }
        assert(item_name(db, items[items.len() - 1]) == n);
    }
}

proof fn lemma_declared_last_value(db: &Db, g: Seq<(Seq<char>, Item)>, items: Seq<Item>, k: int)
    requires
        0 <= k < items.len(),
        !key_set(g).contains(item_name(db, items[k])),
        forall|j: int| 0 <= j < k ==> item_name(db, items[j]) != item_name(db, items[k]),
    ensures
        last_value(declared_fold(db, g, items), item_name(db, items[k])) == Some(items[k]),
        key_set(declared_fold(db, g, items)).contains(item_name(db, items[k])),
    decreases items.len(),
{
    let n = item_name(db, items[k]);
    let d = items.drop_last();
    let prev = declared_fold(db, g, d);
    let f = declared_fold(db, g, items);
    if k == items.len() - 1 {
        if key_set(prev).contains(n) {
            lemma_declared_keys(db, g, d, n);
            let j = choose|j: int| 0 <= j < d.len() && item_name(db, d[j]) == n;
            assert(d[j] == items[j]);
        }
        assert(f == prev.push((n, items[k])));
        assert(f[prev.len() as int].0 == n);
        assert(f.last() == (n, items[k]));
    } else {
        assert(d[k] == items[k]);
        assert forall|j: int| 0 <= j < k implies item_name(db, d[j]) != item_name(db, d[k]) by {
            assert(d[j] == items[j]);
        }
        lemma_declared_last_value(db, g, d, k);
        if f != prev {
            let e = (item_name(db, items.last()), items.last());
            assert(f == prev.push(e));
            assert(f.drop_last() =~= prev);
            let j = choose|j: int| 0 <= j < prev.len() && prev[j].0 == n;
            assert(f[j] == prev[j]);
            assert(e.0 != n);
            assert(f.last() == e);
        }
    }
}

/// Resolving the name of an item that module `m` declares, from the item's
/// parent (which is `m`), gives the item back, where no global name,
/// submodule or import shares its name and no earlier declaration of `m` does.
pub proof fn lemma_resolve_declared_from_parent(db: &Db, m: ModuleId, k: int)
    requires
        db.wf(),
        0 <= k < module_all_items(db, m).len(),
        !key_set(global_pairs(db, m)).contains(item_name(db, module_all_items(db, m)[k])),
        !key_set(sub_pairs(db, m)).contains(item_name(db, module_all_items(db, m)[k])),
        !key_set(used_pairs(db, m)).contains(item_name(db, module_all_items(db, m)[k])),
        forall|j: int|
            0 <= j < k ==> item_name(db, module_all_items(db, m)[j]) != item_name(
                db,
                module_all_items(db, m)[k],
            ),
    ensures
        parent_of(db, module_all_items(db, m)[k]) == Some(Item::Module(m)),
        resolve_spec(db, Item::Module(m), seq![item_name(db, module_all_items(db, m)[k])]) == Some(
            module_all_items(db, m)[k],
        ),
{
    lemma_declared_parent(db, m, crate::scope::module_body(db, m).len(), k);
    let items = module_all_items(db, m);
    let it = items[k];
    let n = item_name(db, it);
    let g = global_pairs(db, m);
    let s = sub_pairs(db, m);
    let d = declared_pairs(db, m);
    let u = used_pairs(db, m);
    let w = without_keys(d, key_set(u));
    lemma_declared_last_value(db, g, items, k);
    lemma_last_value_without(d, key_set(u), n);
    lemma_last_value_absent(u, n);
    lemma_last_value_concat(w, u, n);
    lemma_last_value_concat(g + s, w + u, n);
    lemma_collect_pairs(g + s + item_map_pairs(db, m));
    assert(g + s + item_map_pairs(db, m) == (g + s) + (w + u));
    assert(lookup(internal_scope(db, m), n) == Some(it));
    let segs = seq![n];
    assert(segs[0] == n);
    assert(segs.drop_first().len() == 0);
    assert(items_of(db, Item::Module(m)) == internal_scope(db, m));
    assert(resolve_spec(db, it, segs.drop_first()) == Some(it));
}

proof fn lemma_entity_parent(db: &Db, m: ModuleId, i: usize)
    requires
        db.wf(),
    ensures
        entity_at(db, m, i) matches Some(it) ==> parent_of(db, it) == Some(Item::Module(m)),
{
    lemma_index_at_pub(db.contracts@, m, i);
    lemma_index_at_pub(db.structs@, m, i);
    lemma_index_at_pub(db.functions@, m, i);
    lemma_index_at_pub(db.events@, m, i);
    lemma_index_at_pub(db.type_aliases@, m, i);
    lemma_index_at_pub(db.constants@, m, i);
}

/// Every item that a module declares has the module as its parent.
pub proof fn lemma_declared_parent(db: &Db, m: ModuleId, k: nat, j: int)
    requires
        db.wf(),
        0 <= j < items_upto(db, m, k).len(),
    ensures
        parent_of(db, items_upto(db, m, k)[j]) == Some(Item::Module(m)),
    decreases k,
{
    if k > 0 {
        let prev = items_upto(db, m, (k - 1) as nat);
        lemma_entity_parent(db, m, (k - 1) as usize);
        if j < prev.len() {
            lemma_declared_parent(db, m, (k - 1) as nat, j);
            match entity_at(db, m, (k - 1) as usize) {
                Some(it) => assert(items_upto(db, m, k)[j] == prev[j]),
                None => {},
            }
        }
    }
}

} // verus!
