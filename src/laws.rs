use vstd::prelude::*;
use crate::classify::{attrs_ok, GenError};
use crate::emit::{load_code, load_header};
use crate::generate::{generate_spec, glue_spec, objects_code};
use crate::classify::last_hook;
use crate::model::{BindingV, ImplDecl, ImplItemDecl, ItemDecl, MethodDecl, ModuleDecl, NodeV};
use crate::module::{
    assemble_spec, empty_module, has_object, object_pos, fn_binding, module_fold, namespace_spec, static_binding, ModuleV,
};
use crate::object::{
    add_method_spec, empty_object, has_receiver, impl_fold, index_key, lemma_put_wf_table,
    method_binding, method_spec, object_spec, object_wf, ObjectV,
};
use crate::table::{as_map, has_key, key_pos, lemma_put_unique, put, unique_keys};

verus! {

/// A free function or a static.
pub open spec fn is_plain(it: ItemDecl) -> bool {
    it is Fn || it is Static
}

pub open spec fn item_name(it: ItemDecl) -> Seq<char> {
    match it {
        ItemDecl::Fn { name, .. } => name@,
        ItemDecl::Static { name } => name@,
        _ => Seq::empty(),
    }
}

pub open spec fn item_binding(it: ItemDecl) -> BindingV {
    match it {
        ItemDecl::Fn { name, n_args } => fn_binding(name@, n_args as nat),
        ItemDecl::Static { name } => static_binding(name@),
        _ => BindingV::Value(Seq::empty()),
    }
}

/// The namespace entry a free function or a static gets.
pub open spec fn item_entry(it: ItemDecl) -> (Seq<char>, BindingV) {
    (item_name(it), item_binding(it))
}

pub open spec fn distinct_names(items: Seq<ItemDecl>) -> bool {
    forall|i: int, j: int|
        0 <= i < items.len() && 0 <= j < items.len() && item_name(#[trigger] items[i]) == item_name(
            #[trigger] items[j],
        ) ==> i == j
}

proof fn lemma_plain_fold(ident: Seq<char>, items: Seq<ItemDecl>, k: int)
    requires
        0 <= k <= items.len(),
        forall|i: int| 0 <= i < items.len() ==> is_plain(#[trigger] items[i]),
        distinct_names(items),
    ensures
        module_fold(empty_module(ident), items.subrange(0, k)) == Ok::<ModuleV, GenError>(
            ModuleV {
                ident,
                objects: Seq::empty(),
                table: items.subrange(0, k).map_values(|it: ItemDecl| item_entry(it)),
            },
        ),
    decreases k,
{
    let pre = items.subrange(0, k);
    if k == 0 {
        assert(pre.map_values(|it: ItemDecl| item_entry(it)) =~= Seq::empty());
    } else {
        let d = items.subrange(0, k - 1);
        assert(pre.drop_last() =~= d);
        lemma_plain_fold(ident, items, k - 1);
        let t = d.map_values(|it: ItemDecl| item_entry(it));
        let it = items[k - 1];
        assert(pre.last() == it);
        assert(!has_key(t, item_name(it))) by {
            if has_key(t, item_name(it)) {
                let p = crate::table::key_pos(t, item_name(it));
                assert(t[p] == item_entry(items[p]));
            }
        }
        assert(put(t, item_name(it), item_binding(it)) =~= pre.map_values(
            |it: ItemDecl| item_entry(it),
        ));
    }
}

/// A public module holding only free functions and statics, each under its
/// own name, gets a namespace table with exactly one entry per item, in the
/// order declared, and no object, hence no nested table.
pub proof fn law_plain_module_namespace(m: ModuleDecl)
    requires
        m.is_public,
        forall|i: int| 0 <= i < m.items@.len() ==> is_plain(#[trigger] m.items@[i]),
        distinct_names(m.items@),
    ensures
        match assemble_spec(m) {
            Ok(mv) => {
                &&& mv.objects.len() == 0
                &&& namespace_spec(mv).len() == m.items@.len()
                &&& forall|i: int|
                    0 <= i < m.items@.len() ==> #[trigger] namespace_spec(mv)[i] == item_entry(
                        m.items@[i],
                    )
                &&& unique_keys(namespace_spec(mv))
            },
            Err(_) => false,
        },
{
    lemma_plain_fold(m.name@, m.items@, m.items@.len() as int);
    assert(m.items@.subrange(0, m.items@.len() as int) =~= m.items@);
    let mv = assemble_spec(m)->Ok_0;
    let ns = namespace_spec(mv);
    assert(ns == mv.table);
    assert forall|i: int, j: int|
        0 <= i < ns.len() && 0 <= j < ns.len() && #[trigger] ns[i].0 == #[trigger] ns[j].0 implies i
        == j by {
        assert(ns[i] == item_entry(m.items@[i]));
        assert(ns[j] == item_entry(m.items@[j]));
    }
}

proof fn lemma_object_free_fold(ident: Seq<char>, items: Seq<ItemDecl>, k: int)
    requires
        0 <= k <= items.len(),
        forall|i: int| 0 <= i < items.len() ==> !(#[trigger] items[i] is Impl),
    ensures
        module_fold(empty_module(ident), items.subrange(0, k)) matches Ok(mv) && mv.ident == ident
            && mv.objects.len() == 0,
    decreases k,
{
    if k > 0 {
        let pre = items.subrange(0, k);
        assert(pre.drop_last() =~= items.subrange(0, k - 1));
        assert(pre.last() == items[k - 1]);
        lemma_object_free_fold(ident, items, k - 1);
    }
}

/// A public module without implementation blocks generates no adapter and
/// no hook table: only its `load` entry point, which is empty when the
/// namespace table is.
pub proof fn law_object_free_output(m: ModuleDecl)
    requires
        m.is_public,
        forall|i: int| 0 <= i < m.items@.len() ==> !(#[trigger] m.items@[i] is Impl),
    ensures
        match assemble_spec(m) {
            Ok(mv) => {
                &&& generate_spec(m) == Ok::<Seq<char>, GenError>(
                    load_code(m.name@, namespace_spec(mv)),
                )
                &&& namespace_spec(mv).len() == 0 ==> generate_spec(m) == Ok::<
                    Seq<char>,
                    GenError,
                >(load_header() + "}\n"@)
            },
            Err(_) => false,
        },
{
    lemma_object_free_fold(m.name@, m.items@, m.items@.len() as int);
    assert(m.items@.subrange(0, m.items@.len() as int) =~= m.items@);
    let mv = assemble_spec(m)->Ok_0;
    assert(objects_code(mv.objects) == Seq::<char>::empty());
    assert(glue_spec(mv) =~= load_code(m.name@, namespace_spec(mv)));
    if namespace_spec(mv).len() == 0 {
        assert(load_code(m.name@, namespace_spec(mv)) =~= load_header() + "}\n"@);
    }
}

/// Generation is a function of the declaration: equal declarations give the
/// same assembled tables and the same text.
pub proof fn law_deterministic(a: ModuleDecl, b: ModuleDecl)
    requires
        a == b,
    ensures
        assemble_spec(a) == assemble_spec(b),
        generate_spec(a) == generate_spec(b),
{
}

proof fn lemma_impl_bad_attr(o: ObjectV, s: Seq<ImplItemDecl>, k: int)
    requires
        0 <= k < s.len(),
        s[k] matches ImplItemDecl::Method(md) && !attrs_ok(md.attrs@),
    ensures
        impl_fold(o, s) is Err,
{
    match impl_fold(o, s.subrange(0, k)) {
        Err(e) => crate::object::lemma_fold_err_prefix(o, s, k, e),
        Ok(_) => {
            let next = s.subrange(0, k + 1);
            assert(next.drop_last() =~= s.subrange(0, k));
            assert(next.last() == s[k]);
            crate::object::lemma_fold_err_prefix(o, s, k + 1, GenError::UnrecognizedAttribute);
        },
    }
}

/// A method carrying a generator attribute that names no hook stops the
/// generation of its whole module: no text is produced.
pub proof fn law_unrecognized_attribute_aborts(m: ModuleDecl, j: int, k: int)
    requires
        0 <= j < m.items@.len(),
        m.items@[j] is Impl,
        0 <= k < m.items@[j]->Impl_0.items@.len(),
        m.items@[j]->Impl_0.items@[k] matches ImplItemDecl::Method(md) && !attrs_ok(md.attrs@),
    ensures
        generate_spec(m) is Err,
{
    if m.is_public {
        let s = m.items@;
        let ident = empty_module(m.name@);
        let i = s[j]->Impl_0;
        lemma_impl_bad_attr(crate::object::empty_object(i.self_ty@), i.items@, k);
        match module_fold(ident, s.subrange(0, j)) {
            Err(e) => crate::module::lemma_fold_err_prefix(ident, s, j, e),
            Ok(mv) => {
                let next = s.subrange(0, j + 1);
                assert(next.drop_last() =~= s.subrange(0, j));
                assert(next.last() == s[j]);
                if has_object(mv.objects, i.self_ty@) {
                    let o = mv.objects[object_pos(mv.objects, i.self_ty@)];
                    lemma_impl_bad_attr(o, i.items@, k);
                    crate::module::lemma_fold_err_prefix(ident, s, j + 1, impl_fold(o, i.items@)->Err_0);
                } else {
                    crate::module::lemma_fold_err_prefix(ident, s, j + 1, object_spec(i)->Err_0);
                }
            },
        }
    }
}

/// A method with a receiver bound to a hook.
pub open spec fn hooked(m: MethodDecl) -> bool {
    has_receiver(m.params@) && last_hook(m.attrs@) is Some
}

/// A method with a receiver and no hook.
pub open spec fn indexed(m: MethodDecl) -> bool {
    has_receiver(m.params@) && last_hook(m.attrs@) is None
}

/// The `__index` table of an object's metatable; empty when there is none.
pub open spec fn index_of(o: ObjectV) -> Seq<(Seq<char>, BindingV)> {
    if as_map(o.metatable).contains_key(index_key()) {
        match as_map(o.metatable)[index_key()] {
            NodeV::Table(t) => t,
            NodeV::Leaf(_) => Seq::empty(),
        }
    } else {
        Seq::empty()
    }
}

/// Method `m` stands where it belongs in `o`: a method without receiver
/// among the constructors; one bound to a hook in that hook's slot and not in
/// the `__index` table; any other in the `__index` table and in no hook slot.
/// A method with a receiver is never among the constructors.
pub open spec fn filed(o: ObjectV, m: MethodDecl) -> bool {
    let b = method_binding(o.self_ty, m);
    if !has_receiver(m.params@) {
        as_map(o.constructors).contains_key(m.name@) && as_map(o.constructors)[m.name@] == b
    } else {
        match last_hook(m.attrs@) {
            Some(h) => {
                &&& !as_map(o.constructors).contains_key(m.name@)
                &&& as_map(o.metatable).contains_key(h)
                &&& as_map(o.metatable)[h] == NodeV::Leaf(b)
                &&& !as_map(index_of(o)).contains_key(m.name@)
            },
            None => {
                &&& !as_map(o.constructors).contains_key(m.name@)
                &&& as_map(index_of(o)).contains_key(m.name@)
                &&& as_map(index_of(o))[m.name@] == b
                &&& forall|k: Seq<char>| #[trigger]
                    as_map(o.metatable).contains_key(k) ==> as_map(o.metatable)[k] != NodeV::Leaf(b)
            },
        }
    }
}

/// No two methods of the block share a name.
pub open spec fn distinct_methods(items: Seq<ImplItemDecl>) -> bool {
    forall|i: int, j: int|
        0 <= i < items.len() && 0 <= j < items.len() && #[trigger] items[i] is Method
            && #[trigger] items[j] is Method && items[i]->Method_0.name@ == items[j]->Method_0.name@
            ==> i == j
}

/// No two methods are bound to the same hook.
pub open spec fn distinct_hooks(items: Seq<ImplItemDecl>) -> bool {
    forall|i: int, j: int|
        0 <= i < items.len() && 0 <= j < items.len() && #[trigger] items[i] is Method
            && #[trigger] items[j] is Method && hooked(items[i]->Method_0) && hooked(
            items[j]->Method_0,
        ) && last_hook(items[i]->Method_0.attrs@) == last_hook(items[j]->Method_0.attrs@) ==> i
            == j
}

/// What holds after the first `k` items of a block have been filed into `o`.
pub open spec fn filed_inv(o: ObjectV, items: Seq<ImplItemDecl>, k: int) -> bool {
    &&& object_wf(o)
    &&& forall|j: int|
        0 <= j < k && #[trigger] items[j] is Method ==> filed(o, items[j]->Method_0)
    &&& forall|key: Seq<char>| #[trigger]
        as_map(o.metatable).contains_key(key) ==> (key == index_key() && as_map(
            o.metatable,
        )[key] is Table) || exists|j: int|
            0 <= j < k && #[trigger] items[j] is Method && hooked(items[j]->Method_0) && last_hook(
                items[j]->Method_0.attrs@,
            ) == Some(key) && as_map(o.metatable)[key] == NodeV::Leaf(
                method_binding(o.self_ty, items[j]->Method_0),
            )
    &&& forall|key: Seq<char>| #[trigger]
        as_map(o.constructors).contains_key(key) ==> exists|j: int|
            0 <= j < k && #[trigger] items[j] is Method && !has_receiver(items[j]->Method_0.params@)
                && items[j]->Method_0.name@ == key
    &&& forall|key: Seq<char>| #[trigger]
        as_map(index_of(o)).contains_key(key) ==> exists|j: int|
            0 <= j < k && #[trigger] items[j] is Method && indexed(items[j]->Method_0)
                && items[j]->Method_0.name@ == key
}

proof fn lemma_wf_index(o: ObjectV)
    requires
        object_wf(o),
    ensures
        unique_keys(index_of(o)),
{
    if as_map(o.metatable).contains_key(index_key()) {
        let p = key_pos(o.metatable, index_key());
        assert(has_key(o.metatable, index_key()));
        assert(o.metatable[p].1 == as_map(o.metatable)[index_key()]);
    }
    assert(unique_keys(Seq::<(Seq<char>, BindingV)>::empty()));
}

proof fn lemma_filed_step(o: ObjectV, items: Seq<ImplItemDecl>, k: int)
    requires
        0 <= k < items.len(),
        filed_inv(o, items, k),
        distinct_methods(items),
        distinct_hooks(items),
        items[k] matches ImplItemDecl::Method(m) && method_spec(o, m) is Ok,
    ensures
        filed_inv(method_spec(o, items[k]->Method_0)->Ok_0, items, k + 1),
{
    let m = items[k]->Method_0;
    let o2 = method_spec(o, m)->Ok_0;
    let b = method_binding(o.self_ty, m);
    let mt = o.metatable;
    let mt2 = o2.metatable;
    lemma_wf_index(o);
    assert(o2.self_ty == o.self_ty);
    assert(o2 == add_method_spec(o, m, last_hook(m.attrs@))->Ok_0);
    if !has_receiver(m.params@) {
        lemma_put_unique(o.constructors, m.name@, b);
        assert(o2.metatable == mt);
        assert(index_of(o2) == index_of(o));
        assert forall|j: int| 0 <= j < k + 1 && #[trigger] items[j] is Method implies filed(
            o2,
            items[j]->Method_0,
        ) by {
            if j < k {
                assert(filed(o, items[j]->Method_0));
                assert(items[k] is Method);
                assert(items[j]->Method_0.name@ != m.name@);
            }
        }
        assert forall|key: Seq<char>| #[trigger] as_map(o2.constructors).contains_key(key) implies exists|j: int|
            0 <= j < k + 1 && #[trigger] items[j] is Method && !has_receiver(items[j]->Method_0.params@)
                && items[j]->Method_0.name@ == key by {
            if key == m.name@ {
                assert(items[k] is Method);
            } else {
                assert(as_map(o.constructors).contains_key(key));
                let j = choose|j: int|
                    0 <= j < k && #[trigger] items[j] is Method && !has_receiver(
                        items[j]->Method_0.params@,
                    ) && items[j]->Method_0.name@ == key;
                assert(items[j] is Method);
            }
        }
        assert forall|key: Seq<char>| #[trigger] as_map(index_of(o2)).contains_key(key) implies exists|j: int|
            0 <= j < k + 1 && #[trigger] items[j] is Method && indexed(items[j]->Method_0)
                && items[j]->Method_0.name@ == key by {
            assert(as_map(index_of(o)).contains_key(key));
        }
        assert forall|key: Seq<char>| #[trigger] as_map(mt2).contains_key(key) && key != index_key() implies exists|j: int|
            0 <= j < k + 1 && #[trigger] items[j] is Method && hooked(items[j]->Method_0)
                && last_hook(items[j]->Method_0.attrs@) == Some(key) && as_map(mt2)[key]
                == NodeV::Leaf(method_binding(o2.self_ty, items[j]->Method_0)) by {
            assert(as_map(mt).contains_key(key));
        }
    } else {
        let h = last_hook(m.attrs@);
        assert(o2.constructors == o.constructors);
        assert(!as_map(o.constructors).contains_key(m.name@)) by {
            if as_map(o.constructors).contains_key(m.name@) {
                let j = choose|j: int|
                    0 <= j < k && #[trigger] items[j] is Method && !has_receiver(
                        items[j]->Method_0.params@,
                    ) && items[j]->Method_0.name@ == m.name@;
                assert(items[k] is Method);
            }
        }
        assert forall|key: Seq<char>| #[trigger] as_map(o2.constructors).contains_key(key) implies exists|j: int|
            0 <= j < k + 1 && #[trigger] items[j] is Method && !has_receiver(items[j]->Method_0.params@)
                && items[j]->Method_0.name@ == key by {
            let j = choose|j: int|
                0 <= j < k && #[trigger] items[j] is Method && !has_receiver(
                    items[j]->Method_0.params@,
                ) && items[j]->Method_0.name@ == key;
            assert(items[j] is Method);
        }
        match h {
            Some(hk) => {
                assert(hooked(m));
                lemma_put_wf_table(o, hk, NodeV::Leaf(b));
                lemma_put_unique(mt, hk, NodeV::Leaf(b));
                assert(as_map(mt2) == as_map(mt).insert(hk, NodeV::Leaf(b)));
                if hk == index_key() {
                    if as_map(mt).contains_key(index_key()) {
                        assert(has_key(mt, index_key()));
                        assert(mt[key_pos(mt, index_key())].1 == as_map(mt)[index_key()]);
                        assert(!(as_map(mt)[index_key()] is Table));
                    }
                    assert(index_of(o) =~= Seq::<(Seq<char>, BindingV)>::empty());
                    assert(index_of(o2) =~= Seq::<(Seq<char>, BindingV)>::empty());
                }
                assert(index_of(o2) == index_of(o));
                assert(!as_map(index_of(o)).contains_key(m.name@)) by {
                    if as_map(index_of(o)).contains_key(m.name@) {
                        let j = choose|j: int|
                            0 <= j < k && #[trigger] items[j] is Method && indexed(items[j]->Method_0)
                                && items[j]->Method_0.name@ == m.name@;
                        assert(items[k] is Method);
                    }
                }
                assert forall|j: int| 0 <= j < k + 1 && #[trigger] items[j] is Method implies filed(
                    o2,
                    items[j]->Method_0,
                ) by {
                    if j < k {
                        let mj = items[j]->Method_0;
                        assert(filed(o, mj));
                        assert(items[k] is Method);
                        if hooked(mj) {
                            assert(last_hook(mj.attrs@) != Some(hk));
                        } else if has_receiver(mj.params@) {
                            assert(mj.name@ != m.name@);
                            assert forall|key: Seq<char>| #[trigger]
                                as_map(mt2).contains_key(key) implies as_map(mt2)[key]
                                != NodeV::Leaf(method_binding(o2.self_ty, mj)) by {
                                if key != hk {
                                    assert(as_map(mt).contains_key(key));
                                }
                            }
                        }
                    }
                }
                assert forall|key: Seq<char>| #[trigger] as_map(index_of(o2)).contains_key(key) implies exists|j: int|
                    0 <= j < k + 1 && #[trigger] items[j] is Method && indexed(items[j]->Method_0)
                        && items[j]->Method_0.name@ == key by {
                    assert(as_map(index_of(o)).contains_key(key));
                }
                assert forall|key: Seq<char>| #[trigger] as_map(mt2).contains_key(key) implies (key
                    == index_key() && as_map(mt2)[key] is Table) || exists|j: int|
                    0 <= j < k + 1 && #[trigger] items[j] is Method && hooked(items[j]->Method_0)
                        && last_hook(items[j]->Method_0.attrs@) == Some(key) && as_map(mt2)[key]
                        == NodeV::Leaf(method_binding(o2.self_ty, items[j]->Method_0)) by {
                    if key == hk {
                        assert(items[k] is Method);
                    } else {
                        assert(as_map(mt).contains_key(key));
                        if !(key == index_key() && as_map(mt)[key] is Table) {
                            let j = choose|j: int|
                                0 <= j < k && #[trigger] items[j] is Method && hooked(
                                    items[j]->Method_0,
                                ) && last_hook(items[j]->Method_0.attrs@) == Some(key)
                                    && as_map(mt)[key] == NodeV::Leaf(
                                    method_binding(o.self_ty, items[j]->Method_0),
                                );
                            assert(items[j] is Method);
                        }
                    }
                }
            },
            None => {
                assert(indexed(m));
                let t = index_of(o);
                let t2 = put(t, m.name@, b);
                lemma_put_unique(t, m.name@, b);
                if as_map(mt).contains_key(index_key()) {
                    assert(has_key(mt, index_key()));
                    assert(mt[key_pos(mt, index_key())].1 == as_map(mt)[index_key()]);
                    assert(as_map(mt)[index_key()] is Table);
                    assert(as_map(mt)[index_key()] == NodeV::Table(t));
                    assert(mt2 == put(mt, index_key(), NodeV::Table(t2)));
                } else {
                    assert(!has_key(mt, index_key()));
                    assert(put(Seq::<(Seq<char>, BindingV)>::empty(), m.name@, b) =~= seq![(m.name@, b)]);
                    assert(t =~= Seq::<(Seq<char>, BindingV)>::empty());
                    assert(mt2 == put(mt, index_key(), NodeV::Table(t2)));
                }
                lemma_put_wf_table(o, index_key(), NodeV::Table(t2));
                lemma_put_unique(mt, index_key(), NodeV::Table(t2));
                assert(as_map(mt2) == as_map(mt).insert(index_key(), NodeV::Table(t2)));
                assert(index_of(o2) == t2);
                assert(as_map(t2) == as_map(t).insert(m.name@, b));
                assert forall|key: Seq<char>| #[trigger]
                    as_map(mt2).contains_key(key) implies as_map(mt2)[key] != NodeV::Leaf(b) by {
                    if key != index_key() {
                        assert(as_map(mt).contains_key(key));
                        let j = choose|j: int|
                            0 <= j < k && #[trigger] items[j] is Method && hooked(items[j]->Method_0)
                                && last_hook(items[j]->Method_0.attrs@) == Some(key)
                                && as_map(mt)[key] == NodeV::Leaf(
                                method_binding(o.self_ty, items[j]->Method_0),
                            );
                        assert(items[k] is Method);
                        assert(items[j]->Method_0.name@ != m.name@);
                    }
                }
                assert forall|j: int| 0 <= j < k + 1 && #[trigger] items[j] is Method implies filed(
                    o2,
                    items[j]->Method_0,
                ) by {
                    if j < k {
                        let mj = items[j]->Method_0;
                        assert(filed(o, mj));
                        assert(items[k] is Method);
                        assert(mj.name@ != m.name@);
                        if hooked(mj) {
                            let hj = last_hook(mj.attrs@)->Some_0;
                            assert(as_map(mt).contains_key(hj));
                            if hj == index_key() {
                                assert(has_key(mt, index_key()));
                                assert(mt[key_pos(mt, index_key())].1 == as_map(mt)[index_key()]);
                                assert(false);
                            }
                        } else if has_receiver(mj.params@) {
                            assert forall|key: Seq<char>| #[trigger]
                                as_map(mt2).contains_key(key) implies as_map(mt2)[key]
                                != NodeV::Leaf(method_binding(o2.self_ty, mj)) by {
                                if key != index_key() {
                                    assert(as_map(mt).contains_key(key));
                                }
                            }
                        }
                    }
                }
                assert forall|key: Seq<char>| #[trigger] as_map(index_of(o2)).contains_key(key) implies exists|j: int|
                    0 <= j < k + 1 && #[trigger] items[j] is Method && indexed(items[j]->Method_0)
                        && items[j]->Method_0.name@ == key by {
                    if key == m.name@ {
                        assert(items[k] is Method);
                    } else {
                        assert(as_map(index_of(o)).contains_key(key));
                    }
                }
                assert forall|key: Seq<char>| #[trigger] as_map(mt2).contains_key(key) && key != index_key() implies exists|j: int|
                    0 <= j < k + 1 && #[trigger] items[j] is Method && hooked(items[j]->Method_0)
                        && last_hook(items[j]->Method_0.attrs@) == Some(key) && as_map(mt2)[key]
                        == NodeV::Leaf(method_binding(o2.self_ty, items[j]->Method_0)) by {
                    assert(as_map(mt).contains_key(key));
                    let j = choose|j: int|
                        0 <= j < k && #[trigger] items[j] is Method && hooked(items[j]->Method_0)
                            && last_hook(items[j]->Method_0.attrs@) == Some(key)
                            && as_map(mt)[key] == NodeV::Leaf(
                            method_binding(o.self_ty, items[j]->Method_0),
                        );
                    assert(items[j] is Method);
                }
            },
        }
    }
}

proof fn lemma_filed_fold(ty: Seq<char>, items: Seq<ImplItemDecl>, k: int)
    requires
        0 <= k <= items.len(),
        distinct_methods(items),
        distinct_hooks(items),
    ensures
        impl_fold(empty_object(ty), items.subrange(0, k)) matches Ok(o) ==> filed_inv(o, items, k)
            && o.self_ty == ty,
    decreases k,
{
    let e = empty_object(ty);
    if k == 0 {
        assert(items.subrange(0, 0) =~= Seq::<ImplItemDecl>::empty());
        assert(as_map(e.metatable) =~= Map::empty());
        assert(as_map(Seq::<(Seq<char>, BindingV)>::empty()) =~= Map::empty());
        assert(index_of(e) =~= Seq::<(Seq<char>, BindingV)>::empty());
    } else {
        lemma_filed_fold(ty, items, k - 1);
        let pre = items.subrange(0, k);
        assert(pre.drop_last() =~= items.subrange(0, k - 1));
        assert(pre.last() == items[k - 1]);
        match impl_fold(e, items.subrange(0, k - 1)) {
            Ok(o) => match items[k - 1] {
                ImplItemDecl::Method(m) => {
                    if method_spec(o, m) is Ok {
                        lemma_filed_step(o, items, k - 1);
                    }
                },
                ImplItemDecl::Other => {
                    assert forall|key: Seq<char>| #[trigger]
                        as_map(o.metatable).contains_key(key) && !(key == index_key() && as_map(
                            o.metatable,
                        )[key] is Table) implies exists|j: int|
                        0 <= j < k && #[trigger] items[j] is Method && hooked(items[j]->Method_0)
                            && last_hook(items[j]->Method_0.attrs@) == Some(key)
                            && as_map(o.metatable)[key] == NodeV::Leaf(
                            method_binding(o.self_ty, items[j]->Method_0),
                        ) by {
                        let j = choose|j: int|
                            0 <= j < k - 1 && #[trigger] items[j] is Method && hooked(
                                items[j]->Method_0,
                            ) && last_hook(items[j]->Method_0.attrs@) == Some(key)
                                && as_map(o.metatable)[key] == NodeV::Leaf(
                                method_binding(o.self_ty, items[j]->Method_0),
                            );
                        assert(items[j] is Method);
                    }
                    assert forall|key: Seq<char>| #[trigger]
                        as_map(o.constructors).contains_key(key) implies exists|j: int|
                        0 <= j < k && #[trigger] items[j] is Method && !has_receiver(
                            items[j]->Method_0.params@,
                        ) && items[j]->Method_0.name@ == key by {
                        let j = choose|j: int|
                            0 <= j < k - 1 && #[trigger] items[j] is Method && !has_receiver(
                                items[j]->Method_0.params@,
                            ) && items[j]->Method_0.name@ == key;
                        assert(items[j] is Method);
                    }
                    assert forall|key: Seq<char>| #[trigger]
                        as_map(index_of(o)).contains_key(key) implies exists|j: int|
                        0 <= j < k && #[trigger] items[j] is Method && indexed(items[j]->Method_0)
                            && items[j]->Method_0.name@ == key by {
                        let j = choose|j: int|
                            0 <= j < k - 1 && #[trigger] items[j] is Method && indexed(
                                items[j]->Method_0,
                            ) && items[j]->Method_0.name@ == key;
                        assert(items[j] is Method);
                    }
                },
            },
            Err(_) => {},
        }
    }
}

/// In an implementation block whose methods have distinct names and distinct
/// hooks, every method without receiver is among the
/// object's constructors, and every method with a receiver stands in exactly
/// one place: its hook's slot of the metatable if it has a hook, the
/// `__index` table otherwise; it is never among the constructors.
pub proof fn law_methods_filed(i: ImplDecl)
    requires
        distinct_methods(i.items@),
        distinct_hooks(i.items@),
    ensures
        object_spec(i) matches Ok(o) ==> forall|j: int|
            0 <= j < i.items@.len() && #[trigger] i.items@[j] is Method ==> filed(
                o,
                i.items@[j]->Method_0,
            ),
{
    lemma_filed_fold(i.self_ty@, i.items@, i.items@.len() as int);
    assert(i.items@.subrange(0, i.items@.len() as int) =~= i.items@);
}

} // verus!
