use vstd::prelude::*;
use crate::classify::GenError;
use crate::model::{Binding, BindingV, ImplItemDecl, ItemDecl, ModuleDecl, Target, TargetV};
use crate::object::{impl_fold, object_spec, object_wf, Object, ObjectV};
use crate::table::{entries_view, insert_entry, put, unique_keys};

verus! {

/// A module being assembled: its name, its exported objects, and the table of
/// its free functions and statics.
pub struct Module {
    pub ident: String,
    pub objects: Vec<Object>,
    pub table: Vec<(String, Binding)>,
}

pub ghost struct ModuleV {
    pub ident: Seq<char>,
    pub objects: Seq<ObjectV>,
    pub table: Seq<(Seq<char>, BindingV)>,
}

impl View for Module {
    type V = ModuleV;

    open spec fn view(&self) -> ModuleV {
        ModuleV {
            ident: self.ident@,
            objects: self.objects@.map_values(|o: Object| o@),
            table: entries_view(self.table@),
        }
    }
}

/// No two objects share a type.
pub open spec fn distinct_types(objs: Seq<ObjectV>) -> bool {
    forall|i: int, j: int|
        0 <= i < objs.len() && 0 <= j < objs.len() && #[trigger] objs[i].self_ty
            == #[trigger] objs[j].self_ty ==> i == j
}

pub open spec fn has_object(objs: Seq<ObjectV>, ty: Seq<char>) -> bool {
    exists|i: int| 0 <= i < objs.len() && #[trigger] objs[i].self_ty == ty
}

/// The position of the object of type `ty`, where there is one.
pub open spec fn object_pos(objs: Seq<ObjectV>, ty: Seq<char>) -> int
    recommends
        has_object(objs, ty),
{
    choose|i: int| 0 <= i < objs.len() && #[trigger] objs[i].self_ty == ty
}

pub open spec fn module_wf(m: ModuleV) -> bool {
    &&& unique_keys(m.table)
    &&& forall|i: int| 0 <= i < m.objects.len() ==> object_wf(#[trigger] m.objects[i])
    &&& distinct_types(m.objects)
}

/// The binding of a free function with `n` parameters.
pub open spec fn fn_binding(name: Seq<char>, n: nat) -> BindingV {
    BindingV::Function(n, TargetV::Free(name))
}

/// The binding of a static value.
pub open spec fn static_binding(name: Seq<char>) -> BindingV {
    BindingV::Value(name)
}

/// Taking one item of the module into account: functions and statics go to
/// the table; an implementation block files its methods into the object of
/// its type, made at the first block of that type; other items are passed over.
pub open spec fn module_step(mv: ModuleV, item: ItemDecl) -> Result<ModuleV, GenError> {
    match item {
        ItemDecl::Fn { name, n_args } => Ok(
            ModuleV { table: put(mv.table, name@, fn_binding(name@, n_args as nat)), ..mv },
        ),
        ItemDecl::Static { name } => Ok(
            ModuleV { table: put(mv.table, name@, static_binding(name@)), ..mv },
        ),
        ItemDecl::Impl(i) => if has_object(mv.objects, i.self_ty@) {
            let p = object_pos(mv.objects, i.self_ty@);
            match impl_fold(mv.objects[p], i.items@) {
                Ok(o) => Ok(ModuleV { objects: mv.objects.update(p, o), ..mv }),
                Err(e) => Err(e),
            }
        } else {
            match object_spec(i) {
                Ok(o) => Ok(ModuleV { objects: mv.objects.push(o), ..mv }),
                Err(e) => Err(e),
            }
        },
        ItemDecl::Other => Ok(mv),
    }
}

pub open spec fn module_fold(mv: ModuleV, items: Seq<ItemDecl>) -> Result<ModuleV, GenError>
    decreases items.len(),
{
    if items.len() == 0 {
        Ok(mv)
    } else {
        match module_fold(mv, items.drop_last()) {
            Err(e) => Err(e),
            Ok(m2) => module_step(m2, items.last()),
        }
    }
}

pub open spec fn empty_module(ident: Seq<char>) -> ModuleV {
    ModuleV { ident, objects: Seq::empty(), table: Seq::empty() }
}

/// The assembled module for a declaration, or the first error met.
pub open spec fn assemble_spec(m: ModuleDecl) -> Result<ModuleV, GenError> {
    if !m.is_public {
        Err(GenError::NotPublic)
    } else {
        module_fold(empty_module(m.name@), m.items@)
    }
}

/// Setting each entry of `entries` in turn.
pub open spec fn put_all(t: Seq<(Seq<char>, BindingV)>, entries: Seq<(Seq<char>, BindingV)>) -> Seq<
    (Seq<char>, BindingV),
>
    decreases entries.len(),
{
    if entries.len() == 0 {
        t
    } else {
        let p = put_all(t, entries.drop_last());
        put(p, entries.last().0, entries.last().1)
    }
}

/// Merging the constructors of each object in turn.
pub open spec fn merge_objects(t: Seq<(Seq<char>, BindingV)>, objs: Seq<ObjectV>) -> Seq<
    (Seq<char>, BindingV),
>
    decreases objs.len(),
{
    if objs.len() == 0 {
        t
    } else {
        put_all(merge_objects(t, objs.drop_last()), objs.last().constructors)
    }
}

/// The module's namespace table: its functions and statics, then the
/// constructors of its objects.
pub open spec fn namespace_spec(mv: ModuleV) -> Seq<(Seq<char>, BindingV)> {
    merge_objects(mv.table, mv.objects)
}

pub proof fn lemma_fold_err_prefix(mv: ModuleV, s: Seq<ItemDecl>, k: int, e: GenError)
    requires
        0 <= k <= s.len(),
        module_fold(mv, s.subrange(0, k)) == Err::<ModuleV, GenError>(e),
    ensures
        module_fold(mv, s) == Err::<ModuleV, GenError>(e),
    decreases s.len() - k,
{
    if k < s.len() {
        let next = s.subrange(0, k + 1);
        assert(next.drop_last() =~= s.subrange(0, k));
        lemma_fold_err_prefix(mv, s, k + 1, e);
    } else {
        assert(s.subrange(0, k) =~= s);
    }
}

/// Copies `src` into `dst` entry by entry.
fn put_entries(dst: &mut Vec<(String, Binding)>, src: &Vec<(String, Binding)>)
    requires
        unique_keys(entries_view(old(dst)@)),
    ensures
        entries_view(final(dst)@) == put_all(entries_view(old(dst)@), entries_view(src@)),
        unique_keys(entries_view(final(dst)@)),
{
    let ghost start = entries_view(dst@);
    let mut i: usize = 0;
    while i < src.len()
        invariant
            i <= src@.len(),
            unique_keys(entries_view(dst@)),
            entries_view(dst@) == put_all(start, entries_view(src@).subrange(0, i as int)),
        decreases src@.len() - i,
    {
        let ghost next = entries_view(src@).subrange(0, i + 1);
        assert(next.drop_last() =~= entries_view(src@).subrange(0, i as int));
        insert_entry(dst, src[i].0.clone(), src[i].1.copy());
        i = i + 1;
    }
    assert(entries_view(src@).subrange(0, i as int) =~= entries_view(src@));
}

impl Module {
    pub fn new(ident: String) -> (r: Module)
        ensures
            r@ == empty_module(ident@),
            module_wf(r@),
    {
        let r = Module { ident, objects: Vec::new(), table: Vec::new() };
        assert(r@.objects =~= Seq::empty());
        assert(r@.table =~= Seq::empty());
        r
    }

    /// Exposes static `name` under its own name.
    pub fn add_static(&mut self, name: &String)
        requires
            module_wf(old(self)@),
        ensures
            final(self)@ == (ModuleV {
                table: put(old(self)@.table, name@, static_binding(name@)),
                ..old(self)@
            }),
            module_wf(final(self)@),
    {
        proof {
            crate::table::lemma_put_unique(self@.table, name@, static_binding(name@));
        }
        insert_entry(&mut self.table, name.clone(), Binding::Value { ident: name.clone() });
    }

    /// Exposes free function `name`, of `n_args` parameters, under its own name.
    pub fn add_fn(&mut self, name: &String, n_args: usize)
        requires
            module_wf(old(self)@),
        ensures
            final(self)@ == (ModuleV {
                table: put(old(self)@.table, name@, fn_binding(name@, n_args as nat)),
                ..old(self)@
            }),
            module_wf(final(self)@),
    {
        let b = Binding::Function { arity: n_args, target: Target::Free { ident: name.clone() } };
        insert_entry(&mut self.table, name.clone(), b);
    }

    /// Looks up the object of type `ty`.
    pub fn find_object(&self, ty: &String) -> (r: Option<usize>)
        requires
            module_wf(self@),
        ensures
            match r {
                Some(p) => has_object(self@.objects, ty@) && p == object_pos(self@.objects, ty@),
                None => !has_object(self@.objects, ty@),
            },
    {
        let mut i: usize = 0;
        while i < self.objects.len()
            invariant
                i <= self.objects@.len(),
                module_wf(self@),
                forall|j: int| 0 <= j < i ==> #[trigger] self@.objects[j].self_ty != ty@,
            decreases self.objects@.len() - i,
        {
            let same = self.objects[i].self_ty == *ty;
            assert(self@.objects[i as int] == self.objects@[i as int]@);
            assert(same == (self@.objects[i as int].self_ty == ty@));
            if same {
                assert(has_object(self@.objects, ty@));
                let ghost q = object_pos(self@.objects, ty@);
                assert(self@.objects[q].self_ty == self@.objects[i as int].self_ty);
                return Some(i);
            }
            i = i + 1;
        }
        None
    }

    /// Files the methods among `items` into the object at position `p`.
    pub fn extend_object(&mut self, p: usize, items: &Vec<ImplItemDecl>) -> (r: Result<(), GenError>)
        requires
            module_wf(old(self)@),
            p < old(self)@.objects.len(),
        ensures
            match r {
                Ok(_) => {
                    &&& impl_fold(old(self)@.objects[p as int], items@) == Ok::<ObjectV, GenError>(
                        final(self)@.objects[p as int],
                    )
                    &&& final(self)@ == (ModuleV {
                        objects: old(self)@.objects.update(p as int, final(self)@.objects[p as int]),
                        ..old(self)@
                    })
                    &&& module_wf(final(self)@)
                },
                Err(e) => impl_fold(old(self)@.objects[p as int], items@) == Err::<ObjectV, GenError>(e),
            },
    {
        let ghost objs = self.objects@;
        let mut obj = self.objects.remove(p);
        assert(obj@ == old(self)@.objects[p as int]);
        let r = obj.file_items(items);
        let ghost ov = obj@;
        self.objects.insert(p, obj);
        assert(self.objects@ =~= objs.update(p as int, self.objects@[p as int]));
        assert(self@.objects =~= old(self)@.objects.update(p as int, ov));
        r
    }

    /// Adds an exported object, of a type that has none yet.
    pub fn add_object(&mut self, obj: Object)
        requires
            module_wf(old(self)@),
            object_wf(obj@),
            !has_object(old(self)@.objects, obj@.self_ty),
        ensures
            final(self)@ == (ModuleV { objects: old(self)@.objects.push(obj@), ..old(self)@ }),
            module_wf(final(self)@),
    {
        let ghost ov = obj@;
        self.objects.push(obj);
        assert(self@.objects =~= old(self)@.objects.push(ov));
    }

    /// The module's namespace table.
    pub fn namespace(&self) -> (r: Vec<(String, Binding)>)
        requires
            module_wf(self@),
        ensures
            entries_view(r@) == namespace_spec(self@),
            unique_keys(entries_view(r@)),
    {
        let mut t: Vec<(String, Binding)> = Vec::new();
        put_entries(&mut t, &self.table);
        assert(entries_view(Seq::<(String, Binding)>::empty()) =~= Seq::empty());
        let mut i: usize = 0;
        while i < self.objects.len()
            invariant
                i <= self.objects@.len(),
                module_wf(self@),
                unique_keys(entries_view(t@)),
                entries_view(t@) == merge_objects(
                    put_all(Seq::empty(), self@.table),
                    self@.objects.subrange(0, i as int),
                ),
            decreases self.objects@.len() - i,
        {
            let ghost next = self@.objects.subrange(0, i + 1);
            assert(next.drop_last() =~= self@.objects.subrange(0, i as int));
            assert(next.last() == self.objects@[i as int]@);
            put_entries(&mut t, &self.objects[i].constructors);
            i = i + 1;
        }
        assert(self@.objects.subrange(0, i as int) =~= self@.objects);
        proof {
            lemma_put_all_empty(self@.table);
        }
        t
    }
}

/// Setting each entry of a table with unique keys into an empty one gives it back.
pub proof fn lemma_put_all_empty(s: Seq<(Seq<char>, BindingV)>)
    requires
        unique_keys(s),
    ensures
        put_all(Seq::empty(), s) == s,
    decreases s.len(),
{
    if s.len() > 0 {
        let d = s.drop_last();
        assert(unique_keys(d)) by {
            assert forall|i: int, j: int|
                0 <= i < d.len() && 0 <= j < d.len() && #[trigger] d[i].0 == #[trigger] d[j].0 implies i
                == j by {
                assert(d[i] == s[i] && d[j] == s[j]);
            }
        }
        lemma_put_all_empty(d);
        assert(!crate::table::has_key(d, s.last().0)) by {
            if crate::table::has_key(d, s.last().0) {
                let i = crate::table::key_pos(d, s.last().0);
                assert(s[i].0 == s[s.len() - 1].0);
            }
        }
        assert(d.push(s.last()) =~= s);
    }
}

/// Assembles the module that `m` declares.
pub fn assemble(m: &ModuleDecl) -> (r: Result<Module, GenError>)
    ensures
        assemble_spec(*m) == match r {
            Ok(mm) => Ok::<ModuleV, GenError>(mm@),
            Err(e) => Err(e),
        },
        r matches Ok(mm) ==> module_wf(mm@),
{
    if !m.is_public {
        return Err(GenError::NotPublic);
    }
    let mut module = Module::new(m.name.clone());
    let mut k: usize = 0;
    while k < m.items.len()
        invariant
            k <= m.items@.len(),
            m.is_public,
            module_wf(module@),
            module_fold(empty_module(m.name@), m.items@.subrange(0, k as int)) == Ok::<
                ModuleV,
                GenError,
            >(module@),
        decreases m.items@.len() - k,
    {
        let ghost next = m.items@.subrange(0, k + 1);
        assert(next.drop_last() =~= m.items@.subrange(0, k as int));
        assert(next.last() == m.items@[k as int]);
        match &m.items[k] {
            ItemDecl::Fn { name, n_args } => module.add_fn(name, *n_args),
            ItemDecl::Static { name } => module.add_static(name),
            ItemDecl::Impl(i) => {
                let r = match module.find_object(&i.self_ty) {
                    Some(p) => module.extend_object(p, &i.items),
                    None => match Object::from_impl(i) {
                        Ok(obj) => {
                            module.add_object(obj);
                            Ok(())
                        },
                        Err(e) => Err(e),
                    },
                };
                match r {
                    Ok(_) => {},
                    Err(e) => {
                        proof {
                            lemma_fold_err_prefix(empty_module(m.name@), m.items@, k + 1, e);
                        }
                        return Err(e);
                    },
                }
            },
            ItemDecl::Other => {},
        }
        k = k + 1;
    }
    assert(m.items@.subrange(0, k as int) =~= m.items@);
    Ok(module)
}

} // verus!
