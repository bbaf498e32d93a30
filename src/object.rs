use vstd::prelude::*;
use crate::classify::{attrs_ok, hook_of_attrs, last_hook, opt_view, GenError};
use crate::model::{
    Binding, BindingV, ImplDecl, ImplItemDecl, MethodDecl, Node, NodeV, ParamDecl, Target,
    TargetV, TypedParam, params_view,
};
use crate::table::{entries_view, find_key, has_key, insert_entry, key_pos, put, unique_keys};

verus! {

/// An exported type: the constructors it adds to the module's table and the
/// metatable installed on its values.
pub struct Object {
    pub self_ty: String,
    pub constructors: Vec<(String, Binding)>,
    pub metatable: Vec<(String, Node)>,
}

pub ghost struct ObjectV {
    pub self_ty: Seq<char>,
    pub constructors: Seq<(Seq<char>, BindingV)>,
    pub metatable: Seq<(Seq<char>, NodeV)>,
}

impl View for Object {
    type V = ObjectV;

    open spec fn view(&self) -> ObjectV {
        ObjectV {
            self_ty: self.self_ty@,
            constructors: entries_view(self.constructors@),
            metatable: entries_view(self.metatable@),
        }
    }
}

pub open spec fn index_key() -> Seq<char> {
    "__index"@
}

/// Keys are unique in the constructor table, in the metatable and in every
/// table nested in it.
pub open spec fn object_wf(o: ObjectV) -> bool {
    &&& unique_keys(o.constructors)
    &&& unique_keys(o.metatable)
    &&& forall|i: int|
        0 <= i < o.metatable.len() ==> match #[trigger] o.metatable[i].1 {
            NodeV::Table(t) => unique_keys(t),
            NodeV::Leaf(_) => true,
        }
}

pub open spec fn empty_object(ty: Seq<char>) -> ObjectV {
    ObjectV { self_ty: ty, constructors: Seq::empty(), metatable: Seq::empty() }
}

/// The method's first parameter is a receiver.
pub open spec fn has_receiver(params: Seq<ParamDecl>) -> bool {
    params.len() > 0 && params[0] is Receiver
}

/// Every parameter after the first is typed.
pub open spec fn rest_typed(params: Seq<ParamDecl>) -> bool {
    forall|i: int| 1 <= i < params.len() ==> #[trigger] params[i] is Typed
}

pub open spec fn param_view(p: ParamDecl) -> (Seq<char>, Seq<char>) {
    match p {
        ParamDecl::Typed(t) => t@,
        ParamDecl::Receiver => (Seq::empty(), Seq::empty()),
    }
}

/// The parameters after the receiver, as the closure declares them.
pub open spec fn rest_params(params: Seq<ParamDecl>) -> Seq<(Seq<char>, Seq<char>)> {
    params.drop_first().map_values(|p: ParamDecl| param_view(p))
}

/// The binding of a method of type `ty`. Its arity counts every declared
/// parameter, the receiver included.
pub open spec fn method_binding(ty: Seq<char>, m: MethodDecl) -> BindingV {
    if has_receiver(m.params@) {
        BindingV::Function(m.params@.len(), TargetV::Method(ty, m.name@, rest_params(m.params@)))
    } else {
        BindingV::Function(m.params@.len(), TargetV::Constructor(ty, m.name@))
    }
}

/// Filing method `m`, bound to `hook` if it has one: a method without
/// receiver is a constructor; one with a receiver goes to the hook's slot of
/// the metatable, or else to its `__index` table.
pub open spec fn add_method_spec(o: ObjectV, m: MethodDecl, hook: Option<Seq<char>>) -> Result<
    ObjectV,
    GenError,
> {
    let b = method_binding(o.self_ty, m);
    if !has_receiver(m.params@) {
        Ok(ObjectV { constructors: put(o.constructors, m.name@, b), ..o })
    } else if !rest_typed(m.params@) {
        Err(GenError::MalformedMethod)
    } else {
        match hook {
            Some(h) => if h == index_key() && has_key(o.metatable, index_key())
                && o.metatable[key_pos(o.metatable, index_key())].1 is Table {
                Err(GenError::IndexSlotTaken)
            } else {
                Ok(ObjectV { metatable: put(o.metatable, h, NodeV::Leaf(b)), ..o })
            },
            None => if has_key(o.metatable, index_key()) {
                match o.metatable[key_pos(o.metatable, index_key())].1 {
                    NodeV::Table(t) => Ok(
                        ObjectV {
                            metatable: put(o.metatable, index_key(), NodeV::Table(put(t, m.name@, b))),
                            ..o
                        },
                    ),
                    NodeV::Leaf(_) => Err(GenError::IndexSlotTaken),
                }
            } else {
                Ok(
                    ObjectV {
                        metatable: put(o.metatable, index_key(), NodeV::Table(seq![(m.name@, b)])),
                        ..o
                    },
                )
            },
        }
    }
}

/// Reading a method's attributes, then filing it.
pub open spec fn method_spec(o: ObjectV, m: MethodDecl) -> Result<ObjectV, GenError> {
    if !attrs_ok(m.attrs@) {
        Err(GenError::UnrecognizedAttribute)
    } else {
        add_method_spec(o, m, last_hook(m.attrs@))
    }
}

/// Filing the methods among `items` in order; the first error ends it.
pub open spec fn impl_fold(o: ObjectV, items: Seq<ImplItemDecl>) -> Result<ObjectV, GenError>
    decreases items.len(),
{
    if items.len() == 0 {
        Ok(o)
    } else {
        match impl_fold(o, items.drop_last()) {
            Err(e) => Err(e),
            Ok(o2) => match items.last() {
                ImplItemDecl::Method(m) => method_spec(o2, m),
                ImplItemDecl::Other => Ok(o2),
            },
        }
    }
}

/// The object an implementation block exports.
pub open spec fn object_spec(i: ImplDecl) -> Result<ObjectV, GenError> {
    impl_fold(empty_object(i.self_ty@), i.items@)
}

pub proof fn lemma_put_wf_table(o: ObjectV, k: Seq<char>, n: NodeV)
    requires
        object_wf(o),
        match n {
            NodeV::Table(t) => unique_keys(t),
            NodeV::Leaf(_) => true,
        },
    ensures
        object_wf(ObjectV { metatable: put(o.metatable, k, n), ..o }),
{
    crate::table::lemma_put_unique(o.metatable, k, n);
    let r = put(o.metatable, k, n);
    assert forall|i: int| 0 <= i < r.len() implies match #[trigger] r[i].1 {
        NodeV::Table(t) => unique_keys(t),
        NodeV::Leaf(_) => true,
    } by {
        if i < o.metatable.len() && r[i] != (k, n) {
            assert(r[i] == o.metatable[i]);
        }
    }
}

pub proof fn lemma_fold_err_prefix(o: ObjectV, s: Seq<ImplItemDecl>, k: int, e: GenError)
    requires
        0 <= k <= s.len(),
        impl_fold(o, s.subrange(0, k)) == Err::<ObjectV, GenError>(e),
    ensures
        impl_fold(o, s) == Err::<ObjectV, GenError>(e),
    decreases s.len() - k,
{
    if k < s.len() {
        let next = s.subrange(0, k + 1);
        assert(next.drop_last() =~= s.subrange(0, k));
        lemma_fold_err_prefix(o, s, k + 1, e);
    } else {
        assert(s.subrange(0, k) =~= s);
    }
}

/// Copies the typed parameters after the receiver.
fn rest_of(params: &Vec<ParamDecl>) -> (r: Result<Vec<TypedParam>, GenError>)
    requires
        params@.len() > 0,
    ensures
        match r {
            Ok(v) => rest_typed(params@) && params_view(v@) == rest_params(params@),
            Err(e) => !rest_typed(params@) && e == GenError::MalformedMethod,
        },
{
    let mut out: Vec<TypedParam> = Vec::new();
    let mut i: usize = 1;
    while i < params.len()
        invariant
            1 <= i <= params@.len(),
            out@.len() == i - 1,
            forall|j: int| 1 <= j < i ==> #[trigger] params@[j] is Typed,
            forall|j: int| 0 <= j < out@.len() ==> #[trigger] out@[j]@ == param_view(params@[j + 1]),
        decreases params@.len() - i,
    {
        match &params[i] {
            ParamDecl::Typed(t) => {
                out.push(TypedParam { pat: t.pat.clone(), ty: t.ty.clone() });
            },
            ParamDecl::Receiver => {
                return Err(GenError::MalformedMethod);
            },
        }
        i = i + 1;
    }
    assert(params_view(out@) =~= rest_params(params@));
    Ok(out)
}

impl Object {
    /// An object of type `self_ty` with no constructors and an empty metatable.
    pub fn new(self_ty: String) -> (r: Object)
        ensures
            r@ == empty_object(self_ty@),
            object_wf(r@),
    {
        let r = Object { self_ty, constructors: Vec::new(), metatable: Vec::new() };
        assert(r@.constructors =~= Seq::empty());
        assert(r@.metatable =~= Seq::empty());
        r
    }

    /// Files method `m`, bound to `hook` if it has one.
    pub fn add_method(&mut self, m: &MethodDecl, hook: Option<String>) -> (r: Result<(), GenError>)
        requires
            object_wf(old(self)@),
        ensures
            add_method_spec(old(self)@, *m, opt_view(hook)) == match r {
                Ok(_) => Ok::<ObjectV, GenError>(final(self)@),
                Err(e) => Err(e),
            },
            object_wf(final(self)@),
    {
        let n: usize = m.params.len();
        let receiver = n > 0 && match &m.params[0] {
            ParamDecl::Receiver => true,
            ParamDecl::Typed(_) => false,
        };
        if !receiver {
            let b = Binding::Function {
                arity: n,
                target: Target::Constructor { ty: self.self_ty.clone(), ident: m.name.clone() },
            };
            insert_entry(&mut self.constructors, m.name.clone(), b);
            return Ok(());
        }
        let params = match rest_of(&m.params) {
            Ok(p) => p,
            Err(e) => {
                return Err(e);
            },
        };
        let b = Binding::Function {
            arity: n,
            target: Target::Method { ty: self.self_ty.clone(), ident: m.name.clone(), params },
        };
        assert(b@ == method_binding(self@.self_ty, *m));
        match hook {
            Some(h) => {
                let idx = String::from_str("__index");
                if h == idx {
                    match find_key(&self.metatable, &idx) {
                        Some(i) => {
                            let table = match &self.metatable[i].1 {
                                Node::Leaf(_) => false,
                                Node::Table(_) => true,
                            };
                            assert(self@.metatable[i as int].0 == index_key());
                            assert(self@.metatable[i as int].1 is Table == table);
                            if table {
                                return Err(GenError::IndexSlotTaken);
                            }
                        },
                        None => {},
                    }
                }
                proof {
                    lemma_put_wf_table(self@, h@, NodeV::Leaf(b@));
                }
                insert_entry(&mut self.metatable, h, Node::Leaf(b));
                Ok(())
            },
            None => {
                let idx = String::from_str("__index");
                match find_key(&self.metatable, &idx) {
                    Some(i) => {
                        let taken = match &self.metatable[i].1 {
                            Node::Leaf(_) => true,
                            Node::Table(_) => false,
                        };
                        assert(self@.metatable[i as int].0 == index_key());
                        if taken {
                            assert(self@.metatable[i as int].1 is Leaf);
                            return Err(GenError::IndexSlotTaken);
                        }
                        let ghost pre = self@;
                        let ghost old_meta = self.metatable@;
                        let (k, node) = self.metatable.remove(i);
                        assert(pre.metatable[i as int] == (k@, node@));
                        match node {
                            Node::Table(mut t) => {
                                assert(unique_keys(entries_view(t@)));
                                let ghost bv = b@;
                                let ghost nm = m.name@;
                                insert_entry(&mut t, m.name.clone(), b);
                                proof {
                                    crate::table::lemma_put_unique(entries_view(t@), nm, bv);
                                    lemma_put_wf_table(pre, index_key(), NodeV::Table(entries_view(t@)));
                                }
                                let ghost kt = (k, Node::Table(t));
                                self.metatable.insert(i, (k, Node::Table(t)));
                                assert(self.metatable@ =~= old_meta.update(i as int, kt));
                                assert(entries_view(self.metatable@) =~= put(
                                    pre.metatable,
                                    index_key(),
                                    NodeV::Table(entries_view(t@)),
                                ));
                                Ok(())
                            },
                            Node::Leaf(l) => {
                                self.metatable.insert(i, (k, Node::Leaf(l)));
                                Err(GenError::IndexSlotTaken)
                            },
                        }
                    },
                    None => {
                        let mut t: Vec<(String, Binding)> = Vec::new();
                        let ghost bv = b@;
                        t.push((m.name.clone(), b));
                        assert(entries_view(t@) =~= seq![(m.name@, bv)]);
                        proof {
                            lemma_put_wf_table(self@, index_key(), NodeV::Table(entries_view(t@)));
                        }
                        insert_entry(&mut self.metatable, idx, Node::Table(t));
                        Ok(())
                    },
                }
            },
        }
    }

    /// Files the methods among `items` in order; the first error ends it.
    pub fn file_items(&mut self, items: &Vec<ImplItemDecl>) -> (r: Result<(), GenError>)
        requires
            object_wf(old(self)@),
        ensures
            impl_fold(old(self)@, items@) == match r {
                Ok(_) => Ok::<ObjectV, GenError>(final(self)@),
                Err(e) => Err(e),
            },
            r is Ok ==> object_wf(final(self)@) && final(self)@.self_ty == old(self)@.self_ty,
    {
        let ghost start = self@;
        let mut k: usize = 0;
        while k < items.len()
            invariant
                k <= items@.len(),
                object_wf(self@),
                start == old(self)@,
                self@.self_ty == start.self_ty,
                impl_fold(start, items@.subrange(0, k as int)) == Ok::<ObjectV, GenError>(self@),
            decreases items@.len() - k,
        {
            let ghost next = items@.subrange(0, k + 1);
            assert(next.drop_last() =~= items@.subrange(0, k as int));
            assert(next.last() == items@[k as int]);
            match &items[k] {
                ImplItemDecl::Method(m) => {
                    let hook = match hook_of_attrs(&m.attrs) {
                        Ok(h) => h,
                        Err(e) => {
                            proof {
                                lemma_fold_err_prefix(start, items@, k + 1, e);
                            }
                            return Err(e);
                        },
                    };
                    match self.add_method(m, hook) {
                        Ok(_) => {},
                        Err(e) => {
                            proof {
                                lemma_fold_err_prefix(start, items@, k + 1, e);
                            }
                            return Err(e);
                        },
                    }
                },
                ImplItemDecl::Other => {},
            }
            k = k + 1;
        }
        assert(items@.subrange(0, k as int) =~= items@);
        Ok(())
    }

    /// The object that implementation block `i` exports.
    pub fn from_impl(i: &ImplDecl) -> (r: Result<Object, GenError>)
        ensures
            object_spec(*i) == match r {
                Ok(o) => Ok::<ObjectV, GenError>(o@),
                Err(e) => Err(e),
            },
            r matches Ok(o) ==> object_wf(o@) && o@.self_ty == i.self_ty@,
    {
        let mut obj = Object::new(i.self_ty.clone());
        match obj.file_items(&i.items) {
            Ok(_) => Ok(obj),
            Err(e) => Err(e),
        }
    }
}

} // verus!
