use vstd::prelude::*;

verus! {

/// A literal as the attribute syntax holds it: only string literals matter here.
pub enum LitDecl {
    Str(String),
    Other,
}

/// One argument inside an attribute's parentheses.
pub enum NestedDecl {
    /// `name = literal`; `path` is the name when it is a single identifier.
    NameValue { path: Option<String>, lit: LitDecl },
    Other,
}

/// The shape of an attribute's arguments.
pub enum MetaDecl {
    /// `#[name]`
    Path,
    /// `#[name(arg, ...)]`
    List(Vec<NestedDecl>),
    /// `#[name = literal]`
    NameValue,
    /// Arguments that do not form a meta item.
    Malformed,
}

/// An attribute on a method; `path` is its name when that is a single identifier.
pub struct AttrDecl {
    pub path: Option<String>,
    pub meta: MetaDecl,
}

/// A typed parameter `pat: ty`, each as source text.
pub struct TypedParam {
    pub pat: String,
    pub ty: String,
}

pub enum ParamDecl {
    /// `self`, `&self` or `&mut self`.
    Receiver,
    Typed(TypedParam),
}

pub struct MethodDecl {
    pub name: String,
    pub params: Vec<ParamDecl>,
    pub attrs: Vec<AttrDecl>,
}

pub enum ImplItemDecl {
    Method(MethodDecl),
    Other,
}

/// An implementation block; `self_ty` is the implemented type as source text.
pub struct ImplDecl {
    pub self_ty: String,
    pub items: Vec<ImplItemDecl>,
}

pub enum ItemDecl {
    Fn { name: String, n_args: usize },
    Static { name: String },
    Impl(ImplDecl),
    Other,
}

/// A module handed to the generator; a module declared without a body has no items.
pub struct ModuleDecl {
    pub name: String,
    pub is_public: bool,
    pub items: Vec<ItemDecl>,
}

/// What a binding calls.
pub enum Target {
    /// A free function of the module.
    Free { ident: String },
    /// An associated function without receiver, called as `ty::ident`.
    Constructor { ty: String, ident: String },
    /// A method, called through a closure that takes the receiver as `&mut ty`
    /// followed by `params`.
    Method { ty: String, ident: String, params: Vec<TypedParam> },
}

/// A leaf of a mapping.
pub enum Binding {
    /// A static value, pushed as it is.
    Value { ident: String },
    /// A callable, wrapped by the runtime's wrapper for `arity` arguments.
    Function { arity: usize, target: Target },
}

/// A value in a metatable: a hook, or the `__index` sub-table.
pub enum Node {
    Leaf(Binding),
    Table(Vec<(String, Binding)>),
}

pub ghost enum TargetV {
    Free(Seq<char>),
    Constructor(Seq<char>, Seq<char>),
    Method(Seq<char>, Seq<char>, Seq<(Seq<char>, Seq<char>)>),
}

pub ghost enum BindingV {
    Value(Seq<char>),
    Function(nat, TargetV),
}

pub ghost enum NodeV {
    Leaf(BindingV),
    Table(Seq<(Seq<char>, BindingV)>),
}

impl View for TypedParam {
    type V = (Seq<char>, Seq<char>);

    open spec fn view(&self) -> (Seq<char>, Seq<char>) {
        (self.pat@, self.ty@)
    }
}

pub open spec fn params_view(s: Seq<TypedParam>) -> Seq<(Seq<char>, Seq<char>)> {
    s.map_values(|p: TypedParam| p@)
}

impl View for Target {
    type V = TargetV;

    open spec fn view(&self) -> TargetV {
        match self {
            Target::Free { ident } => TargetV::Free(ident@),
            Target::Constructor { ty, ident } => TargetV::Constructor(ty@, ident@),
            Target::Method { ty, ident, params } => TargetV::Method(
                ty@,
                ident@,
                params_view(params@),
            ),
        }
    }
}

impl View for Binding {
    type V = BindingV;

    open spec fn view(&self) -> BindingV {
        match self {
            Binding::Value { ident } => BindingV::Value(ident@),
            Binding::Function { arity, target } => BindingV::Function(*arity as nat, target@),
        }
    }
}

impl View for Node {
    type V = NodeV;

    open spec fn view(&self) -> NodeV {
        match self {
            Node::Leaf(b) => NodeV::Leaf(b@),
            Node::Table(t) => NodeV::Table(crate::table::entries_view(t@)),
        }
    }
}

} // verus!

verus! {

impl TypedParam {
    pub fn copy(&self) -> (r: TypedParam)
        ensures
            r@ == self@,
    {
        TypedParam { pat: self.pat.clone(), ty: self.ty.clone() }
    }
}

impl Target {
    pub fn copy(&self) -> (r: Target)
        ensures
            r@ == self@,
    {
        match self {
            Target::Free { ident } => Target::Free { ident: ident.clone() },
            Target::Constructor { ty, ident } => Target::Constructor {
                ty: ty.clone(),
                ident: ident.clone(),
            },
            Target::Method { ty, ident, params } => {
                let mut ps: Vec<TypedParam> = Vec::new();
                let mut i: usize = 0;
                while i < params.len()
                    invariant
                        i <= params@.len(),
                        ps@.len() == i,
                        forall|j: int| 0 <= j < i ==> #[trigger] ps@[j]@ == params@[j]@,
                    decreases params@.len() - i,
                {
                    ps.push(params[i].copy());
                    i = i + 1;
                }
                assert(params_view(ps@) =~= params_view(params@));
                Target::Method { ty: ty.clone(), ident: ident.clone(), params: ps }
            },
        }
    }
}

impl Binding {
    pub fn copy(&self) -> (r: Binding)
        ensures
            r@ == self@,
    {
        match self {
            Binding::Value { ident } => Binding::Value { ident: ident.clone() },
            Binding::Function { arity, target } => Binding::Function {
                arity: *arity,
                target: target.copy(),
            },
        }
    }
}

} // verus!
