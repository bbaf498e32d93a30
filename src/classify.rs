use vstd::prelude::*;
use crate::model::{AttrDecl, LitDecl, MetaDecl, NestedDecl};

verus! {

/// Why generation of a module was abandoned; no output is produced then.
#[derive(Clone, Copy, Debug, PartialEq, Eq, Structural)]
pub enum GenError {
    /// The annotated item is not a module.
    NotAModule,
    /// The annotated module is not public.
    NotPublic,
    /// A generator annotation on a method is not `lua(meta = "...")`.
    UnrecognizedAttribute,
    /// A method takes a receiver anywhere but first.
    MalformedMethod,
    /// A hook and the `__index` table of methods both claim `__index`.
    IndexSlotTaken,
}

pub open spec fn message_spec(e: GenError) -> Seq<char> {
    match e {
        GenError::NotAModule => "`lua_module` attribute is only allowed on modules"@,
        GenError::NotPublic => "`lua_module` attribute is only allowed on public modules"@,
        GenError::UnrecognizedAttribute => "unrecognized attribute"@,
        GenError::MalformedMethod => "receiver must be the first parameter"@,
        GenError::IndexSlotTaken => "`__index` is claimed by both a hook and methods"@,
    }
}

impl GenError {
    /// The fixed diagnostic reported for this error.
    pub fn message(&self) -> (r: String)
        ensures
            r@ == message_spec(*self),
    {
        match self {
            GenError::NotAModule => String::from_str(
                "`lua_module` attribute is only allowed on modules",
            ),
            GenError::NotPublic => String::from_str(
                "`lua_module` attribute is only allowed on public modules",
            ),
            GenError::UnrecognizedAttribute => String::from_str("unrecognized attribute"),
            GenError::MalformedMethod => String::from_str("receiver must be the first parameter"),
            GenError::IndexSlotTaken => String::from_str("`__index` is claimed by both a hook and methods"),
        }
    }
}

pub open spec fn opt_view(o: Option<String>) -> Option<Seq<char>> {
    match o {
        Some(s) => Some(s@),
        None => None,
    }
}

/// A path that is the single identifier `name`.
pub open spec fn is_ident_spec(p: Option<String>, name: Seq<char>) -> bool {
    match p {
        Some(s) => s@ == name,
        None => false,
    }
}

/// An attribute addressed to the generator, `#[lua ...]`.
pub open spec fn is_generator_attr_spec(a: AttrDecl) -> bool {
    is_ident_spec(a.path, "lua"@)
}

/// The hook an attribute names when it reads exactly `lua(meta = "hook")`.
pub open spec fn hook_arg(a: AttrDecl) -> Option<Seq<char>> {
    match a.meta {
        MetaDecl::List(args) => if args@.len() == 1 {
            match args@[0] {
                NestedDecl::NameValue { path, lit } => if is_ident_spec(path, "meta"@) {
                    match lit {
                        LitDecl::Str(s) => Some(s@),
                        LitDecl::Other => None,
                    }
                } else {
                    None
                },
                NestedDecl::Other => None,
            }
        } else {
            None
        },
        _ => None,
    }
}

/// Every generator attribute in `attrs` names a hook.
pub open spec fn attrs_ok(attrs: Seq<AttrDecl>) -> bool {
    forall|i: int| 0 <= i < attrs.len() && is_generator_attr_spec(#[trigger] attrs[i]) ==> hook_arg(
        attrs[i],
    ) is Some
}

/// The hook named by the last generator attribute, if any.
pub open spec fn last_hook(attrs: Seq<AttrDecl>) -> Option<Seq<char>>
    decreases attrs.len(),
{
    if attrs.len() == 0 {
        None
    } else if is_generator_attr_spec(attrs.last()) {
        hook_arg(attrs.last())
    } else {
        last_hook(attrs.drop_last())
    }
}

/// Whether `p` is the single identifier `name`.
pub fn is_ident(p: &Option<String>, name: &str) -> (r: bool)
    ensures
        r == is_ident_spec(*p, name@),
{
    match p {
        Some(s) => *s == String::from_str(name),
        None => false,
    }
}

/// Whether `a` is addressed to the generator; such attributes are removed
/// from the re-emitted method.
pub fn is_generator_attr(a: &AttrDecl) -> (r: bool)
    ensures
        r == is_generator_attr_spec(*a),
{
    is_ident(&a.path, "lua")
}

/// The hook that a generator attribute names, read as `lua(meta = "hook")`.
pub fn hook_of_attr(a: &AttrDecl) -> (r: Option<String>)
    ensures
        opt_view(r) == hook_arg(*a),
{
    match &a.meta {
        MetaDecl::List(args) => {
            if args.len() == 1 {
                match &args[0] {
                    NestedDecl::NameValue { path, lit } => {
                        if is_ident(path, "meta") {
                            match lit {
                                LitDecl::Str(s) => Some(s.clone()),
                                LitDecl::Other => None,
                            }
                        } else {
                            None
                        }
                    },
                    NestedDecl::Other => None,
                }
            } else {
                None
            }
        },
        _ => None,
    }
}

/// Reads the generator attributes of a method: the hook it is bound to, if
/// any, or the error for an attribute that names none.
pub fn hook_of_attrs(attrs: &Vec<AttrDecl>) -> (r: Result<Option<String>, GenError>)
    ensures
        match r {
            Ok(h) => attrs_ok(attrs@) && opt_view(h) == last_hook(attrs@),
            Err(e) => !attrs_ok(attrs@) && e == GenError::UnrecognizedAttribute,
        },
{
    let mut hook: Option<String> = None;
    let mut i: usize = 0;
    while i < attrs.len()
        invariant
            i <= attrs@.len(),
            attrs_ok(attrs@.subrange(0, i as int)),
            opt_view(hook) == last_hook(attrs@.subrange(0, i as int)),
        decreases attrs@.len() - i,
    {
        let ghost pre = attrs@.subrange(0, i as int);
        let ghost next = attrs@.subrange(0, i + 1);
        assert(next.drop_last() =~= pre);
        assert(next.last() == attrs@[i as int]);
        if is_generator_attr(&attrs[i]) {
            match hook_of_attr(&attrs[i]) {
                Some(h) => {
                    hook = Some(h);
                },
                None => {
                    assert(!attrs_ok(attrs@)) by {
                        assert(is_generator_attr_spec(attrs@[i as int]));
                    }
                    return Err(GenError::UnrecognizedAttribute);
                },
            }
        }
        assert(attrs_ok(next)) by {
            assert forall|j: int|
                0 <= j < next.len() && is_generator_attr_spec(#[trigger] next[j]) implies hook_arg(
                next[j],
            ) is Some by {
                if j < i {
                    assert(next[j] == pre[j]);
                }
            }
        }
        i = i + 1;
    }
    assert(attrs@.subrange(0, i as int) =~= attrs@);
    Ok(hook)
}

} // verus!
