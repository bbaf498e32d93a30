use vstd::prelude::*;
use crate::model::{Binding, BindingV, Node, NodeV, Target, TargetV, TypedParam, params_view};
use crate::table::entries_view;

verus! {

pub open spec fn digit_str(d: nat) -> Seq<char> {
    if d == 0 {
        "0"@
    } else if d == 1 {
        "1"@
    } else if d == 2 {
        "2"@
    } else if d == 3 {
        "3"@
    } else if d == 4 {
        "4"@
    } else if d == 5 {
        "5"@
    } else if d == 6 {
        "6"@
    } else if d == 7 {
        "7"@
    } else if d == 8 {
        "8"@
    } else {
        "9"@
    }
}

/// The decimal digits of `n`.
pub open spec fn dec(n: nat) -> Seq<char>
    decreases n,
{
    if n < 10 {
        digit_str(n)
    } else {
        dec(n / 10) + digit_str(n % 10)
    }
}

pub open spec fn esc_char(c: char) -> Seq<char> {
    if c == '"' {
        seq!['\\', '"']
    } else if c == '\\' {
        seq!['\\', '\\']
    } else {
        seq![c]
    }
}

/// The body of a string literal holding `s`.
pub open spec fn esc(s: Seq<char>) -> Seq<char>
    decreases s.len(),
{
    if s.len() == 0 {
        Seq::empty()
    } else {
        esc(s.drop_last()) + esc_char(s.last())
    }
}

/// A string literal holding `s`.
pub open spec fn str_lit(s: Seq<char>) -> Seq<char> {
    seq!['"'] + esc(s) + seq!['"']
}

/// The runtime's wrapper for callables of `n` arguments.
pub open spec fn wrapper(n: nat) -> Seq<char> {
    "hlua::function"@ + dec(n)
}

/// The closure's parameter list after the receiver: `, pat: ty` for each.
pub open spec fn params_decl(ps: Seq<(Seq<char>, Seq<char>)>) -> Seq<char>
    decreases ps.len(),
{
    if ps.len() == 0 {
        Seq::empty()
    } else {
        params_decl(ps.drop_last()) + ", "@ + ps.last().0 + ": "@ + ps.last().1
    }
}

/// The arguments passed on to the method: the patterns, separated by commas.
pub open spec fn call_args(ps: Seq<(Seq<char>, Seq<char>)>) -> Seq<char>
    decreases ps.len(),
{
    if ps.len() == 0 {
        Seq::empty()
    } else if ps.len() == 1 {
        ps[0].0
    } else {
        call_args(ps.drop_last()) + ", "@ + ps.last().0
    }
}

pub open spec fn target_code(t: TargetV) -> Seq<char> {
    match t {
        TargetV::Free(id) => id,
        TargetV::Constructor(ty, id) => ty + "::"@ + id,
        TargetV::Method(ty, id, ps) => "|o: &mut "@ + ty + params_decl(ps) + "| o."@ + id + "("@
            + call_args(ps) + ")"@,
    }
}

pub open spec fn binding_code(b: BindingV) -> Seq<char> {
    match b {
        BindingV::Value(id) => id,
        BindingV::Function(n, t) => wrapper(n) + "("@ + target_code(t) + ")"@,
    }
}

/// `tbl.set("k", value);`
pub open spec fn set_line(tbl: Seq<char>, k: Seq<char>, b: BindingV) -> Seq<char> {
    tbl + ".set("@ + str_lit(k) + ", "@ + binding_code(b) + ");\n"@
}

pub open spec fn set_lines(tbl: Seq<char>, entries: Seq<(Seq<char>, BindingV)>) -> Seq<char>
    decreases entries.len(),
{
    if entries.len() == 0 {
        Seq::empty()
    } else {
        set_lines(tbl, entries.drop_last()) + set_line(tbl, entries.last().0, entries.last().1)
    }
}

/// A nested table `name` created in `parent` and filled with `entries`;
/// nothing at all for a table without entries.
pub open spec fn table_block(
    name: Seq<char>,
    parent: Seq<char>,
    entries: Seq<(Seq<char>, BindingV)>,
) -> Seq<char> {
    if entries.len() == 0 {
        Seq::empty()
    } else {
        "{\nlet mut "@ + name + " = "@ + parent + ".empty_array("@ + str_lit(name) + ");\n"@
            + set_lines(name, entries) + "}\n"@
    }
}

pub open spec fn meta_entry(k: Seq<char>, n: NodeV) -> Seq<char> {
    match n {
        NodeV::Leaf(b) => set_line("metatable"@, k, b),
        NodeV::Table(t) => table_block(k, "metatable"@, t),
    }
}

pub open spec fn meta_code(entries: Seq<(Seq<char>, NodeV)>) -> Seq<char>
    decreases entries.len(),
{
    if entries.len() == 0 {
        Seq::empty()
    } else {
        meta_code(entries.drop_last()) + meta_entry(entries.last().0, entries.last().1)
    }
}

/// The push and read adapters of type `ty`, the push adapter installing the
/// metatable `meta`.
pub open spec fn adapters_code(ty: Seq<char>, meta: Seq<(Seq<char>, NodeV)>) -> Seq<char> {
    "hlua::implement_lua_push!("@ + ty + ", |mut metatable| {\n"@ + meta_code(meta) + "});\n"@
        + "hlua::implement_lua_read!("@ + ty + ");\n"@
}

pub open spec fn load_header() -> Seq<char> {
    "pub fn load<'a, L: hlua::AsMutLua<'a>>(mut lua: hlua::LuaTable<L>) {\n"@
}

/// The `load` entry point that installs the namespace table `ns` of module
/// `ident` into the table it is handed.
pub open spec fn load_code(ident: Seq<char>, ns: Seq<(Seq<char>, BindingV)>) -> Seq<char> {
    load_header() + table_block(ident, "lua"@, ns) + "}\n"@
}

fn digit(d: usize) -> (r: &'static str)
    requires
        d < 10,
    ensures
        r@ == digit_str(d as nat),
{
    if d == 0 {
        "0"
    } else if d == 1 {
        "1"
    } else if d == 2 {
        "2"
    } else if d == 3 {
        "3"
    } else if d == 4 {
        "4"
    } else if d == 5 {
        "5"
    } else if d == 6 {
        "6"
    } else if d == 7 {
        "7"
    } else if d == 8 {
        "8"
    } else {
        "9"
    }
}

/// Appends the decimal digits of `n`.
pub fn push_dec(out: &mut String, n: usize)
    ensures
        final(out)@ == old(out)@ + dec(n as nat),
    decreases n,
{
    if n < 10 {
        out.append(digit(n));
    } else {
        push_dec(out, n / 10);
        out.append(digit(n % 10));
        assert(final(out)@ =~= old(out)@ + dec(n as nat));
    }
}

/// Appends a string literal holding `s`.
pub fn push_str_lit(out: &mut String, s: &String)
    ensures
        final(out)@ == old(out)@ + str_lit(s@),
{
    let ghost start = out@;
    out.append("\"");
    proof {
        reveal_strlit("\"");
    }
    let st = s.as_str();
    let n = st.unicode_len();
    let mut i: usize = 0;
    while i < n
        invariant
            i <= n,
            n == s@.len(),
            st@ == s@,
            out@ == start + seq!['"'] + esc(s@.subrange(0, i as int)),
        decreases n - i,
    {
        let c = st.get_char(i);
        let ghost before = out@;
        if c == '"' {
            out.append("\\\"");
            proof {
                reveal_strlit("\\\"");
            }
        } else if c == '\\' {
            out.append("\\\\");
            proof {
                reveal_strlit("\\\\");
            }
        } else {
            out.append(st.substring_char(i, i + 1));
        }
        let ghost next = s@.subrange(0, i + 1);
        assert(next.drop_last() =~= s@.subrange(0, i as int));
        assert(next.last() == c);
        assert(out@ =~= before + esc_char(c));
        i = i + 1;
    }
    assert(s@.subrange(0, i as int) =~= s@);
    out.append("\"");
    assert(out@ =~= start + str_lit(s@));
}

fn push_params_decl(out: &mut String, ps: &Vec<TypedParam>)
    ensures
        final(out)@ == old(out)@ + params_decl(params_view(ps@)),
{
    let ghost start = out@;
    let ghost pv = params_view(ps@);
    let mut i: usize = 0;
    while i < ps.len()
        invariant
            i <= ps@.len(),
            pv == params_view(ps@),
            out@ == start + params_decl(pv.subrange(0, i as int)),
        decreases ps@.len() - i,
    {
        let ghost next = pv.subrange(0, i + 1);
        assert(next.drop_last() =~= pv.subrange(0, i as int));
        assert(next.last() == ps@[i as int]@);
        out.append(", ");
        out.append(ps[i].pat.as_str());
        out.append(": ");
        out.append(ps[i].ty.as_str());
        assert(out@ =~= start + params_decl(next));
        i = i + 1;
    }
    assert(pv.subrange(0, i as int) =~= pv);
}

fn push_call_args(out: &mut String, ps: &Vec<TypedParam>)
    ensures
        final(out)@ == old(out)@ + call_args(params_view(ps@)),
{
    let ghost start = out@;
    let ghost pv = params_view(ps@);
    let mut i: usize = 0;
    while i < ps.len()
        invariant
            i <= ps@.len(),
            pv == params_view(ps@),
            out@ == start + call_args(pv.subrange(0, i as int)),
        decreases ps@.len() - i,
    {
        let ghost next = pv.subrange(0, i + 1);
        assert(next.drop_last() =~= pv.subrange(0, i as int));
        assert(next.last() == ps@[i as int]@);
        if i > 0 {
            out.append(", ");
        }
        out.append(ps[i].pat.as_str());
        assert(out@ =~= start + call_args(next));
        i = i + 1;
    }
    assert(pv.subrange(0, i as int) =~= pv);
}

fn push_target(out: &mut String, t: &Target)
    ensures
        final(out)@ == old(out)@ + target_code(t@),
{
    let ghost start = out@;
    match t {
        Target::Free { ident } => {
            out.append(ident.as_str());
        },
        Target::Constructor { ty, ident } => {
            out.append(ty.as_str());
            out.append("::");
            out.append(ident.as_str());
            assert(out@ =~= start + target_code(t@));
        },
        Target::Method { ty, ident, params } => {
            out.append("|o: &mut ");
            out.append(ty.as_str());
            push_params_decl(out, params);
            out.append("| o.");
            out.append(ident.as_str());
            out.append("(");
            push_call_args(out, params);
            out.append(")");
            assert(out@ =~= start + target_code(t@));
        },
    }
}

/// Appends the code of binding `b`.
pub fn push_binding(out: &mut String, b: &Binding)
    ensures
        final(out)@ == old(out)@ + binding_code(b@),
{
    let ghost start = out@;
    match b {
        Binding::Value { ident } => {
            out.append(ident.as_str());
        },
        Binding::Function { arity, target } => {
            out.append("hlua::function");
            push_dec(out, *arity);
            out.append("(");
            push_target(out, target);
            out.append(")");
            assert(out@ =~= start + binding_code(b@));
        },
    }
}

fn push_set_line(out: &mut String, tbl: &str, k: &String, b: &Binding)
    ensures
        final(out)@ == old(out)@ + set_line(tbl@, k@, b@),
{
    let ghost start = out@;
    out.append(tbl);
    out.append(".set(");
    push_str_lit(out, k);
    out.append(", ");
    push_binding(out, b);
    out.append(");\n");
    assert(out@ =~= start + set_line(tbl@, k@, b@));
}

/// Appends the nested table `name` of `parent` holding `entries`, or nothing
/// when there are none.
pub fn push_table_block(out: &mut String, name: &String, parent: &str, entries: &Vec<(String, Binding)>)
    ensures
        final(out)@ == old(out)@ + table_block(name@, parent@, entries_view(entries@)),
{
    let ghost start = out@;
    let ghost ev = entries_view(entries@);
    if entries.len() == 0 {
        assert(out@ =~= start + table_block(name@, parent@, ev));
        return;
    }
    out.append("{\nlet mut ");
    out.append(name.as_str());
    out.append(" = ");
    out.append(parent);
    out.append(".empty_array(");
    push_str_lit(out, name);
    out.append(");\n");
    let ghost head = out@;
    let mut i: usize = 0;
    while i < entries.len()
        invariant
            i <= entries@.len(),
            ev == entries_view(entries@),
            out@ == head + set_lines(name@, ev.subrange(0, i as int)),
        decreases entries@.len() - i,
    {
        let ghost next = ev.subrange(0, i + 1);
        assert(next.drop_last() =~= ev.subrange(0, i as int));
        assert(next.last() == ev[i as int]);
        push_set_line(out, name.as_str(), &entries[i].0, &entries[i].1);
        assert(out@ =~= head + set_lines(name@, next));
        i = i + 1;
    }
    assert(ev.subrange(0, i as int) =~= ev);
    out.append("}\n");
    assert(out@ =~= start + table_block(name@, parent@, ev));
}

/// Appends the push and read adapters of type `ty` with metatable `meta`.
pub fn push_adapters(out: &mut String, ty: &String, meta: &Vec<(String, Node)>)
    ensures
        final(out)@ == old(out)@ + adapters_code(ty@, entries_view(meta@)),
{
    let ghost start = out@;
    let ghost mv = entries_view(meta@);
    out.append("hlua::implement_lua_push!(");
    out.append(ty.as_str());
    out.append(", |mut metatable| {\n");
    let ghost head = out@;
    let mut i: usize = 0;
    while i < meta.len()
        invariant
            i <= meta@.len(),
            mv == entries_view(meta@),
            out@ == head + meta_code(mv.subrange(0, i as int)),
        decreases meta@.len() - i,
    {
        let ghost next = mv.subrange(0, i + 1);
        assert(next.drop_last() =~= mv.subrange(0, i as int));
        assert(next.last() == mv[i as int]);
        let ghost before = out@;
        match &meta[i].1 {
            Node::Leaf(b) => push_set_line(out, "metatable", &meta[i].0, b),
            Node::Table(t) => push_table_block(out, &meta[i].0, "metatable", t),
        }
        assert(out@ =~= head + meta_code(next));
        i = i + 1;
    }
    assert(mv.subrange(0, i as int) =~= mv);
    out.append("});\n");
    out.append("hlua::implement_lua_read!(");
    out.append(ty.as_str());
    out.append(");\n");
    assert(out@ =~= start + adapters_code(ty@, mv));
}

/// Appends the `load` entry point of module `ident` with namespace table `ns`.
pub fn push_load(out: &mut String, ident: &String, ns: &Vec<(String, Binding)>)
    ensures
        final(out)@ == old(out)@ + load_code(ident@, entries_view(ns@)),
{
    let ghost start = out@;
    out.append("pub fn load<'a, L: hlua::AsMutLua<'a>>(mut lua: hlua::LuaTable<L>) {\n");
    push_table_block(out, ident, "lua", ns);
    out.append("}\n");
    assert(out@ =~= start + load_code(ident@, entries_view(ns@)));
}

} // verus!
