use lua_bindgen::classify::{hook_of_attrs, is_generator_attr, GenError};
use lua_bindgen::emit::{push_dec, push_str_lit};
use lua_bindgen::generate::generate;
use lua_bindgen::model::{
    AttrDecl, Binding, ImplDecl, ImplItemDecl, ItemDecl, LitDecl, MetaDecl, MethodDecl,
    ModuleDecl, NestedDecl, Node, ParamDecl, Target, TypedParam,
};
use lua_bindgen::module::assemble;
use lua_bindgen::object::Object;

const LOAD: &str = "pub fn load<'a, L: hlua::AsMutLua<'a>>(mut lua: hlua::LuaTable<L>) {\n";

fn s(x: &str) -> String {
    x.to_string()
}

fn typed(pat: &str, ty: &str) -> ParamDecl {
    ParamDecl::Typed(TypedParam { pat: s(pat), ty: s(ty) })
}

fn meta_attr(key: &str, value: &str) -> AttrDecl {
    AttrDecl {
        path: Some(s("lua")),
        meta: MetaDecl::List(vec![NestedDecl::NameValue {
            path: Some(s(key)),
            lit: LitDecl::Str(s(value)),
        }]),
    }
}

fn method(name: &str, params: Vec<ParamDecl>, attrs: Vec<AttrDecl>) -> ImplItemDecl {
    ImplItemDecl::Method(MethodDecl { name: s(name), params, attrs })
}

fn module(name: &str, items: Vec<ItemDecl>) -> ModuleDecl {
    ModuleDecl { name: s(name), is_public: true, items }
}

fn mylib() -> ModuleDecl {
    module(
        "mylib",
        vec![
            ItemDecl::Static { name: s("PI") },
            ItemDecl::Fn { name: s("function1"), n_args: 2 },
            ItemDecl::Fn { name: s("function2"), n_args: 1 },
        ],
    )
}

fn vec3() -> ModuleDecl {
    module(
        "vec3",
        vec![
            ItemDecl::Other,
            ItemDecl::Impl(ImplDecl {
                self_ty: s("Vec3"),
                items: vec![
                    method(
                        "new",
                        vec![typed("x", "f64"), typed("y", "f64"), typed("z", "f64")],
                        vec![],
                    ),
                    method(
                        "add",
                        vec![ParamDecl::Receiver, typed("other", "&Vec3")],
                        vec![meta_attr("meta", "__add")],
                    ),
                    method(
                        "to_string",
                        vec![ParamDecl::Receiver],
                        vec![meta_attr("meta", "__tostring")],
                    ),
                ],
            }),
        ],
    )
}

#[test]
fn module_scenario_text() {
    let out = generate(&mylib()).unwrap();
    let expected = format!(
        "{LOAD}{{\nlet mut mylib = lua.empty_array(\"mylib\");\n\
         mylib.set(\"PI\", PI);\n\
         mylib.set(\"function1\", hlua::function2(function1));\n\
         mylib.set(\"function2\", hlua::function1(function2));\n}}\n}}\n"
    );
    assert_eq!(out, expected);
}

#[test]
fn module_scenario_namespace() {
    let m = assemble(&mylib()).unwrap();
    assert!(m.objects.is_empty());
    let ns = m.namespace();
    assert_eq!(ns.len(), 3);
    assert_eq!(ns[0].0, "PI");
    assert!(matches!(&ns[0].1, Binding::Value { ident } if ident == "PI"));
    assert_eq!(ns[1].0, "function1");
    assert!(matches!(
        &ns[1].1,
        Binding::Function { arity: 2, target: Target::Free { ident } } if ident == "function1"
    ));
    assert_eq!(ns[2].0, "function2");
    assert!(matches!(&ns[2].1, Binding::Function { arity: 1, .. }));
}

#[test]
fn object_scenario_text() {
    let out = generate(&vec3()).unwrap();
    let expected = format!(
        "hlua::implement_lua_push!(Vec3, |mut metatable| {{\n\
         metatable.set(\"__add\", hlua::function2(|o: &mut Vec3, other: &Vec3| o.add(other)));\n\
         metatable.set(\"__tostring\", hlua::function1(|o: &mut Vec3| o.to_string()));\n\
         }});\nhlua::implement_lua_read!(Vec3);\n\
         {LOAD}{{\nlet mut vec3 = lua.empty_array(\"vec3\");\n\
         vec3.set(\"new\", hlua::function3(Vec3::new));\n}}\n}}\n"
    );
    assert_eq!(out, expected);
}

#[test]
fn object_scenario_tables() {
    let m = assemble(&vec3()).unwrap();
    assert_eq!(m.objects.len(), 1);
    let obj = &m.objects[0];
    assert_eq!(obj.constructors.len(), 1);
    assert_eq!(obj.constructors[0].0, "new");
    assert_eq!(obj.metatable.len(), 2);
    assert_eq!(obj.metatable[0].0, "__add");
    assert!(matches!(
        &obj.metatable[0].1,
        Node::Leaf(Binding::Function { arity: 2, target: Target::Method { ident, params, .. } })
            if ident == "add" && params.len() == 1
    ));
    let ns = m.namespace();
    assert_eq!(ns.len(), 1);
    assert_eq!(ns[0].0, "new");
}

#[test]
fn unrecognized_attribute_aborts() {
    let mut m = vec3();
    if let ItemDecl::Impl(i) = &mut m.items[1] {
        i.items.push(method("len", vec![ParamDecl::Receiver], vec![meta_attr("name", "__len")]));
    }
    assert_eq!(generate(&m), Err(GenError::UnrecognizedAttribute));
}

#[test]
fn bare_generator_attribute_aborts() {
    let m = module(
        "m",
        vec![ItemDecl::Impl(ImplDecl {
            self_ty: s("T"),
            items: vec![method(
                "f",
                vec![ParamDecl::Receiver],
                vec![AttrDecl { path: Some(s("lua")), meta: MetaDecl::Path }],
            )],
        })],
    );
    assert_eq!(generate(&m), Err(GenError::UnrecognizedAttribute));
}

#[test]
fn private_module_is_refused() {
    let mut m = mylib();
    m.is_public = false;
    assert_eq!(generate(&m), Err(GenError::NotPublic));
    assert_eq!(
        GenError::NotPublic.message(),
        "`lua_module` attribute is only allowed on public modules"
    );
    assert_eq!(
        GenError::NotAModule.message(),
        "`lua_module` attribute is only allowed on modules"
    );
    assert_eq!(GenError::UnrecognizedAttribute.message(), "unrecognized attribute");
}

#[test]
fn receiver_after_first_is_malformed() {
    let m = module(
        "m",
        vec![ItemDecl::Impl(ImplDecl {
            self_ty: s("T"),
            items: vec![method("f", vec![ParamDecl::Receiver, ParamDecl::Receiver], vec![])],
        })],
    );
    assert_eq!(generate(&m), Err(GenError::MalformedMethod));
}

#[test]
fn index_hook_then_index_method_is_refused() {
    let m = module(
        "m",
        vec![ItemDecl::Impl(ImplDecl {
            self_ty: s("T"),
            items: vec![
                method("get", vec![ParamDecl::Receiver], vec![meta_attr("meta", "__index")]),
                method("len", vec![ParamDecl::Receiver], vec![]),
            ],
        })],
    );
    assert_eq!(generate(&m), Err(GenError::IndexSlotTaken));
}

#[test]
fn methods_without_hook_go_to_index_table() {
    let m = module(
        "m",
        vec![ItemDecl::Impl(ImplDecl {
            self_ty: s("T"),
            items: vec![
                method("len", vec![ParamDecl::Receiver], vec![]),
                method("get", vec![ParamDecl::Receiver, typed("i", "usize"), typed("j", "u8")], vec![]),
                method("make", vec![], vec![]),
            ],
        })],
    );
    let out = generate(&m).unwrap();
    let expected = format!(
        "hlua::implement_lua_push!(T, |mut metatable| {{\n\
         {{\nlet mut __index = metatable.empty_array(\"__index\");\n\
         __index.set(\"len\", hlua::function1(|o: &mut T| o.len()));\n\
         __index.set(\"get\", hlua::function3(|o: &mut T, i: usize, j: u8| o.get(i, j)));\n}}\n\
         }});\nhlua::implement_lua_read!(T);\n\
         {LOAD}{{\nlet mut m = lua.empty_array(\"m\");\n\
         m.set(\"make\", hlua::function0(T::make));\n}}\n}}\n"
    );
    assert_eq!(out, expected);
}

#[test]
fn empty_module_has_empty_load() {
    let m = module("empty", vec![ItemDecl::Other]);
    assert_eq!(generate(&m).unwrap(), format!("{LOAD}}}\n"));
}

#[test]
fn object_without_methods_has_empty_hook_block() {
    let m = module("m", vec![ItemDecl::Impl(ImplDecl { self_ty: s("T"), items: vec![] })]);
    let expected = format!(
        "hlua::implement_lua_push!(T, |mut metatable| {{\n}});\nhlua::implement_lua_read!(T);\n{LOAD}}}\n"
    );
    assert_eq!(generate(&m).unwrap(), expected);
}

#[test]
fn generation_is_repeatable() {
    assert_eq!(generate(&vec3()), generate(&vec3()));
    assert_eq!(generate(&mylib()), generate(&mylib()));
}

#[test]
fn later_entry_replaces_earlier_in_place() {
    let m = module(
        "m",
        vec![
            ItemDecl::Fn { name: s("a"), n_args: 1 },
            ItemDecl::Fn { name: s("b"), n_args: 0 },
            ItemDecl::Static { name: s("a") },
        ],
    );
    let ns = assemble(&m).unwrap().namespace();
    assert_eq!(ns.len(), 2);
    assert_eq!(ns[0].0, "a");
    assert!(matches!(&ns[0].1, Binding::Value { .. }));
}

#[test]
fn constructor_overrides_function_of_same_name() {
    let m = module(
        "m",
        vec![
            ItemDecl::Impl(ImplDecl {
                self_ty: s("T"),
                items: vec![method("new", vec![typed("x", "u8")], vec![])],
            }),
            ItemDecl::Fn { name: s("new"), n_args: 2 },
        ],
    );
    let ns = assemble(&m).unwrap().namespace();
    assert_eq!(ns.len(), 1);
    assert!(matches!(
        &ns[0].1,
        Binding::Function { arity: 1, target: Target::Constructor { .. } }
    ));
}

#[test]
fn last_hook_attribute_wins_and_others_are_kept() {
    let attrs = vec![
        AttrDecl { path: Some(s("inline")), meta: MetaDecl::Path },
        meta_attr("meta", "__add"),
        AttrDecl { path: None, meta: MetaDecl::Malformed },
        meta_attr("meta", "__sub"),
    ];
    assert_eq!(hook_of_attrs(&attrs), Ok(Some(s("__sub"))));
    assert!(!is_generator_attr(&attrs[0]));
    assert!(is_generator_attr(&attrs[1]));
    assert!(!is_generator_attr(&attrs[2]));
    assert_eq!(hook_of_attrs(&vec![]), Ok(None));
    let bad = vec![AttrDecl {
        path: Some(s("lua")),
        meta: MetaDecl::List(vec![NestedDecl::NameValue {
            path: Some(s("meta")),
            lit: LitDecl::Other,
        }]),
    }];
    assert_eq!(hook_of_attrs(&bad), Err(GenError::UnrecognizedAttribute));
}

#[test]
fn hook_replaced_by_later_method() {
    let mut obj = Object::new(s("T"));
    let m1 = MethodDecl { name: s("a"), params: vec![ParamDecl::Receiver], attrs: vec![] };
    let m2 = MethodDecl { name: s("b"), params: vec![ParamDecl::Receiver], attrs: vec![] };
    assert_eq!(obj.add_method(&m1, Some(s("__len"))), Ok(()));
    assert_eq!(obj.add_method(&m2, Some(s("__len"))), Ok(()));
    assert_eq!(obj.metatable.len(), 1);
    assert!(matches!(
        &obj.metatable[0].1,
        Node::Leaf(Binding::Function { target: Target::Method { ident, .. }, .. }) if ident == "b"
    ));
}

#[test]
fn decimal_and_literal_rendering() {
    let mut out = String::new();
    push_dec(&mut out, 0);
    out.push(' ');
    push_dec(&mut out, 1207);
    assert_eq!(out, "0 1207");
    let mut lit = String::new();
    push_str_lit(&mut lit, &s("a\"b\\c"));
    assert_eq!(lit, "\"a\\\"b\\\\c\"");
}

#[test]
fn extra_attribute_argument_aborts() {
    let extra = AttrDecl {
        path: Some(s("lua")),
        meta: MetaDecl::List(vec![
            NestedDecl::NameValue { path: Some(s("meta")), lit: LitDecl::Str(s("__add")) },
            NestedDecl::Other,
        ]),
    };
    let m = module(
        "m",
        vec![ItemDecl::Impl(ImplDecl {
            self_ty: s("T"),
            items: vec![method("add", vec![ParamDecl::Receiver], vec![extra])],
        })],
    );
    assert_eq!(generate(&m), Err(GenError::UnrecognizedAttribute));
}

#[test]
fn index_hook_after_index_methods_is_refused() {
    let m = module(
        "m",
        vec![ItemDecl::Impl(ImplDecl {
            self_ty: s("T"),
            items: vec![
                method("len", vec![ParamDecl::Receiver], vec![]),
                method("get", vec![ParamDecl::Receiver], vec![meta_attr("meta", "__index")]),
            ],
        })],
    );
    assert_eq!(generate(&m), Err(GenError::IndexSlotTaken));
}

#[test]
fn blocks_of_one_type_share_one_adapter_pair() {
    let m = module(
        "m",
        vec![
            ItemDecl::Impl(ImplDecl {
                self_ty: s("T"),
                items: vec![method("new", vec![], vec![])],
            }),
            ItemDecl::Impl(ImplDecl {
                self_ty: s("U"),
                items: vec![method("len", vec![ParamDecl::Receiver], vec![])],
            }),
            ItemDecl::Impl(ImplDecl {
                self_ty: s("T"),
                items: vec![method(
                    "show",
                    vec![ParamDecl::Receiver],
                    vec![meta_attr("meta", "__tostring")],
                )],
            }),
        ],
    );
    let a = assemble(&m).unwrap();
    assert_eq!(a.objects.len(), 2);
    assert_eq!(a.objects[0].self_ty, "T");
    assert_eq!(a.objects[0].constructors.len(), 1);
    assert_eq!(a.objects[0].metatable.len(), 1);
    let expected = format!(
        "hlua::implement_lua_push!(T, |mut metatable| {{\n\
         metatable.set(\"__tostring\", hlua::function1(|o: &mut T| o.show()));\n\
         }});\nhlua::implement_lua_read!(T);\n\
         hlua::implement_lua_push!(U, |mut metatable| {{\n\
         {{\nlet mut __index = metatable.empty_array(\"__index\");\n\
         __index.set(\"len\", hlua::function1(|o: &mut U| o.len()));\n}}\n\
         }});\nhlua::implement_lua_read!(U);\n\
         {LOAD}{{\nlet mut m = lua.empty_array(\"m\");\n\
         m.set(\"new\", hlua::function0(T::new));\n}}\n}}\n"
    );
    assert_eq!(generate(&m).unwrap(), expected);
}
