use flutter_rust_api_translate::crate_info::{
    get_ident, get_impl_trait_from_attrs, get_module_file_path, try_get_module_file_path, Impl,
    Visibility,
};
use flutter_rust_api_translate::module_info::Module;
use flutter_rust_api_translate::opt_array::{choose_root_src_file, Crate};
use flutter_rust_api_translate::parse::parse_source;
use flutter_rust_api_translate::opts::{
    get_api_name, get_translate_path, to_translation, Opts, OptsUtilTrait,
};
use flutter_rust_api_translate::rust_input::{
    convert_impl_trait_to_bound, file_wf_check, get_fns, get_sig_args, inputs_readable_check,
    item_method_to_function, parse_function, IrFile, RustInputInfo,
};
use flutter_rust_api_translate::syntax::{
    Attribute, ParsedFile, Param, ImplMember, TopItem, FnItem, ImplBlock, ModItem, ItemType, PathName, ReturnType,
    FnSig, SourceFile, SourceTree, Token, TypeKind, TypeImplTrait, Bound,
};

fn s(x: &str) -> String {
    x.to_string()
}

fn strings(v: &[&str]) -> Vec<String> {
    v.iter().map(|x| x.to_string()).collect()
}

fn path_ty(name: &str) -> TypeKind {
    TypeKind::Path(PathName::from_ident(s(name)))
}

fn impl_trait(traits: &[&str]) -> TypeKind {
    TypeKind::ImplTrait(TypeImplTrait {
        bounds: traits.iter().map(|t| Bound::Trait(PathName::from_ident(s(t)))).collect(),
    })
}

fn func(vis: Visibility, name: &str, inputs: Vec<Param>, output: Option<TypeKind>) -> FnItem {
    FnItem {
        vis,
        sig: FnSig {
            ident: s(name),
            inputs,
            output: match output {
                Some(t) => ReturnType::Type(t),
                None => ReturnType::Default,
            },
        },
    }
}

fn derive(traits: &[&str]) -> Attribute {
    let mut inner = Vec::new();
    for (i, t) in traits.iter().enumerate() {
        if i > 0 {
            inner.push(Token::Other);
        }
        inner.push(Token::Ident(s(t)));
    }
    Attribute { tokens: vec![Token::Group(inner)] }
}

fn strukt(name: &str, vis: Visibility, traits: &[&str]) -> TopItem {
    TopItem::Struct(ItemType { ident: s(name), vis, attrs: vec![derive(traits)] })
}

fn opts(input: &str) -> Opts {
    Opts {
        rust_input_path: s(input),
        dart_output_path: s("../dart/lib/bridge_generated.dart"),
        class_name: s("ApiClass"),
        manifest_path: s("Cargo.toml"),
        wasm_enabled: true,
    }
}

fn names(v: &[flutter_rust_api_translate::rust_input::IrTypeImplTrait]) -> Vec<Vec<String>> {
    v.iter().map(|t| t.trait_bounds.clone()).collect()
}

#[test]
fn api_name_is_file_stem() {
    assert_eq!(get_api_name(&s("src/api.rs")), "api");
    assert_eq!(get_api_name(&s("src/nested/api.v2.rs")), "api");
    assert_eq!(get_api_name(&s("api")), "api");
    assert_eq!(get_translate_path(&s("src/api.rs")), "src/api_translate.rs");
    assert_eq!(to_translation("api"), "api_translate");
}

#[test]
fn api_paths_are_distinct_and_translate_pairs_follow_configs() {
    let configs = vec![opts("src/api.rs"), opts("other/api.rs"), opts("src/data.rs")];
    assert_eq!(configs.get_api_paths(), strings(&["api", "data"]));
    assert_eq!(
        configs.get_translate(),
        vec![
            (s("src/api.rs"), s("src/api_translate.rs")),
            (s("other/api.rs"), s("other/api_translate.rs")),
            (s("src/data.rs"), s("src/data_translate.rs")),
        ]
    );
}

#[test]
fn impl_trait_becomes_sorted_trait_names() {
    let t = TypeImplTrait {
        bounds: vec![
            Bound::Trait(PathName::from_ident(s("Serialize"))),
            Bound::Lifetime,
            Bound::Trait(PathName::from_ident(s("Debug"))),
        ],
    };
    assert_eq!(convert_impl_trait_to_bound(t).trait_bounds, strings(&["Debug", "Serialize"]));
}

#[test]
fn parse_function_reads_params_then_return() {
    let f = func(
        Visibility::Public,
        "tt",
        vec![Param::Typed(impl_trait(&["Debug", "Clone"])), Param::Typed(path_ty("i32"))],
        Some(impl_trait(&["Send"])),
    );
    assert_eq!(names(&parse_function(f)), vec![strings(&["Clone", "Debug"]), strings(&["Send"])]);
}

#[test]
fn methods_become_named_functions() {
    let imp = ImplBlock { trait_: None, self_ty: path_ty("Foo"), items: vec![] };
    let m = func(
        Visibility::Public,
        "bar",
        vec![Param::Receiver { mutable: false }, Param::Typed(impl_trait(&["Debug"]))],
        None,
    );
    let f = item_method_to_function(&imp, &m).unwrap();
    assert_eq!(f.sig.ident, "bar__method__Foo");
    match &f.sig.inputs[0] {
        Param::Typed(TypeKind::Path(p)) => assert_eq!(p.segments[0].ident, "Foo"),
        _ => panic!("receiver not turned into a parameter"),
    }
    let st = func(Visibility::Public, "new", vec![], Some(path_ty("Foo")));
    assert_eq!(item_method_to_function(&imp, &st).unwrap().sig.ident, "new__static_method__Foo");
    let other = ImplBlock { trait_: None, self_ty: TypeKind::Other, items: vec![] };
    assert!(item_method_to_function(&other, &st).is_none());
    let set = func(Visibility::Public, "set", vec![Param::Receiver { mutable: true }], None);
    assert!(item_method_to_function(&other, &set).is_none());
}

fn api_file() -> ParsedFile {
    ParsedFile {
        items: vec![
            TopItem::Fn(func(
                Visibility::Public,
                "tt",
                vec![Param::Typed(impl_trait(&["Debug", "Clone"]))],
                None,
            )),
            TopItem::Fn(func(
                Visibility::Inherited,
                "hidden",
                vec![Param::Typed(impl_trait(&["Send"]))],
                None,
            )),
            TopItem::Impl(ImplBlock {
                trait_: None,
                self_ty: path_ty("Foo"),
                items: vec![
                    ImplMember::Method(func(
                        Visibility::Public,
                        "show",
                        vec![Param::Receiver { mutable: false }, Param::Typed(impl_trait(&["Clone", "Debug"]))],
                        Some(impl_trait(&["Debug"])),
                    )),
                    ImplMember::Other,
                ],
            }),
        ],
    }
}

#[test]
fn sig_args_are_distinct_reductions_of_public_functions() {
    let file = api_file();
    assert!(file_wf_check(&file));
    let fns = get_fns(&file);
    let idents: Vec<String> = fns.iter().map(|f| f.sig.ident.clone()).collect();
    assert_eq!(idents, strings(&["tt", "show__method__Foo"]));
    assert_eq!(names(&get_sig_args(&file)), vec![strings(&["Clone", "Debug"]), strings(&["Debug"])]);
    assert_eq!(names(&IrFile::get_ir_info(&file).ir_type_impl_traits), names(&get_sig_args(&file)));
}

#[test]
fn mutable_receivers_make_a_file_unreadable() {
    let file = ParsedFile {
        items: vec![TopItem::Impl(ImplBlock {
            trait_: None,
            self_ty: path_ty("Foo"),
            items: vec![ImplMember::Method(func(
                Visibility::Public,
                "set",
                vec![Param::Receiver { mutable: true }],
                None,
            ))],
        })],
    };
    assert!(!file_wf_check(&file));
}

fn tree(files: Vec<(&str, Option<ParsedFile>)>) -> SourceTree {
    SourceTree {
        files: files.into_iter().map(|(p, f)| SourceFile { path: s(p), file: f }).collect(),
    }
}

#[test]
fn collect_irs_reads_every_input_once() {
    let sources = tree(vec![("src/api.rs", Some(api_file())), ("src/api2.rs", Some(api_file()))]);
    let configs = vec![opts("src/api.rs"), opts("src/api2.rs")];
    assert!(inputs_readable_check(&configs, &sources));
    assert_eq!(configs.get_irs(&sources).len(), 2);
    assert_eq!(
        names(&configs.collect_irs(&sources).ir_type_impl_traits),
        vec![strings(&["Clone", "Debug"]), strings(&["Debug"])]
    );
    assert!(!inputs_readable_check(&vec![opts("src/missing.rs")], &sources));
    let broken = tree(vec![("src/api.rs", None)]);
    assert!(!inputs_readable_check(&vec![opts("src/api.rs")], &broken));
}

#[test]
fn module_files_are_looked_up_in_order() {
    let sources = tree(vec![("src/lib/data.rs", Some(ParsedFile { items: vec![] }))]);
    assert_eq!(get_module_file_path(&sources, &s("data"), &s("src/lib.rs")), Ok(s("src/lib/data.rs")));
    let mut tried = Vec::new();
    assert_eq!(try_get_module_file_path(&sources, &s("src"), &s("data"), &mut tried), None);
    assert_eq!(tried, strings(&["src/data.rs", "src/data/mod.rs"]));
    assert_eq!(
        get_module_file_path(&sources, &s("gone"), &s("src/lib.rs")),
        Err(strings(&["src/gone.rs", "src/gone/mod.rs", "src/lib/gone.rs", "src/lib/gone/mod.rs"]))
    );
}

#[test]
fn attributes_of_public_types_name_impls() {
    let attrs = vec![derive(&["Debug", "Clone"])];
    let impls = get_impl_trait_from_attrs(&s("A"), &attrs, true);
    assert_eq!(
        impls,
        vec![
            Impl { self_ty: s("A"), trait_: s("Debug") },
            Impl { self_ty: s("A"), trait_: s("Clone") }
        ]
    );
    assert!(get_impl_trait_from_attrs(&s("A"), &attrs, false).is_empty());
    assert_eq!(get_ident(&s("A"), &attrs), (strings(&["A"]), false));
}

fn data_file() -> ParsedFile {
    ParsedFile {
        items: vec![
            strukt("A", Visibility::Public, &["Debug"]),
            strukt("B", Visibility::Public, &["Debug", "Clone"]),
            strukt("C", Visibility::Inherited, &["Clone"]),
            TopItem::Impl(ImplBlock {
                trait_: Some(PathName::from_ident(s("Clone"))),
                self_ty: path_ty("C"),
                items: vec![],
            }),
        ],
    }
}

fn root_file() -> ParsedFile {
    ParsedFile {
        items: vec![
            TopItem::Mod(ModItem { ident: s("data"), vis: Visibility::Inherited, content: None }),
            TopItem::Mod(ModItem {
                ident: s("inner"),
                vis: Visibility::Public,
                content: Some(vec![strukt("D", Visibility::Public, &["Clone"])]),
            }),
            TopItem::Mod(ModItem { ident: s("absent"), vis: Visibility::Inherited, content: None }),
        ],
    }
}

#[test]
fn resolve_maps_out_modules_and_collects_impls() {
    let sources = tree(vec![("src/data.rs", Some(data_file()))]);
    let mut krate = Crate::from_root_file(s("demo"), s("Cargo.toml"), s("src/lib.rs"), root_file());
    assert!(krate.resolve(&sources));
    let root: &Module = &krate.root_module;
    let scope = root.scope.as_ref().unwrap();
    let children: Vec<Vec<String>> = scope.modules.iter().map(|m| m.mod_path.clone()).collect();
    assert_eq!(children, vec![strings(&["crate", "data"]), strings(&["crate", "inner"])]);
    let structs = root.collect_structs_to_pool();
    let idents: Vec<String> = structs.entries.iter().map(|e| e.0.clone()).collect();
    assert_eq!(idents, strings(&["A", "B", "C", "D"]));
    assert_eq!(structs.get(&s("C")).unwrap().path, strings(&["crate", "data", "C"]));
    assert!(root.collect_enums_to_pool().entries.is_empty());
    let pool = root.collect_impls_to_pool();
    let debug: Vec<String> = pool.get(&s("Debug")).unwrap().iter().map(|i| i.self_ty.clone()).collect();
    assert_eq!(debug, strings(&["A", "B"]));
    let clone: Vec<String> = pool.get(&s("Clone")).unwrap().iter().map(|i| i.self_ty.clone()).collect();
    assert_eq!(clone, strings(&["B", "C", "D"]));
}

#[test]
fn resolve_stops_on_a_module_file_that_does_not_parse() {
    let sources = tree(vec![("src/data.rs", None)]);
    let mut krate = Crate::from_root_file(s("demo"), s("Cargo.toml"), s("src/lib.rs"), root_file());
    assert!(!krate.resolve(&sources));
    assert!(krate.root_module.scope.is_none());
}

#[test]
fn order_of_bounds_does_not_matter() {
    let a = TypeImplTrait {
        bounds: vec![Bound::Trait(PathName::from_ident(s("A"))), Bound::Trait(PathName::from_ident(s("B")))],
    };
    let b = TypeImplTrait {
        bounds: vec![
            Bound::Trait(PathName::from_ident(s("B"))),
            Bound::Lifetime,
            Bound::Trait(PathName::from_ident(s("A"))),
        ],
    };
    assert_eq!(convert_impl_trait_to_bound(a).trait_bounds, convert_impl_trait_to_bound(b).trait_bounds);
}

#[test]
fn source_text_is_parsed_into_items() {
    let file = parse_source(
        "#[derive(Debug, Clone)]\npub struct A;\nmod data;\nimpl Foo { pub fn show(&self, x: impl Clone + Debug) -> impl Debug { x } }\npub fn tt(t: impl Debug + 'static) {}\nconst X: u8 = 1;",
    )
    .unwrap();
    assert_eq!(file.items.len(), 5);
    match &file.items[0] {
        TopItem::Struct(t) => {
            assert_eq!(t.ident, "A");
            assert_eq!(t.vis, Visibility::Public);
            assert_eq!(get_impl_trait_from_attrs(&t.ident, &t.attrs, true).len(), 2);
        }
        _ => panic!("not a struct"),
    }
    match &file.items[1] {
        TopItem::Mod(m) => {
            assert_eq!(m.ident, "data");
            assert_eq!(m.vis, Visibility::Inherited);
            assert!(m.content.is_none());
        }
        _ => panic!("not a module"),
    }
    assert!(matches!(file.items[4], TopItem::Other));
    assert!(file_wf_check(&file));
    assert_eq!(names(&get_sig_args(&file)), vec![strings(&["Debug"]), strings(&["Clone", "Debug"])]);
    assert!(parse_source("pub fn (").is_none());
}

#[test]
fn source_tree_parses_each_text() {
    let tree = SourceTree::from_texts(vec![
        (s("src/api.rs"), Some(s("pub fn f() {}"))),
        (s("src/bad.rs"), Some(s("fn {"))),
        (s("src/locked.rs"), None),
    ]);
    assert_eq!(tree.files.len(), 3);
    assert_eq!(tree.files[0].path, "src/api.rs");
    assert_eq!(tree.files[0].file.as_ref().unwrap().items.len(), 1);
    assert!(tree.files[1].file.is_none());
    assert!(tree.files[2].file.is_none());
}

#[test]
fn crate_from_root_text_parses_the_root() {
    let krate = Crate::from_root_text(s("demo"), s("Cargo.toml"), s("src/lib.rs"), "mod data;").unwrap();
    assert_eq!(krate.root_module.mod_path, strings(&["crate"]));
    assert_eq!(krate.root_module.file_path, "src/lib.rs");
    assert!(Crate::from_root_text(s("demo"), s("Cargo.toml"), s("src/lib.rs"), "mod {").is_none());
    let mut krate = Crate::from_root_text(s("demo"), s("Cargo.toml"), s("src/lib.rs"), "mod data;").unwrap();
    let sources = SourceTree::from_texts(vec![(s("src/data.rs"), Some(s("#[derive(Debug)] pub struct A;")))]);
    assert!(krate.resolve(&sources));
    let debug: Vec<String> = krate
        .root_module
        .collect_impls_to_pool()
        .get(&s("Debug"))
        .unwrap()
        .iter()
        .map(|i| i.self_ty.clone())
        .collect();
    assert_eq!(debug, strings(&["A"]));
}

#[test]
fn root_file_is_lib_then_main() {
    assert_eq!(choose_root_src_file(s("src/lib.rs"), true, s("src/main.rs"), true), Some(s("src/lib.rs")));
    assert_eq!(choose_root_src_file(s("src/lib.rs"), false, s("src/main.rs"), true), Some(s("src/main.rs")));
    assert_eq!(choose_root_src_file(s("src/lib.rs"), false, s("src/main.rs"), false), None);
}
