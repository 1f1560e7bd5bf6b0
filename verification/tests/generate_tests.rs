use flutter_rust_api_translate::crate_info::{Impl, Visibility};
use flutter_rust_api_translate::dart::{ffi_code_with, gen_ffi_code, gen_wasm_code, wasm_code_with};
use flutter_rust_api_translate::generate::{CallFn, DocSignatures};
use flutter_rust_api_translate::intersection::{
    intersection_bound_trait_to_object_pool, missing_impl_trait, BoundObjectPool,
};
use flutter_rust_api_translate::module_info::TraitToImplPool;
use flutter_rust_api_translate::opt_array::{Crate, OptArray, SetupError};
use flutter_rust_api_translate::opts::Opts;
use flutter_rust_api_translate::pool::NamePool;
use flutter_rust_api_translate::run::{remove_dependencies, BOUND_PATH};
use flutter_rust_api_translate::rust_input::IrTypeImplTrait;
use flutter_rust_api_translate::syntax::{
    Attribute, ParsedFile, Param, TopItem, FnItem, ModItem, ItemType, PathName, ReturnType, FnSig,
    SourceFile, SourceTree, Token, TypeKind, TypeImplTrait, Bound,
};
use flutter_rust_api_translate::translate::{replace_bounds_with, sort_by_len};

fn s(x: &str) -> String {
    x.to_string()
}

fn strings(v: &[&str]) -> Vec<String> {
    v.iter().map(|x| x.to_string()).collect()
}

fn opts(input: &str, class: &str, wasm: bool) -> Opts {
    Opts {
        rust_input_path: s(input),
        dart_output_path: s("../dart/lib/bridge_generated.dart"),
        class_name: s(class),
        manifest_path: s("Cargo.toml"),
        wasm_enabled: wasm,
    }
}

fn impls(trait_: &str, tys: &[&str]) -> Vec<Impl> {
    tys.iter().map(|t| Impl { self_ty: s(t), trait_: s(trait_) }).collect()
}

fn ir(traits: &[&str]) -> IrTypeImplTrait {
    IrTypeImplTrait { trait_bounds: strings(traits) }
}

fn empty_crate() -> Crate {
    Crate::from_root_file(s("demo"), s("Cargo.toml"), s("src/lib.rs"), ParsedFile { items: vec![] })
}

fn opt_array(entries: Vec<(Vec<String>, Vec<String>)>, configs: Vec<Opts>) -> OptArray {
    OptArray {
        bound_oject_pool: BoundObjectPool { entries },
        configs,
        crate_info: empty_crate(),
        root_src_file: s("src/lib.rs"),
        trait_to_impl_pool: NamePool::new(),
    }
}

#[test]
fn intersection_keeps_types_with_every_trait() {
    // Debug -> A,B,C; Clone -> B,C; the bound Clone + Debug -> B,C
    let mut pool: TraitToImplPool = NamePool::new();
    pool.insert(s("Debug"), impls("Debug", &["A", "B", "C"]));
    pool.insert(s("Clone"), impls("Clone", &["B", "C"]));
    let irs = vec![ir(&["Clone", "Debug"]), ir(&["Debug"])];
    assert_eq!(missing_impl_trait(&irs, &pool), None);
    let r = intersection_bound_trait_to_object_pool(irs, &pool);
    assert_eq!(
        r.entries,
        vec![
            (strings(&["Clone", "Debug"]), strings(&["B", "C"])),
            (strings(&["Debug"]), strings(&["A", "B", "C"])),
        ]
    );
    assert!(!r.is_empty());
}

#[test]
fn a_trait_without_impls_is_reported() {
    let mut pool: TraitToImplPool = NamePool::new();
    pool.insert(s("Debug"), impls("Debug", &["A"]));
    let irs = vec![ir(&["Debug"]), ir(&["Debug", "Serialize"])];
    assert_eq!(missing_impl_trait(&irs, &pool), Some(s("Serialize")));
}

#[test]
fn bounds_are_sorted_longest_first_and_stable() {
    let keys = vec![strings(&["X"]), strings(&["A", "B"]), strings(&["Y"]), strings(&["A", "B", "C"])];
    assert_eq!(
        sort_by_len(&keys),
        vec![strings(&["A", "B", "C"]), strings(&["A", "B"]), strings(&["X"]), strings(&["Y"])]
    );
}

#[test]
fn replace_bounds_uses_the_given_names() {
    let keys = vec![strings(&["Aa", "Cc"])];
    let r = replace_bounds_with("fn f(x: impl Aa + Cc, y: impl Aa + Cc) {}", &keys, &strings(&["Given"]));
    assert_eq!(r, "fn f(x: GivenEnum, y: GivenEnum) {}");
    let r = replace_bounds_with("fn g(x:impl Aa + Cc) {}", &keys, &strings(&["Given"]));
    assert_eq!(r, "fn g(x:impl Aa + Cc) {}");
}

#[test]
fn impl_aa_cc_becomes_aa_cc_enum() {
    let o = opt_array(vec![(strings(&["Aa", "Cc"]), strings(&["X"]))], vec![opts("src/api.rs", "Api", false)]);
    let out = o.handle_translate("pub fn tt(t: impl Aa + Cc) {}");
    assert_eq!(out, "pub fn tt(t: AaCcEnum) {}\npub use crate::bridge_generated_bound::*;");
}

#[test]
fn a_bound_is_not_cut_by_a_shorter_one() {
    let o = opt_array(
        vec![(strings(&["Aa"]), strings(&["B"])), (strings(&["Aa", "Cc"]), strings(&["B"]))],
        vec![opts("src/api.rs", "Api", false)],
    );
    let out = o.handle_translate("fn g(y: impl Aa + Cc) {}");
    assert_eq!(out, "fn g(y: AaCcEnum) {}\npub use crate::bridge_generated_bound::*;");
    let out = o.handle_translate("fn f(a: impl Aa, b: impl Aa + Cc) {}");
    assert_eq!(out, "fn f(a: AaEnum, b: AaCcEnum) {}\npub use crate::bridge_generated_bound::*;");
}

#[test]
fn a_file_without_bounds_only_gains_the_import() {
    let o = opt_array(vec![(strings(&["Debug"]), strings(&["A"]))], vec![opts("src/api.rs", "Api", false)]);
    assert_eq!(o.handle_translate("pub fn f(x: i32) {}"), "pub fn f(x: i32) {}\npub use crate::bridge_generated_bound::*;");
}

fn debug_doc(opaque: &[&str], boxed: &[&str]) -> DocSignatures {
    let mut pool = NamePool::new();
    pool.insert(
        s("Debug"),
        CallFn {
            impl_dependencies: s("use std::fmt::Debug;"),
            sig: strings(&["fn fmt(&self, f: &mut std::fmt::Formatter<'_>) -> std::fmt::Result"]),
            fn_name: strings(&["fmt"]),
            args: strings(&["f"]),
        },
    );
    DocSignatures { trait_sig_pool: pool, opaque_set: strings(opaque), add_box_set: strings(boxed) }
}

#[test]
fn bound_file_has_enum_and_forwarding_impl() {
    let o = opt_array(vec![(strings(&["Debug"]), strings(&["A", "B", "C"]))], vec![opts("src/api.rs", "Api", false)]);
    let text = o.generate_impl_file(&debug_doc(&["B"], &["C"]));
    let expected = "use crate::api::*;\n\
use flutter_rust_bridge::RustOpaque;\n\
use std::fmt::Debug;\n\
pub enum DebugEnum {\n    A(A),\n    B(RustOpaque<B>),\n    C(Box<C>),\n}\n\
impl Debug for DebugEnum {\n\
fn fmt(&self, f: &mut std::fmt::Formatter<'_>) -> std::fmt::Result{\n\
match *self {\n\
DebugEnum::A(ref __field0) => __field0.fmt(f),\n\
DebugEnum::B(ref __field0) => __field0.fmt(f),\n\
DebugEnum::C(ref __field0) => __field0.fmt(f),\n\
}\n}\n}\n";
    assert_eq!(text, expected);
}

#[test]
fn bound_enum_is_generated_only_where_there_are_bounds() {
    let o = opt_array(vec![(strings(&["Debug"]), strings(&["A"]))], vec![opts("src/api.rs", "Api", false)]);
    let (bound, root) = o.run_generate_bound_enum(&debug_doc(&[], &[]), "mod api;").unwrap();
    assert!(bound.starts_with("use crate::api::*;\nuse std::fmt::Debug;\npub enum DebugEnum {\n"));
    assert_eq!(root, "mod api;\nmod bridge_generated_bound;");
    let none = opt_array(vec![], vec![opts("src/api.rs", "Api", false)]);
    assert!(none.run_generate_bound_enum(&debug_doc(&[], &[]), "mod api;").is_none());
}

#[test]
fn api_translation_writes_each_input_and_declares_modules() {
    let o = opt_array(
        vec![(strings(&["Debug"]), strings(&["A"]))],
        vec![opts("src/api.rs", "Api", false), opts("src/more.rs", "More", false)],
    );
    let (written, root) = o.run_generate_api_translation(
        &strings(&["pub fn a(x: impl Debug) {}", "pub fn b() {}"]),
        "mod api;\nmod more;\n",
    );
    assert_eq!(
        written,
        vec![
            (s("src/api_translate.rs"), s("pub fn a(x: DebugEnum) {}\npub use crate::bridge_generated_bound::*;")),
            (s("src/more_translate.rs"), s("pub fn b() {}\npub use crate::bridge_generated_bound::*;")),
        ]
    );
    assert_eq!(root, "mod api;\nmod more;\nmod api_translate;\nmod more_translate;");
    let configs = o.translated_configs();
    assert_eq!(configs[0].rust_input_path, "src/api_translate.rs");
    assert_eq!(configs[1].rust_input_path, "src/more_translate.rs");
    assert_eq!(configs[1].class_name, "More");
}

#[test]
fn removing_dependencies_undoes_a_run() {
    let configs = vec![opts("src/api.rs", "Api", false)];
    let o = opt_array(vec![(strings(&["Debug"]), strings(&["A"]))], configs.clone());
    let root = "mod api;\nmod data;\n";
    let (_, root1) = o.run_generate_bound_enum(&debug_doc(&[], &[]), root).unwrap();
    let (written, root2) = o.run_generate_api_translation(&strings(&["pub fn f() {}"]), &root1);
    let removal = remove_dependencies(&configs, &root2);
    assert_eq!(removal.root_content, "mod api;\nmod data;");
    assert_eq!(removal.files, vec![s(BOUND_PATH), written[0].0.clone()]);
    assert_eq!(removal.files, strings(&["src/bridge_generated_bound.rs", "src/api_translate.rs"]));
}

#[test]
fn dart_bindings_use_snake_case_names() {
    assert_eq!(
        ffi_code_with("ApiClass", "given"),
        "\nfinal ApiClass api_given = ApiClassImpl(io.Platform.isIOS || io.Platform.isMacOS\n    ? DynamicLibrary.executable()\n    : DynamicLibrary.open(_dylib));\n"
    );
    assert_eq!(
        wasm_code_with("ApiClass", "given"),
        "\n\nfinal ApiClass apigiven = ApiClassImpl.wasm(\n    WasmModule.initialize(kind: const Modules.noModules(root: 'pkg/native')),\n);\n"
    );
    assert!(gen_ffi_code("ApiClass").contains("final ApiClass api_api_class = ApiClassImpl("));
    assert!(gen_wasm_code("ApiClass").contains("final ApiClass apiapi_class = ApiClassImpl.wasm("));
}

#[test]
fn dart_files_import_and_bind_each_api() {
    let o = opt_array(vec![], vec![opts("src/api.rs", "ApiClass", true)]);
    let (ffi, wasm) = o.run_generate_dart_ffi_file();
    let expected = "\n// Autogen: This file initializes the dynamic library and connects it\nimport 'dart:ffi';\nimport 'dart:io' as io;\n\
import 'bridge_generated.dart';\nexport 'bridge_generated.dart';\
final _dylib = io.Platform.isWindows ? 'native.dll' : 'libnative.so';\
\nfinal ApiClass api_api_class = ApiClassImpl(io.Platform.isIOS || io.Platform.isMacOS\n    ? DynamicLibrary.executable()\n    : DynamicLibrary.open(_dylib));\n";
    assert_eq!(ffi, expected);
    let wasm = wasm.unwrap();
    assert!(wasm.starts_with("\n// Autogen: This file initializes the dynamic library and connects it\nimport 'package:flutter_rust_bridge/flutter_rust_bridge.dart';\nimport 'bridge_generated.dart';\nexport 'bridge_generated.dart';\n\nfinal ApiClass apiapi_class"));
    let native_only = opt_array(vec![], vec![opts("src/api.rs", "ApiClass", false)]);
    assert!(native_only.run_generate_dart_ffi_file().1.is_none());
}

fn impl_trait(bounds: Vec<Bound>) -> TypeKind {
    TypeKind::ImplTrait(TypeImplTrait { bounds })
}

fn trait_bound(t: &str) -> Bound {
    Bound::Trait(PathName::from_ident(s(t)))
}

fn api_with(param: TypeKind) -> ParsedFile {
    ParsedFile {
        items: vec![TopItem::Fn(FnItem {
            vis: Visibility::Public,
            sig: FnSig { ident: s("tt"), inputs: vec![Param::Typed(param)], output: ReturnType::Default },
        })],
    }
}

fn data_file() -> ParsedFile {
    let derive = |ts: &[&str]| Attribute {
        tokens: vec![Token::Group(ts.iter().map(|t| Token::Ident(s(t))).collect())],
    };
    ParsedFile {
        items: vec![
            TopItem::Struct(ItemType { ident: s("A"), vis: Visibility::Public, attrs: vec![derive(&["Debug"])] }),
            TopItem::Struct(ItemType { ident: s("B"), vis: Visibility::Public, attrs: vec![derive(&["Debug", "Clone"])] }),
        ],
    }
}

fn project(api: ParsedFile, data: Option<ParsedFile>) -> (Crate, SourceTree) {
    let root = ParsedFile {
        items: vec![
            TopItem::Mod(ModItem { ident: s("api"), vis: Visibility::Inherited, content: None }),
            TopItem::Mod(ModItem { ident: s("data"), vis: Visibility::Inherited, content: None }),
        ],
    };
    let krate = Crate::from_root_file(s("demo"), s("Cargo.toml"), s("src/lib.rs"), root);
    let sources = SourceTree {
        files: vec![
            SourceFile { path: s("src/api.rs"), file: Some(api) },
            SourceFile { path: s("src/data.rs"), file: data },
        ],
    };
    (krate, sources)
}

#[test]
fn setup_finds_the_types_of_each_bound() {
    let (krate, sources) = project(api_with(impl_trait(vec![trait_bound("Debug"), trait_bound("Clone")])), Some(data_file()));
    let o = OptArray::new_with_remove_translate(vec![opts("src/api.rs", "Api", false)], krate, &sources).unwrap();
    assert_eq!(o.bound_oject_pool.entries, vec![(strings(&["Clone", "Debug"]), strings(&["B"]))]);
    assert_eq!(o.root_src_file, "src/lib.rs");
    assert_eq!(o.get_api_paths(), strings(&["api"]));
    assert!(o.crate_info.root_module.scope.is_some());
}

#[test]
fn setup_reports_each_failure() {
    let (krate, sources) = project(api_with(impl_trait(vec![trait_bound("Serialize")])), Some(data_file()));
    let r = OptArray::new_with_remove_translate(vec![opts("src/api.rs", "Api", false)], krate, &sources);
    assert_eq!(r.err(), Some(SetupError::MissingImpl(s("Serialize"))));

    let (krate, sources) = project(api_with(impl_trait(vec![Bound::Lifetime])), Some(data_file()));
    let r = OptArray::new_with_remove_translate(vec![opts("src/api.rs", "Api", false)], krate, &sources);
    assert_eq!(r.err(), Some(SetupError::EmptyBound));

    let (krate, sources) = project(api_with(impl_trait(vec![trait_bound("Debug")])), None);
    let r = OptArray::new_with_remove_translate(vec![opts("src/api.rs", "Api", false)], krate, &sources);
    assert_eq!(r.err(), Some(SetupError::Unresolved));

    let (krate, sources) = project(api_with(impl_trait(vec![trait_bound("Debug")])), Some(data_file()));
    let r = OptArray::new_with_remove_translate(vec![opts("src/missing.rs", "Api", false)], krate, &sources);
    assert_eq!(r.err(), Some(SetupError::UnreadableInput));
}

#[test]
fn doc_must_describe_every_bound_trait() {
    let o = opt_array(vec![(strings(&["Clone", "Debug"]), strings(&["A"]))], vec![opts("src/api.rs", "Api", false)]);
    assert!(!o.doc_covers_check(&debug_doc(&[], &[])));
    let mut doc = debug_doc(&[], &[]);
    doc.trait_sig_pool.insert(
        s("Clone"),
        CallFn { impl_dependencies: s(""), sig: strings(&["fn clone(&self) -> Self"]), fn_name: strings(&[]), args: strings(&[]) },
    );
    assert!(!o.doc_covers_check(&doc));
    doc.trait_sig_pool.insert(
        s("Clone"),
        CallFn { impl_dependencies: s(""), sig: strings(&["fn clone(&self) -> Self"]), fn_name: strings(&["clone"]), args: strings(&[""]) },
    );
    assert!(o.doc_covers_check(&doc));
    doc.trait_sig_pool.entries.push((s("Clone"), doc.trait_sig_pool.entries[1].1.clone()));
    assert!(!o.doc_covers_check(&doc));
}

#[test]
fn it_works() {
    // Path of input Rust code, and of output generated Dart code
    let mut config = opts("src/api.rs", "Api", true);
    config.dart_output_path = s("../dart/lib/bridge_generated.dart");
    let root = "mod api;\nmod data;";
    let krate = Crate::from_root_text(s("demo"), s("Cargo.toml"), s("src/lib.rs"), root).unwrap();
    let sources = SourceTree::from_texts(vec![
        (s("src/api.rs"), Some(s("pub fn tt(t: impl Debug) {}"))),
        (s("src/data.rs"), Some(s("#[derive(Debug)]\npub struct A;"))),
    ]);
    let opts = OptArray::new_with_remove_translate(vec![config], krate, &sources).unwrap();
    let (bound, new_root) = opts.run_generate_bound_enum(&debug_doc(&[], &[]), root).unwrap();
    assert!(bound.contains("pub enum DebugEnum {\n    A(A),\n}\n"));
    assert_eq!(new_root, "mod api;\nmod data;\nmod bridge_generated_bound;");
}
