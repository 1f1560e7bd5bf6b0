//! The Dart files that load the native library and export each generated API.
use vstd::prelude::*;
use crate::case::{WordCase, cased, to_case};
use crate::opt_array::OptArray;
use crate::opts::{OptsV, opts_view};
use crate::text::{
    contains_seq, join_seq, join_strs, lemma_contains_middle, lemma_contains_trans,
    lemma_join_contains, split_seq, split_str, views,
};

verus! {

broadcast use vstd::std_specs::vec::group_vec_axioms;

/// The name of the generated Dart file: the last `/`-separated part of its path.
pub open spec fn dart_file_name(path: Seq<char>) -> Seq<char> {
    split_seq(path, '/').last()
}

/// The import and export of one generated Dart file.
pub open spec fn import_export(name: Seq<char>) -> Seq<char> {
    "import '"@ + name + "';\nexport '"@ + name + "';"@
}

/// The imports and exports of all generated Dart files, one per line.
pub open spec fn dart_imports(cs: Seq<OptsV>) -> Seq<char> {
    join_seq(cs.map_values(|c: OptsV| import_export(dart_file_name(c.dart_output_path))), "\n"@)
}

/// The native binding of API class `ident`, given its name in snake case.
pub open spec fn ffi_code_text(ident: Seq<char>, snake: Seq<char>) -> Seq<char> {
    "\nfinal "@ + ident + " api_"@ + snake + " = "@ + ident
        + "Impl(io.Platform.isIOS || io.Platform.isMacOS\n    ? DynamicLibrary.executable()\n    : DynamicLibrary.open(_dylib));\n"@
}

/// The web binding of API class `ident`, given its name in snake case.
pub open spec fn wasm_code_text(ident: Seq<char>, snake: Seq<char>) -> Seq<char> {
    "\n\nfinal "@ + ident + " api"@ + snake + " = "@ + ident
        + "Impl.wasm(\n    WasmModule.initialize(kind: const Modules.noModules(root: 'pkg/native')),\n);\n"@
}

/// The native binding of API class `ident`.
pub open spec fn ffi_code(ident: Seq<char>) -> Seq<char> {
    ffi_code_text(ident, cased(ident, WordCase::Snake))
}

/// The web binding of API class `ident`.
pub open spec fn wasm_code(ident: Seq<char>) -> Seq<char> {
    wasm_code_text(ident, cased(ident, WordCase::Snake))
}

/// The first lines of the native Dart file.
pub open spec fn ffi_header() -> Seq<char> {
    "\n// Autogen: This file initializes the dynamic library and connects it\nimport 'dart:ffi';\nimport 'dart:io' as io;\n"@
}

/// The first lines of the web Dart file.
pub open spec fn wasm_header() -> Seq<char> {
    "\n// Autogen: This file initializes the dynamic library and connects it\nimport 'package:flutter_rust_bridge/flutter_rust_bridge.dart';\n"@
}

/// The line that names the native library.
pub open spec fn dylib_line() -> Seq<char> {
    "final _dylib = io.Platform.isWindows ? 'native.dll' : 'libnative.so';"@
}

/// The native Dart file: the header, the imports and exports, the library's name,
/// then the binding of each API class.
pub open spec fn dart_ffi_file(cs: Seq<OptsV>) -> Seq<char> {
    ffi_header() + dart_imports(cs) + dylib_line() + join_seq(
        cs.map_values(|c: OptsV| ffi_code(c.class_name)),
        "\n"@,
    )
}

/// The web Dart file: the header, the imports and exports, then the binding of each
/// API class.
pub open spec fn dart_wasm_file(cs: Seq<OptsV>) -> Seq<char> {
    wasm_header() + dart_imports(cs) + join_seq(
        cs.map_values(|c: OptsV| wasm_code(c.class_name)),
        "\n"@,
    )
}

/// **Every API class is bound, natively and for the web.** For each options entry,
/// the native Dart file holds the native binding of its API class, and the web Dart
/// file holds its web binding.
pub proof fn lemma_dart_files_bind_every_class(cs: Seq<OptsV>, i: int)
    requires
        0 <= i < cs.len(),
    ensures
        contains_seq(dart_ffi_file(cs), ffi_code(cs[i].class_name)),
        contains_seq(dart_wasm_file(cs), wasm_code(cs[i].class_name)),
{
    let fc = cs.map_values(|c: OptsV| ffi_code(c.class_name));
    let wc = cs.map_values(|c: OptsV| wasm_code(c.class_name));
    assert(fc[i] == ffi_code(cs[i].class_name));
    assert(wc[i] == wasm_code(cs[i].class_name));
    lemma_join_contains(fc, "\n"@, i);
    lemma_join_contains(wc, "\n"@, i);
    let jf = join_seq(fc, "\n"@);
    let jw = join_seq(wc, "\n"@);
    lemma_contains_middle(ffi_header() + dart_imports(cs) + dylib_line(), jf, Seq::<char>::empty());
    assert(ffi_header() + dart_imports(cs) + dylib_line() + jf + Seq::<char>::empty() =~= dart_ffi_file(cs));
    lemma_contains_trans(dart_ffi_file(cs), jf, fc[i]);
    lemma_contains_middle(wasm_header() + dart_imports(cs), jw, Seq::<char>::empty());
    assert(wasm_header() + dart_imports(cs) + jw + Seq::<char>::empty() =~= dart_wasm_file(cs));
    lemma_contains_trans(dart_wasm_file(cs), jw, wc[i]);
}

/// The native binding of API class `ident`, whose name in snake case is `snake`.
pub fn ffi_code_with(ident: &str, snake: &str) -> (r: String)
    ensures
        r@ == ffi_code_text(ident@, snake@),
{
    let mut r = String::new();
    r.append("\nfinal ");
    r.append(ident);
    r.append(" api_");
    r.append(snake);
    r.append(" = ");
    r.append(ident);
    r.append(
        "Impl(io.Platform.isIOS || io.Platform.isMacOS\n    ? DynamicLibrary.executable()\n    : DynamicLibrary.open(_dylib));\n",
    );
    r
}

/// The web binding of API class `ident`, whose name in snake case is `snake`.
pub fn wasm_code_with(ident: &str, snake: &str) -> (r: String)
    ensures
        r@ == wasm_code_text(ident@, snake@),
{
    let mut r = String::new();
    r.append("\n\nfinal ");
    r.append(ident);
    r.append(" api");
    r.append(snake);
    r.append(" = ");
    r.append(ident);
    r.append(
        "Impl.wasm(\n    WasmModule.initialize(kind: const Modules.noModules(root: 'pkg/native')),\n);\n",
    );
    r
}

/// The native binding of API class `ident`.
pub fn gen_ffi_code(ident: &str) -> (r: String)
    ensures
        r@ == ffi_code(ident@),
{
    let snake = to_case(ident, WordCase::Snake);
    ffi_code_with(ident, snake.as_str())
}

/// The web binding of API class `ident`.
pub fn gen_wasm_code(ident: &str) -> (r: String)
    ensures
        r@ == wasm_code(ident@),
{
    let snake = to_case(ident, WordCase::Snake);
    wasm_code_with(ident, snake.as_str())
}

impl OptArray {
    /// The imports and exports of the generated Dart files, one per line.
    fn dart_imports_text(&self) -> (r: String)
        ensures
            r@ == dart_imports(opts_view(self.configs@)),
    {
        let ghost cs = opts_view(self.configs@);
        let ghost f = |c: OptsV| import_export(dart_file_name(c.dart_output_path));
        let mut parts: Vec<String> = Vec::new();
        let mut i: usize = 0;
        while i < self.configs.len()
            invariant
                i <= self.configs@.len(),
                cs == opts_view(self.configs@),
                f == (|c: OptsV| import_export(dart_file_name(c.dart_output_path))),
                views(parts@) == cs.take(i as int).map_values(f),
            decreases self.configs.len() - i,
        {
            let pieces = split_str(self.configs[i].dart_output_path.as_str(), '/');
            proof {
                crate::text::lemma_split_nonempty(self.configs@[i as int].dart_output_path@, '/');
            }
            let path = &pieces[pieces.len() - 1];
            assert(path@ == dart_file_name(cs[i as int].dart_output_path));
            let mut line = String::new();
            line.append("import '");
            line.append(path.as_str());
            line.append("';\nexport '");
            line.append(path.as_str());
            line.append("';");
            let ghost o = views(parts@);
            parts.push(line);
            proof {
                assert(views(parts@) =~= o.push(line@));
                assert(cs.take(i + 1).map_values(f) =~= cs.take(i as int).map_values(f).push(
                    f(cs[i as int]),
                ));
            }
            i = i + 1;
        }
        assert(cs.take(i as int) =~= cs);
        join_strs(&parts, "\n")
    }

    /// The text of the native Dart file.
    pub fn generate_dart_ffi_file(&self) -> (r: String)
        ensures
            r@ == dart_ffi_file(opts_view(self.configs@)),
            forall|i: int|
                0 <= i < self.configs@.len() ==> contains_seq(
                    r@,
                    ffi_code(#[trigger] self.configs@[i].class_name@),
                ),
    {
        proof {
            let cs = opts_view(self.configs@);
            assert forall|i: int| 0 <= i < self.configs@.len() implies contains_seq(
                dart_ffi_file(cs),
                ffi_code(#[trigger] self.configs@[i].class_name@),
            ) by {
                assert(cs[i].class_name == self.configs@[i].class_name@);
                lemma_dart_files_bind_every_class(cs, i);
            }
        }
        let ghost cs = opts_view(self.configs@);
        let ghost f = |c: OptsV| ffi_code(c.class_name);
        let mut lines = String::new();
        lines.append(
            "\n// Autogen: This file initializes the dynamic library and connects it\nimport 'dart:ffi';\nimport 'dart:io' as io;\n",
        );
        let imports = self.dart_imports_text();
        lines.append(imports.as_str());
        lines.append("final _dylib = io.Platform.isWindows ? 'native.dll' : 'libnative.so';");
        let mut codes: Vec<String> = Vec::new();
        let mut i: usize = 0;
        while i < self.configs.len()
            invariant
                i <= self.configs@.len(),
                cs == opts_view(self.configs@),
                f == (|c: OptsV| ffi_code(c.class_name)),
                views(codes@) == cs.take(i as int).map_values(f),
            decreases self.configs.len() - i,
        {
            let code = gen_ffi_code(self.configs[i].class_name.as_str());
            let ghost o = views(codes@);
            codes.push(code);
            proof {
                assert(views(codes@) =~= o.push(code@));
                assert(cs.take(i + 1).map_values(f) =~= cs.take(i as int).map_values(f).push(
                    f(cs[i as int]),
                ));
            }
            i = i + 1;
        }
        assert(cs.take(i as int) =~= cs);
        let joined = join_strs(&codes, "\n");
        lines.append(joined.as_str());
        lines
    }

    /// The text of the web Dart file.
    pub fn generate_dart_wasm_file(&self) -> (r: String)
        ensures
            r@ == dart_wasm_file(opts_view(self.configs@)),
            forall|i: int|
                0 <= i < self.configs@.len() ==> contains_seq(
                    r@,
                    wasm_code(#[trigger] self.configs@[i].class_name@),
                ),
    {
        proof {
            let cs = opts_view(self.configs@);
            assert forall|i: int| 0 <= i < self.configs@.len() implies contains_seq(
                dart_wasm_file(cs),
                wasm_code(#[trigger] self.configs@[i].class_name@),
            ) by {
                assert(cs[i].class_name == self.configs@[i].class_name@);
                lemma_dart_files_bind_every_class(cs, i);
            }
        }
        let ghost cs = opts_view(self.configs@);
        let ghost f = |c: OptsV| wasm_code(c.class_name);
        let mut lines = String::new();
        lines.append(
            "\n// Autogen: This file initializes the dynamic library and connects it\nimport 'package:flutter_rust_bridge/flutter_rust_bridge.dart';\n",
        );
        let imports = self.dart_imports_text();
        lines.append(imports.as_str());
        let mut codes: Vec<String> = Vec::new();
        let mut i: usize = 0;
        while i < self.configs.len()
            invariant
                i <= self.configs@.len(),
                cs == opts_view(self.configs@),
                f == (|c: OptsV| wasm_code(c.class_name)),
                views(codes@) == cs.take(i as int).map_values(f),
            decreases self.configs.len() - i,
        {
            let code = gen_wasm_code(self.configs[i].class_name.as_str());
            let ghost o = views(codes@);
            codes.push(code);
            proof {
                assert(views(codes@) =~= o.push(code@));
                assert(cs.take(i + 1).map_values(f) =~= cs.take(i as int).map_values(f).push(
                    f(cs[i as int]),
                ));
            }
            i = i + 1;
        }
        assert(cs.take(i as int) =~= cs);
        let joined = join_strs(&codes, "\n");
        lines.append(joined.as_str());
        lines
    }

    /// The Dart files to write: the native one, and the web one where the first
    /// options ask for web bindings.
    pub fn run_generate_dart_ffi_file(&self) -> (r: (String, Option<String>))
        requires
            self.configs@.len() > 0,
        ensures
            r.0@ == dart_ffi_file(opts_view(self.configs@)),
            r.1 is Some <==> self.configs@[0].wasm_enabled,
            r.1 matches Some(w) ==> w@ == dart_wasm_file(opts_view(self.configs@)),
    {
        let ffi = self.generate_dart_ffi_file();
        if self.configs[0].wasm_enabled {
            (ffi, Some(self.generate_dart_wasm_file()))
        } else {
            (ffi, None)
        }
    }
}

} // verus!
