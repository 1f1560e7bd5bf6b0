//! The code-generation options the translator reads, and the names and paths
//! derived from them.
use vstd::prelude::*;
use crate::text::{concat_str, replace_seq, replace_str, split_seq, split_str, views};
use crate::order::{dedup_seq, dedup_strings};

verus! {

/// The options of one code-generation run, as far as the translator reads them.
#[derive(Debug, Clone)]
pub struct Opts {
    /// Path of the Rust API file.
    pub rust_input_path: String,
    /// Path of the generated Dart file.
    pub dart_output_path: String,
    /// Name of the generated Dart API class.
    pub class_name: String,
    /// Path of the crate's `Cargo.toml`.
    pub manifest_path: String,
    /// Whether Dart bindings for the web are generated too.
    pub wasm_enabled: bool,
}

pub struct OptsV {
    pub rust_input_path: Seq<char>,
    pub dart_output_path: Seq<char>,
    pub class_name: Seq<char>,
    pub manifest_path: Seq<char>,
    pub wasm_enabled: bool,
}

impl View for Opts {
    type V = OptsV;

    open spec fn view(&self) -> OptsV {
        OptsV {
            rust_input_path: self.rust_input_path@,
            dart_output_path: self.dart_output_path@,
            class_name: self.class_name@,
            manifest_path: self.manifest_path@,
            wasm_enabled: self.wasm_enabled,
        }
    }
}

impl Opts {
    /// A copy with the same view.
    pub fn copy(&self) -> (r: Opts)
        ensures
            r@ == self@,
    {
        Opts {
            rust_input_path: self.rust_input_path.clone(),
            dart_output_path: self.dart_output_path.clone(),
            class_name: self.class_name.clone(),
            manifest_path: self.manifest_path.clone(),
            wasm_enabled: self.wasm_enabled,
        }
    }
}

/// The views of a sequence of options.
pub open spec fn opts_view(cs: Seq<Opts>) -> Seq<OptsV> {
    cs.map_values(|c: Opts| c@)
}

/// The API name of an input path: its last `/`-separated component, up to the first `.`.
pub open spec fn api_name(path: Seq<char>) -> Seq<char> {
    split_seq(split_seq(path, '/').last(), '.')[0]
}

/// The API names of the inputs, each once, in order of first appearance.
pub open spec fn api_paths(cs: Seq<OptsV>) -> Seq<Seq<char>> {
    dedup_seq(cs.map_values(|c: OptsV| api_name(c.rust_input_path)))
}

/// The path the translated API file is written to: every `.rs` becomes `_translate.rs`.
pub open spec fn translate_path(path: Seq<char>) -> Seq<char> {
    replace_seq(path, ".rs"@, "_translate.rs"@)
}

/// The name of the translated module of an API: `{name}_translate`.
pub open spec fn translation_name(s: Seq<char>) -> Seq<char> {
    s + "_translate"@
}

/// The API name of one input path.
pub fn get_api_name(path: &String) -> (r: String)
    ensures
        r@ == api_name(path@),
{
    let parts = split_str(path.as_str(), '/');
    proof {
        crate::text::lemma_split_nonempty(path@, '/');
    }
    let last = &parts[parts.len() - 1];
    assert(last@ == split_seq(path@, '/').last());
    let pieces = split_str(last.as_str(), '.');
    proof {
        crate::text::lemma_split_nonempty(last@, '.');
    }
    let first = pieces[0].clone();
    assert(first@ == views(pieces@)[0]);
    first
}

/// The path the translated version of an API file is written to.
pub fn get_translate_path(path: &String) -> (r: String)
    ensures
        r@ == translate_path(path@),
{
    proof {
        reveal_strlit(".rs");
    }
    replace_str(path.as_str(), ".rs", "_translate.rs")
}

/// `{s}_translate`, the name of the translated module of API `s`.
pub fn to_translation(s: &str) -> (r: String)
    ensures
        r@ == translation_name(s@),
{
    concat_str(s, "_translate")
}

/// Names and paths derived from a list of options.
pub trait OptsUtilTrait {
    /// The options, in order.
    spec fn configs(&self) -> Seq<OptsV>;

    /// The API names of the inputs, each once.
    fn get_api_paths(&self) -> (r: Vec<String>)
        ensures
            views(r@) == api_paths(self.configs()),
    ;

    /// For each input, in order: its path, and the path its translation is written to.
    fn get_translate(&self) -> (r: Vec<(String, String)>)
        ensures
            r@.len() == self.configs().len(),
            forall|i: int|
                0 <= i < r@.len() ==> {
                    &&& (#[trigger] r@[i]).0@ == self.configs()[i].rust_input_path
                    &&& r@[i].1@ == translate_path(self.configs()[i].rust_input_path)
                },
    ;
}

impl OptsUtilTrait for Vec<Opts> {
    open spec fn configs(&self) -> Seq<OptsV> {
        opts_view(self@)
    }

    fn get_api_paths(&self) -> (r: Vec<String>) {
        let mut names: Vec<String> = Vec::new();
        let mut i: usize = 0;
        while i < self.len()
            invariant
                i <= self.len(),
                views(names@) == opts_view(self@).take(i as int).map_values(
                    |c: OptsV| api_name(c.rust_input_path),
                ),
            decreases self.len() - i,
        {
            let n = get_api_name(&self[i].rust_input_path);
            let ghost o = names@;
            names.push(n);
            proof {
                let f = |c: OptsV| api_name(c.rust_input_path);
                assert(views(names@) =~= views(o).push(n@));
                assert(opts_view(self@).take(i + 1).map_values(f) =~= opts_view(self@).take(
                    i as int,
                ).map_values(f).push(f(opts_view(self@)[i as int])));
            }
            i = i + 1;
        }
        assert(opts_view(self@).take(i as int) =~= opts_view(self@));
        dedup_strings(&names)
    }

    fn get_translate(&self) -> (r: Vec<(String, String)>) {
        let mut out: Vec<(String, String)> = Vec::new();
        let mut i: usize = 0;
        while i < self.len()
            invariant
                i <= self.len(),
                out@.len() == i,
                forall|k: int|
                    0 <= k < i ==> {
                        &&& (#[trigger] out@[k]).0@ == self@[k].rust_input_path@
                        &&& out@[k].1@ == translate_path(self@[k].rust_input_path@)
                    },
            decreases self.len() - i,
        {
            let s = self[i].rust_input_path.clone();
            let d = get_translate_path(&self[i].rust_input_path);
            out.push((s, d));
            i = i + 1;
        }
        out
    }
}

} // verus!
