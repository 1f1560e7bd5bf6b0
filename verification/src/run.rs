//! The steps of a translation run as edits of the crate's files: what is written,
//! what the root file becomes, and what a later run removes first.
use vstd::prelude::*;
use crate::file::{
    added_content, appended_lines, keep_line, lemma_remove_appended, lemma_remove_undoes_append,
    removed_content, removed_lines, strip_newline,
};
use crate::generate::{DocSignatures, doc_calls, doc_covers, impl_file};
use crate::opt_array::OptArray;
use crate::opts::{
    Opts, OptsUtilTrait, OptsV, api_paths, get_translate_path, opts_view, to_translation,
    translate_path, translation_name,
};
use crate::text::{contains_seq, join_seq, occurs_at, split_seq, views};
use crate::translate::{pool_keys, translated_source, translation_mod_line};

verus! {

broadcast use vstd::std_specs::vec::group_vec_axioms;

/// Where the bound file is written, relative to the crate.
pub const BOUND_PATH: &'static str = "src/bridge_generated_bound.rs";

/// The root file's declaration of the bound module.
pub open spec fn bound_mod_line() -> Seq<char> {
    "mod bridge_generated_bound;"@
}

/// The root file once the bound module is declared: unchanged where there is no bound.
pub open spec fn bound_root(has_bounds: bool, root: Seq<char>) -> Seq<char> {
    if has_bounds {
        appended_lines(root, seq![bound_mod_line()])
    } else {
        root
    }
}

/// The declarations of the translated modules, one per API.
pub open spec fn translation_mod_lines(cs: Seq<OptsV>) -> Seq<Seq<char>> {
    api_paths(cs).map_values(|a: Seq<char>| translation_mod_line(a))
}

/// The root file once the translated modules are declared.
pub open spec fn translation_root(cs: Seq<OptsV>, root: Seq<char>) -> Seq<char> {
    appended_lines(root, translation_mod_lines(cs))
}

/// What a line of the root file must not mention to survive a new run: the name of a
/// translated module, or the declaration of the bound module.
pub open spec fn removal_keys(cs: Seq<OptsV>) -> Seq<Seq<char>> {
    api_paths(cs).map_values(|a: Seq<char>| translation_name(a)).push(bound_mod_line())
}

/// The files a new run removes first: the bound file, then each translated API file.
pub open spec fn removal_files(cs: Seq<OptsV>, bound_path: Seq<char>) -> Seq<Seq<char>> {
    seq![bound_path] + cs.map_values(|c: OptsV| translate_path(c.rust_input_path))
}

/// What removing the generated files from a crate does to it.
#[derive(Debug, Clone)]
pub struct DependencyRemoval {
    /// The root file without the declarations of generated modules.
    pub root_content: String,
    /// The generated files to delete, in order.
    pub files: Vec<String>,
}

/// Undoes what an earlier run left in the crate: the root file loses every line that
/// names a translated module or declares the bound module, and the bound file and
/// each translated API file are to be deleted.
pub fn remove_dependencies(configs: &Vec<Opts>, root_src_content: &str) -> (r: DependencyRemoval)
    ensures
        r.root_content@ == removed_lines(root_src_content@, removal_keys(opts_view(configs@))),
        views(r.files@) == removal_files(opts_view(configs@), BOUND_PATH@),
{
    let apis = configs.get_api_paths();
    let mut ds: Vec<String> = Vec::new();
    let mut i: usize = 0;
    while i < apis.len()
        invariant
            i <= apis.len(),
            views(ds@) == views(apis@).take(i as int).map_values(|a: Seq<char>| translation_name(a)),
        decreases apis.len() - i,
    {
        let d = to_translation(apis[i].as_str());
        let ghost o = views(ds@);
        ds.push(d);
        proof {
            assert(views(ds@) =~= o.push(d@));
            assert(views(apis@).take(i + 1).map_values(|a: Seq<char>| translation_name(a))
                =~= views(apis@).take(i as int).map_values(|a: Seq<char>| translation_name(a)).push(
                translation_name(apis@[i as int]@),
            ));
        }
        i = i + 1;
    }
    assert(views(apis@).take(i as int) =~= views(apis@));
    let ghost o = views(ds@);
    ds.push(crate::text::copy_str("mod bridge_generated_bound;"));
    assert(views(ds@) =~= o.push(bound_mod_line()));
    let root_content = removed_content(root_src_content, &ds);
    let translate = configs.get_translate();
    let mut files: Vec<String> = Vec::new();
    files.push(crate::text::copy_str(BOUND_PATH));
    let mut j: usize = 0;
    while j < translate.len()
        invariant
            j <= translate.len(),
            translate@.len() == configs@.len(),
            forall|k: int|
                0 <= k < translate@.len() ==> (#[trigger] translate@[k]).1@ == translate_path(
                    opts_view(configs@)[k].rust_input_path,
                ),
            views(files@) == seq![BOUND_PATH@] + opts_view(configs@).take(j as int).map_values(
                |c: OptsV| translate_path(c.rust_input_path),
            ),
        decreases translate.len() - j,
    {
        let ghost o = views(files@);
        files.push(translate[j].1.clone());
        proof {
            assert(views(files@) =~= o.push(translate@[j as int].1@));
            assert(opts_view(configs@).take(j + 1).map_values(
                |c: OptsV| translate_path(c.rust_input_path),
            ) =~= opts_view(configs@).take(j as int).map_values(
                |c: OptsV| translate_path(c.rust_input_path),
            ).push(translate_path(opts_view(configs@)[j as int].rust_input_path)));
        }
        j = j + 1;
    }
    assert(opts_view(configs@).take(j as int) =~= opts_view(configs@));
    DependencyRemoval { root_content, files }
}

/// An input with its translation: the path it is written to, and its text.
pub open spec fn translation_outputs(
    cs: Seq<OptsV>,
    keys: Seq<Seq<Seq<char>>>,
    sources: Seq<Seq<char>>,
) -> Seq<(Seq<char>, Seq<char>)> {
    Seq::new(
        cs.len(),
        |i: int| (translate_path(cs[i].rust_input_path), translated_source(keys, sources[i])),
    )
}

impl OptArray {
    /// Where there are bounds: the text of the bound file, and the root file with the
    /// bound module declared. `None` where there is no bound.
    pub fn run_generate_bound_enum(&self, doc: &DocSignatures, root_content: &str) -> (r: Option<
        (String, String),
    >)
        requires
            doc.trait_sig_pool.wf(),
            doc_covers(doc.trait_sig_pool.map(), self.bound_oject_pool@),
        ensures
            r is None <==> self.bound_oject_pool@.len() == 0,
            r matches Some((bound, root)) ==> {
                &&& bound@ == impl_file(
                    api_paths(opts_view(self.configs@)),
                    views(doc.opaque_set@),
                    views(doc.add_box_set@),
                    doc_calls(doc.trait_sig_pool.entries@),
                    doc.trait_sig_pool.map(),
                    self.bound_oject_pool@,
                )
                &&& root@ == bound_root(true, root_content@)
            },
    {
        if !self.bound_oject_pool.is_empty() {
            let bound = self.generate_impl_file(doc);
            let mut additions: Vec<String> = Vec::new();
            additions.push(crate::text::copy_str("mod bridge_generated_bound;"));
            assert(views(additions@) =~= seq![bound_mod_line()]);
            let root = added_content(root_content, &additions);
            Some((bound, root))
        } else {
            None
        }
    }

    /// The translation of each API file, whose text `sources` gives in the order of
    /// the options: the path it is written to and its text; and the root file with
    /// the translated modules declared.
    pub fn run_generate_api_translation(&self, sources: &Vec<String>, root_content: &str) -> (r: (
        Vec<(String, String)>,
        String,
    ))
        requires
            sources@.len() == self.configs@.len(),
        ensures
            r.0@.map_values(|p: (String, String)| (p.0@, p.1@)) == translation_outputs(
                opts_view(self.configs@),
                pool_keys(self.bound_oject_pool@),
                views(sources@),
            ),
            r.1@ == translation_root(opts_view(self.configs@), root_content@),
    {
        let translate = self.configs.get_translate();
        let ghost outs = translation_outputs(
            opts_view(self.configs@),
            pool_keys(self.bound_oject_pool@),
            views(sources@),
        );
        let mut written: Vec<(String, String)> = Vec::new();
        let mut i: usize = 0;
        while i < translate.len()
            invariant
                i <= translate.len(),
                translate@.len() == self.configs@.len(),
                sources@.len() == self.configs@.len(),
                forall|k: int|
                    0 <= k < translate@.len() ==> (#[trigger] translate@[k]).1@ == translate_path(
                        opts_view(self.configs@)[k].rust_input_path,
                    ),
                outs == translation_outputs(
                    opts_view(self.configs@),
                    pool_keys(self.bound_oject_pool@),
                    views(sources@),
                ),
                written@.map_values(|p: (String, String)| (p.0@, p.1@)) == outs.take(i as int),
            decreases translate.len() - i,
        {
            let text = self.handle_translate(sources[i].as_str());
            let d = translate[i].1.clone();
            let ghost o = written@.map_values(|p: (String, String)| (p.0@, p.1@));
            written.push((d, text));
            proof {
                assert(written@.map_values(|p: (String, String)| (p.0@, p.1@)) =~= o.push(
                    (d@, text@),
                ));
                assert(outs.take(i + 1) =~= outs.take(i as int).push(outs[i as int]));
            }
            i = i + 1;
        }
        assert(outs.take(i as int) =~= outs);
        let apis = self.get_api_paths();
        let mut ds: Vec<String> = Vec::new();
        let mut j: usize = 0;
        while j < apis.len()
            invariant
                j <= apis.len(),
                views(ds@) == views(apis@).take(j as int).map_values(
                    |a: Seq<char>| translation_mod_line(a),
                ),
            decreases apis.len() - j,
        {
            let name = to_translation(apis[j].as_str());
            let mut line = String::new();
            line.append("mod ");
            line.append(name.as_str());
            line.append(";");
            let ghost o = views(ds@);
            ds.push(line);
            proof {
                assert(views(ds@) =~= o.push(line@));
                assert(views(apis@).take(j + 1).map_values(|a: Seq<char>| translation_mod_line(a))
                    =~= views(apis@).take(j as int).map_values(
                    |a: Seq<char>| translation_mod_line(a),
                ).push(translation_mod_line(apis@[j as int]@)));
            }
            j = j + 1;
        }
        assert(views(apis@).take(j as int) =~= views(apis@));
        let root = added_content(root_content, &ds);
        (written, root)
    }

    /// The options the bridge generator is run with: each reads the translated API
    /// file, every `.rs` in its input path having become `_translate.rs`.
    pub fn translated_configs(&self) -> (r: Vec<Opts>)
        ensures
            r@.len() == self.configs@.len(),
            forall|i: int|
                0 <= i < r@.len() ==> (#[trigger] r@[i])@ == (OptsV {
                    rust_input_path: translate_path(self.configs@[i].rust_input_path@),
                    ..self.configs@[i]@
                }),
    {
        let mut configs: Vec<Opts> = Vec::new();
        let mut i: usize = 0;
        while i < self.configs.len()
            invariant
                i <= self.configs@.len(),
                configs@.len() == i,
                forall|k: int|
                    0 <= k < i ==> (#[trigger] configs@[k])@ == (OptsV {
                        rust_input_path: translate_path(self.configs@[k].rust_input_path@),
                        ..self.configs@[k]@
                    }),
            decreases self.configs.len() - i,
        {
            let mut opt = self.configs[i].copy();
            opt.rust_input_path = get_translate_path(&self.configs[i].rust_input_path);
            configs.push(opt);
            i = i + 1;
        }
        configs
    }
}

// ------------------------------------------------------------------------------------
// a new run undoes the last
// ------------------------------------------------------------------------------------
proof fn lemma_mod_line(a: Seq<char>)
    requires
        !a.contains('\n'),
    ensures
        contains_seq(translation_mod_line(a), translation_name(a)),
        !translation_mod_line(a).contains('\n'),
{
    reveal_strlit("mod ");
    reveal_strlit("_translate");
    reveal_strlit(";");
    let line = translation_mod_line(a);
    let name = translation_name(a);
    assert(line =~= "mod "@ + name + ";"@);
    assert(line.subrange(4, 4 + name.len() as int) =~= name);
    assert(occurs_at(line, name, 4));
    assert forall|k: int| 0 <= k < line.len() implies line[k] != '\n' by {
        if 4 <= k < 4 + a.len() {
            assert(line[k] == a[k - 4]);
        }
    }
}

proof fn lemma_bound_mod_line()
    ensures
        contains_seq(bound_mod_line(), bound_mod_line()),
        !bound_mod_line().contains('\n'),
        bound_mod_line().len() > 0 && bound_mod_line().last() != '\n',
{
    reveal_strlit("mod bridge_generated_bound;");
    assert(bound_mod_line().subrange(0, bound_mod_line().len() as int) =~= bound_mod_line());
    assert(occurs_at(bound_mod_line(), bound_mod_line(), 0));
}

/// **A new run removes what the last run declared in the root file.** Where no line
/// of the root file names a translated module or declares the bound module, and no
/// API name holds a newline, declaring the bound module (where there are bounds) and
/// then the translated modules, and then removing the generated declarations, gives
/// the root file back, less one trailing newline.
#[verifier::spinoff_prover]
#[verifier::rlimit(40)]
pub proof fn lemma_removal_undoes_generation(cs: Seq<OptsV>, has_bounds: bool, root: Seq<char>)
    requires
        cs.len() > 0,
        forall|i: int| 0 <= i < api_paths(cs).len() ==> !(#[trigger] api_paths(cs)[i]).contains('\n'),
        forall|i: int|
            0 <= i < split_seq(root, '\n').len() ==> keep_line(
                #[trigger] split_seq(root, '\n')[i],
                removal_keys(cs),
            ),
    ensures
        removed_lines(translation_root(cs, bound_root(has_bounds, root)), removal_keys(cs))
            == strip_newline(root),
{
    let keys = removal_keys(cs);
    let apis = api_paths(cs);
    let lines = translation_mod_lines(cs);
    let names = cs.map_values(|c: OptsV| crate::opts::api_name(c.rust_input_path));
    crate::order::lemma_dedup_properties(names);
    assert(names.contains(names[0]));
    assert(apis.len() > 0);
    assert forall|i: int| 0 <= i < lines.len() implies !(#[trigger] lines[i]).contains('\n')
        && !keep_line(lines[i], keys) by {
        lemma_mod_line(apis[i]);
        assert(keys[i] == translation_name(apis[i]));
        assert(!keep_line(lines[i], keys)) by {
            assert(contains_seq(lines[i], keys[i]));
        }
    }
    lemma_bound_mod_line();
    let bl = seq![bound_mod_line()];
    assert forall|i: int| 0 <= i < bl.len() implies !(#[trigger] bl[i]).contains('\n') && !keep_line(
        bl[i],
        keys,
    ) by {
        assert(keys[keys.len() - 1] == bound_mod_line());
        assert(!keep_line(bl[i], keys)) by {
            assert(contains_seq(bl[i], keys[keys.len() - 1]));
        }
    }
    if has_bounds {
        let root1 = appended_lines(root, bl);
        lemma_remove_appended(root1, lines, keys);
        crate::text::lemma_split_nonempty(root, '\n');
        assert(join_seq(bl, seq!['\n']) == bound_mod_line());
        assert(root1.last() == bound_mod_line().last());
        assert(strip_newline(root1) == root1);
        lemma_remove_undoes_append(root, bl, keys);
    } else {
        lemma_remove_undoes_append(root, lines, keys);
    }
}

/// **The files a run writes are those the bridge generator reads and a new run
/// removes.** The translation of each input is written to the path the bridge
/// generator is then pointed at, and the removal of a new run deletes that path,
/// after the bound file.
pub proof fn lemma_generated_files_removed(
    cs: Seq<OptsV>,
    keys: Seq<Seq<Seq<char>>>,
    sources: Seq<Seq<char>>,
    bound_path: Seq<char>,
)
    ensures
        removal_files(cs, bound_path).len() == cs.len() + 1,
        removal_files(cs, bound_path)[0] == bound_path,
        forall|i: int|
            0 <= i < cs.len() ==> {
                &&& removal_files(cs, bound_path)[i + 1] == #[trigger] translation_outputs(
                    cs,
                    keys,
                    sources,
                )[i].0
                &&& translation_outputs(cs, keys, sources)[i].0 == translate_path(
                    cs[i].rust_input_path,
                )
            },
{
}

} // verus!
