//! The crate being translated, and everything the translator derives from it and
//! from the code-generation options.
use vstd::prelude::*;
use crate::crate_info::{ImplV, Visibility, attr_impls, attrs_idents, lemma_attrs_idents_contains};
use crate::intersection::{
    BoundObjectPool, bounds_covered, common_self_tys, first_missing,
    intersection_bound_trait_to_object_pool, missing_impl_trait,
};
use crate::module_info::{
    Module, ModuleSource, ModuleSourceV, ModuleV, TraitToImplPool, group_impls, impl_sort,
    impls_sorted, is_resolved, item_impls, lemma_impl_sort, module_impls, resolved_scope,
    scope_impls, source_items,
};
use crate::opts::{Opts, OptsV, opts_view};
use crate::order::dedup_seq;
use crate::rust_input::{
    IrTypeImplTrait, RustInputInfo, inputs_irs, inputs_readable, inputs_readable_check, irs_view,
};
use crate::parse::{parse_source, parsed_items};
use crate::syntax::{ItemTypeV, ParsedFile, SourceTree, TopItemV, items_view};
use crate::text::views;

verus! {

broadcast use vstd::std_specs::vec::group_vec_axioms;

/// Represents a crate, including a map of its modules, imports, structs and
/// enums.
#[derive(Debug)]
pub struct Crate {
    pub name: String,
    pub manifest_path: String,
    pub root_src_file: String,
    pub root_module: Module,
}

pub struct CrateV {
    pub name: Seq<char>,
    pub manifest_path: Seq<char>,
    pub root_src_file: Seq<char>,
    pub root_module: ModuleV,
}

impl View for Crate {
    type V = CrateV;

    open spec fn view(&self) -> CrateV {
        CrateV {
            name: self.name@,
            manifest_path: self.manifest_path@,
            root_src_file: self.root_src_file@,
            root_module: self.root_module@,
        }
    }
}

/// A module once mapped out: the same module, with the scope read from `tree`.
pub open spec fn resolved_module(m: ModuleV, tree: SourceTree) -> ModuleV {
    ModuleV {
        visibility: m.visibility,
        file_path: m.file_path,
        path: m.path,
        source: m.source,
        scope: resolved_scope(m, tree),
    }
}

/// The impls of each trait in a module tree, each list sorted.
pub open spec fn impl_pool_of(m: ModuleV) -> Map<Seq<char>, Seq<ImplV>> {
    group_impls(Map::empty(), module_impls(m)).map_values(|v: Seq<ImplV>| impl_sort(v))
}

impl Crate {
    /// The crate named `name`, described by `manifest_path`, whose root file at
    /// `root_src_file` parsed to `file`; its modules are not mapped out yet.
    pub fn from_root_file(name: String, manifest_path: String, root_src_file: String, file: ParsedFile) -> (r:
        Crate)
        ensures
            r.name@ == name@,
            r.manifest_path@ == manifest_path@,
            r.root_src_file@ == root_src_file@,
            r.root_module@ == (ModuleV {
                visibility: Visibility::Public,
                file_path: root_src_file@,
                path: seq!["crate"@],
                source: Some(ModuleSourceV::File(items_view(file.items@))),
                scope: None,
            }),
    {
        let mut path: Vec<String> = Vec::new();
        path.push(crate::text::copy_str("crate"));
        let file_path = root_src_file.clone();
        let r = Crate {
            name,
            manifest_path,
            root_src_file,
            root_module: Module {
                visibility: Visibility::Public,
                file_path,
                mod_path: path,
                source: Some(ModuleSource::File(file)),
                scope: None,
            },
        };
        assert(views(r.root_module.mod_path@) =~= seq!["crate"@]);
        r
    }

    /// The crate named `name`, described by `manifest_path`, whose root file at
    /// `root_src_file` holds `text`, parsed; `None` where the text does not parse.
    pub fn from_root_text(name: String, manifest_path: String, root_src_file: String, text: &str) -> (r:
        Option<Crate>)
        ensures
            r is None <==> parsed_items(text@) is None,
            r matches Some(c) ==> {
                &&& c.name@ == name@
                &&& c.manifest_path@ == manifest_path@
                &&& c.root_src_file@ == root_src_file@
                &&& c.root_module@ == (ModuleV {
                    visibility: Visibility::Public,
                    file_path: root_src_file@,
                    path: seq!["crate"@],
                    source: Some(ModuleSourceV::File(parsed_items(text@)->Some_0)),
                    scope: None,
                })
            },
    {
        match parse_source(text) {
            Some(file) => Some(Crate::from_root_file(name, manifest_path, root_src_file, file)),
            None => None,
        }
    }

    /// Create a map of the modules for this crate. Returns `false`, leaving the crate
    /// as it was, where a module cannot be mapped out.
    pub fn resolve(&mut self, tree: &SourceTree) -> (r: bool)
        requires
            old(self).root_module.source is Some,
        ensures
            r == (resolved_scope(old(self)@.root_module, *tree) is Some),
            r ==> final(self)@ == (CrateV {
                root_module: resolved_module(old(self)@.root_module, *tree),
                ..old(self)@
            }),
            r ==> is_resolved(final(self)@.root_module),
            !r ==> final(self)@ == old(self)@,
    {
        self.root_module.resolve(tree)
    }
}

/// The impls of trait `t` among `s`, in order.
pub open spec fn impls_of(s: Seq<ImplV>, t: Seq<char>) -> Seq<ImplV> {
    s.filter(|x: ImplV| x.trait_ == t)
}

proof fn lemma_group_impls_empty(s: Seq<ImplV>)
    ensures
        forall|t: Seq<char>|
            #![trigger group_impls(Map::empty(), s).contains_key(t)]
            group_impls(Map::empty(), s).contains_key(t) <==> exists|i: int|
                0 <= i < s.len() && (#[trigger] s[i]).trait_ == t,
        forall|t: Seq<char>|
            #![trigger group_impls(Map::empty(), s)[t]]
            group_impls(Map::empty(), s).contains_key(t) ==> group_impls(Map::empty(), s)[t]
                == impls_of(s, t),
    decreases s.len(),
{
    reveal(Seq::filter);
    if s.len() > 0 {
        let d = s.drop_last();
        let x = s.last();
        lemma_group_impls_empty(d);
        let m = group_impls(Map::empty(), d);
        assert forall|t: Seq<char>|
            #![trigger group_impls(Map::empty(), s).contains_key(t)]
            group_impls(Map::empty(), s).contains_key(t) <==> exists|i: int|
                0 <= i < s.len() && (#[trigger] s[i]).trait_ == t by {
            if exists|i: int| 0 <= i < s.len() && (#[trigger] s[i]).trait_ == t {
                let i = choose|i: int| 0 <= i < s.len() && (#[trigger] s[i]).trait_ == t;
                if i < d.len() {
                    assert(d[i] == s[i]);
                }
            }
            if m.contains_key(t) {
                let i = choose|i: int| 0 <= i < d.len() && (#[trigger] d[i]).trait_ == t;
                assert(s[i] == d[i]);
            }
            assert(s[s.len() - 1] == x);
        }
        assert forall|t: Seq<char>|
            #![trigger group_impls(Map::empty(), s)[t]]
            group_impls(Map::empty(), s).contains_key(t) implies group_impls(Map::empty(), s)[t]
            == impls_of(s, t) by {
            assert(s.filter(|y: ImplV| y.trait_ == t) == (if x.trait_ == t {
                d.filter(|y: ImplV| y.trait_ == t).push(x)
            } else {
                d.filter(|y: ImplV| y.trait_ == t)
            }));
            if x.trait_ == t && !m.contains_key(t) {
                let p = |y: ImplV| y.trait_ == t;
                let f = d.filter(p);
                if f.len() > 0 {
                    d.lemma_filter_pred(p, 0);
                    assert(f.contains(f[0]));
                    d.lemma_filter_contains_rev(p, f[0]);
                    assert(d.contains(f[0]));
                    let i = choose|i: int| 0 <= i < d.len() && d[i] == f[0];
                    assert(d[i].trait_ == t);
                }
                assert(f =~= Seq::<ImplV>::empty());
                assert(seq![x] =~= Seq::<ImplV>::empty().push(x));
            }
        }
    }
}

/// **The pool groups the impls by trait, each list sorted.** Once the impls of a
/// module tree are collected, a trait has a list exactly where some impl in the tree
/// is of it, and that list is sorted and holds exactly the impls of the trait, each
/// as often as the tree holds it.
pub proof fn lemma_impl_pool_groups(m: ModuleV)
    ensures
        forall|t: Seq<char>|
            #![trigger impl_pool_of(m).contains_key(t)]
            impl_pool_of(m).contains_key(t) <==> exists|i: int|
                0 <= i < module_impls(m).len() && (#[trigger] module_impls(m)[i]).trait_ == t,
        forall|t: Seq<char>|
            #![trigger impl_pool_of(m)[t]]
            impl_pool_of(m).contains_key(t) ==> impls_sorted(impl_pool_of(m)[t])
                && impl_pool_of(m)[t].to_multiset() == impls_of(module_impls(m), t).to_multiset(),
{
    let s = module_impls(m);
    lemma_group_impls_empty(s);
    assert forall|t: Seq<char>|
        #![trigger impl_pool_of(m)[t]]
        impl_pool_of(m).contains_key(t) implies impls_sorted(impl_pool_of(m)[t])
        && impl_pool_of(m)[t].to_multiset() == impls_of(s, t).to_multiset() by {
        assert(group_impls(Map::empty(), s).contains_key(t));
        lemma_impl_sort(group_impls(Map::empty(), s)[t]);
    }
}

/// The root file of a crate: `src/lib.rs` where it exists, else `src/main.rs` where
/// it exists; `None` where neither does.
pub fn choose_root_src_file(lib_file: String, lib_exists: bool, main_file: String, main_exists: bool) -> (r:
    Option<String>)
    ensures
        r is Some <==> lib_exists || main_exists,
        r matches Some(f) ==> f@ == (if lib_exists {
            lib_file@
        } else {
            main_file@
        }),
{
    if lib_exists {
        Some(lib_file)
    } else if main_exists {
        Some(main_file)
    } else {
        None
    }
}

/// The struct or enum an item declares.
pub open spec fn declared_type(item: TopItemV) -> Option<ItemTypeV> {
    match item {
        TopItemV::Struct(t) => Some(t),
        TopItemV::Enum(t) => Some(t),
        _ => None,
    }
}

/// An identifier directly inside a group of attribute `a` of the type (as `Debug` in
/// `#[derive(Debug, Clone)]`), at token `g` and position `h`.
pub open spec fn attr_names(t: ItemTypeV, a: int, g: int, h: int) -> bool {
    &&& 0 <= a < t.attrs.len()
    &&& 0 <= g < t.attrs[a].len()
    &&& t.attrs[a][g] is Group
    &&& 0 <= h < t.attrs[a][g]->Group_0.len()
    &&& t.attrs[a][g]->Group_0[h] is Ident
}

proof fn lemma_scope_impls_contains(items: Seq<TopItemV>, i: int, x: ImplV)
    requires
        0 <= i < items.len(),
        scope_impls(items) is Some,
        item_impls(items[i]) matches Some(b) && b.contains(x),
    ensures
        scope_impls(items)->Some_0.contains(x),
    decreases items.len(),
{
    let d = items.drop_last();
    let a = scope_impls(d)->Some_0;
    let b = item_impls(items.last())->Some_0;
    assert(scope_impls(items)->Some_0 == a + b);
    if i == items.len() - 1 {
        let p = choose|p: int| 0 <= p < b.len() && b[p] == x;
        assert((a + b)[a.len() + p] == x);
    } else {
        assert(d[i] == items[i]);
        lemma_scope_impls_contains(d, i, x);
        let p = choose|p: int| 0 <= p < a.len() && a[p] == x;
        assert((a + b)[p] == x);
    }
}

/// **A public struct or enum implements each trait its attributes name.** Where the
/// module tree maps out, for each public struct or enum among the root module's items
/// and each identifier `T` directly inside a group of one of its attributes (as
/// `Debug` in `#[derive(Debug, Clone)]`), the pool of collected impls has a list for
/// `T`, and that list holds the impl of `T` for the type.
pub proof fn lemma_attribute_impls_collected(
    m: ModuleV,
    tree: SourceTree,
    i: int,
    a: int,
    g: int,
    h: int,
)
    requires
        m.source is Some,
        resolved_scope(m, tree) is Some,
        0 <= i < source_items(m.source->Some_0).len(),
        declared_type(source_items(m.source->Some_0)[i]) is Some,
        declared_type(source_items(m.source->Some_0)[i])->Some_0.vis == Visibility::Public,
        attr_names(declared_type(source_items(m.source->Some_0)[i])->Some_0, a, g, h),
    ensures
        ({
            let t = declared_type(source_items(m.source->Some_0)[i])->Some_0;
            let name = t.attrs[a][g]->Group_0[h]->Ident_0;
            let pool = impl_pool_of(resolved_module(m, tree));
            pool.contains_key(name) && pool[name].contains(ImplV { self_ty: t.ident, trait_: name })
        }),
{
    broadcast use vstd::multiset::group_multiset_axioms;

    let items = source_items(m.source->Some_0);
    let t = declared_type(items[i])->Some_0;
    let name = t.attrs[a][g]->Group_0[h]->Ident_0;
    let x = ImplV { self_ty: t.ident, trait_: name };
    lemma_attrs_idents_contains(t.attrs, a, g, h);
    let ids = attrs_idents(t.attrs);
    let p = choose|p: int| 0 <= p < ids.len() && ids[p] == name;
    let b = attr_impls(t.ident, t.attrs, true);
    assert(b[p] == x);
    assert(item_impls(items[i]) == Some(b));
    assert(b.contains(x));
    let sc = resolved_scope(m, tree)->Some_0;
    assert(scope_impls(items) is Some && sc.impls == scope_impls(items)->Some_0);
    lemma_scope_impls_contains(items, i, x);
    let mm = resolved_module(m, tree);
    let mi = module_impls(mm);
    let q = choose|q: int| 0 <= q < sc.impls.len() && sc.impls[q] == x;
    assert(mi == sc.impls + crate::module_info::modules_impls(sc.modules));
    assert(mi[q] == x);
    lemma_impl_pool_groups(mm);
    assert(impl_pool_of(mm).contains_key(name));
    let f = |y: ImplV| y.trait_ == name;
    mi.lemma_filter_contains(f, q);
    assert(impls_of(mi, name).contains(x));
    vstd::seq_lib::to_multiset_contains(impls_of(mi, name), x);
    vstd::seq_lib::to_multiset_contains(impl_pool_of(mm)[name], x);
}

/// Why the translator cannot set up from a crate and its options.
#[derive(Debug, Clone, PartialEq, Eq)]
pub enum SetupError {
    /// A module of the crate cannot be mapped out.
    Unresolved,
    /// No type implements this trait of an `impl Trait` bound.
    MissingImpl(String),
    /// An `impl Trait` type names no trait.
    EmptyBound,
    /// An API file is missing, does not parse, or has a public method that cannot
    /// be turned into a function.
    UnreadableInput,
}

/// Everything the translator needs to generate its files.
#[derive(Debug)]
pub struct OptArray {
    pub bound_oject_pool: BoundObjectPool,
    pub configs: Vec<Opts>,
    pub crate_info: Crate,
    pub root_src_file: String,
    pub trait_to_impl_pool: TraitToImplPool,
}

/// The distinct `impl Trait` reductions of all API files of the options.
pub open spec fn configs_irs(tree: SourceTree, cs: Seq<OptsV>) -> Seq<Seq<Seq<char>>> {
    dedup_seq(inputs_irs(tree, cs.map_values(|c: OptsV| c.rust_input_path)))
}

/// Some trait of some bound has no impls in the pool.
pub open spec fn some_impl_missing(pool: Map<Seq<char>, Seq<ImplV>>, irs: Seq<Seq<Seq<char>>>) -> bool {
    exists|i: int, j: int|
        0 <= i < irs.len() && 0 <= j < irs[i].len() && !pool.contains_key(#[trigger] irs[i][j])
}

/// The pool of bounds describes `irs`: one entry per bound, in order, with the
/// types that implement every trait of it, each once.
pub open spec fn bound_pool_of(
    r: Seq<(Seq<Seq<char>>, Seq<Seq<char>>)>,
    pool: Map<Seq<char>, Seq<ImplV>>,
    irs: Seq<Seq<Seq<char>>>,
) -> bool {
    &&& r.len() == irs.len()
    &&& forall|i: int|
        0 <= i < r.len() ==> {
            &&& (#[trigger] r[i]).0 == irs[i]
            &&& r[i].1.no_duplicates()
            &&& r[i].1.to_set() == common_self_tys(pool, irs[i])
        }
}

/// Whether some reduction names no trait.
fn has_empty_bound(irs: &Vec<IrTypeImplTrait>) -> (r: bool)
    ensures
        r == exists|i: int| 0 <= i < irs@.len() && (#[trigger] irs@[i])@.len() == 0,
{
    let mut i: usize = 0;
    while i < irs.len()
        invariant
            i <= irs.len(),
            forall|k: int| 0 <= k < i ==> (#[trigger] irs@[k])@.len() != 0,
        decreases irs.len() - i,
    {
        if irs[i].trait_bounds.len() == 0 {
            return true;
        }
        i = i + 1;
    }
    false
}

impl OptArray {
    /// Sets the translator up from the options and the crate, whose files are in
    /// `sources` as they are once an earlier run's output is removed (see
    /// `remove_dependencies`): maps out the crate's modules, gathers the impls of
    /// each trait and the `impl Trait` types of the API files, and finds, for each
    /// such bound, the types that implement all its traits.
    pub fn new_with_remove_translate(configs: Vec<Opts>, crate_info: Crate, sources: &SourceTree) -> (r:
        Result<OptArray, SetupError>)
        requires
            crate_info.root_module.source is Some,
        ensures
            (r matches Err(SetupError::Unresolved)) <==> resolved_scope(
                crate_info@.root_module,
                *sources,
            ) is None,
            resolved_scope(crate_info@.root_module, *sources) is Some ==> ((r matches Err(
                SetupError::UnreadableInput,
            )) <==> !inputs_readable(*sources, configs.input_paths())),
            resolved_scope(crate_info@.root_module, *sources) is Some && inputs_readable(
                *sources,
                configs.input_paths(),
            ) ==> {
                let m = resolved_module(crate_info@.root_module, *sources);
                let pool = impl_pool_of(m);
                let irs = configs_irs(*sources, opts_view(configs@));
                &&& (r matches Err(SetupError::MissingImpl(t)) ==> exists|i: int, j: int|
                    first_missing(pool, irs, i, j) && #[trigger] irs[i][j] == t@)
                &&& (r matches Err(SetupError::EmptyBound) ==> !some_impl_missing(pool, irs)
                    && exists|i: int| 0 <= i < irs.len() && (#[trigger] irs[i]).len() == 0)
                &&& (r is Ok <==> bounds_covered(pool, irs))
                &&& (r matches Ok(o) ==> {
                    &&& o.crate_info@ == (CrateV { root_module: m, ..crate_info@ })
                    &&& is_resolved(o.crate_info@.root_module)
                    &&& opts_view(o.configs@) == opts_view(configs@)
                    &&& o.root_src_file@ == crate_info@.root_src_file
                    &&& o.trait_to_impl_pool.wf()
                    &&& o.trait_to_impl_pool.map() == pool
                    &&& bound_pool_of(o.bound_oject_pool@, pool, irs)
                })
            },
    {
        let mut crate_info = crate_info;
        if !crate_info.resolve(sources) {
            return Err(SetupError::Unresolved);
        }
        let trait_to_impl_pool = crate_info.root_module.collect_impls_to_pool();
        if !inputs_readable_check(&configs, sources) {
            return Err(SetupError::UnreadableInput);
        }
        let irs = configs.collect_irs(sources).ir_type_impl_traits;
        proof {
            assert(configs.input_paths() =~= opts_view(configs@).map_values(
                |c: OptsV| c.rust_input_path,
            ));
        }
        let ghost pool = trait_to_impl_pool.map();
        let ghost iv = irs_view(irs@);
        assert(iv == configs_irs(*sources, opts_view(configs@)));
        match missing_impl_trait(&irs, &trait_to_impl_pool) {
            Some(t) => {
                proof {
                    let (i, j) = choose|i: int, j: int|
                        first_missing(pool, iv, i, j) && #[trigger] iv[i][j] == t@;
                    assert(!bounds_covered(pool, iv));
                }
                return Err(SetupError::MissingImpl(t));
            },
            None => {},
        }
        proof {
            assert(!some_impl_missing(pool, iv)) by {
                if some_impl_missing(pool, iv) {
                    let (i, j) = choose|i: int, j: int|
                        0 <= i < iv.len() && 0 <= j < iv[i].len() && !pool.contains_key(
                            #[trigger] iv[i][j],
                        );
                    assert(iv[i] == irs@[i]@);
                    assert(pool.contains_key(irs@[i]@[j]));
                }
            }
        }
        if has_empty_bound(&irs) {
            proof {
                let i = choose|i: int| 0 <= i < irs@.len() && (#[trigger] irs@[i])@.len() == 0;
                assert(iv[i] == irs@[i]@);
                assert(!bounds_covered(pool, iv));
            }
            return Err(SetupError::EmptyBound);
        }
        proof {
            assert(bounds_covered(pool, iv)) by {
                assert forall|i: int| 0 <= i < iv.len() implies (#[trigger] iv[i]).len() > 0
                    && forall|j: int| 0 <= j < iv[i].len() ==> pool.contains_key(#[trigger] iv[i][j]) by {
                    assert(iv[i] == irs@[i]@);
                    assert(irs@[i]@.len() != 0);
                    assert forall|j: int| 0 <= j < iv[i].len() implies pool.contains_key(
                        #[trigger] iv[i][j],
                    ) by {
                        assert(iv[i][j] == irs@[i]@[j]);
                    }
                }
            }
            crate::order::lemma_dedup_properties(inputs_irs(*sources, configs.input_paths()));
        }
        let bound_oject_pool = intersection_bound_trait_to_object_pool(irs, &trait_to_impl_pool);
        let root_src_file = crate_info.root_src_file.clone();
        Ok(OptArray { bound_oject_pool, configs, crate_info, root_src_file, trait_to_impl_pool })
    }
}

} // verus!
