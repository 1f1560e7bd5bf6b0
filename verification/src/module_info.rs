//! Modules: mapping out the modules, structs, enums and trait impls of a crate.
use vstd::prelude::*;
use crate::crate_info::{
    Enum, Impl, ImplV, Struct, TypeDeclV, Visibility, attr_impls, get_ident,
    get_impl_trait_from_attrs, get_module_file_path, impls_view, module_file,
};
use crate::syntax::{
    ParsedFile, TopItem, ItemTypeV, TopItemV, SourceTree, TypeKind, TypeKindV, find_file, item_view,
    items_view, lemma_find_file, lemma_items_view, path_ident,
};
use crate::text::views;
use crate::order::{
    lex_lt, lemma_lex_asymmetric, lemma_lex_irreflexive, lemma_lex_transitive, str_lt,
};
use crate::pool::{NamePool, lemma_entries_map_values};

verus! {

broadcast use vstd::std_specs::vec::group_vec_axioms;

// ------------------------------------------------------------------------------------
// modules
// ------------------------------------------------------------------------------------
/// Where the items of a module come from.
#[derive(Debug)]
pub enum ModuleSource {
    /// The items of a file of its own.
    File(ParsedFile),
    /// The items of an inline `mod name { .. }`.
    ModuleInFile(Vec<TopItem>),
}

pub enum ModuleSourceV {
    File(Seq<TopItemV>),
    ModuleInFile(Seq<TopItemV>),
}

impl View for ModuleSource {
    type V = ModuleSourceV;

    open spec fn view(&self) -> ModuleSourceV {
        match self {
            ModuleSource::File(f) => ModuleSourceV::File(items_view(f.items@)),
            ModuleSource::ModuleInFile(items) => ModuleSourceV::ModuleInFile(items_view(items@)),
        }
    }
}

/// What a module declares: its child modules, enums, trait impls and structs.
#[derive(Debug)]
pub struct ModuleScope {
    pub modules: Vec<Module>,
    pub enums: Vec<Enum>,
    pub impls: Vec<Impl>,
    pub structs: Vec<Struct>,
}

/// set [self.scope] when recursive call [resolve]
#[derive(Debug)]
pub struct Module {
    pub visibility: Visibility,
    pub file_path: String,
    pub mod_path: Vec<String>,
    pub source: Option<ModuleSource>,
    pub scope: Option<ModuleScope>,
}

pub struct ScopeV {
    pub modules: Seq<ModuleV>,
    pub enums: Seq<TypeDeclV>,
    pub impls: Seq<ImplV>,
    pub structs: Seq<TypeDeclV>,
}

pub struct ModuleV {
    pub visibility: Visibility,
    pub file_path: Seq<char>,
    pub path: Seq<Seq<char>>,
    pub source: Option<ModuleSourceV>,
    pub scope: Option<ScopeV>,
}

pub open spec fn module_view(m: Module) -> ModuleV
    decreases m, 1nat,
{
    ModuleV {
        visibility: m.visibility,
        file_path: m.file_path@,
        path: views(m.mod_path@),
        source: match m.source {
            Some(s) => Some(s@),
            None => None,
        },
        scope: match m.scope {
            Some(s) => Some(
                ScopeV {
                    modules: modules_view(s.modules@),
                    enums: s.enums.deep_view(),
                    impls: impls_view(s.impls@),
                    structs: s.structs.deep_view(),
                },
            ),
            None => None,
        },
    }
}

/// The views of a sequence of modules.
pub open spec fn modules_view(ms: Seq<Module>) -> Seq<ModuleV>
    decreases ms, 0nat,
{
    if ms.len() == 0 {
        Seq::empty()
    } else {
        modules_view(ms.drop_last()).push(module_view(ms.last()))
    }
}

pub proof fn lemma_modules_view(ms: Seq<Module>)
    ensures
        modules_view(ms).len() == ms.len(),
        forall|k: int| 0 <= k < ms.len() ==> #[trigger] modules_view(ms)[k] == module_view(ms[k]),
    decreases ms.len(),
{
    if ms.len() > 0 {
        lemma_modules_view(ms.drop_last());
    }
}

/// The view of a module scope.
pub open spec fn scope_view(s: ModuleScope) -> ScopeV {
    ScopeV {
        modules: modules_view(s.modules@),
        enums: s.enums.deep_view(),
        impls: impls_view(s.impls@),
        structs: s.structs.deep_view(),
    }
}

impl View for Module {
    type V = ModuleV;

    open spec fn view(&self) -> ModuleV {
        module_view(*self)
    }
}

/// The module and every module below it has been mapped out.
pub open spec fn is_resolved(m: ModuleV) -> bool
    decreases m,
{
    &&& m.scope is Some
    &&& forall|i: int|
        0 <= i < m.scope->Some_0.modules.len() ==> is_resolved(
            #[trigger] m.scope->Some_0.modules[i],
        )
}

/// Every child module of the scope has been mapped out.
pub open spec fn scope_resolved(s: ScopeV) -> bool {
    forall|i: int| 0 <= i < s.modules.len() ==> is_resolved(#[trigger] s.modules[i])
}

// ------------------------------------------------------------------------------------
// specification of mapping out
// ------------------------------------------------------------------------------------
/// The number of files not yet open.
pub open spec fn count_closed(open: Seq<bool>) -> nat
    decreases open.len(),
{
    if open.len() == 0 {
        0
    } else {
        count_closed(open.drop_last()) + if open.last() {
            0nat
        } else {
            1nat
        }
    }
}

pub proof fn lemma_count_closed_update(open: Seq<bool>, idx: int)
    requires
        0 <= idx < open.len(),
        !open[idx],
    ensures
        count_closed(open.update(idx, true)) + 1 == count_closed(open),
    decreases open.len(),
{
    let u = open.update(idx, true);
    if idx == open.len() - 1 {
        assert(u.drop_last() =~= open.drop_last());
    } else {
        lemma_count_closed_update(open.drop_last(), idx);
        assert(u.drop_last() =~= open.drop_last().update(idx, true));
    }
}

/// Whether `Path::parent` gives a parent: the path has a character other than `/`.
pub open spec fn has_parent(p: Seq<char>) -> bool {
    exists|i: int| 0 <= i < p.len() && p[i] != '/'
}

/// What a declared struct or enum records.
pub open spec fn decl_of(t: ItemTypeV, mpath: Seq<Seq<char>>) -> TypeDeclV {
    TypeDeclV { ident: t.ident, visibility: t.vis, path: mpath.push(t.ident), mirror: false }
}

/// The structs declared among the items, in order.
pub open spec fn scope_structs(items: Seq<TopItemV>, mpath: Seq<Seq<char>>) -> Seq<TypeDeclV>
    decreases items.len(),
{
    if items.len() == 0 {
        Seq::empty()
    } else {
        let r = scope_structs(items.drop_last(), mpath);
        match items.last() {
            TopItemV::Struct(t) => r.push(decl_of(t, mpath)),
            _ => r,
        }
    }
}

/// The enums declared among the items, in order.
pub open spec fn scope_enums(items: Seq<TopItemV>, mpath: Seq<Seq<char>>) -> Seq<TypeDeclV>
    decreases items.len(),
{
    if items.len() == 0 {
        Seq::empty()
    } else {
        let r = scope_enums(items.drop_last(), mpath);
        match items.last() {
            TopItemV::Enum(t) => r.push(decl_of(t, mpath)),
            _ => r,
        }
    }
}

/// The trait impls an item records: those its attributes name for a public struct or
/// enum; one for `impl Trait for TypeKind` with plain identifiers. `None` where the
/// translator stops: a trait named by one identifier implemented for a type path that
/// is not one identifier.
pub open spec fn item_impls(item: TopItemV) -> Option<Seq<ImplV>> {
    match item {
        TopItemV::Struct(t) => Some(attr_impls(t.ident, t.attrs, t.vis == Visibility::Public)),
        TopItemV::Enum(t) => Some(attr_impls(t.ident, t.attrs, t.vis == Visibility::Public)),
        TopItemV::Impl(imp) => match imp.trait_ {
            Some(tp) => match path_ident(tp) {
                Some(trait_) => match imp.self_ty {
                    TypeKindV::Path(sp) => match path_ident(sp) {
                        Some(self_ty) => Some(seq![ImplV { self_ty, trait_ }]),
                        None => None,
                    },
                    _ => Some(Seq::empty()),
                },
                None => Some(Seq::empty()),
            },
            None => Some(Seq::empty()),
        },
        _ => Some(Seq::empty()),
    }
}

/// The trait impls the items record, in order; `None` where the translator stops.
pub open spec fn scope_impls(items: Seq<TopItemV>) -> Option<Seq<ImplV>>
    decreases items.len(),
{
    if items.len() == 0 {
        Some(Seq::empty())
    } else {
        match (scope_impls(items.drop_last()), item_impls(items.last())) {
            (Some(a), Some(b)) => Some(a + b),
            _ => None,
        }
    }
}

/// What an item contributes to the child modules.
pub enum ChildV {
    /// Not a module, or a module whose file cannot be found (or is already open).
    Skip,
    /// The translator stops.
    Stop,
    /// A child module.
    Module(ModuleV),
}

/// The child module an item declares: an inline module mapped out in the same file,
/// or a `mod name;` mapped out in the file found for it. A `mod name;` whose file does
/// not exist, or is open already on the way down, is skipped. The translator stops
/// where a module file does not parse, or where the declaring file's path has no
/// parent.
pub open spec fn child_of(
    item: TopItemV,
    mpath: Seq<Seq<char>>,
    fpath: Seq<char>,
    tree: SourceTree,
    open: Seq<bool>,
) -> ChildV
    decreases count_closed(open), item, 1nat,
{
    match item {
        TopItemV::Mod(m) => {
            let path = mpath.push(m.ident);
            match m.content {
                Some(content) => match scope_of(content, path, fpath, tree, open) {
                    Some(sc) => ChildV::Module(
                        ModuleV {
                            visibility: m.vis,
                            file_path: fpath,
                            path,
                            source: Some(ModuleSourceV::ModuleInFile(content)),
                            scope: Some(sc),
                        },
                    ),
                    None => ChildV::Stop,
                },
                None => if !has_parent(fpath) {
                    ChildV::Stop
                } else {
                    match module_file(tree, m.ident, fpath) {
                        Ok(fp) => match find_file(tree.files@, fp) {
                            Some(idx) => if 0 <= idx < open.len() && !open[idx] {
                                match tree.files@[idx].file {
                                    Some(f) => {
                                        let items = items_view(f.items@);
                                        proof {
                                            lemma_count_closed_update(open, idx);
                                        }
                                        match scope_of(
                                            items,
                                            path,
                                            fp,
                                            tree,
                                            open.update(idx, true),
                                        ) {
                                            Some(sc) => ChildV::Module(
                                                ModuleV {
                                                    visibility: m.vis,
                                                    file_path: fp,
                                                    path,
                                                    source: Some(ModuleSourceV::File(items)),
                                                    scope: Some(sc),
                                                },
                                            ),
                                            None => ChildV::Stop,
                                        }
                                    },
                                    None => ChildV::Stop,
                                }
                            } else {
                                ChildV::Skip
                            },
                            None => ChildV::Skip,
                        },
                        Err(_) => ChildV::Skip,
                    }
                },
            }
        },
        _ => ChildV::Skip,
    }
}

/// The child modules the items declare, in order; `None` where the translator stops.
pub open spec fn scope_modules(
    items: Seq<TopItemV>,
    mpath: Seq<Seq<char>>,
    fpath: Seq<char>,
    tree: SourceTree,
    open: Seq<bool>,
) -> Option<Seq<ModuleV>>
    decreases count_closed(open), items, 0nat,
{
    if items.len() == 0 {
        Some(Seq::empty())
    } else {
        match scope_modules(items.drop_last(), mpath, fpath, tree, open) {
            Some(r) => match child_of(items.last(), mpath, fpath, tree, open) {
                ChildV::Skip => Some(r),
                ChildV::Stop => None,
                ChildV::Module(m) => Some(r.push(m)),
            },
            None => None,
        }
    }
}

/// The scope of a module with these items, at module path `mpath`, declared in the
/// file `fpath`, where the files marked in `open` are open on the way down; `None`
/// where the translator stops.
pub open spec fn scope_of(
    items: Seq<TopItemV>,
    mpath: Seq<Seq<char>>,
    fpath: Seq<char>,
    tree: SourceTree,
    open: Seq<bool>,
) -> Option<ScopeV>
    decreases count_closed(open), items, 2nat,
{
    match (scope_modules(items, mpath, fpath, tree, open), scope_impls(items)) {
        (Some(modules), Some(impls)) => Some(
            ScopeV {
                modules,
                enums: scope_enums(items, mpath),
                impls,
                structs: scope_structs(items, mpath),
            },
        ),
        _ => None,
    }
}

} // verus!

verus! {

// ------------------------------------------------------------------------------------
// mapping out
// ------------------------------------------------------------------------------------
/// What an item contributes to the child modules.
enum Child {
    Skip,
    Stop,
    Module(Module),
}

spec fn child_view(c: Child) -> ChildV {
    match c {
        Child::Skip => ChildV::Skip,
        Child::Stop => ChildV::Stop,
        Child::Module(m) => ChildV::Module(m@),
    }
}

/// Whether `Path::parent` gives a parent for `p`.
fn has_parent_exec(p: &String) -> (r: bool)
    ensures
        r == has_parent(p@),
{
    let pc = crate::text::chars_of(p.as_str());
    let mut i: usize = 0;
    while i < pc.len()
        invariant
            i <= pc.len(),
            pc@ == p@,
            forall|k: int| 0 <= k < i ==> pc@[k] == '/',
        decreases pc.len() - i,
    {
        if pc[i] != '/' {
            return true;
        }
        i = i + 1;
    }
    false
}

/// `mod_path` followed by `ident`.
fn child_path(mod_path: &Vec<String>, ident: &String) -> (r: Vec<String>)
    ensures
        views(r@) == views(mod_path@).push(ident@),
{
    let mut path = crate::text::copy_strings(mod_path);
    let ghost o = path@;
    path.push(ident.clone());
    assert(views(path@) =~= views(o).push(ident@));
    path
}

/// The child module that `item` declares.
fn resolve_child(
    tree: &SourceTree,
    item: &TopItem,
    mod_path: &Vec<String>,
    file_path: &String,
    open: &Vec<bool>,
) -> (r: Child)
    requires
        open@.len() == tree.files@.len(),
    ensures
        child_view(r) == child_of(item@, views(mod_path@), file_path@, *tree, open@),
        r matches Child::Module(m) ==> is_resolved(m@),
    decreases count_closed(open@), item, 1nat,
{
    match item {
        TopItem::Mod(item_mod) => {
            let path = child_path(mod_path, &item_mod.ident);
            match &item_mod.content {
                Some(content) => {
                    assert(decreases_to!(*item => item->Mod_0));
                    assert(decreases_to!(item->Mod_0 => item->Mod_0.content));
                    assert(decreases_to!(item->Mod_0.content => item->Mod_0.content->Some_0));
                    match resolve_items(tree, content, &path, file_path, open) {
                        Some(scope) => {
                            let m = Module {
                                visibility: item_mod.vis,
                                file_path: file_path.clone(),
                                mod_path: path,
                                source: Some(ModuleSource::ModuleInFile(crate::syntax::copy_items(content))),
                                scope: Some(scope),
                            };
                            Child::Module(m)
                        },
                        None => Child::Stop,
                    }
                },
                None => {
                    if !has_parent_exec(file_path) {
                        return Child::Stop;
                    }
                    match get_module_file_path(tree, &item_mod.ident, file_path) {
                        Ok(fp) => match tree.find(&fp) {
                            Some(idx) => {
                                proof {
                                    lemma_find_file(tree.files@, fp@);
                                }
                                if !open[idx] {
                                    match &tree.files[idx].file {
                                        Some(f) => {
                                            let mut open2: Vec<bool> = open.clone();
                                            assert(open2@ == open@);
                                            open2.set(idx, true);
                                            proof {
                                                lemma_count_closed_update(open@, idx as int);
                                            }
                                            match resolve_items(tree, &f.items, &path, &fp, &open2) {
                                                Some(scope) => {
                                                    let m = Module {
                                                        visibility: item_mod.vis,
                                                        file_path: fp,
                                                        mod_path: path,
                                                        source: Some(
                                                            ModuleSource::File(
                                                                ParsedFile { items: crate::syntax::copy_items(&f.items) },
                                                            ),
                                                        ),
                                                        scope: Some(scope),
                                                    };
                                                    Child::Module(m)
                                                },
                                                None => Child::Stop,
                                            }
                                        },
                                        None => Child::Stop,
                                    }
                                } else {
                                    Child::Skip
                                }
                            },
                            None => Child::Skip,
                        },
                        Err(_tried) => Child::Skip,
                    }
                },
            }
        },
        _ => Child::Skip,
    }
}

/// Once the translator stops on a prefix of the items, it stops on all of them.
proof fn lemma_scope_modules_stops(
    items: Seq<TopItemV>,
    mpath: Seq<Seq<char>>,
    fpath: Seq<char>,
    tree: SourceTree,
    open: Seq<bool>,
    k: int,
)
    requires
        0 <= k <= items.len(),
        scope_modules(items.take(k), mpath, fpath, tree, open) is None,
    ensures
        scope_modules(items, mpath, fpath, tree, open) is None,
    decreases items.len() - k,
{
    if k == items.len() {
        assert(items.take(k) =~= items);
    } else {
        assert(items.take(k + 1).drop_last() =~= items.take(k));
        lemma_scope_modules_stops(items, mpath, fpath, tree, open, k + 1);
    }
}

/// Once the translator stops on a prefix of the items, it stops on all of them.
proof fn lemma_scope_impls_stops(items: Seq<TopItemV>, k: int)
    requires
        0 <= k <= items.len(),
        scope_impls(items.take(k)) is None,
    ensures
        scope_impls(items) is None,
    decreases items.len() - k,
{
    if k == items.len() {
        assert(items.take(k) =~= items);
    } else {
        assert(items.take(k + 1).drop_last() =~= items.take(k));
        lemma_scope_impls_stops(items, k + 1);
    }
}

/// Appends the declarations of a struct or enum, as `get_ident` names them.
fn push_structs(out: &mut Vec<Struct>, t: &crate::syntax::ItemType, mod_path: &Vec<String>)
    ensures
        final(out).deep_view() == old(out).deep_view().push(decl_of(t@, views(mod_path@))),
{
    let (idents, mirror) = get_ident(&t.ident, &t.attrs);
    let ghost o = out.deep_view();
    let mut k: usize = 0;
    while k < idents.len()
        invariant
            k <= idents.len(),
            views(idents@) == seq![t.ident@],
            mirror == false,
            out.deep_view() == o + Seq::new(
                k as nat,
                |j: int| decl_of(t@, views(mod_path@)),
            ),
        decreases idents.len() - k,
    {
        assert(views(idents@).len() == idents@.len());
        assert(idents@.len() == 1);
        assert(views(idents@)[k as int] == idents@[k as int]@);
        assert(idents@[k as int]@ == t.ident@);
        let s = Struct {
            ident: idents[k].clone(),
            visibility: t.vis,
            path: child_path(mod_path, &idents[k]),
            mirror,
        };
        let ghost b = out.deep_view();
        out.push(s);
        assert(out.deep_view() =~= b.push(s.deep_view()));
        assert(o + Seq::new((k + 1) as nat, |j: int| decl_of(t@, views(mod_path@))) =~= (o + Seq::new(
            k as nat,
            |j: int| decl_of(t@, views(mod_path@)),
        )).push(decl_of(t@, views(mod_path@))));
        k = k + 1;
    }
    assert(views(idents@).len() == 1);
    assert(o + Seq::new(1nat, |j: int| decl_of(t@, views(mod_path@))) =~= o.push(
        decl_of(t@, views(mod_path@)),
    ));
}

/// Appends the declarations of an enum, as `get_ident` names them.
fn push_enums(out: &mut Vec<Enum>, t: &crate::syntax::ItemType, mod_path: &Vec<String>)
    ensures
        final(out).deep_view() == old(out).deep_view().push(decl_of(t@, views(mod_path@))),
{
    let (idents, mirror) = get_ident(&t.ident, &t.attrs);
    let ghost o = out.deep_view();
    let mut k: usize = 0;
    while k < idents.len()
        invariant
            k <= idents.len(),
            views(idents@) == seq![t.ident@],
            mirror == false,
            out.deep_view() == o + Seq::new(
                k as nat,
                |j: int| decl_of(t@, views(mod_path@)),
            ),
        decreases idents.len() - k,
    {
        assert(views(idents@).len() == idents@.len());
        assert(idents@.len() == 1);
        assert(views(idents@)[k as int] == idents@[k as int]@);
        assert(idents@[k as int]@ == t.ident@);
        let s = Enum {
            ident: idents[k].clone(),
            visibility: t.vis,
            path: child_path(mod_path, &idents[k]),
            mirror,
        };
        let ghost b = out.deep_view();
        out.push(s);
        assert(out.deep_view() =~= b.push(s.deep_view()));
        assert(o + Seq::new((k + 1) as nat, |j: int| decl_of(t@, views(mod_path@))) =~= (o + Seq::new(
            k as nat,
            |j: int| decl_of(t@, views(mod_path@)),
        )).push(decl_of(t@, views(mod_path@))));
        k = k + 1;
    }
    assert(views(idents@).len() == 1);
    assert(o + Seq::new(1nat, |j: int| decl_of(t@, views(mod_path@))) =~= o.push(
        decl_of(t@, views(mod_path@)),
    ));
}

/// Maps out the modules, structs, enums and trait impls of these items.
fn resolve_items(
    tree: &SourceTree,
    items: &Vec<TopItem>,
    mod_path: &Vec<String>,
    file_path: &String,
    open: &Vec<bool>,
) -> (r: Option<ModuleScope>)
    requires
        open@.len() == tree.files@.len(),
    ensures
        match r {
            Some(s) => scope_of(items_view(items@), views(mod_path@), file_path@, *tree, open@)
                == Some(scope_view(s)) && scope_resolved(scope_view(s)),
            None => scope_of(items_view(items@), views(mod_path@), file_path@, *tree, open@) is None,
        },
    decreases count_closed(open@), items, 2nat,
{
    let ghost iv = items_view(items@);
    let ghost mp = views(mod_path@);
    proof {
        lemma_items_view(items@);
    }
    let mut scope_modules_v: Vec<Module> = Vec::new();
    let mut scope_structs_v: Vec<Struct> = Vec::new();
    let mut scope_enums_v: Vec<Enum> = Vec::new();
    let mut scope_impls_v: Vec<Impl> = Vec::new();
    let mut i: usize = 0;
    assert(iv.take(0) =~= Seq::<TopItemV>::empty());
    assert(scope_structs_v.deep_view() =~= Seq::<TypeDeclV>::empty());
    assert(scope_enums_v.deep_view() =~= Seq::<TypeDeclV>::empty());
    assert(impls_view(scope_impls_v@) =~= Seq::<ImplV>::empty());
    assert(modules_view(scope_modules_v@) =~= Seq::<ModuleV>::empty());
    while i < items.len()
        invariant
            i <= items.len(),
            open@.len() == tree.files@.len(),
            iv == items_view(items@),
            iv.len() == items@.len(),
            forall|k: int| 0 <= k < items@.len() ==> #[trigger] iv[k] == item_view(items@[k]),
            mp == views(mod_path@),
            scope_modules(iv.take(i as int), mp, file_path@, *tree, open@) == Some(
                modules_view(scope_modules_v@),
            ),
            scope_impls(iv.take(i as int)) == Some(impls_view(scope_impls_v@)),
            scope_structs_v.deep_view() == scope_structs(iv.take(i as int), mp),
            scope_enums_v.deep_view() == scope_enums(iv.take(i as int), mp),
            forall|k: int|
                0 <= k < scope_modules_v@.len() ==> is_resolved(
                    #[trigger] modules_view(scope_modules_v@)[k],
                ),
        decreases items.len() - i,
    {
        let ghost prev = iv.take(i as int);
        assert(iv.take(i + 1).drop_last() =~= prev);
        assert(iv.take(i + 1).last() == iv[i as int]);
        let ghost it = iv[i as int];
        assert(it == items@[i as int]@);
        match &items[i] {
            TopItem::Struct(t) => {
                let mut found = get_impl_trait_from_attrs(
                    &t.ident,
                    &t.attrs,
                    t.vis == Visibility::Public,
                );
                let ghost a = scope_impls_v@;
                let ghost b = found@;
                scope_impls_v.append(&mut found);
                assert(impls_view(scope_impls_v@) =~= impls_view(a) + impls_view(b));
                push_structs(&mut scope_structs_v, t, mod_path);
            },
            TopItem::Enum(t) => {
                let mut found = get_impl_trait_from_attrs(
                    &t.ident,
                    &t.attrs,
                    t.vis == Visibility::Public,
                );
                let ghost a = scope_impls_v@;
                let ghost b = found@;
                scope_impls_v.append(&mut found);
                assert(impls_view(scope_impls_v@) =~= impls_view(a) + impls_view(b));
                push_enums(&mut scope_enums_v, t, mod_path);
            },
            TopItem::Impl(item_impl) => {
                if let Some(trait_path) = &item_impl.trait_ {
                    if let Some(trait_) = trait_path.get_ident() {
                        if let TypeKind::Path(type_path) = &item_impl.self_ty {
                            match type_path.get_ident() {
                                Some(self_ty) => {
                                    let ghost a = scope_impls_v@;
                                    scope_impls_v.push(Impl { self_ty, trait_ });
                                    assert(impls_view(scope_impls_v@) =~= impls_view(a) + seq![
                                        ImplV { self_ty: self_ty@, trait_: trait_@ },
                                    ]);
                                },
                                None => {
                                    proof {
                                        lemma_scope_impls_stops(iv, i + 1);
                                    }
                                    return None;
                                },
                            }
                        } else {
                            assert(impls_view(scope_impls_v@) =~= impls_view(scope_impls_v@)
                                + Seq::<ImplV>::empty());
                        }
                    } else {
                        assert(impls_view(scope_impls_v@) =~= impls_view(scope_impls_v@)
                            + Seq::<ImplV>::empty());
                    }
                } else {
                    assert(impls_view(scope_impls_v@) =~= impls_view(scope_impls_v@)
                        + Seq::<ImplV>::empty());
                }
            },
            TopItem::Mod(_) => {
                assert(impls_view(scope_impls_v@) =~= impls_view(scope_impls_v@)
                    + Seq::<ImplV>::empty());
                match resolve_child(tree, &items[i], mod_path, file_path, open) {
                    Child::Skip => {},
                    Child::Stop => {
                        proof {
                            lemma_scope_modules_stops(iv, mp, file_path@, *tree, open@, i + 1);
                        }
                        return None;
                    },
                    Child::Module(m) => {
                        let ghost a = scope_modules_v@;
                        scope_modules_v.push(m);
                        assert(scope_modules_v@.drop_last() =~= a);
                        proof {
                            lemma_modules_view(scope_modules_v@);
                            lemma_modules_view(a);
                        }
                    },
                }
            },
            _ => {
                assert(impls_view(scope_impls_v@) =~= impls_view(scope_impls_v@)
                    + Seq::<ImplV>::empty());
            },
        }
        i = i + 1;
    }
    assert(iv.take(i as int) =~= iv);
    let scope = ModuleScope {
        modules: scope_modules_v,
        enums: scope_enums_v,
        impls: scope_impls_v,
        structs: scope_structs_v,
    };
    proof {
        lemma_modules_view(scope_modules_v@);
    }
    assert(scope_view(scope).modules == modules_view(scope_modules_v@));
    assert(scope_view(scope).structs == scope_structs(iv, mp));
    assert(scope_view(scope).enums == scope_enums(iv, mp));
    assert(scope_view(scope).impls == impls_view(scope_impls_v@));
    assert(scope_of(iv, mp, file_path@, *tree, open@) == Some(scope_view(scope)));
    Some(scope)
}

/// The items of a module source.
pub open spec fn source_items(s: ModuleSourceV) -> Seq<TopItemV> {
    match s {
        ModuleSourceV::File(items) => items,
        ModuleSourceV::ModuleInFile(items) => items,
    }
}

/// At the start only the module's own file is open.
pub open spec fn initial_open(tree: SourceTree, p: Seq<char>) -> Seq<bool> {
    Seq::new(tree.files@.len(), |k: int| find_file(tree.files@, p) == Some(k))
}

/// The scope of a module with a source, mapped out from its own file.
pub open spec fn resolved_scope(m: ModuleV, tree: SourceTree) -> Option<ScopeV> {
    scope_of(source_items(m.source.unwrap()), m.path, m.file_path, tree, initial_open(tree, m.file_path))
}

impl Module {
    /// Maps out the modules, structs, enums and trait impls within the scope of this
    /// module and of every module below it, reading module files from `tree`. Returns
    /// `false`, leaving the module as it was, where the translator stops.
    pub fn resolve(&mut self, tree: &SourceTree) -> (r: bool)
        requires
            old(self).source is Some,
        ensures
            r == (resolved_scope(old(self)@, *tree) is Some),
            r ==> final(self)@ == (ModuleV {
                visibility: old(self)@.visibility,
                file_path: old(self)@.file_path,
                path: old(self)@.path,
                source: old(self)@.source,
                scope: resolved_scope(old(self)@, *tree),
            }),
            r ==> is_resolved(final(self)@),
            !r ==> final(self)@ == old(self)@,
    {
        self.resolve_modules(tree)
    }

    /// Maps out modules, structs and enums within the scope of this module
    fn resolve_modules(&mut self, tree: &SourceTree) -> (r: bool)
        requires
            old(self).source is Some,
        ensures
            r == (resolved_scope(old(self)@, *tree) is Some),
            r ==> final(self)@ == (ModuleV {
                visibility: old(self)@.visibility,
                file_path: old(self)@.file_path,
                path: old(self)@.path,
                source: old(self)@.source,
                scope: resolved_scope(old(self)@, *tree),
            }),
            r ==> is_resolved(final(self)@),
            !r ==> final(self)@ == old(self)@,
    {
        let mut open: Vec<bool> = Vec::new();
        let found = tree.find(&self.file_path);
        let mut k: usize = 0;
        while k < tree.files.len()
            invariant
                k <= tree.files.len(),
                open@.len() == k,
                forall|j: int|
                    0 <= j < k ==> open@[j] == (find_file(tree.files@, self.file_path@) == Some(j)),
                match found {
                    Some(i) => find_file(tree.files@, self.file_path@) == Some(i as int),
                    None => find_file(tree.files@, self.file_path@) is None,
                },
            decreases tree.files.len() - k,
        {
            let b = match found {
                Some(i) => i == k,
                None => false,
            };
            open.push(b);
            k = k + 1;
        }
        assert(open@ =~= initial_open(*tree, self.file_path@));
        let items = match &self.source {
            Some(ModuleSource::File(file)) => &file.items,
            Some(ModuleSource::ModuleInFile(items)) => items,
            None => {
                assert(false);
                return false;
            },
        };
        match resolve_items(tree, items, &self.mod_path, &self.file_path, &open) {
            Some(scope) => {
                self.scope = Some(scope);
                true
            },
            None => false,
        }
    }
}

} // verus!

verus! {

// ------------------------------------------------------------------------------------
// the order of impls
// ------------------------------------------------------------------------------------
/// `a` comes strictly before `b` in the order `derive(Ord)` gives `Impl`: by self
/// type, then by trait, each as `Ident`s compare (by their text).
pub open spec fn impl_lt(a: ImplV, b: ImplV) -> bool {
    lex_lt(a.self_ty, b.self_ty) || (a.self_ty == b.self_ty && lex_lt(a.trait_, b.trait_))
}

proof fn lemma_impl_lt_order(a: ImplV, b: ImplV, c: ImplV)
    ensures
        impl_lt(a, b) ==> !impl_lt(b, a),
        impl_lt(a, b) && impl_lt(b, c) ==> impl_lt(a, c),
{
    lemma_lex_asymmetric(a.self_ty, b.self_ty);
    lemma_lex_asymmetric(a.trait_, b.trait_);
    lemma_lex_irreflexive(a.self_ty);
    lemma_lex_transitive(a.self_ty, b.self_ty, c.self_ty);
    lemma_lex_transitive(a.trait_, b.trait_, c.trait_);
}

/// No impl is strictly before one that precedes it.
pub open spec fn impls_sorted(s: Seq<ImplV>) -> bool {
    forall|i: int, j: int| 0 <= i < j < s.len() ==> !impl_lt(#[trigger] s[j], #[trigger] s[i])
}

/// `s` with `x` inserted before the first impl that `x` comes strictly before.
pub open spec fn impl_insert(s: Seq<ImplV>, x: ImplV) -> Seq<ImplV>
    decreases s.len(),
{
    if s.len() == 0 {
        seq![x]
    } else if impl_lt(x, s[0]) {
        seq![x] + s
    } else {
        seq![s[0]] + impl_insert(s.drop_first(), x)
    }
}

/// The impls in ascending order; equal ones keep their order.
pub open spec fn impl_sort(s: Seq<ImplV>) -> Seq<ImplV>
    decreases s.len(),
{
    if s.len() == 0 {
        s
    } else {
        impl_insert(impl_sort(s.drop_last()), s.last())
    }
}

proof fn lemma_impl_insert_at(s: Seq<ImplV>, x: ImplV, p: int)
    requires
        0 <= p <= s.len(),
        forall|k: int| 0 <= k < p ==> !impl_lt(x, #[trigger] s[k]),
        p == s.len() || impl_lt(x, s[p]),
    ensures
        impl_insert(s, x) == s.insert(p, x),
    decreases s.len(),
{
    if s.len() == 0 {
        assert(s.insert(p, x) =~= seq![x]);
    } else if p == 0 {
        assert(s.insert(p, x) =~= seq![x] + s);
    } else {
        assert(!impl_lt(x, s[0]));
        assert forall|k: int| 0 <= k < p - 1 implies !impl_lt(x, #[trigger] s.drop_first()[k]) by {
            assert(s.drop_first()[k] == s[k + 1]);
        }
        lemma_impl_insert_at(s.drop_first(), x, p - 1);
        assert(seq![s[0]] + s.drop_first().insert(p - 1, x) =~= s.insert(p, x));
    }
}

spec fn impl_insert_position(s: Seq<ImplV>, x: ImplV) -> int
    decreases s.len(),
{
    if s.len() == 0 {
        0
    } else if impl_lt(x, s[0]) {
        0
    } else {
        1 + impl_insert_position(s.drop_first(), x)
    }
}

proof fn lemma_impl_insert_position(s: Seq<ImplV>, x: ImplV)
    ensures
        0 <= impl_insert_position(s, x) <= s.len(),
        forall|k: int| 0 <= k < impl_insert_position(s, x) ==> !impl_lt(x, #[trigger] s[k]),
        impl_insert_position(s, x) == s.len() || impl_lt(x, s[impl_insert_position(s, x)]),
    decreases s.len(),
{
    if s.len() > 0 && !impl_lt(x, s[0]) {
        lemma_impl_insert_position(s.drop_first(), x);
        assert forall|k: int| 0 <= k < impl_insert_position(s, x) implies !impl_lt(
            x,
            #[trigger] s[k],
        ) by {
            if k > 0 {
                assert(s[k] == s.drop_first()[k - 1]);
            }
        }
    }
}

/// Inserting into sorted impls keeps them sorted and adds one impl.
proof fn lemma_impl_insert_sorted(s: Seq<ImplV>, x: ImplV)
    requires
        impls_sorted(s),
    ensures
        impls_sorted(impl_insert(s, x)),
        impl_insert(s, x).to_multiset() == s.to_multiset().insert(x),
{
    lemma_impl_insert_position(s, x);
    let p = impl_insert_position(s, x);
    lemma_impl_insert_at(s, x, p);
    let r = s.insert(p, x);
    assert forall|a: int, b: int| 0 <= a < b < r.len() implies !impl_lt(
        #[trigger] r[b],
        #[trigger] r[a],
    ) by {
        if b == p {
            assert(r[a] == s[a]);
        } else if a == p {
            let ob = b - 1;
            assert(r[b] == s[ob]);
            lemma_impl_lt_order(x, s[p], x);
            if ob > p {
                lemma_impl_lt_order(s[ob], x, s[p]);
            }
        } else {
            let oa = if a < p {
                a
            } else {
                a - 1
            };
            let ob = if b < p {
                b
            } else {
                b - 1
            };
            assert(r[a] == s[oa]);
            assert(r[b] == s[ob]);
        }
    }
    vstd::seq_lib::to_multiset_insert(s, p, x);
}

/// `impl_sort` sorts, and keeps every impl as often as it occurs.
pub proof fn lemma_impl_sort(s: Seq<ImplV>)
    ensures
        impls_sorted(impl_sort(s)),
        impl_sort(s).to_multiset() == s.to_multiset(),
    decreases s.len(),
{
    if s.len() > 0 {
        lemma_impl_sort(s.drop_last());
        lemma_impl_insert_sorted(impl_sort(s.drop_last()), s.last());
        assert(s.drop_last().push(s.last()) =~= s);
        vstd::seq_lib::to_multiset_build(s.drop_last(), s.last());
    } else {
        assert(impl_sort(s).to_multiset() =~= s.to_multiset());
    }
}

/// Whether impl `a` comes strictly before impl `b`.
fn impl_less(a: &Impl, b: &Impl) -> (r: bool)
    ensures
        r == impl_lt(a.deep_view(), b.deep_view()),
{
    if str_lt(&a.self_ty, &b.self_ty) {
        true
    } else if a.self_ty == b.self_ty {
        str_lt(&a.trait_, &b.trait_)
    } else {
        false
    }
}

/// Sorts the impls into ascending order, as `slice::sort` does with `derive(Ord)`.
pub fn sort_impls(v: &Vec<Impl>) -> (r: Vec<Impl>)
    ensures
        impls_view(r@) == impl_sort(impls_view(v@)),
        impls_sorted(impls_view(r@)),
        impls_view(r@).to_multiset() == impls_view(v@).to_multiset(),
{
    let mut r: Vec<Impl> = Vec::new();
    let mut i: usize = 0;
    assert(impls_view(v@).take(0) =~= Seq::<ImplV>::empty());
    while i < v.len()
        invariant
            i <= v.len(),
            impls_view(r@) == impl_sort(impls_view(v@).take(i as int)),
        decreases v.len() - i,
    {
        let x = v[i].copy();
        let mut p: usize = 0;
        while p < r.len() && !impl_less(&x, &r[p])
            invariant
                p <= r.len(),
                forall|k: int| 0 <= k < p ==> !impl_lt(x.deep_view(), #[trigger] impls_view(r@)[k]),
            decreases r.len() - p,
        {
            p = p + 1;
        }
        let ghost old_r = impls_view(r@);
        r.insert(p, x);
        proof {
            lemma_impl_insert_at(old_r, x.deep_view(), p as int);
            assert(impls_view(r@) =~= old_r.insert(p as int, x.deep_view()));
            assert(impls_view(v@).take(i + 1).drop_last() =~= impls_view(v@).take(i as int));
            assert(impls_view(v@).take(i + 1).last() == v@[i as int].deep_view());
        }
        i = i + 1;
    }
    assert(impls_view(v@).take(i as int) =~= impls_view(v@));
    proof {
        lemma_impl_sort(impls_view(v@));
    }
    r
}

// ------------------------------------------------------------------------------------
// collecting over the module tree
// ------------------------------------------------------------------------------------
/// The structs of a mapped-out module and of the modules below it: its own first,
/// then each child's, in order.
pub open spec fn module_structs(m: ModuleV) -> Seq<TypeDeclV>
    decreases m, 1nat,
{
    match m.scope {
        Some(s) => s.structs + modules_structs(s.modules),
        None => Seq::empty(),
    }
}

pub open spec fn modules_structs(ms: Seq<ModuleV>) -> Seq<TypeDeclV>
    decreases ms, 0nat,
{
    if ms.len() == 0 {
        Seq::empty()
    } else {
        modules_structs(ms.drop_last()) + module_structs(ms.last())
    }
}

/// The enums of a mapped-out module and of the modules below it.
pub open spec fn module_enums(m: ModuleV) -> Seq<TypeDeclV>
    decreases m, 1nat,
{
    match m.scope {
        Some(s) => s.enums + modules_enums(s.modules),
        None => Seq::empty(),
    }
}

pub open spec fn modules_enums(ms: Seq<ModuleV>) -> Seq<TypeDeclV>
    decreases ms, 0nat,
{
    if ms.len() == 0 {
        Seq::empty()
    } else {
        modules_enums(ms.drop_last()) + module_enums(ms.last())
    }
}

/// The trait impls of a mapped-out module and of the modules below it.
pub open spec fn module_impls(m: ModuleV) -> Seq<ImplV>
    decreases m, 1nat,
{
    match m.scope {
        Some(s) => s.impls + modules_impls(s.modules),
        None => Seq::empty(),
    }
}

pub open spec fn modules_impls(ms: Seq<ModuleV>) -> Seq<ImplV>
    decreases ms, 0nat,
{
    if ms.len() == 0 {
        Seq::empty()
    } else {
        modules_impls(ms.drop_last()) + module_impls(ms.last())
    }
}

/// `map` with each declaration inserted under its name, in order (a later one
/// replaces an earlier one of the same name).
pub open spec fn insert_decls(map: Map<Seq<char>, TypeDeclV>, ds: Seq<TypeDeclV>) -> Map<
    Seq<char>,
    TypeDeclV,
>
    decreases ds.len(),
{
    if ds.len() == 0 {
        map
    } else {
        insert_decls(map, ds.drop_last()).insert(ds.last().ident, ds.last())
    }
}

pub proof fn lemma_insert_decls_concat(
    map: Map<Seq<char>, TypeDeclV>,
    a: Seq<TypeDeclV>,
    b: Seq<TypeDeclV>,
)
    ensures
        insert_decls(map, a + b) == insert_decls(insert_decls(map, a), b),
    decreases b.len(),
{
    if b.len() == 0 {
        assert(a + b =~= a);
    } else {
        lemma_insert_decls_concat(map, a, b.drop_last());
        assert((a + b).drop_last() =~= a + b.drop_last());
    }
}

/// `map` with each impl added to the list of its trait, in order.
pub open spec fn group_impls(map: Map<Seq<char>, Seq<ImplV>>, impls: Seq<ImplV>) -> Map<
    Seq<char>,
    Seq<ImplV>,
>
    decreases impls.len(),
{
    if impls.len() == 0 {
        map
    } else {
        let m = group_impls(map, impls.drop_last());
        let i = impls.last();
        if m.contains_key(i.trait_) {
            m.insert(i.trait_, m[i.trait_].push(i))
        } else {
            m.insert(i.trait_, seq![i])
        }
    }
}

pub proof fn lemma_group_impls_concat(
    map: Map<Seq<char>, Seq<ImplV>>,
    a: Seq<ImplV>,
    b: Seq<ImplV>,
)
    ensures
        group_impls(map, a + b) == group_impls(group_impls(map, a), b),
    decreases b.len(),
{
    if b.len() == 0 {
        assert(a + b =~= a);
    } else {
        lemma_group_impls_concat(map, a, b.drop_last());
        assert((a + b).drop_last() =~= a + b.drop_last());
    }
}

/// The pool of impls of each trait.
pub type TraitToImplPool = NamePool<Vec<Impl>>;

/// Copies of the impls, with the same views.
fn copy_impls(v: &Vec<Impl>) -> (r: Vec<Impl>)
    ensures
        r.deep_view() == v.deep_view(),
{
    let mut r: Vec<Impl> = Vec::new();
    let mut i: usize = 0;
    while i < v.len()
        invariant
            i <= v.len(),
            r@.len() == i,
            forall|k: int| 0 <= k < i ==> (#[trigger] r@[k]).deep_view() == v@[k].deep_view(),
        decreases v.len() - i,
    {
        r.push(v[i].copy());
        i = i + 1;
    }
    assert(r.deep_view() =~= v.deep_view());
    r
}

/// Adds `scope_impl` to the list of its trait.
fn add_impl(container: &mut TraitToImplPool, scope_impl: &Impl)
    requires
        old(container).wf(),
    ensures
        final(container).wf(),
        final(container).map() == group_impls(old(container).map(), seq![scope_impl.deep_view()]),
{
    let k = scope_impl.trait_.clone();
    let ghost x = scope_impl.deep_view();
    let ghost m0 = container.map();
    assert(seq![x].drop_last() =~= Seq::<ImplV>::empty());
    assert(seq![x].drop_last().len() == 0);
    assert(group_impls(m0, seq![x].drop_last()) == m0);
    assert(seq![x].last() == x);
    assert(group_impls(m0, seq![x]) == (if m0.contains_key(x.trait_) {
        m0.insert(x.trait_, m0[x.trait_].push(x))
    } else {
        m0.insert(x.trait_, seq![x])
    }));
    let v = match container.get(&k) {
        Some(l) => {
            let mut c = copy_impls(l);
            let ghost o = c.deep_view();
            c.push(scope_impl.copy());
            assert(c.deep_view() =~= o.push(x));
            c
        },
        None => {
            let mut c: Vec<Impl> = Vec::new();
            c.push(scope_impl.copy());
            assert(c.deep_view() =~= seq![x]);
            c
        },
    };
    container.insert(k, v);
}

impl Module {
    /// Adds each struct of this module and of the modules below it to `container`,
    /// under its name.
    pub fn collect_structs(&self, container: &mut NamePool<Struct>)
        requires
            is_resolved(self@),
            old(container).wf(),
        ensures
            final(container).wf(),
            final(container).map() == insert_decls(old(container).map(), module_structs(self@)),
        decreases self,
    {
        let scope = self.scope.as_ref().unwrap();
        let ghost sv = self@.scope->Some_0;
        let ghost m0 = container.map();
        let mut i: usize = 0;
        assert(sv.structs.take(0) =~= Seq::<TypeDeclV>::empty());
        while i < scope.structs.len()
            invariant
                i <= scope.structs.len(),
                container.wf(),
                self.scope == Some(*scope),
                sv == self@.scope->Some_0,
                sv.structs == scope.structs.deep_view(),
                container.map() == insert_decls(m0, sv.structs.take(i as int)),
            decreases scope.structs.len() - i,
        {
            let s = &scope.structs[i];
            assert(sv.structs.take(i + 1).drop_last() =~= sv.structs.take(i as int));
            assert(sv.structs.take(i + 1).last() == s.deep_view());
            container.insert(s.ident.clone(), s.copy());
            i = i + 1;
        }
        assert(sv.structs.take(i as int) =~= sv.structs);
        proof {
            lemma_modules_view(scope.modules@);
        }
        let mut j: usize = 0;
        assert(sv.modules.take(0) =~= Seq::<ModuleV>::empty());
        assert(sv.structs + modules_structs(sv.modules.take(0)) =~= sv.structs);
        while j < scope.modules.len()
            invariant
                j <= scope.modules.len(),
                container.wf(),
                self.scope == Some(*scope),
                sv == self@.scope->Some_0,
                sv.modules == modules_view(scope.modules@),
                sv.modules.len() == scope.modules@.len(),
                forall|k: int|
                    0 <= k < scope.modules@.len() ==> #[trigger] sv.modules[k] == module_view(
                        scope.modules@[k],
                    ),
                is_resolved(self@),
                container.map() == insert_decls(
                    m0,
                    sv.structs + modules_structs(sv.modules.take(j as int)),
                ),
            decreases scope.modules.len() - j,
        {
            assert(decreases_to!(*self => self.scope->Some_0));
            assert(is_resolved(sv.modules[j as int]));
            assert(sv.modules.take(j + 1).drop_last() =~= sv.modules.take(j as int));
            assert(sv.modules.take(j + 1).last() == sv.modules[j as int]);
            scope.modules[j].collect_structs(container);
            proof {
                lemma_insert_decls_concat(
                    m0,
                    sv.structs + modules_structs(sv.modules.take(j as int)),
                    module_structs(sv.modules[j as int]),
                );
                assert(sv.structs + modules_structs(sv.modules.take(j + 1)) =~= sv.structs
                    + modules_structs(sv.modules.take(j as int)) + module_structs(
                    sv.modules[j as int],
                ));
            }
            j = j + 1;
        }
        assert(sv.modules.take(j as int) =~= sv.modules);
        proof {
            lemma_insert_decls_concat(m0, Seq::empty(), sv.structs);
        }
    }

    /// The structs of this module and of the modules below it, by name.
    pub fn collect_structs_to_pool(&self) -> (r: NamePool<Struct>)
        requires
            is_resolved(self@),
        ensures
            r.wf(),
            r.map() == insert_decls(Map::empty(), module_structs(self@)),
    {
        let mut ans = NamePool::new();
        self.collect_structs(&mut ans);
        ans
    }

    /// Adds each enum of this module and of the modules below it to `container`,
    /// under its name.
    pub fn collect_enums(&self, container: &mut NamePool<Enum>)
        requires
            is_resolved(self@),
            old(container).wf(),
        ensures
            final(container).wf(),
            final(container).map() == insert_decls(old(container).map(), module_enums(self@)),
        decreases self,
    {
        let scope = self.scope.as_ref().unwrap();
        let ghost sv = self@.scope->Some_0;
        let ghost m0 = container.map();
        let mut i: usize = 0;
        assert(sv.enums.take(0) =~= Seq::<TypeDeclV>::empty());
        while i < scope.enums.len()
            invariant
                i <= scope.enums.len(),
                container.wf(),
                self.scope == Some(*scope),
                sv == self@.scope->Some_0,
                sv.enums == scope.enums.deep_view(),
                container.map() == insert_decls(m0, sv.enums.take(i as int)),
            decreases scope.enums.len() - i,
        {
            let s = &scope.enums[i];
            assert(sv.enums.take(i + 1).drop_last() =~= sv.enums.take(i as int));
            assert(sv.enums.take(i + 1).last() == s.deep_view());
            container.insert(s.ident.clone(), s.copy());
            i = i + 1;
        }
        assert(sv.enums.take(i as int) =~= sv.enums);
        proof {
            lemma_modules_view(scope.modules@);
        }
        let mut j: usize = 0;
        assert(sv.modules.take(0) =~= Seq::<ModuleV>::empty());
        assert(sv.enums + modules_enums(sv.modules.take(0)) =~= sv.enums);
        while j < scope.modules.len()
            invariant
                j <= scope.modules.len(),
                container.wf(),
                self.scope == Some(*scope),
                sv == self@.scope->Some_0,
                sv.modules == modules_view(scope.modules@),
                sv.modules.len() == scope.modules@.len(),
                forall|k: int|
                    0 <= k < scope.modules@.len() ==> #[trigger] sv.modules[k] == module_view(
                        scope.modules@[k],
                    ),
                is_resolved(self@),
                container.map() == insert_decls(m0, sv.enums + modules_enums(sv.modules.take(j as int))),
            decreases scope.modules.len() - j,
        {
            assert(decreases_to!(*self => self.scope->Some_0));
            assert(is_resolved(sv.modules[j as int]));
            assert(sv.modules.take(j + 1).drop_last() =~= sv.modules.take(j as int));
            assert(sv.modules.take(j + 1).last() == sv.modules[j as int]);
            scope.modules[j].collect_enums(container);
            proof {
                lemma_insert_decls_concat(
                    m0,
                    sv.enums + modules_enums(sv.modules.take(j as int)),
                    module_enums(sv.modules[j as int]),
                );
                assert(sv.enums + modules_enums(sv.modules.take(j + 1)) =~= sv.enums
                    + modules_enums(sv.modules.take(j as int)) + module_enums(sv.modules[j as int]));
            }
            j = j + 1;
        }
        assert(sv.modules.take(j as int) =~= sv.modules);
        proof {
            lemma_insert_decls_concat(m0, Seq::empty(), sv.enums);
        }
    }

    /// The enums of this module and of the modules below it, by name.
    pub fn collect_enums_to_pool(&self) -> (r: NamePool<Enum>)
        requires
            is_resolved(self@),
        ensures
            r.wf(),
            r.map() == insert_decls(Map::empty(), module_enums(self@)),
    {
        let mut ans = NamePool::new();
        self.collect_enums(&mut ans);
        ans
    }

    /// Adds each trait impl of this module and of the modules below it to the list of
    /// its trait in `container`.
    pub fn collect_impls(&self, container: &mut TraitToImplPool)
        requires
            is_resolved(self@),
            old(container).wf(),
        ensures
            final(container).wf(),
            final(container).map() == group_impls(old(container).map(), module_impls(self@)),
        decreases self,
    {
        let scope = self.scope.as_ref().unwrap();
        let ghost sv = self@.scope->Some_0;
        let ghost m0 = container.map();
        let mut i: usize = 0;
        assert(sv.impls.take(0) =~= Seq::<ImplV>::empty());
        while i < scope.impls.len()
            invariant
                i <= scope.impls.len(),
                container.wf(),
                self.scope == Some(*scope),
                sv == self@.scope->Some_0,
                sv.impls == impls_view(scope.impls@),
                container.map() == group_impls(m0, sv.impls.take(i as int)),
            decreases scope.impls.len() - i,
        {
            let s = &scope.impls[i];
            assert(sv.impls.take(i + 1) =~= sv.impls.take(i as int) + seq![s.deep_view()]);
            add_impl(container, s);
            proof {
                lemma_group_impls_concat(m0, sv.impls.take(i as int), seq![s.deep_view()]);
            }
            i = i + 1;
        }
        assert(sv.impls.take(i as int) =~= sv.impls);
        proof {
            lemma_modules_view(scope.modules@);
        }
        let mut j: usize = 0;
        assert(sv.modules.take(0) =~= Seq::<ModuleV>::empty());
        assert(sv.impls + modules_impls(sv.modules.take(0)) =~= sv.impls);
        while j < scope.modules.len()
            invariant
                j <= scope.modules.len(),
                container.wf(),
                self.scope == Some(*scope),
                sv == self@.scope->Some_0,
                sv.modules == modules_view(scope.modules@),
                sv.modules.len() == scope.modules@.len(),
                forall|k: int|
                    0 <= k < scope.modules@.len() ==> #[trigger] sv.modules[k] == module_view(
                        scope.modules@[k],
                    ),
                is_resolved(self@),
                container.map() == group_impls(m0, sv.impls + modules_impls(sv.modules.take(j as int))),
            decreases scope.modules.len() - j,
        {
            assert(decreases_to!(*self => self.scope->Some_0));
            assert(is_resolved(sv.modules[j as int]));
            assert(sv.modules.take(j + 1).drop_last() =~= sv.modules.take(j as int));
            assert(sv.modules.take(j + 1).last() == sv.modules[j as int]);
            scope.modules[j].collect_impls(container);
            proof {
                lemma_group_impls_concat(
                    m0,
                    sv.impls + modules_impls(sv.modules.take(j as int)),
                    module_impls(sv.modules[j as int]),
                );
                assert(sv.impls + modules_impls(sv.modules.take(j + 1)) =~= sv.impls
                    + modules_impls(sv.modules.take(j as int)) + module_impls(sv.modules[j as int]));
            }
            j = j + 1;
        }
        assert(sv.modules.take(j as int) =~= sv.modules);
    }

    /// impl TA for A => ("TA", [A,..]): the impls of each trait in this module and in
    /// the modules below it, each list sorted.
    pub fn collect_impls_to_pool(&self) -> (r: TraitToImplPool)
        requires
            is_resolved(self@),
        ensures
            r.wf(),
            r.map() == group_impls(Map::empty(), module_impls(self@)).map_values(
                |v: Seq<ImplV>| impl_sort(v),
            ),
    {
        let mut ans: TraitToImplPool = NamePool::new();
        self.collect_impls(&mut ans);
        let mut entries: Vec<(String, Vec<Impl>)> = Vec::new();
        let mut i: usize = 0;
        while i < ans.entries.len()
            invariant
                i <= ans.entries@.len(),
                entries@.len() == i,
                forall|k: int|
                    0 <= k < i ==> (#[trigger] entries@[k]).0@ == ans.entries@[k].0@
                        && entries@[k].1.deep_view() == impl_sort(ans.entries@[k].1.deep_view()),
            decreases ans.entries.len() - i,
        {
            let sorted = sort_impls(&ans.entries[i].1);
            assert(impls_view(sorted@) =~= sorted.deep_view());
            assert(impls_view(ans.entries@[i as int].1@) =~= ans.entries@[i as int].1.deep_view());
            entries.push((ans.entries[i].0.clone(), sorted));
            i = i + 1;
        }
        proof {
            lemma_entries_map_values(
                ans.entries@,
                entries@,
                |v: Seq<ImplV>| impl_sort(v),
            );
        }
        let r = NamePool { entries };
        assert(r.wf()) by {
            assert forall|a: int, b: int| 0 <= a < b < r.entries@.len() implies (
            #[trigger] r.entries@[a]).0@ != (#[trigger] r.entries@[b]).0@ by {
                assert(ans.entries@[a].0@ != ans.entries@[b].0@);
            }
        }
        r
    }
}

} // verus!
