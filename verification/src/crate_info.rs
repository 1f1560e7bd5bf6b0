//! The module tree of a crate, and the structs, enums and trait impls in it.
use vstd::prelude::*;
use crate::paths::{
    join_path, parent_path, path_join, path_parent, strip_extension, strip_extension_path,
    with_rs_extension, with_rs_extension_path,
};
use crate::syntax::{
    Attribute, SourceTree, Token, TokenV, file_exists, lemma_tokens_view, token_view, tokens_view,
};
use crate::text::views;

verus! {

/// Mirrors syn::Visibility, but can be created without a token
#[derive(Debug, Clone, Copy, PartialEq, Eq, Structural)]
pub enum Visibility {
    Public,
    Crate,
    /// Not supported
    Restricted,
    /// Usually means private
    Inherited,
}

// ------------------------------------------------------------------------------------
// structs, enums, impls
// ------------------------------------------------------------------------------------
/// This represents `impl {trait} for {self_ty}`
#[derive(Debug, Clone, Eq, Ord, PartialOrd, PartialEq)]
pub struct Impl {
    pub self_ty: String,
    pub trait_: String,
}

pub struct ImplV {
    pub self_ty: Seq<char>,
    pub trait_: Seq<char>,
}

impl DeepView for Impl {
    type V = ImplV;

    open spec fn deep_view(&self) -> ImplV {
        ImplV { self_ty: self.self_ty@, trait_: self.trait_@ }
    }
}

impl Impl {
    /// A copy with the same view.
    pub fn copy(&self) -> (r: Impl)
        ensures
            r.deep_view() == self.deep_view(),
    {
        Impl { self_ty: self.self_ty.clone(), trait_: self.trait_.clone() }
    }
}

/// A struct declared in a module: its name, visibility and path of module names.
#[derive(Debug, Clone)]
pub struct Struct {
    pub ident: String,
    pub visibility: Visibility,
    pub path: Vec<String>,
    pub mirror: bool,
}

/// An enum declared in a module: its name, visibility and path of module names.
#[derive(Debug, Clone)]
pub struct Enum {
    pub ident: String,
    pub visibility: Visibility,
    pub path: Vec<String>,
    pub mirror: bool,
}

/// What a struct or an enum declaration records.
pub struct TypeDeclV {
    pub ident: Seq<char>,
    pub visibility: Visibility,
    pub path: Seq<Seq<char>>,
    pub mirror: bool,
}

impl DeepView for Struct {
    type V = TypeDeclV;

    open spec fn deep_view(&self) -> TypeDeclV {
        TypeDeclV {
            ident: self.ident@,
            visibility: self.visibility,
            path: views(self.path@),
            mirror: self.mirror,
        }
    }
}

impl DeepView for Enum {
    type V = TypeDeclV;

    open spec fn deep_view(&self) -> TypeDeclV {
        TypeDeclV {
            ident: self.ident@,
            visibility: self.visibility,
            path: views(self.path@),
            mirror: self.mirror,
        }
    }
}

impl Struct {
    /// A copy with the same view.
    pub fn copy(&self) -> (r: Struct)
        ensures
            r.deep_view() == self.deep_view(),
    {
        Struct {
            ident: self.ident.clone(),
            visibility: self.visibility,
            path: crate::text::copy_strings(&self.path),
            mirror: self.mirror,
        }
    }
}

impl Enum {
    /// A copy with the same view.
    pub fn copy(&self) -> (r: Enum)
        ensures
            r.deep_view() == self.deep_view(),
    {
        Enum {
            ident: self.ident.clone(),
            visibility: self.visibility,
            path: crate::text::copy_strings(&self.path),
            mirror: self.mirror,
        }
    }
}

/// Get a struct or enum ident, possibly remapped by a mirror marker: no marker is
/// read, so the ident itself, not mirrored.
pub fn get_ident(ident: &String, _attrs: &Vec<Attribute>) -> (r: (Vec<String>, bool))
    ensures
        views(r.0@) == seq![ident@],
        r.1 == false,
{
    let mut v: Vec<String> = Vec::new();
    v.push(ident.clone());
    assert(views(v@) =~= seq![ident@]);
    (v, false)
}

// ------------------------------------------------------------------------------------
// trait impls named by attributes
// ------------------------------------------------------------------------------------
/// The identifiers among the tokens (not inside groups), in order.
pub open spec fn direct_idents(ts: Seq<TokenV>) -> Seq<Seq<char>>
    decreases ts.len(),
{
    if ts.len() == 0 {
        Seq::empty()
    } else {
        let r = direct_idents(ts.drop_last());
        match ts.last() {
            TokenV::Ident(s) => r.push(s),
            _ => r,
        }
    }
}

/// For each group among the tokens, in order, the identifiers directly inside it.
pub open spec fn group_idents(ts: Seq<TokenV>) -> Seq<Seq<char>>
    decreases ts.len(),
{
    if ts.len() == 0 {
        Seq::empty()
    } else {
        let r = group_idents(ts.drop_last());
        match ts.last() {
            TokenV::Group(inner) => r + direct_idents(inner),
            _ => r,
        }
    }
}

/// The group identifiers of each attribute, in order.
pub open spec fn attrs_idents(attrs: Seq<Seq<TokenV>>) -> Seq<Seq<char>>
    decreases attrs.len(),
{
    if attrs.len() == 0 {
        Seq::empty()
    } else {
        attrs_idents(attrs.drop_last()) + group_idents(attrs.last())
    }
}

/// The trait impls that the attributes of a public type name (as in
/// `#[derive(Debug, Clone)]`): one for each identifier directly inside a group of an
/// attribute's tokens. None for a type that is not public.
pub open spec fn attr_impls(self_ty: Seq<char>, attrs: Seq<Seq<TokenV>>, vis: bool) -> Seq<ImplV> {
    if vis {
        attrs_idents(attrs).map_values(|t: Seq<char>| ImplV { self_ty, trait_: t })
    } else {
        Seq::empty()
    }
}

/// An identifier among the tokens is among their direct identifiers.
proof fn lemma_direct_idents_contains(ts: Seq<TokenV>, h: int)
    requires
        0 <= h < ts.len(),
        ts[h] is Ident,
    ensures
        direct_idents(ts).contains(ts[h]->Ident_0),
    decreases ts.len(),
{
    let d = ts.drop_last();
    if h == ts.len() - 1 {
        let r = direct_idents(d);
        assert(direct_idents(ts) == r.push(ts[h]->Ident_0));
        assert(direct_idents(ts)[r.len() as int] == ts[h]->Ident_0);
    } else {
        assert(d[h] == ts[h]);
        lemma_direct_idents_contains(d, h);
        let r = direct_idents(d);
        let p = choose|p: int| 0 <= p < r.len() && r[p] == ts[h]->Ident_0;
        match ts.last() {
            TokenV::Ident(x) => {
                assert(direct_idents(ts)[p] == r.push(x)[p]);
            },
            _ => {},
        }
    }
}

/// An identifier directly inside a group of the tokens is among their group identifiers.
proof fn lemma_group_idents_contains(ts: Seq<TokenV>, g: int, h: int)
    requires
        0 <= g < ts.len(),
        ts[g] is Group,
        0 <= h < ts[g]->Group_0.len(),
        ts[g]->Group_0[h] is Ident,
    ensures
        group_idents(ts).contains(ts[g]->Group_0[h]->Ident_0),
    decreases ts.len(),
{
    let d = ts.drop_last();
    let x = ts[g]->Group_0[h]->Ident_0;
    let r = group_idents(d);
    if g == ts.len() - 1 {
        let inner = ts[g]->Group_0;
        lemma_direct_idents_contains(inner, h);
        assert(group_idents(ts) == r + direct_idents(inner));
        let p = choose|p: int| 0 <= p < direct_idents(inner).len() && direct_idents(inner)[p] == x;
        assert(group_idents(ts)[r.len() + p] == x);
    } else {
        assert(d[g] == ts[g]);
        lemma_group_idents_contains(d, g, h);
        let p = choose|p: int| 0 <= p < r.len() && r[p] == x;
        match ts.last() {
            TokenV::Group(inner) => {
                assert(group_idents(ts)[p] == (r + direct_idents(inner))[p]);
            },
            _ => {},
        }
    }
}

/// An identifier directly inside a group of an attribute is among the attribute
/// identifiers.
pub proof fn lemma_attrs_idents_contains(attrs: Seq<Seq<TokenV>>, a: int, g: int, h: int)
    requires
        0 <= a < attrs.len(),
        0 <= g < attrs[a].len(),
        attrs[a][g] is Group,
        0 <= h < attrs[a][g]->Group_0.len(),
        attrs[a][g]->Group_0[h] is Ident,
    ensures
        attrs_idents(attrs).contains(attrs[a][g]->Group_0[h]->Ident_0),
    decreases attrs.len(),
{
    let d = attrs.drop_last();
    let x = attrs[a][g]->Group_0[h]->Ident_0;
    let r = attrs_idents(d);
    if a == attrs.len() - 1 {
        lemma_group_idents_contains(attrs[a], g, h);
        let q = group_idents(attrs[a]);
        let p = choose|p: int| 0 <= p < q.len() && q[p] == x;
        assert(attrs_idents(attrs)[r.len() + p] == x);
    } else {
        assert(d[a] == attrs[a]);
        lemma_attrs_idents_contains(d, a, g, h);
        let p = choose|p: int| 0 <= p < r.len() && r[p] == x;
        assert(attrs_idents(attrs)[p] == x);
    }
}

/// The views of a sequence of impls.
pub open spec fn impls_view(v: Seq<Impl>) -> Seq<ImplV> {
    v.map_values(|i: Impl| i.deep_view())
}

/// Appends an impl of `trait_` for `self_ty`.
fn push_impl(out: &mut Vec<Impl>, self_ty: &String, trait_: &String)
    ensures
        impls_view(final(out)@) == impls_view(old(out)@).push(
            ImplV { self_ty: self_ty@, trait_: trait_@ },
        ),
{
    let ghost o = out@;
    out.push(Impl { self_ty: self_ty.clone(), trait_: trait_.clone() });
    assert(impls_view(out@) =~= impls_view(o).push(ImplV { self_ty: self_ty@, trait_: trait_@ }));
}

/// The trait impls that the attributes of a public type name: for each attribute,
/// each group among its tokens, each identifier directly inside the group.
pub fn get_impl_trait_from_attrs(self_ty: &String, attrs: &Vec<Attribute>, vis: bool) -> (r: Vec<
    Impl,
>)
    ensures
        impls_view(r@) == attr_impls(self_ty@, attrs@.map_values(|a: Attribute| a@), vis),
{
    let ghost av = attrs@.map_values(|a: Attribute| a@);
    let ghost mk = |t: Seq<char>| ImplV { self_ty: self_ty@, trait_: t };
    let mut out: Vec<Impl> = Vec::new();
    if !vis {
        assert(impls_view(out@) =~= Seq::<ImplV>::empty());
        return out;
    }
    let mut i: usize = 0;
    assert(av.take(0) =~= Seq::<Seq<TokenV>>::empty());
    assert(impls_view(out@) =~= attrs_idents(av.take(0)).map_values(mk));
    while i < attrs.len()
        invariant
            i <= attrs.len(),
            av == attrs@.map_values(|a: Attribute| a@),
            mk == (|t: Seq<char>| ImplV { self_ty: self_ty@, trait_: t }),
            impls_view(out@) == attrs_idents(av.take(i as int)).map_values(mk),
        decreases attrs.len() - i,
    {
        assert(av.take(i + 1).drop_last() =~= av.take(i as int));
        assert(av.take(i + 1).last() == attrs@[i as int]@);
        let ts = &attrs[i].tokens;
        let ghost tv = tokens_view(ts@);
        proof {
            lemma_tokens_view(ts@);
        }
        let ghost base = impls_view(out@);
        let mut j: usize = 0;
        assert(tv.take(0) =~= Seq::<TokenV>::empty());
        assert(base + group_idents(tv.take(0)).map_values(mk) =~= base);
        while j < ts.len()
            invariant
                j <= ts.len(),
                i < attrs.len(),
                ts == attrs@[i as int].tokens,
                tv == tokens_view(ts@),
                tv.len() == ts@.len(),
                forall|k: int| 0 <= k < ts@.len() ==> #[trigger] tv[k] == token_view(ts@[k]),
                mk == (|t: Seq<char>| ImplV { self_ty: self_ty@, trait_: t }),
                impls_view(out@) == base + group_idents(tv.take(j as int)).map_values(mk),
            decreases ts.len() - j,
        {
            assert(tv.take(j + 1).drop_last() =~= tv.take(j as int));
            assert(tv.take(j + 1).last() == tv[j as int]);
            match &ts[j] {
                Token::Group(inner) => {
                    let ghost iv = tokens_view(inner@);
                    proof {
                        lemma_tokens_view(inner@);
                    }
                    assert(tv[j as int] == TokenV::Group(iv));
                    let ghost mid = impls_view(out@);
                    let mut k: usize = 0;
                    assert(iv.take(0) =~= Seq::<TokenV>::empty());
                    assert(mid + direct_idents(iv.take(0)).map_values(mk) =~= mid);
                    while k < inner.len()
                        invariant
                            k <= inner.len(),
                            iv == tokens_view(inner@),
                            iv.len() == inner@.len(),
                            forall|t: int| 0 <= t < inner@.len() ==> #[trigger] iv[t] == token_view(
                                inner@[t],
                            ),
                            mk == (|t: Seq<char>| ImplV { self_ty: self_ty@, trait_: t }),
                            impls_view(out@) == mid + direct_idents(iv.take(k as int)).map_values(
                                mk,
                            ),
                        decreases inner.len() - k,
                    {
                        assert(iv.take(k + 1).drop_last() =~= iv.take(k as int));
                        assert(iv.take(k + 1).last() == iv[k as int]);
                        match &inner[k] {
                            Token::Ident(trait_) => {
                                assert(iv[k as int] == TokenV::Ident(trait_@));
                                push_impl(&mut out, self_ty, trait_);
                                assert(direct_idents(iv.take(k + 1)).map_values(mk) =~= direct_idents(
                                    iv.take(k as int),
                                ).map_values(mk).push(mk(trait_@)));
                            },
                            _ => {},
                        }
                        k = k + 1;
                    }
                    assert(iv.take(k as int) =~= iv);
                    assert(group_idents(tv.take(j + 1)).map_values(mk) =~= group_idents(
                        tv.take(j as int),
                    ).map_values(mk) + direct_idents(iv).map_values(mk));
                },
                _ => {},
            }
            j = j + 1;
        }
        assert(tv.take(j as int) =~= tv);
        assert(attrs_idents(av.take(i + 1)).map_values(mk) =~= attrs_idents(
            av.take(i as int),
        ).map_values(mk) + group_idents(tv).map_values(mk));
        i = i + 1;
    }
    assert(av.take(i as int) =~= av);
    out
}

// ------------------------------------------------------------------------------------
// module files
// ------------------------------------------------------------------------------------
/// The two files that may hold module `name` within `folder`: `{folder}/{name}.rs`,
/// then `{folder}/{name}/mod.rs`.
pub open spec fn folder_candidates(folder: Seq<char>, name: Seq<char>) -> Seq<Seq<char>> {
    seq![
        with_rs_extension(path_join(folder, name)),
        path_join(path_join(folder, name), "mod.rs"@),
    ]
}

/// The files that may hold module `name` declared in the file `parent`: first in
/// the parent's folder, then in the folder named after the parent file.
pub open spec fn module_candidates(name: Seq<char>, parent: Seq<char>) -> Seq<Seq<char>> {
    folder_candidates(path_parent(parent), name) + folder_candidates(strip_extension(parent), name)
}

/// The first of the paths that exists, or all of them where none does.
pub open spec fn first_existing(tree: SourceTree, ps: Seq<Seq<char>>) -> Result<
    Seq<char>,
    Seq<Seq<char>>,
>
    decreases ps.len(),
{
    if ps.len() == 0 {
        Err(Seq::empty())
    } else if file_exists(tree, ps[0]) {
        Ok(ps[0])
    } else {
        match first_existing(tree, ps.drop_first()) {
            Ok(p) => Ok(p),
            Err(tried) => Err(seq![ps[0]] + tried),
        }
    }
}

/// The file of module `name` declared in file `parent`, or every path tried.
pub open spec fn module_file(tree: SourceTree, name: Seq<char>, parent: Seq<char>) -> Result<
    Seq<char>,
    Seq<Seq<char>>,
> {
    first_existing(tree, module_candidates(name, parent))
}

/// Whether a file exists at `path`.
fn path_exists(tree: &SourceTree, path: &String) -> (r: bool)
    ensures
        r == file_exists(*tree, path@),
{
    tree.find(path).is_some()
}

/// The file of module `module_name` within `folder_path`: `{folder}/{name}.rs` or
/// `{folder}/{name}/mod.rs`, whichever exists first; the paths that do not exist
/// are added to `tried`.
pub fn try_get_module_file_path(
    tree: &SourceTree,
    folder_path: &String,
    module_name: &String,
    tried: &mut Vec<String>,
) -> (r: Option<String>)
    ensures
        ({
            let cs = folder_candidates(folder_path@, module_name@);
            match first_existing(*tree, cs) {
                Ok(p) => r matches Some(s) && s@ == p && views(final(tried)@) == views(old(tried)@)
                    + (if file_exists(*tree, cs[0]) {
                    Seq::<Seq<char>>::empty()
                } else {
                    seq![cs[0]]
                }),
                Err(all) => r is None && views(final(tried)@) == views(old(tried)@) + all,
            }
        }),
{
    let ghost cs = folder_candidates(folder_path@, module_name@);
    let joined = join_path(folder_path.as_str(), module_name.as_str());
    let file_path = with_rs_extension_path(joined.as_str());
    if path_exists(tree, &file_path) {
        return Some(file_path);
    }
    let ghost t0 = tried@;
    tried.push(file_path);
    let file_path = join_path(joined.as_str(), "mod.rs");
    assert(cs.drop_first()[0] == file_path@);
    assert(cs.drop_first().drop_first().len() == 0);
    if path_exists(tree, &file_path) {
        assert(views(tried@) =~= views(t0) + seq![cs[0]]);
        assert(first_existing(*tree, cs.drop_first()) == Ok::<Seq<char>, Seq<Seq<char>>>(
            file_path@,
        ));
        return Some(file_path);
    }
    let ghost t1 = tried@;
    tried.push(file_path);
    assert(views(tried@) =~= views(t0) + seq![cs[0]] + seq![cs[1]]);
    assert(first_existing(*tree, cs.drop_first().drop_first()) == Err::<Seq<char>, Seq<Seq<char>>>(
        Seq::empty(),
    ));
    assert(first_existing(*tree, cs.drop_first()) == Err::<Seq<char>, Seq<Seq<char>>>(
        seq![cs[1]] + Seq::<Seq<char>>::empty(),
    ));
    assert(seq![cs[0]] + (seq![cs[1]] + Seq::<Seq<char>>::empty()) =~= seq![cs[0]] + seq![cs[1]]);
    None
}

/// The file of module `module_name` declared in the file `parent_module_file_path`:
/// looked for in the parent's folder, then in the folder named after the parent file;
/// `Err` with every path tried where none exists.
pub fn get_module_file_path(
    tree: &SourceTree,
    module_name: &String,
    parent_module_file_path: &String,
) -> (r: Result<String, Vec<String>>)
    ensures
        match module_file(*tree, module_name@, parent_module_file_path@) {
            Ok(p) => r matches Ok(s) && s@ == p,
            Err(all) => r matches Err(tried) && views(tried@) == all,
        },
{
    let ghost name = module_name@;
    let ghost parent = parent_module_file_path@;
    let ghost a = folder_candidates(path_parent(parent), name);
    let ghost b = folder_candidates(strip_extension(parent), name);
    proof {
        lemma_first_existing_concat(*tree, a, b);
    }
    let mut tried: Vec<String> = Vec::new();
    let folder = parent_path(parent_module_file_path.as_str());
    if let Some(file_path) = try_get_module_file_path(tree, &folder, module_name, &mut tried) {
        return Ok(file_path);
    }
    let folder = strip_extension_path(parent_module_file_path.as_str());
    if let Some(file_path) = try_get_module_file_path(tree, &folder, module_name, &mut tried) {
        return Ok(file_path);
    }
    assert(views(tried@) =~= first_existing(*tree, a)->Err_0 + first_existing(*tree, b)->Err_0);
    Err(tried)
}

/// Looking through `a + b` looks through `a`, then through `b`.
proof fn lemma_first_existing_concat(tree: SourceTree, a: Seq<Seq<char>>, b: Seq<Seq<char>>)
    ensures
        first_existing(tree, a + b) == match first_existing(tree, a) {
            Ok(p) => Ok(p),
            Err(ta) => match first_existing(tree, b) {
                Ok(p) => Ok(p),
                Err(tb) => Err(ta + tb),
            },
        },
    decreases a.len(),
{
    if a.len() == 0 {
        assert(a + b =~= b);
        if let Err(tb) = first_existing(tree, b) {
            assert(Seq::<Seq<char>>::empty() + tb =~= tb);
        }
    } else {
        lemma_first_existing_concat(tree, a.drop_first(), b);
        assert((a + b)[0] == a[0]);
        assert((a + b).drop_first() =~= a.drop_first() + b);
        if let Err(ta) = first_existing(tree, a.drop_first()) {
            if let Err(tb) = first_existing(tree, b) {
                assert(seq![a[0]] + (ta + tb) =~= (seq![a[0]] + ta) + tb);
            }
        }
    }
}

} // verus!
