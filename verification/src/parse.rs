//! Parsing Rust source text, done by `syn`, read into the library's model of items.
use vstd::prelude::*;
use crate::crate_info::Visibility;
use crate::syntax::{
    Attribute, ParsedFile, Param, ImplMember, TopItem, FnItem, ImplBlock, ModItem, ItemType,
    TopItemV, PathName, PathSegment, ReturnType, FnSig, SourceFile, SourceTree, Token, TypeKind,
    TypeImplTrait, Bound, items_view,
};

verus! {

broadcast use vstd::std_specs::vec::group_vec_axioms;

/// A token tree of a token stream.
type TokenTree = <syn::__private::TokenStream2 as IntoIterator>::Item;

/// The items `syn::parse_file` finds in `text`, as this library reads them; `None`
/// where the text is not a valid Rust file.
pub uninterp spec fn parsed_items(text: Seq<char>) -> Option<Seq<TopItemV>>;

/// `syn::parse_file`: parses `text` as a Rust file, then reads each item into the
/// library's model (functions, structs, enums, impls and modules; any other item as
/// `TopItem::Other`). Trusted: the result is `parsed_items(text)`, a function of the
/// text alone, and `None` exactly where `syn` refuses the text.
#[verifier::external_body]
pub fn parse_source(text: &str) -> (r: Option<ParsedFile>)
    ensures
        match r {
            Some(f) => parsed_items(text@) == Some(items_view(f.items@)),
            None => parsed_items(text@) is None,
        },
{
    match syn::parse_file(text) {
        Ok(f) => Some(ParsedFile { items: f.items.iter().map(convert_item).collect() }),
        Err(_) => None,
    }
}

/// Reads one item into the library's model.
#[verifier::external_body]
fn convert_item(item: &syn::Item) -> TopItem {
    match item {
        syn::Item::Fn(f) => TopItem::Fn(convert_fn(f)),
        syn::Item::Struct(s) => TopItem::Struct(convert_struct(s)),
        syn::Item::Enum(e) => TopItem::Enum(convert_enum(e)),
        syn::Item::Impl(i) => TopItem::Impl(convert_impl(i)),
        syn::Item::Mod(m) => TopItem::Mod(convert_mod(m)),
        _ => TopItem::Other,
    }
}

/// Reads a function: its visibility and signature.
#[verifier::external_body]
fn convert_fn(f: &syn::ItemFn) -> FnItem {
    FnItem { vis: match &f.vis {
            syn::Visibility::Public(_) => Visibility::Public,
            syn::Visibility::Crate(_) => Visibility::Crate,
            syn::Visibility::Restricted(_) => Visibility::Restricted,
            syn::Visibility::Inherited => Visibility::Inherited,
        }, sig: convert_signature(&f.sig) }
}

/// Reads a struct: its name, visibility and the token stream of each attribute.
#[verifier::external_body]
fn convert_struct(s: &syn::ItemStruct) -> ItemType {
    let attrs = s.attrs.iter().map(|a| Attribute { tokens: convert_tokens(a.tokens.clone()) });
    ItemType { ident: s.ident.to_string(), vis: match &s.vis {
            syn::Visibility::Public(_) => Visibility::Public,
            syn::Visibility::Crate(_) => Visibility::Crate,
            syn::Visibility::Restricted(_) => Visibility::Restricted,
            syn::Visibility::Inherited => Visibility::Inherited,
        }, attrs: attrs.collect() }
}

/// Reads an enum: its name, visibility and the token stream of each attribute.
#[verifier::external_body]
fn convert_enum(e: &syn::ItemEnum) -> ItemType {
    let attrs = e.attrs.iter().map(|a| Attribute { tokens: convert_tokens(a.tokens.clone()) });
    ItemType { ident: e.ident.to_string(), vis: match &e.vis {
            syn::Visibility::Public(_) => Visibility::Public,
            syn::Visibility::Crate(_) => Visibility::Crate,
            syn::Visibility::Restricted(_) => Visibility::Restricted,
            syn::Visibility::Inherited => Visibility::Inherited,
        }, attrs: attrs.collect() }
}

/// Reads an `impl` block: its trait's path, its self type and its items.
#[verifier::external_body]
fn convert_impl(i: &syn::ItemImpl) -> ImplBlock {
    ImplBlock {
        trait_: i.trait_.as_ref().map(|t| convert_path(&t.1)),
        self_ty: convert_type(&i.self_ty),
        items: i.items.iter().map(convert_impl_item).collect(),
    }
}

/// Reads an item of an `impl` block: a method, or anything else.
#[verifier::external_body]
fn convert_impl_item(item: &syn::ImplItem) -> ImplMember {
    match item {
        syn::ImplItem::Method(m) => ImplMember::Method(convert_method(m)),
        _ => ImplMember::Other,
    }
}

/// Reads a method: its visibility and signature.
#[verifier::external_body]
fn convert_method(m: &syn::ImplItemMethod) -> FnItem {
    FnItem { vis: match &m.vis {
            syn::Visibility::Public(_) => Visibility::Public,
            syn::Visibility::Crate(_) => Visibility::Crate,
            syn::Visibility::Restricted(_) => Visibility::Restricted,
            syn::Visibility::Inherited => Visibility::Inherited,
        }, sig: convert_signature(&m.sig) }
}

/// Reads a module declaration: its name, visibility and inline items.
#[verifier::external_body]
fn convert_mod(m: &syn::ItemMod) -> ModItem {
    ModItem {
        ident: m.ident.to_string(),
        vis: match &m.vis {
            syn::Visibility::Public(_) => Visibility::Public,
            syn::Visibility::Crate(_) => Visibility::Crate,
            syn::Visibility::Restricted(_) => Visibility::Restricted,
            syn::Visibility::Inherited => Visibility::Inherited,
        },
        content: m.content.as_ref().map(|c| c.1.iter().map(convert_item).collect()),
    }
}

/// Reads a signature: its name, parameters and return type.
#[verifier::external_body]
fn convert_signature(sig: &syn::Signature) -> FnSig {
    FnSig {
        ident: sig.ident.to_string(),
        inputs: sig.inputs.iter().map(convert_arg).collect(),
        output: match &sig.output {
            syn::ReturnType::Default => ReturnType::Default,
            syn::ReturnType::Type(_, ty) => ReturnType::Type(convert_type(ty)),
        },
    }
}

/// Reads a parameter: a receiver, and whether it is `mut`, or a parameter's type.
#[verifier::external_body]
fn convert_arg(arg: &syn::FnArg) -> Param {
    match arg {
        syn::FnArg::Receiver(r) => Param::Receiver { mutable: r.mutability.is_some() },
        syn::FnArg::Typed(pt) => Param::Typed(convert_type(&pt.ty)),
    }
}

/// Reads a type: an `impl Trait` type with its bounds, a path, or anything else.
#[verifier::external_body]
fn convert_type(ty: &syn::Type) -> TypeKind {
    match ty {
        syn::Type::ImplTrait(it) => TypeKind::ImplTrait(
            TypeImplTrait { bounds: it.bounds.iter().map(convert_bound).collect() },
        ),
        syn::Type::Path(tp) => TypeKind::Path(convert_path(&tp.path)),
        _ => TypeKind::Other,
    }
}

/// Reads a bound of an `impl Trait` type: a trait's path, or a lifetime.
#[verifier::external_body]
fn convert_bound(b: &syn::TypeParamBound) -> Bound {
    match b {
        syn::TypeParamBound::Trait(t) => Bound::Trait(convert_path(&t.path)),
        syn::TypeParamBound::Lifetime(_) => Bound::Lifetime,
    }
}

/// Reads a path: its leading `::`, and each segment's name and whether arguments
/// follow it.
#[verifier::external_body]
fn convert_path(p: &syn::Path) -> PathName {
    PathName {
        leading_colon: p.leading_colon.is_some(),
        segments: p.segments.iter().map(|s| PathSegment {
            ident: s.ident.to_string(),
            has_arguments: !s.arguments.is_empty(),
        }).collect(),
    }
}

/// Reads a token stream: groups with their tokens, identifiers, and anything else.
#[verifier::external_body]
fn convert_tokens(stream: syn::__private::TokenStream2) -> Vec<Token> {
    stream.into_iter().map(|tt| match tt {
        TokenTree::Group(g) => Token::Group(convert_tokens(g.stream())),
        TokenTree::Ident(i) => Token::Ident(i.to_string()),
        _ => Token::Other,
    }).collect()
}

// ------------------------------------------------------------------------------------
// the readable files, from their texts
// ------------------------------------------------------------------------------------
/// The items of a parsed file, or `None`.
pub open spec fn parsed_file_view(f: Option<ParsedFile>) -> Option<Seq<TopItemV>> {
    match f {
        Some(f) => Some(items_view(f.items@)),
        None => None,
    }
}

/// The items of a file's text, where it could be read; `None` where it could not be
/// read or does not parse.
pub open spec fn text_items(text: Option<String>) -> Option<Seq<TopItemV>> {
    match text {
        Some(t) => parsed_items(t@),
        None => None,
    }
}

impl SourceTree {
    /// The files the translator may read, from each path and its text (`None` where
    /// the file exists but cannot be read), each text parsed.
    pub fn from_texts(files: Vec<(String, Option<String>)>) -> (r: SourceTree)
        ensures
            r.files@.len() == files@.len(),
            forall|i: int|
                0 <= i < files@.len() ==> {
                    &&& (#[trigger] r.files@[i]).path@ == files@[i].0@
                    &&& parsed_file_view(r.files@[i].file) == text_items(files@[i].1)
                },
    {
        let mut out: Vec<SourceFile> = Vec::new();
        let mut i: usize = 0;
        while i < files.len()
            invariant
                i <= files.len(),
                out@.len() == i,
                forall|k: int|
                    0 <= k < i ==> {
                        &&& (#[trigger] out@[k]).path@ == files@[k].0@
                        &&& parsed_file_view(out@[k].file) == text_items(files@[k].1)
                    },
            decreases files.len() - i,
        {
            let file = match &files[i].1 {
                Some(t) => parse_source(t.as_str()),
                None => None,
            };
            out.push(SourceFile { path: files[i].0.clone(), file });
            i = i + 1;
        }
        SourceTree { files: out }
    }
}

} // verus!
