//! The parts of a parsed Rust source file that the translator reads: items,
//! signatures, types, paths and attribute tokens, as plain values.
//!
//! Each type has a view of sequences and characters, and a `copy` that keeps it.
use vstd::prelude::*;
use crate::crate_info::Visibility;

verus! {

broadcast use vstd::std_specs::vec::group_vec_axioms;

// ------------------------------------------------------------------------------------
// attribute tokens
// ------------------------------------------------------------------------------------
/// A token tree of an attribute's token stream.
#[derive(Debug)]
pub enum Token {
    /// A delimited group and the tokens inside it.
    Group(Vec<Token>),
    /// An identifier.
    Ident(String),
    /// A punctuation character or a literal.
    Other,
}

pub enum TokenV {
    Group(Seq<TokenV>),
    Ident(Seq<char>),
    Other,
}

pub open spec fn token_view(t: Token) -> TokenV
    decreases t, 1nat,
{
    match t {
        Token::Group(ts) => TokenV::Group(tokens_view(ts@)),
        Token::Ident(s) => TokenV::Ident(s@),
        Token::Other => TokenV::Other,
    }
}

/// The views of a sequence of tokens.
pub open spec fn tokens_view(ts: Seq<Token>) -> Seq<TokenV>
    decreases ts, 0nat,
{
    if ts.len() == 0 {
        Seq::empty()
    } else {
        tokens_view(ts.drop_last()).push(token_view(ts.last()))
    }
}

pub proof fn lemma_tokens_view(ts: Seq<Token>)
    ensures
        tokens_view(ts).len() == ts.len(),
        forall|k: int| 0 <= k < ts.len() ==> #[trigger] tokens_view(ts)[k] == token_view(ts[k]),
    decreases ts.len(),
{
    if ts.len() > 0 {
        lemma_tokens_view(ts.drop_last());
    }
}

impl View for Token {
    type V = TokenV;

    open spec fn view(&self) -> TokenV {
        token_view(*self)
    }
}

/// Copies of the tokens, with the same views.
pub fn copy_tokens(ts: &Vec<Token>) -> (r: Vec<Token>)
    ensures
        tokens_view(r@) == tokens_view(ts@),
    decreases ts, 0nat,
{
    let mut out: Vec<Token> = Vec::new();
    let mut i: usize = 0;
    assert(ts@.take(0) =~= Seq::<Token>::empty());
    while i < ts.len()
        invariant
            i <= ts.len(),
            tokens_view(out@) == tokens_view(ts@.take(i as int)),
        decreases ts.len() - i,
    {
        let c = ts[i].copy();
        assert(ts@.take(i + 1).drop_last() =~= ts@.take(i as int));
        let ghost o = out@;
        out.push(c);
        assert(out@.drop_last() =~= o);
        i = i + 1;
    }
    assert(ts@.take(i as int) =~= ts@);
    out
}

impl Token {
    /// A copy with the same view.
    pub fn copy(&self) -> (r: Token)
        ensures
            r@ == self@,
        decreases self, 1nat,
    {
        match self {
            Token::Group(ts) => {
                assert(decreases_to!(*self => self->Group_0));
                Token::Group(copy_tokens(ts))
            },
            Token::Ident(s) => Token::Ident(s.clone()),
            Token::Other => Token::Other,
        }
    }
}

/// The token stream of one attribute (what follows its path).
#[derive(Debug)]
pub struct Attribute {
    pub tokens: Vec<Token>,
}

// ------------------------------------------------------------------------------------
// paths and types
// ------------------------------------------------------------------------------------
/// One segment of a path: its identifier, and whether angle-bracketed or
/// parenthesized arguments follow it.
#[derive(Debug, Clone)]
pub struct PathSegment {
    pub ident: String,
    pub has_arguments: bool,
}

pub struct PathSegmentV {
    pub ident: Seq<char>,
    pub has_arguments: bool,
}

impl View for PathSegment {
    type V = PathSegmentV;

    open spec fn view(&self) -> PathSegmentV {
        PathSegmentV { ident: self.ident@, has_arguments: self.has_arguments }
    }
}

/// A path such as `a::b<C>::d`.
#[derive(Debug, Clone)]
pub struct PathName {
    pub leading_colon: bool,
    pub segments: Vec<PathSegment>,
}

pub struct PathNameV {
    pub leading_colon: bool,
    pub segments: Seq<PathSegmentV>,
}

impl View for PathName {
    type V = PathNameV;

    open spec fn view(&self) -> PathNameV {
        PathNameV {
            leading_colon: self.leading_colon,
            segments: self.segments@.map_values(|s: PathSegment| s@),
        }
    }
}

impl PathName {
    /// A path of the single identifier `ident`.
    pub fn from_ident(ident: String) -> (r: PathName)
        ensures
            r@.leading_colon == false,
            r@.segments == seq![PathSegmentV { ident: ident@, has_arguments: false }],
    {
        let mut segments = Vec::new();
        segments.push(PathSegment { ident, has_arguments: false });
        let r = PathName { leading_colon: false, segments };
        assert(r@.segments =~= seq![PathSegmentV { ident: ident@, has_arguments: false }]);
        r
    }

    /// A copy with the same view.
    pub fn copy(&self) -> (r: PathName)
        ensures
            r@ == self@,
    {
        let mut segments: Vec<PathSegment> = Vec::new();
        let mut i: usize = 0;
        while i < self.segments.len()
            invariant
                i <= self.segments.len(),
                segments@.len() == i,
                forall|k: int| 0 <= k < i ==> (#[trigger] segments@[k])@ == self.segments@[k]@,
            decreases self.segments.len() - i,
        {
            let s = &self.segments[i];
            segments.push(PathSegment { ident: s.ident.clone(), has_arguments: s.has_arguments });
            i = i + 1;
        }
        let r = PathName { leading_colon: self.leading_colon, segments };
        assert(r@.segments =~= self@.segments);
        r
    }
}

/// What `syn::Path::get_ident` gives: the identifier of a path of exactly one
/// segment, without a leading `::` and without arguments.
pub open spec fn path_ident(p: PathNameV) -> Option<Seq<char>> {
    if !p.leading_colon && p.segments.len() == 1 && !p.segments[0].has_arguments {
        Some(p.segments[0].ident)
    } else {
        None
    }
}

impl PathName {
    /// The identifier of a path of one plain segment, as `syn::Path::get_ident` gives it.
    pub fn get_ident(&self) -> (r: Option<String>)
        ensures
            match r {
                Some(s) => path_ident(self@) == Some(s@),
                None => path_ident(self@) is None,
            },
    {
        if !self.leading_colon && self.segments.len() == 1 && !self.segments[0].has_arguments {
            Some(self.segments[0].ident.clone())
        } else {
            None
        }
    }
}

/// A bound of an `impl Trait` type.
#[derive(Debug, Clone)]
pub enum Bound {
    Trait(PathName),
    Lifetime,
}

pub enum BoundV {
    Trait(PathNameV),
    Lifetime,
}

impl View for Bound {
    type V = BoundV;

    open spec fn view(&self) -> BoundV {
        match self {
            Bound::Trait(p) => BoundV::Trait(p@),
            Bound::Lifetime => BoundV::Lifetime,
        }
    }
}

/// An `impl A + B + 'a` type: its bounds, in source order.
#[derive(Debug, Clone)]
pub struct TypeImplTrait {
    pub bounds: Vec<Bound>,
}

impl View for TypeImplTrait {
    type V = Seq<BoundV>;

    open spec fn view(&self) -> Seq<BoundV> {
        self.bounds@.map_values(|b: Bound| b@)
    }
}

impl TypeImplTrait {
    /// A copy with the same view.
    pub fn copy(&self) -> (r: TypeImplTrait)
        ensures
            r@ == self@,
    {
        let mut bounds: Vec<Bound> = Vec::new();
        let mut i: usize = 0;
        while i < self.bounds.len()
            invariant
                i <= self.bounds.len(),
                bounds@.len() == i,
                forall|k: int| 0 <= k < i ==> (#[trigger] bounds@[k])@ == self.bounds@[k]@,
            decreases self.bounds.len() - i,
        {
            let b = match &self.bounds[i] {
                Bound::Trait(p) => Bound::Trait(p.copy()),
                Bound::Lifetime => Bound::Lifetime,
            };
            bounds.push(b);
            i = i + 1;
        }
        let r = TypeImplTrait { bounds };
        assert(r@ =~= self@);
        r
    }
}

/// A type, as far as the translator tells types apart.
#[derive(Debug, Clone)]
pub enum TypeKind {
    ImplTrait(TypeImplTrait),
    Path(PathName),
    Other,
}

pub enum TypeKindV {
    ImplTrait(Seq<BoundV>),
    Path(PathNameV),
    Other,
}

impl View for TypeKind {
    type V = TypeKindV;

    open spec fn view(&self) -> TypeKindV {
        match self {
            TypeKind::ImplTrait(t) => TypeKindV::ImplTrait(t@),
            TypeKind::Path(p) => TypeKindV::Path(p@),
            TypeKind::Other => TypeKindV::Other,
        }
    }
}

impl TypeKind {
    /// A copy with the same view.
    pub fn copy(&self) -> (r: TypeKind)
        ensures
            r@ == self@,
    {
        match self {
            TypeKind::ImplTrait(t) => TypeKind::ImplTrait(t.copy()),
            TypeKind::Path(p) => TypeKind::Path(p.copy()),
            TypeKind::Other => TypeKind::Other,
        }
    }
}

// ------------------------------------------------------------------------------------
// functions
// ------------------------------------------------------------------------------------
/// A parameter of a function signature.
#[derive(Debug, Clone)]
pub enum Param {
    /// `self`, `&self` or `&mut self`.
    Receiver { mutable: bool },
    /// A typed parameter `pat: ty`.
    Typed(TypeKind),
}

pub enum ParamV {
    Receiver { mutable: bool },
    Typed(TypeKindV),
}

impl View for Param {
    type V = ParamV;

    open spec fn view(&self) -> ParamV {
        match self {
            Param::Receiver { mutable } => ParamV::Receiver { mutable: *mutable },
            Param::Typed(t) => ParamV::Typed(t@),
        }
    }
}

/// The return type of a signature.
#[derive(Debug, Clone)]
pub enum ReturnType {
    Default,
    Type(TypeKind),
}

impl View for ReturnType {
    type V = Option<TypeKindV>;

    open spec fn view(&self) -> Option<TypeKindV> {
        match self {
            ReturnType::Default => None,
            ReturnType::Type(t) => Some(t@),
        }
    }
}

/// A function signature: name, parameters and return type.
#[derive(Debug, Clone)]
pub struct FnSig {
    pub ident: String,
    pub inputs: Vec<Param>,
    pub output: ReturnType,
}

pub struct FnSigV {
    pub ident: Seq<char>,
    pub inputs: Seq<ParamV>,
    pub output: Option<TypeKindV>,
}

impl View for FnSig {
    type V = FnSigV;

    open spec fn view(&self) -> FnSigV {
        FnSigV {
            ident: self.ident@,
            inputs: self.inputs@.map_values(|a: Param| a@),
            output: self.output@,
        }
    }
}

/// A function (or a method, which has the same parts).
#[derive(Debug, Clone)]
pub struct FnItem {
    pub vis: Visibility,
    pub sig: FnSig,
}

pub struct FnItemV {
    pub vis: Visibility,
    pub sig: FnSigV,
}

impl View for FnItem {
    type V = FnItemV;

    open spec fn view(&self) -> FnItemV {
        FnItemV { vis: self.vis, sig: self.sig@ }
    }
}

impl ReturnType {
    /// A copy with the same view.
    pub fn copy(&self) -> (r: ReturnType)
        ensures
            r@ == self@,
    {
        match self {
            ReturnType::Default => ReturnType::Default,
            ReturnType::Type(t) => ReturnType::Type(t.copy()),
        }
    }
}

impl FnItem {
    /// A copy with the same view.
    pub fn copy(&self) -> (r: FnItem)
        ensures
            r@ == self@,
    {
        let mut inputs: Vec<Param> = Vec::new();
        let mut i: usize = 0;
        while i < self.sig.inputs.len()
            invariant
                i <= self.sig.inputs.len(),
                inputs@.len() == i,
                forall|k: int| 0 <= k < i ==> (#[trigger] inputs@[k])@ == self.sig.inputs@[k]@,
            decreases self.sig.inputs.len() - i,
        {
            let a = match &self.sig.inputs[i] {
                Param::Receiver { mutable } => Param::Receiver { mutable: *mutable },
                Param::Typed(t) => Param::Typed(t.copy()),
            };
            inputs.push(a);
            i = i + 1;
        }
        let r = FnItem {
            vis: self.vis,
            sig: FnSig {
                ident: self.sig.ident.clone(),
                inputs,
                output: self.sig.output.copy(),
            },
        };
        assert(r@.sig.inputs =~= self@.sig.inputs);
        r
    }
}

// ------------------------------------------------------------------------------------
// items
// ------------------------------------------------------------------------------------
impl View for Attribute {
    type V = Seq<TokenV>;

    open spec fn view(&self) -> Seq<TokenV> {
        tokens_view(self.tokens@)
    }
}

impl Attribute {
    /// A copy with the same view.
    pub fn copy(&self) -> (r: Attribute)
        ensures
            r@ == self@,
    {
        Attribute { tokens: copy_tokens(&self.tokens) }
    }
}

/// An item inside an `impl` block.
#[derive(Debug, Clone)]
pub enum ImplMember {
    Method(FnItem),
    Other,
}

pub enum ImplMemberV {
    Method(FnItemV),
    Other,
}

impl View for ImplMember {
    type V = ImplMemberV;

    open spec fn view(&self) -> ImplMemberV {
        match self {
            ImplMember::Method(f) => ImplMemberV::Method(f@),
            ImplMember::Other => ImplMemberV::Other,
        }
    }
}

/// An `impl` block: the implemented trait's path (for `impl Trait for TypeKind`),
/// the self type and the items.
#[derive(Debug, Clone)]
pub struct ImplBlock {
    pub trait_: Option<PathName>,
    pub self_ty: TypeKind,
    pub items: Vec<ImplMember>,
}

pub struct ImplBlockV {
    pub trait_: Option<PathNameV>,
    pub self_ty: TypeKindV,
    pub items: Seq<ImplMemberV>,
}

impl View for ImplBlock {
    type V = ImplBlockV;

    open spec fn view(&self) -> ImplBlockV {
        ImplBlockV {
            trait_: match self.trait_ {
                Some(p) => Some(p@),
                None => None,
            },
            self_ty: self.self_ty@,
            items: self.items@.map_values(|i: ImplMember| i@),
        }
    }
}

impl ImplBlock {
    /// A copy with the same view.
    pub fn copy(&self) -> (r: ImplBlock)
        ensures
            r@ == self@,
    {
        let mut items: Vec<ImplMember> = Vec::new();
        let mut i: usize = 0;
        while i < self.items.len()
            invariant
                i <= self.items.len(),
                items@.len() == i,
                forall|k: int| 0 <= k < i ==> (#[trigger] items@[k])@ == self.items@[k]@,
            decreases self.items.len() - i,
        {
            let it = match &self.items[i] {
                ImplMember::Method(f) => ImplMember::Method(f.copy()),
                ImplMember::Other => ImplMember::Other,
            };
            items.push(it);
            i = i + 1;
        }
        let trait_ = match &self.trait_ {
            Some(p) => Some(p.copy()),
            None => None,
        };
        let r = ImplBlock { trait_, self_ty: self.self_ty.copy(), items };
        assert(r@.items =~= self@.items);
        r
    }
}

/// A struct or enum declaration: its name, visibility and attributes.
#[derive(Debug)]
pub struct ItemType {
    pub ident: String,
    pub vis: Visibility,
    pub attrs: Vec<Attribute>,
}

pub struct ItemTypeV {
    pub ident: Seq<char>,
    pub vis: Visibility,
    pub attrs: Seq<Seq<TokenV>>,
}

impl View for ItemType {
    type V = ItemTypeV;

    open spec fn view(&self) -> ItemTypeV {
        ItemTypeV {
            ident: self.ident@,
            vis: self.vis,
            attrs: self.attrs@.map_values(|a: Attribute| a@),
        }
    }
}

impl ItemType {
    /// A copy with the same view.
    pub fn copy(&self) -> (r: ItemType)
        ensures
            r@ == self@,
    {
        let mut attrs: Vec<Attribute> = Vec::new();
        let mut i: usize = 0;
        while i < self.attrs.len()
            invariant
                i <= self.attrs.len(),
                attrs@.len() == i,
                forall|k: int| 0 <= k < i ==> (#[trigger] attrs@[k])@ == self.attrs@[k]@,
            decreases self.attrs.len() - i,
        {
            attrs.push(self.attrs[i].copy());
            i = i + 1;
        }
        let r = ItemType { ident: self.ident.clone(), vis: self.vis, attrs };
        assert(r@.attrs =~= self@.attrs);
        r
    }
}

/// A module declaration: `mod name;` (no content) or `mod name { .. }`.
#[derive(Debug)]
pub struct ModItem {
    pub ident: String,
    pub vis: Visibility,
    pub content: Option<Vec<TopItem>>,
}

/// A top-level item of a source file or of an inline module.
#[derive(Debug)]
pub enum TopItem {
    Fn(FnItem),
    Struct(ItemType),
    Enum(ItemType),
    Impl(ImplBlock),
    Mod(ModItem),
    Other,
}

pub struct ModItemV {
    pub ident: Seq<char>,
    pub vis: Visibility,
    pub content: Option<Seq<TopItemV>>,
}

pub enum TopItemV {
    Fn(FnItemV),
    Struct(ItemTypeV),
    Enum(ItemTypeV),
    Impl(ImplBlockV),
    Mod(ModItemV),
    Other,
}

pub open spec fn item_view(item: TopItem) -> TopItemV
    decreases item, 1nat,
{
    match item {
        TopItem::Fn(f) => TopItemV::Fn(f@),
        TopItem::Struct(t) => TopItemV::Struct(t@),
        TopItem::Enum(t) => TopItemV::Enum(t@),
        TopItem::Impl(i) => TopItemV::Impl(i@),
        TopItem::Mod(m) => TopItemV::Mod(
            ModItemV {
                ident: m.ident@,
                vis: m.vis,
                content: match m.content {
                    Some(items) => Some(items_view(items@)),
                    None => None,
                },
            },
        ),
        TopItem::Other => TopItemV::Other,
    }
}

/// The views of a sequence of items.
pub open spec fn items_view(items: Seq<TopItem>) -> Seq<TopItemV>
    decreases items, 0nat,
{
    if items.len() == 0 {
        Seq::empty()
    } else {
        items_view(items.drop_last()).push(item_view(items.last()))
    }
}

pub proof fn lemma_items_view(items: Seq<TopItem>)
    ensures
        items_view(items).len() == items.len(),
        forall|k: int| 0 <= k < items.len() ==> #[trigger] items_view(items)[k] == item_view(items[k]),
    decreases items.len(),
{
    if items.len() > 0 {
        lemma_items_view(items.drop_last());
    }
}

impl View for TopItem {
    type V = TopItemV;

    open spec fn view(&self) -> TopItemV {
        item_view(*self)
    }
}

/// Copies of the items, with the same views.
pub fn copy_items(items: &Vec<TopItem>) -> (r: Vec<TopItem>)
    ensures
        items_view(r@) == items_view(items@),
    decreases items, 0nat,
{
    let mut out: Vec<TopItem> = Vec::new();
    let mut i: usize = 0;
    assert(items@.take(0) =~= Seq::<TopItem>::empty());
    while i < items.len()
        invariant
            i <= items.len(),
            items_view(out@) == items_view(items@.take(i as int)),
        decreases items.len() - i,
    {
        let c = items[i].copy();
        assert(items@.take(i + 1).drop_last() =~= items@.take(i as int));
        let ghost o = out@;
        out.push(c);
        assert(out@.drop_last() =~= o);
        i = i + 1;
    }
    assert(items@.take(i as int) =~= items@);
    out
}

impl TopItem {
    /// A copy with the same view.
    pub fn copy(&self) -> (r: TopItem)
        ensures
            r@ == self@,
        decreases self, 1nat,
    {
        match self {
            TopItem::Fn(f) => TopItem::Fn(f.copy()),
            TopItem::Struct(t) => TopItem::Struct(t.copy()),
            TopItem::Enum(t) => TopItem::Enum(t.copy()),
            TopItem::Impl(i) => TopItem::Impl(i.copy()),
            TopItem::Mod(m) => {
                let content = match &m.content {
                    Some(items) => {
                        assert(decreases_to!(*self => self->Mod_0));
                        assert(decreases_to!(self->Mod_0 => self->Mod_0.content));
                        assert(decreases_to!(self->Mod_0.content => self->Mod_0.content->Some_0));
                        Some(copy_items(items))
                    },
                    None => None,
                };
                TopItem::Mod(ModItem { ident: m.ident.clone(), vis: m.vis, content })
            },
            TopItem::Other => TopItem::Other,
        }
    }
}

/// A parsed source file: its items, in order.
#[derive(Debug)]
pub struct ParsedFile {
    pub items: Vec<TopItem>,
}

} // verus!

verus! {

// ------------------------------------------------------------------------------------
// the files that may be read
// ------------------------------------------------------------------------------------
/// A file that may be read: its path, and its parsed items, or `None` where its
/// text is not valid Rust.
#[derive(Debug)]
pub struct SourceFile {
    pub path: String,
    pub file: Option<ParsedFile>,
}

/// The files the translator may read. A path that no entry names does not exist.
#[derive(Debug)]
pub struct SourceTree {
    pub files: Vec<SourceFile>,
}

/// The index of the first file whose path is `p`.
pub open spec fn find_file(files: Seq<SourceFile>, p: Seq<char>) -> Option<int>
    decreases files.len(),
{
    if files.len() == 0 {
        None
    } else {
        match find_file(files.drop_last(), p) {
            Some(i) => Some(i),
            None => if files.last().path@ == p {
                Some(files.len() - 1)
            } else {
                None
            },
        }
    }
}

pub proof fn lemma_find_file(files: Seq<SourceFile>, p: Seq<char>)
    ensures
        match find_file(files, p) {
            Some(i) => 0 <= i < files.len() && files[i].path@ == p && forall|k: int|
                0 <= k < i ==> (#[trigger] files[k]).path@ != p,
            None => forall|k: int| 0 <= k < files.len() ==> (#[trigger] files[k]).path@ != p,
        },
    decreases files.len(),
{
    if files.len() > 0 {
        let d = files.drop_last();
        lemma_find_file(d, p);
        match find_file(d, p) {
            Some(i) => {
                assert forall|k: int| 0 <= k < i implies (#[trigger] files[k]).path@ != p by {
                    assert(files[k] == d[k]);
                }
                assert(files[i] == d[i]);
            },
            None => {
                assert forall|k: int| 0 <= k < d.len() implies (#[trigger] files[k]).path@ != p by {
                    assert(files[k] == d[k]);
                }
                assert(files.last() == files[files.len() - 1]);
            },
        }
    }
}

/// Whether a file with path `p` exists.
pub open spec fn file_exists(tree: SourceTree, p: Seq<char>) -> bool {
    find_file(tree.files@, p) is Some
}

/// The items of the file at `p`: `None` where no file is there, `Some(None)` where
/// it does not parse.
pub open spec fn file_items(tree: SourceTree, p: Seq<char>) -> Option<Option<Seq<TopItemV>>> {
    match find_file(tree.files@, p) {
        Some(i) => Some(
            match tree.files@[i].file {
                Some(f) => Some(items_view(f.items@)),
                None => None,
            },
        ),
        None => None,
    }
}

impl SourceTree {
    /// The index of the first file whose path is `path`.
    pub fn find(&self, path: &String) -> (r: Option<usize>)
        ensures
            match r {
                Some(i) => find_file(self.files@, path@) == Some(i as int),
                None => find_file(self.files@, path@) is None,
            },
    {
        let mut i: usize = 0;
        proof {
            lemma_find_file(self.files@, path@);
        }
        while i < self.files.len()
            invariant
                i <= self.files.len(),
                forall|k: int| 0 <= k < i ==> (#[trigger] self.files@[k]).path@ != path@,
                match find_file(self.files@, path@) {
                    Some(j) => 0 <= j < self.files@.len() && self.files@[j].path@ == path@
                        && forall|k: int| 0 <= k < j ==> (#[trigger] self.files@[k]).path@ != path@,
                    None => forall|k: int|
                        0 <= k < self.files@.len() ==> (#[trigger] self.files@[k]).path@ != path@,
                },
            decreases self.files.len() - i,
        {
            if self.files[i].path == *path {
                return Some(i);
            }
            i = i + 1;
        }
        None
    }
}

} // verus!
