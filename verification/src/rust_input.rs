//! Reads the `impl Trait` types out of the public functions and methods of the API
//! files, reduced to their sorted trait names.
use vstd::prelude::*;
use crate::crate_info::Visibility;
use crate::opts::{Opts, OptsV, opts_view};
use crate::order::{dedup_seq, lex_sort, lemma_lex_sort, same_strings, sort_strings, sorted_lex};
use crate::syntax::{
    ParsedFile, Param, ParamV, ImplMember, ImplMemberV, TopItem, FnItem, FnItemV, ImplBlock,
    ImplBlockV, TopItemV, PathName, PathSegmentV, PathNameV, ReturnType, FnSig, FnSigV, SourceTree,
    TypeKind, TypeImplTrait, Bound, BoundV, TypeKindV, file_items, item_view, items_view,
    lemma_items_view,
};
use crate::text::views;

verus! {

// ------------------------------------------------------------------------------------
// the intermediate representation
// ------------------------------------------------------------------------------------
/// An `impl A + B` type reduced to the names of its traits, sorted.
#[derive(Clone, Eq, Hash, PartialEq, Debug)]
pub struct IrTypeImplTrait {
    pub trait_bounds: Vec<String>,
}

impl View for IrTypeImplTrait {
    type V = Seq<Seq<char>>;

    open spec fn view(&self) -> Seq<Seq<char>> {
        views(self.trait_bounds@)
    }
}

/// The views of a sequence of reduced `impl Trait` types.
pub open spec fn irs_view(v: Seq<IrTypeImplTrait>) -> Seq<Seq<Seq<char>>> {
    v.map_values(|x: IrTypeImplTrait| x@)
}

/// A set of reduced `impl Trait` types, each once.
pub type IrImplTraitPool = Vec<IrTypeImplTrait>;

/// What the translator reads of the API files: their `impl Trait` types.
#[derive(Debug, Clone)]
pub struct IrFile {
    pub ir_type_impl_traits: IrImplTraitPool,
}

impl Default for IrFile {
    fn default() -> (r: IrFile)
        ensures
            r.ir_type_impl_traits@.len() == 0,
    {
        IrFile { ir_type_impl_traits: Vec::new() }
    }
}

// ------------------------------------------------------------------------------------
// specification
// ------------------------------------------------------------------------------------
/// The names of the traits among the bounds, in order: each trait path's first
/// segment; lifetimes are left out.
pub open spec fn bound_names(bs: Seq<BoundV>) -> Seq<Seq<char>>
    decreases bs.len(),
{
    if bs.len() == 0 {
        Seq::empty()
    } else {
        let r = bound_names(bs.drop_last());
        match bs.last() {
            BoundV::Trait(p) => r.push(p.segments[0].ident),
            BoundV::Lifetime => r,
        }
    }
}

/// Every trait path among the bounds has a segment.
pub open spec fn bounds_wf(bs: Seq<BoundV>) -> bool {
    forall|i: int|
        0 <= i < bs.len() ==> (#[trigger] bs[i] matches BoundV::Trait(p) ==> p.segments.len()
            > 0)
}

/// The reduction of an `impl Trait` type: its trait names, sorted.
pub open spec fn ir_of_bounds(bs: Seq<BoundV>) -> Seq<Seq<char>> {
    lex_sort(bound_names(bs))
}

/// The types of the typed parameters, in order.
pub open spec fn arg_types(inputs: Seq<ParamV>) -> Seq<TypeKindV>
    decreases inputs.len(),
{
    if inputs.len() == 0 {
        Seq::empty()
    } else {
        let r = arg_types(inputs.drop_last());
        match inputs.last() {
            ParamV::Typed(t) => r.push(t),
            ParamV::Receiver { .. } => r,
        }
    }
}

/// The parameter types of a signature, then its return type if it has one.
pub open spec fn sig_types(sig: FnSigV) -> Seq<TypeKindV> {
    arg_types(sig.inputs) + match sig.output {
        Some(t) => seq![t],
        None => Seq::<TypeKindV>::empty(),
    }
}

/// The bounds of the `impl Trait` types among `types`, in order.
pub open spec fn impl_trait_bounds(types: Seq<TypeKindV>) -> Seq<Seq<BoundV>>
    decreases types.len(),
{
    if types.len() == 0 {
        Seq::empty()
    } else {
        let r = impl_trait_bounds(types.drop_last());
        match types.last() {
            TypeKindV::ImplTrait(bs) => r.push(bs),
            _ => r,
        }
    }
}

/// The reductions of the `impl Trait` types of a function's signature, in order.
pub open spec fn fn_irs(f: FnItemV) -> Seq<Seq<Seq<char>>> {
    impl_trait_bounds(sig_types(f.sig)).map_values(|bs: Seq<BoundV>| ir_of_bounds(bs))
}

/// Every trait path in the function's `impl Trait` types has a segment.
pub open spec fn fn_wf(f: FnItemV) -> bool {
    forall|i: int|
        0 <= i < impl_trait_bounds(sig_types(f.sig)).len() ==> bounds_wf(
            #[trigger] impl_trait_bounds(sig_types(f.sig))[i],
        )
}

/// The public functions among the items, in order.
pub open spec fn pub_fns(items: Seq<TopItemV>) -> Seq<FnItemV>
    decreases items.len(),
{
    if items.len() == 0 {
        Seq::empty()
    } else {
        let r = pub_fns(items.drop_last());
        match items.last() {
            TopItemV::Fn(f) => if f.vis == Visibility::Public {
                r.push(f)
            } else {
                r
            },
            _ => r,
        }
    }
}

/// The parameter standing for a receiver once a method becomes a function: `that`
/// of type `StructName`.
pub open spec fn receiver_as_typed(a: ParamV, struct_name: Seq<char>) -> ParamV {
    match a {
        ParamV::Receiver { .. } => ParamV::Typed(
            TypeKindV::Path(
                PathNameV {
                    leading_colon: false,
                    segments: seq![PathSegmentV { ident: struct_name, has_arguments: false }],
                },
            ),
        ),
        ParamV::Typed(t) => ParamV::Typed(t),
    }
}

/// A method as a function: named `{name}__method__{Struct}` (or
/// `{name}__static_method__{Struct}` without a receiver), with the receiver turned
/// into a parameter of type `Struct`; `None` where the self type is not a path.
pub open spec fn method_fn(imp: ImplBlockV, m: FnItemV) -> Option<FnItemV> {
    match imp.self_ty {
        TypeKindV::Path(p) => {
            let struct_name = p.segments[0].ident;
            let is_static = !(m.sig.inputs.len() > 0 && m.sig.inputs[0] is Receiver);
            let ident = if is_static {
                m.sig.ident + "__static_method__"@ + struct_name
            } else {
                m.sig.ident + "__method__"@ + struct_name
            };
            Some(
                FnItemV {
                    vis: m.vis,
                    sig: FnSigV {
                        ident,
                        inputs: m.sig.inputs.map_values(
                            |a: ParamV| receiver_as_typed(a, struct_name),
                        ),
                        output: m.sig.output,
                    },
                },
            )
        },
        _ => None,
    }
}

/// The public methods of one `impl` block as functions, in order.
pub open spec fn impl_pub_methods(imp: ImplBlockV, its: Seq<ImplMemberV>) -> Seq<FnItemV>
    decreases its.len(),
{
    if its.len() == 0 {
        Seq::empty()
    } else {
        let r = impl_pub_methods(imp, its.drop_last());
        match its.last() {
            ImplMemberV::Method(m) => if m.vis == Visibility::Public {
                r.push(method_fn(imp, m).unwrap())
            } else {
                r
            },
            ImplMemberV::Other => r,
        }
    }
}

/// The public methods of all `impl` blocks as functions, in order.
pub open spec fn pub_methods(items: Seq<TopItemV>) -> Seq<FnItemV>
    decreases items.len(),
{
    if items.len() == 0 {
        Seq::empty()
    } else {
        let r = pub_methods(items.drop_last());
        match items.last() {
            TopItemV::Impl(imp) => r + impl_pub_methods(imp, imp.items),
            _ => r,
        }
    }
}

/// A method can be turned into a function: the self type is a path with a segment,
/// and no receiver is `mut`.
pub open spec fn method_convertible(imp: ImplBlockV, m: FnItemV) -> bool {
    &&& imp.self_ty matches TypeKindV::Path(p) && p.segments.len() > 0
    &&& forall|k: int|
        0 <= k < m.sig.inputs.len() ==> !(#[trigger] m.sig.inputs[k] matches ParamV::Receiver {
            mutable: true,
        })
}

/// Every public method of every `impl` block can be turned into a function.
pub open spec fn methods_convertible(items: Seq<TopItemV>) -> bool {
    forall|i: int, j: int|
        #![trigger items[i], items[i]->Impl_0.items[j]]
        0 <= i < items.len() && items[i] is Impl && 0 <= j < items[i]->Impl_0.items.len() ==> (
        items[i]->Impl_0.items[j] matches ImplMemberV::Method(m) ==> (m.vis == Visibility::Public
            ==> method_convertible(items[i]->Impl_0, m)))
}

/// The public functions, then the public methods as functions.
pub open spec fn spec_get_fns(items: Seq<TopItemV>) -> Seq<FnItemV> {
    pub_fns(items) + pub_methods(items)
}

/// The reductions of all `impl Trait` types of the functions, in order.
pub open spec fn fns_irs(fns: Seq<FnItemV>) -> Seq<Seq<Seq<char>>>
    decreases fns.len(),
{
    if fns.len() == 0 {
        Seq::empty()
    } else {
        fns_irs(fns.drop_last()) + fn_irs(fns.last())
    }
}

/// A file's items can be read: its methods can be turned into functions, and the
/// `impl Trait` types of its functions are well formed.
pub open spec fn file_wf(items: Seq<TopItemV>) -> bool {
    &&& methods_convertible(items)
    &&& forall|i: int|
        0 <= i < spec_get_fns(items).len() ==> fn_wf(#[trigger] spec_get_fns(items)[i])
}

/// The distinct `impl Trait` reductions of a file's public functions and methods.
pub open spec fn sig_args(items: Seq<TopItemV>) -> Seq<Seq<Seq<char>>> {
    dedup_seq(fns_irs(spec_get_fns(items)))
}

// ------------------------------------------------------------------------------------
// reduction of one type
// ------------------------------------------------------------------------------------
/// Reduces an `impl Trait` type to the names of its traits (the first segment of
/// each trait path), sorted; lifetimes are left out.
pub fn convert_impl_trait_to_bound(type_impl_trait: TypeImplTrait) -> (r: IrTypeImplTrait)
    requires
        bounds_wf(type_impl_trait@),
    ensures
        r@ == ir_of_bounds(type_impl_trait@),
        sorted_lex(r@),
        r@.to_multiset() == bound_names(type_impl_trait@).to_multiset(),
{
    let bs = &type_impl_trait.bounds;
    let mut raw: Vec<String> = Vec::new();
    let mut i: usize = 0;
    assert(type_impl_trait@.take(0) =~= Seq::<BoundV>::empty());
    while i < bs.len()
        invariant
            i <= bs.len(),
            bs == type_impl_trait.bounds,
            bounds_wf(type_impl_trait@),
            views(raw@) == bound_names(type_impl_trait@.take(i as int)),
        decreases bs.len() - i,
    {
        let ghost prev = type_impl_trait@.take(i as int);
        assert(type_impl_trait@.take(i + 1).drop_last() =~= prev);
        assert(type_impl_trait@.take(i + 1).last() == bs@[i as int]@);
        match &bs[i] {
            Bound::Trait(t) => {
                assert(type_impl_trait@[i as int] == bs@[i as int]@);
                let name = t.segments[0].ident.clone();
                let ghost o = raw@;
                raw.push(name);
                assert(views(raw@) =~= views(o).push(name@));
            },
            Bound::Lifetime => {},
        }
        i = i + 1;
    }
    assert(type_impl_trait@.take(i as int) =~= type_impl_trait@);
    let sorted = sort_strings(&raw);
    proof {
        lemma_lex_sort(views(raw@));
    }
    IrTypeImplTrait { trait_bounds: sorted }
}

/// **The reduction does not depend on the order of the bounds.** Two `impl Trait`
/// types whose trait names are the same, each as often, in any order and with any
/// lifetimes among them, reduce to the same sorted names.
pub proof fn lemma_ir_of_bounds_order(b1: Seq<BoundV>, b2: Seq<BoundV>)
    requires
        bound_names(b1).to_multiset() == bound_names(b2).to_multiset(),
    ensures
        ir_of_bounds(b1) == ir_of_bounds(b2),
{
    lemma_lex_sort(bound_names(b1));
    lemma_lex_sort(bound_names(b2));
    crate::order::lemma_sorted_unique(ir_of_bounds(b1), ir_of_bounds(b2));
}

/// The bounds of a type, where it is an `impl Trait` type.
fn try_parse_fn_arg_type(ty: &TypeKind) -> (r: Option<TypeImplTrait>)
    ensures
        match ty@ {
            TypeKindV::ImplTrait(bs) => r matches Some(t) && t@ == bs,
            _ => r is None,
        },
{
    match ty {
        TypeKind::ImplTrait(t) => Some(t.copy()),
        _ => None,
    }
}

/// The parameter types of a signature, in order, then its return type if it has one.
fn signature_types(sig: &FnSig) -> (r: Vec<TypeKind>)
    ensures
        r@.map_values(|t: TypeKind| t@) == sig_types(sig@),
{
    let mut types: Vec<TypeKind> = Vec::new();
    let mut i: usize = 0;
    let ghost ins = sig@.inputs;
    assert(ins.take(0) =~= Seq::<ParamV>::empty());
    while i < sig.inputs.len()
        invariant
            i <= sig.inputs.len(),
            ins == sig@.inputs,
            types@.map_values(|t: TypeKind| t@) == arg_types(ins.take(i as int)),
        decreases sig.inputs.len() - i,
    {
        assert(ins.take(i + 1).drop_last() =~= ins.take(i as int));
        assert(ins.take(i + 1).last() == sig.inputs@[i as int]@);
        match &sig.inputs[i] {
            Param::Typed(t) => {
                let ghost o = types@;
                let c = t.copy();
                types.push(c);
                assert(types@.map_values(|t: TypeKind| t@) =~= o.map_values(|t: TypeKind| t@).push(c@));
            },
            Param::Receiver { .. } => {},
        }
        i = i + 1;
    }
    assert(ins.take(i as int) =~= ins);
    match &sig.output {
        ReturnType::Type(t) => {
            let ghost o = types@;
            let c = t.copy();
            types.push(c);
            assert(types@.map_values(|t: TypeKind| t@) =~= o.map_values(|t: TypeKind| t@).push(c@));
        },
        ReturnType::Default => {},
    }
    assert(types@.map_values(|t: TypeKind| t@) =~= sig_types(sig@));
    types
}

/// The reductions of the `impl Trait` types of a function: its parameters' types in
/// order, then its return type.
pub fn parse_function(func: FnItem) -> (r: Vec<IrTypeImplTrait>)
    requires
        fn_wf(func@),
    ensures
        irs_view(r@) == fn_irs(func@),
{
    let types = signature_types(&func.sig);
    let ghost all = sig_types(func@.sig);
    assert(types@.map_values(|t: TypeKind| t@) =~= all);
    let mut out: Vec<IrTypeImplTrait> = Vec::new();
    let mut j: usize = 0;
    assert(all.take(0) =~= Seq::<TypeKindV>::empty());
    assert(impl_trait_bounds(all.take(0)).map_values(|bs: Seq<BoundV>| ir_of_bounds(bs))
        =~= Seq::<Seq<Seq<char>>>::empty());
    while j < types.len()
        invariant
            j <= types.len(),
            types@.map_values(|t: TypeKind| t@) == all,
            all == sig_types(func@.sig),
            fn_wf(func@),
            irs_view(out@) == impl_trait_bounds(all.take(j as int)).map_values(
                |bs: Seq<BoundV>| ir_of_bounds(bs),
            ),
        decreases types.len() - j,
    {
        let ghost prev = all.take(j as int);
        assert(all.take(j + 1).drop_last() =~= prev);
        assert(all.take(j + 1).last() == types@[j as int]@);
        assert(all[j as int] == types@[j as int]@);
        if let Some(t) = try_parse_fn_arg_type(&types[j]) {
            proof {
                lemma_impl_trait_bounds_prefix(all, j as int + 1);
                let k = impl_trait_bounds(prev).len() as int;
                assert(impl_trait_bounds(all.take(j + 1)) == impl_trait_bounds(prev).push(t@));
                assert(impl_trait_bounds(all.take(j + 1))[k] == t@);
                assert(impl_trait_bounds(all)[k] == t@);
                assert(bounds_wf(impl_trait_bounds(all)[k]));
            }
            let ir = convert_impl_trait_to_bound(t);
            let ghost o = out@;
            out.push(ir);
            assert(irs_view(out@) =~= irs_view(o).push(ir@));
            assert(impl_trait_bounds(all.take(j + 1)).map_values(
                |bs: Seq<BoundV>| ir_of_bounds(bs),
            ) =~= impl_trait_bounds(prev).map_values(
                |bs: Seq<BoundV>| ir_of_bounds(bs),
            ).push(ir_of_bounds(t@)));
        }
        j = j + 1;
    }
    assert(all.take(j as int) =~= all);
    out
}

/// The `impl Trait` bounds of a prefix are a prefix of those of the whole.
proof fn lemma_impl_trait_bounds_prefix(types: Seq<TypeKindV>, n: int)
    requires
        0 <= n <= types.len(),
    ensures
        impl_trait_bounds(types.take(n)).len() <= impl_trait_bounds(types).len(),
        forall|k: int|
            0 <= k < impl_trait_bounds(types.take(n)).len() ==> #[trigger] impl_trait_bounds(
                types.take(n),
            )[k] == impl_trait_bounds(types)[k],
    decreases types.len() - n,
{
    if n < types.len() {
        lemma_impl_trait_bounds_prefix(types, n + 1);
        assert(types.take(n + 1).drop_last() =~= types.take(n));
        let a = impl_trait_bounds(types.take(n));
        let b = impl_trait_bounds(types.take(n + 1));
        assert forall|k: int| 0 <= k < a.len() implies #[trigger] a[k] == impl_trait_bounds(
            types,
        )[k] by {
            assert(b[k] == a[k]);
        }
    } else {
        assert(types.take(n) =~= types);
    }
}

} // verus!

verus! {

// ------------------------------------------------------------------------------------
// functions of a file
// ------------------------------------------------------------------------------------
impl IrTypeImplTrait {
    /// A copy with the same view.
    pub fn copy(&self) -> (r: IrTypeImplTrait)
        ensures
            r@ == self@,
    {
        IrTypeImplTrait { trait_bounds: crate::text::copy_strings(&self.trait_bounds) }
    }
}

/// Turns a method of an `impl` block into a function: named
/// `{name}__method__{Struct}` (`{name}__static_method__{Struct}` where it has no
/// receiver), the receiver becoming a parameter of type `Struct`. `None` where the
/// self type is not a path.
pub fn item_method_to_function(item_impl: &ImplBlock, item_method: &FnItem) -> (r: Option<FnItem>)
    requires
        item_impl@.self_ty is Path ==> {
            &&& item_impl@.self_ty->Path_0.segments.len() > 0
            &&& forall|k: int|
                0 <= k < item_method@.sig.inputs.len() ==> !(
                #[trigger] item_method@.sig.inputs[k] matches ParamV::Receiver { mutable: true })
        },
    ensures
        match r {
            Some(f) => method_fn(item_impl@, item_method@) == Some(f@),
            None => method_fn(item_impl@, item_method@) is None,
        },
{
    match &item_impl.self_ty {
        TypeKind::Path(p) => {
            let struct_name = p.segments[0].ident.clone();
            let is_static = if item_method.sig.inputs.len() > 0 {
                match &item_method.sig.inputs[0] {
                    Param::Receiver { .. } => false,
                    Param::Typed(_) => true,
                }
            } else {
                true
            };
            let mut ident = item_method.sig.ident.clone();
            if is_static {
                ident.append("__static_method__");
            } else {
                ident.append("__method__");
            }
            ident.append(struct_name.as_str());
            let ins = &item_method.sig.inputs;
            let ghost spec_inputs = item_method@.sig.inputs.map_values(
                |a: ParamV| receiver_as_typed(a, struct_name@),
            );
            let mut inputs: Vec<Param> = Vec::new();
            let mut i: usize = 0;
            while i < ins.len()
                invariant
                    i <= ins.len(),
                    ins == item_method.sig.inputs,
                    spec_inputs == item_method@.sig.inputs.map_values(
                        |a: ParamV| receiver_as_typed(a, struct_name@),
                    ),
                    inputs@.len() == i,
                    forall|k: int| 0 <= k < i ==> (#[trigger] inputs@[k])@ == spec_inputs[k],
                decreases ins.len() - i,
            {
                let a = match &ins[i] {
                    Param::Receiver { .. } => Param::Typed(
                        TypeKind::Path(PathName::from_ident(struct_name.clone())),
                    ),
                    Param::Typed(t) => Param::Typed(t.copy()),
                };
                inputs.push(a);
                i = i + 1;
            }
            let f = FnItem {
                vis: item_method.vis,
                sig: FnSig { ident, inputs, output: item_method.sig.output.copy() },
            };
            assert(f@.sig.inputs =~= spec_inputs);
            Some(f)
        },
        _ => None,
    }
}

/// The public functions of the file, in order.
fn extract_fns_from_file(file: &ParsedFile) -> (r: Vec<FnItem>)
    ensures
        r@.map_values(|f: FnItem| f@) == pub_fns(items_view(file.items@)),
{
    let items = &file.items;
    let mut src_fns: Vec<FnItem> = Vec::new();
    let mut i: usize = 0;
    assert(items@.take(0) =~= Seq::<TopItem>::empty());
    while i < items.len()
        invariant
            i <= items.len(),
            items == file.items,
            src_fns@.map_values(|f: FnItem| f@) == pub_fns(items_view(items@.take(i as int))),
        decreases items.len() - i,
    {
        assert(items@.take(i + 1).drop_last() =~= items@.take(i as int));
        assert(items_view(items@.take(i + 1)).last() == items@[i as int]@);
        assert(items_view(items@.take(i + 1)).drop_last() == items_view(items@.take(i as int)));
        match &items[i] {
            TopItem::Fn(f) => {
                if f.vis == Visibility::Public {
                    let ghost o = src_fns@;
                    let c = f.copy();
                    src_fns.push(c);
                    assert(src_fns@.map_values(|f: FnItem| f@) =~= o.map_values(|f: FnItem| f@).push(
                        c@,
                    ));
                }
            },
            _ => {},
        }
        i = i + 1;
    }
    assert(items@.take(i as int) =~= items@);
    src_fns
}

/// The public methods of all `impl` blocks of the file, turned into functions.
fn extract_methods_from_file(file: &ParsedFile) -> (r: Vec<FnItem>)
    requires
        methods_convertible(items_view(file.items@)),
    ensures
        r@.map_values(|f: FnItem| f@) == pub_methods(items_view(file.items@)),
{
    let items = &file.items;
    let ghost all = items_view(items@);
    proof {
        lemma_items_view(items@);
    }
    let mut src_fns: Vec<FnItem> = Vec::new();
    let mut i: usize = 0;
    assert(items@.take(0) =~= Seq::<TopItem>::empty());
    while i < items.len()
        invariant
            i <= items.len(),
            items == file.items,
            all == items_view(items@),
            all.len() == items@.len(),
            forall|k: int| 0 <= k < items@.len() ==> #[trigger] all[k] == item_view(items@[k]),
            methods_convertible(all),
            src_fns@.map_values(|f: FnItem| f@) == pub_methods(items_view(items@.take(i as int))),
        decreases items.len() - i,
    {
        assert(items@.take(i + 1).drop_last() =~= items@.take(i as int));
        assert(items_view(items@.take(i + 1)).last() == items@[i as int]@);
        assert(items_view(items@.take(i + 1)).drop_last() == items_view(items@.take(i as int)));
        match &items[i] {
            TopItem::Impl(item_impl) => {
                let ghost imp = item_impl@;
                assert(all[i as int] == TopItemV::Impl(imp));
                let its = &item_impl.items;
                let ghost base = src_fns@.map_values(|f: FnItem| f@);
                let mut j: usize = 0;
                assert(imp.items.take(0) =~= Seq::<ImplMemberV>::empty());
                while j < its.len()
                    invariant
                        j <= its.len(),
                        i < items.len(),
                        i < all.len(),
                        its == item_impl.items,
                        imp == item_impl@,
                        all[i as int] == TopItemV::Impl(imp),
                        methods_convertible(all),
                        src_fns@.map_values(|f: FnItem| f@) == base + impl_pub_methods(
                            imp,
                            imp.items.take(j as int),
                        ),
                    decreases its.len() - j,
                {
                    assert(imp.items.take(j + 1).drop_last() =~= imp.items.take(j as int));
                    assert(imp.items.take(j + 1).last() == its@[j as int]@);
                    assert(imp.items[j as int] == its@[j as int]@);
                    match &its[j] {
                        ImplMember::Method(item_method) => {
                            if item_method.vis == Visibility::Public {
                                assert(all[i as int]->Impl_0.items[j as int] == ImplMemberV::Method(
                                    item_method@,
                                ));
                                assert(method_convertible(all[i as int]->Impl_0, item_method@));
                                let f = item_method_to_function(item_impl, item_method);
                                let f = f.unwrap();
                                let ghost o = src_fns@;
                                src_fns.push(f);
                                assert(src_fns@.map_values(|f: FnItem| f@) =~= o.map_values(
                                    |f: FnItem| f@,
                                ).push(f@));
                            }
                        },
                        ImplMember::Other => {},
                    }
                    j = j + 1;
                }
                assert(imp.items.take(j as int) =~= imp.items);
            },
            _ => {},
        }
        i = i + 1;
    }
    assert(items@.take(i as int) =~= items@);
    src_fns
}

/// The public functions of the file, then its public methods turned into functions.
pub fn get_fns(file: &ParsedFile) -> (r: Vec<FnItem>)
    requires
        methods_convertible(items_view(file.items@)),
    ensures
        r@.map_values(|f: FnItem| f@) == spec_get_fns(items_view(file.items@)),
{
    let mut src_fns = extract_fns_from_file(file);
    let mut methods = extract_methods_from_file(file);
    let ghost a = src_fns@;
    let ghost b = methods@;
    src_fns.append(&mut methods);
    assert(src_fns@.map_values(|f: FnItem| f@) =~= a.map_values(|f: FnItem| f@) + b.map_values(
        |f: FnItem| f@,
    ));
    src_fns
}

/// Removes repeated reductions, keeping the first occurrence of each.
pub fn dedup_irs(v: &Vec<IrTypeImplTrait>) -> (r: Vec<IrTypeImplTrait>)
    ensures
        irs_view(r@) == dedup_seq(irs_view(v@)),
{
    let mut r: Vec<IrTypeImplTrait> = Vec::new();
    let mut i: usize = 0;
    assert(irs_view(v@).take(0) =~= Seq::<Seq<Seq<char>>>::empty());
    while i < v.len()
        invariant
            i <= v.len(),
            irs_view(r@) == dedup_seq(irs_view(v@).take(i as int)),
        decreases v.len() - i,
    {
        let ghost prev = irs_view(v@).take(i as int);
        assert(irs_view(v@).take(i + 1).drop_last() =~= prev);
        assert(irs_view(v@).take(i + 1).last() == v@[i as int]@);
        let mut k: usize = 0;
        let mut found = false;
        while k < r.len()
            invariant
                k <= r.len(),
                i < v.len(),
                found ==> irs_view(r@).contains(v@[i as int]@),
                !found ==> forall|t: int| 0 <= t < k ==> r@[t]@ != v@[i as int]@,
            decreases r.len() - k,
        {
            if same_strings(&r[k].trait_bounds, &v[i].trait_bounds) {
                found = true;
                assert(irs_view(r@)[k as int] == v@[i as int]@);
            }
            k = k + 1;
        }
        if !found {
            assert(!irs_view(r@).contains(v@[i as int]@)) by {
                if irs_view(r@).contains(v@[i as int]@) {
                    let t = choose|t: int|
                        0 <= t < irs_view(r@).len() && irs_view(r@)[t] == v@[i as int]@;
                    assert(r@[t]@ == v@[i as int]@);
                }
            }
            let c = v[i].copy();
            let ghost o = r@;
            r.push(c);
            assert(irs_view(r@) =~= irs_view(o).push(c@));
        }
        i = i + 1;
    }
    assert(irs_view(v@).take(i as int) =~= irs_view(v@));
    r
}

/// The distinct reductions of the `impl Trait` types of the file's public functions
/// and methods.
pub fn get_sig_args(file: &ParsedFile) -> (r: IrImplTraitPool)
    requires
        file_wf(items_view(file.items@)),
    ensures
        irs_view(r@) == sig_args(items_view(file.items@)),
        irs_view(r@).no_duplicates(),
{
    let src_fns = get_fns(file);
    let ghost fns = spec_get_fns(items_view(file.items@));
    let mut all: Vec<IrTypeImplTrait> = Vec::new();
    let mut i: usize = 0;
    assert(fns.take(0) =~= Seq::<FnItemV>::empty());
    while i < src_fns.len()
        invariant
            i <= src_fns.len(),
            src_fns@.map_values(|f: FnItem| f@) == fns,
            fns == spec_get_fns(items_view(file.items@)),
            file_wf(items_view(file.items@)),
            irs_view(all@) == fns_irs(fns.take(i as int)),
        decreases src_fns.len() - i,
    {
        assert(fns.take(i + 1).drop_last() =~= fns.take(i as int));
        assert(fns.take(i + 1).last() == src_fns@[i as int]@);
        assert(fns[i as int] == src_fns@[i as int]@);
        let mut irs = parse_function(src_fns[i].copy());
        let ghost a = all@;
        let ghost b = irs@;
        all.append(&mut irs);
        assert(irs_view(all@) =~= irs_view(a) + irs_view(b));
        i = i + 1;
    }
    assert(fns.take(i as int) =~= fns);
    let r = dedup_irs(&all);
    proof {
        crate::order::lemma_dedup_properties(irs_view(all@));
    }
    r
}

impl IrFile {
    /// What the translator reads of one parsed API file.
    pub fn get_ir_info(file: &ParsedFile) -> (r: IrFile)
        requires
            file_wf(items_view(file.items@)),
        ensures
            irs_view(r.ir_type_impl_traits@) == sig_args(items_view(file.items@)),
    {
        IrFile { ir_type_impl_traits: get_sig_args(file) }
    }
}

// ------------------------------------------------------------------------------------
// all inputs
// ------------------------------------------------------------------------------------
/// Each input file exists, parses, and can be read.
pub open spec fn inputs_readable(tree: SourceTree, paths: Seq<Seq<char>>) -> bool {
    forall|i: int|
        0 <= i < paths.len() ==> (#[trigger] file_items(tree, paths[i]) matches Some(Some(items))
            && file_wf(items))
}

/// The items of a file that exists and parses.
pub open spec fn input_items(tree: SourceTree, path: Seq<char>) -> Seq<TopItemV> {
    file_items(tree, path).unwrap().unwrap()
}

/// The reductions of all input files, file by file.
pub open spec fn inputs_irs(tree: SourceTree, paths: Seq<Seq<char>>) -> Seq<Seq<Seq<char>>>
    decreases paths.len(),
{
    if paths.len() == 0 {
        Seq::empty()
    } else {
        inputs_irs(tree, paths.drop_last()) + sig_args(input_items(tree, paths.last()))
    }
}

proof fn lemma_inputs_irs_members(tree: SourceTree, paths: Seq<Seq<char>>)
    ensures
        forall|i: int, k: int|
            0 <= i < paths.len() && 0 <= k < sig_args(input_items(tree, paths[i])).len()
                ==> inputs_irs(tree, paths).contains(
                #[trigger] sig_args(input_items(tree, paths[i]))[k],
            ),
        forall|x: Seq<Seq<char>>|
            #[trigger] inputs_irs(tree, paths).contains(x) ==> exists|i: int|
                0 <= i < paths.len() && sig_args(input_items(tree, paths[i])).contains(x),
    decreases paths.len(),
{
    if paths.len() > 0 {
        let d = paths.drop_last();
        lemma_inputs_irs_members(tree, d);
        let a = inputs_irs(tree, d);
        let b = sig_args(input_items(tree, paths.last()));
        assert(inputs_irs(tree, paths) == a + b);
        assert forall|i: int, k: int|
            0 <= i < paths.len() && 0 <= k < sig_args(input_items(tree, paths[i])).len()
                implies inputs_irs(tree, paths).contains(
            #[trigger] sig_args(input_items(tree, paths[i]))[k],
        ) by {
            let x = sig_args(input_items(tree, paths[i]))[k];
            if i < d.len() {
                assert(d[i] == paths[i]);
                assert(a.contains(x));
                let p = choose|p: int| 0 <= p < a.len() && a[p] == x;
                assert((a + b)[p] == x);
            } else {
                assert(paths[i] == paths.last());
                assert((a + b)[a.len() + k] == x);
            }
        }
        assert forall|x: Seq<Seq<char>>| #[trigger] inputs_irs(tree, paths).contains(x) implies exists|
            i: int,
        | 0 <= i < paths.len() && sig_args(input_items(tree, paths[i])).contains(x) by {
            let p = choose|p: int| 0 <= p < (a + b).len() && (a + b)[p] == x;
            if p < a.len() {
                assert(a[p] == x);
                assert(a.contains(x));
                let i = choose|i: int| 0 <= i < d.len() && sig_args(input_items(tree, d[i])).contains(x);
                assert(d[i] == paths[i]);
            } else {
                assert(b[p - a.len()] == x);
                assert(b.contains(x));
                assert(paths[paths.len() - 1] == paths.last());
            }
        }
    }
}

/// **Every API file is read.** Each `impl Trait` reduction that any one API file's
/// public functions and methods yield occurs among the reductions collected from all
/// the API files, and each collected reduction comes from some API file.
pub proof fn lemma_collected_irs_cover_every_input(tree: SourceTree, paths: Seq<Seq<char>>)
    ensures
        forall|i: int, k: int|
            0 <= i < paths.len() && 0 <= k < sig_args(input_items(tree, paths[i])).len()
                ==> dedup_seq(inputs_irs(tree, paths)).contains(
                #[trigger] sig_args(input_items(tree, paths[i]))[k],
            ),
        forall|x: Seq<Seq<char>>|
            #[trigger] dedup_seq(inputs_irs(tree, paths)).contains(x) ==> exists|i: int|
                0 <= i < paths.len() && sig_args(input_items(tree, paths[i])).contains(x),
{
    lemma_inputs_irs_members(tree, paths);
    crate::order::lemma_dedup_properties(inputs_irs(tree, paths));
    assert forall|x: Seq<Seq<char>>| #[trigger] dedup_seq(inputs_irs(tree, paths)).contains(x) implies exists|
        i: int,
    | 0 <= i < paths.len() && sig_args(input_items(tree, paths[i])).contains(x) by {
        assert(inputs_irs(tree, paths).contains(x));
    }
}

/// Reads the `impl Trait` types of the API files.
pub trait RustInputInfo {
    /// The paths of the API files, in order.
    spec fn input_paths(&self) -> Seq<Seq<char>>;

    /// What the translator reads of each API file, in order.
    fn get_irs(&self, sources: &SourceTree) -> (r: Vec<IrFile>)
        requires
            inputs_readable(*sources, self.input_paths()),
        ensures
            r@.len() == self.input_paths().len(),
            forall|i: int|
                0 <= i < r@.len() ==> irs_view((#[trigger] r@[i]).ir_type_impl_traits@) == sig_args(
                    input_items(*sources, self.input_paths()[i]),
                ),
    ;

    /// The distinct reductions of all API files together.
    fn collect_irs(&self, sources: &SourceTree) -> (r: IrFile)
        requires
            inputs_readable(*sources, self.input_paths()),
        ensures
            irs_view(r.ir_type_impl_traits@) == dedup_seq(
                inputs_irs(*sources, self.input_paths()),
            ),
            forall|i: int, k: int|
                0 <= i < self.input_paths().len() && 0 <= k < sig_args(
                    input_items(*sources, self.input_paths()[i]),
                ).len() ==> irs_view(r.ir_type_impl_traits@).contains(
                    #[trigger] sig_args(input_items(*sources, self.input_paths()[i]))[k],
                ),
    ;
}

impl RustInputInfo for Vec<Opts> {
    open spec fn input_paths(&self) -> Seq<Seq<char>> {
        opts_view(self@).map_values(|c: OptsV| c.rust_input_path)
    }

    fn get_irs(&self, sources: &SourceTree) -> (r: Vec<IrFile>) {
        let mut out: Vec<IrFile> = Vec::new();
        let mut i: usize = 0;
        while i < self.len()
            invariant
                i <= self.len(),
                inputs_readable(*sources, self.input_paths()),
                out@.len() == i,
                forall|k: int|
                    0 <= k < i ==> irs_view((#[trigger] out@[k]).ir_type_impl_traits@) == sig_args(
                        input_items(*sources, self.input_paths()[k]),
                    ),
            decreases self.len() - i,
        {
            let path = &self[i].rust_input_path;
            assert(self.input_paths()[i as int] == path@);
            assert(file_items(*sources, self.input_paths()[i as int]) is Some);
            let idx = sources.find(path).unwrap();
            proof {
                crate::syntax::lemma_find_file(sources.files@, path@);
            }
            match &sources.files[idx].file {
                Some(file) => {
                    out.push(IrFile::get_ir_info(file));
                },
                None => {
                    assert(false);
                },
            }
            i = i + 1;
        }
        out
    }

    fn collect_irs(&self, sources: &SourceTree) -> (r: IrFile) {
        let files = self.get_irs(sources);
        let ghost paths = self.input_paths();
        let mut all: Vec<IrTypeImplTrait> = Vec::new();
        let mut i: usize = 0;
        assert(paths.take(0) =~= Seq::<Seq<char>>::empty());
        while i < files.len()
            invariant
                i <= files.len(),
                files@.len() == paths.len(),
                paths == self.input_paths(),
                forall|k: int|
                    0 <= k < files@.len() ==> irs_view((#[trigger] files@[k]).ir_type_impl_traits@)
                        == sig_args(input_items(*sources, paths[k])),
                irs_view(all@) == inputs_irs(*sources, paths.take(i as int)),
            decreases files.len() - i,
        {
            assert(paths.take(i + 1).drop_last() =~= paths.take(i as int));
            assert(paths.take(i + 1).last() == paths[i as int]);
            let ghost a = all@;
            let mut k: usize = 0;
            while k < files[i].ir_type_impl_traits.len()
                invariant
                    i < files.len(),
                    k <= files@[i as int].ir_type_impl_traits@.len(),
                    irs_view(all@) == irs_view(a) + irs_view(
                        files@[i as int].ir_type_impl_traits@.take(k as int),
                    ),
                decreases files@[i as int].ir_type_impl_traits@.len() - k,
            {
                let c = files[i].ir_type_impl_traits[k].copy();
                let ghost o = all@;
                all.push(c);
                assert(irs_view(files@[i as int].ir_type_impl_traits@.take(k + 1)) =~= irs_view(
                    files@[i as int].ir_type_impl_traits@.take(k as int),
                ).push(c@));
                assert(irs_view(all@) =~= irs_view(o).push(c@));
                k = k + 1;
            }
            assert(files@[i as int].ir_type_impl_traits@.take(k as int)
                =~= files@[i as int].ir_type_impl_traits@);
            i = i + 1;
        }
        assert(paths.take(i as int) =~= paths);
        proof {
            lemma_collected_irs_cover_every_input(*sources, paths);
        }
        IrFile { ir_type_impl_traits: dedup_irs(&all) }
    }
}

} // verus!

verus! {

// ------------------------------------------------------------------------------------
// whether the inputs can be read
// ------------------------------------------------------------------------------------
/// Whether no parameter is a `&mut self` receiver.
fn receivers_immutable(m: &FnItem) -> (r: bool)
    ensures
        r == forall|k: int|
            0 <= k < m@.sig.inputs.len() ==> !(#[trigger] m@.sig.inputs[k] matches ParamV::Receiver {
                mutable: true,
            }),
{
    let mut k: usize = 0;
    while k < m.sig.inputs.len()
        invariant
            k <= m.sig.inputs@.len(),
            forall|t: int|
                0 <= t < k ==> !(#[trigger] m@.sig.inputs[t] matches ParamV::Receiver {
                    mutable: true,
                }),
        decreases m.sig.inputs.len() - k,
    {
        match &m.sig.inputs[k] {
            Param::Receiver { mutable } => {
                if *mutable {
                    assert(m@.sig.inputs[k as int] matches ParamV::Receiver { mutable: true });
                    return false;
                }
            },
            Param::Typed(_) => {},
        }
        k = k + 1;
    }
    true
}

/// The condition on the public methods of the `impl` item at `a`, for its items below `n`.
pub open spec fn impl_methods_ok(all: Seq<TopItemV>, a: int, n: int) -> bool {
    forall|b: int|
        #![trigger all[a]->Impl_0.items[b]]
        0 <= b < n ==> (all[a]->Impl_0.items[b] matches ImplMemberV::Method(m) ==> (m.vis
            == Visibility::Public ==> method_convertible(all[a]->Impl_0, m)))
}

/// Whether every public method of every `impl` block can be turned into a function.
pub fn methods_convertible_check(file: &ParsedFile) -> (r: bool)
    ensures
        r == methods_convertible(items_view(file.items@)),
{
    let items = &file.items;
    let ghost all = items_view(items@);
    proof {
        lemma_items_view(items@);
    }
    let mut i: usize = 0;
    while i < items.len()
        invariant
            i <= items.len(),
            items == file.items,
            all == items_view(items@),
            all.len() == items@.len(),
            forall|k: int| 0 <= k < items@.len() ==> #[trigger] all[k] == item_view(items@[k]),
            forall|a: int|
                0 <= a < i && (#[trigger] all[a]) is Impl ==> impl_methods_ok(
                    all,
                    a,
                    all[a]->Impl_0.items.len() as int,
                ),
        decreases items.len() - i,
    {
        assert(all[i as int] == item_view(items@[i as int]));
        match &items[i] {
            TopItem::Impl(item_impl) => {
                let path_ok = match &item_impl.self_ty {
                    TypeKind::Path(p) => p.segments.len() > 0,
                    _ => false,
                };
                let its = &item_impl.items;
                let mut j: usize = 0;
                while j < its.len()
                    invariant
                        j <= its.len(),
                        i < all.len(),
                        items == file.items,
                        all == items_view(items@),
                        its == item_impl.items,
                        all[i as int] == TopItemV::Impl(item_impl@),
                        path_ok == (item_impl@.self_ty matches TypeKindV::Path(p) && p.segments.len()
                            > 0),
                        impl_methods_ok(all, i as int, j as int),
                    decreases its.len() - j,
                {
                    assert(all[i as int]->Impl_0.items[j as int] == its@[j as int]@);
                    match &its[j] {
                        ImplMember::Method(m) => {
                            if m.vis == Visibility::Public {
                                let ok = path_ok && receivers_immutable(m);
                                if !ok {
                                    proof {
                                        assert(!method_convertible(all[i as int]->Impl_0, m@));
                                        assert(all[i as int]->Impl_0.items[j as int]
                                            == ImplMemberV::Method(m@));
                                        assert(!methods_convertible(all)) by {
                                            if methods_convertible(all) {
                                                assert(all[i as int]->Impl_0.items[j as int] matches ImplMemberV::Method(
                                                    mm,
                                                ) ==> (mm.vis == Visibility::Public
                                                    ==> method_convertible(all[i as int]->Impl_0, mm)));
                                            }
                                        }
                                    }
                                    return false;
                                }
                            }
                        },
                        ImplMember::Other => {},
                    }
                    j = j + 1;
                }
            },
            _ => {},
        }
        i = i + 1;
    }
    proof {
        assert forall|a: int, b: int|
            #![trigger all[a], all[a]->Impl_0.items[b]]
            0 <= a < all.len() && all[a] is Impl && 0 <= b < all[a]->Impl_0.items.len() implies (
            all[a]->Impl_0.items[b] matches ImplMemberV::Method(m) ==> (m.vis == Visibility::Public
                ==> method_convertible(all[a]->Impl_0, m))) by {
            assert(impl_methods_ok(all, a, all[a]->Impl_0.items.len() as int));
        }
    }
    true
}

/// Every `impl Trait` type among `types` is well formed.
pub open spec fn types_wf(types: Seq<TypeKindV>) -> bool {
    forall|i: int|
        0 <= i < types.len() ==> (#[trigger] types[i] matches TypeKindV::ImplTrait(bs) ==> bounds_wf(bs))
}

proof fn lemma_types_wf(types: Seq<TypeKindV>)
    ensures
        types_wf(types) <==> forall|k: int|
            0 <= k < impl_trait_bounds(types).len() ==> bounds_wf(
                #[trigger] impl_trait_bounds(types)[k],
            ),
    decreases types.len(),
{
    if types.len() > 0 {
        let d = types.drop_last();
        lemma_types_wf(d);
        let t = types.last();
        let a = impl_trait_bounds(d);
        let b = impl_trait_bounds(types);
        assert(types_wf(types) <==> types_wf(d) && (t matches TypeKindV::ImplTrait(bs) ==> bounds_wf(
            bs,
        ))) by {
            if types_wf(types) {
                assert forall|i: int| 0 <= i < d.len() implies (#[trigger] d[i] matches TypeKindV::ImplTrait(
                    bs,
                ) ==> bounds_wf(bs)) by {
                    assert(d[i] == types[i]);
                }
                assert(types[types.len() - 1] == t);
            }
            if types_wf(d) && (t matches TypeKindV::ImplTrait(bs) ==> bounds_wf(bs)) {
                assert forall|i: int| 0 <= i < types.len() implies (#[trigger] types[i] matches TypeKindV::ImplTrait(
                    bs,
                ) ==> bounds_wf(bs)) by {
                    if i < d.len() {
                        assert(d[i] == types[i]);
                    }
                }
            }
        }
        match t {
            TypeKindV::ImplTrait(bs) => {
                assert(b == a.push(bs));
                assert forall|k: int| 0 <= k < a.len() implies #[trigger] b[k] == a[k] by {}
                if forall|k: int| 0 <= k < b.len() ==> bounds_wf(#[trigger] b[k]) {
                    assert(b[a.len() as int] == bs);
                    assert forall|k: int| 0 <= k < a.len() implies bounds_wf(#[trigger] a[k]) by {
                        assert(b[k] == a[k]);
                    }
                }
            },
            _ => {
                assert(b == a);
            },
        }
    } else {
        assert(impl_trait_bounds(types).len() == 0);
    }
}

/// Whether every trait path among the bounds of an `impl Trait` type has a segment.
fn type_wf_check(t: &TypeKind) -> (r: bool)
    ensures
        r == (t@ matches TypeKindV::ImplTrait(bs) ==> bounds_wf(bs)),
{
    match t {
        TypeKind::ImplTrait(it) => {
            let mut k: usize = 0;
            while k < it.bounds.len()
                invariant
                    k <= it.bounds@.len(),
                    t@ == TypeKindV::ImplTrait(it@),
                    forall|j: int|
                        0 <= j < k ==> (#[trigger] it@[j] matches BoundV::Trait(p)
                            ==> p.segments.len() > 0),
                decreases it.bounds.len() - k,
            {
                match &it.bounds[k] {
                    Bound::Trait(p) => {
                        if p.segments.len() == 0 {
                            proof {
                                assert(it@[k as int] == it.bounds@[k as int]@);
                                assert(it@[k as int] == BoundV::Trait(p@));
                                assert(!bounds_wf(it@));
                            }
                            return false;
                        }
                    },
                    Bound::Lifetime => {},
                }
                assert(it@[k as int] == it.bounds@[k as int]@);
                k = k + 1;
            }
            true
        },
        _ => true,
    }
}

/// Whether every trait path in the function's `impl Trait` types has a segment.
pub fn fn_wf_check(f: &FnItem) -> (r: bool)
    ensures
        r == fn_wf(f@),
{
    let types = signature_types(&f.sig);
    let ghost all = sig_types(f@.sig);
    proof {
        lemma_types_wf(all);
    }
    let mut i: usize = 0;
    while i < types.len()
        invariant
            i <= types.len(),
            types@.map_values(|t: TypeKind| t@) == all,
            all == sig_types(f@.sig),
            forall|k: int|
                0 <= k < i ==> (#[trigger] all[k] matches TypeKindV::ImplTrait(bs) ==> bounds_wf(bs)),
        decreases types.len() - i,
    {
        assert(all[i as int] == types@[i as int]@);
        if !type_wf_check(&types[i]) {
            assert(!types_wf(all));
            assert(!fn_wf(f@)) by {
                lemma_types_wf(all);
            }
            return false;
        }
        i = i + 1;
    }
    assert(types_wf(all));
    true
}

/// Whether the file's methods can be turned into functions and the `impl Trait`
/// types of its functions are well formed.
pub fn file_wf_check(file: &ParsedFile) -> (r: bool)
    ensures
        r == file_wf(items_view(file.items@)),
{
    if !methods_convertible_check(file) {
        return false;
    }
    let fns = get_fns(file);
    let ghost sf = spec_get_fns(items_view(file.items@));
    let mut i: usize = 0;
    while i < fns.len()
        invariant
            i <= fns.len(),
            fns@.map_values(|f: FnItem| f@) == sf,
            sf == spec_get_fns(items_view(file.items@)),
            forall|k: int| 0 <= k < i ==> fn_wf(#[trigger] sf[k]),
        decreases fns.len() - i,
    {
        assert(sf[i as int] == fns@[i as int]@);
        if !fn_wf_check(&fns[i]) {
            return false;
        }
        i = i + 1;
    }
    true
}

/// Whether each input file of the options exists, parses and can be read.
pub fn inputs_readable_check(configs: &Vec<Opts>, sources: &SourceTree) -> (r: bool)
    ensures
        r == inputs_readable(*sources, configs.input_paths()),
{
    let ghost paths = configs.input_paths();
    let mut i: usize = 0;
    while i < configs.len()
        invariant
            i <= configs.len(),
            paths == configs.input_paths(),
            forall|k: int|
                0 <= k < i ==> (#[trigger] file_items(*sources, paths[k]) matches Some(Some(items))
                    && file_wf(items)),
        decreases configs.len() - i,
    {
        let path = &configs[i].rust_input_path;
        assert(paths[i as int] == path@);
        match sources.find(path) {
            Some(idx) => {
                proof {
                    crate::syntax::lemma_find_file(sources.files@, path@);
                }
                match &sources.files[idx].file {
                    Some(file) => {
                        assert(file_items(*sources, paths[i as int]) == Some(
                            Some(items_view(file.items@)),
                        ));
                        if !file_wf_check(file) {
                            return false;
                        }
                    },
                    None => {
                        assert(file_items(*sources, paths[i as int]) == Some(
                            None::<Seq<TopItemV>>,
                        ));
                        return false;
                    },
                }
            },
            None => {
                assert(file_items(*sources, paths[i as int]) is None);
                return false;
            },
        }
        i = i + 1;
    }
    true
}

} // verus!
