//! The text of the generated files: the enum of each `impl A + B` bound with its
//! trait impls, and the Dart files that load the native library.
use vstd::prelude::*;
use crate::opt_array::OptArray;
use crate::opts::{OptsUtilTrait, api_paths, opts_view};
use crate::pool::NamePool;
use crate::text::{
    concat_seqs, contains_seq, contains_string, lemma_concat_contains, lemma_concat_push,
    lemma_contains_middle, lemma_contains_trans, views,
};

verus! {

broadcast use vstd::std_specs::vec::group_vec_axioms;

// ------------------------------------------------------------------------------------
// what the API file's documentation says of the traits
// ------------------------------------------------------------------------------------
/// How the generated enum forwards the methods of one trait to its variants.
#[derive(Debug, Clone)]
pub struct CallFn {
    /// A line the generated file needs for this trait (an import, say).
    pub impl_dependencies: String,
    /// The signature of each method, up to its body.
    pub sig: Vec<String>,
    /// The name of each method.
    pub fn_name: Vec<String>,
    /// The arguments each method passes on.
    pub args: Vec<String>,
}

pub struct CallFnV {
    pub impl_dependencies: Seq<char>,
    pub sig: Seq<Seq<char>>,
    pub fn_name: Seq<Seq<char>>,
    pub args: Seq<Seq<char>>,
}

impl DeepView for CallFn {
    type V = CallFnV;

    open spec fn deep_view(&self) -> CallFnV {
        CallFnV {
            impl_dependencies: self.impl_dependencies@,
            sig: views(self.sig@),
            fn_name: views(self.fn_name@),
            args: views(self.args@),
        }
    }
}

/// What the documentation of the API declares: how to forward each trait, which
/// types are opaque, and which are boxed.
#[derive(Debug, Clone)]
pub struct DocSignatures {
    pub trait_sig_pool: NamePool<CallFn>,
    pub opaque_set: Vec<String>,
    pub add_box_set: Vec<String>,
}

/// The forwarding of each trait, in the order of the pool.
pub open spec fn doc_calls(es: Seq<(String, CallFn)>) -> Seq<CallFnV> {
    es.map_values(|e: (String, CallFn)| e.1.deep_view())
}

/// Every method of the forwarding has a name and arguments.
pub open spec fn call_ready(c: CallFnV) -> bool {
    c.fn_name.len() >= c.sig.len() && c.args.len() >= c.sig.len()
}

/// Every trait of every bound has a forwarding with a name and arguments for each method.
pub open spec fn doc_covers(
    sigs: Map<Seq<char>, CallFnV>,
    pool: Seq<(Seq<Seq<char>>, Seq<Seq<char>>)>,
) -> bool {
    forall|i: int, j: int|
        0 <= i < pool.len() && 0 <= j < pool[i].0.len() ==> sigs.contains_key(
            #[trigger] pool[i].0[j],
        ) && call_ready(sigs[pool[i].0[j]])
}

// ------------------------------------------------------------------------------------
// the text of the bound file
// ------------------------------------------------------------------------------------
/// `use crate::{api}::*;` and a newline.
pub open spec fn use_line(api: Seq<char>) -> Seq<char> {
    "use crate::"@ + api + "::*;\n"@
}

/// The import of each API module.
pub open spec fn use_lines(apis: Seq<Seq<char>>) -> Seq<char> {
    concat_seqs(apis.map_values(|a: Seq<char>| use_line(a)))
}

/// The import of `RustOpaque`, where some type is opaque.
pub open spec fn opaque_import(opaque: Seq<Seq<char>>) -> Seq<char> {
    if opaque.len() > 0 {
        "use flutter_rust_bridge::RustOpaque;\n"@
    } else {
        Seq::<char>::empty()
    }
}

/// The line each trait's forwarding needs, one per line.
pub open spec fn dependency_lines(calls: Seq<CallFnV>) -> Seq<char> {
    concat_seqs(calls.map_values(|c: CallFnV| c.impl_dependencies + "\n"@))
}

/// The type a variant holds: the type itself, or it wrapped in `RustOpaque` or `Box`.
pub open spec fn variant_type(s: Seq<char>, opaque: Seq<Seq<char>>, boxes: Seq<Seq<char>>) -> Seq<
    char,
> {
    if opaque.contains(s) {
        "RustOpaque<"@ + s + ">"@
    } else if boxes.contains(s) {
        "Box<"@ + s + ">"@
    } else {
        s
    }
}

/// `    {s}({type}),` and a newline.
pub open spec fn variant_line(s: Seq<char>, opaque: Seq<Seq<char>>, boxes: Seq<Seq<char>>) -> Seq<
    char,
> {
    "    "@ + s + "("@ + variant_type(s, opaque, boxes) + "),\n"@
}

/// The enum of a bound: one variant per implementing type.
pub open spec fn enum_decl(
    k: Seq<Seq<char>>,
    v: Seq<Seq<char>>,
    opaque: Seq<Seq<char>>,
    boxes: Seq<Seq<char>>,
) -> Seq<char> {
    "pub enum "@ + concat_seqs(k) + "Enum {\n"@ + concat_seqs(
        v.map_values(|s: Seq<char>| variant_line(s, opaque, boxes)),
    ) + "}\n"@
}

/// The name of a bound's enum: its trait names run together, then `Enum`.
pub open spec fn enum_name(k: Seq<Seq<char>>) -> Seq<char> {
    concat_seqs(k) + "Enum"@
}

/// The arm that forwards a call to variant `sub`.
pub open spec fn match_arm(enum_: Seq<char>, sub: Seq<char>, fname: Seq<char>, args: Seq<char>) -> Seq<
    char,
> {
    enum_ + "::"@ + sub + "(ref __field0) => __field0."@ + fname + "("@ + args + "),\n"@
}

/// A method of the enum: a match that forwards the call to the variant.
pub open spec fn method_body(
    enum_: Seq<char>,
    v: Seq<Seq<char>>,
    sig: Seq<char>,
    fname: Seq<char>,
    args: Seq<char>,
) -> Seq<char> {
    sig + "{\n"@ + "match *self {\n"@ + concat_seqs(
        v.map_values(|s: Seq<char>| match_arm(enum_, s, fname, args)),
    ) + "}\n"@ + "}\n"@
}

/// The methods of one trait for the enum.
pub open spec fn trait_methods(enum_: Seq<char>, v: Seq<Seq<char>>, c: CallFnV) -> Seq<char> {
    concat_seqs(
        Seq::new(c.sig.len(), |i: int| method_body(enum_, v, c.sig[i], c.fn_name[i], c.args[i])),
    )
}

/// `impl {trait} for {enum}` with its methods.
pub open spec fn trait_impl(t: Seq<char>, enum_: Seq<char>, v: Seq<Seq<char>>, c: CallFnV) -> Seq<
    char,
> {
    "impl "@ + t + " for "@ + enum_ + " {\n"@ + trait_methods(enum_, v, c) + "}\n"@
}

/// The impls of each trait of a bound for its enum.
pub open spec fn bound_impls(k: Seq<Seq<char>>, v: Seq<Seq<char>>, sigs: Map<Seq<char>, CallFnV>) -> Seq<
    char,
> {
    concat_seqs(k.map_values(|t: Seq<char>| trait_impl(t, enum_name(k), v, sigs[t])))
}

/// The whole bound file: the imports, the enums, then their trait impls.
pub open spec fn impl_file(
    apis: Seq<Seq<char>>,
    opaque: Seq<Seq<char>>,
    boxes: Seq<Seq<char>>,
    calls: Seq<CallFnV>,
    sigs: Map<Seq<char>, CallFnV>,
    pool: Seq<(Seq<Seq<char>>, Seq<Seq<char>>)>,
) -> Seq<char> {
    use_lines(apis) + opaque_import(opaque) + dependency_lines(calls) + concat_seqs(
        pool.map_values(
            |e: (Seq<Seq<char>>, Seq<Seq<char>>)| enum_decl(e.0, e.1, opaque, boxes),
        ),
    ) + concat_seqs(
        pool.map_values(|e: (Seq<Seq<char>>, Seq<Seq<char>>)| bound_impls(e.0, e.1, sigs)),
    )
}

// ------------------------------------------------------------------------------------
// what the bound file holds
// ------------------------------------------------------------------------------------
/// The impl of trait `k[j]` for the enum of bound `i` occurs in the bound file.
proof fn lemma_trait_impl_in_file(
    apis: Seq<Seq<char>>,
    opaque: Seq<Seq<char>>,
    boxes: Seq<Seq<char>>,
    calls: Seq<CallFnV>,
    sigs: Map<Seq<char>, CallFnV>,
    pool: Seq<(Seq<Seq<char>>, Seq<Seq<char>>)>,
    i: int,
    j: int,
)
    requires
        0 <= i < pool.len(),
        0 <= j < pool[i].0.len(),
    ensures
        contains_seq(
            impl_file(apis, opaque, boxes, calls, sigs, pool),
            trait_impl(pool[i].0[j], enum_name(pool[i].0), pool[i].1, sigs[pool[i].0[j]]),
        ),
{
    let k = pool[i].0;
    let v = pool[i].1;
    let t = k[j];
    let ti = trait_impl(t, enum_name(k), v, sigs[t]);
    let fk = |u: Seq<char>| trait_impl(u, enum_name(k), v, sigs[u]);
    assert(k.map_values(fk)[j] == ti);
    lemma_concat_contains(k.map_values(fk), j);
    let bi = bound_impls(k, v, sigs);
    let fi = |e: (Seq<Seq<char>>, Seq<Seq<char>>)| bound_impls(e.0, e.1, sigs);
    let fe = |e: (Seq<Seq<char>>, Seq<Seq<char>>)| enum_decl(e.0, e.1, opaque, boxes);
    assert(pool.map_values(fi)[i] == bi);
    lemma_concat_contains(pool.map_values(fi), i);
    let impls = concat_seqs(pool.map_values(fi));
    let head = use_lines(apis) + opaque_import(opaque) + dependency_lines(calls) + concat_seqs(
        pool.map_values(fe),
    );
    lemma_contains_middle(head, impls, Seq::<char>::empty());
    assert(head + impls + Seq::<char>::empty() =~= impl_file(apis, opaque, boxes, calls, sigs, pool));
    lemma_contains_trans(impl_file(apis, opaque, boxes, calls, sigs, pool), impls, bi);
    lemma_contains_trans(impl_file(apis, opaque, boxes, calls, sigs, pool), bi, ti);
}

/// **Every trait of every bound is implemented for the bound's enum.** For each bound
/// of the pool and each of its traits `t`, the bound file holds the line
/// `impl {t} for {enum} {`, where the enum's name is the bound's trait names run
/// together, then `Enum`.
pub proof fn lemma_bound_file_implements_every_trait(
    apis: Seq<Seq<char>>,
    opaque: Seq<Seq<char>>,
    boxes: Seq<Seq<char>>,
    calls: Seq<CallFnV>,
    sigs: Map<Seq<char>, CallFnV>,
    pool: Seq<(Seq<Seq<char>>, Seq<Seq<char>>)>,
    i: int,
    j: int,
)
    requires
        0 <= i < pool.len(),
        0 <= j < pool[i].0.len(),
    ensures
        contains_seq(
            impl_file(apis, opaque, boxes, calls, sigs, pool),
            "impl "@ + pool[i].0[j] + " for "@ + concat_seqs(pool[i].0) + "Enum {\n"@,
        ),
{
    let k = pool[i].0;
    let t = k[j];
    let ti = trait_impl(t, enum_name(k), pool[i].1, sigs[t]);
    lemma_trait_impl_in_file(apis, opaque, boxes, calls, sigs, pool, i, j);
    reveal_strlit("Enum {\n");
    reveal_strlit("Enum");
    reveal_strlit(" {\n");
    let header = "impl "@ + t + " for "@ + concat_seqs(k) + "Enum {\n"@;
    let rest = trait_methods(enum_name(k), pool[i].1, sigs[t]) + "}\n"@;
    assert(ti =~= Seq::<char>::empty() + header + rest);
    lemma_contains_middle(Seq::<char>::empty(), header, rest);
    lemma_contains_trans(impl_file(apis, opaque, boxes, calls, sigs, pool), ti, header);
}

/// **Each method of a trait is forwarded to each variant.** Where the documentation
/// describes every trait of every bound, for each bound, each of its traits `t`,
/// and each method of `t`, the bound file holds the method's signature opening a
/// `match *self`, and, for each type of the bound, the arm that forwards the call to
/// that type's variant: `{enum}::{type}(ref __field0) => __field0.{name}({args}),`.
pub proof fn lemma_bound_file_forwards_every_method(
    apis: Seq<Seq<char>>,
    opaque: Seq<Seq<char>>,
    boxes: Seq<Seq<char>>,
    calls: Seq<CallFnV>,
    sigs: Map<Seq<char>, CallFnV>,
    pool: Seq<(Seq<Seq<char>>, Seq<Seq<char>>)>,
    i: int,
    j: int,
    idx: int,
    sub: int,
)
    requires
        doc_covers(sigs, pool),
        0 <= i < pool.len(),
        0 <= j < pool[i].0.len(),
        0 <= idx < sigs[pool[i].0[j]].sig.len(),
    ensures
        contains_seq(
            impl_file(apis, opaque, boxes, calls, sigs, pool),
            sigs[pool[i].0[j]].sig[idx] + "{\n"@ + "match *self {\n"@,
        ),
        0 <= sub < pool[i].1.len() ==> contains_seq(
            impl_file(apis, opaque, boxes, calls, sigs, pool),
            concat_seqs(pool[i].0) + "Enum"@ + "::"@ + pool[i].1[sub]
                + "(ref __field0) => __field0."@ + sigs[pool[i].0[j]].fn_name[idx] + "("@
                + sigs[pool[i].0[j]].args[idx] + "),\n"@,
        ),
{
    let file = impl_file(apis, opaque, boxes, calls, sigs, pool);
    let k = pool[i].0;
    let v = pool[i].1;
    let t = k[j];
    let c = sigs[t];
    let e = enum_name(k);
    lemma_trait_impl_in_file(apis, opaque, boxes, calls, sigs, pool, i, j);
    lemma_method_in_trait_impl(t, e, v, c, idx);
    let mb = method_body(e, v, c.sig[idx], c.fn_name[idx], c.args[idx]);
    lemma_contains_trans(file, trait_impl(t, e, v, c), mb);
    lemma_method_parts(e, v, c.sig[idx], c.fn_name[idx], c.args[idx], sub);
    lemma_contains_trans(file, mb, c.sig[idx] + "{\n"@ + "match *self {\n"@);
    if 0 <= sub < v.len() {
        lemma_contains_trans(file, mb, match_arm(e, v[sub], c.fn_name[idx], c.args[idx]));
    }
}

/// What the bound file holds, for every bound, trait, method and type at once: the
/// impl of each trait for the bound's enum, each method opening a `match *self`, and
/// each arm forwarding to a variant.
pub proof fn lemma_bound_file_contents(
    apis: Seq<Seq<char>>,
    opaque: Seq<Seq<char>>,
    boxes: Seq<Seq<char>>,
    calls: Seq<CallFnV>,
    sigs: Map<Seq<char>, CallFnV>,
    pool: Seq<(Seq<Seq<char>>, Seq<Seq<char>>)>,
)
    requires
        doc_covers(sigs, pool),
    ensures
        forall|i: int, j: int|
            0 <= i < pool.len() && 0 <= j < pool[i].0.len() ==> contains_seq(
                impl_file(apis, opaque, boxes, calls, sigs, pool),
                "impl "@ + #[trigger] pool[i].0[j] + " for "@ + concat_seqs(pool[i].0) + "Enum {\n"@,
            ),
        forall|i: int, j: int, idx: int|
            #![trigger pool[i].0[j], sigs[pool[i].0[j]].sig[idx]]
            0 <= i < pool.len() && 0 <= j < pool[i].0.len() && 0 <= idx < sigs[pool[i].0[j]].sig.len()
                ==> contains_seq(
                impl_file(apis, opaque, boxes, calls, sigs, pool),
                sigs[pool[i].0[j]].sig[idx] + "{\n"@ + "match *self {\n"@,
            ),
        forall|i: int, j: int, idx: int, sub: int|
            #![trigger pool[i].1[sub], sigs[pool[i].0[j]].fn_name[idx]]
            0 <= i < pool.len() && 0 <= j < pool[i].0.len() && 0 <= idx < sigs[pool[i].0[j]].sig.len()
                && 0 <= sub < pool[i].1.len() ==> contains_seq(
                impl_file(apis, opaque, boxes, calls, sigs, pool),
                concat_seqs(pool[i].0) + "Enum"@ + "::"@ + pool[i].1[sub]
                    + "(ref __field0) => __field0."@ + sigs[pool[i].0[j]].fn_name[idx] + "("@
                    + sigs[pool[i].0[j]].args[idx] + "),\n"@,
            ),
{
    assert forall|i: int, j: int|
        0 <= i < pool.len() && 0 <= j < pool[i].0.len() implies contains_seq(
        impl_file(apis, opaque, boxes, calls, sigs, pool),
        "impl "@ + #[trigger] pool[i].0[j] + " for "@ + concat_seqs(pool[i].0) + "Enum {\n"@,
    ) by {
        lemma_bound_file_implements_every_trait(apis, opaque, boxes, calls, sigs, pool, i, j);
    }
    assert forall|i: int, j: int, idx: int|
        #![trigger pool[i].0[j], sigs[pool[i].0[j]].sig[idx]]
        0 <= i < pool.len() && 0 <= j < pool[i].0.len() && 0 <= idx < sigs[pool[i].0[j]].sig.len()
            implies contains_seq(
        impl_file(apis, opaque, boxes, calls, sigs, pool),
        sigs[pool[i].0[j]].sig[idx] + "{\n"@ + "match *self {\n"@,
    ) by {
        lemma_bound_file_forwards_every_method(apis, opaque, boxes, calls, sigs, pool, i, j, idx, 0);
    }
    assert forall|i: int, j: int, idx: int, sub: int|
        #![trigger pool[i].1[sub], sigs[pool[i].0[j]].fn_name[idx]]
        0 <= i < pool.len() && 0 <= j < pool[i].0.len() && 0 <= idx < sigs[pool[i].0[j]].sig.len()
            && 0 <= sub < pool[i].1.len() implies contains_seq(
        impl_file(apis, opaque, boxes, calls, sigs, pool),
        concat_seqs(pool[i].0) + "Enum"@ + "::"@ + pool[i].1[sub] + "(ref __field0) => __field0."@
            + sigs[pool[i].0[j]].fn_name[idx] + "("@ + sigs[pool[i].0[j]].args[idx] + "),\n"@,
    ) by {
        lemma_bound_file_forwards_every_method(apis, opaque, boxes, calls, sigs, pool, i, j, idx, sub);
    }
}

proof fn lemma_method_in_trait_impl(t: Seq<char>, e: Seq<char>, v: Seq<Seq<char>>, c: CallFnV, idx: int)
    requires
        0 <= idx < c.sig.len(),
    ensures
        contains_seq(
            trait_impl(t, e, v, c),
            method_body(e, v, c.sig[idx], c.fn_name[idx], c.args[idx]),
        ),
{
    let methods = trait_methods(e, v, c);
    lemma_contains_middle("impl "@ + t + " for "@ + e + " {\n"@, methods, "}\n"@);
    let ms = Seq::new(c.sig.len(), |n: int| method_body(e, v, c.sig[n], c.fn_name[n], c.args[n]));
    assert(ms[idx] == method_body(e, v, c.sig[idx], c.fn_name[idx], c.args[idx]));
    lemma_concat_contains(ms, idx);
    lemma_contains_trans(trait_impl(t, e, v, c), methods, ms[idx]);
}

proof fn lemma_method_parts(
    e: Seq<char>,
    v: Seq<Seq<char>>,
    sig: Seq<char>,
    fname: Seq<char>,
    args: Seq<char>,
    sub: int,
)
    ensures
        contains_seq(method_body(e, v, sig, fname, args), sig + "{\n"@ + "match *self {\n"@),
        0 <= sub < v.len() ==> contains_seq(
            method_body(e, v, sig, fname, args),
            match_arm(e, v[sub], fname, args),
        ),
{
    let mb = method_body(e, v, sig, fname, args);
    let open_ = sig + "{\n"@ + "match *self {\n"@;
    let fa = |x: Seq<char>| match_arm(e, x, fname, args);
    let arms = concat_seqs(v.map_values(fa));
    let close = "}\n"@ + "}\n"@;
    assert(mb =~= Seq::<char>::empty() + open_ + (arms + close));
    lemma_contains_middle(Seq::<char>::empty(), open_, arms + close);
    assert(mb =~= open_ + arms + close);
    lemma_contains_middle(open_, arms, close);
    if 0 <= sub < v.len() {
        assert(v.map_values(fa)[sub] == match_arm(e, v[sub], fname, args));
        lemma_concat_contains(v.map_values(fa), sub);
        lemma_contains_trans(mb, arms, match_arm(e, v[sub], fname, args));
    }
}

// ------------------------------------------------------------------------------------
// building the text
// ------------------------------------------------------------------------------------
fn use_lines_text(apis: &Vec<String>) -> (r: String)
    ensures
        r@ == use_lines(views(apis@)),
{
    let ghost f = |a: Seq<char>| use_line(a);
    let ghost parts = views(apis@).map_values(f);
    let mut r = String::new();
    let mut i: usize = 0;
    while i < apis.len()
        invariant
            i <= apis.len(),
            parts == views(apis@).map_values(f),
            f == (|a: Seq<char>| use_line(a)),
            r@ == concat_seqs(parts.take(i as int)),
        decreases apis.len() - i,
    {
        proof {
            assert(parts.take(i + 1) =~= parts.take(i as int).push(use_line(apis@[i as int]@)));
            lemma_concat_push(parts.take(i as int), use_line(apis@[i as int]@));
        }
        r.append("use crate::");
        r.append(apis[i].as_str());
        r.append("::*;\n");
        i = i + 1;
    }
    assert(parts.take(i as int) =~= parts);
    r
}

fn dependency_text(es: &Vec<(String, CallFn)>) -> (r: String)
    ensures
        r@ == dependency_lines(doc_calls(es@)),
{
    let ghost f = |c: CallFnV| c.impl_dependencies + "\n"@;
    let ghost parts = doc_calls(es@).map_values(f);
    let mut r = String::new();
    let mut i: usize = 0;
    while i < es.len()
        invariant
            i <= es.len(),
            parts == doc_calls(es@).map_values(f),
            f == (|c: CallFnV| c.impl_dependencies + "\n"@),
            r@ == concat_seqs(parts.take(i as int)),
        decreases es.len() - i,
    {
        proof {
            let x = es@[i as int].1.impl_dependencies@ + "\n"@;
            assert(parts.take(i + 1) =~= parts.take(i as int).push(x));
            lemma_concat_push(parts.take(i as int), x);
        }
        r.append(es[i].1.impl_dependencies.as_str());
        r.append("\n");
        i = i + 1;
    }
    assert(parts.take(i as int) =~= parts);
    r
}

fn enum_decl_text(k: &Vec<String>, v: &Vec<String>, opaque: &Vec<String>, boxes: &Vec<String>) -> (r:
    String)
    ensures
        r@ == enum_decl(views(k@), views(v@), views(opaque@), views(boxes@)),
{
    let ghost ov = views(opaque@);
    let ghost bv = views(boxes@);
    let ghost f = |s: Seq<char>| variant_line(s, ov, bv);
    let ghost parts = views(v@).map_values(f);
    let mut body = String::new();
    let mut i: usize = 0;
    while i < v.len()
        invariant
            i <= v.len(),
            ov == views(opaque@),
            bv == views(boxes@),
            parts == views(v@).map_values(f),
            f == (|s: Seq<char>| variant_line(s, ov, bv)),
            body@ == concat_seqs(parts.take(i as int)),
        decreases v.len() - i,
    {
        let s = &v[i];
        proof {
            assert(parts.take(i + 1) =~= parts.take(i as int).push(variant_line(s@, ov, bv)));
            lemma_concat_push(parts.take(i as int), variant_line(s@, ov, bv));
        }
        body.append("    ");
        body.append(s.as_str());
        body.append("(");
        if contains_string(opaque, s) {
            body.append("RustOpaque<");
            body.append(s.as_str());
            body.append(">");
        } else if contains_string(boxes, s) {
            body.append("Box<");
            body.append(s.as_str());
            body.append(">");
        } else {
            body.append(s.as_str());
        }
        body.append("),\n");
        i = i + 1;
    }
    assert(parts.take(i as int) =~= parts);
    let name = crate::text::concat_strings(k);
    let mut r = String::new();
    r.append("pub enum ");
    r.append(name.as_str());
    r.append("Enum {\n");
    r.append(body.as_str());
    r.append("}\n");
    r
}

fn method_text(enum_: &String, v: &Vec<String>, sig: &String, fname: &String, args: &String) -> (r:
    String)
    ensures
        r@ == method_body(enum_@, views(v@), sig@, fname@, args@),
{
    let ghost f = |s: Seq<char>| match_arm(enum_@, s, fname@, args@);
    let ghost parts = views(v@).map_values(f);
    let mut arms = String::new();
    let mut i: usize = 0;
    while i < v.len()
        invariant
            i <= v.len(),
            parts == views(v@).map_values(f),
            f == (|s: Seq<char>| match_arm(enum_@, s, fname@, args@)),
            arms@ == concat_seqs(parts.take(i as int)),
        decreases v.len() - i,
    {
        proof {
            let x = match_arm(enum_@, v@[i as int]@, fname@, args@);
            assert(parts.take(i + 1) =~= parts.take(i as int).push(x));
            lemma_concat_push(parts.take(i as int), x);
        }
        arms.append(enum_.as_str());
        arms.append("::");
        arms.append(v[i].as_str());
        arms.append("(ref __field0) => __field0.");
        arms.append(fname.as_str());
        arms.append("(");
        arms.append(args.as_str());
        arms.append("),\n");
        i = i + 1;
    }
    assert(parts.take(i as int) =~= parts);
    let mut r = String::new();
    r.append(sig.as_str());
    r.append("{\n");
    r.append("match *self {\n");
    r.append(arms.as_str());
    r.append("}\n");
    r.append("}\n");
    r
}

fn trait_impl_text(t: &String, enum_: &String, v: &Vec<String>, c: &CallFn) -> (r: String)
    requires
        call_ready(c.deep_view()),
    ensures
        r@ == trait_impl(t@, enum_@, views(v@), c.deep_view()),
{
    let ghost cv = c.deep_view();
    let ghost parts = Seq::new(
        cv.sig.len(),
        |i: int| method_body(enum_@, views(v@), cv.sig[i], cv.fn_name[i], cv.args[i]),
    );
    let mut methods = String::new();
    let mut idx: usize = 0;
    while idx < c.sig.len()
        invariant
            idx <= c.sig@.len(),
            cv == c.deep_view(),
            call_ready(cv),
            parts == Seq::new(
                cv.sig.len(),
                |i: int| method_body(enum_@, views(v@), cv.sig[i], cv.fn_name[i], cv.args[i]),
            ),
            methods@ == concat_seqs(parts.take(idx as int)),
        decreases c.sig@.len() - idx,
    {
        let m = method_text(enum_, v, &c.sig[idx], &c.fn_name[idx], &c.args[idx]);
        proof {
            assert(parts.take(idx + 1) =~= parts.take(idx as int).push(m@));
            lemma_concat_push(parts.take(idx as int), m@);
        }
        methods.append(m.as_str());
        idx = idx + 1;
    }
    assert(parts.take(idx as int) =~= parts);
    let mut r = String::new();
    r.append("impl ");
    r.append(t.as_str());
    r.append(" for ");
    r.append(enum_.as_str());
    r.append(" {\n");
    r.append(methods.as_str());
    r.append("}\n");
    r
}

/// Every trait among `k` has a forwarding with a name and arguments for each method.
pub open spec fn traits_covered(sigs: Map<Seq<char>, CallFnV>, k: Seq<Seq<char>>) -> bool {
    forall|j: int|
        0 <= j < k.len() ==> sigs.contains_key(#[trigger] k[j]) && call_ready(sigs[k[j]])
}

fn bound_impls_text(k: &Vec<String>, v: &Vec<String>, sigs: &NamePool<CallFn>) -> (r: String)
    requires
        sigs.wf(),
        traits_covered(sigs.map(), views(k@)),
    ensures
        r@ == bound_impls(views(k@), views(v@), sigs.map()),
{
    let mut enum_ = crate::text::concat_strings(k);
    enum_.append("Enum");
    let ghost f = |t: Seq<char>| trait_impl(t, enum_name(views(k@)), views(v@), sigs.map()[t]);
    let ghost parts = views(k@).map_values(f);
    let mut r = String::new();
    let mut j: usize = 0;
    while j < k.len()
        invariant
            j <= k.len(),
            sigs.wf(),
            traits_covered(sigs.map(), views(k@)),
            enum_@ == enum_name(views(k@)),
            parts == views(k@).map_values(f),
            f == (|t: Seq<char>| trait_impl(t, enum_name(views(k@)), views(v@), sigs.map()[t])),
            r@ == concat_seqs(parts.take(j as int)),
        decreases k.len() - j,
    {
        let t = &k[j];
        assert(views(k@)[j as int] == t@);
        let c = sigs.get(t).unwrap();
        let piece = trait_impl_text(t, &enum_, v, c);
        proof {
            assert(parts.take(j + 1) =~= parts.take(j as int).push(piece@));
            lemma_concat_push(parts.take(j as int), piece@);
        }
        r.append(piece.as_str());
        j = j + 1;
    }
    assert(parts.take(j as int) =~= parts);
    r
}

impl OptArray {
    /// The API names of the inputs, each once.
    pub fn get_api_paths(&self) -> (r: Vec<String>)
        ensures
            views(r@) == api_paths(opts_view(self.configs@)),
    {
        self.configs.get_api_paths()
    }

    /// The text of the bound file: an import of each API module, the lines the
    /// forwardings need, then for each bound an enum with a variant per implementing
    /// type and, for each of its traits, an impl that forwards each method to the
    /// variant.
    pub fn generate_impl_file(&self, doc: &DocSignatures) -> (r: String)
        requires
            doc.trait_sig_pool.wf(),
            doc_covers(doc.trait_sig_pool.map(), self.bound_oject_pool@),
        ensures
            r@ == impl_file(
                api_paths(opts_view(self.configs@)),
                views(doc.opaque_set@),
                views(doc.add_box_set@),
                doc_calls(doc.trait_sig_pool.entries@),
                doc.trait_sig_pool.map(),
                self.bound_oject_pool@,
            ),
            forall|i: int, j: int|
                0 <= i < self.bound_oject_pool@.len() && 0 <= j < self.bound_oject_pool@[i].0.len()
                    ==> contains_seq(
                    r@,
                    "impl "@ + #[trigger] self.bound_oject_pool@[i].0[j] + " for "@ + concat_seqs(
                        self.bound_oject_pool@[i].0,
                    ) + "Enum {\n"@,
                ),
            forall|i: int, j: int, idx: int|
                #![trigger self.bound_oject_pool@[i].0[j], doc.trait_sig_pool.map()[self.bound_oject_pool@[i].0[j]].sig[idx]]
                0 <= i < self.bound_oject_pool@.len() && 0 <= j < self.bound_oject_pool@[i].0.len() && 0 <= idx < doc.trait_sig_pool.map()[self.bound_oject_pool@[i].0[j]].sig.len()
                    ==> contains_seq(r@, doc.trait_sig_pool.map()[self.bound_oject_pool@[i].0[j]].sig[idx] + "{\n"@ + "match *self {\n"@),
            forall|i: int, j: int, idx: int, sub: int|
                #![trigger self.bound_oject_pool@[i].1[sub], doc.trait_sig_pool.map()[self.bound_oject_pool@[i].0[j]].fn_name[idx]]
                0 <= i < self.bound_oject_pool@.len() && 0 <= j < self.bound_oject_pool@[i].0.len() && 0 <= idx < doc.trait_sig_pool.map()[self.bound_oject_pool@[i].0[j]].sig.len() && 0
                    <= sub < self.bound_oject_pool@[i].1.len() ==> contains_seq(
                    r@,
                    concat_seqs(self.bound_oject_pool@[i].0) + "Enum"@ + "::"@ + self.bound_oject_pool@[i].1[sub]
                        + "(ref __field0) => __field0."@ + doc.trait_sig_pool.map()[self.bound_oject_pool@[i].0[j]].fn_name[idx] + "("@ + doc.trait_sig_pool.map()[self.bound_oject_pool@[i].0[j]].args[idx]
                        + "),\n"@,
                ),
    {
        let explicit_api_path = self.get_api_paths();
        let es = &self.bound_oject_pool.entries;
        let ghost pv = self.bound_oject_pool@;
        let ghost ov = views(doc.opaque_set@);
        let ghost bv = views(doc.add_box_set@);
        let ghost sigs = doc.trait_sig_pool.map();
        let mut lines = use_lines_text(&explicit_api_path);
        if doc.opaque_set.len() > 0 {
            lines.append("use flutter_rust_bridge::RustOpaque;\n");
        } else {
            assert(lines@ + opaque_import(ov) =~= lines@);
        }
        let deps = dependency_text(&doc.trait_sig_pool.entries);
        lines.append(deps.as_str());
        let ghost fe = |e: (Seq<Seq<char>>, Seq<Seq<char>>)| enum_decl(e.0, e.1, ov, bv);
        let ghost decls = pv.map_values(fe);
        let mut enums = String::new();
        let mut i: usize = 0;
        while i < es.len()
            invariant
                i <= es.len(),
                es == self.bound_oject_pool.entries,
                pv == self.bound_oject_pool@,
                ov == views(doc.opaque_set@),
                bv == views(doc.add_box_set@),
                fe == (|e: (Seq<Seq<char>>, Seq<Seq<char>>)| enum_decl(e.0, e.1, ov, bv)),
                decls == pv.map_values(fe),
                enums@ == concat_seqs(decls.take(i as int)),
            decreases es.len() - i,
        {
            let d = enum_decl_text(&es[i].0, &es[i].1, &doc.opaque_set, &doc.add_box_set);
            proof {
                assert(decls.take(i + 1) =~= decls.take(i as int).push(d@));
                lemma_concat_push(decls.take(i as int), d@);
            }
            enums.append(d.as_str());
            i = i + 1;
        }
        assert(decls.take(i as int) =~= decls);
        let ghost fi = |e: (Seq<Seq<char>>, Seq<Seq<char>>)| bound_impls(e.0, e.1, sigs);
        let ghost impls = pv.map_values(fi);
        let mut impl_text = String::new();
        let mut i: usize = 0;
        while i < es.len()
            invariant
                i <= es.len(),
                es == self.bound_oject_pool.entries,
                pv == self.bound_oject_pool@,
                doc.trait_sig_pool.wf(),
                sigs == doc.trait_sig_pool.map(),
                doc_covers(sigs, pv),
                fi == (|e: (Seq<Seq<char>>, Seq<Seq<char>>)| bound_impls(e.0, e.1, sigs)),
                impls == pv.map_values(fi),
                impl_text@ == concat_seqs(impls.take(i as int)),
            decreases es.len() - i,
        {
            assert(traits_covered(sigs, views(es@[i as int].0@))) by {
                assert forall|j: int| 0 <= j < views(es@[i as int].0@).len() implies sigs.contains_key(
                    #[trigger] views(es@[i as int].0@)[j],
                ) && call_ready(sigs[views(es@[i as int].0@)[j]]) by {
                    assert(pv[i as int].0 == views(es@[i as int].0@));
                    assert(pv[i as int].0[j] == views(es@[i as int].0@)[j]);
                }
            }
            let b = bound_impls_text(&es[i].0, &es[i].1, &doc.trait_sig_pool);
            proof {
                assert(impls.take(i + 1) =~= impls.take(i as int).push(b@));
                lemma_concat_push(impls.take(i as int), b@);
            }
            impl_text.append(b.as_str());
            i = i + 1;
        }
        assert(impls.take(i as int) =~= impls);
        lines.append(enums.as_str());
        lines.append(impl_text.as_str());
        proof {
            lemma_bound_file_contents(
                api_paths(opts_view(self.configs@)),
                views(doc.opaque_set@),
                views(doc.add_box_set@),
                doc_calls(doc.trait_sig_pool.entries@),
                doc.trait_sig_pool.map(),
                self.bound_oject_pool@,
            );
        }
        lines
    }
}

/// Whether no two entries of the pool have the same name.
fn keys_distinct_check(es: &Vec<(String, CallFn)>) -> (r: bool)
    ensures
        r == crate::pool::keys_distinct(es@),
{
    let mut j: usize = 0;
    while j < es.len()
        invariant
            j <= es.len(),
            forall|a: int, b: int| 0 <= a < b < j ==> (#[trigger] es@[a]).0@ != (#[trigger] es@[b]).0@,
        decreases es.len() - j,
    {
        let mut i: usize = 0;
        while i < j
            invariant
                i <= j < es.len(),
                forall|a: int, b: int|
                    0 <= a < b < j ==> (#[trigger] es@[a]).0@ != (#[trigger] es@[b]).0@,
                forall|a: int| 0 <= a < i ==> (#[trigger] es@[a]).0@ != es@[j as int].0@,
            decreases j - i,
        {
            if es[i].0 == es[j].0 {
                return false;
            }
            i = i + 1;
        }
        j = j + 1;
    }
    true
}

impl OptArray {
    /// Whether the documentation can be used for the bound file: each trait is
    /// described once, and every trait of every bound is described, with a name and
    /// arguments for each method.
    pub fn doc_covers_check(&self, doc: &DocSignatures) -> (r: bool)
        ensures
            r == (doc.trait_sig_pool.wf() && doc_covers(
                doc.trait_sig_pool.map(),
                self.bound_oject_pool@,
            )),
    {
        if !keys_distinct_check(&doc.trait_sig_pool.entries) {
            return false;
        }
        let es = &self.bound_oject_pool.entries;
        let ghost pv = self.bound_oject_pool@;
        let ghost sigs = doc.trait_sig_pool.map();
        let mut i: usize = 0;
        while i < es.len()
            invariant
                i <= es.len(),
                es == self.bound_oject_pool.entries,
                pv == self.bound_oject_pool@,
                pv.len() == es@.len(),
                doc.trait_sig_pool.wf(),
                sigs == doc.trait_sig_pool.map(),
                forall|a: int, b: int|
                    0 <= a < i && 0 <= b < pv[a].0.len() ==> sigs.contains_key(#[trigger] pv[a].0[b])
                        && call_ready(sigs[pv[a].0[b]]),
            decreases es.len() - i,
        {
            let k = &es[i].0;
            assert(pv[i as int].0 == views(k@));
            let mut j: usize = 0;
            while j < k.len()
                invariant
                    j <= k.len(),
                    i < es.len(),
                    k == es@[i as int].0,
                    pv == self.bound_oject_pool@,
                    pv.len() == es@.len(),
                    pv[i as int].0 == views(k@),
                    doc.trait_sig_pool.wf(),
                    sigs == doc.trait_sig_pool.map(),
                    forall|a: int, b: int|
                        0 <= a < i && 0 <= b < pv[a].0.len() ==> sigs.contains_key(
                            #[trigger] pv[a].0[b],
                        ) && call_ready(sigs[pv[a].0[b]]),
                    forall|b: int|
                        0 <= b < j ==> sigs.contains_key(#[trigger] pv[i as int].0[b]) && call_ready(
                            sigs[pv[i as int].0[b]],
                        ),
                decreases k.len() - j,
            {
                assert(pv[i as int].0[j as int] == k@[j as int]@);
                match doc.trait_sig_pool.get(&k[j]) {
                    Some(c) => {
                        if c.fn_name.len() < c.sig.len() || c.args.len() < c.sig.len() {
                            assert(!call_ready(sigs[pv[i as int].0[j as int]]));
                            assert(!doc_covers(sigs, pv));
                            return false;
                        }
                    },
                    None => {
                        assert(!sigs.contains_key(pv[i as int].0[j as int]));
                        assert(!doc_covers(sigs, pv));
                        return false;
                    },
                }
                j = j + 1;
            }
            i = i + 1;
        }
        true
    }
}

} // verus!
