//! The translated API files: each `impl A + B` parameter type replaced by the enum
//! generated for the bound, and the root file's declarations of the new modules.
use vstd::prelude::*;
use crate::case::{WordCase, cased, to_case};
use crate::opt_array::OptArray;
use crate::opts::translation_name;
use crate::text::{
    contains_seq, copy_strings, join_seq, join_strs, lemma_replace_absent, occurs_at, replace_seq,
    replace_str, views,
};

verus! {

broadcast use vstd::std_specs::vec::group_vec_axioms;

// ------------------------------------------------------------------------------------
// the order in which bounds are replaced
// ------------------------------------------------------------------------------------
/// `s` with `x` put after the last element that is no shorter than `x`, counting from
/// the end.
pub open spec fn len_insert<A>(s: Seq<Seq<A>>, x: Seq<A>) -> Seq<Seq<A>>
    decreases s.len(),
{
    if s.len() == 0 {
        seq![x]
    } else if s.last().len() >= x.len() {
        s.push(x)
    } else {
        len_insert(s.drop_last(), x).push(s.last())
    }
}

/// The elements of `s` from the longest to the shortest; those of one length keep
/// their order.
pub open spec fn len_sort<A>(s: Seq<Seq<A>>) -> Seq<Seq<A>>
    decreases s.len(),
{
    if s.len() == 0 {
        s
    } else {
        len_insert(len_sort(s.drop_last()), s.last())
    }
}

/// Inserting at the position after which every element is shorter than `x`.
pub proof fn lemma_len_insert_at<A>(s: Seq<Seq<A>>, x: Seq<A>, p: int)
    requires
        0 <= p <= s.len(),
        forall|k: int| p <= k < s.len() ==> (#[trigger] s[k]).len() < x.len(),
        p == 0 || s[p - 1].len() >= x.len(),
    ensures
        len_insert(s, x) == s.insert(p, x),
    decreases s.len(),
{
    if s.len() == 0 {
        assert(s.insert(p, x) =~= seq![x]);
    } else if s.last().len() >= x.len() {
        assert(p == s.len());
        assert(s.insert(p, x) =~= s.push(x));
    } else {
        let d = s.drop_last();
        assert forall|k: int| p <= k < d.len() implies (#[trigger] d[k]).len() < x.len() by {
            assert(d[k] == s[k]);
        }
        if p > 0 {
            assert(d[p - 1] == s[p - 1]);
        }
        lemma_len_insert_at(d, x, p);
        assert(d.insert(p, x).push(s.last()) =~= s.insert(p, x));
    }
}

/// The views of a sequence of trait-name lists.
pub open spec fn keys_view(ks: Seq<Vec<String>>) -> Seq<Seq<Seq<char>>> {
    ks.map_values(|k: Vec<String>| views(k@))
}

/// Sorts the lists from the longest to the shortest, keeping the order of lists of one
/// length.
pub fn sort_by_len(keys: &Vec<Vec<String>>) -> (r: Vec<Vec<String>>)
    ensures
        keys_view(r@) == len_sort(keys_view(keys@)),
{
    let mut r: Vec<Vec<String>> = Vec::new();
    let mut i: usize = 0;
    assert(keys_view(keys@).take(0) =~= Seq::<Seq<Seq<char>>>::empty());
    while i < keys.len()
        invariant
            i <= keys.len(),
            keys_view(r@) == len_sort(keys_view(keys@).take(i as int)),
        decreases keys.len() - i,
    {
        let x = copy_strings(&keys[i]);
        let mut p: usize = r.len();
        while p > 0 && r[p - 1].len() < x.len()
            invariant
                p <= r.len(),
                forall|k: int| p <= k < r@.len() ==> (#[trigger] keys_view(r@)[k]).len() < views(
                    x@,
                ).len(),
            decreases p,
        {
            p = p - 1;
        }
        let ghost old_r = keys_view(r@);
        proof {
            if p > 0 {
                assert(old_r[p - 1].len() == r@[p - 1]@.len());
            }
        }
        r.insert(p, x);
        proof {
            lemma_len_insert_at(old_r, views(x@), p as int);
            assert(keys_view(r@) =~= old_r.insert(p as int, views(x@)));
            assert(keys_view(keys@).take(i + 1).drop_last() =~= keys_view(keys@).take(i as int));
            assert(keys_view(keys@).take(i + 1).last() == views(keys@[i as int]@));
        }
        i = i + 1;
    }
    assert(keys_view(keys@).take(i as int) =~= keys_view(keys@));
    r
}

// ------------------------------------------------------------------------------------
// replacing the bounds
// ------------------------------------------------------------------------------------
/// The parameter type a bound is written as: `: impl A + B`.
pub open spec fn bound_pattern(k: Seq<Seq<char>>) -> Seq<char> {
    ": impl "@ + join_seq(k, " + "@)
}

/// What the bound is replaced by, given its enum's name in Pascal case.
pub open spec fn bound_replacement(name: Seq<char>) -> Seq<char> {
    ": "@ + name + "Enum"@
}

/// The name a bound's enum is given before `Enum`: its trait names joined by `_`,
/// in Pascal case.
pub open spec fn pascal_name(k: Seq<Seq<char>>) -> Seq<char> {
    cased(join_seq(k, "_"@), WordCase::Pascal)
}

/// `src` with each bound's pattern replaced, bound by bound in order, by its
/// replacement built from the name given for it.
pub open spec fn replace_bounds(src: Seq<char>, ks: Seq<Seq<Seq<char>>>, names: Seq<Seq<char>>) -> Seq<
    char,
>
    decreases ks.len(),
{
    if ks.len() == 0 {
        src
    } else {
        replace_seq(
            replace_bounds(src, ks.drop_last(), names.drop_last()),
            bound_pattern(ks.last()),
            bound_replacement(names.last()),
        )
    }
}

/// The line the translated file ends with.
pub open spec fn bound_use_suffix() -> Seq<char> {
    "\npub use crate::bridge_generated_bound::*;"@
}

/// The translated API file: the bounds replaced from the one with the most traits to
/// the one with the fewest, so that a bound is never cut by a shorter one that it
/// starts with, each by its enum, then the import of the bound file.
pub open spec fn translated_source(keys: Seq<Seq<Seq<char>>>, src: Seq<char>) -> Seq<char> {
    replace_bounds(src, len_sort(keys), len_sort(keys).map_values(|k: Seq<Seq<char>>| pascal_name(k)))
        + bound_use_suffix()
}

/// `: impl A + B` for the bound with trait names `k`.
fn bound_pattern_text(k: &Vec<String>) -> (r: String)
    ensures
        r@ == bound_pattern(views(k@)),
        r@.len() > 0,
{
    proof {
        reveal_strlit(": impl ");
    }
    let joined = join_strs(k, " + ");
    let mut r = String::new();
    r.append(": impl ");
    r.append(joined.as_str());
    r
}

/// Replaces, in `source`, bound by bound in order, `: impl A + B` by
/// `: {name}Enum`, where `names` gives each bound's name.
pub fn replace_bounds_with(source: &str, keys: &Vec<Vec<String>>, names: &Vec<String>) -> (r: String)
    requires
        names@.len() == keys@.len(),
    ensures
        r@ == replace_bounds(source@, keys_view(keys@), views(names@)),
{
    let mut content = crate::text::copy_str(source);
    let mut i: usize = 0;
    assert(keys_view(keys@).take(0) =~= Seq::<Seq<Seq<char>>>::empty());
    while i < keys.len()
        invariant
            i <= keys.len(),
            names@.len() == keys@.len(),
            content@ == replace_bounds(
                source@,
                keys_view(keys@).take(i as int),
                views(names@).take(i as int),
            ),
        decreases keys.len() - i,
    {
        let from = bound_pattern_text(&keys[i]);
        let mut to = String::new();
        to.append(": ");
        to.append(names[i].as_str());
        to.append("Enum");
        content = replace_str(content.as_str(), from.as_str(), to.as_str());
        proof {
            assert(keys_view(keys@).take(i + 1).drop_last() =~= keys_view(keys@).take(i as int));
            assert(views(names@).take(i + 1).drop_last() =~= views(names@).take(i as int));
            assert(keys_view(keys@).take(i + 1).last() == views(keys@[i as int]@));
            assert(views(names@).take(i + 1).last() == names@[i as int]@);
        }
        i = i + 1;
    }
    assert(keys_view(keys@).take(i as int) =~= keys_view(keys@));
    assert(views(names@).take(i as int) =~= views(names@));
    content
}

/// The bound keys of the pool.
pub open spec fn pool_keys(pool: Seq<(Seq<Seq<char>>, Seq<Seq<char>>)>) -> Seq<Seq<Seq<char>>> {
    pool.map_values(|e: (Seq<Seq<char>>, Seq<Seq<char>>)| e.0)
}

/// `mod {api}_translate;`, the declaration of a translated module.
pub open spec fn translation_mod_line(api: Seq<char>) -> Seq<char> {
    "mod "@ + translation_name(api) + ";"@
}

impl OptArray {
    /// The translated version of an API file's text: each `: impl A + B` parameter
    /// type becomes `: {AB}Enum` (the trait names joined by `_`, in Pascal case),
    /// bounds with more traits first, and the import of the bound file is added at
    /// the end.
    pub fn handle_translate(&self, source_rust_content: &str) -> (r: String)
        ensures
            r@ == translated_source(pool_keys(self.bound_oject_pool@), source_rust_content@),
    {
        let es = &self.bound_oject_pool.entries;
        let mut keys: Vec<Vec<String>> = Vec::new();
        let mut i: usize = 0;
        while i < es.len()
            invariant
                i <= es.len(),
                es == self.bound_oject_pool.entries,
                keys_view(keys@) == pool_keys(self.bound_oject_pool@).take(i as int),
            decreases es.len() - i,
        {
            let k = copy_strings(&es[i].0);
            let ghost o = keys_view(keys@);
            keys.push(k);
            assert(keys_view(keys@) =~= o.push(views(k@)));
            assert(pool_keys(self.bound_oject_pool@).take(i + 1) =~= pool_keys(
                self.bound_oject_pool@,
            ).take(i as int).push(views(es@[i as int].0@)));
            i = i + 1;
        }
        assert(pool_keys(self.bound_oject_pool@).take(i as int) =~= pool_keys(
            self.bound_oject_pool@,
        ));
        let sorted = sort_by_len(&keys);
        let ghost sv = keys_view(sorted@);
        let mut names: Vec<String> = Vec::new();
        let mut j: usize = 0;
        while j < sorted.len()
            invariant
                j <= sorted.len(),
                sv == keys_view(sorted@),
                views(names@) == sv.take(j as int).map_values(|k: Seq<Seq<char>>| pascal_name(k)),
            decreases sorted.len() - j,
        {
            let joined = join_strs(&sorted[j], "_");
            let name = to_case(joined.as_str(), WordCase::Pascal);
            let ghost o = views(names@);
            names.push(name);
            proof {
                assert(views(names@) =~= o.push(name@));
                assert(sv.take(j + 1).map_values(|k: Seq<Seq<char>>| pascal_name(k)) =~= sv.take(
                    j as int,
                ).map_values(|k: Seq<Seq<char>>| pascal_name(k)).push(pascal_name(sv[j as int])));
            }
            j = j + 1;
        }
        assert(sv.take(j as int) =~= sv);
        let mut dest_rust_content = replace_bounds_with(source_rust_content, &sorted, &names);
        dest_rust_content.append("\npub use crate::bridge_generated_bound::*;");
        dest_rust_content
    }
}

// ------------------------------------------------------------------------------------
// files without bounds
// ------------------------------------------------------------------------------------
proof fn lemma_prefix_occurs(s: Seq<char>, q: Seq<char>, r: Seq<char>)
    requires
        contains_seq(s, q + r),
    ensures
        contains_seq(s, q),
{
    let i = choose|i: int| occurs_at(s, q + r, i);
    let whole = s.subrange(i, i + (q + r).len());
    assert(whole == q + r);
    assert forall|k: int| 0 <= k < q.len() implies s.subrange(i, i + q.len())[k] == q[k] by {
        assert(whole[k] == s[i + k]);
        assert((q + r)[k] == q[k]);
    }
    assert(s.subrange(i, i + q.len()) =~= q);
    assert(occurs_at(s, q, i));
}

proof fn lemma_replace_bounds_absent(src: Seq<char>, ks: Seq<Seq<Seq<char>>>, names: Seq<Seq<char>>)
    requires
        !contains_seq(src, ": impl "@),
    ensures
        replace_bounds(src, ks, names) == src,
    decreases ks.len(),
{
    if ks.len() > 0 {
        lemma_replace_bounds_absent(src, ks.drop_last(), names.drop_last());
        let p = bound_pattern(ks.last());
        if contains_seq(src, p) {
            lemma_prefix_occurs(src, ": impl "@, join_seq(ks.last(), " + "@));
        }
        reveal_strlit(": impl ");
        lemma_replace_absent(src, p, bound_replacement(names.last()));
    }
}

/// **A file without `impl Trait` parameters is copied as it is.** Where `: impl `
/// does not occur in an API file, its translation is the file with the import of the
/// bound file appended, whatever the bounds.
pub proof fn lemma_translate_without_bounds(keys: Seq<Seq<Seq<char>>>, src: Seq<char>)
    requires
        !contains_seq(src, ": impl "@),
    ensures
        translated_source(keys, src) == src + bound_use_suffix(),
{
    lemma_replace_bounds_absent(
        src,
        len_sort(keys),
        len_sort(keys).map_values(|k: Seq<Seq<char>>| pascal_name(k)),
    );
}

} // verus!
