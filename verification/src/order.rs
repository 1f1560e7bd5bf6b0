//! Lexicographic order on strings, insertion sorting, and removal of repeats.
use vstd::prelude::*;
use crate::text::{chars_of, views};

verus! {

broadcast use vstd::seq_lib::group_to_multiset_ensures;

/// `a` comes strictly before `b` in the order of `String`'s `Ord`: character by
/// character, by code point, a proper prefix first.
pub open spec fn lex_lt(a: Seq<char>, b: Seq<char>) -> bool
    decreases a.len(),
{
    if a.len() == 0 {
        b.len() > 0
    } else if b.len() == 0 {
        false
    } else if a[0] != b[0] {
        a[0] < b[0]
    } else {
        lex_lt(a.drop_first(), b.drop_first())
    }
}

pub proof fn lemma_lex_irreflexive(a: Seq<char>)
    ensures
        !lex_lt(a, a),
    decreases a.len(),
{
    if a.len() > 0 {
        lemma_lex_irreflexive(a.drop_first());
    }
}

pub proof fn lemma_lex_asymmetric(a: Seq<char>, b: Seq<char>)
    ensures
        lex_lt(a, b) ==> !lex_lt(b, a),
    decreases a.len(),
{
    if a.len() > 0 && b.len() > 0 && a[0] == b[0] {
        lemma_lex_asymmetric(a.drop_first(), b.drop_first());
    }
}

pub proof fn lemma_lex_transitive(a: Seq<char>, b: Seq<char>, c: Seq<char>)
    ensures
        lex_lt(a, b) && lex_lt(b, c) ==> lex_lt(a, c),
    decreases a.len(),
{
    if a.len() > 0 && b.len() > 0 && c.len() > 0 {
        lemma_lex_transitive(a.drop_first(), b.drop_first(), c.drop_first());
    }
}

pub proof fn lemma_lex_total(a: Seq<char>, b: Seq<char>)
    ensures
        a != b ==> lex_lt(a, b) || lex_lt(b, a),
    decreases a.len(),
{
    if a.len() > 0 && b.len() > 0 && a[0] == b[0] {
        lemma_lex_total(a.drop_first(), b.drop_first());
        if a.drop_first() == b.drop_first() {
            assert(a =~= seq![a[0]] + a.drop_first());
            assert(b =~= seq![b[0]] + b.drop_first());
        }
    } else if a.len() == 0 && b.len() == 0 {
        assert(a =~= b);
    } else if a.len() > 0 && b.len() > 0 {
        let x = a[0];
        let y = b[0];
        assert(x != y);
    }
}

proof fn lemma_lex_common_prefix(a: Seq<char>, b: Seq<char>, i: int)
    requires
        0 <= i <= a.len(),
        i <= b.len(),
        forall|t: int| 0 <= t < i ==> a[t] == b[t],
    ensures
        lex_lt(a, b) == lex_lt(a.skip(i), b.skip(i)),
    decreases i,
{
    if i > 0 {
        lemma_lex_common_prefix(a.drop_first(), b.drop_first(), i - 1);
        assert(a.drop_first().skip(i - 1) =~= a.skip(i));
        assert(b.drop_first().skip(i - 1) =~= b.skip(i));
    } else {
        assert(a.skip(0) =~= a);
        assert(b.skip(0) =~= b);
    }
}

/// Whether `a` comes strictly before `b`.
pub fn chars_lt(a: &Vec<char>, b: &Vec<char>) -> (r: bool)
    ensures
        r == lex_lt(a@, b@),
{
    let mut i: usize = 0;
    while i < a.len() && i < b.len()
        invariant
            i <= a.len(),
            i <= b.len(),
            forall|t: int| 0 <= t < i ==> a@[t] == b@[t],
        decreases a.len() - i,
    {
        if a[i] != b[i] {
            proof {
                lemma_lex_common_prefix(a@, b@, i as int);
                assert(a@.skip(i as int)[0] == a@[i as int]);
                assert(b@.skip(i as int)[0] == b@[i as int]);
            }
            return a[i] < b[i];
        }
        i = i + 1;
    }
    proof {
        lemma_lex_common_prefix(a@, b@, i as int);
    }
    i < b.len()
}

/// Whether string `a` comes strictly before string `b`.
pub fn str_lt(a: &String, b: &String) -> (r: bool)
    ensures
        r == lex_lt(a@, b@),
{
    let ac = chars_of(a.as_str());
    let bc = chars_of(b.as_str());
    chars_lt(&ac, &bc)
}

/// No element is strictly before one that precedes it.
pub open spec fn sorted_lex(s: Seq<Seq<char>>) -> bool {
    forall|i: int, j: int| 0 <= i < j < s.len() ==> !lex_lt(#[trigger] s[j], #[trigger] s[i])
}

/// `s` with `x` inserted before the first element that `x` comes strictly before.
pub open spec fn lex_insert(s: Seq<Seq<char>>, x: Seq<char>) -> Seq<Seq<char>>
    decreases s.len(),
{
    if s.len() == 0 {
        seq![x]
    } else if lex_lt(x, s[0]) {
        seq![x] + s
    } else {
        seq![s[0]] + lex_insert(s.drop_first(), x)
    }
}

/// The elements of `s` in ascending order; equal elements keep their order.
pub open spec fn lex_sort(s: Seq<Seq<char>>) -> Seq<Seq<char>>
    decreases s.len(),
{
    if s.len() == 0 {
        s
    } else {
        lex_insert(lex_sort(s.drop_last()), s.last())
    }
}

/// Inserting at the first position whose element `x` comes strictly before.
pub proof fn lemma_lex_insert_at(s: Seq<Seq<char>>, x: Seq<char>, p: int)
    requires
        0 <= p <= s.len(),
        forall|k: int| 0 <= k < p ==> !lex_lt(x, #[trigger] s[k]),
        p == s.len() || lex_lt(x, s[p]),
    ensures
        lex_insert(s, x) == s.insert(p, x),
    decreases s.len(),
{
    if s.len() == 0 {
        assert(s.insert(p, x) =~= seq![x]);
    } else if p == 0 {
        assert(s.insert(p, x) =~= seq![x] + s);
    } else {
        assert(!lex_lt(x, s[0]));
        assert forall|k: int| 0 <= k < p - 1 implies !lex_lt(x, #[trigger] s.drop_first()[k]) by {
            assert(s.drop_first()[k] == s[k + 1]);
        }
        lemma_lex_insert_at(s.drop_first(), x, p - 1);
        assert(seq![s[0]] + s.drop_first().insert(p - 1, x) =~= s.insert(p, x));
    }
}

/// Inserting into a sorted sequence keeps it sorted and adds one element.
pub proof fn lemma_lex_insert_sorted(s: Seq<Seq<char>>, x: Seq<char>)
    requires
        sorted_lex(s),
    ensures
        sorted_lex(lex_insert(s, x)),
        lex_insert(s, x).to_multiset() == s.to_multiset().insert(x),
{
    let p = choose_insert_position(s, x);
    lemma_lex_insert_at(s, x, p);
    let r = s.insert(p, x);
    assert forall|a: int, b: int| 0 <= a < b < r.len() implies !lex_lt(#[trigger] r[b], #[trigger] r[a]) by {
        if b == p {
            assert(r[a] == s[a]);
        } else if a == p {
            let ob = b - 1;
            assert(r[b] == s[ob]);
            lemma_lex_asymmetric(x, s[p]);
            if ob > p {
                lemma_lex_transitive(s[ob], x, s[p]);
            }
        } else {
            let oa = if a < p { a } else { a - 1 };
            let ob = if b < p { b } else { b - 1 };
            assert(r[a] == s[oa]);
            assert(r[b] == s[ob]);
        }
    }
}

/// The first position whose element `x` comes strictly before, or the length.
pub open spec fn insert_position(s: Seq<Seq<char>>, x: Seq<char>) -> int
    decreases s.len(),
{
    if s.len() == 0 {
        0
    } else if lex_lt(x, s[0]) {
        0
    } else {
        1 + insert_position(s.drop_first(), x)
    }
}

proof fn lemma_insert_position(s: Seq<Seq<char>>, x: Seq<char>)
    ensures
        0 <= insert_position(s, x) <= s.len(),
        forall|k: int| 0 <= k < insert_position(s, x) ==> !lex_lt(x, #[trigger] s[k]),
        insert_position(s, x) == s.len() || lex_lt(x, s[insert_position(s, x)]),
    decreases s.len(),
{
    if s.len() > 0 && !lex_lt(x, s[0]) {
        lemma_insert_position(s.drop_first(), x);
        assert forall|k: int| 0 <= k < insert_position(s, x) implies !lex_lt(x, #[trigger] s[k]) by {
            if k > 0 {
                assert(s[k] == s.drop_first()[k - 1]);
            }
        }
    }
}

proof fn choose_insert_position(s: Seq<Seq<char>>, x: Seq<char>) -> (p: int)
    ensures
        0 <= p <= s.len(),
        forall|k: int| 0 <= k < p ==> !lex_lt(x, #[trigger] s[k]),
        p == s.len() || lex_lt(x, s[p]),
{
    lemma_insert_position(s, x);
    insert_position(s, x)
}

/// `lex_sort` sorts, and keeps every element as often as it occurs.
pub proof fn lemma_lex_sort(s: Seq<Seq<char>>)
    ensures
        sorted_lex(lex_sort(s)),
        lex_sort(s).to_multiset() == s.to_multiset(),
    decreases s.len(),
{
    if s.len() > 0 {
        lemma_lex_sort(s.drop_last());
        lemma_lex_insert_sorted(lex_sort(s.drop_last()), s.last());
        assert(s.drop_last().push(s.last()) =~= s);
    } else {
        assert(lex_sort(s).to_multiset() =~= s.to_multiset());
    }
}

/// **A sorted sequence is fixed by its elements.** Two sorted sequences that hold the
/// same elements, each as often, are equal.
pub proof fn lemma_sorted_unique(a: Seq<Seq<char>>, b: Seq<Seq<char>>)
    requires
        sorted_lex(a),
        sorted_lex(b),
        a.to_multiset() == b.to_multiset(),
    ensures
        a == b,
    decreases a.len(),
{
    broadcast use vstd::multiset::group_multiset_axioms;

    vstd::seq_lib::to_multiset_len(a);
    vstd::seq_lib::to_multiset_len(b);
    if a.len() == 0 {
        assert(a =~= b);
    } else {
        let n = a.len() - 1;
        let x = a[n];
        let y = b[n];
        vstd::seq_lib::to_multiset_contains(a, y);
        vstd::seq_lib::to_multiset_contains(b, y);
        vstd::seq_lib::to_multiset_contains(a, x);
        vstd::seq_lib::to_multiset_contains(b, x);
        assert(b.contains(y));
        assert(a.contains(x));
        let k = choose|k: int| 0 <= k < a.len() && a[k] == y;
        let l = choose|l: int| 0 <= l < b.len() && b[l] == x;
        if k < n {
            assert(!lex_lt(a[n], a[k]));
        } else {
            lemma_lex_irreflexive(x);
        }
        if l < n {
            assert(!lex_lt(b[n], b[l]));
        } else {
            lemma_lex_irreflexive(y);
        }
        lemma_lex_total(x, y);
        assert(x == y);
        vstd::seq_lib::to_multiset_remove(a, n);
        vstd::seq_lib::to_multiset_remove(b, n);
        assert(a.remove(n) =~= a.drop_last());
        assert(b.remove(n) =~= b.drop_last());
        let da = a.drop_last();
        let db = b.drop_last();
        assert(sorted_lex(da)) by {
            assert forall|i: int, j: int| 0 <= i < j < da.len() implies !lex_lt(
                #[trigger] da[j],
                #[trigger] da[i],
            ) by {
                assert(da[i] == a[i] && da[j] == a[j]);
            }
        }
        assert(sorted_lex(db)) by {
            assert forall|i: int, j: int| 0 <= i < j < db.len() implies !lex_lt(
                #[trigger] db[j],
                #[trigger] db[i],
            ) by {
                assert(db[i] == b[i] && db[j] == b[j]);
            }
        }
        lemma_sorted_unique(da, db);
        assert(a =~= da.push(x));
        assert(b =~= db.push(y));
    }
}

/// Sorts the strings into ascending order, as `slice::sort` does for `String`s.
pub fn sort_strings(v: &Vec<String>) -> (r: Vec<String>)
    ensures
        views(r@) == lex_sort(views(v@)),
        sorted_lex(views(r@)),
        views(r@).to_multiset() == views(v@).to_multiset(),
{
    let mut r: Vec<String> = Vec::new();
    let mut i: usize = 0;
    assert(views(v@).take(0) =~= Seq::<Seq<char>>::empty());
    while i < v.len()
        invariant
            i <= v.len(),
            views(r@) == lex_sort(views(v@).take(i as int)),
        decreases v.len() - i,
    {
        let x = v[i].clone();
        let mut p: usize = 0;
        while p < r.len() && !str_lt(&x, &r[p])
            invariant
                p <= r.len(),
                forall|k: int| 0 <= k < p ==> !lex_lt(x@, #[trigger] views(r@)[k]),
            decreases r.len() - p,
        {
            p = p + 1;
        }
        let ghost old_r = views(r@);
        r.insert(p, x);
        proof {
            lemma_lex_insert_at(old_r, x@, p as int);
            assert(views(r@) =~= old_r.insert(p as int, x@));
            assert(views(v@).take(i + 1).drop_last() =~= views(v@).take(i as int));
        }
        i = i + 1;
    }
    assert(views(v@).take(i as int) =~= views(v@));
    proof {
        lemma_lex_sort(views(v@));
    }
    r
}

// ------------------------------------------------------------------------------------
// removal of repeats
// ------------------------------------------------------------------------------------
/// The elements of `s` in order of first occurrence, each once.
pub open spec fn dedup_seq<A>(s: Seq<A>) -> Seq<A>
    decreases s.len(),
{
    if s.len() == 0 {
        s
    } else {
        let d = dedup_seq(s.drop_last());
        if d.contains(s.last()) {
            d
        } else {
            d.push(s.last())
        }
    }
}

pub proof fn lemma_dedup_properties<A>(s: Seq<A>)
    ensures
        dedup_seq(s).no_duplicates(),
        forall|x: A| dedup_seq(s).contains(x) <==> s.contains(x),
    decreases s.len(),
{
    if s.len() > 0 {
        lemma_dedup_properties(s.drop_last());
        let d = dedup_seq(s.drop_last());
        assert forall|x: A| dedup_seq(s).contains(x) <==> s.contains(x) by {
            if s.contains(x) {
                let i = choose|i: int| 0 <= i < s.len() && s[i] == x;
                if i < s.len() - 1 {
                    assert(s.drop_last()[i] == x);
                    assert(s.drop_last().contains(x));
                    assert(d.contains(x));
                    let k = choose|k: int| 0 <= k < d.len() && d[k] == x;
                    if !d.contains(s.last()) {
                        assert(d.push(s.last())[k] == x);
                    }
                } else {
                    if !d.contains(s.last()) {
                        assert(d.push(s.last())[d.len() as int] == s.last());
                    }
                }
            }
            if dedup_seq(s).contains(x) {
                let k = choose|k: int| 0 <= k < dedup_seq(s).len() && dedup_seq(s)[k] == x;
                if k < d.len() {
                    assert(d[k] == x);
                    assert(d.contains(x));
                    assert(s.drop_last().contains(x));
                    let i = choose|i: int| 0 <= i < s.drop_last().len() && s.drop_last()[i] == x;
                    assert(s[i] == x);
                } else {
                    assert(s[s.len() - 1] == x);
                }
            }
        }
        assert(dedup_seq(s).no_duplicates()) by {
            if !d.contains(s.last()) {
                let e = d.push(s.last());
                assert forall|a: int, b: int| 0 <= a < e.len() && 0 <= b < e.len() && a != b implies e[a] != e[b] by {
                    if a < d.len() && b < d.len() {
                    } else if a == d.len() {
                        assert(d[b] == e[b]);
                    } else {
                        assert(d[a] == e[a]);
                    }
                }
            }
        }
    }
}

/// A sequence without repeats is its own deduplication.
pub proof fn lemma_dedup_no_duplicates<A>(s: Seq<A>)
    requires
        s.no_duplicates(),
    ensures
        dedup_seq(s) == s,
    decreases s.len(),
{
    if s.len() > 0 {
        assert(s.drop_last().no_duplicates());
        lemma_dedup_no_duplicates(s.drop_last());
        assert(!s.drop_last().contains(s.last())) by {
            if s.drop_last().contains(s.last()) {
                let k = choose|k: int| 0 <= k < s.drop_last().len() && s.drop_last()[k] == s.last();
                assert(s[k] == s[s.len() - 1]);
            }
        }
        assert(s.drop_last().push(s.last()) =~= s);
    }
}

/// Whether two string lists have the same characters, element by element.
pub fn same_strings(a: &Vec<String>, b: &Vec<String>) -> (r: bool)
    ensures
        r == (views(a@) == views(b@)),
{
    if a.len() != b.len() {
        assert(views(a@).len() != views(b@).len());
        return false;
    }
    let mut i: usize = 0;
    while i < a.len()
        invariant
            i <= a.len(),
            a.len() == b.len(),
            forall|t: int| 0 <= t < i ==> a@[t]@ == b@[t]@,
        decreases a.len() - i,
    {
        if a[i] != b[i] {
            assert(views(a@)[i as int] != views(b@)[i as int]);
            return false;
        }
        i = i + 1;
    }
    assert(views(a@) =~= views(b@));
    true
}

/// Removes repeated strings, keeping the first occurrence of each.
pub fn dedup_strings(v: &Vec<String>) -> (r: Vec<String>)
    ensures
        views(r@) == dedup_seq(views(v@)),
{
    let mut r: Vec<String> = Vec::new();
    let mut i: usize = 0;
    assert(views(v@).take(0) =~= Seq::<Seq<char>>::empty());
    while i < v.len()
        invariant
            i <= v.len(),
            views(r@) == dedup_seq(views(v@).take(i as int)),
        decreases v.len() - i,
    {
        let ghost prev = views(v@).take(i as int);
        assert(views(v@).take(i + 1).drop_last() =~= prev);
        let mut k: usize = 0;
        let mut found = false;
        while k < r.len()
            invariant
                k <= r.len(),
                i < v.len(),
                found ==> views(r@).contains(v@[i as int]@),
                !found ==> forall|t: int| 0 <= t < k ==> r@[t]@ != v@[i as int]@,
            decreases r.len() - k,
        {
            if r[k] == v[i] {
                found = true;
                assert(views(r@)[k as int] == v@[i as int]@);
            }
            k = k + 1;
        }
        if !found {
            assert(!views(r@).contains(v@[i as int]@)) by {
                if views(r@).contains(v@[i as int]@) {
                    let t = choose|t: int| 0 <= t < views(r@).len() && views(r@)[t] == v@[i as int]@;
                    assert(r@[t]@ == v@[i as int]@);
                }
            }
            r.push(v[i].clone());
            assert(views(r@) =~= dedup_seq(prev).push(v@[i as int]@));
        }
        i = i + 1;
    }
    assert(views(v@).take(i as int) =~= views(v@));
    r
}

} // verus!
