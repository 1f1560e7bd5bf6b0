//! Character-level string utilities, each stated over `Seq<char>`.
use vstd::prelude::*;

verus! {

broadcast use vstd::string::group_string_axioms;

/// The character sequences of a sequence of strings.
pub open spec fn views(v: Seq<String>) -> Seq<Seq<char>> {
    v.map_values(|x: String| x@)
}

/// std's `String: FromIterator<&char>`: collects the characters, in order, into a
/// new string. Trusted: the string's characters are exactly those of `v`.
#[verifier::external_body]
pub(crate) fn string_from_chars(v: &Vec<char>) -> (r: String)
    ensures
        r@ == v@,
{
    v.iter().collect()
}

/// The characters of `s`, in order.
pub fn chars_of(s: &str) -> (r: Vec<char>)
    ensures
        r@ == s@,
{
    let mut r: Vec<char> = Vec::new();
    for c in it: s.chars()
        invariant
            it.seq() == s@,
            r@ == it.seq().take(it.index()),
    {
        r.push(c);
    }
    r
}

/// A copy of `s`.
pub fn copy_str(s: &str) -> (r: String)
    ensures
        r@ == s@,
{
    let mut r = String::new();
    r.append(s);
    r
}

/// The concatenation of `a` and `b`.
pub fn concat_str(a: &str, b: &str) -> (r: String)
    ensures
        r@ == a@ + b@,
{
    let mut r = String::new();
    r.append(a);
    r.append(b);
    r
}

/// Copies of the strings, with the same characters.
pub fn copy_strings(v: &Vec<String>) -> (r: Vec<String>)
    ensures
        views(r@) == views(v@),
{
    let mut r: Vec<String> = Vec::new();
    let mut i: usize = 0;
    while i < v.len()
        invariant
            i <= v.len(),
            r@.len() == i,
            forall|k: int| 0 <= k < i ==> (#[trigger] r@[k])@ == v@[k]@,
        decreases v.len() - i,
    {
        r.push(v[i].clone());
        i = i + 1;
    }
    assert(views(r@) =~= views(v@));
    r
}

/// Whether `s` is among the strings.
pub fn contains_string(v: &Vec<String>, s: &String) -> (r: bool)
    ensures
        r == views(v@).contains(s@),
{
    let mut i: usize = 0;
    while i < v.len()
        invariant
            i <= v.len(),
            forall|k: int| 0 <= k < i ==> v@[k]@ != s@,
        decreases v.len() - i,
    {
        if v[i] == *s {
            assert(views(v@)[i as int] == s@);
            return true;
        }
        i = i + 1;
    }
    assert(!views(v@).contains(s@)) by {
        if views(v@).contains(s@) {
            let k = choose|k: int| 0 <= k < views(v@).len() && views(v@)[k] == s@;
            assert(v@[k]@ == s@);
        }
    }
    false
}

/// The pieces, one after another.
pub open spec fn concat_seqs(parts: Seq<Seq<char>>) -> Seq<char>
    decreases parts.len(),
{
    if parts.len() == 0 {
        Seq::<char>::empty()
    } else {
        concat_seqs(parts.drop_last()) + parts.last()
    }
}

/// Adding a piece at the end adds its characters at the end.
pub proof fn lemma_concat_push(parts: Seq<Seq<char>>, x: Seq<char>)
    ensures
        concat_seqs(parts.push(x)) == concat_seqs(parts) + x,
{
    assert(parts.push(x).drop_last() =~= parts);
}

/// The concatenation of the pieces.
pub fn concat_strings(parts: &Vec<String>) -> (r: String)
    ensures
        r@ == concat_seqs(views(parts@)),
{
    let mut r = String::new();
    let mut i: usize = 0;
    while i < parts.len()
        invariant
            i <= parts.len(),
            r@ == concat_seqs(views(parts@).take(i as int)),
        decreases parts.len() - i,
    {
        proof {
            assert(views(parts@).take(i + 1) =~= views(parts@).take(i as int).push(parts@[i as int]@));
            lemma_concat_push(views(parts@).take(i as int), parts@[i as int]@);
        }
        r.append(parts[i].as_str());
        i = i + 1;
    }
    assert(views(parts@).take(i as int) =~= views(parts@));
    r
}

// ------------------------------------------------------------------------------------
// split
// ------------------------------------------------------------------------------------
/// What `str::split(sep)` yields for a single-character separator: the maximal pieces
/// between separators, always at least one piece.
pub open spec fn split_seq(s: Seq<char>, sep: char) -> Seq<Seq<char>>
    decreases s.len(),
{
    if s.len() == 0 {
        seq![Seq::<char>::empty()]
    } else {
        let p = split_seq(s.drop_last(), sep);
        if s.last() == sep {
            p.push(Seq::<char>::empty())
        } else {
            p.update(p.len() - 1, p.last().push(s.last()))
        }
    }
}

pub proof fn lemma_split_nonempty(s: Seq<char>, sep: char)
    ensures
        split_seq(s, sep).len() >= 1,
    decreases s.len(),
{
    if s.len() > 0 {
        lemma_split_nonempty(s.drop_last(), sep);
    }
}

/// Splitting `a + [sep] + b` splits `a` and `b` separately.
pub proof fn lemma_split_concat(a: Seq<char>, b: Seq<char>, sep: char)
    ensures
        split_seq(a + seq![sep] + b, sep) == split_seq(a, sep) + split_seq(b, sep),
    decreases b.len(),
{
    lemma_split_nonempty(a, sep);
    lemma_split_nonempty(b, sep);
    if b.len() == 0 {
        assert((a + seq![sep] + b).drop_last() =~= a);
        assert(split_seq(a, sep) + split_seq(b, sep) =~= split_seq(a, sep).push(
            Seq::<char>::empty(),
        ));
    } else {
        lemma_split_concat(a, b.drop_last(), sep);
        assert((a + seq![sep] + b).drop_last() =~= a + seq![sep] + b.drop_last());
        let pa = split_seq(a, sep);
        let pb = split_seq(b.drop_last(), sep);
        lemma_split_nonempty(b.drop_last(), sep);
        if b.last() == sep {
            assert((pa + pb).push(Seq::<char>::empty()) =~= pa + pb.push(Seq::<char>::empty()));
        } else {
            assert((pa + pb).update((pa + pb).len() - 1, (pa + pb).last().push(b.last())) =~= pa
                + pb.update(pb.len() - 1, pb.last().push(b.last())));
        }
    }
}

/// A sequence without the separator is a single piece.
pub proof fn lemma_split_no_sep(s: Seq<char>, sep: char)
    requires
        !s.contains(sep),
    ensures
        split_seq(s, sep) == seq![s],
    decreases s.len(),
{
    if s.len() > 0 {
        assert(!s.drop_last().contains(sep)) by {
            if s.drop_last().contains(sep) {
                let i = choose|i: int| 0 <= i < s.drop_last().len() && s.drop_last()[i] == sep;
                assert(s[i] == sep);
            }
        }
        lemma_split_no_sep(s.drop_last(), sep);
        assert(s.last() != sep) by {
            assert(s[s.len() - 1] == s.last());
        }
        assert(s.drop_last().push(s.last()) =~= s);
    } else {
        assert(s =~= Seq::<char>::empty());
    }
}

/// Splits `s` at every occurrence of `sep`, as `str::split` does.
pub fn split_str(s: &str, sep: char) -> (r: Vec<String>)
    ensures
        views(r@) == split_seq(s@, sep),
{
    let chars = chars_of(s);
    let mut pieces: Vec<String> = Vec::new();
    let mut cur: Vec<char> = Vec::new();
    let mut i: usize = 0;
    assert(chars@.take(0) =~= Seq::<char>::empty());
    assert(views(pieces@).push(cur@) =~= seq![Seq::<char>::empty()]);
    while i < chars.len()
        invariant
            i <= chars.len(),
            chars@ == s@,
            views(pieces@).push(cur@) == split_seq(chars@.take(i as int), sep),
        decreases chars.len() - i,
    {
        let c = chars[i];
        let ghost prev = chars@.take(i as int);
        assert(chars@.take(i + 1).drop_last() =~= prev);
        assert(chars@.take(i + 1).last() == c);
        if c == sep {
            let piece = string_from_chars(&cur);
            pieces.push(piece);
            cur = Vec::new();
            assert(views(pieces@).push(cur@) =~= split_seq(prev, sep).push(Seq::<char>::empty()));
        } else {
            let ghost old_cur = cur@;
            cur.push(c);
            let ghost p = split_seq(prev, sep);
            assert(views(pieces@).push(cur@) =~= p.update(p.len() - 1, p.last().push(c)));
        }
        i = i + 1;
    }
    assert(chars@.take(i as int) =~= chars@);
    let last = string_from_chars(&cur);
    pieces.push(last);
    assert(views(pieces@) =~= split_seq(s@, sep));
    pieces
}

// ------------------------------------------------------------------------------------
// join
// ------------------------------------------------------------------------------------
/// The pieces, in order, with `sep` between each two neighbours.
pub open spec fn join_seq(parts: Seq<Seq<char>>, sep: Seq<char>) -> Seq<char>
    decreases parts.len(),
{
    if parts.len() == 0 {
        Seq::<char>::empty()
    } else if parts.len() == 1 {
        parts[0]
    } else {
        join_seq(parts.drop_last(), sep) + sep + parts.last()
    }
}

/// Joins the strings with `sep` between each two neighbours.
pub fn join_strs(parts: &Vec<String>, sep: &str) -> (r: String)
    ensures
        r@ == join_seq(views(parts@), sep@),
{
    let mut r = String::new();
    let mut i: usize = 0;
    assert(views(parts@).take(0) =~= Seq::<Seq<char>>::empty());
    while i < parts.len()
        invariant
            i <= parts.len(),
            r@ == join_seq(views(parts@).take(i as int), sep@),
        decreases parts.len() - i,
    {
        let ghost prev = views(parts@).take(i as int);
        assert(views(parts@).take(i + 1).drop_last() =~= prev);
        if i > 0 {
            r.append(sep);
        } else {
            assert(r@ =~= Seq::<char>::empty());
        }
        r.append(parts[i].as_str());
        proof {
            let nxt = views(parts@).take(i + 1);
            assert(nxt.last() == parts@[i as int]@);
            if i == 0 {
                assert(r@ =~= nxt[0]);
            }
        }
        i = i + 1;
    }
    assert(views(parts@).take(i as int) =~= views(parts@));
    r
}

// ------------------------------------------------------------------------------------
// substring search
// ------------------------------------------------------------------------------------
/// `k` occurs in `s` starting at index `i`.
pub open spec fn occurs_at(s: Seq<char>, k: Seq<char>, i: int) -> bool {
    0 <= i && i + k.len() <= s.len() && s.subrange(i, i + k.len()) == k
}

/// `k` occurs somewhere in `s` (the empty sequence occurs in every sequence).
pub open spec fn contains_seq(s: Seq<char>, k: Seq<char>) -> bool {
    exists|i: int| occurs_at(s, k, i)
}

/// Whether `k` occurs in `s` at index `i`.
pub fn occurs_at_exec(s: &Vec<char>, k: &Vec<char>, i: usize) -> (b: bool)
    ensures
        b == occurs_at(s@, k@, i as int),
{
    if i > s.len() || s.len() - i < k.len() {
        return false;
    }
    let mut j: usize = 0;
    while j < k.len()
        invariant
            j <= k.len(),
            i + k.len() <= s.len(),
            forall|t: int| 0 <= t < j ==> s@[i + t] == k@[t],
        decreases k.len() - j,
    {
        if s[i + j] != k[j] {
            assert(s@.subrange(i as int, i + k.len())[j as int] != k@[j as int]);
            return false;
        }
        j = j + 1;
    }
    assert(s@.subrange(i as int, i + k.len()) =~= k@);
    true
}

/// Whether `k` occurs in `s`, as `str::contains` answers.
pub fn contains_chars(s: &Vec<char>, k: &Vec<char>) -> (b: bool)
    ensures
        b == contains_seq(s@, k@),
{
    if k.len() > s.len() {
        return false;
    }
    if k.len() == 0 {
        assert(s@.subrange(0, 0) =~= k@);
        assert(occurs_at(s@, k@, 0));
        return true;
    }
    let mut i: usize = 0;
    while i <= s.len() - k.len()
        invariant
            0 < k.len() <= s.len(),
            i <= s.len() - k.len() + 1,
            forall|t: int| 0 <= t < i ==> !occurs_at(s@, k@, t),
        decreases s.len() - k.len() + 1 - i,
    {
        if occurs_at_exec(s, k, i) {
            return true;
        }
        i = i + 1;
    }
    false
}

/// Whether `k` occurs in `s`, as `str::contains` answers.
pub fn contains_str(s: &str, k: &str) -> (b: bool)
    ensures
        b == contains_seq(s@, k@),
{
    let sc = chars_of(s);
    let kc = chars_of(k);
    contains_chars(&sc, &kc)
}

/// `k` occurs in `a + k + c`.
pub proof fn lemma_contains_middle(a: Seq<char>, k: Seq<char>, c: Seq<char>)
    ensures
        contains_seq(a + k + c, k),
{
    let s = a + k + c;
    assert(s.subrange(a.len() as int, (a.len() + k.len()) as int) =~= k);
    assert(occurs_at(s, k, a.len() as int));
}

/// What occurs in a piece occurs in any text the piece occurs in.
pub proof fn lemma_contains_trans(s: Seq<char>, x: Seq<char>, y: Seq<char>)
    requires
        contains_seq(s, x),
        contains_seq(x, y),
    ensures
        contains_seq(s, y),
{
    let i = choose|i: int| occurs_at(s, x, i);
    let j = choose|j: int| occurs_at(x, y, j);
    let sx = s.subrange(i, i + x.len());
    assert forall|k: int| 0 <= k < y.len() implies s.subrange(i + j, i + j + y.len())[k] == y[k] by {
        assert(sx[j + k] == s[i + j + k]);
        assert(x.subrange(j, j + y.len())[k] == x[j + k]);
    }
    assert(s.subrange(i + j, i + j + y.len()) =~= y);
    assert(occurs_at(s, y, i + j));
}

/// Every piece occurs in the concatenation of the pieces.
pub proof fn lemma_concat_contains(parts: Seq<Seq<char>>, i: int)
    requires
        0 <= i < parts.len(),
    ensures
        contains_seq(concat_seqs(parts), parts[i]),
    decreases parts.len(),
{
    let d = parts.drop_last();
    if i == parts.len() - 1 {
        lemma_contains_middle(concat_seqs(d), parts[i], Seq::<char>::empty());
        assert(concat_seqs(d) + parts[i] + Seq::<char>::empty() =~= concat_seqs(parts));
    } else {
        lemma_concat_contains(d, i);
        assert(d[i] == parts[i]);
        lemma_contains_middle(Seq::<char>::empty(), concat_seqs(d), parts.last());
        assert(Seq::<char>::empty() + concat_seqs(d) + parts.last() =~= concat_seqs(parts));
        lemma_contains_trans(concat_seqs(parts), concat_seqs(d), parts[i]);
    }
}

/// Every piece occurs in the pieces joined with a separator.
pub proof fn lemma_join_contains(parts: Seq<Seq<char>>, sep: Seq<char>, i: int)
    requires
        0 <= i < parts.len(),
    ensures
        contains_seq(join_seq(parts, sep), parts[i]),
    decreases parts.len(),
{
    if parts.len() == 1 {
        lemma_contains_middle(Seq::<char>::empty(), parts[0], Seq::<char>::empty());
        assert(Seq::<char>::empty() + parts[0] + Seq::<char>::empty() =~= parts[0]);
    } else {
        let d = parts.drop_last();
        if i == parts.len() - 1 {
            lemma_contains_middle(join_seq(d, sep) + sep, parts[i], Seq::<char>::empty());
            assert(join_seq(d, sep) + sep + parts[i] + Seq::<char>::empty() =~= join_seq(parts, sep));
        } else {
            lemma_join_contains(d, sep, i);
            assert(d[i] == parts[i]);
            lemma_contains_middle(Seq::<char>::empty(), join_seq(d, sep), sep + parts.last());
            assert(Seq::<char>::empty() + join_seq(d, sep) + (sep + parts.last()) =~= join_seq(
                parts,
                sep,
            ));
            lemma_contains_trans(join_seq(parts, sep), join_seq(d, sep), parts[i]);
        }
    }
}

// ------------------------------------------------------------------------------------
// replace
// ------------------------------------------------------------------------------------
/// What `str::replace(from, to)` gives for a non-empty `from`: each occurrence of
/// `from`, found left to right without overlap, replaced by `to`.
pub open spec fn replace_seq(s: Seq<char>, from: Seq<char>, to: Seq<char>) -> Seq<char>
    decreases s.len(),
{
    if from.len() == 0 || s.len() < from.len() {
        s
    } else if s.take(from.len() as int) == from {
        to + replace_seq(s.skip(from.len() as int), from, to)
    } else {
        seq![s[0]] + replace_seq(s.skip(1), from, to)
    }
}

/// A sequence in which `from` does not occur is left as it is.
pub proof fn lemma_replace_absent(s: Seq<char>, from: Seq<char>, to: Seq<char>)
    requires
        from.len() > 0,
        !contains_seq(s, from),
    ensures
        replace_seq(s, from, to) == s,
    decreases s.len(),
{
    if s.len() >= from.len() {
        assert(s.take(from.len() as int) != from) by {
            assert(s.subrange(0, from.len() as int) =~= s.take(from.len() as int));
            assert(!occurs_at(s, from, 0));
        }
        assert(!contains_seq(s.skip(1), from)) by {
            if contains_seq(s.skip(1), from) {
                let i = choose|i: int| occurs_at(s.skip(1), from, i);
                assert(s.skip(1).subrange(i, i + from.len()) =~= s.subrange(i + 1, i + 1 + from.len()));
                assert(occurs_at(s, from, i + 1));
            }
        }
        lemma_replace_absent(s.skip(1), from, to);
        assert(seq![s[0]] + s.skip(1) =~= s);
    }
}

/// Replaces every occurrence of `from` in `s` by `to`, as `str::replace` does.
pub fn replace_str(s: &str, from: &str, to: &str) -> (r: String)
    requires
        from@.len() > 0,
    ensures
        r@ == replace_seq(s@, from@, to@),
{
    let sc = chars_of(s);
    let fc = chars_of(from);
    let tc = chars_of(to);
    let mut out: Vec<char> = Vec::new();
    let mut i: usize = 0;
    assert(sc@.skip(0) =~= sc@);
    while i < sc.len()
        invariant
            i <= sc.len(),
            sc@ == s@,
            fc@ == from@,
            tc@ == to@,
            fc@.len() > 0,
            out@ + replace_seq(sc@.skip(i as int), fc@, tc@) == replace_seq(sc@, fc@, tc@),
        decreases sc.len() - i,
    {
        let ghost rest = sc@.skip(i as int);
        if occurs_at_exec(&sc, &fc, i) {
            assert(rest.take(fc@.len() as int) =~= sc@.subrange(i as int, i + fc@.len()));
            assert(rest.skip(fc@.len() as int) =~= sc@.skip(i + fc@.len()));
            let mut j: usize = 0;
            let ghost out0 = out@;
            while j < tc.len()
                invariant
                    j <= tc.len(),
                    out@ == out0 + tc@.take(j as int),
                decreases tc.len() - j,
            {
                out.push(tc[j]);
                assert(tc@.take(j + 1) =~= tc@.take(j as int).push(tc@[j as int]));
                j = j + 1;
            }
            assert(tc@.take(j as int) =~= tc@);
            assert(out0 + (tc@ + replace_seq(sc@.skip(i + fc@.len()), fc@, tc@)) =~= out@
                + replace_seq(sc@.skip(i + fc@.len()), fc@, tc@));
            i = i + fc.len();
        } else {
            proof {
                if rest.len() >= fc@.len() {
                    assert(rest.take(fc@.len() as int) =~= sc@.subrange(i as int, i + fc@.len()));
                } else {
                    assert(rest.skip(1).len() < fc@.len());
                }
                assert(rest.skip(1) =~= sc@.skip(i + 1));
                assert(rest[0] == sc@[i as int]);
            }
            let ghost out0 = out@;
            out.push(sc[i]);
            assert(out0 + (seq![sc@[i as int]] + replace_seq(sc@.skip(i + 1), fc@, tc@)) =~= out@
                + replace_seq(sc@.skip(i + 1), fc@, tc@));
            i = i + 1;
        }
    }
    assert(sc@.skip(i as int) =~= Seq::<char>::empty());
    assert(out@ + Seq::<char>::empty() =~= out@);
    string_from_chars(&out)
}

/// Whether the last character of `s` is `c`, as `str::ends_with(char)` answers.
pub fn ends_with_char(s: &str, c: char) -> (b: bool)
    ensures
        b == (s@.len() > 0 && s@.last() == c),
{
    let sc = chars_of(s);
    sc.len() > 0 && sc[sc.len() - 1] == c
}

} // verus!
