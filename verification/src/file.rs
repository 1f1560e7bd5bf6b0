//! Editing the text of a source file line by line: removing the lines that mention a
//! key, appending lines.
use vstd::prelude::*;
use crate::text::{
    contains_seq, contains_str, ends_with_char, join_seq, join_strs, lemma_split_concat,
    lemma_split_no_sep, split_seq, split_str, views,
};

verus! {

/// The line mentions none of the keys.
pub open spec fn keep_line(line: Seq<char>, keys: Seq<Seq<char>>) -> bool {
    forall|k: int| 0 <= k < keys.len() ==> !contains_seq(line, #[trigger] keys[k])
}

/// The lines that mention none of the keys, in order.
pub open spec fn kept_lines(lines: Seq<Seq<char>>, keys: Seq<Seq<char>>) -> Seq<Seq<char>>
    decreases lines.len(),
{
    if lines.len() == 0 {
        Seq::empty()
    } else {
        let r = kept_lines(lines.drop_last(), keys);
        if keep_line(lines.last(), keys) {
            r.push(lines.last())
        } else {
            r
        }
    }
}

/// The text without the lines that mention a key: split at `\n`, filtered, joined
/// with `\n`.
pub open spec fn removed_lines(content: Seq<char>, keys: Seq<Seq<char>>) -> Seq<char> {
    join_seq(kept_lines(split_seq(content, '\n'), keys), seq!['\n'])
}

/// The text with the lines appended: a `\n` first unless the text ends with one, then
/// the lines joined with `\n`.
pub open spec fn appended_lines(content: Seq<char>, additions: Seq<Seq<char>>) -> Seq<char> {
    content + (if content.len() > 0 && content.last() == '\n' {
        Seq::<char>::empty()
    } else {
        seq!['\n']
    }) + join_seq(additions, seq!['\n'])
}

/// The text without one trailing `\n`.
pub open spec fn strip_newline(content: Seq<char>) -> Seq<char> {
    if content.len() > 0 && content.last() == '\n' {
        content.drop_last()
    } else {
        content
    }
}

/// Whether the line mentions none of the keys.
fn keep_line_exec(line: &String, keys: &Vec<String>) -> (r: bool)
    ensures
        r == keep_line(line@, views(keys@)),
{
    let mut i: usize = 0;
    while i < keys.len()
        invariant
            i <= keys.len(),
            forall|k: int| 0 <= k < i ==> !contains_seq(line@, #[trigger] views(keys@)[k]),
        decreases keys.len() - i,
    {
        if contains_str(line.as_str(), keys[i].as_str()) {
            assert(contains_seq(line@, views(keys@)[i as int]));
            return false;
        }
        i = i + 1;
    }
    true
}

/// The text without the lines that mention one of `keys`.
pub fn removed_content(content: &str, keys: &Vec<String>) -> (r: String)
    ensures
        r@ == removed_lines(content@, views(keys@)),
{
    let lines = split_str(content, '\n');
    let ghost lv = views(lines@);
    let mut kept: Vec<String> = Vec::new();
    let mut i: usize = 0;
    assert(lv.take(0) =~= Seq::<Seq<char>>::empty());
    while i < lines.len()
        invariant
            i <= lines.len(),
            lv == views(lines@),
            views(kept@) == kept_lines(lv.take(i as int), views(keys@)),
        decreases lines.len() - i,
    {
        assert(lv.take(i + 1).drop_last() =~= lv.take(i as int));
        assert(lv.take(i + 1).last() == lines@[i as int]@);
        if keep_line_exec(&lines[i], keys) {
            let ghost o = kept@;
            kept.push(lines[i].clone());
            assert(views(kept@) =~= views(o).push(lines@[i as int]@));
        }
        i = i + 1;
    }
    assert(lv.take(i as int) =~= lv);
    let r = join_strs(&kept, "\n");
    proof {
        reveal_strlit("\n");
        assert("\n"@ =~= seq!['\n']);
    }
    r
}

/// The text with `additions` appended as lines.
pub fn added_content(content: &str, additions: &Vec<String>) -> (r: String)
    ensures
        r@ == appended_lines(content@, views(additions@)),
{
    let mut r = String::new();
    r.append(content);
    if !ends_with_char(content, '\n') {
        r.append("\n");
    }
    let joined = join_strs(additions, "\n");
    r.append(joined.as_str());
    proof {
        reveal_strlit("\n");
        assert("\n"@ =~= seq!['\n']);
        assert(r@ =~= appended_lines(content@, views(additions@)));
    }
    r
}

// ------------------------------------------------------------------------------------
// removing what was appended
// ------------------------------------------------------------------------------------
/// Filtering a concatenation filters each part.
pub proof fn lemma_kept_concat(a: Seq<Seq<char>>, b: Seq<Seq<char>>, keys: Seq<Seq<char>>)
    ensures
        kept_lines(a + b, keys) == kept_lines(a, keys) + kept_lines(b, keys),
    decreases b.len(),
{
    if b.len() == 0 {
        assert(a + b =~= a);
        assert(kept_lines(a, keys) + kept_lines(b, keys) =~= kept_lines(a, keys));
    } else {
        lemma_kept_concat(a, b.drop_last(), keys);
        assert((a + b).drop_last() =~= a + b.drop_last());
        assert((a + b).last() == b.last());
        if keep_line(b.last(), keys) {
            assert(kept_lines(a, keys) + kept_lines(b.drop_last(), keys).push(b.last()) =~= (
            kept_lines(a, keys) + kept_lines(b.drop_last(), keys)).push(b.last()));
        }
    }
}

/// Lines that each mention a key are all removed.
pub proof fn lemma_kept_none(lines: Seq<Seq<char>>, keys: Seq<Seq<char>>)
    requires
        forall|i: int| 0 <= i < lines.len() ==> !keep_line(#[trigger] lines[i], keys),
    ensures
        kept_lines(lines, keys) == Seq::<Seq<char>>::empty(),
    decreases lines.len(),
{
    if lines.len() > 0 {
        assert(!keep_line(lines[lines.len() - 1], keys));
        lemma_kept_none(lines.drop_last(), keys);
    }
}

/// Lines that each mention no key are all kept.
pub proof fn lemma_kept_all(lines: Seq<Seq<char>>, keys: Seq<Seq<char>>)
    requires
        forall|i: int| 0 <= i < lines.len() ==> keep_line(#[trigger] lines[i], keys),
    ensures
        kept_lines(lines, keys) == lines,
    decreases lines.len(),
{
    if lines.len() > 0 {
        assert(keep_line(lines[lines.len() - 1], keys));
        lemma_kept_all(lines.drop_last(), keys);
        assert(lines.drop_last().push(lines.last()) =~= lines);
    }
}

/// Splitting lines joined with `\n` gives them back, where none holds a `\n`.
pub proof fn lemma_split_join(parts: Seq<Seq<char>>)
    requires
        parts.len() > 0,
        forall|i: int| 0 <= i < parts.len() ==> !(#[trigger] parts[i]).contains('\n'),
    ensures
        split_seq(join_seq(parts, seq!['\n']), '\n') == parts,
    decreases parts.len(),
{
    if parts.len() == 1 {
        lemma_split_no_sep(parts[0], '\n');
        assert(seq![parts[0]] =~= parts);
    } else {
        lemma_split_join(parts.drop_last());
        assert(!parts.last().contains('\n')) by {
            assert(parts.last() == parts[parts.len() - 1]);
        }
        lemma_split_no_sep(parts.last(), '\n');
        lemma_split_concat(join_seq(parts.drop_last(), seq!['\n']), parts.last(), '\n');
        assert(parts.drop_last() + seq![parts.last()] =~= parts);
    }
}

/// Joining the lines of a text with `\n` gives the text back.
pub proof fn lemma_join_split(s: Seq<char>)
    ensures
        join_seq(split_seq(s, '\n'), seq!['\n']) == s,
    decreases s.len(),
{
    crate::text::lemma_split_nonempty(s, '\n');
    if s.len() == 0 {
        assert(join_seq(split_seq(s, '\n'), seq!['\n']) == split_seq(s, '\n')[0]);
        assert(s =~= Seq::<char>::empty());
    } else {
        let d = s.drop_last();
        lemma_join_split(d);
        crate::text::lemma_split_nonempty(d, '\n');
        let p = split_seq(d, '\n');
        if s.last() == '\n' {
            let q = p.push(Seq::<char>::empty());
            assert(q.drop_last() =~= p);
            assert(join_seq(q, seq!['\n']) == join_seq(p, seq!['\n']) + seq!['\n'] + Seq::<char>::empty());
            assert(d + seq!['\n'] + Seq::<char>::empty() =~= s);
        } else {
            let q = p.update(p.len() - 1, p.last().push(s.last()));
            if p.len() == 1 {
                assert(join_seq(q, seq!['\n']) == q[0]);
                assert(join_seq(p, seq!['\n']) == p[0]);
                assert(q[0] =~= d.push(s.last()));
            } else {
                assert(q.drop_last() =~= p.drop_last());
                assert(join_seq(q, seq!['\n']) =~= join_seq(p, seq!['\n']).push(s.last()));
            }
            assert(d.push(s.last()) =~= s);
        }
    }
}

/// Removing lines from text whose lines mention no key changes nothing.
pub proof fn lemma_removed_nothing(s: Seq<char>, keys: Seq<Seq<char>>)
    requires
        forall|i: int|
            0 <= i < split_seq(s, '\n').len() ==> keep_line(#[trigger] split_seq(s, '\n')[i], keys),
    ensures
        removed_lines(s, keys) == s,
{
    lemma_kept_all(split_seq(s, '\n'), keys);
    lemma_join_split(s);
}

/// Removing the keys from text with lines appended that each mention a key gives what
/// removing them from the text without its trailing `\n` gives.
pub proof fn lemma_remove_appended(
    content: Seq<char>,
    additions: Seq<Seq<char>>,
    keys: Seq<Seq<char>>,
)
    requires
        additions.len() > 0,
        forall|i: int| 0 <= i < additions.len() ==> !(#[trigger] additions[i]).contains('\n'),
        forall|i: int| 0 <= i < additions.len() ==> !keep_line(#[trigger] additions[i], keys),
    ensures
        removed_lines(appended_lines(content, additions), keys) == removed_lines(
            strip_newline(content),
            keys,
        ),
{
    let p = strip_newline(content);
    let j = join_seq(additions, seq!['\n']);
    if content.len() > 0 && content.last() == '\n' {
        assert(appended_lines(content, additions) =~= p + seq!['\n'] + j);
    } else {
        assert(appended_lines(content, additions) =~= p + seq!['\n'] + j);
    }
    lemma_split_concat(p, j, '\n');
    lemma_split_join(additions);
    lemma_kept_concat(split_seq(p, '\n'), additions, keys);
    lemma_kept_none(additions, keys);
    assert(kept_lines(split_seq(p, '\n'), keys) + Seq::<Seq<char>>::empty() =~= kept_lines(
        split_seq(p, '\n'),
        keys,
    ));
}

/// **Removal undoes appending.** Where no line of a text mentions a key, appending
/// lines that each mention a key and hold no `\n`, then removing the lines that
/// mention a key, gives the text back, less one trailing `\n`.
pub proof fn lemma_remove_undoes_append(
    content: Seq<char>,
    additions: Seq<Seq<char>>,
    keys: Seq<Seq<char>>,
)
    requires
        additions.len() > 0,
        forall|i: int| 0 <= i < additions.len() ==> !(#[trigger] additions[i]).contains('\n'),
        forall|i: int| 0 <= i < additions.len() ==> !keep_line(#[trigger] additions[i], keys),
        forall|i: int|
            0 <= i < split_seq(content, '\n').len() ==> keep_line(
                #[trigger] split_seq(content, '\n')[i],
                keys,
            ),
    ensures
        removed_lines(appended_lines(content, additions), keys) == strip_newline(content),
{
    lemma_remove_appended(content, additions, keys);
    let p = strip_newline(content);
    if content.len() > 0 && content.last() == '\n' {
        lemma_split_concat(p, Seq::<char>::empty(), '\n');
        assert(p + seq!['\n'] + Seq::<char>::empty() =~= content);
        crate::text::lemma_split_nonempty(p, '\n');
        assert forall|i: int| 0 <= i < split_seq(p, '\n').len() implies keep_line(
            #[trigger] split_seq(p, '\n')[i],
            keys,
        ) by {
            assert(split_seq(content, '\n')[i] == split_seq(p, '\n')[i]);
        }
    }
    lemma_removed_nothing(p, keys);
}

// ------------------------------------------------------------------------------------
// removing twice
// ------------------------------------------------------------------------------------
proof fn lemma_split_pieces(s: Seq<char>, sep: char)
    ensures
        forall|i: int|
            0 <= i < split_seq(s, sep).len() ==> !(#[trigger] split_seq(s, sep)[i]).contains(sep),
    decreases s.len(),
{
    if s.len() > 0 {
        let p = split_seq(s.drop_last(), sep);
        lemma_split_pieces(s.drop_last(), sep);
        crate::text::lemma_split_nonempty(s.drop_last(), sep);
        if s.last() != sep {
            let q = p.last().push(s.last());
            assert(!q.contains(sep)) by {
                if q.contains(sep) {
                    let k = choose|k: int| 0 <= k < q.len() && q[k] == sep;
                    assert(p.last().contains(q[k]) || k == q.len() - 1);
                    assert(p[p.len() - 1] == p.last());
                }
            }
        }
    }
}

proof fn lemma_kept_keep(lines: Seq<Seq<char>>, keys: Seq<Seq<char>>)
    ensures
        forall|i: int|
            0 <= i < kept_lines(lines, keys).len() ==> keep_line(
                #[trigger] kept_lines(lines, keys)[i],
                keys,
            ) && lines.contains(kept_lines(lines, keys)[i]),
    decreases lines.len(),
{
    if lines.len() > 0 {
        let d = lines.drop_last();
        lemma_kept_keep(d, keys);
        assert forall|i: int| 0 <= i < kept_lines(lines, keys).len() implies keep_line(
            #[trigger] kept_lines(lines, keys)[i],
            keys,
        ) && lines.contains(kept_lines(lines, keys)[i]) by {
            if i < kept_lines(d, keys).len() {
                assert(kept_lines(lines, keys)[i] == kept_lines(d, keys)[i]);
                let j = choose|j: int| 0 <= j < d.len() && d[j] == kept_lines(d, keys)[i];
                assert(lines[j] == d[j]);
            } else {
                assert(lines[lines.len() - 1] == lines.last());
            }
        }
    }
}

/// **Removing twice removes no more than once.** Removing the lines that mention a
/// key from a text from which they were removed already leaves it as it is.
pub proof fn lemma_remove_idempotent(s: Seq<char>, keys: Seq<Seq<char>>)
    ensures
        removed_lines(removed_lines(s, keys), keys) == removed_lines(s, keys),
{
    let lines = split_seq(s, '\n');
    let k = kept_lines(lines, keys);
    lemma_split_pieces(s, '\n');
    lemma_kept_keep(lines, keys);
    if k.len() == 0 {
        let e = Seq::<char>::empty();
        assert(removed_lines(s, keys) == e);
        assert(split_seq(e, '\n') == seq![e]);
        let k2 = kept_lines(seq![e], keys);
        assert(seq![e].drop_last() =~= Seq::<Seq<char>>::empty());
        assert(seq![e].last() == e);
        assert(kept_lines(Seq::<Seq<char>>::empty(), keys) == Seq::<Seq<char>>::empty());
        assert(k2 == (if keep_line(e, keys) {
            kept_lines(Seq::<Seq<char>>::empty(), keys).push(e)
        } else {
            kept_lines(Seq::<Seq<char>>::empty(), keys)
        }));
        if keep_line(e, keys) {
            assert(k2 =~= seq![e]);
            assert(join_seq(k2, seq!['\n']) == e);
        } else {
            assert(k2 == Seq::<Seq<char>>::empty());
        }
    } else {
        assert forall|i: int| 0 <= i < k.len() implies !(#[trigger] k[i]).contains('\n') by {
            let j = choose|j: int| 0 <= j < lines.len() && lines[j] == k[i];
            assert(!lines[j].contains('\n'));
        }
        lemma_split_join(k);
        lemma_kept_all(k, keys);
    }
}

} // verus!
