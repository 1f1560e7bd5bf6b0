//! File paths as `/`-separated strings: joining, parent, extension, as std's `Path`
//! treats them on Unix-like targets, where `/` is the only separator (a `\` is an
//! ordinary character there). Paths with `\` separators, as on Windows, are not
//! modelled.
use vstd::prelude::*;
use crate::text::{chars_of, string_from_chars};

verus! {

/// The index of the last occurrence of `c` in `s`, or -1.
pub open spec fn last_index_of(s: Seq<char>, c: char) -> int
    decreases s.len(),
{
    if s.len() == 0 {
        -1
    } else if s.last() == c {
        s.len() - 1
    } else {
        last_index_of(s.drop_last(), c)
    }
}

pub proof fn lemma_last_index_of(s: Seq<char>, c: char)
    ensures
        -1 <= last_index_of(s, c) < s.len(),
        last_index_of(s, c) >= 0 ==> s[last_index_of(s, c)] == c,
        forall|k: int| last_index_of(s, c) < k < s.len() ==> s[k] != c,
    decreases s.len(),
{
    if s.len() > 0 && s.last() != c {
        lemma_last_index_of(s.drop_last(), c);
        assert forall|k: int| last_index_of(s, c) < k < s.len() implies s[k] != c by {
            if k < s.len() - 1 {
                assert(s[k] == s.drop_last()[k]);
            }
        }
    }
}

/// `a` joined with the relative path `b`, as `Path::join` does on
/// Unix-like targets.
pub open spec fn path_join(a: Seq<char>, b: Seq<char>) -> Seq<char> {
    if a.len() == 0 {
        b
    } else if a.last() == '/' {
        a + b
    } else {
        a + seq!['/'] + b
    }
}

/// The parent directory of a file path, as `Path::parent` gives it on Unix-like
/// targets for a path that names a file: up to the last `/`, `/` itself for a file at
/// the root, and the empty path for a bare file name.
pub open spec fn path_parent(p: Seq<char>) -> Seq<char> {
    let k = last_index_of(p, '/');
    if k < 0 {
        Seq::empty()
    } else if k == 0 {
        seq!['/']
    } else {
        p.take(k)
    }
}

/// The path without the extension of its last component, as
/// `Path::with_extension("")` gives it on Unix-like targets: the last component loses
/// its last `.` and what follows, unless that `.` is the component's first character.
pub open spec fn strip_extension(p: Seq<char>) -> Seq<char> {
    let k = last_index_of(p, '/');
    let name = p.skip(k + 1);
    let d = last_index_of(name, '.');
    if d > 0 {
        p.take(k + 1 + d)
    } else {
        p
    }
}

/// The path with the extension of its last component set to `rs`, as
/// `Path::with_extension("rs")` gives it on Unix-like targets.
pub open spec fn with_rs_extension(p: Seq<char>) -> Seq<char> {
    strip_extension(p) + seq!['.', 'r', 's']
}

/// The index of the last `c` in `s`, if any.
fn last_index_exec(s: &Vec<char>, c: char) -> (r: Option<usize>)
    ensures
        match r {
            Some(k) => k as int == last_index_of(s@, c),
            None => last_index_of(s@, c) == -1,
        },
{
    let mut i: usize = s.len();
    proof {
        assert(s@.take(i as int) =~= s@);
    }
    while i > 0
        invariant
            i <= s.len(),
            last_index_of(s@, c) == last_index_of(s@.take(i as int), c),
        decreases i,
    {
        assert(s@.take(i as int).drop_last() =~= s@.take(i - 1));
        assert(s@.take(i as int).last() == s@[i - 1]);
        if s[i - 1] == c {
            return Some(i - 1);
        }
        i = i - 1;
    }
    None
}

/// The first `n` characters of `s`.
fn take_chars(s: &Vec<char>, n: usize) -> (r: String)
    requires
        n <= s.len(),
    ensures
        r@ == s@.take(n as int),
{
    let mut out: Vec<char> = Vec::new();
    let mut i: usize = 0;
    while i < n
        invariant
            i <= n,
            n <= s.len(),
            out@ == s@.take(i as int),
        decreases n - i,
    {
        out.push(s[i]);
        assert(out@ =~= s@.take(i + 1));
        i = i + 1;
    }
    string_from_chars(&out)
}

/// `a` joined with the relative path `b`.
pub fn join_path(a: &str, b: &str) -> (r: String)
    ensures
        r@ == path_join(a@, b@),
{
    let ac = chars_of(a);
    let mut r = String::new();
    r.append(a);
    if ac.len() > 0 && ac[ac.len() - 1] != '/' {
        r.append("/");
        proof {
            reveal_strlit("/");
            assert("/"@ =~= seq!['/']);
        }
    }
    r.append(b);
    r
}

/// The parent directory of a file path.
pub fn parent_path(p: &str) -> (r: String)
    ensures
        r@ == path_parent(p@),
{
    let pc = chars_of(p);
    match last_index_exec(&pc, '/') {
        None => String::new(),
        Some(k) => {
            if k == 0 {
                let mut r = String::new();
                r.append("/");
                proof {
                    reveal_strlit("/");
                    assert("/"@ =~= seq!['/']);
                    assert(r@ =~= seq!['/']);
                }
                r
            } else {
                proof {
                    lemma_last_index_of(pc@, '/');
                }
                take_chars(&pc, k)
            }
        },
    }
}

/// The path without the extension of its last component.
pub fn strip_extension_path(p: &str) -> (r: String)
    ensures
        r@ == strip_extension(p@),
{
    let pc = chars_of(p);
    let start: usize = match last_index_exec(&pc, '/') {
        None => 0,
        Some(k) => {
            proof {
                lemma_last_index_of(pc@, '/');
            }
            assert(k < pc.len());
            k + 1
        },
    };
    let ghost k = last_index_of(pc@, '/');
    assert(start as int == k + 1);
    let mut name: Vec<char> = Vec::new();
    let mut i: usize = start;
    while i < pc.len()
        invariant
            start <= i <= pc.len(),
            name@ == pc@.subrange(start as int, i as int),
        decreases pc.len() - i,
    {
        name.push(pc[i]);
        assert(name@ =~= pc@.subrange(start as int, i + 1));
        i = i + 1;
    }
    assert(name@ =~= pc@.skip(k + 1));
    match last_index_exec(&name, '.') {
        Some(d) => {
            if d > 0 {
                proof {
                    lemma_last_index_of(name@, '.');
                }
                take_chars(&pc, start + d)
            } else {
                string_from_chars(&pc)
            }
        },
        None => string_from_chars(&pc),
    }
}

/// The path with the extension of its last component set to `rs`.
pub fn with_rs_extension_path(p: &str) -> (r: String)
    ensures
        r@ == with_rs_extension(p@),
{
    let mut r = strip_extension_path(p);
    r.append(".rs");
    proof {
        reveal_strlit(".rs");
        assert(".rs"@ =~= seq!['.', 'r', 's']);
    }
    r
}

} // verus!
