//! File paths as text: the file name and the extension.

use vstd::prelude::*;
use crate::text::{chars_of, string_of};

verus! {

/// Index of the last `c` in `s`, or -1 when `s` holds none.
pub open spec fn last_pos(s: Seq<char>, c: char) -> int
    decreases s.len(),
{
    if s.len() == 0 {
        -1
    } else if s.last() == c {
        s.len() - 1
    } else {
        last_pos(s.drop_last(), c)
    }
}

/// What follows the last `.` of `path`; empty when it has none.
pub open spec fn extension(path: Seq<char>) -> Seq<char> {
    let k = last_pos(path, '.');
    if k < 0 {
        Seq::empty()
    } else {
        path.skip(k + 1)
    }
}

/// What follows the last `/` of `path`: the whole path when it has none.
pub open spec fn file_name(path: Seq<char>) -> Seq<char> {
    path.skip(last_pos(path, '/') + 1)
}

/// The extension of the file's name: what follows the last `.` after the last `/`.
pub open spec fn file_extension(path: Seq<char>) -> Seq<char> {
    extension(file_name(path))
}

/// Whether the file's name begins with a dot.
pub open spec fn is_hidden(path: Seq<char>) -> bool {
    file_name(path).len() > 0 && file_name(path)[0] == '.'
}

pub proof fn lemma_last_pos_bounds(s: Seq<char>, c: char)
    ensures
        -1 <= last_pos(s, c) < s.len(),
        last_pos(s, c) >= 0 ==> s[last_pos(s, c)] == c,
    decreases s.len(),
{
    if s.len() > 0 && s.last() != c {
        lemma_last_pos_bounds(s.drop_last(), c);
    }
}

/// The index of the last `c` in `s`, if any.
fn find_last(s: &Vec<char>, c: char) -> (r: Option<usize>)
    ensures
        match r {
            None => last_pos(s@, c) == -1,
            Some(k) => last_pos(s@, c) == k && k < s@.len(),
        },
{
    let mut i: usize = s.len();
    assert(s@.take(i as int) =~= s@);
    while i > 0
        invariant
            i <= s@.len(),
            last_pos(s@, c) == last_pos(s@.take(i as int), c),
        decreases i,
    {
        assert(s@.take(i as int).drop_last() =~= s@.take(i - 1));
        if s[i - 1] == c {
            return Some(i - 1);
        }
        i = i - 1;
    }
    None
}

/// Copies `s[from..]`.
pub(crate) fn tail(s: &Vec<char>, from: usize) -> (r: Vec<char>)
    requires
        from <= s@.len(),
    ensures
        r@ == s@.skip(from as int),
{
    let mut r: Vec<char> = Vec::new();
    let mut k: usize = from;
    while k < s.len()
        invariant
            from <= k <= s@.len(),
            r@ == s@.subrange(from as int, k as int),
        decreases s@.len() - k,
    {
        r.push(s[k]);
        k = k + 1;
        assert(r@ =~= s@.subrange(from as int, k as int));
    }
    assert(r@ =~= s@.skip(from as int));
    r
}

/// The extension of `path`: what follows its last `.`, or nothing.
pub fn extension_of(path: &str) -> (r: String)
    ensures
        r@ == extension(path@),
{
    let s = chars_of(path);
    proof {
        lemma_last_pos_bounds(s@, '.');
    }
    match find_last(&s, '.') {
        None => {
            let e: Vec<char> = Vec::new();
            assert(e@ =~= extension(path@));
            string_of(&e)
        },
        Some(k) => {
            let n = s.len();
            assert(k < n);
            let t = tail(&s, k + 1);
            string_of(&t)
        },
    }
}

/// Whether the name of the file at `path` begins with a dot.
pub fn is_hidden_file(path: &str) -> (r: bool)
    ensures
        r == is_hidden(path@),
{
    let s = chars_of(path);
    proof {
        lemma_last_pos_bounds(s@, '/');
    }
    let start: usize = match find_last(&s, '/') {
        None => 0,
        Some(k) => k + 1,
    };
    start < s.len() && s[start] == '.'
}

/// The extension of the name of the file at `path`: what follows the last `.`
/// of the text after the last `/`, or nothing.
pub fn file_extension_of(path: &str) -> (r: String)
    ensures
        r@ == file_extension(path@),
{
    let s = chars_of(path);
    proof {
        lemma_last_pos_bounds(s@, '/');
    }
    let start: usize = match find_last(&s, '/') {
        None => 0,
        Some(k) => k + 1,
    };
    let name = tail(&s, start);
    proof {
        lemma_last_pos_bounds(name@, '.');
    }
    match find_last(&name, '.') {
        None => {
            let e: Vec<char> = Vec::new();
            assert(e@ =~= file_extension(path@));
            string_of(&e)
        },
        Some(k) => {
            let n = name.len();
            assert(k < n);
            let t = tail(&name, k + 1);
            string_of(&t)
        },
    }
}

} // verus!
