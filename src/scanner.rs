//! The line scanner: finds marker lines in a text and replaces each with a banner.

use vstd::prelude::*;
use crate::banner::{
    banner, banner_chars, banner_lines, banner_width, framed_line, padded, separator_line, MIN_WIDTH,
    terminated,
};
use crate::paths::tail;
use crate::text::{chars_of, push_all, repeat, string_of};

verus! {

/// The pieces of `s` between newlines; always at least one (the text after the
/// last newline, possibly empty).
pub open spec fn segments(s: Seq<char>) -> Seq<Seq<char>>
    decreases s.len(),
{
    if s.len() == 0 {
        seq![Seq::empty()]
    } else {
        let prev = segments(s.drop_last());
        if s.last() == '\n' {
            prev.push(Seq::empty())
        } else {
            prev.update(prev.len() - 1, prev.last().push(s.last()))
        }
    }
}

/// The lines of `s`: the pieces between newlines, where a newline at the very
/// end ends the last line rather than starting an empty one. An empty text has
/// no lines. Every other character, a carriage return too, stays in its line.
pub open spec fn lines(s: Seq<char>) -> Seq<Seq<char>> {
    let segs = segments(s);
    if segs.last().len() == 0 {
        segs.drop_last()
    } else {
        segs
    }
}

/// The pieces joined with a newline between each two.
pub open spec fn join(pieces: Seq<Seq<char>>) -> Seq<char>
    decreases pieces.len(),
{
    if pieces.len() == 0 {
        Seq::empty()
    } else if pieces.len() == 1 {
        pieces[0]
    } else {
        join(pieces.drop_last()) + seq!['\n'] + pieces.last()
    }
}

/// Whether `c` is white space (Unicode's `White_Space` property).
pub open spec fn is_space(c: char) -> bool {
    let u = c as u32;
    (0x9 <= u && u <= 0xD) || u == 0x20 || u == 0x85 || u == 0xA0 || u == 0x1680 || (0x2000 <= u
        && u <= 0x200A) || u == 0x2028 || u == 0x2029 || u == 0x202F || u == 0x205F || u == 0x3000
}

/// `s` without its leading white space.
pub open spec fn trim_start(s: Seq<char>) -> Seq<char>
    decreases s.len(),
{
    if s.len() > 0 && is_space(s[0]) {
        trim_start(s.drop_first())
    } else {
        s
    }
}

/// `s` without its trailing white space.
pub open spec fn trim_end(s: Seq<char>) -> Seq<char>
    decreases s.len(),
{
    if s.len() > 0 && is_space(s.last()) {
        trim_end(s.drop_last())
    } else {
        s
    }
}

/// `s` without white space at either end.
pub open spec fn trim(s: Seq<char>) -> Seq<char> {
    trim_end(trim_start(s))
}

/// The marker: the comment prefix, `#`, and the comment prefix again.
pub open spec fn marker(comment: Seq<char>) -> Seq<char> {
    comment + seq!['#'] + comment
}

/// Whether `line`, after its leading white space, begins with the marker of
/// `comment`.
pub open spec fn is_marker(line: Seq<char>, comment: Seq<char>) -> bool {
    let m = marker(comment);
    let t = trim_start(line);
    m.len() <= t.len() && t.take(m.len() as int) == m
}

/// The banner label of a marker line: what follows the marker, trimmed.
pub open spec fn label(line: Seq<char>, comment: Seq<char>) -> Seq<char> {
    trim(trim_start(line).skip(marker(comment).len() as int))
}

/// What a line becomes: a marker line its banner, any other line itself.
pub open spec fn render_line(line: Seq<char>, comment: Seq<char>) -> Seq<char> {
    if is_marker(line, comment) {
        banner(label(line, comment), comment)
    } else {
        line
    }
}

/// Whether some line of `s` is a marker line.
pub open spec fn has_marker(s: Seq<char>, comment: Seq<char>) -> bool {
    exists|i: int| 0 <= i < lines(s).len() && is_marker(#[trigger] lines(s)[i], comment)
}

/// The rendered lines of `s`, one piece for each line.
pub open spec fn rendered(s: Seq<char>, comment: Seq<char>) -> Seq<Seq<char>> {
    lines(s).map_values(|l: Seq<char>| render_line(l, comment))
}

/// `s` with each marker line replaced by its banner, lines joined by newlines.
pub open spec fn formatted(s: Seq<char>, comment: Seq<char>) -> Seq<char> {
    join(rendered(s, comment))
}

proof fn lemma_segments_nonempty(s: Seq<char>)
    ensures
        segments(s).len() >= 1,
    decreases s.len(),
{
    if s.len() > 0 {
        lemma_segments_nonempty(s.drop_last());
    }
}

/// The view of each vector of characters.
pub open spec fn views(v: Seq<Vec<char>>) -> Seq<Seq<char>> {
    v.map_values(|l: Vec<char>| l@)
}

/// Splits `s` into its lines.
pub fn split_lines(s: &Vec<char>) -> (r: Vec<Vec<char>>)
    ensures
        views(r@) == lines(s@),
{
    let mut done: Vec<Vec<char>> = Vec::new();
    let mut cur: Vec<char> = Vec::new();
    let mut i: usize = 0;
    proof {
        assert(s@.take(0) =~= Seq::<char>::empty());
        assert(views(done@) =~= segments(s@.take(0)).drop_last());
    }
    while i < s.len()
        invariant
            i <= s@.len(),
            segments(s@.take(i as int)).len() >= 1,
            views(done@) == segments(s@.take(i as int)).drop_last(),
            cur@ == segments(s@.take(i as int)).last(),
        decreases s@.len() - i,
    {
        let c = s[i];
        proof {
            assert(s@.take(i + 1).drop_last() =~= s@.take(i as int));
        }
        if c == '\n' {
            let ghost prev = segments(s@.take(i as int));
            let ghost before = views(done@);
            let ghost cv = cur@;
            done.push(cur);
            assert(views(done@) =~= before.push(cv));
            assert(prev.drop_last().push(prev.last()) =~= prev);
            cur = Vec::new();
            i = i + 1;
            proof {
                assert(segments(s@.take(i as int)) == prev.push(Seq::empty()));
                assert(segments(s@.take(i as int)).drop_last() =~= prev);
                assert(views(done@) =~= prev);
            }
        } else {
            cur.push(c);
            i = i + 1;
            proof {
                assert(segments(s@.take(i as int)).drop_last() =~= segments(
                    s@.take(i - 1),
                ).drop_last());
            }
        }
    }
    proof {
        assert(s@.take(i as int) =~= s@);
    }
    if cur.len() > 0 {
        let ghost before = views(done@);
        let ghost cv = cur@;
        done.push(cur);
        proof {
            let segs = segments(s@);
            assert(views(done@) =~= before.push(cv));
            assert(segs.drop_last().push(segs.last()) =~= segs);
            assert(views(done@) =~= lines(s@));
        }
    }
    done
}

/// Whether `line` begins with `m`.
fn starts_with(line: &Vec<char>, m: &Vec<char>) -> (r: bool)
    ensures
        r == (m@.len() <= line@.len() && line@.take(m@.len() as int) == m@),
{
    if m.len() > line.len() {
        return false;
    }
    let mut i: usize = 0;
    while i < m.len()
        invariant
            m@.len() <= line@.len(),
            i <= m@.len(),
            line@.take(i as int) == m@.take(i as int),
        decreases m@.len() - i,
    {
        if line[i] != m[i] {
            assert(line@.take(m@.len() as int)[i as int] != m@[i as int]);
            return false;
        }
        i = i + 1;
        assert(line@.take(i as int) =~= line@.take(i - 1).push(line@[i - 1]));
        assert(m@.take(i as int) =~= m@.take(i - 1).push(m@[i - 1]));
    }
    assert(m@.take(i as int) =~= m@);
    true
}

/// How many white-space characters `s` begins with.
fn leading_spaces(s: &Vec<char>) -> (a: usize)
    ensures
        a <= s@.len(),
        s@.skip(a as int) == trim_start(s@),
{
    let mut a: usize = 0;
    while a < s.len() && is_space_char(s[a])
        invariant
            a <= s@.len(),
            forall|j: int| 0 <= j < a ==> is_space(#[trigger] s@[j]),
        decreases s@.len() - a,
    {
        a = a + 1;
    }
    proof {
        lemma_trim_start_skip(s@, a as int);
        let u = s@.skip(a as int);
        if u.len() > 0 {
            assert(u[0] == s@[a as int]);
        }
        assert(trim_start(u) == u);
    }
    a
}

/// Whether `c` is white space.
pub fn is_space_char(c: char) -> (r: bool)
    ensures
        r == is_space(c),
{
    let u = c as u32;
    (0x9 <= u && u <= 0xD) || u == 0x20 || u == 0x85 || u == 0xA0 || u == 0x1680 || (0x2000 <= u
        && u <= 0x200A) || u == 0x2028 || u == 0x2029 || u == 0x202F || u == 0x205F || u == 0x3000
}

proof fn lemma_trim_start_skip(s: Seq<char>, k: int)
    requires
        0 <= k <= s.len(),
        forall|j: int| 0 <= j < k ==> is_space(#[trigger] s[j]),
    ensures
        trim_start(s) == trim_start(s.skip(k)),
    decreases k,
{
    if k > 0 {
        assert(is_space(s[0]));
        assert(s.drop_first().skip(k - 1) =~= s.skip(k));
        assert forall|j: int| 0 <= j < k - 1 implies is_space(#[trigger] s.drop_first()[j]) by {
            assert(is_space(s[j + 1]));
        }
        lemma_trim_start_skip(s.drop_first(), k - 1);
    } else {
        assert(s.skip(0) =~= s);
    }
}

proof fn lemma_trim_end_take(s: Seq<char>, k: int)
    requires
        0 <= k <= s.len(),
        forall|j: int| k <= j < s.len() ==> is_space(#[trigger] s[j]),
    ensures
        trim_end(s) == trim_end(s.take(k)),
    decreases s.len() - k,
{
    if k < s.len() {
        assert(s.drop_last().take(k) =~= s.take(k));
        lemma_trim_end_take(s.drop_last(), k);
    } else {
        assert(s.take(k) =~= s);
    }
}

/// `s[from..]` without white space at either end.
fn trimmed_tail(s: &Vec<char>, from: usize) -> (r: Vec<char>)
    requires
        from <= s@.len(),
    ensures
        r@ == trim(s@.skip(from as int)),
{
    let ghost t = s@.skip(from as int);
    let mut a: usize = from;
    while a < s.len() && is_space_char(s[a])
        invariant
            from <= a <= s@.len(),
            t == s@.skip(from as int),
            forall|j: int| 0 <= j < a - from ==> is_space(#[trigger] t[j]),
        decreases s@.len() - a,
    {
        assert(t[a - from] == s@[a as int]);
        a = a + 1;
    }
    let ghost u = s@.skip(a as int);
    proof {
        lemma_trim_start_skip(t, a - from);
        assert(t.skip(a - from) =~= u);
    }
    let mut b: usize = s.len();
    while b > a && is_space_char(s[b - 1])
        invariant
            a <= b <= s@.len(),
            u == s@.skip(a as int),
            forall|j: int| b - a <= j < u.len() ==> is_space(#[trigger] u[j]),
        decreases b,
    {
        assert(u[b - 1 - a] == s@[b - 1]);
        b = b - 1;
    }
    proof {
        lemma_trim_end_take(u, b - a);
    }
    let mut r: Vec<char> = Vec::new();
    let mut k: usize = a;
    while k < b
        invariant
            a <= k <= b <= s@.len(),
            r@ == s@.subrange(a as int, k as int),
        decreases b - k,
    {
        r.push(s[k]);
        k = k + 1;
        assert(r@ =~= s@.subrange(a as int, k as int));
    }
    proof {
        assert(u.take(b - a) =~= s@.subrange(a as int, b as int));
        assert(trim_start(u) == u);
        assert(trim_end(u.take(b - a)) == u.take(b - a));
    }
    r
}

/// Rewrites each marker line of `content` into its banner, for the comment
/// prefix `comment`. Gives the new text when some line was a marker line, and
/// `None` when the text has none and is to be left as it is.
pub fn format_text(content: &str, comment: &str) -> (r: Option<String>)
    ensures
        r is Some <==> has_marker(content@, comment@),
        r matches Some(t) ==> t@ == formatted(content@, comment@),
{
    let s = chars_of(content);
    let prefix = chars_of(comment);
    let mut m: Vec<char> = Vec::new();
    push_all(&mut m, &prefix);
    m.push('#');
    push_all(&mut m, &prefix);
    assert(m@ =~= marker(comment@));
    let ls = split_lines(&s);
    let ghost pieces = rendered(content@, comment@);
    let mut out: Vec<char> = Vec::new();
    let mut modified = false;
    let mut i: usize = 0;
    while i < ls.len()
        invariant
            views(ls@) == lines(s@),
            s@ == content@,
            m@ == marker(comment@),
            prefix@ == comment@,
            pieces == rendered(content@, comment@),
            i <= ls@.len(),
            out@ == join(pieces.take(i as int)),
            modified == exists|j: int| 0 <= j < i && is_marker(#[trigger] lines(s@)[j], comment@),
        decreases ls@.len() - i,
    {
        let ghost before = out@;
        if i > 0 {
            out.push('\n');
        }
        let line = &ls[i];
        assert(line@ == lines(s@)[i as int]);
        let a = leading_spaces(line);
        let t = tail(line, a);
        if starts_with(&t, &m) {
            let lab = trimmed_tail(&t, m.len());
            let b = banner_chars(&lab, &prefix);
            push_all(&mut out, &b);
            modified = true;
        } else {
            push_all(&mut out, line);
        }
        i = i + 1;
        proof {
            assert(pieces.take(i as int).drop_last() =~= pieces.take(i - 1));
            if i == 1 {
                assert(out@ =~= pieces.take(i as int)[0]);
            } else {
                assert(out@ =~= before + seq!['\n'] + pieces.take(i as int).last());
            }
        }
    }
    assert(pieces.take(i as int) =~= pieces);
    if modified {
        Some(string_of(&out))
    } else {
        None
    }
}

/// Whether `s` holds no newline.
pub open spec fn no_newline(s: Seq<char>) -> bool {
    forall|i: int| 0 <= i < s.len() ==> s[i] != '\n'
}

/// Every piece of `s` between newlines is a line that is no marker line.
pub open spec fn all_clean(s: Seq<char>, comment: Seq<char>) -> bool {
    forall|k: int| 0 <= k < segments(s).len() ==> !is_marker(#[trigger] segments(s)[k], comment)
}

proof fn lemma_segments_no_newline(s: Seq<char>)
    ensures
        forall|k: int| 0 <= k < segments(s).len() ==> no_newline(#[trigger] segments(s)[k]),
    decreases s.len(),
{
    if s.len() > 0 {
        lemma_segments_no_newline(s.drop_last());
        lemma_segments_nonempty(s.drop_last());
    }
}

proof fn lemma_segments_single(s: Seq<char>)
    requires
        no_newline(s),
    ensures
        segments(s) == seq![s],
    decreases s.len(),
{
    if s.len() > 0 {
        assert(s[s.len() - 1] != '\n');
        assert(no_newline(s.drop_last()));
        lemma_segments_single(s.drop_last());
        assert(s.drop_last().push(s.last()) =~= s);
        assert(segments(s) =~= seq![s]);
    } else {
        assert(s =~= Seq::<char>::empty());
    }
}

proof fn lemma_segments_join(a: Seq<char>, b: Seq<char>)
    ensures
        segments(a + seq!['\n'] + b) == segments(a) + segments(b),
    decreases b.len(),
{
    let s = a + seq!['\n'] + b;
    if b.len() == 0 {
        assert(s.drop_last() =~= a);
        assert(segments(s) =~= segments(a) + segments(b));
    } else {
        assert(s.drop_last() =~= a + seq!['\n'] + b.drop_last());
        lemma_segments_join(a, b.drop_last());
        lemma_segments_nonempty(b.drop_last());
        lemma_segments_nonempty(a);
        assert(segments(s) =~= segments(a) + segments(b));
    }
}

proof fn lemma_segments_terminated(ls: Seq<Seq<char>>, x: Seq<char>)
    requires
        forall|k: int| 0 <= k < ls.len() ==> no_newline(#[trigger] ls[k]),
    ensures
        segments(terminated(ls) + x) == ls + segments(x),
    decreases ls.len(),
{
    if ls.len() == 0 {
        assert(terminated(ls) + x =~= x);
        assert(ls + segments(x) =~= segments(x));
    } else {
        let l = ls.last();
        let rest = ls.drop_last();
        assert(no_newline(l));
        assert(terminated(ls) + x =~= (terminated(rest) + l) + seq!['\n'] + x);
        lemma_segments_join(terminated(rest) + l, x);
        lemma_segments_terminated(rest, l);
        lemma_segments_single(l);
        assert(rest + seq![l] =~= ls);
        assert(ls + segments(x) =~= (rest + segments(l)) + segments(x));
    }
}

proof fn lemma_trim_start_first(s: Seq<char>)
    ensures
        trim_start(s).len() > 0 ==> !is_space(trim_start(s)[0]),
    decreases s.len(),
{
    if s.len() > 0 && is_space(s[0]) {
        lemma_trim_start_first(s.drop_first());
    }
}

/// A line that begins with the comment prefix (itself beginning with no white
/// space) followed by `c`, a character other than `#`, is no marker line.
proof fn lemma_framed_not_marker(x: Seq<char>, comment: Seq<char>, c: char)
    requires
        c != '#',
        comment.len() > 0,
        !is_space(comment[0]),
        x.len() >= comment.len() + 1,
        x.take(comment.len() as int) == comment,
        x[comment.len() as int] == c,
    ensures
        !is_marker(x, comment),
{
    let m = marker(comment);
    let n = comment.len() as int;
    assert(x[0] == x.take(n)[0]);
    assert(trim_start(x) == x);
    assert(m[n] == '#');
    if is_marker(x, comment) {
        assert(x.take(m.len() as int)[n] == x[n]);
    }
}

proof fn lemma_trim_start_no_newline(s: Seq<char>)
    requires
        no_newline(s),
    ensures
        no_newline(trim_start(s)),
    decreases s.len(),
{
    if s.len() > 0 && is_space(s[0]) {
        assert(no_newline(s.drop_first()));
        lemma_trim_start_no_newline(s.drop_first());
    }
}

proof fn lemma_trim_end_no_newline(s: Seq<char>)
    requires
        no_newline(s),
    ensures
        no_newline(trim_end(s)),
    decreases s.len(),
{
    if s.len() > 0 && is_space(s.last()) {
        assert(no_newline(s.drop_last()));
        lemma_trim_end_no_newline(s.drop_last());
    }
}

proof fn lemma_banner_segments(text: Seq<char>, comment: Seq<char>)
    requires
        no_newline(text),
        no_newline(comment),
    ensures
        segments(banner(text, comment)) == banner_lines(text, comment) + seq![Seq::<char>::empty()],
{
    let ls = banner_lines(text, comment);
    let w = banner_width(text);
    assert(no_newline(repeat('-', w + 2)));
    assert(no_newline(padded(Seq::empty(), w)));
    assert(no_newline(padded(text, w)));
    assert(no_newline(separator_line(comment, w)));
    assert(no_newline(framed_line(comment, Seq::empty(), w)));
    assert(no_newline(framed_line(comment, text, w)));
    assert forall|k: int| 0 <= k < ls.len() implies no_newline(#[trigger] ls[k]) by {}
    lemma_segments_terminated(ls, Seq::empty());
    assert(banner(text, comment) + Seq::<char>::empty() =~= banner(text, comment));
    assert(segments(Seq::<char>::empty()) == seq![Seq::<char>::empty()]);
}

/// Read line by line, the banner of a label without newlines, for a prefix without
/// newlines, has the label line third: `max(len, MIN_WIDTH)` characters of label
/// field between two padding spaces and the two prefixes.
pub proof fn lemma_banner_label_line(text: Seq<char>, comment: Seq<char>)
    requires
        no_newline(text),
        no_newline(comment),
    ensures
        segments(banner(text, comment)).len() == 6,
        segments(banner(text, comment))[2] == comment + seq![' '] + padded(
            text,
            banner_width(text),
        ) + seq![' '] + comment,
        padded(text, banner_width(text)).len() == if text.len() > MIN_WIDTH {
            text.len()
        } else {
            MIN_WIDTH as nat
        },
{
    lemma_banner_segments(text, comment);
}

proof fn lemma_banner_clean(text: Seq<char>, comment: Seq<char>)
    requires
        no_newline(text),
        no_newline(comment),
        comment.len() > 0,
        !is_space(comment[0]),
    ensures
        all_clean(banner(text, comment), comment),
{
    let ls = banner_lines(text, comment);
    let w = banner_width(text);
    let n = comment.len() as int;
    let sep = separator_line(comment, w);
    let blank = framed_line(comment, Seq::empty(), w);
    let full = framed_line(comment, text, w);
    lemma_banner_segments(text, comment);
    assert(sep.take(n) =~= comment);
    assert(blank.take(n) =~= comment);
    assert(full.take(n) =~= comment);
    assert(sep[n] == '-');
    assert(blank[n] == ' ');
    assert(full[n] == ' ');
    lemma_framed_not_marker(sep, comment, '-');
    lemma_framed_not_marker(blank, comment, ' ');
    lemma_framed_not_marker(full, comment, ' ');
    let segs = segments(banner(text, comment));
    assert forall|k: int| 0 <= k < segs.len() implies !is_marker(#[trigger] segs[k], comment) by {
        if k == 5 {
            assert(segs[k] == Seq::<char>::empty());
        } else {
            assert(segs[k] == ls[k]);
        }
    }
}

proof fn lemma_lines_no_newline(s: Seq<char>)
    ensures
        forall|k: int| 0 <= k < lines(s).len() ==> no_newline(#[trigger] lines(s)[k]),
{
    lemma_segments_no_newline(s);
    lemma_segments_nonempty(s);
    assert forall|k: int| 0 <= k < lines(s).len() implies no_newline(#[trigger] lines(s)[k]) by {
        assert(lines(s)[k] == segments(s)[k]);
    }
}

proof fn lemma_pieces_clean(content: Seq<char>, comment: Seq<char>)
    requires
        no_newline(comment),
        comment.len() > 0,
        !is_space(comment[0]),
    ensures
        forall|k: int|
            0 <= k < rendered(content, comment).len() ==> all_clean(
                #[trigger] rendered(content, comment)[k],
                comment,
            ),
{
    lemma_lines_no_newline(content);
    assert forall|k: int| 0 <= k < rendered(content, comment).len() implies all_clean(
        #[trigger] rendered(content, comment)[k],
        comment,
    ) by {
        let l = lines(content)[k];
        assert(no_newline(l));
        if is_marker(l, comment) {
            lemma_trim_start_no_newline(l);
            let rest = trim_start(l).skip(marker(comment).len() as int);
            assert(no_newline(rest));
            lemma_trim_start_no_newline(rest);
            lemma_trim_end_no_newline(trim_start(rest));
            lemma_banner_clean(label(l, comment), comment);
        } else {
            lemma_segments_single(l);
            assert(segments(l)[0] == l);
        }
    }
}

proof fn lemma_join_clean(pieces: Seq<Seq<char>>, comment: Seq<char>)
    requires
        comment.len() > 0,
        forall|k: int| 0 <= k < pieces.len() ==> all_clean(#[trigger] pieces[k], comment),
    ensures
        all_clean(join(pieces), comment),
    decreases pieces.len(),
{
    if pieces.len() == 0 {
        assert(segments(join(pieces)) == seq![Seq::<char>::empty()]);
        assert(trim_start(Seq::<char>::empty()) == Seq::<char>::empty());
    } else if pieces.len() == 1 {
        assert(all_clean(pieces[0], comment));
    } else {
        let rest = pieces.drop_last();
        assert forall|k: int| 0 <= k < rest.len() implies all_clean(#[trigger] rest[k], comment) by {
            assert(rest[k] == pieces[k]);
        }
        lemma_join_clean(rest, comment);
        assert(all_clean(pieces.last(), comment));
        lemma_segments_join(join(rest), pieces.last());
        let segs = segments(join(pieces));
        let a = segments(join(rest));
        assert forall|k: int| 0 <= k < segs.len() implies !is_marker(#[trigger] segs[k], comment) by {
            if k < a.len() {
                assert(segs[k] == a[k]);
            } else {
                assert(segs[k] == segments(pieces.last())[k - a.len()]);
            }
        }
    }
}

proof fn lemma_clean_no_marker(s: Seq<char>, comment: Seq<char>)
    requires
        all_clean(s, comment),
    ensures
        !has_marker(s, comment),
{
    lemma_segments_nonempty(s);
    assert forall|k: int| 0 <= k < lines(s).len() implies !is_marker(#[trigger] lines(s)[k], comment) by {
        assert(lines(s)[k] == segments(s)[k]);
    }
}

/// Formatting is idempotent: once the marker lines of a text are rewritten, the
/// result has no marker line left, so formatting it again changes nothing.
pub proof fn lemma_format_idempotent(content: Seq<char>, comment: Seq<char>)
    requires
        comment.len() > 0,
    ensures
        !has_marker(formatted(content, comment), comment),
{
    lemma_lines_no_newline(content);
    if has_marker(content, comment) {
        let i = choose|i: int|
            0 <= i < lines(content).len() && is_marker(#[trigger] lines(content)[i], comment);
        let l = lines(content)[i];
        let t = trim_start(l);
        let m = marker(comment);
        assert(no_newline(l));
        lemma_trim_start_no_newline(l);
        lemma_trim_start_first(l);
        assert(t.take(m.len() as int)[0] == t[0]);
        assert(m[0] == comment[0]);
        assert forall|j: int| 0 <= j < comment.len() implies comment[j] != '\n' by {
            assert(m[j] == comment[j]);
            assert(t.take(m.len() as int)[j] == t[j]);
        }
        lemma_pieces_clean(content, comment);
        lemma_join_clean(rendered(content, comment), comment);
        lemma_clean_no_marker(formatted(content, comment), comment);
    } else {
        let pieces = rendered(content, comment);
        assert forall|k: int| 0 <= k < pieces.len() implies all_clean(#[trigger] pieces[k], comment) by {
            let l = lines(content)[k];
            assert(!is_marker(l, comment));
            lemma_segments_single(l);
            assert(segments(l)[0] == l);
        }
        lemma_join_clean(pieces, comment);
        lemma_clean_no_marker(formatted(content, comment), comment);
    }
}

/// Where the pieces of the `k`-th of `pieces` begin among the pieces between
/// newlines of their join.
pub open spec fn piece_offset(pieces: Seq<Seq<char>>, k: int) -> int
    decreases k,
{
    if k <= 0 {
        0
    } else {
        piece_offset(pieces, k - 1) + segments(pieces[k - 1]).len()
    }
}

proof fn lemma_offset_prefix(pieces: Seq<Seq<char>>, n: int, k: int)
    requires
        0 <= k <= n <= pieces.len(),
    ensures
        piece_offset(pieces.take(n), k) == piece_offset(pieces, k),
        piece_offset(pieces, k) >= 0,
    decreases k,
{
    if k > 0 {
        lemma_offset_prefix(pieces, n, k - 1);
        assert(pieces.take(n)[k - 1] == pieces[k - 1]);
    }
}

proof fn lemma_offset_increasing(pieces: Seq<Seq<char>>, k1: int, k2: int)
    requires
        0 <= k1 < k2 <= pieces.len(),
    ensures
        piece_offset(pieces, k1) < piece_offset(pieces, k2),
    decreases k2,
{
    lemma_segments_nonempty(pieces[k2 - 1]);
    if k1 < k2 - 1 {
        lemma_offset_increasing(pieces, k1, k2 - 1);
    }
}

proof fn lemma_join_segments_at(pieces: Seq<Seq<char>>, k: int)
    requires
        0 <= k < pieces.len(),
    ensures
        segments(join(pieces)).len() == piece_offset(pieces, pieces.len() as int),
        piece_offset(pieces, k) + segments(pieces[k]).len() <= segments(join(pieces)).len(),
        forall|j: int|
            0 <= j < segments(pieces[k]).len() ==> segments(join(pieces))[piece_offset(pieces, k)
                + j] == #[trigger] segments(pieces[k])[j],
    decreases pieces.len(),
{
    let n = pieces.len() as int;
    if n == 1 {
        assert(piece_offset(pieces, 1) == piece_offset(pieces, 0) + segments(pieces[0]).len());
    } else {
        let rest = pieces.drop_last();
        assert(rest =~= pieces.take(n - 1));
        lemma_segments_join(join(rest), pieces.last());
        lemma_offset_prefix(pieces, n - 1, n - 1);
        let whole = segments(join(pieces));
        let a = segments(join(rest));
        assert(whole == a + segments(pieces.last()));
        if k < n - 1 {
            lemma_join_segments_at(rest, k);
            lemma_offset_prefix(pieces, n - 1, k);
            lemma_offset_prefix(pieces, n - 1, k + 1);
            if k + 1 < n - 1 {
                lemma_offset_increasing(rest, k + 1, n - 1);
            }
            assert(rest[k] == pieces[k]);
            assert forall|j: int| 0 <= j < segments(pieces[k]).len() implies whole[piece_offset(
                pieces,
                k,
            ) + j] == #[trigger] segments(pieces[k])[j] by {
                assert(piece_offset(rest, k) + segments(rest[k]).len() <= a.len());
                assert(a[piece_offset(rest, k) + j] == segments(rest[k])[j]);
                assert(piece_offset(rest, k) == piece_offset(pieces, k));
                assert(piece_offset(pieces, k) + j < a.len());
                assert((a + segments(pieces.last()))[piece_offset(pieces, k) + j] == a[piece_offset(
                    pieces,
                    k,
                ) + j]);
            }
        } else {
            lemma_join_segments_at(rest, 0);
            assert forall|j: int| 0 <= j < segments(pieces[k]).len() implies whole[piece_offset(
                pieces,
                k,
            ) + j] == #[trigger] segments(pieces[k])[j] by {
                assert(pieces.last() == pieces[k]);
                assert(piece_offset(pieces, k) == a.len());
                assert((a + segments(pieces.last()))[a.len() + j] == segments(pieces.last())[j]);
            }
        }
    }
}

/// Lines that are not marker lines come through byte for byte and in their
/// order: read on newlines, the formatted text holds each such line at the
/// place where its piece begins, and those places rise with the line's index.
pub proof fn lemma_pass_through(content: Seq<char>, comment: Seq<char>)
    ensures
        forall|k: int|
            0 <= k < lines(content).len() && !is_marker(#[trigger] lines(content)[k], comment)
                ==> piece_offset(rendered(content, comment), k) < segments(
                formatted(content, comment),
            ).len() && segments(formatted(content, comment))[piece_offset(
                rendered(content, comment),
                k,
            )] == lines(content)[k],
        forall|k1: int, k2: int|
            0 <= k1 < k2 < lines(content).len() ==> #[trigger] piece_offset(
                rendered(content, comment),
                k1,
            ) < #[trigger] piece_offset(rendered(content, comment), k2),
{
    let pieces = rendered(content, comment);
    lemma_lines_no_newline(content);
    assert forall|k: int|
        0 <= k < lines(content).len() && !is_marker(#[trigger] lines(content)[k], comment)
            implies piece_offset(pieces, k) < segments(formatted(content, comment)).len()
            && segments(formatted(content, comment))[piece_offset(pieces, k)]
            == lines(content)[k] by {
        let l = lines(content)[k];
        lemma_segments_single(l);
        assert(pieces[k] == l);
        lemma_join_segments_at(pieces, k);
        assert(segments(pieces[k])[0] == l);
        assert(piece_offset(pieces, k + 1) == piece_offset(pieces, k) + 1);
        if k + 1 < pieces.len() {
            lemma_offset_increasing(pieces, k + 1, pieces.len() as int);
        }
    }
    assert forall|k1: int, k2: int| 0 <= k1 < k2 < lines(content).len() implies #[trigger] piece_offset(
        pieces,
        k1,
    ) < #[trigger] piece_offset(pieces, k2) by {
        lemma_offset_increasing(pieces, k1, k2);
    }
}

} // verus!
