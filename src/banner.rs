//! The banner block: a framed five-line comment that replaces a marker line.

use vstd::prelude::*;
use crate::text::{chars_of, push_all, push_repeat, repeat, string_of};

verus! {

/// The narrowest content field a banner has, in characters.
pub const MIN_WIDTH: usize = 40;

/// Width of the content field: the label's length, but never under `MIN_WIDTH`.
pub open spec fn banner_width(content: Seq<char>) -> nat {
    if content.len() > MIN_WIDTH {
        content.len()
    } else {
        MIN_WIDTH as nat
    }
}

/// `text` followed by spaces up to `width` characters.
pub open spec fn padded(text: Seq<char>, width: nat) -> Seq<char> {
    text + repeat(' ', (width - text.len()) as nat)
}

/// The top and bottom line: dashes across the field and its two padding spaces.
pub open spec fn separator_line(comment: Seq<char>, width: nat) -> Seq<char> {
    comment + repeat('-', width + 2) + comment
}

/// An inner line: `text` padded to the field's width, framed by a space and the
/// comment prefix on each side.
pub open spec fn framed_line(comment: Seq<char>, text: Seq<char>, width: nat) -> Seq<char> {
    comment + seq![' '] + padded(text, width) + seq![' '] + comment
}

/// The five lines of the banner for `content`, without their line ends.
pub open spec fn banner_lines(content: Seq<char>, comment: Seq<char>) -> Seq<Seq<char>> {
    let w = banner_width(content);
    seq![
        separator_line(comment, w),
        framed_line(comment, Seq::empty(), w),
        framed_line(comment, content, w),
        framed_line(comment, Seq::empty(), w),
        separator_line(comment, w),
    ]
}

/// Each line followed by a newline, all concatenated.
pub open spec fn terminated(lines: Seq<Seq<char>>) -> Seq<char>
    decreases lines.len(),
{
    if lines.len() == 0 {
        Seq::empty()
    } else {
        terminated(lines.drop_last()) + lines.last() + seq!['\n']
    }
}

/// The banner text for `content`: its five lines, each ended by a newline.
pub open spec fn banner(content: Seq<char>, comment: Seq<char>) -> Seq<char> {
    terminated(banner_lines(content, comment))
}

/// The label line of every banner holds exactly `max(len, MIN_WIDTH)` characters
/// between the two padding spaces that follow and precede the comment prefixes,
/// starting with the label itself and filled up with spaces.
pub proof fn lemma_banner_width(content: Seq<char>, comment: Seq<char>)
    ensures
        banner_lines(content, comment).len() == 5,
        banner_lines(content, comment)[2] == comment + seq![' '] + padded(
            content,
            banner_width(content),
        ) + seq![' '] + comment,
        padded(content, banner_width(content)).len() == if content.len() > MIN_WIDTH {
            content.len()
        } else {
            MIN_WIDTH as nat
        },
        padded(content, banner_width(content)).take(content.len() as int) == content,
        forall|i: int|
            content.len() <= i < banner_width(content) ==> #[trigger] padded(
                content,
                banner_width(content),
            )[i] == ' ',
{
    assert(padded(content, banner_width(content)).take(content.len() as int) =~= content);
}

/// Appends `line` and a newline to `out`.
fn push_line(out: &mut Vec<char>, line: &Vec<char>)
    ensures
        final(out)@ == old(out)@ + line@ + seq!['\n'],
{
    push_all(out, line);
    out.push('\n');
}

/// Builds the framed line of `text` in a field `width` characters wide.
fn build_framed(comment: &Vec<char>, text: &Vec<char>, width: usize) -> (r: Vec<char>)
    requires
        text@.len() <= width,
    ensures
        r@ == framed_line(comment@, text@, width as nat),
{
    let mut r: Vec<char> = Vec::new();
    push_all(&mut r, comment);
    r.push(' ');
    push_all(&mut r, text);
    push_repeat(&mut r, ' ', width - text.len());
    r.push(' ');
    push_all(&mut r, comment);
    assert(r@ =~= framed_line(comment@, text@, width as nat));
    r
}

/// Builds the banner of `text` framed by `prefix`, as characters.
pub(crate) fn banner_chars(text: &Vec<char>, prefix: &Vec<char>) -> (r: Vec<char>)
    ensures
        r@ == banner(text@, prefix@),
{
    let width: usize = if text.len() > MIN_WIDTH {
        text.len()
    } else {
        MIN_WIDTH
    };
    let mut sep: Vec<char> = Vec::new();
    push_all(&mut sep, prefix);
    push_repeat(&mut sep, '-', width);
    sep.push('-');
    sep.push('-');
    push_all(&mut sep, prefix);
    let empty: Vec<char> = Vec::new();
    let blank = build_framed(prefix, &empty, width);
    let label = build_framed(prefix, text, width);

    let mut out: Vec<char> = Vec::new();
    push_line(&mut out, &sep);
    push_line(&mut out, &blank);
    push_line(&mut out, &label);
    push_line(&mut out, &blank);
    push_line(&mut out, &sep);
    proof {
        let ls = banner_lines(text@, prefix@);
        assert(sep@ =~= separator_line(prefix@, width as nat));
        assert(empty@ =~= Seq::<char>::empty());
        assert(ls.drop_last().drop_last().drop_last().drop_last().drop_last() =~= Seq::<
            Seq<char>,
        >::empty());
        assert(ls.drop_last().drop_last().drop_last().drop_last() =~= seq![ls[0]]);
        assert(ls.drop_last().drop_last().drop_last() =~= seq![ls[0], ls[1]]);
        assert(ls.drop_last().drop_last() =~= seq![ls[0], ls[1], ls[2]]);
        assert(ls.drop_last() =~= seq![ls[0], ls[1], ls[2], ls[3]]);
        reveal_with_fuel(terminated, 6);
        assert(out@ =~= terminated(ls));
    }
    out
}

/// Renders `content` as a banner framed by the comment prefix `comment`.
///
/// The block has five lines, each ended by a newline: a separator of dashes,
/// a blank line, the label padded to the field width, a blank line and the
/// separator again. The field is as wide as the label, and at least
/// `MIN_WIDTH` characters.
pub fn create_banner(content: &str, comment: &str) -> (r: String)
    ensures
        r@ == banner(content@, comment@),
{
    let text = chars_of(content);
    let prefix = chars_of(comment);
    let out = banner_chars(&text, &prefix);
    string_of(&out)
}

} // verus!
