//! Formatting files: which files of a directory are formatted, what a file's
//! new content is, and the tally of a run over many files.

use vstd::prelude::*;
use crate::paths::{
    extension, extension_of, file_extension, file_extension_of, is_hidden, is_hidden_file,
};
use crate::registry::{
    first_with_extension, is_supported_file, string_views, supports, LanguageConfig, LanguageSpec,
};
use crate::scanner::{format_text, formatted, has_marker};
use crate::text::chars_of;

verus! {

/// Whether `path` matches the shell pattern `pattern` (`*`, `?`, `[...]`) as
/// glob's `Pattern` matches it; a pattern that glob cannot compile matches nothing.
/// The answer is fixed for one target platform: on Windows glob treats `/` and
/// `\` as the same character, which also decides whether a `**` compiles.
pub uninterp spec fn glob_match(pattern: Seq<char>, path: Seq<char>) -> bool;

/// Relies on glob's `Pattern::new` and `Pattern::matches` (default match options):
/// whether `path` matches the compiled `pattern`. The answer depends on the two
/// texts alone, for a given target platform; an invalid pattern gives `false`.
#[verifier::external_body]
fn glob_matches(pattern: &str, path: &str) -> (r: bool)
    ensures
        r == glob_match(pattern@, path@),
{
    match glob::Pattern::new(pattern) {
        Ok(p) => p.matches(path),
        Err(_) => false,
    }
}

/// Whether `p` names a directory: it ends in `/` or `\`.
pub open spec fn is_dir_pattern(p: Seq<char>) -> bool {
    p.len() > 0 && (p.last() == '/' || p.last() == '\\')
}

/// `p` without the `/` and `\` at its end.
pub open spec fn strip_separators(p: Seq<char>) -> Seq<char>
    decreases p.len(),
{
    if is_dir_pattern(p) {
        strip_separators(p.drop_last())
    } else {
        p
    }
}

/// Whether `t` occurs in `s`.
pub open spec fn occurs_in(t: Seq<char>, s: Seq<char>) -> bool {
    exists|i: int| 0 <= i <= s.len() - t.len() && #[trigger] s.subrange(i, i + t.len()) == t
}

/// Whether the exclude pattern `p` keeps `path` out: a directory pattern when
/// its text without the trailing separators occurs in the path, any other when
/// it matches as a shell pattern (`glob_hit`).
pub open spec fn pattern_excludes(path: Seq<char>, p: Seq<char>, glob_hit: bool) -> bool {
    if is_dir_pattern(p) {
        occurs_in(strip_separators(p), path)
    } else {
        glob_hit
    }
}

/// Whether a file at `path` is processed, given the exclude patterns and, for
/// each, whether it matches the path as a shell pattern.
pub open spec fn process_decision(
    path: Seq<char>,
    exclude: Seq<Seq<char>>,
    glob_hits: Seq<bool>,
) -> bool {
    &&& !is_hidden(path)
    &&& !exclude.contains(file_extension(path))
    &&& forall|i: int|
        0 <= i < exclude.len() ==> !#[trigger] pattern_excludes(path, exclude[i], glob_hits[i])
}

/// Whether a file at `path` is processed under the exclude patterns.
pub open spec fn should_process(path: Seq<char>, exclude: Seq<Seq<char>>) -> bool {
    process_decision(
        path,
        exclude,
        Seq::new(exclude.len(), |i: int| glob_match(exclude[i], path)),
    )
}

/// Whether a file at `path` is formatted in a directory run: it is processed
/// under the exclude patterns, and some language lists its extension.
pub open spec fn eligible(
    path: Seq<char>,
    exclude: Seq<Seq<char>>,
    langs: Seq<LanguageSpec>,
) -> bool {
    should_process(path, exclude) && supports(langs, file_extension(path))
}

/// The paths, in their order, that a directory run formats.
pub open spec fn selected(
    paths: Seq<Seq<char>>,
    exclude: Seq<Seq<char>>,
    langs: Seq<LanguageSpec>,
) -> Seq<Seq<char>> {
    paths.filter(|p: Seq<char>| eligible(p, exclude, langs))
}

/// Whether `t` stands in `s` at `i`.
fn matches_at(s: &Vec<char>, t: &Vec<char>, i: usize) -> (r: bool)
    requires
        i + t@.len() <= s@.len(),
    ensures
        r == (s@.subrange(i as int, i + t@.len()) == t@),
{
    let n = s.len();
    let mut j: usize = 0;
    while j < t.len()
        invariant
            n == s@.len(),
            i + t@.len() <= s@.len(),
            j <= t@.len(),
            s@.subrange(i as int, i + j) == t@.take(j as int),
        decreases t@.len() - j,
    {
        if s[i + j] != t[j] {
            assert(s@.subrange(i as int, i + t@.len())[j as int] != t@[j as int]);
            return false;
        }
        j = j + 1;
        assert(s@.subrange(i as int, i + j) =~= s@.subrange(i as int, i + j - 1).push(
            s@[i + j - 1],
        ));
        assert(t@.take(j as int) =~= t@.take(j - 1).push(t@[j - 1]));
    }
    assert(t@.take(j as int) =~= t@);
    true
}

/// Whether `t` occurs in `s`.
fn occurs(t: &Vec<char>, s: &Vec<char>) -> (r: bool)
    ensures
        r == occurs_in(t@, s@),
{
    let n = s.len();
    let m = t.len();
    if m > n {
        return false;
    }
    let limit = n - m;
    let mut i: usize = 0;
    while i < limit
        invariant
            m == t@.len(),
            n == s@.len(),
            limit == n - m,
            i <= limit,
            forall|k: int| 0 <= k < i ==> #[trigger] s@.subrange(k, k + t@.len()) != t@,
        decreases limit - i,
    {
        if matches_at(s, t, i) {
            return true;
        }
        i = i + 1;
    }
    matches_at(s, t, limit)
}

/// Whether `p` ends in a path separator.
fn is_dir_pattern_exec(p: &Vec<char>) -> (r: bool)
    ensures
        r == is_dir_pattern(p@),
{
    p.len() > 0 && (p[p.len() - 1] == '/' || p[p.len() - 1] == '\\')
}

/// `p` without its trailing separators.
fn strip_separators_exec(p: &Vec<char>) -> (r: Vec<char>)
    ensures
        r@ == strip_separators(p@),
{
    let mut r = p.clone();
    assert(r@ == p@);
    while is_dir_pattern_exec(&r)
        invariant
            strip_separators(r@) == strip_separators(p@),
        decreases r@.len(),
    {
        r.pop();
    }
    r
}

/// Whether a file at `path` is processed, given the exclude patterns and, for
/// each, whether glob matches it against the path. A hidden file, a file whose
/// extension is one of the patterns, a file under a directory pattern (one that
/// ends in a separator) and a file that another pattern matches are not.
pub fn should_process_with(path: &str, exclude: &Vec<String>, glob_hits: &Vec<bool>) -> (r: bool)
    requires
        glob_hits@.len() == exclude@.len(),
    ensures
        r == process_decision(path@, string_views(exclude@), glob_hits@),
{
    if is_hidden_file(path) {
        return false;
    }
    let ext = file_extension_of(path);
    let mut i: usize = 0;
    while i < exclude.len()
        invariant
            i <= exclude@.len(),
            ext@ == file_extension(path@),
            forall|j: int| 0 <= j < i ==> exclude@[j]@ != ext@,
        decreases exclude@.len() - i,
    {
        if exclude[i] == ext {
            assert(string_views(exclude@)[i as int] == file_extension(path@));
            return false;
        }
        i = i + 1;
    }
    assert(!string_views(exclude@).contains(file_extension(path@))) by {
        assert forall|j: int| 0 <= j < exclude@.len() implies string_views(exclude@)[j]
            != file_extension(path@) by {
            assert(exclude@[j]@ != ext@);
        }
    }
    let s = chars_of(path);
    let mut k: usize = 0;
    while k < exclude.len()
        invariant
            k <= exclude@.len(),
            glob_hits@.len() == exclude@.len(),
            s@ == path@,
            forall|j: int|
                0 <= j < k ==> !#[trigger] pattern_excludes(
                    path@,
                    string_views(exclude@)[j],
                    glob_hits@[j],
                ),
        decreases exclude@.len() - k,
    {
        let p = chars_of(exclude[k].as_str());
        assert(p@ == string_views(exclude@)[k as int]);
        if is_dir_pattern_exec(&p) {
            let d = strip_separators_exec(&p);
            if occurs(&d, &s) {
                assert(pattern_excludes(path@, string_views(exclude@)[k as int], glob_hits@[k as int]));
                return false;
            }
        } else if glob_hits[k] {
            assert(pattern_excludes(path@, string_views(exclude@)[k as int], glob_hits@[k as int]));
            return false;
        }
        k = k + 1;
    }
    true
}

/// Whether a file at `path` is processed under the exclude patterns: not
/// hidden, its extension not among them, under no directory pattern, and
/// matched by no shell pattern among them.
pub fn should_process_file(path: &str, exclude: &Vec<String>) -> (r: bool)
    ensures
        r == should_process(path@, string_views(exclude@)),
{
    let mut hits: Vec<bool> = Vec::new();
    let mut i: usize = 0;
    while i < exclude.len()
        invariant
            i <= exclude@.len(),
            hits@ =~= Seq::new(i as nat, |j: int| glob_match(exclude@[j]@, path@)),
        decreases exclude@.len() - i,
    {
        let hit = glob_matches(exclude[i].as_str(), path);
        hits.push(hit);
        i = i + 1;
    }
    assert(hits@ =~= Seq::new(
        string_views(exclude@).len(),
        |j: int| glob_match(string_views(exclude@)[j], path@),
    ));
    should_process_with(path, exclude, &hits)
}

/// The new content of the file at `file`, whose text is `content`: its marker
/// lines rewritten for the first language that lists the file's extension.
/// `None` when no language lists it, or the text has no marker line, and the
/// file is to be left as it is.
pub fn format_file(file: &str, content: &str, config: &LanguageConfig) -> (r: Option<String>)
    ensures
        !supports(config@, extension(file@)) ==> r is None,
        forall|i: int|
            #[trigger] first_with_extension(config@, extension(file@), i) ==> {
                &&& (r is Some <==> has_marker(content@, config@[i].comment))
                &&& (r matches Some(t) ==> t@ == formatted(content@, config@[i].comment))
            },
{
    let ext = extension_of(file);
    match config.lookup(ext.as_str()) {
        None => None,
        Some(i) => {
            let lang = &config.languages[i];
            assert(config@[i as int] == lang@);
            format_text(content, lang.single_line_comment.as_str())
        },
    }
}

/// The paths, in their order, that a directory run formats: those processed
/// under the exclude patterns whose extension some language lists.
pub fn select_files(paths: &Vec<String>, exclude: &Vec<String>, config: &LanguageConfig) -> (r:
    Vec<String>)
    ensures
        string_views(r@) == selected(string_views(paths@), string_views(exclude@), config@),
{
    let ghost pred = |p: Seq<char>| eligible(p, string_views(exclude@), config@);
    let mut out: Vec<String> = Vec::new();
    let mut i: usize = 0;
    proof {
        reveal(Seq::filter);
        assert(string_views(paths@).take(0).filter(pred) =~= Seq::<Seq<char>>::empty());
        assert(string_views(out@) =~= Seq::<Seq<char>>::empty());
    }
    while i < paths.len()
        invariant
            i <= paths@.len(),
            pred == (|p: Seq<char>| eligible(p, string_views(exclude@), config@)),
            string_views(out@) == string_views(paths@).take(i as int).filter(pred),
        decreases paths@.len() - i,
    {
        let p = &paths[i];
        let keep = should_process_file(p.as_str(), exclude) && is_supported_file(p.as_str(), config);
        proof {
            reveal(Seq::filter);
            assert(string_views(paths@).take(i + 1).drop_last() =~= string_views(paths@).take(i as int));
            assert(string_views(paths@).take(i + 1).last() == p@);
        }
        if keep {
            out.push(p.clone());
            assert(string_views(out@) =~= string_views(paths@).take(i + 1).filter(pred));
        }
        i = i + 1;
    }
    assert(string_views(paths@).take(i as int) =~= string_views(paths@));
    assert(pred == (|p: Seq<char>| eligible(p, string_views(exclude@), config@)));
    out
}

/// A file whose extension is one of the exclude patterns is never formatted,
/// whatever language lists that extension.
pub proof fn lemma_excluded_extension_not_formatted(
    path: Seq<char>,
    exclude: Seq<Seq<char>>,
    langs: Seq<LanguageSpec>,
)
    requires
        exclude.contains(file_extension(path)),
    ensures
        !eligible(path, exclude, langs),
{
}

/// No path that a directory run selects has an extension among the exclude
/// patterns.
pub proof fn lemma_selected_not_excluded(
    paths: Seq<Seq<char>>,
    exclude: Seq<Seq<char>>,
    langs: Seq<LanguageSpec>,
)
    ensures
        forall|k: int|
            0 <= k < selected(paths, exclude, langs).len() ==> !exclude.contains(
                file_extension(#[trigger] selected(paths, exclude, langs)[k]),
            ),
{
    let pred = |p: Seq<char>| eligible(p, exclude, langs);
    assert forall|k: int| 0 <= k < paths.filter(pred).len() implies !exclude.contains(
        file_extension(#[trigger] paths.filter(pred)[k]),
    ) by {
        paths.lemma_filter_pred(pred, k);
    }
}

/// What became of one file of a run.
#[derive(Clone, Copy, Debug, PartialEq, Eq, Structural)]
pub enum FileOutcome {
    /// Its marker lines were rewritten and the file written back.
    Modified,
    /// It had nothing to rewrite, or could not be read as text, and was left alone.
    Unmodified,
    /// Reading or writing it failed; the run went on with the next file.
    Failed,
}

/// The totals of a run over many files.
#[derive(Clone, Copy, Debug, PartialEq, Eq, Structural)]
pub struct RunSummary {
    pub modified: usize,
    pub failed: usize,
}

/// How many of the outcomes are `o`.
pub open spec fn count_of(outcomes: Seq<FileOutcome>, o: FileOutcome) -> nat
    decreases outcomes.len(),
{
    if outcomes.len() == 0 {
        0
    } else {
        count_of(outcomes.drop_last(), o) + if outcomes.last() == o {
            1nat
        } else {
            0nat
        }
    }
}

/// Counts the modified and the failed files among the outcomes of a run.
pub fn tally(outcomes: &Vec<FileOutcome>) -> (r: RunSummary)
    ensures
        r.modified == count_of(outcomes@, FileOutcome::Modified),
        r.failed == count_of(outcomes@, FileOutcome::Failed),
{
    let mut modified: usize = 0;
    let mut failed: usize = 0;
    let mut i: usize = 0;
    assert(outcomes@.take(0) =~= Seq::<FileOutcome>::empty());
    while i < outcomes.len()
        invariant
            i <= outcomes@.len(),
            modified + failed <= i,
            modified == count_of(outcomes@.take(i as int), FileOutcome::Modified),
            failed == count_of(outcomes@.take(i as int), FileOutcome::Failed),
        decreases outcomes@.len() - i,
    {
        assert(outcomes@.take(i + 1).drop_last() =~= outcomes@.take(i as int));
        match outcomes[i] {
            FileOutcome::Modified => modified = modified + 1,
            FileOutcome::Failed => failed = failed + 1,
            FileOutcome::Unmodified => {},
        }
        i = i + 1;
    }
    assert(outcomes@.take(i as int) =~= outcomes@);
    RunSummary { modified, failed }
}

proof fn lemma_one_failure_prefix(outcomes: Seq<FileOutcome>, k: int, n: int)
    requires
        0 <= k < outcomes.len(),
        0 <= n <= outcomes.len(),
        outcomes[k] == FileOutcome::Failed,
        forall|j: int| 0 <= j < outcomes.len() && j != k ==> outcomes[j] == FileOutcome::Modified,
    ensures
        count_of(outcomes.take(n), FileOutcome::Modified) == if n <= k {
            n
        } else {
            n - 1
        },
        count_of(outcomes.take(n), FileOutcome::Failed) == if n <= k {
            0int
        } else {
            1int
        },
    decreases n,
{
    if n > 0 {
        assert(outcomes.take(n).drop_last() =~= outcomes.take(n - 1));
        lemma_one_failure_prefix(outcomes, k, n - 1);
    }
}

/// A run over `n` files of which exactly one failed and all others were
/// modified counts `n - 1` modified files and one failure: a failure does not
/// end the run.
pub proof fn lemma_one_failure(outcomes: Seq<FileOutcome>, k: int)
    requires
        0 <= k < outcomes.len(),
        outcomes[k] == FileOutcome::Failed,
        forall|j: int| 0 <= j < outcomes.len() && j != k ==> outcomes[j] == FileOutcome::Modified,
    ensures
        count_of(outcomes, FileOutcome::Modified) == outcomes.len() - 1,
        count_of(outcomes, FileOutcome::Failed) == 1,
{
    lemma_one_failure_prefix(outcomes, k, outcomes.len() as int);
    assert(outcomes.take(outcomes.len() as int) =~= outcomes);
}

} // verus!
