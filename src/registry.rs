//! The language registry: comment syntax and file extensions of each known
//! language, looked up by extension.

use vstd::prelude::*;
use crate::paths::{file_extension, file_extension_of};
use crate::text::{chars_of, push_all, string_of};

verus! {

/// A language: its name, the prefix of its single-line comments, and the
/// extensions (without the dot) of its files.
#[derive(Clone, Debug)]
pub struct Language {
    pub name: String,
    pub single_line_comment: String,
    pub extensions: Vec<String>,
}

/// The registry: languages in the order they were registered.
#[derive(Clone, Debug)]
pub struct LanguageConfig {
    pub languages: Vec<Language>,
}

/// What a language is, as plain values.
pub struct LanguageSpec {
    pub name: Seq<char>,
    pub comment: Seq<char>,
    pub extensions: Seq<Seq<char>>,
}

/// Why a language could not be added.
#[derive(Clone, Copy, Debug, PartialEq, Eq)]
pub enum LanguageError {
    /// A language of that name is registered already.
    DuplicateLanguage,
}

/// The view of each string.
pub open spec fn string_views(v: Seq<String>) -> Seq<Seq<char>> {
    v.map_values(|e: String| e@)
}

impl View for Language {
    type V = LanguageSpec;

    open spec fn view(&self) -> LanguageSpec {
        LanguageSpec {
            name: self.name@,
            comment: self.single_line_comment@,
            extensions: string_views(self.extensions@),
        }
    }
}

impl View for LanguageConfig {
    type V = Seq<LanguageSpec>;

    open spec fn view(&self) -> Seq<LanguageSpec> {
        self.languages@.map_values(|l: Language| l@)
    }
}

/// Whether the language at `i` lists `ext`.
pub open spec fn lists_extension(langs: Seq<LanguageSpec>, i: int, ext: Seq<char>) -> bool {
    langs[i].extensions.contains(ext)
}

/// Whether some language lists `ext`.
pub open spec fn supports(langs: Seq<LanguageSpec>, ext: Seq<char>) -> bool {
    exists|i: int| 0 <= i < langs.len() && #[trigger] lists_extension(langs, i, ext)
}

/// `i` is the first language that lists `ext`.
pub open spec fn first_with_extension(langs: Seq<LanguageSpec>, ext: Seq<char>, i: int) -> bool {
    &&& 0 <= i < langs.len()
    &&& lists_extension(langs, i, ext)
    &&& forall|j: int| 0 <= j < i ==> !#[trigger] lists_extension(langs, j, ext)
}

/// Whether some language is named `name`.
pub open spec fn has_name(langs: Seq<LanguageSpec>, name: Seq<char>) -> bool {
    exists|i: int| 0 <= i < langs.len() && #[trigger] langs[i].name == name
}

/// The line that describes a language in a listing: its name, an arrow and its
/// comment prefix.
pub open spec fn listing_line(l: LanguageSpec) -> Seq<char> {
    l.name + seq![' ', '→', ' '] + l.comment
}

/// Whether `s` is one of `v`.
fn contains_string(v: &Vec<String>, s: &String) -> (r: bool)
    ensures
        r == string_views(v@).contains(s@),
{
    let mut i: usize = 0;
    while i < v.len()
        invariant
            i <= v@.len(),
            forall|j: int| 0 <= j < i ==> v@[j]@ != s@,
        decreases v@.len() - i,
    {
        if v[i] == *s {
            assert(string_views(v@)[i as int] == s@);
            return true;
        }
        i = i + 1;
    }
    assert(!string_views(v@).contains(s@)) by {
        assert forall|j: int| 0 <= j < v@.len() implies string_views(v@)[j] != s@ by {
            assert(v@[j]@ != s@);
        }
    }
    false
}

impl LanguageConfig {
    /// No two languages share a name.
    pub open spec fn wf(&self) -> bool {
        forall|i: int, j: int|
            0 <= i < j < self@.len() ==> #[trigger] self@[i].name != #[trigger] self@[j].name
    }

    /// An empty registry.
    pub fn new() -> (r: LanguageConfig)
        ensures
            r@ == Seq::<LanguageSpec>::empty(),
            r.wf(),
    {
        let r = LanguageConfig { languages: Vec::new() };
        assert(r@ =~= Seq::<LanguageSpec>::empty());
        r
    }

    /// The index of the first language, in registry order, that lists the
    /// extension `ext`; `None` when none does.
    pub fn lookup(&self, ext: &str) -> (r: Option<usize>)
        ensures
            match r {
                None => !supports(self@, ext@),
                Some(i) => first_with_extension(self@, ext@, i as int),
            },
    {
        let e = ext.to_owned();
        let mut i: usize = 0;
        while i < self.languages.len()
            invariant
                i <= self@.len(),
                e@ == ext@,
                forall|j: int| 0 <= j < i ==> !#[trigger] lists_extension(self@, j, ext@),
            decreases self@.len() - i,
        {
            let found = contains_string(&self.languages[i].extensions, &e);
            assert(self@[i as int] == self.languages@[i as int]@);
            if found {
                return Some(i);
            }
            i = i + 1;
        }
        None
    }

    /// Whether a language named `name` is registered.
    pub fn contains_language(&self, name: &str) -> (r: bool)
        ensures
            r == has_name(self@, name@),
    {
        let n = name.to_owned();
        let mut i: usize = 0;
        while i < self.languages.len()
            invariant
                i <= self@.len(),
                n@ == name@,
                forall|j: int| 0 <= j < i ==> self@[j].name != name@,
            decreases self@.len() - i,
        {
            assert(self@[i as int] == self.languages@[i as int]@);
            if self.languages[i].name == n {
                assert(self@[i as int].name == name@);
                return true;
            }
            i = i + 1;
        }
        false
    }
}

/// Registers a language unless one of that name is known already; the new
/// language comes last, after all that were there.
pub fn add_language(
    config: &mut LanguageConfig,
    name: &str,
    single_line_comment: &str,
    extensions: Vec<String>,
) -> (r: Result<(), LanguageError>)
    ensures
        r is Err <==> has_name(old(config)@, name@),
        r is Err ==> final(config)@ == old(config)@,
        r is Ok ==> final(config)@ == old(config)@.push(
            LanguageSpec {
                name: name@,
                comment: single_line_comment@,
                extensions: string_views(extensions@),
            },
        ),
        old(config).wf() ==> final(config).wf(),
{
    if config.contains_language(name) {
        return Err(LanguageError::DuplicateLanguage);
    }
    let lang = Language {
        name: name.to_owned(),
        single_line_comment: single_line_comment.to_owned(),
        extensions,
    };
    config.languages.push(lang);
    proof {
        assert(final(config)@ =~= old(config)@.push(lang@));
    }
    Ok(())
}

/// Whether the extension of the name of `file` is listed by some registered language.
pub fn is_supported_file(file: &str, config: &LanguageConfig) -> (r: bool)
    ensures
        r == supports(config@, file_extension(file@)),
{
    let ext = file_extension_of(file);
    config.lookup(ext.as_str()).is_some()
}

/// One line for each language, in registry order: its name, an arrow and its
/// comment prefix.
pub fn list_languages(config: &LanguageConfig) -> (r: Vec<String>)
    ensures
        r@.len() == config@.len(),
        forall|i: int| 0 <= i < r@.len() ==> #[trigger] r@[i]@ == listing_line(config@[i]),
{
    let mut out: Vec<String> = Vec::new();
    let mut i: usize = 0;
    while i < config.languages.len()
        invariant
            i <= config@.len(),
            out@.len() == i,
            forall|j: int| 0 <= j < i ==> #[trigger] out@[j]@ == listing_line(config@[j]),
        decreases config@.len() - i,
    {
        let lang = &config.languages[i];
        assert(config@[i as int] == lang@);
        let mut line: Vec<char> = chars_of(lang.name.as_str());
        line.push(' ');
        line.push('→');
        line.push(' ');
        push_all(&mut line, &chars_of(lang.single_line_comment.as_str()));
        assert(line@ =~= listing_line(lang@));
        out.push(string_of(&line));
        i = i + 1;
    }
    out
}

/// The built-in table: common languages with their comment prefixes and extensions.
pub open spec fn default_languages() -> Seq<LanguageSpec> {
    seq![
        LanguageSpec { name: "rust"@, comment: "//"@, extensions: seq!["rs"@] },
        LanguageSpec { name: "python"@, comment: "#"@, extensions: seq!["py"@] },
        LanguageSpec { name: "c"@, comment: "//"@, extensions: seq!["c"@, "h"@] },
        LanguageSpec { name: "cpp"@, comment: "//"@, extensions: seq!["cpp"@, "hpp"@, "cc"@, "cxx"@] },
        LanguageSpec { name: "javascript"@, comment: "//"@, extensions: seq!["js"@, "mjs"@] },
        LanguageSpec { name: "typescript"@, comment: "//"@, extensions: seq!["ts"@, "tsx"@] },
        LanguageSpec { name: "go"@, comment: "//"@, extensions: seq!["go"@] },
        LanguageSpec { name: "java"@, comment: "//"@, extensions: seq!["java"@] },
        LanguageSpec { name: "shell"@, comment: "#"@, extensions: seq!["sh"@, "bash"@] },
        LanguageSpec { name: "ruby"@, comment: "#"@, extensions: seq!["rb"@] },
        LanguageSpec { name: "toml"@, comment: "#"@, extensions: seq!["toml"@] },
        LanguageSpec { name: "yaml"@, comment: "#"@, extensions: seq!["yml"@, "yaml"@] },
        LanguageSpec { name: "lua"@, comment: "--"@, extensions: seq!["lua"@] },
        LanguageSpec { name: "sql"@, comment: "--"@, extensions: seq!["sql"@] },
        LanguageSpec { name: "haskell"@, comment: "--"@, extensions: seq!["hs"@] },
    ]
}

/// Appends `s` to `v`.
fn push_str(v: &mut Vec<String>, s: &str)
    ensures
        string_views(final(v)@) == string_views(old(v)@).push(s@),
{
    v.push(s.to_owned());
    proof {
        assert(string_views(final(v)@) =~= string_views(old(v)@).push(s@));
    }
}

/// A language made of the given name, prefix and extensions.
fn entry(name: &str, comment: &str, extensions: Vec<String>) -> (r: Language)
    ensures
        r@ == (LanguageSpec {
            name: name@,
            comment: comment@,
            extensions: string_views(extensions@),
        }),
{
    Language { name: name.to_owned(), single_line_comment: comment.to_owned(), extensions }
}

/// The registry a new installation starts from: the built-in table.
pub fn default_config() -> (r: LanguageConfig)
    ensures
        r@ == default_languages(),
{
    let mut languages: Vec<Language> = Vec::new();
    let mut e: Vec<String> = Vec::new();
    push_str(&mut e, "rs");
    assert(string_views(e@) =~= default_languages()[0].extensions);
    languages.push(entry("rust", "//", e));
    let mut e: Vec<String> = Vec::new();
    push_str(&mut e, "py");
    assert(string_views(e@) =~= default_languages()[1].extensions);
    languages.push(entry("python", "#", e));
    let mut e: Vec<String> = Vec::new();
    push_str(&mut e, "c");
    push_str(&mut e, "h");
    assert(string_views(e@) =~= default_languages()[2].extensions);
    languages.push(entry("c", "//", e));
    let mut e: Vec<String> = Vec::new();
    push_str(&mut e, "cpp");
    push_str(&mut e, "hpp");
    push_str(&mut e, "cc");
    push_str(&mut e, "cxx");
    assert(string_views(e@) =~= default_languages()[3].extensions);
    languages.push(entry("cpp", "//", e));
    let mut e: Vec<String> = Vec::new();
    push_str(&mut e, "js");
    push_str(&mut e, "mjs");
    assert(string_views(e@) =~= default_languages()[4].extensions);
    languages.push(entry("javascript", "//", e));
    let mut e: Vec<String> = Vec::new();
    push_str(&mut e, "ts");
    push_str(&mut e, "tsx");
    assert(string_views(e@) =~= default_languages()[5].extensions);
    languages.push(entry("typescript", "//", e));
    let mut e: Vec<String> = Vec::new();
    push_str(&mut e, "go");
    assert(string_views(e@) =~= default_languages()[6].extensions);
    languages.push(entry("go", "//", e));
    let mut e: Vec<String> = Vec::new();
    push_str(&mut e, "java");
    assert(string_views(e@) =~= default_languages()[7].extensions);
    languages.push(entry("java", "//", e));
    let mut e: Vec<String> = Vec::new();
    push_str(&mut e, "sh");
    push_str(&mut e, "bash");
    assert(string_views(e@) =~= default_languages()[8].extensions);
    languages.push(entry("shell", "#", e));
    let mut e: Vec<String> = Vec::new();
    push_str(&mut e, "rb");
    assert(string_views(e@) =~= default_languages()[9].extensions);
    languages.push(entry("ruby", "#", e));
    let mut e: Vec<String> = Vec::new();
    push_str(&mut e, "toml");
    assert(string_views(e@) =~= default_languages()[10].extensions);
    languages.push(entry("toml", "#", e));
    let mut e: Vec<String> = Vec::new();
    push_str(&mut e, "yml");
    push_str(&mut e, "yaml");
    assert(string_views(e@) =~= default_languages()[11].extensions);
    languages.push(entry("yaml", "#", e));
    let mut e: Vec<String> = Vec::new();
    push_str(&mut e, "lua");
    assert(string_views(e@) =~= default_languages()[12].extensions);
    languages.push(entry("lua", "--", e));
    let mut e: Vec<String> = Vec::new();
    push_str(&mut e, "sql");
    assert(string_views(e@) =~= default_languages()[13].extensions);
    languages.push(entry("sql", "--", e));
    let mut e: Vec<String> = Vec::new();
    push_str(&mut e, "hs");
    assert(string_views(e@) =~= default_languages()[14].extensions);
    languages.push(entry("haskell", "--", e));
    let r = LanguageConfig { languages };
    proof {
        assert(r@ =~= default_languages());
    }
    r
}

} // verus!
