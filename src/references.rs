//! Rewriting the version that project files hold: the assignment of a
//! variable in Python and TOML sources, found by a regular expression.

use vstd::prelude::*;

use crate::text::{chars_of, same_chars};
use crate::version::{format_version, tuple_form, Version};

verus! {

#[verifier::external_type_specification]
#[verifier::external_body]
pub struct ExRegex(regex::Regex);

#[verifier::external_type_specification]
#[verifier::external_body]
pub struct ExRegexError(regex::Error);

/// How a Python source holds the version.
#[derive(Clone, Copy, Debug, PartialEq, Eq, Structural)]
pub enum OutputType {
    /// A tuple literal, `(1, 2, 3, "beta", 4)`.
    Tuple,
    /// A quoted string, `"1.2.3-beta.4"`.
    String,
}

/// The kinds of file whose version reference can be rewritten.
#[derive(Clone, Copy, Debug, PartialEq, Eq, Structural)]
pub enum FileType {
    Py,
    Toml,
    Json,
    Unknown,
}

/// Why a reference could not be rewritten.
#[derive(Clone, Copy, Debug, PartialEq, Eq, Structural)]
pub enum ReferenceError {
    /// The regular expression built for the variable did not compile.
    InvalidPattern,
}

/// The characters that have a meaning in a regular expression.
pub open spec fn is_regex_meta(c: char) -> bool {
    c == '\\' || c == '.' || c == '+' || c == '*' || c == '?' || c == '(' || c == ')' || c == '|'
        || c == '[' || c == ']' || c == '{' || c == '}' || c == '^' || c == '$' || c == '#' || c
        == '&' || c == '-' || c == '~'
}

/// `s` with a backslash before every meta character, so that a regular
/// expression made of it matches `s` literally.
pub open spec fn regex_escaped(s: Seq<char>) -> Seq<char>
    decreases s.len(),
{
    if s.len() == 0 {
        Seq::empty()
    } else if is_regex_meta(s.last()) {
        regex_escaped(s.drop_last()) + seq!['\\', s.last()]
    } else {
        regex_escaped(s.drop_last()).push(s.last())
    }
}

/// Whether `pattern` compiles as a regular expression, as
/// `regex::Regex::new` decides it.
pub uninterp spec fn regex_compiles(pattern: Seq<char>) -> bool;

/// `haystack` with every non-overlapping match of the regular expression
/// `pattern` replaced by `replacement` (in which `$` group references are
/// expanded), as `regex::Regex::replace_all` gives it.
pub uninterp spec fn regex_replaced(
    pattern: Seq<char>,
    haystack: Seq<char>,
    replacement: Seq<char>,
) -> Seq<char>;

/// Relies on `regex::escape`, which puts a backslash before each meta
/// character of `s` and copies the other characters.
#[verifier::external_body]
fn escape_regex(s: &str) -> (r: String)
    ensures
        r@ == regex_escaped(s@),
{
    regex::escape(s)
}

/// A compiled regular expression together with its source text.
pub struct LinePattern {
    source: String,
    compiled: regex::Regex,
}

/// Relies on `regex::Regex::new`: on success the compiled form of
/// `source`, kept with it; otherwise the reason it does not compile.
#[verifier::external_body]
fn compile_pattern(source: String) -> (r: Result<LinePattern, regex::Error>)
    ensures
        r is Ok <==> regex_compiles(source@),
        r is Ok ==> r->Ok_0.source@ == source@,
{
    match regex::Regex::new(&source) {
        Ok(compiled) => Ok(LinePattern { source, compiled }),
        Err(e) => Err(e),
    }
}

/// Relies on `regex::Regex::replace_all` on the pattern that
/// `compile_pattern` compiled from `p.source`.
#[verifier::external_body]
fn replace_all(p: &LinePattern, haystack: &str, replacement: &str) -> (r: String)
    ensures
        r@ == regex_replaced(p.source@, haystack@, replacement@),
{
    p.compiled.replace_all(haystack, replacement).into_owned()
}

/// The version as a Python source writes it.
pub open spec fn py_value(v: Version, t: OutputType) -> Seq<char> {
    match t {
        OutputType::Tuple => tuple_form(v),
        OutputType::String => "\""@ + format_version(v) + "\""@,
    }
}

/// Lines that assign anything to `variable`: `^{variable} = .*`, multi-line.
pub open spec fn py_pattern(variable: Seq<char>) -> Seq<char> {
    "(?m)^"@ + regex_escaped(variable) + " = .*"@
}

/// Lines that assign a quoted string to `variable`: `^{variable} = ".*"`,
/// multi-line.
pub open spec fn toml_pattern(variable: Seq<char>) -> Seq<char> {
    "(?m)^"@ + regex_escaped(variable) + " = \".*\""@
}

/// The text of a Python source after rewriting the assignments of
/// `variable`.
pub open spec fn py_updated(contents: Seq<char>, v: Version, variable: Seq<char>, t: OutputType) -> Seq<
    char,
> {
    regex_replaced(py_pattern(variable), contents, variable + " = "@ + py_value(v, t))
}

/// The text of a TOML source after rewriting the assignments of `variable`.
pub open spec fn toml_updated(contents: Seq<char>, v: Version, variable: Seq<char>) -> Seq<char> {
    regex_replaced(
        toml_pattern(variable),
        contents,
        variable + " = \""@ + format_version(v) + "\""@,
    )
}

/// Replaces with `replacement` what `pattern` matches in `contents`.
fn rewrite(contents: &mut String, pattern: String, replacement: String) -> (r: Result<
    String,
    ReferenceError,
>)
    ensures
        r is Ok <==> regex_compiles(pattern@),
        match r {
            Ok(s) => s@ == final(contents)@ && s@ == regex_replaced(
                pattern@,
                old(contents)@,
                replacement@,
            ),
            Err(e) => e == ReferenceError::InvalidPattern && final(contents)@ == old(contents)@,
        },
{
    match compile_pattern(pattern) {
        Ok(p) => {
            let updated = replace_all(&p, contents.as_str(), replacement.as_str());
            *contents = updated.clone();
            Ok(updated)
        },
        Err(_) => Err(ReferenceError::InvalidPattern),
    }
}

/// Rewrites, in a Python source, every line that assigns to `variable`
/// so that it assigns the version, as a tuple or as a string.
pub fn update_py(
    contents: &mut String,
    version: &Version,
    variable: &String,
    output_type: &OutputType,
) -> (r: Result<String, ReferenceError>)
    ensures
        r is Ok <==> regex_compiles(py_pattern(variable@)),
        match r {
            Ok(s) => s@ == final(contents)@ && s@ == py_updated(
                old(contents)@,
                *version,
                variable@,
                *output_type,
            ),
            Err(e) => e == ReferenceError::InvalidPattern && final(contents)@ == old(contents)@,
        },
{
    let value = match output_type {
        OutputType::Tuple => version.tuple(),
        OutputType::String => {
            let mut q = String::new();
            q.append("\"");
            let f = version.formatted();
            q.append(f.as_str());
            q.append("\"");
            q
        },
    };
    let mut pattern = String::new();
    pattern.append("(?m)^");
    let escaped = escape_regex(variable.as_str());
    pattern.append(escaped.as_str());
    pattern.append(" = .*");
    let mut replacement = variable.clone();
    replacement.append(" = ");
    replacement.append(value.as_str());
    rewrite(contents, pattern, replacement)
}

/// Rewrites, in a TOML source, every line that assigns a string to
/// `variable` so that it assigns the version text.
pub fn update_toml(contents: &mut String, version: &Version, variable: &String) -> (r: Result<
    String,
    ReferenceError,
>)
    ensures
        r is Ok <==> regex_compiles(toml_pattern(variable@)),
        match r {
            Ok(s) => s@ == final(contents)@ && s@ == toml_updated(old(contents)@, *version, variable@),
            Err(e) => e == ReferenceError::InvalidPattern && final(contents)@ == old(contents)@,
        },
{
    let mut pattern = String::new();
    pattern.append("(?m)^");
    let escaped = escape_regex(variable.as_str());
    pattern.append(escaped.as_str());
    pattern.append(" = \".*\"");
    let mut replacement = variable.clone();
    replacement.append(" = \"");
    let f = version.formatted();
    replacement.append(f.as_str());
    replacement.append("\"");
    rewrite(contents, pattern, replacement)
}

/// Index of the last `c` in `s`, or -1.
pub open spec fn last_index_of(s: Seq<char>, c: char) -> int
    decreases s.len(),
{
    if s.len() == 0 {
        -1
    } else if s.last() == c {
        s.len() - 1
    } else {
        last_index_of(s.drop_last(), c)
    }
}

/// The extension of a path: what follows the last `.` of its file name
/// (the text after its last `/`), unless that `.` starts the name.
pub open spec fn extension(path: Seq<char>) -> Option<Seq<char>> {
    let name = path.skip(last_index_of(path, '/') + 1);
    let dot = last_index_of(name, '.');
    if dot <= 0 {
        None
    } else {
        Some(name.skip(dot + 1))
    }
}

/// The kind of a file by its extension: `py`, `toml` or `json`.
pub open spec fn file_type_of(path: Seq<char>) -> FileType {
    match extension(path) {
        Some(e) => if e == "py"@ {
            FileType::Py
        } else if e == "toml"@ {
            FileType::Toml
        } else if e == "json"@ {
            FileType::Json
        } else {
            FileType::Unknown
        },
        None => FileType::Unknown,
    }
}

proof fn lemma_last_index_of(s: Seq<char>, c: char, p: int)
    requires
        -1 <= p < s.len(),
        p >= 0 ==> s[p] == c,
        forall|k: int| p < k < s.len() ==> s[k] != c,
    ensures
        last_index_of(s, c) == p,
    decreases s.len(),
{
    if s.len() > 0 && p < s.len() - 1 {
        assert(s[s.len() - 1] != c);
        lemma_last_index_of(s.drop_last(), c, p);
    }
}

/// Position just after the last `c` in `cs[from..]`, or `from` when there
/// is none there.
fn after_last(cs: &Vec<char>, from: usize, c: char) -> (r: usize)
    requires
        from <= cs.len(),
    ensures
        from <= r <= cs.len(),
        r == from + last_index_of(cs@.skip(from as int), c) + 1,
{
    let ghost t = cs@.skip(from as int);
    let mut j: usize = cs.len();
    while j > from && cs[j - 1] != c
        invariant
            from <= j <= cs.len(),
            t == cs@.skip(from as int),
            forall|k: int| j - from <= k < t.len() ==> t[k] != c,
        decreases j,
    {
        j = j - 1;
    }
    proof {
        lemma_last_index_of(t, c, j - from - 1);
    }
    j
}

/// The kind of the file at `path` (see `file_type_of`).
pub fn file_type(path: &str) -> (r: FileType)
    ensures
        r == file_type_of(path@),
{
    let cs = chars_of(path);
    let start = after_last(&cs, 0, '/');
    assert(cs@.skip(0) =~= cs@);
    let ghost name = cs@.skip(start as int);
    let after_dot = after_last(&cs, start, '.');
    if after_dot - start <= 1 {
        return FileType::Unknown;
    }
    let mut ext: Vec<char> = Vec::new();
    let mut i: usize = after_dot;
    while i < cs.len()
        invariant
            after_dot <= i <= cs.len(),
            ext@ == cs@.subrange(after_dot as int, i as int),
        decreases cs.len() - i,
    {
        ext.push(cs[i]);
        assert(cs@.subrange(after_dot as int, i + 1) =~= cs@.subrange(after_dot as int, i as int).push(
            cs@[i as int],
        ));
        i = i + 1;
    }
    assert(ext@ =~= name.skip(after_dot - start));
    if same_chars(&ext, &chars_of("py")) {
        FileType::Py
    } else if same_chars(&ext, &chars_of("toml")) {
        FileType::Toml
    } else if same_chars(&ext, &chars_of("json")) {
        FileType::Json
    } else {
        FileType::Unknown
    }
}

} // verus!
