//! Compiled regular expressions from the `regex` crate, kept together with
//! the pattern and flag they were compiled from.
//!
//! Matching and replacement are the `regex` crate's work; their results are
//! named below and the contracts speak of those names. Escaping a literal is
//! stated in full and done here.

use vstd::prelude::*;
use crate::text::{chars_of, push_char};

verus! {

#[verifier::external_type_specification]
#[verifier::external_body]
pub struct ExRegex(regex::Regex);

/// Whether `pattern` compiles (with the given case-insensitivity flag) under
/// the `regex` crate's syntax and default size limits.
pub uninterp spec fn regex_compiles(pattern: Seq<char>, case_insensitive: bool) -> bool;

/// Whether the compiled `pattern` matches somewhere in `haystack`.
pub uninterp spec fn regex_matches(pattern: Seq<char>, case_insensitive: bool, haystack: Seq<char>) -> bool;

/// `haystack` with every non-overlapping match of `pattern` replaced by
/// `replacement` as written (no capture-group expansion: `$` is an ordinary
/// character).
pub uninterp spec fn regex_replace_all_literal(
    pattern: Seq<char>,
    case_insensitive: bool,
    haystack: Seq<char>,
    replacement: Seq<char>,
) -> Seq<char>;

/// The characters that have a meaning in a regular expression (those
/// `regex::escape` escapes).
pub open spec fn is_meta_character(c: char) -> bool {
    c == '\\' || c == '.' || c == '+' || c == '*' || c == '?' || c == '(' || c == ')' || c == '|'
        || c == '[' || c == ']' || c == '{' || c == '}' || c == '^' || c == '$' || c == '#' || c
        == '&' || c == '-' || c == '~'
}

/// `text` with a backslash before each meta character, so that it matches
/// `text` literally.
pub open spec fn regex_escaped(text: Seq<char>) -> Seq<char>
    decreases text.len(),
{
    if text.len() == 0 {
        seq![]
    } else {
        let prev = regex_escaped(text.drop_last());
        let c = text.last();
        if is_meta_character(c) {
            prev + seq!['\\', c]
        } else {
            prev.push(c)
        }
    }
}

/// A regular expression together with the pattern text and flag it was
/// compiled from. The only way to obtain one is `compile_pattern`, so the
/// compiled expression always belongs to the recorded pattern.
pub struct CompiledPattern {
    re: regex::Regex,
    source: String,
    case_insensitive: bool,
}

impl CompiledPattern {
    /// The pattern text this expression was compiled from.
    pub closed spec fn pattern(&self) -> Seq<char> {
        self.source@
    }

    /// Whether it was compiled case-insensitively.
    pub closed spec fn is_case_insensitive(&self) -> bool {
        self.case_insensitive
    }
}

fn is_meta(c: char) -> (r: bool)
    ensures
        r == is_meta_character(c),
{
    c == '\\' || c == '.' || c == '+' || c == '*' || c == '?' || c == '(' || c == ')' || c == '|'
        || c == '[' || c == ']' || c == '{' || c == '}' || c == '^' || c == '$' || c == '#' || c
        == '&' || c == '-' || c == '~'
}

/// Escape the meta characters of `text` (see `regex_escaped`), as
/// `regex::escape` does.
pub fn escape(text: &str) -> (r: String)
    ensures
        r@ == regex_escaped(text@),
{
    let cs = chars_of(text);
    let mut out = String::new();
    let mut i: usize = 0;
    while i < cs.len()
        invariant
            i <= cs.len(),
            cs@ == text@,
            out@ == regex_escaped(text@.take(i as int)),
        decreases cs.len() - i,
    {
        let c = cs[i];
        proof {
            assert(text@.take(i + 1).drop_last() =~= text@.take(i as int));
            assert(text@.take(i + 1).last() == c);
        }
        if is_meta(c) {
            push_char(&mut out, '\\');
        }
        push_char(&mut out, c);
        assert(out@ =~= regex_escaped(text@.take(i + 1)));
        i += 1;
    }
    assert(text@.take(cs.len() as int) =~= text@);
    out
}

/// Calls `regex::RegexBuilder` (`new`, `case_insensitive`, `build`). The
/// result is present exactly when the pattern compiles (named
/// `regex_compiles`), and records the pattern and flag it was built from.
#[verifier::external_body]
pub(crate) fn compile_pattern(pattern: &str, case_insensitive: bool) -> (r: Option<CompiledPattern>)
    ensures
        r is Some <==> regex_compiles(pattern@, case_insensitive),
        r matches Some(p) ==> p.pattern() == pattern@ && p.is_case_insensitive() == case_insensitive,
{
    match regex::RegexBuilder::new(pattern).case_insensitive(case_insensitive).build() {
        Ok(re) => Some(CompiledPattern { re, source: pattern.to_string(), case_insensitive }),
        Err(_) => None,
    }
}

/// Calls `Regex::is_match`; its result is named `regex_matches`. Without a
/// match, replacing all matches leaves the haystack unchanged (documented for
/// `Regex::replace_all`).
#[verifier::external_body]
pub(crate) fn is_match(p: &CompiledPattern, haystack: &str) -> (r: bool)
    ensures
        r == regex_matches(p.pattern(), p.is_case_insensitive(), haystack@),
        !r ==> forall|replacement: Seq<char>|
            #[trigger] regex_replace_all_literal(p.pattern(), p.is_case_insensitive(), haystack@, replacement)
                == haystack@,
{
    p.re.is_match(haystack)
}

/// Calls `Regex::replace_all` with the replacement wrapped in
/// `regex::NoExpand`, so it is inserted as written; the result is named
/// `regex_replace_all_literal`. The crate's documentation states that
/// without a match the haystack comes back unchanged.
#[verifier::external_body]
pub(crate) fn replace_all(p: &CompiledPattern, haystack: &str, replacement: &str) -> (r: String)
    ensures
        r@ == regex_replace_all_literal(p.pattern(), p.is_case_insensitive(), haystack@, replacement@),
        !regex_matches(p.pattern(), p.is_case_insensitive(), haystack@) ==> r@ == haystack@,
{
    p.re.replace_all(haystack, regex::NoExpand(replacement)).into_owned()
}

} // verus!
