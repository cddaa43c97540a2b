//! User dictionary: the speaker's personal glossary.
//!
//! Entries are names, abbreviations, jargon or any word the user pronounces
//! differently, each with an optional meaning and an optional misheard form.
//! Misheard forms are corrected deterministically in every transcribed
//! segment (whole word, case-insensitive); the glossary also biases Whisper
//! through its initial prompt and guides the LLM passes.

use vstd::prelude::*;
use crate::text::{
    chars_of, eq_ignore_ascii_case, join, push_char, seq_join, str_eq, str_eq_ignore_ascii_case,
    string_views, trim, trim_str,
};
use crate::word_pattern::{
    compile_pattern, escape, is_match, regex_compiles, regex_escaped, regex_replace_all_literal,
    replace_all, CompiledPattern,
};

verus! {

/// What kind of term an entry is; shapes how LLM prompts present it.
#[derive(Clone, Copy, Debug, PartialEq, Eq, Structural)]
pub enum EntryKind {
    /// A known mistranscription fix (misheard -> correct).
    Correction,
    /// A person, company, product, or place name.
    Name,
    /// An acronym or abbreviation; `meaning` holds the expansion.
    Abbreviation,
    /// Domain jargon or slang; `meaning` explains it.
    Jargon,
    /// Any other vocabulary word or phrase.
    Term,
}

impl Default for EntryKind {
    fn default() -> (r: Self)
        ensures
            r == EntryKind::Term,
    {
        EntryKind::Term
    }
}

/// One glossary entry.
#[derive(Debug)]
pub struct DictionaryEntry {
    pub id: String,
    /// What the transcription engine typically produces (None when there is
    /// no known misheard form).
    pub misheard: Option<String>,
    /// The correct spelling the user wants.
    pub correct: String,
    pub kind: EntryKind,
    /// Meaning, expansion or context; given to LLMs, never typed into text.
    pub meaning: Option<String>,
}

/// The value of an entry, its strings taken as character sequences.
pub struct EntryView {
    pub id: Seq<char>,
    pub misheard: Option<Seq<char>>,
    pub correct: Seq<char>,
    pub kind: EntryKind,
    pub meaning: Option<Seq<char>>,
}

pub open spec fn opt_view(o: Option<String>) -> Option<Seq<char>> {
    match o {
        Some(s) => Some(s@),
        None => None,
    }
}

impl View for DictionaryEntry {
    type V = EntryView;

    open spec fn view(&self) -> EntryView {
        EntryView {
            id: self.id@,
            misheard: opt_view(self.misheard),
            correct: self.correct@,
            kind: self.kind,
            meaning: opt_view(self.meaning),
        }
    }
}

pub open spec fn entry_views(v: Seq<DictionaryEntry>) -> Seq<EntryView> {
    v.map_values(|e: DictionaryEntry| e@)
}

fn clone_opt(o: &Option<String>) -> (r: Option<String>)
    ensures
        opt_view(r) == opt_view(*o),
{
    match o {
        Some(s) => Some(s.clone()),
        None => None,
    }
}

impl Clone for DictionaryEntry {
    fn clone(&self) -> (r: Self)
        ensures
            r@ == self@,
    {
        DictionaryEntry {
            id: self.id.clone(),
            misheard: clone_opt(&self.misheard),
            correct: self.correct.clone(),
            kind: self.kind,
            meaning: clone_opt(&self.meaning),
        }
    }
}

// ---------------------------------------------------------------------------
// Specification
// ---------------------------------------------------------------------------

/// The trimmed misheard form of an entry, when it has a non-empty one.
pub open spec fn misheard_term(e: EntryView) -> Option<Seq<char>> {
    match e.misheard {
        Some(m) => if trim(m).len() > 0 {
            Some(trim(m))
        } else {
            None
        },
        None => None,
    }
}

/// The whole-word pattern for a literal term.
pub open spec fn word_pattern(term: Seq<char>) -> Seq<char> {
    "\\b"@ + regex_escaped(term) + "\\b"@
}

/// The correction rules (pattern, replacement) of the entries, in entry
/// order: one per entry with a non-empty misheard form whose whole-word,
/// case-insensitive pattern compiles.
pub open spec fn correction_rules(entries: Seq<EntryView>) -> Seq<(Seq<char>, Seq<char>)>
    decreases entries.len(),
{
    if entries.len() == 0 {
        seq![]
    } else {
        let prev = correction_rules(entries.drop_last());
        let e = entries.last();
        match misheard_term(e) {
            Some(m) => if regex_compiles(word_pattern(m), true) {
                prev.push((word_pattern(m), e.correct))
            } else {
                prev
            },
            None => prev,
        }
    }
}

/// `text` after applying each rule in turn: every case-insensitive match
/// of the rule's pattern is replaced by its replacement inserted literally
/// (a `$` in a correct form stays a `$`).
pub open spec fn apply_rules(rules: Seq<(Seq<char>, Seq<char>)>, text: Seq<char>) -> Seq<char>
    decreases rules.len(),
{
    if rules.len() == 0 {
        text
    } else {
        regex_replace_all_literal(rules.last().0, true, apply_rules(rules.drop_last(), text), rules.last().1)
    }
}

/// The trimmed correct spellings that are not empty, in entry order.
pub open spec fn vocabulary_terms(entries: Seq<EntryView>) -> Seq<Seq<char>>
    decreases entries.len(),
{
    if entries.len() == 0 {
        seq![]
    } else {
        let prev = vocabulary_terms(entries.drop_last());
        let t = trim(entries.last().correct);
        if t.len() > 0 {
            prev.push(t)
        } else {
            prev
        }
    }
}

/// How many terms the Whisper hint holds at most.
pub const MAX_HINT_TERMS: usize = 40;

/// The Whisper vocabulary hint: "Glossary: " and the first terms, or None
/// when there is no term.
pub open spec fn vocabulary_hint(entries: Seq<EntryView>) -> Option<Seq<char>> {
    let terms = vocabulary_terms(entries);
    let shown = if terms.len() > MAX_HINT_TERMS {
        terms.take(MAX_HINT_TERMS as int)
    } else {
        terms
    };
    if shown.len() == 0 {
        None
    } else {
        Some("Glossary: "@ + seq_join(shown, ", "@) + "."@)
    }
}

/// An entry as `term (meaning)` or just `term`; None when the term is
/// blank.
pub open spec fn term_with_meaning_view(e: EntryView) -> Option<Seq<char>> {
    let correct = trim(e.correct);
    if correct.len() == 0 {
        None
    } else {
        match e.meaning {
            Some(m) => if trim(m).len() > 0 {
                Some(correct + " ("@ + trim(m) + ")"@)
            } else {
                Some(correct)
            },
            None => Some(correct),
        }
    }
}

/// `"misheard" -> "correct"` for each entry with a non-empty misheard form.
pub open spec fn correction_lines(entries: Seq<EntryView>) -> Seq<Seq<char>>
    decreases entries.len(),
{
    if entries.len() == 0 {
        seq![]
    } else {
        let prev = correction_lines(entries.drop_last());
        let e = entries.last();
        match misheard_term(e) {
            Some(m) => prev.push("\""@ + m + "\" -> \""@ + e.correct + "\""@),
            None => prev,
        }
    }
}

/// The formatted terms of the entries of one kind.
pub open spec fn group_terms(entries: Seq<EntryView>, kind: EntryKind) -> Seq<Seq<char>>
    decreases entries.len(),
{
    if entries.len() == 0 {
        seq![]
    } else {
        let prev = group_terms(entries.drop_last(), kind);
        let e = entries.last();
        if e.kind == kind {
            match term_with_meaning_view(e) {
                Some(t) => prev.push(t),
                None => prev,
            }
        } else {
            prev
        }
    }
}

pub const GLOSSARY_INTRO: &'static str = "\n\nUser dictionary \u{2014} the speaker's personal glossary. When the text contains one of these terms, or a garbled/similar-sounding variant of one, write the correct form exactly as listed. Meanings in parentheses are context to help you recognize the term \u{2014} never insert them into the output.";

pub const CORRECTIONS_HEADING: &'static str = "\nKnown mistranscriptions (also apply when merely similar-sounding): ";

pub const NAMES_HEADING: &'static str = "\nNames (people, companies, products): ";

pub const ABBREVIATIONS_HEADING: &'static str = "\nAbbreviations (keep abbreviated, spelled exactly like this): ";

pub const JARGON_HEADING: &'static str = "\nJargon and slang the speaker uses: ";

pub const TERMS_HEADING: &'static str = "\nOther terms and preferred spellings: ";

/// `heading` followed by the `items` joined with "; ", or nothing when there
/// is no item.
pub open spec fn listed(heading: Seq<char>, items: Seq<Seq<char>>) -> Seq<char> {
    if items.len() == 0 {
        seq![]
    } else {
        heading + seq_join(items, "; "@)
    }
}

/// The glossary section for LLM prompts; empty for an empty dictionary.
pub open spec fn glossary_section(entries: Seq<EntryView>) -> Seq<char> {
    if entries.len() == 0 {
        seq![]
    } else {
        GLOSSARY_INTRO@ + listed(CORRECTIONS_HEADING@, correction_lines(entries)) + listed(
            NAMES_HEADING@,
            group_terms(entries, EntryKind::Name),
        ) + listed(ABBREVIATIONS_HEADING@, group_terms(entries, EntryKind::Abbreviation)) + listed(
            JARGON_HEADING@,
            group_terms(entries, EntryKind::Jargon),
        ) + listed(TERMS_HEADING@, group_terms(entries, EntryKind::Term))
    }
}

// ---------------------------------------------------------------------------
// Compiled dictionary
// ---------------------------------------------------------------------------

/// One correction rule: a compiled whole-word matcher and its replacement.
struct Correction {
    matcher: CompiledPattern,
    replacement: String,
}

spec fn correction_view(c: Correction) -> (Seq<char>, Seq<char>) {
    (c.matcher.pattern(), c.replacement@)
}

/// The dictionary entries together with their compiled correction rules.
pub struct CompiledDictionary {
    entries: Vec<DictionaryEntry>,
    corrections: Vec<Correction>,
}

impl CompiledDictionary {
    /// The entries of the dictionary.
    pub closed spec fn entries_view(&self) -> Seq<EntryView> {
        entry_views(self.entries@)
    }

    #[verifier::type_invariant]
    closed spec fn rules_match_entries(&self) -> bool {
        &&& self.corrections@.map_values(|c: Correction| correction_view(c)) == correction_rules(
            entry_views(self.entries@),
        )
        &&& forall|i: int|
            0 <= i < self.corrections@.len() ==> (#[trigger] self.corrections@[i]).matcher.is_case_insensitive()
    }

    /// The number of entries.
    pub fn len(&self) -> (r: usize)
        ensures
            r == self.entries_view().len(),
    {
        self.entries.len()
    }

    /// The entry at `i`.
    pub fn entry(&self, i: usize) -> (r: &DictionaryEntry)
        requires
            i < self.entries_view().len(),
        ensures
            r@ == self.entries_view()[i as int],
    {
        &self.entries[i]
    }
}

/// Compiles the correction rules of `entries`: a whole-word,
/// case-insensitive matcher for every non-empty trimmed misheard form (forms
/// whose pattern does not compile are skipped).
pub fn compile(entries: Vec<DictionaryEntry>) -> (r: CompiledDictionary)
    ensures
        r.entries_view() == entry_views(entries@),
{
    let mut corrections: Vec<Correction> = Vec::new();
    let mut i: usize = 0;
    while i < entries.len()
        invariant
            i <= entries.len(),
            corrections@.map_values(|c: Correction| correction_view(c)) == correction_rules(
                entry_views(entries@).take(i as int),
            ),
            forall|k: int|
                0 <= k < corrections@.len() ==> (#[trigger] corrections@[k]).matcher.is_case_insensitive(),
        decreases entries.len() - i,
    {
        let ghost prev = corrections@;
        let ghost cur = entry_views(entries@).take(i + 1);
        proof {
            assert(cur.drop_last() =~= entry_views(entries@).take(i as int));
            assert(cur.last() == entries@[i as int]@);
        }
        let e = &entries[i];
        match &e.misheard {
            Some(m) => {
                let t = trim_str(m.as_str());
                if !t.is_empty() {
                    let mut pattern = String::from_str("\\b");
                    let escaped = escape(t);
                    pattern.append(escaped.as_str());
                    pattern.append("\\b");
                    assert(pattern@ == word_pattern(trim(m@)));
                    match compile_pattern(pattern.as_str(), true) {
                        Some(p) => {
                            let c = Correction { matcher: p, replacement: e.correct.clone() };
                            corrections.push(c);
                            proof {
                                assert(corrections@.map_values(|c: Correction| correction_view(c))
                                    =~= prev.map_values(|c: Correction| correction_view(c)).push(
                                    correction_view(c),
                                ));
                            }
                        },
                        None => {},
                    }
                }
            },
            None => {},
        }
        i += 1;
    }
    proof {
        assert(entry_views(entries@).take(entries.len() as int) =~= entry_views(entries@));
    }
    CompiledDictionary { entries, corrections }
}

/// Apply all correction rules to a transcribed segment, in entry order
/// (whole word, case-insensitive). Without a dictionary the text comes back
/// unchanged.
pub fn apply_corrections(dict: Option<&CompiledDictionary>, text: &str) -> (r: String)
    ensures
        r@ == match dict {
            Some(d) => apply_rules(correction_rules(d.entries_view()), text@),
            None => text@,
        },
{
    let mut result = String::from_str(text);
    match dict {
        None => result,
        Some(d) => {
            proof {
                use_type_invariant(d);
            }
            let ghost rules = correction_rules(d.entries_view());
            let mut i: usize = 0;
            while i < d.corrections.len()
                invariant
                    i <= d.corrections.len(),
                    rules == d.corrections@.map_values(|c: Correction| correction_view(c)),
                    forall|k: int|
                        0 <= k < d.corrections@.len() ==> (#[trigger] d.corrections@[k]).matcher.is_case_insensitive(),
                    result@ == apply_rules(rules.take(i as int), text@),
                decreases d.corrections.len() - i,
            {
                let c = &d.corrections[i];
                proof {
                    assert(rules.take(i + 1).drop_last() =~= rules.take(i as int));
                    assert(rules.take(i + 1).last() == correction_view(*c));
                    assert(c.matcher.is_case_insensitive());
                }
                if is_match(&c.matcher, result.as_str()) {
                    result = replace_all(&c.matcher, result.as_str(), c.replacement.as_str());
                } else {
                    assert(result@ == regex_replace_all_literal(
                        c.matcher.pattern(),
                        true,
                        result@,
                        c.replacement@,
                    ));
                }
                i += 1;
            }
            proof {
                assert(rules.take(d.corrections.len() as int) =~= rules);
            }
            result
        },
    }
}

/// Vocabulary hint for Whisper's initial prompt: the correct spellings of
/// the entries (trimmed, blank ones skipped), at most `MAX_HINT_TERMS` of
/// them, as "Glossary: a, b, c.". None when there is no dictionary or no
/// term.
pub fn whisper_vocabulary_hint(dict: Option<&CompiledDictionary>) -> (r: Option<String>)
    ensures
        opt_view(r) == match dict {
            Some(d) => vocabulary_hint(d.entries_view()),
            None => None,
        },
{
    let d = match dict {
        Some(d) => d,
        None => {
            return None;
        },
    };
    let ghost es = d.entries_view();
    let mut terms: Vec<String> = Vec::new();
    let mut i: usize = 0;
    let n = d.len();
    while i < n && terms.len() < MAX_HINT_TERMS
        invariant
            i <= n,
            es == d.entries_view(),
            n == es.len(),
            terms.len() <= MAX_HINT_TERMS,
            string_views(terms@) == vocabulary_terms(es.take(i as int)),
        decreases n - i,
    {
        let e = d.entry(i);
        let t = trim_str(e.correct.as_str());
        proof {
            assert(es.take(i + 1).drop_last() =~= es.take(i as int));
            assert(es.take(i + 1).last() == es[i as int]);
        }
        if !t.is_empty() {
            let ghost before = terms@;
            terms.push(String::from_str(t));
            assert(string_views(terms@) =~= string_views(before).push(t@));
        }
        i += 1;
    }
    proof {
        lemma_vocabulary_terms_prefix(es, i as int);
        if i == es.len() {
            assert(es.take(i as int) =~= es);
        }
    }
    if terms.len() == 0 {
        return None;
    }
    let mut hint = String::from_str("Glossary: ");
    let joined = join(&terms, ", ");
    hint.append(joined.as_str());
    hint.append(".");
    Some(hint)
}

/// Taking `k` terms of a longer prefix equals the terms of the prefix that
/// produced them.
proof fn lemma_vocabulary_terms_prefix(es: Seq<EntryView>, i: int)
    requires
        0 <= i <= es.len(),
        vocabulary_terms(es.take(i)).len() <= MAX_HINT_TERMS,
        i < es.len() ==> vocabulary_terms(es.take(i)).len() == MAX_HINT_TERMS,
    ensures
        (if vocabulary_terms(es).len() > MAX_HINT_TERMS {
            vocabulary_terms(es).take(MAX_HINT_TERMS as int)
        } else {
            vocabulary_terms(es)
        }) == vocabulary_terms(es.take(i)),
{
    lemma_vocabulary_terms_extends(es, i);
    if i == es.len() {
        assert(es.take(i) =~= es);
    } else {
        let t = vocabulary_terms(es);
        let p = vocabulary_terms(es.take(i));
        if t.len() > MAX_HINT_TERMS {
            assert(t.take(MAX_HINT_TERMS as int) =~= p);
        } else {
            assert(t =~= p);
        }
    }
}

/// The terms of a prefix are a prefix of the terms.
proof fn lemma_vocabulary_terms_extends(es: Seq<EntryView>, i: int)
    requires
        0 <= i <= es.len(),
    ensures
        vocabulary_terms(es.take(i)).len() <= vocabulary_terms(es).len(),
        vocabulary_terms(es).take(vocabulary_terms(es.take(i)).len() as int) == vocabulary_terms(
            es.take(i),
        ),
    decreases es.len() - i,
{
    if i == es.len() {
        assert(es.take(i) =~= es);
        assert(vocabulary_terms(es).take(vocabulary_terms(es).len() as int) =~= vocabulary_terms(es));
    } else {
        lemma_vocabulary_terms_extends(es, i + 1);
        assert(es.take(i + 1).drop_last() =~= es.take(i));
        let a = vocabulary_terms(es.take(i));
        let b = vocabulary_terms(es.take(i + 1));
        let all = vocabulary_terms(es);
        assert(b.take(a.len() as int) =~= a);
        assert(all.take(a.len() as int) =~= all.take(b.len() as int).take(a.len() as int));
    }
}

/// Format one entry as `term (meaning)` or just `term`; None when the term
/// is blank.
pub fn term_with_meaning(entry: &DictionaryEntry) -> (r: Option<String>)
    ensures
        opt_view(r) == term_with_meaning_view(entry@),
{
    let correct = trim_str(entry.correct.as_str());
    if correct.is_empty() {
        return None;
    }
    let mut out = String::from_str(correct);
    match &entry.meaning {
        Some(m) => {
            let t = trim_str(m.as_str());
            if !t.is_empty() {
                out.append(" (");
                out.append(t);
                out.append(")");
            }
        },
        None => {},
    }
    Some(out)
}

/// The `"misheard" -> "correct"` lines of the entries.
fn correction_line_list(d: &CompiledDictionary) -> (r: Vec<String>)
    ensures
        string_views(r@) == correction_lines(d.entries_view()),
{
    let ghost es = d.entries_view();
    let mut lines: Vec<String> = Vec::new();
    let mut i: usize = 0;
    let n = d.len();
    while i < n
        invariant
            i <= n,
            es == d.entries_view(),
            n == es.len(),
            string_views(lines@) == correction_lines(es.take(i as int)),
        decreases n - i,
    {
        let e = d.entry(i);
        proof {
            assert(es.take(i + 1).drop_last() =~= es.take(i as int));
            assert(es.take(i + 1).last() == es[i as int]);
        }
        match &e.misheard {
            Some(m) => {
                let t = trim_str(m.as_str());
                if !t.is_empty() {
                    let mut line = String::from_str("\"");
                    line.append(t);
                    line.append("\" -> \"");
                    line.append(e.correct.as_str());
                    line.append("\"");
                    let ghost before = lines@;
                    lines.push(line);
                    assert(string_views(lines@) =~= string_views(before).push(line@));
                }
            },
            None => {},
        }
        i += 1;
    }
    assert(es.take(n as int) =~= es);
    lines
}

/// The formatted terms of the entries of `kind`.
fn group_term_list(d: &CompiledDictionary, kind: EntryKind) -> (r: Vec<String>)
    ensures
        string_views(r@) == group_terms(d.entries_view(), kind),
{
    let ghost es = d.entries_view();
    let mut terms: Vec<String> = Vec::new();
    let mut i: usize = 0;
    let n = d.len();
    while i < n
        invariant
            i <= n,
            es == d.entries_view(),
            n == es.len(),
            string_views(terms@) == group_terms(es.take(i as int), kind),
        decreases n - i,
    {
        let e = d.entry(i);
        proof {
            assert(es.take(i + 1).drop_last() =~= es.take(i as int));
            assert(es.take(i + 1).last() == es[i as int]);
        }
        if e.kind == kind {
            match term_with_meaning(e) {
                Some(t) => {
                    let ghost before = terms@;
                    terms.push(t);
                    assert(string_views(terms@) =~= string_views(before).push(t@));
                },
                None => {},
            }
        }
        i += 1;
    }
    assert(es.take(n as int) =~= es);
    terms
}

/// Appends `heading` and the items joined with "; " when there is an item.
fn append_listed(out: &mut String, heading: &str, items: &Vec<String>)
    ensures
        final(out)@ == old(out)@ + listed(heading@, string_views(items@)),
{
    if items.len() == 0 {
        assert(old(out)@ + listed(heading@, string_views(items@)) =~= old(out)@);
        return;
    }
    out.append(heading);
    let joined = join(items, "; ");
    out.append(joined.as_str());
}

/// Glossary section for LLM prompts (dictation cleanup and meeting
/// summarization): the known correction pairs, then the names,
/// abbreviations, jargon and other terms with their meanings. Empty when
/// there is no dictionary or it has no entry.
pub fn glossary_prompt_section(dict: Option<&CompiledDictionary>) -> (r: String)
    ensures
        r@ == match dict {
            Some(d) => glossary_section(d.entries_view()),
            None => seq![],
        },
{
    let d = match dict {
        Some(d) => d,
        None => {
            return String::new();
        },
    };
    if d.len() == 0 {
        return String::new();
    }
    let mut section = String::from_str(GLOSSARY_INTRO);
    let corrections = correction_line_list(d);
    append_listed(&mut section, CORRECTIONS_HEADING, &corrections);
    let names = group_term_list(d, EntryKind::Name);
    append_listed(&mut section, NAMES_HEADING, &names);
    let abbreviations = group_term_list(d, EntryKind::Abbreviation);
    append_listed(&mut section, ABBREVIATIONS_HEADING, &abbreviations);
    let jargon = group_term_list(d, EntryKind::Jargon);
    append_listed(&mut section, JARGON_HEADING, &jargon);
    let terms = group_term_list(d, EntryKind::Term);
    append_listed(&mut section, TERMS_HEADING, &terms);
    section
}

// ---------------------------------------------------------------------------
// Editing the entry list
// ---------------------------------------------------------------------------

/// An entry saved before kinds existed reads as a `Term`; those with a
/// misheard form were corrections.
pub open spec fn migrated(e: EntryView) -> EntryView {
    if e.kind == EntryKind::Term && e.misheard is Some {
        EntryView { kind: EntryKind::Correction, ..e }
    } else {
        e
    }
}

/// Relabels the entries that were stored before kinds existed: a `Term`
/// with a misheard form becomes a `Correction`; other entries stay as they
/// are.
pub fn migrate_entry_kinds(entries: &Vec<DictionaryEntry>) -> (r: Vec<DictionaryEntry>)
    ensures
        r.len() == entries.len(),
        forall|i: int| 0 <= i < r.len() ==> #[trigger] r@[i]@ == migrated(entries@[i]@),
{
    let mut out: Vec<DictionaryEntry> = Vec::new();
    let mut i: usize = 0;
    while i < entries.len()
        invariant
            i <= entries.len(),
            out.len() == i,
            forall|k: int| 0 <= k < i ==> #[trigger] out@[k]@ == migrated(entries@[k]@),
        decreases entries.len() - i,
    {
        let mut e = entries[i].clone();
        if e.kind == EntryKind::Term && e.misheard.is_some() {
            e.kind = EntryKind::Correction;
        }
        out.push(e);
        i += 1;
    }
    out
}

/// `None` for a missing or blank value, else the trimmed value.
pub open spec fn cleaned(o: Option<Seq<char>>) -> Option<Seq<char>> {
    match o {
        Some(m) => if trim(m).len() > 0 {
            Some(trim(m))
        } else {
            None
        },
        None => None,
    }
}

/// `e` holds the same misheard -> correct pair, up to ASCII case.
pub open spec fn same_pair(e: EntryView, correct: Seq<char>, misheard: Option<Seq<char>>) -> bool {
    &&& eq_ignore_ascii_case(e.correct, correct)
    &&& match (e.misheard, misheard) {
        (Some(a), Some(b)) => eq_ignore_ascii_case(a, b),
        (None, None) => true,
        _ => false,
    }
}

/// `j` is the first entry holding the pair.
pub open spec fn is_first_same(
    entries: Seq<EntryView>,
    correct: Seq<char>,
    misheard: Option<Seq<char>>,
    j: int,
) -> bool {
    &&& 0 <= j < entries.len()
    &&& same_pair(entries[j], correct, misheard)
    &&& forall|k: int| 0 <= k < j ==> !same_pair(#[trigger] entries[k], correct, misheard)
}

/// The outcome of adding an entry: the new entry list, and either the entry
/// that now holds the pair with whether the list changed, or an error.
///
/// The correct form, misheard form and meaning are trimmed (blank optional
/// values count as absent); the kind defaults to `Correction` when a
/// misheard form is given, else `Term`. Re-adding a pair already present
/// (up to ASCII case) changes nothing, except that a meaning is filled in
/// where the existing entry had none.
pub open spec fn add_outcome(
    entries: Seq<EntryView>,
    misheard: Option<Seq<char>>,
    correct: Seq<char>,
    kind: Option<EntryKind>,
    meaning: Option<Seq<char>>,
    id: Seq<char>,
) -> (Seq<EntryView>, Result<(EntryView, bool), Seq<char>>) {
    let c = trim(correct);
    let m = cleaned(misheard);
    let mn = cleaned(meaning);
    if c.len() == 0 {
        (entries, Err("Correct form cannot be empty"@))
    } else if exists|j: int| is_first_same(entries, c, m, j) {
        let j = choose|j: int| is_first_same(entries, c, m, j);
        let existing = entries[j];
        if existing.meaning is None && mn is Some {
            let updated = EntryView { meaning: mn, ..existing };
            (entries.update(j, updated), Ok((updated, true)))
        } else {
            (entries, Ok((existing, false)))
        }
    } else {
        let k = match kind {
            Some(k) => k,
            None => if m is Some {
                EntryKind::Correction
            } else {
                EntryKind::Term
            },
        };
        let e = EntryView { id, misheard: m, correct: c, kind: k, meaning: mn };
        (entries.push(e), Ok((e, true)))
    }
}

pub open spec fn add_result_view(r: Result<(DictionaryEntry, bool), String>) -> Result<(EntryView, bool), Seq<char>> {
    match r {
        Ok((e, changed)) => Ok((e@, changed)),
        Err(msg) => Err(msg@),
    }
}

fn clean_option(o: &Option<String>) -> (r: Option<String>)
    ensures
        opt_view(r) == cleaned(opt_view(*o)),
{
    match o {
        Some(m) => {
            let t = trim_str(m.as_str());
            if t.is_empty() {
                None
            } else {
                Some(String::from_str(t))
            }
        },
        None => None,
    }
}

fn is_same_pair(e: &DictionaryEntry, correct: &str, misheard: &Option<String>) -> (r: bool)
    ensures
        r == same_pair(e@, correct@, opt_view(*misheard)),
{
    if !str_eq_ignore_ascii_case(e.correct.as_str(), correct) {
        return false;
    }
    match (&e.misheard, misheard) {
        (Some(a), Some(b)) => str_eq_ignore_ascii_case(a.as_str(), b.as_str()),
        (None, None) => true,
        _ => false,
    }
}

/// Adds an entry with the given id, or reuses the entry already holding
/// the same pair (see `add_outcome`). Returns the resulting entry and
/// whether the list changed (and needs saving).
pub fn add_entry_with_id(
    entries: &mut Vec<DictionaryEntry>,
    misheard: Option<String>,
    correct: String,
    kind: Option<EntryKind>,
    meaning: Option<String>,
    id: String,
) -> (r: Result<(DictionaryEntry, bool), String>)
    ensures
        (entry_views(final(entries)@), add_result_view(r)) == add_outcome(
            entry_views(old(entries)@),
            opt_view(misheard),
            correct@,
            kind,
            opt_view(meaning),
            id@,
        ),
{
    let ghost es = entry_views(entries@);
    let c = trim_str(correct.as_str());
    if c.is_empty() {
        return Err(String::from_str("Correct form cannot be empty"));
    }
    let m = clean_option(&misheard);
    let mn = clean_option(&meaning);
    let mut j: usize = 0;
    while j < entries.len()
        invariant
            j <= entries.len(),
            es == entry_views(entries@),
            es == entry_views(old(entries)@),
            c@ == trim(correct@),
            c@.len() > 0,
            opt_view(m) == cleaned(opt_view(misheard)),
            opt_view(mn) == cleaned(opt_view(meaning)),
            forall|k: int| 0 <= k < j ==> !same_pair(#[trigger] es[k], c@, opt_view(m)),
        decreases entries.len() - j,
    {
        if is_same_pair(&entries[j], c, &m) {
            assert(is_first_same(es, c@, opt_view(m), j as int));
            assert forall|j2: int| is_first_same(es, c@, opt_view(m), j2) implies j2 == j as int by {
                if j2 < j {
                    assert(!same_pair(es[j2], c@, opt_view(m)));
                }
                if j2 > j {
                    assert(!same_pair(es[j as int], c@, opt_view(m)));
                }
            }
            let existing = entries[j].clone();
            if existing.meaning.is_none() && mn.is_some() {
                let updated = DictionaryEntry {
                    id: existing.id,
                    misheard: existing.misheard,
                    correct: existing.correct,
                    kind: existing.kind,
                    meaning: mn,
                };
                let copy = updated.clone();
                entries.set(j, updated);
                assert(entry_views(entries@) =~= es.update(j as int, copy@));
                return Ok((copy, true));
            }
            return Ok((existing, false));
        }
        j += 1;
    }
    let k = match kind {
        Some(k) => k,
        None => if m.is_some() {
            EntryKind::Correction
        } else {
            EntryKind::Term
        },
    };
    let e = DictionaryEntry { id, misheard: m, correct: String::from_str(c), kind: k, meaning: mn };
    let copy = e.clone();
    entries.push(e);
    assert(entry_views(entries@) =~= es.push(copy@));
    Ok((copy, true))
}

pub open spec fn is_lower_hex(c: char) -> bool {
    ('0' <= c && c <= '9') || ('a' <= c && c <= 'f')
}

/// The hyphenated lower-case text of a random (version 4, RFC 4122
/// variant) UUID: 36 characters, hyphens at positions 8, 13, 18 and 23,
/// lower-case hexadecimal digits elsewhere, version digit '4' at position
/// 14 and a variant digit among '8', '9', 'a', 'b' at position 19.
pub open spec fn is_v4_uuid_text(u: Seq<char>) -> bool {
    &&& u.len() == 36
    &&& forall|i: int|
        0 <= i < 36 ==> if i == 8 || i == 13 || i == 18 || i == 23 {
            u[i] == '-'
        } else {
            is_lower_hex(#[trigger] u[i])
        }
    &&& u[14] == '4'
    &&& (u[19] == '8' || u[19] == '9' || u[19] == 'a' || u[19] == 'b')
}

/// Calls `uuid::Uuid::new_v4` and renders it with `hyphenated()` (whose
/// `Display` writes lower-case hex). The value is random; only its shape is
/// claimed: the version and variant bits that `new_v4` sets, and the
/// hyphenated layout.
#[verifier::external_body]
fn random_uuid() -> (r: String)
    ensures
        is_v4_uuid_text(r@),
{
    uuid::Uuid::new_v4().hyphenated().to_string()
}

/// Adds an entry (see `add_outcome`), giving a new entry the id
/// "dict-<random uuid>".
pub fn add_dictionary_entry(
    entries: &mut Vec<DictionaryEntry>,
    misheard: Option<String>,
    correct: String,
    kind: Option<EntryKind>,
    meaning: Option<String>,
) -> (r: Result<(DictionaryEntry, bool), String>)
    ensures
        exists|u: Seq<char>|
            is_v4_uuid_text(u) && (entry_views(final(entries)@), add_result_view(r)) == add_outcome(
                entry_views(old(entries)@),
                opt_view(misheard),
                correct@,
                kind,
                opt_view(meaning),
                "dict-"@ + u,
            ),
{
    let u = random_uuid();
    let mut id = String::from_str("dict-");
    id.append(u.as_str());
    let r = add_entry_with_id(entries, misheard, correct, kind, meaning, id);
    assert((entry_views(entries@), add_result_view(r)) == add_outcome(
        entry_views(old(entries)@),
        opt_view(misheard),
        correct@,
        kind,
        opt_view(meaning),
        "dict-"@ + u@,
    ));
    r
}

/// `j` is the first entry with the given id.
pub open spec fn is_first_with_id(entries: Seq<EntryView>, id: Seq<char>, j: int) -> bool {
    &&& 0 <= j < entries.len()
    &&& entries[j].id == id
    &&& forall|k: int| 0 <= k < j ==> (#[trigger] entries[k]).id != id
}

/// Replacing the entry with the id of `entry`: the first such entry is
/// replaced; without one, an error names the id.
pub open spec fn update_outcome(entries: Seq<EntryView>, entry: EntryView) -> (Seq<EntryView>, Result<(), Seq<char>>) {
    if exists|j: int| is_first_with_id(entries, entry.id, j) {
        let j = choose|j: int| is_first_with_id(entries, entry.id, j);
        (entries.update(j, entry), Ok(()))
    } else {
        (entries, Err("Dictionary entry not found: "@ + entry.id))
    }
}

pub open spec fn unit_result_view(r: Result<(), String>) -> Result<(), Seq<char>> {
    match r {
        Ok(()) => Ok(()),
        Err(msg) => Err(msg@),
    }
}

/// Replaces the entry having the id of `entry` (see `update_outcome`).
pub fn update_dictionary_entry(entries: &mut Vec<DictionaryEntry>, entry: DictionaryEntry) -> (r: Result<(), String>)
    ensures
        (entry_views(final(entries)@), unit_result_view(r)) == update_outcome(
            entry_views(old(entries)@),
            entry@,
        ),
{
    let ghost es = entry_views(entries@);
    let mut j: usize = 0;
    while j < entries.len()
        invariant
            j <= entries.len(),
            es == entry_views(entries@),
            es == entry_views(old(entries)@),
            forall|k: int| 0 <= k < j ==> (#[trigger] es[k]).id != entry.id@,
        decreases entries.len() - j,
    {
        if entries[j].id == entry.id {
            assert(is_first_with_id(es, entry.id@, j as int));
            assert forall|j2: int| is_first_with_id(es, entry.id@, j2) implies j2 == j as int by {
                if j2 < j {
                    assert(es[j2].id != entry.id@);
                }
                if j2 > j {
                    assert(es[j as int].id != entry.id@);
                }
            }
            let ghost ev = entry@;
            entries.set(j, entry);
            assert(entry_views(entries@) =~= es.update(j as int, ev));
            return Ok(());
        }
        j += 1;
    }
    let mut msg = String::from_str("Dictionary entry not found: ");
    msg.append(entry.id.as_str());
    Err(msg)
}

/// The entries whose id differs from `id`, in order.
pub open spec fn without_id(entries: Seq<EntryView>, id: Seq<char>) -> Seq<EntryView>
    decreases entries.len(),
{
    if entries.len() == 0 {
        seq![]
    } else {
        let prev = without_id(entries.drop_last(), id);
        if entries.last().id == id {
            prev
        } else {
            prev.push(entries.last())
        }
    }
}

/// Removes every entry with the given id.
pub fn delete_dictionary_entry(entries: &Vec<DictionaryEntry>, id: &str) -> (r: Vec<DictionaryEntry>)
    ensures
        entry_views(r@) == without_id(entry_views(entries@), id@),
{
    let ghost es = entry_views(entries@);
    let mut out: Vec<DictionaryEntry> = Vec::new();
    let mut i: usize = 0;
    while i < entries.len()
        invariant
            i <= entries.len(),
            es == entry_views(entries@),
            entry_views(out@) == without_id(es.take(i as int), id@),
        decreases entries.len() - i,
    {
        proof {
            assert(es.take(i + 1).drop_last() =~= es.take(i as int));
            assert(es.take(i + 1).last() == es[i as int]);
        }
        if !str_eq(entries[i].id.as_str(), id) {
            let e = entries[i].clone();
            let ghost before = out@;
            out.push(e);
            assert(entry_views(out@) =~= entry_views(before).push(es[i as int]));
        }
        i += 1;
    }
    assert(es.take(entries.len() as int) =~= es);
    out
}

// ---------------------------------------------------------------------------
// Laws
// ---------------------------------------------------------------------------

proof fn lemma_first_same_exists(
    entries: Seq<EntryView>,
    correct: Seq<char>,
    misheard: Option<Seq<char>>,
    j: int,
)
    requires
        0 <= j < entries.len(),
        same_pair(entries[j], correct, misheard),
    ensures
        exists|f: int| is_first_same(entries, correct, misheard, f),
    decreases j,
{
    if exists|k: int| 0 <= k < j && same_pair(#[trigger] entries[k], correct, misheard) {
        let k = choose|k: int| 0 <= k < j && same_pair(#[trigger] entries[k], correct, misheard);
        lemma_first_same_exists(entries, correct, misheard, k);
    } else {
        assert(is_first_same(entries, correct, misheard, j));
    }
}

proof fn lemma_first_same_unique(
    entries: Seq<EntryView>,
    correct: Seq<char>,
    misheard: Option<Seq<char>>,
    j: int,
)
    requires
        is_first_same(entries, correct, misheard, j),
    ensures
        (choose|f: int| is_first_same(entries, correct, misheard, f)) == j,
{
    let f = choose|f: int| is_first_same(entries, correct, misheard, f);
    assert(is_first_same(entries, correct, misheard, f));
    if f < j {
        assert(!same_pair(entries[f], correct, misheard));
    }
    if j < f {
        assert(!same_pair(entries[j], correct, misheard));
    }
}

/// An entry holds its own pair.
proof fn lemma_same_pair_reflexive(e: EntryView)
    ensures
        same_pair(e, e.correct, e.misheard),
{
}

/// Re-adding is a no-op: adding the same entry a second time leaves the
/// list as the first add left it, and returns the entry the first add
/// returned, marked unchanged (so identical misheard -> correct pairs are
/// never stored, and typed, twice).
pub proof fn law_re_adding_changes_nothing(
    entries: Seq<EntryView>,
    misheard: Option<Seq<char>>,
    correct: Seq<char>,
    kind: Option<EntryKind>,
    meaning: Option<Seq<char>>,
    first_id: Seq<char>,
    second_id: Seq<char>,
)
    requires
        add_outcome(entries, misheard, correct, kind, meaning, first_id).1 is Ok,
    ensures
        ({
            let (after, first) = add_outcome(entries, misheard, correct, kind, meaning, first_id);
            let (again, second) = add_outcome(after, misheard, correct, kind, meaning, second_id);
            &&& again == after
            &&& second == Ok::<(EntryView, bool), Seq<char>>((first->Ok_0.0, false))
        }),
{
    let c = trim(correct);
    let m = cleaned(misheard);
    let mn = cleaned(meaning);
    let after = add_outcome(entries, misheard, correct, kind, meaning, first_id).0;
    if exists|j: int| is_first_same(entries, c, m, j) {
        let j = choose|j: int| is_first_same(entries, c, m, j);
        let existing = entries[j];
        if existing.meaning is None && mn is Some {
            let updated = EntryView { meaning: mn, ..existing };
            assert(after == entries.update(j, updated));
            assert forall|k: int| 0 <= k < j implies !same_pair(#[trigger] after[k], c, m) by {
                assert(after[k] == entries[k]);
            }
            assert(is_first_same(after, c, m, j));
            lemma_first_same_unique(after, c, m, j);
        } else {
            lemma_first_same_unique(after, c, m, j);
        }
    } else {
        let k = match kind {
            Some(k) => k,
            None => if m is Some {
                EntryKind::Correction
            } else {
                EntryKind::Term
            },
        };
        let e = EntryView { id: first_id, misheard: m, correct: c, kind: k, meaning: mn };
        assert(after == entries.push(e));
        assert forall|i: int| 0 <= i < entries.len() implies !same_pair(
            #[trigger] entries[i],
            c,
            m,
        ) by {
            if same_pair(entries[i], c, m) {
                lemma_first_same_exists(entries, c, m, i);
            }
        }
        lemma_same_pair_reflexive(e);
        assert forall|i: int| 0 <= i < entries.len() implies !same_pair(#[trigger] after[i], c, m) by {
            assert(after[i] == entries[i]);
        }
        assert(is_first_same(after, c, m, entries.len() as int));
        lemma_first_same_unique(after, c, m, entries.len() as int);
    }
}

proof fn lemma_without_absent_id(entries: Seq<EntryView>, id: Seq<char>)
    requires
        forall|k: int| 0 <= k < entries.len() ==> (#[trigger] entries[k]).id != id,
    ensures
        without_id(entries, id) == entries,
    decreases entries.len(),
{
    if entries.len() > 0 {
        lemma_without_absent_id(entries.drop_last(), id);
        assert(entries.drop_last().push(entries.last()) =~= entries);
    }
}

/// Deleting undoes adding: after a new entry is added under a fresh id,
/// deleting that id gives back the list as it was.
pub proof fn law_delete_undoes_add(
    entries: Seq<EntryView>,
    misheard: Option<Seq<char>>,
    correct: Seq<char>,
    kind: Option<EntryKind>,
    meaning: Option<Seq<char>>,
    id: Seq<char>,
)
    requires
        trim(correct).len() > 0,
        forall|k: int|
            0 <= k < entries.len() ==> !same_pair(#[trigger] entries[k], trim(correct), cleaned(misheard)),
        forall|k: int| 0 <= k < entries.len() ==> (#[trigger] entries[k]).id != id,
    ensures
        without_id(add_outcome(entries, misheard, correct, kind, meaning, id).0, id) == entries,
{
    let after = add_outcome(entries, misheard, correct, kind, meaning, id).0;
    assert(after.len() == entries.len() + 1);
    assert(after.drop_last() =~= entries);
    lemma_without_absent_id(entries, id);
}

/// Deleting keeps exactly the entries with another id, in their order.
pub proof fn law_delete_keeps_exactly_other_ids(entries: Seq<EntryView>, id: Seq<char>)
    ensures
        without_id(entries, id) == entries.filter(|e: EntryView| e.id != id),
        forall|i: int|
            0 <= i < without_id(entries, id).len() ==> (#[trigger] without_id(entries, id)[i]).id
                != id,
    decreases entries.len(),
{
    reveal(Seq::filter);
    if entries.len() > 0 {
        law_delete_keeps_exactly_other_ids(entries.drop_last(), id);
    }
    entries.filter_lemma(|e: EntryView| e.id != id);
}

proof fn lemma_first_id_exists(entries: Seq<EntryView>, id: Seq<char>, j: int)
    requires
        0 <= j < entries.len(),
        entries[j].id == id,
    ensures
        exists|f: int| is_first_with_id(entries, id, f),
    decreases j,
{
    if exists|k: int| 0 <= k < j && (#[trigger] entries[k]).id == id {
        let k = choose|k: int| 0 <= k < j && (#[trigger] entries[k]).id == id;
        lemma_first_id_exists(entries, id, k);
    } else {
        assert(is_first_with_id(entries, id, j));
    }
}

/// Updating replaces, in place, the first entry with the given entry's id
/// and leaves every other entry as it was; an update for an id no entry
/// has fails and changes nothing.
pub proof fn law_update_replaces_in_place(entries: Seq<EntryView>, entry: EntryView)
    ensures
        ({
            let (after, r) = update_outcome(entries, entry);
            &&& r is Ok <==> exists|k: int| 0 <= k < entries.len() && (#[trigger] entries[k]).id
                == entry.id
            &&& after.len() == entries.len()
            &&& r is Err ==> after == entries
            &&& r is Ok ==> exists|j: int|
                0 <= j < entries.len() && after[j] == entry && forall|k: int|
                    0 <= k < entries.len() && k != j ==> #[trigger] after[k] == entries[k]
        }),
{
    let (after, r) = update_outcome(entries, entry);
    if exists|j: int| is_first_with_id(entries, entry.id, j) {
        let j = choose|j: int| is_first_with_id(entries, entry.id, j);
        assert(after == entries.update(j, entry));
        assert(after[j] == entry);
        assert(entries[j].id == entry.id);
        assert forall|k: int| 0 <= k < entries.len() && k != j implies #[trigger] after[k]
            == entries[k] by {}
    } else {
        assert forall|k: int| 0 <= k < entries.len() implies (#[trigger] entries[k]).id
            != entry.id by {
            if entries[k].id == entry.id {
                lemma_first_id_exists(entries, entry.id, k);
            }
        }
    }
}

/// Relabelling old entries is idempotent, and afterwards no entry with a
/// misheard form is left labelled `Term`.
pub proof fn law_migration_settles(e: EntryView)
    ensures
        migrated(migrated(e)) == migrated(e),
        !(migrated(e).kind == EntryKind::Term && migrated(e).misheard is Some),
{
}

proof fn lemma_no_rules(entries: Seq<EntryView>)
    requires
        forall|k: int| 0 <= k < entries.len() ==> misheard_term(#[trigger] entries[k]) is None,
    ensures
        correction_rules(entries).len() == 0,
    decreases entries.len(),
{
    if entries.len() > 0 {
        assert(misheard_term(entries[entries.len() - 1]) is None);
        lemma_no_rules(entries.drop_last());
    }
}

/// A dictionary without misheard forms corrects nothing: every text comes
/// back unchanged.
pub proof fn law_no_misheard_forms_no_changes(entries: Seq<EntryView>, text: Seq<char>)
    requires
        forall|k: int| 0 <= k < entries.len() ==> misheard_term(#[trigger] entries[k]) is None,
    ensures
        apply_rules(correction_rules(entries), text) == text,
{
    lemma_no_rules(entries);
}

/// Entries that differ only in their kind give the same correction rules:
/// the kind of an entry never decides whether its misheard form is
/// corrected.
pub proof fn law_rules_ignore_kind(entries: Seq<EntryView>, other: Seq<EntryView>)
    requires
        other.len() == entries.len(),
        forall|k: int|
            0 <= k < entries.len() ==> (#[trigger] other[k]) == (EntryView {
                kind: other[k].kind,
                ..entries[k]
            }),
    ensures
        correction_rules(other) == correction_rules(entries),
    decreases entries.len(),
{
    if entries.len() > 0 {
        let n = entries.len() - 1;
        assert forall|k: int| 0 <= k < n implies (#[trigger] other.drop_last()[k]) == (EntryView {
            kind: other.drop_last()[k].kind,
            ..entries.drop_last()[k]
        }) by {
            assert(other.drop_last()[k] == other[k]);
            assert(entries.drop_last()[k] == entries[k]);
        }
        law_rules_ignore_kind(entries.drop_last(), other.drop_last());
        assert(other[n] == (EntryView { kind: other[n].kind, ..entries[n] }));
    }
}

/// Every entry whose trimmed misheard form is non-blank and whose
/// whole-word pattern compiles gives a rule replacing that pattern by its
/// correct form, whatever its kind; no other entry gives one, so there are
/// as many rules as such entries.
pub proof fn law_every_misheard_entry_gives_a_rule(entries: Seq<EntryView>, k: int)
    requires
        0 <= k < entries.len(),
        misheard_term(entries[k]) is Some,
        regex_compiles(word_pattern(misheard_term(entries[k])->0), true),
    ensures
        correction_rules(entries).contains(
            (word_pattern(misheard_term(entries[k])->0), entries[k].correct),
        ),
        correction_rules(entries).len() == correction_rules(entries.take(k)).len() + 1
            + correction_rules(entries.skip(k + 1)).len(),
    decreases entries.len(),
{
    let n = entries.len() - 1;
    let rule = (word_pattern(misheard_term(entries[k])->0), entries[k].correct);
    lemma_rules_concat(entries.take(k + 1), entries.skip(k + 1));
    assert(entries.take(k + 1) + entries.skip(k + 1) =~= entries);
    assert(entries.take(k + 1).drop_last() =~= entries.take(k));
    assert(entries.take(k + 1).last() == entries[k]);
    assert(correction_rules(entries.take(k + 1)) == correction_rules(entries.take(k)).push(rule));
    let r = correction_rules(entries);
    assert(r[correction_rules(entries.take(k)).len() as int] == rule);
}

proof fn lemma_rules_concat(a: Seq<EntryView>, b: Seq<EntryView>)
    ensures
        correction_rules(a + b) == correction_rules(a) + correction_rules(b),
    decreases b.len(),
{
    if b.len() == 0 {
        assert(a + b =~= a);
        assert(correction_rules(a) + correction_rules(b) =~= correction_rules(a));
    } else {
        lemma_rules_concat(a, b.drop_last());
        assert((a + b).drop_last() =~= a + b.drop_last());
        assert((a + b).last() == b.last());
        let rb = correction_rules(b);
        let rbp = correction_rules(b.drop_last());
        match misheard_term(b.last()) {
            Some(m) => {
                if regex_compiles(word_pattern(m), true) {
                    assert(correction_rules(a) + rbp.push((word_pattern(m), b.last().correct))
                        =~= (correction_rules(a) + rbp).push((word_pattern(m), b.last().correct)));
                }
            },
            None => {},
        }
    }
}

/// Adding a pair whose misheard form differs (up to ASCII case, or in being
/// present) from that of every entry with the same correct form appends a
/// new entry: the list grows by exactly that entry, and it is returned as
/// changed. A second misheard form of a word is never dropped as a
/// duplicate.
pub proof fn law_new_misheard_form_is_added(
    entries: Seq<EntryView>,
    misheard: Option<Seq<char>>,
    correct: Seq<char>,
    kind: Option<EntryKind>,
    meaning: Option<Seq<char>>,
    id: Seq<char>,
)
    requires
        trim(correct).len() > 0,
        forall|k: int|
            0 <= k < entries.len() && eq_ignore_ascii_case(#[trigger] entries[k].correct, trim(correct))
                ==> match (entries[k].misheard, cleaned(misheard)) {
                (Some(a), Some(b)) => !eq_ignore_ascii_case(a, b),
                (None, None) => false,
                _ => true,
            },
    ensures
        ({
            let m = cleaned(misheard);
            let e = EntryView {
                id,
                misheard: m,
                correct: trim(correct),
                kind: match kind {
                    Some(k) => k,
                    None => if m is Some {
                        EntryKind::Correction
                    } else {
                        EntryKind::Term
                    },
                },
                meaning: cleaned(meaning),
            };
            let (after, r) = add_outcome(entries, misheard, correct, kind, meaning, id);
            &&& after == entries.push(e)
            &&& r == Ok::<(EntryView, bool), Seq<char>>((e, true))
        }),
{
    let c = trim(correct);
    let m = cleaned(misheard);
    if exists|j: int| is_first_same(entries, c, m, j) {
        let j = choose|j: int| is_first_same(entries, c, m, j);
        assert(same_pair(entries[j], c, m));
    }
}

} // verus!
