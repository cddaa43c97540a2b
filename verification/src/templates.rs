//! Summary templates: their structure and validation, the built-in
//! defaults, their JSON rendering, and the lookup rules across the three
//! places a template can come from (custom > bundled > built-in).
//!
//! The files of the bundled and custom template directories are handed in
//! as a `TemplateCatalog` (file name, raw content, and the result of parsing
//! that content); reading directories and parsing JSON happen outside.

use vstd::prelude::*;
use crate::text::{
    chars_of, decimal, has_suffix, join, lemma_seq_less_irreflexive, lemma_seq_less_total,
    lemma_seq_less_transitive, push_char, push_decimal, seq_join, seq_less, str_eq, str_less,
    string_views, trim, trim_end_matches, trim_str,
};

verus! {

/// One section of a summary template.
#[derive(Debug)]
pub struct TemplateSection {
    pub title: String,
    pub instruction: String,
    pub format: String,
}

/// A summary template: display name, description and ordered sections.
#[derive(Debug)]
pub struct Template {
    pub name: String,
    pub description: String,
    pub sections: Vec<TemplateSection>,
}

pub struct SectionView {
    pub title: Seq<char>,
    pub instruction: Seq<char>,
    pub format: Seq<char>,
}

pub struct TemplateView {
    pub name: Seq<char>,
    pub description: Seq<char>,
    pub sections: Seq<SectionView>,
}

impl View for TemplateSection {
    type V = SectionView;

    open spec fn view(&self) -> SectionView {
        SectionView { title: self.title@, instruction: self.instruction@, format: self.format@ }
    }
}

pub open spec fn section_views(s: Seq<TemplateSection>) -> Seq<SectionView> {
    s.map_values(|x: TemplateSection| x@)
}

impl View for Template {
    type V = TemplateView;

    open spec fn view(&self) -> TemplateView {
        TemplateView {
            name: self.name@,
            description: self.description@,
            sections: section_views(self.sections@),
        }
    }
}

impl Clone for TemplateSection {
    fn clone(&self) -> (r: Self)
        ensures
            r@ == self@,
    {
        TemplateSection {
            title: self.title.clone(),
            instruction: self.instruction.clone(),
            format: self.format.clone(),
        }
    }
}

impl Clone for Template {
    fn clone(&self) -> (r: Self)
        ensures
            r@ == self@,
    {
        let mut sections: Vec<TemplateSection> = Vec::new();
        let mut i: usize = 0;
        while i < self.sections.len()
            invariant
                i <= self.sections.len(),
                section_views(sections@) == section_views(self.sections@).take(i as int),
            decreases self.sections.len() - i,
        {
            let ghost before = sections@;
            let c = self.sections[i].clone();
            sections.push(c);
            assert(section_views(sections@) =~= section_views(before).push(self.sections@[i as int]@));
            assert(section_views(sections@) =~= section_views(self.sections@).take(i + 1));
            i += 1;
        }
        assert(section_views(self.sections@).take(self.sections.len() as int) =~= section_views(
            self.sections@,
        ));
        Template { name: self.name.clone(), description: self.description.clone(), sections }
    }
}

// ---------------------------------------------------------------------------
// Validation
// ---------------------------------------------------------------------------

/// The first section (index) whose title is blank, if any.
pub open spec fn is_first_untitled(sections: Seq<SectionView>, i: int) -> bool {
    &&& 0 <= i < sections.len()
    &&& trim(sections[i].title).len() == 0
    &&& forall|k: int| 0 <= k < i ==> trim((#[trigger] sections[k]).title).len() > 0
}

/// Template validation: a non-blank name, at least one section, and no
/// section with a blank title (reported with its 1-based position).
pub open spec fn template_check(t: TemplateView) -> Result<(), Seq<char>> {
    if trim(t.name).len() == 0 {
        Err("Template name cannot be empty"@)
    } else if t.sections.len() == 0 {
        Err("Template must have at least one section"@)
    } else if exists|i: int| is_first_untitled(t.sections, i) {
        let i = choose|i: int| is_first_untitled(t.sections, i);
        Err("Section "@ + decimal((i + 1) as nat) + " has an empty title"@)
    } else {
        Ok(())
    }
}

pub open spec fn unit_view(r: Result<(), String>) -> Result<(), Seq<char>> {
    match r {
        Ok(()) => Ok(()),
        Err(e) => Err(e@),
    }
}

impl Template {
    /// Checks the template (see `template_check`).
    pub fn validate(&self) -> (r: Result<(), String>)
        ensures
            unit_view(r) == template_check(self@),
    {
        if trim_str(self.name.as_str()).is_empty() {
            return Err(String::from_str("Template name cannot be empty"));
        }
        if self.sections.len() == 0 {
            return Err(String::from_str("Template must have at least one section"));
        }
        let ghost ss = section_views(self.sections@);
        let mut i: usize = 0;
        while i < self.sections.len()
            invariant
                i <= self.sections.len(),
                ss == section_views(self.sections@),
                trim(self.name@).len() > 0,
                ss.len() > 0,
                forall|k: int| 0 <= k < i ==> trim((#[trigger] ss[k]).title).len() > 0,
            decreases self.sections.len() - i,
        {
            if trim_str(self.sections[i].title.as_str()).is_empty() {
                assert(is_first_untitled(ss, i as int));
                assert forall|j: int| is_first_untitled(ss, j) implies j == i as int by {
                    if j < i {
                        assert(trim(ss[j].title).len() > 0);
                    }
                    if j > i {
                        assert(trim(ss[i as int].title).len() == 0);
                    }
                }
                let mut msg = String::from_str("Section ");
                push_decimal(&mut msg, (i + 1) as u64);
                msg.append(" has an empty title");
                assert(msg@ == "Section "@ + decimal((i + 1) as nat) + " has an empty title"@);
                assert(ss.len() > 0);
                return Err(msg);
            }
            i += 1;
        }
        assert forall|j: int| !is_first_untitled(ss, j) by {
            if 0 <= j < ss.len() {
                assert(trim(ss[j].title).len() > 0);
            }
        }
        Ok(())
    }
}

pub open spec fn template_result_view(r: Result<Template, String>) -> Result<TemplateView, Seq<char>> {
    match r {
        Ok(t) => Ok(t@),
        Err(e) => Err(e@),
    }
}

/// A parse result, then validated: parse errors pass through, a parsed
/// template is returned when it passes `template_check`.
pub open spec fn checked(parsed: Result<TemplateView, Seq<char>>) -> Result<TemplateView, Seq<char>> {
    match parsed {
        Err(e) => Err(e),
        Ok(t) => match template_check(t) {
            Ok(()) => Ok(t),
            Err(e) => Err(e),
        },
    }
}

/// Validates a parsed template (the parse result itself comes from the JSON
/// reader).
pub fn validate_parsed_template(parsed: &Result<Template, String>) -> (r: Result<Template, String>)
    ensures
        template_result_view(r) == checked(template_result_view(*parsed)),
{
    match parsed {
        Err(e) => Err(e.clone()),
        Ok(t) => match t.validate() {
            Ok(()) => Ok(t.clone()),
            Err(e) => Err(e),
        },
    }
}

/// Characters allowed in a template id.
pub open spec fn id_char_ok(c: char) -> bool {
    ||| ('a' <= c && c <= 'z')
    ||| ('A' <= c && c <= 'Z')
    ||| ('0' <= c && c <= '9')
    ||| c == '_'
    ||| c == '-'
}

/// Template id check: non-empty and only `[a-zA-Z0-9_-]`, so an id can
/// never leave the templates directory.
pub open spec fn template_id_check(id: Seq<char>) -> Result<(), Seq<char>> {
    if id.len() == 0 {
        Err("Template ID cannot be empty"@)
    } else if exists|i: int| 0 <= i < id.len() && !id_char_ok(#[trigger] id[i]) {
        Err("Invalid template ID '"@ + id + "'. Use only letters, digits, '_' and '-'"@)
    } else {
        Ok(())
    }
}

/// Validate a template identifier for use as a file name (see
/// `template_id_check`).
pub fn validate_template_id(template_id: &str) -> (r: Result<(), String>)
    ensures
        unit_view(r) == template_id_check(template_id@),
{
    let cs = chars_of(template_id);
    if cs.len() == 0 {
        return Err(String::from_str("Template ID cannot be empty"));
    }
    let mut i: usize = 0;
    while i < cs.len()
        invariant
            i <= cs.len(),
            cs@ == template_id@,
            forall|k: int| 0 <= k < i ==> id_char_ok(#[trigger] template_id@[k]),
        decreases cs.len() - i,
    {
        let c = cs[i];
        let ok = ('a' <= c && c <= 'z') || ('A' <= c && c <= 'Z') || ('0' <= c && c <= '9') || c
            == '_' || c == '-';
        if !ok {
            assert(!id_char_ok(template_id@[i as int]));
            let mut msg = String::from_str("Invalid template ID '");
            msg.append(template_id);
            msg.append("'. Use only letters, digits, '_' and '-'");
            return Err(msg);
        }
        i += 1;
    }
    Ok(())
}

// ---------------------------------------------------------------------------
// JSON rendering
// ---------------------------------------------------------------------------

/// The lower-case hexadecimal digit for `d < 16`.
pub open spec fn hex_digit(d: nat) -> char {
    if d < 10 {
        (d + 48) as char
    } else {
        (d + 87) as char
    }
}

/// How one character is written inside a JSON string literal: quote and
/// backslash escaped, the usual short escapes, other control characters as
/// `\u00XX`, everything else as is.
pub open spec fn json_char(c: char) -> Seq<char> {
    let u = c as u32;
    if c == '"' {
        seq!['\\', '"']
    } else if c == '\\' {
        seq!['\\', '\\']
    } else if c == '\n' {
        seq!['\\', 'n']
    } else if c == '\r' {
        seq!['\\', 'r']
    } else if c == '\t' {
        seq!['\\', 't']
    } else if u == 8 {
        seq!['\\', 'b']
    } else if u == 12 {
        seq!['\\', 'f']
    } else if u < 0x20 {
        seq!['\\', 'u', '0', '0', hex_digit((u / 16) as nat), hex_digit((u % 16) as nat)]
    } else {
        seq![c]
    }
}

/// The characters of `s` escaped for a JSON string literal.
pub open spec fn json_escape(s: Seq<char>) -> Seq<char>
    decreases s.len(),
{
    if s.len() == 0 {
        seq![]
    } else {
        json_escape(s.drop_last()) + json_char(s.last())
    }
}

/// `s` as a JSON string literal.
pub open spec fn json_string(s: Seq<char>) -> Seq<char> {
    "\""@ + json_escape(s) + "\""@
}

fn push_hex_digit(out: &mut String, d: u32)
    requires
        d < 16,
    ensures
        final(out)@ == old(out)@.push(hex_digit(d as nat)),
{
    let b: u8 = d as u8;
    if b < 10 {
        push_char(out, (48u8 + b) as char);
    } else {
        push_char(out, (87u8 + b) as char);
    }
}

/// Appends `s` as a JSON string literal.
fn push_json_string(out: &mut String, s: &str)
    ensures
        final(out)@ == old(out)@ + json_string(s@),
{
    out.append("\"");
    let cs = chars_of(s);
    let ghost start = out@;
    let mut i: usize = 0;
    while i < cs.len()
        invariant
            i <= cs.len(),
            cs@ == s@,
            start == old(out)@ + "\""@,
            out@ == start + json_escape(s@.take(i as int)),
        decreases cs.len() - i,
    {
        let c = cs[i];
        let u: u32 = c as u32;
        let ghost before = out@;
        proof {
            assert(s@.take(i + 1).drop_last() =~= s@.take(i as int));
            assert(s@.take(i + 1).last() == c);
        }
        if c == '"' {
            out.append("\\\"");
        } else if c == '\\' {
            out.append("\\\\");
        } else if c == '\n' {
            out.append("\\n");
        } else if c == '\r' {
            out.append("\\r");
        } else if c == '\t' {
            out.append("\\t");
        } else if u == 8 {
            out.append("\\b");
        } else if u == 12 {
            out.append("\\f");
        } else if 32 > u {
            out.append("\\u00");
            push_hex_digit(out, u / 16);
            push_hex_digit(out, u % 16);
        } else {
            push_char(out, c);
        }
        proof {
            reveal_strlit("\\\"");
            reveal_strlit("\\\\");
            reveal_strlit("\\n");
            reveal_strlit("\\r");
            reveal_strlit("\\t");
            reveal_strlit("\\b");
            reveal_strlit("\\f");
            reveal_strlit("\\u00");
            assert(out@ =~= before + json_char(c));
        }
        i += 1;
    }
    assert(s@.take(cs.len() as int) =~= s@);
    out.append("\"");
}

/// One section rendered as a JSON object at nesting depth two.
pub open spec fn section_json(s: SectionView) -> Seq<char> {
    "    {\n      \"title\": "@ + json_string(s.title) + ",\n      \"instruction\": "@ + json_string(
        s.instruction,
    ) + ",\n      \"format\": "@ + json_string(s.format) + "\n    }"@
}

/// The sections, each rendered, separated by ",\n".
pub open spec fn sections_json(ss: Seq<SectionView>) -> Seq<char> {
    seq_join(ss.map_values(|s: SectionView| section_json(s)), ",\n"@)
}

/// A template rendered as pretty-printed JSON (two-space indentation): the
/// text in which the built-in templates are served.
pub open spec fn template_json(t: TemplateView) -> Seq<char> {
    "{\n  \"name\": "@ + json_string(t.name) + ",\n  \"description\": "@ + json_string(t.description)
        + ",\n  \"sections\": "@ + (if t.sections.len() == 0 {
        "[]"@
    } else {
        "[\n"@ + sections_json(t.sections) + "\n  ]"@
    }) + "\n}"@
}

impl Template {
    /// The template as pretty-printed JSON (see `template_json`).
    pub fn to_json(&self) -> (r: String)
        ensures
            r@ == template_json(self@),
    {
        let mut out = String::from_str("{\n  \"name\": ");
        push_json_string(&mut out, self.name.as_str());
        out.append(",\n  \"description\": ");
        push_json_string(&mut out, self.description.as_str());
        out.append(",\n  \"sections\": ");
        if self.sections.len() == 0 {
            out.append("[]");
        } else {
            out.append("[\n");
            let ghost ss = section_views(self.sections@);
            let ghost rendered = ss.map_values(|s: SectionView| section_json(s));
            let ghost start = out@;
            let mut i: usize = 0;
            while i < self.sections.len()
                invariant
                    i <= self.sections.len(),
                    ss == section_views(self.sections@),
                    rendered == ss.map_values(|s: SectionView| section_json(s)),
                    out@ == start + seq_join(rendered.take(i as int), ",\n"@),
                decreases self.sections.len() - i,
            {
                let sec = &self.sections[i];
                let ghost before = out@;
                proof {
                    assert(rendered.take(i + 1).drop_last() =~= rendered.take(i as int));
                    assert(rendered.take(i + 1).last() == section_json(sec@));
                }
                if i > 0 {
                    out.append(",\n");
                } else {
                    assert(seq_join(rendered.take(0), ",\n"@) =~= seq![]);
                }
                let ghost mid = out@;
                out.append("    {\n      \"title\": ");
                push_json_string(&mut out, sec.title.as_str());
                out.append(",\n      \"instruction\": ");
                push_json_string(&mut out, sec.instruction.as_str());
                out.append(",\n      \"format\": ");
                push_json_string(&mut out, sec.format.as_str());
                out.append("\n    }");
                assert(out@ =~= mid + section_json(sec@));
                i += 1;
            }
            assert(rendered.take(self.sections.len() as int) =~= rendered);
            out.append("\n  ]");
        }
        out.append("\n}");
        out
    }
}

// ---------------------------------------------------------------------------
// Built-in templates
// ---------------------------------------------------------------------------

pub open spec fn section_of(title: Seq<char>, instruction: Seq<char>, format: Seq<char>) -> SectionView {
    SectionView { title, instruction, format }
}

/// The ids of the built-in templates, in their listing order.
pub open spec fn builtin_ids() -> Seq<Seq<char>> {
    seq!["daily_standup"@, "standard_meeting"@]
}

/// The built-in template with the given id.
pub open spec fn builtin_template(id: Seq<char>) -> Option<TemplateView> {
    if id == "daily_standup"@ {
        Some(
            TemplateView {
                name: "Daily Standup"@,
                description: "Summarize a daily standup: progress, plans and blockers"@,
                sections: seq![
                    section_of("Yesterday"@, "What each participant completed since the last standup"@, "list"@),
                    section_of("Today"@, "What each participant plans to work on next"@, "list"@),
                    section_of("Blockers"@, "Impediments raised and who will help resolve them"@, "list"@),
                ],
            },
        )
    } else if id == "standard_meeting"@ {
        Some(
            TemplateView {
                name: "Standard Meeting"@,
                description: "A general-purpose summary for most meetings"@,
                sections: seq![
                    section_of("Summary"@, "A short overview of the meeting's purpose and outcome"@, "paragraph"@),
                    section_of("Key Points"@, "The main topics and points that were discussed"@, "list"@),
                    section_of("Decisions"@, "Decisions that were made"@, "list"@),
                    section_of("Action Items"@, "Tasks agreed on, with owners and due dates where mentioned"@, "list"@),
                ],
            },
        )
    } else {
        None
    }
}

fn make_section(title: &str, instruction: &str, format: &str) -> (r: TemplateSection)
    ensures
        r@ == section_of(title@, instruction@, format@),
{
    TemplateSection {
        title: String::from_str(title),
        instruction: String::from_str(instruction),
        format: String::from_str(format),
    }
}

pub open spec fn opt_template_view(o: Option<Template>) -> Option<TemplateView> {
    match o {
        Some(t) => Some(t@),
        None => None,
    }
}

/// The built-in template with the given id.
pub fn builtin_template_value(id: &str) -> (r: Option<Template>)
    ensures
        opt_template_view(r) == builtin_template(id@),
{
    if str_eq(id, "daily_standup") {
        let mut sections: Vec<TemplateSection> = Vec::new();
        sections.push(make_section("Yesterday", "What each participant completed since the last standup", "list"));
        sections.push(make_section("Today", "What each participant plans to work on next", "list"));
        sections.push(make_section("Blockers", "Impediments raised and who will help resolve them", "list"));
        let t = Template {
            name: String::from_str("Daily Standup"),
            description: String::from_str("Summarize a daily standup: progress, plans and blockers"),
            sections,
        };
        assert(t@.sections =~= builtin_template(id@)->0.sections);
        Some(t)
    } else if str_eq(id, "standard_meeting") {
        let mut sections: Vec<TemplateSection> = Vec::new();
        sections.push(make_section("Summary", "A short overview of the meeting's purpose and outcome", "paragraph"));
        sections.push(make_section("Key Points", "The main topics and points that were discussed", "list"));
        sections.push(make_section("Decisions", "Decisions that were made", "list"));
        sections.push(make_section("Action Items", "Tasks agreed on, with owners and due dates where mentioned", "list"));
        let t = Template {
            name: String::from_str("Standard Meeting"),
            description: String::from_str("A general-purpose summary for most meetings"),
            sections,
        };
        assert(t@.sections =~= builtin_template(id@)->0.sections);
        Some(t)
    } else {
        None
    }
}

/// The JSON text of the built-in template with the given id.
pub fn get_builtin_template(id: &str) -> (r: Option<String>)
    ensures
        match builtin_template(id@) {
            Some(t) => r matches Some(s) && s@ == template_json(t),
            None => r is None,
        },
{
    match builtin_template_value(id) {
        Some(t) => Some(t.to_json()),
        None => None,
    }
}

/// The ids of the built-in templates.
pub fn list_builtin_template_ids() -> (r: Vec<String>)
    ensures
        string_views(r@) == builtin_ids(),
{
    let mut ids: Vec<String> = Vec::new();
    ids.push(String::from_str("daily_standup"));
    ids.push(String::from_str("standard_meeting"));
    assert(string_views(ids@) =~= builtin_ids());
    ids
}

// ---------------------------------------------------------------------------
// Template directories
// ---------------------------------------------------------------------------

/// A template file of a templates directory: its path relative to the
/// directory (for a file directly in it, its file name), raw content, and
/// the result of parsing the content as a template.
#[derive(Debug)]
pub struct TemplateFile {
    pub file_name: String,
    pub content: String,
    pub parsed: Result<Template, String>,
}

/// The template directories as seen at one moment: the bundled directory
/// (when it has been set) and the user's custom directory (when the data
/// directory could be resolved), each with the files a lookup reads: its
/// `.json` files, and, for a lookup of an id whose `template_file_name`
/// lies elsewhere, that file when it exists.
#[derive(Debug)]
pub struct TemplateCatalog {
    pub bundled_dir: Option<String>,
    pub bundled: Vec<TemplateFile>,
    pub custom_dir: Option<String>,
    pub custom: Vec<TemplateFile>,
}

pub struct FileView {
    pub name: Seq<char>,
    pub content: Seq<char>,
    pub parsed: Result<TemplateView, Seq<char>>,
}

impl View for TemplateFile {
    type V = FileView;

    open spec fn view(&self) -> FileView {
        FileView {
            name: self.file_name@,
            content: self.content@,
            parsed: template_result_view(self.parsed),
        }
    }
}

pub open spec fn file_views(v: Seq<TemplateFile>) -> Seq<FileView> {
    v.map_values(|f: TemplateFile| f@)
}

pub open spec fn opt_str_view(o: Option<String>) -> Option<Seq<char>> {
    match o {
        Some(s) => Some(s@),
        None => None,
    }
}

pub struct CatalogView {
    pub bundled_dir: Option<Seq<char>>,
    pub bundled: Seq<FileView>,
    pub custom_dir: Option<Seq<char>>,
    pub custom: Seq<FileView>,
}

impl View for TemplateCatalog {
    type V = CatalogView;

    open spec fn view(&self) -> CatalogView {
        CatalogView {
            bundled_dir: opt_str_view(self.bundled_dir),
            bundled: file_views(self.bundled@),
            custom_dir: opt_str_view(self.custom_dir),
            custom: file_views(self.custom@),
        }
    }
}

/// The file name of a template id.
pub open spec fn file_name_of(id: Seq<char>) -> Seq<char> {
    id + ".json"@
}

/// `j` is the first file with the given name.
pub open spec fn is_first_named(files: Seq<FileView>, name: Seq<char>, j: int) -> bool {
    &&& 0 <= j < files.len()
    &&& files[j].name == name
    &&& forall|k: int| 0 <= k < j ==> (#[trigger] files[k]).name != name
}

/// The first file with the given name.
pub open spec fn find_file(files: Seq<FileView>, name: Seq<char>) -> Option<FileView> {
    if exists|j: int| is_first_named(files, name, j) {
        Some(files[choose|j: int| is_first_named(files, name, j)])
    } else {
        None
    }
}

/// The user's custom version of a template.
pub open spec fn custom_file(cat: CatalogView, id: Seq<char>) -> Option<FileView> {
    if cat.custom_dir is Some {
        find_file(cat.custom, file_name_of(id))
    } else {
        None
    }
}

/// The bundled version of a template.
pub open spec fn bundled_file(cat: CatalogView, id: Seq<char>) -> Option<FileView> {
    if cat.bundled_dir is Some {
        find_file(cat.bundled, file_name_of(id))
    } else {
        None
    }
}

/// The ids of the `.json` files of a directory, in file order.
pub open spec fn dir_ids(files: Seq<FileView>) -> Seq<Seq<char>>
    decreases files.len(),
{
    if files.len() == 0 {
        seq![]
    } else {
        let prev = dir_ids(files.drop_last());
        let n = files.last().name;
        if has_suffix(n, ".json"@) {
            prev.push(trim_end_matches(n, ".json"@))
        } else {
            prev
        }
    }
}

/// Every id that can be listed: built-in, bundled (when the directory is
/// set), custom (when the data directory is known).
pub open spec fn candidate_ids(cat: CatalogView) -> Seq<Seq<char>> {
    builtin_ids() + (if cat.bundled_dir is Some {
        dir_ids(cat.bundled)
    } else {
        seq![]
    }) + (if cat.custom_dir is Some {
        dir_ids(cat.custom)
    } else {
        seq![]
    })
}

/// `x` inserted in front of the first element not less than it, unless it
/// is already there.
pub open spec fn insert_sorted(s: Seq<Seq<char>>, x: Seq<char>) -> Seq<Seq<char>>
    decreases s.len(),
{
    if s.len() == 0 {
        seq![x]
    } else if s[0] == x {
        s
    } else if seq_less(x, s[0]) {
        seq![x] + s
    } else {
        seq![s[0]] + insert_sorted(s.drop_first(), x)
    }
}

/// The elements of `xs`, sorted, each once.
pub open spec fn sorted_unique(xs: Seq<Seq<char>>) -> Seq<Seq<char>>
    decreases xs.len(),
{
    if xs.len() == 0 {
        seq![]
    } else {
        insert_sorted(sorted_unique(xs.drop_last()), xs.last())
    }
}

/// The listed template ids: all candidates, sorted, each once.
pub open spec fn template_ids(cat: CatalogView) -> Seq<Seq<char>> {
    sorted_unique(candidate_ids(cat))
}

pub open spec fn not_found_message(cat: CatalogView, id: Seq<char>) -> Seq<char> {
    "Template '"@ + id + "' not found. Available templates: "@ + seq_join(template_ids(cat), ", "@)
}

/// Loading a template: the custom version, else the bundled one, else the
/// built-in one, validated; an error listing the available ids when none
/// exists.
pub open spec fn template_lookup(cat: CatalogView, id: Seq<char>) -> Result<TemplateView, Seq<char>> {
    match custom_file(cat, id) {
        Some(f) => checked(f.parsed),
        None => match bundled_file(cat, id) {
            Some(f) => checked(f.parsed),
            None => match builtin_template(id) {
                Some(t) => checked(Ok(t)),
                None => Err(not_found_message(cat, id)),
            },
        },
    }
}

/// The raw content of a template and where it comes from, with the same
/// precedence as `template_lookup`, after checking the id.
pub open spec fn raw_lookup(cat: CatalogView, id: Seq<char>) -> Result<(Seq<char>, Seq<char>), Seq<char>> {
    match template_id_check(id) {
        Err(e) => Err(e),
        Ok(()) => match custom_file(cat, id) {
            Some(f) => Ok((f.content, "custom"@)),
            None => match bundled_file(cat, id) {
                Some(f) => Ok((f.content, "bundled"@)),
                None => match builtin_template(id) {
                    Some(t) => Ok((template_json(t), "builtin"@)),
                    None => Err(not_found_message(cat, id)),
                },
            },
        },
    }
}

/// A bundled or built-in version of the template exists.
pub open spec fn has_default(cat: CatalogView, id: Seq<char>) -> bool {
    builtin_template(id) is Some || bundled_file(cat, id) is Some
}

// ---------------------------------------------------------------------------
// Lemmas on sorting
// ---------------------------------------------------------------------------

/// Strictly increasing.
pub open spec fn strictly_sorted(s: Seq<Seq<char>>) -> bool {
    forall|i: int, j: int| 0 <= i < j < s.len() ==> seq_less(#[trigger] s[i], #[trigger] s[j])
}

proof fn lemma_insert_sorted(s: Seq<Seq<char>>, x: Seq<char>)
    requires
        strictly_sorted(s),
    ensures
        strictly_sorted(insert_sorted(s, x)),
        insert_sorted(s, x).to_set() == s.to_set().insert(x),
    decreases s.len(),
{
    let r = insert_sorted(s, x);
    if s.len() == 0 {
        assert(r.to_set() =~= s.to_set().insert(x)) by {
            assert forall|y| r.to_set().contains(y) <==> s.to_set().insert(x).contains(y) by {
                if r.to_set().contains(y) {
                    assert(r[0] == y);
                }
                if y == x {
                    assert(r[0] == x);
                }
            }
        }
    } else if s[0] == x {
        assert(s.contains(x));
        assert(r.to_set() =~= s.to_set().insert(x));
    } else if seq_less(x, s[0]) {
        assert forall|i: int, j: int| 0 <= i < j < r.len() implies seq_less(#[trigger] r[i], #[trigger] r[j]) by {
            if i == 0 {
                assert(r[j] == s[j - 1]);
                if j - 1 > 0 {
                    lemma_seq_less_transitive(x, s[0], s[j - 1]);
                }
            } else {
                assert(r[i] == s[i - 1] && r[j] == s[j - 1]);
            }
        }
        assert forall|y| r.to_set().contains(y) <==> s.to_set().insert(x).contains(y) by {
            if r.to_set().contains(y) {
                let k = choose|k: int| 0 <= k < r.len() && r[k] == y;
                if k > 0 {
                    assert(s[k - 1] == y);
                }
            }
            if s.to_set().contains(y) {
                let k = choose|k: int| 0 <= k < s.len() && s[k] == y;
                assert(r[k + 1] == y);
            }
            if y == x {
                assert(r[0] == x);
            }
        }
        assert(r.to_set() =~= s.to_set().insert(x));
    } else {
        let t = s.drop_first();
        assert(strictly_sorted(t)) by {
            assert forall|i: int, j: int| 0 <= i < j < t.len() implies seq_less(#[trigger] t[i], #[trigger] t[j]) by {
                assert(t[i] == s[i + 1] && t[j] == s[j + 1]);
            }
        }
        lemma_insert_sorted(t, x);
        let rt = insert_sorted(t, x);
        lemma_seq_less_total(x, s[0]);
        assert(seq_less(s[0], x));
        assert forall|i: int, j: int| 0 <= i < j < r.len() implies seq_less(#[trigger] r[i], #[trigger] r[j]) by {
            if i == 0 {
                assert(r[j] == rt[j - 1]);
                assert(rt.to_set().contains(rt[j - 1]));
                assert(t.to_set().insert(x).contains(rt[j - 1]));
                if rt[j - 1] != x {
                    let k = choose|k: int| 0 <= k < t.len() && t[k] == rt[j - 1];
                    assert(s[k + 1] == t[k]);
                }
            } else {
                assert(r[i] == rt[i - 1] && r[j] == rt[j - 1]);
            }
        }
        assert forall|y| r.to_set().contains(y) <==> s.to_set().insert(x).contains(y) by {
            if r.to_set().contains(y) {
                let k = choose|k: int| 0 <= k < r.len() && r[k] == y;
                if k > 0 {
                    assert(rt[k - 1] == y);
                    assert(rt.to_set().contains(y));
                    if y != x {
                        let m = choose|m: int| 0 <= m < t.len() && t[m] == y;
                        assert(s[m + 1] == y);
                    }
                } else {
                    assert(s[0] == y);
                }
            }
            if s.to_set().contains(y) {
                let k = choose|k: int| 0 <= k < s.len() && s[k] == y;
                if k == 0 {
                    assert(r[0] == y);
                } else {
                    assert(t[k - 1] == y);
                    assert(t.to_set().insert(x).contains(y));
                    assert(rt.to_set().contains(y));
                    let m = choose|m: int| 0 <= m < rt.len() && rt[m] == y;
                    assert(r[m + 1] == y);
                }
            }
            if y == x {
                assert(t.to_set().insert(x).contains(x));
                assert(rt.to_set().contains(x));
                let m = choose|m: int| 0 <= m < rt.len() && rt[m] == x;
                assert(r[m + 1] == x);
            }
        }
        assert(r.to_set() =~= s.to_set().insert(x));
    }
}

proof fn lemma_sorted_unique(xs: Seq<Seq<char>>)
    ensures
        strictly_sorted(sorted_unique(xs)),
        sorted_unique(xs).to_set() == xs.to_set(),
    decreases xs.len(),
{
    if xs.len() == 0 {
        assert(sorted_unique(xs).to_set() =~= xs.to_set());
    } else {
        lemma_sorted_unique(xs.drop_last());
        lemma_insert_sorted(sorted_unique(xs.drop_last()), xs.last());
        assert(xs =~= xs.drop_last().push(xs.last()));
        assert(xs.to_set() =~= xs.drop_last().to_set().insert(xs.last())) by {
            assert forall|y| xs.to_set().contains(y) <==> xs.drop_last().to_set().insert(xs.last()).contains(y) by {
                if xs.to_set().contains(y) {
                    let k = choose|k: int| 0 <= k < xs.len() && xs[k] == y;
                    if k < xs.len() - 1 {
                        assert(xs.drop_last()[k] == y);
                    }
                }
                if xs.drop_last().to_set().contains(y) {
                    let k = choose|k: int| 0 <= k < xs.drop_last().len() && xs.drop_last()[k] == y;
                    assert(xs[k] == y);
                }
            }
        }
    }
}

// ---------------------------------------------------------------------------
// Executable lookups
// ---------------------------------------------------------------------------

/// The file a template id names in a templates directory: `<id>.json`, a
/// path relative to the directory (an id holding `/` or `..` names a file
/// elsewhere, which is what a lookup of it reads).
pub fn template_file_name(id: &str) -> (r: String)
    ensures
        r@ == file_name_of(id@),
{
    let mut n = String::from_str(id);
    n.append(".json");
    n
}

/// Index of the first file with the given name.
fn find_file_index(files: &Vec<TemplateFile>, name: &str) -> (r: Option<usize>)
    ensures
        r matches Some(j) ==> is_first_named(file_views(files@), name@, j as int),
        r is None ==> forall|j: int| !is_first_named(file_views(files@), name@, j),
        match find_file(file_views(files@), name@) {
            Some(f) => r matches Some(j) && j < files.len() && files@[j as int]@ == f,
            None => r is None,
        },
{
    let ghost fs = file_views(files@);
    let mut j: usize = 0;
    while j < files.len()
        invariant
            j <= files.len(),
            fs == file_views(files@),
            forall|k: int| 0 <= k < j ==> (#[trigger] fs[k]).name != name@,
        decreases files.len() - j,
    {
        if str_eq(files[j].file_name.as_str(), name) {
            assert(is_first_named(fs, name@, j as int));
            assert forall|j2: int| is_first_named(fs, name@, j2) implies j2 == j as int by {
                if j2 < j {
                    assert(fs[j2].name != name@);
                }
                if j2 > j {
                    assert(fs[j as int].name != name@);
                }
            }
            return Some(j);
        }
        j += 1;
    }
    assert forall|j2: int| !is_first_named(fs, name@, j2) by {
        if 0 <= j2 < fs.len() && fs[j2].name == name@ {
            assert(fs[j2].name != name@);
        }
    }
    None
}

impl TemplateCatalog {
    /// No bundled directory set, no custom directory known.
    pub fn new() -> (r: Self)
        ensures
            r@.bundled_dir is None,
            r@.custom_dir is None,
            r@.bundled.len() == 0,
            r@.custom.len() == 0,
    {
        TemplateCatalog { bundled_dir: None, bundled: Vec::new(), custom_dir: None, custom: Vec::new() }
    }

    fn custom_index(&self, id: &str) -> (r: Option<usize>)
        ensures
            match custom_file(self@, id@) {
                Some(f) => r matches Some(j) && j < self.custom.len() && self.custom@[j as int]@ == f,
                None => r is None,
            },
    {
        if self.custom_dir.is_none() {
            return None;
        }
        let name = template_file_name(id);
        find_file_index(&self.custom, name.as_str())
    }

    fn bundled_index(&self, id: &str) -> (r: Option<usize>)
        ensures
            match bundled_file(self@, id@) {
                Some(f) => r matches Some(j) && j < self.bundled.len() && self.bundled@[j as int]@ == f,
                None => r is None,
            },
    {
        if self.bundled_dir.is_none() {
            return None;
        }
        let name = template_file_name(id);
        find_file_index(&self.bundled, name.as_str())
    }
}

proof fn lemma_insert_sorted_at(s: Seq<Seq<char>>, x: Seq<char>, p: int)
    requires
        0 <= p <= s.len(),
        forall|k: int| 0 <= k < p ==> seq_less(#[trigger] s[k], x),
        p < s.len() ==> !seq_less(s[p], x),
    ensures
        insert_sorted(s, x) == if p < s.len() && s[p] == x {
            s
        } else {
            s.insert(p, x)
        },
    decreases s.len(),
{
    if s.len() == 0 {
        assert(s.insert(0, x) =~= seq![x]);
    } else if p == 0 {
        lemma_seq_less_total(s[0], x);
        if s[0] != x {
            assert(seq_less(x, s[0]));
            assert(s.insert(0, x) =~= seq![x] + s);
        }
    } else {
        lemma_seq_less_irreflexive(x);
        lemma_seq_less_total(s[0], x);
        assert(seq_less(s[0], x));
        assert(s[0] != x);
        assert(!seq_less(x, s[0]));
        let t = s.drop_first();
        assert forall|k: int| 0 <= k < p - 1 implies seq_less(#[trigger] t[k], x) by {
            assert(t[k] == s[k + 1]);
        }
        lemma_insert_sorted_at(t, x, p - 1);
        if p < s.len() && s[p] == x {
            assert(t[p - 1] == x);
            assert(seq![s[0]] + t =~= s);
        } else {
            assert(seq![s[0]] + t.insert(p - 1, x) =~= s.insert(p, x));
        }
    }
}

/// Inserts `x` into the sorted list unless it is already there.
fn insert_id(v: &mut Vec<String>, x: String)
    ensures
        string_views(final(v)@) == insert_sorted(string_views(old(v)@), x@),
{
    let ghost sv = string_views(v@);
    let mut p: usize = 0;
    while p < v.len() && str_less(v[p].as_str(), x.as_str())
        invariant
            p <= v.len(),
            sv == string_views(v@),
            sv == string_views(old(v)@),
            forall|k: int| 0 <= k < p ==> seq_less(#[trigger] sv[k], x@),
        decreases v.len() - p,
    {
        p += 1;
    }
    proof {
        lemma_insert_sorted_at(sv, x@, p as int);
    }
    if p < v.len() && str_eq(v[p].as_str(), x.as_str()) {
        return;
    }
    let ghost xv = x@;
    v.insert(p, x);
    assert(string_views(v@) =~= sv.insert(p as int, xv));
}

/// Whether the first `n` characters end with ".json".
fn ends_with_json(cs: &Vec<char>, n: usize) -> (r: bool)
    requires
        n <= cs.len(),
    ensures
        r == has_suffix(cs@.subrange(0, n as int), ".json"@),
{
    proof {
        reveal_strlit(".json");
    }
    let ghost cur = cs@.subrange(0, n as int);
    if n < 5 {
        return false;
    }
    let r = cs[n - 5] == '.' && cs[n - 4] == 'j' && cs[n - 3] == 's' && cs[n - 2] == 'o' && cs[n
        - 1] == 'n';
    proof {
        let tail = cur.subrange(cur.len() - 5, cur.len() as int);
        assert(tail[0] == cs@[n - 5]);
        assert(tail[1] == cs@[n - 4]);
        assert(tail[2] == cs@[n - 3]);
        assert(tail[3] == cs@[n - 2]);
        assert(tail[4] == cs@[n - 1]);
        if r {
            assert(tail =~= ".json"@);
        }
    }
    r
}

/// The id of a template file name: `None` unless it ends with ".json",
/// else the name with every trailing ".json" removed.
fn json_file_id(name: &str) -> (r: Option<String>)
    ensures
        match r {
            Some(id) => has_suffix(name@, ".json"@) && id@ == trim_end_matches(name@, ".json"@),
            None => !has_suffix(name@, ".json"@),
        },
{
    proof {
        reveal_strlit(".json");
    }
    let cs = chars_of(name);
    assert(name@.subrange(0, cs.len() as int) =~= name@);
    if !ends_with_json(&cs, cs.len()) {
        return None;
    }
    let mut n: usize = cs.len() - 5;
    assert(name@.subrange(0, n as int) =~= name@.subrange(0, name@.len() - 5));
    while ends_with_json(&cs, n)
        invariant
            n <= cs.len(),
            cs@ == name@,
            trim_end_matches(name@, ".json"@) == trim_end_matches(name@.subrange(0, n as int), ".json"@),
            ".json"@.len() == 5,
        decreases n,
    {
        assert(name@.subrange(0, n as int).subrange(0, n - 5) =~= name@.subrange(0, n - 5));
        assert(trim_end_matches(name@.subrange(0, n as int), ".json"@) == trim_end_matches(
            name@.subrange(0, n - 5),
            ".json"@,
        ));
        n = n - 5;
    }
    let mut out = String::new();
    let mut i: usize = 0;
    while i < n
        invariant
            i <= n,
            n <= cs.len(),
            cs@ == name@,
            out@ == name@.subrange(0, i as int),
        decreases n - i,
    {
        push_char(&mut out, cs[i]);
        assert(name@.subrange(0, i + 1) =~= name@.subrange(0, i as int).push(cs@[i as int]));
        i += 1;
    }
    Some(out)
}

/// The ids of the `.json` files of a directory.
fn dir_id_list(files: &Vec<TemplateFile>) -> (r: Vec<String>)
    ensures
        string_views(r@) == dir_ids(file_views(files@)),
{
    let ghost fs = file_views(files@);
    let mut ids: Vec<String> = Vec::new();
    let mut i: usize = 0;
    while i < files.len()
        invariant
            i <= files.len(),
            fs == file_views(files@),
            string_views(ids@) == dir_ids(fs.take(i as int)),
        decreases files.len() - i,
    {
        proof {
            assert(fs.take(i + 1).drop_last() =~= fs.take(i as int));
            assert(fs.take(i + 1).last() == fs[i as int]);
        }
        match json_file_id(files[i].file_name.as_str()) {
            Some(id) => {
                let ghost before = ids@;
                ids.push(id);
                assert(string_views(ids@) =~= string_views(before).push(id@));
            },
            None => {},
        }
        i += 1;
    }
    assert(fs.take(files.len() as int) =~= fs);
    ids
}

/// Set the bundled templates directory (done once at startup), with the
/// template files it holds.
pub fn set_bundled_templates_dir(catalog: &mut TemplateCatalog, path: String, files: Vec<TemplateFile>)
    ensures
        final(catalog)@ == (CatalogView {
            bundled_dir: Some(path@),
            bundled: file_views(files@),
            ..old(catalog)@
        }),
{
    catalog.bundled_dir = Some(path);
    catalog.bundled = files;
}

/// List all available template identifiers: built-in, bundled and custom
/// ids, sorted, each once.
pub fn list_template_ids(catalog: &TemplateCatalog) -> (r: Vec<String>)
    ensures
        string_views(r@) == template_ids(catalog@),
{
    let mut candidates = list_builtin_template_ids();
    if catalog.bundled_dir.is_some() {
        let mut more = dir_id_list(&catalog.bundled);
        let ghost a = string_views(candidates@);
        let ghost b = string_views(more@);
        candidates.append(&mut more);
        assert(string_views(candidates@) =~= a + b);
    }
    if catalog.custom_dir.is_some() {
        let mut more = dir_id_list(&catalog.custom);
        let ghost a = string_views(candidates@);
        let ghost b = string_views(more@);
        candidates.append(&mut more);
        assert(string_views(candidates@) =~= a + b);
    }
    let ghost cs = string_views(candidates@);
    assert(cs =~= candidate_ids(catalog@));
    let mut sorted: Vec<String> = Vec::new();
    let mut i: usize = 0;
    while i < candidates.len()
        invariant
            i <= candidates.len(),
            cs == string_views(candidates@),
            string_views(sorted@) == sorted_unique(cs.take(i as int)),
        decreases candidates.len() - i,
    {
        proof {
            assert(cs.take(i + 1).drop_last() =~= cs.take(i as int));
            assert(cs.take(i + 1).last() == cs[i as int]);
        }
        let x = candidates[i].clone();
        insert_id(&mut sorted, x);
        i += 1;
    }
    assert(cs.take(candidates.len() as int) =~= cs);
    sorted
}

fn not_found(catalog: &TemplateCatalog, template_id: &str) -> (r: String)
    ensures
        r@ == not_found_message(catalog@, template_id@),
{
    let mut msg = String::from_str("Template '");
    msg.append(template_id);
    msg.append("' not found. Available templates: ");
    let ids = list_template_ids(catalog);
    let joined = join(&ids, ", ");
    msg.append(joined.as_str());
    msg
}

/// Load and validate a template: the custom version first, then the
/// bundled one, then the built-in one (see `template_lookup`).
pub fn get_template(catalog: &TemplateCatalog, template_id: &str) -> (r: Result<Template, String>)
    ensures
        template_result_view(r) == template_lookup(catalog@, template_id@),
{
    match catalog.custom_index(template_id) {
        Some(j) => validate_parsed_template(&catalog.custom[j].parsed),
        None => match catalog.bundled_index(template_id) {
            Some(j) => validate_parsed_template(&catalog.bundled[j].parsed),
            None => match builtin_template_value(template_id) {
                Some(t) => {
                    let parsed: Result<Template, String> = Ok(t);
                    validate_parsed_template(&parsed)
                },
                None => Err(not_found(catalog, template_id)),
            },
        },
    }
}

pub open spec fn raw_view(r: Result<(String, &'static str), String>) -> Result<(Seq<char>, Seq<char>), Seq<char>> {
    match r {
        Ok((content, source)) => Ok((content@, source@)),
        Err(e) => Err(e@),
    }
}

/// The raw JSON content of a template plus where it came from ("custom",
/// "bundled" or "builtin"), after checking the id (see `raw_lookup`).
pub fn get_template_raw(catalog: &TemplateCatalog, template_id: &str) -> (r: Result<(String, &'static str), String>)
    ensures
        raw_view(r) == raw_lookup(catalog@, template_id@),
{
    match validate_template_id(template_id) {
        Err(e) => {
            return Err(e);
        },
        Ok(()) => {},
    }
    match catalog.custom_index(template_id) {
        Some(j) => Ok((catalog.custom[j].content.clone(), "custom")),
        None => match catalog.bundled_index(template_id) {
            Some(j) => Ok((catalog.bundled[j].content.clone(), "bundled")),
            None => match get_builtin_template(template_id) {
                Some(json) => Ok((json, "builtin")),
                None => Err(not_found(catalog, template_id)),
            },
        },
    }
}

/// Whether a default (bundled or built-in) version of the template exists.
pub fn has_default_template(catalog: &TemplateCatalog, template_id: &str) -> (r: bool)
    ensures
        r == has_default(catalog@, template_id@),
{
    builtin_template_value(template_id).is_some() || catalog.bundled_index(template_id).is_some()
}

/// Whether a custom (user-saved) version of the template exists.
pub fn custom_template_exists(catalog: &TemplateCatalog, template_id: &str) -> (r: bool)
    ensures
        r == (custom_file(catalog@, template_id@) is Some),
{
    catalog.custom_index(template_id).is_some()
}

/// `(id, name, description)` of every listed id whose template loads, in
/// listing order.
pub open spec fn loadable_templates(cat: CatalogView, ids: Seq<Seq<char>>) -> Seq<
    (Seq<char>, Seq<char>, Seq<char>),
>
    decreases ids.len(),
{
    if ids.len() == 0 {
        seq![]
    } else {
        let prev = loadable_templates(cat, ids.drop_last());
        match template_lookup(cat, ids.last()) {
            Ok(t) => prev.push((ids.last(), t.name, t.description)),
            Err(_) => prev,
        }
    }
}

pub open spec fn triple_view(t: (String, String, String)) -> (Seq<char>, Seq<char>, Seq<char>) {
    (t.0@, t.1@, t.2@)
}

/// List all available templates that load, as `(id, name, description)`.
pub fn list_templates(catalog: &TemplateCatalog) -> (r: Vec<(String, String, String)>)
    ensures
        r@.map_values(|t: (String, String, String)| triple_view(t)) == loadable_templates(
            catalog@,
            template_ids(catalog@),
        ),
{
    let ids = list_template_ids(catalog);
    let ghost iv = string_views(ids@);
    let mut out: Vec<(String, String, String)> = Vec::new();
    let mut i: usize = 0;
    while i < ids.len()
        invariant
            i <= ids.len(),
            iv == string_views(ids@),
            iv == template_ids(catalog@),
            out@.map_values(|t: (String, String, String)| triple_view(t)) == loadable_templates(
                catalog@,
                iv.take(i as int),
            ),
        decreases ids.len() - i,
    {
        proof {
            assert(iv.take(i + 1).drop_last() =~= iv.take(i as int));
            assert(iv.take(i + 1).last() == iv[i as int]);
        }
        match get_template(catalog, ids[i].as_str()) {
            Ok(t) => {
                let ghost before = out@;
                let entry = (ids[i].clone(), t.name, t.description);
                out.push(entry);
                assert(out@.map_values(|t: (String, String, String)| triple_view(t)) =~= before.map_values(
                    |t: (String, String, String)| triple_view(t),
                ).push(triple_view(entry)));
            },
            Err(_) => {},
        }
        i += 1;
    }
    assert(iv.take(ids.len() as int) =~= iv);
    out
}

/// Saving a template: the id is checked, then the parsed template; it needs
/// a known custom directory. The result is the template to write.
pub open spec fn save_outcome(cat: CatalogView, id: Seq<char>, parsed: Result<TemplateView, Seq<char>>) -> Result<
    TemplateView,
    Seq<char>,
> {
    match template_id_check(id) {
        Err(e) => Err(e),
        Ok(()) => match checked(parsed) {
            Err(e) => Err(e),
            Ok(t) => if cat.custom_dir is None {
                Err("Could not resolve the user data directory"@)
            } else {
                Ok(t)
            },
        },
    }
}

/// Prepare saving a template to the user's custom templates directory (see
/// `save_outcome`); the caller writes the returned template, serialized, to
/// `<custom dir>/<id>.json`. Saving over a built-in or bundled id creates a
/// custom override.
pub fn save_custom_template(
    catalog: &TemplateCatalog,
    template_id: &str,
    parsed: &Result<Template, String>,
) -> (r: Result<Template, String>)
    ensures
        template_result_view(r) == save_outcome(catalog@, template_id@, template_result_view(*parsed)),
{
    match validate_template_id(template_id) {
        Err(e) => {
            return Err(e);
        },
        Ok(()) => {},
    }
    let template = match validate_parsed_template(parsed) {
        Err(e) => {
            return Err(e);
        },
        Ok(t) => t,
    };
    if catalog.custom_dir.is_none() {
        return Err(String::from_str("Could not resolve the user data directory"));
    }
    Ok(template)
}

/// Deleting a custom template: the id is checked; it needs a known custom
/// directory and an existing custom file, else the error says whether the
/// id is a default template or unknown.
pub open spec fn delete_outcome(cat: CatalogView, id: Seq<char>) -> Result<(), Seq<char>> {
    match template_id_check(id) {
        Err(e) => Err(e),
        Ok(()) => if cat.custom_dir is None {
            Err("Could not resolve the user data directory"@)
        } else if custom_file(cat, id) is None {
            if has_default(cat, id) {
                Err("Template '"@ + id + "' is a default template and cannot be deleted"@)
            } else {
                Err("Template '"@ + id + "' not found"@)
            }
        } else {
            Ok(())
        },
    }
}

/// Decide whether a custom template can be deleted (see `delete_outcome`);
/// the caller then removes `<custom dir>/<id>.json`. Where a bundled or
/// built-in default exists, the template reverts to it.
pub fn delete_custom_template(catalog: &TemplateCatalog, template_id: &str) -> (r: Result<(), String>)
    ensures
        unit_view(r) == delete_outcome(catalog@, template_id@),
{
    match validate_template_id(template_id) {
        Err(e) => {
            return Err(e);
        },
        Ok(()) => {},
    }
    if catalog.custom_dir.is_none() {
        return Err(String::from_str("Could not resolve the user data directory"));
    }
    if catalog.custom_index(template_id).is_none() {
        let mut msg = String::from_str("Template '");
        msg.append(template_id);
        if has_default_template(catalog, template_id) {
            msg.append("' is a default template and cannot be deleted");
        } else {
            msg.append("' not found");
        }
        return Err(msg);
    }
    Ok(())
}

/// The custom files after writing `<id>.json`: the first file of that name
/// is replaced, or the file is added.
pub open spec fn with_custom_file(files: Seq<FileView>, f: FileView) -> Seq<FileView> {
    if exists|j: int| is_first_named(files, f.name, j) {
        files.update(choose|j: int| is_first_named(files, f.name, j), f)
    } else {
        files.push(f)
    }
}

/// The files whose name differs from `name`, in order.
pub open spec fn without_file(files: Seq<FileView>, name: Seq<char>) -> Seq<FileView>
    decreases files.len(),
{
    if files.len() == 0 {
        seq![]
    } else {
        let prev = without_file(files.drop_last(), name);
        if files.last().name == name {
            prev
        } else {
            prev.push(files.last())
        }
    }
}

impl TemplateCatalog {
    /// Record that `<id>.json` now holds `content`, the rendering of
    /// `template`, in the custom directory.
    pub fn record_custom_template(&mut self, template_id: &str, content: String, template: Template)
        ensures
            final(self)@ == (CatalogView {
                custom: with_custom_file(
                    old(self)@.custom,
                    FileView {
                        name: file_name_of(template_id@),
                        content: content@,
                        parsed: Ok(template@),
                    },
                ),
                ..old(self)@
            }),
    {
        let name = template_file_name(template_id);
        let ghost fv = FileView { name: name@, content: content@, parsed: Ok(template@) };
        let f = TemplateFile { file_name: name, content, parsed: Ok(template) };
        assert(f@ == fv);
        let ghost old_custom = file_views(self.custom@);
        match find_file_index(&self.custom, f.file_name.as_str()) {
            Some(j) => {
                proof {
                    assert(is_first_named(old_custom, fv.name, j as int));
                    let k = choose|k: int| is_first_named(old_custom, fv.name, k);
                    if k < j {
                        assert(old_custom[k].name != fv.name);
                    }
                    if k > j {
                        assert(old_custom[j as int].name != fv.name);
                    }
                }
                self.custom.set(j, f);
                assert(file_views(self.custom@) =~= old_custom.update(j as int, fv));
            },
            None => {
                self.custom.push(f);
                assert(file_views(self.custom@) =~= old_custom.push(fv));
            },
        }
    }

    /// Record that `<id>.json` was removed from the custom directory.
    pub fn forget_custom_template(&mut self, template_id: &str)
        ensures
            final(self)@ == (CatalogView {
                custom: without_file(old(self)@.custom, file_name_of(template_id@)),
                ..old(self)@
            }),
    {
        let name = template_file_name(template_id);
        let ghost old_custom = file_views(self.custom@);
        let mut kept: Vec<TemplateFile> = Vec::new();
        let mut files: Vec<TemplateFile> = Vec::new();
        std::mem::swap(&mut files, &mut self.custom);
        let mut i: usize = 0;
        let n = files.len();
        while i < n
            invariant
                i <= n,
                n == files.len(),
                old_custom == file_views(files@),
                file_views(kept@) == without_file(old_custom.take(i as int), name@),
            decreases n - i,
        {
            proof {
                assert(old_custom.take(i + 1).drop_last() =~= old_custom.take(i as int));
                assert(old_custom.take(i + 1).last() == old_custom[i as int]);
            }
            if !str_eq(files[i].file_name.as_str(), name.as_str()) {
                let f = clone_file(&files[i]);
                let ghost before = kept@;
                kept.push(f);
                assert(file_views(kept@) =~= file_views(before).push(old_custom[i as int]));
            }
            i += 1;
        }
        assert(old_custom.take(n as int) =~= old_custom);
        self.custom = kept;
    }
}

fn clone_file(f: &TemplateFile) -> (r: TemplateFile)
    ensures
        r@ == f@,
{
    let parsed = match &f.parsed {
        Ok(t) => Ok(t.clone()),
        Err(e) => Err(e.clone()),
    };
    TemplateFile { file_name: f.file_name.clone(), content: f.content.clone(), parsed }
}

// ---------------------------------------------------------------------------
// Laws
// ---------------------------------------------------------------------------

proof fn lemma_first_named_exists(files: Seq<FileView>, name: Seq<char>, j: int)
    requires
        0 <= j < files.len(),
        files[j].name == name,
    ensures
        exists|f: int| is_first_named(files, name, f),
    decreases j,
{
    if exists|k: int| 0 <= k < j && (#[trigger] files[k]).name == name {
        let k = choose|k: int| 0 <= k < j && (#[trigger] files[k]).name == name;
        lemma_first_named_exists(files, name, k);
    } else {
        assert(is_first_named(files, name, j));
    }
}

proof fn lemma_first_named_unique(files: Seq<FileView>, name: Seq<char>, j: int)
    requires
        is_first_named(files, name, j),
    ensures
        (choose|f: int| is_first_named(files, name, f)) == j,
{
    let f = choose|f: int| is_first_named(files, name, f);
    assert(is_first_named(files, name, f));
    if f < j {
        assert(files[f].name != name);
    }
    if j < f {
        assert(files[j].name != name);
    }
}

/// After writing a file, looking its name up finds that file.
proof fn lemma_find_written_file(files: Seq<FileView>, f: FileView)
    ensures
        find_file(with_custom_file(files, f), f.name) == Some(f),
{
    let after = with_custom_file(files, f);
    if exists|j: int| is_first_named(files, f.name, j) {
        let j = choose|j: int| is_first_named(files, f.name, j);
        assert forall|k: int| 0 <= k < j implies (#[trigger] after[k]).name != f.name by {
            assert(after[k] == files[k]);
        }
        assert(is_first_named(after, f.name, j));
        lemma_first_named_unique(after, f.name, j);
    } else {
        assert forall|k: int| 0 <= k < files.len() implies (#[trigger] after[k]).name != f.name by {
            assert(after[k] == files[k]);
            if files[k].name == f.name {
                lemma_first_named_exists(files, f.name, k);
            }
        }
        assert(is_first_named(after, f.name, files.len() as int));
        lemma_first_named_unique(after, f.name, files.len() as int);
    }
}

proof fn lemma_removed_file_absent(files: Seq<FileView>, name: Seq<char>)
    ensures
        forall|k: int|
            0 <= k < without_file(files, name).len() ==> (#[trigger] without_file(files, name)[k]).name
                != name,
        find_file(without_file(files, name), name) is None,
    decreases files.len(),
{
    if files.len() > 0 {
        lemma_removed_file_absent(files.drop_last(), name);
    }
    let rest = without_file(files, name);
    if exists|j: int| is_first_named(rest, name, j) {
        let j = choose|j: int| is_first_named(rest, name, j);
        assert(rest[j].name != name);
    }
}

/// What is saved is what is read back: once a template accepted for saving
/// is written, as `content`, to `<id>.json` in the custom directory, loading
/// the id gives that template, its raw content is the written content with
/// source "custom", and a custom version exists.
pub proof fn law_saved_template_reads_back(
    cat: CatalogView,
    id: Seq<char>,
    parsed: Result<TemplateView, Seq<char>>,
    content: Seq<char>,
)
    requires
        save_outcome(cat, id, parsed) is Ok,
    ensures
        ({
            let t = save_outcome(cat, id, parsed)->Ok_0;
            let after = CatalogView {
                custom: with_custom_file(
                    cat.custom,
                    FileView { name: file_name_of(id), content, parsed: Ok(t) },
                ),
                ..cat
            };
            &&& custom_file(after, id) is Some
            &&& template_lookup(after, id) == Ok::<TemplateView, Seq<char>>(t)
            &&& raw_lookup(after, id) == Ok::<(Seq<char>, Seq<char>), Seq<char>>(
                (content, "custom"@),
            )
        }),
{
    let t = save_outcome(cat, id, parsed)->Ok_0;
    let f = FileView { name: file_name_of(id), content, parsed: Ok(t) };
    lemma_find_written_file(cat.custom, f);
}

/// Deleting a custom template reverts it to its default: afterwards no
/// custom version exists, and loading the id gives the bundled version, or
/// else the built-in one.
pub proof fn law_deleted_template_reverts_to_default(cat: CatalogView, id: Seq<char>)
    requires
        delete_outcome(cat, id) is Ok,
        has_default(cat, id),
    ensures
        ({
            let after = CatalogView {
                custom: without_file(cat.custom, file_name_of(id)),
                ..cat
            };
            &&& custom_file(after, id) is None
            &&& template_lookup(after, id) == match bundled_file(cat, id) {
                Some(f) => checked(f.parsed),
                None => checked(Ok(builtin_template(id)->0)),
            }
        }),
{
    lemma_removed_file_absent(cat.custom, file_name_of(id));
}

/// The listed ids are strictly sorted (so none is listed twice) and are
/// exactly the built-in, bundled and custom ids; the built-in ids are
/// always among them.
pub proof fn law_listed_ids_sorted_and_complete(cat: CatalogView)
    ensures
        strictly_sorted(template_ids(cat)),
        template_ids(cat).to_set() == candidate_ids(cat).to_set(),
        forall|i: int|
            0 <= i < builtin_ids().len() ==> template_ids(cat).contains(#[trigger] builtin_ids()[i]),
{
    lemma_sorted_unique(candidate_ids(cat));
    assert forall|i: int|
        0 <= i < builtin_ids().len() implies template_ids(cat).contains(
        #[trigger] builtin_ids()[i],
    ) by {
        assert(candidate_ids(cat)[i] == builtin_ids()[i]);
        assert(candidate_ids(cat).to_set().contains(builtin_ids()[i]));
        assert(template_ids(cat).to_set().contains(builtin_ids()[i]));
    }
}

/// Every built-in template passes validation, so a built-in id always
/// loads when no custom or bundled version overrides it.
pub proof fn law_builtin_templates_are_valid(id: Seq<char>)
    requires
        builtin_ids().contains(id),
    ensures
        builtin_template(id) is Some,
        template_check(builtin_template(id)->0) is Ok,
{
    reveal_strlit("daily_standup");
    reveal_strlit("standard_meeting");
    let t = builtin_template(id)->0;
    assert(builtin_ids()[0] == "daily_standup"@);
    assert(builtin_ids()[1] == "standard_meeting"@);
    if exists|i: int| is_first_untitled(t.sections, i) {
        let i = choose|i: int| is_first_untitled(t.sections, i);
        reveal_strlit("Yesterday");
        reveal_strlit("Today");
        reveal_strlit("Blockers");
        reveal_strlit("Summary");
        reveal_strlit("Key Points");
        reveal_strlit("Decisions");
        reveal_strlit("Action Items");
        assert(trim(t.sections[i].title).len() > 0);
    }
    reveal_strlit("Daily Standup");
    reveal_strlit("Standard Meeting");
    assert(trim(t.name).len() > 0);
}

/// A valid template id can never leave the templates directory: it holds
/// no path separator and no dot, so `<id>.json` names a file directly in
/// the directory.
pub proof fn law_valid_ids_stay_in_directory(id: Seq<char>)
    requires
        template_id_check(id) is Ok,
    ensures
        id.len() > 0,
        forall|i: int| 0 <= i < id.len() ==> #[trigger] id[i] != '/' && id[i] != '\\' && id[i] != '.',
{
    assert forall|i: int| 0 <= i < id.len() implies #[trigger] id[i] != '/' && id[i] != '\\' && id[i]
        != '.' by {
        assert(id_char_ok(id[i]));
    }
}

/// Overriding a default template and deleting the override restores the
/// default: after a save is written and its file deleted again, the delete
/// is accepted and the id loads as its bundled or built-in version.
pub proof fn law_override_then_delete_restores_default(
    cat: CatalogView,
    id: Seq<char>,
    parsed: Result<TemplateView, Seq<char>>,
    content: Seq<char>,
)
    requires
        save_outcome(cat, id, parsed) is Ok,
        has_default(cat, id),
    ensures
        ({
            let t = save_outcome(cat, id, parsed)->Ok_0;
            let saved = CatalogView {
                custom: with_custom_file(
                    cat.custom,
                    FileView { name: file_name_of(id), content, parsed: Ok(t) },
                ),
                ..cat
            };
            let deleted = CatalogView {
                custom: without_file(saved.custom, file_name_of(id)),
                ..saved
            };
            &&& delete_outcome(saved, id) is Ok
            &&& template_lookup(deleted, id) == match bundled_file(cat, id) {
                Some(f) => checked(f.parsed),
                None => checked(Ok(builtin_template(id)->0)),
            }
        }),
{
    let t = save_outcome(cat, id, parsed)->Ok_0;
    let f = FileView { name: file_name_of(id), content, parsed: Ok(t) };
    let saved = CatalogView { custom: with_custom_file(cat.custom, f), ..cat };
    lemma_find_written_file(cat.custom, f);
    assert(custom_file(saved, id) is Some);
    law_deleted_template_reverts_to_default(saved, id);
}

/// `small` occurs as a contiguous part of `big`.
pub open spec fn has_infix(big: Seq<char>, small: Seq<char>) -> bool {
    exists|k: int| 0 <= k && k + small.len() <= big.len() && #[trigger] big.subrange(k, k + small.len()) == small
}

proof fn lemma_join_ends_with_last(ps: Seq<Seq<char>>, sep: Seq<char>)
    requires
        ps.len() > 0,
    ensures
        seq_join(ps, sep).len() >= ps.last().len(),
        seq_join(ps, sep).subrange(seq_join(ps, sep).len() - ps.last().len(), seq_join(ps, sep).len() as int)
            == ps.last(),
{
    let j = seq_join(ps, sep);
    if ps.len() == 1 {
        assert(j.subrange(0, j.len() as int) =~= j);
    } else {
        let pre = seq_join(ps.drop_last(), sep) + sep;
        assert(j == pre + ps.last());
        assert(j.subrange(pre.len() as int, j.len() as int) =~= ps.last());
    }
}

proof fn lemma_join_neighbours(ps: Seq<Seq<char>>, sep: Seq<char>, i: int)
    requires
        0 <= i,
        i + 1 < ps.len(),
    ensures
        has_infix(seq_join(ps, sep), ps[i] + sep + ps[i + 1]),
    decreases ps.len(),
{
    let whole = seq_join(ps, sep);
    let pre = seq_join(ps.drop_last(), sep);
    let small = ps[i] + sep + ps[i + 1];
    assert(ps.len() >= 2);
    assert(whole == pre + sep + ps.last());
    if i + 1 == ps.len() - 1 {
        lemma_join_ends_with_last(ps.drop_last(), sep);
        assert(ps.drop_last().last() == ps[i]);
        let k = pre.len() - ps[i].len();
        assert(whole.subrange(k, k + small.len()) =~= small);
    } else {
        lemma_join_neighbours(ps.drop_last(), sep, i);
        assert(ps.drop_last()[i] == ps[i]);
        assert(ps.drop_last()[i + 1] == ps[i + 1]);
        let k = choose|k: int|
            0 <= k && k + small.len() <= pre.len() && #[trigger] pre.subrange(k, k + small.len()) == small;
        assert(whole.subrange(k, k + small.len()) =~= pre.subrange(k, k + small.len()));
    }
}

/// In a template's JSON text the sections are a comma-separated list: each
/// section's rendering is followed by ",\n" and then the next section's
/// rendering (as JSON requires between the elements of an array).
pub proof fn law_sections_separated_by_commas(t: TemplateView, i: int)
    requires
        0 <= i,
        i + 1 < t.sections.len(),
    ensures
        has_infix(
            template_json(t),
            section_json(t.sections[i]) + ",\n"@ + section_json(t.sections[i + 1]),
        ),
{
    let rendered = t.sections.map_values(|s: SectionView| section_json(s));
    lemma_join_neighbours(rendered, ",\n"@, i);
    assert(rendered[i] == section_json(t.sections[i]));
    assert(rendered[i + 1] == section_json(t.sections[i + 1]));
    let small = section_json(t.sections[i]) + ",\n"@ + section_json(t.sections[i + 1]);
    let body = sections_json(t.sections);
    let pre = "{\n  \"name\": "@ + json_string(t.name) + ",\n  \"description\": "@ + json_string(
        t.description,
    ) + ",\n  \"sections\": "@ + "[\n"@;
    let whole = template_json(t);
    assert(whole =~= pre + body + ("\n  ]"@ + "\n}"@));
    let k = choose|k: int|
        0 <= k && k + small.len() <= body.len() && #[trigger] body.subrange(k, k + small.len()) == small;
    assert(whole.subrange(pre.len() + k, pre.len() + k + small.len()) =~= body.subrange(
        k,
        k + small.len(),
    ));
}

} // verus!
