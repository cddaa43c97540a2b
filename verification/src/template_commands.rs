//! The shapes the template editor and picker receive, built from the
//! template lookups.

use vstd::prelude::*;
use crate::templates::{
    delete_custom_template, delete_outcome, get_template, get_template_raw, has_default,
    has_default_template, list_templates,
    loadable_templates, raw_lookup, template_ids, template_lookup, Template, TemplateCatalog,
    TemplateView, SectionView, section_views, validate_parsed_template, checked,
    template_result_view,
};

verus! {

/// Template metadata for UI display.
#[derive(Debug)]
pub struct TemplateInfo {
    /// Template identifier (e.g. "daily_standup").
    pub id: String,
    /// Display name.
    pub name: String,
    /// Brief description of the template's purpose.
    pub description: String,
}

/// Detailed template structure for preview.
#[derive(Debug)]
pub struct TemplateDetails {
    pub id: String,
    pub name: String,
    pub description: String,
    /// Section titles in order.
    pub sections: Vec<String>,
}

/// Raw template content for the template editor.
#[derive(Debug)]
pub struct TemplateContent {
    pub id: String,
    /// Raw JSON content of the template.
    pub content: String,
    /// Where the active version comes from: "custom", "bundled" or "builtin".
    pub source: String,
    /// Whether a bundled or built-in default exists for this id (deleting
    /// the custom version then reverts to it).
    pub has_default: bool,
}

pub open spec fn info_view(i: TemplateInfo) -> (Seq<char>, Seq<char>, Seq<char>) {
    (i.id@, i.name@, i.description@)
}

/// All templates that load, for the picker (id, name, description), sorted
/// by id.
pub fn list_template_infos(catalog: &TemplateCatalog) -> (r: Vec<TemplateInfo>)
    ensures
        r@.map_values(|i: TemplateInfo| info_view(i)) == loadable_templates(
            catalog@,
            template_ids(catalog@),
        ),
{
    let templates = list_templates(catalog);
    let ghost tv = templates@.map_values(|t: (String, String, String)| (t.0@, t.1@, t.2@));
    let mut infos: Vec<TemplateInfo> = Vec::new();
    let mut i: usize = 0;
    while i < templates.len()
        invariant
            i <= templates.len(),
            tv == templates@.map_values(|t: (String, String, String)| (t.0@, t.1@, t.2@)),
            infos@.map_values(|i: TemplateInfo| info_view(i)) == tv.take(i as int),
        decreases templates.len() - i,
    {
        let t = &templates[i];
        let info = TemplateInfo { id: t.0.clone(), name: t.1.clone(), description: t.2.clone() };
        let ghost before = infos@;
        let ghost v = info_view(info);
        assert(v == tv[i as int]);
        infos.push(info);
        assert(infos@.map_values(|i: TemplateInfo| info_view(i)) =~= before.map_values(
            |i: TemplateInfo| info_view(i),
        ).push(v));
        assert(infos@.map_values(|i: TemplateInfo| info_view(i)) =~= tv.take(i + 1));
        i += 1;
    }
    assert(tv.take(templates.len() as int) =~= tv);
    assert(tv == loadable_templates(catalog@, template_ids(catalog@))) by {
        assert(tv =~= templates@.map_values(|t: (String, String, String)| crate::templates::triple_view(t)));
    }
    infos
}

pub open spec fn section_titles(ss: Seq<SectionView>) -> Seq<Seq<char>> {
    ss.map_values(|s: SectionView| s.title)
}

pub open spec fn details_view(d: TemplateDetails) -> (Seq<char>, Seq<char>, Seq<char>, Seq<Seq<char>>) {
    (d.id@, d.name@, d.description@, d.sections@.map_values(|s: String| s@))
}

pub open spec fn details_result(r: Result<TemplateDetails, String>) -> Result<
    (Seq<char>, Seq<char>, Seq<char>, Seq<Seq<char>>),
    Seq<char>,
> {
    match r {
        Ok(d) => Ok(details_view(d)),
        Err(e) => Err(e@),
    }
}

/// The details of a template: its id, name, description and section
/// titles in order; the lookup error when it does not load.
pub fn get_template_details(catalog: &TemplateCatalog, template_id: String) -> (r: Result<
    TemplateDetails,
    String,
>)
    ensures
        details_result(r) == match template_lookup(catalog@, template_id@) {
            Ok(t) => Ok((template_id@, t.name, t.description, section_titles(t.sections))),
            Err(e) => Err(e),
        },
{
    let template = match get_template(catalog, template_id.as_str()) {
        Ok(t) => t,
        Err(e) => {
            return Err(e);
        },
    };
    let ghost ss = section_views(template.sections@);
    let mut titles: Vec<String> = Vec::new();
    let mut i: usize = 0;
    while i < template.sections.len()
        invariant
            i <= template.sections.len(),
            ss == section_views(template.sections@),
            titles@.map_values(|s: String| s@) == section_titles(ss).take(i as int),
        decreases template.sections.len() - i,
    {
        let title = template.sections[i].title.clone();
        let ghost before = titles@;
        assert(title@ == section_titles(ss)[i as int]);
        titles.push(title);
        assert(titles@.map_values(|s: String| s@) =~= before.map_values(|s: String| s@).push(
            section_titles(ss)[i as int],
        ));
        assert(titles@.map_values(|s: String| s@) =~= section_titles(ss).take(i + 1));
        i += 1;
    }
    assert(section_titles(ss).take(template.sections.len() as int) =~= section_titles(ss));
    Ok(TemplateDetails {
        id: template_id,
        name: template.name,
        description: template.description,
        sections: titles,
    })
}

pub open spec fn content_view(c: TemplateContent) -> (Seq<char>, Seq<char>, Seq<char>, bool) {
    (c.id@, c.content@, c.source@, c.has_default)
}

pub open spec fn content_result(r: Result<TemplateContent, String>) -> Result<
    (Seq<char>, Seq<char>, Seq<char>, bool),
    Seq<char>,
> {
    match r {
        Ok(c) => Ok(content_view(c)),
        Err(e) => Err(e@),
    }
}

/// The raw content of a template for editing, where it comes from, and
/// whether a default exists for its id.
pub fn get_template_content(catalog: &TemplateCatalog, template_id: String) -> (r: Result<
    TemplateContent,
    String,
>)
    ensures
        content_result(r) == match raw_lookup(catalog@, template_id@) {
            Ok((content, source)) => Ok(
                (template_id@, content, source, has_default(catalog@, template_id@)),
            ),
            Err(e) => Err(e),
        },
{
    let (content, source) = match get_template_raw(catalog, template_id.as_str()) {
        Ok(p) => p,
        Err(e) => {
            return Err(e);
        },
    };
    let has_default = has_default_template(catalog, template_id.as_str());
    Ok(TemplateContent { id: template_id, content, source: String::from_str(source), has_default })
}

pub open spec fn name_result(r: Result<String, String>) -> Result<Seq<char>, Seq<char>> {
    match r {
        Ok(n) => Ok(n@),
        Err(e) => Err(e@),
    }
}

/// The name of a parsed template when it is valid, else the error.
pub fn validated_template_name(parsed: &Result<Template, String>) -> (r: Result<String, String>)
    ensures
        name_result(r) == match checked(template_result_view(*parsed)) {
            Ok(t) => Ok(t.name),
            Err(e) => Err(e),
        },
{
    match validate_parsed_template(parsed) {
        Ok(t) => Ok(t.name),
        Err(e) => Err(e),
    }
}

/// Deleting a template from the editor: the refusal (see `delete_outcome`),
/// or whether a bundled or built-in default remains, the template having
/// reverted to it.
pub fn delete_template_reverting(catalog: &TemplateCatalog, template_id: &str) -> (r: Result<
    bool,
    String,
>)
    ensures
        match delete_outcome(catalog@, template_id@) {
            Ok(()) => r == Ok::<bool, String>(has_default(catalog@, template_id@)),
            Err(e) => r matches Err(m) && m@ == e,
        },
{
    match delete_custom_template(catalog, template_id) {
        Ok(()) => Ok(has_default_template(catalog, template_id)),
        Err(e) => Err(e),
    }
}

} // verus!
