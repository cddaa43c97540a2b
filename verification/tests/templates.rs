use meetily::template_commands::{
    get_template_content, get_template_details, list_template_infos, validated_template_name,
};
use meetily::templates::{
    custom_template_exists, delete_custom_template, get_builtin_template, get_template,
    get_template_raw, has_default_template, list_builtin_template_ids, list_template_ids,
    list_templates, save_custom_template, set_bundled_templates_dir, template_file_name, validate_parsed_template,
    validate_template_id, Template, TemplateCatalog, TemplateFile, TemplateSection,
};

fn section(title: &str) -> TemplateSection {
    TemplateSection {
        title: title.to_string(),
        instruction: "Write it".to_string(),
        format: "list".to_string(),
    }
}

fn template(name: &str, titles: &[&str]) -> Template {
    Template {
        name: name.to_string(),
        description: format!("{} description", name),
        sections: titles.iter().map(|t| section(t)).collect(),
    }
}

fn file(name: &str, parsed: Result<Template, String>) -> TemplateFile {
    TemplateFile { file_name: name.to_string(), content: format!("content of {}", name), parsed }
}

fn catalog_with_custom(files: Vec<TemplateFile>) -> TemplateCatalog {
    let mut c = TemplateCatalog::new();
    c.custom_dir = Some("/home/u/.local/share/Meetily/templates".to_string());
    c.custom = files;
    c
}

#[test]
fn test_get_builtin_template() {
    let template = get_template(&TemplateCatalog::new(), "daily_standup");
    assert!(template.is_ok());

    let template = template.unwrap();
    assert_eq!(template.name, "Daily Standup");
    assert!(!template.sections.is_empty());
}

#[test]
fn test_get_nonexistent_template() {
    let result = get_template(&TemplateCatalog::new(), "nonexistent_template");
    assert!(result.is_err());
}

#[test]
fn test_list_template_ids() {
    let ids = list_template_ids(&TemplateCatalog::new());
    assert!(ids.contains(&"daily_standup".to_string()));
    assert!(ids.contains(&"standard_meeting".to_string()));
}

#[test]
fn nonexistent_template_error_lists_available_ids() {
    let err = get_template(&TemplateCatalog::new(), "nope").unwrap_err();
    assert_eq!(
        err,
        "Template 'nope' not found. Available templates: daily_standup, standard_meeting"
    );
}

#[test]
fn custom_overrides_bundled_overrides_builtin() {
    let mut cat = catalog_with_custom(vec![file("daily_standup.json", Ok(template("Mine", &["A"])))]);
    set_bundled_templates_dir(
        &mut cat,
        "/app/templates".to_string(),
        vec![
            file("daily_standup.json", Ok(template("Bundled", &["B"]))),
            file("retro.json", Ok(template("Retro", &["Went well"]))),
        ],
    );
    assert_eq!(get_template(&cat, "daily_standup").unwrap().name, "Mine");
    assert_eq!(get_template(&cat, "retro").unwrap().name, "Retro");
    assert_eq!(get_template(&cat, "standard_meeting").unwrap().name, "Standard Meeting");

    let (content, source) = get_template_raw(&cat, "daily_standup").unwrap();
    assert_eq!(content, "content of daily_standup.json");
    assert_eq!(source, "custom");
    let (content, source) = get_template_raw(&cat, "retro").unwrap();
    assert_eq!(content, "content of retro.json");
    assert_eq!(source, "bundled");
    let (content, source) = get_template_raw(&cat, "standard_meeting").unwrap();
    assert_eq!(source, "builtin");
    assert_eq!(Some(content), get_builtin_template("standard_meeting"));
}

#[test]
fn invalid_template_file_reports_validation_error() {
    let cat = catalog_with_custom(vec![
        file("empty_name.json", Ok(template("  ", &["A"]))),
        file("no_sections.json", Ok(template("T", &[]))),
        file("untitled.json", Ok(template("T", &["A", " ", ""]))),
        file("broken.json", Err("Failed to parse template JSON: expected value".to_string())),
    ]);
    assert_eq!(get_template(&cat, "empty_name").unwrap_err(), "Template name cannot be empty");
    assert_eq!(
        get_template(&cat, "no_sections").unwrap_err(),
        "Template must have at least one section"
    );
    assert_eq!(get_template(&cat, "untitled").unwrap_err(), "Section 2 has an empty title");
    assert_eq!(
        get_template(&cat, "broken").unwrap_err(),
        "Failed to parse template JSON: expected value"
    );
}

#[test]
fn list_template_ids_sorted_unique_across_directories() {
    let mut cat = catalog_with_custom(vec![
        file("zeta.json", Ok(template("Z", &["a"]))),
        file("daily_standup.json", Ok(template("D", &["a"]))),
        file("notes.txt", Ok(template("N", &["a"]))),
    ]);
    set_bundled_templates_dir(
        &mut cat,
        "/app".to_string(),
        vec![file("alpha.json", Ok(template("A", &["a"]))), file("zeta.json", Ok(template("Z2", &["a"])))],
    );
    assert_eq!(
        list_template_ids(&cat),
        vec!["alpha", "daily_standup", "standard_meeting", "zeta"]
    );
}

#[test]
fn list_templates_skips_templates_that_fail_to_load() {
    let cat = catalog_with_custom(vec![
        file("good.json", Ok(template("Good", &["a"]))),
        file("bad.json", Ok(template("", &["a"]))),
    ]);
    let listed = list_templates(&cat);
    let ids: Vec<&str> = listed.iter().map(|t| t.0.as_str()).collect();
    assert_eq!(ids, vec!["daily_standup", "good", "standard_meeting"]);
    assert_eq!(listed[1].1, "Good");
    assert_eq!(listed[1].2, "Good description");
}

#[test]
fn validate_template_id_rules() {
    assert!(validate_template_id("my-template_2").is_ok());
    assert_eq!(validate_template_id(""), Err("Template ID cannot be empty".to_string()));
    assert_eq!(
        validate_template_id("../etc/passwd"),
        Err("Invalid template ID '../etc/passwd'. Use only letters, digits, '_' and '-'".to_string())
    );
    assert!(validate_template_id("a b").is_err());
    assert!(validate_template_id("caf\u{e9}").is_err());
}

#[test]
fn save_then_record_reads_back() {
    let mut cat = catalog_with_custom(Vec::new());
    let parsed = Ok(template("Weekly", &["Wins", "Risks"]));
    let saved = save_custom_template(&cat, "weekly", &parsed).unwrap();
    let content = saved.to_json();
    assert_eq!(saved.name, "Weekly");
    cat.record_custom_template("weekly", content.clone(), saved);
    assert!(custom_template_exists(&cat, "weekly"));
    assert_eq!(get_template(&cat, "weekly").unwrap().name, "Weekly");
    let (raw, source) = get_template_raw(&cat, "weekly").unwrap();
    assert_eq!(raw, content);
    assert_eq!(source, "custom");
}

#[test]
fn template_json_is_pretty_printed() {
    let cat = catalog_with_custom(Vec::new());
    let t = Template {
        name: "Q\"A".to_string(),
        description: "line\nbreak".to_string(),
        sections: vec![section("One")],
    };
    let saved = save_custom_template(&cat, "qa", &Ok(t)).unwrap();
    assert_eq!(
        saved.to_json(),
        "{\n  \"name\": \"Q\\\"A\",\n  \"description\": \"line\\nbreak\",\n  \"sections\": [\n    {\n      \"title\": \"One\",\n      \"instruction\": \"Write it\",\n      \"format\": \"list\"\n    }\n  ]\n}"
    );
}

#[test]
fn save_errors() {
    let no_dir = TemplateCatalog::new();
    let ok = Ok(template("T", &["a"]));
    assert_eq!(
        save_custom_template(&no_dir, "t", &ok).unwrap_err(),
        "Could not resolve the user data directory"
    );
    let cat = catalog_with_custom(Vec::new());
    assert_eq!(save_custom_template(&cat, "", &ok).unwrap_err(), "Template ID cannot be empty");
    assert_eq!(
        save_custom_template(&cat, "t", &Ok(template("T", &[]))).unwrap_err(),
        "Template must have at least one section"
    );
    assert_eq!(
        save_custom_template(&cat, "t", &Err("Failed to parse template JSON: eof".to_string()))
            .unwrap_err(),
        "Failed to parse template JSON: eof"
    );
}

#[test]
fn delete_reverts_to_default_or_refuses() {
    let mut cat = catalog_with_custom(vec![
        file("daily_standup.json", Ok(template("Mine", &["A"]))),
        file("own.json", Ok(template("Own", &["A"]))),
    ]);
    assert!(has_default_template(&cat, "daily_standup"));
    assert!(!has_default_template(&cat, "own"));
    assert!(delete_custom_template(&cat, "daily_standup").is_ok());
    cat.forget_custom_template("daily_standup");
    assert!(!custom_template_exists(&cat, "daily_standup"));
    assert_eq!(get_template(&cat, "daily_standup").unwrap().name, "Daily Standup");
    assert_eq!(
        delete_custom_template(&cat, "daily_standup").unwrap_err(),
        "Template 'daily_standup' is a default template and cannot be deleted"
    );
    assert_eq!(delete_custom_template(&cat, "ghost").unwrap_err(), "Template 'ghost' not found");
    assert!(delete_custom_template(&cat, "own").is_ok());
    cat.forget_custom_template("own");
    assert!(get_template(&cat, "own").is_err());
    assert_eq!(
        delete_custom_template(&TemplateCatalog::new(), "own").unwrap_err(),
        "Could not resolve the user data directory"
    );
    assert!(delete_custom_template(&cat, "bad/id").is_err());
}

#[test]
fn builtin_ids_and_json() {
    assert_eq!(list_builtin_template_ids(), vec!["daily_standup", "standard_meeting"]);
    assert!(get_builtin_template("unknown").is_none());
    let json = get_builtin_template("daily_standup").unwrap();
    assert!(json.starts_with("{\n  \"name\": \"Daily Standup\","));
}

#[test]
fn validate_parsed_template_passes_valid_and_rejects_invalid() {
    assert_eq!(validate_parsed_template(&Ok(template("T", &["a"]))).unwrap().name, "T");
    assert_eq!(
        validate_parsed_template(&Ok(template("T", &[" "]))).unwrap_err(),
        "Section 1 has an empty title"
    );
    assert_eq!(validated_template_name(&Ok(template("Named", &["x"]))), Ok("Named".to_string()));
}

#[test]
fn template_commands_shapes() {
    let cat = catalog_with_custom(vec![file("own.json", Ok(template("Own", &["A", "B"])))]);
    let infos = list_template_infos(&cat);
    assert_eq!(infos.len(), 3);
    assert_eq!(infos[1].id, "own");
    assert_eq!(infos[1].name, "Own");
    let details = get_template_details(&cat, "own".to_string()).unwrap();
    assert_eq!(details.sections, vec!["A", "B"]);
    assert_eq!(details.description, "Own description");
    let content = get_template_content(&cat, "own".to_string()).unwrap();
    assert_eq!(content.source, "custom");
    assert!(!content.has_default);
    assert_eq!(content.content, "content of own.json");
    let builtin = get_template_content(&cat, "standard_meeting".to_string()).unwrap();
    assert_eq!(builtin.source, "builtin");
    assert!(builtin.has_default);
    assert!(get_template_details(&cat, "missing".to_string()).is_err());
}

#[test]
fn overriding_a_default_then_deleting_restores_it() {
    let mut cat = catalog_with_custom(Vec::new());
    let saved = save_custom_template(&cat, "standard_meeting", &Ok(template("My Meeting", &["Notes"]))).unwrap();
    let content = saved.to_json();
    cat.record_custom_template("standard_meeting", content, saved);
    assert_eq!(get_template(&cat, "standard_meeting").unwrap().name, "My Meeting");
    assert_eq!(get_template_raw(&cat, "standard_meeting").unwrap().1, "custom");
    assert!(delete_custom_template(&cat, "standard_meeting").is_ok());
    cat.forget_custom_template("standard_meeting");
    assert_eq!(get_template(&cat, "standard_meeting").unwrap().name, "Standard Meeting");
    assert_eq!(get_template_raw(&cat, "standard_meeting").unwrap().1, "builtin");
}

#[test]
fn saving_twice_replaces_the_custom_file() {
    let mut cat = catalog_with_custom(Vec::new());
    for name in ["First", "Second"] {
        let saved = save_custom_template(&cat, "mine", &Ok(template(name, &["S"]))).unwrap();
        let content = saved.to_json();
        cat.record_custom_template("mine", content, saved);
    }
    assert_eq!(cat.custom.len(), 1);
    assert_eq!(get_template(&cat, "mine").unwrap().name, "Second");
}

#[test]
fn lookup_reads_the_file_the_id_names() {
    assert_eq!(template_file_name("team/weekly"), "team/weekly.json");
    assert_eq!(template_file_name("../shared"), "../shared.json");
    // the caller puts the file `<dir>/team/weekly.json` in the catalog for this lookup
    let cat = catalog_with_custom(vec![file("team/weekly.json", Ok(template("Team Weekly", &["A"])))]);
    assert_eq!(get_template(&cat, "team/weekly").unwrap().name, "Team Weekly");
    // raw content lookups check the id first
    assert!(get_template_raw(&cat, "team/weekly").is_err());
}
