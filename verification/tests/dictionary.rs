use meetily::dictionary::{
    add_dictionary_entry, add_entry_with_id, apply_corrections, compile, delete_dictionary_entry,
    glossary_prompt_section, migrate_entry_kinds, term_with_meaning, update_dictionary_entry,
    whisper_vocabulary_hint, DictionaryEntry, EntryKind, MAX_HINT_TERMS,
};

fn entry(id: &str, misheard: Option<&str>, correct: &str, kind: EntryKind, meaning: Option<&str>) -> DictionaryEntry {
    DictionaryEntry {
        id: id.to_string(),
        misheard: misheard.map(String::from),
        correct: correct.to_string(),
        kind,
        meaning: meaning.map(String::from),
    }
}

#[test]
fn corrections_are_whole_word_and_case_insensitive() {
    let dict = compile(vec![
        entry("1", Some("cooper netties"), "Kubernetes", EntryKind::Correction, None),
        entry("2", Some("sea eye"), "CI", EntryKind::Correction, None),
    ]);
    assert_eq!(
        apply_corrections(Some(&dict), "We deploy on Cooper Netties with sea eye."),
        "We deploy on Kubernetes with CI."
    );
    // not inside a longer word
    assert_eq!(apply_corrections(Some(&dict), "seaeye"), "seaeye");
}

#[test]
fn corrections_escape_the_misheard_form() {
    let dict = compile(vec![entry("1", Some("node.js"), "Node.js", EntryKind::Correction, None)]);
    assert_eq!(apply_corrections(Some(&dict), "I use node.js daily"), "I use Node.js daily");
    // the dot is literal, not "any character"
    assert_eq!(apply_corrections(Some(&dict), "I use nodexjs daily"), "I use nodexjs daily");
}

#[test]
fn corrections_apply_to_persian_words() {
    let dict = compile(vec![entry("1", Some("\u{633}\u{644}\u{627}\u{645}"), "Salam", EntryKind::Correction, None)]);
    assert_eq!(
        apply_corrections(Some(&dict), "\u{633}\u{644}\u{627}\u{645} dost"),
        "Salam dost"
    );
}

#[test]
fn corrections_apply_in_entry_order() {
    let dict = compile(vec![
        entry("1", Some("alpha"), "beta", EntryKind::Correction, None),
        entry("2", Some("beta"), "gamma", EntryKind::Correction, None),
    ]);
    assert_eq!(apply_corrections(Some(&dict), "alpha"), "gamma");
}

#[test]
fn no_dictionary_or_no_misheard_form_changes_nothing() {
    assert_eq!(apply_corrections(None, "anything at all"), "anything at all");
    let dict = compile(vec![
        entry("1", None, "Meetily", EntryKind::Name, None),
        entry("2", Some("   "), "Blank", EntryKind::Term, None),
    ]);
    assert_eq!(apply_corrections(Some(&dict), "meetily blank   "), "meetily blank   ");
}

#[test]
fn whisper_hint_lists_trimmed_terms() {
    assert_eq!(whisper_vocabulary_hint(None), None);
    assert_eq!(whisper_vocabulary_hint(Some(&compile(Vec::new()))), None);
    let dict = compile(vec![
        entry("1", None, "  Meetily ", EntryKind::Name, None),
        entry("2", None, "   ", EntryKind::Term, None),
        entry("3", Some("sea eye"), "CI", EntryKind::Correction, None),
    ]);
    assert_eq!(whisper_vocabulary_hint(Some(&dict)), Some("Glossary: Meetily, CI.".to_string()));
}

#[test]
fn whisper_hint_is_capped() {
    let entries: Vec<DictionaryEntry> =
        (0..45).map(|i| entry(&i.to_string(), None, &format!("t{}", i), EntryKind::Term, None)).collect();
    let hint = whisper_vocabulary_hint(Some(&compile(entries))).unwrap();
    assert_eq!(MAX_HINT_TERMS, 40);
    assert_eq!(hint.matches(", ").count(), 39);
    assert!(hint.ends_with("t39."));
}

#[test]
fn term_with_meaning_formats() {
    assert_eq!(
        term_with_meaning(&entry("1", None, " CI ", EntryKind::Abbreviation, Some(" Continuous Integration "))),
        Some("CI (Continuous Integration)".to_string())
    );
    assert_eq!(term_with_meaning(&entry("1", None, "CI", EntryKind::Abbreviation, Some("  "))), Some("CI".to_string()));
    assert_eq!(term_with_meaning(&entry("1", None, "  ", EntryKind::Abbreviation, Some("x"))), None);
}

#[test]
fn glossary_section_groups_entries() {
    assert_eq!(glossary_prompt_section(None), "");
    assert_eq!(glossary_prompt_section(Some(&compile(Vec::new()))), "");
    let dict = compile(vec![
        entry("1", Some("sea eye"), "CI", EntryKind::Abbreviation, Some("Continuous Integration")),
        entry("2", None, "Dariush", EntryKind::Name, None),
        entry("3", None, "yak shaving", EntryKind::Jargon, Some("pointless prep work")),
        entry("4", None, "Meetily", EntryKind::Term, None),
    ]);
    let section = glossary_prompt_section(Some(&dict));
    assert!(section.starts_with("\n\nUser dictionary \u{2014} the speaker's personal glossary."));
    assert!(section.ends_with(
        "\nKnown mistranscriptions (also apply when merely similar-sounding): \"sea eye\" -> \"CI\"\
         \nNames (people, companies, products): Dariush\
         \nAbbreviations (keep abbreviated, spelled exactly like this): CI (Continuous Integration)\
         \nJargon and slang the speaker uses: yak shaving (pointless prep work)\
         \nOther terms and preferred spellings: Meetily"
    ));
}

#[test]
fn glossary_section_omits_empty_groups() {
    let dict = compile(vec![
        entry("1", None, "Ana", EntryKind::Name, None),
        entry("2", None, "Bo", EntryKind::Name, None),
    ]);
    let section = glossary_prompt_section(Some(&dict));
    assert!(section.ends_with("into the output.\nNames (people, companies, products): Ana; Bo"));
}

#[test]
fn migration_marks_old_corrections() {
    let migrated = migrate_entry_kinds(&vec![
        entry("1", Some("x"), "X", EntryKind::Term, None),
        entry("2", None, "Y", EntryKind::Term, None),
        entry("3", Some("z"), "Z", EntryKind::Name, None),
    ]);
    assert_eq!(migrated[0].kind, EntryKind::Correction);
    assert_eq!(migrated[1].kind, EntryKind::Term);
    assert_eq!(migrated[2].kind, EntryKind::Name);
    let again = migrate_entry_kinds(&migrated);
    assert_eq!(again[0].kind, EntryKind::Correction);
    assert_eq!(EntryKind::default(), EntryKind::Term);
}

#[test]
fn add_trims_defaults_kind_and_refuses_blank() {
    let mut entries = Vec::new();
    let (e, changed) = add_entry_with_id(
        &mut entries,
        Some("  sea eye ".to_string()),
        " CI ".to_string(),
        None,
        Some("   ".to_string()),
        "dict-1".to_string(),
    )
    .unwrap();
    assert!(changed);
    assert_eq!(e.correct, "CI");
    assert_eq!(e.misheard, Some("sea eye".to_string()));
    assert_eq!(e.kind, EntryKind::Correction);
    assert_eq!(e.meaning, None);
    assert_eq!(entries.len(), 1);
    let (t, _) =
        add_entry_with_id(&mut entries, Some(" ".to_string()), "Word".to_string(), None, None, "dict-2".to_string())
            .unwrap();
    assert_eq!(t.kind, EntryKind::Term);
    assert_eq!(t.misheard, None);
    assert_eq!(
        add_entry_with_id(&mut entries, None, "   ".to_string(), None, None, "dict-3".to_string()).unwrap_err(),
        "Correct form cannot be empty"
    );
    assert_eq!(entries.len(), 2);
}

#[test]
fn re_adding_is_a_no_op_but_fills_a_missing_meaning() {
    let mut entries = Vec::new();
    add_entry_with_id(&mut entries, Some("sea eye".to_string()), "CI".to_string(), None, None, "a".to_string())
        .unwrap();
    let (same, changed) =
        add_entry_with_id(&mut entries, Some("SEA EYE".to_string()), "ci".to_string(), None, None, "b".to_string())
            .unwrap();
    assert!(!changed);
    assert_eq!(same.id, "a");
    assert_eq!(entries.len(), 1);
    let (filled, changed) = add_entry_with_id(
        &mut entries,
        Some("sea eye".to_string()),
        "CI".to_string(),
        None,
        Some("Continuous Integration".to_string()),
        "c".to_string(),
    )
    .unwrap();
    assert!(changed);
    assert_eq!(filled.id, "a");
    assert_eq!(entries[0].meaning, Some("Continuous Integration".to_string()));
    let (_, changed) = add_entry_with_id(
        &mut entries,
        Some("sea eye".to_string()),
        "CI".to_string(),
        None,
        Some("Other".to_string()),
        "d".to_string(),
    )
    .unwrap();
    assert!(!changed);
    assert_eq!(entries[0].meaning, Some("Continuous Integration".to_string()));
    assert_eq!(entries.len(), 1);
}

#[test]
fn add_gives_new_entries_a_dict_uuid_id() {
    let mut entries = Vec::new();
    let (e, changed) = add_dictionary_entry(&mut entries, None, "Meetily".to_string(), None, None).unwrap();
    assert!(changed);
    assert!(e.id.starts_with("dict-"));
    assert_eq!(e.id.len(), 41);
    assert_eq!(e.id.matches('-').count(), 5);
    let u = &e.id[5..];
    assert_eq!(u.as_bytes()[14], b'4');
    assert!(matches!(u.as_bytes()[19], b'8' | b'9' | b'a' | b'b'));
    assert!(u.chars().all(|c| c == '-' || c.is_ascii_digit() || ('a'..='f').contains(&c)));
    let (f, _) = add_dictionary_entry(&mut entries, None, "Other".to_string(), None, None).unwrap();
    assert_ne!(e.id, f.id);
}

#[test]
fn update_replaces_by_id_or_fails() {
    let mut entries = vec![
        entry("a", None, "A", EntryKind::Term, None),
        entry("b", None, "B", EntryKind::Term, None),
    ];
    assert!(update_dictionary_entry(&mut entries, entry("b", Some("bee"), "B2", EntryKind::Name, None)).is_ok());
    assert_eq!(entries[1].correct, "B2");
    assert_eq!(entries[1].kind, EntryKind::Name);
    assert_eq!(entries[0].correct, "A");
    assert_eq!(
        update_dictionary_entry(&mut entries, entry("zz", None, "Z", EntryKind::Term, None)).unwrap_err(),
        "Dictionary entry not found: zz"
    );
    assert_eq!(entries.len(), 2);
}

#[test]
fn delete_removes_every_entry_with_the_id() {
    let entries = vec![
        entry("a", None, "A", EntryKind::Term, None),
        entry("b", None, "B", EntryKind::Term, None),
        entry("a", None, "A2", EntryKind::Term, None),
    ];
    let kept = delete_dictionary_entry(&entries, "a");
    assert_eq!(kept.len(), 1);
    assert_eq!(kept[0].id, "b");
    assert_eq!(delete_dictionary_entry(&entries, "none").len(), 3);
}

#[test]
fn delete_undoes_add() {
    let mut entries = vec![entry("a", None, "A", EntryKind::Term, None)];
    add_entry_with_id(&mut entries, None, "New".to_string(), None, None, "fresh".to_string()).unwrap();
    let kept = delete_dictionary_entry(&entries, "fresh");
    assert_eq!(kept.len(), 1);
    assert_eq!(kept[0].id, "a");
    assert_eq!(kept[0].correct, "A");
}

#[test]
fn correct_forms_are_inserted_literally() {
    let dict = compile(vec![DictionaryEntry {
        id: "d1".into(),
        misheard: Some("five dollars".into()),
        correct: "$5".into(),
        kind: EntryKind::Correction,
        meaning: None,
    }]);
    assert_eq!(apply_corrections(Some(&dict), "It costs five dollars"), "It costs $5");
    let dict = compile(vec![entry("1", Some("cash tag"), "${name} $$ $0", EntryKind::Correction, None)]);
    assert_eq!(apply_corrections(Some(&dict), "a cash tag b"), "a ${name} $$ $0 b");
}

#[test]
fn corrections_replace_every_whole_word_occurrence() {
    let dict = compile(vec![entry("1", Some("cat"), "dog", EntryKind::Correction, None)]);
    assert_eq!(apply_corrections(Some(&dict), "Cat concatenate CAT."), "dog concatenate dog.");
}

#[test]
fn escape_marks_every_meta_character() {
    assert_eq!(
        meetily::word_pattern::escape(r"a\.+*?()|[]{}^$#&-~b%/!"),
        r"a\\\.\+\*\?\(\)\|\[\]\{\}\^\$\#\&\-\~b%/!"
    );
    assert_eq!(meetily::word_pattern::escape("plain"), regex::escape("plain"));
    let all = r"x\.+*?()|[]{}^$#&-~y \u{633}";
    assert_eq!(meetily::word_pattern::escape(all), regex::escape(all));
}
