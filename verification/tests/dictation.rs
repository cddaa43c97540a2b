use meetily::dictation::{
    choose_microphone, cleanup_system_prompt, default_cleanup_enabled, default_cleanup_model,
    default_ollama_endpoint, default_review_enabled, dictation_review_decision,
    enqueue_transcribed_text, is_dictation_active, popup_position, postprocess_cleanup,
    review_outcome, should_restore_focus, type_transcribed_text, unicode_key_events,
    CleanupAction, DictationSettings, DictationState, ReviewReply, ReviewWaiter, SegmentAction,
    StartDecision, ToggleStep, TypingWorker, CLEANUP_SYSTEM_PROMPT, MAX_CONSECUTIVE_FAILURES,
};

#[test]
fn settings_defaults() {
    let s = DictationSettings::default();
    assert!(s.cleanup_enabled);
    assert!(s.review_enabled);
    assert_eq!(s.cleanup_model, "gemma3:4b");
    assert_eq!(s.ollama_endpoint, "http://localhost:11434");
    assert!(default_cleanup_enabled());
    assert!(default_review_enabled());
    assert_eq!(default_cleanup_model(), "gemma3:4b");
    assert_eq!(default_ollama_endpoint(), "http://localhost:11434");
}

#[test]
fn toggle_is_ignored_while_in_progress() {
    let mut st = DictationState::new();
    assert!(!is_dictation_active(&st));
    assert_eq!(st.begin_toggle(), ToggleStep::CheckRecording);
    assert_eq!(st.begin_toggle(), ToggleStep::Ignored);
    assert_eq!(st.decide_start(false), StartDecision::Start);
    st.start_finished(true);
    st.end_toggle();
    assert!(is_dictation_active(&st));
    assert_eq!(st.begin_toggle(), ToggleStep::Stop);
    st.stop_finished();
    st.end_toggle();
    assert!(!is_dictation_active(&st));
}

#[test]
fn failed_start_or_busy_recording_leaves_dictation_off() {
    let mut st = DictationState::new();
    st.begin_toggle();
    assert_eq!(st.decide_start(true), StartDecision::RecordingBusy);
    st.end_toggle();
    assert!(!is_dictation_active(&st));
    st.begin_toggle();
    st.start_finished(false);
    st.end_toggle();
    assert!(!is_dictation_active(&st));
}

#[test]
fn worker_stops_cleanup_after_consecutive_failures() {
    let mut w = TypingWorker::new(&DictationSettings::default());
    assert_eq!(MAX_CONSECUTIVE_FAILURES, 3);
    for _ in 0..3 {
        assert!(w.cleanup_allowed());
        assert!(matches!(w.on_segment("raw".to_string()), SegmentAction::Cleanup));
        match w.on_cleanup_result("raw".to_string(), Err("ollama down".to_string())) {
            CleanupAction::Type(t) => assert_eq!(t, "raw"),
            other => panic!("unexpected {:?}", other),
        }
    }
    assert!(!w.cleanup_allowed());
    match w.on_segment("plain".to_string()) {
        SegmentAction::Type(t) => assert_eq!(t, "plain"),
        other => panic!("unexpected {:?}", other),
    }
}

#[test]
fn worker_success_resets_failures() {
    let mut w = TypingWorker::new(&DictationSettings::default());
    w.on_cleanup_result("a".to_string(), Err("x".to_string()));
    w.on_cleanup_result("a".to_string(), Err("x".to_string()));
    w.on_cleanup_result("a".to_string(), Ok("a".to_string()));
    w.on_cleanup_result("a".to_string(), Err("x".to_string()));
    w.on_cleanup_result("a".to_string(), Err("x".to_string()));
    assert!(w.cleanup_allowed());
}

#[test]
fn worker_cleanup_outcomes() {
    let settings = DictationSettings { review_enabled: false, ..DictationSettings::default() };
    let mut w = TypingWorker::new(&settings);
    match w.on_cleanup_result("um hello".to_string(), Ok("um hello".to_string())) {
        CleanupAction::Type(t) => assert_eq!(t, "um hello"),
        other => panic!("unexpected {:?}", other),
    }
    match w.on_cleanup_result("um hello".to_string(), Ok("Hello.".to_string())) {
        CleanupAction::Type(t) => assert_eq!(t, "Hello."),
        other => panic!("unexpected {:?}", other),
    }
    assert!(matches!(w.on_cleanup_result("um".to_string(), Ok(String::new())), CleanupAction::Drop));

    let mut r = TypingWorker::new(&DictationSettings::default());
    match r.on_cleanup_result("um hello".to_string(), Ok("Hello.".to_string())) {
        CleanupAction::Review { raw, cleaned } => {
            assert_eq!(raw, "um hello");
            assert_eq!(cleaned, "Hello.");
        }
        other => panic!("unexpected {:?}", other),
    }

    let off = DictationSettings { cleanup_enabled: false, ..DictationSettings::default() };
    let w = TypingWorker::new(&off);
    assert!(matches!(w.on_segment("x".to_string()), SegmentAction::Type(_)));
}

#[test]
fn review_outcomes() {
    assert_eq!(review_outcome("raw", "clean", ReviewReply::Unavailable), Some("clean".to_string()));
    assert_eq!(review_outcome("raw", "", ReviewReply::Unavailable), None);
    assert_eq!(review_outcome("raw", " clean ", ReviewReply::TimedOut), Some("clean".to_string()));
    assert_eq!(
        review_outcome("raw", "clean", ReviewReply::Decided { accepted: true, text: " edited ".to_string() }),
        Some("edited".to_string())
    );
    assert_eq!(
        review_outcome(" raw ", "clean", ReviewReply::Decided { accepted: false, text: "x".to_string() }),
        Some("raw".to_string())
    );
    assert_eq!(
        review_outcome("raw", "", ReviewReply::Decided { accepted: true, text: "  ".to_string() }),
        None
    );
}

#[test]
fn review_replies_reach_only_the_waiting_review() {
    let mut waiter = ReviewWaiter::new();
    assert!(dictation_review_decision(&mut waiter, 1, true, None).is_none());
    waiter.register(7);
    assert!(dictation_review_decision(&mut waiter, 6, true, None).is_none());
    match dictation_review_decision(&mut waiter, 7, true, Some("ok".to_string())) {
        Some(ReviewReply::Decided { accepted, text }) => {
            assert!(accepted);
            assert_eq!(text, "ok");
        }
        other => panic!("unexpected {:?}", other),
    }
    // answered once only
    assert!(dictation_review_decision(&mut waiter, 7, true, None).is_none());
    waiter.register(8);
    match dictation_review_decision(&mut waiter, 8, false, None) {
        Some(ReviewReply::Decided { accepted, text }) => {
            assert!(!accepted);
            assert_eq!(text, "");
        }
        other => panic!("unexpected {:?}", other),
    }
    waiter.register(9);
    waiter.clear();
    assert!(!waiter.take_reply(9));
}

#[test]
fn focus_restoration() {
    assert!(should_restore_focus(42, 7));
    assert!(!should_restore_focus(42, 42));
    assert!(!should_restore_focus(0, 7));
}

#[test]
fn queued_and_typed_text() {
    assert_eq!(enqueue_transcribed_text("  hello world \n"), Some("hello world".to_string()));
    assert_eq!(enqueue_transcribed_text("   "), None);
    assert_eq!(type_transcribed_text(" hi "), Some("hi ".to_string()));
    assert_eq!(type_transcribed_text(""), None);
}

#[test]
fn microphone_choice() {
    assert_eq!(
        choose_microphone(Some("USB".to_string()), true, Some("Built-in".to_string())),
        Some("USB".to_string())
    );
    assert_eq!(
        choose_microphone(Some("USB".to_string()), false, Some("Built-in".to_string())),
        Some("Built-in".to_string())
    );
    assert_eq!(choose_microphone(None, false, None), None);
}

#[test]
fn cleanup_reply_postprocessing() {
    assert_eq!(postprocess_cleanup("  Hello there.  ", "um hello there"), Ok("Hello there.".to_string()));
    assert_eq!(
        postprocess_cleanup("<think>a</think> first </think>  Answer ", "answer"),
        Ok("Answer".to_string())
    );
    assert_eq!(postprocess_cleanup("\"Quoted\"", "quoted"), Ok("Quoted".to_string()));
    assert_eq!(postprocess_cleanup("\u{201C} Curly \u{201D}", "curly"), Ok("Curly".to_string()));
    assert_eq!(postprocess_cleanup("\u{AB}Guillemets\u{BB}", "guillemets"), Ok("Guillemets".to_string()));
    assert_eq!(postprocess_cleanup("", "um"), Ok(String::new()));
    let long = "x".repeat(47);
    assert_eq!(
        postprocess_cleanup(&long, "abc"),
        Err("cleanup output implausibly long (47 chars from 3 input chars)".to_string())
    );
    assert_eq!(postprocess_cleanup(&"x".repeat(46), "abc"), Ok("x".repeat(46)));
}

#[test]
fn system_prompt_appends_glossary() {
    let p = cleanup_system_prompt("\n\nGlossary");
    assert!(p.starts_with("You are a dictation post-processor."));
    assert!(p.ends_with("reply with an empty message.\n\nGlossary"));
    assert_eq!(p.len(), CLEANUP_SYSTEM_PROMPT.len() + "\n\nGlossary".len());
}

#[test]
fn key_events_for_each_utf16_unit() {
    assert_eq!(unicode_key_events("a"), vec![(97, false), (97, true)]);
    assert_eq!(
        unicode_key_events("\u{633}!"),
        vec![(0x633, false), (0x633, true), (33, false), (33, true)]
    );
    // a character outside the BMP is a surrogate pair
    assert_eq!(
        unicode_key_events("\u{1F600}"),
        vec![(0xD83D, false), (0xD83D, true), (0xDE00, false), (0xDE00, true)]
    );
    let units: Vec<u16> = "h\u{e9}\u{1F600}".encode_utf16().collect();
    let events = unicode_key_events("h\u{e9}\u{1F600}");
    assert_eq!(events.len(), 2 * units.len());
    assert!(unicode_key_events("").is_empty());
}

#[test]
fn popup_positions() {
    // indicator: 120x40 logical at scale 1, margin 16, taskbar 48
    assert_eq!(popup_position(0, 0, 1920, 1080, 120, 40, 16, 48, 0), (1784, 976));
    // review popup stacked above the indicator (40 + 8)
    assert_eq!(popup_position(0, 0, 1920, 1080, 420, 232, 16, 48, 48), (1484, 736));
    // a monitor placed left of the primary one
    assert_eq!(popup_position(-1280, 0, 1280, 1024, 120, 40, 16, 48, 0), (-136, 920));
}

#[test]
fn active_only_between_successful_start_and_stop() {
    let mut st = DictationState::new();
    assert!(!is_dictation_active(&st));
    st.begin_toggle();
    st.start_finished(false);
    st.end_toggle();
    assert!(!is_dictation_active(&st));
    st.begin_toggle();
    st.start_finished(true);
    assert!(is_dictation_active(&st));
    st.end_toggle();
    st.begin_toggle();
    assert!(is_dictation_active(&st));
    st.stop_finished();
    assert!(!is_dictation_active(&st));
    st.end_toggle();
    assert!(!is_dictation_active(&st));
}
