use meetily::elevenlabs::{
    api_error_message, check_audio_length, failed_reply, language_hint, parsed_reply,
    pcm16_wav_bytes, request_failed, transcript_text, ElevenLabsProvider, TranscriptionError,
    MIN_SAMPLES,
};

fn engine_message(e: TranscriptionError) -> String {
    match e {
        TranscriptionError::EngineFailed(m) => m,
        other => panic!("unexpected {:?}", other),
    }
}

#[test]
fn provider_basics() {
    let p = ElevenLabsProvider::new("  ".to_string(), "scribe_v1".to_string());
    assert!(!p.is_model_loaded());
    assert_eq!(p.get_current_model(), Some("scribe_v1".to_string()));
    assert_eq!(p.provider_name(), "ElevenLabs Scribe");
    let q = ElevenLabsProvider::new("sk-SECRET-REDACTED".to_string(), "scribe_v1".to_string());
    assert!(q.is_model_loaded());
    assert_eq!(q.api_key(), "sk-SECRET-REDACTED");
}

#[test]
fn short_audio_is_refused() {
    assert_eq!(MIN_SAMPLES, 1600);
    match check_audio_length(1599) {
        Err(TranscriptionError::AudioTooShort { samples, minimum }) => {
            assert_eq!(samples, 1599);
            assert_eq!(minimum, 1600);
        }
        other => panic!("unexpected {:?}", other),
    }
    assert!(check_audio_length(1600).is_ok());
}

#[test]
fn language_hint_skips_auto_and_blank() {
    assert_eq!(language_hint(Some("fa".to_string())), Some("fa".to_string()));
    assert_eq!(language_hint(Some(" en ".to_string())), Some(" en ".to_string()));
    assert_eq!(language_hint(Some("auto".to_string())), None);
    assert_eq!(language_hint(Some(" auto-translate ".to_string())), None);
    assert_eq!(language_hint(Some("   ".to_string())), None);
    assert_eq!(language_hint(None), None);
}

#[test]
fn form_fields_in_order() {
    let p = ElevenLabsProvider::new("k".to_string(), "scribe_v1".to_string());
    let pair = |a: &str, b: &str| (a.to_string(), b.to_string());
    assert_eq!(
        p.form_fields(Some("fa".to_string())),
        vec![pair("model_id", "scribe_v1"), pair("tag_audio_events", "false"), pair("language_code", "fa")]
    );
    assert_eq!(
        p.form_fields(Some("auto".to_string())),
        vec![pair("model_id", "scribe_v1"), pair("tag_audio_events", "false")]
    );
}

#[test]
fn error_messages() {
    assert_eq!(
        api_error_message(401, "401 Unauthorized", "nope"),
        "Invalid ElevenLabs API key. Check it in Settings \u{2192} Transcription Models."
    );
    assert_eq!(api_error_message(429, "429 Too Many Requests", ""), "ElevenLabs rate limit or quota exceeded.");
    assert_eq!(
        api_error_message(500, "500 Internal Server Error", "boom"),
        "ElevenLabs API error 500 Internal Server Error: boom"
    );
    let body = "\u{e9}".repeat(400);
    let msg = api_error_message(502, "502 Bad Gateway", &body);
    assert_eq!(msg, format!("ElevenLabs API error 502 Bad Gateway: {}", "\u{e9}".repeat(300)));
    assert_eq!(engine_message(failed_reply(503, "503 Service Unavailable", "x")), "ElevenLabs API error 503 Service Unavailable: x");
    assert_eq!(engine_message(request_failed("timed out")), "ElevenLabs request failed: timed out");
}

#[test]
fn reply_text_is_trimmed_and_parse_errors_reported() {
    assert_eq!(parsed_reply(Ok("  Hello world \n".to_string())).unwrap(), "Hello world");
    assert_eq!(
        engine_message(parsed_reply(Err("missing field".to_string())).unwrap_err()),
        "Invalid ElevenLabs response: missing field"
    );
    assert_eq!(transcript_text("\t x \t"), "x");
}

#[test]
fn wav_encoding() {
    let wav = pcm16_wav_bytes(&[0, 1, -1, 32767, -32768], 16000);
    assert_eq!(wav.len(), 44 + 10);
    assert_eq!(&wav[0..4], b"RIFF");
    assert_eq!(&wav[4..8], &(36u32 + 10).to_le_bytes());
    assert_eq!(&wav[8..16], b"WAVEfmt ");
    assert_eq!(&wav[16..20], &16u32.to_le_bytes());
    assert_eq!(&wav[20..22], &1u16.to_le_bytes());
    assert_eq!(&wav[22..24], &1u16.to_le_bytes());
    assert_eq!(&wav[24..28], &16000u32.to_le_bytes());
    assert_eq!(&wav[28..32], &32000u32.to_le_bytes());
    assert_eq!(&wav[32..34], &2u16.to_le_bytes());
    assert_eq!(&wav[34..36], &16u16.to_le_bytes());
    assert_eq!(&wav[36..40], b"data");
    assert_eq!(&wav[40..44], &10u32.to_le_bytes());
    assert_eq!(&wav[44..], &[0, 0, 1, 0, 0xff, 0xff, 0xff, 0x7f, 0x00, 0x80]);
    assert_eq!(pcm16_wav_bytes(&[], 8000).len(), 44);
}
