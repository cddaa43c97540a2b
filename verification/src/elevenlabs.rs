//! ElevenLabs Scribe cloud transcription: request framing and reply
//! handling.
//!
//! Each speech chunk is uploaded as an in-memory 16-bit PCM WAV file; the
//! HTTP exchange itself happens outside this module.

use vstd::prelude::*;
use crate::text::{chars_of, push_char, str_eq, trim, trim_str};

verus! {

/// ElevenLabs rejects audio shorter than 100 ms; samples are 16 kHz mono.
pub const MIN_SAMPLES: usize = 1600;

/// Why a transcription failed.
#[derive(Debug)]
pub enum TranscriptionError {
    AudioTooShort { samples: usize, minimum: usize },
    EngineFailed(String),
}

/// The provider's configuration: the user's API key and the model to use.
#[derive(Debug)]
pub struct ElevenLabsProvider {
    api_key: String,
    model_id: String,
}

impl ElevenLabsProvider {
    pub closed spec fn key(&self) -> Seq<char> {
        self.api_key@
    }

    pub closed spec fn model(&self) -> Seq<char> {
        self.model_id@
    }

    pub fn new(api_key: String, model_id: String) -> (r: Self)
        ensures
            r.key() == api_key@,
            r.model() == model_id@,
    {
        ElevenLabsProvider { api_key, model_id }
    }

    pub fn api_key(&self) -> (r: &str)
        ensures
            r@ == self.key(),
    {
        self.api_key.as_str()
    }

    /// A cloud provider is usable when an API key is configured.
    pub fn is_model_loaded(&self) -> (r: bool)
        ensures
            r == (trim(self.key()).len() > 0),
    {
        !trim_str(self.api_key.as_str()).is_empty()
    }

    pub fn get_current_model(&self) -> (r: Option<String>)
        ensures
            r matches Some(m) && m@ == self.model(),
    {
        Some(self.model_id.clone())
    }

    pub fn provider_name(&self) -> (r: &'static str)
        ensures
            r@ == "ElevenLabs Scribe"@,
    {
        "ElevenLabs Scribe"
    }
}

/// Audio shorter than `MIN_SAMPLES` is refused before any upload.
pub fn check_audio_length(samples: usize) -> (r: Result<(), TranscriptionError>)
    ensures
        samples >= MIN_SAMPLES <==> r is Ok,
        r matches Err(TranscriptionError::AudioTooShort { samples: s, minimum: m }) ==> s == samples
            && m == MIN_SAMPLES,
        !(r matches Err(TranscriptionError::EngineFailed(_))),
{
    if samples < MIN_SAMPLES {
        Err(TranscriptionError::AudioTooShort { samples, minimum: MIN_SAMPLES })
    } else {
        Ok(())
    }
}

/// The language hint sent with a request: the requested language, unless
/// it is blank, "auto" or "auto-translate" (then the service detects the
/// language itself).
pub open spec fn language_code(language: Option<Seq<char>>) -> Option<Seq<char>> {
    match language {
        Some(l) => if trim(l).len() > 0 && trim(l) != "auto"@ && trim(l) != "auto-translate"@ {
            Some(l)
        } else {
            None
        },
        None => None,
    }
}

pub open spec fn opt_view(o: Option<String>) -> Option<Seq<char>> {
    match o {
        Some(s) => Some(s@),
        None => None,
    }
}

/// The language hint of a request (see `language_code`).
pub fn language_hint(language: Option<String>) -> (r: Option<String>)
    ensures
        opt_view(r) == language_code(opt_view(language)),
{
    match language {
        Some(l) => {
            let t = trim_str(l.as_str());
            if !t.is_empty() && !str_eq(t, "auto") && !str_eq(t, "auto-translate") {
                Some(l)
            } else {
                None
            }
        },
        None => None,
    }
}

/// The message for a failed request: fixed texts for 401 and 429, else
/// the status and the first 300 characters of the body.
pub open spec fn error_message(status_code: u16, status_text: Seq<char>, body: Seq<char>) -> Seq<char> {
    if status_code == 401 {
        "Invalid ElevenLabs API key. Check it in Settings \u{2192} Transcription Models."@
    } else if status_code == 429 {
        "ElevenLabs rate limit or quota exceeded."@
    } else {
        "ElevenLabs API error "@ + status_text + ": "@ + (if body.len() > 300 {
            body.take(300)
        } else {
            body
        })
    }
}

/// The message for a failed request (see `error_message`); `status_text`
/// is the rendered status, such as "500 Internal Server Error".
pub fn api_error_message(status_code: u16, status_text: &str, body: &str) -> (r: String)
    ensures
        r@ == error_message(status_code, status_text@, body@),
{
    if status_code == 401 {
        return String::from_str(
            "Invalid ElevenLabs API key. Check it in Settings \u{2192} Transcription Models.",
        );
    }
    if status_code == 429 {
        return String::from_str("ElevenLabs rate limit or quota exceeded.");
    }
    let mut msg = String::from_str("ElevenLabs API error ");
    msg.append(status_text);
    msg.append(": ");
    let cs = chars_of(body);
    let n = if cs.len() > 300 {
        300
    } else {
        cs.len()
    };
    let ghost start = msg@;
    let mut i: usize = 0;
    while i < n
        invariant
            i <= n,
            n <= cs.len(),
            cs@ == body@,
            msg@ == start + body@.take(i as int),
        decreases n - i,
    {
        push_char(&mut msg, cs[i]);
        assert(body@.take(i + 1) =~= body@.take(i as int).push(cs@[i as int]));
        i += 1;
    }
    assert(n == cs.len() ==> body@.take(n as int) =~= body@);
    msg
}

/// `(name, value)` views of form fields.
pub open spec fn field_views(v: Seq<(String, String)>) -> Seq<(Seq<char>, Seq<char>)> {
    v.map_values(|f: (String, String)| (f.0@, f.1@))
}

/// The text fields of an upload, in order: the model, no audio-event tags,
/// then the language hint when there is one.
pub open spec fn upload_fields(model: Seq<char>, language: Option<Seq<char>>) -> Seq<
    (Seq<char>, Seq<char>),
> {
    let base = seq![("model_id"@, model), ("tag_audio_events"@, "false"@)];
    match language_code(language) {
        Some(l) => base.push(("language_code"@, l)),
        None => base,
    }
}

impl ElevenLabsProvider {
    /// The text fields sent with an upload (see `upload_fields`); the audio
    /// travels beside them as the file part.
    pub fn form_fields(&self, language: Option<String>) -> (r: Vec<(String, String)>)
        ensures
            field_views(r@) == upload_fields(self.model(), opt_view(language)),
    {
        let mut fields: Vec<(String, String)> = Vec::new();
        fields.push((String::from_str("model_id"), self.model_id.clone()));
        fields.push((String::from_str("tag_audio_events"), String::from_str("false")));
        match language_hint(language) {
            Some(l) => {
                fields.push((String::from_str("language_code"), l));
            },
            None => {},
        }
        assert(field_views(fields@) =~= upload_fields(self.model(), opt_view(language)));
        fields
    }
}

/// The error of a request that got no reply.
pub fn request_failed(detail: &str) -> (r: TranscriptionError)
    ensures
        r matches TranscriptionError::EngineFailed(m) && m@ == "ElevenLabs request failed: "@
            + detail@,
{
    let mut m = String::from_str("ElevenLabs request failed: ");
    m.append(detail);
    TranscriptionError::EngineFailed(m)
}

/// The error of a reply with a failure status (see `error_message`).
pub fn failed_reply(status_code: u16, status_text: &str, body: &str) -> (r: TranscriptionError)
    ensures
        r matches TranscriptionError::EngineFailed(m) && m@ == error_message(
            status_code,
            status_text@,
            body@,
        ),
{
    TranscriptionError::EngineFailed(api_error_message(status_code, status_text, body))
}

/// The outcome of a successful reply, given its decoded `text` field or the
/// decoding error: the trimmed text, or an engine failure.
pub fn parsed_reply(parsed: Result<String, String>) -> (r: Result<String, TranscriptionError>)
    ensures
        parsed matches Ok(t) ==> r matches Ok(x) && x@ == trim(t@),
        parsed matches Err(e) ==> r matches Err(TranscriptionError::EngineFailed(m)) && m@
            == "Invalid ElevenLabs response: "@ + e@,
{
    match parsed {
        Ok(t) => Ok(transcript_text(t.as_str())),
        Err(e) => {
            let mut m = String::from_str("Invalid ElevenLabs response: ");
            m.append(e.as_str());
            Err(TranscriptionError::EngineFailed(m))
        },
    }
}

/// The transcript text of a reply, trimmed.
pub fn transcript_text(text: &str) -> (r: String)
    ensures
        r@ == trim(text@),
{
    String::from_str(trim_str(text))
}

// ---------------------------------------------------------------------------
// WAV encoding
// ---------------------------------------------------------------------------

/// Little-endian bytes of a 16-bit value.
pub open spec fn le16(x: u16) -> Seq<u8> {
    seq![(x % 256) as u8, (x / 256) as u8]
}

/// Little-endian bytes of a 32-bit value.
pub open spec fn le32(x: u32) -> Seq<u8> {
    seq![(x % 256) as u8, ((x / 256) % 256) as u8, ((x / 65536) % 256) as u8, (x / 16777216) as u8]
}

/// The ASCII bytes of a four-letter chunk tag.
pub open spec fn tag(a: char, b: char, c: char, d: char) -> Seq<u8> {
    seq![a as u8, b as u8, c as u8, d as u8]
}

/// The 44-byte header of a mono 16-bit PCM WAV file holding `data_len`
/// bytes of samples at `sample_rate`.
pub open spec fn wav_header(data_len: u32, sample_rate: u32) -> Seq<u8> {
    tag('R', 'I', 'F', 'F') + le32((36 + data_len) as u32) + tag('W', 'A', 'V', 'E') + tag(
        'f',
        'm',
        't',
        ' ',
    ) + le32(16) + le16(1) + le16(1) + le32(sample_rate) + le32((sample_rate * 2) as u32) + le16(2)
        + le16(16) + tag('d', 'a', 't', 'a') + le32(data_len)
}

/// The samples as little-endian 16-bit values.
pub open spec fn pcm_bytes(samples: Seq<i16>) -> Seq<u8>
    decreases samples.len(),
{
    if samples.len() == 0 {
        seq![]
    } else {
        pcm_bytes(samples.drop_last()) + le16(samples.last() as u16)
    }
}

fn push_le16(out: &mut Vec<u8>, x: u16)
    ensures
        final(out)@ == old(out)@ + le16(x),
{
    out.push((x % 256) as u8);
    out.push((x / 256) as u8);
    assert(final(out)@ =~= old(out)@ + le16(x));
}

fn push_le32(out: &mut Vec<u8>, x: u32)
    ensures
        final(out)@ == old(out)@ + le32(x),
{
    out.push((x % 256) as u8);
    out.push(((x / 256) % 256) as u8);
    out.push(((x / 65536) % 256) as u8);
    out.push((x / 16777216) as u8);
    assert(final(out)@ =~= old(out)@ + le32(x));
}

fn push_tag(out: &mut Vec<u8>, a: u8, b: u8, c: u8, d: u8)
    ensures
        final(out)@ == old(out)@ + seq![a, b, c, d],
{
    out.push(a);
    out.push(b);
    out.push(c);
    out.push(d);
    assert(final(out)@ =~= old(out)@ + seq![a, b, c, d]);
}

/// Encode 16-bit mono samples as a PCM WAV file: the header, then each
/// sample little-endian.
pub fn pcm16_wav_bytes(samples: &[i16], sample_rate: u32) -> (r: Vec<u8>)
    requires
        samples@.len() * 2 + 36 <= u32::MAX,
        sample_rate * 2 <= u32::MAX,
    ensures
        r@ == wav_header((samples@.len() * 2) as u32, sample_rate) + pcm_bytes(samples@),
{
    let data_len: u32 = (samples.len() * 2) as u32;
    let mut wav: Vec<u8> = Vec::new();
    push_tag(&mut wav, 82, 73, 70, 70);
    push_le32(&mut wav, 36 + data_len);
    push_tag(&mut wav, 87, 65, 86, 69);
    push_tag(&mut wav, 102, 109, 116, 32);
    push_le32(&mut wav, 16);
    push_le16(&mut wav, 1);
    push_le16(&mut wav, 1);
    push_le32(&mut wav, sample_rate);
    push_le32(&mut wav, sample_rate * 2);
    push_le16(&mut wav, 2);
    push_le16(&mut wav, 16);
    push_tag(&mut wav, 100, 97, 116, 97);
    push_le32(&mut wav, data_len);
    assert(wav@ =~= wav_header(data_len, sample_rate));
    let ghost header = wav@;
    let mut i: usize = 0;
    while i < samples.len()
        invariant
            i <= samples@.len(),
            wav@ == header + pcm_bytes(samples@.take(i as int)),
        decreases samples@.len() - i,
    {
        let s = samples[i];
        proof {
            assert(samples@.take(i + 1).drop_last() =~= samples@.take(i as int));
            assert(samples@.take(i + 1).last() == s);
        }
        push_le16(&mut wav, s as u16);
        assert(wav@ =~= header + pcm_bytes(samples@.take(i + 1)));
        i += 1;
    }
    assert(samples@.take(samples@.len() as int) =~= samples@);
    wav
}

/// A WAV upload is the 44-byte header followed by two bytes per sample.
pub proof fn law_wav_size(samples: Seq<i16>, sample_rate: u32)
    ensures
        (wav_header((samples.len() * 2) as u32, sample_rate) + pcm_bytes(samples)).len() == 44 + 2
            * samples.len(),
    decreases samples.len(),
{
    if samples.len() > 0 {
        law_wav_size(samples.drop_last(), sample_rate);
    }
}

} // verus!
