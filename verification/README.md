# meetily

The companion features of the Meetily desktop app, as a Verus-verified
library with a thin shell around it.

- `src/` — the verified library:
  - `diarization`, `diarization_job`: relabelling transcript rows by diarized
    speaker turns, and the steps of a diarization job for a saved meeting;
  - `dictionary`: the user glossary — correction rules, the Whisper
    vocabulary hint, the LLM glossary section, and editing the entries;
  - `dictation`: the hotkey toggle, the typing worker with its cleanup and
    review decisions, cleanup-reply post-processing, keyboard events;
  - `templates`, `template_commands`: summary templates — validation,
    lookup precedence (custom, bundled, built-in), listing, saving and
    deleting, JSON rendering;
  - `elevenlabs`: request framing (WAV encoding, form fields) and reply
    handling for ElevenLabs Scribe;
  - `sherpa_staging`: names and decisions of the Windows library staging;
  - `text`, `fraction`, `word_pattern`: character-level helpers, exact
    fraction comparison, and the `regex` crate behind a specified interface.
- `tests/` — tests of the library.
- `app/` — the Tauri commands, stores, windows, HTTP, database and audio
  work around the library.
