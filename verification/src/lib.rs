//! Verified core logic of the Meetily desktop companion: the user dictionary,
//! dictation text handling, speaker relabelling after diarization, summary
//! templates and the ElevenLabs request framing.

pub mod text;
pub mod word_pattern;
pub mod fraction;
pub mod diarization;
pub mod dictionary;
pub mod templates;
pub mod template_commands;
pub mod dictation;
pub mod elevenlabs;
pub mod diarization_job;
pub mod sherpa_staging;
