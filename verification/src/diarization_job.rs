//! The steps of a diarization job for a saved meeting.
//!
//! A job loads the meeting's folder and transcript rows, makes sure the two
//! models are present, decodes the audio, diarizes it and stores the new
//! speaker labels. Every step but the relabelling is I/O; this module decides
//! what comes next from what each step reported, and what progress to show.

use vstd::prelude::*;
use crate::diarization::{
    pair_view, relabel_rows, relabel_updates, remote_speaker_count, speakers_valid, DiarizationProgress,
    DiarizationResult, SpeakerTurn, TranscriptRow,
};

verus! {

/// Text of the refusal while another job runs.
pub const JOB_BUSY_MESSAGE: &'static str = "Speaker detection already in progress";

/// Pyannote segmentation model, as stored in the models directory.
pub const SEGMENTATION_MODEL_FILE: &'static str = "sherpa-onnx-pyannote-segmentation-3-0.onnx";

pub const SEGMENTATION_MODEL_URL: &'static str =
    "https://huggingface.co/csukuangfj/sherpa-onnx-pyannote-segmentation-3-0/resolve/main/model.onnx";

/// 3D-Speaker speaker-embedding model, as stored in the models directory.
pub const EMBEDDING_MODEL_FILE: &'static str =
    "3dspeaker_speech_eres2net_base_sv_zh-cn_3dspeaker_16k.onnx";

pub const EMBEDDING_MODEL_URL: &'static str =
    "https://github.com/k2-fsa/sherpa-onnx/releases/download/speaker-recongition-models/3dspeaker_speech_eres2net_base_sv_zh-cn_3dspeaker_16k.onnx";

/// Admits one diarization job at a time.
pub struct JobGate {
    busy: bool,
}

impl JobGate {
    pub closed spec fn is_busy(&self) -> bool {
        self.busy
    }

    pub fn new() -> (r: Self)
        ensures
            !r.is_busy(),
    {
        JobGate { busy: false }
    }

    /// Start a job; refused while another one runs.
    pub fn try_begin(&mut self) -> (r: Result<(), String>)
        ensures
            r is Ok <==> !old(self).is_busy(),
            final(self).is_busy(),
            r matches Err(m) ==> m@ == JOB_BUSY_MESSAGE@,
    {
        if self.busy {
            Err(String::from_str(JOB_BUSY_MESSAGE))
        } else {
            self.busy = true;
            Ok(())
        }
    }

    /// A job ended, however it ended: the next one may start.
    pub fn finish(&mut self)
        ensures
            !final(self).is_busy(),
    {
        self.busy = false;
    }
}

/// A report of job progress with the given fields.
pub open spec fn is_progress(
    p: DiarizationProgress,
    meeting_id: Seq<char>,
    stage: Seq<char>,
    percentage: u32,
    message: Seq<char>,
) -> bool {
    &&& p.meeting_id@ == meeting_id
    &&& p.stage@ == stage
    &&& p.progress_percentage == percentage
    &&& p.message@ == message
}

impl DiarizationProgress {
    pub fn new(meeting_id: &str, stage: &str, progress_percentage: u32, message: &str) -> (r: Self)
        ensures
            is_progress(r, meeting_id@, stage@, progress_percentage, message@),
    {
        DiarizationProgress {
            meeting_id: String::from_str(meeting_id),
            stage: String::from_str(stage),
            progress_percentage,
            message: String::from_str(message),
        }
    }
}

/// A model file to fetch before diarizing, with the progress to show.
pub struct ModelDownload {
    pub file_name: &'static str,
    pub url: &'static str,
    pub progress_percentage: u32,
    pub message: &'static str,
}

pub open spec fn is_segmentation_download(d: ModelDownload) -> bool {
    &&& d.file_name@ == SEGMENTATION_MODEL_FILE@
    &&& d.url@ == SEGMENTATION_MODEL_URL@
    &&& d.progress_percentage == 5
    &&& d.message@ == "Downloading segmentation model (6MB)..."@
}

pub open spec fn is_embedding_download(d: ModelDownload) -> bool {
    &&& d.file_name@ == EMBEDDING_MODEL_FILE@
    &&& d.url@ == EMBEDDING_MODEL_URL@
    &&& d.progress_percentage == 10
    &&& d.message@ == "Downloading speaker embedding model (38MB)..."@
}

/// The downloads still needed: the segmentation model, then the embedding
/// model, each only when it is not on disk yet.
pub fn missing_models(segmentation_present: bool, embedding_present: bool) -> (r: Vec<
    ModelDownload,
>)
    ensures
        r.len() == (if segmentation_present { 0int } else { 1int }) + (if embedding_present {
            0int
        } else {
            1int
        }),
        !segmentation_present ==> is_segmentation_download(r[0]),
        !embedding_present ==> is_embedding_download(r[r.len() - 1]),
{
    let mut r: Vec<ModelDownload> = Vec::new();
    if !segmentation_present {
        r.push(
            ModelDownload {
                file_name: SEGMENTATION_MODEL_FILE,
                url: SEGMENTATION_MODEL_URL,
                progress_percentage: 5,
                message: "Downloading segmentation model (6MB)...",
            },
        );
    }
    if !embedding_present {
        r.push(
            ModelDownload {
                file_name: EMBEDDING_MODEL_FILE,
                url: EMBEDDING_MODEL_URL,
                progress_percentage: 10,
                message: "Downloading speaker embedding model (38MB)...",
            },
        );
    }
    r
}

/// The error of a model download answered with a failure status.
pub fn model_download_error(status: &str, url: &str) -> (r: String)
    ensures
        r@ == "Model download failed with HTTP "@ + status@ + ": "@ + url@,
{
    let mut m = String::from_str("Model download failed with HTTP ");
    m.append(status);
    m.append(": ");
    m.append(url);
    m
}

/// Where a job stands.
#[derive(Clone, Copy, Debug, PartialEq, Eq, Structural)]
pub enum JobPhase {
    /// Waiting for the meeting's folder.
    LoadFolder,
    /// Waiting for the transcript rows.
    LoadRows,
    /// Waiting for the models to be on disk.
    PrepareModels,
    /// Waiting for the decoded audio.
    Decode,
    /// Waiting for the speaker turns.
    Diarize,
    /// Waiting for the new labels to be stored.
    Save,
    /// The job ended.
    Done,
}

/// What the last step reported.
pub enum JobEvent {
    /// The meeting's folder, when it has one.
    FolderFound(Option<String>),
    RowsLoaded(Vec<TranscriptRow>),
    ModelsReady,
    AudioDecoded,
    /// The diarized turns, in order of start time.
    TurnsFound(Vec<SpeakerTurn>),
    LabelsSaved,
    /// The step failed with this message.
    Failed(String),
}

/// What to do next.
pub enum JobAction {
    LoadRows,
    PrepareModels,
    DecodeAudio { folder: String, progress: DiarizationProgress },
    Diarize { progress: DiarizationProgress },
    /// Store these `(row id, label)` pairs (nothing to store when empty).
    SaveLabels { updates: Vec<(String, String)>, progress: DiarizationProgress },
    Finish(DiarizationResult),
    Fail(String),
}

/// One diarization job for a meeting.
pub struct MeetingJob {
    meeting_id: String,
    phase: JobPhase,
    folder: String,
    rows: Vec<TranscriptRow>,
    num_speakers: usize,
    segments_updated: usize,
}

pub open spec fn no_folder_message(meeting_id: Seq<char>) -> Seq<char> {
    "Meeting "@ + meeting_id + " has no folder path (no audio to diarize)"@
}

pub open spec fn no_transcripts_message(meeting_id: Seq<char>) -> Seq<char> {
    "Meeting "@ + meeting_id + " has no transcripts"@
}

/// The event belongs to the phase (any event but a failure belongs to one
/// phase only).
pub open spec fn fits(phase: JobPhase, e: JobEvent) -> bool {
    match e {
        JobEvent::FolderFound(_) => phase == JobPhase::LoadFolder,
        JobEvent::RowsLoaded(_) => phase == JobPhase::LoadRows,
        JobEvent::ModelsReady => phase == JobPhase::PrepareModels,
        JobEvent::AudioDecoded => phase == JobPhase::Decode,
        JobEvent::TurnsFound(_) => phase == JobPhase::Diarize,
        JobEvent::LabelsSaved => phase == JobPhase::Save,
        JobEvent::Failed(_) => phase != JobPhase::Done,
    }
}

/// What one fitting step does: a failed step ends the job with its
/// message; a meeting without folder or without rows ends it with an
/// error; each other step records what it learnt and asks for the next,
/// with the progress to show; the turns are turned into label changes.
pub open spec fn stepped(before: MeetingJob, e: JobEvent, after: MeetingJob, a: JobAction) -> bool {
    match e {
        JobEvent::Failed(m) => after.phase() == JobPhase::Done && (a matches JobAction::Fail(f)
            && f@ == m@),
        JobEvent::FolderFound(Some(folder)) => after.phase() == JobPhase::LoadRows
            && after.folder() == folder@ && a is LoadRows,
        JobEvent::FolderFound(None) => after.phase() == JobPhase::Done && (a matches JobAction::Fail(
            m,
        ) && m@ == no_folder_message(before.meeting())),
        JobEvent::RowsLoaded(rows) => if rows.len() == 0 {
            after.phase() == JobPhase::Done && (a matches JobAction::Fail(m) && m@
                == no_transcripts_message(before.meeting()))
        } else {
            &&& after.phase() == JobPhase::PrepareModels
            &&& after.rows() == rows@
            &&& after.folder() == before.folder()
            &&& a is PrepareModels
        },
        JobEvent::ModelsReady => {
            &&& after.phase() == JobPhase::Decode
            &&& after.rows() == before.rows()
            &&& a matches JobAction::DecodeAudio { folder, progress }
            &&& folder@ == before.folder()
            &&& is_progress(progress, before.meeting(), "decoding"@, 20, "Decoding meeting audio..."@)
        },
        JobEvent::AudioDecoded => {
            &&& after.phase() == JobPhase::Diarize
            &&& after.rows() == before.rows()
            &&& a matches JobAction::Diarize { progress }
            &&& is_progress(progress, before.meeting(), "diarizing"@, 40, "Detecting speakers..."@)
        },
        JobEvent::TurnsFound(t) => {
            &&& after.phase() == JobPhase::Save
            &&& a matches JobAction::SaveLabels { updates, progress }
            &&& updates@.map_values(|p: (String, String)| pair_view(p)) == relabel_updates(
                before.rows(),
                t@,
            )
            &&& after.speakers() == remote_speaker_count(before.rows(), t@)
            &&& after.updated() == updates.len()
            &&& is_progress(
                progress,
                before.meeting(),
                "saving"@,
                85,
                "Assigning speakers to transcript..."@,
            )
        },
        JobEvent::LabelsSaved => {
            &&& after.phase() == JobPhase::Done
            &&& a matches JobAction::Finish(res)
            &&& res.meeting_id@ == before.meeting()
            &&& res.num_speakers == before.speakers()
            &&& res.segments_updated == before.updated()
        },
    }
}

impl MeetingJob {
    pub closed spec fn meeting(&self) -> Seq<char> {
        self.meeting_id@
    }

    pub closed spec fn phase(&self) -> JobPhase {
        self.phase
    }

    pub closed spec fn folder(&self) -> Seq<char> {
        self.folder@
    }

    pub closed spec fn rows(&self) -> Seq<TranscriptRow> {
        self.rows@
    }

    pub closed spec fn speakers(&self) -> nat {
        self.num_speakers as nat
    }

    pub closed spec fn updated(&self) -> nat {
        self.segments_updated as nat
    }

    /// A job for the meeting, about to look up its folder.
    pub fn new(meeting_id: String) -> (r: Self)
        ensures
            r.meeting() == meeting_id@,
            r.phase() == JobPhase::LoadFolder,
    {
        MeetingJob {
            meeting_id,
            phase: JobPhase::LoadFolder,
            folder: String::new(),
            rows: Vec::new(),
            num_speakers: 0,
            segments_updated: 0,
        }
    }

    pub fn current_phase(&self) -> (r: JobPhase)
        ensures
            r == self.phase(),
    {
        self.phase
    }

    /// Advance the job by what the last step reported. An event that does
    /// not belong to the current phase changes nothing and yields `None`.
    pub fn step(&mut self, event: JobEvent) -> (r: Option<JobAction>)
        requires
            event matches JobEvent::TurnsFound(t) ==> speakers_valid(t@) && old(self).rows().len()
                * t.len() <= 0xffff_ffff_ffff_ffff,
        ensures
            final(self).meeting() == old(self).meeting(),
            r is Some <==> fits(old(self).phase(), event),
            r is None ==> *final(self) == *old(self),
            r matches Some(a) ==> stepped(*old(self), event, *final(self), a),
    {
        match event {
            JobEvent::Failed(m) => {
                if self.phase == JobPhase::Done {
                    return None;
                }
                self.phase = JobPhase::Done;
                Some(JobAction::Fail(m))
            },
            JobEvent::FolderFound(f) => {
                if self.phase != JobPhase::LoadFolder {
                    return None;
                }
                match f {
                    Some(folder) => {
                        self.folder = folder;
                        self.phase = JobPhase::LoadRows;
                        Some(JobAction::LoadRows)
                    },
                    None => {
                        self.phase = JobPhase::Done;
                        let mut m = String::from_str("Meeting ");
                        m.append(self.meeting_id.as_str());
                        m.append(" has no folder path (no audio to diarize)");
                        Some(JobAction::Fail(m))
                    },
                }
            },
            JobEvent::RowsLoaded(rows) => {
                if self.phase != JobPhase::LoadRows {
                    return None;
                }
                if rows.len() == 0 {
                    self.phase = JobPhase::Done;
                    let mut m = String::from_str("Meeting ");
                    m.append(self.meeting_id.as_str());
                    m.append(" has no transcripts");
                    Some(JobAction::Fail(m))
                } else {
                    self.rows = rows;
                    self.phase = JobPhase::PrepareModels;
                    Some(JobAction::PrepareModels)
                }
            },
            JobEvent::ModelsReady => {
                if self.phase != JobPhase::PrepareModels {
                    return None;
                }
                self.phase = JobPhase::Decode;
                let progress = DiarizationProgress::new(
                    self.meeting_id.as_str(),
                    "decoding",
                    20,
                    "Decoding meeting audio...",
                );
                Some(JobAction::DecodeAudio { folder: self.folder.clone(), progress })
            },
            JobEvent::AudioDecoded => {
                if self.phase != JobPhase::Decode {
                    return None;
                }
                self.phase = JobPhase::Diarize;
                let progress = DiarizationProgress::new(
                    self.meeting_id.as_str(),
                    "diarizing",
                    40,
                    "Detecting speakers...",
                );
                Some(JobAction::Diarize { progress })
            },
            JobEvent::TurnsFound(turns) => {
                if self.phase != JobPhase::Diarize {
                    return None;
                }
                let (updates, num_speakers) = relabel_rows(&self.rows, &turns);
                self.num_speakers = num_speakers;
                self.segments_updated = updates.len();
                self.phase = JobPhase::Save;
                let progress = DiarizationProgress::new(
                    self.meeting_id.as_str(),
                    "saving",
                    85,
                    "Assigning speakers to transcript...",
                );
                Some(JobAction::SaveLabels { updates, progress })
            },
            JobEvent::LabelsSaved => {
                if self.phase != JobPhase::Save {
                    return None;
                }
                self.phase = JobPhase::Done;
                Some(
                    JobAction::Finish(
                        DiarizationResult {
                            meeting_id: self.meeting_id.clone(),
                            num_speakers: self.num_speakers,
                            segments_updated: self.segments_updated,
                        },
                    ),
                )
            },
        }
    }
}

/// A job that ended stays ended: no report, not even a failure, moves it
/// again.
pub proof fn law_ended_job_stays_ended(job: MeetingJob, e: JobEvent)
    requires
        job.phase() == JobPhase::Done,
    ensures
        !fits(job.phase(), e),
{
}

/// A job finishes only from the saving phase: the only report that ends it
/// without an error is the one that the new labels were stored.
pub proof fn law_only_saving_finishes(before: MeetingJob, e: JobEvent, after: MeetingJob, a: JobAction)
    requires
        fits(before.phase(), e),
        stepped(before, e, after, a),
        a is Finish,
    ensures
        before.phase() == JobPhase::Save,
        e is LabelsSaved,
{
}

} // verus!
