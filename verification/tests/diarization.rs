use meetily::diarization::{overlap, relabel_rows, SpeakerTurn, TranscriptRow};
use meetily::diarization_job::{
    missing_models, model_download_error, JobAction, JobEvent, JobGate, JobPhase, MeetingJob,
    EMBEDDING_MODEL_FILE, EMBEDDING_MODEL_URL, JOB_BUSY_MESSAGE, SEGMENTATION_MODEL_FILE,
    SEGMENTATION_MODEL_URL,
};

/// Seconds on the recording timeline, as the library's milliseconds.
fn ms(seconds: f64) -> u32 {
    (seconds * 1000.0).round() as u32
}

fn row(id: &str, start: f64, end: f64, speaker: Option<&str>) -> TranscriptRow {
    TranscriptRow {
        id: id.to_string(),
        start: Some(ms(start)),
        end: Some(ms(end)),
        speaker: speaker.map(String::from),
    }
}

fn turn(start: f64, end: f64, speaker: i32) -> SpeakerTurn {
    SpeakerTurn { start: ms(start), end: ms(end), speaker }
}

#[test]
fn test_relabel_splits_remote_speakers() {
    // You (mic) at 0-10, remote speaker A at 10-20, remote speaker B at 20-30
    let rows = vec![
        row("r1", 0.0, 10.0, Some("mic")),
        row("r2", 10.0, 20.0, Some("system")),
        row("r3", 20.0, 30.0, Some("system")),
    ];
    // Diarizer: cluster 0 = you, cluster 1 = A, cluster 2 = B
    let turns = vec![turn(0.0, 10.0, 0), turn(10.0, 20.0, 1), turn(20.0, 30.0, 2)];

    let (updates, num_speakers) = relabel_rows(&rows, &turns);
    assert_eq!(num_speakers, 2);
    assert_eq!(updates.len(), 2);
    assert_eq!(updates[0], ("r2".to_string(), "system:1".to_string()));
    assert_eq!(updates[1], ("r3".to_string(), "system:2".to_string()));
}

#[test]
fn test_relabel_single_remote_speaker_keeps_labels() {
    let rows = vec![row("r1", 0.0, 10.0, Some("mic")), row("r2", 10.0, 20.0, Some("system"))];
    let turns = vec![turn(0.0, 10.0, 0), turn(10.0, 20.0, 1)];

    // Only one remote speaker: "Them" is already the right label
    let (updates, num_speakers) = relabel_rows(&rows, &turns);
    assert_eq!(num_speakers, 1);
    assert!(updates.is_empty());
}

#[test]
fn test_relabel_import_without_channel_info() {
    // Imported meeting: no mic rows, NULL speakers
    let rows = vec![row("r1", 0.0, 10.0, None), row("r2", 10.0, 20.0, None)];
    let turns = vec![turn(0.0, 10.0, 0), turn(10.0, 20.0, 1)];

    let (updates, num_speakers) = relabel_rows(&rows, &turns);
    assert_eq!(num_speakers, 2);
    assert_eq!(updates.len(), 2);
    assert_eq!(updates[0].1, "speaker:1");
    assert_eq!(updates[1].1, "speaker:2");
}

#[test]
fn test_relabel_keeps_mic_and_mixed_rows() {
    let rows = vec![
        row("r1", 0.0, 10.0, Some("mic")),
        row("r2", 10.0, 20.0, Some("mixed")),
        row("r3", 20.0, 30.0, Some("system")),
        row("r4", 30.0, 40.0, Some("system")),
    ];
    let turns = vec![
        turn(0.0, 10.0, 0),
        turn(10.0, 20.0, 1),
        turn(20.0, 30.0, 1),
        turn(30.0, 40.0, 2),
    ];

    let (updates, _) = relabel_rows(&rows, &turns);
    // mic and mixed rows are never touched
    assert!(updates.iter().all(|(id, _)| id != "r1" && id != "r2"));
    assert_eq!(updates.len(), 2);
}

#[test]
fn relabel_without_turns_changes_nothing() {
    let rows = vec![row("r1", 0.0, 10.0, Some("system"))];
    let (updates, num_speakers) = relabel_rows(&rows, &Vec::new());
    assert!(updates.is_empty());
    assert_eq!(num_speakers, 0);
}

#[test]
fn relabel_skips_rows_already_labelled_and_untimed_rows() {
    let rows = vec![
        row("r1", 0.0, 10.0, Some("speaker:1")),
        TranscriptRow { id: "r2".to_string(), start: None, end: Some(20_000), speaker: None },
        row("r3", 20.0, 30.0, Some("system")),
    ];
    let turns = vec![turn(0.0, 10.0, 4), turn(10.0, 20.0, 7), turn(20.0, 30.0, 7)];
    let (updates, num_speakers) = relabel_rows(&rows, &turns);
    assert_eq!(num_speakers, 2);
    // clusters are numbered by first appearance: 4 -> 1, 7 -> 2
    assert_eq!(updates, vec![("r3".to_string(), "speaker:2".to_string())]);
}

#[test]
fn relabel_numbers_by_first_appearance_not_cluster_id() {
    let rows = vec![
        row("a", 0.0, 5.0, Some("mic")),
        row("b", 5.0, 10.0, Some("system")),
        row("c", 10.0, 15.0, Some("system")),
    ];
    // the local user is cluster 1; cluster 3 speaks before cluster 0
    let turns = vec![turn(0.0, 5.0, 1), turn(5.0, 10.0, 3), turn(10.0, 15.0, 0)];
    let (updates, num_speakers) = relabel_rows(&rows, &turns);
    assert_eq!(num_speakers, 2);
    assert_eq!(
        updates,
        vec![
            ("b".to_string(), "system:1".to_string()),
            ("c".to_string(), "system:2".to_string()),
        ]
    );
}

#[test]
fn relabel_dominant_cluster_wins_the_row() {
    let rows = vec![row("r1", 0.0, 10.0, None), row("r2", 10.0, 20.0, None)];
    // r1 holds 3 s of cluster 0 and 7 s of cluster 1
    let turns = vec![turn(0.0, 3.0, 0), turn(3.0, 10.0, 1), turn(10.0, 20.0, 0)];
    let (updates, num_speakers) = relabel_rows(&rows, &turns);
    assert_eq!(num_speakers, 2);
    assert_eq!(
        updates,
        vec![
            ("r1".to_string(), "speaker:2".to_string()),
            ("r2".to_string(), "speaker:1".to_string()),
        ]
    );
}

#[test]
fn overlap_of_ranges() {
    assert_eq!(overlap(0, 10, 5, 20), 5);
    assert_eq!(overlap(0, 10, 10, 20), 0);
    assert_eq!(overlap(5, 6, 0, 100), 1);
    assert_eq!(overlap(30, 40, 0, 10), 0);
}

#[test]
fn gate_admits_one_job_at_a_time() {
    let mut gate = JobGate::new();
    assert!(gate.try_begin().is_ok());
    assert_eq!(gate.try_begin(), Err(JOB_BUSY_MESSAGE.to_string()));
    assert_eq!(JOB_BUSY_MESSAGE, "Speaker detection already in progress");
    gate.finish();
    assert!(gate.try_begin().is_ok());
}

#[test]
fn missing_models_lists_only_absent_files() {
    assert!(missing_models(true, true).is_empty());
    let both = missing_models(false, false);
    assert_eq!(both.len(), 2);
    assert_eq!(both[0].file_name, SEGMENTATION_MODEL_FILE);
    assert_eq!(both[0].url, SEGMENTATION_MODEL_URL);
    assert_eq!(both[0].progress_percentage, 5);
    assert_eq!(both[0].message, "Downloading segmentation model (6MB)...");
    assert_eq!(both[1].file_name, EMBEDDING_MODEL_FILE);
    assert_eq!(both[1].url, EMBEDDING_MODEL_URL);
    assert_eq!(both[1].progress_percentage, 10);
    let one = missing_models(true, false);
    assert_eq!(one.len(), 1);
    assert_eq!(one[0].message, "Downloading speaker embedding model (38MB)...");
}

#[test]
fn model_download_error_names_status_and_url() {
    assert_eq!(
        model_download_error("404 Not Found", "https://x/model.onnx"),
        "Model download failed with HTTP 404 Not Found: https://x/model.onnx"
    );
}

#[test]
fn job_runs_through_all_steps() {
    let mut job = MeetingJob::new("m1".to_string());
    assert_eq!(job.current_phase(), JobPhase::LoadFolder);
    assert!(matches!(job.step(JobEvent::FolderFound(Some("/data/m1".to_string()))), Some(JobAction::LoadRows)));
    let rows = vec![
        row("r1", 0.0, 10.0, Some("mic")),
        row("r2", 10.0, 20.0, Some("system")),
        row("r3", 20.0, 30.0, Some("system")),
    ];
    assert!(matches!(job.step(JobEvent::RowsLoaded(rows)), Some(JobAction::PrepareModels)));
    match job.step(JobEvent::ModelsReady) {
        Some(JobAction::DecodeAudio { folder, progress }) => {
            assert_eq!(folder, "/data/m1");
            assert_eq!(progress.meeting_id, "m1");
            assert_eq!(progress.stage, "decoding");
            assert_eq!(progress.progress_percentage, 20);
            assert_eq!(progress.message, "Decoding meeting audio...");
        }
        _ => panic!("expected decoding"),
    }
    match job.step(JobEvent::AudioDecoded) {
        Some(JobAction::Diarize { progress }) => {
            assert_eq!(progress.stage, "diarizing");
            assert_eq!(progress.progress_percentage, 40);
            assert_eq!(progress.message, "Detecting speakers...");
        }
        _ => panic!("expected diarizing"),
    }
    let turns = vec![turn(0.0, 10.0, 0), turn(10.0, 20.0, 1), turn(20.0, 30.0, 2)];
    match job.step(JobEvent::TurnsFound(turns)) {
        Some(JobAction::SaveLabels { updates, progress }) => {
            assert_eq!(
                updates,
                vec![
                    ("r2".to_string(), "system:1".to_string()),
                    ("r3".to_string(), "system:2".to_string()),
                ]
            );
            assert_eq!(progress.stage, "saving");
            assert_eq!(progress.progress_percentage, 85);
            assert_eq!(progress.message, "Assigning speakers to transcript...");
        }
        _ => panic!("expected saving"),
    }
    match job.step(JobEvent::LabelsSaved) {
        Some(JobAction::Finish(result)) => {
            assert_eq!(result.meeting_id, "m1");
            assert_eq!(result.num_speakers, 2);
            assert_eq!(result.segments_updated, 2);
        }
        _ => panic!("expected the result"),
    }
    assert_eq!(job.current_phase(), JobPhase::Done);
    // an ended job ignores further reports
    assert!(job.step(JobEvent::Failed("late".to_string())).is_none());
}

#[test]
fn job_without_folder_fails() {
    let mut job = MeetingJob::new("m2".to_string());
    match job.step(JobEvent::FolderFound(None)) {
        Some(JobAction::Fail(m)) => {
            assert_eq!(m, "Meeting m2 has no folder path (no audio to diarize)")
        }
        _ => panic!("expected failure"),
    }
    assert_eq!(job.current_phase(), JobPhase::Done);
}

#[test]
fn job_without_transcripts_fails() {
    let mut job = MeetingJob::new("m3".to_string());
    job.step(JobEvent::FolderFound(Some("f".to_string())));
    match job.step(JobEvent::RowsLoaded(Vec::new())) {
        Some(JobAction::Fail(m)) => assert_eq!(m, "Meeting m3 has no transcripts"),
        _ => panic!("expected failure"),
    }
}

#[test]
fn job_failed_step_ends_with_its_message_and_stray_events_are_ignored() {
    let mut job = MeetingJob::new("m4".to_string());
    // a report for another phase changes nothing
    assert!(job.step(JobEvent::ModelsReady).is_none());
    assert_eq!(job.current_phase(), JobPhase::LoadFolder);
    match job.step(JobEvent::Failed("database is locked".to_string())) {
        Some(JobAction::Fail(m)) => assert_eq!(m, "database is locked"),
        _ => panic!("expected failure"),
    }
    assert_eq!(job.current_phase(), JobPhase::Done);
}

#[test]
fn rows_dominated_by_the_local_user_keep_their_label() {
    let rows = vec![
        row("r1", 0.0, 10.0, Some("mic")),
        row("r2", 10.0, 20.0, Some("system")),
        row("r3", 20.0, 30.0, Some("system")),
        row("r4", 30.0, 40.0, Some("system")),
        row("r5", 50.0, 60.0, Some("system")),
    ];
    // cluster 0 is the user (10 s of its 15 s inside the mic row) and echoes into r2
    let turns = vec![
        turn(0.0, 10.0, 0),
        turn(10.0, 15.0, 0),
        turn(15.0, 17.0, 1),
        turn(17.0, 20.0, 2),
        turn(20.0, 30.0, 1),
        turn(30.0, 40.0, 2),
    ];
    let (updates, num_speakers) = relabel_rows(&rows, &turns);
    assert_eq!(num_speakers, 2);
    // r2 is the user's echo and r5 has no diarized speech: both keep "system"
    assert_eq!(
        updates,
        vec![
            ("r3".to_string(), "system:1".to_string()),
            ("r4".to_string(), "system:2".to_string()),
        ]
    );
}
