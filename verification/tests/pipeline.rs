use lala_pipeline::commands::{cancel_processing, upload_file};
use lala_pipeline::models::{Asset, AssetType, ProcessingStatus, Stage};
use lala_pipeline::planner::{process_to_stage, RequestError};
use lala_pipeline::store::Store;
use lala_pipeline::worker::{
    claim_next_job, handle_job_failure, handle_job_success, job_inputs,
    record_separation_outputs, JobError, JobInputs,
};

fn upload(store: &mut Store, fid: &str) {
    upload_file(
        store,
        fid,
        "song.wav",
        &format!("/data/processing-files/{}/original.wav", fid),
    )
    .unwrap();
}

fn count_with(assets: &[Asset], kind: AssetType, status: ProcessingStatus) -> usize {
    assets
        .iter()
        .filter(|a| a.asset_type == kind && a.status == status)
        .count()
}

/// At most one queued-or-processing asset per file.
fn assert_single_active(store: &Store, fid: &str) {
    let active = store
        .get_assets_by_file(fid)
        .iter()
        .filter(|a| {
            matches!(
                a.status,
                ProcessingStatus::Queued | ProcessingStatus::Processing
            )
        })
        .count();
    assert!(active <= 1, "file {} has {} active assets", fid, active);
}

/// Runs one worker iteration with every external operation succeeding.
/// Returns whether a job was found.
fn run_one_job(store: &mut Store) -> bool {
    let claimed = match claim_next_job(store) {
        None => return false,
        Some(a) => a,
    };
    assert_eq!(claimed.status, ProcessingStatus::Processing);
    match job_inputs(store, &claimed).unwrap() {
        JobInputs::Separate { input_path, output_dir } => {
            assert!(input_path.starts_with(&output_dir));
            let outputs: Vec<(String, String)> = ["drums", "bass", "other", "vocals"]
                .iter()
                .map(|n| (n.to_string(), format!("{}/stem_{}.wav", output_dir, n)))
                .collect();
            record_separation_outputs(store, &claimed, &outputs).unwrap();
        }
        JobInputs::Transcribe { .. } => {}
        JobInputs::Render { .. } => {}
        JobInputs::NoOp => {}
    }
    handle_job_success(store, &claimed.id);
    true
}

#[test]
fn upload_registers_completed_original() {
    let mut store = Store::new();
    upload(&mut store, "f1");
    let assets = store.get_assets_by_file("f1");
    assert_eq!(assets.len(), 1);
    assert_eq!(assets[0].asset_type, AssetType::Original);
    assert_eq!(assets[0].status, ProcessingStatus::Completed);
    assert_eq!(assets[0].parent_asset_id, None);
    assert_eq!(assets[0].file_path, "/data/processing-files/f1/original.wav");
    assert_eq!(store.get_target_stage("f1"), None);
}

#[test]
fn invalid_stage_is_rejected_without_side_effects() {
    let mut store = Store::new();
    upload(&mut store, "f1");
    assert_eq!(
        process_to_stage(&mut store, "f1", "wav"),
        Err(RequestError::InvalidStage)
    );
    assert_eq!(store.get_target_stage("f1"), None);
    assert_eq!(store.get_assets_by_file("f1").len(), 1);
}

#[test]
fn request_without_original_is_rejected() {
    let mut store = Store::new();
    store.create_file("f1".to_string(), "a.wav".to_string()).unwrap();
    assert_eq!(
        process_to_stage(&mut store, "f1", "pdf"),
        Err(RequestError::NoOriginal)
    );
    assert_eq!(store.get_target_stage("f1"), None);
    // a file that does not exist at all is rejected the same way
    assert_eq!(
        process_to_stage(&mut store, "ghost", "pdf"),
        Err(RequestError::NoOriginal)
    );
}

#[test]
fn pdf_request_on_bare_original_requeues_only_the_original() {
    let mut store = Store::new();
    upload(&mut store, "f1");
    process_to_stage(&mut store, "f1", "pdf").unwrap();
    let assets = store.get_assets_by_file("f1");
    // exactly one asset, the original, now queued for separation: no midi
    // or pdf asset exists before its prerequisite does
    assert_eq!(assets.len(), 1);
    assert_eq!(assets[0].asset_type, AssetType::Original);
    assert_eq!(assets[0].status, ProcessingStatus::Queued);
    assert_eq!(store.get_target_stage("f1"), Some(Stage::Pdf));
    assert_single_active(&store, "f1");
}

#[test]
fn requesting_twice_enqueues_nothing_more() {
    let mut store = Store::new();
    upload(&mut store, "f1");
    process_to_stage(&mut store, "f1", "pdf").unwrap();
    let before = store.get_assets_by_file("f1");
    // the first request enqueued work, so the second is turned away
    assert_eq!(
        process_to_stage(&mut store, "f1", "pdf"),
        Err(RequestError::AlreadyInFlight)
    );
    let after = store.get_assets_by_file("f1");
    assert_eq!(before.len(), after.len());
    for (b, a) in before.iter().zip(after.iter()) {
        assert_eq!(b.id, a.id);
        assert_eq!(b.status, a.status);
    }
    assert_eq!(store.get_target_stage("f1"), Some(Stage::Pdf));
}

#[test]
fn requesting_a_reached_stage_twice_is_idempotent() {
    let mut store = Store::new();
    upload(&mut store, "f1");
    process_to_stage(&mut store, "f1", "stems").unwrap();
    assert!(run_one_job(&mut store));
    // stems are complete and the target was cleared by the continuation
    assert_eq!(store.get_target_stage("f1"), None);
    let n = store.get_assets_by_file("f1").len();
    // both requests find the target satisfied and enqueue nothing
    process_to_stage(&mut store, "f1", "stems").unwrap();
    process_to_stage(&mut store, "f1", "stems").unwrap();
    assert_eq!(store.get_assets_by_file("f1").len(), n);
    assert!(store.get_next_queued_asset().is_none());
    assert_eq!(store.get_target_stage("f1"), Some(Stage::Stems));
}

#[test]
fn pipeline_runs_to_pdf_end_to_end() {
    let mut store = Store::new();
    upload(&mut store, "f1");
    process_to_stage(&mut store, "f1", "pdf").unwrap();

    // separation job
    assert!(run_one_job(&mut store));
    assert_single_active(&store, "f1");
    let assets = store.get_assets_by_file("f1");
    assert_eq!(count_with(&assets, AssetType::Original, ProcessingStatus::Completed), 1);
    assert_eq!(count_with(&assets, AssetType::StemPiano, ProcessingStatus::Completed), 1);
    assert_eq!(count_with(&assets, AssetType::StemVocals, ProcessingStatus::Completed), 1);
    assert_eq!(count_with(&assets, AssetType::StemDrums, ProcessingStatus::Completed), 1);
    assert_eq!(count_with(&assets, AssetType::StemBass, ProcessingStatus::Completed), 1);
    // the continuation created the midi job, parented to the piano stem
    let piano = assets.iter().find(|a| a.asset_type == AssetType::StemPiano).unwrap();
    let midi = assets.iter().find(|a| a.asset_type == AssetType::Midi).unwrap();
    assert_eq!(midi.status, ProcessingStatus::Queued);
    assert_eq!(midi.parent_asset_id.as_deref(), Some(piano.id.as_str()));
    assert_eq!(midi.file_path, "/data/processing-files/f1/stem_piano.midi");

    // transcription job
    assert!(run_one_job(&mut store));
    assert_single_active(&store, "f1");
    let assets = store.get_assets_by_file("f1");
    let midi = assets.iter().find(|a| a.asset_type == AssetType::Midi).unwrap();
    let pdf = assets.iter().find(|a| a.asset_type == AssetType::Pdf).unwrap();
    assert_eq!(midi.status, ProcessingStatus::Completed);
    assert_eq!(pdf.status, ProcessingStatus::Queued);
    assert_eq!(pdf.parent_asset_id.as_deref(), Some(midi.id.as_str()));
    assert_eq!(pdf.file_path, "/data/processing-files/f1/stem_piano.pdf");

    // rendering job; afterwards the target is reached and cleared
    assert!(run_one_job(&mut store));
    let assets = store.get_assets_by_file("f1");
    assert_eq!(assets.len(), 7);
    for kind in [
        AssetType::Original,
        AssetType::StemPiano,
        AssetType::StemVocals,
        AssetType::StemDrums,
        AssetType::StemBass,
        AssetType::Midi,
        AssetType::Pdf,
    ] {
        assert_eq!(count_with(&assets, kind, ProcessingStatus::Completed), 1);
    }
    assert_eq!(store.get_target_stage("f1"), None);
    assert!(store.get_next_queued_asset().is_none());
    assert!(!run_one_job(&mut store));
}

#[test]
fn failed_transcription_halts_the_chain() {
    let mut store = Store::new();
    upload(&mut store, "f1");
    process_to_stage(&mut store, "f1", "pdf").unwrap();
    assert!(run_one_job(&mut store));

    // the midi job fails instead of succeeding
    let claimed = claim_next_job(&mut store).unwrap();
    assert_eq!(claimed.asset_type, AssetType::Midi);
    match job_inputs(&store, &claimed).unwrap() {
        JobInputs::Transcribe { .. } => {}
        other => panic!("expected a transcription job, got {:?}", other),
    }
    handle_job_failure(&mut store, &claimed.id, "transcription failed".to_string());

    let assets = store.get_assets_by_file("f1");
    let midi = assets.iter().find(|a| a.asset_type == AssetType::Midi).unwrap();
    assert_eq!(midi.status, ProcessingStatus::Failed);
    assert_eq!(midi.error_message.as_deref(), Some("transcription failed"));
    // no pdf asset was ever created, and the standing goal is cleared
    assert!(assets.iter().all(|a| a.asset_type != AssetType::Pdf));
    assert_eq!(store.get_target_stage("f1"), None);
    assert!(store.get_next_queued_asset().is_none());

    // a new request re-queues the existing failed midi rather than
    // creating a duplicate
    let n = assets.len();
    process_to_stage(&mut store, "f1", "pdf").unwrap();
    let assets = store.get_assets_by_file("f1");
    assert_eq!(assets.len(), n);
    let requeued = assets.iter().find(|a| a.asset_type == AssetType::Midi).unwrap();
    assert_eq!(requeued.id, midi.id);
    assert_eq!(requeued.status, ProcessingStatus::Queued);
    assert_eq!(requeued.error_message, None);
    assert_single_active(&store, "f1");
}

#[test]
fn recovery_requeues_interrupted_job_once() {
    let mut store = Store::new();
    upload(&mut store, "f1");
    process_to_stage(&mut store, "f1", "stems").unwrap();
    let claimed = claim_next_job(&mut store).unwrap();
    assert_eq!(claimed.status, ProcessingStatus::Processing);
    // the process stops here; at the next startup the job is recovered
    assert_eq!(store.reset_interrupted_jobs(), 1);
    assert_eq!(
        store.get_asset(&claimed.id).unwrap().status,
        ProcessingStatus::Queued
    );
    assert_eq!(store.reset_interrupted_jobs(), 0);
    assert_single_active(&store, "f1");
}

#[test]
fn cancel_during_processing_marks_cancelled_and_late_success_is_ignored() {
    let mut store = Store::new();
    upload(&mut store, "f1");
    process_to_stage(&mut store, "f1", "pdf").unwrap();
    let claimed = claim_next_job(&mut store).unwrap();
    cancel_processing(&mut store, "f1");
    assert_eq!(store.get_target_stage("f1"), None);
    assert_eq!(
        store.get_asset(&claimed.id).unwrap().status,
        ProcessingStatus::Cancelled
    );
    // the operation finishes after the cancellation: the late report must
    // not overwrite the cancelled status, and nothing new is enqueued
    handle_job_success(&mut store, &claimed.id);
    assert_eq!(
        store.get_asset(&claimed.id).unwrap().status,
        ProcessingStatus::Cancelled
    );
    assert!(store.get_next_queued_asset().is_none());
    // a late failure report is ignored the same way
    handle_job_failure(&mut store, &claimed.id, "too late".to_string());
    assert_eq!(
        store.get_asset(&claimed.id).unwrap().status,
        ProcessingStatus::Cancelled
    );
}

#[test]
fn cancel_while_queued_deletes_the_job() {
    let mut store = Store::new();
    upload(&mut store, "f1");
    process_to_stage(&mut store, "f1", "stems").unwrap();
    let queued = store.get_next_queued_asset().unwrap();
    cancel_processing(&mut store, "f1");
    // the original asset had been re-queued in place, so cancelling while
    // queued deletes that row outright
    assert!(store.get_asset(&queued.id).is_none());
    assert_eq!(store.get_target_stage("f1"), None);
}

#[test]
fn midi_request_stops_at_midi() {
    let mut store = Store::new();
    upload(&mut store, "f1");
    process_to_stage(&mut store, "f1", "midi").unwrap();
    assert!(run_one_job(&mut store));
    assert!(run_one_job(&mut store));
    let assets = store.get_assets_by_file("f1");
    assert_eq!(count_with(&assets, AssetType::Midi, ProcessingStatus::Completed), 1);
    assert!(assets.iter().all(|a| a.asset_type != AssetType::Pdf));
    assert_eq!(store.get_target_stage("f1"), None);
    assert!(store.get_next_queued_asset().is_none());
}

#[test]
fn jobs_of_two_files_are_served_oldest_first() {
    let mut store = Store::new();
    upload(&mut store, "f1");
    upload(&mut store, "f2");
    process_to_stage(&mut store, "f1", "stems").unwrap();
    process_to_stage(&mut store, "f2", "stems").unwrap();
    let first = claim_next_job(&mut store).unwrap();
    assert_eq!(first.file_id, "f1");
    handle_job_failure(&mut store, &first.id, "boom".to_string());
    let second = claim_next_job(&mut store).unwrap();
    assert_eq!(second.file_id, "f2");
    assert_single_active(&store, "f1");
    assert_single_active(&store, "f2");
}

#[test]
fn job_inputs_reports_missing_parents() {
    let mut store = Store::new();
    store.create_file("f1".to_string(), "a.wav".to_string()).unwrap();
    store
        .create_asset(
            "m1".to_string(),
            "f1".to_string(),
            None,
            AssetType::Midi,
            "/data/f1/stem_piano.midi".to_string(),
            ProcessingStatus::Queued,
        )
        .unwrap();
    let midi = store.get_asset("m1").unwrap();
    assert_eq!(job_inputs(&store, &midi).unwrap_err(), JobError::NoParent);
    // a recorded parent that no longer exists is reported too
    let mut dangling = midi.clone();
    dangling.parent_asset_id = Some("gone".to_string());
    assert_eq!(
        job_inputs(&store, &dangling).unwrap_err(),
        JobError::ParentMissing
    );
    assert_eq!(JobError::NoParent.message(), "asset has no parent");
    assert_eq!(JobError::ParentMissing.message(), "parent asset not found");
}

#[test]
fn separation_outputs_skip_unknown_stem_names() {
    let mut store = Store::new();
    upload(&mut store, "f1");
    let original = store.get_assets_by_file("f1").remove(0);
    let outputs = vec![
        ("other".to_string(), "/data/f1/stem_other.wav".to_string()),
        ("noise".to_string(), "/data/f1/stem_noise.wav".to_string()),
        ("bass".to_string(), "/data/f1/stem_bass.wav".to_string()),
    ];
    record_separation_outputs(&mut store, &original, &outputs).unwrap();
    let assets = store.get_assets_by_file("f1");
    assert_eq!(assets.len(), 3);
    assert_eq!(count_with(&assets, AssetType::StemPiano, ProcessingStatus::Completed), 1);
    assert_eq!(count_with(&assets, AssetType::StemBass, ProcessingStatus::Completed), 1);
    for stem in assets.iter().filter(|a| a.asset_type != AssetType::Original) {
        assert_eq!(stem.parent_asset_id.as_deref(), Some(original.id.as_str()));
    }
}

#[test]
fn duplicate_upload_is_rejected() {
    let mut store = Store::new();
    upload(&mut store, "f1");
    assert!(upload_file(&mut store, "f1", "song.wav", "/data/f1/original.wav").is_err());
}

#[test]
fn progress_payload_carries_kind_and_percent() {
    let mut store = Store::new();
    upload(&mut store, "f1");
    let original = store.get_assets_by_file("f1").remove(0);
    let p = lala_pipeline::worker::progress_payload("processing", &original, Some(0));
    assert_eq!(p.title, "processing");
    assert_eq!(p.description, "original");
    assert_eq!(p.progress, Some(0));
    let done = lala_pipeline::worker::progress_payload("completed", &original, Some(100));
    assert_eq!(done.progress, Some(100));
}

#[test]
fn request_error_messages_are_stable() {
    assert_eq!(RequestError::InvalidStage.message(), "invalid target stage");
    assert_eq!(
        RequestError::AlreadyInFlight.message(),
        "file already has processing in progress"
    );
    assert_eq!(RequestError::NoOriginal.message(), "no original file found");
    assert_eq!(RequestError::IdCollision.message(), "id already in use");
}
