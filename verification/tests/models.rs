use lala_pipeline::models::{AssetType, LoadingState, ProcessingStatus, Stage};

#[test]
fn status_to_string_gives_store_names() {
    assert_eq!(ProcessingStatus::Queued.to_string(), "queued");
    assert_eq!(ProcessingStatus::Processing.to_string(), "processing");
    assert_eq!(ProcessingStatus::Completed.to_string(), "completed");
    assert_eq!(ProcessingStatus::Failed.to_string(), "failed");
    assert_eq!(ProcessingStatus::Cancelled.to_string(), "cancelled");
}

#[test]
fn status_round_trips_through_strings() {
    let all = [
        ProcessingStatus::Queued,
        ProcessingStatus::Processing,
        ProcessingStatus::Completed,
        ProcessingStatus::Failed,
        ProcessingStatus::Cancelled,
    ];
    for s in all {
        assert_eq!(ProcessingStatus::from_string(&s.to_string()), s);
    }
}

#[test]
fn unknown_status_name_decodes_to_failed() {
    assert_eq!(
        ProcessingStatus::from_string("nonsense"),
        ProcessingStatus::Failed
    );
    assert_eq!(ProcessingStatus::from_string(""), ProcessingStatus::Failed);
}

#[test]
fn asset_type_to_string_gives_store_names() {
    assert_eq!(AssetType::Original.to_string(), "original");
    assert_eq!(AssetType::StemPiano.to_string(), "stem_piano");
    assert_eq!(AssetType::StemVocals.to_string(), "stem_vocals");
    assert_eq!(AssetType::StemDrums.to_string(), "stem_drums");
    assert_eq!(AssetType::StemBass.to_string(), "stem_bass");
    assert_eq!(AssetType::Midi.to_string(), "midi");
    assert_eq!(AssetType::Pdf.to_string(), "pdf");
}

#[test]
fn asset_type_round_trips_through_strings() {
    let all = [
        AssetType::Original,
        AssetType::StemPiano,
        AssetType::StemVocals,
        AssetType::StemDrums,
        AssetType::StemBass,
        AssetType::Midi,
        AssetType::Pdf,
    ];
    for t in all {
        assert_eq!(AssetType::from_string(&t.to_string()), t);
    }
}

#[test]
fn unknown_asset_type_name_decodes_to_original() {
    assert_eq!(AssetType::from_string("something"), AssetType::Original);
    assert_eq!(AssetType::from_string(""), AssetType::Original);
}

#[test]
fn stage_names_parse_and_print() {
    assert_eq!(Stage::from_string("stems"), Some(Stage::Stems));
    assert_eq!(Stage::from_string("midi"), Some(Stage::Midi));
    assert_eq!(Stage::from_string("pdf"), Some(Stage::Pdf));
    assert_eq!(Stage::from_string("wav"), None);
    assert_eq!(Stage::from_string(""), None);
    assert_eq!(Stage::Stems.to_string(), "stems");
    assert_eq!(Stage::Midi.to_string(), "midi");
    assert_eq!(Stage::Pdf.to_string(), "pdf");
}

#[test]
fn loading_state_clones_field_for_field() {
    let s = LoadingState {
        title: "processing audio...".to_string(),
        description: "running separation inference".to_string(),
        progress: Some(40),
    };
    let c = s.clone();
    assert_eq!(c.title, s.title);
    assert_eq!(c.description, s.description);
    assert_eq!(c.progress, Some(40));
}

#[test]
fn config_limits_wav_uploads() {
    let cfg = lala_pipeline::config::get_app_config();
    assert_eq!(cfg.file_upload.max_file_size_mb, 500);
    assert_eq!(cfg.file_upload.max_upload_time_sec, 300);
    assert_eq!(cfg.file_upload.permitted_file_extensions, [".wav"]);
}

use lala_pipeline::util::{join_under, parent_dir, str_eq};

#[test]
fn string_helpers_behave() {
    assert!(str_eq("abc", "abc"));
    assert!(!str_eq("abc", "abd"));
    assert!(!str_eq("abc", "ab"));
    assert!(str_eq("", ""));
    assert_eq!(parent_dir("/data/f1/original.wav"), "/data/f1");
    assert_eq!(parent_dir("original.wav"), "");
    assert_eq!(parent_dir("/original.wav"), "");
    assert_eq!(join_under("/data/f1", "stem_piano.midi"), "/data/f1/stem_piano.midi");
}
