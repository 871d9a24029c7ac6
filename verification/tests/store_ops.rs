use lala_pipeline::models::{Asset, AssetType, ProcessingStatus, Stage};
use lala_pipeline::store::{Store, StoreError};

fn assets_of(store: &Store, fid: &str) -> Vec<Asset> {
    store.get_assets_by_file(fid)
}

#[test]
fn empty_store_has_nothing() {
    let mut store = Store::new();
    assert!(store.get_all_files().is_empty());
    assert!(store.get_assets_by_file("f1").is_empty());
    assert!(store.get_next_queued_asset().is_none());
    assert_eq!(store.reset_interrupted_jobs(), 0);
    assert!(store.get_asset("a1").is_none());
}

#[test]
fn create_file_rejects_duplicate_ids() {
    let mut store = Store::new();
    assert!(store.create_file("f1".to_string(), "a.wav".to_string()).is_ok());
    assert_eq!(
        store.create_file("f1".to_string(), "b.wav".to_string()),
        Err(StoreError::DuplicateId)
    );
    assert_eq!(store.get_all_files().len(), 1);
}

#[test]
fn create_asset_checks_file_parent_and_id() {
    let mut store = Store::new();
    store.create_file("f1".to_string(), "a.wav".to_string()).unwrap();
    assert_eq!(
        store.create_asset(
            "a1".to_string(),
            "ghost".to_string(),
            None,
            AssetType::Original,
            "/p".to_string(),
            ProcessingStatus::Completed,
        ),
        Err(StoreError::UnknownFile)
    );
    assert!(store
        .create_asset(
            "a1".to_string(),
            "f1".to_string(),
            None,
            AssetType::Original,
            "/p".to_string(),
            ProcessingStatus::Completed,
        )
        .is_ok());
    assert_eq!(
        store.create_asset(
            "a1".to_string(),
            "f1".to_string(),
            None,
            AssetType::Midi,
            "/q".to_string(),
            ProcessingStatus::Queued,
        ),
        Err(StoreError::DuplicateId)
    );
    assert_eq!(
        store.create_asset(
            "a2".to_string(),
            "f1".to_string(),
            Some("missing".to_string()),
            AssetType::Midi,
            "/q".to_string(),
            ProcessingStatus::Queued,
        ),
        Err(StoreError::BadParent)
    );
    assert!(store
        .create_asset(
            "a2".to_string(),
            "f1".to_string(),
            Some("a1".to_string()),
            AssetType::Midi,
            "/q".to_string(),
            ProcessingStatus::Queued,
        )
        .is_ok());
    // a parent belonging to another file is refused
    store.create_file("f2".to_string(), "b.wav".to_string()).unwrap();
    assert_eq!(
        store.create_asset(
            "b1".to_string(),
            "f2".to_string(),
            Some("a1".to_string()),
            AssetType::Midi,
            "/r".to_string(),
            ProcessingStatus::Queued,
        ),
        Err(StoreError::BadParent)
    );
}

#[test]
fn next_queued_asset_is_global_fifo() {
    let mut store = Store::new();
    store.create_file("f1".to_string(), "a.wav".to_string()).unwrap();
    store.create_file("f2".to_string(), "b.wav".to_string()).unwrap();
    assert!(store.get_next_queued_asset().is_none());
    store
        .create_asset(
            "a1".to_string(),
            "f1".to_string(),
            None,
            AssetType::Original,
            "/p1".to_string(),
            ProcessingStatus::Completed,
        )
        .unwrap();
    store
        .create_asset(
            "q1".to_string(),
            "f1".to_string(),
            None,
            AssetType::Original,
            "/p2".to_string(),
            ProcessingStatus::Queued,
        )
        .unwrap();
    store
        .create_asset(
            "q2".to_string(),
            "f2".to_string(),
            None,
            AssetType::Original,
            "/p3".to_string(),
            ProcessingStatus::Queued,
        )
        .unwrap();
    let next = store.get_next_queued_asset().unwrap();
    assert_eq!(next.id, "q1");
    // completing the oldest moves the cursor to the next file's job
    store.update_asset_status("q1", ProcessingStatus::Completed, None);
    let next = store.get_next_queued_asset().unwrap();
    assert_eq!(next.id, "q2");
}

#[test]
fn update_asset_status_sets_status_and_message() {
    let mut store = Store::new();
    store.create_file("f1".to_string(), "a.wav".to_string()).unwrap();
    store
        .create_asset(
            "a1".to_string(),
            "f1".to_string(),
            None,
            AssetType::Original,
            "/p".to_string(),
            ProcessingStatus::Queued,
        )
        .unwrap();
    store.update_asset_status("a1", ProcessingStatus::Failed, Some("boom".to_string()));
    let a = store.get_asset("a1").unwrap();
    assert_eq!(a.status, ProcessingStatus::Failed);
    assert_eq!(a.error_message.as_deref(), Some("boom"));
    // updating an absent asset changes nothing
    store.update_asset_status("ghost", ProcessingStatus::Completed, None);
    assert!(store.get_asset("ghost").is_none());
}

#[test]
fn get_all_files_lists_most_recent_first() {
    let mut store = Store::new();
    store.create_file("f1".to_string(), "a.wav".to_string()).unwrap();
    store.create_file("f2".to_string(), "b.wav".to_string()).unwrap();
    store.create_file("f3".to_string(), "c.wav".to_string()).unwrap();
    let files = store.get_all_files();
    let ids: Vec<&str> = files.iter().map(|f| f.id.as_str()).collect();
    assert_eq!(ids, ["f3", "f2", "f1"]);
}

#[test]
fn reset_interrupted_jobs_requeues_processing_assets() {
    let mut store = Store::new();
    store.create_file("f1".to_string(), "a.wav".to_string()).unwrap();
    store
        .create_asset(
            "a1".to_string(),
            "f1".to_string(),
            None,
            AssetType::Original,
            "/p".to_string(),
            ProcessingStatus::Processing,
        )
        .unwrap();
    store
        .create_asset(
            "a2".to_string(),
            "f1".to_string(),
            None,
            AssetType::Midi,
            "/q".to_string(),
            ProcessingStatus::Completed,
        )
        .unwrap();
    assert_eq!(store.reset_interrupted_jobs(), 1);
    assert_eq!(store.get_asset("a1").unwrap().status, ProcessingStatus::Queued);
    assert_eq!(store.get_asset("a2").unwrap().status, ProcessingStatus::Completed);
    // a second pass finds nothing left to move
    assert_eq!(store.reset_interrupted_jobs(), 0);
}

#[test]
fn cancel_deletes_queued_and_cancels_processing() {
    let mut store = Store::new();
    store.create_file("f1".to_string(), "a.wav".to_string()).unwrap();
    for (id, status) in [
        ("aq", ProcessingStatus::Queued),
        ("ap", ProcessingStatus::Processing),
        ("ac", ProcessingStatus::Completed),
        ("af", ProcessingStatus::Failed),
    ] {
        store
            .create_asset(
                id.to_string(),
                "f1".to_string(),
                None,
                AssetType::Original,
                "/p".to_string(),
                status,
            )
            .unwrap();
    }
    store.cancel_file_processing("f1");
    assert!(store.get_asset("aq").is_none());
    assert_eq!(store.get_asset("ap").unwrap().status, ProcessingStatus::Cancelled);
    assert_eq!(store.get_asset("ac").unwrap().status, ProcessingStatus::Completed);
    assert_eq!(store.get_asset("af").unwrap().status, ProcessingStatus::Failed);
}

#[test]
fn cancel_leaves_other_files_alone() {
    let mut store = Store::new();
    store.create_file("f1".to_string(), "a.wav".to_string()).unwrap();
    store.create_file("f2".to_string(), "b.wav".to_string()).unwrap();
    store
        .create_asset(
            "q2".to_string(),
            "f2".to_string(),
            None,
            AssetType::Original,
            "/p".to_string(),
            ProcessingStatus::Queued,
        )
        .unwrap();
    store.cancel_file_processing("f1");
    assert_eq!(store.get_asset("q2").unwrap().status, ProcessingStatus::Queued);
}

#[test]
fn delete_file_removes_its_assets_only() {
    let mut store = Store::new();
    store.create_file("f1".to_string(), "a.wav".to_string()).unwrap();
    store.create_file("f2".to_string(), "b.wav".to_string()).unwrap();
    store
        .create_asset(
            "a1".to_string(),
            "f1".to_string(),
            None,
            AssetType::Original,
            "/p".to_string(),
            ProcessingStatus::Completed,
        )
        .unwrap();
    store
        .create_asset(
            "b1".to_string(),
            "f2".to_string(),
            None,
            AssetType::Original,
            "/q".to_string(),
            ProcessingStatus::Completed,
        )
        .unwrap();
    store.delete_file_and_assets("f1");
    assert!(store.get_asset("a1").is_none());
    assert!(store.get_asset("b1").is_some());
    let ids: Vec<String> = store.get_all_files().iter().map(|f| f.id.clone()).collect();
    assert_eq!(ids, ["f2"]);
    assert!(assets_of(&store, "f1").is_empty());
}

#[test]
fn target_stage_is_stored_per_file() {
    let mut store = Store::new();
    store.create_file("f1".to_string(), "a.wav".to_string()).unwrap();
    assert_eq!(store.get_target_stage("f1"), None);
    store.set_target_stage("f1", Some(Stage::Pdf));
    assert_eq!(store.get_target_stage("f1"), Some(Stage::Pdf));
    store.set_target_stage("f1", None);
    assert_eq!(store.get_target_stage("f1"), None);
    // absent files have no target and setting one is a no-op
    assert_eq!(store.get_target_stage("ghost"), None);
    store.set_target_stage("ghost", Some(Stage::Midi));
    assert_eq!(store.get_target_stage("ghost"), None);
}

#[test]
fn update_asset_parent_checks_same_file() {
    let mut store = Store::new();
    store.create_file("f1".to_string(), "a.wav".to_string()).unwrap();
    store.create_file("f2".to_string(), "b.wav".to_string()).unwrap();
    store
        .create_asset(
            "a1".to_string(),
            "f1".to_string(),
            None,
            AssetType::Original,
            "/p".to_string(),
            ProcessingStatus::Completed,
        )
        .unwrap();
    store
        .create_asset(
            "a2".to_string(),
            "f1".to_string(),
            None,
            AssetType::Midi,
            "/q".to_string(),
            ProcessingStatus::Queued,
        )
        .unwrap();
    store
        .create_asset(
            "b1".to_string(),
            "f2".to_string(),
            None,
            AssetType::Original,
            "/r".to_string(),
            ProcessingStatus::Completed,
        )
        .unwrap();
    assert!(store.update_asset_parent("a2", Some("a1".to_string())).is_ok());
    assert_eq!(store.get_asset("a2").unwrap().parent_asset_id.as_deref(), Some("a1"));
    assert_eq!(
        store.update_asset_parent("a2", Some("b1".to_string())),
        Err(StoreError::BadParent)
    );
    assert!(store.update_asset_parent("a2", None).is_ok());
    assert_eq!(store.get_asset("a2").unwrap().parent_asset_id, None);
    // updating an absent asset is a silent no-op
    assert!(store.update_asset_parent("ghost", None).is_ok());
}

#[test]
fn error_messages_are_stable() {
    assert_eq!(StoreError::DuplicateId.message(), "id already in use");
    assert_eq!(StoreError::UnknownFile.message(), "file not found");
    assert_eq!(StoreError::BadParent.message(), "parent asset not found for file");
}
