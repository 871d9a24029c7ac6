use vstd::prelude::*;
use crate::models::{Asset, AssetType, ProcessingStatus, Stage, stage_of_name};
use crate::store::{
    first_idx, lemma_first_idx, Model, Store, StoreError, store_wf, set_target_seq, requeue_seq,
    has_asset_id, has_file_id, asset_index_of, asset_id_is, valid_parent, target_of,
};
use crate::util::{str_eq, parent_dir, parent_dir_spec, join_under};
use crate::ext::fresh_id;

verus! {

/// An asset that is queued or currently being processed.
pub open spec fn is_active(a: Asset) -> bool {
    a.status is Queued || a.status is Processing
}

/// At most one queued-or-processing asset per file, across the whole
/// asset table.
pub open spec fn single_active(assets: Seq<Asset>) -> bool {
    forall|i: int, j: int|
        0 <= i < assets.len() && 0 <= j < assets.len() && i != j && is_active(
            #[trigger] assets[i],
        ) && is_active(#[trigger] assets[j]) ==> assets[i].file_id@ != assets[j].file_id@
}

pub open spec fn active_of(fid: Seq<char>) -> spec_fn(Asset) -> bool {
    |a: Asset| a.file_id@ == fid && is_active(a)
}

pub open spec fn kind_of(fid: Seq<char>, kind: AssetType) -> spec_fn(Asset) -> bool {
    |a: Asset| a.file_id@ == fid && a.asset_type == kind
}

pub open spec fn completed_of(fid: Seq<char>, kind: AssetType) -> spec_fn(Asset) -> bool {
    |a: Asset| a.file_id@ == fid && a.asset_type == kind && a.status is Completed
}

/// The file has an asset that is queued or processing.
pub open spec fn has_active(assets: Seq<Asset>, fid: Seq<char>) -> bool {
    exists|i: int| 0 <= i < assets.len() && (active_of(fid))(#[trigger] assets[i])
}

/// The file has an asset of the given kind, in any state.
pub open spec fn has_kind(assets: Seq<Asset>, fid: Seq<char>, kind: AssetType) -> bool {
    exists|i: int| 0 <= i < assets.len() && (kind_of(fid, kind))(#[trigger] assets[i])
}

/// The file has a completed asset of the given kind.
pub open spec fn has_completed(assets: Seq<Asset>, fid: Seq<char>, kind: AssetType) -> bool {
    exists|i: int| 0 <= i < assets.len() && (completed_of(fid, kind))(#[trigger] assets[i])
}

/// What the planner decides to do next for one file and one target stage.
#[derive(Debug, Clone, Copy, PartialEq, Eq, Structural)]
pub enum Plan {
    /// The file already has queued or processing work; nothing may be
    /// enqueued.
    InFlight,
    /// The file has no original asset at all; the request is rejected.
    NoOriginal,
    /// Re-queue the existing asset at this position of the asset table.
    Requeue { idx: usize },
    /// Create one new queued asset of this kind, parented to the asset at
    /// `parent_idx`.
    Create { kind: AssetType, parent_idx: usize },
    /// The target stage is already reached; nothing to enqueue.
    Satisfied,
}

/// The stage-advancement decision: strict stage order stems, then midi,
/// then pdf. The job for the earliest incomplete stage is enqueued — an
/// existing asset is re-queued in place, a missing one is created queued,
/// parented to its immediate prerequisite. Nothing is ever created before
/// its prerequisite stage is complete.
pub open spec fn plan_spec(assets: Seq<Asset>, fid: Seq<char>, target: Stage) -> Plan {
    if has_active(assets, fid) {
        Plan::InFlight
    } else if !has_kind(assets, fid, AssetType::Original) {
        Plan::NoOriginal
    } else if !has_completed(assets, fid, AssetType::StemPiano) {
        Plan::Requeue { idx: first_idx(assets, kind_of(fid, AssetType::Original)) as usize }
    } else if target is Stems {
        Plan::Satisfied
    } else if !has_completed(assets, fid, AssetType::Midi) {
        if has_kind(assets, fid, AssetType::Midi) {
            Plan::Requeue { idx: first_idx(assets, kind_of(fid, AssetType::Midi)) as usize }
        } else {
            Plan::Create {
                kind: AssetType::Midi,
                parent_idx: first_idx(assets, completed_of(fid, AssetType::StemPiano)) as usize,
            }
        }
    } else if target is Midi {
        Plan::Satisfied
    } else if !has_completed(assets, fid, AssetType::Pdf) {
        if has_kind(assets, fid, AssetType::Pdf) {
            Plan::Requeue { idx: first_idx(assets, kind_of(fid, AssetType::Pdf)) as usize }
        } else {
            Plan::Create {
                kind: AssetType::Pdf,
                parent_idx: first_idx(assets, completed_of(fid, AssetType::Midi)) as usize,
            }
        }
    } else {
        Plan::Satisfied
    }
}

/// What each planner decision guarantees about the positions it names.
pub proof fn lemma_plan_spec_props(assets: Seq<Asset>, fid: Seq<char>, target: Stage)
    requires
        assets.len() <= usize::MAX,
    ensures
        match plan_spec(assets, fid, target) {
            Plan::InFlight => has_active(assets, fid),
            Plan::NoOriginal => !has_kind(assets, fid, AssetType::Original),
            Plan::Requeue { idx } => {
                &&& !has_active(assets, fid)
                &&& 0 <= idx < assets.len()
                &&& assets[idx as int].file_id@ == fid
                &&& !is_active(assets[idx as int])
                &&& (assets[idx as int].asset_type is Original || assets[idx as int].asset_type
                    is Midi || assets[idx as int].asset_type is Pdf)
            },
            Plan::Create { kind, parent_idx } => {
                &&& !has_active(assets, fid)
                &&& 0 <= parent_idx < assets.len()
                &&& assets[parent_idx as int].file_id@ == fid
                &&& assets[parent_idx as int].status is Completed
                &&& (kind is Midi || kind is Pdf)
                &&& !has_kind(assets, fid, kind)
            },
            Plan::Satisfied => !has_active(assets, fid),
        },
{
    if !has_active(assets, fid) && has_kind(assets, fid, AssetType::Original) {
        if !has_completed(assets, fid, AssetType::StemPiano) {
            lemma_first_idx(assets, kind_of(fid, AssetType::Original));
            let k = first_idx(assets, kind_of(fid, AssetType::Original));
            assert((kind_of(fid, AssetType::Original))(assets[k]));
            if is_active(assets[k]) {
                assert((active_of(fid))(assets[k]));
            }
        } else if target is Stems {
        } else if !has_completed(assets, fid, AssetType::Midi) {
            if has_kind(assets, fid, AssetType::Midi) {
                lemma_first_idx(assets, kind_of(fid, AssetType::Midi));
                let k = first_idx(assets, kind_of(fid, AssetType::Midi));
                assert((kind_of(fid, AssetType::Midi))(assets[k]));
                if is_active(assets[k]) {
                    assert((active_of(fid))(assets[k]));
                }
            } else {
                lemma_first_idx(assets, completed_of(fid, AssetType::StemPiano));
                let k = first_idx(assets, completed_of(fid, AssetType::StemPiano));
                assert((completed_of(fid, AssetType::StemPiano))(assets[k]));
            }
        } else if target is Midi {
        } else if !has_completed(assets, fid, AssetType::Pdf) {
            if has_kind(assets, fid, AssetType::Pdf) {
                lemma_first_idx(assets, kind_of(fid, AssetType::Pdf));
                let k = first_idx(assets, kind_of(fid, AssetType::Pdf));
                assert((kind_of(fid, AssetType::Pdf))(assets[k]));
                if is_active(assets[k]) {
                    assert((active_of(fid))(assets[k]));
                }
            } else {
                lemma_first_idx(assets, completed_of(fid, AssetType::Midi));
                let k = first_idx(assets, completed_of(fid, AssetType::Midi));
                assert((completed_of(fid, AssetType::Midi))(assets[k]));
            }
        }
    }
}

/// True when the file has queued or processing work.
fn has_active_exec(assets: &Vec<Asset>, file_id: &str) -> (r: bool)
    ensures
        r == has_active(assets@, file_id@),
{
    let mut i: usize = 0;
    while i < assets.len()
        invariant
            i <= assets@.len(),
            forall|j: int| 0 <= j < i ==> !(active_of(file_id@))(#[trigger] assets@[j]),
        decreases assets@.len() - i,
    {
        let active = matches!(assets[i].status, ProcessingStatus::Queued)
            || matches!(assets[i].status, ProcessingStatus::Processing);
        if active && str_eq(assets[i].file_id.as_str(), file_id) {
            assert((active_of(file_id@))(assets@[i as int]));
            return true;
        }
        i += 1;
    }
    false
}

/// First asset of the file with the given kind, in any state.
fn find_kind(assets: &Vec<Asset>, file_id: &str, kind: AssetType) -> (r: Option<usize>)
    ensures
        match r {
            Some(k) => has_kind(assets@, file_id@, kind) && k as int == first_idx(
                assets@,
                kind_of(file_id@, kind),
            ),
            None => !has_kind(assets@, file_id@, kind),
        },
{
    let mut i: usize = 0;
    while i < assets.len()
        invariant
            i <= assets@.len(),
            forall|j: int| 0 <= j < i ==> !(kind_of(file_id@, kind))(#[trigger] assets@[j]),
        decreases assets@.len() - i,
    {
        if assets[i].asset_type == kind && str_eq(assets[i].file_id.as_str(), file_id) {
            proof {
                assert((kind_of(file_id@, kind))(assets@[i as int]));
                lemma_first_idx(assets@, kind_of(file_id@, kind));
            }
            return Some(i);
        }
        i += 1;
    }
    None
}

/// First completed asset of the file with the given kind.
fn find_completed(assets: &Vec<Asset>, file_id: &str, kind: AssetType) -> (r: Option<usize>)
    ensures
        match r {
            Some(k) => has_completed(assets@, file_id@, kind) && k as int == first_idx(
                assets@,
                completed_of(file_id@, kind),
            ),
            None => !has_completed(assets@, file_id@, kind),
        },
{
    let mut i: usize = 0;
    while i < assets.len()
        invariant
            i <= assets@.len(),
            forall|j: int| 0 <= j < i ==> !(completed_of(file_id@, kind))(#[trigger] assets@[j]),
        decreases assets@.len() - i,
    {
        if assets[i].asset_type == kind && matches!(assets[i].status, ProcessingStatus::Completed)
            && str_eq(assets[i].file_id.as_str(), file_id) {
            proof {
                assert((completed_of(file_id@, kind))(assets@[i as int]));
                lemma_first_idx(assets@, completed_of(file_id@, kind));
            }
            return Some(i);
        }
        i += 1;
    }
    None
}

/// Computes the planner's decision for one file and one target stage.
pub fn plan_step(assets: &Vec<Asset>, file_id: &str, target: Stage) -> (p: Plan)
    ensures
        p == plan_spec(assets@, file_id@, target),
{
    if has_active_exec(assets, file_id) {
        return Plan::InFlight;
    }
    let orig_idx = match find_kind(assets, file_id, AssetType::Original) {
        Some(k) => k,
        None => {
            return Plan::NoOriginal;
        },
    };
    let piano_idx = match find_completed(assets, file_id, AssetType::StemPiano) {
        Some(k) => k,
        None => {
            return Plan::Requeue { idx: orig_idx };
        },
    };
    if matches!(target, Stage::Stems) {
        return Plan::Satisfied;
    }
    let midi_completed = find_completed(assets, file_id, AssetType::Midi);
    let midi_idx = match midi_completed {
        None => {
            match find_kind(assets, file_id, AssetType::Midi) {
                Some(k) => {
                    return Plan::Requeue { idx: k };
                },
                None => {
                    return Plan::Create { kind: AssetType::Midi, parent_idx: piano_idx };
                },
            }
        },
        Some(k) => k,
    };
    if matches!(target, Stage::Midi) {
        return Plan::Satisfied;
    }
    if find_completed(assets, file_id, AssetType::Pdf).is_none() {
        match find_kind(assets, file_id, AssetType::Pdf) {
            Some(k) => {
                return Plan::Requeue { idx: k };
            },
            None => {
                return Plan::Create { kind: AssetType::Pdf, parent_idx: midi_idx };
            },
        }
    }
    Plan::Satisfied
}

/// Why a stage request was rejected. Rejections never touch the store.
#[derive(Debug, Clone, Copy, PartialEq, Eq, Structural)]
pub enum RequestError {
    /// The requested stage name is not one of stems, midi, pdf.
    InvalidStage,
    /// The file already has queued or processing work.
    AlreadyInFlight,
    /// The file has no original asset at all.
    NoOriginal,
    /// The freshly drawn id for the new asset was already taken.
    IdCollision,
}

impl RequestError {
    pub fn message(&self) -> (r: String)
        ensures
            r@ == match *self {
                RequestError::InvalidStage => "invalid target stage"@,
                RequestError::AlreadyInFlight => "file already has processing in progress"@,
                RequestError::NoOriginal => "no original file found"@,
                RequestError::IdCollision => "id already in use"@,
            },
    {
        match self {
            RequestError::InvalidStage => "invalid target stage".to_owned(),
            RequestError::AlreadyInFlight => "file already has processing in progress".to_owned(),
            RequestError::NoOriginal => "no original file found".to_owned(),
            RequestError::IdCollision => "id already in use".to_owned(),
        }
    }
}

/// The path a newly created asset gets: its stage file beneath the
/// directory of its parent asset.
pub open spec fn planned_path(assets: Seq<Asset>, kind: AssetType, parent_idx: int) -> Seq<char> {
    parent_dir_spec(assets[parent_idx].file_path@) + "/"@ + (if kind is Midi {
        "stem_piano.midi"@
    } else {
        "stem_piano.pdf"@
    })
}

/// One new queued asset of the planned kind was appended, parented to the
/// asset at `parent_idx`, under a fresh id.
pub open spec fn created_one(
    pre_assets: Seq<Asset>,
    post_assets: Seq<Asset>,
    fid: Seq<char>,
    kind: AssetType,
    parent_idx: int,
) -> bool {
    &&& post_assets.len() == pre_assets.len() + 1
    &&& forall|k: int| 0 <= k < pre_assets.len() ==> post_assets[k] == pre_assets[k]
    &&& !has_asset_id(pre_assets, post_assets.last().id@)
    &&& post_assets.last().file_id@ == fid
    &&& post_assets.last().asset_type == kind
    &&& post_assets.last().parent_asset_id == Some(pre_assets[parent_idx].id)
    &&& post_assets.last().status is Queued
    &&& post_assets.last().error_message is None
    &&& post_assets.last().file_path@ == planned_path(pre_assets, kind, parent_idx)
}

/// How one stage request changes the store. A rejected request changes
/// nothing; an accepted one records the target stage and enqueues the one
/// job the plan names, if any.
pub open spec fn request_rel(
    pre: Model,
    post: Model,
    fid: Seq<char>,
    target: Seq<char>,
    r: Result<(), RequestError>,
) -> bool {
    match stage_of_name(target) {
        None => r == Err::<(), RequestError>(RequestError::InvalidStage) && post == pre,
        Some(stage) => match plan_spec(pre.assets, fid, stage) {
            Plan::InFlight => r == Err::<(), RequestError>(RequestError::AlreadyInFlight) && post
                == pre,
            Plan::NoOriginal => r == Err::<(), RequestError>(RequestError::NoOriginal) && post
                == pre,
            Plan::Satisfied => r == Ok::<(), RequestError>(()) && post == (Model {
                files: set_target_seq(pre.files, fid, Some(stage)),
                assets: pre.assets,
            }),
            Plan::Requeue { idx } => r == Ok::<(), RequestError>(()) && post == (Model {
                files: set_target_seq(pre.files, fid, Some(stage)),
                assets: requeue_seq(pre.assets, idx as int),
            }),
            Plan::Create { kind, parent_idx } => (r == Ok::<(), RequestError>(()) && post.files
                == set_target_seq(pre.files, fid, Some(stage)) && created_one(
                pre.assets,
                post.assets,
                fid,
                kind,
                parent_idx as int,
            )) || (r == Err::<(), RequestError>(RequestError::IdCollision) && post == pre),
        },
    }
}

/// How the post-completion continuation changes the store: with no stored
/// target it does nothing; with the target reached it clears the target;
/// otherwise it enqueues the one job the plan names, if any.
pub open spec fn advance_rel(pre: Model, post: Model, fid: Seq<char>) -> bool {
    match target_of(pre.files, fid) {
        None => post == pre,
        Some(stage) => match plan_spec(pre.assets, fid, stage) {
            Plan::InFlight => post == pre,
            Plan::NoOriginal => post == pre,
            Plan::Satisfied => post == (Model {
                files: set_target_seq(pre.files, fid, None),
                assets: pre.assets,
            }),
            Plan::Requeue { idx } => post == (Model {
                files: pre.files,
                assets: requeue_seq(pre.assets, idx as int),
            }),
            Plan::Create { kind, parent_idx } => (post.files == pre.files && created_one(
                pre.assets,
                post.assets,
                fid,
                kind,
                parent_idx as int,
            )) || post == pre,
        },
    }
}

/// A table that differs from a well-behaved one only at positions of one
/// file, with at most one active row of that file, stays single-active.
proof fn lemma_single_active_extend(pre: Seq<Asset>, post: Seq<Asset>, fid: Seq<char>)
    requires
        single_active(pre),
        !has_active(pre, fid),
        forall|i: int|
            0 <= i < post.len() ==> (i < pre.len() && #[trigger] post[i] == pre[i]) || post[i].file_id@
                == fid,
        forall|i: int, j: int|
            0 <= i < j < post.len() && (#[trigger] post[i]).file_id@ == fid && (
            #[trigger] post[j]).file_id@ == fid && is_active(post[i]) && is_active(post[j])
                ==> false,
    ensures
        single_active(post),
{
    assert forall|i: int, j: int|
        0 <= i < post.len() && 0 <= j < post.len() && i != j && is_active(#[trigger] post[i])
            && is_active(#[trigger] post[j]) implies post[i].file_id@ != post[j].file_id@ by {
        let i_old = i < pre.len() && post[i] == pre[i];
        let j_old = j < pre.len() && post[j] == pre[j];
        if i_old && post[i].file_id@ == fid {
            assert((active_of(fid))(pre[i]));
        }
        if j_old && post[j].file_id@ == fid {
            assert((active_of(fid))(pre[j]));
        }
        if !i_old && !j_old {
            assert(post[i].file_id@ == fid);
            assert(post[j].file_id@ == fid);
            if i < j {
                assert(is_active(post[i]) && is_active(post[j]));
                assert(false);
            } else {
                assert(j < i);
                assert(is_active(post[j]) && is_active(post[i]));
                assert(false);
            }
        }
    }
}

/// Requests that a file be taken to the given target stage. Validates the
/// stage name, refuses a file with in-flight work or without an original
/// asset, records the target, and enqueues exactly the one job the plan
/// names, if any.
pub fn process_to_stage(store: &mut Store, file_id: &str, target_stage: &str) -> (r: Result<
    (),
    RequestError,
>)
    requires
        store_wf(old(store)@),
    ensures
        store_wf(final(store)@),
        request_rel(old(store)@, final(store)@, file_id@, target_stage@, r),
        single_active(old(store)@.assets) ==> single_active(final(store)@.assets),
{
    let ghost pre = old(store)@;
    let stage = match Stage::from_string(target_stage) {
        Some(s) => s,
        None => {
            return Err(RequestError::InvalidStage);
        },
    };
    let n = store.all_assets().len();
    proof {
        assert(pre.assets.len() == n);
        lemma_plan_spec_props(pre.assets, file_id@, stage);
    }
    let plan = plan_step(store.all_assets(), file_id, stage);
    match plan {
        Plan::InFlight => Err(RequestError::AlreadyInFlight),
        Plan::NoOriginal => Err(RequestError::NoOriginal),
        Plan::Satisfied => {
            store.set_target_stage(file_id, Some(stage));
            proof {
                assert(final(store)@ =~= (Model {
                    files: set_target_seq(pre.files, file_id@, Some(stage)),
                    assets: pre.assets,
                }));
            }
            Ok(())
        },
        Plan::Requeue { idx } => {
            requeue_at(store, idx, Ghost(file_id@));
            store.set_target_stage(file_id, Some(stage));
            proof {
                assert(final(store)@ =~= (Model {
                    files: set_target_seq(pre.files, file_id@, Some(stage)),
                    assets: requeue_seq(pre.assets, idx as int),
                }));
            }
            Ok(())
        },
        Plan::Create { kind, parent_idx } => {
            match create_planned(store, file_id, kind, parent_idx) {
                Ok(()) => {
                    store.set_target_stage(file_id, Some(stage));
                    proof {
                        assert(final(store)@.files =~= set_target_seq(
                            pre.files,
                            file_id@,
                            Some(stage),
                        ));
                    }
                    Ok(())
                },
                Err(e) => Err(e),
            }
        },
    }
}

/// Re-queues the asset the plan named, in place.
fn requeue_at(store: &mut Store, idx: usize, Ghost(fid): Ghost<Seq<char>>)
    requires
        store_wf(old(store)@),
        idx < old(store)@.assets.len(),
        old(store)@.assets[idx as int].file_id@ == fid,
        !is_active(old(store)@.assets[idx as int]),
        !has_active(old(store)@.assets, fid),
    ensures
        store_wf(final(store)@),
        final(store)@.files == old(store)@.files,
        final(store)@.assets =~= requeue_seq(old(store)@.assets, idx as int),
        single_active(old(store)@.assets) ==> single_active(final(store)@.assets),
{
    let ghost pre = old(store)@;
    let aid = store.all_assets()[idx].id.clone();
    proof {
        assert(pre.assets[idx as int].id@ == aid@);
        assert(has_asset_id(pre.assets, aid@));
        lemma_first_idx(pre.assets, asset_id_is(aid@));
        let k = asset_index_of(pre.assets, aid@);
        assert((asset_id_is(aid@))(pre.assets[k]));
        if k < idx {
            assert(pre.assets[k].id@ != pre.assets[idx as int].id@);
        }
        assert(k == idx);
    }
    store.update_asset_status(aid.as_str(), ProcessingStatus::Queued, None);
    proof {
        assert(final(store)@.assets =~= requeue_seq(pre.assets, idx as int));
        if single_active(pre.assets) {
            let post = final(store)@.assets;
            assert forall|i: int|
                0 <= i < post.len() implies (i < pre.assets.len() && post[i]
                == #[trigger] pre.assets[i]) || post[i].file_id@ == fid by {}
            assert forall|i: int, j: int|
                0 <= i < j < post.len() && (#[trigger] post[i]).file_id@ == fid && (
                #[trigger] post[j]).file_id@ == fid && is_active(post[i]) && is_active(post[j])
                    implies false by {
                if i != idx {
                    assert(post[i] == pre.assets[i]);
                    assert((active_of(fid))(pre.assets[i]));
                }
                if j != idx {
                    assert(post[j] == pre.assets[j]);
                    assert((active_of(fid))(pre.assets[j]));
                }
            }
            lemma_single_active_extend(pre.assets, post, fid);
        }
    }
}

/// Creates the new queued asset the plan named: fresh id, path beneath
/// the parent's directory, parented to the plan's prerequisite.
fn create_planned(
    store: &mut Store,
    file_id: &str,
    kind: AssetType,
    parent_idx: usize,
) -> (r: Result<(), RequestError>)
    requires
        store_wf(old(store)@),
        parent_idx < old(store)@.assets.len(),
        old(store)@.assets[parent_idx as int].file_id@ == file_id@,
        old(store)@.assets[parent_idx as int].status is Completed,
        kind is Midi || kind is Pdf,
        !has_active(old(store)@.assets, file_id@),
    ensures
        store_wf(final(store)@),
        final(store)@.files == old(store)@.files,
        match r {
            Ok(()) => created_one(
                old(store)@.assets,
                final(store)@.assets,
                file_id@,
                kind,
                parent_idx as int,
            ),
            Err(e) => e == RequestError::IdCollision && final(store)@ == old(store)@,
        },
        single_active(old(store)@.assets) ==> single_active(final(store)@.assets),
{
    let nid = fresh_id();
    create_planned_with_id(store, file_id, kind, parent_idx, nid)
}

/// The same step for a given id: exact in every input. It succeeds if and
/// only if the id is still free.
fn create_planned_with_id(
    store: &mut Store,
    file_id: &str,
    kind: AssetType,
    parent_idx: usize,
    nid: String,
) -> (r: Result<(), RequestError>)
    requires
        store_wf(old(store)@),
        parent_idx < old(store)@.assets.len(),
        old(store)@.assets[parent_idx as int].file_id@ == file_id@,
        old(store)@.assets[parent_idx as int].status is Completed,
        kind is Midi || kind is Pdf,
        !has_active(old(store)@.assets, file_id@),
    ensures
        store_wf(final(store)@),
        final(store)@.files == old(store)@.files,
        match r {
            Ok(()) => !has_asset_id(old(store)@.assets, nid@) && created_one(
                old(store)@.assets,
                final(store)@.assets,
                file_id@,
                kind,
                parent_idx as int,
            ) && final(store)@.assets.last().id == nid,
            Err(e) => e == RequestError::IdCollision && has_asset_id(old(store)@.assets, nid@)
                && final(store)@ == old(store)@,
        },
        single_active(old(store)@.assets) ==> single_active(final(store)@.assets),
{
    let ghost pre = old(store)@;
    let parent_id = store.all_assets()[parent_idx].id.clone();
    let dir = parent_dir(store.all_assets()[parent_idx].file_path.as_str());
    let fname = if matches!(kind, AssetType::Midi) {
        "stem_piano.midi"
    } else {
        "stem_piano.pdf"
    };
    let path = join_under(dir.as_str(), fname);
    let created = store.create_asset(
        nid,
        file_id.to_owned(),
        Some(parent_id),
        kind,
        path,
        ProcessingStatus::Queued,
    );
    match created {
        Ok(()) => {
            proof {
                assert(has_file_id(pre.files, pre.assets[parent_idx as int].file_id@));
                let post = final(store)@.assets;
                assert(post.last().file_path@ == planned_path(pre.assets, kind, parent_idx as int));
                assert(created_one(pre.assets, post, file_id@, kind, parent_idx as int));
                if single_active(pre.assets) {
                    assert forall|i: int|
                        0 <= i < post.len() implies (i < pre.assets.len() && post[i]
                        == #[trigger] pre.assets[i]) || post[i].file_id@ == file_id@ by {}
                    assert forall|i: int, j: int|
                        0 <= i < j < post.len() && (#[trigger] post[i]).file_id@ == file_id@ && (
                        #[trigger] post[j]).file_id@ == file_id@ && is_active(post[i]) && is_active(
                            post[j],
                        ) implies false by {
                        if i < pre.assets.len() {
                            assert((active_of(file_id@))(pre.assets[i]));
                        }
                    }
                    lemma_single_active_extend(pre.assets, post, file_id@);
                }
            }
            Ok(())
        },
        Err(e) => {
            proof {
                assert(has_file_id(pre.files, pre.assets[parent_idx as int].file_id@));
                if e is UnknownFile {
                    assert(false);
                }
                if e is BadParent {
                    assert(valid_parent(pre.assets, pre.assets[parent_idx as int].id@, file_id@));
                    assert(false);
                }
            }
            Err(RequestError::IdCollision)
        },
    }
}

/// The post-completion continuation: with a stored target still pending,
/// enqueues the next job toward it, and clears the target once it is
/// reached. Any failure to enqueue leaves the store as it is.
pub fn advance_target(store: &mut Store, file_id: &str)
    requires
        store_wf(old(store)@),
    ensures
        store_wf(final(store)@),
        advance_rel(old(store)@, final(store)@, file_id@),
        single_active(old(store)@.assets) ==> single_active(final(store)@.assets),
{
    let ghost pre = old(store)@;
    let stage = match store.get_target_stage(file_id) {
        Some(s) => s,
        None => {
            return ;
        },
    };
    let n = store.all_assets().len();
    proof {
        assert(pre.assets.len() == n);
        lemma_plan_spec_props(pre.assets, file_id@, stage);
    }
    let plan = plan_step(store.all_assets(), file_id, stage);
    match plan {
        Plan::InFlight => {},
        Plan::NoOriginal => {},
        Plan::Satisfied => {
            store.set_target_stage(file_id, None);
            proof {
                assert(final(store)@ =~= (Model {
                    files: set_target_seq(pre.files, file_id@, None),
                    assets: pre.assets,
                }));
            }
        },
        Plan::Requeue { idx } => {
            requeue_at(store, idx, Ghost(file_id@));
            proof {
                assert(final(store)@ =~= (Model {
                    files: pre.files,
                    assets: requeue_seq(pre.assets, idx as int),
                }));
            }
        },
        Plan::Create { kind, parent_idx } => {
            let _ = create_planned(store, file_id, kind, parent_idx);
        },
    }
}

} // verus!
