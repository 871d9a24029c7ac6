use vstd::prelude::*;
use crate::models::{Asset, AssetType, LoadingState, ProcessingStatus, asset_type_name};
use crate::store::{
    Model, Store, StoreError, store_wf, set_target_seq, set_status_seq, has_asset_id,
    asset_index_of, asset_id_is, next_queued_idx, first_idx, lemma_first_idx,
};
use crate::planner::{advance_rel, advance_target, is_active, single_active};
use crate::util::{str_eq, parent_dir, parent_dir_spec};
use crate::ext::fresh_id;

verus! {

/// What the worker must run for one claimed asset: the matching external
/// operation with its input and output paths, or nothing for a stem.
#[derive(Debug)]
pub enum JobInputs {
    /// Run the separation operation on the original recording.
    Separate { input_path: String, output_dir: String },
    /// Run the transcription operation from the parent stem.
    Transcribe { input_path: String, output_path: String },
    /// Run the rendering operation from the parent transcription.
    Render { input_path: String, output_path: String },
    /// Stems have no follow-up operation of their own.
    NoOp,
}

/// Why a claimed asset cannot be dispatched.
#[derive(Debug, Clone, Copy, PartialEq, Eq, Structural)]
pub enum JobError {
    /// The derived asset records no parent.
    NoParent,
    /// The recorded parent is not an asset of the same file.
    ParentMissing,
}

impl JobError {
    pub fn message(&self) -> (r: String)
        ensures
            r@ == match *self {
                JobError::NoParent => "asset has no parent"@,
                JobError::ParentMissing => "parent asset not found"@,
            },
    {
        match self {
            JobError::NoParent => "asset has no parent".to_owned(),
            JobError::ParentMissing => "parent asset not found".to_owned(),
        }
    }
}

/// The payload of one outward progress notification, as the worker
/// reports it for an asset: a title for the phase, the asset's kind as
/// the description, and an optional percentage.
pub fn progress_payload(title: &str, asset: &Asset, percent: Option<u32>) -> (r: LoadingState)
    ensures
        r.title@ == title@,
        r.description@ == asset_type_name(asset.asset_type),
        r.progress == percent,
{
    LoadingState {
        title: title.to_owned(),
        description: asset.asset_type.to_string(),
        progress: percent,
    }
}

/// A table whose rows keep their files and only lose activity stays
/// single-active.
pub proof fn lemma_single_active_same_files(pre: Seq<Asset>, post: Seq<Asset>)
    requires
        single_active(pre),
        post.len() == pre.len(),
        forall|i: int|
            0 <= i < post.len() ==> (#[trigger] post[i]).file_id@ == pre[i].file_id@ && (is_active(
                post[i],
            ) ==> is_active(pre[i])),
    ensures
        single_active(post),
{
    assert forall|i: int, j: int|
        0 <= i < post.len() && 0 <= j < post.len() && i != j && is_active(#[trigger] post[i])
            && is_active(#[trigger] post[j]) implies post[i].file_id@ != post[j].file_id@ by {
        assert(is_active(pre[i]) && is_active(pre[j]));
    }
}

/// Claims the single oldest queued asset, across all files: the row is
/// moved to `Processing` and returned. Returns `None`, changing nothing,
/// when no work is queued.
pub fn claim_next_job(store: &mut Store) -> (r: Option<Asset>)
    requires
        store_wf(old(store)@),
    ensures
        store_wf(final(store)@),
        final(store)@.files == old(store)@.files,
        match r {
            None => final(store)@ == old(store)@ && (forall|i: int|
                0 <= i < old(store)@.assets.len() ==> !((#[trigger] old(
                    store,
                )@.assets[i]).status is Queued)),
            Some(a) => {
                let k = next_queued_idx(old(store)@.assets);
                &&& 0 <= k < old(store)@.assets.len()
                &&& old(store)@.assets[k].status is Queued
                &&& forall|j: int|
                    0 <= j < k ==> !((#[trigger] old(store)@.assets[j]).status is Queued)
                &&& a == (Asset {
                    status: ProcessingStatus::Processing,
                    error_message: None,
                    ..old(store)@.assets[k]
                })
                &&& final(store)@.assets =~= set_status_seq(
                    old(store)@.assets,
                    k,
                    ProcessingStatus::Processing,
                    None,
                )
            },
        },
        single_active(old(store)@.assets) ==> single_active(final(store)@.assets),
{
    let ghost pre = old(store)@;
    match store.get_next_queued_asset() {
        None => None,
        Some(a) => {
            proof {
                let k = next_queued_idx(pre.assets);
                assert(a == pre.assets[k]);
                assert(has_asset_id(pre.assets, a.id@));
                lemma_first_idx(pre.assets, asset_id_is(a.id@));
                let w = asset_index_of(pre.assets, a.id@);
                assert((asset_id_is(a.id@))(pre.assets[w]));
                if w < k {
                    assert(pre.assets[w].id@ != pre.assets[k].id@);
                }
                if k < w {
                    assert(pre.assets[k].id@ != pre.assets[w].id@);
                }
                assert(w == k);
            }
            store.update_asset_status(a.id.as_str(), ProcessingStatus::Processing, None);
            proof {
                let k = next_queued_idx(pre.assets);
                let post = final(store)@.assets;
                if single_active(pre.assets) {
                    assert forall|i: int|
                        0 <= i < post.len() implies (#[trigger] post[i]).file_id@
                        == pre.assets[i].file_id@ && (is_active(post[i]) ==> is_active(
                        pre.assets[i],
                    )) by {}
                    lemma_single_active_same_files(pre.assets, post);
                }
            }
            let mut claimed = a;
            claimed.status = ProcessingStatus::Processing;
            claimed.error_message = None;
            Some(claimed)
        },
    }
}

pub open spec fn parent_pred(pid: Seq<char>, fid: Seq<char>) -> spec_fn(Asset) -> bool {
    |a: Asset| a.id@ == pid && a.file_id@ == fid
}

/// The store has an asset with this id belonging to this file.
pub open spec fn has_parent(assets: Seq<Asset>, pid: Seq<char>, fid: Seq<char>) -> bool {
    exists|i: int| 0 <= i < assets.len() && (parent_pred(pid, fid))(#[trigger] assets[i])
}

/// What a correct dispatch for a derived asset looks like: the recorded
/// parent's path is the input, the asset's own path the output.
pub open spec fn derived_inputs_ok(
    assets: Seq<Asset>,
    asset: Asset,
    r: Result<JobInputs, JobError>,
    midi: bool,
) -> bool {
    match asset.parent_asset_id {
        None => r == Err::<JobInputs, JobError>(JobError::NoParent),
        Some(p) => if has_parent(assets, p@, asset.file_id@) {
            {
                let k = first_idx(assets, parent_pred(p@, asset.file_id@));
                match r {
                    Ok(JobInputs::Transcribe { input_path, output_path }) => midi && input_path
                        == assets[k].file_path && output_path == asset.file_path,
                    Ok(JobInputs::Render { input_path, output_path }) => !midi && input_path
                        == assets[k].file_path && output_path == asset.file_path,
                    _ => false,
                }
            }
        } else {
            r == Err::<JobInputs, JobError>(JobError::ParentMissing)
        },
    }
}

/// What a correct dispatch looks like, by asset kind.
pub open spec fn job_inputs_ok(
    assets: Seq<Asset>,
    asset: Asset,
    r: Result<JobInputs, JobError>,
) -> bool {
    match asset.asset_type {
        AssetType::Original => match r {
            Ok(JobInputs::Separate { input_path, output_dir }) => input_path == asset.file_path
                && output_dir@ == parent_dir_spec(asset.file_path@),
            _ => false,
        },
        AssetType::Midi => derived_inputs_ok(assets, asset, r, true),
        AssetType::Pdf => derived_inputs_ok(assets, asset, r, false),
        _ => r == Ok::<JobInputs, JobError>(JobInputs::NoOp),
    }
}

/// Dispatches one claimed asset: names the external operation to run and
/// resolves its input and output paths, looking a derived asset's parent
/// up among the assets of its own file.
pub fn job_inputs(store: &Store, asset: &Asset) -> (r: Result<JobInputs, JobError>)
    ensures
        job_inputs_ok(store@.assets, *asset, r),
{
    match asset.asset_type {
        AssetType::Original => Ok(
            JobInputs::Separate {
                input_path: asset.file_path.clone(),
                output_dir: parent_dir(asset.file_path.as_str()),
            },
        ),
        AssetType::Midi => {
            match find_parent(store, asset) {
                Ok(input_path) => Ok(
                    JobInputs::Transcribe { input_path, output_path: asset.file_path.clone() },
                ),
                Err(e) => Err(e),
            }
        },
        AssetType::Pdf => {
            match find_parent(store, asset) {
                Ok(input_path) => Ok(
                    JobInputs::Render { input_path, output_path: asset.file_path.clone() },
                ),
                Err(e) => Err(e),
            }
        },
        _ => Ok(JobInputs::NoOp),
    }
}

/// Path of the recorded parent, looked up among the file's own assets.
fn find_parent(store: &Store, asset: &Asset) -> (r: Result<String, JobError>)
    ensures
        match asset.parent_asset_id {
            None => r == Err::<String, JobError>(JobError::NoParent),
            Some(p) => if has_parent(store@.assets, p@, asset.file_id@) {
                {
                    let k = first_idx(store@.assets, parent_pred(p@, asset.file_id@));
                    r == Ok::<String, JobError>(store@.assets[k].file_path)
                }
            } else {
                r == Err::<String, JobError>(JobError::ParentMissing)
            },
        },
{
    let p = match &asset.parent_asset_id {
        None => {
            return Err(JobError::NoParent);
        },
        Some(p) => p,
    };
    let assets = store.all_assets();
    let mut i: usize = 0;
    while i < assets.len()
        invariant
            asset.parent_asset_id == Some(*p),
            i <= assets@.len(),
            assets@ == store@.assets,
            forall|j: int|
                0 <= j < i ==> !(parent_pred(p@, asset.file_id@))(#[trigger] assets@[j]),
        decreases assets@.len() - i,
    {
        if str_eq(assets[i].id.as_str(), p.as_str()) && str_eq(
            assets[i].file_id.as_str(),
            asset.file_id.as_str(),
        ) {
            proof {
                assert((parent_pred(p@, asset.file_id@))(assets@[i as int]));
                lemma_first_idx(store@.assets, parent_pred(p@, asset.file_id@));
                let k = first_idx(store@.assets, parent_pred(p@, asset.file_id@));
                if k < i {
                    assert(!(parent_pred(p@, asset.file_id@))(assets@[k]));
                }
                if k > i {
                    assert(!(parent_pred(p@, asset.file_id@))(assets@[i as int]));
                }
                assert(k == i);
            }
            return Ok(assets[i].file_path.clone());
        }
        i += 1;
    }
    Err(JobError::ParentMissing)
}

/// The stem kind a separation output name maps to; unrecognised names are
/// skipped.
pub open spec fn stem_kind_of_name(name: Seq<char>) -> Option<AssetType> {
    if name == "other"@ {
        Some(AssetType::StemPiano)
    } else if name == "vocals"@ {
        Some(AssetType::StemVocals)
    } else if name == "drums"@ {
        Some(AssetType::StemDrums)
    } else if name == "bass"@ {
        Some(AssetType::StemBass)
    } else {
        None
    }
}

fn stem_kind_exec(name: &str) -> (r: Option<AssetType>)
    ensures
        r == stem_kind_of_name(name@),
{
    if str_eq(name, "other") {
        Some(AssetType::StemPiano)
    } else if str_eq(name, "vocals") {
        Some(AssetType::StemVocals)
    } else if str_eq(name, "drums") {
        Some(AssetType::StemDrums)
    } else if str_eq(name, "bass") {
        Some(AssetType::StemBass)
    } else {
        None
    }
}

/// The `(kind, path)` rows that a separation's named outputs give rise
/// to, in order, unrecognised names skipped.
pub open spec fn recognized_stems(outputs: Seq<(String, String)>) -> Seq<(AssetType, String)>
    decreases outputs.len(),
{
    if outputs.len() == 0 {
        Seq::empty()
    } else {
        let rest = recognized_stems(outputs.drop_last());
        match stem_kind_of_name(outputs.last().0@) {
            Some(k) => rest.push((k, outputs.last().1)),
            None => rest,
        }
    }
}

proof fn lemma_recognized_push(s: Seq<(String, String)>, x: (String, String))
    ensures
        recognized_stems(s.push(x)) == (match stem_kind_of_name(x.0@) {
            Some(k) => recognized_stems(s).push((k, x.1)),
            None => recognized_stems(s),
        }),
{
    assert(s.push(x).drop_last() =~= s);
    assert(s.push(x).last() == x);
}

proof fn lemma_recognized_prefix(s: Seq<(String, String)>, i: int)
    requires
        0 <= i <= s.len(),
    ensures
        recognized_stems(s.subrange(0, i)).is_prefix_of(recognized_stems(s)),
        recognized_stems(s.subrange(0, i)).len() <= recognized_stems(s).len(),
    decreases s.len() - i,
{
    if i < s.len() {
        assert(s.subrange(0, i + 1) =~= s.subrange(0, i).push(s[i]));
        lemma_recognized_push(s.subrange(0, i), s[i]);
        lemma_recognized_prefix(s, i + 1);
        let a = recognized_stems(s.subrange(0, i));
        let b = recognized_stems(s.subrange(0, i + 1));
        let c = recognized_stems(s);
        assert(a.is_prefix_of(b));
        assert(b.is_prefix_of(c));
        assert(a =~= c.subrange(0, a.len() as int));
    } else {
        assert(s.subrange(0, i) =~= s);
    }
}

/// Records the outputs of a finished separation: one completed stem asset
/// per recognised output name, each parented to the separated original.
/// On an error the rows created so far remain, as do the files on disk.
pub fn record_separation_outputs(
    store: &mut Store,
    parent: &Asset,
    outputs: &Vec<(String, String)>,
) -> (r: Result<(), StoreError>)
    requires
        store_wf(old(store)@),
    ensures
        store_wf(final(store)@),
        final(store)@.files == old(store)@.files,
        old(store)@.assets.len() <= final(store)@.assets.len() <= old(store)@.assets.len()
            + recognized_stems(outputs@).len(),
        forall|k: int|
            0 <= k < old(store)@.assets.len() ==> final(store)@.assets[k] == old(store)@.assets[k],
        forall|t: int|
            0 <= t < final(store)@.assets.len() - old(store)@.assets.len() ==> {
                let a = #[trigger] final(store)@.assets[old(store)@.assets.len() + t];
                let rec = recognized_stems(outputs@);
                &&& a.asset_type == rec[t].0
                &&& a.file_path == rec[t].1
                &&& a.file_id == parent.file_id
                &&& a.parent_asset_id == Some(parent.id)
                &&& a.status is Completed
                &&& a.error_message is None
            },
        r is Ok ==> final(store)@.assets.len() == old(store)@.assets.len() + recognized_stems(
            outputs@,
        ).len(),
        single_active(old(store)@.assets) ==> single_active(final(store)@.assets),
{
    let ghost pre = old(store)@;
    let ghost rec = recognized_stems(outputs@);
    let mut i: usize = 0;
    while i < outputs.len()
        invariant
            pre == old(store)@,
            rec == recognized_stems(outputs@),
            store_wf(store@),
            i <= outputs@.len(),
            store@.files == pre.files,
            pre.assets.len() <= store@.assets.len(),
            store@.assets.len() == pre.assets.len() + recognized_stems(
                outputs@.subrange(0, i as int),
            ).len(),
            forall|k: int| 0 <= k < pre.assets.len() ==> store@.assets[k] == pre.assets[k],
            forall|t: int|
                0 <= t < store@.assets.len() - pre.assets.len() ==> {
                    let a = #[trigger] store@.assets[pre.assets.len() + t];
                    let rsub = recognized_stems(outputs@.subrange(0, i as int));
                    &&& a.asset_type == rsub[t].0
                    &&& a.file_path == rsub[t].1
                    &&& a.file_id == parent.file_id
                    &&& a.parent_asset_id == Some(parent.id)
                    &&& a.status is Completed
                    &&& a.error_message is None
                },
            single_active(pre.assets) ==> single_active(store@.assets),
        decreases outputs@.len() - i,
    {
        proof {
            assert(outputs@.subrange(0, i + 1) =~= outputs@.subrange(0, i as int).push(
                outputs@[i as int],
            ));
            lemma_recognized_push(outputs@.subrange(0, i as int), outputs@[i as int]);
        }
        let kind = match stem_kind_exec(outputs[i].0.as_str()) {
            None => {
                i += 1;
                continue ;
            },
            Some(k) => k,
        };
        let ghost before = store@;
        let nid = fresh_id();
        let created = store.create_asset(
            nid,
            parent.file_id.clone(),
            Some(parent.id.clone()),
            kind,
            outputs[i].1.clone(),
            ProcessingStatus::Completed,
        );
        match created {
            Ok(()) => {
                proof {
                    let rsub_old = recognized_stems(outputs@.subrange(0, i as int));
                    let rsub_new = recognized_stems(outputs@.subrange(0, i + 1));
                    assert(rsub_new == rsub_old.push((kind, outputs@[i as int].1)));
                    if single_active(pre.assets) {
                        let post = store@.assets;
                        assert forall|a: int, b: int|
                            0 <= a < post.len() && 0 <= b < post.len() && a != b && is_active(
                                #[trigger] post[a],
                            ) && is_active(#[trigger] post[b]) implies post[a].file_id@
                            != post[b].file_id@ by {
                            assert(post.last().status is Completed);
                            assert(a < before.assets.len() && b < before.assets.len());
                            assert(post[a] == before.assets[a] && post[b] == before.assets[b]);
                            assert(is_active(before.assets[a]) && is_active(before.assets[b]));
                        }
                    }
                }
            },
            Err(e) => {
                proof {
                    lemma_recognized_prefix(outputs@, i as int);
                    let rsub = recognized_stems(outputs@.subrange(0, i as int));
                    assert(rsub.is_prefix_of(rec));
                    assert(rsub =~= rec.subrange(0, rsub.len() as int));
                    assert(forall|t: int| 0 <= t < rsub.len() ==> rsub[t] == rec[t]);
                }
                return Err(e);
            },
        }
        i += 1;
    }
    proof {
        assert(outputs@.subrange(0, outputs@.len() as int) =~= outputs@);
    }
    Ok(())
}

/// How a worker success report changes the store: a row still in
/// `Processing` becomes `Completed` and the continuation runs for its
/// file; any other report is superseded and changes nothing.
pub open spec fn success_rel(pre: Model, post: Model, aid: Seq<char>) -> bool {
    if has_asset_id(pre.assets, aid) && pre.assets[asset_index_of(pre.assets, aid)].status
        is Processing {
        {
            let k = asset_index_of(pre.assets, aid);
            let mid = Model {
                files: pre.files,
                assets: set_status_seq(pre.assets, k, ProcessingStatus::Completed, None),
            };
            advance_rel(mid, post, pre.assets[k].file_id@)
        }
    } else {
        post == pre
    }
}

/// Marks a finished job `Completed` — only if it is still `Processing`,
/// so that a cancellation is never overwritten — and then advances the
/// file toward its stored target.
pub fn handle_job_success(store: &mut Store, asset_id: &str)
    requires
        store_wf(old(store)@),
    ensures
        store_wf(final(store)@),
        success_rel(old(store)@, final(store)@, asset_id@),
        single_active(old(store)@.assets) ==> single_active(final(store)@.assets),
{
    let ghost pre = old(store)@;
    let row = match store.get_asset(asset_id) {
        None => {
            return ;
        },
        Some(a) => a,
    };
    if !matches!(row.status, ProcessingStatus::Processing) {
        return ;
    }
    proof {
        lemma_first_idx(pre.assets, asset_id_is(asset_id@));
        let k = asset_index_of(pre.assets, asset_id@);
        assert((asset_id_is(asset_id@))(pre.assets[k]));
        assert(row == pre.assets[k]);
    }
    store.update_asset_status(asset_id, ProcessingStatus::Completed, None);
    proof {
        let k = asset_index_of(pre.assets, asset_id@);
        assert(store@ =~= (Model {
            files: pre.files,
            assets: set_status_seq(pre.assets, k, ProcessingStatus::Completed, None),
        }));
        if single_active(pre.assets) {
            let mid = store@.assets;
            assert forall|i: int|
                0 <= i < mid.len() implies (#[trigger] mid[i]).file_id@ == pre.assets[i].file_id@
                && (is_active(mid[i]) ==> is_active(pre.assets[i])) by {}
            lemma_single_active_same_files(pre.assets, mid);
        }
    }
    advance_target(store, row.file_id.as_str());
}

/// How a worker failure report changes the store: a row still in
/// `Processing` becomes `Failed` with the error text, and the file's
/// stored target is cleared — a failure cancels the standing goal; any
/// other report is superseded and changes nothing.
pub open spec fn failure_rel(pre: Model, post: Model, aid: Seq<char>, msg: String) -> bool {
    if has_asset_id(pre.assets, aid) && pre.assets[asset_index_of(pre.assets, aid)].status
        is Processing {
        {
            let k = asset_index_of(pre.assets, aid);
            post == (Model {
                files: set_target_seq(pre.files, pre.assets[k].file_id@, None),
                assets: set_status_seq(pre.assets, k, ProcessingStatus::Failed, Some(msg)),
            })
        }
    } else {
        post == pre
    }
}

/// Marks a failed job `Failed` with its error text — only if it is still
/// `Processing` — and clears the file's stored target.
pub fn handle_job_failure(store: &mut Store, asset_id: &str, error_message: String)
    requires
        store_wf(old(store)@),
    ensures
        store_wf(final(store)@),
        failure_rel(old(store)@, final(store)@, asset_id@, error_message),
        single_active(old(store)@.assets) ==> single_active(final(store)@.assets),
{
    let ghost pre = old(store)@;
    let row = match store.get_asset(asset_id) {
        None => {
            return ;
        },
        Some(a) => a,
    };
    if !matches!(row.status, ProcessingStatus::Processing) {
        return ;
    }
    proof {
        lemma_first_idx(pre.assets, asset_id_is(asset_id@));
        let k = asset_index_of(pre.assets, asset_id@);
        assert((asset_id_is(asset_id@))(pre.assets[k]));
        assert(row == pre.assets[k]);
    }
    store.update_asset_status(asset_id, ProcessingStatus::Failed, Some(error_message));
    store.set_target_stage(row.file_id.as_str(), None);
    proof {
        let k = asset_index_of(pre.assets, asset_id@);
        assert(final(store)@ =~= (Model {
            files: set_target_seq(pre.files, pre.assets[k].file_id@, None),
            assets: set_status_seq(pre.assets, k, ProcessingStatus::Failed, Some(error_message)),
        }));
        if single_active(pre.assets) {
            let post = final(store)@.assets;
            assert forall|i: int|
                0 <= i < post.len() implies (#[trigger] post[i]).file_id@ == pre.assets[i].file_id@
                && (is_active(post[i]) ==> is_active(pre.assets[i])) by {}
            lemma_single_active_same_files(pre.assets, post);
        }
    }
}

} // verus!
