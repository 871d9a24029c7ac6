use vstd::prelude::*;
use crate::models::{AssetType, ProcessingStatus};
use crate::store::{
    Store, StoreError, store_wf, has_file_id, has_asset_id, cancel_seq, set_target_seq,
    lemma_filter_pair_src, cancel_keep, cancel_map,
};
use crate::planner::{single_active, is_active};
use crate::ext::fresh_id;
use vstd::string::StringExecFns;

verus! {

/// Registers one uploaded recording: a new file record plus its original
/// asset, created completed at the copied file's path. Copying the bytes
/// into the per-file directory happens before this call.
pub fn upload_file(
    store: &mut Store,
    file_id: &str,
    original_filename: &str,
    dest_path: &str,
) -> (r: Result<(), StoreError>)
    requires
        store_wf(old(store)@),
    ensures
        store_wf(final(store)@),
        match r {
            Ok(()) => {
                &&& !has_file_id(old(store)@.files, file_id@)
                &&& final(store)@.files.len() == old(store)@.files.len() + 1
                &&& forall|k: int|
                    0 <= k < old(store)@.files.len() ==> final(store)@.files[k] == old(
                        store,
                    )@.files[k]
                &&& final(store)@.files.last().id@ == file_id@
                &&& final(store)@.files.last().original_filename@ == original_filename@
                &&& final(store)@.files.last().target_stage is None
                &&& final(store)@.assets.len() == old(store)@.assets.len() + 1
                &&& forall|k: int|
                    0 <= k < old(store)@.assets.len() ==> final(store)@.assets[k] == old(
                        store,
                    )@.assets[k]
                &&& {
                    let a = final(store)@.assets.last();
                    &&& a.file_id@ == file_id@
                    &&& a.asset_type is Original
                    &&& a.status is Completed
                    &&& a.parent_asset_id is None
                    &&& a.error_message is None
                    &&& a.file_path@ == dest_path@
                    &&& !has_asset_id(old(store)@.assets, a.id@)
                }
            },
            Err(e) => {
                &&& e == StoreError::DuplicateId
                &&& final(store)@.assets == old(store)@.assets
                &&& ((has_file_id(old(store)@.files, file_id@) && final(store)@ == old(store)@) || (
                !has_file_id(old(store)@.files, file_id@) && final(store)@.files.len() == old(
                    store,
                )@.files.len() + 1 && (forall|k: int|
                    0 <= k < old(store)@.files.len() ==> final(store)@.files[k] == old(
                        store,
                    )@.files[k]) && final(store)@.files.last().id@ == file_id@))
            },
        },
        single_active(old(store)@.assets) ==> single_active(final(store)@.assets),
{
    let ghost pre = old(store)@;
    match store.create_file(String::from_str(file_id), String::from_str(original_filename)) {
        Ok(()) => {},
        Err(e) => {
            return Err(e);
        },
    }
    let ghost mid = store@;
    let aid = fresh_id();
    let created = store.create_asset(
        aid,
        String::from_str(file_id),
        None,
        AssetType::Original,
        String::from_str(dest_path),
        ProcessingStatus::Completed,
    );
    match created {
        Ok(()) => {
            proof {
                if single_active(pre.assets) {
                    let post = final(store)@.assets;
                    assert forall|a: int, b: int|
                        0 <= a < post.len() && 0 <= b < post.len() && a != b && is_active(
                            #[trigger] post[a],
                        ) && is_active(#[trigger] post[b]) implies post[a].file_id@
                        != post[b].file_id@ by {
                        assert(post.last().status is Completed);
                        assert(a < pre.assets.len() && b < pre.assets.len());
                        assert(post[a] == pre.assets[a] && post[b] == pre.assets[b]);
                    }
                }
            }
            Ok(())
        },
        Err(e) => {
            proof {
                assert(mid.files.last().id@ == file_id@);
                if e is UnknownFile {
                    assert(has_file_id(mid.files, file_id@));
                    assert(false);
                }
                if e is BadParent {
                    assert(false);
                }
            }
            Err(e)
        },
    }
}

/// Cancels all processing for a file: its stored target stage is cleared,
/// its queued assets are deleted and a processing one becomes
/// `Cancelled`. Completed and failed assets are untouched.
pub fn cancel_processing(store: &mut Store, file_id: &str)
    requires
        store_wf(old(store)@),
    ensures
        store_wf(final(store)@),
        final(store)@.files =~= set_target_seq(old(store)@.files, file_id@, None),
        final(store)@.assets =~= cancel_seq(old(store)@.assets, file_id@),
        single_active(old(store)@.assets) ==> single_active(final(store)@.assets),
{
    let ghost pre = old(store)@;
    store.set_target_stage(file_id, None);
    store.cancel_file_processing(file_id);
    proof {
        if single_active(pre.assets) {
            let ka = pre.assets.filter(cancel_keep(file_id@));
            let post = final(store)@.assets;
            assert(post =~= cancel_seq(pre.assets, file_id@));
            assert forall|i: int, j: int|
                0 <= i < post.len() && 0 <= j < post.len() && i != j && is_active(
                    #[trigger] post[i],
                ) && is_active(#[trigger] post[j]) implies post[i].file_id@ != post[j].file_id@ by {
                assert(post[i] == (cancel_map(file_id@))(ka[i]));
                assert(post[j] == (cancel_map(file_id@))(ka[j]));
                assert(post[i] == ka[i] && post[j] == ka[j]);
                if i < j {
                    let r = lemma_filter_pair_src(pre.assets, cancel_keep(file_id@), i, j);
                    assert(is_active(pre.assets[r.0]) && is_active(pre.assets[r.1]));
                } else {
                    let r = lemma_filter_pair_src(pre.assets, cancel_keep(file_id@), j, i);
                    assert(is_active(pre.assets[r.0]) && is_active(pre.assets[r.1]));
                }
            }
        }
    }
}

} // verus!
