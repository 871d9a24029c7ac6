use vstd::prelude::*;
use crate::models::{Asset, AssetType, FileRecord, Stage, stage_of_name};
use crate::store::{
    Model, first_idx, lemma_first_idx, file_id_is, file_index_of, has_file_id, set_target_seq,
    cancel_seq, cancel_keep, cancel_map, reset_one, is_processing,
};
use crate::planner::{
    plan_spec, Plan, request_rel, RequestError, has_active, has_completed, active_of,
    lemma_plan_spec_props,
};

verus! {

proof fn lemma_first_idx_agree<A>(s1: Seq<A>, s2: Seq<A>, pred: spec_fn(A) -> bool)
    requires
        s1.len() == s2.len(),
        forall|i: int| 0 <= i < s1.len() ==> pred(#[trigger] s1[i]) == pred(s2[i]),
    ensures
        first_idx(s1, pred) == first_idx(s2, pred),
    decreases s1.len(),
{
    if s1.len() > 0 {
        assert(pred(s1[0]) == pred(s2[0]));
        if !pred(s1[0]) {
            assert forall|i: int|
                0 <= i < s1.drop_first().len() implies pred(
                #[trigger] s1.drop_first()[i],
            ) == pred(s2.drop_first()[i]) by {
                assert(s1.drop_first()[i] == s1[i + 1]);
                assert(s2.drop_first()[i] == s2[i + 1]);
            }
            lemma_first_idx_agree(s1.drop_first(), s2.drop_first(), pred);
        }
    }
}

/// Recording the same target stage twice leaves what one recording leaves.
proof fn lemma_set_target_idempotent(files: Seq<FileRecord>, fid: Seq<char>, st: Option<Stage>)
    ensures
        set_target_seq(set_target_seq(files, fid, st), fid, st) =~= set_target_seq(files, fid, st),
{
    if has_file_id(files, fid) {
        lemma_first_idx(files, file_id_is(fid));
        let k = file_index_of(files, fid);
        assert((file_id_is(fid))(files[k]));
        let f1 = set_target_seq(files, fid, st);
        assert(f1[k].id@ == fid);
        assert(has_file_id(f1, fid));
        assert forall|i: int|
            0 <= i < files.len() implies (file_id_is(fid))(#[trigger] files[i]) == (file_id_is(
            fid,
        ))(f1[i]) by {}
        lemma_first_idx_agree(files, f1, file_id_is(fid));
        assert(file_index_of(f1, fid) == k);
        assert((FileRecord { target_stage: st, ..f1[k] }) == f1[k]);
        assert(set_target_seq(f1, fid, st) =~= f1);
    }
}

/// Requesting the same target stage twice in a row, with no state change
/// in between, is idempotent: after a first accepted request, a second
/// identical request changes nothing at all.
pub proof fn lemma_request_twice_is_noop(
    m0: Model,
    m1: Model,
    m2: Model,
    fid: Seq<char>,
    target: Seq<char>,
    r1: Result<(), RequestError>,
    r2: Result<(), RequestError>,
)
    requires
        m0.assets.len() <= usize::MAX,
        request_rel(m0, m1, fid, target, r1),
        r1 is Ok,
        request_rel(m1, m2, fid, target, r2),
    ensures
        m2 == m1,
{
    match stage_of_name(target) {
        None => {
            assert(false);
        },
        Some(stage) => {
            lemma_plan_spec_props(m0.assets, fid, stage);
            match plan_spec(m0.assets, fid, stage) {
                Plan::InFlight => {
                    assert(false);
                },
                Plan::NoOriginal => {
                    assert(false);
                },
                Plan::Satisfied => {
                    assert(m1.assets == m0.assets);
                    lemma_set_target_idempotent(m0.files, fid, Some(stage));
                    assert(set_target_seq(m1.files, fid, Some(stage)) =~= m1.files);
                    assert(m2 =~= m1);
                },
                Plan::Requeue { idx } => {
                    assert(m1.assets[idx as int].status is Queued);
                    assert(m1.assets[idx as int].file_id@ == fid);
                    assert((active_of(fid))(m1.assets[idx as int]));
                    assert(has_active(m1.assets, fid));
                    assert(m2 == m1);
                },
                Plan::Create { kind, parent_idx } => {
                    let last = m1.assets[m1.assets.len() - 1];
                    assert(last.status is Queued && last.file_id@ == fid);
                    assert((active_of(fid))(last));
                    assert(has_active(m1.assets, fid));
                    assert(m2 == m1);
                },
            }
        },
    }
}

/// Stage order is enforced. The planner creates a midi asset only once a
/// completed piano stem exists, and a pdf asset only once a completed
/// midi exists — and each is parented to that completed prerequisite.
/// While stems are incomplete, the only job it ever enqueues is the
/// original's separation.
pub proof fn lemma_plan_respects_stage_order(assets: Seq<Asset>, fid: Seq<char>, target: Stage)
    requires
        assets.len() <= usize::MAX,
    ensures
        (match plan_spec(assets, fid, target) {
            Plan::Create { kind, parent_idx } => {
                &&& (kind is Midi ==> has_completed(assets, fid, AssetType::StemPiano)
                    && assets[parent_idx as int].asset_type is StemPiano)
                &&& (kind is Pdf ==> has_completed(assets, fid, AssetType::Midi) && has_completed(
                    assets,
                    fid,
                    AssetType::StemPiano,
                ) && assets[parent_idx as int].asset_type is Midi)
                &&& assets[parent_idx as int].status is Completed
            },
            _ => true,
        }),
        !has_completed(assets, fid, AssetType::StemPiano) ==> (match plan_spec(
            assets,
            fid,
            target,
        ) {
            Plan::Requeue { idx } => assets[idx as int].asset_type is Original,
            Plan::Create { .. } => false,
            _ => true,
        }),
        !has_completed(assets, fid, AssetType::Midi) ==> !(plan_spec(assets, fid, target) matches
            Plan::Create { kind: AssetType::Pdf, .. }),
{
    lemma_plan_spec_props(assets, fid, target);
    if !has_active(assets, fid) && has_kind_original(assets, fid) {
        if !has_completed(assets, fid, AssetType::StemPiano) {
            lemma_first_idx(assets, crate::planner::kind_of(fid, AssetType::Original));
            let k = first_idx(assets, crate::planner::kind_of(fid, AssetType::Original));
            assert((crate::planner::kind_of(fid, AssetType::Original))(assets[k]));
        } else if !has_completed(assets, fid, AssetType::Midi) {
            if !crate::planner::has_kind(assets, fid, AssetType::Midi) {
                lemma_first_idx(assets, crate::planner::completed_of(fid, AssetType::StemPiano));
                let k = first_idx(assets, crate::planner::completed_of(fid, AssetType::StemPiano));
                assert((crate::planner::completed_of(fid, AssetType::StemPiano))(assets[k]));
            }
        } else if !has_completed(assets, fid, AssetType::Pdf) {
            if !crate::planner::has_kind(assets, fid, AssetType::Pdf) {
                lemma_first_idx(assets, crate::planner::completed_of(fid, AssetType::Midi));
                let k = first_idx(assets, crate::planner::completed_of(fid, AssetType::Midi));
                assert((crate::planner::completed_of(fid, AssetType::Midi))(assets[k]));
            }
        }
    }
}

spec fn has_kind_original(assets: Seq<Asset>, fid: Seq<char>) -> bool {
    crate::planner::has_kind(assets, fid, AssetType::Original)
}

/// The base of the single-active invariant: an empty store has at most
/// one queued-or-processing asset per file, vacuously. Every mutating
/// operation of the library states in its contract that it preserves
/// `single_active`, so by induction the invariant holds after any run.
pub proof fn lemma_single_active_initially(assets: Seq<Asset>)
    requires
        assets.len() == 0,
    ensures
        crate::planner::single_active(assets),
{
}

/// The ordering scenario pinned down: on a file whose only asset is its
/// completed original, a pdf request re-queues exactly that original —
/// it never reaches for a midi or pdf asset first.
pub proof fn lemma_pdf_on_bare_original(a: Asset, fid: Seq<char>)
    requires
        a.file_id@ == fid,
        a.asset_type is Original,
        a.status is Completed,
    ensures
        plan_spec(seq![a], fid, Stage::Pdf) == (Plan::Requeue { idx: 0 }),
{
    let s = seq![a];
    assert(s[0] == a);
    assert(!(active_of(fid))(a));
    assert(!has_active(s, fid));
    assert((crate::planner::kind_of(fid, AssetType::Original))(a));
    assert(crate::planner::has_kind(s, fid, AssetType::Original));
    assert(!(crate::planner::completed_of(fid, AssetType::StemPiano))(a));
    assert(!has_completed(s, fid, AssetType::StemPiano));
    assert(first_idx(s, crate::planner::kind_of(fid, AssetType::Original)) == 0);
}

/// Startup recovery is exhaustive: one pass leaves no asset in
/// `Processing`, so a second pass finds nothing to move and reports zero.
pub proof fn lemma_recovery_is_exhaustive(pre: Seq<Asset>, mid: Seq<Asset>)
    requires
        mid.len() == pre.len(),
        forall|k: int| 0 <= k < pre.len() ==> mid[k] == reset_one(#[trigger] pre[k]),
    ensures
        mid.filter(is_processing()).len() == 0,
        forall|k: int| 0 <= k < mid.len() ==> reset_one(#[trigger] mid[k]) == mid[k],
{
    assert forall|k: int| 0 <= k < mid.len() implies !(is_processing())(#[trigger] mid[k]) by {
        assert(mid[k] == reset_one(pre[k]));
    }
    assert(mid.all(|x: Asset| !(is_processing())(x)));
    mid.lemma_all_neg_filter_empty(is_processing());
}

/// Cancellation is exact: afterwards the file has nothing queued or
/// processing, its processing asset reappears marked `Cancelled`, and
/// every completed or failed asset — of any file — survives untouched.
pub proof fn lemma_cancel_effects(assets: Seq<Asset>, fid: Seq<char>)
    ensures
        forall|i: int|
            0 <= i < cancel_seq(assets, fid).len() ==> !(active_of(fid))(
                #[trigger] cancel_seq(assets, fid)[i],
            ),
        forall|i: int|
            0 <= i < assets.len() && (#[trigger] assets[i].status) is Processing
                && assets[i].file_id@ == fid ==> cancel_seq(assets, fid).contains(
                (Asset { status: crate::models::ProcessingStatus::Cancelled, ..assets[i] }),
            ),
        forall|i: int|
            0 <= i < assets.len() && ((#[trigger] assets[i].status) is Completed
                || assets[i].status is Failed) ==> cancel_seq(assets, fid).contains(assets[i]),
{
    broadcast use vstd::seq_lib::group_filter_ensures;

    let ka = assets.filter(cancel_keep(fid));
    let na = cancel_seq(assets, fid);
    assert forall|i: int| 0 <= i < na.len() implies !(active_of(fid))(#[trigger] na[i]) by {
        assert(na[i] == (cancel_map(fid))(ka[i]));
        assert((cancel_keep(fid))(ka[i]));
    }
    assert forall|i: int|
        0 <= i < assets.len() && (#[trigger] assets[i].status) is Processing && assets[i].file_id@
            == fid implies na.contains(
        (Asset { status: crate::models::ProcessingStatus::Cancelled, ..assets[i] }),
    ) by {
        assert((cancel_keep(fid))(assets[i]));
        assert(ka.contains(assets[i]));
        let w = choose|w: int| 0 <= w < ka.len() && ka[w] == assets[i];
        assert(na[w] == (cancel_map(fid))(assets[i]));
        assert(na[w] == (Asset {
            status: crate::models::ProcessingStatus::Cancelled,
            ..assets[i]
        }));
    }
    assert forall|i: int|
        0 <= i < assets.len() && ((#[trigger] assets[i].status) is Completed || assets[i].status
            is Failed) implies na.contains(assets[i]) by {
        assert((cancel_keep(fid))(assets[i]));
        assert(ka.contains(assets[i]));
        let w = choose|w: int| 0 <= w < ka.len() && ka[w] == assets[i];
        assert(na[w] == (cancel_map(fid))(assets[i]));
        assert(na[w] == assets[i]);
    }
}

} // verus!
