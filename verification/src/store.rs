use vstd::prelude::*;
use crate::models::{Asset, FileRecord, ProcessingStatus, AssetType, Stage};
use crate::ext::now_timestamp;
use crate::util::str_eq;

verus! {

/// Mathematical contents of a `Store`: the file table and the asset
/// table, each in creation order.
#[verifier::ext_equal]
pub ghost struct Model {
    pub files: Seq<FileRecord>,
    pub assets: Seq<Asset>,
}

/// Index of the first element of `s` satisfying `pred`, or `s.len()`
/// when none does.
pub open spec fn first_idx<A>(s: Seq<A>, pred: spec_fn(A) -> bool) -> int
    decreases s.len(),
{
    if s.len() == 0 {
        0
    } else if pred(s[0]) {
        0
    } else {
        1 + first_idx(s.drop_first(), pred)
    }
}

pub proof fn lemma_first_idx<A>(s: Seq<A>, pred: spec_fn(A) -> bool)
    ensures
        (exists|i: int| 0 <= i < s.len() && pred(s[i])) ==> {
            let k = first_idx(s, pred);
            &&& 0 <= k < s.len()
            &&& pred(s[k])
            &&& forall|j: int| 0 <= j < k ==> !pred(s[j])
        },
        !(exists|i: int| 0 <= i < s.len() && pred(s[i])) ==> first_idx(s, pred) == s.len(),
    decreases s.len(),
{
    if s.len() > 0 && !pred(s[0]) {
        let d = s.drop_first();
        lemma_first_idx(d, pred);
        assert(forall|i: int| 0 <= i < d.len() ==> d[i] == s[i + 1]);
        if exists|i: int| 0 <= i < s.len() && pred(s[i]) {
            let w = choose|i: int| 0 <= i < s.len() && pred(s[i]);
            assert(d[w - 1] == s[w]);
            assert(exists|i: int| 0 <= i < d.len() && pred(d[i]));
            let k = first_idx(d, pred);
            assert(0 <= k < d.len() && pred(d[k]));
            assert(first_idx(s, pred) == 1 + k);
            assert(pred(s[1 + k]));
            assert forall|j: int| 0 <= j < 1 + k implies !pred(s[j]) by {
                if j >= 1 {
                    assert(!pred(d[j - 1]));
                }
            }
        } else {
            assert forall|i: int| 0 <= i < d.len() implies !pred(d[i]) by {
                assert(d[i] == s[i + 1]);
            }
            assert(first_idx(s, pred) == 1 + d.len());
        }
    }
}

pub open spec fn file_id_is(fid: Seq<char>) -> spec_fn(FileRecord) -> bool {
    |f: FileRecord| f.id@ == fid
}

pub open spec fn asset_id_is(aid: Seq<char>) -> spec_fn(Asset) -> bool {
    |a: Asset| a.id@ == aid
}

pub open spec fn of_file(fid: Seq<char>) -> spec_fn(Asset) -> bool {
    |a: Asset| a.file_id@ == fid
}

pub open spec fn queued_pred() -> spec_fn(Asset) -> bool {
    |a: Asset| a.status is Queued
}

/// Index of the oldest queued asset, across all files.
pub open spec fn next_queued_idx(assets: Seq<Asset>) -> int {
    first_idx(assets, queued_pred())
}

pub open spec fn has_file_id(files: Seq<FileRecord>, fid: Seq<char>) -> bool {
    exists|i: int| 0 <= i < files.len() && files[i].id@ == fid
}

pub open spec fn has_asset_id(assets: Seq<Asset>, aid: Seq<char>) -> bool {
    exists|i: int| 0 <= i < assets.len() && assets[i].id@ == aid
}

pub open spec fn file_index_of(files: Seq<FileRecord>, fid: Seq<char>) -> int {
    first_idx(files, file_id_is(fid))
}

pub open spec fn asset_index_of(assets: Seq<Asset>, aid: Seq<char>) -> int {
    first_idx(assets, asset_id_is(aid))
}

/// `p` names an asset of file `fid`.
pub open spec fn valid_parent(assets: Seq<Asset>, p: Seq<char>, fid: Seq<char>) -> bool {
    exists|j: int| 0 <= j < assets.len() && assets[j].id@ == p && assets[j].file_id@ == fid
}

/// Well-formedness of the store's contents: ids are unique and every
/// asset belongs to an existing file. A parent reference is checked
/// against the same file when it is recorded; it may dangle later,
/// because cancellation deletes queued rows.
pub open spec fn store_wf(m: Model) -> bool {
    &&& forall|i: int, j: int|
        0 <= i < j < m.files.len() ==> m.files[i].id@ != m.files[j].id@
    &&& forall|i: int, j: int|
        0 <= i < j < m.assets.len() ==> m.assets[i].id@ != m.assets[j].id@
    &&& forall|i: int|
        0 <= i < m.assets.len() ==> has_file_id(m.files, #[trigger] m.assets[i].file_id@)
}

/// The file table after the target stage of file `fid` is set to `st`;
/// unchanged when no such file exists.
pub open spec fn set_target_seq(files: Seq<FileRecord>, fid: Seq<char>, st: Option<Stage>) -> Seq<
    FileRecord,
> {
    if has_file_id(files, fid) {
        let k = file_index_of(files, fid);
        files.update(k, (FileRecord { target_stage: st, ..files[k] }))
    } else {
        files
    }
}

/// The target stage recorded for file `fid`, or `None` when the file is
/// absent or has none.
pub open spec fn target_of(files: Seq<FileRecord>, fid: Seq<char>) -> Option<Stage> {
    if has_file_id(files, fid) {
        files[file_index_of(files, fid)].target_stage
    } else {
        None
    }
}

/// The asset table after the asset at `k` is re-queued in place.
pub open spec fn requeue_seq(assets: Seq<Asset>, k: int) -> Seq<Asset> {
    assets.update(
        k,
        (Asset { status: ProcessingStatus::Queued, error_message: None, ..assets[k] }),
    )
}

/// The asset table after the asset at `k` gets status `st` and message `msg`.
pub open spec fn set_status_seq(
    assets: Seq<Asset>,
    k: int,
    st: ProcessingStatus,
    msg: Option<String>,
) -> Seq<Asset> {
    assets.update(k, (Asset { status: st, error_message: msg, ..assets[k] }))
}

/// Why a store operation was refused.
#[derive(Debug, Clone, Copy, PartialEq, Eq, Structural)]
pub enum StoreError {
    /// The given id is already taken.
    DuplicateId,
    /// The named file does not exist.
    UnknownFile,
    /// The named parent is not an asset of the same file.
    BadParent,
}

impl StoreError {
    pub fn message(&self) -> (r: String)
        ensures
            r@ == match *self {
                StoreError::DuplicateId => "id already in use"@,
                StoreError::UnknownFile => "file not found"@,
                StoreError::BadParent => "parent asset not found for file"@,
            },
    {
        match self {
            StoreError::DuplicateId => "id already in use".to_owned(),
            StoreError::UnknownFile => "file not found".to_owned(),
            StoreError::BadParent => "parent asset not found for file".to_owned(),
        }
    }
}

/// Persistent record of source files and derived assets. Rows live in
/// creation order; that order defines "oldest queued" and recency.
pub struct Store {
    files: Vec<FileRecord>,
    assets: Vec<Asset>,
}

impl View for Store {
    type V = Model;

    closed spec fn view(&self) -> Model {
        Model { files: self.files@, assets: self.assets@ }
    }
}

impl Store {
    /// An empty store.
    pub fn new() -> (r: Store)
        ensures
            r@.files =~= Seq::<FileRecord>::empty(),
            r@.assets =~= Seq::<Asset>::empty(),
            store_wf(r@),
    {
        Store { files: Vec::new(), assets: Vec::new() }
    }

    /// Read access to the asset table, in creation order.
    pub fn all_assets(&self) -> (r: &Vec<Asset>)
        ensures
            r@ == self@.assets,
    {
        &self.assets
    }

    /// Read access to the file table, in creation order.
    pub fn all_files(&self) -> (r: &Vec<FileRecord>)
        ensures
            r@ == self@.files,
    {
        &self.files
    }

    /// Index of the file with the given id.
    fn find_file_index(&self, id: &str) -> (r: Option<usize>)
        ensures
            match r {
                Some(k) => k < self@.files.len() && self@.files[k as int].id@ == id@ && (forall|
                    j: int,
                |
                    0 <= j < k ==> self@.files[j].id@ != id@),
                None => !has_file_id(self@.files, id@),
            },
    {
        let mut i: usize = 0;
        while i < self.files.len()
            invariant
                i <= self@.files.len(),
                forall|j: int| 0 <= j < i ==> self@.files[j].id@ != id@,
            decreases self@.files.len() - i,
        {
            if str_eq(self.files[i].id.as_str(), id) {
                return Some(i);
            }
            i += 1;
        }
        None
    }

    /// Index of the asset with the given id.
    fn find_asset_index(&self, id: &str) -> (r: Option<usize>)
        ensures
            match r {
                Some(k) => k < self@.assets.len() && self@.assets[k as int].id@ == id@ && (forall|
                    j: int,
                |
                    0 <= j < k ==> self@.assets[j].id@ != id@),
                None => !has_asset_id(self@.assets, id@),
            },
    {
        let mut i: usize = 0;
        while i < self.assets.len()
            invariant
                i <= self@.assets.len(),
                forall|j: int| 0 <= j < i ==> self@.assets[j].id@ != id@,
            decreases self@.assets.len() - i,
        {
            if str_eq(self.assets[i].id.as_str(), id) {
                return Some(i);
            }
            i += 1;
        }
        None
    }

    /// Registers one uploaded file. The creation timestamp is taken from
    /// the wall clock and carried as data.
    pub fn create_file(&mut self, id: String, original_filename: String) -> (r: Result<
        (),
        StoreError,
    >)
        requires
            store_wf(old(self)@),
        ensures
            store_wf(final(self)@),
            final(self)@.assets == old(self)@.assets,
            match r {
                Ok(()) => {
                    &&& !has_file_id(old(self)@.files, id@)
                    &&& final(self)@.files.len() == old(self)@.files.len() + 1
                    &&& forall|k: int|
                        0 <= k < old(self)@.files.len() ==> final(self)@.files[k] == old(self)@.files[k]
                    &&& final(self)@.files.last().id == id
                    &&& final(self)@.files.last().original_filename == original_filename
                    &&& final(self)@.files.last().target_stage is None
                },
                Err(e) => {
                    &&& e == StoreError::DuplicateId
                    &&& has_file_id(old(self)@.files, id@)
                    &&& final(self)@ == old(self)@
                },
            },
    {
        if self.find_file_index(id.as_str()).is_some() {
            return Err(StoreError::DuplicateId);
        }
        let ts = now_timestamp();
        let record = FileRecord {
            id,
            original_filename,
            created_at: ts,
            target_stage: None,
        };
        self.files.push(record);
        proof {
            assert forall|i: int| 0 <= i < self@.assets.len() implies has_file_id(
                self@.files,
                #[trigger] self@.assets[i].file_id@,
            ) by {
                let w = choose|w: int|
                    0 <= w < old(self)@.files.len() && old(self)@.files[w].id@ == self@.assets[i].file_id@;
                assert(self@.files[w].id@ == self@.assets[i].file_id@);
            }
        }
        Ok(())
    }

    /// Adds one asset row. Derived assets must name an existing parent
    /// asset of the same file.
    pub fn create_asset(
        &mut self,
        id: String,
        file_id: String,
        parent_asset_id: Option<String>,
        asset_type: AssetType,
        file_path: String,
        status: ProcessingStatus,
    ) -> (r: Result<(), StoreError>)
        requires
            store_wf(old(self)@),
        ensures
            store_wf(final(self)@),
            final(self)@.files == old(self)@.files,
            match r {
                Ok(()) => {
                    &&& !has_asset_id(old(self)@.assets, id@)
                    &&& has_file_id(old(self)@.files, file_id@)
                    &&& (match parent_asset_id {
                        Some(p) => valid_parent(old(self)@.assets, p@, file_id@),
                        None => true,
                    })
                    &&& final(self)@.assets.len() == old(self)@.assets.len() + 1
                    &&& forall|k: int|
                        0 <= k < old(self)@.assets.len() ==> final(self)@.assets[k] == old(self)@.assets[k]
                    &&& final(self)@.assets.last() == (Asset {
                        created_at: final(self)@.assets.last().created_at,
                        id: id,
                        file_id: file_id,
                        parent_asset_id: parent_asset_id,
                        asset_type: asset_type,
                        file_path: file_path,
                        status: status,
                        error_message: None,
                    })
                },
                Err(StoreError::DuplicateId) => {
                    &&& has_asset_id(old(self)@.assets, id@)
                    &&& final(self)@ == old(self)@
                },
                Err(StoreError::UnknownFile) => {
                    &&& !has_asset_id(old(self)@.assets, id@)
                    &&& !has_file_id(old(self)@.files, file_id@)
                    &&& final(self)@ == old(self)@
                },
                Err(StoreError::BadParent) => {
                    &&& !has_asset_id(old(self)@.assets, id@)
                    &&& has_file_id(old(self)@.files, file_id@)
                    &&& (match parent_asset_id {
                        Some(p) => !valid_parent(old(self)@.assets, p@, file_id@),
                        None => false,
                    })
                    &&& final(self)@ == old(self)@
                },
            },
    {
        if self.find_asset_index(id.as_str()).is_some() {
            return Err(StoreError::DuplicateId);
        }
        if self.find_file_index(file_id.as_str()).is_none() {
            return Err(StoreError::UnknownFile);
        }
        match &parent_asset_id {
            Some(p) => {
                match self.find_asset_index(p.as_str()) {
                    Some(k) => {
                        if !str_eq(self.assets[k].file_id.as_str(), file_id.as_str()) {
                            proof {
                                assert forall|j: int|
                                    0 <= j < self@.assets.len() && self@.assets[j].id@ == p@
                                        implies self@.assets[j].file_id@ != file_id@ by {
                                    if j != k {
                                        assert(self@.assets[j].id@ != self@.assets[k as int].id@);
                                    }
                                }
                            }
                            return Err(StoreError::BadParent);
                        }
                    },
                    None => {
                        return Err(StoreError::BadParent);
                    },
                }
            },
            None => {},
        }
        let ts = now_timestamp();
        let row = Asset {
            id,
            file_id,
            parent_asset_id,
            asset_type,
            file_path,
            status,
            error_message: None,
            created_at: ts,
        };
        self.assets.push(row);
        proof {
            let post = self@;
            let pre = old(self)@;
            let n = pre.assets.len() as int;
            assert forall|i: int| 0 <= i < post.assets.len() implies has_file_id(
                post.files,
                #[trigger] post.assets[i].file_id@,
            ) by {
                if i < n {
                    assert(has_file_id(pre.files, pre.assets[i].file_id@));
                }
            }
        }
        Ok(())
    }

    /// Sets the status and error message of the named asset; a no-op when
    /// no such asset exists.
    pub fn update_asset_status(
        &mut self,
        asset_id: &str,
        status: ProcessingStatus,
        error_message: Option<String>,
    )
        requires
            store_wf(old(self)@),
        ensures
            store_wf(final(self)@),
            final(self)@.files == old(self)@.files,
            has_asset_id(old(self)@.assets, asset_id@) ==> final(self)@.assets =~= set_status_seq(
                old(self)@.assets,
                asset_index_of(old(self)@.assets, asset_id@),
                status,
                error_message,
            ),
            !has_asset_id(old(self)@.assets, asset_id@) ==> final(self)@ == old(self)@,
    {
        match self.find_asset_index(asset_id) {
            Some(k) => {
                let mut row = self.assets[k].clone();
                row.status = status;
                row.error_message = error_message;
                self.assets.set(k, row);
                proof {
                    lemma_first_idx(old(self)@.assets, asset_id_is(asset_id@));
                    assert(asset_index_of(old(self)@.assets, asset_id@) == k);
                }
            },
            None => {},
        }
    }

    /// The single oldest queued asset across all files, if any.
    pub fn get_next_queued_asset(&self) -> (r: Option<Asset>)
        ensures
            match r {
                None => forall|i: int|
                    0 <= i < self@.assets.len() ==> !((#[trigger] self@.assets[i]).status
                        is Queued),
                Some(a) => {
                    let k = next_queued_idx(self@.assets);
                    &&& 0 <= k < self@.assets.len()
                    &&& a == self@.assets[k]
                    &&& a.status is Queued
                    &&& forall|j: int|
                        0 <= j < k ==> !((#[trigger] self@.assets[j]).status is Queued)
                },
            },
    {
        let mut i: usize = 0;
        while i < self.assets.len()
            invariant
                i <= self@.assets.len(),
                forall|j: int| 0 <= j < i ==> !((#[trigger] self@.assets[j]).status is Queued),
            decreases self@.assets.len() - i,
        {
            if matches!(self.assets[i].status, ProcessingStatus::Queued) {
                proof {
                    lemma_first_idx(self@.assets, queued_pred());
                }
                return Some(self.assets[i].clone());
            }
            i += 1;
        }
        None
    }

    /// Sets (or clears) the target stage recorded for a file; a no-op when
    /// the file is absent.
    pub fn set_target_stage(&mut self, file_id: &str, stage: Option<Stage>)
        requires
            store_wf(old(self)@),
        ensures
            store_wf(final(self)@),
            final(self)@.assets == old(self)@.assets,
            final(self)@.files =~= set_target_seq(old(self)@.files, file_id@, stage),
    {
        match self.find_file_index(file_id) {
            Some(k) => {
                let mut row = self.files[k].clone();
                row.target_stage = stage;
                self.files.set(k, row);
                proof {
                    lemma_first_idx(old(self)@.files, file_id_is(file_id@));
                    assert(file_index_of(old(self)@.files, file_id@) == k);
                    let post = self@;
                    let pre = old(self)@;
                    assert forall|i: int| 0 <= i < post.assets.len() implies has_file_id(
                        post.files,
                        #[trigger] post.assets[i].file_id@,
                    ) by {
                        let w = choose|w: int|
                            0 <= w < pre.files.len() && pre.files[w].id@ == pre.assets[i].file_id@;
                        assert(post.files[w].id@ == post.assets[i].file_id@);
                    }
                }
            },
            None => {},
        }
    }

    /// The asset with the given id, if any.
    pub fn get_asset(&self, asset_id: &str) -> (r: Option<Asset>)
        ensures
            match r {
                Some(a) => has_asset_id(self@.assets, asset_id@) && a == self@.assets[asset_index_of(
                    self@.assets,
                    asset_id@,
                )],
                None => !has_asset_id(self@.assets, asset_id@),
            },
    {
        match self.find_asset_index(asset_id) {
            Some(k) => {
                proof {
                    lemma_first_idx(self@.assets, asset_id_is(asset_id@));
                }
                Some(self.assets[k].clone())
            },
            None => None,
        }
    }

    /// The target stage recorded for a file, or `None`.
    pub fn get_target_stage(&self, file_id: &str) -> (r: Option<Stage>)
        ensures
            r == target_of(self@.files, file_id@),
    {
        match self.find_file_index(file_id) {
            Some(k) => {
                proof {
                    lemma_first_idx(self@.files, file_id_is(file_id@));
                }
                self.files[k].target_stage
            },
            None => None,
        }
    }

    /// All assets of one file, in creation order.
    pub fn get_assets_by_file(&self, file_id: &str) -> (r: Vec<Asset>)
        ensures
            r@ =~= self@.assets.filter(of_file(file_id@)),
    {
        let ghost pred = of_file(file_id@);
        let mut r: Vec<Asset> = Vec::new();
        let mut i: usize = 0;
        while i < self.assets.len()
            invariant
                i <= self@.assets.len(),
                r@ =~= self@.assets.subrange(0, i as int).filter(of_file(file_id@)),
            decreases self@.assets.len() - i,
        {
            proof {
                assert(self@.assets.subrange(0, i + 1) =~= self@.assets.subrange(
                    0,
                    i as int,
                ).push(self@.assets[i as int]));
                lemma_filter_push(
                    self@.assets.subrange(0, i as int),
                    self@.assets[i as int],
                    of_file(file_id@),
                );
            }
            if str_eq(self.assets[i].file_id.as_str(), file_id) {
                r.push(self.assets[i].clone());
            }
            i += 1;
        }
        proof {
            assert(self@.assets.subrange(0, self@.assets.len() as int) =~= self@.assets);
        }
        r
    }

    /// All files, most recently created first.
    pub fn get_all_files(&self) -> (r: Vec<FileRecord>)
        ensures
            r@ =~= self@.files.reverse(),
    {
        let mut r: Vec<FileRecord> = Vec::new();
        let mut i: usize = self.files.len();
        while i > 0
            invariant
                i <= self@.files.len(),
                r@.len() == self@.files.len() - i,
                forall|j: int|
                    0 <= j < r@.len() ==> r@[j] == self@.files[self@.files.len() - 1 - j],
            decreases i,
        {
            r.push(self.files[i - 1].clone());
            i -= 1;
        }
        assert(r@ =~= self@.files.reverse());
        r
    }

    /// Startup recovery: every asset left in `Processing` goes back to
    /// `Queued`. Returns how many were moved.
    pub fn reset_interrupted_jobs(&mut self) -> (count: usize)
        requires
            store_wf(old(self)@),
        ensures
            store_wf(final(self)@),
            final(self)@.files == old(self)@.files,
            final(self)@.assets.len() == old(self)@.assets.len(),
            forall|k: int|
                0 <= k < old(self)@.assets.len() ==> final(self)@.assets[k] == reset_one(
                    #[trigger] old(self)@.assets[k],
                ),
            count == old(self)@.assets.filter(is_processing()).len(),
    {
        let mut count: usize = 0;
        let mut i: usize = 0;
        while i < self.assets.len()
            invariant
                i <= self@.assets.len(),
                self@.assets.len() == old(self)@.assets.len(),
                self@.files == old(self)@.files,
                forall|k: int|
                    0 <= k < i ==> self@.assets[k] == reset_one(#[trigger] old(self)@.assets[k]),
                forall|k: int|
                    i <= k < self@.assets.len() ==> self@.assets[k] == old(self)@.assets[k],
                count <= i,
                count == old(self)@.assets.subrange(0, i as int).filter(is_processing()).len(),
            decreases self@.assets.len() - i,
        {
            proof {
                assert(old(self)@.assets.subrange(0, i + 1) =~= old(self)@.assets.subrange(
                    0,
                    i as int,
                ).push(old(self)@.assets[i as int]));
                lemma_filter_push(
                    old(self)@.assets.subrange(0, i as int),
                    old(self)@.assets[i as int],
                    is_processing(),
                );
            }
            if matches!(self.assets[i].status, ProcessingStatus::Processing) {
                let mut row = self.assets[i].clone();
                row.status = ProcessingStatus::Queued;
                self.assets.set(i, row);
                count += 1;
            }
            i += 1;
        }
        proof {
            assert(old(self)@.assets.subrange(0, old(self)@.assets.len() as int) =~= old(
                self,
            )@.assets);
            let post = self@;
            let pre = old(self)@;
            assert forall|a: int, b: int| 0 <= a < b < post.assets.len() implies post.assets[a].id@
                != post.assets[b].id@ by {
                assert(post.assets[a].id@ == pre.assets[a].id@);
                assert(post.assets[b].id@ == pre.assets[b].id@);
            }
            assert forall|a: int| 0 <= a < post.assets.len() implies has_file_id(
                post.files,
                #[trigger] post.assets[a].file_id@,
            ) by {
                assert(post.assets[a].file_id@ == pre.assets[a].file_id@);
            }
        }
        count
    }

    /// Removes every asset of the file, then the file record itself.
    pub fn delete_file_and_assets(&mut self, file_id: &str)
        requires
            store_wf(old(self)@),
        ensures
            store_wf(final(self)@),
            final(self)@.assets =~= old(self)@.assets.filter(not_of_file(file_id@)),
            final(self)@.files =~= old(self)@.files.filter(file_id_not(file_id@)),
    {
        let mut keep_assets: Vec<Asset> = Vec::new();
        let mut i: usize = 0;
        while i < self.assets.len()
            invariant
                i <= self@.assets.len(),
                keep_assets@ =~= self@.assets.subrange(0, i as int).filter(not_of_file(file_id@)),
            decreases self@.assets.len() - i,
        {
            proof {
                assert(self@.assets.subrange(0, i + 1) =~= self@.assets.subrange(
                    0,
                    i as int,
                ).push(self@.assets[i as int]));
                lemma_filter_push(
                    self@.assets.subrange(0, i as int),
                    self@.assets[i as int],
                    not_of_file(file_id@),
                );
            }
            if !str_eq(self.assets[i].file_id.as_str(), file_id) {
                keep_assets.push(self.assets[i].clone());
            }
            i += 1;
        }
        let mut keep_files: Vec<FileRecord> = Vec::new();
        let mut j: usize = 0;
        while j < self.files.len()
            invariant
                j <= self@.files.len(),
                keep_files@ =~= self@.files.subrange(0, j as int).filter(file_id_not(file_id@)),
            decreases self@.files.len() - j,
        {
            proof {
                assert(self@.files.subrange(0, j + 1) =~= self@.files.subrange(0, j as int).push(
                    self@.files[j as int],
                ));
                lemma_filter_push(
                    self@.files.subrange(0, j as int),
                    self@.files[j as int],
                    file_id_not(file_id@),
                );
            }
            if !str_eq(self.files[j].id.as_str(), file_id) {
                keep_files.push(self.files[j].clone());
            }
            j += 1;
        }
        proof {
            assert(self@.assets.subrange(0, self@.assets.len() as int) =~= self@.assets);
            assert(self@.files.subrange(0, self@.files.len() as int) =~= self@.files);
        }
        self.assets = keep_assets;
        self.files = keep_files;
        proof {
            lemma_delete_wf(old(self)@, file_id@);
        }
    }

    /// Cancels a file's in-flight work: queued assets are deleted and a
    /// processing asset becomes `Cancelled`. Completed and failed assets
    /// are untouched.
    pub fn cancel_file_processing(&mut self, file_id: &str)
        requires
            store_wf(old(self)@),
        ensures
            store_wf(final(self)@),
            final(self)@.files == old(self)@.files,
            final(self)@.assets =~= cancel_seq(old(self)@.assets, file_id@),
    {
        let mut out: Vec<Asset> = Vec::new();
        let mut i: usize = 0;
        while i < self.assets.len()
            invariant
                i <= self@.assets.len(),
                out@ =~= cancel_seq(self@.assets.subrange(0, i as int), file_id@),
            decreases self@.assets.len() - i,
        {
            proof {
                let prefix = self@.assets.subrange(0, i as int);
                let x = self@.assets[i as int];
                assert(self@.assets.subrange(0, i + 1) =~= prefix.push(x));
                lemma_filter_push(prefix, x, cancel_keep(file_id@));
                if (cancel_keep(file_id@))(x) {
                    assert(prefix.push(x).filter(cancel_keep(file_id@)).map_values(
                        cancel_map(file_id@),
                    ) =~= prefix.filter(cancel_keep(file_id@)).map_values(
                        cancel_map(file_id@),
                    ).push((cancel_map(file_id@))(x)));
                }
            }
            let same_file = str_eq(self.assets[i].file_id.as_str(), file_id);
            if same_file && matches!(self.assets[i].status, ProcessingStatus::Queued) {
                // queued work of this file is dropped outright
            } else if same_file && matches!(self.assets[i].status, ProcessingStatus::Processing) {
                let mut row = self.assets[i].clone();
                row.status = ProcessingStatus::Cancelled;
                out.push(row);
            } else {
                out.push(self.assets[i].clone());
            }
            i += 1;
        }
        proof {
            assert(self@.assets.subrange(0, self@.assets.len() as int) =~= self@.assets);
        }
        self.assets = out;
        proof {
            lemma_cancel_wf(old(self)@, file_id@);
        }
    }

    /// Re-points the named asset at another parent asset of the same
    /// file; a no-op when the asset is absent, an error when the parent
    /// is not an asset of the same file.
    pub fn update_asset_parent(&mut self, asset_id: &str, parent_asset_id: Option<String>) -> (r:
        Result<(), StoreError>)
        requires
            store_wf(old(self)@),
        ensures
            store_wf(final(self)@),
            final(self)@.files == old(self)@.files,
            match r {
                Ok(()) => {
                    if has_asset_id(old(self)@.assets, asset_id@) {
                        {
                            let k = asset_index_of(old(self)@.assets, asset_id@);
                            &&& (match parent_asset_id {
                                Some(p) => valid_parent(
                                    old(self)@.assets,
                                    p@,
                                    old(self)@.assets[k].file_id@,
                                ),
                                None => true,
                            })
                            &&& final(self)@.assets =~= old(self)@.assets.update(
                                k,
                                (Asset { parent_asset_id: parent_asset_id, ..old(
                                    self,
                                )@.assets[k] }),
                            )
                        }
                    } else {
                        final(self)@ == old(self)@
                    }
                },
                Err(e) => {
                    &&& e == StoreError::BadParent
                    &&& has_asset_id(old(self)@.assets, asset_id@)
                    &&& (match parent_asset_id {
                        Some(p) => !valid_parent(
                            old(self)@.assets,
                            p@,
                            old(self)@.assets[asset_index_of(old(self)@.assets, asset_id@)].file_id@,
                        ),
                        None => false,
                    })
                    &&& final(self)@ == old(self)@
                },
            },
    {
        let k = match self.find_asset_index(asset_id) {
            Some(k) => k,
            None => {
                return Ok(());
            },
        };
        proof {
            lemma_first_idx(old(self)@.assets, asset_id_is(asset_id@));
            assert(asset_index_of(old(self)@.assets, asset_id@) == k);
        }
        match &parent_asset_id {
            Some(p) => {
                match self.find_asset_index(p.as_str()) {
                    Some(w) => {
                        if !str_eq(self.assets[w].file_id.as_str(), self.assets[k].file_id.as_str())
                        {
                            proof {
                                assert forall|j: int|
                                    0 <= j < self@.assets.len() && self@.assets[j].id@ == p@
                                        implies self@.assets[j].file_id@ != self@.assets[k as int].file_id@ by {
                                    if j != w {
                                        assert(self@.assets[j].id@ != self@.assets[w as int].id@);
                                    }
                                }
                            }
                            return Err(StoreError::BadParent);
                        }
                    },
                    None => {
                        return Err(StoreError::BadParent);
                    },
                }
            },
            None => {},
        }
        let mut row = self.assets[k].clone();
        row.parent_asset_id = parent_asset_id;
        self.assets.set(k, row);
        Ok(())
    }
}

/// A single asset after startup recovery: a processing row is re-queued,
/// every other row is untouched.
pub open spec fn reset_one(a: Asset) -> Asset {
    if a.status is Processing {
        Asset { status: ProcessingStatus::Queued, ..a }
    } else {
        a
    }
}

pub open spec fn is_processing() -> spec_fn(Asset) -> bool {
    |a: Asset| a.status is Processing
}

pub open spec fn not_of_file(fid: Seq<char>) -> spec_fn(Asset) -> bool {
    |a: Asset| a.file_id@ != fid
}

pub open spec fn file_id_not(fid: Seq<char>) -> spec_fn(FileRecord) -> bool {
    |f: FileRecord| f.id@ != fid
}

/// Rows that survive a cancellation of file `fid`: everything except its
/// queued assets.
pub open spec fn cancel_keep(fid: Seq<char>) -> spec_fn(Asset) -> bool {
    |a: Asset| !(a.file_id@ == fid && a.status is Queued)
}

/// Row transform of a cancellation of file `fid`: its processing assets
/// become cancelled.
pub open spec fn cancel_map(fid: Seq<char>) -> spec_fn(Asset) -> Asset {
    |a: Asset|
        if a.file_id@ == fid && a.status is Processing {
            Asset { status: ProcessingStatus::Cancelled, ..a }
        } else {
            a
        }
}

/// The asset table after file `fid` is cancelled.
pub open spec fn cancel_seq(assets: Seq<Asset>, fid: Seq<char>) -> Seq<Asset> {
    assets.filter(cancel_keep(fid)).map_values(cancel_map(fid))
}

/// Filtering distributes over push.
pub proof fn lemma_filter_push<A>(s: Seq<A>, x: A, pred: spec_fn(A) -> bool)
    ensures
        pred(x) ==> s.push(x).filter(pred) =~= s.filter(pred).push(x),
        !pred(x) ==> s.push(x).filter(pred) =~= s.filter(pred),
{
    reveal(Seq::filter);
    assert(s.push(x).drop_last() =~= s);
    assert(s.push(x).last() == x);
}

/// Position `i` of a filtered sequence comes from some position of the
/// original; this returns one such position.
pub proof fn lemma_filter_member_src<A>(s: Seq<A>, pred: spec_fn(A) -> bool, i: int) -> (r: int)
    requires
        0 <= i < s.filter(pred).len(),
    ensures
        0 <= r < s.len(),
        s.filter(pred)[i] == s[r],
    decreases s.len(),
{
    reveal(Seq::filter);
    broadcast use vstd::seq_lib::group_filter_ensures;

    let dl = s.drop_last();
    let f = s.filter(pred);
    let fd = dl.filter(pred);
    if pred(s.last()) && i == f.len() - 1 {
        assert(f == fd.push(s.last()));
        s.len() - 1
    } else {
        if pred(s.last()) {
            assert(f == fd.push(s.last()));
            assert(f[i] == fd[i]);
        } else {
            assert(f == fd);
        }
        let r = lemma_filter_member_src(dl, pred, i);
        assert(s[r] == dl[r]);
        r
    }
}

/// Two distinct positions of a filtered sequence come from two distinct
/// positions of the original, in the same order; this returns one such
/// pair.
pub proof fn lemma_filter_pair_src<A>(s: Seq<A>, pred: spec_fn(A) -> bool, i: int, j: int) -> (r: (
    int,
    int,
))
    requires
        0 <= i < j < s.filter(pred).len(),
    ensures
        0 <= r.0 < r.1 < s.len(),
        s.filter(pred)[i] == s[r.0],
        s.filter(pred)[j] == s[r.1],
    decreases s.len(),
{
    reveal(Seq::filter);
    broadcast use vstd::seq_lib::group_filter_ensures;

    let dl = s.drop_last();
    let f = s.filter(pred);
    let fd = dl.filter(pred);
    if pred(s.last()) && j == f.len() - 1 {
        assert(f == fd.push(s.last()));
        assert(f[i] == fd[i]);
        let i2 = lemma_filter_member_src(dl, pred, i);
        assert(s[i2] == dl[i2]);
        (i2, s.len() - 1)
    } else {
        if pred(s.last()) {
            assert(f == fd.push(s.last()));
            assert(f[i] == fd[i] && f[j] == fd[j]);
        } else {
            assert(f == fd);
        }
        let r = lemma_filter_pair_src(dl, pred, i, j);
        assert(s[r.0] == dl[r.0] && s[r.1] == dl[r.1]);
        r
    }
}

/// Deleting one file keeps the store well formed.
proof fn lemma_delete_wf(m: Model, fid: Seq<char>)
    requires
        store_wf(m),
    ensures
        store_wf(
            Model {
                files: m.files.filter(file_id_not(fid)),
                assets: m.assets.filter(not_of_file(fid)),
            },
        ),
{
    let nf = m.files.filter(file_id_not(fid));
    let na = m.assets.filter(not_of_file(fid));
    assert forall|i: int, j: int| 0 <= i < j < nf.len() implies nf[i].id@ != nf[j].id@ by {
        let r = lemma_filter_pair_src(m.files, file_id_not(fid), i, j);
    }
    assert forall|i: int, j: int| 0 <= i < j < na.len() implies na[i].id@ != na[j].id@ by {
        let r = lemma_filter_pair_src(m.assets, not_of_file(fid), i, j);
    }
    assert forall|i: int| 0 <= i < na.len() implies has_file_id(
        nf,
        #[trigger] na[i].file_id@,
    ) by {
        let w = lemma_filter_member_src(m.assets, not_of_file(fid), i);
        assert(has_file_id(m.files, m.assets[w].file_id@));
        let fw = choose|fw: int|
            0 <= fw < m.files.len() && m.files[fw].id@ == m.assets[w].file_id@;
        broadcast use vstd::seq_lib::group_filter_ensures;

        assert((not_of_file(fid))(na[i]));
        assert((file_id_not(fid))(m.files[fw]));
        assert(nf.contains(m.files[fw]));
        let v = choose|v: int| 0 <= v < nf.len() && nf[v] == m.files[fw];
        assert(nf[v].id@ == na[i].file_id@);
    }
}

/// Cancelling one file keeps the store well formed.
proof fn lemma_cancel_wf(m: Model, fid: Seq<char>)
    requires
        store_wf(m),
    ensures
        store_wf(Model { files: m.files, assets: cancel_seq(m.assets, fid) }),
{
    let ka = m.assets.filter(cancel_keep(fid));
    let na = cancel_seq(m.assets, fid);
    assert(na.len() == ka.len());
    assert(forall|i: int| 0 <= i < na.len() ==> na[i] == (cancel_map(fid))(#[trigger] ka[i]));
    assert(forall|i: int|
        0 <= i < na.len() ==> na[i].id@ == ka[i].id@ && na[i].file_id@ == ka[i].file_id@);
    assert forall|i: int, j: int| 0 <= i < j < na.len() implies na[i].id@ != na[j].id@ by {
        let r = lemma_filter_pair_src(m.assets, cancel_keep(fid), i, j);
    }
    assert forall|i: int| 0 <= i < na.len() implies has_file_id(
        m.files,
        #[trigger] na[i].file_id@,
    ) by {
        let w = lemma_filter_member_src(m.assets, cancel_keep(fid), i);
        assert(has_file_id(m.files, m.assets[w].file_id@));
    }
}

} // verus!
