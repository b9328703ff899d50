use vstd::prelude::*;
use crate::error::Error;

verus! {

/// Parent id that stands for a workspace's root directory.
pub const ROOT_DIR_ID: i64 = -1;

/// One logical file or directory. User and workspace ids are UUIDs held as `u128`.
pub struct Files {
    pub id: i64,
    pub uid: u128,
    pub ws_id: u128,
    pub filename: String,
    pub parent_dir_id: i64,
    pub is_deleted: bool,
    pub size: i64,
    pub is_dir: bool,
    pub version: i64,
}

impl Files {
    /// The root directory of workspace `ws_id`, which has no record of its own.
    pub fn root_dir(ws_id: u128, uid: u128, filename: String) -> (r: Files)
        ensures
            r == (Files {
                id: ROOT_DIR_ID,
                uid,
                ws_id,
                filename,
                parent_dir_id: -2i64,
                is_deleted: false,
                size: 0,
                is_dir: true,
                version: 1,
            }),
    {
        Files {
            id: ROOT_DIR_ID,
            uid,
            ws_id,
            filename,
            parent_dir_id: -2,
            size: 0,
            is_dir: true,
            is_deleted: false,
            version: 1,
        }
    }

    /// A fresh record at version 1, not deleted.
    pub fn new(
        id: i64,
        uid: u128,
        ws_id: u128,
        filename: String,
        parent_dir_id: i64,
        size: i64,
        is_dir: bool,
    ) -> (r: Files)
        ensures
            r == (Files {
                id,
                uid,
                ws_id,
                filename,
                parent_dir_id,
                is_deleted: false,
                size,
                is_dir,
                version: 1,
            }),
    {
        Files { id, uid, ws_id, filename, parent_dir_id, size, is_dir, is_deleted: false, version: 1 }
    }
}

/// A workspace: a tree of files rooted at `ROOT_DIR_ID`, owned by one user.
pub struct Workspaces {
    pub id: u128,
    pub uid: u128,
    pub name: String,
    pub sync: bool,
}

impl Workspaces {
    pub fn new(id: u128, name: String, uid: u128, sync: bool) -> (r: Workspaces)
        ensures
            r == (Workspaces { id, uid, name, sync }),
    {
        Workspaces { id, name, uid, sync }
    }
}

/// Workspace `ws_id` exists and `uid` owns it.
pub open spec fn workspace_owned(workspaces: Seq<Workspaces>, ws_id: u128, uid: u128) -> bool {
    exists|i: int|
        0 <= i < workspaces.len() && (#[trigger] workspaces[i]).id == ws_id && workspaces[i].uid == uid
}

/// Position of workspace `id` when `uid` owns it.
pub open spec fn workspace_pos(workspaces: Seq<Workspaces>, id: u128, uid: u128) -> Option<int>
    decreases workspaces.len(),
{
    if workspaces.len() == 0 {
        None
    } else if workspaces.last().id == id && workspaces.last().uid == uid {
        Some(workspaces.len() - 1)
    } else {
        workspace_pos(workspaces.drop_last(), id, uid)
    }
}

/// Ids of the workspaces of `uid`, in ledger order.
pub open spec fn workspace_ids_of(workspaces: Seq<Workspaces>, uid: u128) -> Seq<u128>
    decreases workspaces.len(),
{
    if workspaces.len() == 0 {
        Seq::empty()
    } else {
        let rest = workspace_ids_of(workspaces.drop_last(), uid);
        if workspaces.last().uid == uid {
            rest.push(workspaces.last().id)
        } else {
            rest
        }
    }
}

/// `uid` may create entries in directory `parent_dir_id` of workspace `ws_id`: the root
/// of a workspace that `uid` owns, or a live directory that `uid` owns there.
pub open spec fn may_write(l: LedgerView, uid: u128, ws_id: u128, parent_dir_id: i64) -> bool {
    if parent_dir_id == ROOT_DIR_ID {
        workspace_owned(l.workspaces, ws_id, uid)
    } else {
        live_index(l.files, parent_dir_id) matches Some(i) && l.files[i].uid == uid
            && l.files[i].ws_id == ws_id && l.files[i].is_dir
    }
}

/// One version of a file's content: its ordered block names and block digests.
pub struct FileHistories {
    pub fid: i64,
    pub file_version: i64,
    pub slices: Vec<String>,
    pub slices_hash: Vec<String>,
}

/// The ledger as two tables: records, and the append-only version history.
pub struct LedgerView {
    pub workspaces: Seq<Workspaces>,
    pub files: Seq<Files>,
    pub histories: Seq<FileHistories>,
}

/// Position of the live (not deleted) record with id `id`.
pub open spec fn live_index(files: Seq<Files>, id: i64) -> Option<int>
    decreases files.len(),
{
    if files.len() == 0 {
        None
    } else if files.last().id == id && !files.last().is_deleted {
        Some(files.len() - 1)
    } else {
        live_index(files.drop_last(), id)
    }
}

/// Version number of the most recent history row of file `fid`.
pub open spec fn last_version(histories: Seq<FileHistories>, fid: i64) -> Option<i64>
    decreases histories.len(),
{
    if histories.len() == 0 {
        None
    } else if histories.last().fid == fid {
        Some(histories.last().file_version)
    } else {
        last_version(histories.drop_last(), fid)
    }
}

/// Some record, deleted or not, has id `id`.
pub open spec fn has_id(files: Seq<Files>, id: i64) -> bool {
    exists|i: int| 0 <= i < files.len() && (#[trigger] files[i]).id == id
}

/// A live record of `uid` named `filename` sits in directory `parent_dir_id`.
pub open spec fn has_live_sibling(
    files: Seq<Files>,
    parent_dir_id: i64,
    uid: u128,
    filename: Seq<char>,
) -> bool {
    exists|i: int|
        0 <= i < files.len() && !(#[trigger] files[i]).is_deleted && files[i].parent_dir_id
            == parent_dir_id && files[i].uid == uid && files[i].filename@ == filename
}

impl LedgerView {
    pub open spec fn wf(self) -> bool {
        &&& forall|i: int, j: int|
            0 <= i < j < self.files.len() ==> (#[trigger] self.files[i]).id != (
            #[trigger] self.files[j]).id
        &&& forall|i: int|
            0 <= i < self.files.len() ==> (#[trigger] self.files[i]).version >= 1 && (
            !self.files[i].is_dir ==> last_version(self.histories, self.files[i].id) == Some(
                self.files[i].version,
            ))
        &&& forall|i: int|
            0 <= i < self.files.len() ==> #[trigger] versions_of(self.histories, self.files[i].id)
                == if self.files[i].is_dir {
                Seq::<i64>::empty()
            } else {
                one_to(self.files[i].version as int)
            }
        &&& forall|fid: i64|
            !has_id(self.files, fid) ==> #[trigger] versions_of(self.histories, fid) == Seq::<
                i64,
            >::empty()
    }
}

/// The version numbers of the history rows of file `fid`, in order.
pub open spec fn versions_of(histories: Seq<FileHistories>, fid: i64) -> Seq<i64>
    decreases histories.len(),
{
    if histories.len() == 0 {
        Seq::empty()
    } else {
        let rest = versions_of(histories.drop_last(), fid);
        if histories.last().fid == fid {
            rest.push(histories.last().file_version)
        } else {
            rest
        }
    }
}

/// The version numbers `1, 2, ..., n`.
pub open spec fn one_to(n: int) -> Seq<i64> {
    Seq::new(n as nat, |i: int| (i + 1) as i64)
}

proof fn lemma_versions_push(histories: Seq<FileHistories>, h: FileHistories, fid: i64)
    ensures
        versions_of(histories.push(h), fid) == if h.fid == fid {
            versions_of(histories, fid).push(h.file_version)
        } else {
            versions_of(histories, fid)
        },
{
    assert(histories.push(h).drop_last() =~= histories);
}

/// A ledger that gained records keeps knowing every id it knew.
proof fn lemma_has_id_grows(pre: Seq<Files>, post: Seq<Files>, fid: i64)
    requires
        pre.len() <= post.len(),
        forall|j: int| 0 <= j < pre.len() ==> (#[trigger] post[j]).id == pre[j].id,
        has_id(pre, fid),
    ensures
        has_id(post, fid),
{
    let j = choose|j: int| 0 <= j < pre.len() && (#[trigger] pre[j]).id == fid;
    assert(post[j].id == fid);
}

/// Why `create` refuses, if it does.
pub open spec fn create_error(
    files: Seq<Files>,
    id: i64,
    uid: u128,
    parent_dir_id: i64,
    filename: Seq<char>,
) -> Option<Error> {
    if has_id(files, id) || has_live_sibling(files, parent_dir_id, uid, filename) {
        Some(Error::AlreadyExists)
    } else {
        None
    }
}

/// Why `update_content` refuses, if it does.
pub open spec fn update_error(files: Seq<Files>, id: i64, expected_version: i64, uid: u128) -> Option<
    Error,
> {
    match live_index(files, id) {
        None => Some(Error::NotFound),
        Some(i) => if files[i].is_dir {
            Some(Error::NotFound)
        } else if files[i].uid != uid {
            Some(Error::Unauthorized)
        } else if files[i].version != expected_version {
            Some(Error::VersionConflict)
        } else if expected_version == i64::MAX {
            Some(Error::LimitExceeded)
        } else {
            None
        },
    }
}

/// The ledger after a successful `update_content`.
pub open spec fn update_post(
    pre: LedgerView,
    id: i64,
    expected_version: i64,
    size: i64,
    slices: Vec<String>,
    slices_hash: Vec<String>,
) -> LedgerView {
    let i = live_index(pre.files, id)->Some_0;
    LedgerView {
        workspaces: pre.workspaces,
        files: pre.files.update(
            i,
            Files { version: (expected_version + 1) as i64, size, ..pre.files[i] },
        ),
        histories: pre.histories.push(
            FileHistories { fid: id, file_version: (expected_version + 1) as i64, slices, slices_hash },
        ),
    }
}

proof fn lemma_live_index_found(files: Seq<Files>, id: i64)
    ensures
        live_index(files, id) matches Some(i) ==> 0 <= i < files.len() && files[i].id == id
            && !files[i].is_deleted,
        live_index(files, id) is None ==> forall|i: int|
            0 <= i < files.len() && (#[trigger] files[i]).id == id ==> files[i].is_deleted,
    decreases files.len(),
{
    if files.len() > 0 {
        lemma_live_index_found(files.drop_last(), id);
        assert forall|i: int| 0 <= i < files.len() - 1 implies files.drop_last()[i] == files[i] by {}
    }
}

proof fn lemma_live_index_update(files: Seq<Files>, id: i64, i: int, f: Files)
    requires
        live_index(files, id) == Some(i),
        f.id == id,
        !f.is_deleted,
    ensures
        live_index(files.update(i, f), id) == Some(i),
    decreases files.len(),
{
    lemma_live_index_found(files, id);
    if i < files.len() - 1 {
        assert(live_index(files.drop_last(), id) == Some(i));
        lemma_live_index_update(files.drop_last(), id, i, f);
        assert(files.update(i, f).drop_last() =~= files.drop_last().update(i, f));
    }
}

proof fn lemma_last_version_push(histories: Seq<FileHistories>, h: FileHistories, fid: i64)
    ensures
        last_version(histories.push(h), fid) == if h.fid == fid {
            Some(h.file_version)
        } else {
            last_version(histories, fid)
        },
{
    assert(histories.push(h).drop_last() =~= histories);
}

/// Ids of the live entries of `uid` in directory `parent_dir_id`, in ledger order.
pub open spec fn child_ids(files: Seq<Files>, parent_dir_id: i64, uid: u128) -> Seq<i64>
    decreases files.len(),
{
    if files.len() == 0 {
        Seq::empty()
    } else {
        let f = files.last();
        let rest = child_ids(files.drop_last(), parent_dir_id, uid);
        if !f.is_deleted && f.parent_dir_id == parent_dir_id && f.uid == uid {
            rest.push(f.id)
        } else {
            rest
        }
    }
}

/// Why listing directory `parent_dir_id` for `uid` in workspace `ws_id` fails, if it does.
pub open spec fn list_error(l: LedgerView, uid: u128, ws_id: u128, parent_dir_id: i64) -> Option<Error> {
    let files = l.files;
    if parent_dir_id == ROOT_DIR_ID {
        if workspace_owned(l.workspaces, ws_id, uid) {
            None
        } else {
            Some(Error::Unauthorized)
        }
    } else {
        match live_index(files, parent_dir_id) {
            Some(i) => if files[i].uid != uid || files[i].ws_id != ws_id {
                Some(Error::Unauthorized)
            } else if !files[i].is_dir {
                Some(Error::NotFound)
            } else {
                None
            },
            None => Some(Error::Unauthorized),
        }
    }
}

/// The durable record of files and of the block lists of their versions.
pub struct FileLedger {
    workspaces: Vec<Workspaces>,
    files: Vec<Files>,
    histories: Vec<FileHistories>,
}

impl View for FileLedger {
    type V = LedgerView;

    closed spec fn view(&self) -> LedgerView {
        LedgerView {
            workspaces: self.workspaces@,
            files: self.files@,
            histories: self.histories@,
        }
    }
}

impl FileLedger {
    pub fn new() -> (r: FileLedger)
        ensures
            r@.workspaces == Seq::<Workspaces>::empty(),
            r@.files == Seq::<Files>::empty(),
            r@.histories == Seq::<FileHistories>::empty(),
            r@.wf(),
    {
        FileLedger { workspaces: Vec::new(), files: Vec::new(), histories: Vec::new() }
    }

    fn find_live(&self, id: i64) -> (r: Option<usize>)
        ensures
            r matches Some(i) ==> i < self@.files.len() && live_index(self@.files, id) == Some(
                i as int,
            ),
            r is None ==> live_index(self@.files, id) is None,
    {
        let mut j: usize = self.files.len();
        assert(self.files@.subrange(0, j as int) =~= self.files@);
        while j > 0
            invariant
                j <= self.files@.len(),
                live_index(self.files@, id) == live_index(self.files@.subrange(0, j as int), id),
            decreases j,
        {
            assert(self.files@.subrange(0, j as int).drop_last() =~= self.files@.subrange(
                0,
                j - 1,
            ));
            if self.files[j - 1].id == id && !self.files[j - 1].is_deleted {
                return Some(j - 1);
            }
            j = j - 1;
        }
        None
    }

    /// The live record with id `id`.
    pub fn get(&self, id: i64) -> (r: Option<&Files>)
        ensures
            r matches Some(f) ==> live_index(self@.files, id) matches Some(i) && *f
                == self@.files[i],
            r is None ==> live_index(self@.files, id) is None,
    {
        match self.find_live(id) {
            Some(i) => Some(&self.files[i]),
            None => None,
        }
    }

    /// The live record `id` when `uid` owns it in workspace `ws_id`.
    pub fn check_owner(&self, uid: u128, id: i64, ws_id: u128) -> (r: Option<&Files>)
        ensures
            r matches Some(f) ==> live_index(self@.files, id) matches Some(i) && *f
                == self@.files[i] && f.uid == uid && f.ws_id == ws_id,
            r is None ==> (live_index(self@.files, id) matches Some(i) ==> self@.files[i].uid != uid
                || self@.files[i].ws_id != ws_id),
    {
        match self.find_live(id) {
            Some(i) => {
                if self.files[i].uid == uid && self.files[i].ws_id == ws_id {
                    Some(&self.files[i])
                } else {
                    None
                }
            },
            None => None,
        }
    }

    /// The history row of version `file_version` of file `fid`.
    pub fn find_history(&self, fid: i64, file_version: i64) -> (r: Option<&FileHistories>)
        ensures
            r matches Some(h) ==> h.fid == fid && h.file_version == file_version && exists|k: int|
                0 <= k < self@.histories.len() && self@.histories[k] == *h,
            r is None ==> forall|k: int|
                0 <= k < self@.histories.len() ==> !((#[trigger] self@.histories[k]).fid == fid
                    && self@.histories[k].file_version == file_version),
    {
        let mut k: usize = 0;
        while k < self.histories.len()
            invariant
                k <= self.histories@.len(),
                forall|m: int|
                    0 <= m < k ==> !((#[trigger] self.histories@[m]).fid == fid
                        && self.histories@[m].file_version == file_version),
            decreases self.histories@.len() - k,
        {
            if self.histories[k].fid == fid && self.histories[k].file_version == file_version {
                assert(self@.histories[k as int] == self.histories@[k as int]);
                return Some(&self.histories[k]);
            }
            k = k + 1;
        }
        None
    }

    fn has_id_exec(&self, id: i64) -> (r: bool)
        ensures
            r == has_id(self@.files, id),
    {
        let mut k: usize = 0;
        while k < self.files.len()
            invariant
                k <= self.files@.len(),
                forall|m: int| 0 <= m < k ==> (#[trigger] self.files@[m]).id != id,
            decreases self.files@.len() - k,
        {
            if self.files[k].id == id {
                return true;
            }
            k = k + 1;
        }
        false
    }

    /// Whether a live record of `uid` named `filename` sits in `parent_dir_id`.
    pub fn has_sibling(&self, parent_dir_id: i64, uid: u128, filename: &String) -> (r: bool)
        ensures
            r == has_live_sibling(self@.files, parent_dir_id, uid, filename@),
    {
        let mut k: usize = 0;
        while k < self.files.len()
            invariant
                k <= self.files@.len(),
                forall|m: int|
                    0 <= m < k ==> !(!(#[trigger] self.files@[m]).is_deleted
                        && self.files@[m].parent_dir_id == parent_dir_id && self.files@[m].uid
                        == uid && self.files@[m].filename@ == filename@),
            decreases self.files@.len() - k,
        {
            let f = &self.files[k];
            if !f.is_deleted && f.parent_dir_id == parent_dir_id && f.uid == uid && f.filename
                == *filename {
                return true;
            }
            k = k + 1;
        }
        false
    }

    /// Workspace `id` when `uid` owns it.
    pub fn get_workspace(&self, id: u128, uid: u128) -> (r: Option<&Workspaces>)
        ensures
            r is Some <==> workspace_owned(self@.workspaces, id, uid),
            r matches Some(w) ==> w.id == id && w.uid == uid,
    {
        let mut k: usize = 0;
        while k < self.workspaces.len()
            invariant
                k <= self.workspaces@.len(),
                forall|m: int|
                    0 <= m < k ==> !((#[trigger] self.workspaces@[m]).id == id
                        && self.workspaces@[m].uid == uid),
            decreases self.workspaces@.len() - k,
        {
            if self.workspaces[k].id == id && self.workspaces[k].uid == uid {
                return Some(&self.workspaces[k]);
            }
            k = k + 1;
        }
        None
    }

    fn find_workspace(&self, id: u128, uid: u128) -> (r: Option<usize>)
        ensures
            r matches Some(k) ==> k < self@.workspaces.len() && workspace_pos(self@.workspaces, id, uid)
                == Some(k as int),
            r is None ==> workspace_pos(self@.workspaces, id, uid) is None,
    {
        let mut j: usize = self.workspaces.len();
        assert(self.workspaces@.subrange(0, j as int) =~= self.workspaces@);
        while j > 0
            invariant
                j <= self.workspaces@.len(),
                workspace_pos(self.workspaces@, id, uid) == workspace_pos(
                    self.workspaces@.subrange(0, j as int),
                    id,
                    uid,
                ),
            decreases j,
        {
            assert(self.workspaces@.subrange(0, j as int).drop_last() =~= self.workspaces@.subrange(
                0,
                j - 1,
            ));
            if self.workspaces[j - 1].id == id && self.workspaces[j - 1].uid == uid {
                return Some(j - 1);
            }
            j = j - 1;
        }
        None
    }

    /// Ids of the workspaces that `uid` owns.
    pub fn get_workspace_list(&self, uid: u128) -> (r: Vec<u128>)
        ensures
            r@ == workspace_ids_of(self@.workspaces, uid),
    {
        let mut ids: Vec<u128> = Vec::new();
        let mut k: usize = 0;
        while k < self.workspaces.len()
            invariant
                k <= self.workspaces@.len(),
                ids@ == workspace_ids_of(self.workspaces@.subrange(0, k as int), uid),
            decreases self.workspaces@.len() - k,
        {
            assert(self.workspaces@.subrange(0, k + 1).drop_last() =~= self.workspaces@.subrange(
                0,
                k as int,
            ));
            if self.workspaces[k].uid == uid {
                ids.push(self.workspaces[k].id);
            }
            k = k + 1;
        }
        assert(self.workspaces@.subrange(0, k as int) =~= self.workspaces@);
        ids
    }

    /// Renames workspace `id` of `uid`.
    pub fn update_workspace(&mut self, id: u128, uid: u128, name: String) -> (r: Result<(), Error>)
        requires
            old(self)@.wf(),
        ensures
            final(self)@.wf(),
            match workspace_pos(old(self)@.workspaces, id, uid) {
                None => r == Err::<(), Error>(Error::NotFound) && final(self)@ == old(self)@,
                Some(k) => r is Ok && final(self)@ == (LedgerView {
                    workspaces: old(self)@.workspaces.update(
                        k,
                        Workspaces { name, ..old(self)@.workspaces[k] },
                    ),
                    files: old(self)@.files,
                    histories: old(self)@.histories,
                }),
            },
    {
        let k = match self.find_workspace(id, uid) {
            Some(k) => k,
            None => {
                return Err(Error::NotFound);
            },
        };
        let ghost pre = self@;
        let w = self.workspaces.remove(k);
        let renamed = Workspaces { name, ..w };
        self.workspaces.insert(k, renamed);
        assert(self@.workspaces =~= pre.workspaces.update(k as int, renamed));
        Ok(())
    }

    /// Removes workspace `id` of `uid`. Its files and their history are kept.
    pub fn delete_workspace(&mut self, id: u128, uid: u128) -> (r: Result<(), Error>)
        requires
            old(self)@.wf(),
        ensures
            final(self)@.wf(),
            match workspace_pos(old(self)@.workspaces, id, uid) {
                None => r == Err::<(), Error>(Error::NotFound) && final(self)@ == old(self)@,
                Some(k) => r is Ok && final(self)@ == (LedgerView {
                    workspaces: old(self)@.workspaces.remove(k),
                    files: old(self)@.files,
                    histories: old(self)@.histories,
                }),
            },
    {
        let k = match self.find_workspace(id, uid) {
            Some(k) => k,
            None => {
                return Err(Error::NotFound);
            },
        };
        self.workspaces.remove(k);
        Ok(())
    }

    /// Registers a workspace; fails when its id is taken.
    pub fn insert_workspace(&mut self, ws: Workspaces) -> (r: Result<(), Error>)
        requires
            old(self)@.wf(),
        ensures
            final(self)@.wf(),
            (exists|i: int| 0 <= i < old(self)@.workspaces.len() && (#[trigger] old(self)@.workspaces[i]).id == ws.id)
                ==> r == Err::<(), Error>(Error::AlreadyExists) && final(self)@ == old(self)@,
            !(exists|i: int| 0 <= i < old(self)@.workspaces.len() && (#[trigger] old(self)@.workspaces[i]).id == ws.id)
                ==> r is Ok && final(self)@ == (LedgerView {
                workspaces: old(self)@.workspaces.push(ws),
                files: old(self)@.files,
                histories: old(self)@.histories,
            }),
    {
        if self.has_workspace_id(ws.id) {
            return Err(Error::AlreadyExists);
        }
        self.workspaces.push(ws);
        Ok(())
    }

    fn has_workspace_id(&self, id: u128) -> (r: bool)
        ensures
            r == exists|i: int| 0 <= i < self@.workspaces.len() && (#[trigger] self@.workspaces[i]).id == id,
    {
        let mut k: usize = 0;
        while k < self.workspaces.len()
            invariant
                k <= self.workspaces@.len(),
                forall|m: int| 0 <= m < k ==> (#[trigger] self.workspaces@[m]).id != id,
            decreases self.workspaces@.len() - k,
        {
            if self.workspaces[k].id == id {
                assert(self@.workspaces[k as int].id == id);
                return true;
            }
            k = k + 1;
        }
        false
    }

    /// Ids of the live entries of `uid` in directory `parent_dir_id`.
    pub fn get_by_parent_dir_id_and_uid(&self, parent_dir_id: i64, uid: u128) -> (r: Vec<i64>)
        ensures
            r@ == child_ids(self@.files, parent_dir_id, uid),
    {
        let mut ids: Vec<i64> = Vec::new();
        let mut k: usize = 0;
        while k < self.files.len()
            invariant
                k <= self.files@.len(),
                ids@ == child_ids(self.files@.subrange(0, k as int), parent_dir_id, uid),
            decreases self.files@.len() - k,
        {
            assert(self.files@.subrange(0, k + 1).drop_last() =~= self.files@.subrange(0, k as int));
            let f = &self.files[k];
            if !f.is_deleted && f.parent_dir_id == parent_dir_id && f.uid == uid {
                ids.push(f.id);
            }
            k = k + 1;
        }
        assert(self.files@.subrange(0, k as int) =~= self.files@);
        ids
    }

    /// Lists directory `parent_dir_id` (the workspace root for `ROOT_DIR_ID`) of
    /// workspace `ws_id`: the ids of the live entries that `uid` has there. The
    /// directory must be `uid`'s own.
    pub fn list_dir(&self, uid: u128, ws_id: u128, parent_dir_id: i64) -> (r: Result<Vec<i64>, Error>)
        ensures
            match list_error(self@, uid, ws_id, parent_dir_id) {
                Some(e) => r == Err::<Vec<i64>, Error>(e),
                None => r matches Ok(ids) && ids@ == child_ids(self@.files, parent_dir_id, uid),
            },
    {
        if parent_dir_id == ROOT_DIR_ID {
            if self.get_workspace(ws_id, uid).is_none() {
                return Err(Error::Unauthorized);
            }
        } else {
            match self.find_live(parent_dir_id) {
                Some(i) => {
                    let dir = &self.files[i];
                    if dir.uid != uid || dir.ws_id != ws_id {
                        return Err(Error::Unauthorized);
                    }
                    if !dir.is_dir {
                        return Err(Error::NotFound);
                    }
                },
                None => {
                    return Err(Error::Unauthorized);
                },
            }
        }
        Ok(self.get_by_parent_dir_id_and_uid(parent_dir_id, uid))
    }

    /// Whether `create` would refuse: the id is taken or a live sibling has the name.
    pub fn taken(&self, id: i64, parent_dir_id: i64, uid: u128, filename: &String) -> (r: bool)
        ensures
            r == create_error(self@.files, id, uid, parent_dir_id, filename@) is Some,
    {
        self.has_id_exec(id) || self.has_sibling(parent_dir_id, uid, filename)
    }

    /// Whether `uid` may create entries in `parent_dir_id` of workspace `ws_id`: the
    /// workspace root, or a live directory that `uid` owns there.
    pub fn may_write(&self, uid: u128, ws_id: u128, parent_dir_id: i64) -> (r: bool)
        ensures
            r == may_write(self@, uid, ws_id, parent_dir_id),
    {
        if parent_dir_id == ROOT_DIR_ID {
            return self.get_workspace(ws_id, uid).is_some();
        }
        match self.check_owner(uid, parent_dir_id, ws_id) {
            Some(dir) => dir.is_dir,
            None => false,
        }
    }

    /// Records a new file at version 1 together with its first history row, in one step.
    /// Fails when the id is taken or a live sibling has the same name.
    pub fn create(
        &mut self,
        id: i64,
        uid: u128,
        ws_id: u128,
        parent_dir_id: i64,
        filename: String,
        size: i64,
        slices: Vec<String>,
        slices_hash: Vec<String>,
    ) -> (r: Result<(), Error>)
        requires
            old(self)@.wf(),
        ensures
            final(self)@.wf(),
            match create_error(old(self)@.files, id, uid, parent_dir_id, filename@) {
                Some(e) => r == Err::<(), Error>(e) && final(self)@ == old(self)@,
                None => r is Ok && final(self)@ == (LedgerView {
                    workspaces: old(self)@.workspaces,
                    files: old(self)@.files.push(
                        Files {
                            id,
                            uid,
                            ws_id,
                            filename,
                            parent_dir_id,
                            is_deleted: false,
                            size,
                            is_dir: false,
                            version: 1,
                        },
                    ),
                    histories: old(self)@.histories.push(
                        FileHistories { fid: id, file_version: 1, slices, slices_hash },
                    ),
                }),
            },
    {
        if self.has_id_exec(id) || self.has_sibling(parent_dir_id, uid, &filename) {
            return Err(Error::AlreadyExists);
        }
        let ghost pre = self@;
        let f = Files::new(id, uid, ws_id, filename, parent_dir_id, size, false);
        self.files.push(f);
        self.histories.push(FileHistories { fid: id, file_version: 1, slices, slices_hash });
        proof {
            let h = FileHistories { fid: id, file_version: 1, slices, slices_hash };
            assert forall|i: int| 0 <= i < self@.files.len() implies (#[trigger] self@.files[i]).version
                >= 1 && (!self@.files[i].is_dir ==> last_version(
                self@.histories,
                self@.files[i].id,
            ) == Some(self@.files[i].version)) by {
                lemma_last_version_push(pre.histories, h, self@.files[i].id);
                if i < pre.files.len() {
                    assert(self@.files[i] == pre.files[i]);
                }
            }
            assert forall|i: int| 0 <= i < self@.files.len() implies #[trigger] versions_of(
                self@.histories,
                self@.files[i].id,
            ) == if self@.files[i].is_dir {
                Seq::<i64>::empty()
            } else {
                one_to(self@.files[i].version as int)
            } by {
                lemma_versions_push(pre.histories, h, self@.files[i].id);
                if i < pre.files.len() {
                    assert(self@.files[i] == pre.files[i]);
                    assert(pre.files[i].id != id);
                } else {
                    assert(!has_id(pre.files, id));
                    assert(versions_of(pre.histories, id) == Seq::<i64>::empty());
                    assert(versions_of(self@.histories, id) =~= one_to(1));
                }
            }
            assert forall|fid: i64| !has_id(self@.files, fid) implies #[trigger] versions_of(
                self@.histories,
                fid,
            ) == Seq::<i64>::empty() by {
                lemma_versions_push(pre.histories, h, fid);
                if has_id(pre.files, fid) {
                    lemma_has_id_grows(pre.files, self@.files, fid);
                }
                assert(self@.files[pre.files.len() as int].id == id);
            }
        }
        Ok(())
    }

    /// Records a new directory. Directories have no content history.
    pub fn create_dir(
        &mut self,
        id: i64,
        uid: u128,
        ws_id: u128,
        parent_dir_id: i64,
        filename: String,
    ) -> (r: Result<(), Error>)
        requires
            old(self)@.wf(),
        ensures
            final(self)@.wf(),
            match create_error(old(self)@.files, id, uid, parent_dir_id, filename@) {
                Some(e) => r == Err::<(), Error>(e) && final(self)@ == old(self)@,
                None => r is Ok && final(self)@ == (LedgerView {
                    workspaces: old(self)@.workspaces,
                    files: old(self)@.files.push(
                        Files {
                            id,
                            uid,
                            ws_id,
                            filename,
                            parent_dir_id,
                            is_deleted: false,
                            size: 0,
                            is_dir: true,
                            version: 1,
                        },
                    ),
                    histories: old(self)@.histories,
                }),
            },
    {
        if self.has_id_exec(id) || self.has_sibling(parent_dir_id, uid, &filename) {
            return Err(Error::AlreadyExists);
        }
        let ghost pre = self@;
        let f = Files::new(id, uid, ws_id, filename, parent_dir_id, 0, true);
        self.files.push(f);
        proof {
            assert forall|i: int| 0 <= i < self@.files.len() implies (#[trigger] self@.files[i]).version
                >= 1 && (!self@.files[i].is_dir ==> last_version(
                self@.histories,
                self@.files[i].id,
            ) == Some(self@.files[i].version)) by {
                if i < pre.files.len() {
                    assert(self@.files[i] == pre.files[i]);
                }
            }
            assert forall|i: int| 0 <= i < self@.files.len() implies #[trigger] versions_of(
                self@.histories,
                self@.files[i].id,
            ) == if self@.files[i].is_dir {
                Seq::<i64>::empty()
            } else {
                one_to(self@.files[i].version as int)
            } by {
                if i < pre.files.len() {
                    assert(self@.files[i] == pre.files[i]);
                } else {
                    assert(!has_id(pre.files, id));
                }
            }
            assert forall|fid: i64| !has_id(self@.files, fid) implies #[trigger] versions_of(
                self@.histories,
                fid,
            ) == Seq::<i64>::empty() by {
                if has_id(pre.files, fid) {
                    lemma_has_id_grows(pre.files, self@.files, fid);
                }
            }
        }
        Ok(())
    }

    /// Replaces the content of file `id`: the version advances from `expected_version`
    /// to `expected_version + 1` and a history row for it is appended, in one step.
    /// Fails with `VersionConflict` when the stored version is no longer
    /// `expected_version`.
    pub fn update_content(
        &mut self,
        id: i64,
        expected_version: i64,
        size: i64,
        slices: Vec<String>,
        slices_hash: Vec<String>,
        uid: u128,
    ) -> (r: Result<(), Error>)
        requires
            old(self)@.wf(),
        ensures
            final(self)@.wf(),
            match update_error(old(self)@.files, id, expected_version, uid) {
                Some(e) => r == Err::<(), Error>(e) && final(self)@ == old(self)@,
                None => r is Ok && final(self)@ == update_post(
                    old(self)@,
                    id,
                    expected_version,
                    size,
                    slices,
                    slices_hash,
                ),
            },
    {
        let i = match self.find_live(id) {
            Some(i) => i,
            None => {
                return Err(Error::NotFound);
            },
        };
        proof {
            lemma_live_index_found(self@.files, id);
        }
        if self.files[i].is_dir {
            return Err(Error::NotFound);
        }
        if self.files[i].uid != uid {
            return Err(Error::Unauthorized);
        }
        if self.files[i].version != expected_version {
            return Err(Error::VersionConflict);
        }
        if expected_version == i64::MAX {
            return Err(Error::LimitExceeded);
        }
        let ghost pre = self@;
        let new_version = expected_version + 1;
        let old_rec = self.files.remove(i);
        let rec = Files { version: new_version, size, ..old_rec };
        self.files.insert(i, rec);
        self.histories.push(
            FileHistories { fid: id, file_version: new_version, slices, slices_hash },
        );
        proof {
            assert(self@.files =~= pre.files.update(i as int, rec));
            let h = FileHistories { fid: id, file_version: new_version, slices, slices_hash };
            assert forall|k: int| 0 <= k < self@.files.len() implies (#[trigger] self@.files[k]).version
                >= 1 && (!self@.files[k].is_dir ==> last_version(
                self@.histories,
                self@.files[k].id,
            ) == Some(self@.files[k].version)) by {
                lemma_last_version_push(pre.histories, h, self@.files[k].id);
                if k != i {
                    assert(self@.files[k] == pre.files[k]);
                    assert(pre.files[k].id != pre.files[i as int].id) by {
                        if k < i {
                            assert(pre.files[k].id != pre.files[i as int].id);
                        }
                    }
                }
            }
            assert forall|k: int| 0 <= k < self@.files.len() implies #[trigger] versions_of(
                self@.histories,
                self@.files[k].id,
            ) == if self@.files[k].is_dir {
                Seq::<i64>::empty()
            } else {
                one_to(self@.files[k].version as int)
            } by {
                lemma_versions_push(pre.histories, h, self@.files[k].id);
                if k != i {
                    assert(self@.files[k] == pre.files[k]);
                    assert(pre.files[k].id != pre.files[i as int].id) by {
                        if k < i {
                            assert(pre.files[k].id != pre.files[i as int].id);
                        }
                    }
                } else {
                    assert(versions_of(pre.histories, id) == one_to(expected_version as int));
                    assert(versions_of(self@.histories, id) =~= one_to(new_version as int));
                }
            }
            assert forall|fid: i64| !has_id(self@.files, fid) implies #[trigger] versions_of(
                self@.histories,
                fid,
            ) == Seq::<i64>::empty() by {
                lemma_versions_push(pre.histories, h, fid);
                if has_id(pre.files, fid) {
                    lemma_has_id_grows(pre.files, self@.files, fid);
                }
                assert(self@.files[i as int].id == id);
            }
        }
        Ok(())
    }

    /// Marks file `id` as deleted. Its history and blocks are kept.
    pub fn soft_delete(&mut self, id: i64, uid: u128) -> (r: Result<(), Error>)
        requires
            old(self)@.wf(),
        ensures
            final(self)@.wf(),
            match live_index(old(self)@.files, id) {
                None => r == Err::<(), Error>(Error::NotFound) && final(self)@ == old(self)@,
                Some(i) => if old(self)@.files[i].uid != uid {
                    r == Err::<(), Error>(Error::Unauthorized) && final(self)@ == old(self)@
                } else {
                    r is Ok && final(self)@ == (LedgerView {
                        workspaces: old(self)@.workspaces,
                        files: old(self)@.files.update(
                            i,
                            Files { is_deleted: true, ..old(self)@.files[i] },
                        ),
                        histories: old(self)@.histories,
                    })
                },
            },
    {
        let i = match self.find_live(id) {
            Some(i) => i,
            None => {
                return Err(Error::NotFound);
            },
        };
        proof {
            lemma_live_index_found(self@.files, id);
        }
        if self.files[i].uid != uid {
            return Err(Error::Unauthorized);
        }
        let ghost pre = self@;
        let old_rec = self.files.remove(i);
        let rec = Files { is_deleted: true, ..old_rec };
        self.files.insert(i, rec);
        proof {
            assert(self@.files =~= pre.files.update(i as int, rec));
            assert forall|k: int| 0 <= k < self@.files.len() implies (#[trigger] self@.files[k]).version
                >= 1 && (!self@.files[k].is_dir ==> last_version(
                self@.histories,
                self@.files[k].id,
            ) == Some(self@.files[k].version)) by {
                if k != i {
                    assert(self@.files[k] == pre.files[k]);
                } else {
                    assert(pre.files[k].version >= 1);
                }
            }
            assert forall|k: int| 0 <= k < self@.files.len() implies #[trigger] versions_of(
                self@.histories,
                self@.files[k].id,
            ) == if self@.files[k].is_dir {
                Seq::<i64>::empty()
            } else {
                one_to(self@.files[k].version as int)
            } by {
                if k != i {
                    assert(self@.files[k] == pre.files[k]);
                }
            }
            assert forall|fid: i64| !has_id(self@.files, fid) implies #[trigger] versions_of(
                self@.histories,
                fid,
            ) == Seq::<i64>::empty() by {
                if has_id(pre.files, fid) {
                    lemma_has_id_grows(pre.files, self@.files, fid);
                }
            }
        }
        Ok(())
    }

    /// Gives file `id` a new name. This is metadata: no new version is made.
    pub fn rename(&mut self, id: i64, filename: String) -> (r: Result<(), Error>)
        requires
            old(self)@.wf(),
        ensures
            final(self)@.wf(),
            match live_index(old(self)@.files, id) {
                None => r == Err::<(), Error>(Error::NotFound) && final(self)@ == old(self)@,
                Some(i) => r is Ok && final(self)@ == (LedgerView {
                    workspaces: old(self)@.workspaces,
                    files: old(self)@.files.update(i, Files { filename, ..old(self)@.files[i] }),
                    histories: old(self)@.histories,
                }),
            },
    {
        let i = match self.find_live(id) {
            Some(i) => i,
            None => {
                return Err(Error::NotFound);
            },
        };
        proof {
            lemma_live_index_found(self@.files, id);
        }
        let ghost pre = self@;
        let old_rec = self.files.remove(i);
        let rec = Files { filename, ..old_rec };
        self.files.insert(i, rec);
        proof {
            assert(self@.files =~= pre.files.update(i as int, rec));
            assert forall|k: int| 0 <= k < self@.files.len() implies (#[trigger] self@.files[k]).version
                >= 1 && (!self@.files[k].is_dir ==> last_version(
                self@.histories,
                self@.files[k].id,
            ) == Some(self@.files[k].version)) by {
                if k != i {
                    assert(self@.files[k] == pre.files[k]);
                } else {
                    assert(pre.files[k].version >= 1);
                }
            }
            assert forall|k: int| 0 <= k < self@.files.len() implies #[trigger] versions_of(
                self@.histories,
                self@.files[k].id,
            ) == if self@.files[k].is_dir {
                Seq::<i64>::empty()
            } else {
                one_to(self@.files[k].version as int)
            } by {
                if k != i {
                    assert(self@.files[k] == pre.files[k]);
                }
            }
            assert forall|fid: i64| !has_id(self@.files, fid) implies #[trigger] versions_of(
                self@.histories,
                fid,
            ) == Seq::<i64>::empty() by {
                if has_id(pre.files, fid) {
                    lemma_has_id_grows(pre.files, self@.files, fid);
                }
            }
        }
        Ok(())
    }
}

/// Two content updates of file `id` that both start from version `n`: the first makes
/// version `n + 1` and its history row, so the file's rows are numbered `1..=n + 1`,
/// and the second is then refused with `VersionConflict`. The version never moves by
/// more than one step.
pub proof fn lemma_update_same_base_version(
    pre: LedgerView,
    id: i64,
    n: i64,
    uid: u128,
    size: i64,
    slices: Vec<String>,
    slices_hash: Vec<String>,
)
    requires
        pre.wf(),
        update_error(pre.files, id, n, uid) is None,
    ensures
        ({
            let mid = update_post(pre, id, n, size, slices, slices_hash);
            &&& live_index(mid.files, id) matches Some(i) && mid.files[i].version == n + 1
            &&& last_version(mid.histories, id) == Some((n + 1) as i64)
            &&& versions_of(mid.histories, id) == one_to(n + 1)
            &&& update_error(mid.files, id, n, uid) == Some(Error::VersionConflict)
        }),
{
    lemma_live_index_found(pre.files, id);
    let i = live_index(pre.files, id)->Some_0;
    let rec = Files { version: (n + 1) as i64, size, ..pre.files[i] };
    lemma_live_index_update(pre.files, id, i, rec);
    let mid = update_post(pre, id, n, size, slices, slices_hash);
    lemma_last_version_push(
        pre.histories,
        FileHistories { fid: id, file_version: (n + 1) as i64, slices, slices_hash },
        id,
    );
    assert(mid.files[i] == rec);
    lemma_versions_push(
        pre.histories,
        FileHistories { fid: id, file_version: (n + 1) as i64, slices, slices_hash },
        id,
    );
    assert(versions_of(pre.histories, pre.files[i].id) == one_to(pre.files[i].version as int));
    assert(versions_of(mid.histories, id) =~= one_to(n + 1));
}

} // verus!
