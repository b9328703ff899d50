use vstd::prelude::*;
use crate::block::{Block, BlockHandler};
use crate::chunker::{block_datas, concat, cut, merge, min, ceil_div, BLOCK_MAX_SIZE};
use crate::digest::{sha256_digest, sha256_hex};
use crate::error::Error;
use crate::ledger::{create_error, may_write, FileLedger, Files, LedgerView};
use crate::storages::{decimal, Storage, UploadFileReq};

verus! {

/// `hashes` are the digests of the blocks that `data` is cut into with limit `m`.
pub open spec fn digests_of_cut(hashes: Seq<String>, data: Seq<u8>, m: nat) -> bool {
    &&& hashes.len() == ceil_div(data.len(), m)
    &&& forall|i: int|
        0 <= i < hashes.len() ==> (#[trigger] hashes[i])@ == sha256_hex(
            data.subrange(i * m, min((i + 1) * m, data.len() as int)),
        )
}

/// The ledger after a new file of `uid` with these blocks was recorded at version 1.
pub open spec fn file_created(
    pre: LedgerView,
    post: LedgerView,
    id: i64,
    uid: u128,
    ws_id: u128,
    parent_dir_id: i64,
    filename: String,
    size: i64,
    data: Seq<u8>,
) -> bool {
    let h = post.histories.last();
    &&& post.files == pre.files.push(
        Files {
            id,
            uid,
            ws_id,
            filename,
            parent_dir_id,
            is_deleted: false,
            size,
            is_dir: false,
            version: 1,
        },
    )
    &&& post.workspaces == pre.workspaces
    &&& post.histories.len() == pre.histories.len() + 1
    &&& post.histories.drop_last() == pre.histories
    &&& h.fid == id && h.file_version == 1
    &&& digests_of_cut(h.slices_hash@, data, BLOCK_MAX_SIZE as nat)
    &&& h.slices@.len() == h.slices_hash@.len()
    &&& forall|i: int| 0 <= i < h.slices@.len() ==> (#[trigger] h.slices@[i])@.len() == 36
}

/// A whole file or directory received in one request, with the digest of its bytes.
pub struct CloudFile {
    pub name: String,
    pub data: Vec<u8>,
    pub hash: String,
}

impl CloudFile {
    /// A file named `name`; a directory carries an empty digest.
    pub fn new(name: String, data: Vec<u8>, is_dir: bool) -> (r: CloudFile)
        ensures
            r.name == name,
            r.data == data,
            is_dir ==> r.hash@.len() == 0,
            !is_dir ==> r.hash@ == sha256_hex(data@),
    {
        let hash = if is_dir {
            String::new()
        } else {
            sha256_digest(data.as_slice())
        };
        CloudFile { name, data, hash }
    }

    /// Reassembles a file from its blocks in stored order.
    pub fn merge(blocks: Vec<Block>, filename: &str) -> (r: CloudFile)
        ensures
            r.name@ == filename@,
            r.data@ == concat(block_datas(blocks@)),
            r.hash@ == sha256_hex(r.data@),
    {
        let data = merge(&blocks);
        CloudFile::new(String::from_str(filename), data, false)
    }

    /// Records directory `id` of `uid` in workspace `ws_id` under `parent_dir_id`.
    pub fn create_new_dir(
        &self,
        ws_id: u128,
        uid: u128,
        parent_dir_id: i64,
        id: i64,
        ledger: &mut FileLedger,
    ) -> (r: Result<(), Error>)
        requires
            old(ledger)@.wf(),
        ensures
            final(ledger)@.wf(),
            match create_error(old(ledger)@.files, id, uid, parent_dir_id, self.name@) {
                Some(e) => r == Err::<(), Error>(e) && final(ledger)@ == old(ledger)@,
                None => r is Ok && final(ledger)@ == (LedgerView {
                    workspaces: old(ledger)@.workspaces,
                    files: old(ledger)@.files.push(
                        Files {
                            id,
                            uid,
                            ws_id,
                            filename: self.name,
                            parent_dir_id,
                            is_deleted: false,
                            size: 0,
                            is_dir: true,
                            version: 1,
                        },
                    ),
                    histories: old(ledger)@.histories,
                }),
            },
    {
        ledger.create_dir(id, uid, ws_id, parent_dir_id, self.name.clone())
    }

    /// Stores the file's content: cuts it into blocks of at most `BLOCK_MAX_SIZE` bytes,
    /// writes them through `block_handler`, and records file `file_id` at version 1 with
    /// the block names and digests. Nothing is written when the ledger would refuse the
    /// file; blocks written before a failed batch stay behind.
    pub fn store_new_file<S: BlockHandler>(
        &self,
        ws_id: u128,
        uid: u128,
        parent_dir_id: i64,
        file_id: i64,
        block_handler: &mut S,
        ledger: &mut FileLedger,
    ) -> (r: Result<(), Error>)
        requires
            old(ledger)@.wf(),
        ensures
            final(ledger)@.wf(),
            match create_error(old(ledger)@.files, file_id, uid, parent_dir_id, self.name@) {
                Some(e) => r == Err::<(), Error>(e) && final(ledger)@ == old(ledger)@ && *final(block_handler) == *old(block_handler),
                None => if self.data@.len() > i64::MAX {
                    r == Err::<(), Error>(Error::LimitExceeded) && final(ledger)@ == old(ledger)@
                        && *final(block_handler) == *old(block_handler)
                } else {
                    match r {
                        Err(e) => (e == Error::StorageIO || e == Error::IdUnavailable) && final(ledger)@ == old(ledger)@,
                        Ok(()) => file_created(
                            old(ledger)@,
                            final(ledger)@,
                            file_id,
                            uid,
                            ws_id,
                            parent_dir_id,
                            self.name,
                            self.data@.len() as i64,
                            self.data@,
                        ),
                    }
                },
            },
    {
        if ledger.taken(file_id, parent_dir_id, uid, &self.name) {
            return Err(Error::AlreadyExists);
        }
        if self.data.len() as u64 > i64::MAX as u64 {
            return Err(Error::LimitExceeded);
        }
        let file_size = self.data.len() as i64;
        let (blocks, blocks_hash) = match cut(self.data.as_slice(), BLOCK_MAX_SIZE) {
            Some(c) => c,
            None => {
                return Err(Error::IdUnavailable);
            },
        };
        let mut blocks_name: Vec<String> = Vec::new();
        let mut i: usize = 0;
        while i < blocks.len()
            invariant
                i <= blocks@.len(),
                blocks_name@.len() == i,
                forall|k: int| 0 <= k < i ==> #[trigger] blocks_name@[k] == blocks@[k].name,
            decreases blocks@.len() - i,
        {
            blocks_name.push(blocks[i].name.clone());
            i = i + 1;
        }
        let ghost cut_blocks = blocks@;
        if block_handler.write_blocks(blocks).is_err() {
            return Err(Error::StorageIO);
        }
        let ghost names = blocks_name;
        let ghost hashes = blocks_hash;
        let r = ledger.create(
            file_id,
            uid,
            ws_id,
            parent_dir_id,
            self.name.clone(),
            file_size,
            blocks_name,
            blocks_hash,
        );
        proof {
            let m = BLOCK_MAX_SIZE as nat;
            assert(block_datas(cut_blocks).len() == cut_blocks.len());
            assert forall|k: int| 0 <= k < hashes@.len() implies (#[trigger] hashes@[k])@ == sha256_hex(
                self.data@.subrange(k * m, min((k + 1) * m, self.data@.len() as int)),
            ) by {
                assert(block_datas(cut_blocks)[k] == cut_blocks[k].data@);
            }
            assert forall|k: int| 0 <= k < names@.len() implies (#[trigger] names@[k])@.len() == 36 by {
                assert(names@[k] == cut_blocks[k].name);
            }
            assert(digests_of_cut(hashes@, self.data@, m));
            if r is Ok {
                assert(ledger@.histories.drop_last() =~= old(ledger)@.histories);
            }
        }
        r
    }
}

/// A chunk received on its own, with the digest of its bytes.
pub struct CloudBlock {
    pub name: String,
    pub data: Vec<u8>,
    pub hash: String,
}

impl CloudBlock {
    pub fn new(name: &str, data: Vec<u8>) -> (r: CloudBlock)
        ensures
            r.name@ == name@,
            r.data == data,
            r.hash@ == sha256_hex(data@),
    {
        let hash = sha256_digest(data.as_slice());
        CloudBlock { name: String::from_str(name), data, hash }
    }
}

/// Why `create_storage` refuses before anything is stored, if it does.
pub open spec fn create_storage_error(
    l: LedgerView,
    uid: u128,
    ws_id: u128,
    req: UploadFileReq,
    data: Seq<u8>,
    file_id: i64,
) -> Option<Error> {
    let files = l.files;
    if !may_write(l, uid, ws_id, req.parent_dir_id) {
        Some(Error::Unauthorized)
    } else if req.filename@.len() == 0 || (req.is_dir && data.len() != 0) {
        Some(Error::InvalidInput)
    } else {
        match create_error(files, file_id, uid, req.parent_dir_id, req.filename@) {
            Some(e) => Some(e),
            None => if !req.is_dir && data.len() > i64::MAX {
                Some(Error::LimitExceeded)
            } else {
                None
            },
        }
    }
}

/// Creates a file or directory from one request: `uid` must be allowed to write in
/// the parent directory, the name must not be empty and a directory carries no
/// bytes. A file's bytes are cut into blocks and stored; either way the new entry
/// is recorded as `file_id` and its descriptor returned.
pub fn create_storage<S: BlockHandler>(
    ledger: &mut FileLedger,
    block_handler: &mut S,
    uid: u128,
    ws_id: u128,
    req: UploadFileReq,
    data: Vec<u8>,
    file_id: i64,
) -> (r: Result<Storage, Error>)
    requires
        old(ledger)@.wf(),
    ensures
        final(ledger)@.wf(),
        match create_storage_error(old(ledger)@, uid, ws_id, req, data@, file_id) {
            Some(e) => r == Err::<Storage, Error>(e) && final(ledger)@ == old(ledger)@ && *final(block_handler) == *old(block_handler),
            None => match r {
                Err(e) => !req.is_dir && (e == Error::StorageIO || e == Error::IdUnavailable) && final(ledger)@ == old(ledger)@,
                Ok(d) => d.id@ == decimal(file_id as int) && d.filename == req.filename && d.is_dir
                    == req.is_dir && d.parent_dir_id@ == decimal(req.parent_dir_id as int) && d.size@
                    == decimal(data@.len() as int) && if req.is_dir {
                    final(ledger)@ == (LedgerView {
                        workspaces: old(ledger)@.workspaces,
                        files: old(ledger)@.files.push(
                            Files {
                                id: file_id,
                                uid,
                                ws_id,
                                filename: req.filename,
                                parent_dir_id: req.parent_dir_id,
                                is_deleted: false,
                                size: 0,
                                is_dir: true,
                                version: 1,
                            },
                        ),
                        histories: old(ledger)@.histories,
                    })
                } else {
                    file_created(
                        old(ledger)@,
                        final(ledger)@,
                        file_id,
                        uid,
                        ws_id,
                        req.parent_dir_id,
                        req.filename,
                        data@.len() as i64,
                        data@,
                    )
                },
            },
        },
{
    if !ledger.may_write(uid, ws_id, req.parent_dir_id) {
        return Err(Error::Unauthorized);
    }
    if req.filename.as_str().unicode_len() == 0 || (req.is_dir && data.len() != 0) {
        return Err(Error::InvalidInput);
    }
    let size = data.len();
    let cloud_file = CloudFile::new(req.filename.clone(), data, req.is_dir);
    if req.is_dir {
        match cloud_file.create_new_dir(ws_id, uid, req.parent_dir_id, file_id, ledger) {
            Ok(()) => {},
            Err(e) => {
                return Err(e);
            },
        }
    } else {
        match cloud_file.store_new_file(ws_id, uid, req.parent_dir_id, file_id, block_handler, ledger) {
            Ok(()) => {},
            Err(e) => {
                return Err(e);
            },
        }
    }
    Ok(Storage::new(file_id, req.filename, req.is_dir, req.parent_dir_id, size))
}

/// The bytes `parts` laid end to end match the digests `hashes` part by part.
pub open spec fn parts_match(parts: Seq<Seq<u8>>, hashes: Seq<String>) -> bool {
    &&& parts.len() == hashes.len()
    &&& forall|i: int| 0 <= i < parts.len() ==> sha256_hex(#[trigger] parts[i]) == hashes[i]@
}

/// `parts` are the contents of blocks the backend returned for `names`, one per name,
/// in order.
pub open spec fn fetched_by_name(parts: Seq<Seq<u8>>, names: Seq<String>) -> bool {
    exists|bs: Seq<Block>|
        bs.len() == names.len() && #[trigger] block_datas(bs) == parts && forall|i: int|
            0 <= i < bs.len() ==> (#[trigger] bs[i]).name@ == names[i]@
}

/// The integrity check of a read: every fetched block must match the digest recorded
/// for it; then the blocks are laid end to end.
pub fn check_and_merge(blocks: &Vec<Block>, hashes: &Vec<String>) -> (r: Result<Vec<u8>, Error>)
    ensures
        r is Ok <==> parts_match(block_datas(blocks@), hashes@),
        r matches Ok(d) ==> d@ == concat(block_datas(blocks@)),
        r is Err ==> r == Err::<Vec<u8>, Error>(Error::IntegrityMismatch),
{
    if blocks.len() != hashes.len() {
        return Err(Error::IntegrityMismatch);
    }
    let mut i: usize = 0;
    while i < blocks.len()
        invariant
            i <= blocks@.len(),
            blocks@.len() == hashes@.len(),
            forall|m: int|
                0 <= m < i ==> sha256_hex(#[trigger] block_datas(blocks@)[m]) == hashes@[m]@,
        decreases blocks@.len() - i,
    {
        let digest = sha256_digest(blocks[i].data.as_slice());
        assert(block_datas(blocks@)[i as int] == blocks@[i as int].data@);
        if digest != hashes[i] {
            return Err(Error::IntegrityMismatch);
        }
        i = i + 1;
    }
    Ok(merge(blocks))
}

/// Reads back the current content of file `id` of `uid` in workspace `ws_id`: fetches
/// the blocks that its current history row names, checks each against the digest
/// recorded for it, and concatenates them.
pub fn read_file<S: BlockHandler>(
    ledger: &FileLedger,
    block_handler: &S,
    uid: u128,
    ws_id: u128,
    id: i64,
) -> (r: Result<Vec<u8>, Error>)
    requires
        ledger@.wf(),
    ensures
        r matches Ok(data) ==> crate::ledger::live_index(ledger@.files, id) matches Some(i) && {
            let f = ledger@.files[i];
            &&& f.uid == uid && f.ws_id == ws_id && !f.is_dir
            &&& exists|k: int, parts: Seq<Seq<u8>>|
                0 <= k < ledger@.histories.len() && (#[trigger] ledger@.histories[k]).fid == id
                    && ledger@.histories[k].file_version == f.version && #[trigger] parts_match(
                    parts,
                    ledger@.histories[k].slices_hash@,
                ) && data@ == concat(parts) && fetched_by_name(parts, ledger@.histories[k].slices@)
        },
        crate::ledger::live_index(ledger@.files, id) is None ==> r == Err::<Vec<u8>, Error>(
            Error::Unauthorized,
        ),
        crate::ledger::live_index(ledger@.files, id) matches Some(i) ==> {
            let f = ledger@.files[i];
            &&& (f.uid != uid || f.ws_id != ws_id) ==> r == Err::<Vec<u8>, Error>(Error::Unauthorized)
            &&& (f.uid == uid && f.ws_id == ws_id && f.is_dir) ==> r == Err::<Vec<u8>, Error>(
                Error::NotFound,
            )
        },
{
    let f = match ledger.check_owner(uid, id, ws_id) {
        Some(f) => f,
        None => {
            return Err(Error::Unauthorized);
        },
    };
    if f.is_dir {
        return Err(Error::NotFound);
    }
    let h = match ledger.find_history(id, f.version) {
        Some(h) => h,
        None => {
            return Err(Error::NotFound);
        },
    };
    let blocks = match block_handler.get_blocks(&h.slices) {
        Ok(b) => b,
        Err(e) => {
            return Err(e);
        },
    };
    let r = check_and_merge(&blocks, &h.slices_hash);
    proof {
        if r is Ok {
            assert(fetched_by_name(block_datas(blocks@), h.slices@));
        }
    }
    r
}

} // verus!
