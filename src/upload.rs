use vstd::prelude::*;
use crate::block::{new_uuid_string, Block, BlockHandler};
use crate::digest::{sha256_digest, sha256_hex};
use crate::error::Error;
use crate::ledger::{create_error, may_write, FileLedger, Files, FileHistories, LedgerView};
use crate::storages::{decimal, BlockInfo, SessionInfo, Storage};

verus! {

/// The verdict of the integrity gate on a chunk whose digest has been computed:
/// the chunk passes when its size and digest are the declared ones.
pub fn check_chunk_digest(
    chunk_len: usize,
    actual_hash: &String,
    expected_size: usize,
    expected_hash: &String,
) -> (r: Result<(), Error>)
    ensures
        r is Ok <==> chunk_len == expected_size && actual_hash@ == expected_hash@,
        r is Err ==> r == Err::<(), Error>(Error::IntegrityMismatch),
{
    if chunk_len != expected_size || *actual_hash != *expected_hash {
        return Err(Error::IntegrityMismatch);
    }
    Ok(())
}

/// The integrity gate: recomputes the digest of `data` and compares size and digest
/// with the declared ones. Returns the digest.
pub fn check_chunk(data: &[u8], expected_size: usize, expected_hash: &String) -> (r: Result<
    String,
    Error,
>)
    ensures
        r is Ok <==> data@.len() == expected_size && sha256_hex(data@) == expected_hash@,
        r matches Ok(d) ==> d@ == sha256_hex(data@),
        r is Err ==> r == Err::<String, Error>(Error::IntegrityMismatch),
{
    let actual = sha256_digest(data);
    match check_chunk_digest(data.len(), &actual, expected_size, expected_hash) {
        Ok(()) => Ok(actual),
        Err(e) => Err(e),
    }
}

/// `order` lists every position of `receipts` once, by ascending chunk index.
pub open spec fn is_sorted_order(receipts: Seq<BlockInfo>, order: Seq<usize>) -> bool {
    &&& order.len() == receipts.len()
    &&& forall|i: int| 0 <= i < order.len() ==> #[trigger] order[i] < receipts.len()
    &&& forall|i: int, j: int| 0 <= i < j < order.len() ==> order[i] != order[j]
    &&& forall|i: int, j: int|
        0 <= i < j < order.len() ==> receipts[order[i] as int].block_index <= receipts[order[j] as int].block_index
}

/// The positions of `receipts` in ascending chunk-index order.
pub fn sort_order(receipts: &Vec<BlockInfo>) -> (r: Vec<usize>)
    ensures
        is_sorted_order(receipts@, r@),
{
    let n = receipts.len();
    let mut order: Vec<usize> = Vec::new();
    let mut k: usize = 0;
    while k < n
        invariant
            n == receipts@.len(),
            k <= n,
            order@.len() == k,
            forall|i: int| 0 <= i < order@.len() ==> #[trigger] order@[i] < k,
            forall|i: int, j: int| 0 <= i < j < order@.len() ==> order@[i] != order@[j],
            forall|i: int, j: int|
                0 <= i < j < order@.len() ==> receipts@[order@[i] as int].block_index
                    <= receipts@[order@[j] as int].block_index,
        decreases n - k,
    {
        let key = receipts[k].block_index;
        let mut p: usize = 0;
        while p < order.len() && receipts[order[p]].block_index <= key
            invariant
                n == receipts@.len(),
                k < n,
                p <= order@.len(),
                forall|i: int| 0 <= i < order@.len() ==> #[trigger] order@[i] < k,
                forall|i: int| 0 <= i < p ==> receipts@[#[trigger] order@[i] as int].block_index <= key,
            decreases order@.len() - p,
        {
            p = p + 1;
        }
        let ghost pre = order@;
        order.insert(p, k);
        proof {
            assert(order@ == pre.insert(p as int, k));
            assert forall|i: int, j: int| 0 <= i < j < order@.len() implies receipts@[order@[i] as int].block_index
                <= receipts@[order@[j] as int].block_index by {
                if j < p {
                } else if j == p {
                    assert(order@[i] == pre[i]);
                } else if i == p {
                    assert(order@[j] == pre[j - 1]);
                    assert(receipts@[pre[p as int] as int].block_index > key);
                    if j - 1 > p {
                        assert(receipts@[pre[p as int] as int].block_index <= receipts@[pre[j - 1] as int].block_index);
                    }
                } else if i < p {
                    assert(order@[i] == pre[i]);
                    assert(order@[j] == pre[j - 1]);
                } else {
                    assert(order@[i] == pre[i - 1]);
                    assert(order@[j] == pre[j - 1]);
                }
            }
        }
        k = k + 1;
    }
    order
}

/// Sum of the chunk sizes of the receipts.
pub open spec fn total_size(receipts: Seq<BlockInfo>) -> int
    decreases receipts.len(),
{
    if receipts.len() == 0 {
        0
    } else {
        total_size(receipts.drop_last()) + receipts.last().block_size
    }
}

/// What a finished session hands to the ledger: its block names and digests by
/// ascending chunk index, and the file size.
pub struct FinalizePlan {
    pub order: Vec<usize>,
    pub blocks_name: Vec<String>,
    pub blocks_hash: Vec<String>,
    pub file_size: i64,
}

/// `plan` is the ordered block list and size of a session with these receipts.
pub open spec fn is_plan_of(receipts: Seq<BlockInfo>, plan: FinalizePlan) -> bool {
    &&& is_sorted_order(receipts, plan.order@)
    &&& plan.blocks_name@.len() == receipts.len()
    &&& plan.blocks_hash@.len() == receipts.len()
    &&& forall|i: int|
        0 <= i < receipts.len() ==> #[trigger] plan.blocks_name@[i] == receipts[plan.order@[i] as int].block_name
            && plan.blocks_hash@[i] == receipts[plan.order@[i] as int].block_hash
    &&& plan.file_size == total_size(receipts)
    &&& plan.file_size <= usize::MAX
}

/// Why finishing a session with these receipts fails before the ledger is asked.
pub open spec fn plan_error(info: SessionInfo, caller: u128, receipts: Seq<BlockInfo>, total_chunk_num: usize) -> Option<Error> {
    if info.user_id != caller {
        Some(Error::Unauthorized)
    } else if receipts.len() != total_chunk_num {
        Some(Error::ChunkCountMismatch)
    } else if total_size(receipts) > i64::MAX || total_size(receipts) > usize::MAX {
        Some(Error::LimitExceeded)
    } else {
        None
    }
}

/// Checks that `caller` owns the session and that exactly `total_chunk_num` chunks
/// arrived, then lists their blocks by ascending chunk index and adds up the size.
pub fn plan_finalize(
    info: &SessionInfo,
    caller: u128,
    receipts: &Vec<BlockInfo>,
    total_chunk_num: usize,
) -> (r: Result<FinalizePlan, Error>)
    ensures
        match plan_error(*info, caller, receipts@, total_chunk_num) {
            Some(e) => r == Err::<FinalizePlan, Error>(e),
            None => r matches Ok(p) && is_plan_of(receipts@, p),
        },
{
    if info.user_id != caller {
        return Err(Error::Unauthorized);
    }
    if receipts.len() != total_chunk_num {
        return Err(Error::ChunkCountMismatch);
    }
    let mut size: i64 = 0;
    let mut k: usize = 0;
    while k < receipts.len()
        invariant
            k <= receipts@.len(),
            size == total_size(receipts@.subrange(0, k as int)),
            size >= 0,
            info.user_id == caller,
            receipts@.len() == total_chunk_num,
        decreases receipts@.len() - k,
    {
        proof {
            assert(receipts@.subrange(0, k + 1).drop_last() =~= receipts@.subrange(0, k as int));
            lemma_total_size_prefix_grows(receipts@, k + 1);
        }
        let b = receipts[k].block_size;
        if b as u64 > (i64::MAX - size) as u64 {
            proof {
                lemma_total_size_prefix_bound(receipts@, k + 1);
                assert(total_size(receipts@.subrange(0, k + 1)) > i64::MAX);
                assert(total_size(receipts@) > i64::MAX);
                assert(plan_error(*info, caller, receipts@, total_chunk_num) == Some(Error::LimitExceeded));
            }
            return Err(Error::LimitExceeded);
        }
        size = size + b as i64;
        k = k + 1;
    }
    assert(receipts@.subrange(0, k as int) =~= receipts@);
    if size as u64 > usize::MAX as u64 {
        return Err(Error::LimitExceeded);
    }
    let order = sort_order(receipts);
    let mut blocks_name: Vec<String> = Vec::new();
    let mut blocks_hash: Vec<String> = Vec::new();
    let mut i: usize = 0;
    while i < order.len()
        invariant
            is_sorted_order(receipts@, order@),
            i <= order@.len(),
            blocks_name@.len() == i,
            blocks_hash@.len() == i,
            forall|m: int|
                0 <= m < i ==> #[trigger] blocks_name@[m] == receipts@[order@[m] as int].block_name
                    && blocks_hash@[m] == receipts@[order@[m] as int].block_hash,
        decreases order@.len() - i,
    {
        let b = &receipts[order[i]];
        blocks_name.push(b.block_name.clone());
        blocks_hash.push(b.block_hash.clone());
        i = i + 1;
    }
    Ok(FinalizePlan { order, blocks_name, blocks_hash, file_size: size })
}

proof fn lemma_total_size_nonneg(receipts: Seq<BlockInfo>)
    ensures
        total_size(receipts) >= 0,
    decreases receipts.len(),
{
    if receipts.len() > 0 {
        lemma_total_size_nonneg(receipts.drop_last());
    }
}

proof fn lemma_total_size_prefix_grows(receipts: Seq<BlockInfo>, k: int)
    requires
        0 < k <= receipts.len(),
    ensures
        total_size(receipts.subrange(0, k)) == total_size(receipts.subrange(0, k - 1))
            + receipts[k - 1].block_size,
{
    assert(receipts.subrange(0, k).drop_last() =~= receipts.subrange(0, k - 1));
}

proof fn lemma_total_size_prefix_bound(receipts: Seq<BlockInfo>, k: int)
    requires
        0 <= k <= receipts.len(),
    ensures
        total_size(receipts.subrange(0, k)) <= total_size(receipts),
    decreases receipts.len() - k,
{
    if k < receipts.len() {
        lemma_total_size_prefix_bound(receipts, k + 1);
        lemma_total_size_prefix_grows(receipts, k + 1);
    } else {
        assert(receipts.subrange(0, k) =~= receipts);
    }
}

/// One open upload session: its id, target, and the receipts of the chunks stored so far.
pub struct UploadSession {
    pub session_id: String,
    pub info: SessionInfo,
    pub receipts: Vec<BlockInfo>,
    /// Unix time in milliseconds from which the session counts as expired.
    pub expires_at: i64,
}

/// How long an upload session lives: 24 hours, in milliseconds.
pub const SESSION_TTL_MS: i64 = 86400000;

/// The sessions that have not expired at Unix millisecond `now`, in their order.
pub open spec fn unexpired(sessions: Seq<UploadSession>, now: i64) -> Seq<UploadSession>
    decreases sessions.len(),
{
    if sessions.len() == 0 {
        sessions
    } else {
        let rest = unexpired(sessions.drop_last(), now);
        if sessions.last().expires_at > now {
            rest.push(sessions.last())
        } else {
            rest
        }
    }
}

/// Position of the session with id `sid`.
pub open spec fn session_pos(sessions: Seq<UploadSession>, sid: Seq<char>) -> Option<int>
    decreases sessions.len(),
{
    if sessions.len() == 0 {
        None
    } else if sessions.last().session_id@ == sid {
        Some(sessions.len() - 1)
    } else {
        session_pos(sessions.drop_last(), sid)
    }
}

/// Position of the receipt for chunk `index`.
pub open spec fn receipt_pos(receipts: Seq<BlockInfo>, index: usize) -> Option<int>
    decreases receipts.len(),
{
    if receipts.len() == 0 {
        None
    } else if receipts.last().block_index == index {
        Some(receipts.len() - 1)
    } else {
        receipt_pos(receipts.drop_last(), index)
    }
}

/// The receipts after recording `b`: it replaces the receipt of the same chunk index,
/// if any, so a chunk sent twice is counted once.
pub open spec fn set_receipt(receipts: Seq<BlockInfo>, b: BlockInfo) -> Seq<BlockInfo> {
    match receipt_pos(receipts, b.block_index) {
        Some(j) => receipts.update(j, b),
        None => receipts.push(b),
    }
}

proof fn lemma_receipt_pos_found(receipts: Seq<BlockInfo>, index: usize)
    ensures
        receipt_pos(receipts, index) matches Some(j) ==> 0 <= j < receipts.len()
            && receipts[j].block_index == index,
        receipt_pos(receipts, index) is None ==> forall|j: int|
            0 <= j < receipts.len() ==> (#[trigger] receipts[j]).block_index != index,
    decreases receipts.len(),
{
    if receipts.len() > 0 {
        lemma_receipt_pos_found(receipts.drop_last(), index);
        assert forall|j: int| 0 <= j < receipts.len() - 1 implies receipts.drop_last()[j] == receipts[j] by {}
    }
}

/// Receipts are keyed by chunk index: recording a second receipt for an index that
/// already has one replaces it, so the count of receipts does not grow.
pub proof fn lemma_resubmit_keeps_count(receipts: Seq<BlockInfo>, first: BlockInfo, second: BlockInfo)
    requires
        first.block_index == second.block_index,
    ensures
        set_receipt(set_receipt(receipts, first), second).len() == set_receipt(receipts, first).len(),
        set_receipt(set_receipt(receipts, first), second).contains(second),
{
    let once = set_receipt(receipts, first);
    lemma_receipt_pos_found(receipts, first.block_index);
    lemma_receipt_pos_found(once, first.block_index);
    let twice = set_receipt(once, second);
    assert(receipt_pos(once, first.block_index) is Some) by {
        match receipt_pos(receipts, first.block_index) {
            Some(j) => {
                assert(once[j] == first);
            },
            None => {
                assert(once[once.len() - 1] == first);
            },
        }
    }
    let k = receipt_pos(once, first.block_index)->Some_0;
    assert(twice[k] == second);
    assert(twice.contains(second));
}

/// `post` is `pre` with a new session `sid`, without receipts, appended.
pub open spec fn session_opened(
    pre: Seq<UploadSession>,
    post: Seq<UploadSession>,
    sid: String,
    expires_at: i64,
    info: SessionInfo,
) -> bool {
    &&& post.len() == pre.len() + 1
    &&& post.drop_last() == pre
    &&& post.last().session_id == sid
    &&& post.last().info == info
    &&& post.last().receipts@.len() == 0
    &&& post.last().expires_at == expires_at
}

/// Why `submit_chunk` refuses a chunk before anything is stored, if it does.
pub open spec fn submit_error(
    sessions: Seq<UploadSession>,
    sid: Seq<char>,
    caller: u128,
    data: Seq<u8>,
    chunk_size: usize,
    hash: Seq<char>,
) -> Option<Error> {
    match session_pos(sessions, sid) {
        None => Some(Error::NotFound),
        Some(k) => if sessions[k].info.user_id != caller {
            Some(Error::Unauthorized)
        } else if data.len() != chunk_size || sha256_hex(data) != hash {
            Some(Error::IntegrityMismatch)
        } else {
            None
        },
    }
}

/// `post` is `pre` with receipt `b` recorded in the session at position `k`.
pub open spec fn receipt_recorded(
    pre: Seq<UploadSession>,
    post: Seq<UploadSession>,
    k: int,
    b: BlockInfo,
) -> bool {
    &&& post.len() == pre.len()
    &&& forall|j: int| 0 <= j < pre.len() && j != k ==> #[trigger] post[j] == pre[j]
    &&& post[k].session_id == pre[k].session_id
    &&& post[k].info == pre[k].info
    &&& post[k].expires_at == pre[k].expires_at
    &&& post[k].receipts@ == set_receipt(pre[k].receipts@, b)
}

/// Why `finalize` refuses, if it does.
pub open spec fn finalize_error(
    sessions: Seq<UploadSession>,
    files: Seq<Files>,
    sid: Seq<char>,
    caller: u128,
    total_chunk_num: usize,
    file_id: i64,
) -> Option<Error> {
    match session_pos(sessions, sid) {
        None => Some(Error::NotFound),
        Some(k) => match plan_error(sessions[k].info, caller, sessions[k].receipts@, total_chunk_num) {
            Some(e) => Some(e),
            None => create_error(
                files,
                file_id,
                caller,
                sessions[k].info.parent_dir_id,
                sessions[k].info.filename@,
            ),
        },
    }
}

/// The transient state of resumable uploads, as a shared cache would hold it.
pub struct UploadSessions {
    sessions: Vec<UploadSession>,
}

impl View for UploadSessions {
    type V = Seq<UploadSession>;

    closed spec fn view(&self) -> Seq<UploadSession> {
        self.sessions@
    }
}

fn find_receipt(receipts: &Vec<BlockInfo>, index: usize) -> (r: Option<usize>)
    ensures
        r matches Some(j) ==> j < receipts@.len() && receipt_pos(receipts@, index) == Some(j as int),
        r is None ==> receipt_pos(receipts@, index) is None,
{
    let mut j: usize = receipts.len();
    assert(receipts@.subrange(0, j as int) =~= receipts@);
    while j > 0
        invariant
            j <= receipts@.len(),
            receipt_pos(receipts@, index) == receipt_pos(receipts@.subrange(0, j as int), index),
        decreases j,
    {
        assert(receipts@.subrange(0, j as int).drop_last() =~= receipts@.subrange(0, j - 1));
        if receipts[j - 1].block_index == index {
            return Some(j - 1);
        }
        j = j - 1;
    }
    None
}

impl UploadSessions {
    pub fn new() -> (r: UploadSessions)
        ensures
            r@ == Seq::<UploadSession>::empty(),
    {
        UploadSessions { sessions: Vec::new() }
    }

    fn find(&self, session_id: &String) -> (r: Option<usize>)
        ensures
            r matches Some(k) ==> k < self@.len() && session_pos(self@, session_id@) == Some(k as int),
            r is None ==> session_pos(self@, session_id@) is None,
    {
        let mut j: usize = self.sessions.len();
        assert(self.sessions@.subrange(0, j as int) =~= self.sessions@);
        while j > 0
            invariant
                j <= self.sessions@.len(),
                session_pos(self.sessions@, session_id@) == session_pos(
                    self.sessions@.subrange(0, j as int),
                    session_id@,
                ),
            decreases j,
        {
            assert(self.sessions@.subrange(0, j as int).drop_last() =~= self.sessions@.subrange(
                0,
                j - 1,
            ));
            if self.sessions[j - 1].session_id == *session_id {
                return Some(j - 1);
            }
            j = j - 1;
        }
        None
    }

    /// The session with id `session_id`.
    pub fn get(&self, session_id: &String) -> (r: Option<&UploadSession>)
        ensures
            r matches Some(s) ==> session_pos(self@, session_id@) matches Some(k) && *s == self@[k],
            r is None ==> session_pos(self@, session_id@) is None,
    {
        match self.find(session_id) {
            Some(k) => Some(&self.sessions[k]),
            None => None,
        }
    }

    /// Opens an upload session with id `sid` of `user_id` for `filename` in directory
    /// `parent_dir_id`, expiring at `expires_at`. The caller must be allowed to write
    /// there, and `sid` must not name an open session.
    pub fn open_session_with_id(
        &mut self,
        ledger: &FileLedger,
        sid: String,
        expires_at: i64,
        user_id: u128,
        ws_id: u128,
        filename: String,
        parent_dir_id: i64,
    ) -> (r: Result<String, Error>)
        ensures
            !may_write(ledger@, user_id, ws_id, parent_dir_id) ==> r == Err::<String, Error>(
                Error::Unauthorized,
            ) && final(self)@ == old(self)@,
            may_write(ledger@, user_id, ws_id, parent_dir_id) && session_pos(old(self)@, sid@) is Some
                ==> r == Err::<String, Error>(Error::AlreadyExists) && final(self)@ == old(self)@,
            may_write(ledger@, user_id, ws_id, parent_dir_id) && session_pos(old(self)@, sid@) is None
                ==> r == Ok::<String, Error>(sid) && session_opened(
                old(self)@,
                final(self)@,
                sid,
                expires_at,
                SessionInfo { user_id, ws_id, filename, parent_dir_id },
            ),
    {
        if !ledger.may_write(user_id, ws_id, parent_dir_id) {
            return Err(Error::Unauthorized);
        }
        if self.find(&sid).is_some() {
            return Err(Error::AlreadyExists);
        }
        let info = SessionInfo { user_id, ws_id, filename, parent_dir_id };
        let ghost pre = self@;
        self.sessions.push(
            UploadSession { session_id: sid.clone(), info, receipts: Vec::new(), expires_at },
        );
        assert(self@.drop_last() =~= pre);
        Ok(sid)
    }

    /// Opens an upload session of `user_id` for `filename` in directory `parent_dir_id`
    /// under a fresh id, expiring `SESSION_TTL_MS` from now, and returns the id. The
    /// caller must be allowed to write there.
    pub fn open_session(
        &mut self,
        ledger: &FileLedger,
        user_id: u128,
        ws_id: u128,
        filename: String,
        parent_dir_id: i64,
    ) -> (r: Result<String, Error>)
        ensures
            !may_write(ledger@, user_id, ws_id, parent_dir_id) ==> r == Err::<String, Error>(
                Error::Unauthorized,
            ),
            r is Err ==> final(self)@ == old(self)@,
            r matches Ok(sid) ==> may_write(ledger@, user_id, ws_id, parent_dir_id) && session_pos(
                old(self)@,
                sid@,
            ) is None && sid@.len() == 36 && exists|expires_at: i64|
                #[trigger] session_opened(
                    old(self)@,
                    final(self)@,
                    sid,
                    expires_at,
                    SessionInfo { user_id, ws_id, filename, parent_dir_id },
                ),
    {
        if !ledger.may_write(user_id, ws_id, parent_dir_id) {
            return Err(Error::Unauthorized);
        }
        let now = match crate::snowflake::get_timestamp() {
            Some(t) => t,
            None => {
                return Err(Error::ClockOutOfRange);
            },
        };
        if now > i64::MAX - SESSION_TTL_MS {
            return Err(Error::ClockOutOfRange);
        }
        let sid = match new_uuid_string() {
            Some(sid) => sid,
            None => {
                return Err(Error::IdUnavailable);
            },
        };
        self.open_session_with_id(ledger, sid, now + SESSION_TTL_MS, user_id, ws_id, filename, parent_dir_id)
    }

    /// Discards the sessions that have expired at Unix millisecond `now`; their
    /// receipts go with them and their blocks stay behind, unreferenced.
    pub fn purge_expired(&mut self, now: i64)
        ensures
            final(self)@ == unexpired(old(self)@, now),
    {
        let ghost pre = self@;
        let mut i: usize = 0;
        let ghost mut j: int = 0;
        while i < self.sessions.len()
            invariant
                0 <= j <= pre.len(),
                i <= self.sessions@.len(),
                self.sessions@.len() - i == pre.len() - j,
                self.sessions@.subrange(0, i as int) == unexpired(pre.subrange(0, j), now),
                self.sessions@.subrange(i as int, self.sessions@.len() as int) == pre.subrange(
                    j,
                    pre.len() as int,
                ),
            decreases self.sessions@.len() - i,
        {
            let ghost cur = self.sessions@;
            assert(pre.subrange(0, j + 1).drop_last() =~= pre.subrange(0, j));
            assert(pre[j] == cur[i as int]) by {
                assert(cur.subrange(i as int, cur.len() as int)[0] == cur[i as int]);
                assert(pre.subrange(j, pre.len() as int)[0] == pre[j]);
            }
            if self.sessions[i].expires_at <= now {
                self.sessions.remove(i);
                proof {
                    assert(self.sessions@.subrange(0, i as int) =~= cur.subrange(0, i as int));
                    let after = self.sessions@;
                    assert forall|x: int| 0 <= x < after.len() - i implies after.subrange(
                        i as int,
                        after.len() as int,
                    )[x] == pre.subrange(j + 1, pre.len() as int)[x] by {
                        assert(after[i + x] == cur[i + 1 + x]);
                        assert(cur.subrange(i as int, cur.len() as int)[x + 1] == cur[i + 1 + x]);
                        assert(pre.subrange(j, pre.len() as int)[x + 1] == pre[j + 1 + x]);
                    }
                    assert(after.subrange(i as int, after.len() as int) =~= pre.subrange(
                        j + 1,
                        pre.len() as int,
                    ));
                }
            } else {
                proof {
                    assert(self.sessions@.subrange(0, i + 1) =~= cur.subrange(0, i as int).push(cur[i as int]));
                    let rest = cur.subrange(i + 1, cur.len() as int);
                    assert forall|x: int| 0 <= x < cur.len() - i - 1 implies #[trigger] rest[x] == pre.subrange(j + 1, pre.len() as int)[x] by {
                        assert(cur.subrange(i as int, cur.len() as int)[x + 1] == cur[i + 1 + x]);
                        assert(pre.subrange(j, pre.len() as int)[x + 1] == pre[j + 1 + x]);
                    }
                    assert(cur.subrange(i + 1, cur.len() as int) =~= pre.subrange(
                        j + 1,
                        pre.len() as int,
                    ));
                }
                i = i + 1;
            }
            proof {
                j = j + 1;
            }
        }
        proof {
            assert(self.sessions@.subrange(0, i as int) =~= self.sessions@);
            assert(pre.subrange(0, j) =~= pre);
        }
    }

    /// Accepts chunk `chunk_num` of a session: checks its size and digest, stores it
    /// as one block under a fresh name, and records its receipt, replacing an earlier
    /// receipt of the same index. A chunk that fails the check never reaches the store.
    pub fn submit_chunk<S: BlockHandler>(
        &mut self,
        store: &mut S,
        session_id: &String,
        caller: u128,
        chunk_num: usize,
        chunk_size: usize,
        hash: &String,
        data: Vec<u8>,
    ) -> (r: Result<(), Error>)
        ensures
            match submit_error(old(self)@, session_id@, caller, data@, chunk_size, hash@) {
                Some(e) => r == Err::<(), Error>(e) && final(self)@ == old(self)@ && *final(store)
                    == *old(store),
                None => match r {
                    Err(e) => (e == Error::StorageIO || e == Error::IdUnavailable) && final(self)@
                        == old(self)@,
                    Ok(()) => session_pos(old(self)@, session_id@) matches Some(k) && exists|
                        b: BlockInfo,
                    |
                        b.block_index == chunk_num && b.block_size == chunk_size && b.block_hash@
                            == hash@ && b.block_name@.len() == 36 && #[trigger] receipt_recorded(
                            old(self)@,
                            final(self)@,
                            k,
                            b,
                        ),
                },
            },
    {
        let k = match self.find(session_id) {
            Some(k) => k,
            None => {
                return Err(Error::NotFound);
            },
        };
        if self.sessions[k].info.user_id != caller {
            return Err(Error::Unauthorized);
        }
        if check_chunk(data.as_slice(), chunk_size, hash).is_err() {
            return Err(Error::IntegrityMismatch);
        }
        let block_name = match new_uuid_string() {
            Some(n) => n,
            None => {
                return Err(Error::IdUnavailable);
            },
        };
        let mut batch: Vec<Block> = Vec::new();
        batch.push(Block::new(block_name.clone(), data));
        if store.write_blocks(batch).is_err() {
            return Err(Error::StorageIO);
        }
        let receipt = BlockInfo {
            block_name,
            block_index: chunk_num,
            block_size: chunk_size,
            block_hash: hash.clone(),
        };
        let ghost pre = self@;
        let mut session = self.sessions.remove(k);
        let ghost old_receipts = session.receipts@;
        match find_receipt(&session.receipts, chunk_num) {
            Some(j) => {
                session.receipts.remove(j);
                session.receipts.insert(j, receipt);
                assert(session.receipts@ =~= old_receipts.update(j as int, receipt));
            },
            None => {
                session.receipts.push(receipt);
            },
        }
        self.sessions.insert(k, session);
        proof {
            assert(self@ =~= pre.update(k as int, session));
            assert(session.receipts@ == set_receipt(pre[k as int].receipts@, receipt));
            assert(receipt_recorded(pre, self@, k as int, receipt));
        }
        Ok(())
    }

    /// Finishes a session: `caller` must own it and exactly `total_chunk_num` chunks
    /// must have arrived. The blocks, by ascending chunk index, become version 1 of a
    /// new file `file_id` in the ledger, and the session is discarded. On any failure
    /// the session and the ledger are left as they were, so the client may retry.
    pub fn finalize(
        &mut self,
        ledger: &mut FileLedger,
        session_id: &String,
        caller: u128,
        total_chunk_num: usize,
        file_id: i64,
    ) -> (r: Result<Storage, Error>)
        requires
            old(ledger)@.wf(),
        ensures
            final(ledger)@.wf(),
            match finalize_error(
                old(self)@,
                old(ledger)@.files,
                session_id@,
                caller,
                total_chunk_num,
                file_id,
            ) {
                Some(e) => r == Err::<Storage, Error>(e) && final(self)@ == old(self)@
                    && final(ledger)@ == old(ledger)@,
                None => session_pos(old(self)@, session_id@) matches Some(k) && r matches Ok(d)
                    && final(self)@ == old(self)@.remove(k) && exists|p: FinalizePlan|
                    #[trigger] is_plan_of(old(self)@[k].receipts@, p) && final(ledger)@ == (
                    LedgerView {
                        workspaces: old(ledger)@.workspaces,
                        files: old(ledger)@.files.push(
                            Files {
                                id: file_id,
                                uid: caller,
                                ws_id: old(self)@[k].info.ws_id,
                                filename: old(self)@[k].info.filename,
                                parent_dir_id: old(self)@[k].info.parent_dir_id,
                                is_deleted: false,
                                size: p.file_size,
                                is_dir: false,
                                version: 1,
                            },
                        ),
                        histories: old(ledger)@.histories.push(
                            FileHistories {
                                fid: file_id,
                                file_version: 1,
                                slices: p.blocks_name,
                                slices_hash: p.blocks_hash,
                            },
                        ),
                    }) && d.id@ == decimal(file_id as int) && d.filename == old(self)@[k].info.filename
                    && !d.is_dir && d.parent_dir_id@ == decimal(old(self)@[k].info.parent_dir_id as int)
                    && d.size@ == decimal(p.file_size as int),
            },
    {
        let k = match self.find(session_id) {
            Some(k) => k,
            None => {
                return Err(Error::NotFound);
            },
        };
        let session = &self.sessions[k];
        let plan = match plan_finalize(&session.info, caller, &session.receipts, total_chunk_num) {
            Ok(p) => p,
            Err(e) => {
                return Err(e);
            },
        };
        let ghost p = plan;
        let filename = session.info.filename.clone();
        let parent_dir_id = session.info.parent_dir_id;
        let size = plan.file_size;
        match ledger.create(
            file_id,
            caller,
            session.info.ws_id,
            parent_dir_id,
            session.info.filename.clone(),
            size,
            plan.blocks_name,
            plan.blocks_hash,
        ) {
            Ok(()) => {},
            Err(e) => {
                return Err(e);
            },
        }
        self.sessions.remove(k);
        proof {
            lemma_total_size_nonneg(old(self)@[k as int].receipts@);
            assert(is_plan_of(old(self)@[k as int].receipts@, p));
        }
        Ok(Storage::new(file_id, filename, false, parent_dir_id, size as usize))
    }
}

/// A finalize whose announced count differs from the receipts of the session fails
/// with `ChunkCountMismatch` (and by the contract of `finalize` changes nothing); the
/// same session finished with the right count is then refused only when the file size
/// overflows or the ledger refuses the new file.
pub proof fn lemma_finalize_wrong_count(
    sessions: Seq<UploadSession>,
    files: Seq<Files>,
    sid: Seq<char>,
    caller: u128,
    wrong_count: usize,
    file_id: i64,
)
    requires
        session_pos(sessions, sid) matches Some(k) && sessions[k].info.user_id == caller
            && sessions[k].receipts@.len() != wrong_count,
    ensures
        finalize_error(sessions, files, sid, caller, wrong_count, file_id) == Some(
            Error::ChunkCountMismatch,
        ),
        ({
            let k = session_pos(sessions, sid)->Some_0;
            let s = sessions[k];
            &&& s.receipts@.len() <= usize::MAX ==> (finalize_error(
                sessions,
                files,
                sid,
                caller,
                s.receipts@.len() as usize,
                file_id,
            ) is None <==> total_size(s.receipts@) <= i64::MAX && total_size(s.receipts@)
                <= usize::MAX && create_error(
                files,
                file_id,
                caller,
                s.info.parent_dir_id,
                s.info.filename@,
            ) is None)
        }),
{
}

} // verus!
