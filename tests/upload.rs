use cloud_core::block::{Block, BlockHandler, MemoryBlockStore};
use cloud_core::digest::sha256_digest;
use cloud_core::error::Error;
use cloud_core::ledger::{FileLedger, Workspaces, ROOT_DIR_ID};
use cloud_core::storages::{BlockInfo, SessionInfo, UploadFileReq};
use cloud_core::store_service::{check_and_merge, create_storage, read_file};
use cloud_core::upload::{check_chunk, check_chunk_digest, plan_finalize, sort_order, UploadSessions, SESSION_TTL_MS};

const U: u128 = 0x1234;
const W: u128 = 0x5678;
const MIB: usize = 1024 * 1024;

fn ledger_with_workspace() -> FileLedger {
    let mut l = FileLedger::new();
    l.insert_workspace(Workspaces::new(W, "ws".to_string(), U, false)).unwrap();
    l
}

#[test]
fn single_shot_upload_scenario_a() {
    let mut ledger = ledger_with_workspace();
    let mut store = MemoryBlockStore::new();
    let req = UploadFileReq { filename: "a.txt".to_string(), is_dir: false, parent_dir_id: ROOT_DIR_ID };
    let data = b"0123456789".to_vec();
    let d = create_storage(&mut ledger, &mut store, U, W, req, data.clone(), 100).unwrap();
    assert_eq!(d.id, "100");
    assert_eq!(d.size, "10");
    assert!(!d.is_dir);
    let f = ledger.get(100).unwrap();
    assert_eq!(f.size, 10);
    assert_eq!(f.version, 1);
    let h = ledger.find_history(100, 1).unwrap();
    assert_eq!(h.slices.len(), 1);
    assert_eq!(h.slices_hash, vec![sha256_digest(&data)]);
    assert!(ledger.find_history(100, 2).is_none());
    assert_eq!(store.len(), 1);
    assert_eq!(store.get(&h.slices[0]), Some(data));
}

#[test]
fn single_shot_upload_checks() {
    let mut ledger = ledger_with_workspace();
    let mut store = MemoryBlockStore::new();
    let empty_name = UploadFileReq { filename: String::new(), is_dir: false, parent_dir_id: ROOT_DIR_ID };
    assert_eq!(create_storage(&mut ledger, &mut store, U, W, empty_name, vec![1], 1).err(), Some(Error::InvalidInput));
    let dir_with_bytes = UploadFileReq { filename: "d".to_string(), is_dir: true, parent_dir_id: ROOT_DIR_ID };
    assert_eq!(create_storage(&mut ledger, &mut store, U, W, dir_with_bytes, vec![1], 1).err(), Some(Error::InvalidInput));
    let no_parent = UploadFileReq { filename: "x".to_string(), is_dir: false, parent_dir_id: 55 };
    assert_eq!(create_storage(&mut ledger, &mut store, U, W, no_parent, vec![1], 1).err(), Some(Error::Unauthorized));
    assert_eq!(store.len(), 0);
    let dir = UploadFileReq { filename: "d".to_string(), is_dir: true, parent_dir_id: ROOT_DIR_ID };
    let d = create_storage(&mut ledger, &mut store, U, W, dir, Vec::new(), 2).unwrap();
    assert!(d.is_dir);
    let inside = UploadFileReq { filename: "x".to_string(), is_dir: false, parent_dir_id: 2 };
    assert!(create_storage(&mut ledger, &mut store, U, W, inside, vec![9; 5], 3).is_ok());
    assert_eq!(ledger.get(3).unwrap().parent_dir_id, 2);
    let again = UploadFileReq { filename: "x".to_string(), is_dir: false, parent_dir_id: 2 };
    assert_eq!(create_storage(&mut ledger, &mut store, U, W, again, vec![9; 5], 4).err(), Some(Error::AlreadyExists));
    let other_user = UploadFileReq { filename: "y".to_string(), is_dir: false, parent_dir_id: 2 };
    assert_eq!(create_storage(&mut ledger, &mut store, U + 1, W, other_user, vec![9; 5], 5).err(), Some(Error::Unauthorized));
    let foreign_root = UploadFileReq { filename: "z".to_string(), is_dir: false, parent_dir_id: ROOT_DIR_ID };
    assert_eq!(create_storage(&mut ledger, &mut store, U + 1, W, foreign_root, vec![1], 6).err(), Some(Error::Unauthorized));
}

#[test]
fn resumable_upload_scenario_b() {
    let mut ledger = ledger_with_workspace();
    let mut store = MemoryBlockStore::new();
    let mut sessions = UploadSessions::new();
    let sid = sessions.open_session(&ledger, U, W, "b.bin".to_string(), ROOT_DIR_ID).unwrap();
    assert_eq!(sid.len(), 36);
    let c0 = vec![0u8; 4 * MIB];
    let c1 = vec![0u8; MIB];
    let h0 = sha256_digest(&c0);
    let h1 = sha256_digest(&c1);
    // chunks may arrive out of order
    sessions.submit_chunk(&mut store, &sid, U, 1, MIB, &h1, c1).unwrap();
    sessions.submit_chunk(&mut store, &sid, U, 0, 4 * MIB, &h0, c0).unwrap();
    let d = sessions.finalize(&mut ledger, &sid, U, 2, 500).unwrap();
    assert_eq!(d.size, (5 * MIB).to_string());
    assert_eq!(d.filename, "b.bin");
    let f = ledger.get(500).unwrap();
    assert_eq!(f.size, (5 * MIB) as i64);
    assert_eq!(f.version, 1);
    let h = ledger.find_history(500, 1).unwrap();
    assert_eq!(h.slices_hash, vec![h0, h1]);
    assert_eq!(store.get(&h.slices[0]).unwrap().len(), 4 * MIB);
    assert_eq!(store.get(&h.slices[1]).unwrap().len(), MIB);
    // the session is gone
    assert!(sessions.get(&sid).is_none());
    assert_eq!(sessions.finalize(&mut ledger, &sid, U, 2, 501).err(), Some(Error::NotFound));
}

#[test]
fn integrity_failure_scenario_c() {
    let mut ledger = ledger_with_workspace();
    let mut store = MemoryBlockStore::new();
    let mut sessions = UploadSessions::new();
    let sid = sessions.open_session(&ledger, U, W, "c.bin".to_string(), ROOT_DIR_ID).unwrap();
    let data = vec![1u8; 100];
    let wrong = sha256_digest(b"something else");
    assert_eq!(
        sessions.submit_chunk(&mut store, &sid, U, 0, 100, &wrong, data.clone()),
        Err(Error::IntegrityMismatch)
    );
    assert_eq!(store.len(), 0);
    // a wrong size is an integrity failure too
    let right = sha256_digest(&data);
    assert_eq!(
        sessions.submit_chunk(&mut store, &sid, U, 0, 99, &right, data),
        Err(Error::IntegrityMismatch)
    );
    assert_eq!(store.len(), 0);
    assert_eq!(sessions.get(&sid).unwrap().receipts.len(), 0);
    assert_eq!(sessions.finalize(&mut ledger, &sid, U, 1, 9).err(), Some(Error::ChunkCountMismatch));
}

#[test]
fn finalize_wrong_count_keeps_session() {
    let mut ledger = ledger_with_workspace();
    let mut store = MemoryBlockStore::new();
    let mut sessions = UploadSessions::new();
    let sid = sessions.open_session(&ledger, U, W, "d.bin".to_string(), ROOT_DIR_ID).unwrap();
    let data = vec![5u8; 10];
    let h = sha256_digest(&data);
    sessions.submit_chunk(&mut store, &sid, U, 0, 10, &h, data).unwrap();
    assert_eq!(sessions.finalize(&mut ledger, &sid, U, 3, 9).err(), Some(Error::ChunkCountMismatch));
    assert!(sessions.get(&sid).is_some());
    assert!(ledger.get(9).is_none());
    let d = sessions.finalize(&mut ledger, &sid, U, 1, 9).unwrap();
    assert_eq!(d.size, "10");
    assert_eq!(ledger.get(9).unwrap().size, 10);
}

#[test]
fn resubmitting_a_chunk_replaces_its_receipt() {
    let ledger = ledger_with_workspace();
    let mut store = MemoryBlockStore::new();
    let mut sessions = UploadSessions::new();
    let sid = sessions.open_session(&ledger, U, W, "e.bin".to_string(), ROOT_DIR_ID).unwrap();
    let a = vec![1u8; 4];
    let b = vec![2u8; 6];
    sessions.submit_chunk(&mut store, &sid, U, 0, 4, &sha256_digest(&a), a).unwrap();
    sessions.submit_chunk(&mut store, &sid, U, 0, 6, &sha256_digest(&b), b.clone()).unwrap();
    let s = sessions.get(&sid).unwrap();
    assert_eq!(s.receipts.len(), 1);
    assert_eq!(s.receipts[0].block_size, 6);
    assert_eq!(s.receipts[0].block_hash, sha256_digest(&b));
    // both blocks were stored; the first is orphaned
    assert_eq!(store.len(), 2);
}

#[test]
fn session_ownership_is_checked() {
    let mut ledger = ledger_with_workspace();
    let mut store = MemoryBlockStore::new();
    let mut sessions = UploadSessions::new();
    assert_eq!(
        sessions.open_session(&ledger, U, W, "f".to_string(), 42).err(),
        Some(Error::Unauthorized)
    );
    // the root of a workspace that is not the caller's
    assert_eq!(
        sessions.open_session(&ledger, U + 1, W, "f".to_string(), ROOT_DIR_ID).err(),
        Some(Error::Unauthorized)
    );
    assert_eq!(
        sessions.open_session(&ledger, U, W + 1, "f".to_string(), ROOT_DIR_ID).err(),
        Some(Error::Unauthorized)
    );
    let sid = sessions.open_session(&ledger, U, W, "f".to_string(), ROOT_DIR_ID).unwrap();
    let data = vec![3u8; 3];
    let h = sha256_digest(&data);
    assert_eq!(
        sessions.submit_chunk(&mut store, &sid, U + 1, 0, 3, &h, data.clone()),
        Err(Error::Unauthorized)
    );
    assert_eq!(
        sessions.submit_chunk(&mut store, &"nope".to_string(), U, 0, 3, &h, data.clone()),
        Err(Error::NotFound)
    );
    sessions.submit_chunk(&mut store, &sid, U, 0, 3, &h, data).unwrap();
    assert_eq!(sessions.finalize(&mut ledger, &sid, U + 1, 1, 1).err(), Some(Error::Unauthorized));
    // a name already taken by a live sibling: the session stays for a retry
    ledger.create(77, U, W, ROOT_DIR_ID, "f".to_string(), 0, vec![], vec![]).unwrap();
    assert_eq!(sessions.finalize(&mut ledger, &sid, U, 1, 1).err(), Some(Error::AlreadyExists));
    assert!(sessions.get(&sid).is_some());
}

#[test]
fn integrity_gate_verdicts() {
    let data = b"abc".to_vec();
    let good = "ba7816bf8f01cfea414140de5dae2223b00361a396177a9cb410ff61f20015ad".to_string();
    assert_eq!(check_chunk(&data, 3, &good), Ok(good.clone()));
    assert_eq!(check_chunk(&data, 4, &good), Err(Error::IntegrityMismatch));
    assert_eq!(check_chunk(&data, 3, &"00".to_string()), Err(Error::IntegrityMismatch));
    assert_eq!(check_chunk_digest(3, &good, 3, &good), Ok(()));
    assert_eq!(check_chunk_digest(3, &good, 3, &"x".to_string()), Err(Error::IntegrityMismatch));
    assert_eq!(check_chunk_digest(2, &good, 3, &good), Err(Error::IntegrityMismatch));
}

fn receipt(name: &str, index: usize, size: usize) -> BlockInfo {
    BlockInfo { block_name: name.to_string(), block_index: index, block_size: size, block_hash: format!("h{}", index) }
}

#[test]
fn finalize_plan_orders_by_index() {
    let info = SessionInfo { user_id: U, ws_id: W, filename: "p".to_string(), parent_dir_id: ROOT_DIR_ID };
    let receipts = vec![receipt("c", 2, 30), receipt("a", 0, 10), receipt("b", 1, 20)];
    assert_eq!(sort_order(&receipts), vec![1, 2, 0]);
    let plan = plan_finalize(&info, U, &receipts, 3).ok().unwrap();
    assert_eq!(plan.blocks_name, vec!["a".to_string(), "b".to_string(), "c".to_string()]);
    assert_eq!(plan.blocks_hash, vec!["h0".to_string(), "h1".to_string(), "h2".to_string()]);
    assert_eq!(plan.file_size, 60);
    assert_eq!(plan_finalize(&info, U, &receipts, 2).err(), Some(Error::ChunkCountMismatch));
    assert_eq!(plan_finalize(&info, U + 1, &receipts, 3).err(), Some(Error::Unauthorized));
    let huge = vec![receipt("a", 0, usize::MAX), receipt("b", 1, 1)];
    assert_eq!(plan_finalize(&info, U, &huge, 2).err(), Some(Error::LimitExceeded));
    let none: Vec<BlockInfo> = Vec::new();
    assert_eq!(plan_finalize(&info, U, &none, 0).ok().unwrap().file_size, 0);
}

#[test]
fn read_back_checks_digests() {
    let mut ledger = ledger_with_workspace();
    let mut store = MemoryBlockStore::new();
    let req = UploadFileReq { filename: "r.bin".to_string(), is_dir: false, parent_dir_id: ROOT_DIR_ID };
    let data: Vec<u8> = (0..(9 * MIB)).map(|i| (i % 253) as u8).collect();
    create_storage(&mut ledger, &mut store, U, W, req, data.clone(), 40).unwrap();
    assert_eq!(ledger.find_history(40, 1).unwrap().slices.len(), 3);
    assert_eq!(read_file(&ledger, &store, U, W, 40), Ok(data));
    assert_eq!(read_file(&ledger, &store, U + 1, W, 40), Err(Error::Unauthorized));
    assert_eq!(read_file(&ledger, &store, U, W, 41), Err(Error::Unauthorized));
    // a block overwritten with other bytes no longer matches its digest
    let name = ledger.find_history(40, 1).unwrap().slices[1].clone();
    store.write_blocks(vec![Block::new(name, vec![0u8; 4])]).unwrap();
    assert_eq!(read_file(&ledger, &store, U, W, 40), Err(Error::IntegrityMismatch));
}

/// A backend whose writes always fail.
struct BrokenStore;

impl BlockHandler for BrokenStore {
    fn write_blocks(&mut self, _blocks: Vec<Block>) -> Result<(), Error> {
        Err(Error::StorageIO)
    }

    fn get_blocks(&self, _blocks_name: &Vec<String>) -> Result<Vec<Block>, Error> {
        Err(Error::StorageIO)
    }
}

#[test]
fn storage_failures_are_surfaced() {
    let mut ledger = ledger_with_workspace();
    let mut store = BrokenStore;
    let mut sessions = UploadSessions::new();
    let sid = sessions.open_session(&ledger, U, W, "s".to_string(), ROOT_DIR_ID).unwrap();
    let data = vec![4u8; 8];
    let h = sha256_digest(&data);
    assert_eq!(sessions.submit_chunk(&mut store, &sid, U, 0, 8, &h, data.clone()), Err(Error::StorageIO));
    assert_eq!(sessions.get(&sid).unwrap().receipts.len(), 0);
    let req = UploadFileReq { filename: "t".to_string(), is_dir: false, parent_dir_id: ROOT_DIR_ID };
    assert_eq!(create_storage(&mut ledger, &mut store, U, W, req, data, 8).err(), Some(Error::StorageIO));
    assert!(ledger.get(8).is_none());
}

#[test]
fn opening_a_session_under_a_given_id() {
    let ledger = ledger_with_workspace();
    let mut sessions = UploadSessions::new();
    let sid = "0198c0de-0000-7000-8000-000000000001".to_string();
    assert_eq!(
        sessions.open_session_with_id(&ledger, sid.clone(), 1000, U + 1, W, "f".to_string(), ROOT_DIR_ID),
        Err(Error::Unauthorized)
    );
    assert_eq!(
        sessions.open_session_with_id(&ledger, sid.clone(), 1000, U, W, "f".to_string(), ROOT_DIR_ID),
        Ok(sid.clone())
    );
    let s = sessions.get(&sid).unwrap();
    assert_eq!(s.expires_at, 1000);
    assert_eq!(s.info.filename, "f");
    assert!(s.receipts.is_empty());
    assert_eq!(
        sessions.open_session_with_id(&ledger, sid.clone(), 2000, U, W, "g".to_string(), ROOT_DIR_ID),
        Err(Error::AlreadyExists)
    );
    assert_eq!(sessions.get(&sid).unwrap().info.filename, "f");
}

#[test]
fn expired_sessions_are_purged() {
    let ledger = ledger_with_workspace();
    let mut sessions = UploadSessions::new();
    let a = "a".to_string();
    let b = "b".to_string();
    let c = "c".to_string();
    sessions.open_session_with_id(&ledger, a.clone(), 100, U, W, "a".to_string(), ROOT_DIR_ID).unwrap();
    sessions.open_session_with_id(&ledger, b.clone(), 300, U, W, "b".to_string(), ROOT_DIR_ID).unwrap();
    sessions.open_session_with_id(&ledger, c.clone(), 200, U, W, "c".to_string(), ROOT_DIR_ID).unwrap();
    sessions.purge_expired(99);
    assert!(sessions.get(&a).is_some());
    sessions.purge_expired(200);
    assert!(sessions.get(&a).is_none());
    assert!(sessions.get(&b).is_some());
    assert!(sessions.get(&c).is_none());
    let fresh = sessions.open_session(&ledger, U, W, "d".to_string(), ROOT_DIR_ID).unwrap();
    let now = std::time::SystemTime::now().duration_since(std::time::UNIX_EPOCH).unwrap().as_millis() as i64;
    let exp = sessions.get(&fresh).unwrap().expires_at;
    assert!(exp > now && exp <= now + SESSION_TTL_MS);
}

#[test]
fn merge_with_digest_check() {
    let blocks = vec![Block::new("x".to_string(), b"ab".to_vec()), Block::new("y".to_string(), b"c".to_vec())];
    let hashes = vec![sha256_digest(b"ab"), sha256_digest(b"c")];
    assert_eq!(check_and_merge(&blocks, &hashes), Ok(b"abc".to_vec()));
    let swapped = vec![hashes[1].clone(), hashes[0].clone()];
    assert_eq!(check_and_merge(&blocks, &swapped), Err(Error::IntegrityMismatch));
    assert_eq!(check_and_merge(&blocks, &hashes[..1].to_vec()), Err(Error::IntegrityMismatch));
    assert_eq!(check_and_merge(&Vec::new(), &Vec::new()), Ok(Vec::new()));
}

#[test]
fn stored_chunk_holds_its_bytes_under_the_receipt_name() {
    let ledger = ledger_with_workspace();
    let mut store = MemoryBlockStore::new();
    let mut sessions = UploadSessions::new();
    let sid = sessions.open_session(&ledger, U, W, "h".to_string(), ROOT_DIR_ID).unwrap();
    let data = b"test file content".to_vec();
    let h = sha256_digest(&data);
    sessions.submit_chunk(&mut store, &sid, U, 0, 17, &h, data.clone()).unwrap();
    let name = sessions.get(&sid).unwrap().receipts[0].block_name.clone();
    assert_eq!(store.get(&name), Some(data));
}
