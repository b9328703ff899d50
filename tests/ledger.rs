use cloud_core::cloud_mgr::{CloudMgr, LocalConfig};
use cloud_core::error::Error;
use cloud_core::ledger::{FileLedger, Files, Workspaces, ROOT_DIR_ID};
use cloud_core::storages::{Storage, UploadFileReq};

const U: u128 = 11;
const W: u128 = 22;

fn ledger_with_file_seven() -> FileLedger {
    let mut l = FileLedger::new();
    l.create(7, U, W, ROOT_DIR_ID, "f.txt".to_string(), 3, vec!["b1".to_string()], vec!["h1".to_string()])
        .unwrap();
    l
}

#[test]
fn update_content_scenario_d() {
    let mut l = ledger_with_file_seven();
    assert_eq!(l.get(7).unwrap().version, 1);
    l.update_content(7, 1, 4, vec!["b2".to_string()], vec!["h2".to_string()], U).unwrap();
    assert_eq!(l.get(7).unwrap().version, 2);
    assert_eq!(l.get(7).unwrap().size, 4);
    let h2 = l.find_history(7, 2).unwrap();
    assert_eq!(h2.slices, vec!["b2".to_string()]);
    // a stale writer that also read version 1 loses
    assert_eq!(
        l.update_content(7, 1, 5, vec!["b3".to_string()], vec!["h3".to_string()], U),
        Err(Error::VersionConflict)
    );
    assert_eq!(l.get(7).unwrap().version, 2);
    assert!(l.find_history(7, 3).is_none());
    // history is kept
    assert_eq!(l.find_history(7, 1).unwrap().slices_hash, vec!["h1".to_string()]);
}

#[test]
fn update_content_errors() {
    let mut l = ledger_with_file_seven();
    assert_eq!(l.update_content(8, 1, 0, vec![], vec![], U), Err(Error::NotFound));
    assert_eq!(l.update_content(7, 1, 0, vec![], vec![], U + 1), Err(Error::Unauthorized));
    assert_eq!(l.update_content(7, 2, 0, vec![], vec![], U), Err(Error::VersionConflict));
}

#[test]
fn create_refuses_taken_id_and_sibling_name() {
    let mut l = ledger_with_file_seven();
    assert_eq!(
        l.create(7, U, W, 5, "other".to_string(), 0, vec![], vec![]),
        Err(Error::AlreadyExists)
    );
    assert_eq!(
        l.create(8, U, W, ROOT_DIR_ID, "f.txt".to_string(), 0, vec![], vec![]),
        Err(Error::AlreadyExists)
    );
    // another owner may use the same name
    assert_eq!(l.create(9, U + 1, W, ROOT_DIR_ID, "f.txt".to_string(), 0, vec![], vec![]), Ok(()));
}

#[test]
fn soft_delete_hides_file_but_keeps_history() {
    let mut l = ledger_with_file_seven();
    assert_eq!(l.soft_delete(7, U + 1), Err(Error::Unauthorized));
    assert_eq!(l.soft_delete(7, U), Ok(()));
    assert!(l.get(7).is_none());
    assert!(l.check_owner(U, 7, W).is_none());
    assert!(l.find_history(7, 1).is_some());
    assert_eq!(l.soft_delete(7, U), Err(Error::NotFound));
    assert_eq!(l.update_content(7, 1, 0, vec![], vec![], U), Err(Error::NotFound));
    // the name is free again, but the id stays taken
    assert_eq!(l.create(8, U, W, ROOT_DIR_ID, "f.txt".to_string(), 0, vec![], vec![]), Ok(()));
    assert_eq!(l.create(7, U, W, ROOT_DIR_ID, "g".to_string(), 0, vec![], vec![]), Err(Error::AlreadyExists));
}

#[test]
fn rename_keeps_version() {
    let mut l = ledger_with_file_seven();
    assert_eq!(l.rename(7, "g.txt".to_string()), Ok(()));
    let f = l.get(7).unwrap();
    assert_eq!(f.filename, "g.txt");
    assert_eq!(f.version, 1);
    assert!(l.find_history(7, 2).is_none());
    assert_eq!(l.rename(99, "x".to_string()), Err(Error::NotFound));
}

#[test]
fn check_owner_needs_owner_and_workspace() {
    let l = ledger_with_file_seven();
    assert!(l.check_owner(U, 7, W).is_some());
    assert!(l.check_owner(U, 7, W + 1).is_none());
    assert!(l.check_owner(U + 1, 7, W).is_none());
}

#[test]
fn directories_have_no_history() {
    let mut l = FileLedger::new();
    assert_eq!(l.create_dir(3, U, W, ROOT_DIR_ID, "dir".to_string()), Ok(()));
    let d = l.get(3).unwrap();
    assert!(d.is_dir);
    assert_eq!(d.size, 0);
    assert!(l.find_history(3, 1).is_none());
    assert_eq!(l.update_content(3, 1, 0, vec![], vec![], U), Err(Error::NotFound));
    assert!(l.may_write(U, W, 3));
    assert!(!l.may_write(U + 1, W, 3));
    assert!(!l.may_write(U, W, ROOT_DIR_ID));
    l.insert_workspace(Workspaces::new(W, "ws".to_string(), U, false)).unwrap();
    assert!(l.may_write(U, W, ROOT_DIR_ID));
    assert!(!l.may_write(U + 1, W, ROOT_DIR_ID));
    assert!(l.get_workspace(W, U).is_some());
    assert_eq!(
        l.insert_workspace(Workspaces::new(W, "again".to_string(), U + 1, true)),
        Err(Error::AlreadyExists)
    );
}

#[test]
fn record_constructors() {
    let f = Files::new(1, U, W, "a".to_string(), 2, 30, false);
    assert_eq!(f.version, 1);
    assert!(!f.is_deleted);
    let r = Files::root_dir(W, U, "ws".to_string());
    assert_eq!(r.id, -1);
    assert_eq!(r.parent_dir_id, -2);
    assert!(r.is_dir);
}

#[test]
fn storage_descriptor_in_decimal() {
    let s = Storage::new(-5, "x".to_string(), false, -1, 42);
    assert_eq!(s.id, "-5");
    assert_eq!(s.parent_dir_id, "-1");
    assert_eq!(s.size, "42");
    assert_eq!(s.filename, "x");
    let t = Storage::new(i64::MIN, String::new(), true, i64::MAX, 0);
    assert_eq!(t.id, i64::MIN.to_string());
    assert_eq!(t.parent_dir_id, i64::MAX.to_string());
    assert_eq!(t.size, "0");
    let u = Storage::new(1234567890, String::new(), true, 10, usize::MAX);
    assert_eq!(u.id, "1234567890");
    assert_eq!(u.parent_dir_id, "10");
    assert_eq!(u.size, usize::MAX.to_string());
}

#[test]
fn upload_request_shape() {
    let req = UploadFileReq { filename: "a".to_string(), is_dir: false, parent_dir_id: ROOT_DIR_ID };
    assert_eq!(req.parent_dir_id, -1);
}

#[test]
fn listing_a_directory() {
    let mut l = FileLedger::new();
    assert_eq!(l.list_dir(U, W, ROOT_DIR_ID), Err(Error::Unauthorized));
    l.insert_workspace(Workspaces::new(W, "ws".to_string(), U, false)).unwrap();
    l.create_dir(1, U, W, ROOT_DIR_ID, "d".to_string()).unwrap();
    l.create(2, U, W, 1, "a".to_string(), 1, vec![], vec![]).unwrap();
    l.create(3, U, W, 1, "b".to_string(), 1, vec![], vec![]).unwrap();
    l.create(4, U + 1, W, 1, "c".to_string(), 1, vec![], vec![]).unwrap();
    l.create(5, U, W, ROOT_DIR_ID, "top".to_string(), 1, vec![], vec![]).unwrap();
    assert_eq!(l.list_dir(U, W, 1), Ok(vec![2, 3]));
    assert_eq!(l.list_dir(U, W, ROOT_DIR_ID), Ok(vec![1, 5]));
    l.soft_delete(2, U).unwrap();
    assert_eq!(l.list_dir(U, W, 1), Ok(vec![3]));
    assert_eq!(l.list_dir(U + 1, W, 1), Err(Error::Unauthorized));
    assert_eq!(l.list_dir(U, W + 1, 1), Err(Error::Unauthorized));
    assert_eq!(l.list_dir(U, W, 5), Err(Error::NotFound));
    assert_eq!(l.list_dir(U, W, 99), Err(Error::Unauthorized));
    assert_eq!(l.get_by_parent_dir_id_and_uid(1, U + 1), vec![4]);
}

#[test]
fn cloud_mgr_takes_one_backend() {
    let mut mgr = CloudMgr::new(None, Some(LocalConfig { path: "/tmp/blocks".to_string() }), 4 * 1024 * 1024, 1, 2);
    assert!(mgr.s3_config.is_none());
    assert_eq!(mgr.local_config.as_ref().unwrap().path, "/tmp/blocks");
    assert_eq!(mgr.block_max_size, 4 * 1024 * 1024);
    assert!(mgr.snowflake.next_id().is_ok());
}

#[test]
fn workspace_list_rename_and_delete() {
    let mut l = FileLedger::new();
    l.insert_workspace(Workspaces::new(W, "one".to_string(), U, false)).unwrap();
    l.insert_workspace(Workspaces::new(W + 1, "two".to_string(), U + 1, false)).unwrap();
    l.insert_workspace(Workspaces::new(W + 2, "three".to_string(), U, true)).unwrap();
    assert_eq!(l.get_workspace_list(U), vec![W, W + 2]);
    assert_eq!(l.update_workspace(W, U + 1, "x".to_string()), Err(Error::NotFound));
    assert_eq!(l.update_workspace(W, U, "renamed".to_string()), Ok(()));
    assert_eq!(l.get_workspace(W, U).unwrap().name, "renamed");
    l.create(7, U, W, ROOT_DIR_ID, "f".to_string(), 1, vec![], vec![]).unwrap();
    assert_eq!(l.delete_workspace(W, U + 1), Err(Error::NotFound));
    assert_eq!(l.delete_workspace(W, U), Ok(()));
    assert!(l.get_workspace(W, U).is_none());
    assert_eq!(l.get_workspace_list(U), vec![W + 2]);
    assert!(!l.may_write(U, W, ROOT_DIR_ID));
    // the files stay on record
    assert!(l.get(7).is_some());
}
