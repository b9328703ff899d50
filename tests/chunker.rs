use cloud_core::block::{block_path_by_filename, Block, BlockHandler, FsHandler, MemoryBlockStore};
use cloud_core::chunker::{cut, merge, BLOCK_MAX_SIZE};
use cloud_core::digest::sha256_digest;
use cloud_core::error::Error;
use cloud_core::store_service::{CloudBlock, CloudFile};

#[test]
fn inner_utils_test_cut_file() {
    let ten_mb = vec![0u8; 10_000_000];
    let hash = sha256_digest(&ten_mb);
    let cloud_file = CloudFile::new("test".to_string(), ten_mb, false);
    let (blocks, _blocks_hash) = cut(&cloud_file.data, BLOCK_MAX_SIZE).unwrap();
    let merged_file = CloudFile::merge(blocks, "test");
    assert_eq!(hash, merged_file.hash);
}

#[test]
fn tests_test_cut_file() {
    let ten_mb = vec![0u8; 10_000_000];
    let hash = sha256_digest(&ten_mb);
    let cloud_file = CloudFile::new("test".to_string(), ten_mb, false);
    let (blocks, _blocks_hash) = cut(&cloud_file.data, BLOCK_MAX_SIZE).unwrap();
    let merged_file = CloudFile::merge(blocks, "test");
    assert_eq!(hash, merged_file.hash);
}

#[test]
fn sha256_known_values() {
    assert_eq!(
        sha256_digest(b"abc"),
        "ba7816bf8f01cfea414140de5dae2223b00361a396177a9cb410ff61f20015ad"
    );
    assert_eq!(
        sha256_digest(b""),
        "e3b0c44298fc1c149afbf4c8996fb92427ae41e4649b934ca495991b7852b855"
    );
}

#[test]
fn cut_ten_bytes_by_four() {
    let data: Vec<u8> = (0u8..10).collect();
    let (blocks, hashes) = cut(&data, 4).unwrap();
    assert_eq!(blocks.len(), 3);
    assert_eq!(hashes.len(), 3);
    assert_eq!(blocks[0].data, vec![0, 1, 2, 3]);
    assert_eq!(blocks[1].data, vec![4, 5, 6, 7]);
    assert_eq!(blocks[2].data, vec![8, 9]);
    for (b, h) in blocks.iter().zip(hashes.iter()) {
        assert_eq!(&sha256_digest(&b.data), h);
        assert_eq!(b.name.len(), 36);
    }
    assert_ne!(blocks[0].name, blocks[1].name);
    assert_eq!(merge(&blocks), data);
}

#[test]
fn cut_exact_multiple_and_empty() {
    let data = vec![7u8; 8];
    let (blocks, _) = cut(&data, 4).unwrap();
    assert_eq!(blocks.len(), 2);
    assert!(blocks.iter().all(|b| b.data.len() == 4));
    let (none, hashes) = cut(&[], 4).unwrap();
    assert!(none.is_empty());
    assert!(hashes.is_empty());
    assert_eq!(merge(&none), Vec::<u8>::new());
}

#[test]
fn cut_identical_content_gets_distinct_names() {
    let data = vec![1u8; 8];
    let (blocks, hashes) = cut(&data, 4).unwrap();
    assert_eq!(hashes[0], hashes[1]);
    assert_ne!(blocks[0].name, blocks[1].name);
}

#[test]
fn merge_round_trip_with_big_limit() {
    let data: Vec<u8> = (0..5000u32).map(|i| (i % 251) as u8).collect();
    let (blocks, _) = cut(&data, 1024).unwrap();
    assert_eq!(blocks.len(), 5);
    assert_eq!(blocks[4].data.len(), 5000 - 4096);
    let merged = CloudFile::merge(blocks, "f");
    assert_eq!(merged.data, data);
    assert_eq!(merged.hash, sha256_digest(&data));
}

#[test]
fn cloud_file_and_block_digests() {
    let dir = CloudFile::new("d".to_string(), Vec::new(), true);
    assert_eq!(dir.hash, "");
    let block = CloudBlock::new("n", b"abc".to_vec());
    assert_eq!(block.hash, "ba7816bf8f01cfea414140de5dae2223b00361a396177a9cb410ff61f20015ad");
}

#[test]
fn block_paths() {
    let b = Block::new("abcdef".to_string(), vec![1]);
    assert_eq!(b.path(), "a/b/abcdef");
    assert_eq!(block_path_by_filename("xy").as_deref(), Some("x/y/xy"));
    assert_eq!(block_path_by_filename("x"), None);
    let fs = FsHandler::new("/data");
    assert_eq!(fs.block_file_path("abc").as_deref(), Some("/data/a/b/abc"));
    let fs2 = FsHandler::new("/data/");
    assert_eq!(fs2.block_file_path("abc").as_deref(), Some("/data/a/b/abc"));
    let fs3 = FsHandler::new("");
    assert_eq!(fs3.block_file_path("abc").as_deref(), Some("a/b/abc"));
    assert_eq!(fs.block_file_path("a"), None);
}

#[test]
fn memory_store_reads_back_and_reports_unknown_names() {
    let mut store = MemoryBlockStore::new();
    store
        .write_blocks(vec![
            Block::new("n1".to_string(), vec![1, 2]),
            Block::new("n2".to_string(), vec![3]),
        ])
        .unwrap();
    assert_eq!(store.len(), 2);
    let got = store.get_blocks(&vec!["n2".to_string(), "n1".to_string()]).unwrap();
    assert_eq!(got[0].name, "n2");
    assert_eq!(got[0].data, vec![3]);
    assert_eq!(got[1].data, vec![1, 2]);
    assert_eq!(
        store.get_blocks(&vec!["n1".to_string(), "zz".to_string()]).err(),
        Some(Error::NotFound)
    );
    assert_eq!(store.get(&"zz".to_string()), None);
}
