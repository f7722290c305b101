use trust_chain::hashing::{dir_from_entries, hash_bytes, hash_tree, DirEntry, FsTree};
use trust_chain::util::{parse_hex, to_hex_string, write_hex_bytes};

#[test]
fn hex_encoding_known_values() {
    assert_eq!(to_hex_string(&[]), "");
    assert_eq!(to_hex_string(&[0x00, 0xff, 0x1a]), "00ff1a");
}

#[test]
fn hex_append_keeps_prefix() {
    let mut s = String::from("x");
    write_hex_bytes(&mut s, &[0xab]);
    assert_eq!(s, "xab");
}

#[test]
fn hex_round_trip() {
    let bytes = vec![0u8, 1, 2, 254, 255, 16, 32];
    let hex = to_hex_string(&bytes);
    assert_eq!(parse_hex(&hex), Some(bytes));
}

#[test]
fn hex_rejects_bad_input() {
    assert_eq!(parse_hex("0"), None);
    assert_eq!(parse_hex("zz"), None);
    assert_eq!(parse_hex("AB"), None);
}

#[test]
fn hash_known_vector() {
    let digest = hash_bytes(b"abc");
    assert_eq!(
        to_hex_string(&digest),
        "ba7816bf8f01cfea414140de5dae2223b00361a396177a9cb410ff61f20015ad"
    );
}

#[test]
fn hash_is_deterministic() {
    let a = hash_bytes(b"some artifact bytes");
    let b = hash_bytes(b"some artifact bytes");
    assert_eq!(a, b);
    assert_eq!(a.len(), 32);
}

#[test]
fn hash_changes_with_one_byte() {
    let a = hash_bytes(b"some artifact bytes");
    let b = hash_bytes(b"some artifact bytez");
    assert_ne!(a, b);
}

fn two_file_dir(name1: &[u8], data1: &[u8], name2: &[u8], data2: &[u8]) -> FsTree {
    dir_from_entries(vec![
        DirEntry { name: name1.to_vec(), node: FsTree::File(data1.to_vec()) },
        DirEntry { name: name2.to_vec(), node: FsTree::File(data2.to_vec()) },
    ])
}

#[test]
fn dir_hash_detects_name_swap() {
    let original = two_file_dir(b"alpha", b"one", b"beta", b"two");
    let swapped_names = two_file_dir(b"beta", b"one", b"alpha", b"two");
    assert_ne!(hash_tree(&original), hash_tree(&swapped_names));
}

#[test]
fn dir_hash_ignores_listing_order() {
    let original = two_file_dir(b"alpha", b"one", b"beta", b"two");
    let reordered = two_file_dir(b"beta", b"two", b"alpha", b"one");
    assert_eq!(hash_tree(&original), hash_tree(&reordered));
}

#[test]
fn dir_hash_depends_on_content() {
    let original = two_file_dir(b"alpha", b"one", b"beta", b"two");
    let changed = two_file_dir(b"alpha", b"one", b"beta", b"tw0");
    assert_ne!(hash_tree(&original), hash_tree(&changed));
}

#[test]
fn nested_dir_hash_is_deterministic() {
    let inner = dir_from_entries(vec![DirEntry {
        name: b"file".to_vec(),
        node: FsTree::File(b"data".to_vec()),
    }]);
    let inner2 = dir_from_entries(vec![DirEntry {
        name: b"file".to_vec(),
        node: FsTree::File(b"data".to_vec()),
    }]);
    let t1 = dir_from_entries(vec![DirEntry { name: b"sub".to_vec(), node: inner }]);
    let t2 = dir_from_entries(vec![DirEntry { name: b"sub".to_vec(), node: inner2 }]);
    assert_eq!(hash_tree(&t1), hash_tree(&t2));
}
