use objstore::addr::{hash_path_parts, valid_hash};
use objstore::writer::write_blob;

#[test]
fn well_formed_hash_is_accepted() {
    assert!(valid_hash("95d09f2b10159347eece71399a7e2e907ea3df4f"));
    assert!(valid_hash("0000000000000000000000000000000000000000"));
    assert!(valid_hash("ffffffffffffffffffffffffffffffffffffffff"));
}

#[test]
fn short_prefix_is_rejected() {
    assert!(!valid_hash(""));
    assert!(!valid_hash("95d09f"));
    assert!(!valid_hash("95d09f2b10159347eece71399a7e2e907ea3df4"));
}

#[test]
fn overlong_hash_is_rejected() {
    assert!(!valid_hash("95d09f2b10159347eece71399a7e2e907ea3df4f0"));
}

#[test]
fn non_hex_characters_are_rejected() {
    assert!(!valid_hash("95D09F2B10159347EECE71399A7E2E907EA3DF4F"));
    assert!(!valid_hash("g5d09f2b10159347eece71399a7e2e907ea3df4f"));
    assert!(!valid_hash("95d09f2b10159347eece71399a7e2e907ea3df4 "));
}

#[test]
fn path_splits_after_two_characters() {
    let (dir, file) = hash_path_parts("95d09f2b10159347eece71399a7e2e907ea3df4f");
    assert_eq!(dir, "95");
    assert_eq!(file, "d09f2b10159347eece71399a7e2e907ea3df4f");
}

#[test]
fn written_hash_is_a_valid_address() {
    let w = write_blob(&b"hello world".to_vec(), false);
    assert!(valid_hash(&w.hash));
    let (dir, file) = hash_path_parts(&w.hash);
    assert_eq!(dir.len(), 2);
    assert_eq!(file.len(), 38);
    assert_eq!(format!("{dir}{file}"), w.hash);
}
