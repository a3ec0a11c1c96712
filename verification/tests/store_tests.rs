use objstore::codec::Kind;
use objstore::errors::ObjectError;
use objstore::reader::{read_object, read_stored};
use objstore::writer::write_blob;

/// zlib-compresses raw stored bytes, to craft store entries independently
/// of the library's own writer.
fn zlib(data: &[u8]) -> Vec<u8> {
    let mut enc = flate2::write::ZlibEncoder::new(Vec::new(), flate2::Compression::default());
    std::io::Write::write_all(&mut enc, data).unwrap();
    enc.finish().unwrap()
}

/// zlib-decompresses bytes, to inspect what the library's writer produced.
fn unzlib(data: &[u8]) -> Vec<u8> {
    let mut out = Vec::new();
    let mut dec = flate2::read::ZlibDecoder::new(data);
    std::io::Read::read_to_end(&mut dec, &mut out).unwrap();
    out
}

#[test]
fn hello_world_scenario() {
    let content = b"hello world".to_vec();
    let w = write_blob(&content, true);
    assert_eq!(w.hash, "95d09f2b10159347eece71399a7e2e907ea3df4f");
    let compressed = w.compressed.expect("persist requested");
    let mut obj = read_object(&compressed).expect("read back what was written");
    assert_eq!(obj.kind(), Kind::Blob);
    assert_eq!(obj.expected_size(), 11);
    let payload = obj.read_to_end().expect("payload complete");
    assert_eq!(payload, b"hello world".to_vec());
}

#[test]
fn empty_blob_round_trip() {
    let content = Vec::new();
    let w = write_blob(&content, true);
    assert_eq!(w.hash, "e69de29bb2d1d6434b8b29ae775ad8c2e48c5391");
    let compressed = w.compressed.expect("persist requested");
    let mut obj = read_object(&compressed).expect("read back what was written");
    assert_eq!(obj.kind(), Kind::Blob);
    assert_eq!(obj.expected_size(), 0);
    let payload = obj.read_to_end().expect("payload complete");
    assert_eq!(payload, Vec::<u8>::new());
}

#[test]
fn round_trip_various_contents() {
    let cases: Vec<Vec<u8>> = vec![
        b"a".to_vec(),
        b"\0\0\0".to_vec(),
        (0u8..=255).collect(),
        vec![0x42; 100_000],
        b"payload with\0embedded nul".to_vec(),
    ];
    for content in cases {
        let w = write_blob(&content, true);
        let compressed = w.compressed.expect("persist requested");
        let mut obj = read_object(&compressed).expect("read back what was written");
        assert_eq!(obj.kind(), Kind::Blob);
        assert_eq!(obj.expected_size(), content.len() as u64);
        let payload = obj.read_to_end().expect("payload complete");
        assert_eq!(payload, content);
    }
}

#[test]
fn written_bytes_decompress_to_envelope_and_content() {
    let w = write_blob(&b"hello world".to_vec(), true);
    let compressed = w.compressed.expect("persist requested");
    assert_eq!(unzlib(&compressed), b"blob 11\0hello world".to_vec());
}

#[test]
fn hash_does_not_depend_on_persist() {
    for content in [b"".to_vec(), b"hello world".to_vec(), vec![7u8; 5000]] {
        let dry = write_blob(&content, false);
        let wet = write_blob(&content, true);
        assert_eq!(dry.hash, wet.hash);
        assert!(dry.compressed.is_none());
        assert!(wet.compressed.is_some());
    }
}

#[test]
fn hash_is_content_sensitive() {
    let base = b"the quick brown fox jumps over the lazy dog".to_vec();
    let mut hashes = vec![write_blob(&base, false).hash];
    for i in 0..base.len() {
        let mut mutated = base.clone();
        mutated[i] ^= 1;
        hashes.push(write_blob(&mutated, false).hash);
    }
    let mut longer = base.clone();
    longer.push(b'!');
    hashes.push(write_blob(&longer, false).hash);
    hashes.push(write_blob(&base[..base.len() - 1].to_vec(), false).hash);
    let n = hashes.len();
    hashes.sort();
    hashes.dedup();
    assert_eq!(hashes.len(), n, "two different contents collided");
}

#[test]
fn cap_stops_at_declared_size() {
    // The header declares 3 bytes but the stream carries many more: the
    // reader must yield exactly 3 and never surface the excess.
    let mut stored = b"blob 3\0".to_vec();
    stored.extend_from_slice(&vec![b'x'; 50_000]);
    let compressed = zlib(&stored);
    let mut obj = read_object(&compressed).expect("envelope is valid");
    assert_eq!(obj.kind(), Kind::Blob);
    assert_eq!(obj.expected_size(), 3);
    assert_eq!(obj.remaining(), 3);
    let payload = obj.read_to_end().expect("declared size is available");
    assert_eq!(payload, b"xxx".to_vec());
}

#[test]
fn truncated_payload_is_a_size_mismatch() {
    let compressed = zlib(b"blob 10\0abc");
    let mut obj = read_object(&compressed).expect("envelope is valid");
    assert_eq!(obj.expected_size(), 10);
    match obj.read_to_end() {
        Err(ObjectError::SizeMismatch { expected, actual }) => {
            assert_eq!(expected, 10);
            assert_eq!(actual, 3);
        }
        _ => panic!("expected SizeMismatch"),
    }
}

#[test]
fn huge_declared_size_is_a_size_mismatch() {
    let compressed = zlib(b"blob 18446744073709551615\0tiny");
    let mut obj = read_object(&compressed).expect("envelope is valid");
    assert_eq!(obj.expected_size(), u64::MAX);
    assert!(matches!(obj.read_to_end(), Err(ObjectError::SizeMismatch { .. })));
}

#[test]
fn missing_object_is_not_found() {
    let r = read_stored(None);
    assert!(matches!(r, Err(ObjectError::NotFound)));
}

#[test]
fn stored_bytes_are_read_like_read_object() {
    let w = write_blob(&b"abc".to_vec(), true);
    let compressed = w.compressed.expect("persist requested");
    let mut obj = read_stored(Some(compressed)).expect("stored bytes are valid");
    assert_eq!(obj.kind(), Kind::Blob);
    assert_eq!(obj.read_to_end().expect("payload complete"), b"abc".to_vec());
}

#[test]
fn garbage_bytes_are_corrupt() {
    let r = read_object(&b"this is not a zlib stream".to_vec());
    assert!(matches!(r, Err(ObjectError::CorruptObject)));
}

#[test]
fn missing_terminator_within_bound_is_corrupt() {
    let compressed = zlib(&vec![b'a'; 200]);
    let r = read_object(&compressed);
    assert!(matches!(r, Err(ObjectError::CorruptObject)));
}

#[test]
fn unknown_kind_is_reported_with_its_token() {
    let compressed = zlib(b"widget 5\0aaaaa");
    match read_object(&compressed) {
        Err(ObjectError::UnsupportedKind(token)) => {
            assert_eq!(token, b"widget".to_vec());
        }
        _ => panic!("expected UnsupportedKind"),
    }
}

#[test]
fn invalid_header_text_is_corrupt() {
    let compressed = zlib(b"wid\xffget 5\0aaaaa");
    assert!(matches!(read_object(&compressed), Err(ObjectError::CorruptObject)));
}

#[test]
fn spaceless_header_is_malformed() {
    let compressed = zlib(b"blob\0");
    assert!(matches!(read_object(&compressed), Err(ObjectError::MalformedHeader)));
}

#[test]
fn non_decimal_size_is_invalid() {
    let compressed = zlib(b"blob x\0payload");
    assert!(matches!(read_object(&compressed), Err(ObjectError::InvalidSize)));
}

#[test]
fn tree_and_commit_envelopes_parse() {
    let compressed = zlib(b"tree 4\0data");
    let mut obj = read_object(&compressed).expect("envelope is valid");
    assert_eq!(obj.kind(), Kind::Tree);
    assert_eq!(obj.read_to_end().expect("payload complete"), b"data".to_vec());

    let compressed = zlib(b"commit 2\0ok");
    let obj = read_object(&compressed).expect("envelope is valid");
    assert_eq!(obj.kind(), Kind::Commit);
    assert_eq!(obj.expected_size(), 2);
}

#[test]
fn bounded_reads_walk_the_payload() {
    let w = write_blob(&b"hello world".to_vec(), true);
    let compressed = w.compressed.expect("persist requested");
    let mut obj = read_object(&compressed).expect("read back what was written");
    assert_eq!(obj.read_up_to(0), Vec::<u8>::new());
    assert_eq!(obj.read_up_to(5), b"hello".to_vec());
    assert_eq!(obj.remaining(), 6);
    assert_eq!(obj.read_up_to(100), b" world".to_vec());
    assert_eq!(obj.remaining(), 0);
    assert_eq!(obj.read_up_to(1), Vec::<u8>::new());
    let rest = obj.read_to_end().expect("payload complete");
    assert_eq!(rest, Vec::<u8>::new());
}
