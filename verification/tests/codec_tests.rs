use objstore::codec::{encode_header, parse_header, Kind};
use objstore::errors::ObjectError;

#[test]
fn parse_blob_header() {
    let r = parse_header(&b"blob 5\0".to_vec());
    match r {
        Ok((kind, size)) => {
            assert_eq!(kind, Kind::Blob);
            assert_eq!(size, 5);
        }
        Err(_) => panic!("expected a valid header"),
    }
}

#[test]
fn parse_tree_header() {
    let r = parse_header(&b"tree 123\0".to_vec());
    match r {
        Ok((kind, size)) => {
            assert_eq!(kind, Kind::Tree);
            assert_eq!(size, 123);
        }
        Err(_) => panic!("expected a valid header"),
    }
}

#[test]
fn parse_commit_header() {
    let r = parse_header(&b"commit 0\0".to_vec());
    match r {
        Ok((kind, size)) => {
            assert_eq!(kind, Kind::Commit);
            assert_eq!(size, 0);
        }
        Err(_) => panic!("expected a valid header"),
    }
}

#[test]
fn parse_header_without_space_is_malformed() {
    let r = parse_header(&b"blob\0".to_vec());
    assert!(matches!(r, Err(ObjectError::MalformedHeader)));
}

#[test]
fn parse_header_unknown_kind() {
    let r = parse_header(&b"widget 5\0".to_vec());
    match r {
        Err(ObjectError::UnsupportedKind(token)) => {
            assert_eq!(token, b"widget".to_vec());
        }
        _ => panic!("expected UnsupportedKind"),
    }
}

#[test]
fn parse_header_non_decimal_size() {
    let r = parse_header(&b"blob five\0".to_vec());
    assert!(matches!(r, Err(ObjectError::InvalidSize)));
}

#[test]
fn parse_header_empty_size() {
    let r = parse_header(&b"blob \0".to_vec());
    assert!(matches!(r, Err(ObjectError::InvalidSize)));
}

#[test]
fn parse_header_size_with_leading_zeros() {
    let r = parse_header(&b"blob 007\0".to_vec());
    match r {
        Ok((kind, size)) => {
            assert_eq!(kind, Kind::Blob);
            assert_eq!(size, 7);
        }
        Err(_) => panic!("expected a valid header"),
    }
}

#[test]
fn parse_header_largest_size() {
    let r = parse_header(&b"blob 18446744073709551615\0".to_vec());
    match r {
        Ok((kind, size)) => {
            assert_eq!(kind, Kind::Blob);
            assert_eq!(size, u64::MAX);
        }
        Err(_) => panic!("expected a valid header"),
    }
}

#[test]
fn parse_header_overflowing_size() {
    let r = parse_header(&b"blob 18446744073709551616\0".to_vec());
    assert!(matches!(r, Err(ObjectError::InvalidSize)));
}

#[test]
fn parse_header_signed_size_rejected() {
    let r = parse_header(&b"blob +5\0".to_vec());
    assert!(matches!(r, Err(ObjectError::InvalidSize)));
}

#[test]
fn parse_header_empty_input() {
    let r = parse_header(&Vec::new());
    assert!(matches!(r, Err(ObjectError::MalformedHeader)));
}

#[test]
fn parse_header_missing_terminator() {
    let r = parse_header(&b"blob 5".to_vec());
    assert!(matches!(r, Err(ObjectError::MalformedHeader)));
}

#[test]
fn parse_header_interior_nul() {
    let r = parse_header(&b"bl\0ob 5\0".to_vec());
    assert!(matches!(r, Err(ObjectError::MalformedHeader)));
}

#[test]
fn parse_header_invalid_text_is_corrupt() {
    let r = parse_header(&b"bl\xffob 5\0".to_vec());
    assert!(matches!(r, Err(ObjectError::CorruptObject)));
}

#[test]
fn parse_header_invalid_text_in_size_is_corrupt() {
    let r = parse_header(&b"blob \xfe\xff\0".to_vec());
    assert!(matches!(r, Err(ObjectError::CorruptObject)));
}

#[test]
fn parse_header_non_ascii_text_kind_is_unsupported() {
    let r = parse_header(&"bl\u{00f6}b 5\0".as_bytes().to_vec());
    match r {
        Err(ObjectError::UnsupportedKind(token)) => {
            assert_eq!(token, "bl\u{00f6}b".as_bytes().to_vec());
        }
        _ => panic!("expected UnsupportedKind"),
    }
}

#[test]
fn parse_header_trailing_bytes_after_nul() {
    let r = parse_header(&b"blob 5\0x".to_vec());
    assert!(matches!(r, Err(ObjectError::MalformedHeader)));
}

#[test]
fn encode_blob_header() {
    assert_eq!(encode_header(Kind::Blob, 0), b"blob 0\0".to_vec());
    assert_eq!(encode_header(Kind::Blob, 11), b"blob 11\0".to_vec());
}

#[test]
fn encode_tree_header() {
    assert_eq!(encode_header(Kind::Tree, 42), b"tree 42\0".to_vec());
}

#[test]
fn encode_commit_header() {
    assert_eq!(encode_header(Kind::Commit, 1234567890), b"commit 1234567890\0".to_vec());
}

#[test]
fn encode_largest_size() {
    assert_eq!(
        encode_header(Kind::Blob, u64::MAX),
        b"blob 18446744073709551615\0".to_vec()
    );
}

#[test]
fn encode_then_parse_round_trips() {
    for size in [0u64, 1, 9, 10, 99, 4096, u64::MAX] {
        for kind in [Kind::Blob, Kind::Tree, Kind::Commit] {
            let bytes = encode_header(kind, size);
            match parse_header(&bytes) {
                Ok((k, s)) => {
                    assert_eq!(k, kind);
                    assert_eq!(s, size);
                }
                Err(_) => panic!("encoded header failed to parse"),
            }
        }
    }
}

#[test]
fn kind_names() {
    assert_eq!(Kind::Blob.name(), "blob");
    assert_eq!(Kind::Tree.name(), "tree");
    assert_eq!(Kind::Commit.name(), "commit");
}
