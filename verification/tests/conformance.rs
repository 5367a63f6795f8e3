//! Checks against the reference implementations: the identifier text must be
//! what the cid crate renders, the digest must be real SHA-256, and parsing
//! must take back exactly what it wrote.

use std::convert::TryFrom;
use std::str::FromStr;

use cidstore::api::add_file;
use cidstore::cid::{cid_binary, cid_text, compute_identifier, parse_cid};
use cidstore::store::KvStore;

#[test]
fn digest_matches_known_sha256_vectors() {
    // SHA-256 of the empty string
    let id = compute_identifier(b"");
    assert_eq!(
        id.digest,
        vec![
            0xe3, 0xb0, 0xc4, 0x42, 0x98, 0xfc, 0x1c, 0x14, 0x9a, 0xfb, 0xf4, 0xc8, 0x99, 0x6f,
            0xb9, 0x24, 0x27, 0xae, 0x41, 0xe4, 0x64, 0x9b, 0x93, 0x4c, 0xa4, 0x95, 0x99, 0x1b,
            0x78, 0x52, 0xb8, 0x55,
        ]
    );
    // SHA-256 of "abc"
    let id = compute_identifier(b"abc");
    assert_eq!(
        id.digest,
        vec![
            0xba, 0x78, 0x16, 0xbf, 0x8f, 0x01, 0xcf, 0xea, 0x41, 0x41, 0x40, 0xde, 0x5d, 0xae,
            0x22, 0x23, 0xb0, 0x03, 0x61, 0xa3, 0x96, 0x17, 0x7a, 0x9c, 0xb4, 0x10, 0xff, 0x61,
            0xf2, 0x00, 0x15, 0xad,
        ]
    );
}

#[test]
fn identifier_text_matches_the_cid_crate() {
    let id = compute_identifier(b"some block");
    let bin = cid_binary(&id);
    let reference = libipld::Cid::try_from(bin).unwrap();
    let ours = String::from_utf8(cid_text(&id)).unwrap();
    assert_eq!(ours, reference.to_string());
}

#[test]
fn identifiers_this_store_writes_parse_in_the_cid_crate() {
    let mut st = KvStore::new();
    let id_text = add_file(
        &mut st,
        b"X".to_vec(),
        b"/a.txt".to_vec(),
        b"text/plain".to_vec(),
        1000,
        vec![104, 105],
    )
    .unwrap();
    let text = String::from_utf8(id_text).unwrap();
    let reference = libipld::Cid::from_str(text.as_str()).unwrap();
    assert_eq!(reference.version(), libipld::cid::Version::V1);
    assert_eq!(reference.codec(), 0x71);
    assert_eq!(reference.hash().code(), 0x12);
}

#[test]
fn parsing_takes_back_exactly_what_was_written() {
    let id = compute_identifier(b"roundtrip");
    let text = cid_text(&id);
    let back = parse_cid(text.as_slice()).unwrap();
    assert_eq!(back.algorithm, id.algorithm);
    assert_eq!(back.codec, id.codec);
    assert_eq!(back.digest, id.digest);
}

#[test]
fn identifier_text_is_ascii_lowercase_base32() {
    let id = compute_identifier(b"alphabet");
    let text = cid_text(&id);
    assert_eq!(text[0], b'b');
    assert_eq!(text.len(), 59);
    for &ch in text[1..].iter() {
        assert!(ch.is_ascii_lowercase() || (b'2'..=b'7').contains(&ch));
    }
}
