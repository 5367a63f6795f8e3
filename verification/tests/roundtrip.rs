use cidstore::api::{add_file, add_metadata, fetch, get_file, get_metadata, store};
use cidstore::cid::{cid_text, compute_identifier};
use cidstore::err::Error;
use cidstore::record::{encode, Record};
use cidstore::store::KvStore;

fn sample_file() -> Record {
    Record::File {
        owner: b"X".to_vec(),
        path: b"/a.txt".to_vec(),
        content_type: b"text/plain".to_vec(),
        content: vec![104, 105],
        time: 1000,
    }
}

#[test]
fn add_file_returns_identifier_and_get_file_returns_canonical_bytes() {
    let mut st = KvStore::new();
    let id1 = add_file(
        &mut st,
        b"X".to_vec(),
        b"/a.txt".to_vec(),
        b"text/plain".to_vec(),
        1000,
        vec![104, 105],
    )
    .unwrap();
    let data = get_file(&st, id1.as_slice()).unwrap();

    // the canonical bytes, spelled out: a five-entry map in schema order
    let mut expected: Vec<u8> = vec![0xa5];
    expected.extend_from_slice(&[0x65, 0x6f, 0x77, 0x6e, 0x65, 0x72]); // "owner"
    expected.extend_from_slice(&[0x61, 0x58]); // "X"
    expected.extend_from_slice(&[0x64, 0x70, 0x61, 0x74, 0x68]); // "path"
    expected.extend_from_slice(&[0x66, 0x2f, 0x61, 0x2e, 0x74, 0x78, 0x74]); // "/a.txt"
    expected.extend_from_slice(&[0x64, 0x74, 0x79, 0x70, 0x65]); // "type"
    expected.extend_from_slice(&[
        0x6a, 0x74, 0x65, 0x78, 0x74, 0x2f, 0x70, 0x6c, 0x61, 0x69, 0x6e,
    ]); // "text/plain"
    expected.extend_from_slice(&[0x67, 0x63, 0x6f, 0x6e, 0x74, 0x65, 0x6e, 0x74]); // "content"
    expected.extend_from_slice(&[0x42, 0x68, 0x69]); // the two content bytes
    expected.extend_from_slice(&[0x64, 0x74, 0x69, 0x6d, 0x65]); // "time"
    expected.extend_from_slice(&[0x19, 0x03, 0xe8]); // 1000
    assert_eq!(data, expected);

    // the same bytes come straight from the encoder
    assert_eq!(encode(&sample_file()).unwrap(), expected);
}

#[test]
fn identifiers_are_deterministic() {
    let bytes = encode(&sample_file()).unwrap();
    let again = encode(&sample_file()).unwrap();
    assert_eq!(bytes, again);
    let id_a = compute_identifier(bytes.as_slice());
    let id_b = compute_identifier(again.as_slice());
    assert_eq!(cid_text(&id_a), cid_text(&id_b));

    let mut st1 = KvStore::new();
    let mut st2 = KvStore::new();
    let r1 = add_file(
        &mut st1,
        b"X".to_vec(),
        b"/a.txt".to_vec(),
        b"text/plain".to_vec(),
        1000,
        vec![104, 105],
    )
    .unwrap();
    let r2 = add_file(
        &mut st2,
        b"X".to_vec(),
        b"/a.txt".to_vec(),
        b"text/plain".to_vec(),
        1000,
        vec![104, 105],
    )
    .unwrap();
    assert_eq!(r1, r2);
}

#[test]
fn repeated_store_of_same_block_is_idempotent() {
    let mut st = KvStore::new();
    let bytes = encode(&sample_file()).unwrap();
    let id = compute_identifier(bytes.as_slice());
    store(&mut st, &id, &bytes).unwrap();
    store(&mut st, &id, &bytes).unwrap();
    assert_eq!(fetch(&st, &id).unwrap(), bytes);
}

#[test]
fn metadata_roundtrip_with_a_link() {
    let mut st = KvStore::new();
    let id1 = add_file(
        &mut st,
        b"X".to_vec(),
        b"/a.txt".to_vec(),
        b"text/plain".to_vec(),
        1000,
        vec![104, 105],
    )
    .unwrap();
    let id2 = add_metadata(
        &mut st,
        b"n".to_vec(),
        b"d".to_vec(),
        b"img".to_vec(),
        vec![id1.clone()],
    )
    .unwrap();
    assert_ne!(id1, id2);

    let data = get_metadata(&st, id2.as_slice()).unwrap();
    let bytes = encode(&sample_file()).unwrap();
    let cid1 = compute_identifier(bytes.as_slice());
    let mut expected: Vec<u8> = vec![0xa4];
    expected.extend_from_slice(&[0x64, 0x6e, 0x61, 0x6d, 0x65]); // "name"
    expected.extend_from_slice(&[0x61, 0x6e]); // "n"
    expected.extend_from_slice(&[
        0x6b, 0x64, 0x65, 0x73, 0x63, 0x72, 0x69, 0x70, 0x74, 0x69, 0x6f, 0x6e,
    ]); // "description"
    expected.extend_from_slice(&[0x61, 0x64]); // "d"
    expected.extend_from_slice(&[0x65, 0x69, 0x6d, 0x61, 0x67, 0x65]); // "image"
    expected.extend_from_slice(&[0x63, 0x69, 0x6d, 0x67]); // "img"
    expected.extend_from_slice(&[0x65, 0x6c, 0x69, 0x6e, 0x6b, 0x73]); // "links"
    expected.push(0x81); // one link
    expected.extend_from_slice(&[0xd8, 0x2a, 0x58, 0x25, 0x00]); // tag 42, 37 bytes, prefix
    expected.extend_from_slice(cidstore::cid::cid_binary(&cid1).as_slice());
    assert_eq!(data, expected);
}

#[test]
fn metadata_with_empty_fields_and_no_links_encodes_empty_items() {
    let record = Record::Metadata {
        name: Vec::new(),
        description: Vec::new(),
        image: Vec::new(),
        links: Vec::new(),
    };
    let bytes = encode(&record).unwrap();
    let mut expected: Vec<u8> = vec![0xa4];
    expected.extend_from_slice(&[0x64, 0x6e, 0x61, 0x6d, 0x65, 0x60]);
    expected.extend_from_slice(&[
        0x6b, 0x64, 0x65, 0x73, 0x63, 0x72, 0x69, 0x70, 0x74, 0x69, 0x6f, 0x6e, 0x60,
    ]);
    expected.extend_from_slice(&[0x65, 0x69, 0x6d, 0x61, 0x67, 0x65, 0x60]);
    expected.extend_from_slice(&[0x65, 0x6c, 0x69, 0x6e, 0x6b, 0x73, 0x80]);
    assert_eq!(bytes, expected);
}

#[test]
fn empty_file_fields_encode_as_empty_items() {
    let record = Record::File {
        owner: Vec::new(),
        path: Vec::new(),
        content_type: Vec::new(),
        content: Vec::new(),
        time: 0,
    };
    let bytes = encode(&record).unwrap();
    let mut expected: Vec<u8> = vec![0xa5];
    expected.extend_from_slice(&[0x65, 0x6f, 0x77, 0x6e, 0x65, 0x72, 0x60]);
    expected.extend_from_slice(&[0x64, 0x70, 0x61, 0x74, 0x68, 0x60]);
    expected.extend_from_slice(&[0x64, 0x74, 0x79, 0x70, 0x65, 0x60]);
    expected.extend_from_slice(&[0x67, 0x63, 0x6f, 0x6e, 0x74, 0x65, 0x6e, 0x74, 0x40]);
    expected.extend_from_slice(&[0x64, 0x74, 0x69, 0x6d, 0x65, 0x00]);
    assert_eq!(bytes, expected);

    let mut st = KvStore::new();
    let id = add_file(
        &mut st,
        Vec::new(),
        Vec::new(),
        Vec::new(),
        0,
        Vec::new(),
    )
    .unwrap();
    assert_eq!(get_file(&st, id.as_slice()).unwrap(), expected);
}

#[test]
fn records_differing_in_one_field_get_different_bytes_and_identifiers() {
    let base = encode(&sample_file()).unwrap();
    let other = encode(&Record::File {
        owner: b"X".to_vec(),
        path: b"/a.txt".to_vec(),
        content_type: b"text/plain".to_vec(),
        content: vec![104, 105],
        time: 1001,
    })
    .unwrap();
    assert_ne!(base, other);
    let id_a = compute_identifier(base.as_slice());
    let id_b = compute_identifier(other.as_slice());
    assert_ne!(cid_text(&id_a), cid_text(&id_b));
}

#[test]
fn add_metadata_rejects_bad_links_with_their_index() {
    let mut st = KvStore::new();
    let id1 = add_file(
        &mut st,
        b"X".to_vec(),
        b"/a.txt".to_vec(),
        b"text/plain".to_vec(),
        1000,
        vec![104, 105],
    )
    .unwrap();
    let err = add_metadata(
        &mut st,
        b"n".to_vec(),
        b"d".to_vec(),
        b"img".to_vec(),
        vec![b"not-a-cid".to_vec()],
    )
    .unwrap_err();
    assert_eq!(err, Error::InvalidLink(0));

    let err = add_metadata(
        &mut st,
        b"n".to_vec(),
        b"d".to_vec(),
        b"img".to_vec(),
        vec![id1, b"not-a-cid".to_vec()],
    )
    .unwrap_err();
    assert_eq!(err, Error::InvalidLink(1));
}
