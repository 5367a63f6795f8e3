use cidstore::api::{add_file, get_file, get_metadata, store};
use cidstore::cid::{cid_text, compute_identifier, parse_cid, Identifier};
use cidstore::err::Error;
use cidstore::record::{encode, Record};
use cidstore::store::KvStore;

fn add_sample(st: &mut KvStore) -> Vec<u8> {
    add_file(
        st,
        b"X".to_vec(),
        b"/a.txt".to_vec(),
        b"text/plain".to_vec(),
        1000,
        vec![104, 105],
    )
    .unwrap()
}

#[test]
fn malformed_identifier_is_invalid_identifier() {
    let mut st = KvStore::new();
    add_sample(&mut st);
    assert_eq!(
        get_file(&st, b"not-a-cid").unwrap_err(),
        Error::InvalidIdentifier
    );
    assert_eq!(get_file(&st, b"").unwrap_err(), Error::InvalidIdentifier);
    assert_eq!(
        get_metadata(&st, b"QmNotTheTextualFormThisStoreWrites").unwrap_err(),
        Error::InvalidIdentifier
    );
    assert!(parse_cid(b"b").is_none());
}

#[test]
fn truncated_or_mangled_identifier_is_invalid_identifier() {
    let mut st = KvStore::new();
    let id = add_sample(&mut st);
    // drop the last character: no longer a canonical encoding
    let truncated = &id[..id.len() - 1];
    assert_eq!(
        get_file(&st, truncated).unwrap_err(),
        Error::InvalidIdentifier
    );
    // an uppercase character is outside the alphabet
    let mut mangled = id.clone();
    mangled[5] = b'A';
    assert_eq!(
        get_file(&st, mangled.as_slice()).unwrap_err(),
        Error::InvalidIdentifier
    );
}

#[test]
fn foreign_codec_is_unsupported_codec() {
    let mut st = KvStore::new();
    add_sample(&mut st);
    // a well-formed identifier whose codec tag this store never writes
    let foreign = Identifier {
        algorithm: 18,
        codec: 0x70,
        digest: vec![7u8; 32],
    };
    let text = cid_text(&foreign);
    assert_eq!(
        get_file(&st, text.as_slice()).unwrap_err(),
        Error::UnsupportedCodec
    );
}

#[test]
fn absent_block_is_not_found() {
    let st = KvStore::new();
    let id = compute_identifier(b"never stored");
    assert_eq!(
        get_file(&st, cid_text(&id).as_slice()).unwrap_err(),
        Error::NotFound
    );
}

#[test]
fn tampered_bytes_are_storage_corruption_and_never_returned() {
    let mut st = KvStore::new();
    let id = add_sample(&mut st);
    // alter the bytes under the key behind the store's back
    st.put(id.clone(), vec![1, 2, 3]);
    assert_eq!(
        get_file(&st, id.as_slice()).unwrap_err(),
        Error::StorageCorruption
    );
}

#[test]
fn write_over_different_bytes_is_storage_corruption() {
    let mut st = KvStore::new();
    add_sample(&mut st);
    let bytes = encode(&Record::File {
        owner: b"X".to_vec(),
        path: b"/a.txt".to_vec(),
        content_type: b"text/plain".to_vec(),
        content: vec![104, 105],
        time: 1000,
    })
    .unwrap();
    let id = compute_identifier(bytes.as_slice());
    let other = vec![9u8, 9, 9];
    assert_eq!(
        store(&mut st, &id, &other).unwrap_err(),
        Error::StorageCorruption
    );
    // the store is untouched: the original bytes still verify
    assert_eq!(
        get_file(&st, cid_text(&id).as_slice()).unwrap(),
        bytes
    );
}

#[test]
fn error_kinds_describe_themselves() {
    assert_eq!(Error::InvalidLink(3).describe(), "invalid link");
    assert_eq!(Error::InvalidIdentifier.describe(), "invalid identifier");
    assert_eq!(Error::UnsupportedCodec.describe(), "unsupported codec");
    assert_eq!(Error::NotFound.describe(), "not found");
    assert_eq!(Error::StorageCorruption.describe(), "storage corruption");
}
