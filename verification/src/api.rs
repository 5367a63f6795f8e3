//! The operation surface of the store: add a record, get a block back.
//!
//! Adding runs the one pipeline both record shapes share: encode to canonical
//! bytes, derive the identifier from their digest, persist the bytes under
//! the identifier's key, return the identifier's text. Getting runs the same
//! steps backwards: parse and judge the identifier, fetch the bytes, re-hash
//! them and compare against the identifier's digest before returning them —
//! verify-on-read is what makes the identifiers a guarantee rather than a
//! naming convention.

use vstd::prelude::*;

use crate::cid::{cid_text, compute_identifier, parse_cid, spec_cid_of, spec_cid_text,
    spec_parse_cid, sha256_of, wf_cid, CidV, Identifier, DAG_CBOR_CODEC, DIGEST_LEN,
    lemma_cid_text_roundtrip};
use crate::err::Error;
use crate::record::{encode, encode_ok, spec_encode, Record, RecordV};
use crate::store::{bytes_eq, KvStore};
use crate::cbor::push_raw;

verus! {

/// The storage key of an identifier: the bytes of its textual form.
pub open spec fn block_key(c: CidV) -> Seq<u8> {
    spec_cid_text(c)
}

/// Persists a block of bytes under its identifier's key.
///
/// Repeating a write of the same bytes under the same identifier is a no-op;
/// finding different bytes already under the key means the identifier no
/// longer addresses its content — a hash collision or a caller bug — and the
/// write is refused as corruption, leaving the store unchanged.
pub fn store(st: &mut KvStore, id: &Identifier, bytes: &Vec<u8>) -> (r: Result<(), Error>)
    ensures
        match r {
            Ok(()) => !(old(st)@.contains_key(block_key(id@)) && old(st)@[block_key(id@)]
                != bytes@) && final(st)@ == old(st)@.insert(block_key(id@), bytes@),
            Err(e) => e == Error::StorageCorruption && old(st)@.contains_key(block_key(id@))
                && old(st)@[block_key(id@)] != bytes@ && final(st)@ == old(st)@,
        },
{
    let key = cid_text(id);
    match st.get(key.as_slice()) {
        Some(v) => {
            if bytes_eq(v.as_slice(), bytes.as_slice()) {
                proof {
                    assert(old(st)@.insert(block_key(id@), bytes@) =~= old(st)@);
                }
                Ok(())
            } else {
                Err(Error::StorageCorruption)
            }
        },
        None => {
            let mut value: Vec<u8> = Vec::new();
            push_raw(&mut value, bytes.as_slice());
            st.put(key, value);
            Ok(())
        },
    }
}

/// Fetches the block of bytes under an identifier's key, as last persisted;
/// absence is the typed `NotFound`, never a fault.
pub fn fetch(st: &KvStore, id: &Identifier) -> (r: Result<Vec<u8>, Error>)
    ensures
        match r {
            Ok(b) => st@.contains_key(block_key(id@)) && b@ == st@[block_key(id@)],
            Err(e) => e == Error::NotFound && !st@.contains_key(block_key(id@)),
        },
{
    let key = cid_text(id);
    match st.get(key.as_slice()) {
        Some(v) => {
            let mut out: Vec<u8> = Vec::new();
            push_raw(&mut out, v.as_slice());
            Ok(out)
        },
        None => Err(Error::NotFound),
    }
}

/// What a lookup of the identifier text `id_text` against the store contents
/// `m` is owed: the verified bytes, or the one typed error that names what
/// went wrong — in this order, an unparseable identifier, a codec this store
/// never wrote, an absent key, or bytes that no longer hash to the digest.
pub open spec fn spec_get_block(m: Map<Seq<u8>, Seq<u8>>, id_text: Seq<u8>) -> Result<
    Seq<u8>,
    Error,
> {
    match spec_parse_cid(id_text) {
        None => Err(Error::InvalidIdentifier),
        Some(c) => if c.codec != DAG_CBOR_CODEC {
            Err(Error::UnsupportedCodec)
        } else if !m.contains_key(block_key(c)) {
            Err(Error::NotFound)
        } else if sha256_of(m[block_key(c)]) != c.digest {
            Err(Error::StorageCorruption)
        } else {
            Ok(m[block_key(c)])
        },
    }
}

/// Turns a caller-supplied identifier string into verified bytes: parse,
/// judge the codec, fetch, re-hash, compare, and only then hand the bytes
/// out. Tampered or mismatched bytes are never returned.
pub fn get_block(st: &KvStore, id_text: &[u8]) -> (r: Result<Vec<u8>, Error>)
    ensures
        match r {
            Ok(b) => spec_get_block(st@, id_text@) == Ok::<Seq<u8>, Error>(b@),
            Err(e) => spec_get_block(st@, id_text@) == Err::<Seq<u8>, Error>(e),
        },
{
    let id = match parse_cid(id_text) {
        Some(id) => id,
        None => {
            return Err(Error::InvalidIdentifier);
        },
    };
    if id.codec != DAG_CBOR_CODEC {
        return Err(Error::UnsupportedCodec);
    }
    let bytes = match fetch(st, &id) {
        Ok(b) => b,
        Err(e) => {
            return Err(e);
        },
    };
    let check = compute_identifier(bytes.as_slice());
    if bytes_eq(check.digest.as_slice(), id.digest.as_slice()) {
        Ok(bytes)
    } else {
        Err(Error::StorageCorruption)
    }
}

/// Success of an add: the record encoded, the returned text names exactly the
/// identifier of the canonical bytes, and the store gained that one block.
pub open spec fn spec_added(
    m0: Map<Seq<u8>, Seq<u8>>,
    rv: RecordV,
    id_text: Seq<u8>,
    m1: Map<Seq<u8>, Seq<u8>>,
) -> bool {
    let b = spec_encode(rv);
    let c = spec_cid_of(b);
    encode_ok(rv) && id_text == spec_cid_text(c) && !(m0.contains_key(block_key(c))
        && m0[block_key(c)] != b) && m1 == m0.insert(block_key(c), b)
}

/// Failure of an add: the store is untouched, and the error names either the
/// first link that does not parse, or different pre-existing bytes under the
/// derived key.
pub open spec fn spec_add_failed(
    m0: Map<Seq<u8>, Seq<u8>>,
    rv: RecordV,
    e: Error,
    m1: Map<Seq<u8>, Seq<u8>>,
) -> bool {
    m1 == m0 && match e {
        Error::InvalidLink(i) => match rv {
            RecordV::Metadata { links, .. } => i < links.len() && spec_parse_cid(
                links[i as int],
            ) is None && (forall|j: int| 0 <= j < i ==> spec_parse_cid(#[trigger] links[j]) is Some),
            _ => false,
        },
        Error::StorageCorruption => encode_ok(rv) && {
            let b = spec_encode(rv);
            let c = spec_cid_of(b);
            m0.contains_key(block_key(c)) && m0[block_key(c)] != b
        },
        _ => false,
    }
}

/// Adds a record: encode, derive the identifier, persist, return the
/// identifier's text.
pub fn add_record(st: &mut KvStore, r: &Record) -> (res: Result<Vec<u8>, Error>)
    ensures
        match res {
            Ok(id_text) => spec_added(old(st)@, r@, id_text@, final(st)@),
            Err(e) => spec_add_failed(old(st)@, r@, e, final(st)@),
        },
{
    let bytes = match encode(r) {
        Ok(b) => b,
        Err(e) => {
            return Err(e);
        },
    };
    let id = compute_identifier(bytes.as_slice());
    let id_text = cid_text(&id);
    match store(st, &id, &bytes) {
        Ok(()) => Ok(id_text),
        Err(e) => Err(e),
    }
}

/// Adds a file record for an already-resolved owner identity.
pub fn add_file(
    st: &mut KvStore,
    owner: Vec<u8>,
    path: Vec<u8>,
    content_type: Vec<u8>,
    time: u64,
    content: Vec<u8>,
) -> (res: Result<Vec<u8>, Error>)
    ensures
        ({
            let rv = RecordV::File {
                owner: owner@,
                path: path@,
                content_type: content_type@,
                content: content@,
                time,
            };
            match res {
                Ok(id_text) => spec_added(old(st)@, rv, id_text@, final(st)@),
                Err(e) => spec_add_failed(old(st)@, rv, e, final(st)@),
            }
        }),
{
    let record = Record::File { owner, path, content_type, content, time };
    add_record(st, &record)
}

/// Adds a metadata record; every link must be the textual form of an
/// identifier, or the add fails with `InvalidLink` naming the first offender.
pub fn add_metadata(
    st: &mut KvStore,
    name: Vec<u8>,
    description: Vec<u8>,
    image: Vec<u8>,
    links: Vec<Vec<u8>>,
) -> (res: Result<Vec<u8>, Error>)
    ensures
        ({
            let rv = RecordV::Metadata {
                name: name@,
                description: description@,
                image: image@,
                links: crate::record::links_view(links@),
            };
            match res {
                Ok(id_text) => spec_added(old(st)@, rv, id_text@, final(st)@),
                Err(e) => spec_add_failed(old(st)@, rv, e, final(st)@),
            }
        }),
{
    let record = Record::Metadata { name, description, image, links };
    add_record(st, &record)
}

/// Fetches and verifies the block of a file record's identifier.
pub fn get_file(st: &KvStore, id_text: &[u8]) -> (r: Result<Vec<u8>, Error>)
    ensures
        match r {
            Ok(b) => spec_get_block(st@, id_text@) == Ok::<Seq<u8>, Error>(b@),
            Err(e) => spec_get_block(st@, id_text@) == Err::<Seq<u8>, Error>(e),
        },
{
    get_block(st, id_text)
}

/// Fetches and verifies the block of a metadata record's identifier.
pub fn get_metadata(st: &KvStore, id_text: &[u8]) -> (r: Result<Vec<u8>, Error>)
    ensures
        match r {
            Ok(b) => spec_get_block(st@, id_text@) == Ok::<Seq<u8>, Error>(b@),
            Err(e) => spec_get_block(st@, id_text@) == Err::<Seq<u8>, Error>(e),
        },
{
    get_block(st, id_text)
}

/// Round trip: a block stored under the identifier of its own canonical
/// bytes is owed back, verified, from a lookup of that identifier's text —
/// whatever else the store holds.
pub proof fn lemma_round_trip(m: Map<Seq<u8>, Seq<u8>>, rv: RecordV)
    requires
        encode_ok(rv),
        sha256_of(spec_encode(rv)).len() == DIGEST_LEN,
    ensures
        ({
            let b = spec_encode(rv);
            let c = spec_cid_of(b);
            spec_get_block(m.insert(block_key(c), b), spec_cid_text(c)) == Ok::<Seq<u8>, Error>(b)
        }),
{
    let b = spec_encode(rv);
    let c = spec_cid_of(b);
    lemma_cid_text_roundtrip(c);
}

/// Tamper detection: once the bytes under an identifier's key no longer hash
/// to its digest, a lookup of that identifier is owed `StorageCorruption`,
/// never the altered bytes.
pub proof fn lemma_tamper_detected(m: Map<Seq<u8>, Seq<u8>>, c: CidV)
    requires
        wf_cid(c),
        c.codec == DAG_CBOR_CODEC,
        m.contains_key(block_key(c)),
        sha256_of(m[block_key(c)]) != c.digest,
    ensures
        spec_get_block(m, spec_cid_text(c)) == Err::<Seq<u8>, Error>(Error::StorageCorruption),
{
    lemma_cid_text_roundtrip(c);
}

} // verus!
