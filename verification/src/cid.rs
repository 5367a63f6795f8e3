//! Content identifiers.
//!
//! An identifier is the triple of a hash algorithm tag, a codec tag and a
//! digest. This store derives every identifier from the SHA-256 digest of a
//! block's canonical bytes, under the one canonical-map codec it understands.
//! The identifier's binary form is the version, the codec tag, the algorithm
//! tag and the digest length, each as a little-endian base-128 varint, then
//! the digest; its textual form is `b` followed by the base-32 encoding of
//! the binary form. The two forms are losslessly interconvertible, and only
//! identifiers that parse back into a well-formed triple are ever accepted
//! for lookup.

use vstd::prelude::*;

use crate::base32::{b32_decode_from, b32_encode_from, lemma_b32_roundtrip, spec_b32_decode,
    spec_b32_encode};
use crate::cbor::push_raw;

verus! {

/// The identifier version this store reads and writes.
pub const CID_VERSION: u64 = 1;

/// The tag of the SHA-256 hash algorithm, the only one this store uses.
pub const SHA2_256_CODE: u64 = 18;

/// The tag of the canonical-map codec, the only one this store produces.
pub const DAG_CBOR_CODEC: u64 = 113;

/// The byte length of a SHA-256 digest.
pub const DIGEST_LEN: usize = 32;

/// The mathematical value of an identifier.
pub ghost struct CidV {
    pub algorithm: u64,
    pub codec: u64,
    pub digest: Seq<u8>,
}

/// A structured identifier: hash algorithm tag, codec tag, digest.
pub struct Identifier {
    pub algorithm: u64,
    pub codec: u64,
    pub digest: Vec<u8>,
}

impl View for Identifier {
    type V = CidV;

    open spec fn view(&self) -> CidV {
        CidV { algorithm: self.algorithm, codec: self.codec, digest: self.digest@ }
    }
}

/// A well-formed identifier carries the digest its algorithm tag promises:
/// SHA-256, 32 bytes.
pub open spec fn wf_cid(c: CidV) -> bool {
    c.algorithm == SHA2_256_CODE && c.digest.len() == DIGEST_LEN
}

/// The SHA-256 digest of a byte string.
pub uninterp spec fn sha256_of(bytes: Seq<u8>) -> Seq<u8>;

/// Relies on `multihash::Code::Sha2_256` (tag 0x12): its `digest` method
/// returns the 32-byte SHA-256 digest of the input, a function of the input
/// bytes alone.
#[verifier::external_body]
fn sha256_digest(bytes: &[u8]) -> (r: Vec<u8>)
    ensures
        r@ == sha256_of(bytes@),
        r@.len() == 32,
{
    let mh = multihash::MultihashDigest::digest(&multihash::Code::Sha2_256, bytes);
    mh.digest().to_vec()
}

/// The identifier that content addressing assigns to a byte string: always
/// SHA-256 under the canonical-map codec.
pub open spec fn spec_cid_of(bytes: Seq<u8>) -> CidV {
    CidV { algorithm: SHA2_256_CODE, codec: DAG_CBOR_CODEC, digest: sha256_of(bytes) }
}

/// Derives the identifier of a block of canonical bytes.
pub fn compute_identifier(bytes: &[u8]) -> (id: Identifier)
    ensures
        id@ == spec_cid_of(bytes@),
        wf_cid(id@),
{
    let digest = sha256_digest(bytes);
    Identifier { algorithm: SHA2_256_CODE, codec: DAG_CBOR_CODEC, digest }
}

/// The little-endian base-128 form of an unsigned value: seven bits a byte,
/// the high bit marking continuation.
pub open spec fn spec_varint(v: nat) -> Seq<u8>
    decreases v,
{
    if v < 128 {
        seq![v as u8]
    } else {
        seq![(128 + v % 128) as u8] + spec_varint(v / 128)
    }
}

/// Appends the varint form of `v` to `out`.
pub fn push_varint(out: &mut Vec<u8>, v: u64)
    ensures
        final(out)@ == old(out)@ + spec_varint(v as nat),
{
    let mut x = v;
    while x >= 128
        invariant
            out@ + spec_varint(x as nat) == old(out)@ + spec_varint(v as nat),
        decreases x,
    {
        assert(spec_varint(x as nat) =~= seq![(128 + (x as nat) % 128) as u8] + spec_varint(
            (x as nat) / 128,
        ));
        out.push(128 + (x % 128) as u8);
        x = x / 128;
        assert(out@ + spec_varint(x as nat) =~= old(out)@ + spec_varint(v as nat));
    }
    out.push(x as u8);
    assert(out@ =~= old(out)@ + spec_varint(v as nat));
}

/// Reads one varint from the front of `s`: its value and how many bytes it
/// took. `None` when `s` is empty, ends inside the varint, or holds a
/// non-minimal form (a continuation into a zero value).
pub open spec fn spec_read_varint(s: Seq<u8>) -> Option<(nat, int)>
    decreases s.len(),
{
    if s.len() == 0 {
        None
    } else if s[0] < 128 {
        Some((s[0] as nat, 1))
    } else {
        match spec_read_varint(s.skip(1)) {
            Some(p) => if p.0 == 0 {
                None
            } else {
                Some((((s[0] - 128) as nat + 128 * p.0) as nat, p.1 + 1))
            },
            None => None,
        }
    }
}

/// As `spec_read_varint`, further rejecting values that do not fit a `u64`.
pub open spec fn spec_read_varint64(s: Seq<u8>) -> Option<(u64, int)> {
    match spec_read_varint(s) {
        Some(p) => if p.0 < 18446744073709551616 {
            Some((p.0 as u64, p.1))
        } else {
            None
        },
        None => None,
    }
}

/// Reads one varint of `s` starting at `pos`.
pub fn read_varint(s: &[u8], pos: usize) -> (r: Option<(u64, usize)>)
    requires
        pos <= s@.len(),
    ensures
        match r {
            Some(p) => spec_read_varint64(s@.skip(pos as int)) == Some((p.0, p.1 as int)) && pos
                + p.1 <= s@.len(),
            None => spec_read_varint64(s@.skip(pos as int)) is None,
        },
    decreases s@.len() - pos,
{
    if pos == s.len() {
        return None;
    }
    let b = s[pos];
    if b < 128 {
        return Some((b as u64, 1));
    }
    proof {
        assert(s@.skip(pos as int).skip(1) =~= s@.skip(pos + 1));
    }
    match read_varint(s, pos + 1) {
        None => None,
        Some((v, n)) => {
            if v == 0 {
                None
            } else if v > 144115188075855871 {
                // the combined value would not fit a u64
                None
            } else {
                Some(((b - 128) as u64 + 128 * v, n + 1))
            }
        },
    }
}

/// Reading a varint from the front of a byte string gives the written value
/// back, whatever follows it.
pub proof fn lemma_read_varint_prefix(v: nat, rest: Seq<u8>)
    requires
        v < 18446744073709551616,
    ensures
        spec_read_varint64(spec_varint(v) + rest) == Some((v as u64, spec_varint(v).len() as int)),
    decreases v,
{
    let s = spec_varint(v) + rest;
    if v < 128 {
        assert(s[0] == v as u8);
    } else {
        lemma_read_varint_prefix(v / 128, rest);
        assert(s.skip(1) =~= spec_varint(v / 128) + rest);
        assert(s[0] == (128 + v % 128) as u8);
        vstd::arithmetic::div_mod::lemma_fundamental_div_mod(v as int, 128);
    }
}

/// The binary form of an identifier.
pub open spec fn spec_cid_bytes(c: CidV) -> Seq<u8> {
    spec_varint(CID_VERSION as nat) + spec_varint(c.codec as nat) + spec_varint(c.algorithm as nat)
        + spec_varint(c.digest.len()) + c.digest
}

/// The textual form of an identifier: `b`, then the base-32 binary form.
pub open spec fn spec_cid_text(c: CidV) -> Seq<u8> {
    seq![98u8] + spec_b32_encode(spec_cid_bytes(c))
}

/// Renders the binary form of an identifier.
pub fn cid_binary(id: &Identifier) -> (r: Vec<u8>)
    ensures
        r@ == spec_cid_bytes(id@),
{
    let mut bin: Vec<u8> = Vec::new();
    push_varint(&mut bin, CID_VERSION);
    push_varint(&mut bin, id.codec);
    push_varint(&mut bin, id.algorithm);
    push_varint(&mut bin, id.digest.len() as u64);
    push_raw(&mut bin, id.digest.as_slice());
    proof {
        assert(bin@ =~= spec_cid_bytes(id@));
    }
    bin
}

/// Renders the textual form of an identifier.
pub fn cid_text(id: &Identifier) -> (r: Vec<u8>)
    ensures
        r@ == spec_cid_text(id@),
{
    let bin = cid_binary(id);
    proof {
        assert(bin@.skip(0) =~= bin@);
    }
    let mut out: Vec<u8> = Vec::new();
    out.push(98);
    let mut enc = b32_encode_from(bin.as_slice(), 0);
    out.append(&mut enc);
    proof {
        assert(out@ =~= spec_cid_text(id@));
    }
    out
}

/// The identifier named by the binary form `b`, or `None` when `b` is not a
/// well-formed binary identifier that this store could verify: the version,
/// the digest length and the algorithm (SHA-256 is the only one the store can
/// re-check) are all pinned; the codec tag is read and judged later.
pub open spec fn spec_parse_cid_bytes(b: Seq<u8>) -> Option<CidV> {
    match spec_read_varint64(b) {
        None => None,
        Some(ver) => if ver.0 != CID_VERSION {
            None
        } else {
            match spec_read_varint64(b.skip(ver.1)) {
                None => None,
                Some(codec) => match spec_read_varint64(b.skip(ver.1 + codec.1)) {
                    None => None,
                    Some(alg) => if alg.0 != SHA2_256_CODE {
                        None
                    } else {
                        match spec_read_varint64(b.skip(ver.1 + codec.1 + alg.1)) {
                            None => None,
                            Some(dlen) => {
                                let rest = b.skip(ver.1 + codec.1 + alg.1 + dlen.1);
                                if dlen.0 == DIGEST_LEN && rest.len() == DIGEST_LEN {
                                    Some(
                                        CidV { algorithm: alg.0, codec: codec.0, digest: rest },
                                    )
                                } else {
                                    None
                                }
                            },
                        }
                    },
                },
            }
        },
    }
}

/// The identifier named by the text `s`, or `None` when `s` is not the
/// textual form of any identifier this store could verify.
pub open spec fn spec_parse_cid(s: Seq<u8>) -> Option<CidV> {
    if s.len() < 1 || s[0] != 98 {
        None
    } else {
        match spec_b32_decode(s.skip(1)) {
            None => None,
            Some(bin) => spec_parse_cid_bytes(bin),
        }
    }
}

/// Parses a caller-supplied identifier string.
pub fn parse_cid(s: &[u8]) -> (r: Option<Identifier>)
    ensures
        match r {
            Some(id) => spec_parse_cid(s@) == Some(id@) && wf_cid(id@),
            None => spec_parse_cid(s@) is None,
        },
{
    if s.len() < 1 {
        return None;
    }
    if s[0] != 98 {
        return None;
    }
    let bin = match b32_decode_from(s, 1) {
        Some(b) => b,
        None => {
            return None;
        },
    };
    proof {
        assert(bin@.skip(0) =~= bin@);
    }
    let (ver, n0) = match read_varint(bin.as_slice(), 0) {
        Some(p) => p,
        None => {
            return None;
        },
    };
    if ver != CID_VERSION {
        return None;
    }
    let (codec, n1) = match read_varint(bin.as_slice(), n0) {
        Some(p) => p,
        None => {
            return None;
        },
    };
    let blen = bin.len();
    proof {
        assert(n0 + n1 <= blen);
        assert(bin@.skip(n0 as int).skip(n1 as int) =~= bin@.skip(n0 + n1));
    }
    let (alg, n2) = match read_varint(bin.as_slice(), n0 + n1) {
        Some(p) => p,
        None => {
            return None;
        },
    };
    if alg != SHA2_256_CODE {
        return None;
    }
    let (dlen, n3) = match read_varint(bin.as_slice(), n0 + n1 + n2) {
        Some(p) => p,
        None => {
            return None;
        },
    };
    let total = n0 + n1 + n2 + n3;
    if dlen != DIGEST_LEN as u64 {
        return None;
    }
    if bin.len() - total != DIGEST_LEN {
        return None;
    }
    let mut digest: Vec<u8> = Vec::new();
    let mut i = total;
    while i < bin.len()
        invariant
            total <= i <= bin@.len(),
            digest@ == bin@.subrange(total as int, i as int),
        decreases bin@.len() - i,
    {
        assert(bin@.subrange(total as int, i + 1) =~= bin@.subrange(total as int, i as int).push(
            bin@[i as int],
        ));
        digest.push(bin[i]);
        i = i + 1;
    }
    proof {
        assert(digest@ =~= bin@.skip(total as int));
    }
    Some(Identifier { algorithm: alg, codec, digest })
}

/// Parsing the textual form of a well-formed identifier gives the identifier
/// back: the two forms are losslessly interconvertible.
pub proof fn lemma_cid_text_roundtrip(c: CidV)
    requires
        wf_cid(c),
    ensures
        spec_parse_cid(spec_cid_text(c)) == Some(c),
{
    let bin = spec_cid_bytes(c);
    let t = spec_cid_text(c);
    assert(t.skip(1) =~= spec_b32_encode(bin));
    lemma_b32_roundtrip(bin);
    let r1 = spec_varint(c.codec as nat) + spec_varint(c.algorithm as nat) + spec_varint(
        c.digest.len(),
    ) + c.digest;
    let r2 = spec_varint(c.algorithm as nat) + spec_varint(c.digest.len()) + c.digest;
    let r3 = spec_varint(c.digest.len()) + c.digest;
    assert(bin =~= spec_varint(CID_VERSION as nat) + r1);
    lemma_read_varint_prefix(CID_VERSION as nat, r1);
    let n0 = spec_varint(CID_VERSION as nat).len() as int;
    assert(bin.skip(n0) =~= r1);
    assert(r1 =~= spec_varint(c.codec as nat) + r2);
    lemma_read_varint_prefix(c.codec as nat, r2);
    let n1 = spec_varint(c.codec as nat).len() as int;
    assert(bin.skip(n0 + n1) =~= r2);
    lemma_read_varint_prefix(c.algorithm as nat, r3);
    let n2 = spec_varint(c.algorithm as nat).len() as int;
    assert(bin.skip(n0 + n1 + n2) =~= r3);
    lemma_read_varint_prefix(c.digest.len(), c.digest);
    let n3 = spec_varint(c.digest.len()).len() as int;
    assert(bin.skip(n0 + n1 + n2 + n3) =~= c.digest);
    assert(spec_parse_cid_bytes(bin) == Some(c));
}

/// Two varints at the front of equal byte strings carry equal values and are
/// followed by equal bytes: varints are prefix-free.
pub proof fn lemma_peel_varint(v1: nat, r1: Seq<u8>, v2: nat, r2: Seq<u8>)
    requires
        v1 < 18446744073709551616,
        v2 < 18446744073709551616,
        spec_varint(v1) + r1 == spec_varint(v2) + r2,
    ensures
        v1 == v2,
        r1 == r2,
{
    lemma_read_varint_prefix(v1, r1);
    lemma_read_varint_prefix(v2, r2);
    assert(spec_varint(v1).len() == spec_varint(v2).len());
    assert(r1 =~= (spec_varint(v1) + r1).skip(spec_varint(v1).len() as int));
    assert(r2 =~= (spec_varint(v2) + r2).skip(spec_varint(v2).len() as int));
}

/// Two identifier binary forms at the front of equal byte strings name equal
/// identifiers and are followed by equal bytes.
pub proof fn lemma_peel_cid_bytes(c1: CidV, r1: Seq<u8>, c2: CidV, r2: Seq<u8>)
    requires
        wf_cid(c1),
        wf_cid(c2),
        spec_cid_bytes(c1) + r1 == spec_cid_bytes(c2) + r2,
    ensures
        c1 == c2,
        r1 == r2,
{
    let tail1 = spec_varint(c1.codec as nat) + (spec_varint(c1.algorithm as nat) + (spec_varint(
        c1.digest.len(),
    ) + (c1.digest + r1)));
    let tail2 = spec_varint(c2.codec as nat) + (spec_varint(c2.algorithm as nat) + (spec_varint(
        c2.digest.len(),
    ) + (c2.digest + r2)));
    assert(spec_varint(CID_VERSION as nat) + tail1 =~= spec_cid_bytes(c1) + r1);
    assert(spec_varint(CID_VERSION as nat) + tail2 =~= spec_cid_bytes(c2) + r2);
    lemma_peel_varint(CID_VERSION as nat, tail1, CID_VERSION as nat, tail2);
    lemma_peel_varint(
        c1.codec as nat,
        spec_varint(c1.algorithm as nat) + (spec_varint(c1.digest.len()) + (c1.digest + r1)),
        c2.codec as nat,
        spec_varint(c2.algorithm as nat) + (spec_varint(c2.digest.len()) + (c2.digest + r2)),
    );
    lemma_peel_varint(
        c1.algorithm as nat,
        spec_varint(c1.digest.len()) + (c1.digest + r1),
        c2.algorithm as nat,
        spec_varint(c2.digest.len()) + (c2.digest + r2),
    );
    lemma_peel_varint(c1.digest.len(), c1.digest + r1, c2.digest.len(), c2.digest + r2);
    assert(c1.digest =~= (c1.digest + r1).take(32));
    assert(c2.digest =~= (c2.digest + r2).take(32));
    assert(r1 =~= (c1.digest + r1).skip(32));
    assert(r2 =~= (c2.digest + r2).skip(32));
}

/// A varint of a value that fits a `u64` takes at most ten bytes.
pub proof fn lemma_varint_len(v: nat)
    requires
        v < 18446744073709551616,
    ensures
        spec_varint(v).len() <= 10,
{
    let v1 = v / 128;
    let v2 = v1 / 128;
    let v3 = v2 / 128;
    let v4 = v3 / 128;
    let v5 = v4 / 128;
    let v6 = v5 / 128;
    let v7 = v6 / 128;
    let v8 = v7 / 128;
    let v9 = v8 / 128;
    assert(v9 < 128);
    assert(spec_varint(v9).len() == 1);
    assert(spec_varint(v8).len() <= 2);
    assert(spec_varint(v7).len() <= 3);
    assert(spec_varint(v6).len() <= 4);
    assert(spec_varint(v5).len() <= 5);
    assert(spec_varint(v4).len() <= 6);
    assert(spec_varint(v3).len() <= 7);
    assert(spec_varint(v2).len() <= 8);
    assert(spec_varint(v1).len() <= 9);
    assert(spec_varint(v).len() <= 10);
}

} // verus!
