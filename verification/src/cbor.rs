//! Primitives of the canonical binary encoding.
//!
//! Records are encoded as a CBOR-style ordered map: every item starts with a
//! head byte holding a major type in its top three bits and a small argument,
//! followed by the argument in big-endian bytes when it does not fit the head
//! byte. The argument is always written in its shortest form, which is what
//! makes the encoding canonical: one value, one byte string.

use vstd::prelude::*;

verus! {

/// Major type of an unsigned integer item.
pub const MAJOR_UINT: u8 = 0;
/// Major type of a raw byte string item.
pub const MAJOR_BYTES: u8 = 2;
/// Major type of a text string item.
pub const MAJOR_TEXT: u8 = 3;
/// Major type of a list item.
pub const MAJOR_ARRAY: u8 = 4;
/// Major type of an ordered map item.
pub const MAJOR_MAP: u8 = 5;
/// Major type of a tagged item.
pub const MAJOR_TAG: u8 = 6;

/// The head of an item: the major type and the shortest big-endian form of
/// the argument `v` (a length, a tag number, or an integer value).
pub open spec fn spec_head(major: u8, v: nat) -> Seq<u8> {
    let m = (major as nat) * 32;
    if v < 24 {
        seq![(m + v) as u8]
    } else if v < 256 {
        seq![(m + 24) as u8, v as u8]
    } else if v < 65536 {
        seq![(m + 25) as u8, (v / 256) as u8, (v % 256) as u8]
    } else if v < 4294967296 {
        seq![
            (m + 26) as u8,
            (v / 16777216) as u8,
            ((v / 65536) % 256) as u8,
            ((v / 256) % 256) as u8,
            (v % 256) as u8,
        ]
    } else {
        seq![
            (m + 27) as u8,
            ((v / 72057594037927936) % 256) as u8,
            ((v / 281474976710656) % 256) as u8,
            ((v / 1099511627776) % 256) as u8,
            ((v / 4294967296) % 256) as u8,
            ((v / 16777216) % 256) as u8,
            ((v / 65536) % 256) as u8,
            ((v / 256) % 256) as u8,
            (v % 256) as u8,
        ]
    }
}

/// A text string item: head, then the bytes of the text.
pub open spec fn spec_text(s: Seq<u8>) -> Seq<u8> {
    spec_head(MAJOR_TEXT, s.len()) + s
}

/// A raw byte string item: head, then the bytes.
pub open spec fn spec_bytes(s: Seq<u8>) -> Seq<u8> {
    spec_head(MAJOR_BYTES, s.len()) + s
}

/// An unsigned integer item: just a head.
pub open spec fn spec_uint(v: u64) -> Seq<u8> {
    spec_head(MAJOR_UINT, v as nat)
}

/// Appends the head of an item to `out`.
pub fn push_head(out: &mut Vec<u8>, major: u8, v: u64)
    requires
        major < 8,
    ensures
        final(out)@ == old(out)@ + spec_head(major, v as nat),
{
    let m: u8 = major * 32;
    if v < 24 {
        out.push(m + (v % 24) as u8);
    } else if v < 256 {
        out.push(m + 24);
        out.push((v % 256) as u8);
    } else if v < 65536 {
        out.push(m + 25);
        out.push(((v / 256) % 256) as u8);
        out.push((v % 256) as u8);
    } else if v < 4294967296 {
        out.push(m + 26);
        out.push(((v / 16777216) % 256) as u8);
        out.push(((v / 65536) % 256) as u8);
        out.push(((v / 256) % 256) as u8);
        out.push((v % 256) as u8);
    } else {
        out.push(m + 27);
        out.push(((v / 72057594037927936) % 256) as u8);
        out.push(((v / 281474976710656) % 256) as u8);
        out.push(((v / 1099511627776) % 256) as u8);
        out.push(((v / 4294967296) % 256) as u8);
        out.push(((v / 16777216) % 256) as u8);
        out.push(((v / 65536) % 256) as u8);
        out.push(((v / 256) % 256) as u8);
        out.push((v % 256) as u8);
    }
    assert(out@ =~= old(out)@ + spec_head(major, v as nat));
}

/// Appends all of `s` to `out`.
pub fn push_raw(out: &mut Vec<u8>, s: &[u8])
    ensures
        final(out)@ == old(out)@ + s@,
{
    let mut i: usize = 0;
    while i < s.len()
        invariant
            i <= s@.len(),
            out@ == old(out)@ + s@.take(i as int),
        decreases s@.len() - i,
    {
        assert(s@.take(i + 1) =~= s@.take(i as int).push(s@[i as int]));
        out.push(s[i]);
        i = i + 1;
    }
    assert(s@.take(s@.len() as int) =~= s@);
}

/// Appends a text string item to `out`.
pub fn push_text(out: &mut Vec<u8>, s: &[u8])
    ensures
        final(out)@ == old(out)@ + spec_text(s@),
{
    push_head(out, MAJOR_TEXT, s.len() as u64);
    push_raw(out, s);
    assert(out@ =~= old(out)@ + spec_text(s@));
}

/// Appends a raw byte string item to `out`.
pub fn push_bytes(out: &mut Vec<u8>, s: &[u8])
    ensures
        final(out)@ == old(out)@ + spec_bytes(s@),
{
    push_head(out, MAJOR_BYTES, s.len() as u64);
    push_raw(out, s);
    assert(out@ =~= old(out)@ + spec_bytes(s@));
}

/// Appends an unsigned integer item to `out`.
pub fn push_uint(out: &mut Vec<u8>, v: u64)
    ensures
        final(out)@ == old(out)@ + spec_uint(v),
{
    push_head(out, MAJOR_UINT, v);
}

/// Two items with equal major type at the front of equal byte strings carry
/// equal arguments and are followed by equal bytes: heads are prefix-free.
pub proof fn lemma_peel_head(m: u8, v1: nat, v2: nat, r1: Seq<u8>, r2: Seq<u8>)
    requires
        m < 8,
        v1 < 18446744073709551616,
        v2 < 18446744073709551616,
        spec_head(m, v1) + r1 == spec_head(m, v2) + r2,
    ensures
        v1 == v2,
        r1 == r2,
{
    let h1 = spec_head(m, v1);
    let h2 = spec_head(m, v2);
    assert((h1 + r1)[0] == (h2 + r2)[0]);
    assert(h1[0] == h2[0]);
    assert(v1 < 24 <==> v2 < 24);
    assert(v1 < 24 ==> v1 == v2);
    if v1 >= 24 {
        assert(24 <= v1 < 256 <==> 24 <= v2 < 256);
        assert(256 <= v1 < 65536 <==> 256 <= v2 < 65536);
        assert(65536 <= v1 < 4294967296 <==> 65536 <= v2 < 4294967296);
        assert(h1.len() == h2.len());
        assert(forall|i: int| 0 <= i < h1.len() ==> h1[i] == (h1 + r1)[i] && h2[i] == (h2
            + r2)[i]);
        assert(h1 =~= h2);
        if v1 < 256 {
            assert(h1[1] == v1 as u8 && h2[1] == v2 as u8);
            assert(v1 == v2);
        } else if v1 < 65536 {
            vstd::arithmetic::div_mod::lemma_fundamental_div_mod(v1 as int, 256);
            vstd::arithmetic::div_mod::lemma_fundamental_div_mod(v2 as int, 256);
            assert(v1 == v2);
        } else if v1 < 4294967296 {
            let x1 = v1 as u64;
            let x2 = v2 as u64;
            assert(x1 == x2) by (bit_vector)
                requires
                    x1 < 4294967296,
                    x2 < 4294967296,
                    x1 / 16777216 == x2 / 16777216,
                    (x1 / 65536) % 256 == (x2 / 65536) % 256,
                    (x1 / 256) % 256 == (x2 / 256) % 256,
                    x1 % 256 == x2 % 256,
            ;
        } else {
            let x1 = v1 as u64;
            let x2 = v2 as u64;
            assert(x1 == x2) by (bit_vector)
                requires
                    (x1 / 72057594037927936) % 256 == (x2 / 72057594037927936) % 256,
                    (x1 / 281474976710656) % 256 == (x2 / 281474976710656) % 256,
                    (x1 / 1099511627776) % 256 == (x2 / 1099511627776) % 256,
                    (x1 / 4294967296) % 256 == (x2 / 4294967296) % 256,
                    (x1 / 16777216) % 256 == (x2 / 16777216) % 256,
                    (x1 / 65536) % 256 == (x2 / 65536) % 256,
                    (x1 / 256) % 256 == (x2 / 256) % 256,
                    x1 % 256 == x2 % 256,
            ;
        }
    }
    assert(r1 =~= (h1 + r1).skip(h1.len() as int));
    assert(r2 =~= (h2 + r2).skip(h2.len() as int));
}

/// Two length-prefixed items of equal major type at the front of equal byte
/// strings hold equal payloads and are followed by equal bytes.
pub proof fn lemma_peel_sized(m: u8, p1: Seq<u8>, r1: Seq<u8>, p2: Seq<u8>, r2: Seq<u8>)
    requires
        m < 8,
        p1.len() < 18446744073709551616,
        p2.len() < 18446744073709551616,
        spec_head(m, p1.len()) + p1 + r1 == spec_head(m, p2.len()) + p2 + r2,
    ensures
        p1 == p2,
        r1 == r2,
{
    assert(spec_head(m, p1.len()) + (p1 + r1) =~= spec_head(m, p1.len()) + p1 + r1);
    assert(spec_head(m, p2.len()) + (p2 + r2) =~= spec_head(m, p2.len()) + p2 + r2);
    lemma_peel_head(m, p1.len(), p2.len(), p1 + r1, p2 + r2);
    assert(p1 =~= (p1 + r1).take(p1.len() as int));
    assert(p2 =~= (p2 + r2).take(p2.len() as int));
    assert(r1 =~= (p1 + r1).skip(p1.len() as int));
    assert(r2 =~= (p2 + r2).skip(p2.len() as int));
}

/// Equal byte strings with an equal front piece have equal remainders.
pub proof fn lemma_chop(a: Seq<u8>, x: Seq<u8>, y: Seq<u8>)
    requires
        a + x == a + y,
    ensures
        x == y,
{
    assert(x =~= (a + x).skip(a.len() as int));
    assert(y =~= (a + y).skip(a.len() as int));
}

} // verus!
