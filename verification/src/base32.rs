//! The unpadded lowercase base-32 alphabet that identifier text uses.
//!
//! Five input bytes become eight characters of five bits each; a final
//! partial group of 1 to 4 bytes becomes 2, 4, 5 or 7 characters whose unused
//! low bits are zero. Decoding accepts exactly the strings that encoding
//! produces: wrong lengths, characters outside the alphabet, and nonzero pad
//! bits are all rejected, so every byte string has one textual form and every
//! accepted text names one byte string.

use vstd::prelude::*;

verus! {

/// The character of a five-bit value: `a`..`z` for 0..25, `2`..`7` for 26..31.
pub open spec fn b32_char(v: u8) -> u8 {
    if v < 26 {
        (97 + v) as u8
    } else {
        (24 + v) as u8
    }
}

/// Whether a byte is a character of the alphabet.
pub open spec fn is_b32(ch: u8) -> bool {
    (97 <= ch && ch <= 122) || (50 <= ch && ch <= 55)
}

/// The five-bit value of a character; 255 when the byte is not in the
/// alphabet.
pub open spec fn b32_val(ch: u8) -> u8 {
    if 97 <= ch && ch <= 122 {
        (ch - 97) as u8
    } else if 50 <= ch && ch <= 55 {
        (ch - 24) as u8
    } else {
        255
    }
}

/// The eight characters of one full five-byte group.
pub open spec fn enc_chunk(b0: u8, b1: u8, b2: u8, b3: u8, b4: u8) -> Seq<u8> {
    seq![
        b32_char(b0 >> 3),
        b32_char(((b0 & 7) << 2) | (b1 >> 6)),
        b32_char((b1 >> 1) & 31),
        b32_char(((b1 & 1) << 4) | (b2 >> 4)),
        b32_char(((b2 & 15) << 1) | (b3 >> 7)),
        b32_char((b3 >> 2) & 31),
        b32_char(((b3 & 3) << 3) | (b4 >> 5)),
        b32_char(b4 & 31),
    ]
}

/// The five bytes carried by one full group of character values.
pub open spec fn dec_chunk(
    v0: u8,
    v1: u8,
    v2: u8,
    v3: u8,
    v4: u8,
    v5: u8,
    v6: u8,
    v7: u8,
) -> Seq<u8> {
    seq![
        (v0 << 3) | (v1 >> 2),
        ((v1 & 3) << 6) | (v2 << 1) | (v3 >> 4),
        ((v3 & 15) << 4) | (v4 >> 1),
        ((v4 & 1) << 7) | (v5 << 2) | (v6 >> 3),
        ((v6 & 7) << 5) | v7,
    ]
}

/// How many characters a final group of `n` bytes (1 to 4) becomes.
pub open spec fn enc_tail_len(n: int) -> int {
    if n == 1 {
        2
    } else if n == 2 {
        4
    } else if n == 3 {
        5
    } else {
        7
    }
}

/// The textual form of a byte string.
pub open spec fn spec_b32_encode(s: Seq<u8>) -> Seq<u8>
    decreases s.len(),
{
    if s.len() == 0 {
        Seq::empty()
    } else if s.len() >= 5 {
        enc_chunk(s[0], s[1], s[2], s[3], s[4]) + spec_b32_encode(s.skip(5))
    } else {
        let b1 = if s.len() > 1 {
            s[1]
        } else {
            0
        };
        let b2 = if s.len() > 2 {
            s[2]
        } else {
            0
        };
        let b3 = if s.len() > 3 {
            s[3]
        } else {
            0
        };
        enc_chunk(s[0], b1, b2, b3, 0).take(enc_tail_len(s.len() as int))
    }
}

/// The byte string named by a text, or `None` when the text is not a
/// canonical encoding of any byte string.
pub open spec fn spec_b32_decode(s: Seq<u8>) -> Option<Seq<u8>>
    decreases s.len(),
{
    if s.len() == 0 {
        Some(Seq::empty())
    } else if s.len() == 2 {
        if is_b32(s[0]) && is_b32(s[1]) && b32_val(s[1]) & 3 == 0 {
            Some(dec_chunk(b32_val(s[0]), b32_val(s[1]), 0, 0, 0, 0, 0, 0).take(1))
        } else {
            None
        }
    } else if s.len() == 4 {
        if is_b32(s[0]) && is_b32(s[1]) && is_b32(s[2]) && is_b32(s[3]) && b32_val(s[3]) & 15
            == 0 {
            Some(
                dec_chunk(
                    b32_val(s[0]),
                    b32_val(s[1]),
                    b32_val(s[2]),
                    b32_val(s[3]),
                    0,
                    0,
                    0,
                    0,
                ).take(2),
            )
        } else {
            None
        }
    } else if s.len() == 5 {
        if is_b32(s[0]) && is_b32(s[1]) && is_b32(s[2]) && is_b32(s[3]) && is_b32(s[4]) && b32_val(
            s[4],
        ) & 1 == 0 {
            Some(
                dec_chunk(
                    b32_val(s[0]),
                    b32_val(s[1]),
                    b32_val(s[2]),
                    b32_val(s[3]),
                    b32_val(s[4]),
                    0,
                    0,
                    0,
                ).take(3),
            )
        } else {
            None
        }
    } else if s.len() == 7 {
        if is_b32(s[0]) && is_b32(s[1]) && is_b32(s[2]) && is_b32(s[3]) && is_b32(s[4]) && is_b32(
            s[5],
        ) && is_b32(s[6]) && b32_val(s[6]) & 7 == 0 {
            Some(
                dec_chunk(
                    b32_val(s[0]),
                    b32_val(s[1]),
                    b32_val(s[2]),
                    b32_val(s[3]),
                    b32_val(s[4]),
                    b32_val(s[5]),
                    b32_val(s[6]),
                    0,
                ).take(4),
            )
        } else {
            None
        }
    } else if s.len() < 8 {
        None
    } else {
        if is_b32(s[0]) && is_b32(s[1]) && is_b32(s[2]) && is_b32(s[3]) && is_b32(s[4]) && is_b32(
            s[5],
        ) && is_b32(s[6]) && is_b32(s[7]) {
            match spec_b32_decode(s.skip(8)) {
                Some(rest) => Some(
                    dec_chunk(
                        b32_val(s[0]),
                        b32_val(s[1]),
                        b32_val(s[2]),
                        b32_val(s[3]),
                        b32_val(s[4]),
                        b32_val(s[5]),
                        b32_val(s[6]),
                        b32_val(s[7]),
                    ) + rest,
                ),
                None => None,
            }
        } else {
            None
        }
    }
}

/// A character's value is recovered from the character.
pub proof fn lemma_char_val(v: u8)
    requires
        v < 32,
    ensures
        is_b32(b32_char(v)),
        b32_val(b32_char(v)) == v,
{
}

/// All eight character values of a group are five-bit values.
pub proof fn lemma_enc_bounds(b0: u8, b1: u8, b2: u8, b3: u8, b4: u8)
    ensures
        b0 >> 3 < 32,
        ((b0 & 7) << 2) | (b1 >> 6) < 32,
        (b1 >> 1) & 31 < 32,
        ((b1 & 1) << 4) | (b2 >> 4) < 32,
        ((b2 & 15) << 1) | (b3 >> 7) < 32,
        (b3 >> 2) & 31 < 32,
        ((b3 & 3) << 3) | (b4 >> 5) < 32,
        b4 & 31 < 32,
{
    assert(b0 >> 3 < 32 && ((b0 & 7) << 2) | (b1 >> 6) < 32 && (b1 >> 1) & 31 < 32 && ((b1 & 1)
        << 4) | (b2 >> 4) < 32 && ((b2 & 15) << 1) | (b3 >> 7) < 32 && (b3 >> 2) & 31 < 32 && ((b3
        & 3) << 3) | (b4 >> 5) < 32 && b4 & 31 < 32) by (bit_vector);
}

/// Decoding the character values of a group gives the group's bytes back.
pub proof fn lemma_chunk_roundtrip(b0: u8, b1: u8, b2: u8, b3: u8, b4: u8)
    ensures
        dec_chunk(
            b0 >> 3,
            ((b0 & 7) << 2) | (b1 >> 6),
            (b1 >> 1) & 31,
            ((b1 & 1) << 4) | (b2 >> 4),
            ((b2 & 15) << 1) | (b3 >> 7),
            (b3 >> 2) & 31,
            ((b3 & 3) << 3) | (b4 >> 5),
            b4 & 31,
        ) =~= seq![b0, b1, b2, b3, b4],
{
    assert(((b0 >> 3) << 3) | ((((b0 & 7) << 2) | (b1 >> 6)) >> 2) == b0 && (((((b0 & 7) << 2) | (
    b1 >> 6)) & 3) << 6) | (((b1 >> 1) & 31) << 1) | ((((b1 & 1) << 4) | (b2 >> 4)) >> 4) == b1
        && (((((b1 & 1) << 4) | (b2 >> 4)) & 15) << 4) | ((((b2 & 15) << 1) | (b3 >> 7)) >> 1)
        == b2 && (((((b2 & 15) << 1) | (b3 >> 7)) & 1) << 7) | (((b3 >> 2) & 31) << 2) | ((((b3
        & 3) << 3) | (b4 >> 5)) >> 3) == b3 && (((((b3 & 3) << 3) | (b4 >> 5)) & 7) << 5) | (b4
        & 31) == b4) by (bit_vector);
}

/// The pad bits of every final group are zero.
pub proof fn lemma_pad_bits(b0: u8, b1: u8, b2: u8, b3: u8)
    ensures
        (((b0 & 7) << 2) | (0u8 >> 6)) & 3 == 0,
        (((b1 & 1) << 4) | (0u8 >> 4)) & 15 == 0,
        (((b2 & 15) << 1) | (0u8 >> 7)) & 1 == 0,
        (((b3 & 3) << 3) | (0u8 >> 5)) & 7 == 0,
{
    assert((((b0 & 7) << 2) | (0u8 >> 6)) & 3 == 0 && (((b1 & 1) << 4) | (0u8 >> 4)) & 15 == 0 && ((
    (b2 & 15) << 1) | (0u8 >> 7)) & 1 == 0 && (((b3 & 3) << 3) | (0u8 >> 5)) & 7 == 0)
        by (bit_vector);
}

/// Decoding is a left inverse of encoding: every byte string comes back from
/// its own textual form.
pub proof fn lemma_b32_roundtrip(s: Seq<u8>)
    ensures
        spec_b32_decode(spec_b32_encode(s)) == Some(s),
    decreases s.len(),
{
    lemma_enc_bounds(
        s[0],
        if s.len() > 1 {
            s[1]
        } else {
            0
        },
        if s.len() > 2 {
            s[2]
        } else {
            0
        },
        if s.len() > 3 {
            s[3]
        } else {
            0
        },
        if s.len() > 4 {
            s[4]
        } else {
            0
        },
    );
    if s.len() == 0 {
        assert(s =~= Seq::<u8>::empty());
    } else if s.len() >= 5 {
        let e = enc_chunk(s[0], s[1], s[2], s[3], s[4]);
        let rest = spec_b32_encode(s.skip(5));
        lemma_b32_roundtrip(s.skip(5));
        lemma_char_val(s[0] >> 3);
        lemma_char_val(((s[0] & 7) << 2) | (s[1] >> 6));
        lemma_char_val((s[1] >> 1) & 31);
        lemma_char_val(((s[1] & 1) << 4) | (s[2] >> 4));
        lemma_char_val(((s[2] & 15) << 1) | (s[3] >> 7));
        lemma_char_val((s[3] >> 2) & 31);
        lemma_char_val(((s[3] & 3) << 3) | (s[4] >> 5));
        lemma_char_val(s[4] & 31);
        lemma_chunk_roundtrip(s[0], s[1], s[2], s[3], s[4]);
        let t = e + rest;
        assert(t.skip(8) =~= rest);
        assert(spec_b32_decode(t.skip(8)) == Some(s.skip(5)));
        assert(dec_chunk(
            b32_val(t[0]),
            b32_val(t[1]),
            b32_val(t[2]),
            b32_val(t[3]),
            b32_val(t[4]),
            b32_val(t[5]),
            b32_val(t[6]),
            b32_val(t[7]),
        ) + s.skip(5) =~= s);
    } else {
        let b1 = if s.len() > 1 {
            s[1]
        } else {
            0
        };
        let b2 = if s.len() > 2 {
            s[2]
        } else {
            0
        };
        let b3 = if s.len() > 3 {
            s[3]
        } else {
            0
        };
        lemma_char_val(s[0] >> 3);
        lemma_char_val(((s[0] & 7) << 2) | (b1 >> 6));
        lemma_char_val((b1 >> 1) & 31);
        lemma_char_val(((b1 & 1) << 4) | (b2 >> 4));
        lemma_char_val(((b2 & 15) << 1) | (b3 >> 7));
        lemma_char_val((b3 >> 2) & 31);
        lemma_char_val(((b3 & 3) << 3) | (0u8 >> 5));
        lemma_pad_bits(s[0], b1, b2, b3);
        lemma_chunk_roundtrip(s[0], b1, b2, b3, 0);
        let e = enc_chunk(s[0], b1, b2, b3, 0);
        let t = e.take(enc_tail_len(s.len() as int));
        if s.len() == 1 {
            assert(dec_chunk(b32_val(t[0]), b32_val(t[1]), 0, 0, 0, 0, 0, 0).take(1) =~= s);
        } else if s.len() == 2 {
            assert(dec_chunk(b32_val(t[0]), b32_val(t[1]), b32_val(t[2]), b32_val(t[3]), 0, 0, 0, 0)
                .take(2) =~= s);
        } else if s.len() == 3 {
            assert(dec_chunk(
                b32_val(t[0]),
                b32_val(t[1]),
                b32_val(t[2]),
                b32_val(t[3]),
                b32_val(t[4]),
                0,
                0,
                0,
            ).take(3) =~= s);
        } else {
            assert(dec_chunk(
                b32_val(t[0]),
                b32_val(t[1]),
                b32_val(t[2]),
                b32_val(t[3]),
                b32_val(t[4]),
                b32_val(t[5]),
                b32_val(t[6]),
                0,
            ).take(4) =~= s);
        }
    }
}

/// The character of a five-bit value, as runnable code.
fn enc_char(v: u8) -> (r: u8)
    requires
        v < 32,
    ensures
        r == b32_char(v),
{
    if v < 26 {
        97 + v
    } else {
        24 + v
    }
}

/// The value of a character, as runnable code; 255 marks a byte outside the
/// alphabet.
fn dec_char(ch: u8) -> (r: u8)
    ensures
        r == b32_val(ch),
        r < 32 <==> is_b32(ch),
{
    if 97 <= ch && ch <= 122 {
        ch - 97
    } else if 50 <= ch && ch <= 55 {
        ch - 24
    } else {
        255
    }
}

/// Encodes the bytes of `s` from position `pos` on.
pub fn b32_encode_from(s: &[u8], pos: usize) -> (r: Vec<u8>)
    requires
        pos <= s@.len(),
    ensures
        r@ == spec_b32_encode(s@.skip(pos as int)),
    decreases s@.len() - pos,
{
    let n = s.len() - pos;
    let mut out: Vec<u8> = Vec::new();
    if n == 0 {
        assert(s@.skip(pos as int) =~= Seq::<u8>::empty());
        return out;
    }
    let b0 = s[pos];
    let b1 = if n > 1 {
        s[pos + 1]
    } else {
        0
    };
    let b2 = if n > 2 {
        s[pos + 2]
    } else {
        0
    };
    let b3 = if n > 3 {
        s[pos + 3]
    } else {
        0
    };
    let b4 = if n > 4 {
        s[pos + 4]
    } else {
        0
    };
    proof {
        lemma_enc_bounds(b0, b1, b2, b3, b4);
    }
    out.push(enc_char(b0 >> 3));
    out.push(enc_char(((b0 & 7) << 2) | (b1 >> 6)));
    if n >= 2 {
        out.push(enc_char((b1 >> 1) & 31));
        out.push(enc_char(((b1 & 1) << 4) | (b2 >> 4)));
    }
    if n >= 3 {
        out.push(enc_char(((b2 & 15) << 1) | (b3 >> 7)));
    }
    if n >= 4 {
        out.push(enc_char((b3 >> 2) & 31));
        out.push(enc_char(((b3 & 3) << 3) | (b4 >> 5)));
    }
    if n >= 5 {
        out.push(enc_char(b4 & 31));
        let mut rest = b32_encode_from(s, pos + 5);
        out.append(&mut rest);
        proof {
            assert(s@.skip(pos as int).skip(5) =~= s@.skip(pos + 5));
            assert(out@ =~= spec_b32_encode(s@.skip(pos as int)));
        }
    } else {
        proof {
            assert(out@ =~= spec_b32_encode(s@.skip(pos as int)));
        }
    }
    out
}

/// Decodes the characters of `s` from position `pos` on; `None` when they are
/// not a canonical encoding.
pub fn b32_decode_from(s: &[u8], pos: usize) -> (r: Option<Vec<u8>>)
    requires
        pos <= s@.len(),
    ensures
        match r {
            Some(v) => spec_b32_decode(s@.skip(pos as int)) == Some(v@),
            None => spec_b32_decode(s@.skip(pos as int)) is None,
        },
    decreases s@.len() - pos,
{
    let n = s.len() - pos;
    if n == 0 {
        let out: Vec<u8> = Vec::new();
        assert(s@.skip(pos as int) =~= Seq::<u8>::empty());
        return Some(out);
    }
    if n == 1 || n == 3 || n == 6 {
        return None;
    }
    let v0 = dec_char(s[pos]);
    let v1 = dec_char(s[pos + 1]);
    if !(v0 < 32 && v1 < 32) {
        return None;
    }
    if n == 2 {
        if v1 & 3 == 0 {
            let out: Vec<u8> = vec![(v0 << 3) | (v1 >> 2)];
            assert(out@ =~= dec_chunk(v0, v1, 0, 0, 0, 0, 0, 0).take(1));
            return Some(out);
        } else {
            return None;
        }
    }
    let v2 = dec_char(s[pos + 2]);
    let v3 = dec_char(s[pos + 3]);
    if !(v2 < 32 && v3 < 32) {
        return None;
    }
    if n == 4 {
        if v3 & 15 == 0 {
            let out: Vec<u8> = vec![
                (v0 << 3) | (v1 >> 2),
                ((v1 & 3) << 6) | (v2 << 1) | (v3 >> 4),
            ];
            assert(out@ =~= dec_chunk(v0, v1, v2, v3, 0, 0, 0, 0).take(2));
            return Some(out);
        } else {
            return None;
        }
    }
    let v4 = dec_char(s[pos + 4]);
    if !(v4 < 32) {
        return None;
    }
    if n == 5 {
        if v4 & 1 == 0 {
            let out: Vec<u8> = vec![
                (v0 << 3) | (v1 >> 2),
                ((v1 & 3) << 6) | (v2 << 1) | (v3 >> 4),
                ((v3 & 15) << 4) | (v4 >> 1),
            ];
            assert(out@ =~= dec_chunk(v0, v1, v2, v3, v4, 0, 0, 0).take(3));
            return Some(out);
        } else {
            return None;
        }
    }
    let v5 = dec_char(s[pos + 5]);
    let v6 = dec_char(s[pos + 6]);
    if !(v5 < 32 && v6 < 32) {
        return None;
    }
    if n == 7 {
        if v6 & 7 == 0 {
            let out: Vec<u8> = vec![
                (v0 << 3) | (v1 >> 2),
                ((v1 & 3) << 6) | (v2 << 1) | (v3 >> 4),
                ((v3 & 15) << 4) | (v4 >> 1),
                ((v4 & 1) << 7) | (v5 << 2) | (v6 >> 3),
            ];
            assert(out@ =~= dec_chunk(v0, v1, v2, v3, v4, v5, v6, 0).take(4));
            return Some(out);
        } else {
            return None;
        }
    }
    let v7 = dec_char(s[pos + 7]);
    if !(v7 < 32) {
        return None;
    }
    let mut out: Vec<u8> = vec![
        (v0 << 3) | (v1 >> 2),
        ((v1 & 3) << 6) | (v2 << 1) | (v3 >> 4),
        ((v3 & 15) << 4) | (v4 >> 1),
        ((v4 & 1) << 7) | (v5 << 2) | (v6 >> 3),
        ((v6 & 7) << 5) | v7,
    ];
    match b32_decode_from(s, pos + 8) {
        Some(mut rest) => {
            out.append(&mut rest);
            proof {
                assert(s@.skip(pos as int).skip(8) =~= s@.skip(pos + 8));
                assert(out@ =~= dec_chunk(v0, v1, v2, v3, v4, v5, v6, v7) + spec_b32_decode(
                    s@.skip(pos + 8),
                ).unwrap());
            }
            Some(out)
        },
        None => {
            proof {
                assert(s@.skip(pos as int).skip(8) =~= s@.skip(pos + 8));
            }
            None
        },
    }
}

} // verus!
