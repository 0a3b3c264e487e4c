//! Base64url without padding, the form in which long-term keys are kept in
//! the configuration file.  Encoding and decoding are verified and proved
//! mutually inverse; decoding is strict and accepts only canonical input.

use vstd::prelude::*;

verus! {

/// The alphabet: `A`-`Z`, `a`-`z`, `0`-`9`, `-`, `_`.
pub open spec fn b64_char(v: u8) -> u8 {
    if v < 26 {
        (65 + v) as u8
    } else if v < 52 {
        (97 + (v - 26)) as u8
    } else if v < 62 {
        (48 + (v - 52)) as u8
    } else if v == 62 {
        45
    } else {
        95
    }
}

/// The value of an alphabet byte, or nothing for a byte outside it.
pub open spec fn b64_val(c: u8) -> Option<u8> {
    if 65 <= c < 91 {
        Some((c - 65) as u8)
    } else if 97 <= c < 123 {
        Some((c - 97 + 26) as u8)
    } else if 48 <= c < 58 {
        Some((c - 48 + 52) as u8)
    } else if c == 45 {
        Some(62)
    } else if c == 95 {
        Some(63)
    } else {
        None
    }
}

pub proof fn lemma_b64_char_val(v: u8)
    requires
        v < 64,
    ensures
        b64_val(b64_char(v)) == Some(v),
{
}

/// The encoding: each full three-byte group becomes four alphabet bytes; a
/// tail of one or two bytes becomes two or three, with the unused low bits
/// of the last byte zero.
pub open spec fn enc64(b: Seq<u8>) -> Seq<u8>
    decreases b.len(),
{
    if b.len() == 0 {
        Seq::empty()
    } else if b.len() == 1 {
        seq![b64_char(b[0] >> 2), b64_char((b[0] & 3) << 4)]
    } else if b.len() == 2 {
        seq![
            b64_char(b[0] >> 2),
            b64_char(((b[0] & 3) << 4) | (b[1] >> 4)),
            b64_char((b[1] & 15) << 2),
        ]
    } else {
        seq![
            b64_char(b[0] >> 2),
            b64_char(((b[0] & 3) << 4) | (b[1] >> 4)),
            b64_char(((b[1] & 15) << 2) | (b[2] >> 6)),
            b64_char(b[2] & 63),
        ] + enc64(b.skip(3))
    }
}

/// The strict decoding: every byte must be in the alphabet, a length of
/// `4k + 1` is refused, and the trailing unused bits must be zero.
pub open spec fn dec64(s: Seq<u8>) -> Option<Seq<u8>>
    decreases s.len(),
{
    if s.len() == 0 {
        Some(Seq::empty())
    } else if s.len() == 1 {
        None
    } else if s.len() == 2 {
        match (b64_val(s[0]), b64_val(s[1])) {
            (Some(v0), Some(v1)) => if v1 & 15 == 0 {
                Some(seq![(v0 << 2) | (v1 >> 4)])
            } else {
                None
            },
            _ => None,
        }
    } else if s.len() == 3 {
        match (b64_val(s[0]), b64_val(s[1]), b64_val(s[2])) {
            (Some(v0), Some(v1), Some(v2)) => if v2 & 3 == 0 {
                Some(seq![(v0 << 2) | (v1 >> 4), ((v1 & 15) << 4) | (v2 >> 2)])
            } else {
                None
            },
            _ => None,
        }
    } else {
        match (b64_val(s[0]), b64_val(s[1]), b64_val(s[2]), b64_val(s[3])) {
            (Some(v0), Some(v1), Some(v2), Some(v3)) => match dec64(s.skip(4)) {
                Some(rest) => Some(
                    seq![
                        (v0 << 2) | (v1 >> 4),
                        ((v1 & 15) << 4) | (v2 >> 2),
                        ((v2 & 3) << 6) | v3,
                    ] + rest,
                ),
                None => None,
            },
            _ => None,
        }
    }
}

/// Decoding inverts encoding on every byte string: the stored form of a
/// key reads back exactly.
pub proof fn lemma_base64_round_trip(b: Seq<u8>)
    ensures
        dec64(enc64(b)) == Some(b),
    decreases b.len(),
{
    if b.len() == 0 {
    } else if b.len() == 1 {
        let b0 = b[0];
        assert(b0 >> 2 < 64 && (b0 & 3) << 4 < 64) by (bit_vector);
        lemma_b64_char_val(b0 >> 2);
        lemma_b64_char_val((b0 & 3) << 4);
        assert(((b0 & 3) << 4) & 15 == 0 && ((b0 >> 2) << 2) | (((b0 & 3) << 4) >> 4)
            == b0) by (bit_vector);
        assert(dec64(enc64(b)) == Some(seq![b0]));
        assert(seq![b0] =~= b);
    } else if b.len() == 2 {
        let b0 = b[0];
        let b1 = b[1];
        assert(b0 >> 2 < 64 && (((b0 & 3) << 4) | (b1 >> 4)) < 64 && (b1 & 15) << 2
            < 64) by (bit_vector);
        lemma_b64_char_val(b0 >> 2);
        lemma_b64_char_val(((b0 & 3) << 4) | (b1 >> 4));
        lemma_b64_char_val((b1 & 15) << 2);
        assert(((b1 & 15) << 2) & 3 == 0 && ((b0 >> 2) << 2) | ((((b0 & 3) << 4) | (b1
            >> 4)) >> 4) == b0 && (((((b0 & 3) << 4) | (b1 >> 4)) & 15) << 4) | (((b1
            & 15) << 2) >> 2) == b1) by (bit_vector);
        assert(dec64(enc64(b)) == Some(seq![b0, b1]));
        assert(seq![b0, b1] =~= b);
    } else {
        let b0 = b[0];
        let b1 = b[1];
        let b2 = b[2];
        let c0 = b64_char(b0 >> 2);
        let c1 = b64_char(((b0 & 3) << 4) | (b1 >> 4));
        let c2 = b64_char(((b1 & 15) << 2) | (b2 >> 6));
        let c3 = b64_char(b2 & 63);
        assert(b0 >> 2 < 64 && (((b0 & 3) << 4) | (b1 >> 4)) < 64 && ((((b1 & 15) << 2)
            | (b2 >> 6))) < 64 && b2 & 63 < 64) by (bit_vector);
        lemma_b64_char_val(b0 >> 2);
        lemma_b64_char_val(((b0 & 3) << 4) | (b1 >> 4));
        lemma_b64_char_val(((b1 & 15) << 2) | (b2 >> 6));
        lemma_b64_char_val(b2 & 63);
        let s = enc64(b);
        assert(s == seq![c0, c1, c2, c3] + enc64(b.skip(3)));
        assert(s.len() >= 4);
        assert(s[0] == c0 && s[1] == c1 && s[2] == c2 && s[3] == c3);
        assert(s.skip(4) =~= enc64(b.skip(3)));
        lemma_base64_round_trip(b.skip(3));
        let v0 = b0 >> 2;
        let v1 = ((b0 & 3) << 4) | (b1 >> 4);
        let v2 = ((b1 & 15) << 2) | (b2 >> 6);
        let v3 = b2 & 63;
        assert(((v0 << 2) | (v1 >> 4)) == b0 && (((v1 & 15) << 4) | (v2 >> 2)) == b1 && (
        ((v2 & 3) << 6) | v3) == b2) by (bit_vector)
            requires
                v0 == b0 >> 2,
                v1 == ((b0 & 3) << 4) | (b1 >> 4),
                v2 == ((b1 & 15) << 2) | (b2 >> 6),
                v3 == b2 & 63,
        ;
        assert(dec64(s) == Some(seq![b0, b1, b2] + b.skip(3)));
        assert(seq![b0, b1, b2] + b.skip(3) =~= b);
    }
}

/// The alphabet byte for a six-bit value.
fn b64c(v: u8) -> (r: u8)
    requires
        v < 64,
    ensures
        r == b64_char(v),
{
    if v < 26 {
        65 + v
    } else if v < 52 {
        97 + (v - 26)
    } else if v < 62 {
        48 + (v - 52)
    } else if v == 62 {
        45
    } else {
        95
    }
}

/// The six-bit value of an alphabet byte.
fn b64v(c: u8) -> (r: Option<u8>)
    ensures
        r == b64_val(c),
        r matches Some(v) ==> v < 64,
{
    if 65 <= c && c < 91 {
        Some(c - 65)
    } else if 97 <= c && c < 123 {
        Some(c - 97 + 26)
    } else if 48 <= c && c < 58 {
        Some(c - 48 + 52)
    } else if c == 45 {
        Some(62)
    } else if c == 95 {
        Some(63)
    } else {
        None
    }
}

/// Encodes a byte string as base64url without padding.
pub fn encode64(b: &[u8]) -> (r: Vec<u8>)
    ensures
        r@ == enc64(b@),
{
    let mut out: Vec<u8> = Vec::new();
    let mut pos: usize = 0;
    proof {
        assert(b@.skip(0) =~= b@);
    }
    while b.len() - pos >= 3
        invariant
            pos <= b@.len(),
            out@ + enc64(b@.skip(pos as int)) == enc64(b@),
        decreases b@.len() - pos,
    {
        let b0 = b[pos];
        let b1 = b[pos + 1];
        let b2 = b[pos + 2];
        proof {
            assert(b0 >> 2 < 64 && (((b0 & 3) << 4) | (b1 >> 4)) < 64 && ((((b1 & 15)
                << 2) | (b2 >> 6))) < 64 && b2 & 63 < 64) by (bit_vector);
        }
        out.push(b64c(b0 >> 2));
        out.push(b64c(((b0 & 3) << 4) | (b1 >> 4)));
        out.push(b64c(((b1 & 15) << 2) | (b2 >> 6)));
        out.push(b64c(b2 & 63));
        proof {
            let t = b@.skip(pos as int);
            assert(t[0] == b@[pos as int] && t[1] == b@[pos + 1] && t[2] == b@[pos + 2]);
            assert(t.skip(3) =~= b@.skip(pos + 3));
            assert(out@ + enc64(b@.skip(pos + 3)) =~= enc64(b@));
        }
        pos = pos + 3;
    }
    let rem: usize = b.len() - pos;
    if rem == 1 {
        let b0 = b[pos];
        proof {
            assert(b0 >> 2 < 64 && (b0 & 3) << 4 < 64) by (bit_vector);
            assert(b@.skip(pos as int).len() == 1);
            assert(b@.skip(pos as int)[0] == b@[pos as int]);
        }
        out.push(b64c(b0 >> 2));
        out.push(b64c((b0 & 3) << 4));
        proof {
            assert(out@ =~= enc64(b@));
        }
    } else if rem == 2 {
        let b0 = b[pos];
        let b1 = b[pos + 1];
        proof {
            assert(b0 >> 2 < 64 && (((b0 & 3) << 4) | (b1 >> 4)) < 64 && (b1 & 15) << 2
                < 64) by (bit_vector);
            assert(b@.skip(pos as int).len() == 2);
            assert(b@.skip(pos as int)[0] == b@[pos as int]);
            assert(b@.skip(pos as int)[1] == b@[pos + 1]);
        }
        out.push(b64c(b0 >> 2));
        out.push(b64c(((b0 & 3) << 4) | (b1 >> 4)));
        out.push(b64c((b1 & 15) << 2));
        proof {
            assert(out@ =~= enc64(b@));
        }
    } else {
        proof {
            assert(b@.skip(pos as int).len() == 0);
            assert(out@ =~= enc64(b@));
        }
    }
    out
}

/// Decodes strict base64url without padding; `None` exactly where the spec
/// decoder refuses.
pub fn decode64(s: &[u8]) -> (r: Option<Vec<u8>>)
    ensures
        match r {
            Some(v) => dec64(s@) == Some(v@),
            None => dec64(s@) is None,
        },
{
    let mut out: Vec<u8> = Vec::new();
    let mut pos: usize = 0;
    proof {
        assert(s@.skip(0) =~= s@);
    }
    while s.len() - pos >= 4
        invariant
            pos <= s@.len(),
            match dec64(s@.skip(pos as int)) {
                Some(rest) => dec64(s@) == Some(out@ + rest),
                None => dec64(s@) is None,
            },
        decreases s@.len() - pos,
    {
        let ghost t = s@.skip(pos as int);
        proof {
            assert(t.len() >= 4);
            assert(t[0] == s@[pos as int] && t[1] == s@[pos + 1] && t[2] == s@[pos + 2]
                && t[3] == s@[pos + 3]);
            assert(t.skip(4) =~= s@.skip(pos + 4));
        }
        let v0 = match b64v(s[pos]) {
            Some(v) => v,
            None => {
                return None;
            },
        };
        let v1 = match b64v(s[pos + 1]) {
            Some(v) => v,
            None => {
                return None;
            },
        };
        let v2 = match b64v(s[pos + 2]) {
            Some(v) => v,
            None => {
                return None;
            },
        };
        let v3 = match b64v(s[pos + 3]) {
            Some(v) => v,
            None => {
                return None;
            },
        };
        out.push((v0 << 2) | (v1 >> 4));
        out.push(((v1 & 15) << 4) | (v2 >> 2));
        out.push(((v2 & 3) << 6) | v3);
        proof {
            match dec64(s@.skip(pos + 4)) {
                Some(rest) => {
                    assert(out@ + rest =~= (out@.take(out@.len() - 3)) + (seq![
                        (v0 << 2) | (v1 >> 4),
                        ((v1 & 15) << 4) | (v2 >> 2),
                        ((v2 & 3) << 6) | v3,
                    ] + rest));
                },
                None => {
                },
            }
        }
        pos = pos + 4;
    }
    let rem: usize = s.len() - pos;
    if rem == 0 {
        proof {
            assert(dec64(s@.skip(pos as int)) == Some(Seq::<u8>::empty()));
            assert(out@ + Seq::<u8>::empty() =~= out@);
        }
        Some(out)
    } else if rem == 1 {
        None
    } else if rem == 2 {
        let ghost t = s@.skip(pos as int);
        proof {
            assert(t.len() == 2);
            assert(t[0] == s@[pos as int] && t[1] == s@[pos + 1]);
        }
        let v0 = match b64v(s[pos]) {
            Some(v) => v,
            None => {
                return None;
            },
        };
        let v1 = match b64v(s[pos + 1]) {
            Some(v) => v,
            None => {
                return None;
            },
        };
        if v1 & 15 == 0 {
            out.push((v0 << 2) | (v1 >> 4));
            proof {
                assert(out@ =~= out@.take(out@.len() - 1) + seq![(v0 << 2) | (v1 >> 4)]);
            }
            Some(out)
        } else {
            None
        }
    } else {
        let ghost t = s@.skip(pos as int);
        proof {
            assert(t.len() == 3);
            assert(t[0] == s@[pos as int] && t[1] == s@[pos + 1] && t[2] == s@[pos + 2]);
        }
        let v0 = match b64v(s[pos]) {
            Some(v) => v,
            None => {
                return None;
            },
        };
        let v1 = match b64v(s[pos + 1]) {
            Some(v) => v,
            None => {
                return None;
            },
        };
        let v2 = match b64v(s[pos + 2]) {
            Some(v) => v,
            None => {
                return None;
            },
        };
        if v2 & 3 == 0 {
            out.push((v0 << 2) | (v1 >> 4));
            out.push(((v1 & 15) << 4) | (v2 >> 2));
            proof {
                assert(out@ =~= out@.take(out@.len() - 2) + seq![
                    (v0 << 2) | (v1 >> 4),
                    ((v1 & 15) << 4) | (v2 >> 2),
                ]);
            }
            Some(out)
        } else {
            None
        }
    }
}

} // verus!
