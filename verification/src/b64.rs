use vstd::prelude::*;
use vstd::arithmetic::div_mod::{lemma_fundamental_div_mod, lemma_fundamental_div_mod_converse};

verus! {

/// Base64 text in the URL-safe alphabet, without padding: the form in which
/// a token carries its header, payload and signature parts.

/// The URL-safe alphabet: `A`..`Z`, `a`..`z`, `0`..`9`, `-`, `_`.
pub open spec fn b64_char(v: u8) -> u8 {
    if v < 26 {
        (65 + v) as u8
    } else if v < 52 {
        (97 + (v - 26)) as u8
    } else if v < 62 {
        (48 + (v - 52)) as u8
    } else if v == 62 {
        45
    } else {
        95
    }
}

/// The six-bit value a byte of base64 text stands for, `None` outside the
/// alphabet.
pub open spec fn b64_val(c: u8) -> Option<u8> {
    if 65 <= c <= 90 {
        Some((c - 65) as u8)
    } else if 97 <= c <= 122 {
        Some((26 + (c - 97)) as u8)
    } else if 48 <= c <= 57 {
        Some((52 + (c - 48)) as u8)
    } else if c == 45 {
        Some(62)
    } else if c == 95 {
        Some(63)
    } else {
        None
    }
}

/// Alphabet characters decode back to their value, are ASCII, and are never
/// a dot, so a dot always separates token parts unambiguously.
pub proof fn lemma_b64_char_val(v: u8)
    requires
        v < 64,
    ensures
        b64_val(b64_char(v)) == Some(v),
        b64_char(v) < 128,
        b64_char(v) != 46,
{
}

/// The canonical unpadded base64 encoding, three input bytes to four output
/// characters, with the trailing group shortened and its unused bits zero.
pub open spec fn spec_b64_encode(s: Seq<u8>) -> Seq<u8>
    decreases s.len(),
{
    if s.len() == 0 {
        Seq::empty()
    } else if s.len() == 1 {
        let b0 = s[0];
        seq![b64_char(b0 / 4), b64_char(((b0 % 4) * 16) as u8)]
    } else if s.len() == 2 {
        let b0 = s[0];
        let b1 = s[1];
        seq![
            b64_char(b0 / 4),
            b64_char(((b0 % 4) * 16 + b1 / 16) as u8),
            b64_char(((b1 % 16) * 4) as u8),
        ]
    } else {
        let b0 = s[0];
        let b1 = s[1];
        let b2 = s[2];
        seq![
            b64_char(b0 / 4),
            b64_char(((b0 % 4) * 16 + b1 / 16) as u8),
            b64_char(((b1 % 16) * 4 + b2 / 64) as u8),
            b64_char((b2 % 64) as u8),
        ] + spec_b64_encode(s.skip(3))
    }
}

/// The strict inverse: accepts exactly the canonical encodings.
pub open spec fn spec_b64_decode(s: Seq<u8>) -> Option<Seq<u8>>
    decreases s.len(),
{
    if s.len() == 0 {
        Some(Seq::empty())
    } else if s.len() == 1 {
        None
    } else if s.len() == 2 {
        match (b64_val(s[0]), b64_val(s[1])) {
            (Some(v0), Some(v1)) => if v1 % 16 == 0 {
                Some(seq![(v0 * 4 + v1 / 16) as u8])
            } else {
                None
            },
            _ => None,
        }
    } else if s.len() == 3 {
        match (b64_val(s[0]), b64_val(s[1]), b64_val(s[2])) {
            (Some(v0), Some(v1), Some(v2)) => if v2 % 4 == 0 {
                Some(seq![(v0 * 4 + v1 / 16) as u8, ((v1 % 16) * 16 + v2 / 4) as u8])
            } else {
                None
            },
            _ => None,
        }
    } else {
        match (b64_val(s[0]), b64_val(s[1]), b64_val(s[2]), b64_val(s[3])) {
            (Some(v0), Some(v1), Some(v2), Some(v3)) => match spec_b64_decode(s.skip(4)) {
                Some(rest) => Some(
                    seq![
                        (v0 * 4 + v1 / 16) as u8,
                        ((v1 % 16) * 16 + v2 / 4) as u8,
                        ((v2 % 4) * 64 + v3) as u8,
                    ] + rest,
                ),
                None => None,
            },
            _ => None,
        }
    }
}

/// Decoding undoes encoding on every byte sequence.
pub proof fn lemma_b64_round_trip(s: Seq<u8>)
    ensures
        spec_b64_decode(spec_b64_encode(s)) == Some(s),
    decreases s.len(),
{
    let e = spec_b64_encode(s);
    if s.len() == 0 {
    } else if s.len() == 1 {
        let b0 = s[0];
        lemma_b64_char_val(b0 / 4);
        lemma_b64_char_val(((b0 % 4) * 16) as u8);
        lemma_fundamental_div_mod_converse((b0 % 4) * 16, 16, (b0 % 4) as int, 0);
        lemma_fundamental_div_mod(b0 as int, 4);
        assert(spec_b64_decode(e) == Some(seq![((b0 / 4) * 4 + b0 % 4) as u8]));
        assert(seq![((b0 / 4) * 4 + b0 % 4) as u8] =~= s);
    } else if s.len() == 2 {
        let b0 = s[0];
        let b1 = s[1];
        let v0 = b0 / 4;
        let v1 = ((b0 % 4) * 16 + b1 / 16) as u8;
        let v2 = ((b1 % 16) * 4) as u8;
        lemma_b64_char_val(v0);
        lemma_b64_char_val(v1);
        lemma_b64_char_val(v2);
        lemma_fundamental_div_mod_converse((b1 % 16) * 4, 4, (b1 % 16) as int, 0);
        assert(v2 % 4 == 0);
        lemma_fundamental_div_mod_converse(v1 as int, 16, (b0 % 4) as int, (b1 / 16) as int);
        lemma_fundamental_div_mod(b0 as int, 4);
        lemma_fundamental_div_mod(b1 as int, 16);
        assert((v0 * 4 + v1 / 16) == b0);
        assert(((v1 % 16) * 16 + v2 / 4) == b1);
        assert(spec_b64_decode(e) == Some(seq![(v0 * 4 + v1 / 16) as u8, ((v1 % 16) * 16 + v2 / 4) as u8]));
        assert(seq![(v0 * 4 + v1 / 16) as u8, ((v1 % 16) * 16 + v2 / 4) as u8] =~= s);
    } else {
        let b0 = s[0];
        let b1 = s[1];
        let b2 = s[2];
        let v0 = b0 / 4;
        let v1 = ((b0 % 4) * 16 + b1 / 16) as u8;
        let v2 = ((b1 % 16) * 4 + b2 / 64) as u8;
        let v3 = (b2 % 64) as u8;
        lemma_b64_char_val(v0);
        lemma_b64_char_val(v1);
        lemma_b64_char_val(v2);
        lemma_b64_char_val(v3);
        lemma_b64_round_trip(s.skip(3));
        let group = seq![b64_char(v0), b64_char(v1), b64_char(v2), b64_char(v3)];
        let rest = spec_b64_encode(s.skip(3));
        assert(e =~= group + rest);
        assert(e.len() >= 4);
        assert(e[0] == b64_char(v0) && e[1] == b64_char(v1) && e[2] == b64_char(v2) && e[3]
            == b64_char(v3));
        assert(e.skip(4) =~= rest);
        lemma_fundamental_div_mod_converse(v1 as int, 16, (b0 % 4) as int, (b1 / 16) as int);
        lemma_fundamental_div_mod_converse(v2 as int, 4, (b1 % 16) as int, (b2 / 64) as int);
        lemma_fundamental_div_mod(b0 as int, 4);
        lemma_fundamental_div_mod(b1 as int, 16);
        lemma_fundamental_div_mod(b2 as int, 64);
        assert((v0 * 4 + v1 / 16) == b0);
        assert(((v1 % 16) * 16 + v2 / 4) == b1);
        assert(((v2 % 4) * 64 + v3) == b2);
        assert(seq![b0, b1, b2] + s.skip(3) =~= s);
    }
}

/// Every byte of an encoding is ASCII and none is a dot.
pub proof fn lemma_b64_encode_ascii(s: Seq<u8>)
    ensures
        forall|i: int|
            0 <= i < spec_b64_encode(s).len() ==> #[trigger] spec_b64_encode(s)[i] < 128
                && spec_b64_encode(s)[i] != 46,
    decreases s.len(),
{
    let e = spec_b64_encode(s);
    if s.len() == 0 {
    } else if s.len() <= 2 {
        assert forall|i: int| 0 <= i < e.len() implies #[trigger] e[i] < 128 && e[i] != 46 by {
            assert(b64_char(e[i] as u8) == b64_char(e[i] as u8));
        }
    } else {
        lemma_b64_encode_ascii(s.skip(3));
        let rest = spec_b64_encode(s.skip(3));
        assert forall|i: int| 0 <= i < e.len() implies #[trigger] e[i] < 128 && e[i] != 46 by {
            if i >= 4 {
                assert(e[i] == rest[i - 4]);
            }
        }
    }
}

/// Map a six-bit value to its alphabet character.
fn b64_char_exec(v: u8) -> (c: u8)
    requires
        v < 64,
    ensures
        c == b64_char(v),
{
    if v < 26 {
        65 + v
    } else if v < 52 {
        97 + (v - 26)
    } else if v < 62 {
        48 + (v - 52)
    } else if v == 62 {
        45
    } else {
        95
    }
}

/// Map a byte back to its six-bit value.
fn b64_val_exec(c: u8) -> (r: Option<u8>)
    ensures
        r == b64_val(c),
{
    if 65 <= c && c <= 90 {
        Some(c - 65)
    } else if 97 <= c && c <= 122 {
        Some(26 + (c - 97))
    } else if 48 <= c && c <= 57 {
        Some(52 + (c - 48))
    } else if c == 45 {
        Some(62)
    } else if c == 95 {
        Some(63)
    } else {
        None
    }
}

/// Encode bytes as unpadded URL-safe base64 text.
pub fn b64_encode(s: &[u8]) -> (out: Vec<u8>)
    ensures
        out@ == spec_b64_encode(s@),
{
    let mut out: Vec<u8> = Vec::new();
    let mut i: usize = 0;
    proof {
        assert(s@.skip(0) =~= s@);
    }
    while s.len() - i >= 3
        invariant
            0 <= i <= s@.len(),
            spec_b64_encode(s@) =~= out@ + spec_b64_encode(s@.skip(i as int)),
        decreases s@.len() - i,
    {
        let b0 = s[i];
        let b1 = s[i + 1];
        let b2 = s[i + 2];
        proof {
            assert(s@.skip(i as int)[0] == b0);
            assert(s@.skip(i as int)[1] == b1);
            assert(s@.skip(i as int)[2] == b2);
            assert(s@.skip(i as int).skip(3) =~= s@.skip(i + 3));
        }
        let ghost out0 = out@;
        out.push(b64_char_exec(b0 / 4));
        out.push(b64_char_exec((b0 % 4) * 16 + b1 / 16));
        out.push(b64_char_exec((b1 % 16) * 4 + b2 / 64));
        out.push(b64_char_exec(b2 % 64));
        i = i + 3;
        proof {
            assert(spec_b64_encode(s@) =~= out@ + spec_b64_encode(s@.skip(i as int)));
        }
    }
    if s.len() - i == 1 {
        let b0 = s[i];
        proof {
            assert(s@.skip(i as int) =~= seq![b0]);
        }
        out.push(b64_char_exec(b0 / 4));
        out.push(b64_char_exec((b0 % 4) * 16));
        proof {
            assert(out@ =~= spec_b64_encode(s@));
        }
    } else if s.len() - i == 2 {
        let b0 = s[i];
        let b1 = s[i + 1];
        proof {
            assert(s@.skip(i as int) =~= seq![b0, b1]);
        }
        out.push(b64_char_exec(b0 / 4));
        out.push(b64_char_exec((b0 % 4) * 16 + b1 / 16));
        out.push(b64_char_exec((b1 % 16) * 4));
        proof {
            assert(out@ =~= spec_b64_encode(s@));
        }
    } else {
        proof {
            assert(s@.skip(i as int) =~= Seq::<u8>::empty());
            assert(out@ =~= spec_b64_encode(s@));
        }
    }
    out
}

/// Decode unpadded URL-safe base64 text; `None` for anything that is not a
/// canonical encoding.
pub fn b64_decode(s: &[u8]) -> (r: Option<Vec<u8>>)
    ensures
        match r {
            Some(v) => spec_b64_decode(s@) == Some(v@),
            None => spec_b64_decode(s@) is None,
        },
{
    let mut out: Vec<u8> = Vec::new();
    let mut i: usize = 0;
    proof {
        assert(s@.skip(0) =~= s@);
    }
    while s.len() - i >= 4
        invariant
            0 <= i <= s@.len(),
            spec_b64_decode(s@) == match spec_b64_decode(s@.skip(i as int)) {
                Some(rest) => Some(out@ + rest),
                None => None::<Seq<u8>>,
            },
        decreases s@.len() - i,
    {
        proof {
            assert(s@.skip(i as int)[0] == s@[i as int]);
            assert(s@.skip(i as int)[1] == s@[i + 1]);
            assert(s@.skip(i as int)[2] == s@[i + 2]);
            assert(s@.skip(i as int)[3] == s@[i + 3]);
            assert(s@.skip(i as int).skip(4) =~= s@.skip(i + 4));
        }
        let v0 = match b64_val_exec(s[i]) {
            Some(v) => v,
            None => {
                return None;
            },
        };
        let v1 = match b64_val_exec(s[i + 1]) {
            Some(v) => v,
            None => {
                return None;
            },
        };
        let v2 = match b64_val_exec(s[i + 2]) {
            Some(v) => v,
            None => {
                return None;
            },
        };
        let v3 = match b64_val_exec(s[i + 3]) {
            Some(v) => v,
            None => {
                return None;
            },
        };
        let ghost out0 = out@;
        let ghost g = seq![
            (v0 * 4 + v1 / 16) as u8,
            ((v1 % 16) * 16 + v2 / 4) as u8,
            ((v2 % 4) * 64 + v3) as u8,
        ];
        out.push(v0 * 4 + v1 / 16);
        out.push((v1 % 16) * 16 + v2 / 4);
        out.push((v2 % 4) * 64 + v3);
        i = i + 4;
        proof {
            assert(out@ =~= out0 + g);
            match spec_b64_decode(s@.skip(i as int)) {
                Some(rest) => {
                    assert(out0 + (g + rest) =~= (out0 + g) + rest);
                },
                None => {},
            }
        }
    }
    let rem = s.len() - i;
    if rem == 0 {
        proof {
            assert(s@.skip(i as int) =~= Seq::<u8>::empty());
            assert(out@ + Seq::<u8>::empty() =~= out@);
        }
        Some(out)
    } else if rem == 1 {
        None
    } else if rem == 2 {
        proof {
            assert(s@.skip(i as int) =~= seq![s@[i as int], s@[i + 1]]);
        }
        let v0 = match b64_val_exec(s[i]) {
            Some(v) => v,
            None => {
                return None;
            },
        };
        let v1 = match b64_val_exec(s[i + 1]) {
            Some(v) => v,
            None => {
                return None;
            },
        };
        if v1 % 16 != 0 {
            return None;
        }
        let ghost out0 = out@;
        out.push(v0 * 4 + v1 / 16);
        proof {
            assert(out0 + seq![(v0 * 4 + v1 / 16) as u8] =~= out@);
        }
        Some(out)
    } else {
        proof {
            assert(s@.skip(i as int) =~= seq![s@[i as int], s@[i + 1], s@[i + 2]]);
        }
        let v0 = match b64_val_exec(s[i]) {
            Some(v) => v,
            None => {
                return None;
            },
        };
        let v1 = match b64_val_exec(s[i + 1]) {
            Some(v) => v,
            None => {
                return None;
            },
        };
        let v2 = match b64_val_exec(s[i + 2]) {
            Some(v) => v,
            None => {
                return None;
            },
        };
        if v2 % 4 != 0 {
            return None;
        }
        let ghost out0 = out@;
        out.push(v0 * 4 + v1 / 16);
        out.push((v1 % 16) * 16 + v2 / 4);
        proof {
            assert(out0 + seq![(v0 * 4 + v1 / 16) as u8, ((v1 % 16) * 16 + v2 / 4) as u8] =~= out@);
        }
        Some(out)
    }
}

} // verus!
