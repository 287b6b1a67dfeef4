use vstd::prelude::*;

verus! {

/// Lowercase hex text: the form in which a refresh token value carries its
/// random bytes.

/// The hex character for a value below 16: `0`..`9` then `a`..`f`.
pub open spec fn hex_digit(v: u8) -> u8 {
    if v < 10 {
        (48 + v) as u8
    } else {
        (87 + v) as u8
    }
}

/// Two hex characters per byte, high nibble first.
pub open spec fn spec_hex(s: Seq<u8>) -> Seq<u8>
    decreases s.len(),
{
    if s.len() == 0 {
        Seq::empty()
    } else {
        seq![hex_digit(s[0] / 16), hex_digit(s[0] % 16)] + spec_hex(s.skip(1))
    }
}

/// Hex text is ASCII.
pub proof fn lemma_hex_ascii(s: Seq<u8>)
    ensures
        spec_hex(s).len() == 2 * s.len(),
        forall|i: int| 0 <= i < spec_hex(s).len() ==> #[trigger] spec_hex(s)[i] < 128,
    decreases s.len(),
{
    if s.len() > 0 {
        lemma_hex_ascii(s.skip(1));
        let e = spec_hex(s);
        let rest = spec_hex(s.skip(1));
        assert forall|i: int| 0 <= i < e.len() implies #[trigger] e[i] < 128 by {
            if i >= 2 {
                assert(e[i] == rest[i - 2]);
            }
        }
    }
}

/// Encode bytes as lowercase hex text.
pub fn hex_encode(s: &[u8]) -> (out: Vec<u8>)
    ensures
        out@ == spec_hex(s@),
{
    let mut out: Vec<u8> = Vec::new();
    let mut i: usize = 0;
    proof {
        assert(s@.skip(0) =~= s@);
    }
    while i < s.len()
        invariant
            0 <= i <= s@.len(),
            spec_hex(s@) =~= out@ + spec_hex(s@.skip(i as int)),
        decreases s@.len() - i,
    {
        let b = s[i];
        proof {
            assert(s@.skip(i as int)[0] == b);
            assert(s@.skip(i as int).skip(1) =~= s@.skip(i + 1));
        }
        let hi = b / 16;
        let lo = b % 16;
        out.push(if hi < 10 { 48 + hi } else { 87 + hi });
        out.push(if lo < 10 { 48 + lo } else { 87 + lo });
        i = i + 1;
        proof {
            assert(spec_hex(s@) =~= out@ + spec_hex(s@.skip(i as int)));
        }
    }
    proof {
        assert(s@.skip(i as int) =~= Seq::<u8>::empty());
        assert(out@ =~= spec_hex(s@));
    }
    out
}

} // verus!
