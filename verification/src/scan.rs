use vstd::prelude::*;

verus! {

/// Byte scanning: first occurrence of a delimiter, and literal prefixes.
/// The payload parser and the token splitter are built on these.

/// The index of the first occurrence of `d` in `s`, or `s.len()` when `d`
/// does not occur.
pub open spec fn find_byte(s: Seq<u8>, d: u8) -> int
    decreases s.len(),
{
    if s.len() == 0 {
        0
    } else if s[0] == d {
        0
    } else {
        1 + find_byte(s.skip(1), d)
    }
}

/// What `find_byte` returns: an in-range index, pointing at `d` when `d`
/// occurs, with no occurrence before it.
pub proof fn lemma_find_byte_props(s: Seq<u8>, d: u8)
    ensures
        0 <= find_byte(s, d) <= s.len(),
        find_byte(s, d) < s.len() ==> s[find_byte(s, d)] == d,
        forall|i: int| 0 <= i < find_byte(s, d) ==> s[i] != d,
    decreases s.len(),
{
    if s.len() == 0 {
    } else if s[0] == d {
    } else {
        lemma_find_byte_props(s.skip(1), d);
        let f = find_byte(s, d);
        assert forall|i: int| 0 <= i < f implies s[i] != d by {
            if i > 0 {
                assert(s.skip(1)[i - 1] != d);
            }
        }
        if f < s.len() {
            assert(s[f] == s.skip(1)[f - 1]);
        }
    }
}

/// Where a delimiter-free prefix meets a part that starts with the
/// delimiter, the first occurrence is exactly at the seam.
pub proof fn lemma_find_byte_concat(a: Seq<u8>, b: Seq<u8>, d: u8)
    requires
        forall|i: int| 0 <= i < a.len() ==> a[i] != d,
        b.len() > 0,
        b[0] == d,
    ensures
        find_byte(a + b, d) == a.len(),
    decreases a.len(),
{
    if a.len() == 0 {
        assert(a + b =~= b);
    } else {
        assert((a + b)[0] == a[0]);
        assert((a + b).skip(1) =~= a.skip(1) + b);
        lemma_find_byte_concat(a.skip(1), b, d);
    }
}

/// A scan that saw no delimiter before `i` and stopped at `i` found the
/// first occurrence.
proof fn lemma_find_byte_scan(s: Seq<u8>, d: u8, i: int)
    requires
        0 <= i <= s.len(),
        forall|k: int| 0 <= k < i ==> s[k] != d,
        i == s.len() || s[i] == d,
    ensures
        find_byte(s, d) == i,
    decreases i,
{
    if i == 0 {
        if s.len() > 0 {
            lemma_find_byte_props(s, d);
        }
    } else {
        assert(s[0] != d);
        assert forall|k: int| 0 <= k < i - 1 implies s.skip(1)[k] != d by {
            assert(s.skip(1)[k] == s[k + 1]);
        }
        if i < s.len() {
            assert(s.skip(1)[i - 1] == s[i]);
        }
        lemma_find_byte_scan(s.skip(1), d, i - 1);
    }
}

/// The first occurrence of `d` in `s` at or after `from`, as an absolute
/// index; `s.len()` when there is none.
pub fn find_from(s: &[u8], from: usize, d: u8) -> (j: usize)
    requires
        from <= s@.len(),
    ensures
        from <= j <= s@.len(),
        j - from == find_byte(s@.skip(from as int), d),
{
    let mut i: usize = from;
    while i < s.len()
        invariant
            from <= i <= s@.len(),
            forall|k: int| from <= k < i ==> s@[k] != d,
        decreases s@.len() - i,
    {
        if s[i] == d {
            proof {
                assert forall|k: int| 0 <= k < i - from implies s@.skip(from as int)[k] != d by {
                    assert(s@.skip(from as int)[k] == s@[k + from]);
                }
                assert(s@.skip(from as int)[i - from] == s@[i as int]);
                lemma_find_byte_scan(s@.skip(from as int), d, i - from);
            }
            return i;
        }
        i = i + 1;
    }
    proof {
        assert forall|k: int| 0 <= k < i - from implies s@.skip(from as int)[k] != d by {
            assert(s@.skip(from as int)[k] == s@[k + from]);
        }
        lemma_find_byte_scan(s@.skip(from as int), d, i - from);
    }
    i
}

/// Does `s` carry exactly the bytes of `lit` at position `pos`?
pub fn starts_with(s: &[u8], pos: usize, lit: &[u8]) -> (b: bool)
    requires
        pos <= s@.len(),
    ensures
        b == (pos + lit@.len() <= s@.len() && s@.skip(pos as int).take(lit@.len() as int) == lit@),
{
    if s.len() - pos < lit.len() {
        return false;
    }
    proof {
        assert(s@.len() <= usize::MAX);
    }
    let mut j: usize = 0;
    while j < lit.len()
        invariant
            0 <= j <= lit@.len(),
            pos + lit@.len() <= s@.len(),
            s@.len() <= usize::MAX,
            forall|k: int| 0 <= k < j ==> s@[pos + k] == lit@[k],
        decreases lit@.len() - j,
    {
        if s[pos + j] != lit[j] {
            proof {
                let t = s@.skip(pos as int).take(lit@.len() as int);
                assert(t[j as int] == s@[pos + j]);
            }
            return false;
        }
        j = j + 1;
    }
    proof {
        assert(s@.skip(pos as int).take(lit@.len() as int) =~= lit@);
    }
    true
}

} // verus!

verus! {

/// Byte-exact comparison of two byte strings.
pub fn bytes_eq(a: &[u8], b: &[u8]) -> (r: bool)
    ensures
        r == (a@ == b@),
{
    if a.len() != b.len() {
        return false;
    }
    let n = a.len();
    let mut i: usize = 0;
    while i < n
        invariant
            0 <= i <= n,
            n == a@.len() == b@.len(),
            forall|k: int| 0 <= k < i ==> a@[k] == b@[k],
        decreases n - i,
    {
        if a[i] != b[i] {
            return false;
        }
        i = i + 1;
    }
    proof {
        assert(a@ =~= b@);
    }
    true
}

} // verus!
