//! Small executable helpers over byte vectors, each with an exact
//! specification: equality, prefix and suffix tests, and concatenation.

use vstd::prelude::*;

verus! {

/// Byte-for-byte equality of two vectors.
pub fn bytes_eq(a: &Vec<u8>, b: &Vec<u8>) -> (r: bool)
    ensures
        r <==> a@ == b@,
{
    if a.len() != b.len() {
        assert(a@ != b@);
        return false;
    }
    let mut i: usize = 0;
    while i < a.len()
        invariant
            i <= a.len(),
            a.len() == b.len(),
            forall|j: int| 0 <= j < i ==> a@[j] == b@[j],
        decreases a.len() - i,
    {
        if a[i] != b[i] {
            assert(a@ != b@);
            return false;
        }
        i += 1;
    }
    proof {
        assert(a@ =~= b@);
    }
    true
}

/// Equality of a vector against a byte slice.
pub fn bytes_eq_slice(a: &[u8], b: &[u8]) -> (r: bool)
    ensures
        r <==> a@ == b@,
{
    if a.len() != b.len() {
        assert(a@ != b@);
        return false;
    }
    let mut i: usize = 0;
    while i < a.len()
        invariant
            i <= a.len(),
            a@.len() == b@.len(),
            forall|j: int| 0 <= j < i ==> a@[j] == b@[j],
        decreases a.len() - i,
    {
        if a[i] != b[i] {
            assert(a@ != b@);
            return false;
        }
        i += 1;
    }
    proof {
        assert(a@ =~= b@);
    }
    true
}

/// `a` begins with `prefix`.
pub open spec fn has_prefix(a: Seq<u8>, prefix: Seq<u8>) -> bool {
    a.len() >= prefix.len() && a.subrange(0, prefix.len() as int) == prefix
}

/// `a` ends with `suffix`.
pub open spec fn has_suffix(a: Seq<u8>, suffix: Seq<u8>) -> bool {
    a.len() >= suffix.len() && a.subrange(a.len() - suffix.len(), a.len() as int) == suffix
}

pub fn starts_with(a: &[u8], prefix: &[u8]) -> (r: bool)
    ensures
        r <==> has_prefix(a@, prefix@),
{
    if a.len() < prefix.len() {
        return false;
    }
    let mut i: usize = 0;
    while i < prefix.len()
        invariant
            i <= prefix.len(),
            prefix.len() <= a@.len(),
            forall|j: int| 0 <= j < i ==> a@[j] == prefix@[j],
        decreases prefix.len() - i,
    {
        if a[i] != prefix[i] {
            assert(a@.subrange(0, prefix@.len() as int)[i as int] != prefix@[i as int]);
            return false;
        }
        i += 1;
    }
    proof {
        assert(a@.subrange(0, prefix@.len() as int) =~= prefix@);
    }
    true
}

pub fn ends_with(a: &[u8], suffix: &[u8]) -> (r: bool)
    ensures
        r <==> has_suffix(a@, suffix@),
{
    if a.len() < suffix.len() {
        return false;
    }
    let offset = a.len() - suffix.len();
    let mut j: usize = offset;
    while j < a.len()
        invariant
            offset == a@.len() - suffix@.len(),
            offset <= j <= a@.len(),
            forall|k: int| offset <= k < j ==> a@[k] == suffix@[k - offset],
        decreases a.len() - j,
    {
        if a[j] != suffix[j - offset] {
            assert(a@.subrange(a@.len() - suffix@.len(), a@.len() as int)[j - offset]
                != suffix@[j - offset]);
            return false;
        }
        j += 1;
    }
    proof {
        assert(a@.subrange(a@.len() - suffix@.len(), a@.len() as int) =~= suffix@);
    }
    true
}

/// Appends all of `src` onto `dst`.
pub fn push_all(dst: &mut Vec<u8>, src: &[u8])
    ensures
        final(dst)@ == old(dst)@ + src@,
{
    let mut i: usize = 0;
    while i < src.len()
        invariant
            i <= src.len(),
            dst@ == old(dst)@ + src@.subrange(0, i as int),
        decreases src.len() - i,
    {
        dst.push(src[i]);
        proof {
            assert((old(dst)@ + src@.subrange(0, i as int)).push(src@[i as int])
                =~= old(dst)@ + src@.subrange(0, i + 1));
        }
        i += 1;
    }
    proof {
        assert(src@.subrange(0, src@.len() as int) =~= src@);
    }
}

/// A fresh copy of a byte slice.
pub fn to_vec(src: &[u8]) -> (r: Vec<u8>)
    ensures
        r@ == src@,
{
    let mut out: Vec<u8> = Vec::new();
    push_all(&mut out, src);
    proof {
        assert(Seq::<u8>::empty() + src@ =~= src@);
    }
    out
}

/// The position of the first occurrence of `b` at or after `from`.
pub open spec fn first_byte_from(s: Seq<u8>, b: u8, from: int) -> Option<int>
    decreases s.len() - from,
{
    if from >= s.len() {
        None
    } else if s[from] == b {
        Some(from)
    } else {
        first_byte_from(s, b, from + 1)
    }
}

/// `first_byte_from` returns the least position of `b` at or after
/// `from`.
pub proof fn lemma_first_byte_from(s: Seq<u8>, b: u8, from: int)
    requires
        0 <= from,
    ensures
        match first_byte_from(s, b, from) {
            Option::Some(i) => from <= i < s.len() && s[i] == b && (forall|j: int|
                from <= j < i ==> s[j] != b),
            Option::None => forall|j: int| from <= j < s.len() ==> s[j] != b,
        },
    decreases s.len() - from,
{
    if from >= s.len() {
    } else if s[from] == b {
    } else {
        lemma_first_byte_from(s, b, from + 1);
    }
}

/// If the least occurrence of `b` at or after `from` sits at `i`,
/// `first_byte_from` finds exactly `i`.
pub proof fn lemma_first_byte_from_finds(s: Seq<u8>, b: u8, from: int, i: int)
    requires
        0 <= from <= i < s.len(),
        s[i] == b,
        forall|j: int| from <= j < i ==> s[j] != b,
    ensures
        first_byte_from(s, b, from) == Option::Some(i),
    decreases i - from,
{
    if from < i {
        lemma_first_byte_from_finds(s, b, from + 1, i);
    }
}

/// Finds the first occurrence of byte `b` in `s`.
pub fn find_byte(s: &[u8], b: u8) -> (r: Option<usize>)
    ensures
        match r {
            Option::Some(i) => first_byte_from(s@, b, 0) == Option::Some(i as int),
            Option::None => first_byte_from(s@, b, 0) is None,
        },
{
    let mut i: usize = 0;
    while i < s.len()
        invariant
            i <= s@.len(),
            forall|j: int| 0 <= j < i ==> s@[j] != b,
        decreases s.len() - i,
    {
        if s[i] == b {
            proof {
                lemma_first_byte_from_finds(s@, b, 0, i as int);
            }
            return Some(i);
        }
        i += 1;
    }
    proof {
        if first_byte_from(s@, b, 0) is Some {
            lemma_first_byte_from(s@, b, 0);
            assert(false);
        }
    }
    None
}

/// `a` is strictly smaller than `b` in lexicographic byte order: they agree
/// on a prefix, after which `a` either ends or holds the smaller byte.
pub open spec fn lex_lt(a: Seq<u8>, b: Seq<u8>) -> bool {
    exists|k: int|
        0 <= k <= a.len() && k <= b.len() && a.subrange(0, k) == b.subrange(0, k) && ((k == a.len()
            && k < b.len()) || (k < a.len() && k < b.len() && a[k] < b[k]))
}

/// Lexicographic order is transitive.
pub proof fn lemma_lex_transitive(a: Seq<u8>, b: Seq<u8>, c: Seq<u8>)
    requires
        lex_lt(a, b),
        lex_lt(b, c),
    ensures
        lex_lt(a, c),
{
    let k1 = choose|k: int|
        0 <= k <= a.len() && k <= b.len() && a.subrange(0, k) == b.subrange(0, k) && ((k == a.len()
            && k < b.len()) || (k < a.len() && k < b.len() && a[k] < b[k]));
    let k2 = choose|k: int|
        0 <= k <= b.len() && k <= c.len() && b.subrange(0, k) == c.subrange(0, k) && ((k == b.len()
            && k < c.len()) || (k < b.len() && k < c.len() && b[k] < c[k]));
    let k = if k1 <= k2 {
        k1
    } else {
        k2
    };
    assert forall|j: int| 0 <= j < k implies a[j] == b[j] && b[j] == c[j] by {
        assert(a.subrange(0, k1)[j] == b.subrange(0, k1)[j]);
        assert(b.subrange(0, k2)[j] == c.subrange(0, k2)[j]);
    }
    assert(a.subrange(0, k) =~= c.subrange(0, k));
    if k1 < k2 {
        assert(b.subrange(0, k2)[k1] == c.subrange(0, k2)[k1]);
        assert(b[k1] == c[k1]);
        assert((k == a.len() && k < c.len()) || (k < a.len() && k < c.len() && a[k] < c[k]));
    } else if k2 < k1 {
        assert(a.subrange(0, k1)[k2] == b.subrange(0, k1)[k2]);
        assert(a[k2] == b[k2]);
        assert((k < a.len() && k < c.len() && a[k] < c[k]));
    } else {
        if k1 == b.len() {
            assert((k == a.len() && k < c.len()));
        } else {
            assert((k == a.len() && k < c.len()) || (k < a.len() && k < c.len() && a[k] < c[k]));
        }
    }
}

/// Compares two byte strings lexicographically.
pub fn bytes_lex_lt(a: &[u8], b: &[u8]) -> (r: bool)
    ensures
        r <==> lex_lt(a@, b@),
{
    let mut i: usize = 0;
    while i < a.len() && i < b.len()
        invariant
            i <= a@.len(),
            i <= b@.len(),
            forall|j: int| 0 <= j < i ==> a@[j] == b@[j],
        decreases a.len() - i,
    {
        if a[i] < b[i] {
            proof {
                assert(a@.subrange(0, i as int) =~= b@.subrange(0, i as int));
            }
            return true;
        }
        if a[i] > b[i] {
            proof {
                assert forall|k: int|
                    0 <= k <= a@.len() && k <= b@.len() && a@.subrange(0, k) == b@.subrange(0, k)
                        implies !((k == a@.len() && k < b@.len()) || (k < a@.len() && k < b@.len()
                        && a@[k] < b@[k])) by {
                    if k > i {
                        assert(a@.subrange(0, k)[i as int] == b@.subrange(0, k)[i as int]);
                        assert(false);
                    } else if k == i {
                    } else {
                    }
                }
            }
            return false;
        }
        i += 1;
    }
    if a.len() < b.len() {
        proof {
            assert(a@.subrange(0, a@.len() as int) =~= b@.subrange(0, a@.len() as int));
        }
        true
    } else {
        proof {
            assert forall|k: int|
                0 <= k <= a@.len() && k <= b@.len() && a@.subrange(0, k) == b@.subrange(0, k)
                    implies !((k == a@.len() && k < b@.len()) || (k < a@.len() && k < b@.len()
                    && a@[k] < b@[k])) by {}
        }
        false
    }
}

/// The bytes of `a` from `from` (inclusive) to `to` (exclusive).
pub fn sub_vec(a: &[u8], from: usize, to: usize) -> (r: Vec<u8>)
    requires
        from <= to <= a@.len(),
    ensures
        r@ == a@.subrange(from as int, to as int),
{
    let mut out: Vec<u8> = Vec::new();
    let mut i: usize = from;
    while i < to
        invariant
            from <= i <= to <= a@.len(),
            out@ == a@.subrange(from as int, i as int),
        decreases to - i,
    {
        out.push(a[i]);
        proof {
            assert(a@.subrange(from as int, i as int).push(a@[i as int])
                =~= a@.subrange(from as int, i + 1));
        }
        i += 1;
    }
    out
}

} // verus!
