//! Byte-level text helpers shared by the SSE line scanner and the
//! header-string parser: whitespace trimming, prefix tests, equality.

use vstd::prelude::*;

verus! {

/// ASCII whitespace, the only whitespace the wire format uses.
pub open spec fn is_ws(b: u8) -> bool {
    b == 32 || b == 9 || b == 13 || b == 10
}

/// `s` with its leading whitespace removed.
pub open spec fn trim_start(s: Seq<u8>) -> Seq<u8>
    decreases s.len(),
{
    if s.len() > 0 && is_ws(s[0]) {
        trim_start(s.drop_first())
    } else {
        s
    }
}

/// `s` with its trailing whitespace removed.
pub open spec fn trim_end(s: Seq<u8>) -> Seq<u8>
    decreases s.len(),
{
    if s.len() > 0 && is_ws(s[s.len() - 1]) {
        trim_end(s.drop_last())
    } else {
        s
    }
}

/// `s` with whitespace removed on both sides.
pub open spec fn trim(s: Seq<u8>) -> Seq<u8> {
    trim_end(trim_start(s))
}

/// True when `pre` is a prefix of `s`.
pub open spec fn is_prefix_of(pre: Seq<u8>, s: Seq<u8>) -> bool {
    pre.len() <= s.len() && s.subrange(0, pre.len() as int) == pre
}

proof fn lemma_trim_start_skips(s: Seq<u8>, i: int)
    requires
        0 <= i <= s.len(),
        forall|j: int| 0 <= j < i ==> is_ws(s[j]),
    ensures
        trim_start(s) == trim_start(s.subrange(i, s.len() as int)),
    decreases i,
{
    if i > 0 {
        assert(is_ws(s[0]));
        assert(s.drop_first() =~= s.subrange(1, s.len() as int));
        let t = s.subrange(1, s.len() as int);
        lemma_trim_start_skips(t, i - 1);
        assert(t.subrange(i - 1, t.len() as int) =~= s.subrange(i, s.len() as int));
    } else {
        assert(s.subrange(0, s.len() as int) =~= s);
    }
}

proof fn lemma_trim_end_skips(s: Seq<u8>, i: int)
    requires
        0 <= i <= s.len(),
        forall|j: int| i <= j < s.len() ==> is_ws(s[j]),
    ensures
        trim_end(s) == trim_end(s.subrange(0, i)),
    decreases s.len() - i,
{
    if i < s.len() {
        assert(is_ws(s[s.len() - 1]));
        assert(s.drop_last() =~= s.subrange(0, s.len() - 1));
        let t = s.subrange(0, s.len() - 1);
        lemma_trim_end_skips(t, i);
        assert(t.subrange(0, i) =~= s.subrange(0, i));
    } else {
        assert(s.subrange(0, s.len() as int) =~= s);
    }
}

/// The subrange that survives trimming, named by its end points.
proof fn lemma_trim_is_subrange(s: Seq<u8>, lo: int, hi: int)
    requires
        0 <= lo <= hi <= s.len(),
        forall|j: int| 0 <= j < lo ==> is_ws(s[j]),
        forall|j: int| hi <= j < s.len() ==> is_ws(s[j]),
        lo == hi || !is_ws(s[lo]),
        lo == hi || !is_ws(s[hi - 1]),
    ensures
        trim(s) == s.subrange(lo, hi),
{
    if lo == hi {
        lemma_trim_start_skips(s, s.len() as int);
        assert(s.subrange(s.len() as int, s.len() as int) =~= Seq::<u8>::empty());
        assert(trim_start(s) =~= Seq::<u8>::empty());
        assert(trim_end(Seq::<u8>::empty()) =~= Seq::<u8>::empty());
        assert(s.subrange(lo, hi) =~= Seq::<u8>::empty());
    } else {
        lemma_trim_start_skips(s, lo);
        let t = s.subrange(lo, s.len() as int);
        assert(!is_ws(t[0]));
        assert(trim_start(t) == t);
        lemma_trim_end_skips(t, hi - lo);
        assert(t.subrange(0, hi - lo) =~= s.subrange(lo, hi));
    }
}

/// The trimmed view of a byte slice.
pub fn trim_slice(s: &[u8]) -> (r: &[u8])
    ensures
        r@ == trim(s@),
{
    let mut lo: usize = 0;
    while lo < s.len() && is_ws_byte(s[lo])
        invariant
            0 <= lo <= s@.len(),
            forall|j: int| 0 <= j < lo ==> is_ws(s@[j]),
        decreases s@.len() - lo,
    {
        lo = lo + 1;
    }
    let mut hi: usize = s.len();
    while hi > lo && is_ws_byte(s[hi - 1])
        invariant
            lo <= hi <= s@.len(),
            forall|j: int| hi <= j < s@.len() ==> is_ws(s@[j]),
        decreases hi,
    {
        hi = hi - 1;
    }
    proof {
        lemma_trim_is_subrange(s@, lo as int, hi as int);
    }
    &s[lo..hi]
}

/// Executable mirror of `is_ws`.
pub fn is_ws_byte(b: u8) -> (r: bool)
    ensures
        r == is_ws(b),
{
    b == 32 || b == 9 || b == 13 || b == 10
}

/// Byte-for-byte equality of two slices.
pub fn bytes_eq(a: &[u8], b: &[u8]) -> (r: bool)
    ensures
        r == (a@ == b@),
{
    if a.len() != b.len() {
        proof {
            assert(a@.len() != b@.len());
        }
        return false;
    }
    let mut i: usize = 0;
    while i < a.len()
        invariant
            0 <= i <= a@.len(),
            a@.len() == b@.len(),
            forall|j: int| 0 <= j < i ==> a@[j] == b@[j],
        decreases a@.len() - i,
    {
        if a[i] != b[i] {
            return false;
        }
        i = i + 1;
    }
    proof {
        assert(a@ =~= b@);
    }
    true
}

/// An owned copy of a byte slice.
pub fn copy_bytes(s: &[u8]) -> (r: Vec<u8>)
    ensures
        r@ == s@,
{
    let mut r: Vec<u8> = Vec::new();
    let mut i: usize = 0;
    while i < s.len()
        invariant
            0 <= i <= s@.len(),
            r@ == s@.subrange(0, i as int),
        decreases s@.len() - i,
    {
        r.push(s[i]);
        proof {
            assert(r@ =~= s@.subrange(0, i + 1));
        }
        i = i + 1;
    }
    proof {
        assert(s@.subrange(0, s@.len() as int) =~= s@);
    }
    r
}

/// True when `s` starts with `pre`.
pub fn starts_with(s: &[u8], pre: &[u8]) -> (r: bool)
    ensures
        r == is_prefix_of(pre@, s@),
{
    if pre.len() > s.len() {
        return false;
    }
    let head = &s[0..pre.len()];
    bytes_eq(head, pre)
}

} // verus!
