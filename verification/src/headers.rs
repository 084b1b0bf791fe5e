//! The custom-header specification string: `key1=value1,key2=value2`,
//! split on commas, each pair split at its first `=`, both sides trimmed.
//! A pair without `=` is skipped, never an error.  A later pair with the
//! same key wins, as repeated insertion into a map would.

use vstd::prelude::*;
use vstd::string::StringSliceAdditionalSpecFns;
use crate::textutil::{bytes_eq, copy_bytes, trim, trim_slice};

verus! {

/// The first position of `b` in `s`, or -1 when it does not occur.
pub open spec fn find_byte(s: Seq<u8>, b: u8) -> int
    decreases s.len(),
{
    if s.len() == 0 {
        -1
    } else if s[0] == b {
        0
    } else {
        let p = find_byte(s.drop_first(), b);
        if p < 0 {
            -1
        } else {
            p + 1
        }
    }
}

/// `s` split on `b`; the separators themselves are dropped.
pub open spec fn split_on(s: Seq<u8>, b: u8) -> Seq<Seq<u8>>
    decreases s.len(),
{
    let i = find_byte(s, b);
    if 0 <= i < s.len() {
        seq![s.take(i)] + split_on(s.skip(i + 1), b)
    } else {
        seq![s]
    }
}

/// What one comma-separated piece contributes: its trimmed key and
/// trimmed value when it holds an `=`, nothing otherwise.
pub open spec fn header_pair(pair: Seq<u8>) -> Option<(Seq<u8>, Seq<u8>)> {
    let e = find_byte(pair, 61);
    if e < 0 {
        None
    } else {
        Some((trim(pair.take(e)), trim(pair.skip(e + 1))))
    }
}

/// The pairs the pieces contribute, in order, pieces without `=` skipped.
pub open spec fn pairs_of(parts: Seq<Seq<u8>>) -> Seq<(Seq<u8>, Seq<u8>)>
    decreases parts.len(),
{
    if parts.len() == 0 {
        Seq::empty()
    } else {
        match header_pair(parts[0]) {
            Some(p) => seq![p] + pairs_of(parts.drop_first()),
            None => pairs_of(parts.drop_first()),
        }
    }
}

/// Everything a header specification string yields, in order.
pub open spec fn headers_of(s: Seq<u8>) -> Seq<(Seq<u8>, Seq<u8>)> {
    pairs_of(split_on(s, 44))
}

/// The value of the last pair carrying `key`, the one that wins.
pub open spec fn lookup_pairs(ps: Seq<(Seq<u8>, Seq<u8>)>, key: Seq<u8>) -> Option<Seq<u8>>
    decreases ps.len(),
{
    if ps.len() == 0 {
        None
    } else if ps.last().0 == key {
        Some(ps.last().1)
    } else {
        lookup_pairs(ps.drop_last(), key)
    }
}

/// The parsed custom headers.
pub struct Headers {
    pairs: Vec<(Vec<u8>, Vec<u8>)>,
}

impl View for Headers {
    type V = Seq<(Seq<u8>, Seq<u8>)>;

    closed spec fn view(&self) -> Seq<(Seq<u8>, Seq<u8>)> {
        self.pairs@.map_values(|p: (Vec<u8>, Vec<u8>)| (p.0@, p.1@))
    }
}

proof fn lemma_lookup_ignores_tail(ps: Seq<(Seq<u8>, Seq<u8>)>, key: Seq<u8>, i: int)
    requires
        0 <= i <= ps.len(),
        forall|j: int| i <= j < ps.len() ==> ps[j].0 != key,
    ensures
        lookup_pairs(ps, key) == lookup_pairs(ps.take(i), key),
    decreases ps.len() - i,
{
    if i < ps.len() {
        assert(ps.last().0 != key);
        assert(ps.drop_last() =~= ps.take(ps.len() - 1));
        lemma_lookup_ignores_tail(ps.take(ps.len() - 1), key, i);
        assert(ps.take(ps.len() - 1).take(i) =~= ps.take(i));
    } else {
        assert(ps.take(i) =~= ps);
    }
}

impl Headers {
    /// The winning value for `key`, when the string defined one.
    pub fn get(&self, key: &[u8]) -> (r: Option<Vec<u8>>)
        ensures
            match r {
                Some(v) => lookup_pairs(self@, key@) == Some(v@),
                None => lookup_pairs(self@, key@) is None,
            },
    {
        let ghost ps = self@;
        let mut i: usize = self.pairs.len();
        while i > 0
            invariant
                0 <= i <= self.pairs@.len(),
                ps == self@,
                ps.len() == self.pairs@.len(),
                forall|j: int| i <= j < ps.len() ==> ps[j].0 != key@,
            decreases i,
        {
            i = i - 1;
            proof {
                assert(ps[i as int] == (self.pairs@[i as int].0@, self.pairs@[i as int].1@));
            }
            if bytes_eq(self.pairs[i].0.as_slice(), key) {
                proof {
                    lemma_lookup_ignores_tail(ps, key@, i + 1);
                    assert(ps.take(i + 1).last() == ps[i as int]);
                    assert(ps.take(i + 1).drop_last() =~= ps.take(i as int));
                }
                return Some(copy_bytes(self.pairs[i].1.as_slice()));
            }
        }
        proof {
            assert(ps.take(0) =~= Seq::<(Seq<u8>, Seq<u8>)>::empty());
            lemma_lookup_ignores_tail(ps, key@, 0);
        }
        None
    }

    /// How many pairs the string yielded.
    pub fn len(&self) -> (r: usize)
        ensures
            r == self@.len(),
    {
        self.pairs.len()
    }

    /// The pairs, in order, as owned values.
    pub fn to_pairs(&self) -> (r: Vec<(Vec<u8>, Vec<u8>)>)
        ensures
            r@.map_values(|p: (Vec<u8>, Vec<u8>)| (p.0@, p.1@)) == self@,
    {
        let mut r: Vec<(Vec<u8>, Vec<u8>)> = Vec::new();
        let mut i: usize = 0;
        while i < self.pairs.len()
            invariant
                0 <= i <= self.pairs@.len(),
                self@.len() == self.pairs@.len(),
                r@.len() == i,
                forall|j: int|
                    0 <= j < i ==> (#[trigger] r@[j].0@, r@[j].1@) == self@[j],
            decreases self.pairs@.len() - i,
        {
            proof {
                assert(self@[i as int] == (self.pairs@[i as int].0@, self.pairs@[i as int].1@));
            }
            let k = copy_bytes(self.pairs[i].0.as_slice());
            let v = copy_bytes(self.pairs[i].1.as_slice());
            r.push((k, v));
            i = i + 1;
        }
        proof {
            assert(r@.map_values(|p: (Vec<u8>, Vec<u8>)| (p.0@, p.1@)) =~= self@);
        }
        r
    }
}

proof fn lemma_find_byte_skip(s: Seq<u8>, b: u8, i: int)
    requires
        0 <= i <= s.len(),
        forall|j: int| 0 <= j < i ==> s[j] != b,
    ensures
        find_byte(s, b) == (if find_byte(s.skip(i), b) < 0 {
            -1int
        } else {
            find_byte(s.skip(i), b) + i
        }),
    decreases i,
{
    if i == 0 {
        assert(s.skip(0) =~= s);
    } else {
        assert(s[0] != b);
        let t = s.drop_first();
        lemma_find_byte_skip(t, b, i - 1);
        assert(t.skip(i - 1) =~= s.skip(i));
    }
}

/// The first position of `b` in `s` at or after `from`.
fn find_byte_from(s: &[u8], b: u8, from: usize) -> (r: Option<usize>)
    requires
        from <= s@.len(),
    ensures
        match r {
            Some(j) => from <= j < s@.len() && s@[j as int] == b
                && find_byte(s@.skip(from as int), b) == j - from,
            None => find_byte(s@.skip(from as int), b) == -1,
        },
{
    let ghost t = s@.skip(from as int);
    let mut i: usize = from;
    while i < s.len()
        invariant
            from <= i <= s@.len(),
            t == s@.skip(from as int),
            forall|j: int| 0 <= j < i - from ==> t[j] != b,
        decreases s@.len() - i,
    {
        proof {
            assert(t[i - from] == s@[i as int]);
        }
        if s[i] == b {
            proof {
                lemma_find_byte_skip(t, b, i - from);
                assert(t.skip(i - from)[0] == t[i - from]);
            }
            return Some(i);
        }
        i = i + 1;
    }
    proof {
        lemma_find_byte_skip(t, b, t.len() as int);
        assert(t.skip(t.len() as int) =~= Seq::<u8>::empty());
    }
    None
}

/// One comma-separated piece, parsed: the trimmed text on each side of
/// the first `=`, or nothing when the piece has no `=`.
fn parse_pair(pair: &[u8]) -> (r: Option<(Vec<u8>, Vec<u8>)>)
    ensures
        match r {
            Some(p) => header_pair(pair@) == Some((p.0@, p.1@)),
            None => header_pair(pair@) is None,
        },
{
    match find_byte_from(pair, 61, 0) {
        None => {
            proof {
                assert(pair@.skip(0) =~= pair@);
            }
            None
        },
        Some(e) => {
            proof {
                assert(pair@.skip(0) =~= pair@);
            }
            let n = pair.len();
            let key_part = &pair[0..e];
            let val_part = &pair[e + 1..n];
            proof {
                assert(key_part@ =~= pair@.take(e as int));
                assert(val_part@ =~= pair@.skip(e as int + 1));
            }
            let key = trim_slice(key_part);
            let val = trim_slice(val_part);
            Some((copy_bytes(key), copy_bytes(val)))
        },
    }
}

/// Parses a custom-header specification string.  Every well-formed
/// `key=value` pair is kept, in order, trimmed; malformed pieces are
/// dropped, never a failure.
pub fn parse_custom_headers(s: &str) -> (r: Headers)
    ensures
        r@ == headers_of(s.spec_bytes()),
{
    let b = s.as_bytes();
    let mut pairs: Vec<(Vec<u8>, Vec<u8>)> = Vec::new();
    let ghost goal = headers_of(b@);
    let mut start: usize = 0;
    let mut finished = false;
    proof {
        assert(b@.skip(0) =~= b@);
        assert(pairs@.map_values(|p: (Vec<u8>, Vec<u8>)| (p.0@, p.1@)) =~= Seq::<(
            Seq<u8>,
            Seq<u8>,
        )>::empty());
    }
    while !finished
        invariant
            0 <= start <= b@.len(),
            !finished ==> goal == pairs@.map_values(|p: (Vec<u8>, Vec<u8>)| (p.0@, p.1@))
                + pairs_of(split_on(b@.skip(start as int), 44)),
            finished ==> goal == pairs@.map_values(|p: (Vec<u8>, Vec<u8>)| (p.0@, p.1@)),
        decreases b@.len() - start + (if finished {
            0int
        } else {
            1int
        }),
    {
        let ghost rest = b@.skip(start as int);
        let ghost done_pairs = pairs@.map_values(|p: (Vec<u8>, Vec<u8>)| (p.0@, p.1@));
        let blen = b.len();
        let (seg_end, next, last) = match find_byte_from(b, 44, start) {
            Some(j) => (j, j + 1, false),
            None => (blen, blen, true),
        };
        let piece = &b[start..seg_end];
        proof {
            assert(piece@ =~= b@.subrange(start as int, seg_end as int));
            if last {
                assert(piece@ =~= rest);
                assert(split_on(rest, 44) =~= seq![rest]);
            } else {
                assert(find_byte(rest, 44) == seg_end - start);
                assert(rest.take(seg_end - start) =~= piece@);
                assert(rest.skip(seg_end - start + 1) =~= b@.skip(next as int));
                assert(split_on(rest, 44) =~= seq![piece@] + split_on(b@.skip(next as int), 44));
            }
        }
        let ghost parts = split_on(rest, 44);
        proof {
            assert(parts[0] == piece@);
            assert(parts.len() > 0);
        }
        match parse_pair(piece) {
            Some(p) => {
                proof {
                    assert(pairs_of(parts) == seq![(p.0@, p.1@)] + pairs_of(parts.drop_first()));
                }
                pairs.push(p);
                proof {
                    assert(pairs@.map_values(|q: (Vec<u8>, Vec<u8>)| (q.0@, q.1@)) =~= done_pairs
                        + seq![(p.0@, p.1@)]);
                    assert(done_pairs + (seq![(p.0@, p.1@)] + pairs_of(parts.drop_first())) =~= (
                    done_pairs + seq![(p.0@, p.1@)]) + pairs_of(parts.drop_first()));
                }
            },
            None => {
                proof {
                    assert(pairs_of(parts) == pairs_of(parts.drop_first()));
                }
            },
        }
        proof {
            if last {
                assert(parts.drop_first() =~= Seq::<Seq<u8>>::empty());
                assert(pairs_of(parts.drop_first()) =~= Seq::<(Seq<u8>, Seq<u8>)>::empty());
            } else {
                assert(parts.drop_first() =~= split_on(b@.skip(next as int), 44));
            }
        }
        start = next;
        finished = last;
        proof {
            if finished {
                assert(goal == pairs@.map_values(|p: (Vec<u8>, Vec<u8>)| (p.0@, p.1@)) + Seq::<(
                    Seq<u8>,
                    Seq<u8>,
                )>::empty());
                assert(goal =~= pairs@.map_values(|p: (Vec<u8>, Vec<u8>)| (p.0@, p.1@)));
            }
        }
    }
    Headers { pairs }
}

} // verus!
