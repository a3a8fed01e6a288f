//! The request parser: extracting the first value bound to a named key in a
//! raw `&`-separated, `=`-delimited query string. Values are returned
//! verbatim, with no decoding.

use vstd::prelude::*;
use crate::text::{
    split_on, first_index_of, to_chars, from_chars, split_chars, lemma_first_index_of,
    lemma_first_index_of_unique, lemma_first_index_of_absent,
};

verus! {

/// The key of a `key=value` segment: the text before the first `=`, or
/// nothing when the segment has no `=` (such a segment binds no key).
pub open spec fn segment_key(seg: Seq<char>) -> Option<Seq<char>> {
    if first_index_of(seg, '=') < seg.len() {
        Some(seg.take(first_index_of(seg, '=')))
    } else {
        None
    }
}

/// The value of a `key=value` segment: the text after the first `=`, kept
/// verbatim (later `=` characters belong to the value).
pub open spec fn segment_value(seg: Seq<char>) -> Seq<char> {
    seg.skip(first_index_of(seg, '=') + 1)
}

/// The first value bound to `key` among `segs`, scanning left to right.
pub open spec fn lookup_in_segments(segs: Seq<Seq<char>>, key: Seq<char>) -> Option<Seq<char>>
    decreases segs.len(),
{
    if segs.len() == 0 {
        None
    } else if segment_key(segs[0]) == Some(key) {
        Some(segment_value(segs[0]))
    } else {
        lookup_in_segments(segs.skip(1), key)
    }
}

/// The first value bound to `key` in the query string, or `None` when no
/// segment binds `key`.
pub open spec fn param_lookup(query: Seq<char>, key: Seq<char>) -> Option<Seq<char>> {
    lookup_in_segments(split_on(query, '&'), key)
}

/// Index of the first occurrence of `c` in `v`, or `v.len()` when absent.
pub fn index_of_char(v: &Vec<char>, c: char) -> (i: usize)
    ensures
        i == first_index_of(v@, c),
{
    let mut i: usize = 0;
    while i < v.len()
        invariant
            0 <= i <= v@.len(),
            forall|j: int| 0 <= j < i ==> v@[j] != c,
        decreases v@.len() - i,
    {
        if v[i] == c {
            proof {
                lemma_first_index_of_unique(v@, c, i as int);
            }
            return i;
        }
        i = i + 1;
    }
    proof {
        lemma_first_index_of_absent(v@, c);
    }
    i
}

/// Whether the first `m` characters of `seg` are exactly `kv`.
fn prefix_matches(seg: &Vec<char>, m: usize, kv: &Vec<char>) -> (r: bool)
    requires
        m <= seg@.len(),
    ensures
        r == (seg@.take(m as int) == kv@),
{
    if m != kv.len() {
        proof {
            assert(seg@.take(m as int).len() == m);
        }
        return false;
    }
    let mut i: usize = 0;
    while i < m
        invariant
            m == kv@.len() <= seg@.len(),
            0 <= i <= m,
            forall|j: int| 0 <= j < i ==> seg@[j] == kv@[j],
        decreases m - i,
    {
        if seg[i] != kv[i] {
            proof {
                assert(seg@.take(m as int)[i as int] == seg@[i as int]);
            }
            return false;
        }
        i = i + 1;
    }
    proof {
        assert(seg@.take(m as int) =~= kv@);
    }
    true
}

/// The first value bound to `key` in `query`, scanning `&`-separated
/// segments left to right; a segment without `=` binds nothing, and the
/// value is returned verbatim.
pub fn get_query_param(query: &str, key: &str) -> (r: Option<String>)
    ensures
        match r {
            Some(s) => param_lookup(query@, key@) == Some(s@),
            None => param_lookup(query@, key@) is None,
        },
{
    let qv = to_chars(query);
    let kv = to_chars(key);
    let segs = split_chars(&qv, '&');
    let ghost sview = segs@.map_values(|p: Vec<char>| p@);
    let mut i: usize = 0;
    proof {
        assert(sview.skip(0) =~= sview);
    }
    while i < segs.len()
        invariant
            sview == segs@.map_values(|p: Vec<char>| p@),
            sview == split_on(query@, '&'),
            kv@ == key@,
            0 <= i <= segs@.len(),
            lookup_in_segments(sview.skip(i as int), key@) == param_lookup(query@, key@),
        decreases segs@.len() - i,
    {
        let seg = &segs[i];
        let ghost segv = sview[i as int];
        proof {
            assert(segv == seg@);
            assert(sview.skip(i as int)[0] == segv);
            assert(sview.skip(i as int).len() == sview.len() - i);
        }
        let m = index_of_char(seg, '=');
        proof {
            lemma_first_index_of(segv, '=');
        }
        if m < seg.len() {
            if prefix_matches(seg, m, &kv) {
                let mut val: Vec<char> = Vec::new();
                let mut j: usize = m + 1;
                while j < seg.len()
                    invariant
                        m + 1 <= j <= seg@.len(),
                        val@ == seg@.subrange(m + 1, j as int),
                    decreases seg@.len() - j,
                {
                    val.push(seg[j]);
                    proof {
                        assert(val@ =~= seg@.subrange(m + 1, j + 1));
                    }
                    j = j + 1;
                }
                let s = from_chars(&val);
                proof {
                    assert(segment_key(segv) == Some(key@));
                    assert(lookup_in_segments(sview.skip(i as int), key@) == Some(
                        segment_value(segv),
                    ));
                    assert(val@ =~= segment_value(segv));
                }
                return Some(s);
            }
        }
        proof {
            if m < seg.len() {
                assert(segv.take(m as int) != key@);
                assert(segment_key(segv) != Some(key@));
            } else {
                assert(segment_key(segv) is None);
            }
            assert(sview.skip(i as int).skip(1) =~= sview.skip(i + 1));
        }
        i = i + 1;
    }
    proof {
        assert(sview.skip(i as int) =~= Seq::<Seq<char>>::empty());
    }
    None
}

/// Helper for `lemma_param_first_occurrence`, by induction over segments.
proof fn lemma_lookup_first(segs: Seq<Seq<char>>, key: Seq<char>, i: int)
    requires
        0 <= i < segs.len(),
        segment_key(segs[i]) == Some(key),
        forall|j: int| 0 <= j < i ==> segment_key(segs[j]) != Some(key),
    ensures
        lookup_in_segments(segs, key) == Some(segment_value(segs[i])),
    decreases i,
{
    if i == 0 {
    } else {
        assert(segment_key(segs[0]) != Some(key));
        assert(forall|j: int| 0 <= j < i - 1 ==> segs.skip(1)[j] == segs[j + 1]);
        lemma_lookup_first(segs.skip(1), key, i - 1);
        assert(segs.skip(1)[i - 1] == segs[i]);
    }
}

/// The first occurrence of a key decides its value: when segment `i` of the
/// query binds `key` and no earlier segment does, the lookup returns exactly
/// the text standing after the first `=` of that segment, unchanged, whatever
/// the other segments hold.
pub proof fn lemma_param_first_occurrence(query: Seq<char>, key: Seq<char>, i: int)
    requires
        0 <= i < split_on(query, '&').len(),
        segment_key(split_on(query, '&')[i]) == Some(key),
        forall|j: int| 0 <= j < i ==> segment_key(split_on(query, '&')[j]) != Some(key),
    ensures
        param_lookup(query, key) == Some(segment_value(split_on(query, '&')[i])),
{
    lemma_lookup_first(split_on(query, '&'), key, i);
}

} // verus!
