//! Character-sequence utilities: splitting on a separator character and
//! substring containment, with executable counterparts proved against the
//! specification functions.

use vstd::prelude::*;

verus! {

/// Index of the first occurrence of `c` in `s`, or `s.len()` when `c` does
/// not occur.
pub open spec fn first_index_of(s: Seq<char>, c: char) -> int
    decreases s.len(),
{
    if s.len() == 0 {
        0
    } else if s[0] == c {
        0
    } else {
        1 + first_index_of(s.skip(1), c)
    }
}

pub proof fn lemma_first_index_of(s: Seq<char>, c: char)
    ensures
        0 <= first_index_of(s, c) <= s.len(),
        first_index_of(s, c) < s.len() ==> s[first_index_of(s, c)] == c,
        forall|j: int| 0 <= j < first_index_of(s, c) ==> s[j] != c,
    decreases s.len(),
{
    if s.len() == 0 {
    } else if s[0] == c {
    } else {
        lemma_first_index_of(s.skip(1), c);
        let i = first_index_of(s, c);
        assert forall|j: int| 0 <= j < i implies s[j] != c by {
            if j > 0 {
                assert(s.skip(1)[j - 1] == s[j]);
            }
        }
        if i < s.len() {
            assert(s.skip(1)[i - 1] == s[i]);
        }
    }
}

/// `first_index_of` is the only index with nothing equal to `c` before it
/// and `c` at it.
pub proof fn lemma_first_index_of_unique(s: Seq<char>, c: char, m: int)
    requires
        0 <= m < s.len(),
        s[m] == c,
        forall|j: int| 0 <= j < m ==> s[j] != c,
    ensures
        first_index_of(s, c) == m,
{
    lemma_first_index_of(s, c);
    let i = first_index_of(s, c);
    if i < m {
        assert(s[i] != c);
    }
    if m < i {
        assert(s[m] != c);
    }
}

/// When `c` does not occur in `s`, `first_index_of` is `s.len()`.
pub proof fn lemma_first_index_of_absent(s: Seq<char>, c: char)
    requires
        forall|j: int| 0 <= j < s.len() ==> s[j] != c,
    ensures
        first_index_of(s, c) == s.len(),
{
    lemma_first_index_of(s, c);
    let i = first_index_of(s, c);
    if i < s.len() {
        assert(s[i] != c);
    }
}

/// Split `s` at every occurrence of `sep`: `n` separators yield `n + 1`
/// parts, in order, none containing `sep`.
pub open spec fn split_on(s: Seq<char>, sep: char) -> Seq<Seq<char>>
    decreases s.len(),
{
    if s.len() == 0 {
        seq![Seq::<char>::empty()]
    } else if s[0] == sep {
        seq![Seq::<char>::empty()] + split_on(s.skip(1), sep)
    } else {
        let rest = split_on(s.skip(1), sep);
        seq![seq![s[0]] + rest[0]] + rest.skip(1)
    }
}

pub proof fn lemma_split_on_len(s: Seq<char>, sep: char)
    ensures
        split_on(s, sep).len() >= 1,
    decreases s.len(),
{
    if s.len() > 0 {
        lemma_split_on_len(s.skip(1), sep);
    }
}

/// When `sep` does not occur in `s`, the split is `s` alone.
pub proof fn lemma_split_on_absent(s: Seq<char>, sep: char)
    requires
        forall|j: int| 0 <= j < s.len() ==> s[j] != sep,
    ensures
        split_on(s, sep) == seq![s],
    decreases s.len(),
{
    if s.len() == 0 {
        assert(split_on(s, sep) =~~= seq![s]);
    } else {
        assert(forall|j: int| 0 <= j < s.skip(1).len() ==> s.skip(1)[j] == s[j + 1]);
        lemma_split_on_absent(s.skip(1), sep);
        let rest = split_on(s.skip(1), sep);
        assert(rest == seq![s.skip(1)]);
        assert(seq![s[0]] + s.skip(1) =~= s);
        assert(split_on(s, sep) =~~= seq![s]);
    }
}

/// Peeling the first part off the split: the part before the first `sep`,
/// then the split of everything after it.
pub proof fn lemma_split_on_decompose(s: Seq<char>, sep: char)
    requires
        first_index_of(s, sep) < s.len(),
    ensures
        split_on(s, sep) == seq![s.take(first_index_of(s, sep))] + split_on(
            s.skip(first_index_of(s, sep) + 1),
            sep,
        ),
    decreases s.len(),
{
    lemma_first_index_of(s, sep);
    let i = first_index_of(s, sep);
    if i == 0 {
        assert(s[0] == sep);
        assert(s.take(0) =~= Seq::<char>::empty());
        assert(split_on(s, sep) =~~= seq![s.take(0)] + split_on(s.skip(1), sep));
    } else {
        assert(s[0] != sep);
        assert(first_index_of(s.skip(1), sep) == i - 1);
        lemma_split_on_decompose(s.skip(1), sep);
        let rest = split_on(s.skip(1), sep);
        assert(rest == seq![s.skip(1).take(i - 1)] + split_on(s.skip(1).skip(i), sep));
        assert(seq![s[0]] + s.skip(1).take(i - 1) =~= s.take(i));
        assert(s.skip(1).skip(i) =~= s.skip(i + 1));
        assert(rest[0] == s.skip(1).take(i - 1));
        assert(rest.skip(1) =~~= split_on(s.skip(i + 1), sep));
        assert(split_on(s, sep) =~~= seq![s.take(i)] + split_on(s.skip(i + 1), sep));
    }
}

/// `needle` occurs contiguously somewhere in `hay`.
pub open spec fn contains_seq(hay: Seq<char>, needle: Seq<char>) -> bool {
    exists|i: int|
        0 <= i && i + needle.len() <= hay.len() && #[trigger] hay.subrange(i, i + needle.len())
            == needle
}

/// The characters of `s`, as a vector.
pub fn to_chars(s: &str) -> (v: Vec<char>)
    ensures
        v@ == s@,
{
    let n = s.unicode_len();
    let mut v: Vec<char> = Vec::new();
    let mut i: usize = 0;
    while i < n
        invariant
            n == s@.len(),
            0 <= i <= n,
            v@ == s@.take(i as int),
        decreases n - i,
    {
        let c = s.get_char(i);
        v.push(c);
        proof {
            assert(v@ =~= s@.take(i + 1));
        }
        i = i + 1;
    }
    proof {
        assert(s@.take(n as int) =~= s@);
    }
    v
}

/// Relies on `String::push`: appends the given character to the end of the
/// string.
#[verifier::external_body]
pub fn push_char(s: &mut String, c: char)
    ensures
        final(s)@ == old(s)@.push(c),
{
    s.push(c)
}

/// A string holding exactly the characters of `v`.
pub fn from_chars(v: &Vec<char>) -> (s: String)
    ensures
        s@ == v@,
{
    let mut s = String::new();
    let mut i: usize = 0;
    while i < v.len()
        invariant
            0 <= i <= v@.len(),
            s@ == v@.take(i as int),
        decreases v@.len() - i,
    {
        push_char(&mut s, v[i]);
        proof {
            assert(s@ =~= v@.take(i + 1));
        }
        i = i + 1;
    }
    proof {
        assert(v@.take(v@.len() as int) =~= v@);
    }
    s
}

/// Split `v` at every occurrence of `sep`, matching `split_on`.
pub fn split_chars(v: &Vec<char>, sep: char) -> (parts: Vec<Vec<char>>)
    ensures
        parts@.map_values(|p: Vec<char>| p@) == split_on(v@, sep),
{
    let mut parts: Vec<Vec<char>> = Vec::new();
    let mut pos: usize = 0;
    proof {
        assert(v@.skip(0) =~= v@);
        assert(parts@.map_values(|p: Vec<char>| p@) + split_on(v@, sep) =~~= split_on(v@, sep));
    }
    loop
        invariant
            0 <= pos <= v@.len(),
            parts@.map_values(|p: Vec<char>| p@) + split_on(v@.skip(pos as int), sep) == split_on(
                v@,
                sep,
            ),
        decreases v@.len() - pos,
    {
        let mut j: usize = pos;
        let mut part: Vec<char> = Vec::new();
        while j < v.len() && v[j] != sep
            invariant
                pos <= j <= v@.len(),
                part@ == v@.subrange(pos as int, j as int),
                forall|k: int| pos <= k < j ==> v@[k] != sep,
            decreases v@.len() - j,
        {
            part.push(v[j]);
            proof {
                assert(part@ =~= v@.subrange(pos as int, j + 1));
            }
            j = j + 1;
        }
        let ghost rem = v@.skip(pos as int);
        let ghost pm = parts@.map_values(|p: Vec<char>| p@);
        proof {
            assert(forall|k: int| 0 <= k < rem.len() ==> rem[k] == v@[pos + k]);
        }
        if j < v.len() {
            proof {
                assert(rem[j - pos] == v@[j as int]);
                lemma_first_index_of_unique(rem, sep, j - pos);
                lemma_split_on_decompose(rem, sep);
                assert(rem.take(j - pos) =~= part@);
                assert(rem.skip(j - pos + 1) =~= v@.skip(j + 1));
            }
            parts.push(part);
            pos = j + 1;
            proof {
                assert(parts@.map_values(|p: Vec<char>| p@) =~= pm.push(part@));
                assert(pm.push(part@) + split_on(v@.skip(pos as int), sep) =~~= pm + (seq![part@]
                    + split_on(v@.skip(pos as int), sep)));
            }
        } else {
            proof {
                assert(rem =~= part@);
                lemma_split_on_absent(rem, sep);
            }
            parts.push(part);
            proof {
                assert(parts@.map_values(|p: Vec<char>| p@) =~= pm.push(part@));
                assert(pm.push(part@) =~~= pm + seq![part@]);
            }
            return parts;
        }
    }
}

/// Whether `needle` occurs as a contiguous run in `hay`, matching
/// `contains_seq`.
pub fn contains_chars(hay: &Vec<char>, needle: &Vec<char>) -> (r: bool)
    ensures
        r == contains_seq(hay@, needle@),
{
    let hl = hay.len();
    let nl = needle.len();
    if nl == 0 {
        proof {
            assert(hay@.subrange(0, 0 + needle@.len() as int) =~= needle@);
        }
        return true;
    }
    if nl > hl {
        return false;
    }
    let bound = hl - nl;
    let mut i: usize = 0;
    while i <= bound
        invariant
            hl == hay@.len(),
            nl == needle@.len(),
            1 <= nl <= hl,
            bound == hl - nl,
            0 <= i <= bound + 1,
            forall|x: int|
                0 <= x < i ==> #[trigger] hay@.subrange(x, x + needle@.len()) != needle@,
        decreases bound + 1 - i,
    {
        let mut k: usize = 0;
        let mut matches: bool = true;
        while k < nl
            invariant
                hl == hay@.len(),
                nl == needle@.len(),
                0 <= i <= hl - nl,
                0 <= k <= nl,
                matches <==> (forall|y: int| 0 <= y < k ==> hay@[i + y] == needle@[y]),
            decreases nl - k,
        {
            if hay[i + k] != needle[k] {
                matches = false;
                k = nl;
            } else {
                k = k + 1;
            }
        }
        if matches {
            proof {
                assert(hay@.subrange(i as int, i + needle@.len()) =~= needle@);
            }
            return true;
        }
        proof {
            let y = choose|y: int| 0 <= y < nl && hay@[i + y] != needle@[y];
            assert(hay@.subrange(i as int, i + needle@.len())[y] == hay@[i + y]);
            assert(hay@.subrange(i as int, i + needle@.len()) != needle@);
        }
        i = i + 1;
    }
    proof {
        assert(forall|x: int|
            0 <= x && x + needle@.len() <= hay@.len() ==> #[trigger] hay@.subrange(
                x,
                x + needle@.len(),
            ) != needle@);
    }
    false
}

} // verus!
