//! Strings as sequences of characters.

use vstd::prelude::*;

verus! {

/// `i` is where `c` first stands in `s`, or the length of `s` where `c`
/// does not stand in it.
pub open spec fn is_first_index_of(s: Seq<char>, c: char, i: int) -> bool {
    &&& 0 <= i <= s.len()
    &&& forall|j: int| 0 <= j < i ==> s[j] != c
    &&& i < s.len() ==> s[i] == c
}

/// The index at which `c` first stands in `s`; the length of `s` where `c`
/// does not stand in it.
pub open spec fn first_index_of(s: Seq<char>, c: char) -> int {
    choose|i: int| is_first_index_of(s, c, i)
}

/// Every sequence has a first index of `c`.
pub proof fn lemma_first_index_exists(s: Seq<char>, c: char)
    ensures
        is_first_index_of(s, c, first_index_of(s, c)),
{
    lemma_first_index_from(s, c, 0);
}

/// Where `c` does not stand before `k`, there is a first index of `c` at
/// `k` or after it.
proof fn lemma_first_index_from(s: Seq<char>, c: char, k: int)
    requires
        0 <= k <= s.len(),
        forall|j: int| 0 <= j < k ==> s[j] != c,
    ensures
        exists|i: int| is_first_index_of(s, c, i),
    decreases s.len() - k,
{
    if k == s.len() || s[k] == c {
        assert(is_first_index_of(s, c, k));
    } else {
        lemma_first_index_from(s, c, k + 1);
    }
}

/// There is one first index only.
pub proof fn lemma_first_index_of(s: Seq<char>, c: char, i: int)
    requires
        is_first_index_of(s, c, i),
    ensures
        first_index_of(s, c) == i,
{
    let k = first_index_of(s, c);
    assert(is_first_index_of(s, c, k));
    if k < i {
        assert(s[k] == c);
    } else if i < k {
        assert(s[i] == c);
    }
}

/// The characters of `s`, in a vector that can be indexed in constant time.
pub fn chars_of(s: &str) -> (v: Vec<char>)
    ensures
        v@ == s@,
{
    let mut v: Vec<char> = Vec::new();
    for c in it: s.chars()
        invariant
            v@ == it.seq().take(it.index()),
            it.seq() == s@,
    {
        v.push(c);
    }
    v
}

/// Finds the first `c` in `v`.
pub fn find_first(v: &Vec<char>, c: char) -> (i: usize)
    ensures
        i == first_index_of(v@, c),
        0 <= i <= v.len(),
{
    let mut i: usize = 0;
    while i < v.len() && v[i] != c
        invariant
            0 <= i <= v.len(),
            forall|j: int| 0 <= j < i ==> v@[j] != c,
        decreases v.len() - i,
    {
        i += 1;
    }
    proof {
        lemma_first_index_of(v@, c, i as int);
    }
    i
}

} // verus!
