//! The alphabetical order of page names, and lists sorted by it.
//!
//! Names are compared character by character, by the code of the character;
//! a name comes before every longer name that begins with it.

use crate::text::chars_of;
use vstd::prelude::*;

verus! {

/// `a` and `b` hold the same characters at the first `k` places.
pub open spec fn agree_upto(a: Seq<char>, b: Seq<char>, k: int) -> bool {
    &&& 0 <= k <= a.len()
    &&& k <= b.len()
    &&& forall|j: int| 0 <= j < k ==> a[j] == b[j]
}

/// `a` comes before `b` in the alphabet: at the first place where the two
/// differ, `a` has the smaller character, or `a` ends there and `b` does
/// not.
pub open spec fn page_before(a: Seq<char>, b: Seq<char>) -> bool {
    exists|k: int| #[trigger]
        agree_upto(a, b, k) && k < b.len() && (k == a.len() || a[k] < b[k])
}

/// Each name of `pages` comes before every later one; so none stands twice.
pub open spec fn ascending(pages: Seq<Seq<char>>) -> bool {
    forall|i: int, j: int| 0 <= i < j < pages.len() ==> page_before(pages[i], pages[j])
}

/// The names that a list of strings holds.
pub open spec fn texts(v: Seq<String>) -> Seq<Seq<char>> {
    Seq::new(v.len(), |i: int| v[i]@)
}

/// No name comes before itself.
pub proof fn lemma_before_irreflexive(a: Seq<char>)
    ensures
        !page_before(a, a),
{
}

/// The order is transitive.
pub proof fn lemma_before_transitive(a: Seq<char>, b: Seq<char>, c: Seq<char>)
    requires
        page_before(a, b),
        page_before(b, c),
    ensures
        page_before(a, c),
{
    let k1 = choose|k: int| #[trigger]
        agree_upto(a, b, k) && k < b.len() && (k == a.len() || a[k] < b[k]);
    let k2 = choose|k: int| #[trigger]
        agree_upto(b, c, k) && k < c.len() && (k == b.len() || b[k] < c[k]);
    let k = if k1 <= k2 {
        k1
    } else {
        k2
    };
    assert(agree_upto(a, c, k));
}

/// Of two names that differ, one comes before the other.
pub proof fn lemma_before_total(a: Seq<char>, b: Seq<char>)
    ensures
        a == b || page_before(a, b) || page_before(b, a),
{
    lemma_first_difference(a, b, 0);
}

/// From a place up to which two names agree, there is a first place at
/// which they differ or one of them ends, unless they are equal.
proof fn lemma_first_difference(a: Seq<char>, b: Seq<char>, k: int)
    requires
        agree_upto(a, b, k),
    ensures
        a == b || page_before(a, b) || page_before(b, a),
    decreases a.len() - k,
{
    if k == a.len() && k == b.len() {
        assert(a =~= b);
    } else if k == a.len() {
        assert(agree_upto(a, b, k));
    } else if k == b.len() {
        assert(agree_upto(b, a, k));
    } else if a[k] < b[k] {
        assert(agree_upto(a, b, k));
    } else if b[k] < a[k] {
        assert(agree_upto(b, a, k));
    } else {
        assert(agree_upto(a, b, k + 1));
        lemma_first_difference(a, b, k + 1);
    }
}

/// Two ascending lists that hold the same names are the same list.
pub proof fn lemma_ascending_unique(a: Seq<Seq<char>>, b: Seq<Seq<char>>)
    requires
        ascending(a),
        ascending(b),
        forall|x: Seq<char>| a.contains(x) <==> b.contains(x),
    ensures
        a == b,
    decreases a.len(),
{
    if a.len() == 0 {
        if b.len() > 0 {
            assert(b.contains(b[0]));
        }
        assert(a =~= b);
    } else {
        let x = a.last();
        assert(a.contains(x));
        let j = choose|j: int| 0 <= j < b.len() && b[j] == x;
        if j < b.len() - 1 {
            let y = b.last();
            assert(page_before(x, y));
            assert(b.contains(y));
            let i = choose|i: int| 0 <= i < a.len() && a[i] == y;
            lemma_before_irreflexive(x);
            if i < a.len() - 1 {
                assert(page_before(y, x));
                lemma_before_transitive(x, y, x);
            }
        }
        let a0 = a.drop_last();
        let b0 = b.drop_last();
        assert forall|z: Seq<char>| a0.contains(z) <==> b0.contains(z) by {
            lemma_before_irreflexive(x);
            if a0.contains(z) {
                let i = choose|i: int| 0 <= i < a0.len() && a0[i] == z;
                assert(a[i] == z);
                assert(page_before(z, x));
                assert(a.contains(z));
                let m = choose|m: int| 0 <= m < b.len() && b[m] == z;
                assert(b0[m] == z);
            }
            if b0.contains(z) {
                let m = choose|m: int| 0 <= m < b0.len() && b0[m] == z;
                assert(b[m] == z);
                assert(page_before(z, x));
                assert(b.contains(z));
                let i = choose|i: int| 0 <= i < a.len() && a[i] == z;
                assert(a0[i] == z);
            }
        }
        lemma_ascending_unique(a0, b0);
        assert(a =~= a0.push(x));
        assert(b =~= b0.push(x));
    }
}

/// The alphabetical list of the pages does not depend on the order in which
/// the pages were seen, nor on how often: two lists of the same names have
/// the same alphabetical list.
pub proof fn lemma_enumeration_regardless_of_order(
    first: Seq<Seq<char>>,
    second: Seq<Seq<char>>,
    sorted_first: Seq<Seq<char>>,
    sorted_second: Seq<Seq<char>>,
)
    requires
        forall|x: Seq<char>| first.contains(x) <==> second.contains(x),
        ascending(sorted_first),
        ascending(sorted_second),
        forall|x: Seq<char>| sorted_first.contains(x) <==> first.contains(x),
        forall|x: Seq<char>| sorted_second.contains(x) <==> second.contains(x),
    ensures
        sorted_first == sorted_second,
{
    assert forall|x: Seq<char>| sorted_first.contains(x) <==> sorted_second.contains(x) by {
        assert(sorted_first.contains(x) <==> first.contains(x));
        assert(sorted_second.contains(x) <==> second.contains(x));
    }
    lemma_ascending_unique(sorted_first, sorted_second);
}

/// Whether `a` comes before `b` in the alphabet.
pub fn chars_before(a: &Vec<char>, b: &Vec<char>) -> (r: bool)
    ensures
        r == page_before(a@, b@),
{
    let mut k: usize = 0;
    while k < a.len() && k < b.len() && a[k] == b[k]
        invariant
            agree_upto(a@, b@, k as int),
        decreases a.len() - k,
    {
        k += 1;
    }
    let r = k < b.len() && (k == a.len() || a[k] < b[k]);
    proof {
        if !r {
            assert forall|m: int| #[trigger]
                agree_upto(a@, b@, m) && m < b@.len() implies !(m == a@.len() || a@[m] < b@[m]) by {
                if m < k {
                } else if m > k {
                    assert(a@[k as int] == b@[k as int]);
                }
            }
        }
    }
    r
}

/// Whether the name `a` comes before the name `b` in the alphabet.
pub fn comes_before(a: &str, b: &str) -> (r: bool)
    ensures
        r == page_before(a@, b@),
{
    let x = chars_of(a);
    let y = chars_of(b);
    chars_before(&x, &y)
}

/// The names of `pages` in alphabetical order, each once.
pub fn sorted_pages(pages: &Vec<String>) -> (sorted: Vec<String>)
    ensures
        ascending(texts(sorted@)),
        forall|x: Seq<char>| texts(sorted@).contains(x) <==> texts(pages@).contains(x),
{
    let mut sorted: Vec<String> = Vec::new();
    let mut keys: Vec<Vec<char>> = Vec::new();
    let mut i: usize = 0;
    while i < pages.len()
        invariant
            0 <= i <= pages.len(),
            keys.len() == sorted.len(),
            forall|m: int| 0 <= m < keys.len() ==> (#[trigger] keys[m])@ == sorted[m]@,
            ascending(texts(sorted@)),
            forall|x: Seq<char>|
                texts(sorted@).contains(x) <==> texts(pages@).take(i as int).contains(x),
        decreases pages.len() - i,
    {
        let key = chars_of(pages[i].as_str());
        let ghost name = pages[i as int]@;
        let ghost before = texts(sorted@);
        let ghost seen = texts(pages@).take(i as int);
        let ghost seen_next = texts(pages@).take(i + 1);
        assert(seen_next =~= seen.push(name));
        let mut p: usize = 0;
        while p < keys.len() && chars_before(&keys[p], &key)
            invariant
                0 <= p <= keys.len(),
                keys.len() == sorted.len(),
                key@ == name,
                before == texts(sorted@),
                forall|m: int| 0 <= m < keys.len() ==> (#[trigger] keys[m])@ == sorted[m]@,
                forall|m: int| 0 <= m < p ==> page_before(#[trigger] before[m], name),
            decreases keys.len() - p,
        {
            p += 1;
        }
        if p < keys.len() && !chars_before(&key, &keys[p]) {
            proof {
                lemma_before_total(name, before[p as int]);
                assert(before[p as int] == name);
                assert forall|x: Seq<char>| before.contains(x) <==> seen_next.contains(x) by {
                    if seen_next.contains(x) {
                        let m = choose|m: int| 0 <= m < seen_next.len() && seen_next[m] == x;
                        if m < i {
                            assert(seen[m] == x);
                        }
                    }
                    if before.contains(x) {
                        let m = choose|m: int| 0 <= m < seen.len() && seen[m] == x;
                        assert(seen_next[m] == x);
                    }
                }
            }
        } else {
            sorted.insert(p, pages[i].clone());
            keys.insert(p, key);
            proof {
                let after = texts(sorted@);
                assert(after =~= before.insert(p as int, name));
                assert forall|a: int, b: int| 0 <= a < b < after.len() implies page_before(
                    after[a],
                    after[b],
                ) by {
                    if b == p {
                        assert(after[a] == before[a]);
                    } else if a == p {
                        assert(after[b] == before[b - 1]);
                        if b - 1 > p {
                            lemma_before_transitive(name, before[p as int], before[b - 1]);
                        }
                    } else {
                        let a0 = if a < p {
                            a
                        } else {
                            a - 1
                        };
                        let b0 = if b < p {
                            b
                        } else {
                            b - 1
                        };
                        assert(after[a] == before[a0]);
                        assert(after[b] == before[b0]);
                    }
                }
                assert forall|x: Seq<char>| after.contains(x) <==> seen_next.contains(x) by {
                    if after.contains(x) {
                        let m = choose|m: int| 0 <= m < after.len() && after[m] == x;
                        if m == p {
                            assert(seen_next[i as int] == x);
                        } else {
                            let m0 = if m < p {
                                m
                            } else {
                                m - 1
                            };
                            assert(before[m0] == x);
                            assert(before.contains(x));
                            let w = choose|w: int| 0 <= w < seen.len() && seen[w] == x;
                            assert(seen_next[w] == x);
                        }
                    }
                    if seen_next.contains(x) {
                        let w = choose|w: int| 0 <= w < seen_next.len() && seen_next[w] == x;
                        if w == i {
                            assert(after[p as int] == x);
                        } else {
                            assert(seen[w] == x);
                            assert(seen.contains(x));
                            assert(before.contains(x));
                            let m = choose|m: int| 0 <= m < before.len() && before[m] == x;
                            let m1 = if m < p {
                                m
                            } else {
                                m + 1
                            };
                            assert(after[m1] == x);
                        }
                    }
                }
            }
        }
        i += 1;
    }
    assert(texts(pages@).take(pages.len() as int) =~= texts(pages@));
    sorted
}

} // verus!
