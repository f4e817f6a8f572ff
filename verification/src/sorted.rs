//! Strictly ascending lists of strings: the shape in which the library keeps
//! every set of names, so that each set has one representation.

use vstd::prelude::*;
use crate::text::lemma_lt_asymmetric;
use crate::text::lemma_lt_irreflexive;
use crate::text::lemma_lt_total;
use crate::text::lemma_lt_transitive;
use crate::text::text_lt;
use crate::text::text_side;
use crate::text::Side;

verus! {

/// Every entry comes strictly before every later one.
pub open spec fn ascending(keys: Seq<Seq<char>>) -> bool {
    forall|i: int, j: int| 0 <= i < j < keys.len() ==> text_lt(#[trigger] keys[i], #[trigger] keys[j])
}

/// An ascending list holds nothing twice.
pub proof fn lemma_ascending_distinct(keys: Seq<Seq<char>>)
    requires
        ascending(keys),
    ensures
        keys.no_duplicates(),
{
    assert forall|i: int, j: int| 0 <= i < keys.len() && 0 <= j < keys.len() && i != j implies keys[i]
        != keys[j] by {
        lemma_lt_irreflexive(keys[i]);
        if i < j {
            assert(text_lt(keys[i], keys[j]));
        } else {
            assert(text_lt(keys[j], keys[i]));
        }
    }
}

/// In an ascending list an entry is found at its own position only.
pub proof fn lemma_ascending_index(keys: Seq<Seq<char>>, i: int)
    requires
        ascending(keys),
        0 <= i < keys.len(),
    ensures
        keys.contains(keys[i]),
        keys.index_of(keys[i]) == i,
{
    lemma_ascending_distinct(keys);
    assert(keys.contains(keys[i]));
}

/// Two ascending lists with the same entries are the same list.
pub proof fn lemma_ascending_determined(a: Seq<Seq<char>>, b: Seq<Seq<char>>)
    requires
        ascending(a),
        ascending(b),
        a.to_set() == b.to_set(),
    ensures
        a == b,
    decreases a.len(),
{
    if a.len() == 0 {
        if b.len() > 0 {
            assert(b.contains(b[0]));
            assert(b.to_set().contains(b[0]));
            assert(a.contains(b[0]));
        }
        assert(a =~= b);
    } else if b.len() == 0 {
        assert(a.contains(a[0]));
        assert(a.to_set().contains(a[0]));
        assert(b.contains(a[0]));
    } else {
        // The first entries are both the least of the common set.
        assert(a.contains(a[0]));
        assert(b.to_set().contains(a[0]));
        let j = choose|j: int| 0 <= j < b.len() && b[j] == a[0];
        assert(b.contains(b[0]));
        assert(a.to_set().contains(b[0]));
        let i = choose|i: int| 0 <= i < a.len() && a[i] == b[0];
        if i > 0 && j > 0 {
            assert(text_lt(a[0], a[i]));
            assert(text_lt(b[0], b[j]));
            lemma_lt_asymmetric(a[0], b[0]);
        }
        lemma_lt_irreflexive(a[0]);
        lemma_lt_irreflexive(b[0]);
        assert(a[0] == b[0]);
        let ra = a.drop_first();
        let rb = b.drop_first();
        assert(ascending(ra)) by {
            assert forall|x: int, y: int| 0 <= x < y < ra.len() implies text_lt(
                #[trigger] ra[x],
                #[trigger] ra[y],
            ) by {
                assert(text_lt(a[x + 1], a[y + 1]));
            }
        }
        assert(ascending(rb)) by {
            assert forall|x: int, y: int| 0 <= x < y < rb.len() implies text_lt(
                #[trigger] rb[x],
                #[trigger] rb[y],
            ) by {
                assert(text_lt(b[x + 1], b[y + 1]));
            }
        }
        assert forall|p: Seq<char>| ra.to_set().contains(p) == rb.to_set().contains(p) by {
            if ra.contains(p) {
                let x = choose|x: int| 0 <= x < ra.len() && ra[x] == p;
                assert(a[x + 1] == p);
                assert(text_lt(a[0], a[x + 1]));
                assert(a.contains(p));
                assert(b.to_set().contains(p));
                let y = choose|y: int| 0 <= y < b.len() && b[y] == p;
                assert(y != 0);
                assert(rb[y - 1] == p);
            }
            if rb.contains(p) {
                let y = choose|y: int| 0 <= y < rb.len() && rb[y] == p;
                assert(b[y + 1] == p);
                assert(text_lt(b[0], b[y + 1]));
                assert(b.contains(p));
                assert(a.to_set().contains(p));
                let x = choose|x: int| 0 <= x < a.len() && a[x] == p;
                assert(x != 0);
                assert(ra[x - 1] == p);
            }
        }
        assert(ra.to_set() =~= rb.to_set());
        lemma_ascending_determined(ra, rb);
        assert(a =~= seq![a[0]] + ra);
        assert(b =~= seq![b[0]] + rb);
    }
}

/// Putting a key between the entries before it and those after it keeps
/// the list ascending.
pub proof fn lemma_insert_ascending(keys: Seq<Seq<char>>, at: int, key: Seq<char>)
    requires
        ascending(keys),
        0 <= at <= keys.len(),
        forall|k: int| 0 <= k < at ==> text_lt(#[trigger] keys[k], key),
        forall|k: int| at <= k < keys.len() ==> text_lt(key, #[trigger] keys[k]),
    ensures
        ascending(keys.insert(at, key)),
        keys.insert(at, key).to_set() == keys.to_set().insert(key),
{
    let grown = keys.insert(at, key);
    assert forall|i: int, j: int| 0 <= i < j < grown.len() implies text_lt(
        #[trigger] grown[i],
        #[trigger] grown[j],
    ) by {
        if i < at && j > at {
            assert(text_lt(keys[i], keys[j - 1]));
        } else if i < at && j < at {
            assert(text_lt(keys[i], keys[j]));
        } else if i > at {
            assert(text_lt(keys[i - 1], keys[j - 1]));
        }
    }
    assert forall|p: Seq<char>| grown.to_set().contains(p) == keys.to_set().insert(key).contains(
        p,
    ) by {
        if grown.contains(p) {
            let x = choose|x: int| 0 <= x < grown.len() && grown[x] == p;
            if x < at {
                assert(keys[x] == p);
            } else if x > at {
                assert(keys[x - 1] == p);
            }
        }
        if keys.contains(p) {
            let x = choose|x: int| 0 <= x < keys.len() && keys[x] == p;
            if x < at {
                assert(grown[x] == p);
            } else {
                assert(grown[x + 1] == p);
            }
        }
        if p == key {
            assert(grown[at] == p);
        }
    }
    assert(grown.to_set() =~= keys.to_set().insert(key));
}

/// Where a key stands in an ascending list: the number of entries before
/// it, and whether it is in the list, which is then at that position.
pub(crate) fn search(keys: &Vec<String>, key: &str) -> (found: (usize, bool))
    requires
        ascending(keys.deep_view()),
    ensures
        found.0 <= keys.len(),
        forall|k: int| 0 <= k < found.0 ==> text_lt(#[trigger] keys.deep_view()[k], key@),
        found.1 == keys.deep_view().contains(key@),
        found.1 ==> found.0 < keys.len() && keys.deep_view()[found.0 as int] == key@,
        !found.1 ==> forall|k: int|
            found.0 <= k < keys.len() ==> text_lt(key@, #[trigger] keys.deep_view()[k]),
{
    let ghost texts = keys.deep_view();
    let mut at: usize = 0;
    while at < keys.len()
        invariant
            at <= keys.len(),
            texts == keys.deep_view(),
            ascending(texts),
            forall|k: int| 0 <= k < at ==> text_lt(#[trigger] texts[k], key@),
        decreases keys.len() - at,
    {
        match text_side(keys[at].as_str(), key) {
            Side::Before => {
                at = at + 1;
            },
            Side::Same => {
                assert(texts[at as int] == key@);
                return (at, true);
            },
            Side::After => {
                proof {
                    lemma_lt_total(texts[at as int], key@);
                    assert forall|k: int| at <= k < keys.len() implies text_lt(
                        key@,
                        #[trigger] texts[k],
                    ) by {
                        if k > at {
                            assert(text_lt(texts[at as int], texts[k]));
                            lemma_lt_transitive(key@, texts[at as int], texts[k]);
                        }
                    }
                    lemma_absent(texts, at as int, key@);
                }
                return (at, false);
            },
        }
    }
    proof {
        lemma_absent(texts, at as int, key@);
    }
    (at, false)
}

/// A key that falls strictly between two neighbours is not in the list.
proof fn lemma_absent(keys: Seq<Seq<char>>, at: int, key: Seq<char>)
    requires
        0 <= at <= keys.len(),
        forall|k: int| 0 <= k < at ==> text_lt(#[trigger] keys[k], key),
        forall|k: int| at <= k < keys.len() ==> text_lt(key, #[trigger] keys[k]),
    ensures
        !keys.contains(key),
{
    if keys.contains(key) {
        let x = choose|x: int| 0 <= x < keys.len() && keys[x] == key;
        lemma_lt_irreflexive(key);
        if x < at {
            assert(text_lt(keys[x], key));
        } else {
            assert(text_lt(key, keys[x]));
        }
    }
}

/// Adds a key to an ascending list unless it is there already. Returns
/// whether the list grew.
pub(crate) fn insert_unique(keys: &mut Vec<String>, key: String) -> (grew: bool)
    requires
        ascending(old(keys).deep_view()),
    ensures
        ascending(final(keys).deep_view()),
        final(keys).deep_view().to_set() == old(keys).deep_view().to_set().insert(key@),
        grew == !old(keys).deep_view().contains(key@),
{
    let ghost before = keys.deep_view();
    let (at, found) = search(keys, key.as_str());
    if found {
        assert(before.to_set().insert(key@) =~= before.to_set());
        false
    } else {
        keys.insert(at, key);
        proof {
            assert(keys.deep_view() =~= before.insert(at as int, key@));
            lemma_insert_ascending(before, at as int, key@);
        }
        true
    }
}

} // verus!
