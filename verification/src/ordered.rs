//! Lists of strings kept in ascending order without repeats.

use crate::text::lemma_precedes_asymmetric;
use crate::text::lemma_precedes_connected;
use crate::text::lemma_precedes_irreflexive;
use crate::text::lemma_precedes_transitive;
use crate::text::precedes;
use crate::text::rank;
use crate::text::Rank;
use vstd::prelude::*;

verus! {

/// The characters of each string of a list.
pub open spec fn texts(list: Seq<String>) -> Seq<Seq<char>> {
    Seq::new(list.len(), |i: int| list[i]@)
}

/// Whether each string of the list sorts before all that follow it. Such a
/// list holds no string twice.
pub open spec fn ascending(list: Seq<Seq<char>>) -> bool {
    forall|i: int, j: int| 0 <= i < j < list.len() ==> precedes(#[trigger] list[i], #[trigger] list[j])
}

/// An ascending list holds each of its strings at one place only.
pub proof fn lemma_ascending_distinct(list: Seq<Seq<char>>, i: int, j: int)
    requires
        ascending(list),
        0 <= i < list.len(),
        0 <= j < list.len(),
        list[i] == list[j],
    ensures
        i == j,
{
    lemma_precedes_irreflexive(list[i]);
}

/// Two ascending lists that hold the same strings are the same list.
pub proof fn lemma_ascending_unique(a: Seq<Seq<char>>, b: Seq<Seq<char>>)
    requires
        ascending(a),
        ascending(b),
        a.to_set() == b.to_set(),
    ensures
        a == b,
    decreases a.len(),
{
    if a.len() == 0 {
        if b.len() > 0 {
            assert(b.to_set().contains(b[0]));
            assert(a.to_set().contains(b[0]));
        }
        assert(a =~= b);
    } else {
        if b.len() == 0 {
            assert(a.to_set().contains(a[0]));
            assert(b.to_set().contains(a[0]));
        }
        // The two lists end in the same string: their greatest.
        let x = a.last();
        let y = b.last();
        assert(a.to_set().contains(x));
        assert(b.to_set().contains(x));
        let jx = choose|j: int| 0 <= j < b.len() && b[j] == x;
        assert(b.to_set().contains(y));
        assert(a.to_set().contains(y));
        let iy = choose|i: int| 0 <= i < a.len() && a[i] == y;
        if x != y {
            assert(jx < b.len() - 1);
            assert(precedes(b[jx], b[b.len() - 1]));
            assert(iy < a.len() - 1);
            assert(precedes(a[iy], a[a.len() - 1]));
            lemma_precedes_asymmetric(x, y);
        }
        let a0 = a.drop_last();
        let b0 = b.drop_last();
        assert forall|s: Seq<char>| a0.to_set().contains(s) <==> b0.to_set().contains(s) by {
            if a0.to_set().contains(s) {
                let i = choose|i: int| 0 <= i < a0.len() && a0[i] == s;
                assert(a[i] == s);
                assert(precedes(a[i], a[a.len() - 1]));
                lemma_precedes_irreflexive(x);
                assert(a.to_set().contains(s));
                assert(b.to_set().contains(s));
                let j = choose|j: int| 0 <= j < b.len() && b[j] == s;
                assert(j < b.len() - 1);
                assert(b0[j] == s);
            }
            if b0.to_set().contains(s) {
                let j = choose|j: int| 0 <= j < b0.len() && b0[j] == s;
                assert(b[j] == s);
                assert(precedes(b[j], b[b.len() - 1]));
                lemma_precedes_irreflexive(y);
                assert(b.to_set().contains(s));
                assert(a.to_set().contains(s));
                let i = choose|i: int| 0 <= i < a.len() && a[i] == s;
                assert(i < a.len() - 1);
                assert(a0[i] == s);
            }
        }
        assert(a0.to_set() =~= b0.to_set());
        assert(ascending(a0)) by {
            assert forall|i: int, j: int| 0 <= i < j < a0.len() implies precedes(
                #[trigger] a0[i],
                #[trigger] a0[j],
            ) by {
                assert(precedes(a[i], a[j]));
            }
        }
        assert(ascending(b0)) by {
            assert forall|i: int, j: int| 0 <= i < j < b0.len() implies precedes(
                #[trigger] b0[i],
                #[trigger] b0[j],
            ) by {
                assert(precedes(b[i], b[j]));
            }
        }
        lemma_ascending_unique(a0, b0);
        assert(a =~= a0.push(x));
        assert(b =~= b0.push(y));
    }
}

/// Putting a string that an ascending list lacks at the place where it
/// belongs gives an ascending list, of the strings of the first and the new
/// one.
pub proof fn lemma_insert_ascending(list: Seq<Seq<char>>, at: int, key: Seq<char>)
    requires
        ascending(list),
        0 <= at <= list.len(),
        forall|i: int| 0 <= i < at ==> precedes(#[trigger] list[i], key),
        forall|i: int| at <= i < list.len() ==> !precedes(#[trigger] list[i], key),
        !list.contains(key),
    ensures
        ascending(list.insert(at, key)),
        list.insert(at, key).to_set() == list.to_set().insert(key),
{
    let longer = list.insert(at, key);
    list.insert_ensures(at, key);
    assert forall|i: int, j: int| 0 <= i < j < longer.len() implies precedes(
        #[trigger] longer[i],
        #[trigger] longer[j],
    ) by {
        if j == at {
            assert(longer[i] == list[i]);
        } else if i == at {
            assert(longer[j] == list[j - 1]);
            assert(list.contains(list[j - 1]));
            lemma_precedes_connected(key, list[j - 1]);
        } else {
            let a = if i < at {
                i
            } else {
                i - 1
            };
            let b = if j < at {
                j
            } else {
                j - 1
            };
            assert(longer[i] == list[a]);
            assert(longer[j] == list[b]);
            assert(precedes(list[a], list[b]));
        }
    }
    assert forall|s: Seq<char>| longer.to_set().contains(s) <==> list.to_set().insert(
        key,
    ).contains(s) by {
        if longer.contains(s) {
            let i = choose|i: int| 0 <= i < longer.len() && longer[i] == s;
            if i < at {
                assert(list[i] == s);
            } else if i > at {
                assert(list[i - 1] == s);
            }
        }
        if list.contains(s) {
            let i = choose|i: int| 0 <= i < list.len() && list[i] == s;
            if i < at {
                assert(longer[i] == s);
            } else {
                assert(longer[i + 1] == s);
            }
        }
        if s == key {
            assert(longer[at] == s);
        }
    }
    assert(longer.to_set() =~= list.to_set().insert(key));
}

/// Taking a string out of an ascending list leaves an ascending list, of the
/// other strings.
pub proof fn lemma_remove_ascending(list: Seq<Seq<char>>, at: int)
    requires
        ascending(list),
        0 <= at < list.len(),
    ensures
        ascending(list.remove(at)),
        list.remove(at).to_set() == list.to_set().remove(list[at]),
{
    let shorter = list.remove(at);
    list.remove_ensures(at);
    assert forall|i: int, j: int| 0 <= i < j < shorter.len() implies precedes(
        #[trigger] shorter[i],
        #[trigger] shorter[j],
    ) by {
        let a = if i < at {
            i
        } else {
            i + 1
        };
        let b = if j < at {
            j
        } else {
            j + 1
        };
        assert(shorter[i] == list[a]);
        assert(shorter[j] == list[b]);
        assert(precedes(list[a], list[b]));
    }
    assert forall|s: Seq<char>| shorter.to_set().contains(s) <==> list.to_set().remove(
        list[at],
    ).contains(s) by {
        if shorter.contains(s) {
            let i = choose|i: int| 0 <= i < shorter.len() && shorter[i] == s;
            let a = if i < at {
                i
            } else {
                i + 1
            };
            assert(list[a] == s);
            lemma_ascending_distinct(list, a, a);
            if s == list[at] {
                lemma_ascending_distinct(list, a, at);
            }
        }
        if list.contains(s) && s != list[at] {
            let i = choose|i: int| 0 <= i < list.len() && list[i] == s;
            if i < at {
                assert(shorter[i] == s);
            } else {
                assert(shorter[i - 1] == s);
            }
        }
    }
    assert(shorter.to_set() =~= list.to_set().remove(list[at]));
}

/// Looks `key` up in an ascending list. The first part of the answer is the
/// place where `key` stands or would have to be put: the number of strings
/// that sort before it. The second part says whether it stands there.
pub fn search(keys: &Vec<String>, key: &str) -> (at: (usize, bool))
    requires
        ascending(texts(keys@)),
    ensures
        at.0 <= keys.len(),
        forall|i: int| 0 <= i < at.0 ==> precedes(#[trigger] keys[i]@, key@),
        forall|i: int| at.0 <= i < keys.len() ==> !precedes(#[trigger] keys[i]@, key@),
        at.1 <==> at.0 < keys.len() && keys[at.0 as int]@ == key@,
        at.1 <==> texts(keys@).contains(key@),
{
    let ghost list = texts(keys@);
    let mut low: usize = 0;
    let mut high: usize = keys.len();
    while low < high
        invariant
            list == texts(keys@),
            ascending(list),
            low <= high <= keys.len(),
            forall|i: int| 0 <= i < low ==> precedes(#[trigger] list[i], key@),
            forall|i: int| high <= i < keys.len() ==> precedes(key@, #[trigger] list[i]),
        decreases high - low,
    {
        let middle: usize = low + (high - low) / 2;
        assert(list[middle as int] == keys[middle as int]@);
        match rank(keys[middle].as_str(), key) {
            Rank::Before => {
                assert forall|i: int| 0 <= i < middle + 1 implies precedes(
                    #[trigger] list[i],
                    key@,
                ) by {
                    if i < middle {
                        assert(precedes(list[i], list[middle as int]));
                        lemma_precedes_transitive(list[i], list[middle as int], key@);
                    }
                }
                low = middle + 1;
            },
            Rank::Same => {
                proof {
                    assert forall|i: int| 0 <= i < middle implies precedes(
                        #[trigger] keys[i]@,
                        key@,
                    ) by {
                        assert(precedes(list[i], list[middle as int]));
                    }
                    assert forall|i: int| middle <= i < keys.len() implies !precedes(
                        #[trigger] keys[i]@,
                        key@,
                    ) by {
                        if i == middle {
                            lemma_precedes_irreflexive(key@);
                        } else {
                            assert(precedes(list[middle as int], list[i]));
                            lemma_precedes_asymmetric(key@, list[i]);
                        }
                    }
                    assert(list[middle as int] == key@);
                }
                return (middle, true);
            },
            Rank::After => {
                assert forall|i: int| middle <= i < keys.len() implies precedes(
                    key@,
                    #[trigger] list[i],
                ) by {
                    if i > middle {
                        assert(precedes(list[middle as int], list[i]));
                        lemma_precedes_transitive(key@, list[middle as int], list[i]);
                    }
                }
                high = middle;
            },
        }
    }
    proof {
        assert forall|i: int| 0 <= i < low implies precedes(#[trigger] keys[i]@, key@) by {
            assert(precedes(list[i], key@));
        }
        assert forall|i: int| low <= i < keys.len() implies !precedes(#[trigger] keys[i]@, key@) by {
            assert(precedes(key@, list[i]));
            lemma_precedes_asymmetric(key@, list[i]);
        }
        if low < keys.len() {
            assert(precedes(key@, list[low as int]));
            lemma_precedes_irreflexive(key@);
        }
        if list.contains(key@) {
            let i = choose|i: int| 0 <= i < list.len() && list[i] == key@;
            lemma_precedes_irreflexive(key@);
            if i < low {
                assert(precedes(list[i], key@));
            } else {
                assert(precedes(key@, list[i]));
            }
        }
    }
    (low, false)
}

} // verus!
