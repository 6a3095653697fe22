//! Lists of named entries: the fields of an object, and the templates and
//! formatters of a registry. A name is looked up by its first occurrence.
use vstd::prelude::*;

verus! {

/// The index of the first of the first `n` entries whose name is `key`.
pub open spec fn first_index<T>(entries: Seq<(String, T)>, key: Seq<char>, n: int) -> Option<int>
    decreases n,
{
    if n <= 0 {
        None
    } else {
        match first_index(entries, key, n - 1) {
            Some(i) => Some(i),
            None => if entries[n - 1].0@ == key {
                Some(n - 1)
            } else {
                None
            },
        }
    }
}

/// The index of the first entry named `key`, if there is one.
pub open spec fn index_of<T>(entries: Seq<(String, T)>, key: Seq<char>) -> Option<int> {
    first_index(entries, key, entries.len() as int)
}

/// The value of the first entry named `key`, if there is one.
pub open spec fn lookup<T>(entries: Seq<(String, T)>, key: Seq<char>) -> Option<T> {
    match index_of(entries, key) {
        Some(i) => Some(entries[i].1),
        None => None,
    }
}

pub proof fn lemma_first_index_bounds<T>(entries: Seq<(String, T)>, key: Seq<char>, n: int)
    requires
        n <= entries.len(),
    ensures
        first_index(entries, key, n) matches Some(i) ==> 0 <= i < n && entries[i].0@ == key
            && forall|j: int| 0 <= j < i ==> #[trigger] entries[j].0@ != key,
        first_index(entries, key, n) is None ==> forall|j: int|
            0 <= j < n ==> #[trigger] entries[j].0@ != key,
    decreases n,
{
    if n > 0 {
        lemma_first_index_bounds(entries, key, n - 1);
    }
}

/// Where an entry is found, no earlier one has the same name.
pub proof fn lemma_first_index_is_first<T>(
    entries: Seq<(String, T)>,
    key: Seq<char>,
    n: int,
    i: int,
)
    requires
        0 <= i < n <= entries.len(),
        entries[i].0@ == key,
        forall|j: int| 0 <= j < i ==> #[trigger] entries[j].0@ != key,
    ensures
        first_index(entries, key, n) == Some(i),
    decreases n,
{
    if n - 1 > i {
        lemma_first_index_is_first(entries, key, n - 1, i);
    } else {
        lemma_first_index_bounds(entries, key, n - 1);
    }
}

/// Finds the first entry named `key`.
pub fn find_entry<T>(entries: &Vec<(String, T)>, key: &String) -> (r: Option<usize>)
    ensures
        r matches Some(i) ==> index_of(entries@, key@) == Some(i as int),
        r is None ==> index_of(entries@, key@) is None,
{
    let mut i: usize = 0;
    while i < entries.len()
        invariant
            i <= entries@.len(),
            forall|j: int| 0 <= j < i ==> #[trigger] entries@[j].0@ != key@,
        decreases entries@.len() - i,
    {
        if entries[i].0 == *key {
            proof {
                lemma_first_index_is_first(entries@, key@, entries@.len() as int, i as int);
            }
            return Some(i);
        }
        i = i + 1;
    }
    proof {
        lemma_first_index_bounds(entries@, key@, entries@.len() as int);
        if let Some(k) = index_of(entries@, key@) {
            assert(entries@[k].0@ != key@);
        }
    }
    None
}

/// Binds `key` to `val`: the first entry of that name takes the new value, or
/// a new entry is added at the end where there is none.
pub fn put_entry<T>(entries: &mut Vec<(String, T)>, key: String, val: T)
    ensures
        lookup(final(entries)@, key@) == Some(val),
        forall|k: Seq<char>| k != key@ ==> lookup(#[trigger] final(entries)@, k) == lookup(old(entries)@, k),
{
    let ghost k0 = key@;
    match find_entry(entries, &key) {
        Some(i) => {
            proof {
                lemma_first_index_bounds(old(entries)@, k0, old(entries)@.len() as int);
            }
            entries.set(i, (key, val));
            proof {
                assert forall|j: int| 0 <= j < i implies #[trigger] entries@[j].0@ != k0 by {
                    assert(entries@[j] == old(entries)@[j]);
                }
                lemma_first_index_is_first(entries@, k0, entries@.len() as int, i as int);
                assert forall|k: Seq<char>| k != k0 implies lookup(entries@, k) == lookup(old(entries)@, k) by {
                    lemma_same_index_away(old(entries)@, entries@, k, i as int);
                }
            }
        },
        None => {
            entries.push((key, val));
            proof {
                lemma_first_index_bounds(old(entries)@, k0, old(entries)@.len() as int);
                lemma_first_index_is_first(entries@, k0, entries@.len() as int, old(entries)@.len() as int);
                assert forall|k: Seq<char>| k != k0 implies lookup(entries@, k) == lookup(old(entries)@, k) by {
                    lemma_first_index_bounds(old(entries)@, k, old(entries)@.len() as int);
                    lemma_first_index_prefix(old(entries)@, entries@, k, old(entries)@.len() as int);
                }
            }
        },
    }
}

proof fn lemma_first_index_prefix<T>(a: Seq<(String, T)>, b: Seq<(String, T)>, key: Seq<char>, n: int)
    requires
        0 <= n <= a.len() <= b.len(),
        forall|j: int| 0 <= j < a.len() ==> a[j] == b[j],
        b.len() == a.len() + 1,
        b[a.len() as int].0@ != key,
    ensures
        first_index(b, key, b.len() as int) == first_index(a, key, a.len() as int),
{
    lemma_prefix_agree(a, b, key, a.len() as int);
}

proof fn lemma_prefix_agree<T>(a: Seq<(String, T)>, b: Seq<(String, T)>, key: Seq<char>, n: int)
    requires
        0 <= n <= a.len() <= b.len(),
        forall|j: int| 0 <= j < a.len() ==> a[j] == b[j],
    ensures
        first_index(b, key, n) == first_index(a, key, n),
    decreases n,
{
    if n > 0 {
        lemma_prefix_agree(a, b, key, n - 1);
        assert(a[n - 1] == b[n - 1]);
    }
}

/// Replacing an entry whose name is not `key` leaves the lookup of `key` as it was.
proof fn lemma_same_index_away<T>(a: Seq<(String, T)>, b: Seq<(String, T)>, key: Seq<char>, i: int)
    requires
        0 <= i < a.len(),
        b.len() == a.len(),
        forall|j: int| 0 <= j < a.len() && j != i ==> a[j] == b[j],
        a[i].0@ == b[i].0@,
        a[i].0@ != key,
    ensures
        lookup(b, key) == lookup(a, key),
{
    lemma_away_n(a, b, key, i, a.len() as int);
    lemma_first_index_bounds(a, key, a.len() as int);
}

proof fn lemma_away_n<T>(a: Seq<(String, T)>, b: Seq<(String, T)>, key: Seq<char>, i: int, n: int)
    requires
        0 <= i < a.len(),
        0 <= n <= a.len(),
        b.len() == a.len(),
        forall|j: int| 0 <= j < a.len() && j != i ==> a[j] == b[j],
        a[i].0@ == b[i].0@,
        a[i].0@ != key,
    ensures
        first_index(b, key, n) == first_index(a, key, n),
    decreases n,
{
    if n > 0 {
        lemma_away_n(a, b, key, i, n - 1);
        if n - 1 != i {
            assert(a[n - 1] == b[n - 1]);
        }
    }
}

} // verus!
