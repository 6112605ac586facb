//! Association lists keyed by strings: the tables of the ledgers (per worker,
//! per bucket label) are vectors of `(key, value)` pairs whose keys are
//! pairwise distinct. Their model is the deep view: a sequence of
//! `(Seq<char>, value model)` pairs.

use vstd::prelude::*;

verus! {

/// No key occurs twice.
pub open spec fn distinct_keys<W>(m: Seq<(Seq<char>, W)>) -> bool {
    forall|i: int, j: int|
        0 <= i < m.len() && 0 <= j < m.len() && i != j ==> #[trigger] m[i].0 != #[trigger] m[j].0
}

/// Some entry has key `k`.
pub open spec fn has_key<W>(m: Seq<(Seq<char>, W)>, k: Seq<char>) -> bool {
    exists|i: int| 0 <= i < m.len() && #[trigger] m[i].0 == k
}

/// The position of the entry with key `k` (meaningful when `has_key(m, k)`).
pub open spec fn index_of<W>(m: Seq<(Seq<char>, W)>, k: Seq<char>) -> int {
    choose|i: int| 0 <= i < m.len() && #[trigger] m[i].0 == k
}

/// The value stored under `k`, if any.
pub open spec fn lookup<W>(m: Seq<(Seq<char>, W)>, k: Seq<char>) -> Option<W> {
    if has_key(m, k) {
        Some(m[index_of(m, k)].1)
    } else {
        None
    }
}

/// The value stored under `k`, or `default` when there is none.
pub open spec fn lookup_or<W>(m: Seq<(Seq<char>, W)>, k: Seq<char>, default: W) -> W {
    match lookup(m, k) {
        Some(w) => w,
        None => default,
    }
}

/// Store `w` under `k`: the entry of `k` is replaced in place, or a new
/// entry is appended at the end.
pub open spec fn assign<W>(m: Seq<(Seq<char>, W)>, k: Seq<char>, w: W) -> Seq<(Seq<char>, W)> {
    if has_key(m, k) {
        m.update(index_of(m, k), (k, w))
    } else {
        m.push((k, w))
    }
}

/// With distinct keys, the entry holding `k` is the one `index_of` names.
pub proof fn lemma_index_of<W>(m: Seq<(Seq<char>, W)>, k: Seq<char>, i: int)
    requires
        distinct_keys(m),
        0 <= i < m.len(),
        m[i].0 == k,
    ensures
        has_key(m, k),
        index_of(m, k) == i,
        lookup(m, k) == Some(m[i].1),
{
    assert(has_key(m, k));
    let j = index_of(m, k);
    assert(m[j].0 == k);
}

/// Storing a value keeps the keys distinct, makes a read of the same key
/// give the stored value back, and leaves every other key as it was.
pub proof fn lemma_assign<W>(m: Seq<(Seq<char>, W)>, k: Seq<char>, w: W)
    requires
        distinct_keys(m),
    ensures
        distinct_keys(assign(m, k, w)),
        lookup(assign(m, k, w), k) == Some(w),
        forall|k2: Seq<char>| k2 != k ==> #[trigger] lookup(assign(m, k, w), k2) == lookup(m, k2),
        has_key(m, k) ==> assign(m, k, w).len() == m.len(),
        !has_key(m, k) ==> assign(m, k, w).len() == m.len() + 1,
{
    let a = assign(m, k, w);
    if has_key(m, k) {
        let i = index_of(m, k);
        assert(distinct_keys(a)) by {
            assert forall|x: int, y: int|
                0 <= x < a.len() && 0 <= y < a.len() && x != y implies #[trigger] a[x].0
                != #[trigger] a[y].0 by {
                if x == i {
                    assert(m[y].0 != m[i].0);
                } else if y == i {
                    assert(m[x].0 != m[i].0);
                } else {
                    assert(m[x].0 != m[y].0);
                }
            }
        }
        lemma_index_of(a, k, i);
        assert forall|k2: Seq<char>| k2 != k implies #[trigger] lookup(a, k2) == lookup(m, k2) by {
            if has_key(m, k2) {
                let j = index_of(m, k2);
                assert(j != i);
                lemma_index_of(a, k2, j);
            } else if has_key(a, k2) {
                let j = index_of(a, k2);
                assert(m[j].0 == k2);
            }
        }
    } else {
        let n = m.len() as int;
        assert(distinct_keys(a)) by {
            assert forall|x: int, y: int|
                0 <= x < a.len() && 0 <= y < a.len() && x != y implies #[trigger] a[x].0
                != #[trigger] a[y].0 by {
                if x == n {
                    assert(a[y].0 == m[y].0);
                } else if y == n {
                    assert(a[x].0 == m[x].0);
                } else {
                    assert(m[x].0 != m[y].0);
                }
            }
        }
        lemma_index_of(a, k, n);
        assert forall|k2: Seq<char>| k2 != k implies #[trigger] lookup(a, k2) == lookup(m, k2) by {
            if has_key(m, k2) {
                let j = index_of(m, k2);
                lemma_index_of(a, k2, j);
            } else if has_key(a, k2) {
                let j = index_of(a, k2);
                assert(j != n);
                assert(m[j].0 == k2);
            }
        }
    }
}

/// Finds the position of `key`.
pub fn find_key<V: DeepView>(entries: &Vec<(String, V)>, key: &String) -> (r: Option<usize>)
    requires
        distinct_keys(entries.deep_view()),
    ensures
        match r {
            Some(i) => {
                &&& i < entries.len()
                &&& has_key(entries.deep_view(), key@)
                &&& index_of(entries.deep_view(), key@) == i
                &&& entries.deep_view()[i as int].0 == key@
            },
            None => !has_key(entries.deep_view(), key@),
        },
{
    let ghost m = entries.deep_view();
    let mut i: usize = 0;
    while i < entries.len()
        invariant
            i <= entries.len(),
            m == entries.deep_view(),
            distinct_keys(m),
            forall|j: int| 0 <= j < i ==> #[trigger] m[j].0 != key@,
        decreases entries.len() - i,
    {
        if entries[i].0.eq(key) {
            proof {
                lemma_index_of(m, key@, i as int);
            }
            return Some(i);
        }
        i += 1;
    }
    None
}

/// Stores `value` under `key`.
pub fn put<V: DeepView>(entries: &mut Vec<(String, V)>, key: String, value: V)
    requires
        distinct_keys(old(entries).deep_view()),
    ensures
        final(entries).deep_view() == assign(old(entries).deep_view(), key@, value.deep_view()),
        distinct_keys(final(entries).deep_view()),
{
    let ghost m = entries.deep_view();
    let ghost w = value.deep_view();
    let ghost k = key@;
    proof {
        lemma_assign(m, k, w);
    }
    match find_key(entries, &key) {
        Some(i) => {
            entries.set(i, (key, value));
            assert(entries.deep_view() =~= assign(m, k, w));
        },
        None => {
            entries.push((key, value));
            assert(entries.deep_view() =~= assign(m, k, w));
        },
    }
}

/// Whether no key occurs twice.
pub fn keys_distinct<V: DeepView>(entries: &Vec<(String, V)>) -> (r: bool)
    ensures
        r == distinct_keys(entries.deep_view()),
{
    let ghost m = entries.deep_view();
    let n = entries.len();
    let mut i: usize = 0;
    while i < n
        invariant
            n == entries.len(),
            m == entries.deep_view(),
            i <= n,
            forall|x: int, y: int| 0 <= x < i && 0 <= y < n && x != y ==> #[trigger] m[x].0 != #[trigger] m[y].0,
        decreases n - i,
    {
        let mut j: usize = 0;
        while j < n
            invariant
                n == entries.len(),
                m == entries.deep_view(),
                i < n,
                j <= n,
                forall|x: int, y: int| 0 <= x < i && 0 <= y < n && x != y ==> #[trigger] m[x].0 != #[trigger] m[y].0,
                forall|y: int| 0 <= y < j && y != i ==> m[i as int].0 != #[trigger] m[y].0,
            decreases n - j,
        {
            if j != i && entries[i].0.eq(&entries[j].0) {
                assert(m[i as int].0 == m[j as int].0);
                return false;
            }
            j += 1;
        }
        i += 1;
    }
    true
}

} // verus!
