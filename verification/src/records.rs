//! Lists of records identified by a string key (server profiles, history
//! entries, parameter presets): lookup, insert-or-replace, removal, merge.

use vstd::prelude::*;
use crate::text::str_eq;

verus! {

/// A record with a string identity.
pub trait Keyed {
    /// The record's key.
    spec fn key_view(&self) -> Seq<char>;

    /// The record's key.
    fn key(&self) -> (r: &str)
        ensures
            r@ == self.key_view(),
    ;
}

impl Keyed for String {
    open spec fn key_view(&self) -> Seq<char> {
        self@
    }

    fn key(&self) -> (r: &str) {
        self.as_str()
    }
}

/// Index of the first record with key `k`.
pub open spec fn index_of_key<T: Keyed>(s: Seq<T>, k: Seq<char>) -> Option<int>
    decreases s.len(),
{
    if s.len() == 0 {
        None
    } else if s[0].key_view() == k {
        Some(0)
    } else {
        match index_of_key(s.drop_first(), k) {
            Some(i) => Some(i + 1),
            None => None,
        }
    }
}

/// The first record with key `k`.
pub open spec fn lookup<T: Keyed>(s: Seq<T>, k: Seq<char>) -> Option<T> {
    match index_of_key(s, k) {
        Some(i) => Some(s[i]),
        None => None,
    }
}

/// `s` with the first record of `x`'s key replaced by `x`, or with `x`
/// appended when there is none.
pub open spec fn upserted<T: Keyed>(s: Seq<T>, x: T) -> Seq<T> {
    match index_of_key(s, x.key_view()) {
        Some(i) => s.update(i, x),
        None => s.push(x),
    }
}

/// `s` without the records of key `k`, in order.
pub open spec fn without_key<T: Keyed>(s: Seq<T>, k: Seq<char>) -> Seq<T>
    decreases s.len(),
{
    if s.len() == 0 {
        Seq::empty()
    } else if s[0].key_view() == k {
        without_key(s.drop_first(), k)
    } else {
        seq![s[0]] + without_key(s.drop_first(), k)
    }
}

/// `s` after inserting or replacing each record of `incoming` in turn.
pub open spec fn merged<T: Keyed>(s: Seq<T>, incoming: Seq<T>) -> Seq<T>
    decreases incoming.len(),
{
    if incoming.len() == 0 {
        s
    } else {
        upserted(merged(s, incoming.drop_last()), incoming.last())
    }
}

/// What `index_of_key` finds: the first index whose key matches.
pub proof fn lemma_index_of_key<T: Keyed>(s: Seq<T>, k: Seq<char>)
    ensures
        match index_of_key(s, k) {
            Some(i) => 0 <= i < s.len() && s[i].key_view() == k && forall|j: int|
                0 <= j < i ==> #[trigger] s[j].key_view() != k,
            None => forall|j: int| 0 <= j < s.len() ==> #[trigger] s[j].key_view() != k,
        },
    decreases s.len(),
{
    if s.len() > 0 {
        lemma_index_of_key(s.drop_first(), k);
        if s[0].key_view() != k {
            match index_of_key(s.drop_first(), k) {
                Some(i) => {
                    assert forall|j: int| 0 <= j < i + 1 implies #[trigger] s[j].key_view() != k by {
                        if j > 0 {
                            assert(s[j] == s.drop_first()[j - 1]);
                        }
                    }
                },
                None => {
                    assert forall|j: int| 0 <= j < s.len() implies #[trigger] s[j].key_view() != k by {
                        if j > 0 {
                            assert(s[j] == s.drop_first()[j - 1]);
                        }
                    }
                },
            }
        }
    }
}

/// `index_of_key` is determined by the first match.
pub proof fn lemma_index_of_key_unique<T: Keyed>(s: Seq<T>, k: Seq<char>, i: int)
    requires
        0 <= i < s.len(),
        s[i].key_view() == k,
        forall|j: int| 0 <= j < i ==> #[trigger] s[j].key_view() != k,
    ensures
        index_of_key(s, k) == Some(i),
{
    lemma_index_of_key(s, k);
    match index_of_key(s, k) {
        Some(m) => {
            if m < i {
                assert(s[m].key_view() != k);
            }
            if m > i {
                assert(s[i].key_view() != k);
            }
        },
        None => {
            assert(s[i].key_view() != k);
        },
    }
}

/// `index_of_key` finds nothing when no key matches.
pub proof fn lemma_index_of_key_none<T: Keyed>(s: Seq<T>, k: Seq<char>)
    requires
        forall|j: int| 0 <= j < s.len() ==> #[trigger] s[j].key_view() != k,
    ensures
        index_of_key(s, k) is None,
{
    lemma_index_of_key(s, k);
    if let Some(m) = index_of_key(s, k) {
        assert(s[m].key_view() != k);
    }
}

/// Index of the first record of key `k` in `v`.
pub fn find_key<T: Keyed>(v: &Vec<T>, k: &str) -> (r: Option<usize>)
    ensures
        match r {
            Some(i) => index_of_key(v@, k@) == Some(i as int),
            None => index_of_key(v@, k@) is None,
        },
{
    let mut i: usize = 0;
    while i < v.len()
        invariant
            i <= v.len(),
            forall|j: int| 0 <= j < i ==> #[trigger] v@[j].key_view() != k@,
        decreases v.len() - i,
    {
        if str_eq(v[i].key(), k) {
            proof {
                lemma_index_of_key_unique(v@, k@, i as int);
            }
            return Some(i);
        }
        i = i + 1;
    }
    proof {
        lemma_index_of_key_none(v@, k@);
    }
    None
}

/// Inserts `item`, replacing the first record with the same key if there is
/// one, appending it otherwise.
pub fn upsert<T: Keyed>(items: &mut Vec<T>, item: T)
    ensures
        final(items)@ == upserted(old(items)@, item),
{
    let ghost x = item;
    match find_key(items, item.key()) {
        Some(i) => {
            proof {
                lemma_index_of_key(old(items)@, x.key_view());
            }
            items.set(i, item);
        },
        None => {
            items.push(item);
        },
    }
}

/// Whether some record has key `k`.
pub open spec fn has_key<T: Keyed>(s: Seq<T>, k: Seq<char>) -> bool {
    exists|i: int| 0 <= i < s.len() && #[trigger] s[i].key_view() == k
}

/// Removes every record of key `k`, keeping the order of the others; tells
/// whether any was removed, which is exactly when some record had key `k`.
pub fn remove_key<T: Keyed>(items: &mut Vec<T>, k: &str) -> (changed: bool)
    ensures
        final(items)@ == without_key(old(items)@, k@),
        changed == (final(items)@.len() != old(items)@.len()),
        changed == has_key(old(items)@, k@),
{
    let ghost start = items@;
    let n = items.len();
    let mut kept: Vec<T> = Vec::new();
    assert(start.skip(0) =~= start);
    while items.len() > 0
        invariant
            start.len() == n,
            items@.len() <= n,
            items@ == start.skip(n - items@.len()),
            without_key(start, k@) == kept@ + without_key(items@, k@),
        decreases items.len(),
    {
        let ghost before = items@;
        let x = items.remove(0);
        assert(before.drop_first() =~= items@);
        assert(items@ =~= start.skip(n - items@.len()));
        if !str_eq(x.key(), k) {
            let ghost kb = kept@;
            kept.push(x);
            assert(kept@ + without_key(items@, k@) =~= kb + without_key(before, k@));
        }
    }
    assert(without_key(items@, k@) =~= Seq::<T>::empty());
    assert(kept@ =~= without_key(start, k@));
    proof {
        lemma_without_key_len(start, k@);
    }
    let changed = kept.len() != n;
    *items = kept;
    changed
}

/// Removing never adds records, and removes one exactly when some record
/// has the key.
pub proof fn lemma_without_key_len<T: Keyed>(s: Seq<T>, k: Seq<char>)
    ensures
        without_key(s, k).len() <= s.len(),
        (without_key(s, k).len() < s.len()) == has_key(s, k),
    decreases s.len(),
{
    if s.len() > 0 {
        let t = s.drop_first();
        lemma_without_key_len(t, k);
        if has_key(s, k) {
            let i = choose|i: int| 0 <= i < s.len() && #[trigger] s[i].key_view() == k;
            if i > 0 {
                assert(t[i - 1].key_view() == k);
            }
        }
        if has_key(t, k) {
            let i = choose|i: int| 0 <= i < t.len() && #[trigger] t[i].key_view() == k;
            assert(s[i + 1].key_view() == k);
        }
    }
}

/// Inserts or replaces each incoming record in turn (a later record wins
/// over an earlier one with the same key).
pub fn merge<T: Keyed>(items: &mut Vec<T>, incoming: Vec<T>)
    ensures
        final(items)@ == merged(old(items)@, incoming@),
{
    let ghost start = items@;
    let ghost inc = incoming@;
    let mut rest = incoming;
    let ghost n = inc.len();
    assert(inc.take(0) =~= Seq::<T>::empty());
    assert(inc.skip(0) =~= inc);
    while rest.len() > 0
        invariant
            rest@.len() <= n,
            n == inc.len(),
            rest@ == inc.skip(n - rest@.len()),
            items@ == merged(start, inc.take(n - rest@.len())),
        decreases rest.len(),
    {
        let ghost i = n - rest@.len();
        let ghost before = rest@;
        let x = rest.remove(0);
        assert(x == inc[i]);
        assert(before.drop_first() =~= rest@);
        assert(rest@ =~= inc.skip(n - rest@.len()));
        assert(inc.take(i + 1).drop_last() =~= inc.take(i));
        upsert(items, x);
    }
    assert(inc.take(n as int) =~= inc);
}

// ---------------------------------------------------------------------------
// Laws
// ---------------------------------------------------------------------------

/// After inserting or replacing `x`, looking up its key gives `x`.
pub proof fn lemma_upsert_then_lookup<T: Keyed>(s: Seq<T>, x: T)
    ensures
        lookup(upserted(s, x), x.key_view()) == Some(x),
{
    let k = x.key_view();
    lemma_index_of_key(s, k);
    let u = upserted(s, x);
    match index_of_key(s, k) {
        Some(i) => {
            assert forall|j: int| 0 <= j < i implies #[trigger] u[j].key_view() != k by {
                assert(u[j] == s[j]);
            }
            lemma_index_of_key_unique(u, k, i);
        },
        None => {
            assert forall|j: int| 0 <= j < s.len() implies #[trigger] u[j].key_view() != k by {
                assert(u[j] == s[j]);
            }
            lemma_index_of_key_unique(u, k, s.len() as int);
        },
    }
}

/// Inserting or replacing `x` leaves the lookup of every other key as it was.
pub proof fn lemma_upsert_keeps_other_keys<T: Keyed>(s: Seq<T>, x: T, k: Seq<char>)
    requires
        k != x.key_view(),
    ensures
        lookup(upserted(s, x), k) == lookup(s, k),
{
    lemma_index_of_key(s, k);
    lemma_index_of_key(s, x.key_view());
    let u = upserted(s, x);
    assert(forall|j: int| 0 <= j < u.len() ==> (#[trigger] u[j].key_view() == k) == (j < s.len()
        && s[j].key_view() == k)) by {
        assert forall|j: int| 0 <= j < u.len() implies (#[trigger] u[j].key_view() == k) == (j
            < s.len() && s[j].key_view() == k) by {
            if j < s.len() && u[j] != s[j] {
                assert(u[j] == x);
            }
        }
    }
    match index_of_key(s, k) {
        Some(i) => {
            assert(u[i] == s[i]) by {
                if u[i] != s[i] {
                    assert(u[i] == x);
                }
            }
            lemma_index_of_key_unique(u, k, i);
        },
        None => {
            lemma_index_of_key_none(u, k);
        },
    }
}

/// After removing a key, nothing is found under it, and every other key
/// is found as before.
pub proof fn lemma_remove_then_lookup<T: Keyed>(s: Seq<T>, k: Seq<char>, other: Seq<char>)
    requires
        other != k,
    ensures
        lookup(without_key(s, k), k) is None,
        lookup(without_key(s, k), other) == lookup(s, other),
    decreases s.len(),
{
    if s.len() > 0 {
        lemma_remove_then_lookup(s.drop_first(), k, other);
        let w = without_key(s, k);
        let r = without_key(s.drop_first(), k);
        let t = s.drop_first();
        match index_of_key(t, other) {
            Some(i) => {
                lemma_index_of_key(t, other);
                assert(s[i + 1] == t[i]);
            },
            None => {},
        }
        if s[0].key_view() != k {
            assert(w == seq![s[0]] + r);
            assert(w[0] == s[0]);
            assert(w.drop_first() =~= r);
            match index_of_key(r, other) {
                Some(i) => {
                    lemma_index_of_key(r, other);
                    assert(w[i + 1] == r[i]);
                },
                None => {},
            }
        }
    }
}

/// The last record of key `k` in `s`.
pub open spec fn last_with_key<T: Keyed>(s: Seq<T>, k: Seq<char>) -> Option<T>
    decreases s.len(),
{
    if s.len() == 0 {
        None
    } else if s.last().key_view() == k {
        Some(s.last())
    } else {
        last_with_key(s.drop_last(), k)
    }
}

/// After a merge, a key of the incoming records is found with the last
/// incoming record of that key; any other key is found as before.
pub proof fn lemma_merge_then_lookup<T: Keyed>(s: Seq<T>, incoming: Seq<T>, k: Seq<char>)
    ensures
        lookup(merged(s, incoming), k) == match last_with_key(incoming, k) {
            Some(x) => Some(x),
            None => lookup(s, k),
        },
    decreases incoming.len(),
{
    if incoming.len() > 0 {
        lemma_merge_then_lookup(s, incoming.drop_last(), k);
        let x = incoming.last();
        if x.key_view() == k {
            lemma_upsert_then_lookup(merged(s, incoming.drop_last()), x);
        } else {
            lemma_upsert_keeps_other_keys(merged(s, incoming.drop_last()), x, k);
        }
    }
}

} // verus!
