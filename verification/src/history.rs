//! The history of finished encodes (newest first, one entry per id, at most
//! `MAX_ENTRIES`), kept in `history.json`.

use vstd::prelude::*;
use crate::records::{remove_key, without_key, Keyed};
use crate::types::HistoryEntry;

verus! {

/// The most entries kept; older ones are dropped.
pub const MAX_ENTRIES: usize = 500;

impl Keyed for HistoryEntry {
    open spec fn key_view(&self) -> Seq<char> {
        self.id@
    }

    fn key(&self) -> (r: &str) {
        self.id.as_str()
    }
}

/// The history after adding `entry`: first, without older entries of its
/// id, cut to `MAX_ENTRIES`.
pub open spec fn spec_add_history(items: Seq<HistoryEntry>, entry: HistoryEntry) -> Seq<
    HistoryEntry,
> {
    let r = seq![entry] + without_key(items, entry.id@);
    if r.len() > MAX_ENTRIES {
        r.take(MAX_ENTRIES as int)
    } else {
        r
    }
}

/// Adds an entry at the front, removing earlier entries of the same id and
/// dropping the oldest beyond `MAX_ENTRIES`.
pub fn add_history(items: &mut Vec<HistoryEntry>, entry: HistoryEntry)
    ensures
        final(items)@ == spec_add_history(old(items)@, entry),
{
    let ghost e = entry;
    let id = entry.id.clone();
    remove_key(items, id.as_str());
    items.insert(0, entry);
    assert(items@ =~= seq![e] + without_key(old(items)@, e.id@));
    items.truncate(MAX_ENTRIES);
}

/// Removes the entries of the given id.
pub fn delete_history(items: &mut Vec<HistoryEntry>, id: &str)
    ensures
        final(items)@ == without_key(old(items)@, id@),
{
    remove_key(items, id);
}

/// After adding an entry, it is the newest, it is the only one of its id,
/// and the history holds at most `MAX_ENTRIES` entries.
pub proof fn lemma_add_history_shape(items: Seq<HistoryEntry>, entry: HistoryEntry)
    ensures
        spec_add_history(items, entry).len() <= MAX_ENTRIES,
        spec_add_history(items, entry)[0] == entry,
        forall|i: int|
            0 < i < spec_add_history(items, entry).len() ==> #[trigger] spec_add_history(
                items,
                entry,
            )[i].id@ != entry.id@,
{
    let w = without_key(items, entry.id@);
    lemma_without_key_excludes(items, entry.id@);
    let r = seq![entry] + w;
    let h = spec_add_history(items, entry);
    assert forall|i: int| 0 < i < h.len() implies #[trigger] h[i].id@ != entry.id@ by {
        assert(h[i] == r[i]);
        assert(r[i] == w[i - 1]);
        assert(w[i - 1].key_view() != entry.id@);
    }
}

/// No record of the removed key is left.
pub proof fn lemma_without_key_excludes<T: Keyed>(s: Seq<T>, k: Seq<char>)
    ensures
        forall|i: int| 0 <= i < without_key(s, k).len() ==> #[trigger] without_key(s, k)[i].key_view() != k,
    decreases s.len(),
{
    if s.len() > 0 {
        lemma_without_key_excludes(s.drop_first(), k);
        let r = without_key(s.drop_first(), k);
        let w = without_key(s, k);
        if s[0].key_view() != k {
            assert forall|i: int| 0 <= i < w.len() implies #[trigger] w[i].key_view() != k by {
                if i > 0 {
                    assert(w[i] == r[i - 1]);
                }
            }
        }
    }
}

} // verus!
