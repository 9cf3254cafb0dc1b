//! Batch scheduling: which encoded items are uploaded, and in which order.

use vstd::prelude::*;

verus! {

/// The (item id, output path) pairs of the encodes that succeeded, in the
/// items' order.
pub open spec fn spec_successful_encodes(results: Seq<(String, Result<String, String>)>) -> Seq<
    (String, String),
>
    decreases results.len(),
{
    if results.len() == 0 {
        Seq::empty()
    } else {
        let prev = spec_successful_encodes(results.drop_last());
        match results.last().1 {
            Ok(out) => prev.push((results.last().0, out)),
            Err(_) => prev,
        }
    }
}

/// Keeps the encodes that succeeded, in the items' order, for upload
/// (a failed item is only logged and does not stop the batch).
pub fn successful_encodes(results: Vec<(String, Result<String, String>)>) -> (r: Vec<(String, String)>)
    ensures
        r@ == spec_successful_encodes(results@),
{
    let ghost all = results@;
    let mut rest = results;
    let mut r: Vec<(String, String)> = Vec::new();
    let ghost n = all.len();
    assert(all.take(0) =~= Seq::<(String, Result<String, String>)>::empty());
    assert(all.skip(0) =~= all);
    while rest.len() > 0
        invariant
            rest@.len() <= n,
            n == all.len(),
            rest@ == all.skip(n - rest@.len()),
            r@ == spec_successful_encodes(all.take(n - rest@.len())),
        decreases rest.len(),
    {
        let ghost i = n - rest@.len();
        let ghost before = rest@;
        let (id, res) = rest.remove(0);
        assert(before.drop_first() =~= rest@);
        assert(rest@ =~= all.skip(n - rest@.len()));
        assert(all.take(i + 1).drop_last() =~= all.take(i));
        assert(all.take(i + 1).last() == (id, res));
        match res {
            Ok(out) => r.push((id, out)),
            Err(_) => {},
        }
    }
    assert(all.take(n as int) =~= all);
    r
}

} // verus!
