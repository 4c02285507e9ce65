//! The catalog file and its schema versions.

use vstd::prelude::*;

verus! {

/// The name of the catalog file inside the collection directory.
pub const DB_FILE_NAME: &'static str = "collectune.db";

/// The versions of `versions` that lie after `current`, in their order.
pub open spec fn later_versions(versions: Seq<u32>, current: u32) -> Seq<u32>
    decreases versions.len(),
{
    if versions.len() == 0 {
        Seq::empty()
    } else {
        let before = later_versions(versions.drop_last(), current);
        if versions.last() > current {
            before.push(versions.last())
        } else {
            before
        }
    }
}

/// Picks the migrations that a catalog at version `current_version` has
/// still to run: those with a later version, in the order in which the
/// migrations are listed.
pub fn pending_migrations(versions: &Vec<u32>, current_version: u32) -> (r: Vec<u32>)
    ensures
        r@ == later_versions(versions@, current_version),
{
    let mut r: Vec<u32> = Vec::new();
    let mut i: usize = 0;
    assert(versions@.take(0) =~= Seq::empty());
    while i < versions.len()
        invariant
            i <= versions.len(),
            r@ == later_versions(versions@.take(i as int), current_version),
        decreases versions.len() - i,
    {
        assert(versions@.take(i + 1).drop_last() =~= versions@.take(i as int));
        if versions[i] > current_version {
            r.push(versions[i]);
        }
        i += 1;
    }
    assert(versions@.take(versions.len() as int) =~= versions@);
    r
}

/// Where the migrations are listed in ascending order, the pending ones are
/// in ascending order too.
pub proof fn lemma_pending_ascend(versions: Seq<u32>, current: u32)
    requires
        forall|i: int, j: int| 0 <= i < j < versions.len() ==> versions[i] < versions[j],
    ensures
        forall|i: int, j: int|
            0 <= i < j < later_versions(versions, current).len() ==> later_versions(
                versions,
                current,
            )[i] < later_versions(versions, current)[j],
        forall|k: int|
            0 <= k < later_versions(versions, current).len() ==> versions.contains(
                #[trigger] later_versions(versions, current)[k],
            ) && later_versions(versions, current)[k] > current,
    decreases versions.len(),
{
    if versions.len() > 0 {
        let before = versions.drop_last();
        lemma_pending_ascend(before, current);
        let lb = later_versions(before, current);
        assert forall|k: int| 0 <= k < lb.len() implies versions.contains(#[trigger] lb[k])
            && lb[k] < versions.last() by {
            assert(before.contains(lb[k]));
            let i = choose|i: int| 0 <= i < before.len() && before[i] == lb[k];
            assert(versions[i] == lb[k]);
        }
        assert(versions[versions.len() - 1] == versions.last());
    }
}

} // verus!
