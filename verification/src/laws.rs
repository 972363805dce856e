use vstd::prelude::*;

use crate::store::dist2;

verus! {

/// Law of uniqueness: after a successful insert of `id`, the collection
/// holds exactly `v1` for `id`. Together with `VecStore::insert`'s
/// contract — which returns `DuplicateKey` and leaves the collection
/// untouched whenever `id` is already present — a second insert of the
/// same `id` fails and the first record's data is unaffected.
pub proof fn lemma_insert_unique(m: Map<i64, Seq<i32>>, id: i64, v1: Seq<i32>)
    requires
        !m.contains_key(id),
    ensures
        m.insert(id, v1).contains_key(id),
        m.insert(id, v1)[id] == v1,
{
}

/// Law of idempotent delete: deleting an absent identifier changes
/// nothing, and deleting twice is the same as deleting once. These are
/// exactly the two shapes `VecStore::delete`'s contract produces, since
/// it always ends with `old(self)@.remove(id)`.
pub proof fn lemma_delete_idempotent(m: Map<i64, Seq<i32>>, id: i64)
    ensures
        m.remove(id).remove(id) == m.remove(id),
        !m.contains_key(id) ==> m.remove(id) == m,
{
    assert(m.remove(id).remove(id) =~= m.remove(id));
    if !m.contains_key(id) {
        assert(m.remove(id) =~= m);
    }
}

/// Law of replacement: an update leaves exactly the new embedding behind,
/// never a blend with the prior one, so any later query measures its
/// distances against `v2` alone. `VecStore::update`'s contract ends a
/// successful call with `old(self)@.insert(id, v2)`, and
/// `VecStore::query_nearest` reports `dist2` of whatever the collection
/// then holds.
pub proof fn lemma_update_replaces(
    m: Map<i64, Seq<i32>>,
    id: i64,
    v1: Seq<i32>,
    v2: Seq<i32>,
    q: Seq<i32>,
)
    ensures
        m.insert(id, v1).insert(id, v2) == m.insert(id, v2),
        m.insert(id, v2)[id] == v2,
        dist2(q, m.insert(id, v2)[id]) == dist2(q, v2),
{
    assert(m.insert(id, v1).insert(id, v2) =~= m.insert(id, v2));
}

} // verus!
