//! Laws of the vector index, stated and proved over its model.

use vstd::prelude::*;

use crate::vector_index::{lemma_push_contains, without, IndexModel};

verus! {

/// One mutation of an index.
pub enum IndexOp {
    Upsert(i64, Seq<u32>),
    Remove(i64),
}

/// The model after one operation.
pub open spec fn apply_op(m: IndexModel, op: IndexOp) -> IndexModel {
    match op {
        IndexOp::Upsert(id, v) => m.upserted(id, v),
        IndexOp::Remove(id) => m.removed(id),
    }
}

/// The model after a sequence of operations, first to last.
pub open spec fn apply_ops(m: IndexModel, ops: Seq<IndexOp>) -> IndexModel
    decreases ops.len(),
{
    if ops.len() == 0 {
        m
    } else {
        apply_op(apply_ops(m, ops.drop_last()), ops.last())
    }
}

/// Every upsert of `ops` carries a vector of `dim` components.
pub open spec fn upserts_have_dim(ops: Seq<IndexOp>, dim: nat) -> bool {
    forall|i: int|
        0 <= i < ops.len() ==> match #[trigger] ops[i] {
            IndexOp::Upsert(_, v) => v.len() == dim,
            IndexOp::Remove(_) => true,
        }
}

/// The model after upserting `ids[i]` with `vs[i]`, in order.
pub open spec fn upsert_all(m: IndexModel, ids: Seq<i64>, vs: Seq<Seq<u32>>) -> IndexModel
    decreases ids.len(),
{
    if ids.len() == 0 {
        m
    } else {
        upsert_all(m, ids.drop_last(), vs).upserted(ids.last(), vs[ids.len() - 1])
    }
}

proof fn lemma_without(s: Seq<i64>, id: i64)
    ensures
        forall|x: i64| #[trigger] without(s, id).contains(x) <==> s.contains(x) && x != id,
        s.no_duplicates() ==> without(s, id).no_duplicates(),
        s.no_duplicates() && s.contains(id) ==> without(s, id).len() == s.len() - 1,
        !s.contains(id) ==> without(s, id) == s,
    decreases s.len(),
{
    if s.len() > 0 {
        let t = s.drop_last();
        lemma_without(t, id);
        let w = without(t, id);
        assert forall|x: i64| #[trigger] without(s, id).contains(x) <==> s.contains(x) && x != id by {
            if s.contains(x) {
                let j = choose|j: int| 0 <= j < s.len() && s[j] == x;
                if j < t.len() {
                    assert(t[j] == x);
                }
            }
            if t.contains(x) {
                let j = choose|j: int| 0 <= j < t.len() && t[j] == x;
                assert(s[j] == x);
            }
            if s.last() != id {
                let w2 = w.push(s.last());
                if w2.contains(x) {
                    let j = choose|j: int| 0 <= j < w2.len() && w2[j] == x;
                    if j < w.len() {
                        assert(w[j] == x);
                    }
                }
                if w.contains(x) {
                    let j = choose|j: int| 0 <= j < w.len() && w[j] == x;
                    assert(w2[j] == x);
                }
                assert(w2[w.len() as int] == s.last());
            }
        }
        if s.no_duplicates() {
            assert(!t.contains(s.last())) by {
                if t.contains(s.last()) {
                    let j = choose|j: int| 0 <= j < t.len() && t[j] == s.last();
                    assert(s[j] == s[s.len() - 1]);
                }
            }
            if s.last() != id {
                let w2 = w.push(s.last());
                assert forall|a: int, b: int| 0 <= a < b < w2.len() implies w2[a] != w2[b] by {
                    if b == w.len() {
                        assert(w.contains(w2[a]));
                    }
                }
            }
            if s.contains(id) && s.last() != id {
                let j = choose|j: int| 0 <= j < s.len() && s[j] == id;
                assert(t[j] == id);
            }
            if s.last() == id {
                assert(!t.contains(id));
            }
        }
        if !s.contains(id) {
            assert(!t.contains(id)) by {
                if t.contains(id) {
                    let j = choose|j: int| 0 <= j < t.len() && t[j] == id;
                    assert(s[j] == id);
                }
            }
            assert(s.last() != id) by {
                assert(s[s.len() - 1] == s.last());
            }
            assert(t.push(s.last()) =~= s);
        }
    }
}

/// Removing an identifier keeps a model well formed and leaves it one
/// entry shorter if the identifier was present.
pub proof fn lemma_removed_wf(m: IndexModel, id: i64)
    requires
        m.wf(),
    ensures
        m.removed(id).wf(),
        !m.removed(id).contains(id),
        m.removed(id).len() == if m.contains(id) { m.len() - 1 } else { m.len() as int },
        m.removed(id).dim == m.dim,
        m.removed(id).max_items == m.max_items,
        m.removed(id).min_score == m.min_score,
{
    lemma_without(m.recency, id);
}

/// Upserting a vector of `dim` components keeps a model well formed; the
/// identifier is then present with that vector.
pub proof fn lemma_upserted_wf(m: IndexModel, id: i64, v: Seq<u32>)
    requires
        m.wf(),
        v.len() == m.dim,
    ensures
        m.upserted(id, v).wf(),
        m.upserted(id, v).contains(id),
        m.upserted(id, v).entries[id] == v,
        m.upserted(id, v).recency.last() == id,
        m.upserted(id, v).dim == m.dim,
        m.upserted(id, v).max_items == m.max_items,
        m.upserted(id, v).min_score == m.min_score,
{
    let base = if m.contains(id) {
        m.removed(id)
    } else if m.recency.len() < m.max_items {
        m
    } else {
        m.removed(m.recency[0])
    };
    if m.contains(id) {
        lemma_removed_wf(m, id);
    } else if m.recency.len() >= m.max_items {
        assert(m.recency.contains(m.recency[0]));
        lemma_removed_wf(m, m.recency[0]);
    }
    assert(!base.recency.contains(id));
    lemma_push_contains(base.recency, id);
}

/// However `upsert` and `remove` calls follow one another, starting from a
/// well-formed model and upserting only vectors of `dim` components, the
/// index never holds more than `max_items` identifiers and every identifier
/// it holds maps to a vector of exactly `dim` components.
pub proof fn lemma_ops_stay_bounded(m: IndexModel, ops: Seq<IndexOp>)
    requires
        m.wf(),
        upserts_have_dim(ops, m.dim),
    ensures
        apply_ops(m, ops).wf(),
        apply_ops(m, ops).dim == m.dim,
        apply_ops(m, ops).max_items == m.max_items,
        apply_ops(m, ops).len() <= m.max_items,
        forall|id: i64| #[trigger]
            apply_ops(m, ops).contains(id) ==> apply_ops(m, ops).entries[id].len() == m.dim,
    decreases ops.len(),
{
    if ops.len() > 0 {
        let rest = ops.drop_last();
        assert(upserts_have_dim(rest, m.dim)) by {
            assert forall|i: int| 0 <= i < rest.len() implies match #[trigger] rest[i] {
                IndexOp::Upsert(_, v) => v.len() == m.dim,
                IndexOp::Remove(_) => true,
            } by {
                assert(rest[i] == ops[i]);
            }
        }
        lemma_ops_stay_bounded(m, rest);
        let before = apply_ops(m, rest);
        let last = ops[ops.len() - 1];
        match last {
            IndexOp::Upsert(id, v) => {
                lemma_upserted_wf(before, id, v);
            },
            IndexOp::Remove(id) => {
                lemma_removed_wf(before, id);
            },
        }
    }
}

/// Filling an empty model with up to `max_items` distinct identifiers keeps
/// them all, in insertion order.
proof fn lemma_fill(m: IndexModel, ids: Seq<i64>, vs: Seq<Seq<u32>>)
    requires
        m.wf(),
        m.entries == Map::<i64, Seq<u32>>::empty(),
        m.recency.len() == 0,
        ids.no_duplicates(),
        ids.len() <= m.max_items,
        vs.len() >= ids.len(),
        forall|i: int| 0 <= i < vs.len() ==> (#[trigger] vs[i]).len() == m.dim,
    ensures
        upsert_all(m, ids, vs).wf(),
        upsert_all(m, ids, vs).recency == ids,
        upsert_all(m, ids, vs).dim == m.dim,
        upsert_all(m, ids, vs).max_items == m.max_items,
    decreases ids.len(),
{
    if ids.len() > 0 {
        let t = ids.drop_last();
        assert(t.no_duplicates());
        lemma_fill(m, t, vs);
        let before = upsert_all(m, t, vs);
        let x = ids.last();
        assert(!t.contains(x)) by {
            if t.contains(x) {
                let j = choose|j: int| 0 <= j < t.len() && t[j] == x;
                assert(ids[j] == ids[ids.len() - 1]);
            }
        }
        assert(!before.contains(x));
        lemma_upserted_wf(before, x, vs[ids.len() - 1]);
        assert(t.push(x) =~= ids);
    }
}

/// Upserting `max_items + 1` distinct identifiers into an empty index, with
/// nothing else in between, evicts exactly the first of them: it is gone
/// and every later one is present.
pub proof fn lemma_eviction_order(m: IndexModel, ids: Seq<i64>, vs: Seq<Seq<u32>>)
    requires
        m.wf(),
        m.entries == Map::<i64, Seq<u32>>::empty(),
        m.recency.len() == 0,
        ids.no_duplicates(),
        ids.len() == m.max_items + 1,
        vs.len() == ids.len(),
        forall|i: int| 0 <= i < vs.len() ==> (#[trigger] vs[i]).len() == m.dim,
    ensures
        !upsert_all(m, ids, vs).contains(ids[0]),
        forall|i: int| 1 <= i < ids.len() ==> upsert_all(m, ids, vs).contains(#[trigger] ids[i]),
        upsert_all(m, ids, vs).len() == m.max_items,
{
    let t = ids.drop_last();
    assert(t.no_duplicates());
    lemma_fill(m, t, vs);
    let full = upsert_all(m, t, vs);
    let x = ids.last();
    assert(!t.contains(x)) by {
        if t.contains(x) {
            let j = choose|j: int| 0 <= j < t.len() && t[j] == x;
            assert(ids[j] == ids[ids.len() - 1]);
        }
    }
    assert(!full.contains(x));
    assert(full.recency[0] == ids[0]);
    assert(full.recency.contains(ids[0]));
    lemma_removed_wf(full, ids[0]);
    lemma_without(full.recency, ids[0]);
    let after = upsert_all(m, ids, vs);
    assert forall|i: int| 1 <= i < ids.len() implies after.contains(#[trigger] ids[i]) by {
        if i < t.len() {
            assert(t[i] == ids[i]);
            assert(t.contains(ids[i]));
            assert(ids[i] != ids[0]);
        }
    }
}

/// Refreshing a present identifier by an upsert protects it: when the
/// index is full and a new identifier arrives, the refreshed one stays and
/// the least recently used of the others is evicted instead.
pub proof fn lemma_refresh_protects(
    m: IndexModel,
    id: i64,
    v: Seq<u32>,
    fresh: i64,
    w: Seq<u32>,
)
    requires
        m.wf(),
        m.contains(id),
        !m.contains(fresh),
        fresh != id,
        m.len() == m.max_items,
        m.max_items >= 2,
        v.len() == m.dim,
        w.len() == m.dim,
    ensures
        m.upserted(id, v).upserted(fresh, w).contains(id),
        m.upserted(id, v).upserted(fresh, w).contains(fresh),
        !m.upserted(id, v).upserted(fresh, w).contains(without(m.recency, id)[0]),
{
    lemma_without(m.recency, id);
    let m1 = m.upserted(id, v);
    lemma_upserted_wf(m, id, v);
    let w0 = without(m.recency, id);
    assert(m1.recency == w0.push(id));
    assert(m1.recency[0] == w0[0]);
    assert(w0.contains(w0[0]));
    assert(w0[0] != id);
    assert(!m1.contains(fresh));
    assert(m1.recency.len() == m.max_items);
    lemma_removed_wf(m1, w0[0]);
    lemma_upserted_wf(m1, fresh, w);
}

/// Removal undoes insertion: upserting an absent identifier into an index
/// with room and then removing it gives back the index as it was, so the
/// identifier is absent and the length is the one before the upsert.
pub proof fn lemma_remove_undoes_upsert(m: IndexModel, id: i64, v: Seq<u32>)
    requires
        m.wf(),
        !m.contains(id),
        m.len() < m.max_items,
    ensures
        m.upserted(id, v).removed(id) == m,
        !m.upserted(id, v).removed(id).contains(id),
        m.upserted(id, v).removed(id).len() == m.len(),
{
    let m1 = m.upserted(id, v);
    assert(!m.recency.contains(id));
    lemma_push_contains(m.recency, id);
    lemma_without(m.recency, id);
    assert(without(m1.recency, id) == without(m.recency, id)) by {
        assert(m1.recency.drop_last() =~= m.recency);
    }
    assert(m1.entries.remove(id) =~= m.entries);
}

} // verus!
