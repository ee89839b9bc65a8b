//! Bounded in-memory vector index with least-recently-used eviction.
//!
//! Vectors are packed contiguously in one buffer, `dim` components per slot;
//! a map from identifier to slot gives constant-time lookup, and removal
//! swaps the last slot into the freed one. A recency queue (front = least
//! recently used) decides which identifier is evicted when the index is full.

use std::collections::HashMap;
use std::collections::VecDeque;
use vstd::prelude::*;

use crate::ranking::{is_top_k, select_top_k, SearchResult};

verus! {

broadcast use vstd::std_specs::hash::group_hash_axioms;

/// Default dimension of a stored embedding.
pub const EMBEDDING_DIM: usize = 768;

/// Default bound on the number of vectors kept in memory.
pub const MAX_EMBEDDINGS_IN_MEMORY: usize = 50_000;

/// Default minimum similarity (bit pattern of `0.2f32`).
pub const MIN_SIMILARITY_SCORE: u32 = 0x3e4c_cccd;

/// `s` with every occurrence of `id` taken out, order kept.
pub open spec fn without(s: Seq<i64>, id: i64) -> Seq<i64>
    decreases s.len(),
{
    if s.len() == 0 {
        s
    } else if s.last() == id {
        without(s.drop_last(), id)
    } else {
        without(s.drop_last(), id).push(s.last())
    }
}

/// The abstract content of an index: its configuration, the vector of each
/// identifier, and the identifiers from least to most recently used.
pub struct IndexModel {
    pub dim: nat,
    pub max_items: nat,
    pub min_score: u32,
    pub entries: Map<i64, Seq<u32>>,
    pub recency: Seq<i64>,
}

impl IndexModel {
    /// At most `max_items` identifiers, each once in the recency order and
    /// each mapped to a vector of exactly `dim` components.
    pub open spec fn wf(self) -> bool {
        &&& self.max_items >= 1
        &&& self.recency.no_duplicates()
        &&& forall|id: i64| #[trigger]
            self.entries.contains_key(id) <==> self.recency.contains(id)
        &&& forall|id: i64| #[trigger]
            self.entries.contains_key(id) ==> self.entries[id].len() == self.dim
        &&& self.recency.len() <= self.max_items
    }

    pub open spec fn len(self) -> nat {
        self.recency.len()
    }

    pub open spec fn contains(self, id: i64) -> bool {
        self.entries.contains_key(id)
    }

    /// The same configuration with no entries.
    pub open spec fn cleared(self) -> IndexModel {
        IndexModel {
            dim: self.dim,
            max_items: self.max_items,
            min_score: self.min_score,
            entries: Map::empty(),
            recency: Seq::empty(),
        }
    }

    /// `id` added as the most recently used, with vector `v`.
    pub open spec fn appended(self, id: i64, v: Seq<u32>) -> IndexModel {
        IndexModel {
            dim: self.dim,
            max_items: self.max_items,
            min_score: self.min_score,
            entries: self.entries.insert(id, v),
            recency: self.recency.push(id),
        }
    }

    /// `id` taken out, if it is present.
    pub open spec fn removed(self, id: i64) -> IndexModel {
        if self.entries.contains_key(id) {
            IndexModel {
                dim: self.dim,
                max_items: self.max_items,
                min_score: self.min_score,
                entries: self.entries.remove(id),
                recency: without(self.recency, id),
            }
        } else {
            self
        }
    }

    /// The effect of an upsert: a present identifier gets the new vector and
    /// becomes the most recently used; an absent one is appended, after the
    /// least recently used identifier is evicted if the index is full.
    pub open spec fn upserted(self, id: i64, v: Seq<u32>) -> IndexModel {
        if self.entries.contains_key(id) {
            self.removed(id).appended(id, v)
        } else if self.recency.len() < self.max_items {
            self.appended(id, v)
        } else {
            self.removed(self.recency[0]).appended(id, v)
        }
    }
}

/// In-memory embedding index with least-recently-used eviction.
pub struct EmbeddingIndex {
    dim: usize,
    max_items: usize,
    min_score: u32,
    item_ids: Vec<i64>,
    embeddings: Vec<u32>,
    id_to_idx: HashMap<i64, usize>,
    lru_queue: VecDeque<i64>,
}

proof fn lemma_slot_end(i: int, n: int, d: int)
    requires
        0 <= i < n,
        0 <= d,
    ensures
        0 <= i * d,
        i * d + d <= n * d,
{
    assert(0 <= i * d) by (nonlinear_arith)
        requires
            0 <= i,
            0 <= d,
    ;
    assert(i * d + d <= n * d) by (nonlinear_arith)
        requires
            0 <= i < n,
            0 <= d,
    ;
}

/// The `i`-th run of `d` components of a packed buffer.
pub open spec fn slot_of(e: Seq<u32>, i: int, d: int) -> Seq<u32> {
    e.subrange(i * d, i * d + d)
}

/// Two different slots of one buffer do not overlap.
proof fn lemma_slots_apart(i: int, k: int, d: int, t: int)
    requires
        0 <= i,
        0 <= k,
        i != k,
        0 <= t < d,
    ensures
        !(k * d <= i * d + t < k * d + d),
{
    if i < k {
        lemma_slot_end(i, k, d);
    } else {
        lemma_slot_end(k, i, d);
    }
}

/// Removing position `p` of a sequence without duplicates drops exactly
/// the element there.
proof fn lemma_remove_contains(s: Seq<i64>, p: int)
    requires
        s.no_duplicates(),
        0 <= p < s.len(),
    ensures
        s.remove(p).no_duplicates(),
        forall|x: i64| #[trigger] s.remove(p).contains(x) <==> (s.contains(x) && x != s[p]),
{
    s.remove_ensures(p);
    let r = s.remove(p);
    assert forall|x: i64| #[trigger] r.contains(x) <==> (s.contains(x) && x != s[p]) by {
        if r.contains(x) {
            let j = choose|j: int| 0 <= j < r.len() && r[j] == x;
            if j < p {
                assert(s[j] == x);
            } else {
                assert(s[j + 1] == x);
            }
        }
        if s.contains(x) && x != s[p] {
            let j = choose|j: int| 0 <= j < s.len() && s[j] == x;
            if j < p {
                assert(r[j] == x);
            } else {
                assert(j != p);
                assert(r[j - 1] == x);
            }
        }
    }
    assert forall|a: int, b: int| 0 <= a < b < r.len() implies r[a] != r[b] by {
        let a0 = if a < p { a } else { a + 1 };
        let b0 = if b < p { b } else { b + 1 };
        assert(r[a] == s[a0]);
        assert(r[b] == s[b0]);
    }
}

/// Appending `y` to a sequence that lacks it keeps it free of duplicates.
pub(crate) proof fn lemma_push_contains(s: Seq<i64>, y: i64)
    requires
        s.no_duplicates(),
        !s.contains(y),
    ensures
        s.push(y).no_duplicates(),
        forall|x: i64| #[trigger] s.push(y).contains(x) <==> (s.contains(x) || x == y),
{
    let r = s.push(y);
    assert forall|x: i64| #[trigger] r.contains(x) <==> (s.contains(x) || x == y) by {
        if r.contains(x) {
            let j = choose|j: int| 0 <= j < r.len() && r[j] == x;
            if j < s.len() {
                assert(s[j] == x);
            }
        }
        if s.contains(x) {
            let j = choose|j: int| 0 <= j < s.len() && s[j] == x;
            assert(r[j] == x);
        }
        if x == y {
            assert(r[s.len() as int] == x);
        }
    }
    assert forall|a: int, b: int| 0 <= a < b < r.len() implies r[a] != r[b] by {
        if b == s.len() {
            assert(r[a] == s[a]);
        }
    }
}

proof fn lemma_without_at(s: Seq<i64>, p: int)
    requires
        s.no_duplicates(),
        0 <= p < s.len(),
    ensures
        without(s, s[p]) == s.remove(p),
    decreases s.len(),
{
    let id = s[p];
    if p == s.len() - 1 {
        lemma_without_absent(s.drop_last(), id);
        assert(s.remove(p) =~= s.drop_last());
    } else {
        let t = s.drop_last();
        assert(t.no_duplicates());
        assert(t[p] == id);
        lemma_without_at(t, p);
        assert(s.last() != id);
        assert(s.remove(p) =~= t.remove(p).push(s.last()));
    }
}

proof fn lemma_without_absent(s: Seq<i64>, id: i64)
    requires
        !s.contains(id),
    ensures
        without(s, id) == s,
    decreases s.len(),
{
    if s.len() > 0 {
        let t = s.drop_last();
        assert(!t.contains(id)) by {
            if t.contains(id) {
                let j = choose|j: int| 0 <= j < t.len() && t[j] == id;
                assert(s[j] == id);
            }
        }
        lemma_without_absent(t, id);
        assert(s.last() != id) by {
            assert(s[s.len() - 1] == s.last());
        }
        assert(t.push(s.last()) =~= s);
    }
}

/// The identifier array, the position map and the recency queue agree:
/// each identifier sits once in the array, the map sends it to its
/// position, and the queue holds exactly the mapped identifiers, once each.
pub open spec fn layout_ok(ids: Seq<i64>, map: Map<i64, usize>, q: Seq<i64>) -> bool {
    &&& ids.no_duplicates()
    &&& forall|i: int|
        #![trigger map.contains_key(ids[i])]
        #![trigger map[ids[i]]]
        0 <= i < ids.len() ==> map.contains_key(ids[i]) && map[ids[i]] == i
    &&& forall|id: i64|
        #![trigger map.contains_key(id)]
        #![trigger map[id]]
        map.contains_key(id) ==> map[id] < ids.len() && ids[map[id] as int] == id
    &&& q.no_duplicates()
    &&& q.len() == ids.len()
    &&& forall|id: i64| #[trigger] q.contains(id) <==> map.contains_key(id)
}

/// The vector of each mapped identifier, read from its slot of `e`.
pub open spec fn entries_of(map: Map<i64, usize>, e: Seq<u32>, d: int) -> Map<i64, Seq<u32>> {
    Map::new(|id: i64| map.contains_key(id), |id: i64| slot_of(e, map[id] as int, d))
}

/// The position map sends the identifier at position `i` back to `i`.
proof fn lemma_layout_at(ids: Seq<i64>, map: Map<i64, usize>, q: Seq<i64>, i: int)
    requires
        layout_ok(ids, map, q),
        0 <= i < ids.len(),
    ensures
        map.contains_key(ids[i]),
        map[ids[i]] == i,
{
}

/// Two slots read the same components.
proof fn lemma_slot_eq(e1: Seq<u32>, i1: int, e0: Seq<u32>, i0: int, d: int)
    requires
        0 <= i1,
        0 <= i0,
        0 <= d,
        i1 * d + d <= e1.len(),
        i0 * d + d <= e0.len(),
        0 <= i1 * d,
        0 <= i0 * d,
        forall|t: int| 0 <= t < d ==> #[trigger] e1[i1 * d + t] == e0[i0 * d + t],
    ensures
        slot_of(e1, i1, d) == slot_of(e0, i0, d),
{
    assert forall|t: int| 0 <= t < d implies #[trigger] slot_of(e1, i1, d)[t] == slot_of(e0, i0, d)[t] by {
        assert(e1[i1 * d + t] == e0[i0 * d + t]);
    }
    assert(slot_of(e1, i1, d) =~= slot_of(e0, i0, d));
}

proof fn lemma_remove_layout(ids0: Seq<i64>, map0: Map<i64, usize>, q0: Seq<i64>, id: i64, p: int)
    requires
        layout_ok(ids0, map0, q0),
        map0.contains_key(id),
        0 <= p < q0.len(),
        q0[p] == id,
    ensures
        ({
            let idx = map0[id] as int;
            let last = ids0.len() - 1;
            let ids1 = ids0.update(idx, ids0[last]).drop_last();
            let map1 = if idx != last {
                map0.remove(id).insert(ids0[last], idx as usize)
            } else {
                map0.remove(id)
            };
            layout_ok(ids1, map1, q0.remove(p))
        }),
{
    let idx = map0[id] as int;
    let last = ids0.len() - 1;
    let last_id = ids0[last];
    let ids1 = ids0.update(idx, last_id).drop_last();
    let map1 = if idx != last {
        map0.remove(id).insert(last_id, idx as usize)
    } else {
        map0.remove(id)
    };
    let q1 = q0.remove(p);
    lemma_remove_contains(q0, p);
    assert(ids0[idx] == id);
    assert forall|i: int| 0 <= i < ids1.len() implies #[trigger] map1.contains_key(ids1[i]) && map1[ids1[i]]
        == i by {
        if i == idx {
            assert(ids1[i] == last_id);
        } else {
            assert(ids1[i] == ids0[i]);
            assert(map0.contains_key(ids0[i]) && map0[ids0[i]] == i);
        }
    }
    assert forall|x: i64| #[trigger] map1.contains_key(x) implies map1[x] < ids1.len() && ids1[map1[x] as int]
        == x by {
        if !(idx != last && x == last_id) {
            assert(map0.contains_key(x));
            let i0 = map0[x] as int;
            assert(ids0[i0] == x);
            assert(i0 != idx);
            assert(i0 != last);
        }
    }
    assert forall|a: int, b: int| 0 <= a < b < ids1.len() implies ids1[a] != ids1[b] by {
        let a0 = if a == idx { last } else { a };
        let b0 = if b == idx { last } else { b };
        assert(ids1[a] == ids0[a0]);
        assert(ids1[b] == ids0[b0]);
    }
    assert forall|x: i64| #[trigger] q1.contains(x) <==> map1.contains_key(x) by {
        assert(q0.contains(x) <==> map0.contains_key(x));
    }
}

proof fn lemma_remove_entries(
    ids0: Seq<i64>,
    map0: Map<i64, usize>,
    q0: Seq<i64>,
    e0: Seq<u32>,
    e1: Seq<u32>,
    d: int,
    id: i64,
)
    requires
        layout_ok(ids0, map0, q0),
        map0.contains_key(id),
        0 <= d,
        e0.len() == ids0.len() * d,
        e1.len() == (ids0.len() - 1) * d,
        forall|t: int|
            0 <= t < d && map0[id] != ids0.len() - 1 ==> #[trigger] e1[map0[id] * d + t] == e0[(
            ids0.len() - 1) * d + t],
        forall|k: int|
            0 <= k < e1.len() && !(map0[id] != ids0.len() - 1 && map0[id] * d <= k < map0[id] * d + d)
                ==> #[trigger] e1[k] == e0[k],
    ensures
        ({
            let idx = map0[id] as int;
            let last = ids0.len() - 1;
            let map1 = if idx != last {
                map0.remove(id).insert(ids0[last], idx as usize)
            } else {
                map0.remove(id)
            };
            entries_of(map1, e1, d) == entries_of(map0, e0, d).remove(id)
        }),
{
    let idx = map0[id] as int;
    let last = ids0.len() - 1;
    let last_id = ids0[last];
    let map1 = if idx != last {
        map0.remove(id).insert(last_id, idx as usize)
    } else {
        map0.remove(id)
    };
    assert(ids0[idx] == id);
    assert forall|x: i64| #[trigger] map1.contains_key(x) implies slot_of(e1, map1[x] as int, d) == slot_of(
        e0,
        map0[x] as int,
        d,
    ) by {
        let i = map1[x] as int;
        if idx != last && x == last_id {
            assert(0 <= idx < ids0.len());
            assert(0 <= last < ids0.len());
            lemma_layout_at(ids0, map0, q0, last);
            assert(map0[x] == last);
            lemma_slot_end(i, last, d);
            lemma_slot_end(last, ids0.len() as int, d);
            lemma_slot_eq(e1, i, e0, last, d);
        } else {
            let i0 = map0[x] as int;
            assert(ids0[i0] == x);
            assert(i0 != idx);
            assert(i0 != last);
            assert(i == i0);
            lemma_slot_end(i, last, d);
            lemma_slot_end(i, ids0.len() as int, d);
            assert forall|t: int| 0 <= t < d implies #[trigger] e1[i * d + t] == e0[i * d + t] by {
                lemma_slots_apart(i, idx, d, t);
            }
            lemma_slot_eq(e1, i, e0, i, d);
        }
    }
    assert(entries_of(map1, e1, d) =~= entries_of(map0, e0, d).remove(id));
}

proof fn lemma_refresh_layout(ids: Seq<i64>, map: Map<i64, usize>, q0: Seq<i64>, id: i64, p: int)
    requires
        layout_ok(ids, map, q0),
        0 <= p < q0.len(),
        q0[p] == id,
    ensures
        layout_ok(ids, map, q0.remove(p).push(id)),
        q0.remove(p).push(id) == without(q0, id).push(id),
{
    lemma_remove_contains(q0, p);
    lemma_push_contains(q0.remove(p), id);
    lemma_without_at(q0, p);
    let q1 = q0.remove(p).push(id);
    assert forall|x: i64| #[trigger] q1.contains(x) <==> map.contains_key(x) by {
        assert(q0.contains(x) <==> map.contains_key(x));
    }
}

proof fn lemma_overwrite_entries(map: Map<i64, usize>, n: int, e0: Seq<u32>, e1: Seq<u32>, d: int, id: i64, v: Seq<u32>)
    requires
        map.contains_key(id),
        forall|x: i64| #[trigger] map.contains_key(x) ==> map[x] < n,
        forall|x: i64, y: i64| map.contains_key(x) && map.contains_key(y) && x != y ==> #[trigger] map[x] != #[trigger] map[y],
        0 <= d,
        e0.len() == n * d,
        e1.len() == e0.len(),
        v.len() == d,
        forall|t: int| 0 <= t < d ==> #[trigger] e1[map[id] * d + t] == v[t],
        forall|k: int| 0 <= k < e0.len() && !(map[id] * d <= k < map[id] * d + d) ==> #[trigger] e1[k] == e0[k],
    ensures
        entries_of(map, e1, d) == entries_of(map, e0, d).insert(id, v),
{
    let idx = map[id] as int;
    lemma_slot_end(idx, n, d);
    assert forall|t: int| 0 <= t < d implies #[trigger] slot_of(e1, idx, d)[t] == v[t] by {
        assert(e1[idx * d + t] == v[t]);
    }
    assert(slot_of(e1, idx, d) =~= v);
    assert forall|x: i64| #[trigger] map.contains_key(x) && x != id implies slot_of(e1, map[x] as int, d)
        == slot_of(e0, map[x] as int, d) by {
        let i = map[x] as int;
        lemma_slot_end(i, n, d);
        assert forall|t: int| 0 <= t < d implies #[trigger] e1[i * d + t] == e0[i * d + t] by {
            lemma_slots_apart(i, idx, d, t);
        }
        lemma_slot_eq(e1, i, e0, i, d);
    }
    assert(entries_of(map, e1, d) =~= entries_of(map, e0, d).insert(id, v));
}

proof fn lemma_append(ids: Seq<i64>, map: Map<i64, usize>, q: Seq<i64>, e0: Seq<u32>, e1: Seq<u32>, d: int, id: i64, v: Seq<u32>)
    requires
        layout_ok(ids, map, q),
        !map.contains_key(id),
        ids.len() < usize::MAX,
        0 <= d,
        e0.len() == ids.len() * d,
        e1.len() == e0.len() + d,
        v.len() == d,
        forall|t: int| 0 <= t < d ==> #[trigger] e1[ids.len() * d + t] == v[t],
        forall|k: int| 0 <= k < e0.len() ==> #[trigger] e1[k] == e0[k],
    ensures
        layout_ok(ids.push(id), map.insert(id, ids.len() as usize), q.push(id)),
        e1.len() == (ids.len() + 1) * d,
        entries_of(map.insert(id, ids.len() as usize), e1, d) == entries_of(map, e0, d).insert(id, v),
{
    let n = ids.len() as int;
    let ids1 = ids.push(id);
    let map1 = map.insert(id, n as usize);
    assert(n * d + d == (n + 1) * d) by (nonlinear_arith);
    assert(!ids.contains(id)) by {
        if ids.contains(id) {
            let j = choose|j: int| 0 <= j < ids.len() && ids[j] == id;
            assert(map.contains_key(ids[j]));
        }
    }
    assert(!q.contains(id));
    lemma_push_contains(ids, id);
    lemma_push_contains(q, id);
    assert forall|i: int| 0 <= i < ids1.len() implies #[trigger] map1.contains_key(ids1[i]) && map1[ids1[i]]
        == i by {
        if i < n {
            assert(ids1[i] == ids[i]);
            assert(map.contains_key(ids[i]));
        }
    }
    assert forall|x: i64| #[trigger] q.push(id).contains(x) <==> map1.contains_key(x) by {
        assert(q.contains(x) <==> map.contains_key(x));
    }
    assert forall|t: int| 0 <= t < d implies #[trigger] slot_of(e1, n, d)[t] == v[t] by {
        assert(e1[n * d + t] == v[t]);
    }
    assert(slot_of(e1, n, d) =~= v);
    assert forall|x: i64| #[trigger] map.contains_key(x) implies slot_of(e1, map[x] as int, d) == slot_of(
        e0,
        map[x] as int,
        d,
    ) by {
        let i = map[x] as int;
        lemma_slot_end(i, n, d);
        lemma_slot_eq(e1, i, e0, i, d);
    }
    assert(entries_of(map1, e1, d) =~= entries_of(map, e0, d).insert(id, v));
}

impl View for EmbeddingIndex {
    type V = IndexModel;

    closed spec fn view(&self) -> IndexModel {
        IndexModel {
            dim: self.dim as nat,
            max_items: self.max_items as nat,
            min_score: self.min_score,
            entries: entries_of(self.id_to_idx@, self.embeddings@, self.dim as int),
            recency: self.lru_queue@,
        }
    }
}

impl EmbeddingIndex {
    /// The identifiers in slot order: slot `i` holds `slot_order()[i]`.
    pub closed spec fn slot_order(&self) -> Seq<i64> {
        self.item_ids@
    }

    /// The internal invariant: a packed buffer of `dim` components per
    /// identifier, and identifier array, position map and recency queue in
    /// agreement.
    pub closed spec fn wf(&self) -> bool {
        &&& self.max_items >= 1
        &&& self.item_ids@.len() <= self.max_items
        &&& self.embeddings@.len() == self.item_ids@.len() * self.dim
        &&& layout_ok(self.item_ids@, self.id_to_idx@, self.lru_queue@)
    }

    proof fn lemma_view_wf(&self)
        requires
            self.wf(),
        ensures
            self.view().wf(),
            self.view().len() == self.item_ids@.len(),
    {
        let m = self.view();
        assert forall|id: i64| #[trigger] m.entries.contains_key(id) implies m.entries[id].len()
            == m.dim by {
            let i = self.id_to_idx@[id] as int;
            lemma_slot_end(i, self.item_ids@.len() as int, self.dim as int);
        }
    }

    /// Every identifier of the index occupies exactly one slot, and slot `i`
    /// holds the vector stored for `slot_order()[i]`.
    pub proof fn lemma_slot_order(&self)
        requires
            self.wf(),
        ensures
            self.slot_order().no_duplicates(),
            self.slot_order().len() == self.view().len(),
            forall|i: int|
                0 <= i < self.slot_order().len() ==> self.view().contains(
                    #[trigger] self.slot_order()[i],
                ),
            forall|id: i64| #[trigger]
                self.view().contains(id) ==> self.slot_order().contains(id),
    {
        assert forall|id: i64| #[trigger] self.view().contains(id) implies self.slot_order().contains(
            id,
        ) by {
            let i = self.id_to_idx@[id] as int;
            assert(self.slot_order()[i] == id);
        }
    }

    /// A well-formed index has a well-formed model: it never holds more
    /// than `max_items` identifiers, each with a vector of `dim` components.
    pub proof fn lemma_wf(&self)
        requires
            self.wf(),
        ensures
            self.view().wf(),
    {
        self.lemma_view_wf();
    }

    /// An empty index with the default bound and threshold.
    pub fn new(dim: usize) -> (r: Self)
        ensures
            r.wf(),
            r@ == (IndexModel {
                dim: dim as nat,
                max_items: MAX_EMBEDDINGS_IN_MEMORY as nat,
                min_score: MIN_SIMILARITY_SCORE,
                entries: Map::empty(),
                recency: Seq::empty(),
            }),
    {
        Self::with_config(dim, MAX_EMBEDDINGS_IN_MEMORY, MIN_SIMILARITY_SCORE)
    }

    /// An empty index with the given dimension, bound and threshold.
    pub fn with_config(dim: usize, max_items: usize, min_score: u32) -> (r: Self)
        requires
            max_items >= 1,
        ensures
            r.wf(),
            r@ == (IndexModel {
                dim: dim as nat,
                max_items: max_items as nat,
                min_score,
                entries: Map::empty(),
                recency: Seq::empty(),
            }),
    {
        let r = EmbeddingIndex {
            dim,
            max_items,
            min_score,
            item_ids: Vec::new(),
            embeddings: Vec::new(),
            id_to_idx: HashMap::new(),
            lru_queue: VecDeque::new(),
        };
        assert(r.view().entries =~= Map::empty());
        r
    }

    /// Number of stored vectors.
    pub fn len(&self) -> (r: usize)
        requires
            self.wf(),
        ensures
            r == self@.len(),
    {
        self.item_ids.len()
    }

    /// Whether no vector is stored.
    pub fn is_empty(&self) -> (r: bool)
        requires
            self.wf(),
        ensures
            r == (self@.len() == 0),
    {
        self.item_ids.len() == 0
    }

    /// Whether `item_id` has a stored vector.
    pub fn contains(&self, item_id: i64) -> (r: bool)
        requires
            self.wf(),
        ensures
            r == self@.contains(item_id),
    {
        self.id_to_idx.contains_key(&item_id)
    }

    /// The bound on the number of stored vectors.
    pub fn capacity(&self) -> (r: usize)
        ensures
            r == self@.max_items,
    {
        self.max_items
    }

    /// The number of components of each stored vector.
    pub fn dim(&self) -> (r: usize)
        ensures
            r == self@.dim,
    {
        self.dim
    }

    /// The minimum score a search result must reach.
    pub fn min_score(&self) -> (r: u32)
        ensures
            r == self@.min_score,
    {
        self.min_score
    }

    /// Drops every entry; the configuration is kept.
    pub fn clear(&mut self)
        requires
            old(self).wf(),
        ensures
            final(self).wf(),
            final(self)@ == old(self)@.cleared(),
    {
        self.item_ids.clear();
        self.embeddings.clear();
        self.id_to_idx.clear();
        self.lru_queue.clear();
        assert(self.view().entries =~= Map::empty());
    }

    /// Approximate memory held by the index, in bytes: eight per identifier,
    /// four per component, eight per queue entry plus a fixed 32, and 24 per
    /// map entry.
    pub fn memory_usage(&self) -> (r: usize)
        requires
            self.wf(),
            self@.len() * (40 + 4 * self@.dim) + 32 <= usize::MAX,
        ensures
            r == self@.len() * 8 + self@.len() * self@.dim * 4 + self@.len() * 8 + 32
                + self@.len() * 24,
    {
        let n = self.item_ids.len();
        proof {
            self.lemma_view_wf();
            let d = self.dim as int;
            assert(n * (40 + 4 * d) == n * 8 + n * d * 4 + n * 8 + n * 24) by (nonlinear_arith);
        }
        let ids_size = n * 8;
        let embeddings_size = self.embeddings.len() * 4;
        let lru_size = self.lru_queue.len() * 8 + 32;
        let hashmap_size = n * 24;
        ids_size + embeddings_size + lru_size + hashmap_size
    }

    /// Takes `item_id` out of the index and returns whether it was there.
    /// The vector of the last slot moves into the freed slot.
    pub fn remove(&mut self, item_id: i64) -> (r: bool)
        requires
            old(self).wf(),
        ensures
            final(self).wf(),
            r == old(self)@.contains(item_id),
            final(self)@ == old(self)@.removed(item_id),
    {
        let ghost ids0 = self.item_ids@;
        let ghost emb0 = self.embeddings@;
        let ghost map0 = self.id_to_idx@;
        let ghost q0 = self.lru_queue@;
        let ghost m0 = self@;
        let ghost d = self.dim as int;
        let removed = self.id_to_idx.remove(&item_id);
        let idx = match removed {
            None => {
                proof {
                    assert(self.id_to_idx@ =~= map0);
                }
                return false;
            },
            Some(idx) => idx,
        };
        let n = self.item_ids.len();
        let elen = self.embeddings.len();
        let last_idx = n - 1;
        proof {
            lemma_slot_end(last_idx as int, n as int, d);
            lemma_slot_end(idx as int, n as int, d);
        }
        if idx != last_idx {
            let last_id = self.item_ids[last_idx];
            self.item_ids.set(idx, last_id);
            self.id_to_idx.insert(last_id, idx);
            let ghost ids1 = self.item_ids@;
            let ghost map1 = self.id_to_idx@;
            let start = idx * self.dim;
            let src = last_idx * self.dim;
            proof {
                lemma_slot_end(idx as int, last_idx as int, d);
            }
            let mut j: usize = 0;
            while j < self.dim
                invariant
                    d == self.dim,
                    self.item_ids@ == ids1,
                    self.id_to_idx@ == map1,
                    self.lru_queue@ == q0,
                    self.max_items == m0.max_items,
                    self.min_score == m0.min_score,
                    elen == emb0.len(),
                    start == idx * d,
                    src == last_idx * d,
                    start + d <= src,
                    src + d <= emb0.len(),
                    0 <= j <= d,
                    self.embeddings@.len() == emb0.len(),
                    forall|k: int|
                        0 <= k < emb0.len() && !(start <= k < start + j) ==> #[trigger] self.embeddings@[k]
                            == emb0[k],
                    forall|t: int| 0 <= t < j ==> #[trigger] self.embeddings@[start + t] == emb0[src + t],
                decreases d - j,
            {
                let x = self.embeddings[src + j];
                self.embeddings.set(start + j, x);
                j = j + 1;
            }
        }
        self.item_ids.pop();
        let new_len = self.embeddings.len() - self.dim;
        self.embeddings.truncate(new_len);
        let p = self.lru_position(item_id);
        self.lru_queue.remove(p);
        proof {
            let n1 = n - 1;
            assert(n * d - d == n1 * d) by (nonlinear_arith)
                requires
                    n1 == n - 1,
            ;
            assert(ids0[idx as int] == item_id);
            if idx == last_idx {
                assert(ids0.update(idx as int, ids0[last_idx as int]) =~= ids0);
            }
            assert(self.item_ids@ =~= ids0.update(idx as int, ids0[last_idx as int]).drop_last());
            assert(self.id_to_idx@ =~= if idx != last_idx {
                map0.remove(item_id).insert(ids0[last_idx as int], idx)
            } else {
                map0.remove(item_id)
            });
            lemma_remove_layout(ids0, map0, q0, item_id, p as int);
            lemma_remove_entries(ids0, map0, q0, emb0, self.embeddings@, d, item_id);
            lemma_without_at(q0, p as int);
        }
        true
    }

    /// Stores `embedding` under `item_id`. A present identifier gets the new
    /// vector in place and becomes the most recently used; an absent one is
    /// appended as the most recently used, after the least recently used
    /// identifier is evicted if the index is full.
    pub fn upsert(&mut self, item_id: i64, embedding: &[u32])
        requires
            old(self).wf(),
            embedding@.len() == old(self)@.dim,
        ensures
            final(self).wf(),
            final(self)@ == old(self)@.upserted(item_id, embedding@),
    {
        let ghost m0 = self@;
        let ghost d = self.dim as int;
        let found = match self.id_to_idx.get(&item_id) {
            Some(i) => Some(*i),
            None => None,
        };
        match found {
            Some(idx) => {
                let ghost ids0 = self.item_ids@;
                let ghost emb0 = self.embeddings@;
                let ghost map0 = self.id_to_idx@;
                let ghost q0 = self.lru_queue@;
                let n = self.item_ids.len();
                let elen = self.embeddings.len();
                proof {
                    lemma_slot_end(idx as int, n as int, d);
                }
                let start = idx * self.dim;
                let mut j: usize = 0;
                while j < self.dim
                    invariant
                        d == self.dim,
                        self.item_ids@ == ids0,
                        self.id_to_idx@ == map0,
                        self.lru_queue@ == q0,
                        self.max_items == m0.max_items,
                        self.min_score == m0.min_score,
                        elen == emb0.len(),
                        embedding@.len() == d,
                        start == idx * d,
                        start + d <= emb0.len(),
                        0 <= j <= d,
                        self.embeddings@.len() == emb0.len(),
                        forall|k: int|
                            0 <= k < emb0.len() && !(start <= k < start + j) ==> #[trigger] self.embeddings@[k]
                                == emb0[k],
                        forall|t: int| 0 <= t < j ==> #[trigger] self.embeddings@[start + t] == embedding@[t],
                    decreases d - j,
                {
                    self.embeddings.set(start + j, embedding[j]);
                    j = j + 1;
                }
                let p = self.lru_position(item_id);
                self.lru_queue.remove(p);
                self.lru_queue.push_back(item_id);
                proof {
                    assert(self.lru_queue@ =~= q0.remove(p as int).push(item_id));
                    lemma_refresh_layout(ids0, map0, q0, item_id, p as int);
                    assert(layout_ok(self.item_ids@, self.id_to_idx@, self.lru_queue@));
                    assert(self.embeddings@.len() == self.item_ids@.len() * self.dim);
                    assert(self.item_ids@.len() <= self.max_items);
                    assert forall|x: i64, y: i64|
                        map0.contains_key(x) && map0.contains_key(y) && x != y implies #[trigger] map0[x]
                        != #[trigger] map0[y] by {
                        assert(ids0[map0[x] as int] == x);
                        assert(ids0[map0[y] as int] == y);
                    }
                    lemma_overwrite_entries(map0, n as int, emb0, self.embeddings@, d, item_id, embedding@);
                    assert(m0.entries.remove(item_id).insert(item_id, embedding@) =~= m0.entries.insert(
                        item_id,
                        embedding@,
                    ));
                }
            },
            None => {
                proof {
                    assert(!m0.entries.contains_key(item_id));
                }
                if self.item_ids.len() >= self.max_items {
                    proof {
                        assert(self.lru_queue@.len() > 0);
                    }
                    let oldest = self.lru_queue[0];
                    let ghost q_full = self.lru_queue@;
                    proof {
                        assert(self.lru_queue@.contains(oldest));
                    }
                    self.remove(oldest);
                    proof {
                        lemma_without_at(q_full, 0);
                    }
                }
                let ghost ids0 = self.item_ids@;
                let ghost emb0 = self.embeddings@;
                let ghost map0 = self.id_to_idx@;
                let ghost q0 = self.lru_queue@;
                let ghost m1 = self@;
                proof {
                    assert(!m1.entries.contains_key(item_id));
                    assert(!map0.contains_key(item_id));
                    assert(ids0.len() < self.max_items);
                }
                let idx = self.item_ids.len();
                self.item_ids.push(item_id);
                let mut j: usize = 0;
                while j < self.dim
                    invariant
                        d == self.dim,
                        self.item_ids@ == ids0.push(item_id),
                        self.id_to_idx@ == map0,
                        self.lru_queue@ == q0,
                        self.max_items == m1.max_items,
                        self.min_score == m1.min_score,
                        embedding@.len() == d,
                        emb0.len() == idx * d,
                        0 <= j <= d,
                        self.embeddings@.len() == emb0.len() + j,
                        forall|k: int| 0 <= k < emb0.len() ==> #[trigger] self.embeddings@[k] == emb0[k],
                        forall|t: int| 0 <= t < j ==> #[trigger] self.embeddings@[idx * d + t] == embedding@[t],
                    decreases d - j,
                {
                    self.embeddings.push(embedding[j]);
                    j = j + 1;
                }
                self.id_to_idx.insert(item_id, idx);
                self.lru_queue.push_back(item_id);
                proof {
                    lemma_append(ids0, map0, q0, emb0, self.embeddings@, d, item_id, embedding@);
                }
            },
        }
    }

    /// The candidates of a search: each slot's identifier with `scores[i]`,
    /// the similarity of the vector in slot `i` to the query.
    pub open spec fn scored(&self, scores: Seq<u32>) -> Seq<SearchResult> {
        Seq::new(
            self.slot_order().len(),
            |i: int| SearchResult { item_id: self.slot_order()[i], score: scores[i] },
        )
    }

    /// The identifier stored in slot `i`.
    pub fn slot_id(&self, i: usize) -> (r: i64)
        requires
            self.wf(),
            i < self@.len(),
        ensures
            r == self.slot_order()[i as int],
    {
        self.item_ids[i]
    }

    /// The vector stored in slot `i`.
    pub fn slot_vector(&self, i: usize) -> (r: &[u32])
        requires
            self.wf(),
            i < self@.len(),
        ensures
            r@ == self@.entries[self.slot_order()[i as int]],
    {
        let elen = self.embeddings.len();
        proof {
            lemma_slot_end(i as int, self.item_ids@.len() as int, self.dim as int);
            lemma_layout_at(self.item_ids@, self.id_to_idx@, self.lru_queue@, i as int);
        }
        let start = i * self.dim;
        vstd::slice::slice_subrange(self.embeddings.as_slice(), start, start + self.dim)
    }

    /// Ranks the stored vectors by their similarity to a query, given as
    /// `scores[i]` for the vector in slot `i`: returns, best first, the
    /// `min(k, n)` highest-scoring of the `n` vectors whose score reaches the
    /// index's minimum. Empty when the index is empty, when `k == 0`, or when
    /// no score reaches the minimum.
    pub fn search(&self, scores: &Vec<u32>, k: usize) -> (r: Vec<SearchResult>)
        requires
            self.wf(),
            scores@.len() == self@.len(),
        ensures
            is_top_k(r@, self.scored(scores@), k as nat, self@.min_score),
    {
        let n = self.item_ids.len();
        let mut candidates: Vec<SearchResult> = Vec::new();
        let mut i: usize = 0;
        while i < n
            invariant
                self.wf(),
                n == self.item_ids@.len(),
                scores@.len() == n,
                0 <= i <= n,
                candidates@ == self.scored(scores@).take(i as int),
            decreases n - i,
        {
            candidates.push(SearchResult { item_id: self.item_ids[i], score: scores[i] });
            proof {
                assert(candidates@ =~= self.scored(scores@).take(i + 1));
            }
            i = i + 1;
        }
        proof {
            let c = self.scored(scores@);
            assert(c.take(n as int) =~= c);
            assert forall|a: int, b: int| 0 <= a < b < c.len() implies c[a] != c[b] by {
                assert(self.item_ids@[a] != self.item_ids@[b]);
            }
        }
        select_top_k(&candidates, k, self.min_score)
    }

    /// Position of `item_id` in the recency queue.
    fn lru_position(&self, item_id: i64) -> (p: usize)
        requires
            self.lru_queue@.contains(item_id),
        ensures
            p < self.lru_queue@.len(),
            self.lru_queue@[p as int] == item_id,
    {
        let n = self.lru_queue.len();
        let mut p: usize = 0;
        while self.lru_queue[p] != item_id
            invariant
                n == self.lru_queue@.len(),
                self.lru_queue@.contains(item_id),
                p < self.lru_queue@.len(),
                forall|j: int| 0 <= j < p ==> self.lru_queue@[j] != item_id,
            decreases self.lru_queue@.len() - p,
        {
            p = p + 1;
            proof {
                if p >= self.lru_queue@.len() {
                    let j = choose|j: int| 0 <= j < self.lru_queue@.len() && self.lru_queue@[j] == item_id;
                    assert(false);
                }
            }
        }
        p
    }
}

impl Default for EmbeddingIndex {
    /// An empty index of the default dimension, bound and threshold.
    fn default() -> (r: Self)
        ensures
            r.wf(),
            r@ == (IndexModel {
                dim: EMBEDDING_DIM as nat,
                max_items: MAX_EMBEDDINGS_IN_MEMORY as nat,
                min_score: MIN_SIMILARITY_SCORE,
                entries: Map::empty(),
                recency: Seq::empty(),
            }),
    {
        Self::new(EMBEDDING_DIM)
    }
}

} // verus!
