//! Exact top-k selection of scored identifiers above a threshold.

use vstd::prelude::*;

use crate::score::{clears, clears_threshold, order_key, score_key};

verus! {

/// One ranked hit: an identifier and its similarity score (bit pattern).
#[derive(Clone, Copy, Debug, PartialEq, Eq, Structural)]
pub struct SearchResult {
    pub item_id: i64,
    pub score: u32,
}

/// The candidates whose score clears `min`, in their original order.
pub open spec fn passing(c: Seq<SearchResult>, min: u32) -> Seq<SearchResult>
    decreases c.len(),
{
    if c.len() == 0 {
        Seq::empty()
    } else if clears(c.last().score, min) {
        passing(c.drop_last(), min).push(c.last())
    } else {
        passing(c.drop_last(), min)
    }
}

/// `r` is a best-first selection of `min(k, n)` of the `n` elements of `p`:
/// each is an element of `p`, none twice, scores never rise along `r`, and
/// no element left out scores above one taken.
pub open spec fn top_of(r: Seq<SearchResult>, p: Seq<SearchResult>, k: nat) -> bool {
    &&& r.len() == if k < p.len() { k } else { p.len() }
    &&& r.no_duplicates()
    &&& forall|i: int| 0 <= i < r.len() ==> p.contains(#[trigger] r[i])
    &&& forall|i: int, j: int|
        0 <= i < j < r.len() ==> order_key(#[trigger] r[j].score) <= order_key(#[trigger] r[i].score)
    &&& forall|x: SearchResult, i: int|
        #![trigger p.contains(x), r[i]]
        p.contains(x) && !r.contains(x) && 0 <= i < r.len() ==> order_key(x.score) <= order_key(
            r[i].score,
        )
    &&& r.len() < k ==> forall|x: SearchResult| #[trigger] p.contains(x) ==> r.contains(x)
}

/// `r` ranks, best first, the `min(k, n)` highest-scoring of the `n`
/// candidates whose score clears `min`. Candidates of equal score may be
/// taken in any order.
pub open spec fn is_top_k(r: Seq<SearchResult>, c: Seq<SearchResult>, k: nat, min: u32) -> bool {
    top_of(r, passing(c, min), k)
}

proof fn lemma_passing_members(c: Seq<SearchResult>, min: u32)
    ensures
        forall|x: SearchResult| #[trigger]
            passing(c, min).contains(x) <==> c.contains(x) && clears(x.score, min),
        c.no_duplicates() ==> passing(c, min).no_duplicates(),
    decreases c.len(),
{
    if c.len() > 0 {
        let t = c.drop_last();
        lemma_passing_members(t, min);
        let pt = passing(t, min);
        assert forall|x: SearchResult| #[trigger]
            passing(c, min).contains(x) <==> c.contains(x) && clears(x.score, min) by {
            if c.contains(x) {
                let j = choose|j: int| 0 <= j < c.len() && c[j] == x;
                if j < t.len() {
                    assert(t[j] == x);
                }
            }
            if t.contains(x) {
                let j = choose|j: int| 0 <= j < t.len() && t[j] == x;
                assert(c[j] == x);
            }
            if clears(c.last().score, min) {
                let p = pt.push(c.last());
                if p.contains(x) {
                    let j = choose|j: int| 0 <= j < p.len() && p[j] == x;
                    if j < pt.len() {
                        assert(pt[j] == x);
                    }
                }
                if pt.contains(x) {
                    let j = choose|j: int| 0 <= j < pt.len() && pt[j] == x;
                    assert(p[j] == x);
                }
                assert(p[pt.len() as int] == c.last());
            }
        }
        if c.no_duplicates() && clears(c.last().score, min) {
            assert(!t.contains(c.last())) by {
                if t.contains(c.last()) {
                    let j = choose|j: int| 0 <= j < t.len() && t[j] == c.last();
                    assert(c[j] == c[c.len() - 1]);
                }
            }
            let p = pt.push(c.last());
            assert forall|a: int, b: int| 0 <= a < b < p.len() implies p[a] != p[b] by {
                if b == pt.len() {
                    assert(pt.contains(p[a]));
                }
            }
        }
    }
}

proof fn lemma_push_member(p: Seq<SearchResult>, x: SearchResult, y: SearchResult)
    ensures
        p.push(x).contains(y) <==> p.contains(y) || y == x,
{
    if p.push(x).contains(y) && y != x {
        let j = choose|j: int| 0 <= j < p.push(x).len() && p.push(x)[j] == y;
        assert(p[j] == y);
    }
    if p.contains(y) {
        let j = choose|j: int| 0 <= j < p.len() && p[j] == y;
        assert(p.push(x)[j] == y);
    }
    if y == x {
        assert(p.push(x)[p.len() as int] == y);
    }
}

/// A candidate that does not beat the last of a full selection is left out.
proof fn lemma_top_reject(r: Seq<SearchResult>, p: Seq<SearchResult>, k: nat, x: SearchResult)
    requires
        top_of(r, p, k),
        !p.contains(x),
        r.len() == k,
        k > 0,
        order_key(x.score) <= order_key(r[k - 1].score),
    ensures
        top_of(r, p.push(x), k),
{
    let p2 = p.push(x);
    assert(!r.contains(x)) by {
        if r.contains(x) {
            let j = choose|j: int| 0 <= j < r.len() && r[j] == x;
        }
    }
    assert forall|i: int| 0 <= i < r.len() implies p2.contains(#[trigger] r[i]) by {
        lemma_push_member(p, x, r[i]);
    }
    assert forall|y: SearchResult, i: int|
        #![trigger p2.contains(y), r[i]]
        p2.contains(y) && !r.contains(y) && 0 <= i < r.len() implies order_key(y.score) <= order_key(
            r[i].score,
        ) by {
        lemma_push_member(p, x, y);
        if y == x && i < k - 1 {
            assert(order_key(r[k - 1].score) <= order_key(r[i].score));
        }
    }
}

/// Inserting a candidate at its place in the sorted selection, and dropping
/// the last element when the selection would exceed `k`, keeps it a
/// selection of the candidates seen so far.
proof fn lemma_top_insert(
    r: Seq<SearchResult>,
    p: Seq<SearchResult>,
    k: nat,
    x: SearchResult,
    pos: int,
)
    requires
        top_of(r, p, k),
        !p.contains(x),
        k > 0,
        r.len() < k || order_key(x.score) > order_key(r[r.len() - 1].score),
        0 <= pos <= r.len(),
        forall|j: int| 0 <= j < pos ==> order_key(#[trigger] r[j].score) >= order_key(x.score),
        pos < r.len() ==> order_key(r[pos].score) < order_key(x.score),
    ensures
        top_of(
            if r.len() < k {
                r.insert(pos, x)
            } else {
                r.insert(pos, x).drop_last()
            },
            p.push(x),
            k,
        ),
{
    let ins = r.insert(pos, x);
    r.insert_ensures(pos, x);
    let r2 = if r.len() < k {
        ins
    } else {
        ins.drop_last()
    };
    let p2 = p.push(x);
    assert(!r.contains(x)) by {
        if r.contains(x) {
            let j = choose|j: int| 0 <= j < r.len() && r[j] == x;
        }
    }
    assert forall|j: int| pos <= j < r.len() implies order_key(#[trigger] r[j].score) < order_key(
        x.score,
    ) by {
        if j > pos {
            assert(order_key(r[j].score) <= order_key(r[pos].score));
        }
    }
    // ins[j] is r[j] before pos, x at pos, r[j - 1] after
    assert forall|a: int, b: int| 0 <= a < b < ins.len() implies ins[a] != ins[b] by {
        if a < pos && b > pos {
            assert(ins[b] == r[b - 1]);
        } else if a > pos {
            assert(ins[a] == r[a - 1]);
            assert(ins[b] == r[b - 1]);
        } else if a == pos {
            assert(ins[b] == r[b - 1]);
        }
    }
    assert forall|a: int, b: int| 0 <= a < b < ins.len() implies order_key(#[trigger] ins[b].score)
        <= order_key(#[trigger] ins[a].score) by {
        if a < pos && b > pos {
            assert(ins[b] == r[b - 1]);
        } else if a > pos {
            assert(ins[a] == r[a - 1]);
            assert(ins[b] == r[b - 1]);
        } else if a == pos {
            assert(ins[b] == r[b - 1]);
        }
    }
    assert forall|j: int| 0 <= j < ins.len() implies p2.contains(#[trigger] ins[j]) by {
        if j < pos {
            lemma_push_member(p, x, r[j]);
        } else if j > pos {
            assert(ins[j] == r[j - 1]);
            lemma_push_member(p, x, r[j - 1]);
        } else {
            lemma_push_member(p, x, x);
        }
    }
    assert forall|i: int| 0 <= i < r2.len() implies #[trigger] r2[i] == ins[i] by {}
    assert forall|a: int, b: int| 0 <= a < b < r2.len() implies r2[a] != r2[b] by {
        assert(ins[a] != ins[b]);
    }
    assert forall|j: int| 0 <= j < r2.len() implies p2.contains(#[trigger] r2[j]) by {
        assert(p2.contains(ins[j]));
    }
    assert forall|a: int, b: int| 0 <= a < b < r2.len() implies order_key(#[trigger] r2[b].score)
        <= order_key(#[trigger] r2[a].score) by {
        assert(order_key(ins[b].score) <= order_key(ins[a].score));
    }
    assert forall|y: SearchResult, i: int|
        #![trigger p2.contains(y), r2[i]]
        p2.contains(y) && !r2.contains(y) && 0 <= i < r2.len() implies order_key(y.score) <= order_key(
            r2[i].score,
        ) by {
        lemma_push_member(p, x, y);
        assert(r2[pos] == x);
        assert(y != x);
        assert(p.contains(y));
        let last = r.len() - 1;
        if r.len() < k {
            assert(r.contains(y));
            let q = choose|q: int| 0 <= q < r.len() && r[q] == y;
            if q < pos {
                assert(r2[q] == y);
            } else {
                assert(r2[q + 1] == y);
            }
            assert(r2.contains(y));
        } else if r.contains(y) {
            let q = choose|q: int| 0 <= q < r.len() && r[q] == y;
            if q < pos {
                assert(r2[q] == y);
                assert(r2.contains(y));
            } else if q + 1 < r2.len() {
                assert(r2[q + 1] == y);
                assert(r2.contains(y));
            }
            assert(q == last);
            assert(order_key(y.score) < order_key(x.score));
            if i < pos {
                assert(order_key(x.score) <= order_key(r[i].score));
            } else if i > pos {
                assert(r2[i] == r[i - 1]);
                assert(order_key(r[last].score) <= order_key(r[i - 1].score));
            }
        } else {
            assert(order_key(y.score) <= order_key(r[last].score));
            if i < pos {
                assert(r2[i] == r[i]);
                assert(order_key(r[last].score) <= order_key(r[i].score));
            } else if i > pos {
                assert(r2[i] == r[i - 1]);
                assert(order_key(r[last].score) <= order_key(r[i - 1].score));
            }
        }
    }
    if r2.len() < k {
        assert forall|y: SearchResult| #[trigger] p2.contains(y) implies r2.contains(y) by {
            lemma_push_member(p, x, y);
            if y == x {
                assert(r2[pos] == x);
            } else {
                assert(r.contains(y));
                let q = choose|q: int| 0 <= q < r.len() && r[q] == y;
                if q < pos {
                    assert(r2[q] == y);
                } else {
                    assert(r2[q + 1] == y);
                }
            }
        }
    }
}

/// Selects, best first, the `min(k, n)` highest-scoring of the `n`
/// candidates whose score clears `min`. Candidates are kept in a bounded
/// buffer sorted by score; the whole candidate list is never sorted.
pub fn select_top_k(candidates: &Vec<SearchResult>, k: usize, min: u32) -> (r: Vec<SearchResult>)
    requires
        candidates@.no_duplicates(),
    ensures
        is_top_k(r@, candidates@, k as nat, min),
{
    let ghost c = candidates@;
    let mut top: Vec<SearchResult> = Vec::new();
    let mut i: usize = 0;
    while i < candidates.len()
        invariant
            c == candidates@,
            c.no_duplicates(),
            0 <= i <= c.len(),
            top@.len() <= k,
            top_of(top@, passing(c.take(i as int), min), k as nat),
        decreases c.len() - i,
    {
        let x = candidates[i];
        let ghost pre = c.take(i as int);
        let ghost post = c.take(i + 1);
        let ghost old_top = top@;
        proof {
            assert(post.drop_last() =~= pre);
            assert(post.last() == x);
            lemma_passing_members(pre, min);
            assert(!pre.contains(x)) by {
                if pre.contains(x) {
                    let j = choose|j: int| 0 <= j < pre.len() && pre[j] == x;
                    assert(c[j] == c[i as int]);
                }
            }
        }
        if k > 0 && clears_threshold(x.score, min) {
            let xk = score_key(x.score);
            let n = top.len();
            if n < k || xk > score_key(top[n - 1].score) {
                let mut pos: usize = 0;
                while pos < top.len() && score_key(top[pos].score) >= xk
                    invariant
                        top@ == old_top,
                        0 <= pos <= top@.len(),
                        xk == order_key(x.score),
                        forall|j: int| 0 <= j < pos ==> order_key(#[trigger] top@[j].score) >= xk,
                    decreases top@.len() - pos,
                {
                    pos = pos + 1;
                }
                proof {
                    lemma_top_insert(old_top, passing(pre, min), k as nat, x, pos as int);
                }
                top.insert(pos, x);
                if top.len() > k {
                    top.pop();
                }
                proof {
                    assert(top@ =~= if old_top.len() < k {
                        old_top.insert(pos as int, x)
                    } else {
                        old_top.insert(pos as int, x).drop_last()
                    });
                }
            } else {
                proof {
                    lemma_top_reject(old_top, passing(pre, min), k as nat, x);
                }
            }
        } else {
            proof {
                if clears(x.score, min) {
                    assert(k == 0);
                    assert(top@.len() == 0);
                }
            }
        }
        i = i + 1;
    }
    proof {
        assert(c.take(c.len() as int) =~= c);
    }
    top
}

} // verus!
