//! The last stage of a semantic query: turning ranked hits into history
//! records, and dropping from the index the hits whose item is gone.

use vstd::prelude::*;

use crate::history::{ClipboardItem, ClipboardItemView};
use crate::ranking::SearchResult;
use crate::vector_index::{EmbeddingIndex, IndexModel};

verus! {

/// What the history store answered for one hit.
#[derive(Debug)]
pub enum ItemLookup {
    /// The record of the item.
    Found(ClipboardItem),
    /// The item no longer exists.
    Missing,
    /// The store failed to answer.
    Failed,
}

/// One result of a semantic query: the history record and its score.
#[derive(Clone, Debug)]
pub struct SemanticSearchResult {
    pub item: ClipboardItem,
    pub score: u32,
}

/// The records found for the hits, in hit order, each with its score.
pub open spec fn resolved(hits: Seq<SearchResult>, lookups: Seq<ItemLookup>) -> Seq<(ClipboardItemView, u32)>
    decreases hits.len(),
{
    if hits.len() == 0 {
        Seq::empty()
    } else {
        let before = resolved(hits.drop_last(), lookups);
        match lookups[hits.len() - 1] {
            ItemLookup::Found(item) => before.push((item@, hits.last().score)),
            _ => before,
        }
    }
}

/// The index once every hit whose item is missing has been removed.
pub open spec fn pruned(m: IndexModel, hits: Seq<SearchResult>, lookups: Seq<ItemLookup>) -> IndexModel
    decreases hits.len(),
{
    if hits.len() == 0 {
        m
    } else {
        let before = pruned(m, hits.drop_last(), lookups);
        match lookups[hits.len() - 1] {
            ItemLookup::Missing => before.removed(hits.last().item_id),
            _ => before,
        }
    }
}

/// The views of a list of query results.
pub open spec fn results_view(r: Seq<SemanticSearchResult>) -> Seq<(ClipboardItemView, u32)> {
    Seq::new(r.len(), |i: int| (r[i].item@, r[i].score))
}

/// Pairs each hit with what the history store answered for it
/// (`lookups[i]` for `hits[i]`). Found records are returned in hit order
/// with their scores; a hit whose item is missing is removed from the
/// index and dropped; a hit the store failed on is dropped.
pub fn resolve_search_results(
    index: &mut EmbeddingIndex,
    hits: &Vec<SearchResult>,
    lookups: &Vec<ItemLookup>,
) -> (r: Vec<SemanticSearchResult>)
    requires
        old(index).wf(),
        lookups@.len() == hits@.len(),
    ensures
        final(index).wf(),
        final(index)@ == pruned(old(index)@, hits@, lookups@),
        results_view(r@) == resolved(hits@, lookups@),
{
    let ghost m0 = index@;
    let mut out: Vec<SemanticSearchResult> = Vec::new();
    let mut i: usize = 0;
    while i < hits.len()
        invariant
            index.wf(),
            lookups@.len() == hits@.len(),
            0 <= i <= hits@.len(),
            index@ == pruned(m0, hits@.take(i as int), lookups@),
            results_view(out@) == resolved(hits@.take(i as int), lookups@),
        decreases hits@.len() - i,
    {
        let hit = hits[i];
        proof {
            assert(hits@.take(i + 1).drop_last() =~= hits@.take(i as int));
            assert(hits@.take(i + 1).last() == hit);
        }
        match &lookups[i] {
            ItemLookup::Found(item) => {
                let ghost before = out@;
                out.push(SemanticSearchResult { item: item.duplicate(), score: hit.score });
                proof {
                    assert(results_view(out@) =~= results_view(before).push((item@, hit.score)));
                }
            },
            ItemLookup::Missing => {
                index.remove(hit.item_id);
            },
            ItemLookup::Failed => {},
        }
        i = i + 1;
    }
    proof {
        assert(hits@.take(hits@.len() as int) =~= hits@);
    }
    out
}

} // verus!
