//! Indexing of history items: completion of a single new item, and the
//! bulk backfill run as a state machine.
//!
//! A bulk run walks the unindexed items newest first. Before each item the
//! driver asks for the next step, telling whether the feature is still
//! enabled; the run answers with the item to embed, or with the end of the
//! run and the last partial batch to persist. Each computed embedding goes
//! into the index at once and into the current batch; a full batch is
//! handed out for one durable write.

use vstd::prelude::*;

use crate::status::SemanticStatus;
use crate::vector_index::EmbeddingIndex;

verus! {

/// Number of embeddings persisted by one durable write of a bulk run.
pub const EMBEDDING_BATCH_SIZE: usize = 100;

/// Number of processed items between two progress reports.
pub const PROGRESS_INTERVAL: usize = 10;

/// An embedding waiting to be persisted.
#[derive(Clone, Debug)]
pub struct PendingEmbedding {
    pub item_id: i64,
    pub vector: Vec<u32>,
}

impl View for PendingEmbedding {
    type V = (i64, Seq<u32>);

    open spec fn view(&self) -> (i64, Seq<u32>) {
        (self.item_id, self.vector@)
    }
}

/// The views of a list of pending embeddings.
pub open spec fn pending_view(v: Seq<PendingEmbedding>) -> Seq<(i64, Seq<u32>)> {
    Seq::new(v.len(), |i: int| v[i]@)
}

/// What the driver of a bulk run does next.
#[derive(Debug)]
pub enum BackfillStep {
    /// Compute the embedding of this item.
    Embed(i64),
    /// The run is over; persist this last partial batch (possibly empty).
    Finish(Vec<PendingEmbedding>),
}

/// The abstract state of a bulk run.
pub struct BackfillModel {
    /// Items to index, newest first.
    pub items: Seq<i64>,
    /// Number of items processed so far.
    pub next: nat,
    /// Whether `items[next]` is being embedded.
    pub in_flight: bool,
    /// Whether the run has ended.
    pub finished: bool,
    /// Embeddings computed but not yet handed out for persisting.
    pub batch: Seq<(i64, Seq<u32>)>,
    pub batch_size: nat,
    pub indexed: nat,
    pub failed: nat,
    /// Every batch handed out for persisting, in order.
    pub flushed: Seq<Seq<(i64, Seq<u32>)>>,
}

/// The outcome of a step, abstractly.
pub enum StepOut {
    Embed(i64),
    Finish(Seq<(i64, Seq<u32>)>),
}

impl BackfillModel {
    pub open spec fn wf(self) -> bool {
        &&& self.batch_size >= 1
        &&& self.next <= self.items.len()
        &&& self.in_flight ==> self.next < self.items.len() && !self.finished
        &&& self.batch.len() < self.batch_size
        &&& self.indexed + self.failed == self.next
    }

    /// The state after asking for the next step.
    pub open spec fn stepped(self, enabled: bool) -> BackfillModel {
        if self.finished {
            self
        } else if !enabled || self.next >= self.items.len() {
            BackfillModel {
                finished: true,
                batch: Seq::empty(),
                flushed: if self.batch.len() > 0 {
                    self.flushed.push(self.batch)
                } else {
                    self.flushed
                },
                ..self
            }
        } else {
            BackfillModel { in_flight: true, ..self }
        }
    }

    /// The step returned.
    pub open spec fn step_out(self, enabled: bool) -> StepOut {
        if self.finished {
            StepOut::Finish(Seq::empty())
        } else if !enabled || self.next >= self.items.len() {
            StepOut::Finish(self.batch)
        } else {
            StepOut::Embed(self.items[self.next as int])
        }
    }

    /// The state after the in-flight item got embedding `v`.
    pub open spec fn succeeded(self, v: Seq<u32>) -> BackfillModel {
        let batch = self.batch.push((self.items[self.next as int], v));
        BackfillModel {
            next: self.next + 1,
            in_flight: false,
            indexed: self.indexed + 1,
            batch: if batch.len() >= self.batch_size {
                Seq::empty()
            } else {
                batch
            },
            flushed: if batch.len() >= self.batch_size {
                self.flushed.push(batch)
            } else {
                self.flushed
            },
            ..self
        }
    }

    /// The state after the in-flight item failed to embed.
    pub open spec fn failed_item(self) -> BackfillModel {
        BackfillModel { next: self.next + 1, in_flight: false, failed: self.failed + 1, ..self }
    }

    /// The state after asking for steps with each of `flags`, in order, and
    /// processing nothing in between.
    pub open spec fn stepped_all(self, flags: Seq<bool>) -> BackfillModel
        decreases flags.len(),
    {
        if flags.len() == 0 {
            self
        } else {
            self.stepped_all(flags.drop_last()).stepped(flags.last())
        }
    }
}

/// A bulk backfill run over a fixed list of items.
pub struct BulkIndexRun {
    items: Vec<i64>,
    next: usize,
    in_flight: bool,
    finished: bool,
    batch: Vec<PendingEmbedding>,
    batch_size: usize,
    indexed: usize,
    failed: usize,
    flushed: Ghost<Seq<Seq<(i64, Seq<u32>)>>>,
}

impl View for BulkIndexRun {
    type V = BackfillModel;

    closed spec fn view(&self) -> BackfillModel {
        BackfillModel {
            items: self.items@,
            next: self.next as nat,
            in_flight: self.in_flight,
            finished: self.finished,
            batch: pending_view(self.batch@),
            batch_size: self.batch_size as nat,
            indexed: self.indexed as nat,
            failed: self.failed as nat,
            flushed: self.flushed@,
        }
    }
}

impl BulkIndexRun {
    /// A run over `items` (newest first) persisting `batch_size` embeddings
    /// per write.
    pub fn new(items: Vec<i64>, batch_size: usize) -> (r: Self)
        requires
            batch_size >= 1,
        ensures
            r@.wf(),
            r@ == (BackfillModel {
                items: items@,
                next: 0,
                in_flight: false,
                finished: false,
                batch: Seq::empty(),
                batch_size: batch_size as nat,
                indexed: 0,
                failed: 0,
                flushed: Seq::empty(),
            }),
    {
        let r = BulkIndexRun {
            items,
            next: 0,
            in_flight: false,
            finished: false,
            batch: Vec::new(),
            batch_size,
            indexed: 0,
            failed: 0,
            flushed: Ghost(Seq::empty()),
        };
        proof {
            assert(pending_view(r.batch@) =~= Seq::empty());
        }
        r
    }

    /// Number of items embedded so far.
    pub fn indexed(&self) -> (r: usize)
        ensures
            r == self@.indexed,
    {
        self.indexed
    }

    /// Number of items whose embedding failed so far.
    pub fn failed(&self) -> (r: usize)
        ensures
            r == self@.failed,
    {
        self.failed
    }

    /// Whether the run has ended.
    pub fn is_finished(&self) -> (r: bool)
        ensures
            r == self@.finished,
    {
        self.finished
    }

    /// Whether a progress report is due: a positive multiple of
    /// `PROGRESS_INTERVAL` items has been processed.
    pub fn progress_due(&self) -> (r: bool)
        ensures
            r == (self@.next > 0 && self@.next % (PROGRESS_INTERVAL as nat) == 0),
    {
        self.next > 0 && self.next % PROGRESS_INTERVAL == 0
    }

    /// Asks for the next step, given whether the feature is still enabled.
    /// A disabled feature, or no item left, ends the run and hands out the
    /// partial batch; once ended, every step is an empty `Finish`.
    pub fn next_step(&mut self, enabled: bool) -> (r: BackfillStep)
        requires
            old(self)@.wf(),
            !old(self)@.in_flight,
        ensures
            final(self)@.wf(),
            final(self)@ == old(self)@.stepped(enabled),
            match r {
                BackfillStep::Embed(id) => old(self)@.step_out(enabled) == StepOut::Embed(id),
                BackfillStep::Finish(b) => old(self)@.step_out(enabled) == StepOut::Finish(
                    pending_view(b@),
                ),
            },
    {
        if self.finished {
            let empty: Vec<PendingEmbedding> = Vec::new();
            proof {
                assert(pending_view(empty@) =~= Seq::empty());
            }
            BackfillStep::Finish(empty)
        } else if !enabled || self.next >= self.items.len() {
            let ghost pre = self@;
            let mut out: Vec<PendingEmbedding> = Vec::new();
            std::mem::swap(&mut out, &mut self.batch);
            self.finished = true;
            proof {
                if pre.batch.len() > 0 {
                    self.flushed = Ghost(self.flushed@.push(pre.batch));
                }
                assert(pending_view(self.batch@) =~= Seq::empty());
            }
            BackfillStep::Finish(out)
        } else {
            self.in_flight = true;
            BackfillStep::Embed(self.items[self.next])
        }
    }

    /// Records the embedding of the in-flight item: it goes into the index
    /// at once and into the batch. Returns the batch when it is full, to be
    /// persisted in one write.
    pub fn record_embedding(&mut self, index: &mut EmbeddingIndex, vector: Vec<u32>) -> (r: Option<
        Vec<PendingEmbedding>,
    >)
        requires
            old(self)@.wf(),
            old(self)@.in_flight,
            old(index).wf(),
            vector@.len() == old(index)@.dim,
        ensures
            final(self)@.wf(),
            final(self)@ == old(self)@.succeeded(vector@),
            final(index).wf(),
            final(index)@ == old(index)@.upserted(old(self)@.items[old(self)@.next as int], vector@),
            match r {
                Some(b) => final(self)@.flushed == old(self)@.flushed.push(pending_view(b@))
                    && pending_view(b@) == old(self)@.batch.push(
                    (old(self)@.items[old(self)@.next as int], vector@),
                ),
                None => final(self)@.flushed == old(self)@.flushed,
            },
    {
        let ghost pre = self@;
        let total = self.items.len();
        proof {
            assert(self.next < total);
        }
        let item_id = self.items[self.next];
        index.upsert(item_id, vector.as_slice());
        self.batch.push(PendingEmbedding { item_id, vector });
        proof {
            assert(pending_view(self.batch@) =~= pre.batch.push((item_id, vector@)));
        }
        self.next = self.next + 1;
        self.indexed = self.indexed + 1;
        self.in_flight = false;
        if self.batch.len() >= self.batch_size {
            let mut full: Vec<PendingEmbedding> = Vec::new();
            std::mem::swap(&mut full, &mut self.batch);
            proof {
                self.flushed = Ghost(self.flushed@.push(pending_view(full@)));
                assert(pending_view(self.batch@) =~= Seq::empty());
            }
            Some(full)
        } else {
            None
        }
    }

    /// Records that the in-flight item could not be embedded; the run goes
    /// on with the next item.
    pub fn record_failure(&mut self)
        requires
            old(self)@.wf(),
            old(self)@.in_flight,
        ensures
            final(self)@.wf(),
            final(self)@ == old(self)@.failed_item(),
    {
        let total = self.items.len();
        proof {
            assert(self.next < total);
        }
        self.next = self.next + 1;
        self.failed = self.failed + 1;
        self.in_flight = false;
    }
}

/// Once a step has seen the feature disabled, the run is over for good:
/// the step hands out the partial batch, every batch handed out before is
/// kept, the count of processed items stops, and whatever is asked later
/// processes no further item and hands out nothing more.
pub proof fn lemma_disable_halts(s: BackfillModel, later: Seq<bool>)
    requires
        s.wf(),
        !s.in_flight,
    ensures
        s.stepped(false).finished,
        s.stepped(false).next == s.next,
        !s.finished ==> s.step_out(false) == StepOut::Finish(s.batch),
        s.stepped(false).flushed.len() >= s.flushed.len(),
        s.stepped(false).flushed.take(s.flushed.len() as int) == s.flushed,
        !s.finished && s.batch.len() > 0 ==> s.stepped(false).flushed.last() == s.batch,
        s.stepped(false).stepped_all(later) == s.stepped(false),
        forall|i: int|
            0 <= i < later.len() ==> s.stepped(false).stepped_all(later.take(i)).step_out(
                #[trigger] later[i],
            ) == StepOut::Finish(Seq::<(i64, Seq<u32>)>::empty()),
{
    let s1 = s.stepped(false);
    assert(s.flushed.take(s.flushed.len() as int) =~= s.flushed);
    if !s.finished && s.batch.len() > 0 {
        assert(s1.flushed.take(s.flushed.len() as int) =~= s.flushed);
    }
    lemma_stay_finished(s1, later);
    assert forall|i: int| 0 <= i < later.len() implies s1.stepped_all(later.take(i)).step_out(
        #[trigger] later[i],
    ) == StepOut::Finish(Seq::<(i64, Seq<u32>)>::empty()) by {
        lemma_stay_finished(s1, later.take(i));
    }
}

proof fn lemma_stay_finished(s: BackfillModel, flags: Seq<bool>)
    requires
        s.finished,
    ensures
        s.stepped_all(flags) == s,
    decreases flags.len(),
{
    if flags.len() > 0 {
        lemma_stay_finished(s, flags.drop_last());
    }
}

/// Completes the indexing of one newly captured item whose embedding has
/// been computed and persisted: it is upserted into the index and counted.
pub fn complete_single_item(
    status: &mut SemanticStatus,
    index: &mut EmbeddingIndex,
    item_id: i64,
    vector: &[u32],
)
    requires
        old(index).wf(),
        vector@.len() == old(index)@.dim,
    ensures
        final(index).wf(),
        final(index)@ == old(index)@.upserted(item_id, vector@),
        final(status).indexed_count == if old(status).indexed_count + 1 > usize::MAX {
            usize::MAX as int
        } else {
            old(status).indexed_count + 1
        },
        *final(status) == (SemanticStatus {
            indexed_count: final(status).indexed_count,
            ..*old(status)
        }),
{
    index.upsert(item_id, vector);
    status.add_indexed(1);
}

/// Takes a deleted history item out of the index and one off the indexed
/// count, which never goes below zero.
pub fn forget_deleted_item(status: &mut SemanticStatus, index: &mut EmbeddingIndex, item_id: i64)
    requires
        old(index).wf(),
    ensures
        final(index).wf(),
        final(index)@ == old(index)@.removed(item_id),
        final(status).indexed_count == if old(status).indexed_count == 0 {
            0
        } else {
            old(status).indexed_count - 1
        },
        *final(status) == (SemanticStatus {
            indexed_count: final(status).indexed_count,
            ..*old(status)
        }),
{
    index.remove(item_id);
    status.indexed_count = status.indexed_count.saturating_sub(1);
}

} // verus!
