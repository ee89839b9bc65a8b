//! The shared status record of semantic search and the decisions taken
//! from it: whether to index a new item, whether a query may run, whether
//! a bulk run may start.

use vstd::prelude::*;

verus! {

/// Bytes of the model received so far, out of the announced total.
#[derive(Clone, Copy, Debug, PartialEq, Eq, Structural)]
pub struct DownloadProgress {
    pub downloaded: u64,
    pub total: u64,
}

/// Status of the semantic search feature.
#[derive(Clone, Copy, Debug)]
pub struct SemanticStatus {
    /// Whether the model file has been downloaded.
    pub model_downloaded: bool,
    /// Whether the model is loaded in memory.
    pub model_loaded: bool,
    /// Progress of an active download; `None` when none is running.
    pub download_progress: Option<DownloadProgress>,
    /// Number of items with embeddings indexed.
    pub indexed_count: usize,
    /// Total number of text items in history.
    pub total_text_count: usize,
    /// Whether background indexing is in progress.
    pub indexing_in_progress: bool,
    /// Whether semantic search is enabled in settings.
    pub enabled: bool,
}

/// Why a semantic query cannot run.
#[derive(Clone, Copy, Debug, PartialEq, Eq, Structural)]
pub enum QueryError {
    /// Semantic search is switched off.
    NotEnabled,
    /// The model file is not downloaded.
    ModelUnavailable,
}

impl QueryError {
    /// A message for the user.
    pub fn message(&self) -> (r: &'static str)
        ensures
            r@ == match self {
                QueryError::NotEnabled => "Semantic search is not enabled"@,
                QueryError::ModelUnavailable => "Model not downloaded"@,
            },
    {
        match self {
            QueryError::NotEnabled => "Semantic search is not enabled",
            QueryError::ModelUnavailable => "Model not downloaded",
        }
    }
}

impl SemanticStatus {
    /// The status at start-up: nothing loaded, indexed or running, the
    /// feature off, and the model marked downloaded as the caller found it.
    pub fn new(model_downloaded: bool) -> (r: Self)
        ensures
            r == SemanticStatus::new_spec(model_downloaded),
    {
        SemanticStatus {
            model_downloaded,
            model_loaded: false,
            download_progress: None,
            indexed_count: 0,
            total_text_count: 0,
            indexing_in_progress: false,
            enabled: false,
        }
    }

    /// Whether a newly captured item is to be indexed: the feature is on
    /// and the model is downloaded.
    pub fn should_index_new_items(&self) -> (r: bool)
        ensures
            r == (self.enabled && self.model_downloaded),
    {
        self.enabled && self.model_downloaded
    }

    /// Whether a query may run: `NotEnabled` when the feature is off,
    /// otherwise `ModelUnavailable` when the model is not downloaded.
    pub fn check_query_ready(&self) -> (r: Result<(), QueryError>)
        ensures
            r == (if !self.enabled {
                Err(QueryError::NotEnabled)
            } else if !self.model_downloaded {
                Err(QueryError::ModelUnavailable)
            } else {
                Ok(())
            }),
    {
        if !self.enabled {
            Err(QueryError::NotEnabled)
        } else if !self.model_downloaded {
            Err(QueryError::ModelUnavailable)
        } else {
            Ok(())
        }
    }

    /// Claims the single bulk-indexing slot: returns `false`, changing
    /// nothing, when a run is already in progress; otherwise marks one as
    /// running and returns `true`.
    pub fn try_begin_indexing(&mut self) -> (r: bool)
        ensures
            r == !old(self).indexing_in_progress,
            final(self).indexing_in_progress,
            *final(self) == (SemanticStatus { indexing_in_progress: true, ..*old(self) }),
    {
        if self.indexing_in_progress {
            false
        } else {
            self.indexing_in_progress = true;
            true
        }
    }

    /// Releases the bulk-indexing slot.
    pub fn end_indexing(&mut self)
        ensures
            *final(self) == (SemanticStatus { indexing_in_progress: false, ..*old(self) }),
    {
        self.indexing_in_progress = false;
    }

    /// Counts `n` more indexed items, saturating at the largest count.
    pub fn add_indexed(&mut self, n: usize)
        ensures
            final(self).indexed_count == if old(self).indexed_count + n > usize::MAX {
                usize::MAX as int
            } else {
                old(self).indexed_count + n
            },
            *final(self) == (SemanticStatus { indexed_count: final(self).indexed_count, ..*old(self) }),
    {
        self.indexed_count = self.indexed_count.saturating_add(n);
    }

    /// Switches the feature on or off.
    pub fn set_enabled(&mut self, enabled: bool)
        ensures
            *final(self) == (SemanticStatus { enabled, ..*old(self) }),
    {
        self.enabled = enabled;
    }

    /// Records that the model is in memory, or no longer is.
    pub fn set_model_loaded(&mut self, loaded: bool)
        ensures
            *final(self) == (SemanticStatus { model_loaded: loaded, ..*old(self) }),
    {
        self.model_loaded = loaded;
    }

    /// Takes in a fresh check of the model file: a file found complete marks
    /// the model downloaded; a status that already says so is kept.
    pub fn note_model_file(&mut self, file_complete: bool)
        ensures
            final(self).model_downloaded == (old(self).model_downloaded || file_complete),
            *final(self) == (SemanticStatus {
                model_downloaded: final(self).model_downloaded,
                ..*old(self)
            }),
    {
        if !self.model_downloaded && file_complete {
            self.model_downloaded = true;
        }
    }
}

impl Default for SemanticStatus {
    /// The start-up status with no model downloaded.
    fn default() -> (r: Self)
        ensures
            r == SemanticStatus::new_spec(false),
    {
        SemanticStatus::new(false)
    }
}

impl SemanticStatus {
    /// The value `new` returns.
    pub open spec fn new_spec(model_downloaded: bool) -> SemanticStatus {
        SemanticStatus {
            model_downloaded,
            model_loaded: false,
            download_progress: None,
            indexed_count: 0,
            total_text_count: 0,
            indexing_in_progress: false,
            enabled: false,
        }
    }
}

} // verus!
