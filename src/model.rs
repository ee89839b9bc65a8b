//! Lifecycle of the on-disk model: integrity check, the decision to start a
//! download, and the decisions of the download loop (cancellation, progress
//! reports, stalls, final integrity).

use vstd::prelude::*;

use crate::status::{DownloadProgress, SemanticStatus};

verus! {

/// Smallest size of a complete model file, in bytes.
pub const MIN_MODEL_SIZE_BYTES: u64 = 100 * 1024 * 1024;

/// File name of the model inside the models directory.
pub const SEMANTIC_MODEL_FILENAME: &'static str = "embeddinggemma-300m-Q8_0.gguf";

/// Where the model is downloaded from.
pub const SEMANTIC_MODEL_URL: &'static str = "https://huggingface.co/ggml-org/embeddinggemma-300M-GGUF/resolve/main/embeddinggemma-300M-Q8_0.gguf";

/// Consecutive empty reads after which a download counts as stalled.
pub const MAX_STALLED_READS: u32 = 100;

/// Why a model file or a download is not usable.
#[derive(Clone, Copy, Debug, PartialEq, Eq, Structural)]
pub enum DownloadError {
    /// A download is already running.
    AlreadyInProgress,
    /// The model file is already present and complete.
    AlreadyDownloaded,
    /// The download was cancelled.
    Cancelled,
    /// No data arrived for too long.
    Stalled,
    /// Reading from the network failed.
    ReadFailed,
    /// The finished file is smaller than a complete model.
    TooSmall,
}

impl DownloadError {
    /// Whether the partial file is to be deleted after this error.
    pub fn deletes_partial_file(&self) -> (r: bool)
        ensures
            r == match self {
                DownloadError::Cancelled | DownloadError::Stalled | DownloadError::ReadFailed
                | DownloadError::TooSmall => true,
                _ => false,
            },
    {
        match self {
            DownloadError::Cancelled | DownloadError::Stalled | DownloadError::ReadFailed
            | DownloadError::TooSmall => true,
            _ => false,
        }
    }

    /// A message for the user.
    pub fn message(&self) -> (r: &'static str)
        ensures
            r@ == match self {
                DownloadError::AlreadyInProgress => "Download already in progress"@,
                DownloadError::AlreadyDownloaded => "Model already downloaded"@,
                DownloadError::Cancelled => "Download cancelled"@,
                DownloadError::Stalled => "Download stalled - please try manual download"@,
                DownloadError::ReadFailed => "Read error - try manual download"@,
                DownloadError::TooSmall => "Downloaded file is too small - may be corrupted"@,
            },
    {
        match self {
            DownloadError::AlreadyInProgress => "Download already in progress",
            DownloadError::AlreadyDownloaded => "Model already downloaded",
            DownloadError::Cancelled => "Download cancelled",
            DownloadError::Stalled => "Download stalled - please try manual download",
            DownloadError::ReadFailed => "Read error - try manual download",
            DownloadError::TooSmall => "Downloaded file is too small - may be corrupted",
        }
    }
}

/// A model file that exists but is too small to be complete.
#[derive(Clone, Copy, Debug, PartialEq, Eq, Structural)]
pub struct IncompleteModelFile {
    pub size: u64,
}

/// Integrity of the model file, given its size (`None` when there is no
/// file): `Ok(false)` without a file, an error for a file under
/// `MIN_MODEL_SIZE_BYTES`, `Ok(true)` otherwise.
pub fn check_model_file(size: Option<u64>) -> (r: Result<bool, IncompleteModelFile>)
    ensures
        r == match size {
            None => Ok(false),
            Some(n) => if n < MIN_MODEL_SIZE_BYTES {
                Err(IncompleteModelFile { size: n })
            } else {
                Ok(true)
            },
        },
{
    match size {
        None => Ok(false),
        Some(n) => if n < MIN_MODEL_SIZE_BYTES {
            Err(IncompleteModelFile { size: n })
        } else {
            Ok(true)
        },
    }
}

/// The download URL of the model.
pub fn get_model_url() -> (r: &'static str)
    ensures
        r@ == SEMANTIC_MODEL_URL@,
{
    SEMANTIC_MODEL_URL
}

/// What a user needs to fetch the model by hand.
#[derive(Clone, Debug)]
pub struct ManualDownloadInfo {
    pub url: String,
    pub target_path: String,
    pub filename: String,
}

/// The manual download information for a model to be placed at
/// `target_path`.
pub fn manual_download_info(target_path: String) -> (r: ManualDownloadInfo)
    ensures
        r.url@ == SEMANTIC_MODEL_URL@,
        r.target_path@ == target_path@,
        r.filename@ == SEMANTIC_MODEL_FILENAME@,
{
    ManualDownloadInfo {
        url: SEMANTIC_MODEL_URL.to_owned(),
        target_path,
        filename: SEMANTIC_MODEL_FILENAME.to_owned(),
    }
}

/// Decides whether a download may start. It fails with
/// `AlreadyInProgress` while one is running (nothing changes), and with
/// `AlreadyDownloaded` when the file is already complete (the status then
/// records the model as downloaded). Otherwise it marks a download as
/// running with no bytes yet.
pub fn begin_download(status: &mut SemanticStatus, file_complete: bool) -> (r: Result<(), DownloadError>)
    ensures
        r == if old(status).download_progress.is_some() {
            Err(DownloadError::AlreadyInProgress)
        } else if file_complete {
            Err(DownloadError::AlreadyDownloaded)
        } else {
            Ok(())
        },
        *final(status) == (if old(status).download_progress.is_some() {
            *old(status)
        } else if file_complete {
            (SemanticStatus { model_downloaded: true, download_progress: None, ..*old(status) })
        } else {
            (SemanticStatus {
                download_progress: Some(DownloadProgress { downloaded: 0, total: 0 }),
                ..*old(status)
            })
        }),
{
    if status.download_progress.is_some() {
        return Err(DownloadError::AlreadyInProgress);
    }
    if file_complete {
        status.model_downloaded = true;
        status.download_progress = None;
        return Err(DownloadError::AlreadyDownloaded);
    }
    status.download_progress = Some(DownloadProgress { downloaded: 0, total: 0 });
    Ok(())
}

/// Records the end of a download in the status: a success marks the model
/// downloaded; either way no download is running any more.
pub fn end_download(status: &mut SemanticStatus, succeeded: bool)
    ensures
        *final(status) == (SemanticStatus {
            model_downloaded: old(status).model_downloaded || succeeded,
            download_progress: None,
            ..*old(status)
        }),
{
    if succeeded {
        status.model_downloaded = true;
    }
    status.download_progress = None;
}

/// Whether progress is worth reporting: the total is known and either at
/// least one percent of it arrived since the last report, or all of it did.
pub open spec fn report_due(downloaded: u64, last_reported: u64, total: u64) -> bool {
    total > 0 && (100 * (downloaded - last_reported) >= total || downloaded >= total)
}

/// What the download loop got from one read.
#[derive(Clone, Copy, Debug, PartialEq, Eq, Structural)]
pub enum ReadOutcome {
    /// This many bytes arrived and were written to the file.
    Data(u64),
    /// The stream ended.
    EndOfStream,
    /// No data was ready yet.
    WouldBlock,
    /// The read failed.
    Failed,
}

/// What the download loop does next.
#[derive(Clone, Copy, Debug, PartialEq, Eq, Structural)]
pub enum DownloadAction {
    /// Read on; publish this progress first, if any.
    Continue(Option<DownloadProgress>),
    /// Wait a moment, then read again.
    Wait,
    /// The stream is complete: check the file.
    Verify,
    /// Give up with this error.
    Abort(DownloadError),
}

/// The decisions of one download of a given announced size.
pub struct DownloadSession {
    pub downloaded: u64,
    pub total: u64,
    pub last_reported: u64,
    pub stalled_reads: u32,
}

impl DownloadSession {
    /// A session for a body of `total` bytes (0 when unknown).
    pub fn new(total: u64) -> (r: Self)
        ensures
            r.downloaded == 0,
            r.total == total,
            r.last_reported == 0,
            r.stalled_reads == 0,
    {
        DownloadSession { downloaded: 0, total, last_reported: 0, stalled_reads: 0 }
    }

    /// Checked before every read: a cancelled download is abandoned.
    pub fn before_read(&self, cancelled: bool) -> (r: Option<DownloadError>)
        ensures
            r == if cancelled {
                Some(DownloadError::Cancelled)
            } else {
                None
            },
    {
        if cancelled {
            Some(DownloadError::Cancelled)
        } else {
            None
        }
    }

    /// Takes in the outcome of a read. Data is counted and reported when a
    /// report is due; more than `MAX_STALLED_READS` empty reads in a row, or
    /// a failed read, abandon the download; the end of the stream asks for
    /// the final check.
    pub fn after_read(&mut self, outcome: ReadOutcome) -> (r: DownloadAction)
        requires
            old(self).last_reported <= old(self).downloaded,
            match outcome {
                ReadOutcome::Data(n) => old(self).downloaded + n <= u64::MAX,
                _ => true,
            },
        ensures
            final(self).last_reported <= final(self).downloaded,
            final(self).total == old(self).total,
            match outcome {
                ReadOutcome::Data(n) => {
                    let d = (old(self).downloaded + n) as u64;
                    &&& final(self).downloaded == d
                    &&& final(self).stalled_reads == 0
                    &&& if report_due(d, old(self).last_reported, old(self).total) {
                        &&& r == DownloadAction::Continue(
                            Some(DownloadProgress { downloaded: d, total: old(self).total }),
                        )
                        &&& final(self).last_reported == d
                    } else {
                        &&& r == DownloadAction::Continue(None)
                        &&& final(self).last_reported == old(self).last_reported
                    }
                },
                ReadOutcome::WouldBlock => {
                    &&& final(self).downloaded == old(self).downloaded
                    &&& final(self).last_reported == old(self).last_reported
                    &&& if old(self).stalled_reads >= MAX_STALLED_READS {
                        &&& r == DownloadAction::Abort(DownloadError::Stalled)
                        &&& final(self).stalled_reads == old(self).stalled_reads
                    } else {
                        &&& r == DownloadAction::Wait
                        &&& final(self).stalled_reads == old(self).stalled_reads + 1
                    }
                },
                ReadOutcome::EndOfStream => r == DownloadAction::Verify && *final(self) == *old(
                    self,
                ),
                ReadOutcome::Failed => r == DownloadAction::Abort(DownloadError::ReadFailed)
                    && *final(self) == *old(self),
            },
    {
        match outcome {
            ReadOutcome::Data(n) => {
                self.stalled_reads = 0;
                self.downloaded = self.downloaded + n;
                let since = self.downloaded - self.last_reported;
                let due = self.total > 0 && ((since as u128) * 100 >= self.total as u128
                    || self.downloaded >= self.total);
                if due {
                    self.last_reported = self.downloaded;
                    DownloadAction::Continue(
                        Some(DownloadProgress { downloaded: self.downloaded, total: self.total }),
                    )
                } else {
                    DownloadAction::Continue(None)
                }
            },
            ReadOutcome::WouldBlock => {
                if self.stalled_reads >= MAX_STALLED_READS {
                    DownloadAction::Abort(DownloadError::Stalled)
                } else {
                    self.stalled_reads = self.stalled_reads + 1;
                    DownloadAction::Wait
                }
            },
            ReadOutcome::EndOfStream => DownloadAction::Verify,
            ReadOutcome::Failed => DownloadAction::Abort(DownloadError::ReadFailed),
        }
    }

    /// The final integrity check on the size of the written file.
    pub fn verify(&self, file_size: u64) -> (r: Result<(), DownloadError>)
        ensures
            r == if file_size < MIN_MODEL_SIZE_BYTES {
                Err(DownloadError::TooSmall)
            } else {
                Ok(())
            },
    {
        if file_size < MIN_MODEL_SIZE_BYTES {
            Err(DownloadError::TooSmall)
        } else {
            Ok(())
        }
    }
}

} // verus!
