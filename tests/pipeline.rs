use powerclip::backfill::{
    complete_single_item, forget_deleted_item, BackfillStep, BulkIndexRun, EMBEDDING_BATCH_SIZE,
};
use powerclip::codec::{blob_to_embedding, embedding_to_blob, load_embeddings_into_index, StoredEmbedding};
use powerclip::history::ClipboardItem;
use powerclip::model::{
    begin_download, check_model_file, end_download, get_model_url, manual_download_info, DownloadAction,
    DownloadError, DownloadSession, IncompleteModelFile, ReadOutcome, MIN_MODEL_SIZE_BYTES,
};
use powerclip::query::{resolve_search_results, ItemLookup};
use powerclip::ranking::{select_top_k, SearchResult};
use powerclip::score::{clears_threshold, is_nan, score_key};
use powerclip::status::{DownloadProgress, QueryError, SemanticStatus};
use powerclip::vector_index::EmbeddingIndex;

fn bits(v: &[f32]) -> Vec<u32> {
    v.iter().map(|x| x.to_bits()).collect()
}

#[test]
fn test_embedding_blob_conversion() {
    let original: Vec<f32> = vec![1.0, -2.5, 0.001, 1000.0];
    let blob = embedding_to_blob(&bits(&original));
    let recovered: Vec<f32> = blob_to_embedding(&blob, original.len())
        .iter()
        .map(|b| f32::from_bits(*b))
        .collect();

    assert_eq!(original.len(), recovered.len());
    for (a, b) in original.iter().zip(recovered.iter()) {
        assert!((a - b).abs() < 0.0001);
    }
}

#[test]
fn blob_is_little_endian() {
    let blob = embedding_to_blob(&[1.0f32.to_bits(), 0x0102_0304]);
    assert_eq!(blob, vec![0x00, 0x00, 0x80, 0x3f, 0x04, 0x03, 0x02, 0x01]);
}

#[test]
fn blob_round_trip_is_exact() {
    let v: Vec<u32> = vec![0, 1, 0xffff_ffff, 0x8000_0000, 0x7fc0_0000, 12345678];
    assert_eq!(blob_to_embedding(&embedding_to_blob(&v), v.len()), v);
}

#[test]
fn blob_decoding_stops_at_dimension_and_at_short_tail() {
    let blob = embedding_to_blob(&[1, 2, 3]);
    assert_eq!(blob_to_embedding(&blob, 2), vec![1, 2]);
    assert_eq!(blob_to_embedding(&blob[..10], 3), vec![1, 2]);
    assert!(blob_to_embedding(&blob, 0).is_empty());
}

#[test]
fn loading_skips_rows_of_another_dimension() {
    let mut index = EmbeddingIndex::with_config(2, 10, 0);
    let rows = vec![
        StoredEmbedding { item_id: 1, blob: embedding_to_blob(&[1, 2]), dim: 2 },
        StoredEmbedding { item_id: 2, blob: embedding_to_blob(&[1, 2, 3]), dim: 3 },
        StoredEmbedding { item_id: 3, blob: embedding_to_blob(&[4, 5]), dim: 2 },
    ];
    assert_eq!(load_embeddings_into_index(&rows, &mut index), 3);
    assert_eq!(index.len(), 2);
    assert!(index.contains(1));
    assert!(!index.contains(2));
    assert!(index.contains(3));
}

#[test]
fn score_keys_follow_float_order() {
    let values = [-f32::INFINITY, -3.5, -0.0, 0.0, 1e-30, 0.25, 1.0, f32::INFINITY];
    for w in values.windows(2) {
        assert!(score_key(w[0].to_bits()) <= score_key(w[1].to_bits()));
    }
    assert_eq!(score_key((-0.0f32).to_bits()), score_key(0.0f32.to_bits()));
    assert!(score_key((-1.0f32).to_bits()) < score_key((-0.5f32).to_bits()));
    assert!(is_nan(f32::NAN.to_bits()));
    assert!(!is_nan(f32::INFINITY.to_bits()));
}

#[test]
fn threshold_excludes_nan_and_lower_scores() {
    let min = 0.5f32.to_bits();
    assert!(clears_threshold(0.5f32.to_bits(), min));
    assert!(clears_threshold(0.75f32.to_bits(), min));
    assert!(!clears_threshold(0.25f32.to_bits(), min));
    assert!(!clears_threshold(f32::NAN.to_bits(), min));
    assert!(clears_threshold((-0.0f32).to_bits(), 0.0f32.to_bits()));
}

#[test]
fn select_top_k_ranks_best_first() {
    let c: Vec<SearchResult> = [(1, 0.2f32), (2, -0.4), (3, 0.9), (4, 0.6), (5, 0.1)]
        .iter()
        .map(|(id, s)| SearchResult { item_id: *id, score: s.to_bits() })
        .collect();
    let r = select_top_k(&c, 3, 0.15f32.to_bits());
    let ids: Vec<i64> = r.iter().map(|x| x.item_id).collect();
    assert_eq!(ids, vec![3, 4, 1]);
    assert!(select_top_k(&c, 0, 0).is_empty());
    assert_eq!(select_top_k(&c, 10, 0.95f32.to_bits()).len(), 0);
}

#[test]
fn backfill_stops_when_disabled_and_flushes_partial_batch() {
    let mut index = EmbeddingIndex::with_config(1, 100, 0);
    let mut run = BulkIndexRun::new(vec![50, 40, 30, 20, 10], 2);
    let mut flushed: Vec<Vec<i64>> = Vec::new();
    let mut embedded: Vec<i64> = Vec::new();
    let enabled = [true, true, true, false, true, true];
    let mut k = 0;
    loop {
        match run.next_step(enabled[k]) {
            BackfillStep::Embed(id) => {
                embedded.push(id);
                if let Some(batch) = run.record_embedding(&mut index, vec![id as u32]) {
                    flushed.push(batch.iter().map(|p| p.item_id).collect());
                }
            }
            BackfillStep::Finish(batch) => {
                if !batch.is_empty() {
                    flushed.push(batch.iter().map(|p| p.item_id).collect());
                }
                break;
            }
        }
        k += 1;
    }
    assert_eq!(embedded, vec![50, 40, 30]);
    assert_eq!(flushed, vec![vec![50, 40], vec![30]]);
    assert!(run.is_finished());
    assert_eq!(run.indexed(), 3);
    assert!(index.contains(30));
    assert!(!index.contains(20));
    match run.next_step(true) {
        BackfillStep::Finish(b) => assert!(b.is_empty()),
        BackfillStep::Embed(_) => panic!("a finished run processed another item"),
    }
}

#[test]
fn backfill_counts_failures_and_reports_progress() {
    let mut index = EmbeddingIndex::with_config(1, 100, 0);
    let items: Vec<i64> = (1..=12).collect();
    let mut run = BulkIndexRun::new(items, EMBEDDING_BATCH_SIZE);
    let mut reports = 0;
    while let BackfillStep::Embed(id) = run.next_step(true) {
        if id % 4 == 0 {
            run.record_failure();
        } else {
            assert!(run.record_embedding(&mut index, vec![1]).is_none());
        }
        if run.progress_due() {
            reports += 1;
        }
    }
    assert_eq!(run.indexed(), 9);
    assert_eq!(run.failed(), 3);
    assert_eq!(reports, 1);
    assert_eq!(index.len(), 9);
}

#[test]
fn single_item_completion_updates_index_and_count() {
    let mut status = SemanticStatus::new(true);
    status.set_enabled(true);
    assert!(status.should_index_new_items());
    let mut index = EmbeddingIndex::with_config(2, 10, 0);
    complete_single_item(&mut status, &mut index, 9, &[1, 2]);
    assert!(index.contains(9));
    assert_eq!(status.indexed_count, 1);
    status.indexed_count = usize::MAX;
    complete_single_item(&mut status, &mut index, 9, &[3, 4]);
    assert_eq!(status.indexed_count, usize::MAX);
}

#[test]
fn status_gates_queries_and_indexing() {
    let mut status = SemanticStatus::default();
    assert_eq!(status.check_query_ready(), Err(QueryError::NotEnabled));
    assert!(!status.should_index_new_items());
    status.set_enabled(true);
    assert_eq!(status.check_query_ready(), Err(QueryError::ModelUnavailable));
    assert_eq!(QueryError::ModelUnavailable.message(), "Model not downloaded");
    status.note_model_file(true);
    assert_eq!(status.check_query_ready(), Ok(()));
    assert!(status.try_begin_indexing());
    assert!(!status.try_begin_indexing());
    status.end_indexing();
    assert!(status.try_begin_indexing());
}

fn item(id: i64) -> ClipboardItem {
    ClipboardItem {
        id,
        item_type: "text".to_string(),
        content: format!("item {}", id),
        hash: format!("h{}", id),
        created_at: "2024-01-01 00:00:00".to_string(),
    }
}

#[test]
fn stale_hits_are_dropped_and_pruned() {
    let mut index = EmbeddingIndex::with_config(1, 10, 0);
    for id in 1..=3 {
        index.upsert(id, &[1]);
    }
    let hits = vec![
        SearchResult { item_id: 1, score: 7 },
        SearchResult { item_id: 2, score: 6 },
        SearchResult { item_id: 3, score: 5 },
    ];
    let lookups = vec![ItemLookup::Found(item(1)), ItemLookup::Missing, ItemLookup::Failed];
    let results = resolve_search_results(&mut index, &hits, &lookups);
    assert_eq!(results.len(), 1);
    assert_eq!(results[0].item.id, 1);
    assert_eq!(results[0].item.content, "item 1");
    assert_eq!(results[0].score, 7);
    assert!(!index.contains(2));
    assert!(index.contains(3));
}

#[test]
fn model_file_integrity() {
    assert_eq!(check_model_file(None), Ok(false));
    assert_eq!(check_model_file(Some(5)), Err(IncompleteModelFile { size: 5 }));
    assert_eq!(check_model_file(Some(MIN_MODEL_SIZE_BYTES)), Ok(true));
    assert_eq!(MIN_MODEL_SIZE_BYTES, 100 * 1024 * 1024);
}

#[test]
fn download_start_rules() {
    let mut status = SemanticStatus::new(false);
    assert_eq!(begin_download(&mut status, false), Ok(()));
    assert_eq!(status.download_progress, Some(DownloadProgress { downloaded: 0, total: 0 }));
    assert_eq!(begin_download(&mut status, false), Err(DownloadError::AlreadyInProgress));
    end_download(&mut status, false);
    assert!(status.download_progress.is_none());
    assert!(!status.model_downloaded);
    assert_eq!(begin_download(&mut status, true), Err(DownloadError::AlreadyDownloaded));
    assert!(status.model_downloaded);
}

#[test]
fn download_progress_is_reported_per_percent() {
    let mut s = DownloadSession::new(1000);
    assert_eq!(s.before_read(false), None);
    assert_eq!(s.after_read(ReadOutcome::Data(5)), DownloadAction::Continue(None));
    assert_eq!(
        s.after_read(ReadOutcome::Data(5)),
        DownloadAction::Continue(Some(DownloadProgress { downloaded: 10, total: 1000 }))
    );
    assert_eq!(s.after_read(ReadOutcome::Data(9)), DownloadAction::Continue(None));
    assert_eq!(
        s.after_read(ReadOutcome::Data(981)),
        DownloadAction::Continue(Some(DownloadProgress { downloaded: 1000, total: 1000 }))
    );
    assert_eq!(s.after_read(ReadOutcome::EndOfStream), DownloadAction::Verify);
    assert_eq!(s.verify(10), Err(DownloadError::TooSmall));
    assert_eq!(s.verify(MIN_MODEL_SIZE_BYTES), Ok(()));
    let mut unknown = DownloadSession::new(0);
    assert_eq!(unknown.after_read(ReadOutcome::Data(100)), DownloadAction::Continue(None));
}

#[test]
fn download_cancellation_stall_and_errors() {
    let mut s = DownloadSession::new(10);
    assert_eq!(s.before_read(true), Some(DownloadError::Cancelled));
    for _ in 0..100 {
        assert_eq!(s.after_read(ReadOutcome::WouldBlock), DownloadAction::Wait);
    }
    assert_eq!(s.after_read(ReadOutcome::WouldBlock), DownloadAction::Abort(DownloadError::Stalled));
    assert_eq!(s.after_read(ReadOutcome::Failed), DownloadAction::Abort(DownloadError::ReadFailed));
    assert!(DownloadError::Cancelled.deletes_partial_file());
    assert!(DownloadError::Stalled.deletes_partial_file());
    assert!(!DownloadError::AlreadyInProgress.deletes_partial_file());
}

#[test]
fn manual_download_info_fields() {
    let info = manual_download_info("/data/models/m.gguf".to_string());
    assert_eq!(info.url, get_model_url());
    assert!(info.url.starts_with("https://huggingface.co/"));
    assert_eq!(info.filename, "embeddinggemma-300m-Q8_0.gguf");
    assert_eq!(info.target_path, "/data/models/m.gguf");
}

#[test]
fn deleted_item_leaves_index_and_count() {
    let mut status = SemanticStatus::new(true);
    let mut index = EmbeddingIndex::with_config(1, 10, 0);
    complete_single_item(&mut status, &mut index, 4, &[1]);
    forget_deleted_item(&mut status, &mut index, 4);
    assert!(!index.contains(4));
    assert_eq!(status.indexed_count, 0);
    forget_deleted_item(&mut status, &mut index, 4);
    assert_eq!(status.indexed_count, 0);
}
