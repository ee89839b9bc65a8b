use powerclip::ranking::SearchResult;
use powerclip::vector_index::EmbeddingIndex;

fn bits(v: &[f32]) -> Vec<u32> {
    v.iter().map(|x| x.to_bits()).collect()
}

fn dot(a: &[f32], b: &[u32]) -> f32 {
    a.iter().zip(b.iter()).map(|(x, y)| x * f32::from_bits(*y)).sum()
}

fn config(dim: usize, max_items: usize, min_score: f32) -> EmbeddingIndex {
    EmbeddingIndex::with_config(dim, max_items, min_score.to_bits())
}

fn upsert(index: &mut EmbeddingIndex, id: i64, v: &[f32]) {
    index.upsert(id, &bits(v));
}

fn search(index: &EmbeddingIndex, query: &[f32], k: usize) -> Vec<SearchResult> {
    let scores: Vec<u32> = (0..index.len())
        .map(|i| dot(query, index.slot_vector(i)).to_bits())
        .collect();
    index.search(&scores, k)
}

fn score(r: &SearchResult) -> f32 {
    f32::from_bits(r.score)
}

#[test]
fn test_upsert_and_search() {
    let mut index = config(3, 100, 0.0);
    upsert(&mut index, 1, &[1.0, 0.0, 0.0]);
    upsert(&mut index, 2, &[0.0, 1.0, 0.0]);
    upsert(&mut index, 3, &[0.0, 0.0, 1.0]);

    let results = search(&index, &[1.0, 0.0, 0.0], 3);
    assert_eq!(results.len(), 3);
    assert_eq!(results[0].item_id, 1);
    assert!((score(&results[0]) - 1.0).abs() < 0.001);
}

#[test]
fn test_update_moves_to_lru_tail() {
    let mut index = config(2, 3, 0.0);
    upsert(&mut index, 1, &[1.0, 0.0]);
    upsert(&mut index, 2, &[0.0, 1.0]);
    upsert(&mut index, 3, &[1.0, 1.0]);
    upsert(&mut index, 1, &[0.5, 0.5]);
    upsert(&mut index, 4, &[0.0, 0.0]);

    assert!(index.contains(1));
    assert!(!index.contains(2));
    assert!(index.contains(3));
    assert!(index.contains(4));
}

#[test]
fn test_lru_eviction() {
    let mut index = config(2, 3, 0.0);
    upsert(&mut index, 1, &[1.0, 0.0]);
    upsert(&mut index, 2, &[0.0, 1.0]);
    upsert(&mut index, 3, &[1.0, 1.0]);
    upsert(&mut index, 4, &[0.5, 0.5]);

    assert_eq!(index.len(), 3);
    assert!(!index.contains(1));
    assert!(index.contains(4));
}

#[test]
fn test_search_filters_by_threshold() {
    let mut index = config(2, 100, 0.5);
    upsert(&mut index, 1, &[1.0, 0.0]);
    upsert(&mut index, 2, &[0.6, 0.8]);
    upsert(&mut index, 3, &[0.0, 1.0]);

    let results = search(&index, &[1.0, 0.0], 10);
    assert_eq!(results.len(), 2);
    assert!(results.iter().all(|r| r.item_id != 3));
}

#[test]
fn test_search_returns_empty_when_no_matches() {
    let mut index = config(2, 100, 0.9);
    upsert(&mut index, 1, &[0.5, 0.5]);
    upsert(&mut index, 2, &[0.6, 0.6]);

    let results = search(&index, &[1.0, 0.0], 10);
    assert!(results.is_empty());
}

#[test]
fn test_update_existing() {
    let mut index = config(2, 100, 0.0);
    upsert(&mut index, 1, &[1.0, 0.0]);
    upsert(&mut index, 1, &[0.0, 1.0]);

    assert_eq!(index.len(), 1);

    let results = search(&index, &[0.0, 1.0], 1);
    assert_eq!(results[0].item_id, 1);
    assert!((score(&results[0]) - 1.0).abs() < 0.001);
}

#[test]
fn test_remove() {
    let mut index = config(2, 100, 0.0);
    upsert(&mut index, 1, &[1.0, 0.0]);
    upsert(&mut index, 2, &[0.0, 1.0]);
    upsert(&mut index, 3, &[1.0, 1.0]);

    assert_eq!(index.len(), 3);

    assert!(index.remove(2));
    assert_eq!(index.len(), 2);
    assert!(!index.contains(2));

    let results = search(&index, &[0.0, 1.0], 10);
    assert_eq!(results.len(), 2);
    assert!(results.iter().all(|r| r.item_id != 2));
}

#[test]
fn test_remove_nonexistent() {
    let mut index = EmbeddingIndex::new(2);
    upsert(&mut index, 1, &[1.0, 0.0]);

    assert!(!index.remove(999));
    assert_eq!(index.len(), 1);
}

#[test]
fn test_search_empty() {
    let index = EmbeddingIndex::new(3);
    let results = search(&index, &[1.0, 0.0, 0.0], 5);
    assert!(results.is_empty());
}

#[test]
fn test_search_k_larger_than_size() {
    let mut index = config(2, 100, 0.0);
    upsert(&mut index, 1, &[1.0, 0.0]);
    upsert(&mut index, 2, &[0.0, 1.0]);

    let results = search(&index, &[1.0, 1.0], 100);
    assert_eq!(results.len(), 2);
}

#[test]
fn test_clear() {
    let mut index = EmbeddingIndex::new(2);
    upsert(&mut index, 1, &[1.0, 0.0]);
    upsert(&mut index, 2, &[0.0, 1.0]);

    index.clear();

    assert!(index.is_empty());
    assert_eq!(index.len(), 0);
}

#[test]
fn test_memory_usage() {
    let mut index = EmbeddingIndex::new(256);
    upsert(&mut index, 1, &[0.0; 256]);
    upsert(&mut index, 2, &[0.0; 256]);

    let usage = index.memory_usage();
    assert!(usage >= 2064);
}

#[test]
fn test_capacity() {
    let index = config(2, 1000, 0.5);
    assert_eq!(index.capacity(), 1000);
}

#[test]
fn test_search_results_sorted_by_score_descending() {
    let mut index = config(2, 100, 0.0);
    upsert(&mut index, 1, &[0.9, 0.0]);
    upsert(&mut index, 2, &[0.3, 0.0]);
    upsert(&mut index, 3, &[1.0, 0.0]);
    upsert(&mut index, 4, &[0.5, 0.0]);
    upsert(&mut index, 5, &[0.7, 0.0]);

    let results = search(&index, &[1.0, 0.0], 10);

    assert_eq!(results.len(), 5);
    assert_eq!(results[0].item_id, 3);
    assert_eq!(results[1].item_id, 1);
    assert_eq!(results[2].item_id, 5);
    assert_eq!(results[3].item_id, 4);
    assert_eq!(results[4].item_id, 2);

    for i in 0..results.len() - 1 {
        assert!(score(&results[i]) >= score(&results[i + 1]));
    }
}

#[test]
fn ranking_scenario_with_threshold() {
    let mut index = config(2, 100, 0.5);
    upsert(&mut index, 1, &[1.0, 0.0]);
    upsert(&mut index, 2, &[0.0, 1.0]);
    upsert(&mut index, 3, &[0.6, 0.8]);

    let results = search(&index, &[1.0, 0.0], 10);
    assert_eq!(results.len(), 2);
    assert_eq!(results[0].item_id, 1);
    assert!((score(&results[0]) - 1.0).abs() < 1e-6);
    assert_eq!(results[1].item_id, 3);
    assert!((score(&results[1]) - 0.6).abs() < 1e-6);
}

#[test]
fn search_with_zero_k_is_empty() {
    let mut index = config(2, 100, 0.0);
    upsert(&mut index, 1, &[1.0, 0.0]);
    assert!(search(&index, &[1.0, 0.0], 0).is_empty());
}

#[test]
fn search_takes_only_the_best_k() {
    let mut index = config(1, 100, 0.0);
    for (id, x) in [(1, 0.1f32), (2, 0.9), (3, 0.5), (4, 0.7), (5, 0.3)] {
        upsert(&mut index, id, &[x]);
    }
    let results = search(&index, &[1.0], 2);
    assert_eq!(results.len(), 2);
    assert_eq!(results[0].item_id, 2);
    assert_eq!(results[1].item_id, 4);
}

#[test]
fn eviction_of_first_of_max_plus_one() {
    let mut index = config(1, 4, 0.0);
    for id in 1..=5 {
        upsert(&mut index, id, &[1.0]);
    }
    assert_eq!(index.len(), 4);
    assert!(!index.contains(1));
    for id in 2..=5 {
        assert!(index.contains(id));
    }
}

#[test]
fn refreshed_entry_outlives_untouched_ones() {
    let mut index = config(1, 3, 0.0);
    upsert(&mut index, 1, &[1.0]);
    upsert(&mut index, 2, &[1.0]);
    upsert(&mut index, 3, &[1.0]);
    upsert(&mut index, 1, &[0.5]);
    upsert(&mut index, 4, &[1.0]);
    upsert(&mut index, 5, &[1.0]);
    assert!(index.contains(1));
    assert!(!index.contains(2));
    assert!(!index.contains(3));
}

#[test]
fn remove_undoes_upsert() {
    let mut index = config(2, 10, 0.0);
    upsert(&mut index, 1, &[1.0, 0.0]);
    upsert(&mut index, 2, &[0.0, 1.0]);
    let before = index.len();
    upsert(&mut index, 7, &[0.5, 0.5]);
    assert!(index.remove(7));
    assert!(!index.contains(7));
    assert_eq!(index.len(), before);
}

#[test]
fn length_and_dimension_stay_bounded() {
    let mut index = config(3, 5, 0.0);
    for id in 0..40i64 {
        if id % 3 == 2 {
            index.remove(id - 1);
        } else {
            upsert(&mut index, id % 9, &[id as f32, 1.0, 2.0]);
        }
        assert!(index.len() <= 5);
        for slot in 0..index.len() {
            assert_eq!(index.slot_vector(slot).len(), 3);
        }
    }
}

#[test]
fn swap_remove_keeps_vectors_with_their_ids() {
    let mut index = config(2, 10, 0.0);
    upsert(&mut index, 10, &[1.0, 2.0]);
    upsert(&mut index, 20, &[3.0, 4.0]);
    upsert(&mut index, 30, &[5.0, 6.0]);
    assert!(index.remove(10));
    for slot in 0..index.len() {
        let id = index.slot_id(slot);
        let v: Vec<f32> = index.slot_vector(slot).iter().map(|b| f32::from_bits(*b)).collect();
        match id {
            20 => assert_eq!(v, vec![3.0, 4.0]),
            30 => assert_eq!(v, vec![5.0, 6.0]),
            _ => panic!("unexpected id {}", id),
        }
    }
}

#[test]
fn memory_usage_exact_formula() {
    let mut index = config(4, 10, 0.0);
    upsert(&mut index, 1, &[0.0; 4]);
    upsert(&mut index, 2, &[0.0; 4]);
    assert_eq!(index.memory_usage(), 2 * 8 + 2 * 4 * 4 + 2 * 8 + 32 + 2 * 24);
}

#[test]
fn default_index_configuration() {
    let index = EmbeddingIndex::default();
    assert_eq!(index.dim(), 768);
    assert_eq!(index.capacity(), 50_000);
    assert_eq!(f32::from_bits(index.min_score()), 0.2);
}
