use mini_rag::app::VecDB;
use mini_rag::errors::Error;

/// A store of three 16-character chunks, one sentence each, with a
/// 2-dimensional embedding per chunk.
fn sentence_store(rows: Vec<Vec<i64>>) -> VecDB {
    let corpus = "The cat sat.    The dog ran.    Birds fly south.";
    // 48 characters, target 16, overlap 0: three exact sentence spans.
    VecDB::new(corpus, 16, 0, rows).unwrap()
}

#[test]
fn feline_query_ranks_cat_sentence_first() {
    // embeddings chosen so that the "feline" query vector points at the
    // first sentence
    let db = sentence_store(vec![vec![1000, 0], vec![0, 1000], vec![500, 500]]);
    let query = vec![1000, 10];
    let top = db.find_top_n_sim(&query, 1).unwrap();
    assert_eq!(top.len(), 1);
    assert_eq!(top[0].1, "The cat sat.    ");
}

#[test]
fn scores_are_exact_dot_products() {
    let db = sentence_store(vec![vec![1000, 2000], vec![0, 0], vec![10, 10]]);
    let query = vec![3000, 4000];
    let top = db.find_top_n_sim(&query, 3).unwrap();
    assert_eq!(top[0].0, 3000 * 1000 + 4000 * 2000);
    assert_eq!(top[1].0, 10 * 3000 + 10 * 4000);
    assert_eq!(top[2].0, 0);
}

#[test]
fn results_are_sorted_by_non_increasing_score() {
    let db = sentence_store(vec![vec![10, 0], vec![900, 0], vec![500, 0]]);
    let query = vec![1000, 0];
    let top = db.find_top_n_sim(&query, 3).unwrap();
    for w in top.windows(2) {
        assert!(w[0].0 >= w[1].0);
    }
    assert_eq!(top[0].1, "The dog ran.    ");
}

#[test]
fn equal_scores_keep_original_chunk_order() {
    let db = sentence_store(vec![vec![500, 0], vec![500, 0], vec![900, 0]]);
    let query = vec![1000, 0];
    let top = db.find_top_n_sim(&query, 3).unwrap();
    assert_eq!(top[0].1, "Birds fly south.");
    // the two tied chunks come in their stored order
    assert_eq!(top[1].1, "The cat sat.    ");
    assert_eq!(top[2].1, "The dog ran.    ");
}

#[test]
fn n_is_clamped_to_store_size() {
    let db = sentence_store(vec![vec![1, 0], vec![2, 0], vec![3, 0]]);
    let query = vec![1, 1];
    assert_eq!(db.find_top_n_sim(&query, 100).unwrap().len(), 3);
    assert_eq!(db.find_top_n_sim(&query, 2).unwrap().len(), 2);
    assert_eq!(db.find_top_n_sim(&query, 0).unwrap().len(), 0);
}

#[test]
fn empty_store_query_fails_unless_n_is_zero() {
    let db = VecDB::new("", 16, 0, vec![]).unwrap();
    assert!(matches!(db.find_top_n_sim(&vec![], 1), Err(Error::EmptyStore)));
    assert_eq!(db.find_top_n_sim(&vec![], 0).unwrap().len(), 0);
    // the empty store is reported before any shape complaint
    assert!(matches!(
        db.find_top_n_sim(&vec![1, 2, 3], 2),
        Err(Error::EmptyStore)
    ));
}

#[test]
fn query_shape_mismatch_is_embedding_error() {
    let db = sentence_store(vec![vec![1, 0], vec![2, 0], vec![3, 0]]);
    assert!(matches!(db.find_top_n_sim(&vec![1], 1), Err(Error::Embedding)));
    assert!(matches!(db.find_top_n_sim(&vec![1, 2, 3], 1), Err(Error::Embedding)));
    assert!(matches!(
        db.find_top_n_sim(&vec![1, 2000000], 1),
        Err(Error::Embedding)
    ));
}
