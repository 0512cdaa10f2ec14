use mini_rag::app::{VecDB, COMPONENT_BOUND, MAX_DIM};
use mini_rag::errors::Error;
use mini_rag::utils::chunk_text;

#[test]
fn chunks_cover_text_with_overlap() {
    // target 4, overlap 2: spans start every 2 characters.
    let chunks = chunk_text("abcdefghij", 4, 2).unwrap();
    assert_eq!(chunks, vec!["abcd", "cdef", "efgh", "ghij"]);
    // removing the 2-character overlap from every later span rebuilds the text
    let mut rebuilt = chunks[0].clone();
    for c in &chunks[1..] {
        rebuilt.push_str(&c[2..]);
    }
    assert_eq!(rebuilt, "abcdefghij");
}

#[test]
fn every_span_but_last_has_target_size() {
    let chunks = chunk_text("abcdefghijk", 5, 2).unwrap();
    for c in &chunks[..chunks.len() - 1] {
        assert_eq!(c.chars().count(), 5);
    }
    let last = chunks.last().unwrap();
    assert!(last.chars().count() <= 5);
    assert!(!last.is_empty());
}

#[test]
fn short_text_is_one_chunk() {
    assert_eq!(chunk_text("hi", 10, 3).unwrap(), vec!["hi"]);
}

#[test]
fn empty_text_has_no_chunks() {
    assert_eq!(chunk_text("", 10, 3).unwrap(), Vec::<String>::new());
}

#[test]
fn zero_target_size_is_config_error() {
    assert_eq!(chunk_text("abc", 0, 0), Err(Error::Config));
}

#[test]
fn overlap_at_least_target_is_config_error() {
    assert_eq!(chunk_text("abc", 5, 5), Err(Error::Config));
    assert_eq!(chunk_text("abc", 5, 7), Err(Error::Config));
}

#[test]
fn chunking_counts_characters_not_bytes() {
    // four two-byte characters: one span of four characters
    let chunks = chunk_text("éééé", 4, 1).unwrap();
    assert_eq!(chunks, vec!["éééé"]);
    let chunks = chunk_text("ééééé", 4, 1).unwrap();
    assert_eq!(chunks, vec!["éééé", "éé"]);
}

#[test]
fn store_checks_row_count_and_shape() {
    // "abcdef" with target 3, overlap 1 gives spans at 0, 2, 4: "abc", "cde", "ef"
    let rows = vec![vec![1, 2], vec![3, 4], vec![5, 6]];
    let db = VecDB::new("abcdef", 3, 1, rows);
    assert!(db.is_ok());

    let too_few = vec![vec![1, 2], vec![3, 4]];
    assert!(matches!(VecDB::new("abcdef", 3, 1, too_few), Err(Error::Embedding)));

    let ragged = vec![vec![1, 2], vec![3], vec![5, 6]];
    assert!(matches!(VecDB::new("abcdef", 3, 1, ragged), Err(Error::Embedding)));

    let out_of_range = vec![vec![1, COMPONENT_BOUND + 1], vec![3, 4], vec![5, 6]];
    assert!(matches!(VecDB::new("abcdef", 3, 1, out_of_range), Err(Error::Embedding)));

    let too_wide = vec![vec![0i64; MAX_DIM + 1], vec![0i64; MAX_DIM + 1], vec![0i64; MAX_DIM + 1]];
    assert!(matches!(VecDB::new("abcdef", 3, 1, too_wide), Err(Error::Embedding)));

    assert!(matches!(VecDB::new("abcdef", 0, 0, vec![]), Err(Error::Config)));
}
