use mini_rag::app::{render_percent, select_span, Agent, CodebaseAgent, RAGBase};
use mini_rag::errors::Error;
use mini_rag::textutil::u64_to_string;

#[test]
fn decimal_rendering_is_exact() {
    assert_eq!(u64_to_string(0), "0");
    assert_eq!(u64_to_string(7), "7");
    assert_eq!(u64_to_string(42), "42");
    assert_eq!(u64_to_string(1000000), "1000000");
}

#[test]
fn percent_rendering_truncates_to_one_decimal() {
    // a score carries the scale 1000 * 1000; one tenth of a percent is
    // one thousand score units
    assert_eq!(render_percent(0), "0.0");
    assert_eq!(render_percent(500000), "50.0");
    assert_eq!(render_percent(123456), "12.3");
    assert_eq!(render_percent(-123456), "-12.3");
    assert_eq!(render_percent(999), "0.0");
    assert_eq!(render_percent(1000000), "100.0");
}

#[test]
fn query_renders_ranked_context() {
    // one chunk "hello", one-dimensional embeddings: score 500 * 1000
    let rag = RAGBase::new("hello", 10, 2, vec![vec![500]]).unwrap();
    let ctx = rag.query(&vec![1000]).unwrap();
    assert_eq!(ctx, "[50.0% match]\nhello\n\n");
}

#[test]
fn query_concatenates_blocks_in_ranked_order() {
    // chunks "abc" and "bcd" (target 3, overlap 2 over "abcd")
    let rag = RAGBase::new("abcd", 3, 2, vec![vec![100], vec![900]]).unwrap();
    let ctx = rag.query(&vec![1000]).unwrap();
    assert_eq!(ctx, "[90.0% match]\nbcd\n\n[10.0% match]\nabc\n\n");
}

#[test]
fn query_with_negative_score_renders_signed_percent() {
    let rag = RAGBase::new("hello", 10, 2, vec![vec![-500]]).unwrap();
    let ctx = rag.query(&vec![1000]).unwrap();
    assert_eq!(ctx, "[-50.0% match]\nhello\n\n");
}

#[test]
fn query_errors_propagate_unchanged() {
    let rag = RAGBase::new("hello", 10, 2, vec![vec![500]]).unwrap();
    assert!(matches!(rag.query(&vec![1, 2]), Err(Error::Embedding)));
    let empty = RAGBase::new("", 10, 2, vec![]).unwrap();
    assert!(matches!(empty.query(&vec![]), Err(Error::EmptyStore)));
}

#[test]
fn codebase_agent_answers_from_its_pipeline() {
    // the codebase corpus renders to the text "Test": one chunk, one row
    let agent = CodebaseAgent::new("some/repo", vec![vec![400]]).unwrap();
    assert_eq!(agent.execute(&vec![1000]).unwrap(), "[40.0% match]\nTest\n\n");
    // and its errors propagate like any pipeline's
    assert!(matches!(agent.execute(&vec![1, 2]), Err(Error::Embedding)));
    let wrapped = Agent::Codebase(CodebaseAgent::new("some/repo", vec![vec![400]]).unwrap());
    assert_eq!(wrapped.execute(&vec![1000]).unwrap(), "[40.0% match]\nTest\n\n");
}

#[test]
fn span_selection_picks_last_argmax_of_each_row() {
    assert_eq!(select_span(&vec![1, 5, 3], &vec![2, 2, 9]), Some((1, 2)));
    // equal maxima: the last one wins
    assert_eq!(select_span(&vec![5, 5], &vec![1, 2]), Some((1, 1)));
}

#[test]
fn inverted_span_falls_back_to_none() {
    assert_eq!(select_span(&vec![0, 0, 9], &vec![9, 0, 0]), None);
    assert_eq!(select_span(&vec![], &vec![1]), None);
    assert_eq!(select_span(&vec![1], &vec![]), None);
}
