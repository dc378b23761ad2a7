use icm::memory::{Importance, Memory};
use icm::store::Store;

fn mem_with_embedding(topic: &str, summary: &str, e: Vec<i64>) -> Memory {
    let mut m = Memory::new(topic.into(), summary.into(), Importance::Medium);
    m.embedding = Some(e);
    m
}

#[test]
fn test_embedding_search_orders_by_dot_product() {
    let mut store = Store::in_memory().unwrap();
    store
        .store(mem_with_embedding("a", "aligned", vec![1000, 0, 0]))
        .unwrap();
    store
        .store(mem_with_embedding("b", "orthogonal", vec![0, 1000, 0]))
        .unwrap();
    store
        .store(mem_with_embedding("c", "opposed", vec![-1000, 0, 0]))
        .unwrap();
    // a record with a different dimension is not a candidate
    store
        .store(mem_with_embedding("d", "short vector", vec![1000]))
        .unwrap();
    // and one with no embedding at all is skipped
    store
        .store(Memory::new("e".into(), "plain".into(), Importance::Medium))
        .unwrap();

    let query = vec![1000i64, 0, 0];
    let results = store.search_by_embedding(&query, 10).unwrap();
    assert_eq!(results.len(), 3);
    assert_eq!(results[0].0.topic, "a");
    assert_eq!(results[0].1, 1_000_000);
    assert_eq!(results[1].0.topic, "b");
    assert_eq!(results[1].1, 0);
    assert_eq!(results[2].0.topic, "c");
    assert_eq!(results[2].1, -1_000_000);

    let top_one = store.search_by_embedding(&query, 1).unwrap();
    assert_eq!(top_one.len(), 1);
    assert_eq!(top_one[0].0.topic, "a");
}

// A memory found by both modalities outranks memories found by one.
#[test]
fn test_hybrid_prefers_presence_in_both_modalities() {
    let mut store = Store::in_memory().unwrap();
    // matches the text query and sits close to the query vector
    store
        .store(mem_with_embedding(
            "both",
            "shared theme in text",
            vec![900, 0],
        ))
        .unwrap();
    // heavier, matches the text query only (its embedding has another
    // dimension, so the vector pass skips it)
    let mut lex_only = mem_with_embedding("lex", "shared theme elsewhere", vec![-900]);
    lex_only.weight = 2_000_000;
    store.store(lex_only).unwrap();
    // close vector but no matching text
    store
        .store(mem_with_embedding("vec", "unrelated words", vec![950, 0]))
        .unwrap();

    let query_vec = vec![1000i64, 0];
    let results = store.search_hybrid("shared theme", &query_vec, 3).unwrap();
    assert_eq!(results.len(), 3);
    assert_eq!(results[0].0.topic, "both");
    assert_eq!(results[0].1, 2);
    // the two single-modality entries follow, heavier first
    assert_eq!(results[1].0.topic, "lex");
    assert_eq!(results[1].1, 1);
    assert_eq!(results[2].0.topic, "vec");
    assert_eq!(results[2].1, 1);
}

#[test]
fn test_hybrid_respects_limit_and_dedups() {
    let mut store = Store::in_memory().unwrap();
    for i in 0..5 {
        store
            .store(mem_with_embedding(
                "t",
                &format!("common token entry {i}"),
                vec![1000 - i, 0],
            ))
            .unwrap();
    }
    let results = store.search_hybrid("common", &vec![1000i64, 0], 2).unwrap();
    assert_eq!(results.len(), 2);
    assert_ne!(results[0].0.id, results[1].0.id);
    // each entry here is found by both passes
    assert_eq!(results[0].1, 2);
    assert_eq!(results[1].1, 2);
}

struct ToyEmbedder;

impl icm::embedder::Embedder for ToyEmbedder {
    fn embed(&self, text: &str) -> icm::errors::IcmResult<Vec<i64>> {
        // a tiny deterministic two-dimensional embedding
        let n = text.len() as i64;
        Ok(vec![1000 - (n % 7), n % 5])
    }

    fn embed_batch(&self, texts: &Vec<String>) -> icm::errors::IcmResult<Vec<Vec<i64>>> {
        texts.iter().map(|t| self.embed(t)).collect()
    }

    fn dimensions(&self) -> usize {
        2
    }
}

struct BrokenEmbedder;

impl icm::embedder::Embedder for BrokenEmbedder {
    fn embed(&self, _text: &str) -> icm::errors::IcmResult<Vec<i64>> {
        Err(icm::IcmError::Embedding("model unavailable".to_string()))
    }

    fn embed_batch(&self, _texts: &Vec<String>) -> icm::errors::IcmResult<Vec<Vec<i64>>> {
        Err(icm::IcmError::Embedding("model unavailable".to_string()))
    }

    fn dimensions(&self) -> usize {
        2
    }
}

#[test]
fn test_hybrid_recall_through_capability() {
    let mut store = Store::in_memory().unwrap();
    store
        .store(mem_with_embedding("t", "findable entry", vec![995, 2]))
        .unwrap();

    let hits = icm::vector::hybrid_recall(&store, &ToyEmbedder, "findable", 5)
        .unwrap()
        .expect("embedding succeeded");
    assert_eq!(hits.len(), 1);
    assert_eq!(hits[0].0.summary, "findable entry");

    // a failing backend is non-fatal: the caller learns to fall back
    let fallback = icm::vector::hybrid_recall(&store, &BrokenEmbedder, "findable", 5).unwrap();
    assert!(fallback.is_none());
}
