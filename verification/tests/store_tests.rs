use icm::memoir::{Concept, ConceptLink, Label, Memoir, Relation};
use icm::memory::{clone_memory, Importance, Memory};
use icm::store::Store;
use icm::IcmError;

fn test_store() -> Store {
    Store::in_memory().unwrap()
}

fn make_memory(topic: &str, summary: &str) -> Memory {
    Memory::new(topic.into(), summary.into(), Importance::Medium)
}

#[test]
fn test_store_and_get() {
    let mut store = test_store();
    let mem = make_memory("test", "hello world");
    let id = mem.id.clone();

    store.store(mem).unwrap();
    let retrieved = store.get(&id).unwrap().unwrap();
    assert_eq!(retrieved.summary, "hello world");
    assert_eq!(retrieved.topic, "test");
}

#[test]
fn test_get_not_found() {
    let store = test_store();
    let result = store.get("nonexistent").unwrap();
    assert!(result.is_none());
}

#[test]
fn test_update() {
    let mut store = test_store();
    let mut mem = make_memory("test", "original");
    let id = mem.id.clone();
    store.store(clone_memory(&mem)).unwrap();

    mem.summary = "updated".into();
    store.update(&mem).unwrap();

    let retrieved = store.get(&id).unwrap().unwrap();
    assert_eq!(retrieved.summary, "updated");
}

#[test]
fn test_delete() {
    let mut store = test_store();
    let mem = make_memory("test", "to delete");
    let id = mem.id.clone();
    store.store(mem).unwrap();

    store.delete(&id).unwrap();
    assert!(store.get(&id).unwrap().is_none());
}

#[test]
fn test_delete_not_found() {
    let mut store = test_store();
    let result = store.delete("nonexistent");
    assert!(matches!(result, Err(IcmError::NotFound(_))));
}

#[test]
fn test_search_fts() {
    let mut store = test_store();
    store
        .store(make_memory(
            "rust",
            "Rust is a systems programming language",
        ))
        .unwrap();
    store
        .store(make_memory("python", "Python is great for scripting"))
        .unwrap();

    let results = store.search_fts("rust programming", 10).unwrap();
    assert_eq!(results.len(), 1);
    assert_eq!(results[0].topic, "rust");
}

#[test]
fn test_search_by_keywords() {
    let mut store = test_store();
    let mut mem = make_memory("test", "database optimization tips");
    mem.keywords = vec!["database".into(), "optimization".into()];
    store.store(mem).unwrap();

    let results = store
        .search_by_keywords(&vec!["database".to_string()], 10)
        .unwrap();
    assert_eq!(results.len(), 1);
}

#[test]
fn test_list_topics() {
    let mut store = test_store();
    store.store(make_memory("alpha", "first")).unwrap();
    store.store(make_memory("alpha", "second")).unwrap();
    store.store(make_memory("beta", "third")).unwrap();

    let topics = store.list_topics().unwrap();
    assert_eq!(topics.len(), 2);
    assert!(topics.contains(&("alpha".into(), 2)));
    assert!(topics.contains(&("beta".into(), 1)));
}

#[test]
fn test_apply_decay() {
    let mut store = test_store();
    store.store(make_memory("test", "decayable")).unwrap();

    let mut critical = make_memory("test", "critical memory");
    critical.importance = Importance::Critical;
    store.store(critical).unwrap();

    let affected = store.apply_decay(900_000).unwrap();
    assert_eq!(affected, 1); // only the non-critical one
}

#[test]
fn test_prune() {
    let mut store = test_store();
    let mut low = make_memory("test", "low weight");
    low.weight = 50_000;
    store.store(low).unwrap();

    store.store(make_memory("test", "normal weight")).unwrap();

    let pruned = store.prune(100_000).unwrap();
    assert_eq!(pruned, 1);
    assert_eq!(store.count().unwrap(), 1);
}

#[test]
fn test_stats() {
    let mut store = test_store();
    store.store(make_memory("a", "first")).unwrap();
    store.store(make_memory("b", "second")).unwrap();

    let stats = store.stats().unwrap();
    assert_eq!(stats.total_memories, 2);
    assert_eq!(stats.total_topics, 2);
    assert!(stats.avg_weight > 0);
    assert!(stats.oldest_memory.is_some());
    assert!(stats.newest_memory.is_some());
}

#[test]
fn test_update_access() {
    let mut store = test_store();
    let mem = make_memory("test", "access test");
    let id = mem.id.clone();
    store.store(mem).unwrap();

    store.update_access(&id).unwrap();
    let retrieved = store.get(&id).unwrap().unwrap();
    assert_eq!(retrieved.access_count, 1);
}

#[test]
fn test_consolidate_topic() {
    let mut store = test_store();
    store.store(make_memory("topic-a", "entry 1")).unwrap();
    store.store(make_memory("topic-a", "entry 2")).unwrap();
    store.store(make_memory("topic-b", "other")).unwrap();

    let consolidated = make_memory("topic-a", "consolidated summary");
    store.consolidate_topic("topic-a", consolidated).unwrap();

    let memories = store.get_by_topic("topic-a").unwrap();
    assert_eq!(memories.len(), 1);
    assert_eq!(memories[0].summary, "consolidated summary");

    // topic-b should be untouched
    assert_eq!(store.get_by_topic("topic-b").unwrap().len(), 1);
}

#[test]
fn test_fresh_memory_defaults() {
    let mem = Memory::new("t".into(), "s".into(), Importance::Low);
    assert_eq!(mem.id.len(), 26);
    assert_eq!(mem.weight, 1_000_000);
    assert_eq!(mem.access_count, 0);
    assert!(mem.keywords.is_empty());
    assert!(mem.raw_excerpt.is_none());
}

#[test]
fn test_store_duplicate_id_rejected() {
    let mut store = test_store();
    let mem = make_memory("t", "first copy");
    let dup = clone_memory(&mem);
    store.store(mem).unwrap();
    let result = store.store(dup);
    assert!(matches!(result, Err(IcmError::Database(_))));
}

#[test]
fn test_decay_factor_applied_exactly() {
    let mut store = test_store();
    let mem = make_memory("t", "full weight");
    let id = mem.id.clone();
    store.store(mem).unwrap();
    store.apply_decay(950_000).unwrap();
    let after = store.get(&id).unwrap().unwrap();
    assert_eq!(after.weight, 950_000);
    store.apply_decay(950_000).unwrap();
    let after2 = store.get(&id).unwrap().unwrap();
    assert_eq!(after2.weight, 902_500);
}

// A doubled decay never raises a weight (sampled check of the law).
#[test]
fn test_decay_never_raises_weight() {
    let mut store = test_store();
    let mut mem = make_memory("t", "odd weight");
    mem.weight = 333_333;
    let id = mem.id.clone();
    store.store(mem).unwrap();
    let mut last = 333_333u64;
    for _ in 0..5 {
        store.apply_decay(999_999).unwrap();
        let now = store.get(&id).unwrap().unwrap().weight;
        assert!(now <= last);
        last = now;
    }
}

#[test]
fn test_fts_results_contain_every_token() {
    let mut store = test_store();
    store
        .store(make_memory("search", "alpha beta gamma notes"))
        .unwrap();
    store.store(make_memory("other", "alpha only here")).unwrap();

    let results = store.search_fts("Alpha beta", 10).unwrap();
    assert_eq!(results.len(), 1);
    let m = &results[0];
    let hay = format!("{} {}", m.topic, m.summary).to_lowercase();
    assert!(hay.contains("alpha"));
    assert!(hay.contains("beta"));
}

#[test]
fn test_keyword_search_is_case_insensitive() {
    let mut store = test_store();
    store
        .store(make_memory("Docs", "Setup NOTES for the cluster"))
        .unwrap();
    let results = store
        .search_by_keywords(&vec!["notes".to_string()], 10)
        .unwrap();
    assert_eq!(results.len(), 1);
}

#[test]
fn test_search_results_ordered_by_weight() {
    let mut store = test_store();
    let mut light = make_memory("w", "shared token light");
    light.weight = 100_000;
    let mut heavy = make_memory("w", "shared token heavy");
    heavy.weight = 900_000;
    store.store(light).unwrap();
    store.store(heavy).unwrap();

    let results = store.search_fts("shared", 10).unwrap();
    assert_eq!(results.len(), 2);
    assert!(results[0].weight >= results[1].weight);
    assert_eq!(results[0].summary, "shared token heavy");
}

#[test]
fn test_empty_keyword_list_returns_nothing() {
    let mut store = test_store();
    store.store(make_memory("a", "something")).unwrap();
    let results = store.search_by_keywords(&Vec::new(), 10).unwrap();
    assert!(results.is_empty());
}

// Quieter coverage for types kept alongside the store.
#[test]
fn test_importance_parse_and_name() {
    assert_eq!(Importance::parse("CRITICAL"), Some(Importance::Critical));
    assert_eq!(Importance::parse("medium"), Some(Importance::Medium));
    assert_eq!(Importance::parse("bogus"), None);
    assert_eq!(Importance::High.as_str(), "high");
}

#[test]
fn test_label_parse_forms() {
    let l = Label::parse("domain:arch");
    assert_eq!(l.namespace, "domain");
    assert_eq!(l.value, "arch");
    let plain = Label::parse("standalone");
    assert_eq!(plain.namespace, "tag");
    assert_eq!(plain.value, "standalone");
    let built = Label::new("kind", "thing");
    assert_eq!(built.render(), "kind:thing");
}

#[test]
fn test_relation_parse_forms() {
    assert_eq!(Relation::parse("depends_on"), Some(Relation::DependsOn));
    assert_eq!(Relation::parse("DependsOn"), Some(Relation::DependsOn));
    assert_eq!(Relation::parse("nope"), None);
    assert_eq!(Relation::SupersededBy.as_str(), "superseded_by");
}

#[test]
fn test_fresh_graph_values() {
    let m = Memoir::new("m".into(), "d".into());
    assert_eq!(m.consolidation_threshold, 50);
    let c = Concept::new(m.id.clone(), "c".into(), "def".into());
    assert_eq!(c.revision, 1);
    assert_eq!(c.confidence, 500);
    let l = ConceptLink::new("a".into(), "b".into(), Relation::PartOf);
    assert_eq!(l.weight, 1_000_000);
}

#[test]
fn test_update_preserves_created_at_and_embedding() {
    let mut store = test_store();
    let mut mem = make_memory("test", "original");
    let id = mem.id.clone();
    mem.embedding = Some(vec![1, 2, 3]);
    let original_created = mem.created_at;
    store.store(clone_memory(&mem)).unwrap();

    mem.summary = "updated".into();
    mem.created_at = original_created + 999_999;
    mem.embedding = Some(vec![9, 9, 9]);
    store.update(&mem).unwrap();

    let retrieved = store.get(&id).unwrap().unwrap();
    assert_eq!(retrieved.summary, "updated");
    assert_eq!(retrieved.created_at, original_created);
    assert_eq!(retrieved.embedding, Some(vec![1, 2, 3]));
}

#[test]
fn test_search_all_concepts_fts_crosses_memoirs() {
    let mut store = test_store();
    let m1 = store
        .create_memoir(Memoir::new("alpha".into(), "".into()))
        .unwrap();
    let m2 = store
        .create_memoir(Memoir::new("beta".into(), "".into()))
        .unwrap();
    store
        .add_concept(Concept::new(m1.clone(), "sqlite".into(), "embedded database".into()))
        .unwrap();
    store
        .add_concept(Concept::new(m2.clone(), "postgres".into(), "client-server database".into()))
        .unwrap();
    let results = store.search_all_concepts_fts("database", 10).unwrap();
    assert_eq!(results.len(), 2);
    let results_one = store.search_all_concepts_fts("embedded", 10).unwrap();
    assert_eq!(results_one.len(), 1);
    assert_eq!(results_one[0].name, "sqlite");
    let blank = store.search_all_concepts_fts("   ", 10).unwrap();
    assert_eq!(blank.len(), 0);
}

#[test]
fn test_search_by_label_with_text_filter() {
    let mut store = test_store();
    let m1 = store
        .create_memoir(Memoir::new("langs".into(), "".into()))
        .unwrap();
    let mut c1 = Concept::new(m1.clone(), "rust".into(), "systems language".into());
    c1.labels = vec![Label::new("kind", "language")];
    let mut c2 = Concept::new(m1.clone(), "python".into(), "scripting language".into());
    c2.labels = vec![Label::new("kind", "language")];
    store.add_concept(c1).unwrap();
    store.add_concept(c2).unwrap();
    let label = Label::new("kind", "language");
    let all = store
        .search_concepts_by_label_text(&m1, &label, "", 10)
        .unwrap();
    assert_eq!(all.len(), 2);
    let filtered = store
        .search_concepts_by_label_text(&m1, &label, "SCRIPTING", 10)
        .unwrap();
    assert_eq!(filtered.len(), 1);
    assert_eq!(filtered[0].name, "python");
}
