use icm::config::Config;
use icm::IcmError;
use icm::memoir::{Concept, ConceptLink, Memoir, Relation};
use icm::memory::{Importance, Memory};
use icm::store::Store;

fn make_memory(topic: &str, summary: &str) -> Memory {
    Memory::new(topic.into(), summary.into(), Importance::Medium)
}

// Seed alpha twice and beta once; list, consolidate alpha, and check
// that beta is untouched.
#[test]
fn test_topic_lifecycle_end_to_end() {
    let mut store = Store::in_memory().unwrap();
    store.store(make_memory("alpha", "first")).unwrap();
    store.store(make_memory("alpha", "second")).unwrap();
    store.store(make_memory("beta", "third")).unwrap();

    let topics = store.list_topics().unwrap();
    assert_eq!(topics, vec![("alpha".to_string(), 2), ("beta".to_string(), 1)]);

    store
        .consolidate_topic("alpha", make_memory("alpha", "merged"))
        .unwrap();
    let alpha = store.get_by_topic("alpha").unwrap();
    assert_eq!(alpha.len(), 1);
    assert_eq!(alpha[0].summary, "merged");
    let beta = store.get_by_topic("beta").unwrap();
    assert_eq!(beta.len(), 1);
    assert_eq!(beta[0].summary, "third");
}

// Prune at 0.1: the light medium memory goes, the heavy one and the
// critical one stay.
#[test]
fn test_prune_respects_weight_and_importance() {
    let mut store = Store::in_memory().unwrap();
    let mut light = make_memory("t", "light");
    light.weight = 50_000;
    let light_id = light.id.clone();
    store.store(light).unwrap();

    let mut heavy = make_memory("t", "heavy");
    heavy.weight = 1_000_000;
    let heavy_id = heavy.id.clone();
    store.store(heavy).unwrap();

    let mut critical = make_memory("t", "tiny but critical");
    critical.weight = 10_000;
    critical.importance = Importance::Critical;
    let critical_id = critical.id.clone();
    store.store(critical).unwrap();

    let removed = store.prune(100_000).unwrap();
    assert_eq!(removed, 1);
    assert!(store.get(&light_id).unwrap().is_none());
    assert!(store.get(&heavy_id).unwrap().is_some());
    assert!(store.get(&critical_id).unwrap().is_some());
}

// Critical memories survive any sequence of decay and prune calls.
#[test]
fn test_critical_memory_is_never_forgotten() {
    let mut store = Store::in_memory().unwrap();
    let mut critical = make_memory("core", "never forget");
    critical.importance = Importance::Critical;
    let id = critical.id.clone();
    store.store(critical).unwrap();

    for _ in 0..10 {
        store.apply_decay(500_000).unwrap();
        store.prune(999_999).unwrap();
    }
    let survivor = store.get(&id).unwrap().unwrap();
    assert_eq!(survivor.summary, "never forget");
    assert_eq!(survivor.weight, 1_000_000);
}

// Chain a -> b -> c -> d and widen the neighborhood one hop at a time.
#[test]
fn test_neighborhood_grows_with_depth() {
    let mut store = Store::in_memory().unwrap();
    let m_id = store
        .create_memoir(Memoir::new("proj".into(), "".into()))
        .unwrap();
    let mut ids = Vec::new();
    for name in ["a", "b", "c", "d"] {
        ids.push(
            store
                .add_concept(Concept::new(m_id.clone(), name.into(), "node".into()))
                .unwrap(),
        );
    }
    for w in ids.windows(2) {
        store
            .add_link(ConceptLink::new(
                w[0].clone(),
                w[1].clone(),
                Relation::DependsOn,
            ))
            .unwrap();
    }

    let names_at = |store: &Store, depth: usize| -> Vec<String> {
        let (cs, _) = store.get_neighborhood(&ids[0], depth).unwrap();
        let mut names: Vec<String> = cs.into_iter().map(|c| c.name).collect();
        names.sort();
        names
    };
    assert_eq!(names_at(&store, 1), vec!["a", "b"]);
    assert_eq!(names_at(&store, 2), vec!["a", "b", "c"]);
    assert_eq!(names_at(&store, 3), vec!["a", "b", "c", "d"]);
}

// Every returned link joins two returned concepts, and the root is
// always present.
#[test]
fn test_neighborhood_links_are_closed_over_nodes() {
    let mut store = Store::in_memory().unwrap();
    let m_id = store
        .create_memoir(Memoir::new("g".into(), "".into()))
        .unwrap();
    let a = store
        .add_concept(Concept::new(m_id.clone(), "a".into(), "n".into()))
        .unwrap();
    let b = store
        .add_concept(Concept::new(m_id.clone(), "b".into(), "n".into()))
        .unwrap();
    let c = store
        .add_concept(Concept::new(m_id.clone(), "c".into(), "n".into()))
        .unwrap();
    store
        .add_link(ConceptLink::new(a.clone(), b.clone(), Relation::DependsOn))
        .unwrap();
    store
        .add_link(ConceptLink::new(c.clone(), a.clone(), Relation::CausedBy))
        .unwrap();
    store
        .add_link(ConceptLink::new(b.clone(), c.clone(), Relation::RelatedTo))
        .unwrap();

    let (cs, ls) = store.get_neighborhood(&a, 1).unwrap();
    assert!(cs.iter().any(|x| x.id == a));
    let idset: Vec<&str> = cs.iter().map(|x| x.id.as_str()).collect();
    for l in &ls {
        assert!(idset.contains(&l.source_id.as_str()));
        assert!(idset.contains(&l.target_id.as_str()));
    }
    // absent roots are reported as missing
    assert!(store.get_neighborhood("nope", 2).is_err());
}

// Refine twice: revision 3, confidence 0.7, sources deduplicated in
// order.
#[test]
fn test_refinement_accumulates() {
    let mut store = Store::in_memory().unwrap();
    let m_id = store
        .create_memoir(Memoir::new("proj".into(), "".into()))
        .unwrap();
    let c_id = store
        .add_concept(Concept::new(m_id, "es".into(), "v1".into()))
        .unwrap();

    store
        .refine_concept(&c_id, "v2", &vec!["m1".to_string()])
        .unwrap();
    store
        .refine_concept(&c_id, "v3", &vec!["m1".to_string(), "m2".to_string()])
        .unwrap();

    let c = store.get_concept(&c_id).unwrap().unwrap();
    assert_eq!(c.revision, 3);
    assert_eq!(c.confidence, 700);
    assert_eq!(c.definition, "v3");
    assert_eq!(c.source_memory_ids, vec!["m1".to_string(), "m2".to_string()]);
}

// Confidence never climbs past 1.0, however often a concept is refined.
#[test]
fn test_confidence_clamps_at_one() {
    let mut store = Store::in_memory().unwrap();
    let m_id = store
        .create_memoir(Memoir::new("proj".into(), "".into()))
        .unwrap();
    let c_id = store
        .add_concept(Concept::new(m_id, "x".into(), "v0".into()))
        .unwrap();
    for i in 0..8 {
        store
            .refine_concept(&c_id, &format!("v{i}"), &Vec::new())
            .unwrap();
    }
    let c = store.get_concept(&c_id).unwrap().unwrap();
    assert_eq!(c.confidence, 1000);
    assert_eq!(c.revision, 9);
}

#[test]
fn test_default_config() {
    let config = Config::default();
    assert!(config.extraction.enabled);
    assert_eq!(config.memory.decay_rate, 950_000);
    assert_eq!(config.recall.limit, 15);
    assert_eq!(config.memory.default_importance, "medium");
    assert_eq!(config.mcp.transport, "stdio");
    assert!(config.store.path.is_none());
}

#[test]
fn test_weight_formatting() {
    assert_eq!(icm::tools::fmt_ppm(1_000_000), "1.000");
    assert_eq!(icm::tools::fmt_ppm(950_000), "0.950");
    assert_eq!(icm::tools::fmt_ppm(12_345), "0.012");
    assert_eq!(icm::tools::fmt_confidence(700), "0.70");
    assert_eq!(icm::tools::fmt_confidence(1000), "1.00");
}

#[test]
fn test_text_helpers() {
    assert_eq!(icm::text::u64_to_string(0), "0");
    assert_eq!(icm::text::u64_to_string(90210), "90210");
    assert_eq!(icm::text::i64_to_string(-17), "-17");
    assert_eq!(icm::text::truncate("abcdefgh", 5), "ab...");
    assert_eq!(icm::text::truncate("abc", 5), "abc");
    assert_eq!(icm::text::truncate_words("one\ntwo", 100), "one two");
    assert!(icm::text::str_contains("haystack", "sta"));
    assert!(!icm::text::str_contains("haystack", "stax"));
}

#[test]
fn test_error_descriptions() {
    assert_eq!(
        IcmError::NotFound("abc".to_string()).describe(),
        "not found: abc"
    );
    assert_eq!(
        IcmError::Database("boom".to_string()).describe(),
        "database error: boom"
    );
    assert_eq!(
        IcmError::Serialization("bad json".to_string()).describe(),
        "serialization error: bad json"
    );
    assert_eq!(
        IcmError::Config("bad toml".to_string()).describe(),
        "config error: bad toml"
    );
    assert_eq!(
        IcmError::Embedding("no model".to_string()).describe(),
        "embedding error: no model"
    );
}

// The statistics report renders real calendar dates for the creation
// instants, so a clock rendering that echoed its input would fail here.
#[test]
fn test_stats_report_renders_dates() {
    let mut store = Store::in_memory().unwrap();
    store.store(make_memory("t", "dated")).unwrap();
    let r = icm::tools::call_tool(
        &mut store,
        "icm_stats",
        &icm::json::JsonValue::Obj(Vec::new()),
    );
    assert!(!r.is_error);
    let text = &r.content[0].text;
    assert!(text.contains("Oldest: 20"));
    assert!(text.contains("Newest: 20"));
}

#[test]
fn test_update_missing_memoir_not_found() {
    let mut store = Store::in_memory().unwrap();
    let ghostly = Memoir::new("nowhere".into(), "".into());
    assert!(matches!(
        store.update_memoir(&ghostly),
        Err(icm::IcmError::NotFound(_))
    ));
    assert!(matches!(
        store.delete_link("no-link"),
        Err(icm::IcmError::NotFound(_))
    ));
}

#[test]
fn test_update_memoir_rewrites_fields() {
    let mut store = Store::in_memory().unwrap();
    let m = Memoir::new("old-name".into(), "before".into());
    let id = store.create_memoir(m).unwrap();
    let mut changed = store.get_memoir(&id).unwrap().unwrap();
    changed.name = "new-name".into();
    changed.description = "after".into();
    store.update_memoir(&changed).unwrap();
    let fetched = store.get_memoir_by_name("new-name").unwrap().unwrap();
    assert_eq!(fetched.description, "after");
    assert!(store.get_memoir_by_name("old-name").unwrap().is_none());
}
