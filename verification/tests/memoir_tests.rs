use icm::memoir::{Concept, ConceptLink, Label, Memoir, Relation};
use icm::store::Store;

fn test_store() -> Store {
    Store::in_memory().unwrap()
}

fn make_memoir(name: &str) -> Memoir {
    Memoir::new(name.into(), format!("Description for {name}"))
}

fn make_concept(memoir_id: &str, name: &str, definition: &str) -> Concept {
    Concept::new(memoir_id.into(), name.into(), definition.into())
}

#[test]
fn test_memoir_crud() {
    let mut store = test_store();
    let m = make_memoir("my-project");
    let id = store.create_memoir(m).unwrap();

    let retrieved = store.get_memoir(&id).unwrap().unwrap();
    assert_eq!(retrieved.name, "my-project");

    let by_name = store.get_memoir_by_name("my-project").unwrap().unwrap();
    assert_eq!(by_name.id, id);

    store.delete_memoir(&id).unwrap();
    assert!(store.get_memoir(&id).unwrap().is_none());
}

#[test]
fn test_memoir_unique_name() {
    let mut store = test_store();
    store.create_memoir(make_memoir("dup")).unwrap();
    let result = store.create_memoir(make_memoir("dup"));
    assert!(result.is_err());
}

#[test]
fn test_list_memoirs() {
    let mut store = test_store();
    store.create_memoir(make_memoir("beta")).unwrap();
    store.create_memoir(make_memoir("alpha")).unwrap();

    let list = store.list_memoirs().unwrap();
    assert_eq!(list.len(), 2);
    assert_eq!(list[0].name, "alpha"); // sorted by name
    assert_eq!(list[1].name, "beta");
}

#[test]
fn test_concept_crud() {
    let mut store = test_store();
    let m_id = store.create_memoir(make_memoir("proj")).unwrap();

    let mut c = make_concept(&m_id, "event-sourcing", "Events stored in a log");
    c.labels = vec![Label::new("domain", "arch"), Label::new("type", "decision")];
    let c_id = store.add_concept(c).unwrap();

    let retrieved = store.get_concept(&c_id).unwrap().unwrap();
    assert_eq!(retrieved.name, "event-sourcing");
    assert_eq!(retrieved.labels.len(), 2);

    let by_name = store
        .get_concept_by_name(&m_id, "event-sourcing")
        .unwrap()
        .unwrap();
    assert_eq!(by_name.id, c_id);

    store.delete_concept(&c_id).unwrap();
    assert!(store.get_concept(&c_id).unwrap().is_none());
}

#[test]
fn test_concept_unique_within_memoir() {
    let mut store = test_store();
    let m_id = store.create_memoir(make_memoir("proj")).unwrap();

    store
        .add_concept(make_concept(&m_id, "dup", "first"))
        .unwrap();
    let result = store.add_concept(make_concept(&m_id, "dup", "second"));
    assert!(result.is_err());
}

#[test]
fn test_concept_same_name_different_memoirs() {
    let mut store = test_store();
    let m1 = store.create_memoir(make_memoir("proj1")).unwrap();
    let m2 = store.create_memoir(make_memoir("proj2")).unwrap();

    store
        .add_concept(make_concept(&m1, "sqlite", "def1"))
        .unwrap();
    store
        .add_concept(make_concept(&m2, "sqlite", "def2"))
        .unwrap();

    let c1 = store.get_concept_by_name(&m1, "sqlite").unwrap().unwrap();
    let c2 = store.get_concept_by_name(&m2, "sqlite").unwrap().unwrap();
    assert_ne!(c1.id, c2.id);
}

#[test]
fn test_refine_concept() {
    let mut store = test_store();
    let m_id = store.create_memoir(make_memoir("proj")).unwrap();
    let c_id = store
        .add_concept(make_concept(&m_id, "es", "Events v1"))
        .unwrap();

    let orig = store.get_concept(&c_id).unwrap().unwrap();
    assert_eq!(orig.revision, 1);
    let orig_confidence = orig.confidence;

    store
        .refine_concept(&c_id, "Events v2 with snapshots", &vec!["mem-1".to_string()])
        .unwrap();

    let refined = store.get_concept(&c_id).unwrap().unwrap();
    assert_eq!(refined.revision, 2);
    assert_eq!(refined.definition, "Events v2 with snapshots");
    assert!(refined.confidence > orig_confidence);
    assert!(refined.source_memory_ids.contains(&"mem-1".to_string()));
}

#[test]
fn test_concept_links() {
    let mut store = test_store();
    let m_id = store.create_memoir(make_memoir("proj")).unwrap();
    let c1_id = store
        .add_concept(make_concept(&m_id, "event-sourcing", "ES pattern"))
        .unwrap();
    let c2_id = store
        .add_concept(make_concept(&m_id, "sqlite", "SQLite storage"))
        .unwrap();

    let link = ConceptLink::new(c1_id.clone(), c2_id.clone(), Relation::DependsOn);
    let link_id = store.add_link(link).unwrap();

    let from = store.get_links_from(&c1_id).unwrap();
    assert_eq!(from.len(), 1);
    assert_eq!(from[0].target_id, c2_id);
    assert_eq!(from[0].relation, Relation::DependsOn);

    let to = store.get_links_to(&c2_id).unwrap();
    assert_eq!(to.len(), 1);
    assert_eq!(to[0].source_id, c1_id);

    store.delete_link(&link_id).unwrap();
    assert!(store.get_links_from(&c1_id).unwrap().is_empty());
}

#[test]
fn test_self_link_rejected() {
    let mut store = test_store();
    let m_id = store.create_memoir(make_memoir("proj")).unwrap();
    let c_id = store
        .add_concept(make_concept(&m_id, "concept", "def"))
        .unwrap();

    let link = ConceptLink::new(c_id.clone(), c_id, Relation::RelatedTo);
    let result = store.add_link(link);
    assert!(result.is_err());
}

#[test]
fn test_get_neighbors() {
    let mut store = test_store();
    let m_id = store.create_memoir(make_memoir("proj")).unwrap();
    let c1 = store
        .add_concept(make_concept(&m_id, "a", "node a"))
        .unwrap();
    let c2 = store
        .add_concept(make_concept(&m_id, "b", "node b"))
        .unwrap();
    let c3 = store
        .add_concept(make_concept(&m_id, "c", "node c"))
        .unwrap();

    store
        .add_link(ConceptLink::new(
            c1.clone(),
            c2.clone(),
            Relation::DependsOn,
        ))
        .unwrap();
    store
        .add_link(ConceptLink::new(c3.clone(), c1.clone(), Relation::PartOf))
        .unwrap();

    let neighbors = store.get_neighbors(&c1, None).unwrap();
    assert_eq!(neighbors.len(), 2);

    let dep_neighbors = store.get_neighbors(&c1, Some(Relation::DependsOn)).unwrap();
    assert_eq!(dep_neighbors.len(), 1);
    assert_eq!(dep_neighbors[0].name, "b");
}

#[test]
fn test_get_neighborhood_bfs() {
    let mut store = test_store();
    let m_id = store.create_memoir(make_memoir("proj")).unwrap();
    let c1 = store
        .add_concept(make_concept(&m_id, "a", "node a"))
        .unwrap();
    let c2 = store
        .add_concept(make_concept(&m_id, "b", "node b"))
        .unwrap();
    let c3 = store
        .add_concept(make_concept(&m_id, "c", "node c"))
        .unwrap();
    let c4 = store
        .add_concept(make_concept(&m_id, "d", "node d"))
        .unwrap();

    // a -> b -> c -> d
    store
        .add_link(ConceptLink::new(
            c1.clone(),
            c2.clone(),
            Relation::DependsOn,
        ))
        .unwrap();
    store
        .add_link(ConceptLink::new(
            c2.clone(),
            c3.clone(),
            Relation::DependsOn,
        ))
        .unwrap();
    store
        .add_link(ConceptLink::new(c3, c4, Relation::DependsOn))
        .unwrap();

    // depth=1 should get a + b
    let (concepts, links) = store.get_neighborhood(&c1, 1).unwrap();
    assert_eq!(concepts.len(), 2);
    assert!(!links.is_empty());

    // depth=2 should get a + b + c
    let (concepts, _) = store.get_neighborhood(&c1, 2).unwrap();
    assert_eq!(concepts.len(), 3);

    // depth=3 should get all 4
    let (concepts, _) = store.get_neighborhood(&c1, 3).unwrap();
    assert_eq!(concepts.len(), 4);
}

#[test]
fn test_cascade_delete_memoir() {
    let mut store = test_store();
    let m_id = store.create_memoir(make_memoir("proj")).unwrap();
    let c1 = store.add_concept(make_concept(&m_id, "a", "def")).unwrap();
    let c2 = store.add_concept(make_concept(&m_id, "b", "def")).unwrap();
    store
        .add_link(ConceptLink::new(c1, c2, Relation::RelatedTo))
        .unwrap();

    store.delete_memoir(&m_id).unwrap();

    // concepts and links should be gone
    let concepts = store.list_concepts(&m_id).unwrap();
    assert!(concepts.is_empty());
}

#[test]
fn test_memoir_stats() {
    let mut store = test_store();
    let m_id = store.create_memoir(make_memoir("proj")).unwrap();

    let mut c = make_concept(&m_id, "es", "event sourcing");
    c.labels = vec![Label::new("domain", "arch")];
    let c1 = store.add_concept(c).unwrap();

    let mut c = make_concept(&m_id, "sqlite", "sqlite storage");
    c.labels = vec![Label::new("domain", "arch"), Label::new("type", "tech")];
    let c2 = store.add_concept(c).unwrap();

    store
        .add_link(ConceptLink::new(c1, c2, Relation::DependsOn))
        .unwrap();

    let stats = store.memoir_stats(&m_id).unwrap();
    assert_eq!(stats.total_concepts, 2);
    assert_eq!(stats.total_links, 1);
    assert!(stats.avg_confidence > 0);
    assert!(!stats.label_counts.is_empty());
}

#[test]
fn test_search_concepts_fts() {
    let mut store = test_store();
    let m_id = store.create_memoir(make_memoir("proj")).unwrap();

    store
        .add_concept(make_concept(
            &m_id,
            "event-sourcing",
            "Store domain events in append-only log",
        ))
        .unwrap();
    store
        .add_concept(make_concept(
            &m_id,
            "cqrs",
            "Command Query Responsibility Segregation",
        ))
        .unwrap();

    let results = store.search_concepts_fts(&m_id, "events", 10).unwrap();
    assert_eq!(results.len(), 1);
    assert_eq!(results[0].name, "event-sourcing");
}

#[test]
fn test_search_concepts_by_label() {
    let mut store = test_store();
    let m_id = store.create_memoir(make_memoir("proj")).unwrap();

    let mut c1 = make_concept(&m_id, "es", "event sourcing");
    c1.labels = vec![Label::new("domain", "arch")];
    store.add_concept(c1).unwrap();

    let mut c2 = make_concept(&m_id, "sqlite", "storage");
    c2.labels = vec![Label::new("domain", "tech")];
    store.add_concept(c2).unwrap();

    let results = store
        .search_concepts_by_label(&m_id, &Label::new("domain", "arch"), 10)
        .unwrap();
    assert_eq!(results.len(), 1);
    assert_eq!(results[0].name, "es");
}

#[test]
fn test_memoir_label_histogram_sorted() {
    let mut store = test_store();
    let m_id = store.create_memoir(make_memoir("proj")).unwrap();
    let mut a = make_concept(&m_id, "a", "def a");
    a.labels = vec![Label::new("domain", "arch"), Label::new("type", "tech")];
    store.add_concept(a).unwrap();
    let mut b = make_concept(&m_id, "b", "def b");
    b.labels = vec![Label::new("domain", "arch")];
    store.add_concept(b).unwrap();

    let stats = store.memoir_stats(&m_id).unwrap();
    assert_eq!(stats.label_counts[0], ("domain:arch".to_string(), 2));
    assert_eq!(stats.label_counts[1], ("type:tech".to_string(), 1));
}

#[test]
fn test_link_to_missing_concept_rejected() {
    let mut store = test_store();
    let m_id = store.create_memoir(make_memoir("proj")).unwrap();
    let c = store.add_concept(make_concept(&m_id, "a", "def")).unwrap();
    let link = ConceptLink::new(c, "no-such-concept".into(), Relation::RelatedTo);
    assert!(store.add_link(link).is_err());
}

#[test]
fn test_duplicate_link_triple_rejected() {
    let mut store = test_store();
    let m_id = store.create_memoir(make_memoir("proj")).unwrap();
    let a = store.add_concept(make_concept(&m_id, "a", "def")).unwrap();
    let b = store.add_concept(make_concept(&m_id, "b", "def")).unwrap();
    store
        .add_link(ConceptLink::new(a.clone(), b.clone(), Relation::DependsOn))
        .unwrap();
    let dup = ConceptLink::new(a.clone(), b.clone(), Relation::DependsOn);
    assert!(store.add_link(dup).is_err());
    // a different relation between the same endpoints is fine
    store
        .add_link(ConceptLink::new(a, b, Relation::RelatedTo))
        .unwrap();
}

#[test]
fn test_add_concept_requires_memoir() {
    let mut store = test_store();
    let result = store.add_concept(make_concept("missing-memoir", "a", "def"));
    assert!(result.is_err());
}

#[test]
fn test_list_concepts_sorted_by_name() {
    let mut store = test_store();
    let m_id = store.create_memoir(make_memoir("proj")).unwrap();
    store.add_concept(make_concept(&m_id, "zeta", "z")).unwrap();
    store.add_concept(make_concept(&m_id, "alpha", "a")).unwrap();
    store.add_concept(make_concept(&m_id, "mid", "m")).unwrap();
    let list = store.list_concepts(&m_id).unwrap();
    let names: Vec<&str> = list.iter().map(|c| c.name.as_str()).collect();
    assert_eq!(names, vec!["alpha", "mid", "zeta"]);
}

#[test]
fn test_update_concept_preserves_created_at() {
    let mut store = test_store();
    let m_id = store
        .create_memoir(Memoir::new("notes".into(), "".into()))
        .unwrap();
    let c = make_concept(&m_id, "keep", "first definition");
    let c_id = store.add_concept(c).unwrap();
    let mut stored = store.get_concept(&c_id).unwrap().unwrap();
    let original_created = stored.created_at;
    stored.definition = "second definition".into();
    stored.created_at = original_created + 12345;
    store.update_concept(&stored).unwrap();
    let after = store.get_concept(&c_id).unwrap().unwrap();
    assert_eq!(after.definition, "second definition");
    assert_eq!(after.created_at, original_created);
}
