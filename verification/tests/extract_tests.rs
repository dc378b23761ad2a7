use icm::extract::{extract_and_store, extract_facts_public, jaccard_similar, recall_context, split_sentences, trim_str};
use icm::store::Store;

#[test]
fn test_extract_facts_finds_algorithm() {
    let text = "The parser uses Pratt precedence climbing algorithm. \
                 It handles right-associative operators like exponentiation. \
                 The code is clean.";
    let facts = extract_facts_public(text, "test");
    assert!(!facts.is_empty());
    assert!(facts[0].1.contains("Pratt"));
}

#[test]
fn test_extract_facts_skips_short() {
    let text = "OK. Yes. Fine.";
    let facts = extract_facts_public(text, "test");
    assert!(facts.is_empty());
}

#[test]
fn test_jaccard_similar() {
    assert!(jaccard_similar(
        "The parser uses Pratt algorithm",
        "The parser uses Pratt algorithm for parsing"
    ));
    assert!(!jaccard_similar(
        "Matrix operations use cofactor expansion",
        "Complex numbers use conjugate division"
    ));
}

#[test]
fn test_recall_context_empty_store() {
    let store = Store::in_memory().unwrap();
    let ctx = recall_context(&store, "anything", 5).unwrap();
    assert!(ctx.is_empty());
}

#[test]
fn test_extract_and_recall_roundtrip() {
    let mut store = Store::in_memory().unwrap();
    let text = "The project uses Pratt precedence climbing algorithm for parsing expressions. \
                 Welford's online algorithm provides streaming mean and variance computation. \
                 The matrix determinant uses recursive cofactor expansion along the first row.";
    let stored = extract_and_store(&mut store, text, "mathlib").unwrap();
    assert!(stored > 0);

    let ctx = recall_context(&store, "parsing algorithm", 5).unwrap();
    assert!(!ctx.is_empty());
    assert!(ctx.contains("Pratt") || ctx.contains("parsing") || ctx.contains("algorithm"));
}

#[test]
fn test_extract_is_deterministic() {
    let text = "The consensus algorithm tolerates replica faults through replication. \
                 The pipeline architecture separates the storage layer from the protocol module. \
                 Latency was measured at 12 milliseconds in the benchmark.";
    let first = extract_facts_public(text, "proj");
    let second = extract_facts_public(text, "proj");
    assert_eq!(first.len(), second.len());
    for (a, b) in first.iter().zip(second.iter()) {
        assert_eq!(a.0, b.0);
        assert_eq!(a.1, b.1);
        assert_eq!(a.2, b.2);
    }
}

#[test]
fn test_extract_caps_and_dedups() {
    let mut text = String::new();
    for i in 0..40 {
        text.push_str(&format!(
            "Component number {i} of the architecture implements the consensus algorithm layer. "
        ));
        text.push_str(&format!(
            "Subsystem {i} was measured with benchmark latency of {i} milliseconds under the protocol. "
        ));
    }
    let facts = extract_facts_public(&text, "big");
    assert!(facts.len() <= 20);
    for (i, a) in facts.iter().enumerate() {
        assert_eq!(a.0, "context-big");
        for b in facts.iter().skip(i + 1) {
            assert!(!jaccard_similar(&a.1, &b.1));
        }
    }
}

#[test]
fn test_split_sentences_trims_and_filters() {
    let s = split_sentences("  A sentence that is long enough to keep.\nshort.\nAnother kept line without a terminator that runs on");
    assert_eq!(s.len(), 2);
    assert_eq!(s[0], "A sentence that is long enough to keep.");
    assert!(s[1].starts_with("Another kept line"));
}

#[test]
fn test_trim_str_behaviour() {
    assert_eq!(trim_str("  padded value \t"), "padded value");
    assert_eq!(trim_str("\n\n"), "");
    assert_eq!(trim_str("solid"), "solid");
}

#[test]
fn test_extract_marks_rationale_as_high() {
    let text = "We chose the append-only log because replaying events simplifies recovery enormously.";
    let facts = extract_facts_public(text, "p");
    assert_eq!(facts.len(), 1);
    assert_eq!(facts[0].2, icm::memory::Importance::High);
}
