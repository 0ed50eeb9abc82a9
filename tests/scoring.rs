use tfidf::{Document, Idf, PlainDocument, PlainToken, Score, Tfidf, TfidfError, Token};

fn tok(term: &str) -> PlainToken {
    PlainToken::new(term.to_string(), 0, None)
}

fn doc(id: &str, terms: &[&str]) -> PlainDocument {
    let mut content = Vec::new();
    let mut offset = 0;
    for t in terms {
        content.push(PlainToken::new(t.to_string(), offset, None));
        offset += t.len() + 1;
    }
    PlainDocument::new(id.to_string(), content)
}

fn idf_value(i: &Idf) -> f64 {
    (i.document_count as f64 / (i.document_frequency as f64 + 1.0)).log10()
}

fn score_value(s: &Score) -> f64 {
    s.tf as f64 * idf_value(&s.idf)
}

fn two_docs() -> Vec<PlainDocument> {
    vec![
        doc("d1", &["the", "quick", "brown", "fox"]),
        doc("d2", &["the", "lazy", "dog"]),
    ]
}

#[test]
fn scenario_two_documents() {
    let docs = two_docs();
    let mut engine = Tfidf::new(&docs);
    assert_eq!(engine.fit_transform(), Ok(()));
    let the = engine.idf(&tok("the")).unwrap();
    assert_eq!(the, Idf { document_count: 2, document_frequency: 2 });
    let fox = engine.idf(&tok("fox")).unwrap();
    assert_eq!(fox, Idf { document_count: 2, document_frequency: 1 });
    assert!((idf_value(&the) - (2.0f64 / 3.0).log10()).abs() < 1e-12);
    assert!(idf_value(&the) < 0.0);
    assert!(!the.is_non_negative());
    assert!(fox.is_non_negative());
    assert_eq!(idf_value(&fox), 0.0);
}

#[test]
fn scenario_single_document() {
    let docs = vec![doc("d1", &["a", "a", "b"])];
    let mut engine = Tfidf::new(&docs);
    assert_eq!(engine.fit_transform(), Ok(()));
    let a = engine.idf(&tok("a")).unwrap();
    assert_eq!(a, Idf { document_count: 1, document_frequency: 1 });
    assert!(idf_value(&a) < 0.0);
    assert!(!a.is_non_negative());
    let content = docs[0].get_content();
    assert_eq!(engine.tf(&content, &tok("a")), 2);
    let s = engine.tfidf(&content, &tok("a")).unwrap();
    assert_eq!(s, Score { tf: 2, idf: a });
    assert!((score_value(&s) - 2.0 * 0.5f64.log10()).abs() < 1e-12);
}

#[test]
fn scenario_empty_corpus_rejected() {
    let docs: Vec<PlainDocument> = Vec::new();
    let mut engine = Tfidf::new(&docs);
    assert_eq!(engine.fit_transform(), Err(TfidfError::EmptyCorpus));
    assert_eq!(engine.idf(&tok("a")), Err(TfidfError::NotFitted));
}

#[test]
fn queries_before_fit_are_rejected() {
    let docs = two_docs();
    let engine = Tfidf::new(&docs);
    let content = docs[0].get_content();
    assert_eq!(engine.idf(&tok("the")), Err(TfidfError::NotFitted));
    assert_eq!(engine.tfidf(&content, &tok("the")), Err(TfidfError::NotFitted));
    assert_eq!(engine.tfidf_doc(&docs[0], &tok("the")), Err(TfidfError::NotFitted));
    assert_eq!(engine.rank_tokens(&content), Err(TfidfError::NotFitted));
}

#[test]
fn frequency_never_exceeds_document_count() {
    let docs = vec![
        doc("d1", &["x", "x", "x", "y"]),
        doc("d2", &["x", "z"]),
        doc("d3", &["x"]),
    ];
    let mut engine = Tfidf::new(&docs);
    engine.fit_transform().unwrap();
    for t in ["x", "y", "z", "w"] {
        let i = engine.idf(&tok(t)).unwrap();
        assert_eq!(i.document_count, 3);
        assert!(i.document_frequency <= i.document_count);
    }
    // a term repeated in one document counts once for it
    assert_eq!(engine.idf(&tok("x")).unwrap().document_frequency, 3);
    assert_eq!(engine.idf(&tok("y")).unwrap().document_frequency, 1);
    assert_eq!(engine.idf(&tok("w")).unwrap().document_frequency, 0);
    assert_eq!(idf_value(&engine.idf(&tok("w")).unwrap()), 3.0f64.log10());
}

#[test]
fn idf_does_not_increase_with_frequency() {
    let docs = vec![
        doc("d1", &["common", "rare"]),
        doc("d2", &["common", "mid"]),
        doc("d3", &["common", "mid"]),
    ];
    let mut engine = Tfidf::new(&docs);
    engine.fit_transform().unwrap();
    let values: Vec<f64> = ["unseen", "rare", "mid", "common"]
        .iter()
        .map(|t| idf_value(&engine.idf(&tok(t)).unwrap()))
        .collect();
    for w in values.windows(2) {
        assert!(w[1] <= w[0]);
    }
}

#[test]
fn absent_term_scores_zero() {
    let docs = two_docs();
    let mut engine = Tfidf::new(&docs);
    engine.fit_transform().unwrap();
    let content = docs[1].get_content();
    assert_eq!(engine.tf(&content, &tok("fox")), 0);
    let s = engine.tfidf(&content, &tok("fox")).unwrap();
    assert_eq!(s.tf, 0);
    assert_eq!(score_value(&s), 0.0);
    // exact, case-sensitive matching
    assert_eq!(engine.tf(&content, &tok("The")), 0);
}

#[test]
fn refit_gives_the_same_index() {
    let docs = two_docs();
    let mut once = Tfidf::new(&docs);
    once.fit_transform().unwrap();
    let mut twice = Tfidf::new(&docs);
    twice.fit_transform().unwrap();
    twice.fit_transform().unwrap();
    for t in ["the", "quick", "brown", "fox", "lazy", "dog", "cat"] {
        assert_eq!(once.idf(&tok(t)), twice.idf(&tok(t)));
    }
}

#[test]
fn rank_has_one_entry_per_distinct_term() {
    let docs = vec![
        doc("d1", &["fox", "the", "fox", "fox", "den"]),
        doc("d2", &["the", "dog"]),
    ];
    let mut engine = Tfidf::new(&docs);
    engine.fit_transform().unwrap();
    let content = docs[0].get_content();
    let ranked = engine.rank_tokens(&content).unwrap();
    let terms: Vec<&str> = ranked.iter().map(|(t, _)| t.as_str()).collect();
    assert_eq!(terms, vec!["fox", "the", "den"]);
    for (t, s) in &ranked {
        assert_eq!(*s, engine.tfidf(&content, &tok(t)).unwrap());
    }
    assert_eq!(ranked[0].1, Score { tf: 3, idf: Idf { document_count: 2, document_frequency: 1 } });
    assert_eq!(ranked[1].1, Score { tf: 1, idf: Idf { document_count: 2, document_frequency: 2 } });
}

#[test]
fn rank_of_empty_document_is_empty() {
    let docs = two_docs();
    let mut engine = Tfidf::new(&docs);
    engine.fit_transform().unwrap();
    let empty: Vec<PlainToken> = Vec::new();
    assert_eq!(engine.rank_tokens(&empty).unwrap().len(), 0);
}

#[test]
fn score_of_document_reads_its_content() {
    let docs = two_docs();
    let mut engine = Tfidf::new(&docs);
    engine.fit_transform().unwrap();
    let s = engine.tfidf_doc(&docs[0], &tok("quick")).unwrap();
    assert_eq!(s, Score { tf: 1, idf: Idf { document_count: 2, document_frequency: 1 } });
}

#[test]
fn document_lookup_by_id() {
    let docs = two_docs();
    let engine = Tfidf::new(&docs);
    let found = engine.document_by_id(&"d2".to_string()).unwrap();
    assert_eq!(found.get_id(), "d2");
    assert_eq!(found.get_content().len(), 3);
    assert!(engine.document_by_id(&"d9".to_string()).is_none());
}

#[test]
fn token_offsets_and_pos() {
    let t = PlainToken::new("brown".to_string(), 10, Some("ADJ".to_string()));
    assert_eq!(t.get_term(), "brown");
    assert_eq!(t.get_offset_begin(), 10);
    assert_eq!(t.get_offset_end(), 15);
    assert_eq!(t.get_pos(), Some("ADJ".to_string()));
    let u = PlainToken::new("x".to_string(), usize::MAX, None);
    assert_eq!(u.get_offset_end(), usize::MAX);
    assert_eq!(u.get_pos(), None);
}

#[test]
fn document_content_keeps_order() {
    let d = doc("d1", &["b", "a", "b"]);
    let terms: Vec<String> = d.get_content().iter().map(|t| t.get_term()).collect();
    assert_eq!(terms, vec!["b", "a", "b"]);
    assert_eq!(d.get_id(), "d1");
}
