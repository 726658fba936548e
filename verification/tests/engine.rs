use vault_tools::{
    simple_search, Frontmatter, Note, Score, SearchEngine, SearchError, VectorDB,
};

fn pool(moduli: &Vec<u64>, codes: &Vec<Vec<u64>>) -> Vec<u32> {
    let mut sum = vec![0.0f64; 2 * moduli.len()];
    for row in codes {
        for (i, r) in row.iter().enumerate() {
            let theta = 2.0 * std::f64::consts::PI * (*r as f64) / (moduli[i] as f64);
            sum[2 * i] += theta.sin();
            sum[2 * i + 1] += theta.cos();
        }
    }
    for v in sum.iter_mut() {
        *v /= codes.len() as f64;
    }
    let norm: f64 = sum.iter().map(|x| x * x).sum::<f64>().sqrt();
    sum.iter()
        .map(|x| if norm > 0.0 { (*x / norm) as f32 } else { *x as f32 })
        .map(|x| x.to_bits())
        .collect()
}

fn cosine(a: &[u32], b: &[u32]) -> u32 {
    if a.len() != b.len() {
        return 0.0f32.to_bits();
    }
    let a: Vec<f32> = a.iter().map(|x| f32::from_bits(*x)).collect();
    let b: Vec<f32> = b.iter().map(|x| f32::from_bits(*x)).collect();
    let dot: f32 = a.iter().zip(b.iter()).map(|(x, y)| x * y).sum();
    let norm_a: f32 = a.iter().map(|x| x * x).sum::<f32>().sqrt();
    let norm_b: f32 = b.iter().map(|x| x * x).sum::<f32>().sqrt();
    let c = if norm_a > 0.0 && norm_b > 0.0 { dot / (norm_a * norm_b) } else { 0.0 };
    c.to_bits()
}

fn note(name: &str, gist: Option<&str>) -> Note {
    Note {
        path: format!("/vault/Notes/{}.md", name),
        folder: "Notes".to_string(),
        name: name.to_string(),
        content: String::new(),
        frontmatter: Some(Frontmatter {
            note_type: Some("note".to_string()),
            status: Some("active".to_string()),
            area: Some("tech".to_string()),
            gist: gist.map(|g| g.to_string()),
            tags: vec!["t1".to_string(), "t2".to_string()],
            raw: String::new(),
        }),
        modified: 1700000000,
        created: 1600000000,
    }
}

fn bare(name: &str) -> Note {
    Note {
        path: format!("/vault/Notes/{}.md", name),
        folder: "Notes".to_string(),
        name: name.to_string(),
        content: "no frontmatter".to_string(),
        frontmatter: None,
        modified: 1,
        created: 1,
    }
}

fn score_of(s: Score) -> f32 {
    match s {
        Score::Similarity(bits) => f32::from_bits(bits),
        Score::MatchRatio(matched, total) => matched as f32 / total as f32,
    }
}

#[test]
fn test_simple_search() {
    let results = simple_search(&Vec::new(), "test query", 5);
    assert!(results.is_empty());
}

#[test]
fn index_two_notes_and_find_the_nearer_first() {
    let mut engine = SearchEngine::new_in_memory("/vault", "/vault/model.onnx");
    let notes = vec![
        note("A", Some("GPU memory sharing methods")),
        note("B", Some("cooking recipes")),
    ];
    let stats = engine.index_all(&notes, &pool, 1704067200);
    assert_eq!(stats.indexed, 2);
    assert_eq!(stats.skipped, 0);
    assert_eq!(stats.failed, 0);
    assert_eq!(stats.duration_ms, 0);

    let results = engine.search("GPU memory", 5, &pool, &cosine).unwrap();
    assert_eq!(results.len(), 2);
    assert_eq!(results[0].id, "A");
    assert_eq!(results[1].id, "B");
    assert!(score_of(results[0].score) > score_of(results[1].score));
    assert_eq!(results[0].title, "A");
    assert_eq!(results[0].path, "/vault/Notes/A.md");
    assert_eq!(results[0].gist.as_deref(), Some("GPU memory sharing methods"));
    assert_eq!(results[0].note_type.as_deref(), Some("note"));
    assert_eq!(results[0].area.as_deref(), Some("tech"));
    for r in &results {
        let s = score_of(r.score);
        assert!(s >= -1.0001 && s <= 1.0001);
    }
}

#[test]
fn a_note_without_summary_is_skipped_and_not_stored() {
    let mut engine = SearchEngine::new_in_memory("/vault", "");
    let stats = engine.index_all(&vec![note("lonely", None)], &pool, 5);
    assert_eq!(stats.indexed, 0);
    assert_eq!(stats.skipped, 1);
    assert_eq!(stats.failed, 0);
    assert_eq!(engine.get_stats().note_count, 0);
    assert_eq!(engine.db().len(), 0);
    assert!(engine.db().get_note("lonely").is_none());
}

#[test]
fn notes_with_empty_summary_or_no_frontmatter_are_skipped() {
    let mut engine = SearchEngine::new_in_memory("/vault", "");
    let notes = vec![note("empty", Some("")), bare("bare"), note("kept", Some("something"))];
    let stats = engine.index_all(&notes, &pool, 5);
    assert_eq!((stats.indexed, stats.skipped, stats.failed), (1, 2, 0));
    assert!(engine.db().get_note("empty").is_none());
    assert!(engine.db().get_note("bare").is_none());
    assert!(engine.db().get_note("kept").is_some());
    assert_eq!(engine.get_stats().note_count, 1);
    assert_eq!(engine.get_stats().embedding_count, 1);
}

#[test]
fn a_summary_of_punctuation_is_indexed_with_the_zero_vector() {
    let mut engine = SearchEngine::new_in_memory("/vault", "");
    assert_eq!(engine.index_note(&note("dots", Some("...")), &pool, 9), Ok(true));
    assert_eq!(engine.db().get_embedding("dots"), Some(vec![0u32; 384]));
}

#[test]
fn a_failing_note_does_not_stop_the_run() {
    let mut engine = SearchEngine::new_in_memory("/vault", "");
    let picky = |moduli: &Vec<u64>, codes: &Vec<Vec<u64>>| {
        if codes.len() == 2 {
            vec![0u32; 3]
        } else {
            pool(moduli, codes)
        }
    };
    let notes = vec![
        note("one", Some("single")),
        note("two", Some("two words")),
        note("none", None),
        note("three", Some("three words here")),
    ];
    let stats = engine.index_all(&notes, &picky, 100);
    assert_eq!((stats.indexed, stats.skipped, stats.failed), (2, 1, 1));
    assert!(engine.db().get_note("one").is_some());
    assert!(engine.db().get_note("two").is_none());
    assert!(engine.db().get_note("three").is_some());
    assert_eq!(engine.index_note(&notes[1], &picky, 100), Err(SearchError::Dimension(3)));
    assert_eq!(engine.index_note(&notes[2], &picky, 100), Ok(false));
    assert_eq!(engine.index_note(&notes[0], &picky, 100), Ok(true));
}

#[test]
fn index_all_records_the_run() {
    let mut engine = SearchEngine::new_in_memory("/vault", "");
    let notes = vec![note("a", Some("x")), note("b", Some("y")), note("c", None)];
    engine.index_all(&notes, &pool, 1704067200);
    assert_eq!(engine.db().get_meta("indexed_count"), Some("2".to_string()));
    assert_eq!(engine.db().get_meta("last_full_index"), Some("1704067200".to_string()));
    assert_eq!(engine.get_stats().last_indexed, Some(1704067200));
    engine.index_all(&Vec::new(), &pool, -42);
    assert_eq!(engine.db().get_meta("indexed_count"), Some("0".to_string()));
    assert_eq!(engine.db().get_meta("last_full_index"), Some("-42".to_string()));
    engine.index_all(&Vec::new(), &pool, i64::MIN);
    assert_eq!(engine.db().get_meta("last_full_index"), Some(i64::MIN.to_string()));
    engine.index_all(&Vec::new(), &pool, i64::MAX);
    assert_eq!(engine.db().get_meta("last_full_index"), Some(i64::MAX.to_string()));
    assert_eq!(engine.db().len(), 2);
}

#[test]
fn index_note_writes_the_record_of_the_note() {
    let mut engine = SearchEngine::new_in_memory("/vault", "");
    assert_eq!(engine.index_note(&note("n", Some("Some Gist")), &pool, 77), Ok(true));
    let entry = engine.db().entry_at(0);
    assert_eq!(entry.record.id, "n");
    assert_eq!(entry.record.title, "n");
    assert_eq!(entry.record.path, "/vault/Notes/n.md");
    assert_eq!(entry.record.gist.as_deref(), Some("Some Gist"));
    assert_eq!(entry.record.note_type.as_deref(), Some("note"));
    assert_eq!(entry.record.status.as_deref(), Some("active"));
    assert_eq!(entry.record.area.as_deref(), Some("tech"));
    assert_eq!(entry.record.tags, vec!["t1", "t2"]);
    assert_eq!(entry.record.mtime, 1700000000);
    assert_eq!(entry.indexed_at, 77);
    assert_eq!(entry.embedding, pool_of("Some Gist"));
}

fn pool_of(text: &str) -> Vec<u32> {
    vault_tools::EmbeddingModel::new().embed(text, &pool).unwrap()
}

#[test]
fn indexing_again_replaces_the_entry() {
    let mut engine = SearchEngine::new_in_memory("/vault", "");
    engine.index_all(&vec![note("n", Some("old text"))], &pool, 1);
    engine.index_all(&vec![note("n", Some("new text"))], &pool, 2);
    assert_eq!(engine.db().len(), 1);
    assert_eq!(engine.db().get_note("n").unwrap().gist.as_deref(), Some("new text"));
    assert_eq!(engine.db().get_embedding("n"), Some(pool_of("new text")));
    // A note that lost its summary is skipped; what was stored stays.
    let stats = engine.index_all(&vec![note("n", None)], &pool, 3);
    assert_eq!(stats.skipped, 1);
    assert_eq!(engine.db().get_note("n").unwrap().gist.as_deref(), Some("new text"));
}

#[test]
fn search_respects_the_limit_and_the_order() {
    let mut engine = SearchEngine::new_in_memory("/vault", "");
    let notes: Vec<Note> = ["alpha beta", "beta gamma", "gamma delta", "delta alpha", "alpha"]
        .iter()
        .enumerate()
        .map(|(i, g)| note(&format!("n{}", i), Some(g)))
        .collect();
    engine.index_all(&notes, &pool, 1);
    for limit in 0..8 {
        let results = engine.search("alpha", limit, &pool, &cosine).unwrap();
        assert_eq!(results.len(), limit.min(5));
        for w in results.windows(2) {
            assert!(score_of(w[0].score) >= score_of(w[1].score));
        }
        if limit > 0 {
            assert_eq!(results[0].id, "n4");
            assert!((score_of(results[0].score) - 1.0).abs() < 0.001);
        }
    }
}

#[test]
fn search_surfaces_a_failure_to_embed_the_query() {
    let mut engine = SearchEngine::new(
        "/vault",
        VectorDB::open_in_memory(),
        "/vault/.opencode/tools/models/model.onnx",
    );
    let broken = |_: &Vec<u64>, _: &Vec<Vec<u64>>| vec![0u32; 10];
    assert_eq!(
        engine.search("query", 5, &broken, &cosine).err(),
        Some(SearchError::Dimension(10))
    );
    assert!(engine.search("", 5, &broken, &cosine).unwrap().is_empty());
    assert_eq!(engine.db_path(), "");
    assert_eq!(engine.model_path(), "/vault/.opencode/tools/models/model.onnx");
    assert_eq!(engine.vault_paths().notes, "/vault/Notes");
    assert!(engine.ensure_model().is_ok());
}

#[test]
fn lexical_search_ranks_by_the_share_of_terms_found() {
    let notes = vec![
        note("none", Some("nothing relevant")),
        note("one", Some("a Test of things")),
        note("both", Some("TEST the QUERY engine")),
        note("missing", None),
        note("other", Some("query only")),
        bare("bare"),
    ];
    let results = simple_search(&notes, "test", 10);
    let ids: Vec<&str> = results.iter().map(|r| r.id.as_str()).collect();
    assert_eq!(ids, vec!["one", "both"]);
    assert_eq!(results[0].score, Score::MatchRatio(1, 1));

    let results = simple_search(&notes, "Test Query", 10);
    let ids: Vec<&str> = results.iter().map(|r| r.id.as_str()).collect();
    assert_eq!(ids, vec!["both", "one", "other"]);
    assert_eq!(results[0].score, Score::MatchRatio(2, 2));
    assert_eq!(results[1].score, Score::MatchRatio(1, 2));
    assert_eq!(score_of(results[1].score), 0.5);
    assert_eq!(results[0].title, "both");
    assert_eq!(results[0].gist.as_deref(), Some("TEST the QUERY engine"));
    assert_eq!(results[0].path, "/vault/Notes/both.md");

    let results = simple_search(&notes, "test query", 1);
    assert_eq!(results.len(), 1);
    assert_eq!(results[0].id, "both");
    assert!(simple_search(&notes, "test query", 0).is_empty());
    assert!(simple_search(&notes, "", 10).is_empty());
    assert!(simple_search(&notes, "   ", 10).is_empty());
    assert!(simple_search(&notes, "absent", 10).is_empty());
}

#[test]
fn lexical_search_matches_inside_words_and_counts_repeats() {
    let notes = vec![note("a", Some("testing")), note("b", Some("contest entry"))];
    let results = simple_search(&notes, "test", 10);
    assert_eq!(results.len(), 2);
    let results = simple_search(&notes, "test test entry", 10);
    assert_eq!(results[0].id, "b");
    assert_eq!(results[0].score, Score::MatchRatio(3, 3));
    assert_eq!(results[1].score, Score::MatchRatio(2, 3));
    // Punctuation stays part of a term.
    assert!(simple_search(&notes, "test,", 10).is_empty());
}

#[test]
fn a_search_result_can_be_copied() {
    let mut engine = SearchEngine::new_in_memory("/vault", "");
    engine.index_all(&vec![note("a", Some("alpha"))], &pool, 1);
    let results = engine.search("alpha", 1, &pool, &cosine).unwrap();
    let copy = results[0].clone();
    assert_eq!(copy.id, results[0].id);
    assert_eq!(copy.path, results[0].path);
    assert_eq!(copy.title, results[0].title);
    assert_eq!(copy.gist, results[0].gist);
    assert_eq!(copy.note_type, results[0].note_type);
    assert_eq!(copy.area, results[0].area);
    assert_eq!(copy.score, results[0].score);
}
