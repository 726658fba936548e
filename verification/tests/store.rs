use vault_tools::ranking::{rank, score_rank};
use vault_tools::row::{decode_row, encode_entry, load_store, store_meta, store_rows, StoredNote};
use vault_tools::{
    blob_to_embedding, embedding_to_blob, NoteRecord, StoreEntry, VectorDB, EMBEDDING_DIM,
};

fn bits(v: &[f32]) -> Vec<u32> {
    v.iter().map(|x| x.to_bits()).collect()
}

fn floats(v: &[u32]) -> Vec<f32> {
    v.iter().map(|b| f32::from_bits(*b)).collect()
}

fn cosine(a: &[u32], b: &[u32]) -> u32 {
    if a.len() != b.len() {
        return 0.0f32.to_bits();
    }
    let a = floats(a);
    let b = floats(b);
    let dot: f32 = a.iter().zip(b.iter()).map(|(x, y)| x * y).sum();
    let norm_a: f32 = a.iter().map(|x| x * x).sum::<f32>().sqrt();
    let norm_b: f32 = b.iter().map(|x| x * x).sum::<f32>().sqrt();
    let c = if norm_a > 0.0 && norm_b > 0.0 { dot / (norm_a * norm_b) } else { 0.0 };
    c.to_bits()
}

fn record(id: &str, title: &str) -> NoteRecord {
    NoteRecord {
        id: id.to_string(),
        path: format!("Notes/{}.md", id),
        title: title.to_string(),
        gist: Some(format!("gist of {}", id)),
        note_type: Some("note".to_string()),
        status: Some("active".to_string()),
        area: Some("tech".to_string()),
        tags: vec!["test".to_string()],
        mtime: 1704067200,
    }
}

#[test]
fn test_blob_conversion() {
    let embedding = vec![1.0, 2.0, 3.0, -0.5];
    let blob = embedding_to_blob(&bits(&embedding));
    let recovered = floats(&blob_to_embedding(&blob));
    assert_eq!(embedding, recovered);
}

#[test]
fn test_db_operations() {
    let mut db = VectorDB::open_in_memory();

    let note = NoteRecord {
        id: "test-note".to_string(),
        path: "Notes/Test Note.md".to_string(),
        title: "Test Note".to_string(),
        gist: Some("This is a test note".to_string()),
        note_type: Some("note".to_string()),
        status: Some("active".to_string()),
        area: Some("tech".to_string()),
        tags: vec!["test".to_string()],
        mtime: 1704067200,
    };

    let embedding = vec![0.1; EMBEDDING_DIM];
    db.upsert_note(&note, &bits(&embedding), 1704067300);

    let retrieved = db.get_note("test-note");
    assert!(retrieved.is_some());
    assert_eq!(retrieved.unwrap().title, "Test Note");

    let stats = db.get_stats();
    assert_eq!(stats.note_count, 1);
    assert_eq!(stats.embedding_count, 1);
}

#[test]
fn blob_is_little_endian_and_four_bytes_wide() {
    assert_eq!(embedding_to_blob(&[]), Vec::<u8>::new());
    assert_eq!(embedding_to_blob(&[1]), vec![1, 0, 0, 0]);
    assert_eq!(embedding_to_blob(&[0x0403_0201]), vec![1, 2, 3, 4]);
    assert_eq!(embedding_to_blob(&[0xFFFF_FFFF, 0]), vec![255, 255, 255, 255, 0, 0, 0, 0]);
    assert_eq!(embedding_to_blob(&bits(&[1.0])), 1.0f32.to_le_bytes().to_vec());
    assert_eq!(embedding_to_blob(&bits(&[-0.5])), (-0.5f32).to_le_bytes().to_vec());
    assert_eq!(embedding_to_blob(&vec![0u32; EMBEDDING_DIM]).len(), EMBEDDING_DIM * 4);
}

#[test]
fn blob_roundtrip_keeps_every_bit_pattern() {
    let v: Vec<u32> = vec![
        0,
        1,
        0x8000_0000,
        0x7F80_0000,
        0xFF80_0000,
        0x7FC0_0001,
        0xFFFF_FFFF,
        f32::MAX.to_bits(),
        f32::MIN_POSITIVE.to_bits(),
        0x0000_0001,
        0xDEAD_BEEF,
    ];
    assert_eq!(blob_to_embedding(&embedding_to_blob(&v)), v);
    let mut x: u32 = 12345;
    let mut many = Vec::new();
    for _ in 0..1000 {
        x = x.wrapping_mul(1664525).wrapping_add(1013904223);
        many.push(x);
    }
    assert_eq!(blob_to_embedding(&embedding_to_blob(&many)), many);
}

#[test]
fn blob_with_trailing_bytes_loses_them() {
    assert_eq!(blob_to_embedding(&[]), Vec::<u32>::new());
    assert_eq!(blob_to_embedding(&[1]), Vec::<u32>::new());
    assert_eq!(blob_to_embedding(&[1, 2, 3]), Vec::<u32>::new());
    assert_eq!(blob_to_embedding(&[1, 2, 3, 4]), vec![0x0403_0201]);
    assert_eq!(blob_to_embedding(&[1, 2, 3, 4, 5]), vec![0x0403_0201]);
    assert_eq!(blob_to_embedding(&[1, 2, 3, 4, 5, 6, 7]), vec![0x0403_0201]);
    assert_eq!(blob_to_embedding(&[0, 0, 128, 63, 9, 9]), vec![1.0f32.to_bits()]);
}

#[test]
fn score_rank_orders_bit_patterns_as_numbers() {
    let values = [
        f32::NEG_INFINITY,
        -1.0e30,
        -1.0,
        -0.5,
        -1.0e-30,
        -0.0,
        0.0,
        1.0e-40,
        1.0e-30,
        0.25,
        0.5,
        1.0,
        1.0e30,
        f32::INFINITY,
    ];
    for a in values {
        for b in values {
            let ka = score_rank(a.to_bits());
            let kb = score_rank(b.to_bits());
            assert_eq!(a < b, ka < kb, "{} {}", a, b);
            assert_eq!(a == b, ka == kb, "{} {}", a, b);
        }
    }
    assert_eq!(score_rank(0), 0);
    assert_eq!(score_rank(0x8000_0000), 0);
    assert_eq!(score_rank(1.0f32.to_bits()), 0x3F80_0000);
    assert_eq!(score_rank((-1.0f32).to_bits()), -0x3F80_0000);
    let nan = score_rank(f32::NAN.to_bits());
    assert!(nan < score_rank(f32::NEG_INFINITY.to_bits()));
    assert_eq!(nan, score_rank(0xFFC0_0000));
    assert_eq!(nan, score_rank(0x7F80_0001));
}

#[test]
fn rank_sorts_descending_and_keeps_ties_in_order() {
    assert_eq!(rank(&vec![], 3), Vec::<usize>::new());
    assert_eq!(rank(&vec![5], 0), Vec::<usize>::new());
    assert_eq!(rank(&vec![5], 1), vec![0]);
    assert_eq!(rank(&vec![1, 3, 3, 0], 2), vec![1, 2]);
    assert_eq!(rank(&vec![1, 3, 3, 0], 10), vec![1, 2, 0, 3]);
    assert_eq!(rank(&vec![2, 2, 2, 2], 3), vec![0, 1, 2]);
    assert_eq!(rank(&vec![-1, -5, 7, 0, 7], 4), vec![2, 4, 3, 0]);
    assert_eq!(rank(&vec![1, 2, 3, 4, 5], 5), vec![4, 3, 2, 1, 0]);
    assert_eq!(rank(&vec![5, 4, 3, 2, 1], 2), vec![0, 1]);
}

#[test]
fn rank_agrees_with_a_stable_sort() {
    let mut x: u64 = 99;
    for round in 0..50 {
        let n = (round * 7) % 40;
        let mut keys: Vec<i128> = Vec::new();
        for _ in 0..n {
            x = x.wrapping_mul(6364136223846793005).wrapping_add(1442695040888963407);
            keys.push(((x >> 33) % 7) as i128 - 3);
        }
        for limit in [0usize, 1, 3, 10, 100] {
            let mut want: Vec<usize> = (0..keys.len()).collect();
            want.sort_by(|a, b| keys[*b].cmp(&keys[*a]));
            want.truncate(limit);
            assert_eq!(rank(&keys, limit), want);
        }
    }
}

#[test]
fn upsert_twice_leaves_one_entry_with_the_second_fields() {
    let mut db = VectorDB::open_in_memory();
    db.upsert_note(&record("a", "first"), &[1, 2], 10);
    db.upsert_note(&record("b", "other"), &[3], 11);
    let mut again = record("a", "second");
    again.tags = vec!["x".to_string(), "y".to_string()];
    again.gist = None;
    again.mtime = 5;
    db.upsert_note(&again, &[9, 9, 9], 12);

    assert_eq!(db.len(), 2);
    let stats = db.get_stats();
    assert_eq!(stats.note_count, 2);
    assert_eq!(stats.embedding_count, 2);
    assert_eq!(stats.last_indexed, Some(12));
    let got = db.get_note("a").unwrap();
    assert_eq!(got.title, "second");
    assert_eq!(got.gist, None);
    assert_eq!(got.tags, vec!["x", "y"]);
    assert_eq!(got.mtime, 5);
    assert_eq!(db.get_embedding("a"), Some(vec![9, 9, 9]));
    // The replaced entry keeps its place.
    assert_eq!(db.entry_at(0).record.id, "a");
    assert_eq!(db.entry_at(0).indexed_at, 12);
    assert_eq!(db.entry_at(1).record.id, "b");
    assert_eq!(db.get_note("b").unwrap().title, "other");
}

#[test]
fn get_after_upsert_and_delete_is_none() {
    let mut db = VectorDB::open_in_memory();
    db.upsert_note(&record("a", "A"), &[1], 1);
    db.upsert_note(&record("b", "B"), &[2], 2);
    db.upsert_note(&record("c", "C"), &[3], 3);
    db.delete_note("b");
    assert!(db.get_note("b").is_none());
    assert!(db.get_embedding("b").is_none());
    assert_eq!(db.len(), 2);
    assert_eq!(db.get_stats().embedding_count, 2);
    assert_eq!(db.get_note("a").unwrap().title, "A");
    assert_eq!(db.get_note("c").unwrap().title, "C");
    assert_eq!(db.entry_at(1).record.id, "c");
    db.delete_note("b");
    db.delete_note("never there");
    assert_eq!(db.len(), 2);
    db.delete_note("a");
    db.delete_note("c");
    assert_eq!(db.len(), 0);
    assert_eq!(db.get_stats().last_indexed, None);
}

#[test]
fn empty_store_has_nothing() {
    let db = VectorDB::open_in_memory();
    assert_eq!(db.len(), 0);
    assert!(db.get_note("x").is_none());
    assert!(db.get_meta("x").is_none());
    let stats = db.get_stats();
    assert_eq!(stats.note_count, 0);
    assert_eq!(stats.embedding_count, 0);
    assert_eq!(stats.last_indexed, None);
    assert!(db.get_all_mtimes().is_empty());
    assert!(db.search(&[1, 2], 5, &cosine).is_empty());
}

#[test]
fn stats_report_the_latest_write() {
    let mut db = VectorDB::open_in_memory();
    db.upsert_note(&record("a", "A"), &[1], 50);
    db.upsert_note(&record("b", "B"), &[1], -3);
    db.upsert_note(&record("c", "C"), &[1], 20);
    assert_eq!(db.get_stats().last_indexed, Some(50));
    db.delete_note("a");
    assert_eq!(db.get_stats().last_indexed, Some(20));
}

#[test]
fn mtimes_are_listed_in_store_order() {
    let mut db = VectorDB::open_in_memory();
    let mut a = record("a", "A");
    a.mtime = 7;
    let mut b = record("b", "B");
    b.mtime = -1;
    db.upsert_note(&a, &[1], 1);
    db.upsert_note(&b, &[1], 1);
    assert_eq!(db.get_all_mtimes(), vec![("a".to_string(), 7), ("b".to_string(), -1)]);
}

#[test]
fn meta_last_write_wins() {
    let mut db = VectorDB::open_in_memory();
    assert_eq!(db.get_meta("k"), None);
    db.set_meta("k", "1");
    db.set_meta("other", "x");
    assert_eq!(db.get_meta("k"), Some("1".to_string()));
    db.set_meta("k", "2");
    assert_eq!(db.get_meta("k"), Some("2".to_string()));
    assert_eq!(db.get_meta("other"), Some("x".to_string()));
    assert_eq!(db.get_meta(""), None);
    assert_eq!(db.meta_len(), 2);
    db.set_meta("", "");
    assert_eq!(db.get_meta(""), Some(String::new()));
}

#[test]
fn search_returns_the_best_first() {
    let mut db = VectorDB::open_in_memory();
    db.upsert_note(&record("east", "E"), &bits(&[1.0, 0.0]), 1);
    db.upsert_note(&record("north", "N"), &bits(&[0.0, 1.0]), 1);
    db.upsert_note(&record("west", "W"), &bits(&[-1.0, 0.0]), 1);
    db.upsert_note(&record("northeast", "NE"), &bits(&[1.0, 1.0]), 1);
    let hits = db.search(&bits(&[1.0, 0.1]), 10, &cosine);
    let ids: Vec<&str> = hits.iter().map(|h| h.0.id.as_str()).collect();
    assert_eq!(ids, vec!["east", "northeast", "north", "west"]);
    let scores = floats(&hits.iter().map(|h| h.1).collect::<Vec<u32>>());
    for w in scores.windows(2) {
        assert!(w[0] >= w[1]);
    }
    assert!((scores[0] - 0.995).abs() < 0.001);
    assert!(scores[3] < -0.99);
    for s in &scores {
        assert!(*s >= -1.0001 && *s <= 1.0001);
    }
    let top = db.search(&bits(&[1.0, 0.1]), 2, &cosine);
    assert_eq!(top.len(), 2);
    assert_eq!(top[0].0.id, "east");
    assert_eq!(top[1].0.id, "northeast");
    assert!(db.search(&bits(&[1.0, 0.1]), 0, &cosine).is_empty());
}

#[test]
fn search_keeps_ties_in_store_order() {
    let mut db = VectorDB::open_in_memory();
    db.upsert_note(&record("z", "Z"), &bits(&[2.0, 0.0]), 1);
    db.upsert_note(&record("a", "A"), &bits(&[1.0, 0.0]), 1);
    db.upsert_note(&record("m", "M"), &bits(&[5.0, 0.0]), 1);
    let hits = db.search(&bits(&[1.0, 0.0]), 3, &cosine);
    let ids: Vec<&str> = hits.iter().map(|h| h.0.id.as_str()).collect();
    assert_eq!(ids, vec!["z", "a", "m"]);
    // Positive and negative zero are the same score.
    let mut db = VectorDB::open_in_memory();
    db.upsert_note(&record("minus", "-"), &[0], 1);
    db.upsert_note(&record("plus", "+"), &[1], 1);
    let by_tag = |_: &[u32], stored: &[u32]| if stored[0] == 0 { 0x8000_0000 } else { 0 };
    let hits = db.search(&[], 2, &by_tag);
    assert_eq!(hits[0].0.id, "minus");
    assert_eq!(hits[1].0.id, "plus");
}

#[test]
fn search_with_mismatched_lengths_scores_zero() {
    let mut db = VectorDB::open_in_memory();
    db.upsert_note(&record("short", "S"), &bits(&[1.0]), 1);
    db.upsert_note(&record("fits", "F"), &bits(&[-1.0, 0.0]), 1);
    let hits = db.search(&bits(&[1.0, 0.0]), 5, &cosine);
    assert_eq!(hits[0].0.id, "short");
    assert_eq!(f32::from_bits(hits[0].1), 0.0);
    assert_eq!(hits[1].0.id, "fits");
    assert_eq!(f32::from_bits(hits[1].1), -1.0);
}

#[test]
fn search_puts_what_is_not_a_number_last() {
    let mut db = VectorDB::open_in_memory();
    db.upsert_note(&record("nan", "N"), &[0], 1);
    db.upsert_note(&record("low", "L"), &[1], 1);
    db.upsert_note(&record("high", "H"), &[2], 1);
    let kernel = |_: &[u32], stored: &[u32]| match stored[0] {
        0 => f32::NAN.to_bits(),
        1 => f32::NEG_INFINITY.to_bits(),
        _ => 0.5f32.to_bits(),
    };
    let hits = db.search(&[], 3, &kernel);
    let ids: Vec<&str> = hits.iter().map(|h| h.0.id.as_str()).collect();
    assert_eq!(ids, vec!["high", "low", "nan"]);
}

#[test]
fn top_hits_needs_one_score_for_each_entry() {
    let mut db = VectorDB::open_in_memory();
    db.upsert_note(&record("a", "A"), &[1], 1);
    db.upsert_note(&record("b", "B"), &[1], 1);
    assert!(db.top_hits(&[1.0f32.to_bits()], 5).is_empty());
    assert!(db.top_hits(&[0, 0, 0], 5).is_empty());
    let hits = db.top_hits(&bits(&[0.1, 0.9]), 5);
    assert_eq!(hits.len(), 2);
    assert_eq!(hits[0].0.id, "b");
    assert_eq!(hits[0].1, 0.9f32.to_bits());
    assert_eq!(db.score_all(&bits(&[1.0]), &cosine).len(), 2);
}

#[test]
fn rows_hold_tags_as_json_and_vectors_as_bytes() {
    let mut note = record("n", "N");
    note.tags = vec!["plain".to_string(), "with \"quote\"".to_string(), "유니코드".to_string()];
    let entry = StoreEntry { record: note, embedding: bits(&[1.0, -2.0]), indexed_at: 77 };
    let row = encode_entry(&entry).unwrap();
    assert_eq!(row.id, "n");
    assert_eq!(row.path, "Notes/n.md");
    assert_eq!(row.title, "N");
    assert_eq!(row.gist.as_deref(), Some("gist of n"));
    assert_eq!(row.tags, "[\"plain\",\"with \\\"quote\\\"\",\"유니코드\"]");
    assert_eq!(row.mtime, 1704067200);
    assert_eq!(row.indexed_at, 77);
    let mut want = 1.0f32.to_le_bytes().to_vec();
    want.extend_from_slice(&(-2.0f32).to_le_bytes());
    assert_eq!(row.embedding, want);

    let back = decode_row(&row);
    assert_eq!(back.record.id, entry.record.id);
    assert_eq!(back.record.tags, entry.record.tags);
    assert_eq!(back.record.gist, entry.record.gist);
    assert_eq!(back.record.status, entry.record.status);
    assert_eq!(back.embedding, entry.embedding);
    assert_eq!(back.indexed_at, 77);
}

#[test]
fn rows_with_no_tags_are_an_empty_array() {
    let mut note = record("n", "N");
    note.tags = Vec::new();
    let entry = StoreEntry { record: note, embedding: Vec::new(), indexed_at: 0 };
    let row = encode_entry(&entry).unwrap();
    assert_eq!(row.tags, "[]");
    assert!(row.embedding.is_empty());
    assert!(decode_row(&row).record.tags.is_empty());
}

fn row(id: &str, tags: &str, embedding: Vec<u8>) -> StoredNote {
    StoredNote {
        id: id.to_string(),
        path: format!("Notes/{}.md", id),
        title: id.to_uppercase(),
        gist: None,
        note_type: None,
        status: None,
        area: None,
        tags: tags.to_string(),
        mtime: 1,
        indexed_at: 2,
        embedding,
    }
}

#[test]
fn rows_with_bad_columns_are_read_leniently() {
    for tags in ["", "not json", "{\"a\":1}", "[1,2]", "[\"a\",", "null", "\"a\""] {
        let entry = decode_row(&row("x", tags, vec![1, 0, 0, 0, 9]));
        assert!(entry.record.tags.is_empty(), "{}", tags);
        assert_eq!(entry.embedding, vec![1]);
        assert_eq!(entry.record.title, "X");
    }
    let entry = decode_row(&row("x", " [ \"a\" , \"b\\n\" ] ", vec![]));
    assert_eq!(entry.record.tags, vec!["a", "b\n"]);
}

#[test]
fn a_store_survives_being_written_out_and_read_back() {
    let mut db = VectorDB::open_in_memory();
    db.upsert_note(&record("a", "A"), &bits(&[0.5, 0.25]), 10);
    db.upsert_note(&record("b", "B"), &bits(&[1.0]), 11);
    db.set_meta("indexed_count", "2");
    let rows = store_rows(&db).unwrap();
    let meta = store_meta(&db);
    assert_eq!(rows.len(), 2);
    assert_eq!(meta, vec![("indexed_count".to_string(), "2".to_string())]);

    let copy = load_store(&rows, &meta);
    assert_eq!(copy.len(), 2);
    assert_eq!(copy.get_note("a").unwrap().title, "A");
    assert_eq!(copy.get_note("a").unwrap().tags, vec!["test"]);
    assert_eq!(copy.get_embedding("a"), Some(bits(&[0.5, 0.25])));
    assert_eq!(copy.get_embedding("b"), Some(bits(&[1.0])));
    assert_eq!(copy.get_meta("indexed_count"), Some("2".to_string()));
    assert_eq!(copy.get_stats().last_indexed, Some(11));
    assert_eq!(copy.get_all_mtimes(), db.get_all_mtimes());
}

#[test]
fn loading_lets_a_later_row_replace_an_earlier_one() {
    let rows = vec![
        row("a", "[\"one\"]", vec![1, 0, 0, 0]),
        row("b", "[]", vec![]),
        row("a", "[\"two\"]", vec![2, 0, 0, 0]),
    ];
    let meta = vec![
        ("k".to_string(), "1".to_string()),
        ("k".to_string(), "2".to_string()),
    ];
    let db = load_store(&rows, &meta);
    assert_eq!(db.len(), 2);
    assert_eq!(db.get_note("a").unwrap().tags, vec!["two"]);
    assert_eq!(db.get_embedding("a"), Some(vec![2]));
    assert_eq!(db.entry_at(0).record.id, "a");
    assert_eq!(db.get_meta("k"), Some("2".to_string()));
    assert_eq!(db.meta_len(), 1);
    assert_eq!(db.meta_at(0), ("k".to_string(), "2".to_string()));
}

#[test]
fn top_hits_agree_with_a_stable_sort_of_the_numbers() {
    let mut x: u64 = 7;
    for round in 0..30 {
        let n = 1 + (round * 5) % 23;
        let mut db = VectorDB::open_in_memory();
        let mut scores: Vec<f32> = Vec::new();
        for i in 0..n {
            db.upsert_note(&record(&format!("n{}", i), "t"), &[i as u32], 1);
            x = x.wrapping_mul(6364136223846793005).wrapping_add(1442695040888963407);
            let pick = (x >> 40) % 9;
            let value = match pick {
                0 => 0.0,
                1 => -0.0,
                2 => 1.0,
                3 => -1.0,
                4 => 0.5,
                5 => f32::MIN_POSITIVE,
                6 => -f32::MIN_POSITIVE,
                _ => ((x >> 20) % 2001) as f32 / 1000.0 - 1.0,
            };
            scores.push(value);
        }
        for limit in [0usize, 1, 4, 50] {
            let mut want: Vec<usize> = (0..n).collect();
            want.sort_by(|a, b| {
                scores[*b].partial_cmp(&scores[*a]).unwrap_or(std::cmp::Ordering::Equal)
            });
            want.truncate(limit);
            let hits = db.top_hits(&bits(&scores), limit);
            let got: Vec<String> = hits.iter().map(|h| h.0.id.clone()).collect();
            let want_ids: Vec<String> = want.iter().map(|i| format!("n{}", i)).collect();
            assert_eq!(got, want_ids);
            for (hit, i) in hits.iter().zip(want.iter()) {
                assert_eq!(hit.1, scores[*i].to_bits());
            }
        }
    }
}
