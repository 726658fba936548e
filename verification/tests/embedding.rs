use vault_tools::embedding::{COPRIME_MODULI, MAX_TOKEN_LENGTH, NUM_MODULI};
use vault_tools::{tokenize, EmbeddingModel, SearchError, EMBEDDING_DIM};

/// Angles, mean pooling and normalisation: the floating-point half.
fn pool(moduli: &Vec<u64>, codes: &Vec<Vec<u64>>) -> Vec<u32> {
    let mut sum = vec![0.0f64; 2 * moduli.len()];
    for row in codes {
        for (i, r) in row.iter().enumerate() {
            let theta = 2.0 * std::f64::consts::PI * (*r as f64) / (moduli[i] as f64);
            sum[2 * i] += theta.sin();
            sum[2 * i + 1] += theta.cos();
        }
    }
    for v in sum.iter_mut() {
        *v /= codes.len() as f64;
    }
    let norm: f64 = sum.iter().map(|x| x * x).sum::<f64>().sqrt();
    sum.iter()
        .map(|x| if norm > 0.0 { (*x / norm) as f32 } else { *x as f32 })
        .map(|x| x.to_bits())
        .collect()
}

fn cosine_similarity(a: &[f32], b: &[f32]) -> f32 {
    if a.len() != b.len() {
        return 0.0;
    }
    let dot: f32 = a.iter().zip(b.iter()).map(|(x, y)| x * y).sum();
    let norm_a: f32 = a.iter().map(|x| x * x).sum::<f32>().sqrt();
    let norm_b: f32 = b.iter().map(|x| x * x).sum::<f32>().sqrt();
    if norm_a > 0.0 && norm_b > 0.0 {
        dot / (norm_a * norm_b)
    } else {
        0.0
    }
}

fn floats(bits: &[u32]) -> Vec<f32> {
    bits.iter().map(|b| f32::from_bits(*b)).collect()
}

#[test]
fn test_htp_basic() {
    let model = EmbeddingModel::new();

    let emb1 = model.embed("hello world", &pool).unwrap();
    let emb2 = model.embed("hello world", &pool).unwrap();
    let emb3 = model.embed("goodbye moon", &pool).unwrap();

    assert_eq!(emb1, emb2);
    assert_ne!(emb1, emb3);
    assert_eq!(emb1.len(), EMBEDDING_DIM);
}

#[test]
fn test_htp_similarity() {
    let model = EmbeddingModel::new();

    let emb_gpu1 = floats(&model.embed("GPU memory sharing", &pool).unwrap());
    let emb_gpu2 = floats(&model.embed("GPU 메모리 공유", &pool).unwrap());
    let emb_unrelated = floats(&model.embed("cooking recipes", &pool).unwrap());

    let sim_similar = cosine_similarity(&emb_gpu1, &emb_gpu2);
    let sim_different = cosine_similarity(&emb_gpu1, &emb_unrelated);

    println!("Similar: {}, Different: {}", sim_similar, sim_different);
}

#[test]
fn test_htp_deterministic() {
    let model1 = EmbeddingModel::new();
    let model2 = EmbeddingModel::new();

    let text = "This is a test sentence for HTP";
    let emb1 = model1.embed(text, &pool).unwrap();
    let emb2 = model2.embed(text, &pool).unwrap();

    assert_eq!(emb1, emb2);
}

#[test]
fn test_cosine_similarity() {
    let a = vec![1.0, 0.0, 0.0];
    let b = vec![1.0, 0.0, 0.0];
    assert!((cosine_similarity(&a, &b) - 1.0).abs() < 0.001);

    let c = vec![0.0, 1.0, 0.0];
    assert!(cosine_similarity(&a, &c).abs() < 0.001);

    let d = vec![-1.0, 0.0, 0.0];
    assert!((cosine_similarity(&a, &d) + 1.0).abs() < 0.001);
}

#[test]
fn test_korean_support() {
    let model = EmbeddingModel::new();

    let emb_ko = floats(&model.embed("한국어 테스트", &pool).unwrap());
    let emb_en = floats(&model.embed("Korean test", &pool).unwrap());

    assert_eq!(emb_ko.len(), EMBEDDING_DIM);
    assert_eq!(emb_en.len(), EMBEDDING_DIM);

    let norm_ko: f32 = emb_ko.iter().map(|x| x * x).sum::<f32>().sqrt();
    let norm_en: f32 = emb_en.iter().map(|x| x * x).sum::<f32>().sqrt();
    assert!((norm_ko - 1.0).abs() < 0.01);
    assert!((norm_en - 1.0).abs() < 0.01);
}

#[test]
fn load_ignores_the_path() {
    let model = EmbeddingModel::load("/no/such/file.onnx");
    assert!(model.is_ok());
    let a = model.unwrap().token_residues("abc");
    let b = EmbeddingModel::new().token_residues("abc");
    assert_eq!(a, b);
}

#[test]
fn empty_text_has_the_zero_vector() {
    let model = EmbeddingModel::new();
    for text in ["", "   ", "\t\n", "!!! ... ???", " , ; : "] {
        let v = model.embed(text, &pool).unwrap();
        assert_eq!(v, vec![0u32; 384]);
    }
}

#[test]
fn tokenize_splits_and_lowercases() {
    assert_eq!(tokenize("Hello, World!"), vec!["hello", "world"]);
    assert_eq!(tokenize("GPU-memory/sharing_methods"), vec!["gpu", "memory", "sharing", "methods"]);
    assert_eq!(tokenize("a\u{00A0}b\u{3000}c"), vec!["a", "b", "c"]);
    assert_eq!(tokenize("ÄÖÜ straße"), vec!["äöü", "straße"]);
    assert_eq!(tokenize("한국어 테스트"), vec!["한국어", "테스트"]);
    assert!(tokenize("").is_empty());
    assert!(tokenize(" \t.,;").is_empty());
    assert_eq!(tokenize("x"), vec!["x"]);
    assert_eq!(tokenize("don't"), vec!["don", "t"]);
}

#[test]
fn token_to_integer_folds_in_base_65536() {
    let model = EmbeddingModel::new();
    assert_eq!(model.token_to_integer(""), 0);
    assert_eq!(model.token_to_integer("a"), 97);
    assert_eq!(model.token_to_integer("ab"), 97 * 65536 + 98);
    assert_eq!(model.token_to_integer("abc"), (97 * 65536 + 98) * 65536 + 99);
    assert_eq!(
        model.token_to_integer("abcd"),
        ((97u64 * 65536 + 98) * 65536 + 99) * 65536 + 100
    );
    // Five code points: the first is shifted out of the word.
    assert_eq!(
        model.token_to_integer("zabcd"),
        ((97u64 * 65536 + 98) * 65536 + 99) * 65536 + 100
    );
    // A code point above 16 bits carries into the next digit.
    assert_eq!(model.token_to_integer("\u{1F600}"), 0x1F600);
    assert_eq!(model.token_to_integer("\u{1F600}a"), 0x1F600 * 65536 + 97);
}

#[test]
fn token_to_integer_reads_at_most_64_code_points() {
    let model = EmbeddingModel::new();
    assert_eq!(MAX_TOKEN_LENGTH, 64);
    let head: String = std::iter::repeat('x').take(60).collect();
    let cut = format!("{}abcd", head);
    let longer = format!("{}abcdefgh", head);
    assert_eq!(model.token_to_integer(&cut), model.token_to_integer("abcd"));
    assert_eq!(model.token_to_integer(&longer), model.token_to_integer(&cut));
    let mut want: u64 = 0;
    for c in longer.chars().take(64) {
        want = want.wrapping_mul(65536).wrapping_add(c as u64);
    }
    assert_eq!(model.token_to_integer(&longer), want);
}

#[test]
fn moduli_are_the_first_192_primes() {
    assert_eq!(NUM_MODULI, 192);
    assert_eq!(EMBEDDING_DIM, 2 * NUM_MODULI);
    let mut primes: Vec<u64> = Vec::new();
    let mut n: u64 = 2;
    while primes.len() < 192 {
        if primes.iter().all(|p| n % p != 0) {
            primes.push(n);
        }
        n += 1;
    }
    assert_eq!(COPRIME_MODULI.to_vec(), primes);
    assert_eq!(COPRIME_MODULI[0], 2);
    assert_eq!(COPRIME_MODULI[191], 1163);
}

#[test]
fn token_residues_reduce_the_word_by_each_modulus() {
    let model = EmbeddingModel::new();
    let n = model.token_to_integer("hello");
    let r = model.token_residues("hello");
    assert_eq!(r.len(), 192);
    for i in 0..192 {
        assert_eq!(r[i], n % COPRIME_MODULI[i]);
    }
    assert_eq!(model.token_residues("a")[0], 1);
    assert_eq!(model.token_residues("a")[1], 97 % 3);
    assert_eq!(model.token_residues("a")[24], 0);
}

#[test]
fn project_gives_one_row_for_each_token() {
    let model = EmbeddingModel::new();
    let codes = model.project("Hello, hello world");
    assert_eq!(codes.len(), 3);
    assert_eq!(codes[0], model.token_residues("hello"));
    assert_eq!(codes[0], codes[1]);
    assert_eq!(codes[2], model.token_residues("world"));
    assert!(model.project(" ... ").is_empty());
}

#[test]
fn embed_hands_the_kernel_the_table_and_the_codes() {
    let model = EmbeddingModel::new();
    let seen = std::cell::RefCell::new(Vec::new());
    let spy = |moduli: &Vec<u64>, codes: &Vec<Vec<u64>>| {
        seen.borrow_mut().push((moduli.clone(), codes.clone()));
        vec![7u32; 384]
    };
    let v = model.embed("Alpha beta", &spy).unwrap();
    assert_eq!(v, vec![7u32; 384]);
    let calls = seen.borrow();
    assert_eq!(calls.len(), 1);
    assert_eq!(calls[0].0, COPRIME_MODULI.to_vec());
    assert_eq!(calls[0].1, model.project("alpha BETA"));
}

#[test]
fn embed_does_not_ask_the_kernel_about_an_empty_text() {
    let model = EmbeddingModel::new();
    let calls = std::cell::Cell::new(0);
    let spy = |_: &Vec<u64>, _: &Vec<Vec<u64>>| {
        calls.set(calls.get() + 1);
        vec![1u32; 384]
    };
    assert_eq!(model.embed(" , ", &spy).unwrap(), vec![0u32; 384]);
    assert_eq!(calls.get(), 0);
}

#[test]
fn embed_rejects_a_vector_of_the_wrong_length() {
    let model = EmbeddingModel::new();
    let short = |_: &Vec<u64>, _: &Vec<Vec<u64>>| vec![0u32; 383];
    assert_eq!(model.embed("word", &short), Err(SearchError::Dimension(383)));
    let none = |_: &Vec<u64>, _: &Vec<Vec<u64>>| Vec::new();
    assert_eq!(model.embed("word", &none), Err(SearchError::Dimension(0)));
    let long = |_: &Vec<u64>, _: &Vec<Vec<u64>>| vec![0u32; 385];
    assert_eq!(model.embed("word", &long), Err(SearchError::Dimension(385)));
    assert_eq!(model.embed("", &short), Ok(vec![0u32; 384]));
}

#[test]
fn embed_batch_embeds_each_text_on_its_own() {
    let model = EmbeddingModel::new();
    let texts = ["hello world", "", "cooking recipes"];
    let batch = model.embed_batch(&texts, &pool).unwrap();
    assert_eq!(batch.len(), 3);
    for (text, v) in texts.iter().zip(batch.iter()) {
        assert_eq!(*v, model.embed(text, &pool).unwrap());
    }
    assert_eq!(batch[1], vec![0u32; 384]);
    assert_eq!(model.embed_batch(&[], &pool).unwrap(), Vec::<Vec<u32>>::new());
}

#[test]
fn embed_batch_stops_at_the_first_failure() {
    let model = EmbeddingModel::new();
    let by_tokens = |_: &Vec<u64>, codes: &Vec<Vec<u64>>| vec![0u32; 384 - (codes.len() - 1)];
    assert!(model.embed_batch(&["one", "", "two"], &by_tokens).is_ok());
    assert_eq!(
        model.embed_batch(&["one", "two words", "three words here"], &by_tokens),
        Err(SearchError::Dimension(383))
    );
}

#[test]
fn embeddings_of_texts_with_tokens_have_unit_length() {
    let model = EmbeddingModel::new();
    for text in ["a", "GPU memory sharing methods", "한국어", "x y z x y z", "1 2 3"] {
        let v = floats(&model.embed(text, &pool).unwrap());
        let norm: f32 = v.iter().map(|x| x * x).sum::<f32>().sqrt();
        assert!((norm - 1.0).abs() < 0.001, "{}: {}", text, norm);
    }
}

#[test]
fn cosine_identities_hold_of_embeddings() {
    let model = EmbeddingModel::new();
    let v = floats(&model.embed("semantic search", &pool).unwrap());
    let neg: Vec<f32> = v.iter().map(|x| -x).collect();
    assert!((cosine_similarity(&v, &v) - 1.0).abs() < 0.001);
    assert!((cosine_similarity(&v, &neg) + 1.0).abs() < 0.001);
    assert_eq!(cosine_similarity(&v, &v[..10]), 0.0);
    assert_eq!(cosine_similarity(&v, &vec![0.0; 384]), 0.0);
}

#[test]
fn the_default_model_is_the_model() {
    let a = EmbeddingModel::default();
    let b = EmbeddingModel::new();
    assert_eq!(a.project("some text here"), b.project("some text here"));
    assert_eq!(a.token_residues("x").len(), NUM_MODULI);
}
