//! Harmonic token projection: the integer half of the embedding.
//!
//! A text is cut into lowercase tokens; each token is folded into one
//! machine word; the word is reduced modulo each of a fixed table of primes.
//! The residues are the whole of what the embedding depends on. Turning them
//! into angles, pooling and normalising is floating-point work, done by a
//! kernel that the caller supplies; vectors come back as IEEE-754 single
//! precision bit patterns.
use vstd::prelude::*;
use vstd::arithmetic::div_mod::{lemma_add_mod_noop, lemma_mul_mod_noop_left};
use crate::error::SearchError;
use crate::text::{chars_of, split_words, string_views, unicode_lowercase, words};

verus! {

/// Number of components of an embedding vector: two per modulus.
pub const EMBEDDING_DIM: usize = 384;

/// Number of moduli.
pub const NUM_MODULI: usize = 192;

/// Tokens are cut to this many code points before they are folded.
pub const MAX_TOKEN_LENGTH: usize = 64;

/// The moduli: the first 192 primes.
pub const COPRIME_MODULI: [u64; 192] = [
    2, 3, 5, 7, 11, 13, 17, 19, 23, 29, 31, 37, 41, 43, 47, 53, 59, 61, 67, 71, 73, 79, 83, 89,
    97, 101, 103, 107, 109, 113, 127, 131, 137, 139, 149, 151, 157, 163, 167, 173, 179, 181,
    191, 193, 197, 199, 211, 223, 227, 229, 233, 239, 241, 251, 257, 263, 269, 271, 277, 281,
    283, 293, 307, 311, 313, 317, 331, 337, 347, 349, 353, 359, 367, 373, 379, 383, 389, 397,
    401, 409, 419, 421, 431, 433, 439, 443, 449, 457, 461, 463, 467, 479, 487, 491, 499, 503,
    509, 521, 523, 541, 547, 557, 563, 569, 571, 577, 587, 593, 599, 601, 607, 613, 617, 619,
    631, 641, 643, 647, 653, 659, 661, 673, 677, 683, 691, 701, 709, 719, 727, 733, 739, 743,
    751, 757, 761, 769, 773, 787, 797, 809, 811, 821, 823, 827, 829, 839, 853, 857, 859, 863,
    877, 881, 883, 887, 907, 911, 919, 929, 937, 941, 947, 953, 967, 971, 977, 983, 991, 997,
    1009, 1013, 1019, 1021, 1031, 1033, 1039, 1049, 1051, 1061, 1063, 1069, 1087, 1091, 1093,
    1097, 1103, 1109, 1117, 1123, 1129, 1151, 1153, 1163,
];

/// The moduli as a sequence.
pub open spec fn coprime_moduli() -> Seq<u64> {
    COPRIME_MODULI@
}

/// The tokens of `text`: its words, cut at whitespace and ASCII punctuation,
/// each in lowercase.
pub open spec fn tokens(text: Seq<char>) -> Seq<Seq<char>> {
    let w = words(text, true);
    Seq::new(w.len(), |i: int| unicode_lowercase(w[i]))
}

/// The code points of `s` read as the digits of a number in base 65536, most
/// significant first.
pub open spec fn codepoint_fold(s: Seq<char>) -> int
    decreases s.len(),
{
    if s.len() == 0 {
        0
    } else {
        codepoint_fold(s.drop_last()) * 65536 + s.last() as int
    }
}

/// The first [`MAX_TOKEN_LENGTH`] code points of `token`.
pub open spec fn truncated(token: Seq<char>) -> Seq<char> {
    if token.len() <= 64 {
        token
    } else {
        token.take(64)
    }
}

/// The machine word that stands for `token`: its truncated code points
/// folded in base 65536, modulo 2^64.
pub open spec fn token_integer(token: Seq<char>) -> int {
    codepoint_fold(truncated(token)) % 0x1_0000_0000_0000_0000
}

/// The residues of `n` modulo each of `moduli`.
pub open spec fn residues(n: int, moduli: Seq<u64>) -> Seq<u64> {
    Seq::new(moduli.len(), |i: int| (n % moduli[i] as int) as u64)
}

/// The residues of every token of `text`, token by token.
pub open spec fn harmonic_codes(text: Seq<char>) -> Seq<Seq<u64>> {
    let t = tokens(text);
    Seq::new(t.len(), |i: int| residues(token_integer(t[i]), coprime_moduli()))
}

/// The views of the vectors in `v`.
pub open spec fn code_views(v: Seq<Vec<u64>>) -> Seq<Seq<u64>> {
    Seq::new(v.len(), |i: int| v[i]@)
}

/// The all-zero embedding: [`EMBEDDING_DIM`] times the bit pattern of `0.0`.
pub open spec fn zero_embedding() -> Seq<u32> {
    Seq::new(384, |i: int| 0u32)
}

/// What the floating-point kernel is handed: the table of moduli and, for at
/// least one token, a residue below each modulus.
pub open spec fn kernel_input(moduli: Seq<u64>, codes: Seq<Seq<u64>>) -> bool {
    &&& moduli == coprime_moduli()
    &&& codes.len() > 0
    &&& forall|i: int, j: int|
        0 <= i < codes.len() && 0 <= j < moduli.len() ==> codes[i].len() == moduli.len()
            && #[trigger] codes[i][j] < moduli[j]
}

/// The kernel can be called on everything that [`kernel_input`] admits.
pub open spec fn kernel_ready<K: Fn(&Vec<u64>, &Vec<Vec<u64>>) -> Vec<u32>>(kernel: &K) -> bool {
    forall|moduli: &Vec<u64>, codes: &Vec<Vec<u64>>|
        kernel_input(moduli@, code_views(codes@)) ==> call_requires(*kernel, (moduli, codes))
}

/// The kernel is a function: whatever it returns is `f` of the moduli and the
/// residues it was handed.
pub open spec fn kernel_computes<K: Fn(&Vec<u64>, &Vec<Vec<u64>>) -> Vec<u32>>(
    kernel: &K,
    f: spec_fn(Seq<u64>, Seq<Seq<u64>>) -> Seq<u32>,
) -> bool {
    forall|moduli: &Vec<u64>, codes: &Vec<Vec<u64>>, out: Vec<u32>|
        call_ensures(*kernel, (moduli, codes), out) ==> out@ == f(moduli@, code_views(codes@))
}

/// The embedding of `text`, given the vector `pooled` that the kernel made
/// of its residues: the zero vector for a text without tokens, `pooled` if
/// it has the embedding dimension, and a failure otherwise.
pub open spec fn embed_outcome(text: Seq<char>, pooled: Seq<u32>) -> Result<Seq<u32>, SearchError> {
    if tokens(text).len() == 0 {
        Ok(zero_embedding())
    } else if pooled.len() == 384 {
        Ok(pooled)
    } else {
        Err(SearchError::Dimension(pooled.len() as usize))
    }
}

/// The view of an embedding result.
pub open spec fn embedding_view(r: Result<Vec<u32>, SearchError>) -> Result<Seq<u32>, SearchError> {
    match r {
        Ok(v) => Ok(v@),
        Err(e) => Err(e),
    }
}

/// `r` is an embedding of `text` under `kernel`: the kernel, asked about the
/// residues of the text's tokens, gave an answer of which `r` is the outcome.
/// For a text without tokens the kernel is not asked.
pub open spec fn embeds<K: Fn(&Vec<u64>, &Vec<Vec<u64>>) -> Vec<u32>>(
    kernel: &K,
    text: Seq<char>,
    r: Result<Seq<u32>, SearchError>,
) -> bool {
    if tokens(text).len() == 0 {
        r == Ok::<Seq<u32>, SearchError>(zero_embedding())
    } else {
        exists|moduli: &Vec<u64>, codes: &Vec<Vec<u64>>, out: Vec<u32>|
            moduli@ == coprime_moduli() && code_views(codes@) == harmonic_codes(text)
                && #[trigger] call_ensures(*kernel, (moduli, codes), out) && r == embed_outcome(
                text,
                out@,
            )
    }
}

/// `text` has an embedding under `kernel`.
pub open spec fn embeddable<K: Fn(&Vec<u64>, &Vec<Vec<u64>>) -> Vec<u32>>(
    kernel: &K,
    text: Seq<char>,
) -> bool {
    exists|v: Seq<u32>| #[trigger] embeds(kernel, text, Ok(v))
}

/// The embedding model. It holds the table of moduli and nothing else: no
/// weights, no vocabulary, no state.
pub struct EmbeddingModel {
    moduli: Vec<u64>,
}

impl EmbeddingModel {
    #[verifier::type_invariant]
    spec fn holds_table(self) -> bool {
        self.moduli@ == coprime_moduli()
    }

    /// The moduli that the model reduces by.
    pub closed spec fn table(&self) -> Seq<u64> {
        self.moduli@
    }

    /// Makes a model. The path is not read: the model needs no file, and
    /// making it never fails.
    pub fn load(_model_path: &str) -> (r: Result<Self, SearchError>)
        ensures
            r matches Ok(model) && model.table() == coprime_moduli(),
    {
        Ok(Self::new())
    }

    /// Makes a model over the table of moduli.
    pub fn new() -> (model: Self)
        ensures
            model.table() == coprime_moduli(),
    {
        let mut moduli: Vec<u64> = Vec::new();
        let mut i: usize = 0;
        while i < NUM_MODULI
            invariant
                i <= 192,
                moduli@ == coprime_moduli().take(i as int),
            decreases 192 - i,
        {
            moduli.push(COPRIME_MODULI[i]);
            assert(coprime_moduli().take(i + 1) == coprime_moduli().take(i as int).push(
                COPRIME_MODULI[i as int],
            ));
            i = i + 1;
        }
        assert(coprime_moduli().take(192) == coprime_moduli());
        EmbeddingModel { moduli }
    }

    /// Folds the first [`MAX_TOKEN_LENGTH`] code points of `token` into one
    /// word, in base 65536, wrapping on overflow.
    pub fn token_to_integer(&self, token: &str) -> (n: u64)
        ensures
            n == token_integer(token@),
    {
        let chars = chars_of(token);
        let len = if chars.len() <= MAX_TOKEN_LENGTH {
            chars.len()
        } else {
            MAX_TOKEN_LENGTH
        };
        let mut n: u64 = 0;
        let mut i: usize = 0;
        assert(truncated(token@) == chars@.take(len as int));
        while i < len
            invariant
                i <= len <= chars.len(),
                n == codepoint_fold(chars@.take(i as int)) % 0x1_0000_0000_0000_0000,
            decreases len - i,
        {
            let cp = code_point(chars[i]);
            proof {
                let prefix = chars@.take(i as int);
                let next = chars@.take(i + 1);
                assert(next.drop_last() == prefix);
                assert(next.last() == chars[i as int]);
                let f = codepoint_fold(prefix);
                let m = 0x1_0000_0000_0000_0000int;
                assert(codepoint_fold(next) == f * 65536 + cp);
                lemma_mul_mod_noop_left(f, 65536, m);
                lemma_add_mod_noop(f * 65536, cp as int, m);
                lemma_add_mod_noop(n * 65536, cp as int, m);
                assert((n * 65536 + cp) % m == (f * 65536 + cp) % m);
            }
            n = n.wrapping_mul(65536).wrapping_add(cp);
            i = i + 1;
        }
        n
    }

    /// The residues of the token's word modulo each modulus of the table.
    pub fn token_residues(&self, token: &str) -> (r: Vec<u64>)
        ensures
            r@ == residues(token_integer(token@), coprime_moduli()),
    {
        proof {
            use_type_invariant(self);
        }
        let n = self.token_to_integer(token);
        let mut r: Vec<u64> = Vec::new();
        let mut i: usize = 0;
        while i < self.moduli.len()
            invariant
                self.moduli@ == coprime_moduli(),
                i <= self.moduli.len(),
                r@ == residues(n as int, coprime_moduli()).take(i as int),
            decreases self.moduli.len() - i,
        {
            let m = self.moduli[i];
            assert(m == COPRIME_MODULI[i as int]);
            assert(m >= 2);
            r.push(n % m);
            assert(residues(n as int, coprime_moduli()).take(i + 1) == residues(
                n as int,
                coprime_moduli(),
            ).take(i as int).push(n % m));
            i = i + 1;
        }
        assert(residues(n as int, coprime_moduli()).take(192) == residues(
            n as int,
            coprime_moduli(),
        ));
        r
    }

    /// The residues of every token of `text`: one row per token, one residue
    /// per modulus.
    pub fn project(&self, text: &str) -> (codes: Vec<Vec<u64>>)
        ensures
            code_views(codes@) == harmonic_codes(text@),
    {
        let toks = tokenize(text);
        let mut codes: Vec<Vec<u64>> = Vec::new();
        let mut i: usize = 0;
        while i < toks.len()
            invariant
                i <= toks.len(),
                string_views(toks@) == tokens(text@),
                code_views(codes@) == harmonic_codes(text@).take(i as int),
            decreases toks.len() - i,
        {
            let row = self.token_residues(toks[i].as_str());
            proof {
                assert(string_views(toks@)[i as int] == toks[i as int]@);
                assert(code_views(codes@.push(row)) == code_views(codes@).push(row@));
                assert(harmonic_codes(text@).take(i + 1) == harmonic_codes(text@).take(
                    i as int,
                ).push(row@));
            }
            codes.push(row);
            i = i + 1;
        }
        assert(harmonic_codes(text@).take(toks.len() as int) == harmonic_codes(text@));
        codes
    }

    /// The embedding of `text`.
    ///
    /// A text without tokens has the zero vector. For any other text the
    /// kernel is handed the moduli and the residues of the tokens, and its
    /// answer is the embedding, provided it has [`EMBEDDING_DIM`]
    /// components.
    pub fn embed<K: Fn(&Vec<u64>, &Vec<Vec<u64>>) -> Vec<u32>>(&self, text: &str, kernel: &K) -> (r:
        Result<Vec<u32>, SearchError>)
        requires
            kernel_ready(kernel),
        ensures
            embeds(kernel, text@, embedding_view(r)),
            r matches Ok(v) ==> v.len() == EMBEDDING_DIM,
    {
        proof {
            use_type_invariant(self);
        }
        let codes = self.project(text);
        proof {
            assert(code_views(codes@).len() == codes.len());
            assert(harmonic_codes(text@).len() == tokens(text@).len());
        }
        if codes.len() == 0 {
            let mut zero: Vec<u32> = Vec::new();
            let mut i: usize = 0;
            while i < EMBEDDING_DIM
                invariant
                    i <= 384,
                    zero@ == zero_embedding().take(i as int),
                decreases 384 - i,
            {
                zero.push(0);
                assert(zero_embedding().take(i + 1) == zero_embedding().take(i as int).push(0u32));
                i = i + 1;
            }
            assert(zero_embedding().take(384) == zero_embedding());
            return Ok(zero);
        }
        proof {
            lemma_codes_are_kernel_input(text@);
        }
        let out = kernel(&self.moduli, &codes);
        if out.len() == EMBEDDING_DIM {
            Ok(out)
        } else {
            Err(SearchError::Dimension(out.len()))
        }
    }

    /// The embeddings of `texts`, one for each, in order. The first text
    /// that has none ends the batch with its failure.
    pub fn embed_batch<K: Fn(&Vec<u64>, &Vec<Vec<u64>>) -> Vec<u32>>(
        &self,
        texts: &[&str],
        kernel: &K,
    ) -> (r: Result<Vec<Vec<u32>>, SearchError>)
        requires
            kernel_ready(kernel),
        ensures
            match r {
                Ok(vs) => vs.len() == texts.len() && forall|i: int|
                    0 <= i < texts.len() ==> #[trigger] vs[i].len() == EMBEDDING_DIM && embeds(
                        kernel,
                        texts[i]@,
                        Ok(vs[i]@),
                    ),
                Err(e) => exists|i: int|
                    0 <= i < texts.len() && #[trigger] embeds(kernel, texts[i]@, Err(e)) && forall|
                        j: int,
                    |
                        0 <= j < i ==> embeddable(kernel, #[trigger] texts[j]@),
            },
    {
        let mut vs: Vec<Vec<u32>> = Vec::new();
        let mut i: usize = 0;
        while i < texts.len()
            invariant
                i <= texts.len(),
                vs.len() == i,
                kernel_ready(kernel),
                forall|j: int|
                    0 <= j < i ==> #[trigger] vs[j].len() == EMBEDDING_DIM && embeds(
                        kernel,
                        texts[j]@,
                        Ok(vs[j]@),
                    ),
            decreases texts.len() - i,
        {
            match self.embed(texts[i], kernel) {
                Ok(v) => {
                    vs.push(v);
                },
                Err(e) => {
                    proof {
                        assert(embeds(kernel, texts[i as int]@, Err(e)));
                        assert forall|j: int| 0 <= j < i implies embeddable(
                            kernel,
                            #[trigger] texts[j]@,
                        ) by {
                            assert(vs[j].len() == EMBEDDING_DIM);
                            assert(embeds(kernel, texts[j]@, Ok(vs[j]@)));
                        }
                    }
                    return Err(e);
                },
            }
            i = i + 1;
        }
        Ok(vs)
    }
}

/// Every residue of a text's tokens lies below its modulus.
pub proof fn lemma_codes_are_kernel_input(text: Seq<char>)
    requires
        tokens(text).len() > 0,
    ensures
        kernel_input(coprime_moduli(), harmonic_codes(text)),
{
    let codes = harmonic_codes(text);
    let moduli = coprime_moduli();
    assert forall|i: int, j: int| 0 <= i < codes.len() && 0 <= j < moduli.len() implies codes[i].len()
        == moduli.len() && #[trigger] codes[i][j] < moduli[j] by {
        let n = token_integer(tokens(text)[i]);
        assert(codes[i] == residues(n, moduli));
        assert(moduli[j] == COPRIME_MODULI[j]);
        assert(moduli[j] >= 2);
        assert(codes[i][j] == (n % moduli[j] as int) as u64);
    }
}

/// Embedding is deterministic: under a kernel that is a function, any two
/// embeddings of one text are the same vector, whichever model instance
/// made them.
pub proof fn lemma_embed_deterministic<K: Fn(&Vec<u64>, &Vec<Vec<u64>>) -> Vec<u32>>(
    kernel: &K,
    f: spec_fn(Seq<u64>, Seq<Seq<u64>>) -> Seq<u32>,
    text: Seq<char>,
    first: Result<Seq<u32>, SearchError>,
    second: Result<Seq<u32>, SearchError>,
)
    requires
        kernel_computes(kernel, f),
        embeds(kernel, text, first),
        embeds(kernel, text, second),
    ensures
        first == second,
        first == embed_outcome(text, f(coprime_moduli(), harmonic_codes(text))),
{
}

impl Default for EmbeddingModel {
    fn default() -> (model: Self)
        ensures
            model.table() == coprime_moduli(),
    {
        Self::new()
    }
}

/// The scalar value of `c`.
fn code_point(c: char) -> (n: u64)
    ensures
        n == c as int,
{
    c as u64
}

/// Cuts `text` into tokens: splits at whitespace and ASCII punctuation,
/// drops empty pieces, puts each piece in lowercase.
pub fn tokenize(text: &str) -> (out: Vec<String>)
    ensures
        string_views(out@) == tokens(text@),
{
    let chars = chars_of(text);
    let pieces = split_words(&chars, true);
    let mut out: Vec<String> = Vec::new();
    let mut i: usize = 0;
    while i < pieces.len()
        invariant
            i <= pieces.len(),
            string_views(pieces@) == words(text@, true),
            string_views(out@) == tokens(text@).take(i as int),
        decreases pieces.len() - i,
    {
        let lower = pieces[i].as_str().to_lowercase();
        proof {
            assert(string_views(pieces@)[i as int] == pieces[i as int]@);
            assert(string_views(out@.push(lower)) == string_views(out@).push(lower@));
            assert(tokens(text@).take(i + 1) == tokens(text@).take(i as int).push(lower@));
        }
        out.push(lower);
        i = i + 1;
    }
    assert(tokens(text@).take(pieces.len() as int) == tokens(text@));
    out
}

} // verus!
