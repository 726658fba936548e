//! The stored form of an embedding vector: four little-endian bytes for each
//! component, one component after the other.
use vstd::prelude::*;

verus! {

/// The four bytes of `x`, least significant first.
pub open spec fn le_bytes(x: u32) -> Seq<u8> {
    seq![
        (x % 256) as u8,
        (x / 256 % 256) as u8,
        (x / 65536 % 256) as u8,
        (x / 16777216) as u8,
    ]
}

/// The word whose bytes, least significant first, are `b0`, `b1`, `b2`, `b3`.
pub open spec fn le_word(b0: u8, b1: u8, b2: u8, b3: u8) -> u32 {
    (b0 + b1 * 256 + b2 * 65536 + b3 * 16777216) as u32
}

/// The stored form of `v`: byte `k` is byte `k % 4` of component `k / 4`.
pub open spec fn blob_of(v: Seq<u32>) -> Seq<u8> {
    Seq::new(4 * v.len(), |k: int| le_bytes(v[k / 4])[k % 4])
}

/// The vector that `blob` stores: one component for each whole group of four
/// bytes. Up to three bytes that follow the last whole group are not read.
pub open spec fn embedding_of(blob: Seq<u8>) -> Seq<u32> {
    Seq::new(
        blob.len() / 4,
        |i: int| le_word(blob[4 * i], blob[4 * i + 1], blob[4 * i + 2], blob[4 * i + 3]),
    )
}

/// Reading the bytes of a word gives the word back.
pub proof fn lemma_word_roundtrip(x: u32)
    ensures
        le_word(le_bytes(x)[0], le_bytes(x)[1], le_bytes(x)[2], le_bytes(x)[3]) == x,
{
}

/// Storing a vector and reading it back gives the same vector, whatever bit
/// patterns its components hold.
pub proof fn lemma_blob_roundtrip(v: Seq<u32>)
    ensures
        embedding_of(blob_of(v)) == v,
        blob_of(v).len() == 4 * v.len(),
{
    let blob = blob_of(v);
    assert(blob.len() / 4 == v.len());
    assert forall|i: int| 0 <= i < v.len() implies embedding_of(blob)[i] == v[i] by {
        assert((4 * i) / 4 == i && (4 * i) % 4 == 0);
        assert((4 * i + 1) / 4 == i && (4 * i + 1) % 4 == 1);
        assert((4 * i + 2) / 4 == i && (4 * i + 2) % 4 == 2);
        assert((4 * i + 3) / 4 == i && (4 * i + 3) % 4 == 3);
        lemma_word_roundtrip(v[i]);
    }
    assert(embedding_of(blob) =~= v);
}

/// The bytes of the word made of four bytes are those four bytes.
pub proof fn lemma_bytes_roundtrip(b0: u8, b1: u8, b2: u8, b3: u8)
    ensures
        le_bytes(le_word(b0, b1, b2, b3)) == seq![b0, b1, b2, b3],
{
    let x = le_word(b0, b1, b2, b3);
    assert(x == b0 + b1 * 256 + b2 * 65536 + b3 * 16777216);
    assert(x % 256 == b0);
    assert(x / 256 == b1 + b2 * 256 + b3 * 65536);
    assert(x / 65536 == b2 + b3 * 256);
    assert(x / 16777216 == b3);
    assert(le_bytes(x) =~= seq![b0, b1, b2, b3]);
}

/// A blob of whole groups is what its vector is stored as.
pub proof fn lemma_embedding_roundtrip(blob: Seq<u8>)
    requires
        blob.len() % 4 == 0,
    ensures
        blob_of(embedding_of(blob)) == blob,
{
    let v = embedding_of(blob);
    assert(blob_of(v).len() == blob.len());
    assert forall|k: int| 0 <= k < blob.len() implies blob_of(v)[k] == blob[k] by {
        let i = k / 4;
        let r = k % 4;
        assert(k == 4 * i + r);
        assert(0 <= i < v.len());
        lemma_bytes_roundtrip(blob[4 * i], blob[4 * i + 1], blob[4 * i + 2], blob[4 * i + 3]);
        assert(le_bytes(v[i]) == seq![blob[4 * i], blob[4 * i + 1], blob[4 * i + 2], blob[4 * i + 3]]);
        assert(blob_of(v)[k] == le_bytes(v[i])[r]);
    }
    assert(blob_of(v) =~= blob);
}

/// Writes `embedding` as bytes: each component as four little-endian bytes.
pub fn embedding_to_blob(embedding: &[u32]) -> (blob: Vec<u8>)
    ensures
        blob@ == blob_of(embedding@),
{
    let mut blob: Vec<u8> = Vec::new();
    let mut i: usize = 0;
    while i < embedding.len()
        invariant
            i <= embedding.len(),
            blob@ == blob_of(embedding@.take(i as int)),
        decreases embedding.len() - i,
    {
        let x = embedding[i];
        let ghost before = blob@;
        blob.push((x % 256) as u8);
        blob.push((x / 256 % 256) as u8);
        blob.push((x / 65536 % 256) as u8);
        blob.push((x / 16777216) as u8);
        proof {
            let prev = embedding@.take(i as int);
            let next = embedding@.take(i + 1);
            assert(next == prev.push(x));
            assert(blob@ == before + le_bytes(x));
            assert forall|k: int| 0 <= k < 4 * (i + 1) implies blob@[k] == blob_of(next)[k] by {
                if k < 4 * i {
                    assert(next[k / 4] == prev[k / 4]);
                } else {
                    assert(k / 4 == i);
                    assert(blob@[k] == le_bytes(x)[k - 4 * i]);
                }
            }
            assert(blob@ =~= blob_of(next));
        }
        i = i + 1;
    }
    assert(embedding@.take(embedding.len() as int) == embedding@);
    blob
}

/// Reads a vector from bytes: one component from each whole group of four.
/// Bytes after the last whole group are dropped without complaint.
pub fn blob_to_embedding(blob: &[u8]) -> (embedding: Vec<u32>)
    ensures
        embedding@ == embedding_of(blob@),
{
    let count = blob.len() / 4;
    let mut embedding: Vec<u32> = Vec::new();
    let mut i: usize = 0;
    while i < count
        invariant
            count == blob.len() / 4,
            i <= count,
            embedding@ == embedding_of(blob@).take(i as int),
        decreases count - i,
    {
        let b0 = blob[4 * i] as u32;
        let b1 = blob[4 * i + 1] as u32;
        let b2 = blob[4 * i + 2] as u32;
        let b3 = blob[4 * i + 3] as u32;
        let x: u32 = b0 + b1 * 256 + b2 * 65536 + b3 * 16777216;
        embedding.push(x);
        assert(embedding_of(blob@).take(i + 1) == embedding_of(blob@).take(i as int).push(x));
        i = i + 1;
    }
    assert(embedding_of(blob@).take(count as int) == embedding_of(blob@));
    embedding
}

} // verus!
