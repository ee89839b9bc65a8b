//! Durable byte layout of an embedding: each component as four
//! little-endian bytes, stored beside its declared dimension.

use vstd::prelude::*;

use crate::vector_index::EmbeddingIndex;

verus! {

/// Byte `j` (0 = least significant) of a component.
pub open spec fn byte_of(x: u32, j: int) -> u8 {
    if j == 0 {
        (x & 0xff) as u8
    } else if j == 1 {
        ((x >> 8u32) & 0xff) as u8
    } else if j == 2 {
        ((x >> 16u32) & 0xff) as u8
    } else {
        ((x >> 24u32) & 0xff) as u8
    }
}

/// The little-endian layout of a vector: four bytes per component.
pub open spec fn blob_of(v: Seq<u32>) -> Seq<u8> {
    Seq::new(4 * v.len(), |k: int| byte_of(v[k / 4], k % 4))
}

/// The component encoded by the four bytes starting at `4 * i`.
pub open spec fn word_at(b: Seq<u8>, i: int) -> u32 {
    (b[4 * i] as u32) | ((b[4 * i + 1] as u32) << 8u32) | ((b[4 * i + 2] as u32) << 16u32) | ((b[4
        * i + 3] as u32) << 24u32)
}

/// The vector decoded from a blob with declared dimension `dim`: one
/// component per complete group of four bytes, at most `dim` of them.
pub open spec fn vector_of(b: Seq<u8>, dim: nat) -> Seq<u32> {
    let n = if dim < b.len() / 4 {
        dim
    } else {
        b.len() / 4
    };
    Seq::new(n, |i: int| word_at(b, i))
}

proof fn lemma_word_bytes(x: u32)
    ensures
        ((x & 0xff) as u8 as u32) | ((((x >> 8u32) & 0xff) as u8 as u32) << 8u32) | ((((x >> 16u32)
            & 0xff) as u8 as u32) << 16u32) | ((((x >> 24u32) & 0xff) as u8 as u32) << 24u32) == x,
{
    let b0 = x & 0xff;
    let b1 = (x >> 8u32) & 0xff;
    let b2 = (x >> 16u32) & 0xff;
    let b3 = (x >> 24u32) & 0xff;
    assert(b0 < 256 && b1 < 256 && b2 < 256 && b3 < 256) by (bit_vector)
        requires
            b0 == x & 0xff,
            b1 == (x >> 8u32) & 0xff,
            b2 == (x >> 16u32) & 0xff,
            b3 == (x >> 24u32) & 0xff,
    ;
    assert(b0 as u8 as u32 == b0);
    assert(b1 as u8 as u32 == b1);
    assert(b2 as u8 as u32 == b2);
    assert(b3 as u8 as u32 == b3);
    assert(b0 | (b1 << 8u32) | (b2 << 16u32) | (b3 << 24u32) == x) by (bit_vector)
        requires
            b0 == x & 0xff,
            b1 == (x >> 8u32) & 0xff,
            b2 == (x >> 16u32) & 0xff,
            b3 == (x >> 24u32) & 0xff,
    ;
}

/// Decoding the layout of a vector with its own length as dimension gives
/// the vector back, bit for bit.
pub proof fn lemma_blob_round_trip(v: Seq<u32>)
    ensures
        vector_of(blob_of(v), v.len()) == v,
{
    let b = blob_of(v);
    assert(b.len() / 4 == v.len());
    assert forall|i: int| 0 <= i < v.len() implies #[trigger] word_at(b, i) == v[i] by {
        assert((4 * i) / 4 == i && (4 * i) % 4 == 0);
        assert((4 * i + 1) / 4 == i && (4 * i + 1) % 4 == 1);
        assert((4 * i + 2) / 4 == i && (4 * i + 2) % 4 == 2);
        assert((4 * i + 3) / 4 == i && (4 * i + 3) % 4 == 3);
        lemma_word_bytes(v[i]);
    }
    assert(vector_of(b, v.len()) =~= v);
}

/// Encodes a vector as little-endian bytes, four per component.
pub fn embedding_to_blob(embedding: &[u32]) -> (r: Vec<u8>)
    requires
        4 * embedding@.len() <= usize::MAX,
    ensures
        r@ == blob_of(embedding@),
{
    let mut bytes: Vec<u8> = Vec::new();
    let mut i: usize = 0;
    while i < embedding.len()
        invariant
            4 * embedding@.len() <= usize::MAX,
            0 <= i <= embedding@.len(),
            bytes@.len() == 4 * i,
            forall|k: int| 0 <= k < 4 * i ==> #[trigger] bytes@[k] == byte_of(embedding@[k / 4], k % 4),
        decreases embedding@.len() - i,
    {
        let x = embedding[i];
        bytes.push((x & 0xff) as u8);
        bytes.push(((x >> 8u32) & 0xff) as u8);
        bytes.push(((x >> 16u32) & 0xff) as u8);
        bytes.push(((x >> 24u32) & 0xff) as u8);
        proof {
            assert forall|k: int| 4 * i <= k < 4 * i + 4 implies #[trigger] bytes@[k] == byte_of(
                embedding@[k / 4],
                k % 4,
            ) by {
                assert(k / 4 == i);
            }
        }
        i = i + 1;
    }
    proof {
        assert(bytes@ =~= blob_of(embedding@));
    }
    bytes
}

/// Decodes up to `dim` components from a blob, one per complete group of
/// four little-endian bytes.
pub fn blob_to_embedding(blob: &[u8], dim: usize) -> (r: Vec<u32>)
    ensures
        r@ == vector_of(blob@, dim as nat),
{
    let mut out: Vec<u32> = Vec::new();
    let blen = blob.len();
    let groups = blen / 4;
    let n = if dim < groups {
        dim
    } else {
        groups
    };
    let mut i: usize = 0;
    while i < n
        invariant
            blen == blob@.len(),
            n <= blob@.len() / 4,
            n == if dim < blob@.len() / 4 { dim as nat } else { blob@.len() / 4 },
            0 <= i <= n,
            out@ == vector_of(blob@, dim as nat).take(i as int),
        decreases n - i,
    {
        let start = 4 * i;
        let w = (blob[start] as u32) | ((blob[start + 1] as u32) << 8u32) | ((blob[start + 2] as u32)
            << 16u32) | ((blob[start + 3] as u32) << 24u32);
        out.push(w);
        proof {
            assert(out@ =~= vector_of(blob@, dim as nat).take(i + 1));
        }
        i = i + 1;
    }
    proof {
        assert(out@ =~= vector_of(blob@, dim as nat));
    }
    out
}

/// One durably stored embedding: the item, its byte layout, and the
/// dimension declared when it was written.
#[derive(Clone, Debug)]
pub struct StoredEmbedding {
    pub item_id: i64,
    pub blob: Vec<u8>,
    pub dim: i32,
}

/// The index after replaying stored rows in order: a row whose decoded
/// vector has the index's dimension is upserted, any other row is skipped.
pub open spec fn replayed(m: crate::vector_index::IndexModel, rows: Seq<StoredEmbedding>) -> crate::vector_index::IndexModel
    decreases rows.len(),
{
    if rows.len() == 0 {
        m
    } else {
        let before = replayed(m, rows.drop_last());
        let row = rows.last();
        let v = vector_of(row.blob@, row.dim as usize as nat);
        if v.len() == before.dim {
            before.upserted(row.item_id, v)
        } else {
            before
        }
    }
}

/// Replays durably stored embeddings into the index, skipping rows whose
/// vector does not have the index's dimension. Returns the number of rows
/// read, skipped ones included.
pub fn load_embeddings_into_index(rows: &Vec<StoredEmbedding>, index: &mut EmbeddingIndex) -> (r: usize)
    requires
        old(index).wf(),
    ensures
        final(index).wf(),
        final(index)@ == replayed(old(index)@, rows@),
        r == rows@.len(),
{
    let ghost m0 = index@;
    let dim = index.dim();
    let mut i: usize = 0;
    while i < rows.len()
        invariant
            index.wf(),
            dim == index@.dim,
            0 <= i <= rows@.len(),
            index@ == replayed(m0, rows@.take(i as int)),
        decreases rows@.len() - i,
    {
        let row = &rows[i];
        let embedding = blob_to_embedding(row.blob.as_slice(), row.dim as usize);
        if embedding.len() == dim {
            index.upsert(row.item_id, embedding.as_slice());
        }
        proof {
            assert(rows@.take(i + 1).drop_last() =~= rows@.take(i as int));
            assert(rows@.take(i + 1).last() == rows@[i as int]);
        }
        i = i + 1;
    }
    proof {
        assert(rows@.take(rows@.len() as int) =~= rows@);
    }
    rows.len()
}

} // verus!
