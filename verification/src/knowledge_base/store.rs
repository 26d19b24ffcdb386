//! How records are written down.

use vstd::prelude::*;

use crate::knowledge_base::DocStatus;
use crate::text::{concat3, decimal_of, str_eq};
use crate::text::decimal;

verus! {

/// The word for a status.
pub open spec fn status_word(s: DocStatus) -> Seq<char> {
    match s {
        DocStatus::Indexing => "indexing"@,
        DocStatus::Ready => "ready"@,
        DocStatus::Error => "error"@,
    }
}

/// The word for a status.
pub fn status_str(s: DocStatus) -> (r: &'static str)
    ensures
        r@ == status_word(s),
{
    match s {
        DocStatus::Indexing => "indexing",
        DocStatus::Ready => "ready",
        DocStatus::Error => "error",
    }
}

/// The status of a word; what is no known word means that a document is being
/// indexed.
pub open spec fn status_of(s: Seq<char>) -> DocStatus {
    if s == "ready"@ {
        DocStatus::Ready
    } else if s == "error"@ {
        DocStatus::Error
    } else {
        DocStatus::Indexing
    }
}

/// The status of a word.
pub fn status_from(s: &str) -> (r: DocStatus)
    ensures
        r == status_of(s@),
{
    if str_eq(s, "ready") {
        DocStatus::Ready
    } else if str_eq(s, "error") {
        DocStatus::Error
    } else {
        DocStatus::Indexing
    }
}

/// A status that was written down is read back.
pub proof fn law_statuses_come_back(s: DocStatus)
    ensures
        status_of(status_word(s)) == s,
{
    reveal_strlit("indexing");
    reveal_strlit("ready");
    reveal_strlit("error");
    assert("indexing"@.len() == 8 && "ready"@.len() == 5 && "error"@.len() == 5);
    assert("ready"@[0] != "error"@[0]);
}

/// The four bytes of a number, the lowest first.
pub open spec fn le_bytes(n: u32) -> Seq<u8> {
    seq![
        (n % 256) as u8,
        (n / 256 % 256) as u8,
        (n / 65536 % 256) as u8,
        (n / 16777216) as u8,
    ]
}

/// The numbers as bytes, one after the other.
pub open spec fn blob_of(v: Seq<u32>) -> Seq<u8>
    decreases v.len(),
{
    if v.len() == 0 {
        Seq::empty()
    } else {
        blob_of(v.drop_last()) + le_bytes(v.last())
    }
}

/// The bytes in which a vector is kept. The numbers are the bits of its
/// single-precision components.
pub fn embedding_to_blob(v: &[u32]) -> (r: Vec<u8>)
    ensures
        r@ == blob_of(v@),
{
    let mut out: Vec<u8> = Vec::new();
    let mut i: usize = 0;
    assert(v@.take(0) =~= Seq::<u32>::empty());
    while i < v.len()
        invariant
            i <= v@.len(),
            out@ == blob_of(v@.take(i as int)),
        decreases v@.len() - i,
    {
        assert(v@.take(i + 1).drop_last() =~= v@.take(i as int));
        let n: u32 = v[i];
        let ghost before = out@;
        out.push((n % 256) as u8);
        out.push((n / 256 % 256) as u8);
        out.push((n / 65536 % 256) as u8);
        out.push((n / 16777216) as u8);
        assert(out@ =~= before + le_bytes(n));
        i += 1;
    }
    assert(v@.take(v@.len() as int) =~= v@);
    out
}

/// The number of four bytes, the lowest first.
pub open spec fn le_number(b: Seq<u8>) -> int {
    b[0] + 256 * b[1] + 65536 * b[2] + 16777216 * b[3]
}

/// Four bytes are kept for each component, and they give it back.
pub proof fn law_vectors_come_back(v: Seq<u32>, i: int)
    requires
        0 <= i < v.len(),
    ensures
        blob_of(v).len() == 4 * v.len(),
        le_number(blob_of(v).subrange(4 * i, 4 * i + 4)) == v[i],
    decreases v.len(),
{
    lemma_blob_len(v);
    lemma_blob_len(v.drop_last());
    let start = blob_of(v.drop_last());
    if i < v.len() - 1 {
        law_vectors_come_back(v.drop_last(), i);
        assert(blob_of(v).subrange(4 * i, 4 * i + 4) =~= start.subrange(4 * i, 4 * i + 4));
    } else {
        assert(blob_of(v).subrange(4 * i, 4 * i + 4) =~= le_bytes(v[i]));
        let n = v[i];
        assert(n % 256 + 256 * (n / 256 % 256) + 65536 * (n / 65536 % 256) + 16777216 * (n
            / 16777216) == n);
    }
}

proof fn lemma_blob_len(v: Seq<u32>)
    ensures
        blob_of(v).len() == 4 * v.len(),
    decreases v.len(),
{
    if v.len() > 0 {
        lemma_blob_len(v.drop_last());
    }
}

/// The statement that makes the table of vectors of a dimension.
pub fn vec_table_statement(dim: usize) -> (r: String)
    ensures
        r@ == "CREATE VIRTUAL TABLE IF NOT EXISTS vec_chunks USING vec0(embedding float["@ + decimal(
            dim as nat,
        ) + "] distance_metric=cosine);"@,
{
    let n = decimal_of(dim as u64);
    concat3(
        "CREATE VIRTUAL TABLE IF NOT EXISTS vec_chunks USING vec0(embedding float[",
        n.as_str(),
        "] distance_metric=cosine);",
    )
}

} // verus!
