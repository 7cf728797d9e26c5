//! Decomposition of the variant list for parallel scoring.

use crate::text::{decimal, decimal_string};
use crate::utils::{
    chunk_count, chunk_end, chunk_pieces, chunk_start, chunk_work, lemma_chunk_step, vec_views,
};
use crate::{Variant, VariantView};
use vstd::string::StringExecFns;
use vstd::prelude::*;

verus! {

/// Splits the variants (or any items) into the chunks that workers take,
/// as `chunk_work` does.
pub fn chunkify<T: Clone>(items: Vec<T>, num_chunks: usize) -> (r: Vec<Vec<T>>)
    ensures
        r@.len() == chunk_count(items@.len(), num_chunks as nat),
        vec_views(r@) == chunk_pieces(items@, num_chunks as nat),
        forall|i: int, j: int|
            0 <= i < r@.len() && 0 <= j < r@.len() ==> #[trigger] r@[i]@.len() <= #[trigger] r@[j]@.len()
                + 1,
{
    chunk_work(items, num_chunks)
}

/// The header line of the score table.
pub open spec fn score_header() -> Seq<char> {
    "Chrom\tPos\tRef\tAlt\tDetectability_Score\tDetectability_Condition\tCoverage\tVariant_Reads"@
}

pub fn score_table_header() -> (r: String)
    ensures
        r@ == score_header(),
{
    "Chrom\tPos\tRef\tAlt\tDetectability_Score\tDetectability_Condition\tCoverage\tVariant_Reads".to_owned()
}

/// A row of the score table: the variant, its score text, its condition,
/// its coverage and its variant reads, tab-separated.
pub open spec fn score_row(
    v: VariantView,
    score: Seq<char>,
    condition: Seq<char>,
    coverage: u32,
    variant_reads: u32,
) -> Seq<char> {
    v.chrom + "\t"@ + decimal(v.pos as nat) + "\t"@ + v.ref_allele + "\t"@ + v.alt_allele + "\t"@
        + score + "\t"@ + condition + "\t"@ + decimal(coverage as nat) + "\t"@ + decimal(
        variant_reads as nat,
    )
}

pub fn score_table_row(
    variant: &Variant,
    score: &str,
    condition: &str,
    coverage: u32,
    variant_reads: u32,
) -> (r: String)
    ensures
        r@ == score_row(variant@, score@, condition@, coverage, variant_reads),
{
    let mut line = variant.chrom.clone();
    line.append("\t");
    line.append(decimal_string(variant.pos as u128).as_str());
    line.append("\t");
    line.append(variant.ref_allele.as_str());
    line.append("\t");
    line.append(variant.alt_allele.as_str());
    line.append("\t");
    line.append(score);
    line.append("\t");
    line.append(condition);
    line.append("\t");
    line.append(decimal_string(coverage as u128).as_str());
    line.append("\t");
    line.append(decimal_string(variant_reads as u128).as_str());
    line
}

/// The sequences one after another.
pub open spec fn flatten_seqs<T>(s: Seq<Seq<T>>) -> Seq<T>
    decreases s.len(),
{
    if s.len() == 0 {
        Seq::empty()
    } else {
        s[0] + flatten_seqs(s.drop_first())
    }
}

/// Joins per-chunk results in chunk order, each chunk's items in their own
/// order.
pub fn concat_chunks<T>(chunks: Vec<Vec<T>>) -> (r: Vec<T>)
    ensures
        r@ == flatten_seqs(vec_views(chunks@)),
{
    let ghost all = vec_views(chunks@);
    let mut rest = chunks;
    let mut out: Vec<T> = Vec::new();
    let ghost mut done: int = 0;
    assert(vec_views(rest@) =~= all.subrange(0, all.len() as int));
    while rest.len() > 0
        invariant
            0 <= done <= all.len(),
            vec_views(rest@) == all.subrange(done, all.len() as int),
            out@ + flatten_seqs(vec_views(rest@)) == flatten_seqs(all),
        decreases rest.len(),
    {
        let ghost before = vec_views(rest@);
        let mut first = rest.remove(0);
        assert(vec_views(rest@) =~= before.drop_first());
        let ghost o = out@;
        let ghost f = first@;
        out.append(&mut first);
        assert(out@ == o + f);
        assert(out@ + flatten_seqs(vec_views(rest@)) =~= o + flatten_seqs(before));
        proof {
            done = done + 1;
        }
        assert(vec_views(rest@) =~= all.subrange(done, all.len() as int));
    }
    assert(out@ =~= out@ + flatten_seqs(vec_views(rest@)));
    out
}

proof fn lemma_chunk_bounds(n: nat, k: nat, i: int)
    requires
        0 <= i < chunk_count(n, k),
    ensures
        0 <= chunk_start(n, k, i) <= chunk_end(n, k, i) <= n,
        i == 0 ==> chunk_start(n, k, i) == 0,
        i == chunk_count(n, k) - 1 ==> chunk_end(n, k, i) == n,
{
    lemma_chunk_step(n, k, i);
}

proof fn lemma_pieces_tail<T>(items: Seq<T>, k: nat, m: int)
    requires
        0 <= m < chunk_count(items.len(), k),
    ensures
        flatten_seqs(chunk_pieces(items, k).subrange(m, chunk_count(items.len(), k) as int))
            == items.subrange(chunk_start(items.len(), k, m), items.len() as int),
    decreases chunk_count(items.len(), k) - m,
{
    let n = items.len();
    let c = chunk_count(n, k);
    let p = chunk_pieces(items, k);
    let s = p.subrange(m, c as int);
    lemma_chunk_bounds(n, k, m);
    assert(s[0] == items.subrange(chunk_start(n, k, m), chunk_end(n, k, m)));
    if m == c - 1 {
        assert(s.drop_first() =~= Seq::<Seq<T>>::empty());
        assert(flatten_seqs(s.drop_first()) =~= Seq::<T>::empty());
        assert(chunk_end(n, k, m) == n);
        assert(flatten_seqs(s) =~= items.subrange(chunk_start(n, k, m), n as int));
    } else {
        lemma_pieces_tail(items, k, m + 1);
        lemma_chunk_bounds(n, k, m + 1);
        assert(s.drop_first() =~= p.subrange(m + 1, c as int));
        assert(flatten_seqs(s) =~= items.subrange(chunk_start(n, k, m), n as int));
    }
}

/// Splitting into chunks loses and reorders nothing: the chunks, joined in
/// chunk order, are the items.
pub proof fn lemma_chunks_concat<T>(items: Seq<T>, k: nat)
    ensures
        flatten_seqs(chunk_pieces(items, k)) == items,
{
    let n = items.len();
    let c = chunk_count(n, k);
    lemma_pieces_tail(items, k, 0);
    lemma_chunk_bounds(n, k, 0);
    assert(chunk_pieces(items, k).subrange(0, c as int) =~= chunk_pieces(items, k));
    assert(items.subrange(0, n as int) =~= items);
}

} // verus!
