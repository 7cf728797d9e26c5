//! Limit-of-detection scoring for sequencing variants: allele counting at a
//! pileup column, catalog (VCF) parsing, work chunking and the merge of
//! detectability annotations back into the catalog text.

pub mod bam;
pub mod lod;
pub mod merge;
pub mod text;
pub mod utils;
pub mod vcf;

use vstd::prelude::*;

verus! {

/// The errors that the library reports.
#[derive(Debug)]
pub enum VlodError {
    /// The score table is not well-formed tab-separated text.
    Csv(csv::Error),
    /// A catalog row or header, or a score-table row, could not be read.
    InvalidVariant(String),
}

/// The error type of the `csv` crate, carried through as it is.
#[verifier::external_type_specification]
#[verifier::external_body]
pub struct ExCsvError(csv::Error);

/// A variant as plain text and numbers.
pub struct VariantView {
    pub chrom: Seq<char>,
    pub pos: u32,
    pub ref_allele: Seq<char>,
    pub alt_allele: Seq<char>,
}

/// The error is `InvalidVariant` with message `msg`.
pub open spec fn is_invalid<T>(r: Result<T, VlodError>, msg: Seq<char>) -> bool {
    match r {
        Err(VlodError::InvalidVariant(m)) => m@ == msg,
        _ => false,
    }
}

/// A single-allele genomic variant: chromosome, 1-based position, reference
/// bases and one alternate allele.
#[derive(Debug, Clone, PartialEq, Eq, Hash)]
pub struct Variant {
    pub chrom: String,
    pub pos: u32,
    pub ref_allele: String,
    pub alt_allele: String,
}

impl View for Variant {
    type V = VariantView;

    open spec fn view(&self) -> VariantView {
        VariantView {
            chrom: self.chrom@,
            pos: self.pos,
            ref_allele: self.ref_allele@,
            alt_allele: self.alt_allele@,
        }
    }
}

impl DeepView for Variant {
    type V = VariantView;

    open spec fn deep_view(&self) -> VariantView {
        self@
    }
}

impl Variant {
    pub fn new(chrom: String, pos: u32, ref_allele: String, alt_allele: String) -> (r: Self)
        ensures
            r@ == (VariantView {
                chrom: chrom@,
                pos: pos,
                ref_allele: ref_allele@,
                alt_allele: alt_allele@,
            }),
    {
        Variant { chrom, pos, ref_allele, alt_allele }
    }
}

} // verus!
