//! Exact values of the weights: an inverse document frequency is
//! `log10(document_count / (document_frequency + 1))`, held as its two
//! integers, and a score is a term count times such a weight.
use vstd::prelude::*;

verus! {

/// Why an operation of the scoring engine was rejected.
#[derive(Clone, Copy, Debug, PartialEq, Eq, Structural)]
pub enum TfidfError {
    /// The corpus to fit holds no document.
    EmptyCorpus,
    /// A query came before the index was fitted.
    NotFitted,
}

/// The inverse document frequency `log10(document_count / (document_frequency + 1))`.
#[derive(Clone, Copy, Debug, PartialEq, Eq, Structural)]
pub struct Idf {
    pub document_count: usize,
    pub document_frequency: usize,
}

/// The score `tf * log10(idf.document_count / (idf.document_frequency + 1))`.
#[derive(Clone, Copy, Debug, PartialEq, Eq, Structural)]
pub struct Score {
    pub tf: usize,
    pub idf: Idf,
}

/// The weight is at least zero: its ratio is at least one.
pub open spec fn idf_non_negative(i: Idf) -> bool {
    i.document_frequency + 1 <= i.document_count
}

/// The weight of `a` is at most that of `b`: the ratio of `a` is at most the
/// ratio of `b` (log10 is increasing).
pub open spec fn idf_le(a: Idf, b: Idf) -> bool {
    a.document_count * (b.document_frequency + 1) <= b.document_count * (a.document_frequency + 1)
}

/// The score is zero: no occurrence, or a ratio of exactly one.
pub open spec fn score_vanishes(s: Score) -> bool {
    s.tf == 0 || s.idf.document_frequency + 1 == s.idf.document_count
}

impl Idf {
    /// Whether the weight is at least zero, which holds exactly when the term
    /// occurs in fewer documents than the corpus holds.
    pub fn is_non_negative(&self) -> (r: bool)
        ensures
            r == idf_non_negative(*self),
            r == (self.document_frequency < self.document_count),
    {
        self.document_frequency < self.document_count
    }
}

/// For a fixed document count, the weight does not increase as the document
/// frequency grows.
pub proof fn lemma_idf_non_increasing(a: Idf, b: Idf)
    requires
        a.document_count == b.document_count,
        a.document_frequency <= b.document_frequency,
    ensures
        idf_le(b, a),
{
    let n = a.document_count as int;
    let fa = a.document_frequency as int + 1;
    let fb = b.document_frequency as int + 1;
    assert(n * fa <= n * fb) by (nonlinear_arith)
        requires
            n >= 0,
            fa <= fb,
    ;
}

} // verus!
