//! The mathematical model: a document is the sequence of its terms, a corpus
//! the sequence of its documents.
use vstd::prelude::*;
use crate::document::Document;
use crate::token::Token;

verus! {

/// The terms of a token sequence, in order.
pub open spec fn token_terms<T: Token>(content: Seq<T>) -> Seq<Seq<char>> {
    content.map_values(|tok: T| tok.term_view())
}

/// The terms of each document of a corpus, in order.
pub open spec fn corpus_terms<D: Document>(docs: Seq<D>) -> Seq<Seq<Seq<char>>> {
    docs.map_values(|d: D| token_terms(d.content_view()))
}

/// Number of positions of `doc` that hold the term `t`.
pub open spec fn term_count(doc: Seq<Seq<char>>, t: Seq<char>) -> nat
    decreases doc.len(),
{
    if doc.len() == 0 {
        0
    } else {
        term_count(doc.drop_last(), t) + if doc.last() == t { 1nat } else { 0nat }
    }
}

/// Number of documents of `corpus` in which the term `t` occurs at least once.
pub open spec fn document_frequency(corpus: Seq<Seq<Seq<char>>>, t: Seq<char>) -> nat
    decreases corpus.len(),
{
    if corpus.len() == 0 {
        0
    } else {
        document_frequency(corpus.drop_last(), t) + if corpus.last().contains(t) {
            1nat
        } else {
            0nat
        }
    }
}

/// A term that occurs nowhere in a document is counted zero times there.
pub proof fn lemma_absent_term_count(doc: Seq<Seq<char>>, t: Seq<char>)
    requires
        !doc.contains(t),
    ensures
        term_count(doc, t) == 0,
    decreases doc.len(),
{
    if doc.len() > 0 {
        assert(doc.last() == doc[doc.len() - 1]);
        assert forall|i: int| 0 <= i < doc.drop_last().len() implies doc.drop_last()[i] != t by {
            assert(doc.drop_last()[i] == doc[i]);
        }
        lemma_absent_term_count(doc.drop_last(), t);
    }
}

/// No term occurs in more documents than the corpus holds.
pub proof fn lemma_document_frequency_bounded(corpus: Seq<Seq<Seq<char>>>, t: Seq<char>)
    ensures
        document_frequency(corpus, t) <= corpus.len(),
    decreases corpus.len(),
{
    if corpus.len() > 0 {
        lemma_document_frequency_bounded(corpus.drop_last(), t);
    }
}

} // verus!
