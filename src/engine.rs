//! The scoring engine: a borrowed corpus, the document-frequency index that one
//! fit pass builds from it, and the queries that read that index.
use vstd::prelude::*;
use crate::document::Document;
use crate::model::{
    corpus_terms, document_frequency, lemma_absent_term_count, lemma_document_frequency_bounded,
    term_count, token_terms,
};
use crate::token::Token;
use crate::weight::{score_vanishes, Idf, Score, TfidfError};

verus! {

/// Whether some string of `seen` equals `t`.
pub open spec fn holds_term(seen: Seq<String>, t: Seq<char>) -> bool {
    exists|k: int| 0 <= k < seen.len() && seen[k]@ == t
}

/// Whether no two entries share a term.
pub open spec fn keys_distinct<V>(entries: Seq<(String, V)>) -> bool {
    forall|a: int, b: int|
        0 <= a < entries.len() && 0 <= b < entries.len() && a != b ==> entries[a].0@ != entries[b].0@
}

/// Whether some entry has the term `t`.
pub open spec fn has_key<V>(entries: Seq<(String, V)>, t: Seq<char>) -> bool {
    exists|k: int| 0 <= k < entries.len() && entries[k].0@ == t
}

/// The count that the index entries give the term `t`: zero when no entry has it.
pub open spec fn indexed_frequency(entries: Seq<(String, usize)>, t: Seq<char>) -> nat {
    if has_key(entries, t) {
        entries[choose|k: int| 0 <= k < entries.len() && entries[k].0@ == t].1 as nat
    } else {
        0
    }
}

/// Position of the entry whose term is `t`, if any.
fn find_entry<V>(entries: &Vec<(String, V)>, t: &String) -> (r: Option<usize>)
    ensures
        match r {
            Some(k) => k < entries@.len() && entries@[k as int].0@ == t@,
            None => !has_key(entries@, t@),
        },
{
    let mut k: usize = 0;
    while k < entries.len()
        invariant
            k <= entries@.len(),
            forall|i: int| 0 <= i < k ==> entries@[i].0@ != t@,
        decreases entries@.len() - k,
    {
        if entries[k].0 == *t {
            return Some(k);
        }
        k = k + 1;
    }
    None
}

/// Whether `t` is among the strings of `seen`.
fn contains_term(seen: &Vec<String>, t: &String) -> (r: bool)
    ensures
        r == holds_term(seen@, t@),
{
    let mut k: usize = 0;
    while k < seen.len()
        invariant
            k <= seen@.len(),
            forall|i: int| 0 <= i < k ==> seen@[i]@ != t@,
        decreases seen@.len() - k,
    {
        if seen[k] == *t {
            return true;
        }
        k = k + 1;
    }
    false
}

/// TF-IDF scoring over a borrowed corpus.
pub struct Tfidf<'a, D: Document> {
    docs: &'a [D],
    cache: Vec<(String, usize)>,
    fitted: bool,
}

impl<'a, D: Document> Tfidf<'a, D> {
    /// The documents of the corpus.
    pub closed spec fn documents(&self) -> Seq<D> {
        self.docs@
    }

    /// The terms of each document of the corpus.
    pub open spec fn corpus(&self) -> Seq<Seq<Seq<char>>> {
        corpus_terms(self.documents())
    }

    /// The number of documents of the corpus.
    pub open spec fn document_count(&self) -> nat {
        self.documents().len()
    }

    /// Whether the fit pass has completed.
    pub closed spec fn is_fitted(&self) -> bool {
        self.fitted
    }

    /// The document frequency that the index holds for `t`.
    pub closed spec fn frequency(&self, t: Seq<char>) -> nat {
        indexed_frequency(self.cache@, t)
    }

    /// Well-formedness: an unfitted index is empty; a fitted one has one entry
    /// per term of the corpus, holding its exact document frequency.
    pub closed spec fn wf(&self) -> bool {
        &&& !self.fitted ==> self.cache@.len() == 0
        &&& self.fitted ==> {
            &&& self.docs@.len() > 0
            &&& keys_distinct(self.cache@)
            &&& forall|k: int|
                0 <= k < self.cache@.len() ==> self.cache@[k].1 as nat == document_frequency(
                    self.corpus(),
                    self.cache@[k].0@,
                )
            &&& forall|t: Seq<char>|
                document_frequency(self.corpus(), t) > 0 ==> #[trigger] has_key(self.cache@, t)
        }
    }

    /// An unfitted engine over the documents `src`.
    pub fn new(src: &'a [D]) -> (r: Self)
        ensures
            r.documents() == src@,
            !r.is_fitted(),
            r.wf(),
            forall|t: Seq<char>| #[trigger] r.frequency(t) == 0,
    {
        Tfidf { docs: src, cache: Vec::new(), fitted: false }
    }

    /// Builds the document-frequency index from the corpus, replacing any
    /// index built before. An empty corpus is rejected and leaves the engine
    /// as it was.
    pub fn fit_transform(&mut self) -> (r: Result<(), TfidfError>)
        requires
            old(self).wf(),
        ensures
            final(self).wf(),
            final(self).documents() == old(self).documents(),
            old(self).document_count() == 0 ==> r == Err::<(), TfidfError>(TfidfError::EmptyCorpus)
                && *final(self) == *old(self),
            r is Err ==> !final(self).is_fitted(),
            old(self).document_count() > 0 ==> r == Ok::<(), TfidfError>(()) && final(self).is_fitted()
                && forall|t: Seq<char>|
                #![trigger final(self).frequency(t)]
                final(self).frequency(t) == document_frequency(final(self).corpus(), t),
    {
        if self.docs.len() == 0 {
            return Err(TfidfError::EmptyCorpus);
        }
        let ghost corpus = self.corpus();
        let n: usize = self.docs.len();
        let mut cache: Vec<(String, usize)> = Vec::new();
        let mut i: usize = 0;
        while i < n
            invariant
                n == self.docs@.len(),
                corpus == self.corpus(),
                corpus.len() == self.docs@.len(),
                i <= corpus.len(),
                keys_distinct(cache@),
                forall|k: int|
                    0 <= k < cache@.len() ==> cache@[k].1 as nat == document_frequency(
                        corpus.take(i as int),
                        cache@[k].0@,
                    ),
                forall|t: Seq<char>|
                    document_frequency(corpus.take(i as int), t) > 0 ==> #[trigger] has_key(
                        cache@,
                        t,
                    ),
            decreases corpus.len() - i,
        {
            let content = self.docs[i].get_content();
            let ghost terms = token_terms(content@);
            assert(terms == corpus[i as int]);
            let ghost before = corpus.take(i as int);
            let mut seen: Vec<String> = Vec::new();
            let mut j: usize = 0;
            while j < content.len()
                invariant
                    i < corpus.len(),
                    i < n,
                    n == self.docs@.len(),
                    corpus.len() == self.docs@.len(),
                    before == corpus.take(i as int),
                    terms == token_terms(content@),
                    j <= content@.len(),
                    keys_distinct(cache@),
                    forall|t: Seq<char>|
                        holds_term(seen@, t) <==> #[trigger] terms.take(j as int).contains(t),
                    forall|k: int|
                        0 <= k < cache@.len() ==> cache@[k].1 as nat == document_frequency(
                            before,
                            cache@[k].0@,
                        ) + if holds_term(seen@, cache@[k].0@) {
                            1nat
                        } else {
                            0nat
                        },
                    forall|t: Seq<char>|
                        document_frequency(before, t) > 0 || holds_term(seen@, t)
                            ==> #[trigger] has_key(cache@, t),
                decreases content@.len() - j,
            {
                let term = content[j].get_term();
                let ghost seen_before = seen@;
                let ghost prefix = terms.take(j as int);
                assert(term@ == terms[j as int]);
                assert(terms.take(j as int + 1) =~= prefix.push(term@));
                assert forall|t: Seq<char>| #[trigger]
                    prefix.push(term@).contains(t) <==> prefix.contains(t) || t == term@ by {
                    if prefix.contains(t) {
                        let w = choose|w: int| 0 <= w < prefix.len() && prefix[w] == t;
                        assert(prefix.push(term@)[w] == t);
                    }
                    if t == term@ {
                        assert(prefix.push(term@)[prefix.len() as int] == t);
                    }
                    if prefix.push(term@).contains(t) && t != term@ {
                        let w = choose|w: int|
                            0 <= w < prefix.len() + 1 && prefix.push(term@)[w] == t;
                        assert(prefix[w] == t);
                    }
                }
                let ghost cache_before = cache@;
                if !contains_term(&seen, &term) {
                    proof {
                        lemma_document_frequency_bounded(before, term@);
                        assert(before.len() == i);
                    }
                    let found = find_entry(&cache, &term);
                    match found {
                        Some(k) => {
                            let count = cache[k].1;
                            assert(count as nat == document_frequency(before, term@));
                            cache.set(k, (term.clone(), count + 1));
                            assert(cache@[k as int].0@ == term@);
                            assert(has_key(cache@, term@));
                            assert forall|t: Seq<char>|
                                has_key(cache_before, t) implies has_key(cache@, t) by {
                                let w = choose|w: int|
                                    0 <= w < cache_before.len() && cache_before[w].0@ == t;
                                assert(cache@[w].0@ == t);
                            }
                        },
                        None => {
                            cache.push((term.clone(), 1));
                            assert forall|t: Seq<char>|
                                has_key(cache_before, t) || t == term@ implies has_key(
                                    cache@,
                                    t,
                                ) by {
                                if has_key(cache_before, t) {
                                    let w = choose|w: int|
                                        0 <= w < cache_before.len() && cache_before[w].0@ == t;
                                    assert(cache@[w].0@ == t);
                                } else {
                                    assert(cache@[cache_before.len() as int].0@ == t);
                                }
                            }
                        },
                    }
                    seen.push(term);
                    proof {
                        assert forall|t: Seq<char>|
                            holds_term(seen@, t) <==> holds_term(seen_before, t) || t == term@ by {
                            if holds_term(seen_before, t) {
                                let w = choose|w: int|
                                    0 <= w < seen_before.len() && seen_before[w]@ == t;
                                assert(seen@[w] == seen_before[w]);
                            }
                            if t == term@ {
                                assert(seen@[seen_before.len() as int]@ == t);
                            }
                            if holds_term(seen@, t) && t != term@ {
                                let w = choose|w: int| 0 <= w < seen@.len() && seen@[w]@ == t;
                                assert(seen_before[w] == seen@[w]);
                            }
                        }
                        assert forall|t: Seq<char>|
                            document_frequency(before, t) > 0 || holds_term(seen@, t) implies #[trigger] has_key(
                                cache@,
                                t,
                            ) by {
                            if t != term@ {
                                assert(has_key(cache_before, t));
                            }
                        }
                    }
                }
                j = j + 1;
            }
            assert(terms.take(content@.len() as int) =~= terms);
            assert(corpus.take(i as int + 1).drop_last() =~= before);
            i = i + 1;
        }
        assert(corpus.take(corpus.len() as int) =~= corpus);
        self.cache = cache;
        self.fitted = true;
        Ok(())
    }

    /// A fitted, well-formed index holds the exact document frequency of
    /// every term.
    pub proof fn lemma_index_exact(&self, t: Seq<char>)
        requires
            self.wf(),
            self.is_fitted(),
        ensures
            self.frequency(t) == document_frequency(self.corpus(), t),
    {
        if has_key(self.cache@, t) {
            let k = choose|k: int| 0 <= k < self.cache@.len() && self.cache@[k].0@ == t;
            assert(self.cache@[k].1 as nat == document_frequency(self.corpus(), t));
        }
    }

    /// A fitted, well-formed engine has at least one document.
    pub proof fn lemma_fitted_has_documents(&self)
        requires
            self.wf(),
            self.is_fitted(),
        ensures
            self.document_count() > 0,
    {
    }

    /// No term is indexed as occurring in more documents than the corpus
    /// holds.
    pub proof fn lemma_frequency_bounded(&self, t: Seq<char>)
        requires
            self.wf(),
        ensures
            self.frequency(t) <= self.document_count(),
    {
        if self.is_fitted() {
            self.lemma_index_exact(t);
            lemma_document_frequency_bounded(self.corpus(), t);
        }
    }

    /// Two fitted indexes over the same corpus agree: they hold the same
    /// document count and the same frequency for every term, so fitting
    /// again gives what one fit gave.
    pub proof fn lemma_fit_idempotent(&self, other: &Self, t: Seq<char>)
        requires
            self.wf(),
            other.wf(),
            self.is_fitted(),
            other.is_fitted(),
            self.corpus() == other.corpus(),
        ensures
            self.document_count() == other.document_count(),
            self.frequency(t) == other.frequency(t),
    {
        self.lemma_index_exact(t);
        other.lemma_index_exact(t);
        assert(self.corpus().len() == self.document_count());
        assert(other.corpus().len() == other.document_count());
    }

    /// Raw number of tokens of `doc` whose term equals the term of `term`.
    pub fn tf<Q: Token>(&self, doc: &[D::Tok], term: &Q) -> (r: usize)
        ensures
            r as nat == term_count(token_terms(doc@), term.term_view()),
    {
        let t = term.get_term();
        let ghost terms = token_terms(doc@);
        let mut count: usize = 0;
        let mut j: usize = 0;
        while j < doc.len()
            invariant
                terms == token_terms(doc@),
                j <= doc@.len(),
                count as nat == term_count(terms.take(j as int), t@),
                count <= j,
            decreases doc@.len() - j,
        {
            let s = doc[j].get_term();
            assert(terms.take(j as int + 1).drop_last() =~= terms.take(j as int));
            assert(s@ == terms.take(j as int + 1).last());
            if s == t {
                count = count + 1;
            }
            j = j + 1;
        }
        assert(terms.take(doc@.len() as int) =~= terms);
        count
    }

    /// The inverse document frequency of the term of `term`:
    /// `log10(document_count / (document_frequency + 1))`.
    pub fn idf<Q: Token>(&self, term: &Q) -> (r: Result<Idf, TfidfError>)
        requires
            self.wf(),
        ensures
            !self.is_fitted() ==> r == Err::<Idf, TfidfError>(TfidfError::NotFitted),
            self.is_fitted() ==> (r matches Ok(i) && i.document_count as nat == self.document_count()
                && i.document_frequency as nat == self.frequency(term.term_view())
                && i.document_frequency as nat == document_frequency(
                self.corpus(),
                term.term_view(),
            )),
    {
        if !self.fitted {
            return Err(TfidfError::NotFitted);
        }
        let t = term.get_term();
        proof {
            self.lemma_index_exact(t@);
        }
        let frequency: usize = match find_entry(&self.cache, &t) {
            Some(k) => {
                proof {
                    let c = choose|c: int| 0 <= c < self.cache@.len() && self.cache@[c].0@ == t@;
                    assert(c == k);
                }
                self.cache[k].1
            },
            None => 0,
        };
        Ok(Idf { document_count: self.docs.len(), document_frequency: frequency })
    }

    /// The score of the term of `term` in the tokens `doc`: its count there
    /// times its inverse document frequency.
    pub fn tfidf<Q: Token>(&self, doc: &[D::Tok], term: &Q) -> (r: Result<Score, TfidfError>)
        requires
            self.wf(),
        ensures
            !self.is_fitted() ==> r == Err::<Score, TfidfError>(TfidfError::NotFitted),
            self.is_fitted() ==> (r matches Ok(s) && self.scores(
                token_terms(doc@),
                term.term_view(),
                s,
            )),
    {
        let idf = self.idf(term)?;
        let tf = self.tf(doc, term);
        Ok(Score { tf, idf })
    }

    /// Whether `s` is the score of the term `t` in a document with the terms
    /// `doc`, under this index.
    pub open spec fn scores(&self, doc: Seq<Seq<char>>, t: Seq<char>, s: Score) -> bool {
        &&& s.tf as nat == term_count(doc, t)
        &&& s.idf.document_count as nat == self.document_count()
        &&& s.idf.document_frequency as nat == self.frequency(t)
        &&& s.idf.document_frequency as nat == document_frequency(self.corpus(), t)
    }

    /// A term that does not occur in a document has a count of zero there, and
    /// so a score of zero.
    pub proof fn lemma_absent_term_scores_zero(&self, doc: Seq<Seq<char>>, t: Seq<char>, s: Score)
        requires
            !doc.contains(t),
            self.scores(doc, t, s),
        ensures
            s.tf == 0,
            score_vanishes(s),
    {
        lemma_absent_term_count(doc, t);
    }

    /// The score of the term of `term` in the document `doc`.
    pub fn tfidf_doc<Q: Token>(&self, doc: &D, term: &Q) -> (r: Result<Score, TfidfError>)
        requires
            self.wf(),
        ensures
            !self.is_fitted() ==> r == Err::<Score, TfidfError>(TfidfError::NotFitted),
            self.is_fitted() ==> (r matches Ok(s) && self.scores(
                token_terms(doc.content_view()),
                term.term_view(),
                s,
            )),
    {
        let content = doc.get_content();
        self.tfidf(content.as_slice(), term)
    }

    /// The score of every distinct term of the tokens `doc`, one entry per
    /// term, in the order of first occurrence.
    pub fn rank_tokens(&self, doc: &[D::Tok]) -> (r: Result<Vec<(String, Score)>, TfidfError>)
        requires
            self.wf(),
        ensures
            !self.is_fitted() ==> r == Err::<Vec<(String, Score)>, TfidfError>(
                TfidfError::NotFitted,
            ),
            self.is_fitted() ==> (r matches Ok(v) && self.ranks(token_terms(doc@), v@)),
    {
        if !self.fitted {
            return Err(TfidfError::NotFitted);
        }
        let ghost terms = token_terms(doc@);
        let mut out: Vec<(String, Score)> = Vec::new();
        let mut j: usize = 0;
        while j < doc.len()
            invariant
                self.wf(),
                self.is_fitted(),
                terms == token_terms(doc@),
                j <= doc@.len(),
                keys_distinct(out@),
                forall|k: int|
                    0 <= k < out@.len() ==> terms.contains(#[trigger] out@[k].0@) && self.scores(
                        terms,
                        out@[k].0@,
                        out@[k].1,
                    ),
                forall|t: Seq<char>| #[trigger]
                    terms.take(j as int).contains(t) ==> has_key(out@, t),
            decreases doc@.len() - j,
        {
            let term = doc[j].get_term();
            let ghost prefix = terms.take(j as int);
            let ghost out_before = out@;
            assert(term@ == terms[j as int]);
            assert(terms.take(j as int + 1) =~= prefix.push(term@));
            if find_entry(&out, &term).is_none() {
                let score = match self.tfidf(doc, &doc[j]) {
                    Ok(s) => s,
                    Err(e) => {
                        return Err(e);
                    },
                };
                out.push((term, score));
                proof {
                    assert(out@[out_before.len() as int].0@ == terms[j as int]);
                    assert forall|k: int| 0 <= k < out@.len() implies terms.contains(
                        #[trigger] out@[k].0@,
                    ) && self.scores(terms, out@[k].0@, out@[k].1) by {
                        if k < out_before.len() {
                            assert(out@[k] == out_before[k]);
                        }
                    }
                }
            }
            proof {
                assert forall|t: Seq<char>| #[trigger]
                    terms.take(j as int + 1).contains(t) implies has_key(out@, t) by {
                    let w = choose|w: int| 0 <= w < prefix.len() + 1 && prefix.push(term@)[w] == t;
                    if w < prefix.len() {
                        assert(prefix[w] == t);
                        assert(prefix.contains(t));
                        let c = choose|c: int| 0 <= c < out_before.len() && out_before[c].0@ == t;
                        assert(out@[c] == out_before[c]);
                    } else {
                        assert(t == term@);
                    }
                }
            }
            j = j + 1;
        }
        assert(terms.take(doc@.len() as int) =~= terms);
        Ok(out)
    }

    /// Whether `entries` ranks the terms `doc` under this index: one entry per
    /// distinct term of `doc`, each holding that term's score.
    pub open spec fn ranks(&self, doc: Seq<Seq<char>>, entries: Seq<(String, Score)>) -> bool {
        &&& keys_distinct(entries)
        &&& forall|k: int|
            0 <= k < entries.len() ==> doc.contains(#[trigger] entries[k].0@) && self.scores(
                doc,
                entries[k].0@,
                entries[k].1,
            )
        &&& forall|t: Seq<char>| #[trigger] doc.contains(t) ==> has_key(entries, t)
    }

    /// The first document of the corpus whose identifier is `id`; `None` when
    /// no document has it.
    pub fn document_by_id(&self, id: &String) -> (r: Option<&'a D>)
        ensures
            match r {
                Some(d) => exists|i: int|
                    0 <= i < self.document_count() && self.documents()[i] == *d
                        && d.id_view() == id@ && forall|h: int|
                        0 <= h < i ==> self.documents()[h].id_view() != id@,
                None => forall|i: int|
                    0 <= i < self.document_count() ==> self.documents()[i].id_view() != id@,
            },
    {
        let mut i: usize = 0;
        while i < self.docs.len()
            invariant
                i <= self.docs@.len(),
                forall|h: int| 0 <= h < i ==> self.docs@[h].id_view() != id@,
            decreases self.docs@.len() - i,
        {
            if self.docs[i].get_id() == *id {
                let d = &self.docs[i];
                assert(self.documents()[i as int] == *d);
                return Some(d);
            }
            i = i + 1;
        }
        None
    }
}

} // verus!
