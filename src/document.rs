//! An identified, ordered sequence of tokens.
use vstd::prelude::*;
use crate::token::{PlainToken, Token};

verus! {

/// What the scoring engine needs of a document: a stable identifier and the
/// ordered tokens of its content.
pub trait Document {
    type Tok: Token;

    /// The identifier of this document.
    spec fn id_view(&self) -> Seq<char>;

    /// The tokens of this document, in order.
    spec fn content_view(&self) -> Seq<Self::Tok>;

    fn get_id(&self) -> (r: String)
        ensures
            r@ == self.id_view(),
    ;

    fn get_content(&self) -> (r: Vec<Self::Tok>)
        ensures
            r@ == self.content_view(),
    ;
}

/// A document held as plain values.
pub struct PlainDocument {
    pub id: String,
    pub content: Vec<PlainToken>,
}

impl PlainDocument {
    pub fn new(id: String, content: Vec<PlainToken>) -> (r: PlainDocument)
        ensures
            r.id@ == id@,
            r.content@ == content@,
    {
        PlainDocument { id, content }
    }
}

impl Document for PlainDocument {
    type Tok = PlainToken;

    open spec fn id_view(&self) -> Seq<char> {
        self.id@
    }

    open spec fn content_view(&self) -> Seq<PlainToken> {
        self.content@
    }

    fn get_id(&self) -> (r: String) {
        self.id.clone()
    }

    fn get_content(&self) -> (r: Vec<PlainToken>) {
        let mut out: Vec<PlainToken> = Vec::new();
        let mut i: usize = 0;
        while i < self.content.len()
            invariant
                i <= self.content@.len(),
                out@ == self.content@.take(i as int),
            decreases self.content@.len() - i,
        {
            out.push(self.content[i].duplicate());
            i = i + 1;
            assert(out@ =~= self.content@.take(i as int));
        }
        assert(self.content@.take(i as int) =~= self.content@);
        out
    }
}

} // verus!
