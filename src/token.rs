//! One occurrence of a term at a position in a document.
use vstd::prelude::*;
use vstd::utf8::encode_utf8;

verus! {

/// What the scoring engine needs of a token: its term, compared by exact,
/// case-sensitive string equality. Positions are kept for display only.
pub trait Token {
    /// The term of this token.
    spec fn term_view(&self) -> Seq<char>;

    fn get_term(&self) -> (r: String)
        ensures
            r@ == self.term_view(),
    ;

    /// Where the token begins in its document.
    spec fn offset_begin_view(&self) -> usize;

    /// Where the token ends in its document.
    spec fn offset_end_view(&self) -> usize;

    /// The part of speech of the token, if known.
    spec fn pos_view(&self) -> Option<Seq<char>>;

    fn get_offset_begin(&self) -> (r: usize)
        ensures
            r == self.offset_begin_view(),
    ;

    fn get_offset_end(&self) -> (r: usize)
        ensures
            r == self.offset_end_view(),
    ;

    fn get_pos(&self) -> (r: Option<String>)
        ensures
            r matches Some(p) ==> self.pos_view() == Some(p@),
            r is None ==> self.pos_view() is None,
    ;
}

/// A token held as plain values; its end offset is its begin offset plus the
/// byte length of its term.
pub struct PlainToken {
    pub term: String,
    pub offset_begin: usize,
    pub pos: Option<String>,
}

impl PlainToken {
    pub fn new(term: String, offset_begin: usize, pos: Option<String>) -> (r: PlainToken)
        ensures
            r.term@ == term@,
            r.offset_begin == offset_begin,
            r.pos == pos,
    {
        PlainToken { term, offset_begin, pos }
    }

    /// A copy with equal fields.
    pub(crate) fn duplicate(&self) -> (r: PlainToken)
        ensures
            r == *self,
    {
        let pos = match &self.pos {
            Some(p) => Some(p.clone()),
            None => None,
        };
        PlainToken { term: self.term.clone(), offset_begin: self.offset_begin, pos }
    }
}

impl Token for PlainToken {
    open spec fn term_view(&self) -> Seq<char> {
        self.term@
    }

    open spec fn offset_begin_view(&self) -> usize {
        self.offset_begin
    }

    /// `offset_begin` plus the byte length of the term, saturating at
    /// `usize::MAX`.
    open spec fn offset_end_view(&self) -> usize {
        let end = self.offset_begin + (encode_utf8(self.term@).len() as usize);
        if end > usize::MAX {
            usize::MAX
        } else {
            end as usize
        }
    }

    open spec fn pos_view(&self) -> Option<Seq<char>> {
        match self.pos {
            Some(p) => Some(p@),
            None => None,
        }
    }

    fn get_term(&self) -> (r: String) {
        self.term.clone()
    }

    fn get_offset_begin(&self) -> (r: usize) {
        self.offset_begin
    }

    fn get_offset_end(&self) -> (r: usize) {
        self.offset_begin.saturating_add(self.term.as_str().len())
    }

    fn get_pos(&self) -> (r: Option<String>) {
        match &self.pos {
            Some(p) => Some(p.clone()),
            None => None,
        }
    }
}

} // verus!
