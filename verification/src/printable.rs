use vstd::prelude::*;
use crate::model::{DocModel, text_m, cat};
use crate::engine::{Doc, t, append_doc};

verus! {

/// The capability "convertible into a document".  A value kind with this
/// trait says which tree it stands for (`model`) and builds that tree
/// (`pprint`); `append` chains two convertible values in order, with no
/// separator and no layout decision.
pub trait PrettySimple: Sized {
    /// The tree this value converts to.
    spec fn model(self) -> DocModel;

    /// Convert this value into a document.  Total: it never fails.
    fn pprint(self) -> (d: Doc)
        ensures
            d@ == self.model(),
    ;

    /// The ordered concatenation of this value and an already-built
    /// document, in that order.
    fn append(self, other: Doc) -> (d: Doc)
        ensures
            d@ == cat(self.model(), other@),
    ;
}

impl PrettySimple for &str {
    open spec fn model(self) -> DocModel {
        text_m(self@)
    }

    fn pprint(self) -> (d: Doc) {
        t(self)
    }

    fn append(self, other: Doc) -> (d: Doc) {
        append_doc(self.pprint(), other)
    }
}

impl PrettySimple for Doc {
    open spec fn model(self) -> DocModel {
        self@
    }

    fn pprint(self) -> (d: Doc) {
        self
    }

    fn append(self, other: Doc) -> (d: Doc) {
        append_doc(self.pprint(), other)
    }
}

/// The hard-break sentinel: a printable value whose conversion is an
/// unconditional newline, whatever any enclosing group decides.
pub struct Ln;

impl PrettySimple for Ln {
    open spec fn model(self) -> DocModel {
        DocModel::Hardline
    }

    fn pprint(self) -> (d: Doc) {
        Doc::hard_break()
    }

    fn append(self, other: Doc) -> (d: Doc) {
        append_doc(self.pprint(), other)
    }
}

/// One printable value out of the closed set of kinds: literal text, an
/// already-built document, or the hard-break sentinel.  Lets one sequence
/// mix the three kinds.
pub enum Piece {
    Text(String),
    Doc(Doc),
    Ln,
}

impl PrettySimple for Piece {
    open spec fn model(self) -> DocModel {
        match self {
            Piece::Text(s) => text_m(s@),
            Piece::Doc(d) => d@,
            Piece::Ln => DocModel::Hardline,
        }
    }

    fn pprint(self) -> (d: Doc) {
        match self {
            Piece::Text(s) => t(s.as_str()),
            Piece::Doc(d) => d,
            Piece::Ln => Doc::hard_break(),
        }
    }

    fn append(self, other: Doc) -> (d: Doc) {
        append_doc(self.pprint(), other)
    }
}

} // verus!
