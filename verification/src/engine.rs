use vstd::prelude::*;
use crate::model::{DocModel, text_m, cat, group_m};
use crate::layout::{spec_render, plain_doc};

verus! {

#[verifier::external_type_specification]
#[verifier::external_body]
#[verifier::reject_recursive_types(A)]
pub struct ExRcDoc<'a, A>(pretty::RcDoc<'a, A>);

/// Relies on pretty::RcDoc::text: a leaf holding the given characters
/// unchanged; an empty text becomes the engine's empty document.
#[verifier::external_body]
fn rc_text(s: &str) -> pretty::RcDoc<'static, ()> {
    pretty::RcDoc::text(s.to_string())
}

/// Relies on pretty::RcDoc::nil: the empty document.
#[verifier::external_body]
fn rc_nil() -> pretty::RcDoc<'static, ()> {
    pretty::RcDoc::nil()
}

/// Relies on pretty::RcDoc::line: a flexible break that flattens to a
/// single space.
#[verifier::external_body]
fn rc_line() -> pretty::RcDoc<'static, ()> {
    pretty::RcDoc::line()
}

/// Relies on pretty::RcDoc::softline_, which is line_().group(): a
/// flexible break that flattens to nothing, grouped by itself.
#[verifier::external_body]
fn rc_softline() -> pretty::RcDoc<'static, ()> {
    pretty::RcDoc::softline_()
}

/// Relies on pretty::RcDoc::hardline: an unconditional newline.
#[verifier::external_body]
fn rc_hardline() -> pretty::RcDoc<'static, ()> {
    pretty::RcDoc::hardline()
}

/// Relies on pretty::DocBuilder::group: it wraps the tree as one
/// fit-or-break unit, leaving alone a tree whose layout cannot differ (a
/// group, a text atom, the empty document).
#[verifier::external_body]
fn rc_group(x: pretty::RcDoc<'static, ()>) -> pretty::RcDoc<'static, ()> {
    x.group()
}

/// Relies on pretty::DocBuilder::append: left-to-right concatenation that
/// drops an empty side instead of keeping a node.
#[verifier::external_body]
fn rc_append(
    a: pretty::RcDoc<'static, ()>,
    b: pretty::RcDoc<'static, ()>,
) -> pretty::RcDoc<'static, ()> {
    a.append(b)
}

/// Relies on pretty's derived Clone for RcDoc: a second handle to the
/// same immutable tree.
#[verifier::external_body]
fn rc_dup(d: &pretty::RcDoc<'static, ()>) -> pretty::RcDoc<'static, ()> {
    d.clone()
}

/// A document: an immutable engine tree, carried together with the shape
/// it was built with.  All construction goes through the functions of
/// this module, which pair each engine call with the shape that call
/// builds, so a document's view is fixed by the calls that built it.
pub struct Doc {
    inner: pretty::RcDoc<'static, ()>,
    shape: Ghost<DocModel>,
}

impl View for Doc {
    type V = DocModel;

    closed spec fn view(&self) -> DocModel {
        self.shape@
    }
}

impl Doc {
    /// The empty document.
    pub fn empty() -> (d: Doc)
        ensures
            d@ == DocModel::Nil,
    {
        Doc { inner: rc_nil(), shape: Ghost(DocModel::Nil) }
    }

    /// A flexible break: a single space when its group fits on one line,
    /// a newline otherwise.
    pub fn flex_break() -> (d: Doc)
        ensures
            d@ == DocModel::Line,
    {
        Doc { inner: rc_line(), shape: Ghost(DocModel::Line) }
    }

    /// A soft break: nothing when what follows still fits on the current
    /// line, a newline otherwise.
    pub fn soft_break() -> (d: Doc)
        ensures
            d@ == DocModel::Group(Box::new(DocModel::LineNil)),
    {
        Doc { inner: rc_softline(), shape: Ghost(DocModel::Group(Box::new(DocModel::LineNil))) }
    }

    /// An unconditional newline, unaffected by any group's fit decision.
    pub fn hard_break() -> (d: Doc)
        ensures
            d@ == DocModel::Hardline,
    {
        Doc { inner: rc_hardline(), shape: Ghost(DocModel::Hardline) }
    }
}

/// A text atom holding exactly the given characters.
pub fn t(s: &str) -> (d: Doc)
    ensures
        d@ == text_m(s@),
{
    Doc { inner: rc_text(s), shape: Ghost(text_m(s@)) }
}

/// Mark a document as one fit-or-break unit: its flexible breaks either
/// all collapse or all become newlines.
pub fn group(x: Doc) -> (d: Doc)
    ensures
        d@ == group_m(x@),
{
    let Doc { inner, shape } = x;
    Doc { inner: rc_group(inner), shape: Ghost(group_m(shape@)) }
}

/// The ordered concatenation of two documents, no separator between.
pub(crate) fn append_doc(a: Doc, b: Doc) -> (d: Doc)
    ensures
        d@ == cat(a@, b@),
{
    let Doc { inner: ia, shape: sa } = a;
    let Doc { inner: ib, shape: sb } = b;
    Doc { inner: rc_append(ia, ib), shape: Ghost(cat(sa@, sb@)) }
}

/// A second handle to the same document.
pub(crate) fn dup(d: &Doc) -> (r: Doc)
    ensures
        r@ == d@,
{
    Doc { inner: rc_dup(&d.inner), shape: Ghost(d@) }
}

/// Resolve every group's fit decision against the given width and emit
/// the final text.
///
/// Relies on pretty's renderer (pretty::Doc::pretty, backed by Best::best
/// and Best::fitting in its render module): `spec_render` mirrors that
/// greedy walk — a group is flattened when it, plus what follows it up to
/// the next break taken as a newline, fits the remaining width.  The
/// mirror counts one column per character, which matches the engine only
/// for printable seven-bit text atoms; for any other document this
/// contract promises nothing.
#[verifier::external_body]
pub fn render(d: &Doc, width: usize) -> (s: String)
    ensures
        plain_doc(d@) ==> s@ == spec_render(d@, width as int),
{
    format!("{}", d.inner.pretty(width))
}

} // verus!
