use vstd::prelude::*;

verus! {

/// The shape of a document tree as the layout engine sees it: text atoms,
/// break markers, grouping and concatenation.  Every `Doc` value of this
/// library is abstracted by one of these trees.
pub enum DocModel {
    /// A literal text atom (never empty; an empty text is `Nil`).
    Text(Seq<char>),
    /// A flexible break: a single space when flattened, a newline otherwise.
    Line,
    /// A flexible break: nothing when flattened, a newline otherwise.
    LineNil,
    /// An unconditional newline, never flattened.
    Hardline,
    /// A subtree laid out flat when it fits the remaining width.
    Group(Box<DocModel>),
    /// Left-to-right concatenation.
    Concat(Box<DocModel>, Box<DocModel>),
    /// The empty document.
    Nil,
}

/// A text atom; the engine collapses an empty text to the empty document.
pub open spec fn text_m(s: Seq<char>) -> DocModel {
    if s.len() == 0 {
        DocModel::Nil
    } else {
        DocModel::Text(s)
    }
}

/// Concatenation; the engine drops an empty side instead of keeping a node.
pub open spec fn cat(a: DocModel, b: DocModel) -> DocModel {
    if a is Nil {
        b
    } else if b is Nil {
        a
    } else {
        DocModel::Concat(Box::new(a), Box::new(b))
    }
}

/// Grouping; the engine does not wrap a subtree whose layout cannot differ
/// (an existing group, a text atom, the empty document).
pub open spec fn group_m(m: DocModel) -> DocModel {
    match m {
        DocModel::Group(_) => m,
        DocModel::Text(_) => m,
        DocModel::Nil => m,
        _ => DocModel::Group(Box::new(m)),
    }
}

/// A soft line: a flexible break grouped by itself, so that it collapses
/// to nothing exactly when what follows it still fits on the line.
pub open spec fn softline_m() -> DocModel {
    DocModel::Group(Box::new(DocModel::LineNil))
}

/// The tree built by `surrounded_by`: left delimiter, soft line, grouped
/// body, soft line, right delimiter.
pub open spec fn surrounded_m(l: Seq<char>, x: DocModel, r: Seq<char>) -> DocModel {
    cat(cat(cat(cat(text_m(l), softline_m()), group_m(x)), softline_m()), text_m(r))
}

/// The tree built by `binop`: one group holding left operand, flexible
/// break, operator, flexible break, right operand.
pub open spec fn binop_m(l: DocModel, op: Seq<char>, r: DocModel) -> DocModel {
    group_m(cat(cat(cat(cat(l, DocModel::Line), text_m(op)), DocModel::Line), r))
}

/// The tree built by `concat`: a left fold of concatenation starting from
/// the empty document.
pub open spec fn concat_m(ms: Seq<DocModel>) -> DocModel
    decreases ms.len(),
{
    if ms.len() == 0 {
        DocModel::Nil
    } else {
        cat(concat_m(ms.drop_last()), ms.last())
    }
}

/// The tree built by `intersperse`: the items in order with the separator
/// between every adjacent pair.
pub open spec fn intersperse_m(ms: Seq<DocModel>, sep: DocModel) -> DocModel
    decreases ms.len(),
{
    if ms.len() == 0 {
        DocModel::Nil
    } else if ms.len() == 1 {
        ms[0]
    } else {
        cat(cat(intersperse_m(ms.drop_last(), sep), sep), ms.last())
    }
}

/// The separator used by `tuple`: a comma directly followed by a flexible
/// break, so a comma always stays on the preceding element's line.
pub open spec fn comma_line_m() -> DocModel {
    cat(text_m(","@), DocModel::Line)
}

/// The tree built by `tuple`: braces around the grouped interspersion.
pub open spec fn tuple_m(ms: Seq<DocModel>) -> DocModel {
    surrounded_m("{"@, group_m(intersperse_m(ms, comma_line_m())), "}"@)
}

/// The tree built by the chaining function `doc`: a left fold of
/// concatenation starting from the first item.
pub open spec fn chain_m(ms: Seq<DocModel>) -> DocModel
    decreases ms.len(),
{
    if ms.len() == 0 {
        DocModel::Nil
    } else if ms.len() == 1 {
        ms[0]
    } else {
        cat(chain_m(ms.drop_last()), ms.last())
    }
}

} // verus!
