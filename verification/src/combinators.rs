use vstd::prelude::*;
use crate::model::{
    DocModel, surrounded_m, binop_m, concat_m, intersperse_m, tuple_m, chain_m,
};
use crate::engine::{Doc, t, group, append_doc, dup};
use crate::printable::PrettySimple;

verus! {

/// Wrap a printable body between two delimiters.  When everything fits
/// the remaining width the soft breaks vanish and the delimiters touch
/// the body; otherwise the body stands on its own lines.
pub fn surrounded_by<P: PrettySimple>(l: &str, x: P, r: &str) -> (d: Doc)
    ensures
        d@ == surrounded_m(l@, x.model(), r@),
{
    t(l).append(Doc::soft_break()).append(group(x.pprint())).append(Doc::soft_break()).append(t(r))
}

/// `surrounded_by` with square brackets.
pub fn brackets<P: PrettySimple>(x: P) -> (d: Doc)
    ensures
        d@ == surrounded_m("["@, x.model(), "]"@),
{
    surrounded_by("[", x, "]")
}

/// `surrounded_by` with parentheses.
pub fn parens<P: PrettySimple>(x: P) -> (d: Doc)
    ensures
        d@ == surrounded_m("("@, x.model(), ")"@),
{
    surrounded_by("(", x, ")")
}

/// `surrounded_by` with curly braces.
pub fn braces<P: PrettySimple>(x: P) -> (d: Doc)
    ensures
        d@ == surrounded_m("{"@, x.model(), "}"@),
{
    surrounded_by("{", x, "}")
}

/// Infix layout: one group holding the left operand, a flexible break,
/// the operator, a flexible break, the right operand.  Fits on one line
/// as `l op r` with single spaces; otherwise each part takes its own
/// line.
pub fn binop<P: PrettySimple, Q: PrettySimple>(l: P, op: &str, r: Q) -> (d: Doc)
    ensures
        d@ == binop_m(l.model(), op@, r.model()),
{
    group(
        l.pprint().append(Doc::flex_break()).append(t(op)).append(Doc::flex_break()).append(
            r.pprint(),
        ),
    )
}

/// Concatenate the items in order with the separator between every
/// adjacent pair; no separator before the first or after the last item.
pub fn intersperse<P: PrettySimple, Q: PrettySimple>(items: Vec<P>, separator: Q) -> (d: Doc)
    ensures
        d@ == intersperse_m(items@.map_values(|p: P| p.model()), separator.model()),
{
    let ghost ms = items@.map_values(|p: P| p.model());
    let ghost sm = separator.model();
    let sep = separator.pprint();
    let mut rest = items;
    if rest.len() == 0 {
        return Doc::empty();
    }
    let first = rest.remove(0);
    let mut acc = first.pprint();
    let ghost mut i: int = 1;
    while rest.len() > 0
        invariant
            1 <= i <= ms.len(),
            rest@.len() == ms.len() - i,
            forall|j: int| 0 <= j < rest@.len() ==> (#[trigger] rest@[j]).model() == ms[i + j],
            acc@ == intersperse_m(ms.take(i), sm),
            sep@ == sm,
        decreases rest@.len(),
    {
        let p = rest.remove(0);
        acc = append_doc(append_doc(acc, dup(&sep)), p.pprint());
        proof {
            assert(ms.take(i + 1).drop_last() =~= ms.take(i));
            assert(ms.take(i + 1).last() == ms[i]);
            i = i + 1;
        }
    }
    proof {
        assert(ms.take(i) =~= ms);
    }
    acc
}

/// Concatenate the items in order, nothing between them.
pub fn concat<P: PrettySimple>(items: Vec<P>) -> (d: Doc)
    ensures
        d@ == concat_m(items@.map_values(|p: P| p.model())),
{
    let ghost ms = items@.map_values(|p: P| p.model());
    let mut rest = items;
    let mut acc = Doc::empty();
    let ghost mut i: int = 0;
    while rest.len() > 0
        invariant
            0 <= i <= ms.len(),
            rest@.len() == ms.len() - i,
            forall|j: int| 0 <= j < rest@.len() ==> (#[trigger] rest@[j]).model() == ms[i + j],
            acc@ == concat_m(ms.take(i)),
        decreases rest@.len(),
    {
        let p = rest.remove(0);
        acc = append_doc(acc, p.pprint());
        proof {
            assert(ms.take(i + 1).drop_last() =~= ms.take(i));
            assert(ms.take(i + 1).last() == ms[i]);
            i = i + 1;
        }
    }
    proof {
        assert(ms.take(i) =~= ms);
    }
    acc
}

/// Tuple layout: the items interspersed with a comma directly followed
/// by a flexible break, grouped, inside braces.  Fits on one line as
/// `{a, b, c}`; otherwise every item stands on its own line with the
/// comma kept at the end of the preceding line.
pub fn tuple<P: PrettySimple>(items: Vec<P>) -> (d: Doc)
    ensures
        d@ == tuple_m(items@.map_values(|p: P| p.model())),
{
    braces(group(intersperse(items, t(",").append(Doc::flex_break()))))
}

/// The chaining facility: fold one or more printable values, of any mix
/// of kinds, into a single left-to-right append chain.
pub fn doc<P: PrettySimple>(items: Vec<P>) -> (d: Doc)
    requires
        items@.len() >= 1,
    ensures
        d@ == chain_m(items@.map_values(|p: P| p.model())),
{
    let ghost ms = items@.map_values(|p: P| p.model());
    let mut rest = items;
    let first = rest.remove(0);
    let mut acc = first.pprint();
    let ghost mut i: int = 1;
    while rest.len() > 0
        invariant
            1 <= i <= ms.len(),
            rest@.len() == ms.len() - i,
            forall|j: int| 0 <= j < rest@.len() ==> (#[trigger] rest@[j]).model() == ms[i + j],
            acc@ == chain_m(ms.take(i)),
        decreases rest@.len(),
    {
        let p = rest.remove(0);
        acc = append_doc(acc, p.pprint());
        proof {
            assert(ms.take(i + 1).drop_last() =~= ms.take(i));
            assert(ms.take(i + 1).last() == ms[i]);
            i = i + 1;
        }
    }
    proof {
        assert(ms.take(i) =~= ms);
    }
    acc
}

} // verus!
