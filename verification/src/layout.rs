use vstd::prelude::*;
use crate::model::DocModel;

verus! {

/// How a pending subtree is to be laid out: flattened onto the current
/// line, or with its flexible breaks taken as newlines.
pub enum Mode {
    Flat,
    Brk,
}

/// Node count of a tree; the termination measure for the walk below.
pub open spec fn doc_size(m: DocModel) -> nat
    decreases m,
{
    match m {
        DocModel::Group(a) => 1 + doc_size(*a),
        DocModel::Concat(a, b) => 1 + doc_size(*a) + doc_size(*b),
        _ => 1,
    }
}

/// Total node count of a work list of pending subtrees.
pub open spec fn cmds_size(cs: Seq<(Mode, DocModel)>) -> nat
    decreases cs.len(),
{
    if cs.len() == 0 {
        0
    } else {
        doc_size(cs[0].1) + cmds_size(cs.drop_first())
    }
}

pub proof fn lemma_cmds_size_app(a: Seq<(Mode, DocModel)>, b: Seq<(Mode, DocModel)>)
    ensures
        cmds_size(a + b) == cmds_size(a) + cmds_size(b),
    decreases a.len(),
{
    if a.len() == 0 {
        assert(a + b =~= b);
    } else {
        assert((a + b).drop_first() =~= a.drop_first() + b);
        lemma_cmds_size_app(a.drop_first(), b);
    }
}

/// Pushing one subtree onto a work list adds its node count.
pub proof fn lemma_cmds_size_cons(x: (Mode, DocModel), rest: Seq<(Mode, DocModel)>)
    ensures
        cmds_size(seq![x] + rest) == doc_size(x.1) + cmds_size(rest),
{
    reveal_with_fuel(cmds_size, 3);
    lemma_cmds_size_app(seq![x], rest);
    assert(seq![x].drop_first() =~= Seq::<(Mode, DocModel)>::empty());
}

/// Pushing two subtrees onto a work list adds both node counts.
pub proof fn lemma_cmds_size_cons2(
    x: (Mode, DocModel),
    y: (Mode, DocModel),
    rest: Seq<(Mode, DocModel)>,
)
    ensures
        cmds_size(seq![x, y] + rest) == doc_size(x.1) + doc_size(y.1) + cmds_size(rest),
{
    reveal_with_fuel(cmds_size, 3);
    lemma_cmds_size_app(seq![x, y], rest);
    assert(seq![x, y].drop_first() =~= seq![y]);
    assert(seq![y].drop_first() =~= Seq::<(Mode, DocModel)>::empty());
}

/// The engine's lookahead: does the head of the work list, flattened,
/// followed by everything after it, fit within `rem` more columns?  A
/// flexible break met in breaking mode ends the current line, so the
/// lookahead stops there and succeeds; only text can overrun.
pub open spec fn fits(cs: Seq<(Mode, DocModel)>, rem: int) -> bool
    decreases cmds_size(cs),
    via fits_decreases
{
    if cs.len() == 0 {
        true
    } else {
        let md = cs[0].0;
        let rest = cs.drop_first();
        match cs[0].1 {
            DocModel::Nil => fits(rest, rem),
            DocModel::Text(s) => rem - s.len() >= 0 && fits(rest, rem - s.len()),
            DocModel::Line => md is Brk || (rem - 1 >= 0 && fits(rest, rem - 1)),
            DocModel::LineNil => md is Brk || fits(rest, rem),
            DocModel::Hardline => md is Brk,
            DocModel::Group(a) => fits(seq![(md, *a)] + rest, rem),
            DocModel::Concat(a, b) => fits(seq![(md, *a), (md, *b)] + rest, rem),
        }
    }
}

#[via_fn]
proof fn fits_decreases(cs: Seq<(Mode, DocModel)>, rem: int) {
    lemma_work_list_step(cs);
}

/// Replacing the head of a work list by its immediate children keeps the
/// total node count below the old one.
proof fn lemma_work_list_step(cs: Seq<(Mode, DocModel)>)
    ensures
        cs.len() > 0 ==> (cs[0].1 matches DocModel::Group(a) ==> {
            &&& cmds_size(seq![(cs[0].0, *a)] + cs.drop_first()) == doc_size(*a) + cmds_size(
                cs.drop_first(),
            )
            &&& cmds_size(seq![(Mode::Flat, *a)] + cs.drop_first()) == doc_size(*a) + cmds_size(
                cs.drop_first(),
            )
            &&& cmds_size(seq![(Mode::Brk, *a)] + cs.drop_first()) == doc_size(*a) + cmds_size(
                cs.drop_first(),
            )
        }),
        cs.len() > 0 ==> (cs[0].1 matches DocModel::Concat(a, b) ==> cmds_size(
            seq![(cs[0].0, *a), (cs[0].0, *b)] + cs.drop_first(),
        ) == doc_size(*a) + doc_size(*b) + cmds_size(cs.drop_first())),
{
    if cs.len() > 0 {
        let md = cs[0].0;
        let rest = cs.drop_first();
        match cs[0].1 {
            DocModel::Group(a) => {
                lemma_cmds_size_cons((md, *a), rest);
                lemma_cmds_size_cons((Mode::Flat, *a), rest);
                lemma_cmds_size_cons((Mode::Brk, *a), rest);
            },
            DocModel::Concat(a, b) => {
                lemma_cmds_size_cons2((md, *a), (md, *b), rest);
            },
            _ => {},
        }
    }
}

/// The engine's renderer over a work list: emits text atoms, resolves
/// each group met in breaking mode by the lookahead above, and turns
/// flexible breaks into spaces, nothing, or newlines by mode.
pub open spec fn best(cs: Seq<(Mode, DocModel)>, pos: int, width: int) -> Seq<char>
    decreases cmds_size(cs),
    via best_decreases
{
    if cs.len() == 0 {
        Seq::empty()
    } else {
        let md = cs[0].0;
        let rest = cs.drop_first();
        match cs[0].1 {
            DocModel::Nil => best(rest, pos, width),
            DocModel::Text(s) => s + best(rest, pos + s.len(), width),
            DocModel::Line => if md is Flat {
                seq![' '] + best(rest, pos + 1, width)
            } else {
                seq!['\n'] + best(rest, 0, width)
            },
            DocModel::LineNil => if md is Flat {
                best(rest, pos, width)
            } else {
                seq!['\n'] + best(rest, 0, width)
            },
            DocModel::Hardline => seq!['\n'] + best(rest, 0, width),
            DocModel::Group(a) => if md is Brk && !fits(seq![(Mode::Flat, *a)] + rest, width - pos) {
                best(seq![(Mode::Brk, *a)] + rest, pos, width)
            } else {
                best(seq![(Mode::Flat, *a)] + rest, pos, width)
            },
            DocModel::Concat(a, b) => best(seq![(md, *a), (md, *b)] + rest, pos, width),
        }
    }
}

#[via_fn]
proof fn best_decreases(cs: Seq<(Mode, DocModel)>, pos: int, width: int) {
    lemma_work_list_step(cs);
}

/// What `render` produces for a given tree and target width: the renderer
/// started in breaking mode at column zero.
pub open spec fn spec_render(m: DocModel, width: int) -> Seq<char> {
    best(seq![(Mode::Brk, m)], 0, width)
}

/// Whether every character of every text atom is printable seven-bit
/// text, so that the engine counts one column per character.
pub open spec fn plain_text(s: Seq<char>) -> bool {
    forall|i: int| 0 <= i < s.len() ==> ' ' <= #[trigger] s[i] <= '~'
}

/// Whether every text atom of a tree is printable seven-bit text.
pub open spec fn plain_doc(m: DocModel) -> bool
    decreases m,
{
    match m {
        DocModel::Text(s) => plain_text(s),
        DocModel::Group(a) => plain_doc(*a),
        DocModel::Concat(a, b) => plain_doc(*a) && plain_doc(*b),
        _ => true,
    }
}

} // verus!
