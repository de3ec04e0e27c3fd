use vstd::prelude::*;
use crate::model::{DocModel, text_m, cat, group_m, binop_m, surrounded_m, tuple_m, comma_line_m, concat_m, intersperse_m, chain_m};
use crate::layout::{Mode, fits, best, spec_render, doc_size};

verus! {

/// Whether a tree holds no hard break, so that flattening it is defined.
pub open spec fn no_hard(m: DocModel) -> bool
    decreases m,
{
    match m {
        DocModel::Hardline => false,
        DocModel::Group(a) => no_hard(*a),
        DocModel::Concat(a, b) => no_hard(*a) && no_hard(*b),
        _ => true,
    }
}

/// Whether a tree holds no break marker at all, so that it renders to
/// the same text in every mode and at every width.
pub open spec fn no_breaks(m: DocModel) -> bool
    decreases m,
{
    match m {
        DocModel::Line => false,
        DocModel::LineNil => false,
        DocModel::Hardline => false,
        DocModel::Group(a) => no_breaks(*a),
        DocModel::Concat(a, b) => no_breaks(*a) && no_breaks(*b),
        _ => true,
    }
}

/// Whether a tree holds at least one text atom.
pub open spec fn has_text(m: DocModel) -> bool
    decreases m,
{
    match m {
        DocModel::Text(_) => true,
        DocModel::Group(a) => has_text(*a),
        DocModel::Concat(a, b) => has_text(*a) || has_text(*b),
        _ => false,
    }
}

/// The text of a tree laid out flat: every `Line` a single space, every
/// `LineNil` nothing.
pub open spec fn flat_text(m: DocModel) -> Seq<char>
    decreases m,
{
    match m {
        DocModel::Text(s) => s,
        DocModel::Line => seq![' '],
        DocModel::Group(a) => flat_text(*a),
        DocModel::Concat(a, b) => flat_text(*a) + flat_text(*b),
        _ => Seq::empty(),
    }
}

/// The items' texts joined with the separator's text between every
/// adjacent pair: no separator around zero or one item, one separator
/// fewer than there are items otherwise.
pub open spec fn joined(ts: Seq<Seq<char>>, sep: Seq<char>) -> Seq<char>
    decreases ts.len(),
{
    if ts.len() == 0 {
        Seq::empty()
    } else if ts.len() == 1 {
        ts[0]
    } else {
        joined(ts.drop_last(), sep) + sep + ts.last()
    }
}

/// One renderer step: a text atom emits its characters and advances the
/// column; the lookahead charges its length and fails on overrun.
proof fn step_text(md: Mode, s: Seq<char>, rest: Seq<(Mode, DocModel)>, pos: int, width: int, rem: int)
    ensures
        best(seq![(md, DocModel::Text(s))] + rest, pos, width) == s + best(
            rest,
            pos + s.len(),
            width,
        ),
        fits(seq![(md, DocModel::Text(s))] + rest, rem) == (rem - s.len() >= 0 && fits(
            rest,
            rem - s.len(),
        )),
{
    let cs = seq![(md, DocModel::Text(s))] + rest;
    assert(cs[0] == (md, DocModel::Text(s)));
    assert(cs.drop_first() =~= rest);
}

/// One step of either walk at a flexible break: in breaking mode it is a
/// newline and the lookahead stops content with success; flattened, a
/// `Line` is a space and a `LineNil` nothing.
proof fn step_line(md: Mode, m: DocModel, rest: Seq<(Mode, DocModel)>, pos: int, width: int, rem: int)
    requires
        m is Line || m is LineNil,
    ensures
        md is Brk ==> fits(seq![(md, m)] + rest, rem),
        md is Brk ==> best(seq![(md, m)] + rest, pos, width) == seq!['\n'] + best(rest, 0, width),
        md is Flat && m is LineNil ==> fits(seq![(md, m)] + rest, rem) == fits(rest, rem),
        md is Flat && m is LineNil ==> best(seq![(md, m)] + rest, pos, width) == best(
            rest,
            pos,
            width,
        ),
        md is Flat && m is Line ==> fits(seq![(md, m)] + rest, rem) == (rem - 1 >= 0 && fits(
            rest,
            rem - 1,
        )),
        md is Flat && m is Line ==> best(seq![(md, m)] + rest, pos, width) == seq![' '] + best(
            rest,
            pos + 1,
            width,
        ),
{
    let cs = seq![(md, m)] + rest;
    assert(cs[0] == (md, m));
    assert(cs.drop_first() =~= rest);
}

/// One renderer step: a break taken as a newline resets the column.
proof fn step_newline(md: Mode, m: DocModel, rest: Seq<(Mode, DocModel)>, pos: int, width: int)
    requires
        m is Hardline || (md is Brk && (m is Line || m is LineNil)),
    ensures
        best(seq![(md, m)] + rest, pos, width) == seq!['\n'] + best(rest, 0, width),
{
    let cs = seq![(md, m)] + rest;
    assert(cs[0] == (md, m));
    assert(cs.drop_first() =~= rest);
}

/// One step of either walk: a concatenation splits into its two sides.
proof fn step_cat(
    md: Mode,
    a: DocModel,
    b: DocModel,
    rest: Seq<(Mode, DocModel)>,
    pos: int,
    width: int,
    rem: int,
)
    ensures
        best(seq![(md, DocModel::Concat(Box::new(a), Box::new(b)))] + rest, pos, width) == best(
            seq![(md, a), (md, b)] + rest,
            pos,
            width,
        ),
        fits(seq![(md, DocModel::Concat(Box::new(a), Box::new(b)))] + rest, rem) == fits(
            seq![(md, a), (md, b)] + rest,
            rem,
        ),
{
    let m = DocModel::Concat(Box::new(a), Box::new(b));
    let cs = seq![(md, m)] + rest;
    assert(cs[0] == (md, m));
    assert(cs.drop_first() =~= rest);
}

/// One step of either walk at a group: the renderer flattens it when the
/// lookahead accepts, and the lookahead itself walks through it.
proof fn step_group(
    md: Mode,
    a: DocModel,
    rest: Seq<(Mode, DocModel)>,
    pos: int,
    width: int,
    rem: int,
)
    ensures
        md is Brk && fits(seq![(Mode::Flat, a)] + rest, width - pos) ==> best(
            seq![(md, DocModel::Group(Box::new(a)))] + rest,
            pos,
            width,
        ) == best(seq![(Mode::Flat, a)] + rest, pos, width),
        md is Brk && !fits(seq![(Mode::Flat, a)] + rest, width - pos) ==> best(
            seq![(md, DocModel::Group(Box::new(a)))] + rest,
            pos,
            width,
        ) == best(seq![(Mode::Brk, a)] + rest, pos, width),
        md is Flat ==> best(seq![(md, DocModel::Group(Box::new(a)))] + rest, pos, width) == best(
            seq![(Mode::Flat, a)] + rest,
            pos,
            width,
        ),
        fits(seq![(md, DocModel::Group(Box::new(a)))] + rest, rem) == fits(
            seq![(md, a)] + rest,
            rem,
        ),
{
    let m = DocModel::Group(Box::new(a));
    let cs = seq![(md, m)] + rest;
    assert(cs[0] == (md, m));
    assert(cs.drop_first() =~= rest);
}

/// Concatenation's flat text is the two sides' flat texts in order, and
/// it holds no break (no hard break) exactly when neither side does.
proof fn lemma_flat_cat(a: DocModel, b: DocModel)
    ensures
        flat_text(cat(a, b)) == flat_text(a) + flat_text(b),
        no_breaks(cat(a, b)) == (no_breaks(a) && no_breaks(b)),
        no_hard(cat(a, b)) == (no_hard(a) && no_hard(b)),
{
    if a is Nil {
        assert(flat_text(a) + flat_text(b) =~= flat_text(b));
    } else if b is Nil {
        assert(flat_text(a) + flat_text(b) =~= flat_text(a));
    }
}

/// Grouping changes no text: the flat text, the break markers and the
/// text atoms of `group_m(x)` are those of `x`.
proof fn lemma_group_m_keeps_text(x: DocModel)
    ensures
        flat_text(group_m(x)) == flat_text(x),
        no_breaks(group_m(x)) == no_breaks(x),
        no_hard(group_m(x)) == no_hard(x),
        has_text(group_m(x)) == has_text(x),
{
}

/// Laying out the head of the work list flat emits its flat text; the
/// lookahead accepts it exactly when that text still fits.
proof fn lemma_flat_step(m: DocModel, rest: Seq<(Mode, DocModel)>, rem: int, pos: int, width: int)
    requires
        no_hard(m),
    ensures
        rem >= 0 ==> fits(seq![(Mode::Flat, m)] + rest, rem) == (flat_text(m).len() <= rem
            && fits(rest, rem - flat_text(m).len())),
        best(seq![(Mode::Flat, m)] + rest, pos, width) == flat_text(m) + best(
            rest,
            pos + flat_text(m).len(),
            width,
        ),
    decreases doc_size(m),
{
    let cs = seq![(Mode::Flat, m)] + rest;
    assert(cs[0] == (Mode::Flat, m));
    assert(cs.drop_first() =~= rest);
    match m {
        DocModel::Text(s) => {
            assert(fits(cs, rem) == (rem - s.len() >= 0 && fits(rest, rem - s.len())));
            assert(flat_text(m) == s);
            assert(flat_text(m) + best(rest, pos + s.len(), width) =~= s + best(
                rest,
                pos + s.len(),
                width,
            ));
        },
        DocModel::Line => {
            assert(flat_text(m) =~= seq![' ']);
        },
        DocModel::LineNil => {
            assert(flat_text(m) =~= Seq::<char>::empty());
            assert(flat_text(m) + best(rest, pos, width) =~= best(rest, pos, width));
        },
        DocModel::Nil => {
            assert(flat_text(m) + best(rest, pos, width) =~= best(rest, pos, width));
        },
        DocModel::Group(a) => {
            lemma_flat_step(*a, rest, rem, pos, width);
        },
        DocModel::Concat(a, b) => {
            let mid = seq![(Mode::Flat, *b)] + rest;
            assert(seq![(Mode::Flat, *a), (Mode::Flat, *b)] + rest =~= seq![(Mode::Flat, *a)]
                + mid);
            lemma_flat_step(*a, mid, rem, pos, width);
            lemma_flat_step(*b, rest, rem - flat_text(*a).len(), pos + flat_text(*a).len(), width);
            assert(flat_text(m) =~= flat_text(*a) + flat_text(*b));
            assert(flat_text(*a) + (flat_text(*b) + best(
                rest,
                pos + flat_text(*a).len() + flat_text(*b).len(),
                width,
            )) =~= flat_text(m) + best(rest, pos + flat_text(m).len(), width));
        },
        DocModel::Hardline => {},
    }
}

/// A tree without break markers emits its flat text in either mode, and
/// the lookahead treats it the same way in either mode.
proof fn lemma_plain_step(
    md: Mode,
    m: DocModel,
    rest: Seq<(Mode, DocModel)>,
    rem: int,
    pos: int,
    width: int,
)
    requires
        no_breaks(m),
    ensures
        rem >= 0 ==> fits(seq![(md, m)] + rest, rem) == (flat_text(m).len() <= rem && fits(
            rest,
            rem - flat_text(m).len(),
        )),
        best(seq![(md, m)] + rest, pos, width) == flat_text(m) + best(
            rest,
            pos + flat_text(m).len(),
            width,
        ),
    decreases doc_size(m),
{
    let cs = seq![(md, m)] + rest;
    assert(cs[0] == (md, m));
    assert(cs.drop_first() =~= rest);
    match m {
        DocModel::Text(s) => {
            assert(flat_text(m) + best(rest, pos + s.len(), width) =~= s + best(
                rest,
                pos + s.len(),
                width,
            ));
        },
        DocModel::Nil => {
            assert(flat_text(m) + best(rest, pos, width) =~= best(rest, pos, width));
        },
        DocModel::Group(a) => {
            lemma_plain_step(md, *a, rest, rem, pos, width);
            lemma_plain_step(Mode::Flat, *a, rest, width - pos, pos, width);
            lemma_plain_step(Mode::Brk, *a, rest, rem, pos, width);
        },
        DocModel::Concat(a, b) => {
            let mid = seq![(md, *b)] + rest;
            assert(seq![(md, *a), (md, *b)] + rest =~= seq![(md, *a)] + mid);
            lemma_plain_step(md, *a, mid, rem, pos, width);
            lemma_plain_step(md, *b, rest, rem - flat_text(*a).len(), pos + flat_text(*a).len(), width);
            assert(flat_text(m) =~= flat_text(*a) + flat_text(*b));
            assert(flat_text(*a) + (flat_text(*b) + best(
                rest,
                pos + flat_text(*a).len() + flat_text(*b).len(),
                width,
            )) =~= flat_text(m) + best(rest, pos + flat_text(m).len(), width));
        },
        _ => {},
    }
}

/// With no budget left, the lookahead fails at a break-free tree as soon
/// as the tree holds any text atom, and otherwise passes it unchanged.
proof fn lemma_neg_fits_step(md: Mode, m: DocModel, rest: Seq<(Mode, DocModel)>, rem: int)
    requires
        no_breaks(m),
        rem < 0,
    ensures
        fits(seq![(md, m)] + rest, rem) == (!has_text(m) && fits(rest, rem)),
    decreases doc_size(m),
{
    let cs = seq![(md, m)] + rest;
    assert(cs[0] == (md, m));
    assert(cs.drop_first() =~= rest);
    match m {
        DocModel::Group(a) => {
            lemma_neg_fits_step(md, *a, rest, rem);
        },
        DocModel::Concat(a, b) => {
            let mid = seq![(md, *b)] + rest;
            assert(seq![(md, *a), (md, *b)] + rest =~= seq![(md, *a)] + mid);
            lemma_neg_fits_step(md, *a, mid, rem);
            lemma_neg_fits_step(md, *b, rest, rem);
        },
        _ => {},
    }
}

/// The interspersion of break-free items with a break-free separator is
/// break-free, and flattens to the items' texts joined by the
/// separator's text.
proof fn lemma_intersperse_flat(ms: Seq<DocModel>, sep: DocModel)
    requires
        forall|i: int| 0 <= i < ms.len() ==> no_breaks(#[trigger] ms[i]),
        no_breaks(sep),
    ensures
        no_breaks(intersperse_m(ms, sep)),
        flat_text(intersperse_m(ms, sep)) == joined(
            ms.map_values(|m: DocModel| flat_text(m)),
            flat_text(sep),
        ),
    decreases ms.len(),
{
    let ts = ms.map_values(|m: DocModel| flat_text(m));
    if ms.len() == 0 {
    } else if ms.len() == 1 {
        assert(ts[0] == flat_text(ms[0]));
    } else {
        lemma_intersperse_flat(ms.drop_last(), sep);
        assert(ms.drop_last().map_values(|m: DocModel| flat_text(m)) =~= ts.drop_last());
        let pre = intersperse_m(ms.drop_last(), sep);
        lemma_flat_cat(pre, sep);
        lemma_flat_cat(cat(pre, sep), ms.last());
        assert(ts.last() == flat_text(ms.last()));
        assert((flat_text(pre) + flat_text(sep)) + flat_text(ms.last()) =~= joined(
            ts.drop_last(),
            flat_text(sep),
        ) + flat_text(sep) + ts.last());
    }
}

/// `concat` of no items renders as empty text, whatever the width.
pub proof fn lemma_concat_empty_renders_empty(width: int)
    ensures
        spec_render(concat_m(Seq::empty()), width) == Seq::<char>::empty(),
{
    let cs = seq![(Mode::Brk, DocModel::Nil)];
    assert(concat_m(Seq::empty()) == DocModel::Nil);
    assert(cs.drop_first() =~= Seq::<(Mode, DocModel)>::empty());
    assert(best(cs, 0, width) == best(Seq::empty(), 0, width));
}

/// `intersperse` puts the separator exactly between adjacent items —
/// none around zero or one item, one fewer than there are items
/// otherwise — so at every width the rendering is the items' texts
/// joined by the separator's text, as long as neither items nor
/// separator hold break markers of their own.
pub proof fn lemma_intersperse_renders_joined(ms: Seq<DocModel>, sep: DocModel, width: int)
    requires
        forall|i: int| 0 <= i < ms.len() ==> no_breaks(#[trigger] ms[i]),
        no_breaks(sep),
    ensures
        spec_render(intersperse_m(ms, sep), width) == joined(
            ms.map_values(|m: DocModel| flat_text(m)),
            flat_text(sep),
        ),
{
    lemma_intersperse_flat(ms, sep);
    let im = intersperse_m(ms, sep);
    let none = Seq::<(Mode, DocModel)>::empty();
    lemma_plain_step(Mode::Brk, im, none, width, 0, width);
    assert(seq![(Mode::Brk, im)] + none =~= seq![(Mode::Brk, im)]);
    assert(best(none, flat_text(im).len() as int, width) == Seq::<char>::empty());
    assert(flat_text(im) + Seq::<char>::empty() =~= flat_text(im));
}

/// Chaining one or more printable values builds the very tree `concat`
/// builds for the same items, so the two render identically at every
/// width.
pub proof fn lemma_chain_matches_concat(ms: Seq<DocModel>, width: int)
    ensures
        chain_m(ms) == concat_m(ms),
        spec_render(chain_m(ms), width) == spec_render(concat_m(ms), width),
    decreases ms.len(),
{
    if ms.len() == 0 {
    } else if ms.len() == 1 {
        assert(ms.drop_last() =~= Seq::<DocModel>::empty());
        assert(concat_m(Seq::<DocModel>::empty()) == DocModel::Nil);
        assert(ms.last() == ms[0]);
        assert(concat_m(ms) == cat(DocModel::Nil, ms[0]));
    } else {
        lemma_chain_matches_concat(ms.drop_last(), width);
    }
}

/// `surrounded_by` around a break-free body: at a width that holds the
/// delimiters and the body on one line both soft breaks vanish and the
/// delimiters touch the body; at width zero both become newlines and the
/// body stands on its own line.
pub proof fn lemma_surrounded_by_fits_and_breaks(l: Seq<char>, x: DocModel, r: Seq<char>, width: int)
    requires
        l.len() >= 1,
        r.len() >= 1,
        no_breaks(x),
    ensures
        width >= l.len() + flat_text(x).len() + r.len() ==> spec_render(
            surrounded_m(l, x, r),
            width,
        ) == l + flat_text(x) + r,
        width == 0 && has_text(x) ==> spec_render(surrounded_m(l, x, r), width) == l + seq!['\n']
            + flat_text(x) + seq!['\n'] + r,
{
    let none = Seq::<(Mode, DocModel)>::empty();
    let tl = DocModel::Text(l);
    let tr = DocModel::Text(r);
    let gx = group_m(x);
    let sl = DocModel::Group(Box::new(DocModel::LineNil));
    let d1 = cat(tl, sl);
    let d2 = cat(d1, gx);
    let d3 = cat(d2, sl);
    let m = cat(d3, tr);
    lemma_group_m_keeps_text(x);
    let flat = flat_text(x).len() as int;
    assert(surrounded_m(l, x, r) == m);
    assert(!(gx is Nil) ==> m == DocModel::Concat(Box::new(d3), Box::new(tr)));

    if width >= l.len() + flat_text(x).len() + r.len() || (width == 0 && has_text(x)) {
        // A body with a text atom, or any body once the delimiters fit,
        // is not the empty document, so the spine has all five parts.
        if gx is Nil {
            assert(flat_text(x) =~= Seq::<char>::empty());
            assert(!has_text(x));
            assert(width >= l.len() + r.len());
        }
        if !(gx is Nil) {
            assert(d1 == DocModel::Concat(Box::new(tl), Box::new(sl)));
            assert(d2 == DocModel::Concat(Box::new(d1), Box::new(gx)));
            assert(d3 == DocModel::Concat(Box::new(d2), Box::new(sl)));
            let r1 = seq![(Mode::Brk, tr)];
            let r2 = seq![(Mode::Brk, sl), (Mode::Brk, tr)];
            let r3 = seq![(Mode::Brk, gx), (Mode::Brk, sl), (Mode::Brk, tr)];
            let r4 = seq![(Mode::Brk, sl), (Mode::Brk, gx), (Mode::Brk, sl), (Mode::Brk, tr)];
            // Unfold the concatenation spine.
            step_cat(Mode::Brk, d3, tr, none, 0, width, width);
            assert(seq![(Mode::Brk, m)] + none =~= seq![(Mode::Brk, m)]);
            assert(seq![(Mode::Brk, d3), (Mode::Brk, tr)] + none =~= seq![(Mode::Brk, d3)] + r1);
            step_cat(Mode::Brk, d2, sl, r1, 0, width, width);
            assert(seq![(Mode::Brk, d2), (Mode::Brk, sl)] + r1 =~= seq![(Mode::Brk, d2)] + r2);
            step_cat(Mode::Brk, d1, gx, r2, 0, width, width);
            assert(seq![(Mode::Brk, d1), (Mode::Brk, gx)] + r2 =~= seq![(Mode::Brk, d1)] + r3);
            step_cat(Mode::Brk, tl, sl, r3, 0, width, width);
            assert(seq![(Mode::Brk, tl), (Mode::Brk, sl)] + r3 =~= seq![(Mode::Brk, tl)] + r4);
            step_text(Mode::Brk, l, r4, 0, width, width);

            // The first soft break's lookahead runs through the body up
            // to the second soft break.
            let la = width - l.len();
            assert(r4 =~= seq![(Mode::Brk, sl)] + r3);
            step_group(Mode::Brk, DocModel::LineNil, r3, l.len() as int, width, la);
            step_line(Mode::Flat, DocModel::LineNil, r3, l.len() as int, width, la);
            assert(r3 =~= seq![(Mode::Brk, gx)] + r2);
            assert(r2 =~= seq![(Mode::Brk, sl)] + r1);

            if width >= l.len() + flat_text(x).len() + r.len() {
                // Both soft breaks vanish and the body lies flat.
                lemma_plain_step(Mode::Brk, gx, r2, la, l.len() as int, width);
                step_group(Mode::Brk, DocModel::LineNil, r1, 0, width, la - flat);
                step_line(Mode::Brk, DocModel::LineNil, r1, 0, width, la - flat);
                assert(fits(r2, la - flat));
                assert(fits(r3, la));
                assert(fits(seq![(Mode::Flat, DocModel::LineNil)] + r3, la));
                assert(best(r4, l.len() as int, width) == best(r3, l.len() as int, width));
                assert(best(r3, l.len() as int, width) == flat_text(x) + best(
                    r2,
                    l.len() + flat,
                    width,
                ));
                let pos2 = l.len() + flat;
                let la2 = width - pos2;
                step_group(Mode::Brk, DocModel::LineNil, r1, pos2, width, la2);
                step_line(Mode::Flat, DocModel::LineNil, r1, pos2, width, la2);
                assert(r1 =~= seq![(Mode::Brk, tr)] + none);
                step_text(Mode::Brk, r, none, 0, width, la2);
                assert(fits(seq![(Mode::Flat, DocModel::LineNil)] + r1, la2) == (la2 - r.len()
                    >= 0 && fits(none, la2 - r.len())));
                assert(fits(seq![(Mode::Flat, DocModel::LineNil)] + r1, la2));
                assert(best(r2, pos2, width) == best(r1, pos2, width));
                step_text(Mode::Brk, r, none, pos2, width, la2);
                assert(best(none, pos2 + r.len() as int, width) == Seq::<char>::empty());
                assert(l + (flat_text(x) + (r + Seq::<char>::empty())) =~= l + flat_text(x) + r);
            } else {
                // Width zero: the lookahead has no budget and the body
                // holds a text atom, so both soft breaks are newlines.
                lemma_neg_fits_step(Mode::Brk, gx, r2, la);
                assert(!fits(r3, la));
                assert(!fits(seq![(Mode::Flat, DocModel::LineNil)] + r3, la));
                step_line(Mode::Brk, DocModel::LineNil, r3, l.len() as int, width, la);
                assert(best(r4, l.len() as int, width) == seq!['\n'] + best(r3, 0, width));
                lemma_plain_step(Mode::Brk, gx, r2, 0, 0, width);
                assert(best(r3, 0, width) == flat_text(x) + best(r2, flat, width));
                let la2 = width - flat;
                step_group(Mode::Brk, DocModel::LineNil, r1, flat, width, la2);
                step_line(Mode::Flat, DocModel::LineNil, r1, flat, width, la2);
                assert(r1 =~= seq![(Mode::Brk, tr)] + none);
                step_text(Mode::Brk, r, none, 0, width, la2);
                assert(fits(seq![(Mode::Flat, DocModel::LineNil)] + r1, la2) == (la2 - r.len()
                    >= 0 && fits(none, la2 - r.len())));
                assert(!fits(seq![(Mode::Flat, DocModel::LineNil)] + r1, la2));
                step_line(Mode::Brk, DocModel::LineNil, r1, flat, width, la2);
                assert(best(r2, flat, width) == seq!['\n'] + best(r1, 0, width));
                step_text(Mode::Brk, r, none, 0, width, la2);
                assert(best(none, r.len() as int, width) == Seq::<char>::empty());
                assert(l + (seq!['\n'] + (flat_text(x) + (seq!['\n'] + (r
                    + Seq::<char>::empty())))) =~= l + seq!['\n'] + flat_text(x) + seq!['\n']
                    + r);
            }
        } else {
            // An empty body: the whole spine is the two delimiters with
            // two soft breaks between them, and everything fits.
            assert(m == DocModel::Concat(
                Box::new(DocModel::Concat(Box::new(DocModel::Concat(Box::new(tl), Box::new(sl))), Box::new(sl))),
                Box::new(tr),
            ));
            let r1 = seq![(Mode::Brk, tr)];
            let r2 = seq![(Mode::Brk, sl), (Mode::Brk, tr)];
            let r4 = seq![(Mode::Brk, sl), (Mode::Brk, sl), (Mode::Brk, tr)];
            step_cat(Mode::Brk, cat(d1, sl), tr, none, 0, width, width);
            assert(seq![(Mode::Brk, m)] + none =~= seq![(Mode::Brk, m)]);
            assert(seq![(Mode::Brk, cat(d1, sl)), (Mode::Brk, tr)] + none =~= seq![(
                Mode::Brk,
                cat(d1, sl),
            )] + r1);
            step_cat(Mode::Brk, d1, sl, r1, 0, width, width);
            assert(seq![(Mode::Brk, d1), (Mode::Brk, sl)] + r1 =~= seq![(Mode::Brk, d1)] + r2);
            step_cat(Mode::Brk, tl, sl, r2, 0, width, width);
            assert(seq![(Mode::Brk, tl), (Mode::Brk, sl)] + r2 =~= seq![(Mode::Brk, tl)] + r4);
            step_text(Mode::Brk, l, r4, 0, width, width);

            let la = width - l.len();
            assert(r4 =~= seq![(Mode::Brk, sl)] + r2);
            step_group(Mode::Brk, DocModel::LineNil, r2, l.len() as int, width, la);
            step_line(Mode::Flat, DocModel::LineNil, r2, l.len() as int, width, la);
            assert(r2 =~= seq![(Mode::Brk, sl)] + r1);
            step_group(Mode::Brk, DocModel::LineNil, r1, 0, width, la);
            step_line(Mode::Brk, DocModel::LineNil, r1, 0, width, la);
            assert(fits(seq![(Mode::Flat, DocModel::LineNil)] + r2, la));
            step_line(Mode::Flat, DocModel::LineNil, r2, l.len() as int, width, la);
            assert(best(r4, l.len() as int, width) == best(r2, l.len() as int, width));
            step_group(Mode::Brk, DocModel::LineNil, r1, l.len() as int, width, la);
            step_line(Mode::Flat, DocModel::LineNil, r1, l.len() as int, width, la);
            assert(r1 =~= seq![(Mode::Brk, tr)] + none);
            step_text(Mode::Brk, r, none, 0, width, la);
            assert(fits(seq![(Mode::Flat, DocModel::LineNil)] + r1, la) == (la - r.len() >= 0
                && fits(none, la - r.len())));
            assert(fits(seq![(Mode::Flat, DocModel::LineNil)] + r1, la));
            assert(best(r2, l.len() as int, width) == best(r1, l.len() as int, width));
            step_text(Mode::Brk, r, none, l.len() as int, width, la);
            assert(best(none, l.len() + r.len() as int, width) == Seq::<char>::empty());
            assert(l + (r + Seq::<char>::empty()) =~= l + r);
            assert(l + flat_text(x) + r =~= l + r);
        }
    }
}

/// `binop` lays the two operands and the operator on one line, single
/// spaces between, exactly when the whole fits the width; otherwise each
/// of the three stands on its own line.
pub proof fn lemma_binop_fits_and_breaks(a: Seq<char>, op: Seq<char>, b: Seq<char>, width: int)
    requires
        width >= 0,
        a.len() >= 1,
        op.len() >= 1,
        b.len() >= 1,
    ensures
        width >= a.len() + op.len() + b.len() + 2 ==> spec_render(
            binop_m(text_m(a), op, text_m(b)),
            width,
        ) == a + seq![' '] + op + seq![' '] + b,
        width < a.len() + op.len() + b.len() + 2 ==> spec_render(
            binop_m(text_m(a), op, text_m(b)),
            width,
        ) == a + seq!['\n'] + op + seq!['\n'] + b,
{
    let none = Seq::<(Mode, DocModel)>::empty();
    let ta = DocModel::Text(a);
    let top = DocModel::Text(op);
    let tb = DocModel::Text(b);
    let c1 = cat(ta, DocModel::Line);
    let c2 = cat(c1, top);
    let c3 = cat(c2, DocModel::Line);
    let inner = cat(c3, tb);
    assert(c1 == DocModel::Concat(Box::new(ta), Box::new(DocModel::Line)));
    assert(c2 == DocModel::Concat(Box::new(c1), Box::new(top)));
    assert(c3 == DocModel::Concat(Box::new(c2), Box::new(DocModel::Line)));
    assert(inner == DocModel::Concat(Box::new(c3), Box::new(tb)));
    assert(binop_m(text_m(a), op, text_m(b)) == group_m(inner));
    assert(group_m(inner) == DocModel::Group(Box::new(inner)));

    lemma_flat_cat(ta, DocModel::Line);
    lemma_flat_cat(c1, top);
    lemma_flat_cat(c2, DocModel::Line);
    lemma_flat_cat(c3, tb);
    assert(no_hard(inner));
    assert(flat_text(inner) =~= a + seq![' '] + op + seq![' '] + b);
    assert(flat_text(inner).len() == a.len() + op.len() + b.len() + 2);

    lemma_flat_step(inner, none, width, 0, width);
    step_group(Mode::Brk, inner, none, 0, width, 0);
    assert(seq![(Mode::Brk, DocModel::Group(Box::new(inner)))] + none =~= seq![(
        Mode::Brk,
        DocModel::Group(Box::new(inner)),
    )]);

    if width >= a.len() + op.len() + b.len() + 2 {
        assert(fits(none, width - flat_text(inner).len()));
        assert(fits(seq![(Mode::Flat, inner)] + none, width));
        assert(best(none, 0 + flat_text(inner).len() as int, width) == Seq::<char>::empty());
        assert(flat_text(inner) + Seq::<char>::empty() =~= a + seq![' '] + op + seq![' '] + b);
    } else {
        assert(!(flat_text(inner).len() <= width));
        assert(!fits(seq![(Mode::Flat, inner)] + none, width));
        // The group breaks: walk the spine in breaking mode.
        let r1 = seq![(Mode::Brk, tb)];
        let r2 = seq![(Mode::Brk, DocModel::Line), (Mode::Brk, tb)];
        let r3 = seq![(Mode::Brk, top), (Mode::Brk, DocModel::Line), (Mode::Brk, tb)];
        let r4 = seq![
            (Mode::Brk, DocModel::Line),
            (Mode::Brk, top),
            (Mode::Brk, DocModel::Line),
            (Mode::Brk, tb),
        ];
        step_cat(Mode::Brk, c3, tb, none, 0, width, width);
        assert(seq![(Mode::Brk, c3), (Mode::Brk, tb)] + none =~= seq![(Mode::Brk, c3)] + r1);
        step_cat(Mode::Brk, c2, DocModel::Line, r1, 0, width, width);
        assert(seq![(Mode::Brk, c2), (Mode::Brk, DocModel::Line)] + r1 =~= seq![(Mode::Brk, c2)]
            + r2);
        step_cat(Mode::Brk, c1, top, r2, 0, width, width);
        assert(seq![(Mode::Brk, c1), (Mode::Brk, top)] + r2 =~= seq![(Mode::Brk, c1)] + r3);
        step_cat(Mode::Brk, ta, DocModel::Line, r3, 0, width, width);
        assert(seq![(Mode::Brk, ta), (Mode::Brk, DocModel::Line)] + r3 =~= seq![(Mode::Brk, ta)]
            + r4);
        step_text(Mode::Brk, a, r4, 0, width, width);
        assert(r4 =~= seq![(Mode::Brk, DocModel::Line)] + r3);
        step_line(Mode::Brk, DocModel::Line, r3, a.len() as int, width, width);
        assert(r3 =~= seq![(Mode::Brk, top)] + r2);
        step_text(Mode::Brk, op, r2, 0, width, width);
        assert(r2 =~= seq![(Mode::Brk, DocModel::Line)] + r1);
        step_line(Mode::Brk, DocModel::Line, r1, op.len() as int, width, width);
        assert(r1 =~= seq![(Mode::Brk, tb)] + none);
        step_text(Mode::Brk, b, none, 0, width, width);
        assert(best(none, b.len() as int, width) == Seq::<char>::empty());
        assert(a + (seq!['\n'] + (op + (seq!['\n'] + (b + Seq::<char>::empty())))) =~= a
            + seq!['\n'] + op + seq!['\n'] + b);
    }
}

/// `tuple` of three text items: at a width that holds everything it
/// renders on one line, braces tight, items separated by comma and
/// space; at width zero every item stands on its own line and each comma
/// stays on the preceding item's line, never at the head of the next.
#[verifier::rlimit(100)]
pub proof fn lemma_tuple_fits_and_breaks(a: Seq<char>, b: Seq<char>, c: Seq<char>, width: int)
    requires
        a.len() >= 1,
        b.len() >= 1,
        c.len() >= 1,
    ensures
        width >= a.len() + b.len() + c.len() + 6 ==> spec_render(
            tuple_m(seq![DocModel::Text(a), DocModel::Text(b), DocModel::Text(c)]),
            width,
        ) == seq!['{'] + a + seq![',', ' '] + b + seq![',', ' '] + c + seq!['}'],
        width == 0 ==> spec_render(
            tuple_m(seq![DocModel::Text(a), DocModel::Text(b), DocModel::Text(c)]),
            width,
        ) == seq!['{', '\n'] + a + seq![',', '\n'] + b + seq![',', '\n'] + c + seq!['\n', '}'],
{
    reveal_strlit("{");
    reveal_strlit("}");
    reveal_strlit(",");
    let none = Seq::<(Mode, DocModel)>::empty();
    let ta = DocModel::Text(a);
    let tb = DocModel::Text(b);
    let tc = DocModel::Text(c);
    let ms = seq![ta, tb, tc];
    let tcm = DocModel::Text(seq![',']);
    let ln = DocModel::Line;
    let scm = cat(tcm, ln);
    let i1 = cat(ta, scm);
    let i2 = cat(i1, tb);
    let i3 = cat(i2, scm);
    let ii = cat(i3, tc);
    let gg = DocModel::Group(Box::new(ii));
    let t_ob = DocModel::Text(seq!['{']);
    let t_cb = DocModel::Text(seq!['}']);
    let sl = DocModel::Group(Box::new(DocModel::LineNil));
    let d1 = cat(t_ob, sl);
    let d2 = cat(d1, gg);
    let d3 = cat(d2, sl);
    let m = cat(d3, t_cb);

    // Tie the combinator model to the literal tree above.
    assert("{"@ =~= seq!['{']);
    assert("}"@ =~= seq!['}']);
    assert(","@ =~= seq![',']);
    assert(text_m(","@) == tcm);
    assert(comma_line_m() == scm);
    assert(ms.drop_last() =~= seq![ta, tb]);
    assert(seq![ta, tb].drop_last() =~= seq![ta]);
    assert(intersperse_m(seq![ta], scm) == ta);
    assert(intersperse_m(seq![ta, tb], scm) == i2);
    assert(intersperse_m(ms, scm) == ii);
    assert(group_m(ii) == gg);
    assert(group_m(gg) == gg);
    assert(text_m("{"@) == t_ob);
    assert(text_m("}"@) == t_cb);
    assert(tuple_m(ms) == m);
    assert(d1 == DocModel::Concat(Box::new(t_ob), Box::new(sl)));
    assert(d2 == DocModel::Concat(Box::new(d1), Box::new(gg)));
    assert(d3 == DocModel::Concat(Box::new(d2), Box::new(sl)));
    assert(m == DocModel::Concat(Box::new(d3), Box::new(t_cb)));
    assert(scm == DocModel::Concat(Box::new(tcm), Box::new(ln)));
    assert(i1 == DocModel::Concat(Box::new(ta), Box::new(scm)));
    assert(i2 == DocModel::Concat(Box::new(i1), Box::new(tb)));
    assert(i3 == DocModel::Concat(Box::new(i2), Box::new(scm)));
    assert(ii == DocModel::Concat(Box::new(i3), Box::new(tc)));

    // The flat text of the grouped interspersion.
    lemma_flat_cat(tcm, ln);
    lemma_flat_cat(ta, scm);
    lemma_flat_cat(i1, tb);
    lemma_flat_cat(i2, scm);
    lemma_flat_cat(i3, tc);
    assert(no_hard(ii));
    assert(flat_text(scm) =~= seq![',', ' ']);
    assert(flat_text(ii) =~= a + seq![',', ' '] + b + seq![',', ' '] + c);
    assert(flat_text(ii).len() == a.len() + b.len() + c.len() + 4);

    if width >= a.len() + b.len() + c.len() + 6 || width == 0 {
        let r1 = seq![(Mode::Brk, t_cb)];
        let r2 = seq![(Mode::Brk, sl), (Mode::Brk, t_cb)];
        let r3 = seq![(Mode::Brk, gg), (Mode::Brk, sl), (Mode::Brk, t_cb)];
        let r4 = seq![(Mode::Brk, sl), (Mode::Brk, gg), (Mode::Brk, sl), (Mode::Brk, t_cb)];
        // Unfold the outer concatenation spine.
        step_cat(Mode::Brk, d3, t_cb, none, 0, width, width);
        assert(seq![(Mode::Brk, m)] + none =~= seq![(Mode::Brk, m)]);
        assert(seq![(Mode::Brk, d3), (Mode::Brk, t_cb)] + none =~= seq![(Mode::Brk, d3)] + r1);
        step_cat(Mode::Brk, d2, sl, r1, 0, width, width);
        assert(seq![(Mode::Brk, d2), (Mode::Brk, sl)] + r1 =~= seq![(Mode::Brk, d2)] + r2);
        step_cat(Mode::Brk, d1, gg, r2, 0, width, width);
        assert(seq![(Mode::Brk, d1), (Mode::Brk, gg)] + r2 =~= seq![(Mode::Brk, d1)] + r3);
        step_cat(Mode::Brk, t_ob, sl, r3, 0, width, width);
        assert(seq![(Mode::Brk, t_ob), (Mode::Brk, sl)] + r3 =~= seq![(Mode::Brk, t_ob)] + r4);
        step_text(Mode::Brk, seq!['{'], r4, 0, width, width);

        // The first soft break's lookahead runs into the first item and
        // the comma behind it.
        let la = width - 1;
        assert(r4 =~= seq![(Mode::Brk, sl)] + r3);
        step_group(Mode::Brk, DocModel::LineNil, r3, 1, width, la);
        step_line(Mode::Flat, DocModel::LineNil, r3, 1, width, la);
        assert(r3 =~= seq![(Mode::Brk, gg)] + r2);
        step_group(Mode::Brk, ii, r2, 1, width, la);
        let q1 = seq![(Mode::Brk, tc)] + r2;
        let q2 = seq![(Mode::Brk, scm)] + q1;
        let q3 = seq![(Mode::Brk, tb)] + q2;
        let q4 = seq![(Mode::Brk, scm)] + q3;
        let q5 = seq![(Mode::Brk, ln)] + q3;
        step_cat(Mode::Brk, i3, tc, r2, 0, width, la);
        assert(seq![(Mode::Brk, i3), (Mode::Brk, tc)] + r2 =~= seq![(Mode::Brk, i3)] + q1);
        step_cat(Mode::Brk, i2, scm, q1, 0, width, la);
        assert(seq![(Mode::Brk, i2), (Mode::Brk, scm)] + q1 =~= seq![(Mode::Brk, i2)] + q2);
        step_cat(Mode::Brk, i1, tb, q2, 0, width, la);
        assert(seq![(Mode::Brk, i1), (Mode::Brk, tb)] + q2 =~= seq![(Mode::Brk, i1)] + q3);
        step_cat(Mode::Brk, ta, scm, q3, 0, width, la);
        assert(seq![(Mode::Brk, ta), (Mode::Brk, scm)] + q3 =~= seq![(Mode::Brk, ta)] + q4);
        step_text(Mode::Brk, a, q4, 0, width, la);
        step_cat(Mode::Brk, tcm, ln, q3, 0, width, la - a.len());
        assert(seq![(Mode::Brk, tcm), (Mode::Brk, ln)] + q3 =~= seq![(Mode::Brk, tcm)] + q5);
        step_text(Mode::Brk, seq![','], q5, 0, width, la - a.len());
        step_line(Mode::Brk, ln, q3, 0, width, la - a.len() - 1);
        assert(fits(seq![(Mode::Brk, ii)] + r2, la) == (la - a.len() >= 0 && la - a.len() - 1
            >= 0));
        assert(fits(seq![(Mode::Flat, DocModel::LineNil)] + r3, la) == (la >= a.len() + 1));

        if width >= a.len() + b.len() + c.len() + 6 {
            // Everything fits: both soft breaks and the group collapse.
            assert(fits(seq![(Mode::Flat, DocModel::LineNil)] + r3, la));
            step_line(Mode::Flat, DocModel::LineNil, r3, 1, width, la);
            assert(best(r4, 1, width) == best(r3, 1, width));
            // The group's own lookahead holds the whole flat text and
            // stops at the second soft break.
            lemma_flat_step(ii, r2, la, 1, width);
            let la3 = la - flat_text(ii).len();
            assert(la3 >= 1);
            assert(r2 =~= seq![(Mode::Brk, sl)] + r1);
            step_group(Mode::Brk, DocModel::LineNil, r1, 0, width, la3);
            step_line(Mode::Brk, DocModel::LineNil, r1, 0, width, la3);
            assert(fits(r2, la3));
            assert(fits(seq![(Mode::Flat, ii)] + r2, la));
            assert(best(r3, 1, width) == flat_text(ii) + best(r2, 1 + flat_text(ii).len() as int, width));
            let pos2 = 1 + flat_text(ii).len() as int;
            let la4 = width - pos2;
            step_group(Mode::Brk, DocModel::LineNil, r1, pos2, width, la4);
            step_line(Mode::Flat, DocModel::LineNil, r1, pos2, width, la4);
            assert(r1 =~= seq![(Mode::Brk, t_cb)] + none);
            step_text(Mode::Brk, seq!['}'], none, 0, width, la4);
            assert(fits(seq![(Mode::Flat, DocModel::LineNil)] + r1, la4) == (la4 - 1 >= 0 && fits(
                none,
                la4 - 1,
            )));
            assert(fits(seq![(Mode::Flat, DocModel::LineNil)] + r1, la4));
            assert(best(r2, pos2, width) == best(r1, pos2, width));
            step_text(Mode::Brk, seq!['}'], none, pos2, width, la4);
            assert(best(none, pos2 + 1, width) == Seq::<char>::empty());
            assert(seq!['{'] + (flat_text(ii) + (seq!['}'] + Seq::<char>::empty())) =~= seq!['{']
                + a + seq![',', ' '] + b + seq![',', ' '] + c + seq!['}']);
        } else {
            // Width zero: both soft breaks break, and so does the group.
            assert(!fits(seq![(Mode::Flat, DocModel::LineNil)] + r3, la));
            step_line(Mode::Brk, DocModel::LineNil, r3, 1, width, la);
            assert(best(r4, 1, width) == seq!['\n'] + best(r3, 0, width));
            lemma_flat_step(ii, r2, width, 0, width);
            assert(!(flat_text(ii).len() <= width));
            assert(!fits(seq![(Mode::Flat, ii)] + r2, width));
            step_group(Mode::Brk, ii, r2, 0, width, width);
            assert(best(r3, 0, width) == best(seq![(Mode::Brk, ii)] + r2, 0, width));
            // Walk the interspersion in breaking mode.
            step_text(Mode::Brk, a, q4, 0, width, width);
            step_cat(Mode::Brk, tcm, ln, q3, a.len() as int, width, width);
            step_text(Mode::Brk, seq![','], q5, a.len() as int, width, width);
            step_line(Mode::Brk, ln, q3, a.len() + 1 as int, width, width);
            step_text(Mode::Brk, b, q2, 0, width, width);
            step_cat(Mode::Brk, tcm, ln, q1, b.len() as int, width, width);
            assert(seq![(Mode::Brk, tcm), (Mode::Brk, ln)] + q1 =~= seq![(Mode::Brk, tcm)] + (seq![
                (Mode::Brk, ln),
            ] + q1));
            step_text(Mode::Brk, seq![','], seq![(Mode::Brk, ln)] + q1, b.len() as int, width, width);
            step_line(Mode::Brk, ln, q1, b.len() + 1 as int, width, width);
            step_text(Mode::Brk, c, r2, 0, width, width);
            // The second soft break's lookahead hits the closing brace.
            let la5 = width - c.len();
            assert(r2 =~= seq![(Mode::Brk, sl)] + r1);
            step_group(Mode::Brk, DocModel::LineNil, r1, c.len() as int, width, la5);
            step_line(Mode::Flat, DocModel::LineNil, r1, c.len() as int, width, la5);
            assert(r1 =~= seq![(Mode::Brk, t_cb)] + none);
            step_text(Mode::Brk, seq!['}'], none, 0, width, la5);
            assert(fits(seq![(Mode::Flat, DocModel::LineNil)] + r1, la5) == (la5 - 1 >= 0 && fits(
                none,
                la5 - 1,
            )));
            assert(!fits(seq![(Mode::Flat, DocModel::LineNil)] + r1, la5));
            step_line(Mode::Brk, DocModel::LineNil, r1, c.len() as int, width, la5);
            assert(best(r2, c.len() as int, width) == seq!['\n'] + best(r1, 0, width));
            step_text(Mode::Brk, seq!['}'], none, 0, width, la5);
            assert(best(none, 1, width) == Seq::<char>::empty());
            assert(seq!['{'] + (seq!['\n'] + (a + (seq![','] + (seq!['\n'] + (b + (seq![','] + (
            seq!['\n'] + (c + (seq!['\n'] + (seq!['}'] + Seq::<char>::empty())))))))))) =~= seq![
                '{',
                '\n',
            ] + a + seq![',', '\n'] + b + seq![',', '\n'] + c + seq!['\n', '}']);
        }
    }
}

/// A hard break inside an otherwise fitting group still renders as a
/// newline — the group never flattens it — while an ordinary flexible
/// break in the same place collapses to a single space once the group
/// fits.
pub proof fn lemma_hard_break_never_collapses(a: Seq<char>, b: Seq<char>, width: int)
    requires
        a.len() >= 1,
        b.len() >= 1,
    ensures
        spec_render(group_m(cat(cat(text_m(a), DocModel::Hardline), text_m(b))), width) == a
            + seq!['\n'] + b,
        width >= a.len() + 1 + b.len() ==> spec_render(
            group_m(cat(cat(text_m(a), DocModel::Line), text_m(b))),
            width,
        ) == a + seq![' '] + b,
{
    let none = Seq::<(Mode, DocModel)>::empty();
    let ta = DocModel::Text(a);
    let tb = DocModel::Text(b);

    // The group around the hard break: the lookahead refuses it at any
    // width, so the group breaks and the hard break is a newline.
    let inner = cat(cat(ta, DocModel::Hardline), tb);
    assert(inner == DocModel::Concat(
        Box::new(DocModel::Concat(Box::new(ta), Box::new(DocModel::Hardline))),
        Box::new(tb),
    ));
    assert(group_m(inner) == DocModel::Group(Box::new(inner)));
    let l2 = seq![(Mode::Flat, cat(ta, DocModel::Hardline)), (Mode::Flat, tb)];
    let l3 = seq![(Mode::Flat, ta), (Mode::Flat, DocModel::Hardline), (Mode::Flat, tb)];
    step_cat(Mode::Flat, cat(ta, DocModel::Hardline), tb, none, 0, width, width);
    assert(seq![(Mode::Flat, inner)] + none =~= seq![(Mode::Flat, inner)]);
    step_cat(Mode::Flat, ta, DocModel::Hardline, seq![(Mode::Flat, tb)], 0, width, width);
    assert(seq![(Mode::Flat, cat(ta, DocModel::Hardline)), (Mode::Flat, tb)] =~= seq![(
        Mode::Flat,
        cat(ta, DocModel::Hardline),
    )] + seq![(Mode::Flat, tb)]);
    assert(seq![(Mode::Flat, ta), (Mode::Flat, DocModel::Hardline)] + seq![(Mode::Flat, tb)]
        =~= l3);
    step_text(Mode::Flat, a, seq![(Mode::Flat, DocModel::Hardline), (Mode::Flat, tb)], 0, width, width);
    assert(l3 =~= seq![(Mode::Flat, ta)] + seq![(Mode::Flat, DocModel::Hardline), (Mode::Flat, tb)]);
    let l4 = seq![(Mode::Flat, DocModel::Hardline), (Mode::Flat, tb)];
    assert(l4[0] == (Mode::Flat, DocModel::Hardline));
    assert(!fits(l4, width - a.len()));
    assert(!fits(seq![(Mode::Flat, inner)], width));

    step_group(Mode::Brk, inner, none, 0, width, 0);
    assert(seq![(Mode::Brk, DocModel::Group(Box::new(inner)))] + none =~= seq![(
        Mode::Brk,
        DocModel::Group(Box::new(inner)),
    )]);
    let b2 = seq![(Mode::Brk, cat(ta, DocModel::Hardline)), (Mode::Brk, tb)];
    let b3 = seq![(Mode::Brk, ta), (Mode::Brk, DocModel::Hardline), (Mode::Brk, tb)];
    step_cat(Mode::Brk, cat(ta, DocModel::Hardline), tb, none, 0, width, width);
    assert(seq![(Mode::Brk, cat(ta, DocModel::Hardline)), (Mode::Brk, tb)] + none =~= b2);
    assert(b2 =~= seq![(Mode::Brk, cat(ta, DocModel::Hardline))] + seq![(Mode::Brk, tb)]);
    step_cat(Mode::Brk, ta, DocModel::Hardline, seq![(Mode::Brk, tb)], 0, width, width);
    assert(seq![(Mode::Brk, ta), (Mode::Brk, DocModel::Hardline)] + seq![(Mode::Brk, tb)] =~= b3);
    assert(b3 =~= seq![(Mode::Brk, ta)] + seq![(Mode::Brk, DocModel::Hardline), (Mode::Brk, tb)]);
    step_text(Mode::Brk, a, seq![(Mode::Brk, DocModel::Hardline), (Mode::Brk, tb)], 0, width, width);
    step_newline(Mode::Brk, DocModel::Hardline, seq![(Mode::Brk, tb)], a.len() as int, width);
    assert(seq![(Mode::Brk, DocModel::Hardline), (Mode::Brk, tb)] =~= seq![(
        Mode::Brk,
        DocModel::Hardline,
    )] + seq![(Mode::Brk, tb)]);
    assert(seq![(Mode::Brk, tb)] =~= seq![(Mode::Brk, tb)] + none);
    step_text(Mode::Brk, b, none, 0, width, width);
    assert(best(none, b.len() as int, width) == Seq::<char>::empty());
    assert(a + (seq!['\n'] + (b + Seq::<char>::empty())) =~= a + seq!['\n'] + b);

    // The same group with a flexible break: at a width that holds both
    // sides and the space, the lookahead accepts, and the break is a
    // single space.
    if width >= a.len() + 1 + b.len() {
        let inner2 = cat(cat(ta, DocModel::Line), tb);
        assert(inner2 == DocModel::Concat(
            Box::new(DocModel::Concat(Box::new(ta), Box::new(DocModel::Line))),
            Box::new(tb),
        ));
        assert(group_m(inner2) == DocModel::Group(Box::new(inner2)));
        lemma_flat_cat(ta, DocModel::Line);
        lemma_flat_cat(cat(ta, DocModel::Line), tb);
        assert(no_hard(inner2));
        lemma_flat_step(inner2, none, width, 0, width);
        assert(flat_text(inner2) =~= a + seq![' '] + b);
        assert(flat_text(inner2).len() == a.len() + 1 + b.len());
        assert(fits(none, width - flat_text(inner2).len()));
        assert(fits(seq![(Mode::Flat, inner2)] + none, width));
        step_group(Mode::Brk, inner2, none, 0, width, 0);
        assert(seq![(Mode::Brk, DocModel::Group(Box::new(inner2)))] + none =~= seq![(
            Mode::Brk,
            DocModel::Group(Box::new(inner2)),
        )]);
        assert(best(none, 0 + flat_text(inner2).len() as int, width) == Seq::<char>::empty());
        assert(flat_text(inner2) + Seq::<char>::empty() =~= a + seq![' '] + b);
    }
}

} // verus!
