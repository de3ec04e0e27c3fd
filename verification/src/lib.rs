//! A small layer for building structured, layout-aware text: a capability
//! for turning heterogeneous values into documents, a fixed set of
//! combinators over them, and contracts that pin down the text each
//! document renders to at a given width.

mod model;
mod layout;
mod engine;
mod printable;
pub mod combinators;
mod laws;

pub use model::{
    DocModel, text_m, cat, group_m, softline_m, surrounded_m, binop_m, concat_m, intersperse_m,
    comma_line_m, tuple_m, chain_m,
};
pub use layout::{Mode, fits, best, spec_render, plain_text, plain_doc};
pub use engine::{Doc, t, group, render};
pub use printable::{PrettySimple, Ln, Piece};
pub use combinators::{surrounded_by, brackets, parens, braces, binop, intersperse, tuple};
pub use combinators::doc;
pub use laws::{
    no_hard, no_breaks, has_text, flat_text, joined, lemma_concat_empty_renders_empty,
    lemma_chain_matches_concat, lemma_intersperse_renders_joined,
    lemma_hard_break_never_collapses, lemma_binop_fits_and_breaks,
    lemma_surrounded_by_fits_and_breaks, lemma_tuple_fits_and_breaks,
};
