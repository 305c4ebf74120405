//! Conditional attributes: a declaration's `#[configure(condition, #[attr], ...)]`
//! annotations become native `#[cfg_attr(condition, attr, ...)]` annotations,
//! at the declaration itself and at each of its fields, variants and trait
//! members; every other token stays as it is.
use vstd::prelude::*;

pub mod annotation;
pub mod decl;
pub mod laws;
pub mod token;

use crate::annotation::{error_toks, push_error};
use crate::decl::{expand, expand_decl};
use crate::token::{span_of, views, Tok, TokV};

verus! {

pub const MSG_UNEXPECTED: &'static str = "\"unexpected token in attribute\"";

/// The expansion of the attribute with arguments `attr` on the declaration
/// `item`: the declaration rewritten. The attribute takes no arguments: given
/// any, the whole expansion is one compile error, at the first of them.
pub open spec fn cfg_attrs_spec(attr: Seq<TokV>, item: Seq<TokV>) -> Seq<TokV> {
    if attr.len() == 0 {
        expand(item)
    } else {
        error_toks(MSG_UNEXPECTED@, span_of(attr[0]))
    }
}

/// Expands the attribute with arguments `attr` on the declaration `item`.
pub fn cfg_attrs(attr: &Vec<Tok>, item: &Vec<Tok>) -> (r: Vec<Tok>)
    ensures
        views(r@) == cfg_attrs_spec(views(attr@), views(item@)),
{
    if attr.len() != 0 {
        let mut out: Vec<Tok> = Vec::new();
        push_error(&mut out, MSG_UNEXPECTED, attr[0].span());
        assert(views(out@) =~= cfg_attrs_spec(views(attr@), views(item@)));
        return out;
    }
    expand_decl(item)
}

} // verus!
