use vstd::prelude::*;

use crate::token::{
    is_ident, is_open_with, is_punct, push_range, push_tok, span_of, step, step_of, tree_end,
    tree_end_of, views, Delim, Tok, TokV,
};

verus! {

/// The name of the conditional directive.
pub const RESERVED: &'static str = "configure";

/// The name of the native conditional-compilation attribute.
pub const NATIVE: &'static str = "cfg_attr";

pub const MSG_PARENS: &'static str = "\"expected attribute arguments in parentheses: `configure(...)`\"";

pub const MSG_CONDITION: &'static str = "\"expected a condition before `,`\"";

pub const MSG_COMMA: &'static str = "\"expected `,` after the condition\"";

pub const MSG_ITEM: &'static str = "\"expected `#[...]` attributes separated by `,`\"";

/// Whether an outer attribute `# [ ... ]` starts at `i` and closes within
/// the range ending at `b`.
pub open spec fn attr_at(s: Seq<TokV>, i: int, b: int) -> bool {
    &&& 0 <= i
    &&& i + 1 < b <= s.len()
    &&& is_punct(s[i], '#')
    &&& is_open_with(s[i + 1], Delim::Bracket)
    &&& i + 3 <= tree_end(s, i + 1) <= b
}

/// Whether the attribute contents `s[c0..c1]` are headed by the reserved name,
/// as a path of one segment.
pub open spec fn names_directive(s: Seq<TokV>, c0: int, c1: int) -> bool {
    &&& c0 < c1
    &&& is_ident(s[c0], RESERVED@)
    &&& !(c0 + 1 < c1 && is_punct(s[c0 + 1], ':'))
}

/// Whether the name at `c0` is followed by one parenthesised group that ends the
/// attribute contents at `c1`.
pub open spec fn has_arg_group(s: Seq<TokV>, c0: int, c1: int) -> bool {
    &&& c0 + 1 < c1
    &&& is_open_with(s[c0 + 1], Delim::Paren)
    &&& tree_end(s, c0 + 1) == c1
}

/// The tokens of a compile error carrying the string literal `lit`, at span `sp`.
pub open spec fn error_toks(lit: Seq<char>, sp: u64) -> Seq<TokV> {
    seq![
        TokV::Punct(':', true, sp),
        TokV::Punct(':', false, sp),
        TokV::Ident("core"@, sp),
        TokV::Punct(':', true, sp),
        TokV::Punct(':', false, sp),
        TokV::Ident("compile_error"@, sp),
        TokV::Punct('!', false, sp),
        TokV::Open(Delim::Brace, sp),
        TokV::Lit(lit, sp),
        TokV::Close(Delim::Brace, sp),
    ]
}

/// The native attribute `#[cfg_attr(cond, items)]`: the `#` and brackets at
/// spans `hash`, `open` and `close`, the name, parentheses and first comma at
/// span `sp`.
pub open spec fn native_form(
    cond: Seq<TokV>,
    items: Seq<TokV>,
    sp: u64,
    hash: u64,
    open: u64,
    close: u64,
) -> Seq<TokV> {
    seq![
        TokV::Punct('#', false, hash),
        TokV::Open(Delim::Bracket, open),
        TokV::Ident(NATIVE@, sp),
        TokV::Open(Delim::Paren, sp),
    ] + cond + seq![TokV::Punct(',', false, sp)] + items + seq![
        TokV::Close(Delim::Paren, sp),
        TokV::Close(Delim::Bracket, close),
    ]
}

/// The first top-level `,` in `s[i..b]`, or `b`.
pub open spec fn find_comma(s: Seq<TokV>, i: int, b: int) -> int
    decreases b - i,
{
    if i >= b {
        b
    } else if is_punct(s[i], ',') {
        i
    } else {
        find_comma(s, step(s, i, b), b)
    }
}

/// `p` put in front of the result `r`, where it is a success.
pub open spec fn prepend(p: Seq<TokV>, r: Result<Seq<TokV>, Seq<TokV>>) -> Result<Seq<TokV>, Seq<TokV>> {
    match r {
        Ok(x) => Ok(p + x),
        Err(d) => Err(d),
    }
}

/// Whether the attribute `s[i..e]` names the directive without a single
/// parenthesised argument group.
pub open spec fn unparenthesized(s: Seq<TokV>, i: int, e: int) -> bool {
    names_directive(s, i + 2, e - 1) && !has_arg_group(s, i + 2, e - 1)
}

/// The nested attribute list `s[i..b]` of a directive whose name has span `sp`:
/// attributes, with commas between and around them. Each attribute gives its
/// contents, the meta expression; a nested directive thus stays in the reserved
/// form, to be expanded in turn. The results are joined by commas; a comma put
/// in takes the span of the attribute that follows it. Fails with one
/// diagnostic: at a nested directive without a parenthesised argument group
/// (at its name), or where anything but attributes and commas stands in the
/// list (at `sp`).
pub open spec fn items_walk(s: Seq<TokV>, i: int, b: int, first: bool, sp: u64) -> Result<
    Seq<TokV>,
    Seq<TokV>,
>
    decreases b - i,
{
    if i >= b {
        Ok(Seq::empty())
    } else if attr_at(s, i, b) {
        let e = tree_end(s, i + 1);
        if unparenthesized(s, i, e) {
            Err(error_toks(MSG_PARENS@, span_of(s[i + 2])))
        } else {
            let sep = if first {
                Seq::empty()
            } else {
                seq![TokV::Punct(',', false, span_of(s[i]))]
            };
            prepend(sep + s.subrange(i + 2, e - 1), items_walk(s, e, b, false, sp))
        }
    } else if is_punct(s[i], ',') {
        items_walk(s, i + 1, b, first, sp)
    } else {
        Err(error_toks(MSG_ITEM@, sp))
    }
}

/// The rewrite of the directive `s[i..e]`, whose name at `i + 2` is followed by
/// its argument group, which ends the attribute. The native form keeps the
/// attribute's `#` and brackets; the tokens put in take the name's span.
pub open spec fn directive_out(s: Seq<TokV>, i: int, e: int) -> Seq<TokV> {
    let sp = span_of(s[i + 2]);
    let a = i + 4;
    let b = e - 2;
    let k = find_comma(s, a, b);
    if k == a {
        error_toks(MSG_CONDITION@, sp)
    } else if k >= b {
        error_toks(MSG_COMMA@, sp)
    } else {
        match items_walk(s, k + 1, b, true, sp) {
            Ok(items) => native_form(
                s.subrange(a, k),
                items,
                sp,
                span_of(s[i]),
                span_of(s[i + 1]),
                span_of(s[e - 1]),
            ),
            Err(d) => d,
        }
    }
}

/// The rewrite of the attribute `s[i..e]`: a directive becomes the native form
/// or, where malformed, a compile error at its name; any other attribute stays
/// as it is.
pub open spec fn attr_out(s: Seq<TokV>, i: int, e: int) -> Seq<TokV> {
    if !names_directive(s, i + 2, e - 1) {
        s.subrange(i, e)
    } else if unparenthesized(s, i, e) {
        error_toks(MSG_PARENS@, span_of(s[i + 2]))
    } else {
        directive_out(s, i, e)
    }
}

/// Index past the attributes that start at `i` in `s[i..b]`.
pub open spec fn attrs_end(s: Seq<TokV>, i: int, b: int) -> int
    decreases b - i,
{
    if attr_at(s, i, b) {
        attrs_end(s, tree_end(s, i + 1), b)
    } else {
        i
    }
}

/// The rewrite of the attributes that start at `i` in `s[i..b]`, each in place.
pub open spec fn attrs_out(s: Seq<TokV>, i: int, b: int) -> Seq<TokV>
    decreases b - i,
{
    if attr_at(s, i, b) {
        let e = tree_end(s, i + 1);
        attr_out(s, i, e) + attrs_out(s, e, b)
    } else {
        Seq::empty()
    }
}

fn ident(name: &str, sp: u64) -> (r: Tok)
    ensures
        r@ == TokV::Ident(name@, sp),
{
    Tok::Ident(name.to_owned(), sp)
}

/// Appends a compile error carrying the string literal `lit`, at span `sp`.
pub fn push_error(out: &mut Vec<Tok>, lit: &str, sp: u64)
    ensures
        views(final(out)@) == views(old(out)@) + error_toks(lit@, sp),
{
    let ghost start = views(out@);
    push_tok(out, Tok::Punct(':', true, sp));
    push_tok(out, Tok::Punct(':', false, sp));
    push_tok(out, ident("core", sp));
    push_tok(out, Tok::Punct(':', true, sp));
    push_tok(out, Tok::Punct(':', false, sp));
    push_tok(out, ident("compile_error", sp));
    push_tok(out, Tok::Punct('!', false, sp));
    push_tok(out, Tok::Open(Delim::Brace, sp));
    push_tok(out, Tok::Lit(lit.to_owned(), sp));
    push_tok(out, Tok::Close(Delim::Brace, sp));
    assert(views(out@) =~= start + error_toks(lit@, sp));
}

/// The first top-level `,` in `s[i..b]`, or `b`.
pub fn find_comma_of(s: &Vec<Tok>, i: usize, b: usize) -> (r: usize)
    requires
        i <= b <= s@.len(),
    ensures
        r as int == find_comma(views(s@), i as int, b as int),
        i <= r <= b,
{
    let ghost v = views(s@);
    let mut j = i;
    while j < b
        invariant
            v == views(s@),
            i <= j <= b <= s@.len(),
            find_comma(v, j as int, b as int) == find_comma(v, i as int, b as int),
        decreases b - j,
    {
        if s[j].is_punct(',') {
            return j;
        }
        j = step_of(s, j, b);
    }
    b
}

/// Whether an attribute starts at `i` and closes within the range ending at `b`.
pub fn attr_at_of(s: &Vec<Tok>, i: usize, b: usize) -> (r: bool)
    requires
        b <= s@.len(),
    ensures
        r == attr_at(views(s@), i as int, b as int),
{
    if i >= b || b - i < 2 {
        return false;
    }
    if !s[i].is_punct('#') || !s[i + 1].is_open_with(Delim::Bracket) {
        return false;
    }
    let e = tree_end_of(s, i + 1);
    e >= 3 && i <= e - 3 && e <= b
}

pub proof fn lemma_prepend_assoc(p: Seq<TokV>, q: Seq<TokV>, r: Result<Seq<TokV>, Seq<TokV>>)
    ensures
        prepend(p, prepend(q, r)) == prepend(p + q, r),
{
    if let Ok(x) = r {
        assert(p + (q + x) =~= (p + q) + x);
    }
}

/// Whether the attribute `s[i..e]` names the directive without a single
/// parenthesised argument group, as `unparenthesized` gives it.
fn unparenthesized_of(s: &Vec<Tok>, i: usize, e: usize) -> (r: bool)
    requires
        i + 3 <= e <= s@.len(),
    ensures
        r == unparenthesized(views(s@), i as int, e as int),
{
    let c0 = i + 2;
    let c1 = e - 1;
    let named = c0 < c1 && s[c0].is_ident(RESERVED) && !(c0 + 1 < c1 && s[c0 + 1].is_punct(':'));
    named && !(c0 + 1 < c1 && s[c0 + 1].is_open_with(Delim::Paren) && tree_end_of(s, c0 + 1) == c1)
}

/// Appends the nested attribute list `s[i..b]` of a directive whose name has
/// span `sp` to `out`, as `items_walk` gives it; where the list is malformed,
/// `out` becomes the diagnostic alone.
fn push_items(out: &mut Vec<Tok>, s: &Vec<Tok>, i: usize, b: usize, sp: u64) -> (ok: bool)
    requires
        i <= b <= s@.len(),
    ensures
        ok == items_walk(views(s@), i as int, b as int, true, sp) is Ok,
        ok ==> views(final(out)@) == views(old(out)@) + items_walk(
            views(s@),
            i as int,
            b as int,
            true,
            sp,
        )->Ok_0,
        !ok ==> views(final(out)@) == items_walk(views(s@), i as int, b as int, true, sp)->Err_0,
{
    let ghost v = views(s@);
    let ghost acc: Seq<TokV> = Seq::empty();
    let mut j = i;
    let mut first = true;
    assert(views(out@) =~= views(old(out)@) + acc);
    proof {
        if let Ok(r) = items_walk(v, i as int, b as int, true, sp) {
            assert(acc + r =~= r);
        }
    }
    while j < b
        invariant
            v == views(s@),
            i <= j <= b <= s@.len(),
            views(out@) == views(old(out)@) + acc,
            items_walk(v, i as int, b as int, true, sp) == prepend(
                acc,
                items_walk(v, j as int, b as int, first, sp),
            ),
        decreases b - j,
    {
        if attr_at_of(s, j, b) {
            let e = tree_end_of(s, j + 1);
            if unparenthesized_of(s, j, e) {
                *out = Vec::new();
                push_error(out, MSG_PARENS, s[j + 2].span());
                assert(views(out@) =~= Seq::<TokV>::empty() + error_toks(MSG_PARENS@, span_of(v[j + 2])));
                return false;
            }
            let ghost sep = if first {
                Seq::<TokV>::empty()
            } else {
                seq![TokV::Punct(',', false, span_of(v[j as int]))]
            };
            let ghost before = views(out@);
            if !first {
                push_tok(out, Tok::Punct(',', false, s[j].span()));
            }
            assert(views(out@) == before + sep);
            push_range(out, s, j + 2, e - 1);
            proof {
                let m = v.subrange(j + 2, e - 1);
                lemma_prepend_assoc(acc, sep + m, items_walk(v, e as int, b as int, false, sp));
                assert(views(out@) =~= views(old(out)@) + (acc + (sep + m)));
                acc = acc + (sep + m);
            }
            first = false;
            j = e;
        } else if s[j].is_punct(',') {
            j = j + 1;
        } else {
            *out = Vec::new();
            push_error(out, MSG_ITEM, sp);
            assert(views(out@) =~= Seq::<TokV>::empty() + error_toks(MSG_ITEM@, sp));
            return false;
        }
    }
    proof {
        assert(acc + Seq::<TokV>::empty() =~= acc);
    }
    true
}

/// Appends the rewrite of the directive `s[i..e]`, as `directive_out` gives it.
fn push_directive(out: &mut Vec<Tok>, s: &Vec<Tok>, i: usize, e: usize)
    requires
        i + 6 <= e <= s@.len(),
    ensures
        views(final(out)@) == views(old(out)@) + directive_out(views(s@), i as int, e as int),
{
    let ghost v = views(s@);
    let sp = s[i + 2].span();
    let a = i + 4;
    let b = e - 2;
    let k = find_comma_of(s, a, b);
    if k == a {
        push_error(out, MSG_CONDITION, sp);
        return;
    }
    if k >= b {
        push_error(out, MSG_COMMA, sp);
        return;
    }
    let mut items: Vec<Tok> = Vec::new();
    let ok = push_items(&mut items, s, k + 1, b, sp);
    let n = items.len();
    if !ok {
        push_range(out, &items, 0, n);
        assert(views(items@).subrange(0, n as int) =~= views(items@));
        return;
    }
    let ghost start = views(out@);
    proof {
        assert(views(items@) =~= Seq::<TokV>::empty() + views(items@));
    }
    push_tok(out, Tok::Punct('#', false, s[i].span()));
    push_tok(out, Tok::Open(Delim::Bracket, s[i + 1].span()));
    push_tok(out, ident(NATIVE, sp));
    push_tok(out, Tok::Open(Delim::Paren, sp));
    push_range(out, s, a, k);
    push_tok(out, Tok::Punct(',', false, sp));
    push_range(out, &items, 0, n);
    push_tok(out, Tok::Close(Delim::Paren, sp));
    push_tok(out, Tok::Close(Delim::Bracket, s[e - 1].span()));
    proof {
        assert(views(items@).subrange(0, n as int) =~= views(items@));
        assert(views(out@) =~= start + native_form(
            v.subrange(a as int, k as int),
            items_walk(v, k + 1, b as int, true, sp)->Ok_0,
            sp,
            span_of(v[i as int]),
            span_of(v[i + 1]),
            span_of(v[e - 1]),
        ));
    }
}

/// Appends the rewrite of the attribute `s[i..e]`, as `attr_out` gives it.
pub fn push_attr(out: &mut Vec<Tok>, s: &Vec<Tok>, i: usize, e: usize)
    requires
        i + 3 <= e <= s@.len(),
        e == tree_end(views(s@), i + 1),
    ensures
        views(final(out)@) == views(old(out)@) + attr_out(views(s@), i as int, e as int),
{
    let c0 = i + 2;
    let c1 = e - 1;
    let named = c0 < c1 && s[c0].is_ident(RESERVED) && !(c0 + 1 < c1 && s[c0 + 1].is_punct(':'));
    if !named {
        push_range(out, s, i, e);
    } else if unparenthesized_of(s, i, e) {
        push_error(out, MSG_PARENS, s[c0].span());
    } else {
        proof {
            crate::token::lemma_close_from_bounds(views(s@), c0 + 2, 1);
        }
        push_directive(out, s, i, e);
    }
}

/// Appends the rewrite of the attributes that start at `i` in `s[i..b]`, and
/// returns the index past them.
pub fn push_attrs(out: &mut Vec<Tok>, s: &Vec<Tok>, i: usize, b: usize) -> (r: usize)
    requires
        i <= b <= s@.len(),
    ensures
        r as int == attrs_end(views(s@), i as int, b as int),
        i <= r <= b,
        views(final(out)@) == views(old(out)@) + attrs_out(views(s@), i as int, b as int),
{
    let ghost v = views(s@);
    let ghost acc: Seq<TokV> = Seq::empty();
    let mut j = i;
    assert(views(out@) =~= views(old(out)@) + acc);
    assert(acc + attrs_out(v, i as int, b as int) =~= attrs_out(v, i as int, b as int));
    while attr_at_of(s, j, b)
        invariant
            v == views(s@),
            i <= j <= b <= s@.len(),
            views(out@) == views(old(out)@) + acc,
            attrs_out(v, i as int, b as int) == acc + attrs_out(v, j as int, b as int),
            attrs_end(v, i as int, b as int) == attrs_end(v, j as int, b as int),
        decreases b - j,
    {
        let e = tree_end_of(s, j + 1);
        push_attr(out, s, j, e);
        proof {
            let a = attr_out(v, j as int, e as int);
            assert(acc + (a + attrs_out(v, e as int, b as int)) =~= (acc + a) + attrs_out(v, e as int, b as int));
            acc = acc + a;
        }
        j = e;
    }
    proof {
        assert(acc + attrs_out(v, j as int, b as int) =~= acc);
    }
    j
}

} // verus!
