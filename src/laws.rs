use vstd::prelude::*;

use crate::annotation::{
    attr_at, attr_out, attrs_end, attrs_out, error_toks, native_form, find_comma, has_arg_group,
    items_walk, names_directive, unparenthesized, MSG_PARENS,
};
use crate::decl::{
    closed_at, decl_shape, expand, find_kw, kind_of, lemma_find_kw, lemma_last_brace,
    lemma_tuple_group, list_out, member_group, next_angle, opens_fields, ListKind, Shape,
};
use crate::token::{
    close_from, is_open, is_open_with, is_punct, lemma_close_from_bounds, span_of, step, tree_end,
    Delim, TokV,
};

verus! {

/// Whether no annotation in the run that starts at `i` in `s[i..b]` names the
/// directive.
pub open spec fn run_plain(s: Seq<TokV>, i: int, b: int) -> bool
    decreases b - i,
{
    if attr_at(s, i, b) {
        !names_directive(s, i + 2, tree_end(s, i + 1) - 1) && run_plain(s, tree_end(s, i + 1), b)
    } else {
        true
    }
}

/// Whether no annotation at a member of the list `s[i..b]` names the directive:
/// the members and their positions are those that `list_out` walks.
pub open spec fn list_plain(
    s: Seq<TokV>,
    i: int,
    b: int,
    kind: ListKind,
    start: bool,
    angle: nat,
    flag: bool,
) -> bool
    decreases b - i,
{
    if i >= b || i < 0 || b > s.len() {
        true
    } else if start && attr_at(s, i, b) {
        let e = tree_end(s, i + 1);
        !names_directive(s, i + 2, e - 1) && list_plain(s, e, b, kind, true, angle, flag)
    } else if kind != ListKind::Members && angle == 0 && is_punct(s[i], ',') {
        list_plain(s, i + 1, b, kind, true, 0, false)
    } else if kind == ListKind::Members && is_punct(s[i], ';') {
        list_plain(s, i + 1, b, kind, true, 0, false)
    } else if kind == ListKind::Variants && !flag && opens_fields(s, i, b) {
        let e = tree_end(s, i);
        list_plain(s, i + 1, e - 1, ListKind::Fields, true, 0, false) && list_plain(
            s,
            e,
            b,
            kind,
            false,
            angle,
            true,
        )
    } else if kind == ListKind::Members && !flag && angle == 0 && is_open_with(s[i], Delim::Brace)
        && closed_at(s, i, b) {
        list_plain(s, tree_end(s, i), b, kind, true, 0, false)
    } else {
        let flag2 = flag || (is_punct(s[i], '=') && (kind == ListKind::Variants || angle == 0));
        list_plain(s, step(s, i, b), b, kind, false, next_angle(s, i, kind, angle), flag2)
    }
}

/// Whether no annotation at a member of the declaration `s` (field, variant,
/// field of a variant, trait member) names the directive.
pub open spec fn members_plain(s: Seq<TokV>) -> bool {
    let n = s.len() as int;
    let sh = decl_shape(s);
    let g = member_group(s, find_kw(s, attrs_end(s, 0, n), n), sh);
    sh == Shape::Passthrough || g < 0 || list_plain(s, g + 1, tree_end(s, g) - 1, kind_of(sh), true, 0, false)
}

/// Whether no annotation at an attachment point of the declaration `s` (its
/// head, and each member) names the directive. Tokens elsewhere, in bodies,
/// types or expressions, are not annotations of the declaration.
pub open spec fn no_directive(s: Seq<TokV>) -> bool {
    run_plain(s, 0, s.len() as int) && members_plain(s)
}

proof fn lemma_attrs_plain(s: Seq<TokV>, i: int, b: int)
    requires
        run_plain(s, i, b),
        0 <= i <= b <= s.len(),
    ensures
        i <= attrs_end(s, i, b) <= b,
        attrs_out(s, i, b) == s.subrange(i, attrs_end(s, i, b)),
    decreases b - i,
{
    if attr_at(s, i, b) {
        let e = tree_end(s, i + 1);
        lemma_attrs_plain(s, e, b);
        assert(s.subrange(i, e) + s.subrange(e, attrs_end(s, e, b)) =~= s.subrange(i, attrs_end(s, e, b)));
    } else {
        assert(s.subrange(i, i) =~= Seq::<TokV>::empty());
    }
}

proof fn lemma_list_plain(
    s: Seq<TokV>,
    i: int,
    b: int,
    kind: ListKind,
    start: bool,
    angle: nat,
    flag: bool,
)
    requires
        list_plain(s, i, b, kind, start, angle, flag),
        0 <= i <= b <= s.len(),
    ensures
        list_out(s, i, b, kind, start, angle, flag) == s.subrange(i, b),
    decreases b - i,
{
    if i >= b {
        assert(s.subrange(i, b) =~= Seq::<TokV>::empty());
    } else if start && attr_at(s, i, b) {
        let e = tree_end(s, i + 1);
        lemma_list_plain(s, e, b, kind, true, angle, flag);
        assert(s.subrange(i, e) + s.subrange(e, b) =~= s.subrange(i, b));
    } else if kind != ListKind::Members && angle == 0 && is_punct(s[i], ',') {
        lemma_list_plain(s, i + 1, b, kind, true, 0, false);
        assert(seq![s[i]] + s.subrange(i + 1, b) =~= s.subrange(i, b));
    } else if kind == ListKind::Members && is_punct(s[i], ';') {
        lemma_list_plain(s, i + 1, b, kind, true, 0, false);
        assert(seq![s[i]] + s.subrange(i + 1, b) =~= s.subrange(i, b));
    } else if kind == ListKind::Variants && !flag && opens_fields(s, i, b) {
        let e = tree_end(s, i);
        lemma_list_plain(s, i + 1, e - 1, ListKind::Fields, true, 0, false);
        lemma_list_plain(s, e, b, kind, false, angle, true);
        assert(seq![s[i]] + s.subrange(i + 1, e - 1) + seq![s[e - 1]] + s.subrange(e, b) =~= s.subrange(i, b));
    } else if kind == ListKind::Members && !flag && angle == 0 && is_open_with(s[i], Delim::Brace)
        && closed_at(s, i, b) {
        let e = tree_end(s, i);
        lemma_list_plain(s, e, b, kind, true, 0, false);
        assert(s.subrange(i, e) + s.subrange(e, b) =~= s.subrange(i, b));
    } else {
        let e = step(s, i, b);
        let flag2 = flag || (is_punct(s[i], '=') && (kind == ListKind::Variants || angle == 0));
        lemma_list_plain(s, e, b, kind, false, next_angle(s, i, kind, angle), flag2);
        assert(s.subrange(i, e) + s.subrange(e, b) =~= s.subrange(i, b));
    }
}

/// A declaration of any shape in which no annotation at an attachment point
/// is a directive expands to itself, token for token.
pub proof fn law_passthrough(s: Seq<TokV>)
    requires
        no_directive(s),
    ensures
        expand(s) == s,
{
    let n = s.len() as int;
    let j = attrs_end(s, 0, n);
    lemma_attrs_plain(s, 0, n);
    let sh = decl_shape(s);
    if sh != Shape::Passthrough {
        let k = find_kw(s, j, n);
        lemma_find_kw(s, j, n);
        lemma_last_brace(s, k + 1, n, -1);
        lemma_tuple_group(s, k + 1, n, 0);
        let g = member_group(s, k, sh);
        if g < 0 {
            assert(s.subrange(0, j) + s.subrange(j, n) =~= s);
        } else {
            let e = tree_end(s, g);
            lemma_list_plain(s, g + 1, e - 1, kind_of(sh), true, 0, false);
            assert(s.subrange(0, j) + (s.subrange(j, g + 1) + s.subrange(g + 1, e - 1) + s.subrange(e - 1, n)) =~= s);
        }
    }
}

/// Around a directive, annotations that are not directives keep their places:
/// for annotations `a`, `d`, `c` in a row, where `a` and `c` are no
/// directives, the run is rewritten to `a`, the rewrite of `d`, `c`, and the
/// rest of the run rewritten.
pub proof fn law_order_kept(s: Seq<TokV>, i: int, b: int)
    requires
        0 <= i,
        attr_at(s, i, b),
        attr_at(s, tree_end(s, i + 1), b),
        attr_at(s, tree_end(s, tree_end(s, i + 1) + 1), b),
        !names_directive(s, i + 2, tree_end(s, i + 1) - 1),
        !names_directive(
            s,
            tree_end(s, tree_end(s, i + 1) + 1) + 2,
            tree_end(s, tree_end(s, tree_end(s, i + 1) + 1) + 1) - 1,
        ),
    ensures
        ({
            let e1 = tree_end(s, i + 1);
            let e2 = tree_end(s, e1 + 1);
            let e3 = tree_end(s, e2 + 1);
            attrs_out(s, i, b) == s.subrange(i, e1) + attr_out(s, e1, e2) + s.subrange(e2, e3)
                + attrs_out(s, e3, b)
        }),
{
    let e1 = tree_end(s, i + 1);
    let e2 = tree_end(s, e1 + 1);
    let e3 = tree_end(s, e2 + 1);
    assert(attrs_out(s, e2, b) == s.subrange(e2, e3) + attrs_out(s, e3, b));
    assert(attrs_out(s, e1, b) == attr_out(s, e1, e2) + attrs_out(s, e2, b));
    assert(attrs_out(s, i, b) == s.subrange(i, e1) + attrs_out(s, e1, b));
    assert(s.subrange(i, e1) + (attr_out(s, e1, e2) + (s.subrange(e2, e3) + attrs_out(s, e3, b)))
        =~= s.subrange(i, e1) + attr_out(s, e1, e2) + s.subrange(e2, e3) + attrs_out(s, e3, b));
}

/// A directive without a parenthesised argument group, leading a supported
/// declaration in which no other annotation at an attachment point is a
/// directive, becomes exactly one
/// diagnostic in its own place, and the rest of the declaration stays as it is.
pub proof fn law_error_in_place(s: Seq<TokV>)
    requires
        attr_at(s, 0, s.len() as int),
        names_directive(s, 2, tree_end(s, 1) - 1),
        !has_arg_group(s, 2, tree_end(s, 1) - 1),
        run_plain(s, tree_end(s, 1), s.len() as int),
        members_plain(s),
        decl_shape(s) != Shape::Passthrough,
    ensures
        expand(s) == error_toks(MSG_PARENS@, span_of(s[2])) + s.subrange(tree_end(s, 1), s.len() as int),
{
    let n = s.len() as int;
    let e0 = tree_end(s, 1);
    let j = attrs_end(s, 0, n);
    assert(j == attrs_end(s, e0, n));
    assert(attrs_out(s, 0, n) == error_toks(MSG_PARENS@, span_of(s[2])) + attrs_out(s, e0, n));
    lemma_attrs_plain(s, e0, n);
    let sh = decl_shape(s);
    let k = find_kw(s, j, n);
    lemma_find_kw(s, j, n);
    lemma_last_brace(s, k + 1, n, -1);
    lemma_tuple_group(s, k + 1, n, 0);
    let g = member_group(s, k, sh);
    let err = error_toks(MSG_PARENS@, span_of(s[2]));
    if g < 0 {
        assert(err + s.subrange(e0, j) + s.subrange(j, n) =~= err + s.subrange(e0, n));
    } else {
        let e = tree_end(s, g);
        lemma_list_plain(s, g + 1, e - 1, kind_of(sh), true, 0, false);
        assert(err + s.subrange(e0, j) + (s.subrange(j, g + 1) + s.subrange(g + 1, e - 1) + s.subrange(e - 1, n))
            =~= err + s.subrange(e0, n));
    }
}

proof fn lemma_close_shift(s: Seq<TokV>, p: int, q: int, j: int, d: nat)
    requires
        0 <= p <= j <= q <= s.len(),
    ensures
        close_from(s.subrange(p, q), j - p, d) == if 0 < close_from(s, j, d) <= q {
            close_from(s, j, d) - p
        } else {
            0
        },
    decreases q - j,
{
    let t = s.subrange(p, q);
    lemma_close_from_bounds(s, j, d);
    if j < q {
        assert(t[j - p] == s[j]);
        match s[j] {
            TokV::Open(..) => lemma_close_shift(s, p, q, j + 1, d + 1),
            TokV::Close(..) => if d > 1 {
                lemma_close_shift(s, p, q, j + 1, (d - 1) as nat);
            },
            _ => lemma_close_shift(s, p, q, j + 1, d),
        }
    }
}

proof fn lemma_tree_end_shift(s: Seq<TokV>, p: int, q: int, i: int)
    requires
        0 <= p <= i < q <= s.len(),
    ensures
        tree_end(s.subrange(p, q), i - p) == if 0 < tree_end(s, i) <= q {
            tree_end(s, i) - p
        } else {
            0
        },
        tree_end(s, i) == 0 || i < tree_end(s, i),
{
    let t = s.subrange(p, q);
    assert(t[i - p] == s[i]);
    if is_open(s[i]) {
        lemma_close_shift(s, p, q, i + 1, 1);
        lemma_close_from_bounds(s, i + 1, 1);
    }
}

proof fn lemma_step_shift(s: Seq<TokV>, p: int, q: int, i: int, b: int)
    requires
        0 <= p <= i < b <= q <= s.len(),
    ensures
        step(s.subrange(p, q), i - p, b - p) == step(s, i, b) - p,
{
    lemma_tree_end_shift(s, p, q, i);
}

proof fn lemma_attr_at_shift(s: Seq<TokV>, p: int, q: int, i: int, b: int)
    requires
        0 <= p <= i,
        b <= q <= s.len(),
    ensures
        attr_at(s.subrange(p, q), i - p, b - p) == attr_at(s, i, b),
        attr_at(s, i, b) ==> tree_end(s.subrange(p, q), i + 1 - p) == tree_end(s, i + 1) - p,
{
    let t = s.subrange(p, q);
    if i + 1 < b {
        assert(t[i - p] == s[i]);
        assert(t[i + 1 - p] == s[i + 1]);
        lemma_tree_end_shift(s, p, q, i + 1);
    }
}

proof fn lemma_find_comma_shift(s: Seq<TokV>, p: int, q: int, i: int, b: int)
    requires
        0 <= p <= i <= b <= q <= s.len(),
    ensures
        find_comma(s.subrange(p, q), i - p, b - p) == find_comma(s, i, b) - p,
    decreases b - i,
{
    if i < b {
        assert(s.subrange(p, q)[i - p] == s[i]);
        lemma_step_shift(s, p, q, i, b);
        lemma_find_comma_shift(s, p, q, step(s, i, b), b);
    }
}

proof fn lemma_find_comma_bounds(s: Seq<TokV>, i: int, b: int)
    requires
        i <= b,
    ensures
        i <= find_comma(s, i, b) <= b,
    decreases b - i,
{
    if i < b && !crate::token::is_punct(s[i], ',') {
        lemma_find_comma_bounds(s, step(s, i, b), b);
    }
}

proof fn lemma_head_shift(s: Seq<TokV>, p: int, q: int, i: int)
    requires
        0 <= p <= i,
        q <= s.len(),
        attr_at(s, i, q),
    ensures
        ({
            let t = s.subrange(p, q);
            let e = tree_end(s, i + 1);
            &&& names_directive(t, i + 2 - p, e - 1 - p) == names_directive(s, i + 2, e - 1)
            &&& has_arg_group(t, i + 2 - p, e - 1 - p) == has_arg_group(s, i + 2, e - 1)
            &&& unparenthesized(t, i - p, e - p) == unparenthesized(s, i, e)
            &&& t[i - p] == s[i]
            &&& t[i + 1 - p] == s[i + 1]
            &&& t[i + 2 - p] == s[i + 2]
            &&& t[e - 1 - p] == s[e - 1]
            &&& t.subrange(i + 2 - p, e - 1 - p) == s.subrange(i + 2, e - 1)
            &&& t.subrange(i - p, e - p) == s.subrange(i, e)
        }),
{
    let t = s.subrange(p, q);
    let e = tree_end(s, i + 1);
    let c0 = i + 2;
    let c1 = e - 1;
    if c0 + 1 < c1 {
        assert(t[c0 + 1 - p] == s[c0 + 1]);
        lemma_tree_end_shift(s, p, q, c0 + 1);
    }
    assert(t.subrange(i + 2 - p, e - 1 - p) =~= s.subrange(i + 2, e - 1));
    assert(t.subrange(i - p, e - p) =~= s.subrange(i, e));
}

proof fn lemma_items_shift(s: Seq<TokV>, p: int, q: int, i: int, b: int, first: bool, sp: u64)
    requires
        0 <= p <= i <= b <= q <= s.len(),
    ensures
        items_walk(s.subrange(p, q), i - p, b - p, first, sp) == items_walk(s, i, b, first, sp),
    decreases b - i,
{
    let t = s.subrange(p, q);
    if i < b {
        lemma_attr_at_shift(s, p, q, i, b);
        assert(t[i - p] == s[i]);
        if attr_at(s, i, b) {
            let e = tree_end(s, i + 1);
            lemma_head_shift(s, p, q, i);
            lemma_items_shift(s, p, q, e, b, false, sp);
        } else {
            lemma_items_shift(s, p, q, i + 1, b, first, sp);
        }
    }
}

proof fn lemma_attr_out_shift(s: Seq<TokV>, p: int, q: int, i: int)
    requires
        0 <= p <= i,
        q <= s.len(),
        attr_at(s, i, q),
    ensures
        attr_out(s.subrange(p, q), i - p, tree_end(s, i + 1) - p) == attr_out(s, i, tree_end(s, i + 1)),
{
    let t = s.subrange(p, q);
    let e = tree_end(s, i + 1);
    let c0 = i + 2;
    let c1 = e - 1;
    lemma_head_shift(s, p, q, i);
    if names_directive(s, c0, c1) && has_arg_group(s, c0, c1) {
        lemma_close_from_bounds(s, c0 + 2, 1);
        let a = c0 + 2;
        let b = c1 - 1;
        lemma_find_comma_shift(s, p, q, a, b);
        lemma_find_comma_bounds(s, a, b);
        let k = find_comma(s, a, b);
        if k != a && k < b {
            lemma_items_shift(s, p, q, k + 1, b, true, span_of(s[c0]));
            assert(t.subrange(a - p, k - p) =~= s.subrange(a, k));
        }
    }
}

/// A directive nested in another's list is emitted as its annotation's
/// contents, still in the reserved form, unless it lacks a parenthesised
/// argument group, which fails the enclosing directive with one diagnostic at
/// its name. That annotation, expanded again on its own, is rewritten exactly
/// as the same directive standing at the head of a declaration is: to the
/// native form.
pub proof fn law_nested_deferred(s: Seq<TokV>, p: int, b: int, sp: u64)
    requires
        0 <= p,
        attr_at(s, p, b),
    ensures
        ({
            let q = tree_end(s, p + 1);
            &&& !unparenthesized(s, p, q) ==> items_walk(s, p, b, true, sp)
                == crate::annotation::prepend(s.subrange(p + 2, q - 1), items_walk(s, q, b, false, sp))
            &&& unparenthesized(s, p, q) ==> items_walk(s, p, b, true, sp) == Err::<Seq<TokV>, Seq<TokV>>(
                error_toks(MSG_PARENS@, span_of(s[p + 2])),
            )
            &&& attrs_out(s.subrange(p, q), 0, q - p) == attr_out(s, p, q)
        }),
{
    let q = tree_end(s, p + 1);
    let t = s.subrange(p, q);
    assert(Seq::<TokV>::empty() + s.subrange(p + 2, q - 1) =~= s.subrange(p + 2, q - 1));
    lemma_attr_at_shift(s, p, q, p, q);
    lemma_attr_out_shift(s, p, q, p);
    assert(attrs_out(t, q - p, q - p) =~= Seq::<TokV>::empty());
    assert(attrs_out(t, 0, q - p) =~= attr_out(t, 0, q - p));
}

proof fn lemma_attrs_end_bounds(s: Seq<TokV>, i: int, b: int)
    requires
        0 <= i <= b,
    ensures
        i <= attrs_end(s, i, b) <= b,
    decreases b - i,
{
    if attr_at(s, i, b) {
        lemma_attrs_end_bounds(s, tree_end(s, i + 1), b);
    }
}

proof fn lemma_attrs_local(s: Seq<TokV>, p: int, i: int, b: int)
    requires
        0 <= p <= i <= b <= s.len(),
    ensures
        attrs_out(s, i, b) == attrs_out(
            s.subrange(p, attrs_end(s, i, b)),
            i - p,
            attrs_end(s, i, b) - p,
        ),
    decreases b - i,
{
    let j = attrs_end(s, i, b);
    lemma_attrs_end_bounds(s, i, b);
    let t = s.subrange(p, j);
    if attr_at(s, i, b) {
        let e = tree_end(s, i + 1);
        lemma_attrs_end_bounds(s, e, b);
        assert(attr_at(s, i, j));
        lemma_attr_at_shift(s, p, j, i, j);
        lemma_attr_out_shift(s, p, j, i);
        lemma_attrs_local(s, p, e, b);
    } else {
        lemma_attr_at_shift(s, p, j, i, j);
    }
}

proof fn lemma_list_attrs(
    s: Seq<TokV>,
    i: int,
    b: int,
    kind: ListKind,
    angle: nat,
    flag: bool,
)
    requires
        0 <= i <= b <= s.len(),
    ensures
        list_out(s, i, b, kind, true, angle, flag) == attrs_out(s, i, b) + list_out(
            s,
            attrs_end(s, i, b),
            b,
            kind,
            true,
            angle,
            flag,
        ),
    decreases b - i,
{
    if attr_at(s, i, b) {
        let e = tree_end(s, i + 1);
        lemma_list_attrs(s, e, b, kind, angle, flag);
        assert(attr_out(s, i, e) + (attrs_out(s, e, b) + list_out(s, attrs_end(s, e, b), b, kind, true, angle, flag))
            =~= (attr_out(s, i, e) + attrs_out(s, e, b)) + list_out(s, attrs_end(s, e, b), b, kind, true, angle, flag));
    } else {
        assert(Seq::<TokV>::empty() + list_out(s, i, b, kind, true, angle, flag) =~= list_out(s, i, b, kind, true, angle, flag));
    }
}

/// Each member of a list (a field, a variant, a trait member) has its
/// annotation list rewritten as a run of its own, by the same rule as the
/// declaration's head; what that run becomes depends on its own tokens alone,
/// not on the other members or on the declaration's own annotations.
pub proof fn law_member_annotations(s: Seq<TokV>, i: int, b: int, kind: ListKind)
    requires
        0 <= i <= b <= s.len(),
    ensures
        ({
            let j = attrs_end(s, i, b);
            &&& list_out(s, i, b, kind, true, 0, false) == attrs_out(s, i, b) + list_out(
                s,
                j,
                b,
                kind,
                true,
                0,
                false,
            )
            &&& attrs_out(s, i, b) == attrs_out(s.subrange(i, j), 0, j - i)
        }),
{
    lemma_list_attrs(s, i, b, kind, 0, false);
    lemma_attrs_local(s, i, i, b);
}

proof fn lemma_run_split(s: Seq<TokV>, i: int, k: int, b: int)
    requires
        0 <= i <= k <= b <= s.len(),
        attrs_end(s, i, k) == k,
    ensures
        attrs_out(s, i, b) == attrs_out(s, i, k) + attrs_out(s, k, b),
        attrs_end(s, i, b) == attrs_end(s, k, b),
    decreases k - i,
{
    if i == k {
        assert(attrs_out(s, k, k) =~= Seq::<TokV>::empty());
        assert(Seq::<TokV>::empty() + attrs_out(s, k, b) =~= attrs_out(s, k, b));
    } else {
        let e = tree_end(s, i + 1);
        assert(attr_at(s, i, k));
        lemma_run_split(s, e, k, b);
        assert(attr_out(s, i, e) + (attrs_out(s, e, k) + attrs_out(s, k, b)) =~= (attr_out(s, i, e)
            + attrs_out(s, e, k)) + attrs_out(s, k, b));
    }
}

/// In a run of annotations, a directive at `k` without a parenthesised
/// argument group becomes exactly one diagnostic, at its name, in its own
/// place. The annotations before it (`s[i..k]`) and after it are rewritten
/// exactly as they would be standing alone.
pub proof fn law_error_isolated(s: Seq<TokV>, i: int, k: int, b: int)
    requires
        0 <= i <= k <= b <= s.len(),
        attrs_end(s, i, k) == k,
        attr_at(s, k, b),
        unparenthesized(s, k, tree_end(s, k + 1)),
    ensures
        ({
            let e = tree_end(s, k + 1);
            let j = attrs_end(s, e, b);
            &&& attrs_out(s, i, b) == attrs_out(s, i, k) + error_toks(MSG_PARENS@, span_of(s[k + 2]))
                + attrs_out(s, e, b)
            &&& attrs_out(s, i, k) == attrs_out(s.subrange(i, k), 0, k - i)
            &&& attrs_out(s, e, b) == attrs_out(s.subrange(e, j), 0, j - e)
        }),
{
    let e = tree_end(s, k + 1);
    lemma_run_split(s, i, k, b);
    lemma_attrs_local(s, i, i, k);
    lemma_attrs_local(s, e, e, b);
    assert(attrs_out(s, i, k) + (error_toks(MSG_PARENS@, span_of(s[k + 2])) + attrs_out(s, e, b))
        =~= attrs_out(s, i, k) + error_toks(MSG_PARENS@, span_of(s[k + 2])) + attrs_out(s, e, b));
}

/// A well-formed directive `#[configure(C, ...)]` becomes the native form whose
/// arguments are `C` and the nested annotations' rewrites in their order; where
/// the nested list is one attribute `#[m]` and the rest, the list starts with
/// `m` itself.
pub proof fn law_single_rewrite(s: Seq<TokV>, i: int, e: int)
    requires
        0 <= i,
        attr_at(s, i, s.len() as int),
        e == tree_end(s, i + 1),
        names_directive(s, i + 2, e - 1),
        has_arg_group(s, i + 2, e - 1),
        i + 4 < find_comma(s, i + 4, e - 2) < e - 2,
        items_walk(s, find_comma(s, i + 4, e - 2) + 1, e - 2, true, span_of(s[i + 2])) is Ok,
    ensures
        ({
            let k = find_comma(s, i + 4, e - 2);
            let sp = span_of(s[i + 2]);
            &&& attr_out(s, i, e) == native_form(
                s.subrange(i + 4, k),
                items_walk(s, k + 1, e - 2, true, sp)->Ok_0,
                sp,
                span_of(s[i]),
                span_of(s[i + 1]),
                span_of(s[e - 1]),
            )
            &&& attr_at(s, k + 1, e - 2) && !unparenthesized(s, k + 1, tree_end(s, k + 2))
                ==> items_walk(s, k + 1, e - 2, true, sp) == crate::annotation::prepend(
                s.subrange(k + 3, tree_end(s, k + 2) - 1),
                items_walk(s, tree_end(s, k + 2), e - 2, false, sp),
            )
        }),
{
    let k = find_comma(s, i + 4, e - 2);
    if attr_at(s, k + 1, e - 2) {
        assert(Seq::<TokV>::empty() + s.subrange(k + 3, tree_end(s, k + 2) - 1) =~= s.subrange(
            k + 3,
            tree_end(s, k + 2) - 1,
        ));
    }
}

} // verus!
