use vstd::prelude::*;

use crate::annotation::{attr_at, attr_at_of, attr_out, attrs_end, attrs_out, push_attr, push_attrs};
use crate::token::{
    is_ident, is_open, is_open_with, is_punct, lemma_close_from_bounds, push_range, push_tok, step, step_of, tree_end, tree_end_of,
    views, Delim, Tok, TokV,
};

verus! {

/// What a delimited member list holds.
#[derive(PartialEq, Eq, Structural, Clone, Copy, Debug)]
pub enum ListKind {
    /// Struct or variant fields, separated by commas.
    Fields,
    /// Enum variants, separated by commas; each may carry a field list.
    Variants,
    /// Trait members, each ended by `;` or by a body block.
    Members,
}

/// Whether the `>` at `i` closes an angle bracket (it is not the head of `->`).
pub open spec fn closes_angle(s: Seq<TokV>, i: int) -> bool {
    is_punct(s[i], '>') && !(i >= 1 && is_punct(s[i - 1], '-'))
}

/// The angle-bracket depth after the token at `i`; variant lists are not tracked.
pub open spec fn next_angle(s: Seq<TokV>, i: int, kind: ListKind, angle: nat) -> nat {
    if kind == ListKind::Variants {
        angle
    } else if is_punct(s[i], '<') {
        angle + 1
    } else if closes_angle(s, i) && angle > 0 {
        (angle - 1) as nat
    } else {
        angle
    }
}

/// Whether the tree at `i` is a group that closes within the range ending at `b`.
pub open spec fn closed_at(s: Seq<TokV>, i: int, b: int) -> bool {
    i < tree_end(s, i) <= b
}

/// Whether the tree at `i` opens the field list of a variant.
pub open spec fn opens_fields(s: Seq<TokV>, i: int, b: int) -> bool {
    (is_open_with(s[i], Delim::Paren) || is_open_with(s[i], Delim::Brace)) && i + 2 <= tree_end(s, i)
        <= b
}

/// The rewrite of the member list `s[i..b]` of the given kind.
///
/// `start` holds where a member may begin (its attributes stand there),
/// `angle` the depth in angle brackets, and `flag`, within a variant, that its
/// field list or discriminant was passed and, within a trait member, that a
/// top-level `=` was.
pub open spec fn list_out(
    s: Seq<TokV>,
    i: int,
    b: int,
    kind: ListKind,
    start: bool,
    angle: nat,
    flag: bool,
) -> Seq<TokV>
    decreases b - i,
{
    if i >= b || i < 0 || b > s.len() {
        Seq::empty()
    } else if start && attr_at(s, i, b) {
        let e = tree_end(s, i + 1);
        attr_out(s, i, e) + list_out(s, e, b, kind, true, angle, flag)
    } else if kind != ListKind::Members && angle == 0 && is_punct(s[i], ',') {
        seq![s[i]] + list_out(s, i + 1, b, kind, true, 0, false)
    } else if kind == ListKind::Members && is_punct(s[i], ';') {
        seq![s[i]] + list_out(s, i + 1, b, kind, true, 0, false)
    } else if kind == ListKind::Variants && !flag && opens_fields(s, i, b) {
        let e = tree_end(s, i);
        seq![s[i]] + list_out(s, i + 1, e - 1, ListKind::Fields, true, 0, false) + seq![s[e - 1]]
            + list_out(s, e, b, kind, false, angle, true)
    } else if kind == ListKind::Members && !flag && angle == 0 && is_open_with(s[i], Delim::Brace)
        && closed_at(s, i, b) {
        let e = tree_end(s, i);
        s.subrange(i, e) + list_out(s, e, b, kind, true, 0, false)
    } else {
        let e = step(s, i, b);
        let flag2 = flag || (is_punct(s[i], '=') && (kind == ListKind::Variants || angle == 0));
        s.subrange(i, e) + list_out(s, e, b, kind, false, next_angle(s, i, kind, angle), flag2)
    }
}

pub proof fn lemma_assoc3(a: Seq<TokV>, p: Seq<TokV>, r: Seq<TokV>)
    ensures
        a + (p + r) == (a + p) + r,
{
    assert(a + (p + r) =~= (a + p) + r);
}

/// The state of a member-list walk.
pub struct ListState {
    pub start: bool,
    pub angle: usize,
    pub flag: bool,
}

/// Appends the rewrite of what stands at `j` in the member list `s[j..b]`, and
/// returns the index and state after it.
#[verifier::rlimit(50)]
fn push_list_step(
    out: &mut Vec<Tok>,
    s: &Vec<Tok>,
    j: usize,
    b: usize,
    kind: ListKind,
    st: ListState,
) -> (r: (usize, ListState))
    requires
        j < b <= s@.len(),
        st.angle <= j,
    ensures
        j < r.0 <= b,
        r.1.angle <= r.0,
        views(old(out)@) + list_out(views(s@), j as int, b as int, kind, st.start, st.angle as nat, st.flag)
            == views(final(out)@) + list_out(
            views(s@),
            r.0 as int,
            b as int,
            kind,
            r.1.start,
            r.1.angle as nat,
            r.1.flag,
        ),
    decreases b - j, 0nat,
{
    let ghost v = views(s@);
    let ghost before = views(out@);
    let angle = st.angle;
    let flag = st.flag;
    if st.start && attr_at_of(s, j, b) {
        let e = tree_end_of(s, j + 1);
        push_attr(out, s, j, e);
        proof {
            let p = attr_out(v, j as int, e as int);
            lemma_assoc3(before, p, list_out(v, e as int, b as int, kind, true, angle as nat, flag));
            assert(list_out(v, j as int, b as int, kind, st.start, angle as nat, flag) == p + list_out(v, e as int, b as int, kind, true, angle as nat, flag));
        }
        return (e, ListState { start: true, angle, flag });
    }
    if (kind != ListKind::Members && angle == 0 && s[j].is_punct(',')) || (kind == ListKind::Members && s[j].is_punct(';')) {
        push_tok(out, s[j].copy());
        proof {
            let p = seq![v[j as int]];
            lemma_assoc3(before, p, list_out(v, j + 1, b as int, kind, true, 0, false));
            assert(list_out(v, j as int, b as int, kind, st.start, angle as nat, flag) == p + list_out(v, j + 1, b as int, kind, true, 0, false));
        }
        return (j + 1, ListState { start: true, angle: 0, flag: false });
    }
    let e = tree_end_of(s, j);
    if kind == ListKind::Variants && !flag && (s[j].is_open_with(Delim::Paren) || s[j].is_open_with(Delim::Brace)) && e >= 2 && j <= e - 2 && e <= b {
        push_tok(out, s[j].copy());
        push_list(out, s, j + 1, e - 1, ListKind::Fields);
        push_tok(out, s[e - 1].copy());
        proof {
            let p = seq![v[j as int]] + list_out(v, j + 1, e - 1, ListKind::Fields, true, 0, false) + seq![v[e - 1]];
            assert(views(out@) =~= before + p);
            lemma_assoc3(before, p, list_out(v, e as int, b as int, kind, false, angle as nat, true));
            assert(list_out(v, j as int, b as int, kind, st.start, angle as nat, flag) == p + list_out(v, e as int, b as int, kind, false, angle as nat, true));
        }
        return (e, ListState { start: false, angle, flag: true });
    }
    if kind == ListKind::Members && !flag && angle == 0 && s[j].is_open_with(Delim::Brace) && j < e && e <= b {
        push_range(out, s, j, e);
        proof {
            let p = v.subrange(j as int, e as int);
            lemma_assoc3(before, p, list_out(v, e as int, b as int, kind, true, 0, false));
            assert(list_out(v, j as int, b as int, kind, st.start, angle as nat, flag) == p + list_out(v, e as int, b as int, kind, true, 0, false));
        }
        return (e, ListState { start: true, angle: 0, flag: false });
    }
    let e2 = step_of(s, j, b);
    push_range(out, s, j, e2);
    let flag2 = flag || (s[j].is_punct('=') && (kind == ListKind::Variants || angle == 0));
    let angle2: usize = if kind == ListKind::Variants {
        angle
    } else if s[j].is_punct('<') {
        angle + 1
    } else if s[j].is_punct('>') && !(j >= 1 && s[j - 1].is_punct('-')) && angle > 0 {
        angle - 1
    } else {
        angle
    };
    proof {
        let p = v.subrange(j as int, e2 as int);
        assert(angle2 as nat == next_angle(v, j as int, kind, angle as nat));
        lemma_assoc3(before, p, list_out(v, e2 as int, b as int, kind, false, angle2 as nat, flag2));
            assert(list_out(v, j as int, b as int, kind, st.start, angle as nat, flag) == p + list_out(v, e2 as int, b as int, kind, false, angle2 as nat, flag2));
    }
    (e2, ListState { start: false, angle: angle2, flag: flag2 })
}

/// Appends the rewrite of the member list `s[i..b]`, as `list_out` gives it.
pub fn push_list(out: &mut Vec<Tok>, s: &Vec<Tok>, i: usize, b: usize, kind: ListKind)
    requires
        i <= b <= s@.len(),
    ensures
        views(final(out)@) == views(old(out)@) + list_out(views(s@), i as int, b as int, kind, true, 0, false),
    decreases b - i, 1nat,
{
    let ghost v = views(s@);
    let mut j = i;
    let mut st = ListState { start: true, angle: 0, flag: false };
    while j < b
        invariant
            v == views(s@),
            i <= j <= b <= s@.len(),
            st.angle <= j,
            views(old(out)@) + list_out(v, i as int, b as int, kind, true, 0, false) == views(out@)
                + list_out(v, j as int, b as int, kind, st.start, st.angle as nat, st.flag),
        decreases b - j,
    {
        let r = push_list_step(out, s, j, b, kind, st);
        j = r.0;
        st = r.1;
    }
    assert(views(out@) + list_out(v, j as int, b as int, kind, st.start, st.angle as nat, st.flag) =~= views(out@));
}

/// How a declaration is treated, by its keyword.
#[derive(PartialEq, Eq, Structural, Clone, Copy, Debug)]
pub enum Shape {
    /// Not a supported declaration: the whole input stays as it is.
    Passthrough,
    /// A supported declaration without member lists (function, constant,
    /// static, type alias, trait alias, import, crate import, macro invocation).
    Plain,
    Struct,
    Enum,
    Trait,
}

/// The shape that the token `t` announces, if it is a declaration keyword.
pub open spec fn shape_of_tok(t: TokV) -> Option<Shape> {
    match t {
        TokV::Ident(x, _) => if x == "fn"@ || x == "const"@ || x == "static"@ || x == "type"@ || x
            == "use"@ || x == "crate"@ {
            Some(Shape::Plain)
        } else if x == "struct"@ {
            Some(Shape::Struct)
        } else if x == "enum"@ {
            Some(Shape::Enum)
        } else if x == "trait"@ {
            Some(Shape::Trait)
        } else if x == "impl"@ || x == "mod"@ || x == "union"@ {
            Some(Shape::Passthrough)
        } else {
            None
        },
        TokV::Punct(c, _, _) => if c == '!' {
            Some(Shape::Plain)
        } else {
            None
        },
        TokV::Open(d, _) => if d == Delim::Brace {
            Some(Shape::Passthrough)
        } else {
            None
        },
        _ => None,
    }
}

/// The first top-level token of `s[i..b]` that announces a shape, or `b`.
pub open spec fn find_kw(s: Seq<TokV>, i: int, b: int) -> int
    decreases b - i,
{
    if i >= b {
        b
    } else if shape_of_tok(s[i]) is Some {
        i
    } else {
        find_kw(s, step(s, i, b), b)
    }
}

/// Whether a group with room for contents opens at `i` and closes within `b`.
pub open spec fn group_at(s: Seq<TokV>, i: int, b: int) -> bool {
    is_open(s[i]) && i + 2 <= tree_end(s, i) <= b
}

/// The last top-level brace group in `s[i..b]`, or `found` where there is none.
pub open spec fn last_brace(s: Seq<TokV>, i: int, b: int, found: int) -> int
    decreases b - i,
{
    if i >= b {
        found
    } else {
        let f = if is_open_with(s[i], Delim::Brace) && group_at(s, i, b) {
            i
        } else {
            found
        };
        last_brace(s, step(s, i, b), b, f)
    }
}

/// The first parenthesised group outside angle brackets in `s[i..b]` that
/// stands before any `where`; -1 where there is none.
pub open spec fn tuple_group(s: Seq<TokV>, i: int, b: int, angle: nat) -> int
    decreases b - i,
{
    if i >= b || is_ident(s[i], "where"@) {
        -1
    } else if angle == 0 && is_open_with(s[i], Delim::Paren) && group_at(s, i, b) {
        i
    } else {
        tuple_group(s, step(s, i, b), b, next_angle(s, i, ListKind::Fields, angle))
    }
}

/// The member group of a declaration whose keyword of shape `sh` is at `k`,
/// or -1: for a struct its parenthesised field group before any `where`, else
/// its last brace group; for an enum or a trait its last brace group.
pub open spec fn member_group(s: Seq<TokV>, k: int, sh: Shape) -> int {
    let n = s.len() as int;
    if sh == Shape::Struct {
        let g = tuple_group(s, k + 1, n, 0);
        if g >= 0 {
            g
        } else {
            last_brace(s, k + 1, n, -1)
        }
    } else if sh == Shape::Enum || sh == Shape::Trait {
        last_brace(s, k + 1, n, -1)
    } else {
        -1
    }
}

/// What the member group of a declaration of shape `sh` holds.
pub open spec fn kind_of(sh: Shape) -> ListKind {
    if sh == Shape::Struct {
        ListKind::Fields
    } else if sh == Shape::Enum {
        ListKind::Variants
    } else {
        ListKind::Members
    }
}

/// The shape of the declaration `s`.
pub open spec fn decl_shape(s: Seq<TokV>) -> Shape {
    let n = s.len() as int;
    let k = find_kw(s, attrs_end(s, 0, n), n);
    if k >= n {
        Shape::Passthrough
    } else {
        shape_of_tok(s[k])->Some_0
    }
}

/// The rewrite of the declaration `s`: each annotation list, at the head and
/// at each member, rewritten in place; every other token kept. An unsupported
/// declaration stays as it is.
pub open spec fn expand(s: Seq<TokV>) -> Seq<TokV> {
    let n = s.len() as int;
    let j = attrs_end(s, 0, n);
    let sh = decl_shape(s);
    if sh == Shape::Passthrough {
        s
    } else {
        let g = member_group(s, find_kw(s, j, n), sh);
        attrs_out(s, 0, n) + if g < 0 {
            s.subrange(j, n)
        } else {
            let e = tree_end(s, g);
            s.subrange(j, g + 1) + list_out(s, g + 1, e - 1, kind_of(sh), true, 0, false)
                + s.subrange(e - 1, n)
        }
    }
}

pub proof fn lemma_find_kw(s: Seq<TokV>, i: int, b: int)
    requires
        0 <= i,
        b <= s.len(),
    ensures
        find_kw(s, i, b) < b ==> i <= find_kw(s, i, b) && shape_of_tok(s[find_kw(s, i, b)]) is Some,
    decreases b - i,
{
    if i < b && shape_of_tok(s[i]) is None {
        lemma_find_kw(s, step(s, i, b), b);
    }
}

pub proof fn lemma_last_brace(s: Seq<TokV>, i: int, b: int, found: int)
    requires
        0 <= i,
        b <= s.len(),
        found == -1 || (0 <= found < b && group_at(s, found, b)),
    ensures
        last_brace(s, i, b, found) == found || i <= last_brace(s, i, b, found),
        last_brace(s, i, b, found) == -1 || (0 <= last_brace(s, i, b, found) < b && group_at(
            s,
            last_brace(s, i, b, found),
            b,
        )),
    decreases b - i,
{
    if i < b {
        let f = if is_open_with(s[i], Delim::Brace) && group_at(s, i, b) {
            i
        } else {
            found
        };
        lemma_last_brace(s, step(s, i, b), b, f);
    }
}

pub proof fn lemma_tuple_group(s: Seq<TokV>, i: int, b: int, angle: nat)
    requires
        0 <= i,
        b <= s.len(),
    ensures
        tuple_group(s, i, b, angle) == -1 || i <= tuple_group(s, i, b, angle),
        tuple_group(s, i, b, angle) == -1 || (0 <= tuple_group(s, i, b, angle) < b && group_at(
            s,
            tuple_group(s, i, b, angle),
            b,
        )),
    decreases b - i,
{
    if i < b && !is_ident(s[i], "where"@) && !(angle == 0 && is_open_with(s[i], Delim::Paren)
        && group_at(s, i, b)) {
        lemma_tuple_group(s, step(s, i, b), b, next_angle(s, i, ListKind::Fields, angle));
    }
}

fn shape_of(t: &Tok) -> (r: Option<Shape>)
    ensures
        r == shape_of_tok(t@),
{
    match t {
        Tok::Ident(..) => {
            if t.is_ident("fn") || t.is_ident("const") || t.is_ident("static") || t.is_ident("type")
                || t.is_ident("use") || t.is_ident("crate") {
                Some(Shape::Plain)
            } else if t.is_ident("struct") {
                Some(Shape::Struct)
            } else if t.is_ident("enum") {
                Some(Shape::Enum)
            } else if t.is_ident("trait") {
                Some(Shape::Trait)
            } else if t.is_ident("impl") || t.is_ident("mod") || t.is_ident("union") {
                Some(Shape::Passthrough)
            } else {
                None
            }
        },
        Tok::Punct(c, _, _) => if *c == '!' {
            Some(Shape::Plain)
        } else {
            None
        },
        Tok::Open(d, _) => if *d == Delim::Brace {
            Some(Shape::Passthrough)
        } else {
            None
        },
        _ => None,
    }
}

fn find_kw_of(s: &Vec<Tok>, i: usize, b: usize) -> (r: usize)
    requires
        i <= b <= s@.len(),
    ensures
        r as int == find_kw(views(s@), i as int, b as int),
        i <= r <= b,
{
    let ghost v = views(s@);
    let mut j = i;
    while j < b
        invariant
            v == views(s@),
            i <= j <= b <= s@.len(),
            find_kw(v, j as int, b as int) == find_kw(v, i as int, b as int),
        decreases b - j,
    {
        if shape_of(&s[j]).is_some() {
            return j;
        }
        j = step_of(s, j, b);
    }
    b
}

fn group_at_of(s: &Vec<Tok>, i: usize, b: usize) -> (r: bool)
    requires
        i < b <= s@.len(),
    ensures
        r == group_at(views(s@), i as int, b as int),
{
    let e = tree_end_of(s, i);
    s[i].is_open() && e >= 2 && i <= e - 2 && e <= b
}

/// The last top-level brace group in `s[i..b]`, as `last_brace` gives it
/// from nothing found.
fn last_brace_of(s: &Vec<Tok>, i: usize, b: usize) -> (r: Option<usize>)
    requires
        i <= b <= s@.len(),
    ensures
        last_brace(views(s@), i as int, b as int, -1) == match r {
            Some(g) => g as int,
            None => -1,
        },
{
    let ghost v = views(s@);
    let mut j = i;
    let mut found: Option<usize> = None;
    while j < b
        invariant
            v == views(s@),
            i <= j <= b <= s@.len(),
            last_brace(v, i as int, b as int, -1) == last_brace(v, j as int, b as int, match found {
                Some(g) => g as int,
                None => -1,
            }),
        decreases b - j,
    {
        if s[j].is_open_with(Delim::Brace) && group_at_of(s, j, b) {
            found = Some(j);
        }
        j = step_of(s, j, b);
    }
    found
}

/// The parenthesised field group of a tuple struct, as `tuple_group` gives it.
fn tuple_group_of(s: &Vec<Tok>, i: usize, b: usize) -> (r: Option<usize>)
    requires
        i <= b <= s@.len(),
    ensures
        tuple_group(views(s@), i as int, b as int, 0) == match r {
            Some(g) => g as int,
            None => -1,
        },
{
    let ghost v = views(s@);
    let mut j = i;
    let mut angle: usize = 0;
    while j < b
        invariant
            v == views(s@),
            i <= j <= b <= s@.len(),
            angle <= j,
            tuple_group(v, i as int, b as int, 0) == tuple_group(v, j as int, b as int, angle as nat),
        decreases b - j,
    {
        if s[j].is_ident("where") {
            return None;
        }
        if angle == 0 && s[j].is_open_with(Delim::Paren) && group_at_of(s, j, b) {
            return Some(j);
        }
        let angle2: usize = if s[j].is_punct('<') {
            angle + 1
        } else if s[j].is_punct('>') && !(j >= 1 && s[j - 1].is_punct('-')) && angle > 0 {
            angle - 1
        } else {
            angle
        };
        assert(angle2 as nat == next_angle(v, j as int, ListKind::Fields, angle as nat));
        j = step_of(s, j, b);
        angle = angle2;
    }
    None
}

/// The rewrite of one declaration, as `expand` gives it.
pub fn expand_decl(s: &Vec<Tok>) -> (r: Vec<Tok>)
    ensures
        views(r@) == expand(views(s@)),
{
    let ghost v = views(s@);
    let n = s.len();
    let mut out: Vec<Tok> = Vec::new();
    let mut head: Vec<Tok> = Vec::new();
    let j = push_attrs(&mut head, s, 0, n);
    let k = find_kw_of(s, j, n);
    proof {
        lemma_find_kw(v, j as int, n as int);
        lemma_last_brace(v, k + 1, n as int, -1);
        lemma_tuple_group(v, k + 1, n as int, 0);
    }
    if k >= n {
        push_range(&mut out, s, 0, n);
        assert(views(out@) =~= v);
        return out;
    }
    let sh = shape_of(&s[k]).unwrap();
    if sh == Shape::Passthrough {
        push_range(&mut out, s, 0, n);
        assert(views(out@) =~= v);
        return out;
    }
    let g: Option<usize> = if sh == Shape::Struct {
        match tuple_group_of(s, k + 1, n) {
            Some(g) => Some(g),
            None => last_brace_of(s, k + 1, n),
        }
    } else if sh == Shape::Enum || sh == Shape::Trait {
        last_brace_of(s, k + 1, n)
    } else {
        None
    };
    let kind = if sh == Shape::Struct {
        ListKind::Fields
    } else if sh == Shape::Enum {
        ListKind::Variants
    } else {
        ListKind::Members
    };
    assert(views(head@) =~= Seq::<TokV>::empty() + attrs_out(v, 0, n as int));
    out = head;
    match g {
        None => {
            push_range(&mut out, s, j, n);
        },
        Some(g) => {
            let e = tree_end_of(s, g);
            push_range(&mut out, s, j, g + 1);
            push_list(&mut out, s, g + 1, e - 1, kind);
            push_range(&mut out, s, e - 1, n);
            assert(views(out@) =~= attrs_out(v, 0, n as int) + (v.subrange(j as int, g + 1) + list_out(
                v,
                g + 1,
                e - 1,
                kind,
                true,
                0,
                false,
            ) + v.subrange(e - 1, n as int)));
        },
    }
    out
}

} // verus!
