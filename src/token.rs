use vstd::prelude::*;

verus! {

/// The delimiter of a token group.
#[derive(PartialEq, Eq, Structural, Clone, Copy, Debug)]
pub enum Delim {
    Paren,
    Bracket,
    Brace,
    Invisible,
}

/// One token of a flat token stream. A delimited group is written as an
/// `Open` token, the group's contents, and a `Close` token. Each token carries
/// the id of its source span, which the caller assigns and maps back.
#[derive(Debug)]
pub enum Tok {
    Ident(String, u64),
    /// A punctuation character, and whether it is joined to the next one.
    Punct(char, bool, u64),
    /// A literal, as its source text (a string literal keeps its quotes).
    Lit(String, u64),
    Open(Delim, u64),
    Close(Delim, u64),
}

/// The mathematical value of a token.
pub enum TokV {
    Ident(Seq<char>, u64),
    Punct(char, bool, u64),
    Lit(Seq<char>, u64),
    Open(Delim, u64),
    Close(Delim, u64),
}

impl View for Tok {
    type V = TokV;

    open spec fn view(&self) -> TokV {
        match self {
            Tok::Ident(s, sp) => TokV::Ident(s@, *sp),
            Tok::Punct(c, j, sp) => TokV::Punct(*c, *j, *sp),
            Tok::Lit(s, sp) => TokV::Lit(s@, *sp),
            Tok::Open(d, sp) => TokV::Open(*d, *sp),
            Tok::Close(d, sp) => TokV::Close(*d, *sp),
        }
    }
}

/// The values of a sequence of tokens.
pub open spec fn views(v: Seq<Tok>) -> Seq<TokV> {
    Seq::new(v.len(), |i: int| v[i]@)
}

pub open spec fn is_punct(t: TokV, c: char) -> bool {
    t matches TokV::Punct(x, _, _) && x == c
}

pub open spec fn is_open(t: TokV) -> bool {
    t matches TokV::Open(_, _)
}

pub open spec fn is_open_with(t: TokV, d: Delim) -> bool {
    t matches TokV::Open(x, _) && x == d
}

pub open spec fn is_ident(t: TokV, name: Seq<char>) -> bool {
    t matches TokV::Ident(x, _) && x == name
}

/// The span id of a token.
pub open spec fn span_of(t: TokV) -> u64 {
    match t {
        TokV::Ident(_, sp) => sp,
        TokV::Punct(_, _, sp) => sp,
        TokV::Lit(_, sp) => sp,
        TokV::Open(_, sp) => sp,
        TokV::Close(_, sp) => sp,
    }
}

/// Index just past the group whose contents start at `j`, `d` groups deep;
/// 0 where the stream ends before the group closes.
pub open spec fn close_from(s: Seq<TokV>, j: int, d: nat) -> int
    decreases s.len() - j,
{
    if j < 0 || j >= s.len() {
        0
    } else {
        match s[j] {
            TokV::Open(..) => close_from(s, j + 1, d + 1),
            TokV::Close(..) => if d <= 1 {
                j + 1
            } else {
                close_from(s, j + 1, (d - 1) as nat)
            },
            _ => close_from(s, j + 1, d),
        }
    }
}

/// Index just past the token tree at `i`: one token, or a whole group; 0 where
/// a group opened at `i` never closes.
pub open spec fn tree_end(s: Seq<TokV>, i: int) -> int {
    if is_open(s[i]) {
        close_from(s, i + 1, 1)
    } else {
        i + 1
    }
}

/// The end of the token tree at `i` within the range ending at `b`: a group
/// that does not close inside the range runs to its end.
pub open spec fn step(s: Seq<TokV>, i: int, b: int) -> int {
    let e = tree_end(s, i);
    if i < e && e <= b {
        e
    } else {
        b
    }
}

pub proof fn lemma_close_from_bounds(s: Seq<TokV>, j: int, d: nat)
    ensures
        close_from(s, j, d) == 0 || (j < close_from(s, j, d) <= s.len()),
    decreases s.len() - j,
{
    if 0 <= j < s.len() {
        match s[j] {
            TokV::Open(..) => lemma_close_from_bounds(s, j + 1, d + 1),
            TokV::Close(..) => if d > 1 {
                lemma_close_from_bounds(s, j + 1, (d - 1) as nat);
            },
            _ => lemma_close_from_bounds(s, j + 1, d),
        }
    }
}

impl Tok {
    /// A token equal to this one.
    pub fn copy(&self) -> (r: Tok)
        ensures
            r@ == self@,
    {
        match self {
            Tok::Ident(s, sp) => Tok::Ident(s.clone(), *sp),
            Tok::Punct(c, j, sp) => Tok::Punct(*c, *j, *sp),
            Tok::Lit(s, sp) => Tok::Lit(s.clone(), *sp),
            Tok::Open(d, sp) => Tok::Open(*d, *sp),
            Tok::Close(d, sp) => Tok::Close(*d, *sp),
        }
    }

    /// The span id of this token.
    pub fn span(&self) -> (r: u64)
        ensures
            r == span_of(self@),
    {
        match self {
            Tok::Ident(_, sp) => *sp,
            Tok::Punct(_, _, sp) => *sp,
            Tok::Lit(_, sp) => *sp,
            Tok::Open(_, sp) => *sp,
            Tok::Close(_, sp) => *sp,
        }
    }

    pub fn is_punct(&self, c: char) -> (r: bool)
        ensures
            r == is_punct(self@, c),
    {
        match self {
            Tok::Punct(x, _, _) => *x == c,
            _ => false,
        }
    }

    pub fn is_open(&self) -> (r: bool)
        ensures
            r == is_open(self@),
    {
        matches!(self, Tok::Open(..))
    }

    pub fn is_open_with(&self, d: Delim) -> (r: bool)
        ensures
            r == is_open_with(self@, d),
    {
        match self {
            Tok::Open(x, _) => *x == d,
            _ => false,
        }
    }

    /// Whether this is the identifier `name`.
    pub fn is_ident(&self, name: &str) -> (r: bool)
        ensures
            r == is_ident(self@, name@),
    {
        match self {
            Tok::Ident(s, _) => {
                let n = name.to_owned();
                *s == n
            },
            _ => false,
        }
    }
}

/// Index just past the token tree at `i`, as `tree_end` gives it.
pub fn tree_end_of(s: &Vec<Tok>, i: usize) -> (r: usize)
    requires
        i < s@.len(),
    ensures
        r as int == tree_end(views(s@), i as int),
{
    let ghost v = views(s@);
    let n = s.len();
    if !s[i].is_open() {
        return i + 1;
    }
    let mut j: usize = i + 1;
    let mut d: usize = 1;
    while j < s.len()
        invariant
            v == views(s@),
            i < j <= s@.len(),
            1 <= d <= j - i,
            close_from(v, j as int, d as nat) == tree_end(v, i as int),
        decreases s@.len() - j,
    {
        match &s[j] {
            Tok::Open(..) => {
                d = d + 1;
            },
            Tok::Close(..) => {
                if d <= 1 {
                    return j + 1;
                }
                d = d - 1;
            },
            _ => {},
        }
        j = j + 1;
    }
    0
}

/// The end of the token tree at `i` within the range ending at `b`.
pub fn step_of(s: &Vec<Tok>, i: usize, b: usize) -> (r: usize)
    requires
        i < b <= s@.len(),
    ensures
        r as int == step(views(s@), i as int, b as int),
        i < r <= b,
{
    let e = tree_end_of(s, i);
    if i < e && e <= b {
        e
    } else {
        b
    }
}

/// Appends the tokens `s[a..b]` to `out`.
pub fn push_range(out: &mut Vec<Tok>, s: &Vec<Tok>, a: usize, b: usize)
    requires
        a <= b <= s@.len(),
    ensures
        views(final(out)@) == views(old(out)@) + views(s@).subrange(a as int, b as int),
{
    let mut i: usize = a;
    while i < b
        invariant
            a <= i <= b <= s@.len(),
            views(out@) == views(old(out)@) + views(s@).subrange(a as int, i as int),
        decreases b - i,
    {
        let t = s[i].copy();
        let ghost before = out@;
        out.push(t);
        assert(views(s@)[i as int] == t@);
        assert(views(out@) =~= views(before).push(t@));
        assert(views(out@) =~= views(old(out)@) + views(s@).subrange(a as int, i + 1));
        i = i + 1;
    }
}

/// Appends one token to `out`.
pub fn push_tok(out: &mut Vec<Tok>, t: Tok)
    ensures
        views(final(out)@) == views(old(out)@).push(t@),
{
    out.push(t);
    assert(views(out@) =~= views(old(out)@).push(t@));
}

} // verus!
