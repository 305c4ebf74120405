use cfg_attrs::cfg_attrs;
use cfg_attrs::token::{Delim, Tok};
use proc_macro2::{Delimiter, Spacing, TokenStream, TokenTree};

fn flatten(ts: TokenStream, out: &mut Vec<Tok>) {
    for tt in ts {
        let sp = out.len() as u64;
        match tt {
            TokenTree::Ident(i) => out.push(Tok::Ident(i.to_string(), sp)),
            TokenTree::Punct(p) => out.push(Tok::Punct(p.as_char(), p.spacing() == Spacing::Joint, sp)),
            TokenTree::Literal(l) => out.push(Tok::Lit(l.to_string(), sp)),
            TokenTree::Group(g) => {
                let d = match g.delimiter() {
                    Delimiter::Parenthesis => Delim::Paren,
                    Delimiter::Bracket => Delim::Bracket,
                    Delimiter::Brace => Delim::Brace,
                    Delimiter::None => Delim::Invisible,
                };
                out.push(Tok::Open(d, sp));
                flatten(g.stream(), out);
                let close = out.len() as u64;
                out.push(Tok::Close(d, close));
            }
        }
    }
}

fn lex(src: &str) -> Vec<Tok> {
    let mut out = Vec::new();
    flatten(src.parse::<TokenStream>().unwrap(), &mut out);
    out
}

fn render(toks: &[Tok]) -> String {
    let mut words: Vec<String> = Vec::new();
    for t in toks {
        words.push(match t {
            Tok::Ident(s, _) | Tok::Lit(s, _) => s.clone(),
            Tok::Punct(c, _, _) => c.to_string(),
            Tok::Open(Delim::Paren, _) => "(".to_string(),
            Tok::Open(Delim::Bracket, _) => "[".to_string(),
            Tok::Open(Delim::Brace, _) => "{".to_string(),
            Tok::Open(Delim::Invisible, _) => "<<".to_string(),
            Tok::Close(Delim::Paren, _) => ")".to_string(),
            Tok::Close(Delim::Bracket, _) => "]".to_string(),
            Tok::Close(Delim::Brace, _) => "}".to_string(),
            Tok::Close(Delim::Invisible, _) => ">>".to_string(),
        });
    }
    words.join(" ")
}

fn expand(src: &str) -> String {
    render(&cfg_attrs(&Vec::new(), &lex(src)))
}

fn same(src: &str) -> String {
    render(&lex(src))
}

const PARENS: &str = "::core::compile_error! { \"expected attribute arguments in parentheses: `configure(...)`\" }";

#[test]
fn passthrough_of_every_shape() {
    let decls = [
        "#[doc = \"x\"] pub const X: u8 = 1;",
        "#[derive(Debug)] pub enum E<T> where T: Copy { #[doc(hidden)] A(T, u8), B { x: Vec<(u8, T)> } = 3, C }",
        "extern crate alloc as a;",
        "#[inline] pub(crate) async unsafe fn f<T: Fn(u8) -> u8>(t: T) -> u8 { t(1) }",
        "my_macro! { a b c }",
        "macro_rules! m { () => {} }",
        "pub static mut S: [u8; 4] = [0; 4];",
        "#[repr(C)] pub struct S<'a, T: ?Sized> where T: 'a { #[doc = \"a\"] pub a: &'a T, b: HashMap<u8, u16>, }",
        "pub struct T(#[doc = \"z\"] pub u8, Vec<u16>) where u8: Copy;",
        "struct U;",
        "pub unsafe trait Tr<T>: Clone where T: Copy { #[doc = \"c\"] const C: u8 = 1; type A: Iterator<Item = u8>; fn f(&self) -> u8; fn g() where T: Fn() -> u8 { } m!(); }",
        "pub trait Alias = Clone + Copy;",
        "pub type Ty<T> = Vec<T>;",
        "pub use std::{a, b::c};",
        "impl S { fn f() {} }",
        "mod m { }",
        "union Un { a: u8, b: u16 }",
    ];
    for d in decls {
        assert_eq!(expand(d), same(d), "{}", d);
    }
}

#[test]
fn single_directive_on_a_function() {
    assert_eq!(
        expand("#[configure(flag_x, #[doc(\"hello\")], #[doc(\"world\")])] fn f() { body() }"),
        same("#[cfg_attr(flag_x, doc(\"hello\"), doc(\"world\"))] fn f() { body() }")
    );
}

#[test]
fn directive_condition_with_arguments() {
    assert_eq!(
        expand("#[configure(all(feature = \"a\", not(b)), #[doc = \"x\"] #[inline],)] fn f() {}"),
        same("#[cfg_attr(all(feature = \"a\", not(b)), doc = \"x\", inline)] fn f() {}")
    );
}

#[test]
fn directive_without_attributes() {
    assert_eq!(expand("#[configure(c,)] fn f() {}"), same("#[cfg_attr(c,)] fn f() {}"));
}

#[test]
fn order_is_kept() {
    assert_eq!(
        expand("#[a] #[configure(cond, #[b], #[c])] #[d] struct S;"),
        same("#[a] #[cfg_attr(cond, b, c)] #[d] struct S;")
    );
}

#[test]
fn nested_directive_is_deferred_and_expands_again() {
    let first = expand("#[configure(outer, #[a], #[configure(inner, #[b], #[c])])] fn f() {}");
    assert_eq!(first, same("#[cfg_attr(outer, a, configure(inner, #[b], #[c]))] fn f() {}"));
    assert_eq!(
        expand("#[configure(inner, #[b], #[c])] fn f() {}"),
        same("#[cfg_attr(inner, b, c)] fn f() {}")
    );
}

#[test]
fn unparenthesized_directive_is_an_error_in_place() {
    assert_eq!(
        expand("#[a] #[configure] #[b] fn f() { x }"),
        format!("{} {} {}", same("#[a]"), same(PARENS), same("#[b] fn f() { x }"))
    );
    assert_eq!(
        expand("#[a] #[configure = \"x\"] fn f() {}"),
        format!("{} {} {}", same("#[a]"), same(PARENS), same("fn f() {}"))
    );
}

#[test]
fn malformed_arguments_are_errors_in_place() {
    let comma = "::core::compile_error! { \"expected `,` after the condition\" }";
    let cond = "::core::compile_error! { \"expected a condition before `,`\" }";
    let item = "::core::compile_error! { \"expected `#[...]` attributes separated by `,`\" }";
    assert_eq!(expand("#[configure(c)] #[z] fn f() {}"), format!("{} {}", same(comma), same("#[z] fn f() {}")));
    assert_eq!(expand("#[configure(, #[a])] fn f() {}"), format!("{} {}", same(cond), same("fn f() {}")));
    assert_eq!(expand("#[configure(c, doc)] fn f() {}"), format!("{} {}", same(item), same("fn f() {}")));
}

#[test]
fn path_named_like_the_directive_is_not_one() {
    let d = "#[configure::x(a)] fn f() {}";
    assert_eq!(expand(d), same(d));
}

#[test]
fn fields_rewrite_independently() {
    assert_eq!(
        expand("#[s] struct S { #[configure(f1, #[x])] a: T, #[configure(f2, #[y])] b: U }"),
        same("#[s] struct S { #[cfg_attr(f1, x)] a: T, #[cfg_attr(f2, y)] b: U }")
    );
}

#[test]
fn tuple_fields_variants_and_members_rewrite() {
    assert_eq!(
        expand("struct T<F: Fn(u8)>(#[configure(c, #[x])] F, HashMap<u8, u8>, #[configure(d, #[y])] u8);"),
        same("struct T<F: Fn(u8)>(#[cfg_attr(c, x)] F, HashMap<u8, u8>, #[cfg_attr(d, y)] u8);")
    );
    assert_eq!(
        expand("enum E { #[configure(c, #[x])] A(#[configure(d, #[y])] u8), B { #[configure(e, #[z])] f: u8 }, C = 1 << 2 }"),
        same("enum E { #[cfg_attr(c, x)] A(#[cfg_attr(d, y)] u8), B { #[cfg_attr(e, z)] f: u8 }, C = 1 << 2 }")
    );
    assert_eq!(
        expand("trait Tr { #[configure(c, #[x])] fn f() {} #[configure(d, #[y])] const C: u8 = { 1 }; #[configure(e, #[z])] type A; }"),
        same("trait Tr { #[cfg_attr(c, x)] fn f() {} #[cfg_attr(d, y)] const C: u8 = { 1 }; #[cfg_attr(e, z)] type A; }")
    );
}

#[test]
fn unsupported_shape_passes_through_unchanged() {
    let d = "#[configure(c, #[x])] impl S { #[configure(d, #[y])] fn f() {} }";
    assert_eq!(expand(d), same(d));
}

#[test]
fn attribute_arguments_are_rejected() {
    let out = render(&cfg_attrs(&lex("x"), &lex("#[configure(c, #[x])] fn f() {}")));
    assert_eq!(out, same("::core::compile_error! { \"unexpected token in attribute\" }"));
}

#[test]
fn empty_input_stays_empty() {
    assert_eq!(cfg_attrs(&Vec::new(), &Vec::new()).len(), 0);
}

#[test]
fn arrows_in_field_types_do_not_close_angle_brackets() {
    assert_eq!(
        expand("struct S<T> where T: Copy { f: Box<dyn Fn(u8, u16) -> u8>, #[configure(c, #[x])] g: Vec<fn() -> T>, #[configure(d, #[y])] h: u8 }"),
        same("struct S<T> where T: Copy { f: Box<dyn Fn(u8, u16) -> u8>, #[cfg_attr(c, x)] g: Vec<fn() -> T>, #[cfg_attr(d, y)] h: u8 }")
    );
}

#[test]
fn malformed_nested_directive_fails_the_enclosing_one() {
    assert_eq!(
        expand("#[a] #[configure(c, #[doc = \"a\"], #[configure])] #[b] fn f() {}"),
        format!("{} {} {}", same("#[a]"), same(PARENS), same("#[b] fn f() {}"))
    );
    // the diagnostic stands at the nested name: token 15
    let input = lex("#[configure(c, #[doc = \"a\"], #[configure = 1])] fn f() {}");
    let out = cfg_attrs(&Vec::new(), &input);
    assert_eq!(&spans(&out)[0..10], &[15; 10]);
    assert_eq!(render(&out), format!("{} {}", same(PARENS), same("fn f() {}")));
}

#[test]
fn tuple_struct_fields_come_before_the_where_clause() {
    assert_eq!(
        expand("struct S(#[configure(c, #[x])] u8) where u8: Tr<{ 1 }>;"),
        same("struct S(#[cfg_attr(c, x)] u8) where u8: Tr<{ 1 }>;")
    );
}

#[test]
fn passthrough_ignores_the_reserved_name_outside_attachment_points() {
    let d = "fn f() { #[configure] let x = configure; }";
    assert_eq!(expand(d), same(d));
}

#[test]
fn struct_level_annotations_are_left_alone_by_field_directives() {
    assert_eq!(
        expand("#[derive(Clone)] #[configure(top, #[doc = \"s\"])] pub struct S { #[configure(f1, #[serde(skip)])] a: u8 }"),
        same("#[derive(Clone)] #[cfg_attr(top, doc = \"s\")] pub struct S { #[cfg_attr(f1, serde(skip))] a: u8 }")
    );
}

fn spans(toks: &[Tok]) -> Vec<u64> {
    toks.iter()
        .map(|t| match t {
            Tok::Ident(_, sp) | Tok::Lit(_, sp) | Tok::Punct(_, _, sp) | Tok::Open(_, sp) | Tok::Close(_, sp) => *sp,
        })
        .collect()
}

#[test]
fn diagnostic_stands_at_the_directive_name() {
    // tokens: # [ a ] # [ configure ] ...: the name is token 6
    let input = lex("#[a] #[configure] fn f() { x }");
    let out = cfg_attrs(&Vec::new(), &input);
    let sp = spans(&out);
    assert_eq!(&sp[0..4], &[0, 1, 2, 3]);
    assert_eq!(&sp[4..14], &[6; 10]);
    assert_eq!(sp.len(), 4 + 10 + (input.len() - 8));
    assert_eq!(&sp[14..], &spans(&input)[8..]);
}

#[test]
fn native_form_keeps_the_attribute_spans() {
    let input = lex("#[configure(c, #[x], #[y])] fn f() {}");
    let out = cfg_attrs(&Vec::new(), &input);
    assert_eq!(render(&out), same("#[cfg_attr(c, x, y)] fn f() {}"));
    let sp = spans(&out);
    // `#` and `[` keep theirs (0, 1); cfg_attr and `(` from the name at 2; c from 4; `,` from 2;
    // x from 8; `,` from the `#` at 11; y from 13; `)` from 2; `]` keeps the closing bracket's, 16
    assert_eq!(&sp[0..11], &[0, 1, 2, 2, 4, 2, 8, 11, 13, 2, 16]);
}

#[test]
fn argument_error_stands_at_the_first_argument() {
    let out = cfg_attrs(&lex("x y"), &lex("fn f() {}"));
    assert_eq!(spans(&out), vec![0; 10]);
}

#[test]
fn directive_on_every_plain_shape() {
    let bodies = [
        "pub const X: u8 = 1;",
        "extern crate alloc;",
        "pub async fn f() {}",
        "m! { a }",
        "static S: u8 = 0;",
        "pub trait A = Clone;",
        "type T = u8;",
        "use a::b;",
    ];
    for body in bodies {
        assert_eq!(
            expand(&format!("#[configure(c, #[doc = \"d\"])] {}", body)),
            same(&format!("#[cfg_attr(c, doc = \"d\")] {}", body)),
            "{}",
            body
        );
    }
}
