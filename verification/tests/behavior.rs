use ident_str::ident_str;
use ident_str::text::render_string;
use ident_str::tokens::{tok_eq, toks_eq};
use ident_str::values::Value;
use ident_str::{Delim, Resources, Spacing, Token};

fn conv_tree(tt: proc_macro2::TokenTree, next: &mut u32) -> Token {
    let span = *next;
    *next += 1;
    match tt {
        proc_macro2::TokenTree::Ident(i) => Token::Ident { name: i.to_string(), span },
        proc_macro2::TokenTree::Literal(l) => Token::Lit { text: l.to_string(), span },
        proc_macro2::TokenTree::Punct(p) => Token::Punct {
            ch: p.as_char(),
            spacing: match p.spacing() {
                proc_macro2::Spacing::Joint => Spacing::Joint,
                proc_macro2::Spacing::Alone => Spacing::Alone,
            },
            span,
        },
        proc_macro2::TokenTree::Group(g) => {
            let delim = match g.delimiter() {
                proc_macro2::Delimiter::Parenthesis => Delim::Paren,
                proc_macro2::Delimiter::Bracket => Delim::Bracket,
                proc_macro2::Delimiter::Brace => Delim::Brace,
                proc_macro2::Delimiter::None => Delim::Bare,
            };
            let mut tokens = Vec::new();
            for inner in g.stream() {
                tokens.push(conv_tree(inner, next));
            }
            Token::Group { delim, tokens, span }
        },
    }
}

fn toks(s: &str) -> Vec<Token> {
    let ts: proc_macro2::TokenStream = s.parse().expect("input must lex");
    let mut next: u32 = 0;
    let mut out = Vec::new();
    for tt in ts {
        out.push(conv_tree(tt, &mut next));
    }
    out
}

fn no_res() -> Resources {
    Resources { env: Vec::new(), files: Vec::new() }
}

/// Re-lex a spelling so that spacing hints are derived from the text alone.
fn norm(s: &str) -> String {
    s.parse::<proc_macro2::TokenStream>().expect("relex").to_string()
}

fn canon(s: &str) -> String {
    render_string(&toks(s))
}

fn run(s: &str) -> String {
    norm(&render_string(&ident_str(&toks(s), &no_res())))
}

#[test]
fn basic_substitution() {
    assert_eq!(
        run("#name = \"hello_world\" => fn #name() -> &'static str { \"x\" }"),
        canon("fn hello_world() -> &'static str { \"x\" }")
    );
}

#[test]
fn concatenation() {
    assert_eq!(
        run("#na = concat!(\"foo\", \"_a\"), #nb = concat!(\"foo\", \"_b\") => fn #na() {} fn #nb() {}"),
        canon("fn foo_a() {} fn foo_b() {}")
    );
}

#[test]
fn absent_literal_pass_through() {
    assert_eq!(
        run("#keep = None => const _: &str = stringify!(#keep);"),
        canon("const _: &str = stringify!(#keep);")
    );
}

#[test]
fn undefined_placeholder_error() {
    let out = run("#a = \"x\" => fn #b() {}");
    assert!(out.contains("compile_error"));
    assert!(out.contains("Unknown ident variable"));
    assert!(out.contains("'#b', add `#b = None` to the declarations"));
}

#[test]
fn undefined_placeholder_span_and_dropped_tokens() {
    // # a = "x" => # b   with hand-picked spans
    let input = vec![
        Token::Punct { ch: '#', spacing: Spacing::Alone, span: 10 },
        Token::Ident { name: String::from("a"), span: 11 },
        Token::Punct { ch: '=', spacing: Spacing::Alone, span: 12 },
        Token::Lit { text: String::from("\"x\""), span: 13 },
        Token::Punct { ch: '=', spacing: Spacing::Joint, span: 14 },
        Token::Punct { ch: '>', spacing: Spacing::Alone, span: 15 },
        Token::Punct { ch: '#', spacing: Spacing::Alone, span: 16 },
        Token::Ident { name: String::from("b"), span: 17 },
    ];
    let out = ident_str(&input, &no_res());
    // the undefined reference is dropped; only the diagnostic remains
    assert!(matches!(&out[0], Token::Punct { ch: ':', span: 16, .. }));
    match out.last().expect("diagnostic tokens expected") {
        Token::Group { delim: Delim::Brace, tokens, span } => {
            assert_eq!(*span, 17);
            assert_eq!(tokens.len(), 1);
            match &tokens[0] {
                Token::Lit { text, span } => {
                    assert_eq!(*span, 17);
                    assert!(text.contains("Unknown ident variable"));
                },
                other => panic!("expected a literal, got {:?}", other),
            }
        },
        other => panic!("expected a braced group, got {:?}", other),
    }
}

#[test]
fn invalid_identifier_error() {
    let out = run("#a = \"1bad\" => fn #a() {}");
    assert!(out.contains("compile_error"));
    assert!(out.contains("Invalid identifier: \\\"1bad\\\""));
    // the body is suppressed
    assert!(!out.contains("fn"));
    assert!(out.starts_with(":: core :: compile_error"));
}

#[test]
fn placement_generality() {
    let out = run(
        "#deriv = \"derive\", #debug = \"Debug\", #name = \"MyEnum\", #t = \"T\" =>
         #[#deriv(#debug)] pub enum #name<#t> { V(#t) }",
    );
    assert_eq!(out, canon("#[derive(Debug)] pub enum MyEnum<T> { V(T) }"));
}

#[test]
fn braced_body_is_unwrapped() {
    assert_eq!(
        run("#n = \"f\" => { fn #n() {} }"),
        canon("fn f() {}")
    );
}

#[test]
fn spans_preserved_and_substituted() {
    // # n = "long_name" => z # n   with hand-picked spans
    let input = vec![
        Token::Punct { ch: '#', spacing: Spacing::Alone, span: 1 },
        Token::Ident { name: String::from("n"), span: 2 },
        Token::Punct { ch: '=', spacing: Spacing::Alone, span: 3 },
        Token::Lit { text: String::from("\"long_name\""), span: 4 },
        Token::Punct { ch: '=', spacing: Spacing::Joint, span: 5 },
        Token::Punct { ch: '>', spacing: Spacing::Alone, span: 6 },
        Token::Ident { name: String::from("z"), span: 7 },
        Token::Punct { ch: '#', spacing: Spacing::Alone, span: 8 },
        Token::Ident { name: String::from("n"), span: 9 },
    ];
    let out = ident_str(&input, &no_res());
    assert_eq!(out.len(), 2);
    assert!(tok_eq(&out[0], &Token::Ident { name: String::from("z"), span: 7 }));
    // the synthesized identifier takes the span of the reference it replaces
    assert!(tok_eq(&out[1], &Token::Ident { name: String::from("long_name"), span: 9 }));
}

#[test]
fn stringify_value() {
    assert_eq!(
        run("#n = stringify!(abc) => fn #n() {}"),
        canon("fn abc() {}")
    );
}

#[test]
fn nested_concat() {
    assert_eq!(
        run("#n = concat!(\"a\", concat!(\"b\", \"c\"), \"d\",) => fn #n() {}"),
        canon("fn abcd() {}")
    );
}

#[test]
fn escaped_literal_is_decoded() {
    // "\u{5f}" is an underscore; decoding must resolve the escape
    assert_eq!(
        run("#n = \"a\\u{5f}b\" => fn #n() {}"),
        canon("fn a_b() {}")
    );
}

#[test]
fn env_value_resolves() {
    let res = Resources {
        env: vec![(String::from("FOO_NAME"), String::from("func_x"))],
        files: Vec::new(),
    };
    let out = norm(&render_string(&ident_str(&toks("#n = env!(\"FOO_NAME\") => fn #n() {}"), &res)));
    assert_eq!(out, canon("fn func_x() {}"));
}

#[test]
fn env_value_missing() {
    let out = run("#n = env!(\"NO_SUCH_VAR\") => fn #n() {}");
    assert!(out.starts_with(":: core :: compile_error"));
    assert!(out.contains("environment variable `NO_SUCH_VAR` is not defined"));
    assert!(!out.contains("fn"));
}

#[test]
fn file_value_resolves() {
    let res = Resources {
        env: Vec::new(),
        files: vec![(String::from("name.txt"), String::from("from_file"))],
    };
    let text = format!("#n = inclu{}!(\"name.txt\") => fn #n() {{}}", "de_str");
    let out = norm(&render_string(&ident_str(&toks(&text), &res)));
    assert_eq!(out, canon("fn from_file() {}"));
}

#[test]
fn file_value_missing() {
    let text = format!("#n = inclu{}!(\"gone.txt\") => fn #n() {{}}", "de");
    let out = norm(&render_string(&ident_str(&toks(&text), &no_res())));
    assert!(out.contains("cannot read `gone.txt`"));
    assert!(!out.contains("fn"));
}

#[test]
fn redefinition_last_wins_with_diagnostic() {
    let out = run("#a = \"x\", #a = \"y\" => fn #a() {}");
    assert!(out.starts_with(&canon("fn y() {}")));
    assert!(out.contains("Redefinition of #a"));
}

#[test]
fn missing_arrow_is_an_error() {
    let out = run("#a = \"x\"");
    assert!(out.starts_with(":: core :: compile_error"));
    assert!(out.contains("expected `,` or `=>`"));
}

#[test]
fn missing_value_is_an_error() {
    let out = run("#a = fn => x");
    assert!(out.starts_with(":: core :: compile_error"));
    assert!(out.contains("Expected string or None"));
}

#[test]
fn empty_declarations_are_an_error() {
    let out = run("=> fn f() {}");
    assert!(out.starts_with(":: core :: compile_error"));
    assert!(out.contains("expected `#`"));
}

#[test]
fn tokens_after_braced_body_are_an_error() {
    let out = run("#a = \"x\" => { fn #a() {} } stray");
    assert!(out.starts_with(":: core :: compile_error"));
    assert!(out.contains("unexpected token"));
}

#[test]
fn non_string_literal_value_is_an_error() {
    let out = run("#a = 42 => fn #a() {}");
    assert!(out.starts_with(":: core :: compile_error"));
    assert!(out.contains("expected string literal"));
}

#[test]
fn value_to_string() {
    assert_eq!(
        Value::Str(String::from("abc")).to_string(),
        Some(String::from("abc"))
    );
    assert_eq!(Value::Absent.to_string(), None);
}

#[test]
fn render_matches_host_spelling() {
    for s in [
        "fn f(a: u8, b: &str) -> bool { a == 1 && b.is_empty() }",
        "#[derive(Debug)] struct S<T>(T);",
        "{ }",
        "(a, b)[c]{ d }",
        "x += 1;",
    ] {
        let host = s.parse::<proc_macro2::TokenStream>().unwrap().to_string();
        assert_eq!(render_string(&toks(s)), host);
    }
}

#[test]
fn body_without_refs_is_kept_verbatim() {
    let text = "#a = \"x\" => fn plain(q: u8) -> u8 { q + 1 }";
    let input = toks(text);
    let out = ident_str(&input, &no_res());
    let mut body: Vec<Token> = Vec::new();
    for t in &input[6..] {
        body.push(ident_str::tokens::tok_clone(t));
    }
    assert!(toks_eq(&out, &body));
}

#[test]
fn hash_without_ident_passes_through() {
    let out = run("#a = \"x\" => q # 5 #");
    assert_eq!(out, canon("q # 5 #"));
}

#[test]
fn invalid_identifier_spans_whole_declaration() {
    // # a = "1bad" => fn   with hand-picked spans
    let input = vec![
        Token::Punct { ch: '#', spacing: Spacing::Alone, span: 21 },
        Token::Ident { name: String::from("a"), span: 22 },
        Token::Punct { ch: '=', spacing: Spacing::Alone, span: 23 },
        Token::Lit { text: String::from("\"1bad\""), span: 24 },
        Token::Punct { ch: '=', spacing: Spacing::Joint, span: 25 },
        Token::Punct { ch: '>', spacing: Spacing::Alone, span: 26 },
        Token::Ident { name: String::from("q"), span: 27 },
    ];
    let out = ident_str(&input, &no_res());
    // the diagnostic runs from the `#` sigil to the value's last token
    assert!(matches!(&out[0], Token::Punct { ch: ':', span: 21, .. }));
    match out.last().expect("diagnostic tokens expected") {
        Token::Group { delim: Delim::Brace, tokens, span } => {
            assert_eq!(*span, 24);
            assert!(matches!(&tokens[0], Token::Lit { span: 24, .. }));
        },
        other => panic!("expected a braced group, got {:?}", other),
    }
}

#[test]
fn redefinition_spans_whole_declaration() {
    // # a = "x" , # a = concat ! ("y") => q   with hand-picked spans
    let input = vec![
        Token::Punct { ch: '#', spacing: Spacing::Alone, span: 30 },
        Token::Ident { name: String::from("a"), span: 31 },
        Token::Punct { ch: '=', spacing: Spacing::Alone, span: 32 },
        Token::Lit { text: String::from("\"x\""), span: 33 },
        Token::Punct { ch: ',', spacing: Spacing::Alone, span: 34 },
        Token::Punct { ch: '#', spacing: Spacing::Alone, span: 35 },
        Token::Ident { name: String::from("a"), span: 36 },
        Token::Punct { ch: '=', spacing: Spacing::Alone, span: 37 },
        Token::Ident { name: String::from("concat"), span: 38 },
        Token::Punct { ch: '!', spacing: Spacing::Alone, span: 39 },
        Token::Group {
            delim: Delim::Paren,
            tokens: vec![Token::Lit { text: String::from("\"y\""), span: 41 }],
            span: 40,
        },
        Token::Punct { ch: '=', spacing: Spacing::Joint, span: 42 },
        Token::Punct { ch: '>', spacing: Spacing::Alone, span: 43 },
        Token::Ident { name: String::from("q"), span: 44 },
    ];
    let out = ident_str(&input, &no_res());
    // the body (one token) is rewritten, then the diagnostic follows, spanned
    // from the second declaration's `#` sigil to its value's last token (the
    // argument group)
    assert!(matches!(&out[0], Token::Ident { span: 44, .. }));
    assert!(matches!(&out[1], Token::Punct { ch: ':', span: 35, .. }));
    match out.last().expect("diagnostic tokens expected") {
        Token::Group { delim: Delim::Brace, tokens, span } => {
            assert_eq!(*span, 40);
            match &tokens[0] {
                Token::Lit { text, span } => {
                    assert_eq!(*span, 40);
                    assert!(text.contains("Redefinition of #a"));
                },
                other => panic!("expected a literal, got {:?}", other),
            }
        },
        other => panic!("expected a braced group, got {:?}", other),
    }
}

#[test]
fn per_name_absence_beside_substitution() {
    // `#k` is absent and passes through while `#f` is substituted beside it
    assert_eq!(
        run("#k = None, #f = \"func\" => fn #f() { #k #k }"),
        canon("fn func() { #k #k }")
    );
}

#[test]
fn concat_stringifies_non_string_literals() {
    assert_eq!(
        run("#name = concat!(\"test_add_\", 1, \"_\", 2, \"_eq_\", 3) => fn #name() {}"),
        canon("fn test_add_1_2_eq_3() {}")
    );
}

#[test]
fn redefinition_after_failed_value() {
    let out = run("#a = env!(\"NO_SUCH_VAR\"), #a = \"x\" => fn #a() {}");
    assert!(out.contains("environment variable `NO_SUCH_VAR` is not defined"));
    // the second declaration is still recognized as a repeat of the name
    assert!(out.contains("Redefinition of #a"));
    // the failed value suppresses the body
    assert!(out.starts_with(":: core :: compile_error"));
}
