use ident_str::ident_str;
use ident_str::text::render_string;
use ident_str::tokens::toks_eq;
use ident_str::{Delim, Resources, Spacing, Token};

fn conv_tree(tt: proc_macro2::TokenTree, next: &mut u32) -> Token {
    let span = *next;
    *next += 1;
    match tt {
        proc_macro2::TokenTree::Ident(i) => Token::Ident { name: i.to_string(), span },
        proc_macro2::TokenTree::Literal(l) => Token::Lit { text: l.to_string(), span },
        proc_macro2::TokenTree::Punct(p) => Token::Punct {
            ch: p.as_char(),
            spacing: match p.spacing() {
                proc_macro2::Spacing::Joint => Spacing::Joint,
                proc_macro2::Spacing::Alone => Spacing::Alone,
            },
            span,
        },
        proc_macro2::TokenTree::Group(g) => {
            let delim = match g.delimiter() {
                proc_macro2::Delimiter::Parenthesis => Delim::Paren,
                proc_macro2::Delimiter::Bracket => Delim::Bracket,
                proc_macro2::Delimiter::Brace => Delim::Brace,
                proc_macro2::Delimiter::None => Delim::Bare,
            };
            let mut tokens = Vec::new();
            for inner in g.stream() {
                tokens.push(conv_tree(inner, next));
            }
            Token::Group { delim, tokens, span }
        },
    }
}

fn toks(s: &str) -> Vec<Token> {
    let ts: proc_macro2::TokenStream = s.parse().expect("input must lex");
    let mut next: u32 = 0;
    let mut out = Vec::new();
    for tt in ts {
        out.push(conv_tree(tt, &mut next));
    }
    out
}

fn no_res() -> Resources {
    Resources { env: Vec::new(), files: Vec::new() }
}

/// Re-lex a spelling so that spacing hints are derived from the text alone.
fn norm(s: &str) -> String {
    s.parse::<proc_macro2::TokenStream>().expect("relex").to_string()
}

fn canon(s: &str) -> String {
    render_string(&toks(s))
}

struct MyStruct {
    name: &'static str,
}

fn my_function(s: MyStruct) -> &'static str {
    s.name
}

#[test]
fn non_hash_ident() {
    let input = toks(
        "#name = \"my_function\" =>
         fn #name(s: MyStruct) -> &'static str {
             s.name
         }",
    );
    let out = ident_str(&input, &no_res());
    assert_eq!(
        norm(&render_string(&out)),
        canon("fn my_function(s: MyStruct) -> &'static str { s.name }")
    );
    assert_eq!(
        my_function(MyStruct {
            name: "hello world"
        }),
        "hello world"
    );
}

#[derive(Debug, PartialEq, Eq)]
pub enum MyEnum<T> {
    MyVariant,
    MyVariant2(T),
}

impl<T> MyEnum<T> {
    fn add(self, arg: MyEnum<T>) -> Self
    where
        T: std::ops::Add<T, Output = T>,
    {
        match (self, arg) {
            (MyEnum::MyVariant, MyEnum::MyVariant) => MyEnum::MyVariant,
            (MyEnum::MyVariant, MyEnum::MyVariant2(n)) => MyEnum::MyVariant2(n),
            (MyEnum::MyVariant2(n), MyEnum::MyVariant) => MyEnum::MyVariant2(n),
            (MyEnum::MyVariant2(left), MyEnum::MyVariant2(right)) => MyEnum::MyVariant2(
                left + right,
            ),
        }
    }
}

#[test]
fn all_the_positions() {
    let input = toks(
        "#derive = \"derive\",
         #derive = \"derive\",
         #debug = \"Debug\",
         #peq = \"PartialEq\",
         #eq = \"Eq\",
         #enumm = \"MyEnum\",
         #variant = \"MyVariant\",
         #variant2 = \"MyVariant2\",
         #generic = \"T\",
         #name = \"add\",
         #std = \"std\",
         #ops = \"ops\",
         #add = \"Add\",
         #output = \"Output\",
         #arg = \"arg\",
         #var = \"n\",
         #left = \"left\",
         #right = \"right\"
         =>

         #[#derive(#debug,#peq,#eq)]
         pub enum #enumm<#generic> {
             #variant,
             #variant2(#generic),
         }

         impl<#generic> #enumm<#generic> {
             fn #name(self, #arg: #enumm<#generic>) -> Self
                 where #generic: #std::#ops::#add<#generic, #output = #generic>
             {
                 use #enumm::*;
                 match (self, #arg) {
                     (#variant, #variant) => #variant,
                     (#variant, #variant2(#var)) => #variant2(#var),
                     (#variant2(#var), #variant) => #variant2(#var),
                     (#variant2(#left), #variant2(#right)) => #variant2(#left + #right),
                 }
             }
         }",
    );
    let out = ident_str(&input, &no_res());
    let expected_body = canon(
        "#[derive(Debug,PartialEq,Eq)]
         pub enum MyEnum<T> {
             MyVariant,
             MyVariant2(T),
         }

         impl<T> MyEnum<T> {
             fn add(self, arg: MyEnum<T>) -> Self
                 where T: std::ops::Add<T, Output = T>
             {
                 use MyEnum::*;
                 match (self, arg) {
                     (MyVariant, MyVariant) => MyVariant,
                     (MyVariant, MyVariant2(n)) => MyVariant2(n),
                     (MyVariant2(n), MyVariant) => MyVariant2(n),
                     (MyVariant2(left), MyVariant2(right)) => MyVariant2(left + right),
                 }
             }
         }",
    );
    let rendered = norm(&render_string(&out));
    // the repeated `#derive` declaration is reported but the later binding
    // still rewrites the body
    assert!(rendered.starts_with(&expected_body));
    assert!(rendered.contains("compile_error"));
    assert!(rendered.contains("Redefinition of #derive"));

    MyEnum::<u8>::MyVariant.add(MyEnum::MyVariant);
    assert_eq!(
        MyEnum::MyVariant2(2).add(MyEnum::MyVariant),
        MyEnum::MyVariant2(2)
    );
    assert_eq!(
        MyEnum::MyVariant.add(MyEnum::MyVariant2(2)),
        MyEnum::MyVariant2(2)
    );
    assert_eq!(
        MyEnum::MyVariant2(2).add(MyEnum::MyVariant2(2)),
        MyEnum::MyVariant2(4)
    );
}

#[test]
fn same_input_same_output() {
    let text = "#a = \"x\", #keep = None => fn #a() { #keep + #missing }";
    let out1 = ident_str(&toks(text), &no_res());
    let out2 = ident_str(&toks(text), &no_res());
    assert!(toks_eq(&out1, &out2));
}
