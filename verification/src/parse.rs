//! The parser: declarations of the form `#name = value`, comma-separated and
//! closed by `=>`, followed by the body token stream (either one
//! brace-delimited group or the remainder of the input).

use vstd::prelude::*;
use vstd::string::StringExecFns;

use crate::rewrite::root_span;
use crate::tokens::{lemma_views_index, tok_clone, tok_view, toks_clone, views, Delim, Tok, Token};
use crate::values::{Diag, DiagS};

verus! {

/// Which string-producing built-in form a value expression calls.
#[derive(Clone, Copy, PartialEq, Eq, Structural, Debug)]
pub enum MacroKind {
    Concat,
    Stringify,
    EnvVar,
    FileText,
    FileStr,
}

/// A parsed value expression: a literal token, or a call of one recognized
/// form on a raw argument stream.
pub enum ValueExpr {
    LitE { text: String, span: u32 },
    CallE { kind: MacroKind, args: Vec<Token>, span: u32 },
}

/// Mathematical model of a value expression.
#[verifier::ext_equal]
pub enum ExprS {
    LitE { text: Seq<char>, span: u32 },
    CallE { kind: MacroKind, args: Seq<Tok>, span: u32 },
}

/// Model of a value expression.
pub open spec fn expr_view(e: ValueExpr) -> ExprS {
    match e {
        ValueExpr::LitE { text, span } => ExprS::LitE { text: text@, span },
        ValueExpr::CallE { kind, args, span } => ExprS::CallE { kind, args: views(args@), span },
    }
}

/// A declaration's value as written: the absent sentinel or an expression.
pub enum ValueAst {
    AbsentA,
    ExprA(ValueExpr),
}

/// Mathematical model of a written value.
#[verifier::ext_equal]
pub enum ValueAstS {
    AbsentA,
    ExprA(ExprS),
}

/// Model of a written value.
pub open spec fn value_ast_view(v: ValueAst) -> ValueAstS {
    match v {
        ValueAst::AbsentA => ValueAstS::AbsentA,
        ValueAst::ExprA(e) => ValueAstS::ExprA(expr_view(e)),
    }
}

/// One declaration: `#name = value`, with the spans of its sigil, its name,
/// and its value's last token; sigil and last token together delimit the
/// whole declaration.
pub struct Decl {
    pub hash_span: u32,
    pub name: String,
    pub name_span: u32,
    pub value: ValueAst,
    pub value_end: u32,
}

/// Mathematical model of a declaration.
#[verifier::ext_equal]
pub struct DeclS {
    pub hash_span: u32,
    pub name: Seq<char>,
    pub name_span: u32,
    pub value: ValueAstS,
    pub value_end: u32,
}

/// Model of a declaration.
pub open spec fn decl_view(d: Decl) -> DeclS {
    DeclS {
        hash_span: d.hash_span,
        name: d.name@,
        name_span: d.name_span,
        value: value_ast_view(d.value),
        value_end: d.value_end,
    }
}

/// Model of a declaration list.
pub open spec fn decl_views(ds: Seq<Decl>) -> Seq<DeclS> {
    Seq::new(ds.len(), |i: int| decl_view(ds[i]))
}

/// The spelling of the file-inclusion form that yields the file's text.
pub open spec fn file_text_name() -> Seq<char> {
    "inclu"@ + "de"@
}

/// The spelling of the file-inclusion form that yields the file's text as a
/// string literal does.
pub open spec fn file_str_name() -> Seq<char> {
    "inclu"@ + "de_str"@
}

/// The recognized form a name spells, if any.
pub open spec fn kind_of(name: Seq<char>) -> Option<MacroKind> {
    if name == "concat"@ {
        Option::Some(MacroKind::Concat)
    } else if name == "stringify"@ {
        Option::Some(MacroKind::Stringify)
    } else if name == "env"@ {
        Option::Some(MacroKind::EnvVar)
    } else if name == file_text_name() {
        Option::Some(MacroKind::FileText)
    } else if name == file_str_name() {
        Option::Some(MacroKind::FileStr)
    } else {
        Option::None
    }
}

/// The recognized form a name spells, if any.
pub fn kind_of_exec(name: &String) -> (r: Option<MacroKind>)
    ensures
        r == kind_of(name@),
{
    if *name == String::from_str("concat") {
        Option::Some(MacroKind::Concat)
    } else if *name == String::from_str("stringify") {
        Option::Some(MacroKind::Stringify)
    } else if *name == String::from_str("env") {
        Option::Some(MacroKind::EnvVar)
    } else if *name == String::from_str("inclu").concat("de") {
        Option::Some(MacroKind::FileText)
    } else if *name == String::from_str("inclu").concat("de_str") {
        Option::Some(MacroKind::FileStr)
    } else {
        Option::None
    }
}

/// The span to blame for a failure at position `i`: the token there, the last
/// token when the input is exhausted, or zero on empty input.
pub open spec fn err_span_at(ts: Seq<Tok>, i: int) -> u32 {
    if 0 <= i < ts.len() {
        root_span(ts[i])
    } else if ts.len() > 0 {
        root_span(ts[ts.len() - 1])
    } else {
        0
    }
}

/// Find the span to blame for a failure at position `i`.
pub fn err_span_at_exec(ts: &Vec<Token>, i: usize) -> (r: u32)
    ensures
        r == err_span_at(views(ts@), i as int),
{
    proof {
        lemma_views_index(ts@);
    }
    let j: usize = if i < ts.len() {
        i
    } else if ts.len() > 0 {
        ts.len() - 1
    } else {
        return 0u32;
    };
    match &ts[j] {
        Token::Ident { span, .. } => *span,
        Token::Lit { span, .. } => *span,
        Token::Punct { span, .. } => *span,
        Token::Group { span, .. } => *span,
    }
}

/// A parse failure at position `i` with message `msg`.
pub open spec fn perr(ts: Seq<Tok>, i: int, msg: Seq<char>) -> DiagS {
    DiagS { start: err_span_at(ts, i), end: err_span_at(ts, i), msg }
}

/// A value expression at position `i`: a literal token, or a recognized form
/// name, a `!`, and one group holding the raw arguments.
pub open spec fn spec_expr_at(ts: Seq<Tok>, i: int) -> Option<(ExprS, int)> {
    if 0 <= i < ts.len() && ts[i] is Lit {
        Option::Some(
            (ExprS::LitE { text: ts[i]->Lit_text, span: ts[i]->Lit_span }, i + 1),
        )
    } else if 0 <= i && i + 2 < ts.len() && ts[i] is Ident && kind_of(ts[i]->Ident_name) is Some
        && ts[i + 1] is Punct && ts[i + 1]->Punct_ch == '!' && ts[i + 2] is Group {
        Option::Some(
            (
                ExprS::CallE {
                    kind: kind_of(ts[i]->Ident_name)->0,
                    args: ts[i + 2]->Group_toks,
                    span: ts[i]->Ident_span,
                },
                i + 3,
            ),
        )
    } else {
        Option::None
    }
}

/// Parse a value expression at position `i`.
pub fn expr_at(ts: &Vec<Token>, i: usize) -> (r: Option<(ValueExpr, usize)>)
    requires
        i <= ts@.len(),
    ensures
        match r {
            Option::Some((e, j)) => spec_expr_at(views(ts@), i as int) == Option::Some(
                (expr_view(e), j as int),
            ) && i < j <= ts@.len(),
            Option::None => spec_expr_at(views(ts@), i as int) is None,
        },
{
    proof {
        lemma_views_index(ts@);
    }
    if i < ts.len() {
        if let Token::Lit { text, span } = &ts[i] {
            return Option::Some(
                (ValueExpr::LitE { text: text.clone(), span: *span }, i + 1),
            );
        }
    }
    if ts.len() >= 3 && i <= ts.len() - 3 {
        if let Token::Ident { name, span } = &ts[i] {
            if let Option::Some(kind) = kind_of_exec(name) {
                if let Token::Punct { ch, .. } = &ts[i + 1] {
                    if *ch == '!' {
                        if let Token::Group { tokens, .. } = &ts[i + 2] {
                            let args = toks_clone(tokens);
                            return Option::Some(
                                (
                                    ValueExpr::CallE { kind, args, span: *span },
                                    i + 3,
                                ),
                            );
                        }
                    }
                }
            }
        }
    }
    Option::None
}

/// A written value at position `i`: the spelling `None`, or an expression.
pub open spec fn spec_value_at(ts: Seq<Tok>, i: int) -> Option<(ValueAstS, int)> {
    if 0 <= i < ts.len() && ts[i] is Ident && ts[i]->Ident_name == "None"@ {
        Option::Some((ValueAstS::AbsentA, i + 1))
    } else {
        match spec_expr_at(ts, i) {
            Option::Some((e, j)) => Option::Some((ValueAstS::ExprA(e), j)),
            Option::None => Option::None,
        }
    }
}

/// Parse a written value at position `i`.
pub fn value_at(ts: &Vec<Token>, i: usize) -> (r: Option<(ValueAst, usize)>)
    requires
        i <= ts@.len(),
    ensures
        match r {
            Option::Some((v, j)) => spec_value_at(views(ts@), i as int) == Option::Some(
                (value_ast_view(v), j as int),
            ) && i < j <= ts@.len(),
            Option::None => spec_value_at(views(ts@), i as int) is None,
        },
{
    proof {
        lemma_views_index(ts@);
    }
    if i < ts.len() {
        if let Token::Ident { name, .. } = &ts[i] {
            if *name == String::from_str("None") {
                return Option::Some((ValueAst::AbsentA, i + 1));
            }
        }
    }
    match expr_at(ts, i) {
        Option::Some((e, j)) => Option::Some((ValueAst::ExprA(e), j)),
        Option::None => Option::None,
    }
}

/// Whether the arrow `=>` stands at position `i`: a jointly-spaced `=`
/// followed by `>`.
pub open spec fn arrow_at(ts: Seq<Tok>, i: int) -> bool {
    &&& 0 <= i
    &&& i + 1 < ts.len()
    &&& ts[i] is Punct
    &&& ts[i]->Punct_ch == '='
    &&& ts[i]->Punct_spacing is Joint
    &&& ts[i + 1] is Punct
    &&& ts[i + 1]->Punct_ch == '>'
}

/// Check for the arrow `=>` at position `i`.
pub fn arrow_at_exec(ts: &Vec<Token>, i: usize) -> (r: bool)
    ensures
        r == arrow_at(views(ts@), i as int),
{
    proof {
        lemma_views_index(ts@);
    }
    if ts.len() >= 2 && i <= ts.len() - 2 {
        if let Token::Punct { ch, spacing, .. } = &ts[i] {
            if *ch == '=' {
                if let crate::tokens::Spacing::Joint = spacing {
                    if let Token::Punct { ch: ch2, .. } = &ts[i + 1] {
                        return *ch2 == '>';
                    }
                }
            }
        }
    }
    false
}

/// One declaration at position `i`: `#`, a name, `=`, and a written value.
pub open spec fn spec_decl_at(ts: Seq<Tok>, i: int) -> Result<(DeclS, int), DiagS> {
    if !(0 <= i < ts.len() && ts[i] is Punct && ts[i]->Punct_ch == '#') {
        Result::Err(perr(ts, i, "expected `#`"@))
    } else if !(i + 1 < ts.len() && ts[i + 1] is Ident) {
        Result::Err(perr(ts, i + 1, "expected identifier"@))
    } else if !(i + 2 < ts.len() && ts[i + 2] is Punct && ts[i + 2]->Punct_ch == '=') {
        Result::Err(perr(ts, i + 2, "expected `=`"@))
    } else {
        match spec_value_at(ts, i + 3) {
            Option::Some((v, j)) => Result::Ok(
                (
                    DeclS {
                        hash_span: ts[i]->Punct_span,
                        name: ts[i + 1]->Ident_name,
                        name_span: ts[i + 1]->Ident_span,
                        value: v,
                        value_end: err_span_at(ts, j - 1),
                    },
                    j,
                ),
            ),
            Option::None => Result::Err(perr(ts, i + 3, "Expected string or None"@)),
        }
    }
}

/// A successful declaration parse consumes at least one token and stays in
/// bounds.
pub proof fn lemma_decl_advances(ts: Seq<Tok>, i: int)
    ensures
        spec_decl_at(ts, i) is Ok ==> i < spec_decl_at(ts, i)->Ok_0.1 <= ts.len(),
{
}

/// Parse one declaration at position `i`.
pub fn decl_at(ts: &Vec<Token>, i: usize) -> (r: Result<(Decl, usize), Diag>)
    requires
        i <= ts@.len(),
    ensures
        match r {
            Result::Ok((d, j)) => spec_decl_at(views(ts@), i as int) == Result::Ok::<
                (DeclS, int),
                DiagS,
            >((decl_view(d), j as int)) && i < j <= ts@.len(),
            Result::Err(e) => spec_decl_at(views(ts@), i as int) == Result::Err::<
                (DeclS, int),
                DiagS,
            >(crate::values::diag_view(e)),
        },
{
    proof {
        lemma_views_index(ts@);
    }
    let mut hash_span: u32 = 0;
    let mut ok = false;
    if i < ts.len() {
        if let Token::Punct { ch, span, .. } = &ts[i] {
            if *ch == '#' {
                hash_span = *span;
                ok = true;
            }
        }
    }
    if !ok {
        return Result::Err(
            Diag {
                start: err_span_at_exec(ts, i),
                end: err_span_at_exec(ts, i),
                msg: String::from_str("expected `#`"),
            },
        );
    }
    if i + 1 < ts.len() {
        if let Token::Ident { name, span } = &ts[i + 1] {
            let name_span: u32 = *span;
            let pname = name.clone();
            let mut eq_ok = false;
            if i + 2 < ts.len() {
                if let Token::Punct { ch, .. } = &ts[i + 2] {
                    if *ch == '=' {
                        eq_ok = true;
                    }
                }
            }
            if !eq_ok {
                return Result::Err(
                    Diag {
                        start: err_span_at_exec(ts, i + 2),
                        end: err_span_at_exec(ts, i + 2),
                        msg: String::from_str("expected `=`"),
                    },
                );
            }
            match value_at(ts, i + 3) {
                Option::Some((v, j)) => {
                    let value_end = err_span_at_exec(ts, j - 1);
                    return Result::Ok(
                        (Decl { hash_span, name: pname, name_span, value: v, value_end }, j),
                    );
                },
                Option::None => {
                    return Result::Err(
                        Diag {
                            start: err_span_at_exec(ts, i + 3),
                            end: err_span_at_exec(ts, i + 3),
                            msg: String::from_str("Expected string or None"),
                        },
                    );
                },
            }
        }
    }
    Result::Err(
        Diag {
            start: err_span_at_exec(ts, i + 1),
            end: err_span_at_exec(ts, i + 1),
            msg: String::from_str("expected identifier"),
        },
    )
}

/// The declaration list from position `i` to its closing `=>`: one or more
/// declarations separated by commas, a trailing comma permitted.
pub open spec fn spec_decls_at(ts: Seq<Tok>, i: int) -> Result<(Seq<DeclS>, int), DiagS>
    decreases ts.len() - i,
{
    match spec_decl_at(ts, i) {
        Result::Err(e) => Result::Err(e),
        Result::Ok((d, j)) => {
            if j < ts.len() && ts[j] is Punct && ts[j]->Punct_ch == ',' {
                if arrow_at(ts, j + 1) {
                    Result::Ok((seq![d], j + 3))
                } else {
                    proof {
                        lemma_decl_advances(ts, i);
                    }
                    match spec_decls_at(ts, j + 1) {
                        Result::Ok((ds, n)) => Result::Ok((seq![d] + ds, n)),
                        Result::Err(e) => Result::Err(e),
                    }
                }
            } else if arrow_at(ts, j) {
                Result::Ok((seq![d], j + 2))
            } else {
                Result::Err(perr(ts, j, "expected `,` or `=>`"@))
            }
        },
    }
}

/// `decl_views` maps the list pointwise; pushing appends.
pub proof fn lemma_decl_views_push(ds: Seq<Decl>, d: Decl)
    ensures
        decl_views(ds.push(d)) == decl_views(ds).push(decl_view(d)),
{
    assert(decl_views(ds.push(d)) =~= decl_views(ds).push(decl_view(d)));
}

/// Parse the declaration list that opens the input, through its `=>`.
pub fn decls_from_start(ts: &Vec<Token>) -> (r: Result<(Vec<Decl>, usize), Diag>)
    ensures
        match r {
            Result::Ok((ds, j)) => spec_decls_at(views(ts@), 0) == Result::Ok::<
                (Seq<DeclS>, int),
                DiagS,
            >((decl_views(ds@), j as int)) && j <= ts@.len(),
            Result::Err(e) => spec_decls_at(views(ts@), 0) == Result::Err::<
                (Seq<DeclS>, int),
                DiagS,
            >(crate::values::diag_view(e)),
        },
{
    let ghost v = views(ts@);
    proof {
        lemma_views_index(ts@);
    }
    let mut decls: Vec<Decl> = Vec::new();
    let mut cur: usize = 0;
    proof {
        assert(decl_views(decls@) =~= Seq::<DeclS>::empty());
    }
    loop
        invariant
            cur <= ts@.len(),
            v == views(ts@),
            v.len() == ts@.len(),
            forall|j: int| 0 <= j < ts@.len() ==> v[j] == tok_view(ts@[j]),
            match spec_decls_at(v, cur as int) {
                Result::Ok((ds2, n)) => spec_decls_at(v, 0) == Result::Ok::<
                    (Seq<DeclS>, int),
                    DiagS,
                >((decl_views(decls@) + ds2, n)),
                Result::Err(e) => spec_decls_at(v, 0) == Result::Err::<
                    (Seq<DeclS>, int),
                    DiagS,
                >(e),
            },
        decreases ts@.len() - cur,
    {
        match decl_at(ts, cur) {
            Result::Err(e) => {
                return Result::Err(e);
            },
            Result::Ok((d, j)) => {
                let ghost prevds = decls@;
                decls.push(d);
                proof {
                    lemma_decl_views_push(prevds, d);
                }
                let mut comma = false;
                if j < ts.len() {
                    if let Token::Punct { ch, .. } = &ts[j] {
                        if *ch == ',' {
                            comma = true;
                        }
                    }
                }
                if comma {
                    if arrow_at_exec(ts, j + 1) {
                        proof {
                            assert(decl_views(decls@) + seq![decl_view(d)].skip(1) =~= decl_views(
                                decls@,
                            ));
                            assert(decl_views(prevds) + seq![decl_view(d)] =~= decl_views(
                                decls@,
                            ));
                        }
                        return Result::Ok((decls, j + 3));
                    } else {
                        proof {
                            assert(decl_views(prevds) + seq![decl_view(d)] =~= decl_views(
                                decls@,
                            ));
                            if spec_decls_at(v, j + 1) is Ok {
                                let (ds2, n) = spec_decls_at(v, j + 1)->Ok_0;
                                assert(decl_views(prevds) + (seq![decl_view(d)] + ds2)
                                    =~= decl_views(decls@) + ds2);
                            }
                        }
                        cur = j + 1;
                    }
                } else if arrow_at_exec(ts, j) {
                    proof {
                        assert(decl_views(prevds) + seq![decl_view(d)] =~= decl_views(decls@));
                    }
                    return Result::Ok((decls, j + 2));
                } else {
                    return Result::Err(
                        Diag {
                            start: err_span_at_exec(ts, j),
                            end: err_span_at_exec(ts, j),
                            msg: String::from_str("expected `,` or `=>`"),
                        },
                    );
                }
            },
        }
    }
}

/// The parsed input: the declarations and the body token stream.
pub struct Parsed {
    pub decls: Vec<Decl>,
    pub body: Vec<Token>,
}

/// The whole input: the declaration list, its `=>`, and then the body —
/// either exactly one brace-delimited group, whose contents are the body,
/// or everything that remains.
pub open spec fn spec_parse_input(ts: Seq<Tok>) -> Result<(Seq<DeclS>, Seq<Tok>), DiagS> {
    match spec_decls_at(ts, 0) {
        Result::Err(e) => Result::Err(e),
        Result::Ok((ds, j)) => {
            if j < ts.len() && ts[j] is Group && ts[j]->Group_delim is Brace {
                if j + 1 == ts.len() {
                    Result::Ok((ds, ts[j]->Group_toks))
                } else {
                    Result::Err(perr(ts, j + 1, "unexpected token"@))
                }
            } else {
                Result::Ok((ds, ts.skip(j)))
            }
        },
    }
}

/// Parse the whole input.
pub fn parse_input(ts: &Vec<Token>) -> (r: Result<Parsed, Diag>)
    ensures
        match r {
            Result::Ok(p) => spec_parse_input(views(ts@)) == Result::Ok::<
                (Seq<DeclS>, Seq<Tok>),
                DiagS,
            >((decl_views(p.decls@), views(p.body@))),
            Result::Err(e) => spec_parse_input(views(ts@)) == Result::Err::<
                (Seq<DeclS>, Seq<Tok>),
                DiagS,
            >(crate::values::diag_view(e)),
        },
{
    let ghost v = views(ts@);
    proof {
        lemma_views_index(ts@);
    }
    match decls_from_start(ts) {
        Result::Err(e) => Result::Err(e),
        Result::Ok((decls, j)) => {
            if j < ts.len() {
                let mut brace = false;
                if let Token::Group { delim, .. } = &ts[j] {
                    if let Delim::Brace = delim {
                        brace = true;
                    }
                }
                if brace {
                    if j + 1 == ts.len() {
                        if let Token::Group { tokens, .. } = &ts[j] {
                            let body = toks_clone(tokens);
                            return Result::Ok(Parsed { decls, body });
                        }
                        // the token at `j` is known to be a group
                        proof {
                            assert(false);
                        }
                        return Result::Err(
                            Diag { start: 0, end: 0, msg: String::from_str("unexpected token") },
                        );
                    } else {
                        return Result::Err(
                            Diag {
                                start: err_span_at_exec(ts, j + 1),
                                end: err_span_at_exec(ts, j + 1),
                                msg: String::from_str("unexpected token"),
                            },
                        );
                    }
                }
            }
            let mut body: Vec<Token> = Vec::new();
            let mut k: usize = j;
            proof {
                assert(views(body@) =~= v.subrange(j as int, j as int));
            }
            while k < ts.len()
                invariant
                    j <= k <= ts@.len(),
                    v == views(ts@),
                    v.len() == ts@.len(),
                    forall|q: int| 0 <= q < ts@.len() ==> v[q] == tok_view(ts@[q]),
                    views(body@) =~= v.subrange(j as int, k as int),
                decreases ts@.len() - k,
            {
                let c = tok_clone(&ts[k]);
                let ghost prevb = body@;
                body.push(c);
                proof {
                    crate::tokens::lemma_views_push(prevb, c);
                    assert(views(body@) =~= v.subrange(j as int, k as int + 1));
                }
                k = k + 1;
            }
            proof {
                assert(v.subrange(j as int, ts@.len() as int) =~= v.skip(j as int));
            }
            Result::Ok(Parsed { decls, body })
        },
    }
}

} // verus!
