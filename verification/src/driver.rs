//! The driver: parse the input, evaluate the declarations into the
//! placeholder map (reporting redefinitions and invalid identifiers), rewrite
//! the body unless an invalid value suppressed it, and emit the rewritten
//! body followed by one `compile_error` invocation per diagnostic.

use vstd::prelude::*;
use vstd::string::StringExecFns;

use crate::eval::{eval_value, eval_value_exec, res_view, ResS, Resources};
use crate::outside::{check_ident, is_ident};
use crate::parse::{decl_views, parse_input, spec_parse_input, DeclS};
use crate::rewrite::{rewrite_into, rw};
use crate::text::{str_lit_text, str_lit_text_exec};
use crate::tokens::{
    lemma_views_index, views, Delim, Spacing, Tok, Token,
};
use crate::values::{
    bind_view, diag_view, diag_views, lemma_diag_views_push, Binding, Diag, DiagS, PhMap, Value,
};

verus! {

/// The message reported for a repeated declaration of one name.
pub open spec fn redef_msg(k: Seq<char>) -> Seq<char> {
    "Redefinition of #"@ + k
}

/// Build the repeated-declaration message.
fn redef_msg_exec(k: &String) -> (r: String)
    ensures
        r@ == redef_msg(k@),
{
    let mut s = String::from_str("Redefinition of #");
    s.append(k.as_str());
    proof {
        assert(s@ =~= redef_msg(k@));
    }
    s
}

/// The message reported for a value that is not a lexically valid identifier.
pub open spec fn invalid_msg(s: Seq<char>) -> Seq<char> {
    "Invalid identifier: "@ + str_lit_text(s)
}

/// Build the invalid-identifier message.
fn invalid_msg_exec(s: &String) -> (r: String)
    ensures
        r@ == invalid_msg(s@),
{
    let mut m = String::from_str("Invalid identifier: ");
    let quoted = str_lit_text_exec(s);
    m.append(quoted.as_str());
    proof {
        assert(m@ =~= invalid_msg(s@));
    }
    m
}

/// The placeholder map, the names declared so far, the diagnostics and the
/// go-ahead flag after the first `i` declarations: each declaration is
/// checked against the names already declared — whatever became of their
/// values — and a repeat is reported, the later binding winning; its value
/// is evaluated, and a resolved value that is not a valid identifier is
/// reported and clears the flag, as does a value that fails to evaluate.
/// Both diagnostics span the whole declaration, from its `#` sigil to its
/// value's last token.
pub open spec fn build_map(ds: Seq<DeclS>, i: int, res: ResS) -> (
    Map<Seq<char>, Binding>,
    Set<Seq<char>>,
    Seq<DiagS>,
    bool,
)
    decreases i,
{
    if i <= 0 {
        (Map::empty(), Set::empty(), Seq::empty(), true)
    } else {
        let (m, seen, dg, ok) = build_map(ds, i - 1, res);
        let d = ds[i - 1];
        let dg2 = if seen.contains(d.name) {
            dg.push(DiagS { start: d.hash_span, end: d.value_end, msg: redef_msg(d.name) })
        } else {
            dg
        };
        let seen2 = seen.insert(d.name);
        match eval_value(d.value, res) {
            Result::Err(e) => (m, seen2, dg2.push(e), false),
            Result::Ok(b) => {
                if b is Resolved && !is_ident(b->Resolved_0) {
                    (
                        m.insert(d.name, b),
                        seen2,
                        dg2.push(
                            DiagS {
                                start: d.hash_span,
                                end: d.value_end,
                                msg: invalid_msg(b->Resolved_0),
                            },
                        ),
                        false,
                    )
                } else {
                    (m.insert(d.name, b), seen2, dg2, ok)
                }
            },
        }
    }
}

/// Build the placeholder map from the declarations, collecting diagnostics;
/// the flag says whether rewriting may proceed.
pub fn build_map_exec(decls: &Vec<crate::parse::Decl>, res: &Resources) -> (r: (
    PhMap,
    Vec<Diag>,
    bool,
))
    ensures
        ({
            let (m, seen, dg, ok) = build_map(
                decl_views(decls@),
                decls@.len() as int,
                res_view(*res),
            );
            r.0@ == m && diag_views(r.1@) == dg && r.2 == ok
        }),
{
    let ghost dv = decl_views(decls@);
    let ghost rv = res_view(*res);
    let mut map = PhMap::new();
    let mut seen = PhMap::new();
    let mut diags: Vec<Diag> = Vec::new();
    let mut ok = true;
    let mut i: usize = 0;
    proof {
        assert(diag_views(diags@) =~= Seq::<DiagS>::empty());
        assert(seen@.dom() =~= Set::<Seq<char>>::empty());
    }
    while i < decls.len()
        invariant
            i <= decls@.len(),
            dv == decl_views(decls@),
            rv == res_view(*res),
            dv.len() == decls@.len(),
            ({
                let (m, sn, dg, okk) = build_map(dv, i as int, rv);
                map@ == m && seen@.dom() == sn && diag_views(diags@) == dg && ok == okk
            }),
        decreases decls@.len() - i,
    {
        let d = &decls[i];
        proof {
            assert(dv[i as int] == crate::parse::decl_view(decls@[i as int]));
        }
        if seen.contains(&d.name) {
            let ghost prevd = diags@;
            let dg = Diag {
                start: d.hash_span,
                end: d.value_end,
                msg: redef_msg_exec(&d.name),
            };
            diags.push(dg);
            proof {
                lemma_diag_views_push(prevd, dg);
            }
        }
        seen.insert(d.name.clone(), Value::Absent);
        proof {
            let (m, sn, dg, okk) = build_map(dv, i as int, rv);
            assert(seen@.dom() =~= sn.insert(dv[i as int].name));
        }
        match eval_value_exec(&d.value, res) {
            Result::Err(e) => {
                let ghost prevd = diags@;
                diags.push(e);
                proof {
                    lemma_diag_views_push(prevd, e);
                }
                ok = false;
            },
            Result::Ok(b) => {
                if let Value::Str(s) = &b {
                    if !check_ident(s) {
                        let ghost prevd = diags@;
                        let dg = Diag {
                            start: d.hash_span,
                            end: d.value_end,
                            msg: invalid_msg_exec(s),
                        };
                        diags.push(dg);
                        proof {
                            lemma_diag_views_push(prevd, dg);
                        }
                        ok = false;
                    }
                }
                map.insert(d.name.clone(), b);
            },
        }
        i = i + 1;
    }
    (map, diags, ok)
}

/// The tokens of one diagnostic: a `::core::compile_error!` invocation whose
/// argument is a string literal holding the message; the path and bang carry
/// the start span, the braced group and the literal the end span.
pub open spec fn diag_tokens(d: DiagS) -> Seq<Tok> {
    seq![
        Tok::Punct { ch: ':', spacing: Spacing::Joint, span: d.start },
        Tok::Punct { ch: ':', spacing: Spacing::Alone, span: d.start },
        Tok::Ident { name: "core"@, span: d.start },
        Tok::Punct { ch: ':', spacing: Spacing::Joint, span: d.start },
        Tok::Punct { ch: ':', spacing: Spacing::Alone, span: d.start },
        Tok::Ident { name: "compile_error"@, span: d.start },
        Tok::Punct { ch: '!', spacing: Spacing::Alone, span: d.start },
        Tok::Group {
            delim: Delim::Brace,
            toks: seq![Tok::Lit { text: str_lit_text(d.msg), span: d.end }],
            span: d.end,
        },
    ]
}

/// The tokens of a diagnostic list, in order.
pub open spec fn emit_diags(ds: Seq<DiagS>) -> Seq<Tok>
    decreases ds.len(),
{
    if ds.len() == 0 {
        Seq::empty()
    } else {
        diag_tokens(ds[0]) + emit_diags(ds.skip(1))
    }
}

/// Append the tokens of every diagnostic to `out`.
pub fn emit_diags_into(diags: &Vec<Diag>, out: &mut Vec<Token>)
    ensures
        views(final(out)@) == views(old(out)@) + emit_diags(diag_views(diags@)),
{
    let ghost dv = diag_views(diags@);
    let ghost out0 = views(old(out)@);
    let mut i: usize = 0;
    proof {
        assert(dv.skip(0) =~= dv);
    }
    while i < diags.len()
        invariant
            i <= diags@.len(),
            dv == diag_views(diags@),
            dv.len() == diags@.len(),
            views(out@) + emit_diags(dv.skip(i as int)) == out0 + emit_diags(dv),
        decreases diags@.len() - i,
    {
        let d = &diags[i];
        proof {
            assert(dv[i as int] == diag_view(diags@[i as int]));
            assert(dv.skip(i as int)[0] == dv[i as int]);
            assert(dv.skip(i as int).skip(1) =~= dv.skip(i as int + 1));
        }
        let ghost entry_toks = out@;
        let ghost entry = views(out@);
        out.push(Token::Punct { ch: ':', spacing: Spacing::Joint, span: d.start });
        out.push(Token::Punct { ch: ':', spacing: Spacing::Alone, span: d.start });
        out.push(Token::Ident { name: String::from_str("core"), span: d.start });
        out.push(Token::Punct { ch: ':', spacing: Spacing::Joint, span: d.start });
        out.push(Token::Punct { ch: ':', spacing: Spacing::Alone, span: d.start });
        out.push(Token::Ident { name: String::from_str("compile_error"), span: d.start });
        out.push(Token::Punct { ch: '!', spacing: Spacing::Alone, span: d.start });
        let lit = Token::Lit { text: str_lit_text_exec(&d.msg), span: d.end };
        let mut inner: Vec<Token> = Vec::new();
        inner.push(lit);
        proof {
            lemma_views_index(inner@);
            assert(views(inner@) =~= seq![Tok::Lit { text: str_lit_text(d.msg@), span: d.end }]);
        }
        out.push(Token::Group { delim: Delim::Brace, tokens: inner, span: d.end });
        proof {
            lemma_views_index(out@);
            lemma_views_index(entry_toks);
            assert(out@ =~= entry_toks + seq![
                Token::Punct { ch: ':', spacing: Spacing::Joint, span: d.start },
                Token::Punct { ch: ':', spacing: Spacing::Alone, span: d.start },
                out@[entry_toks.len() as int + 2],
                Token::Punct { ch: ':', spacing: Spacing::Joint, span: d.start },
                Token::Punct { ch: ':', spacing: Spacing::Alone, span: d.start },
                out@[entry_toks.len() as int + 5],
                Token::Punct { ch: '!', spacing: Spacing::Alone, span: d.start },
                out@[entry_toks.len() as int + 7],
            ]);
            assert(views(out@) =~= entry + diag_tokens(dv[i as int]));
            assert(views(out@) + emit_diags(dv.skip(i as int + 1)) =~= entry + emit_diags(
                dv.skip(i as int),
            ));
        }
        i = i + 1;
    }
    proof {
        assert(dv.skip(diags@.len() as int) =~= Seq::<DiagS>::empty());
        assert(views(out@) =~= out0 + emit_diags(dv));
    }
}

/// The transformer: the rewritten body followed by the diagnostic tokens.
///
/// A malformed input yields the parse diagnostic's tokens alone. Otherwise
/// the declarations are evaluated in source order into the placeholder map;
/// if any value failed to evaluate or resolved to an invalid identifier, the
/// body is suppressed and only diagnostics are emitted; otherwise the
/// rewritten body is emitted, followed by the declaration diagnostics and
/// the rewriter's diagnostics, in that order.
pub open spec fn ident_str_spec(input: Seq<Tok>, res: ResS) -> Seq<Tok> {
    match spec_parse_input(input) {
        Result::Err(e) => emit_diags(seq![e]),
        Result::Ok((ds, body)) => {
            let (m, seen, dg, ok) = build_map(ds, ds.len() as int, res);
            if !ok {
                emit_diags(dg)
            } else {
                let (out, errs) = rw(body, m);
                out + emit_diags(dg + errs)
            }
        },
    }
}

/// Run the transformer on the input token stream, with the given resource
/// lists answering environment and file lookups.
pub fn ident_str(input: &Vec<Token>, res: &Resources) -> (r: Vec<Token>)
    ensures
        views(r@) == ident_str_spec(views(input@), res_view(*res)),
{
    match parse_input(input) {
        Result::Err(e) => {
            let mut ds: Vec<Diag> = Vec::new();
            ds.push(e);
            let mut out: Vec<Token> = Vec::new();
            proof {
                assert(views(out@) =~= Seq::<Tok>::empty());
                assert(diag_views(ds@) =~= seq![diag_view(ds@[0])]);
            }
            emit_diags_into(&ds, &mut out);
            out
        },
        Result::Ok(parsed) => {
            let (map, mut diags, ok) = build_map_exec(&parsed.decls, res);
            let mut out: Vec<Token> = Vec::new();
            proof {
                assert(views(out@) =~= Seq::<Tok>::empty());
            }
            if !ok {
                emit_diags_into(&diags, &mut out);
                out
            } else {
                let mut errs: Vec<Diag> = Vec::new();
                rewrite_into(&parsed.body, &map, &mut out, &mut errs);
                let ghost dgv = diag_views(diags@);
                let ghost errv = diag_views(errs@);
                let mut all = diags;
                all.append(&mut errs);
                proof {
                    assert(diag_views(all@) =~= dgv + errv);
                }
                emit_diags_into(&all, &mut out);
                out
            }
        },
    }
}

/// Pass-through, end to end: when the input parses, every declaration
/// evaluates with nothing reported, and every placeholder reference in the
/// body names an absent binding — in particular when the body holds no
/// reference at all — the transformer returns the body token-for-token,
/// spans included, with no diagnostic tokens appended.
pub proof fn lemma_ident_str_pass_through(input: Seq<Tok>, res: ResS)
    requires
        spec_parse_input(input) is Ok,
        ({
            let (ds, body) = spec_parse_input(input)->Ok_0;
            let (m, seen, dg, ok) = build_map(ds, ds.len() as int, res);
            ok && dg == Seq::<DiagS>::empty() && crate::rewrite::refs_all_absent(body, m)
        }),
    ensures
        ({
            let (ds, body) = spec_parse_input(input)->Ok_0;
            ident_str_spec(input, res) == body
        }),
{
    let (ds, body) = spec_parse_input(input)->Ok_0;
    let (m, seen, dg, ok) = build_map(ds, ds.len() as int, res);
    crate::rewrite::lemma_absent_pass_through(body, m);
    assert(dg + rw(body, m).1 =~= Seq::<DiagS>::empty());
    assert(ident_str_spec(input, res) =~= body);
}

} // verus!
