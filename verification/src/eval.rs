//! The string evaluator: reduce a written value to a concrete string or the
//! absent sentinel. The recognized forms are a string literal, concatenation,
//! the canonical spelling of raw tokens, an environment lookup, and file
//! inclusion; the last two read from resource lists handed in by the caller,
//! so the evaluator itself is a pure function.

use vstd::prelude::*;
use vstd::string::StringExecFns;

use crate::outside::{decode_str_lit, lit_str_value};
use crate::parse::{err_span_at, err_span_at_exec, expr_at, expr_view, spec_expr_at, ExprS,
    MacroKind, ValueAst, ValueAstS, value_ast_view};
use crate::tokens::{
    lemma_size_group_inner, lemma_size_skip_mono, lemma_size_skip_step, lemma_size_skip_zero,
    lemma_views_index, toks_size, views, Tok, Token,
};
use crate::text::{render, render_string};
use crate::values::{bind_view, diag_view, Binding, Diag, DiagS, Value};

verus! {

/// Name-to-text resource lists: environment variables and file contents,
/// as the caller resolved them. Lookups take the first match.
pub struct Resources {
    pub env: Vec<(String, String)>,
    pub files: Vec<(String, String)>,
}

/// Model of a list of name-to-text pairs.
pub open spec fn pairs_view(s: Seq<(String, String)>) -> Seq<(Seq<char>, Seq<char>)> {
    Seq::new(s.len(), |i: int| (s[i].0@, s[i].1@))
}

/// Model of the resource lists.
pub struct ResS {
    pub env: Seq<(Seq<char>, Seq<char>)>,
    pub files: Seq<(Seq<char>, Seq<char>)>,
}

/// Model of `Resources`.
pub open spec fn res_view(r: Resources) -> ResS {
    ResS { env: pairs_view(r.env@), files: pairs_view(r.files@) }
}

/// First-match lookup in a pair list.
pub open spec fn lookup(pairs: Seq<(Seq<char>, Seq<char>)>, k: Seq<char>) -> Option<Seq<char>>
    decreases pairs.len(),
{
    if pairs.len() == 0 {
        Option::None
    } else if pairs[0].0 == k {
        Option::Some(pairs[0].1)
    } else {
        lookup(pairs.skip(1), k)
    }
}

/// A match at `i`, with none earlier, decides the lookup.
proof fn lemma_lookup_match(pairs: Seq<(Seq<char>, Seq<char>)>, k: Seq<char>, i: int)
    requires
        0 <= i < pairs.len(),
        pairs[i].0 == k,
        forall|j: int| 0 <= j < i ==> #[trigger] pairs[j].0 != k,
    ensures
        lookup(pairs, k) == Option::Some(pairs[i].1),
    decreases i,
{
    if i == 0 {
    } else {
        assert(pairs[0].0 != k);
        let tail = pairs.skip(1);
        assert(tail[i - 1] == pairs[i]);
        assert(forall|j: int| 0 <= j < i - 1 ==> #[trigger] tail[j].0 == pairs[j + 1].0);
        lemma_lookup_match(tail, k, i - 1);
    }
}

/// No match anywhere means the lookup fails.
proof fn lemma_lookup_none(pairs: Seq<(Seq<char>, Seq<char>)>, k: Seq<char>)
    requires
        forall|j: int| 0 <= j < pairs.len() ==> #[trigger] pairs[j].0 != k,
    ensures
        lookup(pairs, k) is None,
    decreases pairs.len(),
{
    if pairs.len() > 0 {
        let tail = pairs.skip(1);
        assert(forall|j: int| 0 <= j < tail.len() ==> #[trigger] tail[j].0 == pairs[j + 1].0);
        lemma_lookup_none(tail, k);
    }
}

/// Look a name up in a pair list; the first match wins.
pub fn lookup_exec(pairs: &Vec<(String, String)>, k: &String) -> (r: Option<String>)
    ensures
        match r {
            Option::Some(s) => lookup(pairs_view(pairs@), k@) == Option::Some(s@),
            Option::None => lookup(pairs_view(pairs@), k@) is None,
        },
{
    let ghost pv = pairs_view(pairs@);
    let mut i: usize = 0;
    while i < pairs.len()
        invariant
            i <= pairs@.len(),
            pv == pairs_view(pairs@),
            pv.len() == pairs@.len(),
            forall|j: int| 0 <= j < pairs@.len() ==> pv[j] == (pairs@[j].0@, pairs@[j].1@),
            forall|j: int| 0 <= j < i ==> #[trigger] pv[j].0 != k@,
        decreases pairs@.len() - i,
    {
        if pairs[i].0 == *k {
            proof {
                lemma_lookup_match(pv, k@, i as int);
            }
            return Option::Some(pairs[i].1.clone());
        }
        i = i + 1;
    }
    proof {
        lemma_lookup_none(pv, k@);
    }
    Option::None
}

/// The size of an expression, for termination of evaluation.
pub open spec fn expr_size(e: ExprS) -> nat {
    match e {
        ExprS::LitE { .. } => 1,
        ExprS::CallE { args, .. } => 2 + toks_size(args),
    }
}

/// The message for a literal that is not a string literal.
pub open spec fn not_str_msg() -> Seq<char> {
    "expected string literal"@
}

/// The message for an environment variable with no resolved text.
pub open spec fn env_missing_msg(k: Seq<char>) -> Seq<char> {
    "environment variable `"@ + k + "` is not defined"@
}

/// The message for a path with no resolved text.
pub open spec fn file_missing_msg(p: Seq<char>) -> Seq<char> {
    "cannot read `"@ + p + "`"@
}

/// A sub-expression parsed from an argument stream is smaller than the
/// stream's own call.
pub proof fn lemma_sub_expr_size(args: Seq<Tok>, i: int)
    requires
        0 <= i <= args.len(),
        spec_expr_at(args, i) is Some,
    ensures
        ({
            let (e, j) = spec_expr_at(args, i)->0;
            expr_size(e) < 2 + toks_size(args.skip(i)) && i < j <= args.len()
        }),
{
    let (e, j) = spec_expr_at(args, i)->0;
    lemma_size_skip_zero(args);
    if e is CallE {
        lemma_size_group_inner(args.skip(i), 2);
        assert(args.skip(i)[2] == args[i + 2]);
        assert(args.skip(i).skip(2) =~= args.skip(i + 2));
        lemma_size_skip_step(args.skip(i), 0);
        lemma_size_skip_step(args.skip(i), 1);
        assert(args.skip(i)[2]->Group_toks == e->CallE_args);
    }
}

/// Evaluate one expression against the resource lists.
pub open spec fn eval_expr(e: ExprS, res: ResS) -> Result<Seq<char>, DiagS>
    decreases expr_size(e), 1nat,
{
    match e {
        ExprS::LitE { text, span } => match lit_str_value(text) {
            Option::Some(s) => Result::Ok(s),
            Option::None => Result::Err(DiagS { start: span, end: span, msg: not_str_msg() }),
        },
        ExprS::CallE { kind, args, span } => match kind {
            MacroKind::Concat => {
                proof {
                    lemma_size_skip_zero(args);
                }
                eval_concat(args, 0, res)
            },
            MacroKind::Stringify => Result::Ok(render(args)),
            _ => match spec_expr_at(args, 0) {
                Option::None => Result::Err(
                    DiagS {
                        start: err_span_at(args, 0),
                        end: err_span_at(args, 0),
                        msg: "Expected string or None"@,
                    },
                ),
                Option::Some((sub, j)) => {
                    if j != args.len() {
                        Result::Err(
                            DiagS {
                                start: err_span_at(args, j),
                                end: err_span_at(args, j),
                                msg: "unexpected token"@,
                            },
                        )
                    } else {
                        proof {
                            lemma_size_skip_zero(args);
                            lemma_sub_expr_size(args, 0);
                        }
                        match eval_expr(sub, res) {
                            Result::Err(d) => Result::Err(d),
                            Result::Ok(k) => {
                                let pairs = if kind is EnvVar {
                                    res.env
                                } else {
                                    res.files
                                };
                                match lookup(pairs, k) {
                                    Option::Some(s) => Result::Ok(s),
                                    Option::None => Result::Err(
                                        DiagS {
                                            start: span,
                                            end: span,
                                            msg: if kind is EnvVar {
                                                env_missing_msg(k)
                                            } else {
                                                file_missing_msg(k)
                                            },
                                        },
                                    ),
                                }
                            },
                        }
                    }
                },
            },
        },
    }
}

/// Evaluate a concatenation's arguments from position `i`: expressions
/// separated by commas, a trailing comma permitted, the empty tail yielding
/// the empty string. In this position a literal whose spelling is not a
/// string literal contributes its spelling, as the host's own concatenation
/// form spells out numbers.
pub open spec fn eval_concat(args: Seq<Tok>, i: int, res: ResS) -> Result<Seq<char>, DiagS>
    decreases 2 + toks_size(args.skip(i)), 0nat,
{
    if !(0 <= i <= args.len()) {
        Result::Ok(Seq::empty())
    } else if i == args.len() {
        Result::Ok(Seq::empty())
    } else {
        match spec_expr_at(args, i) {
            Option::None => Result::Err(
                DiagS {
                    start: err_span_at(args, i),
                    end: err_span_at(args, i),
                    msg: "Expected string or None"@,
                },
            ),
            Option::Some((sub, j)) => {
                proof {
                    lemma_sub_expr_size(args, i);
                }
                match (if sub is LitE {
                    Result::<Seq<char>, DiagS>::Ok(
                        match lit_str_value(sub->LitE_text) {
                            Option::Some(s) => s,
                            Option::None => sub->LitE_text,
                        },
                    )
                } else {
                    eval_expr(sub, res)
                }) {
                    Result::Err(d) => Result::Err(d),
                    Result::Ok(s) => {
                        if j == args.len() {
                            Result::Ok(s)
                        } else if args[j] is Punct && args[j]->Punct_ch == ',' {
                            proof {
                                lemma_size_skip_step(args, j);
                                lemma_size_skip_mono(args, i, j);
                            }
                            match eval_concat(args, j + 1, res) {
                                Result::Err(d) => Result::Err(d),
                                Result::Ok(rest) => Result::Ok(s + rest),
                            }
                        } else {
                            Result::Err(
                                DiagS {
                                    start: err_span_at(args, j),
                                    end: err_span_at(args, j),
                                    msg: "expected `,`"@,
                                },
                            )
                        }
                    },
                }
            },
        }
    }
}

/// Build the missing-environment-variable message.
fn env_missing_msg_exec(k: &String) -> (r: String)
    ensures
        r@ == env_missing_msg(k@),
{
    let mut s = String::from_str("environment variable `");
    s.append(k.as_str());
    s.append("` is not defined");
    proof {
        assert(s@ =~= env_missing_msg(k@));
    }
    s
}

/// Build the unreadable-path message.
fn file_missing_msg_exec(p: &String) -> (r: String)
    ensures
        r@ == file_missing_msg(p@),
{
    let mut s = String::from_str("cannot read `");
    s.append(p.as_str());
    s.append("`");
    proof {
        assert(s@ =~= file_missing_msg(p@));
    }
    s
}

/// Evaluate one expression against the resource lists.
pub fn eval_expr_exec(e: &crate::parse::ValueExpr, res: &Resources) -> (r: Result<String, Diag>)
    ensures
        match r {
            Result::Ok(s) => eval_expr(expr_view(*e), res_view(*res)) == Result::Ok::<
                Seq<char>,
                DiagS,
            >(s@),
            Result::Err(d) => eval_expr(expr_view(*e), res_view(*res)) == Result::Err::<
                Seq<char>,
                DiagS,
            >(diag_view(d)),
        },
    decreases expr_size(expr_view(*e)), 1nat,
{
    match e {
        crate::parse::ValueExpr::LitE { text, span } => match decode_str_lit(text) {
            Option::Some(s) => Result::Ok(s),
            Option::None => Result::Err(
                Diag { start: *span, end: *span, msg: String::from_str("expected string literal") },
            ),
        },
        crate::parse::ValueExpr::CallE { kind, args, span } => {
            proof {
                lemma_views_index(args@);
                lemma_size_skip_zero(views(args@));
            }
            match kind {
                MacroKind::Concat => eval_concat_exec(args, 0, res),
                MacroKind::Stringify => Result::Ok(render_string(args)),
                _ => {
                    let is_env = if let MacroKind::EnvVar = kind {
                        true
                    } else {
                        false
                    };
                    match expr_at(args, 0) {
                        Option::None => Result::Err(
                            Diag {
                                start: err_span_at_exec(args, 0),
                                end: err_span_at_exec(args, 0),
                                msg: String::from_str("Expected string or None"),
                            },
                        ),
                        Option::Some((sub, j)) => {
                            if j != args.len() {
                                Result::Err(
                                    Diag {
                                        start: err_span_at_exec(args, j),
                                        end: err_span_at_exec(args, j),
                                        msg: String::from_str("unexpected token"),
                                    },
                                )
                            } else {
                                proof {
                                    lemma_sub_expr_size(views(args@), 0);
                                }
                                match eval_expr_exec(&sub, res) {
                                    Result::Err(d) => Result::Err(d),
                                    Result::Ok(k) => {
                                        let pairs = if is_env {
                                            &res.env
                                        } else {
                                            &res.files
                                        };
                                        match lookup_exec(pairs, &k) {
                                            Option::Some(s) => Result::Ok(s),
                                            Option::None => Result::Err(
                                                Diag {
                                                    start: *span,
                                                    end: *span,
                                                    msg: if is_env {
                                                        env_missing_msg_exec(&k)
                                                    } else {
                                                        file_missing_msg_exec(&k)
                                                    },
                                                },
                                            ),
                                        }
                                    },
                                }
                            }
                        },
                    }
                },
            }
        },
    }
}

/// Evaluate a concatenation's arguments from position `i`.
pub fn eval_concat_exec(args: &Vec<Token>, i: usize, res: &Resources) -> (r: Result<String, Diag>)
    requires
        i <= args@.len(),
    ensures
        match r {
            Result::Ok(s) => eval_concat(views(args@), i as int, res_view(*res)) == Result::Ok::<
                Seq<char>,
                DiagS,
            >(s@),
            Result::Err(d) => eval_concat(views(args@), i as int, res_view(*res)) == Result::Err::<
                Seq<char>,
                DiagS,
            >(diag_view(d)),
        },
    decreases 2 + toks_size(views(args@).skip(i as int)), 0nat,
{
    let ghost v = views(args@);
    proof {
        lemma_views_index(args@);
    }
    if i == args.len() {
        let s = String::new();
        proof {
            assert(s@ =~= Seq::<char>::empty());
        }
        return Result::Ok(s);
    }
    match expr_at(args, i) {
        Option::None => Result::Err(
            Diag {
                start: err_span_at_exec(args, i),
                end: err_span_at_exec(args, i),
                msg: String::from_str("Expected string or None"),
            },
        ),
        Option::Some((sub, j)) => {
            proof {
                lemma_sub_expr_size(v, i as int);
            }
            let ev: Result<String, Diag> = match &sub {
                crate::parse::ValueExpr::LitE { text, .. } => match decode_str_lit(text) {
                    Option::Some(s) => Result::Ok(s),
                    Option::None => Result::Ok(text.clone()),
                },
                _ => eval_expr_exec(&sub, res),
            };
            match ev {
                Result::Err(d) => Result::Err(d),
                Result::Ok(s) => {
                    if j == args.len() {
                        Result::Ok(s)
                    } else {
                        let mut comma = false;
                        if let Token::Punct { ch, .. } = &args[j] {
                            if *ch == ',' {
                                comma = true;
                            }
                        }
                        if comma {
                            proof {
                                lemma_size_skip_step(v, j as int);
                                lemma_size_skip_mono(v, i as int, j as int);
                            }
                            match eval_concat_exec(args, j + 1, res) {
                                Result::Err(d) => Result::Err(d),
                                Result::Ok(rest) => Result::Ok(s.concat(rest.as_str())),
                            }
                        } else {
                            Result::Err(
                                Diag {
                                    start: err_span_at_exec(args, j),
                                    end: err_span_at_exec(args, j),
                                    msg: String::from_str("expected `,`"),
                                },
                            )
                        }
                    }
                },
            }
        },
    }
}

/// Evaluate a written value: the absent sentinel stays absent, an expression
/// resolves to its string.
pub open spec fn eval_value(v: ValueAstS, res: ResS) -> Result<Binding, DiagS> {
    match v {
        ValueAstS::AbsentA => Result::Ok(Binding::Absent),
        ValueAstS::ExprA(e) => match eval_expr(e, res) {
            Result::Ok(s) => Result::Ok(Binding::Resolved(s)),
            Result::Err(d) => Result::Err(d),
        },
    }
}

/// Evaluate a written value.
pub fn eval_value_exec(v: &ValueAst, res: &Resources) -> (r: Result<Value, Diag>)
    ensures
        match r {
            Result::Ok(val) => eval_value(value_ast_view(*v), res_view(*res)) == Result::Ok::<
                Binding,
                DiagS,
            >(bind_view(val)),
            Result::Err(d) => eval_value(value_ast_view(*v), res_view(*res)) == Result::Err::<
                Binding,
                DiagS,
            >(diag_view(d)),
        },
{
    match v {
        ValueAst::AbsentA => Result::Ok(Value::Absent),
        ValueAst::ExprA(e) => match eval_expr_exec(e, res) {
            Result::Ok(s) => Result::Ok(Value::Str(s)),
            Result::Err(d) => Result::Err(d),
        },
    }
}

} // verus!
