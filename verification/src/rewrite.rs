//! The rewriter: a structure-preserving walk of the body token stream that
//! replaces `#name` placeholder references according to the placeholder map,
//! leaves everything else untouched (spans included), and collects a
//! diagnostic for every reference to an undeclared placeholder.

use vstd::prelude::*;
use vstd::string::StringExecFns;

use crate::tokens::{
    lemma_seq_skip_prefix_size, lemma_size_skip_step, lemma_size_skip_zero, lemma_views_index,
    lemma_views_push, tok_clone, tok_view, toks_size, views, Tok, Token,
};
use crate::values::{diag_view, diag_views, lemma_diag_views_push, Binding, Diag, DiagS, PhMap};

verus! {

/// The message reported for a reference to an undeclared placeholder.
pub open spec fn undef_msg(k: Seq<char>) -> Seq<char> {
    "Unknown ident variable.  If you intended to literally use '#"@ + k + "', add `#"@ + k
        + " = None` to the declarations"@
}

/// Build the undeclared-placeholder message for name `k`.
pub fn undef_msg_exec(k: &String) -> (r: String)
    ensures
        r@ == undef_msg(k@),
{
    let mut s = String::from_str("Unknown ident variable.  If you intended to literally use '#");
    s.append(k.as_str());
    s.append("', add `#");
    s.append(k.as_str());
    s.append(" = None` to the declarations");
    proof {
        assert(s@ =~= undef_msg(k@));
    }
    s
}

/// Whether position zero of the stream starts a placeholder reference:
/// a `#` punctuation immediately followed by an identifier token.
pub open spec fn starts_ref(ts: Seq<Tok>) -> bool {
    ts.len() >= 2 && ts[0] is Punct && ts[0]->Punct_ch == '#' && ts[1] is Ident
}

/// The rewritten stream and the diagnostics of the walk, in source order.
///
/// The walk is left-to-right and depth-first: a group's contents are
/// rewritten before the tokens after the group, and every copied token
/// keeps its span. A reference to a name bound to a string becomes one
/// identifier token carrying the span of the referenced identifier; a
/// reference to an absent binding is copied through; a reference to an
/// unbound name is dropped from the output and reported.
pub open spec fn rw(ts: Seq<Tok>, m: Map<Seq<char>, Binding>) -> (Seq<Tok>, Seq<DiagS>)
    decreases toks_size(ts),
{
    if ts.len() == 0 {
        (Seq::<Tok>::empty(), Seq::<DiagS>::empty())
    } else if ts[0] is Group {
        proof {
            lemma_size_skip_zero(ts);
            lemma_size_skip_step(ts, 0);
        }
        let gi = rw(ts[0]->Group_toks, m);
        let rest = rw(ts.skip(1), m);
        (
            seq![
                Tok::Group {
                    delim: ts[0]->Group_delim,
                    toks: gi.0,
                    span: ts[0]->Group_span,
                },
            ] + rest.0,
            gi.1 + rest.1,
        )
    } else if starts_ref(ts) {
        proof {
            lemma_size_skip_zero(ts);
            lemma_size_skip_step(ts, 0);
            lemma_size_skip_step(ts, 1);
        }
        let k = ts[1]->Ident_name;
        let rest = rw(ts.skip(2), m);
        if m.contains_key(k) {
            if m[k] is Resolved {
                (
                    seq![Tok::Ident { name: m[k]->Resolved_0, span: ts[1]->Ident_span }] + rest.0,
                    rest.1,
                )
            } else {
                (seq![ts[0], ts[1]] + rest.0, rest.1)
            }
        } else {
            (
                rest.0,
                seq![
                    DiagS {
                        start: ts[0]->Punct_span,
                        end: ts[1]->Ident_span,
                        msg: undef_msg(k),
                    },
                ] + rest.1,
            )
        }
    } else {
        proof {
            lemma_size_skip_zero(ts);
            lemma_size_skip_step(ts, 0);
        }
        let rest = rw(ts.skip(1), m);
        (seq![ts[0]] + rest.0, rest.1)
    }
}

/// Rewrite `ts`, appending the rewritten tokens to `out` and the walk's
/// diagnostics to `errs`.
pub fn rewrite_into(ts: &Vec<Token>, m: &PhMap, out: &mut Vec<Token>, errs: &mut Vec<Diag>)
    ensures
        views(final(out)@) == views(old(out)@) + rw(views(ts@), m@).0,
        diag_views(final(errs)@) == diag_views(old(errs)@) + rw(views(ts@), m@).1,
    decreases toks_size(views(ts@)), 1nat,
{
    let ghost v = views(ts@);
    let ghost m0 = m@;
    let ghost out0 = views(old(out)@);
    let ghost errs0 = diag_views(old(errs)@);
    proof {
        lemma_views_index(ts@);
        assert(v.skip(0) =~= v);
    }
    let mut i: usize = 0;
    while i < ts.len()
        invariant
            i <= ts@.len(),
            v == views(ts@),
            m0 == m@,
            v.len() == ts@.len(),
            forall|j: int| 0 <= j < ts@.len() ==> v[j] == tok_view(ts@[j]),
            views(out@) + rw(v.skip(i as int), m0).0 == out0 + rw(v, m0).0,
            diag_views(errs@) + rw(v.skip(i as int), m0).1 == errs0 + rw(v, m0).1,
        decreases ts@.len() - i,
    {
        let ghost su = v.skip(i as int);
        proof {
            lemma_size_skip_zero(v);
            lemma_size_skip_step(v, i as int);
            lemma_seq_skip_prefix_size(v, i as int);
            assert(su[0] == v[i as int]);
            assert(su.skip(1) =~= v.skip(i as int + 1));
            if su.len() >= 2 {
                assert(su[1] == v[i as int + 1]);
                assert(su.skip(2) =~= v.skip(i as int + 2));
            }
        }
        match &ts[i] {
            Token::Group { delim, tokens, span } => {
                proof {
                    assert(tok_view(ts@[i as int]) == su[0]);
                    assert(toks_size(views(tokens@)) < toks_size(su));
                }
                let mut inner: Vec<Token> = Vec::new();
                proof {
                    assert(views(inner@) =~= Seq::<Tok>::empty());
                }
                rewrite_into(tokens, m, &mut inner, errs);
                let g = Token::Group { delim: *delim, tokens: inner, span: *span };
                proof {
                    assert(tok_view(g) =~= Tok::Group {
                        delim: su[0]->Group_delim,
                        toks: rw(su[0]->Group_toks, m0).0,
                        span: su[0]->Group_span,
                    });
                }
                let ghost prev = out@;
                out.push(g);
                proof {
                    lemma_views_push(prev, g);
                    assert(views(out@) + rw(v.skip(i as int + 1), m0).0 =~= out0 + rw(v, m0).0);
                    assert(diag_views(errs@) + rw(v.skip(i as int + 1), m0).1 =~= errs0 + rw(
                        v,
                        m0,
                    ).1);
                }
                i = i + 1;
            },
            Token::Punct { ch, spacing, span } => {
                let hash_span: u32 = *span;
                let is_hash = *ch == '#';
                let mut consumed_two = false;
                if is_hash && i + 1 < ts.len() {
                    if let Token::Ident { name, span: ref_span } = &ts[i + 1] {
                        consumed_two = true;
                        proof {
                            assert(starts_ref(su));
                            assert(su[1]->Ident_name == name@);
                        }
                        match m.get(name) {
                            Option::Some(val) => match val {
                                crate::values::Value::Str(s) => {
                                    let t = Token::Ident { name: s.clone(), span: *ref_span };
                                    let ghost prev = out@;
                                    out.push(t);
                                    proof {
                                        lemma_views_push(prev, t);
                                        assert(views(out@) + rw(v.skip(i as int + 2), m0).0
                                            =~= out0 + rw(v, m0).0);
                                    }
                                },
                                crate::values::Value::Absent => {
                                    let h = tok_clone(&ts[i]);
                                    let ghost prev = out@;
                                    out.push(h);
                                    proof {
                                        lemma_views_push(prev, h);
                                    }
                                    let n = tok_clone(&ts[i + 1]);
                                    let ghost prev2 = out@;
                                    out.push(n);
                                    proof {
                                        lemma_views_push(prev2, n);
                                        assert(views(out@) + rw(v.skip(i as int + 2), m0).0
                                            =~= out0 + rw(v, m0).0);
                                    }
                                },
                            },
                            Option::None => {
                                let d = Diag {
                                    start: hash_span,
                                    end: *ref_span,
                                    msg: undef_msg_exec(name),
                                };
                                let ghost preve = errs@;
                                errs.push(d);
                                proof {
                                    lemma_diag_views_push(preve, d);
                                    assert(diag_views(errs@) + rw(v.skip(i as int + 2), m0).1
                                        =~= errs0 + rw(v, m0).1);
                                }
                            },
                        }
                    }
                }
                if consumed_two {
                    i = i + 2;
                } else {
                    proof {
                        assert(!starts_ref(su));
                    }
                    let t = tok_clone(&ts[i]);
                    let ghost prev = out@;
                    out.push(t);
                    proof {
                        lemma_views_push(prev, t);
                        assert(views(out@) + rw(v.skip(i as int + 1), m0).0 =~= out0 + rw(
                            v,
                            m0,
                        ).0);
                    }
                    i = i + 1;
                }
            },
            _ => {
                proof {
                    assert(!(su[0] is Group) && !(su[0] is Punct));
                }
                let t = tok_clone(&ts[i]);
                let ghost prev = out@;
                out.push(t);
                proof {
                    lemma_views_push(prev, t);
                    assert(views(out@) + rw(v.skip(i as int + 1), m0).0 =~= out0 + rw(v, m0).0);
                }
                i = i + 1;
            },
        }
    }
    proof {
        assert(v.skip(ts@.len() as int) =~= Seq::<Tok>::empty());
        assert(views(out@) =~= out0 + rw(v, m0).0);
        assert(diag_views(errs@) =~= errs0 + rw(v, m0).1);
    }
}

/// Whether the stream holds no placeholder reference at all, at any depth.
pub open spec fn no_refs(ts: Seq<Tok>) -> bool
    decreases toks_size(ts),
{
    if ts.len() == 0 {
        true
    } else if ts[0] is Group {
        proof {
            lemma_size_skip_zero(ts);
            lemma_size_skip_step(ts, 0);
        }
        no_refs(ts[0]->Group_toks) && no_refs(ts.skip(1))
    } else {
        proof {
            lemma_size_skip_zero(ts);
            lemma_size_skip_step(ts, 0);
        }
        !starts_ref(ts) && no_refs(ts.skip(1))
    }
}

/// Whether every placeholder reference in the stream, at any depth, names a
/// binding that is present in the map and absent-valued.
pub open spec fn refs_all_absent(ts: Seq<Tok>, m: Map<Seq<char>, Binding>) -> bool
    decreases toks_size(ts),
{
    if ts.len() == 0 {
        true
    } else if ts[0] is Group {
        proof {
            lemma_size_skip_zero(ts);
            lemma_size_skip_step(ts, 0);
        }
        refs_all_absent(ts[0]->Group_toks, m) && refs_all_absent(ts.skip(1), m)
    } else if starts_ref(ts) {
        proof {
            lemma_size_skip_zero(ts);
            lemma_size_skip_step(ts, 0);
            lemma_size_skip_step(ts, 1);
        }
        &&& m.contains_key(ts[1]->Ident_name)
        &&& m[ts[1]->Ident_name] is Absent
        &&& refs_all_absent(ts.skip(2), m)
    } else {
        proof {
            lemma_size_skip_zero(ts);
            lemma_size_skip_step(ts, 0);
        }
        refs_all_absent(ts.skip(1), m)
    }
}

/// Pass-through under absence: when every reference in the body names an
/// absent binding, rewriting returns the body token-for-token, spans
/// included, and reports nothing.
pub proof fn lemma_absent_pass_through(ts: Seq<Tok>, m: Map<Seq<char>, Binding>)
    requires
        refs_all_absent(ts, m),
    ensures
        rw(ts, m).0 == ts,
        rw(ts, m).1 == Seq::<DiagS>::empty(),
    decreases toks_size(ts),
{
    lemma_size_skip_zero(ts);
    if ts.len() == 0 {
        assert(rw(ts, m).0 =~= ts);
    } else if ts[0] is Group {
        lemma_size_skip_step(ts, 0);
        lemma_absent_pass_through(ts[0]->Group_toks, m);
        lemma_absent_pass_through(ts.skip(1), m);
        assert(Tok::Group {
            delim: ts[0]->Group_delim,
            toks: rw(ts[0]->Group_toks, m).0,
            span: ts[0]->Group_span,
        } =~= ts[0]);
        assert(rw(ts, m).0 =~= ts);
        assert(rw(ts, m).1 =~= Seq::<DiagS>::empty());
    } else if starts_ref(ts) {
        lemma_size_skip_step(ts, 0);
        lemma_size_skip_step(ts, 1);
        lemma_absent_pass_through(ts.skip(2), m);
        assert(rw(ts, m).0 =~= ts);
        assert(rw(ts, m).1 =~= Seq::<DiagS>::empty());
    } else {
        lemma_size_skip_step(ts, 0);
        lemma_absent_pass_through(ts.skip(1), m);
        assert(rw(ts, m).0 =~= ts);
        assert(rw(ts, m).1 =~= Seq::<DiagS>::empty());
    }
}

/// Identifier pass-through: a body with no placeholder reference is returned
/// token-for-token under every placeholder map, with no diagnostics.
pub proof fn lemma_no_ref_pass_through(ts: Seq<Tok>, m: Map<Seq<char>, Binding>)
    requires
        no_refs(ts),
    ensures
        rw(ts, m).0 == ts,
        rw(ts, m).1 == Seq::<DiagS>::empty(),
    decreases toks_size(ts),
{
    lemma_size_skip_zero(ts);
    if ts.len() == 0 {
        assert(rw(ts, m).0 =~= ts);
    } else if ts[0] is Group {
        lemma_size_skip_step(ts, 0);
        lemma_no_ref_pass_through(ts[0]->Group_toks, m);
        lemma_no_ref_pass_through(ts.skip(1), m);
        assert(Tok::Group {
            delim: ts[0]->Group_delim,
            toks: rw(ts[0]->Group_toks, m).0,
            span: ts[0]->Group_span,
        } =~= ts[0]);
        assert(rw(ts, m).0 =~= ts);
        assert(rw(ts, m).1 =~= Seq::<DiagS>::empty());
    } else {
        lemma_size_skip_step(ts, 0);
        lemma_no_ref_pass_through(ts.skip(1), m);
        assert(rw(ts, m).0 =~= ts);
        assert(rw(ts, m).1 =~= Seq::<DiagS>::empty());
    }
}

/// A stream with no reference at all satisfies the absence condition under
/// every map.
pub proof fn lemma_no_refs_all_absent(ts: Seq<Tok>, m: Map<Seq<char>, Binding>)
    requires
        no_refs(ts),
    ensures
        refs_all_absent(ts, m),
    decreases toks_size(ts),
{
    lemma_size_skip_zero(ts);
    if ts.len() == 0 {
    } else if ts[0] is Group {
        lemma_size_skip_step(ts, 0);
        lemma_no_refs_all_absent(ts[0]->Group_toks, m);
        lemma_no_refs_all_absent(ts.skip(1), m);
    } else {
        lemma_size_skip_step(ts, 0);
        lemma_no_refs_all_absent(ts.skip(1), m);
    }
}

/// The group skeleton of a stream: its groups and their nesting, with every
/// leaf token dropped.
#[verifier::ext_equal]
pub enum Skel {
    G { delim: crate::tokens::Delim, inner: Seq<Skel> },
}

/// The skeleton of a stream.
pub open spec fn skel(ts: Seq<Tok>) -> Seq<Skel>
    decreases toks_size(ts),
{
    if ts.len() == 0 {
        Seq::empty()
    } else if ts[0] is Group {
        proof {
            lemma_size_skip_zero(ts);
            lemma_size_skip_step(ts, 0);
        }
        seq![Skel::G { delim: ts[0]->Group_delim, inner: skel(ts[0]->Group_toks) }] + skel(
            ts.skip(1),
        )
    } else {
        proof {
            lemma_size_skip_zero(ts);
            lemma_size_skip_step(ts, 0);
        }
        skel(ts.skip(1))
    }
}

/// The skeleton of a one-token stream.
pub proof fn lemma_skel_single(t: Tok)
    ensures
        t is Group ==> skel(seq![t]) == seq![
            Skel::G { delim: t->Group_delim, inner: skel(t->Group_toks) },
        ],
        !(t is Group) ==> skel(seq![t]) == Seq::<Skel>::empty(),
{
    let s = seq![t];
    assert(s.skip(1) =~= Seq::<Tok>::empty());
    assert(skel(s.skip(1)) == Seq::<Skel>::empty());
    if t is Group {
        assert(skel(s) =~= seq![Skel::G { delim: t->Group_delim, inner: skel(t->Group_toks) }]);
    } else {
        assert(skel(s) =~= Seq::<Skel>::empty());
    }
}

/// The skeleton distributes over concatenation.
pub proof fn lemma_skel_concat(a: Seq<Tok>, b: Seq<Tok>)
    ensures
        skel(a + b) == skel(a) + skel(b),
    decreases toks_size(a),
{
    lemma_size_skip_zero(a);
    if a.len() == 0 {
        assert(a + b =~= b);
        assert(skel(a + b) =~= skel(a) + skel(b));
    } else {
        lemma_size_skip_step(a, 0);
        assert((a + b).skip(1) =~= a.skip(1) + b);
        assert((a + b)[0] == a[0]);
        lemma_skel_concat(a.skip(1), b);
        assert(skel(a + b) =~= skel(a) + skel(b));
    }
}

/// Structure preservation: rewriting never adds, drops, reorders or
/// re-delimits a group; the output's skeleton is the input's.
pub proof fn lemma_structure_preserved(ts: Seq<Tok>, m: Map<Seq<char>, Binding>)
    ensures
        skel(rw(ts, m).0) == skel(ts),
    decreases toks_size(ts),
{
    lemma_size_skip_zero(ts);
    if ts.len() == 0 {
    } else if ts[0] is Group {
        lemma_size_skip_step(ts, 0);
        lemma_structure_preserved(ts[0]->Group_toks, m);
        lemma_structure_preserved(ts.skip(1), m);
        let g = Tok::Group {
            delim: ts[0]->Group_delim,
            toks: rw(ts[0]->Group_toks, m).0,
            span: ts[0]->Group_span,
        };
        lemma_skel_concat(seq![g], rw(ts.skip(1), m).0);
        lemma_skel_single(g);
        assert(skel(rw(ts, m).0) =~= skel(ts));
    } else if starts_ref(ts) {
        lemma_size_skip_step(ts, 0);
        lemma_size_skip_step(ts, 1);
        lemma_structure_preserved(ts.skip(2), m);
        let k = ts[1]->Ident_name;
        assert(ts.skip(1)[0] == ts[1]);
        assert(ts.skip(1).skip(1) =~= ts.skip(2));
        assert(skel(ts) == skel(ts.skip(1)));
        assert(skel(ts.skip(1)) == skel(ts.skip(2)));
        if m.contains_key(k) {
            if m[k] is Resolved {
                let t = Tok::Ident { name: m[k]->Resolved_0, span: ts[1]->Ident_span };
                lemma_skel_concat(seq![t], rw(ts.skip(2), m).0);
                lemma_skel_single(t);
            } else {
                lemma_skel_concat(seq![ts[0]], seq![ts[1]] + rw(ts.skip(2), m).0);
                lemma_skel_concat(seq![ts[1]], rw(ts.skip(2), m).0);
                lemma_skel_single(ts[0]);
                lemma_skel_single(ts[1]);
                assert(seq![ts[0], ts[1]] + rw(ts.skip(2), m).0 =~= seq![ts[0]] + (seq![ts[1]]
                    + rw(ts.skip(2), m).0));
            }
        }
        assert(skel(rw(ts, m).0) =~= skel(ts));
    } else {
        lemma_size_skip_step(ts, 0);
        lemma_structure_preserved(ts.skip(1), m);
        lemma_skel_concat(seq![ts[0]], rw(ts.skip(1), m).0);
        lemma_skel_single(ts[0]);
        assert(skel(rw(ts, m).0) =~= skel(ts));
    }
}

/// Every span a stream carries, at any depth.
pub open spec fn spans_of(ts: Seq<Tok>) -> Set<u32>
    decreases toks_size(ts),
{
    if ts.len() == 0 {
        Set::empty()
    } else if ts[0] is Group {
        proof {
            lemma_size_skip_zero(ts);
            lemma_size_skip_step(ts, 0);
        }
        set![ts[0]->Group_span].union(spans_of(ts[0]->Group_toks)).union(spans_of(ts.skip(1)))
    } else {
        proof {
            lemma_size_skip_zero(ts);
            lemma_size_skip_step(ts, 0);
        }
        set![root_span(ts[0])].union(spans_of(ts.skip(1)))
    }
}

/// The span a single token carries at its root.
pub open spec fn root_span(t: Tok) -> u32 {
    match t {
        Tok::Ident { span, .. } => span,
        Tok::Lit { span, .. } => span,
        Tok::Punct { span, .. } => span,
        Tok::Group { span, .. } => span,
    }
}

/// The spans of a one-token stream.
pub proof fn lemma_spans_single(t: Tok)
    ensures
        t is Group ==> spans_of(seq![t]) == set![t->Group_span].union(spans_of(t->Group_toks)),
        !(t is Group) ==> spans_of(seq![t]) == set![root_span(t)],
{
    let s = seq![t];
    assert(s.skip(1) =~= Seq::<Tok>::empty());
    assert(spans_of(s.skip(1)) == Set::<u32>::empty());
    if t is Group {
        assert(spans_of(s) =~= set![t->Group_span].union(spans_of(t->Group_toks)));
    } else {
        assert(spans_of(s) =~= set![root_span(t)]);
    }
}

/// Spans of a concatenation.
pub proof fn lemma_spans_concat(a: Seq<Tok>, b: Seq<Tok>)
    ensures
        spans_of(a + b) == spans_of(a).union(spans_of(b)),
    decreases toks_size(a),
{
    lemma_size_skip_zero(a);
    if a.len() == 0 {
        assert(a + b =~= b);
        assert(spans_of(a + b) =~= spans_of(a).union(spans_of(b)));
    } else {
        lemma_size_skip_step(a, 0);
        assert((a + b).skip(1) =~= a.skip(1) + b);
        assert((a + b)[0] == a[0]);
        lemma_spans_concat(a.skip(1), b);
        assert(spans_of(a + b) =~= spans_of(a).union(spans_of(b)));
    }
}

/// Span preservation, stated over provenance-free sets: the rewriter invents
/// no source position; every span in the output stream occurs in the input.
/// Together with `lemma_substitution_span` this pins where each span comes
/// from: copied tokens keep their own, a synthesized identifier takes the
/// span of the identifier it replaces.
pub proof fn lemma_spans_from_input(ts: Seq<Tok>, m: Map<Seq<char>, Binding>)
    ensures
        spans_of(rw(ts, m).0).subset_of(spans_of(ts)),
    decreases toks_size(ts),
{
    lemma_size_skip_zero(ts);
    if ts.len() == 0 {
    } else if ts[0] is Group {
        lemma_size_skip_step(ts, 0);
        lemma_spans_from_input(ts[0]->Group_toks, m);
        lemma_spans_from_input(ts.skip(1), m);
        let g = Tok::Group {
            delim: ts[0]->Group_delim,
            toks: rw(ts[0]->Group_toks, m).0,
            span: ts[0]->Group_span,
        };
        lemma_spans_concat(seq![g], rw(ts.skip(1), m).0);
        lemma_spans_single(g);
    } else if starts_ref(ts) {
        lemma_size_skip_step(ts, 0);
        lemma_size_skip_step(ts, 1);
        lemma_spans_from_input(ts.skip(2), m);
        let k = ts[1]->Ident_name;
        assert(ts.skip(1)[0] == ts[1]);
        assert(ts.skip(1).skip(1) =~= ts.skip(2));
        assert(spans_of(ts) == set![root_span(ts[0])].union(spans_of(ts.skip(1))));
        assert(spans_of(ts.skip(1)) == set![root_span(ts[1])].union(spans_of(ts.skip(2))));
        if m.contains_key(k) {
            if m[k] is Resolved {
                let t = Tok::Ident { name: m[k]->Resolved_0, span: ts[1]->Ident_span };
                lemma_spans_concat(seq![t], rw(ts.skip(2), m).0);
                lemma_spans_single(t);
            } else {
                lemma_spans_concat(seq![ts[0]], seq![ts[1]] + rw(ts.skip(2), m).0);
                lemma_spans_concat(seq![ts[1]], rw(ts.skip(2), m).0);
                lemma_spans_single(ts[0]);
                lemma_spans_single(ts[1]);
                assert(seq![ts[0], ts[1]] + rw(ts.skip(2), m).0 =~= seq![ts[0]] + (seq![ts[1]]
                    + rw(ts.skip(2), m).0));
            }
        }
    } else {
        lemma_size_skip_step(ts, 0);
        lemma_spans_from_input(ts.skip(1), m);
        lemma_spans_concat(seq![ts[0]], rw(ts.skip(1), m).0);
        lemma_spans_single(ts[0]);
    }
}

/// A resolved reference becomes exactly one identifier token spelled with the
/// bound string and carrying the span of the identifier it replaces.
pub proof fn lemma_substitution_span(ts: Seq<Tok>, m: Map<Seq<char>, Binding>)
    requires
        starts_ref(ts),
        m.contains_key(ts[1]->Ident_name),
        m[ts[1]->Ident_name] is Resolved,
    ensures
        rw(ts, m).0.len() >= 1,
        rw(ts, m).0[0] == (Tok::Ident {
            name: m[ts[1]->Ident_name]->Resolved_0,
            span: ts[1]->Ident_span,
        }),
{
}

/// Span provenance, token by token: every token the rewriter emits is an
/// input token copied whole, spelling and span unchanged; or a group rebuilt
/// with the original delimiter and span around its rewritten contents; or
/// one identifier synthesized from the bound string, carrying the span of
/// the reference it replaces. A reference to an unbound name emits nothing.
pub proof fn lemma_rw_provenance(ts: Seq<Tok>, m: Map<Seq<char>, Binding>)
    requires
        ts.len() > 0,
    ensures
        ts[0] is Group ==> rw(ts, m).0 == seq![
            Tok::Group {
                delim: ts[0]->Group_delim,
                toks: rw(ts[0]->Group_toks, m).0,
                span: ts[0]->Group_span,
            },
        ] + rw(ts.skip(1), m).0,
        starts_ref(ts) && m.contains_key(ts[1]->Ident_name) && m[ts[1]->Ident_name] is Resolved
            ==> rw(ts, m).0 == seq![
            Tok::Ident { name: m[ts[1]->Ident_name]->Resolved_0, span: ts[1]->Ident_span },
        ] + rw(ts.skip(2), m).0,
        starts_ref(ts) && m.contains_key(ts[1]->Ident_name) && m[ts[1]->Ident_name] is Absent
            ==> rw(ts, m).0 == seq![ts[0], ts[1]] + rw(ts.skip(2), m).0,
        starts_ref(ts) && !m.contains_key(ts[1]->Ident_name) ==> rw(ts, m).0 == rw(
            ts.skip(2),
            m,
        ).0,
        !(ts[0] is Group) && !starts_ref(ts) ==> rw(ts, m).0 == seq![ts[0]] + rw(ts.skip(1), m).0,
{
}

/// One absent reference, locally: at a reference whose name is bound absent,
/// the rewriter emits exactly the two reference tokens, spellings and spans
/// unchanged, and records no diagnostic for the occurrence.
pub proof fn lemma_absent_ref_step(ts: Seq<Tok>, m: Map<Seq<char>, Binding>)
    requires
        starts_ref(ts),
        m.contains_key(ts[1]->Ident_name),
        m[ts[1]->Ident_name] is Absent,
    ensures
        rw(ts, m).0 == seq![ts[0], ts[1]] + rw(ts.skip(2), m).0,
        rw(ts, m).1 == rw(ts.skip(2), m).1,
{
}

/// Number of `#k` placeholder references in the stream, at any depth.
pub open spec fn count_krefs(ts: Seq<Tok>, k: Seq<char>) -> nat
    decreases toks_size(ts),
{
    if ts.len() == 0 {
        0
    } else if ts[0] is Group {
        proof {
            lemma_size_skip_zero(ts);
            lemma_size_skip_step(ts, 0);
        }
        count_krefs(ts[0]->Group_toks, k) + count_krefs(ts.skip(1), k)
    } else if starts_ref(ts) && ts[1]->Ident_name == k {
        proof {
            lemma_size_skip_zero(ts);
            lemma_size_skip_step(ts, 0);
            lemma_size_skip_step(ts, 1);
        }
        1 + count_krefs(ts.skip(2), k)
    } else {
        proof {
            lemma_size_skip_zero(ts);
            lemma_size_skip_step(ts, 0);
        }
        count_krefs(ts.skip(1), k)
    }
}

/// Whether every placeholder reference in the stream, at any depth, names a
/// binding present in the map.
pub open spec fn all_refs_bound(ts: Seq<Tok>, m: Map<Seq<char>, Binding>) -> bool
    decreases toks_size(ts),
{
    if ts.len() == 0 {
        true
    } else if ts[0] is Group {
        proof {
            lemma_size_skip_zero(ts);
            lemma_size_skip_step(ts, 0);
        }
        all_refs_bound(ts[0]->Group_toks, m) && all_refs_bound(ts.skip(1), m)
    } else if starts_ref(ts) {
        proof {
            lemma_size_skip_zero(ts);
            lemma_size_skip_step(ts, 0);
            lemma_size_skip_step(ts, 1);
        }
        m.contains_key(ts[1]->Ident_name) && all_refs_bound(ts.skip(2), m)
    } else {
        proof {
            lemma_size_skip_zero(ts);
            lemma_size_skip_step(ts, 0);
        }
        all_refs_bound(ts.skip(1), m)
    }
}

/// Whether no binding in the map resolves to the spelling `k`.
pub open spec fn no_binding_spells(m: Map<Seq<char>, Binding>, k: Seq<char>) -> bool {
    forall|n: Seq<char>|
        #[trigger] m.contains_key(n) ==> (m[n] is Resolved ==> m[n]->Resolved_0 != k)
}

/// The empty stream holds no reference.
proof fn lemma_count_empty(k: Seq<char>)
    ensures
        count_krefs(Seq::<Tok>::empty(), k) == 0,
{
}

/// The reference count distributes over concatenation, provided no reference
/// pair straddles the seam.
proof fn lemma_count_concat(a: Seq<Tok>, b: Seq<Tok>, k: Seq<char>)
    requires
        !(a.len() > 0 && b.len() > 0 && a.last() is Punct && a.last()->Punct_ch == '#'
            && b[0] is Ident && b[0]->Ident_name == k),
    ensures
        count_krefs(a + b, k) == count_krefs(a, k) + count_krefs(b, k),
    decreases toks_size(a),
{
    lemma_size_skip_zero(a);
    if a.len() == 0 {
        assert(a + b =~= b);
    } else {
        lemma_size_skip_step(a, 0);
        let c = a + b;
        assert(c[0] == a[0]);
        assert(c.skip(1) =~= a.skip(1) + b);
        if a[0] is Group {
            if a.len() > 1 {
                assert(a.skip(1).last() == a.last());
            }
            lemma_count_concat(a.skip(1), b, k);
        } else if a.len() >= 2 && a[0] is Punct && a[0]->Punct_ch == '#' && a[1] is Ident {
            assert(c[1] == a[1]);
            lemma_size_skip_step(a, 1);
            if a[1]->Ident_name == k {
                assert(starts_ref(c) && starts_ref(a));
                assert(c.skip(2) =~= a.skip(2) + b);
                if a.len() > 2 {
                    assert(a.skip(2).last() == a.last());
                }
                lemma_count_concat(a.skip(2), b, k);
            } else {
                assert(a.skip(1).last() == a.last());
                lemma_count_concat(a.skip(1), b, k);
            }
        } else if a.len() == 1 && a[0] is Punct && a[0]->Punct_ch == '#' {
            assert(a.skip(1) =~= Seq::<Tok>::empty());
            lemma_count_empty(k);
            assert(count_krefs(a, k) == 0);
            if b.len() == 0 {
                assert(c =~= a);
            } else {
                assert(c[1] == b[0]);
                assert(!(b[0] is Ident && b[0]->Ident_name == k));
                assert(!(starts_ref(c) && c[1]->Ident_name == k));
                assert(c.skip(1) =~= b);
            }
        } else {
            assert(!(a[0] is Punct && a[0]->Punct_ch == '#') || a.len() == 1 || !(a[1] is Ident));
            assert(!(starts_ref(a) && a[1]->Ident_name == k));
            assert(!(starts_ref(c) && c[1]->Ident_name == k)) by {
                if c.len() >= 2 && a.len() >= 2 {
                    assert(c[1] == a[1]);
                }
                if c.len() >= 2 && a.len() == 1 && b.len() > 0 {
                    assert(c[1] == b[0]);
                }
            }
            if a.len() > 1 {
                assert(a.skip(1).last() == a.last());
            }
            lemma_count_concat(a.skip(1), b, k);
        }
    }
}

/// When every reference is bound and no binding resolves to the spelling `k`,
/// a rewritten stream whose source does not begin with an identifier cannot
/// begin with an identifier spelled `k`.
proof fn lemma_rw_head_not_kident(ts: Seq<Tok>, m: Map<Seq<char>, Binding>, k: Seq<char>)
    requires
        ts.len() > 0,
        !(ts[0] is Ident),
        all_refs_bound(ts, m),
        no_binding_spells(m, k),
    ensures
        rw(ts, m).0.len() > 0,
        !(rw(ts, m).0[0] is Ident && rw(ts, m).0[0]->Ident_name == k),
{
    lemma_size_skip_zero(ts);
    lemma_size_skip_step(ts, 0);
    if ts[0] is Group {
        let g = Tok::Group {
            delim: ts[0]->Group_delim,
            toks: rw(ts[0]->Group_toks, m).0,
            span: ts[0]->Group_span,
        };
        assert((seq![g] + rw(ts.skip(1), m).0)[0] == g);
    } else if starts_ref(ts) {
        let kk = ts[1]->Ident_name;
        assert(m.contains_key(kk));
        if m[kk] is Resolved {
            let t = Tok::Ident { name: m[kk]->Resolved_0, span: ts[1]->Ident_span };
            assert((seq![t] + rw(ts.skip(2), m).0)[0] == t);
            assert(m[kk]->Resolved_0 != k);
        } else {
            assert((seq![ts[0], ts[1]] + rw(ts.skip(2), m).0)[0] == ts[0]);
        }
    } else {
        assert((seq![ts[0]] + rw(ts.skip(1), m).0)[0] == ts[0]);
    }
}

/// Idempotence under absence, per name: when `k` is bound absent, every
/// reference is bound, and no binding resolves to the spelling `k`, the
/// rewritten stream holds exactly as many `#k` references as the body, at
/// every depth, and nothing is reported. Together with
/// `lemma_absent_ref_step`, which shows each such reference is copied with
/// its spellings and spans intact, every `#k` in the body stands textually
/// identical in the output.
pub proof fn lemma_absent_refs_preserved(ts: Seq<Tok>, m: Map<Seq<char>, Binding>, k: Seq<char>)
    requires
        m.contains_key(k),
        m[k] is Absent,
        all_refs_bound(ts, m),
        no_binding_spells(m, k),
    ensures
        count_krefs(rw(ts, m).0, k) == count_krefs(ts, k),
        rw(ts, m).1 == Seq::<DiagS>::empty(),
    decreases toks_size(ts),
{
    lemma_size_skip_zero(ts);
    if ts.len() == 0 {
        assert(rw(ts, m).1 =~= Seq::<DiagS>::empty());
    } else if ts[0] is Group {
        lemma_size_skip_step(ts, 0);
        lemma_absent_refs_preserved(ts[0]->Group_toks, m, k);
        lemma_absent_refs_preserved(ts.skip(1), m, k);
        let g = Tok::Group {
            delim: ts[0]->Group_delim,
            toks: rw(ts[0]->Group_toks, m).0,
            span: ts[0]->Group_span,
        };
        let rr = rw(ts.skip(1), m).0;
        lemma_count_concat(seq![g], rr, k);
        assert(seq![g].skip(1) =~= Seq::<Tok>::empty());
        lemma_count_empty(k);
        assert(count_krefs(seq![g], k) == count_krefs(rw(ts[0]->Group_toks, m).0, k));
        assert(rw(ts, m).1 =~= Seq::<DiagS>::empty());
    } else if starts_ref(ts) {
        lemma_size_skip_step(ts, 0);
        lemma_size_skip_step(ts, 1);
        assert(ts.skip(1)[0] == ts[1]);
        assert(ts.skip(1).skip(1) =~= ts.skip(2));
        let j = ts[1]->Ident_name;
        assert(m.contains_key(j));
        lemma_absent_refs_preserved(ts.skip(2), m, k);
        let rr = rw(ts.skip(2), m).0;
        if m[j] is Resolved {
            assert(j != k);
            let t = Tok::Ident { name: m[j]->Resolved_0, span: ts[1]->Ident_span };
            let out = seq![t] + rr;
            assert(out[0] == t);
            assert(out.skip(1) =~= rr);
            assert(count_krefs(out, k) == count_krefs(rr, k));
            assert(count_krefs(ts, k) == count_krefs(ts.skip(1), k));
            assert(count_krefs(ts.skip(1), k) == count_krefs(ts.skip(2), k));
        } else {
            let out = seq![ts[0], ts[1]] + rr;
            assert(out[0] == ts[0]);
            assert(out[1] == ts[1]);
            assert(out.skip(2) =~= rr);
            if j == k {
                assert(starts_ref(out));
                assert(count_krefs(out, k) == 1 + count_krefs(rr, k));
                assert(count_krefs(ts, k) == 1 + count_krefs(ts.skip(2), k));
            } else {
                assert(out.skip(1) =~= seq![ts[1]] + rr);
                assert((seq![ts[1]] + rr)[0] == ts[1]);
                assert((seq![ts[1]] + rr).skip(1) =~= rr);
                assert(count_krefs(out, k) == count_krefs(out.skip(1), k));
                assert(count_krefs(out.skip(1), k) == count_krefs(rr, k));
                assert(count_krefs(ts, k) == count_krefs(ts.skip(1), k));
                assert(count_krefs(ts.skip(1), k) == count_krefs(ts.skip(2), k));
            }
        }
        assert(rw(ts, m).1 =~= Seq::<DiagS>::empty());
    } else {
        lemma_size_skip_step(ts, 0);
        lemma_absent_refs_preserved(ts.skip(1), m, k);
        let rr = rw(ts.skip(1), m).0;
        let one = seq![ts[0]];
        assert(one.skip(1) =~= Seq::<Tok>::empty());
        lemma_count_empty(k);
        assert(count_krefs(one, k) == 0);
        if ts[0] is Punct && ts[0]->Punct_ch == '#' {
            if ts.len() == 1 {
                assert(ts.skip(1) =~= Seq::<Tok>::empty());
                assert(rr =~= Seq::<Tok>::empty());
                lemma_count_concat(one, rr, k);
            } else {
                assert(!(ts[1] is Ident));
                assert(ts.skip(1)[0] == ts[1]);
                lemma_rw_head_not_kident(ts.skip(1), m, k);
                lemma_count_concat(one, rr, k);
            }
        } else {
            lemma_count_concat(one, rr, k);
        }
        assert(!(starts_ref(ts) && ts[1]->Ident_name == k));
        assert(count_krefs(ts, k) == count_krefs(ts.skip(1), k));
        assert(rw(ts, m).1 =~= Seq::<DiagS>::empty());
    }
}

} // verus!

