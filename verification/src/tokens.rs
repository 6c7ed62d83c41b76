//! The token-tree data model: an executable token type carrying source spans,
//! its mathematical model, and the basic operations (view, size, clone,
//! equality) that the parser, evaluator and rewriter build on.

use vstd::prelude::*;

verus! {

/// Delimiter kind of a token group.
#[derive(Clone, Copy, PartialEq, Eq, Structural, Debug)]
pub enum Delim {
    Paren,
    Bracket,
    Brace,
    Bare,
}

/// Spacing hint of a punctuation token: whether it joins the next token.
#[derive(Clone, Copy, PartialEq, Eq, Structural, Debug)]
pub enum Spacing {
    Alone,
    Joint,
}

/// Executable token tree. A span is an opaque source-location handle; the
/// rewriter only copies spans around, never inspects them.
#[derive(Debug)]
pub enum Token {
    Ident { name: String, span: u32 },
    Lit { text: String, span: u32 },
    Punct { ch: char, spacing: Spacing, span: u32 },
    Group { delim: Delim, tokens: Vec<Token>, span: u32 },
}

/// Mathematical model of a token tree; names and literal spellings are
/// character sequences, group contents are sequences of models.
#[verifier::ext_equal]
pub enum Tok {
    Ident { name: Seq<char>, span: u32 },
    Lit { text: Seq<char>, span: u32 },
    Punct { ch: char, spacing: Spacing, span: u32 },
    Group { delim: Delim, toks: Seq<Tok>, span: u32 },
}

/// Model of a single token.
pub open spec fn tok_view(t: Token) -> Tok
    decreases t,
{
    match t {
        Token::Ident { name, span } => Tok::Ident { name: name@, span },
        Token::Lit { text, span } => Tok::Lit { text: text@, span },
        Token::Punct { ch, spacing, span } => Tok::Punct { ch, spacing, span },
        Token::Group { delim, tokens, span } => Tok::Group {
            delim,
            toks: views(tokens@),
            span,
        },
    }
}

/// Model of a whole token stream.
pub open spec fn views(ts: Seq<Token>) -> Seq<Tok>
    decreases ts,
{
    if ts.len() == 0 {
        Seq::empty()
    } else {
        seq![tok_view(ts[0])] + views(ts.subrange(1, ts.len() as int))
    }
}

/// `views` maps the stream pointwise.
pub proof fn lemma_views_index(ts: Seq<Token>)
    ensures
        views(ts).len() == ts.len(),
        forall|i: int| 0 <= i < ts.len() ==> views(ts)[i] == tok_view(ts[i]),
    decreases ts.len(),
{
    if ts.len() > 0 {
        lemma_views_index(ts.subrange(1, ts.len() as int));
    }
}

/// Appending one token appends its model.
pub proof fn lemma_views_push(ts: Seq<Token>, t: Token)
    ensures
        views(ts.push(t)) == views(ts).push(tok_view(t)),
{
    lemma_views_index(ts);
    lemma_views_index(ts.push(t));
    assert(views(ts.push(t)) =~= views(ts).push(tok_view(t)));
}

/// Size of a token tree, counting one for each leaf and each group.
pub open spec fn tok_size(t: Tok) -> nat
    decreases t,
{
    match t {
        Tok::Group { toks, .. } => 1 + toks_size(toks),
        _ => 1,
    }
}

/// Size of a token stream: the sum of the sizes of its trees.
pub open spec fn toks_size(ts: Seq<Tok>) -> nat
    decreases ts,
{
    if ts.len() == 0 {
        0
    } else {
        tok_size(ts[0]) + toks_size(ts.subrange(1, ts.len() as int))
    }
}

/// Every token tree has positive size.
pub proof fn lemma_tok_size_pos(t: Tok)
    ensures
        tok_size(t) >= 1,
{
}

/// Splitting off the element at `i` splits the size of the tail.
pub proof fn lemma_size_skip_step(ts: Seq<Tok>, i: int)
    requires
        0 <= i < ts.len(),
    ensures
        toks_size(ts.skip(i)) == tok_size(ts[i]) + toks_size(ts.skip(i + 1)),
        toks_size(ts.skip(i + 1)) < toks_size(ts.skip(i)),
{
    let s = ts.skip(i);
    assert(s[0] == ts[i]);
    assert(s.subrange(1, s.len() as int) =~= ts.skip(i + 1));
    lemma_tok_size_pos(ts[i]);
}

/// The whole stream is its tail at zero.
pub proof fn lemma_size_skip_zero(ts: Seq<Tok>)
    ensures
        toks_size(ts.skip(0)) == toks_size(ts),
{
    assert(ts.skip(0) =~= ts);
}

/// A group's contents are strictly smaller than any tail the group heads.
pub proof fn lemma_size_group_inner(ts: Seq<Tok>, i: int)
    requires
        0 <= i < ts.len(),
        ts[i] is Group,
    ensures
        toks_size(ts[i]->Group_toks) < toks_size(ts.skip(i)),
{
    lemma_size_skip_step(ts, i);
}

/// Dropping more of the front never grows the size.
pub proof fn lemma_size_skip_mono(ts: Seq<Tok>, a: int, b: int)
    requires
        0 <= a <= b <= ts.len(),
    ensures
        toks_size(ts.skip(b)) <= toks_size(ts.skip(a)),
    decreases b - a,
{
    if a < b {
        lemma_size_skip_step(ts, a);
        lemma_size_skip_mono(ts, a + 1, b);
    }
}

/// Clone one token, preserving its model.
pub fn tok_clone(t: &Token) -> (r: Token)
    ensures
        tok_view(r) == tok_view(*t),
    decreases tok_size(tok_view(*t)), 0nat,
{
    match t {
        Token::Ident { name, span } => Token::Ident { name: name.clone(), span: *span },
        Token::Lit { text, span } => Token::Lit { text: text.clone(), span: *span },
        Token::Punct { ch, spacing, span } => Token::Punct {
            ch: *ch,
            spacing: *spacing,
            span: *span,
        },
        Token::Group { delim, tokens, span } => {
            proof {
                lemma_size_skip_zero(views(tokens@));
            }
            let inner = toks_clone(tokens);
            let r = Token::Group { delim: *delim, tokens: inner, span: *span };
            proof {
                assert(tok_view(r) =~= tok_view(*t));
            }
            r
        },
    }
}

/// Clone a token stream, preserving its model.
pub fn toks_clone(ts: &Vec<Token>) -> (r: Vec<Token>)
    ensures
        views(r@) == views(ts@),
    decreases toks_size(views(ts@)), 1nat,
{
    let mut out: Vec<Token> = Vec::new();
    let mut i: usize = 0;
    proof {
        lemma_views_index(ts@);
    }
    while i < ts.len()
        invariant
            i <= ts@.len(),
            views(ts@).len() == ts@.len(),
            forall|j: int| 0 <= j < ts@.len() ==> views(ts@)[j] == tok_view(ts@[j]),
            views(out@) =~= views(ts@).subrange(0, i as int),
        decreases ts@.len() - i,
    {
        proof {
            lemma_size_skip_zero(views(ts@));
            lemma_size_skip_step(views(ts@), i as int);
            lemma_seq_skip_prefix_size(views(ts@), i as int);
        }
        let c = tok_clone(&ts[i]);
        let ghost prev = out@;
        out.push(c);
        proof {
            lemma_views_push(prev, c);
            assert(views(ts@).subrange(0, i as int + 1) =~= views(ts@).subrange(
                0,
                i as int,
            ).push(views(ts@)[i as int]));
            assert(views(out@) =~= views(ts@).subrange(0, i as int + 1));
        }
        i = i + 1;
    }
    proof {
        assert(views(ts@).subrange(0, ts@.len() as int) =~= views(ts@));
    }
    out
}

/// Any element's size is bounded by the size of its stream.
pub proof fn lemma_seq_skip_prefix_size(ts: Seq<Tok>, i: int)
    requires
        0 <= i < ts.len(),
    ensures
        tok_size(ts[i]) <= toks_size(ts),
    decreases i,
{
    if i == 0 {
        lemma_size_skip_zero(ts);
        lemma_size_skip_step(ts, 0);
    } else {
        let tail = ts.subrange(1, ts.len() as int);
        lemma_seq_skip_prefix_size(tail, i - 1);
        assert(tail[i - 1] == ts[i]);
    }
}

/// Compare two tokens for model equality, spans included.
pub fn tok_eq(a: &Token, b: &Token) -> (r: bool)
    ensures
        r == (tok_view(*a) == tok_view(*b)),
    decreases tok_size(tok_view(*a)), 0nat,
{
    match (a, b) {
        (Token::Ident { name: na, span: sa }, Token::Ident { name: nb, span: sb }) => {
            let r = *na == *nb && *sa == *sb;
            proof {
                if r {
                    assert(tok_view(*a) =~= tok_view(*b));
                }
            }
            r
        },
        (Token::Lit { text: ta, span: sa }, Token::Lit { text: tb, span: sb }) => {
            let r = *ta == *tb && *sa == *sb;
            proof {
                if r {
                    assert(tok_view(*a) =~= tok_view(*b));
                }
            }
            r
        },
        (
            Token::Punct { ch: ca, spacing: pa, span: sa },
            Token::Punct { ch: cb, spacing: pb, span: sb },
        ) => *ca == *cb && *pa == *pb && *sa == *sb,
        (
            Token::Group { delim: da, tokens: ta, span: sa },
            Token::Group { delim: db, tokens: tb, span: sb },
        ) => {
            proof {
                lemma_size_skip_zero(views(ta@));
            }
            let r = *da == *db && *sa == *sb && toks_eq(ta, tb);
            proof {
                if r {
                    assert(tok_view(*a) =~= tok_view(*b));
                }
            }
            r
        },
        _ => false,
    }
}

/// Compare two token streams for model equality, spans included.
pub fn toks_eq(a: &Vec<Token>, b: &Vec<Token>) -> (r: bool)
    ensures
        r == (views(a@) == views(b@)),
    decreases toks_size(views(a@)), 1nat,
{
    proof {
        lemma_views_index(a@);
        lemma_views_index(b@);
    }
    if a.len() != b.len() {
        return false;
    }
    let mut i: usize = 0;
    while i < a.len()
        invariant
            a@.len() == b@.len(),
            i <= a@.len(),
            views(a@).len() == a@.len(),
            views(b@).len() == b@.len(),
            forall|j: int| 0 <= j < a@.len() ==> views(a@)[j] == tok_view(a@[j]),
            forall|j: int| 0 <= j < b@.len() ==> views(b@)[j] == tok_view(b@[j]),
            forall|j: int| 0 <= j < i ==> views(a@)[j] == views(b@)[j],
        decreases a@.len() - i,
    {
        proof {
            lemma_seq_skip_prefix_size(views(a@), i as int);
        }
        if !tok_eq(&a[i], &b[i]) {
            return false;
        }
        i = i + 1;
    }
    proof {
        assert(views(a@) =~= views(b@));
    }
    true
}

} // verus!
