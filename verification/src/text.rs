//! Text of tokens: the canonical spelling of a token stream (used by the
//! stringify form), and the spelling of a string literal holding a given
//! message (used to shape diagnostic tokens).

use vstd::prelude::*;

use crate::outside::{chars_of_str, string_from_chars};
use crate::tokens::{
    lemma_seq_skip_prefix_size, lemma_size_skip_step, lemma_size_skip_zero, lemma_views_index,
    tok_size, tok_view, toks_size, views, Delim, Spacing, Tok, Token,
};

verus! {

/// Opening text of a delimiter.
pub open spec fn open_text(d: Delim) -> Seq<char> {
    match d {
        Delim::Paren => seq!['('],
        Delim::Bracket => seq!['['],
        Delim::Brace => seq!['{', ' '],
        Delim::Bare => Seq::empty(),
    }
}

/// Closing text of a delimiter.
pub open spec fn close_text(d: Delim) -> Seq<char> {
    match d {
        Delim::Paren => seq![')'],
        Delim::Bracket => seq![']'],
        Delim::Brace => seq!['}'],
        Delim::Bare => Seq::empty(),
    }
}

/// Canonical spelling of one token.
pub open spec fn tok_text(t: Tok) -> Seq<char>
    decreases tok_size(t), 0nat,
{
    match t {
        Tok::Ident { name, .. } => name,
        Tok::Lit { text, .. } => text,
        Tok::Punct { ch, .. } => seq![ch],
        Tok::Group { delim, toks, .. } => {
            proof {
                lemma_tok_text_group_size(toks);
            }
            open_text(delim) + render_from(toks, false) + (if delim is Brace && toks.len() > 0 {
                seq![' ']
            } else {
                Seq::<char>::empty()
            }) + close_text(delim)
        },
    }
}

pub proof fn lemma_tok_text_group_size(ts: Seq<Tok>)
    ensures
        toks_size(ts) < 1 + toks_size(ts),
{
}

/// Canonical spelling of a token stream: tokens separated by one space,
/// except that nothing follows a jointly-spaced punctuation character.
/// `sp` says whether a separating space is owed before the next token.
pub open spec fn render_from(ts: Seq<Tok>, sp: bool) -> Seq<char>
    decreases toks_size(ts), 1nat,
{
    if ts.len() == 0 {
        Seq::empty()
    } else {
        proof {
            lemma_size_skip_zero(ts);
            lemma_size_skip_step(ts, 0);
            lemma_seq_skip_prefix_size(ts, 0);
        }
        let sep: Seq<char> = if sp {
            seq![' ']
        } else {
            Seq::empty()
        };
        let joint = ts[0] is Punct && ts[0]->Punct_spacing is Joint;
        sep + tok_text(ts[0]) + render_from(ts.skip(1), !joint)
    }
}

/// Canonical spelling of a whole stream.
pub open spec fn render(ts: Seq<Tok>) -> Seq<char> {
    render_from(ts, false)
}

/// Append the canonical spelling of `ts` to `out`, owing a leading space
/// when `sp` holds.
#[verifier::rlimit(60)]
pub fn render_into(ts: &Vec<Token>, sp: bool, out: &mut Vec<char>)
    ensures
        final(out)@ == old(out)@ + render_from(views(ts@), sp),
    decreases toks_size(views(ts@)), 1nat,
{
    let ghost v = views(ts@);
    let ghost out0 = old(out)@;
    proof {
        lemma_views_index(ts@);
        assert(v.skip(0) =~= v);
    }
    let mut i: usize = 0;
    let mut owe: bool = sp;
    while i < ts.len()
        invariant
            i <= ts@.len(),
            v == views(ts@),
            v.len() == ts@.len(),
            forall|j: int| 0 <= j < ts@.len() ==> v[j] == tok_view(ts@[j]),
            out@ + render_from(v.skip(i as int), owe) == out0 + render_from(v, sp),
        decreases ts@.len() - i,
    {
        let ghost su = v.skip(i as int);
        proof {
            lemma_size_skip_zero(v);
            lemma_size_skip_step(v, i as int);
            lemma_seq_skip_prefix_size(v, i as int);
            assert(su[0] == v[i as int]);
            assert(su.skip(1) =~= v.skip(i as int + 1));
        }
        let ghost entry = out@;
        let ghost owed = owe;
        if owe {
            out.push(' ');
        }
        let ghost sep_done = out@;
        proof {
            assert(sep_done =~= entry + (if owed {
                seq![' ']
            } else {
                Seq::<char>::empty()
            }));
        }
        let mut next_owe: bool = true;
        match &ts[i] {
            Token::Ident { name, .. } => {
                let mut cs = chars_of_str(name.as_str());
                out.append(&mut cs);
                proof {
                    assert(out@ =~= sep_done + tok_text(su[0]));
                }
            },
            Token::Lit { text, .. } => {
                let mut cs = chars_of_str(text.as_str());
                out.append(&mut cs);
                proof {
                    assert(out@ =~= sep_done + tok_text(su[0]));
                }
            },
            Token::Punct { ch, spacing, .. } => {
                out.push(*ch);
                if let Spacing::Joint = spacing {
                    next_owe = false;
                }
                proof {
                    assert(out@ =~= sep_done + tok_text(su[0]));
                }
            },
            Token::Group { delim, tokens, .. } => {
                proof {
                    assert(toks_size(views(tokens@)) < toks_size(su));
                }
                match delim {
                    Delim::Paren => out.push('('),
                    Delim::Bracket => out.push('['),
                    Delim::Brace => {
                        out.push('{');
                        out.push(' ');
                    },
                    Delim::Bare => (),
                }
                proof {
                    assert(out@ =~= sep_done + open_text(su[0]->Group_delim));
                }
                render_into(tokens, false, out);
                let nonempty = tokens.len() > 0;
                proof {
                    assert(out@ == sep_done + open_text(su[0]->Group_delim) + render_from(
                        su[0]->Group_toks,
                        false,
                    ));
                }
                match delim {
                    Delim::Paren => out.push(')'),
                    Delim::Bracket => out.push(']'),
                    Delim::Brace => {
                        if nonempty {
                            out.push(' ');
                        }
                        out.push('}');
                    },
                    Delim::Bare => (),
                }
                proof {
                    assert(out@ =~= sep_done + tok_text(su[0]));
                }
            },
        }
        proof {
            assert(render_from(su, owed) == (if owed {
                seq![' ']
            } else {
                Seq::<char>::empty()
            }) + tok_text(su[0]) + render_from(su.skip(1), next_owe));
            assert(out@ + render_from(v.skip(i as int + 1), next_owe) =~= entry + render_from(
                su,
                owed,
            ));
        }
        i = i + 1;
        owe = next_owe;
    }
    proof {
        assert(v.skip(ts@.len() as int) =~= Seq::<Tok>::empty());
        assert(out@ =~= out0 + render_from(v, sp));
    }
}

/// The canonical spelling of a stream, as a string.
pub fn render_string(ts: &Vec<Token>) -> (r: String)
    ensures
        r@ == render(views(ts@)),
{
    let mut buf: Vec<char> = Vec::new();
    render_into(ts, false, &mut buf);
    string_from_chars(&buf)
}

/// The escaped spelling of one character inside a string literal.
pub open spec fn esc_char(c: char) -> Seq<char> {
    if c == '"' {
        seq!['\\', '"']
    } else if c == '\\' {
        seq!['\\', '\\']
    } else if c == '\n' {
        seq!['\\', 'n']
    } else if c == '\r' {
        seq!['\\', 'r']
    } else if c == '\t' {
        seq!['\\', 't']
    } else {
        seq![c]
    }
}

/// The escaped spelling of a message's characters.
pub open spec fn escape_chars(s: Seq<char>) -> Seq<char>
    decreases s.len(),
{
    if s.len() == 0 {
        Seq::empty()
    } else {
        esc_char(s[0]) + escape_chars(s.skip(1))
    }
}

/// The spelling of a string literal holding the message `s`.
pub open spec fn str_lit_text(s: Seq<char>) -> Seq<char> {
    seq!['"'] + escape_chars(s) + seq!['"']
}

/// Build the spelling of a string literal holding the message `msg`.
pub fn str_lit_text_exec(msg: &String) -> (r: String)
    ensures
        r@ == str_lit_text(msg@),
{
    let cs = chars_of_str(msg.as_str());
    let ghost v = msg@;
    let mut buf: Vec<char> = Vec::new();
    buf.push('"');
    let mut i: usize = 0;
    proof {
        assert(v.skip(0) =~= v);
    }
    while i < cs.len()
        invariant
            i <= cs@.len(),
            cs@ == v,
            buf@ + escape_chars(v.skip(i as int)) == seq!['"'] + escape_chars(v),
        decreases cs@.len() - i,
    {
        proof {
            assert(v.skip(i as int)[0] == v[i as int]);
            assert(v.skip(i as int).skip(1) =~= v.skip(i as int + 1));
        }
        let c = cs[i];
        if c == '"' {
            buf.push('\\');
            buf.push('"');
        } else if c == '\\' {
            buf.push('\\');
            buf.push('\\');
        } else if c == '\n' {
            buf.push('\\');
            buf.push('n');
        } else if c == '\r' {
            buf.push('\\');
            buf.push('r');
        } else if c == '\t' {
            buf.push('\\');
            buf.push('t');
        } else {
            buf.push(c);
        }
        proof {
            assert(buf@ + escape_chars(v.skip(i as int + 1)) =~= seq!['"'] + escape_chars(v));
        }
        i = i + 1;
    }
    buf.push('"');
    proof {
        assert(v.skip(cs@.len() as int) =~= Seq::<char>::empty());
        assert(buf@ =~= str_lit_text(v));
    }
    string_from_chars(&buf)
}

} // verus!
