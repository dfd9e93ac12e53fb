//! The tag-instrumentation engine: a recursive walk over a token tree that
//! inserts a synthetic location attribute after every qualifying opening
//! tag name, and changes nothing else.

use vstd::prelude::*;

use crate::token::{
    depth_ok_seq, depth_ok_tok, lemma_depth_ok_seq, lemma_view_tokens, tokens_depth_ok,
    view_tokens, Token, TokenView, MAX_DEPTH,
};
use crate::vocab::{is_tag_name, is_tag_name_spec};

verus! {

broadcast use vstd::seq::group_seq_axioms, vstd::std_specs::vec::group_vec_axioms;

/// The lookback window: at most the single most recently seen relevant
/// punctuation character (`<` or `/`), used to tell an opening tag name
/// from any other occurrence of the same identifier.
#[derive(Clone, Copy, PartialEq, Eq, Structural, Debug)]
pub enum Window {
    Neutral,
    SawOpen,
    SawSlash,
}

/// How one token changes the lookback window: `<` and `/` set it, any
/// identifier clears it, and groups and literals leave it alone.
pub open spec fn next_window(t: TokenView, w: Window) -> Window {
    match t {
        TokenView::Punct(c) => if c == '<' {
            Window::SawOpen
        } else if c == '/' {
            Window::SawSlash
        } else {
            w
        },
        TokenView::Ident(_) => Window::Neutral,
        TokenView::Group(_, _) => w,
        TokenView::Literal(_) => w,
    }
}

/// The synthetic attribute, as the token run
/// `attr : data - locatorjs - id = "<loc>"`, spliced in directly after a
/// qualifying tag name.
pub open spec fn attr_tokens(loc: Seq<char>) -> Seq<TokenView> {
    seq![
        TokenView::Ident(seq!['a', 't', 't', 'r']),
        TokenView::Punct(':'),
        TokenView::Ident(seq!['d', 'a', 't', 'a']),
        TokenView::Punct('-'),
        TokenView::Ident(seq!['l', 'o', 'c', 'a', 't', 'o', 'r', 'j', 's']),
        TokenView::Punct('-'),
        TokenView::Ident(seq!['i', 'd']),
        TokenView::Punct('='),
        TokenView::Literal(loc),
    ]
}

/// What the engine emits for one token under the given window: a group is
/// rewritten recursively under a fresh window; a tag-name identifier seen
/// right after a bare `<` is followed by the synthetic attribute; every
/// other token passes through alone.
pub open spec fn emit_token(t: TokenView, w: Window, loc: Seq<char>) -> Seq<TokenView>
    decreases t, 0nat,
{
    match t {
        TokenView::Group(d, inner) => seq![
            TokenView::Group(d, rewrite_from(inner, Window::Neutral, loc)),
        ],
        TokenView::Ident(s) => if is_tag_name_spec(s) && w == Window::SawOpen {
            seq![TokenView::Ident(s)] + attr_tokens(loc)
        } else {
            seq![TokenView::Ident(s)]
        },
        TokenView::Punct(c) => seq![TokenView::Punct(c)],
        TokenView::Literal(s) => seq![TokenView::Literal(s)],
    }
}

/// The engine's rewrite of a token sequence, starting from window `w`.
pub open spec fn rewrite_from(ts: Seq<TokenView>, w: Window, loc: Seq<char>) -> Seq<TokenView>
    decreases ts, 1nat,
{
    if ts.len() == 0 {
        Seq::empty()
    } else {
        emit_token(ts[0], w, loc) + rewrite_from(ts.drop_first(), next_window(ts[0], w), loc)
    }
}

/// The engine's rewrite of a whole markup token sequence: each invocation
/// starts with an empty lookback window.
pub open spec fn rewrite_spec(ts: Seq<TokenView>, loc: Seq<char>) -> Seq<TokenView> {
    rewrite_from(ts, Window::Neutral, loc)
}

/// Builds the synthetic attribute's token run for the given location value.
fn make_attr_tokens(loc: &String) -> (r: Vec<Token>)
    ensures
        view_tokens(r@) == attr_tokens(loc@),
{
    let mut r: Vec<Token> = Vec::new();
    r.push(Token::Ident("attr".to_owned()));
    r.push(Token::Punct(':'));
    r.push(Token::Ident("data".to_owned()));
    r.push(Token::Punct('-'));
    r.push(Token::Ident("locatorjs".to_owned()));
    r.push(Token::Punct('-'));
    r.push(Token::Ident("id".to_owned()));
    r.push(Token::Punct('='));
    r.push(Token::Literal(loc.clone()));
    proof {
        reveal_strlit("attr");
        reveal_strlit("data");
        reveal_strlit("locatorjs");
        reveal_strlit("id");
        assert("attr"@ =~= seq!['a', 't', 't', 'r']);
        assert("data"@ =~= seq!['d', 'a', 't', 'a']);
        assert("locatorjs"@ =~= seq!['l', 'o', 'c', 'a', 't', 'o', 'r', 'j', 's']);
        assert("id"@ =~= seq!['i', 'd']);
        lemma_view_tokens(r@);
        assert(view_tokens(r@) =~= attr_tokens(loc@));
    }
    r
}

/// One level of the engine: rewrites the sequence, descending into groups
/// while `depth` allows; hands back `None` where the input nests deeper.
pub(crate) fn rewrite_tokens(tokens: &Vec<Token>, loc: &String, depth: u64) -> (r: Option<
    Vec<Token>,
>)
    ensures
        r matches Some(out) ==> view_tokens(out@) == rewrite_spec(view_tokens(tokens@), loc@),
        depth_ok_seq(view_tokens(tokens@), depth as nat) ==> r is Some,
    decreases depth,
{
    let ghost vts = view_tokens(tokens@);
    proof {
        lemma_view_tokens(tokens@);
        lemma_depth_ok_seq(vts, depth as nat);
    }
    let mut out: Vec<Token> = Vec::new();
    let mut window = Window::Neutral;
    let n = tokens.len();
    let mut i: usize = 0;
    proof {
        assert(vts.skip(0) =~= vts);
    }
    while i < n
        invariant
            n == tokens.len(),
            vts == view_tokens(tokens@),
            i <= n,
            vts.len() == n,
            forall|j: int| 0 <= j < n ==> vts[j] == tokens@[j]@,
            depth_ok_seq(vts, depth as nat) <==> (forall|j: int|
                0 <= j < n ==> depth_ok_tok(vts[j], depth as nat)),
            view_tokens(out@) + rewrite_from(vts.skip(i as int), window, loc@) == rewrite_from(
                vts,
                Window::Neutral,
                loc@,
            ),
        decreases n - i,
    {
        let ghost pre = vts.skip(i as int);
        proof {
            assert(pre[0] == vts[i as int]);
            assert(pre.drop_first() =~= vts.skip(i as int + 1));
        }
        let ghost old_out = out@;
        let ghost w0 = window;
        match &tokens[i] {
            Token::Group(d, inner) => {
                proof {
                    assert(vts[i as int] == TokenView::Group(*d, view_tokens(inner@)));
                }
                if depth == 0 {
                    proof {
                        assert(!depth_ok_tok(vts[i as int], depth as nat));
                    }
                    return None;
                }
                match rewrite_tokens(inner, loc, depth - 1) {
                    Some(v) => {
                        let ghost gv = v@;
                        out.push(Token::Group(*d, v));
                        proof {
                            assert(out@.len() == old_out.len() + 1);
                            assert(out@[old_out.len() as int]@ == TokenView::Group(
                                *d,
                                view_tokens(gv),
                            ));
                            lemma_view_tokens(out@);
                            lemma_view_tokens(old_out);
                            assert(view_tokens(out@) =~= view_tokens(old_out) + emit_token(
                                vts[i as int],
                                w0,
                                loc@,
                            ));
                        }
                    },
                    None => {
                        proof {
                            assert(!depth_ok_tok(vts[i as int], depth as nat));
                        }
                        return None;
                    },
                }
            },
            Token::Ident(s) => {
                proof {
                    assert(vts[i as int] == TokenView::Ident(s@));
                }
                let matched = is_tag_name(s);
                out.push(Token::Ident(s.clone()));
                proof {
                    assert(out@[old_out.len() as int]@ == TokenView::Ident(s@));
                }
                if matched && window == Window::SawOpen {
                    let mut attr = make_attr_tokens(loc);
                    let ghost gattr = attr@;
                    let ghost mid_out = out@;
                    proof {
                        lemma_view_tokens(gattr);
                    }
                    out.append(&mut attr);
                    proof {
                        assert(out@ == mid_out + gattr);
                        lemma_view_tokens(out@);
                        lemma_view_tokens(mid_out);
                        lemma_view_tokens(old_out);
                        assert(view_tokens(out@) =~= view_tokens(old_out) + emit_token(
                            vts[i as int],
                            w0,
                            loc@,
                        ));
                    }
                } else {
                    proof {
                        lemma_view_tokens(out@);
                        lemma_view_tokens(old_out);
                        assert(view_tokens(out@) =~= view_tokens(old_out) + emit_token(
                            vts[i as int],
                            w0,
                            loc@,
                        ));
                    }
                }
                window = Window::Neutral;
            },
            Token::Punct(c) => {
                proof {
                    assert(vts[i as int] == TokenView::Punct(*c));
                }
                out.push(Token::Punct(*c));
                if *c == '<' {
                    window = Window::SawOpen;
                } else if *c == '/' {
                    window = Window::SawSlash;
                }
                proof {
                    lemma_view_tokens(out@);
                    lemma_view_tokens(old_out);
                    assert(view_tokens(out@) =~= view_tokens(old_out) + emit_token(
                        vts[i as int],
                        w0,
                        loc@,
                    ));
                }
            },
            Token::Literal(s) => {
                proof {
                    assert(vts[i as int] == TokenView::Literal(s@));
                }
                out.push(Token::Literal(s.clone()));
                proof {
                    lemma_view_tokens(out@);
                    lemma_view_tokens(old_out);
                    assert(view_tokens(out@) =~= view_tokens(old_out) + emit_token(
                        vts[i as int],
                        w0,
                        loc@,
                    ));
                }
            },
        }
        proof {
            assert(view_tokens(out@) == view_tokens(old_out) + emit_token(
                vts[i as int],
                w0,
                loc@,
            ));
            assert(window == next_window(vts[i as int], w0));
            assert(view_tokens(out@) + rewrite_from(vts.skip(i as int + 1), window, loc@)
                =~= view_tokens(old_out) + rewrite_from(pre, w0, loc@));
        }
        i += 1;
    }
    proof {
        assert(vts.skip(n as int) =~= Seq::<TokenView>::empty());
        assert(view_tokens(out@) + rewrite_from(vts.skip(n as int), window, loc@) =~= view_tokens(
            out@,
        ));
    }
    Some(out)
}

/// Rewrites one markup token sequence: inserts the synthetic attribute,
/// whose value is `loc`, after every tag-name identifier that directly
/// follows a bare `<`. Input nested deeper than `MAX_DEPTH` groups is
/// handed back unchanged rather than instrumented.
pub fn add_locatorjs_id_to_macro_tokens(tokens: Vec<Token>, loc: &String) -> (r: Vec<Token>)
    ensures
        depth_ok_seq(view_tokens(tokens@), MAX_DEPTH as nat) ==> view_tokens(r@) == rewrite_spec(
            view_tokens(tokens@),
            loc@,
        ),
        !depth_ok_seq(view_tokens(tokens@), MAX_DEPTH as nat) ==> view_tokens(r@) == view_tokens(
            tokens@,
        ),
{
    if !tokens_depth_ok(&tokens, MAX_DEPTH) {
        return tokens;
    }
    if let Some(v) = rewrite_tokens(&tokens, loc, MAX_DEPTH) {
        v
    } else {
        // unreachable: the depth check above guarantees the walk succeeds
        proof {
            assert(false);
        }
        Vec::new()
    }
}

} // verus!
