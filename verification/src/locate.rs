//! The template locator: scans a token sequence for the template
//! invocation pattern — the template name, a bang, then a group — hands
//! the group's body to the instrumentation engine, and passes every other
//! token through unchanged, descending into unrelated groups to keep
//! scanning.

use vstd::prelude::*;

use crate::engine::{rewrite_spec, rewrite_tokens};
use crate::token::{
    depth_ok_seq, depth_ok_tok, lemma_depth_ok_seq, lemma_view_tokens, tokens_depth_ok,
    view_tokens, Token, TokenView, MAX_DEPTH,
};
use crate::vocab::{is_template_name, is_template_name_spec};

verus! {

broadcast use vstd::seq::group_seq_axioms, vstd::std_specs::vec::group_vec_axioms;

/// How far into the invocation pattern the scan has come: nothing yet, the
/// template name, or the template name followed by a bang.
#[derive(Clone, Copy, PartialEq, Eq, Structural, Debug)]
pub enum LocState {
    Idle,
    SeenName,
    SeenBang,
}

/// How one token advances the invocation-pattern scan. The pattern is
/// contiguous: any token that does not continue it starts the scan over.
pub open spec fn locate_step(t: TokenView, st: LocState) -> LocState {
    match t {
        TokenView::Ident(s) => if is_template_name_spec(s) {
            LocState::SeenName
        } else {
            LocState::Idle
        },
        TokenView::Punct(c) => if c == '!' && st == LocState::SeenName {
            LocState::SeenBang
        } else {
            LocState::Idle
        },
        _ => LocState::Idle,
    }
}

/// What the locator emits for one token: a group that completes the
/// invocation pattern is the template body and goes to the engine; any
/// other group is scanned recursively; everything else passes through.
pub open spec fn locate_emit(t: TokenView, st: LocState, loc: Seq<char>) -> Seq<TokenView>
    decreases t, 0nat,
{
    match t {
        TokenView::Group(d, inner) => if st == LocState::SeenBang {
            seq![TokenView::Group(d, rewrite_spec(inner, loc))]
        } else {
            seq![TokenView::Group(d, locate_from(inner, LocState::Idle, loc))]
        },
        _ => seq![t],
    }
}

/// The locator's rewrite of a token sequence, from scan state `st`.
pub open spec fn locate_from(ts: Seq<TokenView>, st: LocState, loc: Seq<char>) -> Seq<TokenView>
    decreases ts, 1nat,
{
    if ts.len() == 0 {
        Seq::empty()
    } else {
        locate_emit(ts[0], st, loc) + locate_from(ts.drop_first(), locate_step(ts[0], st), loc)
    }
}

/// The locator's rewrite of a whole statement token sequence.
pub open spec fn locate_spec(ts: Seq<TokenView>, loc: Seq<char>) -> Seq<TokenView> {
    locate_from(ts, LocState::Idle, loc)
}

/// The token completes, or nests, a template invocation.
pub open spec fn invocation_in_tok(t: TokenView, st: LocState) -> bool
    decreases t, 0nat,
{
    match t {
        TokenView::Group(_, inner) => st == LocState::SeenBang || contains_invocation_from(
            inner,
            LocState::Idle,
        ),
        _ => false,
    }
}

/// The sequence, scanned from state `st`, contains a template invocation
/// anywhere, however deeply nested.
pub open spec fn contains_invocation_from(ts: Seq<TokenView>, st: LocState) -> bool
    decreases ts, 1nat,
{
    if ts.len() == 0 {
        false
    } else {
        invocation_in_tok(ts[0], st) || contains_invocation_from(
            ts.drop_first(),
            locate_step(ts[0], st),
        )
    }
}

/// The sequence contains a template invocation.
pub open spec fn contains_invocation(ts: Seq<TokenView>) -> bool {
    contains_invocation_from(ts, LocState::Idle)
}

/// A sequence with no template invocation passes through the locator
/// token for token.
pub proof fn lemma_no_invocation_passthrough(ts: Seq<TokenView>, st: LocState, loc: Seq<char>)
    requires
        !contains_invocation_from(ts, st),
    ensures
        locate_from(ts, st, loc) == ts,
    decreases ts, 1nat,
{
    if ts.len() > 0 {
        assert(!invocation_in_tok(ts[0], st));
        match ts[0] {
            TokenView::Group(d, inner) => {
                assert(ts[0] == TokenView::Group(d, inner));
                assert(st != LocState::SeenBang);
                assert(!contains_invocation_from(inner, LocState::Idle));
                lemma_no_invocation_passthrough(inner, LocState::Idle, loc);
                assert(locate_emit(ts[0], st, loc) =~= seq![ts[0]]);
            },
            _ => {
                assert(locate_emit(ts[0], st, loc) =~= seq![ts[0]]);
            },
        }
        lemma_no_invocation_passthrough(ts.drop_first(), locate_step(ts[0], st), loc);
        assert(locate_from(ts, st, loc) =~= ts);
    }
}

/// One level of the locator: scans the sequence, descending into groups
/// while `depth` allows; hands back `None` where the input nests deeper.
fn locate_tokens(tokens: &Vec<Token>, loc: &String, depth: u64) -> (r: Option<Vec<Token>>)
    ensures
        r matches Some(out) ==> view_tokens(out@) == locate_spec(view_tokens(tokens@), loc@),
        depth_ok_seq(view_tokens(tokens@), depth as nat) ==> r is Some,
    decreases depth,
{
    let ghost vts = view_tokens(tokens@);
    proof {
        lemma_view_tokens(tokens@);
        lemma_depth_ok_seq(vts, depth as nat);
    }
    let mut out: Vec<Token> = Vec::new();
    let mut state = LocState::Idle;
    let n = tokens.len();
    let mut i: usize = 0;
    proof {
        assert(vts.skip(0) =~= vts);
    }
    while i < n
        invariant
            n == tokens.len(),
            vts == view_tokens(tokens@),
            i <= n,
            vts.len() == n,
            forall|j: int| 0 <= j < n ==> vts[j] == tokens@[j]@,
            depth_ok_seq(vts, depth as nat) <==> (forall|j: int|
                0 <= j < n ==> depth_ok_tok(vts[j], depth as nat)),
            view_tokens(out@) + locate_from(vts.skip(i as int), state, loc@) == locate_from(
                vts,
                LocState::Idle,
                loc@,
            ),
        decreases n - i,
    {
        let ghost pre = vts.skip(i as int);
        proof {
            assert(pre[0] == vts[i as int]);
            assert(pre.drop_first() =~= vts.skip(i as int + 1));
        }
        let ghost old_out = out@;
        let ghost st0 = state;
        match &tokens[i] {
            Token::Group(d, inner) => {
                proof {
                    assert(vts[i as int] == TokenView::Group(*d, view_tokens(inner@)));
                }
                if depth == 0 {
                    proof {
                        assert(!depth_ok_tok(vts[i as int], depth as nat));
                    }
                    return None;
                }
                let rewritten = if state == LocState::SeenBang {
                    rewrite_tokens(inner, loc, depth - 1)
                } else {
                    locate_tokens(inner, loc, depth - 1)
                };
                match rewritten {
                    Some(v) => {
                        let ghost gv = v@;
                        out.push(Token::Group(*d, v));
                        proof {
                            assert(out@[old_out.len() as int]@ == TokenView::Group(
                                *d,
                                view_tokens(gv),
                            ));
                            lemma_view_tokens(out@);
                            lemma_view_tokens(old_out);
                            assert(view_tokens(out@) =~= view_tokens(old_out) + locate_emit(
                                vts[i as int],
                                st0,
                                loc@,
                            ));
                        }
                    },
                    None => {
                        proof {
                            assert(!depth_ok_tok(vts[i as int], depth as nat));
                        }
                        return None;
                    },
                }
                state = LocState::Idle;
            },
            Token::Ident(s) => {
                proof {
                    assert(vts[i as int] == TokenView::Ident(s@));
                }
                let named = is_template_name(s);
                out.push(Token::Ident(s.clone()));
                state = if named {
                    LocState::SeenName
                } else {
                    LocState::Idle
                };
                proof {
                    lemma_view_tokens(out@);
                    lemma_view_tokens(old_out);
                    assert(view_tokens(out@) =~= view_tokens(old_out) + locate_emit(
                        vts[i as int],
                        st0,
                        loc@,
                    ));
                }
            },
            Token::Punct(c) => {
                proof {
                    assert(vts[i as int] == TokenView::Punct(*c));
                }
                out.push(Token::Punct(*c));
                state = if *c == '!' && state == LocState::SeenName {
                    LocState::SeenBang
                } else {
                    LocState::Idle
                };
                proof {
                    lemma_view_tokens(out@);
                    lemma_view_tokens(old_out);
                    assert(view_tokens(out@) =~= view_tokens(old_out) + locate_emit(
                        vts[i as int],
                        st0,
                        loc@,
                    ));
                }
            },
            Token::Literal(s) => {
                proof {
                    assert(vts[i as int] == TokenView::Literal(s@));
                }
                out.push(Token::Literal(s.clone()));
                state = LocState::Idle;
                proof {
                    lemma_view_tokens(out@);
                    lemma_view_tokens(old_out);
                    assert(view_tokens(out@) =~= view_tokens(old_out) + locate_emit(
                        vts[i as int],
                        st0,
                        loc@,
                    ));
                }
            },
        }
        proof {
            assert(view_tokens(out@) == view_tokens(old_out) + locate_emit(
                vts[i as int],
                st0,
                loc@,
            ));
            assert(state == locate_step(vts[i as int], st0));
            assert(view_tokens(out@) + locate_from(vts.skip(i as int + 1), state, loc@)
                =~= view_tokens(old_out) + locate_from(pre, st0, loc@));
        }
        i += 1;
    }
    proof {
        assert(vts.skip(n as int) =~= Seq::<TokenView>::empty());
        assert(view_tokens(out@) + locate_from(vts.skip(n as int), state, loc@) =~= view_tokens(
            out@,
        ));
    }
    Some(out)
}

/// Rewrites one statement's token sequence: finds every template
/// invocation, instruments its markup body through the engine, and leaves
/// all other tokens untouched. Input nested deeper than `MAX_DEPTH` groups
/// is handed back unchanged rather than instrumented.
pub fn add_locatorjs_id_to_expr(tokens: Vec<Token>, loc: &String) -> (r: Vec<Token>)
    ensures
        depth_ok_seq(view_tokens(tokens@), MAX_DEPTH as nat) ==> view_tokens(r@) == locate_spec(
            view_tokens(tokens@),
            loc@,
        ),
        !depth_ok_seq(view_tokens(tokens@), MAX_DEPTH as nat) ==> view_tokens(r@) == view_tokens(
            tokens@,
        ),
{
    if !tokens_depth_ok(&tokens, MAX_DEPTH) {
        return tokens;
    }
    if let Some(v) = locate_tokens(&tokens, loc, MAX_DEPTH) {
        v
    } else {
        // unreachable: the depth check above guarantees the walk succeeds
        proof {
            assert(false);
        }
        Vec::new()
    }
}

} // verus!
