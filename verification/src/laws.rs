//! The properties the instrumentation engine is held to: balance
//! preservation, opening-tag-only annotation, and structural idempotence.

use vstd::prelude::*;

use crate::engine::{attr_tokens, emit_token, next_window, rewrite_from, rewrite_spec, Window};
use crate::locate::{locate_emit, locate_from, locate_step, LocState};
use crate::token::{Delim, TokenView};
use crate::vocab::is_tag_name_spec;

verus! {

broadcast use vstd::seq::group_seq_axioms;

/// The delimiter skeleton of a token tree: each group as a node carrying
/// its delimiter kind and the skeletons of its nested groups, in order;
/// all other tokens dropped.
pub enum DelimShape {
    Node(Delim, Seq<DelimShape>),
}

/// The delimiter skeleton contributed by one token.
pub open spec fn shape_of(t: TokenView) -> Seq<DelimShape>
    decreases t, 0nat,
{
    match t {
        TokenView::Group(d, inner) => seq![DelimShape::Node(d, shapes_of(inner))],
        _ => Seq::empty(),
    }
}

/// The delimiter skeleton of a token sequence.
pub open spec fn shapes_of(ts: Seq<TokenView>) -> Seq<DelimShape>
    decreases ts, 1nat,
{
    if ts.len() == 0 {
        Seq::empty()
    } else {
        shape_of(ts[0]) + shapes_of(ts.drop_first())
    }
}

/// The delimiter skeleton of a concatenation is the concatenation of the
/// skeletons.
pub proof fn lemma_shapes_of_concat(a: Seq<TokenView>, b: Seq<TokenView>)
    ensures
        shapes_of(a + b) == shapes_of(a) + shapes_of(b),
    decreases a.len(),
{
    if a.len() == 0 {
        assert(a + b =~= b);
        assert(shapes_of(a) + shapes_of(b) =~= shapes_of(b));
    } else {
        assert((a + b)[0] == a[0]);
        assert((a + b).drop_first() =~= a.drop_first() + b);
        lemma_shapes_of_concat(a.drop_first(), b);
        assert(shapes_of(a + b) =~= shapes_of(a) + shapes_of(b));
    }
}

/// The synthetic attribute contributes no groups: its skeleton is empty.
pub proof fn lemma_attr_tokens_no_shapes(loc: Seq<char>)
    ensures
        shapes_of(attr_tokens(loc)) == Seq::<DelimShape>::empty(),
{
    reveal_with_fuel(shapes_of, 11);
    assert(shapes_of(attr_tokens(loc)) =~= Seq::<DelimShape>::empty());
}

/// Balance preservation: the engine's rewrite keeps the number, the
/// delimiter-kind sequence and the nesting of groups exactly as they were.
pub proof fn lemma_balance_preserved(ts: Seq<TokenView>, w: Window, loc: Seq<char>)
    ensures
        shapes_of(rewrite_from(ts, w, loc)) == shapes_of(ts),
    decreases ts, 1nat,
{
    reveal_with_fuel(shapes_of, 3);
    if ts.len() > 0 {
        let e = emit_token(ts[0], w, loc);
        let rest = rewrite_from(ts.drop_first(), next_window(ts[0], w), loc);
        lemma_balance_preserved(ts.drop_first(), next_window(ts[0], w), loc);
        lemma_shapes_of_concat(e, rest);
        match ts[0] {
            TokenView::Group(d, inner) => {
                assert(ts[0] == TokenView::Group(d, inner));
                lemma_balance_preserved(inner, Window::Neutral, loc);
                assert(shapes_of(e) =~= shape_of(ts[0]));
            },
            TokenView::Ident(s) => {
                if is_tag_name_spec(s) && w == Window::SawOpen {
                    lemma_shapes_of_concat(seq![ts[0]], attr_tokens(loc));
                    lemma_attr_tokens_no_shapes(loc);
                    assert(shapes_of(seq![ts[0]]) =~= shape_of(ts[0]));
                    assert(shapes_of(e) =~= shape_of(ts[0]));
                } else {
                    assert(shapes_of(e) =~= shape_of(ts[0]));
                }
            },
            _ => {
                assert(shapes_of(e) =~= shape_of(ts[0]));
            },
        }
        assert(shapes_of(rewrite_from(ts, w, loc)) =~= shapes_of(ts));
    }
}

/// Balance preservation through the locator as well: the whole pass over a
/// statement's tokens keeps the delimiter skeleton.
pub proof fn lemma_balance_preserved_locate(ts: Seq<TokenView>, st: LocState, loc: Seq<char>)
    ensures
        shapes_of(locate_from(ts, st, loc)) == shapes_of(ts),
    decreases ts, 1nat,
{
    reveal_with_fuel(shapes_of, 3);
    if ts.len() > 0 {
        let e = locate_emit(ts[0], st, loc);
        let rest = locate_from(ts.drop_first(), locate_step(ts[0], st), loc);
        lemma_balance_preserved_locate(ts.drop_first(), locate_step(ts[0], st), loc);
        lemma_shapes_of_concat(e, rest);
        match ts[0] {
            TokenView::Group(d, inner) => {
                assert(ts[0] == TokenView::Group(d, inner));
                if st == LocState::SeenBang {
                    lemma_balance_preserved(inner, Window::Neutral, loc);
                } else {
                    lemma_balance_preserved_locate(inner, LocState::Idle, loc);
                }
                assert(shapes_of(e) =~= shape_of(ts[0]));
            },
            _ => {
                assert(shapes_of(e) =~= shape_of(ts[0]));
            },
        }
        assert(shapes_of(locate_from(ts, st, loc)) =~= shapes_of(ts));
    }
}

/// The lookback window left after scanning a whole sequence, starting
/// from `w`.
pub open spec fn window_after(ts: Seq<TokenView>, w: Window) -> Window
    decreases ts.len(),
{
    if ts.len() == 0 {
        w
    } else {
        window_after(ts.drop_first(), next_window(ts[0], w))
    }
}

/// The window after a sequence is the last token's effect on the window
/// after everything before it.
pub proof fn lemma_window_after_snoc(ts: Seq<TokenView>, w: Window)
    requires
        ts.len() > 0,
    ensures
        window_after(ts, w) == next_window(ts.last(), window_after(ts.drop_last(), w)),
    decreases ts.len(),
{
    if ts.len() == 1 {
        assert(ts.drop_last() =~= Seq::<TokenView>::empty());
        assert(ts.drop_first() =~= Seq::<TokenView>::empty());
    } else {
        let w1 = next_window(ts[0], w);
        lemma_window_after_snoc(ts.drop_first(), w1);
        assert(ts.drop_first().last() == ts.last());
        assert(ts.drop_first().drop_last() =~= ts.drop_last().drop_first());
        assert(ts.drop_last()[0] == ts[0]);
        assert(ts.drop_last().len() > 0);
        assert(window_after(ts, w) == window_after(ts.drop_first(), w1));
        assert(window_after(ts.drop_last(), w) == window_after(ts.drop_last().drop_first(), w1));
        assert(window_after(ts.drop_last().drop_first(), w1) == window_after(
            ts.drop_first().drop_last(),
            w1,
        ));
    }
}

/// The engine's rewrite splits at any position: the prefix rewritten from
/// the starting window, the suffix from the window the prefix leaves.
pub proof fn lemma_rewrite_split(ts: Seq<TokenView>, w: Window, loc: Seq<char>, i: int)
    requires
        0 <= i <= ts.len(),
    ensures
        rewrite_from(ts, w, loc) == rewrite_from(ts.take(i), w, loc) + rewrite_from(
            ts.skip(i),
            window_after(ts.take(i), w),
            loc,
        ),
    decreases i,
{
    if i == 0 {
        assert(ts.take(0) =~= Seq::<TokenView>::empty());
        assert(ts.skip(0) =~= ts);
        assert(rewrite_from(ts.take(0), w, loc) + rewrite_from(ts, w, loc) =~= rewrite_from(
            ts,
            w,
            loc,
        ));
    } else {
        let w1 = next_window(ts[0], w);
        lemma_rewrite_split(ts.drop_first(), w1, loc, i - 1);
        assert(ts.drop_first().take(i - 1) =~= ts.take(i).drop_first());
        assert(ts.drop_first().skip(i - 1) =~= ts.skip(i));
        assert(ts.take(i)[0] == ts[0]);
        assert(window_after(ts.take(i), w) == window_after(ts.drop_first().take(i - 1), w1));
        assert(rewrite_from(ts, w, loc) =~= rewrite_from(ts.take(i), w, loc) + rewrite_from(
            ts.skip(i),
            window_after(ts.take(i), w),
            loc,
        ));
    }
}

/// Opening-tag-only annotation: at any identifier, the rewrite is the
/// rewritten prefix, then the identifier — followed by the synthetic
/// attribute exactly when it is a vocabulary tag name and the lookback
/// window holds a bare `<` — then the rewritten suffix.
pub proof fn lemma_opening_tag_only(ts: Seq<TokenView>, loc: Seq<char>, i: int, s: Seq<char>)
    requires
        0 <= i < ts.len(),
        ts[i] == TokenView::Ident(s),
    ensures
        rewrite_spec(ts, loc) == rewrite_from(ts.take(i), Window::Neutral, loc) + (
        if is_tag_name_spec(s) && window_after(ts.take(i), Window::Neutral) == Window::SawOpen {
            seq![ts[i]] + attr_tokens(loc)
        } else {
            seq![ts[i]]
        }) + rewrite_from(ts.skip(i + 1), Window::Neutral, loc),
{
    lemma_rewrite_split(ts, Window::Neutral, loc, i);
    let wi = window_after(ts.take(i), Window::Neutral);
    assert(ts.skip(i)[0] == ts[i]);
    assert(ts.skip(i).drop_first() =~= ts.skip(i + 1));
    assert(next_window(ts[i], wi) == Window::Neutral);
    assert(rewrite_from(ts.skip(i), wi, loc) == emit_token(ts[i], wi, loc) + rewrite_from(
        ts.skip(i + 1),
        Window::Neutral,
        loc,
    ));
    assert(rewrite_spec(ts, loc) =~= rewrite_from(ts.take(i), Window::Neutral, loc) + (
    if is_tag_name_spec(s) && wi == Window::SawOpen {
        seq![ts[i]] + attr_tokens(loc)
    } else {
        seq![ts[i]]
    }) + rewrite_from(ts.skip(i + 1), Window::Neutral, loc));
}

/// A vocabulary tag name whose directly preceding token is a bare `<` is
/// annotated: the synthetic attribute follows it in the rewrite.
pub proof fn lemma_annotated_after_open(ts: Seq<TokenView>, loc: Seq<char>, i: int, s: Seq<char>)
    requires
        1 <= i < ts.len(),
        ts[i] == TokenView::Ident(s),
        is_tag_name_spec(s),
        ts[i - 1] == TokenView::Punct('<'),
    ensures
        rewrite_spec(ts, loc) == rewrite_from(ts.take(i), Window::Neutral, loc) + seq![ts[i]]
            + attr_tokens(loc) + rewrite_from(ts.skip(i + 1), Window::Neutral, loc),
{
    lemma_opening_tag_only(ts, loc, i, s);
    assert(ts.take(i).last() == ts[i - 1]);
    lemma_window_after_snoc(ts.take(i), Window::Neutral);
    assert(window_after(ts.take(i), Window::Neutral) == Window::SawOpen);
    assert(rewrite_from(ts.take(i), Window::Neutral, loc) + (seq![ts[i]] + attr_tokens(loc))
        + rewrite_from(ts.skip(i + 1), Window::Neutral, loc) =~= rewrite_from(
        ts.take(i),
        Window::Neutral,
        loc,
    ) + seq![ts[i]] + attr_tokens(loc) + rewrite_from(ts.skip(i + 1), Window::Neutral, loc));
}

/// An identifier whose directly preceding token is a closing slash is
/// never annotated, vocabulary tag name or not: it passes through alone.
pub proof fn lemma_not_annotated_after_slash(
    ts: Seq<TokenView>,
    loc: Seq<char>,
    i: int,
    s: Seq<char>,
)
    requires
        1 <= i < ts.len(),
        ts[i] == TokenView::Ident(s),
        ts[i - 1] == TokenView::Punct('/'),
    ensures
        rewrite_spec(ts, loc) == rewrite_from(ts.take(i), Window::Neutral, loc) + seq![ts[i]]
            + rewrite_from(ts.skip(i + 1), Window::Neutral, loc),
{
    lemma_opening_tag_only(ts, loc, i, s);
    assert(ts.take(i).last() == ts[i - 1]);
    lemma_window_after_snoc(ts.take(i), Window::Neutral);
    assert(window_after(ts.take(i), Window::Neutral) == Window::SawSlash);
}

/// The synthetic attribute's marker: the text of its leading identifier.
pub open spec fn attr_marker() -> Seq<char> {
    seq!['a', 't', 't', 'r']
}

/// The token carries no occurrence of the marker identifier, however
/// deeply nested: it is genuine markup, not already-instrumented output.
pub open spec fn attr_free_tok(t: TokenView) -> bool
    decreases t, 0nat,
{
    match t {
        TokenView::Group(_, inner) => attr_free(inner),
        TokenView::Ident(s) => s != attr_marker(),
        _ => true,
    }
}

/// No token of the sequence carries the marker identifier.
pub open spec fn attr_free(ts: Seq<TokenView>) -> bool
    decreases ts, 1nat,
{
    ts.len() == 0 || (attr_free_tok(ts[0]) && attr_free(ts.drop_first()))
}

/// The sequence begins with a full synthetic-attribute run for `loc`.
pub open spec fn starts_with_attr(ts: Seq<TokenView>, loc: Seq<char>) -> bool {
    ts.len() >= 9 && ts.take(9) == attr_tokens(loc)
}

/// One stripped token: a group's interior is stripped recursively; every
/// other token is kept.
pub open spec fn strip_tok(t: TokenView, loc: Seq<char>) -> Seq<TokenView>
    decreases t, 0nat,
{
    match t {
        TokenView::Group(d, inner) => seq![TokenView::Group(d, strip_attrs(inner, loc))],
        _ => seq![t],
    }
}

/// Removes every synthetic-attribute run for `loc`, at every nesting depth.
pub open spec fn strip_attrs(ts: Seq<TokenView>, loc: Seq<char>) -> Seq<TokenView>
    decreases ts, 1nat,
{
    if ts.len() == 0 {
        Seq::empty()
    } else if starts_with_attr(ts, loc) {
        strip_attrs(ts.skip(9), loc)
    } else {
        strip_tok(ts[0], loc) + strip_attrs(ts.drop_first(), loc)
    }
}

/// On input that carries no marker identifier, stripping changes nothing:
/// the input of the idempotence laws is its own stripped form.
pub proof fn lemma_strip_attr_free(ts: Seq<TokenView>, loc: Seq<char>)
    requires
        attr_free(ts),
    ensures
        strip_attrs(ts, loc) == ts,
    decreases ts, 1nat,
{
    if ts.len() > 0 {
        assert(attr_free_tok(ts[0]) && attr_free(ts.drop_first()));
        assert(!starts_with_attr(ts, loc)) by {
            if starts_with_attr(ts, loc) {
                assert(ts.take(9)[0] == attr_tokens(loc)[0]);
                match ts[0] {
                    TokenView::Ident(s) => {
                        assert(s != attr_marker());
                    },
                    _ => {},
                }
            }
        }
        lemma_strip_attr_free(ts.drop_first(), loc);
        match ts[0] {
            TokenView::Group(d, inner) => {
                assert(ts[0] == TokenView::Group(d, inner));
                lemma_strip_attr_free(inner, loc);
                assert(strip_tok(ts[0], loc) == seq![ts[0]]);
            },
            _ => {
                assert(strip_tok(ts[0], loc) == seq![ts[0]]);
            },
        }
        assert(strip_attrs(ts, loc) =~= ts);
    }
}

/// Structural idempotence of the engine: stripping the synthetic
/// attributes from the rewrite gives back the input, token for token — no
/// reordering, no loss. Inputs that already carry the marker identifier
/// are excluded: there stripping cannot tell genuine tokens from inserted
/// ones.
pub proof fn lemma_structure_idempotent(ts: Seq<TokenView>, w: Window, loc: Seq<char>)
    requires
        attr_free(ts),
    ensures
        strip_attrs(rewrite_from(ts, w, loc), loc) == ts,
    decreases ts, 1nat,
{
    if ts.len() > 0 {
        let e = emit_token(ts[0], w, loc);
        let rest = rewrite_from(ts.drop_first(), next_window(ts[0], w), loc);
        let out = rewrite_from(ts, w, loc);
        assert(out == e + rest);
        assert(attr_free_tok(ts[0]) && attr_free(ts.drop_first()));
        lemma_structure_idempotent(ts.drop_first(), next_window(ts[0], w), loc);
        match ts[0] {
            TokenView::Group(d, inner) => {
                assert(ts[0] == TokenView::Group(d, inner));
                lemma_structure_idempotent(inner, Window::Neutral, loc);
                let g = TokenView::Group(d, rewrite_from(inner, Window::Neutral, loc));
                assert(e == seq![g]);
                assert(out[0] == g);
                assert(!starts_with_attr(out, loc)) by {
                    if starts_with_attr(out, loc) {
                        assert(out.take(9)[0] == attr_tokens(loc)[0]);
                    }
                }
                assert(out.drop_first() =~= rest);
                assert(strip_tok(g, loc) == seq![ts[0]]);
                assert(strip_attrs(out, loc) =~= ts);
            },
            TokenView::Ident(s) => {
                assert(ts[0] == TokenView::Ident(s));
                assert(s != attr_marker());
                assert(out[0] == ts[0]);
                assert(!starts_with_attr(out, loc)) by {
                    if starts_with_attr(out, loc) {
                        assert(out.take(9)[0] == attr_tokens(loc)[0]);
                    }
                }
                if is_tag_name_spec(s) && w == Window::SawOpen {
                    assert(e == seq![ts[0]] + attr_tokens(loc));
                    assert(out.drop_first() =~= attr_tokens(loc) + rest);
                    let tail = attr_tokens(loc) + rest;
                    assert(tail.take(9) =~= attr_tokens(loc));
                    assert(starts_with_attr(tail, loc));
                    assert(tail.skip(9) =~= rest);
                    assert(strip_attrs(tail, loc) == strip_attrs(rest, loc));
                    assert(strip_tok(ts[0], loc) == seq![ts[0]]);
                    assert(strip_attrs(out, loc) == strip_tok(out[0], loc) + strip_attrs(
                        out.drop_first(),
                        loc,
                    ));
                    assert(strip_attrs(out, loc) =~= ts);
                } else {
                    assert(e == seq![ts[0]]);
                    assert(out.drop_first() =~= rest);
                    assert(strip_tok(ts[0], loc) == seq![ts[0]]);
                    assert(strip_attrs(out, loc) == strip_tok(out[0], loc) + strip_attrs(
                        out.drop_first(),
                        loc,
                    ));
                    assert(strip_attrs(out, loc) =~= ts);
                }
            },
            _ => {
                assert(e == seq![ts[0]]);
                assert(out[0] == ts[0]);
                assert(!starts_with_attr(out, loc)) by {
                    if starts_with_attr(out, loc) {
                        assert(out.take(9)[0] == attr_tokens(loc)[0]);
                    }
                }
                assert(out.drop_first() =~= rest);
                assert(strip_tok(ts[0], loc) == seq![ts[0]]);
                assert(strip_attrs(out, loc) == strip_tok(out[0], loc) + strip_attrs(
                    out.drop_first(),
                    loc,
                ));
                assert(strip_attrs(out, loc) =~= ts);
            },
        }
    }
}

/// Structural idempotence through the locator as well: the whole pass over
/// a statement's tokens, stripped of the synthetic attributes, is the
/// input token for token.
pub proof fn lemma_structure_idempotent_locate(ts: Seq<TokenView>, st: LocState, loc: Seq<char>)
    requires
        attr_free(ts),
    ensures
        strip_attrs(locate_from(ts, st, loc), loc) == ts,
    decreases ts, 1nat,
{
    if ts.len() > 0 {
        let e = locate_emit(ts[0], st, loc);
        let rest = locate_from(ts.drop_first(), locate_step(ts[0], st), loc);
        let out = locate_from(ts, st, loc);
        assert(out == e + rest);
        assert(attr_free_tok(ts[0]) && attr_free(ts.drop_first()));
        lemma_structure_idempotent_locate(ts.drop_first(), locate_step(ts[0], st), loc);
        match ts[0] {
            TokenView::Group(d, inner) => {
                assert(ts[0] == TokenView::Group(d, inner));
                let body = if st == LocState::SeenBang {
                    rewrite_spec(inner, loc)
                } else {
                    locate_from(inner, LocState::Idle, loc)
                };
                if st == LocState::SeenBang {
                    lemma_structure_idempotent(inner, Window::Neutral, loc);
                } else {
                    lemma_structure_idempotent_locate(inner, LocState::Idle, loc);
                }
                let g = TokenView::Group(d, body);
                assert(e == seq![g]);
                assert(out[0] == g);
                assert(!starts_with_attr(out, loc)) by {
                    if starts_with_attr(out, loc) {
                        assert(out.take(9)[0] == attr_tokens(loc)[0]);
                    }
                }
                assert(out.drop_first() =~= rest);
                assert(strip_tok(g, loc) == seq![ts[0]]);
                assert(strip_attrs(out, loc) =~= ts);
            },
            _ => {
                assert(e == seq![ts[0]]);
                assert(out[0] == ts[0]);
                assert(!starts_with_attr(out, loc)) by {
                    if starts_with_attr(out, loc) {
                        assert(out.take(9)[0] == attr_tokens(loc)[0]);
                        match ts[0] {
                            TokenView::Ident(s) => {
                                assert(s != attr_marker());
                            },
                            _ => {},
                        }
                    }
                }
                assert(out.drop_first() =~= rest);
                assert(strip_tok(ts[0], loc) == seq![ts[0]]);
                assert(strip_attrs(out, loc) == strip_tok(out[0], loc) + strip_attrs(
                    out.drop_first(),
                    loc,
                ));
                assert(strip_attrs(out, loc) =~= ts);
            },
        }
    }
}

} // verus!
