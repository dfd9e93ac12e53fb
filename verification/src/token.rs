//! The token-tree data model: the atomic units of source text that the
//! instrumentation pass walks, and their mathematical view.

use vstd::prelude::*;

verus! {

broadcast use vstd::seq::group_seq_axioms, vstd::std_specs::vec::group_vec_axioms;

/// The delimiter kind of a grouped span of tokens.
#[derive(Clone, Copy, PartialEq, Eq, Structural, Debug)]
pub enum Delim {
    Paren,
    Brace,
    Bracket,
    Invisible,
}

/// One token of a token tree: a delimited group of nested tokens, a
/// name-like identifier, a single punctuation character, or a literal
/// (its source text, quotes included for string literals).
#[derive(PartialEq, Eq, Debug)]
pub enum Token {
    Group(Delim, Vec<Token>),
    Ident(String),
    Punct(char),
    Literal(String),
}

/// The mathematical view of a `Token`: the same tree over `Seq`.
#[verifier::ext_equal]
pub enum TokenView {
    Group(Delim, Seq<TokenView>),
    Ident(Seq<char>),
    Punct(char),
    Literal(Seq<char>),
}

impl View for Token {
    type V = TokenView;

    open spec fn view(&self) -> TokenView
        decreases self,
    {
        match self {
            Token::Group(d, ts) => TokenView::Group(*d, view_tokens(ts@)),
            Token::Ident(s) => TokenView::Ident(s@),
            Token::Punct(c) => TokenView::Punct(*c),
            Token::Literal(s) => TokenView::Literal(s@),
        }
    }
}

/// The view of a token sequence, element by element.
pub open spec fn view_tokens(ts: Seq<Token>) -> Seq<TokenView>
    decreases ts,
{
    if ts.len() == 0 {
        Seq::empty()
    } else {
        seq![ts[0]@] + view_tokens(ts.drop_first())
    }
}

/// `view_tokens` maps each token to its view, position by position.
pub proof fn lemma_view_tokens(ts: Seq<Token>)
    ensures
        view_tokens(ts).len() == ts.len(),
        forall|i: int| 0 <= i < ts.len() ==> view_tokens(ts)[i] == ts[i]@,
    decreases ts.len(),
{
    if ts.len() > 0 {
        lemma_view_tokens(ts.drop_first());
        assert(view_tokens(ts) == seq![ts[0]@] + view_tokens(ts.drop_first()));
        assert forall|i: int| 0 <= i < ts.len() implies view_tokens(ts)[i] == ts[i]@ by {
            if i > 0 {
                assert(view_tokens(ts)[i] == view_tokens(ts.drop_first())[i - 1]);
                assert(ts.drop_first()[i - 1] == ts[i]);
            }
        }
    }
}

/// The most nesting the pass accepts before it gives up and hands the
/// input back unchanged, rather than risk exhausting the stack.
pub const MAX_DEPTH: u64 = 64;

/// The token nests no deeper than `limit` levels of groups.
pub open spec fn depth_ok_tok(t: TokenView, limit: nat) -> bool
    decreases t, 0nat,
{
    match t {
        TokenView::Group(_, inner) => limit >= 1 && depth_ok_seq(inner, (limit - 1) as nat),
        _ => true,
    }
}

/// Every token of the sequence nests no deeper than `limit` levels.
pub open spec fn depth_ok_seq(ts: Seq<TokenView>, limit: nat) -> bool
    decreases ts, 1nat,
{
    ts.len() == 0 || (depth_ok_tok(ts[0], limit) && depth_ok_seq(ts.drop_first(), limit))
}

/// `depth_ok_seq` holds exactly when it holds of each element.
pub proof fn lemma_depth_ok_seq(ts: Seq<TokenView>, limit: nat)
    ensures
        depth_ok_seq(ts, limit) <==> (forall|i: int|
            0 <= i < ts.len() ==> depth_ok_tok(ts[i], limit)),
    decreases ts.len(),
{
    if ts.len() > 0 {
        lemma_depth_ok_seq(ts.drop_first(), limit);
        assert forall|i: int|
            0 <= i < ts.len() && depth_ok_seq(ts, limit) implies depth_ok_tok(
            ts[i],
            limit,
        ) by {
            if i > 0 {
                assert(ts.drop_first()[i - 1] == ts[i]);
            }
        }
        if forall|i: int| 0 <= i < ts.len() ==> depth_ok_tok(ts[i], limit) {
            assert forall|i: int|
                0 <= i < ts.drop_first().len() implies depth_ok_tok(
                ts.drop_first()[i],
                limit,
            ) by {
                assert(ts.drop_first()[i] == ts[i + 1]);
            }
        }
    }
}

/// Tests whether every token of the sequence nests no deeper than `limit`
/// levels of groups.
pub fn tokens_depth_ok(tokens: &Vec<Token>, limit: u64) -> (r: bool)
    ensures
        r == depth_ok_seq(view_tokens(tokens@), limit as nat),
    decreases limit,
{
    let ghost vts = view_tokens(tokens@);
    proof {
        lemma_view_tokens(tokens@);
        lemma_depth_ok_seq(vts, limit as nat);
    }
    let n = tokens.len();
    let mut i: usize = 0;
    while i < n
        invariant
            n == tokens.len(),
            vts == view_tokens(tokens@),
            i <= n,
            vts.len() == n,
            forall|j: int| 0 <= j < n ==> vts[j] == tokens@[j]@,
            forall|j: int| 0 <= j < i ==> depth_ok_tok(vts[j], limit as nat),
            depth_ok_seq(vts, limit as nat) <==> (forall|j: int|
                0 <= j < n ==> depth_ok_tok(vts[j], limit as nat)),
        decreases n - i,
    {
        match &tokens[i] {
            Token::Group(_, inner) => {
                if limit == 0 {
                    assert(!depth_ok_tok(vts[i as int], limit as nat));
                    return false;
                }
                if !tokens_depth_ok(inner, limit - 1) {
                    assert(!depth_ok_tok(vts[i as int], limit as nat));
                    return false;
                }
                assert(depth_ok_tok(vts[i as int], limit as nat));
            },
            _ => {
                assert(depth_ok_tok(vts[i as int], limit as nat));
            },
        }
        i += 1;
    }
    true
}

} // verus!
