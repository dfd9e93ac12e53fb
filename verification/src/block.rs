//! The statement classifier: partitions a function body into statements by
//! syntactic kind and routes each one's token sequence through the template
//! locator, keeping count, kind and order.

use vstd::prelude::*;

use crate::locate::{
    add_locatorjs_id_to_expr, contains_invocation, lemma_no_invocation_passthrough, locate_spec,
    LocState,
};
use crate::token::{depth_ok_seq, tokens_depth_ok, view_tokens, Token, TokenView, MAX_DEPTH};

verus! {

/// One statement of a function body, owning its token sequence. A bare
/// expression remembers whether a statement terminator followed it, so the
/// terminator is re-appended unchanged.
#[derive(PartialEq, Eq, Debug)]
pub enum Stmt {
    Binding(Vec<Token>),
    BareExpression(Vec<Token>, bool),
    NestedItem(Vec<Token>),
    MacroInvocation(Vec<Token>),
}

/// The mathematical view of a `Stmt`.
#[verifier::ext_equal]
pub enum StmtView {
    Binding(Seq<TokenView>),
    BareExpression(Seq<TokenView>, bool),
    NestedItem(Seq<TokenView>),
    MacroInvocation(Seq<TokenView>),
}

impl View for Stmt {
    type V = StmtView;

    open spec fn view(&self) -> StmtView {
        match self {
            Stmt::Binding(ts) => StmtView::Binding(view_tokens(ts@)),
            Stmt::BareExpression(ts, semi) => StmtView::BareExpression(view_tokens(ts@), *semi),
            Stmt::NestedItem(ts) => StmtView::NestedItem(view_tokens(ts@)),
            Stmt::MacroInvocation(ts) => StmtView::MacroInvocation(view_tokens(ts@)),
        }
    }
}

/// The token sequence a statement owns.
pub open spec fn stmt_tokens(s: StmtView) -> Seq<TokenView> {
    match s {
        StmtView::Binding(ts) => ts,
        StmtView::BareExpression(ts, _) => ts,
        StmtView::NestedItem(ts) => ts,
        StmtView::MacroInvocation(ts) => ts,
    }
}

/// The view of a statement sequence, element by element.
pub open spec fn view_stmts(ss: Seq<Stmt>) -> Seq<StmtView> {
    Seq::new(ss.len(), |i: int| ss[i]@)
}

/// One rewritten statement: the same kind and terminator, its token
/// sequence run through the template locator.
pub open spec fn rewrite_stmt_spec(s: StmtView, loc: Seq<char>) -> StmtView {
    match s {
        StmtView::Binding(ts) => StmtView::Binding(locate_spec(ts, loc)),
        StmtView::BareExpression(ts, semi) => StmtView::BareExpression(locate_spec(ts, loc), semi),
        StmtView::NestedItem(ts) => StmtView::NestedItem(locate_spec(ts, loc)),
        StmtView::MacroInvocation(ts) => StmtView::MacroInvocation(locate_spec(ts, loc)),
    }
}

/// The rewritten function body: the same number of statements, each
/// rewritten independently, none dropped, reordered or duplicated.
pub open spec fn rewrite_block_spec(ss: Seq<StmtView>, loc: Seq<char>) -> Seq<StmtView> {
    Seq::new(ss.len(), |i: int| rewrite_stmt_spec(ss[i], loc))
}

/// Every statement of the body nests no deeper than `limit` levels.
pub open spec fn block_depth_ok(ss: Seq<StmtView>, limit: nat) -> bool {
    forall|i: int| 0 <= i < ss.len() ==> depth_ok_seq(stmt_tokens(ss[i]), limit)
}

/// Rewrites a function body statement by statement: each statement's
/// tokens go through the template locator; kind, order and count are kept.
/// A body nested deeper than `MAX_DEPTH` groups anywhere is handed back
/// unchanged rather than instrumented.
pub fn add_locatorjs_id_to_block(stmts: Vec<Stmt>, loc: &String) -> (r: Vec<Stmt>)
    ensures
        block_depth_ok(view_stmts(stmts@), MAX_DEPTH as nat) ==> view_stmts(r@)
            == rewrite_block_spec(view_stmts(stmts@), loc@),
        !block_depth_ok(view_stmts(stmts@), MAX_DEPTH as nat) ==> view_stmts(r@) == view_stmts(
            stmts@,
        ),
{
    let n = stmts.len();
    let mut i: usize = 0;
    while i < n
        invariant
            n == stmts.len(),
            i <= n,
            forall|j: int|
                0 <= j < i ==> depth_ok_seq(stmt_tokens(view_stmts(stmts@)[j]), MAX_DEPTH as nat),
        decreases n - i,
    {
        let ts: &Vec<Token> = match &stmts[i] {
            Stmt::Binding(ts) => ts,
            Stmt::BareExpression(ts, _) => ts,
            Stmt::NestedItem(ts) => ts,
            Stmt::MacroInvocation(ts) => ts,
        };
        proof {
            assert(stmt_tokens(view_stmts(stmts@)[i as int]) == view_tokens(ts@));
        }
        if !tokens_depth_ok(ts, MAX_DEPTH) {
            assert(!block_depth_ok(view_stmts(stmts@), MAX_DEPTH as nat));
            return stmts;
        }
        i += 1;
    }
    assert(block_depth_ok(view_stmts(stmts@), MAX_DEPTH as nat));
    let ghost orig = stmts@;
    let mut rest = stmts;
    let mut out: Vec<Stmt> = Vec::new();
    while rest.len() > 0
        invariant
            out@.len() + rest@.len() == orig.len(),
            rest@ == orig.skip(out@.len() as int),
            block_depth_ok(view_stmts(orig), MAX_DEPTH as nat),
            forall|j: int|
                0 <= j < out@.len() ==> view_stmts(out@)[j] == rewrite_stmt_spec(
                    view_stmts(orig)[j],
                    loc@,
                ),
        decreases rest@.len(),
    {
        let ghost k = out@.len() as int;
        let ghost old_out = out@;
        proof {
            assert(rest@[0] == orig[k]);
            assert(depth_ok_seq(stmt_tokens(view_stmts(orig)[k]), MAX_DEPTH as nat));
        }
        let s = rest.remove(0);
        let ghost gs = s@;
        proof {
            assert(gs == view_stmts(orig)[k]);
        }
        let rewritten = match s {
            Stmt::Binding(ts) => {
                let ghost gts = ts@;
                proof {
                    assert(gs == StmtView::Binding(view_tokens(gts)));
                    assert(depth_ok_seq(view_tokens(gts), MAX_DEPTH as nat));
                }
                Stmt::Binding(add_locatorjs_id_to_expr(ts, loc))
            },
            Stmt::BareExpression(ts, semi) => {
                let ghost gts = ts@;
                proof {
                    assert(gs == StmtView::BareExpression(view_tokens(gts), semi));
                    assert(depth_ok_seq(view_tokens(gts), MAX_DEPTH as nat));
                }
                Stmt::BareExpression(add_locatorjs_id_to_expr(ts, loc), semi)
            },
            Stmt::NestedItem(ts) => {
                let ghost gts = ts@;
                proof {
                    assert(gs == StmtView::NestedItem(view_tokens(gts)));
                    assert(depth_ok_seq(view_tokens(gts), MAX_DEPTH as nat));
                }
                Stmt::NestedItem(add_locatorjs_id_to_expr(ts, loc))
            },
            Stmt::MacroInvocation(ts) => {
                let ghost gts = ts@;
                proof {
                    assert(gs == StmtView::MacroInvocation(view_tokens(gts)));
                    assert(depth_ok_seq(view_tokens(gts), MAX_DEPTH as nat));
                }
                Stmt::MacroInvocation(add_locatorjs_id_to_expr(ts, loc))
            },
        };
        proof {
            assert(rewritten@ == rewrite_stmt_spec(gs, loc@));
        }
        out.push(rewritten);
        proof {
            assert(out@ == old_out.push(rewritten));
            assert(view_stmts(out@)[k] == rewrite_stmt_spec(view_stmts(orig)[k], loc@));
            assert forall|j: int| 0 <= j < k implies view_stmts(out@)[j] == rewrite_stmt_spec(
                view_stmts(orig)[j],
                loc@,
            ) by {
                assert(out@[j] == old_out[j]);
                assert(view_stmts(out@)[j] == view_stmts(old_out)[j]);
            }
            assert(rest@ =~= orig.skip(out@.len() as int));
        }
    }
    proof {
        assert(view_stmts(out@) =~= rewrite_block_spec(view_stmts(orig), loc@));
    }
    out
}

/// Non-template passthrough: a function body none of whose statements
/// contains a template invocation is rewritten to itself, statement for
/// statement and token for token.
pub proof fn lemma_no_invocation_block(ss: Seq<StmtView>, loc: Seq<char>)
    requires
        forall|i: int| 0 <= i < ss.len() ==> !contains_invocation(stmt_tokens(ss[i])),
    ensures
        rewrite_block_spec(ss, loc) == ss,
{
    assert forall|i: int| 0 <= i < ss.len() implies rewrite_stmt_spec(ss[i], loc) == ss[i] by {
        lemma_no_invocation_passthrough(stmt_tokens(ss[i]), LocState::Idle, loc);
        match ss[i] {
            StmtView::Binding(ts) => {
                assert(stmt_tokens(ss[i]) == ts);
            },
            StmtView::BareExpression(ts, _) => {
                assert(stmt_tokens(ss[i]) == ts);
            },
            StmtView::NestedItem(ts) => {
                assert(stmt_tokens(ss[i]) == ts);
            },
            StmtView::MacroInvocation(ts) => {
                assert(stmt_tokens(ss[i]) == ts);
            },
        }
    }
    assert(rewrite_block_spec(ss, loc) =~= ss);
}

/// A function item: the attribute, visibility and signature tokens that
/// pass through byte-identical, and the body statements that are rewritten.
pub struct FnItem {
    pub header: Vec<Token>,
    pub body: Vec<Stmt>,
}

/// The mathematical view of a `FnItem`.
#[verifier::ext_equal]
pub struct FnItemView {
    pub header: Seq<TokenView>,
    pub body: Seq<StmtView>,
}

impl View for FnItem {
    type V = FnItemView;

    open spec fn view(&self) -> FnItemView {
        FnItemView { header: view_tokens(self.header@), body: view_stmts(self.body@) }
    }
}

/// The whole pass over one function: the header — attributes, visibility,
/// signature — passes through unchanged, and every template invocation in
/// the body has its markup instrumented with the location value `loc`.
pub fn add_locatorjs_id(item: FnItem, loc: &String) -> (r: FnItem)
    ensures
        r@.header == item@.header,
        block_depth_ok(item@.body, MAX_DEPTH as nat) ==> r@.body == rewrite_block_spec(
            item@.body,
            loc@,
        ),
        !block_depth_ok(item@.body, MAX_DEPTH as nat) ==> r@.body == item@.body,
{
    let FnItem { header, body } = item;
    FnItem { header, body: add_locatorjs_id_to_block(body, loc) }
}

} // verus!
