//! The term parser: recursive descent over the token sequence,
//! producing a concrete parse tree, and the whole-input entry point.
//!
//! The concrete syntax of a term is given by `tokens_of`, its
//! rendering as a keyword sequence; the parser is specified as the
//! exact inverse of that rendering.

use crate::ast::AST;
use crate::builder::spec_ast_of_node;
use crate::cst::{ParseNode, Rule};
use crate::errors::{ArithError, ParseDiag};
use crate::lex::{lex_from, spec_lex_from, Token};
use crate::metrics::spec_size;
use vstd::prelude::*;
use vstd::string::StrSliceExecFns;

verus! {

/// The rendering of a term as its keyword sequence: each operator is
/// followed by the term it takes, the conditional interleaves its
/// three sub-terms with `if`/`then`/`else`.
pub open spec fn tokens_of(t: AST) -> Seq<Token>
    decreases t,
{
    match t {
        AST::True => seq![Token::True],
        AST::False => seq![Token::False],
        AST::Zero => seq![Token::Zero],
        AST::Succ(u) => seq![Token::Succ] + tokens_of(*u),
        AST::Pred(u) => seq![Token::Pred] + tokens_of(*u),
        AST::IsZero(u) => seq![Token::IsZero] + tokens_of(*u),
        AST::IfThenElse(g, th, el) => seq![Token::If] + tokens_of(*g) + seq![Token::Then]
            + tokens_of(*th) + seq![Token::Else] + tokens_of(*el),
    }
}

/// The first keyword of a term's rendering.
pub open spec fn head_token(t: AST) -> Token {
    match t {
        AST::True => Token::True,
        AST::False => Token::False,
        AST::Zero => Token::Zero,
        AST::Succ(_) => Token::Succ,
        AST::Pred(_) => Token::Pred,
        AST::IsZero(_) => Token::IsZero,
        AST::IfThenElse(_, _, _) => Token::If,
    }
}

/// No rendering is empty, and each starts with its head keyword.
pub proof fn lemma_head(t: AST)
    ensures
        tokens_of(t).len() >= 1,
        tokens_of(t)[0] == head_token(t),
{
}

/// No term's rendering fills `[i, p)` of `toks`: the failure half of
/// the parser's contract.
pub open spec fn no_parse_at(toks: Seq<Token>, i: int) -> bool {
    forall|t: AST, p: int|
        i <= p <= toks.len() ==> #[trigger] toks.subrange(i, p) != #[trigger] tokens_of(t)
}

/// A rendering that fills `[i, p)` of `toks` is non-empty and puts
/// its head keyword at `i`.
pub proof fn lemma_render_head(toks: Seq<Token>, t: AST, i: int, p: int)
    requires
        0 <= i <= p <= toks.len(),
        toks.subrange(i, p) == tokens_of(t),
    ensures
        i < p,
        toks[i] == head_token(t),
{
    lemma_head(t);
    assert(toks[i] == toks.subrange(i, p)[0]);
}

/// A rendering of the form head-keyword-then-rest that fills `[i, p)`
/// leaves exactly `rest` on `[i + 1, p)`.
pub proof fn lemma_strip_head(toks: Seq<Token>, rest: Seq<Token>, hd: Token, i: int, p: int)
    requires
        0 <= i < p <= toks.len(),
        toks.subrange(i, p) == seq![hd] + rest,
    ensures
        toks.subrange(i + 1, p) == rest,
{
    assert(toks.subrange(i, p).len() == p - i);
    assert((seq![hd] + rest).len() == 1 + rest.len());
    assert(rest.len() == p - i - 1);
    assert forall|k: int| 0 <= k < rest.len() implies toks.subrange(i + 1, p)[k] == rest[k] by {
        assert(toks.subrange(i + 1, p)[k] == toks.subrange(i, p)[1 + k]);
        assert((seq![hd] + rest)[1 + k] == rest[k]);
    }
    assert(toks.subrange(i + 1, p) =~= rest);
}

/// Splitting an `if` rendering: where the three sub-terms and the two
/// separating keywords stand inside `[i, p)`.
pub proof fn lemma_if_decompose(toks: Seq<Token>, g: AST, th: AST, el: AST, i: int, p: int)
    requires
        0 <= i <= p <= toks.len(),
        toks.subrange(i, p) == tokens_of(
            AST::IfThenElse(Box::new(g), Box::new(th), Box::new(el)),
        ),
    ensures
        ({
            let q = i + 1 + tokens_of(g).len();
            let r = q + 1 + tokens_of(th).len();
            &&& toks[i] == Token::If
            &&& i + 1 <= q < r < p
            &&& toks.subrange(i + 1, q) == tokens_of(g)
            &&& toks[q] == Token::Then
            &&& toks.subrange(q + 1, r) == tokens_of(th)
            &&& toks[r] == Token::Else
            &&& toks.subrange(r + 1, p) == tokens_of(el)
        }),
{
    let s = tokens_of(AST::IfThenElse(Box::new(g), Box::new(th), Box::new(el)));
    let q = i + 1 + tokens_of(g).len();
    let r = q + 1 + tokens_of(th).len();
    lemma_head(g);
    lemma_head(th);
    lemma_head(el);
    assert(s.len() == 3 + tokens_of(g).len() + tokens_of(th).len() + tokens_of(el).len());
    assert(p - i == s.len());
    assert(toks[i] == toks.subrange(i, p)[0]);
    assert(toks.subrange(i + 1, q) =~= tokens_of(g)) by {
        assert forall|k: int| 0 <= k < tokens_of(g).len() implies toks.subrange(i + 1, q)[k]
            == tokens_of(g)[k] by {
            assert(toks.subrange(i + 1, q)[k] == toks.subrange(i, p)[1 + k]);
            assert(s[1 + k] == tokens_of(g)[k]);
        }
    }
    assert(toks[q] == toks.subrange(i, p)[q - i]);
    assert(s[q - i] == Token::Then);
    assert(toks.subrange(q + 1, r) =~= tokens_of(th)) by {
        assert forall|k: int| 0 <= k < tokens_of(th).len() implies toks.subrange(q + 1, r)[k]
            == tokens_of(th)[k] by {
            assert(toks.subrange(q + 1, r)[k] == toks.subrange(i, p)[q + 1 - i + k]);
            assert(s[q + 1 - i + k] == tokens_of(th)[k]);
        }
    }
    assert(toks[r] == toks.subrange(i, p)[r - i]);
    assert(s[r - i] == Token::Else);
    assert(toks.subrange(r + 1, p) =~= tokens_of(el)) by {
        assert forall|k: int| 0 <= k < tokens_of(el).len() implies toks.subrange(r + 1, p)[k]
            == tokens_of(el)[k] by {
            assert(toks.subrange(r + 1, p)[k] == toks.subrange(i, p)[r + 1 - i + k]);
            assert(s[r + 1 - i + k] == tokens_of(el)[k]);
        }
    }
}

/// Parsing is deterministic: two renderings starting at the same
/// position cover the same span and come from the same term.
pub proof fn lemma_prefix_deterministic(
    toks: Seq<Token>,
    t1: AST,
    t2: AST,
    i: int,
    p1: int,
    p2: int,
)
    requires
        0 <= i,
        i <= p1 <= toks.len(),
        i <= p2 <= toks.len(),
        toks.subrange(i, p1) == tokens_of(t1),
        toks.subrange(i, p2) == tokens_of(t2),
    ensures
        t1 == t2,
        p1 == p2,
    decreases t1,
{
    lemma_render_head(toks, t1, i, p1);
    lemma_render_head(toks, t2, i, p2);
    match t1 {
        AST::True => {
            match t2 {
                AST::True => {
                    assert(tokens_of(t1).len() == 1);
                    assert(tokens_of(t2).len() == 1);
                    assert(p1 == i + 1 && p2 == i + 1);
                },
                _ => {
                    assert(false);
                },
            }
        },
        AST::False => {
            match t2 {
                AST::False => {
                    assert(tokens_of(t1).len() == 1);
                    assert(tokens_of(t2).len() == 1);
                    assert(p1 == i + 1 && p2 == i + 1);
                },
                _ => {
                    assert(false);
                },
            }
        },
        AST::Zero => {
            match t2 {
                AST::Zero => {
                    assert(tokens_of(t1).len() == 1);
                    assert(tokens_of(t2).len() == 1);
                    assert(p1 == i + 1 && p2 == i + 1);
                },
                _ => {
                    assert(false);
                },
            }
        },
        AST::Succ(u1) => {
            match t2 {
                AST::Succ(u2) => {
                    lemma_strip_head(toks, tokens_of(*u1), Token::Succ, i, p1);
                    lemma_strip_head(toks, tokens_of(*u2), Token::Succ, i, p2);
                    lemma_prefix_deterministic(toks, *u1, *u2, i + 1, p1, p2);
                },
                _ => {
                    assert(false);
                },
            }
        },
        AST::Pred(u1) => {
            match t2 {
                AST::Pred(u2) => {
                    lemma_strip_head(toks, tokens_of(*u1), Token::Pred, i, p1);
                    lemma_strip_head(toks, tokens_of(*u2), Token::Pred, i, p2);
                    lemma_prefix_deterministic(toks, *u1, *u2, i + 1, p1, p2);
                },
                _ => {
                    assert(false);
                },
            }
        },
        AST::IsZero(u1) => {
            match t2 {
                AST::IsZero(u2) => {
                    lemma_strip_head(toks, tokens_of(*u1), Token::IsZero, i, p1);
                    lemma_strip_head(toks, tokens_of(*u2), Token::IsZero, i, p2);
                    lemma_prefix_deterministic(toks, *u1, *u2, i + 1, p1, p2);
                },
                _ => {
                    assert(false);
                },
            }
        },
        AST::IfThenElse(g1, th1, el1) => {
            match t2 {
                AST::IfThenElse(g2, th2, el2) => {
                    lemma_if_decompose(toks, *g1, *th1, *el1, i, p1);
                    lemma_if_decompose(toks, *g2, *th2, *el2, i, p2);
                    let q1 = i + 1 + tokens_of(*g1).len();
                    let q2 = i + 1 + tokens_of(*g2).len();
                    lemma_prefix_deterministic(toks, *g1, *g2, i + 1, q1, q2);
                    let r1 = q1 + 1 + tokens_of(*th1).len();
                    let r2 = q2 + 1 + tokens_of(*th2).len();
                    lemma_prefix_deterministic(toks, *th1, *th2, q1 + 1, r1, r2);
                    lemma_prefix_deterministic(toks, *el1, *el2, r1 + 1, p1, p2);
                },
                _ => {
                    assert(false);
                },
            }
        },
    }
}

/// Two terms with the same rendering are the same term.
pub proof fn lemma_tokens_injective(t1: AST, t2: AST)
    requires
        tokens_of(t1) == tokens_of(t2),
    ensures
        t1 == t2,
{
    let toks = tokens_of(t1);
    assert(toks.subrange(0, toks.len() as int) =~= tokens_of(t1));
    lemma_prefix_deterministic(toks, t1, t2, 0, toks.len() as int, toks.len() as int);
}

/// The reverse of stripping: a head keyword at `i` followed by a
/// rendering on `[i + 1, p)` makes `[i, p)` a head-then-rest span.
pub proof fn lemma_join_head(toks: Seq<Token>, rest: Seq<Token>, hd: Token, i: int, p: int)
    requires
        0 <= i < p <= toks.len(),
        toks[i] == hd,
        toks.subrange(i + 1, p) == rest,
    ensures
        toks.subrange(i, p) == seq![hd] + rest,
{
    assert(toks.subrange(i + 1, p).len() == p - i - 1);
    assert forall|k: int| 0 <= k < p - i implies toks.subrange(i, p)[k] == (seq![hd] + rest)[k] by {
        if k == 0 {
            assert(toks.subrange(i, p)[0] == toks[i]);
        } else {
            assert(toks.subrange(i, p)[k] == toks[i + k]);
            assert(toks.subrange(i + 1, p)[k - 1] == toks[i + k]);
            assert((seq![hd] + rest)[k] == rest[k - 1]);
        }
    }
    assert(toks.subrange(i, p) =~= seq![hd] + rest);
}

/// Joining an `if` rendering: three sub-term renderings separated by
/// `then` and `else` make one conditional rendering.
pub proof fn lemma_if_compose(
    toks: Seq<Token>,
    g: AST,
    th: AST,
    el: AST,
    i: int,
    p1: int,
    p2: int,
    p: int,
)
    requires
        0 <= i < p1 < p2 < p <= toks.len(),
        toks[i] == Token::If,
        toks.subrange(i + 1, p1) == tokens_of(g),
        toks[p1] == Token::Then,
        toks.subrange(p1 + 1, p2) == tokens_of(th),
        toks[p2] == Token::Else,
        toks.subrange(p2 + 1, p) == tokens_of(el),
    ensures
        toks.subrange(i, p) == tokens_of(AST::IfThenElse(Box::new(g), Box::new(th), Box::new(el))),
{
    let s = tokens_of(AST::IfThenElse(Box::new(g), Box::new(th), Box::new(el)));
    let ng = tokens_of(g).len();
    let nt = tokens_of(th).len();
    assert(toks.subrange(i + 1, p1).len() == p1 - i - 1);
    assert(toks.subrange(p1 + 1, p2).len() == p2 - p1 - 1);
    assert(toks.subrange(p2 + 1, p).len() == p - p2 - 1);
    assert(s.len() == 3 + tokens_of(g).len() + tokens_of(th).len() + tokens_of(el).len());
    assert forall|k: int| 0 <= k < p - i implies toks.subrange(i, p)[k] == s[k] by {
        assert(toks.subrange(i, p)[k] == toks[i + k]);
        if k == 0 {
            assert(s[0] == Token::If);
        } else if k <= ng {
            assert(s[k] == tokens_of(g)[k - 1]);
            assert(toks.subrange(i + 1, p1)[k - 1] == toks[i + k]);
        } else if k == 1 + ng {
            assert(s[k] == Token::Then);
            assert(i + k == p1);
        } else if k <= 1 + ng + nt {
            assert(s[k] == tokens_of(th)[k - 2 - ng]);
            assert(toks.subrange(p1 + 1, p2)[k - 2 - ng] == toks[i + k]);
        } else if k == 2 + ng + nt {
            assert(s[k] == Token::Else);
            assert(i + k == p2);
        } else {
            assert(s[k] == tokens_of(el)[k - 3 - ng - nt]);
            assert(toks.subrange(p2 + 1, p)[k - 3 - ng - nt] == toks[i + k]);
        }
    }
    assert(toks.subrange(i, p) =~= s);
}

/// A term never has more nodes than its rendering has keywords.
pub proof fn lemma_size_le_tokens(t: AST)
    ensures
        spec_size(t) <= tokens_of(t).len(),
    decreases t,
{
    match t {
        AST::Succ(u) => lemma_size_le_tokens(*u),
        AST::Pred(u) => lemma_size_le_tokens(*u),
        AST::IsZero(u) => lemma_size_le_tokens(*u),
        AST::IfThenElse(g, th, el) => {
            lemma_size_le_tokens(*g);
            lemma_size_le_tokens(*th);
            lemma_size_le_tokens(*el);
        },
        _ => (),
    }
}

/// Nothing parses where the tokens have run out.
proof fn lemma_no_parse_end(toks: Seq<Token>, i: int)
    requires
        0 <= i,
        i == toks.len(),
    ensures
        no_parse_at(toks, i),
{
    assert forall|t: AST, p: int| i <= p <= toks.len() implies toks.subrange(i, p) != tokens_of(
        t,
    ) by {
        if toks.subrange(i, p) == tokens_of(t) {
            lemma_render_head(toks, t, i, p);
        }
    }
}

/// Nothing parses where a `then` or `else` keyword stands: no term's
/// rendering starts with either.
proof fn lemma_no_parse_bad_head(toks: Seq<Token>, i: int)
    requires
        0 <= i < toks.len(),
        toks[i] == Token::Then || toks[i] == Token::Else,
    ensures
        no_parse_at(toks, i),
{
    assert forall|t: AST, p: int| i <= p <= toks.len() implies toks.subrange(i, p) != tokens_of(
        t,
    ) by {
        if toks.subrange(i, p) == tokens_of(t) {
            lemma_render_head(toks, t, i, p);
            assert(head_token(t) != Token::Then && head_token(t) != Token::Else);
        }
    }
}

/// Nothing parses at an operator keyword whose operand position
/// parses nothing.
proof fn lemma_no_parse_op(toks: Seq<Token>, i: int)
    requires
        0 <= i < toks.len(),
        toks[i] == Token::Succ || toks[i] == Token::Pred || toks[i] == Token::IsZero,
        no_parse_at(toks, i + 1),
    ensures
        no_parse_at(toks, i),
{
    assert forall|t: AST, p: int| i <= p <= toks.len() implies toks.subrange(i, p) != tokens_of(
        t,
    ) by {
        if toks.subrange(i, p) == tokens_of(t) {
            lemma_render_head(toks, t, i, p);
            match t {
                AST::Succ(u) => lemma_strip_head(toks, tokens_of(*u), Token::Succ, i, p),
                AST::Pred(u) => lemma_strip_head(toks, tokens_of(*u), Token::Pred, i, p),
                AST::IsZero(u) => lemma_strip_head(toks, tokens_of(*u), Token::IsZero, i, p),
                _ => (),
            }
        }
    }
}

/// Nothing parses at an `if` whose guard position parses nothing.
proof fn lemma_no_parse_if_guard(toks: Seq<Token>, i: int)
    requires
        0 <= i < toks.len(),
        toks[i] == Token::If,
        no_parse_at(toks, i + 1),
    ensures
        no_parse_at(toks, i),
{
    assert forall|t: AST, p: int| i <= p <= toks.len() implies toks.subrange(i, p) != tokens_of(
        t,
    ) by {
        if toks.subrange(i, p) == tokens_of(t) {
            lemma_render_head(toks, t, i, p);
            match t {
                AST::IfThenElse(g, th, el) => {
                    lemma_if_decompose(toks, *g, *th, *el, i, p);
                },
                _ => (),
            }
        }
    }
}

/// Nothing parses at an `if` whose parsed guard is not followed by
/// `then`.
proof fn lemma_no_parse_if_then(toks: Seq<Token>, g0: AST, i: int, p1: int)
    requires
        0 <= i < toks.len(),
        toks[i] == Token::If,
        i + 1 <= p1 <= toks.len(),
        toks.subrange(i + 1, p1) == tokens_of(g0),
        p1 == toks.len() || toks[p1] != Token::Then,
    ensures
        no_parse_at(toks, i),
{
    assert forall|t: AST, p: int| i <= p <= toks.len() implies toks.subrange(i, p) != tokens_of(
        t,
    ) by {
        if toks.subrange(i, p) == tokens_of(t) {
            lemma_render_head(toks, t, i, p);
            match t {
                AST::IfThenElse(g, th, el) => {
                    lemma_if_decompose(toks, *g, *th, *el, i, p);
                    let q = i + 1 + tokens_of(*g).len();
                    lemma_prefix_deterministic(toks, *g, g0, i + 1, q, p1);
                },
                _ => (),
            }
        }
    }
}

/// Nothing parses at an `if` whose branch position after `then`
/// parses nothing.
proof fn lemma_no_parse_if_then_branch(toks: Seq<Token>, g0: AST, i: int, p1: int)
    requires
        0 <= i < toks.len(),
        toks[i] == Token::If,
        i + 1 <= p1 < toks.len(),
        toks.subrange(i + 1, p1) == tokens_of(g0),
        toks[p1] == Token::Then,
        no_parse_at(toks, p1 + 1),
    ensures
        no_parse_at(toks, i),
{
    assert forall|t: AST, p: int| i <= p <= toks.len() implies toks.subrange(i, p) != tokens_of(
        t,
    ) by {
        if toks.subrange(i, p) == tokens_of(t) {
            lemma_render_head(toks, t, i, p);
            match t {
                AST::IfThenElse(g, th, el) => {
                    lemma_if_decompose(toks, *g, *th, *el, i, p);
                    let q = i + 1 + tokens_of(*g).len();
                    lemma_prefix_deterministic(toks, *g, g0, i + 1, q, p1);
                    let r = q + 1 + tokens_of(*th).len();
                    assert(toks.subrange(p1 + 1, r) == tokens_of(*th));
                },
                _ => (),
            }
        }
    }
}

/// Nothing parses at an `if` whose parsed guard and then-branch are
/// not followed by `else`.
proof fn lemma_no_parse_if_else(toks: Seq<Token>, g0: AST, t0: AST, i: int, p1: int, p2: int)
    requires
        0 <= i < toks.len(),
        toks[i] == Token::If,
        i + 1 <= p1 < toks.len(),
        toks.subrange(i + 1, p1) == tokens_of(g0),
        toks[p1] == Token::Then,
        p1 + 1 <= p2 <= toks.len(),
        toks.subrange(p1 + 1, p2) == tokens_of(t0),
        p2 == toks.len() || toks[p2] != Token::Else,
    ensures
        no_parse_at(toks, i),
{
    assert forall|t: AST, p: int| i <= p <= toks.len() implies toks.subrange(i, p) != tokens_of(
        t,
    ) by {
        if toks.subrange(i, p) == tokens_of(t) {
            lemma_render_head(toks, t, i, p);
            match t {
                AST::IfThenElse(g, th, el) => {
                    lemma_if_decompose(toks, *g, *th, *el, i, p);
                    let q = i + 1 + tokens_of(*g).len();
                    lemma_prefix_deterministic(toks, *g, g0, i + 1, q, p1);
                    let r = q + 1 + tokens_of(*th).len();
                    lemma_prefix_deterministic(toks, *th, t0, p1 + 1, r, p2);
                },
                _ => (),
            }
        }
    }
}

/// Nothing parses at an `if` whose branch position after `else`
/// parses nothing.
proof fn lemma_no_parse_if_else_branch(
    toks: Seq<Token>,
    g0: AST,
    t0: AST,
    i: int,
    p1: int,
    p2: int,
)
    requires
        0 <= i < toks.len(),
        toks[i] == Token::If,
        i + 1 <= p1 < toks.len(),
        toks.subrange(i + 1, p1) == tokens_of(g0),
        toks[p1] == Token::Then,
        p1 + 1 <= p2 < toks.len(),
        toks.subrange(p1 + 1, p2) == tokens_of(t0),
        toks[p2] == Token::Else,
        no_parse_at(toks, p2 + 1),
    ensures
        no_parse_at(toks, i),
{
    assert forall|t: AST, p: int| i <= p <= toks.len() implies toks.subrange(i, p) != tokens_of(
        t,
    ) by {
        if toks.subrange(i, p) == tokens_of(t) {
            lemma_render_head(toks, t, i, p);
            match t {
                AST::IfThenElse(g, th, el) => {
                    lemma_if_decompose(toks, *g, *th, *el, i, p);
                    let q = i + 1 + tokens_of(*g).len();
                    lemma_prefix_deterministic(toks, *g, g0, i + 1, q, p1);
                    let r = q + 1 + tokens_of(*th).len();
                    lemma_prefix_deterministic(toks, *th, t0, p1 + 1, r, p2);
                    assert(toks.subrange(p2 + 1, p) == tokens_of(*el));
                },
                _ => (),
            }
        }
    }
}

/// A leaf of the concrete parse tree.
fn node0(r: Rule) -> (n: ParseNode)
    ensures
        n.rule == r,
        n.children@.len() == 0,
{
    ParseNode { rule: r, children: Vec::new() }
}

/// A parse-tree node with one child.
fn node1(r: Rule, child: ParseNode) -> (n: ParseNode)
    ensures
        n.rule == r,
        n.children@.len() == 1,
        n.children@[0] == child,
{
    let mut cs: Vec<ParseNode> = Vec::new();
    cs.push(child);
    ParseNode { rule: r, children: cs }
}

/// A parse-tree node with three children, in order.
fn node3(r: Rule, a: ParseNode, b: ParseNode, c: ParseNode) -> (n: ParseNode)
    ensures
        n.rule == r,
        n.children@.len() == 3,
        n.children@[0] == a,
        n.children@[1] == b,
        n.children@[2] == c,
{
    let mut cs: Vec<ParseNode> = Vec::new();
    cs.push(a);
    cs.push(b);
    cs.push(c);
    ParseNode { rule: r, children: cs }
}

/// The parser's success contract: the returned node converts to a
/// term whose rendering fills exactly the consumed span.
pub open spec fn parse_ok_at(toks: Seq<Token>, node: ParseNode, i: int, p: int) -> bool {
    &&& i < p <= toks.len()
    &&& spec_ast_of_node(node) matches Ok(t) && tokens_of(t) == toks.subrange(i, p)
}

/// A parse diagnostic points at the end of the tokens or at a token
/// position no earlier than where parsing began.
pub open spec fn diag_in_range(toks: Seq<Token>, d: ParseDiag, i: int) -> bool {
    ||| d == ParseDiag::UnexpectedEnd
    ||| (d matches ParseDiag::UnexpectedToken(k) && i <= k < toks.len())
}

/// Parse one term from token position `i` on: each operator keyword
/// takes exactly the term after it, a conditional its three separated
/// sub-terms. Returns the concrete parse tree of the term and the
/// position right after it; fails exactly when no term's rendering
/// starts at `i`.
pub fn parse_term(toks: &Vec<Token>, i: usize) -> (r: Result<(ParseNode, usize), ParseDiag>)
    requires
        i <= toks@.len(),
    ensures
        r matches Ok(np) ==> parse_ok_at(toks@, np.0, i as int, np.1 as int),
        r is Err ==> no_parse_at(toks@, i as int),
        r matches Err(d) ==> diag_in_range(toks@, d, i as int),
    decreases toks@.len() - i,
{
    if i == toks.len() {
        proof {
            lemma_no_parse_end(toks@, i as int);
        }
        return Err(ParseDiag::UnexpectedEnd);
    }
    let tok = toks[i];
    match tok {
        Token::True => {
            let leaf = node0(Rule::True);
            let node = node1(Rule::Term, leaf);
            proof {
                assert(spec_ast_of_node(leaf) == Ok::<AST, ArithError>(AST::True));
                assert(spec_ast_of_node(node) == Ok::<AST, ArithError>(AST::True));
                assert(tokens_of(AST::True) =~= toks@.subrange(i as int, i + 1));
            }
            Ok((node, i + 1))
        },
        Token::False => {
            let leaf = node0(Rule::False);
            let node = node1(Rule::Term, leaf);
            proof {
                assert(spec_ast_of_node(leaf) == Ok::<AST, ArithError>(AST::False));
                assert(spec_ast_of_node(node) == Ok::<AST, ArithError>(AST::False));
                assert(tokens_of(AST::False) =~= toks@.subrange(i as int, i + 1));
            }
            Ok((node, i + 1))
        },
        Token::Zero => {
            let leaf = node0(Rule::Zero);
            let node = node1(Rule::Term, leaf);
            proof {
                assert(spec_ast_of_node(leaf) == Ok::<AST, ArithError>(AST::Zero));
                assert(spec_ast_of_node(node) == Ok::<AST, ArithError>(AST::Zero));
                assert(tokens_of(AST::Zero) =~= toks@.subrange(i as int, i + 1));
            }
            Ok((node, i + 1))
        },
        Token::Succ => {
            match parse_term(toks, i + 1) {
                Ok((child, p)) => {
                    let ghost u = spec_ast_of_node(child)->Ok_0;
                    let op = node1(Rule::Succ, child);
                    let node = node1(Rule::Term, op);
                    proof {
                        assert(spec_ast_of_node(op) == Ok::<AST, ArithError>(AST::Succ(Box::new(u))));
                        assert(spec_ast_of_node(node) == Ok::<AST, ArithError>(AST::Succ(Box::new(u))));
                        lemma_join_head(
                            toks@,
                            tokens_of(u),
                            Token::Succ,
                            i as int,
                            p as int,
                        );
                    }
                    Ok((node, p))
                },
                Err(d) => {
                    proof {
                        lemma_no_parse_op(toks@, i as int);
                    }
                    Err(d)
                },
            }
        },
        Token::Pred => {
            match parse_term(toks, i + 1) {
                Ok((child, p)) => {
                    let ghost u = spec_ast_of_node(child)->Ok_0;
                    let op = node1(Rule::Pred, child);
                    let node = node1(Rule::Term, op);
                    proof {
                        assert(spec_ast_of_node(op) == Ok::<AST, ArithError>(AST::Pred(Box::new(u))));
                        assert(spec_ast_of_node(node) == Ok::<AST, ArithError>(AST::Pred(Box::new(u))));
                        lemma_join_head(
                            toks@,
                            tokens_of(u),
                            Token::Pred,
                            i as int,
                            p as int,
                        );
                    }
                    Ok((node, p))
                },
                Err(d) => {
                    proof {
                        lemma_no_parse_op(toks@, i as int);
                    }
                    Err(d)
                },
            }
        },
        Token::IsZero => {
            match parse_term(toks, i + 1) {
                Ok((child, p)) => {
                    let ghost u = spec_ast_of_node(child)->Ok_0;
                    let op = node1(Rule::IsZero, child);
                    let node = node1(Rule::Term, op);
                    proof {
                        assert(spec_ast_of_node(op) == Ok::<AST, ArithError>(AST::IsZero(Box::new(u))));
                        assert(spec_ast_of_node(node) == Ok::<AST, ArithError>(AST::IsZero(Box::new(u))));
                        lemma_join_head(
                            toks@,
                            tokens_of(u),
                            Token::IsZero,
                            i as int,
                            p as int,
                        );
                    }
                    Ok((node, p))
                },
                Err(d) => {
                    proof {
                        lemma_no_parse_op(toks@, i as int);
                    }
                    Err(d)
                },
            }
        },
        Token::If => {
            let (gnode, p1) = match parse_term(toks, i + 1) {
                Ok(x) => x,
                Err(d) => {
                    proof {
                        lemma_no_parse_if_guard(toks@, i as int);
                    }
                    return Err(d);
                },
            };
            let ghost g0 = spec_ast_of_node(gnode)->Ok_0;
            if p1 == toks.len() {
                proof {
                    lemma_no_parse_if_then(toks@, g0, i as int, p1 as int);
                }
                return Err(ParseDiag::UnexpectedEnd);
            }
            if toks[p1] != Token::Then {
                proof {
                    lemma_no_parse_if_then(toks@, g0, i as int, p1 as int);
                }
                return Err(ParseDiag::UnexpectedToken(p1));
            }
            let (tnode, p2) = match parse_term(toks, p1 + 1) {
                Ok(x) => x,
                Err(d) => {
                    proof {
                        lemma_no_parse_if_then_branch(toks@, g0, i as int, p1 as int);
                    }
                    return Err(d);
                },
            };
            let ghost t0 = spec_ast_of_node(tnode)->Ok_0;
            if p2 == toks.len() {
                proof {
                    lemma_no_parse_if_else(toks@, g0, t0, i as int, p1 as int, p2 as int);
                }
                return Err(ParseDiag::UnexpectedEnd);
            }
            if toks[p2] != Token::Else {
                proof {
                    lemma_no_parse_if_else(toks@, g0, t0, i as int, p1 as int, p2 as int);
                }
                return Err(ParseDiag::UnexpectedToken(p2));
            }
            let (enode, p3) = match parse_term(toks, p2 + 1) {
                Ok(x) => x,
                Err(d) => {
                    proof {
                        lemma_no_parse_if_else_branch(
                            toks@,
                            g0,
                            t0,
                            i as int,
                            p1 as int,
                            p2 as int,
                        );
                    }
                    return Err(d);
                },
            };
            let ghost e0 = spec_ast_of_node(enode)->Ok_0;
            let inner = node3(Rule::IfThenElse, gnode, tnode, enode);
            let node = node1(Rule::Term, inner);
            proof {
                assert(spec_ast_of_node(inner) == Ok::<AST, ArithError>(
                    AST::IfThenElse(Box::new(g0), Box::new(t0), Box::new(e0)),
                ));
                assert(spec_ast_of_node(node) == Ok::<AST, ArithError>(
                    AST::IfThenElse(Box::new(g0), Box::new(t0), Box::new(e0)),
                ));
                lemma_if_compose(
                    toks@,
                    g0,
                    t0,
                    e0,
                    i as int,
                    p1 as int,
                    p2 as int,
                    p3 as int,
                );
            }
            Ok((node, p3))
        },
        Token::Then => {
            proof {
                lemma_no_parse_bad_head(toks@, i as int);
            }
            Err(ParseDiag::UnexpectedToken(i))
        },
        Token::Else => {
            proof {
                lemma_no_parse_bad_head(toks@, i as int);
            }
            Err(ParseDiag::UnexpectedToken(i))
        },
    }
}

/// The characters of the input, in order.
fn chars_of(s: &str) -> (r: Vec<char>)
    ensures
        r@ == s@,
{
    let n = s.unicode_len();
    let mut v: Vec<char> = Vec::new();
    let mut k: usize = 0;
    assert(v@ =~= s@.subrange(0, 0));
    while k < n
        invariant
            n as nat == s@.len(),
            k <= n,
            v@ == s@.subrange(0, k as int),
        decreases n - k,
    {
        let c = s.get_char(k);
        v.push(c);
        proof {
            assert(v@ =~= s@.subrange(0, k + 1));
        }
        k = k + 1;
    }
    proof {
        assert(v@ =~= s@);
    }
    v
}

/// Parse one whole line of concrete syntax into a term. Succeeds
/// exactly when every word is a keyword and the whole token sequence
/// is the rendering of one term — that term, unique by
/// `lemma_tokens_injective`, is returned. Every failure is a
/// `ParseError`: an unknown word, or a token sequence that no term's
/// rendering fills.
pub fn try_parse(input: &str) -> (r: Result<AST, ArithError>)
    ensures
        r matches Ok(t) ==> (spec_lex_from(input@, 0) matches Ok(toks) && tokens_of(t) == toks
            && spec_size(t) <= input@.len() && input@.len() <= usize::MAX),
        r matches Err(e) ==> (match spec_lex_from(input@, 0) {
            Ok(toks) => e matches ArithError::ParseError(..) && (forall|t: AST|
                #[trigger] tokens_of(t) != toks),
            Err(cp) => e == ArithError::ParseError(ParseDiag::UnknownWord(cp as usize)),
        }),
{
    let cs = chars_of(input);
    let toks = match lex_from(&cs, 0) {
        Ok(v) => v,
        Err(p) => {
            return Err(ArithError::ParseError(ParseDiag::UnknownWord(p)));
        },
    };
    match parse_term(&toks, 0) {
        Ok((node, p)) => {
            let n = toks.len();
            if p < n {
                proof {
                    let ghost t0 = spec_ast_of_node(node)->Ok_0;
                    assert forall|t: AST| #[trigger] tokens_of(t) != toks@ by {
                        if tokens_of(t) == toks@ {
                            assert(toks@.subrange(0, toks@.len() as int) =~= toks@);
                            lemma_prefix_deterministic(
                                toks@,
                                t,
                                t0,
                                0,
                                toks@.len() as int,
                                p as int,
                            );
                        }
                    }
                }
                return Err(ArithError::ParseError(ParseDiag::TrailingInput(p)));
            }
            match AST::try_from_node(&node) {
                Ok(t) => {
                    proof {
                        assert(toks@.subrange(0, p as int) =~= toks@);
                        lemma_size_le_tokens(t);
                        crate::lex::lemma_lex_len(input@, 0);
                        vstd::std_specs::vec::axiom_spec_len(&cs);
                    }
                    Ok(t)
                },
                Err(e) => {
                    proof {
                        assert(false);
                    }
                    Err(e)
                },
            }
        },
        Err(d) => {
            proof {
                assert forall|t: AST| #[trigger] tokens_of(t) != toks@ by {
                    if tokens_of(t) == toks@ {
                        assert(toks@.subrange(0, toks@.len() as int) =~= toks@);
                    }
                }
            }
            Err(ArithError::ParseError(d))
        },
    }
}

} // verus!
