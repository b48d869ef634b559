use vstd::prelude::*;

use crate::ast::{eval_spec, lemma_eval_bin_lit, lemma_eval_no_invalid_operator, trunc_div};
use crate::builder::{build_spec, lemma_build_from_sound, lemma_build_single};
use crate::error::Error;
use crate::lexer::{lemma_lex_ops_valid, lex_spec};
use crate::parser::{evaluate_post, pipeline_spec};
use crate::rpn::{lemma_rpn_from_sound, lemma_rpn_single, rpn_spec};
use crate::token::{is_op_char, TokenView};

verus! {

/// For every single-operator token sequence `a OP b`, the pipeline's three
/// remaining stages produce exactly the direct application of `OP` to `a`
/// and `b`: the sum, the difference, the product, or the quotient truncated
/// toward zero — the last defined only for a nonzero divisor.
pub proof fn lemma_single_operator(a: int, b: int, op: char)
    requires
        is_op_char(op),
        op == '/' ==> b != 0,
    ensures
        ({
            let ts = seq![TokenView::Num(a), TokenView::Op(op), TokenView::Num(b)];
            let direct = if op == '+' {
                a + b
            } else if op == '-' {
                a - b
            } else if op == '*' {
                a * b
            } else {
                trunc_div(a, b)
            };
            &&& rpn_spec(ts) matches Ok(rp)
            &&& build_spec(rp) matches Ok(t)
            &&& eval_spec(t) == Ok::<int, Error>(direct)
        }),
{
    lemma_rpn_single(a, b, op);
    lemma_build_single(a, b, op);
    lemma_eval_bin_lit(op, a, b);
}

/// The two internal-consistency errors are unreachable from text: because
/// the lexer admits only the four supported operator characters, no run that
/// starts from a string can ever end in `PrecedenceError` or
/// `InvalidOperator`.  Those two can only signal a caller handing a later
/// stage tokens or trees the earlier stages never produced.
pub proof fn lemma_pipeline_no_internal_errors(s: Seq<char>)
    ensures
        pipeline_spec(s) != Err::<int, Error>(Error::PrecedenceError),
        pipeline_spec(s) != Err::<int, Error>(Error::InvalidOperator),
{
    lemma_lex_ops_valid(s, 0);
    match lex_spec(s) {
        Err(e) => {
            assert(e == Error::LexError);
        },
        Ok(ts) => {
            lemma_rpn_from_sound(ts, 0, Seq::empty(), Seq::empty());
            match rpn_spec(ts) {
                Err(_) => {
                    assert(false);
                },
                Ok(rp) => {
                    lemma_build_from_sound(rp, 0, Seq::empty(), Seq::empty());
                    match build_spec(rp) {
                        Err(e) => {
                            assert(e != Error::PrecedenceError);
                        },
                        Ok(t) => {
                            lemma_eval_no_invalid_operator(t);
                        },
                    }
                },
            }
        },
    }
}

/// Two results of running the pipeline over the same text are the same
/// result: the outcome is a function of the text alone, with no hidden state.
pub proof fn lemma_pipeline_deterministic(
    s: Seq<char>,
    r1: Result<i32, Error>,
    r2: Result<i32, Error>,
)
    requires
        evaluate_post(s, r1),
        evaluate_post(s, r2),
    ensures
        r1 == r2,
{
    match pipeline_spec(s) {
        Ok(v) => {
            assert(r1 matches Ok(x) && x as int == v);
            assert(r2 matches Ok(x) && x as int == v);
        },
        Err(e) => {
            assert(r1 == Err::<i32, Error>(e));
            assert(r2 == Err::<i32, Error>(e));
        },
    }
}

} // verus!
