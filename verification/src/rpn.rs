use vstd::prelude::*;

use crate::error::Error;
use crate::token::{get_precedence, is_op_char, spec_precedence, token_views, Token, TokenView};
use crate::token::{lemma_ops_valid_add, lemma_ops_valid_cons, lemma_ops_valid_push};
use crate::token::{op_chars_valid, ops_valid};

verus! {

/// The operators still on the stack, as tokens in pop order (top first).
pub open spec fn flush_stack(st: Seq<char>) -> Seq<TokenView>
    decreases st.len(),
{
    if st.len() == 0 {
        Seq::empty()
    } else {
        seq![TokenView::Op(st.last())] + flush_stack(st.drop_last())
    }
}

/// Taking a token's image commutes with appending it to a sequence.
pub proof fn lemma_token_views_push(ts: Seq<Token>, t: Token)
    ensures
        token_views(ts.push(t)) == token_views(ts).push(t@),
{
    assert(token_views(ts.push(t)) =~= token_views(ts).push(t@));
}

/// Popping the stack top to the output leaves `output ++ flush of the stack`
/// unchanged.
pub proof fn lemma_flush_step(st: Seq<char>, out: Seq<Token>, top: char)
    requires
        st.len() > 0,
        top == st.last(),
    ensures
        token_views(out) + flush_stack(st) == token_views(out.push(Token::Operator(top)))
            + flush_stack(st.drop_last()),
{
    lemma_token_views_push(out, Token::Operator(top));
    assert(flush_stack(st) =~= seq![TokenView::Op(top)] + flush_stack(st.drop_last()));
    assert(token_views(out) + (seq![TokenView::Op(top)] + flush_stack(st.drop_last()))
        =~= token_views(out).push(TokenView::Op(top)) + flush_stack(st.drop_last()));
}

/// An emptied stack adds nothing to the output.
pub proof fn lemma_flush_empty(out: Seq<Token>)
    ensures
        token_views(out) + flush_stack(Seq::<char>::empty()) == token_views(out),
{
    assert(token_views(out) + flush_stack(Seq::<char>::empty()) =~= token_views(out));
}

/// One pass of the converter from token `i` on, given the output produced so
/// far and the operator stack.  A literal goes straight to the output.  An
/// operator is pushed when the stack is empty or when it binds strictly
/// tighter than the stack top; otherwise it flushes the entire stack to the
/// output at once and is then pushed.  A precedence comparison against an
/// operator outside the four supported ones is the fatal `PrecedenceError`.
pub open spec fn rpn_from(
    ts: Seq<TokenView>,
    i: int,
    out: Seq<TokenView>,
    st: Seq<char>,
) -> Result<Seq<TokenView>, Error>
    decreases ts.len() - i,
{
    if i < 0 || i >= ts.len() {
        Ok(out + flush_stack(st))
    } else {
        match ts[i] {
            TokenView::Num(v) => rpn_from(ts, i + 1, out.push(TokenView::Num(v)), st),
            TokenView::Op(c) => {
                if st.len() == 0 {
                    rpn_from(ts, i + 1, out, st.push(c))
                } else if !is_op_char(c) || !is_op_char(st.last()) {
                    Err(Error::PrecedenceError)
                } else if spec_precedence(c) > spec_precedence(st.last()) {
                    rpn_from(ts, i + 1, out, st.push(c))
                } else {
                    rpn_from(ts, i + 1, out + flush_stack(st), seq![c])
                }
            },
        }
    }
}

/// The postfix (RPN) reordering of a token sequence, or the first error.
pub open spec fn rpn_spec(ts: Seq<TokenView>) -> Result<Seq<TokenView>, Error> {
    rpn_from(ts, 0, Seq::empty(), Seq::empty())
}

/// Flushing a stack of supported operators yields only sound tokens.
proof fn lemma_flush_stack_valid(st: Seq<char>)
    requires
        op_chars_valid(st),
    ensures
        ops_valid(flush_stack(st)),
    decreases st.len(),
{
    if st.len() > 0 {
        assert(op_chars_valid(st.drop_last())) by {
            assert forall|k: int| 0 <= k < st.drop_last().len() implies is_op_char(
                #[trigger] st.drop_last()[k],
            ) by {
                assert(st.drop_last()[k] == st[k]);
            }
        }
        lemma_flush_stack_valid(st.drop_last());
        lemma_ops_valid_cons(TokenView::Op(st.last()), flush_stack(st.drop_last()));
        assert(flush_stack(st) =~= seq![TokenView::Op(st.last())] + flush_stack(st.drop_last()));
    }
}

/// On a token sequence with only supported operators the converter always
/// succeeds, and its postfix output carries only supported operators too:
/// no `PrecedenceError` can arise from lexed input.
pub proof fn lemma_rpn_from_sound(ts: Seq<TokenView>, i: int, out: Seq<TokenView>, st: Seq<char>)
    requires
        ops_valid(ts),
        ops_valid(out),
        op_chars_valid(st),
    ensures
        rpn_from(ts, i, out, st) matches Ok(o) && ops_valid(o),
    decreases ts.len() - i,
{
    if i < 0 || i >= ts.len() {
        lemma_flush_stack_valid(st);
        lemma_ops_valid_add(out, flush_stack(st));
    } else {
        match ts[i] {
            TokenView::Num(v) => {
                lemma_ops_valid_push(out, TokenView::Num(v));
                lemma_rpn_from_sound(ts, i + 1, out.push(TokenView::Num(v)), st);
            },
            TokenView::Op(c) => {
                assert(is_op_char(c));
                assert(op_chars_valid(st.push(c))) by {
                    assert forall|k: int| 0 <= k < st.push(c).len() implies is_op_char(
                        #[trigger] st.push(c)[k],
                    ) by {
                        if k < st.len() {
                            assert(st.push(c)[k] == st[k]);
                        }
                    }
                }
                if st.len() == 0 {
                    lemma_rpn_from_sound(ts, i + 1, out, st.push(c));
                } else if spec_precedence(c) > spec_precedence(st.last()) {
                    lemma_rpn_from_sound(ts, i + 1, out, st.push(c));
                } else {
                    lemma_flush_stack_valid(st);
                    lemma_ops_valid_add(out, flush_stack(st));
                    assert(op_chars_valid(seq![c]));
                    lemma_rpn_from_sound(ts, i + 1, out + flush_stack(st), seq![c]);
                }
            },
        }
    }
}

/// A single-operator token sequence `a OP b` converts to the postfix
/// sequence `a b OP`.
pub proof fn lemma_rpn_single(a: int, b: int, op: char)
    requires
        is_op_char(op),
    ensures
        rpn_spec(seq![TokenView::Num(a), TokenView::Op(op), TokenView::Num(b)])
            == Ok::<Seq<TokenView>, Error>(
            seq![TokenView::Num(a), TokenView::Num(b), TokenView::Op(op)],
        ),
{
    let ts = seq![TokenView::Num(a), TokenView::Op(op), TokenView::Num(b)];
    let out2 = seq![TokenView::Num(a), TokenView::Num(b)];
    assert(rpn_from(ts, 0, Seq::empty(), Seq::empty()) == rpn_from(
        ts,
        1,
        Seq::empty().push(TokenView::Num(a)),
        Seq::empty(),
    ));
    assert(rpn_from(ts, 1, seq![TokenView::Num(a)], Seq::empty()) == rpn_from(
        ts,
        2,
        seq![TokenView::Num(a)],
        Seq::<char>::empty().push(op),
    ));
    assert(rpn_from(ts, 2, seq![TokenView::Num(a)], seq![op]) == rpn_from(
        ts,
        3,
        seq![TokenView::Num(a)].push(TokenView::Num(b)),
        seq![op],
    ));
    assert(seq![TokenView::Num(a)].push(TokenView::Num(b)) =~= out2);
    assert(rpn_from(ts, 3, out2, seq![op]) == Ok::<Seq<TokenView>, Error>(
        out2 + flush_stack(seq![op]),
    ));
    assert(seq![op].drop_last() =~= Seq::<char>::empty());
    assert(flush_stack(seq![op]) =~= seq![TokenView::Op(op)]);
    assert(out2 + flush_stack(seq![op]) =~= seq![
        TokenView::Num(a),
        TokenView::Num(b),
        TokenView::Op(op),
    ]);
}

/// Reorders a token sequence into postfix order, resolving precedence by the
/// stack discipline of `rpn_from`: push on strictly higher precedence, flush
/// the whole stack otherwise, and empty the stack to the output at the end.
#[verifier::loop_isolation(false)]
pub fn to_rpn(tokens: &Vec<Token>) -> (r: Result<Vec<Token>, Error>)
    ensures
        (match rpn_spec(token_views(tokens@)) {
            Ok(out) => r matches Ok(v) && token_views(v@) == out,
            Err(e) => r == Err::<Vec<Token>, Error>(e),
        }),
{
    let ghost tsv = token_views(tokens@);
    let mut output: Vec<Token> = Vec::new();
    let mut op_stack: Vec<char> = Vec::new();
    let mut i: usize = 0;
    while i < tokens.len()
        invariant
            i <= tokens.len(),
            rpn_spec(tsv) == rpn_from(tsv, i as int, token_views(output@), op_stack@),
        decreases tokens.len() - i,
    {
        let ghost old_out = output@;
        let ghost old_st = op_stack@;
        proof {
            assert(tsv[i as int] == tokens@[i as int]@);
        }
        match tokens[i] {
            Token::Number(v) => {
                output.push(Token::Number(v));
                proof {
                    lemma_token_views_push(old_out, Token::Number(v));
                }
            },
            Token::Operator(c) => {
                if op_stack.len() == 0 {
                    op_stack.push(c);
                } else {
                    let op_prec = get_precedence(c);
                    let top_prec = get_precedence(op_stack[op_stack.len() - 1]);
                    let op_prec = match op_prec {
                        Ok(p) => p,
                        Err(e) => {
                            return Err(e);
                        },
                    };
                    let top_prec = match top_prec {
                        Ok(p) => p,
                        Err(e) => {
                            return Err(e);
                        },
                    };
                    if op_prec > top_prec {
                        op_stack.push(c);
                    } else {
                        let ghost target = token_views(old_out) + flush_stack(old_st);
                        while op_stack.len() > 0
                            invariant
                                target == token_views(output@) + flush_stack(op_stack@),
                            decreases op_stack.len(),
                        {
                            let ghost st_before = op_stack@;
                            let ghost out_before = output@;
                            let top = match op_stack.pop() {
                                Some(t) => t,
                                None => {
                                    return Err(Error::PrecedenceError);
                                },
                            };
                            output.push(Token::Operator(top));
                            proof {
                                lemma_flush_step(st_before, out_before, top);
                            }
                        }
                        op_stack.push(c);
                        proof {
                            lemma_flush_empty(output@);
                            assert(op_stack@ =~= seq![c]);
                        }
                    }
                }
            },
        }
        i = i + 1;
    }
    let ghost final_out = token_views(output@) + flush_stack(op_stack@);
    while op_stack.len() > 0
        invariant
            final_out == token_views(output@) + flush_stack(op_stack@),
        decreases op_stack.len(),
    {
        let ghost st_before = op_stack@;
        let ghost out_before = output@;
        let top = match op_stack.pop() {
            Some(t) => t,
            None => {
                return Err(Error::PrecedenceError);
            },
        };
        output.push(Token::Operator(top));
        proof {
            lemma_flush_step(st_before, out_before, top);
        }
    }
    proof {
        lemma_flush_empty(output@);
    }
    Ok(output)
}

} // verus!
