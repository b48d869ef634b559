use vstd::prelude::*;

use crate::ast::{ast_view, lemma_ast_view_bin, tree_ops_valid, AstView, BinaryExpr, Number, AST};
use crate::error::Error;
use crate::token::{get_precedence, is_op_char, spec_precedence, token_views, Token, TokenView};
use crate::token::{op_chars_valid, ops_valid};

verus! {

/// The images of a queue of operand trees.
pub open spec fn tree_views(q: Seq<AST>) -> Seq<AstView> {
    q.map_values(|a: AST| ast_view(a))
}

/// One pass of the tree builder from token `i` on, given the operand queue
/// (front first) and the operator stack.  A literal is enqueued at the back.
/// An operator follows the converter's discipline: it is pushed when the
/// stack is empty or when it binds strictly tighter than the stack top;
/// otherwise the two front operands and the stack top combine into one node,
/// pushed back onto the front of the queue, and the operator is then pushed.
/// After the last token, the two front operands and the stack top combine
/// once more into the root.  Too few operands, or no pending operator at the
/// end, is the fatal `TreeBuildError` of a malformed postfix sequence.
pub open spec fn build_from(
    ts: Seq<TokenView>,
    i: int,
    q: Seq<AstView>,
    st: Seq<char>,
) -> Result<AstView, Error>
    decreases ts.len() - i,
{
    if i < 0 || i >= ts.len() {
        if q.len() < 2 {
            Err(Error::TreeBuildError)
        } else if st.len() == 0 {
            Err(Error::TreeBuildError)
        } else {
            Ok(AstView::Bin(st.last(), Box::new(q[0]), Box::new(q[1])))
        }
    } else {
        match ts[i] {
            TokenView::Num(v) => build_from(ts, i + 1, q.push(AstView::Lit(v)), st),
            TokenView::Op(c) => {
                if st.len() == 0 {
                    build_from(ts, i + 1, q, st.push(c))
                } else if !is_op_char(c) || !is_op_char(st.last()) {
                    Err(Error::PrecedenceError)
                } else if spec_precedence(c) > spec_precedence(st.last()) {
                    build_from(ts, i + 1, q, st.push(c))
                } else if q.len() < 2 {
                    Err(Error::TreeBuildError)
                } else {
                    build_from(
                        ts,
                        i + 1,
                        seq![AstView::Bin(st.last(), Box::new(q[0]), Box::new(q[1]))] + q.subrange(
                            2,
                            q.len() as int,
                        ),
                        st.drop_last().push(c),
                    )
                }
            },
        }
    }
}

/// The single expression tree a postfix token sequence rebuilds into, or the
/// first error.
pub open spec fn build_spec(ts: Seq<TokenView>) -> Result<AstView, Error> {
    build_from(ts, 0, Seq::empty(), Seq::empty())
}

/// Every tree in the queue carries only supported operators.
pub open spec fn trees_valid(q: Seq<AstView>) -> bool {
    forall|k: int| 0 <= k < q.len() ==> tree_ops_valid(#[trigger] q[k])
}

/// On a postfix sequence with only supported operators the builder never
/// raises `PrecedenceError`, and any tree it does build carries only
/// supported operators: from lexed input, only `TreeBuildError` is left.
pub proof fn lemma_build_from_sound(ts: Seq<TokenView>, i: int, q: Seq<AstView>, st: Seq<char>)
    requires
        ops_valid(ts),
        trees_valid(q),
        op_chars_valid(st),
    ensures
        build_from(ts, i, q, st) matches Err(e) ==> e == Error::TreeBuildError,
        build_from(ts, i, q, st) matches Ok(t) ==> tree_ops_valid(t),
    decreases ts.len() - i,
{
    if i < 0 || i >= ts.len() {
        if q.len() >= 2 && st.len() > 0 {
            assert(tree_ops_valid(q[0]));
            assert(tree_ops_valid(q[1]));
        }
    } else {
        match ts[i] {
            TokenView::Num(v) => {
                assert(trees_valid(q.push(AstView::Lit(v)))) by {
                    assert forall|k: int| 0 <= k < q.push(AstView::Lit(v)).len()
                        implies tree_ops_valid(#[trigger] q.push(AstView::Lit(v))[k]) by {
                        if k < q.len() {
                            assert(q.push(AstView::Lit(v))[k] == q[k]);
                        }
                    }
                }
                lemma_build_from_sound(ts, i + 1, q.push(AstView::Lit(v)), st);
            },
            TokenView::Op(c) => {
                assert(is_op_char(c));
                assert(op_chars_valid(st.push(c))) by {
                    assert forall|k: int| 0 <= k < st.push(c).len() implies is_op_char(
                        #[trigger] st.push(c)[k],
                    ) by {
                        if k < st.len() {
                            assert(st.push(c)[k] == st[k]);
                        }
                    }
                }
                if st.len() == 0 {
                    lemma_build_from_sound(ts, i + 1, q, st.push(c));
                } else if spec_precedence(c) > spec_precedence(st.last()) {
                    lemma_build_from_sound(ts, i + 1, q, st.push(c));
                } else if q.len() < 2 {
                } else {
                    let node = AstView::Bin(st.last(), Box::new(q[0]), Box::new(q[1]));
                    let q2 = seq![node] + q.subrange(2, q.len() as int);
                    let st2 = st.drop_last().push(c);
                    assert(tree_ops_valid(node)) by {
                        assert(tree_ops_valid(q[0]));
                        assert(tree_ops_valid(q[1]));
                    }
                    assert(trees_valid(q2)) by {
                        assert forall|k: int| 0 <= k < q2.len() implies tree_ops_valid(
                            #[trigger] q2[k],
                        ) by {
                            if k > 0 {
                                assert(q2[k] == q[k + 1]);
                            }
                        }
                    }
                    assert(op_chars_valid(st2)) by {
                        assert forall|k: int| 0 <= k < st2.len() implies is_op_char(
                            #[trigger] st2[k],
                        ) by {
                            if k < st2.len() - 1 {
                                assert(st2[k] == st[k]);
                            }
                        }
                    }
                    lemma_build_from_sound(ts, i + 1, q2, st2);
                }
            },
        }
    }
}

/// A single-operator postfix sequence `a b OP` rebuilds into the one node
/// `OP` applied to the literals `a` and `b`, in that order.
pub proof fn lemma_build_single(a: int, b: int, op: char)
    requires
        is_op_char(op),
    ensures
        build_spec(seq![TokenView::Num(a), TokenView::Num(b), TokenView::Op(op)])
            == Ok::<AstView, Error>(
            AstView::Bin(op, Box::new(AstView::Lit(a)), Box::new(AstView::Lit(b))),
        ),
{
    let ts = seq![TokenView::Num(a), TokenView::Num(b), TokenView::Op(op)];
    let q2 = seq![AstView::Lit(a), AstView::Lit(b)];
    assert(build_from(ts, 0, Seq::empty(), Seq::empty()) == build_from(
        ts,
        1,
        Seq::empty().push(AstView::Lit(a)),
        Seq::empty(),
    ));
    assert(Seq::empty().push(AstView::Lit(a)) =~= seq![AstView::Lit(a)]);
    assert(build_from(ts, 1, seq![AstView::Lit(a)], Seq::empty()) == build_from(
        ts,
        2,
        seq![AstView::Lit(a)].push(AstView::Lit(b)),
        Seq::empty(),
    ));
    assert(seq![AstView::Lit(a)].push(AstView::Lit(b)) =~= q2);
    assert(build_from(ts, 2, q2, Seq::empty()) == build_from(
        ts,
        3,
        q2,
        Seq::<char>::empty().push(op),
    ));
    assert(Seq::<char>::empty().push(op) =~= seq![op]);
    assert(build_from(ts, 3, q2, seq![op]) == Ok::<AstView, Error>(
        AstView::Bin(op, Box::new(q2[0]), Box::new(q2[1])),
    ));
}

/// Enqueuing a tree at the back commutes with taking images.
proof fn lemma_tree_views_push(q: Seq<AST>, a: AST)
    ensures
        tree_views(q.push(a)) == tree_views(q).push(ast_view(a)),
{
    assert(tree_views(q.push(a)) =~= tree_views(q).push(ast_view(a)));
}

/// Combining the two front operands into a node pushed onto the front maps
/// to the same step on the queue of images.
proof fn lemma_tree_views_combine(q: Seq<AST>, node: AST)
    requires
        q.len() >= 2,
    ensures
        tree_views(seq![node] + q.subrange(2, q.len() as int)) == seq![ast_view(node)]
            + tree_views(q).subrange(2, q.len() as int),
{
    assert(tree_views(seq![node] + q.subrange(2, q.len() as int)) =~= seq![ast_view(node)]
        + tree_views(q).subrange(2, q.len() as int));
}

/// Rebuilds a postfix token sequence into one expression tree, by the operand
/// queue and operator stack discipline of `build_from`.
#[verifier::loop_isolation(false)]
pub fn build_ast(rpn: &Vec<Token>) -> (r: Result<AST, Error>)
    ensures
        (match build_spec(token_views(rpn@)) {
            Ok(t) => r matches Ok(a) && a@ == t,
            Err(e) => r == Err::<AST, Error>(e),
        }),
{
    let ghost tsv = token_views(rpn@);
    let mut queue: Vec<AST> = Vec::new();
    let mut op_stack: Vec<char> = Vec::new();
    let mut i: usize = 0;
    proof {
        assert(tree_views(Seq::<AST>::empty()) =~= Seq::<AstView>::empty());
    }
    while i < rpn.len()
        invariant
            i <= rpn.len(),
            build_spec(tsv) == build_from(tsv, i as int, tree_views(queue@), op_stack@),
        decreases rpn.len() - i,
    {
        let ghost old_q = queue@;
        let ghost old_st = op_stack@;
        proof {
            assert(tsv[i as int] == rpn@[i as int]@);
        }
        match rpn[i] {
            Token::Number(v) => {
                queue.push(AST::Number(Number { value: v }));
                proof {
                    lemma_tree_views_push(old_q, AST::Number(Number { value: v }));
                }
            },
            Token::Operator(c) => {
                if op_stack.len() == 0 {
                    op_stack.push(c);
                } else {
                    let op_prec = get_precedence(c);
                    let top_prec = get_precedence(op_stack[op_stack.len() - 1]);
                    let op_prec = match op_prec {
                        Ok(p) => p,
                        Err(e) => {
                            return Err(e);
                        },
                    };
                    let top_prec = match top_prec {
                        Ok(p) => p,
                        Err(e) => {
                            return Err(e);
                        },
                    };
                    if op_prec > top_prec {
                        op_stack.push(c);
                    } else {
                        if queue.len() < 2 {
                            return Err(Error::TreeBuildError);
                        }
                        let left = queue.remove(0);
                        let right = queue.remove(0);
                        let popped = match op_stack.pop() {
                            Some(t) => t,
                            None => {
                                return Err(Error::TreeBuildError);
                            },
                        };
                        let node = AST::BinaryExpr(
                            BinaryExpr { lhs: Box::new(left), op: popped, rhs: Box::new(right) },
                        );
                        proof {
                            assert(ast_view(node) == AstView::Bin(
                                popped,
                                Box::new(ast_view(left)),
                                Box::new(ast_view(right)),
                            ));
                            assert(queue@ =~= old_q.subrange(2, old_q.len() as int));
                        }
                        queue.insert(0, node);
                        op_stack.push(c);
                        proof {
                            assert(queue@ =~= seq![node] + old_q.subrange(2, old_q.len() as int));
                            lemma_tree_views_combine(old_q, node);
                            assert(ast_view(left) == tree_views(old_q)[0]);
                            assert(ast_view(right) == tree_views(old_q)[1]);
                            assert(tree_views(old_q).subrange(2, old_q.len() as int) =~= tree_views(
                                old_q,
                            ).subrange(2, tree_views(old_q).len() as int));
                            assert(op_stack@ == old_st.drop_last().push(c));
                        }
                    }
                }
            },
        }
        i = i + 1;
    }
    let ghost fin_q = queue@;
    let ghost fin_st = op_stack@;
    if queue.len() < 2 {
        return Err(Error::TreeBuildError);
    }
    let left = queue.remove(0);
    let right = queue.remove(0);
    let popped = match op_stack.pop() {
        Some(t) => t,
        None => {
            return Err(Error::TreeBuildError);
        },
    };
    let root = AST::BinaryExpr(
        BinaryExpr { lhs: Box::new(left), op: popped, rhs: Box::new(right) },
    );
    proof {
        assert(left == fin_q[0]);
        assert(right == fin_q[1]);
        assert(popped == fin_st.last());
        assert(ast_view(left) == tree_views(fin_q)[0]);
        assert(ast_view(right) == tree_views(fin_q)[1]);
        lemma_ast_view_bin(root);
        assert(ast_view(root) == AstView::Bin(
            fin_st.last(),
            Box::new(tree_views(fin_q)[0]),
            Box::new(tree_views(fin_q)[1]),
        ));
    }
    Ok(root)
}

} // verus!
