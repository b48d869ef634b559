use vstd::prelude::*;

use crate::error::Error;

verus! {

/// A literal leaf of the expression tree.
#[derive(Clone, Copy, Debug, PartialEq, Eq, Structural)]
pub struct Number {
    pub value: i32,
}

/// An internal node: an operator applied to two fully formed subtrees, each
/// owned exclusively by this node.
#[derive(Debug)]
pub struct BinaryExpr {
    pub lhs: Box<AST>,
    pub op: char,
    pub rhs: Box<AST>,
}

/// The expression tree: a closed sum over literals and binary applications.
#[derive(Debug)]
pub enum AST {
    Number(Number),
    BinaryExpr(BinaryExpr),
}

/// The mathematical image of an expression tree, with unbounded literals.
pub enum AstView {
    Lit(int),
    Bin(char, Box<AstView>, Box<AstView>),
}

/// The image of a tree value.
pub open spec fn ast_view(t: AST) -> AstView
    decreases t,
{
    match t {
        AST::Number(n) => AstView::Lit(n.value as int),
        AST::BinaryExpr(b) => AstView::Bin(
            b.op,
            Box::new(ast_view(*b.lhs)),
            Box::new(ast_view(*b.rhs)),
        ),
    }
}

/// How the image of an operator node is put together from its parts.
pub proof fn lemma_ast_view_bin(t: AST)
    requires
        t is BinaryExpr,
    ensures
        ast_view(t) == AstView::Bin(
            t->BinaryExpr_0.op,
            Box::new(ast_view(*t->BinaryExpr_0.lhs)),
            Box::new(ast_view(*t->BinaryExpr_0.rhs)),
        ),
{
}

/// Every operator node of the tree carries a supported operator.
pub open spec fn tree_ops_valid(t: AstView) -> bool
    decreases t,
{
    match t {
        AstView::Lit(_) => true,
        AstView::Bin(op, l, r) => {
            &&& crate::token::is_op_char(op)
            &&& tree_ops_valid(*l)
            &&& tree_ops_valid(*r)
        },
    }
}

/// A tree whose operators are all supported never evaluates to the
/// internal-consistency error `InvalidOperator`: the one failure left to it
/// is a division by zero.
pub proof fn lemma_eval_no_invalid_operator(t: AstView)
    requires
        tree_ops_valid(t),
    ensures
        eval_spec(t) matches Err(e) ==> e == Error::DivisionByZero,
    decreases t,
{
    match t {
        AstView::Lit(_) => {},
        AstView::Bin(op, l, r) => {
            lemma_eval_no_invalid_operator(*l);
            lemma_eval_no_invalid_operator(*r);
        },
    }
}

/// A node applying an operator to two literals evaluates to the direct
/// application of that operator to their values.
pub proof fn lemma_eval_bin_lit(op: char, a: int, b: int)
    ensures
        eval_spec(AstView::Bin(op, Box::new(AstView::Lit(a)), Box::new(AstView::Lit(b))))
            == apply_spec(op, a, b),
{
    assert(eval_spec(AstView::Lit(a)) == Ok::<int, Error>(a));
    assert(eval_spec(AstView::Lit(b)) == Ok::<int, Error>(b));
}

/// A tree whose image is a literal is a literal node carrying that value.
pub proof fn lemma_literal_image(t: AST)
    requires
        ast_view(t) is Lit,
    ensures
        t matches AST::Number(n) && n.value as int == ast_view(t)->Lit_0,
{
}

impl View for AST {
    type V = AstView;

    open spec fn view(&self) -> AstView {
        ast_view(*self)
    }
}

impl View for BinaryExpr {
    type V = AstView;

    open spec fn view(&self) -> AstView {
        AstView::Bin(self.op, Box::new(ast_view(*self.lhs)), Box::new(ast_view(*self.rhs)))
    }
}

/// Integer division truncated toward zero, as Rust's `/` computes it.
pub open spec fn trunc_div(a: int, b: int) -> int {
    if a == 0 {
        0
    } else if a > 0 && b > 0 {
        a / b
    } else if a < 0 && b < 0 {
        (a * -1) / (b * -1)
    } else if a < 0 {
        ((a * -1) / b) * -1
    } else {
        (a / (b * -1)) * -1
    }
}

/// What applying an operator to two fully evaluated operands yields: the
/// exact sum, difference, product, or truncating quotient.  Division by zero
/// and an unsupported operator are the two failure cases.
pub open spec fn apply_spec(op: char, l: int, r: int) -> Result<int, Error> {
    if op == '+' {
        Ok(l + r)
    } else if op == '-' {
        Ok(l - r)
    } else if op == '/' {
        if r == 0 {
            Err(Error::DivisionByZero)
        } else {
            Ok(trunc_div(l, r))
        }
    } else if op == '*' {
        Ok(l * r)
    } else {
        Err(Error::InvalidOperator)
    }
}

/// The value of a tree.  A literal evaluates to itself; an operator node
/// evaluates its left subtree, then its right, then applies the operator.
/// The first failure anywhere below propagates without a partial result.
pub open spec fn eval_spec(t: AstView) -> Result<int, Error>
    decreases t,
{
    match t {
        AstView::Lit(v) => Ok(v),
        AstView::Bin(op, l, r) => match eval_spec(*l) {
            Err(e) => Err(e),
            Ok(lv) => match eval_spec(*r) {
                Err(e) => Err(e),
                Ok(rv) => apply_spec(op, lv, rv),
            },
        },
    }
}

/// Every arithmetic step that evaluation of the tree actually reaches stays
/// within `i32`.  This is the machine-width side condition under which the
/// executable evaluator runs; it asks nothing of subtrees that evaluation
/// never reaches because an earlier failure aborts the run first.
pub open spec fn eval_fits(t: AstView) -> bool
    decreases t,
{
    match t {
        AstView::Lit(v) => i32::MIN <= v <= i32::MAX,
        AstView::Bin(op, l, r) => {
            &&& eval_fits(*l)
            &&& (eval_spec(*l) matches Ok(lv) ==> {
                &&& eval_fits(*r)
                &&& (eval_spec(*r) matches Ok(rv) ==> (apply_spec(op, lv, rv) matches Ok(v)
                    ==> i32::MIN <= v <= i32::MAX))
            })
        },
    }
}

impl BinaryExpr {
    /// Evaluates both subtrees to literals, left first, then applies the
    /// operator to their values.
    pub fn apply(self) -> (r: Result<AST, Error>)
        requires
            eval_fits(self@),
        ensures
            (match eval_spec(self@) {
                Ok(v) => r matches Ok(a) && a@ == AstView::Lit(v),
                Err(e) => r == Err::<AST, Error>(e),
            }),
        decreases self,
    {
        let lhs = *self.lhs;
        let rhs = *self.rhs;
        // A successful evaluation is always a literal node, so the fallback
        // arms below can never be reached.
        let left = match lhs.eval() {
            Ok(a) => match a {
                AST::Number(n) => n.value,
                _ => 0,
            },
            Err(e) => {
                return Err(e);
            },
        };
        let right = match rhs.eval() {
            Ok(a) => match a {
                AST::Number(n) => n.value,
                _ => 0,
            },
            Err(e) => {
                return Err(e);
            },
        };
        if self.op == '+' {
            Ok(AST::Number(Number { value: left + right }))
        } else if self.op == '-' {
            Ok(AST::Number(Number { value: left - right }))
        } else if self.op == '/' {
            if right == 0 {
                Err(Error::DivisionByZero)
            } else {
                // The one overflowing quotient, `i32::MIN / -1`, is ruled
                // out by the fits requirement, so the division succeeds.
                match left.checked_div(right) {
                    Some(q) => Ok(AST::Number(Number { value: q })),
                    None => Err(Error::DivisionByZero),
                }
            }
        } else if self.op == '*' {
            Ok(AST::Number(Number { value: left * right }))
        } else {
            Err(Error::InvalidOperator)
        }
    }
}

impl AST {
    /// Evaluates the tree to a single literal node, consuming it.
    pub fn eval(self) -> (r: Result<AST, Error>)
        requires
            eval_fits(self@),
        ensures
            (match eval_spec(self@) {
                Ok(v) => r matches Ok(a) && a@ == AstView::Lit(v),
                Err(e) => r == Err::<AST, Error>(e),
            }),
        decreases self,
    {
        match self {
            AST::Number(_) => Ok(self),
            AST::BinaryExpr(b) => b.apply(),
        }
    }

    /// The value of a fully evaluated tree; on a tree whose root is still an
    /// operator node, the fatal `NotFullyEvaluated`.
    pub fn into_i32(self) -> (r: Result<i32, Error>)
        ensures
            (match self {
                AST::Number(n) => r == Ok::<i32, Error>(n.value),
                AST::BinaryExpr(_) => r == Err::<i32, Error>(Error::NotFullyEvaluated),
            }),
    {
        match self {
            AST::Number(n) => Ok(n.value),
            AST::BinaryExpr(_) => Err(Error::NotFullyEvaluated),
        }
    }

    /// A structurally identical copy of the tree.
    pub fn clone_tree(&self) -> (r: AST)
        ensures
            r@ == self@,
        decreases self,
    {
        match self {
            AST::Number(n) => AST::Number(Number { value: n.value }),
            AST::BinaryExpr(b) => AST::BinaryExpr(
                BinaryExpr {
                    lhs: Box::new(b.lhs.clone_tree()),
                    op: b.op,
                    rhs: Box::new(b.rhs.clone_tree()),
                },
            ),
        }
    }
}

} // verus!
