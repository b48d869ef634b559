use vstd::prelude::*;

use crate::error::Error;

verus! {

/// A lexical token: an integer literal or a single-character operator.
#[derive(Clone, Copy, Debug, PartialEq, Eq, Structural)]
pub enum Token {
    Number(i32),
    Operator(char),
}

/// The mathematical image of a token; literal values are unbounded here, so
/// that the stage specifications owe nothing to the machine word.
pub enum TokenView {
    Num(int),
    Op(char),
}

impl View for Token {
    type V = TokenView;

    open spec fn view(&self) -> TokenView {
        match *self {
            Token::Number(n) => TokenView::Num(n as int),
            Token::Operator(c) => TokenView::Op(c),
        }
    }
}

/// The images of a whole token sequence.
pub open spec fn token_views(ts: Seq<Token>) -> Seq<TokenView> {
    ts.map_values(|t: Token| t@)
}

/// The four operator characters the language knows.
pub open spec fn is_op_char(c: char) -> bool {
    c == '+' || c == '-' || c == '*' || c == '/'
}

/// Binding strength of a supported operator: the multiplicative operators
/// bind tighter than the additive ones.
pub open spec fn spec_precedence(c: char) -> int {
    if c == '+' || c == '-' {
        1
    } else {
        2
    }
}

/// Every operator token in the sequence carries a supported operator.
pub open spec fn ops_valid(ts: Seq<TokenView>) -> bool {
    forall|k: int|
        0 <= k < ts.len() ==> ((#[trigger] ts[k]) matches TokenView::Op(c) ==> is_op_char(c))
}

/// Every character in the sequence is a supported operator.
pub open spec fn op_chars_valid(st: Seq<char>) -> bool {
    forall|k: int| 0 <= k < st.len() ==> is_op_char(#[trigger] st[k])
}

/// Putting a sound token in front of a sound sequence keeps it sound.
pub proof fn lemma_ops_valid_cons(t: TokenView, ts: Seq<TokenView>)
    requires
        t matches TokenView::Op(c) ==> is_op_char(c),
        ops_valid(ts),
    ensures
        ops_valid(seq![t] + ts),
{
    let r = seq![t] + ts;
    assert forall|k: int| 0 <= k < r.len() implies ((#[trigger] r[k]) matches TokenView::Op(c)
        ==> is_op_char(c)) by {
        if k > 0 {
            assert(r[k] == ts[k - 1]);
        }
    }
}

/// Appending a sound token to a sound sequence keeps it sound.
pub proof fn lemma_ops_valid_push(ts: Seq<TokenView>, t: TokenView)
    requires
        ops_valid(ts),
        t matches TokenView::Op(c) ==> is_op_char(c),
    ensures
        ops_valid(ts.push(t)),
{
    let r = ts.push(t);
    assert forall|k: int| 0 <= k < r.len() implies ((#[trigger] r[k]) matches TokenView::Op(c)
        ==> is_op_char(c)) by {
        if k < ts.len() {
            assert(r[k] == ts[k]);
        }
    }
}

/// Joining two sound sequences keeps them sound.
pub proof fn lemma_ops_valid_add(a: Seq<TokenView>, b: Seq<TokenView>)
    requires
        ops_valid(a),
        ops_valid(b),
    ensures
        ops_valid(a + b),
{
    let r = a + b;
    assert forall|k: int| 0 <= k < r.len() implies ((#[trigger] r[k]) matches TokenView::Op(c)
        ==> is_op_char(c)) by {
        if k < a.len() {
            assert(r[k] == a[k]);
        } else {
            assert(r[k] == b[k - a.len()]);
        }
    }
}

/// Whether a character is one of the four operator characters.
pub fn is_operator(c: char) -> (r: bool)
    ensures
        r == is_op_char(c),
{
    c == '+' || c == '-' || c == '/' || c == '*'
}

/// Precedence lookup.  An operator outside the four supported ones has no
/// precedence; asking for one is the fatal `PrecedenceError`.
pub fn get_precedence(c: char) -> (r: Result<i32, Error>)
    ensures
        is_op_char(c) ==> r == Ok::<i32, Error>(spec_precedence(c) as i32),
        !is_op_char(c) ==> r == Err::<i32, Error>(Error::PrecedenceError),
{
    if c == '+' || c == '-' {
        Ok(1)
    } else if c == '*' || c == '/' {
        Ok(2)
    } else {
        Err(Error::PrecedenceError)
    }
}

} // verus!
