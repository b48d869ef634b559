use vstd::prelude::*;

use crate::ast::{ast_view, eval_fits, eval_spec, lemma_literal_image, AstView, Number, AST};
use crate::builder::{build_ast, build_spec};
use crate::error::Error;
use crate::lexer::{lex_spec, literals_fit, tokenize};
use crate::rpn::{rpn_spec, to_rpn};
use crate::token::{token_views, Token, TokenView};

verus! {

/// The mathematical image of a parse run: the text, the two token sequences,
/// the tree, and the observability flag.
pub struct ParserView {
    pub expr: Seq<char>,
    pub tokens: Seq<TokenView>,
    pub rpn: Seq<TokenView>,
    pub ast: AstView,
    pub debug_enabled: bool,
}

/// The state of one parse run, carried from stage to stage: the original
/// text, the token sequence, the postfix sequence, and the tree built so far.
/// The debug flag only marks whether a front end should report intermediate
/// stages; no stage reads it, so it can never alter a parsing outcome.
pub struct Parser {
    expr: String,
    tokens: Vec<Token>,
    rpn: Vec<Token>,
    ast: AST,
    debug_enabled: bool,
}

impl View for Parser {
    type V = ParserView;

    closed spec fn view(&self) -> ParserView {
        ParserView {
            expr: self.expr@,
            tokens: token_views(self.tokens@),
            rpn: token_views(self.rpn@),
            ast: self.ast@,
            debug_enabled: self.debug_enabled,
        }
    }
}

impl Parser {
    /// A fresh parse run over the given text: no tokens yet, no postfix
    /// sequence, a zero literal standing where the tree will go, debug off.
    pub fn from(s: String) -> (p: Parser)
        ensures
            p@ == (ParserView {
                expr: s@,
                tokens: Seq::<TokenView>::empty(),
                rpn: Seq::<TokenView>::empty(),
                ast: AstView::Lit(0),
                debug_enabled: false,
            }),
    {
        let p = Parser {
            expr: s,
            tokens: Vec::new(),
            rpn: Vec::new(),
            ast: AST::Number(Number { value: 0 }),
            debug_enabled: false,
        };
        proof {
            assert(token_views(Seq::<Token>::empty()) =~= Seq::<TokenView>::empty());
        }
        p
    }

    /// Turns intermediate-stage reporting on; everything else is untouched.
    pub fn enable_debug(self) -> (p: Parser)
        ensures
            p@ == (ParserView { debug_enabled: true, ..self@ }),
    {
        Parser { debug_enabled: true, ..self }
    }

    /// Turns intermediate-stage reporting off; everything else is untouched.
    pub fn disable_debug(self) -> (p: Parser)
        ensures
            p@ == (ParserView { debug_enabled: false, ..self@ }),
    {
        Parser { debug_enabled: false, ..self }
    }

    /// Whether intermediate-stage reporting is on.
    pub fn debug_enabled(&self) -> (r: bool)
        ensures
            r == self@.debug_enabled,
    {
        self.debug_enabled
    }

    /// The lexing stage: the stored text becomes the stored token sequence.
    /// A failure aborts the run and yields no parser state at all.
    pub fn parse_tokens(self) -> (r: Result<Parser, Error>)
        requires
            literals_fit(self@.expr),
        ensures
            (match lex_spec(self@.expr) {
                Ok(ts) => r matches Ok(p) && p@ == (ParserView { tokens: ts, ..self@ }),
                Err(e) => r == Err::<Parser, Error>(e),
            }),
    {
        match tokenize(self.expr.as_str()) {
            Ok(ts) => Ok(Parser { tokens: ts, ..self }),
            Err(e) => Err(e),
        }
    }

    /// The conversion stage: the stored token sequence becomes the stored
    /// postfix sequence.  A failure aborts the run.
    pub fn parse_rpn(self) -> (r: Result<Parser, Error>)
        ensures
            (match rpn_spec(self@.tokens) {
                Ok(out) => r matches Ok(p) && p@ == (ParserView { rpn: out, ..self@ }),
                Err(e) => r == Err::<Parser, Error>(e),
            }),
    {
        match to_rpn(&self.tokens) {
            Ok(out) => Ok(Parser { rpn: out, ..self }),
            Err(e) => Err(e),
        }
    }

    /// The building stage: the stored postfix sequence becomes the stored
    /// tree.  A failure aborts the run.
    pub fn parse_ast(self) -> (r: Result<Parser, Error>)
        ensures
            (match build_spec(self@.rpn) {
                Ok(t) => r matches Ok(p) && p@ == (ParserView { ast: t, ..self@ }),
                Err(e) => r == Err::<Parser, Error>(e),
            }),
    {
        match build_ast(&self.rpn) {
            Ok(t) => Ok(Parser { ast: t, ..self }),
            Err(e) => Err(e),
        }
    }

    /// The tree built so far: a copy of it, the parser keeps its own.
    pub fn collect(&self) -> (r: AST)
        ensures
            r@ == self@.ast,
    {
        self.ast.clone_tree()
    }
}

/// The result the whole pipeline owes for a given text: lex, convert, build,
/// evaluate, the first failure anywhere aborting the run.
pub open spec fn pipeline_spec(s: Seq<char>) -> Result<int, Error> {
    match lex_spec(s) {
        Err(e) => Err(e),
        Ok(ts) => match rpn_spec(ts) {
            Err(e) => Err(e),
            Ok(rp) => match build_spec(rp) {
                Err(e) => Err(e),
                Ok(t) => eval_spec(t),
            },
        },
    }
}

/// The machine-width side conditions under which the executable pipeline
/// runs: every literal in the text fits in an `i32`, and so does every
/// intermediate value that evaluating the built tree computes.
pub open spec fn pipeline_fits(s: Seq<char>) -> bool {
    &&& literals_fit(s)
    &&& (match lex_spec(s) {
        Ok(ts) => match rpn_spec(ts) {
            Ok(rp) => match build_spec(rp) {
                Ok(t) => eval_fits(t),
                Err(_) => true,
            },
            Err(_) => true,
        },
        Err(_) => true,
    })
}

/// What `evaluate` promises of its result: exactly the pipeline's outcome.
pub open spec fn evaluate_post(s: Seq<char>, r: Result<i32, Error>) -> bool {
    match pipeline_spec(s) {
        Ok(v) => r matches Ok(x) && x as int == v,
        Err(e) => r == Err::<i32, Error>(e),
    }
}

/// Runs the four stages in order over the given text and extracts the one
/// integer the expression denotes, or the first error.
pub fn evaluate(s: &str) -> (r: Result<i32, Error>)
    requires
        pipeline_fits(s@),
    ensures
        evaluate_post(s@, r),
{
    let tokens = match tokenize(s) {
        Ok(t) => t,
        Err(e) => {
            return Err(e);
        },
    };
    let rpn = match to_rpn(&tokens) {
        Ok(t) => t,
        Err(e) => {
            return Err(e);
        },
    };
    let tree = match build_ast(&rpn) {
        Ok(t) => t,
        Err(e) => {
            return Err(e);
        },
    };
    let evaluated = match tree.eval() {
        Ok(a) => a,
        Err(e) => {
            return Err(e);
        },
    };
    proof {
        lemma_literal_image(evaluated);
    }
    evaluated.into_i32()
}

} // verus!
