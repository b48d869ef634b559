use infix_eval::ast::{BinaryExpr, Number, AST};
use infix_eval::builder::build_ast;
use infix_eval::error::Error;
use infix_eval::lexer::tokenize;
use infix_eval::rpn::to_rpn;
use infix_eval::token::{get_precedence, is_operator, Token};

#[test]
fn tokenize_splits_text_into_tokens() {
    let tokens = tokenize("23 + 1").unwrap();
    assert_eq!(
        tokens,
        vec![Token::Number(23), Token::Operator('+'), Token::Number(1)]
    );
}

#[test]
fn tokenize_skips_all_whitespace() {
    assert_eq!(tokenize("2+3").unwrap(), tokenize("  2  +   3  ").unwrap());
}

#[test]
fn tokenize_accepts_the_largest_literal() {
    assert_eq!(tokenize("2147483647").unwrap(), vec![Token::Number(2147483647)]);
}

#[test]
fn tokenize_rejects_an_illegal_character() {
    assert_eq!(tokenize("2 + a"), Err(Error::LexError));
    assert_eq!(tokenize("#"), Err(Error::LexError));
}

#[test]
fn tokenize_of_empty_text_is_empty() {
    assert_eq!(tokenize("").unwrap(), vec![]);
    assert_eq!(tokenize("   ").unwrap(), vec![]);
}

#[test]
fn rpn_reorders_by_precedence() {
    let tokens = tokenize("2 + 3 * 4").unwrap();
    let rpn = to_rpn(&tokens).unwrap();
    assert_eq!(
        rpn,
        vec![
            Token::Number(2),
            Token::Number(3),
            Token::Number(4),
            Token::Operator('*'),
            Token::Operator('+'),
        ]
    );
}

#[test]
fn rpn_flushes_the_whole_stack() {
    let tokens = tokenize("2 * 4 + 3 * 2").unwrap();
    let rpn = to_rpn(&tokens).unwrap();
    assert_eq!(
        rpn,
        vec![
            Token::Number(2),
            Token::Number(4),
            Token::Operator('*'),
            Token::Number(3),
            Token::Number(2),
            Token::Operator('*'),
            Token::Operator('+'),
        ]
    );
}

#[test]
fn rpn_rejects_an_operator_without_precedence() {
    let tokens = vec![Token::Operator('%'), Token::Operator('+')];
    assert_eq!(to_rpn(&tokens), Err(Error::PrecedenceError));
}

#[test]
fn build_rejects_an_operator_without_precedence() {
    let tokens = vec![
        Token::Number(1),
        Token::Number(2),
        Token::Operator('%'),
        Token::Operator('+'),
    ];
    assert!(matches!(build_ast(&tokens), Err(Error::PrecedenceError)));
}

#[test]
fn build_rejects_too_few_operands() {
    let tokens = vec![Token::Number(1), Token::Operator('+'), Token::Operator('+')];
    assert!(matches!(build_ast(&tokens), Err(Error::TreeBuildError)));
}

#[test]
fn build_rejects_a_missing_operator() {
    let tokens = vec![Token::Number(1), Token::Number(2)];
    assert!(matches!(build_ast(&tokens), Err(Error::TreeBuildError)));
}

#[test]
fn build_combines_a_single_application() {
    let tokens = vec![Token::Number(6), Token::Number(7), Token::Operator('*')];
    let tree = build_ast(&tokens).unwrap();
    let value = tree.eval().unwrap().into_i32().unwrap();
    assert_eq!(value, 42);
}

#[test]
fn eval_keeps_a_literal() {
    let tree = AST::Number(Number { value: 11 });
    assert_eq!(tree.eval().unwrap().into_i32().unwrap(), 11);
}

#[test]
fn eval_rejects_an_unsupported_operator() {
    let tree = AST::BinaryExpr(BinaryExpr {
        lhs: Box::new(AST::Number(Number { value: 1 })),
        op: '%',
        rhs: Box::new(AST::Number(Number { value: 2 })),
    });
    assert!(matches!(tree.eval(), Err(Error::InvalidOperator)));
}

#[test]
fn eval_rejects_division_by_zero() {
    let tree = AST::BinaryExpr(BinaryExpr {
        lhs: Box::new(AST::Number(Number { value: 5 })),
        op: '/',
        rhs: Box::new(AST::Number(Number { value: 0 })),
    });
    assert!(matches!(tree.eval(), Err(Error::DivisionByZero)));
}

#[test]
fn into_i32_needs_a_fully_evaluated_tree() {
    let tree = AST::BinaryExpr(BinaryExpr {
        lhs: Box::new(AST::Number(Number { value: 1 })),
        op: '+',
        rhs: Box::new(AST::Number(Number { value: 2 })),
    });
    assert_eq!(tree.into_i32(), Err(Error::NotFullyEvaluated));
    assert_eq!(AST::Number(Number { value: 3 }).into_i32(), Ok(3));
}

#[test]
fn clone_tree_copies_structure() {
    let tree = AST::BinaryExpr(BinaryExpr {
        lhs: Box::new(AST::Number(Number { value: 8 })),
        op: '-',
        rhs: Box::new(AST::Number(Number { value: 3 })),
    });
    let copy = tree.clone_tree();
    assert_eq!(copy.eval().unwrap().into_i32().unwrap(), 5);
    assert_eq!(tree.eval().unwrap().into_i32().unwrap(), 5);
}

#[test]
fn division_truncates_toward_zero_for_negatives() {
    let div = |l: i32, r: i32| {
        AST::BinaryExpr(BinaryExpr {
            lhs: Box::new(AST::Number(Number { value: l })),
            op: '/',
            rhs: Box::new(AST::Number(Number { value: r })),
        })
        .eval()
        .unwrap()
        .into_i32()
        .unwrap()
    };
    assert_eq!(div(-7, 2), -3);
    assert_eq!(div(7, -2), -3);
    assert_eq!(div(-7, -2), 3);
    assert_eq!(div(7, 2), 3);
}

#[test]
fn operator_characters_are_recognised() {
    assert!(is_operator('+'));
    assert!(is_operator('-'));
    assert!(is_operator('*'));
    assert!(is_operator('/'));
    assert!(!is_operator('%'));
    assert!(!is_operator('2'));
}

#[test]
fn precedence_table() {
    assert_eq!(get_precedence('+'), Ok(1));
    assert_eq!(get_precedence('-'), Ok(1));
    assert_eq!(get_precedence('*'), Ok(2));
    assert_eq!(get_precedence('/'), Ok(2));
    assert_eq!(get_precedence('%'), Err(Error::PrecedenceError));
}
