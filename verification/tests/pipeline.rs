use infix_eval::error::Error;
use infix_eval::parser::{evaluate, Parser};

fn run(text: &str) -> Result<i32, Error> {
    evaluate(text)
}

#[test]
fn single_operator_addition() {
    assert_eq!(run("6 + 7"), Ok(13));
}

#[test]
fn single_operator_subtraction() {
    assert_eq!(run("9 - 4"), Ok(5));
}

#[test]
fn single_operator_multiplication() {
    assert_eq!(run("6 * 7"), Ok(42));
}

#[test]
fn single_operator_division() {
    assert_eq!(run("9 / 4"), Ok(2));
}

#[test]
fn negative_result_from_subtraction() {
    assert_eq!(run("1 - 2"), Ok(-1));
}

#[test]
fn precedence_flush_rule() {
    // Under the stack-flushing discipline the additive operator flushes the
    // whole stack before the multiplicative one completes, so this is not
    // the textbook 14.
    assert_eq!(run("2 + 3 * 4"), Ok(10));
}

#[test]
fn canonical_worked_example() {
    // The canonical regression expression, with the output the documented
    // flushing algorithm computes for it.
    assert_eq!(run("2 * 4 + 3 * 2"), Ok(26));
}

#[test]
fn mixed_precedence_left_to_right() {
    assert_eq!(run("1 - 2 + 3"), Ok(2));
}

#[test]
fn division_binds_tighter_than_subtraction() {
    assert_eq!(run("2 - 7 / 2"), Ok(-2));
}

#[test]
fn division_truncates_toward_zero() {
    assert_eq!(run("7 / 2"), Ok(3));
}

#[test]
fn division_of_zero() {
    assert_eq!(run("0 / 5"), Ok(0));
}

#[test]
fn unary_minus_is_out_of_scope() {
    // There is no unary minus: the leading operator leaves the builder one
    // operand short of its final combination.
    assert_eq!(run("-7 / 2"), Err(Error::TreeBuildError));
}

#[test]
fn division_by_zero_is_fatal() {
    assert_eq!(run("5 / 0"), Err(Error::DivisionByZero));
}

#[test]
fn division_by_zero_deep_in_the_tree() {
    assert_eq!(run("1 / 0 + 5"), Err(Error::DivisionByZero));
}

#[test]
fn illegal_character_is_fatal() {
    assert_eq!(run("2 + a"), Err(Error::LexError));
}

#[test]
fn whitespace_is_insignificant() {
    assert_eq!(run("2+3"), run("  2  +   3  "));
    assert_eq!(run("2+3"), Ok(5));
    assert_eq!(run("\t2\n+ 3\r"), Ok(5));
}

#[test]
fn multi_digit_literals() {
    assert_eq!(run("23 + 1"), Ok(24));
    assert_eq!(run("120 / 10"), Ok(12));
}

#[test]
fn empty_input_cannot_build_a_tree() {
    assert_eq!(run(""), Err(Error::TreeBuildError));
}

#[test]
fn lone_number_cannot_build_a_tree() {
    assert_eq!(run("5"), Err(Error::TreeBuildError));
}

#[test]
fn evaluation_is_idempotent() {
    let first = run("2 * 4 + 3 * 2");
    let second = run("2 * 4 + 3 * 2");
    assert_eq!(first, second);
}

#[test]
fn parser_chain_matches_direct_evaluation() {
    let ast = Parser::from(String::from("2 * 4 + 3 * 2"))
        .enable_debug()
        .parse_tokens()
        .unwrap()
        .parse_rpn()
        .unwrap()
        .disable_debug()
        .parse_ast()
        .unwrap()
        .collect();
    let value = ast.eval().unwrap().into_i32().unwrap();
    assert_eq!(value, 26);
    assert_eq!(run("2 * 4 + 3 * 2"), Ok(value));
}

#[test]
fn parser_runs_twice_identically() {
    let go = || {
        Parser::from(String::from("18 / 4 + 2"))
            .parse_tokens()
            .unwrap()
            .parse_rpn()
            .unwrap()
            .parse_ast()
            .unwrap()
            .collect()
            .eval()
            .unwrap()
            .into_i32()
            .unwrap()
    };
    assert_eq!(go(), go());
}

#[test]
fn debug_flag_never_alters_the_outcome() {
    let with_debug = Parser::from(String::from("2 + 3 * 4"))
        .enable_debug()
        .parse_tokens()
        .unwrap()
        .parse_rpn()
        .unwrap()
        .parse_ast()
        .unwrap()
        .collect()
        .eval()
        .unwrap()
        .into_i32()
        .unwrap();
    let without_debug = Parser::from(String::from("2 + 3 * 4"))
        .parse_tokens()
        .unwrap()
        .parse_rpn()
        .unwrap()
        .parse_ast()
        .unwrap()
        .collect()
        .eval()
        .unwrap()
        .into_i32()
        .unwrap();
    assert_eq!(with_debug, without_debug);
    assert_eq!(with_debug, 10);
}
