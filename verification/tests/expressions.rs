use rustack::brackets::is_balanced;
use rustack::brackets::par_checker;
use rustack::brackets::par_match;
use rustack::calc::do_calc;
use rustack::calc::evaluate;
use rustack::calc::expression_calc;
use rustack::calc::infix_to_postfix;
use rustack::calc::postfix_eval;
use rustack::calc::tokenize;
use rustack::calc::CalcError;

#[test]
fn balanced_round_brackets() {
    assert!(par_checker("(()()()())"));
    assert!(par_checker("(((())))"));
    assert!(par_checker("(()((())()))"));
    assert!(!par_checker("((((((())"));
    assert!(!par_checker("()))"));
    assert!(!par_checker("(()()(()"));
}

#[test]
fn balanced_mixed_brackets() {
    assert!(par_checker("{ { ( [ ] [ ] ) } ( ) }"));
    assert!(par_checker("[ [ { { ( ( ) ) } } ] ]"));
    assert!(!par_checker("( ] "));
    assert!(!par_checker("( [ ) ]"));
    assert!(!par_checker("[ { ( } ) ]"));
}

#[test]
fn non_bracket_characters_are_ignored() {
    assert!(is_balanced("a (b) [c] {d} e"));
    assert!(!is_balanced("a (b] c"));
}

#[test]
fn balanced_empty_text() {
    assert!(is_balanced(""));
    assert!(par_checker(""));
}

#[test]
fn inserting_a_closer_breaks_balance() {
    // "( )" is balanced; one extra closer at any position breaks it.
    assert!(is_balanced("( )"));
    assert!(!is_balanced(") ( )"));
    assert!(!is_balanced("( ) )"));
    assert!(!is_balanced("(] )"));
    assert!(!is_balanced("( )}"));
}

#[test]
fn par_match_uses_position_parity() {
    assert!(par_match('(', ')'));
    assert!(par_match('[', ']'));
    assert!(par_match('{', '}'));
    assert!(!par_match('(', ']'));
    assert!(!par_match('[', '}'));
    assert!(!par_match('{', ')'));
    // Characters outside both alphabets share the absent index.
    assert!(par_match('x', 'y'));
}

#[test]
fn tokenize_splits_on_whitespace() {
    let toks = tokenize("12  +\tx ");
    assert_eq!(toks, vec![vec!['1', '2'], vec!['+'], vec!['x']]);
    assert!(tokenize("").is_empty());
    assert!(tokenize("   ").is_empty());
}

#[test]
fn conversion_left_associativity() {
    assert_eq!(infix_to_postfix("8 - 3 - 2"), Ok(String::from("8 3 - 2 -")));
}

#[test]
fn conversion_precedence() {
    assert_eq!(infix_to_postfix("2 + 3 * 4"), Ok(String::from("2 3 4 * +")));
}

#[test]
fn conversion_grouping() {
    assert_eq!(
        infix_to_postfix("( 2 + 3 ) * 4"),
        Ok(String::from("2 3 + 4 *"))
    );
    assert_eq!(
        infix_to_postfix("( ( 2 + 3 ) * 4 )"),
        Ok(String::from("2 3 + 4 *"))
    );
}

#[test]
fn conversion_letter_operands() {
    assert_eq!(
        infix_to_postfix("A + B * C"),
        Ok(String::from("A B C * +"))
    );
}

#[test]
fn conversion_empty_input() {
    assert_eq!(infix_to_postfix(""), Ok(String::new()));
}

#[test]
fn conversion_rejects_unbalanced() {
    assert_eq!(infix_to_postfix("( 2 + 3"), Err(CalcError::Unbalanced));
    assert_eq!(infix_to_postfix("2 + 3 )"), Err(CalcError::Unbalanced));
    assert_eq!(infix_to_postfix("( 2 + 3 ) )"), Err(CalcError::Unbalanced));
}

#[test]
fn conversion_rejects_unknown_tokens() {
    assert_eq!(infix_to_postfix("2 ^ 3"), Err(CalcError::UnknownOperator));
    // Operands are single characters; a longer token has no meaning.
    assert_eq!(infix_to_postfix("10 + 2"), Err(CalcError::UnknownOperator));
}

#[test]
fn evaluation_left_associativity() {
    assert_eq!(postfix_eval("8 3 - 2 -"), Ok(3));
}

#[test]
fn evaluation_precedence() {
    assert_eq!(postfix_eval("2 3 4 * +"), Ok(14));
}

#[test]
fn evaluation_grouping() {
    assert_eq!(postfix_eval("2 3 + 4 *"), Ok(20));
}

#[test]
fn evaluation_division_by_zero_is_fatal() {
    assert_eq!(postfix_eval("4 0 /"), Err(CalcError::DivisionByZero));
}

#[test]
fn evaluation_too_short() {
    assert_eq!(postfix_eval(""), Err(CalcError::TooShort));
    assert_eq!(postfix_eval("2 3"), Err(CalcError::TooShort));
}

#[test]
fn evaluation_underflow() {
    assert_eq!(postfix_eval("+ 1 2"), Err(CalcError::StackUnderflow));
    assert_eq!(postfix_eval("A B +"), Err(CalcError::StackUnderflow));
}

#[test]
fn evaluation_keeps_top_of_leftovers() {
    // Like the value stack itself, the evaluator returns the top element
    // even when more operands than needed were supplied.
    assert_eq!(postfix_eval("9 8 7"), Ok(7));
}

#[test]
fn do_calc_arithmetic() {
    assert_eq!(do_calc("+", 2, 3), Ok(5));
    assert_eq!(do_calc("-", 2, 3), Ok(-1));
    assert_eq!(do_calc("*", 4, 5), Ok(20));
    assert_eq!(do_calc("/", 7, 2), Ok(3));
    assert_eq!(do_calc("/", -7, 2), Ok(-3));
    assert_eq!(do_calc("/", 7, -2), Ok(-3));
}

#[test]
fn do_calc_error_kinds() {
    assert_eq!(do_calc("/", 4, 0), Err(CalcError::DivisionByZero));
    assert_eq!(do_calc("%", 1, 2), Err(CalcError::UnknownOperator));
    assert_eq!(do_calc("++", 1, 2), Err(CalcError::UnknownOperator));
    assert_eq!(do_calc("+", i32::MAX, 1), Err(CalcError::Overflow));
    assert_eq!(do_calc("-", i32::MIN, 1), Err(CalcError::Overflow));
    assert_eq!(do_calc("*", 65536, 65536), Err(CalcError::Overflow));
    assert_eq!(do_calc("/", i32::MIN, -1), Err(CalcError::Overflow));
}

#[test]
fn evaluate_pipeline() {
    assert_eq!(evaluate("8 - 3 - 2"), Ok(3));
    assert_eq!(evaluate("2 + 3 * 4"), Ok(14));
    assert_eq!(evaluate("( 2 + 3 ) * 4"), Ok(20));
    assert_eq!(expression_calc("( ( 2 + 3 ) * 4 )"), Ok(20));
    assert_eq!(evaluate("4 / 0"), Err(CalcError::DivisionByZero));
    assert_eq!(evaluate("( 2 + 3"), Err(CalcError::Unbalanced));
}

#[test]
fn evaluate_single_operand_is_too_short() {
    // A lone operand converts to a one-character postfix text, shorter than
    // the two operands and one operator an evaluation needs.
    assert_eq!(evaluate("7"), Err(CalcError::TooShort));
}

#[test]
fn evaluate_overflow() {
    assert_eq!(
        evaluate("9 * 9 * 9 * 9 * 9 * 9 * 9 * 9 * 9 * 9"),
        Err(CalcError::Overflow)
    );
}

#[test]
fn postfix_round_trip() {
    // Evaluating the postfix form gives the same integer as evaluating the
    // infix expression directly.
    for expr in [
        "8 - 3 - 2",
        "2 + 3 * 4",
        "( 2 + 3 ) * 4",
        "9 / 2 + 1",
        "( 8 - 2 ) / ( 1 + 2 )",
    ] {
        let postfix = infix_to_postfix(expr).unwrap();
        assert_eq!(postfix_eval(&postfix), evaluate(expr));
    }
}
