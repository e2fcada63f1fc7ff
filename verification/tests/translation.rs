use infix_to_postfix::error::ParseError;
use infix_to_postfix::translator::translate;

fn ok(text: &str) -> Result<String, ParseError> {
    Ok(text.to_string())
}

#[test]
fn single_digit_is_its_own_translation() {
    for d in ["0", "1", "2", "3", "4", "5", "6", "7", "8", "9"] {
        assert_eq!(translate(d), ok(d));
    }
}

#[test]
fn equal_precedence_chain_is_left_associative() {
    assert_eq!(translate("1+2-3"), ok("12+3-"));
    assert_eq!(translate("8/4*2"), ok("84/2*"));
    assert_eq!(translate("1-2-3-4"), ok("12-3-4-"));
}

#[test]
fn multiplication_binds_tighter_than_addition() {
    assert_eq!(translate("1+2*3"), ok("123*+"));
    assert_eq!(translate("1*2+3"), ok("12*3+"));
    assert_eq!(translate("1+2*3-4/5"), ok("123*+45/-"));
}

#[test]
fn parentheses_regroup_and_vanish() {
    assert_eq!(translate("(1+2)*3"), ok("12+3*"));
    assert_eq!(translate("1*(2+3)"), ok("123+*"));
    assert_eq!(translate("((7))"), ok("7"));
    assert_eq!(translate("(1+2)*(3-4)"), ok("12+34-*"));
}

#[test]
fn output_holds_no_parenthesis() {
    for line in ["(1)", "((1+2)*3)", "(1+(2*(3-(4/5))))", "((1))+((2))"] {
        let out = translate(line).unwrap();
        assert!(!out.contains('(') && !out.contains(')'), "{}", out);
    }
}

#[test]
fn line_end_is_not_part_of_the_expression() {
    assert_eq!(translate("1+2\n"), ok("12+"));
    assert_eq!(translate("1+2\r\n"), ok("12+"));
    assert_eq!(translate("1+2\n\n"), ok("12+"));
    assert_eq!(translate("1+2\r"), ok("12+"));
}

#[test]
fn only_the_end_of_the_line_is_trimmed() {
    assert_eq!(translate(" 1+2"), Err(ParseError::UnexpectedCharacter { found: ' ' }));
    assert_eq!(translate("1+2 \n"), Err(ParseError::UnconsumedTrailingInput { found: ' ' }));
    assert_eq!(translate("1\n+2"), Err(ParseError::UnconsumedTrailingInput { found: '\n' }));
}

#[test]
fn unclosed_group_is_rejected() {
    assert_eq!(translate("(1+2"), Err(ParseError::PrematureEndOfInput));
    assert_eq!(translate("(1+2\n"), Err(ParseError::PrematureEndOfInput));
    assert_eq!(translate("1+(2*(3+4)"), Err(ParseError::PrematureEndOfInput));
    assert_eq!(translate("("), Err(ParseError::PrematureEndOfInput));
}

#[test]
fn group_closed_by_something_else_is_rejected() {
    assert_eq!(translate("(1+2]"), Err(ParseError::UnmatchedParenthesis { found: ']' }));
    assert_eq!(translate("(1 2)"), Err(ParseError::UnmatchedParenthesis { found: ' ' }));
    assert_eq!(translate("(1(2))"), Err(ParseError::UnmatchedParenthesis { found: '(' }));
}

#[test]
fn open_parenthesis_that_is_never_reached() {
    assert_eq!(translate("1("), Err(ParseError::UnconsumedTrailingInput { found: '(' }));
}

#[test]
fn trailing_garbage_is_rejected() {
    assert_eq!(translate("1+2)"), Err(ParseError::UnconsumedTrailingInput { found: ')' }));
    assert_eq!(translate("1+2x"), Err(ParseError::UnconsumedTrailingInput { found: 'x' }));
    assert_eq!(translate("(1)2"), Err(ParseError::UnconsumedTrailingInput { found: '2' }));
    assert_eq!(translate("1.5.2"), Err(ParseError::UnconsumedTrailingInput { found: '.' }));
    assert_eq!(translate("1e5e2"), Err(ParseError::UnconsumedTrailingInput { found: 'e' }));
}

#[test]
fn empty_line_is_rejected() {
    assert_eq!(translate(""), Err(ParseError::PrematureEndOfInput));
    assert_eq!(translate("\n"), Err(ParseError::PrematureEndOfInput));
    assert_eq!(translate("\r\n"), Err(ParseError::PrematureEndOfInput));
}

#[test]
fn missing_operand_at_the_end_is_rejected() {
    assert_eq!(translate("1+"), Err(ParseError::PrematureEndOfInput));
    assert_eq!(translate("1*"), Err(ParseError::PrematureEndOfInput));
    assert_eq!(translate("(1+"), Err(ParseError::PrematureEndOfInput));
    assert_eq!(translate("1+2*"), Err(ParseError::PrematureEndOfInput));
}

#[test]
fn missing_operand_inside_the_line_is_rejected() {
    assert_eq!(translate("1+*2"), Err(ParseError::UnexpectedCharacter { found: '*' }));
    assert_eq!(translate("1**2"), Err(ParseError::UnexpectedCharacter { found: '*' }));
    assert_eq!(translate("1++2"), Err(ParseError::UnexpectedCharacter { found: '+' }));
    assert_eq!(translate("+1"), Err(ParseError::UnexpectedCharacter { found: '+' }));
    assert_eq!(translate("-1"), Err(ParseError::UnexpectedCharacter { found: '-' }));
    assert_eq!(translate("*1"), Err(ParseError::UnexpectedCharacter { found: '*' }));
    assert_eq!(translate("()"), Err(ParseError::UnexpectedCharacter { found: ')' }));
    assert_eq!(translate("(+)"), Err(ParseError::UnexpectedCharacter { found: '+' }));
    assert_eq!(translate("1+)"), Err(ParseError::UnexpectedCharacter { found: ')' }));
    assert_eq!(translate("(1+)"), Err(ParseError::UnexpectedCharacter { found: ')' }));
    assert_eq!(translate("1*(2+)"), Err(ParseError::UnexpectedCharacter { found: ')' }));
    assert_eq!(translate("+"), Err(ParseError::UnexpectedCharacter { found: '+' }));
    assert_eq!(translate("x"), Err(ParseError::UnexpectedCharacter { found: 'x' }));
    assert_eq!(translate(".5"), Err(ParseError::UnexpectedCharacter { found: '.' }));
    assert_eq!(translate("1+ 2"), Err(ParseError::UnexpectedCharacter { found: ' ' }));
}

#[test]
fn numbers_are_copied_as_written() {
    assert_eq!(translate("42"), ok("42"));
    assert_eq!(translate("3.14"), ok("3.14"));
    assert_eq!(translate("9e9"), ok("9e9"));
    assert_eq!(translate("2E3"), ok("2E3"));
    assert_eq!(translate("5.55e-1"), ok("5.55e-1"));
    assert_eq!(translate("1e+10"), ok("1e+10"));
    assert_eq!(translate("007"), ok("007"));
}

#[test]
fn numbers_in_an_expression() {
    assert_eq!(translate("12+3"), ok("123+"));
    assert_eq!(translate("1.5*2e3"), ok("1.52e3*"));
    assert_eq!(translate("2e3-4"), ok("2e34-"));
    assert_eq!(translate("2e-3-4"), ok("2e-34-"));
    assert_eq!(
        translate("9e9-5e2+(2e3+3.14*114.321)*7.1/9*(9.1+5.55e-1)"),
        ok("9e95e2-2e33.14114.321*+7.1*9/9.15.55e-1+*+")
    );
}

#[test]
fn number_cut_short_is_rejected() {
    assert_eq!(translate("1."), Err(ParseError::PrematureEndOfInput));
    assert_eq!(translate("1e"), Err(ParseError::PrematureEndOfInput));
    assert_eq!(translate("1e+"), Err(ParseError::PrematureEndOfInput));
    assert_eq!(translate("1.5e-"), Err(ParseError::PrematureEndOfInput));
    assert_eq!(translate("1+2e"), Err(ParseError::PrematureEndOfInput));
}

#[test]
fn number_with_a_character_out_of_place_is_rejected() {
    assert_eq!(translate("1.x"), Err(ParseError::UnexpectedCharacter { found: 'x' }));
    assert_eq!(translate("1.+2"), Err(ParseError::UnexpectedCharacter { found: '+' }));
    assert_eq!(translate("1ex"), Err(ParseError::UnexpectedCharacter { found: 'x' }));
    assert_eq!(translate("1e+-2"), Err(ParseError::UnexpectedCharacter { found: '-' }));
    assert_eq!(translate("1e)"), Err(ParseError::UnexpectedCharacter { found: ')' }));
    assert_eq!(translate("(1.)"), Err(ParseError::UnexpectedCharacter { found: ')' }));
}

#[test]
fn first_fault_is_reported() {
    assert_eq!(translate("(1.x"), Err(ParseError::UnexpectedCharacter { found: 'x' }));
    assert_eq!(translate("(1]+2."), Err(ParseError::UnmatchedParenthesis { found: ']' }));
    assert_eq!(translate("1)+(2"), Err(ParseError::UnconsumedTrailingInput { found: ')' }));
}

#[test]
fn messages_name_the_character() {
    assert_eq!(
        ParseError::UnconsumedTrailingInput { found: ')' }.message(),
        "invalid input source code: )"
    );
    assert_eq!(
        ParseError::UnmatchedParenthesis { found: ']' }.message(),
        "missing ')' in source code before: ]"
    );
    assert_eq!(
        ParseError::UnexpectedCharacter { found: 'x' }.message(),
        "unexpected character in source code: x"
    );
    assert_eq!(ParseError::PrematureEndOfInput.message(), "unexpected end of source code");
}
