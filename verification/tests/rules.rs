use infix_to_postfix::cursor::Cursor;
use infix_to_postfix::error::ParseError;
use infix_to_postfix::translator::{expr, factor, number, operand_due, other, rest, term};

fn left(cursor: &mut Cursor) -> String {
    let mut text = String::new();
    while let Some(c) = cursor.next() {
        text.push(c);
    }
    text
}

#[test]
fn cursor_peeks_without_consuming() {
    let mut cursor = Cursor::new("ab");
    assert_eq!(cursor.peek(), Some('a'));
    assert_eq!(cursor.peek(), Some('a'));
    assert_eq!(cursor.next(), Some('a'));
    assert_eq!(cursor.peek(), Some('b'));
    assert_eq!(cursor.next(), Some('b'));
    assert_eq!(cursor.peek(), None);
    assert_eq!(cursor.next(), None);
    assert_eq!(cursor.next(), None);
}

#[test]
fn cursor_over_nothing() {
    let mut cursor = Cursor::new("");
    assert_eq!(cursor.peek(), None);
    assert_eq!(cursor.next(), None);
}

#[test]
fn cursor_keeps_the_line_end_unless_asked() {
    let mut whole = Cursor::new("1\r\n");
    assert_eq!(left(&mut whole), "1\r\n");
    let mut line = Cursor::for_line("1\r\n");
    assert_eq!(left(&mut line), "1");
    let mut inner = Cursor::for_line("\n1\n\r\n\n");
    assert_eq!(left(&mut inner), "\n1");
    let mut blank = Cursor::for_line("\n\r\n");
    assert_eq!(blank.peek(), None);
}

#[test]
fn cursor_reads_characters_not_bytes() {
    let mut cursor = Cursor::new("é1");
    assert_eq!(cursor.next(), Some('é'));
    assert_eq!(cursor.next(), Some('1'));
    assert_eq!(cursor.next(), None);
}

#[test]
fn number_stops_behind_the_number() {
    let mut cursor = Cursor::new("3.14*2");
    assert_eq!(number(&mut cursor), Ok("3.14".to_string()));
    assert_eq!(left(&mut cursor), "*2");

    let mut cursor = Cursor::new("12e-3e4");
    assert_eq!(number(&mut cursor), Ok("12e-3".to_string()));
    assert_eq!(left(&mut cursor), "e4");

    let mut cursor = Cursor::new("1+2");
    assert_eq!(number(&mut cursor), Ok("1".to_string()));
    assert_eq!(left(&mut cursor), "+2");
}

#[test]
fn number_needs_a_digit_first() {
    assert_eq!(number(&mut Cursor::new("")), Err(ParseError::PrematureEndOfInput));
    assert_eq!(
        number(&mut Cursor::new(".5")),
        Err(ParseError::UnexpectedCharacter { found: '.' })
    );
    assert_eq!(
        number(&mut Cursor::new("-5")),
        Err(ParseError::UnexpectedCharacter { found: '-' })
    );
}

#[test]
fn factor_reads_one_number_or_one_group() {
    let mut cursor = Cursor::new("(1+2)*3");
    assert_eq!(factor(&mut cursor), Ok("12+".to_string()));
    assert_eq!(left(&mut cursor), "*3");

    let mut cursor = Cursor::new("7*3");
    assert_eq!(factor(&mut cursor), Ok("7".to_string()));
    assert_eq!(left(&mut cursor), "*3");
}

#[test]
fn factor_reads_nothing_where_none_begins() {
    let mut cursor = Cursor::new("*3");
    assert_eq!(factor(&mut cursor), Ok(String::new()));
    assert_eq!(left(&mut cursor), "*3");

    let mut cursor = Cursor::new(")");
    assert_eq!(factor(&mut cursor), Ok(String::new()));
    assert_eq!(left(&mut cursor), ")");
}

#[test]
fn factor_reads_nothing_at_the_end_of_the_line() {
    let mut cursor = Cursor::new("");
    assert_eq!(factor(&mut cursor), Ok(String::new()));
    assert_eq!(cursor.peek(), None);

    let mut cursor = Cursor::new("1");
    assert_eq!(cursor.next(), Some('1'));
    assert_eq!(factor(&mut cursor), Ok(String::new()));
    assert_eq!(cursor.next(), None);
}

#[test]
fn operand_missing_at_the_end_of_the_line() {
    assert_eq!(term(&mut Cursor::new("")), Err(ParseError::PrematureEndOfInput));
    assert_eq!(expr(&mut Cursor::new("")), Err(ParseError::PrematureEndOfInput));
    assert_eq!(other(&mut Cursor::new("*")), Err(ParseError::PrematureEndOfInput));
    assert_eq!(other(&mut Cursor::new("*2/")), Err(ParseError::PrematureEndOfInput));
    assert_eq!(rest(&mut Cursor::new("+")), Err(ParseError::PrematureEndOfInput));
    assert_eq!(rest(&mut Cursor::new("+1*")), Err(ParseError::PrematureEndOfInput));
    assert_eq!(factor(&mut Cursor::new("(")), Err(ParseError::PrematureEndOfInput));
    assert_eq!(factor(&mut Cursor::new("(1+")), Err(ParseError::PrematureEndOfInput));
}

#[test]
fn operand_missing_inside_the_line() {
    let mut cursor = Cursor::new("*+1");
    assert_eq!(other(&mut cursor), Err(ParseError::UnexpectedCharacter { found: '+' }));
    assert_eq!(cursor.peek(), Some('+'));

    let mut cursor = Cursor::new("+)");
    assert_eq!(rest(&mut cursor), Err(ParseError::UnexpectedCharacter { found: ')' }));
    assert_eq!(cursor.peek(), Some(')'));

    let mut cursor = Cursor::new("*2");
    assert_eq!(term(&mut cursor), Err(ParseError::UnexpectedCharacter { found: '*' }));
    assert_eq!(cursor.peek(), Some('*'));

    let mut cursor = Cursor::new("-1");
    assert_eq!(expr(&mut cursor), Err(ParseError::UnexpectedCharacter { found: '-' }));
    assert_eq!(cursor.peek(), Some('-'));

    assert_eq!(
        factor(&mut Cursor::new("()")),
        Err(ParseError::UnexpectedCharacter { found: ')' })
    );
}

#[test]
fn operand_due_looks_and_consumes_nothing() {
    let cursor = Cursor::new("(1)");
    assert_eq!(operand_due(&cursor), Ok(()));
    assert_eq!(cursor.peek(), Some('('));
    assert_eq!(operand_due(&Cursor::new("7")), Ok(()));
    assert_eq!(operand_due(&Cursor::new("")), Err(ParseError::PrematureEndOfInput));
    assert_eq!(
        operand_due(&Cursor::new("+1")),
        Err(ParseError::UnexpectedCharacter { found: '+' })
    );
    assert_eq!(
        operand_due(&Cursor::new(")")),
        Err(ParseError::UnexpectedCharacter { found: ')' })
    );
}

#[test]
fn factor_wants_its_group_closed() {
    assert_eq!(factor(&mut Cursor::new("(1")), Err(ParseError::PrematureEndOfInput));
    assert_eq!(
        factor(&mut Cursor::new("(1;")),
        Err(ParseError::UnmatchedParenthesis { found: ';' })
    );
}

#[test]
fn other_reads_the_factors_behind_the_first() {
    let mut cursor = Cursor::new("*2/3+4");
    assert_eq!(other(&mut cursor), Ok("2*3/".to_string()));
    assert_eq!(left(&mut cursor), "+4");

    let mut cursor = Cursor::new("+4");
    assert_eq!(other(&mut cursor), Ok(String::new()));
    assert_eq!(left(&mut cursor), "+4");

    assert_eq!(other(&mut Cursor::new("")), Ok(String::new()));
    assert_eq!(other(&mut Cursor::new("*")), Err(ParseError::PrematureEndOfInput));
}

#[test]
fn term_stops_before_an_additive_operator() {
    let mut cursor = Cursor::new("2*3/4-5");
    assert_eq!(term(&mut cursor), Ok("23*4/".to_string()));
    assert_eq!(left(&mut cursor), "-5");
    assert_eq!(term(&mut Cursor::new("")), Err(ParseError::PrematureEndOfInput));
}

#[test]
fn rest_reads_the_terms_behind_the_first() {
    let mut cursor = Cursor::new("+2*3-4)");
    assert_eq!(rest(&mut cursor), Ok("23*+4-".to_string()));
    assert_eq!(left(&mut cursor), ")");

    let mut cursor = Cursor::new("*4");
    assert_eq!(rest(&mut cursor), Ok(String::new()));
    assert_eq!(left(&mut cursor), "*4");

    assert_eq!(rest(&mut Cursor::new("")), Ok(String::new()));
    assert_eq!(rest(&mut Cursor::new("-")), Err(ParseError::PrematureEndOfInput));
}

#[test]
fn expr_stops_where_the_expression_ends() {
    let mut cursor = Cursor::new("1+2*3)rest");
    assert_eq!(expr(&mut cursor), Ok("123*+".to_string()));
    assert_eq!(left(&mut cursor), ")rest");
    assert_eq!(expr(&mut Cursor::new("")), Err(ParseError::PrematureEndOfInput));
}

#[test]
fn cursor_never_moves_back() {
    let mut cursor = Cursor::new("(1+2");
    assert_eq!(expr(&mut cursor), Err(ParseError::PrematureEndOfInput));
    assert_eq!(cursor.peek(), None);

    let mut cursor = Cursor::new("1.x+2");
    assert_eq!(expr(&mut cursor), Err(ParseError::UnexpectedCharacter { found: 'x' }));
    assert_eq!(left(&mut cursor), "x+2");
}
