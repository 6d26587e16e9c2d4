//! Recursive grammars and the ready-made parsers.

use parcom::parser::{Cont, ParseError, Parser, Value};
use parcom::utils::{
    alphabetic, alphanumeric, ascii_digit, chunk, digit, numeric, option, single, whitespace,
};

/// A grammar for balanced parentheses: a rule that is either an opening
/// parenthesis, itself, and a closing parenthesis, or empty.
fn parens() -> Parser {
    Parser::recurse(|inner: Parser| {
        Parser::choice(
            Parser::single('(').bind(Cont::Then(Box::new(inner.bind(Cont::Then(Box::new(
                Parser::single(')').bind(Cont::Then(Box::new(Parser::ret(Value::Unit)))),
            )))))),
            Parser::ret(Value::Unit),
        )
    })
}

#[test]
fn balanced_parentheses_parse_to_completion() {
    assert_eq!(parens().parse("(())"), Ok(Value::Unit));
    assert_eq!(parens().parse(""), Ok(Value::Unit));
}

#[test]
fn unbalanced_parentheses_fail_cleanly() {
    // Inside the nested attempt the closing parenthesis runs into the
    // end of the input; the choice then falls back to the empty
    // alternative, so the run reports the residual input rather than
    // hanging or overflowing the stack.
    assert_eq!(
        parens().parse("(()"),
        Err(ParseError::IncompleteParse(Box::new(Value::Unit)))
    );
}

#[test]
fn self_reference_without_progress_is_rejected() {
    // A rule defined as nothing but itself can never terminate; the
    // engine answers with RecursionError instead of looping forever.
    let p = Parser::recurse(|inner: Parser| inner);
    assert_eq!(p.parse("x"), Err(ParseError::RecursionError));
}

#[test]
fn single_helper_matches_one_character() {
    assert_eq!(single('x').parse("x"), Ok(Value::Ch('x')));
}

#[test]
fn chunk_helper_matches_a_literal() {
    assert_eq!(chunk("ab").parse("ab"), Ok(Value::Unit));
}

#[test]
fn ascii_digit_accepts_digits_only() {
    assert_eq!(ascii_digit().parse("3"), Ok(Value::Ch('3')));
    assert_eq!(ascii_digit().parse("x"), Err(ParseError::SatisfyError));
}

#[test]
fn digit_respects_the_radix() {
    assert_eq!(digit(16).parse("f"), Ok(Value::Ch('f')));
    assert_eq!(digit(16).parse("F"), Ok(Value::Ch('F')));
    assert_eq!(digit(10).parse("f"), Err(ParseError::SatisfyError));
    assert_eq!(digit(2).parse("2"), Err(ParseError::SatisfyError));
}

#[test]
fn numeric_matches_unicode_numerics() {
    assert_eq!(numeric().parse("5"), Ok(Value::Ch('5')));
    assert_eq!(numeric().parse("a"), Err(ParseError::SatisfyError));
}

#[test]
fn alphabetic_matches_unicode_letters() {
    assert_eq!(alphabetic().parse("x"), Ok(Value::Ch('x')));
    assert_eq!(alphabetic().parse("é"), Ok(Value::Ch('é')));
    assert_eq!(alphabetic().parse("1"), Err(ParseError::SatisfyError));
}

#[test]
fn alphanumeric_matches_letters_and_digits() {
    assert_eq!(alphanumeric().parse("x"), Ok(Value::Ch('x')));
    assert_eq!(alphanumeric().parse("7"), Ok(Value::Ch('7')));
    assert_eq!(alphanumeric().parse("!"), Err(ParseError::SatisfyError));
}

#[test]
fn whitespace_matches_blanks() {
    assert_eq!(whitespace().parse(" "), Ok(Value::Ch(' ')));
    assert_eq!(whitespace().parse("\t"), Ok(Value::Ch('\t')));
    assert_eq!(whitespace().parse("x"), Err(ParseError::SatisfyError));
}

#[test]
fn option_wraps_a_present_value() {
    assert_eq!(
        option(single('a')).parse("a"),
        Ok(Value::OptSome(Box::new(Value::Ch('a'))))
    );
}

#[test]
fn option_yields_none_without_consuming() {
    assert_eq!(option(single('a')).parse(""), Ok(Value::OptNone));
}

#[test]
fn separated_by_collects_the_elements() {
    let p = ascii_digit().separated_by(single(','));
    assert_eq!(
        p.parse("1,2,3"),
        Ok(Value::Items(vec![Value::Ch('1'), Value::Ch('2'), Value::Ch('3')]))
    );
}

#[test]
fn separated_by_single_element() {
    let p = ascii_digit().separated_by(single(','));
    assert_eq!(p.parse("7"), Ok(Value::Items(vec![Value::Ch('7')])));
}

#[test]
fn separated_by_rejects_a_trailing_separator() {
    // The trailing comma is not consumed (the failed pair attempt is
    // backtracked), so the run reports residual input.
    let p = ascii_digit().separated_by(single(','));
    assert_eq!(
        p.parse("1,2,"),
        Err(ParseError::IncompleteParse(Box::new(Value::Items(vec![
            Value::Ch('1'),
            Value::Ch('2'),
        ]))))
    );
}

#[test]
fn recursive_parser_is_reusable_across_parses() {
    let p = parens();
    assert_eq!(p.clone().parse("((()))"), Ok(Value::Unit));
    assert_eq!(p.parse("()"), Ok(Value::Unit));
}
