//! Behavior of the core engine: primitives, monadic composition,
//! choice, repetition, concatenation, and the error taxonomy.

use parcom::parser::{Cont, Cursor, ParseError, Parser, Pred, Transform, Value};

#[test]
fn single_matches_and_yields_the_character() {
    assert_eq!(Parser::single('a').parse("a"), Ok(Value::Ch('a')));
}

#[test]
fn single_reports_found_and_expected() {
    assert_eq!(
        Parser::single('a').parse("b"),
        Err(ParseError::WrongSingle('b', 'a'))
    );
}

#[test]
fn single_at_end_of_input_fails_with_iteration_error() {
    assert_eq!(Parser::single('a').parse(""), Err(ParseError::IterationError));
}

#[test]
fn chunk_matches_whole_literal() {
    assert_eq!(Parser::chunk("ab").parse("ab"), Ok(Value::Unit));
}

#[test]
fn chunk_partial_match_diagnostics() {
    // The "found" text holds every consumed character, including the
    // mismatching one; the expected text is the whole literal.
    assert_eq!(
        Parser::chunk("abc").parse("abd"),
        Err(ParseError::WrongChunk(vec!['a', 'b', 'd'], vec!['a', 'b', 'c']))
    );
}

#[test]
fn chunk_running_out_of_input_fails_with_iteration_error() {
    assert_eq!(Parser::chunk("abc").parse("ab"), Err(ParseError::IterationError));
}

#[test]
fn chunk_handles_multibyte_characters() {
    assert_eq!(Parser::chunk("héllo").parse("héllo"), Ok(Value::Unit));
}

#[test]
fn run_requires_full_consumption() {
    // The literal itself matches its two units, but the run fails
    // because input is left over; the produced value rides along.
    assert_eq!(
        Parser::chunk("ab").parse("abc"),
        Err(ParseError::IncompleteParse(Box::new(Value::Unit)))
    );
}

#[test]
fn parse_is_deterministic() {
    let p = Parser::chunk("abc");
    let first = p.clone().parse("abd");
    let second = p.parse("abd");
    assert_eq!(first, second);
}

#[test]
fn ret_consumes_nothing_and_copies_its_value() {
    assert_eq!(Parser::ret(Value::Ch('z')).parse(""), Ok(Value::Ch('z')));
}

#[test]
fn map_wraps_value_into_optional() {
    assert_eq!(
        Parser::single('a').map(Transform::WrapSome).parse("a"),
        Ok(Value::OptSome(Box::new(Value::Ch('a'))))
    );
}

#[test]
fn map_discards_value_to_unit() {
    assert_eq!(Parser::single('a').map(Transform::ToUnit).parse("a"), Ok(Value::Unit));
}

#[test]
fn map_propagates_failure_unchanged() {
    assert_eq!(
        Parser::single('a').map(Transform::WrapSome).parse("b"),
        Err(ParseError::WrongSingle('b', 'a'))
    );
}

#[test]
fn bind_then_runs_the_continuation_parser() {
    let p = Parser::single('a').bind(Cont::Then(Box::new(Parser::single('b'))));
    assert_eq!(p.parse("ab"), Ok(Value::Ch('b')));
}

#[test]
fn bind_keep_val_yields_the_first_value() {
    let p = Parser::single('a').bind(Cont::KeepVal(Box::new(Parser::single('b'))));
    assert_eq!(p.parse("ab"), Ok(Value::Ch('a')));
}

#[test]
fn bind_prepend_rest_builds_a_sequence() {
    let rest = Parser::single('b').repeat(None, None);
    let p = Parser::single('a').bind(Cont::PrependRest(Box::new(rest)));
    assert_eq!(
        p.parse("abb"),
        Ok(Value::Items(vec![Value::Ch('a'), Value::Ch('b'), Value::Ch('b')]))
    );
}

#[test]
fn bind_short_circuits_on_failure() {
    let p = Parser::single('a').bind(Cont::Then(Box::new(Parser::single('b'))));
    assert_eq!(p.parse("xb"), Err(ParseError::WrongSingle('x', 'a')));
}

#[test]
fn choice_takes_the_first_branch_when_it_succeeds() {
    // The branches accept the same character but tag their results
    // differently, so the result shows which branch ran: always the
    // first listed one.
    let p = Parser::choice(
        Parser::single('a').map(Transform::WrapSome),
        Parser::single('a'),
    );
    assert_eq!(p.parse("a"), Ok(Value::OptSome(Box::new(Value::Ch('a')))));
}

#[test]
fn choice_falls_back_to_the_second_branch() {
    let p = Parser::choice(Parser::single('a'), Parser::single('b'));
    assert_eq!(p.parse("b"), Ok(Value::Ch('b')));
}

#[test]
fn choice_backtracks_consumed_input_of_a_failed_branch() {
    // The first literal consumes "a" and part of "x" before failing;
    // the second branch still sees the input from the start.
    let p = Parser::choice(Parser::chunk("ab"), Parser::chunk("ax"));
    assert_eq!(p.parse("ax"), Ok(Value::Unit));
}

#[test]
fn choice_keeps_both_errors() {
    let p = Parser::choice(Parser::single('a'), Parser::single('b'));
    assert_eq!(
        p.parse("c"),
        Err(ParseError::ChoiceMismatch(
            Box::new(ParseError::WrongSingle('c', 'a')),
            Box::new(ParseError::WrongSingle('c', 'b')),
        ))
    );
}

#[test]
fn repeat_collects_greedily() {
    let p = Parser::single('a').repeat(None, None);
    assert_eq!(
        p.parse("aaa"),
        Ok(Value::Items(vec![Value::Ch('a'), Value::Ch('a'), Value::Ch('a')]))
    );
}

#[test]
fn repeat_of_nothing_yields_an_empty_sequence() {
    let p = Parser::single('a').repeat(None, None);
    assert_eq!(p.parse(""), Ok(Value::Items(vec![])));
}

#[test]
fn repeat_below_minimum_fails_with_repeat_error() {
    let p = Parser::single('a').repeat(Some(2), None);
    assert_eq!(p.parse("a"), Err(ParseError::RepeatError));
}

#[test]
fn repeat_at_or_above_minimum_succeeds_with_all_matches() {
    let p = Parser::single('a').repeat(Some(2), None);
    assert_eq!(
        p.parse("aaa"),
        Ok(Value::Items(vec![Value::Ch('a'), Value::Ch('a'), Value::Ch('a')]))
    );
}

#[test]
fn repeat_stops_at_the_maximum() {
    let p = Parser::single('a').repeat(None, Some(2));
    assert_eq!(p.parse("aa"), Ok(Value::Items(vec![Value::Ch('a'), Value::Ch('a')])));
    // With three characters available, the cap leaves one unconsumed
    // and the run reports the residue.
    assert_eq!(
        Parser::single('a').repeat(None, Some(2)).parse("aaa"),
        Err(ParseError::IncompleteParse(Box::new(Value::Items(vec![
            Value::Ch('a'),
            Value::Ch('a'),
        ]))))
    );
}

#[test]
fn concat_joins_two_sequences_in_order() {
    let p = Parser::single('a').repeat(None, None).concat(Parser::single('b').repeat(None, None));
    assert_eq!(
        p.parse("aab"),
        Ok(Value::Items(vec![Value::Ch('a'), Value::Ch('a'), Value::Ch('b')]))
    );
}

#[test]
fn and_chains_single_valued_parsers_into_a_sequence() {
    let p = Parser::single('a').and(Parser::single('b'));
    assert_eq!(p.parse("ab"), Ok(Value::Items(vec![Value::Ch('a'), Value::Ch('b')])));
}

#[test]
fn and_associativity_in_result_shape() {
    let left = Parser::single('a').and(Parser::single('b')).and(Parser::single('c'));
    let right = Parser::single('a').and(Parser::single('b').and(Parser::single('c')));
    let expected = Ok(Value::Items(vec![
        Value::Ch('a'),
        Value::Ch('b'),
        Value::Ch('c'),
    ]));
    assert_eq!(left.parse("abc"), expected);
    assert_eq!(right.parse("abc"), expected);
}

#[test]
fn cursor_snapshot_and_restore_are_exact() {
    let mut cur = Cursor::new(vec!['a', 'b']);
    let snap = cur.snapshot();
    assert_eq!(cur.next(), Some('a'));
    assert_eq!(cur.next(), Some('b'));
    assert!(cur.at_end());
    assert_eq!(cur.next(), None);
    cur.restore(snap);
    assert_eq!(cur.next(), Some('a'));
}

#[test]
fn cursor_take_consumes_one_code_point() {
    let mut cur = Cursor::new(vec!['x', 'y']);
    assert!(cur.has_next());
    assert_eq!(cur.take(), 'x');
    assert_eq!(cur.take(), 'y');
    assert!(!cur.has_next());
}

#[test]
fn repeat_of_a_consuming_nothing_parser_is_bounded_by_the_cap() {
    // A parser that succeeds without consuming anything is attempted
    // once per remaining allowance when a cap is set.
    let p = Parser::ret(Value::Ch('z')).repeat(Some(2), Some(3));
    assert_eq!(
        p.parse(""),
        Ok(Value::Items(vec![Value::Ch('z'), Value::Ch('z'), Value::Ch('z')]))
    );
}

#[test]
fn repeat_without_cap_stops_after_a_zero_width_success() {
    // With no cap, an attempt that succeeds without consuming anything
    // ends the greedy loop (keeping that value) instead of looping
    // forever.
    let p = Parser::ret(Value::Ch('z')).repeat(None, None);
    assert_eq!(p.parse(""), Ok(Value::Items(vec![Value::Ch('z')])));
}

#[test]
fn satisfy_accepts_and_rejects_by_predicate() {
    assert_eq!(Parser::satisfy(Pred::AsciiDigit).parse("7"), Ok(Value::Ch('7')));
    assert_eq!(Parser::satisfy(Pred::AsciiDigit).parse("x"), Err(ParseError::SatisfyError));
    assert_eq!(Parser::satisfy(Pred::AsciiDigit).parse(""), Err(ParseError::IterationError));
}
