//! Ready-made parsers: single-character and literal matchers, the usual
//! character classes, an optional-value wrapper, and a separated-list
//! helper — all straightforward compositions of the core operations.

use vstd::prelude::*;
use crate::parser::{Parser, Value, Pred, Transform, Cont};
use crate::semantics::{PModel, ContModel, ValueModel, pmodel};

verus! {

/// A parser matching exactly the given character, yielding it.
pub fn single(expected: char) -> (r: Parser)
    ensures
        pmodel(r) == PModel::Single(expected),
{
    Parser::single(expected)
}

/// A parser matching exactly the given literal, yielding unit.
pub fn chunk(expected: &str) -> (r: Parser)
    ensures
        pmodel(r) == PModel::Chunk(expected@),
{
    Parser::chunk(expected)
}

/// A parser for one ASCII digit, `'0'` through `'9'`.
pub fn ascii_digit() -> (r: Parser)
    ensures
        pmodel(r) == PModel::Satisfy(Pred::AsciiDigit),
{
    Parser::satisfy(Pred::AsciiDigit)
}

/// A parser for one digit in the given radix.
pub fn digit(radix: u32) -> (r: Parser)
    ensures
        pmodel(r) == PModel::Satisfy(Pred::DigitRadix(radix)),
{
    Parser::satisfy(Pred::DigitRadix(radix))
}

/// A parser for one character with the Unicode numeric property.
pub fn numeric() -> (r: Parser)
    ensures
        pmodel(r) == PModel::Satisfy(Pred::Numeric),
{
    Parser::satisfy(Pred::Numeric)
}

/// A parser for one character with the Unicode alphabetic property.
pub fn alphabetic() -> (r: Parser)
    ensures
        pmodel(r) == PModel::Satisfy(Pred::Alphabetic),
{
    Parser::satisfy(Pred::Alphabetic)
}

/// A parser for one alphabetic or numeric character.
pub fn alphanumeric() -> (r: Parser)
    ensures
        pmodel(r) == PModel::Satisfy(Pred::Alphanumeric),
{
    Parser::satisfy(Pred::Alphanumeric)
}

/// A parser for one whitespace character.
pub fn whitespace() -> (r: Parser)
    ensures
        pmodel(r) == PModel::Satisfy(Pred::Whitespace),
{
    Parser::satisfy(Pred::Whitespace)
}

/// An optional-value wrapper: yields `OptSome` of the parser's value,
/// or `OptNone` without consuming anything when it fails.
pub fn option(p: Parser) -> (r: Parser)
    ensures
        pmodel(r) == PModel::Choice(
            Box::new(PModel::Mapped(Box::new(pmodel(p)), Transform::WrapSome)),
            Box::new(PModel::Ret(ValueModel::OptNone)),
        ),
{
    Parser::choice(p.map(Transform::WrapSome), Parser::ret(Value::OptNone))
}

impl Parser {
    /// One or more elements separated by `p`: parses a head element,
    /// then any number of separator-then-element pairs, and yields the
    /// sequence of element values in order.
    pub fn separated_by(self, p: Parser) -> (r: Parser)
        ensures
            pmodel(r) == PModel::Bound(
                Box::new(pmodel(self)),
                ContModel::PrependRest(
                    Box::new(
                        PModel::Repeat(
                            Box::new(
                                PModel::Bound(
                                    Box::new(pmodel(p)),
                                    ContModel::Then(Box::new(pmodel(self))),
                                ),
                            ),
                            Option::None,
                            Option::None,
                        ),
                    ),
                ),
            ),
    {
        let elem = self.clone();
        let tail = Parser::bind(p, Cont::Then(Box::new(elem))).repeat(None, None);
        Parser::bind(self, Cont::PrependRest(Box::new(tail)))
    }
}

} // verus!
