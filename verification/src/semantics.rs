//! The mathematical model of the engine: model types mirroring the
//! executable ones with `Seq` in place of `Vec`, and the recursive
//! semantics function `sem` that says exactly what running any parser
//! against any input yields.

use vstd::prelude::*;
use crate::parser::{Parser, Node, Value, Pred, Transform, Cont, ParseError};

verus! {

/// Model of `Value`: sequences are `Seq`, boxes stay boxes.
pub enum ValueModel {
    Unit,
    Ch(char),
    Items(Seq<ValueModel>),
    OptSome(Box<ValueModel>),
    OptNone,
}

/// Model of `ParseError`.
pub enum ErrorModel {
    WrongSingle(char, char),
    WrongChunk(Seq<char>, Seq<char>),
    ChoiceMismatch(Box<ErrorModel>, Box<ErrorModel>),
    SatisfyError,
    RepeatError,
    IncompleteParse(Box<ValueModel>),
    IterationError,
    RecursionError,
}

/// Model of a parser's grammar (`Node`).
pub enum PModel {
    Single(char),
    Chunk(Seq<char>),
    Satisfy(Pred),
    Ret(ValueModel),
    Mapped(Box<PModel>, Transform),
    Bound(Box<PModel>, ContModel),
    Choice(Box<PModel>, Box<PModel>),
    Repeat(Box<PModel>, Option<usize>, Option<usize>),
    Concat(Box<PModel>, Box<PModel>),
    Lift(Box<PModel>),
    Rec(Box<PModel>),
    SelfRef,
}

/// Model of a bind continuation (`Cont`).
pub enum ContModel {
    Then(Box<PModel>),
    KeepVal(Box<PModel>),
    PrependRest(Box<PModel>),
}

/// The outcome of one evaluation: the value or the error, together with
/// the cursor position after the attempt.
pub enum Outcome {
    Done(ValueModel, nat),
    Fail(ErrorModel, nat),
}

pub open spec fn val_model(v: Value) -> ValueModel
    decreases v,
{
    match v {
        Value::Unit => ValueModel::Unit,
        Value::Ch(c) => ValueModel::Ch(c),
        Value::Items(xs) => ValueModel::Items(seq_model(xs@)),
        Value::OptSome(b) => ValueModel::OptSome(Box::new(val_model(*b))),
        Value::OptNone => ValueModel::OptNone,
    }
}

/// A sequence of values, each seen at the model level.
pub open spec fn seq_model(s: Seq<Value>) -> Seq<ValueModel>
    decreases s,
{
    Seq::new(
        s.len(),
        |i: int|
            if 0 <= i < s.len() {
                val_model(s[i])
            } else {
                ValueModel::Unit
            },
    )
}

pub open spec fn err_model(e: ParseError) -> ErrorModel
    decreases e,
{
    match e {
        ParseError::WrongSingle(found, expected) => ErrorModel::WrongSingle(found, expected),
        ParseError::WrongChunk(found, expected) => ErrorModel::WrongChunk(found@, expected@),
        ParseError::ChoiceMismatch(e1, e2) => ErrorModel::ChoiceMismatch(
            Box::new(err_model(*e1)),
            Box::new(err_model(*e2)),
        ),
        ParseError::SatisfyError => ErrorModel::SatisfyError,
        ParseError::RepeatError => ErrorModel::RepeatError,
        ParseError::IncompleteParse(v) => ErrorModel::IncompleteParse(Box::new(val_model(*v))),
        ParseError::IterationError => ErrorModel::IterationError,
        ParseError::RecursionError => ErrorModel::RecursionError,
    }
}

pub open spec fn cont_model(k: Cont) -> ContModel
    decreases k,
{
    match k {
        Cont::Then(q) => ContModel::Then(Box::new(pmodel(*q))),
        Cont::KeepVal(q) => ContModel::KeepVal(Box::new(pmodel(*q))),
        Cont::PrependRest(q) => ContModel::PrependRest(Box::new(pmodel(*q))),
    }
}

pub open spec fn pmodel(p: Parser) -> PModel
    decreases p,
{
    match p.node {
        Node::Single(c) => PModel::Single(c),
        Node::Chunk(cs) => PModel::Chunk(cs@),
        Node::Satisfy(pr) => PModel::Satisfy(pr),
        Node::Ret(v) => PModel::Ret(val_model(v)),
        Node::Mapped(a, t) => PModel::Mapped(Box::new(pmodel(*a)), t),
        Node::Bound(a, k) => PModel::Bound(Box::new(pmodel(*a)), cont_model(k)),
        Node::Choice(a, b) => PModel::Choice(Box::new(pmodel(*a)), Box::new(pmodel(*b))),
        Node::Repeat(a, min, max) => PModel::Repeat(Box::new(pmodel(*a)), min, max),
        Node::Concat(a, b) => PModel::Concat(Box::new(pmodel(*a)), Box::new(pmodel(*b))),
        Node::Lift(a) => PModel::Lift(Box::new(pmodel(*a))),
        Node::Rec(a) => PModel::Rec(Box::new(pmodel(*a))),
        Node::SelfRef => PModel::SelfRef,
    }
}

/// Structural size of a grammar, the measure that bounds evaluation.
pub open spec fn psize(p: PModel) -> nat
    decreases p,
{
    match p {
        PModel::Single(_) => 1,
        PModel::Chunk(_) => 1,
        PModel::Satisfy(_) => 1,
        PModel::Ret(_) => 1,
        PModel::Mapped(a, _) => 1 + psize(*a),
        PModel::Bound(a, k) => 1 + psize(*a) + (match k {
            ContModel::Then(q) => 1 + psize(*q),
            ContModel::KeepVal(q) => 1 + psize(*q),
            ContModel::PrependRest(q) => 1 + psize(*q),
        }),
        PModel::Choice(a, b) => 1 + psize(*a) + psize(*b),
        PModel::Repeat(a, _, _) => 1 + psize(*a),
        PModel::Concat(a, b) => 1 + psize(*a) + psize(*b),
        PModel::Lift(a) => 1 + psize(*a),
        PModel::Rec(a) => 1 + psize(*a),
        PModel::SelfRef => 1,
    }
}

/// What `char::is_numeric` returns; a function of the character alone.
pub uninterp spec fn char_is_numeric(c: char) -> bool;

/// What `char::is_alphabetic` returns; a function of the character alone.
pub uninterp spec fn char_is_alphabetic(c: char) -> bool;

/// What `char::is_whitespace` returns; a function of the character alone.
pub uninterp spec fn char_is_whitespace(c: char) -> bool;

/// The value of a character read as a digit: `'0'`-`'9'` are zero through
/// nine, letters of either case stand for ten and up, and anything else
/// is given a value too large for every radix.
pub open spec fn digit_value(c: char) -> nat {
    let u = c as u32;
    if 48 <= u && u <= 57 {
        (u - 48) as nat
    } else if 65 <= u && u <= 90 {
        (u - 65 + 10) as nat
    } else if 97 <= u && u <= 122 {
        (u - 97 + 10) as nat
    } else {
        0x1_0000_0000 as nat
    }
}

/// Whether a predicate accepts a character.
pub open spec fn pred_spec(p: Pred, c: char) -> bool {
    match p {
        Pred::AsciiDigit => 48 <= c as u32 && c as u32 <= 57,
        Pred::DigitRadix(r) => digit_value(c) < r as nat,
        Pred::Numeric => char_is_numeric(c),
        Pred::Alphabetic => char_is_alphabetic(c),
        Pred::Alphanumeric => char_is_alphabetic(c) || char_is_numeric(c),
        Pred::Whitespace => char_is_whitespace(c),
    }
}

/// A value as an item sequence: sequences are themselves, anything else
/// is a one-element sequence.
pub open spec fn items_of(v: ValueModel) -> Seq<ValueModel> {
    match v {
        ValueModel::Items(xs) => xs,
        _ => seq![v],
    }
}

/// Lifting a value into sequence form.
pub open spec fn lift_model(v: ValueModel) -> ValueModel {
    match v {
        ValueModel::Items(_) => v,
        _ => ValueModel::Items(seq![v]),
    }
}

/// Prepending a value to a sequence-valued result.
pub open spec fn prepend_model(v: ValueModel, w: ValueModel) -> ValueModel {
    ValueModel::Items(seq![v] + items_of(w))
}

/// The grammar that `Parser::and` builds: both operands lifted into
/// sequence form, then concatenated.
pub open spec fn and_model(x: PModel, y: PModel) -> PModel {
    PModel::Concat(Box::new(PModel::Lift(Box::new(x))), Box::new(PModel::Lift(Box::new(y))))
}

/// Applying a transformation to a value.
pub open spec fn map_spec(t: Transform, v: ValueModel) -> ValueModel {
    match t {
        Transform::WrapSome => ValueModel::OptSome(Box::new(v)),
        Transform::ToUnit => ValueModel::Unit,
    }
}

/// The meaning of a literal matcher, one expected character at a time:
/// `found` collects what was consumed so far, `full` is the whole
/// expected literal reported on a mismatch.
pub open spec fn sem_chunk(
    exp: Seq<char>,
    full: Seq<char>,
    found: Seq<char>,
    input: Seq<char>,
    pos: nat,
) -> Outcome
    decreases exp.len(),
{
    if exp.len() == 0 {
        Outcome::Done(ValueModel::Unit, pos)
    } else if pos < input.len() {
        let c = input[pos as int];
        if c == exp[0] {
            sem_chunk(exp.drop_first(), full, found.push(c), input, pos + 1)
        } else {
            Outcome::Fail(ErrorModel::WrongChunk(found.push(c), full), pos + 1)
        }
    } else {
        Outcome::Fail(ErrorModel::IterationError, pos)
    }
}

pub open spec fn opt_nat(o: Option<usize>) -> Option<nat> {
    match o {
        Option::Some(m) => Option::Some(m as nat),
        Option::None => Option::None,
    }
}

pub open spec fn left_is_zero(left: Option<nat>) -> bool {
    match left {
        Option::Some(n) => n == 0,
        Option::None => false,
    }
}

pub open spec fn left_is_none(left: Option<nat>) -> bool {
    match left {
        Option::Some(_) => false,
        Option::None => true,
    }
}

pub open spec fn dec_left(left: Option<nat>) -> Option<nat> {
    match left {
        Option::Some(n) => Option::Some((n - 1) as nat),
        Option::None => Option::None,
    }
}

/// The remaining allowed count after `taken` values have been
/// collected under cap `max`.
pub open spec fn left_after(max: Option<usize>, taken: nat) -> Option<nat> {
    match max {
        Option::Some(m) => Option::Some((m - taken) as nat),
        Option::None => Option::None,
    }
}

/// Measure for the repetition loop: the remaining allowed count if one
/// is set, otherwise the remaining input.
pub open spec fn rep_measure(left: Option<nat>, input: Seq<char>, pos: nat) -> int {
    match left {
        Option::Some(n) => n as int,
        Option::None => input.len() - pos,
    }
}

/// The meaning of running parser `p` at `pos` of `input`.
///
/// `env` is the innermost enclosing recursive rule and `envpos` the
/// position at which that rule was most recently entered; a
/// re-entrance that has consumed nothing since (`pos <= envpos`) could
/// never terminate and is answered with `RecursionError`. Positions
/// outside `envpos <= pos <= input.len()` never arise in an evaluation
/// started by `run_sem`; the guard merely keeps the definition total.
pub open spec fn sem(p: PModel, input: Seq<char>, pos: nat, env: Option<PModel>, envpos: nat) -> Outcome
    decreases input.len() - envpos, psize(p), 0int, 0int,
{
    if !(envpos <= pos && pos <= input.len()) {
        Outcome::Fail(ErrorModel::RecursionError, pos)
    } else {
        match p {
            PModel::Single(ch) => {
                if pos < input.len() {
                    let c = input[pos as int];
                    if c == ch {
                        Outcome::Done(ValueModel::Ch(c), pos + 1)
                    } else {
                        Outcome::Fail(ErrorModel::WrongSingle(c, ch), pos + 1)
                    }
                } else {
                    Outcome::Fail(ErrorModel::IterationError, pos)
                }
            },
            PModel::Chunk(cs) => sem_chunk(cs, cs, Seq::empty(), input, pos),
            PModel::Satisfy(pr) => {
                if pos < input.len() {
                    let c = input[pos as int];
                    if pred_spec(pr, c) {
                        Outcome::Done(ValueModel::Ch(c), pos + 1)
                    } else {
                        Outcome::Fail(ErrorModel::SatisfyError, pos + 1)
                    }
                } else {
                    Outcome::Fail(ErrorModel::IterationError, pos)
                }
            },
            PModel::Ret(v) => Outcome::Done(v, pos),
            PModel::Mapped(a, t) => {
                match sem(*a, input, pos, env, envpos) {
                    Outcome::Done(v, p2) => Outcome::Done(map_spec(t, v), p2),
                    Outcome::Fail(e, p2) => Outcome::Fail(e, p2),
                }
            },
            PModel::Bound(a, k) => {
                match sem(*a, input, pos, env, envpos) {
                    Outcome::Fail(e, p2) => Outcome::Fail(e, p2),
                    Outcome::Done(v, p2) => {
                        match k {
                            ContModel::Then(q) => sem(*q, input, p2, env, envpos),
                            ContModel::KeepVal(q) => {
                                match sem(*q, input, p2, env, envpos) {
                                    Outcome::Done(_, p3) => Outcome::Done(v, p3),
                                    Outcome::Fail(e, p3) => Outcome::Fail(e, p3),
                                }
                            },
                            ContModel::PrependRest(q) => {
                                match sem(*q, input, p2, env, envpos) {
                                    Outcome::Done(w, p3) => Outcome::Done(prepend_model(v, w), p3),
                                    Outcome::Fail(e, p3) => Outcome::Fail(e, p3),
                                }
                            },
                        }
                    },
                }
            },
            PModel::Choice(a, b) => {
                match sem(*a, input, pos, env, envpos) {
                    Outcome::Done(v, p2) => Outcome::Done(v, p2),
                    Outcome::Fail(e1, _) => {
                        match sem(*b, input, pos, env, envpos) {
                            Outcome::Done(v, p2) => Outcome::Done(v, p2),
                            Outcome::Fail(e2, p2) => Outcome::Fail(
                                ErrorModel::ChoiceMismatch(Box::new(e1), Box::new(e2)),
                                p2,
                            ),
                        }
                    },
                }
            },
            PModel::Repeat(a, min, max) => {
                let (vs, p2) = sem_rep(*a, input, pos, env, envpos, opt_nat(max));
                match min {
                    Option::Some(m) => {
                        if vs.len() < m {
                            Outcome::Fail(ErrorModel::RepeatError, p2)
                        } else {
                            Outcome::Done(ValueModel::Items(vs), p2)
                        }
                    },
                    Option::None => Outcome::Done(ValueModel::Items(vs), p2),
                }
            },
            PModel::Concat(a, b) => {
                match sem(*a, input, pos, env, envpos) {
                    Outcome::Fail(e, p2) => Outcome::Fail(e, p2),
                    Outcome::Done(v1, p2) => {
                        match sem(*b, input, p2, env, envpos) {
                            Outcome::Fail(e, p3) => Outcome::Fail(e, p3),
                            Outcome::Done(v2, p3) => Outcome::Done(
                                ValueModel::Items(items_of(v1) + items_of(v2)),
                                p3,
                            ),
                        }
                    },
                }
            },
            PModel::Lift(a) => {
                match sem(*a, input, pos, env, envpos) {
                    Outcome::Done(v, p2) => Outcome::Done(lift_model(v), p2),
                    Outcome::Fail(e, p2) => Outcome::Fail(e, p2),
                }
            },
            PModel::Rec(body) => sem(*body, input, pos, Option::Some(*body), pos),
            PModel::SelfRef => {
                match env {
                    Option::Some(b) => {
                        if pos > envpos {
                            sem(b, input, pos, Option::Some(b), pos)
                        } else {
                            Outcome::Fail(ErrorModel::RecursionError, pos)
                        }
                    },
                    Option::None => Outcome::Fail(ErrorModel::RecursionError, pos),
                }
            },
        }
    }
}

/// The greedy repetition loop: attempts `p` until it fails, the cap
/// `left` runs out, or, when no cap is set, an attempt succeeds without
/// consuming anything (which otherwise could never terminate). Returns
/// the collected values and the final position.
pub open spec fn sem_rep(
    p: PModel,
    input: Seq<char>,
    pos: nat,
    env: Option<PModel>,
    envpos: nat,
    left: Option<nat>,
) -> (Seq<ValueModel>, nat)
    decreases input.len() - envpos, psize(p), 1int, rep_measure(left, input, pos),
{
    if !(envpos <= pos && pos <= input.len()) {
        (Seq::empty(), pos)
    } else if left_is_zero(left) {
        (Seq::empty(), pos)
    } else {
        match sem(p, input, pos, env, envpos) {
            Outcome::Fail(_, _) => (Seq::empty(), pos),
            Outcome::Done(v, p2) => {
                if p2 > input.len() {
                    (seq![v], p2)
                } else if p2 <= pos && left_is_none(left) {
                    (seq![v], p2)
                } else {
                    let (vs, p3) = sem_rep(p, input, p2, env, envpos, dec_left(left));
                    (seq![v] + vs, p3)
                }
            },
        }
    }
}

/// The meaning of the top-level run: evaluate from position zero with no
/// enclosing rule, then demand that the whole input was consumed.
pub open spec fn run_sem(p: PModel, input: Seq<char>) -> Result<ValueModel, ErrorModel> {
    match sem(p, input, 0, Option::None, 0) {
        Outcome::Done(v, pos) => {
            if pos == input.len() {
                Result::Ok(v)
            } else {
                Result::Err(ErrorModel::IncompleteParse(Box::new(v)))
            }
        },
        Outcome::Fail(e, _) => Result::Err(e),
    }
}

/// An executable result, seen at the model level.
pub open spec fn res_model(r: Result<Value, ParseError>) -> Result<ValueModel, ErrorModel> {
    match r {
        Result::Ok(v) => Result::Ok(val_model(v)),
        Result::Err(e) => Result::Err(err_model(e)),
    }
}

/// An executable evaluation outcome, seen at the model level.
pub open spec fn outcome_of(r: Result<Value, ParseError>, pos: nat) -> Outcome {
    match r {
        Result::Ok(v) => Outcome::Done(val_model(v), pos),
        Result::Err(e) => Outcome::Fail(err_model(e), pos),
    }
}

} // verus!
