//! The parser engine: the value domain, the error taxonomy, the cursor,
//! the grammar representation, and the interpreter that drives a parser
//! against an input.

use vstd::prelude::*;
use vstd::string::StrSliceExecFns;
use crate::semantics::{
    ValueModel, PModel, ContModel, Outcome, val_model, pmodel, cont_model, seq_model,
    psize, char_is_numeric, char_is_alphabetic, char_is_whitespace, pred_spec, items_of,
    lift_model, prepend_model, map_spec, and_model, sem_chunk, opt_nat, left_is_zero, left_is_none,
    dec_left, left_after, rep_measure, sem, sem_rep, run_sem, res_model, outcome_of,
};

verus! {

/// A parsed value. The engine is untyped at run time: every parser
/// produces a `Value`, and combinators that merge results operate on the
/// `Items` sequence form.
#[derive(Debug, PartialEq, Eq)]
pub enum Value {
    /// The unit value, produced by literal matchers.
    Unit,
    /// A single code point.
    Ch(char),
    /// An ordered sequence of values, produced by repetition and
    /// concatenation.
    Items(Vec<Value>),
    /// A present optional value.
    OptSome(Box<Value>),
    /// An absent optional value.
    OptNone,
}

/// A character predicate usable with `Parser::satisfy`.
#[derive(Debug, Clone, Copy)]
pub enum Pred {
    /// Matches `'0'` through `'9'`.
    AsciiDigit,
    /// Matches a digit in the given radix: `'0'`-`'9'`, then letters
    /// (either case) standing for ten and up, as long as the digit value
    /// is below the radix.
    DigitRadix(u32),
    /// Matches a character with the Unicode numeric property.
    Numeric,
    /// Matches a character with the Unicode alphabetic property.
    Alphabetic,
    /// Matches an alphabetic or numeric character.
    Alphanumeric,
    /// Matches a whitespace character.
    Whitespace,
}

/// A pure transformation applied to a successful result by `Parser::map`.
#[derive(Debug, Clone, Copy)]
pub enum Transform {
    /// Wraps the value in `Value::OptSome`.
    WrapSome,
    /// Discards the value, yielding `Value::Unit`.
    ToUnit,
}

/// A continuation for `Parser::bind`: given the value produced by the
/// first parser, it determines the parser run against the already
/// advanced cursor.
#[derive(Debug)]
pub enum Cont {
    /// Ignores the value and runs the held parser.
    Then(Box<Parser>),
    /// Runs the held parser, discards its value, and yields the original
    /// value.
    KeepVal(Box<Parser>),
    /// Runs the held parser (expected to yield a sequence) and prepends
    /// the original value to that sequence.
    PrependRest(Box<Parser>),
}

/// A structured parse failure.
#[derive(Debug, PartialEq, Eq)]
pub enum ParseError {
    /// A single-character matcher consumed this character (first field)
    /// while expecting that one (second field).
    WrongSingle(char, char),
    /// A literal matcher failed: the characters consumed so far,
    /// including the mismatching one, and the full expected literal.
    WrongChunk(Vec<char>, Vec<char>),
    /// Both branches of an ordered choice failed; both errors are kept.
    ChoiceMismatch(Box<ParseError>, Box<ParseError>),
    /// A predicate matcher consumed a character the predicate rejected.
    SatisfyError,
    /// A repetition collected fewer values than its minimum.
    RepeatError,
    /// The inner parse succeeded but left unconsumed input; carries the
    /// value it produced.
    IncompleteParse(Box<Value>),
    /// The cursor was exhausted where a matcher needed a character.
    IterationError,
    /// A recursive rule re-entered itself without having consumed any
    /// input, which could never terminate.
    RecursionError,
}

/// The grammar of a parser: one node per primitive or combinator.
#[derive(Debug)]
pub enum Node {
    /// Matches exactly the given character.
    Single(char),
    /// Matches exactly the given literal, character by character.
    Chunk(Vec<char>),
    /// Matches one character satisfying the predicate.
    Satisfy(Pred),
    /// Succeeds without consuming input, producing a copy of the value.
    Ret(Value),
    /// Applies a transformation to the inner parser's value.
    Mapped(Box<Parser>, Transform),
    /// Monadic sequencing: runs the inner parser, then the continuation.
    Bound(Box<Parser>, Cont),
    /// Ordered choice with backtracking.
    Choice(Box<Parser>, Box<Parser>),
    /// Greedy repetition with an optional minimum and maximum count.
    Repeat(Box<Parser>, Option<usize>, Option<usize>),
    /// Runs both parsers in order and concatenates their sequences.
    Concat(Box<Parser>, Box<Parser>),
    /// Wraps a non-sequence result into a one-element sequence.
    Lift(Box<Parser>),
    /// A recursive rule: inside its body, `SelfRef` refers back to it.
    Rec(Box<Parser>),
    /// A reference to the innermost enclosing recursive rule.
    SelfRef,
}

/// A composable unit of parsing logic. Combinator methods build larger
/// parsers out of smaller ones without touching any input; `parse` runs
/// the composed parser against an input.
#[derive(Debug)]
pub struct Parser {
    pub node: Node,
}

/// The input to one top-level parse: the code points and the current
/// position. A snapshot is just the position, so saving and restoring
/// for backtracking are O(1) integer copies.
#[derive(Debug)]
pub struct Cursor {
    pub chars: Vec<char>,
    pub pos: usize,
}

impl Cursor {
    /// Well-formedness: the position never passes the end of the input.
    pub open spec fn wf(&self) -> bool {
        self.pos <= self.chars@.len()
    }

    /// A fresh cursor at the start of the input.
    pub fn new(chars: Vec<char>) -> (c: Cursor)
        ensures
            c.chars == chars,
            c.pos == 0,
            c.wf(),
    {
        Cursor { chars, pos: 0 }
    }

    /// Consumes and returns the next code point, or `None` at the end.
    pub fn next(&mut self) -> (r: Option<char>)
        requires
            old(self).wf(),
        ensures
            final(self).chars == old(self).chars,
            final(self).wf(),
            old(self).pos < old(self).chars@.len() ==> r == Option::Some(
                old(self).chars@[old(self).pos as int],
            ) && final(self).pos == old(self).pos + 1,
            old(self).pos >= old(self).chars@.len() ==> r == Option::<char>::None
                && final(self).pos == old(self).pos,
    {
        if self.pos < self.chars.len() {
            let c = self.chars[self.pos];
            self.pos = self.pos + 1;
            Some(c)
        } else {
            None
        }
    }

    /// Whether a code point remains to be consumed.
    pub fn has_next(&self) -> (r: bool)
        ensures
            r == (self.pos < self.chars@.len()),
    {
        self.pos < self.chars.len()
    }

    /// Reads and consumes the next code point; the cursor must not be
    /// at the end.
    pub fn take(&mut self) -> (c: char)
        requires
            old(self).wf(),
            old(self).pos < old(self).chars@.len(),
        ensures
            final(self).chars == old(self).chars,
            final(self).wf(),
            final(self).pos == old(self).pos + 1,
            c == old(self).chars@[old(self).pos as int],
    {
        proof {
            vstd::std_specs::vec::axiom_spec_len(&self.chars);
        }
        let c = self.chars[self.pos];
        self.pos = self.pos + 1;
        c
    }

    /// The current position, usable later with `restore`.
    pub fn snapshot(&self) -> (p: usize)
        ensures
            p == self.pos,
    {
        self.pos
    }

    /// Returns the cursor to a previously saved position.
    pub fn restore(&mut self, snap: usize)
        requires
            snap <= old(self).chars@.len(),
        ensures
            final(self).chars == old(self).chars,
            final(self).pos == snap,
            final(self).wf(),
    {
        self.pos = snap;
    }

    /// Whether the whole input has been consumed.
    pub fn at_end(&self) -> (r: bool)
        ensures
            r == (self.pos == self.chars@.len()),
    {
        self.pos == self.chars.len()
    }
}

/// Relies on char::is_numeric: whether the character has the Unicode
/// numeric property; the result depends on the character alone.
#[verifier::external_body]
fn exec_char_numeric(c: char) -> (r: bool)
    ensures
        r == char_is_numeric(c),
{
    c.is_numeric()
}

/// Relies on char::is_alphabetic: whether the character has the Unicode
/// alphabetic property; the result depends on the character alone.
#[verifier::external_body]
fn exec_char_alphabetic(c: char) -> (r: bool)
    ensures
        r == char_is_alphabetic(c),
{
    c.is_alphabetic()
}

/// Relies on char::is_whitespace: whether the character has the Unicode
/// whitespace property; the result depends on the character alone.
#[verifier::external_body]
fn exec_char_whitespace(c: char) -> (r: bool)
    ensures
        r == char_is_whitespace(c),
{
    c.is_whitespace()
}

/// Relies on char::is_alphanumeric, which its documentation defines as
/// is_alphabetic or is_numeric.
#[verifier::external_body]
fn exec_char_alphanumeric(c: char) -> (r: bool)
    ensures
        r == (char_is_alphabetic(c) || char_is_numeric(c)),
{
    c.is_alphanumeric()
}

/// Whether the predicate accepts the character.
fn eval_pred(p: &Pred, c: char) -> (r: bool)
    ensures
        r == pred_spec(*p, c),
{
    match p {
        Pred::AsciiDigit => {
            let u = c as u32;
            48 <= u && u <= 57
        },
        Pred::DigitRadix(radix) => {
            let u = c as u32;
            let dv: u64 = if 48 <= u && u <= 57 {
                (u - 48) as u64
            } else if 65 <= u && u <= 90 {
                (u - 65 + 10) as u64
            } else if 97 <= u && u <= 122 {
                (u - 97 + 10) as u64
            } else {
                0x1_0000_0000u64
            };
            dv < (*radix as u64)
        },
        Pred::Numeric => exec_char_numeric(c),
        Pred::Alphabetic => exec_char_alphabetic(c),
        Pred::Alphanumeric => exec_char_alphanumeric(c),
        Pred::Whitespace => exec_char_whitespace(c),
    }
}

/// The input's code points as an indexable buffer.
fn chars_of(s: &str) -> (v: Vec<char>)
    ensures
        v@ == s@,
{
    let n = s.unicode_len();
    let mut v: Vec<char> = Vec::new();
    let mut i: usize = 0;
    while i < n
        invariant
            n == s@.len(),
            i <= n,
            v@.len() == i,
            forall|j: int| 0 <= j < i ==> v@[j] == s@[j],
        decreases n - i,
    {
        let c = s.get_char(i);
        v.push(c);
        i = i + 1;
    }
    proof {
        assert(v@ =~= s@);
    }
    v
}

/// A fresh copy of a character buffer.
fn clone_chars(cs: &Vec<char>) -> (r: Vec<char>)
    ensures
        r@ == cs@,
{
    let mut r: Vec<char> = Vec::new();
    let mut i: usize = 0;
    while i < cs.len()
        invariant
            i <= cs@.len(),
            r@.len() == i,
            forall|j: int| 0 <= j < i ==> r@[j] == cs@[j],
        decreases cs@.len() - i,
    {
        r.push(cs[i]);
        i = i + 1;
    }
    proof {
        assert(r@ =~= cs@);
    }
    r
}

/// A deep copy of a value, equal at the model level.
fn clone_value(v: &Value) -> (r: Value)
    ensures
        val_model(r) == val_model(*v),
    decreases *v,
{
    match v {
        Value::Unit => Value::Unit,
        Value::Ch(c) => Value::Ch(*c),
        Value::Items(xs) => {
            let mut out: Vec<Value> = Vec::new();
            let mut i: usize = 0;
            while i < xs.len()
                invariant
                    i <= xs@.len(),
                    out@.len() == i,
                    *v is Items,
                    v->Items_0 == *xs,
                    forall|j: int| 0 <= j < i ==> val_model(out@[j]) == val_model(xs@[j]),
                decreases xs@.len() - i,
            {
                proof {
                    assert(decreases_to!(*v => v->Items_0));
                    assert(decreases_to!(v->Items_0 => v->Items_0@[i as int]));
                    assert(decreases_to!(*v => xs@[i as int]));
                }
                let c = clone_value(&xs[i]);
                out.push(c);
                i = i + 1;
            }
            proof {
                assert forall|j: int| 0 <= j < out@.len() implies seq_model(out@)[j] == seq_model(
                    xs@,
                )[j] by {
                    assert(seq_model(out@)[j] == val_model(out@[j]));
                    assert(seq_model(xs@)[j] == val_model(xs@[j]));
                }
                assert(seq_model(out@) =~= seq_model(xs@));
            }
            Value::Items(out)
        },
        Value::OptSome(b) => {
            proof {
                assert(decreases_to!(*v => v->OptSome_0));
            }
            Value::OptSome(Box::new(clone_value(&**b)))
        },
        Value::OptNone => Value::OptNone,
    }
}

impl Clone for Value {
    /// A deep copy whose model is the same.
    fn clone(&self) -> (r: Value)
        ensures
            val_model(r) == val_model(*self),
    {
        clone_value(self)
    }
}

/// A deep copy of a bind continuation, equal at the model level.
fn clone_cont(k: &Cont) -> (r: Cont)
    ensures
        cont_model(r) == cont_model(*k),
    decreases *k,
{
    match k {
        Cont::Then(q) => {
            proof {
                assert(decreases_to!(*k => k->Then_0));
            }
            Cont::Then(Box::new(clone_parser(&**q)))
        },
        Cont::KeepVal(q) => {
            proof {
                assert(decreases_to!(*k => k->KeepVal_0));
            }
            Cont::KeepVal(Box::new(clone_parser(&**q)))
        },
        Cont::PrependRest(q) => {
            proof {
                assert(decreases_to!(*k => k->PrependRest_0));
            }
            Cont::PrependRest(Box::new(clone_parser(&**q)))
        },
    }
}

/// A deep copy of a parser, equal at the model level. Cloning shares no
/// state: the copy behaves exactly as the original on every input.
fn clone_parser(p: &Parser) -> (r: Parser)
    ensures
        pmodel(r) == pmodel(*p),
    decreases *p,
{
    proof {
        assert(decreases_to!(*p => p.node));
    }
    let node = match &p.node {
        Node::Single(c) => Node::Single(*c),
        Node::Chunk(cs) => Node::Chunk(clone_chars(cs)),
        Node::Satisfy(pr) => Node::Satisfy(*pr),
        Node::Ret(v) => Node::Ret(clone_value(v)),
        Node::Mapped(a, t) => {
            proof {
                assert(decreases_to!(p.node => p.node->Mapped_0));
            }
            Node::Mapped(Box::new(clone_parser(&**a)), *t)
        },
        Node::Bound(a, k) => {
            proof {
                assert(decreases_to!(p.node => p.node->Bound_0));
                assert(decreases_to!(p.node => p.node->Bound_1));
            }
            Node::Bound(Box::new(clone_parser(&**a)), clone_cont(k))
        },
        Node::Choice(a, b) => {
            proof {
                assert(decreases_to!(p.node => p.node->Choice_0));
                assert(decreases_to!(p.node => p.node->Choice_1));
            }
            Node::Choice(Box::new(clone_parser(&**a)), Box::new(clone_parser(&**b)))
        },
        Node::Repeat(a, mn, mx) => {
            proof {
                assert(decreases_to!(p.node => p.node->Repeat_0));
            }
            Node::Repeat(Box::new(clone_parser(&**a)), *mn, *mx)
        },
        Node::Concat(a, b) => {
            proof {
                assert(decreases_to!(p.node => p.node->Concat_0));
                assert(decreases_to!(p.node => p.node->Concat_1));
            }
            Node::Concat(Box::new(clone_parser(&**a)), Box::new(clone_parser(&**b)))
        },
        Node::Lift(a) => {
            proof {
                assert(decreases_to!(p.node => p.node->Lift_0));
            }
            Node::Lift(Box::new(clone_parser(&**a)))
        },
        Node::Rec(a) => {
            proof {
                assert(decreases_to!(p.node => p.node->Rec_0));
            }
            Node::Rec(Box::new(clone_parser(&**a)))
        },
        Node::SelfRef => Node::SelfRef,
    };
    Parser { node }
}

impl Clone for Parser {
    /// A deep copy whose model, and therefore whose behavior on every
    /// input, is the same.
    fn clone(&self) -> (r: Parser)
        ensures
            pmodel(r) == pmodel(*self),
    {
        clone_parser(self)
    }
}

/// Applies a transformation to a value.
fn apply_transform(t: &Transform, v: Value) -> (r: Value)
    ensures
        val_model(r) == map_spec(*t, val_model(v)),
{
    match t {
        Transform::WrapSome => Value::OptSome(Box::new(v)),
        Transform::ToUnit => Value::Unit,
    }
}

/// Prepends a value to a sequence-valued result.
fn prepend_value(v: Value, w: Value) -> (r: Value)
    ensures
        val_model(r) == prepend_model(val_model(v), val_model(w)),
{
    let ghost vm = val_model(v);
    let ghost wm = val_model(w);
    match w {
        Value::Items(mut xs) => {
            let ghost xs0 = xs@;
            xs.insert(0, v);
            proof {
                assert(items_of(wm) == seq_model(xs0));
                assert forall|j: int| 0 <= j < xs@.len() implies seq_model(xs@)[j] == (seq![vm]
                    + seq_model(xs0))[j] by {
                    assert(seq_model(xs@)[j] == val_model(xs@[j]));
                    if j > 0 {
                        assert(xs@[j] == xs0[j - 1]);
                        assert(seq_model(xs0)[j - 1] == val_model(xs0[j - 1]));
                    }
                }
                assert(seq_model(xs@) =~= seq![vm] + items_of(wm));
            }
            Value::Items(xs)
        },
        other => {
            let ghost om = val_model(other);
            let mut out: Vec<Value> = Vec::new();
            out.push(v);
            out.push(other);
            proof {
                assert(!(om is Items));
                assert(items_of(wm) == seq![om]);
                assert(seq_model(out@)[0] == val_model(out@[0]));
                assert(seq_model(out@)[1] == val_model(out@[1]));
                assert(seq_model(out@) =~= seq![vm] + items_of(wm));
            }
            Value::Items(out)
        },
    }
}

/// Merges two results into one item sequence, treating a non-sequence
/// value as a one-element sequence.
fn concat_values(v1: Value, v2: Value) -> (r: Value)
    ensures
        val_model(r) == ValueModel::Items(items_of(val_model(v1)) + items_of(val_model(v2))),
{
    let ghost m1 = val_model(v1);
    let ghost m2 = val_model(v2);
    let mut xs: Vec<Value> = match v1 {
        Value::Items(xs) => xs,
        other => {
            let ghost om = val_model(other);
            let mut t: Vec<Value> = Vec::new();
            t.push(other);
            proof {
                assert(!(om is Items));
                assert(seq_model(t@)[0] == val_model(t@[0]));
                assert(seq_model(t@) =~= seq![om]);
            }
            t
        },
    };
    proof {
        assert(seq_model(xs@) =~= items_of(m1));
    }
    let ghost xs1 = xs@;
    match v2 {
        Value::Items(mut ys) => {
            let ghost ys0 = ys@;
            xs.append(&mut ys);
            proof {
                assert(items_of(m2) == seq_model(ys0));
                assert forall|j: int| 0 <= j < xs@.len() implies seq_model(xs@)[j] == (seq_model(
                    xs1,
                ) + seq_model(ys0))[j] by {
                    assert(seq_model(xs@)[j] == val_model(xs@[j]));
                    if j < xs1.len() {
                        assert(xs@[j] == xs1[j]);
                        assert(seq_model(xs1)[j] == val_model(xs1[j]));
                    } else {
                        assert(xs@[j] == ys0[j - xs1.len()]);
                        assert(seq_model(ys0)[j - xs1.len()] == val_model(ys0[j - xs1.len()]));
                    }
                }
                assert(seq_model(xs@) =~= seq_model(xs1) + seq_model(ys0));
            }
        },
        other => {
            let ghost om = val_model(other);
            xs.push(other);
            proof {
                assert(!(om is Items));
                assert(items_of(m2) == seq![om]);
                assert forall|j: int| 0 <= j < xs@.len() implies seq_model(xs@)[j] == (seq_model(
                    xs1,
                ) + seq![om])[j] by {
                    assert(seq_model(xs@)[j] == val_model(xs@[j]));
                    if j < xs1.len() {
                        assert(xs@[j] == xs1[j]);
                        assert(seq_model(xs1)[j] == val_model(xs1[j]));
                    }
                }
                assert(seq_model(xs@) =~= seq_model(xs1) + seq![om]);
            }
        },
    }
    proof {
        assert(seq_model(xs@) =~= items_of(m1) + items_of(m2));
    }
    Value::Items(xs)
}

/// Wraps a non-sequence result into a one-element sequence.
fn lift_value(v: Value) -> (r: Value)
    ensures
        val_model(r) == lift_model(val_model(v)),
{
    let ghost vm = val_model(v);
    match v {
        Value::Items(xs) => Value::Items(xs),
        other => {
            let mut out: Vec<Value> = Vec::new();
            out.push(other);
            proof {
                assert(!(vm is Items));
                assert(seq_model(out@)[0] == val_model(out@[0]));
                assert(seq_model(out@) =~= seq![vm]);
            }
            Value::Items(out)
        },
    }
}

/// The enclosing recursive rule, seen at the model level.
pub open spec fn env_model(env: Option<&Parser>) -> Option<PModel> {
    match env {
        Option::Some(q) => Option::Some(pmodel(*q)),
        Option::None => Option::None,
    }
}

/// Interprets the literal matcher from its `k`-th expected character on,
/// with `found` holding what was already consumed for it.
fn eval_chunk(exp: &Vec<char>, k: usize, found: Vec<char>, cur: &mut Cursor) -> (r: Result<
    Value,
    ParseError,
>)
    requires
        old(cur).wf(),
        k <= exp@.len(),
    ensures
        final(cur).chars == old(cur).chars,
        final(cur).wf(),
        old(cur).pos <= final(cur).pos,
        outcome_of(r, final(cur).pos as nat) == sem_chunk(
            exp@.skip(k as int),
            exp@,
            found@,
            old(cur).chars@,
            old(cur).pos as nat,
        ),
    decreases exp@.len() - k,
{
    if k < exp.len() {
        proof {
            assert(exp@.skip(k as int).len() > 0);
            assert(exp@.skip(k as int)[0] == exp@[k as int]);
            assert(exp@.skip(k as int).drop_first() =~= exp@.skip(k as int + 1));
        }
        match cur.next() {
            Option::Some(c) => {
                let ex = exp[k];
                let mut found2 = found;
                found2.push(c);
                if c == ex {
                    eval_chunk(exp, k + 1, found2, cur)
                } else {
                    Err(ParseError::WrongChunk(found2, clone_chars(exp)))
                }
            },
            Option::None => Err(ParseError::IterationError),
        }
    } else {
        proof {
            assert(exp@.skip(k as int).len() == 0);
        }
        Ok(Value::Unit)
    }
}

/// Evaluates `p` against the cursor. `env` is the innermost enclosing
/// recursive rule and `envpos` the position at which it was most
/// recently entered; a rule re-entered without progress is answered
/// with `RecursionError`, since it could never terminate.
#[verifier::rlimit(100)]
fn eval(p: &Parser, cur: &mut Cursor, env: Option<&Parser>, envpos: usize) -> (r: Result<
    Value,
    ParseError,
>)
    requires
        old(cur).wf(),
        envpos <= old(cur).pos,
    ensures
        final(cur).chars == old(cur).chars,
        final(cur).wf(),
        old(cur).pos <= final(cur).pos,
        outcome_of(r, final(cur).pos as nat) == sem(
            pmodel(*p),
            old(cur).chars@,
            old(cur).pos as nat,
            env_model(env),
            envpos as nat,
        ),
    decreases old(cur).chars@.len() - envpos, psize(pmodel(*p)), 0int, 0int,
{
    match &p.node {
        Node::Single(ch) => {
            proof {
                assert(pmodel(*p) == PModel::Single(*ch));
            }
            if cur.has_next() {
                let c = cur.take();
                if c == *ch {
                    Ok(Value::Ch(c))
                } else {
                    Err(ParseError::WrongSingle(c, *ch))
                }
            } else {
                Err(ParseError::IterationError)
            }
        },
        Node::Chunk(cs) => {
            proof {
                assert(pmodel(*p) == PModel::Chunk(cs@));
                assert(cs@.skip(0) =~= cs@);
            }
            let found: Vec<char> = Vec::new();
            eval_chunk(cs, 0, found, cur)
        },
        Node::Satisfy(pr) => {
            proof {
                assert(pmodel(*p) == PModel::Satisfy(*pr));
            }
            if cur.has_next() {
                let c = cur.take();
                if eval_pred(pr, c) {
                    Ok(Value::Ch(c))
                } else {
                    Err(ParseError::SatisfyError)
                }
            } else {
                Err(ParseError::IterationError)
            }
        },
        Node::Ret(v) => {
            proof {
                assert(pmodel(*p) == PModel::Ret(val_model(*v)));
            }
            Ok(clone_value(v))
        },
        Node::Mapped(a, t) => {
            proof {
                assert(pmodel(*p) == PModel::Mapped(Box::new(pmodel(**a)), *t));
            }
            match eval(&**a, cur, env, envpos) {
                Ok(v) => Ok(apply_transform(t, v)),
                Err(e) => Err(e),
            }
        },
        Node::Bound(a, k) => {
            proof {
                assert(pmodel(*p) == PModel::Bound(Box::new(pmodel(**a)), cont_model(*k)));
            }
            match eval(&**a, cur, env, envpos) {
                Err(e) => Err(e),
                Ok(v) => {
                    match k {
                        Cont::Then(q) => {
                            proof {
                                assert(cont_model(*k) == ContModel::Then(Box::new(pmodel(**q))));
                            }
                            eval(&**q, cur, env, envpos)
                        },
                        Cont::KeepVal(q) => {
                            proof {
                                assert(cont_model(*k) == ContModel::KeepVal(
                                    Box::new(pmodel(**q)),
                                ));
                            }
                            match eval(&**q, cur, env, envpos) {
                                Ok(_) => Ok(v),
                                Err(e) => Err(e),
                            }
                        },
                        Cont::PrependRest(q) => {
                            proof {
                                assert(cont_model(*k) == ContModel::PrependRest(
                                    Box::new(pmodel(**q)),
                                ));
                            }
                            match eval(&**q, cur, env, envpos) {
                                Ok(w) => Ok(prepend_value(v, w)),
                                Err(e) => Err(e),
                            }
                        },
                    }
                },
            }
        },
        Node::Choice(a, b) => {
            proof {
                assert(pmodel(*p) == PModel::Choice(Box::new(pmodel(**a)), Box::new(pmodel(**b))));
            }
            let snap = cur.snapshot();
            match eval(&**a, cur, env, envpos) {
                Ok(v) => Ok(v),
                Err(e1) => {
                    cur.restore(snap);
                    match eval(&**b, cur, env, envpos) {
                        Ok(v) => Ok(v),
                        Err(e2) => Err(ParseError::ChoiceMismatch(Box::new(e1), Box::new(e2))),
                    }
                },
            }
        },
        Node::Repeat(a, min, max) => {
            proof {
                assert(pmodel(*p) == PModel::Repeat(Box::new(pmodel(**a)), *min, *max));
            }
            eval_repeat(&**a, *min, *max, cur, env, envpos)
        },
        Node::Concat(a, b) => {
            proof {
                assert(pmodel(*p) == PModel::Concat(Box::new(pmodel(**a)), Box::new(pmodel(**b))));
            }
            match eval(&**a, cur, env, envpos) {
                Err(e) => Err(e),
                Ok(v1) => {
                    match eval(&**b, cur, env, envpos) {
                        Err(e) => Err(e),
                        Ok(v2) => Ok(concat_values(v1, v2)),
                    }
                },
            }
        },
        Node::Lift(a) => {
            proof {
                assert(pmodel(*p) == PModel::Lift(Box::new(pmodel(**a))));
            }
            match eval(&**a, cur, env, envpos) {
                Ok(v) => Ok(lift_value(v)),
                Err(e) => Err(e),
            }
        },
        Node::Rec(body) => {
            proof {
                assert(pmodel(*p) == PModel::Rec(Box::new(pmodel(**body))));
                assert(env_model(Option::Some(&**body)) == Option::Some(pmodel(**body)));
            }
            let here = cur.snapshot();
            eval(&**body, cur, Option::Some(&**body), here)
        },
        Node::SelfRef => {
            proof {
                assert(pmodel(*p) == PModel::SelfRef);
            }
            match env {
                Option::Some(b) => {
                    proof {
                        assert(env_model(env) == Option::Some(pmodel(*b)));
                    }
                    let here = cur.snapshot();
                    if here > envpos {
                        eval(b, cur, Option::Some(b), here)
                    } else {
                        Err(ParseError::RecursionError)
                    }
                },
                Option::None => Err(ParseError::RecursionError),
            }
        },
    }
}

/// The greedy repetition loop behind `Parser::repeat`: attempts `a`
/// until it fails, the cap runs out, or, with no cap set, an attempt
/// succeeds without consuming anything.
fn eval_repeat(
    a: &Parser,
    min: Option<usize>,
    max: Option<usize>,
    cur: &mut Cursor,
    env: Option<&Parser>,
    envpos: usize,
) -> (r: Result<Value, ParseError>)
    requires
        old(cur).wf(),
        envpos <= old(cur).pos,
    ensures
        final(cur).chars == old(cur).chars,
        final(cur).wf(),
        old(cur).pos <= final(cur).pos,
        outcome_of(r, final(cur).pos as nat) == sem(
            PModel::Repeat(Box::new(pmodel(*a)), min, max),
            old(cur).chars@,
            old(cur).pos as nat,
            env_model(env),
            envpos as nat,
        ),
    decreases old(cur).chars@.len() - envpos, psize(pmodel(*a)), 1int, 0int,
{
    let pos0 = cur.snapshot();
    let ghost chars0 = cur.chars;
    let ghost inp = cur.chars@;
    let ghost am = pmodel(*a);
    let ghost envm = env_model(env);
    let ghost left0 = opt_nat(max);
    let mut items: Vec<Value> = Vec::new();
    loop
        invariant_except_break
            seq_model(items@) + sem_rep(
                am,
                inp,
                cur.pos as nat,
                envm,
                envpos as nat,
                left_after(max, items@.len() as nat),
            ).0 == sem_rep(am, inp, pos0 as nat, envm, envpos as nat, left0).0,
            sem_rep(
                am,
                inp,
                cur.pos as nat,
                envm,
                envpos as nat,
                left_after(max, items@.len() as nat),
            ).1 == sem_rep(am, inp, pos0 as nat, envm, envpos as nat, left0).1,
        invariant
            cur.wf(),
            cur.chars == chars0,
            chars0 == old(cur).chars,
            cur.chars@ == inp,
            am == pmodel(*a),
            envm == env_model(env),
            left0 == opt_nat(max),
            envpos <= pos0 <= cur.pos,
            (match max {
                Option::Some(m) => items@.len() <= m,
                Option::None => true,
            }),
        ensures
            cur.wf(),
            cur.chars == chars0,
            envpos <= pos0 <= cur.pos,
            sem_rep(am, inp, pos0 as nat, envm, envpos as nat, left0).0 == seq_model(items@),
            sem_rep(am, inp, pos0 as nat, envm, envpos as nat, left0).1 == cur.pos as nat,
        decreases rep_measure(left_after(max, items@.len() as nat), inp, cur.pos as nat),
    {
        let ghost lnow = left_after(max, items@.len() as nat);
        let proceed = match max {
            Option::Some(m) => items.len() < m,
            Option::None => true,
        };
        if !proceed {
            proof {
                assert(left_is_zero(lnow));
                assert(sem_rep(am, inp, cur.pos as nat, envm, envpos as nat, lnow) == (
                    Seq::<ValueModel>::empty(),
                    cur.pos as nat,
                ));
                assert(seq_model(items@) + Seq::<ValueModel>::empty() =~= seq_model(items@));
            }
            break;
        }
        let snap = cur.snapshot();
        let r = eval(a, cur, env, envpos);
        match r {
            Ok(v) => {
                let ghost vm = val_model(v);
                let ghost p2 = cur.pos as nat;
                let made_progress = cur.snapshot() > snap;
                items.push(v);
                proof {
                    assert forall|j: int| 0 <= j < items@.len() implies seq_model(items@)[j]
                        == (seq_model(items@.drop_last()) + seq![vm])[j] by {
                        assert(seq_model(items@)[j] == val_model(items@[j]));
                        if j < items@.len() - 1 {
                            assert(seq_model(items@.drop_last())[j] == val_model(
                                items@.drop_last()[j],
                            ));
                        }
                    }
                    assert(seq_model(items@) =~= seq_model(items@.drop_last()) + seq![vm]);
                    assert(sem(am, inp, snap as nat, envm, envpos as nat) == Outcome::Done(vm, p2));
                }
                let unbounded = match max {
                    Option::Some(_) => false,
                    Option::None => true,
                };
                if unbounded && !made_progress {
                    proof {
                        assert(sem_rep(am, inp, snap as nat, envm, envpos as nat, lnow) == (
                            seq![vm],
                            p2,
                        ));
                        assert(seq_model(items@.drop_last()) + seq![vm] =~= seq_model(items@));
                    }
                    break;
                }
                proof {
                    assert(!left_is_zero(lnow));
                    if made_progress {
                        assert(sem_rep(am, inp, snap as nat, envm, envpos as nat, lnow).0
                            == seq![vm] + sem_rep(
                            am,
                            inp,
                            p2,
                            envm,
                            envpos as nat,
                            dec_left(lnow),
                        ).0);
                    } else {
                        assert(!left_is_none(lnow));
                        assert(sem_rep(am, inp, snap as nat, envm, envpos as nat, lnow).0
                            == seq![vm] + sem_rep(
                            am,
                            inp,
                            p2,
                            envm,
                            envpos as nat,
                            dec_left(lnow),
                        ).0);
                    }
                    assert(left_after(max, items@.len() as nat) == dec_left(lnow));
                    assert(seq_model(items@.drop_last()) + (seq![vm] + sem_rep(
                        am,
                        inp,
                        p2,
                        envm,
                        envpos as nat,
                        dec_left(lnow),
                    ).0) =~= seq_model(items@) + sem_rep(
                        am,
                        inp,
                        p2,
                        envm,
                        envpos as nat,
                        dec_left(lnow),
                    ).0);
                }
            },
            Err(e) => {
                cur.restore(snap);
                proof {
                    assert(sem_rep(am, inp, snap as nat, envm, envpos as nat, lnow) == (
                        Seq::<ValueModel>::empty(),
                        snap as nat,
                    ));
                    assert(seq_model(items@) + Seq::<ValueModel>::empty() =~= seq_model(items@));
                }
                break;
            },
        }
    }
    let r = match min {
        Option::Some(m) => {
            if items.len() < m {
                Err(ParseError::RepeatError)
            } else {
                Ok(Value::Items(items))
            }
        },
        Option::None => Ok(Value::Items(items)),
    };
    r
}

impl Parser {
    /// Runs the parser against the input: materializes a cursor, drives
    /// the composed parsing function once, and succeeds only if the
    /// whole input was consumed; a successful inner parse that leaves
    /// residual input fails with `IncompleteParse` carrying the value.
    pub fn parse(self, input: &str) -> (r: Result<Value, ParseError>)
        ensures
            res_model(r) == run_sem(pmodel(self), input@),
    {
        let chars = chars_of(input);
        let mut cur = Cursor::new(chars);
        let r = eval(&self, &mut cur, Option::None, 0);
        match r {
            Ok(ast) => {
                if cur.at_end() {
                    Ok(ast)
                } else {
                    Err(ParseError::IncompleteParse(Box::new(ast)))
                }
            },
            Err(e) => Err(e),
        }
    }

    /// A parser matching exactly the given character, yielding it.
    pub fn single(expected: char) -> (r: Parser)
        ensures
            pmodel(r) == PModel::Single(expected),
    {
        Parser { node: Node::Single(expected) }
    }

    /// A parser matching the given literal character by character,
    /// yielding unit; on a mismatch it reports everything consumed for
    /// it together with the whole expected literal.
    pub fn chunk(expected: &str) -> (r: Parser)
        ensures
            pmodel(r) == PModel::Chunk(expected@),
    {
        Parser { node: Node::Chunk(chars_of(expected)) }
    }

    /// A parser consuming one character, succeeding if the predicate
    /// accepts it.
    pub fn satisfy(pred: Pred) -> (r: Parser)
        ensures
            pmodel(r) == PModel::Satisfy(pred),
    {
        Parser { node: Node::Satisfy(pred) }
    }

    /// A parser that always succeeds without consuming input, producing
    /// a copy of the given value on every invocation.
    pub fn ret(value: Value) -> (r: Parser)
        ensures
            pmodel(r) == PModel::Ret(val_model(value)),
    {
        Parser { node: Node::Ret(value) }
    }

    /// Sequential composition: runs `self`; on success the continuation
    /// decides, from the produced value, the parser run against the
    /// same, already advanced cursor. On failure it short-circuits.
    pub fn bind(self, k: Cont) -> (r: Parser)
        ensures
            pmodel(r) == PModel::Bound(Box::new(pmodel(self)), cont_model(k)),
    {
        Parser { node: Node::Bound(Box::new(self), k) }
    }

    /// Transforms the value of a successful parse; failures pass
    /// through unchanged.
    pub fn map(self, t: Transform) -> (r: Parser)
        ensures
            pmodel(r) == PModel::Mapped(Box::new(pmodel(self)), t),
    {
        Parser { node: Node::Mapped(Box::new(self), t) }
    }

    /// Ordered choice: tries `p1`; on failure restores the cursor and
    /// tries `p2`; if both fail, both errors are reported together.
    pub fn choice(p1: Parser, p2: Parser) -> (r: Parser)
        ensures
            pmodel(r) == PModel::Choice(Box::new(pmodel(p1)), Box::new(pmodel(p2))),
    {
        Parser { node: Node::Choice(Box::new(p1), Box::new(p2)) }
    }

    /// Greedy repetition: collects values until the parser fails (the
    /// cursor is restored past the failed attempt) or `max` values have
    /// been collected; fails with `RepeatError` if fewer than `min`
    /// values were collected.
    pub fn repeat(self, min: Option<usize>, max: Option<usize>) -> (r: Parser)
        ensures
            pmodel(r) == PModel::Repeat(Box::new(pmodel(self)), min, max),
    {
        Parser { node: Node::Repeat(Box::new(self), min, max) }
    }

    /// Runs both parsers in order against the advancing cursor and
    /// concatenates the two produced sequences.
    pub fn concat(self, rhs: Parser) -> (r: Parser)
        ensures
            pmodel(r) == PModel::Concat(Box::new(pmodel(self)), Box::new(pmodel(rhs))),
    {
        Parser { node: Node::Concat(Box::new(self), Box::new(rhs)) }
    }

    /// Wraps this parser's result into a one-element sequence, so that
    /// single-valued and sequence-valued parsers chain uniformly.
    pub fn lift(self) -> (r: Parser)
        ensures
            pmodel(r) == PModel::Lift(Box::new(pmodel(self))),
    {
        Parser { node: Node::Lift(Box::new(self)) }
    }

    /// Lifts both results into sequence form and concatenates them, so
    /// single-valued and sequence-valued parsers chain uniformly.
    pub fn and(self, rhs: Parser) -> (r: Parser)
        ensures
            pmodel(r) == and_model(pmodel(self), pmodel(rhs)),
    {
        self.lift().concat(rhs.lift())
    }

    /// Defines a self-referential parser. The builder receives a handle
    /// standing for the rule being defined and returns the rule's body;
    /// wherever the body uses the handle, evaluation re-enters the
    /// whole rule. The builder is invoked exactly once, here.
    pub fn recurse<F: Fn(Parser) -> Parser>(source: F) -> (r: Parser)
        requires
            call_requires(source, ((Parser { node: Node::SelfRef }),)),
        ensures
            exists|body: Parser|
                #[trigger] call_ensures(source, ((Parser { node: Node::SelfRef }),), body)
                    && pmodel(r) == PModel::Rec(Box::new(pmodel(body))),
    {
        let body = source(Parser { node: Node::SelfRef });
        Parser { node: Node::Rec(Box::new(body)) }
    }
}

} // verus!
