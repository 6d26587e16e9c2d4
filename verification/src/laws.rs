//! General properties of the engine, stated and proved over the
//! semantics that every executable function is verified against.

use vstd::prelude::*;
use crate::semantics::{
    PModel, ValueModel, ErrorModel, Outcome, sem, sem_rep, run_sem, opt_nat, dec_left,
    left_is_zero, and_model, items_of, lift_model,
};

verus! {

/// Determinism: the outcome of a run is a function of the parser and
/// the input alone, so any two results that `parse`'s contract admits
/// for the same parser and input are equal.
pub proof fn lemma_parse_deterministic(
    p: PModel,
    input: Seq<char>,
    r1: Result<ValueModel, ErrorModel>,
    r2: Result<ValueModel, ErrorModel>,
)
    requires
        r1 == run_sem(p, input),
        r2 == run_sem(p, input),
    ensures
        r1 == r2,
{
}

/// Choice ordering: when the first branch succeeds, the choice yields
/// exactly the first branch's outcome; the second is never consulted.
pub proof fn lemma_choice_first(
    p1: PModel,
    p2: PModel,
    input: Seq<char>,
    pos: nat,
    env: Option<PModel>,
    envpos: nat,
)
    requires
        envpos <= pos <= input.len(),
        sem(p1, input, pos, env, envpos) is Done,
    ensures
        sem(PModel::Choice(Box::new(p1), Box::new(p2)), input, pos, env, envpos) == sem(
            p1,
            input,
            pos,
            env,
            envpos,
        ),
{
}

/// Backtracking purity: when the first branch fails, the second runs
/// from exactly the position the choice started at — as if the first
/// had never been attempted — and when both fail, both errors are kept.
pub proof fn lemma_choice_backtracks(
    p1: PModel,
    p2: PModel,
    input: Seq<char>,
    pos: nat,
    env: Option<PModel>,
    envpos: nat,
    e1: ErrorModel,
    pe: nat,
)
    requires
        envpos <= pos <= input.len(),
        sem(p1, input, pos, env, envpos) == Outcome::Fail(e1, pe),
    ensures
        sem(PModel::Choice(Box::new(p1), Box::new(p2)), input, pos, env, envpos) == (match sem(
            p2,
            input,
            pos,
            env,
            envpos,
        ) {
            Outcome::Done(v, p3) => Outcome::Done(v, p3),
            Outcome::Fail(e2, p3) => Outcome::Fail(
                ErrorModel::ChoiceMismatch(Box::new(e1), Box::new(e2)),
                p3,
            ),
        }),
{
}

/// Repetition floor: with minimum `k`, the repetition fails with
/// `RepeatError` exactly when the greedy loop collected fewer than `k`
/// values, and otherwise succeeds with exactly the collected sequence.
pub proof fn lemma_repeat_floor(
    p: PModel,
    k: usize,
    max: Option<usize>,
    input: Seq<char>,
    pos: nat,
    env: Option<PModel>,
    envpos: nat,
)
    requires
        envpos <= pos <= input.len(),
    ensures
        sem_rep(p, input, pos, env, envpos, opt_nat(max)).0.len() < k ==> sem(
            PModel::Repeat(Box::new(p), Option::Some(k), max),
            input,
            pos,
            env,
            envpos,
        ) == Outcome::Fail(
            ErrorModel::RepeatError,
            sem_rep(p, input, pos, env, envpos, opt_nat(max)).1,
        ),
        sem_rep(p, input, pos, env, envpos, opt_nat(max)).0.len() >= k ==> sem(
            PModel::Repeat(Box::new(p), Option::Some(k), max),
            input,
            pos,
            env,
            envpos,
        ) == Outcome::Done(
            ValueModel::Items(sem_rep(p, input, pos, env, envpos, opt_nat(max)).0),
            sem_rep(p, input, pos, env, envpos, opt_nat(max)).1,
        ),
{
}

/// Repetition cap: the greedy loop never collects more values than the
/// remaining allowance it was started with.
pub proof fn lemma_repeat_capped(
    p: PModel,
    input: Seq<char>,
    pos: nat,
    env: Option<PModel>,
    envpos: nat,
    n: nat,
)
    ensures
        sem_rep(p, input, pos, env, envpos, Option::Some(n)).0.len() <= n,
    decreases n,
{
    if !(envpos <= pos && pos <= input.len()) {
    } else if left_is_zero(Option::Some(n)) {
    } else {
        match sem(p, input, pos, env, envpos) {
            Outcome::Fail(_, _) => {},
            Outcome::Done(v, p2) => {
                if p2 > input.len() {
                } else {
                    assert(dec_left(Option::Some(n)) == Option::Some((n - 1) as nat));
                    lemma_repeat_capped(p, input, p2, env, envpos, (n - 1) as nat);
                }
            },
        }
    }
}

/// Full-consumption contract: a run succeeds only if the inner parse
/// consumed the whole input; an inner success that stops short turns
/// into `IncompleteParse` carrying the produced value, and an inner
/// failure is reported as it is.
pub proof fn lemma_run_consumes_all(p: PModel, input: Seq<char>)
    ensures
        run_sem(p, input) is Ok ==> (sem(p, input, 0, Option::None, 0) matches Outcome::Done(
            v,
            pe,
        ) && pe == input.len()),
        forall|v: ValueModel, pe: nat|
            sem(p, input, 0, Option::None, 0) == Outcome::Done(v, pe) && pe != input.len()
                ==> run_sem(p, input) == Result::<ValueModel, ErrorModel>::Err(
                ErrorModel::IncompleteParse(Box::new(v)),
            ),
        forall|e: ErrorModel, pe: nat|
            sem(p, input, 0, Option::None, 0) == Outcome::Fail(e, pe) ==> run_sem(p, input)
                == Result::<ValueModel, ErrorModel>::Err(e),
{
}

/// Lifting leaves a value's item sequence unchanged.
proof fn lemma_items_lift(v: ValueModel)
    ensures
        items_of(lift_model(v)) == items_of(v),
{
}

/// Concatenation associativity in result shape: the two groupings of
/// `and` have the same meaning on every input — in particular, on
/// success both produce sequences with identical element order and
/// content, and on failure both report the same error from the same
/// position.
pub proof fn lemma_and_assoc(
    a: PModel,
    b: PModel,
    c: PModel,
    input: Seq<char>,
    pos: nat,
    env: Option<PModel>,
    envpos: nat,
)
    requires
        envpos <= pos <= input.len(),
    ensures
        sem(and_model(and_model(a, b), c), input, pos, env, envpos) == sem(
            and_model(a, and_model(b, c)),
            input,
            pos,
            env,
            envpos,
        ),
{
    let la = PModel::Lift(Box::new(a));
    let lb = PModel::Lift(Box::new(b));
    let lc = PModel::Lift(Box::new(c));
    let ab = and_model(a, b);
    let bc = and_model(b, c);
    let lhs = and_model(ab, c);
    let rhs = and_model(a, bc);
    match sem(a, input, pos, env, envpos) {
        Outcome::Fail(e, p1) => {
            assert(sem(la, input, pos, env, envpos) == Outcome::Fail(e, p1));
            assert(sem(ab, input, pos, env, envpos) == Outcome::Fail(e, p1));
            assert(sem(PModel::Lift(Box::new(ab)), input, pos, env, envpos) == Outcome::Fail(
                e,
                p1,
            ));
            assert(sem(lhs, input, pos, env, envpos) == Outcome::Fail(e, p1));
            assert(sem(rhs, input, pos, env, envpos) == Outcome::Fail(e, p1));
        },
        Outcome::Done(va, p1) => {
            let ia = items_of(va);
            lemma_items_lift(va);
            assert(sem(la, input, pos, env, envpos) == Outcome::Done(lift_model(va), p1));
            if !(envpos <= p1 && p1 <= input.len()) {
                let junk = Outcome::Fail(ErrorModel::RecursionError, p1);
                assert(sem(lb, input, p1, env, envpos) == junk);
                assert(sem(ab, input, pos, env, envpos) == junk);
                assert(sem(PModel::Lift(Box::new(ab)), input, pos, env, envpos) == junk);
                assert(sem(lhs, input, pos, env, envpos) == junk);
                assert(sem(PModel::Lift(Box::new(bc)), input, p1, env, envpos) == junk);
                assert(sem(rhs, input, pos, env, envpos) == junk);
            } else {
                match sem(b, input, p1, env, envpos) {
                    Outcome::Fail(e, p2) => {
                        assert(sem(lb, input, p1, env, envpos) == Outcome::Fail(e, p2));
                        assert(sem(ab, input, pos, env, envpos) == Outcome::Fail(e, p2));
                        assert(sem(PModel::Lift(Box::new(ab)), input, pos, env, envpos)
                            == Outcome::Fail(e, p2));
                        assert(sem(lhs, input, pos, env, envpos) == Outcome::Fail(e, p2));
                        assert(sem(bc, input, p1, env, envpos) == Outcome::Fail(e, p2));
                        assert(sem(PModel::Lift(Box::new(bc)), input, p1, env, envpos)
                            == Outcome::Fail(e, p2));
                        assert(sem(rhs, input, pos, env, envpos) == Outcome::Fail(e, p2));
                    },
                    Outcome::Done(vb, p2) => {
                        let ib = items_of(vb);
                        lemma_items_lift(vb);
                        assert(sem(lb, input, p1, env, envpos) == Outcome::Done(
                            lift_model(vb),
                            p2,
                        ));
                        let vab = ValueModel::Items(ia + ib);
                        assert(sem(ab, input, pos, env, envpos) == Outcome::Done(vab, p2));
                        assert(lift_model(vab) == vab);
                        assert(items_of(vab) == ia + ib);
                        assert(sem(PModel::Lift(Box::new(ab)), input, pos, env, envpos)
                            == Outcome::Done(vab, p2));
                        if !(envpos <= p2 && p2 <= input.len()) {
                            let junk = Outcome::Fail(ErrorModel::RecursionError, p2);
                            assert(sem(lc, input, p2, env, envpos) == junk);
                            assert(sem(lhs, input, pos, env, envpos) == junk);
                            assert(sem(bc, input, p1, env, envpos) == junk);
                            assert(sem(PModel::Lift(Box::new(bc)), input, p1, env, envpos)
                                == junk);
                            assert(sem(rhs, input, pos, env, envpos) == junk);
                        } else {
                            match sem(c, input, p2, env, envpos) {
                                Outcome::Fail(e, p3) => {
                                    assert(sem(lc, input, p2, env, envpos) == Outcome::Fail(
                                        e,
                                        p3,
                                    ));
                                    assert(sem(lhs, input, pos, env, envpos) == Outcome::Fail(
                                        e,
                                        p3,
                                    ));
                                    assert(sem(bc, input, p1, env, envpos) == Outcome::Fail(
                                        e,
                                        p3,
                                    ));
                                    assert(sem(
                                        PModel::Lift(Box::new(bc)),
                                        input,
                                        p1,
                                        env,
                                        envpos,
                                    ) == Outcome::Fail(e, p3));
                                    assert(sem(rhs, input, pos, env, envpos) == Outcome::Fail(
                                        e,
                                        p3,
                                    ));
                                },
                                Outcome::Done(vc, p3) => {
                                    let ic = items_of(vc);
                                    lemma_items_lift(vc);
                                    assert(sem(lc, input, p2, env, envpos) == Outcome::Done(
                                        lift_model(vc),
                                        p3,
                                    ));
                                    assert(sem(lhs, input, pos, env, envpos) == Outcome::Done(
                                        ValueModel::Items((ia + ib) + ic),
                                        p3,
                                    ));
                                    let vbc = ValueModel::Items(ib + ic);
                                    assert(sem(bc, input, p1, env, envpos) == Outcome::Done(
                                        vbc,
                                        p3,
                                    ));
                                    assert(lift_model(vbc) == vbc);
                                    assert(sem(
                                        PModel::Lift(Box::new(bc)),
                                        input,
                                        p1,
                                        env,
                                        envpos,
                                    ) == Outcome::Done(vbc, p3));
                                    assert(sem(rhs, input, pos, env, envpos) == Outcome::Done(
                                        ValueModel::Items(ia + (ib + ic)),
                                        p3,
                                    ));
                                    assert((ia + ib) + ic =~= ia + (ib + ic));
                                },
                            }
                        }
                    },
                }
            }
        },
    }
}

} // verus!
