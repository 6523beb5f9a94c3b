//! What a rule tree decides, given the accounts and the payload of a call.

use crate::context::Context;
use crate::error::{RuleResult, RuleSetError};
use crate::model::RuleView;
use crate::state::{keys_view, CounterKey};
use vstd::prelude::*;

verus! {

/// The index of the first success among the results, if there is one.
pub open spec fn first_success(results: Seq<RuleResult>) -> Option<int>
    decreases results.len(),
{
    if results.len() == 0 {
        None
    } else {
        match first_success(results.drop_last()) {
            Some(i) => Some(i),
            None => if results.last() is Success {
                Some(results.len() - 1)
            } else {
                None
            },
        }
    }
}

/// The index of the first result that is no success, if there is one.
pub open spec fn first_stop(results: Seq<RuleResult>) -> Option<int>
    decreases results.len(),
{
    if results.len() == 0 {
        None
    } else {
        match first_stop(results.drop_last()) {
            Some(i) => Some(i),
            None => if results.last() is Success {
                None
            } else {
                Some(results.len() - 1)
            },
        }
    }
}

/// The index of the last failure among the results, if there is one.
pub open spec fn last_failure(results: Seq<RuleResult>) -> Option<int>
    decreases results.len(),
{
    if results.len() == 0 {
        None
    } else if results.last() is Failure {
        Some(results.len() - 1)
    } else {
        last_failure(results.drop_last())
    }
}

/// The reason of the failure at the index, if there is an index.
pub open spec fn reason_at(results: Seq<RuleResult>, index: Option<int>) -> Option<RuleSetError> {
    match index {
        Some(i) => Some(results[i]->Failure_0),
        None => None,
    }
}

/// What a disjunction decides, given what its rules decide, in order: the
/// first success; without one, the last failure; without one, the last
/// error; and without any result, that the engine failed.
pub open spec fn any_outcome(results: Seq<RuleResult>) -> RuleResult {
    match first_success(results) {
        Some(i) => results[i],
        None => match last_failure(results) {
            Some(i) => results[i],
            None => if results.len() > 0 {
                results.last()
            } else {
                RuleResult::Error(RuleSetError::UnexpectedEngineFailure)
            },
        },
    }
}

/// How many of its rules a disjunction asks: up to the first success.
pub open spec fn any_evaluated(results: Seq<RuleResult>) -> nat {
    match first_success(results) {
        Some(i) => (i + 1) as nat,
        None => results.len(),
    }
}

/// What a conjunction decides, given what its rules decide, in order: the
/// first result that is no success; without one, the last success; and
/// without any result, that the engine failed.
pub open spec fn all_outcome(results: Seq<RuleResult>) -> RuleResult {
    match first_stop(results) {
        Some(i) => results[i],
        None => if results.len() > 0 {
            results.last()
        } else {
            RuleResult::Error(RuleSetError::UnexpectedEngineFailure)
        },
    }
}

/// How many of its rules a conjunction asks: up to the first that is no success.
pub open spec fn all_evaluated(results: Seq<RuleResult>) -> nat {
    match first_stop(results) {
        Some(i) => (i + 1) as nat,
        None => results.len(),
    }
}

/// What a negation decides, given what its rule decides: success for
/// failure and failure for success, with the same reason; an error stays.
pub open spec fn negated(result: RuleResult) -> RuleResult {
    match result {
        RuleResult::Success(reason) => RuleResult::Failure(reason),
        RuleResult::Failure(reason) => RuleResult::Success(reason),
        RuleResult::Error(reason) => RuleResult::Error(reason),
    }
}

impl RuleView {
    /// What the tree decides.
    pub open spec fn evaluate(self, ctx: Context) -> RuleResult
        decreases self, 0nat,
    {
        match self {
            RuleView::Leaf(leaf) => leaf.decide(ctx),
            RuleView::Any(rules) => any_outcome(evaluate_each(rules, ctx)),
            RuleView::All(rules) => all_outcome(evaluate_each(rules, ctx)),
            RuleView::Not(rule) => negated(rule.evaluate(ctx)),
        }
    }

    /// How many of its sub-rules the rule asks.
    pub open spec fn asked(self, ctx: Context) -> nat {
        match self {
            RuleView::Leaf(_) => 0,
            RuleView::Any(rules) => any_evaluated(evaluate_each(rules, ctx)),
            RuleView::All(rules) => all_evaluated(evaluate_each(rules, ctx)),
            RuleView::Not(_) => 1,
        }
    }

    /// The counters that the tree asks to have one more counted under: those
    /// of the rules that were asked, in the order in which they were asked.
    pub open spec fn requested(self, ctx: Context) -> Seq<(u64, Seq<u8>)>
        decreases self, 0nat,
    {
        match self {
            RuleView::Leaf(leaf) => leaf.requested(ctx),
            RuleView::Any(rules) => requested_by(
                rules,
                any_evaluated(evaluate_each(rules, ctx)),
                ctx,
            ),
            RuleView::All(rules) => requested_by(
                rules,
                all_evaluated(evaluate_each(rules, ctx)),
                ctx,
            ),
            RuleView::Not(rule) => rule.requested(ctx),
        }
    }
}

/// What each of the rules decides, in order.
pub open spec fn evaluate_each(rules: Seq<RuleView>, ctx: Context) -> Seq<RuleResult>
    decreases rules, 0nat,
{
    if rules.len() == 0 {
        Seq::empty()
    } else {
        evaluate_each(rules.drop_last(), ctx).push(rules.last().evaluate(ctx))
    }
}

/// The counters that the first `asked` of the rules ask for, in order.
pub open spec fn requested_by(rules: Seq<RuleView>, asked: nat, ctx: Context) -> Seq<
    (u64, Seq<u8>),
>
    decreases rules, asked,
{
    if asked == 0 || asked > rules.len() {
        Seq::empty()
    } else {
        requested_by(rules, (asked - 1) as nat, ctx) + rules[asked - 1].requested(ctx)
    }
}

/// What evaluating a rule gives.
#[derive(Clone, Debug, PartialEq, Eq)]
pub struct Evaluation {
    /// What the rule decides.
    pub result: RuleResult,
    /// How many of its sub-rules the rule asked.
    pub asked: usize,
    /// The counters that one more is to be counted under.
    pub updates: Vec<CounterKey>,
}

impl Evaluation {
    /// Whether this is what evaluating the rule in the context gives.
    pub open spec fn of(self, rule: RuleView, ctx: Context) -> bool {
        &&& self.result == rule.evaluate(ctx)
        &&& self.asked == rule.asked(ctx)
        &&& keys_view(self.updates@) == rule.requested(ctx)
    }
}

/// `evaluate_each` goes rule by rule.
pub proof fn lemma_evaluate_each(rules: Seq<RuleView>, ctx: Context)
    ensures
        evaluate_each(rules, ctx).len() == rules.len(),
        forall|i: int|
            0 <= i < rules.len() ==> (#[trigger] evaluate_each(rules, ctx)[i]) == rules[i].evaluate(
                ctx,
            ),
    decreases rules.len(),
{
    if rules.len() > 0 {
        lemma_evaluate_each(rules.drop_last(), ctx);
    }
}

/// The first success is a success, and nothing before it is one.
pub proof fn lemma_first_success(results: Seq<RuleResult>)
    ensures
        match first_success(results) {
            Some(i) => {
                &&& 0 <= i < results.len()
                &&& results[i] is Success
                &&& forall|j: int| 0 <= j < i ==> !((#[trigger] results[j]) is Success)
            },
            None => forall|j: int| 0 <= j < results.len() ==> !((#[trigger] results[j]) is Success),
        },
    decreases results.len(),
{
    if results.len() > 0 {
        let init = results.drop_last();
        lemma_first_success(init);
        assert forall|j: int| 0 <= j < init.len() implies (#[trigger] results[j]) == init[j] by {}
    }
}

/// The first stop is no success, and everything before it is one.
pub proof fn lemma_first_stop(results: Seq<RuleResult>)
    ensures
        match first_stop(results) {
            Some(i) => {
                &&& 0 <= i < results.len()
                &&& !(results[i] is Success)
                &&& forall|j: int| 0 <= j < i ==> (#[trigger] results[j]) is Success
            },
            None => forall|j: int| 0 <= j < results.len() ==> (#[trigger] results[j]) is Success,
        },
    decreases results.len(),
{
    if results.len() > 0 {
        let init = results.drop_last();
        lemma_first_stop(init);
        assert forall|j: int| 0 <= j < init.len() implies (#[trigger] results[j]) == init[j] by {}
    }
}

/// The last failure is a failure, and nothing after it is one.
pub proof fn lemma_last_failure(results: Seq<RuleResult>)
    ensures
        match last_failure(results) {
            Some(i) => {
                &&& 0 <= i < results.len()
                &&& results[i] is Failure
                &&& forall|j: int| i < j < results.len() ==> !((#[trigger] results[j]) is Failure)
            },
            None => forall|j: int| 0 <= j < results.len() ==> !((#[trigger] results[j]) is Failure),
        },
    decreases results.len(),
{
    if results.len() > 0 {
        let init = results.drop_last();
        lemma_last_failure(init);
        assert forall|j: int| 0 <= j < init.len() implies (#[trigger] results[j]) == init[j] by {}
    }
}

/// A disjunction stops at its first success: where a rule succeeds and none
/// before it does, that success is the outcome, and no later rule is asked.
pub proof fn law_any_short_circuit(results: Seq<RuleResult>, i: int)
    requires
        0 <= i < results.len(),
        results[i] is Success,
        forall|j: int| 0 <= j < i ==> !((#[trigger] results[j]) is Success),
    ensures
        any_outcome(results) == results[i],
        any_evaluated(results) == i + 1,
{
    lemma_first_success(results);
}

/// A disjunction without a success reports its last failure: where no rule
/// succeeds, one fails and none after it does, that failure is the outcome,
/// and every rule was asked.
pub proof fn law_any_last_failure(results: Seq<RuleResult>, i: int)
    requires
        0 <= i < results.len(),
        results[i] is Failure,
        forall|j: int| 0 <= j < results.len() ==> !((#[trigger] results[j]) is Success),
        forall|j: int| i < j < results.len() ==> !((#[trigger] results[j]) is Failure),
    ensures
        any_outcome(results) == results[i],
        any_evaluated(results) == results.len(),
{
    lemma_first_success(results);
    lemma_last_failure(results);
}

/// A disjunction whose rules all end in errors reports the last error.
pub proof fn law_any_all_errors(results: Seq<RuleResult>)
    requires
        results.len() > 0,
        forall|j: int| 0 <= j < results.len() ==> (#[trigger] results[j]) is Error,
    ensures
        any_outcome(results) == results.last(),
{
    lemma_first_success(results);
    lemma_last_failure(results);
}

/// A disjunction without rules reports that the engine failed.
pub proof fn law_any_empty()
    ensures
        any_outcome(Seq::empty()) == RuleResult::Error(RuleSetError::UnexpectedEngineFailure),
{
}

/// A disjunction succeeds exactly when one of its rules does, and fails
/// exactly when none succeeds and one fails.
pub proof fn law_any_decides(results: Seq<RuleResult>)
    ensures
        any_outcome(results) is Success <==> exists|j: int|
            0 <= j < results.len() && (#[trigger] results[j]) is Success,
        any_outcome(results) is Failure <==> (forall|j: int|
            0 <= j < results.len() ==> !((#[trigger] results[j]) is Success)) && exists|j: int|
            0 <= j < results.len() && (#[trigger] results[j]) is Failure,
{
    lemma_first_success(results);
    lemma_last_failure(results);
}

/// A conjunction succeeds exactly when it has rules and all of them succeed;
/// otherwise its outcome is the first result that is no success, or, without
/// rules, that the engine failed.
pub proof fn law_all_decides(results: Seq<RuleResult>)
    ensures
        all_outcome(results) is Success <==> results.len() > 0 && forall|j: int|
            0 <= j < results.len() ==> (#[trigger] results[j]) is Success,
        all_outcome(results) is Success ==> all_outcome(results) == results.last(),
{
    lemma_first_stop(results);
}

/// Negating twice changes nothing.
pub proof fn law_double_negation(result: RuleResult)
    ensures
        negated(negated(result)) == result,
{
}

/// In a call that is not to be counted, no rule asks for a counter to
/// change, whatever the rules decide.
pub proof fn law_no_updates_without_flag(rule: RuleView, ctx: Context)
    requires
        !ctx.update_rule_state,
    ensures
        rule.requested(ctx) == Seq::<(u64, Seq<u8>)>::empty(),
    decreases rule, 0nat,
{
    match rule {
        RuleView::Leaf(_) => {},
        RuleView::Any(rules) => {
            lemma_no_updates_by(rules, any_evaluated(evaluate_each(rules, ctx)), ctx);
        },
        RuleView::All(rules) => {
            lemma_no_updates_by(rules, all_evaluated(evaluate_each(rules, ctx)), ctx);
        },
        RuleView::Not(negated) => {
            law_no_updates_without_flag(*negated, ctx);
        },
    }
}

/// In a call that is not to be counted, none of the rules asks for a counter
/// to change.
pub proof fn lemma_no_updates_by(rules: Seq<RuleView>, asked: nat, ctx: Context)
    requires
        !ctx.update_rule_state,
    ensures
        requested_by(rules, asked, ctx) == Seq::<(u64, Seq<u8>)>::empty(),
    decreases rules, asked,
{
    if asked != 0 && asked <= rules.len() {
        lemma_no_updates_by(rules, (asked - 1) as nat, ctx);
        law_no_updates_without_flag(rules[asked - 1], ctx);
    }
}

/// What a tree decides, and how many sub-rules it asks, does not depend on
/// whether the call is to be counted.
pub proof fn law_decision_ignores_flag(rule: RuleView, ctx: Context, flag: bool)
    ensures
        rule.evaluate((Context { update_rule_state: flag, ..ctx })) == rule.evaluate(ctx),
        rule.asked((Context { update_rule_state: flag, ..ctx })) == rule.asked(ctx),
    decreases rule, 0nat,
{
    let other = Context { update_rule_state: flag, ..ctx };
    match rule {
        RuleView::Leaf(_) => {},
        RuleView::Any(rules) => {
            lemma_decisions_ignore_flag(rules, ctx, flag);
        },
        RuleView::All(rules) => {
            lemma_decisions_ignore_flag(rules, ctx, flag);
        },
        RuleView::Not(negated) => {
            law_decision_ignores_flag(*negated, ctx, flag);
        },
    }
}

/// What each of the rules decides does not depend on whether the call is to
/// be counted.
pub proof fn lemma_decisions_ignore_flag(rules: Seq<RuleView>, ctx: Context, flag: bool)
    ensures
        evaluate_each(rules, (Context { update_rule_state: flag, ..ctx })) == evaluate_each(
            rules,
            ctx,
        ),
    decreases rules, 1nat,
{
    if rules.len() > 0 {
        lemma_decisions_ignore_flag(rules.drop_last(), ctx, flag);
        law_decision_ignores_flag(rules.last(), ctx, flag);
    }
}

} // verus!
