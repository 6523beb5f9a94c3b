//! The disjunction of rules.

use crate::accounts::{Account, Accounts};
use crate::context::context_of;
use crate::error::{RuleResult, RuleSetError};
use crate::evaluation::{
    any_outcome, evaluate_each, last_failure, lemma_evaluate_each,
    lemma_first_success, lemma_last_failure, reason_at, requested_by, Evaluation,
};
use crate::model::{group_bytes, group_refused, parse_group, RuleView, MAX_DEPTH, TAG_ANY};
use crate::payload::Payload;
use crate::rule::{
    lemma_views, read_group, slices_view, views, write_group, ConstraintType, Rule,
};
use crate::state::{append_keys, keys_view, CounterKey, RuleState};
use crate::wire::written;
use vstd::prelude::*;

verus! {

/// Constraint representing a group OR, where at least one rule contained must pass.
#[derive(Debug, PartialEq, Eq)]
pub struct Any {
    /// The rules contained under Any, in order.
    pub rules: Vec<Rule>,
}

impl View for Any {
    type V = RuleView;

    open spec fn view(&self) -> RuleView {
        RuleView::Any(views(self.rules@))
    }
}

/// What the decoded body of a combinator stands for.
pub open spec fn decoded(r: Result<Any, RuleSetError>) -> Result<Seq<RuleView>, RuleSetError> {
    match r {
        Ok(group) => Ok(views(group.rules@)),
        Err(e) => Err(e),
    }
}

impl Any {
    /// Deserialize a constraint from its body: a count, then that many rules.
    pub fn from_bytes(bytes: &[u8]) -> (r: Result<Any, RuleSetError>)
        ensures
            decoded(r) == parse_group(bytes@, (MAX_DEPTH - 1) as nat),
    {
        match read_group(bytes, MAX_DEPTH - 1) {
            Ok(rules) => Ok(Any { rules }),
            Err(e) => Err(e),
        }
    }

    /// Serialize a constraint into a byte array, from its rules, each already
    /// serialized: the header, the number of rules, then the rules.
    pub fn serialize(rules: &[&[u8]]) -> (r: Result<Vec<u8>, RuleSetError>)
        ensures
            group_refused(slices_view(rules@)) is None ==> r is Ok,
            written(
                r,
                group_refused(slices_view(rules@)),
                group_bytes(TAG_ANY, slices_view(rules@)),
            ),
    {
        write_group(TAG_ANY, rules)
    }

    /// The kind of the constraint.
    pub fn constraint_type(&self) -> (kind: ConstraintType)
        ensures
            kind == ConstraintType::Any,
    {
        ConstraintType::Any
    }

    /// The number of rules contained under Any.
    pub fn size(&self) -> (n: u64)
        ensures
            n == self.rules@.len(),
    {
        self.rules.len() as u64
    }

    /// Asks the rules in order, up to the first that succeeds. The result is
    /// that success; without one, the last failure; without one, the last
    /// error; and without rules, that the engine failed. Also tells how many
    /// rules were asked, and which counters the rules that were asked want
    /// changed.
    pub fn evaluate(
        &self,
        accounts: &Accounts,
        payload: &Payload,
        update_rule_state: bool,
        rule_set_state_pda: &Option<&RuleState>,
        rule_authority: &Option<&Account>,
    ) -> (e: Evaluation)
        ensures
            e.of(self@, context_of(
                accounts,
                payload,
                update_rule_state,
                rule_set_state_pda,
                rule_authority,
            )),
        decreases self, 0nat,
    {
        let ghost ctx = context_of(
            accounts,
            payload,
            update_rule_state,
            rule_set_state_pda,
            rule_authority,
        );
        let ghost all = views(self.rules@);
        let ghost results = evaluate_each(all, ctx);
        proof {
            lemma_views(self.rules@);
            lemma_evaluate_each(all, ctx);
            assert(results.take(0) =~= Seq::<RuleResult>::empty());
        }
        let mut failed: Option<RuleSetError> = None;
        let mut errored: Option<RuleSetError> = None;
        let mut updates: Vec<CounterKey> = Vec::new();
        let mut i: usize = 0;
        proof {
            assert(keys_view(updates@) =~= requested_by(all, 0, ctx));
        }
        while i < self.rules.len()
            invariant
                i <= self.rules@.len(),
                ctx == context_of(
                    accounts,
                    payload,
                    update_rule_state,
                    rule_set_state_pda,
                    rule_authority,
                ),
                all == views(self.rules@),
                results == evaluate_each(all, ctx),
                results.len() == self.rules@.len(),
                all.len() == self.rules@.len(),
                forall|j: int| 0 <= j < all.len() ==> (#[trigger] all[j]) == self.rules@[j]@,
                forall|j: int|
                    0 <= j < results.len() ==> (#[trigger] results[j]) == all[j].evaluate(ctx),
                forall|j: int| 0 <= j < i ==> !((#[trigger] results[j]) is Success),
                failed == reason_at(results, last_failure(results.take(i as int))),
                i == 0 ==> errored is None,
                i > 0 && results[i - 1] is Error ==> errored == Some(results[i - 1]->Error_0),
                keys_view(updates@) == requested_by(all, i as nat, ctx),
            decreases self.rules@.len() - i,
        {
            let child = self.rules[i].evaluate(
                accounts,
                payload,
                update_rule_state,
                rule_set_state_pda,
                rule_authority,
            );
            append_keys(&mut updates, &child.updates);
            proof {
                assert(all[i as int] == self.rules@[i as int]@);
                assert(keys_view(updates@) == requested_by(all, (i + 1) as nat, ctx));
                assert(results.take(i + 1).drop_last() =~= results.take(i as int));
                assert(results.take(i + 1).last() == results[i as int]);
                lemma_first_success(results);
            }
            match child.result {
                RuleResult::Success(_) => {
                    return Evaluation { result: child.result, asked: i + 1, updates };
                },
                RuleResult::Failure(reason) => {
                    failed = Some(reason);
                },
                RuleResult::Error(reason) => {
                    errored = Some(reason);
                },
            }
            i = i + 1;
        }
        proof {
            assert(results.take(i as int) =~= results);
            lemma_first_success(results);
            lemma_last_failure(results);
        }
        let result = if let Some(reason) = failed {
            RuleResult::Failure(reason)
        } else if let Some(reason) = errored {
            RuleResult::Error(reason)
        } else {
            RuleResult::Error(RuleSetError::UnexpectedEngineFailure)
        };
        Evaluation { result, asked: i, updates }
    }

    /// Decide whether one of the rules permits the operation.
    pub fn validate(
        &self,
        accounts: &Accounts,
        payload: &Payload,
        update_rule_state: bool,
        rule_set_state_pda: &Option<&RuleState>,
        rule_authority: &Option<&Account>,
    ) -> (r: RuleResult)
        ensures
            r == self@.evaluate(context_of(
                accounts,
                payload,
                update_rule_state,
                rule_set_state_pda,
                rule_authority,
            )),
            r == any_outcome(evaluate_each(views(self.rules@), context_of(
                accounts,
                payload,
                update_rule_state,
                rule_set_state_pda,
                rule_authority,
            ))),
        decreases self, 1nat,
    {
        self.evaluate(
            accounts,
            payload,
            update_rule_state,
            rule_set_state_pda,
            rule_authority,
        ).result
    }
}

} // verus!
