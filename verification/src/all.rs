//! The conjunction of rules.

use crate::accounts::{Account, Accounts};
use crate::context::context_of;
use crate::error::{RuleResult, RuleSetError};
use crate::evaluation::{
    all_outcome, evaluate_each, lemma_evaluate_each, lemma_first_stop,
    requested_by, Evaluation,
};
use crate::model::{group_bytes, group_refused, parse_group, RuleView, MAX_DEPTH, TAG_ALL};
use crate::payload::Payload;
use crate::rule::{
    lemma_views, read_group, slices_view, views, write_group, ConstraintType, Rule,
};
use crate::state::{append_keys, keys_view, CounterKey, RuleState};
use crate::wire::written;
use vstd::prelude::*;

verus! {

/// Constraint representing a group AND, where every rule contained must pass.
#[derive(Debug, PartialEq, Eq)]
pub struct All {
    /// The rules contained under All, in order.
    pub rules: Vec<Rule>,
}

impl View for All {
    type V = RuleView;

    open spec fn view(&self) -> RuleView {
        RuleView::All(views(self.rules@))
    }
}

/// What the decoded body of a combinator stands for.
pub open spec fn decoded(r: Result<All, RuleSetError>) -> Result<Seq<RuleView>, RuleSetError> {
    match r {
        Ok(group) => Ok(views(group.rules@)),
        Err(e) => Err(e),
    }
}

impl All {
    /// Deserialize a constraint from its body: a count, then that many rules.
    pub fn from_bytes(bytes: &[u8]) -> (r: Result<All, RuleSetError>)
        ensures
            decoded(r) == parse_group(bytes@, (MAX_DEPTH - 1) as nat),
    {
        match read_group(bytes, MAX_DEPTH - 1) {
            Ok(rules) => Ok(All { rules }),
            Err(e) => Err(e),
        }
    }

    /// Serialize a constraint into a byte array, from its rules, each already
    /// serialized: the header, the number of rules, then the rules.
    pub fn serialize(rules: &[&[u8]]) -> (r: Result<Vec<u8>, RuleSetError>)
        ensures
            group_refused(slices_view(rules@)) is None ==> r is Ok,
            written(
                r,
                group_refused(slices_view(rules@)),
                group_bytes(TAG_ALL, slices_view(rules@)),
            ),
    {
        write_group(TAG_ALL, rules)
    }

    /// The kind of the constraint.
    pub fn constraint_type(&self) -> (kind: ConstraintType)
        ensures
            kind == ConstraintType::All,
    {
        ConstraintType::All
    }

    /// The number of rules contained under All.
    pub fn size(&self) -> (n: u64)
        ensures
            n == self.rules@.len(),
    {
        self.rules.len() as u64
    }

    /// Asks the rules in order, up to the first that does not succeed. The
    /// result is that of the rule that stopped it; without one, the last
    /// success; and without rules, that the engine failed. Also tells how
    /// many rules were asked, and which counters the rules that were asked
    /// want changed.
    pub fn evaluate(
        &self,
        accounts: &Accounts,
        payload: &Payload,
        update_rule_state: bool,
        rule_set_state_pda: &Option<&RuleState>,
        rule_authority: &Option<&Account>,
    ) -> (e: Evaluation)
        ensures
            e.of(self@, context_of(
                accounts,
                payload,
                update_rule_state,
                rule_set_state_pda,
                rule_authority,
            )),
        decreases self, 0nat,
    {
        let ghost ctx = context_of(
            accounts,
            payload,
            update_rule_state,
            rule_set_state_pda,
            rule_authority,
        );
        let ghost all = views(self.rules@);
        let ghost results = evaluate_each(all, ctx);
        proof {
            lemma_views(self.rules@);
            lemma_evaluate_each(all, ctx);
            assert(results.take(0) =~= Seq::<RuleResult>::empty());
        }
        let mut last: Option<RuleResult> = None;
        let mut updates: Vec<CounterKey> = Vec::new();
        let mut i: usize = 0;
        proof {
            assert(keys_view(updates@) =~= requested_by(all, 0, ctx));
        }
        while i < self.rules.len()
            invariant
                i <= self.rules@.len(),
                ctx == context_of(
                    accounts,
                    payload,
                    update_rule_state,
                    rule_set_state_pda,
                    rule_authority,
                ),
                all == views(self.rules@),
                results == evaluate_each(all, ctx),
                results.len() == self.rules@.len(),
                all.len() == self.rules@.len(),
                forall|j: int| 0 <= j < all.len() ==> (#[trigger] all[j]) == self.rules@[j]@,
                forall|j: int|
                    0 <= j < results.len() ==> (#[trigger] results[j]) == all[j].evaluate(ctx),
                forall|j: int| 0 <= j < i ==> (#[trigger] results[j]) is Success,
                i == 0 ==> last is None,
                i > 0 ==> last == Some(results[i - 1]),
                keys_view(updates@) == requested_by(all, i as nat, ctx),
            decreases self.rules@.len() - i,
        {
            let child = self.rules[i].evaluate(
                accounts,
                payload,
                update_rule_state,
                rule_set_state_pda,
                rule_authority,
            );
            append_keys(&mut updates, &child.updates);
            proof {
                assert(all[i as int] == self.rules@[i as int]@);
                assert(keys_view(updates@) == requested_by(all, (i + 1) as nat, ctx));
                assert(child.result == results[i as int]);
                lemma_first_stop(results);
            }
            match child.result {
                RuleResult::Success(_) => {},
                _ => {
                    return Evaluation { result: child.result, asked: i + 1, updates };
                },
            }
            last = Some(child.result);
            i = i + 1;
        }
        proof {
            lemma_first_stop(results);
        }
        let result = match last {
            Some(result) => result,
            None => RuleResult::Error(RuleSetError::UnexpectedEngineFailure),
        };
        Evaluation { result, asked: i, updates }
    }

    /// Decide whether every one of the rules permits the operation.
    pub fn validate(
        &self,
        accounts: &Accounts,
        payload: &Payload,
        update_rule_state: bool,
        rule_set_state_pda: &Option<&RuleState>,
        rule_authority: &Option<&Account>,
    ) -> (r: RuleResult)
        ensures
            r == self@.evaluate(context_of(
                accounts,
                payload,
                update_rule_state,
                rule_set_state_pda,
                rule_authority,
            )),
            r == all_outcome(evaluate_each(views(self.rules@), context_of(
                accounts,
                payload,
                update_rule_state,
                rule_set_state_pda,
                rule_authority,
            ))),
        decreases self, 1nat,
    {
        self.evaluate(
            accounts,
            payload,
            update_rule_state,
            rule_set_state_pda,
            rule_authority,
        ).result
    }
}

} // verus!
