//! The negation of a rule.

use crate::accounts::{Account, Accounts};
use crate::context::context_of;
use crate::error::{RuleResult, RuleSetError};
use crate::evaluation::{negated, Evaluation};
use crate::model::{parse_rule, RuleView, MAX_DEPTH, TAG_NOT};
use crate::payload::Payload;
use crate::rule::{ConstraintType, Rule};
use crate::state::RuleState;
use crate::wire::{node_bytes, node_refused, write_node, written};
use vstd::prelude::*;

verus! {

/// Constraint representing a negation, where the rule contained must fail.
#[derive(Debug, PartialEq, Eq)]
pub struct Not {
    /// The rule contained under Not.
    pub rule: Box<Rule>,
}

impl View for Not {
    type V = RuleView;

    open spec fn view(&self) -> RuleView {
        RuleView::Not(Box::new(self.rule@))
    }
}

/// The rule that is all of a negation's body.
pub open spec fn parse_negated(bytes: Seq<u8>, limit: nat) -> Result<RuleView, RuleSetError> {
    match parse_rule(bytes, limit) {
        Ok((rule, n)) => if n == bytes.len() {
            Ok(rule)
        } else {
            Err(RuleSetError::LengthMismatch)
        },
        Err(e) => Err(e),
    }
}

/// What the decoded body of a negation stands for.
pub open spec fn decoded(r: Result<Not, RuleSetError>) -> Result<RuleView, RuleSetError> {
    match r {
        Ok(not) => Ok(not.rule@),
        Err(e) => Err(e),
    }
}

impl Not {
    /// Deserialize a constraint from its body: one rule.
    pub fn from_bytes(bytes: &[u8]) -> (r: Result<Not, RuleSetError>)
        ensures
            decoded(r) == parse_negated(bytes@, (MAX_DEPTH - 1) as nat),
    {
        match Rule::from_bytes_bounded(bytes, MAX_DEPTH - 1) {
            Ok((rule, n)) => {
                if n != bytes.len() {
                    return Err(RuleSetError::LengthMismatch);
                }
                Ok(Not { rule: Box::new(rule) })
            },
            Err(e) => Err(e),
        }
    }

    /// Serialize a constraint into a byte array, from its rule, already
    /// serialized: the header, then the rule.
    pub fn serialize(rule: &[u8]) -> (r: Result<Vec<u8>, RuleSetError>)
        ensures
            rule@.len() <= u32::MAX ==> r is Ok,
            written(r, node_refused(rule@), node_bytes(TAG_NOT, rule@)),
    {
        write_node(TAG_NOT, rule)
    }

    /// The kind of the constraint.
    pub fn constraint_type(&self) -> (kind: ConstraintType)
        ensures
            kind == ConstraintType::Not,
    {
        ConstraintType::Not
    }

    /// Asks the rule, and decides the opposite: success where it fails,
    /// failure where it succeeds, and its error where it cannot be
    /// evaluated. Also tells which counters the rule wants changed.
    pub fn evaluate(
        &self,
        accounts: &Accounts,
        payload: &Payload,
        update_rule_state: bool,
        rule_set_state_pda: &Option<&RuleState>,
        rule_authority: &Option<&Account>,
    ) -> (e: Evaluation)
        ensures
            e.of(self@, context_of(
                accounts,
                payload,
                update_rule_state,
                rule_set_state_pda,
                rule_authority,
            )),
        decreases self, 0nat,
    {
        let inner = self.rule.evaluate(
            accounts,
            payload,
            update_rule_state,
            rule_set_state_pda,
            rule_authority,
        );
        let result = match inner.result {
            RuleResult::Success(reason) => RuleResult::Failure(reason),
            RuleResult::Failure(reason) => RuleResult::Success(reason),
            RuleResult::Error(reason) => RuleResult::Error(reason),
        };
        Evaluation { result, asked: 1, updates: inner.updates }
    }

    /// Decide the opposite of what the rule decides.
    pub fn validate(
        &self,
        accounts: &Accounts,
        payload: &Payload,
        update_rule_state: bool,
        rule_set_state_pda: &Option<&RuleState>,
        rule_authority: &Option<&Account>,
    ) -> (r: RuleResult)
        ensures
            r == negated(self.rule@.evaluate(context_of(
                accounts,
                payload,
                update_rule_state,
                rule_set_state_pda,
                rule_authority,
            ))),
        decreases self, 1nat,
    {
        self.evaluate(
            accounts,
            payload,
            update_rule_state,
            rule_set_state_pda,
            rule_authority,
        ).result
    }
}

} // verus!
