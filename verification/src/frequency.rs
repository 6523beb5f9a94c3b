//! The rule that limits how often an operation is performed.

use crate::accounts::{Account, Accounts};
use crate::context::context_of;
use crate::error::{RuleResult, RuleSetError};
use crate::leaf::{
    leaf_read, leaf_written, parse_leaf, read_limited, write_limited, LeafView, TAG_FREQUENCY,
};
use crate::pubkey::Pubkey;
use crate::payload::Payload;
use crate::rule::ConstraintType;
use crate::state::{keys_view, CounterKey, RuleState};
use crate::wire::write_node;
use crate::evaluation::Evaluation;
use crate::model::RuleView;
use vstd::prelude::*;

verus! {

/// Constraint that limits how often an operation is performed on an account:
/// it passes while fewer than `limit` passing calls have been counted for the
/// account whose address the payload has under `field`. The count is kept in
/// the counters of the rule set, under the rule's `number` and that address.
/// The rule is asked on behalf of an authority, which must have been passed
/// in and have signed.
#[derive(Clone, Debug, PartialEq, Eq)]
pub struct Frequency {
    /// The address of the authority over the rule.
    pub authority: Pubkey,
    /// The number under which the rule counts.
    pub number: u64,
    /// The count from which on the rule fails.
    pub limit: u64,
    /// The field of the payload that the rule reads.
    pub field: String,
}

impl View for Frequency {
    type V = LeafView;

    open spec fn view(&self) -> LeafView {
        LeafView::Frequency {
            authority: self.authority@,
            number: self.number,
            limit: self.limit,
            field: self.field@,
        }
    }
}

impl Frequency {
    /// Deserialize a constraint from its body: the authority's address, the
    /// number, the limit, then the field name.
    pub fn from_bytes(bytes: &[u8]) -> (r: Result<Frequency, RuleSetError>)
        ensures
            leaf_read(r) == parse_leaf(TAG_FREQUENCY, bytes@),
    {
        match read_limited(bytes) {
            Err(e) => Err(e),
            Ok((authority, number, limit, field)) => Ok(
                Frequency { authority, number, limit, field },
            ),
        }
    }

    /// Serialize a constraint into a byte array: the header, the authority's
    /// address, the number, the limit, then the field name.
    pub fn serialize(authority: &Pubkey, number: u64, limit: u64, field: &String) -> (r: Result<
        Vec<u8>,
        RuleSetError,
    >)
        ensures
            leaf_written(
                r,
                (LeafView::Frequency { authority: authority@, number, limit, field: field@ }),
            ),
    {
        let body = match write_limited(authority, number, limit, field) {
            Ok(body) => body,
            Err(e) => {
                return Err(e);
            },
        };
        write_node(TAG_FREQUENCY, body.as_slice())
    }

    /// The kind of the constraint.
    pub fn constraint_type(&self) -> (kind: ConstraintType)
        ensures
            kind == ConstraintType::Frequency,
    {
        ConstraintType::Frequency
    }

    /// Decide whether the operation may be performed once more: an error
    /// where the authority was not passed in, is another than the rule's or
    /// did not sign, where the payload has no address under the field, or
    /// where no counters were passed in; success while the count is below
    /// the limit; failure from then on. Nothing is counted by this.
    pub fn validate(
        &self,
        accounts: &Accounts,
        payload: &Payload,
        update_rule_state: bool,
        rule_set_state_pda: &Option<&RuleState>,
        rule_authority: &Option<&Account>,
    ) -> (r: RuleResult)
        ensures
            r == self@.decide(context_of(
                accounts,
                payload,
                update_rule_state,
                rule_set_state_pda,
                rule_authority,
            )),
    {
        match rule_authority {
            None => {
                return RuleResult::Error(RuleSetError::MissingAccount);
            },
            Some(authority) => {
                if !authority.key.same_as(&self.authority) || !authority.is_signer {
                    return RuleResult::Error(RuleSetError::RuleAuthorityIsNotSigner);
                }
            },
        }
        let address = match payload.address(&self.field) {
            Ok(address) => address,
            Err(e) => {
                return RuleResult::Error(e);
            },
        };
        match rule_set_state_pda {
            None => RuleResult::Error(RuleSetError::MissingRuleState),
            Some(state) => {
                let key = CounterKey { rule: self.number, resource: *address };
                if state.count(&key) < self.limit {
                    RuleResult::Success(self.constraint_type().to_error())
                } else {
                    RuleResult::Failure(self.constraint_type().to_error())
                }
            },
        }
    }

    /// Decide as `validate` does, and ask for the call to be counted where
    /// it is to be counted and the rule succeeds: one more under the rule's
    /// counter for the account.
    pub fn evaluate(
        &self,
        accounts: &Accounts,
        payload: &Payload,
        update_rule_state: bool,
        rule_set_state_pda: &Option<&RuleState>,
        rule_authority: &Option<&Account>,
    ) -> (e: Evaluation)
        ensures
            e.of(RuleView::Leaf(self@), context_of(
                accounts,
                payload,
                update_rule_state,
                rule_set_state_pda,
                rule_authority,
            )),
    {
        let result = self.validate(
            accounts,
            payload,
            update_rule_state,
            rule_set_state_pda,
            rule_authority,
        );
        let mut updates: Vec<CounterKey> = Vec::new();
        if update_rule_state {
            if let RuleResult::Success(_) = result {
                match payload.address(&self.field) {
                    Ok(address) => {
                        updates.push(CounterKey { rule: self.number, resource: *address });
                    },
                    Err(_) => {},
                }
            }
        }
        proof {
            let ctx = context_of(
                accounts,
                payload,
                update_rule_state,
                rule_set_state_pda,
                rule_authority,
            );
            assert(keys_view(updates@) =~= self@.requested(ctx));
        }
        Evaluation { result, asked: 0, updates }
    }
}

} // verus!
