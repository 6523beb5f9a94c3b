//! The rule on an amount in the payload.

use crate::accounts::{Account, Accounts};
use crate::context::context_of;
use crate::error::{RuleResult, RuleSetError};
use crate::leaf::{
    leaf_read, leaf_written, parse_leaf, read_numbered, write_numbered, LeafView, TAG_AMOUNT,
};
use crate::payload::Payload;
use crate::rule::ConstraintType;
use crate::state::RuleState;
use crate::wire::write_node;
use crate::operator::CompareOp;
use vstd::prelude::*;

verus! {

/// Constraint that requires the amount that the payload has under `field`
/// to compare to a given amount in a given way.
#[derive(Clone, Debug, PartialEq, Eq)]
pub struct Amount {
    /// The amount to compare to.
    pub amount: u64,
    /// How the payload's amount must compare to it.
    pub operator: CompareOp,
    /// The field of the payload that the rule reads.
    pub field: String,
}

impl View for Amount {
    type V = LeafView;

    open spec fn view(&self) -> LeafView {
        LeafView::Amount { amount: self.amount, operator: self.operator, field: self.field@ }
    }
}

impl Amount {
    /// Deserialize a constraint from its body: the amount, the number of the
    /// comparison, then the field name.
    pub fn from_bytes(bytes: &[u8]) -> (r: Result<Amount, RuleSetError>)
        ensures
            leaf_read(r) == parse_leaf(TAG_AMOUNT, bytes@),
    {
        match read_numbered(bytes) {
            Err(e) => Err(e),
            Ok((amount, code, field)) => match CompareOp::from_code(code) {
                None => Err(RuleSetError::InvalidOperator),
                Some(operator) => Ok(Amount { amount, operator, field }),
            },
        }
    }

    /// Serialize a constraint into a byte array: the header, the amount, the
    /// number of the comparison, then the field name.
    pub fn serialize(amount: u64, operator: CompareOp, field: &String) -> (r: Result<
        Vec<u8>,
        RuleSetError,
    >)
        ensures
            leaf_written(r, (LeafView::Amount { amount, operator, field: field@ })),
    {
        let body = match write_numbered(amount, operator.code(), field) {
            Ok(body) => body,
            Err(e) => {
                return Err(e);
            },
        };
        write_node(TAG_AMOUNT, body.as_slice())
    }

    /// The kind of the constraint.
    pub fn constraint_type(&self) -> (kind: ConstraintType)
        ensures
            kind == ConstraintType::Amount,
    {
        ConstraintType::Amount
    }

    /// Decide whether the amount that the payload has under the field
    /// compares to the rule's as the rule says: an error where the payload
    /// has no amount under the field, success where it does, failure where
    /// it does not.
    pub fn validate(
        &self,
        accounts: &Accounts,
        payload: &Payload,
        update_rule_state: bool,
        rule_set_state_pda: &Option<&RuleState>,
        rule_authority: &Option<&Account>,
    ) -> (r: RuleResult)
        ensures
            r == self@.decide(context_of(
                accounts,
                payload,
                update_rule_state,
                rule_set_state_pda,
                rule_authority,
            )),
    {
        match payload.amount(&self.field) {
            Err(e) => RuleResult::Error(e),
            Ok(given) => {
                if self.operator.holds(given, self.amount) {
                    RuleResult::Success(self.constraint_type().to_error())
                } else {
                    RuleResult::Failure(self.constraint_type().to_error())
                }
            },
        }
    }
}

} // verus!
