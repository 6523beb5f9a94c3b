//! The rule on an account's signature.

use crate::accounts::{Account, Accounts};
use crate::context::context_of;
use crate::error::{RuleResult, RuleSetError};
use crate::leaf::{leaf_read, leaf_written, parse_leaf, LeafView, TAG_ADDITIONAL_SIGNER};
use crate::payload::Payload;
use crate::rule::ConstraintType;
use crate::state::RuleState;
use crate::wire::write_node;
use crate::pubkey::Pubkey;
use vstd::prelude::*;

verus! {

/// Constraint that requires a given account to have signed.
#[derive(Clone, Debug, PartialEq, Eq)]
pub struct AdditionalSigner {
    /// The address of the account that must have signed.
    pub account: Pubkey,
}

impl View for AdditionalSigner {
    type V = LeafView;

    open spec fn view(&self) -> LeafView {
        LeafView::AdditionalSigner { account: self.account@ }
    }
}

impl AdditionalSigner {
    /// Deserialize a constraint from its body: the address.
    pub fn from_bytes(bytes: &[u8]) -> (r: Result<AdditionalSigner, RuleSetError>)
        ensures
            leaf_read(r) == parse_leaf(TAG_ADDITIONAL_SIGNER, bytes@),
    {
        if bytes.len() > 32 {
            return Err(RuleSetError::LengthMismatch);
        }
        match Pubkey::from_slice(bytes) {
            Some(account) => Ok(AdditionalSigner { account }),
            None => Err(RuleSetError::TruncatedBuffer),
        }
    }

    /// Serialize a constraint into a byte array: the header, then the address.
    pub fn serialize(account: &Pubkey) -> (r: Result<Vec<u8>, RuleSetError>)
        ensures
            r is Ok,
            leaf_written(r, (LeafView::AdditionalSigner { account: account@ })),
    {
        write_node(TAG_ADDITIONAL_SIGNER, account.as_slice())
    }

    /// The kind of the constraint.
    pub fn constraint_type(&self) -> (kind: ConstraintType)
        ensures
            kind == ConstraintType::AdditionalSigner,
    {
        ConstraintType::AdditionalSigner
    }

    /// Decide whether the account signed: an error where the account was not
    /// passed in, success where it signed, failure where it did not.
    pub fn validate(
        &self,
        accounts: &Accounts,
        payload: &Payload,
        update_rule_state: bool,
        rule_set_state_pda: &Option<&RuleState>,
        rule_authority: &Option<&Account>,
    ) -> (r: RuleResult)
        ensures
            r == self@.decide(context_of(
                accounts,
                payload,
                update_rule_state,
                rule_set_state_pda,
                rule_authority,
            )),
    {
        match accounts.get(&self.account) {
            None => RuleResult::Error(RuleSetError::MissingAccount),
            Some(account) => {
                if account.is_signer {
                    RuleResult::Success(self.constraint_type().to_error())
                } else {
                    RuleResult::Failure(self.constraint_type().to_error())
                }
            },
        }
    }
}

} // verus!
