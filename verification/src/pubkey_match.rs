//! The rule on an address in the payload.

use crate::accounts::{Account, Accounts};
use crate::context::context_of;
use crate::error::{RuleResult, RuleSetError};
use crate::leaf::{
    leaf_read, leaf_written, parse_leaf, read_keyed, write_keyed, LeafView, TAG_PUBKEY_MATCH,
};
use crate::payload::Payload;
use crate::rule::ConstraintType;
use crate::state::RuleState;
use crate::wire::write_node;
use crate::pubkey::Pubkey;
use vstd::prelude::*;

verus! {

/// Constraint that requires the payload to hold a given address under `field`.
#[derive(Clone, Debug, PartialEq, Eq)]
pub struct PubkeyMatch {
    /// The address that the payload must hold.
    pub pubkey: Pubkey,
    /// The field of the payload that the rule reads.
    pub field: String,
}

impl View for PubkeyMatch {
    type V = LeafView;

    open spec fn view(&self) -> LeafView {
        LeafView::PubkeyMatch { pubkey: self.pubkey@, field: self.field@ }
    }
}

impl PubkeyMatch {
    /// Deserialize a constraint from its body: the address, then the field name.
    pub fn from_bytes(bytes: &[u8]) -> (r: Result<PubkeyMatch, RuleSetError>)
        ensures
            leaf_read(r) == parse_leaf(TAG_PUBKEY_MATCH, bytes@),
    {
        match read_keyed(bytes) {
            Ok((pubkey, field)) => Ok(PubkeyMatch { pubkey, field }),
            Err(e) => Err(e),
        }
    }

    /// Serialize a constraint into a byte array: the header, the address,
    /// then the field name.
    pub fn serialize(pubkey: &Pubkey, field: &String) -> (r: Result<Vec<u8>, RuleSetError>)
        ensures
            leaf_written(r, (LeafView::PubkeyMatch { pubkey: pubkey@, field: field@ })),
    {
        let body = write_keyed(pubkey, field);
        write_node(TAG_PUBKEY_MATCH, body.as_slice())
    }

    /// The kind of the constraint.
    pub fn constraint_type(&self) -> (kind: ConstraintType)
        ensures
            kind == ConstraintType::PubkeyMatch,
    {
        ConstraintType::PubkeyMatch
    }

    /// Decide whether the address that the payload has under the field is
    /// the rule's: an error where the payload has no address under the
    /// field, success where it is the rule's, failure where it is another.
    pub fn validate(
        &self,
        accounts: &Accounts,
        payload: &Payload,
        update_rule_state: bool,
        rule_set_state_pda: &Option<&RuleState>,
        rule_authority: &Option<&Account>,
    ) -> (r: RuleResult)
        ensures
            r == self@.decide(context_of(
                accounts,
                payload,
                update_rule_state,
                rule_set_state_pda,
                rule_authority,
            )),
    {
        match payload.address(&self.field) {
            Err(e) => RuleResult::Error(e),
            Ok(key) => {
                if key.same_as(&self.pubkey) {
                    RuleResult::Success(self.constraint_type().to_error())
                } else {
                    RuleResult::Failure(self.constraint_type().to_error())
                }
            },
        }
    }
}

} // verus!
