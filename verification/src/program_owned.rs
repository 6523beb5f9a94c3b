//! The rule on the owner of an account.

use crate::accounts::{Account, Accounts};
use crate::context::context_of;
use crate::error::{RuleResult, RuleSetError};
use crate::leaf::{
    leaf_read, leaf_written, parse_leaf, read_keyed, write_keyed, LeafView, TAG_PROGRAM_OWNED,
};
use crate::payload::Payload;
use crate::rule::ConstraintType;
use crate::state::RuleState;
use crate::wire::write_node;
use crate::pubkey::Pubkey;
use vstd::prelude::*;

verus! {

/// Constraint that requires an account to be owned by a given program. The
/// account is the one whose address the payload has under `field`.
#[derive(Clone, Debug, PartialEq, Eq)]
pub struct ProgramOwned {
    /// The program that must own the account.
    pub program: Pubkey,
    /// The field of the payload that the rule reads.
    pub field: String,
}

impl View for ProgramOwned {
    type V = LeafView;

    open spec fn view(&self) -> LeafView {
        LeafView::ProgramOwned { program: self.program@, field: self.field@ }
    }
}

impl ProgramOwned {
    /// Deserialize a constraint from its body: the address, then the field name.
    pub fn from_bytes(bytes: &[u8]) -> (r: Result<ProgramOwned, RuleSetError>)
        ensures
            leaf_read(r) == parse_leaf(TAG_PROGRAM_OWNED, bytes@),
    {
        match read_keyed(bytes) {
            Ok((program, field)) => Ok(ProgramOwned { program, field }),
            Err(e) => Err(e),
        }
    }

    /// Serialize a constraint into a byte array: the header, the address,
    /// then the field name.
    pub fn serialize(program: &Pubkey, field: &String) -> (r: Result<Vec<u8>, RuleSetError>)
        ensures
            leaf_written(r, (LeafView::ProgramOwned { program: program@, field: field@ })),
    {
        let body = write_keyed(program, field);
        write_node(TAG_PROGRAM_OWNED, body.as_slice())
    }

    /// The kind of the constraint.
    pub fn constraint_type(&self) -> (kind: ConstraintType)
        ensures
            kind == ConstraintType::ProgramOwned,
    {
        ConstraintType::ProgramOwned
    }

    /// Decide whether the account that the payload names under the field is
    /// owned by the program: an error where the payload has no address under
    /// the field or the account was not passed in, success where the owner
    /// is the program, failure where it is another.
    pub fn validate(
        &self,
        accounts: &Accounts,
        payload: &Payload,
        update_rule_state: bool,
        rule_set_state_pda: &Option<&RuleState>,
        rule_authority: &Option<&Account>,
    ) -> (r: RuleResult)
        ensures
            r == self@.decide(context_of(
                accounts,
                payload,
                update_rule_state,
                rule_set_state_pda,
                rule_authority,
            )),
    {
        let key = match payload.address(&self.field) {
            Ok(key) => key,
            Err(e) => {
                return RuleResult::Error(e);
            },
        };
        match accounts.get(key) {
            None => RuleResult::Error(RuleSetError::MissingAccount),
            Some(account) => {
                if account.owner.same_as(&self.program) {
                    RuleResult::Success(self.constraint_type().to_error())
                } else {
                    RuleResult::Failure(self.constraint_type().to_error())
                }
            },
        }
    }
}

} // verus!
