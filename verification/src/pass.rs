//! The rule that always passes.

use crate::accounts::{Account, Accounts};
use crate::context::context_of;
use crate::error::{RuleResult, RuleSetError};
use crate::leaf::{leaf_read, leaf_written, parse_leaf, LeafView, TAG_PASS};
use crate::payload::Payload;
use crate::rule::ConstraintType;
use crate::state::RuleState;
use crate::wire::{header_bytes, lemma_header_round_trip, write_node};
use vstd::prelude::*;

verus! {

/// Constraint representing an operation that always succeeds.
#[derive(Clone, Debug, PartialEq, Eq)]
pub struct Pass {}

impl View for Pass {
    type V = LeafView;

    open spec fn view(&self) -> LeafView {
        LeafView::Pass
    }
}

impl Pass {
    /// Deserialize a constraint from its body, which holds nothing.
    pub fn from_bytes(bytes: &[u8]) -> (r: Result<Pass, RuleSetError>)
        ensures
            bytes@.len() == 0 <==> r is Ok,
            r matches Err(e) ==> e == RuleSetError::LengthMismatch,
            leaf_read(r) == parse_leaf(TAG_PASS, bytes@),
    {
        if bytes.len() == 0 {
            Ok(Pass {  })
        } else {
            Err(RuleSetError::LengthMismatch)
        }
    }

    /// Serialize a constraint into a byte array: its header alone.
    pub fn serialize() -> (r: Result<Vec<u8>, RuleSetError>)
        ensures
            r is Ok,
            r matches Ok(data) ==> data@ == header_bytes(TAG_PASS, 0) && data@.len() == 8,
            leaf_written(r, LeafView::Pass),
    {
        let body: Vec<u8> = Vec::new();
        proof {
            lemma_header_round_trip(TAG_PASS, 0, Seq::empty());
            assert(header_bytes(TAG_PASS, 0) + Seq::<u8>::empty() =~= header_bytes(TAG_PASS, 0));
        }
        write_node(TAG_PASS, body.as_slice())
    }

    /// The kind of the constraint.
    pub fn constraint_type(&self) -> (kind: ConstraintType)
        ensures
            kind == ConstraintType::Pass,
    {
        ConstraintType::Pass
    }

    /// Always succeeds, whatever the call holds.
    pub fn validate(
        &self,
        accounts: &Accounts,
        payload: &Payload,
        update_rule_state: bool,
        rule_set_state_pda: &Option<&RuleState>,
        rule_authority: &Option<&Account>,
    ) -> (r: RuleResult)
        ensures
            r == RuleResult::Success(RuleSetError::UnexpectedEngineFailure),
            r == self@.decide(context_of(
                accounts,
                payload,
                update_rule_state,
                rule_set_state_pda,
                rule_authority,
            )),
    {
        RuleResult::Success(self.constraint_type().to_error())
    }
}

} // verus!
