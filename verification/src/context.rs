//! What a call hands to the rules, as a mathematical value.

use crate::accounts::{Account, Accounts};
use crate::payload::{Payload, PayloadType};
use crate::state::RuleState;
use vstd::prelude::*;

verus! {

/// What the rules are asked about.
pub struct Context {
    /// The accounts that were passed in, by address.
    pub accounts: Map<Seq<u8>, Account>,
    /// The values of the payload, by field name.
    pub payload: Map<Seq<char>, PayloadType>,
    /// Whether rules that count are to count this call.
    pub update_rule_state: bool,
    /// The counters of the rule set, if they were passed in.
    pub state: Option<Map<(u64, Seq<u8>), u64>>,
    /// The authority over the rule set, if it was passed in.
    pub authority: Option<Account>,
}

/// The context that the arguments of a call make up.
pub open spec fn context_of(
    accounts: &Accounts,
    payload: &Payload,
    update_rule_state: bool,
    rule_set_state_pda: &Option<&RuleState>,
    rule_authority: &Option<&Account>,
) -> Context {
    Context {
        accounts: accounts@,
        payload: payload@,
        update_rule_state,
        state: match *rule_set_state_pda {
            Some(state) => Some(state@),
            None => None,
        },
        authority: match *rule_authority {
            Some(authority) => Some(*authority),
            None => None,
        },
    }
}

} // verus!
