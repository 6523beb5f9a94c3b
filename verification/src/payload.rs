//! The payload of a call: typed values under field names.

use crate::error::RuleSetError;
use crate::leaf::{address_under, amount_under};
use crate::pubkey::Pubkey;
use vstd::prelude::*;

verus! {

/// A value of the payload.
#[derive(Clone, Debug, PartialEq, Eq)]
pub enum PayloadType {
    /// An address.
    Pubkey(Pubkey),
    /// A list of seeds, from which an address is derived.
    Seeds(Vec<Vec<u8>>),
    /// Raw bytes.
    Bytes(Vec<u8>),
    /// An amount.
    Number(u64),
}

/// What the entries say, later entries overriding earlier ones.
pub open spec fn payload_map(entries: Seq<(String, PayloadType)>) -> Map<Seq<char>, PayloadType>
    decreases entries.len(),
{
    if entries.len() == 0 {
        Map::empty()
    } else {
        payload_map(entries.drop_last()).insert(entries.last().0@, entries.last().1)
    }
}

/// The values that a caller hands to the rules, each under a field name.
#[derive(Clone, Debug)]
pub struct Payload {
    entries: Vec<(String, PayloadType)>,
}

impl View for Payload {
    type V = Map<Seq<char>, PayloadType>;

    closed spec fn view(&self) -> Map<Seq<char>, PayloadType> {
        payload_map(self.entries@)
    }
}

impl Payload {
    /// A payload without values.
    pub fn new() -> (payload: Payload)
        ensures
            payload@ == Map::<Seq<char>, PayloadType>::empty(),
    {
        Payload { entries: Vec::new() }
    }

    /// Puts `value` under `key`, in place of what was there.
    pub fn insert(&mut self, key: String, value: PayloadType)
        ensures
            final(self)@ == old(self)@.insert(key@, value),
    {
        let ghost before = self.entries@;
        self.entries.push((key, value));
        proof {
            assert(self.entries@.drop_last() =~= before);
        }
    }

    /// The value under `key`, if there is one.
    pub fn get(&self, key: &String) -> (value: Option<&PayloadType>)
        ensures
            value is Some <==> self@.dom().contains(key@),
            value matches Some(v) ==> *v == self@[key@],
    {
        let ghost all = self.entries@;
        let mut i: usize = self.entries.len();
        proof {
            assert(all.take(i as int) =~= all);
        }
        while i > 0
            invariant
                i <= all.len(),
                all == self.entries@,
                payload_map(all).dom().contains(key@) == payload_map(
                    all.take(i as int),
                ).dom().contains(key@),
                payload_map(all).dom().contains(key@) ==> payload_map(all)[key@] == payload_map(
                    all.take(i as int),
                )[key@],
            decreases i,
        {
            proof {
                assert(all.take(i as int).drop_last() =~= all.take(i - 1));
            }
            i = i - 1;
            if self.entries[i].0 == *key {
                return Some(&self.entries[i].1);
            }
        }
        None
    }

    /// The address under `key`, or why there is none: nothing is under the
    /// key, or a value of another kind.
    pub fn address(&self, key: &String) -> (value: Result<&Pubkey, RuleSetError>)
        ensures
            match value {
                Ok(k) => address_under(self@, key@) == Ok::<Seq<u8>, RuleSetError>(k@),
                Err(e) => address_under(self@, key@) == Err::<Seq<u8>, RuleSetError>(e),
            },
    {
        match self.get(key) {
            None => Err(RuleSetError::MissingPayloadValue),
            Some(PayloadType::Pubkey(k)) => Ok(k),
            Some(_) => Err(RuleSetError::WrongPayloadType),
        }
    }

    /// The amount under `key`, or why there is none: nothing is under the
    /// key, or a value of another kind.
    pub fn amount(&self, key: &String) -> (value: Result<u64, RuleSetError>)
        ensures
            value == amount_under(self@, key@),
    {
        match self.get(key) {
            None => Err(RuleSetError::MissingPayloadValue),
            Some(PayloadType::Number(amount)) => Ok(*amount),
            Some(_) => Err(RuleSetError::WrongPayloadType),
        }
    }

    /// The address under `key`, if there is one.
    pub fn get_pubkey(&self, key: &String) -> (value: Option<&Pubkey>)
        ensures
            value is Some <==> self@.dom().contains(key@) && self@[key@] is Pubkey,
            value matches Some(k) ==> *k == self@[key@]->Pubkey_0,
    {
        match self.get(key) {
            Some(PayloadType::Pubkey(k)) => Some(k),
            _ => None,
        }
    }
}

} // verus!
