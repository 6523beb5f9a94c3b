//! The accounts that a caller makes available to the rules.

use crate::pubkey::Pubkey;
use vstd::prelude::*;

verus! {

/// What the rules can see of an account.
#[derive(Clone, Debug, PartialEq, Eq)]
pub struct Account {
    /// The address of the account.
    pub key: Pubkey,
    /// The program that owns the account.
    pub owner: Pubkey,
    /// Whether the account signed the transaction.
    pub is_signer: bool,
    /// The data that the account holds.
    pub data: Vec<u8>,
}

/// The accounts by address, later entries overriding earlier ones.
pub open spec fn accounts_map(entries: Seq<Account>) -> Map<Seq<u8>, Account>
    decreases entries.len(),
{
    if entries.len() == 0 {
        Map::empty()
    } else {
        accounts_map(entries.drop_last()).insert(entries.last().key@, entries.last())
    }
}

/// The accounts that a caller makes available, each under its address.
#[derive(Clone, Debug)]
pub struct Accounts {
    entries: Vec<Account>,
}

impl View for Accounts {
    type V = Map<Seq<u8>, Account>;

    closed spec fn view(&self) -> Map<Seq<u8>, Account> {
        accounts_map(self.entries@)
    }
}

impl Accounts {
    /// No accounts.
    pub fn new() -> (accounts: Accounts)
        ensures
            accounts@ == Map::<Seq<u8>, Account>::empty(),
    {
        Accounts { entries: Vec::new() }
    }

    /// Puts the account under its address, in place of what was there.
    pub fn insert(&mut self, account: Account)
        ensures
            final(self)@ == old(self)@.insert(account.key@, account),
    {
        let ghost before = self.entries@;
        self.entries.push(account);
        proof {
            assert(self.entries@.drop_last() =~= before);
        }
    }

    /// The account under the address, if there is one.
    pub fn get(&self, key: &Pubkey) -> (account: Option<&Account>)
        ensures
            account is Some <==> self@.dom().contains(key@),
            account matches Some(a) ==> *a == self@[key@],
    {
        let ghost all = self.entries@;
        let mut i: usize = self.entries.len();
        proof {
            assert(all.take(i as int) =~= all);
        }
        while i > 0
            invariant
                i <= all.len(),
                all == self.entries@,
                accounts_map(all).dom().contains(key@) == accounts_map(
                    all.take(i as int),
                ).dom().contains(key@),
                accounts_map(all).dom().contains(key@) ==> accounts_map(all)[key@] == accounts_map(
                    all.take(i as int),
                )[key@],
            decreases i,
        {
            proof {
                assert(all.take(i as int).drop_last() =~= all.take(i - 1));
            }
            i = i - 1;
            if self.entries[i].key.same_as(key) {
                return Some(&self.entries[i]);
            }
        }
        None
    }
}

} // verus!
