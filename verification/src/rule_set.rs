//! A rule set: the rules of an authority, one for each operation.

use crate::accounts::{Account, Accounts};
use crate::context::context_of;
use crate::error::{RuleResult, RuleSetError};
use crate::laws::law_rule_set_encodes_decoded;
use crate::model::{lemma_encoding_len, parse_rule, RuleView, MAX_DEPTH};
use crate::payload::Payload;
use crate::state::RuleState;
use crate::pubkey::Pubkey;
use crate::rule::Rule;
use crate::wire::{parse_text, put_u32, read_text, read_u32, u32_at, u32_le, written};
use vstd::prelude::*;
use vstd::slice::slice_subrange;
use vstd::utf8::encode_utf8;

verus! {

/// A rule set as a mathematical value.
pub struct RuleSetView {
    /// The name of the rule set.
    pub name: Seq<char>,
    /// The address of the authority that owns the rule set.
    pub owner: Seq<u8>,
    /// The operations and their rules, in the order in which they were added.
    pub operations: Seq<(Seq<char>, RuleView)>,
}

/// The index of the operation among the entries, if it is among them.
pub open spec fn position(entries: Seq<(Seq<char>, RuleView)>, operation: Seq<char>) -> Option<int>
    decreases entries.len(),
{
    if entries.len() == 0 {
        None
    } else {
        match position(entries.drop_last(), operation) {
            Some(i) => Some(i),
            None => if entries.last().0 == operation {
                Some(entries.len() - 1)
            } else {
                None
            },
        }
    }
}

/// Whether no operation occurs twice among the entries.
pub open spec fn distinct(entries: Seq<(Seq<char>, RuleView)>) -> bool {
    forall|i: int, j: int|
        0 <= i < j < entries.len() ==> (#[trigger] entries[i]).0 != (#[trigger] entries[j]).0
}

/// The position of an operation is that of an entry for it, and of the first;
/// an operation without a position has no entry.
pub proof fn lemma_position(entries: Seq<(Seq<char>, RuleView)>, operation: Seq<char>)
    ensures
        match position(entries, operation) {
            Some(i) => {
                &&& 0 <= i < entries.len()
                &&& entries[i].0 == operation
                &&& forall|j: int| 0 <= j < i ==> (#[trigger] entries[j]).0 != operation
            },
            None => forall|j: int|
                0 <= j < entries.len() ==> (#[trigger] entries[j]).0 != operation,
        },
    decreases entries.len(),
{
    if entries.len() > 0 {
        let init = entries.drop_last();
        lemma_position(init, operation);
        assert forall|j: int| 0 <= j < init.len() implies (#[trigger] entries[j]) == init[j] by {}
    }
}

/// A name on the wire: its length in bytes, then the name in UTF-8.
pub open spec fn text_bytes(text: Seq<char>) -> Seq<u8> {
    u32_le(encode_utf8(text).len() as u32) + encode_utf8(text)
}

/// Why a name cannot be written, if it cannot: it is longer than four bytes
/// can say.
pub open spec fn text_refused(text: Seq<char>) -> Option<RuleSetError> {
    if encode_utf8(text).len() > u32::MAX {
        Some(RuleSetError::NumericalOverflow)
    } else {
        None
    }
}

/// An entry on the wire: the operation, the length of the rule, then the rule.
pub open spec fn entry_bytes(entry: (Seq<char>, RuleView)) -> Seq<u8> {
    text_bytes(entry.0) + u32_le(entry.1.len() as u32) + entry.1.encoding()
}

/// Why an entry cannot be written, if it cannot.
pub open spec fn entry_refused(entry: (Seq<char>, RuleView)) -> Option<RuleSetError> {
    match text_refused(entry.0) {
        Some(e) => Some(e),
        None => match entry.1.unwritable() {
            Some(e) => Some(e),
            None => if entry.1.len() > u32::MAX {
                Some(RuleSetError::NumericalOverflow)
            } else {
                None
            },
        },
    }
}

/// The entries on the wire, back to back.
pub open spec fn entries_bytes(entries: Seq<(Seq<char>, RuleView)>) -> Seq<u8>
    decreases entries.len(),
{
    if entries.len() == 0 {
        Seq::empty()
    } else {
        entries_bytes(entries.drop_last()) + entry_bytes(entries.last())
    }
}

/// The first reason, in order, why one of the entries cannot be written.
pub open spec fn entries_refused(entries: Seq<(Seq<char>, RuleView)>) -> Option<RuleSetError>
    decreases entries.len(),
{
    if entries.len() == 0 {
        None
    } else {
        match entries_refused(entries.drop_last()) {
            Some(e) => Some(e),
            None => entry_refused(entries.last()),
        }
    }
}

impl RuleSetView {
    /// The rule set on the wire: the name, the owner, the number of
    /// operations, then the entries.
    pub open spec fn encoding(self) -> Seq<u8> {
        text_bytes(self.name) + self.owner + u32_le(self.operations.len() as u32) + entries_bytes(
            self.operations,
        )
    }

    /// Why the rule set cannot be written, if it cannot.
    pub open spec fn unwritable(self) -> Option<RuleSetError> {
        match text_refused(self.name) {
            Some(e) => Some(e),
            None => if self.operations.len() > u32::MAX {
                Some(RuleSetError::NumericalOverflow)
            } else {
                entries_refused(self.operations)
            },
        }
    }

    /// Whether the owner's address and every address in the rules has
    /// thirty-two bytes, and no operation occurs twice.
    pub open spec fn well_formed(self) -> bool {
        &&& self.owner.len() == 32
        &&& distinct(self.operations)
        &&& forall|i: int|
            0 <= i < self.operations.len() ==> (#[trigger] self.operations[i]).1.well_formed()
    }
}

/// The name that starts at `at`, and where it ends.
pub open spec fn parse_text_at(bytes: Seq<u8>, at: int) -> Result<(Seq<char>, int), RuleSetError> {
    if at + 4 > bytes.len() {
        Err(RuleSetError::TruncatedBuffer)
    } else {
        let end = at + 4 + u32_at(bytes, at);
        if end > bytes.len() {
            Err(RuleSetError::TruncatedBuffer)
        } else {
            match parse_text(bytes.subrange(at + 4, end)) {
                Ok(text) => Ok((text, end)),
                Err(e) => Err(e),
            }
        }
    }
}

/// The entry that starts at `at`, and where it ends.
pub open spec fn parse_entry(bytes: Seq<u8>, at: int) -> Result<
    ((Seq<char>, RuleView), int),
    RuleSetError,
> {
    match parse_text_at(bytes, at) {
        Err(e) => Err(e),
        Ok((operation, next)) => if next + 4 > bytes.len() {
            Err(RuleSetError::TruncatedBuffer)
        } else {
            let end = next + 4 + u32_at(bytes, next);
            if end > bytes.len() {
                Err(RuleSetError::TruncatedBuffer)
            } else {
                match parse_rule(bytes.subrange(next + 4, end), MAX_DEPTH as nat) {
                    Err(e) => Err(e),
                    Ok((rule, used)) => if used != u32_at(bytes, next) {
                        Err(RuleSetError::LengthMismatch)
                    } else {
                        Ok(((operation, rule), end))
                    },
                }
            }
        }
    }
}

/// The entries read so far, then `count` more that start at `at`, stand back
/// to back and end where the buffer ends; no operation may occur twice.
pub open spec fn parse_entries(
    bytes: Seq<u8>,
    at: int,
    count: nat,
    seen: Seq<(Seq<char>, RuleView)>,
) -> Result<Seq<(Seq<char>, RuleView)>, RuleSetError>
    decreases count,
{
    if count == 0 {
        if at == bytes.len() {
            Ok(seen)
        } else {
            Err(RuleSetError::LengthMismatch)
        }
    } else {
        match parse_entry(bytes, at) {
            Err(e) => Err(e),
            Ok((entry, next)) => if position(seen, entry.0) is Some {
                Err(RuleSetError::DuplicateOperation)
            } else {
                parse_entries(bytes, next, (count - 1) as nat, seen.push(entry))
            },
        }
    }
}

/// The rule set that the buffer holds: a name, the owner's address, a
/// count, then that many entries, which end where the buffer ends.
pub open spec fn parse_rule_set(bytes: Seq<u8>) -> Result<RuleSetView, RuleSetError> {
    match parse_text_at(bytes, 0) {
        Err(e) => Err(e),
        Ok((name, at)) => if at + 36 > bytes.len() {
            Err(RuleSetError::TruncatedBuffer)
        } else {
            match parse_entries(bytes, at + 36, u32_at(bytes, at + 32) as nat, Seq::empty()) {
                Err(e) => Err(e),
                Ok(operations) => Ok(
                    RuleSetView { name, owner: bytes.subrange(at, at + 32), operations },
                ),
            }
        }
    }
}

/// What stops the first entries from being written stops them all.
pub proof fn lemma_entries_take(entries: Seq<(Seq<char>, RuleView)>, i: int)
    requires
        0 <= i <= entries.len(),
    ensures
        entries_refused(entries.take(i)) is Some ==> entries_refused(entries) == entries_refused(
            entries.take(i),
        ),
        i < entries.len() ==> entries_refused(entries.take(i + 1)) == (match entries_refused(
            entries.take(i),
        ) {
            Some(e) => Some(e),
            None => entry_refused(entries[i]),
        }),
        i < entries.len() ==> entries_bytes(entries.take(i + 1)) == entries_bytes(entries.take(i))
            + entry_bytes(entries[i]),
    decreases entries.len(),
{
    if i < entries.len() {
        assert(entries.take(i + 1).drop_last() =~= entries.take(i));
        assert(entries.drop_last().take(i) =~= entries.take(i));
        lemma_entries_take(entries.drop_last(), i);
    } else {
        assert(entries.take(i) =~= entries);
    }
}

/// Writes a name: its length in bytes, then the name in UTF-8.
pub(crate) fn put_text(text: &String, data: &mut Vec<u8>) -> (r: Result<(), RuleSetError>)
    ensures
        match r {
            Ok(_) => text_refused(text@) is None && final(data)@ == old(data)@ + text_bytes(text@),
            Err(e) => text_refused(text@) == Some(e) && final(data)@ == old(data)@,
        },
{
    let bytes = text.as_str().as_bytes();
    if bytes.len() > 0xffff_ffff {
        return Err(RuleSetError::NumericalOverflow);
    }
    match put_u32(bytes.len() as u32, data) {
        Ok(_) => {},
        Err(e) => {
            return Err(e);
        },
    }
    let ghost head = data@;
    data.extend_from_slice(bytes);
    proof {
        assert(data@ =~= head + encode_utf8(text@));
        assert(data@ =~= old(data)@ + text_bytes(text@));
    }
    Ok(())
}

/// Reads the name that starts at `at`; also returns where it ends.
pub(crate) fn read_text_at(bytes: &[u8], at: usize) -> (r: Result<(String, usize), RuleSetError>)
    requires
        at <= bytes@.len(),
    ensures
        match r {
            Ok((text, end)) => parse_text_at(bytes@, at as int) == Ok::<
                (Seq<char>, int),
                RuleSetError,
            >((text@, end as int)) && at <= end <= bytes@.len(),
            Err(e) => parse_text_at(bytes@, at as int) == Err::<(Seq<char>, int), RuleSetError>(e),
        },
{
    let total = bytes.len();
    if total - at < 4 {
        return Err(RuleSetError::TruncatedBuffer);
    }
    let length = read_u32(bytes, at) as usize;
    if total - at - 4 < length {
        return Err(RuleSetError::TruncatedBuffer);
    }
    let end = at + 4 + length;
    let part = slice_subrange(bytes, at + 4, end);
    proof {
        assert(part@.subrange(0, part@.len() as int) =~= part@);
    }
    match read_text(part, 0) {
        Ok(text) => Ok((text, end)),
        Err(e) => Err(e),
    }
}

/// The rules of an authority, one for each operation.
#[derive(Debug, PartialEq, Eq)]
pub struct RuleSet {
    name: String,
    owner: Pubkey,
    operations: Vec<(String, Rule)>,
}

/// The entries as mathematical values.
pub open spec fn entries_view(entries: Seq<(String, Rule)>) -> Seq<(Seq<char>, RuleView)> {
    entries.map_values(|entry: (String, Rule)| (entry.0@, entry.1@))
}

impl View for RuleSet {
    type V = RuleSetView;

    closed spec fn view(&self) -> RuleSetView {
        RuleSetView {
            name: self.name@,
            owner: self.owner@,
            operations: entries_view(self.operations@),
        }
    }
}

impl RuleSet {
    /// No operation occurs twice.
    #[verifier::type_invariant]
    spec fn operations_distinct(self) -> bool {
        distinct(entries_view(self.operations@))
    }

    /// A rule set of the owner, under the name, without operations.
    pub fn new(name: String, owner: Pubkey) -> (rule_set: RuleSet)
        ensures
            rule_set@.name == name@,
            rule_set@.owner == owner@,
            rule_set@.operations == Seq::<(Seq<char>, RuleView)>::empty(),
    {
        let rule_set = RuleSet { name, owner, operations: Vec::new() };
        proof {
            assert(entries_view(rule_set.operations@) =~= Seq::<(Seq<char>, RuleView)>::empty());
        }
        rule_set
    }

    /// The name of the rule set.
    pub fn name(&self) -> (name: &String)
        ensures
            name@ == self@.name,
    {
        &self.name
    }

    /// The address of the authority that owns the rule set.
    pub fn owner(&self) -> (owner: &Pubkey)
        ensures
            owner@ == self@.owner,
    {
        &self.owner
    }

    /// The number of operations that have a rule.
    pub fn len(&self) -> (n: usize)
        ensures
            n == self@.operations.len(),
    {
        self.operations.len()
    }

    /// The rule for the operation, if it has one.
    pub fn get(&self, operation: &String) -> (rule: Option<&Rule>)
        ensures
            distinct(self@.operations),
            match position(self@.operations, operation@) {
                Some(i) => rule matches Some(found) && found@ == self@.operations[i].1,
                None => rule is None,
            },
    {
        proof {
            use_type_invariant(self);
        }
        let ghost entries = entries_view(self.operations@);
        let mut i: usize = 0;
        while i < self.operations.len()
            invariant
                i <= self.operations@.len(),
                entries == entries_view(self.operations@),
                distinct(entries),
                forall|j: int| 0 <= j < i ==> (#[trigger] entries[j]).0 != operation@,
            decreases self.operations@.len() - i,
        {
            if self.operations[i].0 == *operation {
                proof {
                    assert(entries[i as int].0 == operation@);
                    lemma_position(entries, operation@);
                }
                return Some(&self.operations[i].1);
            }
            i = i + 1;
        }
        proof {
            lemma_position(entries, operation@);
        }
        None
    }

    /// Decide whether the rule set permits the operation: what the rule for
    /// the operation decides, or an error where the operation has no rule.
    /// Nothing is counted by this.
    pub fn validate(
        &self,
        operation: &String,
        accounts: &Accounts,
        payload: &Payload,
        update_rule_state: bool,
        rule_set_state_pda: &Option<&RuleState>,
        rule_authority: &Option<&Account>,
    ) -> (r: RuleResult)
        ensures
            match position(self@.operations, operation@) {
                Some(i) => r == self@.operations[i].1.evaluate(
                    context_of(
                        accounts,
                        payload,
                        update_rule_state,
                        rule_set_state_pda,
                        rule_authority,
                    ),
                ),
                None => r == RuleResult::Error(RuleSetError::OperationNotFound),
            },
    {
        match self.get(operation) {
            Some(rule) => rule.validate(
                accounts,
                payload,
                update_rule_state,
                rule_set_state_pda,
                rule_authority,
            ),
            None => RuleResult::Error(RuleSetError::OperationNotFound),
        }
    }

    /// Gives the operation its rule. An operation that has a rule keeps it,
    /// and the call fails.
    pub fn add(&mut self, operation: String, rule: Rule) -> (r: Result<(), RuleSetError>)
        ensures
            final(self)@.name == old(self)@.name,
            final(self)@.owner == old(self)@.owner,
            match position(old(self)@.operations, operation@) {
                Some(_) => {
                    &&& r == Err::<(), RuleSetError>(RuleSetError::DuplicateOperation)
                    &&& final(self)@ == old(self)@
                },
                None => {
                    &&& r is Ok
                    &&& final(self)@.operations == old(self)@.operations.push(
                        (operation@, rule@),
                    )
                },
            },
            distinct(final(self)@.operations),
    {
        proof {
            use_type_invariant(&*self);
            lemma_position(self@.operations, operation@);
        }
        if self.get(&operation).is_some() {
            return Err(RuleSetError::DuplicateOperation);
        }
        let ghost before = self.operations@;
        let mut operations: Vec<(String, Rule)> = Vec::new();
        proof {
            assert(entries_view(operations@) =~= Seq::<(Seq<char>, RuleView)>::empty());
        }
        core::mem::swap(&mut self.operations, &mut operations);
        operations.push((operation, rule));
        proof {
            assert(entries_view(operations@) =~= entries_view(before).push((operation@, rule@)));
        }
        core::mem::swap(&mut self.operations, &mut operations);
        Ok(())
    }
}

/// What a decoded entry and its end stand for.
pub open spec fn entry_view(r: Result<((String, Rule), usize), RuleSetError>) -> Result<
    ((Seq<char>, RuleView), int),
    RuleSetError,
> {
    match r {
        Ok(((operation, rule), end)) => Ok(((operation@, rule@), end as int)),
        Err(e) => Err(e),
    }
}

/// What a decoded rule set stands for.
pub open spec fn rule_set_view(r: Result<RuleSet, RuleSetError>) -> Result<
    RuleSetView,
    RuleSetError,
> {
    match r {
        Ok(rule_set) => Ok(rule_set@),
        Err(e) => Err(e),
    }
}

/// Reads the entry that starts at `at`; also returns where it ends.
pub(crate) fn read_entry(bytes: &[u8], at: usize) -> (r: Result<
    ((String, Rule), usize),
    RuleSetError,
>)
    requires
        at <= bytes@.len(),
    ensures
        entry_view(r) == parse_entry(bytes@, at as int),
        r matches Ok((_, end)) ==> at <= end <= bytes@.len(),
{
    let total = bytes.len();
    let (operation, next) = match read_text_at(bytes, at) {
        Ok(read) => read,
        Err(e) => {
            return Err(e);
        },
    };
    if total - next < 4 {
        return Err(RuleSetError::TruncatedBuffer);
    }
    let length = read_u32(bytes, next) as usize;
    if total - next - 4 < length {
        return Err(RuleSetError::TruncatedBuffer);
    }
    let end = next + 4 + length;
    match Rule::from_bytes(slice_subrange(bytes, next + 4, end)) {
        Err(e) => Err(e),
        Ok((rule, used)) => {
            if used != length {
                return Err(RuleSetError::LengthMismatch);
            }
            Ok(((operation, rule), end))
        },
    }
}

impl RuleSet {
    /// Serialize the rule set into a byte array: the name, the owner, the
    /// number of operations, then for each operation its name, the length
    /// of its rule, and its rule.
    pub fn serialize(&self) -> (r: Result<Vec<u8>, RuleSetError>)
        ensures
            distinct(self@.operations),
            self@.unwritable() is None ==> r is Ok,
            written(r, self@.unwritable(), self@.encoding()),
    {
        proof {
            use_type_invariant(self);
        }
        let ghost entries = entries_view(self.operations@);
        let mut data: Vec<u8> = Vec::new();
        match put_text(&self.name, &mut data) {
            Ok(_) => {},
            Err(e) => {
                return Err(e);
            },
        }
        data.extend_from_slice(self.owner.as_slice());
        let count = self.operations.len();
        if count > 0xffff_ffff {
            return Err(RuleSetError::NumericalOverflow);
        }
        match put_u32(count as u32, &mut data) {
            Ok(_) => {},
            Err(e) => {
                return Err(e);
            },
        }
        let ghost head = text_bytes(self.name@) + self.owner@ + u32_le(count as u32);
        proof {
            assert(data@ =~= head);
            assert(entries.take(0) =~= Seq::<(Seq<char>, RuleView)>::empty());
            assert(data@ =~= head + entries_bytes(entries.take(0)));
        }
        let mut i: usize = 0;
        while i < count
            invariant
                i <= count,
                count == self.operations@.len(),
                count <= u32::MAX,
                text_refused(self.name@) is None,
                head == text_bytes(self.name@) + self.owner@ + u32_le(count as u32),
                entries == entries_view(self.operations@),
                distinct(entries),
                entries_refused(entries.take(i as int)) is None,
                data@ == head + entries_bytes(entries.take(i as int)),
            decreases count - i,
        {
            proof {
                lemma_entries_take(entries, i as int);
                lemma_entries_take(entries, i + 1);
                lemma_encoding_len(self.operations@[i as int].1@);
                assert(entries[i as int] == (
                    self.operations@[i as int].0@,
                    self.operations@[i as int].1@,
                ));
            }
            let ghost before = data@;
            match put_text(&self.operations[i].0, &mut data) {
                Ok(_) => {},
                Err(e) => {
                    return Err(e);
                },
            }
            let rule = match self.operations[i].1.serialize() {
                Ok(rule) => rule,
                Err(e) => {
                    return Err(e);
                },
            };
            if rule.len() > 0xffff_ffff {
                return Err(RuleSetError::NumericalOverflow);
            }
            match put_u32(rule.len() as u32, &mut data) {
                Ok(_) => {},
                Err(e) => {
                    return Err(e);
                },
            }
            let ghost prefixed = data@;
            data.extend_from_slice(rule.as_slice());
            proof {
                assert(data@ =~= prefixed + rule@);
                assert(data@ =~= before + entry_bytes(entries[i as int]));
                assert(data@ =~= head + (entries_bytes(entries.take(i as int)) + entry_bytes(
                    entries[i as int],
                )));
            }
            i = i + 1;
        }
        proof {
            assert(entries.take(count as int) =~= entries);
        }
        Ok(data)
    }

    /// Deserialize a rule set from a byte array that holds it and nothing else.
    pub fn from_bytes(bytes: &[u8]) -> (r: Result<RuleSet, RuleSetError>)
        ensures
            rule_set_view(r) == parse_rule_set(bytes@),
            r matches Ok(rule_set) ==> rule_set@.encoding() == bytes@ && rule_set@.well_formed(),
    {
        proof {
            if parse_rule_set(bytes@) is Ok {
                law_rule_set_encodes_decoded(bytes@);
            }
        }
        let total = bytes.len();
        let (name, at) = match read_text_at(bytes, 0) {
            Ok(read) => read,
            Err(e) => {
                return Err(e);
            },
        };
        if total - at < 36 {
            return Err(RuleSetError::TruncatedBuffer);
        }
        let owner = match Pubkey::from_slice(slice_subrange(bytes, at, at + 32)) {
            Some(owner) => owner,
            None => {
                return Err(RuleSetError::TruncatedBuffer);
            },
        };
        let count = read_u32(bytes, at + 32);
        let mut rule_set = RuleSet::new(name, owner);
        let mut next: usize = at + 36;
        let mut remaining: u32 = count;
        while remaining > 0
            invariant
                next <= total,
                total == bytes@.len(),
                at + 36 <= total,
                parse_text_at(bytes@, 0) == Ok::<(Seq<char>, int), RuleSetError>(
                    (name@, at as int),
                ),
                owner@ == bytes@.subrange(at as int, at + 32),
                count == u32_at(bytes@, at + 32),
                rule_set@.name == name@,
                rule_set@.owner == owner@,
                parse_entries(bytes@, next as int, remaining as nat, rule_set@.operations)
                    == parse_entries(bytes@, at + 36, count as nat, Seq::empty()),
            decreases remaining,
        {
            let ((operation, rule), end) = match read_entry(bytes, next) {
                Ok(read) => read,
                Err(e) => {
                    return Err(e);
                },
            };
            match rule_set.add(operation, rule) {
                Ok(_) => {},
                Err(e) => {
                    return Err(e);
                },
            }
            next = end;
            remaining = remaining - 1;
        }
        if next != total {
            return Err(RuleSetError::LengthMismatch);
        }
        Ok(rule_set)
    }
}

} // verus!
