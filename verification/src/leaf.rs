//! The rules without sub-rules, as mathematical values: what each is on the
//! wire, and what each decides.

use crate::accounts::Account;
use crate::context::Context;
use crate::error::{RuleResult, RuleSetError};
use crate::operator::CompareOp;
use crate::payload::PayloadType;
use crate::pubkey::Pubkey;
use crate::state::count_of;
use crate::wire::{
    lemma_u64_at_encoded, lemma_u64_le_of_read, node_bytes, node_refused, parse_text, put_u64,
    read_text, read_u64, u64_at, u64_le, written,
};
use vstd::slice::slice_subrange;
use vstd::prelude::*;
use vstd::utf8::encode_utf8;

verus! {

/// Type tag of the rule on an account's signature.
pub const TAG_ADDITIONAL_SIGNER: u32 = 1;

/// Type tag of the rule on an amount.
pub const TAG_AMOUNT: u32 = 3;

/// Type tag of the rule on how often an operation is performed.
pub const TAG_FREQUENCY: u32 = 5;

/// Type tag of the rule that always passes.
pub const TAG_PASS: u32 = 9;

/// Type tag of the rule on the owner of an account.
pub const TAG_PROGRAM_OWNED: u32 = 11;

/// Type tag of the rule on an address.
pub const TAG_PUBKEY_MATCH: u32 = 15;

/// A rule without sub-rules.
pub enum LeafView {
    /// Passes when the account at the address signed.
    AdditionalSigner { account: Seq<u8> },
    /// Passes when the amount that the payload has under `field` compares to
    /// `amount` as `operator` says.
    Amount { amount: u64, operator: CompareOp, field: Seq<char> },
    /// Passes while fewer than `limit` passing calls have been counted for the
    /// account whose address the payload has under `field`. The count is kept
    /// under `number` and that address. The authority at `authority` must
    /// have been passed in, and have signed.
    Frequency { authority: Seq<u8>, number: u64, limit: u64, field: Seq<char> },
    /// Always passes.
    Pass,
    /// Passes when the account whose address the payload has under `field`
    /// is owned by `program`.
    ProgramOwned { program: Seq<u8>, field: Seq<char> },
    /// Passes when the address that the payload has under `field` is `pubkey`.
    PubkeyMatch { pubkey: Seq<u8>, field: Seq<char> },
}

/// Whether a type tag names a kind of rule without sub-rules.
pub open spec fn leaf_tag(tag: u32) -> bool {
    ||| tag == TAG_ADDITIONAL_SIGNER
    ||| tag == TAG_AMOUNT
    ||| tag == TAG_FREQUENCY
    ||| tag == TAG_PASS
    ||| tag == TAG_PROGRAM_OWNED
    ||| tag == TAG_PUBKEY_MATCH
}

/// The address that the payload has under the field, or why it has none.
pub open spec fn address_under(payload: Map<Seq<char>, PayloadType>, field: Seq<char>) -> Result<
    Seq<u8>,
    RuleSetError,
> {
    if !payload.dom().contains(field) {
        Err(RuleSetError::MissingPayloadValue)
    } else {
        match payload[field] {
            PayloadType::Pubkey(key) => Ok(key@),
            _ => Err(RuleSetError::WrongPayloadType),
        }
    }
}

/// The amount that the payload has under the field, or why it has none.
pub open spec fn amount_under(payload: Map<Seq<char>, PayloadType>, field: Seq<char>) -> Result<
    u64,
    RuleSetError,
> {
    if !payload.dom().contains(field) {
        Err(RuleSetError::MissingPayloadValue)
    } else {
        match payload[field] {
            PayloadType::Number(amount) => Ok(amount),
            _ => Err(RuleSetError::WrongPayloadType),
        }
    }
}

/// What is wrong with the authority that was passed in, if anything: none
/// was passed in, or one at another address than `expected`, or one that did
/// not sign.
pub open spec fn authority_error(given: Option<Account>, expected: Seq<u8>) -> Option<
    RuleSetError,
> {
    match given {
        None => Some(RuleSetError::MissingAccount),
        Some(authority) => if authority.key@ != expected || !authority.is_signer {
            Some(RuleSetError::RuleAuthorityIsNotSigner)
        } else {
            None
        },
    }
}

/// Success or failure, for the same reason.
pub open spec fn verdict(passed: bool, reason: RuleSetError) -> RuleResult {
    if passed {
        RuleResult::Success(reason)
    } else {
        RuleResult::Failure(reason)
    }
}

impl LeafView {
    /// The type tag in the node's header.
    pub open spec fn tag(self) -> u32 {
        match self {
            LeafView::AdditionalSigner { .. } => TAG_ADDITIONAL_SIGNER,
            LeafView::Amount { .. } => TAG_AMOUNT,
            LeafView::Frequency { .. } => TAG_FREQUENCY,
            LeafView::Pass => TAG_PASS,
            LeafView::ProgramOwned { .. } => TAG_PROGRAM_OWNED,
            LeafView::PubkeyMatch { .. } => TAG_PUBKEY_MATCH,
        }
    }

    /// Whether every address in the rule has thirty-two bytes.
    pub open spec fn well_formed(self) -> bool {
        match self {
            LeafView::AdditionalSigner { account } => account.len() == 32,
            LeafView::Frequency { authority, .. } => authority.len() == 32,
            LeafView::ProgramOwned { program, .. } => program.len() == 32,
            LeafView::PubkeyMatch { pubkey, .. } => pubkey.len() == 32,
            _ => true,
        }
    }

    /// What follows the node's header: the fields in order, addresses as
    /// they are, numbers little-endian in eight bytes, the field name last,
    /// in UTF-8.
    pub open spec fn body(self) -> Seq<u8> {
        match self {
            LeafView::AdditionalSigner { account } => account,
            LeafView::Amount { amount, operator, field } => u64_le(amount) + u64_le(
                operator.spec_code(),
            ) + encode_utf8(field),
            LeafView::Frequency { authority, number, limit, field } => authority + u64_le(number)
                + u64_le(limit) + encode_utf8(field),
            LeafView::Pass => Seq::empty(),
            LeafView::ProgramOwned { program, field } => program + encode_utf8(field),
            LeafView::PubkeyMatch { pubkey, field } => pubkey + encode_utf8(field),
        }
    }

    /// The reason that the rule gives when it rejects, and carries when it permits.
    pub open spec fn reason(self) -> RuleSetError {
        match self {
            LeafView::AdditionalSigner { .. } => RuleSetError::AdditionalSignerCheckFailed,
            LeafView::Amount { .. } => RuleSetError::AmountCheckFailed,
            LeafView::Frequency { .. } => RuleSetError::FrequencyCheckFailed,
            LeafView::Pass => RuleSetError::UnexpectedEngineFailure,
            LeafView::ProgramOwned { .. } => RuleSetError::OwnershipCheckFailed,
            LeafView::PubkeyMatch { .. } => RuleSetError::PubkeyMatchCheckFailed,
        }
    }

    /// What the rule decides. Where the payload lacks the field that the rule
    /// names, holds a value of another kind under it, or an account, the
    /// authority or the counters that the rule needs were not passed in, the
    /// rule cannot be evaluated; otherwise it succeeds or fails.
    pub open spec fn decide(self, ctx: Context) -> RuleResult {
        match self {
            LeafView::AdditionalSigner { account } => if !ctx.accounts.dom().contains(account) {
                RuleResult::Error(RuleSetError::MissingAccount)
            } else {
                verdict(ctx.accounts[account].is_signer, self.reason())
            },
            LeafView::Amount { amount, operator, field } => match amount_under(
                ctx.payload,
                field,
            ) {
                Err(e) => RuleResult::Error(e),
                Ok(given) => verdict(operator.spec_holds(given, amount), self.reason()),
            },
            LeafView::Frequency { authority, number, limit, field } => match authority_error(
                ctx.authority,
                authority,
            ) {
                Some(e) => RuleResult::Error(e),
                None => match address_under(ctx.payload, field) {
                    Err(e) => RuleResult::Error(e),
                    Ok(address) => match ctx.state {
                        None => RuleResult::Error(RuleSetError::MissingRuleState),
                        Some(counters) => verdict(
                            count_of(counters, (number, address)) < limit,
                            self.reason(),
                        ),
                    },
                },
            },
            LeafView::Pass => RuleResult::Success(self.reason()),
            LeafView::ProgramOwned { program, field } => match address_under(ctx.payload, field) {
                Err(e) => RuleResult::Error(e),
                Ok(address) => if !ctx.accounts.dom().contains(address) {
                    RuleResult::Error(RuleSetError::MissingAccount)
                } else {
                    verdict(ctx.accounts[address].owner@ == program, self.reason())
                },
            },
            LeafView::PubkeyMatch { pubkey, field } => match address_under(ctx.payload, field) {
                Err(e) => RuleResult::Error(e),
                Ok(address) => verdict(address == pubkey, self.reason()),
            },
        }
    }

    /// The counters that the rule asks to have one more counted under: for a
    /// rule that counts, its own, when it succeeds in a call that is to be
    /// counted; otherwise none.
    pub open spec fn requested(self, ctx: Context) -> Seq<(u64, Seq<u8>)> {
        match self {
            LeafView::Frequency { number, field, .. } => if ctx.update_rule_state && self.decide(
                ctx,
            ) is Success {
                seq![(number, address_under(ctx.payload, field)->Ok_0)]
            } else {
                Seq::empty()
            },
            _ => Seq::empty(),
        }
    }
}

/// An address, then a field name: what the body decodes to.
pub open spec fn parse_keyed(body: Seq<u8>) -> Result<(Seq<u8>, Seq<char>), RuleSetError> {
    if body.len() < 32 {
        Err(RuleSetError::TruncatedBuffer)
    } else {
        match parse_text(body.subrange(32, body.len() as int)) {
            Ok(field) => Ok((body.subrange(0, 32), field)),
            Err(e) => Err(e),
        }
    }
}

/// Two numbers, then a field name: what the body decodes to.
pub open spec fn parse_numbered(body: Seq<u8>) -> Result<(u64, u64, Seq<char>), RuleSetError> {
    if body.len() < 16 {
        Err(RuleSetError::TruncatedBuffer)
    } else {
        match parse_text(body.subrange(16, body.len() as int)) {
            Ok(field) => Ok((u64_at(body, 0), u64_at(body, 8), field)),
            Err(e) => Err(e),
        }
    }
}

/// What a decoded rule stands for.
pub open spec fn leaf_read<T: View<V = LeafView>>(r: Result<T, RuleSetError>) -> Result<
    LeafView,
    RuleSetError,
> {
    match r {
        Ok(rule) => Ok(rule@),
        Err(e) => Err(e),
    }
}

/// What writing a rule gives: its header and its body, exactly where the
/// body is no longer than a header can announce.
pub open spec fn leaf_written(r: Result<Vec<u8>, RuleSetError>, leaf: LeafView) -> bool {
    written(r, node_refused(leaf.body()), node_bytes(leaf.tag(), leaf.body()))
}

/// Reads an address, then a field name.
pub(crate) fn read_keyed(body: &[u8]) -> (r: Result<(Pubkey, String), RuleSetError>)
    ensures
        match r {
            Ok((key, field)) => parse_keyed(body@) == Ok::<(Seq<u8>, Seq<char>), RuleSetError>(
                (key@, field@),
            ),
            Err(e) => parse_keyed(body@) == Err::<(Seq<u8>, Seq<char>), RuleSetError>(e),
        },
{
    if body.len() < 32 {
        return Err(RuleSetError::TruncatedBuffer);
    }
    let key = match Pubkey::from_slice(slice_subrange(body, 0, 32)) {
        Some(key) => key,
        None => {
            return Err(RuleSetError::TruncatedBuffer);
        },
    };
    match read_text(body, 32) {
        Ok(field) => Ok((key, field)),
        Err(e) => Err(e),
    }
}

/// Reads two numbers, then a field name.
pub(crate) fn read_numbered(body: &[u8]) -> (r: Result<(u64, u64, String), RuleSetError>)
    ensures
        match r {
            Ok((first, second, field)) => parse_numbered(body@) == Ok::<
                (u64, u64, Seq<char>),
                RuleSetError,
            >((first, second, field@)),
            Err(e) => parse_numbered(body@) == Err::<(u64, u64, Seq<char>), RuleSetError>(e),
        },
{
    if body.len() < 16 {
        return Err(RuleSetError::TruncatedBuffer);
    }
    let first = read_u64(body, 0);
    let second = read_u64(body, 8);
    match read_text(body, 16) {
        Ok(field) => Ok((first, second, field)),
        Err(e) => Err(e),
    }
}

/// Writes an address, then a field name.
pub(crate) fn write_keyed(key: &Pubkey, field: &String) -> (body: Vec<u8>)
    ensures
        body@ == key@ + encode_utf8(field@),
{
    let mut body: Vec<u8> = Vec::new();
    body.extend_from_slice(key.as_slice());
    let ghost head = body@;
    body.extend_from_slice(field.as_str().as_bytes());
    proof {
        assert(head =~= key@);
        assert(body@ =~= key@ + encode_utf8(field@));
    }
    body
}

/// Reads an address, two numbers, then a field name.
pub(crate) fn read_limited(body: &[u8]) -> (r: Result<(Pubkey, u64, u64, String), RuleSetError>)
    ensures
        match r {
            Ok((key, first, second, field)) => parse_limited(body@) == Ok::<
                (Seq<u8>, u64, u64, Seq<char>),
                RuleSetError,
            >((key@, first, second, field@)),
            Err(e) => parse_limited(body@) == Err::<(Seq<u8>, u64, u64, Seq<char>), RuleSetError>(
                e,
            ),
        },
{
    if body.len() < 48 {
        return Err(RuleSetError::TruncatedBuffer);
    }
    let key = match Pubkey::from_slice(slice_subrange(body, 0, 32)) {
        Some(key) => key,
        None => {
            return Err(RuleSetError::TruncatedBuffer);
        },
    };
    let first = read_u64(body, 32);
    let second = read_u64(body, 40);
    match read_text(body, 48) {
        Ok(field) => Ok((key, first, second, field)),
        Err(e) => Err(e),
    }
}

/// Writes an address, two numbers, then a field name.
pub(crate) fn write_limited(key: &Pubkey, first: u64, second: u64, field: &String) -> (r: Result<
    Vec<u8>,
    RuleSetError,
>)
    ensures
        r is Ok,
        r matches Ok(body) ==> body@ == key@ + u64_le(first) + u64_le(second) + encode_utf8(
            field@,
        ),
{
    let mut body: Vec<u8> = Vec::new();
    body.extend_from_slice(key.as_slice());
    let ghost start = body@;
    match put_u64(first, &mut body) {
        Ok(_) => {},
        Err(e) => {
            return Err(e);
        },
    }
    match put_u64(second, &mut body) {
        Ok(_) => {},
        Err(e) => {
            return Err(e);
        },
    }
    let ghost head = body@;
    body.extend_from_slice(field.as_str().as_bytes());
    proof {
        assert(start =~= key@);
        assert(head =~= key@ + u64_le(first) + u64_le(second));
        assert(body@ =~= key@ + u64_le(first) + u64_le(second) + encode_utf8(field@));
    }
    Ok(body)
}

/// Writes two numbers, then a field name.
pub(crate) fn write_numbered(first: u64, second: u64, field: &String) -> (r: Result<
    Vec<u8>,
    RuleSetError,
>)
    ensures
        r is Ok,
        r matches Ok(body) ==> body@ == u64_le(first) + u64_le(second) + encode_utf8(field@),
{
    let mut body: Vec<u8> = Vec::new();
    match put_u64(first, &mut body) {
        Ok(_) => {},
        Err(e) => {
            return Err(e);
        },
    }
    match put_u64(second, &mut body) {
        Ok(_) => {},
        Err(e) => {
            return Err(e);
        },
    }
    let ghost head = body@;
    body.extend_from_slice(field.as_str().as_bytes());
    proof {
        assert(head =~= u64_le(first) + u64_le(second));
        assert(body@ =~= u64_le(first) + u64_le(second) + encode_utf8(field@));
    }
    Ok(body)
}

/// An address, two numbers, then a field name: what the body decodes to.
pub open spec fn parse_limited(body: Seq<u8>) -> Result<
    (Seq<u8>, u64, u64, Seq<char>),
    RuleSetError,
> {
    if body.len() < 48 {
        Err(RuleSetError::TruncatedBuffer)
    } else {
        match parse_text(body.subrange(48, body.len() as int)) {
            Ok(field) => Ok((body.subrange(0, 32), u64_at(body, 32), u64_at(body, 40), field)),
            Err(e) => Err(e),
        }
    }
}

/// The rule of the kind that `tag` names whose body is exactly `body`.
pub open spec fn parse_leaf(tag: u32, body: Seq<u8>) -> Result<LeafView, RuleSetError> {
    if tag == TAG_ADDITIONAL_SIGNER {
        if body.len() < 32 {
            Err(RuleSetError::TruncatedBuffer)
        } else if body.len() > 32 {
            Err(RuleSetError::LengthMismatch)
        } else {
            Ok(LeafView::AdditionalSigner { account: body })
        }
    } else if tag == TAG_AMOUNT {
        match parse_numbered(body) {
            Err(e) => Err(e),
            Ok((amount, code, field)) => match CompareOp::spec_from_code(code) {
                None => Err(RuleSetError::InvalidOperator),
                Some(operator) => Ok(LeafView::Amount { amount, operator, field }),
            },
        }
    } else if tag == TAG_FREQUENCY {
        match parse_limited(body) {
            Err(e) => Err(e),
            Ok((authority, number, limit, field)) => Ok(
                LeafView::Frequency { authority, number, limit, field },
            ),
        }
    } else if tag == TAG_PASS {
        if body.len() == 0 {
            Ok(LeafView::Pass)
        } else {
            Err(RuleSetError::LengthMismatch)
        }
    } else if tag == TAG_PROGRAM_OWNED {
        match parse_keyed(body) {
            Err(e) => Err(e),
            Ok((program, field)) => Ok(LeafView::ProgramOwned { program, field }),
        }
    } else if tag == TAG_PUBKEY_MATCH {
        match parse_keyed(body) {
            Err(e) => Err(e),
            Ok((pubkey, field)) => Ok(LeafView::PubkeyMatch { pubkey, field }),
        }
    } else {
        Err(RuleSetError::UnknownRuleType)
    }
}

/// An address and a field name are read back from what they are written as.
pub proof fn lemma_keyed_round_trip(key: Seq<u8>, field: Seq<char>)
    requires
        key.len() == 32,
    ensures
        parse_keyed(key + encode_utf8(field)) == Ok::<(Seq<u8>, Seq<char>), RuleSetError>(
            (key, field),
        ),
{
    broadcast use vstd::utf8::encode_utf8_valid_utf8, vstd::utf8::encode_utf8_decode_utf8;

    let body = key + encode_utf8(field);
    assert(body.subrange(0, 32) =~= key);
    assert(body.subrange(32, body.len() as int) =~= encode_utf8(field));
}

/// Two numbers and a field name are read back from what they are written as.
pub proof fn lemma_numbered_round_trip(first: u64, second: u64, field: Seq<char>)
    ensures
        parse_numbered(u64_le(first) + u64_le(second) + encode_utf8(field)) == Ok::<
            (u64, u64, Seq<char>),
            RuleSetError,
        >((first, second, field)),
{
    broadcast use vstd::utf8::encode_utf8_valid_utf8, vstd::utf8::encode_utf8_decode_utf8;

    let body = u64_le(first) + u64_le(second) + encode_utf8(field);
    lemma_u64_at_encoded(Seq::empty(), first, u64_le(second) + encode_utf8(field));
    lemma_u64_at_encoded(u64_le(first), second, encode_utf8(field));
    assert(Seq::<u8>::empty() + u64_le(first) + (u64_le(second) + encode_utf8(field)) =~= body);
    assert(body.subrange(16, body.len() as int) =~= encode_utf8(field));
}

/// An address, two numbers and a field name are read back from what they
/// are written as.
pub proof fn lemma_limited_round_trip(key: Seq<u8>, first: u64, second: u64, field: Seq<char>)
    requires
        key.len() == 32,
    ensures
        parse_limited(key + u64_le(first) + u64_le(second) + encode_utf8(field)) == Ok::<
            (Seq<u8>, u64, u64, Seq<char>),
            RuleSetError,
        >((key, first, second, field)),
{
    broadcast use vstd::utf8::encode_utf8_valid_utf8, vstd::utf8::encode_utf8_decode_utf8;

    let body = key + u64_le(first) + u64_le(second) + encode_utf8(field);
    lemma_u64_at_encoded(key, first, u64_le(second) + encode_utf8(field));
    lemma_u64_at_encoded(key + u64_le(first), second, encode_utf8(field));
    assert(key + u64_le(first) + (u64_le(second) + encode_utf8(field)) =~= body);
    assert(body.subrange(0, 32) =~= key);
    assert(body.subrange(48, body.len() as int) =~= encode_utf8(field));
}

/// What an address, two numbers and a field name were read from is what
/// they are written as.
pub proof fn lemma_limited_read(body: Seq<u8>)
    requires
        parse_limited(body) is Ok,
    ensures
        ({
            let (key, first, second, field) = parse_limited(body)->Ok_0;
            key.len() == 32 && key + u64_le(first) + u64_le(second) + encode_utf8(field) == body
        }),
{
    broadcast use vstd::utf8::decode_utf8_encode_utf8;

    lemma_u64_le_of_read(body, 32);
    lemma_u64_le_of_read(body, 40);
    assert(body.subrange(0, 32) + body.subrange(32, 40) + body.subrange(40, 48) + body.subrange(
        48,
        body.len() as int,
    ) =~= body);
}

/// What an address and a field name were read from is what they are written as.
pub proof fn lemma_keyed_read(body: Seq<u8>)
    requires
        parse_keyed(body) is Ok,
    ensures
        ({
            let (key, field) = parse_keyed(body)->Ok_0;
            key.len() == 32 && key + encode_utf8(field) == body
        }),
{
    broadcast use vstd::utf8::decode_utf8_encode_utf8;

    assert(body.subrange(0, 32) + body.subrange(32, body.len() as int) =~= body);
}

/// What two numbers and a field name were read from is what they are written as.
pub proof fn lemma_numbered_read(body: Seq<u8>)
    requires
        parse_numbered(body) is Ok,
    ensures
        ({
            let (first, second, field) = parse_numbered(body)->Ok_0;
            u64_le(first) + u64_le(second) + encode_utf8(field) == body
        }),
{
    broadcast use vstd::utf8::decode_utf8_encode_utf8;

    lemma_u64_le_of_read(body, 0);
    lemma_u64_le_of_read(body, 8);
    assert(body.subrange(0, 8) + body.subrange(8, 16) + body.subrange(16, body.len() as int)
        =~= body);
}

/// Decoding undoes encoding: the body of a rule decodes to the rule.
pub proof fn law_leaf_decodes(leaf: LeafView)
    requires
        leaf.well_formed(),
    ensures
        leaf_tag(leaf.tag()),
        parse_leaf(leaf.tag(), leaf.body()) == Ok::<LeafView, RuleSetError>(leaf),
{
    match leaf {
        LeafView::AdditionalSigner { .. } => {},
        LeafView::Amount { amount, operator, field } => {
            lemma_numbered_round_trip(amount, operator.spec_code(), field);
        },
        LeafView::Frequency { authority, number, limit, field } => {
            lemma_limited_round_trip(authority, number, limit, field);
        },
        LeafView::Pass => {},
        LeafView::ProgramOwned { program, field } => {
            lemma_keyed_round_trip(program, field);
        },
        LeafView::PubkeyMatch { pubkey, field } => {
            lemma_keyed_round_trip(pubkey, field);
        },
    }
}

/// Encoding undoes decoding: what a body decodes to is of the kind asked
/// for, and has that body.
pub proof fn law_leaf_decoded(tag: u32, body: Seq<u8>)
    requires
        parse_leaf(tag, body) is Ok,
    ensures
        ({
            let leaf = parse_leaf(tag, body)->Ok_0;
            &&& leaf_tag(tag)
            &&& leaf.tag() == tag
            &&& leaf.body() == body
            &&& leaf.well_formed()
        }),
{
    if tag == TAG_AMOUNT {
        lemma_numbered_read(body);
    } else if tag == TAG_FREQUENCY {
        lemma_limited_read(body);
    } else if tag == TAG_PROGRAM_OWNED || tag == TAG_PUBKEY_MATCH {
        lemma_keyed_read(body);
    }
}

/// The rule that always passes does so whatever the call holds.
pub proof fn law_pass_succeeds(ctx: Context)
    ensures
        LeafView::Pass.decide(ctx) == RuleResult::Success(RuleSetError::UnexpectedEngineFailure),
        LeafView::Pass.requested(ctx) == Seq::<(u64, Seq<u8>)>::empty(),
{
}

/// A rule that counts asks for nothing in a call that is not to be counted,
/// whatever it decides; in one that is, it asks for one more under its own
/// counter, once, exactly when it succeeds.
pub proof fn law_frequency_requests(
    authority: Seq<u8>,
    number: u64,
    limit: u64,
    field: Seq<char>,
    ctx: Context,
)
    ensures
        ({
            let rule = LeafView::Frequency { authority, number, limit, field };
            &&& !ctx.update_rule_state ==> rule.requested(ctx) == Seq::<(u64, Seq<u8>)>::empty()
            &&& ctx.update_rule_state && rule.decide(ctx) is Success ==> rule.requested(ctx)
                == seq![(number, address_under(ctx.payload, field)->Ok_0)]
            &&& !(rule.decide(ctx) is Success) ==> rule.requested(ctx) == Seq::<
                (u64, Seq<u8>),
            >::empty()
        }),
{
}

/// What a rule decides does not depend on whether the call is to be counted.
pub proof fn law_decision_ignores_flag(leaf: LeafView, ctx: Context, flag: bool)
    ensures
        leaf.decide((Context { update_rule_state: flag, ..ctx })) == leaf.decide(ctx),
{
}

} // verus!
