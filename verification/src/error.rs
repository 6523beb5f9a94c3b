//! Errors, and the three outcomes of evaluating a rule.

use vstd::prelude::*;

verus! {

/// Everything that can go wrong while decoding, encoding or evaluating a rule.
#[derive(Clone, Copy, Debug, PartialEq, Eq, Structural)]
pub enum RuleSetError {
    /// Fewer than eight bytes were available where a header was expected.
    MalformedHeader,
    /// The type tag of a header names no known kind of rule.
    UnknownRuleType,
    /// A header or a fixed field announces more bytes than the buffer holds.
    TruncatedBuffer,
    /// A body is not exactly as long as what it holds.
    LengthMismatch,
    /// The tree is nested more deeply than `MAX_DEPTH`.
    NestingTooDeep,
    /// A name is not valid UTF-8.
    InvalidUtf8,
    /// The number that stands for a comparison stands for none.
    InvalidOperator,
    /// A body would be longer than a header can announce.
    NumericalOverflow,
    /// A combinator was given nothing to combine.
    DataIsEmpty,
    /// The integer encoder reported a failure.
    BorshSerializationError,
    /// The payload has no value under the field that a rule names.
    MissingPayloadValue,
    /// The payload's value under that field is of another kind.
    WrongPayloadType,
    /// The accounts passed in do not include the one that a rule needs.
    MissingAccount,
    /// The rule needs the counters of the rule set, and none were passed in.
    MissingRuleState,
    /// The authority that was passed in is not the rule's, or did not sign.
    RuleAuthorityIsNotSigner,
    /// The account is owned by another program than the rule expects.
    OwnershipCheckFailed,
    /// The address in the payload is another than the rule expects.
    PubkeyMatchCheckFailed,
    /// The amount in the payload does not compare to the rule's as it should.
    AmountCheckFailed,
    /// The account that the rule names did not sign.
    AdditionalSignerCheckFailed,
    /// The operation has been performed as often as the rule lets it.
    FrequencyCheckFailed,
    /// A rule set already has a rule for the operation.
    DuplicateOperation,
    /// A rule set has no rule for the operation.
    OperationNotFound,
    /// A combinator had no result to report.
    UnexpectedEngineFailure,
}

impl RuleSetError {
    /// The number under which a host reports this error.
    pub open spec fn spec_code(self) -> u32 {
        match self {
            RuleSetError::MalformedHeader => 0,
            RuleSetError::UnknownRuleType => 1,
            RuleSetError::TruncatedBuffer => 2,
            RuleSetError::LengthMismatch => 3,
            RuleSetError::NestingTooDeep => 4,
            RuleSetError::InvalidUtf8 => 5,
            RuleSetError::InvalidOperator => 6,
            RuleSetError::NumericalOverflow => 7,
            RuleSetError::DataIsEmpty => 8,
            RuleSetError::BorshSerializationError => 9,
            RuleSetError::MissingPayloadValue => 10,
            RuleSetError::WrongPayloadType => 11,
            RuleSetError::MissingAccount => 12,
            RuleSetError::MissingRuleState => 13,
            RuleSetError::RuleAuthorityIsNotSigner => 14,
            RuleSetError::OwnershipCheckFailed => 15,
            RuleSetError::PubkeyMatchCheckFailed => 16,
            RuleSetError::AmountCheckFailed => 17,
            RuleSetError::AdditionalSignerCheckFailed => 18,
            RuleSetError::FrequencyCheckFailed => 19,
            RuleSetError::DuplicateOperation => 20,
            RuleSetError::OperationNotFound => 21,
            RuleSetError::UnexpectedEngineFailure => 22,
        }
    }

    /// The number under which a host reports this error.
    pub fn code(&self) -> (c: u32)
        ensures
            c == self.spec_code(),
    {
        match self {
            RuleSetError::MalformedHeader => 0,
            RuleSetError::UnknownRuleType => 1,
            RuleSetError::TruncatedBuffer => 2,
            RuleSetError::LengthMismatch => 3,
            RuleSetError::NestingTooDeep => 4,
            RuleSetError::InvalidUtf8 => 5,
            RuleSetError::InvalidOperator => 6,
            RuleSetError::NumericalOverflow => 7,
            RuleSetError::DataIsEmpty => 8,
            RuleSetError::BorshSerializationError => 9,
            RuleSetError::MissingPayloadValue => 10,
            RuleSetError::WrongPayloadType => 11,
            RuleSetError::MissingAccount => 12,
            RuleSetError::MissingRuleState => 13,
            RuleSetError::RuleAuthorityIsNotSigner => 14,
            RuleSetError::OwnershipCheckFailed => 15,
            RuleSetError::PubkeyMatchCheckFailed => 16,
            RuleSetError::AmountCheckFailed => 17,
            RuleSetError::AdditionalSignerCheckFailed => 18,
            RuleSetError::FrequencyCheckFailed => 19,
            RuleSetError::DuplicateOperation => 20,
            RuleSetError::OperationNotFound => 21,
            RuleSetError::UnexpectedEngineFailure => 22,
        }
    }
}

/// The outcome of evaluating a rule: permitted, rejected, or not evaluable.
#[derive(Clone, Copy, Debug, PartialEq, Eq, Structural)]
pub enum RuleResult {
    /// The rule permits the operation.
    Success(RuleSetError),
    /// The rule was evaluated and rejects the operation, for the reason given.
    Failure(RuleSetError),
    /// The rule could not be evaluated, for the reason given.
    Error(RuleSetError),
}

} // verus!
