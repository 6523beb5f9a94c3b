//! A rule: one node of the tree, of one of the known kinds.

use crate::accounts::{Account, Accounts};
use crate::additional_signer::AdditionalSigner;
use crate::all::All;
use crate::amount::Amount;
use crate::any::Any;
use crate::context::context_of;
use crate::error::{RuleResult, RuleSetError};
use crate::evaluation::Evaluation;
use crate::frequency::Frequency;
use crate::laws::{law_encode_decoded, law_round_trip};
use crate::leaf::{
    TAG_ADDITIONAL_SIGNER, TAG_AMOUNT, TAG_FREQUENCY, TAG_PASS, TAG_PROGRAM_OWNED,
    TAG_PUBKEY_MATCH,
};
use crate::model::{
    concat, first_unwritable, group_bytes, group_refused, group_unwritable, known_tag,
    lemma_concat_of_encodings, lemma_encoding_len, lemma_first_unwritable_take,
    lemma_parts_len_take, lemma_total_len_take, parse_children, parse_group, parse_rule,
    parts_len, total_len, RuleView, MAX_DEPTH, TAG_ALL, TAG_ANY, TAG_NOT,
};
use crate::not::Not;
use crate::pass::Pass;
use crate::payload::Payload;
use crate::program_owned::ProgramOwned;
use crate::pubkey_match::PubkeyMatch;
use crate::state::{incremented, keys_view, CounterKey, RuleState};
use crate::wire::{
    decode_header, header_bytes, put_u32, put_u64, read_u64, u64_at, u64_le, written,
    HEADER_SECTION, U64_BYTES,
};
use vstd::prelude::*;
use vstd::slice::slice_subrange;

verus! {

/// The kinds of rule.
#[derive(Clone, Copy, Debug, PartialEq, Eq, Structural)]
pub enum ConstraintType {
    /// An account must have signed.
    AdditionalSigner,
    /// Group AND, where every rule contained must pass.
    All,
    /// An amount must compare to a given amount in a given way.
    Amount,
    /// Group OR, where at least one rule contained must pass.
    Any,
    /// An operation may be performed only so often.
    Frequency,
    /// Negation, where the contained rule must fail.
    Not,
    /// An operation that always succeeds.
    Pass,
    /// An account must be owned by a given program.
    ProgramOwned,
    /// The payload must hold a given address.
    PubkeyMatch,
}

impl ConstraintType {
    /// The type tag that stands for the kind in a header.
    pub open spec fn spec_tag(self) -> u32 {
        match self {
            ConstraintType::AdditionalSigner => TAG_ADDITIONAL_SIGNER,
            ConstraintType::All => TAG_ALL,
            ConstraintType::Amount => TAG_AMOUNT,
            ConstraintType::Any => TAG_ANY,
            ConstraintType::Frequency => TAG_FREQUENCY,
            ConstraintType::Not => TAG_NOT,
            ConstraintType::Pass => TAG_PASS,
            ConstraintType::ProgramOwned => TAG_PROGRAM_OWNED,
            ConstraintType::PubkeyMatch => TAG_PUBKEY_MATCH,
        }
    }

    /// The type tag that stands for the kind in a header.
    pub fn tag(&self) -> (tag: u32)
        ensures
            tag == self.spec_tag(),
    {
        match self {
            ConstraintType::AdditionalSigner => TAG_ADDITIONAL_SIGNER,
            ConstraintType::All => TAG_ALL,
            ConstraintType::Amount => TAG_AMOUNT,
            ConstraintType::Any => TAG_ANY,
            ConstraintType::Frequency => TAG_FREQUENCY,
            ConstraintType::Not => TAG_NOT,
            ConstraintType::Pass => TAG_PASS,
            ConstraintType::ProgramOwned => TAG_PROGRAM_OWNED,
            ConstraintType::PubkeyMatch => TAG_PUBKEY_MATCH,
        }
    }

    /// The reason that a rule of the kind gives when it rejects, and carries
    /// when it permits.
    pub open spec fn spec_to_error(self) -> RuleSetError {
        match self {
            ConstraintType::AdditionalSigner => RuleSetError::AdditionalSignerCheckFailed,
            ConstraintType::Amount => RuleSetError::AmountCheckFailed,
            ConstraintType::Frequency => RuleSetError::FrequencyCheckFailed,
            ConstraintType::ProgramOwned => RuleSetError::OwnershipCheckFailed,
            ConstraintType::PubkeyMatch => RuleSetError::PubkeyMatchCheckFailed,
            _ => RuleSetError::UnexpectedEngineFailure,
        }
    }

    /// The reason that a rule of the kind gives when it rejects, and carries
    /// when it permits.
    pub fn to_error(&self) -> (reason: RuleSetError)
        ensures
            reason == self.spec_to_error(),
    {
        match self {
            ConstraintType::AdditionalSigner => RuleSetError::AdditionalSignerCheckFailed,
            ConstraintType::Amount => RuleSetError::AmountCheckFailed,
            ConstraintType::Frequency => RuleSetError::FrequencyCheckFailed,
            ConstraintType::ProgramOwned => RuleSetError::OwnershipCheckFailed,
            ConstraintType::PubkeyMatch => RuleSetError::PubkeyMatchCheckFailed,
            _ => RuleSetError::UnexpectedEngineFailure,
        }
    }

    /// The kind that a type tag stands for, if it stands for one.
    pub fn from_tag(tag: u32) -> (kind: Option<ConstraintType>)
        ensures
            kind is Some <==> known_tag(tag),
            kind matches Some(k) ==> k.spec_tag() == tag,
    {
        if tag == TAG_ADDITIONAL_SIGNER {
            Some(ConstraintType::AdditionalSigner)
        } else if tag == TAG_ALL {
            Some(ConstraintType::All)
        } else if tag == TAG_AMOUNT {
            Some(ConstraintType::Amount)
        } else if tag == TAG_ANY {
            Some(ConstraintType::Any)
        } else if tag == TAG_FREQUENCY {
            Some(ConstraintType::Frequency)
        } else if tag == TAG_NOT {
            Some(ConstraintType::Not)
        } else if tag == TAG_PASS {
            Some(ConstraintType::Pass)
        } else if tag == TAG_PROGRAM_OWNED {
            Some(ConstraintType::ProgramOwned)
        } else if tag == TAG_PUBKEY_MATCH {
            Some(ConstraintType::PubkeyMatch)
        } else {
            None
        }
    }
}

/// One node of a rule tree.
#[derive(Debug, PartialEq, Eq)]
pub enum Rule {
    /// An account must have signed.
    AdditionalSigner(AdditionalSigner),
    /// Group AND, where every rule contained must pass.
    All(All),
    /// An amount must compare to a given amount in a given way.
    Amount(Amount),
    /// Group OR, where at least one rule contained must pass.
    Any(Any),
    /// An operation may be performed only so often.
    Frequency(Frequency),
    /// Negation, where the contained rule must fail.
    Not(Not),
    /// An operation that always succeeds.
    Pass(Pass),
    /// An account must be owned by a given program.
    ProgramOwned(ProgramOwned),
    /// The payload must hold a given address.
    PubkeyMatch(PubkeyMatch),
}

/// The tree that a rule stands for.
pub open spec fn rule_view(rule: Rule) -> RuleView
    decreases rule, 0nat,
{
    match rule {
        Rule::AdditionalSigner(leaf) => RuleView::Leaf(leaf@),
        Rule::All(group) => RuleView::All(views(group.rules@)),
        Rule::Amount(leaf) => RuleView::Leaf(leaf@),
        Rule::Any(group) => RuleView::Any(views(group.rules@)),
        Rule::Frequency(leaf) => RuleView::Leaf(leaf@),
        Rule::Not(not) => RuleView::Not(Box::new(rule_view(*not.rule))),
        Rule::Pass(leaf) => RuleView::Leaf(leaf@),
        Rule::ProgramOwned(leaf) => RuleView::Leaf(leaf@),
        Rule::PubkeyMatch(leaf) => RuleView::Leaf(leaf@),
    }
}

/// The trees that the rules stand for, in order.
pub open spec fn views(rules: Seq<Rule>) -> Seq<RuleView>
    decreases rules, 0nat,
{
    if rules.len() == 0 {
        Seq::empty()
    } else {
        views(rules.drop_last()).push(rule_view(rules.last()))
    }
}

impl View for Rule {
    type V = RuleView;

    open spec fn view(&self) -> RuleView {
        rule_view(*self)
    }
}

/// `views` goes rule by rule.
pub proof fn lemma_views(rules: Seq<Rule>)
    ensures
        views(rules).len() == rules.len(),
        forall|i: int| 0 <= i < rules.len() ==> (#[trigger] views(rules)[i]) == rules[i]@,
    decreases rules.len(),
{
    if rules.len() > 0 {
        lemma_views(rules.drop_last());
    }
}

/// Every address in a rule has thirty-two bytes.
pub proof fn lemma_view_well_formed(rule: Rule)
    ensures
        rule@.well_formed(),
    decreases rule,
{
    match rule {
        Rule::Any(any) => {
            lemma_views(any.rules@);
            assert forall|i: int| 0 <= i < any.rules@.len() implies (#[trigger] views(
                any.rules@,
            )[i]).well_formed() by {
                lemma_view_well_formed(any.rules@[i]);
            }
        },
        Rule::All(all) => {
            lemma_views(all.rules@);
            assert forall|i: int| 0 <= i < all.rules@.len() implies (#[trigger] views(
                all.rules@,
            )[i]).well_formed() by {
                lemma_view_well_formed(all.rules@[i]);
            }
        },
        Rule::Not(not) => {
            lemma_view_well_formed(*not.rule);
        },
        Rule::AdditionalSigner(leaf) => {
            vstd::array::array_len_matches_n(&leaf.account.bytes);
        },
        Rule::Frequency(leaf) => {
            vstd::array::array_len_matches_n(&leaf.authority.bytes);
        },
        Rule::ProgramOwned(leaf) => {
            vstd::array::array_len_matches_n(&leaf.program.bytes);
        },
        Rule::PubkeyMatch(leaf) => {
            vstd::array::array_len_matches_n(&leaf.pubkey.bytes);
        },
        _ => {},
    }
}

/// Round trip: where a rule can be written and has no more levels than may
/// be read, what it is written as is read back as the rule, and all of it
/// is read.
pub proof fn law_rule_round_trip(rule: Rule)
    requires
        rule@.unwritable() is None,
        rule@.within_depth(MAX_DEPTH as nat),
    ensures
        parse_rule(rule@.encoding(), MAX_DEPTH as nat) == Ok::<(RuleView, nat), RuleSetError>(
            (rule@, rule@.encoding().len()),
        ),
{
    lemma_view_well_formed(rule);
    law_round_trip(rule@, MAX_DEPTH as nat);
}

/// What a decoded rule and its length stand for.
pub open spec fn parsed_view(r: Result<(Rule, usize), RuleSetError>) -> Result<
    (RuleView, nat),
    RuleSetError,
> {
    match r {
        Ok((rule, n)) => Ok((rule@, n as nat)),
        Err(e) => Err(e),
    }
}

/// What the decoded rules of a combinator stand for.
pub open spec fn group_view(r: Result<Vec<Rule>, RuleSetError>) -> Result<
    Seq<RuleView>,
    RuleSetError,
> {
    match r {
        Ok(rules) => Ok(views(rules@)),
        Err(e) => Err(e),
    }
}

/// The rules decoded so far, followed by what the rest decodes to.
pub open spec fn prepend(done: Seq<RuleView>, rest: Result<Seq<RuleView>, RuleSetError>) -> Result<
    Seq<RuleView>,
    RuleSetError,
> {
    match rest {
        Ok(more) => Ok(done + more),
        Err(e) => Err(e),
    }
}

impl Rule {
    /// Deserialize the rule that the buffer starts with; also returns the
    /// number of bytes that it takes.
    pub fn from_bytes(bytes: &[u8]) -> (r: Result<(Rule, usize), RuleSetError>)
        ensures
            parsed_view(r) == parse_rule(bytes@, MAX_DEPTH as nat),
            r matches Ok((rule, n)) ==> n <= bytes@.len() && n == rule@.len()
                && rule@.encoding() == bytes@.subrange(0, n as int),
    {
        let r = Rule::from_bytes_bounded(bytes, MAX_DEPTH);
        proof {
            if r is Ok {
                law_encode_decoded(bytes@, MAX_DEPTH as nat);
            }
        }
        r
    }

    /// Deserialize the rule that the buffer starts with, if it has at most
    /// `limit` levels; also returns the number of bytes that it takes.
    pub fn from_bytes_bounded(bytes: &[u8], limit: usize) -> (r: Result<
        (Rule, usize),
        RuleSetError,
    >)
        ensures
            parsed_view(r) == parse_rule(bytes@, limit as nat),
            r matches Ok((_, n)) ==> n <= bytes@.len(),
        decreases limit, 0nat, 0nat,
    {
        if limit == 0 {
            return Err(RuleSetError::NestingTooDeep);
        }
        let (tag, length) = match decode_header(bytes) {
            Ok(header) => header,
            Err(e) => {
                return Err(e);
            },
        };
        let kind = match ConstraintType::from_tag(tag) {
            Some(kind) => kind,
            None => {
                return Err(RuleSetError::UnknownRuleType);
            },
        };
        let length = length as usize;
        if bytes.len() - HEADER_SECTION < length {
            return Err(RuleSetError::TruncatedBuffer);
        }
        let end = HEADER_SECTION + length;
        let body = slice_subrange(bytes, HEADER_SECTION, end);
        let rule = match kind {
            ConstraintType::AdditionalSigner => match AdditionalSigner::from_bytes(body) {
                Ok(leaf) => Rule::AdditionalSigner(leaf),
                Err(e) => {
                    return Err(e);
                },
            },
            ConstraintType::All => match read_group(body, limit - 1) {
                Ok(rules) => Rule::All(All { rules }),
                Err(e) => {
                    return Err(e);
                },
            },
            ConstraintType::Amount => match Amount::from_bytes(body) {
                Ok(leaf) => Rule::Amount(leaf),
                Err(e) => {
                    return Err(e);
                },
            },
            ConstraintType::Any => match read_group(body, limit - 1) {
                Ok(rules) => Rule::Any(Any { rules }),
                Err(e) => {
                    return Err(e);
                },
            },
            ConstraintType::Frequency => match Frequency::from_bytes(body) {
                Ok(leaf) => Rule::Frequency(leaf),
                Err(e) => {
                    return Err(e);
                },
            },
            ConstraintType::Not => match Rule::from_bytes_bounded(body, limit - 1) {
                Ok((rule, n)) => {
                    if n != length {
                        return Err(RuleSetError::LengthMismatch);
                    }
                    Rule::Not(Not { rule: Box::new(rule) })
                },
                Err(e) => {
                    return Err(e);
                },
            },
            ConstraintType::Pass => match Pass::from_bytes(body) {
                Ok(leaf) => Rule::Pass(leaf),
                Err(e) => {
                    return Err(e);
                },
            },
            ConstraintType::ProgramOwned => match ProgramOwned::from_bytes(body) {
                Ok(leaf) => Rule::ProgramOwned(leaf),
                Err(e) => {
                    return Err(e);
                },
            },
            ConstraintType::PubkeyMatch => match PubkeyMatch::from_bytes(body) {
                Ok(leaf) => Rule::PubkeyMatch(leaf),
                Err(e) => {
                    return Err(e);
                },
            },
        };
        Ok((rule, end))
    }
}

impl Rule {
    /// The kind of the rule.
    pub fn constraint_type(&self) -> (kind: ConstraintType)
        ensures
            kind.spec_tag() == self@.tag(),
    {
        match self {
            Rule::AdditionalSigner(_) => ConstraintType::AdditionalSigner,
            Rule::All(_) => ConstraintType::All,
            Rule::Amount(_) => ConstraintType::Amount,
            Rule::Any(_) => ConstraintType::Any,
            Rule::Frequency(_) => ConstraintType::Frequency,
            Rule::Not(_) => ConstraintType::Not,
            Rule::Pass(_) => ConstraintType::Pass,
            Rule::ProgramOwned(_) => ConstraintType::ProgramOwned,
            Rule::PubkeyMatch(_) => ConstraintType::PubkeyMatch,
        }
    }

    /// Evaluate the rule: what it decides, how many of its sub-rules it
    /// asked, and which counters the rules that were asked want changed.
    pub fn evaluate(
        &self,
        accounts: &Accounts,
        payload: &Payload,
        update_rule_state: bool,
        rule_set_state_pda: &Option<&RuleState>,
        rule_authority: &Option<&Account>,
    ) -> (e: Evaluation)
        ensures
            e.of(self@, context_of(
                accounts,
                payload,
                update_rule_state,
                rule_set_state_pda,
                rule_authority,
            )),
        decreases self, 0nat,
    {
        match self {
            Rule::Any(any) => any.evaluate(
                accounts,
                payload,
                update_rule_state,
                rule_set_state_pda,
                rule_authority,
            ),
            Rule::All(all) => all.evaluate(
                accounts,
                payload,
                update_rule_state,
                rule_set_state_pda,
                rule_authority,
            ),
            Rule::Not(not) => not.evaluate(
                accounts,
                payload,
                update_rule_state,
                rule_set_state_pda,
                rule_authority,
            ),
            Rule::Frequency(leaf) => leaf.evaluate(
                accounts,
                payload,
                update_rule_state,
                rule_set_state_pda,
                rule_authority,
            ),
            Rule::AdditionalSigner(leaf) => Rule::settled(
                leaf.validate(
                    accounts,
                    payload,
                    update_rule_state,
                    rule_set_state_pda,
                    rule_authority,
                ),
            ),
            Rule::Amount(leaf) => Rule::settled(leaf.validate(
                accounts,
                payload,
                update_rule_state,
                rule_set_state_pda,
                rule_authority,
            )),
            Rule::Pass(leaf) => Rule::settled(leaf.validate(
                accounts,
                payload,
                update_rule_state,
                rule_set_state_pda,
                rule_authority,
            )),
            Rule::ProgramOwned(leaf) => Rule::settled(leaf.validate(
                accounts,
                payload,
                update_rule_state,
                rule_set_state_pda,
                rule_authority,
            )),
            Rule::PubkeyMatch(leaf) => Rule::settled(leaf.validate(
                accounts,
                payload,
                update_rule_state,
                rule_set_state_pda,
                rule_authority,
            )),
        }
    }

    /// What evaluating a rule gives that asks no sub-rule and counts nothing.
    fn settled(result: RuleResult) -> (e: Evaluation)
        ensures
            e.result == result,
            e.asked == 0,
            keys_view(e.updates@) == Seq::<(u64, Seq<u8>)>::empty(),
    {
        let updates: Vec<CounterKey> = Vec::new();
        proof {
            assert(keys_view(updates@) =~= Seq::<(u64, Seq<u8>)>::empty());
        }
        Evaluation { result, asked: 0, updates }
    }

    /// Decide whether the rule permits the operation, given the accounts and
    /// the payload of the call. Nothing is counted by this.
    pub fn validate(
        &self,
        accounts: &Accounts,
        payload: &Payload,
        update_rule_state: bool,
        rule_set_state_pda: &Option<&RuleState>,
        rule_authority: &Option<&Account>,
    ) -> (r: RuleResult)
        ensures
            r == self@.evaluate(context_of(
                accounts,
                payload,
                update_rule_state,
                rule_set_state_pda,
                rule_authority,
            )),
        decreases self, 1nat,
    {
        self.evaluate(
            accounts,
            payload,
            update_rule_state,
            rule_set_state_pda,
            rule_authority,
        ).result
    }

    /// Decide whether the rule permits the operation, and count the call
    /// under the counters of the rules that ask for it. Where a counter is
    /// full nothing is counted, and the outcome is an error.
    pub fn validate_and_update(
        &self,
        accounts: &Accounts,
        payload: &Payload,
        state: &mut RuleState,
        rule_authority: &Option<&Account>,
    ) -> (r: RuleResult)
        ensures
            ({
                let ctx = context_of(accounts, payload, true, &Some(old(state)), rule_authority);
                match incremented(old(state)@, self@.requested(ctx)) {
                    Some(counters) => r == self@.evaluate(ctx) && final(state)@ == counters,
                    None => {
                        &&& r == RuleResult::Error(RuleSetError::NumericalOverflow)
                        &&& final(state)@ == old(state)@
                    },
                }
            }),
    {
        let evaluation = self.counted(accounts, payload, state, rule_authority);
        match state.apply(&evaluation.updates) {
            Ok(_) => evaluation.result,
            Err(e) => RuleResult::Error(e),
        }
    }

    /// Evaluate the rule in a call that is to be counted, with the counters as they are.
    fn counted(
        &self,
        accounts: &Accounts,
        payload: &Payload,
        state: &RuleState,
        rule_authority: &Option<&Account>,
    ) -> (e: Evaluation)
        ensures
            e.of(self@, context_of(accounts, payload, true, &Some(state), rule_authority)),
    {
        let counters = Some(state);
        self.evaluate(accounts, payload, true, &counters, rule_authority)
    }

    /// Serialize the rule into a byte array: its header, then its body.
    pub fn serialize(&self) -> (r: Result<Vec<u8>, RuleSetError>)
        ensures
            self@.unwritable() is None ==> r is Ok,
            written(r, self@.unwritable(), self@.encoding()),
        decreases self,
    {
        match self {
            Rule::AdditionalSigner(leaf) => AdditionalSigner::serialize(&leaf.account),
            Rule::Amount(leaf) => Amount::serialize(leaf.amount, leaf.operator, &leaf.field),
            Rule::Frequency(leaf) => Frequency::serialize(
                &leaf.authority,
                leaf.number,
                leaf.limit,
                &leaf.field,
            ),
            Rule::Pass(_) => Pass::serialize(),
            Rule::ProgramOwned(leaf) => ProgramOwned::serialize(&leaf.program, &leaf.field),
            Rule::PubkeyMatch(leaf) => PubkeyMatch::serialize(&leaf.pubkey, &leaf.field),
            Rule::Any(any) => {
                proof {
                    let rules = views(any.rules@);
                    assert(self@.unwritable() == group_unwritable(rules));
                    assert(first_unwritable(rules) is Some ==> group_unwritable(rules)
                        == first_unwritable(rules));
                }
                let parts = match serialize_all(&any.rules) {
                    Ok(parts) => parts,
                    Err(e) => {
                        return Err(e);
                    },
                };
                let slices = as_slices(&parts);
                proof {
                    lemma_views(any.rules@);
                    lemma_concat_of_encodings(views(any.rules@), slices_view(slices@));
                    assert(self@.encoding() =~= group_bytes(TAG_ANY, slices_view(slices@)));
                }
                Any::serialize(slices.as_slice())
            },
            Rule::All(all) => {
                proof {
                    let rules = views(all.rules@);
                    assert(self@.unwritable() == group_unwritable(rules));
                    assert(first_unwritable(rules) is Some ==> group_unwritable(rules)
                        == first_unwritable(rules));
                }
                let parts = match serialize_all(&all.rules) {
                    Ok(parts) => parts,
                    Err(e) => {
                        return Err(e);
                    },
                };
                let slices = as_slices(&parts);
                proof {
                    lemma_views(all.rules@);
                    lemma_concat_of_encodings(views(all.rules@), slices_view(slices@));
                    assert(self@.encoding() =~= group_bytes(TAG_ALL, slices_view(slices@)));
                }
                All::serialize(slices.as_slice())
            },
            Rule::Not(not) => {
                let part = match not.rule.serialize() {
                    Ok(part) => part,
                    Err(e) => {
                        return Err(e);
                    },
                };
                proof {
                    lemma_encoding_len(not.rule@);
                }
                Not::serialize(part.as_slice())
            },
        }
    }

    /// The number of bytes that the rule takes on the wire: eight for the
    /// header, and the length of the body.
    pub fn length(&self) -> (n: usize)
        requires
            self@.len() <= usize::MAX,
        ensures
            n == self@.len(),
        decreases self,
    {
        proof {
            vstd::bytes::lemma_auto_spec_u64_to_from_le_bytes();
        }
        match self {
            Rule::AdditionalSigner(leaf) => {
                proof {
                    vstd::array::array_len_matches_n(&leaf.account.bytes);
                }
                40
            },
            Rule::Amount(leaf) => 24 + leaf.field.as_str().len(),
            Rule::Frequency(leaf) => {
                proof {
                    vstd::array::array_len_matches_n(&leaf.authority.bytes);
                }
                56 + leaf.field.as_str().len()
            },
            Rule::Pass(_) => 8,
            Rule::ProgramOwned(leaf) => {
                proof {
                    vstd::array::array_len_matches_n(&leaf.program.bytes);
                }
                40 + leaf.field.as_str().len()
            },
            Rule::PubkeyMatch(leaf) => {
                proof {
                    vstd::array::array_len_matches_n(&leaf.pubkey.bytes);
                }
                40 + leaf.field.as_str().len()
            },
            Rule::Any(any) => {
                proof {
                    lemma_views(any.rules@);
                }
                16 + total_length(&any.rules)
            },
            Rule::All(all) => {
                proof {
                    lemma_views(all.rules@);
                }
                16 + total_length(&all.rules)
            },
            Rule::Not(not) => 8 + not.rule.length(),
        }
    }
}

/// The number of bytes that the rules take on the wire, one after another.
fn total_length(rules: &Vec<Rule>) -> (n: usize)
    requires
        total_len(views(rules@)) <= usize::MAX,
    ensures
        n == total_len(views(rules@)),
    decreases rules,
{
    let ghost all = views(rules@);
    let mut n: usize = 0;
    let mut i: usize = 0;
    proof {
        lemma_views(rules@);
        assert(all.take(0) =~= Seq::<RuleView>::empty());
    }
    while i < rules.len()
        invariant
            i <= rules@.len(),
            all == views(rules@),
            all.len() == rules@.len(),
            forall|j: int| 0 <= j < rules@.len() ==> (#[trigger] all[j]) == rules@[j]@,
            total_len(all) <= usize::MAX,
            n == total_len(all.take(i as int)),
        decreases rules@.len() - i,
    {
        proof {
            lemma_total_len_take(all, i as int);
            lemma_total_len_take(all, i + 1);
        }
        n = n + rules[i].length();
        i = i + 1;
    }
    proof {
        assert(all.take(rules@.len() as int) =~= all);
    }
    n
}

/// Serialize each of the rules, in order.
fn serialize_all(rules: &Vec<Rule>) -> (r: Result<Vec<Vec<u8>>, RuleSetError>)
    ensures
        match r {
            Ok(parts) => {
                &&& first_unwritable(views(rules@)) is None
                &&& parts@.len() == rules@.len()
                &&& forall|i: int|
                    0 <= i < rules@.len() ==> (#[trigger] parts@[i])@ == rules@[i]@.encoding()
            },
            Err(e) => first_unwritable(views(rules@)) == Some(e),
        },
    decreases rules,
{
    let ghost all = views(rules@);
    let mut parts: Vec<Vec<u8>> = Vec::new();
    let mut i: usize = 0;
    proof {
        lemma_views(rules@);
        assert(all.take(0) =~= Seq::<RuleView>::empty());
    }
    while i < rules.len()
        invariant
            i <= rules@.len(),
            all == views(rules@),
            all.len() == rules@.len(),
            forall|j: int| 0 <= j < rules@.len() ==> (#[trigger] all[j]) == rules@[j]@,
            first_unwritable(all.take(i as int)) is None,
            parts@.len() == i,
            forall|j: int| 0 <= j < i ==> (#[trigger] parts@[j])@ == rules@[j]@.encoding(),
        decreases rules@.len() - i,
    {
        proof {
            lemma_first_unwritable_take(all, i as int);
            lemma_first_unwritable_take(all, i + 1);
        }
        match rules[i].serialize() {
            Ok(part) => {
                parts.push(part);
            },
            Err(e) => {
                return Err(e);
            },
        }
        i = i + 1;
    }
    proof {
        assert(all.take(rules@.len() as int) =~= all);
    }
    Ok(parts)
}

/// The byte arrays as slices.
fn as_slices(parts: &Vec<Vec<u8>>) -> (slices: Vec<&[u8]>)
    ensures
        slices@.len() == parts@.len(),
        slices_view(slices@).len() == parts@.len(),
        forall|i: int| 0 <= i < parts@.len() ==> (#[trigger] slices_view(slices@)[i]) == parts@[i]@,
{
    let mut slices: Vec<&[u8]> = Vec::new();
    let mut i: usize = 0;
    while i < parts.len()
        invariant
            i <= parts@.len(),
            slices@.len() == i,
            forall|j: int| 0 <= j < i ==> (#[trigger] slices@[j])@ == parts@[j]@,
        decreases parts@.len() - i,
    {
        slices.push(parts[i].as_slice());
        i = i + 1;
    }
    slices
}

/// Deserialize the rules in the body of a combinator: a count, then that many
/// rules of at most `limit` levels, which together take up the whole body.
pub(crate) fn read_group(body: &[u8], limit: usize) -> (r: Result<Vec<Rule>, RuleSetError>)
    ensures
        group_view(r) == parse_group(body@, limit as nat),
    decreases limit, 1nat, u64::MAX as nat + 1,
{
    if body.len() < U64_BYTES {
        return Err(RuleSetError::TruncatedBuffer);
    }
    let size = read_u64(body, 0);
    let total = body.len();
    let mut rules: Vec<Rule> = Vec::new();
    let mut offset: usize = U64_BYTES;
    let mut remaining: u64 = size;
    while remaining > 0
        invariant
            8 <= offset <= total,
            total == body@.len(),
            size == u64_at(body@, 0),
            prepend(
                views(rules@),
                parse_children(
                    body@.subrange(offset as int, total as int),
                    remaining as nat,
                    limit as nat,
                ),
            ) == parse_children(body@.subrange(8, total as int), size as nat, limit as nat),
        decreases remaining,
    {
        let rest = slice_subrange(body, offset, total);
        match Rule::from_bytes_bounded(rest, limit) {
            Err(e) => {
                return Err(e);
            },
            Ok((rule, n)) => {
                proof {
                    let done = views(rules@);
                    let after = parse_children(
                        rest@.subrange(n as int, rest@.len() as int),
                        (remaining - 1) as nat,
                        limit as nat,
                    );
                    assert(rest@.subrange(n as int, rest@.len() as int) =~= body@.subrange(
                        offset + n,
                        total as int,
                    ));
                    assert(rules@.push(rule).drop_last() =~= rules@);
                    assert(views(rules@.push(rule)) == done.push(rule@));
                    if let Ok(more) = after {
                        assert(done + (seq![rule@] + more) =~= done.push(rule@) + more);
                    }
                }
                offset = offset + n;
                rules.push(rule);
                remaining = remaining - 1;
            },
        }
    }
    if offset != total {
        return Err(RuleSetError::LengthMismatch);
    }
    proof {
        assert(views(rules@) + Seq::<RuleView>::empty() =~= views(rules@));
    }
    Ok(rules)
}

/// The contents of the slices.
pub open spec fn slices_view(slices: Seq<&[u8]>) -> Seq<Seq<u8>> {
    slices.map_values(|s: &[u8]| s@)
}

/// Serialize a combinator of the kind that `tag` names from its rules, each
/// already serialized.
pub(crate) fn write_group(tag: u32, rules: &[&[u8]]) -> (r: Result<Vec<u8>, RuleSetError>)
    ensures
        written(
            r,
            group_refused(slices_view(rules@)),
            group_bytes(tag, slices_view(rules@)),
        ),
{
    let ghost parts = slices_view(rules@);
    let count = rules.len();
    if count == 0 {
        return Err(RuleSetError::DataIsEmpty);
    }
    let mut length: u64 = 8;
    let mut i: usize = 0;
    while i < count
        invariant
            i <= count,
            count == rules@.len(),
            parts == slices_view(rules@),
            length == 8 + parts_len(parts.take(i as int)),
            length <= u32::MAX,
        decreases count - i,
    {
        let part_len = rules[i].len() as u64;
        proof {
            lemma_parts_len_take(parts, i as int);
            lemma_parts_len_take(parts, i + 1);
        }
        if part_len > 0xffff_ffff - length {
            return Err(RuleSetError::NumericalOverflow);
        }
        length = length + part_len;
        i = i + 1;
    }
    proof {
        assert(parts.take(count as int) =~= parts);
    }
    let mut data: Vec<u8> = Vec::new();
    match put_u32(tag, &mut data) {
        Ok(_) => {},
        Err(e) => {
            return Err(e);
        },
    }
    match put_u32(length as u32, &mut data) {
        Ok(_) => {},
        Err(e) => {
            return Err(e);
        },
    }
    match put_u64(count as u64, &mut data) {
        Ok(_) => {},
        Err(e) => {
            return Err(e);
        },
    }
    let ghost head = header_bytes(tag, (8 + parts_len(parts)) as u32) + u64_le(
        parts.len() as u64,
    );
    proof {
        assert(data@ =~= head);
        assert(parts.take(0) =~= Seq::<Seq<u8>>::empty());
    }
    let mut i: usize = 0;
    while i < count
        invariant
            i <= count,
            count == rules@.len(),
            parts == slices_view(rules@),
            data@ == head + concat(parts.take(i as int)),
        decreases count - i,
    {
        proof {
            lemma_parts_len_take(parts, i as int);
        }
        let ghost before = data@;
        data.extend_from_slice(rules[i]);
        proof {
            assert(data@ =~= before + parts[i as int]);
            assert(head + concat(parts.take(i as int)) + parts[i as int] =~= head + (concat(
                parts.take(i as int),
            ) + parts[i as int]));
        }
        i = i + 1;
    }
    proof {
        assert(parts.take(count as int) =~= parts);
    }
    Ok(data)
}

} // verus!
