use token_auth_rules::accounts::{Account, Accounts};
use token_auth_rules::all::All;
use token_auth_rules::any::Any;
use token_auth_rules::error::{RuleResult, RuleSetError};
use token_auth_rules::frequency::Frequency;
use token_auth_rules::not::Not;
use token_auth_rules::pass::Pass;
use token_auth_rules::payload::{Payload, PayloadType};
use token_auth_rules::pubkey::Pubkey;
use token_auth_rules::rule::Rule;
use token_auth_rules::state::{append_keys, CounterKey, RuleState};

const TARGET: [u8; 32] = [1; 32];
const SOURCE: [u8; 32] = [2; 32];

fn key(rule: u64, resource: [u8; 32]) -> CounterKey {
    CounterKey { rule, resource: Pubkey::new(resource) }
}

const AUTHORITY: [u8; 32] = [9; 32];

fn limited(number: u64, limit: u64, field: &str) -> Frequency {
    Frequency { authority: Pubkey::new(AUTHORITY), number, limit, field: field.to_string() }
}

fn authority() -> Account {
    Account {
        key: Pubkey::new(AUTHORITY),
        owner: Pubkey::new([0; 32]),
        is_signer: true,
        data: vec![],
    }
}

fn payload() -> Payload {
    let mut payload = Payload::new();
    payload.insert("Target".to_string(), PayloadType::Pubkey(Pubkey::new(TARGET)));
    payload.insert("Source".to_string(), PayloadType::Pubkey(Pubkey::new(SOURCE)));
    payload.insert("Amount".to_string(), PayloadType::Number(1));
    payload
}

const PASSED: RuleResult = RuleResult::Success(RuleSetError::FrequencyCheckFailed);
const FAILED: RuleResult = RuleResult::Failure(RuleSetError::FrequencyCheckFailed);

#[test]
fn counters_start_at_zero() {
    let mut state = RuleState::new();
    assert_eq!(state.count(&key(1, TARGET)), 0);
    state.set(key(1, TARGET), 7);
    assert_eq!(state.count(&key(1, TARGET)), 7);
    assert_eq!(state.count(&key(2, TARGET)), 0);
    assert_eq!(state.count(&key(1, SOURCE)), 0);
    state.set(key(1, TARGET), 9);
    assert_eq!(state.count(&key(1, TARGET)), 9);
}

#[test]
fn increment_counts_one() {
    let mut state = RuleState::new();
    assert_eq!(state.increment(key(1, TARGET)), Ok(()));
    assert_eq!(state.increment(key(1, TARGET)), Ok(()));
    assert_eq!(state.increment(key(1, SOURCE)), Ok(()));
    assert_eq!(state.count(&key(1, TARGET)), 2);
    assert_eq!(state.count(&key(1, SOURCE)), 1);
}

#[test]
fn a_full_counter_stays() {
    let mut state = RuleState::new();
    state.set(key(1, TARGET), u64::MAX);
    assert_eq!(state.increment(key(1, TARGET)), Err(RuleSetError::NumericalOverflow));
    assert_eq!(state.count(&key(1, TARGET)), u64::MAX);
}

#[test]
fn apply_counts_all_or_nothing() {
    let mut state = RuleState::new();
    state.set(key(3, TARGET), u64::MAX - 1);
    let keys = vec![key(1, TARGET), key(3, TARGET), key(1, TARGET)];
    assert_eq!(state.apply(&keys), Ok(()));
    assert_eq!(state.count(&key(1, TARGET)), 2);
    assert_eq!(state.count(&key(3, TARGET)), u64::MAX);
    // The second key is full now: the first is not counted either.
    assert_eq!(state.apply(&keys), Err(RuleSetError::NumericalOverflow));
    assert_eq!(state.count(&key(1, TARGET)), 2);
    assert_eq!(state.count(&key(3, TARGET)), u64::MAX);
    assert_eq!(state.apply(&vec![]), Ok(()));
    assert_eq!(state.count(&key(1, TARGET)), 2);
}

#[test]
fn keys_are_appended_in_order() {
    let mut keys = vec![key(1, TARGET)];
    append_keys(&mut keys, &vec![key(2, SOURCE), key(3, TARGET)]);
    assert_eq!(keys, vec![key(1, TARGET), key(2, SOURCE), key(3, TARGET)]);
    append_keys(&mut keys, &vec![]);
    assert_eq!(keys.len(), 3);
}

#[test]
fn frequency_passes_below_the_limit() {
    let accounts = Accounts::new();
    let payload = payload();
    let rule = limited(4, 2, "Target");
    let mut state = RuleState::new();
    assert_eq!(rule.validate(&accounts, &payload, false, &Some(&state), &Some(&authority())), PASSED);
    state.set(key(4, TARGET), 1);
    assert_eq!(rule.validate(&accounts, &payload, false, &Some(&state), &Some(&authority())), PASSED);
    state.set(key(4, TARGET), 2);
    assert_eq!(rule.validate(&accounts, &payload, false, &Some(&state), &Some(&authority())), FAILED);
    // Another rule's counter, and another account's, do not matter.
    let mut state = RuleState::new();
    state.set(key(5, TARGET), 9);
    state.set(key(4, SOURCE), 9);
    assert_eq!(rule.validate(&accounts, &payload, true, &Some(&state), &Some(&authority())), PASSED);
    assert_eq!(limited(4, 0, "Target").validate(&accounts, &payload, true, &Some(&state), &Some(&authority())), FAILED);
}

#[test]
fn frequency_needs_the_address_and_the_counters() {
    let accounts = Accounts::new();
    let payload = payload();
    let state = RuleState::new();
    assert_eq!(
        limited(4, 2, "Target").validate(&accounts, &payload, true, &None, &Some(&authority())),
        RuleResult::Error(RuleSetError::MissingRuleState)
    );
    assert_eq!(
        limited(4, 2, "Nowhere").validate(&accounts, &payload, true, &Some(&state), &Some(&authority())),
        RuleResult::Error(RuleSetError::MissingPayloadValue)
    );
    assert_eq!(
        limited(4, 2, "Amount").validate(&accounts, &payload, true, &Some(&state), &Some(&authority())),
        RuleResult::Error(RuleSetError::WrongPayloadType)
    );
    let asked = limited(4, 2, "Nowhere").evaluate(&accounts, &payload, true, &Some(&state), &Some(&authority()));
    assert!(asked.updates.is_empty());
}

#[test]
fn stateful_leaf_without_the_flag_changes_nothing() {
    let accounts = Accounts::new();
    let payload = payload();
    let state = RuleState::new();
    let rule = Rule::Frequency(limited(4, 2, "Target"));
    for _ in 0..5 {
        let outcome = rule.evaluate(&accounts, &payload, false, &Some(&state), &Some(&authority()));
        assert_eq!(outcome.result, PASSED);
        assert!(outcome.updates.is_empty());
        assert_eq!(rule.validate(&accounts, &payload, false, &Some(&state), &Some(&authority())), PASSED);
    }
    assert_eq!(state.count(&key(4, TARGET)), 0);
}

#[test]
fn stateful_leaf_with_the_flag_counts_once() {
    let accounts = Accounts::new();
    let payload = payload();
    let mut state = RuleState::new();
    let rule = Rule::Frequency(limited(4, 2, "Target"));
    let outcome = rule.evaluate(&accounts, &payload, true, &Some(&state), &Some(&authority()));
    assert_eq!(outcome.result, PASSED);
    assert_eq!(outcome.updates, vec![key(4, TARGET)]);
    assert_eq!(state.apply(&outcome.updates), Ok(()));
    assert_eq!(state.count(&key(4, TARGET)), 1);
    // Deciding does not count: only the explicit step does.
    assert_eq!(rule.validate(&accounts, &payload, true, &Some(&state), &Some(&authority())), PASSED);
    assert_eq!(state.count(&key(4, TARGET)), 1);
}

#[test]
fn validate_and_update_counts_passing_calls() {
    let accounts = Accounts::new();
    let payload = payload();
    let mut state = RuleState::new();
    let rule = Rule::Frequency(limited(4, 2, "Target"));
    assert_eq!(rule.validate_and_update(&accounts, &payload, &mut state, &Some(&authority())), PASSED);
    assert_eq!(state.count(&key(4, TARGET)), 1);
    assert_eq!(rule.validate_and_update(&accounts, &payload, &mut state, &Some(&authority())), PASSED);
    assert_eq!(state.count(&key(4, TARGET)), 2);
    // The limit is reached: the call fails and is not counted.
    assert_eq!(rule.validate_and_update(&accounts, &payload, &mut state, &Some(&authority())), FAILED);
    assert_eq!(state.count(&key(4, TARGET)), 2);
}

#[test]
fn a_full_counter_makes_the_call_an_error() {
    let accounts = Accounts::new();
    let payload = payload();
    let mut state = RuleState::new();
    state.set(key(4, TARGET), u64::MAX - 1);
    let rule = Rule::All(All {
        rules: vec![
            Rule::Frequency(limited(9, 1, "Source")),
            Rule::Frequency(limited(4, u64::MAX, "Target")),
            Rule::Frequency(limited(4, u64::MAX, "Target")),
        ],
    });
    assert_eq!(
        rule.validate_and_update(&accounts, &payload, &mut state, &Some(&authority())),
        RuleResult::Error(RuleSetError::NumericalOverflow)
    );
    assert_eq!(state.count(&key(4, TARGET)), u64::MAX - 1);
    assert_eq!(state.count(&key(9, SOURCE)), 0);
}

#[test]
fn only_the_rules_that_were_asked_count() {
    let accounts = Accounts::new();
    let payload = payload();
    let state = RuleState::new();
    // The second rule succeeds: the third is never asked, and asks for nothing.
    let any = Any {
        rules: vec![
            Rule::Frequency(limited(1, 0, "Target")),
            Rule::Frequency(limited(2, 5, "Target")),
            Rule::Frequency(limited(3, 5, "Source")),
        ],
    };
    let outcome = any.evaluate(&accounts, &payload, true, &Some(&state), &Some(&authority()));
    assert_eq!(outcome.result, PASSED);
    assert_eq!(outcome.asked, 2);
    assert_eq!(outcome.updates, vec![key(2, TARGET)]);
    // Every rule of a conjunction that passes is asked, in order.
    let all = All {
        rules: vec![
            Rule::Frequency(limited(3, 5, "Source")),
            Rule::Pass(Pass {}),
            Rule::Not(Not { rule: Box::new(Rule::Frequency(limited(1, 0, "Target"))) }),
            Rule::Frequency(limited(2, 5, "Target")),
        ],
    };
    let outcome = all.evaluate(&accounts, &payload, true, &Some(&state), &Some(&authority()));
    assert_eq!(outcome.result, PASSED);
    assert_eq!(outcome.asked, 4);
    assert_eq!(outcome.updates, vec![key(3, SOURCE), key(2, TARGET)]);
    let outcome = all.evaluate(&accounts, &payload, false, &Some(&state), &Some(&authority()));
    assert_eq!(outcome.result, PASSED);
    assert!(outcome.updates.is_empty());
}

#[test]
fn a_negated_rule_that_passes_still_counts() {
    let accounts = Accounts::new();
    let payload = payload();
    let state = RuleState::new();
    let rule = Rule::Not(Not { rule: Box::new(Rule::Frequency(limited(2, 5, "Target"))) });
    let outcome = rule.evaluate(&accounts, &payload, true, &Some(&state), &Some(&authority()));
    assert_eq!(outcome.result, FAILED);
    assert_eq!(outcome.asked, 1);
    assert_eq!(outcome.updates, vec![key(2, TARGET)]);
}

#[test]
fn frequency_defers_to_the_authority() {
    let accounts = Accounts::new();
    let payload = payload();
    let state = RuleState::new();
    let rule = limited(4, 2, "Target");
    assert_eq!(
        rule.validate(&accounts, &payload, true, &Some(&state), &None),
        RuleResult::Error(RuleSetError::MissingAccount)
    );
    let unsigned = Account { is_signer: false, ..authority() };
    assert_eq!(
        rule.validate(&accounts, &payload, true, &Some(&state), &Some(&unsigned)),
        RuleResult::Error(RuleSetError::RuleAuthorityIsNotSigner)
    );
    let another = Account { key: Pubkey::new(TARGET), ..authority() };
    assert_eq!(
        rule.validate(&accounts, &payload, true, &Some(&state), &Some(&another)),
        RuleResult::Error(RuleSetError::RuleAuthorityIsNotSigner)
    );
    let asked = rule.evaluate(&accounts, &payload, true, &Some(&state), &None);
    assert!(asked.updates.is_empty());
    assert_eq!(rule.validate(&accounts, &payload, true, &Some(&state), &Some(&authority())), PASSED);
}
