use token_auth_rules::accounts::{Account, Accounts};
use token_auth_rules::additional_signer::AdditionalSigner;
use token_auth_rules::all::All;
use token_auth_rules::amount::Amount;
use token_auth_rules::any::Any;
use token_auth_rules::error::{RuleResult, RuleSetError};
use token_auth_rules::evaluation::Evaluation;
use token_auth_rules::operator::CompareOp;
use token_auth_rules::pubkey_match::PubkeyMatch;
use token_auth_rules::not::Not;
use token_auth_rules::pass::Pass;
use token_auth_rules::payload::{Payload, PayloadType};
use token_auth_rules::program_owned::ProgramOwned;
use token_auth_rules::pubkey::Pubkey;
use token_auth_rules::rule::{ConstraintType, Rule};
use token_auth_rules::state::RuleState;

const TARGET: [u8; 32] = [1; 32];
const OWNER: [u8; 32] = [2; 32];
const OTHER: [u8; 32] = [3; 32];

fn pass() -> Rule {
    Rule::Pass(Pass {})
}

fn not(rule: Rule) -> Rule {
    Rule::Not(Not { rule: Box::new(rule) })
}

fn owned_by(program: [u8; 32], field: &str) -> Rule {
    Rule::ProgramOwned(ProgramOwned { program: Pubkey::new(program), field: field.to_string() })
}

fn amount(amount: u64, operator: CompareOp) -> Rule {
    Rule::Amount(Amount { amount, operator, field: "Amount".to_string() })
}

fn signer(key: [u8; 32]) -> Rule {
    Rule::AdditionalSigner(AdditionalSigner { account: Pubkey::new(key) })
}

fn matches(key: [u8; 32], field: &str) -> Rule {
    Rule::PubkeyMatch(PubkeyMatch { pubkey: Pubkey::new(key), field: field.to_string() })
}

fn account(key: [u8; 32], owner: [u8; 32]) -> Account {
    Account { key: Pubkey::new(key), owner: Pubkey::new(owner), is_signer: false, data: vec![] }
}

/// The target account is passed in, owned by OWNER, and named under "Target".
fn context() -> (Accounts, Payload) {
    let mut accounts = Accounts::new();
    accounts.insert(account(TARGET, OWNER));
    accounts.insert(Account { is_signer: true, ..account(OTHER, OWNER) });
    let mut payload = Payload::new();
    payload.insert("Target".to_string(), PayloadType::Pubkey(Pubkey::new(TARGET)));
    payload.insert("Amount".to_string(), PayloadType::Number(5));
    payload.insert("Seeds".to_string(), PayloadType::Seeds(vec![vec![1], vec![2, 3]]));
    payload.insert("Absent".to_string(), PayloadType::Pubkey(Pubkey::new([9; 32])));
    (accounts, payload)
}

fn ask(rule: &Rule) -> RuleResult {
    let (accounts, payload) = context();
    rule.validate(&accounts, &payload, false, &None, &None)
}

// Rules with known outcomes in `context()`.
fn failure_a() -> Rule {
    owned_by(OTHER, "Target") // Failure(OwnershipCheckFailed)
}

fn failure_b() -> Rule {
    not(pass()) // Failure(UnexpectedEngineFailure)
}

fn success_b() -> Rule {
    owned_by(OWNER, "Target") // Success(OwnershipCheckFailed)
}

fn error_a() -> Rule {
    owned_by(OWNER, "Nowhere") // Error(MissingPayloadValue)
}

fn error_b() -> Rule {
    owned_by(OWNER, "Absent") // Error(MissingAccount)
}

#[test]
fn the_fixtures_decide_as_labelled() {
    assert_eq!(ask(&failure_a()), RuleResult::Failure(RuleSetError::OwnershipCheckFailed));
    assert_eq!(ask(&failure_b()), RuleResult::Failure(RuleSetError::UnexpectedEngineFailure));
    assert_eq!(ask(&success_b()), RuleResult::Success(RuleSetError::OwnershipCheckFailed));
    assert_eq!(ask(&error_a()), RuleResult::Error(RuleSetError::MissingPayloadValue));
    assert_eq!(ask(&error_b()), RuleResult::Error(RuleSetError::MissingAccount));
}

#[test]
fn any_short_circuit() {
    let (accounts, payload) = context();
    let any = Any { rules: vec![failure_b(), success_b(), failure_a()] };
    let outcome = any.evaluate(&accounts, &payload, false, &None, &None);
    assert_eq!(outcome.result, RuleResult::Success(RuleSetError::OwnershipCheckFailed));
    assert_eq!(outcome.asked, 2);
    assert!(outcome.updates.is_empty());
    assert_eq!(any.validate(&accounts, &payload, false, &None, &None), outcome.result);
    assert_eq!(ask(&Rule::Any(any)), outcome.result);
}

#[test]
fn any_stops_at_the_first_of_two_successes() {
    let (accounts, payload) = context();
    let any = Any { rules: vec![pass(), success_b()] };
    let outcome = any.evaluate(&accounts, &payload, false, &None, &None);
    assert_eq!(outcome.result, RuleResult::Success(RuleSetError::UnexpectedEngineFailure));
    assert_eq!(outcome.asked, 1);
}

#[test]
fn any_all_fail_tie_break() {
    let (accounts, payload) = context();
    let any = Any { rules: vec![failure_a(), failure_b()] };
    let outcome = any.evaluate(&accounts, &payload, false, &None, &None);
    assert_eq!(outcome.result, RuleResult::Failure(RuleSetError::UnexpectedEngineFailure));
    assert_eq!(outcome.asked, 2);
    let any = Any { rules: vec![failure_b(), failure_a()] };
    assert_eq!(
        any.validate(&accounts, &payload, false, &None, &None),
        RuleResult::Failure(RuleSetError::OwnershipCheckFailed)
    );
}

#[test]
fn any_reports_a_failure_over_a_later_error() {
    let any = Rule::Any(Any { rules: vec![error_a(), failure_a(), error_b()] });
    assert_eq!(ask(&any), RuleResult::Failure(RuleSetError::OwnershipCheckFailed));
}

#[test]
fn any_all_error() {
    let any = Rule::Any(Any { rules: vec![error_a(), error_b()] });
    assert_eq!(ask(&any), RuleResult::Error(RuleSetError::MissingAccount));
    let any = Rule::Any(Any { rules: vec![error_b(), error_a()] });
    assert_eq!(ask(&any), RuleResult::Error(RuleSetError::MissingPayloadValue));
}

#[test]
fn any_empty() {
    let (accounts, payload) = context();
    let any = Any { rules: vec![] };
    assert_eq!(
        any.evaluate(&accounts, &payload, false, &None, &None),
        Evaluation {
            result: RuleResult::Error(RuleSetError::UnexpectedEngineFailure),
            asked: 0,
            updates: vec![],
        }
    );
}

#[test]
fn pass_always_succeeds() {
    let empty_accounts = Accounts::new();
    let empty_payload = Payload::new();
    let expected = RuleResult::Success(RuleSetError::UnexpectedEngineFailure);
    assert_eq!((Pass {}).validate(&empty_accounts, &empty_payload, false, &None, &None), expected);
    assert_eq!((Pass {}).validate(&empty_accounts, &empty_payload, true, &None, &None), expected);
    let (accounts, payload) = context();
    let authority = account(OTHER, OWNER);
    let state = RuleState::new();
    assert_eq!(
        (Pass {}).validate(&accounts, &payload, true, &Some(&state), &Some(&authority)),
        expected
    );
    assert_eq!(ask(&pass()), expected);
    assert_eq!((Pass {}).constraint_type(), ConstraintType::Pass);
}

#[test]
fn program_owned() {
    // The account is found, but another program owns it.
    let mut accounts = Accounts::new();
    accounts.insert(account(TARGET, OTHER));
    let mut payload = Payload::new();
    payload.insert("Target".to_string(), PayloadType::Pubkey(Pubkey::new(TARGET)));
    let rule = owned_by(OWNER, "Target");
    assert_eq!(
        rule.validate(&accounts, &payload, false, &None, &None),
        RuleResult::Failure(RuleSetError::OwnershipCheckFailed)
    );
    // The rule expects the program that owns it.
    let rule = owned_by(OTHER, "Target");
    assert_eq!(
        rule.validate(&accounts, &payload, false, &None, &None),
        RuleResult::Success(RuleSetError::OwnershipCheckFailed)
    );
    // The payload does not name the account.
    assert_eq!(
        rule.validate(&accounts, &Payload::new(), false, &None, &None),
        RuleResult::Error(RuleSetError::MissingPayloadValue)
    );
    // The account was not passed in.
    assert_eq!(
        rule.validate(&Accounts::new(), &payload, false, &None, &None),
        RuleResult::Error(RuleSetError::MissingAccount)
    );
}

#[test]
fn program_owned_wants_an_address() {
    assert_eq!(ask(&owned_by(OWNER, "Amount")), RuleResult::Error(RuleSetError::WrongPayloadType));
}

#[test]
fn program_owned_after_a_round_trip() {
    let bytes = owned_by(OWNER, "Target").serialize().unwrap();
    let (rule, _) = Rule::from_bytes(&bytes).unwrap();
    assert_eq!(ask(&rule), RuleResult::Success(RuleSetError::OwnershipCheckFailed));
}

#[test]
fn all_stops_at_the_first_that_does_not_succeed() {
    let (accounts, payload) = context();
    let all = All { rules: vec![pass(), failure_a(), error_a()] };
    assert_eq!(
        all.evaluate(&accounts, &payload, false, &None, &None),
        Evaluation { result: RuleResult::Failure(RuleSetError::OwnershipCheckFailed), asked: 2, updates: vec![] }
    );
    let all = All { rules: vec![pass(), error_b(), failure_a()] };
    assert_eq!(
        all.evaluate(&accounts, &payload, false, &None, &None),
        Evaluation { result: RuleResult::Error(RuleSetError::MissingAccount), asked: 2, updates: vec![] }
    );
}

#[test]
fn all_returns_the_last_success() {
    let (accounts, payload) = context();
    let all = All { rules: vec![pass(), success_b()] };
    assert_eq!(
        all.evaluate(&accounts, &payload, false, &None, &None),
        Evaluation { result: RuleResult::Success(RuleSetError::OwnershipCheckFailed), asked: 2, updates: vec![] }
    );
    let all = All { rules: vec![success_b(), pass()] };
    assert_eq!(
        all.validate(&accounts, &payload, false, &None, &None),
        RuleResult::Success(RuleSetError::UnexpectedEngineFailure)
    );
}

#[test]
fn all_empty() {
    assert_eq!(
        ask(&Rule::All(All { rules: vec![] })),
        RuleResult::Error(RuleSetError::UnexpectedEngineFailure)
    );
}

#[test]
fn not_swaps_success_and_failure() {
    assert_eq!(ask(&not(pass())), RuleResult::Failure(RuleSetError::UnexpectedEngineFailure));
    assert_eq!(ask(&not(failure_a())), RuleResult::Success(RuleSetError::OwnershipCheckFailed));
    assert_eq!(ask(&not(error_a())), RuleResult::Error(RuleSetError::MissingPayloadValue));
    assert_eq!(ask(&not(not(pass()))), ask(&pass()));
}

#[test]
fn nested_combinators() {
    let rule = Rule::All(All {
        rules: vec![
            Rule::Any(Any { rules: vec![failure_a(), error_a(), success_b()] }),
            not(Rule::Any(Any { rules: vec![failure_a(), failure_b()] })),
        ],
    });
    assert_eq!(ask(&rule), RuleResult::Success(RuleSetError::UnexpectedEngineFailure));
}

#[test]
fn the_flags_and_handles_change_nothing() {
    let (accounts, payload) = context();
    let authority = account(OTHER, OWNER);
    let state = RuleState::new();
    let rule = Rule::Any(Any { rules: vec![failure_a(), success_b()] });
    let plain = rule.validate(&accounts, &payload, false, &None, &None);
    for _ in 0..3 {
        assert_eq!(rule.validate(&accounts, &payload, false, &Some(&state), &None), plain);
        assert_eq!(rule.validate(&accounts, &payload, true, &None, &Some(&authority)), plain);
    }
}

#[test]
fn payload_keeps_the_last_value() {
    let mut payload = Payload::new();
    let key = "Amount".to_string();
    assert_eq!(payload.get(&key), None);
    payload.insert(key.clone(), PayloadType::Number(1));
    payload.insert("Other".to_string(), PayloadType::Bytes(vec![1, 2]));
    payload.insert(key.clone(), PayloadType::Number(2));
    assert_eq!(payload.get(&key), Some(&PayloadType::Number(2)));
    assert_eq!(payload.get(&"Other".to_string()), Some(&PayloadType::Bytes(vec![1, 2])));
    assert_eq!(payload.get_pubkey(&key), None);
    payload.insert(key.clone(), PayloadType::Pubkey(Pubkey::new(TARGET)));
    assert_eq!(payload.get_pubkey(&key), Some(&Pubkey::new(TARGET)));
    assert_eq!(payload.get_pubkey(&"Missing".to_string()), None);
}

#[test]
fn accounts_keep_the_last_entry() {
    let mut accounts = Accounts::new();
    assert_eq!(accounts.get(&Pubkey::new(TARGET)), None);
    accounts.insert(account(TARGET, OWNER));
    accounts.insert(account(OTHER, OWNER));
    accounts.insert(account(TARGET, OTHER));
    assert_eq!(accounts.get(&Pubkey::new(TARGET)), Some(&account(TARGET, OTHER)));
    assert_eq!(accounts.get(&Pubkey::new(OTHER)), Some(&account(OTHER, OWNER)));
    assert_eq!(accounts.get(&Pubkey::new(OWNER)), None);
}

#[test]
fn reasons_by_kind() {
    assert_eq!(ConstraintType::Pass.to_error(), RuleSetError::UnexpectedEngineFailure);
    assert_eq!(ConstraintType::Any.to_error(), RuleSetError::UnexpectedEngineFailure);
    assert_eq!(ConstraintType::ProgramOwned.to_error(), RuleSetError::OwnershipCheckFailed);
}

#[test]
fn amount_compares_the_payload_to_the_rule() {
    let passed = RuleResult::Success(RuleSetError::AmountCheckFailed);
    let failed = RuleResult::Failure(RuleSetError::AmountCheckFailed);
    // The payload holds 5 under "Amount".
    for (operator, below, equal, above) in [
        (CompareOp::Lt, &failed, &failed, &passed),
        (CompareOp::LtEq, &failed, &passed, &passed),
        (CompareOp::Eq, &failed, &passed, &failed),
        (CompareOp::GtEq, &passed, &passed, &failed),
        (CompareOp::Gt, &passed, &failed, &failed),
    ] {
        assert_eq!(&ask(&amount(4, operator)), below);
        assert_eq!(&ask(&amount(5, operator)), equal);
        assert_eq!(&ask(&amount(6, operator)), above);
        assert_eq!(operator.holds(5, 4), *below == passed);
        assert_eq!(operator.holds(5, 6), *above == passed);
    }
}

#[test]
fn amount_wants_a_number() {
    let rule = Rule::Amount(Amount {
        amount: 1,
        operator: CompareOp::Eq,
        field: "Target".to_string(),
    });
    assert_eq!(ask(&rule), RuleResult::Error(RuleSetError::WrongPayloadType));
    let rule = Rule::Amount(Amount {
        amount: 1,
        operator: CompareOp::Eq,
        field: "Nowhere".to_string(),
    });
    assert_eq!(ask(&rule), RuleResult::Error(RuleSetError::MissingPayloadValue));
}

#[test]
fn pubkey_match_compares_addresses() {
    assert_eq!(
        ask(&matches(TARGET, "Target")),
        RuleResult::Success(RuleSetError::PubkeyMatchCheckFailed)
    );
    assert_eq!(
        ask(&matches(OTHER, "Target")),
        RuleResult::Failure(RuleSetError::PubkeyMatchCheckFailed)
    );
    assert_eq!(
        ask(&matches(TARGET, "Nowhere")),
        RuleResult::Error(RuleSetError::MissingPayloadValue)
    );
    assert_eq!(ask(&matches(TARGET, "Seeds")), RuleResult::Error(RuleSetError::WrongPayloadType));
}

#[test]
fn additional_signer_reads_the_signer_flag() {
    assert_eq!(ask(&signer(OTHER)), RuleResult::Success(RuleSetError::AdditionalSignerCheckFailed));
    assert_eq!(
        ask(&signer(TARGET)),
        RuleResult::Failure(RuleSetError::AdditionalSignerCheckFailed)
    );
    assert_eq!(ask(&signer([9; 32])), RuleResult::Error(RuleSetError::MissingAccount));
}

#[test]
fn reasons_of_the_other_kinds() {
    assert_eq!(ConstraintType::Amount.to_error(), RuleSetError::AmountCheckFailed);
    assert_eq!(ConstraintType::Frequency.to_error(), RuleSetError::FrequencyCheckFailed);
    assert_eq!(ConstraintType::PubkeyMatch.to_error(), RuleSetError::PubkeyMatchCheckFailed);
    assert_eq!(
        ConstraintType::AdditionalSigner.to_error(),
        RuleSetError::AdditionalSignerCheckFailed
    );
    assert_eq!(ConstraintType::Not.to_error(), RuleSetError::UnexpectedEngineFailure);
    assert_eq!(ConstraintType::All.to_error(), RuleSetError::UnexpectedEngineFailure);
}

#[test]
fn payload_values_by_kind() {
    let (_, payload) = context();
    assert_eq!(payload.address(&"Target".to_string()), Ok(&Pubkey::new(TARGET)));
    assert_eq!(payload.address(&"Amount".to_string()), Err(RuleSetError::WrongPayloadType));
    assert_eq!(payload.address(&"Nowhere".to_string()), Err(RuleSetError::MissingPayloadValue));
    assert_eq!(payload.amount(&"Amount".to_string()), Ok(5));
    assert_eq!(payload.amount(&"Target".to_string()), Err(RuleSetError::WrongPayloadType));
    assert_eq!(payload.amount(&"Nowhere".to_string()), Err(RuleSetError::MissingPayloadValue));
}
