use token_auth_rules::accounts::{Account, Accounts};
use token_auth_rules::any::Any;
use token_auth_rules::error::{RuleResult, RuleSetError};
use token_auth_rules::not::Not;
use token_auth_rules::pass::Pass;
use token_auth_rules::payload::{Payload, PayloadType};
use token_auth_rules::program_owned::ProgramOwned;
use token_auth_rules::pubkey::Pubkey;
use token_auth_rules::rule::Rule;
use token_auth_rules::rule_set::RuleSet;

fn pass() -> Rule {
    Rule::Pass(Pass {})
}

fn owned(byte: u8) -> Rule {
    Rule::ProgramOwned(ProgramOwned {
        program: Pubkey::new([byte; 32]),
        field: "Target".to_string(),
    })
}

fn sample() -> RuleSet {
    let mut rule_set = RuleSet::new("test rule_set".to_string(), Pubkey::new([7; 32]));
    rule_set.add("Transfer".to_string(), owned(2)).unwrap();
    rule_set
        .add("Delegate".to_string(), Rule::Any(Any { rules: vec![owned(3), pass()] }))
        .unwrap();
    rule_set
}

#[test]
fn a_new_rule_set_has_no_operations() {
    let rule_set = RuleSet::new("test rule_set".to_string(), Pubkey::new([7; 32]));
    assert_eq!(rule_set.name(), "test rule_set");
    assert_eq!(rule_set.owner(), &Pubkey::new([7; 32]));
    assert_eq!(rule_set.len(), 0);
    assert_eq!(rule_set.get(&"Transfer".to_string()), None);
}

#[test]
fn add_gives_an_operation_its_rule() {
    let rule_set = sample();
    assert_eq!(rule_set.len(), 2);
    assert_eq!(rule_set.get(&"Transfer".to_string()), Some(&owned(2)));
    assert_eq!(
        rule_set.get(&"Delegate".to_string()),
        Some(&Rule::Any(Any { rules: vec![owned(3), pass()] }))
    );
    assert_eq!(rule_set.get(&"Burn".to_string()), None);
    assert_eq!(rule_set.name(), "test rule_set");
    assert_eq!(rule_set.owner(), &Pubkey::new([7; 32]));
}

#[test]
fn add_rejects_an_operation_that_has_a_rule() {
    let mut rule_set = sample();
    assert_eq!(
        rule_set.add("Transfer".to_string(), pass()),
        Err(RuleSetError::DuplicateOperation)
    );
    assert_eq!(rule_set.len(), 2);
    assert_eq!(rule_set.get(&"Transfer".to_string()), Some(&owned(2)));
    assert_eq!(rule_set, sample());
}

#[test]
fn a_rule_set_is_name_owner_count_and_entries() {
    let mut rule_set = RuleSet::new("rs".to_string(), Pubkey::new([7; 32]));
    rule_set.add("Op".to_string(), pass()).unwrap();
    let mut expected = vec![2, 0, 0, 0, b'r', b's'];
    expected.extend_from_slice(&[7; 32]);
    expected.extend_from_slice(&[1, 0, 0, 0]);
    expected.extend_from_slice(&[2, 0, 0, 0, b'O', b'p']);
    expected.extend_from_slice(&[8, 0, 0, 0]);
    expected.extend_from_slice(&[9, 0, 0, 0, 0, 0, 0, 0]);
    assert_eq!(rule_set.serialize().unwrap(), expected);
    assert_eq!(RuleSet::from_bytes(&expected), Ok(rule_set));
}

#[test]
fn rule_set_round_trip() {
    let empty = RuleSet::new(String::new(), Pubkey::new([0; 32]));
    for rule_set in [sample(), empty] {
        let bytes = rule_set.serialize().unwrap();
        let read = RuleSet::from_bytes(&bytes).unwrap();
        assert_eq!(read, rule_set);
        assert_eq!(read.serialize().unwrap(), bytes);
    }
}

#[test]
fn a_rule_that_cannot_be_written_stops_the_rule_set() {
    let mut rule_set = sample();
    rule_set.add("Burn".to_string(), Rule::Any(Any { rules: vec![] })).unwrap();
    assert_eq!(rule_set.serialize(), Err(RuleSetError::DataIsEmpty));
}

#[test]
fn a_truncated_rule_set_is_refused() {
    let bytes = sample().serialize().unwrap();
    for cut in [0, 3, 10, 17, 40, 48, 52, 60, 70, bytes.len() - 1] {
        assert_eq!(RuleSet::from_bytes(&bytes[..cut]), Err(RuleSetError::TruncatedBuffer));
    }
}

#[test]
fn what_follows_a_rule_set_is_refused() {
    let mut bytes = sample().serialize().unwrap();
    bytes.push(0);
    assert_eq!(RuleSet::from_bytes(&bytes), Err(RuleSetError::LengthMismatch));
}

#[test]
fn an_operation_twice_is_refused() {
    let mut rule_set = RuleSet::new("rs".to_string(), Pubkey::new([7; 32]));
    rule_set.add("Op".to_string(), pass()).unwrap();
    rule_set.add("Oq".to_string(), pass()).unwrap();
    let mut bytes = rule_set.serialize().unwrap();
    assert_eq!(RuleSet::from_bytes(&bytes), Ok(rule_set));
    let second = bytes.len() - 13;
    assert_eq!(bytes[second], b'q');
    bytes[second] = b'p';
    assert_eq!(RuleSet::from_bytes(&bytes), Err(RuleSetError::DuplicateOperation));
}

#[test]
fn the_length_of_an_entry_must_be_that_of_its_rule() {
    let mut rule_set = RuleSet::new("rs".to_string(), Pubkey::new([7; 32]));
    rule_set.add("Op".to_string(), Rule::Not(Not { rule: Box::new(pass()) })).unwrap();
    let mut bytes = rule_set.serialize().unwrap();
    let length = bytes.len() - 20;
    assert_eq!(bytes[length], 16);
    // The rule inside now announces less than the entry holds.
    bytes[length + 4] = 9;
    bytes[length + 8] = 0;
    assert_eq!(RuleSet::from_bytes(&bytes), Err(RuleSetError::LengthMismatch));
    let mut bytes = rule_set.serialize().unwrap();
    bytes[length + 4] = 77;
    assert_eq!(RuleSet::from_bytes(&bytes), Err(RuleSetError::UnknownRuleType));
    let mut bytes = rule_set.serialize().unwrap();
    bytes[1] = 0xff;
    assert_eq!(RuleSet::from_bytes(&bytes), Err(RuleSetError::TruncatedBuffer));
    let mut bytes = rule_set.serialize().unwrap();
    bytes[4] = 0xff;
    assert_eq!(RuleSet::from_bytes(&bytes), Err(RuleSetError::InvalidUtf8));
}

#[test]
fn names_are_length_prefixed() {
    let rule_set = RuleSet::new("Défi".to_string(), Pubkey::new([4; 32]));
    let bytes = rule_set.serialize().unwrap();
    assert_eq!(&bytes[..9], &[5, 0, 0, 0, b'D', 0xc3, 0xa9, b'f', b'i']);
    assert_eq!(bytes.len(), 9 + 32 + 4);
    assert_eq!(RuleSet::from_bytes(&bytes), Ok(rule_set));
}

#[test]
fn a_rule_set_decides_by_operation() {
    let rule_set = sample();
    let mut accounts = Accounts::new();
    accounts.insert(Account {
        key: Pubkey::new([1; 32]),
        owner: Pubkey::new([2; 32]),
        is_signer: false,
        data: vec![],
    });
    let mut payload = Payload::new();
    payload.insert("Target".to_string(), PayloadType::Pubkey(Pubkey::new([1; 32])));
    assert_eq!(
        rule_set.validate(&"Transfer".to_string(), &accounts, &payload, false, &None, &None),
        RuleResult::Success(RuleSetError::OwnershipCheckFailed)
    );
    assert_eq!(
        rule_set.validate(&"Delegate".to_string(), &accounts, &payload, false, &None, &None),
        RuleResult::Success(RuleSetError::UnexpectedEngineFailure)
    );
    assert_eq!(
        rule_set.validate(&"Burn".to_string(), &accounts, &payload, false, &None, &None),
        RuleResult::Error(RuleSetError::OperationNotFound)
    );
}
