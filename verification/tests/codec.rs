use token_auth_rules::additional_signer::AdditionalSigner;
use token_auth_rules::all::All;
use token_auth_rules::amount::Amount;
use token_auth_rules::any::Any;
use token_auth_rules::error::RuleSetError;
use token_auth_rules::frequency::Frequency;
use token_auth_rules::model::MAX_DEPTH;
use token_auth_rules::not::Not;
use token_auth_rules::operator::CompareOp;
use token_auth_rules::pass::Pass;
use token_auth_rules::program_owned::ProgramOwned;
use token_auth_rules::pubkey::Pubkey;
use token_auth_rules::pubkey_match::PubkeyMatch;
use token_auth_rules::rule::{ConstraintType, Rule};

fn pass() -> Rule {
    Rule::Pass(Pass {})
}

fn owned(byte: u8, field: &str) -> Rule {
    Rule::ProgramOwned(ProgramOwned { program: Pubkey::new([byte; 32]), field: field.to_string() })
}

fn amount(amount: u64, operator: CompareOp, field: &str) -> Rule {
    Rule::Amount(Amount { amount, operator, field: field.to_string() })
}

fn frequency(number: u64, limit: u64, field: &str) -> Rule {
    Rule::Frequency(Frequency {
        authority: Pubkey::new([0xaa; 32]),
        number,
        limit,
        field: field.to_string(),
    })
}

fn signer(byte: u8) -> Rule {
    Rule::AdditionalSigner(AdditionalSigner { account: Pubkey::new([byte; 32]) })
}

fn matched(byte: u8, field: &str) -> Rule {
    Rule::PubkeyMatch(PubkeyMatch { pubkey: Pubkey::new([byte; 32]), field: field.to_string() })
}

fn nested(levels: usize) -> Rule {
    let mut rule = pass();
    for _ in 1..levels {
        rule = Rule::Not(Not { rule: Box::new(rule) });
    }
    rule
}

#[test]
fn pass_is_its_header() {
    assert_eq!(Pass::serialize().unwrap(), vec![9, 0, 0, 0, 0, 0, 0, 0]);
    assert_eq!(pass().serialize().unwrap(), vec![9, 0, 0, 0, 0, 0, 0, 0]);
}

#[test]
fn pass_has_an_empty_body() {
    assert_eq!(Pass::from_bytes(&[]), Ok(Pass {}));
    assert_eq!(Pass::from_bytes(&[0]), Err(RuleSetError::LengthMismatch));
    assert_eq!(
        Rule::from_bytes(&[9, 0, 0, 0, 1, 0, 0, 0, 0]),
        Err(RuleSetError::LengthMismatch)
    );
}

#[test]
fn any_is_header_count_and_rules() {
    let pass = Pass::serialize().unwrap();
    let bytes = Any::serialize(&[&pass, &pass]).unwrap();
    let mut expected = vec![4, 0, 0, 0, 24, 0, 0, 0, 2, 0, 0, 0, 0, 0, 0, 0];
    expected.extend_from_slice(&pass);
    expected.extend_from_slice(&pass);
    assert_eq!(bytes, expected);
    assert_eq!(bytes.len(), 8 + 8 + 2 * 8);
}

#[test]
fn all_is_header_count_and_rules() {
    let pass = Pass::serialize().unwrap();
    let bytes = All::serialize(&[&pass]).unwrap();
    assert_eq!(
        bytes,
        vec![2, 0, 0, 0, 16, 0, 0, 0, 1, 0, 0, 0, 0, 0, 0, 0, 9, 0, 0, 0, 0, 0, 0, 0]
    );
}

#[test]
fn not_is_header_and_rule() {
    let pass = Pass::serialize().unwrap();
    let bytes = Not::serialize(&pass).unwrap();
    assert_eq!(bytes, vec![8, 0, 0, 0, 8, 0, 0, 0, 9, 0, 0, 0, 0, 0, 0, 0]);
}

#[test]
fn program_owned_is_header_program_and_field() {
    let bytes = ProgramOwned::serialize(&Pubkey::new([7; 32]), &"Target".to_string()).unwrap();
    let mut expected = vec![11, 0, 0, 0, 38, 0, 0, 0];
    expected.extend_from_slice(&[7; 32]);
    expected.extend_from_slice(b"Target");
    assert_eq!(bytes, expected);
}

#[test]
fn a_combinator_without_rules_is_not_written() {
    assert_eq!(Any::serialize(&[]), Err(RuleSetError::DataIsEmpty));
    assert_eq!(All::serialize(&[]), Err(RuleSetError::DataIsEmpty));
    let empty = Rule::Any(Any { rules: vec![] });
    assert_eq!(empty.serialize(), Err(RuleSetError::DataIsEmpty));
    let around = Rule::Not(Not { rule: Box::new(Rule::All(All { rules: vec![] })) });
    assert_eq!(around.serialize(), Err(RuleSetError::DataIsEmpty));
}

#[test]
fn a_combinator_without_rules_is_read() {
    let bytes = vec![4, 0, 0, 0, 8, 0, 0, 0, 0, 0, 0, 0, 0, 0, 0, 0];
    assert_eq!(Rule::from_bytes(&bytes), Ok((Rule::Any(Any { rules: vec![] }), 16)));
    assert_eq!(Any::from_bytes(&bytes[8..]), Ok(Any { rules: vec![] }));
}

#[test]
fn round_trip_of_every_kind() {
    let tree = Rule::Any(Any {
        rules: vec![
            owned(1, "Target"),
            Rule::All(All { rules: vec![pass(), Rule::Not(Not { rule: Box::new(pass()) })] }),
            Rule::Not(Not { rule: Box::new(owned(2, "Authority")) }),
            pass(),
        ],
    });
    let leaves = Rule::All(All {
        rules: vec![
            signer(6),
            amount(1000, CompareOp::LtEq, "Amount"),
            frequency(7, 3, "Source"),
            matched(8, "Destination"),
            amount(u64::MAX, CompareOp::Gt, ""),
        ],
    });
    for rule in [pass(), owned(3, ""), owned(4, "Défi"), nested(5), tree, leaves] {
        let bytes = rule.serialize().unwrap();
        assert_eq!(rule.length(), bytes.len());
        let (read, consumed) = Rule::from_bytes(&bytes).unwrap();
        assert_eq!(read, rule);
        assert_eq!(consumed, bytes.len());
        assert_eq!(read.length(), consumed);
        assert_eq!(read.serialize().unwrap(), bytes);
    }
}

#[test]
fn round_trip_up_to_the_depth_limit() {
    for levels in 1..=MAX_DEPTH {
        let rule = nested(levels);
        let bytes = rule.serialize().unwrap();
        assert_eq!(bytes.len(), 8 * levels);
        assert_eq!(Rule::from_bytes(&bytes), Ok((rule, 8 * levels)));
    }
    let bytes = nested(MAX_DEPTH + 1).serialize().unwrap();
    assert_eq!(Rule::from_bytes(&bytes), Err(RuleSetError::NestingTooDeep));
}

#[test]
fn what_follows_a_rule_is_left_alone() {
    let mut bytes = owned(9, "Target").serialize().unwrap();
    let length = bytes.len();
    bytes.extend_from_slice(&[1, 2, 3]);
    let (read, consumed) = Rule::from_bytes(&bytes).unwrap();
    assert_eq!(read, owned(9, "Target"));
    assert_eq!(consumed, length);
    assert_eq!(length, 8 + 32 + 6);
}

#[test]
fn combinator_length_is_count_field_and_children() {
    let children = || vec![pass(), owned(1, "Target"), nested(3)];
    let sum: usize = children().iter().map(|c| c.length()).sum();
    assert_eq!(sum, 8 + 46 + 24);
    let any = Rule::Any(Any { rules: children() });
    let all = Rule::All(All { rules: children() });
    assert_eq!(any.length(), 8 + 8 + sum);
    assert_eq!(all.length(), 8 + 8 + sum);
    let bytes = any.serialize().unwrap();
    assert_eq!(&bytes[4..8], &((8 + sum) as u32).to_le_bytes());
}

#[test]
fn unknown_tag_is_refused() {
    assert_eq!(
        Rule::from_bytes(&[0, 0, 0, 0, 0, 0, 0, 0]),
        Err(RuleSetError::UnknownRuleType)
    );
    assert_eq!(
        Rule::from_bytes(&[200, 0, 0, 0, 0, 0, 0, 0]),
        Err(RuleSetError::UnknownRuleType)
    );
    assert_eq!(ConstraintType::from_tag(7), None);
    assert_eq!(ConstraintType::from_tag(4), Some(ConstraintType::Any));
    assert_eq!(ConstraintType::Any.tag(), 4);
}

#[test]
fn short_buffers_are_refused() {
    assert_eq!(Rule::from_bytes(&[]), Err(RuleSetError::MalformedHeader));
    assert_eq!(Rule::from_bytes(&[9, 0, 0, 0]), Err(RuleSetError::MalformedHeader));
    // The header announces sixteen bytes; eight follow.
    assert_eq!(
        Rule::from_bytes(&[8, 0, 0, 0, 16, 0, 0, 0, 9, 0, 0, 0, 0, 0, 0, 0]),
        Err(RuleSetError::TruncatedBuffer)
    );
    // A combinator needs its count.
    assert_eq!(
        Rule::from_bytes(&[4, 0, 0, 0, 4, 0, 0, 0, 1, 0, 0, 0]),
        Err(RuleSetError::TruncatedBuffer)
    );
    // The count announces two rules; one follows.
    let pass = Pass::serialize().unwrap();
    let mut bytes = Any::serialize(&[&pass]).unwrap();
    bytes[8] = 2;
    assert_eq!(Rule::from_bytes(&bytes), Err(RuleSetError::MalformedHeader));
    // An address has thirty-two bytes.
    let mut bytes = vec![11, 0, 0, 0, 31, 0, 0, 0];
    bytes.extend_from_slice(&[0; 31]);
    assert_eq!(Rule::from_bytes(&bytes), Err(RuleSetError::TruncatedBuffer));
}

#[test]
fn a_body_longer_than_its_rules_is_refused() {
    let pass = Pass::serialize().unwrap();
    // One rule announced, two present.
    let mut bytes = Any::serialize(&[&pass, &pass]).unwrap();
    bytes[8] = 1;
    assert_eq!(Rule::from_bytes(&bytes), Err(RuleSetError::LengthMismatch));
    // A negation holds one rule and nothing else.
    let mut bytes = vec![8, 0, 0, 0, 9, 0, 0, 0];
    bytes.extend_from_slice(&pass);
    bytes.push(0);
    assert_eq!(Rule::from_bytes(&bytes), Err(RuleSetError::LengthMismatch));
    assert_eq!(Not::from_bytes(&bytes[8..]), Err(RuleSetError::LengthMismatch));
}

#[test]
fn a_field_name_is_utf8() {
    let mut bytes = vec![11, 0, 0, 0, 34, 0, 0, 0];
    bytes.extend_from_slice(&[5; 32]);
    bytes.extend_from_slice(&[0xff, 0xfe]);
    assert_eq!(Rule::from_bytes(&bytes), Err(RuleSetError::InvalidUtf8));
    bytes[40] = b'o';
    bytes[41] = b'k';
    assert_eq!(Rule::from_bytes(&bytes), Ok((owned(5, "ok"), 42)));
    assert_eq!(
        ProgramOwned::from_bytes(&bytes[8..]),
        Ok(ProgramOwned { program: Pubkey::new([5; 32]), field: "ok".to_string() })
    );
}

#[test]
fn the_error_of_the_first_bad_child_comes_out() {
    let pass = Pass::serialize().unwrap();
    let unknown = vec![77, 0, 0, 0, 0, 0, 0, 0];
    let short = vec![9, 0, 0];
    let bytes = Any::serialize(&[&pass, &unknown, &short]).unwrap();
    assert_eq!(Rule::from_bytes(&bytes), Err(RuleSetError::UnknownRuleType));
    assert_eq!(Any::from_bytes(&bytes[8..]), Err(RuleSetError::UnknownRuleType));
}

#[test]
fn kinds_and_sizes() {
    assert_eq!(pass().constraint_type(), ConstraintType::Pass);
    assert_eq!(owned(0, "x").constraint_type(), ConstraintType::ProgramOwned);
    let any = Any { rules: vec![pass(), pass(), pass()] };
    assert_eq!(any.size(), 3);
    assert_eq!(any.constraint_type(), ConstraintType::Any);
    let all = All { rules: vec![pass()] };
    assert_eq!(all.size(), 1);
    assert_eq!(all.constraint_type(), ConstraintType::All);
    assert_eq!(Pubkey::from_slice(&[1; 31]), None);
    assert_eq!(Pubkey::from_slice(&[1; 32]), Some(Pubkey::new([1; 32])));
    assert!(Pubkey::new([1; 32]).same_as(&Pubkey::new([1; 32])));
    let mut other = [1; 32];
    other[31] = 2;
    assert!(!Pubkey::new([1; 32]).same_as(&Pubkey::new(other)));
}

#[test]
fn additional_signer_is_header_and_address() {
    let bytes = AdditionalSigner::serialize(&Pubkey::new([3; 32])).unwrap();
    let mut expected = vec![1, 0, 0, 0, 32, 0, 0, 0];
    expected.extend_from_slice(&[3; 32]);
    assert_eq!(bytes, expected);
    assert_eq!(Rule::from_bytes(&bytes), Ok((signer(3), 40)));
    assert_eq!(AdditionalSigner::from_bytes(&[3; 31]), Err(RuleSetError::TruncatedBuffer));
    assert_eq!(AdditionalSigner::from_bytes(&[3; 33]), Err(RuleSetError::LengthMismatch));
}

#[test]
fn amount_is_header_amount_operator_and_field() {
    let bytes = Amount::serialize(258, CompareOp::GtEq, &"Amount".to_string()).unwrap();
    let mut expected = vec![3, 0, 0, 0, 22, 0, 0, 0];
    expected.extend_from_slice(&[2, 1, 0, 0, 0, 0, 0, 0]);
    expected.extend_from_slice(&[3, 0, 0, 0, 0, 0, 0, 0]);
    expected.extend_from_slice(b"Amount");
    assert_eq!(bytes, expected);
    assert_eq!(Rule::from_bytes(&bytes), Ok((amount(258, CompareOp::GtEq, "Amount"), 30)));
}

#[test]
fn an_operator_is_one_of_five() {
    let mut bytes = Amount::serialize(1, CompareOp::Gt, &"Amount".to_string()).unwrap();
    assert_eq!(bytes[16], 4);
    bytes[16] = 5;
    assert_eq!(Rule::from_bytes(&bytes), Err(RuleSetError::InvalidOperator));
    bytes[16] = 0;
    bytes[23] = 1;
    assert_eq!(Rule::from_bytes(&bytes), Err(RuleSetError::InvalidOperator));
    for (code, operator) in [
        (0, CompareOp::Lt),
        (1, CompareOp::LtEq),
        (2, CompareOp::Eq),
        (3, CompareOp::GtEq),
        (4, CompareOp::Gt),
    ] {
        assert_eq!(operator.code(), code);
        assert_eq!(CompareOp::from_code(code), Some(operator));
    }
    assert_eq!(CompareOp::from_code(5), None);
    assert_eq!(Amount::from_bytes(&[0; 15]), Err(RuleSetError::TruncatedBuffer));
}

#[test]
fn frequency_is_header_number_limit_and_field() {
    let bytes =
        Frequency::serialize(&Pubkey::new([0xaa; 32]), 5, 2, &"Source".to_string()).unwrap();
    let mut expected = vec![5, 0, 0, 0, 54, 0, 0, 0];
    expected.extend_from_slice(&[0xaa; 32]);
    expected.extend_from_slice(&[5, 0, 0, 0, 0, 0, 0, 0]);
    expected.extend_from_slice(&[2, 0, 0, 0, 0, 0, 0, 0]);
    expected.extend_from_slice(b"Source");
    assert_eq!(bytes, expected);
    assert_eq!(Rule::from_bytes(&bytes), Ok((frequency(5, 2, "Source"), 62)));
    assert_eq!(Frequency::from_bytes(&bytes[8..55]), Err(RuleSetError::TruncatedBuffer));
    let mut bad = bytes[8..].to_vec();
    bad.push(0x80);
    assert_eq!(Frequency::from_bytes(&bad), Err(RuleSetError::InvalidUtf8));
}

#[test]
fn pubkey_match_is_header_address_and_field() {
    let bytes = PubkeyMatch::serialize(&Pubkey::new([8; 32]), &"Destination".to_string()).unwrap();
    let mut expected = vec![15, 0, 0, 0, 43, 0, 0, 0];
    expected.extend_from_slice(&[8; 32]);
    expected.extend_from_slice(b"Destination");
    assert_eq!(bytes, expected);
    assert_eq!(Rule::from_bytes(&bytes), Ok((matched(8, "Destination"), 51)));
    assert_eq!(PubkeyMatch::from_bytes(&[8; 10]), Err(RuleSetError::TruncatedBuffer));
}

#[test]
fn every_kind_has_its_tag() {
    let kinds = [
        (1, ConstraintType::AdditionalSigner),
        (2, ConstraintType::All),
        (3, ConstraintType::Amount),
        (4, ConstraintType::Any),
        (5, ConstraintType::Frequency),
        (8, ConstraintType::Not),
        (9, ConstraintType::Pass),
        (11, ConstraintType::ProgramOwned),
        (15, ConstraintType::PubkeyMatch),
    ];
    for tag in 0..32u32 {
        let expected = kinds.iter().find(|(t, _)| *t == tag).map(|(_, k)| *k);
        assert_eq!(ConstraintType::from_tag(tag), expected);
    }
    for (tag, kind) in kinds {
        assert_eq!(kind.tag(), tag);
    }
    assert_eq!(signer(1).constraint_type(), ConstraintType::AdditionalSigner);
    assert_eq!(frequency(1, 1, "x").constraint_type(), ConstraintType::Frequency);
}

#[test]
fn the_limit_counts_the_levels() {
    let one = pass().serialize().unwrap();
    let two = nested(2).serialize().unwrap();
    assert_eq!(Rule::from_bytes_bounded(&one, 0), Err(RuleSetError::NestingTooDeep));
    assert_eq!(Rule::from_bytes_bounded(&one, 1), Ok((pass(), 8)));
    assert_eq!(Rule::from_bytes_bounded(&two, 1), Err(RuleSetError::NestingTooDeep));
    assert_eq!(Rule::from_bytes_bounded(&two, 2), Ok((nested(2), 16)));
    // The rules under a combinator at the root may have one level less.
    let deepest = nested(MAX_DEPTH).serialize().unwrap();
    assert_eq!(Not::from_bytes(&deepest), Err(RuleSetError::NestingTooDeep));
    assert_eq!(Not::from_bytes(&deepest[8..]).map(|not| *not.rule), Ok(nested(MAX_DEPTH - 1)));
}

#[test]
fn any_of_one_pass_takes_twenty_four_bytes() {
    let pass = Pass::serialize().unwrap();
    let bytes = Any::serialize(&[&pass[..]]).unwrap();
    assert_eq!(bytes.len(), 24);
    assert_eq!(&bytes[0..4], &4u32.to_le_bytes());
    assert_eq!(&bytes[4..8], &[16, 0, 0, 0]);
    assert_eq!(&bytes[8..16], &[1, 0, 0, 0, 0, 0, 0, 0]);
    assert_eq!(&bytes[16..24], &pass[..]);
}

#[test]
fn the_count_is_of_the_rules_and_the_length_of_all_bytes() {
    let pass = Pass::serialize().unwrap();
    let inner = Any::serialize(&[&pass[..]]).unwrap();
    let bytes = Any::serialize(&[&inner[..], &pass[..]]).unwrap();
    assert_eq!(bytes.len(), 48);
    assert_eq!(&bytes[4..8], &[40, 0, 0, 0]);
    assert_eq!(&bytes[8..16], &[2, 0, 0, 0, 0, 0, 0, 0]);
    assert_eq!(&bytes[16..40], &inner[..]);
    assert_eq!(&bytes[40..48], &pass[..]);
}

#[test]
fn the_rules_of_a_parsed_any_serialize_to_the_same_bytes() {
    let children = [
        Pass::serialize().unwrap(),
        owned(4, "Target").serialize().unwrap(),
        nested(3).serialize().unwrap(),
    ];
    let slices: Vec<&[u8]> = children.iter().map(|c| &c[..]).collect();
    let bytes = Any::serialize(&slices).unwrap();
    let any = Any::from_bytes(&bytes[8..]).unwrap();
    assert_eq!(any.rules.len(), 3);
    let again: Vec<Vec<u8>> = any.rules.iter().map(|rule| rule.serialize().unwrap()).collect();
    assert_eq!(again, children);
    let slices: Vec<&[u8]> = again.iter().map(|c| &c[..]).collect();
    assert_eq!(Any::serialize(&slices), Ok(bytes));
}

#[test]
fn pass_serializes_to_the_same_bytes_after_a_round_trip() {
    let first = Pass::serialize().unwrap();
    assert_eq!(first.len(), 8);
    assert_eq!(&first[0..4], &9u32.to_le_bytes());
    assert_eq!(&first[4..8], &[0, 0, 0, 0]);
    assert_eq!(Pass::from_bytes(&first[8..]), Ok(Pass {}));
    assert_eq!(Pass::serialize(), Ok(first));
}
