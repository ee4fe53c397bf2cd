use cloud_cost::access::{authorize, AuthMode};
use cloud_cost::accounts::{
    credential_label, keyed_accounts, profiles_or_default, role_accounts, KeyEntry, RoleEntry,
};
use cloud_cost::text::{decimal, four_digits, two_digits};

fn keys(id: &str, secret: &str) -> KeyEntry {
    KeyEntry { access_key_id: id.to_string(), secret_access_key: secret.to_string() }
}

fn role(account_ref: &str, arn: &str, external_id: Option<&str>) -> RoleEntry {
    RoleEntry {
        account_ref: account_ref.to_string(),
        role_arn: arn.to_string(),
        external_id: external_id.map(|e| e.to_string()),
    }
}

#[test]
fn numbers_are_written_in_decimal() {
    assert_eq!(decimal(0), "0");
    assert_eq!(decimal(7), "7");
    assert_eq!(decimal(10), "10");
    assert_eq!(decimal(109), "109");
    assert_eq!(decimal(9876543210), "9876543210");
    assert_eq!(decimal(usize::MAX), usize::MAX.to_string());
}

#[test]
fn labels_count_from_one() {
    assert_eq!(credential_label(0), "credential-1");
    assert_eq!(credential_label(8), "credential-9");
    assert_eq!(credential_label(9), "credential-10");
    assert_eq!(credential_label(122), "credential-123");
}

#[test]
fn no_profiles_mean_the_default_profile() {
    assert_eq!(profiles_or_default(Vec::new()), vec!["default".to_string()]);
    assert_eq!(
        profiles_or_default(vec!["dev".to_string(), "prod".to_string()]),
        vec!["dev".to_string(), "prod".to_string()]
    );
}

#[test]
fn keys_are_known_under_the_label_of_their_place() {
    let (table, labels) = keyed_accounts(vec![keys("AKIA1", "s1"), keys("AKIA2", "s2")]);
    assert_eq!(labels, vec!["credential-1".to_string(), "credential-2".to_string()]);
    assert_eq!(table.len(), 2);
    let first = table.get(&"credential-1".to_string()).expect("the first keys");
    assert_eq!(first.access_key_id, "AKIA1");
    assert_eq!(first.secret_access_key, "s1");
    assert_eq!(first.session_token, None);
    let second = table.get(&"credential-2".to_string()).expect("the second keys");
    assert_eq!(second.access_key_id, "AKIA2");
    assert_eq!(second.secret_access_key, "s2");
    assert!(table.get(&"credential-3".to_string()).is_none());
}

#[test]
fn no_keys_give_no_accounts() {
    let (table, labels) = keyed_accounts(Vec::new());
    assert_eq!(table.len(), 0);
    assert!(labels.is_empty());
}

#[test]
fn roles_are_known_under_the_reference_of_their_account() {
    let (table, refs) =
        role_accounts(vec![role("prod", "arn:prod", Some("ext")), role("dev", "arn:dev", None)]);
    assert_eq!(refs, vec!["prod".to_string(), "dev".to_string()]);
    assert_eq!(table.len(), 2);
    let prod = table.get(&"prod".to_string()).expect("the role of prod");
    assert_eq!(prod.role_arn, "arn:prod");
    assert_eq!(prod.external_id, Some("ext".to_string()));
    let dev = table.get(&"dev".to_string()).expect("the role of dev");
    assert_eq!(dev.role_arn, "arn:dev");
    assert_eq!(dev.external_id, None);
}

#[test]
fn the_last_role_given_for_an_account_counts() {
    let (table, refs) = role_accounts(vec![
        role("prod", "arn:old", None),
        role("dev", "arn:dev", None),
        role("prod", "arn:new", Some("ext")),
    ]);
    assert_eq!(refs, vec!["prod".to_string(), "dev".to_string(), "prod".to_string()]);
    assert_eq!(table.len(), 2);
    let prod = table.get(&"prod".to_string()).expect("the role of prod");
    assert_eq!(prod.role_arn, "arn:new");
    assert_eq!(prod.external_id, Some("ext".to_string()));
}

#[test]
fn an_open_service_answers_everyone() {
    assert!(authorize(AuthMode::Open, false));
    assert!(authorize(AuthMode::Open, true));
}

#[test]
fn a_closed_service_answers_those_who_name_their_identity() {
    assert!(authorize(AuthMode::Iam, true));
    assert!(!authorize(AuthMode::Iam, false));
}

#[test]
fn numbers_are_filled_up_with_zeros() {
    assert_eq!(two_digits(0), "00");
    assert_eq!(two_digits(7), "07");
    assert_eq!(two_digits(31), "31");
    assert_eq!(two_digits(99), "99");
    assert_eq!(four_digits(0), "0000");
    assert_eq!(four_digits(5), "0005");
    assert_eq!(four_digits(42), "0042");
    assert_eq!(four_digits(999), "0999");
    assert_eq!(four_digits(2024), "2024");
    assert_eq!(four_digits(262143), "262143");
}
