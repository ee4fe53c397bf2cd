use cloud_cost::aws::{
    call_failure, choose_account_name, copy_of, cost_query, require_account_id,
    require_role_credentials, summarize_account, summarize_groups, AssumeRoleConfig, AwsCall,
    AwsCostProvider, CostGroup, CredentialPlan, RoleReply, StaticCredentials,
};
use cloud_cost::date::Date;
use cloud_cost::report::ProviderError;
use cloud_cost::table::NameTable;

fn keys(id: &str) -> StaticCredentials {
    StaticCredentials {
        access_key_id: id.to_string(),
        secret_access_key: format!("secret-of-{}", id),
        session_token: None,
    }
}

fn group(service: Option<&str>, amount: Option<i64>) -> CostGroup {
    CostGroup { service: service.map(|s| s.to_string()), amount }
}

#[test]
fn a_plain_provider_holds_the_region_only() {
    let provider = AwsCostProvider::new("us-east-1");
    assert_eq!(provider.region, "us-east-1");
    assert!(provider.static_credentials.is_none());
    assert!(provider.assume_roles.is_none());
    assert!(provider.base_profile.is_none());
}

#[test]
fn a_provider_with_keys_holds_them() {
    let mut table = NameTable::new();
    table.insert("credential-1".to_string(), keys("AKIA1"));
    let provider = AwsCostProvider::with_static_credentials("eu-west-1", table);
    assert_eq!(provider.region, "eu-west-1");
    assert_eq!(provider.static_credentials.as_ref().map(|t| t.len()), Some(1));
    assert!(provider.assume_roles.is_none());
    assert!(provider.base_profile.is_none());
}

#[test]
fn a_provider_with_roles_holds_them_and_the_base_profile() {
    let mut table = NameTable::new();
    table.insert(
        "prod".to_string(),
        AssumeRoleConfig { role_arn: "arn:aws:iam::1:role/r".to_string(), external_id: None },
    );
    let provider =
        AwsCostProvider::with_assume_roles("us-east-1", Some("base".to_string()), table);
    assert_eq!(provider.region, "us-east-1");
    assert!(provider.static_credentials.is_none());
    assert_eq!(provider.assume_roles.as_ref().map(|t| t.len()), Some(1));
    assert_eq!(provider.base_profile, Some("base".to_string()));
}

#[test]
fn without_keys_or_roles_the_reference_names_a_profile() {
    let provider = AwsCostProvider::new("us-east-1");
    match provider.credential_plan("default") {
        Ok(CredentialPlan::Profile { region, profile }) => {
            assert_eq!(region, "us-east-1");
            assert_eq!(profile, "default");
        }
        other => panic!("not a profile: {:?}", other),
    }
}

#[test]
fn keys_are_found_by_reference() {
    let mut table = NameTable::new();
    table.insert("credential-1".to_string(), keys("AKIA1"));
    table.insert("credential-2".to_string(), keys("AKIA2"));
    let provider = AwsCostProvider::with_static_credentials("us-east-1", table);
    match provider.credential_plan("credential-2") {
        Ok(CredentialPlan::Static { region, credentials }) => {
            assert_eq!(region, "us-east-1");
            assert_eq!(credentials.access_key_id, "AKIA2");
            assert_eq!(credentials.secret_access_key, "secret-of-AKIA2");
            assert_eq!(credentials.session_token, None);
        }
        other => panic!("not keys: {:?}", other),
    }
}

#[test]
fn a_reference_without_keys_is_unknown() {
    let mut table = NameTable::new();
    table.insert("credential-1".to_string(), keys("AKIA1"));
    let provider = AwsCostProvider::with_static_credentials("us-east-1", table);
    assert_eq!(
        provider.credential_plan("credential-9").err(),
        Some(ProviderError::UnknownAccount { account_ref: "credential-9".to_string() })
    );
}

#[test]
fn a_role_is_assumed_in_a_session_named_after_the_reference() {
    let mut table = NameTable::new();
    table.insert(
        "prod".to_string(),
        AssumeRoleConfig {
            role_arn: "arn:aws:iam::1:role/r".to_string(),
            external_id: Some("ext".to_string()),
        },
    );
    let provider =
        AwsCostProvider::with_assume_roles("us-east-1", Some("base".to_string()), table);
    match provider.credential_plan("prod") {
        Ok(CredentialPlan::AssumeRole {
            region,
            base_profile,
            role_arn,
            session_name,
            external_id,
        }) => {
            assert_eq!(region, "us-east-1");
            assert_eq!(base_profile, Some("base".to_string()));
            assert_eq!(role_arn, "arn:aws:iam::1:role/r");
            assert_eq!(session_name, "cloud-cost-manager-prod");
            assert_eq!(external_id, Some("ext".to_string()));
        }
        other => panic!("not a role: {:?}", other),
    }
    assert_eq!(
        provider.credential_plan("dev").err(),
        Some(ProviderError::UnknownAccount { account_ref: "dev".to_string() })
    );
}

#[test]
fn keys_go_before_roles() {
    let mut key_table = NameTable::new();
    key_table.insert("a".to_string(), keys("AKIA1"));
    let mut role_table = NameTable::new();
    role_table.insert(
        "b".to_string(),
        AssumeRoleConfig { role_arn: "arn".to_string(), external_id: None },
    );
    let provider = AwsCostProvider {
        region: "us-east-1".to_string(),
        static_credentials: Some(key_table),
        assume_roles: Some(role_table),
        base_profile: None,
    };
    assert!(matches!(provider.credential_plan("a"), Ok(CredentialPlan::Static { .. })));
    assert_eq!(
        provider.credential_plan("b").err(),
        Some(ProviderError::UnknownAccount { account_ref: "b".to_string() })
    );
}

#[test]
fn copies_are_equal_to_what_they_copy() {
    assert_eq!(copy_of(&Some("x".to_string())), Some("x".to_string()));
    assert_eq!(copy_of(&None), None);
    let source = StaticCredentials {
        access_key_id: "id".to_string(),
        secret_access_key: "secret".to_string(),
        session_token: Some("token".to_string()),
    };
    let copy = source.duplicate();
    assert_eq!(copy.access_key_id, "id");
    assert_eq!(copy.secret_access_key, "secret");
    assert_eq!(copy.session_token, Some("token".to_string()));
}

#[test]
fn an_answer_without_an_account_is_malformed() {
    assert_eq!(require_account_id(Some("123456789012".to_string())), Ok("123456789012".to_string()));
    assert!(matches!(require_account_id(None), Err(ProviderError::MalformedResponse { .. })));
}

#[test]
fn the_account_name_is_the_best_one_known() {
    assert_eq!(
        choose_account_name(Some("Org".to_string()), Some("alias".to_string()), "123"),
        "Org"
    );
    assert_eq!(choose_account_name(None, Some("alias".to_string()), "123"), "alias");
    assert_eq!(choose_account_name(None, None, "123"), "123");
}

#[test]
fn lines_are_added_up_by_service() {
    let groups = vec![
        group(Some("EC2"), Some(1_500_000)),
        group(Some("S3"), Some(250_000)),
        group(Some("EC2"), Some(500_000)),
    ];
    let (total, services) = summarize_groups(&groups).expect("sums in range");
    assert_eq!(total, 2_250_000);
    assert_eq!(services.len(), 2);
    assert_eq!(services.get(&"EC2".to_string()), Some(&2_000_000));
    assert_eq!(services.get(&"S3".to_string()), Some(&250_000));
    assert_eq!(services.name_at(0), "EC2");
    assert_eq!(services.name_at(1), "S3");
}

#[test]
fn lines_without_a_service_count_as_unknown() {
    let groups = vec![group(None, Some(7)), group(Some("Unknown"), Some(3)), group(None, None)];
    let (total, services) = summarize_groups(&groups).expect("sums in range");
    assert_eq!(total, 10);
    assert_eq!(services.len(), 1);
    assert_eq!(services.get(&"Unknown".to_string()), Some(&10));
}

#[test]
fn lines_without_an_amount_count_with_nothing() {
    let groups = vec![group(Some("EC2"), None), group(Some("S3"), Some(4))];
    let (total, services) = summarize_groups(&groups).expect("sums in range");
    assert_eq!(total, 4);
    assert_eq!(services.get(&"EC2".to_string()), Some(&0));
    assert_eq!(services.get(&"S3".to_string()), Some(&4));
}

#[test]
fn no_lines_add_up_to_nothing() {
    let (total, services) = summarize_groups(&Vec::new()).expect("sums in range");
    assert_eq!(total, 0);
    assert_eq!(services.len(), 0);
}

#[test]
fn sums_that_pass_and_return_are_held() {
    let groups = vec![
        group(Some("EC2"), Some(i64::MAX)),
        group(Some("EC2"), Some(1)),
        group(Some("EC2"), Some(-1)),
    ];
    let (total, services) = summarize_groups(&groups).expect("sums in range");
    assert_eq!(total, i64::MAX);
    assert_eq!(services.get(&"EC2".to_string()), Some(&i64::MAX));
}

#[test]
fn a_total_out_of_range_is_malformed() {
    let groups = vec![group(Some("EC2"), Some(i64::MAX)), group(Some("S3"), Some(1))];
    assert!(matches!(
        summarize_groups(&groups),
        Err(ProviderError::MalformedResponse { .. })
    ));
}

#[test]
fn a_service_sum_out_of_range_is_malformed() {
    let groups = vec![
        group(Some("EC2"), Some(i64::MAX)),
        group(Some("EC2"), Some(1)),
        group(Some("S3"), Some(-5)),
    ];
    assert!(matches!(
        summarize_groups(&groups),
        Err(ProviderError::MalformedResponse { .. })
    ));
}

#[test]
fn a_summary_holds_the_account_and_what_its_lines_add_up_to() {
    let groups = vec![
        group(Some("EC2"), Some(1_500_000)),
        group(None, Some(250_000)),
        group(Some("EC2"), Some(-500_000)),
    ];
    let summary =
        summarize_account("prod", "123456789012".to_string(), "Production".to_string(), &groups)
            .expect("a summary");
    assert_eq!(summary.account_ref, "prod");
    assert_eq!(summary.account_id, "123456789012");
    assert_eq!(summary.account_name, "Production");
    assert_eq!(summary.total, 1_250_000);
    assert_eq!(summary.services.len(), 2);
    assert_eq!(summary.services.get(&"EC2".to_string()), Some(&1_000_000));
    assert_eq!(summary.services.get(&"Unknown".to_string()), Some(&250_000));
}

#[test]
fn a_summary_of_no_lines_has_cost_nothing() {
    let summary = summarize_account("prod", "1".to_string(), "1".to_string(), &Vec::new())
        .expect("a summary");
    assert_eq!(summary.total, 0);
    assert_eq!(summary.services.len(), 0);
}

#[test]
fn credits_that_outweigh_the_costs_give_no_summary() {
    let groups = vec![group(Some("EC2"), Some(3_000_000)), group(Some("Refund"), Some(-8_000_000))];
    assert!(matches!(
        summarize_account("prod", "1".to_string(), "Production".to_string(), &groups),
        Err(ProviderError::MalformedResponse { .. })
    ));
    let one = vec![group(Some("Refund"), Some(-5))];
    assert!(matches!(
        summarize_account("prod", "1".to_string(), "Production".to_string(), &one),
        Err(ProviderError::MalformedResponse { .. })
    ));
    let (total, _services) = summarize_groups(&one).expect("sums in range");
    assert_eq!(total, -5);
}

#[test]
fn costs_that_make_up_for_the_credits_give_a_summary() {
    let groups = vec![group(Some("Refund"), Some(-8)), group(Some("EC2"), Some(8))];
    let summary = summarize_account("prod", "1".to_string(), "Production".to_string(), &groups)
        .expect("a summary");
    assert_eq!(summary.total, 0);
    assert_eq!(summary.services.get(&"Refund".to_string()), Some(&-8));
}

#[test]
fn a_summary_fails_where_a_sum_is_out_of_range() {
    let groups = vec![group(Some("EC2"), Some(i64::MAX)), group(Some("S3"), Some(1))];
    assert!(matches!(
        summarize_account("prod", "1".to_string(), "Production".to_string(), &groups),
        Err(ProviderError::MalformedResponse { .. })
    ));
}

#[test]
fn an_assumed_role_gives_keys_with_a_session_token() {
    let reply = RoleReply {
        access_key_id: "ASIA1".to_string(),
        secret_access_key: "secret".to_string(),
        session_token: "token".to_string(),
    };
    let keys = require_role_credentials(Some(reply)).expect("keys");
    assert_eq!(keys.access_key_id, "ASIA1");
    assert_eq!(keys.secret_access_key, "secret");
    assert_eq!(keys.session_token, Some("token".to_string()));
}

#[test]
fn an_answer_without_credentials_is_malformed() {
    assert!(matches!(
        require_role_credentials(None),
        Err(ProviderError::MalformedResponse { .. })
    ));
}

#[test]
fn costs_are_asked_for_by_service_in_the_window() {
    let start = Date::new(2024, 2, 1).expect("a day of the calendar");
    let end_exclusive = Date::new(2024, 2, 16).expect("a day of the calendar");
    let query = cost_query(start, end_exclusive);
    assert_eq!(query.start, "2024-02-01");
    assert_eq!(query.end_exclusive, "2024-02-16");
    assert_eq!(query.metric, "UnblendedCost");
    assert_eq!(query.group_key, "SERVICE");
}

#[test]
fn a_failed_call_is_reported_with_its_name_and_cause() {
    assert_eq!(
        call_failure(AwsCall::AssumeRole, "access denied"),
        ProviderError::Authentication { message: "AssumeRole failed: access denied".to_string() }
    );
    assert_eq!(
        call_failure(AwsCall::GetCallerIdentity, "expired token"),
        ProviderError::Authentication {
            message: "GetCallerIdentity failed: expired token".to_string()
        }
    );
    assert_eq!(
        call_failure(AwsCall::GetCostAndUsage, "throttled"),
        ProviderError::Upstream { message: "GetCostAndUsage failed: throttled".to_string() }
    );
}
