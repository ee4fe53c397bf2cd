//! What a cost provider for AWS accounts decides before and after it asks AWS: whose
//! credentials to use for an account, what to call the account, and what the costs
//! that came back add up to.

use crate::date::Date;
use crate::report::{is_window, ProviderError};
use crate::summary::AccountSummary;
use crate::table::NameTable;
use vstd::prelude::*;
use vstd::string::StringExecFns;

verus! {

/// The text of an optional string.
pub open spec fn text_of(s: Option<String>) -> Option<Seq<char>> {
    match s {
        Some(t) => Some(t@),
        None => None,
    }
}

/// A copy of an optional string.
pub fn copy_of(s: &Option<String>) -> (r: Option<String>)
    ensures
        text_of(r) == text_of(*s),
{
    match s {
        Some(t) => Some(t.clone()),
        None => None,
    }
}

/// Access keys that were given for an account.
#[derive(Debug, Clone)]
pub struct StaticCredentials {
    pub access_key_id: String,
    pub secret_access_key: String,
    pub session_token: Option<String>,
}

impl StaticCredentials {
    /// Whether `other` holds the same keys.
    pub open spec fn same_as(&self, other: StaticCredentials) -> bool {
        &&& self.access_key_id@ == other.access_key_id@
        &&& self.secret_access_key@ == other.secret_access_key@
        &&& text_of(self.session_token) == text_of(other.session_token)
    }

    /// A copy of the keys.
    pub fn duplicate(&self) -> (r: StaticCredentials)
        ensures
            r.same_as(*self),
    {
        StaticCredentials {
            access_key_id: self.access_key_id.clone(),
            secret_access_key: self.secret_access_key.clone(),
            session_token: copy_of(&self.session_token),
        }
    }
}

/// The role to assume for an account.
#[derive(Debug, Clone)]
pub struct AssumeRoleConfig {
    pub role_arn: String,
    pub external_id: Option<String>,
}

/// A cost provider for AWS accounts: the region to ask in and, for each account
/// reference, how its credentials are to be had.
#[derive(Debug, Clone)]
pub struct AwsCostProvider {
    /// The region in which AWS is asked.
    pub region: String,
    /// Access keys by account reference, where the accounts are reached with keys.
    pub static_credentials: Option<NameTable<StaticCredentials>>,
    /// Roles by account reference, where the accounts are reached by assuming a role.
    pub assume_roles: Option<NameTable<AssumeRoleConfig>>,
    /// The profile from which roles are assumed; the default credentials where there
    /// is none.
    pub base_profile: Option<String>,
}

impl AwsCostProvider {
    /// A provider that reaches each account through the profile named like its
    /// reference.
    pub fn new(region: &str) -> (r: Self)
        ensures
            r.region@ == region@,
            r.static_credentials is None,
            r.assume_roles is None,
            r.base_profile is None,
    {
        AwsCostProvider {
            region: region.to_owned(),
            static_credentials: None,
            assume_roles: None,
            base_profile: None,
        }
    }

    /// A provider that reaches each account with the access keys entered under its
    /// reference.
    pub fn with_static_credentials(
        region: &str,
        static_credentials: NameTable<StaticCredentials>,
    ) -> (r: Self)
        ensures
            r.region@ == region@,
            r.static_credentials == Some(static_credentials),
            r.assume_roles is None,
            r.base_profile is None,
    {
        AwsCostProvider {
            region: region.to_owned(),
            static_credentials: Some(static_credentials),
            assume_roles: None,
            base_profile: None,
        }
    }

    /// A provider that reaches each account by assuming the role entered under its
    /// reference, starting from `base_profile`.
    pub fn with_assume_roles(
        region: &str,
        base_profile: Option<String>,
        assume_roles: NameTable<AssumeRoleConfig>,
    ) -> (r: Self)
        ensures
            r.region@ == region@,
            r.static_credentials is None,
            r.assume_roles == Some(assume_roles),
            r.base_profile == base_profile,
    {
        AwsCostProvider {
            region: region.to_owned(),
            static_credentials: None,
            assume_roles: Some(assume_roles),
            base_profile,
        }
    }
}

/// What the name of every role session starts with.
pub open spec fn session_name_prefix() -> Seq<char> {
    "cloud-cost-manager-"@
}

/// Whether `e` says that no account is known under the reference `account_ref`.
pub open spec fn is_unknown_account(e: ProviderError, account_ref: Seq<char>) -> bool {
    match e {
        ProviderError::UnknownAccount { account_ref: named } => named@ == account_ref,
        _ => false,
    }
}

/// How the credentials for one account are to be had.
#[derive(Debug, Clone)]
pub enum CredentialPlan {
    /// With the access keys entered for the account.
    Static { region: String, credentials: StaticCredentials },
    /// By assuming a role in a session of the given name, starting from the base
    /// profile, or from the default credentials where there is none.
    AssumeRole {
        region: String,
        base_profile: Option<String>,
        role_arn: String,
        session_name: String,
        external_id: Option<String>,
    },
    /// From the profile of the given name.
    Profile { region: String, profile: String },
}

impl AwsCostProvider {
    /// Whether `plan` is how this provider reaches the account `account_ref`: with
    /// the keys entered for it, where the provider holds keys; else by the role
    /// entered for it, where the provider holds roles; else through the profile
    /// named like the reference.
    pub open spec fn plans(&self, account_ref: Seq<char>, plan: CredentialPlan) -> bool {
        match plan {
            CredentialPlan::Static { region, credentials } => {
                &&& self.static_credentials is Some
                &&& self.static_credentials->0.has(account_ref)
                &&& region@ == self.region@
                &&& credentials.same_as(self.static_credentials->0.value_of(account_ref))
            },
            CredentialPlan::AssumeRole {
                region,
                base_profile,
                role_arn,
                session_name,
                external_id,
            } => {
                &&& self.static_credentials is None
                &&& self.assume_roles is Some
                &&& self.assume_roles->0.has(account_ref)
                &&& region@ == self.region@
                &&& text_of(base_profile) == text_of(self.base_profile)
                &&& role_arn@ == self.assume_roles->0.value_of(account_ref).role_arn@
                &&& session_name@ == session_name_prefix() + account_ref
                &&& text_of(external_id) == text_of(
                    self.assume_roles->0.value_of(account_ref).external_id,
                )
            },
            CredentialPlan::Profile { region, profile } => {
                &&& self.static_credentials is None
                &&& self.assume_roles is None
                &&& region@ == self.region@
                &&& profile@ == account_ref
            },
        }
    }

    /// Whether the provider has an entry for the account `account_ref`. A provider
    /// that holds neither keys nor roles takes every reference for a profile's name.
    pub open spec fn knows(&self, account_ref: Seq<char>) -> bool {
        match self.static_credentials {
            Some(keys) => keys.has(account_ref),
            None => match self.assume_roles {
                Some(roles) => roles.has(account_ref),
                None => true,
            },
        }
    }

    /// How the credentials for the account `account_ref` are to be had; a failure
    /// that names the reference where the provider has no entry for it.
    pub fn credential_plan(&self, account_ref: &str) -> (r: Result<CredentialPlan, ProviderError>)
        ensures
            match r {
                Ok(plan) => self.knows(account_ref@) && self.plans(account_ref@, plan),
                Err(e) => !self.knows(account_ref@) && is_unknown_account(e, account_ref@),
            },
    {
        let key = account_ref.to_owned();
        if let Some(keys) = &self.static_credentials {
            match keys.get(&key) {
                Some(entry) => Ok(
                    CredentialPlan::Static {
                        region: self.region.clone(),
                        credentials: entry.duplicate(),
                    },
                ),
                None => Err(ProviderError::UnknownAccount { account_ref: key }),
            }
        } else if let Some(roles) = &self.assume_roles {
            match roles.get(&key) {
                Some(role) => {
                    let mut session_name = "cloud-cost-manager-".to_owned();
                    session_name.append(account_ref);
                    Ok(
                        CredentialPlan::AssumeRole {
                            region: self.region.clone(),
                            base_profile: copy_of(&self.base_profile),
                            role_arn: role.role_arn.clone(),
                            session_name,
                            external_id: copy_of(&role.external_id),
                        },
                    )
                },
                None => Err(ProviderError::UnknownAccount { account_ref: key }),
            }
        } else {
            Ok(CredentialPlan::Profile { region: self.region.clone(), profile: key })
        }
    }
}

/// The account's identity out of the answer to the question who is calling; a failure
/// where the answer holds none.
pub fn require_account_id(account: Option<String>) -> (r: Result<String, ProviderError>)
    ensures
        match account {
            Some(id) => r == Ok::<String, ProviderError>(id),
            None => r matches Err(ProviderError::MalformedResponse { .. }),
        },
{
    match account {
        Some(id) => Ok(id),
        None => Err(ProviderError::MalformedResponse { message: "Missing account id".to_owned() }),
    }
}

/// The credentials in the answer to a request to assume a role.
#[derive(Debug, Clone)]
pub struct RoleReply {
    pub access_key_id: String,
    pub secret_access_key: String,
    pub session_token: String,
}

/// The keys to go on with after a role was assumed: those of the answer, with its
/// session token; a failure where the answer holds no credentials.
pub fn require_role_credentials(reply: Option<RoleReply>) -> (r: Result<
    StaticCredentials,
    ProviderError,
>)
    ensures
        match reply {
            Some(given) => r == Ok::<StaticCredentials, ProviderError>(
                (StaticCredentials {
                    access_key_id: given.access_key_id,
                    secret_access_key: given.secret_access_key,
                    session_token: Some(given.session_token),
                }),
            ),
            None => r matches Err(ProviderError::MalformedResponse { .. }),
        },
{
    match reply {
        Some(given) => Ok(
            StaticCredentials {
                access_key_id: given.access_key_id,
                secret_access_key: given.secret_access_key,
                session_token: Some(given.session_token),
            },
        ),
        None => Err(
            ProviderError::MalformedResponse {
                message: "Missing credentials from AssumeRole".to_owned(),
            },
        ),
    }
}

/// The name to show for an account: the one its organization has for it; else the
/// first alias of the account; else its identity.
pub fn choose_account_name(
    organization_name: Option<String>,
    first_alias: Option<String>,
    account_id: &str,
) -> (r: String)
    ensures
        r@ == (match organization_name {
            Some(name) => name@,
            None => match first_alias {
                Some(alias) => alias@,
                None => account_id@,
            },
        }),
{
    match organization_name {
        Some(name) => name,
        None => match first_alias {
            Some(alias) => alias,
            None => account_id.to_owned(),
        },
    }
}

/// What AWS is asked for.
#[derive(Clone, Copy, Debug, PartialEq, Eq, Structural)]
pub enum AwsCall {
    /// To assume a role.
    AssumeRole,
    /// Whose credentials are in use.
    GetCallerIdentity,
    /// What an account has cost.
    GetCostAndUsage,
}

impl AwsCall {
    /// What a failure of the call is reported with, before its cause.
    pub open spec fn failure_text(self) -> Seq<char> {
        match self {
            AwsCall::AssumeRole => "AssumeRole failed: "@,
            AwsCall::GetCallerIdentity => "GetCallerIdentity failed: "@,
            AwsCall::GetCostAndUsage => "GetCostAndUsage failed: "@,
        }
    }
}

/// Whether `e` is the failure of `call` for the reason `cause`: one of authentication
/// where credentials were asked for or looked up, and one of the billing system where
/// costs were asked for; with a message that names the call and the cause.
pub open spec fn is_call_failure(e: ProviderError, call: AwsCall, cause: Seq<char>) -> bool {
    match e {
        ProviderError::Authentication { message } => call != AwsCall::GetCostAndUsage && message@
            == call.failure_text() + cause,
        ProviderError::Upstream { message } => call == AwsCall::GetCostAndUsage && message@
            == call.failure_text() + cause,
        _ => false,
    }
}

/// The failure of `call` for the reason `cause`.
pub fn call_failure(call: AwsCall, cause: &str) -> (r: ProviderError)
    ensures
        is_call_failure(r, call, cause@),
{
    let mut message = match call {
        AwsCall::AssumeRole => "AssumeRole failed: ".to_owned(),
        AwsCall::GetCallerIdentity => "GetCallerIdentity failed: ".to_owned(),
        AwsCall::GetCostAndUsage => "GetCostAndUsage failed: ".to_owned(),
    };
    message.append(cause);
    match call {
        AwsCall::GetCostAndUsage => ProviderError::Upstream { message },
        _ => ProviderError::Authentication { message },
    }
}

/// What is asked of the billing system for one window: the costs of each month in
/// it, of the named metric, one line for each value of the named dimension.
#[derive(Debug, Clone)]
pub struct CostQuery {
    /// The first day of the window, as text.
    pub start: String,
    /// The day after the last day of the window, as text.
    pub end_exclusive: String,
    /// The metric in which costs are asked for and read.
    pub metric: String,
    /// The dimension by which costs are broken down.
    pub group_key: String,
}

/// The question for the costs in a window: unblended costs by service.
pub fn cost_query(start: Date, end_exclusive: Date) -> (r: CostQuery)
    requires
        is_window(start, end_exclusive),
    ensures
        r.start@ == start.iso_text(),
        r.end_exclusive@ == end_exclusive.iso_text(),
        r.metric@ == "UnblendedCost"@,
        r.group_key@ == "SERVICE"@,
{
    CostQuery {
        start: start.to_iso_text(),
        end_exclusive: end_exclusive.to_iso_text(),
        metric: "UnblendedCost".to_owned(),
        group_key: "SERVICE".to_owned(),
    }
}

/// The name under which costs without a service count.
pub open spec fn unlabeled() -> Seq<char> {
    "Unknown"@
}

/// One line of a cost breakdown as it came from AWS: the service, where the line names
/// one, and the amount, where the line holds one that can be read.
#[derive(Debug, Clone)]
pub struct CostGroup {
    pub service: Option<String>,
    pub amount: Option<i64>,
}

impl CostGroup {
    /// The service that the line counts for: `unlabeled()` where it names none.
    pub open spec fn name(&self) -> Seq<char> {
        match self.service {
            Some(s) => s@,
            None => unlabeled(),
        }
    }

    /// The amount that the line counts with: nothing where it holds none.
    pub open spec fn value(&self) -> int {
        match self.amount {
            Some(a) => a as int,
            None => 0,
        }
    }
}

/// The sum of the lines' amounts.
pub open spec fn groups_total(groups: Seq<CostGroup>) -> int
    decreases groups.len(),
{
    if groups.len() == 0 {
        0
    } else {
        groups_total(groups.drop_last()) + groups.last().value()
    }
}

/// Whether some line counts for the service `name`.
pub open spec fn groups_have(groups: Seq<CostGroup>, name: Seq<char>) -> bool
    decreases groups.len(),
{
    if groups.len() == 0 {
        false
    } else {
        groups_have(groups.drop_last(), name) || groups.last().name() == name
    }
}

/// The sum of the amounts of the lines that count for the service `name`.
pub open spec fn groups_amount(groups: Seq<CostGroup>, name: Seq<char>) -> int
    decreases groups.len(),
{
    if groups.len() == 0 {
        0
    } else {
        groups_amount(groups.drop_last(), name) + (if groups.last().name() == name {
            groups.last().value()
        } else {
            0
        })
    }
}

/// The services that the lines count for, each once, in the order in which they first
/// occur.
pub open spec fn groups_names(groups: Seq<CostGroup>) -> Seq<Seq<char>>
    decreases groups.len(),
{
    if groups.len() == 0 {
        Seq::empty()
    } else {
        let before = groups_names(groups.drop_last());
        if before.contains(groups.last().name()) {
            before
        } else {
            before.push(groups.last().name())
        }
    }
}

/// Whether `amount` can be held as an amount.
pub open spec fn is_amount(amount: int) -> bool {
    i64::MIN <= amount <= i64::MAX
}

/// Whether the lines' total and every service's sum can be held as amounts.
pub open spec fn groups_fit(groups: Seq<CostGroup>) -> bool {
    &&& is_amount(groups_total(groups))
    &&& forall|name: Seq<char>|
        groups_have(groups, name) ==> is_amount(#[trigger] groups_amount(groups, name))
}

/// Sums of lines are at most as far from zero as the lines are many, times the largest
/// amount.
pub proof fn lemma_groups_bound(groups: Seq<CostGroup>, name: Seq<char>)
    ensures
        -groups.len() * 0x8000_0000_0000_0000 <= groups_total(groups) <= groups.len()
            * 0x8000_0000_0000_0000,
        -groups.len() * 0x8000_0000_0000_0000 <= groups_amount(groups, name) <= groups.len()
            * 0x8000_0000_0000_0000,
    decreases groups.len(),
{
    if groups.len() > 0 {
        lemma_groups_bound(groups.drop_last(), name);
    }
}

/// The sum of each service's lines, in 128 bits.
fn sum_groups(groups: &Vec<CostGroup>) -> (r: (i128, NameTable<i128>))
    ensures
        r.0 == groups_total(groups@),
        r.1.wf(),
        r.1.names() == groups_names(groups@),
        forall|name: Seq<char>| #[trigger] r.1.has(name) <==> groups_have(groups@, name),
        forall|name: Seq<char>|
            r.1.has(name) ==> #[trigger] r.1.value_of(name) == groups_amount(groups@, name),
{
    let n = groups.len();
    let mut total: i128 = 0;
    let mut sums: NameTable<i128> = NameTable::new();
    let mut i: usize = 0;
    while i < n
        invariant
            n == groups@.len(),
            i <= n,
            total == groups_total(groups@.take(i as int)),
            sums.wf(),
            sums.names() == groups_names(groups@.take(i as int)),
            forall|name: Seq<char>| #[trigger]
                sums.has(name) <==> groups_have(groups@.take(i as int), name),
            forall|name: Seq<char>|
                sums.has(name) ==> #[trigger] sums.value_of(name) == groups_amount(
                    groups@.take(i as int),
                    name,
                ),
        decreases n - i,
    {
        let group = &groups[i];
        let name = match &group.service {
            Some(s) => s.clone(),
            None => "Unknown".to_owned(),
        };
        let amount: i64 = match group.amount {
            Some(a) => a,
            None => 0,
        };
        let current: i128 = match sums.get(&name) {
            Some(v) => *v,
            None => 0,
        };
        let ghost done = groups@.take(i as int);
        let ghost before = sums;
        proof {
            lemma_groups_bound(done, name@);
            assert(groups@.take(i + 1).drop_last() =~= done);
            assert(groups@.take(i + 1).last() == *group);
            assert(name@ == group.name());
            assert(amount == group.value());
            if !before.has(name@) {
                lemma_groups_absent(done, name@);
            }
        }
        total = total + amount as i128;
        sums.insert(name, current + amount as i128);
        proof {
            assert forall|other: Seq<char>| #[trigger]
                sums.has(other) <==> groups_have(groups@.take(i + 1), other) by {
                assert(sums@.dom().contains(other) == sums.has(other));
                assert(before@.dom().contains(other) == before.has(other));
            }
            assert forall|other: Seq<char>| sums.has(other) implies #[trigger] sums.value_of(other)
                == groups_amount(groups@.take(i + 1), other) by {
                assert(sums@.dom().contains(other));
                assert(sums@[other] == sums.value_of(other));
                if other != name@ {
                    assert(before@.dom().contains(other));
                    assert(before@[other] == before.value_of(other));
                }
            }
        }
        i += 1;
    }
    assert(groups@.take(n as int) =~= groups@);
    (total, sums)
}

/// Lines of which none counts for a service add up to nothing for it.
pub proof fn lemma_groups_absent(groups: Seq<CostGroup>, name: Seq<char>)
    requires
        !groups_have(groups, name),
    ensures
        groups_amount(groups, name) == 0,
    decreases groups.len(),
{
    if groups.len() > 0 {
        lemma_groups_absent(groups.drop_last(), name);
    }
}

/// Whether `services` lists the services that the lines count for, each once and in
/// the order in which they first occur, each under the sum of its lines.
pub open spec fn is_breakdown_of(services: NameTable<i64>, groups: Seq<CostGroup>) -> bool {
    &&& services.wf()
    &&& services.names() == groups_names(groups)
    &&& forall|name: Seq<char>| #[trigger] services.has(name) <==> groups_have(groups, name)
    &&& forall|name: Seq<char>|
        services.has(name) ==> #[trigger] services.value_of(name) == groups_amount(groups, name)
}

/// What a cost breakdown adds up to: the total of its lines, and for each service the
/// sum of the lines that count for it, a line without a service counting for
/// `unlabeled()` and a line without an amount counting with nothing. A failure where
/// the total or a service's sum cannot be held as an amount.
pub fn summarize_groups(groups: &Vec<CostGroup>) -> (r: Result<
    (i64, NameTable<i64>),
    ProviderError,
>)
    ensures
        match r {
            Ok((total, services)) => groups_fit(groups@) && total == groups_total(groups@)
                && is_breakdown_of(services, groups@),
            Err(e) => !groups_fit(groups@) && e is MalformedResponse,
        },
{
    let (total, sums) = sum_groups(groups);
    if total < -0x8000_0000_0000_0000 || total > 0x7fff_ffff_ffff_ffff {
        return Err(
            ProviderError::MalformedResponse { message: "Total cost out of range".to_owned() },
        );
    }
    let n = sums.len();
    let mut services: NameTable<i64> = NameTable::new();
    let mut i: usize = 0;
    while i < n
        invariant
            sums.wf(),
            n == sums.names().len(),
            i <= n,
            services.wf(),
            services.names() == sums.names().take(i as int),
            services.values().len() == i,
            forall|k: int| 0 <= k < i ==> #[trigger] services.values()[k] == sums.values()[k],
            is_amount(groups_total(groups@)),
            total == groups_total(groups@),
            sums.names() == groups_names(groups@),
            forall|name: Seq<char>| #[trigger] sums.has(name) <==> groups_have(groups@, name),
            forall|name: Seq<char>|
                sums.has(name) ==> #[trigger] sums.value_of(name) == groups_amount(groups@, name),
        decreases n - i,
    {
        let sum = *sums.value_at(i);
        proof {
            sums.lemma_value_at(i as int);
        }
        if sum < -0x8000_0000_0000_0000 || sum > 0x7fff_ffff_ffff_ffff {
            proof {
                let name = sums.names()[i as int];
                assert(sums.has(name));
                assert(!is_amount(groups_amount(groups@, name)));
            }
            return Err(
                ProviderError::MalformedResponse {
                    message: "Service cost out of range".to_owned(),
                },
            );
        }
        let name = sums.name_at(i).clone();
        proof {
            if services.has(name@) {
                let k = services.names().index_of(name@);
                assert(sums.names()[k] == name@);
            }
        }
        services.insert(name, sum as i64);
        assert(services.names() =~= sums.names().take(i + 1));
        i += 1;
    }
    proof {
        assert(services.names() =~= sums.names());
        assert forall|name: Seq<char>| #[trigger]
            services.has(name) <==> groups_have(groups@, name) by {
            assert(services.has(name) == sums.has(name));
        }
        assert forall|name: Seq<char>| services.has(name) implies #[trigger] services.value_of(name)
            == groups_amount(groups@, name) by {
            let k = services.names().index_of(name);
            assert(services.names()[k] == name);
            sums.lemma_value_at(k);
            services.lemma_value_at(k);
        }
        assert forall|name: Seq<char>| groups_have(groups@, name) implies is_amount(
            #[trigger] groups_amount(groups@, name),
        ) by {
            assert(sums.has(name));
            assert(services.has(name));
            assert(services.value_of(name) == groups_amount(groups@, name));
        }
    }
    assert(is_breakdown_of(services, groups@));
    Ok((total as i64, services))
}

/// The summary of an account out of its reference, its identity, its name and the
/// cost breakdown that came back for it. A summary's total is never negative: there is
/// a failure, and no summary, where the lines add up to less than nothing, as where a
/// sum cannot be held as an amount.
pub fn summarize_account(
    account_ref: &str,
    account_id: String,
    account_name: String,
    groups: &Vec<CostGroup>,
) -> (r: Result<AccountSummary, ProviderError>)
    ensures
        match r {
            Ok(summary) => {
                &&& groups_fit(groups@)
                &&& groups_total(groups@) >= 0
                &&& summary.account_ref@ == account_ref@
                &&& summary.account_id == account_id
                &&& summary.account_name == account_name
                &&& summary.total == groups_total(groups@)
                &&& is_breakdown_of(summary.services, groups@)
            },
            Err(e) => (!groups_fit(groups@) || groups_total(groups@) < 0)
                && e is MalformedResponse,
        },
{
    match summarize_groups(groups) {
        Ok((total, services)) => {
            if total < 0 {
                Err(
                    ProviderError::MalformedResponse {
                        message: "Total cost is negative".to_owned(),
                    },
                )
            } else {
                Ok(
                    AccountSummary {
                        account_ref: account_ref.to_owned(),
                        account_id,
                        account_name,
                        total: total as u64,
                        services,
                    },
                )
            }
        },
        Err(e) => Err(e),
    }
}

} // verus!
