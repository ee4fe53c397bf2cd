//! The comparative report and how it is put together.

use crate::date::{month_to_date, previous_month_same_point, Date, MIN_YEAR};
use crate::ranking::{rank_services, ranking_view, table_entries, top_ranked, TOP_SERVICES};
use crate::summary::{
    lemma_sum_of_amounts_bound, lemma_sum_of_totals_bound, merge_services, merged_amount,
    merged_has, merged_names, sum_amounts, sum_of_amounts, sum_of_totals, sum_totals,
    AccountSummary, MAX_ACCOUNTS,
};
use crate::table::NameTable;
use vstd::prelude::*;

verus! {

/// Percentages are whole numbers of this fraction of one percent.
pub const PERCENT_SCALE: i128 = 1_000_000;

/// The quotient of `a` by `b`, rounded toward zero.
pub open spec fn truncated_quotient(a: int, b: int) -> int
    recommends
        b != 0,
{
    if a >= 0 {
        if b > 0 {
            a / b
        } else {
            -(a / (-b))
        }
    } else {
        if b > 0 {
            -((-a) / b)
        } else {
            (-a) / (-b)
        }
    }
}

/// The change `delta` as a percentage of `prev_total`, in units of one
/// `PERCENT_SCALE`th of a percent and rounded toward zero; zero where `prev_total`
/// is zero.
pub open spec fn percent_change(delta: int, prev_total: int) -> int {
    if prev_total == 0 {
        0
    } else {
        truncated_quotient(delta * 100 * PERCENT_SCALE, prev_total)
    }
}

/// The change `delta` as a percentage of `prev_total`.
pub fn delta_percent(delta: i128, prev_total: i128) -> (r: i128)
    requires
        i128::MIN <= delta * 100 * PERCENT_SCALE <= i128::MAX,
    ensures
        r == percent_change(delta as int, prev_total as int),
{
    if prev_total == 0 {
        return 0;
    }
    let scaled: i128 = delta * 100 * PERCENT_SCALE;
    let dividend: u128 = magnitude(scaled);
    let divisor: u128 = magnitude(prev_total);
    let quotient: u128 = dividend / divisor;
    assert(quotient <= dividend) by (nonlinear_arith)
        requires
            quotient == dividend / divisor,
            divisor >= 1,
    ;
    if (scaled >= 0) == (prev_total > 0) {
        quotient as i128
    } else {
        -(quotient as i128)
    }
}

/// How far `value` is from zero.
fn magnitude(value: i128) -> (r: u128)
    ensures
        r == (if value >= 0 { value as int } else { -(value as int) }),
{
    if value >= 0 {
        value as u128
    } else if value == i128::MIN {
        0x8000_0000_0000_0000_0000_0000_0000_0000
    } else {
        (-value) as u128
    }
}

/// Why a cost provider could not answer for an account.
#[derive(Debug, Clone, PartialEq, Eq)]
pub enum ProviderError {
    /// The provider knows no account under this reference.
    UnknownAccount { account_ref: String },
    /// The provider could not authenticate, or was not allowed to ask.
    Authentication { message: String },
    /// The billing system answered with a failure.
    Upstream { message: String },
    /// The billing system's answer lacked what was asked for.
    MalformedResponse { message: String },
}

/// Why no report came about.
#[derive(Debug, Clone, PartialEq, Eq)]
pub enum AggregationError {
    /// A cost provider failed for one of the accounts; the report is given up as a
    /// whole.
    Provider(ProviderError),
}

/// Whether the days from `start` up to, but not including, `end_exclusive` make a
/// window: both days exist, and the first is the earlier one.
pub open spec fn is_window(start: Date, end_exclusive: Date) -> bool {
    &&& start.is_valid()
    &&& end_exclusive.is_valid()
    &&& start.day_number() < end_exclusive.day_number()
}

/// What knows the cost of an account in a window of days.
pub trait CostProvider {
    /// Whether `answer` is one that the provider may give when it is asked for the
    /// summary of the account `account_ref` in the window. A provider whose answers
    /// depend on nothing but the question admits one answer to each; a provider that
    /// asks a billing system admits whatever may come back, and so does every
    /// provider that says nothing else.
    open spec fn may_summarize(
        &self,
        account_ref: Seq<char>,
        start: Date,
        end_exclusive: Date,
        answer: Result<AccountSummary, ProviderError>,
    ) -> bool {
        true
    }

    /// Whether `answer` is one that the provider may give when it is asked for the
    /// total cost of the account `account_ref` in the window.
    open spec fn may_total(
        &self,
        account_ref: Seq<char>,
        start: Date,
        end_exclusive: Date,
        answer: Result<i64, ProviderError>,
    ) -> bool {
        true
    }

    /// The account's identity and name, its total cost in the window and the cost of
    /// each service. The total of a summary cannot be negative: an implementation has
    /// no summary to give where costs add up to less than nothing.
    fn fetch_account_summary(&self, account_ref: &str, start: Date, end_exclusive: Date) -> (r:
        Result<AccountSummary, ProviderError>)
        requires
            is_window(start, end_exclusive),
        ensures
            self.may_summarize(account_ref@, start, end_exclusive, r),
    ;

    /// The account's total cost in the window, without the breakdown.
    fn total_cost(&self, account_ref: &str, start: Date, end_exclusive: Date) -> (r: Result<
        i64,
        ProviderError,
    >)
        requires
            is_window(start, end_exclusive),
        ensures
            self.may_total(account_ref@, start, end_exclusive, r),
    ;
}

/// Whether `summaries` holds, for each of `accounts` in their order, a summary that
/// the provider may give for it in the window.
pub open spec fn are_summaries_of<P: CostProvider>(
    provider: P,
    accounts: Seq<String>,
    start: Date,
    end_exclusive: Date,
    summaries: Seq<AccountSummary>,
) -> bool {
    &&& summaries.len() == accounts.len()
    &&& forall|i: int|
        0 <= i < accounts.len() ==> provider.may_summarize(
            accounts[i]@,
            start,
            end_exclusive,
            Ok(#[trigger] summaries[i]),
        )
}

/// Whether `totals` holds, for each of `accounts` in their order, a total that the
/// provider may give for it in the window.
pub open spec fn are_totals_of<P: CostProvider>(
    provider: P,
    accounts: Seq<String>,
    start: Date,
    end_exclusive: Date,
    totals: Seq<i64>,
) -> bool {
    &&& totals.len() == accounts.len()
    &&& forall|i: int|
        0 <= i < accounts.len() ==> provider.may_total(
            accounts[i]@,
            start,
            end_exclusive,
            Ok(#[trigger] totals[i]),
        )
}

/// Whether `e` is a failure that the provider may give for one of `accounts`, asked
/// for its summary in the window.
pub open spec fn is_summary_failure_of<P: CostProvider>(
    provider: P,
    accounts: Seq<String>,
    start: Date,
    end_exclusive: Date,
    e: ProviderError,
) -> bool {
    exists|i: int|
        0 <= i < accounts.len() && provider.may_summarize(
            (#[trigger] accounts[i])@,
            start,
            end_exclusive,
            Err(e),
        )
}

/// Whether `e` is a failure that the provider may give for one of `accounts`, asked
/// for its total in the window.
pub open spec fn is_total_failure_of<P: CostProvider>(
    provider: P,
    accounts: Seq<String>,
    start: Date,
    end_exclusive: Date,
    e: ProviderError,
) -> bool {
    exists|i: int|
        0 <= i < accounts.len() && provider.may_total(
            (#[trigger] accounts[i])@,
            start,
            end_exclusive,
            Err(e),
        )
}

/// The costs of several accounts in the month up to a day, beside their costs in the
/// window of the month before that is as many days long.
#[derive(Debug, Clone)]
pub struct Report {
    /// The first day of the current window.
    pub month_start: Date,
    /// The day after the last day of the current window.
    pub month_end_exclusive: Date,
    /// The first day of the previous window.
    pub prev_start: Date,
    /// The day after the last day of the previous window.
    pub prev_end_exclusive: Date,
    /// Each account's costs in the current window, in the order of the accounts.
    pub summaries: Vec<AccountSummary>,
    /// The cost of all accounts in the current window.
    pub total_all: i128,
    /// The cost of each service over all accounts in the current window.
    pub services_total: NameTable<i128>,
    /// The services that have cost the most, highest first.
    pub top_services: Vec<(String, i128)>,
    /// The cost of all accounts in the previous window.
    pub prev_total: i128,
    /// By how much the current window's cost is above the previous window's.
    pub delta: i128,
    /// That change as a percentage of the previous window's cost, in units of one
    /// `PERCENT_SCALE`th of a percent; zero where the previous window has cost nothing.
    pub delta_pct: i128,
}

impl Report {
    /// Whether the report's windows are those of the day `today`.
    pub open spec fn has_windows_of(&self, today: Date) -> bool {
        &&& self.month_start == today.first_of_month()
        &&& self.month_end_exclusive == today.next_day()
        &&& self.prev_start == today.first_of_previous_month()
        &&& self.prev_end_exclusive == self.prev_start.plus_days(today.day as nat)
    }

    /// Whether the report's figures are those of its summaries, with the accounts'
    /// totals in the previous window being `prev_totals`.
    pub open spec fn has_figures_of(&self, prev_totals: Seq<i64>) -> bool {
        &&& self.total_all == sum_of_totals(self.summaries@)
        &&& self.services_total.wf()
        &&& self.services_total.names() == merged_names(self.summaries@)
        &&& forall|name: Seq<char>| #[trigger]
            self.services_total.has(name) <==> merged_has(self.summaries@, name)
        &&& forall|name: Seq<char>|
            self.services_total.has(name) ==> #[trigger] self.services_total.value_of(name)
                == merged_amount(self.summaries@, name)
        &&& ranking_view(self.top_services@) == top_ranked(
            table_entries(self.services_total),
            TOP_SERVICES as int,
        )
        &&& self.prev_total == sum_of_amounts(prev_totals)
        &&& self.delta == self.total_all - self.prev_total
        &&& self.delta_pct == percent_change(self.delta as int, self.prev_total as int)
    }

    /// Whether this is the report for the day `today` on the accounts whose costs in
    /// the current window are `summaries`, in that order, and whose totals in the
    /// previous window are `prev_totals`.
    pub open spec fn describes(
        &self,
        today: Date,
        summaries: Seq<AccountSummary>,
        prev_totals: Seq<i64>,
    ) -> bool {
        &&& self.has_windows_of(today)
        &&& self.summaries@ == summaries
        &&& self.has_figures_of(prev_totals)
    }
}

/// Whether a report can be made for the day `today`: the day exists, it is not the
/// last day that can be represented, and it does not lie in the first month that can.
pub open spec fn can_report_on(today: Date) -> bool {
    &&& today.is_valid()
    &&& today != Date::latest()
    &&& (today.year > MIN_YEAR || today.month > 1)
}

/// The report for the day `today` on the accounts whose costs in the current window
/// are `summaries` and whose totals in the previous window are `prev_totals`.
pub fn assemble_report(today: Date, summaries: Vec<AccountSummary>, prev_totals: Vec<i64>) -> (r:
    Report)
    requires
        can_report_on(today),
        summaries@.len() <= MAX_ACCOUNTS,
        prev_totals@.len() <= MAX_ACCOUNTS,
    ensures
        r.describes(today, summaries@, prev_totals@),
        r.total_all >= 0,
{
    let (month_start, month_end_exclusive) = month_to_date(today);
    let (prev_start, prev_end_exclusive) = previous_month_same_point(today);
    let total_all = sum_totals(&summaries);
    let services_total = merge_services(&summaries);
    let top_services = rank_services(&services_total);
    let prev_total = sum_amounts(&prev_totals);
    proof {
        lemma_sum_of_totals_bound(summaries@);
        lemma_sum_of_amounts_bound(prev_totals@);
    }
    let delta = total_all - prev_total;
    let delta_pct = delta_percent(delta, prev_total);
    Report {
        month_start,
        month_end_exclusive,
        prev_start,
        prev_end_exclusive,
        summaries,
        total_all,
        services_total,
        top_services,
        prev_total,
        delta,
        delta_pct,
    }
}

/// Whether `report` is a report for the day `today` on `accounts` from answers of the
/// provider: it has the windows of that day; its summaries are, in the order of the
/// accounts, summaries that the provider may give for them in the current window;
/// and its figures are those of its summaries and of totals that the provider may
/// give for the accounts in the previous window.
pub open spec fn is_report_of<P: CostProvider>(
    report: Report,
    provider: P,
    accounts: Seq<String>,
    today: Date,
) -> bool {
    &&& report.has_windows_of(today)
    &&& are_summaries_of(
        provider,
        accounts,
        report.month_start,
        report.month_end_exclusive,
        report.summaries@,
    )
    &&& exists|prev_totals: Seq<i64>|
        are_totals_of(
            provider,
            accounts,
            report.prev_start,
            report.prev_end_exclusive,
            prev_totals,
        ) && #[trigger] report.has_figures_of(prev_totals)
}

/// What the provider gives as each account's total cost in a window, in the order of
/// the accounts, in which they are asked; the first failure ends the asking and is the
/// outcome.
pub fn fetch_totals<P: CostProvider>(
    provider: &P,
    accounts: &[String],
    start: Date,
    end_exclusive: Date,
) -> (r: Result<Vec<i64>, AggregationError>)
    requires
        is_window(start, end_exclusive),
    ensures
        match r {
            Ok(totals) => are_totals_of(*provider, accounts@, start, end_exclusive, totals@),
            Err(AggregationError::Provider(e)) => is_total_failure_of(
                *provider,
                accounts@,
                start,
                end_exclusive,
                e,
            ),
        },
{
    let n = accounts.len();
    let mut totals: Vec<i64> = Vec::new();
    let mut i: usize = 0;
    while i < n
        invariant
            n == accounts@.len(),
            i <= n,
            is_window(start, end_exclusive),
            are_totals_of(*provider, accounts@.take(i as int), start, end_exclusive, totals@),
        decreases n - i,
    {
        match provider.total_cost(accounts[i].as_str(), start, end_exclusive) {
            Ok(total) => {
                totals.push(total);
            },
            Err(e) => {
                return Err(AggregationError::Provider(e));
            },
        }
        i += 1;
    }
    assert(accounts@.take(n as int) =~= accounts@);
    Ok(totals)
}

/// What the provider gives as each account's summary in a window, in the order of the
/// accounts, in which they are asked; the first failure ends the asking and is the
/// outcome.
pub fn fetch_summaries<P: CostProvider>(
    provider: &P,
    accounts: &[String],
    start: Date,
    end_exclusive: Date,
) -> (r: Result<Vec<AccountSummary>, AggregationError>)
    requires
        is_window(start, end_exclusive),
    ensures
        match r {
            Ok(summaries) => are_summaries_of(
                *provider,
                accounts@,
                start,
                end_exclusive,
                summaries@,
            ),
            Err(AggregationError::Provider(e)) => is_summary_failure_of(
                *provider,
                accounts@,
                start,
                end_exclusive,
                e,
            ),
        },
{
    let n = accounts.len();
    let mut summaries: Vec<AccountSummary> = Vec::new();
    let mut i: usize = 0;
    while i < n
        invariant
            n == accounts@.len(),
            i <= n,
            is_window(start, end_exclusive),
            are_summaries_of(
                *provider,
                accounts@.take(i as int),
                start,
                end_exclusive,
                summaries@,
            ),
        decreases n - i,
    {
        match provider.fetch_account_summary(accounts[i].as_str(), start, end_exclusive) {
            Ok(summary) => {
                summaries.push(summary);
            },
            Err(e) => {
                return Err(AggregationError::Provider(e));
            },
        }
        i += 1;
    }
    assert(accounts@.take(n as int) =~= accounts@);
    Ok(summaries)
}

/// The sum of what the provider gives as each account's total cost in a window. The
/// accounts are asked in their order; the first failure ends the asking and is the
/// outcome.
pub fn total_for_all_accounts<P: CostProvider>(
    provider: &P,
    accounts: &[String],
    start: Date,
    end_exclusive: Date,
) -> (r: Result<i128, AggregationError>)
    requires
        is_window(start, end_exclusive),
        accounts@.len() <= MAX_ACCOUNTS,
    ensures
        match r {
            Ok(total) => exists|totals: Seq<i64>|
                are_totals_of(*provider, accounts@, start, end_exclusive, totals) && total
                    == #[trigger] sum_of_amounts(totals),
            Err(AggregationError::Provider(e)) => is_total_failure_of(
                *provider,
                accounts@,
                start,
                end_exclusive,
                e,
            ),
        },
        accounts@.len() == 0 ==> r is Ok && r->Ok_0 == 0,
{
    match fetch_totals(provider, accounts, start, end_exclusive) {
        Ok(totals) => {
            let total = sum_amounts(&totals);
            Ok(total)
        },
        Err(e) => Err(e),
    }
}

/// The report for the day `today` on `accounts`. The provider is asked for each
/// account's summary in the current window, and then for each account's total in the
/// previous window, each time in the order of the accounts. The first failure ends the
/// asking and is the outcome: there is no report on a part of the accounts.
pub fn generate_report<P: CostProvider>(provider: &P, accounts: &[String], today: Date) -> (r:
    Result<Report, AggregationError>)
    requires
        can_report_on(today),
        accounts@.len() <= MAX_ACCOUNTS,
    ensures
        match r {
            Ok(report) => is_report_of(report, *provider, accounts@, today),
            Err(AggregationError::Provider(e)) => is_summary_failure_of(
                *provider,
                accounts@,
                today.first_of_month(),
                today.next_day(),
                e,
            ) || is_total_failure_of(
                *provider,
                accounts@,
                today.first_of_previous_month(),
                today.first_of_previous_month().plus_days(today.day as nat),
                e,
            ),
        },
        accounts@.len() == 0 ==> r is Ok && r->Ok_0.describes(
            today,
            Seq::<AccountSummary>::empty(),
            Seq::<i64>::empty(),
        ),
{
    let (month_start, month_end_exclusive) = month_to_date(today);
    let (prev_start, prev_end_exclusive) = previous_month_same_point(today);
    let summaries = match fetch_summaries(provider, accounts, month_start, month_end_exclusive) {
        Ok(summaries) => summaries,
        Err(e) => {
            return Err(e);
        },
    };
    match fetch_totals(provider, accounts, prev_start, prev_end_exclusive) {
        Ok(prev_totals) => {
            let ghost given = prev_totals@;
            let ghost gathered = summaries@;
            let report = assemble_report(today, summaries, prev_totals);
            proof {
                assert(report.describes(today, gathered, given));
                assert(report.has_figures_of(given));
                assert(is_report_of(report, *provider, accounts@, today));
                if accounts@.len() == 0 {
                    assert(gathered =~= Seq::<AccountSummary>::empty());
                    assert(given =~= Seq::<i64>::empty());
                }
            }
            Ok(report)
        },
        Err(e) => Err(e),
    }
}

/// A report on no accounts holds nothing but zeros.
pub proof fn lemma_report_on_nothing(report: Report, today: Date)
    requires
        report.describes(today, Seq::<AccountSummary>::empty(), Seq::<i64>::empty()),
    ensures
        report.summaries@.len() == 0,
        report.total_all == 0,
        report.services_total.names().len() == 0,
        report.top_services@.len() == 0,
        report.prev_total == 0,
        report.delta == 0,
        report.delta_pct == 0,
{
    let names = report.services_total.names();
    if names.len() > 0 {
        assert(names.contains(names[0]));
        assert(report.services_total.has(names[0]));
    }
    let entries = table_entries(report.services_total);
    assert(entries.len() == 0);
    assert(ranking_view(report.top_services@).len() == report.top_services@.len());
}

/// No report is made from a part of the accounts: where the provider admits no
/// summary for one of the accounts in the current window, nothing is a report on them.
pub proof fn lemma_no_partial_report<P: CostProvider>(
    report: Report,
    provider: P,
    accounts: Seq<String>,
    today: Date,
    failing: int,
)
    requires
        0 <= failing < accounts.len(),
        forall|summary: AccountSummary|
            !#[trigger] provider.may_summarize(
                accounts[failing]@,
                today.first_of_month(),
                today.next_day(),
                Ok(summary),
            ),
    ensures
        !is_report_of(report, provider, accounts, today),
{
    if is_report_of(report, provider, accounts, today) {
        assert(provider.may_summarize(
            accounts[failing]@,
            report.month_start,
            report.month_end_exclusive,
            Ok(report.summaries@[failing]),
        ));
    }
}

/// A report is fixed by the day, the accounts' summaries and their previous totals:
/// two reports that describe the same have the same windows, summaries and figures,
/// and name the same services in the same order.
pub proof fn lemma_report_is_determined(
    a: Report,
    b: Report,
    today: Date,
    summaries: Seq<AccountSummary>,
    prev_totals: Seq<i64>,
)
    requires
        a.describes(today, summaries, prev_totals),
        b.describes(today, summaries, prev_totals),
    ensures
        a.month_start == b.month_start,
        a.month_end_exclusive == b.month_end_exclusive,
        a.prev_start == b.prev_start,
        a.prev_end_exclusive == b.prev_end_exclusive,
        a.summaries@ == b.summaries@,
        a.total_all == b.total_all,
        a.services_total.names() == b.services_total.names(),
        a.services_total.values() == b.services_total.values(),
        ranking_view(a.top_services@) == ranking_view(b.top_services@),
        a.prev_total == b.prev_total,
        a.delta == b.delta,
        a.delta_pct == b.delta_pct,
{
    let names = a.services_total.names();
    assert forall|i: int| 0 <= i < names.len() implies a.services_total.values()[i]
        == b.services_total.values()[i] by {
        a.services_total.lemma_value_at(i);
        b.services_total.lemma_value_at(i);
    }
    assert(a.services_total.values() =~= b.services_total.values());
    assert(table_entries(a.services_total) =~= table_entries(b.services_total));
}

} // verus!
