//! One account's costs for one window, and the sums taken over several accounts.

use crate::table::NameTable;
use vstd::prelude::*;

verus! {

/// The most accounts that one report covers. With no more than these, every sum of
/// amounts and every figure derived from one is exact in 128 bits.
pub const MAX_ACCOUNTS: usize = 4294967295;

/// What one account has cost in one window.
#[derive(Debug, Clone)]
pub struct AccountSummary {
    /// The reference under which the caller knows the account.
    pub account_ref: String,
    /// The account's identity in the billing system.
    pub account_id: String,
    /// A name for people to read; the identity where no better one is known.
    pub account_name: String,
    /// The account's total cost in the window, which is never negative.
    pub total: u64,
    /// The cost of each service in the window.
    pub services: NameTable<i64>,
}

impl AccountSummary {
    /// What the account has cost for the service `name`: nothing where its breakdown
    /// does not list the service.
    pub open spec fn service_amount(&self, name: Seq<char>) -> int {
        if self.services.has(name) {
            self.services.value_of(name) as int
        } else {
            0
        }
    }
}

/// The sum of the accounts' totals.
pub open spec fn sum_of_totals(summaries: Seq<AccountSummary>) -> int
    decreases summaries.len(),
{
    if summaries.len() == 0 {
        0
    } else {
        sum_of_totals(summaries.drop_last()) + summaries.last().total
    }
}

/// The sum of `amounts`.
pub open spec fn sum_of_amounts(amounts: Seq<i64>) -> int
    decreases amounts.len(),
{
    if amounts.len() == 0 {
        0
    } else {
        sum_of_amounts(amounts.drop_last()) + amounts.last()
    }
}

/// Whether some account's breakdown lists the service `name`.
pub open spec fn merged_has(summaries: Seq<AccountSummary>, name: Seq<char>) -> bool
    decreases summaries.len(),
{
    if summaries.len() == 0 {
        false
    } else {
        merged_has(summaries.drop_last(), name) || summaries.last().services.has(name)
    }
}

/// What the accounts together have cost for the service `name`.
pub open spec fn merged_amount(summaries: Seq<AccountSummary>, name: Seq<char>) -> int
    decreases summaries.len(),
{
    if summaries.len() == 0 {
        0
    } else {
        merged_amount(summaries.drop_last(), name) + summaries.last().service_amount(name)
    }
}

/// A sum of totals is not negative, and at most as large as its accounts are many,
/// times the largest total.
pub proof fn lemma_sum_of_totals_bound(summaries: Seq<AccountSummary>)
    ensures
        0 <= sum_of_totals(summaries) <= summaries.len() * 0xffff_ffff_ffff_ffff,
    decreases summaries.len(),
{
    if summaries.len() > 0 {
        lemma_sum_of_totals_bound(summaries.drop_last());
    }
}

/// A sum of amounts is at most as far from zero as the amounts are many, times the
/// largest amount.
pub proof fn lemma_sum_of_amounts_bound(amounts: Seq<i64>)
    ensures
        -amounts.len() * 0x8000_0000_0000_0000 <= sum_of_amounts(amounts) <= amounts.len()
            * 0x8000_0000_0000_0000,
    decreases amounts.len(),
{
    if amounts.len() > 0 {
        lemma_sum_of_amounts_bound(amounts.drop_last());
    }
}

/// The cost of one service over several accounts is at most as far from zero as the
/// accounts are many, times the largest amount; and it is zero where no account
/// lists the service.
pub proof fn lemma_merged_amount_bound(summaries: Seq<AccountSummary>, name: Seq<char>)
    ensures
        -summaries.len() * 0x8000_0000_0000_0000 <= merged_amount(summaries, name)
            <= summaries.len() * 0x8000_0000_0000_0000,
        !merged_has(summaries, name) ==> merged_amount(summaries, name) == 0,
    decreases summaries.len(),
{
    if summaries.len() > 0 {
        lemma_merged_amount_bound(summaries.drop_last(), name);
    }
}

/// The sums over accounts that stand one group behind another are the sums over the
/// groups, added up.
pub proof fn lemma_sums_of_joined(a: Seq<AccountSummary>, b: Seq<AccountSummary>, name: Seq<char>)
    ensures
        sum_of_totals(a + b) == sum_of_totals(a) + sum_of_totals(b),
        merged_amount(a + b, name) == merged_amount(a, name) + merged_amount(b, name),
        merged_has(a + b, name) == (merged_has(a, name) || merged_has(b, name)),
    decreases b.len(),
{
    if b.len() == 0 {
        assert(a + b =~= a);
    } else {
        assert((a + b).drop_last() =~= a + b.drop_last());
        assert((a + b).last() == b.last());
        lemma_sums_of_joined(a, b.drop_last(), name);
    }
}

/// The sums over accounts do not depend on the order in which the accounts stand:
/// accounts that are the same but for their order have the same total, and list the
/// same services at the same cost.
pub proof fn lemma_sums_in_any_order(
    a: Seq<AccountSummary>,
    b: Seq<AccountSummary>,
    name: Seq<char>,
)
    requires
        a.to_multiset() == b.to_multiset(),
    ensures
        sum_of_totals(a) == sum_of_totals(b),
        merged_amount(a, name) == merged_amount(b, name),
        merged_has(a, name) == merged_has(b, name),
    decreases a.len(),
{
    broadcast use vstd::seq_lib::group_to_multiset_ensures;

    assert(a.to_multiset().len() == a.len());
    assert(b.to_multiset().len() == b.len());
    if a.len() == 0 {
    } else {
        let last = a.last();
        assert(a.to_multiset().count(last) > 0);
        assert(b.contains(last));
        let at = b.index_of(last);
        let front = b.take(at);
        let back = b.skip(at + 1);
        let one = seq![last];
        assert(b =~= front + one + back);
        assert(b.remove(at) =~= front + back);
        assert(a.drop_last() =~= a.remove(a.len() - 1));
        assert(a.drop_last().to_multiset() =~= (front + back).to_multiset());
        lemma_sums_in_any_order(a.drop_last(), front + back, name);
        lemma_sums_of_joined(front, back, name);
        lemma_sums_of_joined(front, one, name);
        lemma_sums_of_joined(front + one, back, name);
        assert(one.drop_last() =~= Seq::<AccountSummary>::empty());
        assert(sum_of_totals(one.drop_last()) == 0);
        assert(merged_amount(one.drop_last(), name) == 0);
        assert(!merged_has(one.drop_last(), name));
    }
}

/// The sum of the accounts' totals.
pub fn sum_totals(summaries: &Vec<AccountSummary>) -> (r: i128)
    requires
        summaries@.len() <= MAX_ACCOUNTS,
    ensures
        r == sum_of_totals(summaries@),
{
    let n = summaries.len();
    let mut total: i128 = 0;
    let mut i: usize = 0;
    while i < n
        invariant
            n == summaries@.len(),
            n <= MAX_ACCOUNTS,
            i <= n,
            total == sum_of_totals(summaries@.take(i as int)),
        decreases n - i,
    {
        proof {
            lemma_sum_of_totals_bound(summaries@.take(i as int));
            assert(summaries@.take(i + 1).drop_last() =~= summaries@.take(i as int));
        }
        total = total + summaries[i].total as i128;
        i += 1;
    }
    assert(summaries@.take(n as int) =~= summaries@);
    total
}

/// The sum of `amounts`.
pub fn sum_amounts(amounts: &Vec<i64>) -> (r: i128)
    requires
        amounts@.len() <= MAX_ACCOUNTS,
    ensures
        r == sum_of_amounts(amounts@),
{
    let n = amounts.len();
    let mut total: i128 = 0;
    let mut i: usize = 0;
    while i < n
        invariant
            n == amounts@.len(),
            n <= MAX_ACCOUNTS,
            i <= n,
            total == sum_of_amounts(amounts@.take(i as int)),
        decreases n - i,
    {
        proof {
            lemma_sum_of_amounts_bound(amounts@.take(i as int));
            assert(amounts@.take(i + 1).drop_last() =~= amounts@.take(i as int));
        }
        total = total + amounts[i] as i128;
        i += 1;
    }
    assert(amounts@.take(n as int) =~= amounts@);
    total
}

/// `names` followed by those of `more` that are not among them, each once, in the
/// order in which they first stand in `more`.
pub open spec fn with_new_names(names: Seq<Seq<char>>, more: Seq<Seq<char>>) -> Seq<Seq<char>>
    decreases more.len(),
{
    if more.len() == 0 {
        names
    } else {
        let before = with_new_names(names, more.drop_last());
        if before.contains(more.last()) {
            before
        } else {
            before.push(more.last())
        }
    }
}

/// The services that the accounts list, each once, in the order in which they first
/// occur: account by account, and within an account in the order of its breakdown.
pub open spec fn merged_names(summaries: Seq<AccountSummary>) -> Seq<Seq<char>>
    decreases summaries.len(),
{
    if summaries.len() == 0 {
        Seq::empty()
    } else {
        with_new_names(merged_names(summaries.drop_last()), summaries.last().services.names())
    }
}

/// What an account has cost for the service `name`, counting only the first `upto`
/// entries of its breakdown.
pub open spec fn counted_amount(summary: AccountSummary, upto: int, name: Seq<char>) -> int {
    if summary.services.names().take(upto).contains(name) {
        summary.services.value_of(name) as int
    } else {
        0
    }
}

/// The cost of each service over all the accounts: a table that lists every service
/// that some account lists, under the sum of what the accounts have cost for it.
pub fn merge_services(summaries: &Vec<AccountSummary>) -> (r: NameTable<i128>)
    requires
        summaries@.len() <= MAX_ACCOUNTS,
    ensures
        r.wf(),
        r.names() == merged_names(summaries@),
        forall|name: Seq<char>| #[trigger] r.has(name) <==> merged_has(summaries@, name),
        forall|name: Seq<char>|
            r.has(name) ==> #[trigger] r.value_of(name) == merged_amount(summaries@, name),
{
    let n = summaries.len();
    let mut merged: NameTable<i128> = NameTable::new();
    let mut i: usize = 0;
    while i < n
        invariant
            n == summaries@.len(),
            n <= MAX_ACCOUNTS,
            i <= n,
            merged.wf(),
            merged.names() == merged_names(summaries@.take(i as int)),
            forall|name: Seq<char>| #[trigger]
                merged.has(name) <==> merged_has(summaries@.take(i as int), name),
            forall|name: Seq<char>|
                merged.has(name) ==> #[trigger] merged.value_of(name) == merged_amount(
                    summaries@.take(i as int),
                    name,
                ),
        decreases n - i,
    {
        let summary = &summaries[i];
        proof {
            use_type_invariant(&summary.services);
        }
        let m = summary.services.len();
        let ghost done = summaries@.take(i as int);
        let mut j: usize = 0;
        while j < m
            invariant
                n == summaries@.len(),
                n <= MAX_ACCOUNTS,
                i < n,
                *summary == summaries@[i as int],
                done == summaries@.take(i as int),
                summary.services.wf(),
                m == summary.services.names().len(),
                j <= m,
                merged.wf(),
                merged.names() == with_new_names(
                    merged_names(done),
                    summary.services.names().take(j as int),
                ),
                forall|name: Seq<char>| #[trigger]
                    merged.has(name) <==> (merged_has(done, name)
                        || summary.services.names().take(j as int).contains(name)),
                forall|name: Seq<char>|
                    merged.has(name) ==> #[trigger] merged.value_of(name) == merged_amount(
                        done,
                        name,
                    ) + counted_amount(*summary, j as int, name),
            decreases m - j,
        {
            let name = summary.services.name_at(j);
            let amount = *summary.services.value_at(j);
            let current: i128 = match merged.get(name) {
                Some(v) => *v,
                None => 0,
            };
            let ghost before = merged;
            let ghost names = summary.services.names();
            proof {
                lemma_merged_amount_bound(done, name@);
                summary.services.lemma_value_at(j as int);
                assert(!names.take(j as int).contains(name@));
                assert(counted_amount(*summary, j as int, name@) == 0);
            }
            merged.insert(name.clone(), current + amount as i128);
            proof {
                assert(names.take(j + 1) =~= names.take(j as int).push(name@));
                assert(names.take(j + 1).drop_last() =~= names.take(j as int));
                assert forall|other: Seq<char>| #[trigger]
                    merged.has(other) <==> (merged_has(done, other) || names.take(
                        j + 1,
                    ).contains(other)) by {
                    assert(merged@.dom().contains(other) == merged.has(other));
                    assert(before@.dom().contains(other) == before.has(other));
                    if names.take(j + 1).contains(other) && other != name@ {
                        let k = names.take(j + 1).index_of(other);
                        assert(names.take(j as int)[k] == other);
                    }
                    if names.take(j as int).contains(other) {
                        let k = names.take(j as int).index_of(other);
                        assert(names.take(j + 1)[k] == other);
                    }
                    assert(names.take(j + 1)[j as int] == name@);
                }
                assert forall|other: Seq<char>| merged.has(other) implies #[trigger]
                    merged.value_of(other) == merged_amount(done, other) + counted_amount(
                    *summary,
                    j + 1,
                    other,
                ) by {
                    assert(merged@.dom().contains(other));
                    assert(merged@[other] == merged.value_of(other));
                    if other == name@ {
                        assert(names.take(j + 1)[j as int] == name@);
                        if before.has(other) {
                            assert(before.value_of(other) == current);
                        } else {
                            assert(!merged_has(done, other));
                        }
                    } else {
                        assert(before@.dom().contains(other));
                        assert(before@[other] == before.value_of(other));
                        if names.take(j + 1).contains(other) {
                            let k = names.take(j + 1).index_of(other);
                            assert(names.take(j as int)[k] == other);
                        }
                        if names.take(j as int).contains(other) {
                            let k = names.take(j as int).index_of(other);
                            assert(names.take(j + 1)[k] == other);
                        }
                    }
                }
            }
            j += 1;
        }
        proof {
            assert(summary.services.names().take(m as int) =~= summary.services.names());
            assert(summaries@.take(i + 1).drop_last() =~= done);
            assert(summaries@.take(i + 1).last() == *summary);
        }
        i += 1;
    }
    assert(summaries@.take(n as int) =~= summaries@);
    merged
}

} // verus!
