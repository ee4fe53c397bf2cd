//! The ranking of services by what they have cost, highest first.

use crate::table::NameTable;
use vstd::prelude::*;

verus! {

/// How many services a report names as its highest.
pub const TOP_SERVICES: usize = 5;

/// A service and what it has cost.
pub type Entry = (Seq<char>, int);

/// `ranked` with `entry` put in behind every entry that has cost as much or more, and
/// before every entry that has cost less.
pub open spec fn insert_ranked(ranked: Seq<Entry>, entry: Entry) -> Seq<Entry>
    decreases ranked.len(),
{
    if ranked.len() == 0 || ranked.last().1 >= entry.1 {
        ranked.push(entry)
    } else {
        insert_ranked(ranked.drop_last(), entry).push(ranked.last())
    }
}

/// `entries` in the order of their cost, highest first; entries of equal cost keep the
/// order in which they stand in `entries`.
pub open spec fn ranked(entries: Seq<Entry>) -> Seq<Entry>
    decreases entries.len(),
{
    if entries.len() == 0 {
        Seq::empty()
    } else {
        insert_ranked(ranked(entries.drop_last()), entries.last())
    }
}

/// Whether no entry of `entries` has cost more than one that stands before it.
pub open spec fn is_descending(entries: Seq<Entry>) -> bool {
    forall|i: int, j: int| 0 <= i < j < entries.len() ==> entries[i].1 >= entries[j].1
}

/// The first `limit` entries of the ranking of `entries`; all of it where it is shorter.
pub open spec fn top_ranked(entries: Seq<Entry>, limit: int) -> Seq<Entry> {
    if limit <= entries.len() {
        ranked(entries).take(limit)
    } else {
        ranked(entries)
    }
}

/// The entries of a table of totals, in the table's order.
pub open spec fn table_entries(totals: NameTable<i128>) -> Seq<Entry> {
    Seq::new(totals.names().len(), |i: int| (totals.names()[i], totals.values()[i] as int))
}

/// What a ranking holds: each service's name and its cost.
pub open spec fn ranking_view(ranking: Seq<(String, i128)>) -> Seq<Entry> {
    Seq::new(ranking.len(), |i: int| (ranking[i].0@, ranking[i].1 as int))
}

/// Where `entry` comes to stand: at the place behind which every entry has cost less,
/// and before which the nearest has cost as much or more.
pub proof fn lemma_insert_ranked_at(ranked: Seq<Entry>, entry: Entry, place: int)
    requires
        0 <= place <= ranked.len(),
        forall|k: int| place <= k < ranked.len() ==> ranked[k].1 < entry.1,
        place == 0 || ranked[place - 1].1 >= entry.1,
    ensures
        insert_ranked(ranked, entry) == ranked.insert(place, entry),
    decreases ranked.len(),
{
    if place == ranked.len() {
        assert(ranked.push(entry) =~= ranked.insert(place, entry));
    } else {
        let rest = ranked.drop_last();
        lemma_insert_ranked_at(rest, entry, place);
        assert(rest.insert(place, entry).push(ranked.last()) =~= ranked.insert(place, entry));
    }
}

/// Putting an entry into a ranking makes it one longer, keeps what it held, and keeps
/// it in descending order.
pub proof fn lemma_insert_ranked(ranked: Seq<Entry>, entry: Entry)
    ensures
        insert_ranked(ranked, entry).len() == ranked.len() + 1,
        insert_ranked(ranked, entry).to_multiset() == ranked.to_multiset().insert(entry),
        is_descending(ranked) ==> is_descending(insert_ranked(ranked, entry)),
        forall|i: int|
            0 <= i < ranked.len() + 1 ==> (#[trigger] insert_ranked(ranked, entry)[i] == entry
                || ranked.contains(insert_ranked(ranked, entry)[i])),
    decreases ranked.len(),
{
    broadcast use vstd::seq_lib::group_to_multiset_ensures;

    if ranked.len() == 0 || ranked.last().1 >= entry.1 {
        let out = ranked.push(entry);
        assert forall|i: int| 0 <= i < ranked.len() + 1 implies (#[trigger] out[i] == entry
            || ranked.contains(out[i])) by {
            if i < ranked.len() {
                assert(ranked[i] == out[i]);
            }
        }
    } else {
        let rest = ranked.drop_last();
        let last = ranked.last();
        lemma_insert_ranked(rest, entry);
        let inner = insert_ranked(rest, entry);
        let out = inner.push(last);
        assert(ranked =~= rest.push(last));
        assert(ranked.to_multiset() == rest.to_multiset().insert(last));
        assert(out.to_multiset() =~= ranked.to_multiset().insert(entry));
        assert forall|i: int| 0 <= i < ranked.len() + 1 implies (#[trigger] out[i] == entry
            || ranked.contains(out[i])) by {
            if i < inner.len() {
                assert(out[i] == inner[i]);
                if inner[i] != entry {
                    let k = rest.index_of(inner[i]);
                    assert(ranked[k] == inner[i]);
                }
            } else {
                assert(ranked[ranked.len() - 1] == out[i]);
            }
        }
        if is_descending(ranked) {
            assert(is_descending(rest));
            assert forall|i: int, j: int| 0 <= i < j < out.len() implies out[i].1 >= out[j].1 by {
                if j < inner.len() {
                } else {
                    if inner[i] != entry {
                        let k = rest.index_of(inner[i]);
                        assert(ranked[k].1 >= ranked[ranked.len() - 1].1);
                    }
                }
            }
        }
    }
}

/// A ranking holds what was ranked, each entry as often, in descending order.
pub proof fn lemma_ranked(entries: Seq<Entry>)
    ensures
        ranked(entries).len() == entries.len(),
        ranked(entries).to_multiset() == entries.to_multiset(),
        is_descending(ranked(entries)),
    decreases entries.len(),
{
    broadcast use vstd::seq_lib::group_to_multiset_ensures;

    if entries.len() == 0 {
        assert(ranked(entries) =~= Seq::<Entry>::empty());
    } else {
        let rest = entries.drop_last();
        lemma_ranked(rest);
        lemma_insert_ranked(ranked(rest), entries.last());
        assert(entries =~= rest.push(entries.last()));
    }
}

/// Entries that stand in descending order already are their own ranking.
pub proof fn lemma_ranked_of_descending(entries: Seq<Entry>)
    requires
        is_descending(entries),
    ensures
        ranked(entries) == entries,
    decreases entries.len(),
{
    if entries.len() == 0 {
        assert(ranked(entries) =~= entries);
    } else {
        let rest = entries.drop_last();
        assert(is_descending(rest));
        lemma_ranked_of_descending(rest);
        if rest.len() > 0 {
            assert(entries[rest.len() - 1].1 >= entries[entries.len() - 1].1);
        }
        assert(rest.push(entries.last()) =~= entries);
    }
}

/// The head of a ranking is as long as the limit allows, stands in descending order,
/// holds entries that were ranked, and leaves out none that has cost more than one
/// of its own.
pub proof fn lemma_top_ranked(entries: Seq<Entry>, limit: int)
    requires
        0 <= limit,
    ensures
        top_ranked(entries, limit).len() == (if limit <= entries.len() {
            limit
        } else {
            entries.len() as int
        }),
        is_descending(top_ranked(entries, limit)),
        forall|i: int|
            0 <= i < top_ranked(entries, limit).len() ==> entries.contains(
                #[trigger] top_ranked(entries, limit)[i],
            ),
        forall|i: int, j: int|
            0 <= i < top_ranked(entries, limit).len() <= j < entries.len() ==> top_ranked(
                entries,
                limit,
            )[i].1 >= ranked(entries)[j].1,
{
    broadcast use vstd::seq_lib::group_to_multiset_ensures;

    lemma_ranked(entries);
    let all = ranked(entries);
    let top = top_ranked(entries, limit);
    assert forall|i: int| 0 <= i < top.len() implies entries.contains(#[trigger] top[i]) by {
        assert(top[i] == all[i]);
        assert(all.contains(all[i]));
        assert(all.to_multiset().count(all[i]) > 0);
    }
}

/// Puts a service and its cost into a ranking: behind every entry that has cost as
/// much or more, and before every entry that has cost less.
pub fn place_ranked(ranking: &mut Vec<(String, i128)>, name: String, amount: i128)
    ensures
        ranking_view(final(ranking)@) == insert_ranked(
            ranking_view(old(ranking)@),
            (name@, amount as int),
        ),
{
    let mut place: usize = ranking.len();
    while place > 0 && ranking[place - 1].1 < amount
        invariant
            place <= ranking@.len(),
            forall|k: int| place <= k < ranking@.len() ==> ranking@[k].1 < amount,
        decreases place,
    {
        place -= 1;
    }
    proof {
        lemma_insert_ranked_at(ranking_view(ranking@), (name@, amount as int), place as int);
    }
    ranking.insert(place, (name, amount));
    assert(ranking_view(ranking@) =~= ranking_view(old(ranking)@).insert(
        place as int,
        (name@, amount as int),
    ));
}

/// The services that have cost the most, highest first: the first `TOP_SERVICES` of
/// the ranking of the table's entries, or all of it where the table has fewer.
pub fn rank_services(totals: &NameTable<i128>) -> (r: Vec<(String, i128)>)
    ensures
        ranking_view(r@) == top_ranked(table_entries(*totals), TOP_SERVICES as int),
{
    let n = totals.len();
    let ghost entries = table_entries(*totals);
    let mut ranking: Vec<(String, i128)> = Vec::new();
    let mut i: usize = 0;
    assert(ranking_view(ranking@) =~= ranked(entries.take(0)));
    while i < n
        invariant
            n == totals.names().len(),
            n == totals.values().len(),
            entries == table_entries(*totals),
            i <= n,
            ranking_view(ranking@) == ranked(entries.take(i as int)),
        decreases n - i,
    {
        let name = totals.name_at(i).clone();
        let amount = *totals.value_at(i);
        proof {
            assert(entries.take(i + 1).drop_last() =~= entries.take(i as int));
            assert(entries.take(i + 1).last() == (name@, amount as int));
        }
        place_ranked(&mut ranking, name, amount);
        i += 1;
    }
    proof {
        assert(entries.take(n as int) =~= entries);
        lemma_ranked(entries);
    }
    let ghost full = ranking@;
    ranking.truncate(TOP_SERVICES);
    proof {
        if TOP_SERVICES <= n {
            assert(ranking_view(ranking@) =~= ranking_view(full).take(TOP_SERVICES as int));
        }
    }
    ranking
}

} // verus!
