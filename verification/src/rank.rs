//! The order of projects in a report.

use vstd::prelude::*;
use vstd::seq_lib::{to_multiset_build, to_multiset_contains, to_multiset_insert, to_multiset_remove};

use crate::stats::{ProjectStats, Totals};
use crate::table::{
    distinct, listed, plausible, sum_of, sum_with_row, sum_without_row, Rows, StatsTable,
};

verus! {

/// The projects that had a session.
pub open spec fn active(rows: Rows) -> Rows {
    rows.filter(|row: (Seq<char>, Totals)| row.1.sessions > 0)
}

/// The projects that used `total` tokens, in their order.
pub open spec fn with_total(rows: Rows, total: nat) -> Rows {
    rows.filter(|row: (Seq<char>, Totals)| row.1.total_tokens() == total)
}

/// The projects stand in descending order of the tokens that they used.
pub open spec fn descending(rows: Rows) -> bool {
    forall|i: int, j: int|
        0 <= i <= j < rows.len() ==> rows[i].1.total_tokens() >= rows[j].1.total_tokens()
}

/// `ranking` holds the projects of `rows`, those that used most first. Projects
/// that used as much as each other keep their order.
pub open spec fn ranks(ranking: Rows, rows: Rows) -> bool {
    &&& descending(ranking)
    &&& ranking.to_multiset() == rows.to_multiset()
    &&& forall|total: nat| #[trigger] with_total(ranking, total) == with_total(rows, total)
}

/// The total of each project that had a session fits in 64 bits.
pub open spec fn totals_fit(rows: Rows) -> bool {
    forall|i: int|
        0 <= i < rows.len() && (#[trigger] rows[i]).1.sessions > 0 ==> rows[i].1.total_tokens()
            <= u64::MAX
}

proof fn insert_keeps(rows: Rows, at: int, row: (Seq<char>, Totals), total: nat)
    requires
        0 <= at <= rows.len(),
        forall|j: int| at <= j < rows.len() ==> rows[j].1.total_tokens() < row.1.total_tokens(),
    ensures
        with_total(rows.insert(at, row), total) == with_total(rows.push(row), total),
{
    let pred = |row: (Seq<char>, Totals)| row.1.total_tokens() == total;
    let head = rows.take(at);
    let tail = rows.skip(at);
    assert(rows.insert(at, row) =~= head + seq![row] + tail);
    assert(rows.push(row) =~= head + tail + seq![row]);
    Seq::filter_distributes_over_add(head + seq![row], tail, pred);
    Seq::filter_distributes_over_add(head, seq![row], pred);
    Seq::filter_distributes_over_add(head + tail, seq![row], pred);
    Seq::filter_distributes_over_add(head, tail, pred);
    if row.1.total_tokens() == total {
        none_pass(tail, pred);
    } else {
        none_pass(seq![row], pred);
    }
}

proof fn none_pass(rows: Rows, pred: spec_fn((Seq<char>, Totals)) -> bool)
    requires
        forall|i: int| 0 <= i < rows.len() ==> !pred(#[trigger] rows[i]),
    ensures
        rows.filter(pred) == Rows::empty(),
    decreases rows.len(),
{
    reveal(Seq::filter);
    if rows.len() > 0 {
        none_pass(rows.drop_last(), pred);
    }
}

/// Rows of the same projects have the same sum.
pub proof fn law_same_rows_same_sum(a: Rows, b: Rows)
    requires
        a.to_multiset() == b.to_multiset(),
    ensures
        sum_of(a) == sum_of(b),
    decreases a.len(),
{
    broadcast use vstd::seq_lib::group_to_multiset_ensures;

    if a.len() == 0 {
        if b.len() > 0 {
            assert(b.contains(b[0]));
            assert(a.to_multiset().count(b[0]) > 0);
            assert(a.contains(b[0]));
        }
    } else {
        let row = a.last();
        assert(a.contains(row));
        assert(b.to_multiset().count(row) > 0);
        assert(b.contains(row));
        let i = choose|i: int| 0 <= i < b.len() && b[i] == row;
        let shorter = a.drop_last();
        assert(shorter.push(row) =~= a);
        to_multiset_build(shorter, row);
        to_multiset_remove(b, i);
        assert(shorter.to_multiset() =~= b.remove(i).to_multiset());
        law_same_rows_same_sum(shorter, b.remove(i));
        sum_without_row(b, i);
    }
}

/// Projects without a session add nothing to the sum.
pub proof fn law_active_sum(rows: Rows)
    requires
        plausible(rows),
    ensures
        sum_of(active(rows)) == sum_of(rows),
    decreases rows.len(),
{
    reveal(Seq::filter);
    if rows.len() > 0 {
        let shorter = rows.drop_last();
        law_active_sum(shorter);
        assert(rows.last().1.plausible());
        if rows.last().1.sessions > 0 {
            sum_with_row(active(shorter), rows.last());
        }
    }
}

/// The projects that had a session are among all projects, once each.
pub proof fn law_active_rows(rows: Rows)
    ensures
        forall|i: int|
            0 <= i < active(rows).len() ==> (#[trigger] active(rows)[i]).1.sessions > 0
                && rows.contains(active(rows)[i]),
        distinct(rows) ==> distinct(active(rows)),
    decreases rows.len(),
{
    reveal(Seq::filter);
    if rows.len() > 0 {
        let shorter = rows.drop_last();
        law_active_rows(shorter);
        assert forall|i: int| 0 <= i < active(rows).len() implies (
        #[trigger] active(rows)[i]).1.sessions > 0 && rows.contains(active(rows)[i]) by {
            if i < active(shorter).len() {
                let row = active(shorter)[i];
                assert(shorter.contains(row));
                let k = choose|k: int| 0 <= k < shorter.len() && shorter[k] == row;
                assert(rows[k] == row);
            } else {
                assert(rows[rows.len() - 1] == rows.last());
            }
        }
        if distinct(rows) {
            assert(distinct(shorter));
            assert forall|i: int, j: int| 0 <= i < j < active(rows).len() implies active(rows)[i].0
                != active(rows)[j].0 by {
                if j == active(shorter).len() {
                    let row = active(shorter)[i];
                    assert(shorter.contains(row));
                    let k = choose|k: int| 0 <= k < shorter.len() && shorter[k] == row;
                    assert(rows[k].0 != rows[rows.len() - 1].0);
                }
            }
        }
    }
}

/// A ranking has the projects of the rows that it ranks, once each, and their
/// sum.
pub proof fn law_ranking(ranking: Rows, rows: Rows)
    requires
        ranks(ranking, rows),
        distinct(rows),
    ensures
        sum_of(ranking) == sum_of(rows),
        ranking.len() == rows.len(),
        forall|row: (Seq<char>, Totals)| #[trigger] ranking.contains(row) <==> rows.contains(row),
        distinct(ranking),
{
    broadcast use vstd::seq_lib::group_to_multiset_ensures;

    law_same_rows_same_sum(ranking, rows);
    assert(ranking.len() == ranking.to_multiset().len());
    assert(rows.len() == rows.to_multiset().len());
    assert forall|row: (Seq<char>, Totals)| #[trigger] ranking.contains(row) <==> rows.contains(
        row,
    ) by {
        to_multiset_contains(ranking, row);
        to_multiset_contains(rows, row);
    }
    assert(rows.no_duplicates()) by {
        assert forall|i: int, j: int| 0 <= i < rows.len() && 0 <= j < rows.len() && i != j implies
            rows[i] != rows[j] by {
            if i < j {
                assert(rows[i].0 != rows[j].0);
            } else {
                assert(rows[j].0 != rows[i].0);
            }
        }
    }
    rows.lemma_multiset_has_no_duplicates();
    ranking.lemma_multiset_has_no_duplicates_conv();
    assert forall|i: int, j: int| 0 <= i < j < ranking.len() implies ranking[i].0
        != ranking[j].0 by {
        assert(ranking.contains(ranking[i]));
        assert(ranking.contains(ranking[j]));
        let p = choose|p: int| 0 <= p < rows.len() && rows[p] == ranking[i];
        let q = choose|q: int| 0 <= q < rows.len() && rows[q] == ranking[j];
        assert(ranking[i] != ranking[j]);
        if p < q {
            assert(rows[p].0 != rows[q].0);
        } else {
            assert(rows[q].0 != rows[p].0);
        }
    }
}

/// The projects of `table` that had a session, those that used most tokens
/// first. Projects that used as much as each other keep their order.
pub fn rank(table: &StatsTable) -> (r: Vec<(String, ProjectStats)>)
    requires
        totals_fit(table@),
    ensures
        ranks(listed(r@), active(table@)),
{
    let mut r: Vec<(String, ProjectStats)> = Vec::new();
    let mut i: usize = 0;
    assert(active(table@.take(0)) =~= Rows::empty()) by {
        reveal(Seq::filter);
    }
    assert(listed(r@) =~= Rows::empty());
    while i < table.len()
        invariant
            i <= table@.len(),
            totals_fit(table@),
            forall|k: int| 0 <= k < r@.len() ==> (#[trigger] r@[k]).1@.total_tokens() <= u64::MAX,
            ranks(listed(r@), active(table@.take(i as int))),
        decreases table@.len() - i,
    {
        let stats = table.stats_at(i);
        let ghost seen = table@.take(i as int);
        let ghost row = table@[i as int];
        assert(table@.take(i + 1) =~= seen.push(row));
        assert(active(seen.push(row)) == (if row.1.sessions > 0 {
            active(seen).push(row)
        } else {
            active(seen)
        })) by {
            reveal(Seq::filter);
            assert(seen.push(row).drop_last() =~= seen);
        }
        if stats.sessions > 0 {
            let total: u64 = stats.total_tokens();
            let mut at: usize = r.len();
            while at > 0 && r[at - 1].1.total_tokens() < total
                invariant
                    at <= r@.len(),
                    total == row.1.total_tokens(),
                    forall|k: int|
                        0 <= k < r@.len() ==> (#[trigger] r@[k]).1@.total_tokens() <= u64::MAX,
                    forall|k: int| at <= k < r@.len() ==> (#[trigger] r@[k]).1@.total_tokens() < total,
                decreases at,
            {
                at -= 1;
            }
            let ghost before = listed(r@);
            assert forall|k: int| 0 <= k < at implies before[k].1.total_tokens() >= total by {
                assert(before[k].1.total_tokens() >= before[at - 1].1.total_tokens());
            }
            r.insert(at, (table.name_at(i).to_string(), stats));
            proof {
                assert(listed(r@) =~= before.insert(at as int, row));
                to_multiset_insert(before, at as int, row);
                to_multiset_build(active(seen), row);
                assert forall|t: nat| #[trigger]
                    with_total(listed(r@), t) == with_total(active(seen).push(row), t) by {
                    insert_keeps(before, at as int, row, t);
                    let pred = |row: (Seq<char>, Totals)| row.1.total_tokens() == t;
                    assert(with_total(before, t) == with_total(active(seen), t));
                    Seq::filter_distributes_over_add(before, seq![row], pred);
                    Seq::filter_distributes_over_add(active(seen), seq![row], pred);
                    assert(before.push(row) =~= before + seq![row]);
                    assert(active(seen).push(row) =~= active(seen) + seq![row]);
                }
            }
        }
        i += 1;
    }
    assert(table@.take(i as int) =~= table@);
    r
}

proof fn active_has(rows: Rows, row: (Seq<char>, Totals))
    ensures
        rows.contains(row) && row.1.sessions > 0 ==> active(rows).contains(row),
    decreases rows.len(),
{
    reveal(Seq::filter);
    if rows.contains(row) && row.1.sessions > 0 {
        let shorter = rows.drop_last();
        active_has(shorter, row);
        let k = choose|k: int| 0 <= k < rows.len() && rows[k] == row;
        if k < rows.len() - 1 {
            assert(shorter[k] == row);
            let i = choose|i: int| 0 <= i < active(shorter).len() && active(shorter)[i] == row;
            assert(active(rows)[i] == row);
        } else {
            assert(active(rows)[active(rows).len() - 1] == row);
        }
    }
}

/// A ranking has each project with a session once and no other, and none stands
/// behind one whose input and output together are less.
pub proof fn law_ranked_projects(ranking: Rows, rows: Rows)
    requires
        ranks(ranking, active(rows)),
        distinct(rows),
    ensures
        forall|name: Seq<char>, stats: Totals| #[trigger]
            ranking.contains((name, stats)) <==> rows.contains((name, stats)) && stats.sessions > 0,
        forall|i: int, j: int| 0 <= i < j < ranking.len() ==> ranking[i].0 != ranking[j].0,
        forall|i: int, j: int|
            0 <= i < j < ranking.len() ==> ranking[i].1.input_tokens + ranking[i].1.output_tokens
                >= ranking[j].1.input_tokens + ranking[j].1.output_tokens,
{
    law_active_rows(rows);
    law_ranking(ranking, active(rows));
    assert forall|name: Seq<char>, stats: Totals| #[trigger]
        ranking.contains((name, stats)) <==> rows.contains((name, stats)) && stats.sessions > 0 by {
        active_has(rows, (name, stats));
        if active(rows).contains((name, stats)) {
            let i = choose|i: int|
                0 <= i < active(rows).len() && active(rows)[i] == (name, stats);
            assert(rows.contains(active(rows)[i]));
        }
    }
    assert forall|i: int, j: int| 0 <= i < j < ranking.len() implies ranking[i].1.input_tokens
        + ranking[i].1.output_tokens >= ranking[j].1.input_tokens + ranking[j].1.output_tokens by {
        assert(ranking[i].1.total_tokens() >= ranking[j].1.total_tokens());
    }
}

} // verus!
