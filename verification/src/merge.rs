//! Merging what lies below a project into it.

use vstd::prelude::*;

use crate::stats::Totals;
use crate::table::{
    credited, distinct, dropped, known, law_credited_rows, law_credited_sum, law_dropped_rows,
    law_dropped_sum, law_rows_stay_distinct, law_rows_stay_plausible, opened, place, place_is,
    plausible, stands_at, sum_of, sum_with_row, sum_without_row, used, Rows, StatsTable,
};
use crate::text::starts_with;

verus! {

/// The project `name` lies below the project `parent`.
pub open spec fn lies_below(name: Seq<char>, parent: Seq<char>) -> bool {
    parent.push('/').is_prefix_of(name)
}

/// `parent` is the closest of the projects above `name`.
pub open spec fn closest_above(rows: Rows, name: Seq<char>, parent: Seq<char>) -> bool {
    &&& known(rows, parent)
    &&& lies_below(name, parent)
    &&& forall|other: Seq<char>| #[trigger]
        known(rows, other) && lies_below(name, other) ==> other.len() <= parent.len()
}

/// The closest of the projects above `name`, if there is one.
pub open spec fn merge_target(rows: Rows, name: Seq<char>) -> Option<Seq<char>> {
    if exists|parent: Seq<char>| closest_above(rows, name, parent) {
        Some(choose|parent: Seq<char>| closest_above(rows, name, parent))
    } else {
        None
    }
}

/// Only one project is the closest above another.
pub proof fn law_closest_unique(rows: Rows, name: Seq<char>, parent: Seq<char>, other: Seq<char>)
    requires
        closest_above(rows, name, parent),
        closest_above(rows, name, other),
    ensures
        parent == other,
{
    assert(parent.len() == other.len());
    assert(parent =~= name.take(parent.len() as int)) by {
        assert(parent =~= parent.push('/').take(parent.len() as int));
    }
    assert(other =~= name.take(parent.len() as int)) by {
        assert(other =~= other.push('/').take(other.len() as int));
    }
}

/// A project that lies below another is merged into the closest one above it,
/// whatever other projects lie further up.
pub proof fn law_merged_into_closest(rows: Rows, name: Seq<char>, parent: Seq<char>)
    requires
        known(rows, parent),
        lies_below(name, parent),
    ensures
        merge_target(rows, name) matches Some(target) && known(rows, target) && lies_below(
            name,
            target,
        ) && parent.len() <= target.len(),
{
    assert(exists|best: Seq<char>| closest_above(rows, name, best)) by {
        longest_exists(rows, name, rows.len() as int);
        let i = place(rows, parent);
        assert(stands_at(rows, parent, i));
        assert(lies_below(name, rows[i].0));
        let all = rows.len() as int;
        let best = choose|best: Seq<char>| longest_of(rows, name, all, best);
        assert(closest_above(rows, name, best)) by {
            assert forall|other: Seq<char>| #[trigger]
                known(rows, other) && lies_below(name, other) implies other.len() <= best.len() by {
                let k = place(rows, other);
                assert(stands_at(rows, other, k));
                assert(lies_below(name, rows[k].0));
            }
        }
    }
}

/// `best` is the longest name above `name` among the first `n` rows.
spec fn longest_of(rows: Rows, name: Seq<char>, n: int, best: Seq<char>) -> bool {
    &&& known(rows, best)
    &&& lies_below(name, best)
    &&& forall|i: int|
        0 <= i < n && #[trigger] lies_below(name, rows[i].0) ==> rows[i].0.len() <= best.len()
}

proof fn longest_exists(rows: Rows, name: Seq<char>, n: int)
    requires
        0 <= n <= rows.len(),
    ensures
        (exists|i: int| 0 <= i < n && #[trigger] lies_below(name, rows[i].0)) ==> exists|
            best: Seq<char>,
        | longest_of(rows, name, n, best),
    decreases n,
{
    if exists|i: int| 0 <= i < n && #[trigger] lies_below(name, rows[i].0) {
        longest_exists(rows, name, n - 1);
        let last = rows[n - 1].0;
        assert(stands_at(rows, last, n - 1));
        if exists|i: int| 0 <= i < n - 1 && #[trigger] lies_below(name, rows[i].0) {
            let fewer = n - 1;
            let best = choose|best: Seq<char>| longest_of(rows, name, fewer, best);
            if lies_below(name, last) && last.len() > best.len() {
                assert(longest_of(rows, name, n, last));
            } else {
                assert(longest_of(rows, name, n, best));
            }
        } else {
            assert(longest_of(rows, name, n, last));
        }
    }
}

/// A project with few sessions is merged; one with more stands for itself.
pub open spec fn merge_limit() -> nat {
    5
}

/// The merges that the first `n` projects ask for: each project with few
/// sessions is merged into the closest one above it.
pub open spec fn merge_plan(rows: Rows, n: int) -> Seq<(Seq<char>, Seq<char>)>
    decreases n,
{
    if n <= 0 {
        Seq::empty()
    } else {
        match merge_target(rows, rows[n - 1].0) {
            Some(parent) => if rows[n - 1].1.sessions <= merge_limit() {
                merge_plan(rows, n - 1).push((rows[n - 1].0, parent))
            } else {
                merge_plan(rows, n - 1)
            },
            None => merge_plan(rows, n - 1),
        }
    }
}

/// The rows with `child` merged into `parent`.
pub open spec fn merged(rows: Rows, child: Seq<char>, parent: Seq<char>) -> Rows {
    if known(rows, child) {
        credited(dropped(rows, child), parent, used(rows, child))
    } else {
        rows
    }
}

/// The rows after the merges of `plan`, one after the other.
pub open spec fn merged_all(rows: Rows, plan: Seq<(Seq<char>, Seq<char>)>) -> Rows
    decreases plan.len(),
{
    if plan.len() == 0 {
        rows
    } else {
        merged(merged_all(rows, plan.drop_last()), plan.last().0, plan.last().1)
    }
}

/// The sums of each merge of `plan` fit.
pub open spec fn merges_fit(rows: Rows, plan: Seq<(Seq<char>, Seq<char>)>) -> bool
    decreases plan.len(),
{
    plan.len() > 0 ==> {
        let before = merged_all(rows, plan.drop_last());
        let (child, parent) = plan.last();
        &&& merges_fit(rows, plan.drop_last())
        &&& known(before, child) ==> used(dropped(before, child), parent).plus(
            used(before, child),
        ).fits()
    }
}

/// Merging leaves each project in one row.
pub proof fn law_merges_stay_distinct(rows: Rows, plan: Seq<(Seq<char>, Seq<char>)>)
    requires
        distinct(rows),
    ensures
        distinct(merged_all(rows, plan)),
    decreases plan.len(),
{
    if plan.len() > 0 {
        law_merges_stay_distinct(rows, plan.drop_last());
        let before = merged_all(rows, plan.drop_last());
        let (child, parent) = plan.last();
        law_rows_stay_distinct(before, child, Totals::zero());
        law_rows_stay_distinct(dropped(before, child), parent, used(before, child));
    }
}

/// Merging keeps what each project used plausible.
pub proof fn law_merges_stay_plausible(rows: Rows, plan: Seq<(Seq<char>, Seq<char>)>)
    requires
        plausible(rows),
    ensures
        plausible(merged_all(rows, plan)),
    decreases plan.len(),
{
    if plan.len() > 0 {
        law_merges_stay_plausible(rows, plan.drop_last());
        let before = merged_all(rows, plan.drop_last());
        let (child, parent) = plan.last();
        law_rows_stay_plausible(before, child, Totals::zero());
        law_rows_stay_plausible(dropped(before, child), parent, used(before, child));
    }
}

/// Merging loses nothing and counts nothing twice: all projects together used
/// what they used before, in whatever order the merges run.
pub proof fn law_merges_keep_sum(rows: Rows, plan: Seq<(Seq<char>, Seq<char>)>)
    ensures
        sum_of(merged_all(rows, plan)) == sum_of(rows),
    decreases plan.len(),
{
    if plan.len() > 0 {
        law_merges_keep_sum(rows, plan.drop_last());
        let before = merged_all(rows, plan.drop_last());
        let (child, parent) = plan.last();
        if known(before, child) {
            law_dropped_sum(before, child);
            law_credited_sum(dropped(before, child), parent, used(before, child));
        }
    }
}

/// The project `name` is `top` or lies below it.
pub open spec fn within(name: Seq<char>, top: Seq<char>) -> bool {
    name == top || lies_below(name, top)
}

/// The rows with what counts for `top`: all that a project within it used, and
/// nothing of the others.
pub open spec fn counted_for(rows: Rows, top: Seq<char>) -> Rows {
    Seq::new(
        rows.len(),
        |i: int|
            (
                rows[i].0,
                if within(rows[i].0, top) {
                    rows[i].1
                } else {
                    Totals::zero()
                },
            ),
    )
}

/// What the projects within `top` used together.
pub open spec fn sum_within(rows: Rows, top: Seq<char>) -> Totals {
    sum_of(counted_for(rows, top))
}

proof fn drop_within(rows: Rows, name: Seq<char>, top: Seq<char>)
    requires
        known(rows, name),
    ensures
        sum_within(rows, top) == if within(name, top) {
            sum_within(dropped(rows, name), top).plus(used(rows, name))
        } else {
            sum_within(dropped(rows, name), top)
        },
{
    let at = place(rows, name);
    assert(stands_at(rows, name, at));
    assert(counted_for(rows.remove(at), top) =~= counted_for(rows, top).remove(at));
    sum_without_row(counted_for(rows, top), at);
}

proof fn credit_within(rows: Rows, name: Seq<char>, more: Totals, top: Seq<char>)
    ensures
        sum_within(credited(rows, name, more), top) == if within(name, top) {
            sum_within(rows, top).plus(more)
        } else {
            sum_within(rows, top)
        },
{
    let open = opened(rows, name);
    if !known(rows, name) {
        let row = (name, Totals::zero());
        assert(stands_at(open, name, rows.len() as int));
        assert(counted_for(open, top) =~= counted_for(rows, top).push(row));
        sum_with_row(counted_for(rows, top), row);
    }
    let at = place(open, name);
    assert(stands_at(open, name, at));
    assert(open[at].1 == used(rows, name)) by {
        if !known(rows, name) && at < rows.len() {
            assert(stands_at(rows, name, at));
        }
    }
    let row = counted_for(credited(rows, name, more), top)[at];
    assert(counted_for(credited(rows, name, more), top) =~= counted_for(open, top).update(at, row));
    sum_without_row(counted_for(open, top), at);
    assert(sum_of(counted_for(open, top).update(at, row)) == sum_of(
        counted_for(open, top).remove(at),
    ).plus(row.1));
}

/// What lies below a project begins with its name, and then has a slash.
proof fn below_begins(name: Seq<char>, parent: Seq<char>)
    ensures
        lies_below(name, parent) <==> parent.len() < name.len() && name.take(parent.len() as int)
            == parent && name[parent.len() as int] == '/',
{
    let n = parent.len() as int;
    if lies_below(name, parent) {
        let front = name.subrange(0, n + 1);
        assert(front.take(n) =~= parent.push('/').take(n));
        assert(name.take(n) =~= front.take(n));
        assert(parent.push('/').take(n) =~= parent);
        assert(front[n] == name[n]);
    }
    if n < name.len() && name.take(n) == parent && name[n] == '/' {
        assert(name.subrange(0, n + 1) =~= name.take(n).push('/'));
    }
}

/// The closest project above another one is within each known project that is
/// above the other one too.
proof fn target_within(rows: Rows, name: Seq<char>, top: Seq<char>)
    requires
        known(rows, top),
        merge_target(rows, name) is Some,
        name != top,
    ensures
        within(name, top) == within(merge_target(rows, name)->0, top),
{
    let parent = merge_target(rows, name)->0;
    let n = top.len() as int;
    assert(closest_above(rows, name, parent));
    below_begins(name, parent);
    below_begins(name, top);
    below_begins(parent, top);
    if lies_below(name, top) {
        assert(n <= parent.len());
        assert(parent.take(n) =~= name.take(n));
        if n < parent.len() {
            assert(parent[n] == name[n]);
        } else {
            assert(parent =~= parent.take(n));
        }
    }
    if lies_below(parent, top) {
        assert(name.take(n) =~= parent.take(n));
        assert(name[n] == parent[n]);
    }
}

/// What a project and those below it used stays with them, as long as the project
/// is not merged away itself, whatever merges into closest projects run and in
/// whatever order.
pub proof fn law_merges_stay_within(
    rows: Rows,
    plan: Seq<(Seq<char>, Seq<char>)>,
    top: Seq<char>,
)
    requires
        known(rows, top),
        !merges_away(plan, top),
        forall|k: int|
            0 <= k < plan.len() ==> merge_target(rows, (#[trigger] plan[k]).0) == Some(plan[k].1),
    ensures
        sum_within(merged_all(rows, plan), top) == sum_within(rows, top),
    decreases plan.len(),
{
    if plan.len() > 0 {
        let shorter = plan.drop_last();
        let before = merged_all(rows, shorter);
        let (child, parent) = plan.last();
        assert(plan[plan.len() - 1] == (child, parent));
        assert forall|k: int| 0 <= k < shorter.len() implies merge_target(
            rows,
            (#[trigger] shorter[k]).0,
        ) == Some(shorter[k].1) && shorter[k].0 != top by {
            assert(plan[k] == shorter[k]);
        }
        law_merges_stay_within(rows, shorter, top);
        target_within(rows, child, top);
        if known(before, child) {
            drop_within(before, child, top);
            credit_within(dropped(before, child), parent, used(before, child), top);
        }
    }
}

/// Where the sum of all projects fits, that of each merge does.
pub proof fn law_sum_fits_merges(rows: Rows, plan: Seq<(Seq<char>, Seq<char>)>)
    requires
        sum_of(rows).fits(),
    ensures
        merges_fit(rows, plan),
    decreases plan.len(),
{
    if plan.len() > 0 {
        law_sum_fits_merges(rows, plan.drop_last());
        law_merges_keep_sum(rows, plan.drop_last());
        let before = merged_all(rows, plan.drop_last());
        let (child, parent) = plan.last();
        law_dropped_sum(before, child);
        law_dropped_sum(dropped(before, child), parent);
    }
}

/// The plan merges the project `name` into another.
pub open spec fn merges_away(plan: Seq<(Seq<char>, Seq<char>)>, name: Seq<char>) -> bool {
    exists|i: int| 0 <= i < plan.len() && (#[trigger] plan[i]).0 == name
}

/// What the plan merges into the project `name`.
pub open spec fn gathered(
    rows: Rows,
    plan: Seq<(Seq<char>, Seq<char>)>,
    name: Seq<char>,
) -> Totals
    decreases plan.len(),
{
    if plan.len() == 0 {
        Totals::zero()
    } else if plan.last().1 == name {
        gathered(rows, plan.drop_last(), name).plus(used(rows, plan.last().0))
    } else {
        gathered(rows, plan.drop_last(), name)
    }
}

/// No project is merged twice, and none into one that is itself merged.
pub open spec fn one_level(plan: Seq<(Seq<char>, Seq<char>)>) -> bool {
    &&& forall|i: int, j: int|
        0 <= i < plan.len() && 0 <= j < plan.len() ==> (#[trigger] plan[i]).0 != (
        #[trigger] plan[j]).1
    &&& forall|i: int, j: int|
        0 <= i < j < plan.len() ==> (#[trigger] plan[i]).0 != (#[trigger] plan[j]).0
}

proof fn plan_of_first(rows: Rows, n: int)
    requires
        0 <= n <= rows.len(),
    ensures
        forall|k: int|
            0 <= k < merge_plan(rows, n).len() ==> {
                let step = #[trigger] merge_plan(rows, n)[k];
                &&& merge_target(rows, step.0) == Some(step.1)
                &&& exists|i: int|
                    0 <= i < n && (#[trigger] rows[i]).0 == step.0 && rows[i].1.sessions
                        <= merge_limit()
            },
        forall|i: int|
            0 <= i < n && (#[trigger] rows[i]).1.sessions <= merge_limit() && merge_target(
                rows,
                rows[i].0,
            ) is Some ==> merges_away(merge_plan(rows, n), rows[i].0),
    decreases n,
{
    if n > 0 {
        plan_of_first(rows, n - 1);
        let shorter = merge_plan(rows, n - 1);
        let plan = merge_plan(rows, n);
        assert forall|name: Seq<char>| merges_away(shorter, name) implies #[trigger] merges_away(
            plan,
            name,
        ) by {
            let k = choose|k: int| 0 <= k < shorter.len() && (#[trigger] shorter[k]).0 == name;
            assert(plan[k].0 == name);
        }
        let last = rows[n - 1];
        if last.1.sessions <= merge_limit() && merge_target(rows, last.0) is Some {
            assert(plan[plan.len() - 1].0 == last.0);
        }
        assert forall|k: int| 0 <= k < plan.len() implies {
            let step = #[trigger] plan[k];
            &&& merge_target(rows, step.0) == Some(step.1)
            &&& exists|i: int|
                0 <= i < n && (#[trigger] rows[i]).0 == step.0 && rows[i].1.sessions
                    <= merge_limit()
        } by {
            if k < shorter.len() {
                assert(plan[k] == shorter[k]);
            } else {
                assert(rows[n - 1].0 == plan[k].0);
            }
        }
    }
}

/// A project is merged if it has few sessions and lies below another one, and
/// then into the closest one above it.
pub proof fn law_plan(rows: Rows, name: Seq<char>)
    requires
        distinct(rows),
    ensures
        merges_away(merge_plan(rows, rows.len() as int), name) <==> known(rows, name) && used(
            rows,
            name,
        ).sessions <= merge_limit() && merge_target(rows, name) is Some,
        forall|k: int|
            0 <= k < merge_plan(rows, rows.len() as int).len() ==> {
                let step = #[trigger] merge_plan(rows, rows.len() as int)[k];
                merge_target(rows, step.0) == Some(step.1)
            },
{
    let plan = merge_plan(rows, rows.len() as int);
    plan_of_first(rows, rows.len() as int);
    if merges_away(plan, name) {
        let k = choose|k: int| 0 <= k < plan.len() && (#[trigger] plan[k]).0 == name;
        let i = choose|i: int|
            0 <= i < rows.len() && (#[trigger] rows[i]).0 == plan[k].0 && rows[i].1.sessions
                <= merge_limit();
        place_is(rows, name, i);
    }
    if known(rows, name) {
        let i = place(rows, name);
        assert(stands_at(rows, name, i));
        assert(rows[i].0 == name);
    }
}

/// A project with more than a few sessions keeps its row and all it used.
pub proof fn law_large_projects_stay(rows: Rows, name: Seq<char>)
    requires
        distinct(rows),
        known(rows, name),
        used(rows, name).sessions > merge_limit(),
    ensures
        known(merged_all(rows, merge_plan(rows, rows.len() as int)), name),
        used(merged_all(rows, merge_plan(rows, rows.len() as int)), name).covers(used(rows, name)),
{
    law_plan(rows, name);
    law_others_stay(rows, merge_plan(rows, rows.len() as int), name);
}

/// A project that is not merged away stays, with all it used.
pub proof fn law_others_stay(rows: Rows, plan: Seq<(Seq<char>, Seq<char>)>, name: Seq<char>)
    requires
        distinct(rows),
        known(rows, name),
        !merges_away(plan, name),
    ensures
        known(merged_all(rows, plan), name),
        used(merged_all(rows, plan), name).covers(used(rows, name)),
    decreases plan.len(),
{
    if plan.len() > 0 {
        let shorter = plan.drop_last();
        let before = merged_all(rows, shorter);
        let (child, parent) = plan.last();
        assert(child != name);
        assert forall|i: int| 0 <= i < shorter.len() implies (#[trigger] shorter[i]).0 != name by {
            assert(plan[i].0 != name);
        }
        law_others_stay(rows, shorter, name);
        law_merges_stay_distinct(rows, shorter);
        law_dropped_rows(before, child, name);
        law_rows_stay_distinct(before, child, Totals::zero());
        law_credited_rows(dropped(before, child), parent, used(before, child), name);
    }
}

/// Where no project is merged into one that is itself merged, the order of the
/// merges does not matter: a project that is merged away is gone, and one that
/// stays has what it used and what its subdirectories used.
pub proof fn law_one_level_merges(rows: Rows, plan: Seq<(Seq<char>, Seq<char>)>, name: Seq<char>)
    requires
        distinct(rows),
        one_level(plan),
    ensures
        merges_away(plan, name) && known(rows, name) ==> !known(merged_all(rows, plan), name),
        !merges_away(plan, name) ==> used(merged_all(rows, plan), name) == used(rows, name).plus(
            gathered(rows, plan, name),
        ),
    decreases plan.len(),
{
    if plan.len() > 0 {
        let shorter = plan.drop_last();
        let before = merged_all(rows, shorter);
        let (child, parent) = plan.last();
        assert(plan[plan.len() - 1] == (child, parent));
        assert(one_level(shorter)) by {
            assert forall|i: int, j: int|
                0 <= i < shorter.len() && 0 <= j < shorter.len() implies (
            #[trigger] shorter[i]).0 != (#[trigger] shorter[j]).1 by {
                assert(plan[i].0 != plan[j].1);
            }
            assert forall|i: int, j: int| 0 <= i < j < shorter.len() implies (
            #[trigger] shorter[i]).0 != (#[trigger] shorter[j]).0 by {
                assert(plan[i].0 != plan[j].0);
            }
        }
        assert(!merges_away(shorter, child)) by {
            assert forall|i: int| 0 <= i < shorter.len() implies (
            #[trigger] shorter[i]).0 != child by {
                assert(plan[i].0 != plan[plan.len() - 1].0);
            }
        }
        assert(gathered(rows, shorter, child) == Totals::zero()) by {
            assert forall|i: int| 0 <= i < shorter.len() implies (
            #[trigger] shorter[i]).1 != child by {
                assert(plan[plan.len() - 1].0 != plan[i].1);
            }
            nothing_gathered(rows, shorter, child);
        }
        assert(merges_away(plan, name) == (merges_away(shorter, name) || name == child)) by {
            if merges_away(plan, name) && name != child {
                let i = choose|i: int| 0 <= i < plan.len() && (#[trigger] plan[i]).0 == name;
                assert(shorter[i].0 == name);
            }
            if merges_away(shorter, name) {
                let i = choose|i: int| 0 <= i < shorter.len() && (#[trigger] shorter[i]).0 == name;
                assert(plan[i].0 == name);
            }
        }
        if merges_away(plan, name) {
            let i = choose|i: int| 0 <= i < plan.len() && (#[trigger] plan[i]).0 == name;
            assert(plan[i].0 != plan[plan.len() - 1].1);
        }
        law_one_level_merges(rows, shorter, name);
        law_one_level_merges(rows, shorter, child);
        law_merges_stay_distinct(rows, shorter);
        law_dropped_rows(before, child, name);
        law_dropped_rows(before, child, parent);
        law_rows_stay_distinct(before, child, Totals::zero());
        law_credited_rows(dropped(before, child), parent, used(before, child), name);
    }
}

proof fn nothing_gathered(rows: Rows, plan: Seq<(Seq<char>, Seq<char>)>, name: Seq<char>)
    requires
        forall|i: int| 0 <= i < plan.len() ==> (#[trigger] plan[i]).1 != name,
    ensures
        gathered(rows, plan, name) == Totals::zero(),
    decreases plan.len(),
{
    if plan.len() > 0 {
        assert forall|i: int| 0 <= i < plan.drop_last().len() implies (
        #[trigger] plan.drop_last()[i]).1 != name by {
            assert(plan[i].1 != name);
        }
        nothing_gathered(rows, plan.drop_last(), name);
    }
}

/// Whether `name` lies below the project `parent`.
fn is_below(name: &str, parent: &str) -> (r: bool)
    ensures
        r == lies_below(name@, parent@),
{
    let mut prefix = parent.to_string();
    prefix.push('/');
    starts_with(name, prefix.as_str())
}

/// The index of the closest of the projects above `name`.
fn closest_parent(table: &StatsTable, name: &str) -> (r: Option<usize>)
    ensures
        match r {
            Some(i) => i < table@.len() && merge_target(table@, name@) == Some(table@[i as int].0),
            None => merge_target(table@, name@) is None,
        },
{
    let mut best: Option<usize> = None;
    let mut i: usize = 0;
    while i < table.len()
        invariant
            i <= table@.len(),
            match best {
                Some(b) => {
                    &&& b < i
                    &&& lies_below(name@, table@[b as int].0)
                    &&& forall|j: int|
                        0 <= j < i && lies_below(name@, #[trigger] table@[j].0)
                            ==> table@[j].0.len() <= table@[b as int].0.len()
                },
                None => forall|j: int|
                    0 <= j < i ==> !lies_below(name@, #[trigger] table@[j].0),
            },
        decreases table@.len() - i,
    {
        if is_below(name, table.name_at(i)) {
            best = match best {
                Some(b) => if table.name_at(b).unicode_len() < table.name_at(i).unicode_len() {
                    Some(i)
                } else {
                    Some(b)
                },
                None => Some(i),
            };
        }
        i += 1;
    }
    proof {
        assert forall|other: Seq<char>| #[trigger]
            known(table@, other) && lies_below(name@, other) implies best is Some && other.len()
            <= table@[best->0 as int].0.len() by {
            let k = place(table@, other);
            assert(stands_at(table@, other, k));
            assert(lies_below(name@, table@[k].0));
        }
        if best is Some {
            let parent = table@[best->0 as int].0;
            assert(stands_at(table@, parent, best->0 as int));
            assert(closest_above(table@, name@, parent));
            law_closest_unique(table@, name@, parent, merge_target(table@, name@)->0);
        }
    }
    best
}

/// Merges each project with few sessions into the closest one above it.
///
/// The merges run in the order of the rows. Where a project above is itself
/// merged, what comes later opens it again.
pub fn merge_subdirs(stats: StatsTable) -> (r: StatsTable)
    requires
        stats.wf(),
        merges_fit(stats@, merge_plan(stats@, stats@.len() as int)),
    ensures
        r.wf(),
        r@ == merged_all(stats@, merge_plan(stats@, stats@.len() as int)),
{
    let ghost rows = stats@;
    let ghost all = merge_plan(rows, rows.len() as int);
    let mut plan: Vec<(String, String)> = Vec::new();
    let mut i: usize = 0;
    while i < stats.len()
        invariant
            i <= stats@.len(),
            stats@ == rows,
            planned(plan@) == merge_plan(rows, i as int),
        decreases stats@.len() - i,
    {
        let name = stats.name_at(i);
        let parent = closest_parent(&stats, name);
        if let Some(parent) = parent {
            if stats.stats_at(i).sessions <= 5 {
                let ghost before = planned(plan@);
                plan.push((name.to_string(), stats.name_at(parent).to_string()));
                assert(planned(plan@) =~= before.push((rows[i as int].0, rows[parent as int].0)));
            }
        }
        i += 1;
    }
    let mut table = stats;
    let mut k: usize = 0;
    assert(all.take(0) =~= Seq::empty());
    while k < plan.len()
        invariant
            k <= plan@.len(),
            planned(plan@) == all,
            table.wf(),
            table@ == merged_all(rows, all.take(k as int)),
            merges_fit(rows, all),
        decreases plan@.len() - k,
    {
        proof {
            fits_before(rows, all, k + 1);
            assert(all.take(k + 1).drop_last() =~= all.take(k as int));
        }
        let child = plan[k].0.as_str();
        if let Some(child_stats) = table.remove(child) {
            table.credit(plan[k].1.as_str(), &child_stats);
        }
        k += 1;
    }
    assert(all.take(k as int) =~= all);
    table
}

/// What a list of merges holds.
spec fn planned(list: Seq<(String, String)>) -> Seq<(Seq<char>, Seq<char>)> {
    Seq::new(list.len(), |i: int| (list[i].0@, list[i].1@))
}

proof fn fits_before(rows: Rows, plan: Seq<(Seq<char>, Seq<char>)>, n: int)
    requires
        merges_fit(rows, plan),
        0 <= n <= plan.len(),
    ensures
        merges_fit(rows, plan.take(n)),
    decreases plan.len(),
{
    if n == plan.len() {
        assert(plan.take(n) =~= plan);
    } else {
        fits_before(rows, plan.drop_last(), n);
        assert(plan.drop_last().take(n) =~= plan.take(n));
    }
}

/// What lies below a project is what has its name, a slash and more for a name.
proof fn below_splits(name: Seq<char>, parent: Seq<char>)
    ensures
        lies_below(name, parent) <==> exists|rest: Seq<char>| name == #[trigger] (parent + "/"@
            + rest),
{
    reveal_strlit("/");
    let n = parent.len() as int;
    below_begins(name, parent);
    if lies_below(name, parent) {
        assert(name =~= parent + "/"@ + name.skip(n + 1));
    }
    if exists|rest: Seq<char>| name == #[trigger] (parent + "/"@ + rest) {
        let rest = choose|rest: Seq<char>| name == #[trigger] (parent + "/"@ + rest);
        assert(name.take(n) =~= parent);
        assert(name[n] == '/');
    }
}

/// A project `{parent}/{rest}` is merged into `parent`, if no known project with a
/// longer name has it below itself.
pub proof fn law_target_is_closest(rows: Rows, parent: Seq<char>, rest: Seq<char>)
    requires
        known(rows, parent),
        forall|other: Seq<char>, more: Seq<char>|
            known(rows, other) && parent + "/"@ + rest == #[trigger] (other + "/"@ + more)
                ==> other.len() <= parent.len(),
    ensures
        merge_target(rows, parent + "/"@ + rest) == Some(parent),
{
    let name = parent + "/"@ + rest;
    below_splits(name, parent);
    assert forall|other: Seq<char>| #[trigger]
        known(rows, other) && lies_below(name, other) implies other.len() <= parent.len() by {
        below_splits(name, other);
    }
    assert(closest_above(rows, name, parent));
    law_closest_unique(rows, name, parent, merge_target(rows, name)->0);
}

/// A project without a known one above it is merged into none.
pub proof fn law_no_target(rows: Rows, name: Seq<char>)
    requires
        forall|other: Seq<char>, more: Seq<char>|
            known(rows, other) ==> name != #[trigger] (other + "/"@ + more),
    ensures
        merge_target(rows, name) is None,
{
    assert forall|parent: Seq<char>| !closest_above(rows, name, parent) by {
        below_splits(name, parent);
    }
}

/// The projects that are merged away are those with at most five sessions and a
/// known project above them, each into the closest one.
pub proof fn law_merged_projects(rows: Rows, name: Seq<char>)
    requires
        distinct(rows),
    ensures
        (exists|k: int|
            0 <= k < merge_plan(rows, rows.len() as int).len() && (
            #[trigger] merge_plan(rows, rows.len() as int)[k]).0 == name) <==> {
            &&& known(rows, name)
            &&& used(rows, name).sessions <= 5
            &&& exists|parent: Seq<char>, rest: Seq<char>|
                known(rows, parent) && name == #[trigger] (parent + "/"@ + rest)
        },
{
    law_plan(rows, name);
    if exists|parent: Seq<char>, rest: Seq<char>|
        known(rows, parent) && name == #[trigger] (parent + "/"@ + rest) {
        let (parent, rest) = choose|parent: Seq<char>, rest: Seq<char>|
            known(rows, parent) && name == #[trigger] (parent + "/"@ + rest);
        below_splits(name, parent);
        law_merged_into_closest(rows, name, parent);
    }
    if merge_target(rows, name) is Some {
        let parent = merge_target(rows, name)->0;
        assert(closest_above(rows, name, parent));
        below_splits(name, parent);
    }
}

/// No two steps of the plan merge the same project.
proof fn plan_merges_once(rows: Rows, n: int)
    requires
        distinct(rows),
        0 <= n <= rows.len(),
    ensures
        forall|i: int, j: int|
            0 <= i < j < merge_plan(rows, n).len() ==> (#[trigger] merge_plan(rows, n)[i]).0 != (
            #[trigger] merge_plan(rows, n)[j]).0,
    decreases n,
{
    if n > 0 {
        plan_merges_once(rows, n - 1);
        plan_of_first(rows, n - 1);
        let shorter = merge_plan(rows, n - 1);
        let plan = merge_plan(rows, n);
        assert forall|i: int, j: int| 0 <= i < j < plan.len() implies (#[trigger] plan[i]).0 != (
        #[trigger] plan[j]).0 by {
            assert(plan[i] == shorter[i]);
            if j < shorter.len() {
                assert(plan[j] == shorter[j]);
            } else {
                let k = choose|k: int|
                    0 <= k < n - 1 && (#[trigger] rows[k]).0 == shorter[i].0 && rows[k].1.sessions
                        <= merge_limit();
                assert(rows[k].0 != rows[n - 1].0);
            }
        }
    }
}

/// One step of a plan changes no project but the two that it names.
proof fn step_touches_two(
    rows: Rows,
    child: Seq<char>,
    parent: Seq<char>,
    name: Seq<char>,
)
    requires
        distinct(rows),
    ensures
        name != child && name != parent ==> known(merged(rows, child, parent), name) == known(
            rows,
            name,
        ) && used(merged(rows, child, parent), name) == used(rows, name),
        name == parent && name != child ==> used(merged(rows, child, parent), name) == if known(
            rows,
            child,
        ) {
            used(rows, name).plus(used(rows, child))
        } else {
            used(rows, name)
        },
        name == child && name != parent ==> !known(merged(rows, child, parent), name),
{
    law_dropped_rows(rows, child, name);
    law_rows_stay_distinct(rows, child, Totals::zero());
    law_credited_rows(dropped(rows, child), parent, used(rows, child), name);
}

proof fn merged_is_gone(rows: Rows, plan: Seq<(Seq<char>, Seq<char>)>, name: Seq<char>)
    requires
        distinct(rows),
        merges_away(plan, name),
        forall|k: int| 0 <= k < plan.len() ==> (#[trigger] plan[k]).1 != name,
    ensures
        !known(merged_all(rows, plan), name),
    decreases plan.len(),
{
    let shorter = plan.drop_last();
    let (child, parent) = plan.last();
    assert(plan[plan.len() - 1] == (child, parent));
    law_merges_stay_distinct(rows, shorter);
    step_touches_two(merged_all(rows, shorter), child, parent, name);
    if child != name {
        let k = choose|k: int| 0 <= k < plan.len() && (#[trigger] plan[k]).0 == name;
        assert(shorter[k].0 == name);
        assert forall|i: int| 0 <= i < shorter.len() implies (#[trigger] shorter[i]).1 != name by {
            assert(plan[i].1 != name);
        }
        merged_is_gone(rows, shorter, name);
    }
}

proof fn target_receives(
    rows: Rows,
    plan: Seq<(Seq<char>, Seq<char>)>,
    child: Seq<char>,
    parent: Seq<char>,
    k: int,
)
    requires
        distinct(rows),
        0 <= k < plan.len(),
        plan[k] == (child, parent),
        known(rows, child),
        known(rows, parent),
        !merges_away(plan, parent),
        forall|i: int, j: int|
            0 <= i < j < plan.len() ==> (#[trigger] plan[i]).0 != (#[trigger] plan[j]).0,
    ensures
        used(merged_all(rows, plan), parent).covers(used(rows, parent).plus(used(rows, child))),
    decreases plan.len(),
{
    let shorter = plan.drop_last();
    let before = merged_all(rows, shorter);
    let last = plan.len() - 1;
    assert(plan[last] == plan.last());
    assert forall|i: int| 0 <= i < shorter.len() implies (#[trigger] shorter[i]).0 != parent by {
        assert(plan[i].0 != parent);
    }
    assert(!merges_away(shorter, parent));
    assert(child != parent);
    assert(plan.last().0 != parent);
    law_merges_stay_distinct(rows, shorter);
    step_touches_two(before, plan.last().0, plan.last().1, parent);
    if k == last {
        assert forall|i: int| 0 <= i < shorter.len() implies (#[trigger] shorter[i]).0 != child by {
            assert(plan[i].0 != plan[last].0);
        }
        law_others_stay(rows, shorter, parent);
        law_others_stay(rows, shorter, child);
    } else {
        assert forall|i: int, j: int| 0 <= i < j < shorter.len() implies (#[trigger] shorter[i]).0
            != (#[trigger] shorter[j]).0 by {
            assert(plan[i].0 != plan[j].0);
        }
        assert(shorter[k] == plan[k]);
        target_receives(rows, shorter, child, parent, k);
    }
}

/// A project with at most five sessions is gone after the merges, if none lies
/// below it, and the closest project above it has what it used on top of its own,
/// if that one is not merged itself: it has more than five sessions, or none above
/// it.
pub proof fn law_small_subdirectory(rows: Rows, parent: Seq<char>, rest: Seq<char>)
    requires
        distinct(rows),
        known(rows, parent),
        known(rows, parent + "/"@ + rest),
        used(rows, parent).sessions > 5 || forall|other: Seq<char>, more: Seq<char>|
            known(rows, other) ==> parent != #[trigger] (other + "/"@ + more),
        used(rows, parent + "/"@ + rest).sessions <= 5,
        forall|other: Seq<char>, more: Seq<char>|
            known(rows, other) && parent + "/"@ + rest == #[trigger] (other + "/"@ + more)
                ==> other.len() <= parent.len(),
        forall|more: Seq<char>| !known(rows, #[trigger] (parent + "/"@ + rest + "/"@ + more)),
    ensures
        ({
            let after = merged_all(rows, merge_plan(rows, rows.len() as int));
            let child = parent + "/"@ + rest;
            &&& !known(after, child)
            &&& known(after, parent)
            &&& used(after, parent).input_tokens >= used(rows, parent).input_tokens + used(
                rows,
                child,
            ).input_tokens
            &&& used(after, parent).output_tokens >= used(rows, parent).output_tokens + used(
                rows,
                child,
            ).output_tokens
            &&& used(after, parent).cost >= used(rows, parent).cost + used(rows, child).cost
            &&& used(after, parent).sessions >= used(rows, parent).sessions + used(
                rows,
                child,
            ).sessions
        }),
{
    let plan = merge_plan(rows, rows.len() as int);
    let child = parent + "/"@ + rest;
    law_target_is_closest(rows, parent, rest);
    law_plan(rows, child);
    law_plan(rows, parent);
    plan_merges_once(rows, rows.len() as int);
    plan_of_first(rows, rows.len() as int);
    assert forall|k: int| 0 <= k < plan.len() implies (#[trigger] plan[k]).1 != child by {
        let name = plan[k].0;
        assert(merge_target(rows, name) == Some(plan[k].1));
        assert(closest_above(rows, name, plan[k].1));
        if plan[k].1 == child {
            below_splits(name, child);
            let more = choose|more: Seq<char>| name == #[trigger] (child + "/"@ + more);
            assert(!known(rows, parent + "/"@ + rest + "/"@ + more));
            let i = choose|i: int|
                0 <= i < rows.len() && (#[trigger] rows[i]).0 == name && rows[i].1.sessions
                    <= merge_limit();
            assert(stands_at(rows, name, i));
        }
    }
    merged_is_gone(rows, plan, child);
    law_merged_projects(rows, parent);
    law_others_stay(rows, plan, parent);
    let k = choose|k: int| 0 <= k < plan.len() && (#[trigger] plan[k]).0 == child;
    assert(plan[k] == (child, parent));
    target_receives(rows, plan, child, parent, k);
}

proof fn untouched(rows: Rows, plan: Seq<(Seq<char>, Seq<char>)>, name: Seq<char>)
    requires
        distinct(rows),
        forall|k: int|
            0 <= k < plan.len() ==> (#[trigger] plan[k]).0 != name && plan[k].1 != name,
    ensures
        known(merged_all(rows, plan), name) == known(rows, name),
        used(merged_all(rows, plan), name) == used(rows, name),
    decreases plan.len(),
{
    if plan.len() > 0 {
        let shorter = plan.drop_last();
        assert forall|k: int| 0 <= k < shorter.len() implies (#[trigger] shorter[k]).0 != name
            && shorter[k].1 != name by {
            assert(plan[k] == shorter[k]);
        }
        untouched(rows, shorter, name);
        assert(plan[plan.len() - 1] == plan.last());
        law_merges_stay_distinct(rows, shorter);
        step_touches_two(merged_all(rows, shorter), plan.last().0, plan.last().1, name);
    }
}

/// A project that has none below it is left as it is, if it has more than five
/// sessions or none above it.
pub proof fn law_untouched_project(rows: Rows, name: Seq<char>)
    requires
        distinct(rows),
        known(rows, name),
        forall|more: Seq<char>| !known(rows, #[trigger] (name + "/"@ + more)),
        used(rows, name).sessions > 5 || forall|other: Seq<char>, more: Seq<char>|
            known(rows, other) ==> name != #[trigger] (other + "/"@ + more),
    ensures
        known(merged_all(rows, merge_plan(rows, rows.len() as int)), name),
        used(merged_all(rows, merge_plan(rows, rows.len() as int)), name) == used(rows, name),
{
    let plan = merge_plan(rows, rows.len() as int);
    law_merged_projects(rows, name);
    law_plan(rows, name);
    plan_of_first(rows, rows.len() as int);
    assert forall|k: int| 0 <= k < plan.len() implies (#[trigger] plan[k]).0 != name && plan[k].1
        != name by {
        let child = plan[k].0;
        assert(merge_target(rows, child) == Some(plan[k].1));
        assert(closest_above(rows, child, plan[k].1));
        if plan[k].1 == name {
            below_splits(child, name);
            let more = choose|more: Seq<char>| child == #[trigger] (name + "/"@ + more);
            let i = choose|i: int|
                0 <= i < rows.len() && (#[trigger] rows[i]).0 == child && rows[i].1.sessions
                    <= merge_limit();
            assert(stands_at(rows, child, i));
            assert(known(rows, name + "/"@ + more));
        }
    }
    untouched(rows, plan, name);
}

/// The merges make no project known that was not known before.
pub proof fn law_no_new_projects(rows: Rows, plan: Seq<(Seq<char>, Seq<char>)>, name: Seq<char>)
    requires
        distinct(rows),
        forall|k: int| 0 <= k < plan.len() ==> known(rows, (#[trigger] plan[k]).1),
        known(merged_all(rows, plan), name),
    ensures
        known(rows, name),
    decreases plan.len(),
{
    if plan.len() > 0 {
        let shorter = plan.drop_last();
        let (child, parent) = plan.last();
        assert(plan[plan.len() - 1] == (child, parent));
        assert forall|k: int| 0 <= k < shorter.len() implies known(
            rows,
            (#[trigger] shorter[k]).1,
        ) by {
            assert(plan[k] == shorter[k]);
        }
        law_merges_stay_distinct(rows, shorter);
        if name != parent {
            step_touches_two(merged_all(rows, shorter), child, parent, name);
            assert(known(merged_all(rows, shorter), name));
            law_no_new_projects(rows, shorter, name);
        }
    }
}

/// The merges run one after the other. Each takes the row of a project that is
/// still there away and adds what it used to the other project, which is opened
/// again if it was merged away before. A project that is no longer there is not
/// merged, and no other project changes.
pub proof fn law_merge_step(
    rows: Rows,
    plan: Seq<(Seq<char>, Seq<char>)>,
    child: Seq<char>,
    parent: Seq<char>,
    other: Seq<char>,
)
    requires
        distinct(rows),
        child != parent,
    ensures
        ({
            let before = merged_all(rows, plan);
            let after = merged_all(rows, plan.push((child, parent)));
            &&& known(before, child) ==> {
                &&& !known(after, child)
                &&& known(after, parent)
                &&& used(after, parent).input_tokens == used(before, parent).input_tokens + used(
                    before,
                    child,
                ).input_tokens
                &&& used(after, parent).output_tokens == used(before, parent).output_tokens + used(
                    before,
                    child,
                ).output_tokens
                &&& used(after, parent).cost == used(before, parent).cost + used(before, child).cost
                &&& used(after, parent).sessions == used(before, parent).sessions + used(
                    before,
                    child,
                ).sessions
                &&& other != child && other != parent ==> known(after, other) == known(before, other)
                    && used(after, other) == used(before, other)
            }
            &&& !known(before, child) ==> after == before
        }),
{
    let before = merged_all(rows, plan);
    assert(plan.push((child, parent)).drop_last() =~= plan);
    law_merges_stay_distinct(rows, plan);
    step_touches_two(before, child, parent, child);
    step_touches_two(before, child, parent, parent);
    step_touches_two(before, child, parent, other);
    law_rows_stay_distinct(before, child, Totals::zero());
    law_credited_rows(dropped(before, child), parent, used(before, child), parent);
}

/// Without a plan nothing is merged.
pub proof fn law_no_merges(rows: Rows)
    ensures
        merged_all(rows, Seq::empty()) == rows,
{
}

} // verus!
