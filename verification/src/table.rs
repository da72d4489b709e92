//! The projects of a report and what each of them used.

use vstd::prelude::*;

use crate::stats::{ProjectStats, Totals};
use crate::text::same_text;

verus! {

/// Projects and what they used, in the order in which they came up.
pub type Rows = Seq<(Seq<char>, Totals)>;

/// The project `name` stands at the index `i`.
pub open spec fn stands_at(rows: Rows, name: Seq<char>, i: int) -> bool {
    0 <= i < rows.len() && rows[i].0 == name
}

/// The project `name` is among the rows.
pub open spec fn known(rows: Rows, name: Seq<char>) -> bool {
    exists|i: int| stands_at(rows, name, i)
}

/// The index of the project `name`.
pub open spec fn place(rows: Rows, name: Seq<char>) -> int {
    choose|i: int| stands_at(rows, name, i)
}

/// No project stands in two rows.
pub open spec fn distinct(rows: Rows) -> bool {
    forall|i: int, j: int| 0 <= i < j < rows.len() ==> rows[i].0 != rows[j].0
}

/// What the project `name` used; nothing if it is not among the rows.
pub open spec fn used(rows: Rows, name: Seq<char>) -> Totals {
    if known(rows, name) {
        rows[place(rows, name)].1
    } else {
        Totals::zero()
    }
}

/// The rows with one for `name`.
pub open spec fn opened(rows: Rows, name: Seq<char>) -> Rows {
    if known(rows, name) {
        rows
    } else {
        rows.push((name, Totals::zero()))
    }
}

/// The rows with `more` added to what `name` used.
pub open spec fn credited(rows: Rows, name: Seq<char>, more: Totals) -> Rows {
    let open = opened(rows, name);
    open.update(place(open, name), (name, used(rows, name).plus(more)))
}

/// The rows without that of `name`.
pub open spec fn dropped(rows: Rows, name: Seq<char>) -> Rows {
    if known(rows, name) {
        rows.remove(place(rows, name))
    } else {
        rows
    }
}

/// What all projects used together.
pub open spec fn sum_of(rows: Rows) -> Totals
    decreases rows.len(),
{
    if rows.len() == 0 {
        Totals::zero()
    } else {
        sum_of(rows.drop_last()).plus(rows.last().1)
    }
}

/// Tokens come from sessions, and cost no more than the highest price.
pub open spec fn plausible(rows: Rows) -> bool {
    forall|i: int| 0 <= i < rows.len() ==> (#[trigger] rows[i]).1.plausible()
}

/// The sum with one more row.
pub proof fn sum_with_row(rows: Rows, row: (Seq<char>, Totals))
    ensures
        sum_of(rows.push(row)) == sum_of(rows).plus(row.1),
{
    assert(rows.push(row).drop_last() =~= rows);
}

/// The sum without one row, and with another in its place.
pub proof fn sum_without_row(rows: Rows, i: int)
    requires
        0 <= i < rows.len(),
    ensures
        sum_of(rows) == sum_of(rows.remove(i)).plus(rows[i].1),
        forall|row: (Seq<char>, Totals)| #[trigger]
            sum_of(rows.update(i, row)) == sum_of(rows.remove(i)).plus(row.1),
    decreases rows.len(),
{
    if i == rows.len() - 1 {
        assert(rows.remove(i) =~= rows.drop_last());
        assert forall|row: (Seq<char>, Totals)| #[trigger]
            sum_of(rows.update(i, row)) == sum_of(rows.remove(i)).plus(row.1) by {
            assert(rows.update(i, row).drop_last() =~= rows.drop_last());
        }
    } else {
        sum_without_row(rows.drop_last(), i);
        assert(rows.remove(i).drop_last() =~= rows.drop_last().remove(i));
        assert forall|row: (Seq<char>, Totals)| #[trigger]
            sum_of(rows.update(i, row)) == sum_of(rows.remove(i)).plus(row.1) by {
            assert(rows.update(i, row).drop_last() =~= rows.drop_last().update(i, row));
            assert(sum_of(rows.drop_last().update(i, row)) == sum_of(
                rows.drop_last().remove(i),
            ).plus(row.1));
        }
    }
}

/// What the first projects used is part of the sum.
pub proof fn law_first_rows_covered(rows: Rows, n: int)
    requires
        0 <= n <= rows.len(),
    ensures
        sum_of(rows).covers(sum_of(rows.take(n))),
    decreases rows.len(),
{
    if n == rows.len() {
        assert(rows.take(n) =~= rows);
    } else {
        law_first_rows_covered(rows.drop_last(), n);
        assert(rows.drop_last().take(n) =~= rows.take(n));
    }
}

/// What one project used is part of the sum, and what is left is that of the
/// others.
pub proof fn law_dropped_sum(rows: Rows, name: Seq<char>)
    ensures
        sum_of(rows) == sum_of(dropped(rows, name)).plus(used(rows, name)),
{
    if known(rows, name) {
        let i = place(rows, name);
        assert(stands_at(rows, name, i));
        sum_without_row(rows, i);
    }
}

/// What is added to one project is added to the sum.
pub proof fn law_credited_sum(rows: Rows, name: Seq<char>, more: Totals)
    ensures
        sum_of(credited(rows, name, more)) == sum_of(rows).plus(more),
{
    let open = opened(rows, name);
    if !known(rows, name) {
        assert(stands_at(open, name, open.len() - 1));
        sum_with_row(rows, (name, Totals::zero()));
    }
    let i = place(open, name);
    assert(stands_at(open, name, i));
    sum_without_row(open, i);
    if !known(rows, name) {
        assert(i == rows.len()) by {
            if i < rows.len() {
                assert(stands_at(rows, name, i));
            }
        }
    }
}

/// The project `name` stands at one index only.
pub proof fn place_is(rows: Rows, name: Seq<char>, i: int)
    requires
        distinct(rows),
        stands_at(rows, name, i),
    ensures
        known(rows, name),
        place(rows, name) == i,
        used(rows, name) == rows[i].1,
{
    assert(stands_at(rows, name, place(rows, name)));
}

/// Removing a project touches no other.
pub proof fn law_dropped_rows(rows: Rows, name: Seq<char>, other: Seq<char>)
    requires
        distinct(rows),
    ensures
        known(dropped(rows, name), other) == (known(rows, other) && other != name),
        used(dropped(rows, name), other) == if other == name {
            Totals::zero()
        } else {
            used(rows, other)
        },
{
    let less = dropped(rows, name);
    law_rows_stay_distinct(rows, name, Totals::zero());
    if known(rows, name) {
        let at = place(rows, name);
        assert(stands_at(rows, name, at));
        if known(less, other) {
            let i = place(less, other);
            assert(stands_at(less, other, i));
            let before = if i < at {
                i
            } else {
                i + 1
            };
            place_is(rows, other, before);
            assert(other != name);
        }
        if known(rows, other) && other != name {
            let i = place(rows, other);
            assert(stands_at(rows, other, i));
            let after = if i < at {
                i
            } else {
                i - 1
            };
            place_is(less, other, after);
        }
    }
}

/// Adding to a project touches no other.
pub proof fn law_credited_rows(rows: Rows, name: Seq<char>, more: Totals, other: Seq<char>)
    requires
        distinct(rows),
    ensures
        known(credited(rows, name, more), other) == (known(rows, other) || other == name),
        used(credited(rows, name, more), other) == if other == name {
            used(rows, other).plus(more)
        } else {
            used(rows, other)
        },
{
    let open = opened(rows, name);
    let after = credited(rows, name, more);
    law_rows_stay_distinct(rows, name, more);
    if !known(rows, name) {
        assert(stands_at(open, name, rows.len() as int));
    }
    assert(stands_at(open, name, place(open, name)));
    place_is(after, name, place(open, name));
    if other != name {
        if known(rows, other) {
            let i = place(rows, other);
            assert(stands_at(rows, other, i));
            assert(open[i] == rows[i]);
            place_is(after, other, i);
        }
        if known(after, other) {
            let i = place(after, other);
            assert(stands_at(after, other, i));
            assert(stands_at(rows, other, i));
        }
    }
}

/// Adding to a project and removing one leave each project in one row.
pub proof fn law_rows_stay_distinct(rows: Rows, name: Seq<char>, more: Totals)
    requires
        distinct(rows),
    ensures
        distinct(opened(rows, name)),
        distinct(credited(rows, name, more)),
        distinct(dropped(rows, name)),
{
    let open = opened(rows, name);
    if !known(rows, name) {
        assert forall|i: int| 0 <= i < rows.len() implies rows[i].0 != name by {
            assert(!stands_at(rows, name, i));
        }
        assert(stands_at(open, name, open.len() - 1));
    } else {
        assert(stands_at(rows, name, place(rows, name)));
    }
    assert(stands_at(open, name, place(open, name)));
}

/// Adding to a project and removing one keep what each project used plausible.
pub proof fn law_rows_stay_plausible(rows: Rows, name: Seq<char>, more: Totals)
    requires
        plausible(rows),
        more.plausible(),
    ensures
        used(rows, name).plausible(),
        plausible(opened(rows, name)),
        plausible(credited(rows, name, more)),
        plausible(dropped(rows, name)),
{
    if known(rows, name) {
        assert(stands_at(rows, name, place(rows, name)));
    } else {
        assert(stands_at(opened(rows, name), name, rows.len() as int));
    }
    assert(stands_at(opened(rows, name), name, place(opened(rows, name), name)));
}

/// The sum of plausible rows is plausible.
pub proof fn law_sum_plausible(rows: Rows)
    requires
        plausible(rows),
    ensures
        sum_of(rows).plausible(),
    decreases rows.len(),
{
    if rows.len() > 0 {
        law_sum_plausible(rows.drop_last());
    }
}

/// Projects and what they used. No project stands in two rows.
pub struct StatsTable {
    rows: Vec<(String, ProjectStats)>,
}

/// What a list of projects holds.
pub open spec fn listed(list: Seq<(String, ProjectStats)>) -> Rows {
    Seq::new(list.len(), |i: int| (list[i].0@, list[i].1@))
}

impl View for StatsTable {
    type V = Rows;

    closed spec fn view(&self) -> Rows {
        listed(self.rows@)
    }
}

impl StatsTable {
    /// No project stands in two rows.
    pub open spec fn wf(self) -> bool {
        distinct(self@)
    }

    /// A table without projects.
    pub fn new() -> (r: Self)
        ensures
            r.wf(),
            r@ == Rows::empty(),
    {
        let r = StatsTable { rows: Vec::new() };
        assert(r@ =~= Rows::empty());
        r
    }

    /// The index of the project `name`.
    fn position(&self, name: &str) -> (r: Option<usize>)
        requires
            self.wf(),
        ensures
            match r {
                Some(i) => stands_at(self@, name@, i as int) && place(self@, name@) == i,
                None => !known(self@, name@),
            },
    {
        let mut i: usize = 0;
        while i < self.rows.len()
            invariant
                i <= self.rows@.len(),
                distinct(self@),
                forall|j: int| 0 <= j < i ==> self@[j].0 != name@,
            decreases self.rows@.len() - i,
        {
            if same_text(self.rows[i].0.as_str(), name) {
                assert(stands_at(self@, name@, i as int));
                assert(stands_at(self@, name@, place(self@, name@)));
                return Some(i);
            }
            i += 1;
        }
        None
    }

    /// What the project `name` used; nothing if it is not in the table.
    pub fn get(&self, name: &str) -> (r: ProjectStats)
        requires
            self.wf(),
        ensures
            r@ == used(self@, name@),
    {
        match self.position(name) {
            Some(i) => self.rows[i].1,
            None => ProjectStats::default(),
        }
    }

    /// The number of projects.
    pub fn len(&self) -> (r: usize)
        ensures
            r == self@.len(),
    {
        self.rows.len()
    }

    /// The name of the project at the index `i`.
    pub fn name_at(&self, i: usize) -> (r: &str)
        requires
            i < self@.len(),
        ensures
            r@ == self@[i as int].0,
    {
        self.rows[i].0.as_str()
    }

    /// What the project at the index `i` used.
    pub fn stats_at(&self, i: usize) -> (r: ProjectStats)
        requires
            i < self@.len(),
        ensures
            r@ == self@[i as int].1,
    {
        self.rows[i].1
    }

    /// Gives `name` a row, if it has none.
    pub fn open(&mut self, name: &str)
        requires
            old(self).wf(),
        ensures
            final(self).wf(),
            final(self)@ == opened(old(self)@, name@),
    {
        if self.position(name).is_none() {
            self.rows.push((name.to_string(), ProjectStats::default()));
            assert(self@ =~= old(self)@.push((name@, Totals::zero())));
            assert forall|i: int| 0 <= i < old(self)@.len() implies old(self)@[i].0 != name@ by {
                assert(!stands_at(old(self)@, name@, i));
            }
        }
    }

    /// Sets what `name` used.
    pub fn set(&mut self, name: &str, stats: ProjectStats)
        requires
            old(self).wf(),
        ensures
            final(self).wf(),
            final(self)@ == opened(old(self)@, name@).update(
                place(opened(old(self)@, name@), name@),
                (name@, stats@),
            ),
    {
        self.open(name);
        let ghost open = self@;
        match self.position(name) {
            Some(i) => {
                self.rows[i].1 = stats;
                assert(self@ =~= open.update(i as int, (name@, stats@)));
            },
            None => {
                assert(stands_at(open, name@, open.len() - 1));
            },
        }
    }

    /// Adds `more` to what `name` used.
    pub fn credit(&mut self, name: &str, more: &ProjectStats)
        requires
            old(self).wf(),
            used(old(self)@, name@).plus(more@).fits(),
        ensures
            final(self).wf(),
            final(self)@ == credited(old(self)@, name@, more@),
    {
        let mut stats = self.get(name);
        stats.accumulate(more);
        self.set(name, stats);
    }

    /// Removes the row of `name` and gives what it held.
    pub fn remove(&mut self, name: &str) -> (r: Option<ProjectStats>)
        requires
            old(self).wf(),
        ensures
            final(self).wf(),
            final(self)@ == dropped(old(self)@, name@),
            match r {
                Some(stats) => known(old(self)@, name@) && stats@ == used(old(self)@, name@),
                None => !known(old(self)@, name@),
            },
    {
        match self.position(name) {
            Some(i) => {
                let (_, stats) = self.rows.remove(i);
                assert(self@ =~= old(self)@.remove(i as int));
                Some(stats)
            },
            None => None,
        }
    }
}

/// A project is known if a row has its name, and then used what that row says.
pub proof fn law_known_rows(rows: Rows, name: Seq<char>, i: int)
    requires
        distinct(rows),
        0 <= i < rows.len(),
    ensures
        rows[i].0 == name ==> known(rows, name) && used(rows, name) == rows[i].1,
        known(rows, name) <==> exists|k: int| 0 <= k < rows.len() && (#[trigger] rows[k]).0 == name,
{
    if rows[i].0 == name {
        place_is(rows, name, i);
    }
    if known(rows, name) {
        let k = choose|k: int| stands_at(rows, name, k);
        assert(rows[k].0 == name);
    }
    if exists|k: int| 0 <= k < rows.len() && (#[trigger] rows[k]).0 == name {
        let k = choose|k: int| 0 <= k < rows.len() && (#[trigger] rows[k]).0 == name;
        assert(stands_at(rows, name, k));
    }
}

/// A project that no row names used nothing.
pub proof fn law_unknown_rows(rows: Rows, name: Seq<char>)
    requires
        forall|k: int| 0 <= k < rows.len() ==> (#[trigger] rows[k]).0 != name,
    ensures
        !known(rows, name),
        used(rows, name) == Totals::zero(),
{
}

/// Opening a project makes it known, touches no other, and adds to no sum.
pub proof fn law_opened_rows(rows: Rows, name: Seq<char>, other: Seq<char>)
    requires
        distinct(rows),
    ensures
        known(opened(rows, name), other) == (known(rows, other) || other == name),
        used(opened(rows, name), other) == used(rows, other),
        sum_of(opened(rows, name)) == sum_of(rows),
{
    let open = opened(rows, name);
    law_rows_stay_distinct(rows, name, Totals::zero());
    if !known(rows, name) {
        let last = rows.len() as int;
        sum_with_row(rows, (name, Totals::zero()));
        place_is(open, name, last);
        if other != name && known(rows, other) {
            let i = place(rows, other);
            assert(stands_at(rows, other, i));
            assert(open[i] == rows[i]);
            place_is(open, other, i);
        }
        if other != name && known(open, other) {
            let i = place(open, other);
            assert(stands_at(open, other, i));
            assert(stands_at(rows, other, i));
        }
    }
}

/// What all projects used is what the first ones used and what the last one used.
pub proof fn law_sum_of_rows(rows: Rows, name: Seq<char>, last: Totals)
    ensures
        sum_of(Rows::empty()) == Totals::zero(),
        sum_of(rows.push((name, last))).input_tokens == sum_of(rows).input_tokens
            + last.input_tokens,
        sum_of(rows.push((name, last))).output_tokens == sum_of(rows).output_tokens
            + last.output_tokens,
        sum_of(rows.push((name, last))).cache_write_tokens == sum_of(rows).cache_write_tokens
            + last.cache_write_tokens,
        sum_of(rows.push((name, last))).cache_read_tokens == sum_of(rows).cache_read_tokens
            + last.cache_read_tokens,
        sum_of(rows.push((name, last))).cost == sum_of(rows).cost + last.cost,
        sum_of(rows.push((name, last))).sessions == sum_of(rows).sessions + last.sessions,
{
    sum_with_row(rows, (name, last));
}

/// A list of projects holds the name and the sums of each, in the same order.
pub proof fn law_list_rows(list: Seq<(String, ProjectStats)>, i: int)
    requires
        0 <= i < list.len(),
    ensures
        listed(list).len() == list.len(),
        listed(list)[i].0 == list[i].0@,
        listed(list)[i].1 == list[i].1@,
{
}

} // verus!
