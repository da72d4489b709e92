//! Gathering what the sessions on disk used.
//!
//! The caller walks the directories and reads the files. It tells a [`Gather`]
//! what it finds, and is told which files to read and for which project.

use vstd::hash_set::StringHashSet;
use vstd::prelude::*;

use crate::archive::{
    archive_parts, archive_project_key, archive_session_id, archived_text, law_archive_name_parts,
    law_other_archive_name, process_zst,
};
use crate::content::{added, law_session_plausible, parsed_by, process_content, session_totals};
use crate::merge::{
    law_merges_keep_sum, law_merges_stay_distinct, law_merges_stay_plausible,
    law_sum_fits_merges, merge_plan, merge_subdirs, merged_all, merges_fit,
};
use crate::names::{project_name, project_name_from_dir, NameMap};
use crate::period::Period;
use crate::rank::{active, law_active_rows, law_active_sum, law_ranking, rank, ranks, totals_fit};
use crate::stats::{ProjectStats, Totals};
use crate::table::{
    credited, distinct, known, law_credited_rows, law_first_rows_covered, law_opened_rows,
    law_rows_stay_distinct, law_rows_stay_plausible, listed, opened, place, plausible, stands_at,
    sum_of, sum_with_row, sum_without_row, used, Rows, StatsTable,
};
use crate::text::{before_suffix, chars_of, same_text, text_of};
use crate::usage::Message;

verus! {

/// A file that was last changed at `mtime` belongs to the period that begins at
/// `cutoff`. Without a beginning every file does; with one, a file whose time is
/// not known does not.
pub open spec fn in_range(mtime: Option<u64>, cutoff: Option<u64>) -> bool {
    match cutoff {
        None => true,
        Some(first) => mtime matches Some(time) && first <= time,
    }
}

/// Whether a file that was last changed at `mtime_secs` belongs to the period
/// that begins at `cutoff_secs`, both in seconds since the Unix epoch.
pub fn file_in_range(mtime_secs: Option<u64>, cutoff_secs: Option<u64>) -> (r: bool)
    ensures
        r == in_range(mtime_secs, cutoff_secs),
{
    match cutoff_secs {
        None => true,
        Some(cutoff) => match mtime_secs {
            Some(mtime) => mtime >= cutoff,
            None => false,
        },
    }
}

/// What stands in a directory of sessions.
pub enum LogEntry {
    /// The log of the session with this id.
    Session(String),
    /// A directory that may hold more logs.
    Directory,
    /// Anything else.
    Other,
}

/// The session whose log has the name `file_name`: what stands before the ending
/// `.jsonl`, if anything does.
pub open spec fn session_of(file_name: Seq<char>) -> Option<Seq<char>> {
    if file_name.len() > ".jsonl"@.len() && ".jsonl"@.is_suffix_of(file_name) {
        Some(file_name.take(file_name.len() - ".jsonl"@.len()))
    } else {
        None
    }
}

/// Tells what an entry of a directory of sessions is. The name decides first.
pub fn classify_entry(file_name: &str, is_dir: bool) -> (r: LogEntry)
    ensures
        match session_of(file_name@) {
            Some(id) => r matches LogEntry::Session(found) && found@ == id,
            None => if is_dir {
                r is Directory
            } else {
                r is Other
            },
        },
{
    let chars = chars_of(file_name);
    if let Some(n) = before_suffix(&chars, &chars_of(".jsonl")) {
        assert(file_name@.len() == n + ".jsonl"@.len());
        assert(".jsonl"@.is_suffix_of(file_name@)) by {
            assert(file_name@.subrange(n as int, file_name@.len() as int) =~= ".jsonl"@);
        }
        if n > 0 {
            let id = text_of(&chars, 0, n);
            assert(id@ =~= file_name@.take(n as int));
            return LogEntry::Session(id);
        }
    }
    if is_dir {
        LogEntry::Directory
    } else {
        LogEntry::Other
    }
}

/// What has been gathered so far.
pub struct Gathered {
    pub agent: Seq<char>,
    pub names: Map<Seq<char>, Seq<char>>,
    pub cutoff: Option<u64>,
    pub rows: Rows,
    pub seen: Set<Seq<char>>,
}

impl Gathered {
    /// Each project has one row, and what it used is plausible.
    pub open spec fn sound(self) -> bool {
        distinct(self.rows) && plausible(self.rows)
    }

    /// The directory `name` holds the sessions of a project.
    pub open spec fn takes_directory(self, name: Seq<char>, is_dir: bool) -> bool {
        is_dir && name != "memory"@
    }

    /// The name under which the directory `name` is reported.
    pub open spec fn project(self, name: Seq<char>) -> Seq<char> {
        project_name(name, self.names, self.agent)
    }

    /// After the directory `name` came up.
    pub open spec fn after_directory(self, name: Seq<char>, is_dir: bool) -> Gathered {
        if self.takes_directory(name, is_dir) {
            Gathered { rows: opened(self.rows, self.project(name)), ..self }
        } else {
            self
        }
    }

    /// After the log of the session `id` came up.
    pub open spec fn after_session(self, id: Seq<char>, mtime: Option<u64>) -> Gathered {
        if in_range(mtime, self.cutoff) {
            Gathered { seen: self.seen.insert(id), ..self }
        } else {
            self
        }
    }

    /// The archived session `filename` is read: it belongs to the period, and its
    /// session has not come up before.
    pub open spec fn takes_archive(self, filename: Seq<char>, mtime: Option<u64>) -> bool {
        &&& in_range(mtime, self.cutoff)
        &&& archive_parts(filename) matches Some((_, session)) && !self.seen.contains(session)
    }

    /// After the archived session `filename` came up.
    pub open spec fn after_archive(self, filename: Seq<char>, mtime: Option<u64>) -> Gathered {
        if self.takes_archive(filename, mtime) {
            let (project, session) = archive_parts(filename)->0;
            Gathered {
                rows: opened(self.rows, self.project(project)),
                seen: self.seen.insert(session),
                ..self
            }
        } else {
            self
        }
    }

    /// What the session of `project` used is added.
    pub open spec fn credit(self, project: Seq<char>, session: Totals) -> Gathered {
        Gathered { rows: credited(self.rows, project, session), ..self }
    }

    /// `after` is `self` with what a session of `project` used added, where that
    /// fits, and `self` where it does not; `done` tells which.
    pub open spec fn credits(
        self,
        project: Seq<char>,
        session: Totals,
        after: Gathered,
        done: bool,
    ) -> bool {
        &&& done == used(self.rows, project).plus(session).fits()
        &&& after == if done {
            self.credit(project, session)
        } else {
            self
        }
    }
}

/// Gathers what the sessions on disk used.
pub struct Gather {
    agent: String,
    names: NameMap,
    cutoff: Option<u64>,
    table: StatsTable,
    seen: StringHashSet,
}

impl View for Gather {
    type V = Gathered;

    closed spec fn view(&self) -> Gathered {
        Gathered {
            agent: self.agent@,
            names: self.names@,
            cutoff: self.cutoff,
            rows: self.table@,
            seen: self.seen@,
        }
    }
}

impl Gather {
    /// Nothing has been gathered. `names` tells the names of projects, `cutoff`
    /// the first second of the period.
    pub fn new(names: NameMap, cutoff: Option<u64>, agent: &str) -> (r: Self)
        ensures
            r@ == (Gathered {
                agent: agent@,
                names: names@,
                cutoff,
                rows: Rows::empty(),
                seen: Set::empty(),
            }),
            r@.sound(),
    {
        Gather {
            agent: agent.to_string(),
            names,
            cutoff,
            table: StatsTable::new(),
            seen: StringHashSet::new(),
        }
    }

    /// Takes up a directory of the projects. Gives the name of its project, or
    /// nothing if it holds no sessions.
    pub fn open_project(&mut self, dir_name: &str, is_dir: bool) -> (r: Option<String>)
        requires
            old(self)@.sound(),
        ensures
            final(self)@ == old(self)@.after_directory(dir_name@, is_dir),
            final(self)@.sound(),
            match r {
                Some(project) => {
                    &&& old(self)@.takes_directory(dir_name@, is_dir)
                    &&& project@ == old(self)@.project(dir_name@)
                    &&& known(final(self)@.rows, project@)
                },
                None => !old(self)@.takes_directory(dir_name@, is_dir),
            },
    {
        if !is_dir || same_text(dir_name, "memory") {
            return None;
        }
        let project = project_name_from_dir(dir_name, &self.names, self.agent.as_str());
        proof {
            law_rows_stay_distinct(self.table@, project@, Totals::zero());
            law_rows_stay_plausible(self.table@, project@, Totals::zero());
            opening_makes_known(self.table@, project@);
        }
        self.table.open(project.as_str());
        Some(project)
    }

    /// Takes up the log of the session `id`. Tells whether to read it.
    pub fn admit_session(&mut self, id: String, mtime_secs: Option<u64>) -> (r: bool)
        requires
            old(self)@.sound(),
        ensures
            final(self)@ == old(self)@.after_session(id@, mtime_secs),
            final(self)@.sound(),
            r == in_range(mtime_secs, old(self)@.cutoff),
    {
        if !file_in_range(mtime_secs, self.cutoff) {
            return false;
        }
        self.seen.insert(id);
        true
    }

    /// Takes up an entry of the archive. Gives the name of the project for which
    /// to read it, or nothing if it is not to be read.
    pub fn admit_archive(&mut self, filename: &str, mtime_secs: Option<u64>) -> (r: Option<String>)
        requires
            old(self)@.sound(),
        ensures
            final(self)@ == old(self)@.after_archive(filename@, mtime_secs),
            final(self)@.sound(),
            match r {
                Some(project) => {
                    &&& old(self)@.takes_archive(filename@, mtime_secs)
                    &&& project@ == old(self)@.project((archive_parts(filename@)->0).0)
                    &&& known(final(self)@.rows, project@)
                },
                None => !old(self)@.takes_archive(filename@, mtime_secs),
            },
    {
        if !file_in_range(mtime_secs, self.cutoff) {
            return None;
        }
        let session = match archive_session_id(filename) {
            Some(session) => session,
            None => {
                return None;
            },
        };
        if !self.seen.insert(session.to_string()) {
            assert(self@.seen =~= old(self)@.seen);
            return None;
        }
        match archive_project_key(filename) {
            Some(encoded) => {
                let project = project_name_from_dir(encoded, &self.names, self.agent.as_str());
                proof {
                    law_rows_stay_distinct(self.table@, project@, Totals::zero());
                    law_rows_stay_plausible(self.table@, project@, Totals::zero());
                    opening_makes_known(self.table@, project@);
                }
                self.table.open(project.as_str());
                Some(project)
            },
            None => None,
        }
    }

    /// Adds what a session of `project` used. `content` is its log, if it could be
    /// read; `parse` reads one line. Where the sums do not fit nothing is added
    /// and the result is `false`.
    pub fn add_session<P: Fn(&str) -> Option<Message>>(
        &mut self,
        project: &str,
        content: Option<&str>,
        parse: P,
    ) -> (done: bool)
        requires
            old(self)@.sound(),
            known(old(self)@.rows, project@),
            forall|line: &str| parse.requires((line,)),
        ensures
            final(self)@.sound(),
            known(final(self)@.rows, project@),
            match content {
                Some(text) => exists|lines: Seq<Option<Message>>| #[trigger]
                    parsed_by(parse, text@, lines) && old(self)@.credits(
                        project@,
                        session_totals(lines),
                        final(self)@,
                        done,
                    ),
                None => done && final(self)@ == old(self)@,
            },
    {
        match content {
            Some(text) => {
                let mut stats = self.table.get(project);
                let done = process_content(text, parse, &mut stats);
                let ghost lines = choose|lines: Seq<Option<Message>>| #[trigger]
                    parsed_by(parse, text@, lines) && added(
                        used(old(self)@.rows, project@),
                        session_totals(lines),
                        stats@,
                        done,
                    );
                proof {
                    law_session_plausible(lines);
                    law_rows_stay_distinct(self.table@, project@, session_totals(lines));
                    law_rows_stay_plausible(self.table@, project@, session_totals(lines));
                    law_credited_rows(self.table@, project@, session_totals(lines), project@);
                }
                if done {
                    self.table.set(project, stats);
                }
                done
            },
            None => true,
        }
    }

    /// Adds what an archived session of `project` used. `bytes` is the content of
    /// its file, if it could be read; `parse` reads one line. Where the sums do
    /// not fit nothing is added and the result is `false`.
    pub fn add_archive<P: Fn(&str) -> Option<Message>>(
        &mut self,
        project: &str,
        bytes: Option<&[u8]>,
        parse: P,
    ) -> (done: bool)
        requires
            old(self)@.sound(),
            known(old(self)@.rows, project@),
            forall|line: &str| parse.requires((line,)),
        ensures
            final(self)@.sound(),
            known(final(self)@.rows, project@),
            match bytes {
                Some(bytes) => match archived_text(bytes@) {
                    Some(text) => exists|lines: Seq<Option<Message>>| #[trigger]
                        parsed_by(parse, text, lines) && old(self)@.credits(
                            project@,
                            session_totals(lines),
                            final(self)@,
                            done,
                        ),
                    None => done && final(self)@ == old(self)@,
                },
                None => done && final(self)@ == old(self)@,
            },
    {
        let bytes = match bytes {
            Some(bytes) => bytes,
            None => {
                return true;
            },
        };
        let mut stats = self.table.get(project);
        let done = process_zst(bytes, parse, &mut stats);
        proof {
            assert(stands_at(self.table@, project@, place(self.table@, project@)));
            if archived_text(bytes@) is Some {
                let text = archived_text(bytes@)->0;
                let lines = choose|lines: Seq<Option<Message>>| #[trigger]
                    parsed_by(parse, text, lines) && added(
                        used(old(self)@.rows, project@),
                        session_totals(lines),
                        stats@,
                        done,
                    );
                law_session_plausible(lines);
                law_rows_stay_distinct(self.table@, project@, session_totals(lines));
                law_rows_stay_plausible(self.table@, project@, session_totals(lines));
                law_credited_rows(self.table@, project@, session_totals(lines), project@);
            }
        }
        if done {
            self.table.set(project, stats);
            assert(archived_text(bytes@) is None ==> self@.rows =~= old(self)@.rows);
        }
        done
    }

    /// What all projects used together, if the sums fit.
    pub fn grand_total(&self) -> (r: Option<ProjectStats>)
        ensures
            match r {
                Some(total) => total@ == sum_of(self@.rows),
                None => !sum_of(self@.rows).fits(),
            },
    {
        let mut total = ProjectStats::default();
        let mut i: usize = 0;
        assert(self.table@.take(0) =~= Rows::empty());
        while i < self.table.len()
            invariant
                i <= self.table@.len(),
                total@ == sum_of(self.table@.take(i as int)),
            decreases self.table@.len() - i,
        {
            let stats = self.table.stats_at(i);
            proof {
                assert(self.table@.take(i + 1) =~= self.table@.take(i as int).push(
                    self.table@[i as int],
                ));
                sum_with_row(self.table@.take(i as int), self.table@[i as int]);
                law_first_rows_covered(self.table@, i + 1);
            }
            if !total.can_accumulate(&stats) {
                return None;
            }
            total.accumulate(&stats);
            i += 1;
        }
        assert(self.table@.take(i as int) =~= self.table@);
        Some(total)
    }

    /// The report: subdirectories are merged, projects without a session are left
    /// out, and those that used most tokens come first.
    pub fn finish(self) -> (r: Vec<(String, ProjectStats)>)
        requires
            self@.sound(),
            merges_fit(self@.rows, merge_plan(self@.rows, self@.rows.len() as int)),
            totals_fit(merged_all(self@.rows, merge_plan(self@.rows, self@.rows.len() as int))),
        ensures
            ranks(
                listed(r@),
                active(merged_all(self@.rows, merge_plan(self@.rows, self@.rows.len() as int))),
            ),
            distinct(listed(r@)),
            plausible(listed(r@)),
            sum_of(listed(r@)) == sum_of(self@.rows),
    {
        let ghost rows = self@.rows;
        let table = merge_subdirs(self.table);
        let r = rank(&table);
        proof {
            law_report(rows, listed(r@));
        }
        r
    }
}

/// A report has each project once, and only those that had a session. Its sum is
/// that of all that was gathered.
pub proof fn law_report(rows: Rows, report: Rows)
    requires
        distinct(rows),
        plausible(rows),
        ranks(report, active(merged_all(rows, merge_plan(rows, rows.len() as int)))),
    ensures
        distinct(report),
        plausible(report),
        forall|i: int| 0 <= i < report.len() ==> (#[trigger] report[i]).1.sessions > 0,
        sum_of(report) == sum_of(rows),
{
    let plan = merge_plan(rows, rows.len() as int);
    let table = merged_all(rows, plan);
    law_merges_stay_distinct(rows, plan);
    law_merges_stay_plausible(rows, plan);
    law_merges_keep_sum(rows, plan);
    law_active_sum(table);
    law_active_rows(table);
    law_ranking(report, active(table));
    assert forall|i: int| 0 <= i < report.len() implies (#[trigger] report[i]).1.plausible()
        && report[i].1.sessions > 0 by {
        assert(report.contains(report[i]));
        let k = choose|k: int| 0 <= k < active(table).len() && active(table)[k] == report[i];
        assert(table.contains(active(table)[k]));
    }
}

/// Where the sum of all that was gathered fits, so does all that a report adds
/// up.
pub proof fn law_report_fits(rows: Rows)
    requires
        sum_of(rows).fits(),
        sum_of(rows).total_tokens() <= u64::MAX,
    ensures
        merges_fit(rows, merge_plan(rows, rows.len() as int)),
        totals_fit(merged_all(rows, merge_plan(rows, rows.len() as int))),
{
    let plan = merge_plan(rows, rows.len() as int);
    let table = merged_all(rows, plan);
    law_sum_fits_merges(rows, plan);
    law_merges_keep_sum(rows, plan);
    assert forall|i: int|
        0 <= i < table.len() && (#[trigger] table[i]).1.sessions > 0 implies table[
        i].1.total_tokens() <= u64::MAX by {
        sum_without_row(table, i);
    }
}

/// What came up stays known.
pub proof fn law_seen_grows(
    state: Gathered,
    name: Seq<char>,
    is_dir: bool,
    id: Seq<char>,
    filename: Seq<char>,
    mtime: Option<u64>,
    project: Seq<char>,
    session: Totals,
)
    ensures
        state.seen.subset_of(state.after_directory(name, is_dir).seen),
        state.seen.subset_of(state.after_session(id, mtime).seen),
        state.seen.subset_of(state.after_archive(filename, mtime).seen),
        state.seen.subset_of(state.credit(project, session).seen),
{
}

/// A session whose log was read is not read from the archive as well, however
/// much else came up in between.
pub proof fn law_archive_skips_logs(
    state: Gathered,
    id: Seq<char>,
    mtime: Option<u64>,
    later: Gathered,
    filename: Seq<char>,
    archive_mtime: Option<u64>,
)
    requires
        in_range(mtime, state.cutoff),
        state.after_session(id, mtime).seen.subset_of(later.seen),
        archive_parts(filename) matches Some((_, session)) && session == id,
    ensures
        !later.takes_archive(filename, archive_mtime),
{
    assert(state.after_session(id, mtime).seen.contains(id));
}

/// Of the archived files of one session one is read, however much else came up
/// in between.
pub proof fn law_archive_reads_once(
    state: Gathered,
    filename: Seq<char>,
    mtime: Option<u64>,
    later: Gathered,
    other: Seq<char>,
    other_mtime: Option<u64>,
)
    requires
        state.takes_archive(filename, mtime),
        state.after_archive(filename, mtime).seen.subset_of(later.seen),
        archive_parts(other) matches Some((_, session)) && session == (archive_parts(
            filename,
        )->0).1,
    ensures
        !later.takes_archive(other, other_mtime),
{
    assert(state.after_archive(filename, mtime).seen.contains((archive_parts(filename)->0).1));
}

/// The project of a directory or an archived session that is taken up has a row.
pub proof fn law_taken_projects_known(
    state: Gathered,
    name: Seq<char>,
    is_dir: bool,
    filename: Seq<char>,
    mtime: Option<u64>,
)
    ensures
        state.takes_directory(name, is_dir) ==> known(
            state.after_directory(name, is_dir).rows,
            state.project(name),
        ),
        state.takes_archive(filename, mtime) ==> known(
            state.after_archive(filename, mtime).rows,
            state.project((archive_parts(filename)->0).0),
        ),
{
    opening_makes_known(state.rows, state.project(name));
    opening_makes_known(state.rows, state.project((archive_parts(filename)->0).0));
}

proof fn opening_makes_known(rows: Rows, name: Seq<char>)
    ensures
        known(opened(rows, name), name),
{
    if !known(rows, name) {
        assert(stands_at(opened(rows, name), name, rows.len() as int));
    }
}

/// A longer period leaves out no file that a shorter one takes: what the past
/// week takes the past month takes, and what the past month takes the total.
pub proof fn law_longer_period_takes_more(mtime: Option<u64>, now: u64)
    requires
        30 * 86400 <= now,
    ensures
        in_range(mtime, Some((now - Period::Week.window()->0) as u64)) ==> in_range(
            mtime,
            Some((now - Period::Month.window()->0) as u64),
        ),
        in_range(mtime, None),
{
}

/// A file belongs to a period that has a beginning if it was changed at the
/// beginning or later, and to one that has none in any case.
pub proof fn law_times(time: u64, first: u64)
    ensures
        in_range(Some(time), Some(first)) <==> first <= time,
        !in_range(None, Some(first)),
        in_range(Some(time), None),
        in_range(None, None),
{
}

/// The log of a session has its id for a name, with the ending `.jsonl`. A file
/// with another name is no log.
pub proof fn law_log_names(id: Seq<char>, name: Seq<char>)
    ensures
        id.len() > 0 ==> session_of(id + ".jsonl"@) == Some(id),
        (forall|id: Seq<char>| id.len() > 0 ==> name != #[trigger] (id + ".jsonl"@)) ==> session_of(
            name,
        ) is None,
{
    let log = id + ".jsonl"@;
    assert(log.subrange(id.len() as int, log.len() as int) =~= ".jsonl"@);
    assert(log.take(id.len() as int) =~= id);
    if session_of(name) is Some {
        let n = name.len() - ".jsonl"@.len();
        assert(name =~= name.take(n) + name.subrange(n, name.len() as int));
        assert(name.take(n) + ".jsonl"@ == name);
    }
}

/// A directory that is not named `memory` is taken up for its project, which is
/// then known. Nothing is added to what any project used, and nothing else changes.
pub proof fn law_directory_taken(state: Gathered, name: Seq<char>, is_dir: bool, other: Seq<char>)
    requires
        distinct(state.rows),
    ensures
        state.takes_directory(name, is_dir) <==> is_dir && name != "memory"@,
        state.project(name) == project_name(name, state.names, state.agent),
        is_dir && name != "memory"@ ==> {
            let after = state.after_directory(name, is_dir);
            let project = project_name(name, state.names, state.agent);
            &&& known(after.rows, other) == (known(state.rows, other) || other == project)
            &&& used(after.rows, other) == used(state.rows, other)
            &&& after.seen == state.seen
            &&& after.names == state.names
            &&& after.agent == state.agent
            &&& after.cutoff == state.cutoff
        },
        !is_dir || name == "memory"@ ==> state.after_directory(name, is_dir) == state,
{
    law_opened_rows(state.rows, state.project(name), other);
}

/// A log that belongs to the period makes its session known; another one changes
/// nothing.
pub proof fn law_log_taken(state: Gathered, id: Seq<char>, mtime: Option<u64>)
    ensures
        in_range(mtime, state.cutoff) ==> {
            let after = state.after_session(id, mtime);
            &&& forall|other: Seq<char>| #[trigger]
                after.seen.contains(other) <==> state.seen.contains(other) || other == id
            &&& after.rows == state.rows
            &&& after.names == state.names
            &&& after.agent == state.agent
            &&& after.cutoff == state.cutoff
        },
        !in_range(mtime, state.cutoff) ==> state.after_session(id, mtime) == state,
{
}

/// An archived file that belongs to the period is taken up for the project that
/// its name tells, whatever that project and others used so far, if its session has
/// not come up before. The session has then come up. Nothing is added to what any
/// project used, and nothing else changes.
pub proof fn law_archive_taken(
    state: Gathered,
    project: Seq<char>,
    session: Seq<char>,
    mtime: Option<u64>,
    other: Seq<char>,
)
    requires
        distinct(state.rows),
        state.cutoff matches Some(first) ==> mtime matches Some(time) && first <= time,
        !session.contains('_'),
        !state.seen.contains(session),
    ensures
        ({
            let filename = project + "_"@ + session + ".jsonl.zst"@;
            let after = state.after_archive(filename, mtime);
            let name = project_name(project, state.names, state.agent);
            &&& state.takes_archive(filename, mtime)
            &&& archive_parts(filename) == Some((project, session))
            &&& state.project(project) == name
            &&& after.seen.contains(other) == (state.seen.contains(other) || other == session)
            &&& known(after.rows, other) == (known(state.rows, other) || other == name)
            &&& used(after.rows, other) == used(state.rows, other)
            &&& after.names == state.names
            &&& after.agent == state.agent
            &&& after.cutoff == state.cutoff
        }),
{
    law_archive_name_parts(project, session);
    law_opened_rows(state.rows, state.project(project), other);
}

/// An archived file is left where it is, and changes nothing, if it does not belong
/// to the period, if its session has come up before, or if its name has another
/// form.
pub proof fn law_archive_left(state: Gathered, filename: Seq<char>, mtime: Option<u64>)
    requires
        ({
            ||| state.cutoff matches Some(first) && !(mtime matches Some(time) && first <= time)
            ||| exists|project: Seq<char>, session: Seq<char>|
                filename == #[trigger] (project + "_"@ + session + ".jsonl.zst"@)
                    && !session.contains('_') && state.seen.contains(session)
            ||| forall|project: Seq<char>, session: Seq<char>|
                filename != #[trigger] (project + "_"@ + session + ".jsonl.zst"@)
        }),
    ensures
        !state.takes_archive(filename, mtime),
        state.after_archive(filename, mtime) == state,
{
    if exists|project: Seq<char>, session: Seq<char>|
        filename == #[trigger] (project + "_"@ + session + ".jsonl.zst"@) && !session.contains('_')
            && state.seen.contains(session) {
        let (project, session) = choose|project: Seq<char>, session: Seq<char>|
            filename == #[trigger] (project + "_"@ + session + ".jsonl.zst"@) && !session.contains(
                '_',
            ) && state.seen.contains(session);
        law_archive_name_parts(project, session);
    }
    if forall|project: Seq<char>, session: Seq<char>|
        filename != #[trigger] (project + "_"@ + session + ".jsonl.zst"@) {
        law_other_archive_name(filename);
    }
}

/// What a session used is added to its project, where each sum fits, and to no
/// other. Where a sum does not fit, nothing changes.
pub proof fn law_session_credited(
    state: Gathered,
    project: Seq<char>,
    session: Totals,
    after: Gathered,
    done: bool,
    other: Seq<char>,
)
    requires
        distinct(state.rows),
        state.credits(project, session, after, done),
    ensures
        done <==> {
            &&& used(state.rows, project).input_tokens + session.input_tokens <= u64::MAX
            &&& used(state.rows, project).output_tokens + session.output_tokens <= u64::MAX
            &&& used(state.rows, project).cache_write_tokens + session.cache_write_tokens
                <= u64::MAX
            &&& used(state.rows, project).cache_read_tokens + session.cache_read_tokens <= u64::MAX
            &&& used(state.rows, project).cost + session.cost <= u128::MAX
            &&& used(state.rows, project).sessions + session.sessions <= u64::MAX
        },
        done ==> {
            let before = used(state.rows, project);
            let total = used(after.rows, project);
            &&& known(after.rows, project)
            &&& total.input_tokens == before.input_tokens + session.input_tokens
            &&& total.output_tokens == before.output_tokens + session.output_tokens
            &&& total.cache_write_tokens == before.cache_write_tokens + session.cache_write_tokens
            &&& total.cache_read_tokens == before.cache_read_tokens + session.cache_read_tokens
            &&& total.cost == before.cost + session.cost
            &&& total.sessions == before.sessions + session.sessions
            &&& other != project ==> used(after.rows, other) == used(state.rows, other)
            &&& other != project ==> known(after.rows, other) == known(state.rows, other)
            &&& after.seen == state.seen
            &&& after.names == state.names
            &&& after.agent == state.agent
            &&& after.cutoff == state.cutoff
        },
        !done ==> after == state,
{
    law_credited_rows(state.rows, project, session, project);
    law_credited_rows(state.rows, project, session, other);
}

} // verus!
