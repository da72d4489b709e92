//! The content of session logs: lines, the messages that they hold, and what
//! the messages add to a project.

use vstd::hash_set::StringHashSet;
use vstd::prelude::*;

use crate::stats::{ProjectStats, Totals};
use crate::text::{same_text, views};
use crate::usage::{charge, law_charge_bounded, usage_cost, ApiMessage, Message, Usage};

verus! {

/// What a message that is charged for says.
pub struct Entry {
    pub id: Option<Seq<char>>,
    pub usage: Usage,
    pub model: Seq<char>,
}

/// What is charged for a line: an answer of the assistant that tells its usage.
pub open spec fn entry_of(line: Option<Message>) -> Option<Entry> {
    match line {
        Some(message) => match message.message {
            Some(api) => match api.usage {
                Some(usage) => if message.kind@ == "assistant"@ {
                    Some(
                        Entry {
                            id: match api.id {
                                Some(id) => Some(id@),
                                None => None,
                            },
                            usage,
                            model: match api.model {
                                Some(model) => model@,
                                None => "opus"@,
                            },
                        },
                    )
                } else {
                    None
                },
                None => None,
            },
            None => None,
        },
        None => None,
    }
}

/// The line is charged for under the message id `id`.
pub open spec fn has_id(line: Option<Message>, id: Seq<char>) -> bool {
    entry_of(line) matches Some(entry) && entry.id == Some(id)
}

/// The line `i` counts: it is charged for, and no later line repeats its message.
pub open spec fn counts(lines: Seq<Option<Message>>, i: int) -> bool {
    &&& entry_of(lines[i]) is Some
    &&& entry_of(lines[i])->0.id matches Some(id) ==> forall|j: int|
        i < j < lines.len() ==> !has_id(#[trigger] lines[j], id)
}

/// What the line `i` adds to the sums.
pub open spec fn part(lines: Seq<Option<Message>>, i: int) -> Totals {
    if counts(lines, i) {
        let entry = entry_of(lines[i])->0;
        Totals {
            input_tokens: entry.usage.input_tokens as nat,
            output_tokens: entry.usage.output_tokens as nat,
            cache_write_tokens: entry.usage.cache_creation_input_tokens as nat,
            cache_read_tokens: entry.usage.cache_read_input_tokens as nat,
            cost: charge(entry.usage, entry.model),
            sessions: 0,
        }
    } else {
        Totals::zero()
    }
}

/// What the lines from `i` on add to the sums.
pub open spec fn sum_from(lines: Seq<Option<Message>>, i: int) -> Totals
    decreases lines.len() - i,
{
    if i >= lines.len() {
        Totals::zero()
    } else {
        part(lines, i).plus(sum_from(lines, i + 1))
    }
}

/// What a session with the given lines used. It counts as a session if any of
/// its lines counts.
pub open spec fn session_totals(lines: Seq<Option<Message>>) -> Totals {
    Totals {
        sessions: if exists|i: int| 0 <= i < lines.len() && counts(lines, i) {
            1
        } else {
            0
        },
        ..sum_from(lines, 0)
    }
}

proof fn sums_grow(lines: Seq<Option<Message>>, i: int)
    requires
        0 <= i <= lines.len(),
    ensures
        sum_from(lines, i).input_tokens <= sum_from(lines, 0).input_tokens,
        sum_from(lines, i).output_tokens <= sum_from(lines, 0).output_tokens,
        sum_from(lines, i).cache_write_tokens <= sum_from(lines, 0).cache_write_tokens,
        sum_from(lines, i).cache_read_tokens <= sum_from(lines, 0).cache_read_tokens,
    decreases i,
{
    if i > 0 {
        sums_grow(lines, i - 1);
    }
}

/// What the session with the given lines used, if the sums fit.
pub fn session_stats(lines: &Vec<Option<Message>>) -> (r: Option<ProjectStats>)
    ensures
        match r {
            Some(stats) => stats@ == session_totals(lines@),
            None => !session_totals(lines@).fits(),
        },
{
    let mut stats = ProjectStats::default();
    let mut ids = StringHashSet::new();
    let mut i: usize = lines.len();
    while i > 0
        invariant
            i <= lines@.len(),
            forall|id: Seq<char>| #[trigger]
                ids@.contains(id) <==> exists|j: int|
                    i <= j < lines@.len() && has_id(#[trigger] lines@[j], id),
            stats@ == (Totals { sessions: stats@.sessions, ..sum_from(lines@, i as int) }),
            stats@.sessions == (if exists|j: int| i <= j < lines@.len() && counts(lines@, j) {
                1nat
            } else {
                0nat
            }),
            stats@.cost <= 1500 * stats@.input_tokens + 7500 * stats@.output_tokens,
        decreases i,
    {
        i -= 1;
        let ghost before = stats;
        let ghost ids_before = ids@;
        proof {
            sums_grow(lines@, i as int);
        }
        if let Some(message) = &lines[i] {
            if let Some(api) = &message.message {
                if let Some(usage) = &api.usage {
                    if same_text(message.kind.as_str(), "assistant") {
                        let fresh = match &api.id {
                            Some(id) => ids.insert(id.clone()),
                            None => true,
                        };
                        if fresh {
                            assert(counts(lines@, i as int));
                            let cost: u128 = match &api.model {
                                Some(model) => usage_cost(usage, model.as_str()),
                                None => usage_cost(usage, "opus"),
                            };
                            let added = ProjectStats {
                                input_tokens: usage.input_tokens,
                                output_tokens: usage.output_tokens,
                                cache_write_tokens: usage.cache_creation_input_tokens,
                                cache_read_tokens: usage.cache_read_input_tokens,
                                cost,
                                sessions: 0,
                            };
                            if !stats.can_accumulate(&added) {
                                return None;
                            }
                            stats.accumulate(&added);
                            stats.sessions = 1;
                        }
                    }
                }
            }
        }
    }
    Some(stats)
}

proof fn sums_plausible(lines: Seq<Option<Message>>, i: int)
    requires
        0 <= i <= lines.len(),
    ensures
        sum_from(lines, i).cost <= 1500 * sum_from(lines, i).input_tokens + 7500 * sum_from(
            lines,
            i,
        ).output_tokens,
        (forall|j: int| i <= j < lines.len() ==> !counts(lines, j)) ==> sum_from(lines, i)
            == Totals::zero(),
    decreases lines.len() - i,
{
    if i < lines.len() {
        sums_plausible(lines, i + 1);
        if counts(lines, i) {
            let entry = entry_of(lines[i])->0;
            law_charge_bounded(entry.usage, entry.model);
        }
    }
}

/// A session without a line that counts used nothing, and no session costs more
/// than the highest price.
pub proof fn law_session_plausible(lines: Seq<Option<Message>>)
    ensures
        session_totals(lines).plausible(),
{
    sums_plausible(lines, 0);
}

proof fn sums_shift(first: Option<Message>, lines: Seq<Option<Message>>, i: int)
    requires
        0 <= i <= lines.len(),
    ensures
        sum_from(seq![first] + lines, i + 1) == sum_from(lines, i),
        forall|j: int|
            i <= j < lines.len() ==> #[trigger] counts(seq![first] + lines, j + 1) == counts(
                lines,
                j,
            ),
    decreases lines.len() - i,
{
    let longer = seq![first] + lines;
    assert forall|j: int| i <= j < lines.len() implies #[trigger] counts(longer, j + 1) == counts(
        lines,
        j,
    ) by {
        assert(longer[j + 1] == lines[j]);
        assert(forall|k: int| j < k < lines.len() ==> #[trigger] lines[k] == longer[k + 1]);
        assert(forall|k: int| j + 1 < k < longer.len() ==> #[trigger] longer[k] == lines[k - 1]);
    }
    if i < lines.len() {
        sums_shift(first, lines, i + 1);
        assert(counts(longer, i + 1) == counts(lines, i));
        assert(longer[i + 1] == lines[i]);
    }
}

/// Some line of `lines` is charged for under the message id `id`.
pub open spec fn repeats(lines: Seq<Option<Message>>, id: Seq<char>) -> bool {
    exists|j: int| 0 <= j < lines.len() && has_id(#[trigger] lines[j], id)
}

/// A line in front of others adds what it is charged for, unless it is not charged
/// for or a later line repeats its message.
pub proof fn law_one_more_line(first: Option<Message>, lines: Seq<Option<Message>>)
    ensures
        match entry_of(first) {
            Some(entry) => if entry.id matches Some(id) && repeats(lines, id) {
                session_totals(seq![first] + lines) == session_totals(lines)
            } else {
                session_totals(seq![first] + lines) == (Totals {
                    input_tokens: entry.usage.input_tokens as nat,
                    output_tokens: entry.usage.output_tokens as nat,
                    cache_write_tokens: entry.usage.cache_creation_input_tokens as nat,
                    cache_read_tokens: entry.usage.cache_read_input_tokens as nat,
                    cost: charge(entry.usage, entry.model),
                    sessions: 1,
                }).plus(Totals { sessions: 0, ..session_totals(lines) })
            },
            None => session_totals(seq![first] + lines) == session_totals(lines),
        },
{
    let longer = seq![first] + lines;
    sums_shift(first, lines, 0);
    assert(longer[0] == first);
    assert(sum_from(longer, 0) == part(longer, 0).plus(sum_from(longer, 1)));
    assert(sum_from(lines, 0).sessions == 0) by {
        sums_count_no_session(lines, 0);
    }
    assert((exists|i: int| 0 <= i < longer.len() && counts(longer, i)) <==> (counts(longer, 0)
        || exists|i: int| 0 <= i < lines.len() && counts(lines, i))) by {
        if exists|i: int| 0 <= i < longer.len() && counts(longer, i) {
            let i = choose|i: int| 0 <= i < longer.len() && counts(longer, i);
            if i > 0 {
                assert(counts(longer, (i - 1) + 1) == counts(lines, i - 1));
            }
        }
        if exists|i: int| 0 <= i < lines.len() && counts(lines, i) {
            let i = choose|i: int| 0 <= i < lines.len() && counts(lines, i);
            assert(counts(longer, i + 1) == counts(lines, i));
        }
    }
    if let Some(entry) = entry_of(first) {
        if let Some(id) = entry.id {
            if repeats(lines, id) {
                let j = choose|j: int| 0 <= j < lines.len() && has_id(#[trigger] lines[j], id);
                assert(has_id(longer[j + 1], id));
                assert(!counts(longer, 0));
            } else {
                assert forall|j: int| 0 < j < longer.len() implies !has_id(
                    #[trigger] longer[j],
                    id,
                ) by {
                    assert(longer[j] == lines[j - 1]);
                }
                assert(counts(longer, 0));
            }
        }
    }
}

proof fn sums_count_no_session(lines: Seq<Option<Message>>, i: int)
    requires
        0 <= i <= lines.len(),
    ensures
        sum_from(lines, i).sessions == 0,
    decreases lines.len() - i,
{
    if i < lines.len() {
        sums_count_no_session(lines, i + 1);
    }
}

/// `after` is `before` with `session` added, where that fits, and `before` where
/// it does not; `done` tells which.
pub open spec fn added(before: Totals, session: Totals, after: Totals, done: bool) -> bool {
    &&& done == before.plus(session).fits()
    &&& after == if done {
        before.plus(session)
    } else {
        before
    }
}

/// Adds what the session with the given lines used. Where the sums do not fit
/// nothing is added and the result is `false`.
pub fn process_messages(lines: &Vec<Option<Message>>, stats: &mut ProjectStats) -> (done: bool)
    ensures
        added(old(stats)@, session_totals(lines@), final(stats)@, done),
{
    match session_stats(lines) {
        Some(session) => if stats.can_accumulate(&session) {
            stats.accumulate(&session);
            true
        } else {
            false
        },
        None => false,
    }
}

/// A line without the carriage return at its end.
pub open spec fn chomped(line: Seq<char>) -> Seq<char> {
    if line.len() > 0 && line.last() == '\r' {
        line.drop_last()
    } else {
        line
    }
}

/// The lines of `s`, each without its line feed and a carriage return before it.
/// After the last line feed there is a line only if something stands there.
pub open spec fn lines_of(s: Seq<char>) -> Seq<Seq<char>>
    decreases s.len(),
{
    match s.index_of_first('\n') {
        Some(i) => if 0 <= i < s.len() {
            seq![chomped(s.take(i))] + lines_of(s.skip(i + 1))
        } else {
            Seq::empty()
        },
        None => if s.len() == 0 {
            Seq::empty()
        } else {
            seq![s]
        },
    }
}

/// The lines of `content`.
pub fn split_lines(content: &str) -> (r: Vec<String>)
    ensures
        views(r@) == lines_of(content@),
{
    let mut r: Vec<String> = Vec::new();
    let mut line = String::new();
    let mut pending = false;
    let ghost mut start: int = 0;
    assert(content@.skip(0) =~= content@);
    assert(views(r@) + lines_of(content@) =~= lines_of(content@));
    for c in it: content.chars()
        invariant
            it.seq() == content@,
            0 <= start <= it.index() <= content@.len(),
            lines_of(content@) == views(r@) + lines_of(content@.skip(start)),
            forall|k: int| start <= k < it.index() ==> content@[k] != '\n',
            content@.subrange(start, it.index()) == (if pending {
                line@.push('\r')
            } else {
                line@
            }),
            pending || line@.len() == 0 || line@.last() != '\r',
    {
        let ghost i = it.index();
        let ghost tail = content@.subrange(start, i);
        if c == '\n' {
            proof {
                let rest = content@.skip(start);
                rest.index_of_first_ensures('\n');
                assert(rest[i - start] == '\n');
                assert(rest.contains('\n'));
                let first = rest.index_of_first('\n')->0;
                assert(content@[start + first] == '\n');
                assert(first == i - start);
                assert(rest.take(first) =~= tail);
                assert(rest.skip(first + 1) =~= content@.skip(i + 1));
                assert(chomped(tail) =~= line@);
            }
            let ghost before = views(r@);
            r.push(line);
            assert(views(r@) =~= before.push(line@));
            assert(before + (seq![line@] + lines_of(content@.skip(i + 1))) =~= views(r@)
                + lines_of(content@.skip(i + 1)));
            line = String::new();
            pending = false;
            proof {
                start = i + 1;
                assert(content@.subrange(start, i + 1) =~= Seq::empty());
            }
        } else {
            if pending {
                line.push('\r');
            }
            if c == '\r' {
                pending = true;
            } else {
                pending = false;
                line.push(c);
            }
            assert(content@.subrange(start, i + 1) =~= tail.push(c));
        }
    }
    if pending {
        line.push('\r');
    }
    proof {
        let rest = content@.skip(start);
        assert(rest =~= content@.subrange(start, content@.len() as int));
        rest.index_of_first_ensures('\n');
        if rest.contains('\n') {
            let k = choose|k: int| 0 <= k < rest.len() && rest[k] == '\n';
            assert(content@[start + k] == '\n');
        }
    }
    if line.as_str().is_empty() {
        assert(views(r@) + Seq::empty() =~= views(r@));
    } else {
        let ghost before = views(r@);
        r.push(line);
        assert(views(r@) =~= before + seq![line@]);
    }
    r
}

/// `parse` may read `message` in the line `text`.
pub open spec fn reads<P: Fn(&str) -> Option<Message>>(
    parse: P,
    text: Seq<char>,
    message: Option<Message>,
) -> bool {
    exists|line: &str| line@ == text && #[trigger] parse.ensures((line,), message)
}

/// `lines` is what `parse` may read in the lines of `content`.
pub open spec fn parsed_by<P: Fn(&str) -> Option<Message>>(
    parse: P,
    content: Seq<char>,
    lines: Seq<Option<Message>>,
) -> bool {
    &&& lines.len() == lines_of(content).len()
    &&& forall|i: int|
        0 <= i < lines.len() ==> reads(parse, lines_of(content)[i], #[trigger] lines[i])
}

fn parse_lines<P: Fn(&str) -> Option<Message>>(content: &str, parse: P) -> (r: Vec<Option<Message>>)
    requires
        forall|line: &str| parse.requires((line,)),
    ensures
        parsed_by(parse, content@, r@),
{
    let texts = split_lines(content);
    let mut r: Vec<Option<Message>> = Vec::new();
    let mut i: usize = 0;
    while i < texts.len()
        invariant
            i <= texts@.len(),
            r@.len() == i,
            views(texts@) == lines_of(content@),
            forall|line: &str| parse.requires((line,)),
            forall|k: int| 0 <= k < i ==> reads(parse, lines_of(content@)[k], #[trigger] r@[k]),
        decreases texts@.len() - i,
    {
        let line = texts[i].as_str();
        assert(line@ == views(texts@)[i as int]);
        let message = parse(line);
        assert(reads(parse, line@, message));
        r.push(message);
        i += 1;
    }
    r
}

/// Adds what the session with the log `content` used; `parse` reads one line of
/// it. Where the sums do not fit nothing is added and the result is `false`.
pub fn process_content<P: Fn(&str) -> Option<Message>>(
    content: &str,
    parse: P,
    stats: &mut ProjectStats,
) -> (done: bool)
    requires
        forall|line: &str| parse.requires((line,)),
    ensures
        exists|lines: Seq<Option<Message>>| #[trigger]
            parsed_by(parse, content@, lines) && added(
                old(stats)@,
                session_totals(lines),
                final(stats)@,
                done,
            ),
{
    let lines = parse_lines(content, parse);
    process_messages(&lines, stats)
}

/// A session without lines used nothing.
pub proof fn law_empty_session()
    ensures
        session_totals(Seq::empty()) == (Totals {
            input_tokens: 0,
            output_tokens: 0,
            cache_write_tokens: 0,
            cache_read_tokens: 0,
            cost: 0,
            sessions: 0,
        }),
{
}

/// An answer of the assistant in front of other lines counts in full and makes a
/// session, if it has no id or none of the other lines is an answer with the same
/// whole id. An answer that names no model is charged as one of `opus`.
pub proof fn law_answer_counts(
    message: Message,
    api: ApiMessage,
    usage: Usage,
    lines: Seq<Option<Message>>,
)
    requires
        message.kind@ == "assistant"@,
        message.message == Some(api),
        api.usage == Some(usage),
        api.id matches Some(id) ==> forall|j: int|
            0 <= j < lines.len() ==> !{
                &&& #[trigger] lines[j] matches Some(other)
                &&& other.kind@ == "assistant"@
                &&& other.message matches Some(other_api)
                &&& other_api.usage is Some
                &&& other_api.id matches Some(other_id)
                &&& other_id@ == id@
            },
    ensures
        ({
            let all = session_totals(seq![Some(message)] + lines);
            let rest = session_totals(lines);
            &&& all.input_tokens == usage.input_tokens + rest.input_tokens
            &&& all.output_tokens == usage.output_tokens + rest.output_tokens
            &&& all.cache_write_tokens == usage.cache_creation_input_tokens
                + rest.cache_write_tokens
            &&& all.cache_read_tokens == usage.cache_read_input_tokens + rest.cache_read_tokens
            &&& all.cost == rest.cost + match api.model {
                Some(model) => charge(usage, model@),
                None => charge(usage, "opus"@),
            }
            &&& all.sessions == 1
        }),
{
    law_one_more_line(Some(message), lines);
    if let Some(id) = api.id {
        assert forall|j: int| 0 <= j < lines.len() implies !has_id(#[trigger] lines[j], id@) by {
        }
    }
}

/// An answer with an id that a later answer has too adds nothing: the later one
/// counts.
pub proof fn law_repeated_answer(
    message: Message,
    api: ApiMessage,
    id: String,
    lines: Seq<Option<Message>>,
    j: int,
    later: Message,
    later_api: ApiMessage,
    later_id: String,
)
    requires
        message.message == Some(api),
        api.id == Some(id),
        0 <= j < lines.len(),
        lines[j] == Some(later),
        later.kind@ == "assistant"@,
        later.message == Some(later_api),
        later_api.usage is Some,
        later_api.id == Some(later_id),
        later_id@ == id@,
    ensures
        session_totals(seq![Some(message)] + lines) == session_totals(lines),
{
    law_one_more_line(Some(message), lines);
    assert(has_id(lines[j], id@));
}

/// A line that is no answer of the assistant, or that tells no usage, adds nothing.
pub proof fn law_other_line(line: Option<Message>, lines: Seq<Option<Message>>)
    requires
        line matches Some(message) ==> message.kind@ != "assistant"@ || (message.message matches
            Some(api) ==> api.usage is None),
    ensures
        session_totals(seq![line] + lines) == session_totals(lines),
{
    law_one_more_line(line, lines);
}

/// A line ends at a line feed. The line feed and one carriage return before it are
/// no part of the line.
pub proof fn law_first_line(line: Seq<char>, rest: Seq<char>)
    requires
        !line.contains('\n'),
    ensures
        lines_of(line + seq!['\n'] + rest) == seq![
            if line.len() > 0 && line.last() == '\r' {
                line.drop_last()
            } else {
                line
            },
        ] + lines_of(rest),
{
    let s = line + seq!['\n'] + rest;
    s.index_of_first_ensures('\n');
    assert(s[line.len() as int] == '\n');
    assert(s.contains('\n'));
    let i = s.index_of_first('\n')->0;
    assert(i == line.len()) by {
        if i < line.len() {
            assert(line[i] == s[i]);
            assert(line.contains('\n'));
        }
    }
    assert(s.take(i) =~= line);
    assert(s.skip(i + 1) =~= rest);
}

/// What stands after the last line feed is a line as it is, unless nothing stands
/// there.
pub proof fn law_last_line(line: Seq<char>)
    requires
        !line.contains('\n'),
    ensures
        lines_of(line) == if line.len() == 0 {
            Seq::empty()
        } else {
            seq![line]
        },
{
    line.index_of_first_ensures('\n');
}

/// Each line of a log is parsed, as it is, and in the order of the log.
pub proof fn law_each_line_parsed<P: Fn(&str) -> Option<Message>>(
    parse: P,
    content: Seq<char>,
    lines: Seq<Option<Message>>,
    i: int,
)
    requires
        parsed_by(parse, content, lines),
    ensures
        lines.len() == lines_of(content).len(),
        0 <= i < lines.len() ==> exists|line: &str|
            line@ == lines_of(content)[i] && #[trigger] parse.ensures((line,), lines[i]),
{
    if 0 <= i < lines.len() {
        assert(reads(parse, lines_of(content)[i], lines[i]));
    }
}

/// A session is added where each sum fits, to each sum; where one does not fit,
/// nothing is added.
pub proof fn law_session_added(before: Totals, session: Totals, after: Totals, done: bool)
    requires
        added(before, session, after, done),
    ensures
        done <==> {
            &&& before.input_tokens + session.input_tokens <= u64::MAX
            &&& before.output_tokens + session.output_tokens <= u64::MAX
            &&& before.cache_write_tokens + session.cache_write_tokens <= u64::MAX
            &&& before.cache_read_tokens + session.cache_read_tokens <= u64::MAX
            &&& before.cost + session.cost <= u128::MAX
            &&& before.sessions + session.sessions <= u64::MAX
        },
        done ==> {
            &&& after.input_tokens == before.input_tokens + session.input_tokens
            &&& after.output_tokens == before.output_tokens + session.output_tokens
            &&& after.cache_write_tokens == before.cache_write_tokens + session.cache_write_tokens
            &&& after.cache_read_tokens == before.cache_read_tokens + session.cache_read_tokens
            &&& after.cost == before.cost + session.cost
            &&& after.sessions == before.sessions + session.sessions
        },
        !done ==> after == before,
{
}

} // verus!
