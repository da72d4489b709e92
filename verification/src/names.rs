//! Names of projects.
//!
//! A project's sessions stand in a directory that is named after the project's
//! path, with each `/` turned into `-`. This module finds the name under which
//! such a directory is reported.

use vstd::hash_map::StringHashMap;
use vstd::prelude::*;

use crate::text::{
    chars_of, contains, find, first_at, first_index, first_index_is, law_occurs_between, occurs,
    occurs_at, replace_char, replaced, same_text, starts_with, strip_prefix, text_of, views,
};

verus! {

/// The name of the directory that holds the sessions of the project at `path`.
pub open spec fn encoded(path: Seq<char>) -> Seq<char> {
    replaced(path, '/', '-')
}

/// A path without the part that most projects share.
pub open spec fn shortened(path: Seq<char>) -> Seq<char> {
    if "/syncthing/Sync/Projects/"@.is_prefix_of(path) {
        path.skip("/syncthing/Sync/Projects/"@.len() as int)
    } else if "/home/osso/Projects/"@.is_prefix_of(path) {
        path.skip("/home/osso/Projects/"@.len() as int)
    } else if "/home/osso/Repos/"@.is_prefix_of(path) {
        path.skip("/home/osso/Repos/"@.len() as int)
    } else if "/home/osso/"@.is_prefix_of(path) {
        "osso/"@ + path.skip("/home/osso/"@.len() as int)
    } else if "/syncthing/Sync/"@.is_prefix_of(path) {
        "Sync/"@ + path.skip("/syncthing/Sync/"@.len() as int)
    } else {
        path
    }
}

/// A path without the part that most projects share. Below a directory
/// `Projects` or `Repos` the rest of the path is left; below another one its
/// name stays in front.
pub fn shorten_path(path: &str) -> (r: String)
    ensures
        r@ == shortened(path@),
{
    proof {
        assert forall|prefix: Seq<char>, rest: Seq<char>| path@ == #[trigger] (prefix + rest) implies {
            &&& prefix.is_prefix_of(path@)
            &&& path@.skip(prefix.len() as int) == rest
        } by {
            assert((prefix + rest).subrange(0, prefix.len() as int) =~= prefix);
            assert((prefix + rest).skip(prefix.len() as int) =~= rest);
        }
    }
    if let Some(rest) = strip_prefix(path, "/syncthing/Sync/Projects/") {
        return rest;
    }
    if let Some(rest) = strip_prefix(path, "/home/osso/Projects/") {
        return rest;
    }
    if let Some(rest) = strip_prefix(path, "/home/osso/Repos/") {
        return rest;
    }
    if let Some(rest) = strip_prefix(path, "/home/osso/") {
        return "osso/".to_string().concat(rest.as_str());
    }
    if let Some(rest) = strip_prefix(path, "/syncthing/Sync/") {
        return "Sync/".to_string().concat(rest.as_str());
    }
    path.to_string()
}

/// `s` without the dashes it begins with.
pub open spec fn without_leading_dashes(s: Seq<char>) -> Seq<char>
    decreases s.len(),
{
    if s.len() > 0 && s[0] == '-' {
        without_leading_dashes(s.drop_first())
    } else {
        s
    }
}

/// `s` with each `//`, taken from the left, turned into `/.`.
pub open spec fn with_dot_directories(s: Seq<char>) -> Seq<char>
    decreases s.len(),
{
    if s.len() == 0 {
        s
    } else if s.len() >= 2 && s[0] == '/' && s[1] == '/' {
        seq!['/', '.'] + with_dot_directories(s.skip(2))
    } else {
        seq![s[0]] + with_dot_directories(s.skip(1))
    }
}

/// The path that the name of a directory most likely stands for: each dash is a
/// separator, and two in a row are the start of a hidden directory.
pub open spec fn decoded(name: Seq<char>) -> Seq<char> {
    with_dot_directories(seq!['/'] + replaced(without_leading_dashes(name), '-', '/'))
}

fn dot_directories(s: &Vec<char>) -> (r: String)
    ensures
        r@ == with_dot_directories(s@),
{
    let length: usize = s.len();
    let mut r = String::new();
    let mut i: usize = 0;
    assert(s@.skip(0) =~= s@);
    assert(r@ + with_dot_directories(s@) =~= with_dot_directories(s@));
    while i < length
        invariant
            length == s@.len(),
            i <= length,
            with_dot_directories(s@) == r@ + with_dot_directories(s@.skip(i as int)),
        decreases length - i,
    {
        let ghost before = r@;
        let ghost rest = s@.skip(i as int);
        if s[i] == '/' && length - i >= 2 && s[i + 1] == '/' {
            r.push('/');
            r.push('.');
            i += 2;
            assert(rest.skip(2) =~= s@.skip(i as int));
            assert(before + (seq!['/', '.'] + with_dot_directories(rest.skip(2))) =~= r@
                + with_dot_directories(rest.skip(2)));
        } else {
            r.push(s[i]);
            i += 1;
            assert(rest.skip(1) =~= s@.skip(i as int));
            assert(before + (seq![rest[0]] + with_dot_directories(rest.skip(1))) =~= r@
                + with_dot_directories(rest.skip(1)));
        }
    }
    assert(s@.skip(i as int) =~= Seq::empty());
    assert(r@ + Seq::empty() =~= r@);
    r
}

/// The name of a project that is known only by its directory.
pub fn decode_fallback(encoded: &str) -> (r: String)
    ensures
        r@ == shortened(decoded(encoded@)),
{
    let chars = chars_of(encoded);
    let length: usize = chars.len();
    let mut i: usize = 0;
    assert(encoded@.skip(0) =~= encoded@);
    while i < length && chars[i] == '-'
        invariant
            length == chars@.len(),
            chars@ == encoded@,
            i <= length,
            without_leading_dashes(encoded@) == without_leading_dashes(encoded@.skip(i as int)),
        decreases length - i,
    {
        assert(encoded@.skip(i as int).drop_first() =~= encoded@.skip(i + 1));
        i += 1;
    }
    let rest = text_of(&chars, i, length);
    assert(rest@ =~= encoded@.skip(i as int));
    let path = "/".to_string().concat(replace_char(rest.as_str(), '-', '/').as_str());
    proof {
        reveal_strlit("/");
        assert("/"@ =~= seq!['/']);
    }
    let path = dot_directories(&chars_of(path.as_str()));
    shorten_path(path.as_str())
}

/// What stands between a project and a worktree in the name of the worktree's
/// directory.
pub open spec fn worktree_mark(agent: Seq<char>) -> Seq<char> {
    "--"@ + agent + "-worktrees-"@
}

fn worktree_marker(agent: &str) -> (r: String)
    ensures
        r@ == worktree_mark(agent@),
{
    "--".to_string().concat(agent).concat("-worktrees-")
}

/// The directory `name` belongs to the project with the directory `project`, or
/// to one of its worktrees.
pub open spec fn belongs_to(name: Seq<char>, project: Seq<char>, agent: Seq<char>) -> bool {
    name == project || (project + worktree_mark(agent)).is_prefix_of(name)
}

fn belongs(name: &str, project: &str, agent: &str) -> (r: bool)
    ensures
        r == belongs_to(name@, project@, agent@),
{
    same_text(name, project) || starts_with(
        name,
        project.to_string().concat(worktree_marker(agent).as_str()).as_str(),
    )
}

/// The directory under which a project is found, after projects were renamed or
/// merged.
pub open spec fn renamed(name: Seq<char>, agent: Seq<char>) -> Seq<char> {
    if belongs_to(name, "-syncthing-Sync-Projects-wow-wow-engine"@, agent) {
        "-syncthing-Sync-Projects-world-of-osso-game-engine"@
    } else if belongs_to(name, "-syncthing-Sync-Projects-wow-game-engine"@, agent) {
        "-syncthing-Sync-Projects-world-of-osso-game-engine"@
    } else if belongs_to(name, "-syncthing-Sync-Projects-wow-game-launcher"@, agent) {
        "-syncthing-Sync-Projects-world-of-osso-game-launcher"@
    } else if belongs_to(name, "-syncthing-Sync-Projects-wow-website"@, agent) {
        "-syncthing-Sync-Projects-world-of-osso-website"@
    } else {
        name
    }
}

/// Maps the directory of a renamed or merged project, or of one of its
/// worktrees, to the directory under which the project is found.
pub fn apply_renames<'a>(dir_name: &'a str, agent: &str) -> (r: &'a str)
    ensures
        r@ == renamed(dir_name@, agent@),
{
    if belongs(dir_name, "-syncthing-Sync-Projects-wow-wow-engine", agent) {
        "-syncthing-Sync-Projects-world-of-osso-game-engine"
    } else if belongs(dir_name, "-syncthing-Sync-Projects-wow-game-engine", agent) {
        "-syncthing-Sync-Projects-world-of-osso-game-engine"
    } else if belongs(dir_name, "-syncthing-Sync-Projects-wow-game-launcher", agent) {
        "-syncthing-Sync-Projects-world-of-osso-game-launcher"
    } else if belongs(dir_name, "-syncthing-Sync-Projects-wow-website", agent) {
        "-syncthing-Sync-Projects-world-of-osso-website"
    } else {
        dir_name
    }
}

/// The names that are displayed for the directories of known projects.
pub struct NameMap {
    names: StringHashMap<String>,
}

impl View for NameMap {
    type V = Map<Seq<char>, Seq<char>>;

    closed spec fn view(&self) -> Map<Seq<char>, Seq<char>> {
        self.names@.map_values(|name: String| name@)
    }
}

impl NameMap {
    /// A map that knows no project.
    pub fn new() -> (r: Self)
        ensures
            r@ == Map::<Seq<char>, Seq<char>>::empty(),
    {
        let r = NameMap { names: StringHashMap::new() };
        assert(r@ =~= Map::empty());
        r
    }

    /// Displays the directory `dir_name` as `display`.
    pub fn insert(&mut self, dir_name: String, display: String)
        ensures
            final(self)@ == old(self)@.insert(dir_name@, display@),
    {
        let ghost key = dir_name@;
        let ghost value = display@;
        self.names.insert(dir_name, display);
        assert(self@ =~= old(self)@.insert(key, value));
    }

    /// The name that is displayed for `dir_name`.
    pub fn get(&self, dir_name: &str) -> (r: Option<String>)
        ensures
            match r {
                Some(display) => self@.contains_key(dir_name@) && self@[dir_name@] == display@,
                None => !self@.contains_key(dir_name@),
            },
    {
        match self.names.get(dir_name) {
            Some(display) => Some(display.clone()),
            None => None,
        }
    }
}

/// The name that is displayed for the directory `name`, or the one that its
/// spelling suggests.
pub open spec fn display_name(name: Seq<char>, names: Map<Seq<char>, Seq<char>>) -> Seq<char> {
    if names.contains_key(name) {
        names[name]
    } else {
        shortened(decoded(name))
    }
}

/// The name of the project to which the directory `name` belongs: a known
/// directory has its own name, a worktree that of its project.
pub open spec fn resolved(
    name: Seq<char>,
    names: Map<Seq<char>, Seq<char>>,
    agent: Seq<char>,
) -> Seq<char> {
    let dir = renamed(name, agent);
    if !names.contains_key(dir) && occurs(dir, worktree_mark(agent)) {
        display_name(dir.take(first_index(dir, worktree_mark(agent))), names)
    } else {
        display_name(dir, names)
    }
}

/// The name of the project to which the directory `dir_name` belongs.
pub fn resolve_name(dir_name: &str, name_map: &NameMap, agent: &str) -> (r: String)
    ensures
        r@ == resolved(dir_name@, name_map@, agent@),
{
    let dir_name = apply_renames(dir_name, agent);
    if let Some(display) = name_map.get(dir_name) {
        return display;
    }
    let chars = chars_of(dir_name);
    match find(&chars, &chars_of(worktree_marker(agent).as_str())) {
        Some(pos) => {
            let parent = text_of(&chars, 0, pos);
            proof {
                first_index_is(dir_name@, worktree_mark(agent@), pos as int);
                assert(parent@ =~= dir_name@.take(pos as int));
            }
            match name_map.get(parent.as_str()) {
                Some(display) => display,
                None => decode_fallback(parent.as_str()),
            }
        },
        None => decode_fallback(dir_name),
    }
}

/// The name under which all work that an orchestrator started is reported.
pub const ORCHESTRATOR_LABEL: &'static str = "[orchestrator]";

/// The directory `name` holds sessions that an orchestrator started.
pub open spec fn orchestrated(name: Seq<char>, agent: Seq<char>) -> bool {
    ||| "-tmp"@.is_prefix_of(name)
    ||| "-work"@.is_prefix_of(name)
    ||| name == "subagents"@
    ||| occurs(name, "-"@ + agent + "-sessions-worktrees-"@)
    ||| occurs(name, "-orch-dev-"@)
}

/// Whether the directory `dir_name` holds sessions that an orchestrator started.
pub fn is_orchestrator(dir_name: &str, agent: &str) -> (r: bool)
    ensures
        r == orchestrated(dir_name@, agent@),
{
    starts_with(dir_name, "-tmp") || starts_with(dir_name, "-work") || same_text(
        dir_name,
        "subagents",
    ) || contains(
        dir_name,
        "-".to_string().concat(agent).concat("-sessions-worktrees-").as_str(),
    ) || contains(dir_name, "-orch-dev-")
}

/// The name under which the directory `name` is reported.
pub open spec fn project_name(
    name: Seq<char>,
    names: Map<Seq<char>, Seq<char>>,
    agent: Seq<char>,
) -> Seq<char> {
    if orchestrated(name, agent) {
        ORCHESTRATOR_LABEL@
    } else {
        resolved(name, names, agent)
    }
}

/// The name under which the directory `dir_name` is reported.
pub fn project_name_from_dir(dir_name: &str, name_map: &NameMap, agent: &str) -> (r: String)
    ensures
        r@ == project_name(dir_name@, name_map@, agent@),
{
    if is_orchestrator(dir_name, agent) {
        ORCHESTRATOR_LABEL.to_string()
    } else {
        resolve_name(dir_name, name_map, agent)
    }
}

/// The names with the projects at `paths` added, one after the other.
pub open spec fn with_paths(
    names: Map<Seq<char>, Seq<char>>,
    paths: Seq<Seq<char>>,
) -> Map<Seq<char>, Seq<char>>
    decreases paths.len(),
{
    if paths.len() == 0 {
        names
    } else {
        with_paths(names, paths.drop_last()).insert(encoded(paths.last()), shortened(paths.last()))
    }
}

/// Projects that were deleted but have archived sessions.
pub open spec fn archived_paths(agent: Seq<char>) -> Seq<Seq<char>> {
    seq![
        "/syncthing/Sync/Projects/globalcomix/gc-sentry"@,
        "/syncthing/Sync/Projects/globalcomix/gc-phpstan-baseline-fixes-5"@,
        "/syncthing/Sync/Projects/globalcomix/gc-api-v2"@,
        "/syncthing/Sync/Projects/"@ + agent + "/"@ + agent + "-sessions-blinc"@,
        "/syncthing/Sync/Projects/"@ + agent + "/"@ + agent + "-sessions-tauri"@,
        "/syncthing/Sync/Projects/"@ + agent + "/"@ + agent + "-architect-viewer"@,
        "/syncthing/Sync/Projects/"@ + agent + "/agent-bus"@,
    ]
}

fn add_path(map: &mut NameMap, path: &str)
    ensures
        final(map)@ == old(map)@.insert(encoded(path@), shortened(path@)),
{
    map.insert(replace_char(path, '/', '-'), shorten_path(path));
}

/// Adds the projects at `paths`, one after the other.
pub fn add_paths(map: &mut NameMap, paths: &Vec<String>)
    ensures
        final(map)@ == with_paths(old(map)@, views(paths@)),
{
    let ghost all = views(paths@);
    let mut i: usize = 0;
    assert(all.take(0) =~= Seq::empty());
    while i < paths.len()
        invariant
            i <= paths@.len(),
            all == views(paths@),
            map@ == with_paths(old(map)@, all.take(i as int)),
        decreases paths@.len() - i,
    {
        add_path(map, paths[i].as_str());
        i += 1;
        assert(all.take(i as int).drop_last() =~= all.take(i - 1));
    }
    assert(all.take(i as int) =~= all);
}

/// Adds the projects that were deleted but have archived sessions.
pub fn add_archive_names(map: &mut NameMap, agent: &str)
    ensures
        final(map)@ == with_paths(old(map)@, archived_paths(agent@)),
{
    let home = "/syncthing/Sync/Projects/".to_string().concat(agent);
    let own = home.clone().concat("/").concat(agent);
    let mut paths: Vec<String> = Vec::new();
    paths.push("/syncthing/Sync/Projects/globalcomix/gc-sentry".to_string());
    paths.push("/syncthing/Sync/Projects/globalcomix/gc-phpstan-baseline-fixes-5".to_string());
    paths.push("/syncthing/Sync/Projects/globalcomix/gc-api-v2".to_string());
    paths.push(own.clone().concat("-sessions-blinc"));
    paths.push(own.clone().concat("-sessions-tauri"));
    paths.push(own.concat("-architect-viewer"));
    paths.push(home.concat("/agent-bus"));
    assert(views(paths@) =~= archived_paths(agent@));
    add_paths(map, &paths);
}

/// A listed project has its own name, unless a later path on the list has the
/// same directory and another name.
pub proof fn law_listed_project_named(
    names: Map<Seq<char>, Seq<char>>,
    paths: Seq<Seq<char>>,
    i: int,
)
    requires
        0 <= i < paths.len(),
        forall|j: int|
            i < j < paths.len() && encoded(#[trigger] paths[j]) == encoded(paths[i]) ==> shortened(
                paths[j],
            ) == shortened(paths[i]),
    ensures
        with_paths(names, paths).contains_key(encoded(paths[i])),
        with_paths(names, paths)[encoded(paths[i])] == shortened(paths[i]),
    decreases paths.len(),
{
    if i < paths.len() - 1 {
        let shorter = paths.drop_last();
        assert forall|j: int|
            i < j < shorter.len() && encoded(#[trigger] shorter[j]) == encoded(
                shorter[i],
            ) implies shortened(shorter[j]) == shortened(shorter[i]) by {
            assert(encoded(paths[j]) == encoded(paths[i]));
        }
        law_listed_project_named(names, shorter, i);
        assert(paths[paths.len() - 1] == paths.last());
    }
}

/// A list of projects takes no name away.
pub proof fn law_lists_only_add(names: Map<Seq<char>, Seq<char>>, paths: Seq<Seq<char>>)
    ensures
        names.dom().subset_of(with_paths(names, paths).dom()),
        forall|dir: Seq<char>| #[trigger]
            with_paths(names, paths).contains_key(dir) && (forall|i: int|
                0 <= i < paths.len() ==> encoded(#[trigger] paths[i]) != dir)
                ==> names.contains_key(dir) && with_paths(names, paths)[dir] == names[dir],
    decreases paths.len(),
{
    if paths.len() > 0 {
        let shorter = paths.drop_last();
        law_lists_only_add(names, shorter);
        assert forall|dir: Seq<char>| #[trigger]
            with_paths(names, paths).contains_key(dir) && (forall|i: int|
                0 <= i < paths.len() ==> encoded(#[trigger] paths[i]) != dir) implies
            names.contains_key(dir) && with_paths(names, paths)[dir] == names[dir] by {
            assert(encoded(paths[paths.len() - 1]) != dir);
            assert(with_paths(names, shorter).contains_key(dir));
            assert forall|i: int| 0 <= i < shorter.len() implies encoded(#[trigger] shorter[i])
                != dir by {
                assert(encoded(paths[i]) != dir);
            }
        }
    }
}

/// A directory with a displayed name is reported under it, if no project was
/// renamed to or from it and no orchestrator works there.
pub proof fn law_known_directory(
    dir: Seq<char>,
    names: Map<Seq<char>, Seq<char>>,
    agent: Seq<char>,
)
    requires
        names.contains_key(dir),
        renamed(dir, agent) == dir,
        !orchestrated(dir, agent),
    ensures
        project_name(dir, names, agent) == names[dir],
{
}

/// In the name of a worktree's directory the mark of a worktree stands first
/// where the project ends, if there is none in the project's own directory. A
/// directory that ends with all of the mark but its last dash counts as having one.
proof fn mark_stands_first(dir: Seq<char>, worktree: Seq<char>, agent: Seq<char>)
    requires
        agent.len() > 0,
        !agent.contains('-'),
        !occurs(dir.push('-'), worktree_mark(agent)),
    ensures
        first_at(dir + worktree_mark(agent) + worktree, worktree_mark(agent), dir.len() as int),
        !occurs(dir, worktree_mark(agent)),
        worktree_mark(agent).len() >= 2,
        worktree_mark(agent)[0] == '-',
        worktree_mark(agent)[1] == '-',
{
    let mark = worktree_mark(agent);
    let whole = dir + mark + worktree;
    reveal_strlit("--");
    reveal_strlit("-worktrees-");
    let end = "-worktrees-"@;
    assert forall|i: int| 1 <= i < mark.len() - 1 implies !(#[trigger] mark[i] == '-' && mark[i + 1]
        == '-') by {
        if 2 <= i < 2 + agent.len() {
            assert(mark[i] == agent[i - 2]);
        } else if i == 1 {
            assert(mark[2] == agent[0]);
        } else {
            assert(mark[i] == end[i - 2 - agent.len()]);
            assert(mark[i + 1] == end[i - 1 - agent.len()]);
        }
    }
    let at = dir.len() as int;
    assert(whole.subrange(at, at + mark.len()) =~= mark);
    assert forall|j: int| 0 <= j < dir.len() implies !occurs_at(whole, mark, j) by {
        if occurs_at(whole, mark, j) {
            let found = whole.subrange(j, j + mark.len());
            if j + mark.len() <= dir.len() + 1 {
                assert(dir.push('-').subrange(j, j + mark.len()) =~= found);
                assert(occurs_at(dir.push('-'), mark, j));
            } else {
                assert(found[at - j] == whole[at]);
                assert(found[at - j + 1] == whole[at + 1]);
                assert(mark[at - j] == '-' && mark[at - j + 1] == '-');
            }
        }
    }
    if occurs(dir, mark) {
        let i = choose|i: int| occurs_at(dir, mark, i);
        assert(dir.push('-').subrange(i, i + mark.len()) =~= dir.subrange(i, i + mark.len()));
        assert(occurs_at(dir.push('-'), mark, i));
    }
}

/// Two dashes meet in `s` at the index `i`.
spec fn dashes_meet(s: Seq<char>, i: int) -> bool {
    s[i] == '-' && s[i + 1] == '-'
}

/// What begins with a directory and a mark has the mark where the directory ends.
proof fn mark_after(s: Seq<char>, dir: Seq<char>, mark: Seq<char>)
    requires
        (dir + mark).is_prefix_of(s),
    ensures
        occurs_at(s, mark, dir.len() as int),
        dir == s.take(dir.len() as int),
{
    let end = dir.len() as int;
    let front = s.subrange(0, (dir + mark).len() as int);
    assert((dir + mark).skip(end) =~= mark);
    assert((dir + mark).take(end) =~= dir);
    assert(s.subrange(end, end + mark.len()) =~= front.skip(end));
    assert(s.take(end) =~= front.take(end));
}

/// What has a mark first where the directory `dir` ends does not begin with
/// another directory and the mark, if no two dashes meet in the other directory.
proof fn mark_of_one(
    whole: Seq<char>,
    dir: Seq<char>,
    other: Seq<char>,
    mark: Seq<char>,
)
    requires
        first_at(whole, mark, dir.len() as int),
        whole.take(dir.len() as int) == dir,
        mark.len() >= 2,
        dashes_meet(mark, 0),
        dir != other,
        other.len() > 0,
        other.last() != '-',
        forall|i: int| 0 <= i < other.len() - 1 ==> !dashes_meet(other, i),
    ensures
        whole != other,
        !(other + mark).is_prefix_of(whole),
{
    let at = dir.len() as int;
    let end = other.len() as int;
    let found = whole.subrange(at, at + mark.len());
    assert(found[0] == whole[at] && found[1] == whole[at + 1]);
    assert(dashes_meet(whole, at));
    if (other + mark).is_prefix_of(whole) {
        mark_after(whole, other, mark);
        assert(at <= end);
        if at < end {
            assert(other[at] == whole[at]);
            if at < end - 1 {
                assert(other[at + 1] == whole[at + 1]);
                assert(dashes_meet(other, at));
            }
        }
    }
}

/// Neither a directory without the mark of a worktree nor its worktrees belong to
/// another project in whose directory no two dashes meet.
proof fn not_of_other(dir: Seq<char>, worktree: Seq<char>, other: Seq<char>, agent: Seq<char>)
    requires
        agent.len() > 0,
        !agent.contains('-'),
        !occurs(dir.push('-'), worktree_mark(agent)),
        dir != other,
        other.len() > 0,
        other.last() != '-',
        forall|i: int| 0 <= i < other.len() - 1 ==> !dashes_meet(other, i),
    ensures
        !belongs_to(dir, other, agent),
        !belongs_to(dir + worktree_mark(agent) + worktree, other, agent),
{
    let mark = worktree_mark(agent);
    let whole = dir + mark + worktree;
    mark_stands_first(dir, worktree, agent);
    assert(whole.take(dir.len() as int) =~= dir);
    mark_of_one(whole, dir, other, mark);
    if (other + mark).is_prefix_of(dir) {
        mark_after(dir, other, mark);
    }
}

/// A worktree is reported under the name of its project, unless it has a name of
/// its own. The project's directory has no mark of a worktree in it, nor does it
/// end with all of the mark but its last dash.
pub proof fn law_worktree_of_project(
    dir: Seq<char>,
    worktree: Seq<char>,
    names: Map<Seq<char>, Seq<char>>,
    agent: Seq<char>,
)
    requires
        agent.len() > 0,
        !agent.contains('-'),
        !occurs(dir.push('-'), worktree_mark(agent)),
        !names.contains_key(dir + worktree_mark(agent) + worktree),
    ensures
        resolved(dir + worktree_mark(agent) + worktree, names, agent) == resolved(
            dir,
            names,
            agent,
        ),
{
    reveal_strlit("-syncthing-Sync-Projects-wow-wow-engine");
    reveal_strlit("-syncthing-Sync-Projects-wow-game-engine");
    reveal_strlit("-syncthing-Sync-Projects-wow-game-launcher");
    reveal_strlit("-syncthing-Sync-Projects-wow-website");
    let engine = "-syncthing-Sync-Projects-wow-wow-engine"@;
    let game = "-syncthing-Sync-Projects-wow-game-engine"@;
    let launcher = "-syncthing-Sync-Projects-wow-game-launcher"@;
    let website = "-syncthing-Sync-Projects-wow-website"@;
    if dir == engine || dir == game || dir == launcher || dir == website {
        law_renamed_worktree(dir, worktree, names, agent);
    } else {
        let mark = worktree_mark(agent);
        let whole = dir + mark + worktree;
        mark_stands_first(dir, worktree, agent);
        not_of_other(dir, worktree, engine, agent);
        not_of_other(dir, worktree, game, agent);
        not_of_other(dir, worktree, launcher, agent);
        not_of_other(dir, worktree, website, agent);
        first_index_is(whole, mark, dir.len() as int);
        assert(whole.take(dir.len() as int) =~= dir);
        assert(occurs(whole, mark));
    }
}

/// The worktrees of a renamed project are found where the project is.
pub proof fn law_renamed_worktree(
    dir: Seq<char>,
    worktree: Seq<char>,
    names: Map<Seq<char>, Seq<char>>,
    agent: Seq<char>,
)
    requires
        dir == "-syncthing-Sync-Projects-wow-wow-engine"@ || dir
            == "-syncthing-Sync-Projects-wow-game-engine"@ || dir
            == "-syncthing-Sync-Projects-wow-game-launcher"@ || dir
            == "-syncthing-Sync-Projects-wow-website"@,
    ensures
        renamed(dir + worktree_mark(agent) + worktree, agent) == renamed(dir, agent),
        resolved(dir + worktree_mark(agent) + worktree, names, agent) == resolved(
            dir,
            names,
            agent,
        ),
{
    let whole = dir + worktree_mark(agent) + worktree;
    assert((dir + worktree_mark(agent)).is_prefix_of(whole)) by {
        assert(whole.subrange(0, (dir + worktree_mark(agent)).len() as int) =~= dir
            + worktree_mark(agent));
    }
    reveal_strlit("-syncthing-Sync-Projects-wow-wow-engine");
    reveal_strlit("-syncthing-Sync-Projects-wow-game-engine");
    reveal_strlit("-syncthing-Sync-Projects-wow-game-launcher");
    reveal_strlit("-syncthing-Sync-Projects-wow-website");
    let engine = "-syncthing-Sync-Projects-wow-wow-engine"@;
    let game = "-syncthing-Sync-Projects-wow-game-engine"@;
    let launcher = "-syncthing-Sync-Projects-wow-game-launcher"@;
    let website = "-syncthing-Sync-Projects-wow-website"@;
    if dir != engine {
        different_projects(dir, whole, engine, 29, agent);
        different_projects(dir, whole, engine, 30, agent);
    }
    if dir != game {
        different_projects(dir, whole, game, 29, agent);
        different_projects(dir, whole, game, 34, agent);
    }
    if dir != launcher {
        different_projects(dir, whole, launcher, 29, agent);
        different_projects(dir, whole, launcher, 34, agent);
    }
}

/// A directory that begins with `dir` does not belong to a project whose
/// directory has another character at the index `i`.
proof fn different_projects(
    dir: Seq<char>,
    whole: Seq<char>,
    other: Seq<char>,
    i: int,
    agent: Seq<char>,
)
    requires
        0 <= i < dir.len(),
        i < other.len(),
        (dir + worktree_mark(agent)).is_prefix_of(whole),
    ensures
        dir[i] != other[i] ==> !belongs_to(whole, other, agent) && !belongs_to(dir, other, agent),
{
    let mark = worktree_mark(agent);
    assert(whole.subrange(0, (dir + mark).len() as int)[i] == (dir + mark)[i]);
    if (other + mark).is_prefix_of(whole) {
        assert(whole.subrange(0, (other + mark).len() as int)[i] == (other + mark)[i]);
    }
    if (other + mark).is_prefix_of(dir) {
        assert(dir.subrange(0, (other + mark).len() as int)[i] == (other + mark)[i]);
    }
}

/// Nothing is renamed twice.
pub proof fn law_renames_settle(name: Seq<char>, agent: Seq<char>)
    ensures
        renamed(renamed(name, agent), agent) == renamed(name, agent),
{
    let found = renamed(name, agent);
    if found != name {
        reveal_strlit("-syncthing-Sync-Projects-wow-wow-engine");
        reveal_strlit("-syncthing-Sync-Projects-wow-game-engine");
        reveal_strlit("-syncthing-Sync-Projects-wow-game-launcher");
        reveal_strlit("-syncthing-Sync-Projects-wow-website");
        reveal_strlit("-syncthing-Sync-Projects-world-of-osso-game-engine");
        reveal_strlit("-syncthing-Sync-Projects-world-of-osso-game-launcher");
        reveal_strlit("-syncthing-Sync-Projects-world-of-osso-website");
        let whole = found + worktree_mark(agent);
        assert((found + worktree_mark(agent)).is_prefix_of(whole)) by {
            assert(whole.subrange(0, whole.len() as int) =~= whole);
        }
        let old = "-syncthing-Sync-Projects-wow-wow-engine"@;
        different_projects(found, whole, old, 27, agent);
        let old = "-syncthing-Sync-Projects-wow-game-engine"@;
        different_projects(found, whole, old, 27, agent);
        let old = "-syncthing-Sync-Projects-wow-game-launcher"@;
        different_projects(found, whole, old, 27, agent);
        let old = "-syncthing-Sync-Projects-wow-website"@;
        different_projects(found, whole, old, 27, agent);
    }
}

/// The name of a directory in which the dots of hidden directories are dashes
/// too.
pub open spec fn flattened(path: Seq<char>) -> Seq<char> {
    replaced(replaced(path, '.', '-'), '/', '-')
}

/// An absolute path without a dash and without an empty component.
pub open spec fn dashless(path: Seq<char>) -> bool {
    &&& path.len() >= 1
    &&& path[0] == '/'
    &&& forall|i: int| 0 <= i < path.len() ==> #[trigger] path[i] != '-'
    &&& forall|i: int| 1 <= i < path.len() && #[trigger] path[i] == '/' ==> path[i - 1] != '/'
}

/// A path without a dash and without an empty component can be told from the name
/// of its directory.
pub proof fn law_decoded(path: Seq<char>)
    requires
        dashless(path),
    ensures
        decoded(encoded(path)) == path,
{
    let dir = encoded(path);
    let rest = dir.drop_first();
    assert(dir[0] == '-');
    if path.len() > 1 {
        assert(path[1] != '/');
        assert(rest[0] == path[1]);
    }
    assert(without_leading_dashes(dir) == without_leading_dashes(rest));
    assert(without_leading_dashes(rest) == rest);
    let spelled = seq!['/'] + replaced(rest, '-', '/');
    assert forall|i: int| 0 <= i < spelled.len() implies spelled[i] == path[i] by {
        if i > 0 {
            assert(rest[i - 1] == dir[i]);
        }
    }
    assert(spelled =~= path);
    slashes_stay(path);
}

proof fn slashes_stay(s: Seq<char>)
    requires
        forall|i: int| 1 <= i < s.len() && #[trigger] s[i] == '/' ==> s[i - 1] != '/',
    ensures
        with_dot_directories(s) == s,
    decreases s.len(),
{
    if s.len() > 0 {
        let rest = s.skip(1);
        assert forall|i: int| 1 <= i < rest.len() && #[trigger] rest[i] == '/' implies rest[i - 1]
            != '/' by {
            assert(s[i + 1] == '/');
        }
        slashes_stay(rest);
        assert(s =~= seq![s[0]] + rest);
    }
}

/// An absolute path that can be told from the name of its directory, even though
/// dots are dashes there: it has no dash, no empty component, and dots only in
/// front of the name of a directory below the first.
pub open spec fn recoverable(path: Seq<char>) -> bool {
    &&& path.len() >= 1
    &&& path[0] == '/'
    &&& path.len() >= 2 ==> path[1] != '.'
    &&& forall|i: int| 0 <= i < path.len() ==> #[trigger] path[i] != '-'
    &&& forall|i: int|
        1 <= i < path.len() && (#[trigger] path[i] == '/' || path[i] == '.') ==> (path[i] == '/')
            == (path[i - 1] != '/')
}

/// A path that can be told from the name of its directory is, even though dots are
/// dashes there.
pub proof fn law_decoded_flattened(path: Seq<char>)
    requires
        recoverable(path),
    ensures
        decoded(flattened(path)) == path,
{
    let dir = flattened(path);
    assert(dir[0] == '-');
    let rest = dir.drop_first();
    if path.len() > 1 {
        assert(path[1] != '/');
        assert(dir[1] == path[1]);
        assert(rest[0] == path[1]);
    }
    assert(without_leading_dashes(dir) == without_leading_dashes(rest));
    assert(without_leading_dashes(rest) == rest);
    let spelled = seq!['/'] + replaced(rest, '-', '/');
    assert(spelled =~= replaced(path, '.', '/')) by {
        assert forall|i: int| 0 <= i < spelled.len() implies spelled[i] == replaced(
            path,
            '.',
            '/',
        )[i] by {
            if i > 0 {
                assert(spelled[i] == replaced(rest, '-', '/')[i - 1]);
                assert(rest[i - 1] == dir[i]);
                assert(path[i] != '-');
            }
        }
    }
    dots_return(path, 0);
    assert(path.skip(0) =~= path);
    assert(spelled.skip(0) =~= spelled);
}

proof fn dots_return(path: Seq<char>, k: int)
    requires
        recoverable(path),
        0 <= k <= path.len(),
        k < path.len() ==> path[k] != '.',
    ensures
        with_dot_directories(replaced(path, '.', '/').skip(k)) == path.skip(k),
    decreases path.len() - k,
{
    let spelled = replaced(path, '.', '/');
    let rest = spelled.skip(k);
    if k == path.len() {
        assert(rest =~= path.skip(k));
    } else if rest.len() >= 2 && rest[0] == '/' && rest[1] == '/' {
        assert(path[k] == '/');
        assert(path[k + 1] == '/' || path[k + 1] == '.');
        assert(path[k + 1] == '.');
        if k + 2 < path.len() {
            assert(path[k + 2] != '.');
        }
        dots_return(path, k + 2);
        assert(rest.skip(2) =~= spelled.skip(k + 2));
        assert(path.skip(k) =~= seq!['/', '.'] + path.skip(k + 2));
    } else {
        if k + 1 < path.len() && path[k + 1] == '.' {
            assert(path[k] == '/');
            assert(rest[1] == '/');
        }
        dots_return(path, k + 1);
        assert(rest.skip(1) =~= spelled.skip(k + 1));
        assert(path.skip(k) =~= seq![path[k]] + path.skip(k + 1));
    }
}

/// A project that no list names is reported under its path, if the path can be
/// told from the name `dir` of its directory. In that name dots may be dashes too.
pub proof fn law_unlisted_project(
    path: Seq<char>,
    dir: Seq<char>,
    names: Map<Seq<char>, Seq<char>>,
    agent: Seq<char>,
)
    requires
        dir == encoded(path) && dashless(path) || dir == flattened(path) && recoverable(path),
        !names.contains_key(dir),
        renamed(dir, agent) == dir,
        !occurs(dir, worktree_mark(agent)),
        !orchestrated(dir, agent),
    ensures
        project_name(dir, names, agent) == shortened(path),
{
    if dir == encoded(path) && dashless(path) {
        law_decoded(path);
    } else {
        law_decoded_flattened(path);
    }
}

proof fn begins_with(front: Seq<char>, rest: Seq<char>)
    ensures
        front.is_prefix_of(front + rest),
        (front + rest).skip(front.len() as int) == rest,
{
    assert((front + rest).subrange(0, front.len() as int) =~= front);
    assert((front + rest).skip(front.len() as int) =~= rest);
}

proof fn splits_after(s: Seq<char>, front: Seq<char>)
    requires
        front.is_prefix_of(s),
    ensures
        s == front + s.skip(front.len() as int),
{
    assert(s =~= s.subrange(0, front.len() as int) + s.skip(front.len() as int));
}

/// Texts that differ at the index `i` do not begin alike.
proof fn begins_otherwise(front: Seq<char>, rest: Seq<char>, other: Seq<char>, i: int)
    requires
        0 <= i < front.len(),
        i < other.len(),
        front[i] != other[i],
    ensures
        !other.is_prefix_of(front + rest),
{
    if other.is_prefix_of(front + rest) {
        assert((front + rest).subrange(0, other.len() as int)[i] == (front + rest)[i]);
    }
}

proof fn begins_longer(front: Seq<char>, more: Seq<char>, rest: Seq<char>)
    requires
        !more.is_prefix_of(rest),
    ensures
        !(front + more).is_prefix_of(front + rest),
{
    if (front + more).is_prefix_of(front + rest) {
        let n = front.len() as int;
        let whole = (front + rest).subrange(0, (front + more).len() as int);
        assert(whole.skip(n) =~= (front + more).skip(n));
        assert((front + more).skip(n) =~= more);
        assert(rest.subrange(0, more.len() as int) =~= whole.skip(n));
    }
}

/// Below the directories of projects the rest of a path is left. Below the home
/// directory and below the shared directory the name of that directory stays in
/// front.
pub proof fn law_shortened_paths(rest: Seq<char>)
    ensures
        shortened("/syncthing/Sync/Projects/"@ + rest) == rest,
        shortened("/home/osso/Projects/"@ + rest) == rest,
        shortened("/home/osso/Repos/"@ + rest) == rest,
        !"Projects/"@.is_prefix_of(rest) && !"Repos/"@.is_prefix_of(rest) ==> shortened(
            "/home/osso/"@ + rest,
        ) == "osso/"@ + rest,
        !"Projects/"@.is_prefix_of(rest) ==> shortened("/syncthing/Sync/"@ + rest) == "Sync/"@
            + rest,
{
    reveal_strlit("/syncthing/Sync/Projects/");
    reveal_strlit("/home/osso/Projects/");
    reveal_strlit("/home/osso/Repos/");
    reveal_strlit("/home/osso/");
    reveal_strlit("/syncthing/Sync/");
    reveal_strlit("Projects/");
    reveal_strlit("Repos/");
    let shared_projects = "/syncthing/Sync/Projects/"@;
    let projects = "/home/osso/Projects/"@;
    let repos = "/home/osso/Repos/"@;
    let home = "/home/osso/"@;
    let shared = "/syncthing/Sync/"@;
    begins_with(shared_projects, rest);
    begins_with(projects, rest);
    begins_with(repos, rest);
    begins_with(home, rest);
    begins_with(shared, rest);
    begins_otherwise(projects, rest, shared_projects, 1);
    begins_otherwise(repos, rest, shared_projects, 1);
    begins_otherwise(repos, rest, projects, 11);
    begins_otherwise(home, rest, shared_projects, 1);
    begins_otherwise(shared, rest, projects, 1);
    begins_otherwise(shared, rest, repos, 1);
    begins_otherwise(shared, rest, home, 1);
    assert(projects =~= home + "Projects/"@);
    assert(repos =~= home + "Repos/"@);
    assert(shared_projects =~= shared + "Projects/"@);
    if !"Projects/"@.is_prefix_of(rest) {
        begins_longer(home, "Projects/"@, rest);
        begins_longer(shared, "Projects/"@, rest);
    }
    if !"Repos/"@.is_prefix_of(rest) {
        begins_longer(home, "Repos/"@, rest);
    }
}

/// Every other path stays as it is.
pub proof fn law_other_paths(path: Seq<char>)
    requires
        forall|rest: Seq<char>| path != #[trigger] ("/home/osso/"@ + rest),
        forall|rest: Seq<char>| path != #[trigger] ("/syncthing/Sync/"@ + rest),
    ensures
        shortened(path) == path,
{
    reveal_strlit("/syncthing/Sync/Projects/");
    reveal_strlit("/home/osso/Projects/");
    reveal_strlit("/home/osso/Repos/");
    reveal_strlit("/home/osso/");
    reveal_strlit("/syncthing/Sync/");
    if "/home/osso/"@.is_prefix_of(path) {
        splits_after(path, "/home/osso/"@);
    }
    if "/syncthing/Sync/"@.is_prefix_of(path) {
        splits_after(path, "/syncthing/Sync/"@);
    }
    begins_shorter(path, "/home/osso/Projects/"@, "/home/osso/"@);
    begins_shorter(path, "/home/osso/Repos/"@, "/home/osso/"@);
    begins_shorter(path, "/syncthing/Sync/Projects/"@, "/syncthing/Sync/"@);
}

proof fn begins_shorter(s: Seq<char>, long: Seq<char>, short: Seq<char>)
    requires
        !short.is_prefix_of(s),
        short =~= long.take(short.len() as int),
        short.len() <= long.len(),
    ensures
        !long.is_prefix_of(s),
{
    if long.is_prefix_of(s) {
        assert(s.subrange(0, short.len() as int) =~= s.subrange(0, long.len() as int).take(
            short.len() as int,
        ));
    }
}

/// The directory of a project has the project's path for its name, with each `/`
/// turned into `-`.
pub proof fn law_encoded_path(path: Seq<char>)
    ensures
        encoded(path).len() == path.len(),
        forall|i: int|
            0 <= i < path.len() ==> #[trigger] encoded(path)[i] == if path[i] == '/' {
                '-'
            } else {
                path[i]
            },
{
}

/// A directory is the work of an orchestrator if its name begins with `-tmp` or
/// `-work`, is `subagents`, or has the mark of a session's worktree or `-orch-dev-`
/// anywhere in it.
pub proof fn law_orchestrator_directory(
    before: Seq<char>,
    after: Seq<char>,
    names: Map<Seq<char>, Seq<char>>,
    agent: Seq<char>,
)
    ensures
        project_name("-tmp"@ + after, names, agent) == "[orchestrator]"@,
        project_name("-work"@ + after, names, agent) == "[orchestrator]"@,
        project_name("subagents"@, names, agent) == "[orchestrator]"@,
        project_name(before + ("-"@ + agent + "-sessions-worktrees-"@) + after, names, agent)
            == "[orchestrator]"@,
        project_name(before + "-orch-dev-"@ + after, names, agent) == "[orchestrator]"@,
{
    begins_with("-tmp"@, after);
    begins_with("-work"@, after);
    let mark = "-"@ + agent + "-sessions-worktrees-"@;
    law_occurs_between(before + mark + after, mark);
    law_occurs_between(before + "-orch-dev-"@ + after, "-orch-dev-"@);
}

/// Any other directory is reported under the name of the project that it belongs
/// to.
pub proof fn law_ordinary_directory(
    name: Seq<char>,
    names: Map<Seq<char>, Seq<char>>,
    agent: Seq<char>,
)
    requires
        forall|rest: Seq<char>| name != #[trigger] ("-tmp"@ + rest),
        forall|rest: Seq<char>| name != #[trigger] ("-work"@ + rest),
        name != "subagents"@,
        forall|before: Seq<char>, after: Seq<char>|
            name != #[trigger] (before + ("-"@ + agent + "-sessions-worktrees-"@) + after),
        forall|before: Seq<char>, after: Seq<char>|
            name != #[trigger] (before + "-orch-dev-"@ + after),
    ensures
        !orchestrated(name, agent),
        project_name(name, names, agent) == resolved(name, names, agent),
{
    if "-tmp"@.is_prefix_of(name) {
        splits_after(name, "-tmp"@);
    }
    if "-work"@.is_prefix_of(name) {
        splits_after(name, "-work"@);
    }
    law_occurs_between(name, "-"@ + agent + "-sessions-worktrees-"@);
    law_occurs_between(name, "-orch-dev-"@);
}

/// Four projects were renamed or merged. Their directories, and those of their
/// worktrees, stand for that of the project under its new name.
pub proof fn law_renamed_projects(worktree: Seq<char>, agent: Seq<char>)
    ensures
        ({
            let engine = "-syncthing-Sync-Projects-world-of-osso-game-engine"@;
            let launcher = "-syncthing-Sync-Projects-world-of-osso-game-launcher"@;
            let website = "-syncthing-Sync-Projects-world-of-osso-website"@;
            let old_engine = "-syncthing-Sync-Projects-wow-wow-engine"@;
            let old_game = "-syncthing-Sync-Projects-wow-game-engine"@;
            let old_launcher = "-syncthing-Sync-Projects-wow-game-launcher"@;
            let old_website = "-syncthing-Sync-Projects-wow-website"@;
            let tail = "--"@ + agent + "-worktrees-"@ + worktree;
            &&& renamed(old_engine, agent) == engine
            &&& renamed(old_engine + tail, agent) == engine
            &&& renamed(old_game, agent) == engine
            &&& renamed(old_game + tail, agent) == engine
            &&& renamed(old_launcher, agent) == launcher
            &&& renamed(old_launcher + tail, agent) == launcher
            &&& renamed(old_website, agent) == website
            &&& renamed(old_website + tail, agent) == website
        }),
{
    reveal_strlit("-syncthing-Sync-Projects-wow-wow-engine");
    reveal_strlit("-syncthing-Sync-Projects-wow-game-engine");
    reveal_strlit("-syncthing-Sync-Projects-wow-game-launcher");
    reveal_strlit("-syncthing-Sync-Projects-wow-website");
    let old_engine = "-syncthing-Sync-Projects-wow-wow-engine"@;
    let old_game = "-syncthing-Sync-Projects-wow-game-engine"@;
    let old_launcher = "-syncthing-Sync-Projects-wow-game-launcher"@;
    let old_website = "-syncthing-Sync-Projects-wow-website"@;
    let tail = "--"@ + agent + "-worktrees-"@ + worktree;
    let names = Map::<Seq<char>, Seq<char>>::empty();
    law_renamed_worktree(old_engine, worktree, names, agent);
    law_renamed_worktree(old_game, worktree, names, agent);
    law_renamed_worktree(old_launcher, worktree, names, agent);
    law_renamed_worktree(old_website, worktree, names, agent);
    assert(old_engine + tail =~= old_engine + worktree_mark(agent) + worktree);
    assert(old_game + tail =~= old_game + worktree_mark(agent) + worktree);
    assert(old_launcher + tail =~= old_launcher + worktree_mark(agent) + worktree);
    assert(old_website + tail =~= old_website + worktree_mark(agent) + worktree);
    let whole = old_game + worktree_mark(agent);
    begins_with(whole, Seq::empty());
    assert(whole + Seq::empty() =~= whole);
    different_projects(old_game, whole, old_engine, 29, agent);
    let whole = old_launcher + worktree_mark(agent);
    begins_with(whole, Seq::empty());
    assert(whole + Seq::empty() =~= whole);
    different_projects(old_launcher, whole, old_engine, 29, agent);
    different_projects(old_launcher, whole, old_game, 34, agent);
    let whole = old_website + worktree_mark(agent);
    begins_with(whole, Seq::empty());
    assert(whole + Seq::empty() =~= whole);
    different_projects(old_website, whole, old_engine, 30, agent);
    different_projects(old_website, whole, old_game, 29, agent);
    different_projects(old_website, whole, old_launcher, 29, agent);
}

/// Every other directory stays what it is.
pub proof fn law_other_directories(name: Seq<char>, agent: Seq<char>)
    requires
        name != "-syncthing-Sync-Projects-wow-wow-engine"@,
        name != "-syncthing-Sync-Projects-wow-game-engine"@,
        name != "-syncthing-Sync-Projects-wow-game-launcher"@,
        name != "-syncthing-Sync-Projects-wow-website"@,
        forall|worktree: Seq<char>|
            name != #[trigger] ("-syncthing-Sync-Projects-wow-wow-engine"@ + ("--"@ + agent
                + "-worktrees-"@) + worktree),
        forall|worktree: Seq<char>|
            name != #[trigger] ("-syncthing-Sync-Projects-wow-game-engine"@ + ("--"@ + agent
                + "-worktrees-"@) + worktree),
        forall|worktree: Seq<char>|
            name != #[trigger] ("-syncthing-Sync-Projects-wow-game-launcher"@ + ("--"@ + agent
                + "-worktrees-"@) + worktree),
        forall|worktree: Seq<char>|
            name != #[trigger] ("-syncthing-Sync-Projects-wow-website"@ + ("--"@ + agent
                + "-worktrees-"@) + worktree),
    ensures
        renamed(name, agent) == name,
{
    other_directory(name, "-syncthing-Sync-Projects-wow-wow-engine"@, agent);
    other_directory(name, "-syncthing-Sync-Projects-wow-game-engine"@, agent);
    other_directory(name, "-syncthing-Sync-Projects-wow-game-launcher"@, agent);
    other_directory(name, "-syncthing-Sync-Projects-wow-website"@, agent);
}

proof fn other_directory(name: Seq<char>, project: Seq<char>, agent: Seq<char>)
    requires
        name != project,
        forall|worktree: Seq<char>|
            name != #[trigger] (project + ("--"@ + agent + "-worktrees-"@) + worktree),
    ensures
        !belongs_to(name, project, agent),
{
    if (project + worktree_mark(agent)).is_prefix_of(name) {
        splits_after(name, project + worktree_mark(agent));
    }
}

/// A directory that is listed has the name on the list, whatever its spelling.
pub proof fn law_resolved_listed(
    name: Seq<char>,
    names: Map<Seq<char>, Seq<char>>,
    agent: Seq<char>,
)
    requires
        names.contains_key(renamed(name, agent)),
    ensures
        resolved(name, names, agent) == names[renamed(name, agent)],
{
}

/// A directory that is not listed and is no worktree has the name that its
/// spelling suggests.
pub proof fn law_resolved_by_spelling(
    name: Seq<char>,
    names: Map<Seq<char>, Seq<char>>,
    agent: Seq<char>,
)
    requires
        !names.contains_key(renamed(name, agent)),
        forall|before: Seq<char>, after: Seq<char>|
            renamed(name, agent) != #[trigger] (before + ("--"@ + agent + "-worktrees-"@) + after),
    ensures
        resolved(name, names, agent) == shortened(decoded(renamed(name, agent))),
{
    law_occurs_between(renamed(name, agent), "--"@ + agent + "-worktrees-"@);
}

/// A worktree that is not listed has the name of what stands before the first mark
/// of a worktree: the one on the list, or else the one that the spelling suggests.
pub proof fn law_resolved_worktree(
    name: Seq<char>,
    project: Seq<char>,
    worktree: Seq<char>,
    names: Map<Seq<char>, Seq<char>>,
    agent: Seq<char>,
)
    requires
        !names.contains_key(renamed(name, agent)),
        renamed(name, agent) == project + ("--"@ + agent + "-worktrees-"@) + worktree,
        forall|before: Seq<char>, after: Seq<char>|
            renamed(name, agent) == #[trigger] (before + ("--"@ + agent + "-worktrees-"@) + after)
                ==> project.len() <= before.len(),
    ensures
        resolved(name, names, agent) == if names.contains_key(project) {
            names[project]
        } else {
            shortened(decoded(project))
        },
{
    let dir = renamed(name, agent);
    let mark = "--"@ + agent + "-worktrees-"@;
    let at = project.len() as int;
    law_occurs_between(dir, mark);
    assert(dir.subrange(at, at + mark.len()) =~= mark);
    assert forall|j: int| 0 <= j < at implies !occurs_at(dir, mark, j) by {
        if occurs_at(dir, mark, j) {
            let before = dir.take(j);
            let after = dir.skip(j + mark.len());
            assert(dir =~= before + dir.subrange(j, j + mark.len()) + after);
            assert(dir == before + mark + after);
        }
    }
    first_index_is(dir, mark, at);
    assert(dir.take(at) =~= project);
}

proof fn dots_join(x: Seq<char>, y: Seq<char>)
    requires
        x.len() > 0,
        x.last() != '/',
    ensures
        with_dot_directories(x + y) == with_dot_directories(x) + with_dot_directories(y),
    decreases x.len(),
{
    let whole = x + y;
    if x.len() == 1 {
        assert(whole.skip(1) =~= y);
        assert(x.skip(1) =~= Seq::empty());
        assert(with_dot_directories(x) =~= x);
        assert(with_dot_directories(whole) =~= x + with_dot_directories(y));
    } else if x[0] == '/' && x[1] == '/' {
        assert(x.len() > 2);
        assert(x.skip(2).last() == x.last());
        dots_join(x.skip(2), y);
        assert(whole.skip(2) =~= x.skip(2) + y);
        assert(with_dot_directories(whole) =~= with_dot_directories(x) + with_dot_directories(y));
    } else {
        assert(x.skip(1).last() == x.last());
        dots_join(x.skip(1), y);
        assert(whole.skip(1) =~= x.skip(1) + y);
        assert(with_dot_directories(whole) =~= with_dot_directories(x) + with_dot_directories(y));
    }
}

/// The dashes in front of a directory's name tell nothing more than that the path
/// is absolute.
pub proof fn law_decoded_leading_dash(name: Seq<char>)
    ensures
        decoded("-"@ + name) == decoded(name),
{
    reveal_strlit("-");
    assert(("-"@ + name).drop_first() =~= name);
}

/// Without a dash the name of a directory is that of a directory in the root.
pub proof fn law_decoded_without_dash(name: Seq<char>)
    requires
        !name.contains('-'),
        !name.contains('/'),
    ensures
        decoded(name) == "/"@ + name,
{
    reveal_strlit("/");
    assert("/"@ =~= seq!['/']);
    assert(name.len() > 0 ==> name.contains(name[0]));
    assert(without_leading_dashes(name) == name);
    assert forall|i: int| 0 <= i < name.len() implies #[trigger] name[i] != '-' && name[i]
        != '/' by {
        assert(name.contains(name[i]));
    }
    assert(replaced(name, '-', '/') =~= name);
    let s = seq!['/'] + name;
    assert forall|i: int| 1 <= i < s.len() && #[trigger] s[i] == '/' implies s[i - 1] != '/' by {
        assert(s[i] == name[i - 1]);
    }
    slashes_stay(s);
}

/// One dash inside a name is a separator. Two are a separator and the dot of a
/// hidden directory. What follows them is spelled as after any other character.
pub proof fn law_decoded_dashes(front: Seq<char>, rest: Seq<char>)
    requires
        front.len() > 0,
        front[0] != '-',
        front.last() != '-',
        front.last() != '/',
    ensures
        rest.len() == 0 || (rest[0] != '-' && rest[0] != '/') ==> decoded(front + "-"@ + rest)
            == decoded(front) + "/"@ + decoded("x"@ + rest).skip(2),
        decoded(front + "--"@ + rest) == decoded(front) + "/."@ + decoded("x"@ + rest).skip(2),
{
    reveal_strlit("-");
    reveal_strlit("--");
    reveal_strlit("/");
    reveal_strlit("/.");
    reveal_strlit("x");
    let x = seq!['/'] + replaced(front, '-', '/');
    let tail = replaced(rest, '-', '/');
    assert(x.last() == front.last());
    assert(without_leading_dashes(front) == front);
    let plain = "x"@ + rest;
    assert(plain[0] == 'x');
    assert(without_leading_dashes(plain) == plain);
    let spelled = seq!['/'] + replaced(plain, '-', '/');
    assert(spelled =~= seq!['/', 'x'] + tail);
    let start = seq!['/', 'x'];
    dots_join(start, tail);
    assert(with_dot_directories(start) =~= start) by {
        slashes_stay(start);
    }
    assert(decoded(plain).skip(2) =~= with_dot_directories(tail));
    let two = front + "--"@ + rest;
    assert(two[0] == front[0]);
    assert(without_leading_dashes(two) == two);
    let y = seq!['/', '/'] + tail;
    assert(seq!['/'] + replaced(two, '-', '/') =~= x + y);
    dots_join(x, y);
    assert(y.skip(2) =~= tail);
    assert(decoded(two) =~= decoded(front) + "/."@ + with_dot_directories(tail));
    if rest.len() == 0 || (rest[0] != '-' && rest[0] != '/') {
        let one = front + "-"@ + rest;
        assert(one[0] == front[0]);
        assert(without_leading_dashes(one) == one);
        let z = seq!['/'] + tail;
        assert(seq!['/'] + replaced(one, '-', '/') =~= x + z);
        dots_join(x, z);
        assert(z.skip(1) =~= tail);
        assert(decoded(one) =~= decoded(front) + "/"@ + with_dot_directories(tail));
    }
}

} // verus!
