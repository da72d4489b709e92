//! The projects that the agent's configuration file lists.

use vstd::prelude::*;

use crate::names::{
    add_archive_names, add_paths, archived_paths, encoded, law_encoded_path,
    law_listed_project_named, law_lists_only_add, law_shortened_paths, orchestrated, project_name,
    renamed, shortened, with_paths, NameMap,
};
use crate::text::{ascending, ascending_lists_equal, text_before, text_before_irreflexive, views};

verus! {

/// What is read of a JSON value: the members of an object, and of anything else
/// that it is no object.
pub enum Json {
    Object(Map<Seq<char>, Json>),
    Other,
}

/// A JSON value of `serde_json`.
#[verifier::external_type_specification]
#[verifier::external_body]
pub struct ExValue(serde_json::Value);

/// The members of a JSON object of `serde_json`.
#[verifier::external_type_specification]
#[verifier::external_body]
#[verifier::reject_recursive_types(K)]
#[verifier::reject_recursive_types(V)]
pub struct ExMembers<K, V>(serde_json::Map<K, V>);

/// The error of `serde_json`.
#[verifier::external_type_specification]
#[verifier::external_body]
pub struct ExJsonError(serde_json::Error);

/// The JSON value that `serde_json::from_str` reads in `text`, if it is JSON.
pub uninterp spec fn json_read(text: Seq<char>) -> Option<Json>;

/// What a value of `serde_json` holds.
pub uninterp spec fn json_held(value: serde_json::Value) -> Json;

/// What the members of an object of `serde_json` hold.
pub uninterp spec fn members_held(
    members: serde_json::Map<String, serde_json::Value>,
) -> Map<Seq<char>, Json>;

/// `serde_json::from_str` reads a JSON value. Whether it succeeds, and with what
/// value, depends on the text alone.
#[verifier::external_body]
fn read_json(text: &str) -> (r: Result<serde_json::Value, serde_json::Error>)
    ensures
        match r {
            Ok(value) => json_read(text@) == Some(json_held(value)),
            Err(_) => json_read(text@) is None,
        },
{
    serde_json::from_str::<serde_json::Value>(text)
}

/// `serde_json::Value::get` with a string gives the member of that name of an
/// object. It gives nothing for another name or for another value.
#[verifier::external_body]
fn member<'a>(value: &'a serde_json::Value, name: &str) -> (r: Option<&'a serde_json::Value>)
    ensures
        match json_held(*value) {
            Json::Object(members) => match r {
                Some(found) => members.contains_key(name@) && members[name@] == json_held(*found),
                None => !members.contains_key(name@),
            },
            Json::Other => r is None,
        },
{
    value.get(name)
}

/// `serde_json::Value::as_object` gives the members of an object, and nothing
/// for another value.
#[verifier::external_body]
fn members(value: &serde_json::Value) -> (r: Option<&serde_json::Map<String, serde_json::Value>>)
    ensures
        match json_held(*value) {
            Json::Object(members) => r matches Some(found) && members_held(*found) == members,
            Json::Other => r is None,
        },
{
    value.as_object()
}

/// `names` lists the names of `members`, in ascending order.
pub open spec fn lists_names(names: Seq<Seq<char>>, members: Map<Seq<char>, Json>) -> bool {
    ascending(names) && names.to_set() == members.dom()
}

/// The names of `members`, in ascending order.
pub open spec fn names_in_order(members: Map<Seq<char>, Json>) -> Seq<Seq<char>> {
    choose|names: Seq<Seq<char>>| lists_names(names, members)
}

/// `serde_json::Map::keys` gives the name of each member once. The map is a
/// `BTreeMap`, as `serde_json` builds it without its feature `preserve_order`,
/// and walks its keys in the order of strings, that of their code points.
#[verifier::external_body]
fn member_names(members: &serde_json::Map<String, serde_json::Value>) -> (r: Vec<String>)
    ensures
        lists_names(views(r@), members_held(*members)),
{
    members.keys().cloned().collect()
}

/// The members of the object `projects` of a configuration, if it is JSON and
/// has one.
pub open spec fn listed_projects(content: Seq<char>) -> Option<Map<Seq<char>, Json>> {
    match json_read(content) {
        Some(Json::Object(config)) => if config.contains_key("projects"@) {
            match config["projects"@] {
                Json::Object(projects) => Some(projects),
                Json::Other => None,
            }
        } else {
            None
        },
        _ => None,
    }
}

/// The paths of the projects that the configuration `content` lists, in
/// ascending order, if it has a list of projects.
pub fn project_paths(content: &str) -> (r: Option<Vec<String>>)
    ensures
        match listed_projects(content@) {
            Some(projects) => {
                &&& r matches Some(paths)
                &&& lists_names(views(paths@), projects)
                &&& views(paths@) == names_in_order(projects)
            },
            None => r is None,
        },
{
    let config = match read_json(content) {
        Ok(config) => config,
        Err(_) => {
            return None;
        },
    };
    let projects = match member(&config, "projects") {
        Some(projects) => projects,
        None => {
            return None;
        },
    };
    match members(projects) {
        Some(projects) => {
            let paths = member_names(projects);
            proof {
                let held = members_held(*projects);
                assert(lists_names(names_in_order(held), held));
                ascending_lists_equal(views(paths@), names_in_order(held));
            }
            Some(paths)
        },
        None => None,
    }
}

/// The names of the projects at `paths` and of those that only the archive
/// knows. With no list of projects there are no names.
pub open spec fn known_names(
    paths: Option<Seq<Seq<char>>>,
    agent: Seq<char>,
) -> Map<Seq<char>, Seq<char>> {
    match paths {
        Some(paths) => with_paths(with_paths(Map::empty(), paths), archived_paths(agent)),
        None => Map::empty(),
    }
}

/// The names of the projects at `paths` and of those that only the archive
/// knows. With no list of projects there are no names.
pub fn name_paths(paths: Option<Vec<String>>, agent: &str) -> (r: NameMap)
    ensures
        match paths {
            Some(paths) => r@ == known_names(Some(views(paths@)), agent@),
            None => r@ == known_names(None, agent@),
        },
{
    let mut map = NameMap::new();
    if let Some(paths) = paths {
        add_paths(&mut map, &paths);
        add_archive_names(&mut map, agent);
    }
    map
}

/// Builds the map from the directories of projects to their names, from the
/// content of the configuration file if it could be read.
pub fn build_name_map(content: Option<&str>, agent: &str) -> (r: NameMap)
    ensures
        match content {
            Some(text) => match listed_projects(text@) {
                Some(projects) => {
                    &&& lists_names(names_in_order(projects), projects)
                    &&& r@ == known_names(Some(names_in_order(projects)), agent@)
                },
                None => r@ == known_names(None, agent@),
            },
            None => r@ == Map::<Seq<char>, Seq<char>>::empty(),
        },
{
    match content {
        Some(content) => name_paths(project_paths(content), agent),
        None => NameMap::new(),
    }
}

proof fn lists_join(
    names: Map<Seq<char>, Seq<char>>,
    first: Seq<Seq<char>>,
    second: Seq<Seq<char>>,
)
    ensures
        with_paths(with_paths(names, first), second) == with_paths(names, first + second),
    decreases second.len(),
{
    if second.len() == 0 {
        assert(first + second =~= first);
    } else {
        lists_join(names, first, second.drop_last());
        assert((first + second).drop_last() =~= first + second.drop_last());
    }
}

/// The configuration decides how a project that it lists is reported: by the
/// project's own path, unless another listed path has the same directory. Renamed
/// projects and the work of an orchestrator are reported otherwise.
pub proof fn law_configured_project(paths: Seq<Seq<char>>, i: int, agent: Seq<char>)
    requires
        0 <= i < paths.len(),
        forall|j: int|
            0 <= j < (paths + archived_paths(agent)).len() && encoded(
                #[trigger] (paths + archived_paths(agent))[j],
            ) == encoded(paths[i]) ==> (paths + archived_paths(agent))[j] == paths[i],
        renamed(encoded(paths[i]), agent) == encoded(paths[i]),
        !orchestrated(encoded(paths[i]), agent),
    ensures
        project_name(encoded(paths[i]), known_names(Some(paths), agent), agent) == shortened(
            paths[i],
        ),
{
    let all = paths + archived_paths(agent);
    lists_join(Map::empty(), paths, archived_paths(agent));
    assert(all[i] == paths[i]);
    law_listed_project_named(Map::empty(), all, i);
}

/// The projects of a configuration are the members of its member `projects`, if
/// both are objects. A text that is no JSON, another value, or an object without
/// such a member lists none.
pub proof fn law_listed_projects(
    content: Seq<char>,
    config: Map<Seq<char>, Json>,
    projects: Map<Seq<char>, Json>,
)
    ensures
        json_read(content) is None ==> listed_projects(content) is None,
        json_read(content) == Some(Json::Other) ==> listed_projects(content) is None,
        json_read(content) == Some(Json::Object(config)) ==> {
            &&& !config.contains_key("projects"@) ==> listed_projects(content) is None
            &&& config.contains_key("projects"@) && config["projects"@] == Json::Other
                ==> listed_projects(content) is None
            &&& config.contains_key("projects"@) && config["projects"@] == Json::Object(projects)
                ==> listed_projects(content) == Some(projects)
        },
{
}

/// A list of names has each name once, and no others.
pub proof fn law_names_listed(names: Seq<Seq<char>>, members: Map<Seq<char>, Json>)
    requires
        lists_names(names, members),
    ensures
        forall|name: Seq<char>| #[trigger] names.contains(name) <==> members.contains_key(name),
        forall|i: int, j: int| 0 <= i < j < names.len() ==> names[i] != names[j],
{
    assert forall|name: Seq<char>| #[trigger]
        names.contains(name) <==> members.contains_key(name) by {
        assert(names.to_set().contains(name) <==> members.dom().contains(name));
    }
    assert forall|i: int, j: int| 0 <= i < j < names.len() implies names[i] != names[j] by {
        assert(text_before(names[i], names[j]));
        text_before_irreflexive(names[i]);
    }
}

proof fn archived_project(paths: Seq<Seq<char>>, k: int, name: Seq<char>, agent: Seq<char>)
    requires
        0 <= k < 7,
        archived_paths(agent)[k] == "/syncthing/Sync/Projects/"@ + name,
        forall|j: int|
            k < j < 7 ==> (#[trigger] archived_paths(agent)[j]).last() != archived_paths(agent)[k].last(),
        forall|j: int|
            0 <= j < 7 ==> (#[trigger] archived_paths(agent)[j]).len() > 0
                && archived_paths(agent)[j].last() != '/',
    ensures
        ({
            let dir = encoded("/syncthing/Sync/Projects/"@ + name);
            let names = known_names(Some(paths), agent);
            names.contains_key(dir) && names[dir] == name
        }),
{
    let archived = archived_paths(agent);
    law_shortened_paths(name);
    assert forall|j: int| k < j < archived.len() && encoded(#[trigger] archived[j]) == encoded(
        archived[k],
    ) implies shortened(archived[j]) == shortened(archived[k]) by {
        law_encoded_path(archived[j]);
        law_encoded_path(archived[k]);
        assert(encoded(archived[j]).last() == archived[j].last());
        assert(encoded(archived[k]).last() == archived[k].last());
    }
    law_listed_project_named(with_paths(Map::empty(), paths), archived, k);
}

/// Whatever the configuration lists, the names of seven projects that only the
/// archive holds are known.
pub proof fn law_archived_projects_named(paths: Seq<Seq<char>>, agent: Seq<char>)
    ensures
        ({
            let names = known_names(Some(paths), agent);
            let home = "/syncthing/Sync/Projects/"@;
            let sentry = "globalcomix/gc-sentry"@;
            let fixes = "globalcomix/gc-phpstan-baseline-fixes-5"@;
            let api = "globalcomix/gc-api-v2"@;
            let blinc = agent + "/"@ + agent + "-sessions-blinc"@;
            let tauri = agent + "/"@ + agent + "-sessions-tauri"@;
            let viewer = agent + "/"@ + agent + "-architect-viewer"@;
            let bus = agent + "/agent-bus"@;
            &&& names.contains_key(encoded(home + sentry)) && names[encoded(home + sentry)] == sentry
            &&& names.contains_key(encoded(home + fixes)) && names[encoded(home + fixes)] == fixes
            &&& names.contains_key(encoded(home + api)) && names[encoded(home + api)] == api
            &&& names.contains_key(encoded(home + blinc)) && names[encoded(home + blinc)] == blinc
            &&& names.contains_key(encoded(home + tauri)) && names[encoded(home + tauri)] == tauri
            &&& names.contains_key(encoded(home + viewer)) && names[encoded(home + viewer)] == viewer
            &&& names.contains_key(encoded(home + bus)) && names[encoded(home + bus)] == bus
        }),
{
    reveal_strlit("/syncthing/Sync/Projects/");
    reveal_strlit("/syncthing/Sync/Projects/globalcomix/gc-sentry");
    reveal_strlit("/syncthing/Sync/Projects/globalcomix/gc-phpstan-baseline-fixes-5");
    reveal_strlit("/syncthing/Sync/Projects/globalcomix/gc-api-v2");
    reveal_strlit("globalcomix/gc-sentry");
    reveal_strlit("globalcomix/gc-phpstan-baseline-fixes-5");
    reveal_strlit("globalcomix/gc-api-v2");
    reveal_strlit("-sessions-blinc");
    reveal_strlit("-sessions-tauri");
    reveal_strlit("-architect-viewer");
    reveal_strlit("/agent-bus");
    let home = "/syncthing/Sync/Projects/"@;
    let archived = archived_paths(agent);
    let sentry = "globalcomix/gc-sentry"@;
    let fixes = "globalcomix/gc-phpstan-baseline-fixes-5"@;
    let api = "globalcomix/gc-api-v2"@;
    let blinc = agent + "/"@ + agent + "-sessions-blinc"@;
    let tauri = agent + "/"@ + agent + "-sessions-tauri"@;
    let viewer = agent + "/"@ + agent + "-architect-viewer"@;
    let bus = agent + "/agent-bus"@;
    assert(archived[0] =~= home + sentry);
    assert(archived[1] =~= home + fixes);
    assert(archived[2] =~= home + api);
    assert(archived[3] =~= home + blinc);
    assert(archived[4] =~= home + tauri);
    assert(archived[5] =~= home + viewer);
    assert(archived[6] =~= home + bus);
    assert(archived[0].last() == 'y');
    assert(archived[1].last() == '5');
    assert(archived[2].last() == '2');
    assert(archived[3].last() == 'c');
    assert(archived[4].last() == 'i');
    assert(archived[5].last() == 'r');
    assert(archived[6].last() == 's');
    archived_project(paths, 0, sentry, agent);
    archived_project(paths, 1, fixes, agent);
    archived_project(paths, 2, api, agent);
    archived_project(paths, 3, blinc, agent);
    archived_project(paths, 4, tauri, agent);
    archived_project(paths, 5, viewer, agent);
    archived_project(paths, 6, bus, agent);
}

/// No other directory has a name, and without a list none has.
pub proof fn law_no_other_names(paths: Seq<Seq<char>>, agent: Seq<char>, dir: Seq<char>)
    ensures
        !known_names(None, agent).contains_key(dir),
        known_names(Some(paths), agent).contains_key(dir) ==> {
            let home = "/syncthing/Sync/Projects/"@;
            ||| exists|i: int| 0 <= i < paths.len() && encoded(#[trigger] paths[i]) == dir
            ||| dir == encoded(home + "globalcomix/gc-sentry"@)
            ||| dir == encoded(home + "globalcomix/gc-phpstan-baseline-fixes-5"@)
            ||| dir == encoded(home + "globalcomix/gc-api-v2"@)
            ||| dir == encoded(home + (agent + "/"@ + agent + "-sessions-blinc"@))
            ||| dir == encoded(home + (agent + "/"@ + agent + "-sessions-tauri"@))
            ||| dir == encoded(home + (agent + "/"@ + agent + "-architect-viewer"@))
            ||| dir == encoded(home + (agent + "/agent-bus"@))
        },
{
    reveal_strlit("/syncthing/Sync/Projects/");
    reveal_strlit("/syncthing/Sync/Projects/globalcomix/gc-sentry");
    reveal_strlit("/syncthing/Sync/Projects/globalcomix/gc-phpstan-baseline-fixes-5");
    reveal_strlit("/syncthing/Sync/Projects/globalcomix/gc-api-v2");
    reveal_strlit("globalcomix/gc-sentry");
    reveal_strlit("globalcomix/gc-phpstan-baseline-fixes-5");
    reveal_strlit("globalcomix/gc-api-v2");
    let home = "/syncthing/Sync/Projects/"@;
    let archived = archived_paths(agent);
    let first = with_paths(Map::empty(), paths);
    assert(archived[0] =~= home + "globalcomix/gc-sentry"@);
    assert(archived[1] =~= home + "globalcomix/gc-phpstan-baseline-fixes-5"@);
    assert(archived[2] =~= home + "globalcomix/gc-api-v2"@);
    assert(archived[3] =~= home + (agent + "/"@ + agent + "-sessions-blinc"@));
    assert(archived[4] =~= home + (agent + "/"@ + agent + "-sessions-tauri"@));
    assert(archived[5] =~= home + (agent + "/"@ + agent + "-architect-viewer"@));
    assert(archived[6] =~= home + (agent + "/agent-bus"@));
    law_lists_only_add(first, archived);
    law_lists_only_add(Map::empty(), paths);
    if known_names(Some(paths), agent).contains_key(dir) {
        if forall|j: int| 0 <= j < archived.len() ==> encoded(#[trigger] archived[j]) != dir {
            assert(first.contains_key(dir));
            if forall|i: int| 0 <= i < paths.len() ==> encoded(#[trigger] paths[i]) != dir {
                assert(Map::<Seq<char>, Seq<char>>::empty().contains_key(dir));
            }
        } else {
            let j = choose|j: int| 0 <= j < archived.len() && encoded(#[trigger] archived[j]) == dir;
            assert(j == 0 || j == 1 || j == 2 || j == 3 || j == 4 || j == 5 || j == 6);
        }
    }
}

} // verus!
