//! The coding agent whose sessions are reported.
//!
//! A program with the name `{agent}-tokens` reports on that agent. What the agent
//! keeps stands in the home directory.

use vstd::prelude::*;

use crate::text::{before_suffix, chars_of, text_of};

verus! {

/// The name of the program that reports on `agent`.
pub open spec fn program_name(agent: Seq<char>) -> Seq<char> {
    agent + "-tokens"@
}

/// The agent on which the program with the name `program` reports.
pub fn agent_of_program(program: &str) -> (r: Option<String>)
    ensures
        match r {
            Some(agent) => program@ == program_name(agent@) && agent@.len() > 0,
            None => forall|agent: Seq<char>| #[trigger]
                program_name(agent) == program@ ==> agent.len() == 0,
        },
{
    let chars = chars_of(program);
    match before_suffix(&chars, &chars_of("-tokens")) {
        Some(n) => {
            if n > 0 {
                let agent = text_of(&chars, 0, n);
                assert(agent@ =~= program@.take(n as int));
                return Some(agent);
            }
            None
        },
        None => {
            assert forall|agent: Seq<char>| #[trigger] program_name(agent) != program@ by {
                let name = program_name(agent);
                assert(name.subrange(agent.len() as int, name.len() as int) =~= "-tokens"@);
            }
            None
        },
    }
}

/// The configuration file of `agent`, in the home directory.
pub fn config_file(agent: &str) -> (r: String)
    ensures
        r@ == "."@ + agent@ + ".json"@,
{
    ".".to_string().concat(agent).concat(".json")
}

/// The directory in which `agent` keeps the sessions of projects, in the home
/// directory.
pub fn projects_dir(agent: &str) -> (r: String)
    ensures
        r@ == "."@ + agent@ + "/projects"@,
{
    ".".to_string().concat(agent).concat("/projects")
}

/// The directory in which archived sessions of `agent` are kept, in the home
/// directory.
pub fn archive_dir(agent: &str) -> (r: String)
    ensures
        r@ == "."@ + agent@ + "/archive"@,
{
    ".".to_string().concat(agent).concat("/archive")
}

} // verus!
