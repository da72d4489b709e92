//! Archived sessions.
//!
//! The archive holds one file for each session, compressed with Zstandard and
//! named `{project}_{session}.jsonl.zst`. An agent that a session started has a
//! file of its own, with its id in the place of the session's.

use vstd::prelude::*;
use vstd::utf8::{decode_utf8, valid_utf8};

use crate::content::{added, parsed_by, process_content, session_totals};
use crate::stats::ProjectStats;
use crate::text::{before_suffix, chars_of, rfind_char};
use crate::usage::Message;

verus! {

/// The ending of the name of an archived session.
pub open spec fn archive_suffix() -> Seq<char> {
    ".jsonl.zst"@
}

/// The name of an archived session is made of the project's and the session's.
pub open spec fn archive_name(project: Seq<char>, session: Seq<char>) -> Seq<char> {
    project + seq!['_'] + session + archive_suffix()
}

/// `name` belongs to the session `session` of the project `project`.
pub open spec fn names_archive(name: Seq<char>, project: Seq<char>, session: Seq<char>) -> bool {
    name == archive_name(project, session) && !session.contains('_')
}

/// The project and the session to which the archived session `name` belongs.
pub open spec fn archive_parts(name: Seq<char>) -> Option<(Seq<char>, Seq<char>)> {
    if exists|project: Seq<char>, session: Seq<char>| names_archive(name, project, session) {
        Some(
            choose|project: Seq<char>, session: Seq<char>| names_archive(name, project, session),
        )
    } else {
        None
    }
}

/// A name belongs to one session of one project at most.
pub proof fn law_archive_name_unique(
    name: Seq<char>,
    project: Seq<char>,
    session: Seq<char>,
    other_project: Seq<char>,
    other_session: Seq<char>,
)
    requires
        names_archive(name, project, session),
        names_archive(name, other_project, other_session),
    ensures
        project == other_project,
        session == other_session,
{
    let a = project.len() as int;
    let b = other_project.len() as int;
    let end = name.len() - archive_suffix().len();
    assert(end == a + 1 + session.len());
    assert(end == b + 1 + other_session.len());
    assert(project =~= name.take(a));
    assert(session =~= name.subrange(a + 1, end));
    assert(other_project =~= name.take(b));
    assert(other_session =~= name.subrange(b + 1, end));
    assert(name[a] == '_');
    assert(name[b] == '_');
    if a < b {
        assert(session[b - a - 1] == name[b]);
    }
    if b < a {
        assert(other_session[a - b - 1] == name[a]);
    }
}

/// The name that an archived session was given tells its project and its
/// session, if there is no underscore in the session's id.
pub proof fn law_archive_name_round_trip(project: Seq<char>, session: Seq<char>)
    requires
        !session.contains('_'),
    ensures
        archive_parts(archive_name(project, session)) == Some((project, session)),
{
    let name = archive_name(project, session);
    assert(names_archive(name, project, session));
    let parts = archive_parts(name)->0;
    law_archive_name_unique(name, project, session, parts.0, parts.1);
}

/// Only names with an underscore before the ending belong to a session.
pub proof fn law_archive_name_shape(name: Seq<char>)
    ensures
        archive_parts(name) is Some <==> exists|i: int|
            0 <= i < name.len() - archive_suffix().len() && name[i] == '_'
                && archive_suffix().is_suffix_of(name),
{
    if archive_parts(name) is Some {
        let (project, session) = archive_parts(name)->0;
        assert(name[project.len() as int] == '_');
        assert(name.subrange(name.len() - archive_suffix().len(), name.len() as int)
            =~= archive_suffix());
    }
    if exists|i: int|
        0 <= i < name.len() - archive_suffix().len() && name[i] == '_'
            && archive_suffix().is_suffix_of(name) {
        let end = name.len() - archive_suffix().len();
        let base = name.take(end);
        base.index_of_last_ensures('_');
        let i = choose|i: int|
            0 <= i < name.len() - archive_suffix().len() && name[i] == '_'
                && archive_suffix().is_suffix_of(name);
        assert(base[i] == '_');
        assert(base.contains('_'));
        let pos = base.index_of_last('_')->0;
        let project = name.take(pos);
        let session = name.subrange(pos + 1, end);
        assert(name =~= archive_name(project, session));
        if session.contains('_') {
            let k = choose|k: int| 0 <= k < session.len() && session[k] == '_';
            assert(base[pos + 1 + k] == '_');
        }
        assert(names_archive(name, project, session));
    }
}

/// The index of the underscore that ends the project in `filename`, and that at
/// which the ending begins.
fn split_archive_name(filename: &str) -> (r: Option<(usize, usize)>)
    ensures
        match r {
            Some((pos, end)) => pos < end <= filename@.len() && archive_parts(filename@) == Some(
                (filename@.take(pos as int), filename@.subrange(pos + 1, end as int)),
            ),
            None => archive_parts(filename@) is None,
        },
{
    proof {
        law_archive_name_shape(filename@);
    }
    let chars = chars_of(filename);
    let end: usize = match before_suffix(&chars, &chars_of(".jsonl.zst")) {
        Some(end) => end,
        None => {
            return None;
        },
    };
    let mut base: Vec<char> = chars;
    base.truncate(end);
    assert(base@ =~= filename@.take(end as int));
    match rfind_char(&base, '_') {
        Some(pos) => {
            proof {
                let project = filename@.take(pos as int);
                let session = filename@.subrange(pos + 1, end as int);
                assert(filename@ =~= archive_name(project, session));
                if session.contains('_') {
                    let k = choose|k: int| 0 <= k < session.len() && session[k] == '_';
                    assert(base@[pos + 1 + k] == '_');
                }
                law_archive_name_round_trip(project, session);
            }
            Some((pos, end))
        },
        None => {
            assert(forall|i: int| 0 <= i < end ==> filename@[i] == base@[i]);
            None
        },
    }
}

/// The directory of the project to which an archived session belongs.
pub fn archive_project_key(filename: &str) -> (r: Option<&str>)
    ensures
        match archive_parts(filename@) {
            Some((project, _)) => r matches Some(found) && found@ == project,
            None => r is None,
        },
{
    match split_archive_name(filename) {
        Some((pos, _)) => {
            let project = filename.substring_char(0, pos);
            assert(project@ =~= filename@.take(pos as int));
            Some(project)
        },
        None => None,
    }
}

/// The id of an archived session.
pub fn archive_session_id(filename: &str) -> (r: Option<&str>)
    ensures
        match archive_parts(filename@) {
            Some((_, session)) => r matches Some(found) && found@ == session,
            None => r is None,
        },
{
    match split_archive_name(filename) {
        Some((pos, end)) => Some(filename.substring_char(pos + 1, end)),
        None => None,
    }
}

/// The error of reading and writing in `std`.
#[verifier::external_type_specification]
#[verifier::external_body]
pub struct ExIoError(std::io::Error);

/// The error of `String::from_utf8`.
#[verifier::external_type_specification]
#[verifier::external_body]
pub struct ExFromUtf8Error(std::string::FromUtf8Error);

/// The bytes that `zstd::decode_all` decompresses from `bytes`, if they are
/// compressed data.
pub uninterp spec fn zstd_decoded(bytes: Seq<u8>) -> Option<Seq<u8>>;

/// `zstd::decode_all` decompresses the frames in `bytes` with a
/// `zstd::Decoder`. Whether it succeeds, and with what bytes, depends on `bytes`
/// alone.
#[verifier::external_body]
fn decompress(bytes: &[u8]) -> (r: Result<Vec<u8>, std::io::Error>)
    ensures
        match r {
            Ok(decoded) => zstd_decoded(bytes@) == Some(decoded@),
            Err(_) => zstd_decoded(bytes@) is None,
        },
{
    zstd::decode_all(bytes)
}

/// `String::from_utf8` turns bytes into the string that they encode, and fails if
/// they are not UTF-8.
pub assume_specification[ String::from_utf8 ](vec: Vec<u8>) -> (r: Result<
    String,
    std::string::FromUtf8Error,
>)
    ensures
        match r {
            Ok(s) => valid_utf8(vec@) && s@ == decode_utf8(vec@),
            Err(_) => !valid_utf8(vec@),
        },
;

/// The log that an archived session holds, if `bytes` decompress to text.
pub open spec fn archived_text(bytes: Seq<u8>) -> Option<Seq<char>> {
    match zstd_decoded(bytes) {
        Some(decoded) => if valid_utf8(decoded) {
            Some(decode_utf8(decoded))
        } else {
            None
        },
        None => None,
    }
}

/// The log that the archived session with the content `bytes` holds.
pub fn archived_log(bytes: &[u8]) -> (r: Option<String>)
    ensures
        match archived_text(bytes@) {
            Some(text) => r matches Some(log) && log@ == text,
            None => r is None,
        },
{
    match decompress(bytes) {
        Ok(decoded) => match String::from_utf8(decoded) {
            Ok(log) => Some(log),
            Err(_) => None,
        },
        Err(_) => None,
    }
}

/// Adds what the archived session with the content `bytes` used; `parse` reads
/// one line of its log. What is no log adds nothing. Where the sums do not fit
/// nothing is added and the result is `false`.
pub fn process_zst<P: Fn(&str) -> Option<Message>>(
    bytes: &[u8],
    parse: P,
    stats: &mut ProjectStats,
) -> (done: bool)
    requires
        forall|line: &str| parse.requires((line,)),
    ensures
        match archived_text(bytes@) {
            Some(text) => exists|lines: Seq<Option<Message>>| #[trigger]
                parsed_by(parse, text, lines) && added(
                    old(stats)@,
                    session_totals(lines),
                    final(stats)@,
                    done,
                ),
            None => done && final(stats)@ == old(stats)@,
        },
{
    match archived_log(bytes) {
        Some(log) => process_content(log.as_str(), parse, stats),
        None => true,
    }
}

/// A name of the form `{project}_{session}.jsonl.zst` tells both, if there is no
/// underscore in the session's id.
pub proof fn law_archive_name_parts(project: Seq<char>, session: Seq<char>)
    requires
        !session.contains('_'),
    ensures
        archive_parts(project + "_"@ + session + ".jsonl.zst"@) == Some((project, session)),
{
    reveal_strlit("_");
    assert("_"@ =~= seq!['_']);
    law_archive_name_round_trip(project, session);
}

/// A name of another form belongs to no session.
pub proof fn law_other_archive_name(name: Seq<char>)
    requires
        forall|project: Seq<char>, session: Seq<char>|
            name != #[trigger] (project + "_"@ + session + ".jsonl.zst"@),
    ensures
        archive_parts(name) is None,
{
    reveal_strlit("_");
    assert("_"@ =~= seq!['_']);
    assert forall|project: Seq<char>, session: Seq<char>| !names_archive(name, project, session) by {
        assert(project + "_"@ + session + ".jsonl.zst"@ == archive_name(project, session));
    }
}

/// An archived session holds the text that its bytes decompress to, all of it, and
/// nothing if they do not decompress or not to text.
pub proof fn law_archived_text(bytes: Seq<u8>, decoded: Seq<u8>)
    ensures
        zstd_decoded(bytes) == Some(decoded) && valid_utf8(decoded) ==> archived_text(bytes) == Some(
            decode_utf8(decoded),
        ),
        zstd_decoded(bytes) == Some(decoded) && !valid_utf8(decoded) ==> archived_text(bytes) is None,
        zstd_decoded(bytes) is None ==> archived_text(bytes) is None,
{
}

} // verus!
