use serde_json::Value;
use token_leaderboard::archive::{
    archive_project_key, archive_session_id, archived_log, process_zst,
};
use token_leaderboard::content::{process_content, process_messages, session_stats, split_lines};
use token_leaderboard::gather::{classify_entry, Gather, LogEntry};
use token_leaderboard::names::NameMap;
use token_leaderboard::stats::ProjectStats;
use token_leaderboard::usage::{model_pricing, usage_cost, ApiMessage, Message, Pricing, Usage};

fn usage(input_tokens: u64, output_tokens: u64) -> Usage {
    Usage {
        input_tokens,
        output_tokens,
        cache_creation_input_tokens: 0,
        cache_read_input_tokens: 0,
    }
}

fn answer(id: Option<&str>, model: Option<&str>, usage: Usage) -> Option<Message> {
    Some(Message {
        kind: "assistant".to_string(),
        message: Some(ApiMessage {
            id: id.map(|id| id.to_string()),
            model: model.map(|model| model.to_string()),
            usage: Some(usage),
        }),
    })
}

fn text(value: &Value, name: &str) -> Option<String> {
    value.get(name).and_then(|v| v.as_str()).map(|v| v.to_string())
}

fn parse(line: &str) -> Option<Message> {
    let value = serde_json::from_str::<Value>(line).ok()?;
    let count = |usage: &Value, name: &str| usage.get(name).and_then(|v| v.as_u64()).unwrap_or(0);
    Some(Message {
        kind: text(&value, "type")?,
        message: value.get("message").map(|api| ApiMessage {
            id: text(api, "id"),
            model: text(api, "model"),
            usage: api.get("usage").map(|usage| Usage {
                input_tokens: count(usage, "input_tokens"),
                output_tokens: count(usage, "output_tokens"),
                cache_creation_input_tokens: count(usage, "cache_creation_input_tokens"),
                cache_read_input_tokens: count(usage, "cache_read_input_tokens"),
            }),
        }),
    })
}

fn line(id: &str, input: u64, output: u64) -> String {
    format!(
        "{{\"type\":\"assistant\",\"message\":{{\"id\":\"{id}\",\"model\":\"sonnet\",\
         \"usage\":{{\"input_tokens\":{input},\"output_tokens\":{output}}}}}}}\n"
    )
}

fn packed(content: &[u8]) -> Vec<u8> {
    zstd::encode_all(content, 0).unwrap()
}

#[test]
fn models_have_prices() {
    for (model, input, output, cache_write, cache_read) in [
        ("haiku-4-5-20251001", 100, 500, 125, 10),
        ("3-5-haiku", 80, 400, 100, 8),
        ("sonnet-4", 300, 1500, 375, 30),
        ("opus-4-5", 500, 2500, 625, 50),
        ("opus-4-6-fast", 500, 2500, 625, 50),
        ("opus-4-7", 500, 2500, 625, 50),
        ("opus-4-8-20260301", 500, 2500, 625, 50),
        ("opus-4-9", 500, 2500, 625, 50),
        ("opus-5", 500, 2500, 625, 50),
        ("opus-9-1", 500, 2500, 625, 50),
        ("opus-4-10", 500, 2500, 625, 50),
        ("opus-4-10-20270101", 500, 2500, 625, 50),
        ("opus-10", 500, 2500, 625, 50),
        ("opus-4-55555555", 500, 2500, 625, 50),
        ("opus-4-20250514 opus-4-7", 500, 2500, 625, 50),
        ("opus-4-04", 1500, 7500, 1875, 150),
        ("opus-4-", 1500, 7500, 1875, 150),
        ("opus-3-7", 1500, 7500, 1875, 150),
        ("opus-4-77777777", 1500, 7500, 1875, 150),
        ("opus-4-20250514", 1500, 7500, 1875, 150),
        ("opus-4", 1500, 7500, 1875, 150),
        ("3-opus-20240229", 1500, 7500, 1875, 150),
        ("opus-4-1-20250805", 1500, 7500, 1875, 150),
        ("opus-4-1", 1500, 7500, 1875, 150),
        ("opus", 1500, 7500, 1875, 150),
        ("", 1500, 7500, 1875, 150),
        ("sonnet haiku", 80, 400, 100, 8),
    ] {
        assert_eq!(model_pricing(model), Pricing { input, output, cache_write, cache_read });
    }
}

#[test]
fn tokens_cost_what_the_model_asks() {
    assert_eq!(usage_cost(&usage(1_000_000, 0), "sonnet"), 300_000_000);
    assert_eq!(usage_cost(&usage(3, 7), "haiku"), 3 * 80 + 7 * 400);
    assert_eq!(usage_cost(&usage(u64::MAX, u64::MAX), "opus"), 9_000 * u64::MAX as u128);
    let cached = Usage {
        input_tokens: 1,
        output_tokens: 1,
        cache_creation_input_tokens: 1_000_000,
        cache_read_input_tokens: 1_000_000,
    };
    assert_eq!(usage_cost(&cached, "opus"), 9_000);
}

#[test]
fn the_last_line_of_a_message_counts() {
    let lines = vec![
        answer(Some("a"), Some("sonnet"), usage(1, 1)),
        answer(Some("b"), Some("sonnet"), usage(10, 20)),
        answer(Some("a"), Some("haiku"), usage(100, 200)),
    ];
    let stats = session_stats(&lines).unwrap();
    assert_eq!(stats.input_tokens, 110);
    assert_eq!(stats.output_tokens, 220);
    assert_eq!(stats.cost, 10 * 300 + 20 * 1500 + 100 * 80 + 200 * 400);
    assert_eq!(stats.sessions, 1);
}

#[test]
fn messages_without_an_id_all_count() {
    let lines = vec![
        answer(None, None, usage(1, 2)),
        None,
        answer(None, None, usage(1, 2)),
    ];
    let stats = session_stats(&lines).unwrap();
    assert_eq!(stats.input_tokens, 2);
    assert_eq!(stats.output_tokens, 4);
    assert_eq!(stats.cost, 2 * 1500 + 4 * 7500);
    assert_eq!(stats.sessions, 1);
}

#[test]
fn only_answers_with_a_usage_count() {
    let lines = vec![
        None,
        Some(Message { kind: "assistant".to_string(), message: None }),
        Some(Message {
            kind: "assistant".to_string(),
            message: Some(ApiMessage { id: Some("a".to_string()), model: None, usage: None }),
        }),
        Some(Message {
            kind: "user".to_string(),
            message: Some(ApiMessage { id: None, model: None, usage: Some(usage(5, 5)) }),
        }),
    ];
    assert_eq!(session_stats(&lines), Some(ProjectStats::default()));
    let mut stats = ProjectStats::default();
    assert!(process_messages(&lines, &mut stats));
    assert_eq!(stats.sessions, 0);
}

#[test]
fn an_answer_without_tokens_makes_a_session() {
    let stats = session_stats(&vec![answer(Some("a"), None, usage(0, 0))]).unwrap();
    assert_eq!(stats, ProjectStats { sessions: 1, ..ProjectStats::default() });
}

#[test]
fn sums_that_do_not_fit_are_not_added() {
    let lines = vec![
        answer(Some("a"), None, usage(u64::MAX, 0)),
        answer(Some("b"), None, usage(1, 0)),
    ];
    assert_eq!(session_stats(&lines), None);
    let mut stats = ProjectStats::default();
    assert!(!process_messages(&lines, &mut stats));
    assert_eq!(stats, ProjectStats::default());

    let lines = vec![answer(Some("a"), None, usage(1, 0))];
    let mut stats = ProjectStats { input_tokens: u64::MAX, ..ProjectStats::default() };
    assert!(!process_messages(&lines, &mut stats));
    assert_eq!(stats.input_tokens, u64::MAX);
    assert_eq!(stats.sessions, 0);
}

#[test]
fn lines_end_at_line_feeds() {
    for content in ["", "\n", "a", "a\n", "a\r\nb\r", "\r\n\r\n", "a\rb\n\nc\r\r\n", "\r"] {
        let expected: Vec<String> = content.lines().map(|line| line.to_string()).collect();
        assert_eq!(split_lines(content), expected);
    }
}

#[test]
fn logs_are_added_to_what_was_used() {
    let content = format!(
        "{}no json\n{{\"type\":\"user\"}}\r\n{}",
        line("a", 1, 2),
        line("a", 3, 4)
    );
    let mut stats = ProjectStats {
        input_tokens: 100,
        output_tokens: 100,
        cache_write_tokens: 7,
        cache_read_tokens: 8,
        cost: 9,
        sessions: 2,
    };
    assert!(process_content(&content, parse, &mut stats));
    assert_eq!(
        stats,
        ProjectStats {
            input_tokens: 103,
            output_tokens: 104,
            cache_write_tokens: 7,
            cache_read_tokens: 8,
            cost: 9 + 3 * 300 + 4 * 1500,
            sessions: 3,
        }
    );
}

#[test]
fn cache_tokens_are_counted() {
    let content = "{\"type\":\"assistant\",\"message\":{\"usage\":\
                   {\"cache_creation_input_tokens\":5,\"cache_read_input_tokens\":6}}}";
    let mut stats = ProjectStats::default();
    assert!(process_content(content, parse, &mut stats));
    assert_eq!(
        stats,
        ProjectStats {
            cache_write_tokens: 5,
            cache_read_tokens: 6,
            sessions: 1,
            ..ProjectStats::default()
        }
    );
}

#[test]
fn archive_names_have_two_parts() {
    let name = "-home-osso-a_b_0f3c-11.jsonl.zst";
    assert_eq!(archive_project_key(name), Some("-home-osso-a_b"));
    assert_eq!(archive_session_id(name), Some("0f3c-11"));
    assert_eq!(archive_project_key("_x.jsonl.zst"), Some(""));
    assert_eq!(archive_session_id("p_.jsonl.zst"), Some(""));
    for name in ["p-x.jsonl.zst", "p_x.jsonl", "p_x.zst", "p_x.jsonl.zst2", ".jsonl.zst", ""] {
        assert_eq!(archive_project_key(name), None);
        assert_eq!(archive_session_id(name), None);
    }
}

#[test]
fn archive_names_round_trip() {
    for (project, session) in [("-a-b", "1-2"), ("a_b_", "x"), ("", ""), ("\u{e9}_", "\u{fc}")] {
        let name = format!("{project}_{session}.jsonl.zst");
        assert_eq!(archive_project_key(&name), Some(project));
        assert_eq!(archive_session_id(&name), Some(session));
    }
}

#[test]
fn archived_logs_are_unpacked() {
    let content = "first\nsecond \u{20ac}\n";
    assert_eq!(archived_log(&packed(content.as_bytes())).as_deref(), Some(content));
    assert_eq!(archived_log(&packed(b"")).as_deref(), Some(""));
    assert_eq!(archived_log(b"not compressed"), None);
    assert_eq!(archived_log(&packed(&[0xff, 0xfe, 0x41])), None);
    let whole = packed(content.as_bytes());
    assert_eq!(archived_log(&whole[..whole.len() - 3]), None);
}

#[test]
fn archived_sessions_are_added() {
    let mut stats = ProjectStats::default();
    assert!(process_zst(&packed(line("a", 3, 4).as_bytes()), parse, &mut stats));
    assert_eq!(stats.input_tokens, 3);
    assert_eq!(stats.output_tokens, 4);
    assert_eq!(stats.sessions, 1);
    let before = stats;
    assert!(process_zst(b"damaged", parse, &mut stats));
    assert_eq!(stats, before);
}

#[test]
fn entries_are_classified() {
    let session = |name: &str, is_dir: bool| match classify_entry(name, is_dir) {
        LogEntry::Session(id) => id,
        LogEntry::Directory => "a directory".to_string(),
        LogEntry::Other => "something else".to_string(),
    };
    assert_eq!(session("0f-1.jsonl", false), "0f-1");
    assert_eq!(session("x.jsonl", true), "x");
    assert_eq!(session("a.b.jsonl", false), "a.b");
    assert_eq!(session("..jsonl", false), ".");
    assert_eq!(session(".jsonl", false), "something else");
    assert_eq!(session(".jsonl", true), "a directory");
    assert_eq!(session("subagents", true), "a directory");
    assert_eq!(session("x.json", false), "something else");
}

#[test]
fn directories_become_projects() {
    let mut gather = Gather::new(NameMap::new(), None, "robot");
    assert_eq!(gather.open_project("-home-osso-a", true).as_deref(), Some("osso/a"));
    assert_eq!(gather.open_project("-home-osso-a", false), None);
    assert_eq!(gather.open_project("memory", true), None);
    assert_eq!(gather.open_project("-tmp-x", true).as_deref(), Some("[orchestrator]"));
}

#[test]
fn sessions_are_read_once() {
    let mut gather = Gather::new(NameMap::new(), None, "robot");
    let project = gather.open_project("-home-osso-a", true).unwrap();
    assert!(gather.admit_session("s1".to_string(), None));
    assert!(gather.add_session(&project, Some(&line("m", 1, 1)), parse));
    assert_eq!(gather.admit_archive("-home-osso-a_s1.jsonl.zst", None), None);
    let other = gather.admit_archive("-home-osso-b_s2.jsonl.zst", None).unwrap();
    assert_eq!(other, "osso/b");
    assert!(gather.add_archive(&other, Some(&packed(line("m", 2, 3).as_bytes())), parse));
    assert_eq!(gather.admit_archive("-home-osso-c_s2.jsonl.zst", None), None);
    assert_eq!(gather.admit_archive("no-session.jsonl.zst", None), None);
    let total = gather.grand_total().unwrap();
    assert_eq!(total.input_tokens, 3);
    assert_eq!(total.output_tokens, 4);
    assert_eq!(total.sessions, 2);
}

#[test]
fn old_files_are_left_out() {
    let mut gather = Gather::new(NameMap::new(), Some(1_000), "robot");
    assert!(!gather.admit_session("s1".to_string(), Some(999)));
    assert!(!gather.admit_session("s1".to_string(), None));
    assert!(gather.admit_session("s2".to_string(), Some(1_000)));
    assert_eq!(gather.admit_archive("p_s1.jsonl.zst", Some(999)), None);
    assert_eq!(gather.admit_archive("p_s1.jsonl.zst", Some(1_001)).as_deref(), Some("/p"));
    assert_eq!(gather.admit_archive("p_s2.jsonl.zst", Some(1_001)), None);
}

#[test]
fn unreadable_files_add_nothing() {
    let mut gather = Gather::new(NameMap::new(), None, "robot");
    let project = gather.open_project("-home-osso-a", true).unwrap();
    assert!(gather.add_session(&project, None, parse));
    assert!(gather.add_archive(&project, None, parse));
    assert!(gather.add_archive(&project, Some(b"damaged"), parse));
    assert_eq!(gather.grand_total(), Some(ProjectStats::default()));
    assert!(gather.finish().is_empty());
}

#[test]
fn sessions_that_do_not_fit_are_refused() {
    let mut gather = Gather::new(NameMap::new(), None, "robot");
    let first = gather.open_project("-home-osso-a", true).unwrap();
    assert!(gather.add_session(&first, Some(&line("m", u64::MAX, 0)), parse));
    assert!(!gather.add_session(&first, Some(&line("m", 1, 0)), parse));
    assert_eq!(gather.grand_total().unwrap().sessions, 1);
    let second = gather.open_project("-home-osso-b", true).unwrap();
    assert!(gather.add_session(&second, Some(&line("m", 1, 0)), parse));
    assert_eq!(gather.grand_total(), None);
}

#[test]
fn directories_of_one_project_share_a_row() {
    let mut gather = Gather::new(NameMap::new(), None, "robot");
    for dir in ["-home-osso-a", "-home-osso-a--robot-worktrees-x"] {
        let project = gather.open_project(dir, true).unwrap();
        assert!(gather.add_session(&project, Some(&line("m", 1, 2)), parse));
    }
    let report = gather.finish();
    assert_eq!(report.len(), 1);
    assert_eq!(report[0].0, "osso/a");
    assert_eq!(report[0].1.sessions, 2);
    assert_eq!(report[0].1.total_tokens(), 6);
}
