use token_leaderboard::gather::Gather;
use token_leaderboard::merge::merge_subdirs;
use token_leaderboard::names::NameMap;
use token_leaderboard::period::Period;
use token_leaderboard::rank::rank;
use token_leaderboard::report::{
    cost_color, leaderboard, report_on, stats_row, stats_row_dimmed, CostColor, Style, TableCell,
};
use token_leaderboard::stats::ProjectStats;
use token_leaderboard::table::StatsTable;
use token_leaderboard::usage::{ApiMessage, Message, Usage};

fn stats(input_tokens: u64, output_tokens: u64, sessions: u64) -> ProjectStats {
    ProjectStats {
        input_tokens,
        output_tokens,
        sessions,
        ..ProjectStats::default()
    }
}

fn table_of(rows: &[(&str, ProjectStats)]) -> StatsTable {
    let mut table = StatsTable::new();
    for (name, stats) in rows {
        table.credit(name, stats);
    }
    table
}

fn rows_of(table: &StatsTable) -> Vec<(String, ProjectStats)> {
    (0..table.len()).map(|i| (table.name_at(i).to_string(), table.stats_at(i))).collect()
}

fn texts(cells: &[TableCell]) -> Vec<&str> {
    cells.iter().map(|cell| cell.text.as_str()).collect()
}

#[test]
fn tables_have_one_row_per_project() {
    let mut table = table_of(&[("a", stats(1, 2, 3)), ("b", stats(4, 5, 6)), ("a", stats(1, 1, 1))]);
    assert_eq!(
        rows_of(&table),
        vec![("a".to_string(), stats(2, 3, 4)), ("b".to_string(), stats(4, 5, 6))]
    );
    table.open("b");
    table.open("c");
    assert_eq!(table.len(), 3);
    assert_eq!(table.get("c"), ProjectStats::default());
    assert_eq!(table.get("d"), ProjectStats::default());
    assert_eq!(table.remove("a"), Some(stats(2, 3, 4)));
    assert_eq!(table.remove("a"), None);
    table.set("c", stats(9, 9, 9));
    assert_eq!(
        rows_of(&table),
        vec![("b".to_string(), stats(4, 5, 6)), ("c".to_string(), stats(9, 9, 9))]
    );
}

#[test]
fn sums_are_added() {
    let mut all = ProjectStats {
        input_tokens: 1,
        output_tokens: 2,
        cache_write_tokens: 3,
        cache_read_tokens: 4,
        cost: 5,
        sessions: 6,
    };
    let one = all;
    assert!(all.can_accumulate(&one));
    all.accumulate(&one);
    assert_eq!(
        all,
        ProjectStats {
            input_tokens: 2,
            output_tokens: 4,
            cache_write_tokens: 6,
            cache_read_tokens: 8,
            cost: 10,
            sessions: 12,
        }
    );
    assert_eq!(all.total_tokens(), 6);
    assert!(!stats(u64::MAX, 0, 0).can_accumulate(&stats(1, 0, 0)));
    assert!(!stats(0, 0, u64::MAX).can_accumulate(&stats(0, 0, 1)));
}

#[test]
fn subdirectories_go_to_the_closest_project() {
    let merged = merge_subdirs(table_of(&[
        ("globalcomix", stats(1, 1, 20)),
        ("globalcomix/gc/.git", stats(5, 6, 2)),
        ("globalcomix/gc", stats(10, 10, 9)),
    ]));
    assert_eq!(merged.len(), 2);
    assert_eq!(merged.get("globalcomix/gc"), stats(15, 16, 11));
    assert_eq!(merged.get("globalcomix"), stats(1, 1, 20));
}

#[test]
fn subdirectories_with_many_sessions_stay() {
    let merged = merge_subdirs(table_of(&[
        ("a", stats(1, 0, 1)),
        ("a/five", stats(2, 0, 5)),
        ("a/six", stats(4, 0, 6)),
        ("ab", stats(8, 0, 1)),
    ]));
    assert_eq!(merged.len(), 3);
    assert_eq!(merged.get("a"), stats(3, 0, 6));
    assert_eq!(merged.get("a/six"), stats(4, 0, 6));
    assert_eq!(merged.get("ab"), stats(8, 0, 1));
}

#[test]
fn a_merged_project_is_opened_again() {
    let merged = merge_subdirs(table_of(&[
        ("a", stats(1, 0, 10)),
        ("a/b", stats(2, 0, 2)),
        ("a/b/c", stats(4, 0, 1)),
    ]));
    assert_eq!(merged.get("a"), stats(3, 0, 12));
    assert_eq!(merged.get("a/b"), stats(4, 0, 1));
    let merged = merge_subdirs(table_of(&[
        ("a/b/c", stats(4, 0, 1)),
        ("a/b", stats(2, 0, 2)),
        ("a", stats(1, 0, 10)),
    ]));
    assert_eq!(rows_of(&merged), vec![("a".to_string(), stats(7, 0, 13))]);
}

#[test]
fn merging_keeps_the_sum() {
    let table = table_of(&[
        ("x/y", stats(1, 10, 1)),
        ("x", stats(2, 20, 2)),
        ("x/y/z", stats(3, 30, 3)),
        ("x/y/z/w", stats(4, 40, 4)),
    ]);
    let total = |table: &StatsTable| {
        let mut total = ProjectStats::default();
        for (_, stats) in rows_of(table) {
            total.accumulate(&stats);
        }
        total
    };
    let before = total(&table);
    assert_eq!(total(&merge_subdirs(table)), before);
}

#[test]
fn most_tokens_come_first() {
    let table = table_of(&[
        ("none", stats(0, 0, 0)),
        ("small", stats(1, 1, 1)),
        ("first", stats(5, 5, 1)),
        ("large", stats(6, 5, 2)),
        ("second", stats(4, 6, 1)),
        ("idle", stats(0, 0, 3)),
    ]);
    let names: Vec<String> = rank(&table).into_iter().map(|(name, _)| name).collect();
    assert_eq!(names, vec!["large", "first", "second", "small", "idle"]);
}

#[test]
fn costs_have_colors() {
    assert_eq!(cost_color(0), CostColor::Green);
    assert_eq!(cost_color(1_000_000_000), CostColor::Green);
    assert_eq!(cost_color(1_000_000_001), CostColor::Yellow);
    assert_eq!(cost_color(10_000_000_000), CostColor::Yellow);
    assert_eq!(cost_color(10_000_000_001), CostColor::Red);
}

#[test]
fn rows_show_what_was_used() {
    let used = ProjectStats {
        input_tokens: 1_500,
        output_tokens: 2_000_000,
        cache_write_tokens: 1,
        cache_read_tokens: 2,
        cost: 2_345_678_900,
        sessions: 12,
    };
    let row = stats_row("3", "osso/a", &used, false);
    assert_eq!(texts(&row), vec!["3", "osso/a", "12", "1.5K", "2.0M", "2.0M", "$23.46"]);
    for (i, cell) in row.iter().enumerate() {
        assert_eq!(cell.styles, if i == 5 { vec![Style::Bold] } else { vec![] });
        assert_eq!(cell.color, if i == 6 { Some(CostColor::Yellow) } else { None });
    }
    let bold = stats_row("", "TOTAL", &used, true);
    for (i, cell) in bold.iter().enumerate() {
        assert_eq!(
            cell.styles,
            if i == 5 { vec![Style::Bold, Style::Bold] } else { vec![Style::Bold] }
        );
    }
    let dimmed = stats_row_dimmed("3", "osso/a", &used);
    assert_eq!(texts(&dimmed), texts(&row));
    for cell in &dimmed {
        assert_eq!(cell.styles, vec![Style::Dim]);
        assert_eq!(cell.color, None);
    }
}

#[test]
fn leaderboards_end_with_the_total() {
    let sorted = vec![
        ("[orchestrator]".to_string(), stats(1_000, 1_000, 2)),
        ("osso/a".to_string(), stats(1, 2, 1)),
    ];
    let board = leaderboard(&sorted, Period::Week, "robot");
    assert_eq!(board.title, "Robot Code token usage (past 7 days)");
    assert_eq!(
        texts(&board.header),
        vec!["#", "Project", "Sessions", "Input", "Output", "Total", "Cost"]
    );
    assert!(board.header.iter().all(|cell| cell.styles == vec![Style::Bold]));
    let rows: Vec<Vec<&str>> = board.rows.iter().map(|row| texts(row)).collect();
    assert_eq!(
        rows,
        vec![
            vec!["1", "[orchestrator]", "2", "1.0K", "1.0K", "2.0K", "$0.00"],
            vec!["2", "osso/a", "1", "1", "2", "3", "$0.00"],
            vec!["", "TOTAL", "3", "1.0K", "1.0K", "2.0K", "$0.00"],
        ]
    );
    assert_eq!(board.rows[0][0].styles, vec![Style::Dim]);
    assert!(board.rows[1][0].styles.is_empty());
    assert_eq!(board.rows[2][0].styles, vec![Style::Bold]);
}

#[test]
fn empty_leaderboards_have_a_total() {
    let board = leaderboard(&vec![], Period::Total, "");
    assert_eq!(board.title, " Code token usage (all time)");
    assert_eq!(board.rows.len(), 1);
    assert_eq!(texts(&board.rows[0]), vec!["", "TOTAL", "0", "0", "0", "0", "$0.00"]);
}

fn counted(line: &str) -> Option<Message> {
    let tokens = line.parse::<u64>().ok()?;
    Some(Message {
        kind: "assistant".to_string(),
        message: Some(ApiMessage {
            id: None,
            model: Some("haiku".to_string()),
            usage: Some(Usage {
                input_tokens: tokens,
                output_tokens: 0,
                cache_creation_input_tokens: 0,
                cache_read_input_tokens: 0,
            }),
        }),
    })
}

#[test]
fn reports_cover_all_that_was_gathered() {
    let mut gather = Gather::new(NameMap::new(), None, "robot");
    for (dir, log) in [
        ("-srv-a", "5\n6\n"),
        ("-srv-a-b", "1\n"),
        ("-srv-big", "2000000"),
        ("-srv-empty", "nothing"),
    ] {
        let project = gather.open_project(dir, true).unwrap();
        assert!(gather.add_session(&project, Some(log), counted));
    }
    let board = report_on(gather, Period::Month, "robot").unwrap();
    assert_eq!(board.title, "Robot Code token usage (past 30 days)");
    let rows: Vec<Vec<&str>> = board.rows.iter().map(|row| texts(row)).collect();
    assert_eq!(
        rows,
        vec![
            vec!["1", "/srv/big", "1", "2.0M", "0", "2.0M", "$1.60"],
            vec!["2", "/srv/a", "2", "12", "0", "12", "$0.00"],
            vec!["", "TOTAL", "3", "2.0M", "0", "2.0M", "$1.60"],
        ]
    );
}

#[test]
fn reports_that_do_not_fit_are_refused() {
    let mut gather = Gather::new(NameMap::new(), None, "robot");
    for dir in ["-srv-a", "-srv-b"] {
        let project = gather.open_project(dir, true).unwrap();
        assert!(gather.add_session(&project, Some("18446744073709551615"), counted));
    }
    assert!(report_on(gather, Period::Total, "robot").is_none());
}
