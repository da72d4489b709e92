use token_leaderboard::agent::{agent_of_program, archive_dir, config_file, projects_dir};
use token_leaderboard::gather::file_in_range;
use token_leaderboard::period::{parse_period, Period};

#[test]
fn labels() {
    assert_eq!(Period::Total.label(), "all time");
    assert_eq!(Period::Week.label(), "past 7 days");
    assert_eq!(Period::Month.label(), "past 30 days");
}

#[test]
fn lengths() {
    assert_eq!(Period::Total.length_secs(), None);
    assert_eq!(Period::Week.length_secs(), Some(604_800));
    assert_eq!(Period::Month.length_secs(), Some(2_592_000));
}

#[test]
fn cutoffs() {
    assert_eq!(Period::Total.cutoff_secs(0), None);
    assert_eq!(Period::Week.cutoff_secs(604_800), Some(0));
    assert_eq!(Period::Week.cutoff_secs(1_000_000_000), Some(999_395_200));
    assert_eq!(Period::Month.cutoff_secs(1_000_000_000), Some(997_408_000));
}

#[test]
fn arguments_name_periods() {
    assert_eq!(parse_period(None, "robot").ok(), Some(Period::Total));
    for word in ["week", "w", "7d"] {
        assert_eq!(parse_period(Some(word), "robot").ok(), Some(Period::Week));
    }
    for word in ["month", "m", "30d"] {
        assert_eq!(parse_period(Some(word), "robot").ok(), Some(Period::Month));
    }
    for word in ["total", "all", "a"] {
        assert_eq!(parse_period(Some(word), "robot").ok(), Some(Period::Total));
    }
}

#[test]
fn unknown_arguments_are_refused() {
    for word in ["", "Week", "weeks", "30", "year"] {
        match parse_period(Some(word), "robot") {
            Ok(_) => panic!("{word} names no period"),
            Err(unknown) => {
                assert_eq!(unknown.message, format!("Unknown period: {word}"));
                assert_eq!(unknown.usage, "Usage: robot-tokens [week|month|total]");
            }
        }
    }
}

#[test]
fn files_in_range() {
    assert!(file_in_range(None, None));
    assert!(file_in_range(Some(0), None));
    assert!(!file_in_range(None, Some(0)));
    assert!(file_in_range(Some(10), Some(10)));
    assert!(!file_in_range(Some(9), Some(10)));
}

#[test]
fn longer_periods_take_more_files() {
    let now = 1_000_000_000;
    let week = Period::Week.cutoff_secs(now);
    let month = Period::Month.cutoff_secs(now);
    for age in [0, 86_400, 604_800, 604_801, 2_592_000, 2_592_001] {
        let mtime = Some(now - age);
        assert!(!file_in_range(mtime, week) || file_in_range(mtime, month));
        assert!(file_in_range(mtime, Period::Total.cutoff_secs(now)));
    }
}

#[test]
fn programs_name_agents() {
    assert_eq!(agent_of_program("robot-tokens").as_deref(), Some("robot"));
    assert_eq!(agent_of_program("a-b-tokens").as_deref(), Some("a-b"));
    assert_eq!(agent_of_program("-tokens"), None);
    assert_eq!(agent_of_program("tokens"), None);
    assert_eq!(agent_of_program("robot-tokens2"), None);
}

#[test]
fn places_of_an_agent() {
    assert_eq!(config_file("robot"), ".robot.json");
    assert_eq!(projects_dir("robot"), ".robot/projects");
    assert_eq!(archive_dir("robot"), ".robot/archive");
}
