use chrono::{DateTime, Local, TimeZone};
use glass::cli::{
    cron_list, list_report, parse_command, print_usage, remove_report, unknown_command, Command,
};
use glass::cron::{CronEntry, RemoveResult};
use glass::cron_view::{
    entry_lines, format_entry_line, relative_delta, truncate_chars, EntryTimes,
};
use glass::time::Moment;

fn chrono_at(y: i32, mo: u32, d: u32, h: u32, m: u32) -> DateTime<Local> {
    Local.with_ymd_and_hms(y, mo, d, h, m, 0).unwrap()
}

fn local_at(y: i32, mo: u32, d: u32, h: u32, m: u32) -> Moment {
    let t = chrono_at(y, mo, d, h, m);
    Moment { secs: t.timestamp(), nanos: 0, offset: t.offset().local_minus_utc() }
}

fn entry_one_shot(id: &str, fire_at: DateTime<Local>) -> CronEntry {
    CronEntry {
        id: id.into(),
        what: format!("do-{id}"),
        fire_at: Some(fire_at.to_rfc3339()),
        cron: None,
        last_fired_at: None,
    }
}

fn entry_recurring(id: &str, expr: &str, last_fired_at: DateTime<Local>) -> CronEntry {
    CronEntry {
        id: id.into(),
        what: format!("do-{id}"),
        fire_at: None,
        cron: Some(expr.into()),
        last_fired_at: Some(last_fired_at.to_rfc3339()),
    }
}

#[test]
fn format_entry_line_one_shot_shows_relative_delta_and_prompt() {
    let now = local_at(2026, 5, 13, 14, 0);
    let entry = entry_one_shot("abc123def456", chrono_at(2026, 5, 13, 20, 0));
    let out = format_entry_line(&entry, &now);
    assert!(out.contains("abc123def456   one-shot"));
    assert!(out.contains("fires at: 2026-05-13 20:00 (in 6h 0m)"));
    assert!(out.contains("prompt: do-abc123def456"));
}

#[test]
fn format_entry_line_recurring_shows_last_and_next() {
    let now = local_at(2026, 5, 13, 14, 0);
    let entry = entry_recurring("recurr12abcd", "0 9 * * *", chrono_at(2026, 5, 13, 9, 0));
    let out = format_entry_line(&entry, &now);
    assert!(out.contains("recurr12abcd   recurring (0 9 * * *)"));
    assert!(out.contains("last fired: 2026-05-13 09:00"));
    assert!(out.contains("next fire:  2026-05-14 09:00 (in 19h 0m)"));
}

#[test]
fn format_entry_line_overdue_one_shot_is_labeled() {
    let now = local_at(2026, 5, 13, 14, 0);
    let entry = entry_one_shot("latelatelate", chrono_at(2026, 5, 13, 9, 0));
    let out = format_entry_line(&entry, &now);
    assert!(out.contains("(overdue)"));
}

#[test]
fn format_entry_line_truncates_long_prompts() {
    let now = local_at(2026, 5, 13, 14, 0);
    let mut entry = entry_one_shot("longprompt12", chrono_at(2026, 5, 13, 20, 0));
    entry.what = "x".repeat(500);
    let out = format_entry_line(&entry, &now);
    let prompt_line = out
        .lines()
        .find(|l| l.trim_start().starts_with("prompt:"))
        .unwrap();
    assert!(prompt_line.ends_with("..."));
    let body = prompt_line.trim_start().trim_start_matches("prompt: ");
    assert_eq!(body.chars().count(), 120);
}

#[test]
fn the_lines_of_an_entry_are_exact() {
    let now = Moment { secs: 1_800_000_000, nanos: 0, offset: 0 };
    let mut entry = entry_one_shot("abc", chrono_at(2026, 5, 13, 20, 0));
    entry.what = "  first\nsecond ".into();
    let none = EntryTimes { fires: None, last: None, next: None };
    let fires = Moment { secs: 1_800_090_061, nanos: 0, offset: 3600 };
    assert_eq!(
        entry_lines(&entry, &now, &EntryTimes { fires: Some(fires), ..none }),
        "  abc   one-shot\n    fires at: 2027-01-16 10:01 (in 1d 1h)\n    prompt: first second\n"
    );
    entry.fire_at = Some("soon".into());
    assert_eq!(
        format_entry_line(&entry, &now),
        "  abc   one-shot\n    fires at: <unparseable: soon>\n    prompt: first second\n"
    );
    entry.cron = Some("0 9 * * *".into());
    assert_eq!(
        format_entry_line(&entry, &now),
        "  abc   <malformed entry>\n    prompt: first second\n"
    );
    entry.fire_at = None;
    let last = Moment { secs: 1_799_913_600, nanos: 0, offset: 0 };
    let next = Moment { secs: 1_800_000_059, nanos: 0, offset: 0 };
    assert_eq!(
        entry_lines(&entry, &now, &EntryTimes { fires: None, last: Some(last), next: Some(next) }),
        "  abc   recurring (0 9 * * *)\n    last fired: 2027-01-14 08:00\n    next fire:  2027-01-15 08:00 (in <1m)\n    prompt: first second\n"
    );
    assert_eq!(
        entry_lines(&entry, &now, &none),
        "  abc   recurring (0 9 * * *)\n    prompt: first second\n"
    );
}

#[test]
fn an_expression_that_cannot_be_read_has_no_next_slot() {
    let now = local_at(2026, 5, 13, 14, 0);
    let mut entry = entry_recurring("abc", "0 9 * * *", chrono_at(2026, 5, 13, 9, 0));
    entry.cron = Some("never".into());
    entry.last_fired_at = Some("garbled".into());
    assert_eq!(
        format_entry_line(&entry, &now),
        "  abc   recurring (never)\n    prompt: do-abc\n"
    );
}

#[test]
fn deltas_are_rounded_down() {
    assert_eq!(relative_delta(-1), "overdue");
    assert_eq!(relative_delta(0), "in <1m");
    assert_eq!(relative_delta(59), "in <1m");
    assert_eq!(relative_delta(60), "in 1m");
    assert_eq!(relative_delta(3599), "in 59m");
    assert_eq!(relative_delta(3600), "in 1h 0m");
    assert_eq!(relative_delta(86_399), "in 23h 59m");
    assert_eq!(relative_delta(90_000), "in 1d 1h");
}

#[test]
fn a_moment_just_past_is_not_overdue_by_a_second() {
    let now = Moment { secs: 1000, nanos: 500_000_000, offset: 0 };
    let entry = CronEntry {
        id: "a".into(),
        what: "x".into(),
        fire_at: Some("1970-01-01T00:16:40Z".into()),
        cron: None,
        last_fired_at: None,
    };
    assert!(format_entry_line(&entry, &now).contains("(in <1m)"));
}

#[test]
fn previews_stay_on_one_line() {
    assert_eq!(truncate_chars("a\nb", 10), "a b");
    assert_eq!(truncate_chars("abcdef", 6), "abcdef");
    assert_eq!(truncate_chars("abcdefg", 6), "abc...");
    assert_eq!(truncate_chars("abcdefg", 2), "...");
}

#[test]
fn the_list_counts_its_entries() {
    let now = local_at(2026, 5, 13, 14, 0);
    assert_eq!(cron_list(&vec![], &now), "No scheduled entries.\n");
    let entry = entry_one_shot("abc", chrono_at(2026, 5, 13, 20, 0));
    let one = cron_list(&vec![entry.clone()], &now);
    assert_eq!(one, format!("1 scheduled entry:\n\n{}\n", format_entry_line(&entry, &now)));
    assert_eq!(
        list_report(&vec!["a\n".to_string(), "b\n".to_string()]),
        "2 scheduled entries:\n\na\n\nb\n\n"
    );
}

#[test]
fn a_removal_is_reported() {
    let mut entry = entry_one_shot("abc", chrono_at(2026, 5, 13, 20, 0));
    entry.what = " do it \nnow".into();
    let r = remove_report(&RemoveResult::Removed(entry.clone()), "a");
    assert_eq!((r.out.as_str(), r.err.as_str(), r.code), ("Removed cron entry abc.\n  prompt: do it\n", "", 0));
    entry.what = "\nlater".into();
    assert_eq!(remove_report(&RemoveResult::Removed(entry), "a").out, "Removed cron entry abc.\n");
    let r = remove_report(&RemoveResult::NotFound, "x\"y");
    assert_eq!((r.out.as_str(), r.err.as_str(), r.code), ("", "No cron entry matches \"x\\\"y\".\n", 1));
    let r = remove_report(&RemoveResult::Ambiguous(vec!["a1".into(), "a2".into()]), "a");
    assert_eq!(
        (r.err.as_str(), r.code),
        ("Prefix \"a\" matches 2 entries; use a longer prefix or the full id:\n  a1\n  a2\n", 1)
    );
}

#[test]
fn the_command_line_is_understood() {
    let parse = |line: &str| parse_command(&line.split_whitespace().map(String::from).collect());
    assert!(matches!(parse(""), Command::Daemon));
    assert!(matches!(parse("cron list"), Command::CronList));
    assert!(matches!(parse("cron rm ab"), Command::CronRemove(id) if id == "ab"));
    assert!(matches!(parse("help"), Command::Help));
    assert!(matches!(parse("-h"), Command::Help));
    assert!(matches!(parse("--help"), Command::Help));
    assert!(matches!(parse("cron rm"), Command::Unknown(l) if l == "cron rm"));
    assert!(matches!(parse("help me"), Command::Unknown(l) if l == "help me"));
    assert_eq!(unknown_command("x y"), "error: unknown command: x y\n\n");
    assert!(print_usage().starts_with("usage:\n  glass "));
    assert_eq!(print_usage().lines().count(), 5);
}

#[test]
fn times_are_shown_in_local_time() {
    let now = Moment { secs: 1_800_000_000, nanos: 0, offset: 0 };
    for offset in ["+05:00", "-03:30"] {
        let text = format!("2027-01-16T09:00:00{offset}");
        let local = DateTime::parse_from_rfc3339(&text).unwrap().with_timezone(&Local);
        let entry = CronEntry {
            id: "a".into(),
            what: "x".into(),
            fire_at: Some(text),
            cron: None,
            last_fired_at: None,
        };
        let expected = format!("fires at: {} (in ", local.format("%Y-%m-%d %H:%M"));
        assert!(format_entry_line(&entry, &now).contains(&expected));
    }
}
