use chrono::{DateTime, Local, TimeZone};
use glass::cron::{
    cron_context, decide_when, new_entry, parse_cron, parse_when, poll_due_pure, poll_with,
    run_status, short_id, CronEntry, CronStore, RemoveResult,
};
use glass::failure::Failure;
use glass::invocation_log::Trigger;
use glass::time::Moment;

fn moment(t: DateTime<Local>) -> Moment {
    Moment {
        secs: t.timestamp(),
        nanos: t.timestamp_subsec_nanos(),
        offset: t.offset().local_minus_utc(),
    }
}

fn chrono_at(y: i32, mo: u32, d: u32, h: u32, m: u32) -> DateTime<Local> {
    Local.with_ymd_and_hms(y, mo, d, h, m, 0).unwrap()
}

fn local_at(y: i32, mo: u32, d: u32, h: u32, m: u32) -> Moment {
    moment(chrono_at(y, mo, d, h, m))
}

fn read_back(text: &str) -> DateTime<Local> {
    DateTime::parse_from_rfc3339(text).unwrap().with_timezone(&Local)
}

#[test]
fn parse_when_hh_mm_in_future_today() {
    let now = local_at(2026, 5, 13, 14, 0);
    let got = parse_when("15:30", &now).unwrap();
    assert_eq!(got, local_at(2026, 5, 13, 15, 30));
}

#[test]
fn parse_when_hh_mm_in_past_rolls_to_tomorrow() {
    let now = local_at(2026, 5, 13, 18, 0);
    let got = parse_when("09:00", &now).unwrap();
    assert_eq!(got, local_at(2026, 5, 14, 9, 0));
}

#[test]
fn parse_when_exact_local_datetime() {
    let now = local_at(2026, 5, 13, 14, 0);
    let got = parse_when("2026-05-15 09:00", &now).unwrap();
    assert_eq!(got, local_at(2026, 5, 15, 9, 0));
}

#[test]
fn parse_when_rejects_past_specific_datetime() {
    let now = local_at(2026, 5, 13, 14, 0);
    let err = parse_when("2026-05-12 09:00", &now).unwrap_err();
    assert!(err.message().contains("in the past"));
}

#[test]
fn parse_when_rejects_bad_format() {
    let now = local_at(2026, 5, 13, 14, 0);
    let err = parse_when("tomorrow at 3pm", &now).unwrap_err();
    assert!(err.message().contains("expected"));
}

#[test]
fn a_time_of_day_that_is_now_is_tomorrow() {
    let now = local_at(2026, 5, 13, 14, 0);
    assert_eq!(parse_when(" 14:00 ", &now).unwrap(), local_at(2026, 5, 14, 14, 0));
    assert_eq!(parse_when("14:01", &now).unwrap(), local_at(2026, 5, 13, 14, 1));
}

#[test]
fn the_messages_of_a_bad_when() {
    let now = Moment { secs: 1_800_000_000, nanos: 0, offset: 3600 };
    let err = parse_when(" a\tb ", &now).unwrap_err();
    assert_eq!(
        err.message(),
        "when: expected 'HH:MM' (next 24h, local) or 'YYYY-MM-DD HH:MM' (local), got \"a\\tb\""
    );
    let past = Moment { secs: 1_799_999_940, nanos: 0, offset: 3600 };
    let err = decide_when("2027-01-15 08:59", &now, Some(past), None).unwrap_err();
    assert_eq!(
        err.message(),
        "when: 2027-01-15T08:59:00+01:00 is in the past (now is 2027-01-15T09:00:00+01:00)"
    );
}

#[test]
fn a_reading_that_the_zone_skips_or_repeats_is_refused() {
    let now = Moment { secs: 1_800_000_000, nanos: 0, offset: 0 };
    let err = decide_when("2027-03-28 02:30", &now, None, None).unwrap_err();
    assert_eq!(
        err.message(),
        "when: 2027-03-28 02:30:00 is ambiguous or invalid in local time (likely a DST transition); try a different minute"
    );
    let err = decide_when("02:30", &now, None, None).unwrap_err();
    assert!(err.message().starts_with("when: 2027-01-15 02:30:00 is ambiguous"));
    let today = Moment { secs: 1_799_980_200, nanos: 0, offset: 0 };
    let err = decide_when("02:30", &now, Some(today), None).unwrap_err();
    assert!(err.message().starts_with("when: 2027-01-16 02:30:00 is ambiguous"));
}

#[test]
fn parse_cron_5_field_daily_at_9() {
    let schedule = parse_cron("0 9 * * *").unwrap();
    let next = schedule.after(&chrono_at(2026, 5, 13, 14, 0)).next().unwrap();
    assert_eq!(next, chrono_at(2026, 5, 14, 9, 0));
}

#[test]
fn parse_cron_5_field_every_15_minutes() {
    let schedule = parse_cron("*/15 * * * *").unwrap();
    let next = schedule.after(&chrono_at(2026, 5, 13, 14, 7)).next().unwrap();
    assert_eq!(next, chrono_at(2026, 5, 13, 14, 15));
}

#[test]
fn parse_cron_rejects_garbage() {
    let err = parse_cron("not a cron").unwrap_err();
    assert!(err.message().contains("invalid"));
}

#[test]
fn only_five_fields_are_an_expression() {
    for expr in ["0 9 * *", "0 9 * * * *", "0 9 * * * * *", "", "not a cron"] {
        let err = parse_cron(expr).unwrap_err();
        assert_eq!(err.message(), format!("invalid 5-field cron expression: {expr}"));
    }
    assert!(parse_cron("  0\t9  * * *\n").is_ok());
    let now = local_at(2026, 5, 13, 14, 0);
    let mut store = CronStore::new("cron.jsonl".to_string());
    let err = store.append("x", None, Some("0 9 * *"), &now).unwrap_err();
    assert_eq!(
        err.report(),
        "invalid cron expression: 0 9 * *: invalid 5-field cron expression: 0 9 * *"
    );
}

#[test]
fn a_bad_expression_is_named_as_it_was_given() {
    let err = parse_cron(" garbage ").unwrap_err();
    assert_eq!(err.message(), "invalid 5-field cron expression:  garbage ");
    assert_eq!(err.chain.len(), 2);
    assert!(err.report().starts_with("invalid 5-field cron expression:  garbage : "));
}

#[test]
fn append_one_shot_round_trips() {
    let mut store = CronStore::new("cron.jsonl".to_string());
    let now = local_at(2026, 5, 13, 14, 0);
    let id = store.append("dance reminder", Some("15:30"), None, &now).unwrap();
    assert_eq!(id.len(), 12);

    let entry = &store.list()[0];
    assert_eq!(entry.id, id);
    assert_eq!(entry.what, "dance reminder");
    assert!(entry.cron.is_none());
    assert_eq!(read_back(entry.fire_at.as_deref().unwrap()), chrono_at(2026, 5, 13, 15, 30));
    assert!(entry.last_fired_at.is_none());
}

#[test]
fn append_recurring_seeds_last_fired_at_now() {
    let mut store = CronStore::new("cron.jsonl".to_string());
    let now = local_at(2026, 5, 13, 14, 0);
    store.append("morning routine", None, Some("0 9 * * *"), &now).unwrap();

    let entry = &store.list()[0];
    assert_eq!(entry.cron.as_deref(), Some("0 9 * * *"));
    assert_eq!(read_back(entry.last_fired_at.as_deref().unwrap()), chrono_at(2026, 5, 13, 14, 0));
}

#[test]
fn append_rejects_unparseable_cron() {
    let mut store = CronStore::new("cron.jsonl".to_string());
    let now = local_at(2026, 5, 13, 14, 0);
    let err = store.append("x", None, Some("garbage"), &now).unwrap_err();
    assert!(err.message().contains("invalid cron"));
    assert!(err.report().starts_with(
        "invalid cron expression: garbage: invalid 5-field cron expression: garbage: "
    ));
    assert!(store.list().is_empty());
}

#[test]
fn a_request_needs_a_prompt_and_one_time() {
    let mut store = CronStore::new("cron.jsonl".to_string());
    let now = local_at(2026, 5, 13, 14, 0);
    let message = |r: Result<String, Failure>| r.unwrap_err().message();
    assert_eq!(message(store.append("  ", Some("15:00"), None, &now)), "'what' is required");
    assert_eq!(
        message(store.append("x", None, None, &now)),
        "must specify either 'when' or 'cron'"
    );
    assert_eq!(
        message(store.append("x", Some("15:00"), Some("0 9 * * *"), &now)),
        "'when' and 'cron' are mutually exclusive"
    );
    assert!(message(store.append("x", Some("noon"), None, &now)).starts_with("when: expected"));
    assert!(store.list().is_empty());
}

#[test]
fn a_new_entry_has_the_given_id_and_a_trimmed_prompt() {
    let now = Moment { secs: 1_800_000_000, nanos: 500_000_000, offset: -7200 };
    let e = new_entry(" a b ", None, Some("0 9 * * *"), &now, None, None, "id".to_string()).unwrap();
    assert_eq!(
        e,
        CronEntry {
            id: "id".to_string(),
            what: "a b".to_string(),
            fire_at: None,
            cron: Some("0 9 * * *".to_string()),
            last_fired_at: Some("2027-01-15T06:00:00.500-02:00".to_string()),
        }
    );
}

fn entry_one_shot(id: &str, fire_at: DateTime<Local>) -> CronEntry {
    CronEntry {
        id: id.into(),
        what: format!("do-{id}"),
        fire_at: Some(fire_at.to_rfc3339()),
        cron: None,
        last_fired_at: None,
    }
}

fn entry_recurring(id: &str, expr: &str, last_fired_at: DateTime<Local>) -> CronEntry {
    CronEntry {
        id: id.into(),
        what: format!("do-{id}"),
        fire_at: None,
        cron: Some(expr.into()),
        last_fired_at: Some(last_fired_at.to_rfc3339()),
    }
}

#[test]
fn poll_one_shot_fires_and_is_removed() {
    let now = local_at(2026, 5, 13, 14, 0);
    let due = entry_one_shot("a", chrono_at(2026, 5, 13, 13, 0));
    let not_due = entry_one_shot("b", chrono_at(2026, 5, 13, 15, 0));

    let result = poll_due_pure(vec![due.clone(), not_due.clone()], &now);
    assert_eq!(result.fire, vec![due]);
    assert_eq!(result.keep, vec![not_due]);
}

#[test]
fn poll_recurring_fires_when_slot_elapsed_updates_last_fired_at() {
    let now = local_at(2026, 5, 13, 14, 0);
    let entry = entry_recurring("a", "0 9 * * *", chrono_at(2026, 5, 12, 9, 0));

    let result = poll_due_pure(vec![entry.clone()], &now);
    assert_eq!(result.fire.len(), 1);
    assert_eq!(result.fire[0].id, "a");
    let lfa = result.fire[0].last_fired_at.as_deref().unwrap();
    assert_eq!(read_back(lfa), chrono_at(2026, 5, 13, 14, 0));
    assert_eq!(result.keep.len(), 1);
    assert_eq!(result.keep[0].id, "a");
}

#[test]
fn poll_recurring_skips_when_no_slot_elapsed() {
    let now = local_at(2026, 5, 13, 14, 0);
    let entry = entry_recurring("a", "0 9 * * *", chrono_at(2026, 5, 13, 9, 0));

    let result = poll_due_pure(vec![entry.clone()], &now);
    assert_eq!(result.fire, vec![]);
    assert_eq!(result.keep, vec![entry]);
}

#[test]
fn poll_recurring_long_offline_fires_once_not_per_missed_slot() {
    let now = local_at(2026, 5, 13, 14, 0);
    let entry = entry_recurring("a", "0 9 * * *", chrono_at(2026, 5, 3, 9, 0));

    let result = poll_due_pure(vec![entry], &now);
    assert_eq!(result.fire.len(), 1);
    let lfa = result.fire[0].last_fired_at.as_deref().unwrap();
    assert_eq!(read_back(lfa), chrono_at(2026, 5, 13, 14, 0));

    let again = poll_due_pure(result.keep, &now);
    assert_eq!(again.fire, vec![]);
    assert_eq!(again.keep.len(), 1);
}

#[test]
fn poll_drops_malformed_entries() {
    let now = local_at(2026, 5, 13, 14, 0);
    let bad = CronEntry {
        id: "broken".into(),
        what: "x".into(),
        fire_at: None,
        cron: None,
        last_fired_at: None,
    };
    let bad_cron = CronEntry {
        id: "bad_cron".into(),
        what: "x".into(),
        fire_at: None,
        cron: Some("not-a-cron".into()),
        last_fired_at: None,
    };
    let result = poll_due_pure(vec![bad, bad_cron], &now);
    assert_eq!(result.fire, vec![]);
    assert_eq!(result.keep, vec![]);
}

#[test]
fn entries_with_two_times_or_an_unreadable_one_are_dropped() {
    let now = local_at(2026, 5, 13, 14, 0);
    let mut both = entry_one_shot("both", chrono_at(2026, 5, 13, 15, 0));
    both.cron = Some("0 9 * * *".into());
    let mut unreadable = entry_one_shot("unreadable", chrono_at(2026, 5, 13, 15, 0));
    unreadable.fire_at = Some("soon".into());
    let result = poll_due_pure(vec![both, unreadable], &now);
    assert_eq!(result.fire, vec![]);
    assert_eq!(result.keep, vec![]);
}

#[test]
fn a_slot_decides_whether_a_recurring_entry_fires() {
    let now = Moment { secs: 1_000_000, nanos: 5, offset: 0 };
    let entry = CronEntry {
        id: "a".into(),
        what: "x".into(),
        fire_at: None,
        cron: Some("0 9 * * *".into()),
        last_fired_at: Some("garbled".into()),
    };
    let at = |secs: i64| Some(Moment { secs, nanos: 0, offset: 0 });
    let due = poll_with(vec![entry.clone()], &now, &vec![at(1_000_000)]);
    assert_eq!(due.fire.len(), 1);
    assert_eq!(
        due.keep[0].last_fired_at.as_deref(),
        Some("1970-01-12T13:46:40.000000005+00:00")
    );
    let early = poll_with(vec![entry.clone()], &now, &vec![at(1_000_001)]);
    assert_eq!(early.fire, vec![]);
    assert_eq!(early.keep, vec![entry.clone()]);
    let never = poll_with(vec![entry.clone()], &now, &vec![None]);
    assert_eq!(never.keep, vec![entry]);
}

#[test]
fn an_entry_that_never_fired_waits_for_the_next_slot() {
    let now = local_at(2026, 5, 13, 14, 0);
    let mut entry = entry_recurring("a", "0 9 * * *", chrono_at(2026, 5, 3, 9, 0));
    entry.last_fired_at = None;
    let result = poll_due_pure(vec![entry.clone()], &now);
    assert_eq!(result.fire, vec![]);
    assert_eq!(result.keep, vec![entry]);
}

#[test]
fn append_and_poll_round_trip_through_store() {
    let mut store = CronStore::new("cron.jsonl".to_string());
    let now = local_at(2026, 5, 13, 14, 0);
    store.append("past", Some("13:00"), None, &local_at(2026, 5, 13, 12, 0)).unwrap();
    store.append("future", Some("15:00"), None, &now).unwrap();

    let due = store.poll_due(&now);
    assert_eq!(due.len(), 1);
    assert_eq!(due[0].what, "past");
    assert_eq!(store.list().len(), 1);
    assert_eq!(store.list()[0].what, "future");
}

#[test]
fn a_poll_that_fires_nothing_drops_corrupt_entries() {
    let now = local_at(2026, 5, 13, 14, 0);
    let broken = CronEntry {
        id: "broken".into(),
        what: "x".into(),
        fire_at: None,
        cron: None,
        last_fired_at: None,
    };
    let later = entry_one_shot("later", chrono_at(2026, 5, 13, 15, 0));
    let mut store =
        CronStore::new("cron.jsonl".to_string()).with_entries(vec![broken, later.clone()]);
    assert!(store.poll_due(&now).is_empty());
    assert_eq!(store.list(), &vec![later]);
}

#[test]
fn list_returns_entries_in_file_order() {
    let store = populated_store();
    let entries = store.list();
    assert_eq!(entries.len(), 3);
    assert_eq!(entries[0].what, "first");
    assert_eq!(entries[1].what, "second");
    assert_eq!(entries[2].what, "third");
}

#[test]
fn list_on_missing_file_returns_empty() {
    let store = CronStore::new("cron.jsonl".to_string());
    assert_eq!(store.list(), &vec![]);
    assert_eq!(store.path(), "cron.jsonl");
}

fn populated_store() -> CronStore {
    let mut store = CronStore::new("cron.jsonl".to_string());
    let now = local_at(2026, 5, 13, 14, 0);
    store.append("first", Some("15:00"), None, &now).unwrap();
    store.append("second", Some("16:00"), None, &now).unwrap();
    store.append("third", None, Some("0 9 * * *"), &now).unwrap();
    store
}

#[test]
fn remove_by_exact_id_drops_one_entry() {
    let mut store = populated_store();
    let target = store.list()[1].clone();

    let result = store.remove(&target.id).unwrap();
    assert_eq!(result, RemoveResult::Removed(target.clone()));

    let remaining = store.list();
    assert_eq!(remaining.len(), 2);
    assert!(remaining.iter().all(|e| e.id != target.id));
}

#[test]
fn remove_by_unique_prefix_drops_the_match() {
    let mut store = populated_store();
    let target = store.list()[0].clone();
    let prefix = target.id[..6].to_string();
    let others = store
        .list()
        .iter()
        .filter(|e| e.id != target.id && e.id.starts_with(&prefix))
        .count();
    assert_eq!(others, 0, "prefix collision in test fixture");

    let result = store.remove(&prefix).unwrap();
    assert_eq!(result, RemoveResult::Removed(target));
}

#[test]
fn remove_ambiguous_prefix_returns_match_list_without_deleting() {
    let now = chrono_at(2026, 5, 13, 14, 0);
    let entries = vec![
        CronEntry {
            id: "aaa111bbb222".into(),
            what: "one".into(),
            fire_at: Some(now.to_rfc3339()),
            cron: None,
            last_fired_at: None,
        },
        CronEntry {
            id: "aaa333ccc444".into(),
            what: "two".into(),
            fire_at: Some(now.to_rfc3339()),
            cron: None,
            last_fired_at: None,
        },
    ];
    let mut store = CronStore::new("cron.jsonl".to_string()).with_entries(entries);

    match store.remove("aaa").unwrap() {
        RemoveResult::Ambiguous(ids) => {
            assert_eq!(ids, vec!["aaa111bbb222", "aaa333ccc444"]);
        }
        other => panic!("expected Ambiguous, got {other:?}"),
    }
    assert_eq!(store.list().len(), 2);
}

#[test]
fn a_full_id_is_removed_though_another_id_begins_with_it() {
    let now = chrono_at(2026, 5, 13, 14, 0);
    let (e1, e2) = (entry_one_shot("aaa", now), entry_one_shot("aaa111", now));
    let store = || {
        CronStore::new("cron.jsonl".to_string()).with_entries(vec![e1.clone(), e2.clone()])
    };
    let mut s = store();
    assert_eq!(s.remove(" aaa ").unwrap(), RemoveResult::Removed(e1.clone()));
    assert_eq!(s.list(), &vec![e2.clone()]);
    let mut s = store();
    assert_eq!(s.remove("aaa1").unwrap(), RemoveResult::Removed(e2.clone()));
    let mut s = store();
    assert!(matches!(s.remove("aa").unwrap(), RemoveResult::Ambiguous(ids) if ids == ["aaa", "aaa111"]));
    let mut s = CronStore::new("cron.jsonl".to_string()).with_entries(vec![e1.clone(), e1.clone()]);
    assert!(matches!(s.remove("aaa").unwrap(), RemoveResult::Ambiguous(ids) if ids == ["aaa", "aaa"]));
    assert_eq!(s.list().len(), 2);
}

#[test]
fn remove_no_match_returns_not_found() {
    let mut store = populated_store();
    let before = store.list().clone();
    assert_eq!(store.remove("zzzzzzzzzzzz").unwrap(), RemoveResult::NotFound);
    assert_eq!(store.list(), &before);
}

#[test]
fn remove_empty_input_errors() {
    let mut store = populated_store();
    let err = store.remove("   ").unwrap_err();
    assert!(err.message().contains("id is required"));
}

#[test]
fn poll_due_on_missing_file_returns_empty() {
    let mut store = CronStore::new("cron.jsonl".to_string());
    let now = local_at(2026, 5, 13, 14, 0);
    assert!(store.poll_due(&now).is_empty());
}

#[test]
fn removing_by_id_undoes_adding() {
    let mut store = populated_store();
    let before = store.list().clone();
    let now = local_at(2026, 5, 13, 14, 0);
    let id = store.append("fourth", Some("17:00"), None, &now).unwrap();
    assert!(matches!(store.remove(&id).unwrap(), RemoveResult::Removed(e) if e.id == id));
    assert_eq!(store.list(), &before);
}

#[test]
fn ids_are_twelve_symbols_of_base_32() {
    let id = short_id();
    assert_eq!(id.len(), 12);
    assert!(id.chars().all(|c| c.is_ascii_lowercase() || ('2'..='7').contains(&c)));
}

#[test]
fn a_due_entry_gives_the_context_of_its_run() {
    let e = entry_one_shot("a", chrono_at(2026, 5, 13, 13, 0));
    let c = cron_context(&e, "./manifests/cron.toml");
    assert_eq!(c.trigger, Trigger::Cron);
    assert_eq!(c.manifest, "./manifests/cron.toml");
    assert_eq!(c.prompt, "do-a");
    assert_eq!(c.cron_id.as_deref(), Some("a"));
    assert_eq!(c.channel, None);
    assert_eq!(run_status(&Ok(())).label(), "ok");
    let failed = run_status(&Err(Failure::new("b".to_string()).context("a".to_string())));
    assert_eq!(failed.label(), "error");
    assert_eq!(failed.error_message(), Some("a: b"));
}

#[test]
fn a_full_id_stands_for_its_entry_alone() {
    let mut store = populated_store();
    let ids: Vec<String> = store.list().iter().map(|e| e.id.clone()).collect();
    for id in &ids {
        assert_eq!(id.len(), 12);
        assert!(matches!(store.remove(id).unwrap(), RemoveResult::Removed(e) if e.id == *id));
    }
    assert!(store.list().is_empty());
}

#[test]
fn a_new_entry_does_not_fire_at_once() {
    let now = local_at(2026, 5, 13, 14, 0);
    let mut store = CronStore::new("cron.jsonl".to_string());
    store.append("once", Some("14:01"), None, &now).unwrap();
    store.append("often", None, Some("* * * * *"), &now).unwrap();
    assert!(store.poll_due(&now).is_empty());
    let due = store.poll_due(&local_at(2026, 5, 13, 14, 1));
    assert_eq!(due.len(), 2);
    assert_eq!(store.list().len(), 1);
    assert!(store.poll_due(&local_at(2026, 5, 13, 14, 1)).is_empty());
}

#[test]
fn an_elapsed_slot_fires_and_the_next_one_waits() {
    let entry = entry_recurring("a", "30 9 * * *", chrono_at(2026, 5, 12, 9, 30));
    let early = poll_due_pure(vec![entry.clone()], &local_at(2026, 5, 13, 9, 29));
    assert_eq!(early.fire, vec![]);
    let due = poll_due_pure(vec![entry], &local_at(2026, 5, 13, 9, 30));
    assert_eq!(due.fire.len(), 1);
    let later = poll_due_pure(due.keep, &local_at(2026, 5, 14, 9, 29));
    assert_eq!(later.fire, vec![]);
}
