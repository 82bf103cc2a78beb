use chrono::{Datelike, Days, Local, Months, Timelike};
use qulog::error::LogError;
use qulog::range::{resolve_range, week_start_of, DatePreset};
use qulog::report::{export_html, show_lines};
use qulog::repository::{entries_from_rows, plan_query, LogEntry, LogRow, Query};
use qulog::tags::TagSet;
use qulog::timestamp::{text_not_after, LocalDateTime};

fn at(y: i32, mo: u32, d: u32, h: u32, mi: u32, s: u32) -> LocalDateTime {
    LocalDateTime::new(y, mo, d, h, mi, s).unwrap()
}

fn from_chrono<T: Datelike + Timelike>(t: &T) -> LocalDateTime {
    at(t.year(), t.month(), t.day(), t.hour(), t.minute(), t.second())
}

fn strings(items: &[&str]) -> Vec<String> {
    items.iter().map(|s| s.to_string()).collect()
}

fn store(rows: &mut Vec<LogRow>, text: &str, tags: Option<&str>, created_at: LocalDateTime) {
    let entry = LogEntry::create(text.to_string(), &tags.map(|t| t.to_string()), created_at);
    rows.push(LogRow::from_entry(&entry));
}

#[test]
fn test_qulog_model_mapping() {
    let text = "Hello world";
    let create_date = LocalDateTime::now().unwrap();
    let tags = vec!["hello".to_string(), "world".to_string()];
    let model = LogEntry {
        text: text.to_string(),
        tags: TagSet::from_vec(tags.clone()),
        created_at: create_date,
    };

    let db_model = LogRow::from_entry(&model);
    let model: LogEntry = db_model.to_entry().unwrap();

    assert_eq!(model.text, text);
    assert_eq!(model.created_at, create_date);
    assert_eq!(model.tags.as_vec(), &tags);
}

#[test]
fn test_qulog_insert_and_read() {
    let mut rows = Vec::new();
    let text = "Hello world";
    let create_date = LocalDateTime::now().unwrap();
    let entry = LogEntry {
        text: text.to_string(),
        tags: TagSet::from_vec(strings(&["hello", "world"])),
        created_at: create_date,
    };
    rows.push(LogRow::from_entry(&entry));

    let all = entries_from_rows(&Query::new(None, None, None).select(&rows)).unwrap();
    assert_eq!(all.len(), 1);
    assert_eq!(all.first().unwrap().text, text);
}

#[test]
fn test_qulog_read_filter_date() {
    let mut rows = Vec::new();
    let base = Local::now().naive_local().with_nanosecond(0).unwrap();
    let later = [
        base.checked_add_days(Days::new(1)).unwrap(),
        base.checked_add_days(Days::new(2)).unwrap(),
        base.checked_add_days(Days::new(3)).unwrap(),
        base.checked_add_months(Months::new(2)).unwrap(),
        base.checked_add_months(Months::new(3)).unwrap(),
        base.checked_add_months(Months::new(24)).unwrap(),
    ];
    for date in later.iter() {
        store(&mut rows, "Hello world", None, from_chrono(date));
    }

    let all = Query::new(None, None, None).select(&rows);
    assert_eq!(all.len(), 6);

    let month_later = base.checked_add_months(Months::new(1)).unwrap();
    let this_month = Query::new(
        None,
        Some(from_chrono(&base)),
        Some(from_chrono(&month_later)),
    )
    .select(&rows);
    assert_eq!(this_month.len(), 3);
}

#[test]
fn tags_parse_drops_blank_pieces() {
    let tags = TagSet::parse(",a,,b,");
    assert_eq!(tags.as_vec(), &strings(&["a", "b"]));
    assert_eq!(tags.serialize(), "a,b");
    assert!(TagSet::parse("").is_empty());
    assert!(TagSet::parse(",,,").is_empty());
    assert_eq!(TagSet::parse("x,x").as_vec(), &strings(&["x", "x"]));
    assert_eq!(TagSet::empty().serialize(), "");
}

#[test]
fn tags_round_trip_through_text() {
    for raw in ["groceries,home", ",a,,b c,", "", "solo", "é,ü,,"] {
        let once = TagSet::parse(raw);
        let again = TagSet::parse(&once.serialize());
        assert_eq!(again.as_vec(), once.as_vec());
    }
}

#[test]
fn created_entry_is_found_by_the_open_query() {
    let now = LocalDateTime::now().unwrap();
    let mut rows = Vec::new();
    store(&mut rows, "older", Some("x"), at(2001, 2, 3, 4, 5, 6));
    store(&mut rows, "fresh", Some("work,urgent"), now);

    let found = Query::new(None, None, None).select(&rows);
    let entries = entries_from_rows(&found).unwrap();
    assert_eq!(entries.len(), 2);
    let last = entries.last().unwrap();
    assert_eq!(last.text, "fresh");
    assert_eq!(last.tags.as_vec(), &strings(&["work", "urgent"]));
    assert_eq!(last.created_at, now);
}

#[test]
fn entry_is_outside_a_later_range() {
    let now = LocalDateTime::now().unwrap();
    let mut rows = Vec::new();
    store(&mut rows, "now", None, now);
    let one = now.add_days(1).unwrap();
    let two = now.add_days(2).unwrap();
    let query = Query::new(None, Some(one), Some(two));
    assert!(!query.matches(&rows[0]));
    assert!(query.select(&rows).is_empty());
}

#[test]
fn this_month_starts_on_the_first_at_midnight() {
    let now = at(2024, 5, 17, 13, 45, 10);
    let (start, end) = DatePreset::ThisMonth.date_times(&now);
    assert_eq!(start, at(2024, 5, 1, 0, 0, 0));
    assert_eq!(end, now);

    let now = LocalDateTime::now().unwrap();
    let (start, end) = DatePreset::ThisMonth.date_times(&now);
    assert_eq!(start, at(now.year, now.month, 1, 0, 0, 0));
    assert!(now.is_not_after(&end));
}

#[test]
fn other_presets() {
    // 2024-05-17 is a Friday
    let now = at(2024, 5, 17, 13, 45, 10);
    assert_eq!(now.days_from_monday(), 4);
    assert_eq!(
        DatePreset::ThisWeek.date_times(&now),
        (at(2024, 5, 13, 0, 0, 0), now)
    );
    assert_eq!(
        DatePreset::ThisYear.date_times(&now),
        (at(2024, 1, 1, 0, 0, 0), now)
    );
    assert_eq!(
        DatePreset::Today.date_times(&now),
        (at(2024, 5, 17, 0, 0, 0), at(2024, 5, 18, 0, 0, 0))
    );
    // a week that began in the previous year
    let new_year = at(2025, 1, 1, 9, 0, 0);
    assert_eq!(new_year.days_from_monday(), 2);
    assert_eq!(
        DatePreset::ThisWeek.date_times(&new_year).0,
        at(2024, 12, 30, 0, 0, 0)
    );
    let eve = at(2023, 12, 31, 23, 0, 0);
    assert_eq!(DatePreset::Today.date_times(&eve).1, at(2024, 1, 1, 0, 0, 0));
    // the last storable day has no next midnight: the range runs to the last instant
    let last = at(9999, 12, 31, 12, 0, 0);
    assert_eq!(DatePreset::Today.date_times(&last).1, LocalDateTime::latest());
    // the first week has no storable Monday: the range starts at the first instant
    assert_eq!(week_start_of(&at(0, 1, 1, 5, 0, 0), 5), LocalDateTime::earliest());
}

#[test]
fn preset_with_explicit_bound_conflicts() {
    let now = LocalDateTime::now().unwrap();
    let start = Some("2024-01-01T00:00:00".to_string());
    let rows: Vec<LogRow> = Vec::new();
    let planned = plan_query(&None, &start, &None, Some(DatePreset::ThisWeek), &now);
    assert!(matches!(planned, Err(LogError::ConfigConflict)));
    assert!(rows.is_empty());
    let end = Some("2024-01-01T00:00:00".to_string());
    assert_eq!(
        resolve_range(Some(DatePreset::Today), &None, &end, &now),
        Err(LogError::ConfigConflict)
    );
}

#[test]
fn unreadable_bound_is_rejected() {
    let now = LocalDateTime::now().unwrap();
    for bad in [
        "2024-13-01T00:00:00",
        "yesterday",
        "2024-01-01 00:00:00",
        "2023-02-29T00:00:00",
        "2024-1-1T0:0:0",
        " 2024-01-01T00:00:00",
        "02024-01-01T00:00:00",
    ] {
        let planned = plan_query(&None, &Some(bad.to_string()), &None, None, &now);
        assert!(matches!(planned, Err(LogError::TimestampParseError)), "{bad}");
    }
    let planned = plan_query(&None, &None, &Some("+12000-01-01T00:00:00".to_string()), None, &now);
    assert!(matches!(planned, Err(LogError::TimestampParseError)));
}

#[test]
fn explicit_bounds_are_read() {
    let now = LocalDateTime::now().unwrap();
    let range = resolve_range(
        None,
        &Some("2024-02-29T23:59:58".to_string()),
        &None,
        &now,
    );
    assert_eq!(range, Ok((Some(at(2024, 2, 29, 23, 59, 58)), None)));
    let q = plan_query(&Some(String::new()), &None, &None, None, &now).unwrap();
    assert_eq!(q.tags, None);
    assert_eq!(q.start, "0000-01-01T00:00:00");
    assert_eq!(q.end, "9999-12-31T23:59:59");
}

#[test]
fn tag_filter_is_an_exact_match() {
    let now = LocalDateTime::now().unwrap();
    let mut rows = Vec::new();
    store(&mut rows, "both", Some("a,b"), now);
    let exact = plan_query(&Some("a,b".to_string()), &None, &None, None, &now).unwrap();
    assert_eq!(exact.tags, Some("a,b".to_string()));
    assert!(exact.matches(&rows[0]));
    let partial = plan_query(&Some("a".to_string()), &None, &None, None, &now).unwrap();
    assert!(!partial.matches(&rows[0]));
    assert!(partial.select(&rows).is_empty());
}

#[test]
fn log_then_show_by_tags() {
    let now = LocalDateTime::now().unwrap();
    let mut rows = Vec::new();
    store(&mut rows, "buy milk", Some("groceries,home"), now);
    store(&mut rows, "call bob", Some("home"), now);
    let query = plan_query(&Some("groceries,home".to_string()), &None, &None, None, &now).unwrap();
    let entries = entries_from_rows(&query.select(&rows)).unwrap();
    assert_eq!(entries.len(), 1);
    assert_eq!(entries[0].text, "buy milk");
    let lines = show_lines(&entries).unwrap();
    assert_eq!(lines.len(), 1);
    assert_eq!(
        lines[0],
        format!("-> {} : buy milk [groceries-home]", now.to_display_text())
    );
}

#[test]
fn show_without_entries_reports_no_record() {
    let now = LocalDateTime::now().unwrap();
    let rows: Vec<LogRow> = Vec::new();
    let query = plan_query(&None, &None, &None, None, &now).unwrap();
    let entries = entries_from_rows(&query.select(&rows)).unwrap();
    assert!(entries.is_empty());
    assert!(show_lines(&entries).is_none());
    assert!(export_html(&entries).is_none());
}

#[test]
fn export_writes_one_row_per_entry() {
    let entries = vec![
        LogEntry::create("a <b>".to_string(), &Some("x,y".to_string()), at(2024, 1, 2, 3, 4, 5)),
        LogEntry::create("c".to_string(), &None, at(2024, 1, 3, 0, 0, 0)),
    ];
    assert_eq!(
        export_html(&entries).unwrap(),
        "<table><tr><th>Date</th><th>Log</th><th>Tags</th></tr>\
         <tr><td>2024-01-02 03:04:05</td><td>a <b></td><td>x-y</td>\
         <tr><td>2024-01-03 00:00:00</td><td>c</td><td></td></table>"
    );
}

#[test]
fn unreadable_stored_date_fails_the_query() {
    let rows = vec![
        LogRow { text: "ok".to_string(), tags: String::new(), create_date: "2024-01-01T00:00:00".to_string() },
        LogRow { text: "bad".to_string(), tags: String::new(), create_date: "garbage".to_string() },
    ];
    assert_eq!(
        entries_from_rows(&rows).err(),
        Some(LogError::QueryFailed("garbage".to_string()))
    );
}

#[test]
fn canonical_text_and_parsing() {
    let t = at(7, 3, 9, 1, 2, 3);
    assert_eq!(t.to_text(), "0007-03-09T01:02:03");
    assert_eq!(LocalDateTime::parse("0007-03-09T01:02:03"), Some(t));
    assert_eq!(LocalDateTime::parse("2024-05-17T13:45:10"), Some(at(2024, 5, 17, 13, 45, 10)));
    assert_eq!(LocalDateTime::parse("2024-05-17"), None);
    assert_eq!(LocalDateTime::parse("2024-5-17T13:45:10"), None);
    assert_eq!(LocalDateTime::parse("2024-05-17T 3:45:10"), None);
    assert_eq!(t.to_display_text(), "0007-03-09 01:02:03");
    assert_eq!(LocalDateTime::new(2023, 2, 29, 0, 0, 0), None);
    assert_eq!(LocalDateTime::new(2000, 2, 29, 0, 0, 0), Some(at(2000, 2, 29, 0, 0, 0)));
    assert_eq!(LocalDateTime::new(1900, 2, 29, 0, 0, 0), None);
    assert_eq!(LocalDateTime::new(10000, 1, 1, 0, 0, 0), None);
    assert_eq!(LocalDateTime::new(2024, 1, 1, 24, 0, 0), None);
    assert_eq!(LocalDateTime::earliest().to_text(), "0000-01-01T00:00:00");
    assert_eq!(LocalDateTime::latest().to_text(), "9999-12-31T23:59:59");
}

#[test]
fn day_arithmetic() {
    let t = at(2024, 2, 28, 10, 0, 0);
    assert_eq!(t.add_days(1), Some(at(2024, 2, 29, 10, 0, 0)));
    assert_eq!(t.add_days(2), Some(at(2024, 3, 1, 10, 0, 0)));
    assert_eq!(at(2024, 12, 31, 1, 1, 1).add_days(1), Some(at(2025, 1, 1, 1, 1, 1)));
    assert_eq!(at(2024, 3, 1, 0, 0, 0).sub_days(1), Some(at(2024, 2, 29, 0, 0, 0)));
    assert_eq!(at(2024, 1, 1, 0, 0, 0).sub_days(3), Some(at(2023, 12, 29, 0, 0, 0)));
    assert_eq!(at(9999, 12, 31, 0, 0, 0).add_days(1), None);
    assert_eq!(at(0, 1, 1, 0, 0, 0).sub_days(1), None);
    assert_eq!(at(2024, 5, 17, 13, 45, 10).midnight(), at(2024, 5, 17, 0, 0, 0));
}

#[test]
fn text_order_follows_time() {
    assert!(text_not_after("2024-01-01T00:00:00", "2024-01-01T00:00:00"));
    assert!(text_not_after("0999-12-31T23:59:59", "1000-01-01T00:00:00"));
    assert!(!text_not_after("2024-01-02T00:00:00", "2024-01-01T23:59:59"));
    assert!(text_not_after("abc", "abcd"));
    assert!(!text_not_after("abcd", "abc"));
    let a = at(2024, 5, 17, 9, 0, 0);
    let b = at(2024, 5, 17, 10, 0, 0);
    assert!(a.is_not_after(&b));
    assert!(!b.is_not_after(&a));
}

#[test]
fn this_year_starts_on_january_first_of_the_current_year() {
    let now = at(2024, 8, 9, 10, 11, 12);
    let (start, end) = DatePreset::ThisYear.date_times(&now);
    assert_eq!(start, at(2024, 1, 1, 0, 0, 0));
    assert_ne!(start, at(2023, 1, 1, 0, 0, 0));
    assert_eq!(end, now);
}

#[test]
fn week_starts_on_a_monday() {
    for now in [
        at(2024, 5, 17, 13, 45, 10),
        at(2024, 5, 13, 0, 0, 0),
        at(2024, 5, 19, 23, 59, 59),
        at(2000, 3, 1, 12, 0, 0),
        at(1, 1, 1, 0, 0, 1),
    ] {
        let (start, end) = DatePreset::ThisWeek.date_times(&now);
        assert_eq!(start.days_from_monday(), 0);
        assert_eq!(start, start.midnight());
        assert!(start.is_not_after(&now));
        assert!(now.add_days(0).unwrap().is_not_after(&start.add_days(7).unwrap()));
        assert_eq!(end, now);
    }
}
