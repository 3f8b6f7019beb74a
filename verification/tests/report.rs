//! The daily report.
use chrono::{DateTime, Duration, Timelike, Utc};
use rust_waf::models::{AttackLog, Rule, Severity};
use rust_waf::moment::Moment;
use rust_waf::report::{
    attachment_of, build_daily_report, build_distribution, build_timeline, choose_reading, ends_window,
    parse_attack_log_timestamp, read_times, report_attachment, report_attack_label, report_on, rule_labels,
    sort_by_time, ReportFormat,
};
use rust_waf::text_map::TextMap;

const NOON: i64 = 1_714_566_896;

fn at(seconds: i64) -> Moment {
    Moment { seconds, nanos: 0 }
}

fn log(id: i64, timestamp: &str, rule: Option<&str>, kind: Option<&str>) -> AttackLog {
    AttackLog {
        id,
        timestamp: timestamp.to_string(),
        source_ip: "10.0.0.1".to_string(),
        request_method: None,
        request_url: None,
        matched_rule_id: rule.map(str::to_string),
        attack_type: kind.map(str::to_string),
        payload: None,
        action_taken: "block".to_string(),
    }
}

fn rule(id: &str, name: &str) -> Rule {
    Rule { id: id.to_string(), name: name.to_string(), regex: "x".to_string(), severity: Severity::Low }
}

#[test]
fn timestamps_are_read_in_three_forms() {
    for text in [
        "2024-05-01T12:34:56Z",
        "2024-05-01T14:34:56+02:00",
        "2024-05-01 12:34:56",
        " 2024-05-01T12:34:56 ",
    ] {
        assert_eq!(parse_attack_log_timestamp(text).expect("readable"), at(NOON));
    }
    assert_eq!(
        parse_attack_log_timestamp("2024-05-01T12:34:56.25Z").unwrap(),
        Moment { seconds: NOON, nanos: 250_000_000 }
    );
    assert_eq!(
        parse_attack_log_timestamp("yesterday").unwrap_err().message(),
        "failed to parse attack log timestamp 'yesterday'"
    );
}

#[test]
fn leap_seconds_are_kept() {
    assert_eq!(
        parse_attack_log_timestamp("2016-12-31T23:59:60Z").unwrap(),
        Moment { seconds: 1_483_228_799, nanos: 1_000_000_000 }
    );
}

#[test]
fn first_reading_counts() {
    assert_eq!(choose_reading("", Some(at(1)), Some(at(2)), None).unwrap(), at(1));
    assert_eq!(choose_reading("", None, Some(at(2)), Some(at(3))).unwrap(), at(2));
    assert_eq!(choose_reading("", None, None, Some(at(3))).unwrap(), at(3));
    assert!(choose_reading("t", None, None, None).is_err());
}

#[test]
fn unreadable_logs_are_left_out() {
    let timed = read_times(vec![
        log(1, "2024-05-01 12:34:56", None, None),
        log(2, "?", None, None),
        log(3, "2024-05-01 12:34:57", None, None),
    ]);
    let ids: Vec<(i64, i64)> = timed.iter().map(|(m, l)| (m.seconds, l.id)).collect();
    assert_eq!(ids, vec![(NOON, 1), (NOON + 1, 3)]);
}

#[test]
fn sorting_by_time_is_stable() {
    let order = [5, 3, 5, 1, 3, 4, 1, 5];
    let logs = order.iter().enumerate().map(|(i, s)| (at(*s), log(i as i64, "", None, None))).collect();
    let ids: Vec<i64> = sort_by_time(logs).iter().map(|(_, l)| l.id).collect();
    assert_eq!(ids, vec![3, 6, 1, 4, 5, 0, 2, 7]);
    assert!(sort_by_time(vec![]).is_empty());
}

#[test]
fn sorting_looks_at_nanoseconds() {
    let logs = vec![
        (Moment { seconds: 1, nanos: 5 }, log(1, "", None, None)),
        (Moment { seconds: 1, nanos: 4 }, log(2, "", None, None)),
    ];
    assert_eq!(sort_by_time(logs)[0].1.id, 2);
}

#[test]
fn kinds_are_told_by_rule_or_reason() {
    let labels = rule_labels(&[rule("942100", "SQL"), rule("941220", "XSS"), rule("942100", "SQL Injection")]);
    assert_eq!(report_attack_label(&log(1, "", Some("942100"), Some("x")), &labels), "942100 - SQL Injection");
    assert_eq!(report_attack_label(&log(1, "", Some("7"), Some("x")), &labels), "7");
    assert_eq!(report_attack_label(&log(1, "", None, Some("BodyTooLarge")), &labels), "BodyTooLarge");
    assert_eq!(report_attack_label(&log(1, "", None, Some("  ")), &labels), "Other");
    assert_eq!(report_attack_label(&log(1, "", None, None), &labels), "Other");
}

#[test]
fn distribution_is_ranked() {
    let kinds = ["b", "a", "c", "a", "b", "d", "a"];
    let logs: Vec<(Moment, AttackLog)> = kinds.iter().map(|k| (at(0), log(1, "", None, Some(k)))).collect();
    let items = build_distribution(&logs, &TextMap::new());
    let shown: Vec<(&str, usize)> = items.iter().map(|c| (c.label.as_str(), c.count)).collect();
    assert_eq!(shown, vec![("a", 3), ("b", 2), ("c", 1), ("d", 1)]);
    assert_eq!(shown.iter().map(|c| c.1).sum::<usize>(), logs.len());
}

#[test]
fn timeline_has_one_bucket_for_each_hour() {
    let start = NOON - 2096 - 23 * 3600;
    let times = [start - 1, start, start + 3599, start + 3600, NOON, start + 24 * 3600, start + 24 * 3600 + 1];
    let logs: Vec<(Moment, AttackLog)> = times.iter().map(|t| (at(*t), log(1, "", None, None))).collect();
    let buckets = build_timeline(&logs, at(NOON));
    assert_eq!(buckets.len(), 24);
    assert_eq!(buckets[0].label, "13:00");
    assert_eq!(buckets[11].label, "00:00");
    assert_eq!(buckets[23].label, "12:00");
    let counts: Vec<usize> = buckets.iter().map(|b| b.count).collect();
    assert_eq!(counts[0], 2);
    assert_eq!(counts[1], 1);
    assert_eq!(counts[23], 1);
    assert_eq!(counts.iter().sum::<usize>(), 4);
}

#[test]
fn leap_second_counts_as_the_next_second() {
    let leap = Moment { seconds: 1_483_228_799, nanos: 1_500_000_000 };
    let end = at(1_483_228_799 + 1801);
    let buckets = build_timeline(&vec![(leap, log(1, "", None, None))], end);
    assert_eq!(buckets[23].label, "00:00");
    assert_eq!((buckets[22].count, buckets[23].count), (0, 1));
}

#[test]
fn leap_second_earlier_in_the_day_than_the_beginning() {
    let leap = Moment { seconds: 1_483_228_799 - 12 * 3600, nanos: 1_500_000_000 };
    let end = at(1_483_228_799 + 1801 - 12 * 3600);
    let buckets = build_timeline(&vec![(leap, log(1, "", None, None))], end);
    assert_eq!(buckets[23].label, "12:00");
    assert_eq!((buckets[22].count, buckets[23].count), (1, 0));
}

#[test]
fn report_covers_the_last_24_hours() {
    let logs = vec![
        log(1, "2024-05-01 12:34:56", Some("942100"), None),
        log(2, "2024-05-01 12:34:57", Some("942100"), None),
        log(3, "2024-04-30 12:34:56", None, Some("BodyTooLarge")),
        log(4, "2024-04-30 12:34:55", None, Some("BodyTooLarge")),
        log(5, "2024-05-01 01:00:00", Some("942100"), None),
        log(6, "broken", Some("942100"), None),
    ];
    let report = build_daily_report(logs, &[rule("942100", "SQL Injection")], at(NOON));
    assert_eq!(report.generated_at, "2024-05-01T12:34:56+00:00");
    assert_eq!(report.window_start, at(NOON - 86400));
    assert_eq!(report.window_end, at(NOON));
    assert_eq!(report.total_attacks, 3);
    assert_eq!(report.logs.iter().map(|l| l.id).collect::<Vec<_>>(), vec![3, 5, 1]);
    let shown: Vec<(&str, usize)> = report.distribution.iter().map(|c| (c.label.as_str(), c.count)).collect();
    assert_eq!(shown, vec![("942100 - SQL Injection", 2), ("BodyTooLarge", 1)]);
    assert_eq!(report.top_attack_types.len(), 2);
    assert_eq!(report.timeline.len(), 24);
}

#[test]
fn only_three_kinds_are_on_top() {
    let logs = ["a", "b", "c", "d"].iter().map(|k| (at(NOON), log(1, "", None, Some(k)))).collect();
    let report = report_on(logs, &TextMap::new(), at(NOON));
    let top: Vec<&str> = report.top_attack_types.iter().map(|c| c.label.as_str()).collect();
    assert_eq!(top, vec!["a", "b", "c"]);
    assert_eq!(report.distribution.len(), 4);
}

#[test]
fn window_out_of_a_leap_second_begins_in_the_second_behind_it() {
    let end = Moment { seconds: 1_483_228_799, nanos: 1_000_000_001 };
    let report = report_on(vec![], &TextMap::new(), end);
    assert_eq!(report.window_start, Moment { seconds: 1_483_228_800 - 86400, nanos: 1 });
}

#[test]
fn not_every_time_ends_a_window() {
    assert!(ends_window(&at(NOON)));
    assert!(ends_window(&Moment { seconds: 1_483_228_799, nanos: 1_999_999_999 }));
    assert!(!ends_window(&Moment { seconds: NOON, nanos: 1_000_000_000 }));
    assert!(!ends_window(&Moment { seconds: NOON, nanos: 2_000_000_000 }));
    assert!(!ends_window(&at(i64::MAX)));
    assert!(!ends_window(&at(i64::MIN)));
    let first = DateTime::<Utc>::MIN_UTC.timestamp();
    let last = DateTime::<Utc>::MAX_UTC.timestamp();
    assert!(ends_window(&at(first + 86400)));
    assert!(!ends_window(&at(first + 86399)));
    assert!(ends_window(&Moment { seconds: first + 86399, nanos: 1_000_000_000 }));
    assert!(ends_window(&at(last - 3600)));
    assert!(!ends_window(&at(last - 3599)));
    assert_eq!(report_on(vec![], &TextMap::new(), at(first + 86400)).window_start, at(first));
    assert_eq!(build_timeline(&vec![], at(last - 3600))[23].label, "22:00");
}

#[test]
fn downloads_are_named_by_the_day() {
    let pdf = report_attachment(ReportFormat::Pdf, at(NOON));
    assert_eq!(pdf.content_type, "application/pdf");
    assert_eq!(pdf.content_disposition, "attachment; filename=\"waf-daily-report-2024-05-01.pdf\"");
    let json = attachment_of(ReportFormat::Json, "2024-05-02");
    assert_eq!(json.content_type, "application/json; charset=utf-8");
    assert_eq!(json.content_disposition, "attachment; filename=\"waf-daily-logs-2024-05-02.json\"");
}

#[test]
fn timeline_agrees_with_calendar_arithmetic() {
    let end = DateTime::from_timestamp(1_483_228_799 + 1801, 77).unwrap();
    let end_hour =
        end.with_minute(0).unwrap().with_second(0).unwrap().with_nanosecond(0).unwrap();
    let start_hour = end_hour - Duration::hours(23);
    for back in 0..(27 * 60) {
        for nanos in [0, 999_999_999, 1_000_000_000, 1_999_999_999] {
            let seconds = 1_483_228_799 + 3600 - back * 60;
            let time = DateTime::from_timestamp(seconds, nanos).unwrap();
            let mut expected = vec![0usize; 24];
            if time >= start_hour && time <= end_hour + Duration::hours(1) {
                let offset = time.signed_duration_since(start_hour).num_hours();
                if (0..24).contains(&offset) {
                    expected[offset as usize] += 1;
                }
            }
            let buckets = build_timeline(
                &vec![(Moment { seconds, nanos }, log(1, "", None, None))],
                Moment { seconds: end.timestamp(), nanos: end.timestamp_subsec_nanos() },
            );
            assert_eq!(buckets.iter().map(|b| b.count).collect::<Vec<_>>(), expected);
        }
    }
}
