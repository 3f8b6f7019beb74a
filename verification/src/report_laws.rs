//! What a report says of the recorded attacks: which it lists, how it counts
//! them, and under which names.
use crate::models::{AttackLog, Rule};
use crate::moment::{naive_parts, not_later, rfc3339_parts, rfc3339_text, Moment};
use crate::number::padded;
use crate::report::{
    at_time, attack_label, attack_labels, distribution_is_ranked_and_complete, distribution_of,
    earlier, in_time_order, in_window, is_timeline, labels_by_id, log_time, occurrences, only_logs,
    put_in_time, report_counts, report_filename, reports, rule_label, slot, slot_count, slot_label,
    timed, timeline_start, top_three, within_window, DailyReport, ReportFormat,
};
use crate::text::{is_blank, trim};
use crate::text_map::{ascending, lookup, lookup_after_put, put_keeps_order, text_before};
use vstd::prelude::*;

verus! {

/// Reading the times of logs works piece by piece.
pub proof fn times_are_read_piecewise(a: Seq<AttackLog>, b: Seq<AttackLog>)
    ensures
        timed(a + b) == timed(a) + timed(b),
    decreases b.len(),
{
    if b.len() == 0 {
        assert(a + b =~= a);
        assert(timed(a) + timed(b) =~= timed(a));
    } else {
        times_are_read_piecewise(a, b.drop_last());
        assert((a + b).drop_last() =~= a + b.drop_last());
        assert(timed(a + b) =~= timed(a) + timed(b));
    }
}

/// A log whose timestamp can be read is kept with the time that it gives, and
/// one whose timestamp cannot be read is not.
pub proof fn time_of_one_log(log: AttackLog)
    ensures
        timed(Seq::<AttackLog>::empty()) == Seq::<(Moment, AttackLog)>::empty(),
        match log_time(log.timestamp@) {
            Some(time) => timed(seq![log]) == seq![(Moment { seconds: time.0, nanos: time.1 }, log)],
            None => timed(seq![log]) == Seq::<(Moment, AttackLog)>::empty(),
        },
{
    reveal_with_fuel(timed, 2);
    assert(seq![log].drop_last() =~= Seq::<AttackLog>::empty());
    match log_time(log.timestamp@) {
        Some(time) => {
            assert(timed(seq![log]) =~= seq![(Moment { seconds: time.0, nanos: time.1 }, log)]);
        },
        None => {},
    }
}

/// Reading the times of logs leaves out no log whose timestamp can be read: what
/// is left are these, in order, each as often as it is there and with the time
/// that its own timestamp gives.
pub proof fn no_readable_log_is_left_out(logs: Seq<AttackLog>)
    ensures
        only_logs(timed(logs)) == logs.filter(|log: AttackLog| log_time(log.timestamp@) is Some),
        timed(logs).len() == logs.filter(|log: AttackLog| log_time(log.timestamp@) is Some).len(),
        forall|i: int|
            0 <= i < timed(logs).len() ==> log_time((#[trigger] timed(logs)[i]).1.timestamp@) == Some(
                (timed(logs)[i].0.seconds, timed(logs)[i].0.nanos),
            ),
    decreases logs.len(),
{
    reveal(Seq::filter);
    let readable = |log: AttackLog| log_time(log.timestamp@) is Some;
    if logs.len() == 0 {
        assert(only_logs(timed(logs)) =~= logs.filter(readable));
    } else {
        no_readable_log_is_left_out(logs.drop_last());
        assert(only_logs(timed(logs)) =~= logs.filter(readable));
    }
}

/// A timestamp is read as RFC 3339 if it is that, else as a date and a time with
/// a space between them, else with a `T` between them, white space around it
/// aside.
pub proof fn timestamps_are_read_like_this(timestamp: Seq<char>)
    ensures
        rfc3339_parts(timestamp) is Some ==> log_time(timestamp) == rfc3339_parts(timestamp),
        rfc3339_parts(timestamp) is None && naive_parts(trim(timestamp), "%Y-%m-%d %H:%M:%S"@) is Some ==> log_time(
            timestamp,
        ) == naive_parts(trim(timestamp), "%Y-%m-%d %H:%M:%S"@),
        rfc3339_parts(timestamp) is None && naive_parts(trim(timestamp), "%Y-%m-%d %H:%M:%S"@) is None ==> log_time(
            timestamp,
        ) == naive_parts(trim(timestamp), "%Y-%m-%dT%H:%M:%S"@),
{
}

/// Times are ordered by their seconds, and within one by their nanoseconds.
pub proof fn seconds_come_before_nanoseconds(a: Moment, b: Moment)
    ensures
        not_later(a, b) <==> a.seconds < b.seconds || (a.seconds == b.seconds && a.nanos <= b.nanos),
{
}

/// The window of a report is the 24 hours up to its end, both ends in it. Out of
/// a leap second it begins 24 hours before the second that follows.
pub proof fn window_is_24_hours(m: Moment, end: Moment)
    requires
        end.seconds >= -9000000000000,
        end.seconds <= 9000000000000,
    ensures
        end.nanos < 1000000000 ==> (in_window(m, end) <==> {
            &&& end.seconds - 86400 < m.seconds || (end.seconds - 86400 == m.seconds && end.nanos <= m.nanos)
            &&& m.seconds < end.seconds || (m.seconds == end.seconds && m.nanos <= end.nanos)
        }),
        end.nanos >= 1000000000 ==> (in_window(m, end) <==> {
            &&& end.seconds - 86399 < m.seconds || (end.seconds - 86399 == m.seconds && end.nanos - 1000000000
                <= m.nanos)
            &&& m.seconds < end.seconds || (m.seconds == end.seconds && m.nanos <= end.nanos)
        }),
{
}

/// The logs in a window are those whose times lie in it, in order and each as
/// often as it is there.
pub proof fn window_has_every_log_in_it(logs: Seq<(Moment, AttackLog)>, end: Moment)
    ensures
        within_window(logs, end) == logs.filter(|log: (Moment, AttackLog)| in_window(log.0, end)),
    decreases logs.len(),
{
    reveal(Seq::filter);
    if logs.len() > 0 {
        window_has_every_log_in_it(logs.drop_last(), end);
    } else {
        assert(within_window(logs, end) =~= logs.filter(|log: (Moment, AttackLog)| in_window(log.0, end)));
    }
}

/// The logs of one time are those that have it, in order.
pub proof fn logs_of_one_time_are_these(logs: Seq<(Moment, AttackLog)>, m: Moment)
    ensures
        at_time(logs, m) == logs.filter(|log: (Moment, AttackLog)| log.0 == m),
    decreases logs.len(),
{
    reveal(Seq::filter);
    if logs.len() > 0 {
        logs_of_one_time_are_these(logs.drop_last(), m);
    } else {
        assert(at_time(logs, m) =~= logs.filter(|log: (Moment, AttackLog)| log.0 == m));
    }
}

/// Putting a log in its place adds one.
proof fn put_adds_one(sorted: Seq<(Moment, AttackLog)>, log: (Moment, AttackLog))
    ensures
        put_in_time(sorted, log).len() == sorted.len() + 1,
    decreases sorted.len(),
{
    if sorted.len() > 0 {
        put_adds_one(sorted.drop_last(), log);
    }
}

/// Ordering by time changes no number.
proof fn ordering_keeps_the_number(logs: Seq<(Moment, AttackLog)>)
    ensures
        in_time_order(logs).len() == logs.len(),
    decreases logs.len(),
{
    if logs.len() > 0 {
        ordering_keeps_the_number(logs.drop_last());
        put_adds_one(in_time_order(logs.drop_last()), logs.last());
    }
}

/// A report is about the 24 hours up to its end, and counts and lists as many
/// attacks as have times in them.
pub proof fn reports_count_the_attacks_of_the_window(
    report: DailyReport,
    logs: Seq<AttackLog>,
    labels: Seq<(Seq<char>, Seq<char>)>,
    end: Moment,
)
    requires
        reports(report, timed(logs), labels, end),
    ensures
        report.window_end == end,
        report.window_start == earlier(end, 86400),
        report.generated_at@ == rfc3339_text(end.seconds, end.nanos),
        report.total_attacks == logs.filter(
            |log: AttackLog|
                log_time(log.timestamp@) matches Some(time) && in_window(
                    Moment { seconds: time.0, nanos: time.1 },
                    end,
                ),
        ).len(),
        report.logs@.len() == report.total_attacks,
        report.timeline@.len() == 24,
{
    ordering_keeps_the_number(within_window(timed(logs), end));
    readable_in_window(logs, end);
}

/// The logs of the window are those whose timestamps say so.
proof fn readable_in_window(logs: Seq<AttackLog>, end: Moment)
    ensures
        within_window(timed(logs), end).len() == logs.filter(
            |log: AttackLog|
                log_time(log.timestamp@) matches Some(time) && in_window(
                    Moment { seconds: time.0, nanos: time.1 },
                    end,
                ),
        ).len(),
    decreases logs.len(),
{
    reveal(Seq::filter);
    if logs.len() > 0 {
        readable_in_window(logs.drop_last(), end);
        let before = timed(logs.drop_last());
        if let Some(time) = log_time(logs.last().timestamp@) {
            let entry = (Moment { seconds: time.0, nanos: time.1 }, logs.last());
            assert(before.push(entry).drop_last() =~= before);
        }
    }
}

/// The time with these seconds and nanoseconds.
pub open spec fn moment_of(time: (i64, u32)) -> Moment {
    Moment { seconds: time.0, nanos: time.1 }
}

/// Every attack with a time in the window is in the list of its report.
pub proof fn reports_list_every_attack_of_the_window(
    report: DailyReport,
    logs: Seq<AttackLog>,
    labels: Seq<(Seq<char>, Seq<char>)>,
    end: Moment,
    at: int,
)
    requires
        reports(report, timed(logs), labels, end),
        0 <= at < logs.len(),
        log_time(logs[at].timestamp@) is Some,
        in_window(moment_of(log_time(logs[at].timestamp@)->0), end),
    ensures
        report.logs@.contains(logs[at]),
{
    let time = log_time(logs[at].timestamp@)->0;
    let entry = (moment_of(time), logs[at]);
    timed_has_it(logs, at);
    let kept = within_window(timed(logs), end);
    kept_has_it(timed(logs), end, entry);
    order_has_it(kept, entry);
    let sorted = in_time_order(kept);
    let i = choose|i: int| 0 <= i < sorted.len() && sorted[i] == entry;
    assert(only_logs(sorted)[i] == logs[at]);
}

/// A log that can be read is among those with times.
proof fn timed_has_it(logs: Seq<AttackLog>, at: int)
    requires
        0 <= at < logs.len(),
        log_time(logs[at].timestamp@) is Some,
    ensures
        timed(logs).contains((moment_of(log_time(logs[at].timestamp@)->0), logs[at])),
    decreases logs.len(),
{
    let time = log_time(logs[at].timestamp@)->0;
    let entry = (moment_of(time), logs[at]);
    let all = timed(logs);
    if at == logs.len() - 1 {
        assert(all[all.len() - 1] == entry);
    } else {
        timed_has_it(logs.drop_last(), at);
        let before = timed(logs.drop_last());
        let i = choose|i: int| 0 <= i < before.len() && before[i] == entry;
        assert(all[i] == entry);
    }
}

/// A log in the window is kept.
proof fn kept_has_it(logs: Seq<(Moment, AttackLog)>, end: Moment, entry: (Moment, AttackLog))
    requires
        logs.contains(entry),
        in_window(entry.0, end),
    ensures
        within_window(logs, end).contains(entry),
    decreases logs.len(),
{
    let i = choose|i: int| 0 <= i < logs.len() && logs[i] == entry;
    let all = within_window(logs, end);
    if i == logs.len() - 1 {
        assert(all[all.len() - 1] == entry);
    } else {
        assert(logs.drop_last()[i] == entry);
        kept_has_it(logs.drop_last(), end, entry);
        let before = within_window(logs.drop_last(), end);
        let k = choose|k: int| 0 <= k < before.len() && before[k] == entry;
        assert(all[k] == entry);
    }
}

/// Ordering keeps what is there.
proof fn order_has_it(logs: Seq<(Moment, AttackLog)>, entry: (Moment, AttackLog))
    requires
        logs.contains(entry),
    ensures
        in_time_order(logs).contains(entry),
    decreases logs.len(),
{
    let i = choose|i: int| 0 <= i < logs.len() && logs[i] == entry;
    let before = in_time_order(logs.drop_last());
    if i < logs.len() - 1 {
        assert(logs.drop_last()[i] == entry);
        order_has_it(logs.drop_last(), entry);
    }
    put_has_it(before, logs.last(), entry);
}

/// Putting a log in its place keeps the others.
proof fn put_has_it(sorted: Seq<(Moment, AttackLog)>, log: (Moment, AttackLog), entry: (Moment, AttackLog))
    requires
        entry == log || sorted.contains(entry),
    ensures
        put_in_time(sorted, log).contains(entry),
    decreases sorted.len(),
{
    let all = put_in_time(sorted, log);
    if sorted.len() == 0 || not_later(sorted.last().0, log.0) {
        if entry == log {
            assert(all[all.len() - 1] == entry);
        } else {
            let i = choose|i: int| 0 <= i < sorted.len() && sorted[i] == entry;
            assert(all[i] == entry);
        }
    } else {
        let rest = sorted.drop_last();
        if entry != log && sorted.last() == entry {
            assert(all[all.len() - 1] == entry);
        } else {
            if entry != log {
                let i = choose|i: int| 0 <= i < sorted.len() && sorted[i] == entry;
                assert(rest[i] == entry);
            }
            put_has_it(rest, log, entry);
            let inner = put_in_time(rest, log);
            let i = choose|i: int| 0 <= i < inner.len() && inner[i] == entry;
            assert(all[i] == entry);
        }
    }
}

/// An attack is counted under the rule that matched, as the rule is shown or by
/// its id if it is not known; else under the reason that was recorded, if that
/// is not blank; else under `Other`.
pub proof fn attacks_are_counted_under_these_names(log: AttackLog, labels: Seq<(Seq<char>, Seq<char>)>)
    ensures
        log.matched_rule_id is Some ==> {
            let id = log.matched_rule_id->0@;
            &&& lookup(labels, id) is Some ==> attack_label(log, labels) == lookup(labels, id)->0
            &&& lookup(labels, id) is None ==> attack_label(log, labels) == id
        },
        log.matched_rule_id is None && log.attack_type is Some && !is_blank(log.attack_type->0@) ==> attack_label(
            log,
            labels,
        ) == log.attack_type->0@,
        log.matched_rule_id is None && (log.attack_type is None || is_blank(log.attack_type->0@)) ==> attack_label(
            log,
            labels,
        ) == "Other"@,
{
}

/// Each attack of a list is counted under its own name.
pub proof fn every_attack_has_its_name(logs: Seq<(Moment, AttackLog)>, labels: Seq<(Seq<char>, Seq<char>)>)
    ensures
        attack_labels(logs, labels).len() == logs.len(),
        forall|i: int|
            0 <= i < logs.len() ==> #[trigger] attack_labels(logs, labels)[i] == attack_label(logs[i].1, labels),
{
}

/// The labels ascend.
proof fn labels_ascend(rules: Seq<Rule>)
    ensures
        ascending(labels_by_id(rules)),
    decreases rules.len(),
{
    if rules.len() > 0 {
        labels_ascend(rules.drop_last());
        put_keeps_order(
            labels_by_id(rules.drop_last()),
            rules.last().id@,
            rule_label(rules.last()),
        );
    }
}

/// A rule is shown by its id and its name; of rules with one id the last counts.
/// An id that no rule has is not known.
pub proof fn rules_are_shown_by_id_and_name(rules: Seq<Rule>, id: Seq<char>, at: int)
    ensures
        0 <= at < rules.len() && rules[at].id@ == id && (forall|i: int|
            at < i < rules.len() ==> (#[trigger] rules[i]).id@ != id) ==> lookup(labels_by_id(rules), id) == Some(
            id + " - "@ + rules[at].name@,
        ),
        (forall|i: int| 0 <= i < rules.len() ==> (#[trigger] rules[i]).id@ != id) ==> lookup(labels_by_id(rules), id) is None,
    decreases rules.len(),
{
    if rules.len() > 0 {
        let rest = rules.drop_last();
        let last = rules.len() - 1;
        labels_ascend(rest);
        lookup_after_put(labels_by_id(rest), rules[last].id@, rule_label(rules[last]), id);
        rules_are_shown_by_id_and_name(rest, id, at);
        if forall|i: int| 0 <= i < rules.len() ==> (#[trigger] rules[i]).id@ != id {
            assert forall|i: int| 0 <= i < rest.len() implies (#[trigger] rest[i]).id@ != id by {
                assert(rest[i] == rules[i]);
            }
            assert(rules[last].id@ != id);
        }
        if 0 <= at < last && rules[at].id@ == id && (forall|i: int|
            at < i < rules.len() ==> (#[trigger] rules[i]).id@ != id) {
            assert(rules[last].id@ != id);
            assert forall|i: int| at < i < rest.len() implies (#[trigger] rest[i]).id@ != id by {
                assert(rest[i] == rules[i]);
            }
        }
    }
}

/// How often a text occurs is how many of the texts it is.
pub proof fn occurrences_are_counted(list: Seq<Seq<char>>, text: Seq<char>)
    ensures
        occurrences(list, text) == list.filter(|t: Seq<char>| t == text).len(),
    decreases list.len(),
{
    reveal(Seq::filter);
    if list.len() > 0 {
        occurrences_are_counted(list.drop_last(), text);
    }
}

/// A distribution has every kind that occurs, with the number of its
/// occurrences, and no other; the more frequent come first, and equally frequent
/// ones in the order of their names.
pub proof fn distributions_are_like_this(kinds: Seq<Seq<char>>, kind: Seq<char>, count: nat)
    ensures
        distribution_of(kinds).contains((kind, count)) <==> {
            &&& count > 0
            &&& count == kinds.filter(|k: Seq<char>| k == kind).len()
        },
        forall|i: int, j: int|
            #![trigger distribution_of(kinds)[i], distribution_of(kinds)[j]]
            0 <= i < j < distribution_of(kinds).len() ==> distribution_of(kinds)[i].1 > distribution_of(kinds)[j].1 || (
            distribution_of(kinds)[i].1 == distribution_of(kinds)[j].1 && text_before(
                distribution_of(kinds)[i].0,
                distribution_of(kinds)[j].0,
            )),
{
    distribution_is_ranked_and_complete(kinds);
    occurrences_are_counted(kinds, kind);
    assert(distribution_of(kinds).contains((kind, count)) <==> count > 0 && count == occurrences(kinds, kind));
}

/// The distribution of a report is that of the kinds of the attacks that it
/// lists, and its top kinds are the first three of it, or all if there are
/// fewer.
pub proof fn reports_have_the_top_kinds(
    report: DailyReport,
    logs: Seq<(Moment, AttackLog)>,
    labels: Seq<(Seq<char>, Seq<char>)>,
    end: Moment,
    at: int,
)
    requires
        reports(report, logs, labels, end),
    ensures
        report_counts(report.distribution@) == distribution_of(
            report.logs@.map_values(|log: AttackLog| attack_label(log, labels)),
        ),
        report.top_attack_types@.len() == (if report.distribution@.len() < 3 {
            report.distribution@.len() as int
        } else {
            3
        }),
        0 <= at < report.top_attack_types@.len() ==> {
            &&& report.top_attack_types@[at].label@ == report.distribution@[at].label@
            &&& report.top_attack_types@[at].count == report.distribution@[at].count
        },
{
    let sorted = in_time_order(within_window(logs, end));
    assert(attack_labels(sorted, labels) =~= report.logs@.map_values(|log: AttackLog| attack_label(log, labels)));
    let all = report_counts(report.distribution@);
    let top = report_counts(report.top_attack_types@);
    assert(top == top_three(all));
    assert(all.len() == report.distribution@.len());
    assert(top.len() == report.top_attack_types@.len());
    if 0 <= at < report.top_attack_types@.len() {
        assert(top[at] == (report.top_attack_types@[at].label@, report.top_attack_types@[at].count as nat));
        assert(all[at] == (report.distribution@[at].label@, report.distribution@[at].count as nat));
        assert(top[at] == all[at]);
    }
}

/// An hour of a timeline counts the logs that lie in it.
pub proof fn hours_count_their_logs(logs: Seq<(Moment, AttackLog)>, end: Moment, hour: int)
    ensures
        slot_count(logs, end, hour) == logs.filter(|log: (Moment, AttackLog)| slot(log.0, end) == Some(hour)).len(),
    decreases logs.len(),
{
    reveal(Seq::filter);
    if logs.len() > 0 {
        hours_count_their_logs(logs.drop_last(), end, hour);
    }
}

/// A time that is no leap second lies in the hour of the timeline that begins at
/// or before it and ends behind it. The last of the 24 hours is the one in which
/// the window ends.
pub proof fn hours_of_a_timeline_are_these(m: Moment, end: Moment, hour: int)
    requires
        m.nanos < 1000000000,
        -9000000000000 <= end.seconds <= 9000000000000,
    ensures
        slot(m, end) == Some(hour) <==> {
            let last = end.seconds - end.seconds as int % 3600;
            &&& 0 <= hour < 24
            &&& last - (23 - hour) * 3600 <= m.seconds < last - (22 - hour) * 3600
        },
{
    let start = timeline_start(end);
    let last = end.seconds - end.seconds as int % 3600;
    let bound = Moment { seconds: (start + 24 * 3600) as i64, nanos: 0 };
    assert(start + 24 * 3600 == last + 3600);
    assert(bound.seconds == last + 3600);
    if 0 <= hour < 24 && last - (23 - hour) * 3600 <= m.seconds < last - (22 - hour) * 3600 {
        assert(not_later(m, bound));
        assert((m.seconds - start) / 3600 == hour) by (nonlinear_arith)
            requires
                hour * 3600 <= m.seconds - start < (hour + 1) * 3600,
        ;
    }
    if slot(m, end) == Some(hour) {
        assert(hour * 3600 <= m.seconds - start < (hour + 1) * 3600) by (nonlinear_arith)
            requires
                hour == (m.seconds - start) / 3600,
        ;
    }
}

/// The timeline of a report has 24 hours, each with the time of day at which it
/// begins and the number of listed attacks that lie in it.
pub proof fn timelines_are_like_this(
    report: DailyReport,
    logs: Seq<(Moment, AttackLog)>,
    labels: Seq<(Seq<char>, Seq<char>)>,
    end: Moment,
    hour: int,
)
    requires
        reports(report, logs, labels, end),
        -9000000000000 <= end.seconds <= 9000000000000,
        0 <= hour < 24,
    ensures
        report.timeline@.len() == 24,
        ({
            let begins = end.seconds - end.seconds as int % 3600 - (23 - hour) * 3600;
            report.timeline@[hour].label@ == padded((begins % 86400 / 3600) as nat, 2) + ":"@ + padded(
                (begins % 3600 / 60) as nat,
                2,
            )
        }),
        report.timeline@[hour].count == in_time_order(within_window(logs, end)).filter(
            |log: (Moment, AttackLog)| slot(log.0, end) == Some(hour),
        ).len(),
{
    let sorted = in_time_order(within_window(logs, end));
    hours_count_their_logs(sorted, end, hour);
    let begins = end.seconds - end.seconds as int % 3600 - (23 - hour) * 3600;
    assert(timeline_start(end) + hour * 3600 == begins);
    assert(is_timeline(report.timeline@, sorted, end));
    assert(report.timeline@[hour].label@ == slot_label(end, hour));
    assert(begins % 86400 % 3600 == begins % 3600);
}

/// Reports are downloaded under these names.
pub proof fn downloads_have_these_names(date: Seq<char>)
    ensures
        report_filename(ReportFormat::Pdf, date) == "waf-daily-report-"@ + date + ".pdf"@,
        report_filename(ReportFormat::Json, date) == "waf-daily-logs-"@ + date + ".json"@,
{
}

} // verus!
