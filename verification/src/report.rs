//! The daily report: which attacks were recorded in the last 24 hours, of what
//! kinds and when.
use crate::config::quoting;
use crate::models::{opt_text, AttackLog, Rule};
use crate::moment::{
    clock_text, format_moment, formatted, is_moment, moment_to_rfc3339, naive_parts, not_later, parse_naive,
    parse_rfc3339, parts, rfc3339_parts, rfc3339_text, Moment,
};
use crate::text::{blank_text, is_blank, trim, trim_text};
use crate::text_map::{
    ascending, lookup, lookup_after_put, lookup_commutes, lookup_finds_entries, lookup_of_entry, put,
    put_commutes, put_keeps_order, text_before, text_before_irreflexive, text_before_transitive, with_values,
    TextMap,
};
use vstd::prelude::*;

verus! {

/// Why a report cannot be made.
#[derive(Debug, Clone)]
pub enum ReportError {
    UnreadableTimestamp(String),
}

impl ReportError {
    /// The words in which the error is told.
    pub fn message(&self) -> (text: String)
        ensures
            self matches ReportError::UnreadableTimestamp(value) ==> text@
                == "failed to parse attack log timestamp '"@ + value@ + "'"@,
    {
        match self {
            ReportError::UnreadableTimestamp(value) => quoting(
                "failed to parse attack log timestamp '",
                value.as_str(),
                "'",
            ),
        }
    }
}

/// The first of three readings that is there.
pub open spec fn first_reading(
    a: Option<(i64, u32)>,
    b: Option<(i64, u32)>,
    c: Option<(i64, u32)>,
) -> Option<(i64, u32)> {
    if a is Some {
        a
    } else if b is Some {
        b
    } else {
        c
    }
}

/// When an attack was recorded, by its timestamp: an RFC 3339 text, or a date
/// and a time in UTC with a space or a `T` between them.
pub open spec fn log_time(timestamp: Seq<char>) -> Option<(i64, u32)> {
    first_reading(
        rfc3339_parts(timestamp),
        naive_parts(trim(timestamp), "%Y-%m-%d %H:%M:%S"@),
        naive_parts(trim(timestamp), "%Y-%m-%dT%H:%M:%S"@),
    )
}

/// The first of three readings of a timestamp that is there.
pub fn choose_reading(value: &str, a: Option<Moment>, b: Option<Moment>, c: Option<Moment>) -> (outcome: Result<
    Moment,
    ReportError,
>)
    ensures
        match outcome {
            Ok(m) => first_reading(parts(a), parts(b), parts(c)) == Some((m.seconds, m.nanos)),
            Err(ReportError::UnreadableTimestamp(text)) => first_reading(parts(a), parts(b), parts(c)) is None && text@
                == value@,
        },
{
    if let Some(m) = a {
        return Ok(m);
    }
    if let Some(m) = b {
        return Ok(m);
    }
    if let Some(m) = c {
        return Ok(m);
    }
    Err(ReportError::UnreadableTimestamp(value.to_string()))
}

/// When an attack was recorded, by its timestamp.
pub fn parse_attack_log_timestamp(value: &str) -> (outcome: Result<Moment, ReportError>)
    ensures
        match outcome {
            Ok(m) => log_time(value@) == Some((m.seconds, m.nanos)) && is_moment(m),
            Err(ReportError::UnreadableTimestamp(text)) => log_time(value@) is None && text@ == value@,
        },
{
    let trimmed = trim_text(value);
    let zoned = parse_rfc3339(value);
    let spaced = parse_naive(trimmed.as_str(), "%Y-%m-%d %H:%M:%S");
    let lettered = parse_naive(trimmed.as_str(), "%Y-%m-%dT%H:%M:%S");
    choose_reading(value, zoned, spaced, lettered)
}

/// The logs whose timestamps can be read, with the times that these give.
pub open spec fn timed(logs: Seq<AttackLog>) -> Seq<(Moment, AttackLog)>
    decreases logs.len(),
{
    if logs.len() == 0 {
        Seq::empty()
    } else {
        let before = timed(logs.drop_last());
        match log_time(logs.last().timestamp@) {
            Some(time) => before.push((Moment { seconds: time.0, nanos: time.1 }, logs.last())),
            None => before,
        }
    }
}

/// The logs whose timestamps can be read, with the times that these give.
pub fn read_times(logs: Vec<AttackLog>) -> (result: Vec<(Moment, AttackLog)>)
    ensures
        result@ == timed(logs@),
        forall|i: int| 0 <= i < result@.len() ==> is_moment((#[trigger] result@[i]).0),
{
    let ghost all = logs@;
    let mut rest = logs;
    let mut backwards: Vec<AttackLog> = Vec::new();
    while rest.len() > 0
        invariant
            rest@ =~= all.take(all.len() - backwards@.len()),
            backwards@.len() <= all.len(),
            forall|i: int| 0 <= i < backwards@.len() ==> #[trigger] backwards@[i] == all[all.len() - 1 - i],
        decreases rest@.len(),
    {
        if let Some(log) = rest.pop() {
            backwards.push(log);
        }
    }
    let mut result: Vec<(Moment, AttackLog)> = Vec::new();
    proof {
        assert(all.take(0) =~= Seq::<AttackLog>::empty());
    }
    while backwards.len() > 0
        invariant
            backwards@.len() <= all.len(),
            forall|i: int| 0 <= i < backwards@.len() ==> #[trigger] backwards@[i] == all[all.len() - 1 - i],
            result@ == timed(all.take(all.len() - backwards@.len())),
            forall|i: int| 0 <= i < result@.len() ==> is_moment((#[trigger] result@[i]).0),
        decreases backwards@.len(),
    {
        let ghost done = all.len() - backwards@.len();
        proof {
            assert(all.take(done + 1).drop_last() =~= all.take(done));
            assert(all.take(done + 1).last() == backwards@[backwards@.len() - 1]);
        }
        if let Some(log) = backwards.pop() {
            if let Ok(m) = parse_attack_log_timestamp(log.timestamp.as_str()) {
                result.push((m, log));
            }
        }
    }
    proof {
        assert(all.take(all.len() as int) =~= all);
    }
    result
}

/// The point in time so many seconds earlier. Out of a leap second the way goes
/// by the second behind it.
pub open spec fn earlier(m: Moment, seconds: int) -> Moment {
    if m.nanos >= 1000000000 {
        Moment { seconds: (m.seconds + 1 - seconds) as i64, nanos: (m.nanos - 1000000000) as u32 }
    } else {
        Moment { seconds: (m.seconds - seconds) as i64, nanos: m.nanos }
    }
}

/// Whether a time can be the end of a report's window: both the time 24 hours
/// earlier and the end of the hour that it lies in can be told.
pub open spec fn can_end_window(end: Moment) -> bool {
    &&& is_moment(end)
    &&& is_moment(earlier(end, 86400))
    &&& is_moment(Moment { seconds: (end.seconds - end.seconds as int % 3600 + 3600) as i64, nanos: 0 })
}

/// Whether a time lies in the 24 hours up to an end.
pub open spec fn in_window(m: Moment, end: Moment) -> bool {
    not_later(earlier(end, 86400), m) && not_later(m, end)
}

/// The logs of the 24 hours up to an end.
pub open spec fn within_window(logs: Seq<(Moment, AttackLog)>, end: Moment) -> Seq<(Moment, AttackLog)>
    decreases logs.len(),
{
    if logs.len() == 0 {
        Seq::empty()
    } else {
        let before = within_window(logs.drop_last(), end);
        if in_window(logs.last().0, end) {
            before.push(logs.last())
        } else {
            before
        }
    }
}

/// Logs in the order of their times, with one more put behind all those that
/// are not later than it.
pub open spec fn put_in_time(sorted: Seq<(Moment, AttackLog)>, log: (Moment, AttackLog)) -> Seq<(Moment, AttackLog)>
    decreases sorted.len(),
{
    if sorted.len() == 0 || not_later(sorted.last().0, log.0) {
        sorted.push(log)
    } else {
        put_in_time(sorted.drop_last(), log).push(sorted.last())
    }
}

/// Logs in the order of their times; those of one time in the order they come
/// in.
pub open spec fn in_time_order(logs: Seq<(Moment, AttackLog)>) -> Seq<(Moment, AttackLog)>
    decreases logs.len(),
{
    if logs.len() == 0 {
        Seq::empty()
    } else {
        put_in_time(in_time_order(logs.drop_last()), logs.last())
    }
}

/// Whether no log comes before one of an earlier time.
pub open spec fn is_time_ordered(logs: Seq<(Moment, AttackLog)>) -> bool {
    forall|i: int, j: int|
        #![trigger logs[i], logs[j]]
        0 <= i < j < logs.len() ==> not_later(logs[i].0, logs[j].0)
}

/// The logs of one time, in the order they come in.
pub open spec fn at_time(logs: Seq<(Moment, AttackLog)>, m: Moment) -> Seq<(Moment, AttackLog)>
    decreases logs.len(),
{
    if logs.len() == 0 {
        Seq::empty()
    } else if logs.last().0 == m {
        at_time(logs.drop_last(), m).push(logs.last())
    } else {
        at_time(logs.drop_last(), m)
    }
}

/// Logs of one time are nowhere, if no log has that time.
proof fn at_time_of_none(logs: Seq<(Moment, AttackLog)>, m: Moment)
    requires
        forall|i: int| 0 <= i < logs.len() ==> (#[trigger] logs[i]).0 != m,
    ensures
        at_time(logs, m).len() == 0,
    decreases logs.len(),
{
    if logs.len() > 0 {
        assert(logs.drop_last() =~= logs.take(logs.len() - 1));
        assert forall|i: int| 0 <= i < logs.drop_last().len() implies (#[trigger] logs.drop_last()[i]).0 != m by {
            assert(logs.drop_last()[i] == logs[i]);
        }
        at_time_of_none(logs.drop_last(), m);
    }
}

/// The logs of one time in two lists in a row.
proof fn at_time_of_two(a: Seq<(Moment, AttackLog)>, b: Seq<(Moment, AttackLog)>, m: Moment)
    ensures
        at_time(a + b, m) == at_time(a, m) + at_time(b, m),
    decreases b.len(),
{
    if b.len() == 0 {
        assert(a + b =~= a);
        assert(at_time(a, m) + at_time(b, m) =~= at_time(a, m));
    } else {
        assert((a + b).drop_last() =~= a + b.drop_last());
        at_time_of_two(a, b.drop_last(), m);
        assert(at_time(a + b, m) =~= at_time(a, m) + at_time(b, m));
    }
}

/// If some log has a time, the last of that time is among the logs of it.
proof fn at_time_has(logs: Seq<(Moment, AttackLog)>, i: int)
    requires
        0 <= i < logs.len(),
    ensures
        at_time(logs, logs[i].0).len() > 0,
    decreases logs.len(),
{
    if i < logs.len() - 1 {
        assert(logs.drop_last()[i] == logs[i]);
        at_time_has(logs.drop_last(), i);
    }
}

/// A time that some logs have is the time of one of them.
proof fn at_time_from(logs: Seq<(Moment, AttackLog)>, m: Moment)
    requires
        at_time(logs, m).len() > 0,
    ensures
        exists|i: int| 0 <= i < logs.len() && (#[trigger] logs[i]).0 == m,
    decreases logs.len(),
{
    if logs.len() > 0 {
        if logs.last().0 == m {
            assert(logs[logs.len() - 1].0 == m);
        } else {
            at_time_from(logs.drop_last(), m);
            let i = choose|i: int| 0 <= i < logs.drop_last().len() && (#[trigger] logs.drop_last()[i]).0 == m;
            assert(logs[i].0 == m);
        }
    }
}

/// Two lists in the order of their times that have the same logs of each time
/// are the same list.
proof fn time_order_is_unique(a: Seq<(Moment, AttackLog)>, b: Seq<(Moment, AttackLog)>)
    requires
        is_time_ordered(a),
        is_time_ordered(b),
        forall|m: Moment| #[trigger] at_time(a, m) == at_time(b, m),
    ensures
        a == b,
    decreases a.len(),
{
    if a.len() == 0 {
        if b.len() > 0 {
            at_time_has(b, 0);
            assert(at_time(a, b[0].0) == at_time(b, b[0].0));
        }
        assert(a =~= b);
    } else {
        let m = a.last().0;
        at_time_has(a, a.len() - 1);
        assert(at_time(a, m) == at_time(b, m));
        at_time_from(b, m);
        let i = choose|i: int| 0 <= i < b.len() && (#[trigger] b[i]).0 == m;
        let n = b.last().0;
        at_time_has(b, b.len() - 1);
        assert(at_time(a, n) == at_time(b, n));
        at_time_from(a, n);
        let k = choose|k: int| 0 <= k < a.len() && (#[trigger] a[k]).0 == n;
        assert(not_later(a[k].0, a[a.len() - 1].0) || k == a.len() - 1);
        assert(not_later(b[i].0, b[b.len() - 1].0) || i == b.len() - 1);
        assert(m == n);
        assert(at_time(a, m).last() == a.last());
        assert(at_time(b, m).last() == b.last());
        assert(a.last() == b.last());
        assert forall|x: Moment| #[trigger] at_time(a.drop_last(), x) == at_time(b.drop_last(), x) by {
            assert(at_time(a, x) == at_time(b, x));
            if x == m {
                assert(at_time(a, x).drop_last() =~= at_time(a.drop_last(), x));
                assert(at_time(b, x).drop_last() =~= at_time(b.drop_last(), x));
            }
        }
        assert(is_time_ordered(a.drop_last())) by {
            assert forall|i: int, j: int|
                #![trigger a.drop_last()[i], a.drop_last()[j]]
                0 <= i < j < a.drop_last().len() implies not_later(a.drop_last()[i].0, a.drop_last()[j].0) by {
                assert(a.drop_last()[i] == a[i] && a.drop_last()[j] == a[j]);
            }
        }
        assert(is_time_ordered(b.drop_last())) by {
            assert forall|i: int, j: int|
                #![trigger b.drop_last()[i], b.drop_last()[j]]
                0 <= i < j < b.drop_last().len() implies not_later(b.drop_last()[i].0, b.drop_last()[j].0) by {
                assert(b.drop_last()[i] == b[i] && b.drop_last()[j] == b[j]);
            }
        }
        time_order_is_unique(a.drop_last(), b.drop_last());
        assert(a =~= a.drop_last().push(a.last()));
        assert(b =~= b.drop_last().push(b.last()));
    }
}

/// Putting a log in keeps the order and comes behind the logs of its time.
proof fn put_in_time_keeps(sorted: Seq<(Moment, AttackLog)>, log: (Moment, AttackLog))
    requires
        is_time_ordered(sorted),
    ensures
        is_time_ordered(put_in_time(sorted, log)),
        put_in_time(sorted, log).len() == sorted.len() + 1,
        forall|i: int|
            0 <= i < put_in_time(sorted, log).len() ==> (#[trigger] put_in_time(sorted, log)[i]) == log || exists|
                j: int,
            |
                0 <= j < sorted.len() && sorted[j] == put_in_time(sorted, log)[i],
        forall|m: Moment| #[trigger]
            at_time(put_in_time(sorted, log), m) == (if m == log.0 {
                at_time(sorted, m).push(log)
            } else {
                at_time(sorted, m)
            }),
    decreases sorted.len(),
{
    let result = put_in_time(sorted, log);
    if sorted.len() == 0 || not_later(sorted.last().0, log.0) {
        assert(result.drop_last() =~= sorted);
        assert forall|i: int, j: int|
            #![trigger result[i], result[j]]
            0 <= i < j < result.len() implies not_later(result[i].0, result[j].0) by {
            if j == result.len() - 1 && i < sorted.len() - 1 {
                assert(not_later(sorted[i].0, sorted[sorted.len() - 1].0));
            }
        }
        assert forall|i: int| 0 <= i < result.len() implies (#[trigger] result[i]) == log || exists|j: int|
            0 <= j < sorted.len() && sorted[j] == result[i] by {
            if i < sorted.len() {
                assert(sorted[i] == result[i]);
            }
        }
    } else {
        let rest = sorted.drop_last();
        assert forall|i: int, j: int|
            #![trigger rest[i], rest[j]]
            0 <= i < j < rest.len() implies not_later(rest[i].0, rest[j].0) by {
            assert(rest[i] == sorted[i] && rest[j] == sorted[j]);
        }
        put_in_time_keeps(rest, log);
        let inner = put_in_time(rest, log);
        assert(result.drop_last() =~= inner);
        assert forall|i: int| 0 <= i < inner.len() implies not_later((#[trigger] inner[i]).0, sorted.last().0) by {
            if inner[i] != log {
                let j = choose|j: int| 0 <= j < rest.len() && rest[j] == inner[i];
                assert(rest[j] == sorted[j]);
            }
        }
        assert forall|i: int, j: int|
            #![trigger result[i], result[j]]
            0 <= i < j < result.len() implies not_later(result[i].0, result[j].0) by {
            if j < result.len() - 1 {
                assert(inner[i] == result[i] && inner[j] == result[j]);
            } else {
                assert(inner[i] == result[i]);
            }
        }
        assert forall|i: int| 0 <= i < result.len() implies (#[trigger] result[i]) == log || exists|j: int|
            0 <= j < sorted.len() && sorted[j] == result[i] by {
            if i == result.len() - 1 {
                assert(sorted[sorted.len() - 1] == result[i]);
            } else {
                assert(inner[i] == result[i]);
                if inner[i] != log {
                    let j = choose|j: int| 0 <= j < rest.len() && rest[j] == inner[i];
                    assert(sorted[j] == result[i]);
                }
            }
        }
        assert forall|m: Moment| #[trigger]
            at_time(result, m) == (if m == log.0 {
                at_time(sorted, m).push(log)
            } else {
                at_time(sorted, m)
            }) by {
            assert(at_time(inner, m) == (if m == log.0 {
                at_time(rest, m).push(log)
            } else {
                at_time(rest, m)
            }));
        }
    }
}

/// Logs in the order of their times are in order, and those of one time stay in
/// the order in which they came. No log is lost and none is added.
pub proof fn time_order_is_stable(logs: Seq<(Moment, AttackLog)>)
    ensures
        is_time_ordered(in_time_order(logs)),
        in_time_order(logs).len() == logs.len(),
        forall|m: Moment| #[trigger] at_time(in_time_order(logs), m) == at_time(logs, m),
    decreases logs.len(),
{
    if logs.len() > 0 {
        let rest = logs.drop_last();
        time_order_is_stable(rest);
        put_in_time_keeps(in_time_order(rest), logs.last());
        assert forall|m: Moment| #[trigger] at_time(in_time_order(logs), m) == at_time(logs, m) by {
            assert(at_time(in_time_order(rest), m) == at_time(rest, m));
        }
    }
}

/// The items in opposite order.
fn reversed<T>(items: Vec<T>) -> (result: Vec<T>)
    ensures
        result@ == items@.reverse(),
{
    let ghost all = items@;
    let mut rest = items;
    let mut result: Vec<T> = Vec::new();
    while rest.len() > 0
        invariant
            result@.len() <= all.len(),
            rest@ =~= all.take(all.len() - result@.len()),
            result@ =~= all.reverse().take(result@.len() as int),
        decreases rest@.len(),
    {
        if let Some(item) = rest.pop() {
            result.push(item);
        }
    }
    result
}

/// One list in the order of times out of two. Of one time, the logs of the left
/// list come first.
fn merge_by_time(left: Vec<(Moment, AttackLog)>, right: Vec<(Moment, AttackLog)>) -> (merged: Vec<(Moment, AttackLog)>)
    requires
        is_time_ordered(left@),
        is_time_ordered(right@),
    ensures
        is_time_ordered(merged@),
        forall|m: Moment| #[trigger] at_time(merged@, m) == at_time(left@, m) + at_time(right@, m),
{
    let ghost all_left = left@;
    let ghost all_right = right@;
    let mut left = left;
    let mut right = right;
    let mut backwards: Vec<(Moment, AttackLog)> = Vec::new();
    let ghost mut done: Seq<(Moment, AttackLog)> = Seq::empty();
    proof {
        assert(backwards@.reverse() =~= done);
        assert forall|m: Moment| at_time(all_left, m) + at_time(all_right, m) == #[trigger] at_time(left@, m) + at_time(
            right@,
            m,
        ) + at_time(done, m) by {
            assert(at_time(all_left, m) + at_time(all_right, m) + at_time(done, m) =~= at_time(all_left, m) + at_time(
                all_right,
                m,
            ));
        }
    }
    while left.len() > 0 || right.len() > 0
        invariant
            is_time_ordered(left@),
            is_time_ordered(right@),
            is_time_ordered(done),
            backwards@.reverse() == done,
            forall|i: int, j: int|
                #![trigger left@[i], done[j]]
                0 <= i < left@.len() && 0 <= j < done.len() ==> not_later(left@[i].0, done[j].0),
            forall|i: int, j: int|
                #![trigger right@[i], done[j]]
                0 <= i < right@.len() && 0 <= j < done.len() ==> not_later(right@[i].0, done[j].0),
            forall|m: Moment|
                at_time(all_left, m) + at_time(all_right, m) == #[trigger] at_time(left@, m) + at_time(right@, m)
                    + at_time(done, m),
        decreases left@.len() + right@.len(),
    {
        let ghost l = left@;
        let ghost r = right@;
        let ghost d = done;
        let from_left = if left.len() == 0 {
            false
        } else if right.len() == 0 {
            true
        } else {
            !left[left.len() - 1].0.is_not_later(&right[right.len() - 1].0)
        };
        let taken = if from_left {
            left.pop()
        } else {
            right.pop()
        };
        if let Some(log) = taken {
            proof {
                done = seq![log] + d;
                assert(left@ =~= (if from_left { l.drop_last() } else { l }));
                assert(right@ =~= (if from_left { r } else { r.drop_last() }));
                assert forall|i: int| 0 <= i < l.len() implies not_later((#[trigger] l[i]).0, log.0) by {
                    if from_left {
                        assert(i == l.len() - 1 || not_later(l[i].0, l[l.len() - 1].0));
                    } else {
                        assert(i == l.len() - 1 || not_later(l[i].0, l[l.len() - 1].0));
                        assert(not_later(l[l.len() - 1].0, r[r.len() - 1].0));
                    }
                }
                assert forall|i: int| 0 <= i < r.len() implies not_later((#[trigger] r[i]).0, log.0) by {
                    assert(i == r.len() - 1 || not_later(r[i].0, r[r.len() - 1].0));
                }
                assert forall|j: int| 0 <= j < d.len() implies not_later(log.0, (#[trigger] d[j]).0) by {
                    if from_left {
                        assert(log == l[l.len() - 1]);
                    } else {
                        assert(log == r[r.len() - 1]);
                    }
                }
                assert forall|i: int, j: int|
                    #![trigger done[i], done[j]]
                    0 <= i < j < done.len() implies not_later(done[i].0, done[j].0) by {
                    assert(done[j] == d[j - 1]);
                    if i > 0 {
                        assert(done[i] == d[i - 1]);
                    }
                }
                assert forall|i: int, j: int|
                    #![trigger left@[i], done[j]]
                    0 <= i < left@.len() && 0 <= j < done.len() implies not_later(left@[i].0, done[j].0) by {
                    assert(left@[i] == l[i]);
                    if j > 0 {
                        assert(done[j] == d[j - 1]);
                    }
                }
                assert forall|i: int, j: int|
                    #![trigger right@[i], done[j]]
                    0 <= i < right@.len() && 0 <= j < done.len() implies not_later(right@[i].0, done[j].0) by {
                    assert(right@[i] == r[i]);
                    if j > 0 {
                        assert(done[j] == d[j - 1]);
                    }
                }
                assert forall|m: Moment|
                    at_time(all_left, m) + at_time(all_right, m) == #[trigger] at_time(left@, m) + at_time(right@, m)
                        + at_time(done, m) by {
                    assert(at_time(all_left, m) + at_time(all_right, m) == at_time(l, m) + at_time(r, m) + at_time(
                        d,
                        m,
                    ));
                    at_time_of_two(seq![log], d, m);
                    assert(seq![log].drop_last() =~= Seq::<(Moment, AttackLog)>::empty());
                    reveal_with_fuel(at_time, 2);
                    if from_left && m == log.0 {
                        if r.len() > 0 {
                            assert forall|i: int| 0 <= i < r.len() implies (#[trigger] r[i]).0 != m by {
                                assert(i == r.len() - 1 || not_later(r[i].0, r[r.len() - 1].0));
                                assert(!not_later(l[l.len() - 1].0, r[r.len() - 1].0));
                            }
                        }
                        at_time_of_none(r, m);
                    }
                    assert(at_time(left@, m) + at_time(right@, m) + at_time(done, m) =~= at_time(l, m) + at_time(r, m)
                        + at_time(d, m));
                }
                assert(backwards@.push(log).reverse() =~= done);
            }
            backwards.push(log);
        }
    }
    let merged = reversed(backwards);
    proof {
        assert forall|m: Moment| #[trigger] at_time(merged@, m) == at_time(all_left, m) + at_time(all_right, m) by {
            assert(at_time(all_left, m) + at_time(all_right, m) == at_time(left@, m) + at_time(right@, m) + at_time(
                done,
                m,
            ));
            assert(at_time(left@, m) + at_time(right@, m) + at_time(done, m) =~= at_time(done, m));
        }
    }
    merged
}

/// The logs in the order of their times; those of one time stay in the order
/// they come in.
pub fn sort_by_time(logs: Vec<(Moment, AttackLog)>) -> (sorted: Vec<(Moment, AttackLog)>)
    ensures
        sorted@ == in_time_order(logs@),
    decreases logs@.len(),
{
    let ghost all = logs@;
    if logs.len() < 2 {
        proof {
            time_order_is_stable(all);
            time_order_is_unique(all, in_time_order(all));
        }
        return logs;
    }
    let half: usize = logs.len() / 2;
    let mut left = logs;
    let mut backwards: Vec<(Moment, AttackLog)> = Vec::new();
    while left.len() > half
        invariant
            half <= left@.len(),
            left@.len() + backwards@.len() == all.len(),
            left@ =~= all.take(left@.len() as int),
            backwards@ =~= all.skip(left@.len() as int).reverse(),
        decreases left@.len(),
    {
        if let Some(log) = left.pop() {
            backwards.push(log);
        }
    }
    let right = reversed(backwards);
    proof {
        assert(left@ + right@ =~= all);
        time_order_is_stable(left@);
        time_order_is_stable(right@);
        time_order_is_stable(all);
    }
    let ghost first = left@;
    let ghost second = right@;
    let merged = merge_by_time(sort_by_time(left), sort_by_time(right));
    proof {
        assert forall|m: Moment| #[trigger] at_time(merged@, m) == at_time(in_time_order(all), m) by {
            at_time_of_two(first, second, m);
            assert(at_time(in_time_order(first), m) == at_time(first, m));
            assert(at_time(in_time_order(second), m) == at_time(second, m));
            assert(at_time(in_time_order(all), m) == at_time(all, m));
        }
        time_order_is_unique(merged@, in_time_order(all));
    }
    merged
}

/// How a rule is shown in a report.
pub open spec fn rule_label(rule: Rule) -> Seq<char> {
    rule.id@ + " - "@ + rule.name@
}

/// How the rules are shown in a report, by their ids. Of rules with one id, the
/// last counts.
pub open spec fn labels_by_id(rules: Seq<Rule>) -> Seq<(Seq<char>, Seq<char>)>
    decreases rules.len(),
{
    if rules.len() == 0 {
        Seq::empty()
    } else {
        put(labels_by_id(rules.drop_last()), rules.last().id@, rule_label(rules.last()))
    }
}

/// The texts in a map from text to text.
pub open spec fn label_texts(labels: TextMap<String>) -> Seq<(Seq<char>, Seq<char>)> {
    with_values(labels@, |v: String| v@)
}

/// How the rules are shown in a report, by their ids.
pub fn rule_labels(rules: &[Rule]) -> (labels: TextMap<String>)
    ensures
        label_texts(labels) == labels_by_id(rules@),
{
    let mut labels: TextMap<String> = TextMap::new();
    let ghost view = |v: String| v@;
    let mut i: usize = 0;
    proof {
        assert(label_texts(labels) =~= labels_by_id(rules@.take(0)));
    }
    while i < rules.len()
        invariant
            i <= rules@.len(),
            view == (|v: String| v@),
            label_texts(labels) == labels_by_id(rules@.take(i as int)),
        decreases rules@.len() - i,
    {
        let rule = &rules[i];
        let mut label = rule.id.clone();
        label.append(" - ");
        label.append(rule.name.as_str());
        proof {
            assert(rules@.take(i + 1).drop_last() =~= rules@.take(i as int));
            put_commutes(labels@, rule.id@, label, view);
        }
        labels.insert(rule.id.clone(), label);
        i += 1;
    }
    proof {
        assert(rules@.take(rules@.len() as int) =~= rules@);
    }
    labels
}

/// The kind under which an attack is counted: the rule that matched, as it is
/// shown or else by its id; else the reason recorded; else `Other`.
pub open spec fn attack_label(log: AttackLog, labels: Seq<(Seq<char>, Seq<char>)>) -> Seq<char> {
    match opt_text(log.matched_rule_id) {
        Some(id) => match lookup(labels, id) {
            Some(label) => label,
            None => id,
        },
        None => match opt_text(log.attack_type) {
            Some(kind) => if is_blank(kind) {
                "Other"@
            } else {
                kind
            },
            None => "Other"@,
        },
    }
}

/// The kind under which an attack is counted.
pub fn report_attack_label(log: &AttackLog, rule_labels: &TextMap<String>) -> (label: String)
    ensures
        label@ == attack_label(*log, label_texts(*rule_labels)),
{
    if let Some(id) = &log.matched_rule_id {
        proof {
            lookup_commutes(rule_labels@, id@, |v: String| v@);
        }
        return match rule_labels.get(id.as_str()) {
            Some(label) => label.clone(),
            None => id.clone(),
        };
    }
    if let Some(kind) = &log.attack_type {
        if !blank_text(kind.as_str()) {
            return kind.clone();
        }
    }
    "Other".to_string()
}

/// The kinds under which logs are counted.
pub open spec fn attack_labels(
    logs: Seq<(Moment, AttackLog)>,
    labels: Seq<(Seq<char>, Seq<char>)>,
) -> Seq<Seq<char>> {
    logs.map_values(|l: (Moment, AttackLog)| attack_label(l.1, labels))
}

/// How often each text occurs, the texts ascending.
pub open spec fn tally(list: Seq<Seq<char>>) -> Seq<(Seq<char>, nat)>
    decreases list.len(),
{
    if list.len() == 0 {
        Seq::empty()
    } else {
        let before = tally(list.drop_last());
        put(before, list.last(), 1 + count_in(before, list.last()))
    }
}

/// The count of a text, which is 0 if it has none.
pub open spec fn count_in(counts: Seq<(Seq<char>, nat)>, text: Seq<char>) -> nat {
    match lookup(counts, text) {
        Some(n) => n,
        None => 0,
    }
}

/// Counts in descending order, with one more put behind all those that are not
/// less.
pub open spec fn put_in_rank(ranked: Seq<(Seq<char>, nat)>, entry: (Seq<char>, nat)) -> Seq<(Seq<char>, nat)>
    decreases ranked.len(),
{
    if ranked.len() == 0 || ranked.last().1 >= entry.1 {
        ranked.push(entry)
    } else {
        put_in_rank(ranked.drop_last(), entry).push(ranked.last())
    }
}

/// Counts in descending order; equal ones in the order they come in.
pub open spec fn in_rank_order(counts: Seq<(Seq<char>, nat)>) -> Seq<(Seq<char>, nat)>
    decreases counts.len(),
{
    if counts.len() == 0 {
        Seq::empty()
    } else {
        put_in_rank(in_rank_order(counts.drop_last()), counts.last())
    }
}

/// How often each kind occurs: the most frequent first, equally frequent ones
/// in ascending order.
pub open spec fn distribution_of(kinds: Seq<Seq<char>>) -> Seq<(Seq<char>, nat)> {
    in_rank_order(tally(kinds))
}

/// A kind of attack, and how often it occurred.
#[derive(Debug, Clone)]
pub struct ReportCount {
    pub label: String,
    pub count: usize,
}

/// The kinds and counts in a list.
pub open spec fn report_counts(items: Seq<ReportCount>) -> Seq<(Seq<char>, nat)> {
    items.map_values(|c: ReportCount| (c.label@, c.count as nat))
}

/// The texts and counts in a map.
pub open spec fn count_texts(counts: TextMap<usize>) -> Seq<(Seq<char>, nat)> {
    with_values(counts@, |v: usize| v as nat)
}

/// No text occurs more often than there are texts.
pub proof fn tally_is_bounded(list: Seq<Seq<char>>)
    ensures
        ascending(tally(list)),
        forall|text: Seq<char>| #[trigger] count_in(tally(list), text) <= list.len(),
    decreases list.len(),
{
    if list.len() > 0 {
        let before = tally(list.drop_last());
        tally_is_bounded(list.drop_last());
        put_keeps_order(before, list.last(), 1 + count_in(before, list.last()));
        assert forall|text: Seq<char>| #[trigger] count_in(tally(list), text) <= list.len() by {
            lookup_after_put(before, list.last(), 1 + count_in(before, list.last()), text);
            assert(count_in(before, text) <= list.drop_last().len());
            assert(count_in(before, list.last()) <= list.drop_last().len());
        }
    }
}

/// How often each kind occurs among logs.
fn tally_logs(logs: &Vec<(Moment, AttackLog)>, rule_labels: &TextMap<String>) -> (counts: TextMap<usize>)
    ensures
        count_texts(counts) == tally(attack_labels(logs@, label_texts(*rule_labels))),
{
    let ghost kinds = attack_labels(logs@, label_texts(*rule_labels));
    let ghost view = |v: usize| v as nat;
    let mut counts: TextMap<usize> = TextMap::new();
    let mut i: usize = 0;
    proof {
        assert(count_texts(counts) =~= tally(kinds.take(0)));
    }
    while i < logs.len()
        invariant
            i <= logs@.len(),
            kinds == attack_labels(logs@, label_texts(*rule_labels)),
            view == (|v: usize| v as nat),
            count_texts(counts) == tally(kinds.take(i as int)),
        decreases logs@.len() - i,
    {
        let label = report_attack_label(&logs[i].1, rule_labels);
        proof {
            assert(kinds.take(i + 1).drop_last() =~= kinds.take(i as int));
            assert(kinds[i as int] == label@);
            tally_is_bounded(kinds.take(i as int));
            assert(count_in(tally(kinds.take(i as int)), label@) <= i);
            lookup_commutes(counts@, label@, view);
        }
        let count: usize = match counts.get(label.as_str()) {
            Some(n) => *n + 1,
            None => 1,
        };
        proof {
            put_commutes(counts@, label@, count, view);
        }
        counts.insert(label, count);
        i += 1;
    }
    proof {
        assert(kinds.take(kinds.len() as int) =~= kinds);
    }
    counts
}

/// Puts a count into a list of counts in descending order, behind all those
/// that are not less.
fn put_count(ranked: &mut Vec<ReportCount>, entry: ReportCount)
    ensures
        report_counts(final(ranked)@) == put_in_rank(report_counts(old(ranked)@), (entry.label@, entry.count as nat)),
{
    let ghost before = report_counts(ranked@);
    let ghost new = (entry.label@, entry.count as nat);
    let mut at: usize = ranked.len();
    proof {
        assert(before.take(at as int) =~= before);
        assert(put_in_rank(before.take(at as int), new) + before.skip(at as int) =~= put_in_rank(before, new));
    }
    while at > 0 && ranked[at - 1].count < entry.count
        invariant
            at <= ranked@.len(),
            before == report_counts(ranked@),
            new == (entry.label@, entry.count as nat),
            put_in_rank(before, new) == put_in_rank(before.take(at as int), new) + before.skip(at as int),
        decreases at,
    {
        proof {
            let shorter = before.take(at - 1);
            assert(before.take(at as int).drop_last() =~= shorter);
            assert(put_in_rank(shorter, new).push(before[at - 1]) + before.skip(at as int) =~= put_in_rank(shorter, new)
                + before.skip(at - 1));
        }
        at -= 1;
    }
    proof {
        let front = before.take(at as int);
        assert(put_in_rank(front, new) == front.push(new));
    }
    ranked.insert(at, entry);
    proof {
        assert(report_counts(ranked@) =~= before.take(at as int).push(new) + before.skip(at as int));
    }
}

/// How often each kind occurs among logs: the most frequent first, equally
/// frequent ones in ascending order.
pub fn build_distribution(logs: &Vec<(Moment, AttackLog)>, rule_labels: &TextMap<String>) -> (items: Vec<ReportCount>)
    ensures
        report_counts(items@) == distribution_of(attack_labels(logs@, label_texts(*rule_labels))),
{
    let counts = tally_logs(logs, rule_labels);
    let ghost all = count_texts(counts);
    let mut items: Vec<ReportCount> = Vec::new();
    let mut i: usize = 0;
    proof {
        assert(report_counts(items@) =~= in_rank_order(all.take(0)));
    }
    while i < counts.len()
        invariant
            i <= counts@.len(),
            all == count_texts(counts),
            report_counts(items@) == in_rank_order(all.take(i as int)),
        decreases counts@.len() - i,
    {
        proof {
            assert(all.take(i + 1).drop_last() =~= all.take(i as int));
        }
        put_count(&mut items, ReportCount { label: counts.key_at(i).to_string(), count: *counts.value_at(i) });
        i += 1;
    }
    proof {
        assert(all.take(all.len() as int) =~= all);
    }
    items
}

/// The beginning of the first hour of a timeline: 23 full hours before the hour
/// in which the window ends.
pub open spec fn timeline_start(end: Moment) -> int {
    end.seconds - end.seconds as int % 3600 - 23 * 3600
}

/// The whole seconds from the beginning of a timeline to a time in it. A leap
/// second counts as one second more, except where its time of day comes before
/// that of the beginning.
pub open spec fn seconds_since(start: int, m: Moment) -> int {
    m.seconds - start + (if m.nanos >= 1000000000 && m.seconds as int % 86400 >= start % 86400 {
        1int
    } else {
        0int
    })
}

/// The hour of a timeline in which a time lies, if it lies in one.
pub open spec fn slot(m: Moment, end: Moment) -> Option<int> {
    let start = timeline_start(end);
    let last = Moment { seconds: (start + 24 * 3600) as i64, nanos: 0 };
    if m.seconds < start || !not_later(m, last) {
        None
    } else {
        let hour = seconds_since(start, m) / 3600;
        if 0 <= hour < 24 {
            Some(hour)
        } else {
            None
        }
    }
}

/// How many logs lie in an hour of a timeline.
pub open spec fn slot_count(logs: Seq<(Moment, AttackLog)>, end: Moment, hour: int) -> nat
    decreases logs.len(),
{
    if logs.len() == 0 {
        0
    } else {
        slot_count(logs.drop_last(), end, hour) + (if slot(logs.last().0, end) == Some(hour) {
            1nat
        } else {
            0nat
        })
    }
}

/// An hour of a timeline, and how many attacks lie in it.
#[derive(Debug, Clone)]
pub struct TimelineBucket {
    pub label: String,
    pub count: usize,
}

/// The time of day at which an hour of a timeline begins.
pub open spec fn slot_label(end: Moment, hour: int) -> Seq<char> {
    clock_text(Moment { seconds: (timeline_start(end) + hour * 3600) as i64, nanos: 0 })
}

/// Whether buckets are the timeline of logs.
pub open spec fn is_timeline(buckets: Seq<TimelineBucket>, logs: Seq<(Moment, AttackLog)>, end: Moment) -> bool {
    &&& buckets.len() == 24
    &&& forall|h: int|
        0 <= h < 24 ==> (#[trigger] buckets[h]).label@ == slot_label(end, h) && buckets[h].count == slot_count(
            logs,
            end,
            h,
        )
}

/// What is left of a number when as many as possible of another are taken off.
fn remainder(n: i64, by: i64) -> (rest: i64)
    requires
        by > 0,
    ensures
        rest == n as int % by as int,
{
    match n.checked_rem_euclid(by) {
        Some(rest) => rest,
        None => 0,
    }
}

/// The hour of a timeline in which a time lies, if it lies in one.
fn slot_of(m: &Moment, end: &Moment) -> (hour: Option<usize>)
    requires
        can_end_window(*end),
    ensures
        match hour {
            Some(h) => slot(*m, *end) == Some(h as int) && h < 24,
            None => slot(*m, *end) is None,
        },
{
    let start: i64 = end.seconds - remainder(end.seconds, 3600) - 82800;
    let last = Moment { seconds: start + 86400, nanos: 0 };
    if m.seconds < start || !m.is_not_later(&last) {
        return None;
    }
    let mut seconds: i64 = m.seconds - start;
    if m.nanos >= 1000000000 && remainder(m.seconds, 86400) >= remainder(start, 86400) {
        seconds += 1;
    }
    let hour: i64 = seconds / 3600;
    if hour < 24 {
        Some(hour as usize)
    } else {
        None
    }
}

/// The counts of logs in the hours of a timeline.
fn slot_counts(logs: &Vec<(Moment, AttackLog)>, end: &Moment) -> (counts: Vec<usize>)
    requires
        can_end_window(*end),
    ensures
        counts@.len() == 24,
        forall|h: int| 0 <= h < 24 ==> #[trigger] counts@[h] == slot_count(logs@, *end, h),
{
    let mut counts: Vec<usize> = Vec::new();
    while counts.len() < 24
        invariant
            counts@.len() <= 24,
            forall|h: int| 0 <= h < counts@.len() ==> #[trigger] counts@[h] == 0,
        decreases 24 - counts@.len(),
    {
        counts.push(0);
    }
    let mut i: usize = 0;
    while i < logs.len()
        invariant
            i <= logs@.len(),
            can_end_window(*end),
            counts@.len() == 24,
            forall|h: int|
                0 <= h < 24 ==> #[trigger] counts@[h] == slot_count(logs@.take(i as int), *end, h) && counts@[h] <= i,
        decreases logs@.len() - i,
    {
        proof {
            assert(logs@.take(i + 1).drop_last() =~= logs@.take(i as int));
        }
        let ghost before = counts@;
        if let Some(hour) = slot_of(&logs[i].0, end) {
            let count: usize = counts[hour];
            counts.set(hour, count + 1);
        }
        i += 1;
        proof {
            assert forall|h: int| 0 <= h < 24 implies #[trigger] counts@[h] == slot_count(
                logs@.take(i as int),
                *end,
                h,
            ) && counts@[h] <= i by {
                assert(before[h] == slot_count(logs@.take(i - 1), *end, h));
            }
        }
    }
    proof {
        assert(logs@.take(logs@.len() as int) =~= logs@);
    }
    counts
}

/// The timeline of logs: the 24 hours up to the one in which the window ends,
/// and how many logs lie in each.
pub fn build_timeline(logs: &Vec<(Moment, AttackLog)>, window_end: Moment) -> (buckets: Vec<TimelineBucket>)
    requires
        can_end_window(window_end),
    ensures
        is_timeline(buckets@, logs@, window_end),
{
    let counts = slot_counts(logs, &window_end);
    let start: i64 = window_end.seconds - remainder(window_end.seconds, 3600) - 82800;
    let mut buckets: Vec<TimelineBucket> = Vec::new();
    while buckets.len() < 24
        invariant
            buckets@.len() <= 24,
            can_end_window(window_end),
            start == timeline_start(window_end),
            counts@.len() == 24,
            forall|h: int| 0 <= h < 24 ==> #[trigger] counts@[h] == slot_count(logs@, window_end, h),
            forall|h: int|
                0 <= h < buckets@.len() ==> (#[trigger] buckets@[h]).label@ == slot_label(window_end, h)
                    && buckets@[h].count == slot_count(logs@, window_end, h),
        decreases 24 - buckets@.len(),
    {
        let index: usize = buckets.len();
        let hour = Moment { seconds: start + index as i64 * 3600, nanos: 0 };
        let label = format_moment(hour, "%H:%M");
        buckets.push(TimelineBucket { label, count: counts[index] });
    }
    buckets
}

/// What happened in 24 hours.
#[derive(Debug, Clone)]
pub struct DailyReport {
    pub generated_at: String,
    pub window_start: Moment,
    pub window_end: Moment,
    pub total_attacks: usize,
    pub distribution: Vec<ReportCount>,
    pub top_attack_types: Vec<ReportCount>,
    pub timeline: Vec<TimelineBucket>,
    pub logs: Vec<AttackLog>,
}

/// The logs without their times.
pub open spec fn only_logs(logs: Seq<(Moment, AttackLog)>) -> Seq<AttackLog> {
    logs.map_values(|l: (Moment, AttackLog)| l.1)
}

/// The first three of some counts, or all if there are fewer.
pub open spec fn top_three(counts: Seq<(Seq<char>, nat)>) -> Seq<(Seq<char>, nat)> {
    if counts.len() <= 3 {
        counts
    } else {
        counts.take(3)
    }
}

/// Whether a report tells what happened in the 24 hours up to an end, given the
/// recorded attacks and how rules are shown.
pub open spec fn reports(
    report: DailyReport,
    logs: Seq<(Moment, AttackLog)>,
    labels: Seq<(Seq<char>, Seq<char>)>,
    end: Moment,
) -> bool {
    let sorted = in_time_order(within_window(logs, end));
    let distribution = distribution_of(attack_labels(sorted, labels));
    &&& report.generated_at@ == rfc3339_text(end.seconds, end.nanos)
    &&& report.window_start == earlier(end, 86400)
    &&& report.window_end == end
    &&& report.total_attacks == sorted.len()
    &&& report_counts(report.distribution@) == distribution
    &&& report_counts(report.top_attack_types@) == top_three(distribution)
    &&& is_timeline(report.timeline@, sorted, end)
    &&& report.logs@ == only_logs(sorted)
}

/// The point in time 24 hours earlier.
fn day_before(end: Moment) -> (start: Moment)
    requires
        can_end_window(end),
    ensures
        start == earlier(end, 86400),
{
    if end.nanos >= 1000000000 {
        Moment { seconds: end.seconds + 1 - 86400, nanos: end.nanos - 1000000000 }
    } else {
        Moment { seconds: end.seconds - 86400, nanos: end.nanos }
    }
}

/// The logs of the 24 hours up to an end.
fn keep_window(logs: Vec<(Moment, AttackLog)>, end: Moment) -> (kept: Vec<(Moment, AttackLog)>)
    requires
        can_end_window(end),
    ensures
        kept@ == within_window(logs@, end),
{
    let start = day_before(end);
    let ghost all = logs@;
    let mut rest = reversed(logs);
    let mut kept: Vec<(Moment, AttackLog)> = Vec::new();
    proof {
        assert(all.take(0) =~= Seq::<(Moment, AttackLog)>::empty());
    }
    while rest.len() > 0
        invariant
            start == earlier(end, 86400),
            rest@.len() <= all.len(),
            rest@ =~= all.skip(all.len() - rest@.len()).reverse(),
            kept@ == within_window(all.take(all.len() - rest@.len()), end),
        decreases rest@.len(),
    {
        let ghost done = all.len() - rest@.len();
        proof {
            assert(all.take(done + 1).drop_last() =~= all.take(done));
            assert(rest@.last() == all[done]);
        }
        if let Some(log) = rest.pop() {
            if start.is_not_later(&log.0) && log.0.is_not_later(&end) {
                kept.push(log);
            }
        }
    }
    proof {
        assert(all.take(all.len() as int) =~= all);
    }
    kept
}

/// The logs without their times.
fn drop_times(logs: Vec<(Moment, AttackLog)>) -> (result: Vec<AttackLog>)
    ensures
        result@ == only_logs(logs@),
{
    let ghost all = logs@;
    let mut rest = reversed(logs);
    let mut result: Vec<AttackLog> = Vec::new();
    while rest.len() > 0
        invariant
            rest@.len() + result@.len() == all.len(),
            rest@ =~= all.skip(result@.len() as int).reverse(),
            result@ =~= only_logs(all.take(result@.len() as int)),
        decreases rest@.len(),
    {
        proof {
            assert(rest@.last() == all[result@.len() as int]);
        }
        if let Some(log) = rest.pop() {
            result.push(log.1);
        }
    }
    proof {
        assert(all.take(all.len() as int) =~= all);
    }
    result
}

/// The first three of some counts, or all if there are fewer.
fn first_three(counts: &Vec<ReportCount>) -> (top: Vec<ReportCount>)
    ensures
        report_counts(top@) == top_three(report_counts(counts@)),
{
    let ghost all = report_counts(counts@);
    let mut top: Vec<ReportCount> = Vec::new();
    while top.len() < 3 && top.len() < counts.len()
        invariant
            top@.len() <= 3,
            top@.len() <= counts@.len(),
            all == report_counts(counts@),
            report_counts(top@) =~= all.take(top@.len() as int),
        decreases 3 - top@.len(),
    {
        let item = &counts[top.len()];
        top.push(ReportCount { label: item.label.clone(), count: item.count });
    }
    proof {
        assert(all.take(all.len() as int) =~= all);
    }
    top
}

/// The report on the 24 hours up to an end, given attacks with their times.
pub fn report_on(logs: Vec<(Moment, AttackLog)>, labels: &TextMap<String>, window_end: Moment) -> (report: DailyReport)
    requires
        can_end_window(window_end),
    ensures
        reports(report, logs@, label_texts(*labels), window_end),
{
    let kept = keep_window(logs, window_end);
    let sorted = sort_by_time(kept);
    let distribution = build_distribution(&sorted, labels);
    let top_attack_types = first_three(&distribution);
    let timeline = build_timeline(&sorted, window_end);
    let total_attacks: usize = sorted.len();
    let logs = drop_times(sorted);
    DailyReport {
        generated_at: moment_to_rfc3339(window_end),
        window_start: day_before(window_end),
        window_end,
        total_attacks,
        distribution,
        top_attack_types,
        timeline,
        logs,
    }
}

/// The report on the 24 hours up to an end, given the recorded attacks and the
/// rules. Attacks whose timestamps cannot be read are left out.
pub fn build_daily_report(logs: Vec<AttackLog>, rules: &[Rule], window_end: Moment) -> (report: DailyReport)
    requires
        can_end_window(window_end),
    ensures
        reports(report, timed(logs@), labels_by_id(rules@), window_end),
{
    let labels = rule_labels(rules);
    report_on(read_times(logs), &labels, window_end)
}

/// Whether a report can be made on the 24 hours up to a time.
pub fn ends_window(m: &Moment) -> (b: bool)
    ensures
        b == can_end_window(*m),
{
    if m.seconds < -8334601228800 || m.seconds > 8210266876799 {
        return false;
    }
    if m.nanos >= 1000000000 && (m.nanos >= 2000000000 || remainder(m.seconds, 60) != 59) {
        return false;
    }
    let counted: i64 = if m.nanos >= 1000000000 {
        m.seconds + 1
    } else {
        m.seconds
    };
    -8334601228800 <= counted - 86400 && m.seconds - remainder(m.seconds, 3600) + 3600 <= 8210266876799
}

/// The form in which a report is downloaded.
#[derive(Debug, Clone, Copy, PartialEq, Eq, Structural)]
pub enum ReportFormat {
    Pdf,
    Json,
}

/// How a download is announced to the browser.
#[derive(Debug, Clone)]
pub struct Attachment {
    pub content_type: String,
    pub content_disposition: String,
}

/// The name of the file in which the report of a day is downloaded.
pub open spec fn report_filename(format: ReportFormat, date: Seq<char>) -> Seq<char> {
    match format {
        ReportFormat::Pdf => "waf-daily-report-"@ + date + ".pdf"@,
        ReportFormat::Json => "waf-daily-logs-"@ + date + ".json"@,
    }
}

/// How the download of the report of a day is announced to the browser.
pub fn attachment_of(format: ReportFormat, date: &str) -> (attachment: Attachment)
    ensures
        attachment.content_type@ == (match format {
            ReportFormat::Pdf => "application/pdf"@,
            ReportFormat::Json => "application/json; charset=utf-8"@,
        }),
        attachment.content_disposition@ == "attachment; filename=\""@ + report_filename(format, date@) + "\""@,
{
    let filename = match format {
        ReportFormat::Pdf => quoting("waf-daily-report-", date, ".pdf"),
        ReportFormat::Json => quoting("waf-daily-logs-", date, ".json"),
    };
    let content_type = match format {
        ReportFormat::Pdf => "application/pdf",
        ReportFormat::Json => "application/json; charset=utf-8",
    };
    Attachment {
        content_type: content_type.to_string(),
        content_disposition: quoting("attachment; filename=\"", filename.as_str(), "\""),
    }
}

/// How the download of a report is announced to the browser.
pub fn report_attachment(format: ReportFormat, window_end: Moment) -> (attachment: Attachment)
    requires
        is_moment(window_end),
    ensures
        attachment.content_type@ == (match format {
            ReportFormat::Pdf => "application/pdf"@,
            ReportFormat::Json => "application/json; charset=utf-8"@,
        }),
        attachment.content_disposition@ == "attachment; filename=\""@ + report_filename(
            format,
            formatted(window_end.seconds, window_end.nanos, "%Y-%m-%d"@),
        ) + "\""@,
{
    let date = format_moment(window_end, "%Y-%m-%d");
    attachment_of(format, date.as_str())
}

/// The sum of counts.
pub open spec fn sum_counts(counts: Seq<(Seq<char>, nat)>) -> nat
    decreases counts.len(),
{
    if counts.len() == 0 {
        0
    } else {
        sum_counts(counts.drop_last()) + counts.last().1
    }
}

/// The sum of counts when one is put into a map of counts.
proof fn sum_after_put(counts: Seq<(Seq<char>, nat)>, text: Seq<char>, n: nat)
    requires
        ascending(counts),
    ensures
        sum_counts(put(counts, text, n)) + count_in(counts, text) == sum_counts(counts) + n,
    decreases counts.len(),
{
    let result = put(counts, text, n);
    if counts.len() == 0 {
        assert(result.drop_last() =~= counts);
    } else if text_before(counts.last().0, text) {
        assert(result.drop_last() =~= counts);
        assert(lookup(counts, text) is None) by {
            lookup_finds_entries(counts, text);
            if lookup(counts, text) is Some {
                let i = choose|i: int| 0 <= i < counts.len() && counts[i].0 == text;
                if i < counts.len() - 1 {
                    assert(text_before(counts[i].0, counts[counts.len() - 1].0));
                    text_before_transitive(text, counts.last().0, text);
                }
                text_before_irreflexive(text);
            }
        }
    } else if counts.last().0 == text {
        assert(result.drop_last() =~= counts.drop_last());
    } else {
        let rest = counts.drop_last();
        assert(ascending(rest)) by {
            assert forall|i: int, j: int|
                #![trigger rest[i], rest[j]]
                0 <= i < j < rest.len() implies text_before(rest[i].0, rest[j].0) by {
                assert(rest[i] == counts[i] && rest[j] == counts[j]);
            }
        }
        sum_after_put(rest, text, n);
        assert(result.drop_last() =~= put(rest, text, n));
    }
}

/// The counts of all texts sum up to the number of texts.
pub proof fn tally_counts_all(list: Seq<Seq<char>>)
    ensures
        sum_counts(tally(list)) == list.len(),
    decreases list.len(),
{
    if list.len() > 0 {
        let before = tally(list.drop_last());
        tally_counts_all(list.drop_last());
        tally_is_bounded(list.drop_last());
        sum_after_put(before, list.last(), 1 + count_in(before, list.last()));
    }
}

/// How often a text occurs.
pub open spec fn occurrences(list: Seq<Seq<char>>, text: Seq<char>) -> nat
    decreases list.len(),
{
    if list.len() == 0 {
        0
    } else {
        occurrences(list.drop_last(), text) + (if list.last() == text {
            1nat
        } else {
            0nat
        })
    }
}

/// The count of each text is the number of its occurrences, and only texts that
/// occur are counted.
pub proof fn tally_counts_each(list: Seq<Seq<char>>, text: Seq<char>)
    ensures
        count_in(tally(list), text) == occurrences(list, text),
        lookup(tally(list), text) is Some <==> occurrences(list, text) > 0,
    decreases list.len(),
{
    if list.len() > 0 {
        let before = tally(list.drop_last());
        tally_counts_each(list.drop_last(), text);
        tally_counts_each(list.drop_last(), list.last());
        tally_is_bounded(list.drop_last());
        lookup_after_put(before, list.last(), 1 + count_in(before, list.last()), text);
    }
}

/// Whether one entry comes before another: it is more frequent, or as frequent
/// and earlier in the alphabet.
pub open spec fn ranks_before(a: (Seq<char>, nat), b: (Seq<char>, nat)) -> bool {
    a.1 > b.1 || (a.1 == b.1 && text_before(a.0, b.0))
}

/// Whether entries come in the order of their ranks.
pub open spec fn is_ranked(counts: Seq<(Seq<char>, nat)>) -> bool {
    forall|i: int, j: int|
        #![trigger counts[i], counts[j]]
        0 <= i < j < counts.len() ==> ranks_before(counts[i], counts[j])
}

/// Putting an entry in that is later in the alphabet than all others keeps the
/// order of ranks, the sum and the entries.
proof fn put_in_rank_keeps(ranked: Seq<(Seq<char>, nat)>, entry: (Seq<char>, nat))
    requires
        is_ranked(ranked),
        forall|i: int| 0 <= i < ranked.len() ==> text_before((#[trigger] ranked[i]).0, entry.0),
    ensures
        is_ranked(put_in_rank(ranked, entry)),
        sum_counts(put_in_rank(ranked, entry)) == sum_counts(ranked) + entry.1,
        forall|e: (Seq<char>, nat)| #[trigger]
            put_in_rank(ranked, entry).contains(e) <==> e == entry || ranked.contains(e),
    decreases ranked.len(),
{
    let result = put_in_rank(ranked, entry);
    if ranked.len() == 0 || ranked.last().1 >= entry.1 {
        assert(result.drop_last() =~= ranked);
        assert forall|i: int, j: int|
            #![trigger result[i], result[j]]
            0 <= i < j < result.len() implies ranks_before(result[i], result[j]) by {
            if j == result.len() - 1 {
                assert(result[i] == ranked[i]);
                if i < ranked.len() - 1 {
                    assert(ranks_before(ranked[i], ranked[ranked.len() - 1]));
                }
            }
        }
        assert forall|e: (Seq<char>, nat)| #[trigger] result.contains(e) <==> e == entry || ranked.contains(e) by {
            if e == entry {
                assert(result[result.len() - 1] == e);
            } else if ranked.contains(e) {
                let i = choose|i: int| 0 <= i < ranked.len() && ranked[i] == e;
                assert(result[i] == e);
            }
        }
    } else {
        let rest = ranked.drop_last();
        assert forall|i: int, j: int|
            #![trigger rest[i], rest[j]]
            0 <= i < j < rest.len() implies ranks_before(rest[i], rest[j]) by {
            assert(rest[i] == ranked[i] && rest[j] == ranked[j]);
        }
        assert forall|i: int| 0 <= i < rest.len() implies text_before((#[trigger] rest[i]).0, entry.0) by {
            assert(rest[i] == ranked[i]);
        }
        put_in_rank_keeps(rest, entry);
        let inner = put_in_rank(rest, entry);
        let last = ranked.last();
        assert(result.drop_last() =~= inner);
        assert forall|i: int| 0 <= i < inner.len() implies ranks_before(#[trigger] inner[i], last) by {
            assert(inner.contains(inner[i]));
            if inner[i] != entry {
                let j = choose|j: int| 0 <= j < rest.len() && rest[j] == inner[i];
                assert(ranks_before(ranked[j], ranked[ranked.len() - 1]));
            }
        }
        assert forall|i: int, j: int|
            #![trigger result[i], result[j]]
            0 <= i < j < result.len() implies ranks_before(result[i], result[j]) by {
            assert(result[i] == inner[i]);
            if j < result.len() - 1 {
                assert(result[j] == inner[j]);
            }
        }
        assert forall|e: (Seq<char>, nat)| #[trigger] result.contains(e) <==> e == entry || ranked.contains(e) by {
            if result.contains(e) {
                let i = choose|i: int| 0 <= i < result.len() && result[i] == e;
                if i < result.len() - 1 {
                    assert(inner[i] == e);
                    assert(inner.contains(e));
                    if e != entry {
                        let j = choose|j: int| 0 <= j < rest.len() && rest[j] == e;
                        assert(ranked[j] == e);
                    }
                } else {
                    assert(ranked[ranked.len() - 1] == e);
                }
            }
            if ranked.contains(e) {
                let j = choose|j: int| 0 <= j < ranked.len() && ranked[j] == e;
                if j < ranked.len() - 1 {
                    assert(rest[j] == e);
                    assert(rest.contains(e));
                    assert(inner.contains(e));
                    let i = choose|i: int| 0 <= i < inner.len() && inner[i] == e;
                    assert(result[i] == e);
                } else {
                    assert(result[result.len() - 1] == e);
                }
            }
            if e == entry {
                assert(inner.contains(e));
                let i = choose|i: int| 0 <= i < inner.len() && inner[i] == e;
                assert(result[i] == e);
            }
        }
    }
}

/// Ranking counts whose texts ascend gives the order of ranks, and keeps the sum
/// and the entries.
proof fn ranking_keeps(counts: Seq<(Seq<char>, nat)>)
    requires
        ascending(counts),
    ensures
        is_ranked(in_rank_order(counts)),
        sum_counts(in_rank_order(counts)) == sum_counts(counts),
        forall|e: (Seq<char>, nat)| #[trigger] in_rank_order(counts).contains(e) <==> counts.contains(e),
    decreases counts.len(),
{
    if counts.len() > 0 {
        let rest = counts.drop_last();
        assert forall|i: int, j: int|
            #![trigger rest[i], rest[j]]
            0 <= i < j < rest.len() implies text_before(rest[i].0, rest[j].0) by {
            assert(rest[i] == counts[i] && rest[j] == counts[j]);
        }
        ranking_keeps(rest);
        let ranked = in_rank_order(rest);
        let last = counts.last();
        assert forall|i: int| 0 <= i < ranked.len() implies text_before((#[trigger] ranked[i]).0, last.0) by {
            assert(ranked.contains(ranked[i]));
            let j = choose|j: int| 0 <= j < rest.len() && rest[j] == ranked[i];
            assert(text_before(counts[j].0, counts[counts.len() - 1].0));
        }
        put_in_rank_keeps(ranked, last);
        assert forall|e: (Seq<char>, nat)| #[trigger] in_rank_order(counts).contains(e) <==> counts.contains(e) by {
            if counts.contains(e) {
                let j = choose|j: int| 0 <= j < counts.len() && counts[j] == e;
                if j < counts.len() - 1 {
                    assert(rest[j] == e);
                    assert(ranked.contains(e));
                }
            }
            if in_rank_order(counts).contains(e) {
                if e == last {
                    assert(counts[counts.len() - 1] == e);
                } else {
                    assert(ranked.contains(e));
                    let j = choose|j: int| 0 <= j < rest.len() && rest[j] == e;
                    assert(counts[j] == e);
                }
            }
        }
    }
}

/// A distribution has the most frequent kinds first, and kinds that are equally
/// frequent in ascending order. It has each kind that occurs, with the number
/// of its occurrences, and no other. The counts sum up to the number of all.
pub proof fn distribution_is_ranked_and_complete(kinds: Seq<Seq<char>>)
    ensures
        is_ranked(distribution_of(kinds)),
        sum_counts(distribution_of(kinds)) == kinds.len(),
        forall|e: (Seq<char>, nat)| #[trigger]
            distribution_of(kinds).contains(e) <==> e.1 > 0 && e.1 == occurrences(kinds, e.0),
{
    tally_is_bounded(kinds);
    tally_counts_all(kinds);
    let counts = tally(kinds);
    ranking_keeps(counts);
    assert forall|e: (Seq<char>, nat)| #[trigger]
        distribution_of(kinds).contains(e) <==> e.1 > 0 && e.1 == occurrences(kinds, e.0) by {
        tally_counts_each(kinds, e.0);
        lookup_finds_entries(counts, e.0);
        if counts.contains(e) {
            let i = choose|i: int| 0 <= i < counts.len() && counts[i] == e;
            lookup_of_entry(counts, i);
        }
        if e.1 > 0 && e.1 == occurrences(kinds, e.0) {
            let i = choose|i: int| 0 <= i < counts.len() && counts[i].0 == e.0 && counts[i].1 == e.1;
            assert(counts[i] == e);
        }
    }
}

/// In a report, the counts of all kinds sum up to the number of attacks, and the
/// list of attacks has as many entries.
pub proof fn report_counts_every_attack(
    report: DailyReport,
    logs: Seq<(Moment, AttackLog)>,
    labels: Seq<(Seq<char>, Seq<char>)>,
    end: Moment,
)
    requires
        reports(report, logs, labels, end),
    ensures
        sum_counts(report_counts(report.distribution@)) == report.total_attacks,
        report.logs@.len() == report.total_attacks,
        report.top_attack_types@.len() <= 3,
        report.timeline@.len() == 24,
{
    let sorted = in_time_order(within_window(logs, end));
    distribution_is_ranked_and_complete(attack_labels(sorted, labels));
    assert(report_counts(report.top_attack_types@).len() <= 3);
}

/// Only times in the window are kept.
proof fn window_keeps(logs: Seq<(Moment, AttackLog)>, end: Moment)
    ensures
        forall|m: Moment| #[trigger]
            at_time(within_window(logs, end), m) == (if in_window(m, end) {
                at_time(logs, m)
            } else {
                Seq::empty()
            }),
    decreases logs.len(),
{
    if logs.len() > 0 {
        window_keeps(logs.drop_last(), end);
        let before = within_window(logs.drop_last(), end);
        assert forall|m: Moment| #[trigger]
            at_time(within_window(logs, end), m) == (if in_window(m, end) {
                at_time(logs, m)
            } else {
                Seq::empty()
            }) by {
            assert(at_time(before, m) == (if in_window(m, end) {
                at_time(logs.drop_last(), m)
            } else {
                Seq::empty()
            }));
            if in_window(logs.last().0, end) {
                assert(within_window(logs, end).drop_last() =~= before);
            }
        }
    }
}

/// The attacks in a report are those of the window, in the order of their times;
/// those of one time stay in the order in which they were recorded.
pub proof fn report_lists_the_window(
    report: DailyReport,
    logs: Seq<(Moment, AttackLog)>,
    labels: Seq<(Seq<char>, Seq<char>)>,
    end: Moment,
)
    requires
        reports(report, logs, labels, end),
    ensures
        exists|sorted: Seq<(Moment, AttackLog)>|
            {
                &&& report.logs@ == #[trigger] only_logs(sorted)
                &&& is_time_ordered(sorted)
                &&& forall|m: Moment| #[trigger]
                    at_time(sorted, m) == (if in_window(m, end) {
                        at_time(logs, m)
                    } else {
                        Seq::empty()
                    })
            },
{
    let kept = within_window(logs, end);
    let sorted = in_time_order(kept);
    window_keeps(logs, end);
    time_order_is_stable(kept);
    assert forall|m: Moment| #[trigger]
        at_time(sorted, m) == (if in_window(m, end) {
            at_time(logs, m)
        } else {
            Seq::empty()
        }) by {
        assert(at_time(sorted, m) == at_time(kept, m));
    }
    assert(report.logs@ == only_logs(sorted));
}

/// A time that is no leap second lies in an hour of the timeline, if it is not
/// before the beginning of the timeline and not after the end of the window.
/// That hour begins at or before it, and ends behind it.
pub proof fn timeline_covers_the_window(m: Moment, end: Moment)
    requires
        is_moment(m),
        can_end_window(end),
        m.nanos < 1000000000,
        timeline_start(end) <= m.seconds,
        not_later(m, end),
    ensures
        match slot(m, end) {
            Some(hour) => {
                &&& 0 <= hour < 24
                &&& timeline_start(end) + hour * 3600 <= m.seconds < timeline_start(end) + (hour + 1) * 3600
            },
            None => false,
        },
{
    let start = timeline_start(end);
    assert(m.seconds < start + 24 * 3600);
}

/// The sum of the counts of the first hours of a timeline.
pub open spec fn sum_slots(logs: Seq<(Moment, AttackLog)>, end: Moment, hours: nat) -> nat
    decreases hours,
{
    if hours == 0 {
        0
    } else {
        sum_slots(logs, end, (hours - 1) as nat) + slot_count(logs, end, hours - 1)
    }
}

/// How many logs lie in some hour of a timeline.
pub open spec fn slotted(logs: Seq<(Moment, AttackLog)>, end: Moment) -> nat
    decreases logs.len(),
{
    if logs.len() == 0 {
        0
    } else {
        slotted(logs.drop_last(), end) + (if slot(logs.last().0, end) is Some {
            1nat
        } else {
            0nat
        })
    }
}

/// The sum over the first hours when one log is added.
proof fn sum_slots_step(logs: Seq<(Moment, AttackLog)>, end: Moment, hours: nat)
    requires
        logs.len() > 0,
    ensures
        sum_slots(logs, end, hours) == sum_slots(logs.drop_last(), end, hours) + (match slot(logs.last().0, end) {
            Some(h) => if h < hours {
                1nat
            } else {
                0nat
            },
            None => 0nat,
        }),
    decreases hours,
{
    if hours > 0 {
        sum_slots_step(logs, end, (hours - 1) as nat);
    }
}

/// Each attack is counted in at most one hour of a timeline: the counts of all
/// hours sum up to the number of attacks that lie in one.
pub proof fn timeline_counts_each_attack_once(logs: Seq<(Moment, AttackLog)>, end: Moment)
    ensures
        sum_slots(logs, end, 24) == slotted(logs, end),
        slotted(logs, end) <= logs.len(),
    decreases logs.len(),
{
    if logs.len() > 0 {
        timeline_counts_each_attack_once(logs.drop_last(), end);
        sum_slots_step(logs, end, 24);
    } else {
        no_logs_no_sum(end, 24);
        assert(logs =~= Seq::<(Moment, AttackLog)>::empty());
    }
}

/// Without logs the sum is 0.
proof fn no_logs_no_sum(end: Moment, hours: nat)
    ensures
        sum_slots(Seq::<(Moment, AttackLog)>::empty(), end, hours) == 0,
    decreases hours,
{
    if hours > 0 {
        no_logs_no_sum(end, (hours - 1) as nat);
    }
}

/// The window of a report begins and ends at times that can be told.
pub proof fn report_window_can_be_told(
    report: DailyReport,
    logs: Seq<(Moment, AttackLog)>,
    labels: Seq<(Seq<char>, Seq<char>)>,
    end: Moment,
)
    requires
        can_end_window(end),
        reports(report, logs, labels, end),
    ensures
        is_moment(report.window_start),
        is_moment(report.window_end),
        not_later(report.window_start, report.window_end),
{
}

} // verus!
