//! What can be read on the page of a report, and what its document consists of.
use crate::exchange::cut_off;
use crate::moment::{formatted, Moment};
use crate::number::{decimal, padded};
use crate::pdf::{
    bar, bar_color, bars, bucket, bucket_counts, buckets, card, color_parts, distribution_chart,
    document, document_end, filled, fits, hundredths, is_greatest, lettering, line, most_frequent,
    object_offset, object_text, objects_text, offset_table, outlined, page_objects, panel,
    pdf_escaped, report_drawing, shown_counts, thousandths, timeline_chart, told, top_entries,
    top_entry, top_list, BarMeasure, BucketMeasure, ChartMeasures, Color, PdfPage,
};
use crate::report::{report_counts, DailyReport, ReportCount, TimelineBucket};
use crate::text::{begins_with, ends_in, has_part, replaced, stands_at};
use crate::text_laws::{parts_stand_where_they_are_put, replacing_is_piecewise, replacing_of_one};
use vstd::prelude::*;
use vstd::utf8::*;

verus! {

/// What stands in a part of a text stands in the text.
proof fn within(front: Seq<char>, middle: Seq<char>, back: Seq<char>, part: Seq<char>)
    requires
        has_part(middle, part),
    ensures
        has_part(front + middle + back, part),
{
    let at = choose|at: int| stands_at(middle, part, at);
    let whole = front + middle + back;
    let there = front.len() + at;
    assert(whole.subrange(there, there + part.len()) =~= middle.subrange(at, at + part.len()));
    assert(stands_at(whole, part, there));
}

/// What stands in the front of two texts stands in both of them together.
proof fn in_front(a: Seq<char>, b: Seq<char>, part: Seq<char>)
    requires
        has_part(a, part),
    ensures
        has_part(a + b, part),
{
    within(Seq::empty(), a, b, part);
    assert(Seq::<char>::empty() + a + b =~= a + b);
}

/// What stands in the back of two texts stands in both of them together.
proof fn behind(a: Seq<char>, b: Seq<char>, part: Seq<char>)
    requires
        has_part(b, part),
    ensures
        has_part(a + b, part),
{
    within(a, b, Seq::empty(), part);
    assert(a + b + Seq::<char>::empty() =~= a + b);
}

/// A text stands in itself.
proof fn in_itself(part: Seq<char>)
    ensures
        has_part(part, part),
{
    parts_stand_where_they_are_put(Seq::empty(), part, Seq::empty());
    assert(Seq::<char>::empty() + part + Seq::<char>::empty() =~= part);
}

/// Escaping works piece by piece, and puts a backslash before backslashes and
/// parentheses and nothing anywhere else.
pub proof fn escaping_is_piecewise(a: Seq<char>, b: Seq<char>, c: char)
    ensures
        pdf_escaped(a + b) == pdf_escaped(a) + pdf_escaped(b),
        pdf_escaped(seq![c]) == (if c == '\\' || c == '(' || c == ')' {
            seq!['\\', c]
        } else {
            seq![c]
        }),
        pdf_escaped(Seq::<char>::empty()) == Seq::<char>::empty(),
{
    let s = "\\\\"@;
    let o = "\\("@;
    let p = "\\)"@;
    replacing_is_piecewise(a, b, '\\', s);
    replacing_is_piecewise(replaced(a, '\\', s), replaced(b, '\\', s), '(', o);
    replacing_is_piecewise(
        replaced(replaced(a, '\\', s), '(', o),
        replaced(replaced(b, '\\', s), '(', o),
        ')',
        p,
    );
    reveal_strlit("\\\\");
    reveal_strlit("\\(");
    reveal_strlit("\\)");
    assert(s =~= seq!['\\', '\\']);
    assert(o =~= seq!['\\', '(']);
    assert(p =~= seq!['\\', ')']);
    assert(seq!['\\', '\\'] =~= seq!['\\'] + seq!['\\']);
    assert(seq!['\\', '('] =~= seq!['\\'] + seq!['(']);
    replacing_of_one(c, '\\', s);
    replacing_of_one(c, '(', o);
    replacing_of_one(c, ')', p);
    replacing_of_one('\\', '(', o);
    replacing_of_one('\\', ')', p);
    replacing_of_one('(', ')', p);
    replacing_is_piecewise(seq!['\\'], seq!['\\'], '(', o);
    replacing_is_piecewise(seq!['\\'], seq!['\\'], ')', p);
    replacing_is_piecewise(seq!['\\'], seq!['('], ')', p);
}

/// Lengths have two digits behind the point, and parts of colours three.
pub proof fn numbers_on_a_page_have_points(n: nat)
    ensures
        hundredths(n) == decimal(n / 100) + "."@ + padded(n % 100, 2),
        thousandths(n) == decimal(n / 1000) + "."@ + padded(n % 1000, 3),
{
}

/// The colours are these.
pub proof fn colours_are_these()
    ensures
        color_parts(Color::Paper) == (953u64, 957u64, 1000u64),
        color_parts(Color::White) == (1000u64, 1000u64, 1000u64),
        color_parts(Color::Indigo) == (365u64, 400u64, 839u64),
        color_parts(Color::Navy) == (145u64, 169u64, 361u64),
        color_parts(Color::Lavender) == (604u64, 639u64, 1000u64),
        color_parts(Color::Periwinkle) == (435u64, 475u64, 945u64),
        color_parts(Color::Cobalt) == (294u64, 337u64, 796u64),
        color_parts(Color::Haze) == (925u64, 933u64, 1000u64),
        bar_color(0) is Lavender,
        bar_color(1) is Periwinkle,
        bar_color(2) is Cobalt,
        bar_color(3) is Indigo,
        bar_color(4) is Navy,
{
}

/// Rectangles, lines and texts are drawn with these operators, at the place and
/// in the size and colour that are given.
pub proof fn drawings_are_written_like_this(
    x: nat,
    y: nat,
    a: nat,
    b: nat,
    color: Color,
    font: Seq<char>,
    text: Seq<char>,
)
    ensures
        ({
            let hue = thousandths(color_parts(color).0 as nat) + " "@ + thousandths(color_parts(color).1 as nat) + " "@
                + thousandths(color_parts(color).2 as nat);
            let sides = hundredths(x) + " "@ + hundredths(y) + " "@ + hundredths(a) + " "@ + hundredths(b);
            &&& filled(x, y, a, b, color) == "q\n"@ + hue + " rg\n"@ + sides + " re f\nQ\n"@
            &&& outlined(x, y, a, b, color) == "q\n"@ + hue + " RG\n1 w\n"@ + sides + " re S\nQ\n"@
            &&& line(x, y, a, b, color) == "q\n"@ + hue + " RG\n1 w\n"@ + hundredths(x) + " "@ + hundredths(y) + " m\n"@
                + hundredths(a) + " "@ + hundredths(b) + " l\nS\nQ\n"@
            &&& lettering(font, a, x, y, color, text) == "BT\n/"@ + font + " "@ + hundredths(a) + " Tf\n"@ + hue
                + " rg\n1 0 0 1 "@ + hundredths(x) + " "@ + hundredths(y) + " Tm\n("@ + pdf_escaped(text) + ") Tj\nET\n"@
        }),
{
    reveal(filled);
    reveal(outlined);
    reveal(line);
    reveal(lettering);
}

/// On a card its title and its value can be read, and on a panel its title.
pub proof fn cards_and_panels_can_be_read(
    x: nat,
    y: nat,
    width: nat,
    height: nat,
    title: Seq<char>,
    value: Seq<char>,
)
    ensures
        card(x, y, width, height, title, value) == filled(x, y, width, height, Color::White) + outlined(
            x,
            y,
            width,
            height,
            Color::Indigo,
        ) + lettering("F1"@, 1000, x + 1600, (y + height - 2000) as nat, Color::Indigo, title) + lettering(
            "F2"@,
            1700,
            x + 1600,
            y + 2600,
            Color::Navy,
            value,
        ),
        panel(x, y, width, height, title) == filled(x, y, width, height, Color::White) + outlined(
            x,
            y,
            width,
            height,
            Color::Indigo,
        ) + lettering("F2"@, 1400, x + 1800, (y + height - 2400) as nat, Color::Navy, title),
{
    reveal(card);
    reveal(panel);
}

/// The distribution shows each of the first five kinds: its name, cut off behind
/// 36 characters, a bar of the width that is given, and its count.
pub proof fn every_shown_kind_can_be_read(kinds: Seq<(Seq<char>, nat)>, measures: Seq<BarMeasure>, at: int)
    requires
        0 <= at < measures.len() <= kinds.len(),
    ensures
        ({
            let chart = distribution_chart(kinds, measures);
            let y = (35600 - at * 3000) as nat;
            &&& has_part(chart, lettering("F1"@, 1000, 5800, y + 1200, Color::Navy, cut_off(kinds[at].0, 36)))
            &&& has_part(chart, filled(22300, y, measures[at].width as nat, 1400, bar_color(at)))
            &&& has_part(
                chart,
                lettering("F2"@, 1000, measures[at].count_x as nat, y + 400, Color::Navy, decimal(kinds[at].1)),
            )
        }),
{
    reveal(distribution_chart);
    let drawn = bars(kinds, measures, measures.len());
    let caption = lettering("F1"@, 900, 5800, 23000, Color::Indigo, "Top categories for the last 24 hours"@);
    let y = (35600 - at * 3000) as nat;
    let name = lettering("F1"@, 1000, 5800, y + 1200, Color::Navy, cut_off(kinds[at].0, 36));
    let strip = filled(22300, y, measures[at].width as nat, 1400, bar_color(at));
    let count = lettering("F2"@, 1000, measures[at].count_x as nat, y + 400, Color::Navy, decimal(kinds[at].1));
    bars_have_it(kinds, measures, measures.len(), at, name);
    bars_have_it(kinds, measures, measures.len(), at, strip);
    bars_have_it(kinds, measures, measures.len(), at, count);
    in_front(drawn, caption, name);
    in_front(drawn, caption, strip);
    in_front(drawn, caption, count);
}

/// What a bar shows is shown by all bars.
proof fn bars_have_it(kinds: Seq<(Seq<char>, nat)>, measures: Seq<BarMeasure>, n: nat, at: int, part: Seq<char>)
    requires
        0 <= at < n,
        ({
            let y = (35600 - at * 3000) as nat;
            ||| part == lettering("F1"@, 1000, 5800, y + 1200, Color::Navy, cut_off(kinds[at].0, 36))
            ||| part == filled(22300, y, measures[at].width as nat, 1400, bar_color(at))
            ||| part == lettering("F2"@, 1000, measures[at].count_x as nat, y + 400, Color::Navy, decimal(kinds[at].1))
        }),
    ensures
        has_part(bars(kinds, measures, n), part),
    decreases n,
{
    let before = bars(kinds, measures, (n - 1) as nat);
    let last = bar(kinds[n - 1], measures[n - 1], n - 1);
    if at == n - 1 {
        let y = (35600 - at * 3000) as nat;
        let name = lettering("F1"@, 1000, 5800, y + 1200, Color::Navy, cut_off(kinds[at].0, 36));
        let strip = filled(22300, y, measures[at].width as nat, 1400, bar_color(at));
        let count = lettering("F2"@, 1000, measures[at].count_x as nat, y + 400, Color::Navy, decimal(kinds[at].1));
        in_itself(part);
        if part == name {
            in_front(name, strip, part);
            in_front(name + strip, count, part);
        } else if part == strip {
            behind(name, strip, part);
            in_front(name + strip, count, part);
        } else {
            behind(name + strip, count, part);
        }
        behind(before, last, part);
    } else {
        bars_have_it(kinds, measures, (n - 1) as nat, at, part);
        in_front(before, last, part);
    }
}

/// Where there are no attacks, the page says so.
pub proof fn empty_charts_say_so(measures: Seq<BarMeasure>)
    ensures
        distribution_chart(Seq::empty(), measures) == lettering(
            "F1"@,
            1100,
            5800,
            31000,
            Color::Indigo,
            "No attacks in the last 24 hours"@,
        ),
        top_list(Seq::empty()) == lettering("F1"@, 1100, 55000, 33000, Color::Indigo, "No attacks recorded"@),
        most_frequent(Seq::empty()) == "No attacks"@,
{
    reveal(distribution_chart);
    reveal(top_list);
}

/// The list of the most frequent kinds has the first three, or all if there are
/// fewer, each with its rank, its name, cut off behind 28 characters, and its
/// count.
pub proof fn every_top_kind_can_be_read(kinds: Seq<(Seq<char>, nat)>, at: int)
    requires
        0 <= at < kinds.len(),
        at < 3,
    ensures
        ({
            let list = top_list(kinds);
            let y = (35000 - at * 5400) as nat;
            &&& has_part(
                list,
                lettering(
                    "F2"@,
                    1200,
                    56600,
                    y + 1400,
                    Color::Navy,
                    decimal((at + 1) as nat) + ". "@ + cut_off(kinds[at].0, 28),
                ),
            )
            &&& has_part(list, lettering("F1"@, 1000, 56600, y, Color::Indigo, "Hits: "@ + decimal(kinds[at].1)))
        }),
        most_frequent(kinds) == cut_off(kinds[0].0, 30),
{
    reveal(top_list);
    let shown = if kinds.len() < 3 {
        kinds.len()
    } else {
        3
    };
    top_has_it(kinds, shown, at);
}

/// What an entry shows is shown by all entries.
proof fn top_has_it(kinds: Seq<(Seq<char>, nat)>, n: nat, at: int)
    requires
        0 <= at < n,
    ensures
        ({
            let y = (35000 - at * 5400) as nat;
            &&& has_part(
                top_entries(kinds, n),
                lettering(
                    "F2"@,
                    1200,
                    56600,
                    y + 1400,
                    Color::Navy,
                    decimal((at + 1) as nat) + ". "@ + cut_off(kinds[at].0, 28),
                ),
            )
            &&& has_part(
                top_entries(kinds, n),
                lettering("F1"@, 1000, 56600, y, Color::Indigo, "Hits: "@ + decimal(kinds[at].1)),
            )
        }),
    decreases n,
{
    let y = (35000 - at * 5400) as nat;
    let name = lettering(
        "F2"@,
        1200,
        56600,
        y + 1400,
        Color::Navy,
        decimal((at + 1) as nat) + ". "@ + cut_off(kinds[at].0, 28),
    );
    let hits = lettering("F1"@, 1000, 56600, y, Color::Indigo, "Hits: "@ + decimal(kinds[at].1));
    let before = top_entries(kinds, (n - 1) as nat);
    let last = top_entry(kinds[n - 1], n - 1);
    if at == n - 1 {
        let back = filled(55000, (y - 800) as nat, 23600, 4200, Color::Haze);
        in_itself(name);
        in_itself(hits);
        behind(back, name, name);
        in_front(back + name, hits, name);
        behind(back + name, hits, hits);
        behind(before, last, name);
        behind(before, last, hits);
    } else {
        top_has_it(kinds, (n - 1) as nat, at);
        in_front(before, last, name);
        in_front(before, last, hits);
    }
}

/// The timeline shows every hour with a bar of the size that is given, and the
/// time of day under every third.
pub proof fn every_hour_can_be_read(hours: Seq<TimelineBucket>, measures: Seq<BucketMeasure>, at: int)
    requires
        0 <= at < hours.len(),
    ensures
        ({
            let chart = timeline_chart(hours, measures);
            let m = measures[at];
            &&& has_part(chart, filled(m.x as nat, 6200, m.width as nat, m.height as nat, Color::Periwinkle))
            &&& at % 3 == 0 ==> has_part(
                chart,
                lettering("F1"@, 800, m.x as nat, 4600, Color::Indigo, hours[at].label@),
            )
        }),
{
    reveal(timeline_chart);
    let m = measures[at];
    let strip = filled(m.x as nat, 6200, m.width as nat, m.height as nat, Color::Periwinkle);
    let label = lettering("F1"@, 800, m.x as nat, 4600, Color::Indigo, hours[at].label@);
    let axes = line(6000, 6200, 78000, 6200, Color::Indigo) + line(6000, 6200, 6000, 14800, Color::Indigo);
    let drawn = buckets(hours, measures, hours.len());
    let caption = lettering(
        "F1"@,
        900,
        6200,
        15400,
        Color::Indigo,
        "Bars show the number of attacks in each hourly bucket"@,
    );
    buckets_have_it(hours, measures, hours.len(), at);
    behind(axes, drawn, strip);
    in_front(axes + drawn, caption, strip);
    if at % 3 == 0 {
        behind(axes, drawn, label);
        in_front(axes + drawn, caption, label);
    }
}

/// What an hour shows is shown by all hours.
proof fn buckets_have_it(hours: Seq<TimelineBucket>, measures: Seq<BucketMeasure>, n: nat, at: int)
    requires
        0 <= at < n,
    ensures
        ({
            let m = measures[at];
            &&& has_part(
                buckets(hours, measures, n),
                filled(m.x as nat, 6200, m.width as nat, m.height as nat, Color::Periwinkle),
            )
            &&& at % 3 == 0 ==> has_part(
                buckets(hours, measures, n),
                lettering("F1"@, 800, m.x as nat, 4600, Color::Indigo, hours[at].label@),
            )
        }),
    decreases n,
{
    let m = measures[at];
    let strip = filled(m.x as nat, 6200, m.width as nat, m.height as nat, Color::Periwinkle);
    let label = lettering("F1"@, 800, m.x as nat, 4600, Color::Indigo, hours[at].label@);
    let before = buckets(hours, measures, (n - 1) as nat);
    let last = bucket(hours[n - 1], measures[n - 1], n - 1);
    if at == n - 1 {
        in_itself(strip);
        in_itself(label);
        if at % 3 == 0 {
            in_front(strip, label, strip);
            behind(strip, label, label);
            behind(before, last, label);
        } else {
            in_front(strip, Seq::empty(), strip);
        }
        behind(before, last, strip);
    } else {
        buckets_have_it(hours, measures, (n - 1) as nat, at);
        in_front(before, last, strip);
        if at % 3 == 0 {
            in_front(before, last, label);
        }
    }
}

/// On the page of a report its title, its window, the number of attacks, the
/// most frequent kind and the end of the window can be read, and it has the
/// distribution, the list of the most frequent kinds and the timeline on it.
pub proof fn reports_can_be_read(report: DailyReport, measures: ChartMeasures, start: Seq<char>, end: Seq<char>)
    ensures
        ({
            let page = report_drawing(report, measures, start, end);
            &&& has_part(page, lettering("F2"@, 2400, 5200, 54800, Color::White, "WAF Daily Report"@))
            &&& has_part(
                page,
                lettering("F1"@, 1000, 5200, 53200, Color::White, "Window: "@ + start + " to "@ + end),
            )
            &&& has_part(
                page,
                card(3600, 43800, 23000, 7400, "Total attacks / 24h"@, decimal(report.total_attacks as nat)),
            )
            &&& has_part(
                page,
                card(
                    28700,
                    43800,
                    23000,
                    7400,
                    "Most frequent type"@,
                    most_frequent(report_counts(report.top_attack_types@)),
                ),
            )
            &&& has_part(page, card(53800, 43800, 26800, 7400, "Generated at"@, end))
            &&& has_part(page, distribution_chart(report_counts(report.distribution@), measures.bars@))
            &&& has_part(page, top_list(report_counts(report.top_attack_types@)))
            &&& has_part(page, timeline_chart(report.timeline@, measures.buckets@))
        }),
{
    let d1 = filled(0, 0, 84200, 59500, Color::Paper) + filled(3600, 53000, 77000, 4200, Color::Indigo);
    let title = lettering("F2"@, 2400, 5200, 54800, Color::White, "WAF Daily Report"@);
    let window = lettering("F1"@, 1000, 5200, 53200, Color::White, "Window: "@ + start + " to "@ + end);
    let total = card(3600, 43800, 23000, 7400, "Total attacks / 24h"@, decimal(report.total_attacks as nat));
    let top = card(
        28700,
        43800,
        23000,
        7400,
        "Most frequent type"@,
        most_frequent(report_counts(report.top_attack_types@)),
    );
    let made = card(53800, 43800, 26800, 7400, "Generated at"@, end);
    let p1 = panel(3600, 20800, 47000, 21000, "Distribution by attack type"@);
    let kinds = distribution_chart(report_counts(report.distribution@), measures.bars@);
    let p2 = panel(52800, 20800, 27800, 21000, "Top 3 attack types"@);
    let list = top_list(report_counts(report.top_attack_types@));
    let p3 = panel(3600, 3600, 77000, 15200, "Timeline for the last 24 hours"@);
    let hours = timeline_chart(report.timeline@, measures.buckets@);
    let page = report_drawing(report, measures, start, end);
    assert(page == d1 + title + window + total + top + made + p1 + kinds + p2 + list + p3 + hours);
    let e = Seq::<char>::empty();
    let rest1 = window + total + top + made + p1 + kinds + p2 + list + p3 + hours;
    parts_stand_where_they_are_put(d1, title, rest1);
    assert(page =~= d1 + title + rest1);
    let rest2 = total + top + made + p1 + kinds + p2 + list + p3 + hours;
    parts_stand_where_they_are_put(d1 + title, window, rest2);
    assert(page =~= d1 + title + window + rest2);
    let rest3 = top + made + p1 + kinds + p2 + list + p3 + hours;
    parts_stand_where_they_are_put(d1 + title + window, total, rest3);
    assert(page =~= d1 + title + window + total + rest3);
    let rest4 = made + p1 + kinds + p2 + list + p3 + hours;
    parts_stand_where_they_are_put(d1 + title + window + total, top, rest4);
    assert(page =~= d1 + title + window + total + top + rest4);
    let front5 = d1 + title + window + total + top;
    let rest5 = p1 + kinds + p2 + list + p3 + hours;
    parts_stand_where_they_are_put(front5, made, rest5);
    assert(page =~= front5 + made + rest5);
    let front6 = front5 + made + p1;
    let rest6 = p2 + list + p3 + hours;
    parts_stand_where_they_are_put(front6, kinds, rest6);
    assert(page =~= front6 + kinds + rest6);
    let front7 = front6 + kinds + p2;
    let rest7 = p3 + hours;
    parts_stand_where_they_are_put(front7, list, rest7);
    assert(page =~= front7 + list + rest7);
    let front8 = front7 + list + p3;
    parts_stand_where_they_are_put(front8, hours, e);
    assert(page =~= front8 + hours + e);
}

/// Times on a page are told with the date, the time of day and `UTC`.
pub proof fn times_are_told_like_this(m: Moment)
    ensures
        told(m) == formatted(m.seconds, m.nanos, "%Y-%m-%d %H:%M UTC"@),
{
}

/// There is a measure for each of the first five kinds, or for all if there are
/// fewer, and one for each hour.
pub proof fn measures_are_these_many(measures: ChartMeasures, report: DailyReport)
    ensures
        fits(measures, report) <==> {
            &&& report.distribution@.len() <= 5 ==> measures.bars@.len() == report.distribution@.len()
            &&& report.distribution@.len() > 5 ==> measures.bars@.len() == 5
            &&& measures.buckets@.len() == report.timeline@.len()
        },
{
}

/// Bars are scaled to the greatest of the counts that are shown, and to 1 where
/// there are none.
pub proof fn bars_are_scaled_to_the_greatest(distribution: Seq<ReportCount>, greatest: int, at: int)
    requires
        is_greatest(greatest, shown_counts(distribution)),
    ensures
        distribution.len() == 0 ==> greatest == 1,
        0 <= at < distribution.len() && at < 5 ==> distribution[at].count <= greatest,
        distribution.len() > 0 ==> exists|i: int|
            0 <= i < distribution.len() && i < 5 && (#[trigger] distribution[i]).count == greatest,
{
    let counts = shown_counts(distribution);
    if distribution.len() > 0 {
        let i = choose|i: int| 0 <= i < counts.len() && #[trigger] counts[i] == greatest;
        assert(distribution[i].count == greatest);
    }
    if 0 <= at < distribution.len() && at < 5 {
        assert(counts[at] == distribution[at].count);
    }
}

/// Hours are scaled to the greatest of their counts.
pub proof fn hours_are_scaled_to_the_greatest(timeline: Seq<TimelineBucket>, greatest: int, at: int)
    requires
        is_greatest(greatest, bucket_counts(timeline)),
    ensures
        timeline.len() == 0 ==> greatest == 1,
        0 <= at < timeline.len() ==> timeline[at].count <= greatest,
        timeline.len() > 0 ==> exists|i: int| 0 <= i < timeline.len() && (#[trigger] timeline[i]).count == greatest,
{
    let counts = bucket_counts(timeline);
    if timeline.len() > 0 {
        let i = choose|i: int| 0 <= i < counts.len() && #[trigger] counts[i] == greatest;
        assert(timeline[i].count == greatest);
    }
    if 0 <= at < timeline.len() {
        assert(counts[at] == timeline[at].count);
    }
}

/// A document begins with its version, ends with the mark of its end, and has
/// every object in it under its number.
pub proof fn documents_have_their_objects(bodies: Seq<Seq<char>>, at: int)
    ensures
        begins_with(document(bodies), "%PDF-1.4\n"@),
        ends_in(document(bodies), "\n%%EOF"@),
        0 <= at < bodies.len() ==> has_part(
            document(bodies),
            decimal((at + 1) as nat) + " 0 obj\n"@ + bodies[at] + "\nendobj\n"@,
        ),
{
    let objects = objects_text(bodies, bodies.len());
    let n = bodies.len();
    let rest = objects_begin(bodies, n);
    let tail = document_end(bodies);
    parts_stand_where_they_are_put(Seq::empty(), "%PDF-1.4\n"@, rest + tail);
    assert(document(bodies) =~= "%PDF-1.4\n"@ + (rest + tail));
    let front = "xref\n0 "@ + decimal(n + 1) + "\n"@ + "0000000000 65535 f \n"@ + offset_table(bodies, n)
        + "trailer\n<< /Size "@ + decimal(n + 1) + " /Root 1 0 R >>\nstartxref\n"@ + decimal(object_offset(bodies, n));
    parts_stand_where_they_are_put(objects + front, "\n%%EOF"@, Seq::empty());
    assert(document(bodies) =~= objects + front + "\n%%EOF"@);
    if 0 <= at < n {
        objects_have_it(bodies, n, at);
        in_front(objects, tail, object_text((at + 1) as nat, bodies[at]));
    }
}

/// The objects begin with the version.
proof fn objects_begin(bodies: Seq<Seq<char>>, n: nat) -> (rest: Seq<char>)
    ensures
        objects_text(bodies, n) == "%PDF-1.4\n"@ + rest,
    decreases n,
{
    if n == 0 {
        assert("%PDF-1.4\n"@ + Seq::<char>::empty() =~= "%PDF-1.4\n"@);
        Seq::empty()
    } else {
        let before = objects_begin(bodies, (n - 1) as nat);
        let rest = before + object_text(n, bodies[n - 1]);
        assert(objects_text(bodies, n) =~= "%PDF-1.4\n"@ + rest);
        rest
    }
}

/// Each object is among the objects.
proof fn objects_have_it(bodies: Seq<Seq<char>>, n: nat, at: int)
    requires
        0 <= at < n,
    ensures
        has_part(objects_text(bodies, n), object_text((at + 1) as nat, bodies[at])),
    decreases n,
{
    let object = object_text((at + 1) as nat, bodies[at]);
    let before = objects_text(bodies, (n - 1) as nat);
    let last = object_text(n, bodies[n - 1]);
    if at == n - 1 {
        in_itself(object);
        behind(before, last, object);
    } else {
        objects_have_it(bodies, (n - 1) as nat, at);
        in_front(before, last, object);
    }
}

/// What stands in front of the table of a document, and what stands behind it.
proof fn ends_have_three_parts(bodies: Seq<Seq<char>>, head: Seq<char>, back: Seq<char>)
    requires
        head == "xref\n0 "@ + decimal(bodies.len() + 1) + "\n"@ + "0000000000 65535 f \n"@,
        back == "trailer\n<< /Size "@ + decimal(bodies.len() + 1) + " /Root 1 0 R >>\nstartxref\n"@ + decimal(
            object_offset(bodies, bodies.len()),
        ) + "\n%%EOF"@,
    ensures
        document_end(bodies) == head + offset_table(bodies, bodies.len()) + back,
{
    let a = "xref\n0 "@;
    let b = decimal(bodies.len() + 1);
    let c = "\n"@;
    let d = "0000000000 65535 f \n"@;
    let t = offset_table(bodies, bodies.len());
    let e = "trailer\n<< /Size "@;
    let f = " /Root 1 0 R >>\nstartxref\n"@;
    let g = decimal(object_offset(bodies, bodies.len()));
    let h = "\n%%EOF"@;
    pieces(a, b, c, d, t, e, f, g, h);
}

/// Joining texts does not depend on which are joined first.
proof fn pieces(
    a: Seq<char>,
    b: Seq<char>,
    c: Seq<char>,
    d: Seq<char>,
    t: Seq<char>,
    e: Seq<char>,
    f: Seq<char>,
    g: Seq<char>,
    h: Seq<char>,
)
    ensures
        a + b + c + d + t + e + b + f + g + h == (a + b + c + d) + t + (e + b + f + g + h),
{
    let front = a + b + c + d + t;
    assert(front + e + b + f + g + h =~= front + (e + b + f + g + h));
}

/// The table of a document says of each object, in ten digits, at which byte it
/// begins.
pub proof fn tables_say_where_objects_begin(bodies: Seq<Seq<char>>, at: int)
    ensures
        0 <= at < bodies.len() ==> has_part(
            document_end(bodies),
            padded(object_offset(bodies, at as nat), 10) + " 00000 n \n"@,
        ),
        has_part(document_end(bodies), "xref\n0 "@ + decimal(bodies.len() + 1) + "\n"@ + "0000000000 65535 f \n"@),
{
    let n = bodies.len();
    let head = "xref\n0 "@ + decimal(n + 1) + "\n"@ + "0000000000 65535 f \n"@;
    let table = offset_table(bodies, n);
    let back = "trailer\n<< /Size "@ + decimal(n + 1) + " /Root 1 0 R >>\nstartxref\n"@ + decimal(
        object_offset(bodies, n),
    ) + "\n%%EOF"@;
    ends_have_three_parts(bodies, head, back);
    in_itself(head);
    in_front(head, table, head);
    in_front(head + table, back, head);
    if 0 <= at < n {
        let entry = padded(object_offset(bodies, at as nat), 10) + " 00000 n \n"@;
        table_has_it(bodies, n, at);
        within(head, table, back, entry);
    }
}

/// The end of a document says at which byte its table begins.
pub proof fn ends_say_where_tables_begin(bodies: Seq<Seq<char>>)
    ensures
        has_part(
            document_end(bodies),
            " /Root 1 0 R >>\nstartxref\n"@ + decimal(object_offset(bodies, bodies.len())) + "\n%%EOF"@,
        ),
{
    let n = bodies.len();
    let head = "xref\n0 "@ + decimal(n + 1) + "\n"@ + "0000000000 65535 f \n"@;
    let size = "trailer\n<< /Size "@ + decimal(n + 1);
    let f = " /Root 1 0 R >>\nstartxref\n"@;
    let g = decimal(object_offset(bodies, n));
    let h = "\n%%EOF"@;
    ends_have_three_parts(bodies, head, size + f + g + h);
    last_three_are_there(head + offset_table(bodies, n), size, f, g, h);
}

/// The last three of five texts stand in all of them together.
proof fn last_three_are_there(a: Seq<char>, b: Seq<char>, c: Seq<char>, d: Seq<char>, e: Seq<char>)
    ensures
        has_part(a + (b + c + d + e), c + d + e),
{
    let back = c + d + e;
    let whole = b + c + d + e;
    three_behind(b, c, d, e);
    in_itself(back);
    behind(b, back, back);
    behind(a, whole, back);
}

/// Three texts can be joined before a fourth is put in front.
proof fn three_behind(b: Seq<char>, c: Seq<char>, d: Seq<char>, e: Seq<char>)
    ensures
        b + c + d + e == b + (c + d + e),
{
    assert(b + c + d + e =~= b + (c + d + e));
}

/// Each entry is in the table.
proof fn table_has_it(bodies: Seq<Seq<char>>, n: nat, at: int)
    requires
        0 <= at < n,
    ensures
        has_part(offset_table(bodies, n), padded(object_offset(bodies, at as nat), 10) + " 00000 n \n"@),
    decreases n,
{
    let before = offset_table(bodies, (n - 1) as nat);
    let entry = padded(object_offset(bodies, at as nat), 10) + " 00000 n \n"@;
    let last = padded(object_offset(bodies, (n - 1) as nat), 10) + " 00000 n \n"@;
    assert(offset_table(bodies, n) =~= before + last);
    if at == n - 1 {
        in_itself(entry);
        behind(before, last, entry);
    } else {
        table_has_it(bodies, (n - 1) as nat, at);
        in_front(before, last, entry);
    }
}

/// The objects of a document with one page: the catalogue, the list of pages,
/// the page with its sides, the drawing with its length in bytes, and the two
/// fonts.
pub proof fn pages_have_these_objects(page: PdfPage, content: Seq<char>)
    ensures
        page_objects(page, content).len() == 6,
        page_objects(page, content)[0] == "<< /Type /Catalog /Pages 2 0 R >>"@,
        page_objects(page, content)[1] == "<< /Type /Pages /Kids [3 0 R] /Count 1 >>"@,
        page_objects(page, content)[2] == "<< /Type /Page /Parent 2 0 R /MediaBox [0 0 "@ + decimal(page.width as nat)
            + " "@ + decimal(page.height as nat)
            + "] /Contents 4 0 R /Resources << /Font << /F1 5 0 R /F2 6 0 R >> >> >>"@,
        page_objects(page, content)[3] == "<< /Length "@ + decimal(encode_utf8(content).len()) + " >>\nstream\n"@
            + content + "\nendstream"@,
        page_objects(page, content)[4] == "<< /Type /Font /Subtype /Type1 /BaseFont /Helvetica >>"@,
        page_objects(page, content)[5] == "<< /Type /Font /Subtype /Type1 /BaseFont /Helvetica-Bold >>"@,
{
}

} // verus!
