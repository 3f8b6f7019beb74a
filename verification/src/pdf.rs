//! The daily report as a PDF document.
use crate::exchange::{cut_off, truncate_preview};
use crate::moment::{format_moment, formatted, is_moment, Moment};
use crate::number::{append_decimal, append_padded, decimal, decimal_text, padded};
use crate::report::{report_counts, DailyReport, ReportCount, TimelineBucket};
use crate::text::{replace_char, replaced};
use crate::words::texts;
use vstd::prelude::*;
use vstd::utf8::*;

verus! {

/// A number of hundredths, with two digits behind the point.
pub open spec fn hundredths(n: nat) -> Seq<char> {
    decimal(n / 100) + "."@ + padded(n % 100, 2)
}

/// A number of thousandths, with three digits behind the point.
pub open spec fn thousandths(n: nat) -> Seq<char> {
    decimal(n / 1000) + "."@ + padded(n % 1000, 3)
}

/// Adds a number of hundredths, with two digits behind the point.
fn append_hundredths(text: &mut String, n: u64)
    ensures
        final(text)@ == old(text)@ + hundredths(n as nat),
{
    let ghost before = text@;
    append_decimal(text, n / 100);
    text.append(".");
    append_padded(text, n % 100, 2);
    proof {
        assert(text@ =~= before + hundredths(n as nat));
    }
}

/// Adds a number of thousandths, with three digits behind the point.
fn append_thousandths(text: &mut String, n: u64)
    ensures
        final(text)@ == old(text)@ + thousandths(n as nat),
{
    let ghost before = text@;
    append_decimal(text, n / 1000);
    text.append(".");
    append_padded(text, n % 1000, 3);
    proof {
        assert(text@ =~= before + thousandths(n as nat));
    }
}

/// The colours of a report.
#[derive(Debug, Clone, Copy, PartialEq, Eq, Structural)]
pub enum Color {
    Paper,
    White,
    Indigo,
    Navy,
    Lavender,
    Periwinkle,
    Cobalt,
    Haze,
}

/// A colour's parts of red, green and blue, in thousandths.
pub open spec fn color_parts(color: Color) -> (u64, u64, u64) {
    match color {
        Color::Paper => (953, 957, 1000),
        Color::White => (1000, 1000, 1000),
        Color::Indigo => (365, 400, 839),
        Color::Navy => (145, 169, 361),
        Color::Lavender => (604, 639, 1000),
        Color::Periwinkle => (435, 475, 945),
        Color::Cobalt => (294, 337, 796),
        Color::Haze => (925, 933, 1000),
    }
}

impl Color {
    /// The colour's parts of red, green and blue, in thousandths.
    pub fn parts(&self) -> (parts: (u64, u64, u64))
        ensures
            parts == color_parts(*self),
    {
        match self {
            Color::Paper => (953, 957, 1000),
            Color::White => (1000, 1000, 1000),
            Color::Indigo => (365, 400, 839),
            Color::Navy => (145, 169, 361),
            Color::Lavender => (604, 639, 1000),
            Color::Periwinkle => (435, 475, 945),
            Color::Cobalt => (294, 337, 796),
            Color::Haze => (925, 933, 1000),
        }
    }
}

/// The parts of a colour.
pub open spec fn color_text(color: Color) -> Seq<char> {
    let parts = color_parts(color);
    thousandths(parts.0 as nat) + " "@ + thousandths(parts.1 as nat) + " "@ + thousandths(parts.2 as nat)
}

/// Adds the parts of a colour.
fn append_color(text: &mut String, color: Color)
    ensures
        final(text)@ == old(text)@ + color_text(color),
{
    let ghost before = text@;
    let parts = color.parts();
    append_thousandths(text, parts.0);
    text.append(" ");
    append_thousandths(text, parts.1);
    text.append(" ");
    append_thousandths(text, parts.2);
    proof {
        assert(text@ =~= before + color_text(color));
    }
}

/// Four lengths in hundredths of a point, with spaces between them.
pub open spec fn four_lengths(a: nat, b: nat, c: nat, d: nat) -> Seq<char> {
    hundredths(a) + " "@ + hundredths(b) + " "@ + hundredths(c) + " "@ + hundredths(d)
}

/// Adds four lengths, with spaces between them.
fn append_four(text: &mut String, a: u64, b: u64, c: u64, d: u64)
    ensures
        final(text)@ == old(text)@ + four_lengths(a as nat, b as nat, c as nat, d as nat),
{
    let ghost before = text@;
    append_hundredths(text, a);
    text.append(" ");
    append_hundredths(text, b);
    text.append(" ");
    append_hundredths(text, c);
    text.append(" ");
    append_hundredths(text, d);
    proof {
        assert(text@ =~= before + four_lengths(a as nat, b as nat, c as nat, d as nat));
    }
}

/// A text as it stands in a PDF string.
pub open spec fn pdf_escaped(text: Seq<char>) -> Seq<char> {
    replaced(replaced(replaced(text, '\\', "\\\\"@), '(', "\\("@), ')', "\\)"@)
}

/// A text as it stands in a PDF string: with a backslash before each backslash
/// and each parenthesis.
pub fn escape_pdf_text(value: &str) -> (escaped: String)
    ensures
        escaped@ == pdf_escaped(value@),
{
    let backslashes = replace_char(value, '\\', "\\\\");
    let opened = replace_char(backslashes.as_str(), '(', "\\(");
    replace_char(opened.as_str(), ')', "\\)")
}

/// A page; its sides are given in points.
#[derive(Debug, Clone, Copy, PartialEq, Eq, Structural)]
pub struct PdfPage {
    pub width: u64,
    pub height: u64,
}

/// The drawing of a filled rectangle. All lengths are in hundredths of a point.
#[verifier::opaque]
pub open spec fn filled(x: nat, y: nat, width: nat, height: nat, color: Color) -> Seq<char> {
    "q\n"@ + color_text(color) + " rg\n"@ + four_lengths(x, y, width, height) + " re f\nQ\n"@
}

/// The drawing of a rectangle's outline.
#[verifier::opaque]
pub open spec fn outlined(x: nat, y: nat, width: nat, height: nat, color: Color) -> Seq<char> {
    "q\n"@ + color_text(color) + " RG\n1 w\n"@ + four_lengths(x, y, width, height) + " re S\nQ\n"@
}

/// The drawing of a line.
#[verifier::opaque]
pub open spec fn line(x1: nat, y1: nat, x2: nat, y2: nat, color: Color) -> Seq<char> {
    "q\n"@ + color_text(color) + " RG\n1 w\n"@ + hundredths(x1) + " "@ + hundredths(y1) + " m\n"@ + hundredths(x2)
        + " "@ + hundredths(y2) + " l\nS\nQ\n"@
}

/// The drawing of a text.
#[verifier::opaque]
pub open spec fn lettering(font: Seq<char>, size: nat, x: nat, y: nat, color: Color, text: Seq<char>) -> Seq<char> {
    "BT\n/"@ + font + " "@ + hundredths(size) + " Tf\n"@ + color_text(color) + " rg\n1 0 0 1 "@ + hundredths(x) + " "@
        + hundredths(y) + " Tm\n("@ + pdf_escaped(text) + ") Tj\nET\n"@
}

impl PdfPage {
    /// A page with sides in points.
    pub fn new(width: u64, height: u64) -> (page: PdfPage)
        ensures
            page.width == width,
            page.height == height,
    {
        PdfPage { width, height }
    }

    /// The drawing of a filled rectangle.
    pub fn fill_rect(&self, x: u64, y: u64, width: u64, height: u64, color: Color) -> (drawing: String)
        ensures
            drawing@ == filled(x as nat, y as nat, width as nat, height as nat, color),
    {
        proof {
            reveal(filled);
        }
        let mut drawing = "q\n".to_string();
        append_color(&mut drawing, color);
        drawing.append(" rg\n");
        append_four(&mut drawing, x, y, width, height);
        drawing.append(" re f\nQ\n");
        drawing
    }

    /// The drawing of a rectangle's outline.
    pub fn stroke_rect(&self, x: u64, y: u64, width: u64, height: u64, color: Color) -> (drawing: String)
        ensures
            drawing@ == outlined(x as nat, y as nat, width as nat, height as nat, color),
    {
        proof {
            reveal(outlined);
        }
        let mut drawing = "q\n".to_string();
        append_color(&mut drawing, color);
        drawing.append(" RG\n1 w\n");
        append_four(&mut drawing, x, y, width, height);
        drawing.append(" re S\nQ\n");
        drawing
    }

    /// The drawing of a line.
    pub fn stroke_line(&self, x1: u64, y1: u64, x2: u64, y2: u64, color: Color) -> (drawing: String)
        ensures
            drawing@ == line(x1 as nat, y1 as nat, x2 as nat, y2 as nat, color),
    {
        proof {
            reveal(line);
        }
        let mut drawing = "q\n".to_string();
        append_color(&mut drawing, color);
        drawing.append(" RG\n1 w\n");
        append_hundredths(&mut drawing, x1);
        drawing.append(" ");
        append_hundredths(&mut drawing, y1);
        drawing.append(" m\n");
        append_hundredths(&mut drawing, x2);
        drawing.append(" ");
        append_hundredths(&mut drawing, y2);
        drawing.append(" l\nS\nQ\n");
        drawing
    }

    /// The drawing of a text.
    pub fn text(&self, font: &str, size: u64, x: u64, y: u64, color: Color, text: &str) -> (drawing: String)
        ensures
            drawing@ == lettering(font@, size as nat, x as nat, y as nat, color, text@),
    {
        proof {
            reveal(lettering);
        }
        let mut drawing = "BT\n/".to_string();
        drawing.append(font);
        drawing.append(" ");
        append_hundredths(&mut drawing, size);
        drawing.append(" Tf\n");
        append_color(&mut drawing, color);
        drawing.append(" rg\n1 0 0 1 ");
        append_hundredths(&mut drawing, x);
        drawing.append(" ");
        append_hundredths(&mut drawing, y);
        drawing.append(" Tm\n(");
        drawing.append(escape_pdf_text(text).as_str());
        drawing.append(") Tj\nET\n");
        drawing
    }
}

/// A text that fits into a label of so many characters, with three dots where
/// something is missing.
pub fn trim_label(value: &str, max_len: usize) -> (label: String)
    ensures
        label@ == cut_off(value@, max_len as nat),
{
    truncate_preview(value, max_len)
}

/// A card with a title and a value.
#[verifier::opaque]
pub open spec fn card(x: nat, y: nat, width: nat, height: nat, title: Seq<char>, value: Seq<char>) -> Seq<char> {
    filled(x, y, width, height, Color::White) + outlined(x, y, width, height, Color::Indigo) + lettering(
        "F1"@,
        1000,
        x + 1600,
        (y + height - 2000) as nat,
        Color::Indigo,
        title,
    ) + lettering("F2"@, 1700, x + 1600, y + 2600, Color::Navy, value)
}

/// Draws a card with a title and a value.
pub fn draw_summary_card(
    page: &PdfPage,
    content: &mut String,
    x: u64,
    y: u64,
    width: u64,
    height: u64,
    title: &str,
    value: &str,
)
    requires
        x + 1600 <= u64::MAX,
        y + 2600 <= u64::MAX,
        2000 <= y + height <= u64::MAX,
    ensures
        final(content)@ == old(content)@ + card(x as nat, y as nat, width as nat, height as nat, title@, value@),
{
    proof {
        reveal(card);
    }
    let ghost before = content@;
    content.append(page.fill_rect(x, y, width, height, Color::White).as_str());
    content.append(page.stroke_rect(x, y, width, height, Color::Indigo).as_str());
    content.append(page.text("F1", 1000, x + 1600, y + height - 2000, Color::Indigo, title).as_str());
    content.append(page.text("F2", 1700, x + 1600, y + 2600, Color::Navy, value).as_str());
    proof {
        assert(content@ =~= before + card(x as nat, y as nat, width as nat, height as nat, title@, value@));
    }
}

/// A panel with a title.
#[verifier::opaque]
pub open spec fn panel(x: nat, y: nat, width: nat, height: nat, title: Seq<char>) -> Seq<char> {
    filled(x, y, width, height, Color::White) + outlined(x, y, width, height, Color::Indigo) + lettering(
        "F2"@,
        1400,
        x + 1800,
        (y + height - 2400) as nat,
        Color::Navy,
        title,
    )
}

/// Draws a panel with a title.
pub fn draw_panel(page: &PdfPage, content: &mut String, x: u64, y: u64, width: u64, height: u64, title: &str)
    requires
        x + 1800 <= u64::MAX,
        2400 <= y + height <= u64::MAX,
    ensures
        final(content)@ == old(content)@ + panel(x as nat, y as nat, width as nat, height as nat, title@),
{
    proof {
        reveal(panel);
    }
    let ghost before = content@;
    content.append(page.fill_rect(x, y, width, height, Color::White).as_str());
    content.append(page.stroke_rect(x, y, width, height, Color::Indigo).as_str());
    content.append(page.text("F2", 1400, x + 1800, y + height - 2400, Color::Navy, title).as_str());
    proof {
        assert(content@ =~= before + panel(x as nat, y as nat, width as nat, height as nat, title@));
    }
}

/// How a bar of the distribution is drawn: how wide it is, and where the count
/// behind it begins. Both are in hundredths of a point.
#[derive(Debug, Clone, Copy, PartialEq, Eq, Structural)]
pub struct BarMeasure {
    pub width: u64,
    pub count_x: u64,
}

/// How a bar of the timeline is drawn: where it begins, and how wide and high
/// it is. All are in hundredths of a point.
#[derive(Debug, Clone, Copy, PartialEq, Eq, Structural)]
pub struct BucketMeasure {
    pub x: u64,
    pub width: u64,
    pub height: u64,
}

/// How the bars of a report are drawn.
#[derive(Debug, Clone)]
pub struct ChartMeasures {
    pub bars: Vec<BarMeasure>,
    pub buckets: Vec<BucketMeasure>,
}

/// How many kinds of attack the distribution shows.
pub open spec fn shown_kinds(distribution: Seq<ReportCount>) -> nat {
    if distribution.len() < 5 {
        distribution.len()
    } else {
        5
    }
}

/// Whether there is a measure for each bar.
pub open spec fn fits(measures: ChartMeasures, report: DailyReport) -> bool {
    &&& measures.bars@.len() == shown_kinds(report.distribution@)
    &&& measures.buckets@.len() == report.timeline@.len()
}

/// The greatest of some counts, or 1 if there are none.
pub open spec fn is_greatest(greatest: int, counts: Seq<nat>) -> bool {
    if counts.len() == 0 {
        greatest == 1
    } else {
        (exists|i: int| 0 <= i < counts.len() && #[trigger] counts[i] == greatest) && (forall|i: int|
            0 <= i < counts.len() ==> #[trigger] counts[i] <= greatest)
    }
}

/// The counts of the kinds that the distribution shows.
pub open spec fn shown_counts(distribution: Seq<ReportCount>) -> Seq<nat> {
    distribution.take(shown_kinds(distribution) as int).map_values(|c: ReportCount| c.count as nat)
}

/// The count to which the bars of the distribution are scaled.
pub fn distribution_scale(distribution: &Vec<ReportCount>) -> (greatest: usize)
    ensures
        is_greatest(greatest as int, shown_counts(distribution@)),
{
    let ghost counts = shown_counts(distribution@);
    if distribution.len() == 0 {
        return 1;
    }
    let mut greatest: usize = distribution[0].count;
    proof {
        assert(counts[0] == greatest);
    }
    let mut i: usize = 1;
    while i < distribution.len() && i < 5
        invariant
            1 <= i <= distribution@.len(),
            i <= 5,
            counts == shown_counts(distribution@),
            exists|j: int| 0 <= j < i && #[trigger] counts[j] == greatest,
            forall|j: int| 0 <= j < i ==> #[trigger] counts[j] <= greatest,
        decreases 5 - i,
    {
        proof {
            assert(counts[i as int] == distribution@[i as int].count);
        }
        if distribution[i].count > greatest {
            greatest = distribution[i].count;
        }
        i += 1;
    }
    greatest
}

/// The counts of a timeline.
pub open spec fn bucket_counts(timeline: Seq<TimelineBucket>) -> Seq<nat> {
    timeline.map_values(|b: TimelineBucket| b.count as nat)
}

/// The count to which the bars of the timeline are scaled: the greatest, but at
/// least 1.
pub fn timeline_scale(timeline: &Vec<TimelineBucket>) -> (scale: usize)
    ensures
        exists|greatest: int| #[trigger]
            is_greatest(greatest, bucket_counts(timeline@)) && scale == (if greatest < 1 {
                1
            } else {
                greatest
            }),
{
    let ghost counts = bucket_counts(timeline@);
    if timeline.len() == 0 {
        proof {
            assert(is_greatest(1, counts));
        }
        return 1;
    }
    let mut greatest: usize = timeline[0].count;
    proof {
        assert(counts[0] == greatest);
    }
    let mut i: usize = 1;
    while i < timeline.len()
        invariant
            1 <= i <= timeline@.len(),
            counts == bucket_counts(timeline@),
            exists|j: int| 0 <= j < i && #[trigger] counts[j] == greatest,
            forall|j: int| 0 <= j < i ==> #[trigger] counts[j] <= greatest,
        decreases timeline@.len() - i,
    {
        proof {
            assert(counts[i as int] == timeline@[i as int].count);
        }
        if timeline[i].count > greatest {
            greatest = timeline[i].count;
        }
        i += 1;
    }
    proof {
        assert(is_greatest(greatest as int, counts));
    }
    if greatest < 1 {
        1
    } else {
        greatest
    }
}

/// The colour of a bar of the distribution.
pub open spec fn bar_color(index: int) -> Color {
    if index == 0 {
        Color::Lavender
    } else if index == 1 {
        Color::Periwinkle
    } else if index == 2 {
        Color::Cobalt
    } else if index == 3 {
        Color::Indigo
    } else {
        Color::Navy
    }
}

/// The drawing of one kind of attack in the distribution.
pub open spec fn bar(kind: (Seq<char>, nat), measure: BarMeasure, index: int) -> Seq<char> {
    let y = (35600 - index * 3000) as nat;
    lettering("F1"@, 1000, 5800, y + 1200, Color::Navy, cut_off(kind.0, 36)) + filled(
        22300,
        y,
        measure.width as nat,
        1400,
        bar_color(index),
    ) + lettering("F2"@, 1000, measure.count_x as nat, y + 400, Color::Navy, decimal(kind.1))
}

/// The drawing of the first kinds of attack in the distribution.
pub open spec fn bars(kinds: Seq<(Seq<char>, nat)>, measures: Seq<BarMeasure>, n: nat) -> Seq<char>
    decreases n,
{
    if n == 0 {
        Seq::empty()
    } else {
        bars(kinds, measures, (n - 1) as nat) + bar(kinds[n - 1], measures[n - 1], n - 1)
    }
}

/// The drawing of the distribution.
#[verifier::opaque]
pub open spec fn distribution_chart(kinds: Seq<(Seq<char>, nat)>, measures: Seq<BarMeasure>) -> Seq<char> {
    if kinds.len() == 0 {
        lettering("F1"@, 1100, 5800, 31000, Color::Indigo, "No attacks in the last 24 hours"@)
    } else {
        bars(kinds, measures, measures.len()) + lettering(
            "F1"@,
            900,
            5800,
            23000,
            Color::Indigo,
            "Top categories for the last 24 hours"@,
        )
    }
}

/// Draws the distribution.
pub fn draw_distribution_chart(page: &PdfPage, content: &mut String, report: &DailyReport, measures: &ChartMeasures)
    requires
        fits(*measures, *report),
    ensures
        final(content)@ == old(content)@ + distribution_chart(report_counts(report.distribution@), measures.bars@),
{
    proof {
        reveal(distribution_chart);
    }
    let ghost before = content@;
    let ghost kinds = report_counts(report.distribution@);
    if report.distribution.len() == 0 {
        content.append(
            page.text("F1", 1100, 5800, 31000, Color::Indigo, "No attacks in the last 24 hours").as_str(),
        );
        return;
    }
    let mut index: usize = 0;
    proof {
        assert(content@ =~= before + bars(kinds, measures.bars@, 0));
    }
    while index < measures.bars.len()
        invariant
            index <= measures.bars@.len() <= 5,
            measures.bars@.len() <= report.distribution@.len(),
            kinds == report_counts(report.distribution@),
            content@ == before + bars(kinds, measures.bars@, index as nat),
        decreases measures.bars@.len() - index,
    {
        let item = &report.distribution[index];
        let measure = measures.bars[index];
        let y: u64 = 35600 - 3000 * index as u64;
        let color = if index == 0 {
            Color::Lavender
        } else if index == 1 {
            Color::Periwinkle
        } else if index == 2 {
            Color::Cobalt
        } else if index == 3 {
            Color::Indigo
        } else {
            Color::Navy
        };
        proof {
            assert(kinds[index as int] == (item.label@, item.count as nat));
        }
        let label = trim_label(item.label.as_str(), 36);
        content.append(page.text("F1", 1000, 5800, y + 1200, Color::Navy, label.as_str()).as_str());
        content.append(page.fill_rect(22300, y, measure.width, 1400, color).as_str());
        content.append(
            page.text("F2", 1000, measure.count_x, y + 400, Color::Navy, decimal_text(item.count as u64).as_str()).as_str(),
        );
        proof {
            assert(content@ =~= before + (bars(kinds, measures.bars@, index as nat) + bar(
                kinds[index as int],
                measures.bars@[index as int],
                index as int,
            )));
        }
        index += 1;
    }
    content.append(
        page.text("F1", 900, 5800, 23000, Color::Indigo, "Top categories for the last 24 hours").as_str(),
    );
    proof {
        assert(content@ =~= before + distribution_chart(kinds, measures.bars@));
    }
}

/// The drawing of one of the most frequent kinds of attack.
pub open spec fn top_entry(kind: (Seq<char>, nat), index: int) -> Seq<char> {
    let y = (35000 - index * 5400) as nat;
    filled(55000, (y - 800) as nat, 23600, 4200, Color::Haze) + lettering(
        "F2"@,
        1200,
        56600,
        y + 1400,
        Color::Navy,
        decimal((index + 1) as nat) + ". "@ + cut_off(kind.0, 28),
    ) + lettering("F1"@, 1000, 56600, y, Color::Indigo, "Hits: "@ + decimal(kind.1))
}

/// The drawing of the first of the most frequent kinds of attack.
pub open spec fn top_entries(kinds: Seq<(Seq<char>, nat)>, n: nat) -> Seq<char>
    decreases n,
{
    if n == 0 {
        Seq::empty()
    } else {
        top_entries(kinds, (n - 1) as nat) + top_entry(kinds[n - 1], n - 1)
    }
}

/// The drawing of the most frequent kinds of attack, three at most.
#[verifier::opaque]
pub open spec fn top_list(kinds: Seq<(Seq<char>, nat)>) -> Seq<char> {
    if kinds.len() == 0 {
        lettering("F1"@, 1100, 55000, 33000, Color::Indigo, "No attacks recorded"@)
    } else {
        top_entries(
            kinds,
            if kinds.len() < 3 {
                kinds.len()
            } else {
                3
            },
        )
    }
}

/// Draws the most frequent kinds of attack, three at most.
pub fn draw_top_attack_list(page: &PdfPage, content: &mut String, report: &DailyReport)
    ensures
        final(content)@ == old(content)@ + top_list(report_counts(report.top_attack_types@)),
{
    proof {
        reveal(top_list);
    }
    let ghost before = content@;
    let top = &report.top_attack_types;
    let ghost kinds = report_counts(top@);
    if top.len() == 0 {
        content.append(page.text("F1", 1100, 55000, 33000, Color::Indigo, "No attacks recorded").as_str());
        return;
    }
    let mut index: usize = 0;
    proof {
        assert(content@ =~= before + top_entries(kinds, 0));
    }
    while index < top.len() && index < 3
        invariant
            index <= top@.len(),
            index <= 3,
            kinds == report_counts(top@),
            content@ == before + top_entries(kinds, index as nat),
        decreases 3 - index,
    {
        let item = &top[index];
        let y: u64 = 35000 - 5400 * index as u64;
        proof {
            assert(kinds[index as int] == (item.label@, item.count as nat));
        }
        let mut title = decimal_text(index as u64 + 1);
        title.append(". ");
        title.append(trim_label(item.label.as_str(), 28).as_str());
        let mut hits = "Hits: ".to_string();
        append_decimal(&mut hits, item.count as u64);
        content.append(page.fill_rect(55000, y - 800, 23600, 4200, Color::Haze).as_str());
        content.append(page.text("F2", 1200, 56600, y + 1400, Color::Navy, title.as_str()).as_str());
        content.append(page.text("F1", 1000, 56600, y, Color::Indigo, hits.as_str()).as_str());
        proof {
            assert(content@ =~= before + (top_entries(kinds, index as nat) + top_entry(
                kinds[index as int],
                index as int,
            )));
        }
        index += 1;
    }
}

/// The drawing of one hour of the timeline. Every third hour is labelled.
pub open spec fn bucket(hour: TimelineBucket, measure: BucketMeasure, index: int) -> Seq<char> {
    filled(measure.x as nat, 6200, measure.width as nat, measure.height as nat, Color::Periwinkle) + (if index % 3
        == 0 {
        lettering("F1"@, 800, measure.x as nat, 4600, Color::Indigo, hour.label@)
    } else {
        Seq::empty()
    })
}

/// The drawing of the first hours of the timeline.
pub open spec fn buckets(hours: Seq<TimelineBucket>, measures: Seq<BucketMeasure>, n: nat) -> Seq<char>
    decreases n,
{
    if n == 0 {
        Seq::empty()
    } else {
        buckets(hours, measures, (n - 1) as nat) + bucket(hours[n - 1], measures[n - 1], n - 1)
    }
}

/// The drawing of the timeline.
#[verifier::opaque]
pub open spec fn timeline_chart(hours: Seq<TimelineBucket>, measures: Seq<BucketMeasure>) -> Seq<char> {
    line(6000, 6200, 78000, 6200, Color::Indigo) + line(6000, 6200, 6000, 14800, Color::Indigo) + buckets(
        hours,
        measures,
        hours.len(),
    ) + lettering(
        "F1"@,
        900,
        6200,
        15400,
        Color::Indigo,
        "Bars show the number of attacks in each hourly bucket"@,
    )
}

/// Draws the timeline.
pub fn draw_timeline_chart(page: &PdfPage, content: &mut String, report: &DailyReport, measures: &ChartMeasures)
    requires
        fits(*measures, *report),
    ensures
        final(content)@ == old(content)@ + timeline_chart(report.timeline@, measures.buckets@),
{
    proof {
        reveal(timeline_chart);
    }
    let ghost before = content@;
    content.append(page.stroke_line(6000, 6200, 78000, 6200, Color::Indigo).as_str());
    content.append(page.stroke_line(6000, 6200, 6000, 14800, Color::Indigo).as_str());
    let ghost axes = content@;
    let hours = &report.timeline;
    let mut index: usize = 0;
    proof {
        assert(content@ =~= axes + buckets(hours@, measures.buckets@, 0));
    }
    while index < hours.len()
        invariant
            index <= hours@.len(),
            measures.buckets@.len() == hours@.len(),
            content@ == axes + buckets(hours@, measures.buckets@, index as nat),
        decreases hours@.len() - index,
    {
        let measure = measures.buckets[index];
        content.append(page.fill_rect(measure.x, 6200, measure.width, measure.height, Color::Periwinkle).as_str());
        if index % 3 == 0 {
            content.append(
                page.text("F1", 800, measure.x, 4600, Color::Indigo, hours[index].label.as_str()).as_str(),
            );
        }
        proof {
            assert(content@ =~= axes + (buckets(hours@, measures.buckets@, index as nat) + bucket(
                hours@[index as int],
                measures.buckets@[index as int],
                index as int,
            )));
        }
        index += 1;
    }
    content.append(
        page.text("F1", 900, 6200, 15400, Color::Indigo, "Bars show the number of attacks in each hourly bucket").as_str(),
    );
    proof {
        assert(content@ =~= before + timeline_chart(hours@, measures.buckets@));
    }
}

/// The kind of attack that is named as the most frequent one.
pub open spec fn most_frequent(kinds: Seq<(Seq<char>, nat)>) -> Seq<char> {
    if kinds.len() == 0 {
        "No attacks"@
    } else {
        cut_off(kinds[0].0, 30)
    }
}

/// A point in time as a report tells it.
pub open spec fn told(m: Moment) -> Seq<char> {
    formatted(m.seconds, m.nanos, "%Y-%m-%d %H:%M UTC"@)
}

/// The drawing of a report, given how the beginning and the end of its window
/// are told.
pub open spec fn report_drawing(
    report: DailyReport,
    measures: ChartMeasures,
    start: Seq<char>,
    end: Seq<char>,
) -> Seq<char> {
    filled(0, 0, 84200, 59500, Color::Paper) + filled(3600, 53000, 77000, 4200, Color::Indigo) + lettering(
        "F2"@,
        2400,
        5200,
        54800,
        Color::White,
        "WAF Daily Report"@,
    ) + lettering(
        "F1"@,
        1000,
        5200,
        53200,
        Color::White,
        "Window: "@ + start + " to "@ + end,
    ) + card(3600, 43800, 23000, 7400, "Total attacks / 24h"@, decimal(report.total_attacks as nat)) + card(
        28700,
        43800,
        23000,
        7400,
        "Most frequent type"@,
        most_frequent(report_counts(report.top_attack_types@)),
    ) + card(53800, 43800, 26800, 7400, "Generated at"@, end) + panel(
        3600,
        20800,
        47000,
        21000,
        "Distribution by attack type"@,
    ) + distribution_chart(report_counts(report.distribution@), measures.bars@) + panel(
        52800,
        20800,
        27800,
        21000,
        "Top 3 attack types"@,
    ) + top_list(report_counts(report.top_attack_types@)) + panel(
        3600,
        3600,
        77000,
        15200,
        "Timeline for the last 24 hours"@,
    ) + timeline_chart(report.timeline@, measures.buckets@)
}

/// An object of a document, under its number.
pub open spec fn object_text(number: nat, body: Seq<char>) -> Seq<char> {
    decimal(number) + " 0 obj\n"@ + body + "\nendobj\n"@
}

/// The beginning of a document: the first line and the first objects.
pub open spec fn objects_text(bodies: Seq<Seq<char>>, n: nat) -> Seq<char>
    decreases n,
{
    if n == 0 {
        "%PDF-1.4\n"@
    } else {
        objects_text(bodies, (n - 1) as nat) + object_text(n, bodies[n - 1])
    }
}

/// The byte at which an object of a document begins.
pub open spec fn object_offset(bodies: Seq<Seq<char>>, index: nat) -> nat {
    encode_utf8(objects_text(bodies, index)).len()
}

/// The entries of the table that says where the first objects begin.
pub open spec fn offset_table(bodies: Seq<Seq<char>>, n: nat) -> Seq<char>
    decreases n,
{
    if n == 0 {
        Seq::empty()
    } else {
        offset_table(bodies, (n - 1) as nat) + padded(object_offset(bodies, (n - 1) as nat), 10) + " 00000 n \n"@
    }
}

/// The end of a document: the table that says where the objects begin, and
/// where that table begins.
pub open spec fn document_end(bodies: Seq<Seq<char>>) -> Seq<char> {
    let n = bodies.len();
    "xref\n0 "@ + decimal(n + 1) + "\n"@ + "0000000000 65535 f \n"@ + offset_table(bodies, n)
        + "trailer\n<< /Size "@ + decimal(n + 1) + " /Root 1 0 R >>\nstartxref\n"@ + decimal(object_offset(bodies, n))
        + "\n%%EOF"@
}

/// A document with these objects.
pub open spec fn document(bodies: Seq<Seq<char>>) -> Seq<char> {
    objects_text(bodies, bodies.len()) + document_end(bodies)
}

/// The object that describes the page.
pub open spec fn page_body(page: PdfPage) -> Seq<char> {
    "<< /Type /Page /Parent 2 0 R /MediaBox [0 0 "@ + decimal(page.width as nat) + " "@ + decimal(page.height as nat)
        + "] /Contents 4 0 R /Resources << /Font << /F1 5 0 R /F2 6 0 R >> >> >>"@
}

/// The object that holds the drawing, with its length in bytes.
pub open spec fn stream_body(content: Seq<char>) -> Seq<char> {
    "<< /Length "@ + decimal(encode_utf8(content).len()) + " >>\nstream\n"@ + content + "\nendstream"@
}

/// The objects of a document with one page.
pub open spec fn page_objects(page: PdfPage, content: Seq<char>) -> Seq<Seq<char>> {
    seq![
        "<< /Type /Catalog /Pages 2 0 R >>"@,
        "<< /Type /Pages /Kids [3 0 R] /Count 1 >>"@,
        page_body(page),
        stream_body(content),
        "<< /Type /Font /Subtype /Type1 /BaseFont /Helvetica >>"@,
        "<< /Type /Font /Subtype /Type1 /BaseFont /Helvetica-Bold >>"@,
    ]
}

/// The objects of a document with one page.
fn list_page_objects(page: &PdfPage, content: &str) -> (bodies: Vec<String>)
    ensures
        texts(bodies@) == page_objects(*page, content@),
{
    let mut description = "<< /Type /Page /Parent 2 0 R /MediaBox [0 0 ".to_string();
    append_decimal(&mut description, page.width);
    description.append(" ");
    append_decimal(&mut description, page.height);
    description.append("] /Contents 4 0 R /Resources << /Font << /F1 5 0 R /F2 6 0 R >> >> >>");
    let mut stream = "<< /Length ".to_string();
    append_decimal(&mut stream, content.as_bytes().len() as u64);
    stream.append(" >>\nstream\n");
    stream.append(content);
    stream.append("\nendstream");
    let mut bodies: Vec<String> = Vec::new();
    bodies.push("<< /Type /Catalog /Pages 2 0 R >>".to_string());
    bodies.push("<< /Type /Pages /Kids [3 0 R] /Count 1 >>".to_string());
    bodies.push(description);
    bodies.push(stream);
    bodies.push("<< /Type /Font /Subtype /Type1 /BaseFont /Helvetica >>".to_string());
    bodies.push("<< /Type /Font /Subtype /Type1 /BaseFont /Helvetica-Bold >>".to_string());
    proof {
        assert(texts(bodies@) =~= page_objects(*page, content@));
    }
    bodies
}

/// Adds an object to a document, and where it begins to the offsets.
pub fn append_pdf_object(pdf: &mut String, offsets: &mut Vec<usize>, object_id: usize, body: &str)
    ensures
        final(pdf)@ == old(pdf)@ + object_text(object_id as nat, body@),
        final(offsets)@ == old(offsets)@.push(encode_utf8(old(pdf)@).len() as usize),
        encode_utf8(old(pdf)@).len() <= usize::MAX,
{
    let ghost before = pdf@;
    let offset: usize = pdf.as_str().as_bytes().len();
    offsets.push(offset);
    append_decimal(pdf, object_id as u64);
    pdf.append(" 0 obj\n");
    pdf.append(body);
    pdf.append("\nendobj\n");
    proof {
        assert(pdf@ =~= before + object_text(object_id as nat, body@));
    }
}

/// The bytes of a document with these objects.
fn assemble_document(bodies: &Vec<String>) -> (bytes: Vec<u8>)
    requires
        bodies@.len() <= 1000,
    ensures
        bytes@ == encode_utf8(document(texts(bodies@))),
{
    let ghost all = texts(bodies@);
    let mut pdf = "%PDF-1.4\n".to_string();
    let mut offsets: Vec<usize> = Vec::new();
    let mut i: usize = 0;
    while i < bodies.len()
        invariant
            i <= bodies@.len() <= 1000,
            all == texts(bodies@),
            pdf@ == objects_text(all, i as nat),
            offsets@.len() == i,
            forall|k: int| 0 <= k < i ==> #[trigger] offsets@[k] == object_offset(all, k as nat),
        decreases bodies@.len() - i,
    {
        append_pdf_object(&mut pdf, &mut offsets, i + 1, bodies[i].as_str());
        i += 1;
    }
    let xref_offset: usize = pdf.as_str().as_bytes().len();
    let size: u64 = offsets.len() as u64 + 1;
    let ghost objects = pdf@;
    let mut end = "xref\n0 ".to_string();
    append_decimal(&mut end, size);
    end.append("\n");
    end.append("0000000000 65535 f \n");
    let ghost head = end@;
    let mut k: usize = 0;
    proof {
        assert(end@ =~= head + offset_table(all, 0));
    }
    while k < offsets.len()
        invariant
            k <= offsets@.len() == all.len(),
            end@ == head + offset_table(all, k as nat),
            forall|j: int| 0 <= j < offsets@.len() ==> #[trigger] offsets@[j] == object_offset(all, j as nat),
        decreases offsets@.len() - k,
    {
        let ghost before = end@;
        append_padded(&mut end, offsets[k] as u64, 10);
        end.append(" 00000 n \n");
        k += 1;
        proof {
            assert(end@ =~= head + offset_table(all, k as nat));
        }
    }
    end.append("trailer\n<< /Size ");
    append_decimal(&mut end, size);
    end.append(" /Root 1 0 R >>\nstartxref\n");
    append_decimal(&mut end, xref_offset as u64);
    end.append("\n%%EOF");
    proof {
        assert(end@ == document_end(all));
    }
    pdf.append(end.as_str());
    vstd::slice::slice_to_vec(pdf.as_str().as_bytes())
}

/// The bytes of a document with one page.
pub fn build_pdf_document(page: PdfPage, content: &str) -> (bytes: Vec<u8>)
    ensures
        bytes@ == encode_utf8(document(page_objects(page, content@))),
{
    let bodies = list_page_objects(&page, content);
    proof {
        assert(texts(bodies@).len() == 6);
    }
    assemble_document(&bodies)
}

/// Draws a report, given how the beginning and the end of its window are told.
pub fn draw_report(page: &PdfPage, report: &DailyReport, measures: &ChartMeasures, start: &str, end: &str) -> (content:
    String)
    requires
        fits(*measures, *report),
    ensures
        content@ == report_drawing(*report, *measures, start@, end@),
{
    let mut window = "Window: ".to_string();
    window.append(start);
    window.append(" to ");
    window.append(end);
    let frequent = if report.top_attack_types.len() == 0 {
        "No attacks".to_string()
    } else {
        trim_label(report.top_attack_types[0].label.as_str(), 30)
    };
    let mut content = page.fill_rect(0, 0, 84200, 59500, Color::Paper);
    content.append(page.fill_rect(3600, 53000, 77000, 4200, Color::Indigo).as_str());
    content.append(page.text("F2", 2400, 5200, 54800, Color::White, "WAF Daily Report").as_str());
    content.append(page.text("F1", 1000, 5200, 53200, Color::White, window.as_str()).as_str());
    let total = decimal_text(report.total_attacks as u64);
    draw_summary_card(page, &mut content, 3600, 43800, 23000, 7400, "Total attacks / 24h", total.as_str());
    draw_summary_card(page, &mut content, 28700, 43800, 23000, 7400, "Most frequent type", frequent.as_str());
    draw_summary_card(page, &mut content, 53800, 43800, 26800, 7400, "Generated at", end);
    draw_panel(page, &mut content, 3600, 20800, 47000, 21000, "Distribution by attack type");
    draw_distribution_chart(page, &mut content, report, measures);
    draw_panel(page, &mut content, 52800, 20800, 27800, 21000, "Top 3 attack types");
    draw_top_attack_list(page, &mut content, report);
    draw_panel(page, &mut content, 3600, 3600, 77000, 15200, "Timeline for the last 24 hours");
    draw_timeline_chart(page, &mut content, report, measures);
    content
}

/// The report as a PDF document, given how its bars are drawn.
pub fn render_daily_report_pdf(report: &DailyReport, measures: &ChartMeasures) -> (bytes: Vec<u8>)
    requires
        fits(*measures, *report),
        is_moment(report.window_start),
        is_moment(report.window_end),
    ensures
        bytes@ == encode_utf8(
            document(
                page_objects(
                    PdfPage { width: 842, height: 595 },
                    report_drawing(*report, *measures, told(report.window_start), told(report.window_end)),
                ),
            ),
        ),
{
    let page = PdfPage::new(842, 595);
    let start = format_moment(report.window_start, "%Y-%m-%d %H:%M UTC");
    let end = format_moment(report.window_end, "%Y-%m-%d %H:%M UTC");
    let content = draw_report(&page, report, measures, start.as_str(), end.as_str());
    build_pdf_document(page, content.as_str())
}

/// The encoding of two texts in a row.
proof fn encoding_of_two(a: Seq<char>, b: Seq<char>)
    ensures
        encode_utf8(a + b) == encode_utf8(a) + encode_utf8(b),
    decreases a.len(),
{
    if a.len() == 0 {
        assert(a + b =~= b);
        assert(encode_utf8(a) + encode_utf8(b) =~= encode_utf8(b));
    } else {
        assert((a + b).drop_first() =~= a.drop_first() + b);
        encoding_of_two(a.drop_first(), b);
        assert(encode_utf8(a + b) =~= encode_utf8(a) + encode_utf8(b));
    }
}

/// What follows the first objects of a document up to the last object.
proof fn later_objects(bodies: Seq<Seq<char>>, k: nat, n: nat) -> (later: Seq<char>)
    requires
        k <= n,
    ensures
        objects_text(bodies, n) == objects_text(bodies, k) + later,
    decreases n - k,
{
    if k == n {
        assert(objects_text(bodies, n) =~= objects_text(bodies, k) + Seq::<char>::empty());
        Seq::empty()
    } else {
        let later = later_objects(bodies, k, (n - 1) as nat);
        let more = later + object_text(n, bodies[n - 1]);
        assert(objects_text(bodies, n) =~= objects_text(bodies, k) + more);
        more
    }
}

/// In a document, each object stands where the table says that it begins.
pub proof fn offsets_point_at_objects(bodies: Seq<Seq<char>>, index: nat)
    requires
        index < bodies.len(),
    ensures
        ({
            let bytes = encode_utf8(document(bodies));
            let object = encode_utf8(object_text(index + 1, bodies[index as int]));
            let at = object_offset(bodies, index) as int;
            at + object.len() <= bytes.len() && bytes.subrange(at, at + object.len()) == object
        }),
{
    let object = object_text(index + 1, bodies[index as int]);
    let later = later_objects(bodies, index + 1, bodies.len());
    let tail = later + document_end(bodies);
    let start = objects_text(bodies, index);
    assert(document(bodies) =~= start + (object + tail));
    encoding_of_two(start, object + tail);
    encoding_of_two(object, tail);
    let bytes = encode_utf8(document(bodies));
    let at = object_offset(bodies, index) as int;
    assert(bytes.subrange(at, at + encode_utf8(object).len()) =~= encode_utf8(object));
}

/// The table itself stands where the end of the document says that it begins.
pub proof fn table_stands_behind_the_objects(bodies: Seq<Seq<char>>)
    ensures
        ({
            let bytes = encode_utf8(document(bodies));
            let at = object_offset(bodies, bodies.len()) as int;
            at <= bytes.len() && bytes.skip(at) == encode_utf8(document_end(bodies))
        }),
{
    let objects = objects_text(bodies, bodies.len());
    encoding_of_two(objects, document_end(bodies));
    let bytes = encode_utf8(document(bodies));
    let at = object_offset(bodies, bodies.len()) as int;
    assert(bytes.skip(at) =~= encode_utf8(document_end(bodies)));
}

/// What a PDF string says: a backslash stands for the character behind it.
pub open spec fn pdf_unescaped(escaped: Seq<char>) -> Seq<char>
    decreases escaped.len(),
{
    if escaped.len() == 0 {
        Seq::empty()
    } else if escaped[0] == '\\' && escaped.len() > 1 {
        seq![escaped[1]] + pdf_unescaped(escaped.skip(2))
    } else {
        seq![escaped[0]] + pdf_unescaped(escaped.skip(1))
    }
}

/// Replacing in two texts in a row.
proof fn replaced_in_two(a: Seq<char>, b: Seq<char>, c: char, with: Seq<char>)
    ensures
        replaced(a + b, c, with) == replaced(a, c, with) + replaced(b, c, with),
    decreases b.len(),
{
    if b.len() == 0 {
        assert(a + b =~= a);
        assert(replaced(a, c, with) + replaced(b, c, with) =~= replaced(a, c, with));
    } else {
        assert((a + b).drop_last() =~= a + b.drop_last());
        replaced_in_two(a, b.drop_last(), c, with);
        assert(replaced(a + b, c, with) =~= replaced(a, c, with) + replaced(b, c, with));
    }
}

/// How a single character is escaped.
proof fn escaped_char(c: char)
    ensures
        pdf_escaped(seq![c]) == (if c == '\\' || c == '(' || c == ')' {
            seq!['\\', c]
        } else {
            seq![c]
        }),
{
    reveal_strlit("\\\\");
    reveal_strlit("\\(");
    reveal_strlit("\\)");
    reveal_with_fuel(replaced, 3);
    let none = Seq::<char>::empty();
    assert(seq![c].drop_last() =~= none);
    assert(seq!['\\', c].drop_last() =~= seq!['\\']);
    assert(seq!['\\'].drop_last() =~= none);
    let first = replaced(seq![c], '\\', "\\\\"@);
    assert(first =~= (if c == '\\' {
        seq!['\\', c]
    } else {
        seq![c]
    }));
    let second = replaced(first, '(', "\\("@);
    assert(second =~= (if c == '\\' || c == '(' {
        seq!['\\', c]
    } else {
        seq![c]
    }));
    assert(replaced(second, ')', "\\)"@) =~= (if c == '\\' || c == '(' || c == ')' {
        seq!['\\', c]
    } else {
        seq![c]
    }));
}

/// A PDF string says the text that was escaped, whatever the text.
pub proof fn escaping_can_be_undone(text: Seq<char>)
    ensures
        pdf_unescaped(pdf_escaped(text)) == text,
    decreases text.len(),
{
    if text.len() == 0 {
        assert(pdf_escaped(text) =~= Seq::<char>::empty());
        assert(pdf_unescaped(pdf_escaped(text)) =~= text);
    } else {
        let c = text[0];
        let rest = text.drop_first();
        assert(text =~= seq![c] + rest);
        let b = "\\\\"@;
        let o = "\\("@;
        replaced_in_two(seq![c], rest, '\\', b);
        replaced_in_two(replaced(seq![c], '\\', b), replaced(rest, '\\', b), '(', o);
        replaced_in_two(
            replaced(replaced(seq![c], '\\', b), '(', o),
            replaced(replaced(rest, '\\', b), '(', o),
            ')',
            "\\)"@,
        );
        let tail = pdf_escaped(rest);
        assert(pdf_escaped(text) == pdf_escaped(seq![c]) + tail);
        escaped_char(c);
        escaping_can_be_undone(rest);
        let whole = pdf_escaped(text);
        if c == '\\' || c == '(' || c == ')' {
            assert(whole[0] == '\\' && whole[1] == c);
            assert(whole.skip(2) =~= tail);
        } else {
            assert(whole[0] == c);
            assert(whole.skip(1) =~= tail);
        }
        assert(pdf_unescaped(whole) =~= text);
    }
}

} // verus!
