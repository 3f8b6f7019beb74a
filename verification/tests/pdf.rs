//! The daily report as a PDF document.
use rust_waf::models::AttackLog;
use rust_waf::moment::Moment;
use rust_waf::pdf::{
    append_pdf_object, build_pdf_document, distribution_scale, draw_distribution_chart, draw_panel, draw_report,
    draw_summary_card, draw_timeline_chart, draw_top_attack_list, escape_pdf_text, render_daily_report_pdf,
    timeline_scale, trim_label, BarMeasure, BucketMeasure, ChartMeasures, Color, PdfPage,
};
use rust_waf::report::{DailyReport, ReportCount, TimelineBucket};

fn counts(items: &[(&str, usize)]) -> Vec<ReportCount> {
    items.iter().map(|(label, count)| ReportCount { label: label.to_string(), count: *count }).collect()
}

fn report(kinds: &[(&str, usize)], hours: &[usize]) -> DailyReport {
    DailyReport {
        generated_at: "2024-05-01T12:34:56+00:00".to_string(),
        window_start: Moment { seconds: 1_714_480_496, nanos: 0 },
        window_end: Moment { seconds: 1_714_566_896, nanos: 0 },
        total_attacks: kinds.iter().map(|k| k.1).sum(),
        distribution: counts(kinds),
        top_attack_types: counts(&kinds[..kinds.len().min(3)]),
        timeline: hours
            .iter()
            .enumerate()
            .map(|(i, n)| TimelineBucket { label: format!("{i:02}:00"), count: *n })
            .collect(),
        logs: Vec::<AttackLog>::new(),
    }
}

fn measures(bars: usize, buckets: usize) -> ChartMeasures {
    ChartMeasures {
        bars: (0..bars).map(|i| BarMeasure { width: 22000 - 100 * i as u64, count_x: 45100 }).collect(),
        buckets: (0..buckets)
            .map(|i| BucketMeasure { x: 6150 + 3000 * i as u64, width: 2700, height: 200 })
            .collect(),
    }
}

fn fill(x: f32, y: f32, width: f32, height: f32, color: (f32, f32, f32)) -> String {
    format!(
        "q\n{:.3} {:.3} {:.3} rg\n{:.2} {:.2} {:.2} {:.2} re f\nQ\n",
        color.0, color.1, color.2, x, y, width, height
    )
}

fn letters(font: &str, size: f32, x: f32, y: f32, color: (f32, f32, f32), text: &str) -> String {
    format!(
        "BT\n/{font} {:.2} Tf\n{:.3} {:.3} {:.3} rg\n1 0 0 1 {:.2} {:.2} Tm\n({}) Tj\nET\n",
        size, color.0, color.1, color.2, x, y, text
    )
}

const INDIGO: (f32, f32, f32) = (0.365, 0.400, 0.839);
const NAVY: (f32, f32, f32) = (0.145, 0.169, 0.361);
const WHITE: (f32, f32, f32) = (1.0, 1.0, 1.0);

fn outline(x: f32, y: f32, width: f32, height: f32) -> String {
    format!("q\n0.365 0.400 0.839 RG\n1 w\n{x:.2} {y:.2} {width:.2} {height:.2} re S\nQ\n")
}

#[test]
fn shapes_are_drawn_like_this() {
    let page = PdfPage::new(842, 595);
    assert_eq!(page.fill_rect(3600, 53005, 77000, 4200, Color::Indigo), fill(36.0, 530.05, 770.0, 42.0, INDIGO));
    assert_eq!(page.stroke_rect(3600, 43800, 23000, 7400, Color::Indigo), outline(36.0, 438.0, 230.0, 74.0));
    assert_eq!(
        page.stroke_line(6000, 6200, 78000, 6200, Color::Indigo),
        "q\n0.365 0.400 0.839 RG\n1 w\n60.00 62.00 m\n780.00 62.00 l\nS\nQ\n"
    );
    assert_eq!(
        page.text("F1", 1050, 5200, 53200, Color::Navy, "a(b)\\"),
        "BT\n/F1 10.50 Tf\n0.145 0.169 0.361 rg\n1 0 0 1 52.00 532.00 Tm\n(a\\(b\\)\\\\) Tj\nET\n"
    );
}

#[test]
fn colours_are_these() {
    for (color, parts) in [
        (Color::Paper, (953, 957, 1000)),
        (Color::White, (1000, 1000, 1000)),
        (Color::Indigo, (365, 400, 839)),
        (Color::Navy, (145, 169, 361)),
        (Color::Lavender, (604, 639, 1000)),
        (Color::Periwinkle, (435, 475, 945)),
        (Color::Cobalt, (294, 337, 796)),
        (Color::Haze, (925, 933, 1000)),
    ] {
        assert_eq!(color.parts(), parts);
    }
}

#[test]
fn texts_are_escaped_so_that_they_can_be_read_back() {
    assert_eq!(escape_pdf_text("plain"), "plain");
    assert_eq!(escape_pdf_text("\\("), "\\\\\\(");
    let escaped = escape_pdf_text("f(x)\\(y))");
    let mut read = String::new();
    let mut chars = escaped.chars();
    while let Some(c) = chars.next() {
        read.push(if c == '\\' { chars.next().unwrap() } else { c });
    }
    assert_eq!(read, "f(x)\\(y))");
}

#[test]
fn labels_are_cut_off() {
    assert_eq!(trim_label("abcdef", 6), "abcdef");
    assert_eq!(trim_label("abcdefg", 6), "abcdef...");
}

#[test]
fn cards_and_panels_are_drawn_like_this() {
    let page = PdfPage::new(842, 595);
    let mut content = "x".to_string();
    draw_summary_card(&page, &mut content, 3600, 43800, 23000, 7400, "Total", "7");
    let expected = "x".to_string()
        + &fill(36.0, 438.0, 230.0, 74.0, WHITE)
        + &outline(36.0, 438.0, 230.0, 74.0)
        + &letters("F1", 10.0, 52.0, 492.0, INDIGO, "Total")
        + &letters("F2", 17.0, 52.0, 464.0, NAVY, "7");
    assert_eq!(content, expected);
    let mut content = String::new();
    draw_panel(&page, &mut content, 3600, 20800, 47000, 21000, "Panel");
    let expected = fill(36.0, 208.0, 470.0, 210.0, WHITE)
        + &outline(36.0, 208.0, 470.0, 210.0)
        + &letters("F2", 14.0, 54.0, 394.0, NAVY, "Panel");
    assert_eq!(content, expected);
}

#[test]
fn distribution_is_drawn_like_this() {
    let page = PdfPage::new(842, 595);
    let long = "l".repeat(40);
    let kinds = [(long.as_str(), 9), ("b", 8), ("c", 7), ("d", 6), ("e", 5), ("f", 4)];
    let mut content = String::new();
    draw_distribution_chart(&page, &mut content, &report(&kinds, &[]), &measures(5, 0));
    let colors = [
        (0.604, 0.639, 1.0),
        (0.435, 0.475, 0.945),
        (0.294, 0.337, 0.796),
        (0.365, 0.400, 0.839),
        (0.145, 0.169, 0.361),
    ];
    let mut expected = String::new();
    for i in 0..5 {
        let y = 356.0 - 30.0 * i as f32;
        let label = if i == 0 { "l".repeat(36) + "..." } else { kinds[i].0.to_string() };
        expected += &letters("F1", 10.0, 58.0, y + 12.0, NAVY, &label);
        expected += &fill(223.0, y, 220.0 - i as f32, 14.0, colors[i]);
        expected += &letters("F2", 10.0, 451.0, y + 4.0, NAVY, &kinds[i].1.to_string());
    }
    expected += &letters("F1", 9.0, 58.0, 230.0, INDIGO, "Top categories for the last 24 hours");
    assert_eq!(content, expected);

    let mut content = String::new();
    draw_distribution_chart(&page, &mut content, &report(&[], &[]), &measures(0, 0));
    assert_eq!(content, letters("F1", 11.0, 58.0, 310.0, INDIGO, "No attacks in the last 24 hours"));
}

#[test]
fn top_list_is_drawn_like_this() {
    let page = PdfPage::new(842, 595);
    let mut content = String::new();
    draw_top_attack_list(&page, &mut content, &report(&[("a", 3), ("b", 2)], &[]));
    let mut expected = String::new();
    for (i, (label, hits)) in [("a", 3), ("b", 2)].iter().enumerate() {
        let y = 350.0 - 54.0 * i as f32;
        expected += &fill(550.0, y - 8.0, 236.0, 42.0, (0.925, 0.933, 1.0));
        expected += &letters("F2", 12.0, 566.0, y + 14.0, NAVY, &format!("{}. {label}", i + 1));
        expected += &letters("F1", 10.0, 566.0, y, INDIGO, &format!("Hits: {hits}"));
    }
    assert_eq!(content, expected);
    let mut content = String::new();
    draw_top_attack_list(&page, &mut content, &report(&[], &[]));
    assert_eq!(content, letters("F1", 11.0, 550.0, 330.0, INDIGO, "No attacks recorded"));
}

#[test]
fn timeline_is_drawn_like_this() {
    let page = PdfPage::new(842, 595);
    let mut content = String::new();
    draw_timeline_chart(&page, &mut content, &report(&[], &[0, 1, 2, 3]), &measures(0, 4));
    let mut expected = "q\n0.365 0.400 0.839 RG\n1 w\n60.00 62.00 m\n780.00 62.00 l\nS\nQ\n\
                        q\n0.365 0.400 0.839 RG\n1 w\n60.00 62.00 m\n60.00 148.00 l\nS\nQ\n"
        .to_string();
    for i in 0..4 {
        let x = 60.0 + 30.0 * i as f32 + 1.5;
        expected += &fill(x, 62.0, 27.0, 2.0, (0.435, 0.475, 0.945));
        if i % 3 == 0 {
            expected += &letters("F1", 8.0, x, 46.0, INDIGO, &format!("{i:02}:00"));
        }
    }
    expected +=
        &letters("F1", 9.0, 62.0, 154.0, INDIGO, "Bars show the number of attacks in each hourly bucket");
    assert_eq!(content, expected);
}

#[test]
fn scales_are_the_greatest_counts() {
    assert_eq!(distribution_scale(&counts(&[])), 1);
    assert_eq!(distribution_scale(&counts(&[("a", 2), ("b", 7)])), 7);
    assert_eq!(
        distribution_scale(&counts(&[("a", 1), ("b", 1), ("c", 1), ("d", 1), ("e", 1), ("f", 9)])),
        1
    );
    assert_eq!(timeline_scale(&report(&[], &[]).timeline), 1);
    assert_eq!(timeline_scale(&report(&[], &[0, 0]).timeline), 1);
    assert_eq!(timeline_scale(&report(&[], &[0, 4, 3]).timeline), 4);
}

#[test]
fn objects_are_appended_where_the_offsets_say() {
    let mut pdf = "ä".to_string();
    let mut offsets = vec![];
    append_pdf_object(&mut pdf, &mut offsets, 3, "<< >>");
    assert_eq!(pdf, "ä3 0 obj\n<< >>\nendobj\n");
    assert_eq!(offsets, vec![2]);
}

fn check_offsets(bytes: &[u8]) {
    let find = |from: usize, wanted: &[u8]| {
        (from..bytes.len()).find(|at| bytes[*at..].starts_with(wanted)).expect("it is there")
    };
    let end = String::from_utf8_lossy(&bytes[bytes.len() - 40..]).to_string();
    let table: usize = end.split("startxref\n").nth(1).unwrap().split('\n').next().unwrap().parse().unwrap();
    assert!(bytes[table..].starts_with(b"xref\n0 7\n0000000000 65535 f \n"));
    let mut entry = find(table, b" f \n") + 4;
    for number in 1..=6 {
        let offset: usize = std::str::from_utf8(&bytes[entry..entry + 10]).unwrap().parse().unwrap();
        assert!(bytes[offset..].starts_with(format!("{number} 0 obj\n").as_bytes()));
        assert_eq!(&bytes[entry + 10..entry + 20], b" 00000 n \n");
        entry += 20;
    }
    assert!(bytes[entry..].starts_with(b"trailer\n<< /Size 7 /Root 1 0 R >>\nstartxref\n"));
    assert!(bytes.ends_with(b"\n%%EOF"));
}

#[test]
fn document_says_where_its_objects_are() {
    let bytes = build_pdf_document(PdfPage::new(842, 595), "drawing with ü");
    let text = String::from_utf8(bytes.clone()).unwrap();
    assert!(text.starts_with("%PDF-1.4\n1 0 obj\n<< /Type /Catalog /Pages 2 0 R >>\nendobj\n2 0 obj\n"));
    assert!(text.contains("/MediaBox [0 0 842 595] /Contents 4 0 R"));
    assert!(text.contains("4 0 obj\n<< /Length 15 >>\nstream\ndrawing with ü\nendstream\nendobj\n"));
    check_offsets(&bytes);
}

#[test]
fn whole_report_is_rendered() {
    let told = report(&[("942100 - SQL (Injection)", 5), ("Other", 1)], &[0; 24]);
    let bytes = render_daily_report_pdf(&told, &measures(2, 24));
    check_offsets(&bytes);
    let text = String::from_utf8(bytes).unwrap();
    assert!(text.contains("(WAF Daily Report) Tj"));
    assert!(text.contains("(Window: 2024-04-30 12:34 UTC to 2024-05-01 12:34 UTC) Tj"));
    assert!(text.contains("(942100 - SQL \\(Injection\\)) Tj"));
    assert!(text.contains("(Total attacks / 24h) Tj"));
    assert!(text.contains("(6) Tj"));
    let drawing = draw_report(
        &PdfPage::new(842, 595),
        &told,
        &measures(2, 24),
        "2024-04-30 12:34 UTC",
        "2024-05-01 12:34 UTC",
    );
    assert!(text.contains(&drawing));
}

#[test]
fn report_without_attacks_says_so() {
    let drawing =
        draw_report(&PdfPage::new(842, 595), &report(&[], &[]), &measures(0, 0), "then", "now");
    assert!(drawing.starts_with(&fill(0.0, 0.0, 842.0, 595.0, (0.953, 0.957, 1.0))));
    assert!(drawing.contains("(No attacks) Tj"));
    assert!(drawing.contains("(No attacks recorded) Tj"));
    assert!(drawing.contains("(Window: then to now) Tj"));
}
