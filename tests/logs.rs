use groo::logstore::{last_lines, split_lines, tail_lines, TailCursor};
use groo::output::{
    format_log_line, format_log_record, get_color_for_index, strip_log_prefix, Color, Hue,
};

fn lines(v: &[&str]) -> Vec<String> {
    v.iter().map(|s| s.to_string()).collect()
}

#[test]
fn last_lines_keeps_newest_in_order_without_prefix() {
    let file = lines(&["[web] one", "[web] two", "[web] three"]);
    let got = last_lines("web", Some(&file), 2).unwrap();
    assert_eq!(got, lines(&["two", "three"]));
    let all = last_lines("web", Some(&file), 10).unwrap();
    assert_eq!(all, lines(&["one", "two", "three"]));
    assert!(last_lines("web", Some(&file), 0).unwrap().is_empty());
}

#[test]
fn last_lines_of_missing_file_is_no_logs() {
    assert!(last_lines("web", None, 5).is_none());
    let empty: Vec<String> = Vec::new();
    assert_eq!(last_lines("web", Some(&empty), 5), Some(Vec::new()));
}

#[test]
fn strip_prefix_cases() {
    assert_eq!(strip_log_prefix("api", "[api] hello"), "hello");
    assert_eq!(strip_log_prefix("apps:web", "[apps:web]    ready [x]"), "   ready [x]");
    assert_eq!(strip_log_prefix("api", "[api]hello"), "[api]hello");
    assert_eq!(strip_log_prefix("api", "[web] hello"), "[web] hello");
    assert_eq!(strip_log_prefix("api", "plain text"), "plain text");
    assert_eq!(strip_log_prefix("api", "[unterminated"), "[unterminated");
    assert_eq!(strip_log_prefix("api", ""), "");
    assert_eq!(strip_log_prefix("a", "[a] "), "");
}

#[test]
fn strip_prefix_of_name_with_bracket() {
    assert_eq!(strip_log_prefix("a]b", "[a]b] m"), "m");
    assert_eq!(strip_log_prefix("apps:[legacy]", &format_log_line("apps:[legacy]", "up")), "up");
}

#[test]
fn format_line_has_bracketed_name() {
    assert_eq!(format_log_line("apps:web", "listening"), "[apps:web] listening");
    assert_eq!(strip_log_prefix("api", &format_log_line("api", "  x")), "  x");
}

#[test]
fn colors_cycle_over_palette() {
    assert_eq!(get_color_for_index(0), Color { hue: Hue::Cyan, bold: false });
    assert_eq!(get_color_for_index(5), Color { hue: Hue::Red, bold: false });
    assert_eq!(get_color_for_index(9), Color { hue: Hue::Green, bold: true });
    assert_eq!(get_color_for_index(10), get_color_for_index(0));
    assert_eq!(get_color_for_index(17), Color { hue: Hue::Magenta, bold: true });
}

#[test]
fn tail_reads_growth_and_resets_on_truncation() {
    let mut cursor = TailCursor::at_end(100);
    assert_eq!(cursor.poll(100), None);
    assert_eq!(cursor.poll(140), Some((100, 140)));
    assert_eq!(cursor.pos, 100);
    assert_eq!(cursor.poll(20), None);
    assert_eq!(cursor.pos, 0);
    let session = format!("{}{}", format_log_record("api", "one"), format_log_record("api", " two"));
    let len = session.len() as u64;
    assert_eq!(cursor.poll(len), Some((0, len)));
    assert_eq!(cursor.advance("api", &session.into_bytes()), lines(&["one", " two"]));
    assert_eq!(cursor.pos, len);
    assert_eq!(cursor.poll(len), None);
}

#[test]
fn tail_holds_back_a_partial_line() {
    let mut cursor = TailCursor::at_end(0);
    let first = b"[api] done\n[api] hal".to_vec();
    assert_eq!(cursor.advance("api", &first), lines(&["done"]));
    assert_eq!(cursor.pos, 11);
    assert!(cursor.advance("api", &b"[api] hal".to_vec()).is_empty());
    assert_eq!(cursor.pos, 11);
    assert_eq!(cursor.advance("api", &b"[api] half\n".to_vec()), lines(&["half"]));
    assert_eq!(cursor.pos, 22);
}

#[test]
fn tail_lines_strip_prefixes() {
    let chunk = lines(&["[api] a", "b"]);
    assert_eq!(tail_lines("api", &chunk), lines(&["a", "b"]));
}

#[test]
fn split_lines_like_buffered_reading() {
    assert!(split_lines("").is_empty());
    assert_eq!(split_lines("a\nb\n"), lines(&["a", "b"]));
    assert_eq!(split_lines("a\r\nb"), lines(&["a", "b"]));
    assert_eq!(split_lines("\n\nx\r"), lines(&["", "", "x\r"]));
    assert_eq!(split_lines("\r\n"), lines(&[""]));
}

#[test]
fn log_records_round_trip_through_reading() {
    assert_eq!(format_log_record("apps:web", "ready on 3000"), "[apps:web] ready on 3000\n");
    let mut content = format_log_record("apps:web", "ready on 3000");
    content.push_str(&format_log_record("apps:web", "  indented"));
    content.push_str(&format_log_record("apps:web", "GET /"));
    let shown = last_lines("apps:web", Some(&split_lines(&content)), 5).unwrap();
    assert_eq!(shown, lines(&["ready on 3000", "  indented", "GET /"]));
}

#[test]
fn bracketed_name_reads_back_exactly() {
    let name = "apps:[legacy]";
    let mut content = String::new();
    for m in ["] starts with bracket", "  kept indent", ""] {
        content.push_str(&format_log_record(name, m));
    }
    let expected = lines(&["] starts with bracket", "  kept indent", ""]);
    assert_eq!(last_lines(name, Some(&split_lines(&content)), 10).unwrap(), expected);
    let mut cursor = TailCursor::at_end(0);
    assert_eq!(cursor.advance(name, &content.clone().into_bytes()), expected);
    assert_eq!(cursor.pos, content.len() as u64);
}
