use prom_rs::command::Command;
use prom_rs::manager::store_data;
use prom_rs::scrape::{batch_of, payload_lines};
use prom_rs::storage::Storage;
use prom_rs::text::{decimal_text, is_whitespace, to_chars, token_spans};

fn same_as_std(payload: &str) {
    let expected: Vec<String> = payload.lines().map(|line| line.to_string()).collect();
    assert_eq!(payload_lines(payload), expected, "{:?}", payload);
}

#[test]
fn payload_is_split_at_line_feeds() {
    assert_eq!(payload_lines("a 1\nb 2\n"), vec!["a 1", "b 2"]);
    assert_eq!(payload_lines("a 1\nb 2"), vec!["a 1", "b 2"]);
    assert_eq!(payload_lines("a 1\r\nb 2\r\n"), vec!["a 1", "b 2"]);
    assert_eq!(payload_lines("a 1\n\nb 2"), vec!["a 1", "", "b 2"]);
    assert_eq!(payload_lines("foo\nbar\n\r\nbaz\r"), vec!["foo", "bar", "", "baz\r"]);
    assert!(payload_lines("").is_empty());
    assert_eq!(payload_lines("\n"), vec![""]);
}

#[test]
fn payload_lines_agree_with_the_standard_library() {
    for payload in [
        "", "\n", "\r", "\r\n", "\n\n", "\r\r\n", "a", "a\r", "a\n", "a\r\n", "a\n\r", "a\r\nb",
        "a\rb\nc", "\n\na\n\n", "é 1\nü 2\r\n", "a\r\r\nb", "x\n\r\ny\r",
    ] {
        same_as_std(payload);
    }
}

#[test]
fn scraped_payload_is_stored_as_one_batch() {
    let payload = "# HELP node_load1 1m load average.\n# TYPE node_load1 gauge\nnode_load1 0.52\nnode_cpu_seconds_total{cpu=\"0\",mode=\"idle\"} 1234.5\n";
    let mut storage = Storage::new();
    let report = store_data(&mut storage, payload_lines(payload));
    assert_eq!(report.stored, 2);
    assert_eq!(report.rejected.len(), 2);
    assert_eq!(storage.query("node_load1".to_string()).len(), 1);
    assert_eq!(storage.query("node_cpu_seconds_total".to_string())[0].1, "1234.5");
}

#[test]
fn whitespace_is_what_the_standard_library_says() {
    for code in 0u32..0x11000 {
        if let Some(c) = char::from_u32(code) {
            assert_eq!(is_whitespace(c), c.is_whitespace(), "{:x}", code);
        }
    }
}

#[test]
fn tokens_are_split_as_the_standard_library_splits() {
    for line in ["", " ", "a", " a ", "a b", "\ta\u{2003}b  c\n", "é\u{3000}ü", "a\u{85}b\u{a0}c"] {
        let chars = to_chars(line);
        let tokens: Vec<String> =
            token_spans(&chars).into_iter().map(|(a, b)| chars[a..b].iter().collect()).collect();
        let expected: Vec<String> = line.split_whitespace().map(|t| t.to_string()).collect();
        assert_eq!(tokens, expected, "{:?}", line);
    }
}

#[test]
fn characters_are_copied_by_position() {
    let chars = to_chars("aé😀b");
    assert_eq!(chars, vec!['a', 'é', '😀', 'b']);
    assert_eq!(to_chars(""), Vec::<char>::new());
    let metric = prom_rs::metrics::Metric::parse_at("aé😀b{é=\"😀\",k=\"é😀\"} 1", 0).unwrap();
    assert_eq!(metric.name, "aé😀b");
    assert_eq!(metric.labels[1], ("k".to_string(), "é😀".to_string()));
}

#[test]
fn numbers_are_written_in_decimal() {
    assert_eq!(decimal_text(0), "0");
    assert_eq!(decimal_text(9), "9");
    assert_eq!(decimal_text(10), "10");
    assert_eq!(decimal_text(1234567890), "1234567890");
    assert_eq!(decimal_text(usize::MAX), usize::MAX.to_string());
}

#[test]
fn only_a_successful_fetch_brings_a_batch() {
    match batch_of(200, "a 1\nb 2\n") {
        Some(Command::Store(lines)) => assert_eq!(lines, vec!["a 1", "b 2"]),
        other => panic!("unexpected batch {:?}", other),
    }
    match batch_of(200, "") {
        Some(Command::Store(lines)) => assert!(lines.is_empty()),
        other => panic!("unexpected batch {:?}", other),
    }
    for status in [0u16, 100, 199, 201, 204, 301, 404, 500, 503, u16::MAX] {
        assert!(batch_of(status, "a 1\n").is_none(), "{}", status);
    }
}

fn texts_over(alphabet: &[char], longest: usize) -> Vec<String> {
    let mut all = vec![String::new()];
    let mut last = vec![String::new()];
    for _ in 0..longest {
        let mut next = Vec::new();
        for word in &last {
            for c in alphabet {
                let mut longer = word.clone();
                longer.push(*c);
                next.push(longer);
            }
        }
        all.extend(next.iter().cloned());
        last = next;
    }
    all
}

#[test]
fn every_short_payload_is_split_as_the_standard_library_splits() {
    for payload in texts_over(&['a', '\r', '\n'], 8) {
        same_as_std(&payload);
    }
}

#[test]
fn every_short_line_is_tokenised_as_the_standard_library_tokenises() {
    for line in texts_over(&['a', 'b', ' ', '\t', '\u{2028}'], 6) {
        let chars = to_chars(&line);
        let tokens: Vec<String> =
            token_spans(&chars).into_iter().map(|(a, b)| chars[a..b].iter().collect()).collect();
        let expected: Vec<String> = line.split_whitespace().map(|t| t.to_string()).collect();
        assert_eq!(tokens, expected, "{:?}", line);
    }
}
