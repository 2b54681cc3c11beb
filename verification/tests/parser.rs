use prom_rs::metrics::Metric;
use prom_rs::number::is_float_literal;

fn literal(text: &str) -> bool {
    let chars: Vec<char> = text.chars().collect();
    is_float_literal(&chars)
}

fn label(key: &str, value: &str) -> (String, String) {
    (key.to_string(), value.to_string())
}

#[test]
fn plain_line_gives_name_and_value() {
    let metric = Metric::parse_at("up 1", 1700000000).unwrap();
    assert_eq!(metric.name, "up");
    assert_eq!(metric.value, "1");
    assert_eq!(metric.value.parse::<f64>().unwrap(), 1.0);
    assert_eq!(metric.timestamp, 1700000000);
    assert_eq!(metric.labels, vec![label("__name__", "up")]);
}

#[test]
fn plain_line_ignores_tokens_after_the_value() {
    let metric = Metric::parse_at("node_load1 0.52 1700000123000", 5).unwrap();
    assert_eq!(metric.name, "node_load1");
    assert_eq!(metric.value, "0.52");
    assert_eq!(metric.timestamp, 5);
}

#[test]
fn plain_line_skips_surrounding_whitespace() {
    let metric = Metric::parse_at("  \tup \u{00a0}  2.5e3  ", 9).unwrap();
    assert_eq!(metric.name, "up");
    assert_eq!(metric.value, "2.5e3");
    assert_eq!(metric.value.parse::<f64>().unwrap(), 2500.0);
}

#[test]
fn plain_line_takes_any_token_as_name() {
    let metric = Metric::parse_at("job:rate-5m.total 7", 0).unwrap();
    assert_eq!(metric.name, "job:rate-5m.total");
    assert_eq!(metric.labels, vec![label("__name__", "job:rate-5m.total")]);
}

#[test]
fn labelled_line_gives_labels_in_order() {
    let metric = Metric::parse_at("http_requests_total{method=\"GET\"} 42", 3).unwrap();
    assert_eq!(metric.name, "http_requests_total");
    assert_eq!(metric.value.parse::<f64>().unwrap(), 42.0);
    assert_eq!(metric.timestamp, 3);
    assert_eq!(
        metric.labels,
        vec![label("__name__", "http_requests_total"), label("method", "GET")]
    );
}

#[test]
fn labelled_line_with_several_labels() {
    let line = "http_requests_total{method=\"POST\", code=\"200\",handler=\"/api/{id}\"} 1027";
    let metric = Metric::parse_at(line, 3).unwrap();
    assert_eq!(metric.name, "http_requests_total");
    assert_eq!(metric.value, "1027");
    assert_eq!(
        metric.labels,
        vec![
            label("__name__", "http_requests_total"),
            label("method", "POST"),
            label("code", "200"),
            label("handler", "/api/{id}"),
        ]
    );
}

#[test]
fn labelled_line_with_empty_braces() {
    let metric = Metric::parse_at("up{} 1", 3).unwrap();
    assert_eq!(metric.name, "up");
    assert_eq!(metric.value, "1");
    assert_eq!(metric.labels, vec![label("__name__", "up")]);
}

#[test]
fn labelled_line_takes_the_rightmost_numeric_token() {
    let metric = Metric::parse_at("rpc_total{service=\"a\"} 12 1700000000", 3).unwrap();
    assert_eq!(metric.value, "1700000000");
    let metric = Metric::parse_at("rpc_total{service=\"a\"} 12 seconds", 3).unwrap();
    assert_eq!(metric.value, "12");
}

#[test]
fn labelled_line_ignores_numbers_inside_the_braces() {
    assert!(Metric::parse_at("rpc_total{le=\"0.5 1 \"} up", 3).is_none());
    let metric = Metric::parse_at("rpc_total{le=\"0.5 1 \"} 4", 3).unwrap();
    assert_eq!(metric.value, "4");
    assert_eq!(metric.labels, vec![label("__name__", "rpc_total"), label("le", "0.5 1 ")]);
}

#[test]
fn labelled_line_needs_a_value_token_of_its_own() {
    assert!(Metric::parse_at("up{a=\"b\"}1", 3).is_none());
    assert!(Metric::parse_at("up{a=\"b\"}", 3).is_none());
    assert!(Metric::parse_at("up{a=\"b\"} x", 3).is_none());
}

#[test]
fn labelled_line_with_broken_braces_is_rejected() {
    assert!(Metric::parse_at("up{a=\"b\" 1", 3).is_none());
    assert!(Metric::parse_at("up a=\"b\"} 1", 3).is_none());
    assert!(Metric::parse_at("up}a=\"b\"{ 1", 3).is_none());
    assert!(Metric::parse_at("{a=\"b\"} 1", 3).is_none());
}

#[test]
fn labelled_line_skips_what_is_no_pair() {
    let metric = Metric::parse_at("up{a=\"1\", b=2, c=\"3, =\"4\", d_9=\"\"} 1", 3).unwrap();
    assert_eq!(
        metric.labels,
        vec![label("__name__", "up"), label("a", "1"), label("c", "3, ="), label("d_9", "")]
    );
}

#[test]
fn labelled_line_may_repeat_the_name_label() {
    let metric = Metric::parse_at("up{__name__=\"down\"} 1", 3).unwrap();
    assert_eq!(metric.name, "up");
    assert_eq!(metric.labels, vec![label("__name__", "up"), label("__name__", "down")]);
    assert_eq!(metric.key(), "up");
}

#[test]
fn comment_lines_are_rejected() {
    assert!(Metric::parse_at("# HELP up 1", 3).is_none());
    assert!(Metric::parse_at("#up 1", 3).is_none());
    assert!(Metric::parse_at("# 5", 3).is_none());
    assert!(Metric::parse_at("#up{a=\"b\"} 1", 3).is_none());
}

#[test]
fn lines_with_fewer_than_two_tokens_are_rejected() {
    assert!(Metric::parse_at("", 3).is_none());
    assert!(Metric::parse_at("   ", 3).is_none());
    assert!(Metric::parse_at("up", 3).is_none());
    assert!(Metric::parse_at("  up  ", 3).is_none());
}

#[test]
fn lines_with_a_value_that_is_no_number_are_rejected() {
    assert!(Metric::parse_at("bad line", 3).is_none());
    assert!(Metric::parse_at("up 1x", 3).is_none());
    assert!(Metric::parse_at("up 0x10", 3).is_none());
    assert!(Metric::parse_at("up 1_000", 3).is_none());
    assert!(Metric::parse_at("up one 1", 3).is_none());
}

#[test]
fn from_str_stamps_with_the_clock() {
    let before = chrono::Utc::now().timestamp();
    let metric = Metric::from_str("up 1").unwrap();
    let after = chrono::Utc::now().timestamp();
    assert_eq!(metric.name, "up");
    assert_eq!(metric.value, "1");
    assert!(before <= metric.timestamp && metric.timestamp <= after);
    assert!(metric.timestamp > 1_600_000_000);
    assert!(Metric::from_str("up").is_none());
    assert!(Metric::from_str("# up 1").is_none());
}

#[test]
fn key_is_the_first_name_label_or_the_name() {
    let bare = Metric { name: "a".to_string(), value: "1".to_string(), timestamp: 0, labels: vec![] };
    assert_eq!(bare.key(), "a");
    let other = Metric {
        name: "a".to_string(),
        value: "1".to_string(),
        timestamp: 0,
        labels: vec![label("job", "x"), label("__name__", "b"), label("__name__", "c")],
    };
    assert_eq!(other.key(), "b");
}

#[test]
fn into_point_keeps_time_and_value() {
    let metric = Metric::parse_at("up 1.5", 77).unwrap();
    assert_eq!(metric.into_point(), (77, "1.5".to_string()));
}

#[test]
fn literals_are_what_the_float_parser_accepts() {
    let accepted = [
        "0", "7", "007", "3.14", "-3.14", "+3.14", "2.5E10", "2.5e10", "2.5E-10", "2.5e+10", "5.",
        ".5", "-.5", "1.e5", "inf", "-inf", "+infinity", "NaN", "nan", "INF", "Infinity", "-NAN",
        "1e0", "00.00", "123456789012345678901234567890",
    ];
    for text in accepted {
        assert!(literal(text), "{}", text);
        assert!(text.parse::<f64>().is_ok(), "{}", text);
    }
    let refused = [
        "", "+", "-", ".", "+.", "e5", ".e5", "1e", "1e+", "1e-", "1.5.2", "1_000", "0x10", "1f",
        " 1", "1 ", "in", "infinit", "infinityy", "na", "nanx", "++1", "--1", "1e5.0", "1e5e5",
        "١", "1,5", "∞", "+-1",
    ];
    for text in refused {
        assert!(!literal(text), "{}", text);
        assert!(text.parse::<f64>().is_err(), "{}", text);
    }
}

fn words(alphabet: &[char], longest: usize) -> Vec<String> {
    let mut all = vec![String::new()];
    let mut last = vec![String::new()];
    for _ in 0..longest {
        let mut next = Vec::new();
        for word in &last {
            for c in alphabet {
                let mut longer = word.clone();
                longer.push(*c);
                next.push(longer);
            }
        }
        all.extend(next.iter().cloned());
        last = next;
    }
    all
}

#[test]
fn every_short_token_is_judged_as_the_float_parser_judges() {
    let alphabet = ['0', '7', '.', 'e', 'E', '+', '-', 'i', 'n', 'f', 'a', 'N', ' ', '_'];
    for text in words(&alphabet, 5) {
        assert_eq!(literal(&text), text.parse::<f64>().is_ok(), "{:?}", text);
    }
    let letters = ['i', 'n', 'f', 'I', 'N', 'F', 't', 'y', 'T', 'Y', 'a', 'A', '+', '-'];
    for text in words(&letters, 4) {
        assert_eq!(literal(&text), text.parse::<f64>().is_ok(), "{:?}", text);
    }
    for text in [
        "infinity", "INFINITY", "InFiNiTy", "+infinity", "-Infinity", "infinit", "infinityy",
        "infinite", "1e308", "1e-400", "1e400", "0.1e+5", "9999999999999999999999e-9999999999",
        "1E5", "1e５", "１", "1.0f", "0b1", "1e5_", "1__0", "١٢٣",
    ] {
        assert_eq!(literal(text), text.parse::<f64>().is_ok(), "{:?}", text);
    }
}

fn split_and_parse(line: &str) -> Option<(String, String)> {
    if line.starts_with('#') {
        return None;
    }
    let mut tokens = line.split_whitespace();
    let name = tokens.next()?;
    let value = tokens.next()?;
    value.parse::<f64>().ok()?;
    Some((name.to_string(), value.to_string()))
}

#[test]
fn every_short_plain_line_is_read_as_split_and_parse_read_it() {
    for line in words(&['a', '1', '.', ' ', '#', '\t', '-'], 6) {
        let got = Metric::parse_at(&line, 1).map(|m| (m.name, m.value));
        assert_eq!(got, split_and_parse(&line), "{:?}", line);
    }
}

#[test]
fn every_short_labelled_line_keeps_its_parts() {
    for line in words(&['a', '1', ' ', '{', '}', '"', '='], 6) {
        match Metric::parse_at(&line, 1) {
            Some(metric) => {
                assert!(line.contains('{') && line.contains('}') || !line.contains('{') && !line.contains('}'), "{:?}", line);
                assert!(!metric.name.is_empty(), "{:?}", line);
                assert!(line.trim_start().starts_with(metric.name.as_str()), "{:?}", line);
                assert!(metric.value.parse::<f64>().is_ok(), "{:?}", line);
                assert!(line.split_whitespace().skip(1).any(|t| t == metric.value), "{:?}", line);
                assert_eq!(metric.labels[0], ("__name__".to_string(), metric.name.clone()));
                for (key, value) in metric.labels.iter().skip(1) {
                    assert!(line.contains(&format!("{}=\"{}\"", key, value)), "{:?}", line);
                }
            }
            None => {
                if !line.contains('{') && !line.contains('}') {
                    assert_eq!(split_and_parse(&line), None, "{:?}", line);
                }
            }
        }
    }
}
