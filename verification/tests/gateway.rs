use prom_rs::command::Command;
use prom_rs::gateway::{
    begin_query, format_reply, is_reply_for, reject, step, Body, Event, Progress, QueryError,
};
use prom_rs::manager::{fetch_data, process_command, Outcome};
use prom_rs::storage::Storage;

fn json(points: &[(i64, String)]) -> String {
    let numbers: Vec<(i64, f64)> =
        points.iter().map(|(t, v)| (*t, v.parse::<f64>().unwrap())).collect();
    serde_json::to_string(&numbers).unwrap()
}

#[test]
fn request_without_a_key_is_unprocessable() {
    match begin_query(None, 1) {
        Err(error) => {
            assert_eq!(error, QueryError::MissingKey);
            assert_eq!(error.status(), 422);
            let response = reject(error);
            assert_eq!(response.status, 422);
            assert!(matches!(response.body, Body::Empty));
        }
        Ok(query) => panic!("unexpected query {:?}", query),
    }
}

#[test]
fn request_with_a_key_becomes_a_query() {
    match begin_query(Some("up".to_string()), 9) {
        Ok(Command::Query(name, token)) => {
            assert_eq!(name, "up");
            assert_eq!(token, 9);
        }
        other => panic!("unexpected result {:?}", other),
    }
}

#[test]
fn unknown_metric_is_an_empty_success() {
    let mut storage = Storage::new();
    let query = begin_query(Some("missing_metric".to_string()), 4).unwrap();
    let reply = match process_command(query, &mut storage) {
        Outcome::Answer(reply) => reply,
        other => panic!("unexpected outcome {:?}", other),
    };
    match step(4, Event::Message(reply)) {
        Progress::Done(response) => {
            assert_eq!(response.status, 200);
            match response.body {
                Body::Series(points) => assert_eq!(json(&points), "[]"),
                other => panic!("unexpected body {:?}", other),
            }
        }
        Progress::Waiting => panic!("the answer was passed over"),
    }
}

#[test]
fn known_metric_is_rendered_as_pairs() {
    let mut storage = Storage::new();
    storage.store_at("up 1".to_string(), 1700000000).unwrap();
    storage.store_at("up 0.5".to_string(), 1700000005).unwrap();
    let response = format_reply(fetch_data(&storage, "up".to_string(), 1));
    assert_eq!(response.status, 200);
    match response.body {
        Body::Series(points) => {
            assert_eq!(json(&points), "[[1700000000,1.0],[1700000005,0.5]]")
        }
        other => panic!("unexpected body {:?}", other),
    }
}

#[test]
fn other_messages_are_acknowledged() {
    let response = format_reply(Command::Query("up".to_string(), 1));
    assert_eq!(response.status, 200);
    match response.body {
        Body::Text(text) => assert_eq!(text, "ok"),
        other => panic!("unexpected body {:?}", other),
    }
    let response = format_reply(Command::Store(vec!["up 1".to_string()]));
    assert!(matches!(response.body, Body::Text(_)));
}

#[test]
fn failures_are_server_errors() {
    assert_eq!(QueryError::BusUnavailable.status(), 500);
    assert_eq!(QueryError::Timeout.status(), 500);
    assert_eq!(reject(QueryError::Timeout).status, 500);
    match step(1, Event::TimedOut) {
        Progress::Done(response) => assert_eq!(response.status, 500),
        Progress::Waiting => panic!("still waiting after the timeout"),
    }
    match step(1, Event::Closed) {
        Progress::Done(response) => assert_eq!(response.status, 500),
        Progress::Waiting => panic!("still waiting on a closed stream"),
    }
}

#[test]
fn only_the_result_with_the_token_is_accepted() {
    let points = vec![(1, "2".to_string())];
    assert!(is_reply_for(&Command::QueryResults(7, points.clone()), 7));
    assert!(!is_reply_for(&Command::QueryResults(8, points.clone()), 7));
    assert!(!is_reply_for(&Command::Query("up".to_string(), 7), 7));
    assert!(!is_reply_for(&Command::Store(vec!["up 1".to_string()]), 7));
    match step(7, Event::Message(Command::QueryResults(7, points.clone()))) {
        Progress::Done(response) => match response.body {
            Body::Series(got) => assert_eq!(got, points),
            other => panic!("unexpected body {:?}", other),
        },
        Progress::Waiting => panic!("the answer was passed over"),
    }
    assert!(matches!(step(7, Event::Message(Command::QueryResults(8, points))), Progress::Waiting));
    assert!(matches!(step(7, Event::Message(Command::Query("a".to_string(), 7))), Progress::Waiting));
}

#[test]
fn concurrent_queries_get_their_own_series() {
    let mut storage = Storage::new();
    storage.store_at("a 1".to_string(), 1).unwrap();
    storage.store_at("b 2".to_string(), 2).unwrap();
    let ask_a = begin_query(Some("a".to_string()), 100).unwrap();
    let ask_b = begin_query(Some("b".to_string()), 101).unwrap();
    let mut stream: Vec<Command> = vec![ask_a.clone(), ask_b.clone()];
    for query in [ask_b, ask_a] {
        if let Outcome::Answer(reply) = process_command(query, &mut storage) {
            stream.push(reply);
        }
    }
    for (token, expected) in [(100u64, "1"), (101u64, "2")] {
        let mut got = None;
        for message in stream.iter().cloned() {
            if let Progress::Done(response) = step(token, Event::Message(message)) {
                got = Some(response);
                break;
            }
        }
        let response = got.unwrap();
        assert_eq!(response.status, 200);
        match response.body {
            Body::Series(points) => {
                assert_eq!(points.len(), 1);
                assert_eq!(points[0].1, expected);
            }
            other => panic!("unexpected body {:?}", other),
        }
    }
}
