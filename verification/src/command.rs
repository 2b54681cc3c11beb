//! The messages that travel on the command bus.

use vstd::prelude::*;
use vstd::string::StringExecFns;
use crate::storage::points_view;
use crate::text::{decimal, decimal_text};

verus! {

/// A message on the bus.
///
/// A query carries the token of the request that asked it, and the result
/// that answers it carries the same token, so that an answer can be told from
/// the answers to other requests that are in flight.
#[derive(Debug, Clone)]
pub enum Command {
    /// A batch of raw lines to be read and stored.
    Store(Vec<String>),
    /// A request for the series of a name, with the token of the request.
    Query(String, u64),
    /// The series that answers the query with the given token.
    QueryResults(u64, Vec<(i64, String)>),
}

/// A [`Command`] as specifications see it.
pub enum Message {
    Store(Seq<Seq<char>>),
    Query(Seq<char>, u64),
    QueryResults(u64, Seq<(i64, Seq<char>)>),
}

/// The lines of a batch as character sequences.
pub open spec fn lines_view(lines: Seq<String>) -> Seq<Seq<char>> {
    lines.map_values(|line: String| line@)
}

impl View for Command {
    type V = Message;

    open spec fn view(&self) -> Message {
        match self {
            Command::Store(lines) => Message::Store(lines_view(lines@)),
            Command::Query(name, token) => Message::Query(name@, *token),
            Command::QueryResults(token, points) => Message::QueryResults(
                *token,
                points_view(points@),
            ),
        }
    }
}

/// The one-line description of a message, as it appears in a log.
pub open spec fn description(message: Message) -> Seq<char> {
    match message {
        Message::Store(lines) => "STORE "@ + decimal(lines.len()) + " metrics"@,
        Message::Query(name, _) => "QUERY "@ + name,
        Message::QueryResults(_, points) => "QUERY RESULTS - Returning "@ + decimal(points.len())
            + " metrics"@,
    }
}

impl Command {
    /// Describes the message in one line.
    pub fn describe(&self) -> (text: String)
        ensures
            text@ == description(self@),
    {
        match self {
            Command::Store(lines) => {
                let mut text = "STORE ".to_owned();
                text.append(decimal_text(lines.len()).as_str());
                text.append(" metrics");
                text
            },
            Command::Query(name, _) => {
                let mut text = "QUERY ".to_owned();
                text.append(name.as_str());
                text
            },
            Command::QueryResults(_, points) => {
                let mut text = "QUERY RESULTS - Returning ".to_owned();
                text.append(decimal_text(points.len()).as_str());
                text.append(" metrics");
                text
            },
        }
    }
}

} // verus!
