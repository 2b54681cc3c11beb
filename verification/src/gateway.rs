//! The decisions of the query endpoint.
//!
//! A request for a series becomes a query that carries a token of its own.
//! The handler then reads the shared stream of messages and takes the first
//! result that carries its token; results for other requests pass it by.
//! The waiting, the timeout and the sending are the caller's; what to send,
//! what to take and what to answer is decided here.

use vstd::prelude::*;
use crate::command::{Command, Message};
use crate::manager::answer;
use crate::storage::{points_view, series_of};

verus! {

/// Why a request did not get its series.
#[derive(Debug, Clone, Copy, PartialEq, Eq, Structural)]
pub enum QueryError {
    /// The request named no metric.
    MissingKey,
    /// The query could not be put on the bus.
    BusUnavailable,
    /// No result came in time.
    Timeout,
}

/// What the body of a response holds.
#[derive(Debug)]
pub enum Body {
    /// The points of a series, to be written as an array of pairs.
    Series(Vec<(i64, String)>),
    /// A plain acknowledgement.
    Text(String),
    /// Nothing.
    Empty,
}

/// A response to a request: a status code and a body.
#[derive(Debug)]
pub struct Response {
    pub status: u16,
    pub body: Body,
}

/// What a handler does after it has looked at a message or learnt of a
/// failure.
#[derive(Debug)]
pub enum Progress {
    /// The message was not the awaited result: keep reading.
    Waiting,
    /// The request is over, with this response.
    Done(Response),
}

/// What a handler may learn while it waits.
#[derive(Debug)]
pub enum Event {
    /// A message arrived on the shared stream.
    Message(Command),
    /// The time allowed for the answer has run out.
    TimedOut,
    /// The stream has ended.
    Closed,
}

/// A [`Body`] as specifications see it.
pub enum Content {
    Series(Seq<(i64, Seq<char>)>),
    Text(Seq<char>),
    Empty,
}

impl View for Body {
    type V = Content;

    open spec fn view(&self) -> Content {
        match self {
            Body::Series(points) => Content::Series(points_view(points@)),
            Body::Text(text) => Content::Text(text@),
            Body::Empty => Content::Empty,
        }
    }
}

/// The status code that tells the client of an error.
pub open spec fn status_of(error: QueryError) -> u16 {
    match error {
        QueryError::MissingKey => 422,
        QueryError::BusUnavailable => 500,
        QueryError::Timeout => 500,
    }
}

/// The series that `message` brings to the handler that waits for `token`,
/// if it brings one.
pub open spec fn answer_for(message: Message, token: u64) -> Option<Seq<(i64, Seq<char>)>> {
    match message {
        Message::QueryResults(to, points) => if to == token {
            Some(points)
        } else {
            None
        },
        _ => None,
    }
}

/// The series that the handler that waits for `token` ends up with when it
/// reads `stream` from the front: that of the first result with its token.
pub open spec fn first_answer(stream: Seq<Message>, token: u64) -> Option<Seq<(i64, Seq<char>)>>
    decreases stream.len(),
{
    if stream.len() == 0 {
        None
    } else if answer_for(stream[0], token) is Some {
        answer_for(stream[0], token)
    } else {
        first_answer(stream.skip(1), token)
    }
}

/// The results that the owner of the store publishes for a run of queries,
/// each a name and a token.
pub open spec fn answers(
    store: Map<Seq<char>, Seq<(i64, Seq<char>)>>,
    queries: Seq<(Seq<char>, u64)>,
) -> Seq<Message> {
    queries.map_values(|query: (Seq<char>, u64)| answer(store, query.0, query.1))
}

impl QueryError {
    /// The status code that tells the client of this error.
    pub fn status(&self) -> (code: u16)
        ensures
            code == status_of(*self),
    {
        match self {
            QueryError::MissingKey => 422,
            QueryError::BusUnavailable => 500,
            QueryError::Timeout => 500,
        }
    }
}

/// Turns a request into the query to publish.
///
/// A request without a name is refused at once, and nothing is to be
/// published for it.
pub fn begin_query(key: Option<String>, token: u64) -> (r: Result<Command, QueryError>)
    ensures
        match key {
            Some(name) => r matches Ok(query) && query@ == Message::Query(name@, token),
            None => r == Err::<Command, QueryError>(QueryError::MissingKey),
        },
{
    match key {
        Some(name) => Ok(Command::Query(name, token)),
        None => Err(QueryError::MissingKey),
    }
}

/// Tells whether a message is the result that carries `token`.
pub fn is_reply_for(message: &Command, token: u64) -> (r: bool)
    ensures
        r == (answer_for(message@, token) is Some),
{
    match message {
        Command::QueryResults(to, _) => *to == token,
        _ => false,
    }
}

/// The response that refuses a request.
pub fn reject(error: QueryError) -> (response: Response)
    ensures
        response.status == status_of(error),
        response.body@ == Content::Empty,
{
    Response { status: error.status(), body: Body::Empty }
}

/// The response that delivers a message to the client: the series of a
/// result, and a plain `ok` for any other message.
pub fn format_reply(metrics: Command) -> (response: Response)
    ensures
        response.status == 200,
        response.body@ == match metrics@ {
            Message::QueryResults(_, points) => Content::Series(points),
            _ => Content::Text("ok"@),
        },
{
    match metrics {
        Command::QueryResults(_, points) => Response { status: 200, body: Body::Series(points) },
        _ => Response { status: 200, body: Body::Text("ok".to_owned()) },
    }
}

/// Decides what a waiting handler does next.
///
/// The result that carries the handler's token ends the request with its
/// series. Every other message is passed over. A timeout or the end of the
/// stream ends the request with a server error.
pub fn step(token: u64, event: Event) -> (progress: Progress)
    ensures
        match event {
            Event::Message(message) => match answer_for(message@, token) {
                Some(points) => {
                    &&& progress matches Progress::Done(response)
                    &&& response.status == 200
                    &&& response.body@ == Content::Series(points)
                },
                None => progress is Waiting,
            },
            Event::TimedOut => {
                &&& progress matches Progress::Done(response)
                &&& response.status == 500
                &&& response.body@ == Content::Empty
            },
            Event::Closed => {
                &&& progress matches Progress::Done(response)
                &&& response.status == 500
                &&& response.body@ == Content::Empty
            },
        },
{
    match event {
        Event::Message(message) => if is_reply_for(&message, token) {
            Progress::Done(format_reply(message))
        } else {
            Progress::Waiting
        },
        Event::TimedOut => Progress::Done(reject(QueryError::Timeout)),
        Event::Closed => Progress::Done(reject(QueryError::BusUnavailable)),
    }
}

/// A handler takes from a shared stream its own answer and no other: if
/// every result in the stream that carries its token is the answer to its
/// query, and that answer is in the stream, then that answer is what it ends
/// up with, whatever else the stream holds and in whatever order.
pub proof fn lemma_first_answer_is_own(
    stream: Seq<Message>,
    token: u64,
    own: Seq<(i64, Seq<char>)>,
)
    requires
        forall|i: int|
            0 <= i < stream.len() && answer_for(#[trigger] stream[i], token) is Some
                ==> answer_for(stream[i], token) == Some(own),
        exists|i: int| 0 <= i < stream.len() && answer_for(#[trigger] stream[i], token) is Some,
    ensures
        first_answer(stream, token) == Some(own),
    decreases stream.len(),
{
    if answer_for(stream[0], token) is None {
        let rest = stream.skip(1);
        let i = choose|i: int| 0 <= i < stream.len() && answer_for(#[trigger] stream[i], token) is Some;
        assert(rest[i - 1] == stream[i]);
        assert forall|j: int|
            0 <= j < rest.len() && answer_for(#[trigger] rest[j], token) is Some implies answer_for(
            rest[j],
            token,
        ) == Some(own) by {
            assert(rest[j] == stream[j + 1]);
        }
        lemma_first_answer_is_own(rest, token, own);
    }
}

/// Queries that are in flight together do not get each other's answers: when
/// the owner of the store answers a run of queries whose tokens differ from
/// one another, the handler of each query takes from the shared stream of
/// results the series of the name that it asked for.
pub proof fn lemma_answers_reach_their_askers(
    store: Map<Seq<char>, Seq<(i64, Seq<char>)>>,
    queries: Seq<(Seq<char>, u64)>,
    k: int,
)
    requires
        0 <= k < queries.len(),
        forall|i: int, j: int|
            0 <= i < j < queries.len() ==> (#[trigger] queries[i]).1 != (#[trigger] queries[j]).1,
    ensures
        first_answer(answers(store, queries), queries[k].1) == Some(series_of(store, queries[k].0)),
{
    let stream = answers(store, queries);
    let token = queries[k].1;
    let own = series_of(store, queries[k].0);
    assert(answer_for(stream[k], token) == Some(own));
    assert forall|i: int|
        0 <= i < stream.len() && answer_for(#[trigger] stream[i], token) is Some implies answer_for(
        stream[i],
        token,
    ) == Some(own) by {
        if i < k {
            assert(queries[i].1 != queries[k].1);
        } else if k < i {
            assert(queries[k].1 != queries[i].1);
        }
    }
    lemma_first_answer_is_own(stream, token, own);
}

} // verus!
