//! The owner of the store: the one place where commands are applied.
//!
//! Whoever drains the bus hands each command to [`process_command`], in the
//! order of arrival, together with the store that it alone holds. A batch is
//! stored line by line, and a line that says nothing is reported and skipped
//! without holding up the lines after it. A query is answered with a message
//! that carries the query's token; sending that message is left to the
//! caller.

use vstd::prelude::*;
use crate::command::{lines_view, Command, Message};
use crate::metrics::parse_line;
use crate::storage::{rejection, series_of, stored, Storage};
use crate::storage_error::{Rejection, StorageError};

verus! {

/// What became of a batch.
#[derive(Debug)]
pub struct BatchReport {
    /// How many lines gave a sample that was stored.
    pub stored: usize,
    /// The lines that said nothing, in the order of the batch.
    pub rejected: Vec<StorageError>,
}

/// What applying a command has led to.
#[derive(Debug)]
pub enum Outcome {
    /// A batch was stored, with this report.
    Stored(BatchReport),
    /// A query was answered; the message is to be published.
    Answer(Command),
    /// The message was no command for the owner of the store.
    Ignored,
}

/// The reports of a batch as specifications see them.
pub open spec fn rejected_view(rejected: Seq<StorageError>) -> Seq<Rejection> {
    rejected.map_values(|e: StorageError| e@)
}

/// The store after the lines of a batch have been offered to it one after
/// the other, the line at position `i` at time `stamps[i]`.
pub open spec fn ingested(
    store: Map<Seq<char>, Seq<(i64, Seq<char>)>>,
    lines: Seq<Seq<char>>,
    stamps: Seq<i64>,
) -> Map<Seq<char>, Seq<(i64, Seq<char>)>>
    decreases lines.len(),
{
    if lines.len() == 0 {
        store
    } else {
        stored(
            ingested(store, lines.drop_last(), stamps.drop_last()),
            lines.last(),
            stamps.last(),
        )
    }
}

/// The reports of the lines of a batch that say nothing, in batch order.
pub open spec fn rejections(lines: Seq<Seq<char>>) -> Seq<Rejection>
    decreases lines.len(),
{
    if lines.len() == 0 {
        Seq::empty()
    } else if parse_line(lines.last()) is None {
        rejections(lines.drop_last()).push(rejection(lines.last()))
    } else {
        rejections(lines.drop_last())
    }
}

/// The message that answers the query for `name` that carries `token`.
pub open spec fn answer(
    store: Map<Seq<char>, Seq<(i64, Seq<char>)>>,
    name: Seq<char>,
    token: u64,
) -> Message {
    Message::QueryResults(token, series_of(store, name))
}

/// Stores a batch of lines, each stamped with the time at which it is read.
///
/// Every line that says something adds its sample, in batch order; every
/// other line is reported, and the batch goes on.
pub fn store_data(storage: &mut Storage, commands: Vec<String>) -> (report: BatchReport)
    requires
        old(storage).well_formed(),
    ensures
        final(storage).well_formed(),
        exists|stamps: Seq<i64>|
            stamps.len() == commands@.len() && final(storage)@ == ingested(
                old(storage)@,
                lines_view(commands@),
                stamps,
            ),
        rejected_view(report.rejected@) == rejections(lines_view(commands@)),
        report.stored + report.rejected@.len() == commands@.len(),
{
    let ghost lines = lines_view(commands@);
    let ghost mut stamps: Seq<i64> = Seq::empty();
    let mut stored_lines: usize = 0;
    let mut rejected: Vec<StorageError> = Vec::new();
    let mut i: usize = 0;
    assert(lines.take(0) == Seq::<Seq<char>>::empty());
    assert(rejected_view(rejected@) == Seq::<Rejection>::empty());
    while i < commands.len()
        invariant
            i <= commands@.len(),
            lines == lines_view(commands@),
            storage.well_formed(),
            stamps.len() == i,
            storage@ == ingested(old(storage)@, lines.take(i as int), stamps),
            rejected_view(rejected@) == rejections(lines.take(i as int)),
            stored_lines + rejected@.len() == i,
        decreases commands@.len() - i,
    {
        let ghost before = storage@;
        let ghost head = lines.take(i + 1);
        assert(head.drop_last() == lines.take(i as int));
        assert(head.last() == commands@[i as int]@);
        match storage.store(commands[i].clone()) {
            Ok(_) => {
                proof {
                    let stamp = choose|stamp: i64| storage@ == stored(before, head.last(), stamp);
                    assert(stamps.push(stamp).drop_last() == stamps);
                    stamps = stamps.push(stamp);
                }
                stored_lines += 1;
            },
            Err(e) => {
                proof {
                    assert(stamps.push(0).drop_last() == stamps);
                    stamps = stamps.push(0);
                    assert(rejected_view(rejected@.push(e)) == rejected_view(rejected@).push(e@));
                }
                rejected.push(e);
            },
        }
        i += 1;
    }
    assert(lines.take(i as int) == lines);
    BatchReport { stored: stored_lines, rejected }
}

/// Answers a query: the series of the name, under the token of the query.
pub fn fetch_data(storage: &Storage, query: String, token: u64) -> (reply: Command)
    requires
        storage.well_formed(),
    ensures
        reply@ == answer(storage@, query@, token),
{
    Command::QueryResults(token, storage.query(query))
}

/// Applies one command to the store.
///
/// A batch changes the store as [`store_data`] says; a query leaves it as it
/// is and is answered; a result, which is addressed to a requester and not
/// to the owner of the store, is ignored.
pub fn process_command(cmd: Command, storage: &mut Storage) -> (outcome: Outcome)
    requires
        old(storage).well_formed(),
    ensures
        final(storage).well_formed(),
        match cmd@ {
            Message::Store(lines) => {
                &&& outcome matches Outcome::Stored(report)
                &&& exists|stamps: Seq<i64>|
                    stamps.len() == lines.len() && final(storage)@ == ingested(
                        old(storage)@,
                        lines,
                        stamps,
                    )
                &&& rejected_view(report.rejected@) == rejections(lines)
                &&& report.stored + report.rejected@.len() == lines.len()
            },
            Message::Query(name, token) => {
                &&& final(storage)@ == old(storage)@
                &&& outcome matches Outcome::Answer(reply)
                &&& reply@ == answer(old(storage)@, name, token)
            },
            Message::QueryResults(_, _) => {
                &&& final(storage)@ == old(storage)@
                &&& outcome is Ignored
            },
        },
{
    match cmd {
        Command::Store(batch) => Outcome::Stored(store_data(storage, batch)),
        Command::Query(query, token) => Outcome::Answer(fetch_data(storage, query, token)),
        Command::QueryResults(_, _) => Outcome::Ignored,
    }
}

/// A lookup gives the same series again as long as nothing is stored under
/// its name: a batch none of whose lines is filed under `name` leaves the
/// series of `name` as it was, at whatever times its lines are read.
pub proof fn lemma_lookup_is_stable(
    store: Map<Seq<char>, Seq<(i64, Seq<char>)>>,
    lines: Seq<Seq<char>>,
    stamps: Seq<i64>,
    name: Seq<char>,
)
    requires
        stamps.len() == lines.len(),
        forall|i: int|
            0 <= i < lines.len() && parse_line(#[trigger] lines[i]) is Some ==> parse_line(
                lines[i],
            ).unwrap().key() != name,
    ensures
        series_of(ingested(store, lines, stamps), name) == series_of(store, name),
    decreases lines.len(),
{
    if lines.len() > 0 {
        assert forall|i: int|
            0 <= i < lines.drop_last().len() && parse_line(
                #[trigger] lines.drop_last()[i],
            ) is Some implies parse_line(lines.drop_last()[i]).unwrap().key() != name by {
            assert(lines.drop_last()[i] == lines[i]);
        }
        lemma_lookup_is_stable(store, lines.drop_last(), stamps.drop_last(), name);
        assert(lines.last() == lines[lines.len() - 1]);
    }
}

} // verus!
