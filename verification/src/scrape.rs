//! What a scrape brings in: a payload of text, one sample line after another.
//!
//! Fetching is the caller's. A fetch that was answered with anything but
//! success brings nothing, and the next one is tried as if it had not
//! happened; a fetch that succeeded brings one batch, the lines of its
//! payload.

use vstd::prelude::*;
use crate::command::{lines_view, Command, Message};
use crate::text::{exactly, find_char, lemma_scan, next_char, text_of, to_chars};

verus! {

/// The lines of `s` that start at or after `from`.
///
/// A line ends at a line feed, or at the end of the text. Neither the line
/// feed nor a carriage return directly before it belongs to the line. A
/// carriage return at the end of a last line that no line feed closes stays.
pub open spec fn lines_from(s: Seq<char>, from: int) -> Seq<Seq<char>>
    decreases s.len() - from,
{
    if from < 0 || from >= s.len() {
        Seq::empty()
    } else {
        let stop = next_char(s, from, '\n');
        proof {
            lemma_scan(s, from, exactly('\n'));
        }
        if stop >= s.len() {
            seq![s.subrange(from, s.len() as int)]
        } else if from < stop && s[stop - 1] == '\r' {
            seq![s.subrange(from, stop - 1)] + lines_from(s, stop + 1)
        } else {
            seq![s.subrange(from, stop)] + lines_from(s, stop + 1)
        }
    }
}

/// The lines of a payload. A line feed at the very end closes the last line
/// and opens no further one.
pub open spec fn lines_of(s: Seq<char>) -> Seq<Seq<char>> {
    lines_from(s, 0)
}

/// Splits a payload into its lines, which make up one batch.
pub fn payload_lines(payload: &str) -> (lines: Vec<String>)
    ensures
        lines_view(lines@) == lines_of(payload@),
{
    let owned = to_chars(payload);
    let chars = owned.as_slice();
    let mut lines: Vec<String> = Vec::new();
    let mut from: usize = 0;
    assert(lines_view(lines@) == Seq::<Seq<char>>::empty());
    while from < chars.len()
        invariant
            from <= chars@.len(),
            chars@ == payload@,
            lines_of(chars@) == lines_view(lines@) + lines_from(chars@, from as int),
        decreases chars@.len() - from,
    {
        let stop: usize = find_char(chars, from, '\n');
        let end: usize = if stop < chars.len() && from < stop && chars[stop - 1] == '\r' {
            stop - 1
        } else {
            stop
        };
        let line = text_of(chars, from, end);
        let next: usize = if stop < chars.len() { stop + 1 } else { stop };
        proof {
            let ghost rest = lines_from(chars@, next as int);
            assert(lines_from(chars@, from as int) == seq![line@] + rest);
            assert(lines_view(lines@.push(line)) == lines_view(lines@).push(line@));
            assert(lines_view(lines@) + (seq![line@] + rest) == lines_view(lines@).push(line@) + rest);
        }
        lines.push(line);
        from = next;
    }
    assert(lines_from(chars@, from as int) == Seq::<Seq<char>>::empty());
    lines
}

/// The batch that a fetch brings, if it brings one: the lines of the payload
/// when the endpoint answered with status 200, and nothing otherwise.
pub fn batch_of(status: u16, payload: &str) -> (r: Option<Command>)
    ensures
        match r {
            Some(batch) => status == 200 && batch@ == Message::Store(lines_of(payload@)),
            None => status != 200,
        },
{
    if status == 200 {
        Some(Command::Store(payload_lines(payload)))
    } else {
        None
    }
}

} // verus!
