//! Samples, and the parser that reads one from a line of exposition text.
//!
//! A line is read in one of two ways. A line that holds a brace carries a
//! label set: its name is the leading word, its labels are the `key="value"`
//! pairs between the first `{` and the last `}`, and its value is the
//! rightmost numeric token after the closing brace. Any other line is split
//! on whitespace: the first token is the name and the second is the value;
//! tokens after these are ignored. A line that starts with `#` is a comment.

use vstd::prelude::*;
use vstd::slice::slice_subrange;
use crate::clock::unix_seconds;
use crate::number::{digit, float_literal, is_digit, is_float_literal, letter};
use crate::text::{
    find_char, find_last_char, is_whitespace, last_char, lemma_last_char, exactly,
    lemma_scan, next_char, next_non_space, scan, skip_space, span_text, spans_view, text_of,
    to_chars, token_spans, tokens, whitespace,
};

verus! {

/// One observation of a metric.
///
/// `value` holds the numeric literal as the line spelled it, and `labels`
/// starts with the `__name__` label that repeats the name.
#[derive(Debug, Clone)]
pub struct Metric {
    pub name: String,
    pub value: String,
    pub timestamp: i64,
    pub labels: Vec<(String, String)>,
}

/// What a line says: a sample that has not been stamped with a time yet.
pub struct Reading {
    pub name: Seq<char>,
    pub value: Seq<char>,
    pub labels: Seq<(Seq<char>, Seq<char>)>,
}

/// A [`Metric`] as specifications see it.
pub struct Sample {
    pub name: Seq<char>,
    pub value: Seq<char>,
    pub timestamp: i64,
    pub labels: Seq<(Seq<char>, Seq<char>)>,
}

impl Reading {
    /// The sample that this reading becomes when taken at `timestamp`.
    pub open spec fn at(self, timestamp: i64) -> Sample {
        Sample { name: self.name, value: self.value, timestamp, labels: self.labels }
    }

    /// The name under which the reading is filed, whenever it is taken.
    pub open spec fn key(self) -> Seq<char> {
        named(self.labels, self.name)
    }
}

impl Sample {
    /// The name under which the sample is filed: the value of its first
    /// `__name__` label, or its bare name when it has no such label.
    pub open spec fn key(self) -> Seq<char> {
        named(self.labels, self.name)
    }

    /// The point that the sample adds to its series.
    pub open spec fn point(self) -> (i64, Seq<char>) {
        (self.timestamp, self.value)
    }
}

impl View for Metric {
    type V = Sample;

    open spec fn view(&self) -> Sample {
        Sample {
            name: self.name@,
            value: self.value@,
            timestamp: self.timestamp,
            labels: pairs_view(self.labels@),
        }
    }
}

/// The labels of a sample as pairs of character sequences.
pub open spec fn pairs_view(labels: Seq<(String, String)>) -> Seq<(Seq<char>, Seq<char>)> {
    labels.map_values(|label: (String, String)| (label.0@, label.1@))
}

/// The key of the label that carries a sample's name: `__name__`.
pub open spec fn name_label() -> Seq<char> {
    seq!['_', '_', 'n', 'a', 'm', 'e', '_', '_']
}

/// The value of the first `__name__` label among `labels`, or `fallback`.
pub open spec fn named(labels: Seq<(Seq<char>, Seq<char>)>, fallback: Seq<char>) -> Seq<char>
    decreases labels.len(),
{
    if labels.len() == 0 {
        fallback
    } else if labels[0].0 == name_label() {
        labels[0].1
    } else {
        named(labels.skip(1), fallback)
    }
}

/// A line that starts with the comment marker.
pub open spec fn comment(line: Seq<char>) -> bool {
    line.len() > 0 && line[0] == '#'
}

/// An opening or a closing brace.
pub open spec fn brace(c: char) -> bool {
    c == '{' || c == '}'
}

/// A line that holds a brace, and so is read as carrying a label set.
pub open spec fn labelled(line: Seq<char>) -> bool {
    exists|i: int| 0 <= i < line.len() && brace(#[trigger] line[i])
}

/// A character of a label key: an ASCII letter, a digit or an underscore.
pub open spec fn key_char(c: char) -> bool {
    letter(c) || digit(c) || c == '_'
}

/// The stopping rule that holds of everything but key characters.
pub open spec fn non_key() -> spec_fn(char) -> bool {
    |c: char| !key_char(c)
}

/// The stopping rule that holds of whitespace and of braces.
pub open spec fn word_stop() -> spec_fn(char) -> bool {
    |c: char| whitespace(c) || brace(c)
}

/// Where the run of key characters that starts at `from` ends.
pub open spec fn key_end(s: Seq<char>, from: int) -> int {
    scan(s, from, non_key())
}

/// Where the word that starts at `from` ends: at whitespace, at a brace, or
/// at the end of the line.
pub open spec fn word_end(s: Seq<char>, from: int) -> int {
    scan(s, from, word_stop())
}

/// The `key="value"` pairs that occur in `s` at or after `from`, in order of
/// appearance. A key is a maximal run of key characters, directly followed
/// by `="`; its value runs up to the next double quote.
pub open spec fn label_pairs(s: Seq<char>, from: int) -> Seq<(Seq<char>, Seq<char>)>
    decreases s.len() - from,
{
    if from < 0 || from >= s.len() {
        Seq::empty()
    } else if !key_char(s[from]) {
        label_pairs(s, from + 1)
    } else {
        let end = key_end(s, from + 1);
        let quote = next_char(s, end + 2, '"');
        proof {
            lemma_scan(s, from + 1, non_key());
        }
        if end + 1 < s.len() && s[end] == '=' && s[end + 1] == '"' && quote < s.len() {
            proof {
                lemma_scan(s, end + 2, exactly('"'));
            }
            seq![(s.subrange(from, end), s.subrange(end + 2, quote))] + label_pairs(s, quote + 1)
        } else {
            label_pairs(s, end)
        }
    }
}

/// The last of `spans` that starts after position `after` and covers a
/// numeric literal. `spans` are in order of appearance.
pub open spec fn last_value(line: Seq<char>, spans: Seq<(int, int)>, after: int) -> Option<
    (int, int),
>
    decreases spans.len(),
{
    if spans.len() == 0 || spans.last().0 <= after {
        None
    } else if float_literal(span_text(line, spans.last())) {
        Some(spans.last())
    } else {
        last_value(line, spans.drop_last(), after)
    }
}

/// What a line without braces says.
pub open spec fn parse_plain(line: Seq<char>) -> Option<Reading> {
    let spans = tokens(line);
    if spans.len() >= 2 && float_literal(span_text(line, spans[1])) {
        let name = span_text(line, spans[0]);
        Some(Reading { name, value: span_text(line, spans[1]), labels: seq![(name_label(), name)] })
    } else {
        None
    }
}

/// What a line with braces says.
pub open spec fn parse_labelled(line: Seq<char>) -> Option<Reading> {
    let open = next_char(line, 0, '{');
    let close = last_char(line, line.len() as int, '}');
    let start = next_non_space(line, 0);
    let end = word_end(line, start);
    let value = last_value(line, tokens(line), close);
    if open < close && start < end && value is Some {
        let name = line.subrange(start, end);
        Some(
            Reading {
                name,
                value: span_text(line, value.unwrap()),
                labels: seq![(name_label(), name)] + label_pairs(line.subrange(open + 1, close), 0),
            },
        )
    } else {
        None
    }
}

/// What a line says, if it says anything.
pub open spec fn parse_line(line: Seq<char>) -> Option<Reading> {
    if comment(line) {
        None
    } else if labelled(line) {
        parse_labelled(line)
    } else {
        parse_plain(line)
    }
}

/// Decides [`key_char`].
fn is_key_char(c: char) -> (r: bool)
    ensures
        r == key_char(c),
{
    ('a' <= c && c <= 'z') || ('A' <= c && c <= 'Z') || is_digit(c) || c == '_'
}

/// Finds the end of the run of key characters that starts at `from`.
fn find_key_end(chars: &[char], from: usize) -> (r: usize)
    requires
        from <= chars@.len(),
    ensures
        r == key_end(chars@, from as int),
        from <= r <= chars@.len(),
{
    let mut i: usize = from;
    while i < chars.len() && is_key_char(chars[i])
        invariant
            from <= i <= chars@.len(),
            key_end(chars@, from as int) == key_end(chars@, i as int),
        decreases chars@.len() - i,
    {
        i += 1;
    }
    i
}

/// Finds the end of the word that starts at `from`.
fn find_word_end(chars: &[char], from: usize) -> (r: usize)
    requires
        from <= chars@.len(),
    ensures
        r == word_end(chars@, from as int),
        from <= r <= chars@.len(),
{
    let mut i: usize = from;
    while i < chars.len() && !(is_whitespace(chars[i]) || chars[i] == '{' || chars[i] == '}')
        invariant
            from <= i <= chars@.len(),
            word_end(chars@, from as int) == word_end(chars@, i as int),
        decreases chars@.len() - i,
    {
        i += 1;
    }
    i
}

/// Collects the `key="value"` pairs of the text between the braces.
fn collect_labels(chars: &[char], labels: &mut Vec<(String, String)>)
    ensures
        pairs_view(final(labels)@) == pairs_view(old(labels)@) + label_pairs(chars@, 0),
{
    let ghost before = pairs_view(labels@);
    let mut i: usize = 0;
    while i < chars.len()
        invariant
            i <= chars@.len(),
            before + label_pairs(chars@, 0) == pairs_view(labels@) + label_pairs(chars@, i as int),
        decreases chars@.len() - i,
    {
        if !is_key_char(chars[i]) {
            i += 1;
        } else {
            let end: usize = find_key_end(chars, i + 1);
            let mut next: usize = end;
            if end < chars.len() && chars[end] == '=' && end + 1 < chars.len() && chars[end + 1]
                == '"' {
                let quote: usize = find_char(chars, end + 2, '"');
                if quote < chars.len() {
                    let key = text_of(chars, i, end);
                    let value = text_of(chars, end + 2, quote);
                    proof {
                        let ghost pair = (key@, value@);
                        assert(pairs_view(labels@).push(pair) == pairs_view(labels@.push((key, value))));
                        assert(label_pairs(chars@, i as int) == seq![pair] + label_pairs(
                            chars@,
                            quote + 1,
                        ));
                        assert(pairs_view(labels@) + (seq![pair] + label_pairs(chars@, quote + 1))
                            == pairs_view(labels@).push(pair) + label_pairs(chars@, quote + 1));
                    }
                    labels.push((key, value));
                    next = quote + 1;
                }
            }
            i = next;
        }
    }
    assert(label_pairs(chars@, i as int) == Seq::<(Seq<char>, Seq<char>)>::empty());
}

/// Finds the rightmost numeric token that starts after position `after`.
fn find_value(chars: &[char], spans: &Vec<(usize, usize)>, after: usize) -> (r: Option<
    (usize, usize),
>)
    requires
        forall|k: int|
            0 <= k < spans@.len() ==> (#[trigger] spans@[k]).0 < spans@[k].1 <= chars@.len(),
    ensures
        match r {
            Some(span) => last_value(chars@, spans_view(spans@), after as int) == Some(
                (span.0 as int, span.1 as int),
            ) && span.0 < span.1 <= chars@.len(),
            None => last_value(chars@, spans_view(spans@), after as int) is None,
        },
{
    let ghost all = spans_view(spans@);
    let mut k: usize = spans.len();
    assert(all.take(k as int) == all);
    while k > 0
        invariant
            k <= spans@.len(),
            all == spans_view(spans@),
            forall|j: int|
                0 <= j < spans@.len() ==> (#[trigger] spans@[j]).0 < spans@[j].1 <= chars@.len(),
            last_value(chars@, all, after as int) == last_value(chars@, all.take(k as int), after as int),
        decreases k,
    {
        let span: (usize, usize) = spans[k - 1];
        proof {
            let ghost head = all.take(k as int);
            assert(head.last() == (span.0 as int, span.1 as int));
            assert(head.drop_last() == all.take(k - 1));
        }
        if span.0 <= after {
            return None;
        }
        let token = slice_subrange(chars, span.0, span.1);
        if is_float_literal(token) {
            return Some(span);
        }
        k -= 1;
    }
    None
}

/// The `__name__` key as an owned string.
fn name_key() -> (key: String)
    ensures
        key@ == name_label(),
{
    proof {
        reveal_strlit("__name__");
    }
    let key = "__name__".to_owned();
    assert(key@ =~= name_label());
    key
}

/// Reads the name, the value and the labels of a line.
fn parse_fields(line: &str) -> (r: Option<(String, String, Vec<(String, String)>)>)
    ensures
        match r {
            Some(fields) => parse_line(line@) == Some(
                Reading { name: fields.0@, value: fields.1@, labels: pairs_view(fields.2@) },
            ),
            None => parse_line(line@) is None,
        },
{
    let owned = to_chars(line);
    let chars = owned.as_slice();
    if chars.len() > 0 && chars[0] == '#' {
        return None;
    }
    let spans = token_spans(chars);
    let open: usize = find_char(chars, 0, '{');
    let close = find_last_char(chars, '}');
    proof {
        lemma_scan(chars@, 0, exactly('{'));
        lemma_last_char(chars@, chars@.len() as int, '}');
        if open < chars@.len() {
            assert(brace(chars@[open as int]));
        } else if close is Some {
            assert(brace(chars@[close.unwrap() as int]));
        } else {
            assert forall|i: int| 0 <= i < chars@.len() implies !brace(#[trigger] chars@[i]) by {
                assert(!exactly('{')(chars@[i]));
            }
        }
    }
    if open < chars.len() || close.is_some() {
        let start: usize = skip_space(chars, 0);
        let end: usize = find_word_end(chars, start);
        let close: usize = match close {
            Some(close) => close,
            None => { return None; },
        };
        if !(open < close && start < end) {
            return None;
        }
        let value = match find_value(chars, &spans, close) {
            Some(span) => text_of(chars, span.0, span.1),
            None => { return None; },
        };
        let name = text_of(chars, start, end);
        let mut labels: Vec<(String, String)> = Vec::new();
        labels.push((name_key(), name.clone()));
        assert(pairs_view(labels@) == seq![(name_label(), name@)]);
        collect_labels(slice_subrange(chars, open + 1, close), &mut labels);
        Some((name, value, labels))
    } else {
        if spans.len() < 2 {
            return None;
        }
        let first: (usize, usize) = spans[0];
        let second: (usize, usize) = spans[1];
        assert(spans_view(spans@)[0] == (first.0 as int, first.1 as int));
        assert(spans_view(spans@)[1] == (second.0 as int, second.1 as int));
        if !is_float_literal(slice_subrange(chars, second.0, second.1)) {
            return None;
        }
        let name = text_of(chars, first.0, first.1);
        let value = text_of(chars, second.0, second.1);
        let mut labels: Vec<(String, String)> = Vec::new();
        labels.push((name_key(), name.clone()));
        assert(pairs_view(labels@) == seq![(name_label(), name@)]);
        Some((name, value, labels))
    }
}

impl Metric {
    /// Reads a sample from a line and stamps it with the current time.
    ///
    /// Whether the line yields a sample, and everything of the sample but its
    /// timestamp, is decided by [`parse_line`]; the timestamp is whatever the
    /// clock said. [`Metric::parse_at`] is the same reader with the time
    /// handed in.
    pub fn from_str(metric_str: &str) -> (r: Option<Metric>)
        ensures
            match r {
                Some(metric) => parse_line(metric_str@) is Some && metric@ == parse_line(
                    metric_str@,
                ).unwrap().at(metric.timestamp),
                None => parse_line(metric_str@) is None,
            },
    {
        match parse_fields(metric_str) {
            Some(fields) => Some(
                Metric {
                    name: fields.0,
                    value: fields.1,
                    timestamp: unix_seconds(),
                    labels: fields.2,
                },
            ),
            None => None,
        }
    }

    /// Reads a sample from a line, taken at the given time.
    pub fn parse_at(metric_str: &str, timestamp: i64) -> (r: Option<Metric>)
        ensures
            match r {
                Some(metric) => parse_line(metric_str@) is Some && metric@ == parse_line(
                    metric_str@,
                ).unwrap().at(timestamp),
                None => parse_line(metric_str@) is None,
            },
    {
        match parse_fields(metric_str) {
            Some(fields) => Some(
                Metric { name: fields.0, value: fields.1, timestamp, labels: fields.2 },
            ),
            None => None,
        }
    }

    /// The name under which the sample is filed.
    pub fn key(&self) -> (key: String)
        ensures
            key@ == self@.key(),
    {
        let marker = name_key();
        let mut i: usize = 0;
        assert(pairs_view(self.labels@).skip(0) == pairs_view(self.labels@));
        while i < self.labels.len()
            invariant
                i <= self.labels@.len(),
                marker@ == name_label(),
                self@.key() == named(pairs_view(self.labels@).skip(i as int), self.name@),
            decreases self.labels@.len() - i,
        {
            let ghost rest = pairs_view(self.labels@).skip(i as int);
            assert(rest[0] == (self.labels@[i as int].0@, self.labels@[i as int].1@));
            assert(rest.skip(1) == pairs_view(self.labels@).skip(i + 1));
            if self.labels[i].0 == marker {
                return self.labels[i].1.clone();
            }
            i += 1;
        }
        self.name.clone()
    }

    /// Gives up the sample for the point that it adds to its series.
    pub fn into_point(self) -> (point: (i64, String))
        ensures
            point.0 == self.timestamp,
            point.1 == self.value,
    {
        (self.timestamp, self.value)
    }
}

/// The value that a line gives is a numeric literal.
pub proof fn lemma_value_is_literal(line: Seq<char>)
    requires
        parse_line(line) is Some,
    ensures
        float_literal(parse_line(line).unwrap().value),
{
    if labelled(line) {
        lemma_last_value(line, tokens(line), last_char(line, line.len() as int, '}'));
    }
}

/// What `last_value` finds is one of the spans, starts after `after`, and
/// covers a literal.
pub proof fn lemma_last_value(line: Seq<char>, spans: Seq<(int, int)>, after: int)
    ensures
        last_value(line, spans, after) matches Some(span) ==> {
            &&& float_literal(span_text(line, span))
            &&& span.0 > after
            &&& spans.contains(span)
        },
    decreases spans.len(),
{
    if spans.len() > 0 && spans.last().0 > after {
        if float_literal(span_text(line, spans.last())) {
            assert(spans[spans.len() - 1] == spans.last());
        } else {
            lemma_last_value(line, spans.drop_last(), after);
            if last_value(line, spans, after) is Some {
                let span = last_value(line, spans, after).unwrap();
                let k = choose|k: int| 0 <= k < spans.drop_last().len() && spans.drop_last()[k] == span;
                assert(spans[k] == span);
            }
        }
    }
}

/// What a line says is filed under the name that the line gives, whatever
/// labels it carries.
pub proof fn lemma_filed_under_name(line: Seq<char>)
    requires
        parse_line(line) is Some,
    ensures
        parse_line(line).unwrap().key() == parse_line(line).unwrap().name,
        parse_line(line).unwrap().labels.len() > 0,
        parse_line(line).unwrap().labels[0] == (name_label(), parse_line(line).unwrap().name),
{
}

} // verus!
