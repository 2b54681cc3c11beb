//! What the line parser guarantees, stated on whole lines.

use vstd::prelude::*;
use crate::metrics::{
    brace, comment, key_char, key_end, label_pairs, labelled, last_value, lemma_last_value,
    name_label, non_key, parse_labelled, parse_line, word_end, word_stop, Reading,
};
use crate::number::{float_literal, lemma_literal_alphabet};
use crate::text::{
    exactly, is_token, last_char, lemma_last_char, lemma_last_char_is, lemma_scan,
    lemma_scan_shift, lemma_scan_stops, lemma_token_found, next_char, next_non_space, non_space,
    space, span_text, tokens, tokens_from, whitespace,
};

verus! {

/// A text that can stand as the name of a metric at the start of a line: it
/// is not empty, it holds neither whitespace nor a brace, and it does not
/// start with the comment marker.
pub open spec fn name_text(name: Seq<char>) -> bool {
    &&& name.len() > 0
    &&& name[0] != '#'
    &&& forall|i: int| 0 <= i < name.len() ==> !whitespace(#[trigger] name[i]) && !brace(name[i])
}

/// A text that can stand as the key of a label: key characters, at least one.
pub open spec fn key_text(key: Seq<char>) -> bool {
    &&& key.len() > 0
    &&& forall|i: int| 0 <= i < key.len() ==> key_char(#[trigger] key[i])
}

/// A text that can stand between the quotes of a label: it holds no double
/// quote.
pub open spec fn quoted_text(text: Seq<char>) -> bool {
    forall|i: int| 0 <= i < text.len() ==> #[trigger] text[i] != '"'
}

/// How a label is written: `key="text"`.
pub open spec fn label_text(label: (Seq<char>, Seq<char>)) -> Seq<char> {
    label.0 + seq!['=', '"'] + label.1 + seq!['"']
}

/// How a label set is written: its labels, with a comma between neighbours.
pub open spec fn labels_text(labels: Seq<(Seq<char>, Seq<char>)>) -> Seq<char>
    decreases labels.len(),
{
    if labels.len() == 0 {
        Seq::empty()
    } else if labels.len() == 1 {
        label_text(labels[0])
    } else {
        label_text(labels[0]) + seq![','] + labels_text(labels.skip(1))
    }
}

/// A literal holds no whitespace, no brace, and no double quote.
proof fn lemma_literal_is_one_token(value: Seq<char>)
    requires
        float_literal(value),
    ensures
        value.len() > 0,
        forall|i: int|
            0 <= i < value.len() ==> !whitespace(#[trigger] value[i]) && !brace(value[i])
                && value[i] != '"',
{
    lemma_literal_alphabet(value);
}

/// A line `<name> <value>` yields a sample with that name and value and the
/// single label `__name__`, which repeats the name.
pub proof fn lemma_plain_line(name: Seq<char>, value: Seq<char>)
    requires
        name_text(name),
        float_literal(value),
    ensures
        parse_line(name + seq![' '] + value) == Some(
            Reading { name, value, labels: seq![(name_label(), name)] },
        ),
{
    let line = name + seq![' '] + value;
    let n = name.len() as int;
    lemma_literal_is_one_token(value);
    assert(whitespace(' '));
    assert forall|i: int| 0 <= i < line.len() implies #[trigger] line[i] != '{' && line[i] != '}' by {
        if i < n {
            assert(line[i] == name[i]);
        } else if i > n {
            assert(line[i] == value[i - n - 1]);
        }
    }
    assert(!comment(line)) by {
        assert(line[0] == name[0]);
    }
    assert(!labelled(line));
    assert forall|i: int| 0 <= i < n implies !whitespace(#[trigger] line[i]) by {
        assert(line[i] == name[i]);
    }
    assert forall|i: int| n < i < line.len() implies !whitespace(#[trigger] line[i]) by {
        assert(line[i] == value[i - n - 1]);
    }
    assert(line[n] == ' ');
    lemma_scan_stops(line, 0, 0, non_space());
    lemma_scan_stops(line, 1, n, space());
    lemma_scan_stops(line, n, n + 1, non_space());
    lemma_scan_stops(line, n + 2, line.len() as int, space());
    lemma_scan_stops(line, line.len() as int, line.len() as int, non_space());
    let second = tokens_from(line, n);
    assert(tokens_from(line, line.len() as int) == Seq::<(int, int)>::empty());
    assert(second == seq![(n + 1, line.len() as int)]);
    assert(tokens(line) == seq![(0int, n)] + second);
    assert(span_text(line, tokens(line)[0]) == name);
    assert(span_text(line, tokens(line)[1]) == value);
}

/// `last_value` finds nothing when no span that starts after `after` covers
/// a literal.
proof fn lemma_no_value(line: Seq<char>, spans: Seq<(int, int)>, after: int)
    requires
        forall|k: int|
            0 <= k < spans.len() && (#[trigger] spans[k]).0 > after ==> !float_literal(
                span_text(line, spans[k]),
            ),
    ensures
        last_value(line, spans, after) is None,
    decreases spans.len(),
{
    if spans.len() > 0 {
        assert(spans.last() == spans[spans.len() - 1]);
        assert forall|k: int|
            0 <= k < spans.drop_last().len() && (#[trigger] spans.drop_last()[k]).0
                > after implies !float_literal(span_text(line, spans.drop_last()[k])) by {
            assert(spans.drop_last()[k] == spans[k]);
        }
        lemma_no_value(line, spans.drop_last(), after);
    }
}

/// The pairs found in the tail of a text are those found in that tail on
/// its own.
proof fn lemma_label_pairs_shift(head: Seq<char>, tail: Seq<char>, from: int)
    requires
        0 <= from <= tail.len(),
    ensures
        label_pairs(head + tail, head.len() + from) == label_pairs(tail, from),
    decreases tail.len() - from,
{
    let s = head + tail;
    let h = head.len() as int;
    if from < tail.len() {
        assert(s[h + from] == tail[from]);
        if !key_char(tail[from]) {
            lemma_label_pairs_shift(head, tail, from + 1);
        } else {
            let end = key_end(tail, from + 1);
            lemma_scan(tail, from + 1, non_key());
            lemma_scan_shift(head, tail, from + 1, non_key());
            assert(key_end(s, h + from + 1) == h + end);
            if end + 1 < tail.len() {
                assert(s[h + end] == tail[end]);
                assert(s[h + end + 1] == tail[end + 1]);
                let quote = next_char(tail, end + 2, '"');
                lemma_scan(tail, end + 2, exactly('"'));
                lemma_scan_shift(head, tail, end + 2, exactly('"'));
                assert(next_char(s, h + end + 2, '"') == h + quote);
                if tail[end] == '=' && tail[end + 1] == '"' && quote < tail.len() {
                    assert(s.subrange(h + from, h + end) == tail.subrange(from, end));
                    assert(s.subrange(h + end + 2, h + quote) == tail.subrange(end + 2, quote));
                    lemma_label_pairs_shift(head, tail, quote + 1);
                } else {
                    lemma_label_pairs_shift(head, tail, end);
                }
            } else {
                lemma_label_pairs_shift(head, tail, end);
            }
        }
    }
}

/// A label set that is written out as `k="v",k="v",...` is read back as it
/// was: every pair, in the order of writing.
pub proof fn lemma_labels_read_back(labels: Seq<(Seq<char>, Seq<char>)>)
    requires
        forall|i: int|
            0 <= i < labels.len() ==> key_text((#[trigger] labels[i]).0) && quoted_text(labels[i].1),
    ensures
        label_pairs(labels_text(labels), 0) == labels,
    decreases labels.len(),
{
    if labels.len() > 0 {
        let s = labels_text(labels);
        let key = labels[0].0;
        let text = labels[0].1;
        let first = label_text(labels[0]);
        let k = key.len() as int;
        let quote = k + 2 + text.len();
        assert(key_text(key) && quoted_text(text));
        assert(first.len() == quote + 1);
        assert(s.len() >= first.len());
        assert forall|i: int| 0 <= i < first.len() implies s[i] == #[trigger] first[i] by {}
        assert forall|i: int| 0 <= i < k implies key_char(#[trigger] s[i]) by {
            assert(s[i] == first[i]);
            assert(first[i] == key[i]);
        }
        assert(s[k] == '=') by {
            assert(first[k] == '=');
        }
        assert(s[k + 1] == '"') by {
            assert(first[k + 1] == '"');
        }
        assert forall|i: int| k + 2 <= i < quote implies #[trigger] s[i] != '"' by {
            assert(s[i] == first[i]);
            assert(first[i] == text[i - k - 2]);
        }
        assert(s[quote] == '"') by {
            assert(first[quote] == '"');
        }
        assert(!key_char('='));
        lemma_scan_stops(s, 1, k, non_key());
        lemma_scan_stops(s, k + 2, quote, exactly('"'));
        assert(s.subrange(0, k) == key);
        assert(s.subrange(k + 2, quote) == text);
        assert(label_pairs(s, 0) == seq![(key, text)] + label_pairs(s, quote + 1));
        let rest = labels.skip(1);
        if labels.len() == 1 {
            assert(label_pairs(s, quote + 1) == Seq::<(Seq<char>, Seq<char>)>::empty());
            assert(seq![(key, text)] == labels);
        } else {
            let head = first + seq![','];
            let tail = labels_text(rest);
            assert(s == head + tail);
            assert forall|i: int| 0 <= i < rest.len() implies key_text((#[trigger] rest[i]).0)
                && quoted_text(rest[i].1) by {
                assert(rest[i] == labels[i + 1]);
            }
            lemma_labels_read_back(rest);
            assert(s[quote + 1] == ',') by {
                assert(head[quote + 1] == ',');
            }
            assert(!key_char(','));
            assert(label_pairs(s, quote + 1) == label_pairs(s, quote + 2));
            lemma_label_pairs_shift(head, tail, 0);
            assert(seq![(key, text)] + rest == labels);
        }
    }
}

/// A line `<name>{<body>} <value>` yields a sample with that name and value,
/// and with the label `__name__` followed by every `key="value"` pair that
/// occurs in the body, in order of appearance.
pub proof fn lemma_labelled_line(name: Seq<char>, body: Seq<char>, value: Seq<char>)
    requires
        name_text(name),
        float_literal(value),
    ensures
        parse_line(name + seq!['{'] + body + seq!['}', ' '] + value) == Some(
            Reading { name, value, labels: seq![(name_label(), name)] + label_pairs(body, 0) },
        ),
{
    let line = name + seq!['{'] + body + seq!['}', ' '] + value;
    let n = name.len() as int;
    let close = n + 1 + body.len();
    let start = close + 2;
    lemma_literal_is_one_token(value);
    assert(whitespace(' '));
    assert(line.len() == start + value.len());
    assert forall|i: int| 0 <= i < n implies line[i] == #[trigger] name[i] by {}
    assert forall|i: int| start <= i < line.len() implies #[trigger] line[i] == value[i - start] by {}
    assert(line[n] == '{');
    assert(line[close] == '}');
    assert(line[close + 1] == ' ');
    assert(!comment(line)) by {
        assert(line[0] == name[0]);
    }
    assert(next_char(line, 0, '{') == n) by {
        assert forall|i: int| 0 <= i < n implies !exactly('{')(#[trigger] line[i]) by {
            assert(line[i] == name[i]);
        }
        lemma_scan_stops(line, 0, n, exactly('{'));
    }
    assert(last_char(line, line.len() as int, '}') == close) by {
        assert forall|i: int| close < i < line.len() implies #[trigger] line[i] != '}' by {
            if i >= start {
                assert(line[i] == value[i - start]);
            }
        }
        lemma_last_char_is(line, close, '}');
    }
    assert(next_non_space(line, 0) == 0) by {
        assert(line[0] == name[0]);
        lemma_scan_stops(line, 0, 0, non_space());
    }
    assert(word_end(line, 0) == n) by {
        assert forall|i: int| 0 <= i < n implies !word_stop()(#[trigger] line[i]) by {
            assert(line[i] == name[i]);
        }
        lemma_scan_stops(line, 0, n, word_stop());
    }
    let span = (start, line.len() as int);
    assert(is_token(line, span)) by {
        assert forall|i: int| start <= i < line.len() implies !whitespace(#[trigger] line[i]) by {
            assert(line[i] == value[i - start]);
        }
    }
    lemma_token_found(line, 0, span);
    assert(span_text(line, span) == value);
    assert(line.subrange(0, n) == name);
    assert(line.subrange(n + 1, close) == body);
    assert(labelled(line)) by {
        assert(brace(line[n]));
    }
    assert(last_value(line, tokens(line), close) == Some(span));
}

/// A line `<name>{k="v",...} <value>` yields the label `__name__` followed by
/// every pair that was written between the braces, in the order of writing.
pub proof fn lemma_labelled_line_reads_back(
    name: Seq<char>,
    labels: Seq<(Seq<char>, Seq<char>)>,
    value: Seq<char>,
)
    requires
        name_text(name),
        float_literal(value),
        forall|i: int|
            0 <= i < labels.len() ==> key_text((#[trigger] labels[i]).0) && quoted_text(labels[i].1),
    ensures
        parse_line(name + seq!['{'] + labels_text(labels) + seq!['}', ' '] + value) == Some(
            Reading { name, value, labels: seq![(name_label(), name)] + labels },
        ),
{
    lemma_labels_read_back(labels);
    lemma_labelled_line(name, labels_text(labels), value);
}

/// The ways in which a line says nothing. It is a comment. It has fewer than
/// two tokens. Its value is no number: for a line without braces that is its
/// second token, for a line with braces every token that starts after the
/// last closing brace. Or it has a brace, but no opening brace that stands
/// before its last closing brace.
pub proof fn lemma_rejected_line(line: Seq<char>)
    ensures
        comment(line) ==> parse_line(line) is None,
        tokens(line).len() < 2 ==> parse_line(line) is None,
        !labelled(line) && tokens(line).len() >= 2 && !float_literal(
            span_text(line, tokens(line)[1]),
        ) ==> parse_line(line) is None,
        labelled(line) && (forall|k: int|
            0 <= k < tokens(line).len() && (#[trigger] tokens(line)[k]).0 > last_char(
                line,
                line.len() as int,
                '}',
            ) ==> !float_literal(span_text(line, tokens(line)[k]))) ==> parse_line(line) is None,
        labelled(line) && next_char(line, 0, '{') >= last_char(line, line.len() as int, '}')
            ==> parse_line(line) is None,
{
    let spans = tokens(line);
    let close = last_char(line, line.len() as int, '}');
    if forall|k: int|
        0 <= k < spans.len() && (#[trigger] spans[k]).0 > close ==> !float_literal(
            span_text(line, spans[k]),
        ) {
        lemma_no_value(line, spans, close);
    }
    if spans.len() < 2 && parse_labelled(line) is Some {
        lemma_last_value(line, spans, close);
        lemma_scan(line, 0, exactly('{'));
        lemma_scan(line, 0, non_space());
        lemma_last_char(line, line.len() as int, '}');
        let span = last_value(line, spans, close).unwrap();
        assert(spans.contains(span));
        assert(spans[0] == span);
        assert(line[close] == '}');
        assert(!whitespace('}'));
        assert(next_non_space(line, 0) <= close) by {
            if next_non_space(line, 0) > close {
                assert(!non_space()(line[close]));
            }
        }
        assert(spans[0].0 == next_non_space(line, 0));
    }
}

} // verus!
