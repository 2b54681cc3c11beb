//! Character classes and scanning primitives shared by the line parsers.
//!
//! Everything here works on a line as a sequence of Unicode scalar values, so
//! that positions in the executable code and in the specifications coincide.

use vstd::prelude::*;

verus! {

/// The characters that Unicode classes as `White_Space`, which are the ones
/// that `char::is_whitespace` holds of: the separators that delimit the
/// tokens of a line.
pub open spec fn whitespace(c: char) -> bool {
    let u = c as u32;
    ||| 0x09 <= u <= 0x0D
    ||| u == 0x20
    ||| u == 0x85
    ||| u == 0xA0
    ||| u == 0x1680
    ||| 0x2000 <= u <= 0x200A
    ||| u == 0x2028
    ||| u == 0x2029
    ||| u == 0x202F
    ||| u == 0x205F
    ||| u == 0x3000
}

/// Decides [`whitespace`].
pub fn is_whitespace(c: char) -> (r: bool)
    ensures
        r == whitespace(c),
{
    let u: u32 = c as u32;
    (0x09 <= u && u <= 0x0D) || u == 0x20 || u == 0x85 || u == 0xA0 || u == 0x1680 || (0x2000 <= u
        && u <= 0x200A) || u == 0x2028 || u == 0x2029 || u == 0x202F || u == 0x205F || u == 0x3000
}

/// Index of the first character at or after `from` that satisfies `stop`;
/// the length of `s` when there is none.
pub open spec fn scan(s: Seq<char>, from: int, stop: spec_fn(char) -> bool) -> int
    decreases s.len() - from,
{
    if from >= s.len() {
        s.len() as int
    } else if stop(s[from]) {
        from
    } else {
        scan(s, from + 1, stop)
    }
}

/// `scan` lands on the first stopping character and skips only characters
/// that do not stop it.
pub proof fn lemma_scan(s: Seq<char>, from: int, stop: spec_fn(char) -> bool)
    requires
        0 <= from <= s.len(),
    ensures
        from <= scan(s, from, stop) <= s.len(),
        forall|i: int| from <= i < scan(s, from, stop) ==> !stop(#[trigger] s[i]),
        scan(s, from, stop) < s.len() ==> stop(s[scan(s, from, stop)]),
    decreases s.len() - from,
{
    if from < s.len() && !stop(s[from]) {
        lemma_scan(s, from + 1, stop);
    }
}

/// Any position reached without meeting a stopping character is where `scan`
/// is still headed.
pub proof fn lemma_scan_through(s: Seq<char>, from: int, to: int, stop: spec_fn(char) -> bool)
    requires
        0 <= from <= to <= s.len(),
        forall|i: int| from <= i < to ==> !stop(#[trigger] s[i]),
    ensures
        scan(s, from, stop) == scan(s, to, stop),
    decreases to - from,
{
    if from < to {
        lemma_scan_through(s, from + 1, to, stop);
    }
}

/// The stopping rule that holds of whitespace.
pub open spec fn space() -> spec_fn(char) -> bool {
    |c: char| whitespace(c)
}

/// The stopping rule that holds of everything but whitespace.
pub open spec fn non_space() -> spec_fn(char) -> bool {
    |c: char| !whitespace(c)
}

/// The stopping rule that holds of the character `ch` alone.
pub open spec fn exactly(ch: char) -> spec_fn(char) -> bool {
    |c: char| c == ch
}

/// `scan` stops at `to` when that is the first place where it can.
pub proof fn lemma_scan_stops(s: Seq<char>, from: int, to: int, stop: spec_fn(char) -> bool)
    requires
        0 <= from <= to <= s.len(),
        forall|i: int| from <= i < to ==> !stop(#[trigger] s[i]),
        to == s.len() || stop(s[to]),
    ensures
        scan(s, from, stop) == to,
{
    lemma_scan_through(s, from, to, stop);
}

/// Scanning the tail of a text finds what scanning that tail on its own
/// finds, moved by the length of what stands before it.
pub proof fn lemma_scan_shift(
    head: Seq<char>,
    tail: Seq<char>,
    from: int,
    stop: spec_fn(char) -> bool,
)
    requires
        0 <= from <= tail.len(),
    ensures
        scan(head + tail, head.len() + from, stop) == head.len() + scan(tail, from, stop),
    decreases tail.len() - from,
{
    if from < tail.len() {
        assert((head + tail)[head.len() + from] == tail[from]);
        if !stop(tail[from]) {
            lemma_scan_shift(head, tail, from + 1, stop);
        }
    }
}

/// Position of the next whitespace character at or after `from`.
pub open spec fn next_space(s: Seq<char>, from: int) -> int {
    scan(s, from, space())
}

/// Position of the next character at or after `from` that is not whitespace.
pub open spec fn next_non_space(s: Seq<char>, from: int) -> int {
    scan(s, from, non_space())
}

/// Position of the next occurrence of `ch` at or after `from`.
pub open spec fn next_char(s: Seq<char>, from: int, ch: char) -> int {
    scan(s, from, exactly(ch))
}

/// Position of the last occurrence of `ch` before `upto`, or `-1`.
pub open spec fn last_char(s: Seq<char>, upto: int, ch: char) -> int
    decreases upto,
{
    if upto <= 0 || upto > s.len() {
        -1
    } else if s[upto - 1] == ch {
        upto - 1
    } else {
        last_char(s, upto - 1, ch)
    }
}

/// `last_char` answers with a position before `upto` that holds `ch`, or
/// with `-1`.
pub proof fn lemma_last_char(s: Seq<char>, upto: int, ch: char)
    requires
        0 <= upto <= s.len(),
    ensures
        -1 <= last_char(s, upto, ch) < upto,
        last_char(s, upto, ch) >= 0 ==> s[last_char(s, upto, ch)] == ch,
        forall|i: int| last_char(s, upto, ch) < i < upto ==> #[trigger] s[i] != ch,
    decreases upto,
{
    if upto > 0 && s[upto - 1] != ch {
        lemma_last_char(s, upto - 1, ch);
    }
}

/// The whitespace-delimited tokens of `s` that start at or after `from`, each
/// as the half-open span of positions it occupies, in order of appearance.
pub open spec fn tokens_from(s: Seq<char>, from: int) -> Seq<(int, int)>
    decreases s.len() - from,
{
    let start = next_non_space(s, from);
    if from < 0 || start >= s.len() {
        Seq::empty()
    } else {
        let end = next_space(s, start + 1);
        proof {
            lemma_scan(s, from, non_space());
            lemma_scan(s, start + 1, space());
        }
        seq![(start, end)] + tokens_from(s, end)
    }
}

/// All whitespace-delimited tokens of `s`.
pub open spec fn tokens(s: Seq<char>) -> Seq<(int, int)> {
    tokens_from(s, 0)
}

/// The characters that a span covers.
pub open spec fn span_text(s: Seq<char>, span: (int, int)) -> Seq<char> {
    s.subrange(span.0, span.1)
}

/// What makes a span a token of `s`: it is a non-empty run without whitespace
/// that whitespace, or an end of the line, bounds on both sides.
pub open spec fn is_token(s: Seq<char>, span: (int, int)) -> bool {
    &&& 0 <= span.0 < span.1 <= s.len()
    &&& forall|i: int| span.0 <= i < span.1 ==> !whitespace(#[trigger] s[i])
    &&& (span.0 == 0 || whitespace(s[span.0 - 1]))
    &&& (span.1 == s.len() || whitespace(s[span.1]))
}

/// Every span of `tokens_from` is a token in the sense of [`is_token`], the
/// spans come in increasing order, and only whitespace lies between them.
pub proof fn lemma_tokens_from(s: Seq<char>, from: int)
    requires
        0 <= from <= s.len(),
        from == 0 || from == s.len() || whitespace(s[from]) || whitespace(s[from - 1]),
    ensures
        forall|k: int|
            0 <= k < tokens_from(s, from).len() ==> is_token(s, #[trigger] tokens_from(s, from)[k]),
        forall|k: int|
            0 <= k < tokens_from(s, from).len() ==> from <= (#[trigger] tokens_from(s, from)[k]).0,
        forall|j: int, k: int|
            0 <= j < k < tokens_from(s, from).len() ==> (#[trigger] tokens_from(s, from)[j]).1 < (
            #[trigger] tokens_from(s, from)[k]).0,
    decreases s.len() - from,
{
    let start = next_non_space(s, from);
    lemma_scan(s, from, non_space());
    if start < s.len() {
        let end = next_space(s, start + 1);
        lemma_scan(s, start + 1, space());
        lemma_tokens_from(s, end);
        let rest = tokens_from(s, end);
        let all = tokens_from(s, from);
        assert(all == seq![(start, end)] + rest);
        assert(is_token(s, (start, end))) by {
            if start > 0 && start > from {
                assert(whitespace(s[start - 1]));
            }
        }
        assert forall|k: int| 0 <= k < all.len() implies is_token(s, #[trigger] all[k]) && from
            <= all[k].0 by {
            if k > 0 {
                assert(all[k] == rest[k - 1]);
            }
        }
        assert forall|j: int, k: int| 0 <= j < k < all.len() implies (#[trigger] all[j]).1 < (
        #[trigger] all[k]).0 by {
            assert(all[k] == rest[k - 1]);
            if j > 0 {
                assert(all[j] == rest[j - 1]);
            } else {
                assert(whitespace(s[end]));
            }
        }
    }
}

/// `last_char` answers with `at` when `ch` stands there and nowhere after.
pub proof fn lemma_last_char_is(s: Seq<char>, at: int, ch: char)
    requires
        0 <= at < s.len(),
        s[at] == ch,
        forall|i: int| at < i < s.len() ==> #[trigger] s[i] != ch,
    ensures
        last_char(s, s.len() as int, ch) == at,
{
    lemma_last_char(s, s.len() as int, ch);
}

/// Every token that starts at or after `from` is among the spans of
/// `tokens_from`, and one that reaches the end of the line is the last of
/// them.
pub proof fn lemma_token_found(s: Seq<char>, from: int, span: (int, int))
    requires
        0 <= from <= span.0,
        is_token(s, span),
    ensures
        tokens_from(s, from).contains(span),
        span.1 == s.len() ==> tokens_from(s, from).last() == span,
    decreases s.len() - from,
{
    let start = next_non_space(s, from);
    lemma_scan(s, from, non_space());
    assert(start <= span.0) by {
        if start > span.0 {
            assert(!non_space()(s[span.0]));
        }
    }
    let end = next_space(s, start + 1);
    lemma_scan(s, start + 1, space());
    let all = tokens_from(s, from);
    let rest = tokens_from(s, end);
    assert(all == seq![(start, end)] + rest);
    if start == span.0 {
        lemma_scan_stops(s, start + 1, span.1, space());
        assert(all[0] == span);
        if span.1 == s.len() {
            assert(rest == Seq::<(int, int)>::empty()) by {
                lemma_scan(s, end, non_space());
            }
        }
    } else {
        assert(end <= span.0) by {
            assert(whitespace(s[span.0 - 1]));
            if end > span.0 {
                assert(!space()(s[span.0 - 1]));
            }
        }
        lemma_token_found(s, end, span);
        let k = choose|k: int| 0 <= k < rest.len() && rest[k] == span;
        assert(all[k + 1] == span);
        assert(all.last() == rest.last());
    }
}

/// The spans of `tokens` are the tokens of the line, all of them and nothing
/// else.
pub proof fn lemma_tokens(s: Seq<char>)
    ensures
        forall|span: (int, int)| #[trigger] tokens(s).contains(span) <==> is_token(s, span),
{
    lemma_tokens_from(s, 0);
    assert forall|span: (int, int)| #[trigger] tokens(s).contains(span) <==> is_token(
        s,
        span,
    ) by {
        if is_token(s, span) {
            lemma_token_found(s, 0, span);
        }
    }
}

/// `String::push` of the standard library, which appends one character to
/// the end of the string and leaves the rest as it was.
pub assume_specification[ String::push ](text: &mut String, ch: char)
    ensures
        final(text)@ == old(text)@.push(ch),
;

/// Copies the characters of a string into a vector, so that they can be
/// addressed by position.
pub fn to_chars(s: &str) -> (chars: Vec<char>)
    ensures
        chars@ == s@,
{
    let mut chars: Vec<char> = Vec::new();
    for c in it: s.chars()
        invariant
            it.seq() == s@,
            chars@ == it.seq().take(it.index()),
    {
        chars.push(c);
    }
    chars
}

/// Copies the characters between two positions into a string.
pub(crate) fn text_of(chars: &[char], from: usize, to: usize) -> (text: String)
    requires
        from <= to <= chars@.len(),
    ensures
        text@ == chars@.subrange(from as int, to as int),
{
    let mut text = String::new();
    let mut i: usize = from;
    while i < to
        invariant
            from <= i <= to <= chars@.len(),
            text@ == chars@.subrange(from as int, i as int),
        decreases to - i,
    {
        text.push(chars[i]);
        assert(chars@.subrange(from as int, i + 1) == chars@.subrange(from as int, i as int).push(
            chars@[i as int],
        ));
        i += 1;
    }
    text
}

/// Finds the next whitespace character at or after `from`.
pub(crate) fn find_space(chars: &[char], from: usize) -> (r: usize)
    requires
        from <= chars@.len(),
    ensures
        r == next_space(chars@, from as int),
        from <= r <= chars@.len(),
{
    let mut i: usize = from;
    while i < chars.len() && !is_whitespace(chars[i])
        invariant
            from <= i <= chars@.len(),
            next_space(chars@, from as int) == next_space(chars@, i as int),
        decreases chars@.len() - i,
    {
        i += 1;
    }
    i
}

/// Finds the next character at or after `from` that is not whitespace.
pub(crate) fn skip_space(chars: &[char], from: usize) -> (r: usize)
    requires
        from <= chars@.len(),
    ensures
        r == next_non_space(chars@, from as int),
        from <= r <= chars@.len(),
{
    let mut i: usize = from;
    while i < chars.len() && is_whitespace(chars[i])
        invariant
            from <= i <= chars@.len(),
            next_non_space(chars@, from as int) == next_non_space(chars@, i as int),
        decreases chars@.len() - i,
    {
        i += 1;
    }
    i
}

/// Finds the next occurrence of `ch` at or after `from`.
pub(crate) fn find_char(chars: &[char], from: usize, ch: char) -> (r: usize)
    requires
        from <= chars@.len(),
    ensures
        r == next_char(chars@, from as int, ch),
        from <= r <= chars@.len(),
{
    let mut i: usize = from;
    while i < chars.len() && chars[i] != ch
        invariant
            from <= i <= chars@.len(),
            next_char(chars@, from as int, ch) == next_char(chars@, i as int, ch),
        decreases chars@.len() - i,
    {
        i += 1;
    }
    i
}

/// Finds the last occurrence of `ch`, if there is one.
pub(crate) fn find_last_char(chars: &[char], ch: char) -> (r: Option<usize>)
    ensures
        match r {
            Some(i) => i == last_char(chars@, chars@.len() as int, ch),
            None => last_char(chars@, chars@.len() as int, ch) == -1,
        },
{
    let mut i: usize = chars.len();
    while i > 0
        invariant
            i <= chars@.len(),
            last_char(chars@, chars@.len() as int, ch) == last_char(chars@, i as int, ch),
        decreases i,
    {
        if chars[i - 1] == ch {
            return Some(i - 1);
        }
        i -= 1;
    }
    None
}

/// The spans of a vector as pairs of mathematical integers.
pub open spec fn spans_view(spans: Seq<(usize, usize)>) -> Seq<(int, int)> {
    spans.map_values(|p: (usize, usize)| (p.0 as int, p.1 as int))
}

/// Splits a line into its whitespace-delimited tokens.
pub fn token_spans(chars: &[char]) -> (spans: Vec<(usize, usize)>)
    ensures
        spans_view(spans@) == tokens(chars@),
        forall|k: int| 0 <= k < spans@.len() ==> (#[trigger] spans@[k]).0 < spans@[k].1 <= chars@.len(),
{
    let mut spans: Vec<(usize, usize)> = Vec::new();
    let mut from: usize = 0;
    loop
        invariant
            from <= chars@.len(),
            tokens(chars@) == spans_view(spans@) + tokens_from(chars@, from as int),
            forall|k: int|
                0 <= k < spans@.len() ==> (#[trigger] spans@[k]).0 < spans@[k].1 <= chars@.len(),
        ensures
            spans_view(spans@) == tokens(chars@),
        decreases chars@.len() - from,
    {
        let start = skip_space(chars, from);
        if start >= chars.len() {
            assert(tokens_from(chars@, from as int) == Seq::<(int, int)>::empty());
            break ;
        }
        let end = find_space(chars, start + 1);
        proof {
            let ghost before = spans_view(spans@);
            assert(tokens_from(chars@, from as int) == seq![(start as int, end as int)]
                + tokens_from(chars@, end as int));
            assert(spans_view(spans@.push((start, end))) == before.push((start as int, end as int)));
        }
        spans.push((start, end));
        from = end;
    }
    spans
}

/// The character that writes the digit `d`.
pub open spec fn digit_char(d: nat) -> char {
    if d == 0 {
        '0'
    } else if d == 1 {
        '1'
    } else if d == 2 {
        '2'
    } else if d == 3 {
        '3'
    } else if d == 4 {
        '4'
    } else if d == 5 {
        '5'
    } else if d == 6 {
        '6'
    } else if d == 7 {
        '7'
    } else if d == 8 {
        '8'
    } else {
        '9'
    }
}

/// The decimal numeral of `n`, without leading zeros.
pub open spec fn decimal(n: nat) -> Seq<char>
    decreases n,
{
    if n < 10 {
        seq![digit_char(n)]
    } else {
        decimal(n / 10).push(digit_char(n % 10))
    }
}

/// The character that writes a digit.
fn digit_of(d: usize) -> (c: char)
    requires
        d < 10,
    ensures
        c == digit_char(d as nat),
{
    if d == 0 {
        '0'
    } else if d == 1 {
        '1'
    } else if d == 2 {
        '2'
    } else if d == 3 {
        '3'
    } else if d == 4 {
        '4'
    } else if d == 5 {
        '5'
    } else if d == 6 {
        '6'
    } else if d == 7 {
        '7'
    } else if d == 8 {
        '8'
    } else {
        '9'
    }
}

/// Writes a number in decimal.
pub fn decimal_text(n: usize) -> (text: String)
    ensures
        text@ == decimal(n as nat),
    decreases n,
{
    let mut text = if n < 10 {
        String::new()
    } else {
        decimal_text(n / 10)
    };
    text.push(digit_of(n % 10));
    assert(text@ =~= decimal(n as nat));
    text
}

} // verus!
