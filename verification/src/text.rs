//! Lines of text: splitting, trimming, and numbering the lines that hold
//! something.
//!
//! A text is a sequence of lines separated by `'\n'`. A line is read without
//! the whitespace around it, so a carriage return before the line feed never
//! shows, and a line of whitespace alone counts as blank. Lines are numbered
//! from 1, blank ones included.

use vstd::prelude::*;

verus! {

/// The characters with the Unicode property `White_Space`.
pub open spec fn is_whitespace(c: char) -> bool {
    let u = c as u32;
    ||| 0x09 <= u <= 0x0D
    ||| u == 0x20
    ||| u == 0x85
    ||| u == 0xA0
    ||| u == 0x1680
    ||| 0x2000 <= u <= 0x200A
    ||| u == 0x2028
    ||| u == 0x2029
    ||| u == 0x202F
    ||| u == 0x205F
    ||| u == 0x3000
}

/// `s` without the whitespace at its start.
pub open spec fn trim_start(s: Seq<char>) -> Seq<char>
    decreases s.len(),
{
    if s.len() > 0 && is_whitespace(s.first()) {
        trim_start(s.drop_first())
    } else {
        s
    }
}

/// `s` without the whitespace at its end.
pub open spec fn trim_end(s: Seq<char>) -> Seq<char>
    decreases s.len(),
{
    if s.len() > 0 && is_whitespace(s.last()) {
        trim_end(s.drop_last())
    } else {
        s
    }
}

/// `s` without the whitespace around it.
pub open spec fn trimmed(s: Seq<char>) -> Seq<char> {
    trim_end(trim_start(s))
}

/// The position of the first line feed in `s`, or the length of `s` where it
/// holds none.
pub open spec fn first_newline(s: Seq<char>) -> nat
    decreases s.len(),
{
    if s.len() == 0 || s.first() == '\n' {
        0
    } else {
        1 + first_newline(s.drop_first())
    }
}

/// The lines of `s`: the stretches between its line feeds. A text with `k`
/// line feeds has `k + 1` lines, the last of them possibly empty.
pub open spec fn split_lines(s: Seq<char>) -> Seq<Seq<char>>
    decreases s.len(),
{
    let n = first_newline(s) as int;
    if n < s.len() {
        seq![s.take(n)] + split_lines(s.skip(n + 1))
    } else {
        seq![s]
    }
}

/// A line as a reader sees it: its number in the text and what it holds
/// once trimmed.
pub struct LineView {
    pub number: nat,
    pub content: Seq<char>,
}

/// Every one of `lines` trimmed and numbered, where the first has the number
/// `first`.
pub open spec fn numbered(lines: Seq<Seq<char>>, first: nat) -> Seq<LineView> {
    Seq::new(
        lines.len(),
        |i: int| LineView { number: (first + i) as nat, content: trimmed(lines[i]) },
    )
}

/// Those of `lines` that are not blank.
pub open spec fn nonblank(lines: Seq<LineView>) -> Seq<LineView> {
    lines.filter(|line: LineView| line.content.len() > 0)
}

/// The lines of `text` that hold something, in order, each with its number
/// (from 1) and its trimmed content.
pub open spec fn data_lines(text: Seq<char>) -> Seq<LineView> {
    nonblank(numbered(split_lines(text), 1))
}

/// The lines joined again, with a line feed between each two.
pub open spec fn joined(lines: Seq<Seq<char>>) -> Seq<char>
    decreases lines.len(),
{
    if lines.len() == 0 {
        Seq::empty()
    } else if lines.len() == 1 {
        lines.first()
    } else {
        lines.first() + seq!['\n'] + joined(lines.drop_first())
    }
}

/// Whether `found` are the lines among `lines` that hold something: each of
/// them a line under its number, trimmed and not blank; in the order of
/// their numbers; and none that holds something left out.
pub open spec fn holds_the_nonblank(found: Seq<LineView>, lines: Seq<Seq<char>>) -> bool {
    &&& forall|i: int|
        0 <= i < found.len() ==> {
            let line = #[trigger] found[i];
            &&& 1 <= line.number <= lines.len()
            &&& line.content == trimmed(lines[line.number - 1])
            &&& line.content.len() > 0
        }
    &&& forall|i: int, j: int|
        0 <= i < j < found.len() ==> (#[trigger] found[i]).number < (#[trigger] found[j]).number
    &&& forall|k: int|
        0 <= k < lines.len() && trimmed(#[trigger] lines[k]).len() > 0 ==> exists|i: int|
            0 <= i < found.len() && (#[trigger] found[i]).number == k + 1
}

/// A line of a text that holds something.
#[derive(Debug, PartialEq, Eq)]
pub struct Line {
    /// The line's number in the text, counted from 1.
    pub number: usize,
    /// The line without the whitespace around it.
    pub content: String,
}

impl Clone for Line {
    fn clone(&self) -> (copy: Self)
        ensures
            copy == *self,
    {
        Line { number: self.number, content: self.content.clone() }
    }
}

impl View for Line {
    type V = LineView;

    open spec fn view(&self) -> LineView {
        LineView { number: self.number as nat, content: self.content@ }
    }
}

impl DeepView for Line {
    type V = LineView;

    open spec fn deep_view(&self) -> LineView {
        self@
    }
}

/// Whether `c` is whitespace.
pub fn char_is_whitespace(c: char) -> (b: bool)
    ensures
        b == is_whitespace(c),
{
    let u: u32 = c as u32;
    (0x09 <= u && u <= 0x0D) || u == 0x20 || u == 0x85 || u == 0xA0 || u == 0x1680 || (0x2000 <= u
        && u <= 0x200A) || u == 0x2028 || u == 0x2029 || u == 0x202F || u == 0x205F || u == 0x3000
}

/// Calls `String::push`. Taken on trust, not proved: afterwards the string is
/// what it was before, with `c` added as its last character.
#[verifier::external_body]
fn push_char(s: &mut String, c: char)
    ensures
        final(s)@ == old(s)@.push(c),
{
    s.push(c);
}

/// The characters of `text`, in order.
fn chars_of(text: &str) -> (chars: Vec<char>)
    ensures
        chars@ == text@,
{
    let mut chars: Vec<char> = Vec::new();
    for c in iter: text.chars()
        invariant
            iter.seq() == text@,
            chars@ == iter.seq().take(iter.index()),
    {
        chars.push(c);
    }
    chars
}

/// The first position from `from` on that holds a line feed, or the length
/// of `chars` where none follows.
fn find_newline(chars: &Vec<char>, from: usize) -> (end: usize)
    requires
        from <= chars.len(),
    ensures
        from <= end <= chars.len(),
        end - from == first_newline(chars@.skip(from as int)),
{
    let mut end: usize = from;
    while end < chars.len() && chars[end] != '\n'
        invariant
            from <= end <= chars.len(),
            forall|i: int| from <= i < end ==> chars[i] != '\n',
        decreases chars.len() - end,
    {
        end = end + 1;
    }
    proof {
        lemma_first_newline(chars@.skip(from as int), end - from);
    }
    end
}

/// The bounds of the stretch `from..to` once trimmed.
fn trim_bounds(chars: &Vec<char>, from: usize, to: usize) -> (bounds: (usize, usize))
    requires
        from <= to <= chars.len(),
    ensures
        from <= bounds.0 <= bounds.1 <= to,
        chars@.subrange(bounds.0 as int, bounds.1 as int) == trimmed(
            chars@.subrange(from as int, to as int),
        ),
{
    let mut a: usize = from;
    while a < to && char_is_whitespace(chars[a])
        invariant
            from <= a <= to <= chars.len(),
            forall|i: int| from <= i < a ==> is_whitespace(chars[i]),
        decreases to - a,
    {
        a = a + 1;
    }
    let mut b: usize = to;
    while a < b && char_is_whitespace(chars[b - 1])
        invariant
            a <= b <= to <= chars.len(),
            forall|i: int| b <= i < to ==> is_whitespace(chars[i]),
        decreases b,
    {
        b = b - 1;
    }
    proof {
        let line = chars@.subrange(from as int, to as int);
        lemma_trim_start(line, a - from);
        lemma_trim_end(line.skip(a - from), b - a);
    }
    (a, b)
}

/// The stretch `from..to` of `chars` as a string.
fn string_of(chars: &Vec<char>, from: usize, to: usize) -> (s: String)
    requires
        from <= to <= chars.len(),
    ensures
        s@ == chars@.subrange(from as int, to as int),
{
    let mut s = String::new();
    let mut i: usize = from;
    while i < to
        invariant
            from <= i <= to <= chars.len(),
            s@ == chars@.subrange(from as int, i as int),
        decreases to - i,
    {
        push_char(&mut s, chars[i]);
        i = i + 1;
    }
    s
}

/// Splits `text` into lines and returns those that hold something, in order,
/// each trimmed and with its number, counted from 1.
pub fn scan_lines(text: &str) -> (lines: Vec<Line>)
    ensures
        lines.deep_view() == data_lines(text@),
{
    let chars = chars_of(text);
    let mut lines: Vec<Line> = Vec::new();
    let mut start: usize = 0;
    let mut passed: usize = 0;
    proof {
        assert(chars@.skip(0) == chars@);
    }
    loop
        invariant_except_break
            lines.deep_view() + nonblank(
                numbered(split_lines(chars@.skip(start as int)), (passed + 1) as nat),
            ) == data_lines(text@),
        invariant
            chars@ == text@,
            passed <= start <= chars.len(),
        ensures
            lines.deep_view() == data_lines(text@),
        decreases chars.len() - start,
    {
        let end = find_newline(&chars, start);
        let (a, b) = trim_bounds(&chars, start, end);
        let ghost before = lines.deep_view();
        let ghost line = chars@.subrange(start as int, end as int);
        let ghost following = if end < chars.len() {
            split_lines(chars@.skip(end + 1))
        } else {
            Seq::empty()
        };
        proof {
            let rest = chars@.skip(start as int);
            assert(rest.take(end - start) == line);
            if end < chars.len() {
                assert(rest.skip(end - start + 1) == chars@.skip(end + 1));
            }
            lemma_data_lines_step(line, following, (passed + 1) as nat);
        }
        if a < b {
            let content = string_of(&chars, a, b);
            lines.push(Line { number: passed + 1, content });
            proof {
                assert(lines.deep_view() == before + seq![
                    LineView { number: (passed + 1) as nat, content: trimmed(line) },
                ]);
            }
        }
        if end >= chars.len() {
            proof {
                reveal_with_fuel(Seq::filter, 1);
            }
            break;
        }
        start = end + 1;
        passed = passed + 1;
    }
    lines
}

/// A stretch without a line feed, followed by a line feed or by the end,
/// reaches to the first line feed.
proof fn lemma_first_newline(s: Seq<char>, n: int)
    requires
        0 <= n <= s.len(),
        forall|i: int| 0 <= i < n ==> s[i] != '\n',
        n < s.len() ==> s[n] == '\n',
    ensures
        first_newline(s) == n,
    decreases n,
{
    if n > 0 {
        lemma_first_newline(s.drop_first(), n - 1);
    }
}

/// Leading whitespace up to a character that is none, or up to the end, is
/// what `trim_start` removes.
proof fn lemma_trim_start(s: Seq<char>, a: int)
    requires
        0 <= a <= s.len(),
        forall|i: int| 0 <= i < a ==> is_whitespace(s[i]),
        a < s.len() ==> !is_whitespace(s[a]),
    ensures
        trim_start(s) == s.skip(a),
    decreases a,
{
    if a > 0 {
        lemma_trim_start(s.drop_first(), a - 1);
    }
}

/// Trailing whitespace back to a character that is none, or back to the
/// start, is what `trim_end` removes.
proof fn lemma_trim_end(s: Seq<char>, b: int)
    requires
        0 <= b <= s.len(),
        forall|i: int| b <= i < s.len() ==> is_whitespace(s[i]),
        b > 0 ==> !is_whitespace(s[b - 1]),
    ensures
        trim_end(s) == s.take(b),
    decreases s.len() - b,
{
    if b < s.len() {
        lemma_trim_end(s.drop_last(), b);
    }
}

/// What one more line in front adds to the lines that hold something.
proof fn lemma_data_lines_step(line: Seq<char>, rest: Seq<Seq<char>>, first: nat)
    ensures
        nonblank(numbered(seq![line] + rest, first)) == (if trimmed(line).len() > 0 {
            seq![LineView { number: first, content: trimmed(line) }]
        } else {
            Seq::empty()
        }) + nonblank(numbered(rest, first + 1)),
{
    let head = seq![LineView { number: first, content: trimmed(line) }];
    let keep = |line: LineView| line.content.len() > 0;
    assert(numbered(seq![line] + rest, first) == head + numbered(rest, first + 1));
    Seq::filter_distributes_over_add(head, numbered(rest, first + 1), keep);
    assert(head.filter(keep) == if trimmed(line).len() > 0 {
        head
    } else {
        Seq::empty()
    }) by {
        reveal_with_fuel(Seq::filter, 2);
    }
}

/// Splitting a text into lines loses nothing and leaves no line feed behind:
/// there is at least one line, no line holds a line feed, and the lines
/// joined by line feeds are the text.
pub proof fn lemma_split_lines_rejoin(text: Seq<char>)
    ensures
        split_lines(text).len() >= 1,
        forall|k: int, i: int|
            0 <= k < split_lines(text).len() && 0 <= i < split_lines(text)[k].len()
                ==> split_lines(text)[k][i] != '\n',
        joined(split_lines(text)) == text,
    decreases text.len(),
{
    let n = first_newline(text) as int;
    let lines = split_lines(text);
    lemma_first_newline_is_first(text);
    if n < text.len() {
        let rest = split_lines(text.skip(n + 1));
        lemma_split_lines_rejoin(text.skip(n + 1));
        assert(lines.drop_first() == rest);
        assert(text.take(n) + seq!['\n'] + text.skip(n + 1) == text);
        assert forall|k: int, i: int|
            0 <= k < lines.len() && 0 <= i < lines[k].len() implies lines[k][i] != '\n' by {
            if k > 0 {
                assert(lines[k] == rest[k - 1]);
            }
        }
    }
}

/// `first_newline` finds a line feed, unless there is none, and there is
/// none before it.
proof fn lemma_first_newline_is_first(s: Seq<char>)
    ensures
        first_newline(s) <= s.len(),
        first_newline(s) < s.len() ==> s[first_newline(s) as int] == '\n',
        forall|i: int| 0 <= i < first_newline(s) ==> s[i] != '\n',
    decreases s.len(),
{
    if s.len() > 0 && s.first() != '\n' {
        let rest = s.drop_first();
        lemma_first_newline_is_first(rest);
        assert forall|i: int| 0 <= i < first_newline(s) implies s[i] != '\n' by {
            if i > 0 {
                assert(s[i] == rest[i - 1]);
            }
        }
    }
}

/// What trimming leaves is a stretch of the text with whitespace alone on
/// both sides of it and, unless it is empty, a character that is no
/// whitespace at each of its ends.
pub proof fn lemma_trimmed_shape(s: Seq<char>)
    ensures
        ({
            let from = s.len() - trim_start(s).len();
            let to = from + trimmed(s).len();
            &&& 0 <= from <= to <= s.len()
            &&& trimmed(s) == s.subrange(from, to)
            &&& forall|i: int| 0 <= i < from ==> is_whitespace(s[i])
            &&& forall|i: int| to <= i < s.len() ==> is_whitespace(s[i])
            &&& trimmed(s).len() > 0 ==> !is_whitespace(trimmed(s).first()) && !is_whitespace(
                trimmed(s).last(),
            )
        }),
{
    let inner = trim_start(s);
    let from = s.len() - inner.len();
    lemma_trim_start_shape(s);
    lemma_trim_end_shape(inner);
    assert forall|i: int| from + trimmed(s).len() <= i < s.len() implies is_whitespace(s[i]) by {
        assert(s[i] == inner[i - from]);
    }
}

/// What `trim_start` leaves is the end of the text, after whitespace alone,
/// and starts with a character that is none.
proof fn lemma_trim_start_shape(s: Seq<char>)
    ensures
        trim_start(s).len() <= s.len(),
        trim_start(s) == s.skip(s.len() - trim_start(s).len()),
        forall|i: int| 0 <= i < s.len() - trim_start(s).len() ==> is_whitespace(s[i]),
        trim_start(s).len() > 0 ==> !is_whitespace(trim_start(s).first()),
    decreases s.len(),
{
    if s.len() > 0 && is_whitespace(s.first()) {
        let rest = s.drop_first();
        lemma_trim_start_shape(rest);
        let cut = s.len() - trim_start(s).len();
        assert forall|i: int| 0 <= i < cut implies is_whitespace(s[i]) by {
            if i > 0 {
                assert(s[i] == rest[i - 1]);
            }
        }
    }
}

/// What `trim_end` leaves is the start of the text, before whitespace alone,
/// and ends with a character that is none.
proof fn lemma_trim_end_shape(s: Seq<char>)
    ensures
        trim_end(s).len() <= s.len(),
        trim_end(s) == s.take(trim_end(s).len() as int),
        forall|i: int| trim_end(s).len() <= i < s.len() ==> is_whitespace(s[i]),
        trim_end(s).len() > 0 ==> !is_whitespace(trim_end(s).last()),
        trim_end(s).len() > 0 ==> trim_end(s).first() == s.first(),
    decreases s.len(),
{
    if s.len() > 0 && is_whitespace(s.last()) {
        let rest = s.drop_last();
        lemma_trim_end_shape(rest);
        assert forall|i: int| trim_end(s).len() <= i < s.len() implies is_whitespace(s[i]) by {
            if i < rest.len() {
                assert(s[i] == rest[i]);
            }
        }
    }
}

/// The data lines of a text are its lines that hold something: each of them
/// a line of the text under its number, counted from 1, trimmed and not
/// blank; in the order of the text; and none that holds something left out.
pub proof fn lemma_data_lines_shape(text: Seq<char>)
    ensures
        holds_the_nonblank(data_lines(text), split_lines(text)),
{
    lemma_nonblank_numbered(split_lines(text));
}

/// Numbering from 1 and dropping the blank lines gives the lines that hold
/// something.
proof fn lemma_nonblank_numbered(lines: Seq<Seq<char>>)
    ensures
        holds_the_nonblank(nonblank(numbered(lines, 1)), lines),
    decreases lines.len(),
{
    reveal(Seq::filter);
    let found = nonblank(numbered(lines, 1));
    if lines.len() > 0 {
        let earlier = lines.drop_last();
        let found_earlier = nonblank(numbered(earlier, 1));
        lemma_nonblank_numbered(earlier);
        assert(numbered(lines, 1).drop_last() == numbered(earlier, 1));
        let last = LineView { number: lines.len(), content: trimmed(lines.last()) };
        assert(found == if last.content.len() > 0 {
            found_earlier.push(last)
        } else {
            found_earlier
        });
        assert forall|k: int|
            0 <= k < lines.len() && trimmed(#[trigger] lines[k]).len() > 0 implies exists|i: int|
            0 <= i < found.len() && (#[trigger] found[i]).number == k + 1 by {
            if k < earlier.len() {
                assert(earlier[k] == lines[k]);
                let i = choose|i: int|
                    0 <= i < found_earlier.len() && (#[trigger] found_earlier[i]).number == k + 1;
                assert(found[i].number == k + 1);
            } else {
                assert(found[found.len() - 1].number == k + 1);
            }
        }
    }
}

/// A text of whitespace alone, the empty text among them, holds no data
/// line.
pub proof fn lemma_blank_text_has_no_data(text: Seq<char>)
    requires
        forall|i: int| 0 <= i < text.len() ==> is_whitespace(text[i]),
    ensures
        data_lines(text) == Seq::<LineView>::empty(),
{
    lemma_lines_of_blank_text(text);
    numbered(split_lines(text), 1).lemma_all_neg_filter_empty(
        |line: LineView| line.content.len() > 0,
    );
}

/// Every line of a text of whitespace alone is whitespace alone.
proof fn lemma_lines_of_blank_text(text: Seq<char>)
    requires
        forall|i: int| 0 <= i < text.len() ==> is_whitespace(text[i]),
    ensures
        forall|k: int|
            0 <= k < split_lines(text).len() ==> trimmed(#[trigger] split_lines(text)[k]).len()
                == 0,
    decreases text.len(),
{
    let n = first_newline(text) as int;
    let lines = split_lines(text);
    if n < text.len() {
        let rest = split_lines(text.skip(n + 1));
        lemma_trim_start(text.take(n), n);
        lemma_lines_of_blank_text(text.skip(n + 1));
        assert forall|k: int| 0 <= k < lines.len() implies trimmed(#[trigger] lines[k]).len()
            == 0 by {
            if k > 0 {
                assert(lines[k] == rest[k - 1]);
            }
        }
    } else {
        lemma_trim_start(text, text.len() as int);
    }
}

} // verus!
