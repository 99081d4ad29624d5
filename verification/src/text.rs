//! Text as sequences of characters: strings and characters, whitespace,
//! words, lines, and looking for one text in another.

use vstd::prelude::*;

verus! {

/// Taken on trust from std: `String::push` appends the character to the end
/// of the string and changes nothing else of it.
pub assume_specification[ String::push ](text: &mut String, c: char)
    ensures
        final(text)@ == old(text)@.push(c),
;

/// The characters of a string, in order.
pub fn chars_of(text: &str) -> (chars: Vec<char>)
    ensures
        chars@ == text@,
{
    let mut chars: Vec<char> = Vec::new();
    for c in it: text.chars()
        invariant
            it.seq() == text@,
            chars@ == text@.take(it.index() as int),
    {
        chars.push(c);
    }
    chars
}

/// The string made of the characters from `start` up to `end`.
pub fn string_of(chars: &[char], start: usize, end: usize) -> (text: String)
    requires
        start <= end <= chars@.len(),
    ensures
        text@ == chars@.subrange(start as int, end as int),
{
    let mut text = String::new();
    let mut i: usize = start;
    while i < end
        invariant
            start <= i <= end <= chars@.len(),
            text@ == chars@.subrange(start as int, i as int),
        decreases end - i,
    {
        text.push(chars[i]);
        i += 1;
    }
    text
}

/// Whether a character has the Unicode property White_Space.
pub open spec fn whitespace(c: char) -> bool {
    let n = c as u32;
    ||| 0x09 <= n <= 0x0D
    ||| n == 0x20
    ||| n == 0x85
    ||| n == 0xA0
    ||| n == 0x1680
    ||| 0x2000 <= n <= 0x200A
    ||| n == 0x2028
    ||| n == 0x2029
    ||| n == 0x202F
    ||| n == 0x205F
    ||| n == 0x3000
}

/// Tests a character for whitespace.
pub fn is_whitespace(c: char) -> (yes: bool)
    ensures
        yes == whitespace(c),
{
    let n: u32 = c as u32;
    (0x09 <= n && n <= 0x0D) || n == 0x20 || n == 0x85 || n == 0xA0 || n == 0x1680 || (0x2000 <= n
        && n <= 0x200A) || n == 0x2028 || n == 0x2029 || n == 0x202F || n == 0x205F || n == 0x3000
}

/// The first position at or after `from` that holds no whitespace, or the
/// end of the text.
pub open spec fn skip_spaces(text: Seq<char>, from: int) -> int
    decreases text.len() - from,
{
    if 0 <= from < text.len() && whitespace(text[from]) {
        skip_spaces(text, from + 1)
    } else {
        from
    }
}

/// The first position at or after `from` that holds whitespace, or the end
/// of the text.
pub open spec fn skip_word(text: Seq<char>, from: int) -> int
    decreases text.len() - from,
{
    if 0 <= from < text.len() && !whitespace(text[from]) {
        skip_word(text, from + 1)
    } else {
        from
    }
}

/// Moves past whitespace.
pub fn past_spaces(chars: &[char], from: usize) -> (stop: usize)
    requires
        from <= chars@.len(),
    ensures
        stop == skip_spaces(chars@, from as int),
        from <= stop <= chars@.len(),
{
    let mut i: usize = from;
    while i < chars.len() && is_whitespace(chars[i])
        invariant
            from <= i <= chars@.len(),
            skip_spaces(chars@, i as int) == skip_spaces(chars@, from as int),
        decreases chars@.len() - i,
    {
        i += 1;
    }
    i
}

/// Moves past a word.
pub fn past_word(chars: &[char], from: usize) -> (stop: usize)
    requires
        from <= chars@.len(),
    ensures
        stop == skip_word(chars@, from as int),
        from <= stop <= chars@.len(),
{
    let mut i: usize = from;
    while i < chars.len() && !is_whitespace(chars[i])
        invariant
            from <= i <= chars@.len(),
            skip_word(chars@, i as int) == skip_word(chars@, from as int),
        decreases chars@.len() - i,
    {
        i += 1;
    }
    i
}

/// The whitespace-separated words of a text from `from` on, in order.
pub open spec fn words_from(text: Seq<char>, from: int) -> Seq<Seq<char>>
    decreases text.len() - from,
{
    let start = skip_spaces(text, from);
    let stop = skip_word(text, start);
    if 0 <= from <= start < stop <= text.len() {
        seq![text.subrange(start, stop)] + words_from(text, stop)
    } else {
        Seq::empty()
    }
}

/// The whitespace-separated words of a text: its longest runs of characters
/// that are not whitespace.
pub open spec fn words_of(text: Seq<char>) -> Seq<Seq<char>> {
    words_from(text, 0)
}

/// The position just after the last character that is not whitespace among
/// the first `upto`, or 0 when there is none.
pub open spec fn back_spaces(text: Seq<char>, upto: int) -> int
    decreases upto,
{
    if 0 < upto <= text.len() && whitespace(text[upto - 1]) {
        back_spaces(text, upto - 1)
    } else {
        upto
    }
}

/// A text without the whitespace at its two ends.
pub open spec fn trimmed(text: Seq<char>) -> Seq<char> {
    let start = skip_spaces(text, 0);
    let end = back_spaces(text, text.len() as int);
    if start <= end {
        text.subrange(start, end)
    } else {
        Seq::empty()
    }
}

/// Removes the whitespace at both ends of a text.
pub fn trim(text: &str) -> (inner: String)
    ensures
        inner@ == trimmed(text@),
{
    let chars = chars_of(text);
    let start = past_spaces(&chars, 0);
    let mut end: usize = chars.len();
    while end > 0 && is_whitespace(chars[end - 1])
        invariant
            end <= chars@.len(),
            back_spaces(chars@, end as int) == back_spaces(chars@, chars@.len() as int),
        decreases end,
    {
        end -= 1;
    }
    if start <= end {
        string_of(&chars, start, end)
    } else {
        String::new()
    }
}

/// The first position at or after `from` that holds a line feed, or the end
/// of the text.
pub open spec fn line_stop(text: Seq<char>, from: int) -> int
    decreases text.len() - from,
{
    if 0 <= from < text.len() && text[from] != '\n' {
        line_stop(text, from + 1)
    } else {
        from
    }
}

/// Where the line that starts at `from` and is closed by the line feed at
/// `stop` ends: a carriage return just before the line feed belongs to the
/// line ending.
pub open spec fn line_end(text: Seq<char>, from: int, stop: int) -> int {
    if from < stop && text[stop - 1] == '\r' {
        stop - 1
    } else {
        stop
    }
}

/// The lines of a text from `from` on.
pub open spec fn lines_from(text: Seq<char>, from: int) -> Seq<Seq<char>>
    decreases text.len() - from,
{
    let stop = line_stop(text, from);
    if 0 <= from <= stop < text.len() {
        seq![text.subrange(from, line_end(text, from, stop))] + lines_from(text, stop + 1)
    } else if 0 <= from < text.len() {
        seq![text.subrange(from, text.len() as int)]
    } else {
        Seq::empty()
    }
}

/// The lines of a text. A line ends at a line feed or at a carriage return
/// followed by one; the ending is not part of the line. The last line needs
/// no ending, and an ending at the end of the text starts no further line.
pub open spec fn lines_of(text: Seq<char>) -> Seq<Seq<char>> {
    lines_from(text, 0)
}

/// A stretch of a text, from `start` up to `end`.
#[derive(Clone, Copy, Debug, PartialEq, Eq)]
pub struct Span {
    pub start: usize,
    pub end: usize,
}

/// The texts that spans cut out of a text.
pub open spec fn span_texts(text: Seq<char>, spans: Seq<Span>) -> Seq<Seq<char>> {
    Seq::new(spans.len(), |i: int| text.subrange(spans[i].start as int, spans[i].end as int))
}

/// Whether every span lies inside a text of the given length.
pub open spec fn spans_within(spans: Seq<Span>, len: nat) -> bool {
    forall|i: int| 0 <= i < spans.len() ==> (#[trigger] spans[i]).start <= spans[i].end <= len
}

/// Finds the lines of a text.
pub fn line_spans(chars: &[char]) -> (spans: Vec<Span>)
    ensures
        spans_within(spans@, chars@.len()),
        span_texts(chars@, spans@) == lines_of(chars@),
{
    let mut spans: Vec<Span> = Vec::new();
    let mut pos: usize = 0;
    while pos < chars.len()
        invariant
            pos <= chars@.len(),
            spans_within(spans@, chars@.len()),
            span_texts(chars@, spans@) + lines_from(chars@, pos as int) == lines_of(chars@),
        decreases chars@.len() - pos,
    {
        let mut stop: usize = pos;
        while stop < chars.len() && chars[stop] != '\n'
            invariant
                pos <= stop <= chars@.len(),
                line_stop(chars@, stop as int) == line_stop(chars@, pos as int),
            decreases chars@.len() - stop,
        {
            stop += 1;
        }
        let end: usize = if pos < stop && stop < chars.len() && chars[stop - 1] == '\r' {
            stop - 1
        } else {
            stop
        };
        spans.push(Span { start: pos, end });
        if stop < chars.len() {
            pos = stop + 1;
        } else {
            pos = stop;
        }
    }
    spans
}

/// Whether `needle` stands in `hay` at position `at`.
pub open spec fn occurs_at(hay: Seq<char>, needle: Seq<char>, at: int) -> bool {
    0 <= at && at + needle.len() <= hay.len() && hay.subrange(at, at + needle.len()) == needle
}

/// Whether `needle` stands somewhere in `hay`, character for character.
pub open spec fn contains_text(hay: Seq<char>, needle: Seq<char>) -> bool {
    exists|at: int| occurs_at(hay, needle, at)
}

/// Tests whether `needle` stands in `hay` at position `at`.
pub fn stands_at(hay: &[char], needle: &[char], at: usize) -> (yes: bool)
    requires
        at + needle@.len() <= hay@.len(),
    ensures
        yes == occurs_at(hay@, needle@, at as int),
{
    let len: usize = hay.len();
    let mut k: usize = 0;
    while k < needle.len()
        invariant
            k <= needle@.len(),
            at + needle@.len() <= hay@.len() == len,
            forall|j: int| 0 <= j < k ==> hay@[at + j] == needle@[j],
        decreases needle@.len() - k,
    {
        if hay[at + k] != needle[k] {
            return false;
        }
        k += 1;
    }
    assert(hay@.subrange(at as int, at + needle@.len()) =~= needle@);
    true
}

/// Tests whether `needle` stands somewhere in `hay`.
pub fn contains(hay: &[char], needle: &[char]) -> (yes: bool)
    ensures
        yes == contains_text(hay@, needle@),
{
    if needle.len() > hay.len() {
        return false;
    }
    let last: usize = hay.len() - needle.len();
    let mut at: usize = 0;
    loop
        invariant
            last == hay@.len() - needle@.len(),
            at <= last,
            forall|k: int| 0 <= k < at ==> !occurs_at(hay@, needle@, k),
        decreases last - at,
    {
        if stands_at(hay, needle, at) {
            return true;
        }
        if at == last {
            return false;
        }
        at += 1;
    }
}

/// What `str::to_lowercase` of std returns for a text: its lower-case form
/// by the Unicode mappings, which depends on the text alone.
pub uninterp spec fn lowercase_of(text: Seq<char>) -> Seq<char>;

/// Taken on trust from std: `str::to_lowercase` returns the text that
/// `lowercase_of` names.
pub assume_specification[ str::to_lowercase ](text: &str) -> (lower: String)
    ensures
        lower@ == lowercase_of(text@),
;

} // verus!
