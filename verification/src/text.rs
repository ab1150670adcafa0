//! Counting lines, words, characters and bytes of a text.

use vstd::prelude::*;
use vstd::utf8::encode_utf8;

verus! {

/// What was counted in a text.
pub struct Counts {
    pub lines: usize,
    pub words: usize,
    pub bytes: usize,
    pub chars: usize,
    pub max_line_length: usize,
}

/// What `char::is_whitespace` answers for a character.
pub uninterp spec fn is_space(c: char) -> bool;

/// Whether a character up to U+007F is white space: the space, and the five
/// characters from U+0009 (tab) to U+000D (carriage return).
pub open spec fn is_ascii_white(c: char) -> bool {
    c == ' ' || 0x09 <= c as u32 <= 0x0d
}

/// Whether a character is white space: for the characters up to U+007F as
/// `is_ascii_white` lists them, for the others as `char::is_whitespace` answers.
pub open spec fn is_white(c: char) -> bool {
    if c as u32 <= 0x7f {
        is_ascii_white(c)
    } else {
        is_space(c)
    }
}

/// `char::is_whitespace`, which tells whether a character has Unicode's
/// `White_Space` property. The answer depends on the character alone and
/// goes by the name `is_space`. Up to U+007F it is true of the space and of
/// U+0009 to U+000D and of no other character; of the characters beyond,
/// which a table of the standard library decides, nothing more is claimed.
#[verifier::external_body]
fn is_whitespace(c: char) -> (r: bool)
    ensures
        r == is_space(c),
        c as u32 <= 0x7f ==> r == is_ascii_white(c),
{
    c.is_whitespace()
}

/// For each character of `s`, whether it is white space.
pub open spec fn spaces_of(s: Seq<char>) -> Seq<bool> {
    Seq::new(s.len(), |i: int| is_white(s[i]))
}

/// Whether a word starts at position `i`, where `spaces` tells for each
/// position whether white space stands there: no white space at `i`, and `i`
/// is the start of the text or comes right after white space.
pub open spec fn starts_word(spaces: Seq<bool>, i: int) -> bool {
    !spaces[i] && (i == 0 || spaces[i - 1])
}

/// Number of words in a text, where `spaces` tells for each position whether
/// white space stands there: the number of maximal runs without white space.
pub open spec fn word_count(spaces: Seq<bool>) -> nat
    decreases spaces.len(),
{
    if spaces.len() == 0 {
        0
    } else {
        word_count(spaces.drop_last()) + if starts_word(spaces, spaces.len() - 1) {
            1nat
        } else {
            0nat
        }
    }
}

/// What follows the last line feed of `s`: all of `s` if it holds none.
pub open spec fn open_line(s: Seq<char>) -> Seq<char>
    decreases s.len(),
{
    if s.len() == 0 || s.last() == '\n' {
        Seq::empty()
    } else {
        open_line(s.drop_last()).push(s.last())
    }
}

/// A line without the carriage return at its end, if it has one.
pub open spec fn without_cr(line: Seq<char>) -> Seq<char> {
    if line.len() > 0 && line.last() == '\r' {
        line.drop_last()
    } else {
        line
    }
}

/// The lines of `s` that a line feed ends, in order, each without its line
/// feed and without a carriage return right before it.
pub open spec fn ended_lines(s: Seq<char>) -> Seq<Seq<char>>
    decreases s.len(),
{
    if s.len() == 0 {
        Seq::empty()
    } else if s.last() == '\n' {
        ended_lines(s.drop_last()).push(without_cr(open_line(s.drop_last())))
    } else {
        ended_lines(s.drop_last())
    }
}

/// The lines of `s`: those that a line feed ends, and what follows the last
/// line feed if anything does. A carriage return counts as part of the line
/// ending only right before a line feed.
pub open spec fn lines_of(s: Seq<char>) -> Seq<Seq<char>> {
    if open_line(s).len() > 0 {
        ended_lines(s).push(open_line(s))
    } else {
        ended_lines(s)
    }
}

/// Length of the longest of `lines`, in characters; 0 if there is none.
pub open spec fn longest(lines: Seq<Seq<char>>) -> nat
    decreases lines.len(),
{
    if lines.len() == 0 {
        0
    } else if lines.last().len() >= longest(lines.drop_last()) {
        lines.last().len()
    } else {
        longest(lines.drop_last())
    }
}

/// Counts the words of a text from its white space: `spaces` tells for each
/// character whether it is white space.
pub fn count_words(spaces: &[bool]) -> (words: usize)
    ensures
        words == word_count(spaces@),
{
    let mut words: usize = 0;
    let mut after_space = true;
    let mut i: usize = 0;
    while i < spaces.len()
        invariant
            i <= spaces@.len(),
            words == word_count(spaces@.take(i as int)),
            after_space == (i == 0 || spaces@[i - 1]),
            words <= i,
        decreases spaces@.len() - i,
    {
        assert(spaces@.take(i + 1).drop_last() =~= spaces@.take(i as int));
        let space = spaces[i];
        if !space && after_space {
            words += 1;
        }
        after_space = space;
        i += 1;
    }
    assert(spaces@.take(spaces@.len() as int) =~= spaces@);
    words
}

/// Counts the lines of a text and measures the longest of them, in characters.
pub fn measure_lines(chars: &[char]) -> (measure: (usize, usize))
    ensures
        measure.0 == lines_of(chars@).len(),
        measure.1 == longest(lines_of(chars@)),
{
    let mut ended: usize = 0;
    let mut longest_ended: usize = 0;
    let mut open: usize = 0;
    let mut open_ends_in_cr = false;
    let mut i: usize = 0;
    while i < chars.len()
        invariant
            i <= chars@.len(),
            ended == ended_lines(chars@.take(i as int)).len(),
            longest_ended == longest(ended_lines(chars@.take(i as int))),
            open == open_line(chars@.take(i as int)).len(),
            open_ends_in_cr == (open > 0 && open_line(chars@.take(i as int)).last() == '\r'),
            ended + open <= i,
        decreases chars@.len() - i,
    {
        let ghost before = chars@.take(i as int);
        let ghost now = chars@.take(i + 1);
        assert(now.drop_last() =~= before);
        let c = chars[i];
        if c == '\n' {
            assert(ended_lines(now).drop_last() =~= ended_lines(before));
            let len = if open_ends_in_cr {
                open - 1
            } else {
                open
            };
            if len > longest_ended {
                longest_ended = len;
            }
            ended += 1;
            open = 0;
            open_ends_in_cr = false;
        } else {
            open += 1;
            open_ends_in_cr = c == '\r';
        }
        i += 1;
    }
    assert(chars@.take(chars@.len() as int) =~= chars@);
    if open > 0 {
        assert(lines_of(chars@).drop_last() =~= ended_lines(chars@));
        (ended + 1, if open > longest_ended { open } else { longest_ended })
    } else {
        (ended, longest_ended)
    }
}

/// Counts a text: its bytes in UTF-8, its characters, its lines, its words,
/// and the length in characters of its longest line.
pub fn count_text(input: &str) -> (counts: Counts)
    ensures
        counts.bytes == encode_utf8(input@).len(),
        counts.chars == input@.len(),
        counts.lines == lines_of(input@).len(),
        counts.words == word_count(spaces_of(input@)),
        counts.max_line_length == longest(lines_of(input@)),
{
    let bytes = input.as_bytes().len();
    let mut chars: Vec<char> = Vec::new();
    let mut spaces: Vec<bool> = Vec::new();
    for c in it: input.chars()
        invariant
            it.seq() == input@,
            chars@ == input@.take(it.index() as int),
            spaces@ == spaces_of(input@.take(it.index() as int)),
    {
        chars.push(c);
        spaces.push(is_whitespace(c));
        assert(chars@ =~= input@.take(it.index() + 1));
        assert(spaces@ =~= spaces_of(input@.take(it.index() + 1)));
    }
    assert(input@.take(input@.len() as int) =~= input@);
    let words = count_words(spaces.as_slice());
    let (lines, max_line_length) = measure_lines(chars.as_slice());
    Counts { lines, words, bytes, chars: chars.len(), max_line_length }
}

/// What was counted in a run of bytes.
pub struct Tally {
    pub lines: usize,
    pub words: usize,
    pub bytes: usize,
}

/// Whether a byte is ASCII white space: space, tab, line feed, form feed or
/// carriage return.
pub open spec fn is_ascii_space(b: u8) -> bool {
    b == 0x20 || b == 0x09 || b == 0x0a || b == 0x0c || b == 0x0d
}

/// Tells whether a byte is ASCII white space.
fn is_ascii_whitespace(b: u8) -> (r: bool)
    ensures
        r == is_ascii_space(b),
{
    b == 0x20 || b == 0x09 || b == 0x0a || b == 0x0c || b == 0x0d
}

/// Number of line feeds in `s`.
pub open spec fn line_feeds(s: Seq<u8>) -> nat
    decreases s.len(),
{
    if s.len() == 0 {
        0
    } else {
        line_feeds(s.drop_last()) + if s.last() == 0x0a {
            1nat
        } else {
            0nat
        }
    }
}

/// Whether a word starts at position `i` of `s`: a byte that is not ASCII
/// white space, at the start or right after ASCII white space.
pub open spec fn starts_ascii_word(s: Seq<u8>, i: int) -> bool {
    !is_ascii_space(s[i]) && (i == 0 || is_ascii_space(s[i - 1]))
}

/// Number of words in `s`: maximal runs of bytes that are not ASCII white space.
pub open spec fn ascii_word_count(s: Seq<u8>) -> nat
    decreases s.len(),
{
    if s.len() == 0 {
        0
    } else {
        ascii_word_count(s.drop_last()) + if starts_ascii_word(s, s.len() - 1) {
            1nat
        } else {
            0nat
        }
    }
}

/// Counts a run of bytes: its line feeds, its words, and its length.
pub fn count_bytes(data: &[u8]) -> (tally: Tally)
    ensures
        tally.lines == line_feeds(data@),
        tally.words == ascii_word_count(data@),
        tally.bytes == data@.len(),
{
    let mut lines: usize = 0;
    let mut words: usize = 0;
    let mut in_word = false;
    let mut i: usize = 0;
    while i < data.len()
        invariant
            i <= data@.len(),
            lines == line_feeds(data@.take(i as int)),
            words == ascii_word_count(data@.take(i as int)),
            in_word == (i > 0 && !is_ascii_space(data@[i - 1])),
            lines <= i,
            words <= i,
        decreases data@.len() - i,
    {
        let b = data[i];
        assert(data@.take(i + 1).drop_last() =~= data@.take(i as int));
        if b == 0x0a {
            lines += 1;
        }
        if is_ascii_whitespace(b) {
            in_word = false;
        } else if !in_word {
            words += 1;
            in_word = true;
        }
        i += 1;
    }
    assert(data@.take(data@.len() as int) =~= data@);
    Tally { lines, words, bytes: data.len() }
}

} // verus!
