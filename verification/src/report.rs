//! Laying out counts as the line of text that is shown for them.

use vstd::prelude::*;
use vstd::string::StringExecFns;
use crate::options::Flags;
use crate::text::{Counts, Tally};

verus! {

/// The character that stands for the digit `d`.
pub open spec fn digit(d: nat) -> char {
    ((48 + d) as u8) as char
}

/// `n` in decimal, without leading zeros.
pub open spec fn decimal(n: nat) -> Seq<char>
    decreases n,
{
    if n < 10 {
        seq![digit(n)]
    } else {
        decimal(n / 10).push(digit(n % 10))
    }
}

/// `text` with as many spaces in front as it takes to make it `width`
/// characters long; `text` itself if it is that long already.
pub open spec fn right_aligned(text: Seq<char>, width: nat) -> Seq<char> {
    if text.len() >= width {
        text
    } else {
        Seq::new((width - text.len()) as nat, |i: int| ' ') + text
    }
}

/// A number as it stands in a column `width` wide.
pub open spec fn cell(n: usize, width: nat) -> Seq<char> {
    right_aligned(decimal(n as nat), width)
}

/// `format!` with a right-aligned width: the number in decimal, with spaces
/// in front up to `width` characters, and never cut short. A width handed
/// over at run time has to fit 16 bits; `format!` stops the program on a
/// larger one, so none is admitted.
#[verifier::external_body]
fn pad_number(n: usize, width: usize) -> (out: String)
    requires
        width <= 0xffff,
    ensures
        out@ == cell(n, width as nat),
{
    format!("{:>1$}", n, width)
}

/// The column of one count: 8 wide if the count is shown, nothing if it is not.
pub open spec fn column(shown: bool, n: usize) -> Seq<char> {
    if shown {
        cell(n, 8)
    } else {
        Seq::empty()
    }
}

/// The counts that are shown, side by side: those asked for, in the order
/// lines, words, characters, bytes, longest line; lines, words and bytes where
/// none was asked for.
pub open spec fn columns(counts: Counts, flags: Flags) -> Seq<char> {
    if flags.any() {
        column(flags.lines, counts.lines) + column(flags.words, counts.words) + column(
            flags.chars,
            counts.chars,
        ) + column(flags.bytes, counts.bytes) + column(
            flags.max_line_length,
            counts.max_line_length,
        )
    } else {
        cell(counts.lines, 8) + cell(counts.words, 8) + cell(counts.bytes, 8)
    }
}

/// The line shown for a text: its columns, then a space and the file's name
/// where it has one. The line feed that ends the line is not part of it.
pub open spec fn counts_line(counts: Counts, flags: Flags, filename: Option<Seq<char>>) -> Seq<char> {
    match filename {
        Some(name) => columns(counts, flags) + seq![' '] + name,
        None => columns(counts, flags),
    }
}

/// The line shown for a plain tally: lines, words and bytes, each 4 wide and
/// a space apart, then a space and the file's name.
pub open spec fn tally_line(tally: Tally, filename: Seq<char>) -> Seq<char> {
    cell(tally.lines, 4) + seq![' '] + cell(tally.words, 4) + seq![' '] + cell(tally.bytes, 4)
        + seq![' '] + filename
}

/// Appends the column of one count.
fn push_column(line: &mut String, shown: bool, n: usize)
    ensures
        final(line)@ == old(line)@ + column(shown, n),
{
    if shown {
        let text = pad_number(n, 8);
        line.append(text.as_str());
    } else {
        assert(line@ + Seq::<char>::empty() =~= line@);
    }
}

/// Lays out the counts of a text as one line, without the line feed at its end.
pub fn render_counts(counts: &Counts, flags: &Flags, filename: Option<&str>) -> (line: String)
    ensures
        line@ == counts_line(
            *counts,
            *flags,
            match filename {
                Some(name) => Some(name@),
                None => None,
            },
        ),
{
    let mut line = String::new();
    assert(Seq::<char>::empty() + column(flags.lines, counts.lines) =~= column(
        flags.lines,
        counts.lines,
    ));
    push_column(&mut line, flags.lines, counts.lines);
    push_column(&mut line, flags.words, counts.words);
    push_column(&mut line, flags.chars, counts.chars);
    push_column(&mut line, flags.bytes, counts.bytes);
    push_column(&mut line, flags.max_line_length, counts.max_line_length);
    if !(flags.lines || flags.words || flags.chars || flags.bytes || flags.max_line_length) {
        assert(line@ =~= Seq::<char>::empty());
        push_column(&mut line, true, counts.lines);
        push_column(&mut line, true, counts.words);
        push_column(&mut line, true, counts.bytes);
        assert(line@ =~= columns(*counts, *flags));
    }
    match filename {
        Some(name) => {
            line.append(" ");
            line.append(name);
            proof {
                reveal_strlit(" ");
                assert(" "@ =~= seq![' ']);
            }
        },
        None => {},
    }
    line
}

/// Lays out a plain tally as one line, without the line feed at its end.
pub fn render_tally(tally: &Tally, filename: &str) -> (line: String)
    ensures
        line@ == tally_line(*tally, filename@),
{
    proof {
        reveal_strlit(" ");
        assert(" "@ =~= seq![' ']);
    }
    let mut line = pad_number(tally.lines, 4);
    line.append(" ");
    line.append(pad_number(tally.words, 4).as_str());
    line.append(" ");
    line.append(pad_number(tally.bytes, 4).as_str());
    line.append(" ");
    line.append(filename);
    line
}

} // verus!
