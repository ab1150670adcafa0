use busmem::options::Flags;
use busmem::report::{render_counts, render_tally};
use busmem::text::{count_bytes, count_text, Counts, Tally};

fn counts() -> Counts {
    Counts { lines: 1, words: 22, bytes: 333, chars: 4444, max_line_length: 55555 }
}

fn flags(lines: bool, words: bool, bytes: bool, chars: bool, max_line_length: bool) -> Flags {
    Flags { lines, words, bytes, chars, max_line_length }
}

#[test]
fn without_flags_lines_words_and_bytes_are_shown() {
    let line = render_counts(&counts(), &Flags::default(), None);
    assert_eq!(line, "       1      22     333");
}

#[test]
fn the_file_name_follows_after_a_space() {
    let line = render_counts(&counts(), &Flags::default(), Some("notes.txt"));
    assert_eq!(line, "       1      22     333 notes.txt");
    let line = render_counts(&counts(), &Flags::default(), Some(""));
    assert_eq!(line, "       1      22     333 ");
}

#[test]
fn single_counts() {
    assert_eq!(render_counts(&counts(), &flags(true, false, false, false, false), None), "       1");
    assert_eq!(render_counts(&counts(), &flags(false, true, false, false, false), None), "      22");
    assert_eq!(render_counts(&counts(), &flags(false, false, true, false, false), None), "     333");
    assert_eq!(render_counts(&counts(), &flags(false, false, false, true, false), None), "    4444");
    assert_eq!(render_counts(&counts(), &flags(false, false, false, false, true), None), "   55555");
}

#[test]
fn characters_come_before_bytes() {
    let line = render_counts(&counts(), &flags(true, true, true, true, true), Some("f"));
    assert_eq!(line, "       1      22    4444     333   55555 f");
    let line = render_counts(&counts(), &flags(false, false, true, true, false), None);
    assert_eq!(line, "    4444     333");
}

#[test]
fn wide_numbers_push_the_column_out() {
    let wide = Counts { lines: 123456789, words: 0, bytes: 12345678, chars: 0, max_line_length: 0 };
    assert_eq!(render_counts(&wide, &Flags::default(), None), "123456789       012345678");
    let most = Counts {
        lines: usize::MAX,
        words: 0,
        bytes: 0,
        chars: 0,
        max_line_length: 0,
    };
    let line = render_counts(&most, &flags(true, false, false, false, false), None);
    assert_eq!(line, usize::MAX.to_string());
}

#[test]
fn zero_is_one_digit() {
    let none = Counts { lines: 0, words: 0, bytes: 0, chars: 0, max_line_length: 0 };
    assert_eq!(render_counts(&none, &Flags::default(), None), "       0       0       0");
}

#[test]
fn counted_text_is_rendered() {
    let c = count_text("hello world\n");
    assert_eq!(render_counts(&c, &Flags::default(), Some("hello.txt")), "       1       2      12 hello.txt");
}

#[test]
fn tally_columns_are_four_wide() {
    let t = Tally { lines: 1, words: 22, bytes: 333 };
    assert_eq!(render_tally(&t, "a.txt"), "   1   22  333 a.txt");
    let t = Tally { lines: 0, words: 12345, bytes: 4444 };
    assert_eq!(render_tally(&t, "b"), "   0 12345 4444 b");
}

#[test]
fn counted_bytes_are_rendered() {
    let t = count_bytes(b"one two\nthree\n");
    assert_eq!(render_tally(&t, "f.txt"), "   2    3   14 f.txt");
}

#[test]
fn every_width_of_number_is_rendered_in_decimal() {
    let mut n: usize = 0;
    let mut text = String::from("0");
    for digits in 1..=9usize {
        let t = Tally { lines: n, words: n + 1, bytes: 7 };
        let line = render_tally(&t, "x");
        let fields: Vec<&str> = line.split(' ').filter(|f| !f.is_empty()).collect();
        assert_eq!(fields, vec![text.as_str(), (n + 1).to_string().as_str(), "7", "x"]);
        assert_eq!(line.len(), format!("{:>4} {:>4} {:>4} x", n, n + 1, 7).len());
        assert_eq!(line, format!("{:>4} {:>4} {:>4} x", n, n + 1, 7));
        n = n * 10 + digits;
        text = n.to_string();
    }
}
