use busmem::text::{count_bytes, count_text, count_words, measure_lines};

fn check(input: &str, lines: usize, words: usize, bytes: usize, chars: usize, longest: usize) {
    let c = count_text(input);
    assert_eq!(c.lines, lines, "lines of {:?}", input);
    assert_eq!(c.words, words, "words of {:?}", input);
    assert_eq!(c.bytes, bytes, "bytes of {:?}", input);
    assert_eq!(c.chars, chars, "chars of {:?}", input);
    assert_eq!(c.max_line_length, longest, "longest line of {:?}", input);
}

fn agrees_with_std(input: &str) {
    let c = count_text(input);
    assert_eq!(c.bytes, input.as_bytes().len());
    assert_eq!(c.chars, input.chars().count());
    assert_eq!(c.lines, input.lines().count());
    assert_eq!(c.words, input.split_whitespace().count());
    assert_eq!(
        c.max_line_length,
        input.lines().map(|line| line.chars().count()).max().unwrap_or(0)
    );
}

#[test]
fn empty_text_counts_nothing() {
    check("", 0, 0, 0, 0, 0);
}

#[test]
fn one_line_with_two_words() {
    check("hello world\n", 1, 2, 12, 12, 11);
}

#[test]
fn last_line_needs_no_line_feed() {
    check("one\ntwo", 2, 2, 7, 7, 3);
    check("one\ntwo\n", 2, 2, 8, 8, 3);
}

#[test]
fn empty_lines_are_lines() {
    check("\n", 1, 0, 1, 1, 0);
    check("\n\n\n", 3, 0, 3, 3, 0);
    check("a\n\nbcd\n", 3, 2, 7, 7, 3);
}

#[test]
fn carriage_return_before_line_feed_belongs_to_the_line_ending() {
    check("ab\r\ncde\r\n", 2, 2, 9, 9, 3);
    check("\r\n", 1, 0, 2, 2, 0);
}

#[test]
fn bare_carriage_return_belongs_to_the_line() {
    check("ab\rcd\n", 1, 2, 6, 6, 5);
    check("ab\r", 1, 1, 3, 3, 3);
    check("ab\r\r\n", 1, 1, 5, 5, 3);
}

#[test]
fn characters_are_not_bytes() {
    check("héllo wörld\n", 1, 2, 14, 12, 11);
    check("日本語 テキスト", 1, 2, 22, 8, 8);
    check("🦀", 1, 1, 4, 1, 1);
}

#[test]
fn unicode_white_space_separates_words() {
    check("a\u{00a0}b\u{2003}c\u{3000}d", 1, 4, 12, 7, 7);
    check("a\u{200b}b", 1, 1, 5, 3, 3);
    check(" \t\u{0085} ", 1, 0, 5, 4, 4);
}

#[test]
fn runs_of_white_space_separate_once() {
    check("  lead   and   trail  ", 1, 3, 22, 22, 22);
    check("a\tb\nc  d\n", 2, 4, 9, 9, 4);
}

#[test]
fn longest_line_may_be_the_last() {
    check("a\nbb\nccc", 3, 3, 8, 8, 3);
    check("ccc\nbb\na", 3, 3, 8, 8, 3);
}

#[test]
fn counts_agree_with_the_standard_library() {
    for input in [
        "",
        "\n",
        "\r",
        "\r\n",
        "\n\r",
        "a",
        "a\r",
        "a\r\n",
        "a\n\rb",
        "x\r\r\ny\r",
        "one two  three\nfour\r\nfive",
        "tabs\tand\u{000b}vertical\u{000c}feeds\n",
        "héllo wörld\n🦀 crab\n",
        " \n \n",
        "no newline at all",
        "\u{2028}line separator\u{2029}",
    ] {
        agrees_with_std(input);
    }
}

#[test]
fn tally_of_nothing() {
    let t = count_bytes(b"");
    assert_eq!((t.lines, t.words, t.bytes), (0, 0, 0));
}

#[test]
fn tally_counts_line_feeds_not_lines() {
    let t = count_bytes(b"one\ntwo");
    assert_eq!((t.lines, t.words, t.bytes), (1, 2, 7));
    let t = count_bytes(b"one\ntwo\n");
    assert_eq!((t.lines, t.words, t.bytes), (2, 2, 8));
    let t = count_bytes(b"\n\n");
    assert_eq!((t.lines, t.words, t.bytes), (2, 0, 2));
}

#[test]
fn tally_splits_words_at_ascii_white_space_only() {
    let t = count_bytes(b"a b\tc\nd\x0ce\rf");
    assert_eq!((t.lines, t.words, t.bytes), (1, 6, 11));
    // vertical tab and the bytes of a no-break space are no ASCII white space
    let t = count_bytes(b"a\x0bb");
    assert_eq!(t.words, 1);
    let t = count_bytes("a\u{00a0}b".as_bytes());
    assert_eq!((t.words, t.bytes), (1, 4));
}

#[test]
fn tally_of_a_sentence() {
    let t = count_bytes(b"  the quick  brown fox \n jumps\n");
    assert_eq!((t.lines, t.words, t.bytes), (2, 5, 31));
}

#[test]
fn words_are_runs_without_white_space() {
    assert_eq!(count_words(&[]), 0);
    assert_eq!(count_words(&[true]), 0);
    assert_eq!(count_words(&[false]), 1);
    assert_eq!(count_words(&[false, false, false]), 1);
    assert_eq!(count_words(&[true, true, false]), 1);
    assert_eq!(count_words(&[false, true, false]), 2);
    assert_eq!(count_words(&[false, true, true, false, false, true]), 2);
    assert_eq!(count_words(&[true, false, true, false, true, false, true]), 3);
}

#[test]
fn lines_are_counted_and_measured() {
    let chars = |text: &str| text.chars().collect::<Vec<char>>();
    assert_eq!(measure_lines(&chars("")), (0, 0));
    assert_eq!(measure_lines(&chars("\n")), (1, 0));
    assert_eq!(measure_lines(&chars("abc")), (1, 3));
    assert_eq!(measure_lines(&chars("abc\n")), (1, 3));
    assert_eq!(measure_lines(&chars("abc\r\n")), (1, 3));
    assert_eq!(measure_lines(&chars("abc\r")), (1, 4));
    assert_eq!(measure_lines(&chars("a\nbcde\nfg")), (3, 4));
    assert_eq!(measure_lines(&chars("\r\r\n\r")), (2, 1));
}

#[test]
fn every_character_is_told_apart_as_the_standard_library_does() {
    let mut text = String::new();
    let mut expected = 0usize;
    for c in (0..=0x10ffffu32).filter_map(char::from_u32) {
        // each character that is no white space is a word of its own
        text.push(c);
        text.push(' ');
        if !c.is_whitespace() {
            expected += 1;
        }
    }
    assert_eq!(count_text(&text).words, expected);
}

#[test]
fn every_byte_is_told_apart_as_ascii_white_space_or_not() {
    for b in 0..=255u8 {
        let space = b == 0x20 || b == 0x09 || b == 0x0a || b == 0x0c || b == 0x0d;
        assert_eq!(space, b.is_ascii_whitespace(), "byte {:#04x}", b);
        let t = count_bytes(&[b'a', b, b'b']);
        assert_eq!(t.words, if space { 2 } else { 1 }, "byte {:#04x}", b);
        assert_eq!(t.lines, if b == 0x0a { 1 } else { 0 });
    }
}

#[test]
fn ascii_white_space_is_the_space_and_tab_to_carriage_return() {
    for b in 0..=0x7fu8 {
        let c = b as char;
        let space = c == ' ' || (0x09..=0x0d).contains(&b);
        let text: String = ['a', c, 'b'].iter().collect();
        assert_eq!(count_text(&text).words, if space { 2 } else { 1 }, "character {:#04x}", b);
    }
}
