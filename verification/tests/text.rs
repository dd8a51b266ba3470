use rscan::text::{
    find_line_end, find_word, is_space_byte, read_unsigned, split_words, word_at, Span,
};

fn word_texts<'a>(data: &'a [u8], from: usize, to: usize) -> Vec<&'a [u8]> {
    split_words(data, from, to).iter().map(|w: &Span| &data[w.start..w.end]).collect()
}

#[test]
fn whitespace_is_space_tab_and_the_line_controls() {
    for b in [b' ', b'\t', b'\n', 0x0b, 0x0c, b'\r'] {
        assert!(is_space_byte(b));
    }
    for b in [0u8, 0x08, 0x0e, 0x1f, b'a', b'0', b'_', 0x85, 0xa0, 0xff] {
        assert!(!is_space_byte(b));
    }
}

#[test]
fn a_line_ends_after_its_line_feed() {
    let data = b"ab\ncd\n\nxyz";
    assert_eq!(find_line_end(data, 0), 3);
    assert_eq!(find_line_end(data, 1), 3);
    assert_eq!(find_line_end(data, 2), 3);
    assert_eq!(find_line_end(data, 3), 6);
    assert_eq!(find_line_end(data, 6), 7);
    assert_eq!(find_line_end(data, 7), 10);
    assert_eq!(find_line_end(data, 10), 10);
}

#[test]
fn words_are_runs_between_whitespace() {
    let data = b"  alpha\tbeta  \r\n gamma";
    assert_eq!(word_texts(data, 0, data.len()), vec![&b"alpha"[..], &b"beta"[..], &b"gamma"[..]]);
    assert_eq!(word_texts(data, 0, 16), vec![&b"alpha"[..], &b"beta"[..]]);
    assert_eq!(word_texts(data, 4, 10), vec![&b"pha"[..], &b"be"[..]]);
    assert!(word_texts(data, 12, 17).is_empty());
    assert!(word_texts(data, 3, 3).is_empty());
    assert!(split_words(b"", 0, 0).is_empty());
    let spans = split_words(b"a bc", 0, 4);
    assert_eq!((spans[0].start, spans[0].end), (0, 1));
    assert_eq!((spans[1].start, spans[1].end), (2, 4));
}

#[test]
fn a_word_is_matched_where_it_stands() {
    let data = b"element vertex 12";
    assert!(word_at(data, 0, data.len(), b"element vertex"));
    assert!(word_at(data, 8, data.len(), b"vertex"));
    assert!(!word_at(data, 1, data.len(), b"element"));
    assert!(!word_at(data, 8, 13, b"vertex"));
    assert!(word_at(data, 8, 14, b"vertex"));
    assert!(word_at(data, 5, 5, b""));
    assert!(!word_at(data, 15, data.len(), b"123"));
}

#[test]
fn a_word_is_found_anywhere_in_the_window() {
    let data = b"property uchar red";
    assert!(find_word(data, 0, data.len(), b"red"));
    assert!(find_word(data, 15, data.len(), b"red"));
    assert!(!find_word(data, 16, data.len(), b"red"));
    assert!(!find_word(data, 0, data.len() - 1, b"red"));
    assert!(find_word(b"predicate", 0, 9, b"red"));
    assert!(!find_word(b"re d", 0, 4, b"red"));
    assert!(!find_word(b"", 0, 0, b"red"));
    assert!(find_word(b"", 0, 0, b""));
}

#[test]
fn unsigned_numbers_are_read_in_base_ten() {
    assert_eq!(read_unsigned(b"0", 0, 1, 255), Some(0));
    assert_eq!(read_unsigned(b"12", 0, 2, 255), Some(12));
    assert_eq!(read_unsigned(b"007", 0, 3, 255), Some(7));
    assert_eq!(read_unsigned(b"+42", 0, 3, 255), Some(42));
    assert_eq!(read_unsigned(b"x123y", 1, 4, 255), Some(123));
    assert_eq!(read_unsigned(b"255", 0, 3, 255), Some(255));
    assert_eq!(read_unsigned(b"18446744073709551615", 0, 20, u64::MAX), Some(u64::MAX));
    assert_eq!(read_unsigned(b"4294967295", 0, 10, 4294967295), Some(4294967295));
}

#[test]
fn what_is_no_unsigned_number_in_range_is_not_read() {
    assert_eq!(read_unsigned(b"", 0, 0, 255), None);
    assert_eq!(read_unsigned(b"+", 0, 1, 255), None);
    assert_eq!(read_unsigned(b"-1", 0, 2, 255), None);
    assert_eq!(read_unsigned(b"++1", 0, 3, 255), None);
    assert_eq!(read_unsigned(b"1+", 0, 2, 255), None);
    assert_eq!(read_unsigned(b"1.0", 0, 3, 255), None);
    assert_eq!(read_unsigned(b"12a", 0, 3, 255), None);
    assert_eq!(read_unsigned(b" 1", 0, 2, 255), None);
    assert_eq!(read_unsigned(b"256", 0, 3, 255), None);
    assert_eq!(read_unsigned(b"1000", 0, 4, 255), None);
    assert_eq!(read_unsigned(b"18446744073709551616", 0, 20, u64::MAX), None);
    assert_eq!(read_unsigned(b"99999999999999999999999", 0, 23, u64::MAX), None);
    assert_eq!(read_unsigned(b"4294967296", 0, 10, 4294967295), None);
    assert_eq!(read_unsigned(b"1", 0, 1, 0), None);
    assert_eq!(read_unsigned(b"0", 0, 1, 0), Some(0));
}
