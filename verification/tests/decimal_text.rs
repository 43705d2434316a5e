use hockeyscraper::decimal::parse_unsigned_range;
use hockeyscraper::scrape::game_center_url;
use hockeyscraper::report::parse_count;
use hockeyscraper::text::{
    chars_for_bytes, chars_of, line_list, split_list, find_seq_from, trim_bounds,
};

const SAMPLES: [&str; 22] = [
    "", "0", "7", "42", "+5", "+", "-", "-3", "++1", "12a", " 1", "1 ", "007",
    "18446744073709551615", "18446744073709551616", "99999999999999999999", "\u{661}",
    "4294967295", "4294967296", "255", "256", "65536",
];

#[test]
fn parse_count_agrees_with_str_parse() {
    for s in SAMPLES.iter() {
        assert_eq!(parse_count(s), s.parse::<usize>().ok(), "input {:?}", s);
    }
}

#[test]
fn parse_range_agrees_with_narrow_types() {
    for s in SAMPLES.iter() {
        let v = chars_of(s);
        let n = v.len();
        assert_eq!(parse_unsigned_range(&v, 0, n, 255).map(|x| x as u8), s.parse::<u8>().ok());
        assert_eq!(parse_unsigned_range(&v, 0, n, 65535).map(|x| x as u16), s.parse::<u16>().ok());
        assert_eq!(
            parse_unsigned_range(&v, 0, n, u32::MAX as u64).map(|x| x as u32),
            s.parse::<u32>().ok()
        );
    }
}

#[test]
fn parse_range_reads_a_middle_piece() {
    let v = chars_of("ab123cd");
    assert_eq!(parse_unsigned_range(&v, 2, 5, u64::MAX), Some(123));
    assert_eq!(parse_unsigned_range(&v, 2, 2, u64::MAX), None);
}

#[test]
fn numerals_agree_with_to_string() {
    for n in [0usize, 1, 9, 10, 99, 100, 2020020001, usize::MAX] {
        assert_eq!(game_center_url(n), format!("https://www.nhl.com/gamecenter/{}", n));
    }
}

#[test]
fn trim_agrees_with_str_trim() {
    for s in ["", "  a b  ", "\t\n x\u{a0}", "\u{3000}y\u{2028}", "\u{85}", "abc", " \r\n "] {
        let v = chars_of(s);
        let (a, b) = trim_bounds(&v);
        let t: String = v[a..b].iter().collect();
        assert_eq!(t, s.trim());
    }
}

#[test]
fn lines_agree_with_str_lines() {
    for s in ["", "a", "a\n", "a\r\nb", "a\rb\r", "\n\n", "x\n\ny\r\n", "last\r"] {
        let v = chars_of(s);
        let got: Vec<String> = line_list(&v).iter().map(|l| l.iter().collect()).collect();
        let want: Vec<String> = s.lines().map(|l| l.to_string()).collect();
        assert_eq!(got, want, "input {:?}", s);
    }
}

#[test]
fn split_agrees_with_str_split() {
    for s in ["", "-", "a-b", "a--b-", "2020-01-16", "no"] {
        let v = chars_of(s);
        let got: Vec<String> = split_list(&v, '-').iter().map(|l| l.iter().collect()).collect();
        let want: Vec<String> = s.split('-').map(|l| l.to_string()).collect();
        assert_eq!(got, want);
    }
}

#[test]
fn chars_for_bytes_finds_boundaries() {
    let s = "ab\u{e9}cd";
    let v = chars_of(s);
    for n in 0..8usize {
        let expected = if n <= s.len() && s.is_char_boundary(n) {
            Some(s[..n].chars().count())
        } else {
            None
        };
        assert_eq!(chars_for_bytes(&v, n), expected, "byte {}", n);
    }
}

#[test]
fn find_seq_agrees_with_str_find() {
    for (s, p) in [("TOTALS", "TOT"), ("tot", "TOT"), ("EMPTY NET", "EMPTY NET"), ("", "x"), ("xTO", "TOT"), ("\u{e9}aTOT", "TOT")] {
        let found = find_seq_from(&chars_of(s), &chars_of(p), 0);
        assert_eq!(found, s.find(p).map(|b| s[..b].chars().count()));
    }
}
