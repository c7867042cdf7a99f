use frametrace::command::{
    chars_of, is_separator, parse_index, parse_range, split_words, word_is, Command,
};

fn chars(text: &str) -> Vec<char> {
    text.chars().collect()
}

fn words(text: &str) -> Vec<String> {
    split_words(&chars(text)).into_iter().map(|w| w.into_iter().collect()).collect()
}

#[test]
fn chars_of_a_string() {
    assert_eq!(chars_of(""), Vec::<char>::new());
    assert_eq!(chars_of(":f 2..5"), vec![':', 'f', ' ', '2', '.', '.', '5']);
    assert_eq!(chars_of("\u{b5}s"), vec!['\u{b5}', 's']);
}

#[test]
fn separators_are_unicode_white_space() {
    for code in 0u32..0x11_0000 {
        if let Some(c) = char::from_u32(code) {
            assert_eq!(is_separator(c), c.is_whitespace(), "U+{code:04X}");
        }
    }
}

#[test]
fn words_are_split_like_split_whitespace() {
    for line in [
        "",
        " ",
        ":q",
        " :q ",
        ":f all",
        ":f   inspect\tmax",
        "  a  b\u{a0}c\u{3000}",
        "one\ntwo\r\nthree",
        "x",
        "x ",
        " x",
    ] {
        let expected: Vec<String> = line.split_whitespace().map(str::to_string).collect();
        assert_eq!(words(line), expected, "{line:?}");
    }
}

#[test]
fn word_is_compares_spelling() {
    assert!(word_is(&chars(":q"), ":q"));
    assert!(!word_is(&chars(":q"), ":f"));
    assert!(!word_is(&chars(":q"), ":qq"));
    assert!(!word_is(&chars(":qq"), ":q"));
    assert!(word_is(&chars(""), ""));
}

#[test]
fn positions_parse_like_usize() {
    for numeral in [
        "0", "5", "007", "+5", "+", "", "-5", "5a", "a5", " 5", "5 ", "1.5", "++5", "5+",
        "18446744073709551615", "18446744073709551616", "99999999999999999999999",
        "4294967295", "4294967296", "\u{664}",
    ] {
        assert_eq!(parse_index(&chars(numeral)), numeral.parse::<usize>().ok(), "{numeral:?}");
    }
}

#[test]
fn ranges_need_two_positions_around_two_dots() {
    assert_eq!(parse_range(&chars("2..5")), Some((2, 5)));
    assert_eq!(parse_range(&chars("0..0")), Some((0, 0)));
    assert_eq!(parse_range(&chars("+2..+5")), Some((2, 5)));
    assert_eq!(parse_range(&chars("10..3")), Some((10, 3)));
    for word in [
        "", "2", "2.", "2..", "..5", "..", "2.5", "2...5", "2....5", "2..5..7", "a..5", "2..b",
        "2..5.", ".2..5", "bogus", "2 .. 5", "-2..5",
    ] {
        assert_eq!(parse_range(&chars(word)), None, "{word:?}");
    }
}

#[test]
fn ranges_agree_with_splitting_at_two_dots() {
    for word in ["2..5", "2...5", "2....5", "1.2..3", "..", "7..", "..7", "3..4..5", "12..+34"] {
        let pieces: Vec<&str> = word.split("..").collect();
        let expected = if pieces.len() == 2 {
            match (pieces[0].parse::<usize>(), pieces[1].parse::<usize>()) {
                (Ok(lower), Ok(upper)) => Some((lower, upper)),
                _ => None,
            }
        } else {
            None
        };
        assert_eq!(parse_range(&chars(word)), expected, "{word:?}");
    }
}

#[test]
fn lines_name_commands() {
    assert_eq!(Command::parse_str(":q"), Command::Quit);
    assert_eq!(Command::parse_str(":f all"), Command::ShowAll);
    assert_eq!(Command::parse_str(":f inspect max"), Command::InspectMax);
    assert_eq!(Command::parse_str(":f 2..5"), Command::Range(2, 5));
    assert_eq!(Command::parse_str(":f\t 2..5  "), Command::Range(2, 5));
    assert_eq!(Command::parse(&chars(":f 0..100")), Command::Range(0, 100));
}

#[test]
fn words_after_a_frame_command_are_not_looked_at() {
    assert_eq!(Command::parse_str(":f all now"), Command::ShowAll);
    assert_eq!(Command::parse_str(":f inspect max please"), Command::InspectMax);
    assert_eq!(Command::parse_str(":f 2..5 6..7"), Command::Range(2, 5));
}

#[test]
fn other_lines_are_ignored() {
    for line in [
        "", " ", ":", ":f", ":f ", ":f bogus", ":f inspect", ":f inspect min", ":f inspect  ",
        ":f 2..", ":f 2..x", ":f 2 .. 5", ":q now", ":quit", ":qq", "q", ":fall", ":f2..5",
        ":filter all", ":F all", ":f ALL", "hello", ":f max inspect", ":x 2..5",
    ] {
        assert_eq!(Command::parse_str(line), Command::Ignored, "{line:?}");
    }
}
