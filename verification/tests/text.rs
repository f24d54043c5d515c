use ovl::number::parse_u32;
use ovl::split::{fields_of, join_from, split_on, Separator};
use ovl::text::{
    char_is_whitespace, chars_of, contains_chars, has_prefix, has_suffix, string_of,
    to_ascii_lower, to_ascii_lowercase, trimmed, trimmed_start,
};

fn chars(s: &str) -> Vec<char> {
    s.chars().collect()
}

fn strings(pieces: &[Vec<char>]) -> Vec<String> {
    pieces.iter().map(|p| p.iter().collect()).collect()
}

#[test]
fn chars_and_strings_round_trip() {
    assert_eq!(chars_of("héllo"), chars("héllo"));
    assert_eq!(string_of(&chars("héllo")), "héllo");
    assert_eq!(string_of(&Vec::new()), "");
}

#[test]
fn whitespace_is_what_std_calls_whitespace() {
    let mut code: u32 = 0;
    while code <= 0x10FFFF {
        if let Some(c) = char::from_u32(code) {
            assert_eq!(char_is_whitespace(c), c.is_whitespace(), "U+{:04X}", code);
        }
        code += 1;
    }
}

#[test]
fn ascii_lower_is_what_std_gives() {
    let mut code: u32 = 0;
    while code <= 0x10FFFF {
        if let Some(c) = char::from_u32(code) {
            assert_eq!(to_ascii_lower(c), c.to_ascii_lowercase(), "U+{:04X}", code);
        }
        code += 1;
    }
    assert_eq!(to_ascii_lowercase(&chars("AbC-Ä9")), chars("abc-Ä9"));
}

#[test]
fn trims_white_space_at_both_ends() {
    assert_eq!(trimmed(&chars("  a b \t\n")), chars("a b"));
    assert_eq!(trimmed(&chars("\u{3000}x\u{00A0}")), chars("x"));
    assert_eq!(trimmed(&chars(" \n ")), chars(""));
    assert_eq!(trimmed(&chars("")), chars(""));
    assert_eq!(trimmed_start(&chars("  a ")), chars("a "));
}

#[test]
fn finds_prefix_suffix_and_runs() {
    assert!(has_prefix(&chars("asm-tree-9.6"), &chars("asm-")));
    assert!(!has_prefix(&chars("as"), &chars("asm-")));
    assert!(has_prefix(&chars("abc"), &chars("")));
    assert!(has_suffix(&chars("a.jar"), &chars(".jar")));
    assert!(!has_suffix(&chars("jar"), &chars(".jar")));
    assert!(contains_chars(&chars("sky sky wars pvp"), &chars("pvp")));
    assert!(contains_chars(&chars("abc"), &chars("")));
    assert!(contains_chars(&chars(""), &chars("")));
    assert!(!contains_chars(&chars("sky wars"), &chars("arena")));
    assert!(!contains_chars(&chars("ab"), &chars("abc")));
}

#[test]
fn split_keeps_empty_pieces() {
    let dot = Separator::Char('.');
    assert_eq!(strings(&split_on(&chars("1.2.0"), dot)), vec!["1", "2", "0"]);
    assert_eq!(strings(&split_on(&chars(""), dot)), vec![""]);
    assert_eq!(strings(&split_on(&chars("a."), dot)), vec!["a", ""]);
    assert_eq!(strings(&split_on(&chars(".a"), dot)), vec!["", "a"]);
    assert_eq!(strings(&split_on(&chars(".."), dot)), vec!["", "", ""]);
}

#[test]
fn split_is_what_std_gives() {
    for text in ["", "a", "a-b", "-a--b-", "asm-tree-9.6", "---"] {
        let expected: Vec<String> = text.split('-').map(String::from).collect();
        assert_eq!(strings(&split_on(&chars(text), Separator::Char('-'))), expected);
    }
}

#[test]
fn fields_drop_empty_pieces() {
    assert_eq!(strings(&fields_of(&chars("a//b\\c/"), Separator::Path)), vec!["a", "b", "c"]);
    assert_eq!(strings(&fields_of(&chars("/"), Separator::Path)).len(), 0);
    assert_eq!(
        strings(&fields_of(&chars("  pvp \t arena\n"), Separator::Whitespace)),
        vec!["pvp", "arena"]
    );
    for text in ["", " a  b ", "one", "\u{2003}x\u{2003}y"] {
        let expected: Vec<String> = text.split_whitespace().map(String::from).collect();
        assert_eq!(strings(&fields_of(&chars(text), Separator::Whitespace)), expected);
    }
}

#[test]
fn join_puts_glue_between_neighbours() {
    let pieces = vec![chars("a"), chars("b"), chars("c")];
    assert_eq!(join_from(&pieces, 0, &chars("-")), chars("a-b-c"));
    assert_eq!(join_from(&pieces, 1, &chars(", ")), chars("b, c"));
    assert_eq!(join_from(&pieces, 2, &chars("-")), chars("c"));
    assert_eq!(join_from(&pieces, 3, &chars("-")), chars(""));
}

#[test]
fn joining_a_split_gives_the_text_back() {
    for text in ["", "a", "a.b", ".a..b.", "1.2.3"] {
        let pieces = split_on(&chars(text), Separator::Char('.'));
        assert_eq!(join_from(&pieces, 0, &chars(".")), chars(text));
    }
}

#[test]
fn reads_unsigned_numbers_as_std_does() {
    for text in [
        "", "0", "7", "007", "+7", "+", "-7", "1a", "a1", "4294967295", "4294967296",
        "99999999999999999999", " 1", "1 ", "１", "+-1", "++1", "1_000",
    ] {
        assert_eq!(parse_u32(&chars(text)), text.parse::<u32>().ok(), "{:?}", text);
    }
}
