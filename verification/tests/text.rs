use http_server::text::{
    char_is_whitespace, join_all, keep_non_empty, split, split_once, str_eq, to_decimal, trim,
};

fn strings(items: &[&str]) -> Vec<String> {
    items.iter().map(|s| s.to_string()).collect()
}

fn std_split(s: &str, sep: &str) -> Vec<String> {
    s.split(sep).map(|p| p.to_string()).collect()
}

const SAMPLES: [&str; 24] = [
    "",
    "a",
    " ",
    "  ",
    "a b",
    " a b ",
    "a  b",
    "/",
    "//",
    "/a/b/",
    "a/b",
    "\r\n",
    "\r\n\r\n",
    "x\r\ny",
    "x\r\r\ny",
    "x\n\ry\r",
    "\rx\n",
    "GET / HTTP/1.1\r\nHost: h\r\n\r\nbody\r\n",
    "aaa",
    "aaaa",
    "abab",
    "h\u{e9}llo w\u{f6}rld",
    "\u{8d8a}/\u{8d8a}",
    "a:b:c",
];

const SEPARATORS: [&str; 9] = [" ", "/", "\r\n", ":", "aa", "ab", "\u{8d8a}", "\r", "GET"];

#[test]
fn split_agrees_with_the_standard_library() {
    for s in SAMPLES {
        for sep in SEPARATORS {
            assert_eq!(split(s, sep), std_split(s, sep), "{:?} by {:?}", s, sep);
        }
    }
}

#[test]
fn split_gives_empty_pieces_at_the_edges() {
    assert_eq!(split("/a/", "/"), strings(&["", "a", ""]));
    assert_eq!(split("", "/"), strings(&[""]));
    assert_eq!(split("/", "/"), strings(&["", ""]));
    assert_eq!(split("a//b", "/"), strings(&["a", "", "b"]));
}

#[test]
fn split_takes_separators_from_the_left_without_overlap() {
    assert_eq!(split("aaa", "aa"), strings(&["", "a"]));
    assert_eq!(split("aaaa", "aa"), strings(&["", "", ""]));
    assert_eq!(split("x\r\r\ny", "\r\n"), strings(&["x\r", "y"]));
}

#[test]
fn split_without_a_separator_splits_nothing() {
    assert_eq!(split("abc", ""), strings(&["abc"]));
    assert_eq!(split("", ""), strings(&[""]));
}

#[test]
fn split_once_agrees_with_the_standard_library() {
    for s in SAMPLES {
        for sep in SEPARATORS {
            let expected = s.split_once(sep).map(|(a, b)| (a.to_string(), b.to_string()));
            assert_eq!(split_once(s, sep), expected, "{:?} by {:?}", s, sep);
        }
    }
}

#[test]
fn split_once_cuts_at_the_first_separator() {
    assert_eq!(split_once("a:b:c", ":"), Some(("a".to_string(), "b:c".to_string())));
    assert_eq!(split_once(":", ":"), Some(("".to_string(), "".to_string())));
    assert_eq!(split_once("abc", ":"), None);
    assert_eq!(split_once("", ":"), None);
}

#[test]
fn whitespace_is_what_the_standard_library_says() {
    let mut code: u32 = 0;
    while code <= 0x10ffff {
        if let Some(c) = char::from_u32(code) {
            assert_eq!(char_is_whitespace(c), c.is_whitespace(), "U+{:04X}", code);
        }
        code += 1;
    }
}

#[test]
fn trim_agrees_with_the_standard_library() {
    let samples = [
        "",
        " ",
        "\t\r\n ",
        "a",
        " a",
        "a ",
        "  a b  ",
        "\u{a0}x\u{3000}",
        "\u{2003}\u{2028}mid dle\u{205f}\u{85}",
        "\u{200b}x\u{200b}",
        "\u{180e}x",
        "\r\nGET / HTTP/1.1\r\n",
        "\u{e9}",
    ];
    for s in samples {
        assert_eq!(trim(s), s.trim(), "{:?}", s);
    }
}

#[test]
fn trim_removes_whitespace_at_both_ends_only() {
    assert_eq!(trim("  a  b  "), "a  b");
    assert_eq!(trim("\t\n"), "");
    assert_eq!(trim("x"), "x");
}

#[test]
fn keep_non_empty_drops_the_empty_strings() {
    assert_eq!(keep_non_empty(&strings(&["", "a", "", "", "b", ""])), strings(&["a", "b"]));
    assert_eq!(keep_non_empty(&strings(&["", ""])), Vec::<String>::new());
    assert_eq!(keep_non_empty(&Vec::new()), Vec::<String>::new());
    assert_eq!(keep_non_empty(&strings(&[" ", "x"])), strings(&[" ", "x"]));
}

#[test]
fn join_all_joins_with_nothing_in_between() {
    assert_eq!(join_all(&strings(&["abc", "", "def", "g"])), "abcdefg");
    assert_eq!(join_all(&[]), "");
    assert_eq!(join_all(&strings(&["\u{e9}", "\u{8d8a}"])), "\u{e9}\u{8d8a}");
}

#[test]
fn decimal_of_small_and_large_numbers() {
    assert_eq!(to_decimal(0), "0");
    assert_eq!(to_decimal(6), "6");
    assert_eq!(to_decimal(9), "9");
    assert_eq!(to_decimal(10), "10");
    assert_eq!(to_decimal(15), "15");
    assert_eq!(to_decimal(100), "100");
    assert_eq!(to_decimal(1024), "1024");
    assert_eq!(to_decimal(90210), "90210");
    assert_eq!(to_decimal(usize::MAX), format!("{}", usize::MAX));
}

#[test]
fn decimal_agrees_with_the_standard_library() {
    let mut n: usize = 0;
    while n < 5000 {
        assert_eq!(to_decimal(n), format!("{}", n));
        n += 1;
    }
}

#[test]
fn strings_are_compared_by_their_characters() {
    assert!(str_eq("echo", "echo"));
    assert!(str_eq("", ""));
    assert!(!str_eq("echo", "Echo"));
    assert!(!str_eq("echo", "echo "));
    assert!(!str_eq("", "a"));
}
