use song_recommender::canonical::normalize;
use song_recommender::decimal::{decimal_string, parse_number};
use song_recommender::fields::{is_space, split_at_char, split_whitespace};
use song_recommender::paths::{
    checkpoint_path, download, download_path, file_name_of, join, rules_path, CHECKPOINT_FILE,
    RULES_FILE,
};
use song_recommender::text::{
    chars_lt, chars_of, clone_names, holds_name, same_names, str_lt, str_same,
};

fn owned(items: &[&str]) -> Vec<String> {
    items.iter().map(|s| s.to_string()).collect()
}

const SAMPLES: [&str; 14] = [
    "",
    "a",
    "A",
    "ab",
    "abc",
    "abd",
    "b",
    "B",
    "Zebra",
    "apple",
    "\u{e9}t\u{e9}",
    "\u{10348}",
    "\u{ffff}",
    "a b",
];

#[test]
fn chars_of_lists_every_character() {
    assert_eq!(chars_of("h\u{e9}llo"), vec!['h', '\u{e9}', 'l', 'l', 'o']);
    assert_eq!(chars_of(""), Vec::<char>::new());
}

#[test]
fn string_order_is_the_order_of_str() {
    for a in SAMPLES.iter() {
        for b in SAMPLES.iter() {
            assert_eq!(str_lt(a, b), a < b, "{:?} < {:?}", a, b);
            assert_eq!(chars_lt(&chars_of(a), &chars_of(b)), a < b);
            assert_eq!(str_same(a, b), a == b);
        }
    }
}

#[test]
fn normalize_sorts_and_removes_repeats() {
    assert_eq!(normalize(owned(&["B", "A", "B"])), owned(&["A", "B"]));
    assert_eq!(normalize(Vec::new()), Vec::<String>::new());
    assert_eq!(normalize(owned(&["x"])), owned(&["x"]));
    let mut expected: Vec<String> = SAMPLES.iter().map(|s| s.to_string()).collect();
    expected.sort_unstable();
    expected.dedup();
    let mut shuffled: Vec<String> = SAMPLES.iter().rev().map(|s| s.to_string()).collect();
    shuffled.extend(SAMPLES.iter().map(|s| s.to_string()));
    assert_eq!(normalize(shuffled), expected);
}

#[test]
fn names_are_compared_by_content() {
    assert!(same_names(&owned(&["a", "b"]), &owned(&["a", "b"])));
    assert!(!same_names(&owned(&["a", "b"]), &owned(&["b", "a"])));
    assert!(!same_names(&owned(&["a"]), &owned(&["a", "b"])));
    assert!(same_names(&Vec::new(), &Vec::new()));
    assert!(holds_name(&owned(&["a", "b"]), "b"));
    assert!(!holds_name(&owned(&["a", "b"]), "c"));
    assert_eq!(clone_names(&owned(&["a", "b"])), owned(&["a", "b"]));
}

#[test]
fn white_space_is_what_char_says() {
    let mut code: u32 = 0;
    while code <= 0x10FFFF {
        if let Some(c) = char::from_u32(code) {
            assert_eq!(is_space(c), c.is_whitespace(), "U+{:04X}", code);
        }
        code += 1;
    }
}

#[test]
fn split_whitespace_agrees_with_str() {
    let texts = [
        "",
        " ",
        "one",
        "  one  ",
        "one two",
        "one\ttwo\nthree\r\nfour",
        "0.1.0 http://x/y.csv 1700000000000000000\n",
        "a\u{a0}b\u{2003}c\u{3000}d\u{85}e",
        "\u{feff}x y",
        " lead",
        "trail ",
    ];
    for text in texts.iter() {
        let expected: Vec<String> = text.split_whitespace().map(|s| s.to_string()).collect();
        assert_eq!(split_whitespace(text), expected, "{:?}", text);
    }
}

#[test]
fn split_at_char_agrees_with_str() {
    let texts = ["", ",", "a", "a,b", "a,,b", ",a,", "pid,track_name,x", "\u{e9},\u{10348}"];
    for text in texts.iter() {
        let expected: Vec<String> = text.split(',').map(|s| s.to_string()).collect();
        assert_eq!(split_at_char(text, ','), expected, "{:?}", text);
    }
    assert_eq!(split_at_char("a/b/c", '/'), owned(&["a", "b", "c"]));
}

#[test]
fn parse_number_agrees_with_str() {
    let texts = [
        "0",
        "42",
        "-42",
        "+42",
        "007",
        "-0",
        "",
        "-",
        "+",
        "--1",
        "+-1",
        "1 ",
        " 1",
        "1_000",
        "12a",
        "a12",
        "1.5",
        "9223372036854775807",
        "9223372036854775808",
        "-9223372036854775808",
        "-9223372036854775809",
        "+9223372036854775807",
        "00000000000000000000000000009223372036854775807",
        "99999999999999999999999999999999999999999999999999",
        "-99999999999999999999999999999999999999999999999999",
        "99999999999999999999999999999999999999999999999999x",
        "\u{661}\u{662}",
        "1700000000000000000",
    ];
    for text in texts.iter() {
        assert_eq!(parse_number(text), text.parse::<i64>().ok(), "{:?}", text);
    }
}

#[test]
fn parse_number_exact_values() {
    assert_eq!(parse_number("42"), Some(42));
    assert_eq!(parse_number("-9223372036854775808"), Some(i64::MIN));
    assert_eq!(parse_number("9223372036854775807"), Some(i64::MAX));
    assert_eq!(parse_number("9223372036854775808"), None);
    assert_eq!(parse_number("forty-two"), None);
}

#[test]
fn decimal_string_agrees_with_to_string() {
    let numbers: [u128; 9] = [
        0,
        7,
        10,
        99,
        100,
        1234567890,
        1700000000000000000,
        u64::MAX as u128,
        u128::MAX,
    ];
    for n in numbers.iter() {
        assert_eq!(decimal_string(*n), n.to_string());
    }
    assert_eq!(decimal_string(0), "0");
    assert_eq!(decimal_string(1700000000123456789), "1700000000123456789");
}

#[test]
fn decimal_round_trip() {
    let numbers: [u128; 5] = [0, 1, 42, 1700000000000000000, i64::MAX as u128];
    for n in numbers.iter() {
        assert_eq!(parse_number(&decimal_string(*n)), Some(*n as i64));
    }
}

#[test]
fn paths_are_joined_as_path_joins() {
    let dirs = ["", "data", "data/", "/", "/var/lib/data", "a/b/", "../ml_processor/ml-data", "."];
    for dir in dirs.iter() {
        for name in ["rules.bincode", "x", "sub/file.txt"].iter() {
            let expected = std::path::Path::new(dir).join(name);
            assert_eq!(join(dir, name), expected.to_str().unwrap(), "{:?} {:?}", dir, name);
        }
    }
}

#[test]
fn data_files_lie_in_the_data_directory() {
    assert_eq!(RULES_FILE, "rules.bincode");
    assert_eq!(CHECKPOINT_FILE, "ml_processor_checkpoint.txt");
    assert_eq!(rules_path("ml-data"), "ml-data/rules.bincode");
    assert_eq!(checkpoint_path("ml-data"), "ml-data/ml_processor_checkpoint.txt");
    assert_eq!(rules_path("ml-data/"), "ml-data/rules.bincode");
    assert_eq!(checkpoint_path(""), "ml_processor_checkpoint.txt");
}

#[test]
fn file_name_is_what_follows_the_last_slash() {
    assert_eq!(file_name_of("a/b/c.txt"), "c.txt");
    assert_eq!(file_name_of("c.txt"), "c.txt");
    assert_eq!(file_name_of("a/b/"), "");
    assert_eq!(file_name_of(""), "");
    assert_eq!(
        file_name_of("https://example.org/datasets/2023_spotify_ds1.csv"),
        "2023_spotify_ds1.csv"
    );
    for text in ["a/b/c", "x", "", "/", "a//b"].iter() {
        assert_eq!(file_name_of(text), text.split('/').last().unwrap());
    }
}

#[test]
fn download_names_target_and_arguments() {
    let url = "https://example.org/datasets/2023_spotify_ds1.csv";
    let path = download_path(url, "ml-data");
    assert_eq!(path, "ml-data/2023_spotify_ds1.csv");
    assert_eq!(
        download(url, &path),
        owned(&["-o", "ml-data/2023_spotify_ds1.csv", "--check-certificate", "false", "-c", url])
    );
}
