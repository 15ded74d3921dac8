use cpu_power_manager::model::parse_model;
use cpu_power_manager::order::text_le;
use cpu_power_manager::text::{decimal_string, is_whitespace, parse_i32, parse_u32, trim};
use cpu_power_manager::words::{split_words, text_contains, text_starts_with};

#[test]
fn trim_removes_white_space_at_both_ends() {
    assert_eq!(trim("  performance \n"), "performance");
    assert_eq!(trim("\t\r\n"), "");
    assert_eq!(trim(""), "");
    assert_eq!(trim("a b"), "a b");
    assert_eq!(trim("\u{a0}x\u{3000}"), "x");
}

#[test]
fn trim_agrees_with_the_standard_library() {
    for text in ["", " ", "x", " x", "x ", "  x y  ", "\n\nx\t", "\u{2003}wide\u{2028}", "\u{200b}zero"] {
        assert_eq!(trim(text), text.trim());
    }
}

#[test]
fn white_space_is_the_unicode_property() {
    for code in 0u32..0x3100 {
        if let Some(c) = char::from_u32(code) {
            assert_eq!(is_whitespace(c), c.is_whitespace(), "code point {:#x}", code);
        }
    }
}

#[test]
fn signed_numbers_parse_as_the_standard_library_does() {
    for text in [
        "0", "-0", "+0", "7", "-7", "+7", "007", "2147483647", "2147483648", "-2147483648",
        "-2147483649", "99999999999999999999", "", "-", "+", "1 ", " 1", "1e3", "--1", "+-1",
        "12a", "١٢",
    ] {
        assert_eq!(parse_i32(text), text.parse::<i32>().ok(), "text {:?}", text);
    }
    assert_eq!(parse_i32("-40000"), Some(-40000));
}

#[test]
fn unsigned_numbers_parse_as_the_standard_library_does() {
    for text in [
        "0", "-0", "+0", "7", "-7", "+7", "007", "4294967295", "4294967296", "42949672950",
        "00000000000000000000001", "", "-", "+", "3600000", "36 00",
    ] {
        assert_eq!(parse_u32(text), text.parse::<u32>().ok(), "text {:?}", text);
    }
    assert_eq!(parse_u32("3600000"), Some(3_600_000));
}

#[test]
fn decimal_writing_is_the_shortest() {
    assert_eq!(decimal_string(0), "0");
    assert_eq!(decimal_string(9), "9");
    assert_eq!(decimal_string(10), "10");
    assert_eq!(decimal_string(4_200_000), "4200000");
    assert_eq!(decimal_string(u64::MAX), u64::MAX.to_string());
}

#[test]
fn decimal_writing_reads_back() {
    for n in [0u32, 1, 9, 10, 99, 100, 800_000, 4_200_000, u32::MAX] {
        assert_eq!(parse_u32(&decimal_string(n as u64)), Some(n));
    }
}

#[test]
fn words_are_split_at_any_white_space() {
    assert_eq!(split_words("performance powersave\n"), vec!["performance", "powersave"]);
    assert_eq!(split_words("  a\t\tb \n c  "), vec!["a", "b", "c"]);
    assert_eq!(split_words(""), Vec::<String>::new());
    assert_eq!(split_words(" \n "), Vec::<String>::new());
    assert_eq!(split_words("single"), vec!["single"]);
}

#[test]
fn words_keep_the_order_of_the_text() {
    assert_eq!(
        split_words("conservative ondemand userspace powersave performance schedutil"),
        vec!["conservative", "ondemand", "userspace", "powersave", "performance", "schedutil"]
    );
}

#[test]
fn substrings_and_prefixes() {
    assert!(text_contains("x86_pkg_temp", "pkg"));
    assert!(text_contains("abc", ""));
    assert!(text_contains("", ""));
    assert!(!text_contains("", "a"));
    assert!(!text_contains("ab", "abc"));
    assert!(text_contains("aab", "ab"));
    assert!(text_starts_with("thermal_zone0", "thermal_zone"));
    assert!(!text_starts_with("thermal", "thermal_zone"));
    assert!(!text_starts_with("xthermal_zone0", "thermal_zone"));
    assert!(text_starts_with("anything", ""));
}

#[test]
fn dictionary_order_is_that_of_strings() {
    let samples = ["", "a", "ab", "b", "thermal_zone10", "thermal_zone2", "Z", "é", "z"];
    for a in samples {
        for b in samples {
            assert_eq!(text_le(a, b), a <= b, "{:?} and {:?}", a, b);
        }
    }
}

#[test]
fn model_is_taken_from_the_first_model_line() {
    let text = "processor\t: 0\nvendor_id\t: GenuineIntel\nmodel\t\t: 142\nmodel name\t: Intel(R) Core(TM) i7-8550U CPU @ 1.80GHz\nstepping\t: 10\n\nprocessor\t: 1\nmodel name\t: Other\n";
    assert_eq!(parse_model(text), Some("Intel(R) Core(TM) i7-8550U CPU @ 1.80GHz".to_string()));
}

#[test]
fn model_keeps_what_follows_the_first_colon() {
    assert_eq!(parse_model("model name : A: B\n"), Some("A: B".to_string()));
    assert_eq!(parse_model("model name:\n"), Some(String::new()));
    assert_eq!(parse_model("model name : last line"), Some("last line".to_string()));
}

#[test]
fn identification_without_model_gives_none() {
    assert_eq!(parse_model(""), None);
    assert_eq!(parse_model("processor : 0\nBogoMIPS : 38.40\n"), None);
    assert_eq!(parse_model("model name without colon\n"), None);
    assert_eq!(parse_model(" model name : indented\n"), None);
}
