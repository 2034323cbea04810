use context_map::markdown::{extract_parameters, normalize_whitespace, push_decimal};
use context_map::normalize_path;
use context_map::text::{
    bytes_lt, char_is_whitespace, chars_of, find_between, range_fits, str_eq, str_slice, to_lower,
    trimmed,
};

fn chars(s: &str) -> Vec<char> {
    s.chars().collect()
}

#[test]
fn whitespace_is_that_of_unicode() {
    for c in ['\t', '\n', '\u{b}', '\u{c}', '\r', ' ', '\u{85}', '\u{a0}', '\u{1680}', '\u{2000}', '\u{200a}', '\u{2028}', '\u{2029}', '\u{202f}', '\u{205f}', '\u{3000}'] {
        assert!(char_is_whitespace(c));
    }
    for c in ['a', '0', '\u{8}', '\u{e}', '\u{200b}', '\u{feff}', '\u{1f}'] {
        assert!(!char_is_whitespace(c));
    }
    let mut code: u32 = 0;
    while code <= 0x3100 {
        if let Some(c) = char::from_u32(code) {
            assert_eq!(char_is_whitespace(c), c.is_whitespace());
        }
        code += 1;
    }
}

#[test]
fn trimmed_removes_whitespace_at_both_ends_only() {
    assert_eq!(trimmed("  : string \n"), ": string");
    assert_eq!(trimmed("a  b"), "a  b");
    assert_eq!(trimmed(" \t "), "");
    assert_eq!(trimmed(""), "");
    assert_eq!(trimmed("\u{a0}x\u{3000}"), "x");
}

#[test]
fn chars_and_equality() {
    assert_eq!(chars_of("a\u{e9}z"), vec!['a', '\u{e9}', 'z']);
    assert!(str_eq("const", "const"));
    assert!(!str_eq("const", "cons"));
    assert!(!str_eq("const", "konst"));
    assert!(str_eq("", ""));
}

#[test]
fn byte_strings_are_ordered_as_strings_are() {
    let words = ["", "a", "ab", "b", "A", "a\u{e9}", "az", "\u{4e2d}"];
    for x in words {
        for y in words {
            assert_eq!(bytes_lt(x.as_bytes(), y.as_bytes()), x < y);
        }
    }
}

#[test]
fn slices_are_cut_between_whole_characters() {
    let s = "a\u{e9}\u{4e2d}z";
    assert!(range_fits(s, 0, s.len()));
    assert!(range_fits(s, 1, 3));
    assert!(range_fits(s, 3, 3));
    assert!(!range_fits(s, 2, 3));
    assert!(!range_fits(s, 1, 4));
    assert!(!range_fits(s, 3, 1));
    assert!(!range_fits(s, 0, s.len() + 1));
    assert_eq!(str_slice(s, 1, 6), "\u{e9}\u{4e2d}");
    assert_eq!(str_slice(s, 0, 0), "");
}

#[test]
fn search_finds_the_first_match_in_range() {
    let hay = b"abcabc";
    assert_eq!(find_between(hay, 0, 6, b"bc"), Some(1));
    assert_eq!(find_between(hay, 2, 6, b"bc"), Some(4));
    assert_eq!(find_between(hay, 2, 5, b"bc"), None);
    assert_eq!(find_between(hay, 0, 6, b"x"), None);
    assert_eq!(find_between(hay, 5, 6, b"c"), Some(5));
    assert_eq!(find_between(hay, 6, 6, b"c"), None);
    assert_eq!(find_between(hay, 7, 6, b"c"), None);
    assert_eq!(find_between(hay, 0, 6, b"abcabcd"), None);
    assert_eq!(to_lower(b"<SCRIPT Lang='Tsx'>\xc3\x89"), b"<script lang='tsx'>\xc3\x89".to_vec());
}

#[test]
fn whitespace_between_words_becomes_one_space() {
    assert_eq!(normalize_whitespace(&chars("a(\n  x: number,\n  y: number,\n) : string")), chars("a( x: number, y: number, ) : string"));
    assert_eq!(normalize_whitespace(&chars("  lead and trail \t")), chars("lead and trail"));
    assert_eq!(normalize_whitespace(&chars(" \n ")), chars(""));
    assert_eq!(normalize_whitespace(&chars("")), chars(""));
    assert_eq!(normalize_whitespace(&chars("one")), chars("one"));
}

#[test]
fn parameters_are_what_stands_in_the_first_parentheses() {
    let of = |signature: &str, name: &str| {
        extract_parameters(&chars(signature), &chars(name)).map(|p| p.into_iter().collect::<String>())
    };
    assert_eq!(of("sum(a: number, b: number) : number", "sum"), Some("(a: number, b: number)".to_string()));
    assert_eq!(of("f(cb: (x: number) => void) : void", "f"), Some("(cb: (x: number) => void)".to_string()));
    assert_eq!(of("f  (a)", "f"), Some("(a)".to_string()));
    assert_eq!(of("f()", "f"), Some("()".to_string()));
    assert_eq!(of("f(a", "f"), None);
    assert_eq!(of("f", "f"), None);
    assert_eq!(of("f : T", "f"), None);
    assert_eq!(of("g(a)", "f"), None);
    assert_eq!(of("f(a)", "f(a)b"), None);
}

#[test]
fn numbers_are_written_in_decimal() {
    for n in [0usize, 7, 10, 42, 100, 9999, 1234567890, usize::MAX] {
        let mut out = vec!['@'];
        push_decimal(&mut out, n);
        assert_eq!(out.into_iter().collect::<String>(), format!("@{}", n));
    }
}

#[test]
fn backslashes_of_a_path_become_slashes() {
    assert_eq!(normalize_path("src\\nested\\util.ts"), "src/nested/util.ts");
    assert_eq!(normalize_path("src/a.ts"), "src/a.ts");
    assert_eq!(normalize_path(""), "");
    assert_eq!(normalize_path("\\"), "/");
}
