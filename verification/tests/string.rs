use mrubyedge::error::Error;
use mrubyedge::string::{
    file_prefix_of, string_add, string_chomp, string_downcase, string_downcase_bang, string_empty,
    string_upcase, string_upcase_bang, string_chomp_bang, string_end_with, string_getbyte, string_include,
    string_index, string_inspect, string_lstrip, string_lstrip_bang, string_mul, string_ord, string_rstrip,
    string_rstrip_bang, string_setbyte, string_slice, string_slice_bang, string_split,
    string_split_whitespace, string_start_with, string_strip, string_strip_bang, string_to_i,
};

#[test]
fn string_inspect_quotes() {
    assert_eq!(string_inspect("ab"), "\"ab\"");
    assert_eq!(string_inspect(""), "\"\"");
}

#[test]
fn string_mul_repeats() {
    assert_eq!(string_mul("ab", 3).unwrap(), "ababab");
    assert_eq!(string_mul("ab", 0).unwrap(), "");
    assert_eq!(string_mul("", 5).unwrap(), "");
    match string_mul("ab", -1) {
        Err(Error::ArgumentError(m)) => assert_eq!(m, "negative argument"),
        _ => panic!("expected an argument error"),
    }
}

#[test]
fn string_affixes_and_search() {
    assert!(string_start_with("hello", "he"));
    assert!(!string_start_with("he", "hello"));
    assert!(string_end_with("hello", "llo"));
    assert!(!string_end_with("hello", "he"));
    assert!(string_include("hello", "ll"));
    assert!(string_include("hello", ""));
    assert!(!string_include("hello", "lo!"));
    assert_eq!(string_index("hello", "l"), Some(2));
    assert_eq!(string_index("héllo", "l"), Some(3));
    assert_eq!(string_index("hello", "z"), None);
}

#[test]
fn string_chomp_endings() {
    assert_eq!(string_chomp("abc\r\n"), "abc");
    assert_eq!(string_chomp("abc\n\n"), "abc\n");
    assert_eq!(string_chomp("abc\r"), "abc");
    assert_eq!(string_chomp("abc"), "abc");
    assert_eq!(string_chomp_bang("abc\n"), Some("abc".to_string()));
    assert_eq!(string_chomp_bang("abc"), None);
}

#[test]
fn string_strip_family() {
    assert_eq!(string_lstrip("  a b  "), "a b  ");
    assert_eq!(string_rstrip("  a b  "), "  a b");
    assert_eq!(string_strip("\t a b \n"), "a b");
    assert_eq!(string_strip("\u{3000}x\u{a0}"), "x");
    assert_eq!(string_strip("   "), "");
    assert_eq!(string_strip_bang("ab"), None);
    assert_eq!(string_strip_bang(" ab"), Some("ab".to_string()));
    assert_eq!(string_lstrip_bang("ab "), None);
    assert_eq!(string_rstrip_bang("ab "), Some("ab".to_string()));
    // stripping twice changes nothing more
    let once = string_strip("  x y ");
    assert_eq!(string_strip(&once), once);
}

#[test]
fn string_ord_first_char() {
    assert_eq!(string_ord("A").unwrap(), 65);
    assert_eq!(string_ord("é").unwrap(), 0xe9);
    match string_ord("") {
        Err(Error::ArgumentError(m)) => assert_eq!(m, "empty string"),
        _ => panic!("expected an argument error"),
    }
}

#[test]
fn string_slices() {
    assert_eq!(string_slice("hello", 1, None), Some("e".to_string()));
    assert_eq!(string_slice("hello", -1, None), Some("o".to_string()));
    assert_eq!(string_slice("hello", 1, Some(3)), Some("ell".to_string()));
    assert_eq!(string_slice("hello", 3, Some(10)), Some("lo".to_string()));
    assert_eq!(string_slice("hello", 5, None), None);
    assert_eq!(string_slice("hello", -6, None), None);
    assert_eq!(string_slice("hello", 1, Some(-1)), None);
    assert_eq!(string_slice("héllo", 1, Some(2)), Some("él".to_string()));
    assert_eq!(
        string_slice_bang("hello", 1, Some(2)),
        Some(("el".to_string(), "hlo".to_string()))
    );
    assert_eq!(string_slice_bang("hello", -1, None), Some(("o".to_string(), "hell".to_string())));
    assert_eq!(string_slice_bang("hello", 9, None), None);
}

#[test]
fn string_to_integer() {
    assert_eq!(string_to_i("42"), 42);
    assert_eq!(string_to_i("  -17 "), -17);
    assert_eq!(string_to_i("+8"), 8);
    assert_eq!(string_to_i("12abc"), 0);
    assert_eq!(string_to_i(""), 0);
    assert_eq!(string_to_i("-"), 0);
    assert_eq!(string_to_i("9223372036854775807"), i64::MAX);
    assert_eq!(string_to_i("-9223372036854775808"), i64::MIN);
    assert_eq!(string_to_i("9223372036854775808"), 0);
    assert_eq!(string_to_i("99999999999999999999999"), 0);
}

#[test]
fn string_splitting() {
    assert_eq!(string_split("a,b,,c", ","), vec!["a", "b", "", "c"]);
    assert_eq!(string_split("a::b", "::"), vec!["a", "b"]);
    assert_eq!(string_split("abc", ""), vec!["", "a", "b", "c", ""]);
    assert_eq!(string_split("", ","), vec![""]);
    assert_eq!(string_split("a,", ","), vec!["a", ""]);
    assert_eq!(string_split_whitespace("  a  b\tc\n"), vec!["a", "b", "c"]);
    assert_eq!(string_split_whitespace("   "), Vec::<String>::new());
    // joining the pieces with the separator gives the string back
    assert_eq!(string_split("x--y----z", "--").join("--"), "x--y----z");
}

#[test]
fn string_bytes() {
    let b = b"abc".to_vec();
    assert_eq!(string_getbyte(&b, 0), Some(b'a'));
    assert_eq!(string_getbyte(&b, -1), Some(b'c'));
    assert_eq!(string_getbyte(&b, 3), None);
    assert_eq!(string_getbyte(&b, -4), None);
    let mut b = b"abc".to_vec();
    assert_eq!(string_setbyte(&mut b, 1, 66).unwrap(), 66);
    assert_eq!(b, b"aBc".to_vec());
    assert_eq!(string_getbyte(&b, 1), Some(66));
    match string_setbyte(&mut b, 5, 1) {
        Err(Error::ArgumentError(m)) => assert_eq!(m, "index 5 out of string"),
        _ => panic!("expected an argument error"),
    }
    match string_setbyte(&mut b, -1, 256) {
        Err(Error::ArgumentError(m)) => assert_eq!(m, "256 out of char range"),
        _ => panic!("expected an argument error"),
    }
    assert_eq!(b, b"aBc".to_vec());
}

#[test]
fn file_prefix() {
    assert_eq!(file_prefix_of("hello.rb"), "hello");
    assert_eq!(file_prefix_of("a.b.c"), "a");
    assert_eq!(file_prefix_of("noext"), "noext");
    assert_eq!(file_prefix_of(".hidden"), "");
}

#[test]
fn string_case_mapping() {
    assert_eq!(string_upcase("abc é"), "ABC É");
    assert_eq!(string_downcase("ABC É"), "abc é");
    assert_eq!(string_upcase_bang("abc"), Some("ABC".to_string()));
    assert_eq!(string_upcase_bang("ABC"), None);
    assert_eq!(string_downcase_bang("ABC"), Some("abc".to_string()));
    assert_eq!(string_downcase_bang("abc"), None);
    assert_eq!(string_upcase("ß"), "SS");
}

#[test]
fn string_concatenation_and_emptiness() {
    assert_eq!(string_add("ab", "cd"), "abcd");
    assert!(string_empty(""));
    assert!(!string_empty(" "));
}
