use rust_stubs::util::{conv_string_to_wstring, equals_ignore_case, replace_all, to_lower, trim_string};
use rust_stubs::xbox::{
    is_equal_xuid, xenable_guest_signin, xget_language, xget_locale, xuser_get_signin_info,
    CXuiStringTable, XC_LANGUAGE_ENGLISH,
};

#[test]
fn test_string_helpers() {
    assert_eq!(to_lower("Hello WORLD"), "hello world");
    assert_eq!(trim_string("   foo bar  \n"), "foo bar");
    assert_eq!(replace_all("foo bar foo", "foo", "baz"), "baz bar baz");
    assert!(equals_ignore_case("Minecraft", "MINECRAFT"));
    assert!(!equals_ignore_case("Minecraft", "Other"));

    let wide = conv_string_to_wstring("hello");
    assert_eq!(wide, vec![104, 101, 108, 108, 111]);
}

#[test]
fn string_helper_edges() {
    assert_eq!(trim_string("\u{3000}x\u{85}"), "x");
    assert_eq!(trim_string("   "), "");
    assert_eq!(replace_all("abc", "", "-"), "-a-b-c-");
    assert_eq!(replace_all("aaa", "aa", "b"), "ba");
    assert!(equals_ignore_case("Ée", "Ée"));
    assert!(!equals_ignore_case("É", "é"));
    assert!(!equals_ignore_case("ab", "abc"));
    assert_eq!(conv_string_to_wstring("é😀"), vec![0xE9, 0xD83D, 0xDE00]);
    assert_eq!(to_lower("ÀB"), "àb");
}

#[test]
fn ignore_case_is_an_equivalence() {
    for (a, b) in [("Ab", "aB"), ("x1Y", "X1y"), ("é", "é")] {
        assert!(equals_ignore_case(a, a));
        assert!(equals_ignore_case(a, b));
        assert!(equals_ignore_case(b, a));
    }
    assert!(equals_ignore_case("AB", "ab") && equals_ignore_case("ab", "aB") && equals_ignore_case("AB", "aB"));
}

#[test]
fn test_xuid_equality() {
    assert!(is_equal_xuid(12345, 12345));
    assert!(!is_equal_xuid(12345, 67890));
}

#[test]
fn test_string_table() {
    let mut table = CXuiStringTable::new();
    assert_eq!(table.lookup_id("IDS_TEST"), "IDS_TEST");
    assert_eq!(table.lookup_index(42), "String");
    assert_eq!(table.load("IDS_TEST"), 0);
    table.clear();
    assert_eq!(table, CXuiStringTable::new());
}

#[test]
fn test_language_and_locale() {
    assert_eq!(xget_language(), XC_LANGUAGE_ENGLISH);
    assert_eq!(xget_locale(), 0);
    assert_eq!(xenable_guest_signin(true), 0);
    assert_eq!(xuser_get_signin_info(1, 2), 0);
}
