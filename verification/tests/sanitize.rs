use test_each_file::decimal::decimal_string;
use test_each_file::ident::sanitize_ident;
use test_each_file::listing::file_stem;

#[test]
fn keeps_a_valid_identifier() {
    assert_eq!(sanitize_ident("sum"), "sum");
    assert_eq!(sanitize_ident("Sum_2"), "Sum_2");
}

#[test]
fn replaces_what_no_identifier_holds() {
    assert_eq!(sanitize_ident("a-b"), "a_b");
    assert_eq!(sanitize_ident("a.b"), "a_b");
    assert_eq!(sanitize_ident("a b+c"), "a_b_c");
}

#[test]
fn keeps_letters_outside_ascii() {
    assert_eq!(sanitize_ident("größe"), "größe");
    assert_eq!(sanitize_ident("日本語"), "日本語");
    assert_eq!(sanitize_ident("a→b"), "a_b");
}

#[test]
fn marks_a_name_that_starts_with_a_digit() {
    assert_eq!(sanitize_ident("1"), "test_1");
    assert_eq!(sanitize_ident("42_answers"), "test_42_answers");
}

#[test]
fn marks_a_name_that_starts_with_an_underscore() {
    assert_eq!(sanitize_ident("_"), "test__");
    assert_eq!(sanitize_ident("_hidden"), "test__hidden");
    assert_eq!(sanitize_ident("-x"), "test__x");
}

#[test]
fn marks_the_empty_name() {
    assert_eq!(sanitize_ident(""), "test_");
}

#[test]
fn marks_a_reserved_word() {
    assert_eq!(sanitize_ident("fn"), "test_fn");
    assert_eq!(sanitize_ident("match"), "test_match");
    assert_eq!(sanitize_ident("Self"), "test_Self");
    assert_eq!(sanitize_ident("yield"), "test_yield");
    assert_eq!(sanitize_ident("fnord"), "fnord");
    assert_eq!(sanitize_ident("Match"), "Match");
}

#[test]
fn sanitizing_twice_changes_nothing() {
    for raw in ["sum", "a-b", "1", "", "fn", "_", "größe", "a.b.c", "test_", "9 lives"] {
        let once = sanitize_ident(raw);
        assert_eq!(sanitize_ident(&once), once);
    }
}

#[test]
fn writes_numbers_in_decimal() {
    assert_eq!(decimal_string(0), "0");
    assert_eq!(decimal_string(2), "2");
    assert_eq!(decimal_string(10), "10");
    assert_eq!(decimal_string(907), "907");
    assert_eq!(decimal_string(u128::MAX), "340282366920938463463374607431768211455");
}

#[test]
fn strips_the_extension() {
    assert_eq!(file_stem("foo.txt"), "foo");
    assert_eq!(file_stem("a.b.txt"), "a.b");
    assert_eq!(file_stem("archive.tar.gz"), "archive.tar");
    assert_eq!(file_stem("README"), "README");
    assert_eq!(file_stem(".hidden"), ".hidden");
    assert_eq!(file_stem(".hidden.txt"), ".hidden");
    assert_eq!(file_stem("trailing."), "trailing");
    assert_eq!(file_stem(""), "");
    assert_eq!(file_stem("über.in"), "über");
}
