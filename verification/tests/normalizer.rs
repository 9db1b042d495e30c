use lmc::normalizer::format_code;

#[test]
fn comment_only_line_has_no_content() {
    assert_eq!(format_code("// nothing here"), None);
    assert_eq!(format_code("   \t // nothing here"), None);
}

#[test]
fn empty_and_blank_lines_have_no_content() {
    assert_eq!(format_code(""), None);
    assert_eq!(format_code("   "), None);
    assert_eq!(format_code("\t \u{a0}\u{3000}"), None);
}

#[test]
fn comment_is_discarded() {
    assert_eq!(format_code("loop ADD one// add one"), Some("loop ADD one".to_string()));
    assert_eq!(format_code("x DAT 1 // a // b"), Some("x DAT 1 ".to_string()));
}

#[test]
fn single_slash_is_code() {
    assert_eq!(format_code("a / b"), Some("a / b".to_string()));
    assert_eq!(format_code("a /"), Some("a /".to_string()));
    assert_eq!(format_code("/"), Some("/".to_string()));
}

#[test]
fn runs_of_white_space_collapse_to_one_space() {
    assert_eq!(format_code("a \t  b\t\tc"), Some("a b c".to_string()));
    assert_eq!(format_code("a\u{2003}\u{a0}b"), Some("a b".to_string()));
}

#[test]
fn leading_and_trailing_white_space_is_collapsed_not_removed() {
    assert_eq!(format_code("   HLT   "), Some(" HLT ".to_string()));
    assert_eq!(format_code("\tHLT"), Some(" HLT".to_string()));
}

#[test]
fn text_without_white_space_is_unchanged() {
    assert_eq!(format_code("HLT"), Some("HLT".to_string()));
    assert_eq!(format_code("h\u{e9}llo"), Some("h\u{e9}llo".to_string()));
}

#[test]
fn normalized_line_is_a_fixed_point() {
    let once = format_code("  a \t b   c  // tail").unwrap();
    assert_eq!(format_code(&once), Some(once.clone()));
}
