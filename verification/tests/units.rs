use ini_parser::bridge::IniValueDeserializer;
use ini_parser::classify::classify_line;
use ini_parser::classify::LineType;
use ini_parser::text::trim;
use ini_parser::transform::strip_comment_outside_quotes;
use ini_parser::transform::strip_inline_comment;
use ini_parser::transform::strip_outer_quotes;

#[test]
fn trim_strips_both_ends() {
    assert_eq!(trim("  a b \t"), "a b");
    assert_eq!(trim(""), "");
    assert_eq!(trim("   "), "");
}

#[test]
fn strip_inline_comment_cuts_at_first_marker() {
    assert_eq!(strip_inline_comment("abc ; x"), "abc");
    assert_eq!(strip_inline_comment("abc # x ; y"), "abc");
    assert_eq!(strip_inline_comment("; all comment"), "");
    assert_eq!(strip_inline_comment("no marker "), "no marker");
}

#[test]
fn strip_comment_outside_quotes_respects_quotes() {
    assert_eq!(strip_comment_outside_quotes("\"a;b\" ; c"), "\"a;b\"");
    assert_eq!(strip_comment_outside_quotes("a ; b"), "a");
    assert_eq!(strip_comment_outside_quotes("\"a;b\""), "\"a;b\"");
}

#[test]
fn strip_outer_quotes_removes_one_pair() {
    assert_eq!(strip_outer_quotes("  \"xy\"  "), "xy");
    assert_eq!(strip_outer_quotes("\"\""), "");
    assert_eq!(strip_outer_quotes("\""), "\"");
    assert_eq!(strip_outer_quotes("plain"), "plain");
    assert_eq!(strip_outer_quotes("\"\"x\"\""), "\"x\"");
}

#[test]
fn classify_line_cases() {
    assert!(matches!(classify_line(""), LineType::Comment));
    assert!(matches!(classify_line("; c"), LineType::Comment));
    assert!(matches!(classify_line("# c"), LineType::Comment));
    assert!(matches!(classify_line("  ; a=b"), LineType::Comment));
    assert!(matches!(classify_line("\t# c=d"), LineType::Comment));
    assert!(matches!(classify_line("   "), LineType::Comment));
    assert!(matches!(classify_line("no equals here"), LineType::Comment));
    assert!(matches!(classify_line("[sec]"), LineType::Section(s) if s == "sec"));
    assert!(matches!(classify_line("[a=b]"), LineType::Section(s) if s == "a=b"));
    assert!(matches!(classify_line("k = v"), LineType::KeyValue(k, v) if k == "k" && v == "v"));
    assert!(matches!(classify_line(" k =  "), LineType::KeyValue(k, v) if k == "k" && v == ""));
}

#[test]
fn bool_value_accepts_documented_words() {
    assert_eq!(IniValueDeserializer::new("true".to_owned()).bool_value(), Some(true));
    assert_eq!(IniValueDeserializer::new("TRUE".to_owned()).bool_value(), Some(true));
    assert_eq!(IniValueDeserializer::new("Yes".to_owned()).bool_value(), Some(true));
    assert_eq!(IniValueDeserializer::new("1".to_owned()).bool_value(), Some(true));
    assert_eq!(IniValueDeserializer::new("false".to_owned()).bool_value(), Some(false));
    assert_eq!(IniValueDeserializer::new("No".to_owned()).bool_value(), Some(false));
    assert_eq!(IniValueDeserializer::new("0".to_owned()).bool_value(), Some(false));
    assert_eq!(IniValueDeserializer::new("maybe".to_owned()).bool_value(), None);
    assert_eq!(IniValueDeserializer::new("".to_owned()).bool_value(), None);
    assert_eq!(IniValueDeserializer::new("10".to_owned()).bool_value(), None);
}
