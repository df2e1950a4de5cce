use ini_parser::document::Document;
use ini_parser::parse_ini;
use ini_parser::parse_ini_with_config;
use ini_parser::ser::to_ini_string;
use ini_parser::IniParserConfig;

#[test]
fn round_trip_reproduces_document() {
    let mut doc = Document::new();
    doc.insert("server", "host".to_owned(), "localhost".to_owned());
    doc.insert("server", "port".to_owned(), "8080".to_owned());
    doc.insert("client", "retries".to_owned(), "3".to_owned());

    let text = to_ini_string(&doc);
    let parsed = parse_ini(&text);

    assert_eq!(parsed.get("server", "host").unwrap(), "localhost");
    assert_eq!(parsed.get("server", "port").unwrap(), "8080");
    assert_eq!(parsed.get("client", "retries").unwrap(), "3");
    assert_eq!(parsed.sections.len(), 2);
    assert_eq!(parsed.sections[0].entries.len(), 2);
    assert_eq!(parsed.sections[1].entries.len(), 1);
}

#[test]
fn serializer_exact_output() {
    let mut doc = Document::new();
    doc.insert("s", "k".to_owned(), "v".to_owned());
    assert_eq!(to_ini_string(&doc), "[s]\nk = v\n\n");

    let empty = Document::new();
    assert_eq!(to_ini_string(&empty), "");
}

#[test]
fn keys_before_any_header_land_in_default() {
    let parsed = parse_ini("host = localhost\n[server]\nport = 1\n");
    assert_eq!(parsed.get("default", "host").unwrap(), "localhost");
    assert_eq!(parsed.get("server", "port").unwrap(), "1");
    assert!(parsed.get("server", "host").is_none());
}

#[test]
fn duplicate_keys_last_value_wins() {
    let parsed = parse_ini("[s]\nk = first\nk = second\n");
    assert_eq!(parsed.get("s", "k").unwrap(), "second");
    assert_eq!(parsed.sections.len(), 1);
    assert_eq!(parsed.sections[0].entries.len(), 1);
}

#[test]
fn quoted_value_with_equals_unquoted() {
    let mut config = IniParserConfig::default();
    config.allow_quoted_with_equals = true;
    let parsed = parse_ini_with_config("[user]\ndescription = \"a=very=custom=user\"\n", &config);
    assert_eq!(parsed.get("user", "description").unwrap(), "a=very=custom=user");
}

#[test]
fn multiline_continuation_joins_lines() {
    let parsed = parse_ini("value = a\\\ncontinues\n");
    assert_eq!(parsed.get("default", "value").unwrap(), "acontinues");

    let mut config = IniParserConfig::default();
    config.strip_multiline_leading_ws = true;
    let parsed = parse_ini_with_config("value = a\\\n   continues\n", &config);
    assert_eq!(parsed.get("default", "value").unwrap(), "acontinues");
}

#[test]
fn dangling_backslash_at_end_of_input_is_dropped() {
    let parsed = parse_ini("[s]\nk = v\\\n");
    assert_eq!(parsed.get("s", "k").unwrap(), "v");
}

#[test]
fn multiline_disabled_keeps_backslash() {
    let mut config = IniParserConfig::default();
    config.allow_multiline = false;
    let parsed = parse_ini_with_config("[s]\nk = v\\\nw = 1\n", &config);
    assert_eq!(parsed.get("s", "k").unwrap(), "v\\");
    assert_eq!(parsed.get("s", "w").unwrap(), "1");
}

#[test]
fn bom_stripping_removes_one_mark_only() {
    let mut config = IniParserConfig::default();
    config.allow_bom = true;
    let parsed = parse_ini_with_config("\u{feff}\u{feff}[database]\nuser = admin\n", &config);
    assert!(parsed.get("database", "user").is_none());
    assert_eq!(parsed.get("default", "user").unwrap(), "admin");
}

#[test]
fn comment_after_leading_whitespace_is_a_comment() {
    let mut config = IniParserConfig::default();
    config.ignore_whitespace = false;
    let parsed = parse_ini_with_config("[s]\n  ; a=b\n  # c=d\nk = v\n", &config);
    assert!(parsed.get("s", "; a").is_none());
    assert!(parsed.get("s", "# c").is_none());
    assert_eq!(parsed.get("s", "k").unwrap(), "v");
    assert_eq!(parsed.sections[0].entries.len(), 1);
}

#[test]
fn bom_kept_when_disabled() {
    let parsed = parse_ini("\u{feff}[database]\nuser = admin\n");
    assert!(parsed.get("database", "user").is_none());
    assert_eq!(parsed.get("default", "user").unwrap(), "admin");
}

#[test]
fn bracketed_line_with_equals_is_a_section() {
    let parsed = parse_ini("[a=b]\nx = 1\n");
    assert_eq!(parsed.get("a=b", "x").unwrap(), "1");
    assert!(parsed.get("default", "x").is_none());
}

#[test]
fn empty_input_and_header_only_input() {
    let parsed = parse_ini("");
    assert_eq!(parsed.sections.len(), 0);

    let parsed = parse_ini("[empty]\n");
    assert!(parsed.get("empty", "x").is_none());
    assert_eq!(parsed.sections.len(), 0);
}

#[test]
fn line_without_equals_is_ignored() {
    let parsed = parse_ini("[s]\nnot a pair\nk = v\n");
    assert_eq!(parsed.get("s", "k").unwrap(), "v");
    assert_eq!(parsed.sections[0].entries.len(), 1);
}

#[test]
fn comment_shaped_value_kept() {
    let parsed = parse_ini("[s]\nk = ; whole value is a comment\n");
    assert_eq!(parsed.get("s", "k").unwrap(), "; whole value is a comment");
}

#[test]
fn crlf_line_endings_handled() {
    let parsed = parse_ini("[s]\r\nk = v\r\nm = w\r\n");
    assert_eq!(parsed.get("s", "k").unwrap(), "v");
    assert_eq!(parsed.get("s", "m").unwrap(), "w");
}

#[test]
fn document_insert_overwrites() {
    let mut doc = Document::new();
    doc.insert("s", "k".to_owned(), "one".to_owned());
    doc.insert("s", "k".to_owned(), "two".to_owned());
    assert_eq!(doc.get("s", "k").unwrap(), "two");
    assert_eq!(doc.sections.len(), 1);
    assert_eq!(doc.sections[0].entries.len(), 1);
}
