use ini_parser::parse_ini;
use ini_parser::parse_ini_with_config;
use ini_parser::IniParserConfig;

#[test]
fn test_basic_ini() {
    let config = IniParserConfig::default();
    let parsed = parse_ini_with_config("[server]\nhost = localhost\nport = 8080\n", &config);

    assert_eq!(parsed.get("server", "host").unwrap(), "localhost");
    assert_eq!(parsed.get("server", "port").unwrap(), "8080");
}

#[test]
fn test_bom_handling() {
    let mut config = IniParserConfig::default();
    config.allow_bom = true;

    let parsed = parse_ini_with_config("\u{feff}[database]\nuser = admin\n", &config);
    assert_eq!(parsed.get("database", "user").unwrap(), "admin");
}

#[test]
fn test_multiline_values() {
    let mut config = IniParserConfig::default();
    config.allow_multiline = true;

    let parsed = parse_ini_with_config(
        "[description]\ntext = This is a long line that\\\n    continues on the next\\\n line and even more.\n",
        &config,
    );
    assert_eq!(
        parsed.get("description", "text").unwrap(),
        "This is a long line that    continues on the next line and even more."
    );
}

#[test]
fn test_multiline_values_leading_ws_removed() {
    let mut config = IniParserConfig::default();
    // Note: in order to use strip_multiline_leading_ws
    //          you must also use allow_multiline config
    config.allow_multiline = true;
    config.strip_multiline_leading_ws = true;

    let parsed = parse_ini_with_config(
        "[description]\ntext = This is a long line that\\\n    continues on the next\\\n line and even more.\n",
        &config,
    );
    assert_eq!(
        parsed.get("description", "text").unwrap(),
        "This is a long line thatcontinues on the nextline and even more."
    );
}

#[test]
fn test_inline_comments_ignored() {
    let mut config = IniParserConfig::default();
    config.allow_inline_comments = false;

    let parsed = parse_ini_with_config(
        "[network]\naddress = 192.168.1.1 ; default gateway\ndns = 8.8.8.8 # google dns\n",
        &config,
    );
    assert_eq!(
        parsed.get("network", "address").unwrap(),
        "192.168.1.1 ; default gateway"
    );
    assert_eq!(parsed.get("network", "dns").unwrap(), "8.8.8.8 # google dns");
}

#[test]
fn test_inline_comments_trimmed() {
    let mut config = IniParserConfig::default();
    config.allow_inline_comments = true;

    let parsed = parse_ini_with_config(
        "[network]\naddress = 192.168.1.1 ; default gateway\ndns = 8.8.8.8 # google dns\n",
        &config,
    );
    assert_eq!(parsed.get("network", "address").unwrap(), "192.168.1.1");
    assert_eq!(parsed.get("network", "dns").unwrap(), "8.8.8.8");
}

#[test]
fn test_quoted_string_with_equals() {
    let mut config = IniParserConfig::default();
    config.allow_quoted_with_equals = true;

    let parsed = parse_ini_with_config(
        "[user]\ndescription = \"a=very=custom\"=user\"\n",
        &config,
    );

    assert_eq!(parsed.get("user", "description").unwrap(), "a=very=custom\"=user");
}

#[test]
fn test_empty_values() {
    let parsed = parse_ini("[settings]\nempty =\nnonempty = value\n");
    assert_eq!(parsed.get("settings", "empty").unwrap(), "");
    assert_eq!(parsed.get("settings", "nonempty").unwrap(), "value");
}

#[test]
fn test_multiple_sections() {
    let parsed = parse_ini("[dev]\nkey = value1\n\n[prod]\nkey = value2\n");
    assert_eq!(parsed.get("dev", "key").unwrap(), "value1");
    assert_eq!(parsed.get("prod", "key").unwrap(), "value2");
}

#[test]
fn test_multiline_with_inline_comments() {
    let mut config = IniParserConfig::default();
    config.allow_multiline = true;
    config.allow_inline_comments = true;

    let parsed = parse_ini_with_config(
        "[notes]\ncontent = Line one continues\\\n Line two ends here ; trailing comment\n",
        &config,
    );
    assert_eq!(
        parsed.get("notes", "content").unwrap(),
        "Line one continues Line two ends here"
    );
}
