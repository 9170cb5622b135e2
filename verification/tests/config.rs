use zulip_bot::config::{parse, ConfigError, Key};

const FULL: &str = "# the bot\nserver = \"chat.example.org\"\n\napi_key = \"s3cr3t\"\nname = \"helper\"\n";

#[test]
fn parse_full_file() {
    let c = parse(FULL).unwrap();
    assert_eq!(c.server, "chat.example.org");
    assert_eq!(c.api_key, "s3cr3t");
    assert_eq!(c.name, "helper");
}

#[test]
fn parse_without_final_line_feed() {
    let c = parse("server=\"a\"\napi_key=\"b\"\nname=\"c\"").unwrap();
    assert_eq!(c.server, "a");
    assert_eq!(c.api_key, "b");
    assert_eq!(c.name, "c");
}

#[test]
fn parse_ends_after_comment_or_blank_line() {
    let c = parse("server=\"a\"\napi_key=\"b\"\nname=\"c\"\n# end").unwrap();
    assert_eq!(c.name, "c");
    let d = parse("server=\"a\"\napi_key=\"b\"\nname=\"c\"\n\n  \n").unwrap();
    assert_eq!(d.name, "c");
}

#[test]
fn parse_any_order_and_last_value_wins() {
    let c = parse("name = \"n1\"\napi_key = \"k\"\nserver = \"s\"\nname = \"n2\"").unwrap();
    assert_eq!(c.server, "s");
    assert_eq!(c.api_key, "k");
    assert_eq!(c.name, "n2");
}

#[test]
fn parse_passes_over_unknown_keys() {
    let c = parse("colour = blue\nserver=\"a\"\napi_key=\"b\"\nname=\"c\"\nport = 443").unwrap();
    assert_eq!(c.server, "a");
    assert_eq!(c.api_key, "b");
    assert_eq!(c.name, "c");
}

#[test]
fn parse_trims_around_the_equals_sign() {
    let c = parse("server \t =\t  \"a\"\napi_key\u{3000}=\u{a0}\"b\"\nname=\"c\"").unwrap();
    assert_eq!(c.server, "a");
    assert_eq!(c.api_key, "b");
    assert_eq!(c.name, "c");
}

#[test]
fn parse_keeps_what_is_between_the_outer_quotes() {
    let c = parse("server = \"a=b\"\napi_key = \"say \"hi\"\"\nname = \"Zo\u{eb} \u{1F916}\"").unwrap();
    assert_eq!(c.server, "a=b");
    assert_eq!(c.api_key, "say \"hi\"");
    assert_eq!(c.name, "Zo\u{eb} \u{1F916}");
    let d = parse("server = \"\"\napi_key = \" \"\nname = \"#\"").unwrap();
    assert_eq!(d.server, "");
    assert_eq!(d.api_key, " ");
    assert_eq!(d.name, "#");
}

#[test]
fn parse_line_without_equals() {
    assert_eq!(parse("server \"a\"").err(), Some(ConfigError::ExpectedEquals));
    assert_eq!(parse("server=\"a\"\nnonsense\nname=\"c\"").err(), Some(ConfigError::ExpectedEquals));
    assert_eq!(parse("  # not a comment").err(), Some(ConfigError::ExpectedEquals));
}

#[test]
fn parse_value_that_is_no_string() {
    assert_eq!(parse("server = a").err(), Some(ConfigError::ExpectedString(Key::Server)));
    assert_eq!(parse("api_key = \"").err(), Some(ConfigError::ExpectedString(Key::ApiKey)));
    assert_eq!(parse("name =").err(), Some(ConfigError::ExpectedString(Key::Name)));
    assert_eq!(parse("name = \"c\" ").err(), Some(ConfigError::ExpectedString(Key::Name)));
    assert_eq!(parse("name = \"c\"\r\n").err(), Some(ConfigError::ExpectedString(Key::Name)));
    assert_eq!(parse("name = 'c'").err(), Some(ConfigError::ExpectedString(Key::Name)));
}

#[test]
fn parse_first_fault_is_reported() {
    assert_eq!(
        parse("name = c\nserver = a\nnonsense").err(),
        Some(ConfigError::ExpectedString(Key::Name))
    );
    assert_eq!(parse("nonsense\nname = c").err(), Some(ConfigError::ExpectedEquals));
}

#[test]
fn parse_missing_keys() {
    assert_eq!(parse("").err(), Some(ConfigError::Missing(Key::Server)));
    assert_eq!(parse("\n\n# nothing\n").err(), Some(ConfigError::Missing(Key::Server)));
    assert_eq!(parse("api_key=\"b\"\nname=\"c\"").err(), Some(ConfigError::Missing(Key::Server)));
    assert_eq!(parse("server=\"a\"\nname=\"c\"").err(), Some(ConfigError::Missing(Key::ApiKey)));
    assert_eq!(parse("server=\"a\"\napi_key=\"b\"").err(), Some(ConfigError::Missing(Key::Name)));
}

#[test]
fn parse_key_is_not_trimmed_at_its_start() {
    assert_eq!(
        parse(" server=\"a\"\napi_key=\"b\"\nname=\"c\"").err(),
        Some(ConfigError::Missing(Key::Server))
    );
    assert_eq!(
        parse("Server=\"a\"\napi_key=\"b\"\nname=\"c\"").err(),
        Some(ConfigError::Missing(Key::Server))
    );
}

#[test]
fn parse_trims_exactly_the_white_space() {
    let mut code: u32 = 0;
    while code < 0x3100 {
        if let Some(c) = char::from_u32(code) {
            let before = format!("server{}=\"a\"\napi_key=\"b\"\nname=\"c\"", c);
            let result = parse(&before);
            if c == '\n' {
                assert_eq!(result.err(), Some(ConfigError::ExpectedEquals));
            } else if c == '=' {
                assert_eq!(result.err(), Some(ConfigError::ExpectedString(Key::Server)));
            } else if c.is_whitespace() {
                assert_eq!(result.unwrap().server, "a");
            } else {
                assert_eq!(result.err(), Some(ConfigError::Missing(Key::Server)));
            }

            let after = format!("server=\"a\"\napi_key=\"b\"\nname={}\"c\"", c);
            let result = parse(&after);
            if c == '"' {
                assert_eq!(result.unwrap().name, "\"c");
            } else if c.is_whitespace() && c != '\n' {
                assert_eq!(result.unwrap().name, "c");
            } else {
                assert_eq!(result.err(), Some(ConfigError::ExpectedString(Key::Name)));
            }
        }
        code += 1;
    }
    assert_eq!(
        parse("server\u{FEFF}=\"a\"\napi_key=\"b\"\nname=\"c\"").err(),
        Some(ConfigError::Missing(Key::Server))
    );
}
