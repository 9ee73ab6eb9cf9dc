use env_config::{
    convert, parse, parse_env_contents, required_parse, required_str, ConfigError, EnvMap, Field,
    FieldBuilder,
};

fn value_of(map: &EnvMap, key: &str) -> Option<String> {
    map.get(key).cloned()
}

#[test]
fn quoted_value_loses_its_quotes() {
    let map = parse_env_contents("key=\"hello world\"\n");
    assert_eq!(value_of(&map, "key").as_deref(), Some("hello world"));
    assert_eq!(map.len(), 1);
}

#[test]
fn single_quotes_are_stripped_too() {
    let map = parse_env_contents("key='abc'");
    assert_eq!(value_of(&map, "key").as_deref(), Some("abc"));
}

#[test]
fn only_one_layer_of_quotes_is_stripped() {
    let map = parse_env_contents("a=\"'x'\"\nb=\"\"y\"\"\n");
    assert_eq!(value_of(&map, "a").as_deref(), Some("'x'"));
    assert_eq!(value_of(&map, "b").as_deref(), Some("\"y\""));
}

#[test]
fn unmatched_or_lone_quotes_stay() {
    let map = parse_env_contents("a=\"x'\nb=\"\nc=\"\"\n");
    assert_eq!(value_of(&map, "a").as_deref(), Some("\"x'"));
    assert_eq!(value_of(&map, "b").as_deref(), Some("\""));
    assert_eq!(value_of(&map, "c").as_deref(), Some(""));
}

#[test]
fn embedded_equals_signs_stay_in_the_value() {
    let map = parse_env_contents("url=postgres://u:p@h/db?x=1&y=2\n");
    assert_eq!(
        value_of(&map, "url").as_deref(),
        Some("postgres://u:p@h/db?x=1&y=2")
    );
}

#[test]
fn comments_and_blank_lines_contribute_nothing() {
    let map = parse_env_contents("# comment\n\nkey=value\n");
    assert_eq!(map.len(), 1);
    assert_eq!(value_of(&map, "key").as_deref(), Some("value"));
}

#[test]
fn indented_comment_and_white_space_lines_are_skipped() {
    let map = parse_env_contents("   # note=1\n \t \nk=v\n");
    assert_eq!(map.len(), 1);
    assert!(!map.contains_key("# note"));
    assert_eq!(value_of(&map, "k").as_deref(), Some("v"));
}

#[test]
fn malformed_lines_are_dropped() {
    let map = parse_env_contents("novalue\n=x\n   = y\nk=v\n");
    assert_eq!(map.len(), 1);
    assert_eq!(value_of(&map, "k").as_deref(), Some("v"));
}

#[test]
fn keys_and_values_are_trimmed() {
    let map = parse_env_contents("  key  =   some value  \r\nother=\t 'q' \n");
    assert_eq!(value_of(&map, "key").as_deref(), Some("some value"));
    assert_eq!(value_of(&map, "other").as_deref(), Some("q"));
}

#[test]
fn later_duplicate_key_wins() {
    let map = parse_env_contents("k=1\nk=2\n");
    assert_eq!(map.len(), 1);
    assert_eq!(value_of(&map, "k").as_deref(), Some("2"));
}

#[test]
fn empty_text_gives_empty_map() {
    assert!(parse_env_contents("").is_empty());
    assert!(parse_env_contents("\n\n").is_empty());
}

#[test]
fn last_line_without_newline_counts() {
    let map = parse_env_contents("a=1\nb=2");
    assert_eq!(value_of(&map, "b").as_deref(), Some("2"));
}

#[test]
fn empty_value_is_kept() {
    let map = parse_env_contents("k=\n");
    assert_eq!(value_of(&map, "k").as_deref(), Some(""));
}

#[test]
fn parsing_twice_gives_the_same_map() {
    let text = "a=1\n# c\nb='x y'\nbad\nc=p=q\n";
    let first = parse_env_contents(text);
    let second = parse_env_contents(text);
    assert_eq!(first.len(), second.len());
    for key in ["a", "b", "c", "bad"] {
        assert_eq!(value_of(&first, key), value_of(&second, key));
    }
}

#[test]
fn env_map_insert_replaces() {
    let mut map = EnvMap::new();
    map.insert("k".to_string(), "1".to_string());
    map.insert("j".to_string(), "2".to_string());
    map.insert("k".to_string(), "3".to_string());
    assert_eq!(map.len(), 2);
    assert_eq!(value_of(&map, "k").as_deref(), Some("3"));
    assert_eq!(value_of(&map, "j").as_deref(), Some("2"));
    assert_eq!(value_of(&map, "z"), None);
}

#[test]
fn parse_reads_u64() {
    assert_eq!(parse::<u64>("42".to_string()).unwrap(), 42);
    assert_eq!(parse::<u64>("+7".to_string()).unwrap(), 7);
    assert_eq!(parse::<u64>("007".to_string()).unwrap(), 7);
}

#[test]
fn parse_rejects_bad_u64_with_empty_key() {
    for bad in ["", "+", "-1", " 1", "1.0", "abc", "18446744073709551616"] {
        match parse::<u64>(bad.to_string()) {
            Err(ConfigError::ParseError { key, value, err }) => {
                assert_eq!(key, "");
                assert_eq!(value, bad);
                assert!(!err.is_empty());
            }
            other => panic!("unexpected {:?}", other),
        }
    }
}

#[test]
fn parse_passes_strings_through() {
    assert_eq!(parse::<String>("a b".to_string()).unwrap(), "a b");
}

#[test]
fn convert_tags_errors_with_the_key() {
    match convert::<u64>("retries", "x1") {
        Err(ConfigError::ParseError { key, value, .. }) => {
            assert_eq!(key, "retries");
            assert_eq!(value, "x1");
        }
        other => panic!("unexpected {:?}", other),
    }
    assert_eq!(convert::<u64>("retries", "8080").unwrap(), 8080);
}

#[test]
fn required_lookups() {
    let map = parse_env_contents("n=5\ns=hi\n");
    assert_eq!(required_str(&map, "s").unwrap(), "hi");
    assert_eq!(required_parse::<u64>(&map, "n").unwrap(), 5);
    match required_str(&map, "zz") {
        Err(ConfigError::MissingKey { key }) => assert_eq!(key, "zz"),
        other => panic!("unexpected {:?}", other),
    }
    match required_parse::<u64>(&map, "s") {
        Err(ConfigError::ParseError { key, value, .. }) => {
            assert_eq!(key, "s");
            assert_eq!(value, "hi");
        }
        other => panic!("unexpected {:?}", other),
    }
}

#[test]
fn optional_lookups() {
    let map = parse_env_contents("n=5\ns=hi\n");
    assert_eq!(env_config::optional_parse::<u64>(&map, "n").unwrap(), Some(5));
    assert_eq!(env_config::optional_parse::<u64>(&map, "m").unwrap(), None);
    assert!(matches!(
        env_config::optional_parse::<u64>(&map, "s"),
        Err(ConfigError::ParseError { .. })
    ));
}

#[test]
fn field_builder_requires_a_value_unless_optional() {
    match FieldBuilder::new("k").build() {
        Err(ConfigError::MissingKey { key }) => assert_eq!(key, "k"),
        other => panic!("unexpected {:?}", other),
    }
    let f = FieldBuilder::new("k").with_optional(true).build().unwrap();
    assert!(f.is_optional());
    assert_eq!(f.value::<u64>().unwrap(), None);
    let f = FieldBuilder::new("k")
        .with_value(Some("12".to_string()))
        .build()
        .unwrap();
    assert!(!f.is_optional());
    assert_eq!(f.value::<u64>().unwrap(), Some(12));
}

#[test]
fn field_builder_with_optional_clears_the_value() {
    let b = FieldBuilder::new("k")
        .with_value(Some("1".to_string()))
        .with_optional(false);
    assert!(matches!(b.build(), Err(ConfigError::MissingKey { .. })));
}

#[test]
fn field_value_errors_carry_the_field_key() {
    match Field::new("retries", Some("nope".to_string())).value::<u64>() {
        Err(ConfigError::ParseError { key, value, .. }) => {
            assert_eq!(key, "retries");
            assert_eq!(value, "nope");
        }
        other => panic!("unexpected {:?}", other),
    }
    match Field::new("retries", None).value::<u64>() {
        Err(ConfigError::MissingKey { key }) => assert_eq!(key, "retries"),
        other => panic!("unexpected {:?}", other),
    }
    let f = Field::new("retries", None).with_optional(true);
    assert_eq!(f.value::<String>().unwrap(), None);
}

#[test]
fn error_constructors() {
    assert_eq!(
        ConfigError::parse_err("k", "v", "m"),
        ConfigError::ParseError {
            key: "k".to_string(),
            value: "v".to_string(),
            err: "m".to_string()
        }
    );
    assert_eq!(
        ConfigError::missing_key_err("k"),
        ConfigError::MissingKey {
            key: "k".to_string()
        }
    );
    assert_eq!(
        ConfigError::loading_err("/p", "gone"),
        ConfigError::LoadingError {
            path: "/p".to_string(),
            err: "gone".to_string()
        }
    );
}
