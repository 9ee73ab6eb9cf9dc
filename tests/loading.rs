use env_config::{
    optional_parse, required_str, ConfigError, ConfigLoader, EnvMap, Field, FieldBuilder,
    FileConfigLoader, SettingsBuilder,
};

struct LastNameSettings {
    name: String,
    server_env: String,
    last_name: Option<String>,
}

fn load_with_last_name(map: EnvMap) -> Result<LastNameSettings, ConfigError> {
    let name = FieldBuilder::new("name").with_value(required_str(&map, "name").ok());
    let server_env = FieldBuilder::new("server_env").with_value(Some(
        required_str(&map, "server_env").unwrap_or_else(|_| "local".to_string()),
    ));
    let last_name = FieldBuilder::new("last_name")
        .with_optional(true)
        .with_value(optional_parse::<String>(&map, "last_name")?);
    let name: Field = name.build()?;
    let last_name: Field = last_name.build()?;
    let server_env: Field = server_env.build()?;
    let name = name
        .value::<String>()?
        .ok_or(ConfigError::missing_key_err("name"))?;
    let server_env = server_env
        .value::<String>()?
        .ok_or(ConfigError::missing_key_err("server_env"))?;
    let last_name = last_name.value::<String>()?;
    Ok(LastNameSettings {
        name,
        server_env,
        last_name,
    })
}

#[test]
fn lib_test_generator_from_map() -> Result<(), ConfigError> {
    let mut map = EnvMap::new();
    map.insert("name".into(), "test".into());
    // server_env is omitted -> default "local"
    map.insert("version".into(), "42".into());

    let settings = load_with_last_name(map)?;
    assert_eq!(settings.name, "test");
    assert_eq!(settings.server_env, "local");
    assert_eq!(settings.last_name, None);
    Ok(())
}

#[test]
fn it_works() {}

#[test]
fn test_generator_from_map() -> Result<(), ConfigError> {
    let mut map = EnvMap::new();
    map.insert("name".into(), "venkatesh".into());
    // server_env is omitted -> default "local"
    map.insert("version".into(), "42".into());

    let settings = SettingsBuilder::from_hash_map(map)?;
    assert_eq!(settings.name, "venkatesh");
    assert_eq!(settings.server_env, "local");
    assert_eq!(settings.version, 42);
    Ok(())
}

#[test]
fn test_generator_from_file() -> Result<(), ConfigError> {
    let contents = "name=venkatesh\nserver_env=local\nversion=7\n";
    let map = env_config::parse_env_contents(contents);
    let settings = SettingsBuilder::from_hash_map(map)?;
    assert_eq!(settings.name, "venkatesh");
    assert_eq!(settings.server_env, "local");
    assert_eq!(settings.version, 7_u64);
    Ok(())
}

#[test]
fn map_without_server_env_defaults_to_local() {
    let mut map = EnvMap::new();
    map.insert("name".into(), "test".into());
    map.insert("version".into(), "42".into());
    let settings = SettingsBuilder::from_hash_map(map).unwrap();
    assert_eq!(settings.name, "test");
    assert_eq!(settings.server_env, "local");
    assert_eq!(settings.version, 42);
}

#[test]
fn map_with_server_env_keeps_it() {
    let mut map = EnvMap::new();
    map.insert("name".into(), "svc".into());
    map.insert("server_env".into(), "prod".into());
    map.insert("version".into(), "3".into());
    let settings = SettingsBuilder::from_hash_map(map).unwrap();
    assert_eq!(settings.server_env, "prod");
    assert_eq!(settings.version, 3);
}

#[test]
fn from_contents_loads_settings() {
    let settings =
        SettingsBuilder::from_contents("name=venkatesh\nserver_env=local\nversion=7\n").unwrap();
    assert_eq!(settings.name, "venkatesh");
    assert_eq!(settings.server_env, "local");
    assert_eq!(settings.version, 7);
}

#[test]
fn missing_name_is_missing_key() {
    let mut map = EnvMap::new();
    map.insert("version".into(), "1".into());
    match SettingsBuilder::from_hash_map(map) {
        Err(ConfigError::MissingKey { key }) => assert_eq!(key, "name"),
        other => panic!("unexpected {:?}", other),
    }
}

#[test]
fn missing_version_is_missing_key() {
    let mut map = EnvMap::new();
    map.insert("name".into(), "x".into());
    match SettingsBuilder::from_hash_map(map) {
        Err(ConfigError::MissingKey { key }) => assert_eq!(key, "version"),
        other => panic!("unexpected {:?}", other),
    }
}

#[test]
fn name_is_checked_before_version() {
    let map = EnvMap::new();
    match SettingsBuilder::from_hash_map(map) {
        Err(ConfigError::MissingKey { key }) => assert_eq!(key, "name"),
        other => panic!("unexpected {:?}", other),
    }
}

#[test]
fn unparsable_version_is_parse_error() {
    let mut map = EnvMap::new();
    map.insert("name".into(), "x".into());
    map.insert("version".into(), "seven".into());
    match SettingsBuilder::from_hash_map(map) {
        Err(ConfigError::ParseError { key, value, err }) => {
            assert_eq!(key, "version");
            assert_eq!(value, "seven");
            assert!(!err.is_empty());
        }
        other => panic!("unexpected {:?}", other),
    }
}

#[test]
fn version_too_large_is_parse_error() {
    let mut map = EnvMap::new();
    map.insert("name".into(), "x".into());
    map.insert("version".into(), "18446744073709551616".into());
    match SettingsBuilder::from_hash_map(map) {
        Err(ConfigError::ParseError { key, value, .. }) => {
            assert_eq!(key, "version");
            assert_eq!(value, "18446744073709551616");
        }
        other => panic!("unexpected {:?}", other),
    }
}

#[test]
fn largest_version_loads() {
    let settings =
        SettingsBuilder::from_contents("name=a\nversion=18446744073709551615").unwrap();
    assert_eq!(settings.version, u64::MAX);
}

#[test]
fn builder_defaults() {
    let settings = SettingsBuilder::new().with_name("n".to_string()).build().unwrap();
    assert_eq!(settings.name, "n");
    assert_eq!(settings.server_env, "local");
    assert_eq!(settings.version, 0);
}

#[test]
fn builder_sets_every_field() {
    let settings = SettingsBuilder::new()
        .with_name("n".to_string())
        .with_server_env("staging".to_string())
        .with_version(9)
        .build()
        .unwrap();
    assert_eq!(settings.server_env, "staging");
    assert_eq!(settings.version, 9);
}

#[test]
fn builder_without_name_fails() {
    match SettingsBuilder::new().with_version(1).build() {
        Err(ConfigError::MissingKey { key }) => assert_eq!(key, "name"),
        other => panic!("unexpected {:?}", other),
    }
}
