//! The settings of a service, its builder, and how it loads from a raw map.
//!
//! `name` and `version` are required by the loader; `server_env` is optional and
//! defaults to `local`. The builder leaves an unset `version` at `0`.

use vstd::prelude::*;

use crate::convert::{u64_of_text, u64_parse_message};
use crate::env_map::EnvMap;
use crate::errors::{ConfigError, ConfigErrorView};
use crate::loader::ConfigLoader;
use crate::lookup::{required_parse, required_str, required_text, required_value};

verus! {

/// Validated settings.
#[derive(Debug, Clone, PartialEq, Eq)]
pub struct Settings {
    pub name: String,
    pub server_env: String,
    pub version: u64,
}

/// The mathematical value of [`Settings`].
pub struct SettingsView {
    pub name: Seq<char>,
    pub server_env: Seq<char>,
    pub version: u64,
}

impl View for Settings {
    type V = SettingsView;

    open spec fn view(&self) -> SettingsView {
        SettingsView { name: self.name@, server_env: self.server_env@, version: self.version }
    }
}

/// The fields set so far on a [`SettingsBuilder`].
pub struct SettingsBuilderView {
    pub name: Option<Seq<char>>,
    pub server_env: Option<Seq<char>>,
    pub version: Option<u64>,
}

/// Accumulates the fields of a [`Settings`] value.
#[derive(Debug)]
pub struct SettingsBuilder {
    name: Option<String>,
    server_env: Option<String>,
    version: Option<u64>,
}

impl View for SettingsBuilder {
    type V = SettingsBuilderView;

    closed spec fn view(&self) -> SettingsBuilderView {
        SettingsBuilderView {
            name: match self.name {
                Some(s) => Some(s@),
                None => None,
            },
            server_env: match self.server_env {
                Some(s) => Some(s@),
                None => None,
            },
            version: self.version,
        }
    }
}

/// What building from the fields `b` gives: `name` is required, `server_env`
/// defaults to `local` and `version` to `0`.
pub open spec fn built(b: SettingsBuilderView) -> Result<SettingsView, ConfigErrorView> {
    match b.name {
        None => Err(ConfigErrorView::MissingKey { key: "name"@ }),
        Some(name) => Ok(
            SettingsView {
                name,
                server_env: match b.server_env {
                    Some(e) => e,
                    None => "local"@,
                },
                version: match b.version {
                    Some(v) => v,
                    None => 0,
                },
            },
        ),
    }
}

/// What loading from the map `m` gives: `name` is read first, then `version` as a
/// `u64`; the first of them missing or unconvertible is the error; `server_env`
/// is its text where present and `local` otherwise.
pub open spec fn settings_from_map(m: Map<Seq<char>, Seq<char>>) -> Result<
    SettingsView,
    ConfigErrorView,
> {
    match required_text(m, "name"@) {
        Err(e) => Err(e),
        Ok(name) => match required_value::<u64>(m, "version"@) {
            Err(e) => Err(e),
            Ok(version) => Ok(
                SettingsView {
                    name,
                    server_env: if m.contains_key("server_env"@) {
                        m["server_env"@]
                    } else {
                        "local"@
                    },
                    version,
                },
            ),
        },
    }
}

impl SettingsBuilder {
    /// A builder with no field set.
    pub fn new() -> (r: SettingsBuilder)
        ensures
            r@ == (SettingsBuilderView { name: None, server_env: None, version: None }),
    {
        SettingsBuilder { name: None, server_env: None, version: None }
    }

    /// The same builder with `name` set.
    pub fn with_name(self, name: String) -> (r: SettingsBuilder)
        ensures
            r@ == (SettingsBuilderView { name: Some(name@), ..self@ }),
    {
        SettingsBuilder { name: Some(name), ..self }
    }

    /// The same builder with `server_env` set.
    pub fn with_server_env(self, server_env: String) -> (r: SettingsBuilder)
        ensures
            r@ == (SettingsBuilderView { server_env: Some(server_env@), ..self@ }),
    {
        SettingsBuilder { server_env: Some(server_env), ..self }
    }

    /// The same builder with `version` set.
    pub fn with_version(self, version: u64) -> (r: SettingsBuilder)
        ensures
            r@ == (SettingsBuilderView { version: Some(version), ..self@ }),
    {
        SettingsBuilder { version: Some(version), ..self }
    }

    /// The settings, or `MissingKey` for `name` where it was never set.
    pub fn build(self) -> (r: Result<Settings, ConfigError>)
        ensures
            crate::errors::result_view(r) == built(self@),
    {
        let name = match self.name {
            Some(n) => n,
            None => {
                return Err(ConfigError::missing_key_err("name"));
            },
        };
        let server_env = match self.server_env {
            Some(e) => e,
            None => "local".to_owned(),
        };
        let version = match self.version {
            Some(v) => v,
            None => 0,
        };
        Ok(Settings { name, server_env, version })
    }
}

impl ConfigLoader for SettingsBuilder {
    type Out = Settings;

    open spec fn loaded(m: Map<Seq<char>, Seq<char>>) -> Result<SettingsView, ConfigErrorView> {
        settings_from_map(m)
    }

    fn from_hash_map(map: EnvMap) -> (r: Result<Settings, ConfigError>) {
        let name = match required_str(&map, "name") {
            Ok(n) => n,
            Err(e) => {
                return Err(e);
            },
        };
        let server_env = match map.get("server_env") {
            Some(e) => e.clone(),
            None => "local".to_owned(),
        };
        let version = match required_parse::<u64>(&map, "version") {
            Ok(v) => v,
            Err(e) => {
                return Err(e);
            },
        };
        SettingsBuilder::new().with_name(name).with_server_env(server_env).with_version(
            version,
        ).build()
    }
}

/// A required key absent from the map fails the load with `MissingKey` under that
/// key; `name` is resolved before `version`.
pub proof fn lemma_missing_required_key(m: Map<Seq<char>, Seq<char>>)
    ensures
        !m.contains_key("name"@) ==> <SettingsBuilder as ConfigLoader>::loaded(m) == Err::<
            SettingsView,
            ConfigErrorView,
        >(ConfigErrorView::MissingKey { key: "name"@ }),
        m.contains_key("name"@) && !m.contains_key("version"@) ==> <SettingsBuilder as ConfigLoader>::loaded(
            m,
        ) == Err::<SettingsView, ConfigErrorView>(ConfigErrorView::MissingKey { key: "version"@ }),
{
}

/// A present `version` whose text is no `u64` fails the load with `ParseError`
/// carrying the key `version`, the text as it stood, and the converter's message.
pub proof fn lemma_unparsable_version(m: Map<Seq<char>, Seq<char>>)
    requires
        m.contains_key("name"@),
        m.contains_key("version"@),
        u64_of_text(m["version"@]) is None,
    ensures
        <SettingsBuilder as ConfigLoader>::loaded(m) == Err::<SettingsView, ConfigErrorView>(
            ConfigErrorView::ParseError {
                key: "version"@,
                value: m["version"@],
                err: u64_parse_message(m["version"@]),
            },
        ),
{
}

} // verus!
