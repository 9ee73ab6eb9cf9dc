//! Typed configuration loading from `KEY=VALUE` text.
//!
//! The text is parsed into an [`EnvMap`], whose values are then converted into
//! typed fields and assembled into a settings value through a builder.

pub mod convert;
pub mod env_map;
pub mod errors;
pub mod field;
pub mod loader;
pub mod lookup;
pub mod parser;
pub mod settings;

pub use convert::{convert, parse, ConfigValue};
pub use env_map::EnvMap;
pub use errors::{ConfigError, ConfigErrorView};
pub use field::{Field, FieldBuilder};
pub use loader::{ConfigLoader, FileConfigLoader};
pub use lookup::{optional_parse, required_parse, required_str};
pub use parser::parse_env_contents;
pub use settings::{Settings, SettingsBuilder};
