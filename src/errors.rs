//! The closed set of errors that loading a configuration can produce.

use vstd::prelude::*;

verus! {

/// An error met while loading a configuration.
#[derive(Debug, Clone, PartialEq, Eq)]
pub enum ConfigError {
    /// Reading the configuration source failed; `message` describes the failure.
    Io { message: String },
    /// A required key had no entry.
    MissingKey { key: String },
    /// The text stored under `key` could not be converted to the field's type.
    ParseError { key: String, value: String, err: String },
    /// Loading from `path` failed as a whole.
    LoadingError { path: String, err: String },
}

/// The mathematical value of a [`ConfigError`]: the same variants over character sequences.
pub enum ConfigErrorView {
    Io { message: Seq<char> },
    MissingKey { key: Seq<char> },
    ParseError { key: Seq<char>, value: Seq<char>, err: Seq<char> },
    LoadingError { path: Seq<char>, err: Seq<char> },
}

impl View for ConfigError {
    type V = ConfigErrorView;

    open spec fn view(&self) -> ConfigErrorView {
        match self {
            ConfigError::Io { message } => ConfigErrorView::Io { message: message@ },
            ConfigError::MissingKey { key } => ConfigErrorView::MissingKey { key: key@ },
            ConfigError::ParseError { key, value, err } => ConfigErrorView::ParseError {
                key: key@,
                value: value@,
                err: err@,
            },
            ConfigError::LoadingError { path, err } => ConfigErrorView::LoadingError {
                path: path@,
                err: err@,
            },
        }
    }
}

/// The view of a fallible result: its value's view on success, its error's view on failure.
pub open spec fn result_view<T: View>(r: Result<T, ConfigError>) -> Result<T::V, ConfigErrorView> {
    match r {
        Ok(v) => Ok(v@),
        Err(e) => Err(e@),
    }
}

impl ConfigError {
    /// A conversion failure of `value` under `key`, with the converter's message `e`.
    pub fn parse_err(key: &str, value: &str, e: &str) -> (r: ConfigError)
        ensures
            r@ == (ConfigErrorView::ParseError { key: key@, value: value@, err: e@ }),
    {
        ConfigError::ParseError { key: key.to_owned(), value: value.to_owned(), err: e.to_owned() }
    }

    /// A required `key` with no entry.
    pub fn missing_key_err(key: &str) -> (r: ConfigError)
        ensures
            r@ == (ConfigErrorView::MissingKey { key: key@ }),
    {
        ConfigError::MissingKey { key: key.to_owned() }
    }

    /// A failure to load the configuration at `path`, described by `err`.
    pub fn loading_err(path: &str, err: &str) -> (r: ConfigError)
        ensures
            r@ == (ConfigErrorView::LoadingError { path: path@, err: err@ }),
    {
        ConfigError::LoadingError { path: path.to_owned(), err: err.to_owned() }
    }
}

} // verus!
