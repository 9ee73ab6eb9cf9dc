//! Reading single keys of an [`EnvMap`], required or optional, as text or converted.

use vstd::prelude::*;

use crate::convert::{convert, converted, ConfigValue};
use crate::env_map::EnvMap;
use crate::errors::{ConfigError, ConfigErrorView, result_view};

verus! {

/// The view of a fallible optional result.
pub open spec fn optional_result_view<T: View>(r: Result<Option<T>, ConfigError>) -> Result<
    Option<T::V>,
    ConfigErrorView,
> {
    match r {
        Ok(Some(v)) => Ok(Some(v@)),
        Ok(None) => Ok(None),
        Err(e) => Err(e@),
    }
}

/// The text under `key`, or a missing-key error.
pub open spec fn required_text(m: Map<Seq<char>, Seq<char>>, key: Seq<char>) -> Result<
    Seq<char>,
    ConfigErrorView,
> {
    if m.contains_key(key) {
        Ok(m[key])
    } else {
        Err(ConfigErrorView::MissingKey { key })
    }
}

/// The text under `key` converted into a `T`, or the first error on the way.
pub open spec fn required_value<T: ConfigValue>(
    m: Map<Seq<char>, Seq<char>>,
    key: Seq<char>,
) -> Result<T::V, ConfigErrorView> {
    if m.contains_key(key) {
        converted::<T>(key, m[key])
    } else {
        Err(ConfigErrorView::MissingKey { key })
    }
}

/// No value where `key` is absent; else the text under it converted into a `T`.
pub open spec fn optional_value<T: ConfigValue>(
    m: Map<Seq<char>, Seq<char>>,
    key: Seq<char>,
) -> Result<Option<T::V>, ConfigErrorView> {
    if m.contains_key(key) {
        match converted::<T>(key, m[key]) {
            Ok(v) => Ok(Some(v)),
            Err(e) => Err(e),
        }
    } else {
        Ok(None)
    }
}

/// A copy of the text under `key`; fails with `MissingKey` where there is none.
pub fn required_str(map: &EnvMap, key: &str) -> (r: Result<String, ConfigError>)
    requires
        map.wf(),
    ensures
        result_view(r) == required_text(map@, key@),
{
    match map.get(key) {
        Some(v) => Ok(v.clone()),
        None => Err(ConfigError::missing_key_err(key)),
    }
}

/// The text under `key` converted into a `T`; fails with `MissingKey` where there is
/// none, and with `ParseError` where the text does not convert.
pub fn required_parse<T: ConfigValue>(map: &EnvMap, key: &str) -> (r: Result<T, ConfigError>)
    requires
        map.wf(),
    ensures
        result_view(r) == required_value::<T>(map@, key@),
{
    match map.get(key) {
        Some(v) => convert(key, v.as_str()),
        None => Err(ConfigError::missing_key_err(key)),
    }
}

/// The text under `key` converted into a `T`, or no value where the key is absent;
/// fails with `ParseError` where the text does not convert.
pub fn optional_parse<T: ConfigValue>(map: &EnvMap, key: &str) -> (r: Result<
    Option<T>,
    ConfigError,
>)
    requires
        map.wf(),
    ensures
        optional_result_view(r) == optional_value::<T>(map@, key@),
{
    match map.get(key) {
        None => Ok(None),
        Some(v) => match convert(key, v.as_str()) {
            Ok(x) => Ok(Some(x)),
            Err(e) => Err(e),
        },
    }
}

} // verus!
