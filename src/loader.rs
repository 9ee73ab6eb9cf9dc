//! The loading capability: from a raw map, and from `KEY=VALUE` text.

use vstd::prelude::*;

use crate::env_map::EnvMap;
use crate::errors::{ConfigError, ConfigErrorView, result_view};
use crate::parser::{parse_env_contents, parsed_env};

verus! {

/// A type that knows how to turn a raw map into a validated settings value.
pub trait ConfigLoader: Sized {
    /// The settings value produced.
    type Out: View;

    /// What loading from the map `m` gives: the settings value, or the first error.
    spec fn loaded(m: Map<Seq<char>, Seq<char>>) -> Result<<Self::Out as View>::V, ConfigErrorView>;

    /// Loads the settings value from `map`, failing on the first missing or
    /// unconvertible required field.
    fn from_hash_map(map: EnvMap) -> (r: Result<Self::Out, ConfigError>)
        requires
            map.wf(),
        ensures
            result_view(r) == Self::loaded(map@),
    ;
}

/// Loading from `KEY=VALUE` text, had by every [`ConfigLoader`].
pub trait FileConfigLoader: ConfigLoader {
    /// Parses `contents` and loads the settings value from the resulting map.
    fn from_contents(contents: &str) -> (r: Result<Self::Out, ConfigError>)
        ensures
            result_view(r) == Self::loaded(parsed_env(contents@)),
    {
        let map = parse_env_contents(contents);
        Self::from_hash_map(map)
    }
}

impl<T: ConfigLoader> FileConfigLoader for T {

}

} // verus!
