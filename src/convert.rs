//! Conversion of raw text into typed values.

use vstd::prelude::*;

use crate::errors::{ConfigError, ConfigErrorView, result_view};

verus! {

/// Whether `c` is an ASCII decimal digit.
pub open spec fn is_digit(c: char) -> bool {
    0x30 <= (c as u32) <= 0x39
}

/// The number that the decimal digits `d` write.
pub open spec fn digits_value(d: Seq<char>) -> nat
    decreases d.len(),
{
    if d.len() == 0 {
        0
    } else {
        digits_value(d.drop_last()) * 10 + ((d.last() as u32) - 0x30) as nat
    }
}

/// The `u64` that `s` writes: an optional `+`, then one or more decimal digits
/// whose value fits in 64 bits, and nothing else.
pub open spec fn u64_of_text(s: Seq<char>) -> Option<u64> {
    let d = if s.len() > 0 && s[0] == '+' {
        s.drop_first()
    } else {
        s
    };
    if d.len() > 0 && (forall|i: int| 0 <= i < d.len() ==> is_digit(d[i])) && digits_value(d)
        <= u64::MAX {
        Some(digits_value(d) as u64)
    } else {
        None
    }
}

/// The message of the error that parsing `s` as a `u64` gives.
pub uninterp spec fn u64_parse_message(s: Seq<char>) -> Seq<char>;

/// Relies on `<u64 as FromStr>::from_str`, documented to accept exactly an optional
/// `+` followed by ASCII digits of a value that fits; on failure, on the `Display`
/// text of the `ParseIntError`, which depends on the text alone.
#[verifier::external_body]
fn parse_u64(text: &str) -> (r: Result<u64, String>)
    ensures
        match r {
            Ok(n) => u64_of_text(text@) == Some(n),
            Err(m) => u64_of_text(text@) is None && m@ == u64_parse_message(text@),
        },
{
    text.parse::<u64>().map_err(|e| e.to_string())
}

/// A type whose values can be read from configuration text.
pub trait ConfigValue: Sized + View {
    /// The value that `text` denotes, or `None` where it denotes none.
    spec fn from_text(text: Seq<char>) -> Option<Self::V>;

    /// The message explaining why `text` denotes no value.
    spec fn parse_message(text: Seq<char>) -> Seq<char>;

    /// Reads a value from `text`, or says why there is none.
    fn parse_text(text: &str) -> (r: Result<Self, String>)
        ensures
            match r {
                Ok(v) => Self::from_text(text@) == Some(v@),
                Err(m) => Self::from_text(text@) is None && m@ == Self::parse_message(text@),
            },
    ;
}

impl ConfigValue for u64 {
    open spec fn from_text(text: Seq<char>) -> Option<u64> {
        u64_of_text(text)
    }

    open spec fn parse_message(text: Seq<char>) -> Seq<char> {
        u64_parse_message(text)
    }

    fn parse_text(text: &str) -> (r: Result<u64, String>) {
        parse_u64(text)
    }
}

impl ConfigValue for String {
    open spec fn from_text(text: Seq<char>) -> Option<Seq<char>> {
        Some(text)
    }

    open spec fn parse_message(text: Seq<char>) -> Seq<char> {
        Seq::empty()
    }

    fn parse_text(text: &str) -> (r: Result<String, String>) {
        Ok(text.to_owned())
    }
}

/// The outcome of converting `text`, stored under `key`, into a `T`.
pub open spec fn converted<T: ConfigValue>(key: Seq<char>, text: Seq<char>) -> Result<
    T::V,
    ConfigErrorView,
> {
    match T::from_text(text) {
        Some(v) => Ok(v),
        None => Err(
            ConfigErrorView::ParseError { key, value: text, err: T::parse_message(text) },
        ),
    }
}

/// Converts `text`, stored under `key`, into a `T`, or fails with a parse error
/// that carries the key, the text and the converter's message.
pub fn convert<T: ConfigValue>(key: &str, text: &str) -> (r: Result<T, ConfigError>)
    ensures
        result_view(r) == converted::<T>(key@, text@),
{
    match T::parse_text(text) {
        Ok(v) => Ok(v),
        Err(m) => Err(ConfigError::parse_err(key, text, m.as_str())),
    }
}

/// Converts `value` into a `T` outside any field: a failure carries an empty key.
pub fn parse<T: ConfigValue>(value: String) -> (r: Result<T, ConfigError>)
    ensures
        result_view(r) == converted::<T>(Seq::empty(), value@),
{
    let none = "";
    proof {
        reveal_strlit("");
    }
    assert(none@ =~= Seq::<char>::empty());
    convert(none, value.as_str())
}

} // verus!
