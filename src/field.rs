//! A single named configuration entry and the builder that validates it.

use vstd::prelude::*;

use crate::convert::{convert, converted, ConfigValue};
use crate::errors::{ConfigError, ConfigErrorView};
use crate::lookup::optional_result_view;

verus! {

/// The view of an optional text.
pub open spec fn opt_text(o: Option<String>) -> Option<Seq<char>> {
    match o {
        Some(s) => Some(s@),
        None => None,
    }
}

/// The mathematical value of a [`Field`] or [`FieldBuilder`]: its key, its raw text
/// if it has one, and whether it may be left without one.
pub struct FieldView {
    pub key: Seq<char>,
    pub value: Option<Seq<char>>,
    pub optional: bool,
}

/// What resolving the field `f` into a `T` gives: no value for an optional field
/// without text, `MissingKey` for a required one, else its text converted.
pub open spec fn field_value<T: ConfigValue>(f: FieldView) -> Result<Option<T::V>, ConfigErrorView> {
    match f.value {
        None => if f.optional {
            Ok(None)
        } else {
            Err(ConfigErrorView::MissingKey { key: f.key })
        },
        Some(text) => match converted::<T>(f.key, text) {
            Ok(v) => Ok(Some(v)),
            Err(e) => Err(e),
        },
    }
}

/// One configuration entry: a key, its raw text if present, and whether it is optional.
#[derive(Debug)]
pub struct Field {
    key: String,
    value: Option<String>,
    optional: bool,
}

impl View for Field {
    type V = FieldView;

    closed spec fn view(&self) -> FieldView {
        FieldView { key: self.key@, value: opt_text(self.value), optional: self.optional }
    }
}

impl Field {
    /// A required field under `key` holding `value`.
    pub fn new(key: &str, value: Option<String>) -> (r: Field)
        ensures
            r@ == (FieldView { key: key@, value: opt_text(value), optional: false }),
    {
        Field { key: key.to_owned(), value, optional: false }
    }

    /// The same field, optional exactly when `op` holds.
    pub fn with_optional(self, op: bool) -> (r: Field)
        ensures
            r@ == (FieldView { optional: op, ..self@ }),
    {
        Field { optional: op, ..self }
    }

    /// Whether the field may be left without a value.
    pub fn is_optional(&self) -> (r: bool)
        ensures
            r == self@.optional,
    {
        self.optional
    }

    /// The field's value converted into a `T`: no value for an optional field without
    /// text, `MissingKey` for a required one, and a `ParseError` under this field's
    /// key where the text does not convert.
    pub fn value<T: ConfigValue>(self) -> (r: Result<Option<T>, ConfigError>)
        ensures
            optional_result_view(r) == field_value::<T>(self@),
    {
        match self.value {
            None => if self.optional {
                Ok(None)
            } else {
                Err(ConfigError::missing_key_err(self.key.as_str()))
            },
            Some(text) => match convert(self.key.as_str(), text.as_str()) {
                Ok(v) => Ok(Some(v)),
                Err(e) => Err(e),
            },
        }
    }
}

/// Collects a field's key, text and optionality, and yields a [`Field`] only when
/// the field has text or is optional.
#[derive(Debug)]
pub struct FieldBuilder {
    key: String,
    value: Option<String>,
    optional: bool,
}

impl View for FieldBuilder {
    type V = FieldView;

    closed spec fn view(&self) -> FieldView {
        FieldView { key: self.key@, value: opt_text(self.value), optional: self.optional }
    }
}

impl FieldBuilder {
    /// A builder for a required field under `key`, with no text yet.
    pub fn new(key: &str) -> (r: FieldBuilder)
        ensures
            r@ == (FieldView { key: key@, value: None, optional: false }),
    {
        FieldBuilder { key: key.to_owned(), value: None, optional: false }
    }

    /// The same builder holding `value` as its text.
    pub fn with_value(self, value: Option<String>) -> (r: FieldBuilder)
        ensures
            r@ == (FieldView { value: opt_text(value), ..self@ }),
    {
        FieldBuilder { value, ..self }
    }

    /// The same builder with its text cleared and its optionality set to `op`.
    pub fn with_optional(self, op: bool) -> (r: FieldBuilder)
        ensures
            r@ == (FieldView { value: None, optional: op, ..self@ }),
    {
        FieldBuilder { value: None, optional: op, ..self }
    }

    /// The field, where it has text or is optional; else `MissingKey` with its key.
    pub fn build(self) -> (r: Result<Field, ConfigError>)
        ensures
            r is Ok <==> (self@.value is Some || self@.optional),
            match r {
                Ok(f) => f@ == self@,
                Err(e) => e@ == (ConfigErrorView::MissingKey { key: self@.key }),
            },
    {
        if self.value.is_some() || self.optional {
            Ok(Field { key: self.key, value: self.value, optional: self.optional })
        } else {
            Err(ConfigError::missing_key_err(self.key.as_str()))
        }
    }
}

} // verus!
