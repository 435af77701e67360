//! The hyperparameters of a training run and the document they come from.
//!
//! The document is JSON and is read by `serde_json`. Every field must be
//! present and of its type; nothing is defaulted.

use crate::dataset::CLASSES;
use crate::decimal::{decimal_value, parse_decimal};
use crate::error::PipelineError;
use crate::fixed::{Fixed, SCALE};
use vstd::prelude::*;

verus! {

/// Whether `serde_json` reads `document` as a JSON value.
pub uninterp spec fn json_valid(document: Seq<char>) -> bool;

/// What `serde_json` finds in `document` under `key` when the member is
/// read as an unsigned integer; none where the document is no JSON, has no
/// such member, or the member is no such integer.
pub uninterp spec fn json_integer(document: Seq<char>, key: Seq<char>) -> Option<u64>;

/// What `serde_json` finds in `document` under `key` when the member is
/// read as an array, each element in turn as an unsigned integer; none
/// where the document is no JSON, has no such member, or the member is no
/// array.
pub uninterp spec fn json_integers(document: Seq<char>, key: Seq<char>) -> Option<
    Seq<Option<u64>>,
>;

/// The text in which `serde_json` prints the number that `document` holds
/// under `key`; none where the document is no JSON, has no such member, or
/// the member is no number.
pub uninterp spec fn json_number(document: Seq<char>, key: Seq<char>) -> Option<Seq<u8>>;

/// Asks `serde_json::from_str` whether it reads `document` as a
/// `serde_json::Value`. The contract only names the answer.
#[verifier::external_body]
fn is_document(document: &str) -> (valid: bool)
    ensures
        valid == json_valid(document@),
{
    serde_json::from_str::<serde_json::Value>(document).is_ok()
}

/// Reads `document` with `serde_json::from_str`, takes the member under
/// `key` with `Value::get` and reads it with `Value::as_u64`. The contract
/// only names the outcome.
#[verifier::external_body]
fn integer_member(document: &str, key: &str) -> (member: Option<u64>)
    ensures
        member == json_integer(document@, key@),
{
    serde_json::from_str::<serde_json::Value>(document).ok()?.get(key)?.as_u64()
}

/// Reads `document` with `serde_json::from_str`, takes the member under
/// `key` with `Value::get`, reads it with `Value::as_array` and each of its
/// elements with `Value::as_u64`. The contract only names the outcome.
#[verifier::external_body]
fn integers_member(document: &str, key: &str) -> (member: Option<Vec<Option<u64>>>)
    ensures
        member.deep_view() == json_integers(document@, key@),
{
    let value = serde_json::from_str::<serde_json::Value>(document).ok()?;
    Some(value.get(key)?.as_array()?.iter().map(|element| element.as_u64()).collect())
}

/// Reads `document` with `serde_json::from_str`, takes the member under
/// `key` with `Value::get`, reads it with `Value::as_number` and prints the
/// number as `serde_json::Number` displays it. The contract only names the
/// outcome.
#[verifier::external_body]
fn number_member(document: &str, key: &str) -> (member: Option<Vec<u8>>)
    ensures
        member.deep_view() == json_number(document@, key@),
{
    let value = serde_json::from_str::<serde_json::Value>(document).ok()?;
    Some(value.get(key)?.as_number()?.to_string().into_bytes())
}

/// The hyperparameters of a training run.
#[derive(Clone, Debug, PartialEq, Eq)]
pub struct Config {
    /// The size of each layer, the input layer first.
    pub layers: Vec<u32>,
    /// How many times training goes through the examples.
    pub epochs: u32,
    /// After how many epochs training reports its error.
    pub log_interval: u32,
    /// The momentum of training.
    pub momentum: Fixed,
    /// The learning rate.
    pub rate: Fixed,
}

/// A count is given, is at least one and fits in 32 bits.
pub open spec fn count_given(field: Option<u64>) -> bool {
    field is Some && 1 <= field->Some_0 <= u32::MAX
}

/// Layer sizes are given: at least two of them, each a count, the last
/// the number of classes.
pub open spec fn layers_given(field: Option<Seq<Option<u64>>>) -> bool {
    &&& field is Some
    &&& field->Some_0.len() >= 2
    &&& forall|i: int| 0 <= i < field->Some_0.len() ==> count_given(#[trigger] field->Some_0[i])
    &&& field->Some_0.last() == Some(CLASSES as u64)
}

/// A momentum is given: a number from zero up to, but not reaching, one.
pub open spec fn momentum_given(field: Option<Seq<u8>>) -> bool {
    &&& field is Some
    &&& decimal_value(field->Some_0) is Some
    &&& 0 <= decimal_value(field->Some_0)->Some_0 < SCALE
}

/// A learning rate is given: a number above zero.
pub open spec fn rate_given(field: Option<Seq<u8>>) -> bool {
    &&& field is Some
    &&& decimal_value(field->Some_0) is Some
    &&& 0 < decimal_value(field->Some_0)->Some_0
}

/// Every field is given and of its type.
pub open spec fn fields_given(
    layers: Option<Seq<Option<u64>>>,
    epochs: Option<u64>,
    log_interval: Option<u64>,
    momentum: Option<Seq<u8>>,
    rate: Option<Seq<u8>>,
) -> bool {
    &&& layers_given(layers)
    &&& count_given(epochs)
    &&& count_given(log_interval)
    &&& momentum_given(momentum)
    &&& rate_given(rate)
}

/// Takes a count where one is given.
fn read_count(field: Option<u64>) -> (count: Option<u32>)
    ensures
        count is Some <==> count_given(field),
        count is Some ==> count->Some_0 == field->Some_0,
{
    match field {
        Some(value) if 1 <= value && value <= u32::MAX as u64 => Some(value as u32),
        _ => None,
    }
}

/// Takes the layer sizes where they are given.
fn read_layers(field: &Option<Vec<Option<u64>>>) -> (widths: Option<Vec<u32>>)
    ensures
        widths is Some <==> layers_given(field.deep_view()),
        widths is Some ==> {
            &&& widths->Some_0@.len() == field.deep_view()->Some_0.len()
            &&& forall|i: int|
                0 <= i < widths->Some_0@.len() ==> field.deep_view()->Some_0[i] == Some(
                    (#[trigger] widths->Some_0@[i]) as u64,
                )
        },
{
    let sizes = match field {
        Some(sizes) => sizes,
        None => {
            return None;
        },
    };
    let ghost given = field.deep_view()->Some_0;
    if sizes.len() < 2 {
        return None;
    }
    let mut widths: Vec<u32> = Vec::with_capacity(sizes.len());
    let mut i: usize = 0;
    while i < sizes.len()
        invariant
            i <= sizes.len(),
            field.deep_view() == Some(given),
            given == sizes.deep_view(),
            given.len() == sizes@.len(),
            widths@.len() == i,
            forall|k: int| 0 <= k < i ==> count_given(#[trigger] given[k]),
            forall|k: int| 0 <= k < i ==> given[k] == Some((#[trigger] widths@[k]) as u64),
        decreases sizes.len() - i,
    {
        assert(given[i as int] == sizes@[i as int]);
        match read_count(sizes[i]) {
            Some(width) => {
                widths.push(width);
            },
            None => {
                return None;
            },
        }
        i += 1;
    }
    if widths[widths.len() - 1] as usize != CLASSES {
        return None;
    }
    Some(widths)
}

/// Reads the number that a field writes, where the field is given and
/// writes one.
fn read_number(field: &Option<Vec<u8>>) -> (number: Option<Fixed>)
    ensures
        number is Some <==> field is Some && decimal_value(field.deep_view()->Some_0) is Some,
        number is Some ==> decimal_value(field.deep_view()->Some_0) == Some(
            number->Some_0.units as int,
        ),
{
    match field {
        Some(text) => {
            assert(text.deep_view() =~= text@);
            parse_decimal(text.as_slice())
        },
        None => None,
    }
}

impl Config {
    /// What every configuration that was read satisfies: at least two
    /// layers, none of them empty, the last as wide as there are classes;
    /// at least one epoch; a log interval of at least one; a momentum from
    /// zero up to, but not reaching, one; a learning rate above zero.
    pub open spec fn is_valid(&self) -> bool {
        &&& self.layers@.len() >= 2
        &&& forall|i: int| 0 <= i < self.layers@.len() ==> (#[trigger] self.layers@[i]) >= 1
        &&& self.layers@.last() == CLASSES
        &&& self.epochs >= 1
        &&& self.log_interval >= 1
        &&& 0 <= self.momentum.units < SCALE
        &&& 0 < self.rate.units
    }

    /// The configuration holds exactly what the fields give.
    pub open spec fn holds(
        &self,
        layers: Seq<Option<u64>>,
        epochs: u64,
        log_interval: u64,
        momentum: Seq<u8>,
        rate: Seq<u8>,
    ) -> bool {
        &&& self.layers@.len() == layers.len()
        &&& forall|i: int|
            0 <= i < layers.len() ==> layers[i] == Some((#[trigger] self.layers@[i]) as u64)
        &&& self.epochs == epochs
        &&& self.log_interval == log_interval
        &&& decimal_value(momentum) == Some(self.momentum.units as int)
        &&& decimal_value(rate) == Some(self.rate.units as int)
    }

    /// Builds a configuration from its fields as they were found: each
    /// absent where the document had no member of that name and kind.
    ///
    /// It succeeds exactly when every field is given and of its type;
    /// otherwise a field is missing.
    pub fn from_fields(
        layers: Option<Vec<Option<u64>>>,
        epochs: Option<u64>,
        log_interval: Option<u64>,
        momentum: Option<Vec<u8>>,
        rate: Option<Vec<u8>>,
    ) -> (config: Result<Config, PipelineError>)
        ensures
            config is Ok <==> fields_given(
                layers.deep_view(),
                epochs,
                log_interval,
                momentum.deep_view(),
                rate.deep_view(),
            ),
            config is Ok ==> config->Ok_0.is_valid() && config->Ok_0.holds(
                layers.deep_view()->Some_0,
                epochs->Some_0,
                log_interval->Some_0,
                momentum.deep_view()->Some_0,
                rate.deep_view()->Some_0,
            ),
            config is Err ==> config->Err_0 == PipelineError::MissingField,
    {
        let widths = match read_layers(&layers) {
            Some(widths) => widths,
            None => {
                return Err(PipelineError::MissingField);
            },
        };
        let passes = match read_count(epochs) {
            Some(count) => count,
            None => {
                return Err(PipelineError::MissingField);
            },
        };
        let interval = match read_count(log_interval) {
            Some(count) => count,
            None => {
                return Err(PipelineError::MissingField);
            },
        };
        let inertia = match read_number(&momentum) {
            Some(number) if 0 <= number.units && number.units < SCALE => number,
            _ => {
                return Err(PipelineError::MissingField);
            },
        };
        let step = match read_number(&rate) {
            Some(number) if 0 < number.units => number,
            _ => {
                return Err(PipelineError::MissingField);
            },
        };
        Ok(
            Config {
                layers: widths,
                epochs: passes,
                log_interval: interval,
                momentum: inertia,
                rate: step,
            },
        )
    }

    /// Reads a configuration from a JSON document with the members
    /// `layers`, `epochs`, `log_interval`, `momentum` and `rate`.
    ///
    /// A text that is no JSON is a malformed document. In a JSON text every
    /// member must be given and of its type, or a field is missing.
    pub fn from(json: &str) -> (config: Result<Config, PipelineError>)
        ensures
            config is Ok <==> json_valid(json@) && fields_given(
                json_integers(json@, "layers"@),
                json_integer(json@, "epochs"@),
                json_integer(json@, "log_interval"@),
                json_number(json@, "momentum"@),
                json_number(json@, "rate"@),
            ),
            config is Ok ==> config->Ok_0.is_valid() && config->Ok_0.holds(
                json_integers(json@, "layers"@)->Some_0,
                json_integer(json@, "epochs"@)->Some_0,
                json_integer(json@, "log_interval"@)->Some_0,
                json_number(json@, "momentum"@)->Some_0,
                json_number(json@, "rate"@)->Some_0,
            ),
            config is Err ==> config->Err_0 == (if json_valid(json@) {
                PipelineError::MissingField
            } else {
                PipelineError::MalformedDocument
            }),
    {
        if !is_document(json) {
            return Err(PipelineError::MalformedDocument);
        }
        Config::from_fields(
            integers_member(json, "layers"),
            integer_member(json, "epochs"),
            integer_member(json, "log_interval"),
            number_member(json, "momentum"),
            number_member(json, "rate"),
        )
    }
}

} // verus!
