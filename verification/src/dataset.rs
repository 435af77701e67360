//! From rows of numbers to labelled examples, and their partition.

use crate::error::PipelineError;
use crate::fixed::{trunc_div, Fixed, SCALE};
use vstd::prelude::*;

verus! {

/// Number of classes: the digits zero to nine.
pub const CLASSES: usize = 10;

/// The largest label that is taken: 9.9.
pub const MAX_LABEL: i64 = 9_900_000_000;

/// The largest raw intensity; features are divided by it.
pub const INTENSITY_MAX: i64 = 255;

/// The share of a dataset that goes to training unless another is asked
/// for: six tenths.
pub const DEFAULT_SPLIT: i64 = 600_000_000;

/// A feature vector paired with the one-hot target of its label.
pub type Example = (Vec<Fixed>, Vec<Fixed>);

/// A label names a class when it lies between 0 and 9.9, both included.
pub open spec fn label_in_range(label: Fixed) -> bool {
    0 <= label.units <= MAX_LABEL
}

/// The class of a label: the label rounded down.
pub open spec fn label_class(label: Fixed) -> int {
    (label.units as int) / (SCALE as int)
}

/// The vector of ten entries that has a one at `class` and zeros elsewhere.
pub open spec fn one_hot(class: int) -> Seq<Fixed> {
    Seq::new(
        CLASSES as nat,
        |i: int|
            if i == class {
                Fixed { units: SCALE }
            } else {
                Fixed { units: 0 }
            },
    )
}

/// Builds the one-hot vector of a class.
fn one_hot_vector(class: usize) -> (encoded: Vec<Fixed>)
    ensures
        encoded@ == one_hot(class as int),
{
    let mut encoded: Vec<Fixed> = Vec::with_capacity(CLASSES);
    let mut i: usize = 0;
    while i < CLASSES
        invariant
            i <= CLASSES,
            encoded@.len() == i,
            forall|j: int| 0 <= j < i ==> encoded@[j] == one_hot(class as int)[j],
        decreases CLASSES - i,
    {
        encoded.push(
            if i == class {
                Fixed::one()
            } else {
                Fixed::zero()
            },
        );
        i += 1;
    }
    encoded
}

/// Encodes a label as the one-hot vector of its class.
///
/// A label below 0 or above 9.9 is refused as out of range.
pub fn digit_as_vec_data(digit: Fixed) -> (encoded: Result<Vec<Fixed>, PipelineError>)
    ensures
        encoded is Ok <==> label_in_range(digit),
        encoded is Ok ==> encoded->Ok_0@ == one_hot(label_class(digit)),
        encoded is Err ==> encoded->Err_0 == PipelineError::OutOfRange,
{
    if digit.units < 0 || digit.units > MAX_LABEL {
        return Err(PipelineError::OutOfRange);
    }
    Ok(one_hot_vector((digit.units / SCALE) as usize))
}

/// `index` is the place of the first largest entry of `values`.
pub open spec fn is_argmax(values: Seq<Fixed>, index: int) -> bool {
    &&& 0 <= index < values.len()
    &&& forall|j: int| 0 <= j < values.len() ==> (#[trigger] values[j]).units <= values[index].units
    &&& forall|j: int| 0 <= j < index ==> (#[trigger] values[j]).units < values[index].units
}

/// Decodes a target or an output vector: the place of its first largest
/// entry. An empty vector has none.
pub fn decode(values: &Vec<Fixed>) -> (class: Option<usize>)
    ensures
        class is Some <==> values@.len() > 0,
        class is Some ==> is_argmax(values@, class->Some_0 as int),
{
    if values.len() == 0 {
        return None;
    }
    let mut best: usize = 0;
    let mut i: usize = 1;
    while i < values.len()
        invariant
            0 <= best < i <= values.len(),
            forall|j: int|
                0 <= j < i ==> (#[trigger] values@[j]).units <= values@[best as int].units,
            forall|j: int|
                0 <= j < best ==> (#[trigger] values@[j]).units < values@[best as int].units,
        decreases values.len() - i,
    {
        if values[i].units > values[best].units {
            best = i;
        }
        i += 1;
    }
    Some(best)
}

/// Decoding undoes encoding: for every label between 0 and 9.9, the first
/// largest entry of the label's one-hot vector stands at the label rounded
/// down.
pub proof fn lemma_decode_inverts_encode(label: Fixed, index: int)
    requires
        label_in_range(label),
        is_argmax(one_hot(label_class(label)), index),
    ensures
        index == label_class(label),
{
    let encoded = one_hot(label_class(label));
    assert(encoded[label_class(label)].units == SCALE);
    if index != label_class(label) {
        assert(encoded[index].units == 0);
    }
}

/// A raw intensity brought into the unit range: divided by 255, the
/// quotient cut toward zero at the ninth decimal place.
pub open spec fn normalised_value(raw: Fixed) -> Fixed {
    Fixed { units: trunc_div(raw.units as int, INTENSITY_MAX as int) as i64 }
}

/// Each value of `row` divided by 255.
pub open spec fn normalised(row: Seq<Fixed>) -> Seq<Fixed> {
    Seq::new(row.len(), |i: int| normalised_value(row[i]))
}

/// A raw intensity between 0 and 255 is brought between 0 and 1.
pub proof fn lemma_normalised_in_unit_range(raw: Fixed)
    requires
        0 <= raw.units <= INTENSITY_MAX * SCALE,
    ensures
        0 <= normalised_value(raw).units <= SCALE,
{
}

/// Divides every value by 255. Nothing is clamped: a value outside 0 to 255
/// gives one outside 0 to 1.
pub fn normalise(row: &Vec<Fixed>) -> (scaled: Vec<Fixed>)
    ensures
        scaled@.len() == row@.len(),
        forall|i: int|
            0 <= i < row@.len() ==> (#[trigger] scaled@[i]).units == trunc_div(
                row@[i].units as int,
                INTENSITY_MAX as int,
            ),
        scaled@ == normalised(row@),
{
    let mut scaled: Vec<Fixed> = Vec::with_capacity(row.len());
    let mut i: usize = 0;
    while i < row.len()
        invariant
            i <= row.len(),
            scaled@.len() == i,
            forall|j: int| 0 <= j < i ==> scaled@[j] == normalised_value(row@[j]),
        decreases row.len() - i,
    {
        scaled.push(Fixed { units: row[i].units / INTENSITY_MAX });
        i += 1;
    }
    scaled
}

/// Why a row gives no example, if it gives none: it has no label, or its
/// label names no class.
pub open spec fn row_error(row: Seq<Fixed>) -> Option<PipelineError> {
    if row.len() == 0 {
        Some(PipelineError::ParseError)
    } else if !label_in_range(row[0]) {
        Some(PipelineError::OutOfRange)
    } else {
        None
    }
}

/// The features of a row: all but its first value, each divided by 255.
pub open spec fn features_of(row: Seq<Fixed>) -> Seq<Fixed> {
    normalised(row.skip(1))
}

/// The target of a row: the one-hot vector of its first value.
pub open spec fn target_of(row: Seq<Fixed>) -> Seq<Fixed> {
    one_hot(label_class(row[0]))
}

/// Takes the label off the front of a row and turns the row into an
/// example: the remaining values divided by 255, and the label's one-hot
/// vector.
///
/// A row without values fails as unparsed, a label outside 0 to 9.9 as out
/// of range; the row is then left as it was.
pub fn replace(row: &mut Vec<Fixed>) -> (example: Result<Example, PipelineError>)
    ensures
        example is Ok <==> row_error(old(row)@) is None,
        example is Ok ==> {
            &&& example->Ok_0.0@ == features_of(old(row)@)
            &&& example->Ok_0.1@ == target_of(old(row)@)
            &&& final(row)@ == old(row)@.skip(1)
        },
        example is Err ==> {
            &&& row_error(old(row)@) == Some(example->Err_0)
            &&& final(row)@ == old(row)@
        },
{
    if row.len() == 0 {
        return Err(PipelineError::ParseError);
    }
    if row[0].units < 0 || row[0].units > MAX_LABEL {
        return Err(PipelineError::OutOfRange);
    }
    Ok(strip_label(row))
}

/// Turns a row that has a label in range into its example, taking the
/// label off the row.
fn strip_label(row: &mut Vec<Fixed>) -> (example: Example)
    requires
        row_error(old(row)@) is None,
    ensures
        example.0@ == features_of(old(row)@),
        example.1@ == target_of(old(row)@),
        final(row)@ == old(row)@.skip(1),
{
    let label = row.remove(0);
    (normalise(row), one_hot_vector((label.units / SCALE) as usize))
}

/// The failure of the first of the first `n` rows that gives no example.
pub open spec fn rows_error_upto(rows: Seq<Vec<Fixed>>, n: int) -> Option<PipelineError>
    decreases n,
{
    if n <= 0 {
        None
    } else if rows_error_upto(rows, n - 1) is Some {
        rows_error_upto(rows, n - 1)
    } else {
        row_error(rows[n - 1]@)
    }
}

/// The failure of the first row that gives no example.
pub open spec fn rows_error(rows: Seq<Vec<Fixed>>) -> Option<PipelineError> {
    rows_error_upto(rows, rows.len() as int)
}

/// When the first `n` rows are without failure, each of them is.
pub proof fn lemma_rows_without_error(rows: Seq<Vec<Fixed>>, n: int)
    requires
        rows_error_upto(rows, n) is None,
    ensures
        forall|i: int| 0 <= i < n ==> row_error((#[trigger] rows[i])@) is None,
    decreases n,
{
    if n > 0 {
        lemma_rows_without_error(rows, n - 1);
    }
}

/// Once a failure is met among the first `n` rows, it stays the failure of
/// every longer prefix.
pub proof fn lemma_rows_error_stays(rows: Seq<Vec<Fixed>>, n: int, m: int)
    requires
        rows_error_upto(rows, n) is Some,
        n <= m,
    ensures
        rows_error_upto(rows, m) == rows_error_upto(rows, n),
    decreases m - n,
{
    if n < m {
        lemma_rows_error_stays(rows, n, m - 1);
    }
}

/// Builds the dataset: one example for each row, in the order of the rows.
/// Each row loses its label and keeps its raw features.
///
/// When a row gives no example, the failure of the first such row is
/// returned and no row is touched.
pub fn split_and_normalise(data: &mut Vec<Vec<Fixed>>) -> (examples: Result<
    Vec<Example>,
    PipelineError,
>)
    ensures
        examples is Ok <==> rows_error(old(data)@) is None,
        examples is Ok ==> {
            &&& examples->Ok_0@.len() == old(data)@.len()
            &&& final(data)@.len() == old(data)@.len()
            &&& forall|i: int|
                0 <= i < old(data)@.len() ==> {
                    &&& (#[trigger] examples->Ok_0@[i]).0@ == features_of(old(data)@[i]@)
                    &&& examples->Ok_0@[i].1@ == target_of(old(data)@[i]@)
                    &&& final(data)@[i]@ == old(data)@[i]@.skip(1)
                }
        },
        examples is Err ==> {
            &&& rows_error(old(data)@) == Some(examples->Err_0)
            &&& final(data)@ == old(data)@
        },
{
    let count: usize = data.len();
    let mut checked: usize = 0;
    while checked < count
        invariant
            checked <= count,
            count == data@.len(),
            data@ == old(data)@,
            rows_error_upto(data@, checked as int) is None,
        decreases count - checked,
    {
        let row = &data[checked];
        if row.len() == 0 {
            proof {
                lemma_rows_error_stays(data@, checked + 1, count as int);
            }
            return Err(PipelineError::ParseError);
        }
        if row[0].units < 0 || row[0].units > MAX_LABEL {
            proof {
                lemma_rows_error_stays(data@, checked + 1, count as int);
            }
            return Err(PipelineError::OutOfRange);
        }
        checked += 1;
    }
    proof {
        lemma_rows_without_error(data@, count as int);
    }
    let mut examples: Vec<Example> = Vec::with_capacity(count);
    let mut i: usize = 0;
    while i < count
        invariant
            i <= count,
            count == data@.len(),
            count == old(data)@.len(),
            examples@.len() == i,
            forall|j: int| 0 <= j < count ==> row_error((#[trigger] old(data)@[j])@) is None,
            forall|j: int|
                0 <= j < i ==> {
                    &&& (#[trigger] examples@[j]).0@ == features_of(old(data)@[j]@)
                    &&& examples@[j].1@ == target_of(old(data)@[j]@)
                    &&& data@[j]@ == old(data)@[j]@.skip(1)
                },
            forall|j: int| i <= j < count ==> data@[j] == old(data)@[j],
        decreases count - i,
    {
        let example = strip_label(&mut data[i]);
        examples.push(example);
        i += 1;
    }
    Ok(examples)
}

/// A split fraction lies between 0 and 1, both included.
pub open spec fn fraction_in_range(fraction: Fixed) -> bool {
    0 <= fraction.units <= SCALE
}

/// Where a dataset of `len` examples is cut: `fraction` times `len`,
/// rounded down.
pub open spec fn split_point(len: int, fraction: Fixed) -> int {
    (fraction.units * len) / (SCALE as int)
}

/// The cut falls inside the dataset.
pub proof fn lemma_split_point_bounds(len: int, fraction: Fixed)
    requires
        0 <= len,
        fraction_in_range(fraction),
    ensures
        0 <= split_point(len, fraction) <= len,
{
    let units = fraction.units as int;
    assert(0 <= units * len <= 1_000_000_000 * len) by (nonlinear_arith)
        requires
            0 <= units <= 1_000_000_000,
            0 <= len,
    ;
}

/// The six tenths that go to training by default.
pub fn default_split() -> (fraction: Fixed)
    ensures
        fraction.units == DEFAULT_SPLIT,
        fraction_in_range(fraction),
{
    Fixed { units: DEFAULT_SPLIT }
}

/// Cuts a dataset into a training part and a validation part without
/// reordering it: the first `split_point` examples train, the others
/// validate.
///
/// A dataset without examples fails as empty; otherwise a fraction below 0
/// or above 1 fails as out of range.
pub fn train_validation_split(dataset: Vec<Example>, fraction: Fixed) -> (parts: Result<
    (Vec<Example>, Vec<Example>),
    PipelineError,
>)
    ensures
        parts is Ok <==> dataset@.len() > 0 && fraction_in_range(fraction),
        parts is Ok ==> {
            let k = split_point(dataset@.len() as int, fraction);
            &&& 0 <= k <= dataset@.len()
            &&& parts->Ok_0.0@ == dataset@.subrange(0, k)
            &&& parts->Ok_0.1@ == dataset@.subrange(k, dataset@.len() as int)
            &&& parts->Ok_0.0@.len() + parts->Ok_0.1@.len() == dataset@.len()
            &&& parts->Ok_0.0@ + parts->Ok_0.1@ == dataset@
        },
        parts is Err ==> parts->Err_0 == (if dataset@.len() == 0 {
            PipelineError::EmptyDataset
        } else {
            PipelineError::OutOfRange
        }),
{
    if dataset.len() == 0 {
        return Err(PipelineError::EmptyDataset);
    }
    if fraction.units < 0 || fraction.units > SCALE {
        return Err(PipelineError::OutOfRange);
    }
    proof {
        lemma_split_point_bounds(dataset@.len() as int, fraction);
    }
    let product: u128 = (fraction.units as u128) * (dataset.len() as u128);
    let cut: usize = (product / (SCALE as u128)) as usize;
    let mut training = dataset;
    let validation = training.split_off(cut);
    Ok((training, validation))
}

} // verus!
