//! Scoring model outputs against their targets.
//!
//! A model answers each example with an output vector. The harness rounds
//! every component to the nearest whole number, measures how far the raw
//! output lay from its rounding, and compares the rounding with the target.

use crate::dataset::{one_hot, Example};
use crate::error::PipelineError;
use crate::fixed::{floor_sqrt, is_floor_sqrt, lemma_residual_bound, residual, round_units,
    trunc_div, Fixed, HALF_SQUARED, SCALE};
use vstd::prelude::*;

verus! {

/// Widest output vector that is scored: layer sizes are 32-bit numbers.
pub const MAX_WIDTH: usize = 4_294_967_295;

/// The divisor of the variance: one less than the ten classes.
pub const VARIANCE_DIVISOR: i64 = 9;

/// Sum over the first `n` components of the squared distance between an
/// output and its rounding, in squared units.
pub open spec fn squared_error_upto(output: Seq<Fixed>, n: int) -> int
    decreases n,
{
    if n <= 0 {
        0
    } else {
        squared_error_upto(output, n - 1) + residual(output[n - 1].units as int) * residual(
            output[n - 1].units as int,
        )
    }
}

/// Sum of squared rounding distances over the whole output, in squared units.
pub open spec fn squared_error(output: Seq<Fixed>) -> int {
    squared_error_upto(output, output.len() as int)
}

/// By how many wholes a rounded output component exceeds its target
/// component, the difference cut toward zero.
pub open spec fn component_gap(output: Fixed, target: Fixed) -> int {
    trunc_div(round_units(output.units as int) * SCALE - target.units, SCALE as int)
}

/// Sum of the component gaps over the first `n` components.
pub open spec fn discrepancy_upto(output: Seq<Fixed>, target: Seq<Fixed>, n: int) -> int
    decreases n,
{
    if n <= 0 {
        0
    } else {
        discrepancy_upto(output, target, n - 1) + component_gap(output[n - 1], target[n - 1])
    }
}

/// Sum of the component gaps over the whole output.
pub open spec fn discrepancy(output: Seq<Fixed>, target: Seq<Fixed>) -> int {
    discrepancy_upto(output, target, output.len() as int)
}

/// An output counts as correct when its gaps to the target cancel to zero.
pub open spec fn is_correct(output: Seq<Fixed>, target: Seq<Fixed>) -> bool {
    discrepancy(output, target) == 0
}

/// What was measured on one example.
#[derive(Clone, Debug, PartialEq, Eq)]
pub struct EvaluationRecord {
    /// The model's output as it came.
    pub predicted: Vec<Fixed>,
    /// Each output component rounded to the nearest whole number.
    pub rounded: Vec<i64>,
    /// The target the output is held against.
    pub actual: Vec<Fixed>,
    /// Sum of squared rounding distances.
    pub sum_of_squared_error: Fixed,
    /// The sum of squared error over nine.
    pub variance: Fixed,
    /// Square root of the sum of squared error over the output width.
    pub standard_deviation: Fixed,
    /// Whether the gaps between the rounded output and the target cancel
    /// to zero.
    pub correct: bool,
}

impl EvaluationRecord {
    /// The record holds exactly what scoring `output` against `target` gives.
    pub open spec fn describes(&self, output: Seq<Fixed>, target: Seq<Fixed>) -> bool {
        &&& self.predicted@ == output
        &&& self.actual@ == target
        &&& self.rounded@.len() == output.len()
        &&& forall|i: int|
            0 <= i < output.len() ==> #[trigger] self.rounded@[i] == round_units(
                output[i].units as int,
            )
        &&& self.sum_of_squared_error.units == squared_error(output) / (SCALE as int)
        &&& self.variance.units == (self.sum_of_squared_error.units as int) / (
        VARIANCE_DIVISOR as int)
        &&& is_floor_sqrt(
            self.standard_deviation.units as int,
            squared_error(output) / (output.len() as int),
        )
        &&& self.correct == is_correct(output, target)
    }
}

/// Scores one output vector against its target.
///
/// Both vectors have the width of the model's last layer.
pub fn evaluate_example(output: &Vec<Fixed>, target: &Vec<Fixed>) -> (record: EvaluationRecord)
    requires
        0 < output.len() <= MAX_WIDTH,
        target.len() == output.len(),
    ensures
        record.describes(output@, target@),
{
    let width: usize = output.len();
    let mut rounded: Vec<i64> = Vec::with_capacity(width);
    let mut squares: u128 = 0;
    let mut gaps: i128 = 0;
    let mut i: usize = 0;
    while i < width
        invariant
            i <= width,
            width == output.len(),
            width == target.len(),
            width <= MAX_WIDTH,
            rounded@.len() == i,
            forall|j: int|
                0 <= j < i ==> #[trigger] rounded@[j] == round_units(output@[j].units as int),
            squares == squared_error_upto(output@, i as int),
            squares <= i * HALF_SQUARED,
            gaps == discrepancy_upto(output@, target@, i as int),
            -(i * 20_000_000_000) <= gaps <= i * 20_000_000_000,
        decreases width - i,
    {
        let value: Fixed = output[i];
        let whole: i64 = value.round();
        proof {
            lemma_residual_bound(value.units as int);
        }
        let scaled: i128 = (whole as i128) * (SCALE as i128);
        let distance: i128 = (value.units as i128) - scaled;
        let magnitude: u128 = if distance >= 0 {
            distance as u128
        } else {
            (-distance) as u128
        };
        assert(magnitude * magnitude == residual(value.units as int) * residual(
            value.units as int,
        )) by (nonlinear_arith)
            requires
                magnitude == residual(value.units as int) || magnitude == -residual(
                    value.units as int,
                ),
        ;
        squares = squares + magnitude * magnitude;
        let excess: i128 = scaled - (target[i].units as i128);
        let gap: i128 = if excess >= 0 {
            ((excess as u128) / (SCALE as u128)) as i128
        } else {
            -((((-excess) as u128) / (SCALE as u128)) as i128)
        };
        gaps = gaps + gap;
        rounded.push(whole);
        i += 1;
    }
    assert(squares / (width as u128) <= HALF_SQUARED) by (nonlinear_arith)
        requires
            squares <= width * HALF_SQUARED,
            width > 0,
    ;
    let sum_units: i64 = (squares / (SCALE as u128)) as i64;
    let mean: u64 = (squares / (width as u128)) as u64;
    EvaluationRecord {
        predicted: output.clone(),
        rounded,
        actual: target.clone(),
        sum_of_squared_error: Fixed { units: sum_units },
        variance: Fixed { units: sum_units / VARIANCE_DIVISOR },
        standard_deviation: Fixed { units: floor_sqrt(mean) as i64 },
        correct: gaps == 0,
    }
}

/// Every output can be scored against the target of the example at its place.
pub open spec fn scorable(outputs: Seq<Vec<Fixed>>, data: Seq<Example>) -> bool {
    &&& outputs.len() == data.len()
    &&& forall|i: int|
        0 <= i < outputs.len() ==> 0 < (#[trigger] outputs[i]).len() <= MAX_WIDTH
            && data[i].1.len() == outputs[i].len()
}

/// Tells whether every output can be scored against the target of the
/// example at its place: there are as many outputs as examples, and each
/// output is as wide as its target, at least one component and at most
/// [`MAX_WIDTH`].
pub fn can_score(outputs: &Vec<Vec<Fixed>>, data: &Vec<Example>) -> (ready: bool)
    ensures
        ready == scorable(outputs@, data@),
{
    if outputs.len() != data.len() {
        return false;
    }
    let mut i: usize = 0;
    while i < outputs.len()
        invariant
            i <= outputs.len(),
            outputs.len() == data.len(),
            forall|j: int|
                0 <= j < i ==> 0 < (#[trigger] outputs@[j]).len() <= MAX_WIDTH && data@[j].1.len()
                    == outputs@[j].len(),
        decreases outputs.len() - i,
    {
        let width: usize = outputs[i].len();
        if width == 0 || width > MAX_WIDTH || data[i].1.len() != width {
            return false;
        }
        i += 1;
    }
    true
}

/// How many of the first `n` outputs are correct.
pub open spec fn correct_upto(outputs: Seq<Vec<Fixed>>, data: Seq<Example>, n: int) -> int
    decreases n,
{
    if n <= 0 {
        0
    } else {
        correct_upto(outputs, data, n - 1) + if is_correct(outputs[n - 1]@, data[n - 1].1@) {
            1int
        } else {
            0int
        }
    }
}

/// What an evaluation run found: one record for each example, and the counts.
#[derive(Clone, Debug, PartialEq, Eq)]
pub struct EvaluationResult {
    /// One record for each example, in the order of the examples.
    pub records: Vec<EvaluationRecord>,
    /// How many examples the model got right.
    pub correct: usize,
    /// How many examples were scored.
    pub total: usize,
    /// Whether the model got every example right.
    pub passed: bool,
}

impl EvaluationResult {
    /// The result holds exactly what scoring `outputs` against `data` gives.
    pub open spec fn summarises(&self, outputs: Seq<Vec<Fixed>>, data: Seq<Example>) -> bool {
        &&& self.records@.len() == outputs.len()
        &&& forall|i: int|
            0 <= i < outputs.len() ==> (#[trigger] self.records@[i]).describes(
                outputs[i]@,
                data[i].1@,
            )
        &&& self.total == outputs.len()
        &&& self.correct == correct_upto(outputs, data, outputs.len() as int)
        &&& self.passed == (self.correct == self.total)
    }
}

/// No more outputs are correct than were counted.
pub proof fn lemma_correct_upto_bounds(outputs: Seq<Vec<Fixed>>, data: Seq<Example>, n: int)
    requires
        0 <= n,
    ensures
        0 <= correct_upto(outputs, data, n) <= n,
    decreases n,
{
    if n > 0 {
        lemma_correct_upto_bounds(outputs, data, n - 1);
    }
}

/// All of the first `n` outputs are correct exactly when all of them were
/// counted.
pub proof fn lemma_all_correct_iff_full_count(
    outputs: Seq<Vec<Fixed>>,
    data: Seq<Example>,
    n: int,
)
    requires
        0 <= n,
    ensures
        correct_upto(outputs, data, n) == n <==> forall|i: int|
            0 <= i < n ==> is_correct((#[trigger] outputs[i])@, data[i].1@),
    decreases n,
{
    if n > 0 {
        lemma_all_correct_iff_full_count(outputs, data, n - 1);
        lemma_correct_upto_bounds(outputs, data, n - 1);
    }
}

/// On the first `n` components, an output whose rounding is the target has
/// no gap to it.
proof fn lemma_matching_rounding_upto(output: Seq<Fixed>, target: Seq<Fixed>, n: int)
    requires
        0 <= n <= output.len() == target.len(),
        forall|i: int|
            0 <= i < output.len() ==> round_units((#[trigger] output[i]).units as int) * SCALE
                == target[i].units,
    ensures
        discrepancy_upto(output, target, n) == 0,
    decreases n,
{
    if n > 0 {
        lemma_matching_rounding_upto(output, target, n - 1);
    }
}

/// An output whose rounding is the target, component by component, counts
/// as correct. The converse does not hold: gaps of opposite sign cancel.
pub proof fn lemma_matching_rounding_is_correct(output: Seq<Fixed>, target: Seq<Fixed>)
    requires
        output.len() == target.len(),
        forall|i: int|
            0 <= i < output.len() ==> round_units((#[trigger] output[i]).units as int) * SCALE
                == target[i].units,
    ensures
        is_correct(output, target),
{
    lemma_matching_rounding_upto(output, target, output.len() as int);
}

/// Every component is a whole number.
pub open spec fn is_whole(values: Seq<Fixed>) -> bool {
    forall|i: int|
        0 <= i < values.len() ==> (#[trigger] values[i]).units as int % (SCALE as int) == 0
}

/// A one-hot vector holds whole numbers only.
pub proof fn lemma_one_hot_is_whole(class: int)
    ensures
        is_whole(one_hot(class)),
{
}

/// A whole number is its own rounding.
pub proof fn lemma_whole_rounds_to_itself(units: int)
    requires
        units % (SCALE as int) == 0,
    ensures
        round_units(units) * SCALE == units,
        residual(units) == 0,
{
    if units < 0 {
        assert((-units) % (SCALE as int) == 0);
    }
}

/// On the first `n` components, an output of whole numbers that repeats its
/// target has no squared error and no gap.
proof fn lemma_exact_output_upto(target: Seq<Fixed>, n: int)
    requires
        is_whole(target),
        0 <= n <= target.len(),
    ensures
        squared_error_upto(target, n) == 0,
        discrepancy_upto(target, target, n) == 0,
    decreases n,
{
    if n > 0 {
        lemma_exact_output_upto(target, n - 1);
        lemma_whole_rounds_to_itself(target[n - 1].units as int);
    }
}

/// An output that repeats a target of whole numbers has no squared error
/// and counts as correct.
pub proof fn lemma_exact_output_is_faultless(target: Seq<Fixed>)
    requires
        is_whole(target),
    ensures
        squared_error(target) == 0,
        is_correct(target, target),
{
    lemma_exact_output_upto(target, target.len() as int);
}

/// A model that answers every example with the example's own target, the
/// targets being vectors of whole numbers as one-hot vectors are, is found
/// faultless: every record shows a sum of squared error, a variance and a
/// standard deviation of zero and is marked correct, every example is
/// counted as correct, and the run passes.
pub proof fn lemma_perfect_model_passes(
    result: EvaluationResult,
    outputs: Seq<Vec<Fixed>>,
    data: Seq<Example>,
)
    requires
        result.summarises(outputs, data),
        scorable(outputs, data),
        forall|i: int|
            0 <= i < outputs.len() ==> (#[trigger] outputs[i])@ == data[i].1@ && is_whole(
                data[i].1@,
            ),
    ensures
        result.correct == result.total,
        result.passed,
        forall|i: int| 0 <= i < outputs.len() ==> is_correct((#[trigger] outputs[i])@, data[i].1@),
        forall|i: int|
            0 <= i < result.records@.len() ==> {
                &&& (#[trigger] result.records@[i]).sum_of_squared_error.units == 0
                &&& result.records@[i].variance.units == 0
                &&& result.records@[i].standard_deviation.units == 0
                &&& result.records@[i].correct
            },
{
    assert forall|i: int| 0 <= i < outputs.len() implies is_correct(
        (#[trigger] outputs[i])@,
        data[i].1@,
    ) && squared_error(outputs[i]@) == 0 by {
        assert(outputs[i]@ == data[i].1@);
        lemma_exact_output_is_faultless(data[i].1@);
    }
    lemma_all_correct_iff_full_count(outputs, data, outputs.len() as int);
    assert forall|i: int| 0 <= i < result.records@.len() implies {
        &&& (#[trigger] result.records@[i]).sum_of_squared_error.units == 0
        &&& result.records@[i].variance.units == 0
        &&& result.records@[i].standard_deviation.units == 0
        &&& result.records@[i].correct
    } by {
        let record = result.records@[i];
        let root = record.standard_deviation.units as int;
        assert(0int / (outputs[i]@.len() as int) == 0) by (nonlinear_arith)
            requires
                outputs[i]@.len() > 0,
        ;
        assert(root == 0) by (nonlinear_arith)
            requires
                0 <= root,
                root * root <= 0,
        ;
    }
}

/// Tolerant evaluation: scores every output and counts the correct ones,
/// whatever their number.
pub fn evaluate_tolerant(outputs: &Vec<Vec<Fixed>>, data: &Vec<Example>) -> (result:
    EvaluationResult)
    requires
        scorable(outputs@, data@),
    ensures
        result.summarises(outputs@, data@),
{
    let total: usize = outputs.len();
    let mut records: Vec<EvaluationRecord> = Vec::with_capacity(total);
    let mut correct: usize = 0;
    let mut i: usize = 0;
    while i < total
        invariant
            i <= total,
            total == outputs.len(),
            scorable(outputs@, data@),
            records@.len() == i,
            forall|j: int|
                0 <= j < i ==> (#[trigger] records@[j]).describes(outputs@[j]@, data@[j].1@),
            correct == correct_upto(outputs@, data@, i as int),
            correct <= i,
        decreases total - i,
    {
        let record = evaluate_example(&outputs[i], &data[i].1);
        if record.correct {
            correct += 1;
        }
        records.push(record);
        i += 1;
    }
    EvaluationResult { records, correct, total, passed: correct == total }
}

/// Strict evaluation: gives up at the first output that is not correct.
///
/// It succeeds exactly when every output is correct, and then reports what
/// the tolerant evaluation reports.
pub fn evaluate_strict(outputs: &Vec<Vec<Fixed>>, data: &Vec<Example>) -> (result: Result<
    EvaluationResult,
    PipelineError,
>)
    requires
        scorable(outputs@, data@),
    ensures
        result is Ok <==> forall|i: int|
            0 <= i < outputs@.len() ==> is_correct((#[trigger] outputs@[i])@, data@[i].1@),
        result is Ok ==> result->Ok_0.summarises(outputs@, data@) && result->Ok_0.passed,
        result is Err ==> result->Err_0 == PipelineError::EvaluationMismatch,
{
    let total: usize = outputs.len();
    let mut records: Vec<EvaluationRecord> = Vec::with_capacity(total);
    let mut i: usize = 0;
    while i < total
        invariant
            i <= total,
            total == outputs.len(),
            scorable(outputs@, data@),
            records@.len() == i,
            forall|j: int|
                0 <= j < i ==> (#[trigger] records@[j]).describes(outputs@[j]@, data@[j].1@),
            forall|j: int| 0 <= j < i ==> is_correct((#[trigger] outputs@[j])@, data@[j].1@),
        decreases total - i,
    {
        let record = evaluate_example(&outputs[i], &data[i].1);
        if !record.correct {
            return Err(PipelineError::EvaluationMismatch);
        }
        records.push(record);
        i += 1;
    }
    proof {
        lemma_all_correct_iff_full_count(outputs@, data@, total as int);
    }
    Ok(EvaluationResult { records, correct: total, total, passed: true })
}

/// The share of correct examples, in billionths.
///
/// There is a share when something was counted and no more was correct than
/// was counted.
pub fn accuracy(correct: usize, total: usize) -> (ratio: Option<Fixed>)
    ensures
        ratio is Some <==> 0 < total && correct <= total,
        ratio is Some ==> ratio->Some_0.units == (correct * SCALE) / (total as int),
{
    if total == 0 || correct > total {
        return None;
    }
    let scaled: u128 = (correct as u128) * (SCALE as u128);
    assert(scaled / (total as u128) <= SCALE) by (nonlinear_arith)
        requires
            scaled == correct * SCALE,
            correct <= total,
            0 < total,
    ;
    Some(Fixed { units: (scaled / (total as u128)) as i64 })
}

} // verus!
