//! Proximity scoring: how close a list of values lies to the golden ratio.

use vstd::prelude::*;
use vstd::arithmetic::div_mod::lemma_fundamental_div_mod;
use vstd::arithmetic::power::{lemma_pow_positive, pow};
use vstd::string::StringExecFns;
use crate::fixed::{
    magnitude, magnitude_of, mul_add_div, raw_units, signed, trunc_div, Fixed, Wide, ONE,
};

verus! {

/// The target constant, the golden ratio, in raw units: 1.618033988750.
pub const PHI: i64 = 1_618_033_988_750;

/// Least overall score, in raw units, of the verdict "harmonic": 0.95.
pub const HARMONIC_FROM: i64 = 950_000_000_000;

/// Least overall score, in raw units, of the verdict "resonant": 0.75.
pub const RESONANT_FROM: i64 = 750_000_000_000;

/// Least overall score, in raw units, of the verdict "dissonant": 0.50.
pub const DISSONANT_FROM: i64 = 500_000_000_000;

/// The distance of `value` from `target`.
pub open spec fn deviation(value: int, target: int) -> int {
    magnitude(value - target)
}

/// The score of one value: `1 - deviation / target`, clamped into `0 ..= 1`,
/// in raw units and rounded down. It is zero for every value where the target
/// is not above zero.
pub open spec fn proximity(value: int, target: int) -> int {
    if deviation(value, target) >= target {
        0
    } else {
        (target - deviation(value, target)) * ONE / target
    }
}

/// The categorical label of an overall score.
#[derive(Clone, Copy, Debug, PartialEq, Eq, Structural)]
pub enum Verdict {
    NoValues,
    Harmonic,
    Resonant,
    Dissonant,
    Chaotic,
}

/// The band in which an overall score lies; each band includes its lower bound.
pub open spec fn band(overall: int) -> Verdict {
    if overall >= HARMONIC_FROM {
        Verdict::Harmonic
    } else if overall >= RESONANT_FROM {
        Verdict::Resonant
    } else if overall >= DISSONANT_FROM {
        Verdict::Dissonant
    } else {
        Verdict::Chaotic
    }
}

/// The text of a verdict.
pub open spec fn verdict_text(verdict: Verdict) -> Seq<char> {
    match verdict {
        Verdict::NoValues => "no values provided"@,
        Verdict::Harmonic => "harmonic"@,
        Verdict::Resonant => "resonant"@,
        Verdict::Dissonant => "dissonant"@,
        Verdict::Chaotic => "chaotic"@,
    }
}

/// No two verdicts have the same text.
pub proof fn lemma_verdict_texts_differ(first: Verdict, second: Verdict)
    requires
        verdict_text(first) == verdict_text(second),
    ensures
        first == second,
{
    reveal_strlit("no values provided");
    reveal_strlit("harmonic");
    reveal_strlit("resonant");
    reveal_strlit("dissonant");
    reveal_strlit("chaotic");
    assert("no values provided"@.len() == 18);
    assert("harmonic"@.len() == 8 && "harmonic"@[0] == 'h');
    assert("resonant"@.len() == 8 && "resonant"@[0] == 'r');
    assert("dissonant"@.len() == 9);
    assert("chaotic"@.len() == 7);
}

impl Verdict {
    /// The text of this verdict.
    pub fn text(&self) -> (s: String)
        ensures
            s@ == verdict_text(*self),
    {
        match self {
            Verdict::NoValues => String::from_str("no values provided"),
            Verdict::Harmonic => String::from_str("harmonic"),
            Verdict::Resonant => String::from_str("resonant"),
            Verdict::Dissonant => String::from_str("dissonant"),
            Verdict::Chaotic => String::from_str("chaotic"),
        }
    }
}

/// The verdict on an overall score.
pub fn classify(overall: Wide) -> (verdict: Verdict)
    ensures
        verdict == band(overall@),
{
    if overall.negative {
        Verdict::Chaotic
    } else if overall.high > 0 || overall.low >= HARMONIC_FROM as u128 {
        Verdict::Harmonic
    } else if overall.low >= RESONANT_FROM as u128 {
        Verdict::Resonant
    } else if overall.low >= DISSONANT_FROM as u128 {
        Verdict::Dissonant
    } else {
        Verdict::Chaotic
    }
}

/// The distance of `value` from `target`.
pub fn deviation_from(value: Fixed, target: Fixed) -> (dev: Wide)
    ensures
        dev@ == deviation(value@, target@),
        dev.is_canonical(),
{
    let size: u128 = magnitude_of(value.raw as i128 - target.raw as i128);
    Wide::from_sign_size(false, 0, size)
}

/// The score of `value` for its nearness to `target`: one at the target,
/// falling off linearly to zero at a distance of `target` and beyond.
pub fn proximity_score(value: Fixed, target: Fixed) -> (score: Fixed)
    ensures
        score@ == proximity(value@, target@),
        0 <= score@ <= ONE,
{
    let dev: u128 = magnitude_of(value.raw as i128 - target.raw as i128);
    if target.raw <= 0 || dev >= target.raw as u128 {
        Fixed { raw: 0 }
    } else {
        let t: u128 = target.raw as u128;
        let scaled: u128 = (t - dev) * (ONE as u128);
        let q: u128 = scaled / t;
        assert(q <= ONE) by (nonlinear_arith)
            requires
                q == ((t - dev) * ONE) / (t as int),
                0 <= dev < t,
        ;
        Fixed { raw: q as i64 }
    }
}

/// The product of a weight and a score in two parts: `parts.0` times one, and
/// a rest below one that is never negative.
fn product_parts(weight: Fixed, score: Fixed) -> (parts: (i128, u128))
    requires
        0 <= score@ <= ONE,
    ensures
        parts.0 * ONE + parts.1 == weight@ * score@,
        parts.1 < ONE,
        -0x8000_0000_0000_0000 <= parts.0 <= 0x8000_0000_0000_0000,
        -0x8000_0000_0000_0000 * ONE <= weight@ * score@ <= 0x8000_0000_0000_0000 * ONE,
{
    let w: u128 = magnitude_of(weight.raw as i128);
    let s: u128 = score.raw as u128;
    assert(w * s <= 0x8000_0000_0000_0000 * 1_000_000_000_000) by (nonlinear_arith)
        requires
            0 <= s <= 1_000_000_000_000,
            0 <= w <= 0x8000_0000_0000_0000,
    ;
    assert(weight@ * score@ == if weight@ < 0 {
        -(w * s)
    } else {
        w * s
    }) by (nonlinear_arith)
        requires
            w == magnitude(weight@),
            s == score@,
    ;
    let product: u128 = w * s;
    let whole: u128 = product / (ONE as u128);
    let rest: u128 = product % (ONE as u128);
    proof {
        lemma_fundamental_div_mod(product as int, ONE as int);
    }
    if weight.raw >= 0 {
        (whole as i128, rest)
    } else if rest == 0 {
        (-(whole as i128), 0)
    } else {
        (-(whole as i128) - 1, (ONE as u128) - rest)
    }
}

/// The quotient of the sum `whole * ONE + rest` by `total`, rounded towards
/// zero.
fn quotient_of_parts(whole: i128, rest: u128, total: i128) -> (quotient: Wide)
    requires
        total != 0,
        i128::MIN <= whole + rest / (ONE as u128) <= i128::MAX,
    ensures
        quotient@ == trunc_div(whole * ONE + rest, total as int),
        quotient.is_canonical(),
{
    let carry: u128 = rest / (ONE as u128);
    let low: u128 = rest % (ONE as u128);
    proof {
        lemma_fundamental_div_mod(rest as int, ONE as int);
    }
    assert(carry <= 340_282_366_920_938_463_463_374_607);
    let high: i128 = whole + carry as i128;
    assert(whole * ONE + rest == high * ONE + low);
    let d: u128 = magnitude_of(total);
    let ghost sum: int = whole * ONE + rest;
    if high >= 0 {
        let q = mul_add_div(high as u128, ONE as u64, low, d);
        assert((high as u128) * (ONE as u64) + low == sum);
        assert(trunc_div(sum, total as int) == signed(total < 0, sum / (d as int)));
        Wide::from_sign_size(total < 0, q.0, q.1)
    } else {
        let h: u128 = magnitude_of(high);
        let q = if low == 0 {
            assert(h * (ONE as u64) + 0 == -sum);
            mul_add_div(h, ONE as u64, 0, d)
        } else {
            assert((h - 1) * (ONE as u64) + (ONE - low) == -sum);
            mul_add_div((h - 1) as u128, ONE as u64, (ONE as u128) - low, d)
        };
        assert(trunc_div(sum, total as int) == signed(total > 0, (-sum) / (d as int)));
        Wide::from_sign_size(total > 0, q.0, q.1)
    }
}

/// The default weight of the dimension at `index`: one at index zero, and
/// from there on the weight before it divided by the target, rounded down.
pub open spec fn geometric_weight(index: nat) -> int
    decreases index,
{
    if index == 0 {
        ONE as int
    } else {
        geometric_weight((index - 1) as nat) * ONE / (PHI as int)
    }
}

/// Default weights lie between zero and one, never grow with the index, and
/// fall strictly until they reach zero.
pub proof fn lemma_geometric_weight_decays(index: nat)
    ensures
        0 <= geometric_weight(index + 1) <= geometric_weight(index) <= ONE,
        geometric_weight(index) > 0 ==> geometric_weight(index + 1) < geometric_weight(index),
    decreases index,
{
    if index > 0 {
        lemma_geometric_weight_decays((index - 1) as nat);
    }
    let here = geometric_weight(index);
    let next = geometric_weight(index + 1);
    assert(next == here * 1_000_000_000_000 / 1_618_033_988_750);
}

/// Once a default weight is zero, all later ones are zero.
pub proof fn lemma_geometric_weight_stays_zero(from: nat, index: nat)
    requires
        geometric_weight(from) == 0,
        from <= index,
    ensures
        geometric_weight(index) == 0,
    decreases index,
{
    if from < index {
        lemma_geometric_weight_stays_zero(from, (index - 1) as nat);
    }
}

/// The default weight at `index` is `1 / PHI^index`, as nearly as the repeated
/// rounding lets it be: never above the exact quotient of `ONE^(index + 1)` by
/// `PHI^index`, and less than three raw units below it.
pub proof fn lemma_geometric_weight_is_inverse_power(index: nat)
    ensures
        geometric_weight(index) * pow(PHI as int, index) <= pow(ONE as int, index + 1),
        pow(ONE as int, index + 1) < (geometric_weight(index) + 3) * pow(PHI as int, index),
    decreases index,
{
    reveal(pow);
    if index == 0 {
        assert(pow(PHI as int, 0) == 1);
        assert(pow(ONE as int, 0) == 1);
        assert(pow(ONE as int, 1) == ONE * pow(ONE as int, 0));
    } else {
        let before = (index - 1) as nat;
        lemma_geometric_weight_is_inverse_power(before);
        lemma_geometric_weight_decays(before);
        lemma_pow_positive(PHI as int, before);
        let w = geometric_weight(before);
        let next = geometric_weight(index);
        let p = pow(PHI as int, before);
        let o = pow(ONE as int, index);
        assert(pow(PHI as int, index) == PHI * p);
        assert(pow(ONE as int, index + 1) == ONE * o);
        assert(next == w * 1_000_000_000_000 / 1_618_033_988_750);
        assert(next * (1_618_033_988_750 * p) <= 1_000_000_000_000 * o && 1_000_000_000_000 * o
            < (next + 3) * (1_618_033_988_750 * p)) by (nonlinear_arith)
            requires
                w * p <= o,
                o < (w + 3) * p,
                next * 1_618_033_988_750 <= w * 1_000_000_000_000,
                w * 1_000_000_000_000 < (next + 1) * 1_618_033_988_750,
                p > 0,
        ;
    }
}

/// The default weight that follows `weight`.
fn decay(weight: Fixed) -> (next: Fixed)
    requires
        0 <= weight@ <= ONE,
    ensures
        next@ == weight@ * ONE / (PHI as int),
        0 <= next@ <= weight@,
{
    let scaled: u128 = (weight.raw as u128) * (ONE as u128);
    let next: u128 = scaled / (PHI as u128);
    assert(next == weight@ * 1_000_000_000_000 / 1_618_033_988_750);
    assert(next <= weight@);
    Fixed { raw: next as i64 }
}

/// The default weight of the dimension at `index`.
pub fn default_weight(index: usize) -> (weight: Fixed)
    ensures
        weight@ == geometric_weight(index as nat),
{
    let mut weight = Fixed::one();
    let mut i: usize = 0;
    while i < index && weight.raw > 0
        invariant
            i <= index,
            weight@ == geometric_weight(i as nat),
            0 <= weight@ <= ONE,
        decreases index - i,
    {
        weight = decay(weight);
        i = i + 1;
    }
    proof {
        if i < index {
            lemma_geometric_weight_stays_zero(i as nat, index as nat);
        }
    }
    weight
}

/// A request: the values to score and, optionally, a weight for each.
#[derive(Clone, Debug, PartialEq, Eq)]
pub struct ValidationRequest {
    /// The values to score against the target.
    pub values: Vec<Fixed>,
    /// Weights by index. They need not be as many as the values.
    pub weights: Option<Vec<Fixed>>,
}

/// What a [`ValidationRequest`] holds, in raw units.
pub struct RequestModel {
    pub values: Seq<int>,
    pub weights: Option<Seq<int>>,
}

impl View for ValidationRequest {
    type V = RequestModel;

    open spec fn view(&self) -> RequestModel {
        RequestModel {
            values: raw_units(self.values@),
            weights: match self.weights {
                Some(weights) => Some(raw_units(weights@)),
                None => None,
            },
        }
    }
}

/// The score of one value of a request.
#[derive(Clone, Copy, Debug, PartialEq, Eq)]
pub struct DimensionScore {
    pub index: usize,
    pub raw_value: Fixed,
    pub weight: Fixed,
    pub deviation: Wide,
    pub score: Fixed,
}

/// What a [`DimensionScore`] holds, in raw units.
pub struct DimensionModel {
    pub index: int,
    pub raw_value: int,
    pub weight: int,
    pub deviation: int,
    pub score: int,
}

impl View for DimensionScore {
    type V = DimensionModel;

    open spec fn view(&self) -> DimensionModel {
        DimensionModel {
            index: self.index as int,
            raw_value: self.raw_value@,
            weight: self.weight@,
            deviation: self.deviation@,
            score: self.score@,
        }
    }
}

/// The model of each dimension of a sequence.
pub open spec fn dimension_models(dimensions: Seq<DimensionScore>) -> Seq<DimensionModel> {
    Seq::new(dimensions.len(), |i: int| dimensions[i]@)
}

/// The outcome of scoring a request.
#[derive(Clone, Debug, PartialEq, Eq)]
pub struct ValidationResult {
    pub phi_target: Fixed,
    pub overall_score: Wide,
    pub dimensions: Vec<DimensionScore>,
    pub verdict: String,
}

/// What a [`ValidationResult`] holds, in raw units.
pub struct ResultModel {
    pub phi_target: int,
    pub overall_score: int,
    pub dimensions: Seq<DimensionModel>,
    pub verdict: Seq<char>,
}

impl DimensionScore {
    /// No number of the dimension is held as a signed zero.
    pub open spec fn is_canonical(&self) -> bool {
        self.deviation.is_canonical()
    }
}

impl ValidationResult {
    /// No number of the result is held as a signed zero.
    pub open spec fn is_canonical(&self) -> bool {
        &&& self.overall_score.is_canonical()
        &&& forall|i: int|
            0 <= i < self.dimensions@.len() ==> (#[trigger] self.dimensions@[i]).is_canonical()
    }
}

impl View for ValidationResult {
    type V = ResultModel;

    open spec fn view(&self) -> ResultModel {
        ResultModel {
            phi_target: self.phi_target@,
            overall_score: self.overall_score@,
            dimensions: dimension_models(self.dimensions@),
            verdict: self.verdict@,
        }
    }
}

/// The weight that the value at `index` is scored with: its default weight
/// where the request gives no weights at all; else the weight given at that
/// index; and one where the given weights end before it.
pub open spec fn weight_used(weights: Option<Seq<int>>, index: int) -> int {
    match weights {
        None => geometric_weight(index as nat),
        Some(given) => if index < given.len() {
            given[index]
        } else {
            ONE as int
        },
    }
}

/// The dimension of a value, scored against the golden ratio.
pub open spec fn dimension_model(index: int, value: int, weight: int) -> DimensionModel {
    DimensionModel {
        index,
        raw_value: value,
        weight,
        deviation: deviation(value, PHI as int),
        score: proximity(value, PHI as int),
    }
}

/// The dimensions of a request, one for each value, in order.
pub open spec fn dimensions_of(request: RequestModel) -> Seq<DimensionModel> {
    Seq::new(
        request.values.len(),
        |i: int| dimension_model(i, request.values[i], weight_used(request.weights, i)),
    )
}

/// The sum over all dimensions of weight times score. Both are in raw units,
/// so the sum is in raw units of raw units.
pub open spec fn weighted_sum(dimensions: Seq<DimensionModel>) -> int
    decreases dimensions.len(),
{
    if dimensions.len() == 0 {
        0
    } else {
        weighted_sum(dimensions.drop_last()) + dimensions.last().weight
            * dimensions.last().score
    }
}

/// The sum of the weights of all dimensions.
pub open spec fn weight_total(dimensions: Seq<DimensionModel>) -> int
    decreases dimensions.len(),
{
    if dimensions.len() == 0 {
        0
    } else {
        weight_total(dimensions.drop_last()) + dimensions.last().weight
    }
}

/// The overall score of a list of dimensions: zero where there is none or
/// where their weights sum to zero, else the weighted sum divided by the sum of
/// the weights, rounded towards zero.
pub open spec fn overall_score(dimensions: Seq<DimensionModel>) -> int {
    if dimensions.len() == 0 || weight_total(dimensions) == 0 {
        0
    } else {
        trunc_div(weighted_sum(dimensions), weight_total(dimensions))
    }
}

/// The verdict on a list of dimensions.
pub open spec fn verdict_of(dimensions: Seq<DimensionModel>) -> Verdict {
    if dimensions.len() == 0 {
        Verdict::NoValues
    } else {
        band(overall_score(dimensions))
    }
}

/// The outcome of scoring a request.
pub open spec fn validation_of(request: RequestModel) -> ResultModel {
    ResultModel {
        phi_target: PHI as int,
        overall_score: overall_score(dimensions_of(request)),
        dimensions: dimensions_of(request),
        verdict: verdict_text(verdict_of(dimensions_of(request))),
    }
}

/// Scores one value against the golden ratio.
pub fn score_dimension(index: usize, value: Fixed, weight: Fixed) -> (dimension: DimensionScore)
    ensures
        dimension@ == dimension_model(index as int, value@, weight@),
        dimension.is_canonical(),
{
    let target = Fixed { raw: PHI };
    DimensionScore {
        index,
        raw_value: value,
        weight,
        deviation: deviation_from(value, target),
        score: proximity_score(value, target),
    }
}

/// Scores the values of a request against the golden ratio.
///
/// Each value gets a dimension with its weight, its distance from the target
/// and its score. The overall score is the mean of the scores by weight, and
/// the verdict names the band in which it lies. Without weights of both signs
/// the overall score lies between zero and one.
pub fn validate_against_phi(request: &ValidationRequest) -> (result: ValidationResult)
    ensures
        result@ == validation_of(request@),
        result.is_canonical(),
        result.dimensions@.len() == request.values@.len(),
        request.weights is None ==> forall|i: int|
            0 <= i < result.dimensions@.len() ==> (#[trigger] result.dimensions@[i]).weight@
                == geometric_weight(i as nat),
        request.weights is None || weights_nonnegative(request@) || weights_nonpositive(request@)
            ==> 0 <= result.overall_score@ <= ONE,
{
    proof {
        if request.weights is None || weights_nonnegative(request@) || weights_nonpositive(
            request@,
        ) {
            lemma_weights_of_one_sign(request@);
        }
    }
    let n = request.values.len();
    let mut dimensions: Vec<DimensionScore> = Vec::new();
    if n == 0 {
        assert(dimension_models(dimensions@) =~= dimensions_of(request@));
        return ValidationResult {
            phi_target: Fixed { raw: PHI },
            overall_score: Wide::from_sign_size(false, 0, 0),
            dimensions,
            verdict: Verdict::NoValues.text(),
        };
    }
    let mut whole: i128 = 0;
    let mut rest: u128 = 0;
    let mut total: i128 = 0;
    let mut fallback = Fixed::one();
    let mut i: usize = 0;
    while i < n
        invariant
            n == request.values.len(),
            i <= n,
            dimensions.len() == i,
            dimension_models(dimensions@) =~= dimensions_of(request@).take(i as int),
            forall|j: int| 0 <= j < i ==> (#[trigger] dimensions@[j]).is_canonical(),
            whole * ONE + rest == weighted_sum(dimension_models(dimensions@)),
            total == weight_total(dimension_models(dimensions@)),
            fallback@ == geometric_weight(i as nat),
            0 <= fallback@ <= ONE,
            -(i * 0x8000_0000_0000_0000) <= whole <= i * 0x8000_0000_0000_0000,
            rest <= i * 999_999_999_999,
            -(i * 0x8000_0000_0000_0000 * ONE) <= whole * ONE + rest <= i * 0x8000_0000_0000_0000
                * ONE,
            -(i * 0x8000_0000_0000_0000) <= total <= i * 0x8000_0000_0000_0000,
        decreases n - i,
    {
        let value = request.values[i];
        let weight = match &request.weights {
            Some(given) => if i < given.len() {
                given[i]
            } else {
                Fixed::one()
            },
            None => fallback,
        };
        let dimension = score_dimension(i, value, weight);
        let parts = product_parts(weight, dimension.score);
        let ghost before = dimension_models(dimensions@);
        whole = whole + parts.0;
        rest = rest + parts.1;
        total = total + weight.raw as i128;
        dimensions.push(dimension);
        fallback = decay(fallback);
        i = i + 1;
        proof {
            let after = dimension_models(dimensions@);
            assert(after =~= before.push(dimension@));
            assert(after.drop_last() =~= before);
            assert(dimensions_of(request@).take(i as int) =~= dimensions_of(request@).take(
                i - 1,
            ).push(dimensions_of(request@)[i - 1]));
        }
    }
    assert(dimensions_of(request@).take(n as int) =~= dimensions_of(request@));
    let overall = if total == 0 {
        Wide::from_sign_size(false, 0, 0)
    } else {
        assert((whole * 1_000_000_000_000 + rest) / 1_000_000_000_000 == whole + rest
            / 1_000_000_000_000);
        quotient_of_parts(whole, rest, total)
    };
    proof {
        if request.weights is None {
            assert forall|i: int| 0 <= i < dimensions@.len() implies (
            #[trigger] dimensions@[i]).weight@ == geometric_weight(i as nat) by {
                assert(dimension_models(dimensions@)[i] == dimensions_of(request@)[i]);
            }
        }
    }
    let verdict = classify(overall);
    ValidationResult {
        phi_target: Fixed { raw: PHI },
        overall_score: overall,
        dimensions,
        verdict: verdict.text(),
    }
}

/// Every weight that a request is scored with is zero or more.
pub open spec fn weights_nonnegative(request: RequestModel) -> bool {
    forall|i: int| 0 <= i < request.values.len() ==> weight_used(request.weights, i) >= 0
}

/// Every weight that a request is scored with is zero or less.
pub open spec fn weights_nonpositive(request: RequestModel) -> bool {
    forall|i: int| 0 <= i < request.values.len() ==> weight_used(request.weights, i) <= 0
}

/// A score lies between zero and one.
pub proof fn lemma_proximity_in_unit_range(value: int, target: int)
    ensures
        0 <= proximity(value, target) <= ONE,
{
    let dev = deviation(value, target);
    if dev < target {
        assert(0 <= ((target - dev) * ONE) / target <= ONE) by (nonlinear_arith)
            requires
                0 <= dev < target,
                ONE == 1_000_000_000_000,
        ;
    }
}

/// The product of a weight and a score has the sign of the weight and is no
/// larger than the weight times one.
pub proof fn lemma_product_within_weight(weight: int, score: int)
    requires
        0 <= score <= ONE,
    ensures
        weight >= 0 ==> 0 <= weight * score <= weight * ONE,
        weight <= 0 ==> weight * ONE <= weight * score <= 0,
{
    assert(weight >= 0 ==> 0 <= weight * score <= weight * 1_000_000_000_000)
        by (nonlinear_arith)
        requires
            0 <= score <= 1_000_000_000_000,
    ;
    assert(weight <= 0 ==> weight * 1_000_000_000_000 <= weight * score <= 0)
        by (nonlinear_arith)
        requires
            0 <= score <= 1_000_000_000_000,
    ;
}

proof fn lemma_sums_within_weights(dimensions: Seq<DimensionModel>)
    requires
        forall|i: int| 0 <= i < dimensions.len() ==> 0 <= (#[trigger] dimensions[i]).score <= ONE,
    ensures
        (forall|i: int| 0 <= i < dimensions.len() ==> (#[trigger] dimensions[i]).weight >= 0)
            ==> 0 <= weighted_sum(dimensions) <= weight_total(dimensions) * ONE,
        (forall|i: int| 0 <= i < dimensions.len() ==> (#[trigger] dimensions[i]).weight <= 0)
            ==> weight_total(dimensions) * ONE <= weighted_sum(dimensions) <= 0,
    decreases dimensions.len(),
{
    if dimensions.len() > 0 {
        let front = dimensions.drop_last();
        let last = dimensions.last();
        assert(forall|i: int| 0 <= i < front.len() ==> front[i] == dimensions[i]);
        lemma_sums_within_weights(front);
        assert(last == dimensions[dimensions.len() - 1]);
        lemma_product_within_weight(last.weight, last.score);
    }
}

proof fn lemma_quotient_of_part_in_unit_range(part: int, whole: int)
    requires
        whole != 0,
        (0 <= part <= whole * ONE) || (whole * ONE <= part <= 0),
    ensures
        0 <= trunc_div(part, whole) <= ONE,
{
    if whole > 0 {
        assert(0 <= part / whole <= 1_000_000_000_000) by (nonlinear_arith)
            requires
                0 <= part <= whole * 1_000_000_000_000,
                whole > 0,
        ;
    } else {
        assert(0 <= (-part) / (-whole) <= 1_000_000_000_000) by (nonlinear_arith)
            requires
                0 <= -part <= (-whole) * 1_000_000_000_000,
                -whole > 0,
        ;
    }
}

/// The weighted sum lies between zero and the sum of the weights times one.
pub open spec fn sum_within_weights(dimensions: Seq<DimensionModel>) -> bool {
    ||| 0 <= weighted_sum(dimensions) <= weight_total(dimensions) * ONE
    ||| weight_total(dimensions) * ONE <= weighted_sum(dimensions) <= 0
}

/// The overall score lies between zero and one where the weighted sum lies
/// between zero and the sum of the weights times one.
///
/// Weights of both signs can break that: the values `PHI` and `0` with the
/// weights `2` and `-1` have the overall score `2`.
pub proof fn lemma_overall_score_in_unit_range(request: RequestModel)
    requires
        sum_within_weights(dimensions_of(request)),
    ensures
        0 <= validation_of(request).overall_score <= ONE,
{
    let dimensions = dimensions_of(request);
    if dimensions.len() > 0 && weight_total(dimensions) != 0 {
        lemma_quotient_of_part_in_unit_range(weighted_sum(dimensions), weight_total(dimensions));
    }
}

/// Where no two of the weights used differ in sign, so in particular where
/// the request gives no weights, the weighted sum lies between zero and the sum
/// of the weights times one, and the overall score between zero and one.
pub proof fn lemma_weights_of_one_sign(request: RequestModel)
    requires
        request.weights is None || weights_nonnegative(request) || weights_nonpositive(request),
    ensures
        sum_within_weights(dimensions_of(request)),
        0 <= validation_of(request).overall_score <= ONE,
{
    let dimensions = dimensions_of(request);
    assert forall|i: int| 0 <= i < dimensions.len() implies 0 <= (
    #[trigger] dimensions[i]).score <= ONE by {
        lemma_proximity_in_unit_range(request.values[i], PHI as int);
    }
    if request.weights is None {
        assert forall|i: int| 0 <= i < request.values.len() implies weight_used(
            request.weights,
            i,
        ) >= 0 by {
            lemma_geometric_weight_decays(i as nat);
        }
    }
    if weights_nonnegative(request) {
        assert forall|i: int| 0 <= i < dimensions.len() implies (
        #[trigger] dimensions[i]).weight >= 0 by {
            assert(weight_used(request.weights, i) >= 0);
        }
    } else {
        assert forall|i: int| 0 <= i < dimensions.len() implies (
        #[trigger] dimensions[i]).weight <= 0 by {
            assert(weight_used(request.weights, i) <= 0);
        }
    }
    lemma_sums_within_weights(dimensions);
    lemma_overall_score_in_unit_range(request);
}

/// Of a request with at least one value exactly one of the four labels is
/// returned, the one of the band in which the overall score lies, each band
/// with its lower bound; the text for no values is not.
pub proof fn lemma_verdict_names_the_band(request: RequestModel)
    requires
        request.values.len() > 0,
    ensures
        validation_of(request).verdict == "harmonic"@ <==> validation_of(request).overall_score
            >= HARMONIC_FROM,
        validation_of(request).verdict == "resonant"@ <==> RESONANT_FROM <= validation_of(
            request,
        ).overall_score < HARMONIC_FROM,
        validation_of(request).verdict == "dissonant"@ <==> DISSONANT_FROM <= validation_of(
            request,
        ).overall_score < RESONANT_FROM,
        validation_of(request).verdict == "chaotic"@ <==> validation_of(request).overall_score
            < DISSONANT_FROM,
        validation_of(request).verdict != "no values provided"@,
{
    let verdict = verdict_of(dimensions_of(request));
    if verdict_text(verdict) == verdict_text(Verdict::Harmonic) {
        lemma_verdict_texts_differ(verdict, Verdict::Harmonic);
    }
    if verdict_text(verdict) == verdict_text(Verdict::Resonant) {
        lemma_verdict_texts_differ(verdict, Verdict::Resonant);
    }
    if verdict_text(verdict) == verdict_text(Verdict::Dissonant) {
        lemma_verdict_texts_differ(verdict, Verdict::Dissonant);
    }
    if verdict_text(verdict) == verdict_text(Verdict::Chaotic) {
        lemma_verdict_texts_differ(verdict, Verdict::Chaotic);
    }
    if verdict_text(verdict) == verdict_text(Verdict::NoValues) {
        lemma_verdict_texts_differ(verdict, Verdict::NoValues);
    }
}

/// Scoring is a function of the request: two results that both meet the
/// contract of [`validate_against_phi`] for one request agree in every field.
pub proof fn lemma_validation_is_deterministic(
    request: RequestModel,
    first: ResultModel,
    second: ResultModel,
)
    requires
        first == validation_of(request),
        second == validation_of(request),
    ensures
        first == second,
{
}

/// Where a request gives no weights, the dimension at `index` has the default
/// weight of that index, and the overall score is the one that the returned
/// dimensions give when their weights and scores are put together again.
pub proof fn lemma_default_weights_are_geometric(request: RequestModel, index: int)
    requires
        request.weights is None,
        0 <= index < request.values.len(),
    ensures
        validation_of(request).dimensions[index].weight == geometric_weight(index as nat),
        validation_of(request).overall_score == overall_score(
            validation_of(request).dimensions,
        ),
{
}

} // verus!
