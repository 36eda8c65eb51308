//! The data of measurements and of fits, and the statistics that hold
//! predictions against them: likelihoods of measured values and of counted
//! events, the chi-square statistic and the Kullback-Leibler divergence.

use crate::arith::{
    is_count, is_real_difference, is_real_log, is_real_product, is_real_quotient, is_real_sum,
    Arithmetic,
};
use crate::error::{EngineError, ValidationFault};
use crate::ode::HALF_BITS;
use crate::scalar::Real;
use vstd::prelude::*;

verus! {

/// The values measured for one observable, each with its uncertainty.
#[derive(Debug, PartialEq, Eq)]
pub struct ObservableSeries {
    pub name: String,
    pub values: Vec<Real>,
    pub uncertainties: Vec<Real>,
}

/// Measurements by observable, in the order the observables first came.
#[derive(Debug, PartialEq, Eq)]
pub struct MeasurementData {
    pub observables: Vec<ObservableSeries>,
    pub num_shots: usize,
    /// In JSON text.
    pub metadata: String,
}

/// One counted outcome of a measurement at a time.
#[derive(Debug, PartialEq, Eq)]
pub struct MeasurementEvent {
    pub time: Real,
    pub measurement_id: String,
    pub outcome: usize,
    pub count: usize,
}

/// The chance that a theory gives to an outcome at a time.
#[derive(Clone, Copy, Debug, PartialEq, Eq)]
pub struct Prediction {
    pub time: Real,
    pub outcome: usize,
    pub probability: Real,
}

/// The result of a fit of parameters.
#[derive(Debug, PartialEq, Eq)]
pub struct FitResult {
    pub best_params: Vec<Real>,
    pub uncertainties: Vec<Real>,
    pub log_likelihood: Real,
    pub fisher_info: Vec<Vec<Real>>,
    pub converged: bool,
    pub iterations: usize,
}

/// The result of a test of a theory against data.
#[derive(Debug, PartialEq, Eq)]
pub struct TestResult {
    pub method: String,
    pub statistic: Real,
    pub p_value: Option<Real>,
    pub degrees_of_freedom: Option<usize>,
    pub conclusion: String,
}

/// How a theory is tested against data.
#[derive(Clone, Copy, Debug, PartialEq, Eq, Hash, Structural)]
pub enum StatsMethod {
    LogLikelihood,
    ChiSquare,
    KLDivergence,
}

/// The names, values and uncertainties of a list of series.
pub open spec fn series_view(series: Seq<ObservableSeries>) -> Seq<(Seq<char>, Seq<Real>, Seq<Real>)> {
    Seq::new(
        series.len(),
        |i: int| (series[i].name@, series[i].values@, series[i].uncertainties@),
    )
}

/// The place of the first series at or after `from` with the given name.
pub open spec fn named_at(
    series: Seq<(Seq<char>, Seq<Real>, Seq<Real>)>,
    name: Seq<char>,
    from: int,
) -> Option<int>
    decreases series.len() - from,
{
    if from < 0 || from >= series.len() {
        None
    } else if series[from].0 == name {
        Some(from)
    } else {
        named_at(series, name, from + 1)
    }
}

/// The series after one more measurement: its value and uncertainty are
/// added to the series of its observable, which is made where there is none
/// yet.
pub open spec fn with_measurement(
    series: Seq<(Seq<char>, Seq<Real>, Seq<Real>)>,
    observable: Seq<char>,
    value: Real,
    uncertainty: Real,
) -> Seq<(Seq<char>, Seq<Real>, Seq<Real>)> {
    match named_at(series, observable, 0) {
        Some(i) => series.update(
            i,
            (series[i].0, series[i].1.push(value), series[i].2.push(uncertainty)),
        ),
        None => series.push((observable, seq![value], seq![uncertainty])),
    }
}

impl MeasurementData {
    /// No measurements, with an empty object as metadata.
    pub fn new() -> (d: MeasurementData)
        ensures
            series_view(d.observables@) == Seq::<(Seq<char>, Seq<Real>, Seq<Real>)>::empty(),
            d.observables@.len() == 0,
            d.num_shots == 0,
            d.metadata@ == "{}"@,
    {
        let d = MeasurementData {
            observables: Vec::new(),
            num_shots: 0,
            metadata: "{}".to_string(),
        };
        assert(series_view(d.observables@) =~= Seq::<(Seq<char>, Seq<Real>, Seq<Real>)>::empty());
        d
    }

    /// Records one more measurement of an observable.
    pub fn record(&mut self, observable: &String, value: Real, uncertainty: Real)
        requires
            old(self).num_shots < usize::MAX,
        ensures
            series_view(final(self).observables@) == with_measurement(
                series_view(old(self).observables@),
                observable@,
                value,
                uncertainty,
            ),
            final(self).num_shots == old(self).num_shots + 1,
            final(self).metadata == old(self).metadata,
    {
        let ghost before = series_view(self.observables@);
        let mut found: Option<usize> = None;
        let mut i: usize = 0;
        while i < self.observables.len()
            invariant_except_break
                found is None,
                named_at(before, observable@, 0) == named_at(before, observable@, i as int),
            invariant
                i <= self.observables@.len(),
                before == series_view(self.observables@),
                *self == *old(self),
            ensures
                match found {
                    Some(p) => named_at(before, observable@, 0) == Some(p as int) && p
                        < self.observables@.len(),
                    None => named_at(before, observable@, 0) is None,
                },
            decreases self.observables@.len() - i,
        {
            if self.observables[i].name == *observable {
                found = Some(i);
                break ;
            }
            i += 1;
        }
        match found {
            Some(p) => {
                let mut series = self.observables.remove(p);
                series.values.push(value);
                series.uncertainties.push(uncertainty);
                self.observables.insert(p, series);
            },
            None => {
                let values = vec![value];
                let uncertainties = vec![uncertainty];
                assert(values@ =~= seq![value]);
                assert(uncertainties@ =~= seq![uncertainty]);
                self.observables.push(
                    ObservableSeries { name: observable.clone(), values, uncertainties },
                );
            },
        }
        assert(series_view(self.observables@) =~= with_measurement(
            before,
            observable@,
            value,
            uncertainty,
        ));
        self.num_shots = self.num_shots + 1;
    }
}

/// The bits of `2π`.
pub const TWO_PI_BITS: u64 = 0x4019_21fb_5444_2d18;

/// `r` is what is left of zero after the `xs` were taken from it, first
/// element first.
pub open spec fn is_remainder<A: Arithmetic>(ar: &A, xs: Seq<Real>, r: Real) -> bool
    decreases xs.len(),
{
    if xs.len() == 0 {
        r == (Real { bits: 0 })
    } else {
        exists|acc: Real|
            is_remainder(ar, xs.drop_last(), acc) && #[trigger] is_real_difference(
                ar,
                acc,
                xs.last(),
                r,
            )
    }
}

/// Takes the `xs` from zero, first element first.
pub fn remainder<A: Arithmetic>(ar: &A, xs: &Vec<Real>) -> (r: Real)
    ensures
        is_remainder(ar, xs@, r),
{
    let mut acc = Real::zero();
    let mut i: usize = 0;
    while i < xs.len()
        invariant
            i <= xs@.len(),
            is_remainder(ar, xs@.take(i as int), acc),
        decreases xs@.len() - i,
    {
        let next = ar.sub_real(acc, xs[i]);
        proof {
            let t = xs@.take(i as int + 1);
            assert(t.drop_last() =~= xs@.take(i as int));
            assert(is_remainder(ar, t.drop_last(), acc) && is_real_difference(
                ar,
                acc,
                t.last(),
                next,
            ));
        }
        acc = next;
        i += 1;
    }
    assert(xs@.take(xs@.len() as int) =~= xs@);
    acc
}

/// `term` is `0.5 * ((o - p) * (o - p) / v + ln(2π v))`: what a measurement
/// `o` of variance `v` takes from the likelihood of the prediction `p`.
pub open spec fn is_gaussian_term<A: Arithmetic>(
    ar: &A,
    o: Real,
    p: Real,
    v: Real,
    term: Real,
) -> bool {
    exists|res: Real, sq: Real, ratio: Real, scaled: Real, lg: Real, inner: Real|
        #![trigger
            is_real_product(ar, res, res, sq),
            is_real_quotient(ar, sq, v, ratio),
            is_real_log(ar, scaled, lg),
            is_real_sum(ar, ratio, lg, inner)]
        is_real_difference(ar, o, p, res) && is_real_product(ar, res, res, sq)
            && is_real_quotient(ar, sq, v, ratio) && is_real_product(
            ar,
            Real { bits: TWO_PI_BITS },
            v,
            scaled,
        ) && is_real_log(ar, scaled, lg) && is_real_sum(ar, ratio, lg, inner) && is_real_product(
            ar,
            Real { bits: HALF_BITS },
            inner,
            term,
        )
}

/// `vs` are the squares of the first uncertainties.
pub open spec fn are_variances<A: Arithmetic>(ar: &A, u: Seq<Real>, vs: Seq<Real>) -> bool {
    &&& vs.len() <= u.len()
    &&& forall|k: int| 0 <= k < vs.len() ==> #[trigger] is_real_product(ar, u[k], u[k], vs[k])
}

/// The first `n` of `vs` are above zero, or not numbers.
pub open spec fn all_positive(vs: Seq<Real>, n: int) -> bool {
    forall|k: int| 0 <= k < n ==> !(#[trigger] vs[k]).le(Real { bits: 0 })
}

/// `terms` holds the term of each measurement with a variance in `vs`.
pub open spec fn are_gaussian_terms<A: Arithmetic>(
    ar: &A,
    o: Seq<Real>,
    p: Seq<Real>,
    vs: Seq<Real>,
    terms: Seq<Real>,
) -> bool {
    &&& terms.len() == vs.len()
    &&& forall|k: int|
        0 <= k < terms.len() ==> #[trigger] is_gaussian_term(ar, o[k], p[k], vs[k], terms[k])
}

/// What [`gaussian_log_likelihood`] gives: an error for lists of different
/// lengths; an error with the first uncertainty whose square is not above
/// zero; else zero less the term of every measurement.
pub open spec fn is_gaussian_outcome<A: Arithmetic>(
    ar: &A,
    o: Seq<Real>,
    u: Seq<Real>,
    p: Seq<Real>,
    r: Result<Real, EngineError>,
) -> bool {
    if o.len() != u.len() || o.len() != p.len() {
        r == Err::<Real, EngineError>(EngineError::ValidationError(ValidationFault::LengthMismatch))
    } else {
        exists|vs: Seq<Real>| #[trigger]
            are_variances(ar, u, vs) && match r {
                Ok(x) => vs.len() == o.len() && all_positive(vs, vs.len() as int) && exists|
                    terms: Seq<Real>,
                | #[trigger]
                    are_gaussian_terms(ar, o, p, vs, terms) && is_remainder(ar, terms, x),
                Err(e) => vs.len() > 0 && all_positive(vs, vs.len() - 1) && vs.last().le(
                    Real { bits: 0 },
                ) && e == EngineError::ValidationError(
                    ValidationFault::UncertaintyNotPositive { value: u[vs.len() - 1] },
                ),
            }
    }
}

/// The logarithm of the likelihood of predictions, given measurements with
/// Gaussian uncertainties: `-1/2 Σ [(y - f)² / σ² + ln(2π σ²)]`.
pub fn gaussian_log_likelihood<A: Arithmetic>(
    ar: &A,
    observed_values: &Vec<Real>,
    uncertainties: &Vec<Real>,
    predicted_values: &Vec<Real>,
) -> (r: Result<Real, EngineError>)
    ensures
        is_gaussian_outcome(ar, observed_values@, uncertainties@, predicted_values@, r),
{
    let n: usize = observed_values.len();
    if n != uncertainties.len() || n != predicted_values.len() {
        return Err(EngineError::validation_error(ValidationFault::LengthMismatch));
    }
    let mut vs: Vec<Real> = Vec::new();
    let mut terms: Vec<Real> = Vec::new();
    let mut i: usize = 0;
    while i < n
        invariant
            i <= n,
            n == observed_values@.len(),
            n == uncertainties@.len(),
            n == predicted_values@.len(),
            vs@.len() == i,
            are_variances(ar, uncertainties@, vs@),
            all_positive(vs@, i as int),
            are_gaussian_terms(ar, observed_values@, predicted_values@, vs@, terms@),
        decreases n - i,
    {
        let res = ar.sub_real(observed_values[i], predicted_values[i]);
        let v = ar.mul_real(uncertainties[i], uncertainties[i]);
        if v.less_or_equal(Real::zero()) {
            let ghost shown = vs@.push(v);
            assert(are_variances(ar, uncertainties@, shown));
            assert(all_positive(shown, shown.len() - 1));
            assert(shown.last() == v);
            return Err(
                EngineError::validation_error(
                    ValidationFault::UncertaintyNotPositive { value: uncertainties[i] },
                ),
            );
        }
        let sq = ar.mul_real(res, res);
        let ratio = ar.div_real(sq, v);
        let scaled = ar.mul_real(Real::from_bits(TWO_PI_BITS), v);
        let lg = ar.ln_real(scaled);
        let inner = ar.add_real(ratio, lg);
        let term = ar.mul_real(Real::from_bits(HALF_BITS), inner);
        assert(is_real_product(ar, res, res, sq) && is_real_quotient(ar, sq, v, ratio)
            && is_real_log(ar, scaled, lg) && is_real_sum(ar, ratio, lg, inner));
        assert(is_gaussian_term(
            ar,
            observed_values@[i as int],
            predicted_values@[i as int],
            v,
            term,
        ));
        vs.push(v);
        terms.push(term);
        i += 1;
    }
    let x = remainder(ar, &terms);
    assert(are_gaussian_terms(ar, observed_values@, predicted_values@, vs@, terms@)
        && is_remainder(ar, terms@, x));
    Ok(x)
}

/// The chance predicted for an outcome at a time: that of the last of the
/// first `n` predictions made for them, the times compared bit for bit.
pub open spec fn predicted(
    predictions: Seq<Prediction>,
    time: Real,
    outcome: usize,
    n: nat,
) -> Option<Real>
    decreases n,
{
    if n == 0 {
        None
    } else if predictions[n - 1].time == time && predictions[n - 1].outcome == outcome {
        Some(predictions[n - 1].probability)
    } else {
        predicted(predictions, time, outcome, (n - 1) as nat)
    }
}

/// The chance predicted for an outcome at a time, if any is.
pub fn lookup(predictions: &Vec<Prediction>, time: Real, outcome: usize) -> (r: Option<Real>)
    ensures
        r == predicted(predictions@, time, outcome, predictions@.len()),
{
    let mut n: usize = predictions.len();
    while n > 0
        invariant
            n <= predictions@.len(),
            predicted(predictions@, time, outcome, predictions@.len()) == predicted(
                predictions@,
                time,
                outcome,
                n as nat,
            ),
        decreases n,
    {
        if predictions[n - 1].time.to_bits() == time.to_bits() && predictions[n - 1].outcome
            == outcome {
            return Some(predictions[n - 1].probability);
        }
        n -= 1;
    }
    None
}

/// The chance predicted for an event.
pub open spec fn chance(predictions: Seq<Prediction>, event: MeasurementEvent) -> Option<Real> {
    predicted(predictions, event.time, event.outcome, predictions.len())
}

/// The error that an event gives in [`log_likelihood`], if it gives one:
/// nothing is predicted for it, or a chance that is not above zero.
pub open spec fn event_fault(predictions: Seq<Prediction>, event: MeasurementEvent) -> Option<
    EngineError,
> {
    match chance(predictions, event) {
        None => Some(
            EngineError::ValidationError(
                ValidationFault::NoPrediction { time: event.time, outcome: event.outcome },
            ),
        ),
        Some(q) => if (Real { bits: 0 }).lt(q) {
            None
        } else {
            Some(EngineError::ValidationError(ValidationFault::ZeroProbability))
        },
    }
}

/// The error of the first event at or after `from` that gives one.
pub open spec fn events_fault(
    predictions: Seq<Prediction>,
    events: Seq<MeasurementEvent>,
    from: int,
) -> Option<EngineError>
    decreases events.len() - from,
{
    if from < 0 || from >= events.len() {
        None
    } else {
        match event_fault(predictions, events[from]) {
            Some(e) => Some(e),
            None => events_fault(predictions, events, from + 1),
        }
    }
}

/// `term` is `count * ln(q)`.
pub open spec fn is_weighted_log<A: Arithmetic>(ar: &A, count: usize, q: Real, term: Real) -> bool {
    exists|c: Real, lg: Real|
        is_count(ar, count, c) && is_real_log(ar, q, lg) && #[trigger] is_real_product(
            ar,
            c,
            lg,
            term,
        )
}

/// `term` is the count of an event times the logarithm of the chance
/// predicted for it.
pub open spec fn is_log_term<A: Arithmetic>(
    ar: &A,
    predictions: Seq<Prediction>,
    event: MeasurementEvent,
    term: Real,
) -> bool {
    match chance(predictions, event) {
        Some(q) => is_weighted_log(ar, event.count, q, term),
        None => false,
    }
}

/// `terms` holds the term of each of the first events.
pub open spec fn are_log_terms<A: Arithmetic>(
    ar: &A,
    events: Seq<MeasurementEvent>,
    predictions: Seq<Prediction>,
    terms: Seq<Real>,
) -> bool {
    &&& terms.len() <= events.len()
    &&& forall|k: int|
        0 <= k < terms.len() ==> #[trigger] is_log_term(ar, predictions, events[k], terms[k])
}

/// What [`log_likelihood`] gives: the error of the first event that gives
/// one, else the sum of the terms of all events.
pub open spec fn is_likelihood_outcome<A: Arithmetic>(
    ar: &A,
    events: Seq<MeasurementEvent>,
    predictions: Seq<Prediction>,
    r: Result<Real, EngineError>,
) -> bool {
    match r {
        Ok(x) => events_fault(predictions, events, 0) is None && exists|terms: Seq<Real>| #[trigger]
            are_log_terms(ar, events, predictions, terms) && terms.len() == events.len()
                && crate::arith::is_real_total(ar, terms, x),
        Err(e) => events_fault(predictions, events, 0) == Some(e),
    }
}

/// The logarithm of the likelihood of predicted chances, given counted
/// events: `Σ n ln P`.
pub fn log_likelihood<A: Arithmetic>(
    ar: &A,
    observed: &Vec<MeasurementEvent>,
    predicted_probs: &Vec<Prediction>,
) -> (r: Result<Real, EngineError>)
    ensures
        is_likelihood_outcome(ar, observed@, predicted_probs@, r),
{
    let mut terms: Vec<Real> = Vec::new();
    let mut i: usize = 0;
    while i < observed.len()
        invariant
            i <= observed@.len(),
            terms@.len() == i,
            events_fault(predicted_probs@, observed@, 0) == events_fault(
                predicted_probs@,
                observed@,
                i as int,
            ),
            are_log_terms(ar, observed@, predicted_probs@, terms@),
        decreases observed@.len() - i,
    {
        let event = &observed[i];
        match lookup(predicted_probs, event.time, event.outcome) {
            Some(q) => {
                if Real::zero().less_than(q) {
                    let c = ar.real_from_count(event.count);
                    let lg = ar.ln_real(q);
                    let term = ar.mul_real(c, lg);
                    assert(is_count(ar, event.count, c) && is_real_log(ar, q, lg)
                        && is_real_product(ar, c, lg, term));
                    assert(is_weighted_log(ar, observed@[i as int].count, q, term));
                    assert(is_log_term(ar, predicted_probs@, observed@[i as int], term));
                    terms.push(term);
                } else {
                    return Err(EngineError::validation_error(ValidationFault::ZeroProbability));
                }
            },
            None => {
                return Err(
                    EngineError::validation_error(
                        ValidationFault::NoPrediction { time: event.time, outcome: event.outcome },
                    ),
                );
            },
        }
        i += 1;
    }
    let x = crate::arith::real_total(ar, &terms);
    assert(are_log_terms(ar, observed@, predicted_probs@, terms@) && terms@.len()
        == observed@.len());
    Ok(x)
}

/// Whether two events belong to one measurement at one time, the times
/// compared bit for bit.
pub open spec fn same_group(a: MeasurementEvent, b: MeasurementEvent) -> bool {
    a.time == b.time && a.measurement_id@ == b.measurement_id@
}

fn in_group(a: &MeasurementEvent, b: &MeasurementEvent) -> (r: bool)
    ensures
        r == same_group(*a, *b),
{
    a.time.to_bits() == b.time.to_bits() && a.measurement_id == b.measurement_id
}

/// The counts of the events among the first `upto` that belong to the group
/// of event `i`, added up.
pub open spec fn group_total(events: Seq<MeasurementEvent>, i: int, upto: int) -> nat
    decreases upto,
{
    if upto <= 0 {
        0
    } else if same_group(events[upto - 1], events[i]) {
        group_total(events, i, upto - 1) + events[upto - 1].count as nat
    } else {
        group_total(events, i, upto - 1)
    }
}

/// Whether some group has more counts than the machine's word can hold.
pub open spec fn overflows(events: Seq<MeasurementEvent>) -> bool {
    exists|i: int|
        0 <= i < events.len() && #[trigger] group_total(events, i, events.len() as int)
            > usize::MAX
}

proof fn lemma_group_total_grows(events: Seq<MeasurementEvent>, i: int, a: int, b: int)
    requires
        a <= b,
    ensures
        group_total(events, i, a) <= group_total(events, i, b),
    decreases b - a,
{
    if a < b {
        lemma_group_total_grows(events, i, a, b - 1);
    }
}

/// The total of counts of each event's group, or `None` where one does not
/// fit the machine's word.
fn group_totals(events: &Vec<MeasurementEvent>) -> (r: Option<Vec<usize>>)
    ensures
        match r {
            Some(t) => !overflows(events@) && t@.len() == events@.len() && forall|i: int|
                0 <= i < t@.len() ==> (#[trigger] t@[i]) == group_total(
                    events@,
                    i,
                    events@.len() as int,
                ),
            None => overflows(events@),
        },
{
    let n: usize = events.len();
    let mut totals: Vec<usize> = Vec::new();
    let mut i: usize = 0;
    while i < n
        invariant
            i <= n,
            n == events@.len(),
            totals@.len() == i,
            forall|k: int|
                0 <= k < i ==> (#[trigger] totals@[k]) == group_total(events@, k, n as int),
            forall|k: int| 0 <= k < i ==> #[trigger] group_total(events@, k, n as int) <= usize::MAX,
        decreases n - i,
    {
        let mut sum: usize = 0;
        let mut j: usize = 0;
        while j < n
            invariant
                j <= n,
                i < n,
                n == events@.len(),
                sum == group_total(events@, i as int, j as int),
            decreases n - j,
        {
            if in_group(&events[j], &events[i]) {
                match sum.checked_add(events[j].count) {
                    Some(s) => {
                        sum = s;
                    },
                    None => {
                        proof {
                            lemma_group_total_grows(events@, i as int, j as int + 1, n as int);
                            assert(group_total(events@, i as int, n as int) > usize::MAX);
                        }
                        return None;
                    },
                }
            }
            j += 1;
        }
        totals.push(sum);
        i += 1;
    }
    Some(totals)
}

/// Whether no earlier event belongs to the group of event `i`.
pub open spec fn leads(events: Seq<MeasurementEvent>, i: int) -> bool {
    forall|j: int| 0 <= j < i ==> !same_group(#[trigger] events[j], events[i])
}

/// The places before `upto`, from `i` on, of the events in the group of
/// event `i`.
pub open spec fn members(events: Seq<MeasurementEvent>, i: int, upto: int) -> Seq<int>
    decreases upto,
{
    if upto <= i || upto <= 0 {
        Seq::empty()
    } else if same_group(events[upto - 1], events[i]) {
        members(events, i, upto - 1).push(upto - 1)
    } else {
        members(events, i, upto - 1)
    }
}

/// The order in which the events are taken: group by group, the groups in
/// the order in which their first events come, and within a group the
/// events as they come. Given are the places of the events of the groups
/// that begin before `upto`.
pub open spec fn visits(events: Seq<MeasurementEvent>, upto: int) -> Seq<int>
    decreases upto,
{
    if upto <= 0 {
        Seq::empty()
    } else if leads(events, upto - 1) {
        visits(events, upto - 1) + members(events, upto - 1, events.len() as int)
    } else {
        visits(events, upto - 1)
    }
}

/// A list of places as integers.
pub open spec fn places(order: Seq<usize>) -> Seq<int> {
    Seq::new(order.len(), |k: int| order[k] as int)
}

/// The order in which the events are taken; see [`visits`].
fn visit_order(events: &Vec<MeasurementEvent>) -> (order: Vec<usize>)
    ensures
        places(order@) == visits(events@, events@.len() as int),
        forall|k: int| 0 <= k < order@.len() ==> (#[trigger] order@[k]) < events@.len(),
{
    let n: usize = events.len();
    let mut order: Vec<usize> = Vec::new();
    let mut i: usize = 0;
    assert(places(order@) =~= visits(events@, 0));
    while i < n
        invariant
            i <= n,
            n == events@.len(),
            places(order@) == visits(events@, i as int),
            forall|k: int| 0 <= k < order@.len() ==> (#[trigger] order@[k]) < n,
        decreases n - i,
    {
        let mut first = true;
        let mut j: usize = 0;
        while j < i
            invariant
                j <= i,
                i < n,
                n == events@.len(),
                first == (forall|q: int|
                    0 <= q < j ==> !same_group(#[trigger] events@[q], events@[i as int])),
            decreases i - j,
        {
            if in_group(&events[j], &events[i]) {
                first = false;
            }
            j += 1;
        }
        assert(first == leads(events@, i as int));
        if first {
            let ghost base = order@;
            let mut m: usize = i;
            assert(places(order@) =~= places(base) + members(events@, i as int, m as int));
            while m < n
                invariant
                    i <= m <= n,
                    n == events@.len(),
                    places(order@) == places(base) + members(events@, i as int, m as int),
                    forall|k: int| 0 <= k < order@.len() ==> (#[trigger] order@[k]) < n,
                decreases n - m,
            {
                if in_group(&events[m], &events[i]) {
                    let ghost before = order@;
                    order.push(m);
                    assert(places(order@) =~= places(before).push(m as int));
                    assert(places(order@) =~= places(base) + members(
                        events@,
                        i as int,
                        m as int + 1,
                    ));
                }
                m += 1;
            }
        }
        i += 1;
    }
    order
}

/// `expected` is `total * q`: how often an outcome of chance `q` is expected
/// among `total` events.
pub open spec fn is_expected<A: Arithmetic>(ar: &A, total: usize, q: Real, expected: Real) -> bool {
    exists|t: Real| is_count(ar, total, t) && #[trigger] is_real_product(ar, t, q, expected)
}

/// `term` is `(count - expected)² / expected`.
pub open spec fn is_chi_term<A: Arithmetic>(
    ar: &A,
    count: usize,
    expected: Real,
    term: Real,
) -> bool {
    exists|c: Real, diff: Real, sq: Real|
        #![trigger is_real_difference(ar, c, expected, diff), is_real_product(ar, diff, diff, sq)]
        is_count(ar, count, c) && is_real_difference(ar, c, expected, diff) && is_real_product(
            ar,
            diff,
            diff,
            sq,
        ) && is_real_quotient(ar, sq, expected, term)
}

/// `r` is the statistic `acc` after an event with `count` was taken, in a
/// group of `total` counts: unchanged where nothing is predicted for the
/// event or the expected count is not above zero, else `acc` plus the
/// event's term.
pub open spec fn is_chi_step<A: Arithmetic>(
    ar: &A,
    count: usize,
    total: usize,
    chance: Option<Real>,
    acc: Real,
    r: Real,
) -> bool {
    match chance {
        None => r == acc,
        Some(q) => exists|expected: Real| #[trigger]
            is_expected(ar, total, q, expected) && if (Real { bits: 0 }).lt(expected) {
                exists|term: Real|
                    is_chi_term(ar, count, expected, term) && #[trigger] is_real_sum(
                        ar,
                        acc,
                        term,
                        r,
                    )
            } else {
                r == acc
            },
    }
}

/// The step of [`is_chi_step`] for the event that is taken as number `k`.
pub open spec fn is_chi_step_at<A: Arithmetic>(
    ar: &A,
    events: Seq<MeasurementEvent>,
    predictions: Seq<Prediction>,
    k: int,
    acc: Real,
    r: Real,
) -> bool {
    let at = visits(events, events.len() as int)[k];
    is_chi_step(
        ar,
        events[at].count,
        group_total(events, at, events.len() as int) as usize,
        chance(predictions, events[at]),
        acc,
        r,
    )
}

/// `r` is the statistic after the first `n` events were taken, from zero.
pub open spec fn is_chi_square_upto<A: Arithmetic>(
    ar: &A,
    events: Seq<MeasurementEvent>,
    predictions: Seq<Prediction>,
    n: nat,
    r: Real,
) -> bool
    decreases n,
{
    if n == 0 {
        r == (Real { bits: 0 })
    } else {
        exists|acc: Real|
            is_chi_square_upto(ar, events, predictions, (n - 1) as nat, acc)
                && #[trigger] is_chi_step_at(ar, events, predictions, n - 1, acc, r)
    }
}

/// What [`chi_square`] gives: an error where a group has more counts than
/// can be counted, else the statistic after all events were taken.
pub open spec fn is_chi_square_outcome<A: Arithmetic>(
    ar: &A,
    events: Seq<MeasurementEvent>,
    predictions: Seq<Prediction>,
    r: Result<Real, EngineError>,
) -> bool {
    if overflows(events) {
        r == Err::<Real, EngineError>(EngineError::ValidationError(ValidationFault::CountOverflow))
    } else {
        r is Ok && is_chi_square_upto(
            ar,
            events,
            predictions,
            visits(events, events.len() as int).len(),
            r->Ok_0,
        )
    }
}

/// The chi-square statistic `Σ (observed - expected)² / expected` of
/// counted events against predicted chances. The events of one measurement
/// at one time form a group, whose counts add up to the total from which
/// the expected counts come. Events are taken group by group, in the order
/// in which the groups begin.
pub fn chi_square<A: Arithmetic>(
    ar: &A,
    observed: &Vec<MeasurementEvent>,
    predicted_probs: &Vec<Prediction>,
) -> (r: Result<Real, EngineError>)
    ensures
        is_chi_square_outcome(ar, observed@, predicted_probs@, r),
{
    let totals = match group_totals(observed) {
        Some(t) => t,
        None => {
            return Err(EngineError::validation_error(ValidationFault::CountOverflow));
        },
    };
    let order = visit_order(observed);
    let ghost taken = visits(observed@, observed@.len() as int);
    assert(order@.len() == taken.len()) by {
        assert(places(order@).len() == order@.len());
    }
    let mut chi2 = Real::zero();
    let mut k: usize = 0;
    while k < order.len()
        invariant
            k <= order@.len(),
            taken == visits(observed@, observed@.len() as int),
            places(order@) == taken,
            order@.len() == taken.len(),
            forall|p: int| 0 <= p < order@.len() ==> (#[trigger] order@[p]) < observed@.len(),
            totals@.len() == observed@.len(),
            forall|i: int|
                0 <= i < totals@.len() ==> (#[trigger] totals@[i]) == group_total(
                    observed@,
                    i,
                    observed@.len() as int,
                ),
            is_chi_square_upto(ar, observed@, predicted_probs@, k as nat, chi2),
        decreases order@.len() - k,
    {
        let at: usize = order[k];
        assert(places(order@)[k as int] == at as int);
        let event = &observed[at];
        let total: usize = totals[at];
        let ghost before = chi2;
        match lookup(predicted_probs, event.time, event.outcome) {
            Some(q) => {
                let t = ar.real_from_count(total);
                let expected = ar.mul_real(t, q);
                assert(is_count(ar, total, t) && is_real_product(ar, t, q, expected));
                assert(is_expected(ar, total, q, expected));
                if Real::zero().less_than(expected) {
                    let c = ar.real_from_count(event.count);
                    let diff = ar.sub_real(c, expected);
                    let sq = ar.mul_real(diff, diff);
                    let term = ar.div_real(sq, expected);
                    assert(is_real_difference(ar, c, expected, diff) && is_real_product(
                        ar,
                        diff,
                        diff,
                        sq,
                    ));
                    assert(is_chi_term(ar, event.count, expected, term));
                    let next = ar.add_real(chi2, term);
                    assert(is_chi_term(ar, event.count, expected, term) && is_real_sum(
                        ar,
                        before,
                        term,
                        next,
                    ));
                    chi2 = next;
                }
                assert(is_chi_step(ar, event.count, total, Some(q), before, chi2));
            },
            None => {},
        }
        proof {
            let c: nat = (k + 1) as nat;
            assert(taken[c - 1] == at as int);
            assert(is_chi_step_at(ar, observed@, predicted_probs@, c - 1, before, chi2));
            assert(is_chi_square_upto(ar, observed@, predicted_probs@, (c - 1) as nat, before));
            assert(is_chi_square_upto(ar, observed@, predicted_probs@, c, chi2));
        }
        k += 1;
    }
    Ok(chi2)
}

/// `p` is `count / total`: the observed share of an outcome.
pub open spec fn is_share<A: Arithmetic>(ar: &A, count: usize, total: usize, p: Real) -> bool {
    exists|c: Real, t: Real|
        is_count(ar, count, c) && is_count(ar, total, t) && #[trigger] is_real_quotient(
            ar,
            c,
            t,
            p,
        )
}

/// `term` is `p * ln(p / q)`.
pub open spec fn is_divergence_term<A: Arithmetic>(ar: &A, p: Real, q: Real, term: Real) -> bool {
    exists|ratio: Real, lg: Real|
        #![trigger is_real_log(ar, ratio, lg), is_real_product(ar, p, lg, term)]
        is_real_quotient(ar, p, q, ratio) && is_real_log(ar, ratio, lg) && is_real_product(
            ar,
            p,
            lg,
            term,
        )
}

/// `r` is the divergence `acc` after an event with `count` was taken, in a
/// group of `total` counts: unchanged where the event's share is not above
/// zero or nothing is predicted for it; an error where its predicted
/// chance is not above zero; else `acc` plus the event's term.
pub open spec fn is_divergence_step<A: Arithmetic>(
    ar: &A,
    count: usize,
    total: usize,
    chance: Option<Real>,
    acc: Real,
    r: Result<Real, EngineError>,
) -> bool {
    exists|p: Real| #[trigger]
        is_share(ar, count, total, p) && if !(Real { bits: 0 }).lt(p) {
            r == Ok::<Real, EngineError>(acc)
        } else {
            match chance {
                None => r == Ok::<Real, EngineError>(acc),
                Some(q) => if (Real { bits: 0 }).lt(q) {
                    r is Ok && exists|term: Real|
                        is_divergence_term(ar, p, q, term) && #[trigger] is_real_sum(
                            ar,
                            acc,
                            term,
                            r->Ok_0,
                        )
                } else {
                    r == Err::<Real, EngineError>(
                        EngineError::ValidationError(ValidationFault::ZeroProbability),
                    )
                },
            }
        }
}

/// The step of [`is_divergence_step`] for the event that is taken as number
/// `k`.
pub open spec fn is_divergence_step_at<A: Arithmetic>(
    ar: &A,
    events: Seq<MeasurementEvent>,
    predictions: Seq<Prediction>,
    k: int,
    acc: Real,
    r: Result<Real, EngineError>,
) -> bool {
    let at = visits(events, events.len() as int)[k];
    is_divergence_step(
        ar,
        events[at].count,
        group_total(events, at, events.len() as int) as usize,
        chance(predictions, events[at]),
        acc,
        r,
    )
}

/// `r` is the divergence after the first `n` events were taken, from
/// zero, none of them giving an error.
pub open spec fn is_divergence_upto<A: Arithmetic>(
    ar: &A,
    events: Seq<MeasurementEvent>,
    predictions: Seq<Prediction>,
    n: nat,
    r: Real,
) -> bool
    decreases n,
{
    if n == 0 {
        r == (Real { bits: 0 })
    } else {
        exists|acc: Real|
            is_divergence_upto(ar, events, predictions, (n - 1) as nat, acc)
                && #[trigger] is_divergence_step_at(
                ar,
                events,
                predictions,
                n - 1,
                acc,
                Ok::<Real, EngineError>(r),
            )
    }
}

/// Event number `k` is the first to give an error, which is `e`.
pub open spec fn divergence_fails_at<A: Arithmetic>(
    ar: &A,
    events: Seq<MeasurementEvent>,
    predictions: Seq<Prediction>,
    k: int,
    e: EngineError,
) -> bool {
    &&& 0 <= k < visits(events, events.len() as int).len()
    &&& exists|acc: Real|
        is_divergence_upto(ar, events, predictions, k as nat, acc)
            && #[trigger] is_divergence_step_at(
            ar,
            events,
            predictions,
            k,
            acc,
            Err::<Real, EngineError>(e),
        )
}

/// What [`kl_divergence`] gives: an error where a group has more counts
/// than can be counted; the error of the first event to give one; else the
/// divergence after all events were taken.
pub open spec fn is_divergence_outcome<A: Arithmetic>(
    ar: &A,
    events: Seq<MeasurementEvent>,
    predictions: Seq<Prediction>,
    r: Result<Real, EngineError>,
) -> bool {
    if overflows(events) {
        r == Err::<Real, EngineError>(EngineError::ValidationError(ValidationFault::CountOverflow))
    } else {
        match r {
            Ok(x) => is_divergence_upto(
                ar,
                events,
                predictions,
                visits(events, events.len() as int).len(),
                x,
            ),
            Err(e) => exists|k: int| #[trigger]
                divergence_fails_at(ar, events, predictions, k, e),
        }
    }
}

/// The Kullback-Leibler divergence `Σ P ln(P / Q)` of the observed shares
/// `P` of outcomes from their predicted chances `Q`. Groups and order are
/// those of [`chi_square`].
pub fn kl_divergence<A: Arithmetic>(
    ar: &A,
    observed: &Vec<MeasurementEvent>,
    predicted_probs: &Vec<Prediction>,
) -> (r: Result<Real, EngineError>)
    ensures
        is_divergence_outcome(ar, observed@, predicted_probs@, r),
{
    let totals = match group_totals(observed) {
        Some(t) => t,
        None => {
            return Err(EngineError::validation_error(ValidationFault::CountOverflow));
        },
    };
    let order = visit_order(observed);
    let ghost taken = visits(observed@, observed@.len() as int);
    assert(order@.len() == taken.len()) by {
        assert(places(order@).len() == order@.len());
    }
    let mut kl = Real::zero();
    let mut k: usize = 0;
    while k < order.len()
        invariant
            k <= order@.len(),
            !overflows(observed@),
            taken == visits(observed@, observed@.len() as int),
            places(order@) == taken,
            order@.len() == taken.len(),
            forall|p: int| 0 <= p < order@.len() ==> (#[trigger] order@[p]) < observed@.len(),
            totals@.len() == observed@.len(),
            forall|i: int|
                0 <= i < totals@.len() ==> (#[trigger] totals@[i]) == group_total(
                    observed@,
                    i,
                    observed@.len() as int,
                ),
            is_divergence_upto(ar, observed@, predicted_probs@, k as nat, kl),
        decreases order@.len() - k,
    {
        let at: usize = order[k];
        assert(places(order@)[k as int] == at as int);
        let event = &observed[at];
        let total: usize = totals[at];
        let ghost before = kl;
        let c = ar.real_from_count(event.count);
        let t = ar.real_from_count(total);
        let p = ar.div_real(c, t);
        assert(is_count(ar, event.count, c) && is_count(ar, total, t) && is_real_quotient(
            ar,
            c,
            t,
            p,
        ));
        assert(is_share(ar, event.count, total, p));
        let found = lookup(predicted_probs, event.time, event.outcome);
        assert(found == chance(predicted_probs@, *event));
        let step: Result<Real, EngineError> = if Real::zero().less_than(p) {
            match found {
                Some(q) => {
                    if Real::zero().less_than(q) {
                        let ratio = ar.div_real(p, q);
                        let lg = ar.ln_real(ratio);
                        let term = ar.mul_real(p, lg);
                        assert(is_real_log(ar, ratio, lg) && is_real_product(ar, p, lg, term));
                        assert(is_divergence_term(ar, p, q, term));
                        let next = ar.add_real(kl, term);
                        assert(is_divergence_term(ar, p, q, term) && is_real_sum(
                            ar,
                            before,
                            term,
                            next,
                        ));
                        let step: Result<Real, EngineError> = Ok(next);
                        assert(step->Ok_0 == next);
                        assert(exists|term: Real|
                            is_divergence_term(ar, p, q, term) && #[trigger] is_real_sum(
                                ar,
                                before,
                                term,
                                step->Ok_0,
                            ));
                        assert(is_share(ar, event.count, total, p) && is_divergence_step(
                            ar,
                            event.count,
                            total,
                            found,
                            before,
                            step,
                        ));
                        step
                    } else {
                        let step = Err(
                            EngineError::validation_error(ValidationFault::ZeroProbability),
                        );
                        assert(is_share(ar, event.count, total, p) && is_divergence_step(
                            ar,
                            event.count,
                            total,
                            found,
                            before,
                            step,
                        ));
                        step
                    }
                },
                None => {
                    let step = Ok(kl);
                    assert(is_share(ar, event.count, total, p) && is_divergence_step(
                        ar,
                        event.count,
                        total,
                        found,
                        before,
                        step,
                    ));
                    step
                },
            }
        } else {
            let step = Ok(kl);
            assert(is_share(ar, event.count, total, p) && is_divergence_step(
                ar,
                event.count,
                total,
                found,
                before,
                step,
            ));
            step
        };
        assert(taken[k as int] == at as int);
        assert(is_divergence_step_at(ar, observed@, predicted_probs@, k as int, before, step));
        match step {
            Ok(next) => {
                proof {
                    let c: nat = (k + 1) as nat;
                    assert(is_divergence_upto(
                        ar,
                        observed@,
                        predicted_probs@,
                        (c - 1) as nat,
                        before,
                    ) && is_divergence_step_at(
                        ar,
                        observed@,
                        predicted_probs@,
                        c - 1,
                        before,
                        Ok::<Real, EngineError>(next),
                    ));
                    assert(is_divergence_upto(ar, observed@, predicted_probs@, c, next));
                }
                kl = next;
            },
            Err(e) => {
                assert(divergence_fails_at(ar, observed@, predicted_probs@, k as int, e));
                return Err(e);
            },
        }
        k += 1;
    }
    Ok(kl)
}

} // verus!
