//! Live data: the sources that deliver it, and the engine that keeps the
//! newest data points and says when a fit is due.

use crate::error::EngineError;
use crate::job_queue::MINUS_HUNDRED_BITS;
use crate::logging::{elapsed_nanos, instant_now};
use crate::scalar::{Real, ONE_BITS};
use crate::stats::{series_view, with_measurement, FitResult, MeasurementData};
use vstd::prelude::*;

verus! {

/// Bit pattern of `0.01`.
pub const HUNDREDTH_BITS: u64 = 0x3f847ae147ae147b;

/// Nanoseconds between two fits.
pub const FIT_INTERVAL_NANOS: u128 = 1_000_000_000;

/// One measured value of an observable.
#[derive(Debug, PartialEq, Eq)]
pub struct DataPoint {
    pub observable: String,
    pub value: Real,
    pub uncertainty: Real,
    /// In JSON text.
    pub metadata: String,
}

/// A source of live data.
pub trait DataSource {
    fn id(&self) -> &str;

    fn start(&mut self) -> Result<(), EngineError>;

    fn stop(&mut self) -> Result<(), EngineError>;

    fn is_active(&self) -> bool;
}

/// Keeps the newest data points and the present estimate of the parameters.
pub struct RollingFitEngine {
    window_size: usize,
    data_buffer: Vec<DataPoint>,
    current_params: Vec<Real>,
    last_fit_time: Option<std::time::Instant>,
    fit_interval: u128,
}

/// The last `window` of the points, or all where there are fewer.
pub open spec fn windowed(points: Seq<DataPoint>, window: nat) -> Seq<DataPoint> {
    if points.len() > window {
        points.subrange(points.len() - window, points.len() as int)
    } else {
        points
    }
}

/// Whether a fit is due: none was made yet, or the last one is at least as
/// old as the interval.
pub open spec fn due(age: Option<u128>, interval: u128) -> bool {
    match age {
        Some(a) => a >= interval,
        None => true,
    }
}

/// Whether a fit is due.
pub fn is_due(age: Option<u128>, interval: u128) -> (r: bool)
    ensures
        r == due(age, interval),
{
    match age {
        Some(a) => a >= interval,
        None => true,
    }
}

/// The series of the first `count` points, grouped by observable in the
/// order the observables first came.
pub open spec fn grouped(points: Seq<DataPoint>, count: nat) -> Seq<(Seq<char>, Seq<Real>, Seq<Real>)>
    decreases count,
{
    if count == 0 {
        Seq::empty()
    } else {
        with_measurement(
            grouped(points, (count - 1) as nat),
            points[count - 1].observable@,
            points[count - 1].value,
            points[count - 1].uncertainty,
        )
    }
}

impl RollingFitEngine {
    /// How many points are kept at most.
    pub closed spec fn window(&self) -> nat {
        self.window_size as nat
    }

    /// The points kept, oldest first.
    pub closed spec fn points(&self) -> Seq<DataPoint> {
        self.data_buffer@
    }

    /// The present estimate of the parameters.
    pub closed spec fn estimate(&self) -> Seq<Real> {
        self.current_params@
    }

    /// Whether a fit was made.
    pub closed spec fn fitted(&self) -> bool {
        self.last_fit_time is Some
    }

    /// The nanoseconds after which a fit is due again.
    pub closed spec fn interval(&self) -> u128 {
        self.fit_interval
    }

    /// An engine that keeps `window_size` points and was never fitted.
    pub fn new(window_size: usize, initial_params: Vec<Real>) -> (e: RollingFitEngine)
        ensures
            e.window() == window_size,
            e.points() == Seq::<DataPoint>::empty(),
            e.estimate() == initial_params@,
            !e.fitted(),
            e.interval() == FIT_INTERVAL_NANOS,
    {
        RollingFitEngine {
            window_size,
            data_buffer: Vec::new(),
            current_params: initial_params,
            last_fit_time: None,
            fit_interval: FIT_INTERVAL_NANOS,
        }
    }

    /// Adds a point and drops the oldest points beyond the window.
    pub fn add_data(&mut self, point: DataPoint)
        ensures
            final(self).points() == windowed(old(self).points().push(point), old(self).window()),
            final(self).window() == old(self).window(),
            final(self).estimate() == old(self).estimate(),
            final(self).fitted() == old(self).fitted(),
            final(self).interval() == old(self).interval(),
    {
        let ghost all = self.data_buffer@.push(point);
        self.data_buffer.push(point);
        while self.data_buffer.len() > self.window_size
            invariant
                self.window_size == old(self).window_size,
                self.current_params == old(self).current_params,
                self.last_fit_time == old(self).last_fit_time,
                self.fit_interval == old(self).fit_interval,
                self.data_buffer@.len() <= all.len(),
                self.data_buffer@.len() == all.len() || self.data_buffer@.len()
                    >= self.window_size,
                self.data_buffer@ == all.subrange(
                    all.len() - self.data_buffer@.len(),
                    all.len() as int,
                ),
            decreases self.data_buffer@.len(),
        {
            let ghost prior = self.data_buffer@;
            self.data_buffer.remove(0);
            assert(self.data_buffer@ =~= all.subrange(
                all.len() - self.data_buffer@.len(),
                all.len() as int,
            ));
        }
        assert(self.data_buffer@ =~= windowed(all, self.window_size as nat));
    }

    /// The number of points kept.
    pub fn len(&self) -> (n: usize)
        ensures
            n == self.points().len(),
    {
        self.data_buffer.len()
    }

    /// Whether a fit is due: always before the first fit, and then once
    /// the last fit is as old as the interval. The age of the last fit is
    /// read from the clock, and the answer is that of [`due`] for it.
    pub fn should_refit(&self) -> (r: bool)
        ensures
            !self.fitted() ==> r,
            exists|age: Option<u128>|
                (age is Some) == self.fitted() && r == #[trigger] due(age, self.interval()),
    {
        let age = match &self.last_fit_time {
            Some(t) => Some(elapsed_nanos(t)),
            None => None,
        };
        let r = is_due(age, self.fit_interval);
        assert((age is Some) == self.fitted() && r == due(age, self.interval()));
        r
    }

    /// The points kept, grouped by observable.
    pub fn buffer_to_measurement_data(&self) -> (d: MeasurementData)
        ensures
            series_view(d.observables@) == grouped(self.points(), self.points().len()),
            d.num_shots == self.points().len(),
    {
        let mut data = MeasurementData::new();
        let mut k: usize = 0;
        while k < self.data_buffer.len()
            invariant
                k <= self.data_buffer@.len(),
                data.num_shots == k,
                series_view(data.observables@) == grouped(self.points(), k as nat),
            decreases self.data_buffer@.len() - k,
        {
            let point = &self.data_buffer[k];
            data.record(&point.observable, point.value, point.uncertainty);
            k += 1;
        }
        data
    }

    /// One step of the fit: the present estimate, not converged, with an
    /// uncertainty of 0.01 for each parameter.
    pub fn gradient_descent_step(&self, data: &MeasurementData) -> (r: Result<FitResult, EngineError>)
        ensures
            r is Ok,
            r->Ok_0.best_params@ == self.estimate(),
            r->Ok_0.uncertainties@ == Seq::new(
                self.estimate().len(),
                |i: int| Real { bits: HUNDREDTH_BITS },
            ),
            r->Ok_0.log_likelihood == (Real { bits: MINUS_HUNDRED_BITS }),
            r->Ok_0.fisher_info@.len() == self.estimate().len(),
            forall|i: int|
                0 <= i < self.estimate().len() ==> (#[trigger] r->Ok_0.fisher_info@[i])@
                    == Seq::new(self.estimate().len(), |j: int| Real { bits: ONE_BITS }),
            !r->Ok_0.converged,
            r->Ok_0.iterations == 1,
    {
        let n: usize = self.current_params.len();
        let mut best_params: Vec<Real> = Vec::new();
        let mut uncertainties: Vec<Real> = Vec::new();
        let mut fisher_info: Vec<Vec<Real>> = Vec::new();
        let mut i: usize = 0;
        while i < n
            invariant
                i <= n,
                n == self.current_params@.len(),
                best_params@ == self.current_params@.take(i as int),
                uncertainties@ == Seq::new(i as nat, |k: int| Real { bits: HUNDREDTH_BITS }),
                fisher_info@.len() == i,
                forall|k: int|
                    0 <= k < i ==> (#[trigger] fisher_info@[k])@ == Seq::new(
                        n as nat,
                        |j: int| Real { bits: ONE_BITS },
                    ),
            decreases n - i,
        {
            best_params.push(self.current_params[i]);
            assert(best_params@ =~= self.current_params@.take(i as int + 1));
            uncertainties.push(Real::from_bits(HUNDREDTH_BITS));
            assert(uncertainties@ =~= Seq::new(
                (i + 1) as nat,
                |k: int| Real { bits: HUNDREDTH_BITS },
            ));
            let mut row: Vec<Real> = Vec::new();
            let mut j: usize = 0;
            while j < n
                invariant
                    j <= n,
                    row@ == Seq::new(j as nat, |q: int| Real { bits: ONE_BITS }),
                decreases n - j,
            {
                row.push(Real::one());
                assert(row@ =~= Seq::new((j + 1) as nat, |q: int| Real { bits: ONE_BITS }));
                j += 1;
            }
            fisher_info.push(row);
            i += 1;
        }
        assert(best_params@ =~= self.current_params@);
        Ok(
            FitResult {
                best_params,
                uncertainties,
                log_likelihood: Real::from_bits(MINUS_HUNDRED_BITS),
                fisher_info,
                converged: false,
                iterations: 1,
            },
        )
    }

    /// Fits anew on the points kept. Without points there is nothing to
    /// fit.
    pub fn refit(&mut self) -> (r: Result<FitResult, EngineError>)
        ensures
            old(self).points().len() == 0 ==> r is Err && r->Err_0 is InvalidState && *final(self)
                == *old(self),
            old(self).points().len() > 0 ==> r is Ok && r->Ok_0.best_params@ == old(self).estimate() && final(self).estimate() == old(self).estimate() && final(self).fitted()
                && final(self).points() == old(self).points() && final(self).window() == old(self).window(),
            final(self).interval() == old(self).interval(),
    {
        if self.data_buffer.len() == 0 {
            return Err(EngineError::InvalidState("No data available for fitting".to_string()));
        }
        let data = self.buffer_to_measurement_data();
        let step = match self.gradient_descent_step(&data) {
            Ok(s) => s,
            Err(e) => {
                return Err(e);
            },
        };
        let mut params: Vec<Real> = Vec::new();
        let mut i: usize = 0;
        while i < step.best_params.len()
            invariant
                i <= step.best_params@.len(),
                params@ == step.best_params@.take(i as int),
            decreases step.best_params@.len() - i,
        {
            params.push(step.best_params[i]);
            assert(params@ =~= step.best_params@.take(i as int + 1));
            i += 1;
        }
        assert(params@ =~= step.best_params@);
        self.current_params = params;
        self.last_fit_time = Some(instant_now());
        Ok(step)
    }

    /// The present estimate of the parameters, and the nanoseconds since
    /// the last fit if one was made.
    pub fn current_estimate(&self) -> (r: (&Vec<Real>, Option<u128>))
        ensures
            r.0@ == self.estimate(),
            r.1 is Some == self.fitted(),
    {
        let age = match &self.last_fit_time {
            Some(t) => Some(elapsed_nanos(t)),
            None => None,
        };
        (&self.current_params, age)
    }
}

} // verus!
