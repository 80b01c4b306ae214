//! Folds matched pairs into latency and error-rate statistics.

pub mod aggregated_error_rates;
pub mod percentile;

use crate::analyzer::aggregated_error_rates::{error_rates, AggregatedErrorRates, HttpErrorState};
use crate::analyzer::percentile::{
    lemma_ascending,
    max_of,
    median_of,
    median_of_sorted,
    min_of,
    percentile_of,
    sorted,
    sum_of,
};
use crate::log_parser::log_events::HttpError;
use crate::request_response_matcher::RequestResponsePair;
use crate::result::RequestLogAnalyzerResult;
use vstd::prelude::*;

verus! {

/// The latency statistics of a run, in whole milliseconds.
#[derive(PartialEq, Eq, Debug, Clone, Copy, Structural)]
pub struct TimingResult {
    pub max: usize,
    pub min: usize,
    pub avg: usize,
    pub median: usize,
    pub percentile90: usize,
    pub percentile99: usize,
    pub count: usize,
}

/// What took a time that can be measured.
pub trait Timing {
    /// The time taken, in milliseconds.
    spec fn milliseconds(&self) -> i64;

    fn num_milliseconds(&self) -> (ms: i64)
        ensures
            ms == self.milliseconds(),
    ;
}

impl Timing for RequestResponsePair {
    open spec fn milliseconds(&self) -> i64 {
        self.response.response_time.millis
    }

    fn num_milliseconds(&self) -> (ms: i64) {
        self.response.response_time.num_milliseconds()
    }
}

impl HttpErrorState for RequestResponsePair {
    open spec fn error_state(&self) -> Option<HttpError> {
        self.response.http_error
    }

    fn error(&self) -> (e: Option<HttpError>) {
        self.response.http_error
    }
}

/// The statistics of `values`; none where there is no value. The average is
/// rounded down.
pub open spec fn timing_of(values: Seq<usize>) -> Option<TimingResult> {
    if values.len() == 0 {
        None
    } else {
        Some(
            TimingResult {
                max: max_of(values),
                min: min_of(values),
                avg: (sum_of(values) / values.len()) as usize,
                median: median_of(values),
                percentile90: percentile_of(values, 9, 10),
                percentile99: percentile_of(values, 99, 100),
                count: values.len() as usize,
            },
        )
    }
}

/// The sum is at most as many times the greatest value of the type as there
/// are values.
pub proof fn lemma_sum_bound(values: Seq<usize>)
    ensures
        sum_of(values) <= values.len() * usize::MAX,
    decreases values.len(),
{
    if values.len() != 0 {
        lemma_sum_bound(values.drop_last());
        assert((values.len() - 1) * usize::MAX + usize::MAX == values.len() * usize::MAX)
            by (nonlinear_arith);
    }
}

/// The running statistics of the latencies: every value is kept, so that
/// the order statistics are exact.
pub struct AggregatedTimings {
    values: Vec<usize>,
    sum: u128,
    min: usize,
    max: usize,
}

impl AggregatedTimings {
    /// The values that were added, in the order in which they were added.
    pub closed spec fn observations(&self) -> Seq<usize> {
        self.values@
    }

    /// The running sum, least and greatest value are those of the values.
    pub closed spec fn wf(&self) -> bool {
        &&& self.sum == sum_of(self.values@)
        &&& self.values@.len() > 0 ==> self.min == min_of(self.values@) && self.max == max_of(
            self.values@,
        )
    }

    pub fn new() -> (timings: AggregatedTimings)
        ensures
            timings.wf(),
            timings.observations() == Seq::<usize>::empty(),
    {
        AggregatedTimings { values: Vec::new(), sum: 0, min: 0, max: 0 }
    }

    /// How many values were added.
    pub fn count(&self) -> (n: usize)
        ensures
            n == self.observations().len(),
    {
        self.values.len()
    }

    /// Takes in one more value.
    pub fn add(&mut self, value: usize)
        requires
            old(self).wf(),
        ensures
            final(self).wf(),
            final(self).observations() == old(self).observations().push(value),
    {
        let ghost before = self.values@;
        let count = self.values.len();
        let first = count == 0;
        self.values.push(value);
        proof {
            assert(self.values@.drop_last() =~= before);
            lemma_sum_bound(before);
            assert(count * usize::MAX + usize::MAX <= u128::MAX) by (nonlinear_arith)
                requires
                    count <= usize::MAX,
                    usize::MAX <= u64::MAX,
            ;
        }
        self.sum = self.sum + value as u128;
        if first || value < self.min {
            self.min = value;
        }
        if first || value > self.max {
            self.max = value;
        }
    }

    /// The statistics of the values that were added. With this the taking
    /// in of values has ended.
    pub fn result(self) -> (timing: Option<TimingResult>)
        requires
            self.wf(),
        ensures
            timing == timing_of(self.observations()),
    {
        let count = self.values.len();
        if count == 0 {
            return None;
        }
        let in_order = sorted(&self.values);
        proof {
            lemma_ascending(self.values@);
            lemma_sum_bound(self.values@);
            assert(sum_of(self.values@) / (count as nat) <= usize::MAX) by (nonlinear_arith)
                requires
                    sum_of(self.values@) <= count * usize::MAX,
                    count > 0,
            ;
        }
        let index90 = percentile::rank_in(count, 9, 10);
        let index99 = percentile::rank_in(count, 99, 100);
        Some(
            TimingResult {
                max: self.max,
                min: self.min,
                avg: (self.sum / count as u128) as usize,
                median: median_of_sorted(&in_order, Ghost(self.values@)),
                percentile90: in_order[index90],
                percentile99: in_order[index99],
                count,
            },
        )
    }
}

/// The value that a time of `ms` milliseconds is counted as: the same
/// number, or, of a negative time, the number that the conversion to an
/// unsigned integer wraps it to.
pub open spec fn observed(ms: i64) -> usize {
    ms as usize
}

/// The values that the times of `items` are counted as.
pub open spec fn latencies<T: Timing>(items: Seq<T>) -> Seq<usize> {
    items.map_values(|t: T| observed(t.milliseconds()))
}

/// What each of `items` reports of an error.
pub open spec fn error_states<T: HttpErrorState>(items: Seq<T>) -> Seq<Option<HttpError>> {
    items.map_values(|t: T| t.error_state())
}

/// How many of `errors` are an error of the class `class`.
pub open spec fn count_of(errors: Seq<Option<HttpError>>, class: HttpError) -> nat
    decreases errors.len(),
{
    if errors.len() == 0 {
        0
    } else {
        count_of(errors.drop_last(), class) + (if errors.last() == Some(class) {
            1nat
        } else {
            0nat
        })
    }
}

/// The result of a run in which `latencies` were observed and `errors`
/// reported: how many there are, the statistics of the latencies and the
/// error rates.
pub open spec fn analysis(
    latencies: Seq<usize>,
    errors: Seq<Option<HttpError>>,
) -> RequestLogAnalyzerResult {
    RequestLogAnalyzerResult {
        count: latencies.len() as usize,
        timing: timing_of(latencies),
        error: error_rates(
            errors.len(),
            count_of(errors, HttpError::ClientError4xx),
            count_of(errors, HttpError::ServerError5xx),
        ),
    }
}

/// The result of a run over `items`.
pub open spec fn analysis_of<T: Timing + HttpErrorState>(items: Seq<T>) -> RequestLogAnalyzerResult {
    analysis(latencies(items), error_states(items))
}

/// A run over nothing counts nothing and has neither latencies nor error
/// rates.
pub proof fn lemma_analysis_of_nothing()
    ensures
        analysis(Seq::empty(), Seq::empty()) == (RequestLogAnalyzerResult {
            count: 0,
            timing: None,
            error: None,
        }),
{
}

/// The count is the number of items, and the latencies and the error rates
/// are there exactly where it is not zero.
pub proof fn lemma_analysis_is_absent_iff_empty<T: Timing + HttpErrorState>(items: Seq<T>)
    requires
        items.len() <= usize::MAX,
    ensures
        analysis_of(items).count == items.len(),
        analysis_of(items).count == 0 <==> analysis_of(items).timing is None,
        analysis_of(items).count == 0 <==> analysis_of(items).error is None,
{
}

fn observe(ms: i64) -> (value: usize)
    ensures
        value == observed(ms),
{
    #[verifier::truncate]
    (ms as usize)
}

/// The latency statistics of `timings`; none where there are none.
pub fn analyze<T>(timings: &Vec<T>) -> (result: Option<TimingResult>) where T: Timing
    ensures
        result == timing_of(latencies(timings@)),
{
    let mut stats = AggregatedTimings::new();
    let mut i: usize = 0;
    assert(latencies(timings@.take(0)) =~= Seq::<usize>::empty());
    while i < timings.len()
        invariant
            i <= timings.len(),
            stats.wf(),
            stats.observations() == latencies(timings@.take(i as int)),
        decreases timings.len() - i,
    {
        let timing = &timings[i];
        assert(latencies(timings@.take(i + 1)) =~= latencies(timings@.take(i as int)).push(
            observed(timing.milliseconds()),
        ));
        stats.add(observe(timing.num_milliseconds()));
        i += 1;
    }
    assert(timings@.take(i as int) =~= timings@);
    stats.result()
}

/// The two running statistics of a run: the latencies and the error
/// rates. Items are added one by one; `finalize` ends the run and gives
/// its result.
pub struct Aggregator {
    timings: AggregatedTimings,
    error_rates: AggregatedErrorRates,
    errors: Ghost<Seq<Option<HttpError>>>,
}

impl Aggregator {
    /// The latencies that were added, in the order in which they were added.
    pub closed spec fn latencies(&self) -> Seq<usize> {
        self.timings.observations()
    }

    /// What the items that were added reported of an error, in the order in
    /// which they were added.
    pub closed spec fn errors(&self) -> Seq<Option<HttpError>> {
        self.errors@
    }

    /// The two statistics count the same items.
    pub closed spec fn wf(&self) -> bool {
        &&& self.timings.wf()
        &&& self.error_rates.wf()
        &&& self.errors@.len() == self.timings.observations().len()
        &&& self.error_rates.total() == self.errors@.len()
        &&& self.error_rates.client_errors() == count_of(self.errors@, HttpError::ClientError4xx)
        &&& self.error_rates.server_errors() == count_of(self.errors@, HttpError::ServerError5xx)
    }

    pub fn new() -> (aggregator: Aggregator)
        ensures
            aggregator.wf(),
            aggregator.latencies() == Seq::<usize>::empty(),
            aggregator.errors() == Seq::<Option<HttpError>>::empty(),
    {
        Aggregator {
            timings: AggregatedTimings::new(),
            error_rates: AggregatedErrorRates::new(),
            errors: Ghost(Seq::empty()),
        }
    }

    /// Takes in the latency and the error state of `item`.
    pub fn add<T>(&mut self, item: &T) where T: Timing + HttpErrorState
        requires
            old(self).wf(),
        ensures
            final(self).wf(),
            final(self).latencies() == old(self).latencies().push(observed(item.milliseconds())),
            final(self).errors() == old(self).errors().push(item.error_state()),
    {
        self.timings.add(observe(item.num_milliseconds()));
        let _ = self.timings.count();
        proof {
            assert(self.errors@.push(item.error_state()).drop_last() =~= self.errors@);
        }
        self.error_rates.add(item);
        self.errors = Ghost(self.errors@.push(item.error_state()));
    }

    /// The result of the run. With this the run has ended.
    pub fn finalize(self) -> (result: RequestLogAnalyzerResult)
        requires
            self.wf(),
        ensures
            result == analysis(self.latencies(), self.errors()),
    {
        let count = self.timings.count();
        RequestLogAnalyzerResult {
            count,
            timing: self.timings.result(),
            error: self.error_rates.result(),
        }
    }
}

/// The statistics of `items`.
pub fn analyze_iterator<T>(items: &Vec<T>) -> (result: RequestLogAnalyzerResult) where
    T: Timing + HttpErrorState,

    ensures
        result == analysis_of(items@),
{
    let mut aggregator = Aggregator::new();
    let mut i: usize = 0;
    assert(latencies(items@.take(0)) =~= Seq::<usize>::empty());
    assert(error_states(items@.take(0)) =~= Seq::<Option<HttpError>>::empty());
    while i < items.len()
        invariant
            i <= items.len(),
            aggregator.wf(),
            aggregator.latencies() == latencies(items@.take(i as int)),
            aggregator.errors() == error_states(items@.take(i as int)),
        decreases items.len() - i,
    {
        let item = &items[i];
        proof {
            assert(latencies(items@.take(i + 1)) =~= latencies(items@.take(i as int)).push(
                observed(item.milliseconds()),
            ));
            assert(error_states(items@.take(i + 1)) =~= error_states(items@.take(i as int)).push(
                item.error_state(),
            ));
        }
        aggregator.add(item);
        i += 1;
    }
    assert(items@.take(i as int) =~= items@);
    aggregator.finalize()
}

} // verus!
