//! The error rates of a list of responses.

use crate::analyzer::aggregated_error_rates::{
    error_rates,
    AggregatedErrorRates,
    ErrorRatesResult,
    HttpErrorState,
};
use crate::analyzer::{count_of, error_states};
use crate::log_parser::log_events::HttpError;
use vstd::prelude::*;

verus! {

/// The error rates of `statuses`; none where there are none.
pub fn analyze<T>(statuses: &Vec<T>) -> (result: Option<ErrorRatesResult>) where T: HttpErrorState
    ensures
        result == error_rates(
            statuses@.len(),
            count_of(error_states(statuses@), HttpError::ClientError4xx),
            count_of(error_states(statuses@), HttpError::ServerError5xx),
        ),
{
    let mut rates = AggregatedErrorRates::new();
    let mut i: usize = 0;
    while i < statuses.len()
        invariant
            i <= statuses.len(),
            rates.wf(),
            rates.total() == i,
            rates.client_errors() == count_of(
                error_states(statuses@.take(i as int)),
                HttpError::ClientError4xx,
            ),
            rates.server_errors() == count_of(
                error_states(statuses@.take(i as int)),
                HttpError::ServerError5xx,
            ),
        decreases statuses.len() - i,
    {
        proof {
            let next = error_states(statuses@.take(i + 1));
            assert(next.drop_last() =~= error_states(statuses@.take(i as int)));
            assert(next.last() == statuses@[i as int].error_state());
        }
        rates.add(&statuses[i]);
        i += 1;
    }
    assert(statuses@.take(i as int) =~= statuses@);
    rates.result()
}

} // verus!
