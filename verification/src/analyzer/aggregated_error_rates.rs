//! The share of responses that report a client error or a server error.

use crate::log_parser::log_events::HttpError;
use vstd::prelude::*;

verus! {

/// The error rates of a run, each in ten-thousandths: `5000` stands for
/// `0.5`, `3333` for `0.3333`.
#[derive(PartialEq, Eq, Debug, Clone, Copy, Structural)]
pub struct ErrorRatesResult {
    pub client_error_4xx: u32,
    pub server_error_5xx: u32,
}

/// What tells whether a response reported an error.
pub trait HttpErrorState {
    /// The error class of this value, if it reported an error.
    spec fn error_state(&self) -> Option<HttpError>;

    fn error(&self) -> (e: Option<HttpError>)
        ensures
            e == self.error_state(),
    ;
}

/// `part` of `total`, in ten-thousandths, rounded to the nearest, a half
/// upwards.
pub open spec fn rounded_rate(part: nat, total: nat) -> nat {
    (part * 10000 + total / 2) / total
}

/// The rates of `client` and `server` errors among `total` responses; none
/// where there was no response.
pub open spec fn error_rates(total: nat, client: nat, server: nat) -> Option<ErrorRatesResult> {
    if total == 0 {
        None
    } else {
        Some(
            ErrorRatesResult {
                client_error_4xx: rounded_rate(client, total) as u32,
                server_error_5xx: rounded_rate(server, total) as u32,
            },
        )
    }
}

/// The rounded rate is the whole number of ten-thousandths that is nearest
/// to the exact rate, and the greater of the two where two are as near.
pub proof fn lemma_rounded_rate_is_nearest(part: nat, total: nat)
    requires
        0 < total,
    ensures
        2 * rounded_rate(part, total) * total <= 2 * part * 10000 + total,
        2 * part * 10000 + total < 2 * (rounded_rate(part, total) + 1) * total,
{
    let x = part * 10000;
    let h = total / 2;
    let q = (x + h) / total;
    assert(q * total <= x + h < (q + 1) * total) by (nonlinear_arith)
        requires
            q == (x + h) / total,
            0 < total,
    ;
    assert(2 * q * total <= 2 * x + total) by (nonlinear_arith)
        requires
            q * total <= x + h,
            2 * h <= total,
    ;
    assert(2 * x + total < 2 * (q + 1) * total) by (nonlinear_arith)
        requires
            x + h < (q + 1) * total,
            total <= 2 * h + 1,
    ;
    assert(2 * part * 10000 == 2 * x) by (nonlinear_arith)
        requires
            x == part * 10000,
    ;
}

/// A rate of a part of the whole is at most one.
pub proof fn lemma_rounded_rate_bound(part: nat, total: nat)
    requires
        part <= total,
        0 < total,
    ensures
        rounded_rate(part, total) <= 10000,
{
    assert(part * 10000 + total / 2 < 10001 * total) by (nonlinear_arith)
        requires
            part <= total,
            0 < total,
    ;
    assert((part * 10000 + total / 2) / total <= 10000) by (nonlinear_arith)
        requires
            part * 10000 + total / 2 < 10001 * total,
            0 < total,
    ;
}

fn rate(part: usize, total: usize) -> (r: u32)
    requires
        part <= total,
        0 < total,
    ensures
        r == rounded_rate(part as nat, total as nat),
        r <= 10000,
{
    proof {
        lemma_rounded_rate_bound(part as nat, total as nat);
    }
    let scaled: u128 = part as u128 * 10000 + total as u128 / 2;
    (scaled / total as u128) as u32
}

/// The running counts of responses and of those that reported an error.
pub struct AggregatedErrorRates {
    total_count: usize,
    client_error_4xx_count: usize,
    server_error_5xx_count: usize,
}

impl AggregatedErrorRates {
    /// How many responses were added.
    pub closed spec fn total(&self) -> nat {
        self.total_count as nat
    }

    /// How many of them reported a client error.
    pub closed spec fn client_errors(&self) -> nat {
        self.client_error_4xx_count as nat
    }

    /// How many of them reported a server error.
    pub closed spec fn server_errors(&self) -> nat {
        self.server_error_5xx_count as nat
    }

    /// The errors are among the responses counted.
    pub open spec fn wf(&self) -> bool {
        self.client_errors() + self.server_errors() <= self.total()
    }

    pub fn new() -> (rates: AggregatedErrorRates)
        ensures
            rates.wf(),
            rates.total() == 0,
            rates.client_errors() == 0,
            rates.server_errors() == 0,
    {
        AggregatedErrorRates { total_count: 0, client_error_4xx_count: 0, server_error_5xx_count: 0 }
    }

    /// Counts one response.
    pub fn add<T>(&mut self, value: &T) where T: HttpErrorState
        requires
            old(self).wf(),
            old(self).total() < usize::MAX,
        ensures
            final(self).wf(),
            final(self).total() == old(self).total() + 1,
            final(self).client_errors() == old(self).client_errors() + (if value.error_state()
                == Some(HttpError::ClientError4xx) {
                1nat
            } else {
                0nat
            }),
            final(self).server_errors() == old(self).server_errors() + (if value.error_state()
                == Some(HttpError::ServerError5xx) {
                1nat
            } else {
                0nat
            }),
    {
        self.total_count += 1;
        match value.error() {
            Some(HttpError::ClientError4xx) => self.client_error_4xx_count += 1,
            Some(HttpError::ServerError5xx) => self.server_error_5xx_count += 1,
            None => (),
        }
    }

    /// The rates of what was added. With this the counting has ended.
    pub fn result(self) -> (rates: Option<ErrorRatesResult>)
        requires
            self.wf(),
        ensures
            rates == error_rates(self.total(), self.client_errors(), self.server_errors()),
            rates is Some ==> rates->0.client_error_4xx <= 10000 && rates->0.server_error_5xx
                <= 10000,
    {
        if self.total_count == 0 {
            return None;
        }
        Some(
            ErrorRatesResult {
                client_error_4xx: rate(self.client_error_4xx_count, self.total_count),
                server_error_5xx: rate(self.server_error_5xx_count, self.total_count),
            },
        )
    }
}

} // verus!
