//! Which pairs are let through to the statistics.

use crate::request_response_matcher::RequestResponsePair;
use crate::text::{chars_of, contains_chars, is_substring};
use crate::time::{lemma_at_or_after_is_the_order_of_nanos, Duration, Timestamp};
use vstd::prelude::*;
use vstd::string::*;

verus! {

/// The conditions that a pair has to meet. A condition that is absent lets
/// every pair through.
#[derive(Debug, PartialEq)]
pub struct FilterConditions {
    /// The pair has to hold one of these terms.
    pub include_terms: Option<Vec<String>>,
    /// The pair may hold none of these terms.
    pub exclude_terms: Option<Vec<String>>,
    /// The request may not be older than this.
    pub latest_time: Option<Duration>,
}

/// `term` stands in the line of the pair's request or in that of its
/// response.
pub open spec fn mentions(pair: RequestResponsePair, term: Seq<char>) -> bool {
    is_substring(term, pair.request.original_log_line@) || is_substring(
        term,
        pair.response.original_log_line@,
    )
}

/// One of `terms` stands in one of the pair's two lines.
pub open spec fn mentions_any(pair: RequestResponsePair, terms: Seq<String>) -> bool {
    exists|i: int| 0 <= i < terms.len() && mentions(pair, #[trigger] terms[i]@)
}

/// The pair holds one of the terms to include, where there are any.
pub open spec fn is_included(pair: RequestResponsePair, conditions: FilterConditions) -> bool {
    match conditions.include_terms {
        Some(terms) => mentions_any(pair, terms@),
        None => true,
    }
}

/// The pair holds one of the terms to exclude.
pub open spec fn is_excluded(pair: RequestResponsePair, conditions: FilterConditions) -> bool {
    match conditions.exclude_terms {
        Some(terms) => mentions_any(pair, terms@),
        None => false,
    }
}

/// The pair's request is not older at `now` than the conditions allow: its
/// time is the instant of that age before `now`, or a later one.
pub open spec fn is_recent(
    pair: RequestResponsePair,
    conditions: FilterConditions,
    now: Timestamp,
) -> bool {
    match conditions.latest_time {
        Some(age) => pair.request.time.is_at_or_after(
            now.nanos_since_epoch() - age.millis * 1_000_000,
        ),
        None => true,
    }
}

/// The pair meets all three conditions at the time `now`.
pub open spec fn passes(
    pair: RequestResponsePair,
    conditions: FilterConditions,
    now: Timestamp,
) -> bool {
    is_included(pair, conditions) && !is_excluded(pair, conditions) && is_recent(
        pair,
        conditions,
        now,
    )
}

fn holds_any(request_line: &Vec<char>, response_line: &Vec<char>, terms: &Vec<String>) -> (b: bool)
    ensures
        b == exists|i: int|
            0 <= i < terms.len() && (is_substring(#[trigger] terms[i]@, request_line@)
                || is_substring(terms[i]@, response_line@)),
{
    let mut i: usize = 0;
    while i < terms.len()
        invariant
            i <= terms.len(),
            forall|m: int|
                0 <= m < i ==> !(is_substring(#[trigger] terms[m]@, request_line@)
                    || is_substring(terms[m]@, response_line@)),
        decreases terms.len() - i,
    {
        let term = chars_of(terms[i].as_str());
        if contains_chars(request_line, &term) || contains_chars(response_line, &term) {
            return true;
        }
        i += 1;
    }
    false
}

/// Whether `pair` meets `conditions` at the time `now`.
pub fn matches_filter_at(
    pair: &RequestResponsePair,
    conditions: &FilterConditions,
    now: Timestamp,
) -> (b: bool)
    ensures
        b == passes(*pair, *conditions, now),
{
    let request_line = chars_of(pair.request.original_log_line.as_str());
    let response_line = chars_of(pair.response.original_log_line.as_str());
    let matches_include_terms = match &conditions.include_terms {
        Some(include_terms) => holds_any(&request_line, &response_line, include_terms),
        None => true,
    };
    let matches_exclude_terms = match &conditions.exclude_terms {
        Some(exclude_terms) => !holds_any(&request_line, &response_line, exclude_terms),
        None => true,
    };
    let matches_time = match conditions.latest_time {
        Some(latest_time) => pair.request.time.is_within(latest_time, now),
        None => true,
    };
    matches_include_terms && matches_exclude_terms && matches_time
}

/// Whether `pair` meets `conditions` now. The clock is read only where the
/// conditions set a greatest age.
pub fn matches_filter(pair: &RequestResponsePair, conditions: &FilterConditions) -> (b: bool)
    ensures
        exists|now: Timestamp| now.is_reading() && b == passes(*pair, *conditions, now),
        conditions.latest_time is None ==> b == (is_included(*pair, *conditions) && !is_excluded(
            *pair,
            *conditions,
        )),
        b ==> is_included(*pair, *conditions) && !is_excluded(*pair, *conditions),
{
    let now = match conditions.latest_time {
        Some(_) => Timestamp::now(),
        None => Timestamp { seconds: 0, nanoseconds: 0, offset_seconds: 0 },
    };
    let b = matches_filter_at(pair, conditions, now);
    assert(now.is_reading() && b == passes(*pair, *conditions, now));
    b
}

impl RequestResponsePair {
    /// Whether the pair is let through where `check_term` is the one term to
    /// include: every pair is where there is no term, and with a term the
    /// pairs that hold it in the line of the request or of the response.
    pub fn matches_include_filter(&self, check_term: Option<&str>) -> (b: bool)
        ensures
            b == match check_term {
                Some(term) => mentions(*self, term@),
                None => true,
            },
    {
        match check_term {
            Some(term) => {
                let term = chars_of(term);
                let request_line = chars_of(self.request.original_log_line.as_str());
                let response_line = chars_of(self.response.original_log_line.as_str());
                contains_chars(&request_line, &term) || contains_chars(&response_line, &term)
            },
            None => true,
        }
    }
}

/// A pair that holds a term to exclude is let through at no time, whatever
/// the terms to include are: also where the same term is one of them.
pub proof fn lemma_exclusion_wins(
    pair: RequestResponsePair,
    conditions: FilterConditions,
    now: Timestamp,
    i: int,
)
    requires
        conditions.exclude_terms is Some,
        0 <= i < conditions.exclude_terms->0@.len(),
        mentions(pair, conditions.exclude_terms->0@[i]@),
    ensures
        !passes(pair, conditions, now),
{
}

/// The greatest age is inclusive: a request that is no leap second is
/// recent exactly where it was made no more than that age before `now`, and
/// so also where it was made exactly that age before it.
pub proof fn lemma_age_limit_is_inclusive(
    pair: RequestResponsePair,
    conditions: FilterConditions,
    now: Timestamp,
)
    requires
        conditions.latest_time is Some,
        pair.request.time.nanoseconds < 1_000_000_000,
    ensures
        is_recent(pair, conditions, now) <==> pair.request.time.nanos_since_epoch()
            >= now.nanos_since_epoch() - conditions.latest_time->0.millis * 1_000_000,
{
    lemma_at_or_after_is_the_order_of_nanos(
        pair.request.time,
        now.nanos_since_epoch() - conditions.latest_time->0.millis * 1_000_000,
    );
}

/// Without conditions every pair is let through.
pub proof fn lemma_no_conditions_pass_all(
    pair: RequestResponsePair,
    conditions: FilterConditions,
    now: Timestamp,
)
    requires
        conditions.include_terms is None,
        conditions.exclude_terms is None,
        conditions.latest_time is None,
    ensures
        passes(pair, conditions, now),
{
}

} // verus!
