//! What holds of every run of the matcher.

use crate::log_parser::log_events::{LogEvent, Request, Response};
use crate::request_response_matcher::{
    matched_pairs,
    pairs_of,
    request_ids,
    response_ids,
    step,
    Pending,
    RequestResponsePair,
};
use vstd::prelude::*;

verus! {

/// A request that arrives is paired with the oldest response that waits with
/// its id: no response before that one has the id. It waits itself exactly
/// where no response has its id.
pub proof fn lemma_request_takes_the_oldest_response(pending: Pending, request: Request)
    ensures
        match step(pending, LogEvent::Request(request)).1 {
            Some(pair) => exists|j: int|
                {
                    &&& 0 <= j < pending.responses.len()
                    &&& pair.request == request
                    &&& pair.response == #[trigger] pending.responses[j]
                    &&& pair.response.id == request.id
                    &&& forall|m: int| 0 <= m < j ==> (#[trigger] pending.responses[m]).id != request.id
                    &&& step(pending, LogEvent::Request(request)).0 == (Pending {
                        requests: pending.requests,
                        responses: pending.responses.remove(j),
                    })
                },
            None => {
                &&& forall|m: int|
                    0 <= m < pending.responses.len() ==> (#[trigger] pending.responses[m]).id
                        != request.id
                &&& step(pending, LogEvent::Request(request)).0 == (Pending {
                    requests: pending.requests.push(request),
                    responses: pending.responses,
                })
            },
        },
{
    let ids = response_ids(pending.responses);
    ids.index_of_first_ensures(request.id);
    match ids.index_of_first(request.id) {
        Some(j) => {
            assert(ids[j] == pending.responses[j].id);
            assert forall|m: int| 0 <= m < j implies (#[trigger] pending.responses[m]).id
                != request.id by {
                assert(ids[m] == pending.responses[m].id);
            }
        },
        None => {
            assert forall|m: int| 0 <= m < pending.responses.len() implies (
            #[trigger] pending.responses[m]).id != request.id by {
                assert(ids[m] == pending.responses[m].id);
            }
        },
    }
}

/// A response that arrives is paired with the oldest request that waits with
/// its id: no request before that one has the id. It waits itself exactly
/// where no request has its id.
pub proof fn lemma_response_takes_the_oldest_request(pending: Pending, response: Response)
    ensures
        match step(pending, LogEvent::Response(response)).1 {
            Some(pair) => exists|i: int|
                {
                    &&& 0 <= i < pending.requests.len()
                    &&& pair.response == response
                    &&& pair.request == #[trigger] pending.requests[i]
                    &&& pair.request.id == response.id
                    &&& forall|m: int| 0 <= m < i ==> (#[trigger] pending.requests[m]).id != response.id
                    &&& step(pending, LogEvent::Response(response)).0 == (Pending {
                        requests: pending.requests.remove(i),
                        responses: pending.responses,
                    })
                },
            None => {
                &&& forall|m: int|
                    0 <= m < pending.requests.len() ==> (#[trigger] pending.requests[m]).id
                        != response.id
                &&& step(pending, LogEvent::Response(response)).0 == (Pending {
                    requests: pending.requests,
                    responses: pending.responses.push(response),
                })
            },
        },
{
    let ids = request_ids(pending.requests);
    ids.index_of_first_ensures(response.id);
    match ids.index_of_first(response.id) {
        Some(i) => {
            assert(ids[i] == pending.requests[i].id);
            assert forall|m: int| 0 <= m < i implies (#[trigger] pending.requests[m]).id
                != response.id by {
                assert(ids[m] == pending.requests[m].id);
            }
        },
        None => {
            assert forall|m: int| 0 <= m < pending.requests.len() implies (
            #[trigger] pending.requests[m]).id != response.id by {
                assert(ids[m] == pending.requests[m].id);
            }
        },
    }
}

/// `request` waits in `pending` or is one of `events`.
pub open spec fn has_request(pending: Pending, events: Seq<LogEvent>, request: Request) -> bool {
    pending.requests.contains(request) || events.contains(LogEvent::Request(request))
}

/// `response` waits in `pending` or is one of `events`.
pub open spec fn has_response(pending: Pending, events: Seq<LogEvent>, response: Response) -> bool {
    pending.responses.contains(response) || events.contains(LogEvent::Response(response))
}

/// Two events of the same kind with the same id.
pub open spec fn same_kind_and_id(x: LogEvent, y: LogEvent) -> bool {
    match (x, y) {
        (LogEvent::Request(p), LogEvent::Request(q)) => p.id == q.id,
        (LogEvent::Response(p), LogEvent::Response(q)) => p.id == q.id,
        _ => false,
    }
}

/// No id occurs twice among the requests of `events`, and none twice among
/// its responses.
pub open spec fn unique_ids(events: Seq<LogEvent>) -> bool {
    forall|a: int, b: int|
        0 <= a < b < events.len() ==> !same_kind_and_id(#[trigger] events[a], #[trigger] events[b])
}

/// No id occurs twice among the requests that wait or arrive, and none twice
/// among the responses that wait or arrive; and no request that waits is
/// answered by a response that waits.
pub open spec fn fresh(pending: Pending, events: Seq<LogEvent>) -> bool {
    &&& pending.wf()
    &&& unique_ids(events)
    &&& forall|a: int, b: int|
        0 <= a < b < pending.requests.len() ==> (#[trigger] pending.requests[a]).id != (
        #[trigger] pending.requests[b]).id
    &&& forall|a: int, b: int|
        0 <= a < b < pending.responses.len() ==> (#[trigger] pending.responses[a]).id != (
        #[trigger] pending.responses[b]).id
    &&& forall|i: int, k: int|
        0 <= i < pending.requests.len() && 0 <= k < events.len() ==> !same_kind_and_id(
            LogEvent::Request(#[trigger] pending.requests[i]),
            #[trigger] events[k],
        )
    &&& forall|j: int, k: int|
        0 <= j < pending.responses.len() && 0 <= k < events.len() ==> !same_kind_and_id(
            LogEvent::Response(#[trigger] pending.responses[j]),
            #[trigger] events[k],
        )
}

/// One step of a run with unique ids leaves the ids unique.
pub proof fn lemma_step_keeps_fresh(pending: Pending, events: Seq<LogEvent>)
    requires
        fresh(pending, events),
        events.len() > 0,
    ensures
        fresh(step(pending, events[0]).0, events.skip(1)),
{
    let after = step(pending, events[0]).0;
    let rest = events.skip(1);
    crate::request_response_matcher::lemma_step_keeps_wf(pending, events[0]);
    assert forall|a: int, b: int| 0 <= a < b < rest.len() implies !same_kind_and_id(
        #[trigger] rest[a],
        #[trigger] rest[b],
    ) by {
        assert(rest[a] == events[a + 1] && rest[b] == events[b + 1]);
    }
    match events[0] {
        LogEvent::Request(request) => {
            let ids = response_ids(pending.responses);
            ids.index_of_first_ensures(request.id);
            match ids.index_of_first(request.id) {
                Some(j) => {
                    assert forall|a: int, b: int| 0 <= a < b < after.responses.len() implies (
                    #[trigger] after.responses[a]).id != (#[trigger] after.responses[b]).id by {
                        let a0 = if a < j { a } else { a + 1 };
                        let b0 = if b < j { b } else { b + 1 };
                        assert(after.responses[a] == pending.responses[a0]);
                        assert(after.responses[b] == pending.responses[b0]);
                    }
                    assert forall|i: int, k: int|
                        0 <= i < after.requests.len() && 0 <= k < rest.len() implies !same_kind_and_id(
                        LogEvent::Request(#[trigger] after.requests[i]),
                        #[trigger] rest[k],
                    ) by {
                        assert(rest[k] == events[k + 1]);
                        assert(after.requests[i] == pending.requests[i]);
                    }
                    assert forall|i: int, k: int|
                        0 <= i < after.responses.len() && 0 <= k < rest.len() implies !same_kind_and_id(
                        LogEvent::Response(#[trigger] after.responses[i]),
                        #[trigger] rest[k],
                    ) by {
                        let i0 = if i < j { i } else { i + 1 };
                        assert(rest[k] == events[k + 1]);
                        assert(after.responses[i] == pending.responses[i0]);
                    }
                },
                None => {
                    assert forall|a: int, b: int| 0 <= a < b < after.requests.len() implies (
                    #[trigger] after.requests[a]).id != (#[trigger] after.requests[b]).id by {
                        if b == pending.requests.len() {
                            assert(after.requests[a] == pending.requests[a]);
                            assert(!same_kind_and_id(
                                LogEvent::Request(pending.requests[a]),
                                events[0],
                            ));
                        } else {
                            assert(after.requests[a] == pending.requests[a]);
                            assert(after.requests[b] == pending.requests[b]);
                        }
                    }
                    assert forall|i: int, k: int|
                        0 <= i < after.requests.len() && 0 <= k < rest.len() implies !same_kind_and_id(
                        LogEvent::Request(#[trigger] after.requests[i]),
                        #[trigger] rest[k],
                    ) by {
                        assert(rest[k] == events[k + 1]);
                        if i == pending.requests.len() {
                            assert(!same_kind_and_id(events[0], events[k + 1]));
                        } else {
                            assert(after.requests[i] == pending.requests[i]);
                        }
                    }
                    assert forall|i: int, k: int|
                        0 <= i < after.responses.len() && 0 <= k < rest.len() implies !same_kind_and_id(
                        LogEvent::Response(#[trigger] after.responses[i]),
                        #[trigger] rest[k],
                    ) by {
                        assert(rest[k] == events[k + 1]);
                    }
                },
            }
        },
        LogEvent::Response(response) => {
            let ids = request_ids(pending.requests);
            ids.index_of_first_ensures(response.id);
            match ids.index_of_first(response.id) {
                Some(j) => {
                    assert forall|a: int, b: int| 0 <= a < b < after.requests.len() implies (
                    #[trigger] after.requests[a]).id != (#[trigger] after.requests[b]).id by {
                        let a0 = if a < j { a } else { a + 1 };
                        let b0 = if b < j { b } else { b + 1 };
                        assert(after.requests[a] == pending.requests[a0]);
                        assert(after.requests[b] == pending.requests[b0]);
                    }
                    assert forall|i: int, k: int|
                        0 <= i < after.responses.len() && 0 <= k < rest.len() implies !same_kind_and_id(
                        LogEvent::Response(#[trigger] after.responses[i]),
                        #[trigger] rest[k],
                    ) by {
                        assert(rest[k] == events[k + 1]);
                        assert(after.responses[i] == pending.responses[i]);
                    }
                    assert forall|i: int, k: int|
                        0 <= i < after.requests.len() && 0 <= k < rest.len() implies !same_kind_and_id(
                        LogEvent::Request(#[trigger] after.requests[i]),
                        #[trigger] rest[k],
                    ) by {
                        let i0 = if i < j { i } else { i + 1 };
                        assert(rest[k] == events[k + 1]);
                        assert(after.requests[i] == pending.requests[i0]);
                    }
                },
                None => {
                    assert forall|a: int, b: int| 0 <= a < b < after.responses.len() implies (
                    #[trigger] after.responses[a]).id != (#[trigger] after.responses[b]).id by {
                        if b == pending.responses.len() {
                            assert(after.responses[a] == pending.responses[a]);
                            assert(!same_kind_and_id(
                                LogEvent::Response(pending.responses[a]),
                                events[0],
                            ));
                        } else {
                            assert(after.responses[a] == pending.responses[a]);
                            assert(after.responses[b] == pending.responses[b]);
                        }
                    }
                    assert forall|i: int, k: int|
                        0 <= i < after.responses.len() && 0 <= k < rest.len() implies !same_kind_and_id(
                        LogEvent::Response(#[trigger] after.responses[i]),
                        #[trigger] rest[k],
                    ) by {
                        assert(rest[k] == events[k + 1]);
                        if i == pending.responses.len() {
                            assert(!same_kind_and_id(events[0], events[k + 1]));
                        } else {
                            assert(after.responses[i] == pending.responses[i]);
                        }
                    }
                    assert forall|i: int, k: int|
                        0 <= i < after.requests.len() && 0 <= k < rest.len() implies !same_kind_and_id(
                        LogEvent::Request(#[trigger] after.requests[i]),
                        #[trigger] rest[k],
                    ) by {
                        assert(rest[k] == events[k + 1]);
                    }
                },
            }
        },
    }
}

/// What waits or arrives after a step waited or arrived before it.
pub proof fn lemma_step_takes_nothing_new(pending: Pending, events: Seq<LogEvent>)
    requires
        events.len() > 0,
    ensures
        forall|r: Request| #[trigger]
            has_request(step(pending, events[0]).0, events.skip(1), r) ==> has_request(
                pending,
                events,
                r,
            ),
        forall|s: Response| #[trigger]
            has_response(step(pending, events[0]).0, events.skip(1), s) ==> has_response(
                pending,
                events,
                s,
            ),
{
    let after = step(pending, events[0]).0;
    let rest = events.skip(1);
    request_ids(pending.requests).index_of_first_ensures(events[0]->Response_0.id);
    response_ids(pending.responses).index_of_first_ensures(events[0]->Request_0.id);
    assert forall|r: Request| #[trigger] has_request(after, rest, r) implies has_request(
        pending,
        events,
        r,
    ) by {
        if after.requests.contains(r) {
            let i = choose|i: int| 0 <= i < after.requests.len() && after.requests[i] == r;
            if events[0] is Request {
                if i < pending.requests.len() {
                    assert(pending.requests[i] == r);
                } else {
                    assert(events[0] == LogEvent::Request(r));
                }
            } else {
                match request_ids(pending.requests).index_of_first(events[0]->Response_0.id) {
                    Some(j) => {
                        let i0 = if i < j { i } else { i + 1 };
                        assert(pending.requests[i0] == r);
                    },
                    None => {
                        assert(pending.requests[i] == r);
                    },
                }
            }
        } else {
            let k = choose|k: int| 0 <= k < rest.len() && rest[k] == LogEvent::Request(r);
            assert(events[k + 1] == LogEvent::Request(r));
        }
    }
    assert forall|s: Response| #[trigger] has_response(after, rest, s) implies has_response(
        pending,
        events,
        s,
    ) by {
        if after.responses.contains(s) {
            let i = choose|i: int| 0 <= i < after.responses.len() && after.responses[i] == s;
            if events[0] is Response {
                if i < pending.responses.len() {
                    assert(pending.responses[i] == s);
                } else {
                    assert(events[0] == LogEvent::Response(s));
                }
            } else {
                match response_ids(pending.responses).index_of_first(events[0]->Request_0.id) {
                    Some(j) => {
                        let i0 = if i < j { i } else { i + 1 };
                        assert(pending.responses[i0] == s);
                    },
                    None => {
                        assert(pending.responses[i] == s);
                    },
                }
            }
        } else {
            let k = choose|k: int| 0 <= k < rest.len() && rest[k] == LogEvent::Response(s);
            assert(events[k + 1] == LogEvent::Response(s));
        }
    }
}

/// Every pair that a run makes holds a request and a response of the run
/// with one and the same id.
pub proof fn lemma_pairs_are_matches(pending: Pending, events: Seq<LogEvent>, k: int)
    requires
        0 <= k < pairs_of(pending, events).len(),
    ensures
        pairs_of(pending, events)[k].request.id == pairs_of(pending, events)[k].response.id,
        has_request(pending, events, pairs_of(pending, events)[k].request),
        has_response(pending, events, pairs_of(pending, events)[k].response),
    decreases events.len(),
{
    let (after, pair) = step(pending, events[0]);
    let rest = pairs_of(after, events.skip(1));
    let p = pairs_of(pending, events)[k];
    request_ids(pending.requests).index_of_first_ensures(events[0]->Response_0.id);
    response_ids(pending.responses).index_of_first_ensures(events[0]->Request_0.id);
    if pair is Some && k == 0 {
        match events[0] {
            LogEvent::Request(request) => {
                let j = response_ids(pending.responses).index_of_first(request.id)->0;
                assert(response_ids(pending.responses)[j] == pending.responses[j].id);
                assert(events[0] == LogEvent::Request(p.request));
                assert(pending.responses[j] == p.response);
            },
            LogEvent::Response(response) => {
                let i = request_ids(pending.requests).index_of_first(response.id)->0;
                assert(request_ids(pending.requests)[i] == pending.requests[i].id);
                assert(events[0] == LogEvent::Response(p.response));
                assert(pending.requests[i] == p.request);
            },
        }
    } else {
        let k0 = if pair is Some { k - 1 } else { k };
        assert(p == rest[k0]);
        lemma_pairs_are_matches(after, events.skip(1), k0);
        lemma_step_takes_nothing_new(pending, events);
    }
}

/// In a run with unique ids, a request and a response with the same id are
/// made a pair.
pub proof fn lemma_matching_events_are_paired(
    pending: Pending,
    events: Seq<LogEvent>,
    request: Request,
    response: Response,
)
    requires
        fresh(pending, events),
        has_request(pending, events, request),
        has_response(pending, events, response),
        request.id == response.id,
    ensures
        pairs_of(pending, events).contains(RequestResponsePair { request, response }),
    decreases events.len(),
{
    let wanted = RequestResponsePair { request, response };
    if events.len() == 0 {
        let i = choose|i: int| 0 <= i < pending.requests.len() && pending.requests[i] == request;
        let j = choose|j: int|
            0 <= j < pending.responses.len() && pending.responses[j] == response;
        assert(pending.requests[i].id != pending.responses[j].id);
    } else {
        let (after, pair) = step(pending, events[0]);
        let rest_events = events.skip(1);
        let rest = pairs_of(after, rest_events);
        lemma_step_keeps_fresh(pending, events);
        request_ids(pending.requests).index_of_first_ensures(events[0]->Response_0.id);
        response_ids(pending.responses).index_of_first_ensures(events[0]->Request_0.id);
        // Where the request or the response is in the events, the place of it.
        let kq = if events.contains(LogEvent::Request(request)) {
            choose|k: int| 0 <= k < events.len() && events[k] == LogEvent::Request(request)
        } else {
            -1
        };
        let ks = if events.contains(LogEvent::Response(response)) {
            choose|k: int| 0 <= k < events.len() && events[k] == LogEvent::Response(response)
        } else {
            -1
        };
        let iq = if pending.requests.contains(request) {
            choose|i: int| 0 <= i < pending.requests.len() && pending.requests[i] == request
        } else {
            -1
        };
        let js = if pending.responses.contains(response) {
            choose|j: int| 0 <= j < pending.responses.len() && pending.responses[j] == response
        } else {
            -1
        };
        if kq > 0 {
            assert(rest_events[kq - 1] == LogEvent::Request(request));
        }
        if ks > 0 {
            assert(rest_events[ks - 1] == LogEvent::Response(response));
        }
        let is_head = pair == Some(wanted);
        if !is_head {
            match events[0] {
                LogEvent::Request(q) => {
                    let ids = response_ids(pending.responses);
                    match ids.index_of_first(q.id) {
                        Some(j) => {
                            assert(ids[j] == pending.responses[j].id);
                            if request.id == q.id {
                                // The request is the one that arrived, and its
                                // answer the response that was taken.
                                if iq >= 0 {
                                    assert(same_kind_and_id(
                                        LogEvent::Request(pending.requests[iq]),
                                        events[0],
                                    ));
                                }
                                if kq > 0 {
                                    assert(same_kind_and_id(events[0], events[kq]));
                                }
                                assert(kq == 0);
                                if ks >= 0 {
                                    assert(same_kind_and_id(
                                        LogEvent::Response(pending.responses[j]),
                                        events[ks],
                                    ));
                                }
                                assert(js >= 0);
                                assert(js == j);
                                assert(false);
                            } else {
                                if iq >= 0 {
                                    assert(after.requests[iq] == request);
                                }
                                assert(kq != 0);
                                if js >= 0 {
                                    assert(js != j);
                                    let j0 = if js < j { js } else { js - 1 };
                                    assert(after.responses[j0] == response);
                                }
                                assert(ks != 0);
                            }
                        },
                        None => {
                            if iq >= 0 {
                                assert(after.requests[iq] == request);
                            }
                            if kq == 0 {
                                assert(after.requests[pending.requests.len() as int] == request);
                            }
                            if js >= 0 {
                                assert(after.responses[js] == response);
                            }
                            assert(ks != 0);
                        },
                    }
                },
                LogEvent::Response(q) => {
                    let ids = request_ids(pending.requests);
                    match ids.index_of_first(q.id) {
                        Some(i) => {
                            assert(ids[i] == pending.requests[i].id);
                            if response.id == q.id {
                                if js >= 0 {
                                    assert(same_kind_and_id(
                                        LogEvent::Response(pending.responses[js]),
                                        events[0],
                                    ));
                                }
                                if ks > 0 {
                                    assert(same_kind_and_id(events[0], events[ks]));
                                }
                                assert(ks == 0);
                                if kq >= 0 {
                                    assert(same_kind_and_id(
                                        LogEvent::Request(pending.requests[i]),
                                        events[kq],
                                    ));
                                }
                                assert(iq >= 0);
                                assert(iq == i);
                                assert(false);
                            } else {
                                if js >= 0 {
                                    assert(after.responses[js] == response);
                                }
                                assert(ks != 0);
                                if iq >= 0 {
                                    assert(iq != i);
                                    let i0 = if iq < i { iq } else { iq - 1 };
                                    assert(after.requests[i0] == request);
                                }
                                assert(kq != 0);
                            }
                        },
                        None => {
                            if js >= 0 {
                                assert(after.responses[js] == response);
                            }
                            if ks == 0 {
                                assert(after.responses[pending.responses.len() as int]
                                    == response);
                            }
                            if iq >= 0 {
                                assert(after.requests[iq] == request);
                            }
                            assert(kq != 0);
                        },
                    }
                },
            }
            lemma_matching_events_are_paired(after, rest_events, request, response);
            let k = choose|k: int| 0 <= k < rest.len() && rest[k] == wanted;
            let k0 = if pair is Some { k + 1 } else { k };
            assert(pairs_of(pending, events)[k0] == wanted);
        } else {
            assert(pairs_of(pending, events)[0] == wanted);
        }
    }
}

/// In a run with unique ids no pair is made twice.
pub proof fn lemma_pairs_are_made_once(pending: Pending, events: Seq<LogEvent>)
    requires
        fresh(pending, events),
    ensures
        pairs_of(pending, events).no_duplicates(),
    decreases events.len(),
{
    if events.len() != 0 {
        let (after, pair) = step(pending, events[0]);
        let rest_events = events.skip(1);
        let rest = pairs_of(after, rest_events);
        let all = pairs_of(pending, events);
        lemma_step_keeps_fresh(pending, events);
        lemma_pairs_are_made_once(after, rest_events);
        request_ids(pending.requests).index_of_first_ensures(events[0]->Response_0.id);
        response_ids(pending.responses).index_of_first_ensures(events[0]->Request_0.id);
        if pair is Some {
            let head = pair->0;
            assert forall|k: int| 0 <= k < rest.len() implies rest[k] != head by {
                lemma_pairs_are_matches(after, rest_events, k);
                if rest[k] == head {
                    // The event that made the head would wait or come again.
                    match events[0] {
                        LogEvent::Request(q) => {
                            assert(rest[k].request == q);
                            if after.requests.contains(q) {
                                let i = choose|i: int|
                                    0 <= i < after.requests.len() && after.requests[i] == q;
                                assert(pending.requests[i] == q);
                                assert(same_kind_and_id(
                                    LogEvent::Request(pending.requests[i]),
                                    events[0],
                                ));
                            } else {
                                let m = choose|m: int|
                                    0 <= m < rest_events.len() && rest_events[m]
                                        == LogEvent::Request(q);
                                assert(same_kind_and_id(events[0], events[m + 1]));
                            }
                        },
                        LogEvent::Response(q) => {
                            assert(rest[k].response == q);
                            if after.responses.contains(q) {
                                let i = choose|i: int|
                                    0 <= i < after.responses.len() && after.responses[i] == q;
                                assert(pending.responses[i] == q);
                                assert(same_kind_and_id(
                                    LogEvent::Response(pending.responses[i]),
                                    events[0],
                                ));
                            } else {
                                let m = choose|m: int|
                                    0 <= m < rest_events.len() && rest_events[m]
                                        == LogEvent::Response(q);
                                assert(same_kind_and_id(events[0], events[m + 1]));
                            }
                        },
                    }
                }
            }
            assert forall|a: int, b: int| 0 <= a < all.len() && 0 <= b < all.len() && a
                != b implies all[a] != all[b] by {
                if a > 0 && b > 0 {
                    assert(all[a] == rest[a - 1] && all[b] == rest[b - 1]);
                } else if a == 0 {
                    assert(all[b] == rest[b - 1]);
                } else {
                    assert(all[a] == rest[a - 1]);
                }
            }
        }
    }
}

/// The events of a run with nothing waiting at its start, where no id occurs
/// twice among the requests and none twice among the responses, are fresh.
pub proof fn lemma_unique_ids_are_fresh(events: Seq<LogEvent>)
    requires
        unique_ids(events),
    ensures
        fresh(Pending::empty(), events),
{
}

/// Where no id occurs twice among the requests of `events`, and none twice
/// among its responses, the pairs of the run are exactly the request and the
/// response of each id that both sides have: each such pair is made, nothing
/// else is, and no pair is made twice, whatever the order of the events.
pub proof fn lemma_unique_ids_match_exactly(events: Seq<LogEvent>)
    requires
        unique_ids(events),
    ensures
        forall|request: Request, response: Response|
            #![trigger events.contains(LogEvent::Request(request)), events.contains(LogEvent::Response(response))]
            events.contains(LogEvent::Request(request)) && events.contains(
                LogEvent::Response(response),
            ) && request.id == response.id ==> matched_pairs(events).contains(
                RequestResponsePair { request, response },
            ),
        forall|k: int|
            0 <= k < matched_pairs(events).len() ==> {
                let pair = #[trigger] matched_pairs(events)[k];
                &&& events.contains(LogEvent::Request(pair.request))
                &&& events.contains(LogEvent::Response(pair.response))
                &&& pair.request.id == pair.response.id
            },
        matched_pairs(events).no_duplicates(),
{
    let nothing = Pending::empty();
    lemma_unique_ids_are_fresh(events);
    assert forall|request: Request, response: Response|
        #![trigger events.contains(LogEvent::Request(request)), events.contains(LogEvent::Response(response))]
        events.contains(LogEvent::Request(request)) && events.contains(
            LogEvent::Response(response),
        ) && request.id == response.id implies matched_pairs(events).contains(
        RequestResponsePair { request, response },
    ) by {
        lemma_matching_events_are_paired(nothing, events, request, response);
    }
    assert forall|k: int| 0 <= k < matched_pairs(events).len() implies {
        let pair = #[trigger] matched_pairs(events)[k];
        &&& events.contains(LogEvent::Request(pair.request))
        &&& events.contains(LogEvent::Response(pair.response))
        &&& pair.request.id == pair.response.id
    } by {
        lemma_pairs_are_matches(nothing, events, k);
    }
    lemma_pairs_are_made_once(nothing, events);
}

/// A request whose id no response of the run has is in no pair, whatever
/// else the run holds.
pub proof fn lemma_unanswered_request_is_in_no_pair(events: Seq<LogEvent>, id: i32, k: int)
    requires
        forall|m: int|
            0 <= m < events.len() && (#[trigger] events[m]) is Response
                ==> events[m]->Response_0.id != id,
        0 <= k < matched_pairs(events).len(),
    ensures
        matched_pairs(events)[k].request.id != id,
{
    lemma_pairs_are_matches(Pending::empty(), events, k);
    let response = matched_pairs(events)[k].response;
    let m = choose|m: int| 0 <= m < events.len() && events[m] == LogEvent::Response(response);
    assert(events[m] is Response);
}

/// What still waits once a run has looked at all of `events`.
pub open spec fn left_waiting(pending: Pending, events: Seq<LogEvent>) -> Pending
    decreases events.len(),
{
    if events.len() == 0 {
        pending
    } else {
        left_waiting(step(pending, events[0]).0, events.skip(1))
    }
}

/// The pair that a step makes, as a sequence: of one pair, or of none.
pub open spec fn made(pair: Option<RequestResponsePair>) -> Seq<RequestResponsePair> {
    match pair {
        Some(p) => seq![p],
        None => Seq::empty(),
    }
}

/// A run over one more event is the run over the events before it, and
/// then the step of that event from what waits after them.
pub proof fn lemma_run_one_more(pending: Pending, events: Seq<LogEvent>, event: LogEvent)
    ensures
        left_waiting(pending, events.push(event)) == step(
            left_waiting(pending, events),
            event,
        ).0,
        pairs_of(pending, events.push(event)) == pairs_of(pending, events) + made(
            step(left_waiting(pending, events), event).1,
        ),
    decreases events.len(),
{
    let longer = events.push(event);
    if events.len() == 0 {
        assert(longer.skip(1) =~= events);
        assert(longer[0] == event);
        let (after, pair) = step(pending, event);
        assert(pairs_of(after, longer.skip(1)) =~= Seq::<RequestResponsePair>::empty());
        assert(pairs_of(pending, longer) =~= pairs_of(pending, events) + made(pair));
        assert(left_waiting(after, longer.skip(1)) == after);
        assert(left_waiting(pending, longer) == after);
        assert(left_waiting(pending, events) == pending);
    } else {
        let (after, pair) = step(pending, events[0]);
        assert(longer[0] == events[0]);
        assert(longer.skip(1) =~= events.skip(1).push(event));
        lemma_run_one_more(after, events.skip(1), event);
        let last = step(left_waiting(after, events.skip(1)), event).1;
        assert(pairs_of(pending, longer) =~= pairs_of(pending, events) + made(last));
        assert(left_waiting(pending, longer) == left_waiting(after, longer.skip(1)));
        assert(left_waiting(pending, events) == left_waiting(after, events.skip(1)));
    }
}

/// The requests among `events`, in their order.
pub open spec fn requests_of(events: Seq<LogEvent>) -> Seq<Request>
    decreases events.len(),
{
    if events.len() == 0 {
        Seq::empty()
    } else {
        match events[0] {
            LogEvent::Request(request) => seq![request] + requests_of(events.skip(1)),
            LogEvent::Response(_) => requests_of(events.skip(1)),
        }
    }
}

/// The responses among `events`, in their order.
pub open spec fn responses_of(events: Seq<LogEvent>) -> Seq<Response>
    decreases events.len(),
{
    if events.len() == 0 {
        Seq::empty()
    } else {
        match events[0] {
            LogEvent::Request(_) => responses_of(events.skip(1)),
            LogEvent::Response(response) => seq![response] + responses_of(events.skip(1)),
        }
    }
}

/// The requests of `pairs`, in their order.
pub open spec fn requests_in(pairs: Seq<RequestResponsePair>) -> Seq<Request> {
    pairs.map_values(|p: RequestResponsePair| p.request)
}

/// The responses of `pairs`, in their order.
pub open spec fn responses_in(pairs: Seq<RequestResponsePair>) -> Seq<Response> {
    pairs.map_values(|p: RequestResponsePair| p.response)
}

proof fn lemma_one_more_in_front<A>(x: A, s: Seq<A>)
    ensures
        (seq![x] + s).to_multiset() == s.to_multiset().insert(x),
{
    assert(seq![x] + s =~= s.insert(0, x));
    vstd::seq_lib::to_multiset_insert(s, 0, x);
}

/// Every request of a run is at its end in exactly one place, and as often
/// as it came: in a pair, or among the requests that still wait. So is every
/// response. No event is used for two pairs, and none is lost.
pub proof fn lemma_events_are_kept(pending: Pending, events: Seq<LogEvent>)
    ensures
        pending.requests.to_multiset().add(requests_of(events).to_multiset()) == left_waiting(
            pending,
            events,
        ).requests.to_multiset().add(requests_in(pairs_of(pending, events)).to_multiset()),
        pending.responses.to_multiset().add(responses_of(events).to_multiset()) == left_waiting(
            pending,
            events,
        ).responses.to_multiset().add(responses_in(pairs_of(pending, events)).to_multiset()),
    decreases events.len(),
{
    broadcast use vstd::multiset::group_multiset_axioms;

    let left = left_waiting(pending, events);
    let pairs = pairs_of(pending, events);
    if events.len() == 0 {
        assert(requests_in(pairs) =~= requests_of(events));
        assert(responses_in(pairs) =~= responses_of(events));
    } else {
        let (after, pair) = step(pending, events[0]);
        let rest_events = events.skip(1);
        let rest = pairs_of(after, rest_events);
        lemma_events_are_kept(after, rest_events);
        assert(left == left_waiting(after, rest_events));
        request_ids(pending.requests).index_of_first_ensures(events[0]->Response_0.id);
        response_ids(pending.responses).index_of_first_ensures(events[0]->Request_0.id);
        // The requests and the responses: that wait, of the events, and of
        // the pairs; before the first event and after it.
        let a = pending.requests.to_multiset();
        let a_after = after.requests.to_multiset();
        let e = requests_of(events).to_multiset();
        let e_rest = requests_of(rest_events).to_multiset();
        let p = requests_in(pairs).to_multiset();
        let p_rest = requests_in(rest).to_multiset();
        let l = left.requests.to_multiset();
        let b = pending.responses.to_multiset();
        let b_after = after.responses.to_multiset();
        let f = responses_of(events).to_multiset();
        let f_rest = responses_of(rest_events).to_multiset();
        let q = responses_in(pairs).to_multiset();
        let q_rest = responses_in(rest).to_multiset();
        let m = left.responses.to_multiset();
        assert(a_after.add(e_rest) == l.add(p_rest));
        assert(b_after.add(f_rest) == m.add(q_rest));
        match events[0] {
            LogEvent::Request(request) => {
                lemma_one_more_in_front(request, requests_of(rest_events));
                assert(e == e_rest.insert(request));
                assert(f == f_rest);
                match response_ids(pending.responses).index_of_first(request.id) {
                    Some(j) => {
                        let response = pending.responses[j];
                        assert(pairs == seq![pair->0] + rest);
                        assert(requests_in(pairs) =~= seq![request] + requests_in(rest));
                        assert(responses_in(pairs) =~= seq![response] + responses_in(rest));
                        lemma_one_more_in_front(request, requests_in(rest));
                        lemma_one_more_in_front(response, responses_in(rest));
                        vstd::seq_lib::to_multiset_remove(pending.responses, j);
                        vstd::seq_lib::to_multiset_contains(pending.responses, response);
                        assert(a_after == a);
                        assert(b =~= b_after.insert(response));
                        assert(a.add(e) =~= a_after.add(e_rest).insert(request));
                        assert(l.add(p) =~= l.add(p_rest).insert(request));
                        assert(b.add(f) =~= b_after.add(f_rest).insert(response));
                        assert(m.add(q) =~= m.add(q_rest).insert(response));
                    },
                    None => {
                        vstd::seq_lib::to_multiset_build(pending.requests, request);
                        assert(pairs == rest);
                        assert(a_after == a.insert(request));
                        assert(b_after == b);
                        assert(a.add(e) =~= a_after.add(e_rest));
                    },
                }
            },
            LogEvent::Response(response) => {
                lemma_one_more_in_front(response, responses_of(rest_events));
                assert(f == f_rest.insert(response));
                assert(e == e_rest);
                match request_ids(pending.requests).index_of_first(response.id) {
                    Some(i) => {
                        let request = pending.requests[i];
                        assert(pairs == seq![pair->0] + rest);
                        assert(requests_in(pairs) =~= seq![request] + requests_in(rest));
                        assert(responses_in(pairs) =~= seq![response] + responses_in(rest));
                        lemma_one_more_in_front(request, requests_in(rest));
                        lemma_one_more_in_front(response, responses_in(rest));
                        vstd::seq_lib::to_multiset_remove(pending.requests, i);
                        vstd::seq_lib::to_multiset_contains(pending.requests, request);
                        assert(b_after == b);
                        assert(a =~= a_after.insert(request));
                        assert(b.add(f) =~= b_after.add(f_rest).insert(response));
                        assert(m.add(q) =~= m.add(q_rest).insert(response));
                        assert(a.add(e) =~= a_after.add(e_rest).insert(request));
                        assert(l.add(p) =~= l.add(p_rest).insert(request));
                    },
                    None => {
                        vstd::seq_lib::to_multiset_build(pending.responses, response);
                        assert(pairs == rest);
                        assert(b_after == b.insert(response));
                        assert(a_after == a);
                        assert(b.add(f) =~= b_after.add(f_rest));
                    },
                }
            },
        }
    }
}

/// A run over two sequences of events, one after the other, is the run over
/// the first, and then the run over the second from what waits after the
/// first.
pub proof fn lemma_run_append(pending: Pending, first: Seq<LogEvent>, second: Seq<LogEvent>)
    ensures
        left_waiting(pending, first + second) == left_waiting(
            left_waiting(pending, first),
            second,
        ),
        pairs_of(pending, first + second) == pairs_of(pending, first) + pairs_of(
            left_waiting(pending, first),
            second,
        ),
    decreases first.len(),
{
    let both = first + second;
    if first.len() == 0 {
        assert(both =~= second);
        assert(pairs_of(pending, first) + pairs_of(pending, second) =~= pairs_of(
            pending,
            second,
        ));
    } else {
        let (after, pair) = step(pending, first[0]);
        assert(both[0] == first[0]);
        assert(both.skip(1) =~= first.skip(1) + second);
        lemma_run_append(after, first.skip(1), second);
        assert(left_waiting(pending, both) == left_waiting(after, both.skip(1)));
        assert(left_waiting(pending, first) == left_waiting(after, first.skip(1)));
        assert(pairs_of(pending, both) =~= pairs_of(pending, first) + pairs_of(
            left_waiting(pending, first),
            second,
        ));
    }
}

/// What waits at the end of a run waited at its start or arrived in it.
pub proof fn lemma_left_waiting_came(pending: Pending, events: Seq<LogEvent>)
    ensures
        forall|k: int|
            0 <= k < left_waiting(pending, events).requests.len() ==> has_request(
                pending,
                events,
                #[trigger] left_waiting(pending, events).requests[k],
            ),
        forall|k: int|
            0 <= k < left_waiting(pending, events).responses.len() ==> has_response(
                pending,
                events,
                #[trigger] left_waiting(pending, events).responses[k],
            ),
    decreases events.len(),
{
    let left = left_waiting(pending, events);
    if events.len() != 0 {
        let after = step(pending, events[0]).0;
        let rest = events.skip(1);
        lemma_left_waiting_came(after, rest);
        lemma_step_takes_nothing_new(pending, events);
        assert(left == left_waiting(after, rest));
        assert forall|k: int| 0 <= k < left.requests.len() implies has_request(
            pending,
            events,
            #[trigger] left.requests[k],
        ) by {
            assert(has_request(after, rest, left.requests[k]));
        }
        assert forall|k: int| 0 <= k < left.responses.len() implies has_response(
            pending,
            events,
            #[trigger] left.responses[k],
        ) by {
            assert(has_response(after, rest, left.responses[k]));
        }
    }
}

/// No response among `events` has the id `id`.
pub open spec fn no_response_with(events: Seq<LogEvent>, id: i32) -> bool {
    forall|m: int|
        0 <= m < events.len() && (#[trigger] events[m]) is Response
            ==> events[m]->Response_0.id != id
}

/// The same events wait in `with` and in `without`, but for the request
/// `request`, which waits in `with` at the place `k`.
pub open spec fn differ_by_request(with: Pending, without: Pending, request: Request, k: int) -> bool {
    &&& 0 <= k <= without.requests.len()
    &&& with.requests == without.requests.insert(k, request)
    &&& with.responses == without.responses
}

/// A request that waits, and whose id no response has that waits or is still
/// to come, makes no difference to the pairs that are made.
pub proof fn lemma_waiting_request_changes_nothing(
    with: Pending,
    without: Pending,
    request: Request,
    k: int,
    events: Seq<LogEvent>,
)
    requires
        differ_by_request(with, without, request, k),
        forall|j: int|
            0 <= j < without.responses.len() ==> (#[trigger] without.responses[j]).id
                != request.id,
        no_response_with(events, request.id),
    ensures
        pairs_of(with, events) == pairs_of(without, events),
    decreases events.len(),
{
    if events.len() != 0 {
        let event = events[0];
        let rest = events.skip(1);
        let (with_after, with_pair) = step(with, event);
        let (without_after, without_pair) = step(without, event);
        assert(no_response_with(rest, request.id)) by {
            assert forall|m: int| 0 <= m < rest.len() && (#[trigger] rest[m]) is Response implies rest[m]->Response_0.id
                != request.id by {
                assert(rest[m] == events[m + 1]);
            }
        }
        match event {
            LogEvent::Request(arrived) => {
                let ids = response_ids(without.responses);
                ids.index_of_first_ensures(arrived.id);
                match ids.index_of_first(arrived.id) {
                    Some(j) => {
                        assert forall|m: int|
                            0 <= m < without_after.responses.len() implies (
                        #[trigger] without_after.responses[m]).id != request.id by {
                            let m0 = if m < j { m } else { m + 1 };
                            assert(without_after.responses[m] == without.responses[m0]);
                        }
                        lemma_waiting_request_changes_nothing(
                            with_after,
                            without_after,
                            request,
                            k,
                            rest,
                        );
                    },
                    None => {
                        assert(with.requests.push(arrived) =~= without.requests.push(
                            arrived,
                        ).insert(k, request));
                        lemma_waiting_request_changes_nothing(
                            with_after,
                            without_after,
                            request,
                            k,
                            rest,
                        );
                    },
                }
            },
            LogEvent::Response(arrived) => {
                assert(events[0] is Response);
                assert(arrived.id != request.id);
                let ids = request_ids(without.requests);
                let with_ids = request_ids(with.requests);
                ids.index_of_first_ensures(arrived.id);
                match ids.index_of_first(arrived.id) {
                    Some(i) => {
                        let i1 = if i < k { i } else { i + 1 };
                        let k1 = if i < k { k - 1 } else { k };
                        assert(ids[i] == without.requests[i].id);
                        assert(with.requests[i1] == without.requests[i]);
                        assert forall|m: int| 0 <= m < i1 implies with_ids[m] != arrived.id by {
                            if m < k {
                                assert(with.requests[m] == without.requests[m]);
                                assert(ids[m] == without.requests[m].id);
                            } else if m == k {
                                assert(with.requests[m] == request);
                            } else {
                                assert(with.requests[m] == without.requests[m - 1]);
                                assert(ids[m - 1] == without.requests[m - 1].id);
                            }
                        }
                        crate::request_response_matcher::lemma_index_of_first_is(
                            with_ids,
                            arrived.id,
                            i1,
                        );
                        assert(with.requests.remove(i1) =~= without.requests.remove(i).insert(
                            k1,
                            request,
                        ));
                        lemma_waiting_request_changes_nothing(
                            with_after,
                            without_after,
                            request,
                            k1,
                            rest,
                        );
                    },
                    None => {
                        assert forall|m: int| 0 <= m < with_ids.len() implies with_ids[m]
                            != arrived.id by {
                            if m < k {
                                assert(with.requests[m] == without.requests[m]);
                                assert(ids[m] == without.requests[m].id);
                            } else if m == k {
                                assert(with.requests[m] == request);
                            } else {
                                assert(with.requests[m] == without.requests[m - 1]);
                                assert(ids[m - 1] == without.requests[m - 1].id);
                            }
                        }
                        crate::request_response_matcher::lemma_index_of_first_none(
                            with_ids,
                            arrived.id,
                        );
                        assert forall|m: int|
                            0 <= m < without_after.responses.len() implies (
                        #[trigger] without_after.responses[m]).id != request.id by {
                            if m < without.responses.len() {
                                assert(without_after.responses[m] == without.responses[m]);
                            }
                        }
                        lemma_waiting_request_changes_nothing(
                            with_after,
                            without_after,
                            request,
                            k,
                            rest,
                        );
                    },
                }
            },
        }
    }
}

/// A request whose id no response of the run has makes no difference to the
/// run: the pairs are those of the run without it, wherever among the
/// events it stands.
pub proof fn lemma_unanswered_request_contributes_nothing(
    before: Seq<LogEvent>,
    request: Request,
    after: Seq<LogEvent>,
)
    requires
        no_response_with(before, request.id),
        no_response_with(after, request.id),
    ensures
        matched_pairs(before + seq![LogEvent::Request(request)] + after) == matched_pairs(
            before + after,
        ),
{
    let nothing = Pending::empty();
    let event = LogEvent::Request(request);
    let waiting = left_waiting(nothing, before);
    let tail = seq![event] + after;
    assert(before + seq![event] + after =~= before + tail);
    lemma_run_append(nothing, before, tail);
    lemma_run_append(nothing, before, after);
    // What waits after the events before the request holds no response
    // with its id, so that the request finds no partner and waits.
    lemma_left_waiting_came(nothing, before);
    assert forall|j: int| 0 <= j < waiting.responses.len() implies (
    #[trigger] waiting.responses[j]).id != request.id by {
        let response = waiting.responses[j];
        assert(has_response(nothing, before, response));
        let m = choose|m: int| 0 <= m < before.len() && before[m] == LogEvent::Response(response);
        assert(before[m] is Response);
    }
    let ids = response_ids(waiting.responses);
    assert forall|j: int| 0 <= j < ids.len() implies ids[j] != request.id by {
        assert(ids[j] == waiting.responses[j].id);
    }
    crate::request_response_matcher::lemma_index_of_first_none(ids, request.id);
    let (with, pair) = step(waiting, event);
    assert(pair is None);
    assert(tail[0] == event);
    assert(tail.skip(1) =~= after);
    assert(pairs_of(waiting, tail) == pairs_of(with, after));
    assert(with.requests =~= waiting.requests.insert(waiting.requests.len() as int, request));
    lemma_waiting_request_changes_nothing(
        with,
        waiting,
        request,
        waiting.requests.len() as int,
        after,
    );
}

} // verus!
