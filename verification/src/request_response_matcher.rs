//! Pairs each request with the response that answers it, in one pass over the
//! events, whichever of the two comes first.

use crate::id_queues::{
    lemma_with_id_first,
    lemma_with_id_push,
    lemma_with_id_remove,
    IdQueues,
};
use crate::log_parser::log_events::{sorted_by_id, LogEvent, Request, Response};
use std::collections::VecDeque;
use vstd::prelude::*;

verus! {

/// A request and the response with the same id.
#[derive(Clone, Debug, PartialEq)]
pub struct RequestResponsePair {
    pub request: Request,
    pub response: Response,
}

/// The id of a request.
pub open spec fn request_id() -> spec_fn(Request) -> i32 {
    |r: Request| r.id
}

/// The id of a response.
pub open spec fn response_id() -> spec_fn(Response) -> i32 {
    |r: Response| r.id
}

/// The ids of `requests`, in order.
pub open spec fn request_ids(requests: Seq<Request>) -> Seq<i32> {
    requests.map_values(request_id())
}

/// The ids of `responses`, in order.
pub open spec fn response_ids(responses: Seq<Response>) -> Seq<i32> {
    responses.map_values(response_id())
}

/// For each of `requests`, whether one of `responses` has its id.
pub open spec fn answered(requests: Seq<Request>, responses: Seq<Response>) -> Seq<bool> {
    requests.map_values(|r: Request| response_ids(responses).contains(r.id))
}

/// The first of `requests` that one of `responses` answers, with the first
/// response that answers it: the places of the two.
pub open spec fn first_match(requests: Seq<Request>, responses: Seq<Response>) -> Option<
    (int, int),
> {
    match answered(requests, responses).index_of_first(true) {
        Some(i) => match response_ids(responses).index_of_first(requests[i].id) {
            Some(j) => Some((i, j)),
            None => None,
        },
        None => None,
    }
}

/// The first place of a value is the place where it stands with none before it.
pub proof fn lemma_index_of_first_is<A>(s: Seq<A>, needle: A, k: int)
    requires
        0 <= k < s.len(),
        s[k] == needle,
        forall|m: int| 0 <= m < k ==> s[m] != needle,
    ensures
        s.index_of_first(needle) == Some(k),
{
    s.index_of_first_ensures(needle);
    assert(s.contains(needle));
}

/// A value that stands nowhere has no first place.
pub proof fn lemma_index_of_first_none<A>(s: Seq<A>, needle: A)
    requires
        forall|m: int| 0 <= m < s.len() ==> s[m] != needle,
    ensures
        s.index_of_first(needle) is None,
{
    s.index_of_first_ensures(needle);
}

fn position_of_response(responses: &Vec<Response>, id: i32) -> (position: Option<usize>)
    ensures
        match position {
            Some(j) => response_ids(responses@).index_of_first(id) == Some(j as int) && j
                < responses.len(),
            None => response_ids(responses@).index_of_first(id) is None,
        },
{
    let mut j: usize = 0;
    while j < responses.len()
        invariant
            j <= responses.len(),
            forall|m: int| 0 <= m < j ==> response_ids(responses@)[m] != id,
        decreases responses.len() - j,
    {
        if responses[j].id == id {
            proof {
                lemma_index_of_first_is(response_ids(responses@), id, j as int);
            }
            return Some(j);
        }
        j += 1;
    }
    proof {
        lemma_index_of_first_none(response_ids(responses@), id);
    }
    None
}

/// Takes out of `requests` the first request that one of `responses`
/// answers, and out of `responses` the first response that answers it.
/// Where no request is answered, both stay as they are.
pub fn extract_first_matching_request_response_pair(
    requests: &mut Vec<Request>,
    responses: &mut Vec<Response>,
) -> (pair: Option<RequestResponsePair>)
    ensures
        match (first_match(old(requests)@, old(responses)@), pair) {
            (Some((i, j)), Some(p)) => {
                &&& p.request == old(requests)@[i]
                &&& p.response == old(responses)@[j]
                &&& final(requests)@ == old(requests)@.remove(i)
                &&& final(responses)@ == old(responses)@.remove(j)
            },
            (None, None) => {
                &&& final(requests)@ == old(requests)@
                &&& final(responses)@ == old(responses)@
            },
            _ => false,
        },
{
    let mut request_index: usize = 0;
    while request_index < requests.len()
        invariant
            request_index <= requests.len(),
            requests@ == old(requests)@,
            responses@ == old(responses)@,
            forall|m: int| 0 <= m < request_index ==> !answered(requests@, responses@)[m],
        decreases requests.len() - request_index,
    {
        let matching_response_index = position_of_response(responses, requests[request_index].id);
        proof {
            response_ids(responses@).index_of_first_ensures(requests@[request_index as int].id);
        }
        match matching_response_index {
            Some(response_index) => {
                proof {
                    lemma_index_of_first_is(
                        answered(requests@, responses@),
                        true,
                        request_index as int,
                    );
                }
                let request = requests.remove(request_index);
                let response = responses.remove(response_index);
                return Some(RequestResponsePair { request, response });
            },
            None => {},
        }
        request_index += 1;
    }
    proof {
        lemma_index_of_first_none(answered(requests@, responses@), true);
    }
    None
}

/// The events that wait for their partner, each side in the order of
/// arrival.
pub struct Pending {
    pub requests: Seq<Request>,
    pub responses: Seq<Response>,
}

impl Pending {
    /// Nothing waits.
    pub open spec fn empty() -> Pending {
        Pending { requests: Seq::empty(), responses: Seq::empty() }
    }

    /// No request that waits has the id of a response that waits.
    pub open spec fn wf(self) -> bool {
        forall|i: int, j: int|
            0 <= i < self.requests.len() && 0 <= j < self.responses.len() ==> (
            #[trigger] self.requests[i]).id != (#[trigger] self.responses[j]).id
    }
}

/// What one event does. A request is paired with the oldest response that
/// waits with its id, and that response waits no longer; without one, the
/// request waits, behind those that wait already. A response likewise, with
/// the oldest request that waits with its id.
pub open spec fn step(pending: Pending, event: LogEvent) -> (Pending, Option<RequestResponsePair>) {
    match event {
        LogEvent::Request(request) => match response_ids(pending.responses).index_of_first(
            request.id,
        ) {
            Some(j) => (
                Pending { requests: pending.requests, responses: pending.responses.remove(j) },
                Some(RequestResponsePair { request, response: pending.responses[j] }),
            ),
            None => (
                Pending {
                    requests: pending.requests.push(request),
                    responses: pending.responses,
                },
                None,
            ),
        },
        LogEvent::Response(response) => match request_ids(pending.requests).index_of_first(
            response.id,
        ) {
            Some(i) => (
                Pending { requests: pending.requests.remove(i), responses: pending.responses },
                Some(RequestResponsePair { request: pending.requests[i], response }),
            ),
            None => (
                Pending {
                    requests: pending.requests,
                    responses: pending.responses.push(response),
                },
                None,
            ),
        },
    }
}

/// Takes events from the front of `events` up to the first that makes a
/// pair: what waits then, the events that are left, and the pair. Without
/// such an event all are taken and there is no pair.
pub open spec fn advance(pending: Pending, events: Seq<LogEvent>) -> (
    Pending,
    Seq<LogEvent>,
    Option<RequestResponsePair>,
)
    decreases events.len(),
{
    if events.len() == 0 {
        (pending, events, None)
    } else {
        let (after, pair) = step(pending, events[0]);
        if pair is Some {
            (after, events.skip(1), pair)
        } else {
            advance(after, events.skip(1))
        }
    }
}

/// The pairs that `events` make, in the order in which they are made, where
/// `pending` waits at the start.
pub open spec fn pairs_of(pending: Pending, events: Seq<LogEvent>) -> Seq<RequestResponsePair>
    decreases events.len(),
{
    if events.len() == 0 {
        Seq::empty()
    } else {
        let (after, pair) = step(pending, events[0]);
        let rest = pairs_of(after, events.skip(1));
        match pair {
            Some(p) => seq![p] + rest,
            None => rest,
        }
    }
}

/// The pairs that a run over `events` makes.
pub open spec fn matched_pairs(events: Seq<LogEvent>) -> Seq<RequestResponsePair> {
    pairs_of(Pending::empty(), events)
}

/// What waits after an event: what waited, with the event where it found no
/// partner, and without its partner where it found one.
pub proof fn lemma_step_keeps_wf(pending: Pending, event: LogEvent)
    requires
        pending.wf(),
    ensures
        step(pending, event).0.wf(),
{
    let after = step(pending, event).0;
    match event {
        LogEvent::Request(request) => {
            let ids = response_ids(pending.responses);
            ids.index_of_first_ensures(request.id);
            match ids.index_of_first(request.id) {
                Some(j) => {
                    assert forall|a: int, b: int|
                        0 <= a < after.requests.len() && 0 <= b < after.responses.len() implies (
                    #[trigger] after.requests[a]).id != (#[trigger] after.responses[b]).id by {
                        let b0 = if b < j {
                            b
                        } else {
                            b + 1
                        };
                        assert(after.responses[b] == pending.responses[b0]);
                        assert(pending.requests[a].id != pending.responses[b0].id);
                    }
                },
                None => {
                    assert forall|a: int, b: int|
                        0 <= a < after.requests.len() && 0 <= b < after.responses.len() implies (
                    #[trigger] after.requests[a]).id != (#[trigger] after.responses[b]).id by {
                        if a < pending.requests.len() {
                            assert(pending.requests[a].id != pending.responses[b].id);
                        } else {
                            assert(ids[b] == pending.responses[b].id);
                        }
                    }
                },
            }
        },
        LogEvent::Response(response) => {
            let ids = request_ids(pending.requests);
            ids.index_of_first_ensures(response.id);
            match ids.index_of_first(response.id) {
                Some(i) => {
                    assert forall|a: int, b: int|
                        0 <= a < after.requests.len() && 0 <= b < after.responses.len() implies (
                    #[trigger] after.requests[a]).id != (#[trigger] after.responses[b]).id by {
                        let a0 = if a < i {
                            a
                        } else {
                            a + 1
                        };
                        assert(after.requests[a] == pending.requests[a0]);
                        assert(pending.requests[a0].id != pending.responses[b].id);
                    }
                },
                None => {
                    assert forall|a: int, b: int|
                        0 <= a < after.requests.len() && 0 <= b < after.responses.len() implies (
                    #[trigger] after.requests[a]).id != (#[trigger] after.responses[b]).id by {
                        if b < pending.responses.len() {
                            assert(pending.requests[a].id != pending.responses[b].id);
                        } else {
                            assert(ids[a] == pending.requests[a].id);
                        }
                    }
                },
            }
        },
    }
}

/// Where no request that waits is answered, and a request arrives, the
/// first match among the requests and the responses is the new request with
/// the oldest response of its id: the pair that the step makes.
pub proof fn lemma_first_match_after_request(pending: Pending, request: Request)
    requires
        pending.wf(),
    ensures
        first_match(pending.requests.push(request), pending.responses) == (match response_ids(
            pending.responses,
        ).index_of_first(request.id) {
            Some(j) => Some((pending.requests.len() as int, j)),
            None => None,
        }),
{
    let requests = pending.requests.push(request);
    let ids = response_ids(pending.responses);
    let flags = answered(requests, pending.responses);
    let n = pending.requests.len() as int;
    ids.index_of_first_ensures(request.id);
    assert forall|m: int| 0 <= m < n implies flags[m] != true by {
        if ids.contains(requests[m].id) {
            let j = choose|j: int| 0 <= j < ids.len() && ids[j] == requests[m].id;
            assert(pending.requests[m].id != pending.responses[j].id);
        }
    }
    assert(requests[n] == request);
    if ids.contains(request.id) {
        lemma_index_of_first_is(flags, true, n);
    } else {
        lemma_index_of_first_none(flags, true);
    }
}

/// Where no request that waits is answered, and a response arrives, the
/// first match among the requests and the responses is the oldest request of
/// its id with the new response: the pair that the step makes.
pub proof fn lemma_first_match_after_response(pending: Pending, response: Response)
    requires
        pending.wf(),
    ensures
        first_match(pending.requests, pending.responses.push(response)) == (match request_ids(
            pending.requests,
        ).index_of_first(response.id) {
            Some(i) => Some((i, pending.responses.len() as int)),
            None => None,
        }),
{
    let responses = pending.responses.push(response);
    let ids = response_ids(responses);
    let flags = answered(pending.requests, responses);
    let wanted = request_ids(pending.requests);
    let n = pending.responses.len() as int;
    wanted.index_of_first_ensures(response.id);
    assert(ids[n] == response.id);
    assert forall|m: int| 0 <= m < pending.requests.len() implies flags[m] == (wanted[m]
        == response.id) by {
        if ids.contains(pending.requests[m].id) {
            let j = choose|j: int| 0 <= j < ids.len() && ids[j] == pending.requests[m].id;
            if j < n {
                assert(responses[j] == pending.responses[j]);
                assert(pending.requests[m].id != pending.responses[j].id);
            }
        }
        if wanted[m] == response.id {
            assert(ids[n] == pending.requests[m].id);
        }
    }
    match wanted.index_of_first(response.id) {
        Some(i) => {
            lemma_index_of_first_is(flags, true, i);
            assert forall|m: int| 0 <= m < n implies ids[m] != pending.requests[i].id by {
                assert(responses[m] == pending.responses[m]);
                assert(pending.requests[i].id != pending.responses[m].id);
            }
            lemma_index_of_first_is(ids, pending.requests[i].id, n);
        },
        None => {
            lemma_index_of_first_none(flags, true);
        },
    }
}

/// The pairs of a run are the pair at which `advance` stops, and then the
/// pairs of the run from there.
pub proof fn lemma_pairs_of_advance(pending: Pending, events: Seq<LogEvent>)
    ensures
        pairs_of(pending, events) == (match advance(pending, events) {
            (after, rest, Some(p)) => seq![p] + pairs_of(after, rest),
            (_, _, None) => Seq::empty(),
        }),
    decreases events.len(),
{
    if events.len() != 0 {
        let (after, pair) = step(pending, events[0]);
        if pair is None {
            lemma_pairs_of_advance(after, events.skip(1));
        }
    }
}

/// `advance` leaves the waiting events well-formed, and takes at least one
/// event where it makes a pair.
pub proof fn lemma_advance_keeps_wf(pending: Pending, events: Seq<LogEvent>)
    requires
        pending.wf(),
    ensures
        advance(pending, events).0.wf(),
        advance(pending, events).1.len() <= events.len(),
        advance(pending, events).2 is Some ==> advance(pending, events).1.len() < events.len(),
    decreases events.len(),
{
    if events.len() != 0 {
        lemma_step_keeps_wf(pending, events[0]);
        let (after, pair) = step(pending, events[0]);
        if pair is None {
            lemma_advance_keeps_wf(after, events.skip(1));
        }
    }
}

/// Walks over the events and hands out the pairs as they are made. What
/// waits is kept in queues by id, so that a partner is found without a
/// search.
pub struct RequestResponsePairIterator {
    events: VecDeque<LogEvent>,
    requests: IdQueues<Request>,
    responses: IdQueues<Response>,
    pending: Ghost<Pending>,
}

impl RequestResponsePairIterator {
    /// The events that were not looked at yet.
    pub closed spec fn remaining(&self) -> Seq<LogEvent> {
        self.events@
    }

    /// The events that wait for their partner.
    pub closed spec fn pending(&self) -> Pending {
        self.pending@
    }

    /// No request that waits has the id of a response that waits, and the
    /// queues hold what waits.
    pub closed spec fn wf(&self) -> bool {
        &&& self.pending@.wf()
        &&& self.requests.holds(self.pending@.requests, request_id())
        &&& self.responses.holds(self.pending@.responses, response_id())
    }

    /// In a well-formed iterator no request that waits has the id of a
    /// response that waits.
    pub proof fn lemma_wf_of_pending(&self)
        requires
            self.wf(),
        ensures
            self.pending().wf(),
    {
    }

    /// An iterator over `events`, with nothing waiting.
    pub fn new(events: Vec<LogEvent>) -> (iterator: RequestResponsePairIterator)
        ensures
            iterator.wf(),
            iterator.pending().wf(),
            iterator.remaining() == events@,
            iterator.pending() == Pending::empty(),
    {
        let mut events = events;
        let ghost all = events@;
        let mut queue: VecDeque<LogEvent> = VecDeque::new();
        loop
            invariant
                events@ + queue@ == all,
            ensures
                events@.len() == 0,
            decreases events.len(),
        {
            match events.pop() {
                Some(event) => {
                    queue.push_front(event);
                    assert(events@ + queue@ =~= all);
                },
                None => {
                    break ;
                },
            }
        }
        assert(queue@ =~= all);
        RequestResponsePairIterator {
            events: queue,
            requests: IdQueues::new(),
            responses: IdQueues::new(),
            pending: Ghost(Pending::empty()),
        }
    }

    /// Puts `event` behind the events that were not looked at yet.
    pub fn push_event(&mut self, event: LogEvent)
        ensures
            final(self).remaining() == old(self).remaining().push(event),
            final(self).pending() == old(self).pending(),
            old(self).wf() ==> final(self).wf() && final(self).pending().wf(),
    {
        self.events.push_back(event);
    }

    /// The next pair: looks at events until one makes a pair. Returns none
    /// once the events are used up; what still waits then stays unpaired.
    pub fn next(&mut self) -> (pair: Option<RequestResponsePair>)
        requires
            old(self).wf(),
        ensures
            final(self).wf(),
            final(self).pending().wf(),
            (final(self).pending(), final(self).remaining(), pair) == advance(
                old(self).pending(),
                old(self).remaining(),
            ),
    {
        loop
            invariant
                self.wf(),
                advance(self.pending(), self.remaining()) == advance(
                    old(self).pending(),
                    old(self).remaining(),
                ),
            decreases self.events.len(),
        {
            let ghost pending = self.pending@;
            let ghost remaining = self.remaining();
            let event = match self.events.pop_front() {
                Some(event) => event,
                None => {
                    return None;
                },
            };
            proof {
                assert(self.events@ =~= remaining.skip(1));
                lemma_step_keeps_wf(pending, event);
            }
            match event {
                LogEvent::Request(request) => {
                    let id = request.id;
                    proof {
                        lemma_with_id_first(pending.responses, response_id(), id);
                    }
                    match self.responses.take_oldest(id) {
                        Some(response) => {
                            proof {
                                let j = response_ids(pending.responses).index_of_first(id)->0;
                                lemma_with_id_remove(pending.responses, response_id(), j);
                            }
                            self.pending = Ghost(step(pending, event).0);
                            return Some(RequestResponsePair { request, response });
                        },
                        None => {
                            proof {
                                lemma_with_id_push(pending.requests, request_id(), request);
                            }
                            self.requests.put(id, request);
                            self.pending = Ghost(step(pending, event).0);
                        },
                    }
                },
                LogEvent::Response(response) => {
                    let id = response.id;
                    proof {
                        lemma_with_id_first(pending.requests, request_id(), id);
                    }
                    match self.requests.take_oldest(id) {
                        Some(request) => {
                            proof {
                                let i = request_ids(pending.requests).index_of_first(id)->0;
                                lemma_with_id_remove(pending.requests, request_id(), i);
                            }
                            self.pending = Ghost(step(pending, event).0);
                            return Some(RequestResponsePair { request, response });
                        },
                        None => {
                            proof {
                                lemma_with_id_push(pending.responses, response_id(), response);
                            }
                            self.responses.put(id, response);
                            self.pending = Ghost(step(pending, event).0);
                        },
                    }
                },
            }
        }
    }
}

/// The pairs that a run over `events` makes, in the order in which they are
/// made.
pub fn match_events(events: Vec<LogEvent>) -> (pairs: Vec<RequestResponsePair>)
    ensures
        pairs@ == matched_pairs(events@),
{
    let mut iterator = RequestResponsePairIterator::new(events);
    let mut pairs: Vec<RequestResponsePair> = Vec::new();
    loop
        invariant
            iterator.wf(),
            matched_pairs(events@) == pairs@ + pairs_of(iterator.pending(), iterator.remaining()),
        decreases iterator.remaining().len(),
    {
        proof {
            lemma_pairs_of_advance(iterator.pending(), iterator.remaining());
            lemma_advance_keeps_wf(iterator.pending(), iterator.remaining());
        }
        match iterator.next() {
            Some(pair) => {
                pairs.push(pair);
            },
            None => {
                return pairs;
            },
        }
    }
}

/// One of `responses` has the id of `request`.
pub open spec fn has_answer(request: Request, responses: Seq<Response>) -> bool {
    exists|j: int| 0 <= j < responses.len() && (#[trigger] responses[j]).id == request.id
}

/// Those of `requests` whose id one of `responses` has, in their order.
pub open spec fn answered_requests(requests: Seq<Request>, responses: Seq<Response>) -> Seq<
    Request,
>
    decreases requests.len(),
{
    if requests.len() == 0 {
        Seq::empty()
    } else {
        let front = answered_requests(requests.drop_last(), responses);
        if has_answer(requests.last(), responses) {
            front.push(requests.last())
        } else {
            front
        }
    }
}

/// The requests of `pairs`, in their order.
pub open spec fn paired_requests(pairs: Seq<RequestResponsePair>) -> Seq<Request> {
    pairs.map_values(|p: RequestResponsePair| p.request)
}

fn copy_of(response: &Response) -> (copy: Response)
    ensures
        copy == *response,
{
    Response {
        id: response.id,
        response_time: response.response_time,
        original_log_line: response.original_log_line.clone(),
        http_error: response.http_error,
    }
}

/// Pairs each request with a response of its id that is looked up among
/// `responses`, as `Request::get_matching_response` finds it. A response is
/// not used up: it answers every request of its id. Where the ids of
/// `responses` are in ascending order, every request that has an answer is
/// paired; in another order the lookup may miss answers.
pub fn pair_requests_responses(requests: Vec<Request>, responses: Vec<Response>) -> (pairs: Vec<
    RequestResponsePair,
>)
    ensures
        forall|k: int|
            0 <= k < pairs.len() ==> {
                let pair = #[trigger] pairs[k];
                &&& pair.request.id == pair.response.id
                &&& requests@.contains(pair.request)
                &&& responses@.contains(pair.response)
            },
        sorted_by_id(responses@) ==> paired_requests(pairs@) == answered_requests(
            requests@,
            responses@,
        ),
{
    let mut pairs: Vec<RequestResponsePair> = Vec::new();
    let ghost all = requests@;
    assert(all.take(0) =~= Seq::<Request>::empty());
    assert(paired_requests(pairs@) =~= Seq::<Request>::empty());
    for request in it: requests
        invariant
            it.seq() == all,
            forall|k: int|
                0 <= k < pairs.len() ==> {
                    let pair = #[trigger] pairs[k];
                    &&& pair.request.id == pair.response.id
                    &&& all.contains(pair.request)
                    &&& responses@.contains(pair.response)
                },
            sorted_by_id(responses@) ==> paired_requests(pairs@) == answered_requests(
                all.take(it.index() as int),
                responses@,
            ),
    {
        let ghost before = pairs@;
        let ghost seen = all.take(it.index() as int);
        let ghost next = all.take(it.index() + 1);
        proof {
            assert(next.drop_last() =~= seen);
            assert(next.last() == request);
            assert(all[it.index() as int] == request);
        }
        let found = match request.get_matching_response(&responses) {
            Some(response) => Some(copy_of(response)),
            None => None,
        };
        match found {
            Some(response) => {
                proof {
                    let j = choose|j: int| 0 <= j < responses@.len() && responses@[j] == response;
                    assert(responses@[j].id == request.id);
                    assert(has_answer(request, responses@));
                }
                pairs.push(RequestResponsePair { request, response });
                proof {
                    assert(paired_requests(pairs@) =~= paired_requests(before).push(request));
                    assert forall|k: int| 0 <= k < pairs.len() implies {
                        let pair = #[trigger] pairs[k];
                        &&& pair.request.id == pair.response.id
                        &&& all.contains(pair.request)
                        &&& responses@.contains(pair.response)
                    } by {
                        if k < before.len() {
                            assert(pairs[k] == before[k]);
                        }
                    }
                }
            },
            None => {},
        }
    }
    assert(all.take(all.len() as int) =~= all);
    pairs
}

} // verus!
