use request_log_analyzer::analyzer::aggregated_error_rates::HttpErrorState;
use request_log_analyzer::analyzer::Timing;
use request_log_analyzer::log_parser::log_events::{HttpError, LogEvent, Request, Response};
use request_log_analyzer::request_response_matcher::{
    extract_first_matching_request_response_pair, match_events, pair_requests_responses,
    RequestResponsePair, RequestResponsePairIterator,
};
use request_log_analyzer::time::{Duration, Timestamp};

fn time_of(text: &str) -> Timestamp {
    let time = chrono::DateTime::parse_from_str(text, "%d/%b/%Y:%H:%M:%S %z").unwrap();
    Timestamp {
        seconds: time.timestamp(),
        nanoseconds: time.timestamp_subsec_nanos(),
        offset_seconds: time.offset().local_minus_utc(),
    }
}

fn request(id: i32, line: &str) -> Request {
    Request {
        id,
        time: time_of("08/Apr/2016:09:57:47 +0200"),
        original_log_line: line.to_string(),
    }
}

fn response(id: i32, line: &str) -> Response {
    Response {
        id,
        response_time: Duration::milliseconds(7),
        original_log_line: line.to_string(),
        http_error: None,
    }
}

fn asked(id: i32, line: &str) -> LogEvent {
    LogEvent::Request(request(id, line))
}

fn answered(id: i32, line: &str) -> LogEvent {
    LogEvent::Response(response(id, line))
}

// The lines of the request and of the response of each pair.
fn lines_of(pairs: &Vec<RequestResponsePair>) -> Vec<(String, String)> {
    pairs
        .iter()
        .map(|p| {
            (
                p.request.original_log_line.clone(),
                p.response.original_log_line.clone(),
            )
        })
        .collect()
}

fn named(pairs: &[(&str, &str)]) -> Vec<(String, String)> {
    pairs
        .iter()
        .map(|(q, s)| (q.to_string(), s.to_string()))
        .collect()
}

#[test]
fn test_extract_matching_request_response_pairs_iterator() {
    let events = vec![
        LogEvent::Request(Request {
            id: 1,
            time: time_of("08/Apr/2016:09:57:47 +0200"),
            original_log_line: "whatever".to_string(),
        }),
        LogEvent::Response(Response {
            id: 1,
            response_time: Duration::milliseconds(7),
            original_log_line: "whatever".to_string(),
            http_error: None,
        }),
    ];

    let mut iterator = RequestResponsePairIterator::new(events);

    let result = iterator.next().unwrap();
    assert_eq!(result.request.id, 1);
}

#[test]
fn test_timing_trait() {
    let pair = RequestResponsePair {
        request: Request {
            id: 1,
            time: time_of("08/Apr/2016:09:57:47 +0200"),
            original_log_line: "whatever".to_string(),
        },
        response: Response {
            id: 1,
            response_time: Duration::milliseconds(7),
            original_log_line: "whatever".to_string(),
            http_error: None,
        },
    };
    let timing: &dyn Timing = &pair as &dyn Timing;

    let result: i64 = timing.num_milliseconds();
    assert_eq!(result, 7);

    let boxed_timing = Box::new(timing);

    let result: i64 = boxed_timing.num_milliseconds();
    assert_eq!(result, 7);
}

#[test]
fn test_http_error_state_trait() {
    let pair = RequestResponsePair {
        request: Request {
            id: 1,
            time: time_of("08/Apr/2016:09:57:47 +0200"),
            original_log_line: "whatever".to_string(),
        },
        response: Response {
            id: 1,
            response_time: Duration::milliseconds(7),
            original_log_line: "whatever".to_string(),
            http_error: None,
        },
    };
    let state: &dyn HttpErrorState = &pair as &dyn HttpErrorState;

    let result = state.error();
    assert_eq!(result, None);

    let boxed_state = Box::new(state);

    let result = boxed_state.error();
    assert_eq!(result, None);
}

#[test]
fn test_error_state_of_a_pair_is_that_of_its_response() {
    let mut pair = RequestResponsePair {
        request: request(1, "q"),
        response: response(1, "s"),
    };
    pair.response.http_error = Some(HttpError::ServerError5xx);
    pair.response.response_time = Duration::milliseconds(250);
    assert_eq!(pair.error(), Some(HttpError::ServerError5xx));
    assert_eq!(pair.num_milliseconds(), 250);
}

#[test]
fn test_the_iterator_ends_and_stays_at_its_end() {
    let events = vec![asked(1, "q1"), answered(2, "s2"), asked(3, "q3")];
    let mut iterator = RequestResponsePairIterator::new(events);
    assert_eq!(iterator.next(), None);
    assert_eq!(iterator.next(), None);

    let mut nothing = RequestResponsePairIterator::new(vec![]);
    assert_eq!(nothing.next(), None);
}

#[test]
fn test_unique_ids_are_paired_in_every_order() {
    // Every order of the two requests and the two responses.
    let events = || {
        vec![
            asked(1, "q1"),
            answered(1, "s1"),
            asked(2, "q2"),
            answered(2, "s2"),
        ]
    };
    let orders: Vec<[usize; 4]> = vec![
        [0, 1, 2, 3], [0, 1, 3, 2], [0, 2, 1, 3], [0, 2, 3, 1], [0, 3, 1, 2], [0, 3, 2, 1],
        [1, 0, 2, 3], [1, 0, 3, 2], [1, 2, 0, 3], [1, 2, 3, 0], [1, 3, 0, 2], [1, 3, 2, 0],
        [2, 0, 1, 3], [2, 0, 3, 1], [2, 1, 0, 3], [2, 1, 3, 0], [2, 3, 0, 1], [2, 3, 1, 0],
        [3, 0, 1, 2], [3, 0, 2, 1], [3, 1, 0, 2], [3, 1, 2, 0], [3, 2, 0, 1], [3, 2, 1, 0],
    ];
    for order in orders.iter() {
        let mut all: Vec<Option<LogEvent>> = events().into_iter().map(Some).collect();
        let ordered: Vec<LogEvent> = order.iter().map(|i| all[*i].take().unwrap()).collect();
        let mut pairs = lines_of(&match_events(ordered));
        pairs.sort();
        assert_eq!(pairs, named(&[("q1", "s1"), ("q2", "s2")]), "{:?}", order);
    }
}

#[test]
fn test_pairs_come_in_the_order_in_which_they_are_made() {
    let events = vec![
        asked(1, "q1"),
        asked(2, "q2"),
        asked(3, "q3"),
        answered(3, "s3"),
        answered(1, "s1"),
        answered(4, "s4"),
        asked(4, "q4"),
        answered(2, "s2"),
    ];
    assert_eq!(
        lines_of(&match_events(events)),
        named(&[("q3", "s3"), ("q1", "s1"), ("q4", "s4"), ("q2", "s2")])
    );
}

#[test]
fn test_the_oldest_partner_is_taken() {
    // Two requests wait with the id 5: the response takes the first.
    let events = vec![
        asked(5, "first request"),
        asked(5, "second request"),
        answered(5, "first response"),
        answered(5, "second response"),
    ];
    assert_eq!(
        lines_of(&match_events(events)),
        named(&[
            ("first request", "first response"),
            ("second request", "second response"),
        ])
    );
    // Two responses wait with the id 5: the request takes the first.
    let events = vec![
        answered(5, "first response"),
        answered(6, "other response"),
        answered(5, "second response"),
        asked(5, "first request"),
        asked(5, "second request"),
    ];
    assert_eq!(
        lines_of(&match_events(events)),
        named(&[
            ("first request", "first response"),
            ("second request", "second response"),
        ])
    );
}

#[test]
fn test_an_id_can_be_used_again() {
    let events = vec![
        asked(1, "q1"),
        answered(1, "s1"),
        asked(1, "q1 again"),
        answered(1, "s1 again"),
    ];
    assert_eq!(
        lines_of(&match_events(events)),
        named(&[("q1", "s1"), ("q1 again", "s1 again")])
    );
}

#[test]
fn test_what_finds_no_partner_is_in_no_pair() {
    let events = vec![
        asked(1, "q1"),
        asked(2, "q2"),
        answered(3, "s3"),
        answered(2, "s2"),
    ];
    assert_eq!(lines_of(&match_events(events)), named(&[("q2", "s2")]));
    assert_eq!(match_events(vec![asked(1, "q1")]), vec![]);
    assert_eq!(match_events(vec![answered(1, "s1")]), vec![]);
    assert_eq!(match_events(vec![]), vec![]);
}

#[test]
fn test_events_can_be_handed_in_one_by_one() {
    let mut iterator = RequestResponsePairIterator::new(vec![]);
    iterator.push_event(asked(1, "q1"));
    assert_eq!(iterator.next(), None);
    iterator.push_event(asked(2, "q2"));
    assert_eq!(iterator.next(), None);
    iterator.push_event(answered(2, "s2"));
    let pair = iterator.next().unwrap();
    assert_eq!(pair.request.original_log_line, "q2");
    assert_eq!(pair.response.original_log_line, "s2");
    assert_eq!(iterator.next(), None);
    iterator.push_event(answered(1, "s1"));
    iterator.push_event(answered(9, "s9"));
    let pair = iterator.next().unwrap();
    assert_eq!(pair.request.original_log_line, "q1");
    assert_eq!(pair.response.original_log_line, "s1");
    assert_eq!(iterator.next(), None);
}

#[test]
fn test_extract_first_matching_request_response_pair() {
    let mut requests = vec![request(1, "q1"), request(2, "q2"), request(3, "q3")];
    let mut responses = vec![
        response(3, "s3"),
        response(2, "s2"),
        response(2, "s2 again"),
    ];
    // The first request that is answered is the second one, and the first
    // response with its id is taken.
    let pair = extract_first_matching_request_response_pair(&mut requests, &mut responses).unwrap();
    assert_eq!(pair.request.original_log_line, "q2");
    assert_eq!(pair.response.original_log_line, "s2");
    assert_eq!(requests, vec![request(1, "q1"), request(3, "q3")]);
    assert_eq!(responses, vec![response(3, "s3"), response(2, "s2 again")]);

    let pair = extract_first_matching_request_response_pair(&mut requests, &mut responses).unwrap();
    assert_eq!(pair.request.original_log_line, "q3");
    assert_eq!(pair.response.original_log_line, "s3");

    assert_eq!(
        extract_first_matching_request_response_pair(&mut requests, &mut responses),
        None
    );
    assert_eq!(requests, vec![request(1, "q1")]);
    assert_eq!(responses, vec![response(2, "s2 again")]);
}

#[test]
fn test_pair_requests_responses() {
    let requests = vec![
        request(3, "q3"),
        request(1, "q1"),
        request(9, "q9"),
        request(1, "q1 again"),
    ];
    let responses = vec![response(1, "s1"), response(2, "s2"), response(3, "s3")];
    let pairs = pair_requests_responses(requests, responses);
    // Each request that has an answer, in the order of the requests; the
    // response of the id 1 answers both requests of that id.
    assert_eq!(
        lines_of(&pairs),
        named(&[("q3", "s3"), ("q1", "s1"), ("q1 again", "s1")])
    );
    for pair in pairs.iter() {
        assert_eq!(pair.request.id, pair.response.id);
    }
}

#[test]
fn test_pair_requests_responses_with_nothing() {
    assert_eq!(pair_requests_responses(vec![], vec![]), vec![]);
    assert_eq!(pair_requests_responses(vec![request(1, "q1")], vec![]), vec![]);
    assert_eq!(pair_requests_responses(vec![], vec![response(1, "s1")]), vec![]);
    assert_eq!(
        pair_requests_responses(vec![request(2, "q2")], vec![response(1, "s1")]),
        vec![]
    );
}
