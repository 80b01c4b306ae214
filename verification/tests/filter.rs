use request_log_analyzer::filter::{matches_filter, matches_filter_at, FilterConditions};
use request_log_analyzer::log_parser::log_events::{Request, Response};
use request_log_analyzer::request_response_matcher::RequestResponsePair;
use request_log_analyzer::time::{Duration, Timestamp};

fn get_fixture() -> RequestResponsePair {
    RequestResponsePair {
        request: Request::new_from_log_line(
            &"08/Apr/2016:09:57:47 +0200 [001] -> GET /content/some/page.html HTTP/1.1"
                .to_string(),
        )
        .unwrap(),
        response: Response::new_from_log_line(
            &"08/Apr/2016:09:57:47 +0200 [001] <- 200 text/html 1ms".to_string(),
        )
        .unwrap(),
    }
}

// The present instant, less `minutes`, in the offset of `like`.
fn minutes_ago(minutes: i64, like: Timestamp) -> Timestamp {
    let time = chrono::Utc::now() - chrono::Duration::minutes(minutes);
    Timestamp {
        seconds: time.timestamp(),
        nanoseconds: time.timestamp_subsec_nanos(),
        offset_seconds: like.offset_seconds,
    }
}

fn minutes(n: i64) -> Option<Duration> {
    Duration::minutes(n)
}

#[test]
fn test_filter_none() {
    let pair = get_fixture();

    let conditions = FilterConditions {
        include_terms: None,
        exclude_terms: None,
        latest_time: None,
    };

    let result = matches_filter(&pair, &conditions);

    assert_eq!(result, true);
}

#[test]
fn test_filter_include_request() {
    let pair = get_fixture();

    let conditions = FilterConditions {
        include_terms: Some(vec!["page.html".to_string()]),
        exclude_terms: None,
        latest_time: None,
    };

    let result = matches_filter(&pair, &conditions);

    assert_eq!(result, true);
}

#[test]
fn test_filter_include_response() {
    let pair = get_fixture();

    let conditions = FilterConditions {
        include_terms: Some(vec!["text/html".to_string()]),
        exclude_terms: None,
        latest_time: None,
    };

    let result = matches_filter(&pair, &conditions);

    assert_eq!(result, true);
}

#[test]
fn test_filter_exclude_request() {
    let pair = get_fixture();

    let conditions = FilterConditions {
        include_terms: None,
        exclude_terms: Some(vec!["page.html".to_string()]),
        latest_time: None,
    };

    let result = matches_filter(&pair, &conditions);

    assert_eq!(result, false);
}

#[test]
fn test_filter_exclude_response() {
    let pair = get_fixture();

    let conditions = FilterConditions {
        include_terms: None,
        exclude_terms: Some(vec!["text/html".to_string()]),
        latest_time: None,
    };

    let result = matches_filter(&pair, &conditions);

    assert_eq!(result, false);
}

#[test]
fn test_filter_include_multiple() {
    let pair = get_fixture();

    let conditions = FilterConditions {
        include_terms: Some(vec!["irrelevant.html".to_string(), "page.html".to_string()]),
        exclude_terms: None,
        latest_time: None,
    };

    let result = matches_filter(&pair, &conditions);

    assert_eq!(result, true);
}

#[test]
fn test_filter_exclude_multiple() {
    let pair = get_fixture();

    let conditions = FilterConditions {
        include_terms: None,
        exclude_terms: Some(vec!["irrelevant.html".to_string(), "page.html".to_string()]),
        latest_time: None,
    };

    let result = matches_filter(&pair, &conditions);

    assert_eq!(result, false);
}

#[test]
fn test_filter_time_matches() {
    let mut pair = get_fixture();
    pair.request.time = minutes_ago(0, pair.request.time);

    let conditions = FilterConditions {
        include_terms: None,
        exclude_terms: None,
        latest_time: minutes(10),
    };

    let result = matches_filter(&pair, &conditions);

    assert_eq!(result, true);
}

#[test]
fn test_filter_time_matches_not() {
    let mut pair = get_fixture();
    pair.request.time = minutes_ago(12, pair.request.time);

    let conditions = FilterConditions {
        include_terms: None,
        exclude_terms: None,
        latest_time: minutes(10),
    };

    let result = matches_filter(&pair, &conditions);

    assert_eq!(result, false);
}

#[test]
fn test_filter_old_request_of_the_log() {
    // The request of the fixture was made in 2016.
    let pair = get_fixture();
    let conditions = FilterConditions {
        include_terms: None,
        exclude_terms: None,
        latest_time: minutes(10),
    };
    assert_eq!(matches_filter(&pair, &conditions), false);
}

#[test]
fn test_filter_exclusion_wins_over_inclusion() {
    let pair = get_fixture();

    let conditions = FilterConditions {
        include_terms: Some(vec!["page.html".to_string()]),
        exclude_terms: Some(vec!["page.html".to_string()]),
        latest_time: None,
    };
    assert_eq!(matches_filter(&pair, &conditions), false);

    let conditions = FilterConditions {
        include_terms: Some(vec!["GET".to_string()]),
        exclude_terms: Some(vec!["nothing".to_string(), "text/html".to_string()]),
        latest_time: None,
    };
    assert_eq!(matches_filter(&pair, &conditions), false);
}

#[test]
fn test_filter_include_not_found() {
    let pair = get_fixture();
    let conditions = FilterConditions {
        include_terms: Some(vec!["irrelevant.html".to_string(), "PAGE.HTML".to_string()]),
        exclude_terms: None,
        latest_time: None,
    };
    assert_eq!(matches_filter(&pair, &conditions), false);
}

#[test]
fn test_filter_empty_lists_of_terms() {
    let pair = get_fixture();
    // No term to include can be found, and no term to exclude either.
    let conditions = FilterConditions {
        include_terms: Some(vec![]),
        exclude_terms: None,
        latest_time: None,
    };
    assert_eq!(matches_filter(&pair, &conditions), false);
    let conditions = FilterConditions {
        include_terms: None,
        exclude_terms: Some(vec![]),
        latest_time: None,
    };
    assert_eq!(matches_filter(&pair, &conditions), true);
}

#[test]
fn test_filter_age_is_inclusive_at_its_limit() {
    let mut pair = get_fixture();
    let now = Timestamp {
        seconds: 1000,
        nanoseconds: 500,
        offset_seconds: 0,
    };
    let conditions = FilterConditions {
        include_terms: None,
        exclude_terms: None,
        latest_time: minutes(10),
    };
    let at = |seconds: i64, nanoseconds: u32| Timestamp {
        seconds,
        nanoseconds,
        offset_seconds: 7200,
    };
    pair.request.time = at(400, 500);
    assert_eq!(matches_filter_at(&pair, &conditions, now), true);
    pair.request.time = at(400, 499);
    assert_eq!(matches_filter_at(&pair, &conditions, now), false);
    pair.request.time = at(399, 999_999_999);
    assert_eq!(matches_filter_at(&pair, &conditions, now), false);
    pair.request.time = at(401, 0);
    assert_eq!(matches_filter_at(&pair, &conditions, now), true);
    // A request of the future is not too old.
    pair.request.time = at(5000, 0);
    assert_eq!(matches_filter_at(&pair, &conditions, now), true);
}

#[test]
fn test_filter_age_before_the_epoch() {
    let mut pair = get_fixture();
    let now = Timestamp {
        seconds: 0,
        nanoseconds: 250,
        offset_seconds: 0,
    };
    let conditions = FilterConditions {
        include_terms: None,
        exclude_terms: None,
        latest_time: Some(Duration::milliseconds(1)),
    };
    // The limit is 999750 nanoseconds before the epoch: in the second -1.
    pair.request.time = Timestamp {
        seconds: -1,
        nanoseconds: 999_000_250,
        offset_seconds: 0,
    };
    assert_eq!(matches_filter_at(&pair, &conditions, now), true);
    pair.request.time.nanoseconds = 999_000_249;
    assert_eq!(matches_filter_at(&pair, &conditions, now), false);
    pair.request.time = Timestamp {
        seconds: -2,
        nanoseconds: 999_999_999,
        offset_seconds: 0,
    };
    assert_eq!(matches_filter_at(&pair, &conditions, now), false);
}

#[test]
fn test_filter_age_is_what_chrono_says() {
    let mut pair = get_fixture();
    let now = chrono::DateTime::parse_from_str("08/Apr/2016:10:07:47 +0000", "%d/%b/%Y:%H:%M:%S %z")
        .unwrap();
    let now_here = Timestamp {
        seconds: now.timestamp(),
        nanoseconds: now.timestamp_subsec_nanos(),
        offset_seconds: 0,
    };
    for (text, age) in [
        ("08/Apr/2016:09:57:47 +0000", 10),
        ("08/Apr/2016:09:57:46 +0000", 10),
        ("08/Apr/2016:11:57:47 +0200", 10),
        ("08/Apr/2016:11:57:46 +0200", 10),
        ("08/Apr/2016:04:27:47 -0530", 10),
        ("08/Apr/2016:09:57:47 +0000", 9),
        ("08/Apr/2016:09:57:47 +0000", -10),
        ("08/Apr/2016:10:17:47 +0000", -10),
    ]
    .iter()
    {
        let time = chrono::DateTime::parse_from_str(text, "%d/%b/%Y:%H:%M:%S %z").unwrap();
        let line = format!("{} [001] -> GET /content/some/page.html HTTP/1.1", text);
        pair.request = Request::new_from_log_line(&line).unwrap();
        let conditions = FilterConditions {
            include_terms: None,
            exclude_terms: None,
            latest_time: minutes(*age),
        };
        let expected = time >= now.with_timezone(&time.timezone()) - chrono::Duration::minutes(*age);
        assert_eq!(
            matches_filter_at(&pair, &conditions, now_here),
            expected,
            "{} within {} minutes",
            text,
            age
        );
    }
}

fn get_include_fixture() -> RequestResponsePair {
    RequestResponsePair {
        request: Request::new_from_log_line(
            &"08/Apr/2016:09:57:47 +0200 [001] -> GET /content/some/page.html HTTP/1.1"
                .to_string(),
        )
        .unwrap(),
        response: Response::new_from_log_line(
            &"08/Apr/2016:09:57:47 +0200 [001] <- 200 text/html 7ms".to_string(),
        )
        .unwrap(),
    }
}

#[test]
fn test_matches_include_filter_no_term_given() {
    let pair = get_include_fixture();

    assert_eq!(pair.matches_include_filter(None), true);
}

#[test]
fn test_matches_include_filter_term_found() {
    let pair = get_include_fixture();

    assert_eq!(pair.matches_include_filter(Some(".html")), true);
}

#[test]
fn test_matches_include_filter_term_given_but_not_found() {
    let pair = get_include_fixture();

    assert_eq!(pair.matches_include_filter(Some("not present term")), false);
}

#[test]
fn test_matches_include_filter_term_of_the_response() {
    let pair = get_include_fixture();

    assert_eq!(pair.matches_include_filter(Some("text/html 7ms")), true);
    assert_eq!(pair.matches_include_filter(Some("")), true);
    assert_eq!(pair.matches_include_filter(Some("TEXT/HTML")), false);
}

#[test]
fn test_now_is_a_reading_of_the_clock() {
    let before = chrono::Utc::now().timestamp();
    let now = Timestamp::now();
    let after = chrono::Utc::now().timestamp();
    assert!(before <= now.seconds && now.seconds <= after);
    assert!(now.nanoseconds < 1_000_000_000);
    assert_eq!(now.offset_seconds, 0);
}

#[test]
fn test_filter_request_made_exactly_the_age_before_now() {
    let mut pair = get_fixture();
    let now = Timestamp {
        seconds: 1460102867,
        nanoseconds: 999_999_999,
        offset_seconds: 0,
    };
    let conditions = FilterConditions {
        include_terms: None,
        exclude_terms: None,
        latest_time: minutes(10),
    };
    pair.request.time = Timestamp {
        seconds: now.seconds - 600,
        nanoseconds: now.nanoseconds,
        offset_seconds: 7200,
    };
    assert_eq!(matches_filter_at(&pair, &conditions, now), true);
    pair.request.time.nanoseconds = now.nanoseconds - 1;
    assert_eq!(matches_filter_at(&pair, &conditions, now), false);
}
