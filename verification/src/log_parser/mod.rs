//! Reading one line of the log as an event.

pub mod log_events;

use crate::log_parser::log_events::{LogEvent, Request, Response};
use crate::text::{contains, is_substring};
use vstd::prelude::*;
use vstd::string::*;

verus! {

/// `line` is taken for a request: it holds the arrow `->`.
pub open spec fn is_request_line(line: Seq<char>) -> bool {
    is_substring("->"@, line)
}

/// `line` is taken for a response: it holds the arrow `<-` and not the
/// arrow `->`.
pub open spec fn is_response_line(line: Seq<char>) -> bool {
    !is_substring("->"@, line) && is_substring("<-"@, line)
}

/// `result` is what the line `line` reads as.
pub open spec fn reads_as(line: Seq<char>, result: Result<LogEvent, &'static str>) -> bool {
    match result {
        Ok(LogEvent::Request(request)) => is_request_line(line) && request.reads(line),
        Ok(LogEvent::Response(response)) => is_response_line(line) && response.reads(line),
        Err(e) => if is_request_line(line) {
            Request::fields(line) is None && e@ == "Uncomprehensible request logline"@
        } else if is_response_line(line) {
            Response::fields(line) is None && e@ == "Uncomprehensible response logline"@
        } else {
            e@ == "Line is neither a Request nor a Response"@
        },
    }
}

/// Reads one line of the log: as a request where it holds `->`, else as a
/// response where it holds `<-`.
pub fn parse_line(line: &String) -> (result: Result<LogEvent, &'static str>)
    ensures
        reads_as(line@, result),
{
    if contains(line.as_str(), "->") {
        return match Request::new_from_log_line(line) {
            Ok(request) => Ok(LogEvent::Request(request)),
            Err(err) => Err(err),
        };
    }
    if contains(line.as_str(), "<-") {
        return match Response::new_from_log_line(line) {
            Ok(response) => Ok(LogEvent::Response(response)),
            Err(err) => Err(err),
        };
    }
    Err("Line is neither a Request nor a Response")
}

/// `line` reports an event: a request or a response that can be read.
pub open spec fn is_event(line: Seq<char>) -> bool {
    ||| is_request_line(line) && Request::fields(line) is Some
    ||| is_response_line(line) && Response::fields(line) is Some
}

/// `events` are what `lines` report, in their order: one event for each
/// line that reports one, and none for the others.
pub open spec fn events_read(lines: Seq<String>, events: Seq<LogEvent>) -> bool
    decreases lines.len(),
{
    if lines.len() == 0 {
        events.len() == 0
    } else if is_event(lines.last()@) {
        &&& events.len() > 0
        &&& reads_as(lines.last()@, Ok(events.last()))
        &&& events_read(lines.drop_last(), events.drop_last())
    } else {
        events_read(lines.drop_last(), events)
    }
}

/// The events that `lines` report. A line that reports none is passed
/// over.
pub fn parse(lines: &Vec<String>) -> (events: Vec<LogEvent>)
    ensures
        events_read(lines@, events@),
{
    let mut events: Vec<LogEvent> = Vec::new();
    let mut i: usize = 0;
    assert(lines@.take(0) =~= Seq::<String>::empty());
    while i < lines.len()
        invariant
            i <= lines.len(),
            events_read(lines@.take(i as int), events@),
        decreases lines.len() - i,
    {
        let ghost before = events@;
        let ghost next = lines@.take(i + 1);
        assert(next.drop_last() =~= lines@.take(i as int));
        assert(next.last() == lines@[i as int]);
        match parse_line(&lines[i]) {
            Ok(event) => {
                events.push(event);
                assert(events@.drop_last() =~= before);
            },
            Err(_) => {},
        }
        i += 1;
    }
    assert(lines@.take(i as int) =~= lines@);
    events
}

} // verus!
