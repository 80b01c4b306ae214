//! A whole run: from the lines of the log to the result.

use crate::analyzer::aggregated_error_rates::HttpErrorState;
use crate::analyzer::{analysis_of, error_states, latencies, observed, Aggregator, Timing};
use crate::args::RequestLogAnalyzerArgs;
use crate::filter::{passes, matches_filter_at, FilterConditions};
use crate::log_parser::log_events::{HttpError, LogEvent};
use crate::log_parser::{events_read, is_event, parse_line, reads_as};
use crate::matcher_laws::{left_waiting, lemma_run_one_more};
use crate::request_response_matcher::{
    advance,
    matched_pairs,
    step,
    Pending,
    RequestResponsePair,
    RequestResponsePairIterator,
};
use crate::result::RequestLogAnalyzerResult;
use crate::time::Timestamp;
use vstd::prelude::*;

verus! {

/// The pairs of `pairs` that meet `conditions`, each at its own time of
/// `times`, in their order.
pub open spec fn passing(
    pairs: Seq<RequestResponsePair>,
    conditions: FilterConditions,
    times: Seq<Timestamp>,
) -> Seq<RequestResponsePair>
    decreases pairs.len(),
{
    if pairs.len() == 0 {
        Seq::empty()
    } else {
        let front = passing(pairs.drop_last(), conditions, times.drop_last());
        if passes(pairs.last(), conditions, times.last()) {
            front.push(pairs.last())
        } else {
            front
        }
    }
}

fn filter_pairs_at_times(pairs: Vec<RequestResponsePair>, conditions: &FilterConditions) -> (kept:
    (Vec<RequestResponsePair>, Ghost<Seq<Timestamp>>))
    ensures
        kept.1@.len() == pairs@.len(),
        are_readings(kept.1@),
        kept.0@ == passing(pairs@, *conditions, kept.1@),
{
    let mut kept: Vec<RequestResponsePair> = Vec::new();
    let ghost mut times: Seq<Timestamp> = Seq::empty();
    let ghost all = pairs@;
    for pair in it: pairs
        invariant
            it.seq() == all,
            times.len() == it.index(),
            are_readings(times),
            kept@ == passing(all.take(it.index() as int), *conditions, times),
    {
        let now = match conditions.latest_time {
            Some(_) => Timestamp::now(),
            None => Timestamp { seconds: 0, nanoseconds: 0, offset_seconds: 0 },
        };
        proof {
            let next = all.take(it.index() + 1);
            assert(next.drop_last() =~= all.take(it.index() as int));
            assert(next.last() == pair);
            assert(times.push(now).drop_last() =~= times);
            times = times.push(now);
        }
        if matches_filter_at(&pair, conditions, now) {
            kept.push(pair);
        }
    }
    assert(all.take(all.len() as int) =~= all);
    (kept, Ghost(times))
}

/// The pairs of `pairs` that meet `conditions`, in their order. The clock is
/// read for each pair as it is looked at, and only where the conditions set
/// a greatest age.
pub fn filter_pairs(pairs: Vec<RequestResponsePair>, conditions: &FilterConditions) -> (kept: Vec<
    RequestResponsePair,
>)
    ensures
        exists|times: Seq<Timestamp>|
            times.len() == pairs@.len() && are_readings(times) && kept@ == passing(
                pairs@,
                *conditions,
                times,
            ),
{
    let (kept, Ghost(times)) = filter_pairs_at_times(pairs, conditions);
    assert(times.len() == pairs@.len() && are_readings(times) && kept@ == passing(
        pairs@,
        *conditions,
        times,
    ));
    kept
}

/// Each of `times` can be a reading of the clock.
pub open spec fn are_readings(times: Seq<Timestamp>) -> bool {
    forall|k: int| 0 <= k < times.len() ==> (#[trigger] times[k]).is_reading()
}

/// `result` is the result of a run over `lines` with `conditions`, each
/// pair looked at at its time of `times`: the statistics of the pairs that
/// the events of the lines make and that meet the conditions.
pub open spec fn is_result_of(
    result: RequestLogAnalyzerResult,
    lines: Seq<String>,
    conditions: FilterConditions,
    events: Seq<LogEvent>,
    times: Seq<Timestamp>,
) -> bool {
    &&& events_read(lines, events)
    &&& times.len() == matched_pairs(events).len()
    &&& are_readings(times)
    &&& result == analysis_of(passing(matched_pairs(events), conditions, times))
}

/// A run that takes in the log line by line. What it keeps is what still
/// waits for its partner and the running statistics, not the lines.
pub struct Pipeline<'a> {
    conditions: &'a FilterConditions,
    matcher: RequestResponsePairIterator,
    aggregator: Aggregator,
    lines: Ghost<Seq<String>>,
    events: Ghost<Seq<LogEvent>>,
    times: Ghost<Seq<Timestamp>>,
}

impl<'a> Pipeline<'a> {
    /// The lines that were taken in, in their order.
    pub closed spec fn lines(&self) -> Seq<String> {
        self.lines@
    }

    /// The conditions that a pair has to meet to be counted.
    pub closed spec fn conditions(&self) -> FilterConditions {
        *self.conditions
    }

    /// The matcher has looked at every event of the lines taken in, and the
    /// statistics are those of the pairs made so far that met the
    /// conditions.
    pub closed spec fn wf(&self) -> bool {
        let kept = passing(matched_pairs(self.events@), *self.conditions, self.times@);
        &&& self.matcher.wf()
        &&& self.aggregator.wf()
        &&& self.matcher.remaining().len() == 0
        &&& self.matcher.pending() == left_waiting(Pending::empty(), self.events@)
        &&& events_read(self.lines@, self.events@)
        &&& self.times@.len() == matched_pairs(self.events@).len()
        &&& are_readings(self.times@)
        &&& self.aggregator.latencies() == latencies(kept)
        &&& self.aggregator.errors() == error_states(kept)
    }

    /// A run that has taken in nothing yet.
    pub fn new(conditions: &'a FilterConditions) -> (pipeline: Pipeline<'a>)
        ensures
            pipeline.wf(),
            pipeline.lines() == Seq::<String>::empty(),
            pipeline.conditions() == *conditions,
    {
        let pipeline = Pipeline {
            conditions,
            matcher: RequestResponsePairIterator::new(Vec::new()),
            aggregator: Aggregator::new(),
            lines: Ghost(Seq::empty()),
            events: Ghost(Seq::empty()),
            times: Ghost(Seq::empty()),
        };
        proof {
            let kept = passing(
                matched_pairs(Seq::<LogEvent>::empty()),
                *conditions,
                Seq::<Timestamp>::empty(),
            );
            assert(latencies(kept) =~= Seq::<usize>::empty());
            assert(error_states(kept) =~= Seq::<Option<HttpError>>::empty());
        }
        pipeline
    }

    /// Takes in one line. A line that reports no event changes nothing but
    /// the lines taken in, and its error is handed back; an event is given
    /// to the matcher, and the pair that it makes, if it makes one and the
    /// pair meets the conditions, to the statistics.
    pub fn feed_line(&mut self, line: &String) -> (taken: Result<(), &'static str>)
        requires
            old(self).wf(),
        ensures
            final(self).wf(),
            final(self).lines() == old(self).lines().push(*line),
            final(self).conditions() == old(self).conditions(),
            match taken {
                Ok(_) => is_event(line@),
                Err(e) => !is_event(line@) && reads_as(line@, Err(e)),
            },
    {
        let ghost lines = self.lines@;
        let ghost events = self.events@;
        let ghost times = self.times@;
        let ghost pairs = matched_pairs(events);
        let ghost kept = passing(pairs, *self.conditions, times);
        let ghost longer = lines.push(*line);
        assert(longer.drop_last() =~= lines);
        let event = match parse_line(line) {
            Ok(event) => event,
            Err(e) => {
                self.lines = Ghost(longer);
                return Err(e);
            },
        };
        proof {
            lemma_run_one_more(Pending::empty(), events, event);
            lemma_advance_of_one(self.matcher.pending(), event);
            assert(self.matcher.remaining().push(event) =~= seq![event]);
            assert(events.push(event).drop_last() =~= events);
        }
        self.matcher.push_event(event);
        self.lines = Ghost(longer);
        self.events = Ghost(events.push(event));
        match self.matcher.next() {
            Some(pair) => {
                let now = match self.conditions.latest_time {
                    Some(_) => Timestamp::now(),
                    None => Timestamp { seconds: 0, nanoseconds: 0, offset_seconds: 0 },
                };
                proof {
                    assert(pairs + seq![pair] =~= pairs.push(pair));
                    assert(pairs.push(pair).drop_last() =~= pairs);
                    assert(times.push(now).drop_last() =~= times);
                    assert(latencies(kept.push(pair)) =~= latencies(kept).push(
                        observed(pair.milliseconds()),
                    ));
                    assert(error_states(kept.push(pair)) =~= error_states(kept).push(
                        pair.error_state(),
                    ));
                }
                self.times = Ghost(times.push(now));
                if matches_filter_at(&pair, self.conditions, now) {
                    self.aggregator.add(&pair);
                }
            },
            None => {
                assert(pairs + Seq::<RequestResponsePair>::empty() =~= pairs);
            },
        }
        Ok(())
    }

    /// The result of the run. With this the run has ended.
    pub fn finish(self) -> (result: RequestLogAnalyzerResult)
        requires
            self.wf(),
        ensures
            exists|events: Seq<LogEvent>, times: Seq<Timestamp>|
                is_result_of(result, self.lines(), self.conditions(), events, times),
    {
        let ghost events = self.events@;
        let ghost times = self.times@;
        let result = self.aggregator.finalize();
        assert(is_result_of(result, self.lines(), self.conditions(), events, times));
        result
    }
}

/// One event is looked at by one step.
proof fn lemma_advance_of_one(pending: Pending, event: LogEvent)
    ensures
        advance(pending, seq![event]) == (
            step(pending, event).0,
            Seq::<LogEvent>::empty(),
            step(pending, event).1,
        ),
{
    let events = seq![event];
    assert(events[0] == event);
    assert(events.skip(1) =~= Seq::<LogEvent>::empty());
    reveal_with_fuel(advance, 2);
}

/// The result of a run over the lines of a log: the lines are read as
/// events, the events are paired, and the pairs that meet the conditions of
/// `args` are counted. The count is that of the pairs that meet the
/// conditions, not of all pairs.
pub fn run(args: &RequestLogAnalyzerArgs, lines: &Vec<String>) -> (result:
    RequestLogAnalyzerResult)
    ensures
        exists|events: Seq<LogEvent>, times: Seq<Timestamp>|
            is_result_of(result, lines@, args.conditions, events, times),
{
    let mut pipeline = Pipeline::new(&args.conditions);
    let mut i: usize = 0;
    assert(lines@.take(0) =~= Seq::<String>::empty());
    while i < lines.len()
        invariant
            i <= lines.len(),
            pipeline.wf(),
            pipeline.lines() == lines@.take(i as int),
            pipeline.conditions() == args.conditions,
        decreases lines.len() - i,
    {
        assert(lines@.take(i + 1) =~= lines@.take(i as int).push(lines@[i as int]));
        let _ = pipeline.feed_line(&lines[i]);
        i += 1;
    }
    assert(lines@.take(i as int) =~= lines@);
    pipeline.finish()
}

} // verus!
