//! The report in Graphite's plaintext protocol: one line for each metric,
//! with its name, its value and the time of the report.

use crate::analyzer::aggregated_error_rates::ErrorRatesResult;
use crate::analyzer::TimingResult;
use crate::render::{lemma_strings_of_push, strings_of, Renderer};
use crate::result::RequestLogAnalyzerResult;
use crate::text::{
    append_decimal,
    append_signed_decimal,
    append_ten_thousandths,
    decimal,
    signed_decimal,
    ten_thousandths_text,
};
use crate::time::Timestamp;
use vstd::prelude::*;
use vstd::string::*;

verus! {

/// What stands before each metric's name: the prefix and a dot, or nothing.
pub open spec fn prefix_text(prefix: Option<String>) -> Seq<char> {
    match prefix {
        Some(p) => p@ + "."@,
        None => Seq::empty(),
    }
}

/// The line of one metric: its name after the prefix, its value, and the
/// seconds since the epoch.
pub open spec fn metric_line(
    prefix: Option<String>,
    name: Seq<char>,
    value: Seq<char>,
    seconds: int,
) -> Seq<char> {
    prefix_text(prefix) + name + " "@ + value + " "@ + signed_decimal(seconds) + "\n"@
}

/// The lines of the latency statistics.
pub open spec fn timing_lines(prefix: Option<String>, seconds: int, timing: Option<TimingResult>) -> Seq<
    Seq<char>,
> {
    match timing {
        Some(t) => seq![
            metric_line(prefix, "requests.time.max"@, decimal(t.max as nat), seconds),
            metric_line(prefix, "requests.time.min"@, decimal(t.min as nat), seconds),
            metric_line(prefix, "requests.time.avg"@, decimal(t.avg as nat), seconds),
            metric_line(prefix, "requests.time.median"@, decimal(t.median as nat), seconds),
            metric_line(
                prefix,
                "requests.time.90percent"@,
                decimal(t.percentile90 as nat),
                seconds,
            ),
            metric_line(
                prefix,
                "requests.time.99percent"@,
                decimal(t.percentile99 as nat),
                seconds,
            ),
        ],
        None => Seq::empty(),
    }
}

/// The lines of the error rates.
pub open spec fn error_lines(
    prefix: Option<String>,
    seconds: int,
    error: Option<ErrorRatesResult>,
) -> Seq<Seq<char>> {
    match error {
        Some(e) => seq![
            metric_line(
                prefix,
                "requests.error.client_error_4xx_rate"@,
                ten_thousandths_text(e.client_error_4xx as nat),
                seconds,
            ),
            metric_line(
                prefix,
                "requests.error.server_error_5xx_rate"@,
                ten_thousandths_text(e.server_error_5xx as nat),
                seconds,
            ),
        ],
        None => Seq::empty(),
    }
}

/// The lines that report `result` at the time `seconds`: the count, then the
/// latencies and the error rates where there are any.
pub open spec fn graphite_lines(
    prefix: Option<String>,
    seconds: int,
    result: RequestLogAnalyzerResult,
) -> Seq<Seq<char>> {
    seq![metric_line(prefix, "requests.count"@, decimal(result.count as nat), seconds)]
        + timing_lines(prefix, seconds, result.timing) + error_lines(
        prefix,
        seconds,
        result.error,
    )
}

/// Collects the lines that are to be sent to a Graphite server.
pub struct GraphiteRenderer {
    pub time: Timestamp,
    pub prefix: Option<String>,
    pub written: Vec<String>,
}

impl GraphiteRenderer {
    pub fn new(time: Timestamp, prefix: Option<String>) -> (renderer: GraphiteRenderer)
        ensures
            renderer.time == time,
            renderer.prefix == prefix,
            renderer.written@.len() == 0,
    {
        GraphiteRenderer { time, prefix, written: Vec::new() }
    }

    fn start_line(&self, name: &str) -> (line: String)
        ensures
            line@ == prefix_text(self.prefix) + name@ + " "@,
    {
        let mut line = String::new();
        match &self.prefix {
            Some(p) => {
                line.append(p.as_str());
                line.append(".");
            },
            None => {},
        }
        line.append(name);
        line.append(" ");
        assert(line@ =~= prefix_text(self.prefix) + name@ + " "@);
        line
    }

    fn finish_line(&mut self, line: String, Ghost(name): Ghost<Seq<char>>, Ghost(value): Ghost<Seq<char>>)
        requires
            line@ == prefix_text(old(self).prefix) + name + " "@ + value,
        ensures
            final(self).time == old(self).time,
            final(self).prefix == old(self).prefix,
            strings_of(final(self).written@) == strings_of(old(self).written@).push(
                metric_line(old(self).prefix, name, value, old(self).time.seconds as int),
            ),
    {
        let mut line = line;
        line.append(" ");
        append_signed_decimal(&mut line, self.time.seconds);
        line.append("\n");
        proof {
            assert(line@ =~= metric_line(self.prefix, name, value, self.time.seconds as int));
            lemma_strings_of_push(self.written@, line);
        }
        self.written.push(line);
    }

    fn write_number(&mut self, name: &str, n: usize)
        ensures
            final(self).time == old(self).time,
            final(self).prefix == old(self).prefix,
            strings_of(final(self).written@) == strings_of(old(self).written@).push(
                metric_line(
                    old(self).prefix,
                    name@,
                    decimal(n as nat),
                    old(self).time.seconds as int,
                ),
            ),
    {
        let mut line = self.start_line(name);
        append_decimal(&mut line, n as u64);
        self.finish_line(line, Ghost(name@), Ghost(decimal(n as nat)));
    }

    fn write_rate(&mut self, name: &str, n: u32)
        ensures
            final(self).time == old(self).time,
            final(self).prefix == old(self).prefix,
            strings_of(final(self).written@) == strings_of(old(self).written@).push(
                metric_line(
                    old(self).prefix,
                    name@,
                    ten_thousandths_text(n as nat),
                    old(self).time.seconds as int,
                ),
            ),
    {
        let mut line = self.start_line(name);
        append_ten_thousandths(&mut line, n);
        self.finish_line(line, Ghost(name@), Ghost(ten_thousandths_text(n as nat)));
    }
}

impl Renderer for GraphiteRenderer {
    open spec fn rendered(&self, result: RequestLogAnalyzerResult, after: &Self) -> bool {
        &&& after.time == self.time
        &&& after.prefix == self.prefix
        &&& strings_of(after.written@) == strings_of(self.written@) + graphite_lines(
            self.prefix,
            self.time.seconds as int,
            result,
        )
    }

    fn render(&mut self, result: RequestLogAnalyzerResult) {
        let ghost before = strings_of(self.written@);
        let ghost prefix = self.prefix;
        let ghost seconds = self.time.seconds as int;
        self.write_number("requests.count", result.count);
        match result.timing {
            Some(timing) => {
                self.write_number("requests.time.max", timing.max);
                self.write_number("requests.time.min", timing.min);
                self.write_number("requests.time.avg", timing.avg);
                self.write_number("requests.time.median", timing.median);
                self.write_number("requests.time.90percent", timing.percentile90);
                self.write_number("requests.time.99percent", timing.percentile99);
            },
            None => {},
        }
        let ghost middle = strings_of(self.written@);
        assert(middle =~= before + seq![
            metric_line(prefix, "requests.count"@, decimal(result.count as nat), seconds),
        ] + timing_lines(prefix, seconds, result.timing));
        match result.error {
            Some(error) => {
                self.write_rate("requests.error.client_error_4xx_rate", error.client_error_4xx);
                self.write_rate("requests.error.server_error_5xx_rate", error.server_error_5xx);
            },
            None => {},
        }
        assert(strings_of(self.written@) =~= middle + error_lines(prefix, seconds, result.error));
        assert(strings_of(self.written@) =~= before + graphite_lines(prefix, seconds, result));
    }
}

} // verus!
