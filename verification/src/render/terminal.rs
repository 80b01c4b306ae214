//! The report for the terminal: one line for each number, its name before a
//! tab.

use crate::analyzer::aggregated_error_rates::ErrorRatesResult;
use crate::analyzer::TimingResult;
use crate::render::{append_number, append_rate, lemma_strings_of_push, strings_of, Renderer};
use crate::result::RequestLogAnalyzerResult;
use crate::text::{decimal, ten_thousandths_text};
use vstd::prelude::*;
use vstd::string::*;

verus! {

/// The line that names a number.
pub open spec fn number_line(label: Seq<char>, n: nat) -> Seq<char> {
    label + decimal(n) + "\n"@
}

/// The line that names a rate.
pub open spec fn rate_line(label: Seq<char>, n: nat) -> Seq<char> {
    label + ten_thousandths_text(n) + "\n"@
}

/// The lines of the latency statistics.
pub open spec fn timing_lines(timing: Option<TimingResult>) -> Seq<Seq<char>> {
    match timing {
        Some(t) => seq![
            number_line("time.avg:\t"@, t.avg as nat),
            number_line("time.min:\t"@, t.min as nat),
            number_line("time.median:\t"@, t.median as nat),
            number_line("time.90percent:\t"@, t.percentile90 as nat),
            number_line("time.99percent:\t"@, t.percentile99 as nat),
            number_line("time.max:\t"@, t.max as nat),
        ],
        None => Seq::empty(),
    }
}

/// The lines of the error rates.
pub open spec fn error_lines(error: Option<ErrorRatesResult>) -> Seq<Seq<char>> {
    match error {
        Some(e) => seq![
            rate_line("error.client_error_4xx_rate:\t"@, e.client_error_4xx as nat),
            rate_line("error.server_error_5xx_rate:\t"@, e.server_error_5xx as nat),
        ],
        None => Seq::empty(),
    }
}

/// The lines that report `result`: the count, then the latencies and the
/// error rates where there are any.
pub open spec fn terminal_lines(result: RequestLogAnalyzerResult) -> Seq<Seq<char>> {
    seq![number_line("count:\t"@, result.count as nat)] + timing_lines(result.timing)
        + error_lines(result.error)
}

fn push_number_line(lines: &mut Vec<String>, label: &str, n: usize)
    ensures
        strings_of(final(lines)@) == strings_of(old(lines)@).push(number_line(label@, n as nat)),
{
    let mut line = String::new();
    append_number(&mut line, label, n);
    line.append("\n");
    proof {
        assert(line@ =~= number_line(label@, n as nat));
        lemma_strings_of_push(lines@, line);
    }
    lines.push(line);
}

fn push_rate_line(lines: &mut Vec<String>, label: &str, n: u32)
    ensures
        strings_of(final(lines)@) == strings_of(old(lines)@).push(rate_line(label@, n as nat)),
{
    let mut line = String::new();
    append_rate(&mut line, label, n);
    line.append("\n");
    proof {
        assert(line@ =~= rate_line(label@, n as nat));
        lemma_strings_of_push(lines@, line);
    }
    lines.push(line);
}

/// Collects the lines that are to be written to the terminal.
pub struct TerminalRenderer {
    pub written: Vec<String>,
}

impl TerminalRenderer {
    pub fn new() -> (renderer: TerminalRenderer)
        ensures
            renderer.written@.len() == 0,
    {
        TerminalRenderer { written: Vec::new() }
    }
}

impl Renderer for TerminalRenderer {
    open spec fn rendered(&self, result: RequestLogAnalyzerResult, after: &Self) -> bool {
        strings_of(after.written@) == strings_of(self.written@) + terminal_lines(result)
    }

    fn render(&mut self, result: RequestLogAnalyzerResult) {
        let ghost before = strings_of(self.written@);
        push_number_line(&mut self.written, "count:\t", result.count);
        match result.timing {
            Some(timing) => {
                push_number_line(&mut self.written, "time.avg:\t", timing.avg);
                push_number_line(&mut self.written, "time.min:\t", timing.min);
                push_number_line(&mut self.written, "time.median:\t", timing.median);
                push_number_line(&mut self.written, "time.90percent:\t", timing.percentile90);
                push_number_line(&mut self.written, "time.99percent:\t", timing.percentile99);
                push_number_line(&mut self.written, "time.max:\t", timing.max);
            },
            None => {},
        }
        let ghost middle = strings_of(self.written@);
        assert(middle =~= before + seq![number_line("count:\t"@, result.count as nat)]
            + timing_lines(result.timing));
        match result.error {
            Some(error) => {
                push_rate_line(
                    &mut self.written,
                    "error.client_error_4xx_rate:\t",
                    error.client_error_4xx,
                );
                push_rate_line(
                    &mut self.written,
                    "error.server_error_5xx_rate:\t",
                    error.server_error_5xx,
                );
            },
            None => {},
        }
        assert(strings_of(self.written@) =~= middle + error_lines(result.error));
        assert(strings_of(self.written@) =~= before + terminal_lines(result));
    }
}

} // verus!
