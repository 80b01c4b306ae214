//! What reports a result: the texts for the terminal and in the formats
//! of Graphite and InfluxDB, and the gauges for Prometheus. A renderer keeps
//! what it made; to send it is left to the caller.

pub mod graphite;
pub mod influxdb;
pub mod prometheus;
pub mod terminal;

use crate::result::RequestLogAnalyzerResult;
use crate::text::{append_decimal, append_ten_thousandths, decimal, ten_thousandths_text};
use vstd::prelude::*;
use vstd::string::*;

verus! {

/// What turns a result into text.
pub trait Renderer: Sized {
    /// `after` is this renderer once it has rendered `result`.
    spec fn rendered(&self, result: RequestLogAnalyzerResult, after: &Self) -> bool;

    fn render(&mut self, result: RequestLogAnalyzerResult)
        ensures
            old(self).rendered(result, final(self)),
    ;
}

/// The texts that `strings` hold.
pub open spec fn strings_of(strings: Seq<String>) -> Seq<Seq<char>> {
    strings.map_values(|s: String| s@)
}

/// To put one more string at the end adds its text at the end.
pub proof fn lemma_strings_of_push(strings: Seq<String>, s: String)
    ensures
        strings_of(strings.push(s)) == strings_of(strings).push(s@),
{
    assert(strings_of(strings.push(s)) =~= strings_of(strings).push(s@));
}

/// Writes `label`, then the numeral of `n`, at the end of `s`.
pub fn append_number(s: &mut String, label: &str, n: usize)
    ensures
        final(s)@ == old(s)@ + label@ + decimal(n as nat),
{
    s.append(label);
    append_decimal(s, n as u64);
}

/// Writes `label`, then `n` ten-thousandths as a decimal fraction, at the end
/// of `s`.
pub fn append_rate(s: &mut String, label: &str, n: u32)
    ensures
        final(s)@ == old(s)@ + label@ + ten_thousandths_text(n as nat),
{
    s.append(label);
    append_ten_thousandths(s, n);
}

} // verus!
