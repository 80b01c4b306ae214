//! The report in InfluxDB's line protocol: one line that holds the
//! measurement, its tags and its fields.

use crate::analyzer::aggregated_error_rates::ErrorRatesResult;
use crate::analyzer::TimingResult;
use crate::render::{append_number, append_rate, lemma_strings_of_push, strings_of, Renderer};
use crate::result::RequestLogAnalyzerResult;
use crate::text::{decimal, ten_thousandths_text};
use vstd::prelude::*;
use vstd::string::*;

verus! {

/// The tags behind the measurement's name, after a comma; nothing where
/// there are none.
pub open spec fn tags_text(tags: Option<String>) -> Seq<char> {
    match tags {
        Some(t) => ","@ + t@,
        None => Seq::empty(),
    }
}

/// The fields of the latency statistics, each after a comma; nothing where
/// there are none.
pub open spec fn timing_fields(timing: Option<TimingResult>) -> Seq<char> {
    match timing {
        Some(t) => ",time_max="@ + decimal(t.max as nat) + ",time_min="@ + decimal(t.min as nat)
            + ",time_avg="@ + decimal(t.avg as nat) + ",time_median="@ + decimal(t.median as nat)
            + ",time_90percent="@ + decimal(t.percentile90 as nat) + ",time_99percent="@
            + decimal(t.percentile99 as nat),
        None => Seq::empty(),
    }
}

/// The fields of the error rates, each after a comma; nothing where there
/// are none.
pub open spec fn error_fields(error: Option<ErrorRatesResult>) -> Seq<char> {
    match error {
        Some(e) => ",client_error_4xx_rate="@ + ten_thousandths_text(e.client_error_4xx as nat)
            + ",server_error_5xx_rate="@ + ten_thousandths_text(e.server_error_5xx as nat),
        None => Seq::empty(),
    }
}

/// The line that reports `result`: fields that are absent are left out.
pub open spec fn line_protocol(tags: Option<String>, result: RequestLogAnalyzerResult) -> Seq<
    char,
> {
    "request_log"@ + tags_text(tags) + " count="@ + decimal(result.count as nat) + timing_fields(
        result.timing,
    ) + error_fields(result.error)
}

/// Collects the bodies that are to be posted to `write_url`.
pub struct InfluxDbRenderer {
    pub write_url: String,
    pub tags: Option<String>,
    pub bodies: Vec<String>,
}

impl InfluxDbRenderer {
    pub fn new(write_url: &str, tags: Option<String>) -> (renderer: InfluxDbRenderer)
        ensures
            renderer.write_url@ == write_url@,
            renderer.tags == tags,
            renderer.bodies@.len() == 0,
    {
        InfluxDbRenderer { write_url: String::from_str(write_url), tags, bodies: Vec::new() }
    }

    /// The body of the request that reports `result`.
    pub fn post_body(&self, result: RequestLogAnalyzerResult) -> (body: String)
        ensures
            body@ == line_protocol(self.tags, result),
    {
        let mut body = String::from_str("request_log");
        match &self.tags {
            Some(tags) => {
                body.append(",");
                body.append(tags.as_str());
            },
            None => {},
        }
        assert(body@ =~= "request_log"@ + tags_text(self.tags));
        append_number(&mut body, " count=", result.count);
        let ghost head = body@;
        match result.timing {
            Some(timing) => {
                append_number(&mut body, ",time_max=", timing.max);
                append_number(&mut body, ",time_min=", timing.min);
                append_number(&mut body, ",time_avg=", timing.avg);
                append_number(&mut body, ",time_median=", timing.median);
                append_number(&mut body, ",time_90percent=", timing.percentile90);
                append_number(&mut body, ",time_99percent=", timing.percentile99);
            },
            None => {},
        }
        assert(body@ =~= head + timing_fields(result.timing));
        let ghost middle = body@;
        match result.error {
            Some(error) => {
                append_rate(&mut body, ",client_error_4xx_rate=", error.client_error_4xx);
                append_rate(&mut body, ",server_error_5xx_rate=", error.server_error_5xx);
            },
            None => {},
        }
        assert(body@ =~= middle + error_fields(result.error));
        assert(body@ =~= line_protocol(self.tags, result));
        body
    }
}

impl Renderer for InfluxDbRenderer {
    open spec fn rendered(&self, result: RequestLogAnalyzerResult, after: &Self) -> bool {
        &&& after.write_url == self.write_url
        &&& after.tags == self.tags
        &&& strings_of(after.bodies@) == strings_of(self.bodies@).push(
            line_protocol(self.tags, result),
        )
    }

    fn render(&mut self, result: RequestLogAnalyzerResult) {
        let body = self.post_body(result);
        proof {
            lemma_strings_of_push(self.bodies@, body);
        }
        self.bodies.push(body);
    }
}

} // verus!
