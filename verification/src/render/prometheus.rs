//! The gauges that are exposed to Prometheus: nine of them, each with its
//! name, its help text and its value. To encode them as text is left to
//! the caller.

use crate::render::Renderer;
use crate::result::RequestLogAnalyzerResult;
use vstd::prelude::*;
use vstd::string::*;

verus! {

/// The values of the nine gauges. The two rates are in ten-thousandths.
#[derive(PartialEq, Eq, Debug, Clone, Copy, Structural)]
pub struct Gauges {
    pub count: usize,
    pub max: usize,
    pub min: usize,
    pub avg: usize,
    pub median: usize,
    pub percentile90: usize,
    pub percentile99: usize,
    pub client_error_4xx_rate: u32,
    pub server_error_5xx_rate: u32,
}

/// The value of a gauge: a whole number, or a number of ten-thousandths.
#[derive(PartialEq, Eq, Debug, Clone, Copy, Structural)]
pub enum GaugeValue {
    Whole(usize),
    TenThousandths(u32),
}

/// One gauge as it is to be exposed.
#[derive(PartialEq, Eq, Debug)]
pub struct GaugeSample {
    pub name: String,
    pub help: String,
    pub value: GaugeValue,
}

/// The help text of the gauge `name`.
pub open spec fn help_text(name: Seq<char>) -> Seq<char> {
    "The "@ + name + " of responses."@
}

/// `sample` is the gauge `name` with the value `value`.
pub open spec fn sample_is(sample: GaugeSample, name: Seq<char>, value: GaugeValue) -> bool {
    &&& sample.name@ == name
    &&& sample.help@ == help_text(name)
    &&& sample.value == value
}

impl Gauges {
    /// Every gauge at zero.
    pub open spec fn zero() -> Gauges {
        Gauges {
            count: 0,
            max: 0,
            min: 0,
            avg: 0,
            median: 0,
            percentile90: 0,
            percentile99: 0,
            client_error_4xx_rate: 0,
            server_error_5xx_rate: 0,
        }
    }

    /// The gauges once `result` is reported: the count is set; the latencies
    /// and the rates are set where the result has them, and stay as they
    /// were where it has none.
    pub open spec fn updated(self, result: RequestLogAnalyzerResult) -> Gauges {
        let with_count = Gauges { count: result.count, ..self };
        let with_timing = match result.timing {
            Some(t) => Gauges {
                max: t.max,
                min: t.min,
                avg: t.avg,
                median: t.median,
                percentile90: t.percentile90,
                percentile99: t.percentile99,
                ..with_count
            },
            None => with_count,
        };
        match result.error {
            Some(e) => Gauges {
                client_error_4xx_rate: e.client_error_4xx,
                server_error_5xx_rate: e.server_error_5xx,
                ..with_timing
            },
            None => with_timing,
        }
    }

    /// `samples` are the nine gauges with these values, each under its
    /// name: the count, the six latencies, and the two error rates.
    pub open spec fn sampled_as(self, samples: Seq<GaugeSample>) -> bool {
        &&& samples.len() == 9
        &&& sample_is(samples[0], "request_count"@, GaugeValue::Whole(self.count))
        &&& sample_is(samples[1], "request_time_max"@, GaugeValue::Whole(self.max))
        &&& sample_is(samples[2], "request_time_min"@, GaugeValue::Whole(self.min))
        &&& sample_is(samples[3], "request_time_avg"@, GaugeValue::Whole(self.avg))
        &&& sample_is(samples[4], "request_time_median"@, GaugeValue::Whole(self.median))
        &&& sample_is(
            samples[5],
            "request_time_percentile90"@,
            GaugeValue::Whole(self.percentile90),
        )
        &&& sample_is(
            samples[6],
            "request_time_percentile99"@,
            GaugeValue::Whole(self.percentile99),
        )
        &&& sample_is(
            samples[7],
            "request_error_client_error_4xx_rate"@,
            GaugeValue::TenThousandths(self.client_error_4xx_rate),
        )
        &&& sample_is(
            samples[8],
            "request_error_server_error_5xx_rate"@,
            GaugeValue::TenThousandths(self.server_error_5xx_rate),
        )
    }

    /// The nine gauges as they are to be exposed.
    pub fn samples(&self) -> (samples: Vec<GaugeSample>)
        ensures
            self.sampled_as(samples@),
    {
        let mut samples: Vec<GaugeSample> = Vec::new();
        samples.push(sample("request_count", GaugeValue::Whole(self.count)));
        samples.push(sample("request_time_max", GaugeValue::Whole(self.max)));
        samples.push(sample("request_time_min", GaugeValue::Whole(self.min)));
        samples.push(sample("request_time_avg", GaugeValue::Whole(self.avg)));
        samples.push(sample("request_time_median", GaugeValue::Whole(self.median)));
        samples.push(sample("request_time_percentile90", GaugeValue::Whole(self.percentile90)));
        samples.push(sample("request_time_percentile99", GaugeValue::Whole(self.percentile99)));
        samples.push(
            sample(
                "request_error_client_error_4xx_rate",
                GaugeValue::TenThousandths(self.client_error_4xx_rate),
            ),
        );
        samples.push(
            sample(
                "request_error_server_error_5xx_rate",
                GaugeValue::TenThousandths(self.server_error_5xx_rate),
            ),
        );
        samples
    }
}

fn sample(name: &str, value: GaugeValue) -> (sample: GaugeSample)
    ensures
        sample_is(sample, name@, value),
{
    let mut help = String::from_str("The ");
    help.append(name);
    help.append(" of responses.");
    GaugeSample { name: String::from_str(name), help, value }
}

/// Holds the nine gauges from one report to the next.
pub struct PrometheusRenderer {
    pub gauges: Gauges,
}

impl PrometheusRenderer {
    /// A renderer with every gauge at zero.
    pub fn new() -> (renderer: PrometheusRenderer)
        ensures
            renderer.gauges == Gauges::zero(),
    {
        PrometheusRenderer {
            gauges: Gauges {
                count: 0,
                max: 0,
                min: 0,
                avg: 0,
                median: 0,
                percentile90: 0,
                percentile99: 0,
                client_error_4xx_rate: 0,
                server_error_5xx_rate: 0,
            },
        }
    }
}

impl Renderer for PrometheusRenderer {
    open spec fn rendered(&self, result: RequestLogAnalyzerResult, after: &Self) -> bool {
        after.gauges == self.gauges.updated(result)
    }

    fn render(&mut self, result: RequestLogAnalyzerResult) {
        self.gauges.count = result.count;
        match result.timing {
            Some(timing) => {
                self.gauges.max = timing.max;
                self.gauges.min = timing.min;
                self.gauges.avg = timing.avg;
                self.gauges.median = timing.median;
                self.gauges.percentile90 = timing.percentile90;
                self.gauges.percentile99 = timing.percentile99;
            },
            None => {},
        }
        match result.error {
            Some(error) => {
                self.gauges.client_error_4xx_rate = error.client_error_4xx;
                self.gauges.server_error_5xx_rate = error.server_error_5xx;
            },
            None => {},
        }
    }
}

} // verus!
