use request_log_analyzer::analyzer::aggregated_error_rates::ErrorRatesResult;
use request_log_analyzer::analyzer::TimingResult;
use request_log_analyzer::render::graphite::GraphiteRenderer;
use request_log_analyzer::render::influxdb::InfluxDbRenderer;
use request_log_analyzer::render::prometheus::{
    GaugeSample, GaugeValue, Gauges, PrometheusRenderer,
};
use request_log_analyzer::render::terminal::TerminalRenderer;
use request_log_analyzer::render::Renderer;
use request_log_analyzer::result::RequestLogAnalyzerResult;
use request_log_analyzer::time::Timestamp;

// The rates 0.1 and 0.2, in ten-thousandths.
fn get_result_fixture() -> RequestLogAnalyzerResult {
    RequestLogAnalyzerResult {
        count: 3,
        timing: Some(TimingResult {
            max: 100,
            min: 1,
            avg: 37,
            median: 10,
            percentile90: 90,
            percentile99: 99,
            count: 3,
        }),
        error: Some(ErrorRatesResult {
            client_error_4xx: 1000,
            server_error_5xx: 2000,
        }),
    }
}

fn get_empty_result() -> RequestLogAnalyzerResult {
    RequestLogAnalyzerResult {
        count: 0,
        timing: None,
        error: None,
    }
}

fn get_time_fixture() -> Timestamp {
    let time = chrono::DateTime::parse_from_str("22/Sep/2016:22:41:59 +0200", "%d/%b/%Y:%H:%M:%S %z")
        .unwrap()
        .with_timezone(&chrono::Utc);
    Timestamp {
        seconds: time.timestamp(),
        nanoseconds: time.timestamp_subsec_nanos(),
        offset_seconds: 0,
    }
}

#[test]
fn test_terminal_renderer() {
    let mut renderer = TerminalRenderer::new();
    renderer.render(get_result_fixture());
    let write_calls = renderer.written;

    assert!(write_calls.contains(&String::from("time.max:\t100\n")));
    assert!(write_calls.contains(&String::from("time.min:\t1\n")));
    assert!(write_calls.contains(&String::from("time.avg:\t37\n")));
    assert!(write_calls.contains(&String::from("time.median:\t10\n")));
    assert!(write_calls.contains(&String::from("time.90percent:\t90\n")));
    assert!(write_calls.contains(&String::from("time.99percent:\t99\n")));
    assert!(write_calls.contains(&String::from("count:\t3\n")));
    assert!(write_calls.contains(&String::from("error.client_error_4xx_rate:\t0.1\n")));
    assert!(write_calls.contains(&String::from("error.server_error_5xx_rate:\t0.2\n")));
}

#[test]
fn test_terminal_renderer_no_lines() {
    let mut renderer = TerminalRenderer::new();
    renderer.render(get_empty_result());
    let write_calls = renderer.written;

    assert!(write_calls.contains(&String::from("count:\t0\n")));
    assert_eq!(write_calls.len(), 1);
}

#[test]
fn test_terminal_renderer_order_of_lines() {
    let mut renderer = TerminalRenderer::new();
    renderer.render(get_result_fixture());
    let expected = vec![
        "count:\t3\n",
        "time.avg:\t37\n",
        "time.min:\t1\n",
        "time.median:\t10\n",
        "time.90percent:\t90\n",
        "time.99percent:\t99\n",
        "time.max:\t100\n",
        "error.client_error_4xx_rate:\t0.1\n",
        "error.server_error_5xx_rate:\t0.2\n",
    ];
    assert_eq!(renderer.written, expected);
}

#[test]
fn test_render_graphite() {
    let mut renderer = GraphiteRenderer::new(get_time_fixture(), None);
    renderer.render(get_result_fixture());
    let write_calls = renderer.written;

    assert_eq!(&write_calls[0], "requests.count 3 1474576919\n");
    assert_eq!(&write_calls[1], "requests.time.max 100 1474576919\n");
    assert_eq!(&write_calls[2], "requests.time.min 1 1474576919\n");
    assert_eq!(&write_calls[3], "requests.time.avg 37 1474576919\n");
    assert_eq!(&write_calls[4], "requests.time.median 10 1474576919\n");
    assert_eq!(&write_calls[5], "requests.time.90percent 90 1474576919\n");
    assert_eq!(&write_calls[6], "requests.time.99percent 99 1474576919\n");
    assert_eq!(
        &write_calls[7],
        "requests.error.client_error_4xx_rate 0.1 1474576919\n"
    );
    assert_eq!(
        &write_calls[8],
        "requests.error.server_error_5xx_rate 0.2 1474576919\n"
    );
}

#[test]
fn test_render_graphite_with_prefix() {
    let mut renderer = GraphiteRenderer::new(get_time_fixture(), Some(String::from("my_prefix")));
    renderer.render(get_result_fixture());
    let write_calls = renderer.written;

    assert_eq!(&write_calls[0], "my_prefix.requests.count 3 1474576919\n");
    assert_eq!(&write_calls[1], "my_prefix.requests.time.max 100 1474576919\n");
    assert_eq!(&write_calls[2], "my_prefix.requests.time.min 1 1474576919\n");
    assert_eq!(&write_calls[3], "my_prefix.requests.time.avg 37 1474576919\n");
    assert_eq!(
        &write_calls[4],
        "my_prefix.requests.time.median 10 1474576919\n"
    );
    assert_eq!(
        &write_calls[5],
        "my_prefix.requests.time.90percent 90 1474576919\n"
    );
    assert_eq!(
        &write_calls[6],
        "my_prefix.requests.time.99percent 99 1474576919\n"
    );
    assert_eq!(
        &write_calls[7],
        "my_prefix.requests.error.client_error_4xx_rate 0.1 1474576919\n"
    );
    assert_eq!(
        &write_calls[8],
        "my_prefix.requests.error.server_error_5xx_rate 0.2 1474576919\n"
    );
}

#[test]
fn test_no_lines() {
    let mut renderer = GraphiteRenderer::new(get_time_fixture(), None);
    renderer.render(get_empty_result());
    let write_calls = renderer.written;

    assert_eq!(write_calls.len(), 1);
    assert_eq!(&write_calls[0], "requests.count 0 1474576919\n");
}

#[test]
fn test_render_graphite_before_the_epoch() {
    let time = Timestamp {
        seconds: -86400,
        nanoseconds: 0,
        offset_seconds: 0,
    };
    let mut renderer = GraphiteRenderer::new(time, None);
    renderer.render(get_empty_result());
    assert_eq!(&renderer.written[0], "requests.count 0 -86400\n");
}

#[test]
fn test_render_graphite_twice_keeps_the_first_lines() {
    let mut renderer = GraphiteRenderer::new(get_time_fixture(), None);
    renderer.render(get_empty_result());
    renderer.render(get_result_fixture());
    assert_eq!(renderer.written.len(), 10);
    assert_eq!(&renderer.written[0], "requests.count 0 1474576919\n");
    assert_eq!(&renderer.written[1], "requests.count 3 1474576919\n");
}

#[test]
fn test_instantiate() {
    InfluxDbRenderer::new("http://example.com/write?db=testdb", None);
}

#[test]
fn test_post_body() {
    let renderer = InfluxDbRenderer::new("http://example.com/write?db=testdb", None);
    let result = renderer.post_body(get_result_fixture());

    assert!(result.starts_with("request_log "));
    assert_eq!(result.matches(" ").count(), 1);

    assert!(result.contains("count=3"));
    assert!(result.contains("time_max=100"));
    assert!(result.contains("time_min=1"));
    assert!(result.contains("time_avg=37"));
    assert!(result.contains("time_median=10"));
    assert!(result.contains("time_90percent=90"));
    assert!(result.contains("time_99percent=99"));
    assert!(result.contains("client_error_4xx_rate=0.1"));
    assert!(result.contains("server_error_5xx_rate=0.2"));
}

#[test]
fn test_post_body_with_tag() {
    let tags = String::from("host=testhost");
    let renderer = InfluxDbRenderer::new("http://example.com/write?db=testdb", Some(tags));
    let result = renderer.post_body(get_result_fixture());

    assert!(result.starts_with("request_log,host=testhost "));
    assert_eq!(result.matches(" ").count(), 1);

    assert!(result.contains("count=3"));
}

#[test]
fn test_post_body_empty() {
    let renderer = InfluxDbRenderer::new("http://example.com/write?db=testdb", None);

    let result = renderer.post_body(get_empty_result());

    assert!(result.starts_with("request_log "));

    assert!(result.ends_with("count=0"));

    // Don't include empty fields
    assert!(!result.contains("time_max="));
    assert!(!result.contains("time_min="));
    assert!(!result.contains("time_avg="));
    assert!(!result.contains("time_median="));
    assert!(!result.contains("time_90percent="));
    assert!(!result.contains("time_99percent="));
    assert!(!result.contains("client_error_4xx_rate="));
    assert!(!result.contains("server_error_5xx_rate="));
}

#[test]
fn test_post_body_is_the_whole_line() {
    let tags = String::from("host=prod3,type=worker");
    let renderer = InfluxDbRenderer::new("http://example.com/write?db=testdb", Some(tags));
    assert_eq!(
        renderer.post_body(get_result_fixture()),
        "request_log,host=prod3,type=worker count=3,time_max=100,time_min=1,time_avg=37,\
         time_median=10,time_90percent=90,time_99percent=99,client_error_4xx_rate=0.1,\
         server_error_5xx_rate=0.2"
    );
}

#[test]
fn test_influxdb_render_keeps_the_body_and_the_url() {
    let mut renderer = InfluxDbRenderer::new("http://example.com/write?db=testdb", None);
    renderer.render(get_empty_result());
    assert_eq!(renderer.write_url, "http://example.com/write?db=testdb");
    assert_eq!(renderer.bodies, vec!["request_log count=0"]);
}

// The text that the prometheus crate writes of the gauges of `renderer`.
fn encoded(renderer: &PrometheusRenderer) -> String {
    let registry = prometheus::Registry::new();
    for sample in renderer.gauges.samples() {
        let gauge = prometheus::Gauge::new(sample.name.clone(), sample.help.clone()).unwrap();
        registry.register(Box::new(gauge.clone())).unwrap();
        gauge.set(match sample.value {
            GaugeValue::Whole(n) => n as f64,
            GaugeValue::TenThousandths(n) => f64::from(n as f32 / 10000.0),
        });
    }
    prometheus::TextEncoder::new()
        .encode_to_string(&registry.gather())
        .unwrap()
}

#[test]
fn test_render_1() {
    let mut renderer = PrometheusRenderer::new();
    renderer.render(get_result_fixture());

    let buffer_text = encoded(&renderer);
    assert!(buffer_text.contains("request_count 3"));
    assert!(buffer_text.contains("request_time_max 100"));
    assert!(buffer_text.contains("request_time_min 1"));
    assert!(buffer_text.contains("request_time_avg 37"));
    assert!(buffer_text.contains("request_time_median 10"));
    assert!(buffer_text.contains("request_time_percentile90 90"));
    assert!(buffer_text.contains("request_time_percentile99 99"));
    assert!(buffer_text.contains("request_error_client_error_4xx_rate 0.1"));
    assert!(buffer_text.contains("request_error_server_error_5xx_rate 0.2"));
}

#[test]
fn test_render_2() {
    let result = RequestLogAnalyzerResult {
        count: 300,
        timing: Some(TimingResult {
            max: 1000,
            min: 10,
            avg: 42,
            median: 75,
            percentile90: 900,
            percentile99: 990,
            count: 300,
        }),
        error: None,
    };

    let mut renderer = PrometheusRenderer::new();
    renderer.render(result);

    let buffer_text = encoded(&renderer);
    assert!(buffer_text.contains("request_count 300"));
    assert!(buffer_text.contains("request_time_max 1000"));
    assert!(buffer_text.contains("request_time_min 10"));
    assert!(buffer_text.contains("request_time_avg 42"));
    assert!(buffer_text.contains("request_time_median 75"));
    assert!(buffer_text.contains("request_time_percentile90 900"));
    assert!(buffer_text.contains("request_time_percentile99 990"));
}

#[test]
fn test_render_no_lines() {
    let mut renderer = PrometheusRenderer::new();
    renderer.render(get_empty_result());

    let buffer_text = encoded(&renderer);

    assert!(buffer_text.contains("request_count 0"));
    assert!(buffer_text.contains("request_time_max 0"));
    assert!(buffer_text.contains("request_time_min 0"));
    assert!(buffer_text.contains("request_time_avg 0"));
    assert!(buffer_text.contains("request_time_median 0"));
    assert!(buffer_text.contains("request_time_percentile90 0"));
    assert!(buffer_text.contains("request_time_percentile99 0"));
}

#[test]
fn test_prometheus_gauges_of_a_new_renderer_are_zero() {
    let renderer = PrometheusRenderer::new();
    assert_eq!(
        renderer.gauges,
        Gauges {
            count: 0,
            max: 0,
            min: 0,
            avg: 0,
            median: 0,
            percentile90: 0,
            percentile99: 0,
            client_error_4xx_rate: 0,
            server_error_5xx_rate: 0,
        }
    );
}

#[test]
fn test_prometheus_gauges_keep_what_a_result_does_not_have() {
    let mut renderer = PrometheusRenderer::new();
    renderer.render(get_result_fixture());
    assert_eq!(
        renderer.gauges,
        Gauges {
            count: 3,
            max: 100,
            min: 1,
            avg: 37,
            median: 10,
            percentile90: 90,
            percentile99: 99,
            client_error_4xx_rate: 1000,
            server_error_5xx_rate: 2000,
        }
    );
    renderer.render(get_empty_result());
    assert_eq!(
        renderer.gauges,
        Gauges {
            count: 0,
            max: 100,
            min: 1,
            avg: 37,
            median: 10,
            percentile90: 90,
            percentile99: 99,
            client_error_4xx_rate: 1000,
            server_error_5xx_rate: 2000,
        }
    );
    let text = encoded(&renderer);
    assert!(text.contains("request_count 0\n"));
    assert!(text.contains("request_time_max 100\n"));
}

#[test]
fn test_prometheus_samples() {
    let mut renderer = PrometheusRenderer::new();
    renderer.render(get_result_fixture());
    let samples = renderer.gauges.samples();
    let expected: Vec<(&str, GaugeValue)> = vec![
        ("request_count", GaugeValue::Whole(3)),
        ("request_time_max", GaugeValue::Whole(100)),
        ("request_time_min", GaugeValue::Whole(1)),
        ("request_time_avg", GaugeValue::Whole(37)),
        ("request_time_median", GaugeValue::Whole(10)),
        ("request_time_percentile90", GaugeValue::Whole(90)),
        ("request_time_percentile99", GaugeValue::Whole(99)),
        (
            "request_error_client_error_4xx_rate",
            GaugeValue::TenThousandths(1000),
        ),
        (
            "request_error_server_error_5xx_rate",
            GaugeValue::TenThousandths(2000),
        ),
    ];
    assert_eq!(samples.len(), expected.len());
    for (sample, (name, value)) in samples.iter().zip(expected.iter()) {
        assert_eq!(
            *sample,
            GaugeSample {
                name: name.to_string(),
                help: format!("The {} of responses.", name),
                value: *value,
            }
        );
    }
}

#[test]
fn test_prometheus_text_has_help_and_type_of_each_gauge() {
    let mut renderer = PrometheusRenderer::new();
    renderer.render(get_result_fixture());
    let text = encoded(&renderer);
    assert!(text.starts_with(
        "# HELP request_count The request_count of responses.\n\
         # TYPE request_count gauge\nrequest_count 3\n"
    ));
    assert_eq!(text.lines().count(), 27);
}

#[test]
fn test_rates_are_written_as_decimal_fractions() {
    let renderer = InfluxDbRenderer::new("http://example.com/write?db=testdb", None);
    let body_of = |client: u32, server: u32| {
        renderer.post_body(RequestLogAnalyzerResult {
            count: 1,
            timing: None,
            error: Some(ErrorRatesResult {
                client_error_4xx: client,
                server_error_5xx: server,
            }),
        })
    };
    assert_eq!(
        body_of(0, 10000),
        "request_log count=1,client_error_4xx_rate=0,server_error_5xx_rate=1"
    );
    assert_eq!(
        body_of(3333, 5000),
        "request_log count=1,client_error_4xx_rate=0.3333,server_error_5xx_rate=0.5"
    );
    assert_eq!(
        body_of(1, 2500),
        "request_log count=1,client_error_4xx_rate=0.0001,server_error_5xx_rate=0.25"
    );
    assert_eq!(
        body_of(120, 10),
        "request_log count=1,client_error_4xx_rate=0.012,server_error_5xx_rate=0.001"
    );
}

#[test]
fn test_rates_are_written_as_the_float_of_the_same_value_is() {
    let renderer = InfluxDbRenderer::new("http://example.com/write?db=testdb", None);
    for n in 0..=10000u32 {
        let body = renderer.post_body(RequestLogAnalyzerResult {
            count: 1,
            timing: None,
            error: Some(ErrorRatesResult {
                client_error_4xx: n,
                server_error_5xx: 0,
            }),
        });
        let as_float = n as f32 / 10000.0;
        assert_eq!(
            body,
            format!(
                "request_log count=1,client_error_4xx_rate={},server_error_5xx_rate=0",
                as_float
            )
        );
    }
}

