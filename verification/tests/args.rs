use request_log_analyzer::args::{parse_args, ArgsError, CommandLine, RequestLogAnalyzerArgs};
use request_log_analyzer::filter::FilterConditions;
use request_log_analyzer::number::NumberError;
use request_log_analyzer::time::Duration;

// What a command line without options holds.
fn nothing_given() -> CommandLine {
    CommandLine {
        filename: None,
        time_filter_minutes: None,
        include_terms: None,
        exclude_terms: None,
        graphite_server: None,
        graphite_port: None,
        graphite_prefix: None,
        prometheus_listen: None,
        influxdb_write_url: None,
        influxdb_tags: None,
        quiet: false,
    }
}

#[test]
fn test_parse_args_default() {
    let expected = RequestLogAnalyzerArgs {
        filename: String::from("-"),
        conditions: FilterConditions {
            include_terms: None,
            exclude_terms: None,
            latest_time: None,
        },
        graphite_server: None,
        graphite_port: Some(2003),
        graphite_prefix: None,
        prometheus_listen: None,
        influxdb_write_url: None,
        influxdb_tags: None,
        quiet: false,
    };

    let result = parse_args(nothing_given()).unwrap();

    assert_eq!(result, expected);
}

#[test]
fn test_parse_args_all() {
    let line = CommandLine {
        filename: Some(String::from("my-logfile.log")),
        time_filter_minutes: Some(String::from("10")),
        include_terms: Some(vec![String::from("one")]),
        exclude_terms: Some(vec![String::from("this other")]),
        graphite_server: Some(String::from("localhost")),
        graphite_port: Some(String::from("4000")),
        graphite_prefix: Some(String::from("prod")),
        prometheus_listen: Some(String::from("0.0.0.0:9898")),
        influxdb_write_url: Some(String::from("https://example.com/write?db=metrics_prod")),
        influxdb_tags: Some(String::from("host=prod3,type=worker")),
        quiet: true,
    };

    let expected = RequestLogAnalyzerArgs {
        filename: String::from("my-logfile.log"),
        conditions: FilterConditions {
            include_terms: Some(vec![String::from("one")]),
            exclude_terms: Some(vec![String::from("this other")]),
            latest_time: Duration::minutes(10),
        },
        graphite_server: Some(String::from("localhost")),
        graphite_port: Some(4000),
        graphite_prefix: Some(String::from("prod")),
        prometheus_listen: Some(String::from("0.0.0.0:9898")),
        influxdb_write_url: Some(String::from("https://example.com/write?db=metrics_prod")),
        influxdb_tags: Some(String::from("host=prod3,type=worker")),
        quiet: true,
    };

    let result = parse_args(line).unwrap();

    assert_eq!(result, expected);
    assert_eq!(
        result.conditions.latest_time,
        Some(Duration::milliseconds(600000))
    );
}

#[test]
fn test_parse_args_multiple_include_exclude() {
    let line = CommandLine {
        filename: Some(String::from("my-logfile.log")),
        include_terms: Some(vec![String::from("one"), String::from("two")]),
        exclude_terms: Some(vec![String::from("this other"), String::from("more")]),
        graphite_port: Some(String::from("2003")),
        ..nothing_given()
    };

    let expected = RequestLogAnalyzerArgs {
        filename: String::from("my-logfile.log"),
        conditions: FilterConditions {
            include_terms: Some(vec![String::from("one"), String::from("two")]),
            exclude_terms: Some(vec![String::from("this other"), String::from("more")]),
            latest_time: None,
        },
        graphite_server: None,
        graphite_port: Some(2003),
        graphite_prefix: None,
        prometheus_listen: None,
        influxdb_write_url: None,
        influxdb_tags: None,
        quiet: false,
    };

    let result = parse_args(line).unwrap();

    assert_eq!(result, expected);
}

#[test]
fn test_invalid_graphite_port() {
    let line = CommandLine {
        graphite_server: Some(String::from("localhost")),
        graphite_port: Some(String::from("nonumber")),
        ..nothing_given()
    };

    let error_message = match parse_args(line) {
        Err(fail) => fail.message(),
        Ok(_) => unreachable!(),
    };

    assert!(error_message.contains("--graphite-port must be numeric"));
    assert_eq!(
        error_message,
        format!(
            "--graphite-port must be numeric ({})",
            "nonumber".parse::<u16>().unwrap_err()
        )
    );
}

#[test]
fn test_invalid_minutes() {
    let line = CommandLine {
        time_filter_minutes: Some(String::from("nonumber")),
        ..nothing_given()
    };

    let error_message = match parse_args(line) {
        Err(fail) => fail.message(),
        Ok(_) => unreachable!(),
    };

    assert!(error_message.contains("-t must be numeric"));
    assert_eq!(
        error_message,
        format!(
            "-t must be numeric ({})",
            "nonumber".parse::<i64>().unwrap_err()
        )
    );
}

#[test]
fn test_each_error_of_the_command_line() {
    let with_minutes = |text: &str| CommandLine {
        time_filter_minutes: Some(String::from(text)),
        ..nothing_given()
    };
    let with_port = |text: &str| CommandLine {
        graphite_port: Some(String::from(text)),
        ..nothing_given()
    };
    assert_eq!(
        parse_args(with_minutes("")),
        Err(ArgsError::MinutesNotNumeric(NumberError::Empty))
    );
    assert_eq!(
        parse_args(with_minutes("1O")),
        Err(ArgsError::MinutesNotNumeric(NumberError::InvalidDigit))
    );
    assert_eq!(
        parse_args(with_minutes("9223372036854775808")),
        Err(ArgsError::MinutesNotNumeric(NumberError::PosOverflow))
    );
    assert_eq!(
        parse_args(with_minutes("-9223372036854775809")),
        Err(ArgsError::MinutesNotNumeric(NumberError::NegOverflow))
    );
    assert_eq!(
        parse_args(with_minutes("153722867280913")),
        Err(ArgsError::MinutesOutOfRange)
    );
    assert_eq!(
        parse_args(with_minutes("153722867280912"))
            .unwrap()
            .conditions
            .latest_time,
        Some(Duration::milliseconds(9223372036854720000))
    );
    assert_eq!(
        parse_args(with_minutes("-5")).unwrap().conditions.latest_time,
        Some(Duration::milliseconds(-300000))
    );
    assert_eq!(
        parse_args(with_port("65536")),
        Err(ArgsError::GraphitePortNotNumeric(NumberError::PosOverflow))
    );
    assert_eq!(
        parse_args(with_port("-1")),
        Err(ArgsError::GraphitePortNotNumeric(NumberError::InvalidDigit))
    );
    assert_eq!(parse_args(with_port("65535")).unwrap().graphite_port, Some(65535));
    assert_eq!(parse_args(with_port("+80")).unwrap().graphite_port, Some(80));
    assert_eq!(
        ArgsError::MinutesOutOfRange.message(),
        "-t is out of range"
    );
}

#[test]
fn test_the_error_of_the_minutes_comes_first() {
    let line = CommandLine {
        time_filter_minutes: Some(String::from("ten")),
        graphite_port: Some(String::from("port")),
        ..nothing_given()
    };
    assert_eq!(
        parse_args(line),
        Err(ArgsError::MinutesNotNumeric(NumberError::InvalidDigit))
    );
}
