//! The settings of a run, from the values given on the command line.

use crate::filter::FilterConditions;
use crate::number::{parse_decimal, parse_i64, parse_u16, NumberError};
use crate::text::chars_of;
use crate::time::Duration;
use vstd::prelude::*;
use vstd::string::*;

verus! {

/// The settings of a run.
#[derive(PartialEq, Debug)]
pub struct RequestLogAnalyzerArgs {
    pub filename: String,
    pub conditions: FilterConditions,
    pub graphite_server: Option<String>,
    pub graphite_port: Option<u16>,
    pub graphite_prefix: Option<String>,
    pub prometheus_listen: Option<String>,
    pub influxdb_write_url: Option<String>,
    pub influxdb_tags: Option<String>,
    pub quiet: bool,
}

/// The values of the command line as they were written, each absent where
/// its option was not given.
#[derive(PartialEq, Debug)]
pub struct CommandLine {
    pub filename: Option<String>,
    pub time_filter_minutes: Option<String>,
    pub include_terms: Option<Vec<String>>,
    pub exclude_terms: Option<Vec<String>>,
    pub graphite_server: Option<String>,
    pub graphite_port: Option<String>,
    pub graphite_prefix: Option<String>,
    pub prometheus_listen: Option<String>,
    pub influxdb_write_url: Option<String>,
    pub influxdb_tags: Option<String>,
    pub quiet: bool,
}

/// Why the values of the command line are no settings.
#[derive(PartialEq, Eq, Debug, Clone, Copy, Structural)]
pub enum ArgsError {
    /// The minutes of `-t` are no number.
    MinutesNotNumeric(NumberError),
    /// The minutes of `-t` are more than a span of time can hold.
    MinutesOutOfRange,
    /// The port of `--graphite-port` is no number from 0 to 65535.
    GraphitePortNotNumeric(NumberError),
}

impl ArgsError {
    /// The words that report the error.
    pub open spec fn description(self) -> Seq<char> {
        match self {
            ArgsError::MinutesNotNumeric(e) => "-t must be numeric ("@ + e.description() + ")"@,
            ArgsError::MinutesOutOfRange => "-t is out of range"@,
            ArgsError::GraphitePortNotNumeric(e) => "--graphite-port must be numeric ("@
                + e.description() + ")"@,
        }
    }

    /// The words that report the error.
    pub fn message(&self) -> (s: String)
        ensures
            s@ == self.description(),
    {
        match self {
            ArgsError::MinutesNotNumeric(e) => {
                let mut s = String::from_str("-t must be numeric (");
                s.append(e.message());
                s.append(")");
                s
            },
            ArgsError::MinutesOutOfRange => String::from_str("-t is out of range"),
            ArgsError::GraphitePortNotNumeric(e) => {
                let mut s = String::from_str("--graphite-port must be numeric (");
                s.append(e.message());
                s.append(")");
                s
            },
        }
    }
}

/// The greatest age that the minutes `text` set.
pub open spec fn latest_time_of(text: Seq<char>) -> Result<Duration, ArgsError> {
    match parse_decimal(text, true, i64::MIN as int, i64::MAX as int) {
        Ok(minutes) => match Duration::of_minutes(minutes) {
            Some(age) => Ok(age),
            None => Err(ArgsError::MinutesOutOfRange),
        },
        Err(e) => Err(ArgsError::MinutesNotNumeric(e)),
    }
}

/// The port that `text` writes.
pub open spec fn port_of(text: Seq<char>) -> Result<u16, ArgsError> {
    match parse_decimal(text, false, 0, u16::MAX as int) {
        Ok(port) => Ok(port as u16),
        Err(e) => Err(ArgsError::GraphitePortNotNumeric(e)),
    }
}

/// The port of Graphite's plaintext protocol.
pub const DEFAULT_GRAPHITE_PORT: u16 = 2003;

/// The error of the command line, if it has one: that of the minutes before
/// that of the port.
pub open spec fn error_of(line: CommandLine) -> Option<ArgsError> {
    if line.time_filter_minutes is Some && latest_time_of(line.time_filter_minutes->0@) is Err {
        Some(latest_time_of(line.time_filter_minutes->0@)->Err_0)
    } else if line.graphite_port is Some && port_of(line.graphite_port->0@) is Err {
        Some(port_of(line.graphite_port->0@)->Err_0)
    } else {
        None
    }
}

/// `args` are the settings that `line` gives: the file is standard input,
/// written `-`, where none is named, and the port is 2003 where none is
/// given.
pub open spec fn settings_of(line: CommandLine, args: RequestLogAnalyzerArgs) -> bool {
    &&& args.filename@ == (match line.filename {
        Some(name) => name@,
        None => "-"@,
    })
    &&& args.conditions.include_terms == line.include_terms
    &&& args.conditions.exclude_terms == line.exclude_terms
    &&& args.conditions.latest_time == (match line.time_filter_minutes {
        Some(text) => Some(latest_time_of(text@)->Ok_0),
        None => None,
    })
    &&& args.graphite_server == line.graphite_server
    &&& args.graphite_port == (match line.graphite_port {
        Some(text) => Some(port_of(text@)->Ok_0),
        None => Some(DEFAULT_GRAPHITE_PORT),
    })
    &&& args.graphite_prefix == line.graphite_prefix
    &&& args.prometheus_listen == line.prometheus_listen
    &&& args.influxdb_write_url == line.influxdb_write_url
    &&& args.influxdb_tags == line.influxdb_tags
    &&& args.quiet == line.quiet
}

/// Turns the values of the command line into the settings of a run.
pub fn parse_args(line: CommandLine) -> (result: Result<RequestLogAnalyzerArgs, ArgsError>)
    ensures
        match result {
            Ok(args) => error_of(line) is None && settings_of(line, args),
            Err(e) => error_of(line) == Some(e),
        },
{
    let latest_time = match &line.time_filter_minutes {
        Some(text) => {
            let minutes = match parse_i64(&chars_of(text.as_str())) {
                Ok(minutes) => minutes,
                Err(e) => {
                    return Err(ArgsError::MinutesNotNumeric(e));
                },
            };
            match Duration::minutes(minutes) {
                Some(age) => Some(age),
                None => {
                    return Err(ArgsError::MinutesOutOfRange);
                },
            }
        },
        None => None,
    };
    let graphite_port = match &line.graphite_port {
        Some(text) => match parse_u16(&chars_of(text.as_str())) {
            Ok(port) => Some(port),
            Err(e) => {
                return Err(ArgsError::GraphitePortNotNumeric(e));
            },
        },
        None => Some(DEFAULT_GRAPHITE_PORT),
    };
    let filename = match line.filename {
        Some(name) => name,
        None => String::from_str("-"),
    };
    Ok(
        RequestLogAnalyzerArgs {
            filename,
            conditions: FilterConditions {
                include_terms: line.include_terms,
                exclude_terms: line.exclude_terms,
                latest_time,
            },
            graphite_server: line.graphite_server,
            graphite_port,
            graphite_prefix: line.graphite_prefix,
            prometheus_listen: line.prometheus_listen,
            influxdb_write_url: line.influxdb_write_url,
            influxdb_tags: line.influxdb_tags,
            quiet: line.quiet,
        },
    )
}

} // verus!
