//! The events of the log: a request, and the response that answers it.

use crate::number::{parse_decimal, parse_i32, parse_i64, parse_u16};
use crate::text::{chars_of, join, split, split_chars, subvec, texts_of};
use crate::time::{Duration, Timestamp};
use vstd::prelude::*;
use vstd::string::*;

verus! {

/// The class of an HTTP status that reports an error.
#[derive(Eq, PartialEq, Clone, Copy, Debug, Structural)]
pub enum HttpError {
    /// A status whose first digit is 4, such as 404.
    ClientError4xx,
    /// A status whose first digit is 5, such as 500.
    ServerError5xx,
}

/// One event of the log.
#[derive(PartialEq, Debug)]
pub enum LogEvent {
    Request(Request),
    Response(Response),
}

/// A request as the log reports it.
#[derive(Eq, PartialEq, Clone, Debug)]
pub struct Request {
    pub id: i32,
    pub time: Timestamp,
    pub original_log_line: String,
}

/// A response as the log reports it.
#[derive(Eq, PartialEq, Clone, Debug)]
pub struct Response {
    pub id: i32,
    pub response_time: Duration,
    pub original_log_line: String,
    pub http_error: Option<HttpError>,
}

/// What stands between the first and the last character of `token`: the
/// number of an id such as `[02]`.
pub open spec fn inner(token: Seq<char>) -> Seq<char> {
    token.subrange(1, token.len() - 1)
}

/// The id that the third part of a line holds: a token of three characters or
/// more, with the numeral of an `i32` between its first and its last.
pub open spec fn id_of(token: Seq<char>) -> Option<i32> {
    if token.len() < 3 {
        None
    } else {
        match parse_decimal(inner(token), true, i32::MIN as int, i32::MAX as int) {
            Ok(id) => Some(id as i32),
            Err(_) => None,
        }
    }
}

/// The milliseconds that the last part of a response line holds: a token of
/// three characters or more, with the numeral of an `i64` before its last
/// two, as in `250ms`.
pub open spec fn millis_of(token: Seq<char>) -> Option<i64> {
    if token.len() < 3 {
        None
    } else {
        match parse_decimal(token.take(token.len() - 2), true, i64::MIN as int, i64::MAX as int) {
            Ok(ms) => Some(ms as i64),
            Err(_) => None,
        }
    }
}

/// `token` writes the number of a status: a numeral from 0 to 65535.
pub open spec fn is_status(token: Seq<char>) -> bool {
    parse_decimal(token, false, 0, u16::MAX as int) is Ok
}

/// The error class of a status: by its first character, `4` or `5`.
pub open spec fn error_class(status: Seq<char>) -> Option<HttpError> {
    if status.len() > 0 && status[0] == '4' {
        Some(HttpError::ClientError4xx)
    } else if status.len() > 0 && status[0] == '5' {
        Some(HttpError::ServerError5xx)
    } else {
        None
    }
}

fn read_id(token: &Vec<char>) -> (id: Option<i32>)
    ensures
        id == id_of(token@),
{
    if token.len() < 3 {
        return None;
    }
    let number = subvec(token, 1, token.len() - 1);
    match parse_i32(&number) {
        Ok(id) => Some(id),
        Err(_) => None,
    }
}

fn read_millis(token: &Vec<char>) -> (ms: Option<i64>)
    ensures
        ms == millis_of(token@),
{
    if token.len() < 3 {
        return None;
    }
    let number = subvec(token, 0, token.len() - 2);
    match parse_i64(&number) {
        Ok(ms) => Some(ms),
        Err(_) => None,
    }
}

fn read_error_class(status: &Vec<char>) -> (class: Option<HttpError>)
    ensures
        class == error_class(status@),
{
    if status.len() == 0 {
        None
    } else if status[0] == '4' {
        Some(HttpError::ClientError4xx)
    } else if status[0] == '5' {
        Some(HttpError::ServerError5xx)
    } else {
        None
    }
}

impl Request {
    /// The id and the time that a request line holds. The line is split at
    /// every space; its first two parts are the date, its third the id. None
    /// where the line has fewer than three parts, or the id or the date
    /// cannot be read.
    pub open spec fn fields(line: Seq<char>) -> Option<(i32, Timestamp)> {
        let parts = split(line, ' ');
        if parts.len() < 3 {
            None
        } else {
            match (id_of(parts[2]), Timestamp::parsed(parts[0] + seq![' '] + parts[1])) {
                (Some(id), Some(time)) => Some((id, time)),
                _ => None,
            }
        }
    }

    /// This request is what `line` reports.
    pub open spec fn reads(self, line: Seq<char>) -> bool {
        &&& Request::fields(line) == Some((self.id, self.time))
        &&& self.original_log_line@ == line
    }

    /// The id that a request line holds: that of its third part. None where
    /// the line has fewer than three parts, or the id cannot be read.
    pub open spec fn id_in(line: Seq<char>) -> Option<i32> {
        let parts = split(line, ' ');
        if parts.len() < 3 {
            None
        } else {
            id_of(parts[2])
        }
    }

    /// The request that `log_line` reports, where `time` is what was read
    /// of its date: the id of the line, that time, and the line itself. An
    /// error where the line holds no id, or no time was read.
    pub fn from_line_and_time(log_line: &String, time: Option<Timestamp>) -> (result: Result<
        Request,
        &'static str,
    >)
        ensures
            match result {
                Ok(request) => {
                    &&& Request::id_in(log_line@) == Some(request.id)
                    &&& time == Some(request.time)
                    &&& request.original_log_line@ == log_line@
                },
                Err(e) => {
                    &&& Request::id_in(log_line@) is None || time is None
                    &&& e@ == "Uncomprehensible request logline"@
                },
            },
    {
        let chars = chars_of(log_line.as_str());
        let parts = split_chars(&chars, ' ');
        assert(texts_of(parts@).len() == parts@.len());
        if parts.len() < 3 {
            return Err("Uncomprehensible request logline");
        }
        assert(texts_of(parts@)[2] == parts@[2]@);
        let id = match read_id(&parts[2]) {
            Some(id) => id,
            None => {
                return Err("Uncomprehensible request logline");
            },
        };
        match time {
            Some(time) => Ok(Request { id, time, original_log_line: log_line.clone() }),
            None => Err("Uncomprehensible request logline"),
        }
    }

    /// Reads a request from its line of the log: reads the date that its
    /// first two parts write, and makes the request of the line and of what
    /// was read.
    pub fn new_from_log_line(log_line: &String) -> (result: Result<Request, &'static str>)
        ensures
            match result {
                Ok(request) => request.reads(log_line@),
                Err(e) => Request::fields(log_line@) is None && e@
                    == "Uncomprehensible request logline"@,
            },
    {
        let chars = chars_of(log_line.as_str());
        let parts = split_chars(&chars, ' ');
        assert(texts_of(parts@).len() == parts@.len());
        let time = if parts.len() < 3 {
            None
        } else {
            assert(texts_of(parts@)[0] == parts@[0]@);
            assert(texts_of(parts@)[1] == parts@[1]@);
            let date = join(&parts[0], ' ', &parts[1]);
            Timestamp::parse(&date)
        };
        Request::from_line_and_time(log_line, time)
    }
}

/// The ids of `responses` do not get less from one to the next.
pub open spec fn sorted_by_id(responses: Seq<Response>) -> bool {
    forall|i: int, j: int|
        0 <= i < j < responses.len() ==> (#[trigger] responses[i]).id <= (
        #[trigger] responses[j]).id
}

impl Request {
    /// A response with the id of this request, looked for by halving
    /// `responses`. Where the ids of `responses` are in ascending order, one
    /// is found if there is one.
    pub fn get_matching_response<'a>(&'a self, responses: &'a Vec<Response>) -> (found: Option<
        &'a Response,
    >)
        ensures
            match found {
                Some(response) => response.id == self.id && responses@.contains(*response),
                None => sorted_by_id(responses@) ==> forall|j: int|
                    0 <= j < responses.len() ==> (#[trigger] responses[j]).id != self.id,
            },
    {
        let mut low: usize = 0;
        let mut high: usize = responses.len();
        while low < high
            invariant
                low <= high <= responses.len(),
                sorted_by_id(responses@) ==> forall|j: int|
                    0 <= j < low ==> (#[trigger] responses[j]).id < self.id,
                sorted_by_id(responses@) ==> forall|j: int|
                    high <= j < responses.len() ==> (#[trigger] responses[j]).id > self.id,
            decreases high - low,
        {
            let middle: usize = low + (high - low) / 2;
            let id = responses[middle].id;
            if id == self.id {
                return Some(&responses[middle]);
            } else if id < self.id {
                low = middle + 1;
            } else {
                high = middle;
            }
        }
        None
    }

    /// Whether this request was made after `start` and not after `end`.
    pub fn is_between_times(&self, start: Timestamp, end: Timestamp) -> (b: bool)
        ensures
            b == (start.is_before(self.time) && !end.is_before(self.time)),
    {
        start.before(&self.time) && !end.before(&self.time)
    }
}

impl Response {
    /// The id, the milliseconds and the error class that a response line
    /// holds. The line is split at every space; its third part is the id, its
    /// fifth the status and its last the time taken. None where the line has
    /// fewer than five parts, or the id or the time cannot be read, or the
    /// status is no number.
    pub open spec fn fields(line: Seq<char>) -> Option<(i32, i64, Option<HttpError>)> {
        let parts = split(line, ' ');
        if parts.len() < 5 || !is_status(parts[4]) {
            None
        } else {
            match (id_of(parts[2]), millis_of(parts.last())) {
                (Some(id), Some(ms)) => Some((id, ms, error_class(parts[4]))),
                _ => None,
            }
        }
    }

    /// This response is what `line` reports.
    pub open spec fn reads(self, line: Seq<char>) -> bool {
        &&& Response::fields(line) == Some((self.id, self.response_time.millis, self.http_error))
        &&& self.original_log_line@ == line
    }

    /// Reads a response from its line of the log.
    pub fn new_from_log_line(log_line: &String) -> (result: Result<Response, &'static str>)
        ensures
            match result {
                Ok(response) => response.reads(log_line@),
                Err(e) => Response::fields(log_line@) is None && e@
                    == "Uncomprehensible response logline"@,
            },
    {
        let chars = chars_of(log_line.as_str());
        let parts = split_chars(&chars, ' ');
        assert(texts_of(parts@).len() == parts@.len());
        if parts.len() < 5 {
            return Err("Uncomprehensible response logline");
        }
        assert(texts_of(parts@)[2] == parts@[2]@);
        assert(texts_of(parts@)[4] == parts@[4]@);
        assert(texts_of(parts@).last() == parts@.last()@);
        let id = match read_id(&parts[2]) {
            Some(id) => id,
            None => {
                return Err("Uncomprehensible response logline");
            },
        };
        let millis = match read_millis(&parts[parts.len() - 1]) {
            Some(millis) => millis,
            None => {
                return Err("Uncomprehensible response logline");
            },
        };
        if parse_u16(&parts[4]).is_err() {
            return Err("Uncomprehensible response logline");
        }
        let http_error = read_error_class(&parts[4]);
        Ok(
            Response {
                id,
                response_time: Duration::milliseconds(millis),
                original_log_line: log_line.clone(),
                http_error,
            },
        )
    }
}

/// The date that a line of the log begins with: its first two parts, with
/// the space between them. None where the line has no two parts.
pub open spec fn date_in(line: Seq<char>) -> Option<Seq<char>> {
    let parts = split(line, ' ');
    if parts.len() < 2 {
        None
    } else {
        Some(parts[0] + seq![' '] + parts[1])
    }
}

/// The part of a line with the place `k`, counted from 0. None where the
/// line has no such part.
pub open spec fn part_in(line: Seq<char>, k: int) -> Option<Seq<char>> {
    let parts = split(line, ' ');
    if 0 <= k < parts.len() {
        Some(parts[k])
    } else {
        None
    }
}

/// The type of the content that a response line names: its sixth part, and
/// with it the seventh where the line has eight parts, as in
/// `text/html; charset=utf-8`. None where the line has no sixth part.
pub open spec fn mime_type_in(line: Seq<char>) -> Option<Seq<char>> {
    let parts = split(line, ' ');
    if parts.len() == 8 {
        Some(parts[5] + seq![' '] + parts[6])
    } else if parts.len() > 5 {
        Some(parts[5])
    } else {
        None
    }
}

/// The status that a response line names: the number of its fifth part.
/// None where the line has no fifth part or it is no status.
pub open spec fn status_in(line: Seq<char>) -> Option<u16> {
    match part_in(line, 4) {
        Some(token) => match parse_decimal(token, false, 0, u16::MAX as int) {
            Ok(status) => Some(status as u16),
            Err(_) => None,
        },
        None => None,
    }
}

fn copy_of_part(part: &Vec<char>) -> (copy: Vec<char>)
    ensures
        copy@ == part@,
{
    let copy = subvec(part, 0, part.len());
    assert(copy@ =~= part@);
    copy
}

/// `text` is what `found` holds, or there is neither.
pub open spec fn is_text(found: Option<Vec<char>>, text: Option<Seq<char>>) -> bool {
    match (found, text) {
        (Some(f), Some(t)) => f@ == t,
        (None, None) => true,
        _ => false,
    }
}

fn parts_of(line: &String) -> (parts: Vec<Vec<char>>)
    ensures
        texts_of(parts@) == split(line@, ' '),
        parts@.len() == split(line@, ' ').len(),
{
    let chars = chars_of(line.as_str());
    let parts = split_chars(&chars, ' ');
    assert(texts_of(parts@).len() == parts@.len());
    parts
}

fn read_date(parts: &Vec<Vec<char>>, Ghost(line): Ghost<Seq<char>>) -> (time: Option<Timestamp>)
    requires
        texts_of(parts@) == split(line, ' '),
    ensures
        time == match date_in(line) {
            Some(date) => Timestamp::parsed(date),
            None => None,
        },
{
    assert(texts_of(parts@).len() == parts@.len());
    if parts.len() < 2 {
        return None;
    }
    assert(texts_of(parts@)[0] == parts@[0]@);
    assert(texts_of(parts@)[1] == parts@[1]@);
    let date = join(&parts[0], ' ', &parts[1]);
    Timestamp::parse(&date)
}

impl Request {
    /// The address that the line of this request names: its sixth part,
    /// after the method.
    pub fn url(&self) -> (url: Option<Vec<char>>)
        ensures
            is_text(url, part_in(self.original_log_line@, 5)),
    {
        let parts = parts_of(&self.original_log_line);
        if parts.len() > 5 {
            assert(texts_of(parts@)[5] == parts@[5]@);
            Some(copy_of_part(&parts[5]))
        } else {
            None
        }
    }
}

impl Response {
    /// The time that the line of this response begins with, as chrono reads
    /// it.
    pub fn time(&self) -> (time: Option<Timestamp>)
        ensures
            time == match date_in(self.original_log_line@) {
                Some(date) => Timestamp::parsed(date),
                None => None,
            },
    {
        let parts = parts_of(&self.original_log_line);
        read_date(&parts, Ghost(self.original_log_line@))
    }

    /// The type of the content that the line of this response names.
    pub fn mime_type(&self) -> (mime_type: Option<Vec<char>>)
        ensures
            is_text(mime_type, mime_type_in(self.original_log_line@)),
    {
        let parts = parts_of(&self.original_log_line);
        if parts.len() == 8 {
            assert(texts_of(parts@)[5] == parts@[5]@);
            assert(texts_of(parts@)[6] == parts@[6]@);
            Some(join(&parts[5], ' ', &parts[6]))
        } else if parts.len() > 5 {
            assert(texts_of(parts@)[5] == parts@[5]@);
            Some(copy_of_part(&parts[5]))
        } else {
            None
        }
    }

    /// The status that the line of this response names.
    pub fn http_status(&self) -> (status: Option<u16>)
        ensures
            status == status_in(self.original_log_line@),
    {
        let parts = parts_of(&self.original_log_line);
        if parts.len() > 4 {
            assert(texts_of(parts@)[4] == parts@[4]@);
            match parse_u16(&parts[4]) {
                Ok(status) => Some(status),
                Err(_) => None,
            }
        } else {
            None
        }
    }
}

} // verus!
