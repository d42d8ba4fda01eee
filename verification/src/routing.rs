//! Travel time matrices from an OSRM routing service.
//!
//! The HTTP provider asks OSRM's Table API for the durations between all
//! pairs of points of interest. This module builds the request URL from the
//! formatted coordinates, classifies failed requests, and turns a decoded
//! response into a matrix, unreachable pairs taking the greatest duration.
//! A stub provider serves a fixed matrix or error for tests.

use std::time::Duration;

use vstd::prelude::*;

use crate::poi::PointOfInterest;
use crate::text::{chars_of, push_char, str_eq, trim_end_char};

verus! {

/// Default user agent for OSRM requests.
pub const DEFAULT_USER_AGENT: &'static str = "wildside-routing/0.1";

/// Default request timeout in seconds.
pub const DEFAULT_TIMEOUT_SECS: u64 = 30;

/// Default OSRM endpoint.
pub const DEFAULT_BASE_URL: &'static str = "http://localhost:5000";

/// Path of the walking table service below the endpoint.
pub const TABLE_PATH: &'static str = "/table/v1/walking/";

/// `Clone` of `std::time::Duration`, a `Copy` type: the clone is the
/// duration itself.
pub assume_specification[ <Duration as Clone>::clone ](d: &Duration) -> (result: Duration)
    ensures
        result == *d,
;

/// The duration `Duration::new(secs, nanos)`.
pub uninterp spec fn duration_value(secs: u64, nanos: u32) -> Duration;

/// `std::time::Duration::new`. The result is `duration_value(secs, nanos)`;
/// `nanos` stays below one second, where `Duration::new` cannot overflow.
#[verifier::external_body]
fn duration_new(secs: u64, nanos: u32) -> (result: Duration)
    requires
        nanos < 1_000_000_000,
    ensures
        result == duration_value(secs, nanos),
{
    Duration::new(secs, nanos)
}

/// The duration of a whole number of seconds (`Duration::from_secs`).
pub fn seconds(secs: u64) -> (result: Duration)
    ensures
        result == duration_value(secs, 0),
{
    duration_new(secs, 0)
}

/// The greatest duration (`Duration::MAX`), standing for an unreachable
/// pair.
pub open spec fn unreachable_duration() -> Duration {
    duration_value(u64::MAX, 999_999_999)
}

/// The greatest duration (`Duration::MAX`).
pub fn max_duration() -> (result: Duration)
    ensures
        result == unreachable_duration(),
{
    duration_new(0xffff_ffff_ffff_ffff, 999_999_999)
}

/// Errors of a travel time request.
#[derive(Debug, Clone, PartialEq, Eq)]
pub enum TravelTimeError {
    /// No points of interest were given.
    EmptyInput,
    /// The request timed out.
    Timeout { url: String, timeout_secs: u64 },
    /// The service answered with an HTTP error status.
    HttpError { url: String, status: u16, message: String },
    /// The request failed in transit.
    NetworkError { url: String, message: String },
    /// The service reported an error code.
    ServiceError { code: String, message: String },
    /// The response could not be interpreted.
    ParseError { message: String },
}

/// The abstract content of a travel time error.
pub enum TravelTimeErrorModel {
    EmptyInput,
    Timeout(Seq<char>, u64),
    HttpError(Seq<char>, u16, Seq<char>),
    NetworkError(Seq<char>, Seq<char>),
    ServiceError(Seq<char>, Seq<char>),
    ParseError(Seq<char>),
}

/// The abstract content of a travel time error.
pub open spec fn error_model(e: TravelTimeError) -> TravelTimeErrorModel {
    match e {
        TravelTimeError::EmptyInput => TravelTimeErrorModel::EmptyInput,
        TravelTimeError::Timeout { url, timeout_secs } => TravelTimeErrorModel::Timeout(url@, timeout_secs),
        TravelTimeError::HttpError { url, status, message } => TravelTimeErrorModel::HttpError(
            url@,
            status,
            message@,
        ),
        TravelTimeError::NetworkError { url, message } => TravelTimeErrorModel::NetworkError(url@, message@),
        TravelTimeError::ServiceError { code, message } => TravelTimeErrorModel::ServiceError(code@, message@),
        TravelTimeError::ParseError { message } => TravelTimeErrorModel::ParseError(message@),
    }
}

impl TravelTimeError {
    /// A copy of the error.
    pub fn duplicate(&self) -> (result: TravelTimeError)
        ensures
            error_model(result) == error_model(*self),
    {
        match self {
            TravelTimeError::EmptyInput => TravelTimeError::EmptyInput,
            TravelTimeError::Timeout { url, timeout_secs } => TravelTimeError::Timeout {
                url: url.clone(),
                timeout_secs: *timeout_secs,
            },
            TravelTimeError::HttpError { url, status, message } => TravelTimeError::HttpError {
                url: url.clone(),
                status: *status,
                message: message.clone(),
            },
            TravelTimeError::NetworkError { url, message } => TravelTimeError::NetworkError {
                url: url.clone(),
                message: message.clone(),
            },
            TravelTimeError::ServiceError { code, message } => TravelTimeError::ServiceError {
                code: code.clone(),
                message: message.clone(),
            },
            TravelTimeError::ParseError { message } => TravelTimeError::ParseError { message: message.clone() },
        }
    }
}

/// Configuration of the HTTP travel time provider.
#[derive(Debug, Clone)]
pub struct HttpTravelTimeProviderConfig {
    /// Base URL of the OSRM service (e.g. `http://localhost:5000`).
    pub base_url: String,
    /// Request timeout.
    pub timeout: Duration,
    /// User agent sent with requests.
    pub user_agent: String,
}

impl Default for HttpTravelTimeProviderConfig {
    fn default() -> (result: Self)
        ensures
            result.base_url@ == DEFAULT_BASE_URL@,
            result.timeout == duration_value(DEFAULT_TIMEOUT_SECS, 0),
            result.user_agent@ == DEFAULT_USER_AGENT@,
    {
        HttpTravelTimeProviderConfig {
            base_url: String::from_str(DEFAULT_BASE_URL),
            timeout: seconds(DEFAULT_TIMEOUT_SECS),
            user_agent: String::from_str(DEFAULT_USER_AGENT),
        }
    }
}

impl HttpTravelTimeProviderConfig {
    /// A configuration for the given base URL, with the default timeout and
    /// user agent.
    pub fn new(base_url: String) -> (result: Self)
        ensures
            result.base_url == base_url,
            result.timeout == duration_value(DEFAULT_TIMEOUT_SECS, 0),
            result.user_agent@ == DEFAULT_USER_AGENT@,
    {
        HttpTravelTimeProviderConfig { base_url, ..Default::default() }
    }

    /// Set the request timeout.
    pub fn with_timeout(self, timeout: Duration) -> (result: Self)
        ensures
            result.base_url == self.base_url,
            result.timeout == timeout,
            result.user_agent == self.user_agent,
    {
        HttpTravelTimeProviderConfig { timeout, ..self }
    }

    /// Set the user agent.
    pub fn with_user_agent(self, user_agent: String) -> (result: Self)
        ensures
            result.base_url == self.base_url,
            result.timeout == self.timeout,
            result.user_agent == user_agent,
    {
        HttpTravelTimeProviderConfig { user_agent, ..self }
    }
}

/// The coordinates joined with `;`.
pub open spec fn join_coordinates(coords: Seq<Seq<char>>) -> Seq<char>
    decreases coords.len(),
{
    if coords.len() == 0 {
        Seq::empty()
    } else if coords.len() == 1 {
        coords[0]
    } else {
        join_coordinates(coords.drop_last()) + seq![';'] + coords.last()
    }
}

/// The Table API URL: the base URL without trailing slashes, the walking
/// table path, and the `lon,lat` coordinates joined with `;`.
pub open spec fn spec_table_url(base_url: Seq<char>, coords: Seq<Seq<char>>) -> Seq<char> {
    trim_end_char(base_url, '/') + TABLE_PATH@ + join_coordinates(coords)
}

/// The pieces of `s` between occurrences of `sep`, in order (as
/// `str::split` gives them): one piece more than there are separators.
pub open spec fn split_on(s: Seq<char>, sep: char) -> Seq<Seq<char>>
    decreases s.len(),
{
    if s.len() == 0 {
        seq![Seq::<char>::empty()]
    } else {
        let pieces = split_on(s.drop_last(), sep);
        if s.last() == sep {
            pieces.push(Seq::empty())
        } else {
            pieces.update(pieces.len() - 1, pieces.last().push(s.last()))
        }
    }
}

/// Whether no coordinate holds `;`.
pub open spec fn coordinates_without_separator(coords: Seq<Seq<char>>) -> bool {
    forall|i: int| 0 <= i < coords.len() ==> !(#[trigger] coords[i]).contains(';')
}

proof fn lemma_split_on_piece(b: Seq<char>, sep: char)
    requires
        !b.contains(sep),
    ensures
        split_on(b, sep) == seq![b],
    decreases b.len(),
{
    if b.len() > 0 {
        assert(!b.drop_last().contains(sep)) by {
            if b.drop_last().contains(sep) {
                let i = choose|i: int| 0 <= i < b.drop_last().len() && b.drop_last()[i] == sep;
                assert(b[i] == sep);
            }
        }
        lemma_split_on_piece(b.drop_last(), sep);
        assert(b[b.len() - 1] != sep);
        assert(b.drop_last().push(b.last()) =~= b);
        assert(seq![b.drop_last()].update(0, b.drop_last().push(b.last())) =~= seq![b]);
    } else {
        assert(b =~= Seq::<char>::empty());
    }
}

proof fn lemma_split_on_after_sep(a: Seq<char>, b: Seq<char>, sep: char)
    requires
        !b.contains(sep),
    ensures
        split_on(a + seq![sep] + b, sep) == split_on(a, sep).push(b),
    decreases b.len(),
{
    let s = a + seq![sep] + b;
    if b.len() == 0 {
        assert(s.drop_last() =~= a);
        assert(s.last() == sep);
        assert(b =~= Seq::<char>::empty());
    } else {
        assert(!b.drop_last().contains(sep)) by {
            if b.drop_last().contains(sep) {
                let i = choose|i: int| 0 <= i < b.drop_last().len() && b.drop_last()[i] == sep;
                assert(b[i] == sep);
            }
        }
        lemma_split_on_after_sep(a, b.drop_last(), sep);
        assert(s.drop_last() =~= a + seq![sep] + b.drop_last());
        assert(s.last() == b[b.len() - 1]);
        assert(b.drop_last().push(b.last()) =~= b);
        let pieces = split_on(a, sep).push(b.drop_last());
        assert(pieces.last() == b.drop_last());
        assert(split_on(s, sep) == pieces.update(pieces.len() - 1, pieces.last().push(s.last())));
        assert(pieces.update(pieces.len() - 1, b) =~= split_on(a, sep).push(b));
    }
}

/// Splitting the joined coordinates at `;` gives the coordinates back, in
/// order, when there is at least one and none holds `;`: a `;` stands
/// between every two consecutive coordinates and nowhere else.
pub proof fn lemma_join_coordinates_splits(coords: Seq<Seq<char>>)
    requires
        coords.len() > 0,
        coordinates_without_separator(coords),
    ensures
        split_on(join_coordinates(coords), ';') == coords,
    decreases coords.len(),
{
    if coords.len() == 1 {
        lemma_split_on_piece(coords[0], ';');
        assert(coords =~= seq![coords[0]]);
    } else {
        let rest = coords.drop_last();
        assert forall|i: int| 0 <= i < rest.len() implies !(#[trigger] rest[i]).contains(';') by {
            assert(rest[i] == coords[i]);
        }
        lemma_join_coordinates_splits(rest);
        assert(!coords[coords.len() - 1].contains(';'));
        lemma_split_on_after_sep(join_coordinates(rest), coords.last(), ';');
        assert(rest.push(coords.last()) =~= coords);
    }
}

/// The Table API URL is the base URL without trailing slashes, then the
/// walking table path, then a part that splits at `;` into exactly the
/// given coordinates, in order (none when there are none).
pub proof fn lemma_table_url_coordinates(base_url: Seq<char>, coords: Seq<Seq<char>>)
    requires
        coordinates_without_separator(coords),
    ensures
        ({
            let url = spec_table_url(base_url, coords);
            let prefix = trim_end_char(base_url, '/') + TABLE_PATH@;
            &&& url.len() >= prefix.len()
            &&& url.take(prefix.len() as int) == prefix
            &&& coords.len() == 0 ==> url == prefix
            &&& coords.len() > 0 ==> split_on(url.skip(prefix.len() as int), ';') == coords
        }),
{
    let url = spec_table_url(base_url, coords);
    let prefix = trim_end_char(base_url, '/') + TABLE_PATH@;
    assert(url.take(prefix.len() as int) =~= prefix);
    assert(url.skip(prefix.len() as int) =~= join_coordinates(coords));
    if coords.len() == 0 {
        assert(url =~= prefix);
    } else {
        lemma_join_coordinates_splits(coords);
    }
}

/// Build the Table API URL from the base URL and the formatted coordinates
/// of the points of interest (see [`spec_table_url`]). When no coordinate
/// holds `;`, the part after the walking table path splits at `;` into the
/// coordinates, in order.
pub fn table_url(base_url: &str, coordinates: &[String]) -> (result: String)
    ensures
        result@ == spec_table_url(base_url@, coordinates@.map_values(|c: String| c@)),
        coordinates_without_separator(coordinates@.map_values(|c: String| c@)) ==> {
            let prefix = trim_end_char(base_url@, '/') + TABLE_PATH@;
            &&& result@.take(prefix.len() as int) == prefix
            &&& coordinates@.len() == 0 ==> result@ == prefix
            &&& coordinates@.len() > 0 ==> split_on(result@.skip(prefix.len() as int), ';')
                == coordinates@.map_values(|c: String| c@)
        },
{
    let ghost cs = coordinates@.map_values(|c: String| c@);
    proof {
        if coordinates_without_separator(cs) {
            lemma_table_url_coordinates(base_url@, cs);
        }
    }
    let chars = chars_of(base_url);
    let mut end = chars.len();
    assert(chars@.subrange(0, end as int) == base_url@);
    while end > 0 && chars[end - 1] == '/'
        invariant
            end <= chars@.len(),
            trim_end_char(base_url@, '/') == trim_end_char(chars@.subrange(0, end as int), '/'),
        decreases end,
    {
        proof {
            let t = chars@.subrange(0, end as int);
            assert(t.drop_last() == chars@.subrange(0, end - 1));
            assert(t.last() == chars@[end - 1]);
        }
        end = end - 1;
    }
    proof {
        let t = chars@.subrange(0, end as int);
        if end > 0 {
            assert(t.last() == chars@[end - 1]);
        }
    }
    let mut out = String::new();
    let mut i: usize = 0;
    while i < end
        invariant
            i <= end <= chars@.len(),
            out@ == chars@.subrange(0, i as int),
        decreases end - i,
    {
        push_char(&mut out, chars[i]);
        assert(chars@.subrange(0, i + 1) == chars@.subrange(0, i as int).push(chars@[i as int]));
        i = i + 1;
    }
    out.append(TABLE_PATH);
    let ghost prefix = out@;
    assert(prefix == trim_end_char(base_url@, '/') + TABLE_PATH@);
    let mut k: usize = 0;
    assert(join_coordinates(cs.take(0)) =~= Seq::<char>::empty());
    assert(prefix + join_coordinates(cs.take(0)) =~= prefix);
    while k < coordinates.len()
        invariant
            k <= coordinates@.len(),
            cs == coordinates@.map_values(|c: String| c@),
            out@ == prefix + join_coordinates(cs.take(k as int)),
        decreases coordinates@.len() - k,
    {
        let ghost before = out@;
        proof {
            let t = cs.take(k + 1);
            assert(t.drop_last() == cs.take(k as int));
            assert(t.last() == coordinates@[k as int]@);
            if k == 0 {
                assert(t.len() == 1);
                assert(t[0] == coordinates@[0]@);
            }
        }
        if k > 0 {
            push_char(&mut out, ';');
        }
        out.append(coordinates[k].as_str());
        proof {
            let t = cs.take(k + 1);
            if k == 0 {
                assert(join_coordinates(t) == coordinates@[0]@);
                assert(out@ =~= prefix + join_coordinates(t));
            } else {
                assert(join_coordinates(t) == join_coordinates(cs.take(k as int)) + seq![';']
                    + coordinates@[k as int]@);
                assert(out@ =~= prefix + join_coordinates(t));
            }
        }
        k = k + 1;
    }
    assert(cs.take(cs.len() as int) == cs);
    out
}

/// A decoded OSRM Table API response whose durations have been read as
/// durations: `None` for a pair without a route or with a duration that is
/// not a finite, non-negative number of seconds.
#[derive(Debug)]
pub struct TableResponse {
    /// Status code from OSRM (`Ok` on success).
    pub code: String,
    /// Error message when the code is not `Ok`.
    pub message: Option<String>,
    /// Durations between all pairs of coordinates, if the response has
    /// them.
    pub durations: Option<Vec<Vec<Option<Duration>>>>,
}

impl TableResponse {
    /// Whether the response reports success.
    pub fn is_ok(&self) -> (result: bool)
        ensures
            result == (self.code@ == "Ok"@),
    {
        str_eq(self.code.as_str(), "Ok")
    }
}

/// The duration of a cell: its duration, or the greatest duration when the
/// pair is unreachable.
pub open spec fn cell_duration(cell: Option<Duration>) -> Duration {
    match cell {
        Some(d) => d,
        None => unreachable_duration(),
    }
}

/// The matrix of a table of cells, cell by cell.
pub open spec fn matrix_of_cells(rows: Seq<Vec<Option<Duration>>>, matrix: Seq<Vec<Duration>>) -> bool {
    &&& matrix.len() == rows.len()
    &&& forall|i: int|
        0 <= i < rows.len() ==> {
            &&& (#[trigger] matrix[i])@.len() == rows[i]@.len()
            &&& forall|j: int| 0 <= j < rows[i]@.len() ==> matrix[i]@[j] == cell_duration(rows[i]@[j])
        }
}

/// Convert a response into a travel time matrix: a service error carrying
/// the code and message (empty when absent) unless the code is `Ok`, a parse
/// error when the durations are missing, otherwise the matrix of the
/// durations with unreachable pairs at the greatest duration.
pub fn convert_response(response: TableResponse) -> (result: Result<Vec<Vec<Duration>>, TravelTimeError>)
    ensures
        response.code@ != "Ok"@ ==> (result matches Err(TravelTimeError::ServiceError { code, message })
            && code@ == response.code@ && message@ == match response.message {
            Some(m) => m@,
            None => Seq::<char>::empty(),
        }),
        response.code@ == "Ok"@ ==> match response.durations {
            None => result matches Err(TravelTimeError::ParseError { message })
                && message@ == "OSRM response missing durations array"@,
            Some(rows) => result matches Ok(matrix) && matrix_of_cells(rows@, matrix@),
        },
{
    if !response.is_ok() {
        let message = match response.message {
            Some(m) => m,
            None => String::new(),
        };
        return Err(TravelTimeError::ServiceError { code: response.code, message });
    }
    let rows = match response.durations {
        Some(rows) => rows,
        None => {
            return Err(
                TravelTimeError::ParseError {
                    message: String::from_str("OSRM response missing durations array"),
                },
            );
        },
    };
    let unreachable = max_duration();
    let mut matrix: Vec<Vec<Duration>> = Vec::new();
    let mut i: usize = 0;
    while i < rows.len()
        invariant
            i <= rows@.len(),
            unreachable == unreachable_duration(),
            matrix@.len() == i,
            forall|r: int|
                0 <= r < i ==> {
                    &&& (#[trigger] matrix@[r])@.len() == rows@[r]@.len()
                    &&& forall|j: int|
                        0 <= j < rows@[r]@.len() ==> matrix@[r]@[j] == cell_duration(rows@[r]@[j])
                },
        decreases rows@.len() - i,
    {
        let row = &rows[i];
        let mut out: Vec<Duration> = Vec::new();
        let mut j: usize = 0;
        while j < row.len()
            invariant
                j <= row@.len(),
                unreachable == unreachable_duration(),
                out@.len() == j,
                forall|c: int| 0 <= c < j ==> out@[c] == cell_duration(#[trigger] row@[c]),
            decreases row@.len() - j,
        {
            let d = match row[j] {
                Some(d) => d,
                None => unreachable,
            };
            out.push(d);
            j = j + 1;
        }
        matrix.push(out);
        i = i + 1;
    }
    Ok(matrix)
}

/// Fail with [`TravelTimeError::EmptyInput`] when there are no points of
/// interest.
pub fn require_pois<L>(pois: &[PointOfInterest<L>]) -> (result: Result<(), TravelTimeError>)
    ensures
        pois@.len() == 0 <==> result matches Err(TravelTimeError::EmptyInput),
        pois@.len() > 0 <==> result is Ok,
{
    if pois.len() == 0 {
        Err(TravelTimeError::EmptyInput)
    } else {
        Ok(())
    }
}

/// What a failed request reports: whether it timed out, the HTTP status if
/// the service answered, and a description.
#[derive(Debug, Clone)]
pub struct RequestFailure {
    pub timed_out: bool,
    pub status: Option<u16>,
    pub message: String,
}

/// Classify a failed request to `url`: a timeout (carrying the configured
/// timeout in seconds) first, then an HTTP error status, else a network
/// error.
pub fn classify_request_failure(url: &str, timeout_secs: u64, failure: RequestFailure) -> (result: TravelTimeError)
    ensures
        failure.timed_out ==> error_model(result) == TravelTimeErrorModel::Timeout(url@, timeout_secs),
        !failure.timed_out ==> match failure.status {
            Some(s) => error_model(result) == TravelTimeErrorModel::HttpError(url@, s, failure.message@),
            None => error_model(result) == TravelTimeErrorModel::NetworkError(url@, failure.message@),
        },
{
    if failure.timed_out {
        return TravelTimeError::Timeout { url: String::from_str(url), timeout_secs };
    }
    match failure.status {
        Some(status) => TravelTimeError::HttpError {
            url: String::from_str(url),
            status,
            message: failure.message,
        },
        None => TravelTimeError::NetworkError { url: String::from_str(url), message: failure.message },
    }
}

/// The duration of cell `(i, j)` of the unit matrix: zero on the diagonal,
/// one second elsewhere.
pub open spec fn spec_unit_duration(i: int, j: int) -> Duration {
    if i == j {
        duration_value(0, 0)
    } else {
        duration_value(1, 0)
    }
}

/// The duration of cell `(i, j)` of the unit matrix.
pub fn unit_duration(i: usize, j: usize) -> (result: Duration)
    ensures
        result == spec_unit_duration(i as int, j as int),
{
    if i == j {
        duration_new(0, 0)
    } else {
        seconds(1)
    }
}

/// Row `row_index` of the unit matrix of the given size.
pub fn build_unit_row(size: usize, row_index: usize) -> (result: Vec<Duration>)
    ensures
        result@.len() == size,
        forall|j: int| 0 <= j < size ==> result@[j] == spec_unit_duration(row_index as int, j),
{
    let mut row: Vec<Duration> = Vec::new();
    let mut j: usize = 0;
    while j < size
        invariant
            j <= size,
            row@.len() == j,
            forall|c: int| 0 <= c < j ==> row@[c] == spec_unit_duration(row_index as int, c),
        decreases size - j,
    {
        row.push(unit_duration(row_index, j));
        j = j + 1;
    }
    row
}

/// Whether a matrix is the unit matrix of the given size.
pub open spec fn is_unit_matrix(matrix: Seq<Vec<Duration>>, size: int) -> bool {
    &&& matrix.len() == size
    &&& forall|i: int|
        0 <= i < size ==> {
            &&& (#[trigger] matrix[i])@.len() == size
            &&& forall|j: int| 0 <= j < size ==> matrix[i]@[j] == spec_unit_duration(i, j)
        }
}

/// The unit matrix of the given size: zero on the diagonal, one second
/// elsewhere.
pub fn build_unit_matrix(size: usize) -> (result: Vec<Vec<Duration>>)
    ensures
        is_unit_matrix(result@, size as int),
{
    let mut matrix: Vec<Vec<Duration>> = Vec::new();
    let mut i: usize = 0;
    while i < size
        invariant
            i <= size,
            matrix@.len() == i,
            forall|r: int|
                0 <= r < i ==> {
                    &&& (#[trigger] matrix@[r])@.len() == size
                    &&& forall|j: int| 0 <= j < size ==> matrix@[r]@[j] == spec_unit_duration(r, j)
                },
        decreases size - i,
    {
        matrix.push(build_unit_row(size, i));
        i = i + 1;
    }
    matrix
}

/// Two matrices hold the same durations.
pub open spec fn same_matrix(a: Seq<Vec<Duration>>, b: Seq<Vec<Duration>>) -> bool {
    &&& a.len() == b.len()
    &&& forall|i: int| 0 <= i < a.len() ==> (#[trigger] a[i])@ == b[i]@
}

/// A copy of a matrix.
fn copy_matrix(matrix: &Vec<Vec<Duration>>) -> (result: Vec<Vec<Duration>>)
    ensures
        same_matrix(result@, matrix@),
{
    let mut out: Vec<Vec<Duration>> = Vec::new();
    let mut i: usize = 0;
    while i < matrix.len()
        invariant
            i <= matrix@.len(),
            out@.len() == i,
            forall|r: int| 0 <= r < i ==> (#[trigger] out@[r])@ == matrix@[r]@,
        decreases matrix@.len() - i,
    {
        let row = &matrix[i];
        let mut copy: Vec<Duration> = Vec::new();
        let mut j: usize = 0;
        while j < row.len()
            invariant
                j <= row@.len(),
                copy@ == row@.subrange(0, j as int),
            decreases row@.len() - j,
        {
            copy.push(row[j]);
            assert(copy@ =~= row@.subrange(0, j + 1));
            j = j + 1;
        }
        assert(row@.subrange(0, row@.len() as int) == row@);
        out.push(copy);
        i = i + 1;
    }
    out
}

/// What the stub provider answers.
#[derive(Debug, Clone)]
enum StubResponse {
    Matrix(Vec<Vec<Duration>>),
    Error(TravelTimeError),
}

/// A travel time provider for tests, answering every non-empty request
/// with a fixed matrix or a fixed error.
#[derive(Debug, Clone)]
pub struct StubTravelTimeProvider {
    response: StubResponse,
}

impl StubTravelTimeProvider {
    /// The fixed answer: a matrix or an error.
    pub closed spec fn answer(&self) -> Result<Seq<Vec<Duration>>, TravelTimeErrorModel> {
        match self.response {
            StubResponse::Matrix(m) => Ok(m@),
            StubResponse::Error(e) => Err(error_model(e)),
        }
    }

    /// A provider answering with the given matrix.
    pub fn with_matrix(matrix: Vec<Vec<Duration>>) -> (result: Self)
        ensures
            result.answer() == Ok::<Seq<Vec<Duration>>, TravelTimeErrorModel>(matrix@),
    {
        StubTravelTimeProvider { response: StubResponse::Matrix(matrix) }
    }

    /// A provider answering with the given error (empty requests still get
    /// [`TravelTimeError::EmptyInput`]).
    pub fn with_error(error: TravelTimeError) -> (result: Self)
        ensures
            result.answer() == Err::<Seq<Vec<Duration>>, TravelTimeErrorModel>(error_model(error)),
    {
        StubTravelTimeProvider { response: StubResponse::Error(error) }
    }

    /// A provider answering with the unit matrix of the given size.
    pub fn with_unit_matrix(size: usize) -> (result: Self)
        ensures
            result.answer() matches Ok(m) && is_unit_matrix(m, size as int),
    {
        StubTravelTimeProvider::with_matrix(build_unit_matrix(size))
    }

    /// The travel time matrix for the points of interest: an empty-input
    /// error when there are none, otherwise the fixed answer.
    pub fn get_travel_time_matrix<L>(&self, pois: &[PointOfInterest<L>]) -> (result: Result<Vec<Vec<Duration>>, TravelTimeError>)
        ensures
            pois@.len() == 0 ==> result matches Err(TravelTimeError::EmptyInput),
            pois@.len() > 0 ==> match self.answer() {
                Ok(m) => result matches Ok(r) && same_matrix(r@, m),
                Err(e) => result matches Err(r) && error_model(r) == e,
            },
    {
        if let Err(e) = require_pois(pois) {
            return Err(e);
        }
        match &self.response {
            StubResponse::Matrix(matrix) => Ok(copy_matrix(matrix)),
            StubResponse::Error(error) => Err(error.duplicate()),
        }
    }
}

} // verus!
