//! The parameters of the history methods.

use crate::clock::{epoch_seconds, now};
use crate::json::{Json, JsonNumber};
use crate::text::same_text;
use vstd::prelude::*;

verus! {

/// How many results a page has unless asked otherwise.
pub const DEFAULT_LIMIT: u64 = 10_000;

/// How many results a page can have.
pub const MAX_LIMIT: u64 = 50_000;

/// The interval of forwarding pairs unless asked otherwise, in seconds.
pub const DEFAULT_INTERVAL: u64 = 3_600;

/// The shortest interval, in seconds.
pub const MIN_INTERVAL: u64 = 60;

/// The longest interval, in seconds.
pub const MAX_INTERVAL: u64 = 31_536_000;

/// The parameters of a call: by position, or by name.
pub enum Params<Q> {
    Positional(Vec<Json>),
    Named(Q),
}

/// Why parameters are not accepted.
#[derive(Clone, Copy, Debug, PartialEq, Eq, Structural)]
pub enum QueryError {
    StartAfterEnd,
    Limit,
    Interval,
    PpmOrder,
    Status,
}

impl QueryError {
    /// What the parameters must be.
    pub fn message(self) -> (r: &'static str)
        ensures
            r@ == match self {
                QueryError::StartAfterEnd => "start must not be after end"@,
                QueryError::Limit => "limit must be between 1 and 50000"@,
                QueryError::Interval => "interval must be between 60 seconds and 1 year"@,
                QueryError::PpmOrder => "min_ppm must not exceed max_ppm"@,
                QueryError::Status =>
                    "status must be destination_reached, route_failed, or unexpected_settlement"@,
            },
    {
        match self {
            QueryError::StartAfterEnd => "start must not be after end",
            QueryError::Limit => "limit must be between 1 and 50000",
            QueryError::Interval => "interval must be between 60 seconds and 1 year",
            QueryError::PpmOrder => "min_ppm must not exceed max_ppm",
            QueryError::Status =>
                "status must be destination_reached, route_failed, or unexpected_settlement",
        }
    }
}

/// The parameter at a position.
pub open spec fn param(values: Seq<Json>, i: int) -> Option<Json> {
    if i < values.len() {
        Some(values[i])
    } else {
        None
    }
}

/// The number at a position.
pub open spec fn number_param(values: Seq<Json>, i: int) -> Option<u64> {
    match param(values, i) {
        Some(value) => value.unsigned(),
        None => None,
    }
}

/// The text at a position.
pub open spec fn text_param(values: Seq<Json>, i: int) -> Option<Seq<char>> {
    match param(values, i) {
        Some(value) => value.text(),
        None => None,
    }
}

/// The number at a position, or a default.
pub open spec fn number_param_or(values: Seq<Json>, i: int, default: u64) -> u64 {
    match number_param(values, i) {
        Some(n) => n,
        None => default,
    }
}

/// The number of any kind at a position.
pub open spec fn any_number_param(values: Seq<Json>, i: int) -> Option<JsonNumber> {
    match param(values, i) {
        Some(Json::Number(n)) => Some(n),
        _ => None,
    }
}

fn number_at(values: &Vec<Json>, i: usize) -> (r: Option<u64>)
    ensures
        r == number_param(values@, i as int),
{
    if i < values.len() {
        values[i].as_u64()
    } else {
        None
    }
}

fn number_at_or(values: &Vec<Json>, i: usize, default: u64) -> (r: u64)
    ensures
        r == number_param_or(values@, i as int, default),
{
    match number_at(values, i) {
        Some(n) => n,
        None => default,
    }
}

fn text_at(values: &Vec<Json>, i: usize) -> (r: Option<String>)
    ensures
        r.deep_view() == text_param(values@, i as int),
{
    if i < values.len() {
        match values[i].as_str() {
            Some(text) => Some(text.to_owned()),
            None => None,
        }
    } else {
        None
    }
}

fn rate_at(values: &Vec<Json>, i: usize) -> (r: Option<&JsonNumber>)
    ensures
        match r {
            Some(rate) => any_number_param(values@, i as int) == Some(*rate),
            None => any_number_param(values@, i as int) is None,
        },
{
    if i < values.len() {
        match &values[i] {
            Json::Number(n) => Some(n),
            _ => None,
        }
    } else {
        None
    }
}

fn any_number_at(values: &Vec<Json>, i: usize) -> (r: Option<JsonNumber>)
    ensures
        r == any_number_param(values@, i as int),
{
    match rate_at(values, i) {
        Some(n) => Some(n.clone()),
        None => None,
    }
}

/// A range of time, and a page of what falls in it.
#[derive(Debug)]
pub struct RangeQuery {
    pub start: Option<u64>,
    pub end: Option<u64>,
    pub channel: Option<String>,
    pub cursor: Option<u64>,
    pub limit: u64,
}

/// What a range asks for.
pub struct RangeView {
    pub start: Option<u64>,
    pub end: Option<u64>,
    pub channel: Option<Seq<char>>,
    pub cursor: Option<u64>,
    pub limit: u64,
}

impl View for RangeQuery {
    type V = RangeView;

    open spec fn view(&self) -> RangeView {
        RangeView {
            start: self.start,
            end: self.end,
            channel: self.channel.deep_view(),
            cursor: self.cursor,
            limit: self.limit,
        }
    }
}

impl RangeView {
    /// The first and the last second of the range, which ends now unless asked otherwise.
    pub open spec fn range_at(self, now: u64) -> (u64, u64) {
        (
            match self.start {
                Some(start) => start,
                None => 0,
            },
            match self.end {
                Some(end) => end,
                None => now,
            },
        )
    }

    /// What is wrong with the range, if anything.
    pub open spec fn problem_at(self, now: u64) -> Option<QueryError> {
        if self.range_at(now).0 > self.range_at(now).1 {
            Some(QueryError::StartAfterEnd)
        } else if !(1 <= self.limit <= MAX_LIMIT) {
            Some(QueryError::Limit)
        } else {
            None
        }
    }

    /// The position after which the page begins.
    pub open spec fn after(self) -> u64 {
        match self.cursor {
            Some(cursor) => cursor,
            None => 0,
        }
    }
}

/// The range in parameters by position. Start and end come first.
pub open spec fn range_params(
    values: Seq<Json>,
    channel: Option<Seq<char>>,
    limit: int,
    cursor: int,
) -> RangeView {
    RangeView {
        start: number_param(values, 0),
        end: number_param(values, 1),
        channel,
        cursor: number_param(values, cursor),
        limit: number_param_or(values, limit, DEFAULT_LIMIT),
    }
}

/// The range that the parameters say. By position: start, end, channel, limit, cursor.
pub open spec fn range_of(params: Params<RangeQuery>) -> RangeView {
    match params {
        Params::Positional(values) => range_params(values@, text_param(values@, 2), 3, 4),
        Params::Named(query) => query@,
    }
}

/// Whether `r` is the outcome of reading a range at a time.
pub open spec fn is_range_outcome(
    r: Result<RangeQuery, QueryError>,
    params: Params<RangeQuery>,
    now: u64,
) -> bool {
    match range_of(params).problem_at(now) {
        Some(problem) => r == Err::<RangeQuery, QueryError>(problem),
        None => r matches Ok(query) && query@ == range_of(params),
    }
}

impl RangeQuery {
    /// The first and the last second of the range, which ends now unless asked otherwise.
    pub fn bounds_at(&self, now: u64) -> (r: (u64, u64))
        ensures
            r == self@.range_at(now),
    {
        let start: u64 = match self.start {
            Some(start) => start,
            None => 0,
        };
        let end: u64 = match self.end {
            Some(end) => end,
            None => now,
        };
        (start, end)
    }

    /// The first and the last second of the range, by the clock.
    pub fn bounds(&self) -> (r: (u64, u64))
        ensures
            exists|time: std::time::SystemTime|
                r == self@.range_at(#[trigger] epoch_seconds(time)),
    {
        let now: u64 = now();
        self.bounds_at(now)
    }

    fn validate_at(&self, now: u64) -> (r: Result<(), QueryError>)
        ensures
            match self@.problem_at(now) {
                Some(problem) => r == Err::<(), QueryError>(problem),
                None => r is Ok,
            },
    {
        let (start, end) = self.bounds_at(now);
        if start > end {
            Err(QueryError::StartAfterEnd)
        } else if self.limit < 1 || self.limit > MAX_LIMIT {
            Err(QueryError::Limit)
        } else {
            Ok(())
        }
    }

    fn positional(values: &Vec<Json>, channel: Option<String>, limit: usize, cursor: usize) -> (r:
        RangeQuery)
        ensures
            r@ == range_params(values@, channel.deep_view(), limit as int, cursor as int),
    {
        RangeQuery {
            start: number_at(values, 0),
            end: number_at(values, 1),
            channel,
            cursor: number_at(values, cursor),
            limit: number_at_or(values, limit, DEFAULT_LIMIT),
        }
    }

    /// Reads and checks the parameters of a range.
    pub fn parse_at(params: Params<RangeQuery>, now: u64) -> (r: Result<RangeQuery, QueryError>)
        ensures
            is_range_outcome(r, params, now),
    {
        let query = match params {
            Params::Positional(values) => RangeQuery::positional(&values, text_at(&values, 2), 3, 4),
            Params::Named(query) => query,
        };
        match query.validate_at(now) {
            Ok(_) => Ok(query),
            Err(error) => Err(error),
        }
    }

    /// Reads and checks the parameters of a range, by the clock.
    pub fn parse(params: Params<RangeQuery>) -> (r: Result<RangeQuery, QueryError>)
        ensures
            exists|time: std::time::SystemTime|
                is_range_outcome(r, params, #[trigger] epoch_seconds(time)),
    {
        let now: u64 = now();
        RangeQuery::parse_at(params, now)
    }
}

/// What is wrong with an interval, if anything.
pub open spec fn interval_problem(interval: Option<u64>) -> Option<QueryError> {
    match interval {
        Some(interval) => if MIN_INTERVAL <= interval <= MAX_INTERVAL {
            None
        } else {
            Some(QueryError::Interval)
        },
        None => None,
    }
}

/// The first of two problems.
pub open spec fn first_problem(a: Option<QueryError>, b: Option<QueryError>) -> Option<QueryError> {
    match a {
        Some(problem) => Some(problem),
        None => b,
    }
}

fn check_interval(interval: Option<u64>) -> (r: Result<(), QueryError>)
    ensures
        match interval_problem(interval) {
            Some(problem) => r == Err::<(), QueryError>(problem),
            None => r is Ok,
        },
{
    match interval {
        Some(interval) => if interval < MIN_INTERVAL || interval > MAX_INTERVAL {
            Err(QueryError::Interval)
        } else {
            Ok(())
        },
        None => Ok(()),
    }
}

/// A query for channel samples, or for the last one in each interval.
#[derive(Debug)]
pub struct SampleQuery {
    pub range: RangeQuery,
    pub interval: Option<u64>,
}

/// What a query for samples asks for.
pub struct SampleQueryView {
    pub range: RangeView,
    pub interval: Option<u64>,
}

impl View for SampleQuery {
    type V = SampleQueryView;

    open spec fn view(&self) -> SampleQueryView {
        SampleQueryView { range: self.range@, interval: self.interval }
    }
}

impl SampleQueryView {
    /// What is wrong with the query, if anything.
    pub open spec fn problem_at(self, now: u64) -> Option<QueryError> {
        first_problem(self.range.problem_at(now), interval_problem(self.interval))
    }
}

/// The query that the parameters say. By position: start, end, channel, limit, cursor, interval.
pub open spec fn sample_query_of(params: Params<SampleQuery>) -> SampleQueryView {
    match params {
        Params::Positional(values) => SampleQueryView {
            range: range_params(values@, text_param(values@, 2), 3, 4),
            interval: number_param(values@, 5),
        },
        Params::Named(query) => query@,
    }
}

/// Whether `r` is the outcome of reading a query for samples at a time.
pub open spec fn is_sample_outcome(
    r: Result<SampleQuery, QueryError>,
    params: Params<SampleQuery>,
    now: u64,
) -> bool {
    match sample_query_of(params).problem_at(now) {
        Some(problem) => r == Err::<SampleQuery, QueryError>(problem),
        None => r matches Ok(query) && query@ == sample_query_of(params),
    }
}

impl SampleQuery {
    /// Reads and checks the parameters of a query for samples.
    pub fn parse_at(params: Params<SampleQuery>, now: u64) -> (r: Result<SampleQuery, QueryError>)
        ensures
            is_sample_outcome(r, params, now),
    {
        let query = match params {
            Params::Positional(values) => SampleQuery {
                range: RangeQuery::positional(&values, text_at(&values, 2), 3, 4),
                interval: number_at(&values, 5),
            },
            Params::Named(query) => query,
        };
        if let Err(error) = query.range.validate_at(now) {
            return Err(error);
        }
        match check_interval(query.interval) {
            Ok(_) => Ok(query),
            Err(error) => Err(error),
        }
    }

    /// Reads and checks the parameters of a query for samples, by the clock.
    pub fn parse(params: Params<SampleQuery>) -> (r: Result<SampleQuery, QueryError>)
        ensures
            exists|time: std::time::SystemTime|
                is_sample_outcome(r, params, #[trigger] epoch_seconds(time)),
    {
        let now: u64 = now();
        SampleQuery::parse_at(params, now)
    }
}

/// A query for forwarding results by channel pair.
#[derive(Debug)]
pub struct PairQuery {
    pub range: RangeQuery,
    pub interval: u64,
    pub in_channel: Option<String>,
    pub out_channel: Option<String>,
    pub min_ppm: Option<JsonNumber>,
    pub max_ppm: Option<JsonNumber>,
}

/// What a query for pairs asks for.
pub struct PairQueryView {
    pub range: RangeView,
    pub interval: u64,
    pub in_channel: Option<Seq<char>>,
    pub out_channel: Option<Seq<char>>,
    pub min_ppm: Option<JsonNumber>,
    pub max_ppm: Option<JsonNumber>,
}

impl View for PairQuery {
    type V = PairQueryView;

    open spec fn view(&self) -> PairQueryView {
        PairQueryView {
            range: self.range@,
            interval: self.interval,
            in_channel: self.in_channel.deep_view(),
            out_channel: self.out_channel.deep_view(),
            min_ppm: self.min_ppm,
            max_ppm: self.max_ppm,
        }
    }
}

/// A floating-point number of 64 bits holds every integer up to this one.
pub const MAX_EXACT_RATE: u64 = 9_007_199_254_740_992;

/// The rate as an integer, where it is one that a floating-point number holds exactly.
pub open spec fn exact_rate(rate: JsonNumber) -> Option<int> {
    match rate {
        JsonNumber::Unsigned(n) => if n <= MAX_EXACT_RATE {
            Some(n as int)
        } else {
            None
        },
        JsonNumber::Negative(n) => if n >= -MAX_EXACT_RATE {
            Some(n as int)
        } else {
            None
        },
        JsonNumber::Float(_) => None,
    }
}

/// Whether the lower rate exceeds the upper. Integers are compared as they are; of other numbers,
/// `in_order` says whether the lower one is at most the upper one as a floating-point number.
pub open spec fn rates_cross(
    min_ppm: Option<JsonNumber>,
    max_ppm: Option<JsonNumber>,
    in_order: bool,
) -> bool {
    match (min_ppm, max_ppm) {
        (Some(min), Some(max)) => match (exact_rate(min), exact_rate(max)) {
            (Some(min), Some(max)) => min > max,
            _ => !in_order,
        },
        _ => false,
    }
}

fn exact(rate: &JsonNumber) -> (r: Option<i128>)
    ensures
        match r {
            Some(n) => exact_rate(*rate) == Some(n as int),
            None => exact_rate(*rate) is None,
        },
{
    match rate {
        JsonNumber::Unsigned(n) => if *n <= MAX_EXACT_RATE {
            Some(*n as i128)
        } else {
            None
        },
        JsonNumber::Negative(n) => if *n as i128 >= -(MAX_EXACT_RATE as i128) {
            Some(*n as i128)
        } else {
            None
        },
        JsonNumber::Float(_) => None,
    }
}

fn rates_are_crossed(
    min_ppm: &Option<JsonNumber>,
    max_ppm: &Option<JsonNumber>,
    in_order: bool,
) -> (r: bool)
    ensures
        r == rates_cross(*min_ppm, *max_ppm, in_order),
{
    match (min_ppm, max_ppm) {
        (Some(min), Some(max)) => match (exact(min), exact(max)) {
            (Some(min), Some(max)) => min > max,
            _ => !in_order,
        },
        _ => false,
    }
}

impl PairQueryView {
    /// What is wrong with the query, if anything, where `in_order` says whether rates that are no
    /// integers are in order.
    pub open spec fn problem_at(self, in_order: bool, now: u64) -> Option<QueryError> {
        first_problem(
            self.range.problem_at(now),
            first_problem(
                interval_problem(Some(self.interval)),
                if rates_cross(self.min_ppm, self.max_ppm, in_order) {
                    Some(QueryError::PpmOrder)
                } else {
                    None
                },
            ),
        )
    }
}

/// The query that the parameters say. By position: start, end, interval, in_channel, out_channel,
/// min_ppm, max_ppm, limit, cursor.
pub open spec fn pair_query_of(params: Params<PairQuery>) -> PairQueryView {
    match params {
        Params::Positional(values) => PairQueryView {
            range: range_params(values@, None, 7, 8),
            interval: number_param_or(values@, 2, DEFAULT_INTERVAL),
            in_channel: text_param(values@, 3),
            out_channel: text_param(values@, 4),
            min_ppm: any_number_param(values@, 5),
            max_ppm: any_number_param(values@, 6),
        },
        Params::Named(query) => query@,
    }
}

/// Whether `r` is the outcome of reading a query for pairs at a time.
pub open spec fn is_pair_outcome(
    r: Result<PairQuery, QueryError>,
    params: Params<PairQuery>,
    in_order: bool,
    now: u64,
) -> bool {
    match pair_query_of(params).problem_at(in_order, now) {
        Some(problem) => r == Err::<PairQuery, QueryError>(problem),
        None => r matches Ok(query) && query@ == pair_query_of(params),
    }
}

impl PairQuery {
    /// The lower and the upper rate that the parameters name.
    pub fn rates(params: &Params<PairQuery>) -> (r: (Option<&JsonNumber>, Option<&JsonNumber>))
        ensures
            match r.0 {
                Some(rate) => pair_query_of(*params).min_ppm == Some(*rate),
                None => pair_query_of(*params).min_ppm is None,
            },
            match r.1 {
                Some(rate) => pair_query_of(*params).max_ppm == Some(*rate),
                None => pair_query_of(*params).max_ppm is None,
            },
    {
        match params {
            Params::Positional(values) => (rate_at(values, 5), rate_at(values, 6)),
            Params::Named(query) => (query.min_ppm.as_ref(), query.max_ppm.as_ref()),
        }
    }

    /// Reads and checks the parameters of a query for pairs. The lower rate must not exceed the upper;
    /// `in_order` says whether it does not, as a floating-point number, and decides where the two are
    /// not integers that such a number holds.
    pub fn parse_at(params: Params<PairQuery>, in_order: bool, now: u64) -> (r: Result<
        PairQuery,
        QueryError,
    >)
        ensures
            is_pair_outcome(r, params, in_order, now),
    {
        let query = match params {
            Params::Positional(values) => PairQuery {
                range: RangeQuery::positional(&values, None, 7, 8),
                interval: number_at_or(&values, 2, DEFAULT_INTERVAL),
                in_channel: text_at(&values, 3),
                out_channel: text_at(&values, 4),
                min_ppm: any_number_at(&values, 5),
                max_ppm: any_number_at(&values, 6),
            },
            Params::Named(query) => query,
        };
        if let Err(error) = query.range.validate_at(now) {
            return Err(error);
        }
        if let Err(error) = check_interval(Some(query.interval)) {
            return Err(error);
        }
        if rates_are_crossed(&query.min_ppm, &query.max_ppm, in_order) {
            return Err(QueryError::PpmOrder);
        }
        Ok(query)
    }

    /// Reads and checks the parameters of a query for pairs, by the clock.
    pub fn parse(params: Params<PairQuery>, in_order: bool) -> (r: Result<PairQuery, QueryError>)
        ensures
            exists|time: std::time::SystemTime|
                is_pair_outcome(r, params, in_order, #[trigger] epoch_seconds(time)),
    {
        let now: u64 = now();
        PairQuery::parse_at(params, in_order, now)
    }
}

/// Integer rates are compared as integers: a query that is sound otherwise is refused if and only if the
/// lower one exceeds the upper one.
pub proof fn law_integer_rates_are_compared_exactly(
    query: PairQueryView,
    min: JsonNumber,
    max: JsonNumber,
    in_order: bool,
    now: u64,
)
    requires
        query.min_ppm == Some(min),
        query.max_ppm == Some(max),
        exact_rate(min) is Some,
        exact_rate(max) is Some,
        query.range.problem_at(now) is None,
        interval_problem(Some(query.interval)) is None,
    ensures
        query.problem_at(in_order, now) == if exact_rate(min)->0 > exact_rate(max)->0 {
            Some(QueryError::PpmOrder)
        } else {
            None
        },
{
}

/// A query for channel and peer events.
#[derive(Debug)]
pub struct EventQuery {
    pub range: RangeQuery,
    pub event_type: Option<String>,
}

/// What a query for events asks for.
pub struct EventQueryView {
    pub range: RangeView,
    pub event_type: Option<Seq<char>>,
}

impl View for EventQuery {
    type V = EventQueryView;

    open spec fn view(&self) -> EventQueryView {
        EventQueryView { range: self.range@, event_type: self.event_type.deep_view() }
    }
}

/// The query that the parameters say. By position: start, end, channel, event_type, limit, cursor.
pub open spec fn event_query_of(params: Params<EventQuery>) -> EventQueryView {
    match params {
        Params::Positional(values) => EventQueryView {
            range: range_params(values@, text_param(values@, 2), 4, 5),
            event_type: text_param(values@, 3),
        },
        Params::Named(query) => query@,
    }
}

/// Whether `r` is the outcome of reading a query for events at a time.
pub open spec fn is_event_outcome(
    r: Result<EventQuery, QueryError>,
    params: Params<EventQuery>,
    now: u64,
) -> bool {
    match event_query_of(params).range.problem_at(now) {
        Some(problem) => r == Err::<EventQuery, QueryError>(problem),
        None => r matches Ok(query) && query@ == event_query_of(params),
    }
}

impl EventQuery {
    /// Reads and checks the parameters of a query for events.
    pub fn parse_at(params: Params<EventQuery>, now: u64) -> (r: Result<EventQuery, QueryError>)
        ensures
            is_event_outcome(r, params, now),
    {
        let query = match params {
            Params::Positional(values) => EventQuery {
                range: RangeQuery::positional(&values, text_at(&values, 2), 4, 5),
                event_type: text_at(&values, 3),
            },
            Params::Named(query) => query,
        };
        match query.range.validate_at(now) {
            Ok(_) => Ok(query),
            Err(error) => Err(error),
        }
    }

    /// Reads and checks the parameters of a query for events, by the clock.
    pub fn parse(params: Params<EventQuery>) -> (r: Result<EventQuery, QueryError>)
        ensures
            exists|time: std::time::SystemTime|
                is_event_outcome(r, params, #[trigger] epoch_seconds(time)),
    {
        let now: u64 = now();
        EventQuery::parse_at(params, now)
    }
}

/// A query for probe results, or for what they show in each interval.
#[derive(Debug)]
pub struct ProbeQuery {
    pub range: RangeQuery,
    pub status: Option<String>,
    pub destination: Option<String>,
    pub interval: Option<u64>,
}

/// What a query for probes asks for.
pub struct ProbeQueryView {
    pub range: RangeView,
    pub status: Option<Seq<char>>,
    pub destination: Option<Seq<char>>,
    pub interval: Option<u64>,
}

impl View for ProbeQuery {
    type V = ProbeQueryView;

    open spec fn view(&self) -> ProbeQueryView {
        ProbeQueryView {
            range: self.range@,
            status: self.status.deep_view(),
            destination: self.destination.deep_view(),
            interval: self.interval,
        }
    }
}

/// Whether a probe can end with that status.
pub open spec fn is_probe_status(status: Seq<char>) -> bool {
    status == "destination_reached"@ || status == "route_failed"@ || status
        == "unexpected_settlement"@
}

/// Whether a probe can end with that status.
pub fn probe_status(status: &str) -> (r: bool)
    ensures
        r == is_probe_status(status@),
{
    same_text(status, "destination_reached") || same_text(status, "route_failed") || same_text(
        status,
        "unexpected_settlement",
    )
}

impl ProbeQueryView {
    /// What is wrong with the query, if anything.
    pub open spec fn problem_at(self, now: u64) -> Option<QueryError> {
        first_problem(
            self.range.problem_at(now),
            first_problem(
                interval_problem(self.interval),
                match self.status {
                    Some(status) => if is_probe_status(status) {
                        None
                    } else {
                        Some(QueryError::Status)
                    },
                    None => None,
                },
            ),
        )
    }
}

/// The query that the parameters say. By position: start, end, channel, status, interval, limit,
/// cursor.
pub open spec fn probe_query_of(params: Params<ProbeQuery>) -> ProbeQueryView {
    match params {
        Params::Positional(values) => ProbeQueryView {
            range: range_params(values@, text_param(values@, 2), 5, 6),
            status: text_param(values@, 3),
            destination: None,
            interval: number_param(values@, 4),
        },
        Params::Named(query) => query@,
    }
}

/// Whether `r` is the outcome of reading a query for probes at a time.
pub open spec fn is_probe_outcome(
    r: Result<ProbeQuery, QueryError>,
    params: Params<ProbeQuery>,
    now: u64,
) -> bool {
    match probe_query_of(params).problem_at(now) {
        Some(problem) => r == Err::<ProbeQuery, QueryError>(problem),
        None => r matches Ok(query) && query@ == probe_query_of(params),
    }
}

impl ProbeQuery {
    /// Reads and checks the parameters of a query for probes.
    pub fn parse_at(params: Params<ProbeQuery>, now: u64) -> (r: Result<ProbeQuery, QueryError>)
        ensures
            is_probe_outcome(r, params, now),
    {
        let query = match params {
            Params::Positional(values) => ProbeQuery {
                range: RangeQuery::positional(&values, text_at(&values, 2), 5, 6),
                status: text_at(&values, 3),
                destination: None,
                interval: number_at(&values, 4),
            },
            Params::Named(query) => query,
        };
        if let Err(error) = query.range.validate_at(now) {
            return Err(error);
        }
        if let Err(error) = check_interval(query.interval) {
            return Err(error);
        }
        if let Some(status) = &query.status {
            if !probe_status(status.as_str()) {
                return Err(QueryError::Status);
            }
        }
        Ok(query)
    }

    /// Reads and checks the parameters of a query for probes, by the clock.
    pub fn parse(params: Params<ProbeQuery>) -> (r: Result<ProbeQuery, QueryError>)
        ensures
            exists|time: std::time::SystemTime|
                is_probe_outcome(r, params, #[trigger] epoch_seconds(time)),
    {
        let now: u64 = now();
        ProbeQuery::parse_at(params, now)
    }
}

} // verus!
