//! Feed routing and HTTP outcome decisions: which URL serves a sport, how a
//! response status and `Retry-After` header become a feed error, and how a
//! response body becomes a snapshot.

use vstd::prelude::*;
use crate::chars::{
    all_digits, all_digits_exec, concat, from_chars, parse_unsigned, parse_unsigned_exec,
    to_chars, trim_exec, trim_ws,
};
use crate::cricinfo::{parse, spec_parse, POLL_INTERVAL_SEC};
use crate::espn::{normalize, spec_normalize};
use crate::json::{decode_json, deref_opt, json_decode, Json};
use crate::model::{Match, MatchView};
use crate::url::str_eq;
use vstd::string::StringSliceAdditionalSpecFns;

verus! {

/// A feed failure: its state, its message, and the seconds to wait before
/// the next request when the provider said so.
pub type FeedError = (&'static str, &'static str, Option<u64>);

/// The largest response body accepted, in bytes.
pub const MAX_BODY: u64 = 2 * 1024 * 1024;

/// The polling period of the ESPN scoreboards, in seconds.
pub const ESPN_POLL_INTERVAL_SEC: u64 = 30;

/// An instant: whole seconds since the Unix epoch and nanoseconds past them.
#[derive(Debug)]
pub struct Timestamp {
    pub secs: i64,
    pub nanos: u32,
}

/* Routing */

/// The football competitions that can be followed.
pub open spec fn is_football_league(l: Seq<char>) -> bool {
    ||| l == "eng.1"@
    ||| l == "eng.2"@
    ||| l == "eng.3"@
    ||| l == "eng.4"@
    ||| l == "sco.1"@
    ||| l == "uefa.champions"@
    ||| l == "uefa.europa"@
    ||| l == "esp.1"@
    ||| l == "ger.1"@
    ||| l == "ita.1"@
    ||| l == "fra.1"@
    ||| l == "usa.1"@
    ||| l == "fifa.world"@
}

/// The rugby competitions that can be followed.
pub open spec fn is_rugby_league(l: Seq<char>) -> bool {
    l == "267979"@ || l == "180659"@
}

/// The URL of the feed for a sport and competition. Only allow-listed
/// competitions are ever put into a URL.
pub open spec fn spec_feed_url(sport: Seq<char>, league: Seq<char>) -> Result<Seq<char>, FeedError> {
    if sport == "nfl"@ {
        Ok("https://cdn.espn.com/core/nfl/scoreboard?xhr=1&limit=50"@)
    } else if sport == "football"@ {
        if is_football_league(league) {
            Ok("https://cdn.espn.com/core/soccer/scoreboard?xhr=1&league="@ + league)
        } else {
            Err(("unsupported", "Football competition is not supported", None))
        }
    } else if sport == "rugby"@ {
        if is_rugby_league(league) {
            Ok("https://cdn.espn.com/core/rugby/scoreboard?xhr=1&league="@ + league)
        } else {
            Err(("unsupported", "Rugby competition is not supported", None))
        }
    } else if sport == "cricket"@ {
        Ok("https://static.cricinfo.com/rss/livescores.xml"@)
    } else {
        Err(("unsupported", "Unsupported sport", None))
    }
}

fn football_league(l: &str) -> (r: bool)
    ensures
        r == is_football_league(l@),
{
    str_eq(l, "eng.1") || str_eq(l, "eng.2") || str_eq(l, "eng.3") || str_eq(l, "eng.4")
        || str_eq(l, "sco.1") || str_eq(l, "uefa.champions") || str_eq(l, "uefa.europa")
        || str_eq(l, "esp.1") || str_eq(l, "ger.1") || str_eq(l, "ita.1") || str_eq(l, "fra.1")
        || str_eq(l, "usa.1") || str_eq(l, "fifa.world")
}

fn join2(a: &str, b: &str) -> (r: String)
    ensures
        r@ == a@ + b@,
{
    from_chars(&concat(&to_chars(a), &to_chars(b)))
}

/// The feed URL for `sport` and `league` (see `spec_feed_url`).
pub fn feed_url(sport: &str, league: &str) -> (r: Result<String, FeedError>)
    ensures
        match r {
            Ok(u) => spec_feed_url(sport@, league@) == Ok::<Seq<char>, FeedError>(u@),
            Err(e) => spec_feed_url(sport@, league@) == Err::<Seq<char>, FeedError>(e),
        },
{
    if str_eq(sport, "nfl") {
        Ok("https://cdn.espn.com/core/nfl/scoreboard?xhr=1&limit=50".to_owned())
    } else if str_eq(sport, "football") {
        if football_league(league) {
            Ok(join2("https://cdn.espn.com/core/soccer/scoreboard?xhr=1&league=", league))
        } else {
            Err(("unsupported", "Football competition is not supported", None))
        }
    } else if str_eq(sport, "rugby") {
        if str_eq(league, "267979") || str_eq(league, "180659") {
            Ok(join2("https://cdn.espn.com/core/rugby/scoreboard?xhr=1&league=", league))
        } else {
            Err(("unsupported", "Rugby competition is not supported", None))
        }
    } else if str_eq(sport, "cricket") {
        Ok("https://static.cricinfo.com/rss/livescores.xml".to_owned())
    } else {
        Err(("unsupported", "Unsupported sport", None))
    }
}

/// The competition followed when none is chosen: the Six Nations feed for
/// rugby, the Premier League otherwise.
pub fn default_league(sport: &str) -> (r: &'static str)
    ensures
        r@ == if sport@ == "rugby"@ {
            "267979"@
        } else {
            "eng.1"@
        },
{
    if str_eq(sport, "rugby") {
        "267979"
    } else {
        "eng.1"
    }
}

/* Retry-After */

/// The number of whole milliseconds from `observed` to the instant that an
/// RFC 2822 date denotes, as `chrono` computes it; `None` where the text is
/// not such a date (or `observed` lies outside `chrono`'s range).
pub uninterp spec fn rfc2822_millis_since(value: Seq<char>, secs: i64, nanos: u32) -> Option<i64>;

/// `chrono::DateTime::parse_from_rfc2822`, then
/// `signed_duration_since(observed).num_milliseconds()`. The result is only
/// tied to the named computation; the date grammar and calendar arithmetic
/// are `chrono`'s.
#[verifier::external_body]
fn millis_until_rfc2822(value: &str, observed: &Timestamp) -> (r: Option<i64>)
    ensures
        r == rfc2822_millis_since(value@, observed.secs, observed.nanos),
{
    let observed = chrono::DateTime::from_timestamp(observed.secs, observed.nanos)?;
    chrono::DateTime::parse_from_rfc2822(value).ok().map(
        |d| d.signed_duration_since(observed).num_milliseconds(),
    )
}

/// A wait in whole seconds for a date `ms` milliseconds away: a date in the
/// past waits nothing, and a part second is rounded up, so the wait is never
/// shorter than the server asked.
pub open spec fn wait_secs(ms: i64) -> u64 {
    let m = if ms < 0 {
        0
    } else {
        ms as u64
    };
    (m / 1000 + if m % 1000 != 0 {
        1u64
    } else {
        0u64
    }) as u64
}

/// The wait for a date `ms` milliseconds away (see `wait_secs`).
pub fn retry_from_millis(ms: i64) -> (r: u64)
    ensures
        r == wait_secs(ms),
{
    let m: u64 = if ms < 0 {
        0
    } else {
        ms as u64
    };
    m / 1000 + if m % 1000 != 0 {
        1
    } else {
        0
    }
}

/// A `Retry-After` value: a non-negative number of seconds (saturating at
/// `u64::MAX`), or an HTTP date, as a wait from `observed`.
pub open spec fn spec_retry_after(value: Seq<char>, secs: i64, nanos: u32) -> Option<u64> {
    let v = trim_ws(value);
    if v.len() > 0 && all_digits(v) {
        Some(
            match parse_unsigned(v, u64::MAX) {
                Some(n) => n,
                None => u64::MAX,
            },
        )
    } else {
        match rfc2822_millis_since(v, secs, nanos) {
            Some(ms) => Some(wait_secs(ms)),
            None => None,
        }
    }
}

/// The wait that a `Retry-After` header asks for (see `spec_retry_after`).
pub fn retry_after(value: &str, observed: &Timestamp) -> (r: Option<u64>)
    ensures
        r == spec_retry_after(value@, observed.secs, observed.nanos),
{
    let v = trim_exec(&to_chars(value));
    if v.len() > 0 && all_digits_exec(&v) {
        return Some(
            match parse_unsigned_exec(&v, u64::MAX) {
                Some(n) => n,
                None => u64::MAX,
            },
        );
    }
    let trimmed = from_chars(&v);
    match millis_until_rfc2822(trimmed.as_str(), observed) {
        Some(ms) => Some(retry_from_millis(ms)),
        None => None,
    }
}

/* Responses */

/// The state and message of an HTTP status, `None` for success.
pub open spec fn status_error(status: u16) -> Option<(&'static str, &'static str)> {
    if status == 200 {
        None
    } else if status == 401 || status == 403 {
        Some(("access-denied", "Provider denied access"))
    } else if status == 429 {
        Some(("rate-limited", "Provider quota reached; polling backed off"))
    } else {
        Some(("failed", "Provider returned an HTTP error"))
    }
}

/// A string that may be absent, as characters.
pub open spec fn str_view(s: Option<&str>) -> Option<Seq<char>> {
    match s {
        Some(t) => Some(t@),
        None => None,
    }
}

/// The feed error of a response: none for 200; otherwise the status's state
/// and message, with the wait asked for by its `Retry-After` header.
pub open spec fn spec_response_error(
    status: u16,
    header: Option<Seq<char>>,
    secs: i64,
    nanos: u32,
) -> Option<FeedError> {
    match status_error(status) {
        None => None,
        Some((state, message)) => Some(
            (
                state,
                message,
                match header {
                    Some(h) => spec_retry_after(h, secs, nanos),
                    None => None,
                },
            ),
        ),
    }
}

/// The feed error of a response (see `spec_response_error`).
pub fn response_error(status: u16, header: Option<&str>, observed: &Timestamp) -> (r: Option<
    FeedError,
>)
    ensures
        r == spec_response_error(status, str_view(header), observed.secs, observed.nanos),
{
    let (state, message) = if status == 200 {
        return None;
    } else if status == 401 || status == 403 {
        ("access-denied", "Provider denied access")
    } else if status == 429 {
        ("rate-limited", "Provider quota reached; polling backed off")
    } else {
        ("failed", "Provider returned an HTTP error")
    };
    let wait = match header {
        Some(h) => retry_after(h, observed),
        None => None,
    };
    Some((state, message, wait))
}

/* Bodies */

/// `std::str::from_utf8`: the bytes as a string slice exactly when they are
/// valid UTF-8; the slice is made of those same bytes.
#[verifier::external_body]
fn utf8_str(bytes: &[u8]) -> (r: Option<&str>)
    ensures
        r is Some == vstd::utf8::valid_utf8(bytes@),
        r matches Some(s) ==> s.spec_bytes() == bytes@,
{
    std::str::from_utf8(bytes).ok()
}

/// The error for a response body of `len` bytes: too large past `MAX_BODY`.
pub open spec fn spec_body_error(len: nat) -> Option<FeedError> {
    if len > MAX_BODY {
        Some(("failed", "Feed exceeded response size limit", None))
    } else {
        None
    }
}

/// The error for a response body of `len` bytes (see `spec_body_error`).
pub fn body_error(len: usize) -> (r: Option<FeedError>)
    ensures
        r == spec_body_error(len as nat),
{
    if len as u64 > MAX_BODY {
        Some(("failed", "Feed exceeded response size limit", None))
    } else {
        None
    }
}

/// The cricket snapshot of a response body: UTF-8 text within `MAX_BODY`
/// bytes, parsed as the live-scores RSS, polled every `POLL_INTERVAL_SEC`.
pub open spec fn spec_cricket_feed(bytes: Seq<u8>) -> Result<(Seq<MatchView>, u64), FeedError> {
    match spec_body_error(bytes.len()) {
        Some(e) => Err(e),
        None => if !vstd::utf8::valid_utf8(bytes) {
            Err(("failed", "Cricket feed is not UTF-8", None))
        } else {
            match spec_parse(vstd::utf8::decode_utf8(bytes)) {
                Ok(ms) => Ok((ms, POLL_INTERVAL_SEC)),
                Err(e) => Err(("failed", e, None)),
            }
        },
    }
}

/// The cricket snapshot of a response body (see `spec_cricket_feed`).
pub fn cricket_feed(bytes: &[u8]) -> (r: Result<(Vec<Match>, u64), FeedError>)
    ensures
        match r {
            Ok((ms, secs)) => spec_cricket_feed(bytes@) == Ok::<(Seq<MatchView>, u64), FeedError>(
                (ms.deep_view(), secs),
            ),
            Err(e) => spec_cricket_feed(bytes@) == Err::<(Seq<MatchView>, u64), FeedError>(e),
        },
{
    if let Some(e) = body_error(bytes.len()) {
        return Err(e);
    }
    let xml = match utf8_str(bytes) {
        Some(s) => s,
        None => {
            return Err(("failed", "Cricket feed is not UTF-8", None));
        },
    };
    proof {
        vstd::utf8::encode_utf8_decode_utf8(xml@);
    }
    match parse(xml) {
        Ok(ms) => Ok((ms, POLL_INTERVAL_SEC)),
        Err(e) => Err(("failed", e, None)),
    }
}

/// The scoreboard snapshot of a decoded JSON body (`None` where the body is
/// not JSON), polled every `ESPN_POLL_INTERVAL_SEC`.
pub open spec fn spec_espn_feed(sport: Seq<char>, doc: Option<Json>) -> Result<
    (Seq<MatchView>, u64),
    FeedError,
> {
    match doc {
        None => Err(("failed", "Feed returned invalid JSON", None)),
        Some(v) => match spec_normalize(sport, Some(v)) {
            Ok(ms) => Ok((ms, ESPN_POLL_INTERVAL_SEC)),
            Err(e) => Err(("failed", e, None)),
        },
    }
}

/// The scoreboard snapshot of a decoded JSON body (see `spec_espn_feed`).
pub fn espn_feed(sport: &str, doc: Option<&Json>) -> (r: Result<(Vec<Match>, u64), FeedError>)
    ensures
        match r {
            Ok((ms, secs)) => spec_espn_feed(sport@, deref_opt(doc)) == Ok::<
                (Seq<MatchView>, u64),
                FeedError,
            >((ms.deep_view(), secs)),
            Err(e) => spec_espn_feed(sport@, deref_opt(doc)) == Err::<
                (Seq<MatchView>, u64),
                FeedError,
            >(e),
        },
{
    match doc {
        None => Err(("failed", "Feed returned invalid JSON", None)),
        Some(v) => match normalize(sport, v) {
            Ok(ms) => Ok((ms, ESPN_POLL_INTERVAL_SEC)),
            Err(e) => Err(("failed", e, None)),
        },
    }
}

/// The snapshot of a response body for `sport`: the body must fit in
/// `MAX_BODY` bytes; the cricket feed is RSS, every other feed is the JSON
/// document that the body decodes to (see `json_decode`).
pub open spec fn spec_snapshot(sport: Seq<char>, bytes: Seq<u8>) -> Result<
    (Seq<MatchView>, u64),
    FeedError,
> {
    match spec_body_error(bytes.len()) {
        Some(e) => Err(e),
        None => if sport == "cricket"@ {
            spec_cricket_feed(bytes)
        } else {
            spec_espn_feed(sport, json_decode(bytes))
        },
    }
}

/// The snapshot of a response body (see `spec_snapshot`).
pub fn snapshot(sport: &str, bytes: &[u8]) -> (r: Result<(Vec<Match>, u64), FeedError>)
    ensures
        match r {
            Ok((ms, secs)) => spec_snapshot(sport@, bytes@) == Ok::<
                (Seq<MatchView>, u64),
                FeedError,
            >((ms.deep_view(), secs)),
            Err(e) => spec_snapshot(sport@, bytes@) == Err::<(Seq<MatchView>, u64), FeedError>(e),
        },
{
    if let Some(e) = body_error(bytes.len()) {
        return Err(e);
    }
    if str_eq(sport, "cricket") {
        cricket_feed(bytes)
    } else {
        match decode_json(bytes) {
            Some(doc) => espn_feed(sport, Some(&doc)),
            None => espn_feed(sport, None),
        }
    }
}

/// The state of a successful snapshot: `empty` without matches, `ready`
/// otherwise.
pub fn snapshot_state(matches: &Vec<Match>) -> (r: &'static str)
    ensures
        r@ == if matches.len() == 0 {
            "empty"@
        } else {
            "ready"@
        },
{
    if matches.len() == 0 {
        "empty"
    } else {
        "ready"
    }
}

} // verus!
