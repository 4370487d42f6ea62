use sportsbar::espn::normalize;
use sportsbar::feed::{
    body_error, default_league, espn_feed, snapshot, feed_url, response_error, retry_after,
    retry_from_millis, snapshot_state, Timestamp, ESPN_POLL_INTERVAL_SEC,
};
use sportsbar::json::{number, text, Json, JsonNumber};
use sportsbar::model::MatchState;

fn to_json(v: &serde_json::Value) -> Json {
    match v {
        serde_json::Value::Null => Json::Null,
        serde_json::Value::Bool(b) => Json::Bool(*b),
        serde_json::Value::Number(n) => Json::Number(JsonNumber {
            as_u64: n.as_u64(),
            text: serde_json::Value::Number(n.clone()).to_string(),
        }),
        serde_json::Value::String(s) => Json::Str(s.clone()),
        serde_json::Value::Array(a) => Json::Array(a.iter().map(to_json).collect()),
        serde_json::Value::Object(m) => {
            Json::Object(m.iter().map(|(k, v)| (k.clone(), to_json(v))).collect())
        }
    }
}

fn json(s: &str) -> Json {
    to_json(&serde_json::from_str::<serde_json::Value>(s).unwrap())
}

fn board(events: &str) -> Json {
    json(&format!(r#"{{"content":{{"sbData":{{"events":{events}}}}}}}"#))
}

const PAIR: &str = r#"[{"team":{"id":"a","displayName":"A"},"score":3},{"team":{"id":"b","displayName":"B"},"score":"2"}]"#;

#[test]
fn status_falls_back_to_the_event() {
    let v = board(&format!(
        r#"[{{"id":"9","name":"A v B","date":"d","status":{{"type":{{"state":"pre","shortDetail":"Sat"}}}},"competitions":[{{"status":null,"competitors":{PAIR}}}]}}]"#
    ));
    let m = normalize("nfl", &v).unwrap();
    assert_eq!(m[0].state, MatchState::Scheduled);
    assert_eq!(m[0].detail, "Sat");
    assert_eq!(m[0].start, "d");
    assert_eq!(m[0].teams[0].score, Some(3));
    assert_eq!(m[0].teams[1].score, Some(2));
    assert!(m[0].innings.is_empty());
    assert!(m[0].cricinfo.is_none());
}

#[test]
fn unknown_or_missing_state_is_unknown() {
    for status in [r#"{"type":{"state":"delayed"}}"#, r#"{}"#] {
        let v = board(&format!(
            r#"[{{"id":"9","name":"A v B","status":{status},"competitions":[{{"competitors":{PAIR}}}]}}]"#
        ));
        assert_eq!(normalize("rugby", &v).unwrap()[0].state, MatchState::Unknown);
    }
}

#[test]
fn competitions_without_two_teams_are_skipped() {
    let v = board(
        r#"[{"id":"9","name":"Race","competitions":[{"competitors":[{"team":{"id":"a","displayName":"A"}}]}]}]"#,
    );
    assert!(normalize("nfl", &v).unwrap().is_empty());
    let v = board(r#"[{"id":"9","name":"A v B","competitions":[{"competitors":{}}]}]"#);
    assert_eq!(normalize("nfl", &v).unwrap_err(), "Unexpected provider response");
    let v = board(r#"[{"id":"9","name":"A v B"}]"#);
    assert_eq!(normalize("nfl", &v).unwrap_err(), "Unexpected provider response");
}

#[test]
fn missing_identity_is_an_error() {
    let no_id = board(&format!(r#"[{{"name":"A v B","competitions":[{{"competitors":{PAIR}}}]}}]"#));
    assert_eq!(
        normalize("nfl", &no_id).unwrap_err(),
        "Provider omitted match or team identity"
    );
    let no_name = board(
        r#"[{"id":"9","competitions":[{"competitors":[{"team":{"id":"a"}},{"team":{"id":"b","displayName":"B"}}]}]}]"#,
    );
    assert_eq!(
        normalize("nfl", &no_name).unwrap_err(),
        "Provider omitted match or team identity"
    );
    let numeric_id = board(&format!(r#"[{{"id":7,"competitions":[{{"competitors":{PAIR}}}]}}]"#));
    assert_eq!(normalize("nfl", &numeric_id).unwrap()[0].id, "nfl:7");
}

#[test]
fn too_many_matches_is_an_error() {
    let one = format!(r#"{{"id":"1","name":"A v B","competitions":[{{"competitors":{PAIR}}}]}}"#);
    let events: Vec<String> = (0..501).map(|_| one.clone()).collect();
    let v = board(&format!("[{}]", events.join(",")));
    assert_eq!(normalize("football", &v).unwrap_err(), "Too many matches in response");
    let v = board(&format!("[{}]", events[..500].join(",")));
    assert_eq!(normalize("football", &v).unwrap().len(), 500);
}

#[test]
fn display_text_is_bounded_and_clean() {
    assert_eq!(text(&json(r#""a\u0007b\u0085c""#)), "abc");
    assert_eq!(text(&json(&format!(r#""{}""#, "x".repeat(200)))).chars().count(), 180);
    assert_eq!(text(&json("12")), "12");
    assert_eq!(text(&json("1.5")), "1.5");
    assert_eq!(text(&json("true")), "");
    assert_eq!(text(&json("null")), "");
}

#[test]
fn scores_are_exact_numbers() {
    assert_eq!(number(&json("7")), Some(7));
    assert_eq!(number(&json(r#""+5""#)), Some(5));
    assert_eq!(number(&json(r#""4294967296""#)), None);
    assert_eq!(number(&json("1.5")), None);
    assert_eq!(number(&json("null")), None);
}

#[test]
fn retry_after_extremes() {
    let observed = Timestamp { secs: 1_789_380_000, nanos: 500_000_000 };
    assert_eq!(retry_after("99999999999999999999999", &observed), Some(u64::MAX));
    assert_eq!(retry_after("\t0\n", &observed), Some(0));
    assert_eq!(retry_from_millis(1), 1);
    assert_eq!(retry_from_millis(1000), 1);
    assert_eq!(retry_from_millis(1001), 2);
    assert_eq!(retry_from_millis(-1), 0);
    let whole = Timestamp { secs: 1_789_380_000, nanos: 0 };
    // 2026-09-14T10:00:00Z; a date 90 seconds later waits 90 seconds.
    assert_eq!(retry_after("Mon, 14 Sep 2026 10:01:30 +0000", &whole), Some(90));
}

#[test]
fn response_statuses() {
    let now = Timestamp { secs: 0, nanos: 0 };
    assert_eq!(
        response_error(429, None, &now),
        Some(("rate-limited", "Provider quota reached; polling backed off", None))
    );
    assert_eq!(
        response_error(500, None, &now),
        Some(("failed", "Provider returned an HTTP error", None))
    );
    assert_eq!(response_error(200, None, &now), None);
}

#[test]
fn bodies_and_defaults() {
    assert_eq!(body_error(2 * 1024 * 1024), None);
    assert_eq!(
        body_error(2 * 1024 * 1024 + 1),
        Some(("failed", "Feed exceeded response size limit", None))
    );
    assert_eq!(
        espn_feed("nfl", None).unwrap_err(),
        ("failed", "Feed returned invalid JSON", None)
    );
    let (ms, secs) = espn_feed("nfl", Some(&board("[]"))).unwrap();
    assert!(ms.is_empty());
    assert_eq!(secs, ESPN_POLL_INTERVAL_SEC);
    assert_eq!(snapshot_state(&ms), "empty");
    assert_eq!(
        espn_feed("tennis", Some(&board("[]"))).unwrap_err(),
        ("failed", "Unsupported sport", None)
    );
    assert_eq!(default_league("rugby"), "267979");
    assert_eq!(default_league("football"), "eng.1");
    assert_eq!(feed_url("Football", "eng.1").unwrap_err().1, "Unsupported sport");
}

#[test]
fn snapshots_pick_the_feed_format() {
    let body = br#"{"content":{"sbData":{"events":[{"id":"5","name":"A v B","competitions":[{"competitors":[{"team":{"id":"a","displayName":"A"},"score":21},{"team":{"id":"b","displayName":"B"},"score":"14"}]}]}]}}}"#;
    let (ms, secs) = snapshot("nfl", body).unwrap();
    assert_eq!(secs, ESPN_POLL_INTERVAL_SEC);
    assert_eq!(ms[0].id, "nfl:5");
    assert_eq!(ms[0].teams[0].score, Some(21));
    assert_eq!(ms[0].teams[1].score, Some(14));
    assert_eq!(
        snapshot("cricket", b"<html/>").unwrap_err(),
        ("failed", "Expected cricket RSS feed", None)
    );
    let big = vec![b' '; 2 * 1024 * 1024 + 1];
    assert_eq!(
        snapshot("nfl", &big).unwrap_err(),
        ("failed", "Feed exceeded response size limit", None)
    );
    assert_eq!(
        snapshot("rugby", b"<").unwrap_err(),
        ("failed", "Feed returned invalid JSON", None)
    );
    assert_eq!(
        snapshot("nfl", b"{}").unwrap_err(),
        ("failed", "Unexpected provider response", None)
    );
}

#[test]
fn each_two_sided_competition_is_one_match_in_order() {
    let v = board(&format!(
        r#"[{{"id":"1","name":"E1","status":{{"type":{{"state":"pre"}}}},"competitions":[{{"status":{{"type":{{"state":"in","shortDetail":"Q2"}}}},"competitors":{PAIR}}},{{"competitors":[]}},{{"competitors":{PAIR}}}]}},{{"id":"2","name":"E2","status":{{"type":{{"state":"post"}}}},"competitions":[{{"competitors":{PAIR}}}]}}]"#
    ));
    let m = normalize("football", &v).unwrap();
    assert_eq!(m.len(), 3);
    assert_eq!(m[0].id, "football:1");
    assert_eq!(m[0].state, MatchState::Live);
    assert_eq!(m[0].detail, "Q2");
    assert_eq!(m[1].id, "football:1");
    assert_eq!(m[1].state, MatchState::Scheduled);
    assert_eq!(m[2].id, "football:2");
    assert_eq!(m[2].name, "E2");
    assert_eq!(m[2].state, MatchState::Finished);
}
