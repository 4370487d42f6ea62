use sportsbar::espn::normalize;
use sportsbar::feed::{feed_url, response_error, retry_after, Timestamp};
use sportsbar::json::{number, text, Json, JsonNumber};
use sportsbar::model::MatchState;

fn to_json(v: &serde_json::Value) -> Json {
    match v {
        serde_json::Value::Null => Json::Null,
        serde_json::Value::Bool(b) => Json::Bool(*b),
        serde_json::Value::Number(n) => Json::Number(JsonNumber {
            as_u64: n.as_u64(),
            text: n.to_string(),
        }),
        serde_json::Value::String(s) => Json::Str(s.clone()),
        serde_json::Value::Array(a) => Json::Array(a.iter().map(to_json).collect()),
        serde_json::Value::Object(m) => {
            Json::Object(m.iter().map(|(k, v)| (k.clone(), to_json(v))).collect())
        }
    }
}

fn json(s: &str) -> Json {
    to_json(&serde_json::from_str::<serde_json::Value>(s).unwrap())
}

fn stamp(dt: chrono::DateTime<chrono::Utc>) -> Timestamp {
    Timestamp {
        secs: dt.timestamp(),
        nanos: dt.timestamp_subsec_nanos(),
    }
}

fn now() -> Timestamp {
    stamp(chrono::Utc::now())
}

#[test]
fn cdn_routes_and_league_allowlist() {
    assert_eq!(
        feed_url("nfl", "").unwrap(),
        "https://cdn.espn.com/core/nfl/scoreboard?xhr=1&limit=50"
    );
    for league in [
        "eng.1",
        "eng.2",
        "eng.3",
        "eng.4",
        "sco.1",
        "uefa.champions",
        "uefa.europa",
        "esp.1",
        "ger.1",
        "ita.1",
        "fra.1",
        "usa.1",
        "fifa.world",
    ] {
        assert_eq!(
            feed_url("football", league).unwrap(),
            format!("https://cdn.espn.com/core/soccer/scoreboard?xhr=1&league={league}")
        );
    }
    for league in ["267979", "180659"] {
        assert_eq!(
            feed_url("rugby", league).unwrap(),
            format!("https://cdn.espn.com/core/rugby/scoreboard?xhr=1&league={league}")
        );
    }
    for sport in ["football", "rugby"] {
        for invalid in ["", "unknown", "eng.1&league=other", "../nfl"] {
            assert_eq!(feed_url(sport, invalid).unwrap_err().0, "unsupported");
        }
    }
    assert_eq!(
        feed_url("cricket", "").unwrap(),
        "https://static.cricinfo.com/rss/livescores.xml"
    );
    assert!(feed_url("tennis", "").is_err());
}

#[test]
fn cdn_empty_and_malformed_responses() {
    for sport in ["nfl", "football", "rugby"] {
        assert!(normalize(sport, &json(r#"{"content":{"sbData":{"events":[]}}}"#))
            .unwrap()
            .is_empty());
        for malformed in [
            r#"{}"#,
            r#"{"events":[]}"#,
            r#"{"content":{"sbData":null}}"#,
            r#"{"content":{"sbData":{"events":{}}}}"#,
        ] {
            assert!(normalize(sport, &json(malformed)).is_err());
        }
    }
}

const FOOTBALL: &str = r#"{"content":{"sbData":{"events":[{"id":"42","name":"A v B","date":"2026-09-14T19:00Z","status":{"type":{"state":"pre"}},"competitions":[{"status":{"type":{"state":"in","shortDetail":"27'"}},"competitors":[{"team":{"id":"a","displayName":"A"},"score":"0"},{"team":{"id":"b","displayName":"B"}}]}]}]}}}"#;

#[test]
fn cdn_football_score_updates_preserve_identity() {
    let before = normalize("football", &json(FOOTBALL)).unwrap();
    assert_eq!(before[0].id, "football:42");
    assert_eq!(before[0].state, MatchState::Live);
    assert_eq!(before[0].detail, "27'");
    assert!(before[0].teams[1].score.is_none());
    let updated = FOOTBALL.replace(r#""score":"0""#, r#""score":"1""#);
    let after = normalize("football", &json(&updated)).unwrap();
    assert_eq!(after[0].id, before[0].id);
    assert_eq!(after[0].teams[0].score, Some(1));
}

#[test]
fn denied_access_does_not_request_authentication() {
    for status in [401, 403] {
        assert_eq!(
            response_error(status, Some("120"), &now()),
            Some(("access-denied", "Provider denied access", Some(120)))
        );
    }
}

#[test]
fn retry_after_headers() {
    let observed = stamp(
        chrono::DateTime::parse_from_rfc3339("2026-09-14T10:00:00.500Z")
            .unwrap()
            .to_utc(),
    );
    assert_eq!(retry_after(" 7200 ", &observed), Some(7200));
    assert_eq!(
        retry_after("Mon, 14 Sep 2026 10:02:00 GMT", &observed),
        Some(120)
    );
    assert_eq!(
        retry_after("Mon, 14 Sep 2026 09:00:00 GMT", &observed),
        Some(0)
    );
    for invalid in ["", "-1", "1.5", "nonsense"] {
        assert_eq!(retry_after(invalid, &observed), None);
    }
    for status in [429, 503] {
        assert_eq!(
            response_error(status, Some("7200"), &observed).unwrap().2,
            Some(7200)
        );
    }
    assert_eq!(response_error(200, Some("7200"), &observed), None);
    assert_eq!(response_error(429, Some("bad"), &observed).unwrap().2, None);
}

#[test]
fn espn_fixture() {
    let v = r#"{"events":[{"id":"1","name":"A v B","status":{"type":{"state":"in"}},"competitions":[{"competitors":[{"team":{"id":"a","displayName":"A"},"score":"7"},{"team":{"id":"b","displayName":"B"},"score":"0"}]}]}]}"#;
    let m = normalize("nfl", &json(&format!(r#"{{"content":{{"sbData":{v}}}}}"#))).unwrap();
    assert_eq!(m[0].state, MatchState::Live);
    assert_eq!(m[0].teams[0].score, Some(7));
    assert!(normalize("football", &json("{}")).is_err());
}

#[test]
fn rugby_fixture() {
    let v = r#"{"events":[{"id":"602507","name":"Wales vs France","competitions":[{"status":{"type":{"state":"post"}},"competitors":[{"team":{"id":"4","displayName":"Wales"},"score":"12"},{"team":{"id":"9","displayName":"France"},"score":"54"}]}]}]}"#;
    let m = normalize("rugby", &json(&format!(r#"{{"content":{{"sbData":{v}}}}}"#))).unwrap();
    assert_eq!(m[0].state, MatchState::Finished);
    assert_eq!(m[0].teams[1].score, Some(54));
    assert!(normalize("rugby", &json(r#"{"response":[]}"#)).is_err());
}

#[test]
fn input_safety() {
    assert_eq!(text(&json(r#""a\nb""#)), "ab");
    assert!(normalize("tennis", &json("{}")).is_err());
    assert!(number(&json(r#""oops""#)).is_none());
    assert!(number(&json("-1")).is_none());
}
