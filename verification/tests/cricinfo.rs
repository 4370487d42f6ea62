use sportsbar::cricinfo::{allowed_url, parse, poll_interval};
use sportsbar::model::{Match, MatchState};
use sportsbar::url::UrlParts;

fn url(s: &str) -> UrlParts {
    let u = reqwest::Url::parse(s).unwrap();
    UrlParts {
        scheme: u.scheme().to_string(),
        host: u.host_str().map(str::to_string),
        path: u.path().to_string(),
        username: u.username().to_string(),
        password: u.password().map(str::to_string),
        port: u.port(),
        query: u.query().map(str::to_string),
    }
}

fn rss(title: &str) -> String {
    format!("<rss><channel><item><title>{title}</title><link>https://www.espncricinfo.com/ci/engine/match/12345.html</link><description>Live cricket</description></item></channel></rss>")
}

fn active(m: &Match) -> Option<&str> {
    m.cricinfo.as_ref().unwrap().active_innings_id.as_deref()
}

#[test]
fn live_two_teams() {
    let m = parse(&rss("England 186/4 * v Australia 228")).unwrap();
    assert_eq!(m[0].teams[0].name, "England");
    assert_eq!(m[0].innings[0].wickets, Some(4));
    assert!(m[0].innings[1].wickets.is_none());
    assert_eq!(active(&m[0]), Some("England Inning 1"));
}

#[test]
fn second_innings_and_entities() {
    let m = parse(&rss("England 200 &amp; 20/1 * v Australia 350/8d")).unwrap();
    assert_eq!(active(&m[0]), Some("England Inning 2"));
    assert_eq!(m[0].innings.len(), 3);
}

#[test]
fn absent_marker_is_unknown() {
    assert_eq!(
        parse(&rss("England 200 v Australia 228")).unwrap()[0].state,
        MatchState::Unknown
    );
}

#[test]
fn cdata_overs() {
    let m = parse(&rss("<![CDATA[England 186/4 (42.3 ov) * v Australia]]>")).unwrap();
    assert_eq!(m[0].innings[0].overs, "42.3");
}

#[test]
fn rejects_unknown_formats() {
    for title in [
        "England vs Australia",
        "England 20/12 * v Australia",
        "England 20/1 xyz v Australia",
        "England 20/1 * v Australia 10/1 *",
    ] {
        assert!(parse(&rss(title)).is_err(), "{title}")
    }
}

#[test]
fn rejects_html_and_dtd() {
    assert!(parse("<html/>").is_err());
    assert!(parse(
        "<!DOCTYPE rss [<!ENTITY x SYSTEM 'file:///etc/passwd'>]><rss><channel/></rss>"
    )
    .is_err());
}

#[test]
fn redirect_allowlist() {
    assert!(allowed_url(&url("https://www.cricinfo.com/rss/livescores.xml")));
    for u in [
        "http://www.cricinfo.com/rss/livescores.xml",
        "https://evil.test/rss/livescores.xml",
        "https://www.cricinfo.com/other",
    ] {
        assert!(!allowed_url(&url(u)))
    }
}

#[test]
fn real_public_response() {
    assert_eq!(
        poll_interval("<rss><channel><ttl>10</ttl></channel></rss>"),
        600
    );
}
