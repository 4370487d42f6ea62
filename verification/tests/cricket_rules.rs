use sportsbar::cricinfo::{parse, parse_document, poll_interval, POLL_INTERVAL_SEC};
use sportsbar::feed::cricket_feed;
use sportsbar::model::MatchState;
use sportsbar::url::{allowed_url, follow_redirect, match_id, match_id_from_url, UrlParts};

fn url(s: &str) -> UrlParts {
    let u = reqwest::Url::parse(s).unwrap();
    UrlParts {
        scheme: u.scheme().to_string(),
        host: u.host_str().map(str::to_string),
        path: u.path().to_string(),
        username: u.username().to_string(),
        password: u.password().map(str::to_string),
        port: u.port(),
        query: u.query().map(str::to_string),
    }
}

fn item(title: &str, link: &str, description: &str) -> String {
    format!("<item><title>{title}</title><link>{link}</link><description>{description}</description></item>")
}

fn feed(items: &[String]) -> String {
    format!("<rss><channel>{}</channel></rss>", items.concat())
}

const LINK: &str = "https://www.espncricinfo.com/ci/engine/match/12345.html";

fn one(title: &str) -> Result<Vec<sportsbar::model::Match>, &'static str> {
    parse(&feed(&[item(title, LINK, "Live cricket")]))
}

#[test]
fn side_errors_name_their_cause() {
    let cases = [
        ("186/4 v Australia", "Unsupported cricket team name"),
        ("England 1 &amp; 2 &amp; 3 v Australia", "Unsupported cricket innings format"),
        ("England 100 &amp; v Australia 5", "Missing cricket score"),
        ("England 1/2/3 v Australia", "Unsupported cricket score"),
        ("England 20/1 &amp; x v Australia", "Unsupported cricket runs"),
        ("England 10001 v Australia", "Invalid cricket runs"),
        ("England 20/x v Australia", "Unsupported cricket wickets"),
        ("England 20/12 v Australia", "Invalid cricket wickets"),
        ("England 20/1 xyz v Australia", "Unsupported cricket score suffix"),
        ("England 20/1 (abc) v Australia", "Unsupported cricket overs"),
        ("England 20/1 * &amp; 30 * v Australia", "Ambiguous batting innings"),
        ("England 1 * v Australia 2 *", "Ambiguous batting team"),
        ("England vs Australia", "Unsupported cricket RSS title; scores withheld"),
    ];
    for (title, message) in cases {
        assert_eq!(one(title).unwrap_err(), message, "{title}");
    }
    let long = format!("{} 5 v Australia", "E".repeat(121));
    assert_eq!(one(&long).unwrap_err(), "Unsupported cricket team name");
    let title = format!("{} v Australia", "E".repeat(997));
    assert_eq!(one(&title).unwrap_err(), "Cricket title exceeds limit");
}

#[test]
fn team_name_limit_counts_bytes() {
    // 60 two-byte characters are 120 bytes: accepted; one more is refused.
    let ok = format!("{} 5 v Australia", "é".repeat(60));
    assert_eq!(one(&ok).unwrap()[0].teams[0].name, "é".repeat(60));
    let too_long = format!("{} 5 v Australia", "é".repeat(61));
    assert_eq!(one(&too_long).unwrap_err(), "Unsupported cricket team name");
}

#[test]
fn feed_errors_name_their_cause() {
    assert_eq!(parse("not xml").unwrap_err(), "Invalid cricket RSS XML");
    assert_eq!(parse("<html/>").unwrap_err(), "Expected cricket RSS feed");
    assert_eq!(parse("<rss/>").unwrap_err(), "Missing RSS channel");
    let big = format!("<rss><channel>{}</channel></rss>", " ".repeat(2 * 1024 * 1024));
    assert_eq!(parse(&big).unwrap_err(), "Cricket RSS exceeds response limit");
    let bad_link = feed(&[item("A 1 v B 2", "https://evil.test/match/1.html", "")]);
    assert_eq!(parse(&bad_link).unwrap_err(), "Missing cricket match identity");
    let twice = feed(&[item("A 1 v B 2", LINK, ""), item("C 1 v D 2", LINK, "")]);
    assert_eq!(parse(&twice).unwrap_err(), "Duplicate cricket match identity");
    let many: Vec<String> = (0..501)
        .map(|i| item("A 1 v B 2", &format!("https://www.cricinfo.com/m/{i}.html"), ""))
        .collect();
    assert_eq!(parse(&feed(&many)).unwrap_err(), "Too many cricket matches");
    assert_eq!(parse(&feed(&many[..500])).unwrap().len(), 500);
}

#[test]
fn distinct_matches_keep_their_identities() {
    let two = feed(&[
        item("A 1 v B 2", "https://www.cricinfo.com/m/7.html", ""),
        item("C 1 v D 2", "https://www.cricinfo.com/m/8.html", ""),
    ]);
    let ms = parse(&two).unwrap();
    assert_eq!(ms.len(), 2);
    assert_eq!(ms[0].id, "cricket:espncricinfo:7");
    assert_eq!(ms[1].id, "cricket:espncricinfo:8");
    assert_ne!(ms[0].id, ms[1].id);
}

#[test]
fn other_channel_children_are_skipped() {
    let xml = format!(
        "<rss><channel><title>Live</title><ttl>2</ttl>{}</channel></rss>",
        item("A 1 v B 2", LINK, "")
    );
    assert_eq!(parse(&xml).unwrap().len(), 1);
}

#[test]
fn match_snapshot_fields() {
    let ms = parse(&feed(&[item(
        "India 350/8d (120.3 ov) &amp; 12 v Pakistan 180/10 *",
        LINK,
        "Day 3 - India lead by 170",
    )]))
    .unwrap();
    let m = &ms[0];
    assert_eq!(m.id, "cricket:espncricinfo:12345");
    assert_eq!(m.sport, "cricket");
    assert_eq!(m.name, "India v Pakistan");
    assert_eq!(m.state, MatchState::Live);
    assert_eq!(m.detail, "Day 3 - India lead by 170");
    assert_eq!(m.start, "");
    assert_eq!(m.teams[0].id, "india");
    assert!(m.teams[0].score.is_none());
    assert_eq!(m.innings.len(), 3);
    assert_eq!(m.innings[0].id, "India Inning 1");
    assert_eq!(m.innings[0].runs, 350);
    assert_eq!(m.innings[0].wickets, Some(8));
    assert!(m.innings[0].declared);
    assert_eq!(m.innings[0].overs, "120.3");
    assert_eq!(m.innings[1].id, "India Inning 2");
    assert_eq!(m.innings[1].wickets, None);
    assert_eq!(m.innings[2].id, "Pakistan Inning 1");
    assert_eq!(m.innings[2].wickets, Some(10));
    let c = m.cricinfo.as_ref().unwrap();
    assert_eq!(c.active_innings_id.as_deref(), Some("Pakistan Inning 1"));
    assert_eq!(c.source, "espncricinfo-rss");
}

#[test]
fn result_phrases_finish_a_match() {
    for description in [
        "England won by 5 wickets",
        "Match drawn",
        "MATCH TIED",
        "No result",
        "Match abandoned without a ball bowled",
    ] {
        let ms = parse(&feed(&[item("England 200 * v Australia 150", LINK, description)])).unwrap();
        assert_eq!(ms[0].state, MatchState::Finished, "{description}");
    }
    let ms = parse(&feed(&[item("England 200 * v Australia 150", LINK, "Stumps")])).unwrap();
    assert_eq!(ms[0].state, MatchState::Live);
}

#[test]
fn detail_keeps_three_hundred_characters() {
    let long = "x".repeat(400);
    let ms = parse(&feed(&[item("A 1 v B 2", LINK, &long)])).unwrap();
    assert_eq!(ms[0].detail.chars().count(), 300);
}

#[test]
fn scores_follow_std_number_parsing() {
    let ms = one("England 5 &amp; +7 v Australia").unwrap();
    assert_eq!(ms[0].innings[1].runs, 7);
    let ms = one("England +5 v Australia").unwrap();
    assert_eq!(ms[0].teams[0].name, "England +5");
    assert!(ms[0].innings.is_empty());
    assert_eq!(one("England 5/300 v Australia").unwrap_err(), "Unsupported cricket wickets");
    assert_eq!(one("England 99999999999 v Australia").unwrap_err(), "Unsupported cricket runs");
}

#[test]
fn names_are_trimmed_of_markers_and_unicode_space() {
    let ms = one("England\u{3000}* 20/1 v Australia").unwrap();
    assert_eq!(ms[0].teams[0].name, "England");
    let ms = one("New   Zealand 3 v Sri Lanka").unwrap();
    assert_eq!(ms[0].teams[0].name, "New Zealand");
    assert_eq!(ms[0].teams[1].name, "Sri Lanka");
    assert_eq!(ms[0].teams[1].id, "sri lanka");
}

#[test]
fn link_identity_comes_from_the_last_numbered_segment() {
    assert_eq!(
        match_id("https://www.espncricinfo.com/series/ipl-2026-123/a-vs-b-1449876/live-cricket-score")
            .as_deref(),
        Some("1449876")
    );
    assert_eq!(match_id("http://static.cricinfo.com/m/99.html.html").as_deref(), Some("99"));
    assert_eq!(match_id("HTTPS://STATIC.CRICINFO.COM/m/5.html").as_deref(), Some("5"));
    assert_eq!(match_id("ftp://www.cricinfo.com/m/99.html"), None);
    assert_eq!(match_id("https://www.cricinfo.com/m/12345678901234567"), None);
    assert_eq!(match_id("not a url"), None);
}

#[test]
fn url_parts_are_normalised_by_the_url_parser() {
    let u = url("HTTPS://WWW.CRICINFO.COM:443/rss/livescores.xml");
    assert_eq!(u.scheme, "https");
    assert_eq!(u.host.as_deref(), Some("www.cricinfo.com"));
    assert_eq!(u.port, None);
    assert!(allowed_url(&u));
    for refused in [
        "https://user@www.cricinfo.com/rss/livescores.xml",
        "https://www.cricinfo.com:8443/rss/livescores.xml",
        "https://www.cricinfo.com/rss/livescores.xml?x=1",
    ] {
        assert!(!allowed_url(&url(refused)), "{refused}");
    }
}

#[test]
fn poll_interval_is_clamped() {
    assert_eq!(poll_interval("<rss><channel/></rss>"), 120);
    assert_eq!(poll_interval("not xml"), 120);
    assert_eq!(poll_interval("<rss><channel><ttl> 3 </ttl></channel></rss>"), 180);
    assert_eq!(poll_interval("<rss><channel><ttl>0</ttl></channel></rss>"), 120);
    assert_eq!(poll_interval("<rss><channel><ttl>100000</ttl></channel></rss>"), 86400);
    assert_eq!(
        poll_interval("<rss><channel><ttl>99999999999999999999</ttl></channel></rss>"),
        120
    );
    assert_eq!(
        poll_interval("<rss><channel><ttl>307445734561825861</ttl></channel></rss>"),
        86400
    );
}

#[test]
fn cricket_bodies() {
    let body = feed(&[item("A 1 v B 2", LINK, "")]);
    let (ms, secs) = cricket_feed(body.as_bytes()).unwrap();
    assert_eq!(ms.len(), 1);
    assert_eq!(secs, POLL_INTERVAL_SEC);
    assert_eq!(
        cricket_feed(&[0xff, 0xfe]).unwrap_err(),
        ("failed", "Cricket feed is not UTF-8", None)
    );
    let big = vec![b' '; 2 * 1024 * 1024 + 1];
    assert_eq!(
        cricket_feed(&big).unwrap_err(),
        ("failed", "Feed exceeded response size limit", None)
    );
    assert_eq!(
        cricket_feed(b"<html/>").unwrap_err(),
        ("failed", "Expected cricket RSS feed", None)
    );
}

#[test]
fn parsed_documents_and_urls() {
    let text = feed(&[item("A 1 v B 2 *", LINK, "")]);
    let doc = roxmltree::Document::parse(&text).unwrap();
    let ms = parse_document(&doc).unwrap();
    assert_eq!(ms[0].state, MatchState::Live);
    assert_eq!(
        match_id_from_url(&url("https://static.espncricinfo.com/x/7-8.html")).as_deref(),
        Some("8")
    );
    assert_eq!(match_id_from_url(&url("https://cricinfo.com/x/7.html")), None);
}

#[test]
fn redirects_stay_on_the_feed_for_two_hops() {
    let feed_url = "https://static.cricinfo.com/rss/livescores.xml";
    let next = url("https://www.espncricinfo.com/rss/livescores.xml");
    assert!(follow_redirect(&vec![url(feed_url)], &next));
    assert!(follow_redirect(&vec![url(feed_url), url(feed_url)], &next));
    assert!(!follow_redirect(&vec![url(feed_url), url(feed_url), url(feed_url)], &next));
    assert!(!follow_redirect(
        &vec![url("https://cdn.espn.com/core/nfl/scoreboard?xhr=1&limit=50")],
        &next
    ));
    assert!(!follow_redirect(&vec![url(feed_url)], &url("https://evil.test/rss/livescores.xml")));
}

#[test]
fn innings_are_read_as_written() {
    let ms = one("England 250 (50 ov) v Australia 120/3d").unwrap();
    let inns = &ms[0].innings;
    assert_eq!(inns[0].runs, 250);
    assert_eq!(inns[0].wickets, None);
    assert!(!inns[0].declared);
    assert_eq!(inns[0].overs, "50");
    assert_eq!(inns[1].runs, 120);
    assert_eq!(inns[1].wickets, Some(3));
    assert!(inns[1].declared);
    assert_eq!(inns[1].overs, "");
    assert_eq!(ms[0].state, MatchState::Unknown);
}
