//! The ESPNcricinfo public live-scores RSS adapter. Title parsing is strict:
//! an ambiguous or unfamiliar format fails the whole refresh rather than
//! producing invented scores.

use vstd::prelude::*;
use crate::chars::{
    concat, contains_seq, contains_seq_exec, contains_word, find_seq, find_seq_from, from_chars,
    parse_unsigned, parse_unsigned_exec, str_to_lowercase, subrange, take_chars, take_chars_exec,
    to_chars, to_lowercase, trim_exec, trim_ws, utf8_len_exceeds,
};
use crate::model::{CricinfoDetail, CricinfoDetailView, Match, MatchState, MatchView, Team};
use crate::score::{side, spec_side};
use crate::url::{match_id, spec_match_id, url_parse};
pub use crate::url::allowed_url;
use crate::xml::{
    children, find_tagged, first_element, first_tagged, has_tag, has_tag_name, node_count,
    parse_xml, root_element, text, xml_nodes, xml_parse, XmlNodeView,
};

verus! {

/// The largest feed accepted, in bytes.
pub const MAX_FEED_BYTES: usize = 2 * 1024 * 1024;

/// The most matches one feed may list.
pub const MAX_MATCHES: usize = 500;

/// The longest item title accepted, in bytes.
pub const MAX_TITLE_BYTES: usize = 1000;

/// The number of characters of an item description kept as match detail.
pub const DETAIL_CHARS: usize = 300;

/// The cricket polling period, in seconds. The product default is used
/// rather than the feed's `ttl` hint (see `poll_interval`).
pub const POLL_INTERVAL_SEC: u64 = 30;

/// The `ttl` assumed, in minutes, where the feed gives none.
pub const DEFAULT_TTL_MINUTES: u64 = 2;

/// The shortest polling period derived from a feed, in seconds.
pub const MIN_POLL_SECS: u64 = 120;

/// The longest polling period derived from a feed, in seconds.
pub const MAX_POLL_SECS: u64 = 86400;

/// Every child id of every node names a node.
pub open spec fn children_in_range(nodes: Seq<XmlNodeView>) -> bool {
    forall|i: int, k: int|
        0 <= i < nodes.len() && 0 <= k < nodes[i].2.len() ==> #[trigger] nodes[i].2[k]
            < nodes.len()
}

/// The text of an item's first child element named `name`, trimmed; empty
/// where there is no such child or it has no text.
pub open spec fn field(nodes: Seq<XmlNodeView>, item: int, name: Seq<char>) -> Seq<char> {
    match first_tagged(nodes, nodes[item].2, name) {
        Some(c) => match nodes[c as int].1 {
            Some(t) => trim_ws(t),
            None => seq![],
        },
        None => seq![],
    }
}

/// The match identity of a link, through its parse by `reqwest::Url`.
pub open spec fn link_id(link: Seq<char>) -> Option<Seq<char>> {
    match url_parse(link) {
        Some(u) => spec_match_id(u),
        None => None,
    }
}

/// Whether a description reports a result: its lowercase form contains one
/// of the result phrases. Absence of the batting marker alone never means a
/// match is over.
pub open spec fn is_finished(description: Seq<char>) -> bool {
    let lower = str_to_lowercase(description);
    ||| contains_seq(lower, " won by "@)
    ||| contains_seq(lower, "match drawn"@)
    ||| contains_seq(lower, "match tied"@)
    ||| contains_seq(lower, "no result"@)
    ||| contains_seq(lower, "match abandoned"@)
}

/// The state of a cricket match: finished on a result phrase, otherwise
/// live when an innings carries the batting marker, otherwise unknown.
pub open spec fn cricket_state(description: Seq<char>, active: Option<Seq<char>>) -> MatchState {
    if is_finished(description) {
        MatchState::Finished
    } else if active is Some {
        MatchState::Live
    } else {
        MatchState::Unknown
    }
}

/// The match described by one `item` element, with its match identity.
pub open spec fn spec_item(nodes: Seq<XmlNodeView>, item: int) -> Result<
    (MatchView, Seq<char>),
    &'static str,
> {
    let title = field(nodes, item, "title"@);
    if vstd::utf8::encode_utf8(title).len() > MAX_TITLE_BYTES {
        Err("Cricket title exceeds limit")
    } else {
        match find_seq_from(title, " v "@, 0) {
            None => Err("Unsupported cricket RSS title; scores withheld"),
            Some(at) => {
                let left = title.subrange(0, at);
                let right = title.subrange(at + " v "@.len(), title.len() as int);
                match spec_side(left) {
                    Err(e) => Err(e),
                    Ok((a, inn_a, act_a)) => match spec_side(right) {
                        Err(e) => Err(e),
                        Ok((b, inn_b, act_b)) => if act_a is Some && act_b is Some {
                            Err("Ambiguous batting team")
                        } else {
                            let active = if act_a is Some {
                                act_a
                            } else {
                                act_b
                            };
                            match link_id(field(nodes, item, "link"@)) {
                                None => Err("Missing cricket match identity"),
                                Some(id) => {
                                    let description = field(nodes, item, "description"@);
                                    Ok(
                                        (
                                            MatchView {
                                                id: "cricket:espncricinfo:"@ + id,
                                                sport: "cricket"@,
                                                name: a.name + " v "@ + b.name,
                                                state: cricket_state(description, active),
                                                detail: take_chars(
                                                    description,
                                                    DETAIL_CHARS as nat,
                                                ),
                                                start: seq![],
                                                teams: seq![a, b],
                                                innings: inn_a + inn_b,
                                                cricinfo: Some(
                                                    CricinfoDetailView {
                                                        active_innings_id: active,
                                                        source: "espncricinfo-rss"@,
                                                    },
                                                ),
                                            },
                                            id,
                                        ),
                                    )
                                },
                            }
                        },
                    },
                }
            },
        }
    }
}

/// The matches of the first `n` children of the channel, with their
/// identities: children other than `item` elements are skipped; there may
/// be at most `MAX_MATCHES` items and no identity twice.
pub open spec fn feed_fold(nodes: Seq<XmlNodeView>, kids: Seq<usize>, n: nat) -> Result<
    (Seq<MatchView>, Seq<Seq<char>>),
    &'static str,
>
    decreases n,
{
    if n == 0 {
        Ok((seq![], seq![]))
    } else {
        match feed_fold(nodes, kids, (n - 1) as nat) {
            Err(e) => Err(e),
            Ok((ms, seen)) => {
                let c = kids[n - 1] as int;
                if !has_tag(nodes, c, "item"@) {
                    Ok((ms, seen))
                } else if ms.len() >= MAX_MATCHES {
                    Err("Too many cricket matches")
                } else {
                    match spec_item(nodes, c) {
                        Err(e) => Err(e),
                        Ok((m, id)) => if seen.contains(id) {
                            Err("Duplicate cricket match identity")
                        } else {
                            Ok((ms.push(m), seen.push(id)))
                        },
                    }
                }
            },
        }
    }
}

/// The matches of a parsed feed: the root element must be `rss` and hold a
/// `channel`, whose `item` children are the matches, in order.
pub open spec fn spec_feed(nodes: Seq<XmlNodeView>) -> Result<Seq<MatchView>, &'static str> {
    match first_element(nodes, nodes[0].2) {
        None => Err("Expected cricket RSS feed"),
        Some(root) => if !has_tag(nodes, root as int, "rss"@) {
            Err("Expected cricket RSS feed")
        } else {
            match first_tagged(nodes, nodes[root as int].2, "channel"@) {
                None => Err("Missing RSS channel"),
                Some(ch) => match feed_fold(nodes, nodes[ch as int].2, nodes[ch as int].2.len()) {
                    Ok((ms, _)) => Ok(ms),
                    Err(e) => Err(e),
                },
            }
        },
    }
}

/// The matches of a feed text: at most `MAX_FEED_BYTES` bytes of XML that
/// `roxmltree` accepts, read as `spec_feed` says.
pub open spec fn spec_parse(xml: Seq<char>) -> Result<Seq<MatchView>, &'static str> {
    if vstd::utf8::encode_utf8(xml).len() > MAX_FEED_BYTES {
        Err("Cricket RSS exceeds response limit")
    } else {
        match xml_parse(xml) {
            None => Err("Invalid cricket RSS XML"),
            Some(nodes) => spec_feed(nodes),
        }
    }
}

fn field_exec(doc: &roxmltree::Document, item: usize, name: &str) -> (r: Vec<char>)
    requires
        item < xml_nodes(*doc).len(),
        children_in_range(xml_nodes(*doc)),
    ensures
        r@ == field(xml_nodes(*doc), item as int, name@),
{
    let kids = children(doc, item);
    assert forall|k: int| 0 <= k < kids.len() implies #[trigger] kids@[k] < xml_nodes(*doc).len() by {
        assert(xml_nodes(*doc)[item as int].2[k] < xml_nodes(*doc).len());
    }
    match find_tagged(doc, &kids, name) {
        Some(c) => {
            proof {
                lemma_first_tagged_in(xml_nodes(*doc), kids@, name@);
            }
            match text(doc, c) {
                Some(t) => trim_exec(&to_chars(t.as_str())),
                None => Vec::new(),
            }
        },
        None => Vec::new(),
    }
}

proof fn lemma_first_tagged_in(nodes: Seq<XmlNodeView>, ids: Seq<usize>, name: Seq<char>)
    ensures
        first_tagged(nodes, ids, name) matches Some(c) ==> ids.contains(c),
    decreases ids.len(),
{
    if ids.len() > 0 && !has_tag(nodes, ids[0] as int, name) {
        lemma_first_tagged_in(nodes, ids.drop_first(), name);
        if let Some(c) = first_tagged(nodes, ids, name) {
            let k = choose|k: int| 0 <= k < ids.drop_first().len() && ids.drop_first()[k] == c;
            assert(ids[k + 1] == c);
        }
    }
}

fn is_finished_exec(description: &Vec<char>) -> (r: bool)
    ensures
        r == is_finished(description@),
{
    let d = from_chars(description);
    let lower = to_chars(to_lowercase(d.as_str()).as_str());
    contains_seq_exec(&lower, &to_chars(" won by ")) || contains_seq_exec(
        &lower,
        &to_chars("match drawn"),
    ) || contains_seq_exec(&lower, &to_chars("match tied")) || contains_seq_exec(
        &lower,
        &to_chars("no result"),
    ) || contains_seq_exec(&lower, &to_chars("match abandoned"))
}

fn item_exec(doc: &roxmltree::Document, item: usize) -> (r: Result<(Match, Vec<char>), &'static str>)
    requires
        item < xml_nodes(*doc).len(),
        children_in_range(xml_nodes(*doc)),
    ensures
        match r {
            Ok((m, id)) => spec_item(xml_nodes(*doc), item as int) == Ok::<
                (MatchView, Seq<char>),
                &'static str,
            >((m.deep_view(), id@)),
            Err(e) => spec_item(xml_nodes(*doc), item as int) == Err::<
                (MatchView, Seq<char>),
                &'static str,
            >(e),
        },
{
    let title = field_exec(doc, item, "title");
    if utf8_len_exceeds(&title, MAX_TITLE_BYTES) {
        return Err("Cricket title exceeds limit");
    }
    let sep = to_chars(" v ");
    proof {
        reveal_strlit(" v ");
    }
    let at = match find_seq(&title, &sep) {
        Some(at) => at,
        None => {
            return Err("Unsupported cricket RSS title; scores withheld");
        },
    };
    let left = subrange(&title, 0, at);
    let right = subrange(&title, at + 3, title.len());
    let (a, mut innings, active_a) = match side(&left) {
        Ok(s) => s,
        Err(e) => {
            return Err(e);
        },
    };
    let (b, other, active_b) = match side(&right) {
        Ok(s) => s,
        Err(e) => {
            return Err(e);
        },
    };
    if active_a.is_some() && active_b.is_some() {
        return Err("Ambiguous batting team");
    }
    let ghost inn_a = innings.deep_view();
    let ghost inn_b = other.deep_view();
    let mut other = other;
    innings.append(&mut other);
    assert(innings.deep_view() =~= inn_a + inn_b);
    let active = if active_a.is_some() {
        active_a
    } else {
        active_b
    };
    let link = field_exec(doc, item, "link");
    let id = match match_id(from_chars(&link).as_str()) {
        Some(id) => to_chars(id.as_str()),
        None => {
            return Err("Missing cricket match identity");
        },
    };
    let description = field_exec(doc, item, "description");
    let finished = is_finished_exec(&description);
    let state = if finished {
        MatchState::Finished
    } else if active.is_some() {
        MatchState::Live
    } else {
        MatchState::Unknown
    };
    let full_id = concat(&to_chars("cricket:espncricinfo:"), &id);
    let name = concat(
        &concat(&to_chars(a.name.as_str()), &to_chars(" v ")),
        &to_chars(b.name.as_str()),
    );
    let ghost ta = a.deep_view();
    let ghost tb = b.deep_view();
    let mut teams: Vec<Team> = Vec::new();
    teams.push(a);
    teams.push(b);
    assert(teams.deep_view() =~= seq![ta, tb]);
    let m = Match {
        id: from_chars(&full_id),
        sport: "cricket".to_owned(),
        name: from_chars(&name),
        state,
        detail: from_chars(&take_chars_exec(&description, DETAIL_CHARS)),
        start: String::new(),
        teams,
        innings,
        cricinfo: Some(
            CricinfoDetail { active_innings_id: active, source: "espncricinfo-rss".to_owned() },
        ),
    };
    assert(m.deep_view().start =~= Seq::<char>::empty());
    Ok((m, id))
}

proof fn lemma_feed_err(nodes: Seq<XmlNodeView>, kids: Seq<usize>, n: nat, m: nat)
    requires
        n <= m,
        feed_fold(nodes, kids, n) is Err,
    ensures
        feed_fold(nodes, kids, m) == feed_fold(nodes, kids, n),
    decreases m - n,
{
    if n < m {
        lemma_feed_err(nodes, kids, n, (m - 1) as nat);
    }
}

/// The matches of a parsed feed document (see `spec_feed`).
pub fn parse_document(doc: &roxmltree::Document) -> (r: Result<Vec<Match>, &'static str>)
    ensures
        match r {
            Ok(ms) => spec_feed(xml_nodes(*doc)) == Ok::<Seq<MatchView>, &'static str>(
                ms.deep_view(),
            ),
            Err(e) => spec_feed(xml_nodes(*doc)) == Err::<Seq<MatchView>, &'static str>(e),
        },
{
    let ghost nodes = xml_nodes(*doc);
    let count = node_count(doc);
    assert(children_in_range(nodes));
    let root = root_element(doc);
    proof {
        lemma_first_element_in(nodes, nodes[0].2);
    }
    if !has_tag_name(doc, root, "rss") {
        return Err("Expected cricket RSS feed");
    }
    let root_kids = children(doc, root);
    let channel = match find_tagged(doc, &root_kids, "channel") {
        Some(c) => c,
        None => {
            return Err("Missing RSS channel");
        },
    };
    proof {
        lemma_first_tagged_in(nodes, root_kids@, "channel"@);
    }
    let kids = children(doc, channel);
    let mut result: Vec<Match> = Vec::new();
    let mut seen: Vec<Vec<char>> = Vec::new();
    assert(result.deep_view() =~= Seq::<MatchView>::empty());
    assert(seen.deep_view() =~= Seq::<Seq<char>>::empty());
    for k in 0..kids.len()
        invariant
            nodes == xml_nodes(*doc),
            children_in_range(nodes),
            channel < nodes.len(),
            kids@ == nodes[channel as int].2,
            spec_feed(nodes) == match feed_fold(nodes, kids@, kids@.len()) {
                Ok((ms, _)) => Ok::<Seq<MatchView>, &'static str>(ms),
                Err(e) => Err(e),
            },
            feed_fold(nodes, kids@, k as nat) == Ok::<
                (Seq<MatchView>, Seq<Seq<char>>),
                &'static str,
            >((result.deep_view(), seen.deep_view())),
    {
        let c = kids[k];
        assert(nodes[channel as int].2[k as int] < nodes.len());
        if has_tag_name(doc, c, "item") {
            if result.len() >= MAX_MATCHES {
                proof {
                    lemma_feed_err(nodes, kids@, (k + 1) as nat, kids@.len());
                }
                return Err("Too many cricket matches");
            }
            match item_exec(doc, c) {
                Err(e) => {
                    proof {
                        lemma_feed_err(nodes, kids@, (k + 1) as nat, kids@.len());
                    }
                    return Err(e);
                },
                Ok((m, id)) => {
                    if contains_word(&seen, &id) {
                        proof {
                            lemma_feed_err(nodes, kids@, (k + 1) as nat, kids@.len());
                        }
                        return Err("Duplicate cricket match identity");
                    }
                    let ghost before_r = result.deep_view();
                    let ghost before_s = seen.deep_view();
                    let ghost mv = m.deep_view();
                    let ghost iv = id@;
                    assert(id.deep_view() =~= id@);
                    result.push(m);
                    seen.push(id);
                    assert(result.deep_view() =~= before_r.push(mv));
                    assert(seen.deep_view() =~= before_s.push(iv));
                },
            }
        }
    }
    Ok(result)
}

proof fn lemma_first_element_in(nodes: Seq<XmlNodeView>, ids: Seq<usize>)
    ensures
        first_element(nodes, ids) matches Some(c) ==> ids.contains(c),
    decreases ids.len(),
{
    if ids.len() > 0 && !(nodes[ids[0] as int].0 is Some) {
        lemma_first_element_in(nodes, ids.drop_first());
        if let Some(c) = first_element(nodes, ids) {
            let k = choose|k: int| 0 <= k < ids.drop_first().len() && ids.drop_first()[k] == c;
            assert(ids[k + 1] == c);
        }
    }
}

/// The matches listed by an ESPNcricinfo live-scores RSS text.
pub fn parse(xml: &str) -> (r: Result<Vec<Match>, &'static str>)
    ensures
        match r {
            Ok(ms) => spec_parse(xml@) == Ok::<Seq<MatchView>, &'static str>(ms.deep_view()),
            Err(e) => spec_parse(xml@) == Err::<Seq<MatchView>, &'static str>(e),
        },
{
    if utf8_len_exceeds(&to_chars(xml), MAX_FEED_BYTES) {
        return Err("Cricket RSS exceeds response limit");
    }
    match parse_xml(xml) {
        Some(doc) => parse_document(&doc),
        None => Err("Invalid cricket RSS XML"),
    }
}

/* Polling interval */

/// The first node, at or after `i` in document order, that is an element
/// named `name`.
pub open spec fn first_tagged_node(nodes: Seq<XmlNodeView>, name: Seq<char>, i: int) -> Option<
    int,
>
    decreases nodes.len() - i,
{
    if i < 0 || i >= nodes.len() {
        None
    } else if has_tag(nodes, i, name) {
        Some(i)
    } else {
        first_tagged_node(nodes, name, i + 1)
    }
}

/// The feed's `ttl`, in minutes: the trimmed text of the first `ttl`
/// element read as a `u64`, or `DEFAULT_TTL_MINUTES`.
pub open spec fn ttl_minutes(nodes: Seq<XmlNodeView>) -> u64 {
    match first_tagged_node(nodes, "ttl"@, 0) {
        Some(i) => match nodes[i].1 {
            Some(t) => match parse_unsigned(trim_ws(t), u64::MAX) {
                Some(v) => v,
                None => DEFAULT_TTL_MINUTES,
            },
            None => DEFAULT_TTL_MINUTES,
        },
        None => DEFAULT_TTL_MINUTES,
    }
}

/// A `ttl` in minutes as a polling period in seconds: saturating at
/// `u64::MAX`, then clamped to `MIN_POLL_SECS..=MAX_POLL_SECS`.
pub open spec fn interval_secs(minutes: u64) -> u64 {
    let secs = if minutes * 60 > u64::MAX {
        u64::MAX
    } else {
        (minutes * 60) as u64
    };
    if secs < MIN_POLL_SECS {
        MIN_POLL_SECS
    } else if secs > MAX_POLL_SECS {
        MAX_POLL_SECS
    } else {
        secs
    }
}

/// The polling period that a feed text asks for.
pub open spec fn spec_poll_interval(xml: Seq<char>) -> u64 {
    match xml_parse(xml) {
        Some(nodes) => interval_secs(ttl_minutes(nodes)),
        None => interval_secs(DEFAULT_TTL_MINUTES),
    }
}

fn interval_secs_exec(minutes: u64) -> (r: u64)
    ensures
        r == interval_secs(minutes),
{
    let secs = match minutes.checked_mul(60) {
        Some(s) => s,
        None => u64::MAX,
    };
    if secs < MIN_POLL_SECS {
        MIN_POLL_SECS
    } else if secs > MAX_POLL_SECS {
        MAX_POLL_SECS
    } else {
        secs
    }
}

fn ttl_minutes_exec(doc: &roxmltree::Document) -> (r: u64)
    ensures
        r == ttl_minutes(xml_nodes(*doc)),
{
    let ghost nodes = xml_nodes(*doc);
    let count = node_count(doc);
    let mut i: usize = 0;
    while i < count
        invariant
            i <= count,
            count == nodes.len(),
            nodes == xml_nodes(*doc),
            first_tagged_node(nodes, "ttl"@, 0) == first_tagged_node(nodes, "ttl"@, i as int),
        decreases count - i,
    {
        if has_tag_name(doc, i, "ttl") {
            return match text(doc, i) {
                Some(t) => match parse_unsigned_exec(&trim_exec(&to_chars(t.as_str())), u64::MAX) {
                    Some(v) => v,
                    None => DEFAULT_TTL_MINUTES,
                },
                None => DEFAULT_TTL_MINUTES,
            };
        }
        i = i + 1;
    }
    DEFAULT_TTL_MINUTES
}

/// The polling period, in seconds, that the feed's `ttl` (in minutes)
/// asks for; never under two minutes and never over a day.
pub fn poll_interval(xml: &str) -> (r: u64)
    ensures
        r == spec_poll_interval(xml@),
        MIN_POLL_SECS <= r <= MAX_POLL_SECS,
{
    let minutes = match parse_xml(xml) {
        Some(doc) => ttl_minutes_exec(&doc),
        None => DEFAULT_TTL_MINUTES,
    };
    interval_secs_exec(minutes)
}

} // verus!
