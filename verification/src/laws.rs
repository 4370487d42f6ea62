//! Properties of the library as a whole, proved over the specifications of
//! its functions.

use vstd::prelude::*;
use crate::cricinfo::{
    feed_fold, spec_feed, spec_item, spec_parse, MAX_MATCHES as MAX_CRICKET_MATCHES,
};
use crate::model::{InningsView, MatchState, MatchView};
use crate::score::{innings_fold, innings_id, spec_innings, spec_side, MAX_RUNS, MAX_WICKETS};
use crate::xml::XmlNodeView;
use crate::espn::{
    comp_match, competitor_team, competitor_teams, comps_fold, events_fold, missing_identity,
    spec_normalize, status_of, MAX_MATCHES,
};
use crate::feed::{
    is_football_league, is_rugby_league, spec_feed_url, spec_response_error, wait_secs,
};
use crate::json::{as_array, member, spec_text, Json};
use crate::chars::{
    remove_char, sep_scan, split_char, split_ws, trim_end_char, trim_end_ws, trim_start_ws,
    trim_ws, ws_scan,
};

verus! {

/// An innings within the accepted bounds.
pub open spec fn innings_in_bounds(inn: InningsView) -> bool {
    &&& inn.runs <= MAX_RUNS
    &&& inn.wickets matches Some(w) ==> w <= MAX_WICKETS
}

/// A cricket match as the adapter may report it: two teams, at most four
/// innings within bounds, a batting innings that is one of its innings, and
/// the live state only with a batting innings.
pub open spec fn cricket_match_sound(m: MatchView) -> bool {
    &&& m.teams.len() == 2
    &&& m.innings.len() <= 4
    &&& forall|k: int| 0 <= k < m.innings.len() ==> innings_in_bounds(#[trigger] m.innings[k])
    &&& m.cricinfo matches Some(c) && {
        &&& c.active_innings_id matches Some(a) ==> exists|k: int|
            0 <= k < m.innings.len() && #[trigger] m.innings[k].id == a
        &&& m.state == MatchState::Live ==> c.active_innings_id is Some
    }
    &&& m.state != MatchState::Scheduled
}

proof fn lemma_innings(value: Seq<char>, slot: int, name: Seq<char>)
    ensures
        spec_innings(value, slot, name) matches Ok((inn, _)) ==> innings_in_bounds(inn)
            && inn.id == innings_id(name, slot),
{
}

proof fn lemma_innings_fold(values: Seq<Seq<char>>, name: Seq<char>, n: nat)
    ensures
        innings_fold(values, name, n) matches Ok((inns, active)) ==> {
            &&& n <= 2
            &&& inns.len() == n
            &&& forall|k: int| 0 <= k < inns.len() ==> innings_in_bounds(#[trigger] inns[k])
            &&& forall|k: int| 0 <= k < inns.len() ==> (#[trigger] inns[k]).id == innings_id(name, k)
            &&& active matches Some(a) ==> exists|k: int|
                0 <= k < inns.len() && #[trigger] inns[k].id == a
        },
    decreases n,
{
    if n > 0 {
        lemma_innings_fold(values, name, (n - 1) as nat);
        lemma_innings(values[n - 1], n - 1, name);
        if let Ok((inns, active)) = innings_fold(values, name, n) {
            let (prev, prev_active) = innings_fold(values, name, (n - 1) as nat)->Ok_0;
            assert(inns.drop_last() =~= prev);
            assert forall|k: int| 0 <= k < inns.len() implies innings_in_bounds(
                #[trigger] inns[k],
            ) && inns[k].id == innings_id(name, k) by {
                if k < prev.len() {
                    assert(inns[k] == prev[k]);
                }
            }
            if let Some(a) = active {
                if prev_active is Some {
                    let k = choose|k: int| 0 <= k < prev.len() && #[trigger] prev[k].id == a;
                    assert(inns[k] == prev[k]);
                } else {
                    assert(inns[inns.len() - 1].id == a);
                }
            }
        }
    }
}

proof fn lemma_side(raw: Seq<char>)
    ensures
        spec_side(raw) matches Ok((_, inns, active)) ==> {
            &&& inns.len() <= 2
            &&& forall|k: int| 0 <= k < inns.len() ==> innings_in_bounds(#[trigger] inns[k])
            &&& active matches Some(a) ==> exists|k: int|
                0 <= k < inns.len() && #[trigger] inns[k].id == a
        },
{
    let score = crate::score::side_score(raw);
    let values = crate::chars::split_char(score, '&');
    lemma_innings_fold(values, crate::score::side_name(raw), values.len());
}

/// A side read from a title names its team by the lowercased name, has one
/// innings per `&`-separated part of its score (at most two, none without a
/// score), names them `<team> Inning 1` and `<team> Inning 2`, and reports
/// as batting one of its own innings.
pub proof fn law_side_innings(raw: Seq<char>)
    ensures
        spec_side(raw) matches Ok((team, inns, active)) ==> {
            &&& team.id == crate::chars::str_to_lowercase(team.name)
            &&& team.score is None
            &&& inns.len() <= 2
            &&& inns.len() == if crate::score::side_score(raw).len() == 0 {
                0
            } else {
                split_char(crate::score::side_score(raw), '&').len()
            }
            &&& forall|k: int|
                0 <= k < inns.len() ==> (#[trigger] inns[k]).id == innings_id(team.name, k)
                    && innings_in_bounds(inns[k])
            &&& active matches Some(a) ==> exists|k: int|
                0 <= k < inns.len() && #[trigger] inns[k].id == a
        },
{
    let score = crate::score::side_score(raw);
    let values = split_char(score, '&');
    lemma_innings_fold(values, crate::score::side_name(raw), values.len());
}

proof fn lemma_item(nodes: Seq<XmlNodeView>, item: int)
    ensures
        spec_item(nodes, item) matches Ok((m, id)) ==> {
            &&& m.id == "cricket:espncricinfo:"@ + id
            &&& cricket_match_sound(m)
        },
{
    if let Ok((m, id)) = spec_item(nodes, item) {
        let title = crate::cricinfo::field(nodes, item, "title"@);
        let at = crate::chars::find_seq_from(title, " v "@, 0)->Some_0;
        let left = title.subrange(0, at);
        let right = title.subrange(at + " v "@.len(), title.len() as int);
        lemma_side(left);
        lemma_side(right);
        let (a, inn_a, act_a) = spec_side(left)->Ok_0;
        let (b, inn_b, act_b) = spec_side(right)->Ok_0;
        assert(m.innings == inn_a + inn_b);
        assert forall|k: int| 0 <= k < m.innings.len() implies innings_in_bounds(
            #[trigger] m.innings[k],
        ) by {
            if k < inn_a.len() {
                assert(m.innings[k] == inn_a[k]);
            } else {
                assert(m.innings[k] == inn_b[k - inn_a.len()]);
            }
        }
        if let Some(x) = act_a {
            let k = choose|k: int| 0 <= k < inn_a.len() && #[trigger] inn_a[k].id == x;
            assert(m.innings[k] == inn_a[k]);
        } else if let Some(x) = act_b {
            let k = choose|k: int| 0 <= k < inn_b.len() && #[trigger] inn_b[k].id == x;
            assert(m.innings[k + inn_a.len()] == inn_b[k]);
        }
    }
}

proof fn lemma_feed_fold(nodes: Seq<XmlNodeView>, kids: Seq<usize>, n: nat)
    ensures
        feed_fold(nodes, kids, n) matches Ok((ms, seen)) ==> {
            &&& ms.len() == seen.len()
            &&& ms.len() <= MAX_CRICKET_MATCHES
            &&& forall|i: int|
                0 <= i < ms.len() ==> (#[trigger] ms[i]).id == "cricket:espncricinfo:"@ + seen[i]
                    && cricket_match_sound(ms[i])
            &&& forall|i: int, j: int|
                0 <= i < j < seen.len() ==> #[trigger] seen[i] != #[trigger] seen[j]
        },
    decreases n,
{
    if n > 0 {
        lemma_feed_fold(nodes, kids, (n - 1) as nat);
        let c = kids[n - 1] as int;
        lemma_item(nodes, c);
        if let Ok((ms, seen)) = feed_fold(nodes, kids, n) {
            let (pms, pseen) = feed_fold(nodes, kids, (n - 1) as nat)->Ok_0;
            if ms.len() > pms.len() {
                assert(ms.drop_last() =~= pms);
                assert(seen.drop_last() =~= pseen);
                assert forall|i: int, j: int| 0 <= i < j < seen.len() implies #[trigger] seen[i]
                    != #[trigger] seen[j] by {
                    if j == seen.len() - 1 {
                        assert(pseen[i] == seen[i]);
                        assert(!pseen.contains(seen[j]));
                    } else {
                        assert(pseen[i] == seen[i] && pseen[j] == seen[j]);
                    }
                }
                assert forall|i: int| 0 <= i < ms.len() implies (#[trigger] ms[i]).id
                    == "cricket:espncricinfo:"@ + seen[i] && cricket_match_sound(ms[i]) by {
                    if i < pms.len() {
                        assert(ms[i] == pms[i] && seen[i] == pseen[i]);
                    }
                }
            }
        }
    }
}

/// A successfully parsed cricket feed lists at most `MAX_MATCHES` matches,
/// each with its own identity, two teams and at most four innings within
/// bounds; a batting innings is always one of the match's innings, and a
/// match is only live with a batting innings. Ambiguous or unfamiliar
/// titles fail instead.
pub proof fn law_cricket_feed_sound(xml: Seq<char>)
    ensures
        spec_parse(xml) matches Ok(ms) ==> {
            &&& ms.len() <= MAX_CRICKET_MATCHES
            &&& forall|i: int| 0 <= i < ms.len() ==> cricket_match_sound(#[trigger] ms[i])
            &&& forall|i: int, j: int|
                0 <= i < j < ms.len() ==> #[trigger] ms[i].id != #[trigger] ms[j].id
        },
{
    if let Some(nodes) = crate::xml::xml_parse(xml) {
        if let Ok(ms) = spec_feed(nodes) {
            let root = crate::xml::first_element(nodes, nodes[0].2)->Some_0;
            let ch = crate::xml::first_tagged(nodes, nodes[root as int].2, "channel"@)->Some_0;
            let kids = nodes[ch as int].2;
            lemma_feed_fold(nodes, kids, kids.len());
            let seen = feed_fold(nodes, kids, kids.len())->Ok_0.1;
            let prefix = "cricket:espncricinfo:"@;
            assert forall|i: int, j: int| 0 <= i < j < ms.len() implies #[trigger] ms[i].id
                != #[trigger] ms[j].id by {
                assert(seen[i] != seen[j]);
                if ms[i].id == ms[j].id {
                    assert((prefix + seen[i]).skip(prefix.len() as int) =~= seen[i]);
                    assert((prefix + seen[j]).skip(prefix.len() as int) =~= seen[j]);
                }
            }
        }
    }
}

/// The positions of the `item` elements among the first `n` children `kids`.
pub open spec fn item_children(nodes: Seq<XmlNodeView>, kids: Seq<usize>, n: nat) -> Seq<int>
    decreases n,
{
    if n == 0 {
        seq![]
    } else {
        let before = item_children(nodes, kids, (n - 1) as nat);
        let c = kids[n - 1] as int;
        if crate::xml::has_tag(nodes, c, "item"@) {
            before.push(c)
        } else {
            before
        }
    }
}

/// The `item` elements of the channel of a parsed feed, in document order.
pub open spec fn feed_items(nodes: Seq<XmlNodeView>) -> Seq<int> {
    let root = crate::xml::first_element(nodes, nodes[0].2)->Some_0;
    let ch = crate::xml::first_tagged(nodes, nodes[root as int].2, "channel"@)->Some_0;
    item_children(nodes, nodes[ch as int].2, nodes[ch as int].2.len())
}

/// `spec_item`, kept folded where a proof ranges over many items.
#[verifier::opaque]
spec fn item_result(nodes: Seq<XmlNodeView>, c: int) -> Result<(MatchView, Seq<char>), &'static str> {
    spec_item(nodes, c)
}

proof fn lemma_feed_fold_items(nodes: Seq<XmlNodeView>, kids: Seq<usize>, n: nat)
    ensures
        feed_fold(nodes, kids, n) matches Ok((ms, seen)) ==> {
            &&& ms.len() == item_children(nodes, kids, n).len()
            &&& seen.len() == ms.len()
            &&& forall|i: int|
                0 <= i < ms.len() ==> item_result(nodes, #[trigger] item_children(nodes, kids, n)[i])
                    == Ok::<(MatchView, Seq<char>), &'static str>((ms[i], seen[i]))
        },
    decreases n,
{
    if n > 0 {
        lemma_feed_fold_items(nodes, kids, (n - 1) as nat);
        if let Ok((ms, seen)) = feed_fold(nodes, kids, n) {
            let (pms, pseen) = feed_fold(nodes, kids, (n - 1) as nat)->Ok_0;
            let items = item_children(nodes, kids, n);
            let before = item_children(nodes, kids, (n - 1) as nat);
            let c = kids[n - 1] as int;
            if crate::xml::has_tag(nodes, c, "item"@) {
                let r = spec_item(nodes, c);
                assert(item_result(nodes, c) == r) by {
                    reveal(item_result);
                }
                assert(r is Ok);
                assert(ms =~= pms.push(r->Ok_0.0));
                assert(seen =~= pseen.push(r->Ok_0.1));
                assert forall|i: int| 0 <= i < ms.len() implies item_result(
                    nodes,
                    #[trigger] items[i],
                ) == Ok::<(MatchView, Seq<char>), &'static str>((ms[i], seen[i])) by {
                    if i < pms.len() {
                        assert(items[i] == before[i]);
                        assert(ms[i] == pms[i] && seen[i] == pseen[i]);
                    } else {
                        assert(items[i] == c);
                    }
                }
            } else {
                assert(ms == pms && seen == pseen && items == before);
            }
        }
    }
}

/// Each match of a parsed cricket feed is the reading of one `item` of its
/// channel: there are as many matches as items, in the items' order, and
/// nothing else in the channel yields a match.
pub proof fn law_cricket_matches_follow_items(xml: Seq<char>)
    ensures
        spec_parse(xml) matches Ok(ms) ==> {
            let nodes = crate::xml::xml_parse(xml)->Some_0;
            &&& ms.len() == feed_items(nodes).len()
            &&& forall|i: int|
                0 <= i < ms.len() ==> (spec_item(nodes, #[trigger] feed_items(nodes)[i]) matches Ok(
                    (m, _),
                ) && m == ms[i])
        },
{
    if let Some(nodes) = crate::xml::xml_parse(xml) {
        if let Ok(ms) = spec_feed(nodes) {
            let root = crate::xml::first_element(nodes, nodes[0].2)->Some_0;
            let ch = crate::xml::first_tagged(nodes, nodes[root as int].2, "channel"@)->Some_0;
            let kids = nodes[ch as int].2;
            lemma_feed_fold_items(nodes, kids, kids.len());
            let items = feed_items(nodes);
            assert forall|i: int| 0 <= i < ms.len() implies (spec_item(
                nodes,
                #[trigger] items[i],
            ) matches Ok((m, _)) && m == ms[i]) by {
                reveal(item_result);
            }
        }
    }
}

/// What one `item` is read as: the match identity comes from its `link`,
/// its name joins the two team names with ` v `, its detail is the first
/// `DETAIL_CHARS` characters of its `description`, and its state is finished
/// only on a result phrase in that description, else live exactly when an
/// innings carries the batting marker, else unknown.
pub proof fn law_cricket_item_reading(nodes: Seq<XmlNodeView>, item: int)
    ensures
        spec_item(nodes, item) matches Ok((m, id)) ==> {
            let description = crate::cricinfo::field(nodes, item, "description"@);
            &&& crate::cricinfo::link_id(crate::cricinfo::field(nodes, item, "link"@)) == Some(id)
            &&& m.id == "cricket:espncricinfo:"@ + id
            &&& m.sport == "cricket"@
            &&& m.start.len() == 0
            &&& m.teams.len() == 2
            &&& m.name == m.teams[0].name + " v "@ + m.teams[1].name
            &&& m.detail == crate::chars::take_chars(
                description,
                crate::cricinfo::DETAIL_CHARS as nat,
            )
            &&& m.cricinfo matches Some(c) && c.source == "espncricinfo-rss"@ && m.state
                == crate::cricinfo::cricket_state(description, c.active_innings_id)
        },
{
}

/// The identity of a scoreboard match: `sport:` followed by the display
/// text of the `id` of one of the document's events.
pub open spec fn event_identity(sport: Seq<char>, evs: Seq<Json>, m: MatchView) -> bool {
    exists|k: int|
        0 <= k < evs.len() && m.id == sport + ":"@ + spec_text(member(Some(#[trigger] evs[k]), "id"@))
}

proof fn lemma_comps_fold(sport: Seq<char>, e: Json, comps: Seq<Json>, n: nat)
    ensures
        comps_fold(sport, e, comps, n) matches Ok(ms) ==> forall|i: int|
            0 <= i < ms.len() ==> (#[trigger] ms[i]).id == sport + ":"@ + spec_text(
                member(Some(e), "id"@),
            ) && ms[i].teams.len() == 2 && ms[i].innings.len() == 0,
    decreases n,
{
    if n > 0 {
        lemma_comps_fold(sport, e, comps, (n - 1) as nat);
        if let Ok(ms) = comps_fold(sport, e, comps, n) {
            let prev = comps_fold(sport, e, comps, (n - 1) as nat)->Ok_0;
            assert forall|i: int| 0 <= i < ms.len() implies (#[trigger] ms[i]).id == sport + ":"@
                + spec_text(member(Some(e), "id"@)) && ms[i].teams.len() == 2
                && ms[i].innings.len() == 0 by {
                if i < prev.len() {
                    assert(ms[i] == prev[i]);
                }
            }
        }
    }
}

proof fn lemma_events_fold(sport: Seq<char>, evs: Seq<Json>, n: nat)
    requires
        n <= evs.len(),
    ensures
        events_fold(sport, evs, n) matches Ok(ms) ==> forall|i: int|
            0 <= i < ms.len() ==> event_identity(sport, evs, #[trigger] ms[i])
                && ms[i].teams.len() == 2 && ms[i].innings.len() == 0,
    decreases n,
{
    if n > 0 {
        lemma_events_fold(sport, evs, (n - 1) as nat);
        let e = evs[n - 1];
        if let Ok(ms) = events_fold(sport, evs, n) {
            let prev = events_fold(sport, evs, (n - 1) as nat)->Ok_0;
            let comps = as_array(member(Some(e), "competitions"@))->Some_0;
            lemma_comps_fold(sport, e, comps, comps.len());
            let more = comps_fold(sport, e, comps, comps.len())->Ok_0;
            assert(ms == prev + more);
            assert forall|i: int| 0 <= i < ms.len() implies event_identity(
                sport,
                evs,
                #[trigger] ms[i],
            ) && ms[i].teams.len() == 2 && ms[i].innings.len() == 0 by {
                if i < prev.len() {
                    assert(ms[i] == prev[i]);
                } else {
                    assert(ms[i] == more[i - prev.len()]);
                    assert(evs[n - 1] == e);
                }
            }
        }
    }
}

/// A successful scoreboard refresh never loses identity: at most
/// `MAX_MATCHES` matches, each identified by its sport and the id of one of
/// the document's events (so a score update cannot change it), with exactly
/// two named teams, no innings, and an id that does not end in `:`. A
/// document without the `content.sbData.events` wrapper is an error, never
/// an empty refresh.
pub proof fn law_scoreboard_identity(sport: Seq<char>, v: Option<Json>)
    ensures
        spec_normalize(sport, v) is Ok ==> as_array(
            member(member(member(v, "content"@), "sbData"@), "events"@),
        ) is Some,
        spec_normalize(sport, v) matches Ok(ms) ==> {
            let evs = as_array(member(member(member(v, "content"@), "sbData"@), "events"@))->Some_0;
            &&& ms.len() <= MAX_MATCHES
            &&& forall|i: int|
                0 <= i < ms.len() ==> event_identity(sport, evs, #[trigger] ms[i])
                    && ms[i].teams.len() == 2 && ms[i].innings.len() == 0 && !missing_identity(
                    ms[i],
                )
        },
{
    if let Some(evs) = as_array(member(member(member(v, "content"@), "sbData"@), "events"@)) {
        lemma_events_fold(sport, evs, evs.len());
    }
}

/// Whether a competition lists exactly two competitors.
pub open spec fn two_sided(c: Json) -> bool {
    as_array(member(Some(c), "competitors"@)) matches Some(xs) && xs.len() == 2
}

/// The two-sided competitions among the first `n` of `comps`, each with its
/// event `e`, in order.
pub open spec fn two_sided_in(e: Json, comps: Seq<Json>, n: nat) -> Seq<(Json, Json)>
    decreases n,
{
    if n == 0 {
        seq![]
    } else {
        let before = two_sided_in(e, comps, (n - 1) as nat);
        if two_sided(comps[n - 1]) {
            before.push((e, comps[n - 1]))
        } else {
            before
        }
    }
}

/// The two-sided competitions of the first `n` events, each with its event,
/// in document order.
pub open spec fn two_sided_of(evs: Seq<Json>, n: nat) -> Seq<(Json, Json)>
    decreases n,
{
    if n == 0 {
        seq![]
    } else {
        let e = evs[n - 1];
        let comps = match as_array(member(Some(e), "competitions"@)) {
            Some(cs) => cs,
            None => seq![],
        };
        two_sided_of(evs, (n - 1) as nat) + two_sided_in(e, comps, comps.len())
    }
}

/// The match read from competition `c` of event `e`.
pub open spec fn pair_match(sport: Seq<char>, e: Json, c: Json) -> MatchView {
    comp_match(
        sport,
        e,
        c,
        competitor_teams(as_array(member(Some(c), "competitors"@))->Some_0),
    )
}

proof fn lemma_comps_pairs(sport: Seq<char>, e: Json, comps: Seq<Json>, n: nat)
    ensures
        comps_fold(sport, e, comps, n) matches Ok(ms) ==> {
            let ps = two_sided_in(e, comps, n);
            &&& ms.len() == ps.len()
            &&& forall|i: int|
                0 <= i < ms.len() ==> #[trigger] ms[i] == pair_match(sport, ps[i].0, ps[i].1)
        },
    decreases n,
{
    if n > 0 {
        lemma_comps_pairs(sport, e, comps, (n - 1) as nat);
        if let Ok(ms) = comps_fold(sport, e, comps, n) {
            let prev = comps_fold(sport, e, comps, (n - 1) as nat)->Ok_0;
            let ps = two_sided_in(e, comps, n);
            let pp = two_sided_in(e, comps, (n - 1) as nat);
            let c = comps[n - 1];
            let xs = as_array(member(Some(c), "competitors"@))->Some_0;
            assert(competitor_teams(xs).len() == xs.len());
            assert forall|i: int| 0 <= i < ms.len() implies #[trigger] ms[i] == pair_match(
                sport,
                ps[i].0,
                ps[i].1,
            ) by {
                if i < prev.len() {
                    assert(ms[i] == prev[i] && ps[i] == pp[i]);
                }
            }
        }
    }
}

proof fn lemma_events_pairs(sport: Seq<char>, evs: Seq<Json>, n: nat)
    requires
        n <= evs.len(),
    ensures
        events_fold(sport, evs, n) matches Ok(ms) ==> {
            let ps = two_sided_of(evs, n);
            &&& ms.len() == ps.len()
            &&& forall|i: int|
                0 <= i < ms.len() ==> #[trigger] ms[i] == pair_match(sport, ps[i].0, ps[i].1)
        },
    decreases n,
{
    if n > 0 {
        lemma_events_pairs(sport, evs, (n - 1) as nat);
        let e = evs[n - 1];
        if let Ok(ms) = events_fold(sport, evs, n) {
            let prev = events_fold(sport, evs, (n - 1) as nat)->Ok_0;
            let comps = as_array(member(Some(e), "competitions"@))->Some_0;
            lemma_comps_pairs(sport, e, comps, comps.len());
            let more = comps_fold(sport, e, comps, comps.len())->Ok_0;
            let pp = two_sided_of(evs, (n - 1) as nat);
            let pm = two_sided_in(e, comps, comps.len());
            let ps = two_sided_of(evs, n);
            assert(ms == prev + more);
            assert(ps == pp + pm);
            assert forall|i: int| 0 <= i < ms.len() implies #[trigger] ms[i] == pair_match(
                sport,
                ps[i].0,
                ps[i].1,
            ) by {
                if i < prev.len() {
                    assert(ms[i] == prev[i] && ps[i] == pp[i]);
                } else {
                    assert(ms[i] == more[i - prev.len()] && ps[i] == pm[i - prev.len()]);
                }
            }
        }
    }
}

/// Each match of a scoreboard is read from one competition with exactly two
/// competitors, one match per such competition, in document order: its id
/// is `sport:` and its event's id, it has no innings, and its state is read
/// from the competition's own status when that is an object, otherwise from
/// its event's (`in` live, `post` finished, `pre` scheduled, anything else
/// unknown).
pub proof fn law_scoreboard_matches_follow_competitions(sport: Seq<char>, v: Option<Json>)
    ensures
        spec_normalize(sport, v) matches Ok(ms) ==> {
            let evs = as_array(member(member(member(v, "content"@), "sbData"@), "events"@))->Some_0;
            let ps = two_sided_of(evs, evs.len());
            &&& ms.len() == ps.len()
            &&& forall|i: int|
                0 <= i < ms.len() ==> {
                    &&& #[trigger] ms[i] == pair_match(sport, ps[i].0, ps[i].1)
                    &&& ms[i].id == sport + ":"@ + spec_text(member(Some(ps[i].0), "id"@))
                    &&& ms[i].sport == sport
                    &&& ms[i].innings.len() == 0
                    &&& ms[i].state == crate::espn::state_of(status_of(ps[i].0, ps[i].1))
                }
        },
{
    if let Some(evs) = as_array(member(member(member(v, "content"@), "sbData"@), "events"@)) {
        lemma_events_pairs(sport, evs, evs.len());
    }
}

/// A `Retry-After` date is never turned into a shorter wait: the whole
/// seconds cover the milliseconds to the date, and are the fewest that do;
/// a date in the past waits nothing.
pub proof fn law_retry_never_shortens(ms: i64)
    ensures
        ms >= 0 ==> wait_secs(ms) * 1000 >= ms && (wait_secs(ms) == 0 || (wait_secs(ms) - 1) * 1000
            < ms),
        ms <= 0 ==> wait_secs(ms) == 0,
{
}

/// Only a 200 response is free of a feed error.
pub proof fn law_only_success_is_not_an_error(
    status: u16,
    header: Option<Seq<char>>,
    secs: i64,
    nanos: u32,
)
    ensures
        spec_response_error(status, header, secs, nanos) is None <==> status == 200,
{
}

/// A competition outside the allow-list never reaches a feed URL.
pub proof fn law_feed_url_allow_list(sport: Seq<char>, league: Seq<char>)
    ensures
        spec_feed_url(sport, league) is Ok ==> (sport == "football"@ ==> is_football_league(league))
            && (sport == "rugby"@ ==> is_rugby_league(league)),
{
    reveal_strlit("nfl");
    reveal_strlit("football");
    reveal_strlit("rugby");
    assert("nfl"@.len() != "football"@.len());
    assert("nfl"@.len() != "rugby"@.len());
    assert("football"@.len() != "rugby"@.len());
}

proof fn lemma_trim_start_keeps(s: Seq<char>, c: char)
    ensures
        trim_start_ws(s).contains(c) ==> s.contains(c),
    decreases s.len(),
{
    if s.len() > 0 && crate::chars::is_white_space(s[0]) {
        lemma_trim_start_keeps(s.drop_first(), c);
        if s.drop_first().contains(c) {
            let k = choose|k: int| 0 <= k < s.drop_first().len() && s.drop_first()[k] == c;
            assert(s[k + 1] == c);
        }
    }
}

proof fn lemma_trim_end_keeps(s: Seq<char>, c: char)
    ensures
        trim_end_ws(s).contains(c) ==> s.contains(c),
    decreases s.len(),
{
    if s.len() > 0 && crate::chars::is_white_space(s.last()) {
        lemma_trim_end_keeps(s.drop_last(), c);
        if s.drop_last().contains(c) {
            let k = choose|k: int| 0 <= k < s.drop_last().len() && s.drop_last()[k] == c;
            assert(s[k] == c);
        }
    }
}

proof fn lemma_trim_end_char_keeps(s: Seq<char>, t: char, c: char)
    ensures
        trim_end_char(s, t).contains(c) ==> s.contains(c),
    decreases s.len(),
{
    if s.len() > 0 && s.last() == t {
        lemma_trim_end_char_keeps(s.drop_last(), t, c);
        if s.drop_last().contains(c) {
            let k = choose|k: int| 0 <= k < s.drop_last().len() && s.drop_last()[k] == c;
            assert(s[k] == c);
        }
    }
}

proof fn lemma_remove_char_keeps(s: Seq<char>, t: char, c: char)
    ensures
        remove_char(s, t).contains(c) ==> s.contains(c),
    decreases s.len(),
{
    if s.len() > 0 {
        lemma_remove_char_keeps(s.drop_last(), t, c);
        let r = remove_char(s, t);
        let p = remove_char(s.drop_last(), t);
        if r.contains(c) {
            let k = choose|k: int| 0 <= k < r.len() && r[k] == c;
            if s.last() != t && k == r.len() - 1 {
                assert(s[s.len() - 1] == c);
            } else {
                assert(p[k] == c);
                let j = choose|j: int| 0 <= j < s.drop_last().len() && s.drop_last()[j] == c;
                assert(s[j] == c);
            }
        }
    }
}

proof fn lemma_ws_scan_keeps(s: Seq<char>, c: char)
    ensures
        forall|k: int|
            0 <= k < ws_scan(s).0.len() && (#[trigger] ws_scan(s).0[k]).contains(c) ==> s.contains(
                c,
            ),
        ws_scan(s).1.contains(c) ==> s.contains(c),
    decreases s.len(),
{
    if s.len() > 0 {
        let p = s.drop_last();
        lemma_ws_scan_keeps(p, c);
        let (pw, pc) = ws_scan(p);
        let (w, cur) = ws_scan(s);
        assert forall|j: int| 0 <= j < p.len() && p[j] == c implies s.contains(c) by {
            assert(s[j] == c);
        }
        if cur.contains(c) && !pc.contains(c) {
            let k = choose|k: int| 0 <= k < cur.len() && cur[k] == c;
            if k < pc.len() {
                assert(pc[k] == c);
            } else {
                assert(s[s.len() - 1] == c);
            }
        }
        assert forall|k: int|
            0 <= k < w.len() && (#[trigger] w[k]).contains(c) implies s.contains(c) by {
            if k < pw.len() {
                assert(w[k] == pw[k]);
            } else {
                assert(w[k] == pc);
            }
        }
    }
}

proof fn lemma_sep_scan_without_sep(s: Seq<char>, sep: char)
    requires
        !s.contains(sep),
    ensures
        sep_scan(s, sep).0.len() == 0,
    decreases s.len(),
{
    if s.len() > 0 {
        assert(s.last() == s[s.len() - 1]);
        assert forall|j: int| 0 <= j < s.drop_last().len() implies s.drop_last()[j] != sep by {
            assert(s[j] == s.drop_last()[j]);
        }
        lemma_sep_scan_without_sep(s.drop_last(), sep);
    }
}

/// A bare run total is never read as a wicket count: an innings whose text
/// holds no `/` has no wickets (a missing number is never made up).
pub proof fn law_bare_runs_have_no_wickets(value: Seq<char>, slot: int, name: Seq<char>)
    ensures
        !value.contains('/') ==> (spec_innings(value, slot, name) matches Ok((inn, _))
            ==> inn.wickets is None),
{
    if !value.contains('/') {
        let v = trim_ws(value);
        lemma_trim_start_keeps(value, '/');
        lemma_trim_end_keeps(trim_start_ws(value), '/');
        let clean = remove_char(v, '*');
        lemma_remove_char_keeps(v, '*', '/');
        lemma_ws_scan_keeps(clean, '/');
        let words = split_ws(clean);
        if words.len() > 0 {
            let (w, cur) = ws_scan(clean);
            assert(!words[0].contains('/')) by {
                if w.len() > 0 {
                    assert(words[0] == w[0]);
                } else {
                    assert(words[0] == cur);
                }
            }
            lemma_trim_end_char_keeps(words[0], 'd', '/');
            lemma_sep_scan_without_sep(trim_end_char(words[0], 'd'), '/');
            assert(split_char(trim_end_char(words[0], 'd'), '/').len() == 1);
        }
    }
}

proof fn lemma_sep_scan_with_sep(s: Seq<char>, sep: char)
    requires
        s.contains(sep),
    ensures
        sep_scan(s, sep).0.len() > 0,
    decreases s.len(),
{
    if s.last() != sep {
        let k = choose|k: int| 0 <= k < s.len() && s[k] == sep;
        assert(s.drop_last()[k] == sep);
        lemma_sep_scan_with_sep(s.drop_last(), sep);
    }
}

proof fn lemma_trim_end_char_keeps_other(s: Seq<char>, t: char, c: char)
    requires
        c != t,
        s.contains(c),
    ensures
        trim_end_char(s, t).contains(c),
    decreases s.len(),
{
    if s.len() > 0 && s.last() == t {
        let k = choose|k: int| 0 <= k < s.len() && s[k] == c;
        assert(s.drop_last()[k] == c);
        lemma_trim_end_char_keeps_other(s.drop_last(), t, c);
    }
}

/// An innings is read as written: with `tok` the first word of its part of
/// the score once the batting marker is removed, it has wickets exactly when
/// `tok` holds a `/`, it is declared exactly when `tok` ends in `d`, its runs
/// and wickets lie within the accepted bounds, and its overs figure is empty
/// or made of digits and `.` only.
pub proof fn law_innings_read_as_written(value: Seq<char>, slot: int, name: Seq<char>)
    ensures
        spec_innings(value, slot, name) matches Ok((inn, _)) ==> {
            let tok = split_ws(remove_char(trim_ws(value), '*'))[0];
            &&& inn.wickets is None <==> !tok.contains('/')
            &&& inn.declared == (tok.len() > 0 && tok.last() == 'd')
            &&& innings_in_bounds(inn)
            &&& crate::score::all_overs_chars(inn.overs)
        },
{
    if let Ok((inn, _)) = spec_innings(value, slot, name) {
        let tok = split_ws(remove_char(trim_ws(value), '*'))[0];
        if tok.contains('/') {
            lemma_trim_end_char_keeps_other(tok, 'd', '/');
            lemma_sep_scan_with_sep(trim_end_char(tok, 'd'), '/');
        } else {
            lemma_trim_end_char_keeps(tok, 'd', '/');
            lemma_sep_scan_without_sep(trim_end_char(tok, 'd'), '/');
        }
    }
}

/// Two competitor entries that agree in everything a team is read from,
/// except perhaps their scores.
pub open spec fn competitor_same_but_score(x: Json, y: Json) -> bool {
    member(Some(x), "team"@) == member(Some(y), "team"@)
}

/// Two competitions that agree in everything but their competitors' scores.
pub open spec fn competition_same_but_scores(c: Json, d: Json) -> bool {
    &&& member(Some(c), "status"@) == member(Some(d), "status"@)
    &&& match (as_array(member(Some(c), "competitors"@)), as_array(member(Some(d), "competitors"@))) {
        (Some(xs), Some(ys)) => xs.len() == ys.len() && forall|j: int|
            0 <= j < xs.len() ==> competitor_same_but_score(#[trigger] xs[j], ys[j]),
        (None, None) => true,
        _ => false,
    }
}

/// Two events that agree in everything but their competitors' scores.
pub open spec fn event_same_but_scores(e: Json, f: Json) -> bool {
    &&& member(Some(e), "id"@) == member(Some(f), "id"@)
    &&& member(Some(e), "name"@) == member(Some(f), "name"@)
    &&& member(Some(e), "date"@) == member(Some(f), "date"@)
    &&& member(Some(e), "status"@) == member(Some(f), "status"@)
    &&& match (as_array(member(Some(e), "competitions"@)), as_array(member(Some(f), "competitions"@))) {
        (Some(cs), Some(ds)) => cs.len() == ds.len() && forall|k: int|
            0 <= k < cs.len() ==> competition_same_but_scores(#[trigger] cs[k], ds[k]),
        (None, None) => true,
        _ => false,
    }
}

/// Two normalised matches that are equal but for their teams' scores.
pub open spec fn match_same_but_scores(m: MatchView, n: MatchView) -> bool {
    &&& m.id == n.id
    &&& m.sport == n.sport
    &&& m.name == n.name
    &&& m.state == n.state
    &&& m.detail == n.detail
    &&& m.start == n.start
    &&& m.innings == n.innings
    &&& m.cricinfo == n.cricinfo
    &&& m.teams.len() == n.teams.len()
    &&& forall|j: int|
        0 <= j < m.teams.len() ==> (#[trigger] m.teams[j]).id == n.teams[j].id && m.teams[j].name
            == n.teams[j].name
}

/// Two lists of matches that are equal but for their teams' scores.
pub open spec fn matches_same_but_scores(a: Seq<MatchView>, b: Seq<MatchView>) -> bool {
    a.len() == b.len() && forall|i: int| 0 <= i < a.len() ==> match_same_but_scores(#[trigger] a[i], b[i])
}

proof fn lemma_comps_same(sport: Seq<char>, e: Json, f: Json, cs: Seq<Json>, ds: Seq<Json>, n: nat)
    requires
        n <= cs.len() == ds.len(),
        event_same_but_scores(e, f),
        forall|k: int| 0 <= k < cs.len() ==> competition_same_but_scores(#[trigger] cs[k], ds[k]),
    ensures
        match (comps_fold(sport, e, cs, n), comps_fold(sport, f, ds, n)) {
            (Ok(a), Ok(b)) => matches_same_but_scores(a, b),
            (Err(x), Err(y)) => x == y,
            _ => false,
        },
    decreases n,
{
    if n > 0 {
        lemma_comps_same(sport, e, f, cs, ds, (n - 1) as nat);
        let c = cs[n - 1];
        let d = ds[n - 1];
        assert(competition_same_but_scores(c, d));
        if let (Ok(pa), Ok(pb)) = (
            comps_fold(sport, e, cs, (n - 1) as nat),
            comps_fold(sport, f, ds, (n - 1) as nat),
        ) {
            if let (Some(xs), Some(ys)) = (
                as_array(member(Some(c), "competitors"@)),
                as_array(member(Some(d), "competitors"@)),
            ) {
                let ta = competitor_teams(xs);
                let tb = competitor_teams(ys);
                assert(ta.len() == tb.len());
                if ta.len() == 2 {
                    let ma = comp_match(sport, e, c, ta);
                    let mb = comp_match(sport, f, d, tb);
                    assert(status_of(e, c) == status_of(f, d));
                    assert forall|j: int| 0 <= j < ma.teams.len() implies (
                    #[trigger] ma.teams[j]).id == mb.teams[j].id && ma.teams[j].name
                        == mb.teams[j].name by {
                        assert(competitor_same_but_score(xs[j], ys[j]));
                        assert(ta[j] == competitor_team(xs[j]));
                        assert(tb[j] == competitor_team(ys[j]));
                    }
                    assert(match_same_but_scores(ma, mb));
                    let a = pa.push(ma);
                    let b = pb.push(mb);
                    assert forall|i: int| 0 <= i < a.len() implies match_same_but_scores(
                        #[trigger] a[i],
                        b[i],
                    ) by {
                        if i < pa.len() {
                            assert(a[i] == pa[i] && b[i] == pb[i]);
                        }
                    }
                }
            }
        }
    }
}

proof fn lemma_events_same(sport: Seq<char>, es: Seq<Json>, fs: Seq<Json>, n: nat)
    requires
        n <= es.len() == fs.len(),
        forall|k: int| 0 <= k < es.len() ==> event_same_but_scores(#[trigger] es[k], fs[k]),
    ensures
        match (events_fold(sport, es, n), events_fold(sport, fs, n)) {
            (Ok(a), Ok(b)) => matches_same_but_scores(a, b),
            (Err(x), Err(y)) => x == y,
            _ => false,
        },
    decreases n,
{
    if n > 0 {
        lemma_events_same(sport, es, fs, (n - 1) as nat);
        let e = es[n - 1];
        let f = fs[n - 1];
        assert(event_same_but_scores(e, f));
        if let (Ok(pa), Ok(pb)) = (
            events_fold(sport, es, (n - 1) as nat),
            events_fold(sport, fs, (n - 1) as nat),
        ) {
            if let (Some(cs), Some(ds)) = (
                as_array(member(Some(e), "competitions"@)),
                as_array(member(Some(f), "competitions"@)),
            ) {
                lemma_comps_same(sport, e, f, cs, ds, cs.len());
                if let (Ok(ma), Ok(mb)) = (
                    comps_fold(sport, e, cs, cs.len()),
                    comps_fold(sport, f, ds, ds.len()),
                ) {
                    let a = pa + ma;
                    let b = pb + mb;
                    assert forall|i: int| 0 <= i < a.len() implies match_same_but_scores(
                        #[trigger] a[i],
                        b[i],
                    ) by {
                        if i < pa.len() {
                            assert(a[i] == pa[i] && b[i] == pb[i]);
                        } else {
                            assert(a[i] == ma[i - pa.len()] && b[i] == mb[i - pa.len()]);
                        }
                    }
                }
            }
        }
    }
}

/// A score update changes nothing but scores: two scoreboard documents whose
/// events agree in everything but their competitors' scores normalise alike
/// (both fail with the same error, or both give the same matches with the
/// same match and team identities, names, states and details).
pub proof fn law_score_updates_preserve_identity(sport: Seq<char>, v: Option<Json>, w: Option<Json>)
    requires
        match (
            as_array(member(member(member(v, "content"@), "sbData"@), "events"@)),
            as_array(member(member(member(w, "content"@), "sbData"@), "events"@)),
        ) {
            (Some(es), Some(fs)) => es.len() == fs.len() && forall|k: int|
                0 <= k < es.len() ==> event_same_but_scores(#[trigger] es[k], fs[k]),
            _ => false,
        },
    ensures
        match (spec_normalize(sport, v), spec_normalize(sport, w)) {
            (Ok(a), Ok(b)) => matches_same_but_scores(a, b),
            (Err(x), Err(y)) => x == y,
            _ => false,
        },
{
    let es = as_array(member(member(member(v, "content"@), "sbData"@), "events"@))->Some_0;
    let fs = as_array(member(member(member(w, "content"@), "sbData"@), "events"@))->Some_0;
    lemma_events_same(sport, es, fs, es.len());
    if let (Ok(a), Ok(b)) = (events_fold(sport, es, es.len()), events_fold(sport, fs, fs.len())) {
        assert((exists|i: int| 0 <= i < a.len() && missing_identity(#[trigger] a[i])) == (exists|
            i: int,
        | 0 <= i < b.len() && missing_identity(#[trigger] b[i]))) by {
            assert forall|i: int| 0 <= i < a.len() implies missing_identity(#[trigger] a[i])
                == missing_identity(b[i]) by {
                assert(match_same_but_scores(a[i], b[i]));
                let ma = a[i];
                let mb = b[i];
                assert forall|j: int| 0 <= j < ma.teams.len() implies (#[trigger] ma.teams[j]).name
                    == mb.teams[j].name by {}
                if missing_identity(ma) {
                    if !(take_chars_id(ma)) {
                        let j = choose|j: int|
                            0 <= j < ma.teams.len() && #[trigger] crate::chars::take_chars(
                                crate::chars::remove_control(ma.teams[j].name),
                                crate::json::MAX_TEXT_CHARS as nat,
                            ).len() == 0;
                        assert(crate::chars::take_chars(
                            crate::chars::remove_control(mb.teams[j].name),
                            crate::json::MAX_TEXT_CHARS as nat,
                        ).len() == 0);
                    }
                }
                if missing_identity(mb) {
                    if !(take_chars_id(mb)) {
                        let j = choose|j: int|
                            0 <= j < mb.teams.len() && #[trigger] crate::chars::take_chars(
                                crate::chars::remove_control(mb.teams[j].name),
                                crate::json::MAX_TEXT_CHARS as nat,
                            ).len() == 0;
                        assert(crate::chars::take_chars(
                            crate::chars::remove_control(ma.teams[j].name),
                            crate::json::MAX_TEXT_CHARS as nat,
                        ).len() == 0);
                    }
                }
            }
            if exists|i: int| 0 <= i < a.len() && missing_identity(#[trigger] a[i]) {
                let i = choose|i: int| 0 <= i < a.len() && missing_identity(#[trigger] a[i]);
                assert(missing_identity(b[i]));
            }
            if exists|i: int| 0 <= i < b.len() && missing_identity(#[trigger] b[i]) {
                let i = choose|i: int| 0 <= i < b.len() && missing_identity(#[trigger] b[i]);
                assert(missing_identity(a[i]));
            }
        }
    }
}

/// Whether a match's id, read as display text, ends with `:`.
spec fn take_chars_id(m: MatchView) -> bool {
    let id = crate::chars::take_chars(
        crate::chars::remove_control(m.id),
        crate::json::MAX_TEXT_CHARS as nat,
    );
    id.len() > 0 && id.last() == ':'
}

/// A match is reported finished exactly when the lowercased description of
/// its item holds one of the result phrases ` won by `, `match drawn`,
/// `match tied`, `no result` or `match abandoned`. Otherwise (a toss report,
/// a session note) it is live exactly when one of its innings carries the
/// batting marker, and unknown when none does.
pub proof fn law_cricket_finished_only_on_result(nodes: Seq<XmlNodeView>, item: int)
    ensures
        spec_item(nodes, item) matches Ok((m, _)) ==> {
            let lower = crate::chars::str_to_lowercase(
                crate::cricinfo::field(nodes, item, "description"@),
            );
            let result = {
                ||| crate::chars::contains_seq(lower, " won by "@)
                ||| crate::chars::contains_seq(lower, "match drawn"@)
                ||| crate::chars::contains_seq(lower, "match tied"@)
                ||| crate::chars::contains_seq(lower, "no result"@)
                ||| crate::chars::contains_seq(lower, "match abandoned"@)
            };
            &&& m.state == MatchState::Finished <==> result
            &&& m.cricinfo matches Some(c) && (!result ==> {
                &&& m.state == MatchState::Live <==> c.active_innings_id is Some
                &&& m.state == MatchState::Unknown <==> c.active_innings_id is None
            })
        },
{
}

proof fn lemma_trim_start_keeps_other(s: Seq<char>, c: char)
    requires
        !crate::chars::is_white_space(c),
        s.contains(c),
    ensures
        trim_start_ws(s).contains(c),
    decreases s.len(),
{
    if s.len() > 0 && crate::chars::is_white_space(s[0]) {
        let k = choose|k: int| 0 <= k < s.len() && s[k] == c;
        assert(k != 0);
        assert(s.drop_first()[k - 1] == c);
        lemma_trim_start_keeps_other(s.drop_first(), c);
    }
}

proof fn lemma_trim_end_keeps_other(s: Seq<char>, c: char)
    requires
        !crate::chars::is_white_space(c),
        s.contains(c),
    ensures
        trim_end_ws(s).contains(c),
    decreases s.len(),
{
    if s.len() > 0 && crate::chars::is_white_space(s.last()) {
        let k = choose|k: int| 0 <= k < s.len() && s[k] == c;
        assert(k != s.len() - 1);
        assert(s.drop_last()[k] == c);
        lemma_trim_end_keeps_other(s.drop_last(), c);
    }
}

proof fn lemma_star_survives_trim(value: Seq<char>)
    ensures
        trim_ws(value).contains('*') == value.contains('*'),
{
    assert(!crate::chars::is_white_space('*'));
    lemma_trim_start_keeps(value, '*');
    lemma_trim_end_keeps(trim_start_ws(value), '*');
    if value.contains('*') {
        lemma_trim_start_keeps_other(value, '*');
        lemma_trim_end_keeps_other(trim_start_ws(value), '*');
    }
}

/// An innings carries the batting marker exactly when its part of the score
/// holds a `*` anywhere, whether the `*` stands alone or follows a figure.
pub proof fn law_batting_marker_anywhere(value: Seq<char>, slot: int, name: Seq<char>)
    ensures
        spec_innings(value, slot, name) matches Ok((_, active)) ==> active == value.contains('*'),
{
    lemma_star_survives_trim(value);
}

proof fn lemma_innings_ids_differ(name: Seq<char>)
    ensures
        innings_id(name, 0) != innings_id(name, 1),
{
    reveal_strlit(" Inning 1");
    reveal_strlit(" Inning 2");
    let a = innings_id(name, 0);
    let b = innings_id(name, 1);
    assert(a[name.len() + 8int] == '1');
    assert(b[name.len() + 8int] == '2');
}

proof fn lemma_innings_fold_marker(values: Seq<Seq<char>>, name: Seq<char>, n: nat)
    ensures
        innings_fold(values, name, n) matches Ok((inns, active)) ==> forall|k: int|
            0 <= k < inns.len() ==> (active == Some((#[trigger] inns[k]).id) <==> values[k].contains(
                '*',
            )),
    decreases n,
{
    if n > 0 {
        lemma_innings_fold_marker(values, name, (n - 1) as nat);
        lemma_innings_fold(values, name, n);
        lemma_innings_fold(values, name, (n - 1) as nat);
        lemma_innings_ids_differ(name);
        let slot = n - 1;
        law_batting_marker_anywhere(values[slot], slot, name);
        if let Ok((inns, active)) = innings_fold(values, name, n) {
            let (prev, prev_active) = innings_fold(values, name, (n - 1) as nat)->Ok_0;
            assert(inns.drop_last() =~= prev);
            assert forall|k: int| 0 <= k < inns.len() implies (active == Some(
                (#[trigger] inns[k]).id,
            ) <==> values[k].contains('*')) by {
                if k < prev.len() {
                    assert(inns[k] == prev[k]);
                    assert(k == 0 && slot == 1);
                } else {
                    assert(k == slot);
                    if prev_active is Some {
                        assert(prev.len() == 1);
                        assert(prev_active == Some(prev[0].id));
                    }
                }
            }
        }
    }
}

/// A side reports as batting exactly the innings whose `&`-separated part of
/// the score holds a `*`.
pub proof fn law_side_batting_innings(raw: Seq<char>)
    ensures
        spec_side(raw) matches Ok((_, inns, active)) ==> forall|k: int|
            0 <= k < inns.len() ==> (active == Some((#[trigger] inns[k]).id) <==> split_char(
                crate::score::side_score(raw),
                '&',
            )[k].contains('*')),
{
    let score = crate::score::side_score(raw);
    let values = split_char(score, '&');
    lemma_innings_fold_marker(values, crate::score::side_name(raw), values.len());
}

/// Each team of a scoreboard match is read from its competitor entry: its id
/// is the display text of the entry's `team.id`, its name that of
/// `team.displayName`, and its score the entry's `score` read as a number.
pub proof fn law_scoreboard_teams_from_competitors(sport: Seq<char>, v: Option<Json>)
    ensures
        spec_normalize(sport, v) matches Ok(ms) ==> {
            let evs = as_array(member(member(member(v, "content"@), "sbData"@), "events"@))->Some_0;
            let ps = two_sided_of(evs, evs.len());
            forall|i: int, j: int|
                0 <= i < ms.len() && 0 <= j < 2 ==> {
                    let x = as_array(member(Some(ps[i].1), "competitors"@))->Some_0[j];
                    let t = member(Some(x), "team"@);
                    &&& ms[i].teams.len() == 2
                    &&& (#[trigger] ms[i].teams[j]).id == spec_text(member(t, "id"@))
                    &&& ms[i].teams[j].name == spec_text(member(t, "displayName"@))
                    &&& ms[i].teams[j].score == crate::json::spec_number(member(Some(x), "score"@))
                }
        },
{
    if let Some(evs) = as_array(member(member(member(v, "content"@), "sbData"@), "events"@)) {
        lemma_events_pairs(sport, evs, evs.len());
        lemma_events_fold(sport, evs, evs.len());
        if let Ok(ms) = spec_normalize(sport, v) {
            let ps = two_sided_of(evs, evs.len());
            assert forall|i: int, j: int| 0 <= i < ms.len() && 0 <= j < 2 implies {
                let x = as_array(member(Some(ps[i].1), "competitors"@))->Some_0[j];
                let t = member(Some(x), "team"@);
                &&& ms[i].teams.len() == 2
                &&& (#[trigger] ms[i].teams[j]).id == spec_text(member(t, "id"@))
                &&& ms[i].teams[j].name == spec_text(member(t, "displayName"@))
                &&& ms[i].teams[j].score == crate::json::spec_number(member(Some(x), "score"@))
            } by {
                let xs = as_array(member(Some(ps[i].1), "competitors"@))->Some_0;
                assert(ms[i] == pair_match(sport, ps[i].0, ps[i].1));
                assert(ms[i].teams == competitor_teams(xs));
                assert(ms[i].teams[j] == competitor_team(xs[j]));
            }
        }
    }
}

/// A redirect is followed exactly to the HTTPS live-scores path on one of
/// the four feed hosts (`www.espncricinfo.com`, `www.cricinfo.com`,
/// `static.espncricinfo.com`, `static.cricinfo.com`), with no credentials,
/// explicit port or query.
pub proof fn law_redirect_allow_list(u: crate::url::UrlPartsView)
    ensures
        crate::url::spec_allowed_url(u) <==> {
            &&& u.0 == "https"@
            &&& u.1 matches Some(h) && {
                ||| h == "www.espncricinfo.com"@
                ||| h == "www.cricinfo.com"@
                ||| h == "static.espncricinfo.com"@
                ||| h == "static.cricinfo.com"@
            }
            &&& u.2 == "/rss/livescores.xml"@
            &&& u.3.len() == 0
            &&& u.4 is None
            &&& u.5 is None
            &&& u.6 is None
        },
{
}

/// The state of a refused response follows its status alone: 401 and 403
/// are access-denied, 429 alone is rate-limited, and every other status but
/// 200 has failed; the wait is the one its `Retry-After` header asks for.
pub proof fn law_status_classes(status: u16, header: Option<Seq<char>>, secs: i64, nanos: u32)
    ensures
        spec_response_error(status, header, secs, nanos) matches Some((state, message, wait)) ==> {
            &&& state@ == "access-denied"@ <==> (status == 401 || status == 403)
            &&& state@ == "rate-limited"@ <==> status == 429
            &&& state@ == "failed"@ <==> !(status == 401 || status == 403 || status == 429)
            &&& !(status == 401 || status == 403 || status == 429) ==> message@
                == "Provider returned an HTTP error"@
            &&& wait == match header {
                Some(h) => crate::feed::spec_retry_after(h, secs, nanos),
                None => None,
            }
        },
{
    reveal_strlit("access-denied");
    reveal_strlit("rate-limited");
    reveal_strlit("failed");
    assert("access-denied"@.len() == 13);
    assert("rate-limited"@.len() == 12);
    assert("failed"@.len() == 6);
}

} // verus!
