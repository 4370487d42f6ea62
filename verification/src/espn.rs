//! Normalisation of the ESPN CDN scoreboard (`content.sbData.events`) used
//! for NFL, football and rugby.

use vstd::prelude::*;
use crate::chars::{remove_control, remove_control_exec, take_chars, take_chars_exec, to_chars, concat, from_chars};
use crate::json::{
    array, as_array, as_str, deref_opt, get, is_object, member, spec_team, spec_text, team,
    text_of, Json, MAX_TEXT_CHARS,
};
use crate::model::{Match, MatchState, MatchView, Team, TeamView};
use crate::url::str_eq;

verus! {

/// The most matches one scoreboard may list.
pub const MAX_MATCHES: usize = 500;

/// The sports served by the ESPN scoreboard adapter.
pub open spec fn is_espn_sport(sport: Seq<char>) -> bool {
    sport == "nfl"@ || sport == "football"@ || sport == "rugby"@
}

/// The team of one competitor entry.
pub open spec fn competitor_team(x: Json) -> TeamView {
    let t = member(Some(x), "team"@);
    spec_team(member(t, "id"@), member(t, "displayName"@), member(Some(x), "score"@))
}

/// The teams of a list of competitor entries.
pub open spec fn competitor_teams(xs: Seq<Json>) -> Seq<TeamView> {
    xs.map_values(|x: Json| competitor_team(x))
}

/// The status that applies to a competition: its own when it is an object,
/// otherwise its event's.
pub open spec fn status_of(e: Json, c: Json) -> Option<Json> {
    if is_object(member(Some(c), "status"@)) {
        member(Some(c), "status"@)
    } else {
        member(Some(e), "status"@)
    }
}

/// The match state named by a status: `in`, `post` and `pre` are live,
/// finished and scheduled; anything else is unknown.
pub open spec fn state_of(status: Option<Json>) -> MatchState {
    match as_str(member(member(status, "type"@), "state"@)) {
        Some(s) => if s == "in"@ {
            MatchState::Live
        } else if s == "post"@ {
            MatchState::Finished
        } else if s == "pre"@ {
            MatchState::Scheduled
        } else {
            MatchState::Unknown
        },
        None => MatchState::Unknown,
    }
}

/// The match of one competition `c` of event `e`, with its two teams.
pub open spec fn comp_match(sport: Seq<char>, e: Json, c: Json, teams: Seq<TeamView>) -> MatchView {
    let status = status_of(e, c);
    MatchView {
        id: sport + ":"@ + spec_text(member(Some(e), "id"@)),
        sport,
        name: spec_text(member(Some(e), "name"@)),
        state: state_of(status),
        detail: spec_text(member(member(status, "type"@), "shortDetail"@)),
        start: spec_text(member(Some(e), "date"@)),
        teams,
        innings: seq![],
        cricinfo: None,
    }
}

/// The matches of the first `n` competitions of event `e`: each must list
/// its competitors; one without exactly two teams is skipped.
pub open spec fn comps_fold(sport: Seq<char>, e: Json, comps: Seq<Json>, n: nat) -> Result<
    Seq<MatchView>,
    &'static str,
>
    decreases n,
{
    if n == 0 {
        Ok(seq![])
    } else {
        match comps_fold(sport, e, comps, (n - 1) as nat) {
            Err(x) => Err(x),
            Ok(ms) => {
                let c = comps[n - 1];
                match as_array(member(Some(c), "competitors"@)) {
                    None => Err("Unexpected provider response"),
                    Some(xs) => {
                        let teams = competitor_teams(xs);
                        if teams.len() != 2 {
                            Ok(ms)
                        } else {
                            Ok(ms.push(comp_match(sport, e, c, teams)))
                        }
                    },
                }
            },
        }
    }
}

/// The matches of the first `n` events: each must list its competitions.
pub open spec fn events_fold(sport: Seq<char>, events: Seq<Json>, n: nat) -> Result<
    Seq<MatchView>,
    &'static str,
>
    decreases n,
{
    if n == 0 {
        Ok(seq![])
    } else {
        match events_fold(sport, events, (n - 1) as nat) {
            Err(x) => Err(x),
            Ok(ms) => {
                let e = events[n - 1];
                match as_array(member(Some(e), "competitions"@)) {
                    None => Err("Unexpected provider response"),
                    Some(comps) => match comps_fold(sport, e, comps, comps.len()) {
                        Err(x) => Err(x),
                        Ok(more) => Ok(ms + more),
                    },
                }
            },
        }
    }
}

/// A match that lacks its identity: its id (read as display text) ends with
/// `:`, or one of its teams has no name.
pub open spec fn missing_identity(m: MatchView) -> bool {
    let id = take_chars(remove_control(m.id), MAX_TEXT_CHARS as nat);
    ||| id.len() > 0 && id.last() == ':'
    ||| exists|i: int|
        0 <= i < m.teams.len() && #[trigger] take_chars(
            remove_control(m.teams[i].name),
            MAX_TEXT_CHARS as nat,
        ).len() == 0
}

/// The normalised matches of a scoreboard document. The events must be
/// wrapped in `content.sbData`: a missing wrapper is an error, never an
/// empty refresh.
pub open spec fn spec_normalize(sport: Seq<char>, v: Option<Json>) -> Result<
    Seq<MatchView>,
    &'static str,
> {
    if !is_espn_sport(sport) {
        Err("Unsupported sport")
    } else {
        match as_array(member(member(member(v, "content"@), "sbData"@), "events"@)) {
            None => Err("Unexpected provider response"),
            Some(evs) => match events_fold(sport, evs, evs.len()) {
                Err(x) => Err(x),
                Ok(ms) => if ms.len() > MAX_MATCHES {
                    Err("Too many matches in response")
                } else if exists|i: int| 0 <= i < ms.len() && missing_identity(#[trigger] ms[i]) {
                    Err("Provider omitted match or team identity")
                } else {
                    Ok(ms)
                },
            },
        }
    }
}

fn state_exec(status: Option<&Json>) -> (r: MatchState)
    ensures
        r == state_of(deref_opt(status)),
{
    match get(get(status, "type"), "state") {
        Some(Json::Str(s)) => {
            if str_eq(s.as_str(), "in") {
                MatchState::Live
            } else if str_eq(s.as_str(), "post") {
                MatchState::Finished
            } else if str_eq(s.as_str(), "pre") {
                MatchState::Scheduled
            } else {
                MatchState::Unknown
            }
        },
        _ => MatchState::Unknown,
    }
}

fn comp_match_exec(sport: &str, e: &Json, c: &Json, teams: Vec<Team>) -> (r: Match)
    ensures
        r.deep_view() == comp_match(sport@, *e, *c, teams.deep_view()),
{
    let own = get(Some(c), "status");
    let status = match own {
        Some(Json::Object(_)) => own,
        _ => get(Some(e), "status"),
    };
    let id = concat(
        &concat(&to_chars(sport), &to_chars(":")),
        &to_chars(text_of(get(Some(e), "id")).as_str()),
    );
    let m = Match {
        id: from_chars(&id),
        sport: sport.to_owned(),
        name: text_of(get(Some(e), "name")),
        state: state_exec(status),
        detail: text_of(get(get(status, "type"), "shortDetail")),
        start: text_of(get(Some(e), "date")),
        teams,
        innings: Vec::new(),
        cricinfo: None,
    };
    assert(m.deep_view().innings =~= Seq::empty());
    m
}

fn comps_exec(sport: &str, e: &Json, comps: &Vec<Json>) -> (r: Result<Vec<Match>, &'static str>)
    ensures
        match r {
            Ok(ms) => comps_fold(sport@, *e, comps@, comps@.len()) == Ok::<
                Seq<MatchView>,
                &'static str,
            >(ms.deep_view()),
            Err(x) => comps_fold(sport@, *e, comps@, comps@.len()) == Err::<
                Seq<MatchView>,
                &'static str,
            >(x),
        },
{
    let mut out: Vec<Match> = Vec::new();
    assert(out.deep_view() =~= Seq::<MatchView>::empty());
    for j in 0..comps.len()
        invariant
            comps_fold(sport@, *e, comps@, j as nat) == Ok::<Seq<MatchView>, &'static str>(
                out.deep_view(),
            ),
    {
        let c = &comps[j];
        let competitors = match array(get(Some(c), "competitors")) {
            Ok(x) => x,
            Err(x) => {
                proof {
                    lemma_comps_err(sport@, *e, comps@, (j + 1) as nat, comps@.len());
                }
                return Err(x);
            },
        };
        let mut teams: Vec<Team> = Vec::new();
        assert(teams.deep_view() =~= Seq::<TeamView>::empty());
        for k in 0..competitors.len()
            invariant
                teams.deep_view() == competitor_teams(competitors@.take(k as int)),
        {
            let x = &competitors[k];
            let t = get(Some(x), "team");
            let tm = team(get(t, "id"), get(t, "displayName"), get(Some(x), "score"));
            let ghost before = teams.deep_view();
            let ghost tv = tm.deep_view();
            teams.push(tm);
            assert(teams.deep_view() =~= before.push(tv));
            assert(competitor_teams(competitors@.take(k + 1)) =~= competitor_teams(
                competitors@.take(k as int),
            ).push(competitor_team(competitors@[k as int])));
        }
        assert(competitors@.take(competitors.len() as int) =~= competitors@);
        if teams.len() == 2 {
            let m = comp_match_exec(sport, e, c, teams);
            let ghost before = out.deep_view();
            let ghost mv = m.deep_view();
            out.push(m);
            assert(out.deep_view() =~= before.push(mv));
        }
    }
    Ok(out)
}

proof fn lemma_comps_err(sport: Seq<char>, e: Json, comps: Seq<Json>, n: nat, m: nat)
    requires
        n <= m,
        comps_fold(sport, e, comps, n) is Err,
    ensures
        comps_fold(sport, e, comps, m) == comps_fold(sport, e, comps, n),
    decreases m - n,
{
    if n < m {
        lemma_comps_err(sport, e, comps, n, (m - 1) as nat);
    }
}

proof fn lemma_events_err(sport: Seq<char>, evs: Seq<Json>, n: nat, m: nat)
    requires
        n <= m,
        events_fold(sport, evs, n) is Err,
    ensures
        events_fold(sport, evs, m) == events_fold(sport, evs, n),
    decreases m - n,
{
    if n < m {
        lemma_events_err(sport, evs, n, (m - 1) as nat);
    }
}

fn missing_identity_exec(m: &Match) -> (r: bool)
    ensures
        r == missing_identity(m.deep_view()),
{
    let id = take_chars_exec(&remove_control_exec(&to_chars(m.id.as_str())), MAX_TEXT_CHARS);
    if id.len() > 0 && id[id.len() - 1] == ':' {
        return true;
    }
    let ghost mv = m.deep_view();
    for k in 0..m.teams.len()
        invariant
            mv == m.deep_view(),
            forall|i: int|
                0 <= i < k ==> #[trigger] take_chars(
                    remove_control(mv.teams[i].name),
                    MAX_TEXT_CHARS as nat,
                ).len() != 0,
    {
        let n = take_chars_exec(
            &remove_control_exec(&to_chars(m.teams[k].name.as_str())),
            MAX_TEXT_CHARS,
        );
        if n.len() == 0 {
            assert(take_chars(remove_control(mv.teams[k as int].name), MAX_TEXT_CHARS as nat).len()
                == 0);
            return true;
        }
    }
    false
}

/// The normalised matches of an ESPN scoreboard document for `sport` (see
/// `spec_normalize`).
pub fn normalize(sport: &str, v: &Json) -> (r: Result<Vec<Match>, &'static str>)
    ensures
        match r {
            Ok(ms) => spec_normalize(sport@, Some(*v)) == Ok::<Seq<MatchView>, &'static str>(
                ms.deep_view(),
            ),
            Err(x) => spec_normalize(sport@, Some(*v)) == Err::<Seq<MatchView>, &'static str>(x),
        },
{
    if !(str_eq(sport, "nfl") || str_eq(sport, "football") || str_eq(sport, "rugby")) {
        return Err("Unsupported sport");
    }
    let events = match array(get(get(get(Some(v), "content"), "sbData"), "events")) {
        Ok(a) => a,
        Err(x) => {
            return Err(x);
        },
    };
    let ghost evs_spec = as_array(member(member(member(Some(*v), "content"@), "sbData"@), "events"@));
    assert(evs_spec == Some(events@));
    let mut out: Vec<Match> = Vec::new();
    assert(out.deep_view() =~= Seq::<MatchView>::empty());
    for i in 0..events.len()
        invariant
            is_espn_sport(sport@),
            evs_spec == as_array(member(member(member(Some(*v), "content"@), "sbData"@), "events"@)),
            evs_spec == Some(events@),
            events_fold(sport@, events@, i as nat) == Ok::<Seq<MatchView>, &'static str>(
                out.deep_view(),
            ),
    {
        let e = &events[i];
        let comps = match array(get(Some(e), "competitions")) {
            Ok(c) => c,
            Err(x) => {
                proof {
                    lemma_events_err(sport@, events@, (i + 1) as nat, events@.len());
                }
                return Err(x);
            },
        };
        match comps_exec(sport, e, comps) {
            Ok(more) => {
                let ghost before = out.deep_view();
                let ghost mv = more.deep_view();
                let mut more = more;
                out.append(&mut more);
                assert(out.deep_view() =~= before + mv);
            },
            Err(x) => {
                proof {
                    lemma_events_err(sport@, events@, (i + 1) as nat, events@.len());
                }
                return Err(x);
            },
        }
    }
    if out.len() > MAX_MATCHES {
        return Err("Too many matches in response");
    }
    let ghost ov = out.deep_view();
    for i in 0..out.len()
        invariant
            ov == out.deep_view(),
            ov.len() <= MAX_MATCHES,
            is_espn_sport(sport@),
            evs_spec == as_array(member(member(member(Some(*v), "content"@), "sbData"@), "events"@)),
            evs_spec == Some(events@),
            events_fold(sport@, events@, events@.len()) == Ok::<Seq<MatchView>, &'static str>(ov),
            forall|j: int| 0 <= j < i ==> !missing_identity(#[trigger] ov[j]),
    {
        if missing_identity_exec(&out[i]) {
            assert(missing_identity(ov[i as int]));
            return Err("Provider omitted match or team identity");
        }
    }
    Ok(out)
}

} // verus!
