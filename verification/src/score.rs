//! The score half of an ESPNcricinfo RSS title: one side of `A v B`, such as
//! `England 200 & 20/1 *` or `Australia 350/8d (120.3 ov)`.
//!
//! A side is a team name followed by at most two innings separated by `&`.
//! An innings is `runs[/wickets][d]`, optionally followed by `(overs ...)`;
//! a `*` anywhere in it marks the batting innings. Anything else is refused,
//! so that an unfamiliar title never yields invented scores.

use vstd::prelude::*;
use crate::chars::{
    all_digits, all_digits_exec, contains_char, from_chars, is_ascii_digit, join, join_range,
    lemma_words_view, parse_unsigned, parse_unsigned_exec, remove_char, remove_char_exec,
    split_char, split_char_exec, split_ws, split_ws_exec, str_to_lowercase, subrange, to_chars,
    to_lowercase, trim_end_char, trim_end_char_exec, trim_exec, trim_ws, utf8_len_exceeds,
    char_is_ascii_digit, concat,
};
use crate::model::{Innings, InningsView, Team, TeamView};

verus! {

/// The longest team name accepted, in UTF-8 bytes.
pub const MAX_TEAM_NAME_BYTES: usize = 120;

/// The highest run total accepted for one innings.
pub const MAX_RUNS: u64 = 10000;

/// The highest wicket count accepted for one innings.
pub const MAX_WICKETS: u64 = 10;

/// A word starts the score when its part before any `/` (trailing `*`
/// removed) is a non-empty run of ASCII digits.
pub open spec fn is_score_start(w: Seq<char>) -> bool {
    let first = split_char(trim_end_char(w, '*'), '/')[0];
    first.len() > 0 && all_digits(first)
}

/// The index of the first word, at or after `i`, that starts the score, or
/// the number of words when none does.
pub open spec fn score_start_from(words: Seq<Seq<char>>, i: int) -> int
    decreases words.len() - i,
{
    if i >= words.len() {
        words.len() as int
    } else if is_score_start(words[i]) {
        i
    } else {
        score_start_from(words, i + 1)
    }
}

/// A character of an overs figure: an ASCII digit or `.`.
pub open spec fn is_overs_char(c: char) -> bool {
    is_ascii_digit(c) || c == '.'
}

pub open spec fn all_overs_chars(s: Seq<char>) -> bool {
    forall|i: int| 0 <= i < s.len() ==> is_overs_char(#[trigger] s[i])
}

/// The overs figure of an innings, read from what follows its runs: nothing,
/// or `(` directly followed by the figure, which ends at white space and
/// loses trailing `)`.
pub open spec fn spec_overs(rest: Seq<char>) -> Result<Seq<char>, &'static str> {
    if rest.len() == 0 {
        Ok(seq![])
    } else if rest[0] != '(' {
        Err("Unsupported cricket score suffix")
    } else {
        let toks = split_ws(rest.drop_first());
        let token = trim_end_char(
            if toks.len() > 0 {
                toks[0]
            } else {
                seq![]
            },
            ')',
        );
        if token.len() == 0 || !all_overs_chars(token) {
            Err("Unsupported cricket overs")
        } else {
            Ok(token)
        }
    }
}

/// The identity of innings `slot` (0 or 1) of the team `name`.
pub open spec fn innings_id(name: Seq<char>, slot: int) -> Seq<char> {
    name + if slot == 0 {
        " Inning 1"@
    } else {
        " Inning 2"@
    }
}

/// One innings, read from its part of the score, with whether it carries the
/// batting marker `*`.
pub open spec fn spec_innings(value: Seq<char>, slot: int, name: Seq<char>) -> Result<
    (InningsView, bool),
    &'static str,
> {
    let v = trim_ws(value);
    let active = v.contains('*');
    let words = split_ws(remove_char(v, '*'));
    if words.len() == 0 {
        Err("Missing cricket score")
    } else {
        let count0 = words[0];
        let declared = count0.len() > 0 && count0.last() == 'd';
        let fields = split_char(trim_end_char(count0, 'd'), '/');
        if fields.len() > 2 {
            Err("Unsupported cricket score")
        } else {
            match parse_unsigned(fields[0], u32::MAX as u64) {
                None => Err("Unsupported cricket runs"),
                Some(runs) => if runs > MAX_RUNS {
                    Err("Invalid cricket runs")
                } else {
                    let wickets: Result<Option<u64>, &'static str> = if fields.len() == 2 {
                        match parse_unsigned(fields[1], u8::MAX as u64) {
                            None => Err("Unsupported cricket wickets"),
                            Some(w) => Ok(Some(w)),
                        }
                    } else {
                        Ok(None)
                    };
                    match wickets {
                        Err(e) => Err(e),
                        Ok(wickets) => if wickets matches Some(w) && w > MAX_WICKETS {
                            Err("Invalid cricket wickets")
                        } else {
                            match spec_overs(join(words.subrange(1, words.len() as int), seq![' '])) {
                                Err(e) => Err(e),
                                Ok(overs) => Ok(
                                    (
                                        InningsView {
                                            id: innings_id(name, slot),
                                            runs: runs as u32,
                                            wickets: match wickets {
                                                Some(w) => Some(w as u8),
                                                None => None,
                                            },
                                            overs,
                                            declared,
                                        },
                                        active,
                                    ),
                                ),
                            }
                        },
                    }
                },
            }
        }
    }
}

/// The innings read from the first `n` `&`-separated parts of a score, with
/// the identity of the batting innings; at most two parts, and at most one
/// batting marker, are accepted.
pub open spec fn innings_fold(values: Seq<Seq<char>>, name: Seq<char>, n: nat) -> Result<
    (Seq<InningsView>, Option<Seq<char>>),
    &'static str,
>
    decreases n,
{
    if n == 0 {
        Ok((seq![], None))
    } else {
        match innings_fold(values, name, (n - 1) as nat) {
            Err(e) => Err(e),
            Ok((inns, active)) => {
                let slot = n - 1;
                if slot > 1 {
                    Err("Unsupported cricket innings format")
                } else {
                    match spec_innings(values[slot], slot, name) {
                        Err(e) => Err(e),
                        Ok((inn, is_active)) => if is_active {
                            if active is Some {
                                Err("Ambiguous batting innings")
                            } else {
                                Ok((inns.push(inn), Some(inn.id)))
                            }
                        } else {
                            Ok((inns.push(inn), active))
                        },
                    }
                }
            },
        }
    }
}

/// The team name of a side: the words before the score, joined by single
/// spaces, without trailing `*` and surrounding white space.
pub open spec fn side_name(raw: Seq<char>) -> Seq<char> {
    let parts = split_ws(raw);
    let k = score_start_from(parts, 0);
    trim_ws(trim_end_char(join(parts.subrange(0, k), seq![' ']), '*'))
}

/// The score of a side: the words from the first score word on, joined by
/// single spaces.
pub open spec fn side_score(raw: Seq<char>) -> Seq<char> {
    let parts = split_ws(raw);
    let k = score_start_from(parts, 0);
    join(parts.subrange(k, parts.len() as int), seq![' '])
}

/// One side of a title: its team (identified by the lowercased name, with no
/// score number), its innings, and the identity of its batting innings.
pub open spec fn spec_side(raw: Seq<char>) -> Result<
    (TeamView, Seq<InningsView>, Option<Seq<char>>),
    &'static str,
> {
    let name = side_name(raw);
    if name.len() == 0 || vstd::utf8::encode_utf8(name).len() > MAX_TEAM_NAME_BYTES {
        Err("Unsupported cricket team name")
    } else {
        let team = TeamView { id: str_to_lowercase(name), name, score: None };
        let score = side_score(raw);
        if score.len() == 0 {
            Ok((team, seq![], None))
        } else {
            let values = split_char(score, '&');
            match innings_fold(values, name, values.len()) {
                Err(e) => Err(e),
                Ok((inns, active)) => Ok((team, inns, active)),
            }
        }
    }
}

fn is_score_start_exec(w: &Vec<char>) -> (r: bool)
    ensures
        r == is_score_start(w@),
{
    let t = trim_end_char_exec(w, '*');
    let pieces = split_char_exec(&t, '/');
    assert(split_char(t@, '/').len() > 0);
    proof {
        lemma_words_view(&pieces, 0);
    }
    let first = &pieces[0];
    first.len() > 0 && all_digits_exec(first)
}

fn score_start_exec(words: &Vec<Vec<char>>) -> (r: usize)
    ensures
        r == score_start_from(words.deep_view(), 0),
        r <= words.len(),
{
    let ghost dv = words.deep_view();
    let mut i: usize = 0;
    while i < words.len()
        invariant
            i <= words.len(),
            dv == words.deep_view(),
            dv.len() == words.len(),
            score_start_from(dv, 0) == score_start_from(dv, i as int),
        decreases words.len() - i,
    {
        proof {
            lemma_words_view(words, i as int);
        }
        if is_score_start_exec(&words[i]) {
            return i;
        }
        i = i + 1;
    }
    i
}

fn all_overs_chars_exec(s: &Vec<char>) -> (r: bool)
    ensures
        r == all_overs_chars(s@),
{
    for i in 0..s.len()
        invariant
            forall|j: int| 0 <= j < i ==> is_overs_char(#[trigger] s@[j]),
    {
        if !(char_is_ascii_digit(s[i]) || s[i] == '.') {
            return false;
        }
    }
    true
}

fn overs_exec(rest: &Vec<char>) -> (r: Result<Vec<char>, &'static str>)
    ensures
        match r {
            Ok(o) => spec_overs(rest@) == Ok::<Seq<char>, &'static str>(o@),
            Err(e) => spec_overs(rest@) == Err::<Seq<char>, &'static str>(e),
        },
{
    if rest.len() == 0 {
        return Ok(Vec::new());
    }
    if rest[0] != '(' {
        return Err("Unsupported cricket score suffix");
    }
    let inner = subrange(rest, 1, rest.len());
    assert(inner@ =~= rest@.drop_first());
    let toks = split_ws_exec(&inner);
    let first: Vec<char> = if toks.len() > 0 {
        proof {
            lemma_words_view(&toks, 0);
        }
        toks[0].clone()
    } else {
        Vec::new()
    };
    let token = trim_end_char_exec(&first, ')');
    if token.len() == 0 || !all_overs_chars_exec(&token) {
        return Err("Unsupported cricket overs");
    }
    Ok(token)
}

fn innings_exec(value: &Vec<char>, slot: usize, name: &Vec<char>) -> (r: Result<
    (Innings, bool),
    &'static str,
>)
    requires
        slot <= 1,
    ensures
        match r {
            Ok((inn, a)) => spec_innings(value@, slot as int, name@) == Ok::<
                (InningsView, bool),
                &'static str,
            >((inn.deep_view(), a)),
            Err(e) => spec_innings(value@, slot as int, name@) == Err::<
                (InningsView, bool),
                &'static str,
            >(e),
        },
{
    let v = trim_exec(value);
    let is_active = contains_char(&v, '*');
    let clean = remove_char_exec(&v, '*');
    let words = split_ws_exec(&clean);
    if words.len() == 0 {
        return Err("Missing cricket score");
    }
    proof {
        lemma_words_view(&words, 0);
    }
    let count0 = &words[0];
    let declared = count0.len() > 0 && count0[count0.len() - 1] == 'd';
    let count = trim_end_char_exec(count0, 'd');
    let fields = split_char_exec(&count, '/');
    if fields.len() > 2 {
        return Err("Unsupported cricket score");
    }
    proof {
        lemma_words_view(&fields, 0);
    }
    let runs: u32 = match parse_unsigned_exec(&fields[0], u32::MAX as u64) {
        Some(n) => n as u32,
        None => {
            return Err("Unsupported cricket runs");
        },
    };
    if runs as u64 > MAX_RUNS {
        return Err("Invalid cricket runs");
    }
    let wickets: Option<u8> = if fields.len() == 2 {
        proof {
            lemma_words_view(&fields, 1);
        }
        match parse_unsigned_exec(&fields[1], u8::MAX as u64) {
            Some(w) => Some(w as u8),
            None => {
                return Err("Unsupported cricket wickets");
            },
        }
    } else {
        None
    };
    if let Some(w) = wickets {
        if w as u64 > MAX_WICKETS {
            return Err("Invalid cricket wickets");
        }
    }
    let rest = join_range(&words, 1, words.len(), ' ');
    let overs = match overs_exec(&rest) {
        Ok(o) => o,
        Err(e) => {
            return Err(e);
        },
    };
    let suffix = if slot == 0 {
        to_chars(" Inning 1")
    } else {
        to_chars(" Inning 2")
    };
    let id = concat(name, &suffix);
    Ok(
        (
            Innings {
                id: from_chars(&id),
                runs,
                wickets,
                overs: from_chars(&overs),
                declared,
            },
            is_active,
        ),
    )
}

proof fn lemma_fold_err(values: Seq<Seq<char>>, name: Seq<char>, n: nat, m: nat)
    requires
        n <= m,
        innings_fold(values, name, n) is Err,
    ensures
        innings_fold(values, name, m) == innings_fold(values, name, n),
    decreases m - n,
{
    if n < m {
        lemma_fold_err(values, name, n, (m - 1) as nat);
    }
}

/// Reads one side of a title (the text on one side of ` v `).
pub fn side(raw: &Vec<char>) -> (r: Result<(Team, Vec<Innings>, Option<String>), &'static str>)
    ensures
        match r {
            Ok((team, inns, active)) => spec_side(raw@) == Ok::<
                (TeamView, Seq<InningsView>, Option<Seq<char>>),
                &'static str,
            >((team.deep_view(), inns.deep_view(), active.deep_view())),
            Err(e) => spec_side(raw@) == Err::<
                (TeamView, Seq<InningsView>, Option<Seq<char>>),
                &'static str,
            >(e),
        },
{
    let parts = split_ws_exec(raw);
    let index = score_start_exec(&parts);
    let joined = join_range(&parts, 0, index, ' ');
    let starless = trim_end_char_exec(&joined, '*');
    let name = trim_exec(&starless);
    if name.len() == 0 || utf8_len_exceeds(&name, MAX_TEAM_NAME_BYTES) {
        return Err("Unsupported cricket team name");
    }
    let score = join_range(&parts, index, parts.len(), ' ');
    let mut innings: Vec<Innings> = Vec::new();
    let mut active: Option<Vec<char>> = None;
    if score.len() > 0 {
        let values = split_char_exec(&score, '&');
        let ghost dv = values.deep_view();
        assert(innings.deep_view() =~= Seq::<InningsView>::empty());
        for slot in 0..values.len()
            invariant
                dv == values.deep_view(),
                dv.len() == values.len(),
                dv == split_char(score@, '&'),
                name@ == side_name(raw@),
                score@ == side_score(raw@),
                score@.len() > 0,
                !(name@.len() == 0 || vstd::utf8::encode_utf8(name@).len() > MAX_TEAM_NAME_BYTES),
                innings_fold(dv, name@, slot as nat) == Ok::<
                    (Seq<InningsView>, Option<Seq<char>>),
                    &'static str,
                >((innings.deep_view(), active.deep_view())),
        {
            if slot > 1 {
                proof {
                    lemma_fold_err(dv, name@, (slot + 1) as nat, dv.len());
                }
                return Err("Unsupported cricket innings format");
            }
            proof {
                lemma_words_view(&values, slot as int);
            }
            match innings_exec(&values[slot], slot, &name) {
                Err(e) => {
                    proof {
                        lemma_fold_err(dv, name@, (slot + 1) as nat, dv.len());
                    }
                    return Err(e);
                },
                Ok((inn, is_active)) => {
                    if is_active {
                        if active.is_some() {
                            proof {
                                lemma_fold_err(dv, name@, (slot + 1) as nat, dv.len());
                            }
                            return Err("Ambiguous batting innings");
                        }
                        let ghost before = innings.deep_view();
                        let id = to_chars(inn.id.as_str());
                        assert(id.deep_view() =~= id@);
                        active = Some(id);
                        innings.push(inn);
                        assert(innings.deep_view() =~= before.push(inn.deep_view()));
                    } else {
                        let ghost before = innings.deep_view();
                        innings.push(inn);
                        assert(innings.deep_view() =~= before.push(inn.deep_view()));
                    }
                },
            }
        }
    }
    if score.len() == 0 {
        assert(innings.deep_view() =~= Seq::<InningsView>::empty());
    }
    let name_s = from_chars(&name);
    let id = to_lowercase(name_s.as_str());
    let active_s: Option<String> = match active {
        Some(a) => {
            assert(a.deep_view() =~= a@);
            Some(from_chars(&a))
        },
        None => None,
    };
    Ok((Team { id, name: name_s, score: None }, innings, active_s))
}

} // verus!
