# sportsbar

The feed logic of the SportsBar desktop widget, verified with Verus.
`sportsbar-feed` (in `app/`) fetches one sport's scoreboard and prints a
normalised JSON snapshot; every decision it makes is taken by the library in
`src/`, whose functions carry `requires`/`ensures` contracts that Verus proves.

Layout of `src/`:

- `chars.rs`: character-sequence primitives (`trim`, `split_whitespace`,
  `split`, `join`, `trim_end_matches`, unsigned decimal parsing, UTF-8 length)
  specified over `Seq<char>`.
- `model.rs`: the normalised snapshot (`Match`, `Team`, `Innings`) and its view.
- `score.rs`: one side of an ESPNcricinfo RSS title (`England 200 & 20/1 *`).
- `url.rs`: the redirect allow-list and the match identity of an item link.
- `xml.rs`: read access to documents parsed by `roxmltree`.
- `cricinfo.rs`: the live-scores RSS adapter and its polling interval.
- `json.rs`, `espn.rs`: the ESPN scoreboard model and its normalisation.
- `feed.rs`: feed URLs, HTTP status and `Retry-After` handling, response bodies.
- `laws.rs`: properties of the library as a whole.

Where the logic relies on `roxmltree`, `reqwest::Url`, `chrono` or the
standard library's Unicode tables, the call sits behind a small trusted
function whose contract names or states its result; everything around it is
verified.
