//! URLs of the ESPNcricinfo feed: the redirect allow-list and the match
//! identity carried in an item's link.

use vstd::prelude::*;
use crate::chars::{
    all_digits, all_digits_exec, chars_eq, from_chars, split_char, split_char_exec, to_chars,
    trim_end_seq, trim_end_seq_exec, utf8_len_exceeds, lemma_words_view, subrange,
};

verus! {

/// The parts of a parsed URL that the feed logic reads, as `reqwest::Url`
/// reports them: scheme, host, path, user name, password, explicit
/// (non-default) port and query.
#[derive(Debug)]
pub struct UrlParts {
    pub scheme: String,
    pub host: Option<String>,
    pub path: String,
    pub username: String,
    pub password: Option<String>,
    pub port: Option<u16>,
    pub query: Option<String>,
}

/// The view of `UrlParts`: the same parts as character sequences, in the
/// order of the struct's fields.
pub type UrlPartsView = (
    Seq<char>,
    Option<Seq<char>>,
    Seq<char>,
    Seq<char>,
    Option<Seq<char>>,
    Option<u16>,
    Option<Seq<char>>,
);

impl DeepView for UrlParts {
    type V = UrlPartsView;

    open spec fn deep_view(&self) -> UrlPartsView {
        (
            self.scheme@,
            self.host.deep_view(),
            self.path@,
            self.username@,
            self.password.deep_view(),
            self.port,
            self.query.deep_view(),
        )
    }
}

/// What `reqwest::Url::parse` makes of a string, as the parts listed in
/// `UrlParts`, or `None` where it refuses the string. The WHATWG URL
/// algorithm behind it (host normalisation, percent-encoding, default
/// ports) is not restated here.
pub uninterp spec fn url_parse(s: Seq<char>) -> Option<UrlPartsView>;

/// `reqwest::Url::parse` (the `url` crate's `Url::parse`), with the parsed
/// URL's `scheme`, `host_str`, `path`, `username`, `password`, `port` and
/// `query` copied out. The contract only ties the result to the named parse
/// of the argument.
#[verifier::external_body]
pub(crate) fn parse_url(s: &str) -> (r: Option<UrlParts>)
    ensures
        r.deep_view() == url_parse(s@),
{
    reqwest::Url::parse(s).ok().map(|u| UrlParts {
        scheme: u.scheme().to_string(),
        host: u.host_str().map(str::to_string),
        path: u.path().to_string(),
        username: u.username().to_string(),
        password: u.password().map(str::to_string),
        port: u.port(),
        query: u.query().map(str::to_string),
    })
}

/// The hosts that serve the live-scores feed.
pub open spec fn is_feed_host(h: Seq<char>) -> bool {
    ||| h == "www.espncricinfo.com"@
    ||| h == "www.cricinfo.com"@
    ||| h == "static.espncricinfo.com"@
    ||| h == "static.cricinfo.com"@
}

/// String equality.
pub fn str_eq(a: &str, b: &str) -> (r: bool)
    ensures
        r == (a@ == b@),
{
    chars_eq(&to_chars(a), &to_chars(b))
}

pub fn feed_host(h: &str) -> (r: bool)
    ensures
        r == is_feed_host(h@),
{
    str_eq(h, "www.espncricinfo.com") || str_eq(h, "www.cricinfo.com") || str_eq(
        h,
        "static.espncricinfo.com",
    ) || str_eq(h, "static.cricinfo.com")
}

/// A URL that a feed redirect may lead to: the HTTPS live-scores path on an
/// allow-listed host, with no credentials, explicit port or query.
pub open spec fn spec_allowed_url(u: UrlPartsView) -> bool {
    &&& u.0 == "https"@
    &&& u.1 matches Some(h) && is_feed_host(h)
    &&& u.2 == "/rss/livescores.xml"@
    &&& u.3.len() == 0
    &&& u.4 is None
    &&& u.5 is None
    &&& u.6 is None
}

/// Whether a feed request may follow a redirect to `url`.
pub fn allowed_url(url: &UrlParts) -> (r: bool)
    ensures
        r == spec_allowed_url(url.deep_view()),
{
    let host_ok = match &url.host {
        Some(h) => feed_host(h.as_str()),
        None => false,
    };
    str_eq(url.scheme.as_str(), "https") && host_ok && str_eq(
        url.path.as_str(),
        "/rss/livescores.xml",
    ) && url.username.as_str().is_empty() && url.password.is_none() && url.port.is_none()
        && url.query.is_none()
}

/// The redirects a feed request makes before following a further one are
/// fewer than three, and every URL of the chain, the next included, is an
/// allowed feed URL.
pub open spec fn spec_follow_redirect(previous: Seq<UrlPartsView>, next: UrlPartsView) -> bool {
    &&& previous.len() < 3
    &&& spec_allowed_url(next)
    &&& forall|i: int| 0 <= i < previous.len() ==> spec_allowed_url(#[trigger] previous[i])
}

/// Whether a feed request that has visited `previous` (the first request
/// included) may follow a redirect to `next`.
pub fn follow_redirect(previous: &Vec<UrlParts>, next: &UrlParts) -> (r: bool)
    ensures
        r == spec_follow_redirect(previous.deep_view(), next.deep_view()),
{
    if !(previous.len() < 3 && allowed_url(next)) {
        return false;
    }
    let ghost dv = previous.deep_view();
    for i in 0..previous.len()
        invariant
            dv == previous.deep_view(),
            forall|j: int| 0 <= j < i ==> spec_allowed_url(#[trigger] dv[j]),
    {
        if !allowed_url(&previous[i]) {
            assert(dv[i as int] == previous@[i as int].deep_view());
            return false;
        }
    }
    true
}

/// The match number carried by one path segment: the part after the last
/// `-` once trailing `.html` suffixes are removed, when it is 1 to 16 ASCII
/// digits.
pub open spec fn segment_id(s: Seq<char>) -> Option<Seq<char>> {
    let n = split_char(trim_end_seq(s, ".html"@), '-').last();
    if n.len() > 0 && vstd::utf8::encode_utf8(n).len() <= 16 && all_digits(n) {
        Some(n)
    } else {
        None
    }
}

/// The match number of the last segment, among `segs`, that carries one.
pub open spec fn last_segment_id(segs: Seq<Seq<char>>) -> Option<Seq<char>>
    decreases segs.len(),
{
    if segs.len() == 0 {
        None
    } else {
        match segment_id(segs.last()) {
            Some(n) => Some(n),
            None => last_segment_id(segs.drop_last()),
        }
    }
}

/// The match identity of an item link: an HTTP(S) URL on a feed host whose
/// path segments (the path after its leading `/`, split at `/`) carry a
/// match number; the last such segment wins.
pub open spec fn spec_match_id(u: UrlPartsView) -> Option<Seq<char>> {
    if !(u.0 == "http"@ || u.0 == "https"@) {
        None
    } else if !(u.1 matches Some(h) && is_feed_host(h)) {
        None
    } else if !(u.2.len() > 0 && u.2[0] == '/') {
        None
    } else {
        last_segment_id(split_char(u.2.drop_first(), '/'))
    }
}

fn segment_id_exec(s: &Vec<char>) -> (r: Option<Vec<char>>)
    ensures
        r.deep_view() == segment_id(s@),
{
    let html = to_chars(".html");
    proof {
        reveal_strlit(".html");
    }
    let t = trim_end_seq_exec(s, &html);
    let pieces = split_char_exec(&t, '-');
    let k = pieces.len() - 1;
    proof {
        lemma_words_view(&pieces, k as int);
    }
    let n = &pieces[k];
    if n.len() > 0 && !utf8_len_exceeds(n, 16) && all_digits_exec(n) {
        assert(n.deep_view() =~= n@);
        Some(n.clone())
    } else {
        None
    }
}

/// The match identity carried by a parsed link (see `spec_match_id`).
pub fn match_id_from_url(u: &UrlParts) -> (r: Option<String>)
    ensures
        r.deep_view() == spec_match_id(u.deep_view()),
{
    if !(str_eq(u.scheme.as_str(), "http") || str_eq(u.scheme.as_str(), "https")) {
        return None;
    }
    match &u.host {
        Some(h) => {
            if !feed_host(h.as_str()) {
                return None;
            }
        },
        None => {
            return None;
        },
    }
    let path = to_chars(u.path.as_str());
    if !(path.len() > 0 && path[0] == '/') {
        return None;
    }
    let rest = subrange(&path, 1, path.len());
    assert(rest@ =~= path@.drop_first());
    let segs = split_char_exec(&rest, '/');
    let ghost dv = segs.deep_view();
    let mut k = segs.len();
    assert(dv.subrange(0, k as int) =~= dv);
    assert(spec_match_id(u.deep_view()) == last_segment_id(dv));
    while k > 0
        invariant
            spec_match_id(u.deep_view()) == last_segment_id(dv),
            k <= segs.len(),
            dv == segs.deep_view(),
            dv.len() == segs.len(),
            last_segment_id(dv) == last_segment_id(dv.subrange(0, k as int)),
        decreases k,
    {
        proof {
            lemma_words_view(&segs, k - 1);
            assert(dv.subrange(0, k as int).drop_last() =~= dv.subrange(0, k - 1));
            assert(dv.subrange(0, k as int).last() == dv[k - 1]);
        }
        match segment_id_exec(&segs[k - 1]) {
            Some(n) => {
                return Some(from_chars(&n));
            },
            None => {},
        }
        k = k - 1;
    }
    None
}

/// The match identity of an item link, from its parse by `reqwest::Url`
/// (`None` where the link does not parse).
pub fn match_id(link: &str) -> (r: Option<String>)
    ensures
        r.deep_view() == match url_parse(link@) {
            Some(u) => spec_match_id(u),
            None => None,
        },
{
    match parse_url(link) {
        Some(u) => match_id_from_url(&u),
        None => None,
    }
}

} // verus!
