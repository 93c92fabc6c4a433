//! The URLs of the server's API, as the browser side asks for them.
use vstd::prelude::*;
use crate::text::{decimal, push_decimal, push_str_chars, string_from};
use crate::urlenc::{percent_encoded, url_encode};

verus! {

/// `s` percent-encoded for use in a query.
pub open spec fn enc(s: Seq<char>) -> Seq<char> {
    percent_encoded(vstd::utf8::encode_utf8(s))
}

fn prefixed_encoded(prefix: &str, value: &str) -> (r: String)
    ensures
        r@ == prefix@ + enc(value@),
{
    let mut v: Vec<char> = Vec::new();
    push_str_chars(&mut v, prefix);
    let e = url_encode(value);
    push_str_chars(&mut v, e.as_str());
    string_from(&v)
}

/// The URL that scans `dir`.
pub fn scan_dir_url(dir: &str) -> (r: String)
    ensures
        r@ == "/api/scan?dir="@ + enc(dir@),
{
    prefixed_encoded("/api/scan?dir=", dir)
}

/// The URL that searches TVmaze for `query`.
pub fn search_tvmaze_url(query: &str) -> (r: String)
    ensures
        r@ == "/api/tvmaze/search?q="@ + enc(query@),
{
    prefixed_encoded("/api/tvmaze/search?q=", query)
}

/// The URL of the episodes of show `show_id`, of one season when `season` is given.
pub fn fetch_episodes_url(show_id: u64, season: Option<u64>) -> (r: String)
    ensures
        r@ == "/api/tvmaze/episodes?id="@ + decimal(show_id as nat) + match season {
            Some(s) => "&season="@ + decimal(s as nat),
            None => Seq::empty(),
        },
{
    let mut v: Vec<char> = Vec::new();
    push_str_chars(&mut v, "/api/tvmaze/episodes?id=");
    push_decimal(&mut v, show_id);
    let ghost base = v@;
    match season {
        Some(s) => {
            push_str_chars(&mut v, "&season=");
            push_decimal(&mut v, s);
            assert(v@ =~= base + ("&season="@ + decimal(s as nat)));
        },
        None => {
            assert(v@ =~= base + Seq::<char>::empty());
        },
    }
    string_from(&v)
}

/// The URL that searches DVDCompare for `query`.
pub fn search_dvdcompare_url(query: &str) -> (r: String)
    ensures
        r@ == "/api/dvdcompare/search?q="@ + enc(query@),
{
    prefixed_encoded("/api/dvdcompare/search?q=", query)
}

/// The URL of the features of disc `compid`.
pub fn fetch_dvd_disc_url(compid: &str) -> (r: String)
    ensures
        r@ == "/api/dvdcompare/disc?compid="@ + enc(compid@),
{
    prefixed_encoded("/api/dvdcompare/disc?compid=", compid)
}

/// The URL that streams a preview of `path` from `start` for `duration` seconds, the two
/// numbers given as they are to be written.
pub fn preview_url(path: &str, start: &str, duration: &str) -> (r: String)
    ensures
        r@ == "/api/preview?path="@ + enc(path@) + "&start="@ + start@ + "&duration="@ + duration@,
{
    let mut v: Vec<char> = Vec::new();
    push_str_chars(&mut v, "/api/preview?path=");
    let e = url_encode(path);
    push_str_chars(&mut v, e.as_str());
    push_str_chars(&mut v, "&start=");
    push_str_chars(&mut v, start);
    push_str_chars(&mut v, "&duration=");
    push_str_chars(&mut v, duration);
    string_from(&v)
}

/// The URL that stops the preview of `path`.
pub fn stop_preview_url(path: &str) -> (r: String)
    ensures
        r@ == "/api/preview/stop?path="@ + enc(path@),
{
    prefixed_encoded("/api/preview/stop?path=", path)
}

} // verus!
