//! TVmaze lookups: the request URLs and what is kept of the answers.
use vstd::prelude::*;
use crate::text::{
    chars_of, chars_or_empty, decimal, decimal2, first_n, push_all, push_decimal, push_decimal2,
    push_str_chars, str_or_empty, string_from, take_chars, truncate_chars,
};
use crate::urlenc::{percent_encoded, url_encode};

verus! {

/// Query of a show search.
pub struct SearchParams {
    pub q: String,
}

/// Query of an episode list: the show and, optionally, one season.
pub struct EpisodesParams {
    pub id: u64,
    pub season: Option<u64>,
}

/// A show as offered to the user.
#[derive(Debug)]
pub struct ShowResult {
    pub id: u64,
    pub name: String,
    pub year: String,
    pub summary: String,
    pub source: String,
}

/// An episode as offered to the user.
#[derive(Debug)]
pub struct EpisodeResult {
    pub season: u64,
    pub episode: u64,
    pub title: String,
    pub runtime: Option<u64>,
    pub airdate: String,
    pub label: String,
    pub filename_stem: String,
}

/// The fields of a show object of a search answer. The outer `Option` is `None` when the key
/// is missing from the object; the inner one is `None` when the value is not of the kind read
/// (an unsigned integer for `id`, a string for the others).
pub struct ShowObject {
    pub id: Option<Option<u64>>,
    pub name: Option<Option<String>>,
    pub premiered: Option<Option<String>>,
    pub summary: Option<Option<String>>,
}

/// One entry of a search answer: its `show` member when that is an object.
pub struct SearchHit {
    pub show: Option<ShowObject>,
}

/// One entry of an episode list; each field is `None` when missing or not of the kind read.
pub struct EpisodeObject {
    pub season: Option<u64>,
    pub number: Option<u64>,
    pub name: Option<String>,
    pub runtime: Option<u64>,
    pub airdate: Option<String>,
}

/// The search URL for `query`.
pub open spec fn search_url(query: Seq<char>) -> Seq<char> {
    "https://api.tvmaze.com/search/shows?q="@ + percent_encoded(vstd::utf8::encode_utf8(query))
}

/// The URL of the episode list of show `show_id`.
pub open spec fn episodes_url(show_id: u64) -> Seq<char> {
    "https://api.tvmaze.com/shows/"@ + decimal(show_id as nat) + "/episodes"@
}

/// Builds the search URL for `query`.
pub fn tvmaze_search_url(query: &str) -> (r: String)
    ensures
        r@ == search_url(query@),
{
    let mut v: Vec<char> = Vec::new();
    push_str_chars(&mut v, "https://api.tvmaze.com/search/shows?q=");
    let e = url_encode(query);
    push_str_chars(&mut v, e.as_str());
    string_from(&v)
}

/// Builds the URL of the episode list of show `show_id`.
pub fn tvmaze_episodes_url(show_id: u64) -> (r: String)
    ensures
        r@ == episodes_url(show_id),
{
    let mut v: Vec<char> = Vec::new();
    push_str_chars(&mut v, "https://api.tvmaze.com/shows/");
    push_decimal(&mut v, show_id);
    push_str_chars(&mut v, "/episodes");
    string_from(&v)
}

/// Whether, at the end of `s`, an angle-bracket tag is open: the last `<` or `>` is `<`.
pub open spec fn inside_tag(s: Seq<char>) -> bool
    decreases s.len(),
{
    if s.len() == 0 {
        false
    } else if s.last() == '<' {
        true
    } else if s.last() == '>' {
        false
    } else {
        inside_tag(s.drop_last())
    }
}

/// `s` without its tags: a character is kept when it is neither `<` nor `>` and no tag is
/// open before it.
pub open spec fn stripped(s: Seq<char>) -> Seq<char>
    decreases s.len(),
{
    if s.len() == 0 {
        s
    } else {
        let p = s.drop_last();
        let c = s.last();
        if c == '<' || c == '>' || inside_tag(p) {
            stripped(p)
        } else {
            stripped(p).push(c)
        }
    }
}

fn strip_html_chars(s: &Vec<char>) -> (r: Vec<char>)
    ensures
        r@ == stripped(s@),
{
    let mut out: Vec<char> = Vec::new();
    let mut in_tag = false;
    let mut i: usize = 0;
    while i < s.len()
        invariant
            i <= s.len(),
            out@ == stripped(s@.take(i as int)),
            in_tag == inside_tag(s@.take(i as int)),
        decreases s.len() - i,
    {
        let c = s[i];
        assert(s@.take(i + 1).drop_last() =~= s@.take(i as int));
        if c == '<' {
            in_tag = true;
        } else if c == '>' {
            in_tag = false;
        } else if !in_tag {
            out.push(c);
        }
        i += 1;
    }
    assert(s@.take(s.len() as int) =~= s@);
    out
}

/// Removes angle-bracket tags from `s` (see `stripped`).
pub fn strip_html(s: &str) -> (r: String)
    ensures
        r@ == stripped(s@),
{
    let cs = chars_of(s);
    let out = strip_html_chars(&cs);
    string_from(&out)
}

proof fn lemma_stripped_has_no_angles(s: Seq<char>)
    ensures
        forall|i: int| 0 <= i < stripped(s).len() ==> (#[trigger] stripped(s)[i]) != '<' && stripped(s)[i] != '>',
    decreases s.len(),
{
    if s.len() > 0 {
        lemma_stripped_has_no_angles(s.drop_last());
        let r = stripped(s.drop_last());
        assert forall|i: int| 0 <= i < r.push(s.last()).len() && i < r.len() implies r.push(s.last())[i] == r[i] by {}
    }
}

proof fn lemma_stripped_identity(s: Seq<char>)
    requires
        forall|i: int| 0 <= i < s.len() ==> s[i] != '<' && s[i] != '>',
    ensures
        stripped(s) == s,
        !inside_tag(s),
    decreases s.len(),
{
    if s.len() > 0 {
        let p = s.drop_last();
        assert forall|i: int| 0 <= i < p.len() implies p[i] != '<' && p[i] != '>' by {
            assert(p[i] == s[i]);
        }
        lemma_stripped_identity(p);
        assert(s[s.len() - 1] == s.last());
        assert(p.push(s.last()) =~= s);
    }
}

/// Text without tags holds no `<` or `>`, so stripping it again changes nothing.
pub proof fn lemma_strip_html_idempotent(s: Seq<char>)
    ensures
        forall|i: int| 0 <= i < stripped(s).len() ==> (#[trigger] stripped(s)[i]) != '<' && stripped(s)[i] != '>',
        stripped(stripped(s)) == stripped(s),
{
    lemma_stripped_has_no_angles(s);
    lemma_stripped_identity(stripped(s));
}

/// The characters of a present string field, or none.
pub open spec fn field_str(f: Option<Option<String>>) -> Seq<char> {
    match f {
        Some(Some(s)) => s@,
        _ => Seq::empty(),
    }
}

/// How many search entries are looked at.
pub const SHOWS_TAKEN: usize = 5;

/// Reading this entry fails: its show object lacks `id`, or has an unsigned `id` but lacks
/// `name`, `premiered` or `summary`.
pub open spec fn hit_lookup_fails(h: SearchHit) -> bool {
    match h.show {
        Some(o) => o.id is None || (o.id matches Some(Some(_)) && (o.name is None || o.premiered is None
            || o.summary is None)),
        None => false,
    }
}

/// Reading the first five entries fails for one of them.
pub open spec fn search_lookup_fails(hits: Seq<SearchHit>) -> bool {
    exists|i: int| 0 <= i < first_n(hits, SHOWS_TAKEN as nat).len() && hit_lookup_fails(#[trigger] hits[i])
}

/// The show objects, in order, of the entries whose show has an unsigned id.
pub open spec fn kept_shows(hits: Seq<SearchHit>) -> Seq<ShowObject>
    decreases hits.len(),
{
    if hits.len() == 0 {
        Seq::empty()
    } else {
        let k = kept_shows(hits.drop_last());
        match hits.last().show {
            Some(o) => if o.id matches Some(Some(_)) { k.push(o) } else { k },
            None => k,
        }
    }
}

/// `r` is what is offered for the show object `o`: its id and name, the first four
/// characters of its premiere date, the first hundred of its summary without tags, and the
/// source `tvmaze`.
pub open spec fn show_offered(r: ShowResult, o: ShowObject) -> bool {
    &&& o.id == Some(Some(r.id))
    &&& r.name@ == field_str(o.name)
    &&& r.year@ == take_chars(field_str(o.premiered), 4)
    &&& r.summary@ == take_chars(stripped(field_str(o.summary)), 100)
    &&& r.source@ == "tvmaze"@
}

/// Whether reading the first five entries of a search answer fails (see `hit_lookup_fails`).
pub fn show_search_lookup_fails(hits: &Vec<SearchHit>) -> (b: bool)
    ensures
        b == search_lookup_fails(hits@),
{
    let n = if hits.len() < SHOWS_TAKEN { hits.len() } else { SHOWS_TAKEN };
    let mut i: usize = 0;
    while i < n
        invariant
            i <= n,
            n == first_n(hits@, SHOWS_TAKEN as nat).len(),
            n <= hits@.len(),
            forall|k: int| 0 <= k < i ==> !hit_lookup_fails(#[trigger] hits@[k]),
        decreases n - i,
    {
        let fails = match &hits[i].show {
            Some(o) => o.id.is_none() || (matches!(o.id, Some(Some(_))) && (o.name.is_none() || o.premiered.is_none()
                || o.summary.is_none())),
            None => false,
        };
        if fails {
            assert(hit_lookup_fails(hits@[i as int]));
            return true;
        }
        i += 1;
    }
    false
}

/// The shows offered for a search answer: of its first five entries, those whose show has an
/// unsigned id, each as `show_offered` describes.
pub fn shows_from_search(hits: &Vec<SearchHit>) -> (r: Vec<ShowResult>)
    requires
        !search_lookup_fails(hits@),
    ensures
        r@.len() == kept_shows(first_n(hits@, SHOWS_TAKEN as nat)).len(),
        forall|i: int| 0 <= i < r@.len() ==> show_offered(#[trigger] r@[i], kept_shows(first_n(hits@, SHOWS_TAKEN as nat))[i]),
{
    let n = if hits.len() < SHOWS_TAKEN { hits.len() } else { SHOWS_TAKEN };
    let ghost f = first_n(hits@, SHOWS_TAKEN as nat);
    assert(f.len() == n);
    let mut r: Vec<ShowResult> = Vec::new();
    let mut i: usize = 0;
    while i < n
        invariant
            i <= n,
            n == f.len(),
            f == first_n(hits@, SHOWS_TAKEN as nat),
            forall|k: int| 0 <= k < n ==> f[k] == hits@[k],
            forall|k: int| 0 <= k < n ==> !hit_lookup_fails(#[trigger] hits@[k]),
            r@.len() == kept_shows(f.take(i as int)).len(),
            forall|k: int| 0 <= k < r@.len() ==> show_offered(#[trigger] r@[k], kept_shows(f.take(i as int))[k]),
        decreases n - i,
    {
        assert(f.take(i + 1).drop_last() =~= f.take(i as int));
        assert(f.take(i + 1).last() == hits@[i as int]);
        let ghost before = r@;
        match &hits[i].show {
            Some(o) => {
                match o.id {
                    Some(Some(id)) => {
                        let name = string_from(&chars_or_empty(o.name.as_ref().unwrap()));
                        let mut year = chars_or_empty(o.premiered.as_ref().unwrap());
                        truncate_chars(&mut year, 4);
                        let raw = chars_or_empty(o.summary.as_ref().unwrap());
                        let mut summary = strip_html_chars(&raw);
                        truncate_chars(&mut summary, 100);
                        r.push(ShowResult {
                            id,
                            name,
                            year: string_from(&year),
                            summary: string_from(&summary),
                            source: "tvmaze".to_owned(),
                        });
                        assert forall|k: int| 0 <= k < r@.len() implies show_offered(#[trigger] r@[k], kept_shows(f.take(i + 1))[k]) by {
                            if k < before.len() {
                                assert(r@[k] == before[k]);
                            }
                        }
                    },
                    _ => {},
                }
            },
            None => {},
        }
        i += 1;
    }
    assert(f.take(n as int) =~= f);
    r
}

/// The episode label: season and episode as two-digit numbers, then the title.
pub open spec fn episode_label(season: u64, episode: u64, title: Seq<char>) -> Seq<char> {
    "S"@ + decimal2(season as nat) + "E"@ + decimal2(episode as nat) + " - "@ + title
}

/// Whether an entry is offered: it has a season and a number, and is of the wanted season
/// when one is given.
pub open spec fn episode_kept(e: EpisodeObject, season: Option<u64>) -> bool {
    &&& e.season is Some
    &&& e.number is Some
    &&& (season matches Some(s) ==> e.season == Some(s))
}

/// The entries offered, in order.
pub open spec fn kept_episodes(es: Seq<EpisodeObject>, season: Option<u64>) -> Seq<EpisodeObject>
    decreases es.len(),
{
    if es.len() == 0 {
        Seq::empty()
    } else {
        let k = kept_episodes(es.drop_last(), season);
        if episode_kept(es.last(), season) { k.push(es.last()) } else { k }
    }
}

/// `r` is what is offered for the entry `e`.
pub open spec fn episode_offered(r: EpisodeResult, e: EpisodeObject) -> bool {
    &&& e.season == Some(r.season)
    &&& e.number == Some(r.episode)
    &&& r.title@ == str_or_empty(e.name)
    &&& r.runtime == e.runtime
    &&& r.airdate@ == str_or_empty(e.airdate)
    &&& r.label@ == episode_label(r.season, r.episode, r.title@)
    &&& r.filename_stem@ == r.label@
}

/// The episodes offered from an episode list, restricted to `season` when it is given.
pub fn episodes_from_list(entries: &Vec<EpisodeObject>, season: Option<u64>) -> (r: Vec<EpisodeResult>)
    ensures
        r@.len() == kept_episodes(entries@, season).len(),
        forall|i: int| 0 <= i < r@.len() ==> episode_offered(#[trigger] r@[i], kept_episodes(entries@, season)[i]),
{
    let mut r: Vec<EpisodeResult> = Vec::new();
    let mut i: usize = 0;
    while i < entries.len()
        invariant
            i <= entries@.len(),
            r@.len() == kept_episodes(entries@.take(i as int), season).len(),
            forall|k: int| 0 <= k < r@.len() ==> episode_offered(#[trigger] r@[k], kept_episodes(entries@.take(i as int), season)[k]),
        decreases entries.len() - i,
    {
        let e = &entries[i];
        assert(entries@.take(i + 1).drop_last() =~= entries@.take(i as int));
        assert(entries@.take(i + 1).last() == entries@[i as int]);
        let ghost before = r@;
        match (e.season, e.number) {
            (Some(s), Some(n)) => {
                let wanted = match season {
                    Some(f) => s == f,
                    None => true,
                };
                if wanted {
                    let title_chars = chars_or_empty(&e.name);
                    let mut label: Vec<char> = Vec::new();
                    label.push('S');
                    push_decimal2(&mut label, s);
                    label.push('E');
                    push_decimal2(&mut label, n);
                    push_str_chars(&mut label, " - ");
                    push_all(&mut label, &title_chars);
                    proof {
                        reveal_strlit("S");
                        reveal_strlit("E");
                    }
                    assert(label@ =~= episode_label(s, n, title_chars@));
                    let label_s = string_from(&label);
                    r.push(EpisodeResult {
                        season: s,
                        episode: n,
                        title: string_from(&title_chars),
                        runtime: e.runtime,
                        airdate: string_from(&chars_or_empty(&e.airdate)),
                        filename_stem: string_from(&label),
                        label: label_s,
                    });
                    assert forall|k: int| 0 <= k < r@.len() implies episode_offered(#[trigger] r@[k], kept_episodes(entries@.take(i + 1), season)[k]) by {
                        if k < before.len() {
                            assert(r@[k] == before[k]);
                        }
                    }
                }
            },
            _ => {},
        }
        i += 1;
    }
    assert(entries@.take(entries.len() as int) =~= entries@);
    r
}

/// Every episode kept when a season is asked for belongs to that season.
pub proof fn lemma_episodes_of_season(es: Seq<EpisodeObject>, season: u64)
    ensures
        forall|i: int|
            0 <= i < kept_episodes(es, Some(season)).len() ==> (#[trigger] kept_episodes(es, Some(season))[i]).season
                == Some(season),
    decreases es.len(),
{
    if es.len() > 0 {
        lemma_episodes_of_season(es.drop_last(), season);
        let k = kept_episodes(es.drop_last(), Some(season));
        assert forall|i: int| 0 <= i < k.push(es.last()).len() && i < k.len() implies k.push(es.last())[i] == k[i] by {}
    }
}

} // verus!
