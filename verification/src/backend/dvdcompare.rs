//! DVDCompare lookups: the request URLs and what is read from the pages.
use vstd::prelude::*;
use crate::text::{
    chars_of, concat_all, concat_strings, find_chars_from, join, join_strings, push_str_chars,
    second_piece, split_second_piece, str_eq, string_from, trim, trim_chars, views,
};
use crate::urlenc::{percent_encoded, url_encode};
use crate::backend::error::AppError;
use crate::scrape::{
    element_view, elements_view, nested_view, ElementView, is_match, row_view, rows_view, find_matches, regex_is_match, regex_matches, select_elements,
    select_nested_texts, selected_elements, selected_nested_texts, ScrapedElement,
};

verus! {

/// Query of a disc search.
pub struct SearchParams {
    pub q: String,
}

/// Query of a disc page.
pub struct DiscParams {
    pub compid: String,
}

/// The error answered to a disc query: a bad request when the comparison id is empty.
pub fn check_disc_params(p: &DiscParams) -> (r: Option<AppError>)
    ensures
        r is Some == (p.compid@.len() == 0),
        r matches Some(e) ==> e.status == 400 && e.message@ == "Missing compid"@,
{
    if p.compid.as_str().is_empty() {
        Some(AppError::bad_request("Missing compid".to_owned()))
    } else {
        None
    }
}

/// A disc comparison found by a search.
#[derive(Debug)]
pub struct SearchResult {
    pub compid: String,
    pub title: String,
    pub url: String,
}

/// A feature of a disc, with the running times listed for it.
#[derive(Debug)]
pub struct Feature {
    pub title: String,
    pub timecodes: Vec<String>,
}

/// What a disc page lists.
#[derive(Debug)]
pub struct DiscResponse {
    pub compid: String,
    pub title: String,
    pub features: Vec<Feature>,
    pub url: String,
}

/// At most this many search results are kept.
pub const MAX_SEARCH_RESULTS: usize = 20;

/// At most this many features are kept.
pub const MAX_FEATURES: usize = 50;

/// The search URL for `query`.
pub open spec fn search_url(query: Seq<char>) -> Seq<char> {
    "https://www.dvdcompare.net/comparisons/search.php?title="@ + percent_encoded(vstd::utf8::encode_utf8(query))
}

/// The URL of the page of disc `compid`.
pub open spec fn disc_url(compid: Seq<char>) -> Seq<char> {
    "https://www.dvdcompare.net/comparisons/film.php?compid="@ + compid
}

/// Builds the search URL for `query`.
pub fn dvdcompare_search_url(query: &str) -> (r: String)
    ensures
        r@ == search_url(query@),
{
    let mut v: Vec<char> = Vec::new();
    push_str_chars(&mut v, "https://www.dvdcompare.net/comparisons/search.php?title=");
    let e = url_encode(query);
    push_str_chars(&mut v, e.as_str());
    string_from(&v)
}

/// Builds the URL of the page of disc `compid`.
pub fn dvdcompare_disc_url(compid: &str) -> (r: String)
    ensures
        r@ == disc_url(compid@),
{
    let mut v: Vec<char> = Vec::new();
    push_str_chars(&mut v, "https://www.dvdcompare.net/comparisons/film.php?compid=");
    push_str_chars(&mut v, compid);
    string_from(&v)
}

/// A search hit as read: compid, title and link target.
pub type Found = (Seq<char>, Seq<char>, Seq<char>);

/// The link target of an element, or nothing.
pub open spec fn href_of(e: ElementView) -> Seq<char> {
    match e.0 {
        Some(h) => h,
        None => Seq::empty(),
    }
}

/// The comparison id in a link target: the text after its first `compid=` (up to a second one).
pub open spec fn compid_of(href: Seq<char>) -> Seq<char> {
    match second_piece(href, "compid="@) {
        Some(c) => c,
        None => Seq::empty(),
    }
}

/// The text of an element, trimmed.
pub open spec fn text_of(texts: Seq<Seq<char>>) -> Seq<char> {
    trim(concat_all(texts))
}

/// Some hit already read has comparison id `c`.
pub open spec fn has_compid(st: Seq<Found>, c: Seq<char>) -> bool {
    exists|j: int| 0 <= j < st.len() && (#[trigger] st[j]).0 == c
}

/// The hits read from the links in turn: a link is taken when fewer than twenty hits are
/// held, its comparison id is non-empty and new, and its text is non-empty.
pub open spec fn search_fold(links: Seq<ElementView>) -> Seq<Found>
    decreases links.len(),
{
    if links.len() == 0 {
        Seq::empty()
    } else {
        let st = search_fold(links.drop_last());
        let e = links.last();
        let href = href_of(e);
        let c = compid_of(href);
        let t = text_of(e.1);
        if st.len() >= MAX_SEARCH_RESULTS || c.len() == 0 || has_compid(st, c) || t.len() == 0 {
            st
        } else {
            st.push((c, t, href))
        }
    }
}

/// `r` holds exactly the hits `f`, each with its page URL.
pub open spec fn results_match(r: Seq<SearchResult>, f: Seq<Found>) -> bool {
    &&& r.len() == f.len()
    &&& forall|i: int| 0 <= i < r.len() ==> {
        &&& (#[trigger] r[i]).compid@ == f[i].0
        &&& r[i].title@ == f[i].1
        &&& r[i].url@ == "https://www.dvdcompare.net"@ + f[i].2
    }
}

proof fn lemma_search_fold_stops(links: Seq<ElementView>, i: int, k: int)
    requires
        0 <= i <= k <= links.len(),
        search_fold(links.take(i)).len() >= MAX_SEARCH_RESULTS,
    ensures
        search_fold(links.take(k)) == search_fold(links.take(i)),
    decreases k - i,
{
    if k > i {
        lemma_search_fold_stops(links, i, k - 1);
        assert(links.take(k).drop_last() =~= links.take(k - 1));
    }
}

/// The hits read from the links a search page offers (see `search_fold`).
pub fn search_results_from_links(links: &Vec<ScrapedElement>) -> (r: Vec<SearchResult>)
    ensures
        results_match(r@, search_fold(links@.map_values(|e: ScrapedElement| element_view(e)))),
{
    let ghost lv = links@.map_values(|e: ScrapedElement| element_view(e));
    let pat = chars_of("compid=");
    let mut r: Vec<SearchResult> = Vec::new();
    let mut i: usize = 0;
    while i < links.len()
        invariant
            i <= links@.len(),
            lv == links@.map_values(|e: ScrapedElement| element_view(e)),
            pat@ == "compid="@,
            results_match(r@, search_fold(lv.take(i as int))),
            r@.len() < MAX_SEARCH_RESULTS,
        decreases links.len() - i,
    {
        let ghost st = search_fold(lv.take(i as int));
        assert(lv.take(i + 1).drop_last() =~= lv.take(i as int));
        assert(lv.take(i + 1).last() == element_view(links@[i as int]));
        let e = &links[i];
        let href = match &e.attr {
            Some(h) => chars_of(h.as_str()),
            None => Vec::new(),
        };
        let compid = match split_second_piece(&href, &pat) {
            Some(c) => c,
            None => Vec::new(),
        };
        let compid_s = string_from(&compid);
        let mut take = compid.len() > 0;
        if take {
            let mut j: usize = 0;
            let mut found = false;
            while j < r.len() && !found
                invariant
                    j <= r@.len(),
                    results_match(r@, st),
                    compid_s@ == compid@,
                    found ==> j < r@.len() && st[j as int].0 == compid@,
                    !found ==> forall|m: int| 0 <= m < j ==> st[m].0 != compid@,
                decreases r.len() - j + (if found { 0int } else { 1int }),
            {
                assert(r@[j as int].compid@ == st[j as int].0);
                if str_eq(r[j].compid.as_str(), compid_s.as_str()) {
                    found = true;
                } else {
                    j += 1;
                }
            }
            if found {
                assert(has_compid(st, compid@));
            } else {
                assert(!has_compid(st, compid@));
            }
            take = !found;
        }
        if take {
            let text = concat_strings(&e.text);
            let title = trim_chars(&text);
            if title.len() > 0 {
                let mut url: Vec<char> = Vec::new();
                push_str_chars(&mut url, "https://www.dvdcompare.net");
                let ghost before = r@;
                let ghost hv = href@;
                let ghost cv = compid@;
                let ghost tv = title@;
                crate::text::push_all(&mut url, &href);
                r.push(SearchResult { compid: compid_s, title: string_from(&title), url: string_from(&url) });
                assert(search_fold(lv.take(i + 1)) == st.push((cv, tv, hv)));
                assert forall|m: int| 0 <= m < r@.len() implies {
                    &&& (#[trigger] r@[m]).compid@ == st.push((cv, tv, hv))[m].0
                    &&& r@[m].title@ == st.push((cv, tv, hv))[m].1
                    &&& r@[m].url@ == "https://www.dvdcompare.net"@ + st.push((cv, tv, hv))[m].2
                } by {
                    if m < before.len() {
                        assert(r@[m] == before[m]);
                    }
                }
                if r.len() >= MAX_SEARCH_RESULTS {
                    proof {
                        lemma_search_fold_stops(lv, i + 1, lv.len() as int);
                        assert(lv.take(lv.len() as int) =~= lv);
                    }
                    return r;
                }
            }
        }
        i += 1;
    }
    assert(lv.take(lv.len() as int) =~= lv);
    r
}

/// The selector of the links to comparison pages.
pub open spec fn film_link_selector() -> Seq<char> {
    "a[href*='comparisons/film.php']"@
}

/// The hits on a search page: those read from its links to comparison pages, or none when
/// the selector is refused.
pub open spec fn search_page_hits(html: Seq<char>) -> Seq<Found> {
    match selected_elements(html, film_link_selector(), "href"@) {
        Some(links) => search_fold(links),
        None => Seq::empty(),
    }
}

/// Reads the hits of a search page (see `search_fold`).
pub fn parse_search_results(html: &str) -> (r: Vec<SearchResult>)
    ensures
        results_match(r@, search_page_hits(html@)),
{
    match select_elements(html, "a[href*='comparisons/film.php']", "href") {
        Some(links) => search_results_from_links(&links),
        None => Vec::new(),
    }
}

/// At most twenty hits are kept; their comparison ids are non-empty and distinct, and their
/// titles are non-empty and have no surrounding whitespace.
pub proof fn lemma_search_hits_distinct(links: Seq<ElementView>)
    ensures
        search_fold(links).len() <= MAX_SEARCH_RESULTS,
        forall|i: int| 0 <= i < search_fold(links).len() ==> (#[trigger] search_fold(links)[i]).0.len() > 0
            && search_fold(links)[i].1.len() > 0 && trim(search_fold(links)[i].1) == search_fold(links)[i].1,
        forall|i: int, j: int|
            0 <= i < j < search_fold(links).len() ==> (#[trigger] search_fold(links)[i]).0 != (#[trigger] search_fold(links)[j]).0,
    decreases links.len(),
{
    if links.len() > 0 {
        let p = links.drop_last();
        lemma_search_hits_distinct(p);
        let st = search_fold(p);
        let e = links.last();
        let c = compid_of(href_of(e));
        let t = text_of(e.1);
        crate::text::lemma_trim_idempotent(concat_all(e.1));
        if !(st.len() >= MAX_SEARCH_RESULTS || c.len() == 0 || has_compid(st, c) || t.len() == 0) {
            let n = st.push((c, t, href_of(e)));
            assert forall|i: int, j: int| 0 <= i < j < n.len() implies (#[trigger] n[i]).0 != (#[trigger] n[j]).0 by {
                if j < st.len() {
                    assert(n[i] == st[i] && n[j] == st[j]);
                } else {
                    assert(n[i] == st[i]);
                }
            }
            assert forall|i: int| 0 <= i < n.len() implies (#[trigger] n[i]).0.len() > 0 && n[i].1.len() > 0 && trim(n[i].1) == n[i].1 by {
                if i < st.len() {
                    assert(n[i] == st[i]);
                }
            }
        }
    }
}

/// The running-time pattern: `m:ss` or `h:mm:ss` with one or two leading digits, as a whole word.
pub open spec fn timecode_pattern() -> Seq<char> {
    "\\b\\d{1,2}:\\d{2}(?::\\d{2})?\\b"@
}

/// The text of each cell, trimmed.
pub open spec fn row_cells(row: Seq<Seq<Seq<char>>>) -> Seq<Seq<char>> {
    row.map_values(|c: Seq<Seq<char>>| text_of(c))
}

/// The running times found in the cells joined with spaces (none when the pattern is refused).
pub open spec fn row_timecodes(cells: Seq<Seq<char>>) -> Seq<Seq<char>> {
    match regex_matches(timecode_pattern(), join(cells, " "@)) {
        Some(v) => v,
        None => Seq::empty(),
    }
}

/// A cell names a feature: it is not empty, holds no running time, and is longer than two
/// bytes.
pub open spec fn names_feature(c: Seq<char>) -> bool {
    &&& c.len() > 0
    &&& regex_is_match(timecode_pattern(), c) != Some(true)
    &&& vstd::utf8::encode_utf8(c).len() > 2
}

/// The first cell that names a feature.
pub open spec fn first_feature_name(cells: Seq<Seq<char>>) -> Option<Seq<char>>
    decreases cells.len(),
{
    if cells.len() == 0 {
        None
    } else if names_feature(cells[0]) {
        Some(cells[0])
    } else {
        first_feature_name(cells.drop_first())
    }
}

/// A feature as read: its title and running times.
pub type FeatureView = (Seq<char>, Seq<Seq<char>>);

/// The feature a table row lists: when the row holds a running time and at least two cells,
/// the first cell naming a feature, with the row's running times.
pub open spec fn row_feature(row: Seq<Seq<Seq<char>>>) -> Option<FeatureView> {
    let cells = row_cells(row);
    let t = row_timecodes(cells);
    if t.len() == 0 || cells.len() < 2 {
        None
    } else {
        match first_feature_name(cells) {
            Some(title) => Some((title, t)),
            None => None,
        }
    }
}

proof fn lemma_first_feature_name_is_leftmost(cells: Seq<Seq<char>>)
    ensures
        match first_feature_name(cells) {
            Some(t) => exists|k: int|
                0 <= k < cells.len() && cells[k] == t && names_feature(t) && forall|m: int|
                    0 <= m < k ==> !names_feature(#[trigger] cells[m]),
            None => forall|k: int| 0 <= k < cells.len() ==> !names_feature(#[trigger] cells[k]),
        },
    decreases cells.len(),
{
    if cells.len() > 0 && !names_feature(cells[0]) {
        let t = cells.drop_first();
        lemma_first_feature_name_is_leftmost(t);
        match first_feature_name(t) {
            Some(x) => {
                let k = choose|k: int|
                    0 <= k < t.len() && t[k] == x && names_feature(x) && forall|m: int|
                        0 <= m < k ==> !names_feature(#[trigger] t[m]);
                assert(cells[k + 1] == x);
                assert forall|m: int| 0 <= m < k + 1 implies !names_feature(#[trigger] cells[m]) by {
                    if m > 0 {
                        assert(cells[m] == t[m - 1]);
                    }
                }
            },
            None => {
                assert forall|k: int| 0 <= k < cells.len() implies !names_feature(#[trigger] cells[k]) by {
                    if k > 0 {
                        assert(cells[k] == t[k - 1]);
                    }
                }
            },
        }
    }
}

/// A table row lists a feature exactly when it has at least two cells, the running-time
/// pattern finds a time in its cells' trimmed texts joined left to right with spaces, and
/// some cell names a feature; the feature's title is then the trimmed text of the leftmost
/// such cell, and its running times are those found, in the order they occur.
pub proof fn lemma_row_feature_reads_cells_in_order(row: Seq<Seq<Seq<char>>>)
    ensures
        ({
            let texts = Seq::new(row.len(), |k: int| trim(concat_all(row[k])));
            let found = regex_matches(timecode_pattern(), join(texts, " "@));
            &&& row_feature(row) is Some <==> (row.len() >= 2 && (found matches Some(times) && times.len() > 0)
                && exists|k: int| 0 <= k < row.len() && names_feature(#[trigger] texts[k]))
            &&& row_feature(row) matches Some((title, times)) ==> {
                &&& found == Some(times)
                &&& exists|k: int|
                    0 <= k < row.len() && title == trim(concat_all(row[k])) && names_feature(title) && forall|m: int|
                        0 <= m < k ==> !names_feature(trim(concat_all(#[trigger] row[m])))
            }
        }),
{
    let texts = Seq::new(row.len(), |k: int| trim(concat_all(row[k])));
    let cells = row_cells(row);
    assert(cells =~= texts);
    lemma_first_feature_name_is_leftmost(cells);
    match first_feature_name(cells) {
        Some(t) => {
            let k = choose|k: int|
                0 <= k < cells.len() && cells[k] == t && names_feature(t) && forall|m: int|
                    0 <= m < k ==> !names_feature(#[trigger] cells[m]);
            assert(texts[k] == t);
            assert forall|m: int| 0 <= m < k implies !names_feature(trim(concat_all(#[trigger] row[m]))) by {
                assert(cells[m] == trim(concat_all(row[m])));
            }
        },
        None => {},
    }
}

/// The features read from the rows in turn, stopping at fifty.
pub open spec fn features_fold(rows: Seq<Seq<Seq<Seq<char>>>>) -> Seq<FeatureView>
    decreases rows.len(),
{
    if rows.len() == 0 {
        Seq::empty()
    } else {
        let st = features_fold(rows.drop_last());
        if st.len() >= MAX_FEATURES {
            st
        } else {
            match row_feature(rows.last()) {
                Some(f) => st.push(f),
                None => st,
            }
        }
    }
}

/// The plain content of a feature.
pub open spec fn feature_view(f: Feature) -> FeatureView {
    (f.title@, views(f.timecodes@))
}

proof fn lemma_first_feature_name(cells: Seq<Seq<char>>, i: int)
    requires
        0 <= i <= cells.len(),
        forall|k: int| 0 <= k < i ==> !names_feature(#[trigger] cells[k]),
    ensures
        i < cells.len() && names_feature(cells[i]) ==> first_feature_name(cells) == Some(cells[i]),
        i == cells.len() ==> first_feature_name(cells) is None,
    decreases i,
{
    if i > 0 {
        let t = cells.drop_first();
        assert forall|k: int| 0 <= k < i - 1 implies !names_feature(#[trigger] t[k]) by {
            assert(t[k] == cells[k + 1]);
        }
        lemma_first_feature_name(t, i - 1);
    }
}

/// The feature a row lists, given its trimmed cells, the running times found in them and,
/// for each cell, whether the running-time pattern matches it.
pub fn feature_from_row(cells: &Vec<String>, timecodes: Vec<String>, cell_matches: &Vec<Option<bool>>) -> (r: Option<Feature>)
    requires
        cell_matches@.len() == cells@.len(),
    ensures
        r is Some == (timecodes@.len() > 0 && cells@.len() >= 2 && exists|k: int| 0 <= k < cells@.len()
            && #[trigger] cells@[k]@.len() > 0 && cell_matches@[k] != Some(true) && vstd::utf8::encode_utf8(cells@[k]@).len() > 2),
        r matches Some(f) ==> {
            &&& f.timecodes@ == timecodes@
            &&& exists|k: int| {
                &&& 0 <= k < cells@.len()
                &&& f.title@ == (#[trigger] cells@[k])@
                &&& cells@[k]@.len() > 0 && cell_matches@[k] != Some(true) && vstd::utf8::encode_utf8(cells@[k]@).len() > 2
                &&& forall|m: int| 0 <= m < k ==> !(cells@[m]@.len() > 0 && cell_matches@[m] != Some(true)
                    && vstd::utf8::encode_utf8(cells@[m]@).len() > 2)
            }
        },
{
    if timecodes.len() == 0 || cells.len() < 2 {
        return None;
    }
    let mut k: usize = 0;
    while k < cells.len()
        invariant
            k <= cells@.len(),
            cell_matches@.len() == cells@.len(),
            timecodes@.len() > 0,
            cells@.len() >= 2,
            forall|m: int| 0 <= m < k ==> !(cells@[m]@.len() > 0 && cell_matches@[m] != Some(true)
                && vstd::utf8::encode_utf8(cells@[m]@).len() > 2),
        decreases cells.len() - k,
    {
        let c = &cells[k];
        let usable = crate::text::utf8_longer_than_two(c.as_str()) && !c.as_str().is_empty() && !matches!(cell_matches[k], Some(true));
        if usable {
            return Some(Feature { title: c.clone(), timecodes });
        }
        k += 1;
    }
    None
}

proof fn lemma_features_fold_stops(rows: Seq<Seq<Seq<Seq<char>>>>, i: int, k: int)
    requires
        0 <= i <= k <= rows.len(),
        features_fold(rows.take(i)).len() >= MAX_FEATURES,
    ensures
        features_fold(rows.take(k)) == features_fold(rows.take(i)),
    decreases k - i,
{
    if k > i {
        lemma_features_fold_stops(rows, i, k - 1);
        assert(rows.take(k).drop_last() =~= rows.take(k - 1));
    }
}

/// The feature one table row lists (see `row_feature`).
fn feature_of_row(row: &Vec<Vec<String>>) -> (r: Option<Feature>)
    ensures
        match r {
            Some(f) => row_feature(row_view(*row)) == Some(feature_view(f)),
            None => row_feature(row_view(*row)) is None,
        },
{
    let ghost rv = row_view(*row);
    let mut cells: Vec<String> = Vec::new();
    let mut i: usize = 0;
    while i < row.len()
        invariant
            i <= row@.len(),
            rv == row_view(*row),
            views(cells@) == row_cells(rv).take(i as int),
        decreases row.len() - i,
    {
        let text = concat_strings(&row[i]);
        let t = trim_chars(&text);
        let ghost before = cells@;
        cells.push(string_from(&t));
        assert(views(cells@) =~= views(before).push(t@));
        assert(row_cells(rv).take(i + 1) =~= row_cells(rv).take(i as int).push(text_of(views(row@[i as int]@))));
        i += 1;
    }
    let ghost cv = row_cells(rv);
    assert(views(cells@) =~= cv);
    let row_text = string_from(&join_strings(&cells, " "));
    let timecodes = match find_matches("\\b\\d{1,2}:\\d{2}(?::\\d{2})?\\b", row_text.as_str()) {
        Some(v) => v,
        None => Vec::new(),
    };
    assert(views(timecodes@) == row_timecodes(cv));
    if timecodes.len() == 0 || cells.len() < 2 {
        return None;
    }
    let mut matches: Vec<Option<bool>> = Vec::new();
    let mut j: usize = 0;
    while j < cells.len()
        invariant
            j <= cells@.len(),
            matches@.len() == j,
            forall|m: int| 0 <= m < j ==> #[trigger] matches@[m] == regex_is_match(timecode_pattern(), cells@[m]@),
        decreases cells.len() - j,
    {
        matches.push(is_match("\\b\\d{1,2}:\\d{2}(?::\\d{2})?\\b", cells[j].as_str()));
        j += 1;
    }
    let r = feature_from_row(&cells, timecodes, &matches);
    let ghost rr = r;
    proof {
        assert forall|m: int| 0 <= m < cells@.len() implies names_feature(#[trigger] cv[m]) == (cells@[m]@.len() > 0
            && matches@[m] != Some(true) && vstd::utf8::encode_utf8(cells@[m]@).len() > 2) by {
            assert(cv[m] == cells@[m]@);
        }
        match rr {
            Some(f) => {
                let k = choose|k: int| {
                    &&& 0 <= k < cells@.len()
                    &&& f.title@ == (#[trigger] cells@[k])@
                    &&& cells@[k]@.len() > 0 && matches@[k] != Some(true) && vstd::utf8::encode_utf8(cells@[k]@).len() > 2
                    &&& forall|m: int| 0 <= m < k ==> !(cells@[m]@.len() > 0 && matches@[m] != Some(true)
                        && vstd::utf8::encode_utf8(cells@[m]@).len() > 2)
                };
                assert forall|m: int| 0 <= m < k implies !names_feature(#[trigger] cv[m]) by {}
                lemma_first_feature_name(cv, k);
                assert(cv[k] == cells@[k]@);
            },
            None => {
                assert forall|m: int| 0 <= m < cv.len() implies !names_feature(#[trigger] cv[m]) by {
                    if names_feature(cv[m]) {
                        assert(cells@[m]@.len() > 0 && matches@[m] != Some(true) && vstd::utf8::encode_utf8(cells@[m]@).len() > 2);
                    }
                }
                lemma_first_feature_name(cv, cv.len() as int);
            },
        }
    }
    r
}

/// The features listed by table rows (see `features_fold`).
pub fn features_from_rows(rows: &Vec<Vec<Vec<String>>>) -> (r: Vec<Feature>)
    ensures
        r@.map_values(|f: Feature| feature_view(f)) == features_fold(rows_view(rows@)),
{
    let ghost rv = rows_view(rows@);
    let mut r: Vec<Feature> = Vec::new();
    let mut i: usize = 0;
    while i < rows.len()
        invariant
            i <= rows@.len(),
            rv == rows_view(rows@),
            r@.map_values(|f: Feature| feature_view(f)) == features_fold(rv.take(i as int)),
            r@.len() < MAX_FEATURES,
        decreases rows.len() - i,
    {
        assert(rv.take(i + 1).drop_last() =~= rv.take(i as int));
        assert(rv.take(i + 1).last() == row_view(rows@[i as int]));
        let ghost before = r@;
        match feature_of_row(&rows[i]) {
            Some(f) => {
                r.push(f);
                assert(r@.map_values(|f: Feature| feature_view(f)) =~= before.map_values(|f: Feature| feature_view(f)).push(feature_view(r@.last())));
                if r.len() >= MAX_FEATURES {
                    proof {
                        lemma_features_fold_stops(rv, i + 1, rv.len() as int);
                        assert(rv.take(rv.len() as int) =~= rv);
                    }
                    return r;
                }
            },
            None => {},
        }
        i += 1;
    }
    assert(rv.take(rv.len() as int) =~= rv);
    r
}

/// The title read from the `title` elements of a page: the trimmed text of the first, or
/// nothing.
pub open spec fn title_of_elements(els: Option<Seq<ElementView>>) -> Seq<char> {
    match els {
        Some(e) => if e.len() > 0 { text_of(e[0].1) } else { Seq::empty() },
        None => Seq::empty(),
    }
}

/// The features read from the table rows of a page, or none when there are no rows.
pub open spec fn features_of_rows(rows: Option<Seq<Seq<Seq<Seq<char>>>>>) -> Seq<FeatureView> {
    match rows {
        Some(r) => features_fold(r),
        None => Seq::empty(),
    }
}

/// The page title: the trimmed text of the first `title` element, or nothing.
pub open spec fn page_title(html: Seq<char>) -> Seq<char> {
    title_of_elements(selected_elements(html, "title"@, "href"@))
}

/// The features a disc page lists: those of its table rows, or none when a selector is refused.
pub open spec fn page_features(html: Seq<char>) -> Seq<FeatureView> {
    features_of_rows(selected_nested_texts(html, "tr"@, "td, th"@))
}

/// The answer for disc `compid`, from the `title` elements of its page and the cell texts of
/// its table rows.
pub fn disc_from_parts(
    compid: &str,
    title_elements: Option<Vec<ScrapedElement>>,
    rows: Option<Vec<Vec<Vec<String>>>>,
) -> (r: DiscResponse)
    ensures
        r.compid@ == compid@,
        r.url@ == disc_url(compid@),
        r.title@ == title_of_elements(elements_view(title_elements)),
        r.features@.map_values(|f: Feature| feature_view(f)) == features_of_rows(nested_view(rows)),
{
    let url = dvdcompare_disc_url(compid);
    let ghost te = elements_view(title_elements);
    let title = match title_elements {
        Some(els) => {
            if els.len() > 0 {
                assert(te.unwrap()[0] == element_view(els@[0]));
                let t = trim_chars(&concat_strings(&els[0].text));
                string_from(&t)
            } else {
                String::new()
            }
        },
        None => String::new(),
    };
    let features = match rows {
        Some(rs) => features_from_rows(&rs),
        None => {
            assert(Seq::<Feature>::empty().map_values(|f: Feature| feature_view(f)) =~= Seq::<FeatureView>::empty());
            Vec::new()
        },
    };
    DiscResponse { compid: compid.to_owned(), title, features, url }
}

/// Reads a disc page: its title and the features its table rows list.
pub fn parse_disc(html: &str, compid: &str) -> (r: DiscResponse)
    ensures
        r.compid@ == compid@,
        r.url@ == disc_url(compid@),
        r.title@ == page_title(html@),
        r.features@.map_values(|f: Feature| feature_view(f)) == page_features(html@),
{
    let title_elements = select_elements(html, "title", "href");
    let rows = select_nested_texts(html, "tr", "td, th");
    disc_from_parts(compid, title_elements, rows)
}

/// At most fifty features are read, each with at least one running time and a non-empty
/// title.
pub proof fn lemma_features_bounded(rows: Seq<Seq<Seq<Seq<char>>>>)
    ensures
        features_fold(rows).len() <= MAX_FEATURES,
        forall|i: int| 0 <= i < features_fold(rows).len() ==> (#[trigger] features_fold(rows)[i]).1.len() > 0
            && features_fold(rows)[i].0.len() > 0,
    decreases rows.len(),
{
    if rows.len() > 0 {
        let p = rows.drop_last();
        lemma_features_bounded(p);
        let st = features_fold(p);
        match row_feature(rows.last()) {
            Some(f) => {
                let cells = row_cells(rows.last());
                lemma_first_feature_name_names(cells);
                if st.len() < MAX_FEATURES {
                    assert forall|i: int| 0 <= i < st.push(f).len() implies (#[trigger] st.push(f)[i]).1.len() > 0
                        && st.push(f)[i].0.len() > 0 by {
                        if i < st.len() {
                            assert(st.push(f)[i] == st[i]);
                        }
                    }
                }
            },
            None => {},
        }
    }
}

proof fn lemma_first_feature_name_names(cells: Seq<Seq<char>>)
    ensures
        first_feature_name(cells) matches Some(t) ==> names_feature(t),
    decreases cells.len(),
{
    if cells.len() > 0 && !names_feature(cells[0]) {
        lemma_first_feature_name_names(cells.drop_first());
    }
}

} // verus!
