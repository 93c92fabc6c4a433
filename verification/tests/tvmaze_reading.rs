use mkvlabel::backend::tvmaze::{
    episodes_from_list, show_search_lookup_fails, shows_from_search, strip_html, tvmaze_episodes_url,
    tvmaze_search_url, EpisodeObject, SearchHit, ShowObject, SHOWS_TAKEN,
};

#[test]
fn search_url_encodes_query() {
    assert_eq!(tvmaze_search_url("the office"), "https://api.tvmaze.com/search/shows?q=the%20office");
    assert_eq!(tvmaze_search_url("Amélie & co"), "https://api.tvmaze.com/search/shows?q=Am%C3%A9lie%20%26%20co");
    assert_eq!(tvmaze_search_url("a-b_c.d~"), "https://api.tvmaze.com/search/shows?q=a-b_c.d~");
}

#[test]
fn episodes_url() {
    assert_eq!(tvmaze_episodes_url(526), "https://api.tvmaze.com/shows/526/episodes");
    assert_eq!(tvmaze_episodes_url(0), "https://api.tvmaze.com/shows/0/episodes");
}

#[test]
fn strip_html_examples() {
    assert_eq!(strip_html("<p>Hello <b>world</b></p>"), "Hello world");
    assert_eq!(strip_html("no tags"), "no tags");
    assert_eq!(strip_html("a > b"), "a  b");
    assert_eq!(strip_html("open <tag never closed"), "open ");
    assert_eq!(strip_html(""), "");
}

#[test]
fn strip_html_is_idempotent() {
    for s in ["<i>x</i>y", "a>b<c>d", "<<>>z"] {
        let once = strip_html(s);
        assert_eq!(strip_html(&once), once);
    }
}

fn show(id: Option<Option<u64>>, name: &str, premiered: &str, summary: &str) -> SearchHit {
    SearchHit {
        show: Some(ShowObject {
            id,
            name: Some(Some(name.to_string())),
            premiered: Some(Some(premiered.to_string())),
            summary: Some(Some(summary.to_string())),
        }),
    }
}

#[test]
fn shows_are_read_from_first_five_entries() {
    assert_eq!(SHOWS_TAKEN, 5);
    let long_summary = format!("<p>{}</p>", "x".repeat(150));
    let hits = vec![
        show(Some(Some(1)), "One", "2005-03-24", "<p>An <b>office</b>.</p>"),
        SearchHit { show: None },
        show(Some(None), "No id", "2001-01-01", ""),
        show(Some(Some(4)), "Four", "", &long_summary),
        SearchHit {
            show: Some(ShowObject { id: Some(Some(5)), name: Some(None), premiered: Some(None), summary: Some(None) }),
        },
        show(Some(Some(6)), "Six", "1999", ""),
    ];
    assert!(!show_search_lookup_fails(&hits));
    let r = shows_from_search(&hits);
    assert_eq!(r.len(), 3);
    assert_eq!(r[0].id, 1);
    assert_eq!(r[0].name, "One");
    assert_eq!(r[0].year, "2005");
    assert_eq!(r[0].summary, "An office.");
    assert_eq!(r[0].source, "tvmaze");
    assert_eq!(r[1].id, 4);
    assert_eq!(r[1].year, "");
    assert_eq!(r[1].summary, "x".repeat(100));
    assert_eq!(r[2].id, 5);
    assert_eq!(r[2].name, "");
    assert_eq!(r[2].summary, "");
}

#[test]
fn lookup_failures() {
    let missing_id = vec![SearchHit {
        show: Some(ShowObject { id: None, name: None, premiered: None, summary: None }),
    }];
    assert!(show_search_lookup_fails(&missing_id));
    let missing_name = vec![SearchHit {
        show: Some(ShowObject {
            id: Some(Some(3)),
            name: None,
            premiered: Some(Some("2000".to_string())),
            summary: Some(None),
        }),
    }];
    assert!(show_search_lookup_fails(&missing_name));
    let not_unsigned = vec![SearchHit {
        show: Some(ShowObject { id: Some(None), name: None, premiered: None, summary: None }),
    }];
    assert!(!show_search_lookup_fails(&not_unsigned));
    assert!(shows_from_search(&not_unsigned).is_empty());
    let mut late: Vec<SearchHit> = Vec::new();
    for i in 0..5 {
        late.push(show(Some(Some(i)), "a", "b", "c"));
    }
    late.push(SearchHit { show: Some(ShowObject { id: None, name: None, premiered: None, summary: None }) });
    assert!(!show_search_lookup_fails(&late));
    assert_eq!(shows_from_search(&late).len(), 5);
}

fn ep(season: Option<u64>, number: Option<u64>, name: Option<&str>, runtime: Option<u64>, airdate: Option<&str>) -> EpisodeObject {
    EpisodeObject {
        season,
        number,
        name: name.map(|s| s.to_string()),
        runtime,
        airdate: airdate.map(|s| s.to_string()),
    }
}

#[test]
fn episodes_with_labels() {
    let list = vec![
        ep(Some(1), Some(1), Some("Pilot"), Some(22), Some("2005-03-24")),
        ep(Some(1), Some(12), None, None, None),
        ep(None, Some(3), Some("No season"), None, None),
        ep(Some(2), Some(1), Some("Back"), Some(30), Some("2006-09-20")),
        ep(Some(10), None, Some("No number"), None, None),
    ];
    let all = episodes_from_list(&list, None);
    assert_eq!(all.len(), 3);
    assert_eq!(all[0].label, "S01E01 - Pilot");
    assert_eq!(all[0].filename_stem, "S01E01 - Pilot");
    assert_eq!(all[0].runtime, Some(22));
    assert_eq!(all[0].airdate, "2005-03-24");
    assert_eq!(all[1].label, "S01E12 - ");
    assert_eq!(all[1].title, "");
    assert_eq!(all[1].runtime, None);
    assert_eq!(all[2].season, 2);
    assert_eq!(all[2].episode, 1);
    let second = episodes_from_list(&list, Some(2));
    assert_eq!(second.len(), 1);
    assert_eq!(second[0].label, "S02E01 - Back");
    assert!(episodes_from_list(&list, Some(7)).is_empty());
    let big = episodes_from_list(&vec![ep(Some(100), Some(205), Some("X"), None, None)], None);
    assert_eq!(big[0].label, "S100E205 - X");
}
