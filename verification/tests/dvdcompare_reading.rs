use mkvlabel::backend::dvdcompare::{
    disc_from_parts, dvdcompare_disc_url, dvdcompare_search_url, feature_from_row, features_from_rows, parse_disc,
    parse_search_results, search_results_from_links, MAX_FEATURES, MAX_SEARCH_RESULTS,
};
use mkvlabel::scrape::ScrapedElement;

#[test]
fn dvdcompare_urls() {
    assert_eq!(
        dvdcompare_search_url("star wars"),
        "https://www.dvdcompare.net/comparisons/search.php?title=star%20wars"
    );
    assert_eq!(dvdcompare_disc_url("12345"), "https://www.dvdcompare.net/comparisons/film.php?compid=12345");
}

const SEARCH_PAGE: &str = r#"<html><body>
<a href="/comparisons/film.php?fid=1">No id here</a>
<a href="/comparisons/film.php?compid=123"> The Film (Blu-ray) </a>
<a href="/comparisons/film.php?compid=123">Duplicate</a>
<a href="/comparisons/film.php?compid=456"></a>
<a href="/comparisons/film.php?compid=789"><b>Other</b> Film</a>
<a href="/comparisons/film.php?compid=456">Late title</a>
<a href="/elsewhere.php?compid=1">Not a comparison</a>
</body></html>"#;

#[test]
fn search_page_links() {
    let r = parse_search_results(SEARCH_PAGE);
    let got: Vec<(&str, &str, &str)> = r.iter().map(|x| (x.compid.as_str(), x.title.as_str(), x.url.as_str())).collect();
    assert_eq!(
        got,
        vec![
            ("123", "The Film (Blu-ray)", "https://www.dvdcompare.net/comparisons/film.php?compid=123"),
            ("789", "Other Film", "https://www.dvdcompare.net/comparisons/film.php?compid=789"),
            ("456", "Late title", "https://www.dvdcompare.net/comparisons/film.php?compid=456"),
        ]
    );
}

#[test]
fn search_page_keeps_twenty() {
    assert_eq!(MAX_SEARCH_RESULTS, 20);
    let mut page = String::from("<html><body>");
    for i in 0..30 {
        page.push_str(&format!("<a href=\"/comparisons/film.php?compid={i}\">Film {i}</a>"));
    }
    page.push_str("</body></html>");
    let r = parse_search_results(&page);
    assert_eq!(r.len(), 20);
    assert_eq!(r[19].compid, "19");
    assert!(parse_search_results("<p>nothing</p>").is_empty());
}

fn link(href: Option<&str>, texts: &[&str]) -> ScrapedElement {
    ScrapedElement { attr: href.map(|h| h.to_string()), text: texts.iter().map(|t| t.to_string()).collect() }
}

#[test]
fn search_links_read_directly() {
    let links = vec![
        link(None, &["no link"]),
        link(Some("film.php?compid=7&compid=8"), &["  Seven ", "Up "]),
        link(Some("film.php?compid=9"), &["   "]),
    ];
    let r = search_results_from_links(&links);
    assert_eq!(r.len(), 1);
    assert_eq!(r[0].compid, "7&");
    assert_eq!(r[0].title, "Seven Up");
    assert_eq!(r[0].url, "https://www.dvdcompare.net".to_string() + "film.php?compid=7&compid=8");
}

const DISC_PAGE: &str = r#"<html><head><title> Disc Title </title></head><body><table>
<tr><th>Feature</th><th>Runtime</th></tr>
<tr><td>Main Feature</td><td>1:45:30</td></tr>
<tr><td>12:05</td><td>Trailer</td></tr>
<tr><td>ab</td><td>3:15</td></tr>
<tr><td>Only one cell 4:00</td></tr>
<tr><td></td><td>Deleted Scenes (5:10)</td><td>Bonus</td></tr>
<tr><td>Two parts</td><td>0:45 and 10:00:00</td></tr>
</table></body></html>"#;

#[test]
fn disc_page_features() {
    let d = parse_disc(DISC_PAGE, "42");
    assert_eq!(d.compid, "42");
    assert_eq!(d.url, "https://www.dvdcompare.net/comparisons/film.php?compid=42");
    assert_eq!(d.title, "Disc Title");
    let got: Vec<(&str, Vec<&str>)> = d
        .features
        .iter()
        .map(|f| (f.title.as_str(), f.timecodes.iter().map(|t| t.as_str()).collect()))
        .collect();
    assert_eq!(
        got,
        vec![
            ("Main Feature", vec!["1:45:30"]),
            ("Trailer", vec!["12:05"]),
            ("Bonus", vec!["5:10"]),
            ("Two parts", vec!["0:45", "10:00:00"]),
        ]
    );
}

#[test]
fn disc_page_without_table() {
    let d = parse_disc("<html><body><p>Nothing</p></body></html>", "1");
    assert_eq!(d.title, "");
    assert!(d.features.is_empty());
}

fn cell(t: &str) -> Vec<String> {
    vec![t.to_string()]
}

#[test]
fn features_stop_at_fifty() {
    assert_eq!(MAX_FEATURES, 50);
    let rows: Vec<Vec<Vec<String>>> = (0..60).map(|i| vec![cell(&format!("Feature {i}")), cell("1:00")]).collect();
    let f = features_from_rows(&rows);
    assert_eq!(f.len(), 50);
    assert_eq!(f[49].title, "Feature 49");
    assert_eq!(f[0].timecodes, vec!["1:00".to_string()]);
}

#[test]
fn feature_from_cells() {
    let cells = vec!["".to_string(), "ab".to_string(), "3:00".to_string(), "Commentary".to_string(), "Later".to_string()];
    let matches = vec![Some(false), Some(false), Some(true), Some(false), Some(false)];
    let f = feature_from_row(&cells, vec!["3:00".to_string()], &matches).unwrap();
    assert_eq!(f.title, "Commentary");
    assert_eq!(f.timecodes, vec!["3:00".to_string()]);
    assert!(feature_from_row(&cells, Vec::new(), &matches).is_none());
    let one = vec!["Alone".to_string()];
    assert!(feature_from_row(&one, vec!["1:00".to_string()], &vec![Some(false)]).is_none());
    let unknown = vec!["Long enough".to_string(), "x".to_string()];
    let g = feature_from_row(&unknown, vec!["1:00".to_string()], &vec![None, None]).unwrap();
    assert_eq!(g.title, "Long enough");
    let multibyte = vec!["é".to_string(), "éa".to_string()];
    let h = feature_from_row(&multibyte, vec!["1:00".to_string()], &vec![Some(false), Some(false)]).unwrap();
    assert_eq!(h.title, "éa");
}

#[test]
fn disc_assembled_from_parts() {
    let title = vec![link(None, &["  Page ", "Title  "]), link(None, &["Second"])];
    let rows = vec![vec![cell("Extra"), cell("2:00")], vec![cell("no time"), cell("here")]];
    let d = disc_from_parts("9", Some(title), Some(rows));
    assert_eq!(d.title, "Page Title");
    assert_eq!(d.url, "https://www.dvdcompare.net/comparisons/film.php?compid=9");
    assert_eq!(d.features.len(), 1);
    assert_eq!(d.features[0].title, "Extra");
    let empty = disc_from_parts("9", None, None);
    assert_eq!(empty.title, "");
    assert!(empty.features.is_empty());
    assert_eq!(disc_from_parts("9", Some(Vec::new()), Some(Vec::new())).title, "");
}
