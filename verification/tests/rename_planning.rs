use mkvlabel::backend::rename::{
    file_name_for, plan_rename, rename_result, sanitize_filename, should_attempt_rename, RenamePlan, MAX_NAME_CHARS,
};
use mkvlabel::backend::types::RenameMapping;

/// The name cleaning written with iterator adapters.
fn reference_sanitize(name: &str) -> String {
    let sanitized: String = name
        .chars()
        .filter(|c| !matches!(c, '<' | '>' | ':' | '"' | '/' | '\\' | '|' | '?' | '*'))
        .collect();
    let collapsed = sanitized.split_whitespace().collect::<Vec<_>>().join(" ");
    collapsed.chars().take(200).collect()
}

#[test]
fn sanitize_examples() {
    assert_eq!(sanitize_filename("S01E02 - Pilot: Part 1/2"), "S01E02 - Pilot Part 12");
    assert_eq!(sanitize_filename("  What?  Is   *this*  "), "What Is this");
    assert_eq!(sanitize_filename("<>:\"/\\|?*"), "");
    assert_eq!(sanitize_filename(""), "");
    assert_eq!(sanitize_filename("a\tb\nc"), "a b c");
}

#[test]
fn sanitize_limits_length() {
    let long = "é".repeat(500);
    let r = sanitize_filename(&long);
    assert_eq!(r.chars().count(), MAX_NAME_CHARS);
    let words = "word ".repeat(100);
    let r2 = sanitize_filename(&words);
    assert_eq!(r2.chars().count(), 200);
    assert_eq!(r2, reference_sanitize(&words));
}

#[test]
fn sanitize_agrees_with_iterator_form() {
    let inputs = [
        "The Show - S01E01 - \"Quoted\"",
        "  lots   of\u{3000}space\u{a0}here ",
        "path/like\\name",
        "keep-dashes_and.dots",
        "\u{2003}em\u{2003}",
    ];
    for name in inputs {
        assert_eq!(sanitize_filename(name), reference_sanitize(name), "{name:?}");
    }
}

#[test]
fn sanitized_name_has_no_forbidden_characters() {
    let r = sanitize_filename("  a<b>c:d\"e/f\\g|h?i*j  ");
    assert_eq!(r, "abcdefghij");
    assert!(!r.contains(|c: char| matches!(c, '<' | '>' | ':' | '"' | '/' | '\\' | '|' | '?' | '*')));
    assert_eq!(sanitize_filename(&r), r);
}

fn mapping(old: &str, new: &str) -> RenameMapping {
    RenameMapping { old_path: old.to_string(), new_name: new.to_string() }
}

#[test]
fn plan_keeps_directory_and_extension() {
    let p = plan_rename(&mapping("/videos/show/title_t00.mkv", "S01E01 - Pilot"));
    assert_eq!(p.old_path, "/videos/show/title_t00.mkv");
    assert_eq!(p.new_path, "/videos/show/S01E01 - Pilot.mkv");
    assert!(!p.unchanged);
}

#[test]
fn plan_without_extension_or_directory() {
    let p = plan_rename(&mapping("/videos/raw", "Extra: One"));
    assert_eq!(p.new_path, "/videos/Extra One");
    let q = plan_rename(&mapping("clip.MP4", "Trailer"));
    assert_eq!(q.new_path, "Trailer.MP4");
    assert!(!q.unchanged);
}

#[test]
fn plan_detects_unchanged_name() {
    let p = plan_rename(&mapping("/videos/Movie.mkv", "  Movie "));
    assert_eq!(p.new_path, "/videos/Movie.mkv");
    assert!(p.unchanged);
}

fn plan(old: &str, new: &str, unchanged: bool) -> RenamePlan {
    RenamePlan { old_path: old.to_string(), new_path: new.to_string(), unchanged }
}

#[test]
fn result_when_unchanged_is_skipped_success() {
    let r = rename_result(plan("/a/x.mkv", "/a/x.mkv", true), true, Some("ignored".to_string()));
    assert!(r.success);
    assert!(r.skipped);
    assert!(r.error.is_none());
    assert_eq!(r.old, "/a/x.mkv");
    assert_eq!(r.new, "/a/x.mkv");
}

#[test]
fn result_when_target_exists() {
    let r = rename_result(plan("/a/x.mkv", "/a/y.mkv", false), true, None);
    assert!(!r.success);
    assert!(!r.skipped);
    assert_eq!(r.error.as_deref(), Some("Target already exists"));
    assert_eq!(r.new, "/a/y.mkv");
}

#[test]
fn result_of_rename_attempt() {
    let ok = rename_result(plan("/a/x.mkv", "/a/y.mkv", false), false, None);
    assert!(ok.success);
    assert!(!ok.skipped);
    assert!(ok.error.is_none());
    let failed = rename_result(plan("/a/x.mkv", "/a/y.mkv", false), false, Some("Permission denied".to_string()));
    assert!(!failed.success);
    assert!(!failed.skipped);
    assert_eq!(failed.error.as_deref(), Some("Permission denied"));
}

#[test]
fn rename_attempted_only_onto_free_target() {
    assert!(should_attempt_rename(&plan("/a/x.mkv", "/a/y.mkv", false), false));
    assert!(!should_attempt_rename(&plan("/a/x.mkv", "/a/y.mkv", false), true));
    assert!(!should_attempt_rename(&plan("/a/x.mkv", "/a/x.mkv", true), false));
    assert!(!should_attempt_rename(&plan("/a/x.mkv", "/a/x.mkv", true), true));
}

#[test]
fn file_names_keep_extension() {
    assert_eq!(file_name_for(" The   Pilot ", Some("mkv".to_string())), "The Pilot.mkv");
    assert_eq!(file_name_for("a/b", None), "ab");
    assert_eq!(file_name_for("", Some("mp4".to_string())), ".mp4");
}

#[test]
fn sanitizing_twice_changes_nothing() {
    for name in ["  A: B / C  ", "plain", "", "x\u{3000}\u{3000}y", "tab\there"] {
        let once = sanitize_filename(name);
        assert_eq!(sanitize_filename(&once), once);
    }
    // cut by the length limit just after a word, the name keeps a final space once
    let cut = format!("{} b", "a".repeat(199));
    let once = sanitize_filename(&cut);
    assert!(once.ends_with(' '));
    assert_eq!(sanitize_filename(&once), "a".repeat(199));
}
