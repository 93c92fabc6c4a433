//! Planning renames: cleaning the requested names and deciding each outcome.
use vstd::prelude::*;
use crate::text::{
    chars_of, collapse_whitespace, is_ws, join, lemma_single_spaced_words, lemma_ws_words, opt_view,
    push_str_chars, single_spaced, string_from, take_chars, truncate_chars, ws_words,
};
use crate::paths::{extension_of, join_paths, parent_of, path_eq, path_extension, path_join, path_parent, paths_equal};
use crate::backend::types::{RenameMapping, RenameResult};
use crate::backend::error::AppError;

verus! {

/// Characters that may not stand in a file name.
pub open spec fn is_forbidden(c: char) -> bool {
    c == '<' || c == '>' || c == ':' || c == '"' || c == '/' || c == '\\' || c == '|' || c == '?' || c == '*'
}

/// `s` without its forbidden characters.
pub open spec fn drop_forbidden(s: Seq<char>) -> Seq<char>
    decreases s.len(),
{
    if s.len() == 0 {
        s
    } else if is_forbidden(s.last()) {
        drop_forbidden(s.drop_last())
    } else {
        drop_forbidden(s.drop_last()).push(s.last())
    }
}

/// The longest name kept, in characters.
pub const MAX_NAME_CHARS: usize = 200;

/// A requested name made safe: forbidden characters dropped, whitespace runs collapsed to
/// single spaces with none at either end, and at most 200 characters kept.
pub open spec fn sanitized(name: Seq<char>) -> Seq<char> {
    take_chars(join(ws_words(drop_forbidden(name)), seq![' ']), MAX_NAME_CHARS as nat)
}

/// Makes a requested name safe to use as a file name (see `sanitized`).
pub fn sanitize_filename(name: &str) -> (r: String)
    ensures
        r@ == sanitized(name@),
{
    let cs = chars_of(name);
    let mut kept: Vec<char> = Vec::new();
    let mut i: usize = 0;
    while i < cs.len()
        invariant
            i <= cs.len(),
            kept@ == drop_forbidden(cs@.take(i as int)),
        decreases cs.len() - i,
    {
        let c = cs[i];
        assert(cs@.take(i + 1).drop_last() =~= cs@.take(i as int));
        if !(c == '<' || c == '>' || c == ':' || c == '"' || c == '/' || c == '\\' || c == '|' || c
            == '?' || c == '*') {
            kept.push(c);
        }
        i += 1;
    }
    assert(cs@.take(cs.len() as int) =~= cs@);
    let mut collapsed = collapse_whitespace(&kept);
    truncate_chars(&mut collapsed, MAX_NAME_CHARS);
    string_from(&collapsed)
}

proof fn lemma_drop_forbidden(s: Seq<char>)
    ensures
        forall|i: int| 0 <= i < drop_forbidden(s).len() ==> !is_forbidden(#[trigger] drop_forbidden(s)[i]),
    decreases s.len(),
{
    if s.len() > 0 {
        lemma_drop_forbidden(s.drop_last());
        let r = drop_forbidden(s.drop_last());
        if !is_forbidden(s.last()) {
            assert forall|i: int| 0 <= i < r.push(s.last()).len() implies !is_forbidden(#[trigger] r.push(s.last())[i]) by {
                if i < r.len() {
                    assert(r.push(s.last())[i] == r[i]);
                }
            }
        }
    }
}

/// The joined words are clean: no forbidden characters, and every whitespace character is a
/// single space between two other characters.
proof fn lemma_join_words_clean(w: Seq<Seq<char>>)
    requires
        forall|k: int| 0 <= k < w.len() ==> (#[trigger] w[k]).len() > 0,
        forall|k: int, j: int| 0 <= k < w.len() && 0 <= j < w[k].len() ==> !is_ws(#[trigger] w[k][j])
            && !is_forbidden(w[k][j]),
    ensures
        w.len() > 0 ==> join(w, seq![' ']).len() > 0,
        forall|i: int| 0 <= i < join(w, seq![' ']).len() ==> !is_forbidden(#[trigger] join(w, seq![' '])[i]),
        forall|i: int|
            0 <= i < join(w, seq![' ']).len() && is_ws(#[trigger] join(w, seq![' '])[i]) ==> join(w, seq![' '])[i]
                == ' ' && 0 < i < join(w, seq![' ']).len() - 1 && !is_ws(join(w, seq![' '])[i + 1]) && !is_ws(
                join(w, seq![' '])[i - 1],
            ),
    decreases w.len(),
{
    if w.len() == 1 {
        assert(join(w, seq![' ']) == w[0]);
    } else if w.len() > 1 {
        let p = w.drop_last();
        assert forall|k: int| 0 <= k < p.len() implies (#[trigger] p[k]).len() > 0 by {
            assert(p[k] == w[k]);
        }
        assert forall|k: int, j: int| 0 <= k < p.len() && 0 <= j < p[k].len() implies !is_ws(#[trigger] p[k][j])
            && !is_forbidden(p[k][j]) by {
            assert(p[k] == w[k]);
        }
        lemma_join_words_clean(p);
        let jp = join(p, seq![' ']);
        let l = w.last();
        assert(w[w.len() - 1] == l);
        let j = join(w, seq![' ']);
        assert(j == jp + seq![' '] + l);
        assert forall|i: int| 0 <= i < j.len() implies !is_forbidden(#[trigger] j[i]) by {
            if i < jp.len() {
                assert(j[i] == jp[i]);
            } else if i > jp.len() {
                assert(j[i] == l[i - jp.len() - 1]);
            }
        }
        assert forall|i: int| 0 <= i < j.len() && is_ws(#[trigger] j[i]) implies j[i] == ' ' && 0 < i < j.len()
            - 1 && !is_ws(j[i + 1]) && !is_ws(j[i - 1]) by {
            if i < jp.len() {
                assert(j[i] == jp[i]);
                if i + 1 < jp.len() {
                    assert(j[i + 1] == jp[i + 1]);
                }
                assert(j[i - 1] == jp[i - 1]);
            } else if i > jp.len() {
                assert(j[i] == l[i - jp.len() - 1]);
            } else {
                assert(j[i + 1] == l[0]);
                assert(j[i - 1] == jp[jp.len() - 1]);
                if is_ws(jp[jp.len() - 1]) {
                    assert(jp.len() - 1 < jp.len() - 1);
                }
            }
        }
    }
}

/// A sanitized name has no forbidden character and at most 200 characters, and each
/// whitespace character in it is a space that is neither first nor followed by whitespace.
pub proof fn lemma_sanitized_is_clean(name: Seq<char>)
    ensures
        sanitized(name).len() <= MAX_NAME_CHARS,
        forall|i: int| 0 <= i < sanitized(name).len() ==> !is_forbidden(#[trigger] sanitized(name)[i]),
        forall|i: int|
            0 <= i < sanitized(name).len() && is_ws(#[trigger] sanitized(name)[i]) ==> sanitized(name)[i] == ' '
                && i > 0 && (i + 1 < sanitized(name).len() ==> !is_ws(sanitized(name)[i + 1])),
{
    let d = drop_forbidden(name);
    lemma_drop_forbidden(d);
    lemma_drop_forbidden(name);
    lemma_ws_words(d);
    let w = ws_words(d);
    assert forall|k: int, j: int| 0 <= k < w.len() && 0 <= j < w[k].len() implies !is_ws(#[trigger] w[k][j])
        && !is_forbidden(w[k][j]) by {
        assert(d.contains(w[k][j]));
    }
    lemma_join_words_clean(w);
    let j = join(w, seq![' ']);
    let r = sanitized(name);
    assert forall|i: int| 0 <= i < r.len() implies r[i] == j[i] by {}
}

proof fn lemma_drop_forbidden_clean(s: Seq<char>)
    requires
        forall|i: int| 0 <= i < s.len() ==> !is_forbidden(#[trigger] s[i]),
    ensures
        drop_forbidden(s) == s,
    decreases s.len(),
{
    if s.len() > 0 {
        let p = s.drop_last();
        assert forall|i: int| 0 <= i < p.len() implies !is_forbidden(#[trigger] p[i]) by {
            assert(p[i] == s[i]);
        }
        lemma_drop_forbidden_clean(p);
        assert(s[s.len() - 1] == s.last());
        assert(p.push(s.last()) =~= s);
    }
}

/// Sanitizing removes nothing but the nine characters `< > : " / \ | ? *`, extra whitespace
/// and what lies beyond 200 characters: a name of at most 200 characters that holds none of
/// the nine and whose words are separated by single spaces comes back unchanged.
pub proof fn lemma_sanitize_keeps_clean_names(s: Seq<char>)
    requires
        s.len() <= 200,
        forall|i: int|
            0 <= i < s.len() ==> #[trigger] s[i] != '<' && s[i] != '>' && s[i] != ':' && s[i] != '"' && s[i] != '/'
                && s[i] != '\\' && s[i] != '|' && s[i] != '?' && s[i] != '*',
        single_spaced(s),
    ensures
        sanitized(s) == s,
{
    assert forall|i: int| 0 <= i < s.len() implies !is_forbidden(#[trigger] s[i]) by {}
    lemma_drop_forbidden_clean(s);
    lemma_single_spaced_words(s);
}

/// Sanitizing a sanitized name again leaves it as it is, unless it ends in a space (which
/// happens only when the length limit cut it just after a word).
pub proof fn lemma_sanitize_idempotent(name: Seq<char>)
    requires
        sanitized(name).len() == 0 || sanitized(name).last() != ' ',
    ensures
        sanitized(sanitized(name)) == sanitized(name),
{
    let s = sanitized(name);
    lemma_sanitized_is_clean(name);
    lemma_drop_forbidden_clean(s);
    if s.len() > 0 {
        assert(s[s.len() - 1] == s.last());
    }
    assert(single_spaced(s));
    lemma_single_spaced_words(s);
}

/// Why a rename failed.
#[derive(Debug)]
pub enum RenameError {
    TargetExists { path: String },
    Rename { from: String, to: String, source: String },
}

/// A batch of renames to apply.
pub struct RenameRequest {
    pub mappings: Vec<RenameMapping>,
}

/// The new file name: the sanitized name followed by the old file's extension, if any.
pub open spec fn new_file_name(old_path: Seq<char>, new_name: Seq<char>) -> Seq<char> {
    sanitized(new_name) + match path_extension(old_path) {
        Some(e) => seq!['.'] + e,
        None => Seq::empty(),
    }
}

/// The new path: the new file name in the old file's directory (`.` when it has none).
pub open spec fn planned_path(old_path: Seq<char>, new_name: Seq<char>) -> Seq<char> {
    path_join(
        match path_parent(old_path) {
            Some(p) => p,
            None => seq!['.'],
        },
        new_file_name(old_path, new_name),
    )
}

/// Where a file is to go, and whether that is where it already is.
#[derive(Debug)]
pub struct RenamePlan {
    pub old_path: String,
    pub new_path: String,
    pub unchanged: bool,
}

/// The error answered to a batch of renames: a bad request when it holds no mapping.
pub fn check_rename_request(req: &RenameRequest) -> (r: Option<AppError>)
    ensures
        r is Some == (req.mappings@.len() == 0),
        r matches Some(e) ==> e.status == 400 && e.message@ == "No mappings provided"@,
{
    if req.mappings.len() == 0 {
        Some(AppError::bad_request("No mappings provided".to_owned()))
    } else {
        None
    }
}

/// The new file name for the requested name `new_name`, given the old file's extension, if
/// any: the sanitized name, then a dot and the extension.
pub fn file_name_for(new_name: &str, extension: Option<String>) -> (r: String)
    ensures
        r@ == sanitized(new_name@) + match opt_view(extension) {
            Some(e) => seq!['.'] + e,
            None => Seq::<char>::empty(),
        },
{
    let stem = sanitize_filename(new_name);
    let mut name = chars_of(stem.as_str());
    match extension {
        Some(e) => {
            name.push('.');
            push_str_chars(&mut name, e.as_str());
            assert(name@ =~= stem@ + (seq!['.'] + e@));
        },
        None => {
            assert(name@ =~= stem@ + Seq::<char>::empty());
        },
    }
    string_from(&name)
}

/// Works out where a requested rename takes the file.
pub fn plan_rename(m: &RenameMapping) -> (p: RenamePlan)
    ensures
        p.old_path@ == m.old_path@,
        p.new_path@ == planned_path(m.old_path@, m.new_name@),
        p.unchanged == path_eq(p.new_path@, m.old_path@),
{
    let file_name = file_name_for(m.new_name.as_str(), extension_of(m.old_path.as_str()));
    let new_path = match parent_of(m.old_path.as_str()) {
        Some(parent) => join_paths(parent.as_str(), file_name.as_str()),
        None => {
            proof {
                reveal_strlit(".");
                assert("."@ =~= seq!['.']);
            }
            join_paths(".", file_name.as_str())
        },
    };
    let unchanged = paths_equal(new_path.as_str(), m.old_path.as_str());
    RenamePlan { old_path: m.old_path.clone(), new_path, unchanged }
}

/// Whether the rename itself is to be tried: only when the file is not already in place and
/// nothing exists at the new path, so that no file is ever overwritten.
pub fn should_attempt_rename(plan: &RenamePlan, target_exists: bool) -> (b: bool)
    ensures
        b == (!plan.unchanged && !target_exists),
{
    !plan.unchanged && !target_exists
}

/// The report for a planned rename: a file already in place is a skipped success; otherwise
/// an existing target fails the rename, and else the outcome of the rename itself decides.
pub open spec fn rename_outcome(
    plan: RenamePlan,
    target_exists: bool,
    rename_error: Option<String>,
    r: RenameResult,
) -> bool {
    &&& r.old@ == plan.old_path@
    &&& r.new@ == plan.new_path@
    &&& if plan.unchanged {
        r.success && r.skipped && r.error is None
    } else if target_exists {
        &&& !r.success
        &&& !r.skipped
        &&& r.error matches Some(e) && e@ == "Target already exists"@
    } else {
        &&& !r.skipped
        &&& r.success == (rename_error is None)
        &&& r.error == rename_error
    }
}

/// The report for a planned rename, given whether its target existed and, when the rename was
/// tried, how it ended.
pub fn rename_result(plan: RenamePlan, target_exists: bool, rename_error: Option<String>) -> (r: RenameResult)
    ensures
        rename_outcome(plan, target_exists, rename_error, r),
{
    let RenamePlan { old_path, new_path, unchanged } = plan;
    if unchanged {
        RenameResult { old: old_path, new: new_path, success: true, skipped: true, error: None }
    } else if target_exists {
        RenameResult {
            old: old_path,
            new: new_path,
            success: false,
            skipped: false,
            error: Some("Target already exists".to_owned()),
        }
    } else {
        match rename_error {
            None => RenameResult { old: old_path, new: new_path, success: true, skipped: false, error: None },
            Some(msg) => RenameResult {
                old: old_path,
                new: new_path,
                success: false,
                skipped: false,
                error: Some(msg),
            },
        }
    }
}

} // verus!
