//! What the panels show, worked out from the state.
use vstd::prelude::*;
use crate::text::{
    chars_of, decimal, decimal2, join, lemma_lex_lt_total, lemma_lex_lt_transitive, lex_lt, push_all,
    push_decimal, push_decimal2, push_str_chars, str_eq, str_lt, string_from, views,
};
use crate::frontend::state::{first_cluster_with, AppModel, AppState};
use crate::frontend::types::{
    AudioStream, DvdFeature, EpisodeResult, Mapping, MappingKind, RenameResult, SortMode, VideoFile,
};

verus! {

/// File `i` is listed: mapped files are listed only when asked for.
pub open spec fn listed(m: AppModel, i: int) -> bool {
    m.show_mapped || !m.mappings.contains_key(m.files[i].id@)
}

/// In the list of one directory, file `i` comes before file `j` under sort mode `mode`
/// (ties keep the order of the scan).
pub open spec fn listed_before(files: Seq<VideoFile>, mode: SortMode, i: int, j: int) -> bool {
    match mode {
        SortMode::Duration => files[i].duration_us < files[j].duration_us || (files[i].duration_us == files[j].duration_us && i < j),
        SortMode::Size => files[i].size < files[j].size || (files[i].size == files[j].size && i < j),
        SortMode::Path => lex_lt(files[i].filename@, files[j].filename@) || (files[i].filename@ == files[j].filename@ && i < j),
    }
}

proof fn lemma_listed_before(files: Seq<VideoFile>, mode: SortMode, i: int, j: int, k: int)
    ensures
        !listed_before(files, mode, i, i),
        i != j ==> listed_before(files, mode, i, j) || listed_before(files, mode, j, i),
        !(listed_before(files, mode, i, j) && listed_before(files, mode, j, i)),
        listed_before(files, mode, i, j) && listed_before(files, mode, j, k) ==> listed_before(files, mode, i, k),
{
    let a = files[i].filename@;
    let b = files[j].filename@;
    let c = files[k].filename@;
    lemma_lex_lt_total(a, b);
    lemma_lex_lt_total(a, a);
    lemma_lex_lt_total(b, c);
    lemma_lex_lt_total(a, c);
    if lex_lt(a, b) && lex_lt(b, c) {
        lemma_lex_lt_transitive(a, b, c);
    }
}

/// One directory's part of the file list: the directory, its shortened name, and the
/// positions of its listed files in the order shown.
#[derive(Debug)]
pub struct FileGroup {
    pub dir: String,
    pub short_dir: String,
    pub files: Vec<usize>,
}

/// `g` lists exactly the listed files of directory `dir`, in the order of `listed_before`.
pub open spec fn is_group(m: AppModel, dir: Seq<char>, g: Seq<usize>) -> bool {
    &&& forall|k: int| 0 <= k < g.len() ==> #[trigger] g[k] < m.files.len() && listed(m, g[k] as int) && m.files[g[k] as int].parent@ == dir
    &&& forall|i: int| 0 <= i < m.files.len() && listed(m, i) && m.files[i].parent@ == dir ==> #[trigger] g.contains(i as usize)
    &&& forall|k: int, l: int| 0 <= k < l < g.len() ==> listed_before(m.files, m.sort_mode, #[trigger] g[k] as int, #[trigger] g[l] as int)
}

/// `groups` is the file list of `m`: one group per directory holding a listed file, in
/// order of directory name, each as `is_group` says.
pub open spec fn is_file_list(m: AppModel, groups: Seq<FileGroup>) -> bool {
    &&& forall|c: int| 0 <= c < groups.len() ==> is_group(m, (#[trigger] groups[c]).dir@, groups[c].files@)
    &&& forall|c: int| 0 <= c < groups.len() ==> (#[trigger] groups[c]).files@.len() > 0
    &&& forall|c: int| 0 <= c < groups.len() ==> (#[trigger] groups[c]).short_dir@ == short_dir(groups[c].dir@)
    &&& forall|c: int, d: int| 0 <= c < d < groups.len() ==> lex_lt((#[trigger] groups[c]).dir@, (#[trigger] groups[d]).dir@)
    &&& forall|i: int| 0 <= i < m.files.len() && listed(m, i) ==> exists|c: int| 0 <= c < groups.len() && (#[trigger] groups[c]).dir@ == m.files[i].parent@
}

/// Position of the last `/` in `s`.
pub open spec fn last_slash(s: Seq<char>) -> Option<int>
    decreases s.len(),
{
    if s.len() == 0 {
        None
    } else if s.last() == '/' {
        Some(s.len() - 1)
    } else {
        last_slash(s.drop_last())
    }
}

/// The last two `/`-separated parts of a directory, joined by `/` (the whole when it has at
/// most two parts).
pub open spec fn short_dir(d: Seq<char>) -> Seq<char> {
    match last_slash(d) {
        None => d,
        Some(a) => match last_slash(d.take(a)) {
            None => d,
            Some(b) => d.skip(b + 1),
        },
    }
}

/// The part of a path after its last `/` (the whole when it has none).
pub open spec fn last_segment(p: Seq<char>) -> Seq<char> {
    match last_slash(p) {
        None => p,
        Some(a) => p.skip(a + 1),
    }
}

proof fn lemma_last_slash(s: Seq<char>, i: int)
    requires
        0 <= i <= s.len(),
        forall|k: int| i <= k < s.len() ==> s[k] != '/',
    ensures
        i > 0 && s[i - 1] == '/' ==> last_slash(s) == Some(i - 1),
        i == 0 ==> last_slash(s) is None,
    decreases s.len() - i,
{
    if i < s.len() {
        let p = s.drop_last();
        assert forall|k: int| i <= k < p.len() implies p[k] != '/' by {
            assert(p[k] == s[k]);
        }
        lemma_last_slash(p, i);
        if i > 0 {
            assert(p[i - 1] == s[i - 1]);
        }
    }
}

fn find_last_slash(s: &Vec<char>, end: usize) -> (r: Option<usize>)
    requires
        end <= s.len(),
    ensures
        match r {
            Some(a) => last_slash(s@.take(end as int)) == Some(a as int) && a < end,
            None => last_slash(s@.take(end as int)) is None,
        },
{
    let ghost t = s@.take(end as int);
    let mut i: usize = end;
    while i > 0 && s[i - 1] != '/'
        invariant
            i <= end,
            end <= s@.len(),
            t == s@.take(end as int),
            forall|k: int| i <= k < t.len() ==> t[k] != '/',
        decreases i,
    {
        i -= 1;
    }
    proof {
        if i > 0 {
            assert(t[i - 1] == s@[i - 1]);
        }
        lemma_last_slash(t, i as int);
    }
    if i == 0 {
        None
    } else {
        Some(i - 1)
    }
}

/// The shortened name of a directory (see `short_dir`).
pub fn short_dir_name(dir: &str) -> (r: String)
    ensures
        r@ == short_dir(dir@),
{
    let cs = chars_of(dir);
    assert(cs@.take(cs.len() as int) =~= cs@);
    match find_last_slash(&cs, cs.len()) {
        None => string_from(&cs),
        Some(a) => {
            assert(cs@.take(a as int) =~= cs@.take(cs.len() as int).take(a as int));
            match find_last_slash(&cs, a) {
                None => string_from(&cs),
                Some(b) => string_from(&crate::text::slice_chars(&cs, b + 1, cs.len())),
            }
        },
    }
}

/// The file name shown for a path (see `last_segment`).
pub fn last_segment_of(path: &str) -> (r: String)
    ensures
        r@ == last_segment(path@),
{
    let cs = chars_of(path);
    assert(cs@.take(cs.len() as int) =~= cs@);
    match find_last_slash(&cs, cs.len()) {
        None => string_from(&cs),
        Some(a) => string_from(&crate::text::slice_chars(&cs, a + 1, cs.len())),
    }
}

/// Whether file `i` is listed (see `listed`).
pub fn is_listed(st: &AppState, i: usize) -> (b: bool)
    requires
        i < st@.files.len(),
    ensures
        b == listed(st@, i as int),
{
    st.show_mapped || !st.mappings.contains_key(st.files[i].id.as_str())
}

fn listed_before_exec(files: &Vec<VideoFile>, mode: SortMode, i: usize, j: usize) -> (b: bool)
    requires
        i < files@.len(),
        j < files@.len(),
    ensures
        b == listed_before(files@, mode, i as int, j as int),
{
    match mode {
        SortMode::Duration => files[i].duration_us < files[j].duration_us || (files[i].duration_us == files[j].duration_us && i < j),
        SortMode::Size => files[i].size < files[j].size || (files[i].size == files[j].size && i < j),
        SortMode::Path => {
            let a = files[i].filename.as_str();
            let b = files[j].filename.as_str();
            if str_lt(a, b) {
                true
            } else if str_lt(b, a) {
                proof {
                    lemma_lex_lt_total(a@, b@);
                }
                false
            } else {
                proof {
                    lemma_lex_lt_total(a@, b@);
                }
                i < j
            }
        },
    }
}

/// Some listed file is in directory `d`.
pub open spec fn dir_has_listed(m: AppModel, d: Seq<char>) -> bool {
    exists|i: int| 0 <= i < m.files.len() && #[trigger] listed(m, i) && m.files[i].parent@ == d
}

fn sorted_dirs(st: &AppState) -> (dirs: Vec<String>)
    ensures
        forall|c: int, d: int| 0 <= c < d < dirs@.len() ==> lex_lt((#[trigger] dirs@[c])@, (#[trigger] dirs@[d])@),
        forall|i: int| 0 <= i < st@.files.len() && listed(st@, i) ==> exists|c: int| 0 <= c < dirs@.len() && (#[trigger] dirs@[c])@ == st@.files[i].parent@,
        forall|c: int| 0 <= c < dirs@.len() ==> dir_has_listed(st@, (#[trigger] dirs@[c])@),
{
    let mut dirs: Vec<String> = Vec::new();
    let mut i: usize = 0;
    while i < st.files.len()
        invariant
            i <= st@.files.len(),
            forall|c: int, d: int| 0 <= c < d < dirs@.len() ==> lex_lt((#[trigger] dirs@[c])@, (#[trigger] dirs@[d])@),
            forall|j: int| 0 <= j < i && listed(st@, j) ==> exists|c: int| 0 <= c < dirs@.len() && (#[trigger] dirs@[c])@ == st@.files[j].parent@,
            forall|c: int| 0 <= c < dirs@.len() ==> dir_has_listed(st@, (#[trigger] dirs@[c])@),
        decreases st.files.len() - i,
    {
        if is_listed(st, i) {
            let d = &st.files[i].parent;
            let mut p: usize = 0;
            while p < dirs.len() && str_lt(dirs[p].as_str(), d.as_str())
                invariant
                    p <= dirs@.len(),
                    forall|k: int| 0 <= k < p ==> lex_lt((#[trigger] dirs@[k])@, d@),
                decreases dirs.len() - p,
            {
                p += 1;
            }
            if p < dirs.len() && str_eq(dirs[p].as_str(), d.as_str()) {
            } else {
                let ghost before = dirs@;
                proof {
                    if p < before.len() {
                        lemma_lex_lt_total(before[p as int]@, d@);
                    }
                }
                dirs.insert(p, d.clone());
                proof {
                    assert(dirs@[p as int]@ == d@);
                    assert forall|c: int, e: int| 0 <= c < e < dirs@.len() implies lex_lt((#[trigger] dirs@[c])@, (#[trigger] dirs@[e])@) by {
                        if e < p {
                            assert(dirs@[c] == before[c] && dirs@[e] == before[e]);
                        } else if e == p {
                            assert(dirs@[c] == before[c]);
                        } else if c < p {
                            assert(dirs@[c] == before[c] && dirs@[e] == before[e - 1]);
                            assert(lex_lt(before[c]@, d@));
                            if e - 1 > p {
                                assert(lex_lt(before[p as int]@, before[e - 1]@));
                                lemma_lex_lt_transitive(d@, before[p as int]@, before[e - 1]@);
                            }
                            lemma_lex_lt_transitive(before[c]@, d@, before[e - 1]@);
                        } else if c == p {
                            assert(dirs@[e] == before[e - 1]);
                            if e - 1 > p {
                                assert(lex_lt(before[p as int]@, before[e - 1]@));
                                lemma_lex_lt_transitive(d@, before[p as int]@, before[e - 1]@);
                            }
                        } else {
                            assert(dirs@[c] == before[c - 1] && dirs@[e] == before[e - 1]);
                        }
                    }
                    assert forall|j: int| 0 <= j < i + 1 && listed(st@, j) implies exists|c: int| 0 <= c < dirs@.len() && (#[trigger] dirs@[c])@ == st@.files[j].parent@ by {
                        if j < i {
                            let c = choose|c: int| 0 <= c < before.len() && (#[trigger] before[c])@ == st@.files[j].parent@;
                            if c < p {
                                assert(dirs@[c] == before[c]);
                            } else {
                                assert(dirs@[c + 1] == before[c]);
                            }
                        } else {
                            assert(dirs@[p as int]@ == st@.files[j].parent@);
                        }
                    }
                    assert forall|c: int| 0 <= c < dirs@.len() implies dir_has_listed(st@, (#[trigger] dirs@[c])@) by {
                        if c < p {
                            assert(dirs@[c] == before[c]);
                        } else if c > p {
                            assert(dirs@[c] == before[c - 1]);
                        } else {
                            assert(listed(st@, i as int));
                        }
                    }
                }
            }
        }
        i += 1;
    }
    dirs
}

fn group_members(st: &AppState, dir: &String) -> (g: Vec<usize>)
    ensures
        is_group(st@, dir@, g@),
{
    let ghost m = st@;
    let mut g: Vec<usize> = Vec::new();
    let mut i: usize = 0;
    while i < st.files.len()
        invariant
            i <= st@.files.len(),
            m == st@,
            forall|k: int| 0 <= k < g@.len() ==> #[trigger] g@[k] < i && listed(m, g@[k] as int) && m.files[g@[k] as int].parent@ == dir@,
            forall|j: int| 0 <= j < i && listed(m, j) && m.files[j].parent@ == dir@ ==> #[trigger] g@.contains(j as usize),
            forall|k: int, l: int| 0 <= k < l < g@.len() ==> listed_before(m.files, m.sort_mode, #[trigger] g@[k] as int, #[trigger] g@[l] as int),
        decreases st.files.len() - i,
    {
        if is_listed(st, i) && str_eq(st.files[i].parent.as_str(), dir.as_str()) {
            let mut p: usize = 0;
            while p < g.len() && !listed_before_exec(&st.files, st.sort_mode, i, g[p])
                invariant
                    p <= g@.len(),
                    i < st@.files.len(),
                    m == st@,
                    forall|k: int| 0 <= k < g@.len() ==> #[trigger] g@[k] < i,
                    forall|k: int| 0 <= k < p ==> !listed_before(m.files, m.sort_mode, i as int, #[trigger] g@[k] as int),
                decreases g.len() - p,
            {
                p += 1;
            }
            let ghost before = g@;
            g.insert(p, i);
            proof {
                let fs = m.files;
                let md = m.sort_mode;
                assert forall|k: int, l: int| 0 <= k < l < g@.len() implies listed_before(fs, md, #[trigger] g@[k] as int, #[trigger] g@[l] as int) by {
                    if l < p {
                        assert(g@[k] == before[k] && g@[l] == before[l]);
                    } else if l == p {
                        assert(g@[k] == before[k]);
                        lemma_listed_before(fs, md, i as int, before[k] as int, i as int);
                    } else if k < p {
                        assert(g@[k] == before[k] && g@[l] == before[l - 1]);
                        lemma_listed_before(fs, md, before[k] as int, i as int, before[l - 1] as int);
                        lemma_listed_before(fs, md, i as int, before[k] as int, i as int);
                        if l - 1 > p {
                            assert(listed_before(fs, md, before[p as int] as int, before[l - 1] as int));
                            lemma_listed_before(fs, md, i as int, before[p as int] as int, before[l - 1] as int);
                        }
                    } else if k == p {
                        assert(g@[l] == before[l - 1]);
                        if l - 1 > p {
                            assert(listed_before(fs, md, before[p as int] as int, before[l - 1] as int));
                            lemma_listed_before(fs, md, i as int, before[p as int] as int, before[l - 1] as int);
                        }
                    } else {
                        assert(g@[k] == before[k - 1] && g@[l] == before[l - 1]);
                    }
                }
                assert forall|j: int| 0 <= j < i + 1 && listed(m, j) && m.files[j].parent@ == dir@ implies #[trigger] g@.contains(j as usize) by {
                    if j == i {
                        assert(g@[p as int] == i);
                    } else {
                        assert(before.contains(j as usize));
                        let k = choose|k: int| 0 <= k < before.len() && before[k] == j as usize;
                        if k < p {
                            assert(g@[k] == j as usize);
                        } else {
                            assert(g@[k + 1] == j as usize);
                        }
                    }
                }
                assert forall|k: int| 0 <= k < g@.len() implies #[trigger] g@[k] < i + 1 && listed(m, g@[k] as int) && m.files[g@[k] as int].parent@ == dir@ by {
                    if k < p {
                        assert(g@[k] == before[k]);
                    } else if k > p {
                        assert(g@[k] == before[k - 1]);
                    }
                }
            }
        }
        i += 1;
    }
    g
}

/// The file list: the listed files grouped by directory (see `is_file_list`).
pub fn file_list(st: &AppState) -> (r: Vec<FileGroup>)
    ensures
        is_file_list(st@, r@),
{
    let dirs = sorted_dirs(st);
    let mut r: Vec<FileGroup> = Vec::new();
    let mut c: usize = 0;
    while c < dirs.len()
        invariant
            c <= dirs@.len(),
            r@.len() == c,
            forall|k: int| 0 <= k < c ==> (#[trigger] r@[k]).dir@ == dirs@[k]@,
            forall|k: int| 0 <= k < c ==> is_group(st@, (#[trigger] r@[k]).dir@, r@[k].files@),
            forall|k: int| 0 <= k < c ==> (#[trigger] r@[k]).files@.len() > 0,
            forall|k: int| 0 <= k < c ==> (#[trigger] r@[k]).short_dir@ == short_dir(r@[k].dir@),
            forall|k: int| 0 <= k < dirs@.len() ==> dir_has_listed(st@, (#[trigger] dirs@[k])@),
        decreases dirs.len() - c,
    {
        let g = group_members(st, &dirs[c]);
        proof {
            let d = dirs@[c as int]@;
            assert(dir_has_listed(st@, d));
            let i = choose|i: int| 0 <= i < st@.files.len() && #[trigger] listed(st@, i) && st@.files[i].parent@ == d;
            assert(g@.contains(i as usize));
        }
        r.push(FileGroup { dir: dirs[c].clone(), short_dir: short_dir_name(dirs[c].as_str()), files: g });
        c += 1;
    }
    proof {
        assert forall|c1: int, d1: int| 0 <= c1 < d1 < r@.len() implies lex_lt((#[trigger] r@[c1]).dir@, (#[trigger] r@[d1]).dir@) by {
            assert(lex_lt(dirs@[c1]@, dirs@[d1]@));
        }
        assert forall|i: int| 0 <= i < st@.files.len() && listed(st@, i) implies exists|k: int| 0 <= k < r@.len() && (#[trigger] r@[k]).dir@ == st@.files[i].parent@ by {
            let k = choose|k: int| 0 <= k < dirs@.len() && (#[trigger] dirs@[k])@ == st@.files[i].parent@;
            assert(r@[k].dir@ == dirs@[k]@);
        }
    }
    r
}

/// The CSS class of a file in the list.
pub open spec fn item_class(selected: bool, mapped: bool) -> Seq<char> {
    "file-item"@ + (if selected { " selected"@ } else { Seq::empty() }) + (if mapped { " mapped"@ } else { Seq::empty() })
}

/// The CSS class of a file in the list: `file-item`, then ` selected` and ` mapped` as they apply.
pub fn file_item_class(selected: bool, mapped: bool) -> (r: String)
    ensures
        r@ == item_class(selected, mapped),
{
    let mut v: Vec<char> = Vec::new();
    push_str_chars(&mut v, "file-item");
    if selected {
        push_str_chars(&mut v, " selected");
    }
    let ghost b = v@;
    if mapped {
        push_str_chars(&mut v, " mapped");
    }
    assert(v@ =~= item_class(selected, mapped));
    string_from(&v)
}

/// Index of the last cluster holding `id`, the one its badge names.
pub open spec fn last_cluster_with(clusters: Seq<Seq<Seq<char>>>, id: Seq<char>) -> Option<int>
    decreases clusters.len(),
{
    if clusters.len() == 0 {
        None
    } else if clusters.last().contains(id) {
        Some(clusters.len() - 1)
    } else {
        last_cluster_with(clusters.drop_last(), id)
    }
}

fn ids_contain(ids: &Vec<String>, id: &str) -> (b: bool)
    ensures
        b == views(ids@).contains(id@),
{
    let mut i: usize = 0;
    while i < ids.len()
        invariant
            i <= ids@.len(),
            forall|k: int| 0 <= k < i ==> (#[trigger] ids@[k])@ != id@,
        decreases ids.len() - i,
    {
        if str_eq(ids[i].as_str(), id) {
            assert(views(ids@)[i as int] == id@);
            return true;
        }
        i += 1;
    }
    assert forall|k: int| 0 <= k < views(ids@).len() implies views(ids@)[k] != id@ by {
        assert(views(ids@)[k] == ids@[k]@);
    }
    false
}

proof fn lemma_last_cluster_with(clusters: Seq<Seq<Seq<char>>>, id: Seq<char>, c: int)
    requires
        0 <= c <= clusters.len(),
        forall|k: int| c <= k < clusters.len() ==> !(#[trigger] clusters[k]).contains(id),
    ensures
        c > 0 && clusters[c - 1].contains(id) ==> last_cluster_with(clusters, id) == Some(c - 1),
        c == 0 ==> last_cluster_with(clusters, id) is None,
    decreases clusters.len() - c,
{
    if c < clusters.len() {
        let p = clusters.drop_last();
        assert forall|k: int| c <= k < p.len() implies !(#[trigger] p[k]).contains(id) by {
            assert(p[k] == clusters[k]);
        }
        assert(clusters[clusters.len() - 1] == clusters.last());
        lemma_last_cluster_with(p, id, c);
        if c > 0 {
            assert(p[c - 1] == clusters[c - 1]);
        }
    }
}

/// The cluster number shown on the badge of file `id`: the last cluster holding it.
pub fn cluster_badge(st: &AppState, id: &str) -> (r: Option<usize>)
    ensures
        match r {
            Some(c) => last_cluster_with(st@.clusters, id@) == Some(c as int),
            None => last_cluster_with(st@.clusters, id@) is None,
        },
{
    let ghost cl = st@.clusters;
    let mut c: usize = st.clusters.len();
    while c > 0
        invariant
            c <= st.clusters@.len(),
            cl == crate::backend::scan::clusters_view(st.clusters@),
            forall|k: int| c <= k < cl.len() ==> !(#[trigger] cl[k]).contains(id@),
        decreases c,
    {
        assert(cl[c - 1] == views(st.clusters@[c - 1]@));
        if ids_contain(&st.clusters[c - 1], id) {
            proof {
                lemma_last_cluster_with(cl, id@, c as int);
            }
            return Some(c - 1);
        }
        c -= 1;
    }
    proof {
        lemma_last_cluster_with(cl, id@, 0);
    }
    None
}

/// The quick-assign feature types.
pub open spec fn special_types() -> Seq<Seq<char>> {
    seq![
        "Behind the Scenes"@,
        "Deleted Scenes"@,
        "Featurette"@,
        "Interview"@,
        "Scene"@,
        "Short"@,
        "Trailer"@,
        "Teaser"@,
        "Theme"@,
    ]
}

/// The quick-assign feature types, in the order the buttons show them.
pub fn special_type_names() -> (r: Vec<String>)
    ensures
        views(r@) == special_types(),
{
    let v = vec![
        "Behind the Scenes".to_owned(),
        "Deleted Scenes".to_owned(),
        "Featurette".to_owned(),
        "Interview".to_owned(),
        "Scene".to_owned(),
        "Short".to_owned(),
        "Trailer".to_owned(),
        "Teaser".to_owned(),
        "Theme".to_owned(),
    ];
    assert(views(v@) =~= special_types());
    v
}

fn mapping_named(name: Vec<char>, kind: MappingKind) -> (m: Mapping)
    ensures
        m.new_name@ == name@,
        m.label@ == name@,
        m.kind == kind,
{
    Mapping { new_name: string_from(&name), label: string_from(&name), kind }
}

/// The mapping of a file to a feature type: `stem - kind` as name and label.
pub fn special_mapping(stem: &str, kind: &str) -> (m: Mapping)
    ensures
        m.new_name@ == stem@ + " - "@ + kind@,
        m.label@ == m.new_name@,
        m.kind == MappingKind::Special,
{
    let mut v = chars_of(stem);
    push_str_chars(&mut v, " - ");
    push_str_chars(&mut v, kind);
    mapping_named(v, MappingKind::Special)
}

/// The mapping of a file to a film: its title, followed by ` (year)` when the year is known.
pub fn movie_mapping(title: &str, year: &str) -> (m: Mapping)
    ensures
        m.new_name@ == if year@.len() == 0 { title@ } else { title@ + " ("@ + year@ + ")"@ },
        m.label@ == m.new_name@,
        m.kind == MappingKind::Movie,
{
    let mut v = chars_of(title);
    if !year.is_empty() {
        push_str_chars(&mut v, " (");
        push_str_chars(&mut v, year);
        push_str_chars(&mut v, ")");
    }
    mapping_named(v, MappingKind::Movie)
}

/// The mapping of a file to an episode: the episode's file name stem and label.
pub fn episode_mapping(ep: &EpisodeResult) -> (m: Mapping)
    ensures
        m.new_name@ == ep.filename_stem@,
        m.label@ == ep.label@,
        m.kind == MappingKind::Episode,
{
    Mapping { new_name: ep.filename_stem.clone(), label: ep.label.clone(), kind: MappingKind::Episode }
}

/// The mapping of a file to a disc feature: its title as name and label.
pub fn feature_mapping(title: &str) -> (m: Mapping)
    ensures
        m.new_name@ == title@,
        m.label@ == title@,
        m.kind == MappingKind::Feature,
{
    mapping_named(chars_of(title), MappingKind::Feature)
}

/// Position of the first file with id `id`.
pub open spec fn first_file_with(files: Seq<VideoFile>, id: Seq<char>) -> Option<int>
    decreases files.len(),
{
    if files.len() == 0 {
        None
    } else if files[0].id@ == id {
        Some(0)
    } else {
        match first_file_with(files.drop_first(), id) {
            Some(k) => Some(k + 1),
            None => None,
        }
    }
}

proof fn lemma_first_file_with(files: Seq<VideoFile>, id: Seq<char>, i: int)
    requires
        0 <= i <= files.len(),
        forall|k: int| 0 <= k < i ==> (#[trigger] files[k]).id@ != id,
    ensures
        i < files.len() && files[i].id@ == id ==> first_file_with(files, id) == Some(i),
        i == files.len() ==> first_file_with(files, id) is None,
    decreases i,
{
    if i > 0 {
        let t = files.drop_first();
        assert forall|k: int| 0 <= k < i - 1 implies (#[trigger] t[k]).id@ != id by {
            assert(t[k] == files[k + 1]);
        }
        lemma_first_file_with(t, id, i - 1);
    }
}

/// Position of the first file with id `id`.
pub fn find_file(files: &Vec<VideoFile>, id: &str) -> (r: Option<usize>)
    ensures
        match r {
            Some(i) => first_file_with(files@, id@) == Some(i as int),
            None => first_file_with(files@, id@) is None,
        },
{
    let mut i: usize = 0;
    while i < files.len()
        invariant
            i <= files@.len(),
            forall|k: int| 0 <= k < i ==> (#[trigger] files@[k]).id@ != id@,
        decreases files.len() - i,
    {
        if str_eq(files[i].id.as_str(), id) {
            proof {
                lemma_first_file_with(files@, id@, i as int);
            }
            return Some(i);
        }
        i += 1;
    }
    proof {
        lemma_first_file_with(files@, id@, i as int);
    }
    None
}

/// The other files of the first cluster holding `id`, found by their ids, in cluster order
/// (ids with no file are skipped).
pub open spec fn sibling_files(files: Seq<VideoFile>, cluster: Seq<Seq<char>>, id: Seq<char>) -> Seq<int>
    decreases cluster.len(),
{
    if cluster.len() == 0 {
        Seq::empty()
    } else {
        let k = sibling_files(files, cluster.drop_last(), id);
        let x = cluster.last();
        if x == id {
            k
        } else {
            match first_file_with(files, x) {
                Some(j) => k.push(j),
                None => k,
            }
        }
    }
}

/// The cluster of file `id` and the positions of the other files in it.
pub fn cluster_siblings(st: &AppState, id: &str) -> (r: Option<(usize, Vec<usize>)>)
    ensures
        match r {
            Some((c, sib)) => first_cluster_with(st@.clusters, id@) == Some(c as int)
                && sib@.map_values(|j: usize| j as int) == sibling_files(st@.files, st@.clusters[c as int], id@),
            None => first_cluster_with(st@.clusters, id@) is None,
        },
{
    match st.cluster_index(id) {
        None => None,
        Some(c) => {
            proof {
                crate::frontend::state::lemma_first_cluster_with_bound(st@.clusters, id@);
            }
            let cl = &st.clusters[c];
            let ghost cv = st@.clusters[c as int];
            assert(cv == views(cl@));
            let mut sib: Vec<usize> = Vec::new();
            let mut i: usize = 0;
            while i < cl.len()
                invariant
                    i <= cl@.len(),
                    cv == views(cl@),
                    sib@.map_values(|j: usize| j as int) == sibling_files(st@.files, cv.take(i as int), id@),
                decreases cl.len() - i,
            {
                assert(cv.take(i + 1).drop_last() =~= cv.take(i as int));
                assert(cv.take(i + 1).last() == cl@[i as int]@);
                if !str_eq(cl[i].as_str(), id) {
                    match find_file(&st.files, cl[i].as_str()) {
                        Some(j) => {
                            let ghost before = sib@;
                            sib.push(j);
                            assert(sib@.map_values(|j: usize| j as int) =~= before.map_values(|j: usize| j as int).push(j as int));
                        },
                        None => {},
                    }
                }
                i += 1;
            }
            assert(cv.take(cl@.len() as int) =~= cv);
            Some((c, sib))
        },
    }
}

/// Decimal notation of a signed number.
pub open spec fn signed_decimal(n: int) -> Seq<char> {
    if n < 0 {
        seq!['-'] + decimal((-n) as nat)
    } else {
        decimal(n as nat)
    }
}

fn push_signed(v: &mut Vec<char>, n: i64)
    ensures
        final(v)@ == old(v)@ + signed_decimal(n as int),
{
    if n < 0 {
        v.push('-');
        let mag: u64 = (-(n as i128)) as u64;
        push_decimal(v, mag);
        assert(final(v)@ =~= old(v)@ + signed_decimal(n as int));
    } else {
        push_decimal(v, n as u64);
    }
}

/// How one audio track is described: language (or `?`), codec, and channels.
pub open spec fn track_text(a: AudioStream) -> Seq<char> {
    (if a.language@.len() == 0 { "?"@ } else { a.language@ }) + " "@ + a.codec@ + " "@ + signed_decimal(a.channels as int) + "ch"@
}

/// The audio line of a file: `Audio: ` and its tracks joined by ` · `, when it has any.
pub fn audio_summary(file: &VideoFile) -> (r: Option<String>)
    ensures
        match r {
            Some(s) => file.audio_streams@.len() > 0 && s@ == "Audio: "@ + join(file.audio_streams@.map_values(|a: AudioStream| track_text(a)), " · "@),
            None => file.audio_streams@.len() == 0,
        },
{
    if file.audio_streams.len() == 0 {
        return None;
    }
    let ghost tracks = file.audio_streams@.map_values(|a: AudioStream| track_text(a));
    let mut v: Vec<char> = Vec::new();
    push_str_chars(&mut v, "Audio: ");
    let mut body: Vec<char> = Vec::new();
    let mut i: usize = 0;
    while i < file.audio_streams.len()
        invariant
            i <= file.audio_streams@.len(),
            tracks == file.audio_streams@.map_values(|a: AudioStream| track_text(a)),
            body@ == join(tracks.take(i as int), " · "@),
        decreases file.audio_streams.len() - i,
    {
        let a = &file.audio_streams[i];
        if i > 0 {
            push_str_chars(&mut body, " · ");
        }
        let ghost b0 = body@;
        if a.language.as_str().is_empty() {
            push_str_chars(&mut body, "?");
        } else {
            push_str_chars(&mut body, a.language.as_str());
        }
        push_str_chars(&mut body, " ");
        push_str_chars(&mut body, a.codec.as_str());
        push_str_chars(&mut body, " ");
        push_signed(&mut body, a.channels);
        push_str_chars(&mut body, "ch");
        assert(body@ =~= b0 + track_text(*a));
        assert(tracks.take(i + 1).drop_last() =~= tracks.take(i as int));
        assert(tracks.take(i + 1).last() == track_text(*a));
        i += 1;
    }
    assert(tracks.take(file.audio_streams@.len() as int) =~= tracks);
    push_all(&mut v, &body);
    Some(string_from(&v))
}

/// How many results report success.
pub open spec fn successes(rs: Seq<RenameResult>) -> nat
    decreases rs.len(),
{
    if rs.len() == 0 {
        0
    } else {
        successes(rs.drop_last()) + if rs.last().success { 1nat } else { 0nat }
    }
}

/// The status line after renaming: how many files were renamed and, when any failed, how many.
pub open spec fn rename_status_text(rs: Seq<RenameResult>) -> Seq<char> {
    let ok = successes(rs);
    let fail = (rs.len() - ok) as nat;
    "Renamed "@ + decimal(ok) + " files"@ + if fail > 0 { ", "@ + decimal(fail) + " failed"@ } else { Seq::empty() }
}

proof fn lemma_successes_bound(rs: Seq<RenameResult>)
    ensures
        successes(rs) <= rs.len(),
    decreases rs.len(),
{
    if rs.len() > 0 {
        lemma_successes_bound(rs.drop_last());
    }
}

proof fn lemma_successes_count(rs: Seq<RenameResult>)
    ensures
        successes(rs) == rs.filter(|r: RenameResult| r.success).len(),
        rs.len() - successes(rs) == rs.filter(|r: RenameResult| !r.success).len(),
    decreases rs.len(),
{
    reveal(Seq::filter);
    if rs.len() > 0 {
        lemma_successes_count(rs.drop_last());
    }
}

/// The status line counts as renamed every result that reports success, whether or not the
/// file was skipped as already in place, and as failed every result that does not.
pub proof fn lemma_rename_status_counts(rs: Seq<RenameResult>)
    ensures
        rename_status_text(rs) == "Renamed "@ + decimal(rs.filter(|r: RenameResult| r.success).len()) + " files"@
            + if rs.filter(|r: RenameResult| !r.success).len() > 0 {
            ", "@ + decimal(rs.filter(|r: RenameResult| !r.success).len()) + " failed"@
        } else {
            Seq::empty()
        },
{
    lemma_successes_count(rs);
}

/// The status line after renaming (see `rename_status_text`).
pub fn rename_status(results: &Vec<RenameResult>) -> (r: String)
    ensures
        r@ == rename_status_text(results@),
        r@ == "Renamed "@ + decimal(results@.filter(|x: RenameResult| x.success).len()) + " files"@
            + if results@.filter(|x: RenameResult| !x.success).len() > 0 {
            ", "@ + decimal(results@.filter(|x: RenameResult| !x.success).len()) + " failed"@
        } else {
            Seq::empty()
        },
{
    proof {
        lemma_rename_status_counts(results@);
    }
    let mut ok: usize = 0;
    let mut i: usize = 0;
    while i < results.len()
        invariant
            i <= results@.len(),
            ok == successes(results@.take(i as int)),
        decreases results.len() - i,
    {
        proof {
            lemma_successes_bound(results@.take(i as int));
        }
        assert(results@.take(i + 1).drop_last() =~= results@.take(i as int));
        if results[i].success {
            ok += 1;
        }
        i += 1;
    }
    assert(results@.take(results.len() as int) =~= results@);
    proof {
        lemma_successes_bound(results@);
    }
    let fail = results.len() - ok;
    let mut v: Vec<char> = Vec::new();
    push_str_chars(&mut v, "Renamed ");
    push_decimal(&mut v, ok as u64);
    push_str_chars(&mut v, " files");
    if fail > 0 {
        push_str_chars(&mut v, ", ");
        push_decimal(&mut v, fail as u64);
        push_str_chars(&mut v, " failed");
    }
    assert(v@ =~= rename_status_text(results@));
    string_from(&v)
}

/// A row of the results tab: a show or a film, by position in its list.
#[derive(PartialEq, Eq, Structural, Clone, Copy, Debug)]
pub enum ResultEntry {
    Show(usize),
    Movie(usize),
}

/// The rows of the results tab: shows and films interleaved, the show before the film at
/// each position, until both lists are exhausted.
pub open spec fn interleaved(tv: nat, movies: nat, n: nat) -> Seq<ResultEntry>
    decreases n,
{
    if n == 0 {
        Seq::empty()
    } else {
        let i = (n - 1) as nat;
        interleaved(tv, movies, i) + (if i < tv { seq![ResultEntry::Show(i as usize)] } else { Seq::empty() }) + (if i
            < movies { seq![ResultEntry::Movie(i as usize)] } else { Seq::empty() })
    }
}

/// The rows of the results tab for `tv` shows and `movies` films (see `interleaved`).
pub fn result_rows(tv: usize, movies: usize) -> (r: Vec<ResultEntry>)
    ensures
        r@ == interleaved(tv as nat, movies as nat, if tv < movies { movies as nat } else { tv as nat }),
{
    let max = if tv < movies { movies } else { tv };
    let mut r: Vec<ResultEntry> = Vec::new();
    let mut i: usize = 0;
    while i < max
        invariant
            i <= max,
            max == if tv < movies { movies } else { tv },
            r@ == interleaved(tv as nat, movies as nat, i as nat),
        decreases max - i,
    {
        if i < tv {
            r.push(ResultEntry::Show(i));
        }
        if i < movies {
            r.push(ResultEntry::Movie(i));
        }
        assert(r@ =~= interleaved(tv as nat, movies as nat, (i + 1) as nat));
        i += 1;
    }
    r
}

/// The number of scanned files without a pending rename, as the stats bar shows it.
pub fn remaining_count(st: &AppState) -> (r: usize)
    requires
        st@.mappings.len() <= st@.files.len(),
    ensures
        r == st@.files.len() - st@.mappings.len(),
{
    st.files.len() - st.mapped_count()
}

/// The title shown for a file: its container title, or `—` when it has none.
pub fn title_text(file: &VideoFile) -> (r: String)
    ensures
        r@ == if file.title@.len() == 0 { "—"@ } else { file.title@ },
{
    if file.title.as_str().is_empty() {
        "—".to_owned()
    } else {
        file.title.clone()
    }
}

/// The code of an episode: `S` and `E` followed by two-digit numbers.
pub fn episode_code(season: u64, episode: u64) -> (r: String)
    ensures
        r@ == "S"@ + decimal2(season as nat) + "E"@ + decimal2(episode as nat),
{
    let mut v: Vec<char> = Vec::new();
    push_str_chars(&mut v, "S");
    push_decimal2(&mut v, season);
    push_str_chars(&mut v, "E");
    push_decimal2(&mut v, episode);
    string_from(&v)
}

/// The running times of a disc feature, joined by `, `.
pub fn timecodes_text(f: &DvdFeature) -> (r: String)
    ensures
        r@ == join(views(f.timecodes@), ", "@),
{
    string_from(&crate::text::join_strings(&f.timecodes, ", "))
}

} // verus!
