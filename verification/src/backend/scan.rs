//! Grouping scanned files by running time.
use vstd::prelude::*;
use crate::text::{chars_of, lemma_lex_lt_total, lemma_lex_lt_transitive, lex_lt, lowercase, opt_view, str_eq, str_lt, to_lowercase, views};
use crate::paths::{file_name_of, file_stem_of, parent_of, path_extension, path_file_name, path_file_stem, path_parent, path_strip_prefix, strip_prefix_of, extension_of};
use crate::backend::types::{ScanResponse, VideoFile};
use crate::backend::ffprobe::ProbeResult;
use crate::backend::error::AppError;
use crate::text::{push_str_chars, string_from};

verus! {

/// Two files whose running times differ by at most this many microseconds (ten seconds)
/// are taken to be of similar length.
pub const TOLERANCE_US: u64 = 10_000_000;

/// File `i` comes before file `j` in duration order: shorter first, and among files of
/// equal length the one listed first.
pub open spec fn before(files: Seq<VideoFile>, i: int, j: int) -> bool {
    ||| files[i].duration_us < files[j].duration_us
    ||| (files[i].duration_us == files[j].duration_us && i < j)
}

/// `ord` lists the positions of exactly the files with a positive duration, each once,
/// in duration order (a stable sort by duration).
pub open spec fn is_duration_order(files: Seq<VideoFile>, ord: Seq<usize>) -> bool {
    &&& forall|k: int|
        0 <= k < ord.len() ==> #[trigger] ord[k] < files.len() && files[ord[k] as int].duration_us
            > 0
    &&& forall|i: int|
        0 <= i < files.len() && files[i].duration_us > 0 ==> #[trigger] ord.contains(i as usize)
    &&& forall|k: int, l: int|
        0 <= k < l < ord.len() ==> before(files, #[trigger] ord[k] as int, #[trigger] ord[l] as int)
}

/// Index of the first entry of `o`, from `k` on, whose file is longer than `d`
/// (or the length of `o` when there is none).
pub open spec fn first_longer(files: Seq<VideoFile>, o: Seq<usize>, d: u64, k: int) -> int
    decreases o.len() - k,
{
    if k >= o.len() {
        o.len() as int
    } else if files[o[k] as int].duration_us > d {
        k
    } else {
        first_longer(files, o, d, k + 1)
    }
}

/// The positions of the files with a positive duration among the first `n`, sorted by
/// inserting each after every file not longer than it.
pub open spec fn positions_upto(files: Seq<VideoFile>, n: int) -> Seq<usize>
    decreases n,
{
    if n <= 0 {
        Seq::empty()
    } else {
        let o = positions_upto(files, n - 1);
        if files[n - 1].duration_us > 0 {
            o.insert(first_longer(files, o, files[n - 1].duration_us, 0), (n - 1) as usize)
        } else {
            o
        }
    }
}

/// The duration order of `files`; `lemma_duration_order_unique` shows that it is the only
/// sequence for which `is_duration_order` holds.
pub open spec fn duration_order(files: Seq<VideoFile>) -> Seq<usize> {
    positions_upto(files, files.len() as int)
}

/// Position of the first file whose id is `id`.
pub open spec fn find_id(files: Seq<VideoFile>, id: Seq<char>) -> Option<int>
    decreases files.len(),
{
    if files.len() == 0 {
        None
    } else if files[0].id@ == id {
        Some(0)
    } else {
        match find_id(files.drop_first(), id) {
            Some(k) => Some(k + 1),
            None => None,
        }
    }
}

/// The duration of the first file whose id is `id`, or zero when there is none.
pub open spec fn duration_of_id(files: Seq<VideoFile>, id: Seq<char>) -> int {
    match find_id(files, id) {
        Some(k) => files[k].duration_us as int,
        None => 0,
    }
}

/// Whether two durations are within the tolerance of each other.
pub open spec fn similar(a: int, b: int) -> bool {
    -(TOLERANCE_US as int) <= a - b <= TOLERANCE_US as int
}

/// The finished clusters and the cluster being grown.
pub type ClusterProgress = (Seq<Seq<Seq<char>>>, Seq<Seq<char>>);

/// Takes the next file in duration order: it joins the current cluster when its duration is
/// similar to that of the cluster's last file, and otherwise starts a new one, the old one
/// being kept only when it has at least two files.
pub open spec fn cluster_step(files: Seq<VideoFile>, st: ClusterProgress, i: int) -> ClusterProgress {
    let id = files[i].id@;
    if st.1.len() > 0 {
        if similar(files[i].duration_us as int, duration_of_id(files, st.1.last())) {
            (st.0, st.1.push(id))
        } else {
            (if st.1.len() > 1 { st.0.push(st.1) } else { st.0 }, seq![id])
        }
    } else {
        (st.0, seq![id])
    }
}

/// The progress after taking the files of `ord` in turn.
pub open spec fn cluster_fold(files: Seq<VideoFile>, ord: Seq<usize>) -> ClusterProgress
    decreases ord.len(),
{
    if ord.len() == 0 {
        (Seq::empty(), Seq::empty())
    } else {
        cluster_step(files, cluster_fold(files, ord.drop_last()), ord.last() as int)
    }
}

/// The clusters formed from the files of `ord`, taken in turn.
pub open spec fn clusters_of(files: Seq<VideoFile>, ord: Seq<usize>) -> Seq<Seq<Seq<char>>> {
    let st = cluster_fold(files, ord);
    if st.1.len() > 1 {
        st.0.push(st.1)
    } else {
        st.0
    }
}

/// The clusters of `files`: those taken in duration order.
pub open spec fn duration_clusters(files: Seq<VideoFile>) -> Seq<Seq<Seq<char>>> {
    clusters_of(files, duration_order(files))
}

/// The view of a list of clusters of ids.
pub open spec fn clusters_view(v: Seq<Vec<String>>) -> Seq<Seq<Seq<char>>> {
    v.map_values(|c: Vec<String>| views(c@))
}

proof fn lemma_find_id_at(files: Seq<VideoFile>, id: Seq<char>, i: int)
    requires
        0 <= i <= files.len(),
        forall|k: int| 0 <= k < i ==> (#[trigger] files[k]).id@ != id,
    ensures
        i < files.len() && files[i].id@ == id ==> find_id(files, id) == Some(i),
        i == files.len() ==> find_id(files, id) is None,
    decreases i,
{
    if i > 0 {
        let t = files.drop_first();
        assert forall|k: int| 0 <= k < i - 1 implies (#[trigger] t[k]).id@ != id by {
            assert(t[k] == files[k + 1]);
        }
        lemma_find_id_at(t, id, i - 1);
    } else if files.len() > 0 {
        if i == files.len() {
        } else if files[0].id@ != id {
        }
    }
}

/// Duration of the first file whose id is `id`, or zero.
fn lookup_duration(files: &[VideoFile], id: &String) -> (d: u64)
    ensures
        d == duration_of_id(files@, id@),
{
    let mut i: usize = 0;
    while i < files.len()
        invariant
            i <= files.len(),
            forall|k: int| 0 <= k < i ==> (#[trigger] files@[k]).id@ != id@,
        decreases files.len() - i,
    {
        if files[i].id == *id {
            proof {
                lemma_find_id_at(files@, id@, i as int);
            }
            return files[i].duration_us;
        }
        i += 1;
    }
    proof {
        lemma_find_id_at(files@, id@, i as int);
    }
    0
}

/// `o` is a duration order of the files with a positive duration among the first `n`.
spec fn is_prefix_order(files: Seq<VideoFile>, o: Seq<usize>, n: int) -> bool {
    &&& forall|k: int| 0 <= k < o.len() ==> #[trigger] o[k] < n && files[o[k] as int].duration_us > 0
    &&& forall|j: int| 0 <= j < n && files[j].duration_us > 0 ==> #[trigger] o.contains(j as usize)
    &&& forall|k: int, l: int|
        0 <= k < l < o.len() ==> before(files, #[trigger] o[k] as int, #[trigger] o[l] as int)
}

proof fn lemma_first_longer(files: Seq<VideoFile>, o: Seq<usize>, d: u64, k: int, p: int)
    requires
        0 <= k <= p <= o.len(),
        forall|m: int| k <= m < p ==> files[(#[trigger] o[m]) as int].duration_us <= d,
        p == o.len() || files[o[p] as int].duration_us > d,
    ensures
        first_longer(files, o, d, k) == p,
    decreases p - k,
{
    if k < p {
        lemma_first_longer(files, o, d, k + 1, p);
    }
}

proof fn lemma_first_longer_bounds(files: Seq<VideoFile>, o: Seq<usize>, d: u64, k: int)
    requires
        0 <= k <= o.len(),
        forall|m: int| 0 <= m < k ==> files[(#[trigger] o[m]) as int].duration_us <= d,
    ensures
        k <= first_longer(files, o, d, k) <= o.len(),
        forall|m: int| 0 <= m < first_longer(files, o, d, k) ==> files[(#[trigger] o[m]) as int].duration_us <= d,
        first_longer(files, o, d, k) < o.len() ==> files[o[first_longer(files, o, d, k)] as int].duration_us > d,
    decreases o.len() - k,
{
    if k < o.len() && files[o[k] as int].duration_us <= d {
        lemma_first_longer_bounds(files, o, d, k + 1);
    }
}

proof fn lemma_positions_upto(files: Seq<VideoFile>, n: int)
    requires
        0 <= n <= files.len(),
        files.len() <= usize::MAX,
    ensures
        is_prefix_order(files, positions_upto(files, n), n),
    decreases n,
{
    if n > 0 {
        lemma_positions_upto(files, n - 1);
        let o = positions_upto(files, n - 1);
        let i = n - 1;
        let d = files[i].duration_us;
        if d > 0 {
            lemma_first_longer_bounds(files, o, d, 0);
            let p = first_longer(files, o, d, 0);
            let r = o.insert(p, i as usize);
            assert(r == positions_upto(files, n));
            assert forall|k: int| p <= k < o.len() implies files[(#[trigger] o[k]) as int].duration_us > d by {
                if k > p {
                    assert(before(files, o[p] as int, o[k] as int));
                }
            }
            assert forall|k: int| 0 <= k < r.len() implies #[trigger] r[k] < n && files[r[k] as int].duration_us > 0 by {
                if k < p {
                    assert(r[k] == o[k]);
                } else if k > p {
                    assert(r[k] == o[k - 1]);
                }
            }
            assert forall|j: int| 0 <= j < n && files[j].duration_us > 0 implies #[trigger] r.contains(j as usize) by {
                if j == i {
                    assert(r[p] == i as usize);
                } else {
                    assert(o.contains(j as usize));
                    let k = choose|k: int| 0 <= k < o.len() && o[k] == j as usize;
                    if k < p {
                        assert(r[k] == j as usize);
                    } else {
                        assert(r[k + 1] == j as usize);
                    }
                }
            }
            assert forall|k: int, l: int| 0 <= k < l < r.len() implies before(files, #[trigger] r[k] as int, #[trigger] r[l] as int) by {
                if k < p && l < p {
                    assert(before(files, o[k] as int, o[l] as int));
                } else if k < p && l == p {
                    assert(files[(o[k]) as int].duration_us <= d);
                } else if k < p {
                    assert(before(files, o[k] as int, o[l - 1] as int));
                } else if k == p {
                    assert(files[(o[l - 1]) as int].duration_us > d);
                } else {
                    assert(before(files, o[k - 1] as int, o[l - 1] as int));
                }
            }
        }
    }
}

/// The duration order of any list of files is one in the sense of `is_duration_order`.
pub proof fn lemma_duration_order_is_one(files: Seq<VideoFile>)
    requires
        files.len() <= usize::MAX,
    ensures
        is_duration_order(files, duration_order(files)),
{
    lemma_positions_upto(files, files.len() as int);
}

/// Positions of the files with a positive duration, in duration order.
fn duration_sorted_positions(files: &[VideoFile]) -> (ord: Vec<usize>)
    ensures
        ord@ == duration_order(files@),
{
    let mut ord: Vec<usize> = Vec::new();
    let mut i: usize = 0;
    while i < files.len()
        invariant
            i <= files.len(),
            ord@ == positions_upto(files@, i as int),
        decreases files.len() - i,
    {
        proof {
            lemma_positions_upto(files@, i as int);
        }
        let d = files[i].duration_us;
        if d > 0 {
            let mut p: usize = 0;
            while p < ord.len() && files[ord[p]].duration_us <= d
                invariant
                    p <= ord.len(),
                    i < files.len(),
                    d == files@[i as int].duration_us,
                    is_prefix_order(files@, ord@, i as int),
                    forall|k: int| 0 <= k < p ==> files@[(#[trigger] ord@[k]) as int].duration_us <= d,
                decreases ord.len() - p,
            {
                p += 1;
            }
            proof {
                lemma_first_longer(files@, ord@, d, 0, p as int);
            }
            ord.insert(p, i);
        }
        i += 1;
    }
    ord
}

/// Two sequences in duration order of the same files are equal.
pub proof fn lemma_duration_order_unique(files: Seq<VideoFile>, o1: Seq<usize>, o2: Seq<usize>)
    requires
        is_duration_order(files, o1),
        is_duration_order(files, o2),
    ensures
        o1 == o2,
{
    assert forall|x: usize| o1.contains(x) <==> o2.contains(x) by {
        if o1.contains(x) {
            let k = choose|k: int| 0 <= k < o1.len() && o1[k] == x;
            assert(o1[k] < files.len());
            assert(o2.contains((x as int) as usize));
        }
        if o2.contains(x) {
            let k = choose|k: int| 0 <= k < o2.len() && o2[k] == x;
            assert(o2[k] < files.len());
            assert(o1.contains((x as int) as usize));
        }
    }
    lemma_sorted_same_elements_equal(files, o1, o2);
}

proof fn lemma_sorted_same_elements_equal(files: Seq<VideoFile>, o1: Seq<usize>, o2: Seq<usize>)
    requires
        forall|k: int| 0 <= k < o1.len() ==> #[trigger] o1[k] < files.len(),
        forall|k: int| 0 <= k < o2.len() ==> #[trigger] o2[k] < files.len(),
        forall|k: int, l: int|
            0 <= k < l < o1.len() ==> before(files, #[trigger] o1[k] as int, #[trigger] o1[l] as int),
        forall|k: int, l: int|
            0 <= k < l < o2.len() ==> before(files, #[trigger] o2[k] as int, #[trigger] o2[l] as int),
        forall|x: usize| o1.contains(x) <==> o2.contains(x),
    ensures
        o1 == o2,
    decreases o1.len(),
{
    if o1.len() == 0 {
        if o2.len() > 0 {
            assert(o2.contains(o2[0]));
        }
        assert(o1 =~= o2);
    } else {
        assert(o1.contains(o1[0]));
        assert(o2.len() > 0);
        assert(o2.contains(o2[0]));
        let k = choose|k: int| 0 <= k < o1.len() && o1[k] == o2[0];
        let m = choose|m: int| 0 <= m < o2.len() && o2[m] == o1[0];
        if k > 0 && m > 0 {
            assert(before(files, o1[0] as int, o1[k] as int));
            assert(before(files, o2[0] as int, o2[m] as int));
            assert(false);
        }
        assert(o1[0] == o2[0]);
        let t1 = o1.drop_first();
        let t2 = o2.drop_first();
        assert forall|x: usize| t1.contains(x) <==> t2.contains(x) by {
            if t1.contains(x) {
                let a = choose|a: int| 0 <= a < t1.len() && t1[a] == x;
                assert(o1[a + 1] == x);
                assert(before(files, o1[0] as int, o1[a + 1] as int));
                assert(o1.contains(x));
                let b = choose|b: int| 0 <= b < o2.len() && o2[b] == x;
                assert(b != 0);
                assert(t2[b - 1] == x);
            }
            if t2.contains(x) {
                let a = choose|a: int| 0 <= a < t2.len() && t2[a] == x;
                assert(o2[a + 1] == x);
                assert(before(files, o2[0] as int, o2[a + 1] as int));
                assert(o2.contains(x));
                let b = choose|b: int| 0 <= b < o1.len() && o1[b] == x;
                assert(b != 0);
                assert(t1[b - 1] == x);
            }
        }
        assert forall|a: int, b: int| 0 <= a < b < t1.len() implies before(files, #[trigger] t1[a] as int, #[trigger] t1[b] as int) by {
            assert(before(files, o1[a + 1] as int, o1[b + 1] as int));
        }
        assert forall|a: int, b: int| 0 <= a < b < t2.len() implies before(files, #[trigger] t2[a] as int, #[trigger] t2[b] as int) by {
            assert(before(files, o2[a + 1] as int, o2[b + 1] as int));
        }
        lemma_sorted_same_elements_equal(files, t1, t2);
        assert(o1 =~= seq![o1[0]] + t1);
        assert(o2 =~= seq![o2[0]] + t2);
    }
}


/// Groups files of similar running time. Files without a positive duration are left out;
/// the rest are taken shortest first (files of equal length in the order given), and each
/// file joins the group of the file taken just before it when the duration of that file
/// (the first file with its id) is within `TOLERANCE_US` of its own. Only groups of at
/// least two files are returned, as lists of file ids.
pub fn cluster_by_duration(files: &[VideoFile]) -> (clusters: Vec<Vec<String>>)
    ensures
        clusters_view(clusters@) == duration_clusters(files@),
{
    let ord = duration_sorted_positions(files);
    let n = files.len();
    proof {
        assert(files@.len() == n);
        lemma_duration_order_is_one(files@);
    }
    let mut clusters: Vec<Vec<String>> = Vec::new();
    let mut current: Vec<String> = Vec::new();
    let mut k: usize = 0;
    while k < ord.len()
        invariant
            k <= ord.len(),
            is_duration_order(files@, ord@),
            (clusters_view(clusters@), views(current@)) == cluster_fold(files@, ord@.take(k as int)),
        decreases ord.len() - k,
    {
        let i = ord[k];
        assert(ord@[k as int] < files@.len());
        assert(ord@.take(k + 1).drop_last() =~= ord@.take(k as int));
        let ghost st = cluster_fold(files@, ord@.take(k as int));
        let ghost id = files@[i as int].id@;
        let d = files[i].duration_us;
        if current.len() > 0 {
            let last_dur = lookup_duration(files, &current[current.len() - 1]);
            assert(views(current@).last() == current@.last()@);
            let diff = if d >= last_dur { d - last_dur } else { last_dur - d };
            if diff <= TOLERANCE_US {
                let ghost before_cur = current@;
                current.push(files[i].id.clone());
                assert(views(current@) =~= views(before_cur).push(id));
            } else {
                if current.len() > 1 {
                    let ghost before_cl = clusters@;
                    clusters.push(current);
                    assert(clusters_view(clusters@) =~= clusters_view(before_cl).push(st.1));
                }
                current = Vec::new();
                current.push(files[i].id.clone());
                assert(views(current@) =~= seq![id]);
            }
        } else {
            current.push(files[i].id.clone());
            assert(views(current@) =~= seq![id]);
        }
        k += 1;
    }
    assert(ord@.take(ord.len() as int) =~= ord@);
    if current.len() > 1 {
        let ghost before_cl = clusters@;
        let ghost cur = views(current@);
        clusters.push(current);
        assert(clusters_view(clusters@) =~= clusters_view(before_cl).push(cur));
    }
    clusters
}

/// `id` is the id of some file with a positive duration.
pub open spec fn is_timed_file_id(files: Seq<VideoFile>, id: Seq<char>) -> bool {
    exists|i: int| 0 <= i < files.len() && files[i].duration_us > 0 && #[trigger] files[i].id@ == id
}

/// No two files share an id.
pub open spec fn unique_ids(files: Seq<VideoFile>) -> bool {
    forall|i: int, j: int|
        0 <= i < files.len() && 0 <= j < files.len() && i != j ==> (#[trigger] files[i]).id@
            != (#[trigger] files[j]).id@
}

/// Along the cluster `c` durations never fall and each rises by at most the tolerance.
pub open spec fn is_duration_chain(files: Seq<VideoFile>, c: Seq<Seq<char>>) -> bool {
    forall|j: int|
        0 <= j < c.len() - 1 ==> duration_of_id(files, #[trigger] c[j]) <= duration_of_id(files, c[j + 1])
            <= duration_of_id(files, c[j]) + TOLERANCE_US
}

proof fn lemma_fold_shape(files: Seq<VideoFile>, ord: Seq<usize>)
    requires
        forall|k: int| 0 <= k < ord.len() ==> #[trigger] ord[k] < files.len() && files[ord[k] as int].duration_us > 0,
    ensures
        forall|c: int| 0 <= c < cluster_fold(files, ord).0.len() ==> (#[trigger] cluster_fold(files, ord).0[c]).len() >= 2,
        forall|c: int, j: int|
            0 <= c < cluster_fold(files, ord).0.len() && 0 <= j < cluster_fold(files, ord).0[c].len()
                ==> is_timed_file_id(files, #[trigger] cluster_fold(files, ord).0[c][j]),
        forall|j: int|
            0 <= j < cluster_fold(files, ord).1.len() ==> is_timed_file_id(files, #[trigger] cluster_fold(files, ord).1[j]),
        ord.len() > 0 ==> cluster_fold(files, ord).1.len() > 0,
    decreases ord.len(),
{
    if ord.len() > 0 {
        let p = ord.drop_last();
        assert forall|k: int| 0 <= k < p.len() implies #[trigger] p[k] < files.len() && files[p[k] as int].duration_us > 0 by {
            assert(p[k] == ord[k]);
        }
        lemma_fold_shape(files, p);
        let i = ord.last() as int;
        assert(ord[ord.len() - 1] == ord.last());
        assert(is_timed_file_id(files, files[i].id@));
        let st = cluster_fold(files, p);
        let nx = cluster_fold(files, ord);
        assert forall|j: int| 0 <= j < nx.1.len() implies is_timed_file_id(files, #[trigger] nx.1[j]) by {
            if j < st.1.len() && nx.1.len() > 1 {
                assert(nx.1[j] == st.1[j]);
            }
        }
        assert forall|c: int, j: int| 0 <= c < nx.0.len() && 0 <= j < nx.0[c].len()
            implies is_timed_file_id(files, #[trigger] nx.0[c][j]) by {
            if c < st.0.len() {
                assert(nx.0[c] == st.0[c]);
            } else {
                assert(nx.0[c] == st.1);
            }
        }
        assert forall|c: int| 0 <= c < nx.0.len() implies (#[trigger] nx.0[c]).len() >= 2 by {
            if c < st.0.len() {
                assert(nx.0[c] == st.0[c]);
            }
        }
    }
}

/// Every cluster holds at least two ids, each the id of a file with a positive duration.
pub proof fn lemma_clusters_are_real_groups(files: Seq<VideoFile>)
    requires
        files.len() <= usize::MAX,
    ensures
        forall|c: int|
            0 <= c < duration_clusters(files).len() ==> (#[trigger] duration_clusters(files)[c]).len() >= 2,
        forall|c: int, j: int|
            0 <= c < duration_clusters(files).len() && 0 <= j < duration_clusters(files)[c].len()
                ==> is_timed_file_id(files, #[trigger] duration_clusters(files)[c][j]),
{
    let ord = duration_order(files);
    lemma_duration_order_is_one(files);
    lemma_fold_shape(files, ord);
    let st = cluster_fold(files, ord);
    let r = duration_clusters(files);
    assert forall|c: int, j: int| 0 <= c < r.len() && 0 <= j < r[c].len()
        implies is_timed_file_id(files, #[trigger] r[c][j]) by {
        if c < st.0.len() {
            assert(r[c] == st.0[c]);
        } else {
            assert(r[c] == st.1);
        }
    }
    assert forall|c: int| 0 <= c < r.len() implies (#[trigger] r[c]).len() >= 2 by {
        if c < st.0.len() {
            assert(r[c] == st.0[c]);
        }
    }
}

proof fn lemma_unique_id_duration(files: Seq<VideoFile>, i: int)
    requires
        unique_ids(files),
        0 <= i < files.len(),
    ensures
        duration_of_id(files, files[i].id@) == files[i].duration_us as int,
{
    assert forall|k: int| 0 <= k < i implies (#[trigger] files[k]).id@ != files[i].id@ by {
        assert(files[k].id@ != files[i].id@);
    }
    lemma_find_id_at(files, files[i].id@, i);
}

/// Separation of consecutive clusters: the first file of `b` is longer than the last of `a`
/// by more than the tolerance.
pub open spec fn separated(files: Seq<VideoFile>, a: Seq<Seq<char>>, b: Seq<Seq<char>>) -> bool {
    duration_of_id(files, b[0]) > duration_of_id(files, a.last()) + TOLERANCE_US
}

proof fn lemma_fold_chains(files: Seq<VideoFile>, ord: Seq<usize>)
    requires
        unique_ids(files),
        forall|k: int| 0 <= k < ord.len() ==> #[trigger] ord[k] < files.len(),
        forall|k: int, l: int|
            0 <= k < l < ord.len() ==> before(files, #[trigger] ord[k] as int, #[trigger] ord[l] as int),
    ensures
        ({
            let st = cluster_fold(files, ord);
            &&& ord.len() == 0 ==> st.1.len() == 0
            &&& ord.len() > 0 ==> st.1.len() > 0 && st.1.last() == files[ord.last() as int].id@
            &&& is_duration_chain(files, st.1)
            &&& forall|c: int| 0 <= c < st.0.len() ==> is_duration_chain(files, #[trigger] st.0[c])
            &&& forall|c: int| 0 <= c < st.0.len() ==> (#[trigger] st.0[c]).len() >= 2
            &&& forall|c: int| 0 <= c < st.0.len() - 1 ==> separated(files, #[trigger] st.0[c], st.0[c + 1])
            &&& st.0.len() > 0 && st.1.len() > 0 ==> separated(files, st.0.last(), st.1)
        }),
    decreases ord.len(),
{
    if ord.len() > 0 {
        let p = ord.drop_last();
        assert forall|k: int, l: int| 0 <= k < l < p.len() implies before(files, #[trigger] p[k] as int, #[trigger] p[l] as int) by {
            assert(p[k] == ord[k] && p[l] == ord[l]);
        }
        assert forall|k: int| 0 <= k < p.len() implies #[trigger] p[k] < files.len() by {
            assert(p[k] == ord[k]);
        }
        lemma_fold_chains(files, p);
        let st = cluster_fold(files, p);
        let nx = cluster_fold(files, ord);
        let i = ord.last() as int;
        assert(ord[ord.len() - 1] == ord.last());
        let id = files[i].id@;
        lemma_unique_id_duration(files, i);
        if p.len() > 0 {
            let h = p.last() as int;
            assert(p[p.len() - 1] == ord[ord.len() - 2]);
            assert(before(files, ord[ord.len() - 2] as int, ord[ord.len() - 1] as int));
            lemma_unique_id_duration(files, h);
            assert(duration_of_id(files, st.1.last()) <= files[i].duration_us as int);
            if similar(files[i].duration_us as int, duration_of_id(files, st.1.last())) {
                assert(nx.1 == st.1.push(id));
                assert forall|j: int| 0 <= j < nx.1.len() - 1 implies duration_of_id(files, #[trigger] nx.1[j])
                    <= duration_of_id(files, nx.1[j + 1]) <= duration_of_id(files, nx.1[j]) + TOLERANCE_US by {
                    if j < st.1.len() - 1 {
                        assert(nx.1[j] == st.1[j] && nx.1[j + 1] == st.1[j + 1]);
                    } else {
                        assert(nx.1[j] == st.1.last());
                    }
                }
                assert(nx.1[0] == st.1[0]);
            } else {
                assert(nx.1 == seq![id]);
                if st.1.len() > 1 {
                    assert(nx.0 == st.0.push(st.1));
                    assert forall|c: int| 0 <= c < nx.0.len() - 1 implies separated(files, #[trigger] nx.0[c], nx.0[c + 1]) by {
                        if c < st.0.len() - 1 {
                            assert(nx.0[c] == st.0[c] && nx.0[c + 1] == st.0[c + 1]);
                        } else {
                            assert(nx.0[c] == st.0.last() && nx.0[c + 1] == st.1);
                        }
                    }
                    assert forall|c: int| 0 <= c < nx.0.len() implies is_duration_chain(files, #[trigger] nx.0[c]) by {
                        if c < st.0.len() {
                            assert(nx.0[c] == st.0[c]);
                        }
                    }
                    assert forall|c: int| 0 <= c < nx.0.len() implies (#[trigger] nx.0[c]).len() >= 2 by {
                        if c < st.0.len() {
                            assert(nx.0[c] == st.0[c]);
                        }
                    }
                    assert(separated(files, nx.0.last(), nx.1));
                } else {
                    assert(nx.0 == st.0);
                    if st.0.len() > 0 {
                        assert(st.1[0] == st.1.last());
                        assert(separated(files, nx.0.last(), nx.1));
                    }
                }
            }
        } else {
            assert(nx.1 == seq![id]);
        }
    }
}

/// Within each cluster the durations of consecutive files never fall and rise by at most the
/// tolerance, and each cluster starts more than the tolerance above where the one before it
/// ends (when no two files share an id, so that an id names one duration).
pub proof fn lemma_clusters_are_separated_chains(files: Seq<VideoFile>)
    requires
        files.len() <= usize::MAX,
        unique_ids(files),
    ensures
        forall|c: int|
            0 <= c < duration_clusters(files).len() ==> is_duration_chain(files, #[trigger] duration_clusters(files)[c]),
        forall|c: int|
            0 <= c < duration_clusters(files).len() - 1 ==> separated(
                files,
                #[trigger] duration_clusters(files)[c],
                duration_clusters(files)[c + 1],
            ),
{
    let ord = duration_order(files);
    lemma_duration_order_is_one(files);
    lemma_fold_chains(files, ord);
    let st = cluster_fold(files, ord);
    let r = duration_clusters(files);
    if st.1.len() > 1 {
        assert(r == st.0.push(st.1));
        assert forall|c: int| 0 <= c < r.len() implies is_duration_chain(files, #[trigger] r[c]) by {
            if c < st.0.len() {
                assert(r[c] == st.0[c]);
            }
        }
        assert forall|c: int| 0 <= c < r.len() - 1 implies separated(files, #[trigger] r[c], r[c + 1]) by {
            if c < st.0.len() - 1 {
                assert(r[c] == st.0[c] && r[c + 1] == st.0[c + 1]);
            } else {
                assert(r[c] == st.0.last() && r[c + 1] == st.1);
            }
        }
    }
}

/// The ids `a` and `b` are in one finished cluster, or both in the cluster being grown.
pub open spec fn together(st: ClusterProgress, a: Seq<char>, b: Seq<char>) -> bool {
    ||| exists|c: int| 0 <= c < st.0.len() && (#[trigger] st.0[c]).contains(a) && st.0[c].contains(b)
    ||| st.1.contains(a) && st.1.contains(b)
}

proof fn lemma_together_kept(files: Seq<VideoFile>, st: ClusterProgress, i: int, a: Seq<char>, b: Seq<char>)
    requires
        together(st, a, b),
        a != b,
    ensures
        together(cluster_step(files, st, i), a, b),
{
    let nx = cluster_step(files, st, i);
    let id = files[i].id@;
    if st.1.contains(a) && st.1.contains(b) {
        let ia = choose|k: int| 0 <= k < st.1.len() && st.1[k] == a;
        let ib = choose|k: int| 0 <= k < st.1.len() && st.1[k] == b;
        assert(ia != ib);
        if st.1.len() > 0 && similar(files[i].duration_us as int, duration_of_id(files, st.1.last())) {
            assert(nx.1 == st.1.push(id));
            assert(nx.1[ia] == a && nx.1[ib] == b);
        } else {
            assert(st.1.len() > 1);
            assert(nx.0 == st.0.push(st.1));
            assert(nx.0[st.0.len() as int] == st.1);
        }
    } else {
        let c = choose|c: int| 0 <= c < st.0.len() && (#[trigger] st.0[c]).contains(a) && st.0[c].contains(b);
        if st.1.len() > 1 && !similar(files[i].duration_us as int, duration_of_id(files, st.1.last())) {
            assert(nx.0[c] == st.0[c]);
        } else {
            assert(nx.0 == st.0);
        }
    }
}

#[verifier::spinoff_prover]
#[verifier::rlimit(40)]
proof fn lemma_fold_together(files: Seq<VideoFile>, ord: Seq<usize>)
    requires
        unique_ids(files),
        forall|k: int| 0 <= k < ord.len() ==> #[trigger] ord[k] < files.len(),
        forall|k: int, l: int|
            0 <= k < l < ord.len() ==> before(files, #[trigger] ord[k] as int, #[trigger] ord[l] as int),
    ensures
        forall|k: int|
            0 <= k < ord.len() && files[ord.last() as int].duration_us - files[#[trigger] ord[k] as int].duration_us
                <= TOLERANCE_US ==> cluster_fold(files, ord).1.contains(files[ord[k] as int].id@),
        forall|k: int, l: int|
            0 <= k < l < ord.len() && files[#[trigger] ord[l] as int].duration_us - files[#[trigger] ord[k] as int].duration_us
                <= TOLERANCE_US ==> together(cluster_fold(files, ord), files[ord[k] as int].id@, files[ord[l] as int].id@),
    decreases ord.len(),
{
    if ord.len() > 0 {
        let p = ord.drop_last();
        assert forall|k: int, l: int| 0 <= k < l < p.len() implies before(files, #[trigger] p[k] as int, #[trigger] p[l] as int) by {
            assert(p[k] == ord[k] && p[l] == ord[l]);
        }
        assert forall|k: int| 0 <= k < p.len() implies #[trigger] p[k] < files.len() by {
            assert(p[k] == ord[k]);
        }
        lemma_fold_together(files, p);
        lemma_fold_chains(files, p);
        let st = cluster_fold(files, p);
        let nx = cluster_fold(files, ord);
        let m = ord.len() - 1;
        let x = ord[m] as int;
        let xid = files[x].id@;
        assert(ord.last() == ord[m]);
        assert(nx == cluster_step(files, st, x));
        if m == 0 {
            assert(nx.1 == seq![xid]);
            assert(nx.1[0] == xid);
        } else {
            let y = ord[m - 1] as int;
            assert(p.last() == ord[m - 1]);
            assert(before(files, y, x));
            lemma_unique_id_duration(files, y);
            if similar(files[x].duration_us as int, duration_of_id(files, st.1.last())) {
                assert(nx.1 == st.1.push(xid));
                assert forall|k: int|
                    0 <= k < ord.len() && files[ord.last() as int].duration_us - files[#[trigger] ord[k] as int].duration_us
                        <= TOLERANCE_US implies nx.1.contains(files[ord[k] as int].id@) by {
                    if k < m {
                        assert(p[k] == ord[k]);
                        assert(before(files, ord[k] as int, y) || k == m - 1);
                        assert(st.1.contains(files[p[k] as int].id@));
                        let j = choose|j: int| 0 <= j < st.1.len() && st.1[j] == files[p[k] as int].id@;
                        assert(nx.1[j] == st.1[j]);
                    } else {
                        assert(nx.1[st.1.len() as int] == xid);
                    }
                }
            } else {
                assert(nx.1 == seq![xid]);
                assert forall|k: int|
                    0 <= k < ord.len() && files[ord.last() as int].duration_us - files[#[trigger] ord[k] as int].duration_us
                        <= TOLERANCE_US implies nx.1.contains(files[ord[k] as int].id@) by {
                    if k < m {
                        assert(before(files, ord[k] as int, y) || k == m - 1);
                    }
                    assert(nx.1[0] == xid);
                }
            }
        }
        assert forall|k: int, l: int|
            0 <= k < l < ord.len() && files[#[trigger] ord[l] as int].duration_us - files[#[trigger] ord[k] as int].duration_us
                <= TOLERANCE_US implies together(nx, files[ord[k] as int].id@, files[ord[l] as int].id@) by {
            let a = files[ord[k] as int].id@;
            let b = files[ord[l] as int].id@;
            assert(before(files, ord[k] as int, ord[l] as int));
            assert(a != b);
            if l < m {
                assert(p[k] == ord[k] && p[l] == ord[l]);
                assert(together(st, a, b));
                lemma_together_kept(files, st, x, a, b);
            } else {
                assert(nx.1.contains(a));
                assert(nx.1.contains(b));
            }
        }
    }
}

/// Any two files with a positive duration whose durations differ by at most the tolerance
/// end up in one cluster (when no two files share an id).
pub proof fn lemma_similar_files_share_a_cluster(files: Seq<VideoFile>, i: int, j: int)
    requires
        files.len() <= usize::MAX,
        unique_ids(files),
        0 <= i < files.len(),
        0 <= j < files.len(),
        i != j,
        files[i].duration_us > 0,
        files[j].duration_us > 0,
        similar(files[i].duration_us as int, files[j].duration_us as int),
    ensures
        exists|c: int|
            0 <= c < duration_clusters(files).len() && (#[trigger] duration_clusters(files)[c]).contains(files[i].id@)
                && duration_clusters(files)[c].contains(files[j].id@),
{
    let ord = duration_order(files);
    lemma_duration_order_is_one(files);
    lemma_fold_together(files, ord);
    let st = cluster_fold(files, ord);
    let r = duration_clusters(files);
    let a = files[i].id@;
    let b = files[j].id@;
    assert(a != b);
    assert(ord.contains(i as usize));
    assert(ord.contains(j as usize));
    let ki = choose|k: int| 0 <= k < ord.len() && ord[k] == i as usize;
    let kj = choose|k: int| 0 <= k < ord.len() && ord[k] == j as usize;
    if ki < kj {
        assert(before(files, ord[ki] as int, ord[kj] as int));
        assert(together(st, a, b));
    } else {
        assert(ki != kj);
        assert(before(files, ord[kj] as int, ord[ki] as int));
        assert(together(st, b, a));
    }
    assert(together(st, a, b));
    if st.1.contains(a) && st.1.contains(b) {
        let ia = choose|k: int| 0 <= k < st.1.len() && st.1[k] == a;
        let ib = choose|k: int| 0 <= k < st.1.len() && st.1[k] == b;
        assert(ia != ib);
        assert(r == st.0.push(st.1));
        assert(r[st.0.len() as int] == st.1);
    } else {
        let c = choose|c: int| 0 <= c < st.0.len() && (#[trigger] st.0[c]).contains(a) && st.0[c].contains(b);
        if st.1.len() > 1 {
            assert(r[c] == st.0[c]);
        } else {
            assert(r == st.0);
        }
    }
}

/// No id is in both `a` and `b`.
pub open spec fn disjoint(a: Seq<Seq<char>>, b: Seq<Seq<char>>) -> bool {
    forall|x: Seq<char>| #[trigger] a.contains(x) ==> !b.contains(x)
}

/// Every id in the progress is that of a file among the first `n` of `ord`, no cluster holds
/// an id twice, and no two clusters share one.
spec fn fold_distinct(files: Seq<VideoFile>, ord: Seq<usize>, st: ClusterProgress) -> bool {
    &&& forall|x: Seq<char>| #[trigger] st.1.contains(x) ==> exists|j: int| 0 <= j < ord.len() && x == files[#[trigger] ord[j] as int].id@
    &&& forall|c: int, x: Seq<char>| 0 <= c < st.0.len() && #[trigger] st.0[c].contains(x) ==> exists|j: int|
        0 <= j < ord.len() && x == files[#[trigger] ord[j] as int].id@
    &&& st.1.no_duplicates()
    &&& forall|c: int| 0 <= c < st.0.len() ==> (#[trigger] st.0[c]).no_duplicates()
    &&& forall|c: int, d: int| 0 <= c < d < st.0.len() ==> disjoint(#[trigger] st.0[c], #[trigger] st.0[d])
    &&& forall|c: int| 0 <= c < st.0.len() ==> disjoint(#[trigger] st.0[c], st.1)
}

#[verifier::spinoff_prover]
#[verifier::rlimit(40)]
proof fn lemma_fold_distinct(files: Seq<VideoFile>, ord: Seq<usize>)
    requires
        unique_ids(files),
        forall|k: int| 0 <= k < ord.len() ==> #[trigger] ord[k] < files.len(),
        forall|k: int, l: int|
            0 <= k < l < ord.len() ==> before(files, #[trigger] ord[k] as int, #[trigger] ord[l] as int),
    ensures
        fold_distinct(files, ord, cluster_fold(files, ord)),
    decreases ord.len(),
{
    if ord.len() > 0 {
        let p = ord.drop_last();
        assert forall|k: int, l: int| 0 <= k < l < p.len() implies before(files, #[trigger] p[k] as int, #[trigger] p[l] as int) by {
            assert(p[k] == ord[k] && p[l] == ord[l]);
        }
        assert forall|k: int| 0 <= k < p.len() implies #[trigger] p[k] < files.len() by {
            assert(p[k] == ord[k]);
        }
        lemma_fold_distinct(files, p);
        let st = cluster_fold(files, p);
        let m = ord.len() - 1;
        let x = ord[m] as int;
        let xid = files[x].id@;
        assert(ord.last() == ord[m]);
        let nx = cluster_fold(files, ord);
        assert(nx == cluster_step(files, st, x));
        // the new id is in no cluster yet
        assert forall|j: int| 0 <= j < p.len() implies files[#[trigger] p[j] as int].id@ != xid by {
            assert(p[j] == ord[j]);
            assert(before(files, ord[j] as int, x));
        }
        assert(!st.1.contains(xid));
        assert forall|c: int| 0 <= c < st.0.len() implies !(#[trigger] st.0[c]).contains(xid) by {}
        // every id now held comes from `ord`
        assert forall|y: Seq<char>| #[trigger] st.1.contains(y) implies exists|j: int| 0 <= j < ord.len() && y
            == files[#[trigger] ord[j] as int].id@ by {
            let j = choose|j: int| 0 <= j < p.len() && y == files[#[trigger] p[j] as int].id@;
            assert(p[j] == ord[j]);
        }
        assert forall|c: int, y: Seq<char>| 0 <= c < st.0.len() && #[trigger] st.0[c].contains(y) implies exists|j: int|
            0 <= j < ord.len() && y == files[#[trigger] ord[j] as int].id@ by {
            let j = choose|j: int| 0 <= j < p.len() && y == files[#[trigger] p[j] as int].id@;
            assert(p[j] == ord[j]);
        }
        assert(ord[m] == x as usize);
        if st.1.len() > 0 && similar(files[x].duration_us as int, duration_of_id(files, st.1.last())) {
            let n1 = st.1.push(xid);
            assert(nx.1 == n1);
            assert forall|y: Seq<char>| #[trigger] n1.contains(y) implies exists|j: int| 0 <= j < ord.len() && y
                == files[#[trigger] ord[j] as int].id@ by {
                let i = choose|i: int| 0 <= i < n1.len() && n1[i] == y;
                if i < st.1.len() {
                    assert(st.1[i] == y);
                    assert(st.1.contains(y));
                } else {
                    assert(files[ord[m] as int].id@ == y);
                }
            }
            assert forall|i: int, k: int| 0 <= i < n1.len() && 0 <= k < n1.len() && i != k implies n1[i] != n1[k] by {
                if i < st.1.len() && k < st.1.len() {
                } else if i < st.1.len() {
                    assert(st.1.contains(n1[i]));
                } else {
                    assert(st.1.contains(n1[k]));
                }
            }
            assert forall|c: int| 0 <= c < st.0.len() implies disjoint(#[trigger] st.0[c], n1) by {
                assert forall|y: Seq<char>| #[trigger] st.0[c].contains(y) implies !n1.contains(y) by {
                    if n1.contains(y) {
                        let i = choose|i: int| 0 <= i < n1.len() && n1[i] == y;
                        if i < st.1.len() {
                            assert(st.1.contains(y));
                        }
                    }
                }
            }
        } else {
            let n1 = seq![xid];
            assert(nx.1 == n1);
            assert forall|y: Seq<char>| #[trigger] n1.contains(y) implies exists|j: int| 0 <= j < ord.len() && y
                == files[#[trigger] ord[j] as int].id@ by {
                assert(n1[0] == xid);
                assert(files[ord[m] as int].id@ == y);
            }
            assert(n1.no_duplicates());
            if st.1.len() > 1 {
                let n0 = st.0.push(st.1);
                assert(nx.0 == n0);
                assert forall|c: int, y: Seq<char>| 0 <= c < n0.len() && #[trigger] n0[c].contains(y) implies exists|j: int|
                    0 <= j < ord.len() && y == files[#[trigger] ord[j] as int].id@ by {
                    if c < st.0.len() {
                        assert(n0[c] == st.0[c]);
                        assert(st.0[c].contains(y));
                    } else {
                        assert(n0[c] == st.1);
                        assert(st.1.contains(y));
                    }
                }
                assert forall|c: int| 0 <= c < n0.len() implies (#[trigger] n0[c]).no_duplicates() by {
                    if c < st.0.len() {
                        assert(n0[c] == st.0[c]);
                    }
                }
                assert forall|c: int, d: int| 0 <= c < d < n0.len() implies disjoint(#[trigger] n0[c], #[trigger] n0[d]) by {
                    assert(n0[c] == st.0[c]);
                    if d < st.0.len() {
                        assert(n0[d] == st.0[d]);
                    } else {
                        assert(n0[d] == st.1);
                    }
                }
                assert forall|c: int| 0 <= c < n0.len() implies disjoint(#[trigger] n0[c], n1) by {
                    assert forall|y: Seq<char>| #[trigger] n0[c].contains(y) implies !n1.contains(y) by {
                        if n1.contains(y) {
                            assert(n1[0] == xid);
                            if c < st.0.len() {
                                assert(n0[c] == st.0[c]);
                            } else {
                                assert(n0[c] == st.1);
                            }
                        }
                    }
                }
            } else {
                assert(nx.0 == st.0);
                assert forall|c: int| 0 <= c < st.0.len() implies disjoint(#[trigger] st.0[c], n1) by {
                    assert forall|y: Seq<char>| #[trigger] st.0[c].contains(y) implies !n1.contains(y) by {
                        if n1.contains(y) {
                            assert(n1[0] == xid);
                        }
                    }
                }
            }
        }
    }
}

/// No cluster holds an id twice, and no two clusters share an id (when no two files share
/// an id).
pub proof fn lemma_clusters_are_disjoint(files: Seq<VideoFile>)
    requires
        files.len() <= usize::MAX,
        unique_ids(files),
    ensures
        forall|c: int| 0 <= c < duration_clusters(files).len() ==> (#[trigger] duration_clusters(files)[c]).no_duplicates(),
        forall|c: int, d: int|
            0 <= c < d < duration_clusters(files).len() ==> disjoint(
                #[trigger] duration_clusters(files)[c],
                #[trigger] duration_clusters(files)[d],
            ),
{
    let ord = duration_order(files);
    lemma_duration_order_is_one(files);
    lemma_fold_distinct(files, ord);
    let st = cluster_fold(files, ord);
    let r = duration_clusters(files);
    if st.1.len() > 1 {
        assert(r == st.0.push(st.1));
        assert forall|c: int| 0 <= c < r.len() implies (#[trigger] r[c]).no_duplicates() by {
            if c < st.0.len() {
                assert(r[c] == st.0[c]);
            } else {
                assert(r[c] == st.1);
            }
        }
        assert forall|c: int, d: int| 0 <= c < d < r.len() implies disjoint(#[trigger] r[c], #[trigger] r[d]) by {
            assert(r[c] == st.0[c]);
            if d < st.0.len() {
                assert(r[d] == st.0[d]);
            } else {
                assert(r[d] == st.1);
            }
        }
    } else {
        assert(r == st.0);
    }
}

/// Query of a scan: the directory, when not the default one.
pub struct ScanParams {
    pub dir: Option<String>,
}

/// The error answered when the directory to scan is not a directory.
pub fn not_a_directory(dir: &str) -> (e: AppError)
    ensures
        e.status == 400,
        e.message@ == "Not a directory: "@ + dir@,
{
    let mut v: Vec<char> = Vec::new();
    push_str_chars(&mut v, "Not a directory: ");
    push_str_chars(&mut v, dir);
    AppError::bad_request(string_from(&v))
}

/// The extensions of the files a scan looks at.
pub open spec fn is_scan_extension(e: Seq<char>) -> bool {
    e == "mkv"@ || e == "mp4"@ || e == "avi"@ || e == "m2ts"@ || e == "ts"@
}

/// A path a scan looks at: its extension, lower-cased, is one of `mkv`, `mp4`, `avi`, `m2ts`, `ts`.
pub open spec fn is_scan_path(p: Seq<char>) -> bool {
    match path_extension(p) {
        Some(e) => is_scan_extension(lowercase(e)),
        None => false,
    }
}

/// Whether `e`, an extension already lower-cased, is one a scan looks at.
pub fn is_scan_extension_name(e: &str) -> (b: bool)
    ensures
        b == is_scan_extension(e@),
{
    str_eq(e, "mkv") || str_eq(e, "mp4") || str_eq(e, "avi") || str_eq(e, "m2ts") || str_eq(e, "ts")
}

/// Whether a scan looks at the file `path` (see `is_scan_path`).
pub fn is_scan_candidate(path: &str) -> (b: bool)
    ensures
        b == is_scan_path(path@),
{
    match extension_of(path) {
        Some(e) => {
            let l = to_lowercase(e.as_str());
            is_scan_extension_name(l.as_str())
        },
        None => false,
    }
}

/// The characters of an optional string, or `dflt`.
pub open spec fn or_else(o: Option<Seq<char>>, dflt: Seq<char>) -> Seq<char> {
    match o {
        Some(s) => s,
        None => dflt,
    }
}

fn string_or(o: Option<String>, dflt: &str) -> (r: String)
    ensures
        r@ == or_else(opt_view(o), dflt@),
{
    match o {
        Some(s) => s,
        None => dflt.to_owned(),
    }
}

/// Describes the file `path`, found under `base`, from the parts of its path and what
/// probing it gave: its path is its id; a missing name or stem is empty, a missing directory
/// is `base`, and a missing relative path is the whole path.
pub fn video_file_from_parts(
    path: &str,
    base: &str,
    file_name: Option<String>,
    stem: Option<String>,
    parent: Option<String>,
    relative: Option<String>,
    probe: ProbeResult,
) -> (f: VideoFile)
    ensures
        f.id@ == path@,
        f.path@ == path@,
        f.filename@ == or_else(opt_view(file_name), Seq::empty()),
        f.stem@ == or_else(opt_view(stem), Seq::empty()),
        f.parent@ == or_else(opt_view(parent), base@),
        f.rel_path@ == or_else(opt_view(relative), path@),
        f.duration_us == probe.duration_us,
        f.duration_fmt == probe.duration_fmt,
        f.size == probe.size,
        f.size_fmt == probe.size_fmt,
        f.video_streams == probe.video_streams,
        f.audio_streams == probe.audio_streams,
        f.subtitle_streams == probe.subtitle_streams,
        f.title == probe.title,
{
    proof {
        reveal_strlit("");
    }
    VideoFile {
        id: path.to_owned(),
        path: path.to_owned(),
        filename: string_or(file_name, ""),
        stem: string_or(stem, ""),
        parent: string_or(parent, base),
        rel_path: string_or(relative, path),
        duration_us: probe.duration_us,
        duration_fmt: probe.duration_fmt,
        size: probe.size,
        size_fmt: probe.size_fmt,
        video_streams: probe.video_streams,
        audio_streams: probe.audio_streams,
        subtitle_streams: probe.subtitle_streams,
        title: probe.title,
    }
}

/// Describes the file `path`, found under `base`, from what probing it gave: its path is
/// its id, and name, stem, directory and path relative to `base` come from the path
/// (see `video_file_from_parts`).
pub fn video_file(path: &str, base: &str, probe: ProbeResult) -> (f: VideoFile)
    ensures
        f.id@ == path@,
        f.path@ == path@,
        f.filename@ == or_else(path_file_name(path@), Seq::empty()),
        f.stem@ == or_else(path_file_stem(path@), Seq::empty()),
        f.parent@ == or_else(path_parent(path@), base@),
        f.rel_path@ == or_else(path_strip_prefix(path@, base@), path@),
        f.duration_us == probe.duration_us,
        f.duration_fmt == probe.duration_fmt,
        f.size == probe.size,
        f.size_fmt == probe.size_fmt,
        f.video_streams == probe.video_streams,
        f.audio_streams == probe.audio_streams,
        f.subtitle_streams == probe.subtitle_streams,
        f.title == probe.title,
{
    let file_name = file_name_of(path);
    let stem = file_stem_of(path);
    let parent = parent_of(path);
    let relative = strip_prefix_of(path, base);
    video_file_from_parts(path, base, file_name, stem, parent, relative, probe)
}

/// The files are in order of path.
pub open spec fn sorted_by_path(s: Seq<VideoFile>) -> bool {
    forall|i: int, j: int| 0 <= i < j < s.len() ==> !lex_lt((#[trigger] s[j]).path@, (#[trigger] s[i]).path@)
}

/// The files put in order of path.
pub fn sort_by_path(files: Vec<VideoFile>) -> (r: Vec<VideoFile>)
    ensures
        r@.to_multiset() == files@.to_multiset(),
        sorted_by_path(r@),
{
    broadcast use vstd::seq_lib::group_to_multiset_ensures;
    let mut rest = files;
    let mut r: Vec<VideoFile> = Vec::new();
    while rest.len() > 0
        invariant
            r@.to_multiset().add(rest@.to_multiset()) == files@.to_multiset(),
            sorted_by_path(r@),
        decreases rest.len(),
    {
        let ghost before_rest = rest@;
        let x = rest.pop().unwrap();
        assert(before_rest == rest@.push(x));
        let mut p: usize = 0;
        while p < r.len() && !str_lt(x.path.as_str(), r[p].path.as_str())
            invariant
                p <= r@.len(),
                sorted_by_path(r@),
                forall|k: int| 0 <= k < p ==> !lex_lt(x.path@, (#[trigger] r@[k]).path@),
            decreases r.len() - p,
        {
            p += 1;
        }
        let ghost before = r@;
        r.insert(p, x);
        proof {
            broadcast use vstd::multiset::group_multiset_axioms;
            assert(r@.remove(p as int) =~= before);
            assert(r@[p as int] == x);
            let m = r@.to_multiset();
            r@.to_multiset_ensures();
            rest@.to_multiset_ensures();
            assert(r@.remove(p as int).to_multiset() =~= m.remove(r@[p as int]));
            assert(before.to_multiset() =~= m.remove(x));
            assert(r@.contains(x));
            assert(m.count(x) > 0);
            assert(m =~= before.to_multiset().insert(x));
            assert(rest@.to_multiset().insert(x) =~= before_rest.to_multiset());
            assert(m.add(rest@.to_multiset()) =~= before.to_multiset().add(before_rest.to_multiset()));
            assert forall|i: int, j: int| 0 <= i < j < r@.len() implies !lex_lt((#[trigger] r@[j]).path@, (#[trigger] r@[i]).path@) by {
                if j < p {
                    assert(r@[i] == before[i] && r@[j] == before[j]);
                } else if j == p {
                    assert(r@[i] == before[i]);
                } else if i < p {
                    assert(r@[i] == before[i] && r@[j] == before[j - 1]);
                } else if i == p {
                    assert(r@[j] == before[j - 1]);
                    assert(lex_lt(x.path@, before[p as int].path@));
                    if j - 1 > p {
                        assert(!lex_lt(before[j - 1].path@, before[p as int].path@));
                    }
                    if lex_lt(before[j - 1].path@, x.path@) {
                        lemma_lex_lt_transitive(before[j - 1].path@, x.path@, before[p as int].path@);
                        if j - 1 == p {
                            lemma_lex_lt_total(before[j - 1].path@, before[j - 1].path@);
                        }
                    }
                } else {
                    assert(r@[i] == before[i - 1] && r@[j] == before[j - 1]);
                }
            }
        }
    }
    proof {
        assert(rest@ =~= Seq::<VideoFile>::empty());
    }
    r
}

/// The answer to a scan of `directory` that found `files`: the files in order of path and
/// the clusters of similar running time among them.
pub fn scan_response(files: Vec<VideoFile>, directory: String) -> (r: ScanResponse)
    ensures
        r.files@.to_multiset() == files@.to_multiset(),
        sorted_by_path(r.files@),
        clusters_view(r.clusters@) == duration_clusters(r.files@),
        r.directory == directory,
{
    let sorted = sort_by_path(files);
    let clusters = cluster_by_duration(sorted.as_slice());
    ScanResponse { files: sorted, clusters, directory }
}

} // verus!
