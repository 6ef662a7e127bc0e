use vstd::prelude::*;
use crate::record::{File, FileView, class_key, same_class};

verus! {

/// The views of a sequence of rows.
pub open spec fn views(s: Seq<File>) -> Seq<FileView> {
    s.map_values(|f: File| f@)
}

/// No two rows share a path.
pub open spec fn paths_unique(rows: Seq<FileView>) -> bool {
    forall|i: int, j: int|
        0 <= i < rows.len() && 0 <= j < rows.len() && i != j ==> #[trigger] rows[i].path
            != #[trigger] rows[j].path
}

/// The rows whose path differs from `p`, in their order.
pub open spec fn without_path(rows: Seq<FileView>, p: Seq<char>) -> Seq<FileView>
    decreases rows.len(),
{
    if rows.len() == 0 {
        rows
    } else {
        let rest = without_path(rows.drop_last(), p);
        if rows.last().path == p {
            rest
        } else {
            rest.push(rows.last())
        }
    }
}

/// Inserting a row replaces any row with the same path; the new row comes
/// last in insertion order.
pub open spec fn upsert(rows: Seq<FileView>, f: FileView) -> Seq<FileView> {
    without_path(rows, f.path).push(f)
}

/// Row `i` is the first of its equivalence class in insertion order.
pub open spec fn is_leader(rows: Seq<FileView>, i: int) -> bool {
    forall|j: int| 0 <= j < i ==> !same_class(#[trigger] rows[j], rows[i])
}

/// The number of rows among the first `n` that are not the first of their
/// class.
pub open spec fn redundant_prefix(rows: Seq<FileView>, n: int) -> nat
    decreases n,
{
    if n <= 0 {
        0
    } else {
        redundant_prefix(rows, n - 1) + if is_leader(rows, n - 1) {
            0nat
        } else {
            1nat
        }
    }
}

/// The number of duplicate rows: over every class, its size minus one.
pub open spec fn redundant_count(rows: Seq<FileView>) -> nat {
    redundant_prefix(rows, rows.len() as int)
}

/// The distinct class keys present in `rows`.
pub open spec fn class_keys(rows: Seq<FileView>) -> Set<(Seq<char>, u64)> {
    Set::new(|k: (Seq<char>, u64)| exists|i: int| 0 <= i < rows.len() && class_key(rows[i]) == k)
}

/// The number of rows among the first `n` with class key `k`.
pub open spec fn class_size(rows: Seq<FileView>, k: (Seq<char>, u64), n: int) -> nat
    decreases n,
{
    if n <= 0 {
        0
    } else {
        class_size(rows, k, n - 1) + if class_key(rows[n - 1]) == k {
            1nat
        } else {
            0nat
        }
    }
}

/// The rows among the first `n` whose class key is `k`, in order.
pub open spec fn rows_of_class(rows: Seq<FileView>, k: (Seq<char>, u64), n: int) -> Seq<FileView>
    decreases n,
{
    if n <= 0 {
        Seq::empty()
    } else {
        let prev = rows_of_class(rows, k, n - 1);
        if class_key(rows[n - 1]) == k {
            prev.push(rows[n - 1])
        } else {
            prev
        }
    }
}

/// The first row of each class among the first `n`, in insertion order.
pub open spec fn leaders(rows: Seq<FileView>, n: int) -> Seq<FileView>
    decreases n,
{
    if n <= 0 {
        Seq::empty()
    } else {
        let prev = leaders(rows, n - 1);
        if is_leader(rows, n - 1) {
            prev.push(rows[n - 1])
        } else {
            prev
        }
    }
}

/// For each class with more than one row, in order of its first row among
/// the first `n`: its fingerprint, its size and its number of rows.
pub open spec fn identical_signs(rows: Seq<FileView>, n: int) -> Seq<(Seq<char>, u64, nat)>
    decreases n,
{
    if n <= 0 {
        Seq::empty()
    } else {
        let prev = identical_signs(rows, n - 1);
        let k = class_key(rows[n - 1]);
        let c = class_size(rows, k, rows.len() as int);
        if is_leader(rows, n - 1) && c > 1 {
            prev.push((k.0, k.1, c))
        } else {
            prev
        }
    }
}

/// The number of rows among the first `n` marked as originals.
pub open spec fn originals_prefix(rows: Seq<FileView>, n: int) -> nat
    decreases n,
{
    if n <= 0 {
        0
    } else {
        originals_prefix(rows, n - 1) + if rows[n - 1].is_original {
            1nat
        } else {
            0nat
        }
    }
}

/// The set of class keys of the first `n` rows.
spec fn keys_prefix(rows: Seq<FileView>, n: int) -> Set<(Seq<char>, u64)>
    decreases n,
{
    if n <= 0 {
        Set::empty()
    } else {
        keys_prefix(rows, n - 1).insert(class_key(rows[n - 1]))
    }
}

proof fn lemma_keys_prefix(rows: Seq<FileView>, n: int)
    requires
        0 <= n <= rows.len(),
    ensures
        keys_prefix(rows, n).finite(),
        forall|k: (Seq<char>, u64)|
            #[trigger] keys_prefix(rows, n).contains(k) <==> exists|j: int|
                0 <= j < n && class_key(rows[j]) == k,
        keys_prefix(rows, n).len() + redundant_prefix(rows, n) == n,
    decreases n,
{
    if n > 0 {
        lemma_keys_prefix(rows, n - 1);
        let k = class_key(rows[n - 1]);
        assert forall|q: (Seq<char>, u64)|
            #[trigger] keys_prefix(rows, n).contains(q) <==> exists|j: int|
                0 <= j < n && class_key(rows[j]) == q by {
            if keys_prefix(rows, n).contains(q) && q != k {
                assert(keys_prefix(rows, n - 1).contains(q));
            }
            if exists|j: int| 0 <= j < n && class_key(rows[j]) == q {
                let j = choose|j: int| 0 <= j < n && class_key(rows[j]) == q;
                if j < n - 1 {
                    assert(keys_prefix(rows, n - 1).contains(q));
                }
            }
        }
        if is_leader(rows, n - 1) {
            assert(!keys_prefix(rows, n - 1).contains(k));
        } else {
            let j = choose|j: int| 0 <= j < n - 1 && !!same_class(#[trigger] rows[j], rows[n - 1]);
            assert(keys_prefix(rows, n - 1).contains(k));
        }
    }
}

/// The number of redundant rows is the number of rows less the number of
/// distinct equivalence classes.
pub proof fn lemma_redundancy_count(rows: Seq<FileView>)
    ensures
        class_keys(rows).finite(),
        redundant_count(rows) == rows.len() - class_keys(rows).len(),
{
    lemma_keys_prefix(rows, rows.len() as int);
    assert(keys_prefix(rows, rows.len() as int) =~= class_keys(rows));
}

/// Row `i` comes before row `j` by creation time, then by insertion order.
pub open spec fn precedes(rows: Seq<FileView>, i: int, j: int) -> bool {
    rows[i].created_at < rows[j].created_at || (rows[i].created_at == rows[j].created_at && i < j)
}

/// Row `i` is the earliest of its class: it precedes every other row of it.
pub open spec fn is_earliest(rows: Seq<FileView>, i: int) -> bool {
    forall|j: int|
        0 <= j < rows.len() && j != i && same_class(#[trigger] rows[j], rows[i]) ==> precedes(
            rows,
            i,
            j,
        )
}

/// `f` is a row of `rows` that is the earliest of its class.
pub open spec fn is_earliest_row(rows: Seq<FileView>, f: FileView) -> bool {
    exists|i: int| 0 <= i < rows.len() && rows[i] == f && is_earliest(rows, i)
}

/// `f` with its original flag set to `b`.
pub open spec fn with_original(f: FileView, b: bool) -> FileView {
    FileView { is_original: b, ..f }
}

/// The rows with the original flag recomputed: set exactly on the earliest
/// row of each class.
pub open spec fn marked(rows: Seq<FileView>) -> Seq<FileView> {
    Seq::new(rows.len(), |i: int| with_original(rows[i], is_earliest(rows, i)))
}

/// The number of rows among the first `n` whose flag the recomputation
/// changes.
pub open spec fn flag_changes(rows: Seq<FileView>, n: int) -> nat
    decreases n,
{
    if n <= 0 {
        0
    } else {
        flag_changes(rows, n - 1) + if rows[n - 1].is_original != is_earliest(rows, n - 1) {
            1nat
        } else {
            0nat
        }
    }
}

/// The rows after the row with path `f.path` took `f`'s size and
/// optimized artifact.
pub open spec fn with_optimization(rows: Seq<FileView>, f: FileView) -> Seq<FileView> {
    Seq::new(
        rows.len(),
        |i: int|
            if rows[i].path == f.path {
                FileView { optimized: f.optimized, size_bytes: f.size_bytes, ..rows[i] }
            } else {
                rows[i]
            },
    )
}

/// The originals among the first `n` rows of media type `m` that have no
/// optimized artifact yet, in insertion order.
pub open spec fn unoptimized_originals(rows: Seq<FileView>, m: Seq<char>, n: int) -> Seq<FileView>
    decreases n,
{
    if n <= 0 {
        Seq::empty()
    } else {
        let prev = unoptimized_originals(rows, m, n - 1);
        let f = rows[n - 1];
        if f.is_original && f.media_type == m && f.optimized is None {
            prev.push(f)
        } else {
            prev
        }
    }
}

/// Among the first `n` rows, the earliest of the class of row `i`
/// (row `i` itself when none of them is earlier).
pub open spec fn earliest_in_prefix(rows: Seq<FileView>, i: int, n: int) -> int
    decreases n,
{
    if n <= 0 {
        i
    } else {
        let b = earliest_in_prefix(rows, i, n - 1);
        if same_class(rows[n - 1], rows[i]) && precedes(rows, n - 1, b) {
            n - 1
        } else {
            b
        }
    }
}

proof fn lemma_earliest_in_prefix(rows: Seq<FileView>, i: int, n: int)
    requires
        0 <= i < rows.len(),
        0 <= n <= rows.len(),
    ensures
        0 <= earliest_in_prefix(rows, i, n) < rows.len(),
        same_class(rows[earliest_in_prefix(rows, i, n)], rows[i]),
        forall|q: int|
            0 <= q < n && q != earliest_in_prefix(rows, i, n) && same_class(
                #[trigger] rows[q],
                rows[i],
            ) ==> precedes(rows, earliest_in_prefix(rows, i, n), q),
    decreases n,
{
    if n > 0 {
        lemma_earliest_in_prefix(rows, i, n - 1);
    }
}

/// Every row has an earliest row in its class, and no other row of the
/// class is earliest.
pub proof fn lemma_earliest_unique(rows: Seq<FileView>, i: int)
    requires
        0 <= i < rows.len(),
    ensures
        is_earliest(rows, earliest_in_prefix(rows, i, rows.len() as int)),
        same_class(rows[earliest_in_prefix(rows, i, rows.len() as int)], rows[i]),
        0 <= earliest_in_prefix(rows, i, rows.len() as int) < rows.len(),
        forall|j: int|
            0 <= j < rows.len() && same_class(#[trigger] rows[j], rows[i]) && is_earliest(rows, j)
                ==> j == earliest_in_prefix(rows, i, rows.len() as int),
{
    lemma_earliest_in_prefix(rows, i, rows.len() as int);
    let b = earliest_in_prefix(rows, i, rows.len() as int);
    assert forall|j: int|
        0 <= j < rows.len() && j != b && same_class(#[trigger] rows[j], rows[b]) implies precedes(
        rows,
        b,
        j,
    ) by {
        assert(same_class(rows[j], rows[i]));
    }
    assert forall|j: int|
        0 <= j < rows.len() && same_class(#[trigger] rows[j], rows[i]) && is_earliest(rows, j)
            implies j == b by {
        if j != b {
            assert(precedes(rows, b, j));
            assert(same_class(rows[b], rows[j]));
            assert(precedes(rows, j, b));
        }
    }
}

proof fn lemma_leaders_len(rows: Seq<FileView>, n: int)
    requires
        0 <= n <= rows.len(),
    ensures
        leaders(rows, n).len() + redundant_prefix(rows, n) == n,
    decreases n,
{
    if n > 0 {
        lemma_leaders_len(rows, n - 1);
    }
}

/// Pairwise distinct classes among the rows at the positions `s`.
pub open spec fn distinct_classes(rows: Seq<FileView>, s: Seq<usize>) -> bool {
    forall|k: int, l: int|
        0 <= k < s.len() && 0 <= l < s.len() && k != l ==> !same_class(
            rows[#[trigger] s[k] as int],
            rows[#[trigger] s[l] as int],
        )
}

/// The positions in `s` are rows of `rows`, each the earliest of its class.
pub open spec fn earliest_positions(rows: Seq<FileView>, s: Seq<usize>) -> bool {
    forall|k: int| 0 <= k < s.len() ==> #[trigger] s[k] < rows.len() && is_earliest(rows, s[k] as int)
}

/// The catalog after inserting the records `fs` in order.
pub open spec fn scan(rows: Seq<FileView>, fs: Seq<FileView>) -> Seq<FileView>
    decreases fs.len(),
{
    if fs.len() == 0 {
        rows
    } else {
        upsert(scan(rows, fs.drop_last()), fs.last())
    }
}

/// The rows whose path is none of the paths of `fs`.
spec fn remove_all(rows: Seq<FileView>, fs: Seq<FileView>) -> Seq<FileView>
    decreases fs.len(),
{
    if fs.len() == 0 {
        rows
    } else {
        without_path(remove_all(rows, fs.drop_last()), fs.last().path)
    }
}

proof fn lemma_without_concat(a: Seq<FileView>, b: Seq<FileView>, p: Seq<char>)
    ensures
        without_path(a + b, p) == without_path(a, p) + without_path(b, p),
    decreases b.len(),
{
    if b.len() == 0 {
        assert(a + b =~= a);
        assert(without_path(a, p) + without_path(b, p) =~= without_path(a, p));
    } else {
        lemma_without_concat(a, b.drop_last(), p);
        assert((a + b).drop_last() =~= a + b.drop_last());
        assert((a + b).last() == b.last());
        if b.last().path != p {
            assert(without_path(a, p) + without_path(b.drop_last(), p).push(b.last()) =~= (
            without_path(a, p) + without_path(b.drop_last(), p)).push(b.last()));
        }
    }
}

proof fn lemma_remove_all_concat(a: Seq<FileView>, b: Seq<FileView>, fs: Seq<FileView>)
    ensures
        remove_all(a + b, fs) == remove_all(a, fs) + remove_all(b, fs),
    decreases fs.len(),
{
    if fs.len() > 0 {
        lemma_remove_all_concat(a, b, fs.drop_last());
        lemma_without_concat(
            remove_all(a, fs.drop_last()),
            remove_all(b, fs.drop_last()),
            fs.last().path,
        );
    }
}

proof fn lemma_remove_all_subset(rows: Seq<FileView>, fs: Seq<FileView>)
    ensures
        forall|i: int|
            0 <= i < remove_all(rows, fs).len() ==> rows.contains(#[trigger] remove_all(rows, fs)[i]),
        forall|i: int, m: int|
            0 <= i < remove_all(rows, fs).len() && 0 <= m < fs.len() ==> (#[trigger] remove_all(
                rows,
                fs,
            )[i]).path != (#[trigger] fs[m]).path,
    decreases fs.len(),
{
    if fs.len() > 0 {
        let prev = remove_all(rows, fs.drop_last());
        let cur = remove_all(rows, fs);
        lemma_remove_all_subset(rows, fs.drop_last());
        lemma_without_subset(prev, fs.last().path);
        assert forall|i: int| 0 <= i < cur.len() implies rows.contains(#[trigger] cur[i]) by {
            assert(prev.contains(cur[i]));
            let q = choose|q: int| 0 <= q < prev.len() && prev[q] == cur[i];
            assert(rows.contains(prev[q]));
        }
        assert forall|i: int, m: int| 0 <= i < cur.len() && 0 <= m < fs.len() implies (
        #[trigger] cur[i]).path != (#[trigger] fs[m]).path by {
            if m < fs.len() - 1 {
                assert(fs[m] == fs.drop_last()[m]);
            }
        }
    } else {
        assert forall|i: int| 0 <= i < remove_all(rows, fs).len() implies rows.contains(#[trigger] remove_all(rows, fs)[i]) by {
            assert(remove_all(rows, fs)[i] == rows[i]);
        }
    }
}

proof fn lemma_remove_all_absent(rows: Seq<FileView>, fs: Seq<FileView>)
    requires
        forall|i: int, m: int|
            0 <= i < rows.len() && 0 <= m < fs.len() ==> (#[trigger] rows[i]).path != (
            #[trigger] fs[m]).path,
    ensures
        remove_all(rows, fs) == rows,
    decreases fs.len(),
{
    if fs.len() > 0 {
        assert forall|i: int, m: int|
            0 <= i < rows.len() && 0 <= m < fs.drop_last().len() implies (
            #[trigger] rows[i]).path != (#[trigger] fs.drop_last()[m]).path by {
            assert(fs.drop_last()[m] == fs[m]);
        }
        lemma_remove_all_absent(rows, fs.drop_last());
        assert forall|i: int| 0 <= i < rows.len() implies #[trigger] rows[i].path
            != fs.last().path by {
            assert(rows[i].path != fs[fs.len() - 1].path);
        }
        lemma_without_absent(rows, fs.last().path);
    }
}

proof fn lemma_remove_all_self(fs: Seq<FileView>)
    ensures
        remove_all(fs, fs).len() == 0,
{
    lemma_remove_all_subset(fs, fs);
    if remove_all(fs, fs).len() > 0 {
        assert(fs.contains(remove_all(fs, fs)[0]));
        let j = choose|j: int| 0 <= j < fs.len() && fs[j] == remove_all(fs, fs)[0];
        assert(remove_all(fs, fs)[0].path != fs[j].path);
    }
}

proof fn lemma_scan_closed(rows: Seq<FileView>, fs: Seq<FileView>)
    requires
        paths_unique(fs),
    ensures
        scan(rows, fs) == remove_all(rows, fs) + fs,
    decreases fs.len(),
{
    if fs.len() > 0 {
        let init = fs.drop_last();
        let f = fs.last();
        assert(paths_unique(init));
        lemma_scan_closed(rows, init);
        lemma_without_concat(remove_all(rows, init), init, f.path);
        assert forall|i: int| 0 <= i < init.len() implies #[trigger] init[i].path != f.path by {
            assert(init[i] == fs[i]);
        }
        lemma_without_absent(init, f.path);
        assert(remove_all(rows, fs) + init + seq![f] =~= remove_all(rows, fs) + fs);
        assert((remove_all(rows, fs) + init).push(f) =~= remove_all(rows, fs) + init + seq![f]);
    }
}

/// Scanning the same set of files (distinct paths) a second time leaves the
/// catalog exactly as one scan left it: the same rows, so the same row count
/// and the same fingerprint and size for every path.
pub proof fn lemma_rescan_idempotent(rows: Seq<FileView>, fs: Seq<FileView>)
    requires
        paths_unique(fs),
    ensures
        scan(scan(rows, fs), fs) == scan(rows, fs),
        scan(scan(rows, fs), fs).len() == scan(rows, fs).len(),
{
    lemma_scan_closed(rows, fs);
    lemma_scan_closed(scan(rows, fs), fs);
    lemma_remove_all_concat(remove_all(rows, fs), fs, fs);
    lemma_remove_all_subset(rows, fs);
    lemma_remove_all_absent(remove_all(rows, fs), fs);
    lemma_remove_all_self(fs);
    assert(remove_all(remove_all(rows, fs), fs) + remove_all(fs, fs) =~= remove_all(rows, fs));
}

/// Inserting a row whose path is already present replaces that row
/// entirely: afterwards paths are still unique, the new row is the only
/// one with its path, every other row is kept in order, and the row count
/// grows by one only for a new path.
pub proof fn lemma_upsert_replaces(rows: Seq<FileView>, f: FileView)
    requires
        paths_unique(rows),
    ensures
        paths_unique(upsert(rows, f)),
        upsert(rows, f).last() == f,
        forall|i: int|
            0 <= i < upsert(rows, f).len() && #[trigger] upsert(rows, f)[i].path == f.path ==> upsert(
                rows,
                f,
            )[i] == f,
        upsert(rows, f).len() == rows.len() + if (exists|k: int|
            0 <= k < rows.len() && #[trigger] rows[k].path == f.path) {
            0int
        } else {
            1int
        },
        without_path(rows, f.path) == upsert(rows, f).drop_last(),
{
    let u = upsert(rows, f);
    let w = without_path(rows, f.path);
    lemma_without_subset(rows, f.path);
    if exists|k: int| 0 <= k < rows.len() && #[trigger] rows[k].path == f.path {
        let k = choose|k: int| 0 <= k < rows.len() && #[trigger] rows[k].path == f.path;
        lemma_without_at(rows, f.path, k);
        assert forall|a: int, b: int| 0 <= a < w.len() && 0 <= b < w.len() && a != b implies #[trigger] w[a].path != #[trigger] w[b].path by {
            let oa = if a < k { a } else { a + 1 };
            let ob = if b < k { b } else { b + 1 };
            assert(w[a] == rows[oa] && w[b] == rows[ob]);
        }
    } else {
        lemma_without_absent(rows, f.path);
    }
    assert forall|a: int, b: int| 0 <= a < u.len() && 0 <= b < u.len() && a != b implies #[trigger] u[a].path != #[trigger] u[b].path by {
        if a < w.len() && b < w.len() {
            assert(u[a] == w[a] && u[b] == w[b]);
        } else if a < w.len() {
            assert(u[a] == w[a]);
        } else if b < w.len() {
            assert(u[b] == w[b]);
        }
    }
    assert(u.drop_last() =~= w);
}

/// After the original flags are recomputed, every class holds exactly one
/// row marked original, and it is the row of the class with the smallest
/// creation time, ties going to the earlier insertion.
pub proof fn lemma_one_original_per_class(rows: Seq<FileView>, i: int)
    requires
        0 <= i < rows.len(),
    ensures
        ({
            let m = marked(rows);
            let e = earliest_in_prefix(rows, i, rows.len() as int);
            &&& 0 <= e < m.len()
            &&& m[e].is_original
            &&& same_class(m[e], m[i])
            &&& forall|j: int|
                0 <= j < m.len() && same_class(#[trigger] m[j], m[i]) && m[j].is_original ==> j
                    == e
            &&& forall|j: int|
                0 <= j < m.len() && j != e && same_class(#[trigger] m[j], m[i]) ==> m[e].created_at
                    < m[j].created_at || (m[e].created_at == m[j].created_at && e < j)
        }),
{
    lemma_earliest_unique(rows, i);
    let m = marked(rows);
    let e = earliest_in_prefix(rows, i, rows.len() as int);
    assert forall|j: int| 0 <= j < m.len() && same_class(#[trigger] m[j], m[i]) && m[j].is_original implies j == e by {
        assert(same_class(rows[j], rows[i]));
    }
    assert forall|j: int| 0 <= j < m.len() && j != e && same_class(#[trigger] m[j], m[i]) implies m[e].created_at
        < m[j].created_at || (m[e].created_at == m[j].created_at && e < j) by {
        assert(same_class(rows[j], rows[e]));
    }
}

/// The catalog: one row per scanned path, kept in insertion order.
pub struct Catalog {
    rows: Vec<File>,
}

impl View for Catalog {
    type V = Seq<FileView>;

    closed spec fn view(&self) -> Seq<FileView> {
        views(self.rows@)
    }
}

proof fn lemma_without_absent(rows: Seq<FileView>, p: Seq<char>)
    requires
        forall|i: int| 0 <= i < rows.len() ==> #[trigger] rows[i].path != p,
    ensures
        without_path(rows, p) == rows,
    decreases rows.len(),
{
    if rows.len() > 0 {
        lemma_without_absent(rows.drop_last(), p);
        assert(rows.drop_last().push(rows.last()) =~= rows);
    }
}

proof fn lemma_without_at(rows: Seq<FileView>, p: Seq<char>, k: int)
    requires
        0 <= k < rows.len(),
        rows[k].path == p,
        forall|i: int| 0 <= i < rows.len() && i != k ==> #[trigger] rows[i].path != p,
    ensures
        without_path(rows, p) == rows.remove(k),
    decreases rows.len(),
{
    if k == rows.len() - 1 {
        lemma_without_absent(rows.drop_last(), p);
        assert(rows.remove(k) =~= rows.drop_last());
    } else {
        lemma_without_at(rows.drop_last(), p, k);
        assert(rows.drop_last().remove(k).push(rows.last()) =~= rows.remove(k));
    }
}

proof fn lemma_without_subset(rows: Seq<FileView>, p: Seq<char>)
    ensures
        forall|i: int|
            0 <= i < without_path(rows, p).len() ==> rows.contains(#[trigger] without_path(rows, p)[i]),
        forall|i: int|
            0 <= i < without_path(rows, p).len() ==> (#[trigger] without_path(rows, p)[i]).path
                != p,
    decreases rows.len(),
{
    if rows.len() > 0 {
        lemma_without_subset(rows.drop_last(), p);
        let rest = without_path(rows.drop_last(), p);
        assert forall|i: int| 0 <= i < without_path(rows, p).len() implies rows.contains(#[trigger] without_path(rows, p)[i]) by {
            if i < rest.len() {
                let j = choose|j: int| 0 <= j < rows.drop_last().len() && rest[i] == rows.drop_last()[j];
                assert(rows[j] == rows.drop_last()[j]);
            } else {
                assert(without_path(rows, p)[i] == rows[rows.len() - 1]);
            }
        }
    }
}

impl Catalog {
    #[verifier::type_invariant]
    spec fn inv(self) -> bool {
        paths_unique(views(self.rows@))
    }

    /// An empty catalog.
    pub fn new() -> (r: Catalog)
        ensures
            r@ == Seq::<FileView>::empty(),
    {
        let r = Catalog { rows: Vec::new() };
        assert(r@ =~= Seq::<FileView>::empty());
        r
    }

    /// The position of the row with path `p`, if there is one.
    fn position_of(&self, p: &String) -> (r: Option<usize>)
        ensures
            match r {
                Some(k) => k < self@.len() && self@[k as int].path == p@,
                None => forall|i: int| 0 <= i < self@.len() ==> #[trigger] self@[i].path != p@,
            },
    {
        let mut i: usize = 0;
        while i < self.rows.len()
            invariant
                i <= self.rows@.len(),
                forall|j: int| 0 <= j < i ==> #[trigger] self@[j].path != p@,
            decreases self.rows@.len() - i,
        {
            if self.rows[i].path == *p {
                return Some(i);
            }
            i = i + 1;
        }
        None
    }

    /// Inserts `file`, replacing the row that has the same path, if any.
    pub fn insert_file(&mut self, file: &File)
        ensures
            final(self)@ == upsert(old(self)@, file@),
            paths_unique(final(self)@),
    {
        proof { use_type_invariant(&*self); }
        let pos = self.position_of(&file.path);
        let mut rows: Vec<File> = Vec::new();
        std::mem::swap(&mut rows, &mut self.rows);
        let ghost old_rows = views(rows@);
        assert(old_rows == old(self)@);
        match pos {
            Some(k) => {
                proof { lemma_without_at(old_rows, file@.path, k as int); }
                rows.remove(k);
                assert(views(rows@) =~= old_rows.remove(k as int));
                assert forall|i: int, j: int|
                    0 <= i < views(rows@).len() && 0 <= j < views(rows@).len() && i != j implies
                    #[trigger] views(rows@)[i].path != #[trigger] views(rows@)[j].path by {
                    let oi = if i < k { i } else { i + 1 };
                    let oj = if j < k { j } else { j + 1 };
                    assert(views(rows@)[i] == old_rows[oi]);
                    assert(views(rows@)[j] == old_rows[oj]);
                }
            },
            None => {
                proof { lemma_without_absent(old_rows, file@.path); }
            },
        }
        rows.push(file.duplicate());
        let ghost new_rows = views(rows@);
        assert(new_rows =~= upsert(old_rows, file@));
        proof {
            lemma_without_subset(old_rows, file@.path);
            let w = without_path(old_rows, file@.path);
            assert(paths_unique(w));
            assert forall|i: int, j: int|
                0 <= i < new_rows.len() && 0 <= j < new_rows.len() && i != j implies
                #[trigger] new_rows[i].path != #[trigger] new_rows[j].path by {
                if i < w.len() && j < w.len() {
                    assert(new_rows[i] == w[i] && new_rows[j] == w[j]);
                } else if i < w.len() {
                    assert(new_rows[i] == w[i]);
                } else if j < w.len() {
                    assert(new_rows[j] == w[j]);
                }
            }
        }
        self.rows = rows;
    }

    /// All rows, in insertion order.
    pub fn files(&self) -> (r: Vec<File>)
        ensures
            views(r@) == self@,
    {
        let mut r: Vec<File> = Vec::new();
        let mut i: usize = 0;
        while i < self.rows.len()
            invariant
                i <= self@.len(),
                views(r@) == self@.subrange(0, i as int),
            decreases self@.len() - i,
        {
            let ghost before = views(r@);
            r.push(self.rows[i].duplicate());
            assert(self@[i as int] == self.rows@[i as int]@);
            assert(views(r@) =~= before.push(self@[i as int]));
            assert(self@.subrange(0, i as int).push(self@[i as int]) =~= self@.subrange(0, i + 1));
            i = i + 1;
        }
        assert(self@.subrange(0, i as int) =~= self@);
        r
    }

    /// The number of rows.
    pub fn count_files(&self) -> (r: usize)
        ensures
            r == self@.len(),
    {
        self.rows.len()
    }
    /// Whether row `i` is the first of its class.
    fn leader_at(&self, i: usize) -> (r: bool)
        requires
            i < self@.len(),
        ensures
            r == is_leader(self@, i as int),
    {
        let mut j: usize = 0;
        while j < i
            invariant
                i < self@.len(),
                j <= i,
                forall|q: int| 0 <= q < j ==> !same_class(#[trigger] self@[q], self@[i as int]),
            decreases i - j,
        {
            assert(self@[j as int] == self.rows@[j as int]@ && self@[i as int] == self.rows@[i as int]@);
            if self.rows[j].same_content(&self.rows[i]) {
                return false;
            }
            j = j + 1;
        }
        true
    }

    /// The number of rows in the class of row `i`.
    fn class_size_at(&self, i: usize) -> (r: usize)
        requires
            i < self@.len(),
        ensures
            r == class_size(self@, class_key(self@[i as int]), self@.len() as int),
    {
        let ghost k = class_key(self@[i as int]);
        let mut j: usize = 0;
        let mut c: usize = 0;
        while j < self.rows.len()
            invariant
                i < self@.len(),
                j <= self@.len(),
                k == class_key(self@[i as int]),
                c == class_size(self@, k, j as int),
                c <= j,
            decreases self@.len() - j,
        {
            assert(self@[j as int] == self.rows@[j as int]@ && self@[i as int] == self.rows@[i as int]@);
            if self.rows[j].same_content(&self.rows[i]) {
                c = c + 1;
            }
            j = j + 1;
        }
        c
    }

    /// The number of duplicate rows: over every equivalence class, its
    /// number of rows minus one.
    pub fn count_redundant_files(&self) -> (r: usize)
        ensures
            r == redundant_count(self@),
    {
        let mut i: usize = 0;
        let mut c: usize = 0;
        while i < self.rows.len()
            invariant
                i <= self@.len(),
                c == redundant_prefix(self@, i as int),
                c <= i,
            decreases self@.len() - i,
        {
            if !self.leader_at(i) {
                c = c + 1;
            }
            i = i + 1;
        }
        c
    }

    /// All rows with fingerprint `content_hash` and size `size_bytes`, in
    /// insertion order.
    pub fn find_dup_files(&self, content_hash: &String, size_bytes: u64) -> (r: Vec<File>)
        ensures
            views(r@) == rows_of_class(self@, (content_hash@, size_bytes), self@.len() as int),
    {
        let ghost k = (content_hash@, size_bytes);
        let mut r: Vec<File> = Vec::new();
        let mut i: usize = 0;
        while i < self.rows.len()
            invariant
                i <= self@.len(),
                k == (content_hash@, size_bytes),
                views(r@) == rows_of_class(self@, k, i as int),
            decreases self@.len() - i,
        {
            assert(self@[i as int] == self.rows@[i as int]@);
            if self.rows[i].size_bytes == size_bytes && self.rows[i].content_hash == *content_hash {
                r.push(self.rows[i].duplicate());
                assert(views(r@) =~= rows_of_class(self@, k, i as int).push(self@[i as int]));
            }
            i = i + 1;
        }
        r
    }

    /// For each equivalence class with more than one row, in order of its
    /// first row: its fingerprint, its size and its number of rows.
    pub fn find_identical_signs(&self) -> (r: Vec<(String, u64, usize)>)
        ensures
            r@.len() == identical_signs(self@, self@.len() as int).len(),
            forall|q: int|
                0 <= q < r@.len() ==> {
                    let s = #[trigger] identical_signs(self@, self@.len() as int)[q];
                    r@[q].0@ == s.0 && r@[q].1 == s.1 && r@[q].2 == s.2
                },
    {
        let mut r: Vec<(String, u64, usize)> = Vec::new();
        let mut i: usize = 0;
        while i < self.rows.len()
            invariant
                i <= self@.len(),
                r@.len() == identical_signs(self@, i as int).len(),
                forall|q: int|
                    0 <= q < r@.len() ==> {
                        let s = #[trigger] identical_signs(self@, i as int)[q];
                        r@[q].0@ == s.0 && r@[q].1 == s.1 && r@[q].2 == s.2
                    },
            decreases self@.len() - i,
        {
            if self.leader_at(i) {
                let c = self.class_size_at(i);
                if c > 1 {
                    r.push((self.rows[i].content_hash.clone(), self.rows[i].size_bytes, c));
                }
            }
            i = i + 1;
        }
        r
    }

    /// One row per equivalence class, the first of each in insertion order.
    pub fn find_unique_files(&self) -> (r: Vec<File>)
        ensures
            views(r@) == leaders(self@, self@.len() as int),
    {
        let mut r: Vec<File> = Vec::new();
        let mut i: usize = 0;
        while i < self.rows.len()
            invariant
                i <= self@.len(),
                views(r@) == leaders(self@, i as int),
            decreases self@.len() - i,
        {
            if self.leader_at(i) {
                r.push(self.rows[i].duplicate());
                assert(views(r@) =~= leaders(self@, i as int).push(self@[i as int]));
            }
            i = i + 1;
        }
        r
    }

    /// The number of rows marked as originals.
    pub fn count_original_files(&self) -> (r: usize)
        ensures
            r == originals_prefix(self@, self@.len() as int),
    {
        let mut i: usize = 0;
        let mut c: usize = 0;
        while i < self.rows.len()
            invariant
                i <= self@.len(),
                c == originals_prefix(self@, i as int),
                c <= i,
            decreases self@.len() - i,
        {
            if self.rows[i].is_original {
                c = c + 1;
            }
            i = i + 1;
        }
        c
    }
    /// Whether row `i` is the earliest of its class.
    fn earliest_at(&self, i: usize) -> (r: bool)
        requires
            i < self@.len(),
        ensures
            r == is_earliest(self@, i as int),
    {
        let mut j: usize = 0;
        while j < self.rows.len()
            invariant
                i < self@.len(),
                j <= self@.len(),
                forall|q: int|
                    0 <= q < j && q != i && same_class(#[trigger] self@[q], self@[i as int])
                        ==> precedes(self@, i as int, q),
            decreases self@.len() - j,
        {
            assert(self@[j as int] == self.rows@[j as int]@ && self@[i as int] == self.rows@[i as int]@);
            if j != i && self.rows[j].same_content(&self.rows[i]) {
                let ci = self.rows[i].created_at;
                let cj = self.rows[j].created_at;
                if !(ci < cj || (ci == cj && i < j)) {
                    return false;
                }
            }
            j = j + 1;
        }
        true
    }

    /// The earliest row of the class of row `i`.
    fn earliest_of_class(&self, i: usize) -> (r: usize)
        requires
            i < self@.len(),
        ensures
            r < self@.len(),
            same_class(self@[r as int], self@[i as int]),
            is_earliest(self@, r as int),
    {
        let mut b: usize = i;
        let mut j: usize = 0;
        while j < self.rows.len()
            invariant
                i < self@.len(),
                j <= self@.len(),
                b == earliest_in_prefix(self@, i as int, j as int),
            decreases self@.len() - j,
        {
            assert(self@[j as int] == self.rows@[j as int]@ && self@[i as int] == self.rows@[i as int]@);
            proof { lemma_earliest_in_prefix(self@, i as int, j as int); }
            assert(self@[b as int] == self.rows@[b as int]@);
            if self.rows[j].same_content(&self.rows[i]) {
                let cb = self.rows[b].created_at;
                let cj = self.rows[j].created_at;
                if cj < cb || (cj == cb && j < b) {
                    b = j;
                }
            }
            j = j + 1;
        }
        proof { lemma_earliest_unique(self@, i as int); }
        b
    }

    /// Recomputes the original flags: a row is marked exactly when it is
    /// the earliest of its class by creation time, then by insertion order.
    /// Returns the number of rows whose flag changed.
    pub fn mark_original_files(&mut self) -> (r: usize)
        ensures
            final(self)@ == marked(old(self)@),
            r == flag_changes(old(self)@, old(self)@.len() as int),
    {
        proof { use_type_invariant(&*self); }
        let mut flags: Vec<bool> = Vec::new();
        let mut i: usize = 0;
        while i < self.rows.len()
            invariant
                i <= self@.len(),
                flags@.len() == i,
                forall|q: int| 0 <= q < i ==> #[trigger] flags@[q] == is_earliest(self@, q),
            decreases self@.len() - i,
        {
            let e = self.earliest_at(i);
            flags.push(e);
            i = i + 1;
        }
        let ghost before = self@;
        let mut rows: Vec<File> = Vec::new();
        std::mem::swap(&mut rows, &mut self.rows);
        assert(views(rows@) == before);
        let mut changed: usize = 0;
        let mut i: usize = 0;
        while i < rows.len()
            invariant
                rows@.len() == before.len(),
                flags@.len() == before.len(),
                forall|q: int| 0 <= q < before.len() ==> #[trigger] flags@[q] == is_earliest(before, q),
                i <= rows@.len(),
                changed == flag_changes(before, i as int),
                changed <= i,
                forall|q: int| 0 <= q < i ==> #[trigger] rows@[q]@ == marked(before)[q],
                forall|q: int| i <= q < rows@.len() ==> #[trigger] rows@[q]@ == before[q],
            decreases rows@.len() - i,
        {
            assert(rows@[i as int]@ == before[i as int]);
            if rows[i].is_original != flags[i] {
                changed = changed + 1;
            }
            rows[i].is_original = flags[i];
            assert(rows@[i as int]@ == marked(before)[i as int]);
            i = i + 1;
        }
        assert(views(rows@) =~= marked(before));
        assert forall|a: int, b: int|
            0 <= a < views(rows@).len() && 0 <= b < views(rows@).len() && a != b implies
            #[trigger] views(rows@)[a].path != #[trigger] views(rows@)[b].path by {
            assert(views(rows@)[a].path == before[a].path);
            assert(views(rows@)[b].path == before[b].path);
        }
        self.rows = rows;
        changed
    }

    /// Records the optimization of the row with `file`'s path: it takes
    /// `file`'s size and optimized artifact; every other field, and every
    /// other row, stays as it was.
    pub fn update_optimized_file(&mut self, file: &File)
        ensures
            final(self)@ == with_optimization(old(self)@, file@),
    {
        proof { use_type_invariant(&*self); }
        let pos = self.position_of(&file.path);
        let ghost before = self@;
        let mut rows: Vec<File> = Vec::new();
        std::mem::swap(&mut rows, &mut self.rows);
        assert(views(rows@) == before);
        match pos {
            Some(k) => {
                rows[k].optimized = crate::record::clone_opt_string(&file.optimized);
                rows[k].size_bytes = file.size_bytes;
                assert forall|q: int| 0 <= q < before.len() implies
                    #[trigger] views(rows@)[q] == with_optimization(before, file@)[q] by {
                    if q != k {
                        assert(before[q].path != before[k as int].path);
                    }
                }
                assert(views(rows@) =~= with_optimization(before, file@));
            },
            None => {
                assert(views(rows@) =~= with_optimization(before, file@));
            },
        }
        assert forall|a: int, b: int|
            0 <= a < views(rows@).len() && 0 <= b < views(rows@).len() && a != b implies
            #[trigger] views(rows@)[a].path != #[trigger] views(rows@)[b].path by {
            assert(views(rows@)[a].path == before[a].path);
            assert(views(rows@)[b].path == before[b].path);
        }
        self.rows = rows;
    }

    /// The originals of media type `media_type` that have no optimized
    /// artifact yet, in insertion order: the optimize step's work list.
    pub fn find_unoptimized_originals(&self, media_type: &String) -> (r: Vec<File>)
        ensures
            views(r@) == unoptimized_originals(self@, media_type@, self@.len() as int),
    {
        let mut r: Vec<File> = Vec::new();
        let mut i: usize = 0;
        while i < self.rows.len()
            invariant
                i <= self@.len(),
                views(r@) == unoptimized_originals(self@, media_type@, i as int),
            decreases self@.len() - i,
        {
            assert(self@[i as int] == self.rows@[i as int]@);
            if self.rows[i].is_original && self.rows[i].optimized.is_none()
                && self.rows[i].media_type == *media_type {
                r.push(self.rows[i].duplicate());
                assert(views(r@) =~= unoptimized_originals(self@, media_type@, i as int).push(
                    self@[i as int],
                ));
            }
            i = i + 1;
        }
        r
    }

    /// For each class, in order of its first row, the position of its
    /// earliest row.
    fn earliest_positions_by_class(&self) -> (e: Vec<usize>)
        ensures
            e@.len() == leaders(self@, self@.len() as int).len(),
            earliest_positions(self@, e@),
            distinct_classes(self@, e@),
    {
        let mut e: Vec<usize> = Vec::new();
        let ghost mut ls: Seq<int> = Seq::empty();
        let mut i: usize = 0;
        while i < self.rows.len()
            invariant
                i <= self@.len(),
                e@.len() == leaders(self@, i as int).len(),
                ls.len() == e@.len(),
                forall|k: int|
                    0 <= k < ls.len() ==> 0 <= #[trigger] ls[k] < i && same_class(
                        self@[e@[k] as int],
                        self@[ls[k]],
                    ),
                earliest_positions(self@, e@),
                distinct_classes(self@, e@),
            decreases self@.len() - i,
        {
            if self.leader_at(i) {
                let b = self.earliest_of_class(i);
                let ghost old_e = e@;
                e.push(b);
                proof {
                    ls = ls.push(i as int);
                    assert forall|k: int, l: int|
                        0 <= k < e@.len() && 0 <= l < e@.len() && k != l implies !same_class(
                        self@[#[trigger] e@[k] as int],
                        self@[#[trigger] e@[l] as int],
                    ) by {
                        if k < old_e.len() && l < old_e.len() {
                            assert(old_e[k] == e@[k] && old_e[l] == e@[l]);
                        } else if k < old_e.len() {
                            assert(same_class(self@[e@[k] as int], self@[ls[k]]));
                            assert(!same_class(self@[ls[k]], self@[i as int]));
                        } else {
                            assert(same_class(self@[e@[l] as int], self@[ls[l]]));
                            assert(!same_class(self@[ls[l]], self@[i as int]));
                        }
                    }
                }
            }
            i = i + 1;
        }
        e
    }

    /// Exactly one row per equivalence class, the earliest of each (by
    /// creation time, then insertion order), in ascending order of creation
    /// time.
    pub fn find_unique_files_ordered(&self) -> (r: Vec<File>)
        ensures
            r@.len() == class_keys(self@).len(),
            forall|k: int| 0 <= k < r@.len() ==> is_earliest_row(self@, #[trigger] r@[k]@),
            forall|k: int, l: int|
                0 <= k < l < r@.len() ==> !same_class(#[trigger] r@[k]@, #[trigger] r@[l]@),
            forall|k: int, l: int|
                0 <= k < l < r@.len() ==> (#[trigger] r@[k]@).created_at
                    <= (#[trigger] r@[l]@).created_at,
    {
        let mut rem = self.earliest_positions_by_class();
        proof {
            lemma_leaders_len(self@, self@.len() as int);
            lemma_redundancy_count(self@);
        }
        let ghost total = rem@.len();
        let mut out: Vec<usize> = Vec::new();
        while rem.len() > 0
            invariant
                out@.len() + rem@.len() == total,
                earliest_positions(self@, out@),
                earliest_positions(self@, rem@),
                distinct_classes(self@, out@ + rem@),
                forall|k: int, l: int|
                    0 <= k < l < out@.len() ==> self@[#[trigger] out@[k] as int].created_at
                        <= self@[#[trigger] out@[l] as int].created_at,
                forall|k: int, m: int|
                    0 <= k < out@.len() && 0 <= m < rem@.len() ==> self@[#[trigger] out@[k] as int].created_at
                        <= self@[#[trigger] rem@[m] as int].created_at,
            decreases rem@.len(),
        {
            let mut best: usize = 0;
            let mut j: usize = 1;
            while j < rem.len()
                invariant
                    earliest_positions(self@, rem@),
                    0 <= best < rem@.len(),
                    1 <= j <= rem@.len(),
                    forall|m: int| 0 <= m < j ==> self@[rem@[best as int] as int].created_at
                        <= self@[#[trigger] rem@[m] as int].created_at,
                decreases rem@.len() - j,
            {
                assert(self@[rem@[j as int] as int] == self.rows@[rem@[j as int] as int]@);
                assert(self@[rem@[best as int] as int] == self.rows@[rem@[best as int] as int]@);
                if self.rows[rem[j]].created_at < self.rows[rem[best]].created_at {
                    best = j;
                }
                j = j + 1;
            }
            let ghost old_out = out@;
            let ghost old_rem = rem@;
            let x = rem.remove(best);
            out.push(x);
            proof {
                let o = old_out.len();
                let olds = old_out + old_rem;
                let news = out@ + rem@;
                assert forall|q: int| 0 <= q < news.len() implies #[trigger] news[q] == olds[
                    if q < o { q } else if q == o { o + best } else if q - o - 1 < best { q - 1 } else { q }
                ] by {
                    if q < o {
                        assert(news[q] == out@[q]);
                    } else if q == o {
                        assert(news[q] == out@[q]);
                    } else {
                        assert(news[q] == rem@[q - o - 1]);
                    }
                }
                assert forall|k: int, l: int|
                    0 <= k < news.len() && 0 <= l < news.len() && k != l implies !same_class(
                    self@[#[trigger] news[k] as int],
                    self@[#[trigger] news[l] as int],
                ) by {
                    let fk = if k < o { k } else if k == o { o + best } else if k - o - 1 < best { k - 1 } else { k };
                    let fl = if l < o { l } else if l == o { o + best } else if l - o - 1 < best { l - 1 } else { l };
                    assert(news[k] == olds[fk]);
                    assert(news[l] == olds[fl]);
                }
                assert forall|k: int| 0 <= k < out@.len() implies #[trigger] out@[k] < self@.len()
                    && is_earliest(self@, out@[k] as int) by {
                    if k < o {
                        assert(out@[k] == old_out[k]);
                    }
                }
                assert forall|m: int| 0 <= m < rem@.len() implies #[trigger] rem@[m] < self@.len()
                    && is_earliest(self@, rem@[m] as int) by {
                    if m < best {
                        assert(rem@[m] == old_rem[m]);
                    } else {
                        assert(rem@[m] == old_rem[m + 1]);
                    }
                }
                assert forall|k: int, l: int| 0 <= k < l < out@.len() implies self@[#[trigger] out@[k] as int].created_at
                    <= self@[#[trigger] out@[l] as int].created_at by {
                    if l < o {
                        assert(out@[k] == old_out[k] && out@[l] == old_out[l]);
                    } else {
                        assert(out@[k] == old_out[k]);
                        assert(out@[l] == old_rem[best as int]);
                    }
                }
                assert forall|k: int, m: int|
                    0 <= k < out@.len() && 0 <= m < rem@.len() implies self@[#[trigger] out@[k] as int].created_at
                        <= self@[#[trigger] rem@[m] as int].created_at by {
                    let om = if m < best { m } else { m + 1 };
                    assert(rem@[m] == old_rem[om]);
                    if k < o {
                        assert(out@[k] == old_out[k]);
                    } else {
                        assert(out@[k] == old_rem[best as int]);
                    }
                }
            }
        }
        assert(out@ + rem@ =~= out@);
        let mut r: Vec<File> = Vec::new();
        let mut k: usize = 0;
        while k < out.len()
            invariant
                k <= out@.len(),
                r@.len() == k,
                earliest_positions(self@, out@),
                forall|q: int| 0 <= q < k ==> #[trigger] r@[q]@ == self@[out@[q] as int],
            decreases out@.len() - k,
        {
            assert(self@[out@[k as int] as int] == self.rows@[out@[k as int] as int]@);
            r.push(self.rows[out[k]].duplicate());
            k = k + 1;
        }
        assert forall|k: int| 0 <= k < r@.len() implies is_earliest_row(self@, #[trigger] r@[k]@) by {
            assert(self@[out@[k] as int] == r@[k]@);
        }
        assert forall|k: int, l: int| 0 <= k < l < r@.len() implies !same_class(
            #[trigger] r@[k]@,
            #[trigger] r@[l]@,
        ) by {
            assert(r@[k]@ == self@[out@[k] as int]);
            assert(r@[l]@ == self@[out@[l] as int]);
        }
        assert forall|k: int, l: int|
            0 <= k < l < r@.len() implies (#[trigger] r@[k]@).created_at <= (
            #[trigger] r@[l]@).created_at by {
            assert(r@[k]@ == self@[out@[k] as int]);
            assert(r@[l]@ == self@[out@[l] as int]);
        }
        r
    }
}

} // verus!
