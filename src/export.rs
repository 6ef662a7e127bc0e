use vstd::prelude::*;
use crate::catalog::{Catalog, class_keys, is_earliest_row, leaders, views};
use crate::record::{CivilTime, File, FileView, same_class};
use crate::timestamp::local_civil;
use crate::text::{dec, padded, signed_padded, decimal, padded_decimal, signed_padded_decimal};

verus! {

/// The name of an export file before any collision suffix:
/// `DD-MM-YYYY_HH:MM:SS`.
pub open spec fn stem_of(c: CivilTime) -> Seq<char> {
    padded(c.day as nat, 2) + seq!['-'] + padded(c.month as nat, 2) + seq!['-'] + signed_padded(
        c.year as int,
        4,
    ) + seq!['_'] + padded(c.hour as nat, 2) + seq![':'] + padded(c.minute as nat, 2) + seq![':']
        + padded(c.second as nat, 2)
}

/// The position of the last `c` among the first `n` characters of `s`, or
/// -1 when there is none.
pub open spec fn last_index_of(s: Seq<char>, c: char, n: int) -> int
    decreases n,
{
    if n <= 0 {
        -1
    } else if s[n - 1] == c {
        n - 1
    } else {
        last_index_of(s, c, n - 1)
    }
}

/// The last component of a `/`-separated path.
pub open spec fn file_name_of(path: Seq<char>) -> Seq<char> {
    path.subrange(last_index_of(path, '/', path.len() as int) + 1, path.len() as int)
}

/// The extension of the file named by `path`: what follows the last `.` of
/// its name, when that dot is neither the name's first nor its last
/// character; `bin` otherwise.
pub open spec fn extension_of(path: Seq<char>) -> Seq<char> {
    let name = file_name_of(path);
    let d = last_index_of(name, '.', name.len() as int);
    if 0 < d && d + 1 < name.len() {
        name.subrange(d + 1, name.len() as int)
    } else {
        seq!['b', 'i', 'n']
    }
}

/// The export file name with collision suffix `k` (none for 0).
pub open spec fn candidate_name(stem: Seq<char>, k: nat, ext: Seq<char>) -> Seq<char> {
    stem + (if k == 0 {
        Seq::<char>::empty()
    } else {
        seq!['_'] + dec(k)
    }) + seq!['.'] + ext
}

pub open spec fn candidate_path(dir: Seq<char>, stem: Seq<char>, k: nat, ext: Seq<char>) -> Seq<
    char,
> {
    dir + seq!['/'] + candidate_name(stem, k, ext)
}

/// The collision suffix chosen for a file: the first of 0 (no suffix),
/// 1, ..., 9 whose path is not taken, and 9 when all are taken.
pub open spec fn first_free(
    taken: Seq<Seq<char>>,
    dir: Seq<char>,
    stem: Seq<char>,
    ext: Seq<char>,
    k: nat,
) -> nat
    decreases 9 - k,
{
    if k >= 9 || !taken.contains(candidate_path(dir, stem, k, ext)) {
        k
    } else {
        first_free(taken, dir, stem, ext, k + 1)
    }
}

/// The export directory: `<destination>/[shard_N/]<media type>/<year>`.
pub open spec fn dir_of(dest: Seq<char>, shard: Option<nat>, media: Seq<char>, year: int) -> Seq<
    char,
> {
    dest + seq!['/'] + match shard {
        Some(n) => seq!['s', 'h', 'a', 'r', 'd', '_'] + dec(n) + seq!['/'],
        None => Seq::<char>::empty(),
    } + media + seq!['/'] + signed_padded(year, 0)
}

/// The running byte total after adding `size`, held at the largest `u64`.
pub open spec fn total_after(total: u64, size: u64) -> u64 {
    if total + size > u64::MAX {
        u64::MAX
    } else {
        (total + size) as u64
    }
}

/// The shard of a file whose running total (its own size included) is
/// `total`: `total / split + 1`; none without a split threshold.
pub open spec fn shard_of(split_at: Option<u64>, total: u64) -> Option<nat> {
    match split_at {
        Some(s) => Some((total / s + 1) as nat),
        None => None,
    }
}

/// A file passes the selector when there is none, or when its media type is
/// the selected one.
pub open spec fn selected(selector: Option<Seq<char>>, media: Seq<char>) -> bool {
    match selector {
        Some(m) => m == media,
        None => true,
    }
}

pub ghost struct BuildPlanView {
    pub destination: Seq<char>,
    pub selector: Option<Seq<char>>,
    pub split_at: Option<u64>,
    pub running_total: u64,
    pub taken: Seq<Seq<char>>,
}

pub ghost struct PlacementView {
    pub source: Seq<char>,
    pub media_type: Seq<char>,
    pub shard: Option<nat>,
    pub directory: Seq<char>,
    pub destination: Seq<char>,
}

/// Where the plan `p` puts the file `f` created at local time `c`, and the
/// plan after it, when `f` passes the selector.
pub open spec fn placed(p: BuildPlanView, f: FileView, c: CivilTime) -> (PlacementView, BuildPlanView) {
    let total = total_after(p.running_total, f.size_bytes);
    let shard = shard_of(p.split_at, total);
    let dir = dir_of(p.destination, shard, f.media_type, c.year as int);
    let stem = stem_of(c);
    let ext = extension_of(f.path);
    let k = first_free(p.taken, dir, stem, ext, 0);
    let dest = candidate_path(dir, stem, k, ext);
    (
        PlacementView {
            source: f.path,
            media_type: f.media_type,
            shard,
            directory: dir,
            destination: dest,
        },
        BuildPlanView { running_total: total, taken: p.taken.push(dest), ..p },
    )
}

/// Why a file could not be placed.
#[derive(Clone, Copy, Debug, PartialEq, Eq, Structural)]
pub enum PlacementError {
    /// Its creation time has no date in this machine's time zone.
    NoLocalTime,
}

/// One file to place: link or copy `source` to `destination`, inside
/// `directory`.
#[derive(Debug)]
pub struct Placement {
    pub source: String,
    pub media_type: String,
    pub shard: Option<u128>,
    pub directory: String,
    pub destination: String,
}

impl View for Placement {
    type V = PlacementView;

    open spec fn view(&self) -> PlacementView {
        PlacementView {
            source: self.source@,
            media_type: self.media_type@,
            shard: match self.shard {
                Some(n) => Some(n as nat),
                None => None,
            },
            directory: self.directory@,
            destination: self.destination@,
        }
    }
}

/// The sequential state of an export: where it goes, which media type it
/// keeps, the shard threshold, the bytes placed so far and the paths taken.
pub struct BuildPlan {
    destination: String,
    selector: Option<String>,
    split_at: Option<u64>,
    running_total: u64,
    taken: Vec<String>,
}

pub open spec fn string_views(s: Seq<String>) -> Seq<Seq<char>> {
    s.map_values(|x: String| x@)
}

impl View for BuildPlan {
    type V = BuildPlanView;

    closed spec fn view(&self) -> BuildPlanView {
        BuildPlanView {
            destination: self.destination@,
            selector: match self.selector {
                Some(m) => Some(m@),
                None => None,
            },
            split_at: self.split_at,
            running_total: self.running_total,
            taken: string_views(self.taken@),
        }
    }
}

/// The position of the last `c` in `s`, if any.
fn last_index(s: &str, c: char) -> (r: Option<usize>)
    ensures
        match r {
            Some(k) => k as int == last_index_of(s@, c, s@.len() as int) && k < s@.len(),
            None => last_index_of(s@, c, s@.len() as int) == -1,
        },
{
    let n = s.unicode_len();
    let mut i: usize = n;
    while i > 0
        invariant
            n == s@.len(),
            i <= n,
            last_index_of(s@, c, n as int) == last_index_of(s@, c, i as int),
        decreases i,
    {
        if s.get_char(i - 1) == c {
            return Some(i - 1);
        }
        i = i - 1;
    }
    None
}

/// The export extension of `path`: see `extension_of`.
pub fn extension(path: &str) -> (r: String)
    ensures
        r@ == extension_of(path@),
{
    let n = path.unicode_len();
    let start: usize = match last_index(path, '/') {
        Some(k) => k + 1,
        None => 0,
    };
    let name = path.substring_char(start, n);
    assert(name@ == file_name_of(path@));
    let m = name.unicode_len();
    match last_index(name, '.') {
        Some(d) => {
            if 0 < d && d + 1 < m {
                return String::from_str(name.substring_char(d + 1, m));
            }
        },
        None => {},
    }
    let r = String::from_str("bin");
    proof {
        reveal_strlit("bin");
    }
    assert(r@ =~= seq!['b', 'i', 'n']);
    r
}

fn push_str(s: &mut String, lit: &str)
    ensures
        final(s)@ == old(s)@ + lit@,
{
    s.append(lit);
}

/// The export file name for local time `c`: `DD-MM-YYYY_HH:MM:SS`.
pub fn file_stem(c: &CivilTime) -> (r: String)
    ensures
        r@ == stem_of(*c),
{
    proof {
        reveal_strlit("-");
        reveal_strlit("_");
        reveal_strlit(":");
    }
    let mut s = padded_decimal(c.day as u128, 2);
    push_str(&mut s, "-");
    s.append(padded_decimal(c.month as u128, 2).as_str());
    push_str(&mut s, "-");
    s.append(signed_padded_decimal(c.year as i64, 4).as_str());
    push_str(&mut s, "_");
    s.append(padded_decimal(c.hour as u128, 2).as_str());
    push_str(&mut s, ":");
    s.append(padded_decimal(c.minute as u128, 2).as_str());
    push_str(&mut s, ":");
    s.append(padded_decimal(c.second as u128, 2).as_str());
    assert(s@ =~= stem_of(*c));
    s
}

fn candidate(dir: &String, stem: &String, k: u128, ext: &String) -> (r: String)
    requires
        k <= 9,
    ensures
        r@ == candidate_path(dir@, stem@, k as nat, ext@),
{
    proof {
        reveal_strlit("/");
        reveal_strlit("_");
        reveal_strlit(".");
    }
    let mut s = dir.clone();
    push_str(&mut s, "/");
    s.append(stem.as_str());
    if k > 0 {
        push_str(&mut s, "_");
        s.append(decimal(k).as_str());
    }
    push_str(&mut s, ".");
    s.append(ext.as_str());
    assert(s@ =~= candidate_path(dir@, stem@, k as nat, ext@));
    s
}

fn contains_string(v: &Vec<String>, x: &String) -> (r: bool)
    ensures
        r == string_views(v@).contains(x@),
{
    let mut i: usize = 0;
    while i < v.len()
        invariant
            i <= v@.len(),
            forall|j: int| 0 <= j < i ==> (#[trigger] v@[j])@ != x@,
        decreases v@.len() - i,
    {
        if v[i] == *x {
            assert(string_views(v@)[i as int] == x@);
            return true;
        }
        i = i + 1;
    }
    assert forall|j: int| 0 <= j < string_views(v@).len() implies #[trigger] string_views(v@)[j] != x@ by {
        assert(string_views(v@)[j] == v@[j]@);
    }
    false
}

fn export_directory(dest: &String, shard: Option<u128>, media: &String, year: i32) -> (r: String)
    ensures
        r@ == dir_of(
            dest@,
            match shard {
                Some(n) => Some(n as nat),
                None => None,
            },
            media@,
            year as int,
        ),
{
    proof {
        reveal_strlit("/");
        reveal_strlit("shard_");
    }
    let mut s = dest.clone();
    push_str(&mut s, "/");
    match shard {
        Some(n) => {
            push_str(&mut s, "shard_");
            s.append(decimal(n).as_str());
            push_str(&mut s, "/");
        },
        None => {},
    }
    s.append(media.as_str());
    push_str(&mut s, "/");
    s.append(signed_padded_decimal(year as i64, 0).as_str());
    assert(s@ =~= dir_of(
        dest@,
        match shard {
            Some(n) => Some(n as nat),
            None => None,
        },
        media@,
        year as int,
    ));
    s
}

impl BuildPlan {
    #[verifier::type_invariant]
    spec fn inv(self) -> bool {
        self.split_at != Some(0u64)
    }

    /// A plan for an export under `destination`, keeping only files of media
    /// type `selector` when one is given, and sharded every `split_at` bytes
    /// when a threshold is given. `None` when the threshold is zero.
    pub fn new(destination: String, selector: Option<String>, split_at: Option<u64>) -> (r: Option<
        BuildPlan,
    >)
        ensures
            match r {
                Some(p) => split_at != Some(0u64) && p@ == (BuildPlanView {
                    destination: destination@,
                    selector: match selector {
                        Some(m) => Some(m@),
                        None => None,
                    },
                    split_at,
                    running_total: 0,
                    taken: Seq::empty(),
                }),
                None => split_at == Some(0u64),
            },
    {
        if split_at == Some(0u64) {
            return None;
        }
        let p = BuildPlan { destination, selector, split_at, running_total: 0, taken: Vec::new() };
        assert(string_views(p.taken@) =~= Seq::<Seq<char>>::empty());
        Some(p)
    }

    /// Marks `path` as taken, for a file that already exists at the
    /// destination.
    pub fn reserve(&mut self, path: String)
        ensures
            final(self)@ == (BuildPlanView { taken: old(self)@.taken.push(path@), ..old(self)@ }),
    {
        proof {
            use_type_invariant(&*self);
        }
        let mut taken: Vec<String> = Vec::new();
        std::mem::swap(&mut taken, &mut self.taken);
        taken.push(path);
        self.taken = taken;
        assert(string_views(self.taken@) =~= string_views(old(self).taken@).push(path@));
    }

    /// Whether a file of media type `media` passes the selector.
    pub fn passes(&self, media: &String) -> (r: bool)
        ensures
            r == selected(self@.selector, media@),
    {
        match &self.selector {
            Some(m) => *m == *media,
            None => true,
        }
    }

    /// Plans the placement of `file` by its creation time in this machine's
    /// time zone: nothing for a file that the selector leaves out; an error,
    /// with the plan unchanged, when that local time cannot be had;
    /// otherwise what `place_next` plans for it at its local time.
    pub fn place_file(&mut self, file: &File) -> (r: Result<Option<Placement>, PlacementError>)
        ensures
            !selected(old(self)@.selector, file@.media_type) ==> r == Ok::<
                Option<Placement>,
                PlacementError,
            >(None) && final(self)@ == old(self)@,
            r is Err ==> final(self)@ == old(self)@,
            selected(old(self)@.selector, file@.media_type) && r is Ok ==> r->Ok_0 is Some && exists|
                c: CivilTime,
            |
                c.wf() && (r->Ok_0->0@, final(self)@) == #[trigger] placed(old(self)@, file@, c),
    {
        if !self.passes(&file.media_type) {
            return Ok(None);
        }
        match local_civil(file.created_at) {
            None => Err(PlacementError::NoLocalTime),
            Some(c) => {
                let p = self.place_next(file, &c);
                Ok(p)
            },
        }
    }

    /// The files to export, one per equivalence class: in creation order,
    /// the earliest of each class, when sharding (so that shards fill in
    /// chronological order); otherwise the first of each class in insertion
    /// order.
    pub fn representatives(&self, catalog: &Catalog) -> (r: Vec<File>)
        ensures
            self@.split_at is None ==> views(r@) == leaders(catalog@, catalog@.len() as int),
            self@.split_at is Some ==> {
                &&& r@.len() == class_keys(catalog@).len()
                &&& forall|k: int| 0 <= k < r@.len() ==> is_earliest_row(catalog@, #[trigger] r@[k]@)
                &&& forall|k: int, l: int|
                    0 <= k < l < r@.len() ==> !same_class(#[trigger] r@[k]@, #[trigger] r@[l]@)
                &&& forall|k: int, l: int|
                    0 <= k < l < r@.len() ==> (#[trigger] r@[k]@).created_at <= (
                    #[trigger] r@[l]@).created_at
            },
    {
        if self.split_at.is_some() {
            catalog.find_unique_files_ordered()
        } else {
            catalog.find_unique_files()
        }
    }

    /// Plans the placement of `file`, created at local time `created`:
    /// nothing when its media type does not pass the selector; otherwise its
    /// directory, with the shard counted from the running byte total that
    /// includes it, and its path, with the first free collision suffix.
    pub fn place_next(&mut self, file: &File, created: &CivilTime) -> (r: Option<Placement>)
        ensures
            selected(old(self)@.selector, file@.media_type) ==> r is Some && (r->0@, final(self)@)
                == placed(old(self)@, file@, *created),
            !selected(old(self)@.selector, file@.media_type) ==> r is None && final(self)@ == old(
                self,
            )@,
    {
        proof {
            use_type_invariant(&*self);
        }
        if !self.passes(&file.media_type) {
            return None;
        }
        let total = self.running_total.saturating_add(file.size_bytes);
        let shard: Option<u128> = match self.split_at {
            Some(s) => Some((total / s) as u128 + 1),
            None => None,
        };
        let dir = export_directory(&self.destination, shard, &file.media_type, created.year);
        let stem = file_stem(created);
        let ext = extension(file.path.as_str());
        let ghost taken = string_views(self.taken@);
        let mut k: u128 = 0;
        let mut path = candidate(&dir, &stem, 0, &ext);
        while k < 9 && contains_string(&self.taken, &path)
            invariant
                k <= 9,
                taken == string_views(self.taken@),
                path@ == candidate_path(dir@, stem@, k as nat, ext@),
                first_free(taken, dir@, stem@, ext@, 0) == first_free(taken, dir@, stem@, ext@, k as nat),
            decreases 9 - k,
        {
            k = k + 1;
            path = candidate(&dir, &stem, k, &ext);
        }
        let ghost before = self@;
        let placement = Placement {
            source: file.path.clone(),
            media_type: file.media_type.clone(),
            shard,
            directory: dir,
            destination: path.clone(),
        };
        self.running_total = total;
        let mut all: Vec<String> = Vec::new();
        std::mem::swap(&mut all, &mut self.taken);
        all.push(path);
        self.taken = all;
        assert(string_views(self.taken@) =~= taken.push(placement.destination@));
        assert(self@ == placed(before, file@, *created).1);
        Some(placement)
    }
}

/// Two files placed one after the other that map to the same directory and
/// the same file name: the first gets the plain name and the second the
/// suffix `_1`, when neither name was taken before.
pub proof fn lemma_collision_suffix(
    p: BuildPlanView,
    f1: FileView,
    c1: CivilTime,
    f2: FileView,
    c2: CivilTime,
)
    requires
        ({
            let (first, after_first) = placed(p, f1, c1);
            let (second, after_second) = placed(after_first, f2, c2);
            let dir = first.directory;
            let stem = stem_of(c1);
            let ext = extension_of(f1.path);
            &&& second.directory == dir
            &&& stem_of(c2) == stem
            &&& extension_of(f2.path) == ext
            &&& !p.taken.contains(candidate_path(dir, stem, 0, ext))
            &&& !p.taken.contains(candidate_path(dir, stem, 1, ext))
        }),
    ensures
        ({
            let (first, after_first) = placed(p, f1, c1);
            let (second, after_second) = placed(after_first, f2, c2);
            &&& first.destination == candidate_path(first.directory, stem_of(c1), 0, extension_of(f1.path))
            &&& second.destination == candidate_path(first.directory, stem_of(c1), 1, extension_of(f1.path))
        }),
{
    let (first, after_first) = placed(p, f1, c1);
    let dir = first.directory;
    let stem = stem_of(c1);
    let ext = extension_of(f1.path);
    let c0 = candidate_path(dir, stem, 0, ext);
    let cand1 = candidate_path(dir, stem, 1, ext);
    assert(first_free(p.taken, dir, stem, ext, 0) == 0);
    assert(after_first.taken == p.taken.push(c0));
    assert(after_first.taken.contains(c0)) by {
        assert(after_first.taken[p.taken.len() as int] == c0);
    }
    assert(dec(1) == seq!['1']);
    assert(c0.len() + 2 == cand1.len());
    assert(!after_first.taken.contains(cand1)) by {
        if after_first.taken.contains(cand1) {
            let i = choose|i: int| 0 <= i < after_first.taken.len() && after_first.taken[i] == cand1;
            if i < p.taken.len() {
                assert(p.taken[i] == cand1);
            }
        }
    }
    assert(first_free(after_first.taken, dir, stem, ext, 1) == 1);
}

/// A placed file passes the selector: with a selector, its media type is
/// the selected one, and its directory is the one for that media type.
pub proof fn lemma_selector_filters(p: BuildPlanView, f: FileView, c: CivilTime, m: Seq<char>)
    requires
        p.selector == Some(m),
        selected(p.selector, f.media_type),
    ensures
        placed(p, f, c).0.media_type == m,
        placed(p, f, c).0.directory == dir_of(
            p.destination,
            shard_of(p.split_at, total_after(p.running_total, f.size_bytes)),
            m,
            c.year as int,
        ),
{
}

} // verus!
