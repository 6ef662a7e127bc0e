use vstd::prelude::*;

verus! {

/// The catalog's picture of one scanned file.
pub ghost struct FileView {
    pub path: Seq<char>,
    pub size_bytes: u64,
    pub content_hash: Seq<char>,
    pub created_at: i64,
    pub optimized: Option<Seq<char>>,
    pub is_original: bool,
    pub media_type: Seq<char>,
}

/// One catalog row: a scanned file path with its size, content fingerprint,
/// creation time (seconds since the Unix epoch), media type and the
/// bookkeeping of the optimize step.
#[derive(Debug)]
pub struct File {
    pub path: String,
    pub size_bytes: u64,
    pub content_hash: String,
    pub created_at: i64,
    pub optimized: Option<String>,
    pub is_original: bool,
    pub media_type: String,
}

pub open spec fn opt_view(o: Option<String>) -> Option<Seq<char>> {
    match o {
        Some(s) => Some(s@),
        None => None,
    }
}

impl View for File {
    type V = FileView;

    open spec fn view(&self) -> FileView {
        FileView {
            path: self.path@,
            size_bytes: self.size_bytes,
            content_hash: self.content_hash@,
            created_at: self.created_at,
            optimized: opt_view(self.optimized),
            is_original: self.is_original,
            media_type: self.media_type@,
        }
    }
}

/// The equivalence-class key of a row: two rows hold the same content
/// exactly when their keys are equal.
pub open spec fn class_key(f: FileView) -> (Seq<char>, u64) {
    (f.content_hash, f.size_bytes)
}

pub open spec fn same_class(a: FileView, b: FileView) -> bool {
    class_key(a) == class_key(b)
}

/// A civil date and time of day, as a clock in some time zone shows it.
#[derive(Clone, Copy, Debug, PartialEq, Eq, Structural)]
pub struct CivilTime {
    pub year: i32,
    pub month: u32,
    pub day: u32,
    pub hour: u32,
    pub minute: u32,
    pub second: u32,
}

impl CivilTime {
    /// Each field lies in its calendar range.
    pub open spec fn wf(&self) -> bool {
        1 <= self.month <= 12 && 1 <= self.day <= 31 && self.hour < 24 && self.minute < 60
            && self.second < 60
    }
}

/// Being of the same class means equal fingerprint and equal size; it is an
/// equivalence relation.
pub proof fn lemma_class_partition(a: FileView, b: FileView, c: FileView)
    ensures
        same_class(a, b) <==> (a.content_hash == b.content_hash && a.size_bytes == b.size_bytes),
        same_class(a, a),
        same_class(a, b) ==> same_class(b, a),
        same_class(a, b) && same_class(b, c) ==> same_class(a, c),
{
}

/// A copy of an optional string.
pub fn clone_opt_string(o: &Option<String>) -> (r: Option<String>)
    ensures
        opt_view(r) == opt_view(*o),
{
    match o {
        Some(s) => Some(s.clone()),
        None => None,
    }
}

impl File {
    /// A field-by-field copy.
    pub fn duplicate(&self) -> (r: File)
        ensures
            r@ == self@,
    {
        File {
            path: self.path.clone(),
            size_bytes: self.size_bytes,
            content_hash: self.content_hash.clone(),
            created_at: self.created_at,
            optimized: clone_opt_string(&self.optimized),
            is_original: self.is_original,
            media_type: self.media_type.clone(),
        }
    }

    /// Whether `self` and `other` hold the same content: equal fingerprint
    /// and equal size.
    pub fn same_content(&self, other: &File) -> (r: bool)
        ensures
            r == same_class(self@, other@),
    {
        self.size_bytes == other.size_bytes && self.content_hash == other.content_hash
    }
}

} // verus!
