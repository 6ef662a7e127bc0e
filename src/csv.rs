use vstd::prelude::*;
use crate::text::{parse_unsigned, unsigned_of};

verus! {

/// The position of the first `,` at or after `i`, or the length of `s`.
pub open spec fn comma_index(s: Seq<char>, i: int) -> int
    decreases s.len() - i,
{
    if i >= s.len() {
        s.len() as int
    } else if s[i] == ',' {
        i
    } else {
        comma_index(s, i + 1)
    }
}

/// The comma-separated fields of `s` from position `start` on.
pub open spec fn split_from(s: Seq<char>, start: int) -> Seq<Seq<char>>
    decreases s.len() - start,
{
    let c = comma_index(s, start);
    if start < 0 || start > s.len() || c >= s.len() || c < start {
        seq![s.subrange(start, s.len() as int)]
    } else {
        seq![s.subrange(start, c)] + split_from(s, c + 1)
    }
}

pub open spec fn strip_front(f: Seq<char>) -> Seq<char>
    decreases f.len(),
{
    if f.len() > 0 && f[0] == '"' {
        strip_front(f.drop_first())
    } else {
        f
    }
}

pub open spec fn strip_back(f: Seq<char>) -> Seq<char>
    decreases f.len(),
{
    if f.len() > 0 && f.last() == '"' {
        strip_back(f.drop_last())
    } else {
        f
    }
}

/// `f` without the double quotes at either end.
pub open spec fn unquote(f: Seq<char>) -> Seq<char> {
    strip_back(strip_front(f))
}

pub ghost struct CsvRowView {
    pub path: Seq<char>,
    pub hash: Seq<char>,
    pub size: u64,
    pub media_type: Seq<char>,
}

/// The row that a line `path,hash,size,media_type` describes, each field
/// with its surrounding quotes removed; further fields are ignored. `None`
/// when there are fewer than four fields or the size is not a `u64`.
pub open spec fn row_of(line: Seq<char>) -> Option<CsvRowView> {
    let fs = split_from(line, 0);
    if fs.len() >= 4 && unsigned_of(unquote(fs[2])) is Some {
        Some(
            CsvRowView {
                path: unquote(fs[0]),
                hash: unquote(fs[1]),
                size: unsigned_of(unquote(fs[2]))->0,
                media_type: unquote(fs[3]),
            },
        )
    } else {
        None
    }
}

/// One line of a catalog export: a path, its fingerprint, its size and its
/// media type.
#[derive(Debug)]
pub struct CsvRow {
    pub path: String,
    pub hash: String,
    pub size: u64,
    pub media_type: String,
}

impl View for CsvRow {
    type V = CsvRowView;

    open spec fn view(&self) -> CsvRowView {
        CsvRowView { path: self.path@, hash: self.hash@, size: self.size, media_type: self.media_type@ }
    }
}

fn unquoted(f: &str) -> (r: &str)
    ensures
        r@ == unquote(f@),
{
    let n = f.unicode_len();
    let mut i: usize = 0;
    assert(f@.subrange(0, n as int) =~= f@);
    while i < n && f.get_char(i) == '"'
        invariant
            n == f@.len(),
            i <= n,
            strip_front(f@) == strip_front(f@.subrange(i as int, n as int)),
        decreases n - i,
    {
        assert(f@.subrange(i as int, n as int).drop_first() =~= f@.subrange(i + 1, n as int));
        i = i + 1;
    }
    let mut j: usize = n;
    while j > i && f.get_char(j - 1) == '"'
        invariant
            n == f@.len(),
            i <= j <= n,
            strip_back(f@.subrange(i as int, n as int)) == strip_back(f@.subrange(i as int, j as int)),
        decreases j,
    {
        assert(f@.subrange(i as int, j as int).drop_last() =~= f@.subrange(i as int, j - 1));
        j = j - 1;
    }
    f.substring_char(i, j)
}

fn split_fields(line: &str) -> (r: Vec<String>)
    ensures
        r@.map_values(|x: String| x@) == split_from(line@, 0),
{
    let n = line.unicode_len();
    let mut r: Vec<String> = Vec::new();
    let mut start: usize = 0;
    loop
        invariant
            n == line@.len(),
            start <= n,
            r@.map_values(|x: String| x@) + split_from(line@, start as int) == split_from(line@, 0),
        decreases n - start,
    {
        let mut c: usize = start;
        while c < n && line.get_char(c) != ','
            invariant
                n == line@.len(),
                start <= c <= n,
                comma_index(line@, start as int) == comma_index(line@, c as int),
            decreases n - c,
        {
            c = c + 1;
        }
        let ghost before = r@.map_values(|x: String| x@);
        r.push(String::from_str(line.substring_char(start, c)));
        assert(r@.map_values(|x: String| x@) =~= before.push(line@.subrange(start as int, c as int)));
        if c >= n {
            assert(r@.map_values(|x: String| x@) =~= before + split_from(line@, start as int));
            return r;
        }
        assert(before + split_from(line@, start as int) =~= r@.map_values(|x: String| x@)
            + split_from(line@, c + 1));
        start = c + 1;
    }
}

impl CsvRow {
    /// Reads one line `path,hash,size,media_type`; see `row_of`.
    pub fn from_line(line: &str) -> (r: Option<CsvRow>)
        ensures
            match r {
                Some(row) => row_of(line@) == Some(row@),
                None => row_of(line@) is None,
            },
    {
        let fields = split_fields(line);
        let ghost fs = split_from(line@, 0);
        if fields.len() < 4 {
            return None;
        }
        assert(fields@[0]@ == fs[0] && fields@[1]@ == fs[1] && fields@[2]@ == fs[2] && fields@[3]@ == fs[3]);
        let size = match parse_unsigned(unquoted(fields[2].as_str())) {
            Some(v) => v,
            None => return None,
        };
        Some(
            CsvRow {
                path: String::from_str(unquoted(fields[0].as_str())),
                hash: String::from_str(unquoted(fields[1].as_str())),
                size,
                media_type: String::from_str(unquoted(fields[3].as_str())),
            },
        )
    }
}

} // verus!
