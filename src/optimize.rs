use vstd::prelude::*;
use crate::catalog::{Catalog, marked, unoptimized_originals, views, with_optimization};
use crate::record::{File, FileView};
use crate::text::{dec, decimal};

verus! {

/// The row `f` after its content was transcoded to `artifact`, of
/// `new_size` bytes: the fingerprint and every other field stay.
pub open spec fn optimized_view(f: FileView, artifact: Seq<char>, new_size: u64) -> FileView {
    FileView { optimized: Some(artifact), size_bytes: new_size, ..f }
}

/// The name of the transcoded artifact of the content with fingerprint
/// `hash` and size `size`: `<hash>_<size>.mkv`.
pub open spec fn artifact_name(hash: Seq<char>, size: u64) -> Seq<char> {
    hash + seq!['_'] + dec(size as nat) + seq!['.', 'm', 'k', 'v']
}

/// The media type whose originals are transcoded.
pub open spec fn video_type() -> Seq<char> {
    seq!['v', 'i', 'd', 'e', 'o']
}

/// The path, under `temp_dir`, of the transcoded artifact for `file`; it
/// depends on the file's fingerprint and size alone.
pub fn artifact_path(temp_dir: &String, file: &File) -> (r: String)
    ensures
        r@ == temp_dir@ + seq!['/'] + artifact_name(file@.content_hash, file@.size_bytes),
{
    proof {
        reveal_strlit("/");
        reveal_strlit("_");
        reveal_strlit(".mkv");
    }
    let mut s = temp_dir.clone();
    s.append("/");
    s.append(file.content_hash.as_str());
    s.append("_");
    s.append(decimal(file.size_bytes as u128).as_str());
    s.append(".mkv");
    assert(s@ =~= temp_dir@ + seq!['/'] + artifact_name(file@.content_hash, file@.size_bytes));
    s
}

/// The arguments of the encoder run that transcodes `input` into `output`:
/// overwrite, 4:2:0 pixels, AV1 video at quality 35 and preset 8, audio
/// copied.
pub fn transcode_args(input: &str, output: &str) -> (r: Vec<String>)
    ensures
        r@.len() == 14,
        r@[0]@ == "-y"@,
        r@[1]@ == "-i"@,
        r@[2]@ == input@,
        r@[3]@ == "-vf"@,
        r@[4]@ == "format=yuv420p"@,
        r@[5]@ == "-crf"@,
        r@[6]@ == "35"@,
        r@[7]@ == "-preset"@,
        r@[8]@ == "8"@,
        r@[9]@ == "-c:v"@,
        r@[10]@ == "libsvtav1"@,
        r@[11]@ == "-c:a"@,
        r@[12]@ == "copy"@,
        r@[13]@ == output@,
{
    let mut r: Vec<String> = Vec::new();
    r.push(String::from_str("-y"));
    r.push(String::from_str("-i"));
    r.push(String::from_str(input));
    r.push(String::from_str("-vf"));
    r.push(String::from_str("format=yuv420p"));
    r.push(String::from_str("-crf"));
    r.push(String::from_str("35"));
    r.push(String::from_str("-preset"));
    r.push(String::from_str("8"));
    r.push(String::from_str("-c:v"));
    r.push(String::from_str("libsvtav1"));
    r.push(String::from_str("-c:a"));
    r.push(String::from_str("copy"));
    r.push(String::from_str(output));
    r
}

/// `file` after its transcoding into `artifact` of `new_size` bytes.
pub fn optimized_record(file: &File, artifact: String, new_size: u64) -> (r: File)
    ensures
        r@ == optimized_view(file@, artifact@, new_size),
{
    File {
        path: file.path.clone(),
        size_bytes: new_size,
        content_hash: file.content_hash.clone(),
        created_at: file.created_at,
        optimized: Some(artifact),
        is_original: file.is_original,
        media_type: file.media_type.clone(),
    }
}

impl Catalog {
    /// Recomputes the original flags, then lists the video originals that
    /// have no optimized artifact yet: the optimize step's work list.
    pub fn optimize_queue(&mut self) -> (r: Vec<File>)
        ensures
            final(self)@ == marked(old(self)@),
            views(r@) == unoptimized_originals(
                marked(old(self)@),
                video_type(),
                old(self)@.len() as int,
            ),
    {
        self.mark_original_files();
        let video = String::from_str("video");
        proof {
            reveal_strlit("video");
        }
        assert(video@ =~= video_type());
        self.find_unoptimized_originals(&video)
    }

    /// Records that `file`'s content now lives in `artifact`, of `new_size`
    /// bytes.
    pub fn record_optimized(&mut self, file: &File, artifact: String, new_size: u64)
        ensures
            final(self)@ == with_optimization(old(self)@, optimized_view(file@, artifact@, new_size)),
    {
        let f = optimized_record(file, artifact, new_size);
        self.update_optimized_file(&f);
    }
}

/// Optimizing a row keeps its fingerprint, sets its optimized artifact and
/// sets its size to the artifact's size; no other row changes, and the
/// number of rows stays.
pub proof fn lemma_optimize_preserves_identity(
    rows: Seq<FileView>,
    f: FileView,
    artifact: Seq<char>,
    new_size: u64,
)
    ensures
        ({
            let after = with_optimization(rows, optimized_view(f, artifact, new_size));
            &&& after.len() == rows.len()
            &&& forall|i: int|
                0 <= i < rows.len() && #[trigger] rows[i].path == f.path ==> {
                    &&& after[i].content_hash == rows[i].content_hash
                    &&& after[i].optimized == Some(artifact)
                    &&& after[i].size_bytes == new_size
                    &&& after[i].path == rows[i].path
                    &&& after[i].created_at == rows[i].created_at
                    &&& after[i].is_original == rows[i].is_original
                    &&& after[i].media_type == rows[i].media_type
                }
            &&& forall|i: int|
                0 <= i < rows.len() && #[trigger] rows[i].path != f.path ==> after[i] == rows[i]
        }),
{
}

} // verus!
