use vstd::prelude::*;
use crate::record::{File, FileView};

verus! {

/// The MIME type that mime_guess assigns to `path`, from its extension.
pub uninterp spec fn guessed_mime(path: Seq<char>) -> Seq<char>;

/// Relies on `mime_guess::from_path(path).first_or_octet_stream()` and the
/// `essence_str` of the `Mime` it gives: the `type/subtype` guessed from the
/// path's extension alone, `application/octet-stream` when none is known.
#[verifier::external_body]
pub fn extract_mimetype(path: &str) -> (r: String)
    ensures
        r@ == guessed_mime(path@),
{
    mime_guess::from_path(path).first_or_octet_stream().essence_str().to_string()
}

/// The position of the first `/` in `m`, or its length when there is none.
pub open spec fn slash_index(m: Seq<char>, i: int) -> int
    decreases m.len() - i,
{
    if i >= m.len() {
        m.len() as int
    } else if m[i] == '/' {
        i
    } else {
        slash_index(m, i + 1)
    }
}

pub open spec fn image_word() -> Seq<char> {
    seq!['i', 'm', 'a', 'g', 'e']
}

pub open spec fn video_word() -> Seq<char> {
    seq!['v', 'i', 'd', 'e', 'o']
}

pub open spec fn other_word() -> Seq<char> {
    seq!['o', 't', 'h', 'e', 'r']
}

/// The catalog's media type for a MIME type: `image` or `video` when its
/// top-level type (before the first `/`) is that word, `other` otherwise.
pub open spec fn media_kind(mime: Seq<char>) -> Seq<char> {
    let top = mime.subrange(0, slash_index(mime, 0));
    if top == image_word() {
        image_word()
    } else if top == video_word() {
        video_word()
    } else {
        other_word()
    }
}

/// The catalog's media type for the MIME type `mime`.
pub fn media_type_of_mime(mime: &str) -> (r: String)
    ensures
        r@ == media_kind(mime@),
{
    let n = mime.unicode_len();
    let mut i: usize = 0;
    while i < n && mime.get_char(i) != '/'
        invariant
            n == mime@.len(),
            i <= n,
            slash_index(mime@, 0) == slash_index(mime@, i as int),
        decreases n - i,
    {
        i = i + 1;
    }
    let top = String::from_str(mime.substring_char(0, i));
    let image = String::from_str("image");
    let video = String::from_str("video");
    proof {
        reveal_strlit("image");
        reveal_strlit("video");
        reveal_strlit("other");
    }
    assert(image@ =~= image_word());
    assert(video@ =~= video_word());
    if top == image {
        image
    } else if top == video {
        video
    } else {
        let other = String::from_str("other");
        assert(other@ =~= other_word());
        other
    }
}

/// The catalog's media type of the file at `path`, by its guessed MIME
/// type.
pub fn classify(path: &str) -> (r: String)
    ensures
        r@ == media_kind(guessed_mime(path@)),
{
    let mime = extract_mimetype(path);
    media_type_of_mime(mime.as_str())
}

/// Why a scanned file was left out of the catalog.
#[derive(Clone, Copy, Debug, PartialEq, Eq, Structural)]
pub enum SkipReason {
    /// Neither embedded metadata nor the file system gave a creation time.
    NoTimestamp,
    /// The content could not be read to fingerprint it.
    NoFingerprint,
}

/// The row for a scanned file: its creation time is the embedded one when
/// present, else the file system's modification time; the file is skipped
/// when it has neither, or when it has no fingerprint. A new row has no
/// optimized artifact and is not marked original.
pub fn ingest_record(
    path: String,
    media_type: String,
    embedded: Option<i64>,
    modified: Option<i64>,
    content_hash: Option<String>,
    size_bytes: u64,
) -> (r: Result<File, SkipReason>)
    ensures
        match (embedded, modified) {
            (None, None) => r == Err::<File, SkipReason>(SkipReason::NoTimestamp),
            _ => match content_hash {
                None => r == Err::<File, SkipReason>(SkipReason::NoFingerprint),
                Some(h) => r matches Ok(f) && f@ == (FileView {
                    path: path@,
                    size_bytes,
                    content_hash: h@,
                    created_at: match embedded {
                        Some(t) => t,
                        None => modified->0,
                    },
                    optimized: None,
                    is_original: false,
                    media_type: media_type@,
                }),
            },
        },
{
    let created_at = match embedded {
        Some(t) => t,
        None => match modified {
            Some(t) => t,
            None => return Err(SkipReason::NoTimestamp),
        },
    };
    match content_hash {
        None => Err(SkipReason::NoFingerprint),
        Some(h) => Ok(
            File {
                path,
                size_bytes,
                content_hash: h,
                created_at,
                optimized: None,
                is_original: false,
                media_type,
            },
        ),
    }
}

} // verus!
