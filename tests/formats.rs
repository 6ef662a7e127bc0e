use chrono::NaiveDateTime;
use media_dedup::config::{parse_size, SizeError};
use media_dedup::csv::CsvRow;
use media_dedup::hasher::{content_fingerprint, hex_encode};
use media_dedup::ingest::{classify, extract_mimetype, ingest_record, media_type_of_mime, SkipReason};
use media_dedup::optimize::{artifact_path, optimized_record, transcode_args};
use media_dedup::record::{CivilTime, File};
use media_dedup::text::{decimal, padded_decimal, parse_unsigned, signed_padded_decimal};
use media_dedup::timestamp::{image_civil_time, image_timestamp, video_civil_time, video_timestamp};

#[test]
fn test_extract_mimetype() {
    assert_eq!(
        "video/mp4",
        extract_mimetype("/storage/Videos/2023/2023-09-01-22-49-41-343.mp4")
    );
}

#[test]
fn test_time_parse() {
    NaiveDateTime::parse_from_str("2024-07-21T07:17:32.000000Z", "%Y-%m-%dT%H:%M:%S%.6fZ")
        .unwrap();
}

#[test]
fn media_types_from_paths() {
    assert_eq!(classify("/p/a.jpg"), "image");
    assert_eq!(classify("/p/a.PNG"), "image");
    assert_eq!(classify("/p/a.mp4"), "video");
    assert_eq!(classify("/p/a.txt"), "other");
    assert_eq!(classify("/p/noext"), "other");
    assert_eq!(media_type_of_mime("image/jpeg"), "image");
    assert_eq!(media_type_of_mime("video"), "video");
    assert_eq!(media_type_of_mime("videos/x"), "other");
    assert_eq!(media_type_of_mime(""), "other");
}

#[test]
fn ingest_falls_back_and_skips() {
    let r = ingest_record("/p".to_string(), "image".to_string(), Some(5), Some(9), Some("h".to_string()), 3).unwrap();
    assert_eq!(r.created_at, 5);
    assert_eq!(r.size_bytes, 3);
    assert_eq!(r.content_hash, "h");
    assert!(!r.is_original);
    assert!(r.optimized.is_none());
    let r = ingest_record("/p".to_string(), "image".to_string(), None, Some(9), Some("h".to_string()), 3).unwrap();
    assert_eq!(r.created_at, 9);
    let e = ingest_record("/p".to_string(), "image".to_string(), None, None, Some("h".to_string()), 3);
    assert_eq!(e.unwrap_err(), SkipReason::NoTimestamp);
    let e = ingest_record("/p".to_string(), "image".to_string(), Some(1), None, None, 3);
    assert_eq!(e.unwrap_err(), SkipReason::NoFingerprint);
}

#[test]
fn fingerprint_is_hex_sha256() {
    assert_eq!(
        content_fingerprint(b"abc"),
        "ba7816bf8f01cfea414140de5dae2223b00361a396177a9cb410ff61f20015ad"
    );
    assert_eq!(
        content_fingerprint(b""),
        "e3b0c44298fc1c149afbf4c8996fb92427ae41e4649b934ca495991b7852b855"
    );
    assert_eq!(hex_encode(&[0x00, 0x0f, 0xa0, 0xff]), "000fa0ff");
    assert_eq!(hex_encode(&[]), "");
}

#[test]
fn size_expressions() {
    assert_eq!(parse_size("5GB"), Ok(5_000_000_000));
    assert_eq!(parse_size("100"), Ok(100));
    assert_eq!(parse_size("7b"), Ok(7));
    assert_eq!(parse_size("10kb"), Ok(10_000));
    assert_eq!(parse_size("3M"), Ok(3_000_000));
    assert_eq!(parse_size("2TB"), Ok(2_000_000_000_000));
    assert_eq!(parse_size("1KiB"), Ok(1024));
    assert_eq!(parse_size("2gib"), Ok(2 * 1073741824));
    assert_eq!(parse_size("0GB"), Err(SizeError::NotPositive));
    assert_eq!(parse_size(""), Err(SizeError::Malformed));
    assert_eq!(parse_size("GB"), Err(SizeError::Malformed));
    assert_eq!(parse_size("-5GB"), Err(SizeError::Malformed));
    assert_eq!(parse_size("5XB"), Err(SizeError::UnknownUnit));
    assert_eq!(parse_size("5 GB"), Err(SizeError::UnknownUnit));
    assert_eq!(parse_size("18446744073709551615"), Ok(u64::MAX));
    assert_eq!(parse_size("18446744073709551616"), Err(SizeError::TooLarge));
    assert_eq!(parse_size("20000000000TB"), Err(SizeError::TooLarge));
}

#[test]
fn decimal_text() {
    assert_eq!(decimal(0), "0");
    assert_eq!(decimal(1234567890123), "1234567890123");
    assert_eq!(padded_decimal(7, 2), "07");
    assert_eq!(padded_decimal(123, 2), "123");
    assert_eq!(signed_padded_decimal(-44, 4), "-0044");
    assert_eq!(signed_padded_decimal(2024, 0), "2024");
    assert_eq!(parse_unsigned("+42"), Some(42));
    assert_eq!(parse_unsigned("+"), None);
    assert_eq!(parse_unsigned("4a"), None);
    assert_eq!(parse_unsigned("18446744073709551616"), None);
}

#[test]
fn csv_rows() {
    let r = CsvRow::from_line("\"/a/b.jpg\",\"abc\",\"123\",\"image\"").unwrap();
    assert_eq!(r.path, "/a/b.jpg");
    assert_eq!(r.hash, "abc");
    assert_eq!(r.size, 123);
    assert_eq!(r.media_type, "image");
    let r = CsvRow::from_line("p,h,7,video,extra").unwrap();
    assert_eq!((r.path.as_str(), r.size, r.media_type.as_str()), ("p", 7, "video"));
    assert!(CsvRow::from_line("p,h,7").is_none());
    assert!(CsvRow::from_line("p,h,x,video").is_none());
    assert!(CsvRow::from_line("p,h,-1,video").is_none());
}

#[test]
fn embedded_dates() {
    let fields = vec![None, Some("2019:09:01 07:02:02".to_string()), Some("2000:01:01 00:00:00".to_string())];
    assert_eq!(
        image_civil_time(&fields),
        Some(CivilTime { year: 2019, month: 9, day: 1, hour: 7, minute: 2, second: 2 })
    );
    let dashed = vec![Some("2019-09-01 07:02:02".to_string())];
    assert_eq!(image_civil_time(&dashed).map(|c| c.day), Some(1));
    assert_eq!(image_civil_time(&vec![None, None]), None);
    assert_eq!(image_civil_time(&vec![Some("garbage".to_string())]), None);
    assert_eq!(
        video_civil_time("  2024-07-21T07:17:32.000000Z \n"),
        Some(CivilTime { year: 2024, month: 7, day: 21, hour: 7, minute: 17, second: 32 })
    );
    assert_eq!(video_civil_time("yesterday"), None);
    let secs = image_timestamp(&fields).unwrap();
    // 2019-09-01 07:02:02 UTC, give or take a time zone offset
    assert!((secs - 1_567_321_322).abs() <= 15 * 3600);
    assert!(video_timestamp("2024-07-21T07:17:32Z").is_some());
    assert!(video_timestamp("not a date").is_none());
}

#[test]
fn optimize_records() {
    let f = File {
        path: "/v/a.mov".to_string(),
        size_bytes: 1000,
        content_hash: "abcd".to_string(),
        created_at: 77,
        optimized: None,
        is_original: true,
        media_type: "video".to_string(),
    };
    assert_eq!(artifact_path(&"/tmp/opt".to_string(), &f), "/tmp/opt/abcd_1000.mkv");
    let g = optimized_record(&f, "/tmp/opt/abcd_1000.mkv".to_string(), 250);
    assert_eq!(g.content_hash, "abcd");
    assert_eq!(g.size_bytes, 250);
    assert_eq!(g.optimized.as_deref(), Some("/tmp/opt/abcd_1000.mkv"));
    assert_eq!(g.path, f.path);
    assert_eq!(g.created_at, 77);
    let args = transcode_args("/v/a.mov", "/tmp/o.mkv");
    assert_eq!(
        args,
        vec!["-y", "-i", "/v/a.mov", "-vf", "format=yuv420p", "-crf", "35", "-preset", "8", "-c:v", "libsvtav1", "-c:a", "copy", "/tmp/o.mkv"]
    );
}
