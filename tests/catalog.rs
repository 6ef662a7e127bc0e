use media_dedup::catalog::Catalog;
use media_dedup::record::File;

fn row(path: &str, hash: &str, size: u64, created_at: i64, media: &str) -> File {
    File {
        path: path.to_string(),
        size_bytes: size,
        content_hash: hash.to_string(),
        created_at,
        optimized: None,
        is_original: false,
        media_type: media.to_string(),
    }
}

fn paths(v: &[File]) -> Vec<String> {
    v.iter().map(|f| f.path.clone()).collect()
}

fn sample() -> Vec<File> {
    vec![
        row("/a/1.jpg", "h1", 10, 300, "image"),
        row("/a/2.jpg", "h1", 10, 100, "image"),
        row("/a/3.mp4", "h2", 50, 200, "video"),
        row("/a/4.jpg", "h1", 11, 50, "image"),
        row("/a/5.mp4", "h2", 50, 200, "video"),
        row("/a/6.mp4", "h2", 50, 400, "video"),
    ]
}

fn scanned(files: &[File]) -> Catalog {
    let mut c = Catalog::new();
    for f in files {
        c.insert_file(f);
    }
    c
}

#[test]
fn rescan_keeps_rows_and_keys() {
    let files = sample();
    let mut c = scanned(&files);
    let once = c.find_unique_files();
    let count = c.count_files();
    for f in &files {
        c.insert_file(f);
    }
    assert_eq!(c.count_files(), count);
    assert_eq!(c.count_files(), 6);
    for f in &files {
        let dups = c.find_dup_files(&f.content_hash, f.size_bytes);
        assert!(dups.iter().any(|d| d.path == f.path));
    }
    assert_eq!(paths(&c.find_unique_files()), paths(&once));
}

#[test]
fn upsert_replaces_row_for_same_path() {
    let mut c = Catalog::new();
    c.insert_file(&row("/x.jpg", "old", 5, 10, "image"));
    c.insert_file(&row("/y.jpg", "other", 7, 20, "image"));
    c.insert_file(&row("/x.jpg", "new", 9, 30, "image"));
    assert_eq!(c.count_files(), 2);
    assert!(c.find_dup_files(&"old".to_string(), 5).is_empty());
    let now = c.find_dup_files(&"new".to_string(), 9);
    assert_eq!(now.len(), 1);
    assert_eq!(now[0].path, "/x.jpg");
    assert_eq!(now[0].created_at, 30);
    // the replaced row moves to the end of insertion order
    assert_eq!(paths(&c.find_unique_files()), vec!["/y.jpg", "/x.jpg"]);
}

#[test]
fn classes_need_equal_hash_and_size() {
    let c = scanned(&sample());
    assert_eq!(paths(&c.find_dup_files(&"h1".to_string(), 10)), vec!["/a/1.jpg", "/a/2.jpg"]);
    assert_eq!(paths(&c.find_dup_files(&"h1".to_string(), 11)), vec!["/a/4.jpg"]);
    assert_eq!(
        paths(&c.find_dup_files(&"h2".to_string(), 50)),
        vec!["/a/3.mp4", "/a/5.mp4", "/a/6.mp4"]
    );
    assert!(c.find_dup_files(&"h3".to_string(), 10).is_empty());
}

#[test]
fn redundant_count_is_rows_minus_classes() {
    let c = scanned(&sample());
    assert_eq!(c.count_files(), 6);
    assert_eq!(c.find_unique_files().len(), 3);
    assert_eq!(c.count_redundant_files(), 3);
    assert_eq!(c.count_redundant_files(), c.count_files() - c.find_unique_files().len());
    assert_eq!(Catalog::new().count_redundant_files(), 0);
}

#[test]
fn identical_signs_list_classes_with_copies() {
    let c = scanned(&sample());
    let signs = c.find_identical_signs();
    assert_eq!(signs, vec![("h1".to_string(), 10, 2), ("h2".to_string(), 50, 3)]);
}

#[test]
fn mark_originals_picks_earliest_then_first_inserted() {
    let mut c = scanned(&sample());
    let changed = c.mark_original_files();
    assert_eq!(changed, 3);
    assert_eq!(c.count_original_files(), 3);
    let h1 = c.find_dup_files(&"h1".to_string(), 10);
    assert_eq!(h1.iter().filter(|f| f.is_original).count(), 1);
    assert!(h1.iter().any(|f| f.is_original && f.path == "/a/2.jpg"));
    // equal creation times: the earlier insertion wins
    let h2 = c.find_dup_files(&"h2".to_string(), 50);
    assert_eq!(h2.iter().filter(|f| f.is_original).count(), 1);
    assert!(h2.iter().any(|f| f.is_original && f.path == "/a/3.mp4"));
    assert!(c.find_dup_files(&"h1".to_string(), 11)[0].is_original);
    // a second pass changes nothing
    assert_eq!(c.mark_original_files(), 0);
    assert_eq!(c.count_original_files(), 3);
}

#[test]
fn ordered_unique_files_are_earliest_in_time_order() {
    let c = scanned(&sample());
    let ordered = c.find_unique_files_ordered();
    assert_eq!(paths(&ordered), vec!["/a/4.jpg", "/a/2.jpg", "/a/3.mp4"]);
    let unordered = c.find_unique_files();
    assert_eq!(paths(&unordered), vec!["/a/1.jpg", "/a/3.mp4", "/a/4.jpg"]);
    assert!(Catalog::new().find_unique_files_ordered().is_empty());
}

#[test]
fn unoptimized_originals_of_type() {
    let mut c = scanned(&sample());
    assert!(c.find_unoptimized_originals(&"video".to_string()).is_empty());
    c.mark_original_files();
    assert_eq!(paths(&c.find_unoptimized_originals(&"video".to_string())), vec!["/a/3.mp4"]);
    assert_eq!(
        paths(&c.find_unoptimized_originals(&"image".to_string())),
        vec!["/a/2.jpg", "/a/4.jpg"]
    );
}

#[test]
fn update_optimized_keeps_identity() {
    let mut c = scanned(&sample());
    let mut f = row("/a/3.mp4", "ignored", 7, 0, "ignored");
    f.optimized = Some("/tmp/h2_50.mkv".to_string());
    c.update_optimized_file(&f);
    assert!(c.find_dup_files(&"h2".to_string(), 50).iter().all(|r| r.path != "/a/3.mp4"));
    let now = c.find_dup_files(&"h2".to_string(), 7);
    assert_eq!(now.len(), 1);
    assert_eq!(now[0].path, "/a/3.mp4");
    assert_eq!(now[0].content_hash, "h2");
    assert_eq!(now[0].created_at, 200);
    assert_eq!(now[0].media_type, "video");
    assert_eq!(now[0].optimized.as_deref(), Some("/tmp/h2_50.mkv"));
    assert_eq!(c.count_files(), 6);
}
