use media_dedup::export::{extension, file_stem, BuildPlan, PlacementError};
use media_dedup::record::{CivilTime, File};

fn row(path: &str, hash: &str, size: u64, created_at: i64, media: &str) -> File {
    File {
        path: path.to_string(),
        size_bytes: size,
        content_hash: hash.to_string(),
        created_at,
        optimized: None,
        is_original: false,
        media_type: media.to_string(),
    }
}

fn at(year: i32, month: u32, day: u32, hour: u32, minute: u32, second: u32) -> CivilTime {
    CivilTime { year, month, day, hour, minute, second }
}

#[test]
fn shards_follow_running_total() {
    let mut plan = BuildPlan::new("/out".to_string(), None, Some(100)).unwrap();
    let t = at(2020, 1, 2, 3, 4, 5);
    let a = plan.place_next(&row("/s/a.jpg", "a", 40, 1, "image"), &t).unwrap();
    let b = plan.place_next(&row("/s/b.jpg", "b", 40, 2, "image"), &at(2020, 1, 2, 3, 4, 6)).unwrap();
    let c = plan.place_next(&row("/s/c.jpg", "c", 40, 3, "image"), &at(2020, 1, 2, 3, 4, 7)).unwrap();
    assert_eq!(a.shard, Some(1));
    assert_eq!(b.shard, Some(1));
    assert_eq!(c.shard, Some(2));
    assert_eq!(a.directory, "/out/shard_1/image/2020");
    assert_eq!(b.directory, "/out/shard_1/image/2020");
    assert_eq!(c.directory, "/out/shard_2/image/2020");
    assert_eq!(c.destination, "/out/shard_2/image/2020/02-01-2020_03:04:07.jpg");
}

#[test]
fn same_name_gets_suffix() {
    let mut plan = BuildPlan::new("/out".to_string(), None, None).unwrap();
    let t = at(2019, 9, 1, 7, 2, 2);
    let first = plan.place_next(&row("/s/x.jpg", "x", 1, 0, "image"), &t).unwrap();
    let second = plan.place_next(&row("/t/y.jpg", "y", 1, 0, "image"), &t).unwrap();
    assert_eq!(first.destination, "/out/image/2019/01-09-2019_07:02:02.jpg");
    assert_eq!(second.destination, "/out/image/2019/01-09-2019_07:02:02_1.jpg");
    assert_eq!(first.shard, None);
}

#[test]
fn suffix_stops_at_nine() {
    let mut plan = BuildPlan::new("/out".to_string(), None, None).unwrap();
    let t = at(2019, 9, 1, 7, 2, 2);
    let mut last = String::new();
    for i in 0..11 {
        let p = plan.place_next(&row(&format!("/s/{i}.png"), "x", 1, 0, "image"), &t).unwrap();
        last = p.destination;
    }
    assert_eq!(last, "/out/image/2019/01-09-2019_07:02:02_9.png");
}

#[test]
fn reserved_paths_count_as_taken() {
    let mut plan = BuildPlan::new("/out".to_string(), None, None).unwrap();
    plan.reserve("/out/video/2021/05-06-2021_10:11:12.mp4".to_string());
    let p = plan.place_next(&row("/s/v.mp4", "v", 1, 0, "video"), &at(2021, 6, 5, 10, 11, 12)).unwrap();
    assert_eq!(p.destination, "/out/video/2021/05-06-2021_10:11:12_1.mp4");
}

#[test]
fn selector_keeps_only_its_media_type() {
    let mut plan = BuildPlan::new("/out".to_string(), Some("video".to_string()), Some(100)).unwrap();
    let t = at(2022, 12, 31, 23, 59, 58);
    assert!(plan.place_next(&row("/s/a.jpg", "a", 90, 0, "image"), &t).is_none());
    let v = plan.place_next(&row("/s/b.mov", "b", 90, 0, "video"), &t).unwrap();
    assert_eq!(v.media_type, "video");
    // the skipped image does not count toward the shard total
    assert_eq!(v.shard, Some(1));
    assert_eq!(v.destination, "/out/shard_1/video/2022/31-12-2022_23:59:58.mov");
    assert!(plan.place_next(&row("/s/c.txt", "c", 1, 0, "other"), &t).is_none());
}

#[test]
fn zero_split_is_refused() {
    assert!(BuildPlan::new("/out".to_string(), None, Some(0)).is_none());
}

#[test]
fn extension_defaults_to_bin() {
    assert_eq!(extension("/a/b/photo.JPG"), "JPG");
    assert_eq!(extension("/a/b.d/photo"), "bin");
    assert_eq!(extension("/a/.hidden"), "bin");
    assert_eq!(extension("/a/name."), "bin");
    assert_eq!(extension("clip.tar.gz"), "gz");
}

#[test]
fn stem_is_day_month_year_time() {
    assert_eq!(file_stem(&at(2023, 9, 1, 22, 49, 41)), "01-09-2023_22:49:41");
    assert_eq!(file_stem(&at(987, 12, 25, 0, 0, 0)), "25-12-0987_00:00:00");
}

#[test]
fn local_time_placement_passes_selector_first() {
    let mut plan = BuildPlan::new("/out".to_string(), Some("image".to_string()), None).unwrap();
    assert!(matches!(plan.place_file(&row("/s/a.mp4", "a", 1, 0, "video")), Ok(None)));
    let p = plan.place_file(&row("/s/b.jpg", "b", 1, 1_600_000_000, "image")).unwrap().unwrap();
    assert!(p.directory == "/out/image/2020");
    assert!(p.destination.starts_with("/out/image/2020/"));
    assert!(p.destination.ends_with("-09-2020_") || p.destination.ends_with(".jpg"));
    assert!(p.destination.contains("-09-2020_"));
}

#[test]
fn time_without_local_date_is_an_error() {
    let mut plan = BuildPlan::new("/out".to_string(), None, None).unwrap();
    let r = plan.place_file(&row("/s/far.jpg", "f", 1, i64::MAX, "image"));
    assert_eq!(r.unwrap_err(), PlacementError::NoLocalTime);
    // the failed file took no name
    let p = plan.place_next(&row("/s/a.jpg", "a", 1, 0, "image"), &at(2001, 2, 3, 4, 5, 6)).unwrap();
    assert_eq!(p.destination, "/out/image/2001/03-02-2001_04:05:06.jpg");
}

#[test]
fn running_total_saturates_at_largest_size() {
    let mut plan = BuildPlan::new("/out".to_string(), None, Some(1)).unwrap();
    let t = at(2020, 1, 1, 0, 0, 0);
    let a = plan.place_next(&row("/s/a.bin", "a", u64::MAX, 0, "other"), &t).unwrap();
    assert_eq!(a.shard, Some(u64::MAX as u128 + 1));
    let b = plan.place_next(&row("/s/b.bin", "b", 5, 0, "other"), &t).unwrap();
    assert_eq!(b.shard, Some(u64::MAX as u128 + 1));
    assert_eq!(b.directory, "/out/shard_18446744073709551616/other/2020");
}
