use hath::cache_file::{range_text, CacheFileInfo, FileType};
use hath::cache_manager::{
    is_old_temp_file, scan_plan, CacheCheck, CacheManager, CacheScan, CacheState, CheckedRead, CleanPass, FilePlan, FileStat, ScanEntry, VerifyQueue, ONE_DAY,
    ONE_WEEK, SIZE_100MB,
};
use hath::params::Params;
use hath::rpc::Settings;

const ABC: &str = "a9993e364706816aba3e25717850c26c9cd0d89d";

fn info(id: &str) -> CacheFileInfo {
    CacheFileInfo::from_file_id(id).unwrap()
}

fn manager(limit: u64) -> CacheManager {
    let mut settings = Settings::new();
    let mut values = Params::new();
    values.insert("disklimit_bytes".to_string(), limit.to_string());
    settings.update(&values);
    CacheManager::new(&settings)
}

#[test]
fn file_names_read_back() {
    for id in [
        format!("{ABC}-3-640-480-jpg"),
        format!("{ABC}-4294967295-1-0-wbm"),
        format!("{ABC}-3-tar.gz"),
        format!("{ABC}-0-"),
    ] {
        let file = info(&id);
        assert_eq!(file.file_name(), id);
        assert_eq!(info(&file.file_name()).file_name(), id);
    }
}

#[test]
fn file_without_width_loses_its_height() {
    let file = info(&format!("{ABC}-3-0-480-png"));
    assert_eq!(file.file_name(), format!("{ABC}-3-png"));
}

#[test]
fn what_follows_the_type_is_ignored() {
    let file = info(&format!("{}-+003-640-480-png-more-parts", ABC.to_uppercase()));
    assert_eq!(file.size(), 3);
    assert_eq!(file.hash()[0], 0xa9);
    assert_eq!(file.file_name(), format!("{ABC}-3-640-480-png"));
}

#[test]
fn bad_file_ids_are_refused() {
    for id in [
        "".to_string(),
        ABC.to_string(),
        format!("{ABC}-3"),
        format!("{ABC}-3-640-jpg"),
        format!("{ABC}-x-jpg"),
        format!("{ABC}-4294967296-jpg"),
        format!("{ABC}-3-640-y-jpg"),
        format!("{ABC}-3-x-480-jpg"),
        format!("{}-3-jpg", &ABC[1..]),
        format!("{}z-3-jpg", &ABC[1..]),
    ] {
        assert!(CacheFileInfo::from_file_id(&id).is_none(), "{id}");
    }
}

#[test]
fn files_lie_in_the_directories_of_their_range() {
    let file = info(&format!("{ABC}-3-640-480-jpg"));
    let path = file.to_path();
    assert_eq!((path.first.as_str(), path.second.as_str()), ("a9", "99"));
    assert_eq!(path.name, format!("{ABC}-3-640-480-jpg"));
    assert_eq!(file.static_range(), "a999");
    assert_eq!(file.range_key(), 0xa999);
    assert_eq!(range_text(file.range_key()), "a999");
    assert_eq!(range_text(0x000f), "000f");
}

#[test]
fn types_have_tags_and_media_types() {
    let table = [
        ("jpg", "image/jpeg"),
        ("png", "image/png"),
        ("gif", "image/gif"),
        ("mp4", "video/mp4"),
        ("wbm", "video/webm"),
        ("wbp", "image/webp"),
        ("avf", "image/avif"),
        ("jxl", "image/jxl"),
        ("JPG", "application/octet-stream"),
        ("", "application/octet-stream"),
    ];
    for (tag, media) in table {
        let kind = FileType::from_tag(tag);
        assert_eq!(kind.as_str(), tag);
        assert_eq!(kind.to_mime(), media);
        assert_eq!(info(&format!("{ABC}-3-{tag}")).mime_type(), media);
    }
    assert!(FileType::from_tag("jpg") == FileType::Jpeg);
    let file = info(&format!("{ABC}-3-640-480-jpg"));
    assert!(file.clone() == file);
}

#[test]
fn states_count_files() {
    let mut state = CacheState::new(50);
    state.add_file(10);
    state.add_file(5);
    assert_eq!(state, CacheState { file_count: 2, size: 15, oldest: 50 });
    state.remove_file(10);
    assert_eq!(state, CacheState { file_count: 1, size: 5, oldest: 50 });
}

#[test]
fn scan_is_in_the_foreground_when_it_must() {
    let plan = scan_plan(false, false, Some(SIZE_100MB));
    assert_eq!((plan.low_disk, plan.foreground, plan.parallelism, plan.verify), (false, false, 4, false));
    let plan = scan_plan(false, true, Some(SIZE_100MB - 1));
    assert_eq!((plan.low_disk, plan.foreground, plan.parallelism, plan.verify), (true, true, 16, false));
    let plan = scan_plan(true, false, None);
    assert_eq!((plan.low_disk, plan.foreground, plan.parallelism, plan.verify), (false, true, 16, true));
    let plan = scan_plan(true, true, None);
    assert_eq!((plan.foreground, plan.parallelism), (false, 4));
}

#[test]
fn directories_of_other_ranges_are_found() {
    let mut scan = CacheScan::new(vec!["a999".to_string(), "00ff".to_string()], false);
    assert!(scan.directory("A9", "99"));
    assert!(scan.directory("00", "fF"));
    assert!(!scan.directory("00", "fe"));
    assert_eq!(scan.progress(), (0, 2));
    assert!(!CacheScan::new(vec![], false).directory("00", "fe"));
}

#[test]
fn scan_sorts_entries() {
    let good = format!("{ABC}-3-jpg");
    let plain = CacheScan::new(vec![], false);
    let thorough = CacheScan::new(vec![], true);
    assert!(matches!(plain.entry(Some(&good), true, 3), ScanEntry::Directory));
    assert!(matches!(plain.entry(None, false, 3), ScanEntry::Unknown));
    assert!(matches!(plain.entry(Some("x"), false, 3), ScanEntry::Unknown));
    assert!(matches!(thorough.entry(Some(&good), false, 4), ScanEntry::Remove));
    assert!(matches!(thorough.entry(Some(&good), false, 3), ScanEntry::Verify(i) if i.size() == 3));
    assert!(matches!(plain.entry(Some(&good), false, 3), ScanEntry::Count(i) if i.size() == 3));
}

#[test]
fn scan_reports_and_complains() {
    let ranges: Vec<String> = (0..201).map(range_text).collect();
    let mut scan = CacheScan::new(ranges, false);
    assert!(scan.cache_lost());
    for i in 0..201u16 {
        let text = range_text(i);
        assert!(scan.directory(&text[..2], &text[2..]));
    }
    for i in 1..=201 {
        assert_eq!(scan.range_done(), i == 100 || i == 200 || i == 201);
    }
    assert!(!scan.cache_lost());
    assert!(!CacheScan::new((0..20).map(range_text).collect(), false).cache_lost());
    assert!(CacheScan::new((0..21).map(range_text).collect(), false).cache_lost());
    assert!(is_old_temp_file("proxyfile_abc", true));
    assert!(!is_old_temp_file("proxyfile_abc", false));
    assert!(!is_old_temp_file("proxyfile", true));
}

#[test]
fn scan_counts_files_and_finds_the_oldest() {
    let mut cache = manager(1000);
    let a = info(&format!("{ABC}-3-jpg"));
    let b = info("0000000000000000000000000000000000000001-7-png");
    cache.scan_file(&a, 3, 500, 900);
    cache.scan_file(&a, 4, 300, 900);
    cache.scan_file(&b, 7, 950, 900);
    assert_eq!(cache.totals(), Some((14, 3)));
    assert_eq!(cache.state(0xa999), Some(CacheState { file_count: 2, size: 7, oldest: 300 }));
    assert_eq!(cache.state(0), Some(CacheState { file_count: 1, size: 7, oldest: 900 }));
    cache.remove_cache(&a, 4);
    assert_eq!(cache.totals(), Some((10, 2)));
    cache.remove_cache(&info("ffff000000000000000000000000000000000001-7-png"), 7);
    assert_eq!(cache.totals(), Some((10, 2)));
    cache.import_cache(&b, 5, 999);
    assert_eq!(cache.state(0), Some(CacheState { file_count: 2, size: 12, oldest: 900 }));
}

#[test]
fn totals_that_are_too_large_are_not_told() {
    let mut cache = manager(1000);
    cache.scan_file(&info(&format!("{ABC}-3-jpg")), u64::MAX, 1, 1);
    cache.scan_file(&info("0000000000000000000000000000000000000001-7-png"), 1, 1, 1);
    assert_eq!(cache.totals(), None);
    assert_eq!(cache.check_cache_usage(None), None);
}

#[test]
fn room_is_made_for_the_limit_and_for_the_disk() {
    let mut cache = manager(10);
    cache.scan_file(&info(&format!("{ABC}-3-jpg")), 25, 1, 1);
    assert_eq!(cache.check_cache_usage(None), Some(15));
    assert_eq!(cache.check_cache_usage(Some(SIZE_100MB)), Some(15));
    assert_eq!(cache.check_cache_usage(Some(SIZE_100MB - 5)), Some(20));
    let mut settings = Settings::new();
    cache.update_settings(&settings);
    assert_eq!(cache.check_cache_usage(None), Some(0));
    assert_eq!(cache.check_cache_usage(Some(0)), Some(SIZE_100MB));
    let mut values = Params::new();
    values.insert("disklimit_bytes".to_string(), "24".to_string());
    settings.update(&values);
    cache.update_settings(&settings);
    assert_eq!(cache.check_cache_usage(None), Some(1));
}

#[test]
fn oldest_range_is_cleaned_first() {
    let mut cache = manager(10);
    assert!(cache.clean_target(5).is_none());
    assert_eq!(cache.oldest_range(), None);
    cache.scan_file(&info(&format!("{ABC}-3-jpg")), 25, 200, 900);
    cache.scan_file(&info("0102000000000000000000000000000000000001-7-png"), 7, 100, 900);
    assert!(cache.clean_target(0).is_none());
    let target = cache.clean_target(5).unwrap();
    assert_eq!((target.key, target.first.as_str(), target.second.as_str(), target.oldest), (0x0102, "01", "02", 100));
    cache.set_oldest(0x0102, 300);
    assert_eq!(cache.oldest_range(), Some((0xa999, 200)));
    cache.set_oldest(0x0001, 1);
    assert_eq!(cache.oldest_range(), Some((0xa999, 200)));
}

#[test]
fn cleaning_goes_from_old_to_new() {
    let files = vec![(300, 0, 0), (100, 5, 1), (100, 0, 2), (100 + ONE_DAY, 0, 3), (100 + ONE_DAY, 1, 4)];
    let mut pass = CleanPass::new(files, 100, 1000, 7);
    let mut order = Vec::new();
    while let Some(i) = pass.next() {
        order.push(i);
        pass.removed(10);
    }
    assert_eq!(order, vec![2, 1, 0, 3]);
    assert_eq!(pass.need_free(), 960);
    assert_eq!(pass.new_oldest(), 100 + ONE_DAY);
    assert_eq!(pass.next(), None);
}

#[test]
fn cleaning_stops_when_enough_is_free() {
    let mut pass = CleanPass::new(vec![(3, 0, 0), (1, 0, 1), (2, 0, 2)], 1, 15, 7);
    assert_eq!(pass.next(), Some(1));
    pass.removed(10);
    assert_eq!(pass.next(), Some(2));
    pass.removed(10);
    assert_eq!(pass.need_free(), 0);
    assert_eq!(pass.next(), None);
    assert_eq!(pass.new_oldest(), 3);
}

#[test]
fn cleaning_of_everything_keeps_the_last_age() {
    let mut pass = CleanPass::new(vec![(3, 0, 0), (1, 0, 1)], 1, 1000, 7);
    assert_eq!(pass.next(), Some(1));
    assert_eq!(pass.next(), Some(0));
    assert_eq!(pass.next(), None);
    assert_eq!(pass.new_oldest(), 3);
    let mut empty = CleanPass::new(vec![], 1, 1000, 7);
    assert_eq!(empty.next(), None);
    assert_eq!(empty.new_oldest(), 7);
}

#[test]
fn files_are_checked_by_their_place_on_the_disk() {
    let mut queue = VerifyQueue::new();
    queue.insert(Some(9), "nine".to_string());
    queue.insert(Some(2), "two".to_string());
    queue.insert(Some(5), "five".to_string());
    queue.insert(Some(2), "link".to_string());
    assert_eq!(queue.paths(), vec!["link", "five", "nine"]);
    let mut plain = VerifyQueue::new();
    plain.insert(None, "a".to_string());
    plain.insert(None, "b".to_string());
    plain.insert(None, "c".to_string());
    assert_eq!(plain.paths(), vec!["a", "b", "c"]);
}

#[test]
fn content_is_held_against_the_name() {
    let file = info(&format!("{ABC}-3-jpg"));
    let mut check = CacheCheck::new();
    check.update(b"a");
    check.update(b"bc");
    assert!(check.intact(&file));
    let mut check = CacheCheck::new();
    check.update(b"abd");
    assert!(!check.intact(&file));
}

#[test]
fn served_file_is_checked_to_its_end() {
    let file = info(&format!("{ABC}-3-jpg"));
    let mut read = CheckedRead::new(3);
    assert!(read.wants_more());
    read.update(b"ab");
    read.update(b"");
    assert!(read.wants_more());
    read.update(b"c");
    assert!(!read.wants_more());
    assert!(!read.corrupt(&file));
    let mut read = CheckedRead::new(3);
    read.update(b"xyz");
    assert!(read.corrupt(&file));
}

#[test]
fn cached_file_is_checked_once_a_week() {
    let file = info(&format!("{ABC}-3-jpg"));
    let now = 10_000_000;
    let stat = |is_file, len, mtime, mtime_nanos| Some(FileStat { is_file, len, mtime, mtime_nanos });
    assert_eq!(CacheManager::get_file(&file, None, now, 5), FilePlan::Missing);
    assert_eq!(CacheManager::get_file(&file, stat(false, 3, now, 0), now, 5), FilePlan::Missing);
    assert_eq!(CacheManager::get_file(&file, stat(true, 4, now, 0), now, 5), FilePlan::Missing);
    assert_eq!(CacheManager::get_file(&file, stat(true, 3, now, 0), now, 5), FilePlan::Serve);
    assert_eq!(CacheManager::get_file(&file, stat(true, 3, now - ONE_WEEK, 5), now, 5), FilePlan::Serve);
    assert_eq!(CacheManager::get_file(&file, stat(true, 3, now - ONE_WEEK, 4), now, 5), FilePlan::ServeAndCheck);
    assert_eq!(CacheManager::get_file(&file, stat(true, 3, 0, 0), now, 5), FilePlan::ServeAndCheck);
}

#[test]
fn cleaning_goes_on_in_the_next_range() {
    let mut need = 25;
    let mut removed = Vec::new();
    // A file with a wrong name is passed over: it frees nothing.
    let ranges = [vec![(1, 0, 0), (2, 0, 1)], vec![(3, 0, 0), (4, 0, 1), (5, 0, 2)]];
    let sizes = [[Some(10), None, None], [Some(10), Some(9), Some(8)]];
    for (files, sizes) in ranges.iter().zip(sizes) {
        let mut pass = CleanPass::new(files.clone(), files[0].0, need, 7);
        while let Some(i) = pass.next() {
            if let Some(size) = sizes[i] {
                pass.removed(size);
                removed.push(size);
            }
        }
        need = pass.need_free();
    }
    assert_eq!(removed, vec![10, 10, 9]);
    assert_eq!(need, 0);
    assert!(removed.iter().sum::<u64>() >= 25);
    assert!(removed[..2].iter().sum::<u64>() < 25);
}
