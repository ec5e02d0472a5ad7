use hath::error::Error;
use hath::gallery_downloader::{
    CheckPlan, FileEvent, FileHash, FileSource, GalleryDownloader, GalleryError, GalleryFile, GalleryMeta, GalleryRun, NextJob,
    Section, TaskPlan, PASSES,
};

const ABC: &str = "a9993e364706816aba3e25717850c26c9cd0d89d";

fn parse(lines: &[&str]) -> Result<GalleryMeta, GalleryError> {
    GalleryDownloader::parser(&lines.iter().map(|s| s.to_string()).collect())
}

fn abc_hash() -> [u8; 20] {
    let mut hash = [0u8; 20];
    for i in 0..20 {
        hash[i] = u8::from_str_radix(&ABC[2 * i..2 * i + 2], 16).unwrap();
    }
    hash
}

fn two_files(count: usize) -> GalleryMeta {
    let first = format!("1 10 org {ABC} jpg one");
    parse(&["GID 5", &format!("FILECOUNT {count}"), "MINXRES org", "TITLE t", "FILELIST", &first, "2 20 org unknown png two"])
        .unwrap()
}

#[test]
fn descriptions_are_read() {
    let file = format!("1 10 1280 {ABC} jpg the first page");
    let meta = parse(&[
        "GID 123", "FILECOUNT 2", "", "MINXRES org", "TITLE  a   \"b\"* \\c<d>  ", "POSTED now", "FILELIST", "", &file,
        "2 20 org unknown png two", "INFORMATION", "", "by someone", "FILELIST",
    ])
    .unwrap();
    assert_eq!(meta.gid(), 123);
    assert_eq!(meta.minxres(), "org");
    assert_eq!(meta.title(), "a b cd");
    assert_eq!(meta.information(), "\nby someone\nFILELIST\n");
    assert_eq!(meta.failures().len(), 0);
    let files = meta.files();
    assert_eq!(files.len(), 2);
    assert_eq!((files[0].page, files[0].fileindex), (1, 10));
    assert_eq!(files[0].xres, "1280");
    assert_eq!(files[0].expected_sha1_hash, Some(abc_hash()));
    assert_eq!(files[0].file_name(), "the first page.jpg");
    assert_eq!(files[1].expected_sha1_hash, None);
    assert_eq!(meta.dir_name().unwrap(), "a b cd [123]");
}

#[test]
fn resolution_makes_titles_distinct() {
    let meta = parse(&["GID 1", "TITLE t"]).unwrap();
    assert_eq!(meta.dir_name().unwrap(), "t [1-x]");
    // Only the original resolution and what begins with it is taken over.
    let meta = parse(&["GID 1", "MINXRES 1280", "TITLE t"]).unwrap();
    assert_eq!(meta.minxres(), "");
    let meta = parse(&["GID 1", "MINXRES orgx", "TITLE t"]).unwrap();
    assert_eq!(meta.dir_name().unwrap(), "t [1-orgxx]");
    let meta = parse(&["GID 1", "MINXRES x\\ddd", "TITLE t"]).unwrap();
    assert_eq!(meta.dir_name().unwrap(), "t [1-x\\dddx]");
    let meta = parse(&["GID 1", "MINXRES x\\", "TITLE t"]).unwrap();
    assert_eq!(meta.minxres(), "");
    let meta = parse(&["GID 1", "MINXRES x\\dde", "TITLE t"]).unwrap();
    assert_eq!(meta.minxres(), "");
    // The resolution counts that was known when the title came.
    let meta = parse(&["GID 1", "TITLE t", "MINXRES org"]).unwrap();
    assert_eq!(meta.dir_name().unwrap(), "t [1-x]");
}

#[test]
fn titles_are_cleaned() {
    let title = |raw: &str| parse(&[&format!("TITLE {raw}")]).unwrap().title().to_string();
    assert_eq!(title("a:|?b"), "ab");
    assert_eq!(title("a:|b?c"), "a:|b?c");
    // What is left over may look like what was taken away.
    assert_eq!(title("a:*|?b"), "a:|?b");
    assert_eq!(title("a*\"\\<>b"), "ab");
    assert_eq!(title("a\u{3000}\u{85} \u{a0}b"), "a b");
    assert_eq!(title("\u{2003}\ta * b\u{2028}"), "a b");
    assert_eq!(title("a\u{200b}b"), "a\u{200b}b");
    assert_eq!(title("  * "), "");
}

#[test]
fn long_titles_are_cut() {
    let dir = |title: String| parse(&["GID 1", "MINXRES org", &format!("TITLE {title}")]).unwrap().dir_name();
    assert_eq!(dir("x".repeat(100)).unwrap(), format!("{} [1]", "x".repeat(100)));
    assert_eq!(dir("x".repeat(101)).unwrap(), format!("{}... [1]", "x".repeat(97)));
    let cut = format!("{}\u{e9}{}", "x".repeat(95), "y".repeat(20));
    assert_eq!(dir(cut).unwrap(), format!("{}\u{e9}... [1]", "x".repeat(95)));
    assert_eq!(dir(format!("{}\u{e9}{}", "x".repeat(96), "y".repeat(20))), None);
}

#[test]
fn bad_descriptions_are_refused() {
    assert_eq!(parse(&["GID x"]).err(), Some(GalleryError::Number));
    assert_eq!(parse(&["GID 2147483648"]).err(), Some(GalleryError::Number));
    assert_eq!(parse(&["FILECOUNT -1"]).err(), Some(GalleryError::Number));
    assert_eq!(parse(&["GID"]).err(), Some(GalleryError::Malformed));
    assert_eq!(parse(&["TITLE"]).err(), Some(GalleryError::Malformed));
    assert_eq!(parse(&["FILELIST", "x"]).err(), Some(GalleryError::Number));
    assert_eq!(parse(&["FILELIST", "1"]).err(), Some(GalleryError::Malformed));
    assert_eq!(parse(&["FILELIST", "1 x"]).err(), Some(GalleryError::Number));
    assert_eq!(parse(&["FILELIST", "1 2 org h jpg"]).err(), Some(GalleryError::Malformed));
    assert!(parse(&["OTHER"]).is_ok());
    assert!(parse(&[]).is_ok());
}

#[test]
fn sections_follow_each_other() {
    let mut meta = parse(&[]).unwrap();
    assert_eq!(meta.read_line(Section::Basic, "INFORMATION"), Ok(Section::Basic));
    assert_eq!(meta.read_line(Section::Basic, "FILELIST"), Ok(Section::FileList));
    assert_eq!(meta.read_line(Section::FileList, "INFORMATION"), Ok(Section::Information));
    assert_eq!(meta.read_line(Section::Information, "INFORMATION"), Ok(Section::Information));
    assert_eq!(meta.information(), "INFORMATION\n");
}

#[test]
fn files_on_the_disk_are_looked_at() {
    let file = |hash| GalleryFile {
        page: 1,
        fileindex: 2,
        xres: "org".to_string(),
        expected_sha1_hash: hash,
        filetype: "jpg".to_string(),
        filename: "f".to_string(),
    };
    assert_eq!(file(None).check_hash(false), CheckPlan::Missing);
    assert_eq!(file(None).check_hash(true), CheckPlan::Accept);
    assert_eq!(file(Some([1; 20])).check_hash(true), CheckPlan::Compare);
    assert_eq!(file(Some([1; 20])).check_hash(false), CheckPlan::Missing);
    assert!(file(Some([1; 20])).same(&file(Some([1; 20]))));
    assert!(!file(Some([1; 20])).same(&file(None)));
    assert!(!file(Some([1; 20])).same(&file(Some([2; 20]))));
}

#[test]
fn downloads_are_held_against_their_hash() {
    let mut hash = FileHash::new();
    hash.update(b"ab");
    hash.update(b"c");
    assert!(hash.finish(&Some(abc_hash())).is_ok());
    let mut hash = FileHash::new();
    hash.update(b"abd");
    match hash.finish(&Some(abc_hash())) {
        Err(Error::HashMismatch { expected, actual }) => {
            assert_eq!(expected, abc_hash());
            assert_ne!(actual, abc_hash());
        }
        _ => panic!(),
    }
    assert!(FileHash::new().finish(&None).is_ok());
}

#[test]
fn complete_gallery_is_reported() {
    let mut run = GalleryRun::new(two_files(2));
    assert_eq!(run.next(), NextJob::Check(0));
    assert!(!run.force_image_server());
    assert_eq!(run.file_done(FileEvent::Present), 0);
    assert_eq!(run.next(), NextJob::Check(1));
    assert_eq!(run.file_done(FileEvent::Failed { host: Some("h.example".to_string()) }), 5);
    assert_eq!(run.next(), NextJob::Check(1));
    assert!(run.force_image_server());
    assert_eq!(run.file_done(FileEvent::NoUrl), 5);
    assert_eq!(run.next(), NextJob::Check(1));
    assert!(!run.force_image_server());
    assert_eq!(run.file_done(FileEvent::Failed { host: None }), 5);
    assert_eq!(run.next(), NextJob::Check(1));
    assert_eq!(run.file_done(FileEvent::Downloaded), 1);
    assert_eq!(run.next(), NextJob::Complete);
    assert_eq!(run.next(), NextJob::Complete);
    assert_eq!(run.meta().gid(), 5);
    assert_eq!(run.into_meta().failures(), &vec!["h.example-20-org".to_string()]);
}

#[test]
fn gallery_is_given_up_after_the_last_pass() {
    let mut run = GalleryRun::new(two_files(2));
    let mut jobs = 0;
    loop {
        match run.next() {
            NextJob::Check(_) => {
                jobs += 1;
                run.file_done(FileEvent::NoUrl);
            }
            other => {
                assert_eq!(other, NextJob::GiveUp);
                break;
            }
        }
    }
    assert_eq!(jobs, 2 * PASSES as usize);
}

#[test]
fn short_list_is_never_complete() {
    let mut run = GalleryRun::new(two_files(3));
    assert_eq!(run.next(), NextJob::Check(0));
    run.file_done(FileEvent::Present);
    assert_eq!(run.next(), NextJob::Check(1));
    run.file_done(FileEvent::Present);
    assert_eq!(run.next(), NextJob::GiveUp);
}

#[test]
fn same_entry_counts_once() {
    let line = "1 10 org unknown jpg one";
    let meta = parse(&["FILECOUNT 1", "FILELIST", line, line]).unwrap();
    let mut run = GalleryRun::new(meta);
    assert_eq!(run.next(), NextJob::Check(0));
    run.file_done(FileEvent::Downloaded);
    assert_eq!(run.next(), NextJob::Complete);
}

#[test]
fn queue_answers_are_acted_on() {
    assert_eq!(GalleryDownloader::plan(true, &None), TaskPlan::Stop);
    assert_eq!(GalleryDownloader::plan(false, &Some(parse(&[]))), TaskPlan::Stop);
    assert_eq!(GalleryDownloader::plan(true, &Some(parse(&[]))), TaskPlan::Download);
    assert_eq!(GalleryDownloader::plan(true, &Some(parse(&["GID x"]))), TaskPlan::AskAgain(5));
}

#[test]
fn first_place_is_taken() {
    let places = vec!["HTTPS://Image.Example/a b".to_string(), "https://other.example/".to_string()];
    let source = FileSource::first(&places).unwrap();
    assert_eq!(source.url, "https://image.example/a%20b");
    assert_eq!(source.host, Some("image.example".to_string()));
    match source.failed(false) {
        FileEvent::Failed { host } => assert_eq!(host, Some("image.example".to_string())),
        _ => panic!("a failure is a failure"),
    }
    let source = FileSource::first(&places).unwrap();
    match source.failed(true) {
        FileEvent::Failed { host } => assert_eq!(host, None),
        _ => panic!("a failure is a failure"),
    }
    assert!(FileSource::first(&vec!["nowhere".to_string()]).is_none());
}
