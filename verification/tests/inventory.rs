use mediatable::inventory::{
    collect, filter_by_extension, inventory, is_candidate, keeps_entry, process, requested_count,
    requested_depth, walk_depth, warrants_warning,
};
use mediatable::numeral::{parse_i32, parse_usize};
use mediatable::record::{ExtractionError, MediaInfo};
use mediatable::text::{chars_of, push_repeat, same_text, string_of};

fn document(format: &str) -> String {
    format!(
        r#"{{"media":{{"track":[{{"@type":"General","Format":"{}"}},{{"@type":"Video","CodecID":"avc1","BitRate":"1500000","Height":"720","ScanType":"Progressive"}}]}}}}"#,
        format
    )
}

#[test]
fn extension_filter() {
    for ext in ["mkv", "avi", "mpg", "mp4"] {
        assert!(filter_by_extension(Some(ext)));
    }
    for ext in ["", "MKV", "mp3", "mkv ", "txt", "mpeg", "m"] {
        assert!(!filter_by_extension(Some(ext)), "{}", ext);
    }
    assert!(!filter_by_extension(None));
}

#[test]
fn walk_keeps_directories_and_media_files() {
    assert!(keeps_entry(true, None));
    assert!(keeps_entry(true, Some("txt")));
    assert!(keeps_entry(false, Some("mkv")));
    assert!(!keeps_entry(false, Some("txt")));
    assert!(!keeps_entry(false, None));
}

#[test]
fn candidates_are_media_files() {
    assert!(is_candidate(false, Some("mp4")));
    assert!(!is_candidate(true, Some("mp4")));
    assert!(!is_candidate(false, Some("srt")));
    assert!(!is_candidate(true, None));
}

#[test]
fn depth_from_the_command_line() {
    assert_eq!(requested_depth(false, None), None);
    assert_eq!(requested_depth(true, None), Some(10));
    assert_eq!(requested_depth(true, Some(3)), Some(3));
    assert_eq!(requested_depth(false, Some(0)), Some(0));
    assert_eq!(walk_depth(None), 1);
    assert_eq!(walk_depth(Some(10)), 10);
    assert_eq!(walk_depth(requested_depth(false, None)), 1);
}

#[test]
fn counts_from_the_command_line() {
    assert_eq!(requested_count(None), 1);
    assert_eq!(requested_count(Some("4")), 4);
    assert_eq!(requested_count(Some("0")), 0);
    assert_eq!(requested_count(Some("+2")), 2);
    assert_eq!(requested_count(Some("two")), 1);
    assert_eq!(requested_count(Some("-2")), 1);
    assert_eq!(requested_count(Some("")), 1);
    assert_eq!(requested_count(Some("99999999999999999999999999")), 1);
}

#[test]
fn parse_usize_as_std_does() {
    for text in [
        "0", "1", "+1", "007", "18446744073709551615", "18446744073709551616", "-1", "-0", "+", "",
        "1 ", "1e3", "4294967295", "4294967296", "\u{661}",
    ] {
        assert_eq!(parse_usize(text), text.parse::<usize>().ok(), "{}", text);
    }
}

#[test]
fn parse_i32_as_std_does() {
    for text in [
        "0", "-0", "+0", "1", "-1", "2147483647", "2147483648", "-2147483648", "-2147483649", "+",
        "-", "", "--1", "1-", "0x10", "000000000000000000000012", "12345678901234567890",
    ] {
        assert_eq!(parse_i32(text), text.parse::<i32>().ok(), "{}", text);
    }
}

#[test]
fn text_helpers() {
    assert_eq!(chars_of("h\u{e9}\u{2026}"), vec!['h', '\u{e9}', '\u{2026}']);
    let v = vec!['a', 'b', '\u{e9}', 'd'];
    assert_eq!(string_of(&v, 1, 3), "b\u{e9}");
    assert_eq!(string_of(&v, 2, 2), "");
    assert!(same_text("abc", "abc"));
    assert!(!same_text("abc", "abd"));
    assert!(!same_text("abc", "ab"));
    let mut s = String::from("x");
    push_repeat(&mut s, '-', 3);
    assert_eq!(s, "x---");
}

#[test]
fn process_passes_failures_on() {
    assert_eq!(
        process(String::from("a.mkv"), Err(ExtractionError::Launch)),
        Err(ExtractionError::Launch)
    );
    assert_eq!(
        process(String::from("a.mkv"), Ok(String::from("<html>"))),
        Err(ExtractionError::Parse)
    );
    assert_eq!(process(String::from("a.mkv"), Ok(String::from("{}"))), Ok(None));
    let got = process(String::from("a.mkv"), Ok(document("Matroska"))).unwrap().unwrap();
    assert_eq!(got.filename, "a.mkv");
    assert_eq!(got.container, "Matroska");
    assert_eq!(got.video_tracks.len(), 1);
}

#[test]
fn warnings_for_failures_only() {
    assert!(warrants_warning(&Err(ExtractionError::Launch)));
    assert!(warrants_warning(&Err(ExtractionError::Parse)));
    assert!(!warrants_warning(&Ok(None)));
    assert!(!warrants_warning(&process(String::from("a.mkv"), Ok(document("AVI")))));
}

#[test]
fn collect_keeps_records_in_order() {
    let outcomes = vec![
        process(String::from("c.mkv"), Ok(document("Matroska"))),
        Err(ExtractionError::Launch),
        Ok(None),
        process(String::from("a.mkv"), Ok(document("AVI"))),
        process(String::from("b.mkv"), Ok(String::from("{"))),
    ];
    let got: Vec<MediaInfo> = collect(outcomes);
    let names: Vec<&str> = got.iter().map(|m| m.filename.as_str()).collect();
    assert_eq!(names, vec!["c.mkv", "a.mkv"]);
}

#[test]
fn isolation_of_one_bad_document() {
    let names = ["d.mkv", "a.mkv", "c.mkv", "b.mkv", "e.mkv"];
    let outcomes: Vec<_> = names
        .iter()
        .map(|n| {
            let md = if *n == "c.mkv" { String::from("{\"media\": oops") } else { document("Matroska") };
            process(String::from(*n), Ok(md))
        })
        .collect();
    let lines = inventory(outcomes, (1, 1, 0));
    assert_eq!(
        lines,
        vec![
            "a.mkv  |  h264  1.500 mb/s  720p  |",
            "b.mkv  |  h264  1.500 mb/s  720p  |",
            "d.mkv  |  h264  1.500 mb/s  720p  |",
            "e.mkv  |  h264  1.500 mb/s  720p  |",
        ],
    );
}

#[test]
fn inventory_ignores_arrival_order() {
    let names = ["d.mkv", "a.mkv", "c.mkv", "b.mkv"];
    let forward: Vec<_> = names.iter().map(|n| process(String::from(*n), Ok(document("Matroska")))).collect();
    let backward: Vec<_> =
        names.iter().rev().map(|n| process(String::from(*n), Ok(document("Matroska")))).collect();
    assert_eq!(inventory(forward, (3, 3, 0)), inventory(backward, (3, 3, 0)));
}

#[test]
fn inventory_of_nothing() {
    assert_eq!(inventory(vec![], (1, 1, 0)), Vec::<String>::new());
    assert_eq!(inventory(vec![Ok(None), Err(ExtractionError::Launch)], (1, 1, 0)), Vec::<String>::new());
}
