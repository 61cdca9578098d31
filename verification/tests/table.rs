use mediatable::order::{compare_records, compare_text, sort_records, Rank};
use mediatable::record::MediaInfo;
use mediatable::table::{clamp_slots, pad, render_infotable};
use mediatable::track::{AudioTrack, SubTrack, VideoTrack};

fn video(codec: &str, bitrate: &str, height: &str, scantype: &str) -> VideoTrack {
    VideoTrack {
        codec: String::from(codec),
        bitrate: String::from(bitrate),
        height: String::from(height),
        scantype: String::from(scantype),
    }
}

fn audio(codec: &str, bitrate: &str, bit_mode: &str, channels: &str) -> AudioTrack {
    AudioTrack {
        codec: String::from(codec),
        bitrate: String::from(bitrate),
        bit_mode: String::from(bit_mode),
        channels: String::from(channels),
    }
}

fn record(name: &str, videos: usize, audios: usize) -> MediaInfo {
    MediaInfo {
        filename: String::from(name),
        container: String::from("Matroska"),
        video_tracks: (0..videos).map(|i| video("HEVC", "1.500 mb/s", &format!("{}", 1080 + i), "p")).collect(),
        audio_tracks: (0..audios).map(|_| audio("AC3", "640.0 kb/s", "CBR", "5.1")).collect(),
        sub_tracks: vec![],
    }
}

fn copy(m: &MediaInfo) -> MediaInfo {
    MediaInfo {
        filename: m.filename.clone(),
        container: m.container.clone(),
        video_tracks: m.video_tracks.iter().map(|t| video(&t.codec, &t.bitrate, &t.height, &t.scantype)).collect(),
        audio_tracks: m.audio_tracks.iter().map(|t| audio(&t.codec, &t.bitrate, &t.bit_mode, &t.channels)).collect(),
        sub_tracks: m
            .sub_tracks
            .iter()
            .map(|t| SubTrack { language: t.language.clone(), codec: t.codec.clone() })
            .collect(),
    }
}

fn by_std(o: std::cmp::Ordering) -> Rank {
    match o {
        std::cmp::Ordering::Less => Rank::Before,
        std::cmp::Ordering::Equal => Rank::Same,
        std::cmp::Ordering::Greater => Rank::After,
    }
}

#[test]
fn pad_fills_with_spaces() {
    assert_eq!(pad("ab", 5), "ab   ");
    assert_eq!(pad("ab", 2), "ab");
    assert_eq!(pad("abc", 1), "abc");
    assert_eq!(pad("", 3), "   ");
    assert_eq!(pad("", 0), "");
}

#[test]
fn pad_counts_characters() {
    assert_eq!(pad("h\u{e9}\u{2026}", 5), "h\u{e9}\u{2026}  ");
    assert_eq!(pad("h\u{e9}\u{2026}", 5), format!("{1:0$}", 5, "h\u{e9}\u{2026}"));
}

#[test]
fn render_one_record() {
    let data = vec![record("film.mkv", 1, 1)];
    assert_eq!(
        render_infotable(&data, (1, 1, 0)),
        vec!["film.mkv  |  HEVC  1.500 mb/s  1080p  |  AC3  640.0 kb/s  CBR  5.1"],
    );
}

#[test]
fn render_pads_columns() {
    let mut a = record("a.mkv", 1, 1);
    a.audio_tracks[0].codec = String::from("DTSHD-MA");
    let b = record("longer-name.mkv", 0, 1);
    let data = vec![a, b];
    assert_eq!(
        render_infotable(&data, (1, 1, 0)),
        vec![
            "a.mkv            |  HEVC  1.500 mb/s  1080p  |  DTSHD-MA  640.0 kb/s  CBR  5.1",
            "longer-name.mkv  |                           |  AC3       640.0 kb/s  CBR  5.1",
        ],
    );
}

#[test]
fn render_nothing() {
    assert_eq!(render_infotable(&vec![], (1, 1, 0)), Vec::<String>::new());
}

#[test]
fn render_without_slots() {
    let data = vec![record("a.mkv", 2, 2), record("bb.mkv", 0, 0)];
    assert_eq!(render_infotable(&data, (0, 0, 0)), vec!["a.mkv   |  |", "bb.mkv  |  |"]);
}

#[test]
fn clamping_to_what_is_present() {
    let data = vec![record("a.mkv", 2, 1), record("b.mkv", 1, 3), record("c.mkv", 0, 0)];
    assert_eq!(clamp_slots(&data, 5, 5), (2, 3));
    assert_eq!(clamp_slots(&data, 1, 2), (1, 2));
    assert_eq!(clamp_slots(&data, 0, 0), (0, 0));
    assert_eq!(clamp_slots(&vec![], 5, 5), (0, 0));
}

#[test]
fn clamping_gives_two_video_groups() {
    let data = vec![record("a.mkv", 2, 1), record("b.mkv", 1, 1), record("c.mkv", 0, 1)];
    let lines = render_infotable(&data, (5, 1, 0));
    assert_eq!(
        lines,
        vec![
            "a.mkv  |  HEVC  1.500 mb/s  1080p  HEVC  1.500 mb/s  1081p  |  AC3  640.0 kb/s  CBR  5.1",
            "b.mkv  |  HEVC  1.500 mb/s  1080p                           |  AC3  640.0 kb/s  CBR  5.1",
            "c.mkv  |                                                    |  AC3  640.0 kb/s  CBR  5.1",
        ],
    );
    for m in &data {
        assert_eq!(m.get_printline(2, 1, 0).len(), 3 + 3 * 2 + 4);
    }
}

#[test]
fn render_lines_have_one_width() {
    let data = vec![record("a.mkv", 2, 1), record("bcd.mkv", 1, 2), record("\u{e9}t\u{e9}.avi", 0, 0)];
    let lines = render_infotable(&data, (2, 2, 0));
    assert_eq!(lines.len(), 3);
    let width = lines[0].chars().count();
    for line in &lines {
        assert_eq!(line.chars().count(), width);
    }
}

#[test]
fn render_twice_is_identical() {
    let data = vec![record("b.mkv", 1, 2), record("a.mkv", 2, 1)];
    assert_eq!(render_infotable(&data, (2, 2, 0)), render_infotable(&data, (2, 2, 0)));
}

#[test]
fn render_after_sorting_ignores_arrival_order() {
    let one = vec![record("b.mkv", 1, 2), record("a.mkv", 2, 1), record("c.avi", 0, 0)];
    let two = vec![record("c.avi", 0, 0), record("b.mkv", 1, 2), record("a.mkv", 2, 1)];
    let first = render_infotable(&sort_records(one), (2, 2, 0));
    let second = render_infotable(&sort_records(two), (2, 2, 0));
    assert_eq!(first, second);
    assert!(first[0].starts_with("a.mkv"));
    assert!(first[2].starts_with("c.avi"));
}

#[test]
fn text_order_is_by_scalar_value() {
    assert_eq!(compare_text("a", "b"), Rank::Before);
    assert_eq!(compare_text("b", "a"), Rank::After);
    assert_eq!(compare_text("a", "a"), Rank::Same);
    assert_eq!(compare_text("", ""), Rank::Same);
    assert_eq!(compare_text("", "a"), Rank::Before);
    assert_eq!(compare_text("ab", "a"), Rank::After);
    assert_eq!(compare_text("Z", "a"), Rank::Before);
    for (a, b) in [("\u{e9}", "z"), ("\u{ffff}", "\u{10000}"), ("a\u{2026}", "ab"), ("\u{7f}", "\u{80}")] {
        assert_eq!(compare_text(a, b), by_std(a.cmp(b)), "{} {}", a, b);
    }
}

#[test]
fn record_order_is_field_by_field() {
    let mut records = vec![
        record("a.mkv", 0, 0),
        record("a.mkv", 1, 0),
        record("a.mkv", 1, 1),
        record("a.mkv", 2, 0),
        record("b.mkv", 0, 0),
        record("", 3, 3),
    ];
    let mut other = record("a.mkv", 1, 1);
    other.container = String::from("AVI");
    records.push(other);
    let mut third = record("a.mkv", 1, 1);
    third.video_tracks[0].scantype = String::from("i");
    records.push(third);
    let mut fourth = record("a.mkv", 1, 1);
    fourth.sub_tracks.push(SubTrack { language: String::from("en"), codec: String::from("PGS") });
    records.push(fourth);
    let mut fifth = record("a.mkv", 1, 1);
    fifth.audio_tracks[0].channels = String::from("Stereo");
    records.push(fifth);
    for a in &records {
        for b in &records {
            assert_eq!(compare_records(a, b), by_std(a.cmp(b)), "{:?} {:?}", a, b);
        }
    }
}

#[test]
fn sort_agrees_with_std() {
    let names = ["m.mkv", "b.mkv", "z.avi", "b.mkv", "a.mp4", "", "B.mkv", "\u{e9}.mkv"];
    let data: Vec<MediaInfo> = names.iter().enumerate().map(|(i, n)| record(n, i % 3, (i + 1) % 2)).collect();
    let mut expected: Vec<MediaInfo> = data.iter().map(copy).collect();
    expected.sort();
    let sorted = sort_records(data);
    assert_eq!(sorted, expected);
}

#[test]
fn sort_nothing_and_one() {
    assert_eq!(sort_records(vec![]), vec![]);
    assert_eq!(sort_records(vec![record("a", 1, 1)]), vec![record("a", 1, 1)]);
}
