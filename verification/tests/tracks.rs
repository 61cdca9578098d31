use mediatable::track::{
    audio_codec, channel_layout, normalize, scan_type, video_codec, AudioTrack, NormalizeError,
    SubTrack, Track, VideoTrack,
};

fn value(text: &str) -> json::JsonValue {
    json::parse(text).unwrap()
}

#[test]
fn channel_mapping() {
    assert_eq!(channel_layout("6"), Ok(String::from("5.1")));
    assert_eq!(channel_layout("2"), Ok(String::from("Stereo")));
    assert_eq!(channel_layout("3"), Ok(String::from("3")));
    assert_eq!(channel_layout("8"), Ok(String::from("7.1")));
    assert_eq!(channel_layout("1"), Ok(String::from("Mono")));
}

#[test]
fn channel_mapping_reads_integers_as_std_does() {
    for raw in ["+6", "06", "-0", "0", "12", "-3", "2147483647", "-2147483648", "0000000008"] {
        let count: i32 = raw.parse().unwrap();
        let expected = match count {
            8 => "7.1",
            6 => "5.1",
            2 => "Stereo",
            1 => "Mono",
            _ => raw,
        };
        assert_eq!(channel_layout(raw), Ok(String::from(expected)), "{}", raw);
    }
}

#[test]
fn channel_mapping_rejects_what_is_no_integer() {
    for raw in [
        "", "+", "-", "six", "6 ", " 6", "6.0", "2147483648", "-2147483649", "null", "++6", "6/2",
        "99999999999999999999999",
    ] {
        assert!(raw.parse::<i32>().is_err());
        assert_eq!(channel_layout(raw), Err(NormalizeError::Parse), "{}", raw);
    }
}

#[test]
fn codec_aliasing() {
    assert_eq!(video_codec(Some("V_MPEGH/ISO/HEVC")), Ok(String::from("HEVC")));
    assert_eq!(video_codec(Some("V_XYZ")), Ok(String::from("V_XYZ")));
    assert_eq!(video_codec(Some("V_MPEG4/ISO/AVC")), Ok(String::from("h264")));
    assert_eq!(video_codec(Some("avc1")), Ok(String::from("h264")));
    assert_eq!(video_codec(Some("")), Ok(String::from("")));
}

#[test]
fn codec_missing_identifier() {
    assert_eq!(video_codec(None), Err(NormalizeError::MissingField));
    assert_eq!(audio_codec(None, None), Err(NormalizeError::MissingField));
}

#[test]
fn scan_type_labels() {
    assert_eq!(scan_type(Some("Progressive")), "p");
    assert_eq!(scan_type(Some("Interlaced")), "i");
    assert_eq!(scan_type(Some("MBAFF")), "");
    assert_eq!(scan_type(Some("progressive")), "");
    assert_eq!(scan_type(None), "");
}

#[test]
fn audio_codec_prefers_commercial_name() {
    assert_eq!(audio_codec(Some("DTS-HD Master Audio"), Some("A_DTS")), Ok(String::from("DTSHD-MA")));
    assert_eq!(
        audio_codec(Some("Dolby Digital Plus with Dolby Atmos"), Some("A_EAC3")),
        Ok(String::from("DDP + Atmos")),
    );
    assert_eq!(
        audio_codec(Some("Dolby TrueHD with Dolby Atmos"), None),
        Ok(String::from("TrueHD + Atmos")),
    );
    assert_eq!(audio_codec(Some("Dolby Digital"), Some("A_AC3")), Ok(String::from("Dolby Digital")));
}

#[test]
fn audio_codec_from_identifier() {
    assert_eq!(audio_codec(None, Some("55")), Ok(String::from("MP3")));
    assert_eq!(audio_codec(None, Some("A_AAC-2")), Ok(String::from("AAC-2")));
    assert_eq!(audio_codec(None, Some("A_")), Ok(String::from("")));
    assert_eq!(audio_codec(None, Some("mp4a-40-2")), Ok(String::from("mp4a-40-2")));
    assert_eq!(audio_codec(None, Some("A")), Ok(String::from("A")));
    assert_eq!(audio_codec(None, Some("a_x")), Ok(String::from("a_x")));
    assert_eq!(audio_codec(None, Some("A_55")), Ok(String::from("55")));
}

#[test]
fn video_track_from_fields() {
    let t = VideoTrack::from_fields(Some("avc1"), "15000", "720", Some("Interlaced"));
    assert_eq!(
        t,
        VideoTrack {
            codec: String::from("h264"),
            bitrate: String::from("15.00 kb/s"),
            height: String::from("720"),
            scantype: String::from("i"),
        },
    );
}

#[test]
fn video_track_without_identifier_has_empty_codec() {
    let t = VideoTrack::from_fields(None, "null", "null", None);
    assert_eq!(
        t,
        VideoTrack {
            codec: String::new(),
            bitrate: String::new(),
            height: String::from("null"),
            scantype: String::new(),
        },
    );
}

#[test]
fn video_track_from_json() {
    let blob = value(
        r#"{"@type":"Video","CodecID":"V_MPEGH/ISO/HEVC","BitRate":"1500000","Height":"1080","ScanType":"Progressive"}"#,
    );
    assert_eq!(
        VideoTrack::new(&blob),
        VideoTrack {
            codec: String::from("HEVC"),
            bitrate: String::from("1.500 mb/s"),
            height: String::from("1080"),
            scantype: String::from("p"),
        },
    );
}

#[test]
fn video_track_from_json_numbers_and_gaps() {
    let blob = value(r#"{"CodecID":27,"BitRate":15000,"Height":576}"#);
    assert_eq!(
        VideoTrack::new(&blob),
        VideoTrack {
            codec: String::new(),
            bitrate: String::from("15.00 kb/s"),
            height: String::from("576"),
            scantype: String::new(),
        },
    );
}

#[test]
fn audio_track_from_fields() {
    let t = AudioTrack::from_fields(None, Some("A_AC3"), "640000", "CBR", "6");
    assert_eq!(
        t,
        AudioTrack {
            codec: String::from("AC3"),
            bitrate: String::from("640.0 kb/s"),
            bit_mode: String::from("CBR"),
            channels: String::from("5.1"),
        },
    );
}

#[test]
fn audio_track_falls_back_to_raw_fields() {
    let t = AudioTrack::from_fields(None, None, "Variable", "VBR", "Object Based");
    assert_eq!(
        t,
        AudioTrack {
            codec: String::new(),
            bitrate: String::new(),
            bit_mode: String::from("VBR"),
            channels: String::from("Object Based"),
        },
    );
}

#[test]
fn audio_track_from_json() {
    let blob = value(
        r#"{"@type":"Audio","Format_Commercial_IfAny":"DTS-HD Master Audio","CodecID":"A_DTS","BitRate":"1509000","BitRate_Mode":"VBR","Channels":"8"}"#,
    );
    assert_eq!(
        AudioTrack::new(&blob),
        AudioTrack {
            codec: String::from("DTSHD-MA"),
            bitrate: String::from("1.509 mb/s"),
            bit_mode: String::from("VBR"),
            channels: String::from("7.1"),
        },
    );
}

#[test]
fn audio_track_from_json_without_mode_and_with_count_as_number() {
    let blob = value(r#"{"CodecID":"55","BitRate":"128000","Channels":3}"#);
    assert_eq!(
        AudioTrack::new(&blob),
        AudioTrack {
            codec: String::from("MP3"),
            bitrate: String::from("128.0 kb/s"),
            bit_mode: String::from("null"),
            channels: String::from("3"),
        },
    );
}

#[test]
fn sub_track_from_json() {
    let blob = value(r#"{"@type":"Text","Format":"UTF-8","Language":"en"}"#);
    assert_eq!(
        SubTrack::new(&blob),
        SubTrack { language: String::from("en"), codec: String::from("UTF-8") },
    );
    assert_eq!(
        SubTrack::new(&value("{}")),
        SubTrack { language: String::from("null"), codec: String::from("null") },
    );
}

#[test]
fn normalize_goes_by_type() {
    assert_eq!(
        normalize(&value(r#"{"@type":"General","Format":"Matroska"}"#)),
        Track::General(String::from("Matroska")),
    );
    assert_eq!(
        normalize(&value(r#"{"@type":"Text","Format":"PGS","Language":"de"}"#)),
        Track::Text(SubTrack { language: String::from("de"), codec: String::from("PGS") }),
    );
    assert_eq!(normalize(&value(r#"{"@type":"Menu"}"#)), Track::Other);
    assert_eq!(normalize(&value(r#"{"Format":"Matroska"}"#)), Track::Other);
    assert_eq!(normalize(&value("[]")), Track::Other);
    match normalize(&value(r#"{"@type":"Video","CodecID":"avc1"}"#)) {
        Track::Video(v) => assert_eq!(v.codec, "h264"),
        other => panic!("{:?}", other),
    }
    match normalize(&value(r#"{"@type":"Audio","CodecID":"A_OPUS","Channels":"2"}"#)) {
        Track::Audio(a) => {
            assert_eq!(a.codec, "OPUS");
            assert_eq!(a.channels, "Stereo");
        }
        other => panic!("{:?}", other),
    }
}
