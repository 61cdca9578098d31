//! Typed tracks of a media file, and the rules that normalise raw metadata
//! fields into them.

use vstd::prelude::*;
use crate::bitrate::{bitrate_display, format_bitrate};
use crate::document::{field_str, field_text, json_field_str, json_field_text, opt_text};
use crate::numeral::{i32_of, parse_i32};
use crate::text::{chars_of, same_text, string_of};

verus! {

/// One video stream.
#[derive(Debug, PartialEq, Eq, PartialOrd, Ord)]
pub struct VideoTrack {
    /// Normalised codec name.
    pub codec: String,
    /// Bitrate in display form.
    pub bitrate: String,
    /// Height in pixels, as text.
    pub height: String,
    /// `p`, `i`, or empty.
    pub scantype: String,
}

/// One audio stream.
#[derive(Debug, PartialEq, Eq, PartialOrd, Ord)]
pub struct AudioTrack {
    /// Normalised codec name.
    pub codec: String,
    /// Bitrate in display form.
    pub bitrate: String,
    /// Bit-rate mode as given, `CBR` or `VBR`.
    pub bit_mode: String,
    /// Channel layout label.
    pub channels: String,
}

/// One subtitle stream.
#[derive(Debug, PartialEq, Eq, PartialOrd, Ord)]
pub struct SubTrack {
    /// Language as given.
    pub language: String,
    /// Codec as given.
    pub codec: String,
}

/// What a [`VideoTrack`] holds.
pub ghost struct VideoTrackView {
    pub codec: Seq<char>,
    pub bitrate: Seq<char>,
    pub height: Seq<char>,
    pub scantype: Seq<char>,
}

/// What an [`AudioTrack`] holds.
pub ghost struct AudioTrackView {
    pub codec: Seq<char>,
    pub bitrate: Seq<char>,
    pub bit_mode: Seq<char>,
    pub channels: Seq<char>,
}

/// What a [`SubTrack`] holds.
pub ghost struct SubTrackView {
    pub language: Seq<char>,
    pub codec: Seq<char>,
}

impl View for VideoTrack {
    type V = VideoTrackView;

    open spec fn view(&self) -> VideoTrackView {
        VideoTrackView {
            codec: self.codec@,
            bitrate: self.bitrate@,
            height: self.height@,
            scantype: self.scantype@,
        }
    }
}

impl View for AudioTrack {
    type V = AudioTrackView;

    open spec fn view(&self) -> AudioTrackView {
        AudioTrackView {
            codec: self.codec@,
            bitrate: self.bitrate@,
            bit_mode: self.bit_mode@,
            channels: self.channels@,
        }
    }
}

impl View for SubTrack {
    type V = SubTrackView;

    open spec fn view(&self) -> SubTrackView {
        SubTrackView { language: self.language@, codec: self.codec@ }
    }
}

/// The views of a sequence of video tracks.
pub open spec fn video_views(s: Seq<VideoTrack>) -> Seq<VideoTrackView> {
    s.map_values(|t: VideoTrack| t@)
}

/// The views of a sequence of audio tracks.
pub open spec fn audio_views(s: Seq<AudioTrack>) -> Seq<AudioTrackView> {
    s.map_values(|t: AudioTrack| t@)
}

/// The views of a sequence of subtitle tracks.
pub open spec fn sub_views(s: Seq<SubTrack>) -> Seq<SubTrackView> {
    s.map_values(|t: SubTrack| t@)
}

/// Why a rule could not normalise a field.
#[derive(Debug, Clone, Copy, PartialEq, Eq)]
pub enum NormalizeError {
    /// A field that the rule needs is absent.
    MissingField,
    /// A field that should hold an integer does not.
    Parse,
}

/// The display name of the video codec `id`: short names for HEVC and AVC,
/// any other identifier as it is.
pub open spec fn video_codec_name(id: Seq<char>) -> Seq<char> {
    if id == "V_MPEGH/ISO/HEVC"@ {
        "HEVC"@
    } else if id == "V_MPEG4/ISO/AVC"@ || id == "avc1"@ {
        "h264"@
    } else {
        id
    }
}

/// The scan type label: `p` for progressive, `i` for interlaced, empty for
/// anything else and for an absent field.
pub open spec fn scan_label(raw: Option<Seq<char>>) -> Seq<char> {
    if raw == Some("Progressive"@) {
        "p"@
    } else if raw == Some("Interlaced"@) {
        "i"@
    } else {
        Seq::empty()
    }
}

/// The display name of the commercial audio format `name`.
pub open spec fn commercial_name(name: Seq<char>) -> Seq<char> {
    if name == "DTS-HD Master Audio"@ {
        "DTSHD-MA"@
    } else if name == "Dolby Digital Plus with Dolby Atmos"@ {
        "DDP + Atmos"@
    } else if name == "Dolby TrueHD with Dolby Atmos"@ {
        "TrueHD + Atmos"@
    } else {
        name
    }
}

/// The display name of the audio codec identifier `id`: `MP3` for `55`,
/// otherwise the identifier without a leading `A_`.
pub open spec fn audio_id_name(id: Seq<char>) -> Seq<char> {
    if id == "55"@ {
        "MP3"@
    } else if id.len() >= 2 && id[0] == 'A' && id[1] == '_' {
        id.skip(2)
    } else {
        id
    }
}

/// The audio codec name: the commercial name where there is one, else the
/// name of the codec identifier, else nothing.
pub open spec fn audio_codec_name(
    commercial: Option<Seq<char>>,
    id: Option<Seq<char>>,
) -> Option<Seq<char>> {
    match commercial {
        Some(name) => Some(commercial_name(name)),
        None => match id {
            Some(i) => Some(audio_id_name(i)),
            None => None,
        },
    }
}

/// The channel layout label for the channel count that `raw` writes, or
/// `None` where `raw` writes no 32-bit integer. Counts without a label are
/// shown as `raw` itself.
pub open spec fn channel_label(raw: Seq<char>) -> Option<Seq<char>> {
    match i32_of(raw) {
        None => None,
        Some(n) => Some(
            if n == 8 {
                "7.1"@
            } else if n == 6 {
                "5.1"@
            } else if n == 2 {
                "Stereo"@
            } else if n == 1 {
                "Mono"@
            } else {
                raw
            },
        ),
    }
}

/// The text of an optional sequence, empty where there is none.
pub open spec fn or_empty(o: Option<Seq<char>>) -> Seq<char> {
    match o {
        Some(s) => s,
        None => Seq::empty(),
    }
}

/// The video track that the four raw fields describe. A missing codec
/// identifier leaves the codec empty.
pub open spec fn video_track(
    codec_id: Option<Seq<char>>,
    bit_rate: Seq<char>,
    height: Seq<char>,
    scan_type: Option<Seq<char>>,
) -> VideoTrackView {
    VideoTrackView {
        codec: match codec_id {
            Some(id) => video_codec_name(id),
            None => Seq::empty(),
        },
        bitrate: bitrate_display(bit_rate),
        height: height,
        scantype: scan_label(scan_type),
    }
}

/// The audio track that the five raw fields describe. Where neither a
/// commercial name nor a codec identifier is given the codec is empty; where
/// the channel field holds no integer it is shown as it is.
pub open spec fn audio_track(
    commercial: Option<Seq<char>>,
    codec_id: Option<Seq<char>>,
    bit_rate: Seq<char>,
    bit_mode: Seq<char>,
    channels: Seq<char>,
) -> AudioTrackView {
    AudioTrackView {
        codec: or_empty(audio_codec_name(commercial, codec_id)),
        bitrate: bitrate_display(bit_rate),
        bit_mode: bit_mode,
        channels: match channel_label(channels) {
            Some(label) => label,
            None => channels,
        },
    }
}

/// The video track that the raw track record `blob` describes, from its
/// fields `CodecID`, `BitRate`, `Height` and `ScanType`.
pub open spec fn video_of(blob: json::JsonValue) -> VideoTrackView {
    video_track(
        json_field_str(blob, "CodecID"@),
        json_field_text(blob, "BitRate"@),
        json_field_text(blob, "Height"@),
        json_field_str(blob, "ScanType"@),
    )
}

/// The audio track that the raw track record `blob` describes, from its
/// fields `Format_Commercial_IfAny`, `CodecID`, `BitRate`, `BitRate_Mode` and
/// `Channels`.
pub open spec fn audio_of(blob: json::JsonValue) -> AudioTrackView {
    audio_track(
        json_field_str(blob, "Format_Commercial_IfAny"@),
        json_field_str(blob, "CodecID"@),
        json_field_text(blob, "BitRate"@),
        json_field_text(blob, "BitRate_Mode"@),
        json_field_text(blob, "Channels"@),
    )
}

/// The subtitle track that the raw track record `blob` describes, from its
/// fields `Language` and `Format`.
pub open spec fn sub_of(blob: json::JsonValue) -> SubTrackView {
    SubTrackView {
        language: json_field_text(blob, "Language"@),
        codec: json_field_text(blob, "Format"@),
    }
}

/// The display name of a video codec identifier.
pub fn video_codec(id: Option<&str>) -> (r: Result<String, NormalizeError>)
    ensures
        match id {
            Some(i) => r matches Ok(name) && name@ == video_codec_name(i@),
            None => r == Err::<String, NormalizeError>(NormalizeError::MissingField),
        },
{
    match id {
        None => Err(NormalizeError::MissingField),
        Some(i) => {
            if same_text(i, "V_MPEGH/ISO/HEVC") {
                Ok("HEVC".to_owned())
            } else if same_text(i, "V_MPEG4/ISO/AVC") || same_text(i, "avc1") {
                Ok("h264".to_owned())
            } else {
                Ok(i.to_owned())
            }
        },
    }
}

/// The scan type label of a raw scan type.
pub fn scan_type(raw: Option<&str>) -> (r: String)
    ensures
        r@ == scan_label(opt_text(raw)),
{
    match raw {
        Some(s) => {
            if same_text(s, "Progressive") {
                "p".to_owned()
            } else if same_text(s, "Interlaced") {
                "i".to_owned()
            } else {
                String::new()
            }
        },
        None => String::new(),
    }
}

/// The audio codec name from the commercial name, or else from the codec
/// identifier.
pub fn audio_codec(commercial: Option<&str>, id: Option<&str>) -> (r: Result<
    String,
    NormalizeError,
>)
    ensures
        match audio_codec_name(opt_text(commercial), opt_text(id)) {
            Some(name) => r matches Ok(s) && s@ == name,
            None => r == Err::<String, NormalizeError>(NormalizeError::MissingField),
        },
{
    match commercial {
        Some(cn) => {
            if same_text(cn, "DTS-HD Master Audio") {
                Ok("DTSHD-MA".to_owned())
            } else if same_text(cn, "Dolby Digital Plus with Dolby Atmos") {
                Ok("DDP + Atmos".to_owned())
            } else if same_text(cn, "Dolby TrueHD with Dolby Atmos") {
                Ok("TrueHD + Atmos".to_owned())
            } else {
                Ok(cn.to_owned())
            }
        },
        None => match id {
            None => Err(NormalizeError::MissingField),
            Some(i) => {
                if same_text(i, "55") {
                    Ok("MP3".to_owned())
                } else {
                    let s = chars_of(i);
                    if s.len() >= 2 && s[0] == 'A' && s[1] == '_' {
                        let out = string_of(&s, 2, s.len());
                        assert(s@.subrange(2, s.len() as int) =~= s@.skip(2));
                        Ok(out)
                    } else {
                        Ok(i.to_owned())
                    }
                }
            },
        },
    }
}

/// The channel layout label of a raw channel count.
pub fn channel_layout(raw: &str) -> (r: Result<String, NormalizeError>)
    ensures
        match channel_label(raw@) {
            Some(label) => r matches Ok(s) && s@ == label,
            None => r == Err::<String, NormalizeError>(NormalizeError::Parse),
        },
{
    match parse_i32(raw) {
        None => Err(NormalizeError::Parse),
        Some(n) => {
            if n == 8 {
                Ok("7.1".to_owned())
            } else if n == 6 {
                Ok("5.1".to_owned())
            } else if n == 2 {
                Ok("Stereo".to_owned())
            } else if n == 1 {
                Ok("Mono".to_owned())
            } else {
                Ok(raw.to_owned())
            }
        },
    }
}

impl VideoTrack {
    /// The video track that four raw fields describe.
    pub fn from_fields(
        codec_id: Option<&str>,
        bit_rate: &str,
        height: &str,
        scan: Option<&str>,
    ) -> (r: VideoTrack)
        ensures
            r@ == video_track(opt_text(codec_id), bit_rate@, height@, opt_text(scan)),
    {
        VideoTrack {
            codec: match video_codec(codec_id) {
                Ok(name) => name,
                Err(_) => String::new(),
            },
            bitrate: format_bitrate(bit_rate.to_owned()),
            height: height.to_owned(),
            scantype: scan_type(scan),
        }
    }

    /// The video track that a raw track record describes.
    pub fn new(blob: &json::JsonValue) -> (r: VideoTrack)
        ensures
            r@ == video_of(*blob),
    {
        let bit_rate = field_text(blob, "BitRate");
        let height = field_text(blob, "Height");
        VideoTrack::from_fields(
            field_str(blob, "CodecID"),
            bit_rate.as_str(),
            height.as_str(),
            field_str(blob, "ScanType"),
        )
    }
}

impl AudioTrack {
    /// The audio track that five raw fields describe.
    pub fn from_fields(
        commercial: Option<&str>,
        codec_id: Option<&str>,
        bit_rate: &str,
        bit_mode: &str,
        channels: &str,
    ) -> (r: AudioTrack)
        ensures
            r@ == audio_track(
                opt_text(commercial),
                opt_text(codec_id),
                bit_rate@,
                bit_mode@,
                channels@,
            ),
    {
        AudioTrack {
            codec: match audio_codec(commercial, codec_id) {
                Ok(name) => name,
                Err(_) => String::new(),
            },
            bitrate: format_bitrate(bit_rate.to_owned()),
            bit_mode: bit_mode.to_owned(),
            channels: match channel_layout(channels) {
                Ok(label) => label,
                Err(_) => channels.to_owned(),
            },
        }
    }

    /// The audio track that a raw track record describes.
    pub fn new(blob: &json::JsonValue) -> (r: AudioTrack)
        ensures
            r@ == audio_of(*blob),
    {
        let bit_rate = field_text(blob, "BitRate");
        let bit_mode = field_text(blob, "BitRate_Mode");
        let channels = field_text(blob, "Channels");
        AudioTrack::from_fields(
            field_str(blob, "Format_Commercial_IfAny"),
            field_str(blob, "CodecID"),
            bit_rate.as_str(),
            bit_mode.as_str(),
            channels.as_str(),
        )
    }
}

impl SubTrack {
    /// The subtitle track that a raw track record describes.
    pub fn new(blob: &json::JsonValue) -> (r: SubTrack)
        ensures
            r@ == sub_of(*blob),
    {
        SubTrack { codec: field_text(blob, "Format"), language: field_text(blob, "Language") }
    }
}

/// One track record of a metadata document, normalised by its type.
#[derive(Debug, PartialEq, Eq)]
pub enum Track {
    /// The container, by the name of its format.
    General(String),
    Video(VideoTrack),
    Audio(AudioTrack),
    Text(SubTrack),
    /// A record of a type that the inventory does not show.
    Other,
}

/// What a [`Track`] holds.
pub ghost enum TrackView {
    General(Seq<char>),
    Video(VideoTrackView),
    Audio(AudioTrackView),
    Text(SubTrackView),
    Other,
}

impl View for Track {
    type V = TrackView;

    open spec fn view(&self) -> TrackView {
        match self {
            Track::General(name) => TrackView::General(name@),
            Track::Video(t) => TrackView::Video(t@),
            Track::Audio(t) => TrackView::Audio(t@),
            Track::Text(t) => TrackView::Text(t@),
            Track::Other => TrackView::Other,
        }
    }
}

/// The views of a sequence of tracks.
pub open spec fn track_views(s: Seq<Track>) -> Seq<TrackView> {
    s.map_values(|t: Track| t@)
}

/// The track that the raw track record `blob` describes: its field `@type`
/// says which of the four kinds it is, and a `General` record gives the
/// container's name in its field `Format`.
pub open spec fn track_of(blob: json::JsonValue) -> TrackView {
    let kind = json_field_text(blob, "@type"@);
    if kind == "General"@ {
        TrackView::General(json_field_text(blob, "Format"@))
    } else if kind == "Video"@ {
        TrackView::Video(video_of(blob))
    } else if kind == "Audio"@ {
        TrackView::Audio(audio_of(blob))
    } else if kind == "Text"@ {
        TrackView::Text(sub_of(blob))
    } else {
        TrackView::Other
    }
}

/// Normalises one raw track record.
pub fn normalize(blob: &json::JsonValue) -> (r: Track)
    ensures
        r@ == track_of(*blob),
{
    let kind = field_text(blob, "@type");
    if same_text(kind.as_str(), "General") {
        Track::General(field_text(blob, "Format"))
    } else if same_text(kind.as_str(), "Video") {
        Track::Video(VideoTrack::new(blob))
    } else if same_text(kind.as_str(), "Audio") {
        Track::Audio(AudioTrack::new(blob))
    } else if same_text(kind.as_str(), "Text") {
        Track::Text(SubTrack::new(blob))
    } else {
        Track::Other
    }
}

} // verus!
