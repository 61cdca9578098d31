//! The record of one media file and the cells of its table row.

use vstd::prelude::*;
use crate::text::{chars_of, string_of, push_char};
use crate::document::{
    can_be_parsed, json_member, json_members, json_parsed, member, members, parse_text,
    parser_takes,
};
use crate::track::{
    audio_views, normalize, sub_views, track_of, track_views, video_views, AudioTrack,
    AudioTrackView, SubTrack, SubTrackView, Track, TrackView, VideoTrack, VideoTrackView,
};

verus! {

/// Longest file name that is shown in full.
pub const MAX_NAME: usize = 42;

/// The character that marks a cut in a file name.
pub const ELLIPSIS: char = '\u{2026}';

/// One media file: its name, its container, and its tracks in the order in
/// which the metadata listed them.
#[derive(Debug, PartialEq, Eq, PartialOrd, Ord)]
pub struct MediaInfo {
    /// Base name of the file.
    pub filename: String,
    /// Name of the container format.
    pub container: String,
    pub video_tracks: Vec<VideoTrack>,
    pub audio_tracks: Vec<AudioTrack>,
    pub sub_tracks: Vec<SubTrack>,
}

/// What a [`MediaInfo`] holds.
pub ghost struct MediaInfoView {
    pub filename: Seq<char>,
    pub container: Seq<char>,
    pub video: Seq<VideoTrackView>,
    pub audio: Seq<AudioTrackView>,
    pub subs: Seq<SubTrackView>,
}

impl View for MediaInfo {
    type V = MediaInfoView;

    open spec fn view(&self) -> MediaInfoView {
        MediaInfoView {
            filename: self.filename@,
            container: self.container@,
            video: video_views(self.video_tracks@),
            audio: audio_views(self.audio_tracks@),
            subs: sub_views(self.sub_tracks@),
        }
    }
}

/// The texts of a sequence of strings.
pub open spec fn texts(v: Seq<String>) -> Seq<Seq<char>> {
    v.map_values(|s: String| s@)
}

/// The three cells of video slot `i`: codec, bitrate, and height followed by
/// scan type; three empty cells where the file has no such track.
pub open spec fn video_slot(tracks: Seq<VideoTrackView>, i: int) -> Seq<Seq<char>> {
    if 0 <= i < tracks.len() {
        seq![tracks[i].codec, tracks[i].bitrate, tracks[i].height + tracks[i].scantype]
    } else {
        seq![Seq::empty(), Seq::empty(), Seq::empty()]
    }
}

/// The cells of the first `n` video slots.
pub open spec fn video_cells(tracks: Seq<VideoTrackView>, n: nat) -> Seq<Seq<char>>
    decreases n,
{
    if n == 0 {
        Seq::empty()
    } else {
        video_cells(tracks, (n - 1) as nat) + video_slot(tracks, n - 1)
    }
}

/// The four cells of audio slot `i`: codec, bitrate, bit-rate mode and
/// channels; four empty cells where the file has no such track.
pub open spec fn audio_slot(tracks: Seq<AudioTrackView>, i: int) -> Seq<Seq<char>> {
    if 0 <= i < tracks.len() {
        seq![tracks[i].codec, tracks[i].bitrate, tracks[i].bit_mode, tracks[i].channels]
    } else {
        seq![Seq::empty(), Seq::empty(), Seq::empty(), Seq::empty()]
    }
}

/// The cells of the first `n` audio slots.
pub open spec fn audio_cells(tracks: Seq<AudioTrackView>, n: nat) -> Seq<Seq<char>>
    decreases n,
{
    if n == 0 {
        Seq::empty()
    } else {
        audio_cells(tracks, (n - 1) as nat) + audio_slot(tracks, n - 1)
    }
}

/// How many characters of a long name stay before the cut.
pub const KEPT_HEAD: usize = 20;

/// How many characters stay behind the cut of a name of `len` characters:
/// one fewer than before the cut for a name of even length, one more for a
/// name of odd length.
pub open spec fn kept_tail(len: nat) -> nat {
    if len % 2 == 0 {
        19
    } else {
        21
    }
}

/// A file name as the table shows it. A name of at most 42 characters is
/// shown as it is. From a longer one a span is removed around its midpoint,
/// and the ellipsis stands in its place: the name's first twenty characters,
/// the ellipsis, and the name's last 19 or 21 characters.
pub open spec fn short_name(name: Seq<char>) -> Seq<char> {
    if name.len() <= MAX_NAME {
        name
    } else {
        name.take(KEPT_HEAD as int).push(ELLIPSIS) + name.skip(name.len() - kept_tail(name.len()))
    }
}

/// The cells of one table row: the shortened file name, a bar, the video
/// slots, a bar, the audio slots.
pub open spec fn row_cells(m: MediaInfoView, vts: nat, ats: nat) -> Seq<Seq<char>> {
    seq![short_name(m.filename), seq!['|']] + video_cells(m.video, vts) + seq![seq!['|']]
        + audio_cells(m.audio, ats)
}

/// `name` as the table shows it.
pub fn shorten(name: &str) -> (r: String)
    ensures
        r@ == short_name(name@),
{
    let s = chars_of(name);
    let n = s.len();
    if n <= MAX_NAME {
        let out = string_of(&s, 0, n);
        assert(s@.subrange(0, n as int) =~= s@);
        out
    } else {
        let tail: usize = if n % 2 == 0 { 19 } else { 21 };
        let mut out = string_of(&s, 0, KEPT_HEAD);
        push_char(&mut out, ELLIPSIS);
        let end = string_of(&s, n - tail, n);
        out.append(end.as_str());
        assert(s@.subrange(0, KEPT_HEAD as int) =~= s@.take(KEPT_HEAD as int));
        assert(s@.subrange(n - tail, n as int) =~= s@.skip(n - tail));
        out
    }
}

impl MediaInfo {
    /// The cells of the first `vts` video slots.
    pub fn get_video_printline(&self, vts: usize) -> (r: Vec<String>)
        ensures
            texts(r@) == video_cells(self@.video, vts as nat),
    {
        let mut ret: Vec<String> = Vec::new();
        let mut i: usize = 0;
        assert(texts(ret@) =~= video_cells(self@.video, 0));
        while i < vts
            invariant
                i <= vts,
                texts(ret@) == video_cells(self@.video, i as nat),
            decreases vts - i,
        {
            let ghost before = texts(ret@);
            if i < self.video_tracks.len() {
                let l = &self.video_tracks[i];
                ret.push(l.codec.clone());
                ret.push(l.bitrate.clone());
                let mut last = l.height.clone();
                last.append(l.scantype.as_str());
                ret.push(last);
            } else {
                ret.push(String::new());
                ret.push(String::new());
                ret.push(String::new());
            }
            assert(texts(ret@) =~= before + video_slot(self@.video, i as int));
            i += 1;
        }
        ret
    }

    /// The cells of the first `ats` audio slots.
    pub fn get_audio_printline(&self, ats: usize) -> (r: Vec<String>)
        ensures
            texts(r@) == audio_cells(self@.audio, ats as nat),
    {
        let mut ret: Vec<String> = Vec::new();
        let mut i: usize = 0;
        assert(texts(ret@) =~= audio_cells(self@.audio, 0));
        while i < ats
            invariant
                i <= ats,
                texts(ret@) == audio_cells(self@.audio, i as nat),
            decreases ats - i,
        {
            let ghost before = texts(ret@);
            if i < self.audio_tracks.len() {
                let l = &self.audio_tracks[i];
                ret.push(l.codec.clone());
                ret.push(l.bitrate.clone());
                ret.push(l.bit_mode.clone());
                ret.push(l.channels.clone());
            } else {
                ret.push(String::new());
                ret.push(String::new());
                ret.push(String::new());
                ret.push(String::new());
            }
            assert(texts(ret@) =~= before + audio_slot(self@.audio, i as int));
            i += 1;
        }
        ret
    }

    /// The cells of this file's table row, with `vts` video slots and `ats`
    /// audio slots. Subtitle slots are not shown, whatever `_sts` is.
    pub fn get_printline(&self, vts: usize, ats: usize, _sts: usize) -> (r: Vec<String>)
        ensures
            texts(r@) == row_cells(self@, vts as nat, ats as nat),
    {
        let mut ret: Vec<String> = Vec::new();
        ret.push(shorten(self.filename.as_str()));
        ret.push(bar());
        let mut video = self.get_video_printline(vts);
        let ghost v = texts(video@);
        ret.append(&mut video);
        ret.push(bar());
        let mut audio = self.get_audio_printline(ats);
        let ghost a = texts(audio@);
        ret.append(&mut audio);
        assert(texts(ret@) =~= seq![short_name(self@.filename), seq!['|']] + v + seq![seq!['|']]
            + a);
        ret
    }
}

/// The cell that separates the groups of a row.
fn bar() -> (r: String)
    ensures
        r@ == seq!['|'],
{
    let mut s = String::new();
    push_char(&mut s, '|');
    assert(s@ =~= seq!['|']);
    s
}

/// Why no metadata could be had for a file.
#[derive(Debug, Clone, Copy, PartialEq, Eq)]
pub enum ExtractionError {
    /// The metadata tool could not be started.
    Launch,
    /// The metadata document is no valid JSON, or holds a number with more
    /// digits behind the point than the parser can count.
    Parse,
}

/// The container of a file: the format of the first `General` track.
pub open spec fn container_of(tracks: Seq<TrackView>) -> Option<Seq<char>>
    decreases tracks.len(),
{
    if tracks.len() == 0 {
        None
    } else {
        match container_of(tracks.drop_last()) {
            Some(name) => Some(name),
            None => match tracks.last() {
                TrackView::General(name) => Some(name),
                _ => None,
            },
        }
    }
}

/// The video tracks among `tracks`, in their order.
pub open spec fn videos_of(tracks: Seq<TrackView>) -> Seq<VideoTrackView>
    decreases tracks.len(),
{
    if tracks.len() == 0 {
        Seq::empty()
    } else {
        match tracks.last() {
            TrackView::Video(t) => videos_of(tracks.drop_last()).push(t),
            _ => videos_of(tracks.drop_last()),
        }
    }
}

/// The audio tracks among `tracks`, in their order.
pub open spec fn audios_of(tracks: Seq<TrackView>) -> Seq<AudioTrackView>
    decreases tracks.len(),
{
    if tracks.len() == 0 {
        Seq::empty()
    } else {
        match tracks.last() {
            TrackView::Audio(t) => audios_of(tracks.drop_last()).push(t),
            _ => audios_of(tracks.drop_last()),
        }
    }
}

/// The subtitle tracks among `tracks`, in their order.
pub open spec fn subs_of(tracks: Seq<TrackView>) -> Seq<SubTrackView>
    decreases tracks.len(),
{
    if tracks.len() == 0 {
        Seq::empty()
    } else {
        match tracks.last() {
            TrackView::Text(t) => subs_of(tracks.drop_last()).push(t),
            _ => subs_of(tracks.drop_last()),
        }
    }
}

/// The record of the file `filename` with the tracks `tracks`, or `None`
/// where no track names a container.
pub open spec fn record_of(filename: Seq<char>, tracks: Seq<TrackView>) -> Option<MediaInfoView> {
    match container_of(tracks) {
        Some(container) => Some(
            MediaInfoView {
                filename,
                container,
                video: videos_of(tracks),
                audio: audios_of(tracks),
                subs: subs_of(tracks),
            },
        ),
        None => None,
    }
}

/// The tracks of the parsed document `doc`: the members of `media.track`,
/// each normalised.
pub open spec fn document_tracks(doc: json::JsonValue) -> Seq<TrackView> {
    json_members(json_member(json_member(doc, "media"@), "track"@)).map_values(
        |t: json::JsonValue| track_of(t),
    )
}

/// What [`MediaInfo::parse`] returns for the file `filename` with the
/// metadata document `md`: an error for a text that the parser cannot take
/// and for one that it rejects, else the record of the document's tracks.
pub open spec fn parsed_record(filename: Seq<char>, md: Seq<char>) -> Result<
    Option<MediaInfoView>,
    ExtractionError,
> {
    if !parser_takes(md) {
        Err(ExtractionError::Parse)
    } else {
        match json_parsed(md) {
            Some(doc) => Ok(record_of(filename, document_tracks(doc))),
            None => Err(ExtractionError::Parse),
        }
    }
}

/// The view of an optional record.
pub open spec fn opt_view(o: Option<MediaInfo>) -> Option<MediaInfoView> {
    match o {
        Some(m) => Some(m@),
        None => None,
    }
}

/// The view of the outcome of one file.
pub open spec fn outcome_view(o: Result<Option<MediaInfo>, ExtractionError>) -> Result<
    Option<MediaInfoView>,
    ExtractionError,
> {
    match o {
        Ok(m) => Ok(opt_view(m)),
        Err(e) => Err(e),
    }
}

/// The tracks of a parsed document, normalised.
pub fn tracks_of_document(doc: &json::JsonValue) -> (r: Vec<Track>)
    ensures
        track_views(r@) == document_tracks(*doc),
{
    let list = members(member(member(doc, "media"), "track"));
    let mut out: Vec<Track> = Vec::new();
    let mut i: usize = 0;
    let ghost raw = json_members(json_member(json_member(*doc, "media"@), "track"@));
    while i < list.len()
        invariant
            i <= list.len(),
            list@.len() == raw.len(),
            forall|j: int| 0 <= j < list@.len() ==> *#[trigger] list@[j] == raw[j],
            out@.len() == i,
            forall|j: int| 0 <= j < i ==> (#[trigger] out@[j])@ == track_of(raw[j]),
        decreases list.len() - i,
    {
        out.push(normalize(list[i]));
        i += 1;
    }
    assert(track_views(out@) =~= document_tracks(*doc));
    out
}

impl MediaInfo {
    /// Groups the tracks of one file into its record. The container is the
    /// first `General` track; without one there is no record.
    pub fn build(filename: String, tracks: Vec<Track>) -> (r: Option<MediaInfo>)
        ensures
            opt_view(r) == record_of(filename@, track_views(tracks@)),
    {
        let mut container: Option<String> = None;
        let mut video: Vec<VideoTrack> = Vec::new();
        let mut audio: Vec<AudioTrack> = Vec::new();
        let mut sub: Vec<SubTrack> = Vec::new();
        let ghost all = track_views(tracks@);
        assert(all.take(0) =~= Seq::empty());
        for t in it: tracks
            invariant
                all == track_views(it.seq()),
                match container {
                    Some(c) => container_of(all.take(it.index() as int)) == Some(c@),
                    None => container_of(all.take(it.index() as int)) is None,
                },
                video_views(video@) == videos_of(all.take(it.index() as int)),
                audio_views(audio@) == audios_of(all.take(it.index() as int)),
                sub_views(sub@) == subs_of(all.take(it.index() as int)),
        {
            let ghost seen = all.take(it.index() as int);
            proof {
                let next = all.take(it.index() + 1);
                assert(next.drop_last() =~= seen);
                assert(next.last() == t@);
            }
            match t {
                Track::General(name) => {
                    if container.is_none() {
                        container = Some(name);
                    }
                },
                Track::Video(v) => {
                    video.push(v);
                    assert(video_views(video@) =~= videos_of(seen).push(v@));
                },
                Track::Audio(a) => {
                    audio.push(a);
                    assert(audio_views(audio@) =~= audios_of(seen).push(a@));
                },
                Track::Text(s) => {
                    sub.push(s);
                    assert(sub_views(sub@) =~= subs_of(seen).push(s@));
                },
                Track::Other => {},
            }
        }
        assert(all.take(all.len() as int) =~= all);
        match container {
            None => None,
            Some(c) => Some(
                MediaInfo {
                    filename,
                    container: c,
                    video_tracks: video,
                    audio_tracks: audio,
                    sub_tracks: sub,
                },
            ),
        }
    }

    /// Reads the record of the file `filename` out of its metadata document
    /// `md`, a JSON text. A text that is no JSON is an error, and so is one
    /// with a number whose fraction outruns the parser's exponent, which is
    /// not handed to the parser; a document without a container gives no
    /// record.
    pub fn parse(filename: String, md: String) -> (r: Result<Option<MediaInfo>, ExtractionError>)
        ensures
            outcome_view(r) == parsed_record(filename@, md@),
    {
        if !can_be_parsed(md.as_str()) {
            return Err(ExtractionError::Parse);
        }
        match parse_text(md.as_str()) {
            Err(_) => Err(ExtractionError::Parse),
            Ok(doc) => Ok(MediaInfo::build(filename, tracks_of_document(&doc))),
        }
    }
}

/// A name of at most 42 characters is shown as it is. A longer one is shown
/// as a beginning of the name, the ellipsis, and an end of the name: 40 or
/// 42 characters in all, of which the one at index 20 is the ellipsis. The
/// beginning and the end together are at most 42 characters, and their
/// lengths differ by one.
pub proof fn lemma_short_name(name: Seq<char>)
    ensures
        name.len() <= MAX_NAME ==> short_name(name) == name,
        name.len() > MAX_NAME ==> {
            let shown = short_name(name);
            let head = name.take(KEPT_HEAD as int);
            let tail = name.skip(name.len() - kept_tail(name.len()));
            &&& shown == head.push(ELLIPSIS) + tail
            &&& shown.len() == head.len() + 1 + tail.len()
            &&& shown.len() <= 43
            &&& head.len() + tail.len() <= 42
            &&& head.len() - tail.len() == 1 || tail.len() - head.len() == 1
            &&& shown[KEPT_HEAD as int] == ELLIPSIS
            &&& shown.remove(KEPT_HEAD as int) == head + tail
        },
{
    if name.len() > MAX_NAME {
        let shown = short_name(name);
        let head = name.take(KEPT_HEAD as int);
        let tail = name.skip(name.len() - kept_tail(name.len()));
        assert(shown.remove(KEPT_HEAD as int) =~= head + tail);
    }
}

/// The span that is removed from a long name lies around its midpoint: with
/// `half` the midpoint and `over` one more than half of the excess over 42,
/// it runs from `half - over` up to and including `half + over`, or one
/// short of that for a name of odd length. What stays before it are the
/// first twenty characters, and what stays behind it the last 19 or 21.
pub proof fn lemma_cut_is_centred(len: nat)
    requires
        len > MAX_NAME,
    ensures
        ({
            let half = len / 2;
            let over = (len - MAX_NAME) / 2 + 1;
            &&& half - over == KEPT_HEAD
            &&& half + over - len % 2 + 1 == len - kept_tail(len)
        }),
{
}

/// A file has a record exactly where one of its tracks is a container.
pub proof fn lemma_container(filename: Seq<char>, tracks: Seq<TrackView>)
    ensures
        record_of(filename, tracks) is Some <==> exists|i: int|
            0 <= i < tracks.len() && #[trigger] tracks[i] is General,
    decreases tracks.len(),
{
    if tracks.len() > 0 {
        let rest = tracks.drop_last();
        lemma_container(filename, rest);
        if record_of(filename, rest) is Some {
            let i = choose|i: int| 0 <= i < rest.len() && #[trigger] rest[i] is General;
            assert(tracks[i] is General);
        } else if tracks.last() is General {
            assert(tracks[tracks.len() - 1] is General);
        } else {
            assert forall|i: int| 0 <= i < tracks.len() implies !(#[trigger] tracks[i]
                is General) by {
                if i < rest.len() {
                    assert(rest[i] == tracks[i]);
                }
            }
        }
    }
}

/// A document that the parser takes and accepts never gives an error: it
/// gives the record of its tracks, and that is a record exactly where one of
/// the tracks is a container.
pub proof fn lemma_parsed_document(filename: Seq<char>, md: Seq<char>)
    requires
        parser_takes(md),
        json_parsed(md) is Some,
    ensures
        parsed_record(filename, md) == Ok::<Option<MediaInfoView>, ExtractionError>(
            record_of(filename, document_tracks(json_parsed(md)->0)),
        ),
        record_of(filename, document_tracks(json_parsed(md)->0)) is Some <==> exists|i: int|
            0 <= i < document_tracks(json_parsed(md)->0).len() && #[trigger] document_tracks(
                json_parsed(md)->0,
            )[i] is General,
{
    lemma_container(filename, document_tracks(json_parsed(md)->0));
}

/// The video slots of a row hold three cells each, the audio slots four.
pub proof fn lemma_cells_len(video: Seq<VideoTrackView>, audio: Seq<AudioTrackView>, n: nat)
    ensures
        video_cells(video, n).len() == 3 * n,
        audio_cells(audio, n).len() == 4 * n,
    decreases n,
{
    if n > 0 {
        lemma_cells_len(video, audio, (n - 1) as nat);
    }
}

} // verus!
