//! The order in which records are shown: by file name, then container, then
//! the video tracks, the audio tracks and the subtitle tracks, each compared
//! field by field. Texts are ordered by their characters' scalar values, and
//! of two sequences of which one begins the other, the shorter comes first.

use vstd::prelude::*;
use vstd::seq_lib::{
    to_multiset_build, to_multiset_contains, to_multiset_insert, to_multiset_len, to_multiset_remove,
};
use crate::record::{MediaInfo, MediaInfoView};
use crate::text::chars_of;
use crate::track::{
    audio_views, sub_views, video_views, AudioTrack, AudioTrackView, SubTrack, SubTrackView,
    VideoTrack, VideoTrackView,
};

verus! {

/// How one value stands to another in the order.
#[derive(Debug, Clone, Copy, PartialEq, Eq)]
pub enum Rank {
    Before,
    Same,
    After,
}

/// `first`, unless it is undecided: then `second`.
pub open spec fn settle(first: Rank, second: Rank) -> Rank {
    match first {
        Rank::Same => second,
        decided => decided,
    }
}

/// How `a` stands to `b` by scalar value.
pub open spec fn rank_char(a: char, b: char) -> Rank {
    if a < b {
        Rank::Before
    } else if a == b {
        Rank::Same
    } else {
        Rank::After
    }
}

/// How `a` stands to `b` where the first differing members decide, as `elem`
/// ranks them, and a sequence that begins another comes before it.
pub open spec fn rank_seq<T>(a: Seq<T>, b: Seq<T>, elem: spec_fn(T, T) -> Rank) -> Rank
    decreases a.len(),
{
    if a.len() == 0 {
        if b.len() == 0 {
            Rank::Same
        } else {
            Rank::Before
        }
    } else if b.len() == 0 {
        Rank::After
    } else {
        settle(elem(a[0], b[0]), rank_seq(a.drop_first(), b.drop_first(), elem))
    }
}

/// How the text `a` stands to the text `b`.
pub open spec fn rank_text(a: Seq<char>, b: Seq<char>) -> Rank {
    rank_seq(a, b, |x: char, y: char| rank_char(x, y))
}

/// How the video track `a` stands to `b`: by codec, bitrate, height, scan
/// type.
pub open spec fn rank_video(a: VideoTrackView, b: VideoTrackView) -> Rank {
    settle(
        rank_text(a.codec, b.codec),
        settle(
            rank_text(a.bitrate, b.bitrate),
            settle(rank_text(a.height, b.height), rank_text(a.scantype, b.scantype)),
        ),
    )
}

/// How the audio track `a` stands to `b`: by codec, bitrate, bit-rate mode,
/// channels.
pub open spec fn rank_audio(a: AudioTrackView, b: AudioTrackView) -> Rank {
    settle(
        rank_text(a.codec, b.codec),
        settle(
            rank_text(a.bitrate, b.bitrate),
            settle(rank_text(a.bit_mode, b.bit_mode), rank_text(a.channels, b.channels)),
        ),
    )
}

/// How the subtitle track `a` stands to `b`: by language, then codec.
pub open spec fn rank_sub(a: SubTrackView, b: SubTrackView) -> Rank {
    settle(rank_text(a.language, b.language), rank_text(a.codec, b.codec))
}

/// How the video tracks `a` stand to `b`.
pub open spec fn rank_videos(a: Seq<VideoTrackView>, b: Seq<VideoTrackView>) -> Rank {
    rank_seq(a, b, |x: VideoTrackView, y: VideoTrackView| rank_video(x, y))
}

/// How the audio tracks `a` stand to `b`.
pub open spec fn rank_audios(a: Seq<AudioTrackView>, b: Seq<AudioTrackView>) -> Rank {
    rank_seq(a, b, |x: AudioTrackView, y: AudioTrackView| rank_audio(x, y))
}

/// How the subtitle tracks `a` stand to `b`.
pub open spec fn rank_subs(a: Seq<SubTrackView>, b: Seq<SubTrackView>) -> Rank {
    rank_seq(a, b, |x: SubTrackView, y: SubTrackView| rank_sub(x, y))
}

/// How the record `a` stands to `b`.
pub open spec fn rank_record(a: MediaInfoView, b: MediaInfoView) -> Rank {
    settle(
        rank_text(a.filename, b.filename),
        settle(
            rank_text(a.container, b.container),
            settle(
                rank_videos(a.video, b.video),
                settle(rank_audios(a.audio, b.audio), rank_subs(a.subs, b.subs)),
            ),
        ),
    )
}

/// Ranking from index `i` on decides as ranking the whole, where everything
/// before `i` ranks the same.
proof fn lemma_rank_skip<T>(a: Seq<T>, b: Seq<T>, elem: spec_fn(T, T) -> Rank, i: int)
    requires
        0 <= i <= a.len(),
        i <= b.len(),
        forall|j: int| 0 <= j < i ==> elem(a[j], b[j]) == Rank::Same,
    ensures
        rank_seq(a, b, elem) == rank_seq(a.skip(i), b.skip(i), elem),
    decreases i,
{
    if i == 0 {
        assert(a.skip(0) =~= a);
        assert(b.skip(0) =~= b);
    } else {
        lemma_rank_skip(a, b, elem, i - 1);
        let x = a.skip(i - 1);
        let y = b.skip(i - 1);
        assert(x[0] == a[i - 1]);
        assert(y[0] == b[i - 1]);
        assert(x.drop_first() =~= a.skip(i));
        assert(y.drop_first() =~= b.skip(i));
    }
}

/// How the text `a` stands to the text `b`.
pub fn compare_text(a: &str, b: &str) -> (r: Rank)
    ensures
        r == rank_text(a@, b@),
{
    let x = chars_of(a);
    let y = chars_of(b);
    let ghost elem = |p: char, q: char| rank_char(p, q);
    let mut i: usize = 0;
    while i < x.len() && i < y.len()
        invariant
            i <= x.len(),
            i <= y.len(),
            x@ == a@,
            y@ == b@,
            elem == (|p: char, q: char| rank_char(p, q)),
            forall|j: int| 0 <= j < i ==> elem(x@[j], y@[j]) == Rank::Same,
        decreases x.len() - i,
    {
        proof {
            lemma_rank_skip(x@, y@, elem, i as int);
            assert(x@.skip(i as int)[0] == x@[i as int]);
            assert(y@.skip(i as int)[0] == y@[i as int]);
        }
        if x[i] < y[i] {
            return Rank::Before;
        } else if x[i] != y[i] {
            return Rank::After;
        }
        i += 1;
    }
    proof {
        lemma_rank_skip(x@, y@, elem, i as int);
    }
    if i < y.len() {
        Rank::Before
    } else if i < x.len() {
        Rank::After
    } else {
        Rank::Same
    }
}

/// How the video track `a` stands to `b`.
pub fn compare_video(a: &VideoTrack, b: &VideoTrack) -> (r: Rank)
    ensures
        r == rank_video(a@, b@),
{
    match compare_text(a.codec.as_str(), b.codec.as_str()) {
        Rank::Same => {},
        decided => {
            return decided;
        },
    }
    match compare_text(a.bitrate.as_str(), b.bitrate.as_str()) {
        Rank::Same => {},
        decided => {
            return decided;
        },
    }
    match compare_text(a.height.as_str(), b.height.as_str()) {
        Rank::Same => {},
        decided => {
            return decided;
        },
    }
    compare_text(a.scantype.as_str(), b.scantype.as_str())
}

/// How the audio track `a` stands to `b`.
pub fn compare_audio(a: &AudioTrack, b: &AudioTrack) -> (r: Rank)
    ensures
        r == rank_audio(a@, b@),
{
    match compare_text(a.codec.as_str(), b.codec.as_str()) {
        Rank::Same => {},
        decided => {
            return decided;
        },
    }
    match compare_text(a.bitrate.as_str(), b.bitrate.as_str()) {
        Rank::Same => {},
        decided => {
            return decided;
        },
    }
    match compare_text(a.bit_mode.as_str(), b.bit_mode.as_str()) {
        Rank::Same => {},
        decided => {
            return decided;
        },
    }
    compare_text(a.channels.as_str(), b.channels.as_str())
}

/// How the subtitle track `a` stands to `b`.
pub fn compare_sub(a: &SubTrack, b: &SubTrack) -> (r: Rank)
    ensures
        r == rank_sub(a@, b@),
{
    match compare_text(a.language.as_str(), b.language.as_str()) {
        Rank::Same => {},
        decided => {
            return decided;
        },
    }
    compare_text(a.codec.as_str(), b.codec.as_str())
}

/// How the video tracks `a` stand to `b`.
pub fn compare_videos(a: &Vec<VideoTrack>, b: &Vec<VideoTrack>) -> (r: Rank)
    ensures
        r == rank_videos(video_views(a@), video_views(b@)),
{
    let ghost x = video_views(a@);
    let ghost y = video_views(b@);
    let ghost elem = |p: VideoTrackView, q: VideoTrackView| rank_video(p, q);
    let mut i: usize = 0;
    while i < a.len() && i < b.len()
        invariant
            i <= a.len(),
            i <= b.len(),
            x == video_views(a@),
            y == video_views(b@),
            elem == (|p: VideoTrackView, q: VideoTrackView| rank_video(p, q)),
            forall|j: int| 0 <= j < i ==> elem(x[j], y[j]) == Rank::Same,
        decreases a.len() - i,
    {
        proof {
            lemma_rank_skip(x, y, elem, i as int);
            assert(x.skip(i as int)[0] == a@[i as int]@);
            assert(y.skip(i as int)[0] == b@[i as int]@);
        }
        match compare_video(&a[i], &b[i]) {
            Rank::Same => {},
            decided => {
                return decided;
            },
        }
        i += 1;
    }
    proof {
        lemma_rank_skip(x, y, elem, i as int);
    }
    if i < b.len() {
        Rank::Before
    } else if i < a.len() {
        Rank::After
    } else {
        Rank::Same
    }
}

/// How the audio tracks `a` stand to `b`.
pub fn compare_audios(a: &Vec<AudioTrack>, b: &Vec<AudioTrack>) -> (r: Rank)
    ensures
        r == rank_audios(audio_views(a@), audio_views(b@)),
{
    let ghost x = audio_views(a@);
    let ghost y = audio_views(b@);
    let ghost elem = |p: AudioTrackView, q: AudioTrackView| rank_audio(p, q);
    let mut i: usize = 0;
    while i < a.len() && i < b.len()
        invariant
            i <= a.len(),
            i <= b.len(),
            x == audio_views(a@),
            y == audio_views(b@),
            elem == (|p: AudioTrackView, q: AudioTrackView| rank_audio(p, q)),
            forall|j: int| 0 <= j < i ==> elem(x[j], y[j]) == Rank::Same,
        decreases a.len() - i,
    {
        proof {
            lemma_rank_skip(x, y, elem, i as int);
            assert(x.skip(i as int)[0] == a@[i as int]@);
            assert(y.skip(i as int)[0] == b@[i as int]@);
        }
        match compare_audio(&a[i], &b[i]) {
            Rank::Same => {},
            decided => {
                return decided;
            },
        }
        i += 1;
    }
    proof {
        lemma_rank_skip(x, y, elem, i as int);
    }
    if i < b.len() {
        Rank::Before
    } else if i < a.len() {
        Rank::After
    } else {
        Rank::Same
    }
}

/// How the subtitle tracks `a` stand to `b`.
pub fn compare_subs(a: &Vec<SubTrack>, b: &Vec<SubTrack>) -> (r: Rank)
    ensures
        r == rank_subs(sub_views(a@), sub_views(b@)),
{
    let ghost x = sub_views(a@);
    let ghost y = sub_views(b@);
    let ghost elem = |p: SubTrackView, q: SubTrackView| rank_sub(p, q);
    let mut i: usize = 0;
    while i < a.len() && i < b.len()
        invariant
            i <= a.len(),
            i <= b.len(),
            x == sub_views(a@),
            y == sub_views(b@),
            elem == (|p: SubTrackView, q: SubTrackView| rank_sub(p, q)),
            forall|j: int| 0 <= j < i ==> elem(x[j], y[j]) == Rank::Same,
        decreases a.len() - i,
    {
        proof {
            lemma_rank_skip(x, y, elem, i as int);
            assert(x.skip(i as int)[0] == a@[i as int]@);
            assert(y.skip(i as int)[0] == b@[i as int]@);
        }
        match compare_sub(&a[i], &b[i]) {
            Rank::Same => {},
            decided => {
                return decided;
            },
        }
        i += 1;
    }
    proof {
        lemma_rank_skip(x, y, elem, i as int);
    }
    if i < b.len() {
        Rank::Before
    } else if i < a.len() {
        Rank::After
    } else {
        Rank::Same
    }
}

/// How the record `a` stands to `b`.
pub fn compare_records(a: &MediaInfo, b: &MediaInfo) -> (r: Rank)
    ensures
        r == rank_record(a@, b@),
{
    match compare_text(a.filename.as_str(), b.filename.as_str()) {
        Rank::Same => {},
        decided => {
            return decided;
        },
    }
    match compare_text(a.container.as_str(), b.container.as_str()) {
        Rank::Same => {},
        decided => {
            return decided;
        },
    }
    match compare_videos(&a.video_tracks, &b.video_tracks) {
        Rank::Same => {},
        decided => {
            return decided;
        },
    }
    match compare_audios(&a.audio_tracks, &b.audio_tracks) {
        Rank::Same => {},
        decided => {
            return decided;
        },
    }
    compare_subs(&a.sub_tracks, &b.sub_tracks)
}

/// Whether `elem` is a total order: it ranks two values the same exactly
/// where they are equal, before one way exactly where after the other way,
/// and "not after" carries over a middle value.
pub open spec fn is_total<T>(elem: spec_fn(T, T) -> Rank) -> bool {
    &&& forall|x: T, y: T| #![trigger elem(x, y)] (elem(x, y) == Rank::Same <==> x == y)
    &&& forall|x: T, y: T|
        #![trigger elem(x, y)]
        (elem(x, y) == Rank::Before <==> elem(y, x) == Rank::After)
    &&& forall|x: T, y: T, z: T|
        #![trigger elem(x, y), elem(y, z)]
        (elem(x, y) != Rank::After && elem(y, z) != Rank::After ==> elem(x, z) != Rank::After)
}

/// Under a total order of the members, two sequences rank the same exactly
/// where they are equal.
pub proof fn lemma_seq_same<T>(a: Seq<T>, b: Seq<T>, elem: spec_fn(T, T) -> Rank)
    requires
        is_total(elem),
    ensures
        rank_seq(a, b, elem) == Rank::Same <==> a == b,
    decreases a.len(),
{
    if a.len() == 0 || b.len() == 0 {
        if a.len() == 0 && b.len() == 0 {
            assert(a =~= b);
        }
    } else {
        lemma_seq_same(a.drop_first(), b.drop_first(), elem);
        let first = elem(a[0], b[0]);
        if a == b {
            assert(first == Rank::Same);
        }
        if first == Rank::Same && a.drop_first() == b.drop_first() {
            assert(a =~= seq![a[0]] + a.drop_first());
            assert(b =~= seq![b[0]] + b.drop_first());
        }
    }
}

/// Under a total order of the members, one sequence ranks before another
/// exactly where the other ranks after it.
pub proof fn lemma_seq_dual<T>(a: Seq<T>, b: Seq<T>, elem: spec_fn(T, T) -> Rank)
    requires
        is_total(elem),
    ensures
        rank_seq(a, b, elem) == Rank::Before <==> rank_seq(b, a, elem) == Rank::After,
    decreases a.len(),
{
    if a.len() > 0 && b.len() > 0 {
        lemma_seq_dual(a.drop_first(), b.drop_first(), elem);
        let first = elem(a[0], b[0]);
        let back = elem(b[0], a[0]);
        assert(first == Rank::Same <==> back == Rank::Same);
        assert(first == Rank::Before <==> back == Rank::After);
        assert(back == Rank::Before <==> first == Rank::After);
    }
}

/// Under a total order of the members, "not after" carries over a middle
/// sequence.
pub proof fn lemma_seq_trans<T>(a: Seq<T>, b: Seq<T>, c: Seq<T>, elem: spec_fn(T, T) -> Rank)
    requires
        is_total(elem),
        rank_seq(a, b, elem) != Rank::After,
        rank_seq(b, c, elem) != Rank::After,
    ensures
        rank_seq(a, c, elem) != Rank::After,
    decreases a.len(),
{
    if a.len() > 0 && b.len() > 0 && c.len() > 0 {
        let ab = elem(a[0], b[0]);
        let bc = elem(b[0], c[0]);
        let ac = elem(a[0], c[0]);
        let ba = elem(b[0], a[0]);
        assert(ab != Rank::After && bc != Rank::After);
        assert(ac != Rank::After);
        if ac == Rank::Same {
            assert(a[0] == c[0]);
            assert(ba == Rank::After <==> ab == Rank::Before);
            assert(ab == Rank::Same);
            assert(bc == Rank::Same);
            lemma_seq_trans(a.drop_first(), b.drop_first(), c.drop_first(), elem);
        }
    }
}

/// Scalar values order characters totally.
pub proof fn lemma_char_total()
    ensures
        is_total(|x: char, y: char| rank_char(x, y)),
{
}

/// The laws of a total order, as far as they speak of `a`, `b` and `c`.
pub open spec fn total_on<T>(elem: spec_fn(T, T) -> Rank, a: T, b: T, c: T) -> bool {
    &&& elem(a, b) == Rank::Same <==> a == b
    &&& elem(a, c) == Rank::Same <==> a == c
    &&& elem(b, c) == Rank::Same <==> b == c
    &&& elem(a, b) == Rank::Before <==> elem(b, a) == Rank::After
    &&& elem(a, c) == Rank::Before <==> elem(c, a) == Rank::After
    &&& elem(b, c) == Rank::Before <==> elem(c, b) == Rank::After
    &&& elem(b, a) == Rank::Before <==> elem(a, b) == Rank::After
    &&& elem(c, a) == Rank::Before <==> elem(a, c) == Rank::After
    &&& elem(c, b) == Rank::Before <==> elem(b, c) == Rank::After
    &&& elem(a, b) != Rank::After && elem(b, c) != Rank::After ==> elem(a, c) != Rank::After
}

/// An order that keeps the laws on every three values is total.
pub proof fn lemma_total_from_triples<T>(elem: spec_fn(T, T) -> Rank)
    requires
        forall|x: T, y: T, z: T| #[trigger] total_on(elem, x, y, z),
    ensures
        is_total(elem),
{
    assert forall|x: T, y: T| #![trigger elem(x, y)] (elem(x, y) == Rank::Same <==> x == y) by {
        assert(total_on(elem, x, y, y));
    }
    assert forall|x: T, y: T|
        #![trigger elem(x, y)]
        (elem(x, y) == Rank::Before <==> elem(y, x) == Rank::After) by {
        assert(total_on(elem, x, y, y));
    }
    assert forall|x: T, y: T, z: T|
        #![trigger elem(x, y), elem(y, z)]
        (elem(x, y) != Rank::After && elem(y, z) != Rank::After ==> elem(x, z)
            != Rank::After) by {
        assert(total_on(elem, x, y, z));
    }
}

/// Under a total order of the members, sequences are totally ordered.
pub proof fn lemma_seq_order<T>(a: Seq<T>, b: Seq<T>, c: Seq<T>, elem: spec_fn(T, T) -> Rank)
    requires
        is_total(elem),
    ensures
        total_on(|x: Seq<T>, y: Seq<T>| rank_seq(x, y, elem), a, b, c),
{
    lemma_seq_same(a, b, elem);
    lemma_seq_same(a, c, elem);
    lemma_seq_same(b, c, elem);
    lemma_seq_dual(a, b, elem);
    lemma_seq_dual(a, c, elem);
    lemma_seq_dual(b, c, elem);
    lemma_seq_dual(b, a, elem);
    lemma_seq_dual(c, a, elem);
    lemma_seq_dual(c, b, elem);
    if rank_seq(a, b, elem) != Rank::After && rank_seq(b, c, elem) != Rank::After {
        lemma_seq_trans(a, b, c, elem);
    }
}

/// Texts are totally ordered.
pub proof fn lemma_text_order(a: Seq<char>, b: Seq<char>, c: Seq<char>)
    ensures
        total_on(|x: Seq<char>, y: Seq<char>| rank_text(x, y), a, b, c),
{
    lemma_char_total();
    lemma_seq_order(a, b, c, |x: char, y: char| rank_char(x, y));
}

/// Video tracks are totally ordered.
pub proof fn lemma_video_order(a: VideoTrackView, b: VideoTrackView, c: VideoTrackView)
    ensures
        total_on(|x: VideoTrackView, y: VideoTrackView| rank_video(x, y), a, b, c),
{
    lemma_text_order(a.codec, b.codec, c.codec);
    lemma_text_order(a.bitrate, b.bitrate, c.bitrate);
    lemma_text_order(a.height, b.height, c.height);
    lemma_text_order(a.scantype, b.scantype, c.scantype);
}

/// Audio tracks are totally ordered.
pub proof fn lemma_audio_order(a: AudioTrackView, b: AudioTrackView, c: AudioTrackView)
    ensures
        total_on(|x: AudioTrackView, y: AudioTrackView| rank_audio(x, y), a, b, c),
{
    lemma_text_order(a.codec, b.codec, c.codec);
    lemma_text_order(a.bitrate, b.bitrate, c.bitrate);
    lemma_text_order(a.bit_mode, b.bit_mode, c.bit_mode);
    lemma_text_order(a.channels, b.channels, c.channels);
}

/// Subtitle tracks are totally ordered.
pub proof fn lemma_sub_order(a: SubTrackView, b: SubTrackView, c: SubTrackView)
    ensures
        total_on(|x: SubTrackView, y: SubTrackView| rank_sub(x, y), a, b, c),
{
    lemma_text_order(a.language, b.language, c.language);
    lemma_text_order(a.codec, b.codec, c.codec);
}

/// Sequences of video tracks are totally ordered.
pub proof fn lemma_videos_order(
    a: Seq<VideoTrackView>,
    b: Seq<VideoTrackView>,
    c: Seq<VideoTrackView>,
)
    ensures
        total_on(|x: Seq<VideoTrackView>, y: Seq<VideoTrackView>| rank_videos(x, y), a, b, c),
{
    let elem = |x: VideoTrackView, y: VideoTrackView| rank_video(x, y);
    assert forall|x: VideoTrackView, y: VideoTrackView, z: VideoTrackView| #[trigger]
        total_on(elem, x, y, z) by {
        lemma_video_order(x, y, z);
    }
    lemma_total_from_triples(elem);
    lemma_seq_order(a, b, c, elem);
}

/// Sequences of audio tracks are totally ordered.
pub proof fn lemma_audios_order(
    a: Seq<AudioTrackView>,
    b: Seq<AudioTrackView>,
    c: Seq<AudioTrackView>,
)
    ensures
        total_on(|x: Seq<AudioTrackView>, y: Seq<AudioTrackView>| rank_audios(x, y), a, b, c),
{
    let elem = |x: AudioTrackView, y: AudioTrackView| rank_audio(x, y);
    assert forall|x: AudioTrackView, y: AudioTrackView, z: AudioTrackView| #[trigger]
        total_on(elem, x, y, z) by {
        lemma_audio_order(x, y, z);
    }
    lemma_total_from_triples(elem);
    lemma_seq_order(a, b, c, elem);
}

/// Sequences of subtitle tracks are totally ordered.
pub proof fn lemma_subs_order(a: Seq<SubTrackView>, b: Seq<SubTrackView>, c: Seq<SubTrackView>)
    ensures
        total_on(|x: Seq<SubTrackView>, y: Seq<SubTrackView>| rank_subs(x, y), a, b, c),
{
    let elem = |x: SubTrackView, y: SubTrackView| rank_sub(x, y);
    assert forall|x: SubTrackView, y: SubTrackView, z: SubTrackView| #[trigger]
        total_on(elem, x, y, z) by {
        lemma_sub_order(x, y, z);
    }
    lemma_total_from_triples(elem);
    lemma_seq_order(a, b, c, elem);
}

/// The order of records is total: two records rank the same exactly where
/// they hold the same, one ranks before another exactly where the other
/// ranks after it, and "not after" carries over a middle record.
pub proof fn lemma_record_order(a: MediaInfoView, b: MediaInfoView, c: MediaInfoView)
    ensures
        total_on(|x: MediaInfoView, y: MediaInfoView| rank_record(x, y), a, b, c),
{
    lemma_text_order(a.filename, b.filename, c.filename);
    lemma_text_order(a.container, b.container, c.container);
    lemma_videos_order(a.video, b.video, c.video);
    lemma_audios_order(a.audio, b.audio, c.audio);
    lemma_subs_order(a.subs, b.subs, c.subs);
}

/// The views of a sequence of records.
pub open spec fn record_views(s: Seq<MediaInfo>) -> Seq<MediaInfoView> {
    s.map_values(|m: MediaInfo| m@)
}

/// Whether no record of `s` ranks after a later one.
pub open spec fn is_sorted(s: Seq<MediaInfoView>) -> bool {
    forall|i: int, j: int| 0 <= i < j < s.len() ==> rank_record(s[i], s[j]) != Rank::After
}

/// Whether `r` decides for "after".
fn is_after(r: Rank) -> (b: bool)
    ensures
        b == (r == Rank::After),
{
    match r {
        Rank::After => true,
        _ => false,
    }
}

/// Puts the records in order. The result holds the same records, each as
/// often as before, and none of them ranks after a later one. Records that
/// rank the same hold the same, so the result does not depend on the order
/// in which the records came.
pub fn sort_records(data: Vec<MediaInfo>) -> (r: Vec<MediaInfo>)
    ensures
        is_sorted(record_views(r@)),
        record_views(r@).to_multiset() == record_views(data@).to_multiset(),
{
    let mut out: Vec<MediaInfo> = Vec::new();
    let ghost all = record_views(data@);
    assert(all.take(0) =~= record_views(out@));
    for m in it: data
        invariant
            all == record_views(it.seq()),
            is_sorted(record_views(out@)),
            record_views(out@).to_multiset() == all.take(it.index() as int).to_multiset(),
    {
        let ghost before = record_views(out@);
        let mut p: usize = 0;
        while p < out.len() && !is_after(compare_records(&out[p], &m))
            invariant
                p <= out.len(),
                before == record_views(out@),
                forall|j: int| 0 <= j < p ==> rank_record(before[j], m@) != Rank::After,
            decreases out.len() - p,
        {
            p += 1;
        }
        out.insert(p, m);
        proof {
            let after = record_views(out@);
            assert(after =~= before.insert(p as int, m@));
            to_multiset_insert(before, p as int, m@);
            let seen = all.take(it.index() as int);
            assert(all.take(it.index() + 1) =~= seen.push(m@));
            to_multiset_build(seen, m@);
            assert forall|i: int, j: int| 0 <= i < j < after.len() implies rank_record(
                after[i],
                after[j],
            ) != Rank::After by {
                if j == p {
                } else if i == p {
                    lemma_record_order(m@, before[p as int], before[j - 1]);
                } else {
                    let x = if i < p { i } else { i - 1 };
                    let y = if j < p { j } else { j - 1 };
                    assert(after[i] == before[x] && after[j] == before[y]);
                }
            }
        }
    }
    assert(all.take(all.len() as int) =~= all);
    out
}

/// Records in order are determined by what they are: two sequences in
/// order that hold the same records, each as often, are equal.
pub proof fn lemma_sorted_unique(a: Seq<MediaInfoView>, b: Seq<MediaInfoView>)
    requires
        is_sorted(a),
        is_sorted(b),
        a.to_multiset() == b.to_multiset(),
    ensures
        a == b,
    decreases a.len(),
{
    to_multiset_len(a);
    to_multiset_len(b);
    if a.len() > 0 {
        to_multiset_contains(a, a[0]);
        to_multiset_contains(b, a[0]);
        to_multiset_contains(a, b[0]);
        to_multiset_contains(b, b[0]);
        assert(a.contains(a[0]));
        assert(b.contains(b[0]));
        lemma_record_order(a[0], b[0], b[0]);
        lemma_record_order(b[0], a[0], a[0]);
        assert(rank_record(b[0], a[0]) != Rank::After);
        assert(rank_record(a[0], b[0]) != Rank::After);
        assert(a[0] == b[0]);
        to_multiset_remove(a, 0);
        to_multiset_remove(b, 0);
        assert(a.remove(0) =~= a.drop_first());
        assert(b.remove(0) =~= b.drop_first());
        lemma_sorted_unique(a.drop_first(), b.drop_first());
        assert(a =~= seq![a[0]] + a.drop_first());
        assert(b =~= seq![b[0]] + b.drop_first());
    } else {
        assert(a =~= b);
    }
}

} // verus!
