//! What the library reads from ffprobe's streams: the video stream and its
//! dynamic range, the audio and subtitle tracks, the file size, and which
//! file extensions are videos.

use vstd::prelude::*;
use crate::num::{parse_u64, parse_u64_chars};
use crate::text::{chars_eq, chars_of, str_eq, trim, trim_chars};
use crate::types::{clone_opt_string, AudioTrack, SubtitleTrack};

verus! {

/// The `tags` of an ffprobe stream.
#[derive(Debug, PartialEq, Eq)]
pub struct ProbeTags {
    pub language: Option<String>,
    pub title: Option<String>,
}

/// One stream as ffprobe reports it (the fields used here).
#[derive(Debug, PartialEq, Eq)]
pub struct ProbeStream {
    /// Global stream index, the same as in `-map 0:index`.
    pub index: u32,
    pub codec_type: Option<String>,
    pub codec_name: Option<String>,
    pub width: Option<u32>,
    pub height: Option<u32>,
    pub avg_frame_rate: Option<String>,
    pub r_frame_rate: Option<String>,
    pub color_transfer: Option<String>,
    pub channels: Option<u32>,
    pub tags: ProbeTags,
}

/// Whether an optional string is present and equals `t`.
pub open spec fn opt_is(s: Option<String>, t: Seq<char>) -> bool {
    match s {
        Some(x) => x@ == t,
        None => false,
    }
}

/// The text of an optional string, empty when absent.
pub open spec fn opt_text(s: Option<String>) -> Seq<char> {
    match s {
        Some(x) => x@,
        None => Seq::empty(),
    }
}

fn opt_eq(s: &Option<String>, t: &str) -> (r: bool)
    ensures
        r == opt_is(*s, t@),
{
    match s {
        Some(x) => str_eq(x.as_str(), t),
        None => false,
    }
}

fn opt_text_of(s: &Option<String>) -> (r: String)
    ensures
        r@ == opt_text(*s),
{
    match s {
        Some(x) => x.clone(),
        None => String::new(),
    }
}

// ---------------------------------------------------------------------------
// Video stream
// ---------------------------------------------------------------------------

/// Index of the first stream of the given `codec_type`.
pub open spec fn first_of_type(s: Seq<ProbeStream>, t: Seq<char>) -> Option<int>
    decreases s.len(),
{
    if s.len() == 0 {
        None
    } else if opt_is(s[0].codec_type, t) {
        Some(0)
    } else {
        match first_of_type(s.drop_first(), t) {
            Some(i) => Some(i + 1),
            None => None,
        }
    }
}

proof fn lemma_first_of_type_at(s: Seq<ProbeStream>, t: Seq<char>, i: int)
    requires
        0 <= i < s.len(),
        opt_is(s[i].codec_type, t),
        forall|j: int| 0 <= j < i ==> !opt_is(#[trigger] s[j].codec_type, t),
    ensures
        first_of_type(s, t) == Some(i),
    decreases i,
{
    if i > 0 {
        assert forall|j: int| 0 <= j < i - 1 implies !opt_is(
            #[trigger] s.drop_first()[j].codec_type,
            t,
        ) by {
            assert(s.drop_first()[j] == s[j + 1]);
        }
        lemma_first_of_type_at(s.drop_first(), t, i - 1);
        assert(!opt_is(s[0].codec_type, t));
    }
}

proof fn lemma_first_of_type_none(s: Seq<ProbeStream>, t: Seq<char>)
    requires
        forall|j: int| 0 <= j < s.len() ==> !opt_is(#[trigger] s[j].codec_type, t),
    ensures
        first_of_type(s, t) is None,
    decreases s.len(),
{
    if s.len() > 0 {
        assert forall|j: int| 0 <= j < s.len() - 1 implies !opt_is(
            #[trigger] s.drop_first()[j].codec_type,
            t,
        ) by {
            assert(s.drop_first()[j] == s[j + 1]);
        }
        lemma_first_of_type_none(s.drop_first(), t);
        assert(!opt_is(s[0].codec_type, t));
    }
}

/// The first stream whose `codec_type` is `video`.
pub fn find_video_stream(streams: &Vec<ProbeStream>) -> (r: Option<usize>)
    ensures
        match r {
            Some(i) => i < streams@.len() && first_of_type(streams@, "video"@) == Some(i as int),
            None => first_of_type(streams@, "video"@) is None,
        },
{
    let mut i: usize = 0;
    while i < streams.len()
        invariant
            i <= streams.len(),
            forall|j: int| 0 <= j < i ==> !opt_is(#[trigger] streams@[j].codec_type, "video"@),
        decreases streams.len() - i,
    {
        if opt_eq(&streams[i].codec_type, "video") {
            proof {
                lemma_first_of_type_at(streams@, "video"@, i as int);
            }
            return Some(i);
        }
        i = i + 1;
    }
    proof {
        lemma_first_of_type_none(streams@, "video"@);
    }
    None
}

/// Whether a transfer characteristic is HDR: PQ (`smpte2084`) or HLG
/// (`arib-std-b67`).
pub open spec fn spec_is_hdr_transfer(color_transfer: Option<String>) -> bool {
    opt_is(color_transfer, "smpte2084"@) || opt_is(color_transfer, "arib-std-b67"@)
}

/// Detects HDR10 and HLG sources by their transfer characteristic.
pub fn is_hdr_transfer(color_transfer: &Option<String>) -> (r: bool)
    ensures
        r == spec_is_hdr_transfer(*color_transfer),
{
    opt_eq(color_transfer, "smpte2084") || opt_eq(color_transfer, "arib-std-b67")
}

/// What is read from the video stream (zeros and nothing when there is none).
#[derive(Debug, PartialEq, Eq)]
pub struct VideoSummary {
    /// Position of the video stream in the stream list.
    pub stream: Option<usize>,
    pub width: u32,
    pub height: u32,
    pub color_transfer: Option<String>,
    pub is_hdr: bool,
}

/// Reads the first video stream: its size (0 when absent), its transfer
/// characteristic, and whether that is HDR.
pub fn video_summary(streams: &Vec<ProbeStream>) -> (r: VideoSummary)
    ensures
        match first_of_type(streams@, "video"@) {
            Some(i) => {
                let v = streams@[i];
                &&& r.stream == Some(i as usize)
                &&& r.width == (match v.width {
                    Some(w) => w,
                    None => 0u32,
                })
                &&& r.height == (match v.height {
                    Some(h) => h,
                    None => 0u32,
                })
                &&& r.color_transfer == v.color_transfer
                &&& r.is_hdr == spec_is_hdr_transfer(v.color_transfer)
            },
            None => r.stream is None && r.width == 0 && r.height == 0 && r.color_transfer is None
                && !r.is_hdr,
        },
{
    match find_video_stream(streams) {
        Some(i) => {
            let v = &streams[i];
            let width = match v.width {
                Some(w) => w,
                None => 0,
            };
            let height = match v.height {
                Some(h) => h,
                None => 0,
            };
            let color_transfer = clone_opt_string(&v.color_transfer);
            let is_hdr = is_hdr_transfer(&color_transfer);
            VideoSummary { stream: Some(i), width, height, color_transfer, is_hdr }
        },
        None => VideoSummary {
            stream: None,
            width: 0,
            height: 0,
            color_transfer: None,
            is_hdr: false,
        },
    }
}

// ---------------------------------------------------------------------------
// Audio and subtitle tracks
// ---------------------------------------------------------------------------

/// The streams of the given `codec_type`, in order.
pub open spec fn streams_of_type(s: Seq<ProbeStream>, t: Seq<char>) -> Seq<ProbeStream>
    decreases s.len(),
{
    if s.len() == 0 {
        Seq::empty()
    } else if opt_is(s.last().codec_type, t) {
        streams_of_type(s.drop_last(), t).push(s.last())
    } else {
        streams_of_type(s.drop_last(), t)
    }
}

/// Whether `t` is the audio track made of stream `s`.
pub open spec fn is_audio_track_of(t: AudioTrack, s: ProbeStream) -> bool {
    &&& t.index == s.index
    &&& t.codec@ == opt_text(s.codec_name)
    &&& t.channels == (match s.channels {
        Some(c) => c,
        None => 0u32,
    })
    &&& t.language == s.tags.language
    &&& t.title == s.tags.title
}

/// Whether `t` is the subtitle track made of stream `s`.
pub open spec fn is_subtitle_track_of(t: SubtitleTrack, s: ProbeStream) -> bool {
    &&& t.index == s.index
    &&& t.codec@ == opt_text(s.codec_name)
    &&& t.language == s.tags.language
    &&& t.title == s.tags.title
}

/// The audio tracks: one per `audio` stream, in stream order.
pub fn audio_tracks(streams: &Vec<ProbeStream>) -> (r: Vec<AudioTrack>)
    ensures
        r@.len() == streams_of_type(streams@, "audio"@).len(),
        forall|i: int|
            0 <= i < r@.len() ==> is_audio_track_of(
                #[trigger] r@[i],
                streams_of_type(streams@, "audio"@)[i],
            ),
{
    let mut r: Vec<AudioTrack> = Vec::new();
    let mut i: usize = 0;
    while i < streams.len()
        invariant
            i <= streams.len(),
            r@.len() == streams_of_type(streams@.take(i as int), "audio"@).len(),
            forall|j: int|
                0 <= j < r@.len() ==> is_audio_track_of(
                    #[trigger] r@[j],
                    streams_of_type(streams@.take(i as int), "audio"@)[j],
                ),
        decreases streams.len() - i,
    {
        let s = &streams[i];
        let ghost pre = streams_of_type(streams@.take(i as int), "audio"@);
        assert(streams@.take(i + 1).drop_last() =~= streams@.take(i as int));
        assert(streams@.take(i + 1).last() == *s);
        if opt_eq(&s.codec_type, "audio") {
            let t = AudioTrack {
                index: s.index,
                codec: opt_text_of(&s.codec_name),
                channels: match s.channels {
                    Some(c) => c,
                    None => 0,
                },
                language: clone_opt_string(&s.tags.language),
                title: clone_opt_string(&s.tags.title),
            };
            r.push(t);
            assert forall|j: int| 0 <= j < r@.len() implies is_audio_track_of(
                #[trigger] r@[j],
                streams_of_type(streams@.take(i + 1), "audio"@)[j],
            ) by {
                if j < r@.len() - 1 {
                    assert(streams_of_type(streams@.take(i + 1), "audio"@)[j] == pre[j]);
                }
            }
        }
        i = i + 1;
    }
    assert(streams@.take(streams.len() as int) =~= streams@);
    r
}

/// The subtitle tracks: one per `subtitle` stream, in stream order.
pub fn subtitle_tracks(streams: &Vec<ProbeStream>) -> (r: Vec<SubtitleTrack>)
    ensures
        r@.len() == streams_of_type(streams@, "subtitle"@).len(),
        forall|i: int|
            0 <= i < r@.len() ==> is_subtitle_track_of(
                #[trigger] r@[i],
                streams_of_type(streams@, "subtitle"@)[i],
            ),
{
    let mut r: Vec<SubtitleTrack> = Vec::new();
    let mut i: usize = 0;
    while i < streams.len()
        invariant
            i <= streams.len(),
            r@.len() == streams_of_type(streams@.take(i as int), "subtitle"@).len(),
            forall|j: int|
                0 <= j < r@.len() ==> is_subtitle_track_of(
                    #[trigger] r@[j],
                    streams_of_type(streams@.take(i as int), "subtitle"@)[j],
                ),
        decreases streams.len() - i,
    {
        let s = &streams[i];
        let ghost pre = streams_of_type(streams@.take(i as int), "subtitle"@);
        assert(streams@.take(i + 1).drop_last() =~= streams@.take(i as int));
        assert(streams@.take(i + 1).last() == *s);
        if opt_eq(&s.codec_type, "subtitle") {
            let t = SubtitleTrack {
                index: s.index,
                codec: opt_text_of(&s.codec_name),
                language: clone_opt_string(&s.tags.language),
                title: clone_opt_string(&s.tags.title),
            };
            r.push(t);
            assert forall|j: int| 0 <= j < r@.len() implies is_subtitle_track_of(
                #[trigger] r@[j],
                streams_of_type(streams@.take(i + 1), "subtitle"@)[j],
            ) by {
                if j < r@.len() - 1 {
                    assert(streams_of_type(streams@.take(i + 1), "subtitle"@)[j] == pre[j]);
                }
            }
        }
        i = i + 1;
    }
    assert(streams@.take(streams.len() as int) =~= streams@);
    r
}

// ---------------------------------------------------------------------------
// Container
// ---------------------------------------------------------------------------

/// The file size in the container's `size` field: the trimmed text read as
/// a `u64`, 0 when absent or not a number.
pub open spec fn spec_size_bytes(size: Option<String>) -> u64 {
    match size {
        Some(s) => match parse_u64(trim(s@)) {
            Some(n) => n,
            None => 0,
        },
        None => 0,
    }
}

/// Reads ffprobe's `format.size`.
pub fn size_bytes(size: &Option<String>) -> (r: u64)
    ensures
        r == spec_size_bytes(*size),
{
    match size {
        Some(s) => {
            let t = trim_chars(&chars_of(s.as_str()));
            match parse_u64_chars(&t) {
                Some(n) => n,
                None => 0,
            }
        },
        None => 0,
    }
}

// ---------------------------------------------------------------------------
// Video file extensions
// ---------------------------------------------------------------------------

/// The lower-case form of `c` as far as it matters for comparing with ASCII
/// text: ASCII capitals become small letters and the Kelvin sign becomes
/// `k` (the only non-ASCII character whose lower case is an ASCII letter);
/// every other character stays (and stays non-ASCII if it was).
pub open spec fn ascii_lower(c: char) -> char {
    if 'A' <= c && c <= 'Z' {
        ((c as u32) + 32) as char
    } else if c == '\u{212A}' {
        'k'
    } else {
        c
    }
}

/// The extensions treated as video files.
pub open spec fn video_extensions() -> Seq<Seq<char>> {
    seq![
        "mkv"@,
        "mp4"@,
        "avi"@,
        "mov"@,
        "webm"@,
        "ts"@,
        "m4v"@,
        "flv"@,
        "wmv"@,
        "mpg"@,
        "mpeg"@,
        "m2ts"@,
    ]
}

/// Whether an extension, in lower case (`str::to_lowercase`), is a video
/// extension.
pub open spec fn spec_is_video_extension(ext: Seq<char>) -> bool {
    video_extensions().contains(ext.map_values(|c: char| ascii_lower(c)))
}

fn lower_char(c: char) -> (r: char)
    ensures
        r == ascii_lower(c),
{
    if 'A' <= c && c <= 'Z' {
        let u = (c as u32) + 32;
        let b: u8 = u as u8;
        b as char
    } else if c == '\u{212A}' {
        'k'
    } else {
        c
    }
}

/// Whether a file with this extension is listed when a folder is dropped.
pub fn is_video_extension(ext: &str) -> (r: bool)
    ensures
        r == spec_is_video_extension(ext@),
{
    let v = chars_of(ext);
    let mut low: Vec<char> = Vec::new();
    let mut i: usize = 0;
    while i < v.len()
        invariant
            i <= v.len(),
            v@ == ext@,
            low@ == v@.take(i as int).map_values(|c: char| ascii_lower(c)),
        decreases v.len() - i,
    {
        low.push(lower_char(v[i]));
        i = i + 1;
        assert(low@ =~= v@.take(i as int).map_values(|c: char| ascii_lower(c)));
    }
    assert(v@.take(v.len() as int) =~= v@);
    assert(low@ == ext@.map_values(|c: char| ascii_lower(c)));
    let exts = ["mkv", "mp4", "avi", "mov", "webm", "ts", "m4v", "flv", "wmv", "mpg", "mpeg", "m2ts"];
    let mut k: usize = 0;
    while k < 12
        invariant
            k <= 12,
            exts@.len() == 12,
            low@ == ext@.map_values(|c: char| ascii_lower(c)),
            forall|j: int| 0 <= j < 12 ==> (#[trigger] exts@[j])@ == video_extensions()[j],
            forall|j: int| 0 <= j < k ==> video_extensions()[j] != low@,
        decreases 12 - k,
    {
        if chars_eq(&low, &chars_of(exts[k])) {
            assert(video_extensions()[k as int] == low@);
            assert(video_extensions().contains(low@));
            return true;
        }
        k = k + 1;
    }
    assert(!video_extensions().contains(low@));
    false
}

} // verus!
