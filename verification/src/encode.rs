//! The ffmpeg command line of an encode: the filter chain (HDR to SDR tone
//! mapping, scaling, burnt-in subtitles), the locked VRChat preset, rate
//! control, and the reading of ffmpeg's `-progress` output.

use vstd::prelude::*;
use crate::num::{dec, dec_signed, push_dec, push_dec_signed, u64_to_string};
use crate::server::{utf8_len, utf8_len_capped, utf8_tail, utf8_tail_chars};
use crate::num::{parse_i64, parse_i64_chars, parse_u64, parse_u64_chars};
use crate::text::{
    chars_eq, chars_of, expand, push_chars, trim_end_chars, lemma_expand_front, lemma_expand_take_step,
    lemma_strip_trailing_prefix, lemma_trim_end_prefix, lemma_trim_start_suffix, push_char,
    push_str, split_once, split_once_chars, string_of, strip_trailing,
    strip_trailing_chars, trim, trim_chars, trim_end, trim_start, is_ws, lemma_split_once_at,
};
use crate::num::{is_digit, lemma_dec_digits, lemma_parse_i64_dec, lemma_parse_u64_dec};
use crate::types::{Resolution, Speed, SubtitleChoice, Tonemap};

verus! {

// ---------------------------------------------------------------------------
// Filter chain
// ---------------------------------------------------------------------------

/// The filter chain for the given output size, source dynamic range and
/// optional subtitle file.
pub open spec fn spec_build_filter(
    resolution: Resolution,
    tonemap: Tonemap,
    is_hdr: bool,
    sub_path: Option<Seq<char>>,
) -> Seq<char> {
    let w = resolution.spec_dims().0 as nat;
    let h = resolution.spec_dims().1 as nat;
    let base = if is_hdr {
        "zscale=w="@ + dec(w) + ":h="@ + dec(h)
            + ":t=linear:npl=100,format=gbrpf32le,zscale=p=bt709,tonemap=tonemap="@
            + tonemap.spec_as_str() + ":desat=0,zscale=t=bt709:m=bt709:r=tv,format=yuv420p"@
    } else {
        "scale="@ + dec(w) + ":"@ + dec(h) + ":flags=lanczos,format=yuv420p"@
    };
    match sub_path {
        Some(p) => base + ",subtitles="@ + p,
        None => base,
    }
}

/// Whether `t` occurs in `s`.
pub open spec fn has_substring(s: Seq<char>, t: Seq<char>) -> bool {
    exists|i: int| 0 <= i && i + t.len() <= s.len() && #[trigger] s.subrange(i, i + t.len()) == t
}

/// What the filter chain carries of the choices: for an HDR source it
/// starts by linearising at the target size and tone-maps with the chosen
/// algorithm (`tonemap=tonemap=<name>:desat=0`); for an SDR source it starts
/// by scaling to the target size with lanczos; it ends in 8-bit yuv420p, or
/// with the subtitles filter on the given path.
pub open spec fn filter_carries_choices(
    f: Seq<char>,
    resolution: Resolution,
    tonemap: Tonemap,
    is_hdr: bool,
    sub_path: Option<Seq<char>>,
) -> bool {
    let w = dec(resolution.spec_dims().0 as nat);
    let h = dec(resolution.spec_dims().1 as nat);
    let start = if is_hdr {
        "zscale=w="@ + w + ":h="@ + h + ":t=linear"@
    } else {
        "scale="@ + w + ":"@ + h + ":flags=lanczos"@
    };
    &&& f.len() >= start.len() && f.subrange(0, start.len() as int) == start
    &&& is_hdr ==> has_substring(f, "tonemap=tonemap="@ + tonemap.spec_as_str() + ":desat=0"@)
    &&& match sub_path {
        Some(p) => {
            let e = ",subtitles="@ + p;
            f.len() >= e.len() && f.subrange(f.len() - e.len(), f.len() as int) == e
        },
        None => {
            let e = "format=yuv420p"@;
            f.len() >= e.len() && f.subrange(f.len() - e.len(), f.len() as int) == e
        },
    }
}

/// Whatever the choices, the filter chain carries them (see
/// `filter_carries_choices`).
pub proof fn lemma_filter_carries_choices(
    resolution: Resolution,
    tonemap: Tonemap,
    is_hdr: bool,
    sub_path: Option<Seq<char>>,
)
    ensures
        filter_carries_choices(
            spec_build_filter(resolution, tonemap, is_hdr, sub_path),
            resolution,
            tonemap,
            is_hdr,
            sub_path,
        ),
{
    let f = spec_build_filter(resolution, tonemap, is_hdr, sub_path);
    let w = dec(resolution.spec_dims().0 as nat);
    let h = dec(resolution.spec_dims().1 as nat);
    let name = tonemap.spec_as_str();
    let l1 = ":t=linear:npl=100,format=gbrpf32le,zscale=p=bt709,tonemap=tonemap="@;
    let l2 = ":desat=0,zscale=t=bt709:m=bt709:r=tv,format=yuv420p"@;
    let s1 = ":flags=lanczos,format=yuv420p"@;
    reveal_strlit(":t=linear:npl=100,format=gbrpf32le,zscale=p=bt709,tonemap=tonemap=");
    reveal_strlit(":desat=0,zscale=t=bt709:m=bt709:r=tv,format=yuv420p");
    reveal_strlit(":flags=lanczos,format=yuv420p");
    reveal_strlit(":t=linear");
    reveal_strlit(":flags=lanczos");
    reveal_strlit("tonemap=tonemap=");
    reveal_strlit(":desat=0");
    reveal_strlit("format=yuv420p");
    let base = if is_hdr {
        "zscale=w="@ + w + ":h="@ + h + l1 + name + l2
    } else {
        "scale="@ + w + ":"@ + h + s1
    };
    assert(f == match sub_path {
        Some(p) => base + ",subtitles="@ + p,
        None => base,
    });
    let start = if is_hdr {
        "zscale=w="@ + w + ":h="@ + h + ":t=linear"@
    } else {
        "scale="@ + w + ":"@ + h + ":flags=lanczos"@
    };
    if is_hdr {
        let a = "zscale=w="@ + w + ":h="@ + h;
        assert(base =~= a + ":t=linear"@ + (l1.subrange(9, l1.len() as int) + name + l2));
        let run = "tonemap=tonemap="@ + name + ":desat=0"@;
        let i = a.len() + l1.len() - 16;
        assert(base.subrange(i, i + run.len()) =~= run);
        assert(f.subrange(i, i + run.len()) =~= run);
        assert(has_substring(f, run));
        assert(base =~= a + l1 + name + ":desat=0"@ + l2.subrange(8, l2.len() as int));
        assert(l2.subrange(l2.len() - 14, l2.len() as int) =~= "format=yuv420p"@);
    } else {
        assert(base =~= "scale="@ + w + ":"@ + h + ":flags=lanczos"@ + s1.subrange(14, s1.len() as int));
        assert(s1.subrange(s1.len() - 14, s1.len() as int) =~= "format=yuv420p"@);
    }
    assert(base.subrange(0, start.len() as int) =~= start);
    assert(f.subrange(0, start.len() as int) =~= start);
    match sub_path {
        Some(p) => {
            let e = ",subtitles="@ + p;
            assert(f.subrange(f.len() - e.len(), f.len() as int) =~= e);
        },
        None => {
            let e = "format=yuv420p"@;
            assert(f.subrange(f.len() - e.len(), f.len() as int) =~= e);
        },
    }
}

/// Different tone-mapping algorithms give different HDR filter chains:
/// the chain tells which one was chosen.
pub proof fn lemma_hdr_filter_tells_tonemap(
    resolution: Resolution,
    t1: Tonemap,
    t2: Tonemap,
    sub_path: Option<Seq<char>>,
)
    requires
        spec_build_filter(resolution, t1, true, sub_path) == spec_build_filter(
            resolution,
            t2,
            true,
            sub_path,
        ),
    ensures
        t1 == t2,
{
    reveal_strlit("hable");
    reveal_strlit("mobius");
    reveal_strlit("reinhard");
    let f1 = spec_build_filter(resolution, t1, true, sub_path);
    let f2 = spec_build_filter(resolution, t2, true, sub_path);
    assert(f1.len() - t1.spec_as_str().len() == f2.len() - t2.spec_as_str().len());
}

/// An SDR source is never tone-mapped: its chain does not depend on the
/// tone-mapping choice.
pub proof fn lemma_sdr_filter_ignores_tonemap(
    resolution: Resolution,
    t1: Tonemap,
    t2: Tonemap,
    sub_path: Option<Seq<char>>,
)
    ensures
        spec_build_filter(resolution, t1, false, sub_path) == spec_build_filter(
            resolution,
            t2,
            false,
            sub_path,
        ),
{
}

/// Builds the `-vf` filter chain: tone mapping from HDR to SDR (only for an
/// HDR source), scaling to the target size, then the subtitles, if any.
pub fn build_filter(resolution: Resolution, tonemap: Tonemap, is_hdr: bool, sub_path: Option<&str>) -> (r:
    String)
    ensures
        r@ == spec_build_filter(
            resolution,
            tonemap,
            is_hdr,
            match sub_path {
                Some(p) => Some(p@),
                None => None,
            },
        ),
        filter_carries_choices(
            r@,
            resolution,
            tonemap,
            is_hdr,
            match sub_path {
                Some(p) => Some(p@),
                None => None,
            },
        ),
{
    proof {
        lemma_filter_carries_choices(
            resolution,
            tonemap,
            is_hdr,
            match sub_path {
                Some(p) => Some(p@),
                None => None,
            },
        );
    }
    let (w, h) = resolution.dims();
    let mut f = String::new();
    if is_hdr {
        push_str(&mut f, "zscale=w=");
        push_dec(&mut f, w as u64);
        push_str(&mut f, ":h=");
        push_dec(&mut f, h as u64);
        push_str(&mut f, ":t=linear:npl=100,format=gbrpf32le,zscale=p=bt709,tonemap=tonemap=");
        push_str(&mut f, tonemap.as_str());
        push_str(&mut f, ":desat=0,zscale=t=bt709:m=bt709:r=tv,format=yuv420p");
    } else {
        push_str(&mut f, "scale=");
        push_dec(&mut f, w as u64);
        push_str(&mut f, ":");
        push_dec(&mut f, h as u64);
        push_str(&mut f, ":flags=lanczos,format=yuv420p");
    }
    match sub_path {
        Some(p) => {
            push_str(&mut f, ",subtitles=");
            push_str(&mut f, p);
        },
        None => {},
    }
    f
}

// ---------------------------------------------------------------------------
// Subtitle path escaping
// ---------------------------------------------------------------------------

/// Whether a character of a path needs a backslash inside ffmpeg's
/// `subtitles` filter: the escape character itself, the option separator
/// `:`, the quote `'`, and the filter-graph separators `,` `;` `[` `]`.
pub open spec fn is_subtitle_special(c: char) -> bool {
    c == '\\' || c == ':' || c == '\'' || c == ',' || c == ';' || c == '[' || c == ']'
}

/// How one character of a path is written inside ffmpeg's `subtitles` filter.
pub open spec fn subtitle_escape_char(c: char) -> Seq<char> {
    if is_subtitle_special(c) {
        seq!['\\', c]
    } else {
        seq![c]
    }
}

/// A path with `\`, `:`, `'`, `,`, `;`, `[` and `]` escaped by a backslash.
pub open spec fn spec_escape_subtitle_path(s: Seq<char>) -> Seq<char> {
    expand(s, |c: char| subtitle_escape_char(c))
}

/// Escapes a path for ffmpeg's `subtitles` filter (the drive colon,
/// backslashes, quotes and the filter separators): `C:\a\b.ass` becomes
/// `C\:\\a\\b.ass`, and `a,b.ass` becomes `a\,b.ass`, so that the path
/// stays one filter of the `-vf` chain.
pub fn escape_subtitle_path(path: &str) -> (r: String)
    ensures
        r@ == spec_escape_subtitle_path(path@),
{
    let v = chars_of(path);
    let mut out = String::new();
    let ghost f = |c: char| subtitle_escape_char(c);
    let mut i: usize = 0;
    while i < v.len()
        invariant
            i <= v.len(),
            v@ == path@,
            f == (|c: char| subtitle_escape_char(c)),
            out@ == expand(v@.take(i as int), f),
        decreases v.len() - i,
    {
        let c = v[i];
        if c == '\\' || c == ':' || c == '\'' || c == ',' || c == ';' || c == '[' || c == ']' {
            push_char(&mut out, '\\');
        }
        push_char(&mut out, c);
        proof {
            lemma_expand_take_step(v@, i as int, f);
        }
        i = i + 1;
        assert(out@ =~= expand(v@.take(i as int), f));
    }
    assert(v@.take(v.len() as int) =~= v@);
    out
}

/// Undoing backslash escapes: every backslash is dropped and the character
/// after it is kept as it is.
pub open spec fn unescape_backslashes(s: Seq<char>) -> Seq<char>
    decreases s.len(),
{
    if s.len() == 0 {
        Seq::empty()
    } else if s[0] == '\\' && s.len() >= 2 {
        seq![s[1]] + unescape_backslashes(s.subrange(2, s.len() as int))
    } else {
        seq![s[0]] + unescape_backslashes(s.drop_first())
    }
}

/// Escaping with a backslash before some characters is undone by
/// `unescape_backslashes`, for any choice of characters that includes `\`.
pub proof fn lemma_unescape_inverts(s: Seq<char>, f: spec_fn(char) -> Seq<char>)
    requires
        forall|c: char| #[trigger] f(c) == seq!['\\', c] || (c != '\\' && f(c) == seq![c]),
    ensures
        unescape_backslashes(expand(s, f)) == s,
    decreases s.len(),
{
    if s.len() > 0 {
        lemma_expand_front(s, f);
        lemma_unescape_inverts(s.drop_first(), f);
        let rest = expand(s.drop_first(), f);
        let e = f(s[0]) + rest;
        if f(s[0]) == seq!['\\', s[0]] {
            assert(e[0] == '\\' && e[1] == s[0]);
            assert(e.subrange(2, e.len() as int) =~= rest);
        } else {
            assert(e[0] == s[0]);
            assert(e.drop_first() =~= rest);
        }
        assert(seq![s[0]] + s.drop_first() =~= s);
    } else {
        assert(expand(s, f) =~= Seq::<char>::empty());
    }
}

/// ffmpeg reads the escaped subtitle path back as the path itself.
pub proof fn lemma_escape_subtitle_path_roundtrip(path: Seq<char>)
    ensures
        unescape_backslashes(spec_escape_subtitle_path(path)) == path,
{
    lemma_unescape_inverts(path, |c: char| subtitle_escape_char(c));
}

/// Read from the left as ffmpeg reads it (a backslash takes the character
/// after it literally), the text has no special character that is not
/// escaped.
pub open spec fn no_bare_special(t: Seq<char>) -> bool
    decreases t.len(),
{
    if t.len() == 0 {
        true
    } else if t[0] == '\\' && t.len() >= 2 {
        no_bare_special(t.subrange(2, t.len() as int))
    } else {
        !is_subtitle_special(t[0]) && no_bare_special(t.drop_first())
    }
}

/// An escaped subtitle path holds no bare `:`, `'`, `,`, `;`, `[` or `]`, so
/// it can neither end the `subtitles` option nor split the filter chain.
pub proof fn lemma_escaped_subtitle_path_has_no_bare_special(path: Seq<char>)
    ensures
        no_bare_special(spec_escape_subtitle_path(path)),
    decreases path.len(),
{
    let f = |c: char| subtitle_escape_char(c);
    if path.len() > 0 {
        lemma_expand_front(path, f);
        lemma_escaped_subtitle_path_has_no_bare_special(path.drop_first());
        let rest = expand(path.drop_first(), f);
        let e = f(path[0]) + rest;
        if is_subtitle_special(path[0]) {
            assert(e[0] == '\\' && e[1] == path[0]);
            assert(e.subrange(2, e.len() as int) =~= rest);
        } else {
            assert(e[0] == path[0]);
            assert(e.drop_first() =~= rest);
        }
    } else {
        assert(expand(path, f) =~= Seq::<char>::empty());
    }
}

// ---------------------------------------------------------------------------
// The ffmpeg argument list
// ---------------------------------------------------------------------------

/// Rate control of the video stream, resolved to integers.
#[derive(Debug, Clone, Copy, PartialEq, Eq, Structural)]
pub enum RateControl {
    /// Average bit rate in kbit/s (the target-size mode, after the target
    /// size and duration have been turned into a rate).
    Bitrate { kbps: u32 },
    /// Constant quality.
    Crf { crf: u32 },
}

/// The encode options that the argument list depends on.
#[derive(Debug, Clone, Copy, PartialEq, Eq, Structural)]
pub struct EncodeOptions {
    pub speed: Speed,
    /// Hardware decoding (`-hwaccel auto`).
    pub hwaccel: bool,
    /// Global stream index of the audio track to keep.
    pub audio_track_index: u32,
    pub audio_bitrate_k: u32,
    pub rate: RateControl,
}

/// A sample cut: where it starts and how long it is, in seconds, as the
/// text given to `-ss` and `-t`.
#[derive(Debug, PartialEq, Eq)]
pub struct SampleWindow {
    pub start: String,
    pub duration: String,
}

/// `-maxrate` of the average-bit-rate mode: 1.2 times the bit rate, rounded
/// to the nearest integer, at most `u32::MAX`.
pub open spec fn spec_maxrate(kbps: u32) -> nat {
    let m = (6 * kbps as nat + 2) / 5;
    if m > u32::MAX {
        u32::MAX as nat
    } else {
        m
    }
}

/// `-bufsize` of the average-bit-rate mode: twice the bit rate, at most
/// `u32::MAX`.
pub open spec fn spec_bufsize(kbps: u32) -> nat {
    if 2 * kbps as nat > u32::MAX {
        u32::MAX as nat
    } else {
        2 * kbps as nat
    }
}

/// The rate-control arguments.
pub open spec fn spec_rate_args(rate: RateControl) -> Seq<Seq<char>> {
    match rate {
        RateControl::Bitrate { kbps } => seq![
            "-b:v"@,
            dec(kbps as nat) + "k"@,
            "-maxrate"@,
            dec(spec_maxrate(kbps)) + "k"@,
            "-bufsize"@,
            dec(spec_bufsize(kbps)) + "k"@,
        ],
        RateControl::Crf { crf } => seq!["-crf"@, dec(crf as nat)],
    }
}

/// The start of the argument list: overwrite, no banner, hardware decoding,
/// the input and the sample cut around it.
pub open spec fn spec_head_args(
    input: Seq<char>,
    opts: EncodeOptions,
    sample: Option<(Seq<char>, Seq<char>)>,
) -> Seq<Seq<char>> {
    seq!["-y"@, "-hide_banner"@] + (if opts.hwaccel {
        seq!["-hwaccel"@, "auto"@]
    } else {
        Seq::empty()
    }) + (match sample {
        Some(w) => seq!["-ss"@, w.0],
        None => Seq::empty(),
    }) + seq!["-i"@, input] + (match sample {
        Some(w) => seq!["-t"@, w.1],
        None => Seq::empty(),
    })
}

/// The filter chain, the stream mapping and the locked video preset.
pub open spec fn spec_video_args(opts: EncodeOptions, filter: Seq<char>) -> Seq<Seq<char>> {
    seq![
        "-vf"@,
        filter,
        "-map"@,
        "0:0"@,
        "-map"@,
        "0:"@ + dec(opts.audio_track_index as nat),
        "-c:v"@,
        "libx264"@,
        "-profile:v"@,
        "main"@,
        "-pix_fmt"@,
        "yuv420p"@,
        "-preset"@,
        opts.speed.spec_preset(),
        "-x264-params"@,
        "keyint=48:min-keyint=48:bframes=0:scenecut=0"@,
        "-fps_mode"@,
        "cfr"@,
    ]
}

/// AAC stereo audio, the container flags, progress reporting and the output.
pub open spec fn spec_tail_args(opts: EncodeOptions, out_path: Seq<char>) -> Seq<Seq<char>> {
    seq![
        "-c:a"@,
        "aac"@,
        "-ac"@,
        "2"@,
        "-b:a"@,
        dec(opts.audio_bitrate_k as nat) + "k"@,
        "-movflags"@,
        "+faststart"@,
        "-dn"@,
        "-progress"@,
        "pipe:1"@,
        "-nostats"@,
        out_path,
    ]
}

/// The whole ffmpeg argument list (without the program name).
pub open spec fn spec_build_args(
    input: Seq<char>,
    out_path: Seq<char>,
    opts: EncodeOptions,
    filter: Seq<char>,
    sample: Option<(Seq<char>, Seq<char>)>,
) -> Seq<Seq<char>> {
    spec_head_args(input, opts, sample) + spec_video_args(opts, filter) + spec_rate_args(opts.rate)
        + spec_tail_args(opts, out_path)
}

/// The text of a sample window.
pub open spec fn window_view(sample: Option<&SampleWindow>) -> Option<(Seq<char>, Seq<char>)> {
    match sample {
        Some(w) => Some((w.start@, w.duration@)),
        None => None,
    }
}

/// The views of a list of strings.
pub open spec fn views(v: Seq<String>) -> Seq<Seq<char>> {
    v.map_values(|s: String| s@)
}

/// Appends `s` to the argument list.
fn push_arg(args: &mut Vec<String>, s: String)
    ensures
        views(final(args)@) == views(old(args)@).push(s@),
{
    args.push(s);
    assert(views(final(args)@) =~= views(old(args)@).push(s@));
}

/// Appends a literal argument.
fn push_lit(args: &mut Vec<String>, s: &str)
    ensures
        views(final(args)@) == views(old(args)@).push(s@),
{
    push_arg(args, String::from_str(s));
}

/// `n` followed by `k` (a rate in kbit/s).
fn kbps_arg(n: u64) -> (r: String)
    ensures
        r@ == dec(n as nat) + "k"@,
{
    let mut s = String::new();
    push_dec(&mut s, n);
    push_str(&mut s, "k");
    s
}

/// The rate-control part of the argument list.
fn push_rate_args(args: &mut Vec<String>, rate: RateControl)
    ensures
        views(final(args)@) == views(old(args)@) + spec_rate_args(rate),
{
    let ghost start = views(args@);
    match rate {
        RateControl::Bitrate { kbps } => {
            let m: u64 = (6 * (kbps as u64) + 2) / 5;
            let maxrate: u64 = if m > 0xffff_ffffu64 {
                0xffff_ffffu64
            } else {
                m
            };
            let b: u64 = 2 * (kbps as u64);
            let bufsize: u64 = if b > 0xffff_ffffu64 {
                0xffff_ffffu64
            } else {
                b
            };
            push_lit(args, "-b:v");
            push_arg(args, kbps_arg(kbps as u64));
            push_lit(args, "-maxrate");
            push_arg(args, kbps_arg(maxrate));
            push_lit(args, "-bufsize");
            push_arg(args, kbps_arg(bufsize));
        },
        RateControl::Crf { crf } => {
            push_lit(args, "-crf");
            push_arg(args, u64_to_string(crf as u64));
        },
    }
    assert(views(args@) =~= start + spec_rate_args(rate));
}

/// Whatever the options, the argument list carries the locked VRChat
/// preset: H.264 main profile in yuv420p with no B-frames, AAC stereo audio,
/// and faststart.
pub proof fn lemma_preset_is_locked(
    input: Seq<char>,
    out_path: Seq<char>,
    opts: EncodeOptions,
    filter: Seq<char>,
    sample: Option<(Seq<char>, Seq<char>)>,
)
    ensures
        ({
            let args = spec_build_args(input, out_path, opts, filter, sample);
            &&& exists|i: int|
                0 <= i && i + 6 <= args.len() && #[trigger] args.subrange(i, i + 6) == seq![
                    "-c:v"@,
                    "libx264"@,
                    "-profile:v"@,
                    "main"@,
                    "-pix_fmt"@,
                    "yuv420p"@,
                ]
            &&& exists|i: int|
                0 <= i && i + 2 <= args.len() && #[trigger] args.subrange(i, i + 2) == seq![
                    "-x264-params"@,
                    "keyint=48:min-keyint=48:bframes=0:scenecut=0"@,
                ]
            &&& exists|i: int|
                0 <= i && i + 4 <= args.len() && #[trigger] args.subrange(i, i + 4) == seq![
                    "-c:a"@,
                    "aac"@,
                    "-ac"@,
                    "2"@,
                ]
            &&& exists|i: int|
                0 <= i && i + 2 <= args.len() && #[trigger] args.subrange(i, i + 2) == seq![
                    "-movflags"@,
                    "+faststart"@,
                ]
        }),
{
    let head = spec_head_args(input, opts, sample);
    let video = spec_video_args(opts, filter);
    let rate = spec_rate_args(opts.rate);
    let tail = spec_tail_args(opts, out_path);
    let args = spec_build_args(input, out_path, opts, filter, sample);
    let h = head.len() as int;
    let t = h + video.len() + rate.len();
    assert(args == head + video + rate + tail);
    assert(args.subrange(h + 6, h + 12) =~= seq![
        "-c:v"@,
        "libx264"@,
        "-profile:v"@,
        "main"@,
        "-pix_fmt"@,
        "yuv420p"@,
    ]);
    assert(args.subrange(h + 14, h + 14 + 2) =~= seq![
        "-x264-params"@,
        "keyint=48:min-keyint=48:bframes=0:scenecut=0"@,
    ]);
    assert(args.subrange(t, t + 4) =~= seq!["-c:a"@, "aac"@, "-ac"@, "2"@]);
    assert(args.subrange(t + 6, t + 6 + 2) =~= seq!["-movflags"@, "+faststart"@]);
    assert(video.len() == 18 && tail.len() == 13);
    assert(args.len() == t + 13);
    assert(0 <= h + 6 && h + 6 + 6 <= args.len());
}

/// Whether `args` holds `run` as consecutive arguments somewhere.
pub open spec fn holds_run(args: Seq<Seq<char>>, run: Seq<Seq<char>>) -> bool {
    exists|i: int| 0 <= i && i + run.len() <= args.len() && #[trigger] args.subrange(i, i + run.len()) == run
}

/// A run found at position `i` is held.
pub proof fn lemma_run_at(args: Seq<Seq<char>>, run: Seq<Seq<char>>, i: int)
    requires
        0 <= i,
        i + run.len() <= args.len(),
        args.subrange(i, i + run.len()) == run,
    ensures
        holds_run(args, run),
{
}

/// The argument list carries every choice of the user: the input after
/// `-i`, the filter after `-vf`, video stream 0:0 and the chosen audio
/// stream `0:<audio_track_index>` after `-map`, the chosen x264 preset, the
/// audio bit rate, the rate control (`-crf <crf>`, or `-b:v <kbps>k` with
/// `-maxrate` 1.2 times and `-bufsize` twice the rate, capped at
/// `u32::MAX`), hardware decoding when asked, the sample cut when given,
/// and the output path last.
pub open spec fn args_carry_choices(
    args: Seq<Seq<char>>,
    input: Seq<char>,
    out_path: Seq<char>,
    opts: EncodeOptions,
    filter: Seq<char>,
    sample: Option<(Seq<char>, Seq<char>)>,
) -> bool {
    &&& holds_run(args, seq!["-i"@, input])
    &&& holds_run(args, seq!["-vf"@, filter])
    &&& holds_run(args, seq!["-map"@, "0:0"@, "-map"@, "0:"@ + dec(opts.audio_track_index as nat)])
    &&& holds_run(args, seq!["-preset"@, opts.speed.spec_preset()])
    &&& holds_run(args, seq!["-b:a"@, dec(opts.audio_bitrate_k as nat) + "k"@])
    &&& match opts.rate {
        RateControl::Crf { crf } => holds_run(args, seq!["-crf"@, dec(crf as nat)]),
        RateControl::Bitrate { kbps } => {
            let m = (6 * kbps as nat + 2) / 5;
            let b = 2 * kbps as nat;
            holds_run(
                args,
                seq![
                    "-b:v"@,
                    dec(kbps as nat) + "k"@,
                    "-maxrate"@,
                    dec(if m > u32::MAX { u32::MAX as nat } else { m }) + "k"@,
                    "-bufsize"@,
                    dec(if b > u32::MAX { u32::MAX as nat } else { b }) + "k"@,
                ],
            )
        },
    }
    &&& opts.hwaccel ==> holds_run(args, seq!["-hwaccel"@, "auto"@])
    &&& match sample {
        Some(w) => holds_run(args, seq!["-ss"@, w.0]) && holds_run(args, seq!["-t"@, w.1]),
        None => true,
    }
    &&& args.len() > 0 && args.last() == out_path
}

/// Whatever the options, the argument list carries every choice of the
/// user (see `args_carry_choices`).
pub proof fn lemma_args_carry_choices(
    input: Seq<char>,
    out_path: Seq<char>,
    opts: EncodeOptions,
    filter: Seq<char>,
    sample: Option<(Seq<char>, Seq<char>)>,
)
    ensures
        args_carry_choices(
            spec_build_args(input, out_path, opts, filter, sample),
            input,
            out_path,
            opts,
            filter,
            sample,
        ),
{
    let head = spec_head_args(input, opts, sample);
    let video = spec_video_args(opts, filter);
    let rate = spec_rate_args(opts.rate);
    let tail = spec_tail_args(opts, out_path);
    let args = spec_build_args(input, out_path, opts, filter, sample);
    assert(args == head + video + rate + tail);
    let h = head.len() as int;
    let hw: int = if opts.hwaccel { 2 } else { 0 };
    let ss: int = if sample is Some { 2 } else { 0 };
    let ii = 2 + hw + ss;
    assert(head.len() == ii + 2 + ss);
    assert(head[ii] == "-i"@ && head[ii + 1] == input);
    assert(args.subrange(ii, ii + 2) =~= seq!["-i"@, input]);
    lemma_run_at(args, seq!["-i"@, input], ii);
    assert(video.len() == 18);
    assert(args.subrange(h, h + 2) =~= seq!["-vf"@, filter]);
    lemma_run_at(args, seq!["-vf"@, filter], h);
    let map = seq!["-map"@, "0:0"@, "-map"@, "0:"@ + dec(opts.audio_track_index as nat)];
    assert(args.subrange(h + 2, h + 6) =~= map);
    lemma_run_at(args, map, h + 2);
    let pre = seq!["-preset"@, opts.speed.spec_preset()];
    assert(args.subrange(h + 12, h + 14) =~= pre);
    lemma_run_at(args, pre, h + 12);
    let r0 = h + 18;
    let t = r0 + rate.len();
    assert(tail.len() == 13);
    let ab = seq!["-b:a"@, dec(opts.audio_bitrate_k as nat) + "k"@];
    assert(args.subrange(t + 4, t + 6) =~= ab);
    lemma_run_at(args, ab, t + 4);
    assert(args.len() == t + 13);
    assert(args.last() == out_path);
    match opts.rate {
        RateControl::Crf { crf } => {
            assert(args.subrange(r0, r0 + 2) =~= rate);
            lemma_run_at(args, rate, r0);
        },
        RateControl::Bitrate { kbps } => {
            assert(args.subrange(r0, r0 + 6) =~= rate);
            lemma_run_at(args, rate, r0);
        },
    }
    if opts.hwaccel {
        assert(args.subrange(2, 4) =~= seq!["-hwaccel"@, "auto"@]);
        lemma_run_at(args, seq!["-hwaccel"@, "auto"@], 2);
    }
    match sample {
        Some(w) => {
            assert(args.subrange(2 + hw, 4 + hw) =~= seq!["-ss"@, w.0]);
            lemma_run_at(args, seq!["-ss"@, w.0], 2 + hw);
            assert(args.subrange(ii + 2, ii + 4) =~= seq!["-t"@, w.1]);
            lemma_run_at(args, seq!["-t"@, w.1], ii + 2);
        },
        None => {},
    }
}

fn push_head_args(
    args: &mut Vec<String>,
    input: &str,
    opts: &EncodeOptions,
    sample: Option<&SampleWindow>,
)
    ensures
        views(final(args)@) == views(old(args)@) + spec_head_args(input@, *opts, window_view(sample)),
{
    let ghost g0 = views(args@);
    push_lit(args, "-y");
    push_lit(args, "-hide_banner");
    let ghost g1 = views(args@);
    assert(g1 =~= g0 + seq!["-y"@, "-hide_banner"@]);
    if opts.hwaccel {
        push_lit(args, "-hwaccel");
        push_lit(args, "auto");
    }
    let ghost g2 = views(args@);
    assert(g2 =~= g1 + (if opts.hwaccel {
        seq!["-hwaccel"@, "auto"@]
    } else {
        Seq::empty()
    }));
    match sample {
        Some(w) => {
            push_lit(args, "-ss");
            push_arg(args, w.start.clone());
        },
        None => {},
    }
    let ghost g3 = views(args@);
    assert(g3 =~= g2 + (match window_view(sample) {
        Some(w) => seq!["-ss"@, w.0],
        None => Seq::empty(),
    }));
    push_lit(args, "-i");
    push_lit(args, input);
    let ghost g4 = views(args@);
    assert(g4 =~= g3 + seq!["-i"@, input@]);
    match sample {
        Some(w) => {
            push_lit(args, "-t");
            push_arg(args, w.duration.clone());
        },
        None => {},
    }
    let ghost g5 = views(args@);
    assert(g5 =~= g4 + (match window_view(sample) {
        Some(w) => seq!["-t"@, w.1],
        None => Seq::empty(),
    }));
    assert(g5 =~= g0 + spec_head_args(input@, *opts, window_view(sample)));
}

fn push_video_args(args: &mut Vec<String>, opts: &EncodeOptions, filter: &str)
    ensures
        views(final(args)@) == views(old(args)@) + spec_video_args(*opts, filter@),
{
    let ghost g0 = views(args@);
    push_lit(args, "-vf");
    push_lit(args, filter);
    push_lit(args, "-map");
    push_lit(args, "0:0");
    push_lit(args, "-map");
    let mut track = String::from_str("0:");
    push_dec(&mut track, opts.audio_track_index as u64);
    push_arg(args, track);
    let ghost g1 = views(args@);
    assert(g1 =~= g0 + seq![
        "-vf"@,
        filter@,
        "-map"@,
        "0:0"@,
        "-map"@,
        "0:"@ + dec(opts.audio_track_index as nat),
    ]);
    push_lit(args, "-c:v");
    push_lit(args, "libx264");
    push_lit(args, "-profile:v");
    push_lit(args, "main");
    push_lit(args, "-pix_fmt");
    push_lit(args, "yuv420p");
    let ghost g2 = views(args@);
    assert(g2 =~= g1 + seq!["-c:v"@, "libx264"@, "-profile:v"@, "main"@, "-pix_fmt"@, "yuv420p"@]);
    push_lit(args, "-preset");
    push_lit(args, opts.speed.preset());
    push_lit(args, "-x264-params");
    push_lit(args, "keyint=48:min-keyint=48:bframes=0:scenecut=0");
    push_lit(args, "-fps_mode");
    push_lit(args, "cfr");
    let ghost g3 = views(args@);
    assert(g3 =~= g2 + seq![
        "-preset"@,
        opts.speed.spec_preset(),
        "-x264-params"@,
        "keyint=48:min-keyint=48:bframes=0:scenecut=0"@,
        "-fps_mode"@,
        "cfr"@,
    ]);
    assert(g3 =~= g0 + spec_video_args(*opts, filter@));
}

fn push_tail_args(args: &mut Vec<String>, opts: &EncodeOptions, out_path: &str)
    ensures
        views(final(args)@) == views(old(args)@) + spec_tail_args(*opts, out_path@),
{
    let ghost g0 = views(args@);
    push_lit(args, "-c:a");
    push_lit(args, "aac");
    push_lit(args, "-ac");
    push_lit(args, "2");
    push_lit(args, "-b:a");
    push_arg(args, kbps_arg(opts.audio_bitrate_k as u64));
    let ghost g1 = views(args@);
    assert(g1 =~= g0 + seq![
        "-c:a"@,
        "aac"@,
        "-ac"@,
        "2"@,
        "-b:a"@,
        dec(opts.audio_bitrate_k as nat) + "k"@,
    ]);
    push_lit(args, "-movflags");
    push_lit(args, "+faststart");
    push_lit(args, "-dn");
    push_lit(args, "-progress");
    push_lit(args, "pipe:1");
    push_lit(args, "-nostats");
    push_lit(args, out_path);
    let ghost g2 = views(args@);
    assert(g2 =~= g1 + seq![
        "-movflags"@,
        "+faststart"@,
        "-dn"@,
        "-progress"@,
        "pipe:1"@,
        "-nostats"@,
        out_path@,
    ]);
    assert(g2 =~= g0 + spec_tail_args(*opts, out_path@));
}

/// Builds the ffmpeg argument list: overwrite, no banner, optional hardware
/// decoding, the optional sample cut around `-i`, the filter chain, video
/// stream 0:0 and the chosen audio track, the locked VRChat preset (H.264
/// main, yuv420p, no B-frames, constant frame rate), rate control, AAC
/// stereo audio, faststart, no data streams, and progress on stdout.
pub fn build_args(
    input: &str,
    out_path: &str,
    opts: &EncodeOptions,
    filter: &str,
    sample: Option<&SampleWindow>,
) -> (r: Vec<String>)
    ensures
        views(r@) == spec_build_args(input@, out_path@, *opts, filter@, window_view(sample)),
        args_carry_choices(views(r@), input@, out_path@, *opts, filter@, window_view(sample)),
{
    proof {
        lemma_args_carry_choices(input@, out_path@, *opts, filter@, window_view(sample));
    }
    let mut args: Vec<String> = Vec::new();
    assert(views(args@) =~= Seq::<Seq<char>>::empty());
    push_head_args(&mut args, input, opts, sample);
    push_video_args(&mut args, opts, filter);
    push_rate_args(&mut args, opts.rate);
    push_tail_args(&mut args, opts, out_path);
    assert(views(args@) =~= spec_build_args(input@, out_path@, *opts, filter@, window_view(sample)));
    args
}

// ---------------------------------------------------------------------------
// Output file names
// ---------------------------------------------------------------------------

/// Whether `c` may cause trouble in a file name or on a command line.
pub open spec fn is_unsafe_stem_char(c: char) -> bool {
    c == '<' || c == '>' || c == ':' || c == '"' || c == '/' || c == '\\' || c == '|' || c == '?'
        || c == '*' || (c as u32) < 0x20
}

/// The replacement of one character of a file stem.
pub open spec fn stem_char(c: char) -> char {
    if is_unsafe_stem_char(c) {
        '_'
    } else {
        c
    }
}

/// A file stem with troublesome characters replaced by `_`, then trimmed of
/// white space, then of trailing dots.
pub open spec fn cleaned_stem(s: Seq<char>) -> Seq<char> {
    strip_trailing(trim(s.map_values(|c: char| stem_char(c))), '.')
}

/// The cleaned stem, or `output` when nothing is left of it.
pub open spec fn spec_sanitize_stem(s: Seq<char>) -> Seq<char> {
    if cleaned_stem(s).len() > 0 {
        cleaned_stem(s)
    } else {
        "output"@
    }
}

/// Replaces `< > : " / \ | ? *` and control characters of a file stem by
/// `_`, trims white space, then removes trailing dots; a stem of which
/// nothing is left becomes `output`, so the result is never empty.
pub fn sanitize_stem(stem: &str) -> (r: String)
    ensures
        r@ == spec_sanitize_stem(stem@),
        r@.len() > 0,
        forall|i: int| 0 <= i < r@.len() ==> !is_unsafe_stem_char(#[trigger] r@[i]),
        r@.last() != '.',
{
    let v = chars_of(stem);
    let mut m: Vec<char> = Vec::new();
    let mut i: usize = 0;
    while i < v.len()
        invariant
            i <= v.len(),
            v@ == stem@,
            m@ == v@.take(i as int).map_values(|c: char| stem_char(c)),
        decreases v.len() - i,
    {
        let c = v[i];
        let bad = c == '<' || c == '>' || c == ':' || c == '"' || c == '/' || c == '\\' || c == '|'
            || c == '?' || c == '*' || (c as u32) < 0x20;
        if bad {
            m.push('_');
        } else {
            m.push(c);
        }
        i = i + 1;
        assert(m@ =~= v@.take(i as int).map_values(|c: char| stem_char(c)));
    }
    assert(v@.take(v.len() as int) =~= v@);
    let t = trim_chars(&m);
    let u = strip_trailing_chars(&t, '.');
    proof {
        let mapped = m@;
        assert(forall|j: int| 0 <= j < mapped.len() ==> !is_unsafe_stem_char(#[trigger] mapped[j]));
        lemma_trim_start_suffix(mapped);
        let a = trim_start(mapped);
        assert(forall|j: int| 0 <= j < a.len() ==> !is_unsafe_stem_char(#[trigger] a[j])) by {
            assert forall|j: int| 0 <= j < a.len() implies !is_unsafe_stem_char(#[trigger] a[j]) by {
                assert(a[j] == mapped[mapped.len() - a.len() + j]);
            }
        }
        lemma_trim_end_prefix(a);
        let b = trim_end(a);
        assert(forall|j: int| 0 <= j < b.len() ==> !is_unsafe_stem_char(#[trigger] b[j])) by {
            assert forall|j: int| 0 <= j < b.len() implies !is_unsafe_stem_char(#[trigger] b[j]) by {
                assert(b[j] == a[j]);
            }
        }
        lemma_strip_trailing_prefix(b, '.');
        let c = strip_trailing(b, '.');
        assert forall|j: int| 0 <= j < c.len() implies !is_unsafe_stem_char(#[trigger] c[j]) by {
            assert(c[j] == b[j]);
        }
        lemma_strip_trailing_last(b, '.');
    }
    if u.len() > 0 {
        string_of(&u)
    } else {
        let mut o = String::new();
        push_str(&mut o, "output");
        proof {
            reveal_strlit("output");
        }
        o
    }
}

/// After removing a trailing run of `c`, the last character is not `c`.
pub proof fn lemma_strip_trailing_last(s: Seq<char>, c: char)
    ensures
        strip_trailing(s, c).len() == 0 || strip_trailing(s, c).last() != c,
    decreases s.len(),
{
    if s.len() > 0 && s.last() == c {
        lemma_strip_trailing_last(s.drop_last(), c);
    }
}

/// The output file name: the sanitized stem (`output` when the source has
/// no stem) followed by `_vrc.mp4`.
pub open spec fn spec_output_file_name(stem: Option<Seq<char>>) -> Seq<char> {
    let base = match stem {
        Some(s) => spec_sanitize_stem(s),
        None => "output"@,
    };
    base + "_vrc.mp4"@
}

/// The name of the encoded file, `<stem>_vrc.mp4` (the caller places it in
/// the `outs` directory beside the source).
pub fn output_file_name(stem: Option<&str>) -> (r: String)
    ensures
        r@ == spec_output_file_name(
            match stem {
                Some(s) => Some(s@),
                None => None,
            },
        ),
{
    let mut name = match stem {
        Some(s) => sanitize_stem(s),
        None => String::from_str("output"),
    };
    push_str(&mut name, "_vrc.mp4");
    name
}

/// The directory under which the `outs` directory of encoded files is made:
/// the source's parent directory, or the application's data directory when
/// the source has no parent or an empty one (a bare file name).
pub open spec fn spec_output_base_dir(parent: Option<Seq<char>>, data_dir: Seq<char>) -> Seq<
    char,
> {
    match parent {
        Some(p) => if p.len() > 0 {
            p
        } else {
            data_dir
        },
        None => data_dir,
    }
}

/// Chooses the directory that receives `outs/<stem>_vrc.mp4`, given the
/// source's parent directory as the platform's path rules find it.
pub fn output_base_dir(parent: Option<&str>, data_dir: &str) -> (r: String)
    ensures
        r@ == spec_output_base_dir(
            match parent {
                Some(p) => Some(p@),
                None => None,
            },
            data_dir@,
        ),
{
    match parent {
        Some(p) => if p.is_empty() {
            String::from_str(data_dir)
        } else {
            String::from_str(p)
        },
        None => String::from_str(data_dir),
    }
}

// ---------------------------------------------------------------------------
// Subtitles
// ---------------------------------------------------------------------------

/// What to do for the subtitles before encoding.
#[derive(Debug, PartialEq, Eq)]
pub struct SubtitlePlan {
    /// Stream to extract into `subs.ass` in the working directory first.
    pub extract_index: Option<u32>,
    /// File name given to the `subtitles` filter.
    pub filter_path: Option<String>,
}

/// Plans the subtitles: an embedded track is extracted to `subs.ass` in the
/// working directory and named relatively (no drive-letter colon to escape);
/// an external file is named by its escaped path; otherwise none.
pub fn plan_subtitle(choice: &SubtitleChoice) -> (r: SubtitlePlan)
    ensures
        match choice {
            SubtitleChoice::Embedded { index } => {
                &&& r.extract_index == Some(*index)
                &&& r.filter_path matches Some(p) && p@ == "subs.ass"@
            },
            SubtitleChoice::External { path } => {
                &&& r.extract_index is None
                &&& r.filter_path matches Some(p) && p@ == spec_escape_subtitle_path(path@)
            },
            SubtitleChoice::Disabled => r.extract_index is None && r.filter_path is None,
        },
{
    match choice {
        SubtitleChoice::Embedded { index } => SubtitlePlan {
            extract_index: Some(*index),
            filter_path: Some(String::from_str("subs.ass")),
        },
        SubtitleChoice::External { path } => SubtitlePlan {
            extract_index: None,
            filter_path: Some(escape_subtitle_path(path.as_str())),
        },
        SubtitleChoice::Disabled => SubtitlePlan { extract_index: None, filter_path: None },
    }
}

// ---------------------------------------------------------------------------
// ffmpeg -progress output
// ---------------------------------------------------------------------------

/// What one line of ffmpeg's `-progress` output says.
#[derive(Debug, PartialEq, Eq)]
pub enum ProgressLine {
    /// A line that changes nothing.
    Ignored,
    /// `out_time_us` (or the misnamed `out_time_ms`, also in microseconds).
    OutTimeMicros { us: i64 },
    /// `out_time` as `HH:MM:SS.micro`, trimmed.
    OutTimeClock { text: String },
    /// `speed`, such as `1.23x`, trimmed.
    Speed { text: String },
    /// `frame`: the number of frames encoded so far.
    Frame { frame: u64 },
    /// `fps`, such as `59.94`, trimmed.
    Fps { text: String },
    /// `bitrate`, such as `2345.6kbits/s`, trimmed.
    Bitrate { text: String },
    /// `stream_0_0_q`: the quantizer of the video stream, trimmed.
    Quality { text: String },
    /// `total_size`: the bytes written so far.
    TotalSize { bytes: u64 },
    /// `progress=continue` or `progress=end`: one block of values is complete.
    GroupEnd,
}

/// `ProgressLine` with its text as characters.
pub enum ProgressLineView {
    Ignored,
    OutTimeMicros { us: i64 },
    OutTimeClock { text: Seq<char> },
    Speed { text: Seq<char> },
    Frame { frame: u64 },
    Fps { text: Seq<char> },
    Bitrate { text: Seq<char> },
    Quality { text: Seq<char> },
    TotalSize { bytes: u64 },
    GroupEnd,
}

impl View for ProgressLine {
    type V = ProgressLineView;

    open spec fn view(&self) -> ProgressLineView {
        match self {
            ProgressLine::Ignored => ProgressLineView::Ignored,
            ProgressLine::OutTimeMicros { us } => ProgressLineView::OutTimeMicros { us: *us },
            ProgressLine::OutTimeClock { text } => ProgressLineView::OutTimeClock { text: text@ },
            ProgressLine::Speed { text } => ProgressLineView::Speed { text: text@ },
            ProgressLine::Frame { frame } => ProgressLineView::Frame { frame: *frame },
            ProgressLine::Fps { text } => ProgressLineView::Fps { text: text@ },
            ProgressLine::Bitrate { text } => ProgressLineView::Bitrate { text: text@ },
            ProgressLine::Quality { text } => ProgressLineView::Quality { text: text@ },
            ProgressLine::TotalSize { bytes } => ProgressLineView::TotalSize { bytes: *bytes },
            ProgressLine::GroupEnd => ProgressLineView::GroupEnd,
        }
    }
}

/// The meaning of a `key=value` line, split at the first `=` after trimming.
pub open spec fn spec_classify_progress_line(line: Seq<char>) -> ProgressLineView {
    match split_once(trim(line), '=') {
        None => ProgressLineView::Ignored,
        Some(kv) => {
            let key = kv.0;
            let value = trim(kv.1);
            if key == "out_time_us"@ || key == "out_time_ms"@ {
                match parse_i64(value) {
                    Some(us) => if us >= 0 {
                        ProgressLineView::OutTimeMicros { us }
                    } else {
                        ProgressLineView::Ignored
                    },
                    None => ProgressLineView::Ignored,
                }
            } else if key == "out_time"@ {
                ProgressLineView::OutTimeClock { text: value }
            } else if key == "speed"@ {
                ProgressLineView::Speed { text: value }
            } else if key == "frame"@ {
                match parse_u64(value) {
                    Some(frame) => ProgressLineView::Frame { frame },
                    None => ProgressLineView::Ignored,
                }
            } else if key == "fps"@ {
                ProgressLineView::Fps { text: value }
            } else if key == "bitrate"@ {
                ProgressLineView::Bitrate { text: value }
            } else if key == "stream_0_0_q"@ {
                ProgressLineView::Quality { text: value }
            } else if key == "total_size"@ {
                match parse_u64(value) {
                    Some(bytes) => ProgressLineView::TotalSize { bytes },
                    None => ProgressLineView::Ignored,
                }
            } else if key == "progress"@ {
                ProgressLineView::GroupEnd
            } else {
                ProgressLineView::Ignored
            }
        },
    }
}

/// A `key=value` line whose key holds no `=` and whose ends are not white
/// space is split at its `=` into the key and the value, trimming nothing.
pub proof fn lemma_key_value_line(key: Seq<char>, value: Seq<char>)
    requires
        key.len() > 0,
        !is_ws(key[0]),
        forall|j: int| 0 <= j < key.len() ==> #[trigger] key[j] != '=',
        value.len() == 0 || (!is_ws(value[0]) && !is_ws(value.last())),
    ensures
        trim(key + seq!['='] + value) == key + seq!['='] + value,
        split_once(key + seq!['='] + value, '=') == Some((key, value)),
        trim(value) == value,
{
    let line = key + seq!['='] + value;
    assert(line[0] == key[0]);
    assert(trim_start(line) == line);
    assert(line.last() == if value.len() == 0 { '=' } else { value.last() });
    assert(!is_ws('='));
    assert(trim_end(line) == line);
    assert(line[key.len() as int] == '=');
    assert forall|j: int| 0 <= j < key.len() implies line[j] != '=' by {
        assert(line[j] == key[j]);
    }
    lemma_split_once_at(line, '=', key.len() as int);
    assert(line.take(key.len() as int) =~= key);
    assert(line.skip(key.len() as int + 1) =~= value);
    if value.len() > 0 {
        assert(trim_start(value) == value);
    }
}

/// A digit is not white space.
proof fn lemma_digits_not_ws(d: Seq<char>)
    requires
        d.len() > 0,
        forall|i: int| 0 <= i < d.len() ==> is_digit(#[trigger] d[i]),
    ensures
        !is_ws(d[0]),
        !is_ws(d.last()),
{
    assert(is_digit(d[0]));
    assert(is_digit(d[d.len() - 1]));
}

/// Every encoded time in microseconds from zero up to `i64::MAX`, under
/// `out_time_us` or its older name `out_time_ms`, is read as that time.
pub proof fn lemma_out_time_micros_read(n: nat)
    requires
        n <= i64::MAX,
    ensures
        spec_classify_progress_line("out_time_us="@ + dec(n)) == (ProgressLineView::OutTimeMicros {
            us: n as i64,
        }),
        spec_classify_progress_line("out_time_ms="@ + dec(n)) == (ProgressLineView::OutTimeMicros {
            us: n as i64,
        }),
{
    reveal_strlit("out_time_us=");
    reveal_strlit("out_time_ms=");
    reveal_strlit("out_time_us");
    reveal_strlit("out_time_ms");
    let d = dec(n);
    lemma_dec_digits(n);
    lemma_digits_not_ws(d);
    lemma_parse_i64_dec(n);
    lemma_key_value_line("out_time_us"@, d);
    lemma_key_value_line("out_time_ms"@, d);
    assert("out_time_us="@ + d =~= "out_time_us"@ + seq!['='] + d);
    assert("out_time_ms="@ + d =~= "out_time_ms"@ + seq!['='] + d);
}

/// A negative encoded time (ffmpeg writes one before the first frame) is
/// ignored, under either key.
pub proof fn lemma_negative_out_time_ignored(n: nat)
    requires
        0 < n <= 0x8000_0000_0000_0000,
    ensures
        spec_classify_progress_line("out_time_us=-"@ + dec(n)) == ProgressLineView::Ignored,
        spec_classify_progress_line("out_time_ms=-"@ + dec(n)) == ProgressLineView::Ignored,
{
    reveal_strlit("out_time_us=-");
    reveal_strlit("out_time_ms=-");
    reveal_strlit("out_time_us");
    reveal_strlit("out_time_ms");
    let d = dec(n);
    lemma_dec_digits(n);
    lemma_digits_not_ws(d);
    let v = seq!['-'] + d;
    assert(v.drop_first() =~= d);
    assert(v.last() == d.last());
    assert(parse_i64(v) == Some((0 - n) as i64));
    lemma_key_value_line("out_time_us"@, v);
    lemma_key_value_line("out_time_ms"@, v);
    assert("out_time_us=-"@ + d =~= "out_time_us"@ + seq!['='] + v);
    assert("out_time_ms=-"@ + d =~= "out_time_ms"@ + seq!['='] + v);
}

/// A `progress=` line ends a block of values, whatever its value
/// (`continue` or `end`).
pub proof fn lemma_progress_line_ends_block(v: Seq<char>)
    requires
        is_trimmed(v),
    ensures
        spec_classify_progress_line("progress="@ + v) == ProgressLineView::GroupEnd,
{
    reveal_strlit("progress=");
    reveal_strlit("progress");
    reveal_strlit("out_time_us");
    reveal_strlit("out_time_ms");
    reveal_strlit("out_time");
    reveal_strlit("speed");
    reveal_strlit("frame");
    reveal_strlit("fps");
    reveal_strlit("bitrate");
    reveal_strlit("stream_0_0_q");
    reveal_strlit("total_size");
    lemma_key_value_line("progress"@, v);
    assert("progress="@ + v =~= "progress"@ + seq!['='] + v);
}

/// Every frame count and every written size that fits in a `u64` is read
/// as that number.
pub proof fn lemma_frame_and_size_read(n: u64)
    ensures
        spec_classify_progress_line("frame="@ + dec(n as nat)) == (ProgressLineView::Frame {
            frame: n,
        }),
        spec_classify_progress_line("total_size="@ + dec(n as nat))
            == (ProgressLineView::TotalSize { bytes: n }),
{
    reveal_strlit("frame=");
    reveal_strlit("total_size=");
    reveal_strlit("frame");
    reveal_strlit("total_size");
    reveal_strlit("out_time_us");
    reveal_strlit("out_time_ms");
    reveal_strlit("out_time");
    reveal_strlit("speed");
    reveal_strlit("fps");
    reveal_strlit("bitrate");
    reveal_strlit("stream_0_0_q");
    let d = dec(n as nat);
    lemma_dec_digits(n as nat);
    lemma_digits_not_ws(d);
    lemma_parse_u64_dec(n);
    lemma_key_value_line("frame"@, d);
    lemma_key_value_line("total_size"@, d);
    assert("frame="@ + d =~= "frame"@ + seq!['='] + d);
    assert("total_size="@ + d =~= "total_size"@ + seq!['='] + d);
}

/// A value whose ends are not white space.
pub open spec fn is_trimmed(v: Seq<char>) -> bool {
    v.len() == 0 || (!is_ws(v[0]) && !is_ws(v.last()))
}

/// The text values are handed over as they stand: `out_time`, `speed`,
/// `fps`, `bitrate` and `stream_0_0_q` each give their own kind with the
/// value itself.
pub proof fn lemma_text_values_read(v: Seq<char>)
    requires
        is_trimmed(v),
    ensures
        spec_classify_progress_line("out_time="@ + v) == (ProgressLineView::OutTimeClock { text: v }),
        spec_classify_progress_line("speed="@ + v) == (ProgressLineView::Speed { text: v }),
        spec_classify_progress_line("fps="@ + v) == (ProgressLineView::Fps { text: v }),
        spec_classify_progress_line("bitrate="@ + v) == (ProgressLineView::Bitrate { text: v }),
        spec_classify_progress_line("stream_0_0_q="@ + v) == (ProgressLineView::Quality { text: v }),
{
    reveal_strlit("out_time=");
    reveal_strlit("speed=");
    reveal_strlit("fps=");
    reveal_strlit("bitrate=");
    reveal_strlit("stream_0_0_q=");
    reveal_strlit("out_time_us");
    reveal_strlit("out_time_ms");
    reveal_strlit("out_time");
    reveal_strlit("speed");
    reveal_strlit("frame");
    reveal_strlit("fps");
    reveal_strlit("bitrate");
    reveal_strlit("stream_0_0_q");
    lemma_key_value_line("out_time"@, v);
    lemma_key_value_line("speed"@, v);
    lemma_key_value_line("fps"@, v);
    lemma_key_value_line("bitrate"@, v);
    lemma_key_value_line("stream_0_0_q"@, v);
    assert("out_time="@ + v =~= "out_time"@ + seq!['='] + v);
    assert("speed="@ + v =~= "speed"@ + seq!['='] + v);
    assert("fps="@ + v =~= "fps"@ + seq!['='] + v);
    assert("bitrate="@ + v =~= "bitrate"@ + seq!['='] + v);
    assert("stream_0_0_q="@ + v =~= "stream_0_0_q"@ + seq!['='] + v);
}

/// Reads one line of ffmpeg's `-progress` output.
pub fn classify_progress_line(line: &str) -> (r: ProgressLine)
    ensures
        r@ == spec_classify_progress_line(line@),
        forall|n: nat|
            #![trigger dec(n)]
            n <= i64::MAX && (line@ == "out_time_us="@ + dec(n) || line@ == "out_time_ms="@ + dec(n))
                ==> r@ == (ProgressLineView::OutTimeMicros { us: n as i64 }),
        forall|n: u64|
            #![trigger dec(n as nat)]
            line@ == "frame="@ + dec(n as nat) ==> r@ == (ProgressLineView::Frame { frame: n }),
        forall|n: u64|
            #![trigger dec(n as nat)]
            line@ == "total_size="@ + dec(n as nat) ==> r@ == (ProgressLineView::TotalSize {
                bytes: n,
            }),
{
    let r = classify_line_chars(line);
    proof {
        assert forall|n: nat|
            #![trigger dec(n)]
            n <= i64::MAX && (line@ == "out_time_us="@ + dec(n) || line@ == "out_time_ms="@ + dec(
                n,
            )) implies r@ == (ProgressLineView::OutTimeMicros { us: n as i64 }) by {
            lemma_out_time_micros_read(n);
        }
        assert forall|n: u64|
            #![trigger dec(n as nat)]
            line@ == "frame="@ + dec(n as nat) || line@ == "total_size="@ + dec(n as nat) implies (
            line@ == "frame="@ + dec(n as nat) ==> r@ == (ProgressLineView::Frame { frame: n }))
            && (line@ == "total_size="@ + dec(n as nat) ==> r@ == (ProgressLineView::TotalSize {
                bytes: n,
            })) by {
            lemma_frame_and_size_read(n);
        }
    }
    r
}

fn classify_line_chars(line: &str) -> (r: ProgressLine)
    ensures
        r@ == spec_classify_progress_line(line@),
{
    let v = chars_of(line);
    let t = trim_chars(&v);
    match split_once_chars(&t, '=') {
        None => ProgressLine::Ignored,
        Some((key, raw)) => {
            let value = trim_chars(&raw);
            if chars_eq(&key, &chars_of("out_time_us")) || chars_eq(&key, &chars_of("out_time_ms")) {
                match parse_i64_chars(&value) {
                    Some(us) => if us >= 0 {
                        ProgressLine::OutTimeMicros { us }
                    } else {
                        ProgressLine::Ignored
                    },
                    None => ProgressLine::Ignored,
                }
            } else if chars_eq(&key, &chars_of("out_time")) {
                ProgressLine::OutTimeClock { text: string_of(&value) }
            } else if chars_eq(&key, &chars_of("speed")) {
                ProgressLine::Speed { text: string_of(&value) }
            } else if chars_eq(&key, &chars_of("frame")) {
                match parse_u64_chars(&value) {
                    Some(frame) => ProgressLine::Frame { frame },
                    None => ProgressLine::Ignored,
                }
            } else if chars_eq(&key, &chars_of("fps")) {
                ProgressLine::Fps { text: string_of(&value) }
            } else if chars_eq(&key, &chars_of("bitrate")) {
                ProgressLine::Bitrate { text: string_of(&value) }
            } else if chars_eq(&key, &chars_of("stream_0_0_q")) {
                ProgressLine::Quality { text: string_of(&value) }
            } else if chars_eq(&key, &chars_of("total_size")) {
                match parse_u64_chars(&value) {
                    Some(bytes) => ProgressLine::TotalSize { bytes },
                    None => ProgressLine::Ignored,
                }
            } else if chars_eq(&key, &chars_of("progress")) {
                ProgressLine::GroupEnd
            } else {
                ProgressLine::Ignored
            }
        },
    }
}

/// How much of ffmpeg's standard error is kept for an error report: the
/// whole text while it takes at most 8192 bytes in UTF-8, else its longest
/// end of whole characters that fits in 8192 bytes.
pub open spec fn spec_keep_stderr_tail(s: Seq<char>) -> Seq<char> {
    if utf8_len(s) > 8192 {
        utf8_tail(s, 8192)
    } else {
        s
    }
}

/// Cuts the collected standard error back to its last 8192 bytes, at a
/// character boundary.
pub fn keep_stderr_tail(s: &str) -> (r: String)
    ensures
        r@ == spec_keep_stderr_tail(s@),
{
    let v = chars_of(s);
    let n = utf8_len_capped(&v, 8192);
    if n > 8192 {
        let t = utf8_tail_chars(&v, 8192);
        string_of(&t)
    } else {
        String::from_str(s)
    }
}

/// The error of an ffmpeg run that did not succeed: its exit code (or a
/// note that a signal ended it) and the end of its standard error without
/// trailing white space.
pub open spec fn spec_ffmpeg_failure_message(code: Option<i32>, stderr_tail: Seq<char>) -> Seq<
    char,
> {
    "ffmpeg 退出码 "@ + match code {
        Some(c) => dec_signed(c as int),
        None => "信号终止"@,
    } + "：\n"@ + trim_end(stderr_tail)
}

/// Builds the error of an ffmpeg run that did not succeed.
pub fn ffmpeg_failure_message(code: Option<i32>, stderr_tail: &str) -> (r: String)
    ensures
        r@ == spec_ffmpeg_failure_message(code, stderr_tail@),
{
    let mut m = String::new();
    push_str(&mut m, "ffmpeg 退出码 ");
    match code {
        Some(c) => push_dec_signed(&mut m, c as i64),
        None => push_str(&mut m, "信号终止"),
    }
    push_str(&mut m, "：\n");
    let t = trim_end_chars(&chars_of(stderr_tail));
    push_chars(&mut m, &t);
    m
}

/// The number part of a speed such as ` 1.23x `: trimmed, trailing `x`
/// removed, trimmed again.
pub open spec fn spec_speed_number_text(speed: Seq<char>) -> Seq<char> {
    trim(strip_trailing(trim(speed), 'x'))
}

/// The number part of ffmpeg's `speed` value, ready to be read as a factor.
pub fn speed_number_text(speed: &str) -> (r: String)
    ensures
        r@ == spec_speed_number_text(speed@),
{
    let v = chars_of(speed);
    let a = trim_chars(&v);
    let b = strip_trailing_chars(&a, 'x');
    let c = trim_chars(&b);
    string_of(&c)
}

} // verus!
