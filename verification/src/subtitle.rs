//! The ffmpeg command lines that extract an embedded subtitle track and the
//! embedded fonts, and the error reported when the extraction fails.

use vstd::prelude::*;
use crate::encode::views;
use crate::num::{dec, dec_signed, push_dec, push_dec_signed};
use crate::text::{chars_of, push_chars, push_str, trim, trim_chars};

verus! {

fn push_lit(args: &mut Vec<String>, s: &str)
    ensures
        views(final(args)@) == views(old(args)@).push(s@),
{
    args.push(String::from_str(s));
    assert(views(final(args)@) =~= views(old(args)@).push(s@));
}

/// `-y -i <input> -map 0:<index> -c copy <out>`.
pub open spec fn spec_extract_track_args(input: Seq<char>, index: u32, out: Seq<char>) -> Seq<
    Seq<char>,
> {
    seq!["-y"@, "-i"@, input, "-map"@, "0:"@ + dec(index as nat), "-c"@, "copy"@, out]
}

/// Arguments that copy subtitle stream `index` of `input` into `out`.
pub fn extract_track_args(input: &str, index: u32, out: &str) -> (r: Vec<String>)
    ensures
        views(r@) == spec_extract_track_args(input@, index, out@),
{
    let mut a: Vec<String> = Vec::new();
    assert(views(a@) =~= Seq::<Seq<char>>::empty());
    push_lit(&mut a, "-y");
    push_lit(&mut a, "-i");
    push_lit(&mut a, input);
    push_lit(&mut a, "-map");
    let mut m = String::from_str("0:");
    push_dec(&mut m, index as u64);
    let ghost before = views(a@);
    let ghost mv = m@;
    a.push(m);
    assert(views(a@) =~= before.push(mv));
    push_lit(&mut a, "-c");
    push_lit(&mut a, "copy");
    push_lit(&mut a, out);
    assert(views(a@) =~= spec_extract_track_args(input@, index, out@));
    a
}

/// The error when the extraction exits unsuccessfully: the stream, the exit
/// code (or `signal` when there is none) and ffmpeg's trimmed stderr.
pub open spec fn spec_extract_track_error(index: u32, code: Option<i32>, stderr: Seq<char>) -> Seq<
    char,
> {
    "ffmpeg 提取字幕轨 0:"@ + dec(index as nat) + " 失败 (exit "@ + (match code {
        Some(c) => dec_signed(c as int),
        None => "signal"@,
    }) + "): "@ + trim(stderr)
}

/// Formats the failure of a subtitle extraction.
pub fn extract_track_error(index: u32, code: Option<i32>, stderr: &str) -> (r: String)
    ensures
        r@ == spec_extract_track_error(index, code, stderr@),
{
    let mut e = String::new();
    push_str(&mut e, "ffmpeg 提取字幕轨 0:");
    push_dec(&mut e, index as u64);
    push_str(&mut e, " 失败 (exit ");
    match code {
        Some(c) => push_dec_signed(&mut e, c as i64),
        None => push_str(&mut e, "signal"),
    }
    push_str(&mut e, "): ");
    let t = trim_chars(&chars_of(stderr));
    push_chars(&mut e, &t);
    e
}

/// `-y -dump_attachment:t "" -i <input>`, run in the font directory.
pub open spec fn spec_extract_fonts_args(input: Seq<char>) -> Seq<Seq<char>> {
    seq!["-y"@, "-dump_attachment:t"@, ""@, "-i"@, input]
}

/// Arguments that dump every attachment (the fonts) of `input` into the
/// working directory.
pub fn extract_fonts_args(input: &str) -> (r: Vec<String>)
    ensures
        views(r@) == spec_extract_fonts_args(input@),
{
    let mut a: Vec<String> = Vec::new();
    assert(views(a@) =~= Seq::<Seq<char>>::empty());
    push_lit(&mut a, "-y");
    push_lit(&mut a, "-dump_attachment:t");
    push_lit(&mut a, "");
    push_lit(&mut a, "-i");
    push_lit(&mut a, input);
    assert(views(a@) =~= spec_extract_fonts_args(input@));
    a
}

} // verus!
