use vrcaster::ffmpeg::{executable_target, first_path_line, Executable};
use vrcaster::num::u64_to_string;
use vrcaster::queue::successful_encodes;
use vrcaster::subtitle::{extract_fonts_args, extract_track_args, extract_track_error};

#[test]
fn where_output() {
    assert_eq!(
        first_path_line("\r\n  C:\\ffmpeg\\bin\\ffmpeg.exe\r\nD:\\other\\ffmpeg.exe\r\n"),
        Some("C:\\ffmpeg\\bin\\ffmpeg.exe".to_string())
    );
    assert_eq!(first_path_line(""), None);
    assert_eq!(first_path_line(" \n\t\n"), None);
}

#[test]
fn archive_entries() {
    assert_eq!(executable_target("ffmpeg-7.1-essentials_build/bin/ffmpeg.exe"), Some(Executable::Ffmpeg));
    assert_eq!(executable_target("ffmpeg-7.1-essentials_build\\bin\\ffprobe.exe"), Some(Executable::Ffprobe));
    assert_eq!(executable_target("ffmpeg-7.1-essentials_build/bin/ffplay.exe"), None);
    assert_eq!(executable_target("ffmpeg-7.1-essentials_build/doc/ffmpeg.exe"), None);
    assert_eq!(executable_target("ffmpeg.exe"), None);
    assert_eq!(executable_target("bin/ffmpeg.exe"), Some(Executable::Ffmpeg));
    assert_eq!(executable_target("bin\\ffprobe.exe"), Some(Executable::Ffprobe));
    assert_eq!(executable_target("xbin/ffmpeg.exe"), None);
}

#[test]
fn subtitle_extraction_commands() {
    assert_eq!(
        extract_track_args("in.mkv", 3, "/w/subs.ass"),
        vec!["-y", "-i", "in.mkv", "-map", "0:3", "-c", "copy", "/w/subs.ass"]
    );
    assert_eq!(extract_fonts_args("in.mkv"), vec!["-y", "-dump_attachment:t", "", "-i", "in.mkv"]);
    assert_eq!(
        extract_track_error(2, Some(1), " bad stream \n"),
        "ffmpeg 提取字幕轨 0:2 失败 (exit 1): bad stream"
    );
    assert_eq!(extract_track_error(0, None, ""), "ffmpeg 提取字幕轨 0:0 失败 (exit signal): ");
}

#[test]
fn uploads_follow_successful_encodes_in_order() {
    let r = successful_encodes(vec![
        ("a".to_string(), Ok("/o/a.mp4".to_string())),
        ("b".to_string(), Err("boom".to_string())),
        ("c".to_string(), Ok("/o/c.mp4".to_string())),
    ]);
    assert_eq!(
        r,
        vec![("a".to_string(), "/o/a.mp4".to_string()), ("c".to_string(), "/o/c.mp4".to_string())]
    );
}

#[test]
fn decimal_rendering() {
    assert_eq!(u64_to_string(0), "0");
    assert_eq!(u64_to_string(10), "10");
    assert_eq!(u64_to_string(u64::MAX), "18446744073709551615");
}
