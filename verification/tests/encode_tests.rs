use vrcaster::encode::{
    build_args, build_filter, classify_progress_line, escape_subtitle_path, ffmpeg_failure_message,
    keep_stderr_tail, output_base_dir,
    output_file_name,
    plan_subtitle, sanitize_stem, speed_number_text, EncodeOptions, ProgressLine, RateControl,
    SampleWindow, SubtitlePlan,
};
use vrcaster::types::{AppSettings, QueueMode, Resolution, Speed, SubtitleChoice, Tonemap};

fn strs(v: &[&str]) -> Vec<String> {
    v.iter().map(|s| s.to_string()).collect()
}

#[test]
fn dims_of_each_resolution() {
    assert_eq!(Resolution::P720.dims(), (1280, 720));
    assert_eq!(Resolution::P1080.dims(), (1920, 1080));
    assert_eq!(Resolution::P1440.dims(), (2560, 1440));
    assert_eq!(Resolution::P2160.dims(), (3840, 2160));
    for r in [Resolution::P720, Resolution::P1080, Resolution::P1440, Resolution::P2160] {
        let (w, h) = r.dims();
        assert_eq!(w * 9, h * 16);
    }
}

#[test]
fn preset_and_tonemap_names() {
    assert_eq!(Speed::Fast.preset(), "fast");
    assert_eq!(Speed::Medium.preset(), "medium");
    assert_eq!(Speed::Slow.preset(), "slow");
    assert_eq!(Tonemap::Hable.as_str(), "hable");
    assert_eq!(Tonemap::Mobius.as_str(), "mobius");
    assert_eq!(Tonemap::Reinhard.as_str(), "reinhard");
}

#[test]
fn default_settings() {
    let s = AppSettings::default();
    assert_eq!(s.language, "zh");
    assert_eq!(s.default_resolution, Resolution::P1440);
    assert_eq!(s.default_speed, Speed::Medium);
    assert_eq!(s.default_tonemap, Tonemap::Hable);
    assert_eq!(s.default_audio_bitrate_k, 192);
    assert_eq!(s.default_queue_mode, QueueMode::Pipeline);
    assert_eq!(s.active_profile_id, None);
    assert!(s.auto_delete_sample);
}

#[test]
fn hdr_filter_tone_maps_then_scales() {
    let f = build_filter(Resolution::P1080, Tonemap::Hable, true, None);
    assert_eq!(
        f,
        "zscale=w=1920:h=1080:t=linear:npl=100,format=gbrpf32le,zscale=p=bt709,\
         tonemap=tonemap=hable:desat=0,zscale=t=bt709:m=bt709:r=tv,format=yuv420p"
    );
}

#[test]
fn sdr_filter_skips_tone_mapping() {
    let f = build_filter(Resolution::P720, Tonemap::Mobius, false, None);
    assert_eq!(f, "scale=1280:720:flags=lanczos,format=yuv420p");
    assert!(!f.contains("tonemap"));
}

#[test]
fn filter_burns_in_subtitles_last() {
    let f = build_filter(Resolution::P2160, Tonemap::Reinhard, true, Some("subs.ass"));
    assert!(f.starts_with("zscale=w=3840:h=2160:"));
    assert!(f.contains("tonemap=tonemap=reinhard:"));
    assert!(f.ends_with(",format=yuv420p,subtitles=subs.ass"));
    let g = build_filter(Resolution::P1440, Tonemap::Hable, false, Some("C\\:\\\\x.ass"));
    assert_eq!(g, "scale=2560:1440:flags=lanczos,format=yuv420p,subtitles=C\\:\\\\x.ass");
}

#[test]
fn subtitle_path_escaping() {
    assert_eq!(escape_subtitle_path("C:\\a\\b.ass"), "C\\:\\\\a\\\\b.ass");
    assert_eq!(escape_subtitle_path("it's.ass"), "it\\'s.ass");
    assert_eq!(escape_subtitle_path("plain/path.srt"), "plain/path.srt");
    assert_eq!(escape_subtitle_path(""), "");
    assert_eq!(escape_subtitle_path("a,b.ass"), "a\\,b.ass");
    assert_eq!(escape_subtitle_path("x;[y].srt"), "x\\;\\[y\\].srt");
}

fn opts(rate: RateControl, hwaccel: bool) -> EncodeOptions {
    EncodeOptions {
        speed: Speed::Medium,
        hwaccel,
        audio_track_index: 1,
        audio_bitrate_k: 192,
        rate,
    }
}

#[test]
fn full_encode_arguments_with_target_bitrate() {
    let args = build_args(
        "in.mkv",
        "out_vrc.mp4",
        &opts(RateControl::Bitrate { kbps: 5000 }, true),
        "scale=1920:1080:flags=lanczos,format=yuv420p",
        None,
    );
    assert_eq!(
        args,
        strs(&[
            "-y", "-hide_banner", "-hwaccel", "auto", "-i", "in.mkv", "-vf",
            "scale=1920:1080:flags=lanczos,format=yuv420p", "-map", "0:0", "-map", "0:1", "-c:v",
            "libx264", "-profile:v", "main", "-pix_fmt", "yuv420p", "-preset", "medium",
            "-x264-params", "keyint=48:min-keyint=48:bframes=0:scenecut=0", "-fps_mode", "cfr",
            "-b:v", "5000k", "-maxrate", "6000k", "-bufsize", "10000k", "-c:a", "aac", "-ac", "2",
            "-b:a", "192k", "-movflags", "+faststart", "-dn", "-progress", "pipe:1", "-nostats",
            "out_vrc.mp4",
        ])
    );
}

#[test]
fn sample_arguments_with_quality_mode() {
    let w = SampleWindow { start: "540".to_string(), duration: "120".to_string() };
    let args = build_args("in.mp4", "s.mp4", &opts(RateControl::Crf { crf: 23 }, false), "F", Some(&w));
    assert_eq!(
        args,
        strs(&[
            "-y", "-hide_banner", "-ss", "540", "-i", "in.mp4", "-t", "120", "-vf", "F", "-map",
            "0:0", "-map", "0:1", "-c:v", "libx264", "-profile:v", "main", "-pix_fmt", "yuv420p",
            "-preset", "medium", "-x264-params", "keyint=48:min-keyint=48:bframes=0:scenecut=0",
            "-fps_mode", "cfr", "-crf", "23", "-c:a", "aac", "-ac", "2", "-b:a", "192k",
            "-movflags", "+faststart", "-dn", "-progress", "pipe:1", "-nostats", "s.mp4",
        ])
    );
}

fn rate_of(kbps: u32) -> (String, String) {
    let args = build_args("i", "o", &opts(RateControl::Bitrate { kbps }, false), "f", None);
    let m = args.iter().position(|a| a == "-maxrate").unwrap();
    let b = args.iter().position(|a| a == "-bufsize").unwrap();
    (args[m + 1].clone(), args[b + 1].clone())
}

#[test]
fn maxrate_is_rounded_one_point_two_times() {
    for k in [1u32, 2, 3, 4, 5, 7, 1234, 99999, 3_000_000_000, u32::MAX] {
        let expected_max = ((k as f64) * 1.2).round() as u32;
        let expected_buf = k.saturating_mul(2);
        assert_eq!(rate_of(k), (format!("{}k", expected_max), format!("{}k", expected_buf)));
    }
    assert_eq!(rate_of(3), ("4k".to_string(), "6k".to_string()));
    assert_eq!(rate_of(u32::MAX), ("4294967295k".to_string(), "4294967295k".to_string()));
}

#[test]
fn stem_sanitizing() {
    assert_eq!(sanitize_stem("a<b>:c"), "a_b__c");
    assert_eq!(sanitize_stem("x/y\\z|w?v*u\"t"), "x_y_z_w_v_u_t");
    assert_eq!(sanitize_stem("  name. . "), "name. ");
    assert_eq!(sanitize_stem("tab\there"), "tab_here");
    assert_eq!(sanitize_stem("...."), "output");
    assert_eq!(sanitize_stem(""), "output");
    assert_eq!(sanitize_stem(" "), "output");
    assert_eq!(sanitize_stem("\u{3000}电影\u{3000}"), "电影");
}

#[test]
fn output_file_names() {
    assert_eq!(output_file_name(Some("movie")), "movie_vrc.mp4");
    assert_eq!(output_file_name(Some("a:b")), "a_b_vrc.mp4");
    assert_eq!(output_file_name(Some("...")), "output_vrc.mp4");
    assert_eq!(output_file_name(None), "output_vrc.mp4");
}

#[test]
fn subtitle_plans() {
    assert_eq!(
        plan_subtitle(&SubtitleChoice::Embedded { index: 3 }),
        SubtitlePlan { extract_index: Some(3), filter_path: Some("subs.ass".to_string()) }
    );
    assert_eq!(
        plan_subtitle(&SubtitleChoice::External { path: "D:\\s\\a.ass".to_string() }),
        SubtitlePlan { extract_index: None, filter_path: Some("D\\:\\\\s\\\\a.ass".to_string()) }
    );
    assert_eq!(
        plan_subtitle(&SubtitleChoice::Disabled),
        SubtitlePlan { extract_index: None, filter_path: None }
    );
}

#[test]
fn progress_lines() {
    assert_eq!(classify_progress_line("out_time_us=1500000\n"), ProgressLine::OutTimeMicros { us: 1500000 });
    assert_eq!(classify_progress_line("out_time_ms= 42 "), ProgressLine::OutTimeMicros { us: 42 });
    assert_eq!(classify_progress_line("out_time_us=-5"), ProgressLine::Ignored);
    assert_eq!(classify_progress_line("out_time_us=N/A"), ProgressLine::Ignored);
    assert_eq!(classify_progress_line("out_time_us=+7"), ProgressLine::OutTimeMicros { us: 7 });
    assert_eq!(
        classify_progress_line("out_time_us=99999999999999999999"),
        ProgressLine::Ignored
    );
    assert_eq!(
        classify_progress_line("out_time=00:01:02.500000\r\n"),
        ProgressLine::OutTimeClock { text: "00:01:02.500000".to_string() }
    );
    assert_eq!(
        classify_progress_line("speed= 1.5x"),
        ProgressLine::Speed { text: "1.5x".to_string() }
    );
    assert_eq!(classify_progress_line("progress=continue"), ProgressLine::GroupEnd);
    assert_eq!(classify_progress_line("progress=end"), ProgressLine::GroupEnd);
    assert_eq!(classify_progress_line("frame=10"), ProgressLine::Frame { frame: 10 });
    assert_eq!(classify_progress_line("frame= 1234 \n"), ProgressLine::Frame { frame: 1234 });
    assert_eq!(classify_progress_line("frame=N/A"), ProgressLine::Ignored);
    assert_eq!(classify_progress_line("fps=59.94"), ProgressLine::Fps { text: "59.94".to_string() });
    assert_eq!(
        classify_progress_line("bitrate=2345.6kbits/s\n"),
        ProgressLine::Bitrate { text: "2345.6kbits/s".to_string() }
    );
    assert_eq!(
        classify_progress_line("stream_0_0_q=28.0"),
        ProgressLine::Quality { text: "28.0".to_string() }
    );
    assert_eq!(classify_progress_line("total_size=1048576"), ProgressLine::TotalSize { bytes: 1048576 });
    assert_eq!(classify_progress_line("total_size=N/A"), ProgressLine::Ignored);
    assert_eq!(classify_progress_line("no separator"), ProgressLine::Ignored);
    assert_eq!(classify_progress_line(" key=a=b"), ProgressLine::Ignored);
}

#[test]
fn speed_text() {
    assert_eq!(speed_number_text(" 1.23x "), "1.23");
    assert_eq!(speed_number_text("2x"), "2");
    assert_eq!(speed_number_text("N/A"), "N/A");
    assert_eq!(speed_number_text("0.5 x"), "0.5");
}

fn unescape(s: &str) -> String {
    let mut out = String::new();
    let mut it = s.chars();
    while let Some(c) = it.next() {
        if c == '\\' {
            match it.next() {
                Some(d) => out.push(d),
                None => out.push(c),
            }
        } else {
            out.push(c);
        }
    }
    out
}

#[test]
fn escaped_subtitle_paths_read_back() {
    for p in ["C:\\Users\\me\\字幕.ass", "a'b:c\\d", "\\\\", "", "plain", "x,y;[z].ass"] {
        assert_eq!(unescape(&escape_subtitle_path(p)), p);
    }
}

#[test]
fn output_directory_choice() {
    assert_eq!(output_base_dir(Some("/videos"), "/data"), "/videos");
    assert_eq!(output_base_dir(Some(""), "/data"), "/data");
    assert_eq!(output_base_dir(None, "/data"), "/data");
}

#[test]
fn stderr_tail_is_cut_at_a_character_boundary() {
    assert_eq!(keep_stderr_tail("short"), "short");
    let ascii = "x".repeat(9000);
    assert_eq!(keep_stderr_tail(&ascii), "x".repeat(8192));
    let wide = format!("a{}", "中".repeat(3000));
    let kept = keep_stderr_tail(&wide);
    assert_eq!(kept, "中".repeat(2730));
    assert!(kept.len() <= 8192);
}

#[test]
fn ffmpeg_failure_messages() {
    assert_eq!(ffmpeg_failure_message(Some(1), "bad input\n\n"), "ffmpeg 退出码 1：\nbad input");
    assert_eq!(ffmpeg_failure_message(Some(-22), ""), "ffmpeg 退出码 -22：\n");
    assert_eq!(ffmpeg_failure_message(None, "killed "), "ffmpeg 退出码 信号终止：\nkilled");
}
