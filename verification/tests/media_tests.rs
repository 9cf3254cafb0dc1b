use vrcaster::media::{
    audio_tracks, is_hdr_transfer, is_video_extension, size_bytes, subtitle_tracks, video_summary,
    ProbeStream, ProbeTags,
};

fn stream(index: u32, kind: &str) -> ProbeStream {
    ProbeStream {
        index,
        codec_type: Some(kind.to_string()),
        codec_name: None,
        width: None,
        height: None,
        avg_frame_rate: None,
        r_frame_rate: None,
        color_transfer: None,
        channels: None,
        tags: ProbeTags { language: None, title: None },
    }
}

fn sample_streams() -> Vec<ProbeStream> {
    let mut v = stream(0, "video");
    v.width = Some(3840);
    v.height = Some(2160);
    v.color_transfer = Some("smpte2084".to_string());
    let mut a1 = stream(1, "audio");
    a1.codec_name = Some("aac".to_string());
    a1.channels = Some(6);
    a1.tags.language = Some("jpn".to_string());
    let a2 = stream(2, "audio");
    let mut s = stream(3, "subtitle");
    s.codec_name = Some("ass".to_string());
    s.tags.title = Some("简体".to_string());
    let v2 = stream(4, "video");
    vec![v, a1, a2, s, v2]
}

#[test]
fn video_stream_and_hdr() {
    let v = video_summary(&sample_streams());
    assert_eq!(v.stream, Some(0));
    assert_eq!((v.width, v.height), (3840, 2160));
    assert_eq!(v.color_transfer, Some("smpte2084".to_string()));
    assert!(v.is_hdr);
    let none = video_summary(&vec![stream(0, "audio")]);
    assert_eq!((none.stream, none.width, none.height, none.is_hdr), (None, 0, 0, false));
}

#[test]
fn hdr_transfers() {
    assert!(is_hdr_transfer(&Some("smpte2084".to_string())));
    assert!(is_hdr_transfer(&Some("arib-std-b67".to_string())));
    assert!(!is_hdr_transfer(&Some("bt709".to_string())));
    assert!(!is_hdr_transfer(&None));
}

#[test]
fn tracks() {
    let streams = sample_streams();
    let a = audio_tracks(&streams);
    assert_eq!(a.len(), 2);
    assert_eq!((a[0].index, a[0].codec.as_str(), a[0].channels), (1, "aac", 6));
    assert_eq!(a[0].language, Some("jpn".to_string()));
    assert_eq!((a[1].index, a[1].codec.as_str(), a[1].channels), (2, "", 0));
    let s = subtitle_tracks(&streams);
    assert_eq!(s.len(), 1);
    assert_eq!((s[0].index, s[0].codec.as_str()), (3, "ass"));
    assert_eq!(s[0].title, Some("简体".to_string()));
}

#[test]
fn container_size() {
    assert_eq!(size_bytes(&Some(" 123456 ".to_string())), 123456);
    assert_eq!(size_bytes(&Some("N/A".to_string())), 0);
    assert_eq!(size_bytes(&None), 0);
}

#[test]
fn video_extensions() {
    for e in ["mkv", "MP4", "Avi", "mov", "webm", "TS", "m4v", "flv", "wmv", "mpg", "MPEG", "m2ts"] {
        assert!(is_video_extension(e), "{e}");
    }
    assert!(is_video_extension("M\u{212A}V"));
    assert_eq!(is_video_extension("M\u{212A}V"), "M\u{212A}V".to_lowercase() == "mkv");
    for e in ["txt", "mp3", "", "mkv ", "mp"] {
        assert!(!is_video_extension(e), "{e}");
    }
}
