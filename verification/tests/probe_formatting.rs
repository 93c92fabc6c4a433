use mkvlabel::backend::ffprobe::{
    detect_h264_output, detect_h264_streams, fmt_duration_secs, fmt_size, probe_output, probe_result, FormatInfo,
    ProbeFailure, StreamInfo,
};

/// The size formatting done in floating point, unit by unit.
fn float_size(bytes: u64) -> String {
    let mut val = bytes as f64;
    for unit in &["B", "KB", "MB", "GB"] {
        if val < 1024.0 {
            return format!("{val:.1} {unit}");
        }
        val /= 1024.0;
    }
    format!("{val:.1} TB")
}

#[test]
fn size_examples() {
    assert_eq!(fmt_size(0), "0.0 B");
    assert_eq!(fmt_size(1023), "1023.0 B");
    assert_eq!(fmt_size(1024), "1.0 KB");
    assert_eq!(fmt_size(1536), "1.5 KB");
    assert_eq!(fmt_size(1280), "1.2 KB");
    assert_eq!(fmt_size(1048576), "1.0 MB");
    assert_eq!(fmt_size(1073741824), "1.0 GB");
    assert_eq!(fmt_size(1099511627776), "1.0 TB");
}

#[test]
fn size_agrees_with_float_formatting() {
    let mut samples: Vec<u64> = vec![u64::MAX, u64::MAX - 1, 1 << 53, (1 << 53) + 1, 1 << 63];
    for shift in 0..64u32 {
        let p = 1u64 << shift;
        for delta in [0u64, 1, 2, 3, 51, 52, 103, 512] {
            samples.push(p.wrapping_add(delta));
            samples.push(p.wrapping_sub(delta));
        }
        for tenths in 0..20u64 {
            // values near a tie of the first decimal in each unit
            samples.push((p / 20).wrapping_mul(tenths * 2 + 1));
        }
    }
    let mut x: u64 = 0x9e37_79b9_7f4a_7c15;
    for _ in 0..20000 {
        x ^= x << 13;
        x ^= x >> 7;
        x ^= x << 17;
        samples.push(x >> (x % 64));
        samples.push(x % 5_000_000);
    }
    for b in 0..5000u64 {
        samples.push(b);
    }
    for b in samples {
        assert_eq!(fmt_size(b), float_size(b), "bytes {b}");
    }
}

#[test]
fn duration_examples() {
    assert_eq!(fmt_duration_secs(0), "0:00");
    assert_eq!(fmt_duration_secs(59), "0:59");
    assert_eq!(fmt_duration_secs(61), "1:01");
    assert_eq!(fmt_duration_secs(3599), "59:59");
    assert_eq!(fmt_duration_secs(3600), "1:00:00");
    assert_eq!(fmt_duration_secs(2 * 3600 + 5 * 60 + 9), "2:05:09");
    assert_eq!(fmt_duration_secs(100 * 3600), "100:00:00");
}

fn stream(kind: Option<&str>, index: Option<i64>, codec: Option<&str>, lang: Option<&str>, title: Option<&str>, channels: Option<i64>) -> StreamInfo {
    StreamInfo {
        codec_type: kind.map(|s| s.to_string()),
        index,
        codec_name: codec.map(|s| s.to_string()),
        language: lang.map(|s| s.to_string()),
        title: title.map(|s| s.to_string()),
        channels,
    }
}

#[test]
fn probe_result_collects_streams() {
    let streams = vec![
        stream(Some("video"), Some(0), Some("hevc"), None, None, None),
        stream(Some("audio"), Some(1), Some("ac3"), Some("eng"), Some("Main"), Some(6)),
        stream(Some("subtitle"), Some(2), Some("subrip"), Some("fre"), None, None),
        stream(Some("audio"), None, None, None, None, None),
        stream(None, Some(4), Some("h264"), None, None, None),
        stream(Some("video"), Some(5), Some("mjpeg"), None, None, None),
    ];
    let format = FormatInfo { size: Some("1536".to_string()), title: Some("A Film".to_string()) };
    let r = probe_result(3_725_500_000, 3725, &format, &streams);
    assert_eq!(r.duration_us, 3_725_500_000);
    assert_eq!(r.duration_fmt, "1:02:05");
    assert_eq!(r.size, 1536);
    assert_eq!(r.size_fmt, "1.5 KB");
    assert_eq!(r.video_streams, 2);
    assert_eq!(r.audio_streams.len(), 2);
    assert_eq!(r.audio_streams[0].index, 1);
    assert_eq!(r.audio_streams[0].codec, "ac3");
    assert_eq!(r.audio_streams[0].language, "eng");
    assert_eq!(r.audio_streams[0].title, "Main");
    assert_eq!(r.audio_streams[0].channels, 6);
    assert_eq!(r.audio_streams[1].index, 0);
    assert_eq!(r.audio_streams[1].codec, "");
    assert_eq!(r.audio_streams[1].channels, 0);
    assert_eq!(r.subtitle_streams.len(), 1);
    assert_eq!(r.subtitle_streams[0].index, 2);
    assert_eq!(r.subtitle_streams[0].codec, "subrip");
    assert_eq!(r.subtitle_streams[0].language, "fre");
    assert_eq!(r.subtitle_streams[0].title, "");
    assert_eq!(r.title, "A Film");
}

#[test]
fn probe_result_defaults() {
    let format = FormatInfo { size: Some("12 bytes".to_string()), title: None };
    let r = probe_result(0, 0, &format, &Vec::new());
    assert_eq!(r.duration_fmt, "0:00");
    assert_eq!(r.size, 0);
    assert_eq!(r.size_fmt, "0.0 B");
    assert_eq!(r.video_streams, 0);
    assert!(r.audio_streams.is_empty());
    assert!(r.subtitle_streams.is_empty());
    assert_eq!(r.title, "");
    let none = FormatInfo { size: None, title: None };
    assert_eq!(probe_result(0, 0, &none, &Vec::new()).size, 0);
}

#[test]
fn h264_detection() {
    let h264 = vec![
        stream(Some("audio"), Some(0), Some("h264"), None, None, None),
        stream(Some("video"), Some(1), Some("h264"), None, None, None),
    ];
    assert!(detect_h264_streams(&h264));
    let other = vec![
        stream(Some("video"), Some(0), Some("hevc"), None, None, None),
        stream(Some("audio"), Some(1), Some("h264"), None, None, None),
        stream(Some("video"), Some(2), None, None, None, None),
    ];
    assert!(!detect_h264_streams(&other));
    assert!(!detect_h264_streams(&Vec::new()));
    // only the first video stream counts
    let second = vec![
        stream(Some("video"), Some(0), Some("hevc"), None, None, None),
        stream(Some("video"), Some(1), Some("h264"), None, None, None),
    ];
    assert!(!detect_h264_streams(&second));
    let first = vec![
        stream(Some("video"), Some(0), Some("h264"), None, None, None),
        stream(Some("video"), Some(1), Some("hevc"), None, None, None),
    ];
    assert!(detect_h264_streams(&first));
}

const REPORT: &str = r#"{
  "streams": [
    {"index": 0, "codec_name": "hevc", "codec_type": "video"},
    {"index": 1, "codec_name": "ac3", "codec_type": "audio", "channels": 6, "tags": {"language": "eng", "title": "Main"}},
    {"index": 2, "codec_name": "subrip", "codec_type": "subtitle", "tags": {"language": "fre"}},
    {"index": 3, "codec_name": "h264", "codec_type": "video"}
  ],
  "format": {"duration": "1325.500000", "size": "2048", "tags": {"title": "A Film"}}
}"#;

#[test]
fn probe_output_reads_the_report() {
    let r = probe_output(true, REPORT.as_bytes()).unwrap();
    assert_eq!(r.duration_text.as_deref(), Some("1325.500000"));
    assert_eq!(r.format.size.as_deref(), Some("2048"));
    assert_eq!(r.format.title.as_deref(), Some("A Film"));
    assert_eq!(r.streams.len(), 4);
    assert_eq!(r.streams[1].codec_type.as_deref(), Some("audio"));
    assert_eq!(r.streams[1].index, Some(1));
    assert_eq!(r.streams[1].channels, Some(6));
    assert_eq!(r.streams[1].language.as_deref(), Some("eng"));
    assert_eq!(r.streams[1].title.as_deref(), Some("Main"));
    assert_eq!(r.streams[0].language, None);
    assert_eq!(r.streams[0].channels, None);
    let p = probe_result(1_325_500_000, 1325, &r.format, &r.streams);
    assert_eq!(p.duration_fmt, "22:05");
    assert_eq!(p.size_fmt, "2.0 KB");
    assert_eq!(p.video_streams, 2);
    assert_eq!(p.audio_streams.len(), 1);
    assert_eq!(p.subtitle_streams[0].language, "fre");
    assert_eq!(p.title, "A Film");
}

#[test]
fn probe_output_failures() {
    assert!(matches!(probe_output(false, REPORT.as_bytes()), Err(ProbeFailure::NonZeroExit)));
    match probe_output(true, b"not json") {
        Err(ProbeFailure::ParseJson { source }) => assert!(!source.is_empty()),
        _ => panic!("a parse failure was expected"),
    }
    let bare = probe_output(true, b"{}").unwrap();
    assert!(bare.streams.is_empty());
    assert!(bare.duration_text.is_none());
    assert!(bare.format.size.is_none());
    let odd = probe_output(true, br#"{"format": {"size": 12}, "streams": [{"index": "x"}]}"#).unwrap();
    assert!(odd.format.size.is_none());
    assert_eq!(odd.streams[0].index, None);
}

#[test]
fn h264_from_output() {
    assert!(!detect_h264_output(REPORT.as_bytes()));
    assert!(detect_h264_output(br#"{"streams": [{"codec_type": "audio"}, {"codec_type": "video", "codec_name": "h264"}]}"#));
    assert!(!detect_h264_output(b"garbage"));
    assert!(!detect_h264_output(b"{}"));
}
