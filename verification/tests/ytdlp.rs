//! Argument vectors and the lines yt-dlp prints.

use serde_json::Value;

use rustydlp::ytdlp::{
    base_args, classify_line, download_args, info_event, payload, probe_args, progress_event,
    Double, Event, FormatMode, InfoLine, Line, Progress, Total, YtdlpOptions,
};

fn text(v: &Value, key: &str) -> Option<String> {
    v.get(key).and_then(|x| x.as_str()).map(|x| x.to_string())
}

fn double(v: &Value, key: &str) -> Option<Double> {
    v.get(key)
        .and_then(|x| x.as_f64())
        .map(|x| Double { bits: x.to_bits() })
}

fn read(json: &str) -> Result<Value, String> {
    serde_json::from_str::<Value>(json).map_err(|e| e.to_string())
}

fn read_progress(json: &str) -> Result<Progress, String> {
    let v = read(json)?;
    Ok(Progress {
        status: text(&v, "status"),
        downloaded_bytes: v.get("downloaded_bytes").and_then(|x| x.as_u64()),
        total_bytes: v.get("total_bytes").and_then(|x| x.as_u64()),
        total_bytes_estimate: double(&v, "total_bytes_estimate"),
        speed: double(&v, "speed"),
        eta: double(&v, "eta"),
        filename: text(&v, "filename"),
        fragment_index: v.get("fragment_index").and_then(|x| x.as_u64()),
        fragment_count: v.get("fragment_count").and_then(|x| x.as_u64()),
    })
}

fn read_info(json: &str) -> Result<InfoLine, String> {
    let v = read(json)?;
    Ok(InfoLine {
        id: text(&v, "id"),
        title: text(&v, "title"),
        duration: double(&v, "duration"),
        thumbnail: text(&v, "thumbnail"),
        webpage_url: text(&v, "webpage_url"),
        playlist_index: v.get("playlist_index").and_then(|x| x.as_i64()),
    })
}

fn parse_line(line: &str) -> Event {
    match classify_line(line) {
        Line::Progress(rest) => progress_event(&rest, read_progress(&payload(&rest))),
        Line::Info(rest) => info_event(&rest, read_info(&payload(&rest))),
        Line::File(path) => Event::File(path),
        Line::Log(line) => Event::Log(line),
    }
}

fn fraction(p: &Progress) -> Option<f32> {
    let (done, total) = p.measure()?;
    let total = match total {
        Total::Exact(n) => n as f64,
        Total::Estimate(d) => f64::from_bits(d.bits),
    };
    Some((done as f64 / total) as f32)
}

#[test]
fn golden_argv_for_a_typical_1080p_preset() {
    let opts = YtdlpOptions {
        format: FormatMode::BestVideoAudio,
        max_height: Some(1080),
        container: Some("mp4".into()),
        output_template: "%(title)s.%(ext)s".into(),
        download_dir: "D:/Videos".into(),
        subtitle_langs: vec!["en".into(), "pl".into()],
        embed_subs: true,
        embed_thumbnail: true,
        embed_metadata: true,
        sponsorblock_remove: Some("sponsor".into()),
        rate_limit: Some("2M".into()),
        concurrent_fragments: 4,
        cookies_from_browser: Some("firefox".into()),
        download_archive: true,
        retries: 10,
        extra_args: vec!["--no-mtime".into()],
    };

    assert_eq!(
        opts.to_args(),
        vec![
            "-f",
            "bv*[height<=1080]+ba/b[height<=1080]/bv*+ba/b",
            "--merge-output-format",
            "mp4",
            "-o",
            "%(title)s.%(ext)s",
            "-P",
            "D:/Videos",
            "--write-subs",
            "--sub-langs",
            "en,pl",
            "--embed-subs",
            "--embed-thumbnail",
            "--embed-metadata",
            "--sponsorblock-remove",
            "sponsor",
            "-r",
            "2M",
            "-N",
            "4",
            "--cookies-from-browser",
            "firefox",
            "--download-archive",
            "D:/Videos/archive.txt",
            "--retries",
            "10",
            "--no-mtime",
        ]
    );
}

#[test]
fn audio_only_preset_extracts_and_transcodes() {
    let opts = YtdlpOptions {
        format: FormatMode::AudioOnly {
            codec: "mp3".into(),
        },
        output_template: "%(title)s.%(ext)s".into(),
        ..Default::default()
    };
    let a = opts.to_args();
    assert!(a.windows(2).any(|w| w == ["-x", "--audio-format"]));
    assert!(a.contains(&"mp3".to_string()));
    // A max_height left set must not leak into an audio-only run.
    assert!(!a.iter().any(|x| x.contains("height")));
}

#[test]
fn an_audio_only_run_ignores_a_height() {
    let opts = |max_height| YtdlpOptions {
        format: FormatMode::AudioOnly {
            codec: "opus".into(),
        },
        max_height,
        ..Default::default()
    };
    assert_eq!(opts(Some(720)).to_args(), opts(None).to_args());
}

#[test]
fn defaults_emit_no_optional_flags() {
    let a = YtdlpOptions::default().to_args();
    for flag in [
        "--merge-output-format",
        "--write-subs",
        "--embed-thumbnail",
        "--embed-metadata",
        "--sponsorblock-remove",
        "-r",
        "-N",
        "--cookies-from-browser",
        "--download-archive",
        "-P",
    ] {
        assert!(!a.contains(&flag.to_string()), "{flag} leaked into defaults");
    }
}

#[test]
fn a_custom_selector_is_handed_on_as_it_is() {
    let opts = YtdlpOptions {
        format: FormatMode::Custom("worst".into()),
        max_height: Some(480),
        ..Default::default()
    };
    let a = opts.to_args();
    assert_eq!(a[..2], ["-f".to_string(), "worst".to_string()]);
    assert!(!a.iter().any(|x| x.contains("480")));
}

#[test]
fn every_run_ignores_the_users_global_config() {
    // Without this a stray ~/.config/yt-dlp/config silently overrides the
    // preset and the resulting bug is unreproducible from app state.
    let a = download_args("https://x/y", &YtdlpOptions::default());
    assert!(a.contains(&"--ignore-config".to_string()));
    assert!(a.contains(&"--encoding".to_string()));
    assert_eq!(a.last().unwrap(), "https://x/y");
    assert!(base_args().contains(&"--ignore-config".to_string()));
}

/// `--print` implies --quiet and --simulate, so dropping either counter-flag
/// silently turns every download into a no-op that still exits 0.
#[test]
fn print_flags_are_neutralised_so_downloads_actually_happen() {
    let a = download_args("https://x/y", &YtdlpOptions::default());
    assert!(a.contains(&"--print".to_string()), "test premise changed");
    assert!(
        a.contains(&"--no-simulate".to_string()),
        "--print implies --simulate; downloads would be skipped"
    );
    assert!(
        a.contains(&"--progress".to_string()),
        "--print implies --quiet; progress would be suppressed"
    );
}

#[test]
fn probe_is_flat_and_json() {
    let a = probe_args("https://x/list");
    assert!(a.contains(&"-J".to_string()));
    assert!(a.contains(&"--flat-playlist".to_string()));
}

#[test]
fn parses_a_real_progress_line() {
    let line = r#"RDLP_PROG {"status": "downloading", "downloaded_bytes": 5242880, "total_bytes": 20971520, "speed": 3145728.0, "eta": 5, "filename": "video.mp4", "fragment_index": null}"#;
    match parse_line(line) {
        Event::Progress(p) => {
            assert_eq!(p.downloaded_bytes, Some(5_242_880));
            assert_eq!(fraction(&p), Some(0.25));
            assert!(!p.is_finished());
        }
        other => panic!("expected Progress, got {other:?}"),
    }
}

#[test]
fn a_finished_transfer_says_so() {
    match parse_line("RDLP_PROG {\"status\":\"finished\"}\r\n") {
        Event::Progress(p) => assert!(p.is_finished()),
        other => panic!("expected Progress, got {other:?}"),
    }
}

#[test]
fn progress_without_a_known_size_has_no_fraction() {
    // Live streams report downloaded bytes but no total — must not render 100%.
    let line = r#"RDLP_PROG {"status":"downloading","downloaded_bytes":1024}"#;
    match parse_line(line) {
        Event::Progress(p) => assert_eq!(fraction(&p), None),
        other => panic!("expected Progress, got {other:?}"),
    }
}

#[test]
fn a_size_of_zero_is_no_known_size() {
    let line = r#"RDLP_PROG {"downloaded_bytes":10,"total_bytes":0,"total_bytes_estimate":-1.0}"#;
    match parse_line(line) {
        Event::Progress(p) => assert_eq!(p.measure(), None),
        other => panic!("expected Progress, got {other:?}"),
    }
}

#[test]
fn estimate_is_used_when_exact_total_is_absent() {
    let line = r#"RDLP_PROG {"downloaded_bytes":50,"total_bytes_estimate":200.0}"#;
    match parse_line(line) {
        Event::Progress(p) => assert_eq!(fraction(&p), Some(0.25)),
        other => panic!("expected Progress, got {other:?}"),
    }
}

#[test]
fn parses_info_and_file_lines() {
    let info =
        r#"RDLP_INFO {"id":"abc","title":"Zażółć gęślą","duration":212.5,"playlist_index":3}"#;
    match parse_line(info) {
        Event::Info(i) => {
            assert_eq!(i.title.as_deref(), Some("Zażółć gęślą"));
            assert_eq!(i.playlist_index, Some(3));
        }
        other => panic!("expected Info, got {other:?}"),
    }

    match parse_line(r"RDLP_FILE C:\dl\Zażółć.mp4") {
        Event::File(p) => assert_eq!(p, r"C:\dl\Zażółć.mp4"),
        other => panic!("expected File, got {other:?}"),
    }
}

#[test]
fn malformed_json_degrades_to_log_not_panic() {
    // A yt-dlp schema change must not abort a download that is otherwise fine.
    match parse_line("RDLP_PROG {not json") {
        Event::Log(m) => assert!(m.contains("unparsed progress")),
        other => panic!("expected Log, got {other:?}"),
    }
    match parse_line("[download] Destination: foo.mp4") {
        Event::Log(m) => assert!(m.starts_with("[download]")),
        other => panic!("expected Log, got {other:?}"),
    }
}

#[test]
fn an_unread_payload_is_quoted_whole() {
    let e = info_event(" {x", Err("bad".to_string()));
    assert_eq!(e, Event::Log("unparsed info (bad):  {x".to_string()));
}
