//! Finding the external tools and reading what they print.

use serde_json::Value;

use rustydlp::runner::{
    convert_args, convert_output_path, exe_name, exit_line, ffmpeg_path, ffprobe_path,
    listing_text, missing_ytdlp_text, probe_failure_text, progress_key, resolve, sort_names,
    tail_text, update_result, which_on_path, ConvertFormat, ConvertProgress, ConvertStep, Exit,
    MissingYtdlp, Place, Probe, ProbeEntry, ProgressKey, SearchPlaces, Thumbnail, EXIT_FAIL_PREFIX,
    EXIT_OK,
};
use rustydlp::ytdlp::Double;

fn place(path: &str, is_file: bool) -> Place {
    Place {
        path: path.to_string(),
        is_file,
    }
}

fn nowhere() -> SearchPlaces {
    SearchPlaces {
        portable: None,
        bundled: place("/data/rustydlp/bin/yt-dlp", false),
        on_path: vec![place("/usr/bin/yt-dlp", false)],
    }
}

fn text(v: &Value, key: &str) -> Option<String> {
    v.get(key).and_then(|x| x.as_str()).map(|x| x.to_string())
}

fn double(v: &Value, key: &str) -> Option<Double> {
    v.get(key)
        .and_then(|x| x.as_f64())
        .map(|x| Double { bits: x.to_bits() })
}

fn read_probe(json: &str) -> Probe {
    let v: Value = serde_json::from_str(json).unwrap();
    let entries = v.get("entries").and_then(|e| e.as_array()).map(|list| {
        list.iter()
            .map(|e| ProbeEntry {
                id: text(e, "id"),
                title: text(e, "title"),
                duration: double(e, "duration"),
                url: text(e, "url"),
                thumbnails: e.get("thumbnails").and_then(|t| t.as_array()).map(|t| {
                    t.iter().map(|t| Thumbnail { url: text(t, "url") }).collect()
                }),
            })
            .collect()
    });
    Probe {
        kind: text(&v, "_type"),
        id: text(&v, "id"),
        title: text(&v, "title"),
        duration: double(&v, "duration"),
        thumbnail: text(&v, "thumbnail"),
        webpage_url: text(&v, "webpage_url"),
        uploader: text(&v, "uploader"),
        playlist_count: v.get("playlist_count").and_then(|x| x.as_i64()),
        entries,
    }
}

#[test]
fn resolve_prefers_an_explicit_override() {
    let me = place("/opt/mine/yt-dlp", true);
    let at = SearchPlaces {
        portable: Some(place("/app/yt-dlp", true)),
        bundled: place("/data/yt-dlp", true),
        on_path: vec![place("/usr/bin/yt-dlp", true)],
    };
    assert_eq!(resolve(Some(&me), &at), Some("/opt/mine/yt-dlp".to_string()));
}

#[test]
fn resolve_ignores_an_override_that_does_not_exist() {
    let bogus = place("Z:/definitely/not/here/yt-dlp.exe", false);
    // Falls through to the bundled dir or PATH rather than returning bogus.
    assert_ne!(
        resolve(Some(&bogus), &nowhere()),
        Some("Z:/definitely/not/here/yt-dlp.exe".to_string())
    );
    let mut at = nowhere();
    at.bundled.is_file = true;
    assert_eq!(
        resolve(Some(&bogus), &at),
        Some("/data/rustydlp/bin/yt-dlp".to_string())
    );
}

#[test]
fn a_portable_copy_wins_over_an_installed_one() {
    let mut at = nowhere();
    at.portable = Some(place("/app/yt-dlp", true));
    at.bundled.is_file = true;
    assert_eq!(resolve(None, &at), Some("/app/yt-dlp".to_string()));
}

#[test]
fn the_search_path_comes_last_and_in_its_order() {
    let mut at = nowhere();
    at.on_path = vec![
        place("/a/yt-dlp", false),
        place("/b/yt-dlp", true),
        place("/c/yt-dlp", true),
    ];
    assert_eq!(resolve(None, &at), Some("/b/yt-dlp".to_string()));
    assert_eq!(which_on_path(&at.on_path), Some("/b/yt-dlp".to_string()));
    assert_eq!(resolve(None, &nowhere()), None);
}

#[test]
fn executables_have_a_suffix_on_windows_only() {
    assert_eq!(exe_name("yt-dlp", true), "yt-dlp.exe");
    assert_eq!(exe_name("yt-dlp", false), "yt-dlp");
}

#[test]
fn a_missing_tool_is_named() {
    assert_eq!(
        ffmpeg_path(None),
        Err("ffmpeg not found in bin dir, next to the exe, or on PATH".to_string())
    );
    assert_eq!(
        ffprobe_path(None),
        Err("ffprobe not found in bin dir, next to the exe, or on PATH".to_string())
    );
    assert_eq!(ffmpeg_path(Some("/f".to_string())), Ok("/f".to_string()));
    assert_eq!(ffprobe_path(Some("/p".to_string())), Ok("/p".to_string()));
}

#[test]
fn a_missing_ytdlp_is_explained_by_what_was_there() {
    let listing = listing_text(vec!["b.exe".to_string(), "a.exe".to_string()]);
    let t = missing_ytdlp_text(&MissingYtdlp {
        bundled: "C:/bin/yt-dlp.exe".to_string(),
        exists: true,
        is_file: false,
        listing: listing.clone(),
        portable: "C:/app".to_string(),
        known_folder: "C:/known".to_string(),
        env_local: "C:/env".to_string(),
    });
    assert!(t.contains("C:/bin/yt-dlp.exe"));
    assert!(t.contains(&listing));
    assert!(t.contains("C:/known") && t.contains("C:/env") && t.contains("C:/app"));
    assert!(listing.find("a.exe").unwrap() < listing.find("b.exe").unwrap());
}

#[test]
fn names_are_sorted_by_their_characters() {
    let v = |a: &[&str]| a.iter().map(|x| x.to_string()).collect::<Vec<_>>();
    assert_eq!(sort_names(v(&["b", "a", "B", "ab"])), v(&["B", "a", "ab", "b"]));
}

#[test]
fn probe_json_classifies_single_video_and_playlist() {
    let single = read_probe(r#"{"_type":"video","id":"a","title":"One","duration":635.0}"#);
    assert!(!single.is_playlist());
    assert_eq!(single.item_count(), 1);

    let list = read_probe(
        r#"{"_type":"playlist","title":"Mix","entries":[
                 {"id":"a","title":"1"},{"id":"b","title":"2"},{"id":"c","title":"3"}]}"#,
    );
    assert!(list.is_playlist());
    assert_eq!(list.item_count(), 3);
}

/// Real yt-dlp output omits keys entirely rather than sending nulls; every
/// field must therefore be optional.
#[test]
fn probe_tolerates_a_sparse_payload() {
    let p = read_probe(r#"{"id":"x"}"#);
    assert_eq!(p.item_count(), 1);
    assert!(p.title.is_none());
}

#[test]
fn a_playlist_without_entries_counts_what_it_announces() {
    let p = read_probe(r#"{"_type":"playlist","playlist_count":42}"#);
    assert!(p.is_playlist());
    assert_eq!(p.item_count(), 42);
}

#[test]
fn only_the_end_of_a_log_is_quoted_newest_first() {
    let log: Vec<String> = (0..40).map(|i| format!("line {i}")).collect();
    assert_eq!(tail_text(&log), "line 39 | line 38 | line 37");
    assert_eq!(tail_text(&vec!["only".to_string()]), "only");
    assert_eq!(tail_text(&Vec::new()), "");
}

#[test]
fn a_failed_probe_says_why() {
    assert_eq!(
        probe_failure_text("WARNING: x\nERROR: no such video\n"),
        "yt-dlp probe failed: ERROR: no such video | WARNING: x"
    );
}

#[test]
fn an_update_reports_its_last_word() {
    assert_eq!(
        update_result("Current version\nyt-dlp is up to date\n\n", "", true),
        Ok("yt-dlp is up to date".to_string())
    );
    assert_eq!(
        update_result("", "ERROR: unable to write\n", false),
        Err("ERROR: unable to write".to_string())
    );
    assert_eq!(update_result("", " \n", true), Ok("yt-dlp reported nothing".to_string()));
}

#[test]
fn the_end_of_a_run_is_a_line_of_its_own() {
    assert_eq!(exit_line(Exit::Success), EXIT_OK);
    assert_eq!(exit_line(Exit::Failure(Some(101))), format!("{EXIT_FAIL_PREFIX}101"));
    assert_eq!(exit_line(Exit::Failure(None)), format!("{EXIT_FAIL_PREFIX}-1"));
    assert_eq!(exit_line(Exit::Unknown), format!("{EXIT_FAIL_PREFIX}unknown"));
    for exit in [Exit::Failure(None), Exit::Unknown] {
        assert!(exit_line(exit).starts_with(EXIT_FAIL_PREFIX));
        assert_ne!(exit_line(exit), EXIT_OK);
    }
}

#[test]
fn a_format_comes_back_from_its_name() {
    for f in ConvertFormat::all() {
        assert_eq!(ConvertFormat::parse(f.as_str()), f);
        assert!(!f.label().is_empty());
    }
    assert_eq!(ConvertFormat::parse("nonsense"), ConvertFormat::Mp4H264Aac);
}

#[test]
fn a_converted_file_stands_beside_its_source() {
    assert_eq!(
        convert_output_path("/videos/a.webm", ConvertFormat::Mp3Audio, false),
        "/videos/a [mp3].mp3"
    );
    assert_eq!(
        convert_output_path("..", ConvertFormat::MkvH264Aac, false),
        "../converted [mkv].mkv"
    );
    for f in ConvertFormat::all() {
        let source = format!("/videos/a.{}", f.extension());
        assert_ne!(convert_output_path(&source, f, false), source);
        assert_ne!(convert_output_path(&source, f, true), source);
    }
}

#[test]
fn a_conversion_reads_its_source_and_reports_progress() {
    let a = convert_args("/v/a.webm", ConvertFormat::Mp3Audio, false);
    assert!(a.windows(2).any(|w| w == ["-i", "/v/a.webm"]));
    assert!(a.windows(2).any(|w| w == ["-progress", "pipe:1"]));
    assert_eq!(
        a.last().unwrap(),
        &convert_output_path("/v/a.webm", ConvertFormat::Mp3Audio, false)
    );
    let codec = ConvertFormat::Mp3Audio.ffmpeg_codec_args();
    assert!(a.windows(codec.len()).any(|w| w == codec));
}

#[test]
fn conversion_progress_is_gathered_until_its_report() {
    let mut p = ConvertProgress::start();
    let two = Double {
        bits: 2.0f64.to_bits(),
    };
    let key = progress_key("out_time_ms=2000000");
    assert!(matches!(key, ProgressKey::OutTime(_)));
    assert_eq!(p.take_in(&key, Some(two)), ConvertStep::Continue);
    assert_eq!(
        p.take_in(&progress_key("frame=1"), None),
        ConvertStep::Continue
    );
    assert!(matches!(progress_key("speed=1.5x"), ProgressKey::Speed(_)));
    assert_eq!(
        p.take_in(&progress_key("progress=continue"), None),
        ConvertStep::Emit(ConvertProgress {
            out_time_secs: Some(two),
            speed: None
        })
    );
    assert!(matches!(
        p.take_in(&progress_key("progress=end"), None),
        ConvertStep::EmitLast(_)
    ));
}

/// The output stands where the system's own paths would put it.
#[test]
fn a_converted_file_follows_the_system() {
    let mp3 = ConvertFormat::Mp3Audio;
    for source in ["/v/a.webm", "/v//a.webm", "a.webm", "./a.webm", "/", "", "..", "/v/./a", "a\\"] {
        let path = std::path::Path::new(source);
        let stem = path.file_stem().map_or("converted".to_string(), |s| {
            s.to_string_lossy().to_string()
        });
        let wanted = path.with_file_name(format!("{stem} [mp3].mp3"));
        assert_eq!(
            convert_output_path(source, mp3, std::path::MAIN_SEPARATOR == '\\'),
            wanted.to_string_lossy(),
            "{source}"
        );
    }
    assert_eq!(convert_output_path("a\\", mp3, false), "a\\ [mp3].mp3");
    for (source, output) in [
        ("C:", "C:converted [mp3].mp3"),
        ("C:\\", "C:\\converted [mp3].mp3"),
        ("C:a.webm", "C:a [mp3].mp3"),
        ("C:\\v\\a.webm", "C:\\v\\a [mp3].mp3"),
        ("C:/v/a.webm", "C:/v\\a [mp3].mp3"),
        ("v\\", "v [mp3].mp3"),
    ] {
        assert_eq!(convert_output_path(source, mp3, true), output, "{source}");
    }
}
