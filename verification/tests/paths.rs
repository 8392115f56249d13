//! Paths, covers and identifiers.

use std::collections::HashSet;

use rustydlp::model::{
    now_secs, FileKind, IdSource, Job, JobKind, JobState, Preset,
};
use rustydlp::paths::{
    classify, cover_candidates, file_name, select_arg, sibling_thumbnail, split, stem,
};

/// The cover beside a file, given which files there are.
fn cover(files: &HashSet<String>, media: &str) -> Option<String> {
    let candidates = cover_candidates(media, false);
    let present: Vec<bool> = candidates.iter().map(|c| files.contains(c)).collect();
    sibling_thumbnail(&candidates, &present)
}

/// `after_move` reports only the video file, so the cover has to be located
/// by stem. png must win over webp: this build can only decode the former.
#[test]
fn sibling_thumbnail_finds_the_cover_by_stem() {
    let mut files = HashSet::new();
    let video = "/dl/Some Video [abc123].mp4";
    files.insert(video.to_string());

    // No cover on disk yet.
    assert_eq!(cover(&files, video), None);

    // A leftover .webp alone (conversion failed or was skipped) is still found.
    let webp = "/dl/Some Video [abc123].webp";
    files.insert(webp.to_string());
    assert_eq!(cover(&files, video), Some(webp.to_string()));

    // With both present, the decodable png wins.
    let png = "/dl/Some Video [abc123].png";
    files.insert(png.to_string());
    assert_eq!(cover(&files, video), Some(png.to_string()));

    // A different video in the same folder must not borrow this cover.
    let other = "/dl/Other.mp4";
    files.insert(other.to_string());
    assert_eq!(cover(&files, other), None);
}

#[test]
fn reveal_path_quotes_only_the_path_not_the_select_flag() {
    let arg = select_arg("C:/Users/matis/Videos/Some Title [abc123].mp4");
    assert_eq!(arg, "/select,\"C:\\Users\\matis\\Videos\\Some Title [abc123].mp4\"");
    assert!(arg.starts_with("/select,\""), "the flag itself must stay unquoted: {arg}");
}

#[test]
fn a_path_falls_apart_at_its_last_separator() {
    assert_eq!(split("/a/b/c.mp4", false), ("/a/b/".to_string(), Some("c.mp4".to_string())));
    assert_eq!(split("/a//b/", false), ("/a/".to_string(), Some("b".to_string())));
    assert_eq!(split(r"C:b\c", false), (String::new(), Some(r"C:b\c".to_string())));
    assert_eq!(split(r"C:b\c", true), (r"C:b\".to_string(), Some("c".to_string())));
    assert_eq!(split("C:", true), ("C:".to_string(), None));
    assert_eq!(file_name(r"C:\a\b.txt"), "b.txt");
    assert_eq!(stem("a.b.mp4"), "a.b");
    assert_eq!(stem(".hidden"), ".hidden");
}

#[test]
fn a_file_is_classified_by_its_extension_in_any_case() {
    assert_eq!(classify("/v/A.MP4"), FileKind::Video);
    assert_eq!(classify("/v/a.Mp3"), FileKind::Audio);
    assert_eq!(classify("/v/a.en.VTT"), FileKind::Subtitle);
    assert_eq!(classify("/v/a.PNG"), FileKind::Thumbnail);
    assert_eq!(classify("/v/a.info.json"), FileKind::Info);
}

#[test]
fn identifiers_are_distinct_and_sort_by_their_time() {
    let mut ids = IdSource::new();
    let a = ids.next_id("job", 5);
    let b = ids.next_id("job", 5);
    let c = ids.next_id("job", 6);
    assert!(a.starts_with("job"));
    assert!(a != b && b != c && a != c);
    assert!(a < c && b < c);
}

#[test]
fn a_clock_before_the_epoch_reads_zero() {
    assert_eq!(now_secs(None), 0);
    assert_eq!(now_secs(Some(7)), 7);
}

#[test]
fn names_of_states_and_kinds_come_back() {
    for s in [
        JobState::Queued,
        JobState::Probing,
        JobState::Running,
        JobState::Done,
        JobState::Failed,
        JobState::Cancelled,
    ] {
        assert_eq!(JobState::parse(s.as_str()), s);
    }
    for k in [
        FileKind::Video,
        FileKind::Audio,
        FileKind::Subtitle,
        FileKind::Thumbnail,
        FileKind::Info,
    ] {
        assert_eq!(FileKind::parse(k.as_str()), k);
    }
    for k in [JobKind::Download, JobKind::Convert] {
        assert_eq!(JobKind::parse(k.as_str()), k);
    }
    assert_eq!(JobState::parse("?"), JobState::Failed);
}

#[test]
fn a_new_job_is_queued_under_its_address() {
    let j = Job::new("job-1".to_string(), "https://x/y", "Best", 9);
    assert_eq!(j.state, JobState::Queued);
    assert_eq!(j.kind, JobKind::Download);
    assert_eq!((j.url.as_str(), j.title.as_str()), ("https://x/y", ""));
    assert_eq!(j.created_at, 9);
    assert!(j.items.is_empty() && j.error.is_none());
    let c = Job::new_convert("job-2".to_string(), "/v/a.mp4", "mp3", 9);
    assert_eq!(c.kind, JobKind::Convert);
}

#[test]
fn exactly_one_seeded_preset_is_the_default() {
    let seeds = Preset::seeds("/dl");
    assert!(seeds.len() > 1);
    assert_eq!(seeds.iter().filter(|p| p.is_default).count(), 1);
    assert!(seeds.iter().all(|p| p.options.download_dir == "/dl"));
}
