//! Jobs on their way: what is listed where, and what each event does.

use rustydlp::converting::{ConvertFailure, Converted};
use rustydlp::downloads::{
    default_options, JobEvent, LaunchStep, LAUNCH_BACKOFF_MS, LAUNCH_STAGGER_MS,
    MAX_LAUNCH_ATTEMPTS,
};
use rustydlp::library::{filter_jobs, ProbeOutcome, UpdateOutcome};
use rustydlp::model::{Job, JobKind, JobState, Preset};
use rustydlp::presets::{Source, Toggle};
use rustydlp::runner::{ConvertEvent, ConvertFormat, ConvertProgress, Probe};
use rustydlp::session::{
    is_active, is_retryable, state_after_failure, ProbeState, Route, Session, SidebarTab,
    WindowAction,
};
use rustydlp::ytdlp::{Double, FormatMode, InfoLine, Single, YtdlpOptions};

fn job_in(state: JobState) -> Job {
    let mut j = Job::new(format!("job-{state:?}"), "https://x/y", "default", 1);
    j.state = state;
    j
}

fn convert_job_in(state: JobState) -> Job {
    let mut j = Job::new_convert(format!("cnv-{state:?}"), "C:/dl/a.mkv", "mp4", 1);
    j.state = state;
    j
}

fn single(v: f32) -> Single {
    Single { bits: v.to_bits() }
}

fn double(v: f64) -> Double {
    Double { bits: v.to_bits() }
}

#[test]
fn home_lists_finished_jobs_of_either_kind() {
    let jobs = vec![
        job_in(JobState::Done),
        job_in(JobState::Running),
        convert_job_in(JobState::Done),
        convert_job_in(JobState::Running),
        job_in(JobState::Failed),
    ];

    let home = filter_jobs(&jobs, SidebarTab::Home);
    assert_eq!(home.len(), 3, "both kinds, but only what's no longer active");
    assert!(home.iter().any(|j| j.kind == JobKind::Download));
    assert!(home.iter().any(|j| j.kind == JobKind::Convert));
    assert!(!home.iter().any(|j| is_active(j.state)));
}

#[test]
fn in_progress_mixes_kinds_but_only_active_ones() {
    let jobs = vec![
        job_in(JobState::Running),
        job_in(JobState::Done),
        job_in(JobState::Queued),
        job_in(JobState::Failed),
        job_in(JobState::Probing),
        job_in(JobState::Cancelled),
        convert_job_in(JobState::Running),
        convert_job_in(JobState::Done),
    ];

    let active = filter_jobs(&jobs, SidebarTab::InProgress);
    assert_eq!(active.len(), 4, "queued/probing/running of either kind are in progress");
    for j in active {
        assert!(
            !matches!(
                j.state,
                JobState::Done | JobState::Failed | JobState::Cancelled
            ),
            "a terminal job leaked into In progress"
        );
    }
}

#[test]
fn tab_index_round_trips_and_defaults_to_home() {
    assert_eq!(SidebarTab::from_index(0), SidebarTab::Home);
    assert_eq!(SidebarTab::from_index(1), SidebarTab::InProgress);
    // TabBar could in principle hand back an out-of-range index.
    assert_eq!(SidebarTab::from_index(99), SidebarTab::Home);
    assert_eq!(SidebarTab::from_index(SidebarTab::InProgress.index()), SidebarTab::InProgress);
}

/// Cancelling kills the child, which makes yt-dlp exit non-zero, which the
/// event pump delivers as a failure. Without this rule every cancelled job
/// would immediately relabel itself "Failed" with a spurious error.
#[test]
fn cancelling_survives_the_failure_its_own_kill_causes() {
    assert_eq!(
        state_after_failure(JobState::Cancelled),
        JobState::Cancelled
    );
    assert_eq!(state_after_failure(JobState::Running), JobState::Failed);
    assert_eq!(state_after_failure(JobState::Queued), JobState::Failed);
}

#[test]
fn active_and_retryable_partition_the_states() {
    for s in [JobState::Queued, JobState::Probing, JobState::Running] {
        assert!(is_active(s), "{s:?} should be active");
        assert!(!is_retryable(s), "{s:?} is still working, not retryable");
    }
    for s in [JobState::Failed, JobState::Cancelled] {
        assert!(!is_active(s), "{s:?} should not be active");
        assert!(is_retryable(s), "{s:?} should be retryable");
    }
    // Done is neither: nothing to cancel, nothing to redo.
    assert!(!is_active(JobState::Done));
    assert!(!is_retryable(JobState::Done));
}

/// The sidebar filter and the Cancel button must agree on "in progress",
/// which is why both go through is_active.
#[test]
fn sidebar_filter_and_cancel_button_agree() {
    let jobs: Vec<Job> = [
        JobState::Queued,
        JobState::Probing,
        JobState::Running,
        JobState::Done,
        JobState::Failed,
        JobState::Cancelled,
    ]
    .into_iter()
    .map(job_in)
    .collect();

    for job in filter_jobs(&jobs, SidebarTab::InProgress) {
        assert!(
            is_active(job.state),
            "{:?} listed as in progress but has no Cancel button",
            job.state
        );
    }
}

#[test]
fn empty_message_differs_per_tab() {
    assert_eq!(SidebarTab::Home.empty_message(), "No downloads or conversions yet");
    assert_eq!(SidebarTab::InProgress.empty_message(), "Nothing in progress");
}

fn ready() -> Session {
    let mut s = Session::new();
    s.refresh_ytdlp(Ok("/bin/yt-dlp".to_string()));
    s.library_opened(Vec::new(), Preset::seeds("/dl"));
    s
}

fn started() -> Session {
    let mut s = ready();
    let a = s
        .start_download("  https://x/y ", "", "/dl", "job-1".to_string(), 7)
        .expect("accepted");
    assert!(a.start_launcher);
    assert_eq!(a.create_dir, "/dl");
    assert_eq!(a.save.url, "https://x/y");
    s.ensure_launcher();
    let p = s.launch_next().expect("queued");
    match s.launch(p, None) {
        LaunchStep::Wait { ms, save } => {
            assert_eq!(ms, LAUNCH_STAGGER_MS);
            assert_eq!(save.unwrap().state, JobState::Running);
        }
        other => panic!("expected a wait, got {other:?}"),
    }
    s
}

fn info(title: &str, page: &str) -> InfoLine {
    InfoLine {
        id: Some("v".to_string()),
        title: Some(title.to_string()),
        duration: Some(double(12.0)),
        thumbnail: None,
        webpage_url: Some(page.to_string()),
        playlist_index: None,
    }
}

#[test]
fn a_blank_address_or_a_missing_ytdlp_starts_nothing() {
    let mut s = ready();
    assert!(s.start_download("   ", "", "/dl", "j".to_string(), 1).is_none());
    s.refresh_ytdlp(Err("gone".to_string()));
    assert!(s.start_download("https://x", "", "/dl", "j".to_string(), 1).is_none());
    assert!(s.jobs.is_empty());
    assert_eq!(s.startup_error.as_deref(), Some("gone"));
}

#[test]
fn a_download_runs_with_the_chosen_preset_and_the_extra_flags() {
    let mut s = ready();
    s.choose_preset("MP3 audio");
    s.start_download("https://x/y", "--no-mtime --proxy p", "/dl", "job-1".to_string(), 7);
    assert_eq!(s.jobs[0].preset, "MP3 audio");
    let p = s.launch_next().unwrap();
    assert!(matches!(p.opts.format, FormatMode::AudioOnly { .. }));
    assert!(p.opts.extra_args.ends_with(&[
        "--no-mtime".to_string(),
        "--proxy".to_string(),
        "p".to_string()
    ]));
}

#[test]
fn without_presets_a_download_falls_back_to_1080p_mp4() {
    let o = default_options("/dl");
    assert_eq!(o.max_height, Some(1080));
    assert_eq!(o.container.as_deref(), Some("mp4"));
    assert_eq!(o.download_dir, "/dl");
    assert_eq!(
        YtdlpOptions {
            max_height: None,
            container: None,
            download_dir: String::new(),
            ..o
        },
        YtdlpOptions::default()
    );
}

#[test]
fn a_run_fills_in_its_job_event_by_event() {
    let mut s = started();
    s.apply_event(
        "job-1",
        JobEvent::Progress {
            fraction: Some(single(0.5)),
            speed: Some(double(10.0)),
            eta: None,
        },
    );
    // A report without a size keeps the bar where it was.
    s.apply_event(
        "job-1",
        JobEvent::Progress {
            fraction: None,
            speed: None,
            eta: None,
        },
    );
    assert_eq!(s.live.get("job-1").unwrap().fraction, Some(single(0.5)));
    assert_eq!(s.live.get("job-1").unwrap().speed, None);

    for _ in 0..2 {
        s.apply_event(
            "job-1",
            JobEvent::Info {
                info: info("A title", "https://x/y"),
                item_id: "itm-1".to_string(),
            },
        );
    }
    assert_eq!(s.jobs[0].title, "A title");
    assert_eq!(s.jobs[0].items.len(), 1, "a page reported twice is one item");
    s.apply_event(
        "job-1",
        JobEvent::Info {
            info: info("A better title", "https://x/y"),
            item_id: "itm-2".to_string(),
        },
    );
    let item = &s.jobs[0].items[0];
    assert_eq!(s.jobs[0].items.len(), 1, "it is brought up to date in place");
    assert_eq!((item.id.as_str(), item.title.as_str()), ("itm-1", "A better title"));

    for n in 0..2 {
        s.apply_event(
            "job-1",
            JobEvent::File {
                path: "/dl/a.MP4".to_string(),
                bytes: Some(5),
                thumb: Some("/dl/a.png".to_string()),
                file_id: format!("fil-{n}"),
                thumb_id: format!("thb-{n}"),
            },
        );
    }
    let item = &s.jobs[0].items[0];
    assert_eq!(item.files.len(), 2, "the file and its cover, once each");
    assert_eq!(item.thumb_path.as_deref(), Some("/dl/a.png"));

    let (ended, save) = s.apply_event("job-1", JobEvent::Log("RDLP_EXIT ok".to_string()));
    assert!(ended && save.is_none());
    let done = s.finish_job("job-1").unwrap();
    assert_eq!(done.state, JobState::Done);
}

#[test]
fn a_failed_run_is_explained_by_its_last_lines() {
    let mut s = started();
    for line in ["one", "two", "three", "four"] {
        s.apply_event("job-1", JobEvent::Log(line.to_string()));
    }
    let (ended, save) = s.apply_event("job-1", JobEvent::Log("RDLP_EXIT fail 1".to_string()));
    assert!(ended);
    let job = save.unwrap();
    assert_eq!(job.state, JobState::Failed);
    assert_eq!(job.error.as_deref(), Some("yt-dlp exited 1: four | three | two"));
    // The stream's end does not turn a failure into a success.
    s.finish_job("job-1");
    assert_eq!(s.jobs[0].state, JobState::Failed);
}

#[test]
fn a_cancelled_run_stays_cancelled_through_its_kill() {
    let mut s = started();
    let (save, kill) = s.cancel_job("job-1");
    assert!(kill);
    assert_eq!(save.unwrap().state, JobState::Cancelled);
    s.apply_event("job-1", JobEvent::Log("RDLP_EXIT fail -1".to_string()));
    s.finish_job("job-1");
    assert_eq!(s.jobs[0].state, JobState::Cancelled);
}

#[test]
fn a_log_keeps_its_newer_half() {
    let mut s = started();
    for n in 0..201 {
        s.apply_event("job-1", JobEvent::Log(format!("{n}")));
    }
    let log = &s.live.get("job-1").unwrap().log;
    assert_eq!(log.len(), 101);
    assert_eq!(log[0], "100");
    assert_eq!(log[100], "200");
}

#[test]
fn a_launch_that_keeps_failing_backs_off_and_gives_up() {
    let mut s = ready();
    s.start_download("https://x/y", "", "/dl", "job-1".to_string(), 7);
    for attempt in 1..MAX_LAUNCH_ATTEMPTS as u64 {
        let p = s.launch_next().unwrap();
        match s.launch(p, Some("no handles".to_string())) {
            LaunchStep::Wait { ms, save } => {
                assert_eq!(ms, LAUNCH_BACKOFF_MS * attempt);
                assert!(save.is_none());
            }
            other => panic!("expected a wait, got {other:?}"),
        }
    }
    let p = s.launch_next().unwrap();
    match s.launch(p, Some("no handles".to_string())) {
        LaunchStep::Next { save } => {
            let job = save.unwrap();
            assert_eq!(job.state, JobState::Failed);
            assert_eq!(
                job.error.as_deref(),
                Some("could not start yt-dlp after retries: no handles")
            );
        }
        other => panic!("expected to go on, got {other:?}"),
    }
    assert!(s.launch_next().is_none());
    assert!(!s.launcher_active);
}

#[test]
fn a_launch_that_failed_waits_behind_the_others() {
    let mut s = ready();
    s.start_download("https://x/1", "", "/dl", "job-1".to_string(), 1);
    s.start_download("https://x/2", "", "/dl", "job-2".to_string(), 2);
    let p = s.launch_next().unwrap();
    assert_eq!(p.job_id, "job-1");
    s.launch(p, Some("busy".to_string()));
    assert_eq!(s.launch_next().unwrap().job_id, "job-2");
    assert_eq!(s.launch_next().unwrap().job_id, "job-1");
}

#[test]
fn cancelling_a_queued_job_takes_it_out_of_the_queue() {
    let mut s = ready();
    s.start_download("https://x/1", "", "/dl", "job-1".to_string(), 1);
    let (save, kill) = s.cancel_job("job-1");
    assert!(!kill, "nothing runs yet");
    assert_eq!(save.unwrap().state, JobState::Cancelled);
    assert!(s.launch_next().is_none());
}

#[test]
fn a_failed_job_is_queued_again() {
    let mut s = started();
    s.fail_job("job-1", "broken".to_string());
    let again = s.retry_job("job-1", "/dl").unwrap();
    assert_eq!(again.save.state, JobState::Queued);
    assert!(again.save.error.is_none());
    assert_eq!(s.launch_next().unwrap().url, "https://x/y");
    assert!(s.retry_job("nobody", "/dl").is_none());
}

#[test]
fn a_deleted_job_is_gone_from_every_list() {
    let mut s = started();
    s.open_job("job-1", None);
    s.delete_job("job-1");
    assert!(s.jobs.is_empty());
    assert!(s.selected.is_none());
}

#[test]
fn an_edit_overtakes_the_probe_before_it() {
    let mut s = ready();
    let first = s.schedule_probe("https://x/1").unwrap();
    let second = s.schedule_probe(" https://x/12 ").unwrap();
    assert!(!s.probe_due(first));
    assert!(s.probe_due(second));
    s.probe_done(first, ProbeOutcome::Failed("late".to_string()));
    assert!(matches!(s.probe, ProbeState::Running));
    s.probe_done(second, ProbeOutcome::Cancelled);
    match &s.probe {
        ProbeState::Failed(e) => assert_eq!(e, "probe cancelled"),
        other => panic!("expected a failure, got {other:?}"),
    }
    assert_eq!(s.schedule_probe("ftp"), None);
    assert!(matches!(s.probe, ProbeState::Idle));
}

#[test]
fn a_probe_that_answers_is_shown() {
    let mut s = ready();
    let g = s.schedule_probe("https://x/1").unwrap();
    assert!(s.probe_due(g));
    let p = Probe {
        kind: None,
        id: None,
        title: Some("T".to_string()),
        duration: None,
        thumbnail: None,
        webpage_url: None,
        uploader: None,
        playlist_count: None,
        entries: None,
    };
    s.probe_done(g, ProbeOutcome::Found(p));
    assert!(matches!(&s.probe, ProbeState::Found(p) if p.title.as_deref() == Some("T")));
}

#[test]
fn the_default_preset_is_offered_first() {
    let s = ready();
    assert_eq!(s.chosen_preset.as_deref(), Some("Best (1080p mp4)"));
}

#[test]
fn an_update_tells_how_it_went() {
    let mut s = ready();
    assert_eq!(s.begin_update().as_deref(), Some("/bin/yt-dlp"));
    s.update_done(UpdateOutcome::Failed("no net".to_string()), Ok("/bin/yt-dlp".to_string()));
    assert_eq!(s.update_status.as_deref(), Some("Update failed: no net"));
    s.update_done(UpdateOutcome::Cancelled, Ok("/b".to_string()));
    assert_eq!(s.update_status.as_deref(), Some("Update task cancelled"));
    s.update_done(UpdateOutcome::Told("up to date".to_string()), Ok("/b".to_string()));
    assert_eq!(s.update_status.as_deref(), Some("up to date"));
    assert_eq!(s.ytdlp.as_deref(), Some("/b"));
}

#[test]
fn navigation_closes_the_card() {
    let mut s = started();
    s.open_job("job-1", Some("itm-1"));
    assert!(s.switch_tab(1));
    assert_eq!(s.tab, SidebarTab::InProgress);
    assert!(s.selected.is_none() && s.open_item.is_none());
    assert!(!s.toggle_settings());
    assert_eq!(s.route, Route::Settings);
    s.leave_settings();
    assert_eq!((s.route, s.tab), (Route::Library, SidebarTab::InProgress));
}

#[test]
fn a_caption_button_is_answered_once() {
    let mut s = ready();
    s.ask_window(WindowAction::Close);
    assert_eq!(s.take_window_action(), Some(WindowAction::Close));
    assert_eq!(s.take_window_action(), None);
}

#[test]
fn a_conversion_runs_to_a_file_of_its_own() {
    let mut s = ready();
    let job = s.begin_convert("/v/a.webm", ConvertFormat::Mp3Audio, "cnv-1".to_string(), 3);
    assert_eq!(job.kind, JobKind::Convert);
    assert_eq!(s.convert_launched("cnv-1").unwrap().state, JobState::Running);
    s.apply_convert_event(
        "cnv-1",
        Some(double(10.0)),
        single(0.25),
        ConvertEvent::Progress(ConvertProgress {
            out_time_secs: Some(double(2.5)),
            speed: Some(double(1.5)),
        }),
    );
    assert_eq!(s.live.get("cnv-1").unwrap().fraction, Some(single(0.25)));
    let done = s
        .finish_convert(
            "cnv-1",
            Converted {
                path: "/v/a [mp3].mp3".to_string(),
                bytes: Some(9),
                item_id: "itm".to_string(),
                file_id: "fil".to_string(),
            },
        )
        .unwrap();
    assert_eq!(done.state, JobState::Done);
    assert_eq!(done.items[0].files[0].path, "/v/a [mp3].mp3");
}

#[test]
fn a_conversion_that_cannot_start_fails_with_its_reason() {
    let mut s = ready();
    s.begin_convert("/v/a.webm", ConvertFormat::Mp3Audio, "cnv-1".to_string(), 3);
    let job = s
        .convert_failed("cnv-1", ConvertFailure::Unavailable("no ffmpeg".to_string()))
        .unwrap();
    assert_eq!(job.state, JobState::Failed);
    assert!(job.error.unwrap().contains("no ffmpeg"));
    s.begin_convert("/v/b.webm", ConvertFormat::Mp3Audio, "cnv-2".to_string(), 3);
    let job = s
        .convert_failed("cnv-2", ConvertFailure::NotStarted("denied".to_string()))
        .unwrap();
    assert!(job.error.unwrap().contains("denied"));
}

#[test]
fn an_edited_preset_is_saved_under_its_new_name() {
    let mut s = ready();
    let preset = s.presets.iter().find(|p| p.name == "MP3 audio").unwrap().clone();
    let mut form = s.edit_preset(preset);
    form.name = " Podcast ".to_string();
    form.max_height = "720".to_string();
    form.subs = "en, pl".to_string();
    let saved = s.save_editing(&form).unwrap();
    assert_eq!(saved.delete.as_deref(), Some("MP3 audio"));
    assert_eq!(saved.save.name, "Podcast");
    assert_eq!(saved.save.options.max_height, Some(720));
    assert_eq!(saved.save.options.subtitle_langs, ["en", "pl"]);
    assert!(s.presets.iter().any(|p| p.name == "Podcast"));
    assert!(!s.presets.iter().any(|p| p.name == "MP3 audio"));
    let names: Vec<&String> = s.presets.iter().map(|p| &p.name).collect();
    assert!(names.windows(2).all(|w| w[0] <= w[1]), "listed by name");
}

#[test]
fn a_preset_needs_a_name() {
    let mut s = ready();
    let mut form = s.new_preset("/dl");
    form.name = "  ".to_string();
    assert!(s.save_editing(&form).is_none());
    assert!(s.editing.is_some());
}

#[test]
fn a_new_default_preset_demotes_the_old_one() {
    let mut s = ready();
    let preset = s.presets.iter().find(|p| p.name == "MP3 audio").unwrap().clone();
    let form = s.edit_preset(preset);
    s.set_editing_default(true);
    s.save_editing(&form);
    let defaults: Vec<&str> =
        s.presets.iter().filter(|p| p.is_default).map(|p| p.name.as_str()).collect();
    assert_eq!(defaults, ["MP3 audio"]);
}

#[test]
fn switches_and_sources_edit_the_open_preset() {
    let mut s = ready();
    let form = s.new_preset("/dl");
    assert_eq!(form.dir, "/dl");
    s.set_toggle(Toggle::EmbedSubs, true);
    s.set_source(Source::Audio);
    let o = &s.editing.as_ref().unwrap().options;
    assert!(o.embed_subs && Toggle::EmbedSubs.read(o));
    assert_eq!(Source::of_format(&o.format), Source::Audio);
}

#[test]
fn a_deleted_preset_is_gone() {
    let mut s = ready();
    let preset = s.presets.iter().find(|p| p.name == "MP3 audio").unwrap().clone();
    s.edit_preset(preset);
    assert_eq!(s.delete_editing().as_deref(), Some("MP3 audio"));
    assert!(!s.presets.iter().any(|p| p.name == "MP3 audio"));
    assert!(s.editing.is_none());
}
