//! What the screens show.

use rustydlp::dialogs::Preview;
use rustydlp::library::{pane_at, travel, Pane, Travel};
use rustydlp::model::{File, FileKind, Item, Job, JobState, Preset};
use rustydlp::presets::Source;
use rustydlp::runner::{ConvertFormat, Probe};
use rustydlp::screens::{job_status_chip, library_tile, Note};
use rustydlp::session::{Live, ProbeState, Route, Session, SidebarTab, WindowAction};
use rustydlp::settings::{preset_editor, preset_summary, summary_with, Control, NO_UPDATE_YET};
use rustydlp::widget::{Action, Button, ButtonVariant, IconName};
use rustydlp::ytdlp::{Double, FormatMode, Single, YtdlpOptions};

fn double(v: f64) -> Double {
    Double { bits: v.to_bits() }
}

fn single(v: f32) -> Single {
    Single { bits: v.to_bits() }
}

fn labels(buttons: &[Button]) -> Vec<&str> {
    buttons.iter().filter_map(|b| b.label.as_deref()).collect()
}

fn video() -> Item {
    Item {
        id: "itm-1".to_string(),
        index: 0,
        title: "One".to_string(),
        duration: Some(double(3725.9)),
        thumb_path: Some("/dl/one.png".to_string()),
        webpage_url: "https://x/1".to_string(),
        files: vec![
            File {
                id: "f1".to_string(),
                path: "/dl/one.srt".to_string(),
                kind: FileKind::Subtitle,
                format_id: None,
                bytes: None,
            },
            File {
                id: "f2".to_string(),
                path: "/dl/one.mp4".to_string(),
                kind: FileKind::Video,
                format_id: None,
                bytes: Some(2048),
            },
        ],
    }
}

fn job(id: &str, state: JobState, at: i64) -> Job {
    let mut j = Job::new(id.to_string(), "https://x/y", "Best", at);
    j.title = format!("Job {id}");
    j.state = state;
    j
}

#[test]
fn the_navbar_follows_the_route_and_the_window() {
    let mut s = Session::new();
    let bar = s.navbar();
    assert_eq!(bar.tabs.segments()[0].label.as_str(), "Home");
    assert_eq!(bar.tabs.segments()[1].label.as_str(), "In Progress");
    assert_eq!(bar.buttons.len(), 6);
    assert!(!bar.buttons[2].selected);
    s.toggle_settings();
    s.set_window_maximized(true);
    let bar = s.navbar();
    assert!(bar.buttons[2].selected);
    assert_eq!(bar.buttons[4].icon, Some(IconName::Restore));
    assert_eq!(bar.buttons[5].action, Action::Window(WindowAction::Close));
    assert_eq!(s.window_controls().len(), 3);
}

#[test]
fn a_startup_error_is_shown_until_it_is_gone() {
    let mut s = Session::new();
    s.refresh_ytdlp(Err("yt-dlp not found".to_string()));
    let toast = s.startup_error_toast().unwrap();
    assert_eq!(toast.message, "yt-dlp not found");
    assert_eq!(labels(&toast.buttons), ["Open folder", "Re-check"]);
    s.refresh_ytdlp(Ok("/bin/yt-dlp".to_string()));
    assert!(s.startup_error_toast().is_none());
    s.library_dir_failed("/data", "denied");
    assert!(s.startup_error_toast().unwrap().message.contains("denied"));
    s.library_failed("locked");
    assert_eq!(s.startup_error.as_deref(), Some("could not open library: locked"));
}

#[test]
fn a_row_says_how_its_job_is_going() {
    let mut s = Session::new();
    let running = job("a", JobState::Running, 1);
    assert_eq!(s.job_row(&running).note, Note::Text("Starting…".to_string()));
    s.live.insert(
        "a".to_string(),
        Live {
            fraction: Some(single(1.5)),
            speed: Some(double(10.0)),
            eta: None,
            log: Vec::new(),
        },
    );
    let row = s.job_row(&running);
    assert_eq!(row.note, Note::Rate(double(10.0)));
    assert_eq!(row.progress, Some(single(1.0)), "a bar is never more than full");
    assert!(s.job_row(&job("b", JobState::Failed, 1)).failed);
    let queued = s.job_row(&job("b", JobState::Queued, 1));
    assert_eq!(queued.note, Note::Text("1 video".to_string()));
}

#[test]
fn the_in_progress_pane_says_so_where_it_is_empty() {
    let mut s = Session::new();
    assert_eq!(s.in_progress_pane().empty, Some(SidebarTab::InProgress.empty_message()));
    s.library_opened(vec![job("a", JobState::Queued, 1), job("b", JobState::Done, 2)], Vec::new());
    let pane = s.in_progress_pane();
    assert_eq!(pane.rows.len(), 1);
    assert_eq!(pane.rows[0].id, "a");
    assert!(pane.empty.is_none());
}

#[test]
fn the_library_has_a_tile_for_every_item_newest_first() {
    let mut s = Session::new();
    let mut old = job("old", JobState::Done, 1);
    let mut second = video();
    second.id = "itm-2".to_string();
    old.items = vec![video(), second];
    let jobs = vec![old, job("new", JobState::Failed, 9), job("busy", JobState::Running, 5)];
    s.library_opened(jobs, Vec::new());
    let tiles: Vec<(String, Option<String>)> = s
        .library()
        .iter()
        .map(|t| (t.job.id.clone(), t.item.map(|i| i.id.clone())))
        .collect();
    assert_eq!(
        tiles,
        vec![
            ("new".to_string(), None),
            ("old".to_string(), Some("itm-1".to_string())),
            ("old".to_string(), Some("itm-2".to_string())),
        ]
    );
}

#[test]
fn a_tile_tells_length_size_and_outcome() {
    let j = job("a", JobState::Done, 1);
    let item = video();
    let t = library_tile(&j, Some(&item), &[true, true]);
    assert_eq!(t.id, "tile-itm-1");
    assert_eq!(t.notes, vec![Note::Text("1:02:05".to_string()), Note::Size(2048)]);
    assert_eq!((t.chip, t.danger), ("Downloaded", false));
    assert_eq!(t.preview.as_deref(), Some("/dl/one.mp4"));
    let gone = library_tile(&j, Some(&item), &[true, false]);
    assert_eq!(gone.preview, None);
    let bare = library_tile(&job("b", JobState::Cancelled, 1), None, &[]);
    assert_eq!((bare.id.as_str(), bare.chip, bare.danger), ("tile-b", "Cancelled", true));
    let converted = Job::new_convert("c".to_string(), "/a", "mp3", 1);
    assert_eq!(job_status_chip(&converted), ("Converted", false));
}

#[test]
fn a_card_offers_what_its_job_can_do() {
    let s = Session::new();
    let item = video();
    let done = s.detail(&job("a", JobState::Done, 1), Some(&item), &[false, true]);
    assert_eq!(
        labels(&done.buttons),
        ["Open Externally", "Convert", "Show in folder", "Delete"]
    );
    assert_eq!(done.playable.as_deref(), Some("/dl/one.mp4"));
    assert_eq!(done.files[0].note, Note::Text("missing".to_string()));
    assert_eq!(done.files[1].note, Note::Size(2048));
    assert_eq!(done.facts[0].value, "done");
    let failed = s.detail(&job("a", JobState::Failed, 1), None, &[]);
    assert_eq!(labels(&failed.buttons), ["Retry", "Delete"]);
    let running = s.detail(&job("a", JobState::Running, 1), None, &[]);
    assert_eq!(labels(&running.buttons), ["Cancel"]);
    assert_eq!(running.buttons[0].variant, ButtonVariant::Danger);
}

#[test]
fn the_card_opens_at_the_chosen_item() {
    let mut s = Session::new();
    let mut j = job("a", JobState::Done, 1);
    let mut second = video();
    second.id = "itm-2".to_string();
    j.items = vec![video(), second];
    s.library_opened(vec![j], Vec::new());
    assert!(s.popover().is_none());
    s.open_job("a", Some("itm-2"));
    assert_eq!(s.popover().unwrap().item.unwrap().id, "itm-2");
    s.open_job("a", None);
    assert_eq!(s.popover().unwrap().item.unwrap().id, "itm-1");
    assert_eq!(s.popover_controls()[0].icon, Some(IconName::Maximize));
    s.toggle_fullscreen();
    assert_eq!(s.popover_controls()[0].icon, Some(IconName::Restore));
    s.open_job("nobody", None);
    assert!(s.popover().is_none());
}

#[test]
fn a_preset_is_summed_up_in_a_line() {
    let o = |format, max_height, container: Option<&str>| YtdlpOptions {
        format,
        max_height,
        container: container.map(|c| c.to_string()),
        ..Default::default()
    };
    let best = || FormatMode::BestVideoAudio;
    assert_eq!(preset_summary(&o(best(), Some(720), Some("mp4"))), "Up to 720p · mp4");
    assert_eq!(preset_summary(&o(best(), Some(720), None)), "Up to 720p");
    assert_eq!(preset_summary(&o(best(), None, Some("mkv"))), "Best quality · mkv");
    assert_eq!(preset_summary(&o(best(), None, None)), "Best video + audio");
    let audio = o(
        FormatMode::AudioOnly {
            codec: "m4a".to_string(),
        },
        None,
        None,
    );
    assert_eq!(preset_summary(&audio), "Audio only · M4A");
    assert_eq!(summary_with(&audio, "x"), "Audio only · x");
    let custom = o(FormatMode::Custom("worst".to_string()), None, None);
    assert_eq!(preset_summary(&custom), "Custom format selector");
}

#[test]
fn the_settings_list_presets_and_edit_one() {
    let mut s = Session::new();
    s.library_opened(Vec::new(), Preset::seeds("/dl"));
    let screen = s.settings();
    assert_eq!(screen.ytdlp, "Not found");
    assert_eq!(screen.status, NO_UPDATE_YET);
    assert_eq!(screen.presets.len(), 4);
    assert!(screen.editor.is_none());
    assert_eq!(screen.coming_soon, ["Minimize to tray on close", "Theme"]);
    let mp3 = s.presets.iter().find(|p| p.name == "MP3 audio").unwrap().clone();
    s.edit_preset(mp3);
    let screen = s.settings();
    assert!(screen.editor.is_some());
    let active: Vec<&str> =
        screen.presets.iter().filter(|p| p.active).map(|p| p.name.as_str()).collect();
    assert_eq!(active, ["MP3 audio"]);
}

#[test]
fn the_editor_shows_the_chosen_source_only() {
    let audio = Preset {
        name: "A".to_string(),
        is_default: true,
        options: YtdlpOptions {
            format: FormatMode::AudioOnly {
                codec: "mp3".to_string(),
            },
            ..Default::default()
        },
    };
    let editor = preset_editor(&audio);
    let mut selected = Vec::new();
    for section in &editor.sections {
        for row in &section.rows {
            for control in &row.controls {
                if let Control::Source(buttons) = control {
                    for b in buttons {
                        if b.selected {
                            selected.push(&b.action);
                        }
                    }
                }
            }
        }
    }
    assert_eq!(selected, [&Action::SetSource(Source::Audio)]);
    assert!(editor.default_switch.checked);
    assert_eq!(editor.default_switch.action, Action::SetDefault(false));
}

#[test]
fn the_dialog_tells_what_was_found() {
    let mut s = Session::new();
    s.library_opened(Vec::new(), Preset::seeds("/dl"));
    s.open_modal(Ok("/bin/yt-dlp".to_string()));
    assert!(s.overlays().modal);
    assert!(matches!(s.modal().preview, Preview::Nothing));
    let chosen: Vec<bool> = s.modal().presets.iter().map(|b| b.selected).collect();
    assert_eq!(chosen.iter().filter(|c| **c).count(), 1);
    let probe = |kind: Option<&str>, count: Option<i64>| Probe {
        kind: kind.map(|k| k.to_string()),
        id: None,
        title: Some("T".to_string()),
        duration: Some(double(65.0)),
        thumbnail: None,
        webpage_url: None,
        uploader: None,
        playlist_count: count,
        entries: None,
    };
    s.probe = ProbeState::Found(probe(None, None));
    match s.modal().preview {
        Preview::Found { title, about } => {
            assert_eq!((title.as_str(), about.as_str()), ("T", "Video · 1:05"))
        }
        other => panic!("expected a video, got {other:?}"),
    }
    s.probe = ProbeState::Found(probe(Some("playlist"), Some(12)));
    match s.modal().preview {
        Preview::Found { about, .. } => assert_eq!(about, "Playlist · 12 videos"),
        other => panic!("expected a playlist, got {other:?}"),
    }
    s.probe = ProbeState::Running;
    assert!(matches!(s.modal().preview, Preview::Note(t) if t == "Fetching info…"));
    s.probe = ProbeState::Failed("nope".to_string());
    assert!(matches!(s.modal().preview, Preview::Error(t) if t == "nope"));
    s.close_modal();
    assert!(!s.overlays().modal);
}

#[test]
fn a_file_to_convert_is_offered_every_format() {
    let mut s = Session::new();
    assert!(s.convert_format_picker().is_none());
    s.pick_convert_source(Some("/dl/a b.webm"));
    let picker = s.convert_format_picker().unwrap();
    assert_eq!(picker.file, "a b.webm");
    assert_eq!(picker.formats.len(), ConvertFormat::all().len());
    assert_eq!(
        picker.formats[0].action,
        Action::StartConvert {
            source: "/dl/a b.webm".to_string(),
            format: ConvertFormat::all()[0]
        }
    );
    s.pick_convert_source(None);
    assert!(!s.overlays().picker);
}

#[test]
fn going_back_from_settings_slides_the_other_way() {
    let mut s = Session::new();
    let home = s.pane_index();
    s.toggle_settings();
    let settings = s.pane_index();
    assert_eq!(travel(home, settings), Travel::Forward);
    assert_eq!(travel(settings, home), Travel::Backward);
    assert_eq!(pane_at(settings), Pane::Settings);
    assert_eq!(pane_at(home), Pane::Library);
}

/// The settings carry their own way back, which leads to the library.
#[test]
fn settings_has_a_back_button_left_of_its_title() {
    let mut s = Session::new();
    s.toggle_settings();
    assert_eq!(s.route, Route::Settings);
    let back = s.settings().back;
    assert_eq!(back.id, "settings-back");
    assert_eq!(back.icon, Some(IconName::ChevronLeft));
    assert_eq!(back.action, Action::LeaveSettings);
    s.leave_settings();
    assert_eq!(s.route, Route::Library, "and it goes back to the library");
}
