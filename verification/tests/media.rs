//! What a file is, and how it is played.

use std::collections::VecDeque;

use serde_json::Value;

use rustydlp::anim::Animator;
use rustydlp::media::{
    audio_args, ffprobe_args, frame_len, may_start, rate_parts, read_step, red_first, take_frames,
    video_args, video_info, Pacer, PcmReader, ProbeError, ReadStep, StreamFacts, VideoInfo,
    AUDIO_START_TIMEOUT_MS, CHANNELS, DEFAULT_FPS, RING_CAPACITY, SAMPLE_RATE,
};
use rustydlp::playback::{
    coalesce, Load, Playback, PlayerEvent, Step, Thumb, Toggled, DEFAULT_VOLUME,
};
use rustydlp::ytdlp::{Double, Single};

fn double(v: f64) -> Double {
    Double { bits: v.to_bits() }
}

fn single(v: f32) -> Single {
    Single { bits: v.to_bits() }
}

fn parse_fraction(rate: &str) -> Option<f64> {
    let (num, den) = rate_parts(rate);
    let num: f64 = num.parse().ok()?;
    match den {
        Some(den) => {
            let den: f64 = den.parse().ok()?;
            (den != 0.0).then_some(num / den)
        }
        None => Some(num),
    }
}

fn secs(v: &Value, key: &str) -> Option<Double> {
    let text = v.get(key)?.as_str()?;
    text.parse::<f64>().ok().map(double)
}

fn parse_probe(json: &[u8]) -> Result<VideoInfo, ProbeError> {
    let v: Value = serde_json::from_slice(json).unwrap();
    let size = |s: &Value, key: &str| s.get(key).and_then(|n| n.as_u64()).map(|n| n as u32);
    let streams: Vec<StreamFacts> = v["streams"]
        .as_array()
        .unwrap()
        .iter()
        .map(|s| StreamFacts {
            codec_type: s["codec_type"].as_str().unwrap().to_string(),
            width: size(s, "width"),
            height: size(s, "height"),
            rate: s
                .get("r_frame_rate")
                .and_then(|r| r.as_str())
                .and_then(parse_fraction)
                .map(double),
            duration: secs(s, "duration"),
        })
        .collect();
    let container = v.get("format").and_then(|f| secs(f, "duration"));
    video_info(&streams, container)
}

/// ffprobe reports frame rate as a fraction, and NTSC rates are the whole
/// reason: 30000/1001 is not 30.
#[test]
fn frame_rate_parses_as_a_fraction() {
    assert_eq!(parse_fraction("30/1"), Some(30.0));
    assert_eq!(parse_fraction("25"), Some(25.0));
    assert!((parse_fraction("30000/1001").unwrap() - 29.97).abs() < 0.01);
    // 0/0 is what ffprobe reports for a stream with no meaningful rate.
    assert_eq!(parse_fraction("0/0"), None);
    assert_eq!(parse_fraction("nonsense"), None);
}

#[test]
fn probe_reads_size_and_rate_off_the_video_stream() {
    let info = parse_probe(
        br#"{"streams":[
                  {"codec_type":"audio"},
                  {"codec_type":"video","width":1920,"height":1080,"r_frame_rate":"30/1"}
                ]}"#,
    )
    .unwrap();
    assert_eq!((info.width, info.height), (1920, 1080));
    assert_eq!(info.fps, double(30.0));
}

/// The seek bar is drawn against this, so which duration wins matters:
/// the container's covers the whole file, a stream's need not.
#[test]
fn container_duration_wins_over_the_streams_own() {
    let info = parse_probe(
        br#"{"streams":[{"codec_type":"video","width":640,"height":360,"duration":"12.5"}],
                 "format":{"duration":"120.25"}}"#,
    )
    .unwrap();
    assert_eq!(info.duration, Some(double(120.25)));
}

#[test]
fn stream_duration_is_the_fallback_when_the_container_has_none() {
    let info = parse_probe(
        br#"{"streams":[{"codec_type":"video","width":640,"height":360,"duration":"12.5"}]}"#,
    )
    .unwrap();
    assert_eq!(info.duration, Some(double(12.5)));

    // Present but unmeasured is the same as absent — this is the case the
    // fallback exists for, so it must not swallow the stream's answer.
    let na = parse_probe(
        br#"{"streams":[{"codec_type":"video","width":640,"height":360,"duration":"12.5"}],
                 "format":{"duration":"N/A"}}"#,
    )
    .unwrap();
    assert_eq!(na.duration, Some(double(12.5)));
}

/// No duration is not a failure — playback still works, the seek bar just
/// has nothing to scale against and renders disabled.
#[test]
fn a_source_with_no_duration_still_probes() {
    let info = parse_probe(
        br#"{"streams":[{"codec_type":"video","width":640,"height":360}],
                 "format":{"duration":"N/A"}}"#,
    )
    .unwrap();
    assert_eq!(info.duration, None);
    // A zero duration is the same as none: dividing by it is what the
    // seek bar would do next.
    let zero = parse_probe(
        br#"{"streams":[{"codec_type":"video","width":640,"height":360}],
                 "format":{"duration":"0.000000"}}"#,
    )
    .unwrap();
    assert_eq!(zero.duration, None);
}

#[test]
fn a_source_with_no_video_stream_is_an_error() {
    assert!(parse_probe(br#"{"streams":[{"codec_type":"audio"}]}"#).is_err());
    // Missing dimensions can't size the raw-video pipe.
    assert!(parse_probe(br#"{"streams":[{"codec_type":"video"}]}"#).is_err());
}

#[test]
fn each_missing_part_of_a_probe_is_named() {
    let none = parse_probe(br#"{"streams":[]}"#).unwrap_err();
    assert_eq!((none, none.message()), (ProbeError::NoVideoStream, "no video stream found"));
    let width = parse_probe(br#"{"streams":[{"codec_type":"video","height":2}]}"#).unwrap_err();
    assert_eq!((width, width.message()), (ProbeError::NoWidth, "video stream has no width"));
    let height = parse_probe(br#"{"streams":[{"codec_type":"video","width":2}]}"#).unwrap_err();
    assert_eq!((height, height.message()), (ProbeError::NoHeight, "video stream has no height"));
}

/// Frame rate has a default because a missing one is recoverable;
/// guessing wrong only paces playback slightly off.
#[test]
fn a_missing_frame_rate_falls_back_to_30() {
    let info =
        parse_probe(br#"{"streams":[{"codec_type":"video","width":8,"height":8}]}"#).unwrap();
    assert_eq!(info.fps, double(30.0));
    assert_eq!(f64::from_bits(DEFAULT_FPS), 30.0);
}

#[test]
fn decoders_are_asked_for_raw_frames_and_samples() {
    let v = video_args("/v/a.mp4", "1.5", "25");
    assert!(v.windows(2).any(|w| w == ["-i", "/v/a.mp4"]));
    assert!(v.windows(2).any(|w| w == ["-ss", "1.5"]));
    assert!(v.windows(2).any(|w| w == ["-pix_fmt", "bgra"]));
    assert!(v.windows(2).any(|w| w == ["-vf", "fps=25"]));
    let a = audio_args("/v/a.mp4", "1.5");
    assert!(a.windows(2).any(|w| w == ["-ar", "48000"]));
    assert!(a.windows(2).any(|w| w == ["-ac", "2"]));
    assert_eq!(a.last().unwrap(), "pipe:1");
    assert_eq!(ffprobe_args("/v/a.mp4").last().unwrap(), "/v/a.mp4");
    assert_eq!((SAMPLE_RATE, CHANNELS), (48_000, 2));
}

#[test]
fn a_frame_is_four_bytes_to_a_pixel() {
    assert_eq!(frame_len(1920, 1080), Some(1920 * 1080 * 4));
    assert_eq!(frame_len(0, 5), Some(0));
}

#[test]
fn samples_survive_a_cut_between_their_bytes() {
    let mut r = PcmReader::new();
    let mut out = r.feed(&[0x01]);
    out.extend(r.feed(&[0x02, 0xff]));
    out.extend(r.feed(&[0xff, 0x00, 0x80]));
    assert_eq!(out, vec![0x0201, -1, i16::MIN]);
    let mut whole = PcmReader::new();
    assert_eq!(whole.feed(&[0x01, 0x02, 0xff, 0xff, 0x00, 0x80]), out);
}

#[test]
fn reading_rests_while_the_ring_is_full_or_paused() {
    assert_eq!(read_step(true, true, 0), ReadStep::Stop);
    assert!(matches!(read_step(false, true, 0), ReadStep::Sleep(_)));
    assert!(matches!(read_step(false, false, RING_CAPACITY), ReadStep::Sleep(_)));
    assert_eq!(read_step(false, false, 0), ReadStep::Read);
}

#[test]
fn sound_leaves_the_ring_by_whole_frames() {
    let mut ring: VecDeque<i16> = (1..=5).collect();
    assert_eq!(take_frames(&mut ring, 8, 2), vec![1, 2, 3, 4]);
    assert_eq!(take_frames(&mut ring, 8, 2), Vec::<i16>::new());
    ring.push_back(6);
    assert_eq!(take_frames(&mut ring, 8, 2), vec![5, 6]);
}

#[test]
fn only_the_newest_frame_is_shown_and_no_end_is_lost() {
    let mut events: VecDeque<PlayerEvent<u8>> = VecDeque::new();
    events.push_back(PlayerEvent::Frame(1, double(0.0)));
    events.push_back(PlayerEvent::Ended);
    events.push_back(PlayerEvent::Frame(2, double(0.1)));
    events.push_back(PlayerEvent::Frame(3, double(0.2)));
    assert!(matches!(coalesce(&mut events), Some(PlayerEvent::Ended)));
    assert!(matches!(coalesce(&mut events), Some(PlayerEvent::Frame(3, _))));
    assert!(coalesce(&mut events).is_none());
}

fn loaded(step: Step) -> Load {
    step.load.expect("a load")
}

fn playing() -> (Playback<u8>, Load) {
    let mut p: Playback<u8> = Playback::new();
    let run = loaded(p.ensure_player(Some("/v/a.mp4"), Some(double(9.0))));
    assert!(p.install(&run, Some(double(10.0))));
    (p, run)
}

#[test]
fn a_selected_file_is_loaded_once() {
    let mut p: Playback<u8> = Playback::new();
    let run = loaded(p.ensure_player(Some("/v/a.mp4"), None));
    assert_eq!(run.path, "/v/a.mp4");
    assert_eq!(run.start, double(0.0));
    assert_eq!(run.level, Some(Single { bits: DEFAULT_VOLUME }));
    assert!(p.screen().loading);
    assert!(p.ensure_player(Some("/v/a.mp4"), None).load.is_none());
    assert!(p.install(&run, None));
    assert!(p.ensure_player(Some("/v/a.mp4"), None).load.is_none());
    assert!(p.screen().loading && p.screen().poster, "no frame yet");
    p.receive(run.generation, PlayerEvent::Frame(1, double(61.5)));
    let screen = p.screen();
    assert!(!screen.loading && !screen.poster);
    assert_eq!(screen.transport.unwrap().time, "1:01");
    let step = p.ensure_player(None, None);
    assert!(step.stop && step.load.is_none());
    assert!(p.player.is_none());
}

#[test]
fn a_file_that_cannot_be_played_is_not_tried_again() {
    let mut p: Playback<u8> = Playback::new();
    let run = loaded(p.ensure_player(Some("/v/a.mp4"), None));
    p.load_failed(&run.path);
    assert!(p.ensure_player(Some("/v/a.mp4"), None).load.is_none());
    assert!(p.ensure_player(Some("/v/b.mp4"), None).load.is_some());
}

#[test]
fn frames_of_an_overtaken_run_are_ignored() {
    let (mut p, run) = playing();
    assert!(p.receive(run.generation, PlayerEvent::Frame(1, double(0.5))));
    let again = loaded(p.seek_to(double(5.0)));
    assert!(!p.receive(run.generation, PlayerEvent::Frame(2, double(0.6))));
    assert!(p.install(&again, Some(double(10.0))));
    let player = p.player.as_ref().unwrap();
    assert_eq!(player.frame, Some(1), "the picture stays until the next one");
    assert_eq!(again.start, double(5.0));
}

#[test]
fn scrubbing_moves_the_position_and_starts_nothing() {
    let (mut p, run) = playing();
    p.scrub_to(double(4.0));
    p.receive(run.generation, PlayerEvent::Frame(1, double(0.5)));
    let player = p.player.as_ref().unwrap();
    assert!(player.scrubbing);
    assert_eq!(player.position, double(4.0));
    assert_eq!(p.seek_thumb(), Some(Thumb::Held));
}

/// The position is limited to the file; what is not a number stays as it is.
#[test]
fn a_position_is_limited_to_the_file() {
    let (mut p, _) = playing();
    assert!(p.has_bounds());
    let duration = p.player.as_ref().unwrap().duration.unwrap();
    for (asked, got) in [
        (double(-1.0), double(0.0)),
        (double(f64::NEG_INFINITY), double(0.0)),
        (double(-0.0), double(-0.0)),
        (double(0.0), double(0.0)),
        (double(1.5), double(1.5)),
        (double(f64::INFINITY), duration),
        (double(f64::NAN), double(f64::NAN)),
    ] {
        p.scrub_to(asked);
        assert_eq!(p.player.as_ref().unwrap().position, got);
    }
    p.player.as_mut().unwrap().duration = Some(double(-0.0));
    assert!(p.has_bounds());
    p.scrub_to(double(1.0));
    assert_eq!(p.player.as_ref().unwrap().position, double(-0.0));
    for odd in [f64::NAN, -1.0] {
        p.player.as_mut().unwrap().duration = Some(double(odd));
        assert!(!p.has_bounds());
    }
}

#[test]
fn playing_again_from_the_end_starts_over() {
    let (mut p, run) = playing();
    assert_eq!(p.toggle_play(), Toggled::Paused(true));
    assert_eq!(p.toggle_play(), Toggled::Paused(false));
    p.receive(run.generation, PlayerEvent::Ended);
    match p.toggle_play() {
        Toggled::Restarted(step) => assert_eq!(loaded(step).start, double(0.0)),
        other => panic!("expected a restart, got {other:?}"),
    }
    let mut none: Playback<u8> = Playback::new();
    assert_eq!(none.toggle_play(), Toggled::Nothing);
}

#[test]
fn muting_keeps_the_level() {
    let mut p: Playback<u8> = Playback::new();
    p.set_volume(single(0.75));
    p.toggle_mute();
    assert_eq!(p.effective_volume(), None);
    assert_eq!(p.volume, single(0.75));
    p.toggle_mute();
    assert_eq!(p.effective_volume(), Some(single(0.75)));
    assert_eq!(f32::from_bits(DEFAULT_VOLUME), 0.45);
}

#[test]
fn a_preview_starts_after_its_delay_and_ends_with_the_hover() {
    let mut p: Playback<u8> = Playback::new();
    let first = p.schedule_hover_preview("itm-1");
    let second = p.schedule_hover_preview("itm-2");
    assert_eq!(p.start_hover_preview(first), None);
    let run = p.start_hover_preview(second).unwrap();
    assert!(p.install_preview(run, "itm-2"));
    assert!(p.receive_preview(run, PlayerEvent::Frame(7, double(0.0))));
    assert_eq!(p.preview.as_ref().unwrap().frame, Some(7));
    assert!(!p.stop_hover_preview_for("itm-1"), "another tile was left");
    assert!(p.stop_hover_preview_for("itm-2"));
    assert!(!p.receive_preview(run, PlayerEvent::Frame(8, double(0.1))));
}

#[test]
fn frames_keep_their_pace_through_a_pause() {
    let mut p = Pacer::new(1_000, 40);
    assert_eq!(p.wait(1_000), 40);
    assert_eq!(p.wait(1_050), 30);
    assert_eq!(p.wait(1_500), 0, "late: the next frame is shown at once");
    p.resume(2_000);
    assert_eq!(p.wait(3_100), 60, "the fourth is due 160 after the origin");
}

#[test]
fn the_picture_waits_for_sound_but_not_forever() {
    assert!(!may_start(false, 10));
    assert!(may_start(true, 10));
    assert!(may_start(false, AUDIO_START_TIMEOUT_MS));
}

#[test]
fn a_frame_is_turned_from_blue_first_to_red_first() {
    let bgra = [1u8, 2, 3, 4, 5, 6, 7, 8, 9, 10, 11];
    let rgba = red_first(&bgra);
    assert_eq!(rgba, vec![3, 2, 1, 4, 7, 6, 5, 8, 9, 10, 11]);
    assert_eq!(red_first(&rgba), bgra.to_vec());
    assert!(red_first(&[]).is_empty());
}

/// While a file is being opened the poster stands in, with the bar over it.
#[test]
fn the_stage_shows_a_loading_bar_while_a_file_is_opening() {
    let mut p: Playback<u8> = Playback::new();
    assert!(!p.screen().loading);
    p.ensure_player(Some("clip.mp4"), None);
    assert!(p.pending.is_some(), "a load should be in flight");
    let screen = p.screen();
    assert!(screen.loading && screen.poster);
    let mut bar = Animator::new();
    bar.cycles.cycle("stage-loading", 1100, 10);
    assert!(bar.is_animating(20), "and the indeterminate bar keeps redrawing");
}
