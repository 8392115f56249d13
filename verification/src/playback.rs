//! What plays: the open item's player, its volume, and the silent preview
//! behind a tile under the pointer.
//!
//! The decoder can only be restarted, never moved, so a player goes through
//! runs. Each run carries the generation it was started in, and whatever a run
//! of an older generation still delivers is turned away.

use std::collections::VecDeque;

use vstd::prelude::*;

use crate::readout::human_duration;
#[allow(unused_imports)]
use crate::readout::{at_most_zero, clock_text, unit, whole_part};
#[allow(unused_imports)]
use crate::text::opt;
use crate::text::{concat3, owned, same};
use crate::ytdlp::{Double, Single};

verus! {

/// The player of one file. `F` is a decoded frame.
#[derive(Debug)]
pub struct Player<F> {
    pub path: String,
    /// The newest decoded frame.
    pub frame: Option<F>,
    pub position: Double,
    /// The length, where one is known.
    pub duration: Option<Double>,
    pub playing: bool,
    /// Whether the file has played to its end.
    pub ended: bool,
    /// Whether the seek thumb is being dragged, and so owns the position.
    pub scrubbing: bool,
}

/// The value of a `Player`.
#[verifier::ext_equal]
pub struct PlayerView<F> {
    pub path: Seq<char>,
    pub frame: Option<F>,
    pub position: Double,
    pub duration: Option<Double>,
    pub playing: bool,
    pub ended: bool,
    pub scrubbing: bool,
}

impl<F> View for Player<F> {
    type V = PlayerView<F>;

    open spec fn view(&self) -> PlayerView<F> {
        PlayerView {
            path: self.path@,
            frame: self.frame,
            position: self.position,
            duration: self.duration,
            playing: self.playing,
            ended: self.ended,
            scrubbing: self.scrubbing,
        }
    }
}

/// The moving preview of one tile.
#[derive(Debug)]
pub struct Preview<F> {
    pub item_id: String,
    pub frame: Option<F>,
}

/// The value of a `Preview`.
#[verifier::ext_equal]
pub struct PreviewView<F> {
    pub item_id: Seq<char>,
    pub frame: Option<F>,
}

impl<F> View for Preview<F> {
    type V = PreviewView<F>;

    open spec fn view(&self) -> PreviewView<F> {
        PreviewView { item_id: self.item_id@, frame: self.frame }
    }
}

/// The state of everything that plays.
#[derive(Debug)]
pub struct Playback<F> {
    pub player: Option<Player<F>>,
    /// The file that a run is being started for.
    pub pending: Option<String>,
    /// The file whose last start failed. It is not tried again until another
    /// one, or none, is shown.
    pub failed: Option<String>,
    /// Counted up on every start and stop.
    pub generation: u64,
    pub volume: Single,
    pub muted: bool,
    pub preview: Option<Preview<F>>,
    /// The tile that a preview is about to start for.
    pub preview_pending: Option<String>,
    pub preview_generation: u64,
}

/// The value of a `Playback`.
#[verifier::ext_equal]
pub struct PlaybackView<F> {
    pub player: Option<PlayerView<F>>,
    pub pending: Option<Seq<char>>,
    pub failed: Option<Seq<char>>,
    pub generation: u64,
    pub volume: Single,
    pub muted: bool,
    pub preview: Option<PreviewView<F>>,
    pub preview_pending: Option<Seq<char>>,
    pub preview_generation: u64,
}

impl<F> View for Playback<F> {
    type V = PlaybackView<F>;

    open spec fn view(&self) -> PlaybackView<F> {
        PlaybackView {
            player: opt(self.player),
            pending: opt(self.pending),
            failed: opt(self.failed),
            generation: self.generation,
            volume: self.volume,
            muted: self.muted,
            preview: opt(self.preview),
            preview_pending: opt(self.preview_pending),
            preview_generation: self.preview_generation,
        }
    }
}

/// The generation after another one.
pub open spec fn next_generation(n: u64) -> u64 {
    if n == u64::MAX {
        0
    } else {
        (n + 1) as u64
    }
}

/// A run to start.
#[derive(Debug, PartialEq)]
pub struct Load {
    pub path: String,
    /// Where in the file to start, in seconds.
    pub start: Double,
    /// The length to show where the file itself tells none.
    pub hint: Option<Double>,
    /// The volume to start with; none is silence.
    pub level: Option<Single>,
    pub generation: u64,
}

/// The value of a `Load`.
#[verifier::ext_equal]
pub struct LoadView {
    pub path: Seq<char>,
    pub start: Double,
    pub hint: Option<Double>,
    pub level: Option<Single>,
    pub generation: u64,
}

impl View for Load {
    type V = LoadView;

    open spec fn view(&self) -> LoadView {
        LoadView {
            path: self.path@,
            start: self.start,
            hint: self.hint,
            level: self.level,
            generation: self.generation,
        }
    }
}

/// What is to be done with the decoder: stop the run on screen, start another,
/// both in that order, or nothing.
#[derive(Debug, PartialEq)]
pub struct Step {
    pub stop: bool,
    pub load: Option<Load>,
}

/// The value of a `Step`.
#[verifier::ext_equal]
pub struct StepView {
    pub stop: bool,
    pub load: Option<LoadView>,
}

impl View for Step {
    type V = StepView;

    open spec fn view(&self) -> StepView {
        StepView { stop: self.stop, load: opt(self.load) }
    }
}

/// Nothing to do.
pub open spec fn no_step() -> StepView {
    StepView { stop: false, load: None }
}

/// Something that a run delivers.
#[derive(Debug)]
pub enum PlayerEvent<F> {
    /// A frame and where in the file it belongs, in seconds.
    Frame(F, Double),
    /// The file has played to its end.
    Ended,
}

/// The bits of the volume that a player starts with: 0.45.
pub const DEFAULT_VOLUME: u32 = 0x3ee6_6666;

// ---------------------------------------------------------------------------
// The player
// ---------------------------------------------------------------------------

/// The state in which nothing plays yet.
pub open spec fn silent_start<F>() -> PlaybackView<F> {
    PlaybackView {
        player: None,
        pending: None,
        failed: None,
        generation: 0,
        volume: Single { bits: DEFAULT_VOLUME },
        muted: false,
        preview: None,
        preview_pending: None,
        preview_generation: 0,
    }
}

/// The volume that reaches the device, before the slider's taper: none while
/// muted.
pub open spec fn level_of<F>(s: PlaybackView<F>) -> Option<Single> {
    if s.muted {
        None
    } else {
        Some(s.volume)
    }
}

/// The state after the player was stopped.
pub open spec fn stopped<F>(s: PlaybackView<F>) -> PlaybackView<F> {
    PlaybackView {
        player: None,
        pending: None,
        failed: None,
        generation: next_generation(s.generation),
        ..s
    }
}

/// Whether a file is on screen, on its way there, or known not to play.
pub open spec fn is_settled_on<F>(s: PlaybackView<F>, path: Seq<char>) -> bool {
    ||| s.player is Some && s.player->0.path == path
    ||| s.pending == Some(path)
    ||| s.failed == Some(path)
}

/// The state after a run of a file was asked for.
pub open spec fn loading<F>(s: PlaybackView<F>, path: Seq<char>) -> PlaybackView<F> {
    PlaybackView { pending: Some(path), generation: next_generation(s.generation), ..s }
}

/// The state once playback follows what is on screen.
pub open spec fn ensured<F>(s: PlaybackView<F>, target: Option<Seq<char>>) -> PlaybackView<F> {
    match target {
        None => stopped(s),
        Some(path) => if is_settled_on(s, path) {
            s
        } else {
            loading(stopped(s), path)
        },
    }
}

/// What making playback follow the screen asks of the decoder.
pub open spec fn ensure_step<F>(
    s: PlaybackView<F>,
    target: Option<Seq<char>>,
    hint: Option<Double>,
) -> StepView {
    match target {
        None => StepView { stop: s.player is Some, load: None },
        Some(path) => if is_settled_on(s, path) {
            no_step()
        } else {
            StepView {
                stop: s.player is Some,
                load: Some(
                    LoadView {
                        path,
                        start: Double { bits: 0 },
                        hint,
                        level: level_of(s),
                        generation: loading(stopped(s), path).generation,
                    },
                ),
            }
        },
    }
}

/// The state after a run of a file could not be started.
pub open spec fn load_failed<F>(s: PlaybackView<F>, path: Seq<char>) -> PlaybackView<F> {
    if s.pending == Some(path) {
        PlaybackView {
            pending: None,
            failed: Some(path),
            player: if s.player is Some && s.player->0.path == path {
                None
            } else {
                s.player
            },
            ..s
        }
    } else {
        s
    }
}

/// The frame that stays on screen while another run of the same file starts.
pub open spec fn carried<F>(s: PlaybackView<F>, path: Seq<char>) -> Option<F> {
    match s.player {
        Some(p) => if p.path == path {
            p.frame
        } else {
            None
        },
        None => None,
    }
}

/// The state after a run was started, with the length that the file tells.
pub open spec fn installed<F>(s: PlaybackView<F>, run: LoadView, duration: Option<Double>) ->
    PlaybackView<F> {
    if s.generation != run.generation {
        s
    } else {
        PlaybackView {
            pending: None,
            player: Some(
                PlayerView {
                    path: run.path,
                    frame: carried(s, run.path),
                    position: run.start,
                    duration: if duration is Some {
                        duration
                    } else {
                        run.hint
                    },
                    playing: true,
                    ended: false,
                    scrubbing: false,
                },
            ),
            ..s
        }
    }
}

/// A player after its run delivered something.
pub open spec fn delivered<F>(p: PlayerView<F>, event: PlayerEvent<F>) -> PlayerView<F> {
    match event {
        PlayerEvent::Frame(frame, at) => PlayerView {
            frame: Some(frame),
            position: if p.scrubbing {
                p.position
            } else {
                at
            },
            ..p
        },
        PlayerEvent::Ended => PlayerView { playing: false, ended: true, ..p },
    }
}

/// The state after the run of a generation delivered something.
pub open spec fn received<F>(
    s: PlaybackView<F>,
    generation: u64,
    event: PlayerEvent<F>,
) -> PlaybackView<F> {
    if s.generation != generation {
        s
    } else {
        match s.player {
            Some(p) => PlaybackView { player: Some(delivered(p, event)), ..s },
            None => s,
        }
    }
}

/// The later of a position and the start.
pub open spec fn from_start(secs: Double) -> Double {
    if secs.positive() {
        secs
    } else {
        Double { bits: 0 }
    }
}

/// The state after a seek.
pub open spec fn sought<F>(s: PlaybackView<F>, secs: Double) -> PlaybackView<F> {
    match s.player {
        None => s,
        Some(p) => loading(
            PlaybackView {
                player: Some(
                    PlayerView {
                        position: from_start(secs),
                        scrubbing: false,
                        ended: false,
                        playing: true,
                        ..p
                    },
                ),
                ..s
            },
            p.path,
        ),
    }
}

/// What a seek asks of the decoder.
pub open spec fn seek_step<F>(s: PlaybackView<F>, secs: Double) -> StepView {
    match s.player {
        None => no_step(),
        Some(p) => StepView {
            stop: true,
            load: Some(
                LoadView {
                    path: p.path,
                    start: from_start(secs),
                    hint: p.duration,
                    level: level_of(s),
                    generation: next_generation(s.generation),
                },
            ),
        },
    }
}

/// A position limited to a file whose length is not below zero. What is not a number
/// stays as it is.
pub open spec fn within(secs: Double, duration: Double) -> Double {
    if secs.negative() {
        Double { bits: 0 }
    } else if secs.positive() && (!duration.positive() || secs.bits > duration.bits) {
        duration
    } else {
        secs
    }
}

/// Whether the length of the file, where it is known, can be sought against: it is
/// a number and not below zero.
pub open spec fn is_bounded<F>(s: PlaybackView<F>) -> bool {
    s.player matches Some(p) ==> (p.duration matches Some(d) ==> d.countable())
}

/// The state while the seek thumb is dragged to a position.
pub open spec fn scrubbed<F>(s: PlaybackView<F>, secs: Double) -> PlaybackView<F> {
    match s.player {
        Some(p) => match p.duration {
            Some(d) => PlaybackView {
                player: Some(PlayerView { scrubbing: true, position: within(secs, d), ..p }),
                ..s
            },
            None => s,
        },
        None => s,
    }
}

/// What the play button did.
#[derive(Debug, PartialEq)]
pub enum Toggled {
    /// There is no player.
    Nothing,
    /// The run is to be paused, or to go on.
    Paused(bool),
    /// The file had ended and starts again.
    Restarted(Step),
}

/// Whether a player is there and has ended.
pub open spec fn has_ended<F>(s: PlaybackView<F>) -> bool {
    s.player is Some && s.player->0.ended
}

fn wrap_next(n: u64) -> (r: u64)
    ensures
        r == next_generation(n),
{
    if n == u64::MAX {
        0
    } else {
        n + 1
    }
}

fn is_some_text(t: &Option<String>, key: &str) -> (r: bool)
    ensures
        r == (opt(*t) == Some(key@)),
{
    match t {
        Some(v) => same(v.as_str(), key),
        None => false,
    }
}

fn limit(secs: Double, duration: Double) -> (r: Double)
    requires
        duration.countable(),
    ensures
        r == within(secs, duration),
{
    if secs.is_negative() {
        Double { bits: 0 }
    } else if secs.is_positive() && (!duration.is_positive() || secs.bits > duration.bits) {
        duration
    } else {
        secs
    }
}

impl<F> Playback<F> {
    /// Nothing plays yet.
    pub fn new() -> (r: Playback<F>)
        ensures
            r@ == silent_start::<F>(),
    {
        Playback {
            player: None,
            pending: None,
            failed: None,
            generation: 0,
            volume: Single { bits: DEFAULT_VOLUME },
            muted: false,
            preview: None,
            preview_pending: None,
            preview_generation: 0,
        }
    }

    /// The volume that reaches the device, before the slider's taper; none while
    /// muted. Muting is kept apart from the slider's value, so that the level
    /// comes back with it.
    pub fn effective_volume(&self) -> (r: Option<Single>)
        ensures
            r == level_of(self@),
    {
        if self.muted {
            None
        } else {
            Some(self.volume)
        }
    }

    /// Stops the player. A run that is still being started is of an older
    /// generation from here on. Says whether there is a run to stop.
    pub fn stop_player(&mut self) -> (stop: bool)
        ensures
            final(self)@ == stopped(old(self)@),
            stop == (old(self)@.player is Some),
    {
        let stop: bool = self.player.is_some();
        self.player = None;
        self.pending = None;
        self.failed = None;
        self.generation = wrap_next(self.generation);
        assert(self@ =~= stopped(old(self)@));
        stop
    }

    fn load(&mut self, path: &str, start: Double, hint: Option<Double>) -> (r: Load)
        ensures
            final(self)@ == loading(old(self)@, path@),
            r@ == (LoadView {
                path: path@,
                start,
                hint,
                level: level_of(old(self)@),
                generation: final(self)@.generation,
            }),
    {
        self.pending = Some(owned(path));
        self.generation = wrap_next(self.generation);
        assert(self@ =~= loading(old(self)@, path@));
        Load {
            path: owned(path),
            start,
            hint,
            level: self.effective_volume(),
            generation: self.generation,
        }
    }

    /// Makes playback follow what is on screen: the file to play, or none.
    /// Nothing happens where that file already plays, is being started, or
    /// failed to start.
    pub fn ensure_player(&mut self, target: Option<&str>, hint: Option<Double>) -> (r: Step)
        ensures
            final(self)@ == ensured(
                old(self)@,
                match target {
                    Some(t) => Some(t@),
                    None => None,
                },
            ),
            r@ == ensure_step(
                old(self)@,
                match target {
                    Some(t) => Some(t@),
                    None => None,
                },
                hint,
            ),
    {
        match target {
            None => {
                let stop: bool = self.stop_player();
                Step { stop, load: None }
            },
            Some(path) => {
                let loaded: bool = match &self.player {
                    Some(p) => same(p.path.as_str(), path),
                    None => false,
                };
                if loaded || is_some_text(&self.pending, path) || is_some_text(&self.failed, path) {
                    return Step { stop: false, load: None };
                }
                let stop: bool = self.stop_player();
                let run: Load = self.load(path, Double { bits: 0 }, hint);
                Step { stop, load: Some(run) }
            },
        }
    }

    /// Takes note that a run of a file could not be started. The poster takes
    /// over, rather than a player whose buttons do nothing.
    pub fn load_failed(&mut self, path: &str)
        ensures
            final(self)@ == load_failed(old(self)@, path@),
    {
        if is_some_text(&self.pending, path) {
            self.pending = None;
            self.failed = Some(owned(path));
            let same_file: bool = match &self.player {
                Some(p) => same(p.path.as_str(), path),
                None => false,
            };
            if same_file {
                self.player = None;
            }
        }
        assert(self@ =~= load_failed(old(self)@, path@));
    }

    /// Puts a run that was started on screen. One that was overtaken is to be
    /// stopped instead: the result says whether the run is wanted.
    pub fn install(&mut self, run: &Load, duration: Option<Double>) -> (wanted: bool)
        ensures
            final(self)@ == installed(old(self)@, run@, duration),
            wanted == (old(self)@.generation == run@.generation),
    {
        if self.generation != run.generation {
            return false;
        }
        let player: Option<Player<F>> = self.player.take();
        let frame: Option<F> = match player {
            Some(p) => if same(p.path.as_str(), run.path.as_str()) {
                p.frame
            } else {
                None
            },
            None => None,
        };
        self.pending = None;
        self.player = Some(
            Player {
                path: owned(run.path.as_str()),
                frame,
                position: run.start,
                duration: if duration.is_some() {
                    duration
                } else {
                    run.hint
                },
                playing: true,
                ended: false,
                scrubbing: false,
            },
        );
        assert(self@ =~= installed(old(self)@, run@, duration));
        true
    }

    /// Takes in what the run of a generation delivers. Says whether that run is
    /// still wanted.
    pub fn receive(&mut self, generation: u64, event: PlayerEvent<F>) -> (wanted: bool)
        ensures
            final(self)@ == received(old(self)@, generation, event),
            wanted == (old(self)@.generation == generation),
    {
        if self.generation != generation {
            return false;
        }
        let player: Option<Player<F>> = self.player.take();
        match player {
            Some(mut p) => {
                match event {
                    PlayerEvent::Frame(frame, at) => {
                        p.frame = Some(frame);
                        if !p.scrubbing {
                            p.position = at;
                        }
                    },
                    PlayerEvent::Ended => {
                        p.playing = false;
                        p.ended = true;
                    },
                }
                self.player = Some(p);
            },
            None => {},
        }
        assert(self@ =~= received(old(self)@, generation, event));
        true
    }

    /// Decides whether the length of the file, where it is known, can be sought
    /// against.
    pub fn has_bounds(&self) -> (r: bool)
        ensures
            r == is_bounded(self@),
    {
        match &self.player {
            Some(p) => match p.duration {
                Some(d) => d.is_countable(),
                None => true,
            },
            None => true,
        }
    }

    /// Moves the readout while the seek thumb is dragged. Playback is not
    /// touched, so a drag does not start a run per pixel.
    pub fn scrub_to(&mut self, secs: Double)
        requires
            is_bounded(old(self)@),
        ensures
            final(self)@ == scrubbed(old(self)@, secs),
    {
        let player: Option<Player<F>> = self.player.take();
        match player {
            Some(mut p) => {
                match p.duration {
                    Some(d) => {
                        p.scrubbing = true;
                        p.position = limit(secs, d);
                    },
                    None => {},
                }
                self.player = Some(p);
            },
            None => {},
        }
        assert(self@ =~= scrubbed(old(self)@, secs));
    }

    /// Starts a new run at a position. The old one is stopped up front, since
    /// its sound would go on otherwise, but its last frame stays on screen until
    /// the new one delivers. A seek always resumes.
    pub fn seek_to(&mut self, secs: Double) -> (r: Step)
        ensures
            final(self)@ == sought(old(self)@, secs),
            r@ == seek_step(old(self)@, secs),
    {
        let player: Option<Player<F>> = self.player.take();
        match player {
            None => {
                assert(self@ =~= sought(old(self)@, secs));
                Step { stop: false, load: None }
            },
            Some(mut p) => {
                let at: Double = if secs.is_positive() {
                    secs
                } else {
                    Double { bits: 0 }
                };
                let path: String = owned(p.path.as_str());
                let duration: Option<Double> = p.duration;
                p.position = at;
                p.scrubbing = false;
                p.ended = false;
                p.playing = true;
                self.player = Some(p);
                let run: Load = self.load(path.as_str(), at, duration);
                assert(self@ =~= sought(old(self)@, secs));
                Step { stop: true, load: Some(run) }
            },
        }
    }

    /// Seeks to where the thumb was let go, within the file. Without a known
    /// length there is nothing to seek against.
    pub fn seek_within(&mut self, secs: Double) -> (r: Step)
        requires
            is_bounded(old(self)@),
        ensures
            match old(self)@.player {
                Some(p) => match p.duration {
                    Some(d) => final(self)@ == sought(old(self)@, within(secs, d)) && r@
                        == seek_step(old(self)@, within(secs, d)),
                    None => final(self)@ == old(self)@ && r@ == no_step(),
                },
                None => final(self)@ == old(self)@ && r@ == no_step(),
            },
    {
        let duration: Option<Double> = match &self.player {
            Some(p) => p.duration,
            None => None,
        };
        match duration {
            Some(d) => self.seek_to(limit(secs, d)),
            None => Step { stop: false, load: None },
        }
    }

    /// The play button. On a file that has ended it means "play it again": there
    /// is nothing left to go on with.
    pub fn toggle_play(&mut self) -> (r: Toggled)
        ensures
            if has_ended(old(self)@) {
                &&& final(self)@ == sought(old(self)@, (Double { bits: 0 }))
                &&& r matches Toggled::Restarted(step) && step@ == seek_step(
                    old(self)@,
                    (Double { bits: 0 }),
                )
            } else {
                match old(self)@.player {
                    Some(p) => {
                        &&& final(self)@ == (PlaybackView {
                            player: Some(PlayerView { playing: !p.playing, ..p }),
                            ..old(self)@
                        })
                        &&& r == Toggled::Paused(p.playing)
                    },
                    None => final(self)@ == old(self)@ && r == Toggled::Nothing,
                }
            },
    {
        let ended: bool = match &self.player {
            Some(p) => p.ended,
            None => false,
        };
        if ended {
            let step: Step = self.seek_to(Double { bits: 0 });
            return Toggled::Restarted(step);
        }
        let player: Option<Player<F>> = self.player.take();
        match player {
            Some(mut p) => {
                let was: bool = p.playing;
                p.playing = !was;
                self.player = Some(p);
                Toggled::Paused(was)
            },
            None => Toggled::Nothing,
        }
    }

    /// Moves the volume slider. Reaching for it is also how to come back from
    /// mute.
    pub fn set_volume(&mut self, volume: Single)
        ensures
            final(self)@ == (PlaybackView { volume: unit(volume), muted: false, ..old(self)@ }),
    {
        self.volume = volume.clamp_unit();
        self.muted = false;
    }

    /// Mutes, or unmutes.
    pub fn toggle_mute(&mut self)
        ensures
            final(self)@ == (PlaybackView { muted: !old(self)@.muted, ..old(self)@ }),
    {
        self.muted = !self.muted;
    }
}

// ---------------------------------------------------------------------------
// Draining a backlog
// ---------------------------------------------------------------------------

/// Which of the waiting events is handled next: the first that is no frame, or
/// else the newest frame.
pub open spec fn newest<F>(events: Seq<PlayerEvent<F>>) -> int
    decreases events.len(),
{
    if events.len() <= 1 || events[0] is Ended {
        0
    } else {
        1 + newest(events.skip(1))
    }
}

/// Takes the next event from a backlog. Frames that a newer one follows are
/// dropped: painting through a backlog one stale frame at a time is what lag
/// looks like. An end is never skipped.
pub fn coalesce<F>(events: &mut VecDeque<PlayerEvent<F>>) -> (r: Option<PlayerEvent<F>>)
    ensures
        old(events)@.len() == 0 ==> r is None && final(events)@ == old(events)@,
        old(events)@.len() > 0 ==> r == Some(old(events)@[newest(old(events)@)]),
        old(events)@.len() > 0 ==> final(events)@ == old(events)@.skip(
            newest(old(events)@) + 1,
        ),
{
    let ghost all = events@;
    let mut next: Option<PlayerEvent<F>> = events.pop_front();
    let ghost mut at: int = 0;
    if next.is_none() {
        return None;
    }
    assert(all.skip(0) =~= all);
    assert(events@ =~= all.skip(1));
    loop
        invariant
            0 <= at < all.len(),
            next == Some(all[at]),
            events@ == all.skip(at + 1),
            newest(all) == at + newest(all.skip(at)),
        ensures
            0 <= at < all.len(),
            next == Some(all[at]),
            events@ == all.skip(at + 1),
            newest(all) == at,
        decreases events@.len(),
    {
        let is_frame: bool = match &next {
            Some(PlayerEvent::Frame(..)) => true,
            _ => false,
        };
        assert(all.skip(at)[0] == all[at]);
        if !is_frame || events.len() == 0 {
            break;
        }
        assert(all.skip(at).skip(1) =~= all.skip(at + 1));
        assert(events@[0] == all[at + 1]);
        next = events.pop_front();
        proof {
            at = at + 1;
            assert(events@ =~= all.skip(at + 1));
        }
    }
    next
}

/// Everything that a backlog drops is a frame with a newer event behind it: no
/// end is lost.
pub proof fn lemma_no_end_is_dropped<F>(events: Seq<PlayerEvent<F>>)
    requires
        events.len() > 0,
    ensures
        0 <= newest(events) < events.len(),
        forall|i: int| 0 <= i < newest(events) ==> #[trigger] events[i] is Frame,
        events[newest(events)] is Frame ==> newest(events) == events.len() - 1,
    decreases events.len(),
{
    if events.len() > 1 && events[0] is Frame {
        let rest = events.skip(1);
        lemma_no_end_is_dropped(rest);
        assert forall|i: int| 0 <= i < newest(events) implies #[trigger] events[i] is Frame by {
            if i > 0 {
                assert(events[i] == rest[i - 1]);
            }
        }
        assert(events[newest(events)] == rest[newest(rest)]);
    }
}

// ---------------------------------------------------------------------------
// The preview under the pointer
// ---------------------------------------------------------------------------

/// How long the pointer has to rest on a tile before its preview starts, in
/// milliseconds: sweeping over a row of tiles starts none.
pub const PREVIEW_DELAY_MS: u64 = 350;

/// The state after the pointer came to rest on a tile.
pub open spec fn hover_scheduled<F>(s: PlaybackView<F>, item_id: Seq<char>) -> PlaybackView<F> {
    PlaybackView {
        preview_pending: Some(item_id),
        preview_generation: next_generation(s.preview_generation),
        ..s
    }
}

/// The state after the delay of a generation ran out.
pub open spec fn hover_due<F>(s: PlaybackView<F>, generation: u64) -> PlaybackView<F> {
    if s.preview_generation == generation {
        PlaybackView { preview_generation: next_generation(generation), ..s }
    } else {
        s
    }
}

/// The state after a preview's run was started.
pub open spec fn hover_installed<F>(
    s: PlaybackView<F>,
    generation: u64,
    item_id: Seq<char>,
) -> PlaybackView<F> {
    if s.preview_generation == generation {
        PlaybackView {
            preview: Some(PreviewView { item_id, frame: None }),
            preview_pending: None,
            ..s
        }
    } else {
        s
    }
}

/// The state after a preview's run delivered something. One that has ended
/// holds its last frame.
pub open spec fn hover_received<F>(
    s: PlaybackView<F>,
    generation: u64,
    event: PlayerEvent<F>,
) -> PlaybackView<F> {
    if s.preview_generation == generation {
        match (event, s.preview) {
            (PlayerEvent::Frame(frame, at), Some(p)) => PlaybackView {
                preview: Some(PreviewView { frame: Some(frame), ..p }),
                ..s
            },
            _ => s,
        }
    } else {
        s
    }
}

/// The state after the preview was stopped.
pub open spec fn hover_stopped<F>(s: PlaybackView<F>) -> PlaybackView<F> {
    PlaybackView {
        preview: None,
        preview_pending: None,
        preview_generation: next_generation(s.preview_generation),
        ..s
    }
}

/// Whether the preview is that of a tile, or about to be.
pub open spec fn previews<F>(s: PlaybackView<F>, key: Seq<char>) -> bool {
    s.preview_pending == Some(key) || (s.preview is Some && s.preview->0.item_id == key)
}

impl<F> Playback<F> {
    /// The pointer came to rest on a tile. Gives back the generation to hand to
    /// `start_hover_preview` when the delay has run out.
    pub fn schedule_hover_preview(&mut self, item_id: &str) -> (generation: u64)
        ensures
            final(self)@ == hover_scheduled(old(self)@, item_id@),
            generation == final(self)@.preview_generation,
    {
        self.preview_generation = wrap_next(self.preview_generation);
        self.preview_pending = Some(owned(item_id));
        assert(self@ =~= hover_scheduled(old(self)@, item_id@));
        self.preview_generation
    }

    /// The delay of a generation ran out. Gives back the generation of the run
    /// to start, silent and from the beginning, unless the pointer moved on.
    pub fn start_hover_preview(&mut self, generation: u64) -> (r: Option<u64>)
        ensures
            final(self)@ == hover_due(old(self)@, generation),
            r == (if old(self)@.preview_generation == generation {
                Some(next_generation(generation))
            } else {
                None
            }),
    {
        if self.preview_generation != generation {
            return None;
        }
        self.preview_generation = wrap_next(generation);
        Some(self.preview_generation)
    }

    /// Puts a preview's run on its tile. Says whether the run is wanted.
    pub fn install_preview(&mut self, generation: u64, item_id: &str) -> (wanted: bool)
        ensures
            final(self)@ == hover_installed(old(self)@, generation, item_id@),
            wanted == (old(self)@.preview_generation == generation),
    {
        if self.preview_generation != generation {
            return false;
        }
        self.preview = Some(Preview { item_id: owned(item_id), frame: None });
        self.preview_pending = None;
        assert(self@ =~= hover_installed(old(self)@, generation, item_id@));
        true
    }

    /// Takes in what a preview's run delivers. Says whether the run is still
    /// wanted.
    pub fn receive_preview(&mut self, generation: u64, event: PlayerEvent<F>) -> (wanted: bool)
        ensures
            final(self)@ == hover_received(old(self)@, generation, event),
            wanted == (old(self)@.preview_generation == generation),
    {
        if self.preview_generation != generation {
            return false;
        }
        let preview: Option<Preview<F>> = self.preview.take();
        match preview {
            Some(mut p) => {
                match event {
                    PlayerEvent::Frame(frame, _) => {
                        p.frame = Some(frame);
                    },
                    PlayerEvent::Ended => {},
                }
                self.preview = Some(p);
            },
            None => {},
        }
        assert(self@ =~= hover_received(old(self)@, generation, event));
        true
    }

    /// Stops the preview. Says whether there is a run to stop.
    pub fn stop_hover_preview(&mut self) -> (stop: bool)
        ensures
            final(self)@ == hover_stopped(old(self)@),
            stop == (old(self)@.preview is Some),
    {
        let stop: bool = self.preview.is_some();
        self.preview = None;
        self.preview_pending = None;
        self.preview_generation = wrap_next(self.preview_generation);
        assert(self@ =~= hover_stopped(old(self)@));
        stop
    }

    /// The pointer left a tile. The preview is stopped only where it is still
    /// that tile's. Says whether there is a run to stop.
    pub fn stop_hover_preview_for(&mut self, key: &str) -> (stop: bool)
        ensures
            previews(old(self)@, key@) ==> final(self)@ == hover_stopped(old(self)@) && stop == (
            old(self)@.preview is Some),
            !previews(old(self)@, key@) ==> final(self)@ == old(self)@ && !stop,
    {
        let shown: bool = match &self.preview {
            Some(p) => same(p.item_id.as_str(), key),
            None => false,
        };
        if shown || is_some_text(&self.preview_pending, key) {
            self.stop_hover_preview()
        } else {
            false
        }
    }
}

// ---------------------------------------------------------------------------
// What the player shows
// ---------------------------------------------------------------------------

/// The transport under the picture.
#[derive(Debug, PartialEq)]
pub struct Transport {
    pub playing: bool,
    /// The position, and the length where one is known.
    pub time: String,
    /// Whether there is a length to seek against.
    pub seekable: bool,
}

/// What the player shows.
#[derive(Debug, PartialEq)]
pub struct PlayerScreen {
    /// Whether the cover stands in for a frame.
    pub poster: bool,
    /// Whether the bar that says "Loading…" runs over the picture.
    pub loading: bool,
    /// The transport, once there is a frame.
    pub transport: Option<Transport>,
}

/// The time under the picture.
pub open spec fn time_text<F>(p: PlayerView<F>) -> Seq<char> {
    match p.duration {
        Some(d) => clock_text(whole_part(p.position)) + " / "@ + clock_text(whole_part(d)),
        None => clock_text(whole_part(p.position)),
    }
}

/// Whether the player has a frame to show.
pub open spec fn has_frame<F>(s: PlaybackView<F>) -> bool {
    s.player is Some && s.player->0.frame is Some
}

/// What the thumb of the seek bar is to do.
#[derive(Debug, Clone, Copy, PartialEq, Eq, Structural)]
pub enum Thumb {
    /// Stay: it is under the pointer.
    Held,
    /// Stand at the start: there is no length.
    Start,
    /// Stand at a position within a length above zero.
    At { position: Double, duration: Double },
}

impl<F> Playback<F> {
    /// What the player shows. Until the first frame the cover stands in, with
    /// the bar over it; a seek leaves the old frame up and the bar over that.
    pub fn screen(&self) -> (r: PlayerScreen)
        ensures
            r.poster == !has_frame(self@),
            r.loading == (self@.pending is Some || (self@.player is Some && !has_frame(self@))),
            match r.transport {
                Some(t) => {
                    &&& has_frame(self@)
                    &&& t.playing == self@.player->0.playing
                    &&& t.time@ == time_text(self@.player->0)
                    &&& t.seekable == (self@.player->0.duration is Some)
                },
                None => !has_frame(self@),
            },
    {
        let loading: bool = self.pending.is_some();
        match &self.player {
            None => PlayerScreen { poster: true, loading, transport: None },
            Some(p) => {
                if p.frame.is_none() {
                    return PlayerScreen { poster: true, loading: true, transport: None };
                }
                let at: String = human_duration(p.position);
                let time: String = match p.duration {
                    Some(d) => concat3(at.as_str(), " / ", human_duration(d).as_str()),
                    None => at,
                };
                PlayerScreen {
                    poster: false,
                    loading,
                    transport: Some(
                        Transport { playing: p.playing, time, seekable: p.duration.is_some() },
                    ),
                }
            },
        }
    }

    /// What the thumb of the seek bar is to do. While it is dragged it owns its
    /// value.
    pub fn seek_thumb(&self) -> (r: Option<Thumb>)
        ensures
            r == (match self@.player {
                None => None::<Thumb>,
                Some(p) => Some(
                    if p.scrubbing {
                        Thumb::Held
                    } else if p.duration is Some && p.duration->0.positive() {
                        Thumb::At { position: p.position, duration: p.duration->0 }
                    } else {
                        Thumb::Start
                    },
                ),
            }),
    {
        match &self.player {
            None => None,
            Some(p) => {
                if p.scrubbing {
                    return Some(Thumb::Held);
                }
                match p.duration {
                    Some(d) => if d.is_positive() {
                        Some(Thumb::At { position: p.position, duration: d })
                    } else {
                        Some(Thumb::Start)
                    },
                    None => Some(Thumb::Start),
                }
            },
        }
    }

    /// The icon on the mute button.
    pub fn volume_icon(&self) -> (r: &'static str)
        ensures
            r@ == (if self@.muted || at_most_zero(self@.volume) {
                "icons/volume-muted.svg"@
            } else {
                "icons/volume.svg"@
            }),
    {
        if self.muted || self.volume.is_at_most_zero() {
            "icons/volume-muted.svg"
        } else {
            "icons/volume.svg"
        }
    }
}

// ---------------------------------------------------------------------------
// Laws
// ---------------------------------------------------------------------------

/// Following the screen is idempotent: asked again for the same file, nothing
/// happens.
pub proof fn lemma_ensure_is_idempotent<F>(
    s: PlaybackView<F>,
    path: Seq<char>,
    hint: Option<Double>,
)
    ensures
        is_settled_on(ensured(s, Some(path)), path),
        ensured(ensured(s, Some(path)), Some(path)) == ensured(s, Some(path)),
        ensure_step(ensured(s, Some(path)), Some(path), hint) == no_step(),
{
}

/// Once another file, or none, is shown, nothing that an earlier run still
/// delivers has any effect.
pub proof fn lemma_overtaken_run_is_ignored<F>(
    s: PlaybackView<F>,
    target: Option<Seq<char>>,
    run: LoadView,
    duration: Option<Double>,
    event: PlayerEvent<F>,
)
    requires
        run.generation == s.generation,
        target is Some ==> !is_settled_on(s, target->0),
    ensures
        installed(ensured(s, target), run, duration) == ensured(s, target),
        received(ensured(s, target), run.generation, event) == ensured(s, target),
{
}

/// A seek turns away whatever the run before it still delivers.
pub proof fn lemma_seek_supersedes<F>(s: PlaybackView<F>, secs: Double, event: PlayerEvent<F>)
    requires
        s.player is Some,
    ensures
        received(sought(s, secs), s.generation, event) == sought(s, secs),
{
}

/// A seek keeps the picture: its last frame stays up while the new run starts,
/// and the new run begins with it. Following the screen in between does not
/// start the file over.
pub proof fn lemma_seek_keeps_the_picture<F>(
    s: PlaybackView<F>,
    secs: Double,
    duration: Option<Double>,
    hint: Option<Double>,
)
    requires
        s.player is Some,
    ensures
        ({
            let after = sought(s, secs);
            let run = seek_step(s, secs).load->0;
            let done = installed(after, run, duration);
            &&& after.player->0.frame == s.player->0.frame
            &&& ensured(after, Some(s.player->0.path)) == after
            &&& ensure_step(after, Some(s.player->0.path), hint) == no_step()
            &&& done.player->0.frame == s.player->0.frame
            &&& done.player->0.position == from_start(secs)
            &&& done.player->0.playing && !done.player->0.ended
            &&& done.pending is None
        }),
{
}

/// A file that failed to start is not tried again while it stays on screen, and
/// is tried again once nothing was shown in between.
pub proof fn lemma_failed_start_waits_for_navigation<F>(
    s: PlaybackView<F>,
    path: Seq<char>,
    hint: Option<Double>,
)
    requires
        s.pending == Some(path),
    ensures
        ({
            let after = load_failed(s, path);
            &&& after.player is None || after.player->0.path != path
            &&& ensured(after, Some(path)) == after
            &&& ensure_step(after, Some(path), hint) == no_step()
            &&& ensure_step(ensured(after, None), Some(path), hint).load is Some
        }),
{
}

/// While the thumb is dragged the position is the thumb's: frames do not move
/// it, and the run goes on.
pub proof fn lemma_scrubbing_owns_the_position<F>(
    s: PlaybackView<F>,
    secs: Double,
    frame: F,
    at: Double,
)
    requires
        s.player is Some,
        s.player->0.duration is Some,
    ensures
        ({
            let held = scrubbed(s, secs);
            let later = received(held, held.generation, PlayerEvent::Frame(frame, at));
            &&& held.generation == s.generation
            &&& later.player->0.position == within(secs, s.player->0.duration->0)
            &&& later.player->0.frame == Some(frame)
        }),
{
}

/// Muting twice changes nothing, so the level comes back; moving the slider
/// always makes a sound reach the device.
pub proof fn lemma_mute_keeps_the_level<F>(s: PlaybackView<F>, volume: Single)
    ensures
        ({
            let muted = PlaybackView { muted: !s.muted, ..s };
            let back = PlaybackView { muted: !muted.muted, ..muted };
            &&& back == s
            &&& muted.volume == s.volume
        }),
        level_of(PlaybackView { volume: unit(volume), muted: false, ..s }) == Some(unit(volume)),
{
}

/// A preview whose pointer moved on before its delay ran out never starts, and
/// one that was stopped delivers nothing more.
pub proof fn lemma_left_preview_is_ignored<F>(
    s: PlaybackView<F>,
    item_id: Seq<char>,
    other: Seq<char>,
    event: PlayerEvent<F>,
)
    ensures
        ({
            let first = hover_scheduled(s, item_id);
            let moved = hover_scheduled(first, other);
            hover_due(moved, first.preview_generation) == moved
        }),
        ({
            let left = hover_stopped(s);
            &&& hover_due(left, s.preview_generation) == left
            &&& hover_installed(left, s.preview_generation, item_id) == left
            &&& hover_received(left, s.preview_generation, event) == left
        }),
{
}

// ---------------------------------------------------------------------------
// What each step does
// ---------------------------------------------------------------------------

/// At the start nothing plays, is started or failed, and the sound is on at 0.45.
pub proof fn lemma_start_is_silent<F>()
    ensures
        ({
            let s = silent_start::<F>();
            &&& s.player is None && s.pending is None && s.failed is None
            &&& s.preview is None && s.preview_pending is None
            &&& s.generation == 0 && s.preview_generation == 0
            &&& s.volume.bits == 0x3ee6_6666 && !s.muted
        }),
{
}

/// A generation is one more than the one before; the largest is followed by zero.
pub proof fn lemma_generations_count_up(n: u64)
    ensures
        n < u64::MAX ==> next_generation(n) == n + 1,
        n == u64::MAX ==> next_generation(n) == 0,
{
}

/// Muted, no sound reaches the device; otherwise that of the slider does.
pub proof fn lemma_muted_is_silent<F>(s: PlaybackView<F>)
    ensures
        s.muted ==> level_of(s) is None,
        !s.muted ==> level_of(s) == Some(s.volume),
{
}

/// With nothing on screen the player stops: nothing plays, is being started or counts as
/// failed, and a new generation begins. The sound and the preview stay.
pub proof fn lemma_nothing_on_screen_stops<F>(s: PlaybackView<F>, hint: Option<Double>)
    ensures
        ({
            let t = ensured(s, None);
            &&& t == stopped(s)
            &&& t.player is None && t.pending is None && t.failed is None
            &&& t.generation == next_generation(s.generation)
            &&& t == (PlaybackView {
                player: None,
                pending: None,
                failed: None,
                generation: t.generation,
                ..s
            })
            &&& ensure_step(s, None, hint) == (StepView { stop: s.player is Some, load: None })
        }),
{
}

/// A file that plays, is being started or failed to start is left alone; for any other a
/// run is started from its beginning, at the sound there is, and what played stops.
pub proof fn lemma_another_file_is_started<F>(
    s: PlaybackView<F>,
    path: Seq<char>,
    hint: Option<Double>,
)
    ensures
        ({
            let plays = s.player is Some && s.player->0.path == path;
            let known = plays || s.pending == Some(path) || s.failed == Some(path);
            let t = ensured(s, Some(path));
            let step = ensure_step(s, Some(path), hint);
            &&& known ==> t == s && !step.stop && step.load is None
            &&& !known ==> {
                &&& t.player is None && t.failed is None && t.pending == Some(path)
                &&& t == (PlaybackView {
                    player: None,
                    failed: None,
                    pending: Some(path),
                    generation: t.generation,
                    ..s
                })
                &&& t.generation != s.generation
                &&& step.stop == (s.player is Some)
                &&& step.load is Some
                &&& step.load->0.path == path && step.load->0.start.bits == 0
                &&& step.load->0.hint == hint
                &&& step.load->0.generation == t.generation
                &&& s.muted ==> step.load->0.level is None
                &&& !s.muted ==> step.load->0.level == Some(s.volume)
            }
        }),
{
}

/// A start that failed counts against the file it was for, which leaves the screen, and
/// only while it is still being started.
pub proof fn lemma_failed_start_is_remembered<F>(s: PlaybackView<F>, path: Seq<char>)
    ensures
        ({
            let t = load_failed(s, path);
            let plays = s.player is Some && s.player->0.path == path;
            &&& s.pending != Some(path) ==> t == s
            &&& s.pending == Some(path) ==> {
                &&& t.pending is None && t.failed == Some(path)
                &&& plays ==> t.player is None
                &&& !plays ==> t.player == s.player
                &&& t == (PlaybackView {
                    pending: None,
                    failed: Some(path),
                    player: t.player,
                    ..s
                })
            }
        }),
{
}

/// A run of the current generation goes on screen: at its start, playing, with the length
/// the file tells or else the one recorded, and with the last frame where the same file
/// was on screen. A run of another generation changes nothing.
pub proof fn lemma_started_run_goes_on_screen<F>(
    s: PlaybackView<F>,
    run: LoadView,
    duration: Option<Double>,
)
    ensures
        ({
            let t = installed(s, run, duration);
            let same = s.player is Some && s.player->0.path == run.path;
            &&& run.generation != s.generation ==> t == s
            &&& run.generation == s.generation ==> {
                &&& t == (PlaybackView { pending: None, player: t.player, ..s })
                &&& t.player is Some
                &&& t.player->0.path == run.path && t.player->0.position == run.start
                &&& t.player->0.playing && !t.player->0.ended && !t.player->0.scrubbing
                &&& duration is Some ==> t.player->0.duration == duration
                &&& duration is None ==> t.player->0.duration == run.hint
                &&& same ==> t.player->0.frame == s.player->0.frame
                &&& !same ==> t.player->0.frame is None
            }
        }),
{
}

/// A frame is shown at once and moves the position, unless the thumb is dragged; an end
/// stops the file. Neither changes anything else, and neither counts where it is of
/// another generation or there is no player.
pub proof fn lemma_deliveries_reach_the_player<F>(
    s: PlaybackView<F>,
    generation: u64,
    frame: F,
    at: Double,
)
    ensures
        ({
            let t = received(s, generation, PlayerEvent::Frame(frame, at));
            let e = received(s, generation, PlayerEvent::Ended);
            let due = generation == s.generation && s.player is Some;
            &&& !due ==> t == s && e == s
            &&& due ==> {
                let p = s.player->0;
                &&& p.scrubbing ==> t == (PlaybackView {
                    player: Some(PlayerView { frame: Some(frame), ..p }),
                    ..s
                })
                &&& !p.scrubbing ==> t == (PlaybackView {
                    player: Some(PlayerView { frame: Some(frame), position: at, ..p }),
                    ..s
                })
                &&& e == (PlaybackView {
                    player: Some(PlayerView { playing: false, ended: true, ..p }),
                    ..s
                })
            }
        }),
{
}

/// A seek starts a new run of the same file there, or at the start where the position is
/// not above zero, and plays; the old run stops. Without a player it does nothing.
pub proof fn lemma_seek_starts_a_run_there<F>(s: PlaybackView<F>, secs: Double)
    ensures
        ({
            let t = sought(s, secs);
            let step = seek_step(s, secs);
            let at = if 0 < secs.bits <= 0x7ff0_0000_0000_0000 {
                secs
            } else {
                Double { bits: 0 }
            };
            &&& s.player is None ==> t == s && !step.stop && step.load is None
            &&& s.player is Some ==> {
                let p = s.player->0;
                &&& t == (PlaybackView {
                    player: Some(
                        PlayerView {
                            position: at,
                            scrubbing: false,
                            ended: false,
                            playing: true,
                            ..p
                        },
                    ),
                    pending: Some(p.path),
                    generation: next_generation(s.generation),
                    ..s
                })
                &&& step.stop && step.load is Some
                &&& step.load->0.path == p.path && step.load->0.start == at
                &&& step.load->0.hint == p.duration
                &&& step.load->0.generation == t.generation
                &&& s.muted ==> step.load->0.level is None
                &&& !s.muted ==> step.load->0.level == Some(s.volume)
            }
        }),
{
}

/// A position is kept between the start and the end of the file.
pub proof fn lemma_position_stays_within_the_file(secs: Double, duration: Double)
    requires
        duration.countable(),
    ensures
        ({
            let at = within(secs, duration);
            &&& 0x8000_0000_0000_0000 < secs.bits <= 0xfff0_0000_0000_0000 ==> at.bits == 0
            &&& secs.bits == 0 ==> at == secs
            &&& 0 < duration.bits <= 0x7ff0_0000_0000_0000 && secs.bits
                <= 0x7ff0_0000_0000_0000 ==> at.bits == (if secs.bits <= duration.bits {
                secs.bits
            } else {
                duration.bits
            })
            &&& !duration.positive() && secs.positive() ==> at == duration
        }),
{
}

/// Dragging the thumb moves the position alone, within the file, and takes it from the
/// run; without a length there is nothing to drag.
pub proof fn lemma_drag_moves_the_position<F>(s: PlaybackView<F>, secs: Double)
    ensures
        ({
            let t = scrubbed(s, secs);
            let seekable = s.player is Some && s.player->0.duration is Some;
            &&& !seekable ==> t == s
            &&& seekable ==> t == (PlaybackView {
                player: Some(
                    PlayerView {
                        scrubbing: true,
                        position: within(secs, s.player->0.duration->0),
                        ..s.player->0
                    },
                ),
                ..s
            })
        }),
{
}

/// Behind frames alone, the next event is the first end; with no end waiting it is the
/// newest frame.
pub proof fn lemma_newest_frame_or_first_end<F>(events: Seq<PlayerEvent<F>>, n: int)
    requires
        0 <= n < events.len(),
        forall|i: int| 0 <= i < n ==> #[trigger] events[i] is Frame,
        events[n] is Ended || n == events.len() - 1,
    ensures
        newest(events) == n,
    decreases events.len(),
{
    if n > 0 {
        let rest = events.skip(1);
        assert(events[0] is Frame);
        assert forall|i: int| 0 <= i < n - 1 implies #[trigger] rest[i] is Frame by {
            assert(rest[i] == events[i + 1]);
        }
        lemma_newest_frame_or_first_end(rest, n - 1);
    }
}

/// A pointer at rest on a tile asks for its preview in a new generation, which its delay
/// counts further once more; a run that was started shows on that tile, without a frame
/// yet, and a frame shows at once. What is of another generation changes nothing, and an
/// end keeps the last frame.
pub proof fn lemma_steps_of_a_preview<F>(
    s: PlaybackView<F>,
    item_id: Seq<char>,
    generation: u64,
    frame: F,
    at: Double,
)
    ensures
        hover_scheduled(s, item_id) == (PlaybackView {
            preview_pending: Some(item_id),
            preview_generation: next_generation(s.preview_generation),
            ..s
        }),
        generation != s.preview_generation ==> {
            &&& hover_due(s, generation) == s
            &&& hover_installed(s, generation, item_id) == s
            &&& hover_received(s, generation, PlayerEvent::Frame(frame, at)) == s
        },
        generation == s.preview_generation ==> {
            &&& hover_due(s, generation) == (PlaybackView {
                preview_generation: next_generation(s.preview_generation),
                ..s
            })
            &&& hover_installed(s, generation, item_id) == (PlaybackView {
                preview: Some(PreviewView { item_id, frame: None }),
                preview_pending: None,
                ..s
            })
            &&& s.preview is Some ==> hover_received(s, generation, PlayerEvent::Frame(frame, at))
                == (PlaybackView {
                preview: Some(
                    PreviewView { item_id: s.preview->0.item_id, frame: Some(frame) },
                ),
                ..s
            })
            &&& s.preview is None ==> hover_received(s, generation, PlayerEvent::Frame(frame, at))
                == s
        },
        hover_received(s, generation, PlayerEvent::Ended) == s,
        hover_stopped(s) == (PlaybackView {
            preview: None,
            preview_pending: None,
            preview_generation: next_generation(s.preview_generation),
            ..s
        }),
{
}

/// A tile is previewed where its preview shows or is about to.
pub proof fn lemma_previewed_tile<F>(s: PlaybackView<F>, key: Seq<char>)
    ensures
        s.preview_pending == Some(key) ==> previews(s, key),
        s.preview is Some && s.preview->0.item_id == key ==> previews(s, key),
        s.preview_pending != Some(key) && (s.preview is None || s.preview->0.item_id != key)
            ==> !previews(s, key),
{
}

/// Under the picture stands the position, and behind a slash the length where it is known.
pub proof fn lemma_time_under_the_picture<F>(p: PlayerView<F>, at: u64, length: u64)
    requires
        whole_part(p.position) == at,
        p.duration is Some ==> whole_part(p.duration->0) == length,
    ensures
        p.duration is None ==> time_text(p) == clock_text(at),
        p.duration is Some ==> time_text(p) == clock_text(at) + " / "@ + clock_text(length),
{
}

/// There is a frame to show only where a player has one, and a file has ended only where
/// a player says so.
pub proof fn lemma_frame_and_end_of_the_player<F>(s: PlaybackView<F>)
    ensures
        s.player is None ==> !has_frame(s) && !has_ended(s),
        s.player is Some ==> has_frame(s) == (s.player->0.frame is Some) && has_ended(s)
            == s.player->0.ended,
{
}

/// A pointer has to rest for 350 ms before a preview starts.
pub proof fn lemma_preview_waits()
    ensures
        PREVIEW_DELAY_MS == 350,
{
}

} // verus!
