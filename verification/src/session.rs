//! The state of the application and how it moves: downloads and conversions
//! from the queue to their end, probes, and what is selected.
//!
//! The application performs the outside work that a step asks for and hands
//! the outcome back as the next step's argument.

use vstd::hash_map::StringHashMap;
use vstd::hash_set::StringHashSet;
use vstd::prelude::*;

use crate::model::{Job, JobState, Preset};
#[allow(unused_imports)]
use crate::model::{JobView, PresetView};
use crate::runner::Probe;
use crate::text::same;
#[allow(unused_imports)]
use crate::text::{deep, lemma_deep_push, lemma_deep_remove, lemma_deep_update, opt};
#[allow(unused_imports)]
use crate::ytdlp::OptionsView;
use crate::ytdlp::{Double, Single, YtdlpOptions};

verus! {

// ---------------------------------------------------------------------------
// The parts of the state
// ---------------------------------------------------------------------------

#[derive(Debug, Clone, Copy, PartialEq, Eq, Structural)]
pub enum Route {
    Library,
    Settings,
}

/// A change of the window that a caption button asked for. It is only recorded
/// here; whoever owns the window carries it out.
#[derive(Debug, Clone, Copy, PartialEq, Eq, Structural)]
pub enum WindowAction {
    Minimize,
    ToggleMaximize,
    Close,
}

/// Which mode of the top bar is active, and therefore what the main pane shows.
#[derive(Debug, Clone, Copy, PartialEq, Eq, Structural)]
pub enum SidebarTab {
    /// Every finished download or conversion, newest first.
    Home,
    /// Jobs of either kind that are still working.
    InProgress,
}

impl SidebarTab {
    pub open spec fn index_spec(self) -> usize {
        match self {
            SidebarTab::Home => 0,
            SidebarTab::InProgress => 1,
        }
    }

    pub open spec fn at(ix: usize) -> SidebarTab {
        if ix == 1 {
            SidebarTab::InProgress
        } else {
            SidebarTab::Home
        }
    }

    pub fn index(self) -> (r: usize)
        ensures
            r == self.index_spec(),
    {
        match self {
            SidebarTab::Home => 0,
            SidebarTab::InProgress => 1,
        }
    }

    pub fn from_index(ix: usize) -> (r: SidebarTab)
        ensures
            r == SidebarTab::at(ix),
    {
        if ix == 1 {
            SidebarTab::InProgress
        } else {
            SidebarTab::Home
        }
    }

    pub fn empty_message(self) -> (r: &'static str)
        ensures
            r@ == (match self {
                SidebarTab::Home => "No downloads or conversions yet"@,
                SidebarTab::InProgress => "Nothing in progress"@,
            }),
    {
        match self {
            SidebarTab::Home => "No downloads or conversions yet",
            SidebarTab::InProgress => "Nothing in progress",
        }
    }
}

/// A tab's index leads back to the tab, and any other index to the first one.
pub proof fn lemma_tab_index_round_trip(tab: SidebarTab, ix: usize)
    ensures
        SidebarTab::at(tab.index_spec()) == tab,
        ix > 1 ==> SidebarTab::at(ix) == SidebarTab::Home,
{
}

/// Live state of a running job, in memory alone: progress arrives some ten
/// times a second, and only transitions are worth writing to disk.
#[derive(Debug)]
pub struct Live {
    pub fraction: Option<Single>,
    pub speed: Option<Double>,
    pub eta: Option<Double>,
    pub log: Vec<String>,
}

/// The value of a `Live`.
#[verifier::ext_equal]
pub struct LiveView {
    pub fraction: Option<Single>,
    pub speed: Option<Double>,
    pub eta: Option<Double>,
    pub log: Seq<Seq<char>>,
}

impl View for Live {
    type V = LiveView;

    open spec fn view(&self) -> LiveView {
        LiveView {
            fraction: self.fraction,
            speed: self.speed,
            eta: self.eta,
            log: deep(self.log@),
        }
    }
}

/// A job of which nothing is known yet.
pub open spec fn blank_live() -> LiveView {
    LiveView { fraction: None, speed: None, eta: None, log: Seq::<Seq<char>>::empty() }
}

impl Live {
    pub fn blank() -> (r: Live)
        ensures
            r@ == blank_live(),
    {
        let r: Live = Live { fraction: None, speed: None, eta: None, log: Vec::new() };
        assert(r@ =~= blank_live());
        r
    }
}

impl Clone for Live {
    fn clone(&self) -> (r: Live)
        ensures
            r@ == self@,
    {
        Live {
            fraction: self.fraction,
            speed: self.speed,
            eta: self.eta,
            log: crate::text::copy_strings(&self.log),
        }
    }
}

/// How the probe of the typed URL stands.
#[derive(Debug)]
pub enum ProbeState {
    Idle,
    Running,
    Found(Probe),
    Failed(String),
}

/// A job accepted but not yet started.
#[derive(Debug, PartialEq)]
pub struct PendingLaunch {
    pub job_id: String,
    pub url: String,
    pub opts: YtdlpOptions,
    pub attempts: u32,
}

/// The value of a `PendingLaunch`.
#[verifier::ext_equal]
pub struct PendingView {
    pub job_id: Seq<char>,
    pub url: Seq<char>,
    pub opts: OptionsView,
    pub attempts: u32,
}

impl View for PendingLaunch {
    type V = PendingView;

    open spec fn view(&self) -> PendingView {
        PendingView {
            job_id: self.job_id@,
            url: self.url@,
            opts: self.opts@,
            attempts: self.attempts,
        }
    }
}

/// The state of the application.
pub struct Session {
    /// The path of yt-dlp, where it was found.
    pub ytdlp: Option<String>,
    pub jobs: Vec<Job>,
    pub live: StringHashMap<Live>,
    /// The id of the selected job.
    pub selected: Option<String>,
    /// The id of the item that a job with several is opened at.
    pub open_item: Option<String>,
    pub route: Route,
    pub tab: SidebarTab,
    /// Whether the New Download dialog is open.
    pub modal: bool,
    pub probe: ProbeState,
    /// Counted up on every keystroke; a delayed probe only runs while its own
    /// count is still the current one.
    pub probe_gen: u64,
    pub startup_error: Option<String>,
    /// Accepted but not yet started, the next one first.
    pub pending: Vec<PendingLaunch>,
    pub launcher_active: bool,
    /// The running jobs that can be killed.
    pub cancels: StringHashSet,
    /// What the last update of yt-dlp came to.
    pub update_status: Option<String>,
    pub presets: Vec<Preset>,
    /// The name of the preset chosen in the New Download dialog.
    pub chosen_preset: Option<String>,
    /// The preset open in the editor.
    pub editing: Option<Preset>,
    /// The file that a target format is being chosen for.
    pub convert_picker: Option<String>,
    /// What a caption button asked for, until it is carried out.
    pub pending_window_action: Option<WindowAction>,
    pub window_maximized: bool,
    /// Whether the open item's card fills the window.
    pub detail_fullscreen: bool,
}

/// The value of a `Session`.
#[verifier::ext_equal]
pub struct SessionView {
    pub ytdlp: Option<Seq<char>>,
    pub jobs: Seq<JobView>,
    pub live: Map<Seq<char>, LiveView>,
    pub selected: Option<Seq<char>>,
    pub open_item: Option<Seq<char>>,
    pub route: Route,
    pub tab: SidebarTab,
    pub modal: bool,
    pub probe: ProbeState,
    pub probe_gen: u64,
    pub startup_error: Option<Seq<char>>,
    pub pending: Seq<PendingView>,
    pub launcher_active: bool,
    pub cancels: Set<Seq<char>>,
    pub update_status: Option<Seq<char>>,
    pub presets: Seq<PresetView>,
    pub chosen_preset: Option<Seq<char>>,
    pub editing: Option<PresetView>,
    pub convert_picker: Option<Seq<char>>,
    pub pending_window_action: Option<WindowAction>,
    pub window_maximized: bool,
    pub detail_fullscreen: bool,
}

/// The live states by job id.
pub open spec fn live_views(m: Map<Seq<char>, Live>) -> Map<Seq<char>, LiveView> {
    Map::new(|k: Seq<char>| m.dom().contains(k), |k: Seq<char>| m[k]@)
}

impl View for Session {
    type V = SessionView;

    open spec fn view(&self) -> SessionView {
        SessionView {
            ytdlp: opt(self.ytdlp),
            jobs: deep(self.jobs@),
            live: live_views(self.live@),
            selected: opt(self.selected),
            open_item: opt(self.open_item),
            route: self.route,
            tab: self.tab,
            modal: self.modal,
            probe: self.probe,
            probe_gen: self.probe_gen,
            startup_error: opt(self.startup_error),
            pending: deep(self.pending@),
            launcher_active: self.launcher_active,
            cancels: self.cancels@,
            update_status: opt(self.update_status),
            presets: deep(self.presets@),
            chosen_preset: opt(self.chosen_preset),
            editing: opt(self.editing),
            convert_picker: opt(self.convert_picker),
            pending_window_action: self.pending_window_action,
            window_maximized: self.window_maximized,
            detail_fullscreen: self.detail_fullscreen,
        }
    }
}

/// The state that a fresh start has: nothing listed, nothing running.
pub open spec fn fresh_session() -> SessionView {
    SessionView {
        ytdlp: None,
        jobs: Seq::<JobView>::empty(),
        live: Map::<Seq<char>, LiveView>::empty(),
        selected: None,
        open_item: None,
        route: Route::Library,
        tab: SidebarTab::Home,
        modal: false,
        probe: ProbeState::Idle,
        probe_gen: 0,
        startup_error: None,
        pending: Seq::<PendingView>::empty(),
        launcher_active: false,
        cancels: Set::<Seq<char>>::empty(),
        update_status: None,
        presets: Seq::<PresetView>::empty(),
        chosen_preset: None,
        editing: None,
        convert_picker: None,
        pending_window_action: None,
        window_maximized: false,
        detail_fullscreen: false,
    }
}

// ---------------------------------------------------------------------------
// States of a job
// ---------------------------------------------------------------------------

/// Whether a job is still working.
pub open spec fn active(state: JobState) -> bool {
    state == JobState::Queued || state == JobState::Probing || state == JobState::Running
}

/// Whether a job stopped short, and so can be tried again.
pub open spec fn retryable(state: JobState) -> bool {
    state == JobState::Failed || state == JobState::Cancelled
}

/// The state of a job after its process failed.
pub open spec fn after_failure(state: JobState) -> JobState {
    if state == JobState::Cancelled {
        JobState::Cancelled
    } else {
        JobState::Failed
    }
}

/// The single definition of "still working", for the list and for the Cancel
/// button alike.
pub fn is_active(state: JobState) -> (r: bool)
    ensures
        r == active(state),
{
    match state {
        JobState::Queued | JobState::Probing | JobState::Running => true,
        _ => false,
    }
}

/// Only a job that stopped short can be retried; one that is done has nothing
/// to redo.
pub fn is_retryable(state: JobState) -> (r: bool)
    ensures
        r == retryable(state),
{
    match state {
        JobState::Failed | JobState::Cancelled => true,
        _ => false,
    }
}

/// The state of a job after its process failed. Killing a process makes it exit
/// with an error: a deliberate cancel must not be relabelled by its own kill.
pub fn state_after_failure(current: JobState) -> (r: JobState)
    ensures
        r == after_failure(current),
{
    match current {
        JobState::Cancelled => JobState::Cancelled,
        _ => JobState::Failed,
    }
}

/// A stored state that no state is stored as is not that of a job at work: what is
/// not understood is not resumed.
pub proof fn lemma_unknown_state_is_not_resumed(text: Seq<char>)
    requires
        forall|state: JobState| #[trigger] state.name() != text,
    ensures
        !active(JobState::named(text)),
{
    assert(JobState::Queued.name() != text);
    assert(JobState::Probing.name() != text);
    assert(JobState::Running.name() != text);
}

/// No state is both working and retryable, and every state is one of the two or
/// done.
pub proof fn lemma_states_partition(state: JobState)
    ensures
        !(active(state) && retryable(state)),
        active(state) || retryable(state) || state == JobState::Done,
        !active(after_failure(state)),
        after_failure(JobState::Cancelled) == JobState::Cancelled,
{
}

// ---------------------------------------------------------------------------
// Jobs by id
// ---------------------------------------------------------------------------

/// Where the first job with the id stands; the number of jobs where there is
/// none.
pub open spec fn job_pos(jobs: Seq<JobView>, id: Seq<char>) -> int
    decreases jobs.len(),
{
    if jobs.len() == 0 || jobs[0].id == id {
        0
    } else {
        1 + job_pos(jobs.skip(1), id)
    }
}

/// Whether a job with the id is listed.
pub open spec fn has_job(jobs: Seq<JobView>, id: Seq<char>) -> bool {
    job_pos(jobs, id) < jobs.len()
}

/// The job with the id.
pub open spec fn job_at(jobs: Seq<JobView>, id: Seq<char>) -> JobView {
    jobs[job_pos(jobs, id)]
}

/// The jobs with the one of the id replaced, where there is one.
pub open spec fn with_job(jobs: Seq<JobView>, id: Seq<char>, job: JobView) -> Seq<JobView> {
    if has_job(jobs, id) {
        jobs.update(job_pos(jobs, id), job)
    } else {
        jobs
    }
}

pub proof fn lemma_job_pos(jobs: Seq<JobView>, id: Seq<char>)
    ensures
        0 <= job_pos(jobs, id) <= jobs.len(),
        has_job(jobs, id) ==> job_at(jobs, id).id == id,
        forall|i: int| 0 <= i < job_pos(jobs, id) ==> (#[trigger] jobs[i]).id != id,
    decreases jobs.len(),
{
    if jobs.len() > 0 && jobs[0].id != id {
        lemma_job_pos(jobs.skip(1), id);
        assert forall|i: int| 0 <= i < job_pos(jobs, id) implies (#[trigger] jobs[i]).id != id by {
            if i > 0 {
                assert(jobs[i] == jobs.skip(1)[i - 1]);
            }
        }
        if has_job(jobs, id) {
            assert(jobs[job_pos(jobs, id)] == jobs.skip(1)[job_pos(jobs.skip(1), id)]);
        }
    }
}

/// The first job with the id stands where it is, and none before it has the id.
pub proof fn lemma_job_pos_at(jobs: Seq<JobView>, id: Seq<char>, n: int)
    requires
        0 <= n <= jobs.len(),
        n < jobs.len() ==> jobs[n].id == id,
        forall|i: int| 0 <= i < n ==> (#[trigger] jobs[i]).id != id,
    ensures
        job_pos(jobs, id) == n,
{
    lemma_job_pos(jobs, id);
    let m = job_pos(jobs, id);
    if m < n {
        assert(jobs[m].id == id);
    }
}

/// Replacing a job by one with the same id keeps every job's place.
pub proof fn lemma_with_job_keeps_places(
    jobs: Seq<JobView>,
    id: Seq<char>,
    job: JobView,
    other: Seq<char>,
)
    requires
        job.id == id,
    ensures
        job_pos(with_job(jobs, id, job), other) == job_pos(jobs, other),
        has_job(jobs, id) ==> job_at(with_job(jobs, id, job), id) == job,
        other != id && has_job(jobs, other) ==> job_at(with_job(jobs, id, job), other) == job_at(
            jobs,
            other,
        ),
{
    lemma_job_pos(jobs, id);
    lemma_job_pos(jobs, other);
    let after = with_job(jobs, id, job);
    assert forall|i: int| 0 <= i < job_pos(jobs, other) implies (#[trigger] after[i]).id
        != other by {
        assert(jobs[i].id != other);
    }
    lemma_job_pos_at(after, other, job_pos(jobs, other));
    lemma_job_pos_at(after, id, job_pos(jobs, id));
}

impl Session {
    /// A fresh start.
    pub fn new() -> (r: Session)
        ensures
            r@ == fresh_session(),
    {
        let r: Session = Session {
            ytdlp: None,
            jobs: Vec::new(),
            live: StringHashMap::new(),
            selected: None,
            open_item: None,
            route: Route::Library,
            tab: SidebarTab::Home,
            modal: false,
            probe: ProbeState::Idle,
            probe_gen: 0,
            startup_error: None,
            pending: Vec::new(),
            launcher_active: false,
            cancels: StringHashSet::new(),
            update_status: None,
            presets: Vec::new(),
            chosen_preset: None,
            editing: None,
            convert_picker: None,
            pending_window_action: None,
            window_maximized: false,
            detail_fullscreen: false,
        };
        assert(r@ =~= fresh_session());
        r
    }

    pub(crate) fn find_job(&self, id: &str) -> (r: Option<usize>)
        ensures
            match r {
                Some(i) => i == job_pos(self@.jobs, id@) && i < self.jobs@.len() && has_job(
                    self@.jobs,
                    id@,
                ),
                None => !has_job(self@.jobs, id@),
            },
    {
        let ghost jobs = self@.jobs;
        let mut i: usize = 0;
        while i < self.jobs.len()
            invariant
                i <= self.jobs@.len(),
                jobs == deep(self.jobs@),
                jobs == self@.jobs,
                forall|k: int| 0 <= k < i ==> (#[trigger] jobs[k]).id != id@,
            decreases self.jobs@.len() - i,
        {
            assert(jobs[i as int] == self.jobs@[i as int]@);
            if same(self.jobs[i].id.as_str(), id) {
                proof {
                    lemma_job_pos_at(jobs, id@, i as int);
                }
                return Some(i);
            }
            i = i + 1;
        }
        proof {
            lemma_job_pos_at(jobs, id@, i as int);
        }
        None
    }
}

// ---------------------------------------------------------------------------
// How a job ends
// ---------------------------------------------------------------------------

pub broadcast proof fn lemma_live_insert(m: Map<Seq<char>, Live>, k: Seq<char>, v: Live)
    ensures
        #[trigger] live_views(m.insert(k, v)) == live_views(m).insert(k, v@),
{
    assert(live_views(m.insert(k, v)) =~= live_views(m).insert(k, v@));
}

pub broadcast proof fn lemma_live_remove(m: Map<Seq<char>, Live>, k: Seq<char>)
    ensures
        #[trigger] live_views(m.remove(k)) == live_views(m).remove(k),
{
    assert(live_views(m.remove(k)) =~= live_views(m).remove(k));
}

/// The job of the id, to be saved, where it is listed.
pub open spec fn snapshot(s: SessionView, id: Seq<char>) -> Option<JobView> {
    if has_job(s.jobs, id) {
        Some(job_at(s.jobs, id))
    } else {
        None
    }
}

/// The state with nothing live of the job any more.
pub open spec fn settled(s: SessionView, id: Seq<char>) -> SessionView {
    SessionView { live: s.live.remove(id), cancels: s.cancels.remove(id), ..s }
}

/// A job after its process failed.
pub open spec fn failed_job(job: JobView, error: Seq<char>) -> JobView {
    let state = after_failure(job.state);
    JobView {
        state,
        error: if state == JobState::Failed {
            Some(error)
        } else {
            job.error
        },
        ..job
    }
}

/// The state after a job's process failed.
pub open spec fn failed(s: SessionView, id: Seq<char>, error: Seq<char>) -> SessionView {
    settled(
        SessionView { jobs: with_job(s.jobs, id, failed_job(job_at(s.jobs, id), error)), ..s },
        id,
    )
}

/// A job after its event stream ended: done, unless it was not running.
pub open spec fn finished_job(job: JobView) -> JobView {
    JobView {
        state: if job.state == JobState::Running {
            JobState::Done
        } else {
            job.state
        },
        ..job
    }
}

/// The state after a job's event stream ended.
pub open spec fn finished(s: SessionView, id: Seq<char>) -> SessionView {
    settled(SessionView { jobs: with_job(s.jobs, id, finished_job(job_at(s.jobs, id))), ..s }, id)
}

/// The queue without the launches of a job.
pub open spec fn without_pending(p: Seq<PendingView>, id: Seq<char>) -> Seq<PendingView>
    decreases p.len(),
{
    if p.len() == 0 {
        p
    } else if p.last().job_id == id {
        without_pending(p.drop_last(), id)
    } else {
        without_pending(p.drop_last(), id).push(p.last())
    }
}

/// A job after the user cancelled it.
pub open spec fn cancelled_job(job: JobView) -> JobView {
    JobView { state: JobState::Cancelled, error: None, ..job }
}

/// The state after the user cancelled a job.
pub open spec fn cancelled(s: SessionView, id: Seq<char>) -> SessionView {
    settled(
        SessionView {
            jobs: with_job(s.jobs, id, cancelled_job(job_at(s.jobs, id))),
            pending: without_pending(s.pending, id),
            ..s
        },
        id,
    )
}

/// The jobs without those of the id.
pub open spec fn without_job(jobs: Seq<JobView>, id: Seq<char>) -> Seq<JobView>
    decreases jobs.len(),
{
    if jobs.len() == 0 {
        jobs
    } else if jobs.last().id == id {
        without_job(jobs.drop_last(), id)
    } else {
        without_job(jobs.drop_last(), id).push(jobs.last())
    }
}

/// The state after a job was removed from the list.
pub open spec fn removed(s: SessionView, id: Seq<char>) -> SessionView {
    settled(
        SessionView {
            jobs: without_job(s.jobs, id),
            selected: if s.selected == Some(id) {
                None
            } else {
                s.selected
            },
            ..s
        },
        id,
    )
}

impl Session {
    pub(crate) fn settle(&mut self, job_id: &str)
        ensures
            final(self)@ == settled(old(self)@, job_id@),
    {
        broadcast use lemma_live_remove;

        self.live.remove(job_id);
        self.cancels.remove(job_id);
        assert(self@ =~= settled(old(self)@, job_id@));
    }

    /// Marks a job failed, unless it was cancelled, and forgets what was live
    /// of it. Gives back the job to save.
    pub fn fail_job(&mut self, job_id: &str, error: String) -> (r: Option<Job>)
        ensures
            final(self)@ == failed(old(self)@, job_id@, error@),
            opt(r) == snapshot(final(self)@, job_id@),
    {
        broadcast use lemma_deep_update;

        proof {
            lemma_job_pos(self@.jobs, job_id@);
        }
        let mut saved: Option<Job> = None;
        match self.find_job(job_id) {
            Some(i) => {
                let mut job: Job = self.jobs[i].clone();
                job.state = state_after_failure(job.state);
                match job.state {
                    JobState::Failed => {
                        job.error = Some(error);
                    },
                    _ => {},
                }
                assert(job@ =~= failed_job(job_at(self@.jobs, job_id@), error@));
                proof {
                    lemma_with_job_keeps_places(self@.jobs, job_id@, job@, job_id@);
                }
                saved = Some(job.clone());
                self.jobs.set(i, job);
            },
            None => {},
        }
        assert(self@ =~= (SessionView {
            jobs: with_job(
                old(self)@.jobs,
                job_id@,
                failed_job(job_at(old(self)@.jobs, job_id@), error@),
            ),
            ..old(self)@
        }));
        self.settle(job_id);
        saved
    }

    /// Marks a running job done and forgets what was live of it. Gives back the
    /// job to save.
    pub fn finish_job(&mut self, job_id: &str) -> (r: Option<Job>)
        ensures
            final(self)@ == finished(old(self)@, job_id@),
            opt(r) == snapshot(final(self)@, job_id@),
    {
        broadcast use lemma_deep_update;

        proof {
            lemma_job_pos(self@.jobs, job_id@);
        }
        let mut saved: Option<Job> = None;
        match self.find_job(job_id) {
            Some(i) => {
                let mut job: Job = self.jobs[i].clone();
                match job.state {
                    JobState::Running => {
                        job.state = JobState::Done;
                    },
                    _ => {},
                }
                assert(job@ =~= finished_job(job_at(self@.jobs, job_id@)));
                proof {
                    lemma_with_job_keeps_places(self@.jobs, job_id@, job@, job_id@);
                }
                saved = Some(job.clone());
                self.jobs.set(i, job);
            },
            None => {},
        }
        assert(self@ =~= (SessionView {
            jobs: with_job(
                old(self)@.jobs,
                job_id@,
                finished_job(job_at(old(self)@.jobs, job_id@)),
            ),
            ..old(self)@
        }));
        self.settle(job_id);
        saved
    }

    fn drop_pending(&mut self, job_id: &str)
        ensures
            final(self)@ == (SessionView {
                pending: without_pending(old(self)@.pending, job_id@),
                ..old(self)@
            }),
    {
        broadcast use {lemma_deep_push, lemma_deep_remove};

        let ghost all = self@.pending;
        let mut rest: Vec<PendingLaunch> = Vec::new();
        let mut kept: Vec<PendingLaunch> = Vec::new();
        std::mem::swap(&mut rest, &mut self.pending);
        assert(deep(rest@) == all);
        assert(deep(kept@) =~= without_pending(all.take(0), job_id@));
        let ghost n = rest@.len();
        while rest.len() > 0
            invariant
                rest@.len() <= n,
                n == all.len(),
                deep(rest@) == all.skip(n - rest@.len()),
                deep(kept@) == without_pending(all.take(n - rest@.len()), job_id@),
            decreases rest@.len(),
        {
            let ghost k = n - rest@.len();
            assert(deep(rest@)[0] == all[k]);
            let next: PendingLaunch = rest.remove(0);
            assert(next@ == all[k]);
            assert(all.skip(k).remove(0) =~= all.skip(k + 1));
            assert(all.take(k + 1).drop_last() =~= all.take(k));
            assert(all.take(k + 1).last() == next@);
            if !same(next.job_id.as_str(), job_id) {
                kept.push(next);
            }
        }
        assert(all.take(n as int) =~= all);
        self.pending = kept;
        assert(self@ =~= (SessionView {
            pending: without_pending(old(self)@.pending, job_id@),
            ..old(self)@
        }));
    }

    /// Marks a job cancelled, drops it from the queue in case it never started,
    /// and forgets what was live of it. Gives back the job to save, and whether
    /// its process is to be killed: the job is marked first, so that the error
    /// its kill causes is recognised as intended.
    pub fn cancel_job(&mut self, job_id: &str) -> (r: (Option<Job>, bool))
        ensures
            final(self)@ == cancelled(old(self)@, job_id@),
            opt(r.0) == snapshot(final(self)@, job_id@),
            r.1 == old(self)@.cancels.contains(job_id@),
    {
        broadcast use lemma_deep_update;

        proof {
            lemma_job_pos(self@.jobs, job_id@);
        }
        let kill: bool = self.cancels.contains(job_id);
        let mut saved: Option<Job> = None;
        match self.find_job(job_id) {
            Some(i) => {
                let mut job: Job = self.jobs[i].clone();
                job.state = JobState::Cancelled;
                job.error = None;
                assert(job@ =~= cancelled_job(job_at(self@.jobs, job_id@)));
                proof {
                    lemma_with_job_keeps_places(self@.jobs, job_id@, job@, job_id@);
                }
                saved = Some(job.clone());
                self.jobs.set(i, job);
            },
            None => {},
        }
        assert(self@ =~= (SessionView {
            jobs: with_job(
                old(self)@.jobs,
                job_id@,
                cancelled_job(job_at(old(self)@.jobs, job_id@)),
            ),
            ..old(self)@
        }));
        self.drop_pending(job_id);
        self.settle(job_id);
        assert(self@ =~= cancelled(old(self)@, job_id@));
        (saved, kill)
    }

    /// Removes a job from the list. Only for jobs that are not working: cancel
    /// first. The caller deletes it from the store.
    pub fn delete_job(&mut self, job_id: &str)
        ensures
            final(self)@ == removed(old(self)@, job_id@),
    {
        broadcast use {lemma_deep_push, lemma_deep_remove};

        let ghost all = self@.jobs;
        let mut rest: Vec<Job> = Vec::new();
        let mut kept: Vec<Job> = Vec::new();
        std::mem::swap(&mut rest, &mut self.jobs);
        assert(deep(rest@) == all);
        assert(deep(kept@) =~= without_job(all.take(0), job_id@));
        let ghost n = rest@.len();
        while rest.len() > 0
            invariant
                rest@.len() <= n,
                n == all.len(),
                deep(rest@) == all.skip(n - rest@.len()),
                deep(kept@) == without_job(all.take(n - rest@.len()), job_id@),
            decreases rest@.len(),
        {
            let ghost k = n - rest@.len();
            assert(deep(rest@)[0] == all[k]);
            let next: Job = rest.remove(0);
            assert(next@ == all[k]);
            assert(all.skip(k).remove(0) =~= all.skip(k + 1));
            assert(all.take(k + 1).drop_last() =~= all.take(k));
            assert(all.take(k + 1).last() == next@);
            if !same(next.id.as_str(), job_id) {
                kept.push(next);
            }
        }
        assert(all.take(n as int) =~= all);
        self.jobs = kept;
        let is_selected: bool = match &self.selected {
            Some(id) => same(id.as_str(), job_id),
            None => false,
        };
        if is_selected {
            self.selected = None;
        }
        self.settle(job_id);
        assert(self@ =~= removed(old(self)@, job_id@));
    }
}

// ---------------------------------------------------------------------------
// What each ending does
// ---------------------------------------------------------------------------

/// Whether the first job with the id is the one at `n`.
pub open spec fn is_first(jobs: Seq<JobView>, id: Seq<char>, n: int) -> bool {
    0 <= n < jobs.len() && jobs[n].id == id && forall|i: int|
        0 <= i < n ==> (#[trigger] jobs[i]).id != id
}

/// Whether two lists have one length and differ at one place at most.
pub open spec fn differ_at(a: Seq<JobView>, b: Seq<JobView>, n: int) -> bool {
    a.len() == b.len() && forall|i: int|
        #![trigger a[i]]
        #![trigger b[i]]
        0 <= i < a.len() && i != n ==> a[i] == b[i]
}

/// Replacing the first job with an id changes that place and no other; where no job
/// has the id nothing changes.
pub proof fn lemma_with_job_at(jobs: Seq<JobView>, id: Seq<char>, job: JobView, n: int)
    requires
        0 <= n <= jobs.len(),
        n < jobs.len() ==> is_first(jobs, id, n),
        n == jobs.len() ==> forall|i: int| 0 <= i < n ==> (#[trigger] jobs[i]).id != id,
    ensures
        n < jobs.len() ==> with_job(jobs, id, job) == jobs.update(n, job) && job_at(jobs, id)
            == jobs[n] && has_job(jobs, id),
        n == jobs.len() ==> with_job(jobs, id, job) == jobs && !has_job(jobs, id),
{
    lemma_job_pos_at(jobs, id, n);
}

/// A job waiting, being probed or running is at work; one that failed or was
/// cancelled can be tried again; and of what fails only a cancelled job stays what
/// it was.
pub proof fn lemma_what_each_state_means(state: JobState)
    ensures
        active(state) <==> state is Queued || state is Probing || state is Running,
        retryable(state) <==> state is Failed || state is Cancelled,
        state is Cancelled ==> after_failure(state) is Cancelled,
        !(state is Cancelled) ==> after_failure(state) is Failed,
{
}

/// A failure marks the first job of the id as failed, with the error, unless it was
/// cancelled. Nothing else changes but that nothing of the job is live any more and
/// there is nothing left to kill.
pub proof fn lemma_failure_marks_the_job(s: SessionView, id: Seq<char>, error: Seq<char>, n: int)
    requires
        is_first(s.jobs, id, n),
    ensures
        ({
            let t = failed(s, id, error);
            &&& differ_at(s.jobs, t.jobs, n)
            &&& s.jobs[n].state is Cancelled ==> t.jobs[n] == s.jobs[n]
            &&& !(s.jobs[n].state is Cancelled) ==> t.jobs[n] == (JobView {
                state: JobState::Failed,
                error: Some(error),
                ..s.jobs[n]
            })
            &&& !t.live.dom().contains(id) && !t.cancels.contains(id)
            &&& forall|k: Seq<char>|
                k != id ==> (t.live.dom().contains(k) <==> #[trigger] s.live.dom().contains(k))
                    && t.live[k] == s.live[k]
            &&& forall|k: Seq<char>|
                k != id ==> (t.cancels.contains(k) <==> #[trigger] s.cancels.contains(k))
            &&& t == (SessionView { jobs: t.jobs, live: t.live, cancels: t.cancels, ..s })
        }),
{
    lemma_with_job_at(s.jobs, id, failed_job(job_at(s.jobs, id), error), n);
}

/// The end of a run makes a running job done and leaves any other state as it is.
/// Nothing else changes but that nothing of the job is live any more and there is
/// nothing left to kill.
pub proof fn lemma_end_of_a_run_makes_it_done(s: SessionView, id: Seq<char>, n: int)
    requires
        is_first(s.jobs, id, n),
    ensures
        ({
            let t = finished(s, id);
            &&& differ_at(s.jobs, t.jobs, n)
            &&& s.jobs[n].state is Running ==> t.jobs[n] == (JobView {
                state: JobState::Done,
                ..s.jobs[n]
            })
            &&& !(s.jobs[n].state is Running) ==> t.jobs[n] == s.jobs[n]
            &&& !t.live.dom().contains(id) && !t.cancels.contains(id)
            &&& forall|k: Seq<char>|
                k != id ==> (t.live.dom().contains(k) <==> #[trigger] s.live.dom().contains(k))
                    && t.live[k] == s.live[k]
            &&& forall|k: Seq<char>|
                k != id ==> (t.cancels.contains(k) <==> #[trigger] s.cancels.contains(k))
            &&& t == (SessionView { jobs: t.jobs, live: t.live, cancels: t.cancels, ..s })
        }),
{
    lemma_with_job_at(s.jobs, id, finished_job(job_at(s.jobs, id)), n);
}

proof fn lemma_without_pending_filters(p: Seq<PendingView>, id: Seq<char>)
    ensures
        without_pending(p, id) == p.filter(|x: PendingView| x.job_id != id),
    decreases p.len(),
{
    reveal(Seq::filter);
    if p.len() > 0 {
        lemma_without_pending_filters(p.drop_last(), id);
    }
}

proof fn lemma_without_job_filters(jobs: Seq<JobView>, id: Seq<char>)
    ensures
        without_job(jobs, id) == jobs.filter(|x: JobView| x.id != id),
    decreases jobs.len(),
{
    reveal(Seq::filter);
    if jobs.len() > 0 {
        lemma_without_job_filters(jobs.drop_last(), id);
    }
}

/// A cancel marks the first job of the id as cancelled, whatever its state, without
/// an error, and takes its launches out of the queue. The launches of the others stay
/// in their order. Nothing else changes but that nothing of the job is live any more
/// and there is nothing left to kill.
pub proof fn lemma_cancel_marks_the_job(s: SessionView, id: Seq<char>, n: int)
    requires
        is_first(s.jobs, id, n),
    ensures
        ({
            let t = cancelled(s, id);
            &&& differ_at(s.jobs, t.jobs, n)
            &&& t.jobs[n] == (JobView { state: JobState::Cancelled, error: None, ..s.jobs[n] })
            &&& t.pending == s.pending.filter(|x: PendingView| x.job_id != id)
            &&& !t.live.dom().contains(id) && !t.cancels.contains(id)
            &&& forall|k: Seq<char>|
                k != id ==> (t.live.dom().contains(k) <==> #[trigger] s.live.dom().contains(k))
                    && t.live[k] == s.live[k]
            &&& forall|k: Seq<char>|
                k != id ==> (t.cancels.contains(k) <==> #[trigger] s.cancels.contains(k))
            &&& t == (SessionView {
                jobs: t.jobs,
                pending: t.pending,
                live: t.live,
                cancels: t.cancels,
                ..s
            })
        }),
{
    lemma_with_job_at(s.jobs, id, cancelled_job(job_at(s.jobs, id)), n);
    lemma_without_pending_filters(s.pending, id);
}

/// Removing a job takes it from the list and leaves the others in their order. It is
/// selected no longer; another selection stays. The queue and all else stay.
pub proof fn lemma_removal_takes_the_job_from_the_list(s: SessionView, id: Seq<char>)
    ensures
        ({
            let t = removed(s, id);
            &&& t.jobs == s.jobs.filter(|x: JobView| x.id != id)
            &&& s.selected == Some(id) ==> t.selected is None
            &&& s.selected != Some(id) ==> t.selected == s.selected
            &&& !t.live.dom().contains(id) && !t.cancels.contains(id)
            &&& forall|k: Seq<char>|
                k != id ==> (t.live.dom().contains(k) <==> #[trigger] s.live.dom().contains(k))
                    && t.live[k] == s.live[k]
            &&& forall|k: Seq<char>|
                k != id ==> (t.cancels.contains(k) <==> #[trigger] s.cancels.contains(k))
            &&& t == (SessionView {
                jobs: t.jobs,
                selected: t.selected,
                live: t.live,
                cancels: t.cancels,
                ..s
            })
        }),
{
    lemma_without_job_filters(s.jobs, id);
}

/// An ending of a job that is not listed changes no job.
pub proof fn lemma_endings_of_unlisted_jobs(s: SessionView, id: Seq<char>, error: Seq<char>)
    requires
        forall|i: int| 0 <= i < s.jobs.len() ==> (#[trigger] s.jobs[i]).id != id,
    ensures
        failed(s, id, error).jobs == s.jobs,
        finished(s, id).jobs == s.jobs,
        cancelled(s, id).jobs == s.jobs,
        snapshot(s, id) is None,
{
    lemma_with_job_at(s.jobs, id, failed_job(job_at(s.jobs, id), error), s.jobs.len() as int);
}

/// What is saved of a job is the first one of its id, as it stands.
pub proof fn lemma_saved_job_is_the_first(s: SessionView, id: Seq<char>, n: int)
    requires
        is_first(s.jobs, id, n),
    ensures
        snapshot(s, id) == Some(s.jobs[n]),
{
    lemma_with_job_at(s.jobs, id, s.jobs[n], n);
}

/// A fresh start shows the library's home with nothing listed, selected, open,
/// queued or running.
pub proof fn lemma_fresh_start_is_empty()
    ensures
        ({
            let f = fresh_session();
            &&& f.jobs.len() == 0 && f.pending.len() == 0 && f.presets.len() == 0
            &&& f.live.dom() == Set::<Seq<char>>::empty()
            &&& f.cancels == Set::<Seq<char>>::empty()
            &&& f.selected is None && f.open_item is None && f.editing is None
            &&& f.route is Library && f.tab is Home
            &&& !f.modal && !f.launcher_active && !f.window_maximized && !f.detail_fullscreen
            &&& f.probe is Idle && f.probe_gen == 0
            &&& f.ytdlp is None && f.startup_error is None && f.update_status is None
            &&& f.chosen_preset is None && f.convert_picker is None
            &&& f.pending_window_action is None
        }),
{
}

} // verus!
