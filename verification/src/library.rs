//! Getting around: what is open, what is listed where, and the small state
//! machines behind the address field, the library's opening and the update of
//! yt-dlp.

use vstd::prelude::*;

use crate::model::{Job, Preset};
#[allow(unused_imports)]
use crate::model::{JobView, PresetView};
use crate::runner::Probe;
use crate::session::{is_active, ProbeState, Route, Session, SidebarTab, WindowAction};
#[allow(unused_imports)]
use crate::session::{active, SessionView};
use crate::text::{concat, concat3, copy_opt, owned, strip_prefix, trim};
#[allow(unused_imports)]
use crate::text::{
    deep, has_prefix, is_blank, is_plain, lemma_deep_push, lemma_trim_takes_the_ends, opt, trim_spec,
};

verus! {

// ---------------------------------------------------------------------------
// Probing the typed address
// ---------------------------------------------------------------------------

/// How long typing has to rest before a probe starts, in milliseconds.
pub const PROBE_DELAY_MS: u64 = 500;

/// How a probe came out.
#[derive(Debug)]
pub enum ProbeOutcome {
    Found(Probe),
    Failed(String),
    /// The task went away before it answered.
    Cancelled,
}

/// Counts a keystroke.
pub open spec fn next_probe(n: u64) -> u64 {
    if n == u64::MAX {
        0
    } else {
        (n + 1) as u64
    }
}

/// Whether a text looks like an address.
pub open spec fn is_address(text: Seq<char>) -> bool {
    has_prefix(trim_spec(text), "http"@)
}

/// The state after the address was edited.
pub open spec fn address_changed(s: SessionView, text: Seq<char>) -> SessionView {
    SessionView {
        probe_gen: next_probe(s.probe_gen),
        probe: if is_address(text) {
            s.probe
        } else {
            ProbeState::Idle
        },
        ..s
    }
}

/// The state after a probe of a generation started.
pub open spec fn probe_started(s: SessionView, generation: u64) -> SessionView {
    if s.probe_gen == generation {
        SessionView { probe: ProbeState::Running, ..s }
    } else {
        s
    }
}

impl Session {
    /// The address was edited. Gives back the generation to hand to `probe_due`
    /// when the delay has run out, where there is something to probe and a
    /// yt-dlp to probe it with. Every edit overtakes the probe before it.
    pub fn schedule_probe(&mut self, url: &str) -> (r: Option<u64>)
        ensures
            final(self)@ == address_changed(old(self)@, url@),
            r == (if is_address(url@) && old(self)@.ytdlp is Some {
                Some(final(self)@.probe_gen)
            } else {
                None
            }),
    {
        self.probe_gen = if self.probe_gen == u64::MAX {
            0
        } else {
            self.probe_gen + 1
        };
        if strip_prefix(trim(url).as_str(), "http").is_none() {
            self.probe = ProbeState::Idle;
            assert(self@ =~= address_changed(old(self)@, url@));
            return None;
        }
        assert(self@ =~= address_changed(old(self)@, url@));
        if self.ytdlp.is_some() {
            Some(self.probe_gen)
        } else {
            None
        }
    }

    /// The delay of a generation ran out. Says whether to run the probe: not
    /// where a newer edit overtook it.
    pub fn probe_due(&mut self, generation: u64) -> (run: bool)
        ensures
            final(self)@ == probe_started(old(self)@, generation),
            run == (old(self)@.probe_gen == generation),
    {
        if self.probe_gen != generation {
            return false;
        }
        self.probe = ProbeState::Running;
        assert(self@ =~= probe_started(old(self)@, generation));
        true
    }

    /// The probe of a generation came out.
    pub fn probe_done(&mut self, generation: u64, outcome: ProbeOutcome)
        ensures
            old(self)@.probe_gen != generation ==> final(self)@ == old(self)@,
            old(self)@.probe_gen == generation ==> {
                &&& final(self)@ == (SessionView { probe: final(self)@.probe, ..old(self)@ })
                &&& match outcome {
                    ProbeOutcome::Found(p) => final(self)@.probe == ProbeState::Found(p),
                    ProbeOutcome::Failed(e) => final(self)@.probe == ProbeState::Failed(e),
                    ProbeOutcome::Cancelled => final(self)@.probe matches ProbeState::Failed(e)
                        && e@ == "probe cancelled"@,
                }
            },
    {
        if self.probe_gen != generation {
            return ;
        }
        self.probe = match outcome {
            ProbeOutcome::Found(p) => ProbeState::Found(p),
            ProbeOutcome::Failed(e) => ProbeState::Failed(e),
            ProbeOutcome::Cancelled => ProbeState::Failed(owned("probe cancelled")),
        };
        assert(self@ =~= (SessionView { probe: self@.probe, ..old(self)@ }));
    }
}

/// Editing the address overtakes the probe of what was typed before: it neither
/// starts nor reports any more.
pub proof fn lemma_edit_overtakes_probe(s: SessionView, text: Seq<char>)
    ensures
        ({
            let after = address_changed(s, text);
            &&& after.probe_gen != s.probe_gen
            &&& probe_started(after, s.probe_gen) == after
        }),
{
}

// ---------------------------------------------------------------------------
// yt-dlp and the stored library
// ---------------------------------------------------------------------------

/// The state after yt-dlp was looked for.
pub open spec fn ytdlp_refreshed(
    s: SessionView,
    found: Result<Seq<char>, Seq<char>>,
) -> SessionView {
    match found {
        Ok(path) => SessionView { ytdlp: Some(path), startup_error: None, ..s },
        Err(message) => SessionView { ytdlp: None, startup_error: Some(message), ..s },
    }
}

/// The value of what a search gave.
pub open spec fn found_view(found: Result<String, String>) -> Result<Seq<char>, Seq<char>> {
    match found {
        Ok(path) => Ok(path@),
        Err(message) => Err(message@),
    }
}

/// The preset that a fresh start offers: the default one, or else the first.
pub open spec fn offered(presets: Seq<PresetView>) -> Option<Seq<char>> {
    let i = default_pos(presets);
    if i < presets.len() {
        Some(presets[i].name)
    } else if presets.len() > 0 {
        Some(presets[0].name)
    } else {
        None
    }
}

/// Where the first default preset stands; the number of presets where there is
/// none.
pub open spec fn default_pos(presets: Seq<PresetView>) -> int
    decreases presets.len(),
{
    if presets.len() == 0 || presets[0].is_default {
        0
    } else {
        1 + default_pos(presets.skip(1))
    }
}

/// The state after an update of yt-dlp came to a message.
pub open spec fn update_told(s: SessionView, message: Seq<char>) -> SessionView {
    SessionView { update_status: Some(message), ..s }
}

/// How an update of yt-dlp came out.
#[derive(Debug)]
pub enum UpdateOutcome {
    /// The line it printed.
    Told(String),
    Failed(String),
    /// The task went away before it answered.
    Cancelled,
}

/// What is said of an update.
pub open spec fn update_message(outcome: UpdateOutcome) -> Seq<char> {
    match outcome {
        UpdateOutcome::Told(line) => line@,
        UpdateOutcome::Failed(e) => "Update failed: "@ + e@,
        UpdateOutcome::Cancelled => "Update task cancelled"@,
    }
}

fn find_default(presets: &Vec<Preset>) -> (r: usize)
    ensures
        r == default_pos(deep(presets@)),
        r <= presets@.len(),
{
    let ghost all = deep(presets@);
    let mut i: usize = 0;
    assert(all.skip(0) =~= all);
    while i < presets.len() && !presets[i].is_default
        invariant
            i <= presets@.len(),
            all == deep(presets@),
            default_pos(all) == i + default_pos(all.skip(i as int)),
        decreases presets@.len() - i,
    {
        assert(all.skip(i as int)[0] == presets@[i as int]@);
        assert(all.skip(i as int).skip(1) =~= all.skip(i + 1));
        i = i + 1;
    }
    if i < presets.len() {
        assert(all.skip(i as int)[0] == presets@[i as int]@);
    }
    i
}

impl Session {
    /// yt-dlp was looked for: the path it is at, or what to say where it is not.
    pub fn refresh_ytdlp(&mut self, found: Result<String, String>)
        ensures
            final(self)@ == ytdlp_refreshed(old(self)@, found_view(found)),
    {
        match found {
            Ok(path) => {
                self.ytdlp = Some(path);
                self.startup_error = None;
            },
            Err(message) => {
                self.ytdlp = None;
                self.startup_error = Some(message);
            },
        }
        assert(self@ =~= ytdlp_refreshed(old(self)@, found_view(found)));
    }

    /// The stored library was read.
    pub fn library_opened(&mut self, jobs: Vec<Job>, presets: Vec<Preset>)
        ensures
            final(self)@ == (SessionView {
                jobs: deep(jobs@),
                presets: deep(presets@),
                chosen_preset: offered(deep(presets@)),
                ..old(self)@
            }),
    {
        let i: usize = find_default(&presets);
        self.chosen_preset = if i < presets.len() {
            Some(owned(presets[i].name.as_str()))
        } else if presets.len() > 0 {
            Some(owned(presets[0].name.as_str()))
        } else {
            None
        };
        self.jobs = jobs;
        self.presets = presets;
        assert(self@ =~= (SessionView {
            jobs: deep(jobs@),
            presets: deep(presets@),
            chosen_preset: offered(deep(presets@)),
            ..old(self)@
        }));
    }

    /// The folder of the stored library could not be made.
    pub fn library_dir_failed(&mut self, dir: &str, error: &str)
        ensures
            final(self)@ == (SessionView {
                startup_error: Some("cannot create "@ + dir@ + ": "@ + error@),
                ..old(self)@
            }),
    {
        let head: String = concat3("cannot create ", dir, ": ");
        self.startup_error = Some(concat(head.as_str(), error));
    }

    /// The stored library could not be opened.
    pub fn library_failed(&mut self, error: &str)
        ensures
            final(self)@ == (SessionView {
                startup_error: Some("could not open library: "@ + error@),
                ..old(self)@
            }),
    {
        self.startup_error = Some(concat("could not open library: ", error));
    }

    /// Starts an update of yt-dlp. Gives back the path to run, where there is
    /// one.
    pub fn begin_update(&mut self) -> (r: Option<String>)
        ensures
            opt(r) == old(self)@.ytdlp,
            final(self)@ == (if old(self)@.ytdlp is Some {
                update_told(old(self)@, "Updating…"@)
            } else {
                old(self)@
            }),
    {
        let exe: Option<String> = copy_opt(&self.ytdlp);
        if exe.is_some() {
            self.update_status = Some(owned("Updating…"));
            assert(self@ =~= update_told(old(self)@, "Updating…"@));
        }
        exe
    }

    /// An update of yt-dlp came out; yt-dlp was looked for again after it.
    pub fn update_done(&mut self, outcome: UpdateOutcome, found: Result<String, String>)
        ensures
            final(self)@ == ytdlp_refreshed(
                update_told(old(self)@, update_message(outcome)),
                found_view(found),
            ),
    {
        let message: String = match outcome {
            UpdateOutcome::Told(line) => line,
            UpdateOutcome::Failed(e) => concat("Update failed: ", e.as_str()),
            UpdateOutcome::Cancelled => owned("Update task cancelled"),
        };
        self.update_status = Some(message);
        self.refresh_ytdlp(found);
        assert(self@ =~= ytdlp_refreshed(
            update_told(old(self)@, update_message(outcome)),
            found_view(found),
        ));
    }
}

/// The presets that a first run writes make the library usable as it is: the
/// one offered is the one marked default.
pub proof fn lemma_first_run_offers_the_default(dir: Seq<char>)
    ensures
        ({
            let seeds = crate::model::seed_presets(dir);
            &&& default_pos(seeds) < seeds.len()
            &&& offered(seeds) == Some(seeds[default_pos(seeds)].name)
        }),
{
    let seeds = crate::model::seed_presets(dir);
    if !seeds[0].is_default {
        assert(seeds.skip(1)[0] == seeds[1]);
        if !seeds[1].is_default {
            assert(seeds.skip(1).skip(1)[0] == seeds[2]);
            assert(default_pos(seeds.skip(1).skip(1)) == 0);
        }
    }
}

// ---------------------------------------------------------------------------
// Navigation
// ---------------------------------------------------------------------------

/// The state with no card open over the library.
pub open spec fn popover_closed(s: SessionView) -> SessionView {
    if s.selected is None {
        s
    } else {
        SessionView { selected: None, open_item: None, detail_fullscreen: false, ..s }
    }
}

/// The state after a tab was chosen.
pub open spec fn tab_switched(s: SessionView, ix: usize) -> SessionView {
    popover_closed(SessionView { tab: SidebarTab::at(ix), ..s })
}

/// The state after the settings button was pressed.
pub open spec fn settings_toggled(s: SessionView) -> SessionView {
    popover_closed(
        SessionView {
            route: if s.route == Route::Settings {
                Route::Library
            } else {
                Route::Settings
            },
            ..s
        },
    )
}

/// The state after the settings were left.
pub open spec fn settings_left(s: SessionView) -> SessionView {
    popover_closed(SessionView { route: Route::Library, ..s })
}

/// The state after a job was opened, at one of its items or at none.
pub open spec fn opened(s: SessionView, job: Seq<char>, item: Option<Seq<char>>) -> SessionView {
    SessionView { selected: Some(job), open_item: item, route: Route::Library, ..s }
}

/// The state after the New Download dialog was opened.
pub open spec fn modal_opened(s: SessionView, found: Result<Seq<char>, Seq<char>>) -> SessionView {
    ytdlp_refreshed(SessionView { modal: true, probe: ProbeState::Idle, ..s }, found)
}

impl Session {
    /// Closes the card over the library, where one is open. Says whether one
    /// was: what it played is to be stopped.
    pub fn close_popover(&mut self) -> (closed: bool)
        ensures
            final(self)@ == popover_closed(old(self)@),
            closed == (old(self)@.selected is Some),
    {
        if self.selected.is_none() {
            return false;
        }
        self.selected = None;
        self.open_item = None;
        self.detail_fullscreen = false;
        assert(self@ =~= popover_closed(old(self)@));
        true
    }

    /// A tab of the top bar was chosen. A card left open would point at a screen
    /// that is no longer there, so it is closed.
    pub fn switch_tab(&mut self, ix: usize) -> (closed: bool)
        ensures
            final(self)@ == tab_switched(old(self)@, ix),
            closed == (old(self)@.selected is Some),
    {
        self.tab = SidebarTab::from_index(ix);
        self.close_popover()
    }

    /// The settings button: there and back.
    pub fn toggle_settings(&mut self) -> (closed: bool)
        ensures
            final(self)@ == settings_toggled(old(self)@),
            closed == (old(self)@.selected is Some),
    {
        self.route = match self.route {
            Route::Settings => Route::Library,
            Route::Library => Route::Settings,
        };
        self.close_popover()
    }

    /// The back button of the settings: to whichever tab they were opened from.
    pub fn leave_settings(&mut self) -> (closed: bool)
        ensures
            final(self)@ == settings_left(old(self)@),
            closed == (old(self)@.selected is Some),
    {
        self.route = Route::Library;
        self.close_popover()
    }

    /// Opens a job, at one of its items or at none.
    pub fn open_job(&mut self, job_id: &str, item_id: Option<&str>)
        ensures
            final(self)@ == opened(
                old(self)@,
                job_id@,
                match item_id {
                    Some(i) => Some(i@),
                    None => None,
                },
            ),
    {
        self.selected = Some(owned(job_id));
        self.open_item = match item_id {
            Some(i) => Some(owned(i)),
            None => None,
        };
        self.route = Route::Library;
        assert(self@ =~= opened(
            old(self)@,
            job_id@,
            match item_id {
                Some(i) => Some(i@),
                None => None,
            },
        ));
    }

    /// Opens the New Download dialog. yt-dlp is looked for again, so that one
    /// installed meanwhile is found without a restart.
    pub fn open_modal(&mut self, found: Result<String, String>)
        ensures
            final(self)@ == modal_opened(old(self)@, found_view(found)),
    {
        self.modal = true;
        self.probe = ProbeState::Idle;
        assert(self@ =~= (SessionView { modal: true, probe: ProbeState::Idle, ..old(self)@ }));
        self.refresh_ytdlp(found);
    }

    /// Closes the New Download dialog.
    pub fn close_modal(&mut self)
        ensures
            final(self)@ == (SessionView { modal: false, ..old(self)@ }),
    {
        self.modal = false;
    }

    /// Chooses the preset of the next download.
    pub fn choose_preset(&mut self, name: &str)
        ensures
            final(self)@ == (SessionView { chosen_preset: Some(name@), ..old(self)@ }),
    {
        self.chosen_preset = Some(owned(name));
    }

    /// Asks for the target format of a file, or no longer does.
    pub fn pick_convert_source(&mut self, source: Option<&str>)
        ensures
            final(self)@ == (SessionView {
                convert_picker: match source {
                    Some(t) => Some(t@),
                    None => None,
                },
                ..old(self)@
            }),
    {
        self.convert_picker = match source {
            Some(t) => Some(owned(t)),
            None => None,
        };
    }

    /// The card fills the window, or no longer does.
    pub fn toggle_fullscreen(&mut self)
        ensures
            final(self)@ == (SessionView {
                detail_fullscreen: !old(self)@.detail_fullscreen,
                ..old(self)@
            }),
    {
        self.detail_fullscreen = !self.detail_fullscreen;
    }

    /// A caption button was pressed.
    pub fn ask_window(&mut self, action: WindowAction)
        ensures
            final(self)@ == (SessionView { pending_window_action: Some(action), ..old(self)@ }),
    {
        self.pending_window_action = Some(action);
    }

    /// What a caption button asked for since this was last called.
    pub fn take_window_action(&mut self) -> (r: Option<WindowAction>)
        ensures
            r == old(self)@.pending_window_action,
            final(self)@ == (SessionView { pending_window_action: None, ..old(self)@ }),
    {
        let action: Option<WindowAction> = self.pending_window_action;
        self.pending_window_action = None;
        action
    }

    /// Takes note of the window's real state, which changes without a caption
    /// button too.
    pub fn set_window_maximized(&mut self, maximized: bool)
        ensures
            final(self)@ == (SessionView { window_maximized: maximized, ..old(self)@ }),
    {
        self.window_maximized = maximized;
    }
}

/// No card stays open over a screen that was navigated away from, and nothing
/// else of the library changes by it.
pub proof fn lemma_navigation_closes_the_card(s: SessionView, ix: usize)
    ensures
        tab_switched(s, ix).selected is None,
        settings_toggled(s).selected is None,
        settings_left(s).selected is None,
        popover_closed(s).jobs == s.jobs,
        popover_closed(popover_closed(s)) == popover_closed(s),
{
}

/// Leaving the settings leads back to the tab they were opened from.
pub proof fn lemma_settings_lead_back(s: SessionView)
    requires
        s.route == Route::Library,
    ensures
        settings_left(settings_toggled(s)).route == Route::Library,
        settings_left(settings_toggled(s)).tab == s.tab,
        settings_toggled(settings_toggled(s)) == popover_closed(s),
{
}

// ---------------------------------------------------------------------------
// What is listed where
// ---------------------------------------------------------------------------

/// Whether a tab lists a job: what is still working in one, the rest in the
/// other.
pub open spec fn lists(tab: SidebarTab, job: JobView) -> bool {
    match tab {
        SidebarTab::Home => !active(job.state),
        SidebarTab::InProgress => active(job.state),
    }
}

/// The jobs that a tab lists, in their order.
pub open spec fn listed(jobs: Seq<JobView>, tab: SidebarTab) -> Seq<JobView>
    decreases jobs.len(),
{
    if jobs.len() == 0 {
        Seq::empty()
    } else if lists(tab, jobs.last()) {
        listed(jobs.drop_last(), tab).push(jobs.last())
    } else {
        listed(jobs.drop_last(), tab)
    }
}

/// The jobs that a tab lists. Home has every job that has finished one way or
/// another; In Progress has whatever is still doing work.
pub fn filter_jobs<'a>(jobs: &'a [Job], tab: SidebarTab) -> (r: Vec<&'a Job>)
    ensures
        deep(r@) == listed(deep(jobs@), tab),
{
    broadcast use lemma_deep_push;

    let ghost all = deep(jobs@);
    let mut out: Vec<&'a Job> = Vec::new();
    let mut i: usize = 0;
    assert(deep(out@) =~= listed(all.take(0), tab));
    while i < jobs.len()
        invariant
            i <= jobs@.len(),
            all == deep(jobs@),
            deep(out@) == listed(all.take(i as int), tab),
        decreases jobs@.len() - i,
    {
        broadcast use lemma_deep_push;

        let job: &'a Job = &jobs[i];
        assert(all.take(i + 1).drop_last() =~= all.take(i as int));
        assert(all.take(i + 1).last() == job@);
        let working: bool = is_active(job.state);
        let wanted: bool = match tab {
            SidebarTab::Home => !working,
            SidebarTab::InProgress => working,
        };
        if wanted {
            let ghost before = deep(out@);
            out.push(job);
            assert(deep(out@) =~= before.push(job@));
        }
        i = i + 1;
    }
    assert(all.take(i as int) =~= all);
    out
}

/// Every job is listed in exactly one of the tabs.
pub proof fn lemma_tabs_partition_the_jobs(jobs: Seq<JobView>)
    ensures
        listed(jobs, SidebarTab::Home).to_multiset().add(
            listed(jobs, SidebarTab::InProgress).to_multiset(),
        ) =~= jobs.to_multiset(),
        listed(jobs, SidebarTab::Home).len() + listed(jobs, SidebarTab::InProgress).len()
            == jobs.len(),
    decreases jobs.len(),
{
    broadcast use vstd::multiset::group_multiset_axioms;

    let home = SidebarTab::Home;
    let working = SidebarTab::InProgress;
    if jobs.len() > 0 {
        let rest = jobs.drop_last();
        let last = jobs.last();
        lemma_tabs_partition_the_jobs(rest);
        assert(rest.push(last) =~= jobs);
        vstd::seq_lib::to_multiset_build(rest, last);
        if lists(home, last) {
            vstd::seq_lib::to_multiset_build(listed(rest, home), last);
        } else {
            vstd::seq_lib::to_multiset_build(listed(rest, working), last);
        }
    } else {
        assert(jobs =~= Seq::empty());
        vstd::seq_lib::to_multiset_len(jobs);
        assert(listed(jobs, home) =~= jobs);
        assert(listed(jobs, working) =~= jobs);
        assert(jobs.to_multiset().add(jobs.to_multiset()) =~= jobs.to_multiset());
    }
}

/// Whatever a tab lists has its property: all that In Progress lists can be
/// cancelled, and nothing that Home lists can.
pub proof fn lemma_listed_jobs_fit(jobs: Seq<JobView>, tab: SidebarTab)
    ensures
        forall|i: int|
            0 <= i < listed(jobs, tab).len() ==> lists(tab, #[trigger] listed(jobs, tab)[i]),
    decreases jobs.len(),
{
    if jobs.len() > 0 {
        let rest = listed(jobs.drop_last(), tab);
        lemma_listed_jobs_fit(jobs.drop_last(), tab);
        assert forall|i: int| 0 <= i < listed(jobs, tab).len() implies lists(
            tab,
            #[trigger] listed(jobs, tab)[i],
        ) by {
            if i < rest.len() {
                assert(listed(jobs, tab)[i] == rest[i]);
            }
        }
    }
}

/// The screen that the main pane shows, on the axis that the top bar lays its
/// destinations out on.
pub open spec fn pane_of(s: SessionView) -> u64 {
    match (s.route, s.tab) {
        (Route::Settings, _) => 2,
        (Route::Library, SidebarTab::Home) => 0,
        (Route::Library, SidebarTab::InProgress) => 1,
    }
}

/// A screen of the main pane.
#[derive(Debug, Clone, Copy, PartialEq, Eq, Structural)]
pub enum Pane {
    Library,
    InProgress,
    Settings,
}

/// Which way a swap of screens travels.
#[derive(Debug, Clone, Copy, PartialEq, Eq, Structural)]
pub enum Travel {
    Forward,
    Backward,
}

impl Session {
    /// The screen that the main pane shows. A card over it changes nothing.
    pub fn pane_index(&self) -> (r: u64)
        ensures
            r == pane_of(self@),
            r <= 2,
    {
        match self.route {
            Route::Settings => 2,
            Route::Library => match self.tab {
                SidebarTab::Home => 0,
                SidebarTab::InProgress => 1,
            },
        }
    }
}

/// The screen at a place on that axis.
pub fn pane_at(index: u64) -> (r: Pane)
    ensures
        r == (if index == 2 {
            Pane::Settings
        } else if index == 1 {
            Pane::InProgress
        } else {
            Pane::Library
        }),
{
    if index == 2 {
        Pane::Settings
    } else if index == 1 {
        Pane::InProgress
    } else {
        Pane::Library
    }
}

/// Which way a swap travels: forward where the screen that comes stands further
/// right.
pub fn travel(from: u64, to: u64) -> (r: Travel)
    ensures
        r == (if to > from {
            Travel::Forward
        } else {
            Travel::Backward
        }),
{
    if to > from {
        Travel::Forward
    } else {
        Travel::Backward
    }
}

// ---------------------------------------------------------------------------
// What each step does
// ---------------------------------------------------------------------------

/// A text is an address exactly where it begins with `http`, whitespace aside.
pub proof fn lemma_address_begins_with_http(a: Seq<char>, d: Seq<char>, b: Seq<char>)
    requires
        is_blank(a),
        is_blank(b),
        is_plain(d),
    ensures
        is_address(a + d + b) <==> exists|rest: Seq<char>| d == "http"@ + rest,
        !is_address(a),
{
    lemma_trim_takes_the_ends(a, d, b);
    reveal_strlit("http");
    let head = "http"@;
    if has_prefix(d, head) {
        assert(d =~= head + d.skip(head.len() as int));
    }
    if exists|rest: Seq<char>| d == head + rest {
        let rest = choose|rest: Seq<char>| d == head + rest;
        assert(d.take(head.len() as int) =~= head);
    }
}

/// Every edit of the address counts one further; what was found of the text before stays
/// until the next probe where the new text is an address, and goes where it is none.
/// Nothing else changes.
pub proof fn lemma_edit_counts_further(s: SessionView, text: Seq<char>)
    ensures
        ({
            let t = address_changed(s, text);
            &&& s.probe_gen < u64::MAX ==> t.probe_gen == s.probe_gen + 1
            &&& s.probe_gen == u64::MAX ==> t.probe_gen == 0
            &&& is_address(text) ==> t.probe == s.probe
            &&& !is_address(text) ==> t.probe is Idle
            &&& t == (SessionView { probe_gen: t.probe_gen, probe: t.probe, ..s })
        }),
{
}

/// The probe of the newest edit starts, and that of no other.
pub proof fn lemma_newest_probe_starts(s: SessionView, generation: u64)
    ensures
        generation == s.probe_gen ==> probe_started(s, generation) == (SessionView {
            probe: ProbeState::Running,
            ..s
        }),
        generation != s.probe_gen ==> probe_started(s, generation) == s,
{
}

/// Where yt-dlp was found its path is kept and there is nothing to complain of; where it
/// was not, there is no path, and the message is told.
pub proof fn lemma_search_for_ytdlp_is_kept(s: SessionView, path: Seq<char>, message: Seq<char>)
    ensures
        ytdlp_refreshed(s, Ok(path)) == (SessionView {
            ytdlp: Some(path),
            startup_error: None,
            ..s
        }),
        ytdlp_refreshed(s, Err(message)) == (SessionView {
            ytdlp: None,
            startup_error: Some(message),
            ..s
        }),
{
}

proof fn lemma_default_pos(presets: Seq<PresetView>, m: int)
    requires
        0 <= m <= presets.len(),
        m < presets.len() ==> presets[m].is_default,
        forall|i: int| 0 <= i < m ==> !(#[trigger] presets[i]).is_default,
    ensures
        default_pos(presets) == m,
    decreases presets.len(),
{
    if m > 0 {
        let rest = presets.skip(1);
        assert forall|i: int| 0 <= i < m - 1 implies !(#[trigger] rest[i]).is_default by {
            assert(rest[i] == presets[i + 1]);
        }
        lemma_default_pos(rest, m - 1);
    }
}

/// A fresh start offers the first default preset; without a default the first of all;
/// without a preset none.
pub proof fn lemma_default_preset_is_offered(presets: Seq<PresetView>, m: int)
    requires
        0 <= m <= presets.len(),
        m < presets.len() ==> presets[m].is_default,
        forall|i: int| 0 <= i < m ==> !(#[trigger] presets[i]).is_default,
    ensures
        m < presets.len() ==> offered(presets) == Some(presets[m].name),
        m == presets.len() && m > 0 ==> offered(presets) == Some(presets[0].name),
        presets.len() == 0 ==> offered(presets) is None,
{
    lemma_default_pos(presets, m);
}

/// What is said of an update is what it printed, or that it failed and why, or that it was
/// given up.
pub proof fn lemma_update_is_told(s: SessionView, text: String)
    ensures
        update_message(UpdateOutcome::Told(text)) == text@,
        update_message(UpdateOutcome::Failed(text)) == "Update failed: "@ + text@,
        update_message(UpdateOutcome::Cancelled) == "Update task cancelled"@,
        update_told(s, text@) == (SessionView { update_status: Some(text@), ..s }),
{
}

/// Closing the card takes the selection, the open item and the full screen with it, and
/// changes nothing where no card is open.
pub proof fn lemma_closed_card_is_gone(s: SessionView)
    ensures
        s.selected is None ==> popover_closed(s) == s,
        s.selected is Some ==> popover_closed(s) == (SessionView {
            selected: None,
            open_item: None,
            detail_fullscreen: false,
            ..s
        }),
{
}

/// Choosing a tab, going to the settings and back, and leaving them close the card and
/// change where one is, and nothing else: the second tab is In Progress, any other Home.
pub proof fn lemma_navigation_changes_the_place(s: SessionView, ix: usize)
    ensures
        ix == 1 ==> tab_switched(s, ix).tab is InProgress,
        ix != 1 ==> tab_switched(s, ix).tab is Home,
        tab_switched(s, ix) == (SessionView {
            tab: tab_switched(s, ix).tab,
            ..popover_closed(s)
        }),
        s.route is Settings ==> settings_toggled(s).route is Library,
        s.route is Library ==> settings_toggled(s).route is Settings,
        settings_toggled(s) == (SessionView {
            route: settings_toggled(s).route,
            ..popover_closed(s)
        }),
        settings_left(s) == (SessionView { route: Route::Library, ..popover_closed(s) }),
{
}

/// Opening a job selects it, at the item where one is named, in the library. The dialog
/// for a new download opens with no probe and yt-dlp looked for anew.
pub proof fn lemma_opening_shows_what_was_asked_for(
    s: SessionView,
    job: Seq<char>,
    item: Option<Seq<char>>,
    path: Seq<char>,
    message: Seq<char>,
)
    ensures
        opened(s, job, item) == (SessionView {
            selected: Some(job),
            open_item: item,
            route: Route::Library,
            ..s
        }),
        modal_opened(s, Ok(path)) == (SessionView {
            modal: true,
            probe: ProbeState::Idle,
            ytdlp: Some(path),
            startup_error: None,
            ..s
        }),
        modal_opened(s, Err(message)) == (SessionView {
            modal: true,
            probe: ProbeState::Idle,
            ytdlp: None,
            startup_error: Some(message),
            ..s
        }),
{
}

/// In Progress lists the jobs that wait, are probed or run, Home all others, each in the
/// order they stand in.
pub proof fn lemma_tabs_list_by_state(jobs: Seq<JobView>)
    ensures
        listed(jobs, SidebarTab::InProgress) == jobs.filter(
            |j: JobView| j.state is Queued || j.state is Probing || j.state is Running,
        ),
        listed(jobs, SidebarTab::Home) == jobs.filter(
            |j: JobView| j.state is Done || j.state is Failed || j.state is Cancelled,
        ),
    decreases jobs.len(),
{
    reveal(Seq::filter);
    if jobs.len() > 0 {
        lemma_tabs_list_by_state(jobs.drop_last());
    }
}

/// The screens stand side by side: Home, In Progress, the settings.
pub proof fn lemma_screens_stand_side_by_side(s: SessionView)
    ensures
        s.route is Settings ==> pane_of(s) == 2,
        s.route is Library && s.tab is InProgress ==> pane_of(s) == 1,
        s.route is Library && s.tab is Home ==> pane_of(s) == 0,
{
}

/// Typing has to rest for half a second before a probe starts.
pub proof fn lemma_probe_waits()
    ensures
        PROBE_DELAY_MS == 500,
{
}

} // verus!
