//! A walk through the interface without anything behind it: made-up jobs, and
//! screens that answer to clicks alone.

use vstd::prelude::*;

use crate::session::SidebarTab;
use crate::text::{concat, decimal_u64};
#[allow(unused_imports)]
use crate::text::{decimal, deep, lemma_deep_push};
use crate::widget::{Tab, TabBar};

verus! {

/// A made-up job.
#[derive(Debug, Clone, Copy, PartialEq, Eq)]
pub struct FakeJob {
    pub title: &'static str,
    pub subtitle: &'static str,
}

/// How many made-up jobs there are.
pub const FAKE_JOBS: usize = 3;

/// The titles and subtitles of the made-up jobs.
pub open spec fn fake_job(i: int) -> (Seq<char>, Seq<char>) {
    if i == 0 {
        ("Conference talk — opening keynote"@, "1 video"@)
    } else if i == 1 {
        ("Weekly livestream archive, part 3"@, "1 video"@)
    } else {
        ("Album, full playlist rip"@, "12 videos"@)
    }
}

fn fake_at(i: usize) -> (r: FakeJob)
    ensures
        (r.title@, r.subtitle@) == fake_job(i as int),
{
    if i == 0 {
        FakeJob { title: "Conference talk — opening keynote", subtitle: "1 video" }
    } else if i == 1 {
        FakeJob { title: "Weekly livestream archive, part 3", subtitle: "1 video" }
    } else {
        FakeJob { title: "Album, full playlist rip", subtitle: "12 videos" }
    }
}

/// What a click asks for.
#[derive(Debug, Clone, Copy, PartialEq, Eq, Structural)]
pub enum DemoAction {
    SwitchTab(usize),
    ToggleSettings,
    CloseSettings,
    SetAutoplay(bool),
    Select(usize),
    Cancel,
    DismissNotice,
}

/// The state of the walk.
#[derive(Debug, Clone, Copy, PartialEq, Eq, Structural)]
pub struct Demo {
    pub tab: SidebarTab,
    pub settings_open: bool,
    pub autoplay_previews: bool,
    pub selected: Option<usize>,
    pub in_progress_cancelled: bool,
    pub notice_dismissed: bool,
}

/// The state after a click.
pub open spec fn acted(d: Demo, action: DemoAction) -> Demo {
    match action {
        DemoAction::SwitchTab(ix) => Demo { tab: SidebarTab::at(ix), ..d },
        DemoAction::ToggleSettings => Demo { settings_open: !d.settings_open, ..d },
        DemoAction::CloseSettings => Demo { settings_open: false, ..d },
        DemoAction::SetAutoplay(on) => Demo { autoplay_previews: on, ..d },
        DemoAction::Select(i) => Demo { selected: Some(i), ..d },
        DemoAction::Cancel => Demo { in_progress_cancelled: true, ..d },
        DemoAction::DismissNotice => Demo { notice_dismissed: true, ..d },
    }
}

/// A row of the list.
#[derive(Debug, PartialEq, Eq)]
pub struct DemoRow {
    pub id: String,
    pub job: FakeJob,
    pub active: bool,
    pub action: DemoAction,
}

/// What stands below the top bar.
#[derive(Debug, PartialEq, Eq)]
pub enum DemoBody {
    Home(Vec<DemoRow>),
    /// A job that never ends, with a button that cancels it.
    Running,
    Cancelled,
    /// A way back, and a switch, which reports the value it moves to.
    Settings { autoplay: bool, action: DemoAction },
}

/// What is on the screen.
#[derive(Debug, PartialEq, Eq)]
pub struct DemoScreen {
    pub tabs: TabBar,
    /// Whether the settings button is lit.
    pub settings: bool,
    pub body: DemoBody,
    /// Whether the notice that nothing is real is up.
    pub notice: bool,
}

/// Whether rows are those of the made-up jobs.
pub open spec fn is_home(rows: Seq<DemoRow>, d: Demo) -> bool {
    &&& rows.len() == FAKE_JOBS
    &&& forall|i: int|
        0 <= i < rows.len() ==> {
            &&& (#[trigger] rows[i]).id@ == "job-"@ + decimal(i as nat)
            &&& (rows[i].job.title@, rows[i].job.subtitle@) == fake_job(i)
            &&& rows[i].active == (d.selected == Some(i as usize))
            &&& rows[i].action == DemoAction::Select(i as usize)
        }
}

/// Whether a body is that of a state.
pub open spec fn is_body(body: DemoBody, d: Demo) -> bool {
    if d.settings_open {
        body == (DemoBody::Settings {
            autoplay: d.autoplay_previews,
            action: DemoAction::SetAutoplay(!d.autoplay_previews),
        })
    } else {
        match d.tab {
            SidebarTab::Home => body matches DemoBody::Home(rows) && is_home(rows@, d),
            SidebarTab::InProgress => body == (if d.in_progress_cancelled {
                DemoBody::Cancelled
            } else {
                DemoBody::Running
            }),
        }
    }
}

impl Demo {
    pub fn new() -> (r: Demo)
        ensures
            r == (Demo {
                tab: SidebarTab::Home,
                settings_open: false,
                autoplay_previews: true,
                selected: None,
                in_progress_cancelled: false,
                notice_dismissed: false,
            }),
    {
        Demo {
            tab: SidebarTab::Home,
            settings_open: false,
            autoplay_previews: true,
            selected: None,
            in_progress_cancelled: false,
            notice_dismissed: false,
        }
    }

    /// Does what a click asks for.
    pub fn act(&mut self, action: DemoAction)
        ensures
            *final(self) == acted(*old(self), action),
    {
        match action {
            DemoAction::SwitchTab(ix) => {
                self.tab = SidebarTab::from_index(ix);
            },
            DemoAction::ToggleSettings => {
                self.settings_open = !self.settings_open;
            },
            DemoAction::CloseSettings => {
                self.settings_open = false;
            },
            DemoAction::SetAutoplay(on) => {
                self.autoplay_previews = on;
            },
            DemoAction::Select(i) => {
                self.selected = Some(i);
            },
            DemoAction::Cancel => {
                self.in_progress_cancelled = true;
            },
            DemoAction::DismissNotice => {
                self.notice_dismissed = true;
            },
        }
    }

    fn job_row(&self, i: usize) -> (r: DemoRow)
        ensures
            r.id@ == "job-"@ + decimal(i as nat),
            (r.job.title@, r.job.subtitle@) == fake_job(i as int),
            r.active == (self.selected == Some(i)),
            r.action == DemoAction::Select(i),
    {
        let active: bool = match self.selected {
            Some(s) => s == i,
            None => false,
        };
        DemoRow {
            id: concat("job-", decimal_u64(i as u64).as_str()),
            job: fake_at(i),
            active,
            action: DemoAction::Select(i),
        }
    }

    fn body(&self) -> (r: DemoBody)
        ensures
            is_body(r, *self),
    {
        if self.settings_open {
            return DemoBody::Settings {
                autoplay: self.autoplay_previews,
                action: DemoAction::SetAutoplay(!self.autoplay_previews),
            };
        }
        match self.tab {
            SidebarTab::InProgress => if self.in_progress_cancelled {
                DemoBody::Cancelled
            } else {
                DemoBody::Running
            },
            SidebarTab::Home => {
                let mut rows: Vec<DemoRow> = Vec::new();
                rows.push(self.job_row(0));
                rows.push(self.job_row(1));
                rows.push(self.job_row(2));
                DemoBody::Home(rows)
            },
        }
    }

    /// What is on the screen.
    pub fn render(&self) -> (r: DemoScreen)
        ensures
            r.tabs.id@ == "navbar-tabs"@,
            deep(r.tabs.tabs@) == seq!["Home"@, "In Progress"@],
            r.tabs.selected == self.tab.index_spec(),
            r.tabs.segmented,
            r.settings == self.settings_open,
            is_body(r.body, *self),
            r.notice == !self.notice_dismissed,
    {
        broadcast use lemma_deep_push;

        let mut names: Vec<Tab> = Vec::new();
        names.push(Tab::new().label("Home"));
        names.push(Tab::new().label("In Progress"));
        let ghost listed = names@;
        assert(deep(names@) =~= seq!["Home"@, "In Progress"@]);
        let tabs: TabBar = TabBar::new("navbar-tabs").segmented().selected_index(
            self.tab.index(),
        ).children(names);
        assert(tabs.tabs@ =~= listed);
        DemoScreen {
            tabs,
            settings: self.settings_open,
            body: self.body(),
            notice: !self.notice_dismissed,
        }
    }
}

/// The state after a number of clicks.
pub open spec fn acted_all(d: Demo, actions: Seq<DemoAction>) -> Demo
    decreases actions.len(),
{
    if actions.len() == 0 {
        d
    } else {
        acted(acted_all(d, actions.drop_last()), actions.last())
    }
}

/// A cancelled job stays cancelled and a dismissed notice stays away, whatever is
/// clicked.
pub proof fn lemma_what_is_gone_stays_gone(d: Demo, actions: Seq<DemoAction>)
    ensures
        d.in_progress_cancelled ==> acted_all(d, actions).in_progress_cancelled,
        d.notice_dismissed ==> acted_all(d, actions).notice_dismissed,
    decreases actions.len(),
{
    if actions.len() > 0 {
        lemma_what_is_gone_stays_gone(d, actions.drop_last());
    }
}

/// The switch of the settings turns autoplay over each time.
pub proof fn lemma_switch_turns_over(d: Demo)
    ensures
        ({
            let once = acted(d, DemoAction::SetAutoplay(!d.autoplay_previews));
            acted(once, DemoAction::SetAutoplay(!once.autoplay_previews)) == d
        }),
{
}

/// The made-up jobs by their titles.
pub proof fn lemma_made_up_jobs()
    ensures
        FAKE_JOBS == 3,
        fake_job(0) == ("Conference talk — opening keynote"@, "1 video"@),
        fake_job(1) == ("Weekly livestream archive, part 3"@, "1 video"@),
        fake_job(2) == ("Album, full playlist rip"@, "12 videos"@),
{
}

/// Each click changes what it is for and nothing else.
pub proof fn lemma_clicks_change_what_they_are_for(d: Demo, ix: usize, on: bool)
    ensures
        ix == 1 ==> acted(d, DemoAction::SwitchTab(ix)) == (Demo {
            tab: SidebarTab::InProgress,
            ..d
        }),
        ix != 1 ==> acted(d, DemoAction::SwitchTab(ix)) == (Demo { tab: SidebarTab::Home, ..d }),
        acted(d, DemoAction::ToggleSettings) == (Demo { settings_open: !d.settings_open, ..d }),
        acted(d, DemoAction::CloseSettings) == (Demo { settings_open: false, ..d }),
        acted(d, DemoAction::SetAutoplay(on)) == (Demo { autoplay_previews: on, ..d }),
        acted(d, DemoAction::Select(ix)) == (Demo { selected: Some(ix), ..d }),
        acted(d, DemoAction::Cancel) == (Demo { in_progress_cancelled: true, ..d }),
        acted(d, DemoAction::DismissNotice) == (Demo { notice_dismissed: true, ..d }),
{
}

/// Below the bar stand the settings while they are open, with a switch that moves to the
/// other value; else the list at home, with the selected job marked; else the job that
/// runs, or was cancelled.
pub proof fn lemma_body_follows_the_state(body: DemoBody, d: Demo, i: int)
    requires
        is_body(body, d),
    ensures
        d.settings_open ==> body == (DemoBody::Settings {
            autoplay: d.autoplay_previews,
            action: DemoAction::SetAutoplay(!d.autoplay_previews),
        }),
        !d.settings_open && d.tab is InProgress && d.in_progress_cancelled ==> body is Cancelled,
        !d.settings_open && d.tab is InProgress && !d.in_progress_cancelled ==> body is Running,
        !d.settings_open && d.tab is Home ==> body is Home && body->Home_0@.len() == 3,
        !d.settings_open && d.tab is Home && 0 <= i < 3 ==> {
            let row = body->Home_0@[i];
            &&& row.id@ == "job-"@ + decimal(i as nat)
            &&& row.job.title@ == fake_job(i).0 && row.job.subtitle@ == fake_job(i).1
            &&& row.active <==> d.selected == Some(i as usize)
            &&& row.action == DemoAction::Select(i as usize)
        },
{
}

} // verus!
