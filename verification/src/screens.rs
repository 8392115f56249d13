//! What the main screens show: the top bar, the lists, the library's tiles and
//! the card of an open item.
//!
//! A screen is a value: its texts, its controls in their order, and what each
//! of them does. Whether a file is still there is asked of the disk by the
//! caller and handed in.

use vstd::prelude::*;

#[allow(unused_imports)]
use crate::library::{lists, listed};
use crate::library::filter_jobs;
use crate::model::{File, FileKind, Item, Job, JobKind, JobState};
#[allow(unused_imports)]
use crate::model::{FileView, ItemView, JobView};
use crate::paths::file_name;
#[allow(unused_imports)]
use crate::paths::file_name_spec;
use crate::readout::human_duration;
#[allow(unused_imports)]
use crate::readout::{clock_text, unit, whole_part};
use crate::session::{is_active, is_retryable, Route, Session, SidebarTab, WindowAction};
#[allow(unused_imports)]
use crate::session::{
    active, has_job, is_first, job_at, lemma_job_pos, lemma_with_job_at, retryable, LiveView,
    SessionView,
};
use crate::text::{concat, copy_opt, decimal_u64, owned, same};
#[allow(unused_imports)]
use crate::text::{decimal, deep, lemma_deep_add, lemma_deep_push, opt};
use crate::widget::{Action, Button, IconName, KeyValue, Tab, TabBar};
#[allow(unused_imports)]
use crate::widget::{plain_button, ActionView, ButtonSize, ButtonVariant, ButtonView, KeyValueView};
use crate::ytdlp::{Double, Single};

verus! {

/// A short remark under a title.
#[derive(Debug, PartialEq)]
pub enum Note {
    /// Shown as it is.
    Text(String),
    /// A number of bytes, shown in its unit.
    Size(i128),
    /// Bytes a second, shown in their unit with `/s` behind.
    Rate(Double),
}

/// The value of a `Note`.
pub enum NoteView {
    Text(Seq<char>),
    Size(int),
    Rate(Double),
}

impl View for Note {
    type V = NoteView;

    open spec fn view(&self) -> NoteView {
        match self {
            Note::Text(t) => NoteView::Text(t@),
            Note::Size(n) => NoteView::Size(*n as int),
            Note::Rate(r) => NoteView::Rate(*r),
        }
    }
}

// ---------------------------------------------------------------------------
// The top bar
// ---------------------------------------------------------------------------

/// A button of the top bar.
pub open spec fn bar_button(id: Seq<char>, icon: IconName, action: ActionView) -> ButtonView {
    ButtonView {
        variant: ButtonVariant::Subtle,
        icon: Some(icon),
        ..plain_button(id, action)
    }
}

/// A caption button.
pub open spec fn caption_button(id: Seq<char>, icon: IconName, action: WindowAction) -> ButtonView {
    ButtonView { size: ButtonSize::Small, ..bar_button(id, icon, ActionView::Window(action)) }
}

/// The buttons of the top bar, from left to right: a new download, a file to
/// convert, the settings, and the window's own three.
pub open spec fn navbar_buttons(s: SessionView) -> Seq<ButtonView> {
    seq![
        ButtonView {
            variant: ButtonVariant::Primary,
            ..bar_button("new-download"@, IconName::Plus, ActionView::OpenModal)
        },
        bar_button("convert-file"@, IconName::Replace, ActionView::PickFileToConvert),
        ButtonView {
            selected: s.route == Route::Settings,
            ..bar_button("settings"@, IconName::Settings, ActionView::ToggleSettings)
        },
        caption_button("win-minimize"@, IconName::Minimize, WindowAction::Minimize),
        caption_button(
            "win-maximize"@,
            if s.window_maximized {
                IconName::Restore
            } else {
                IconName::Maximize
            },
            WindowAction::ToggleMaximize,
        ),
        caption_button("win-close"@, IconName::Close, WindowAction::Close),
    ]
}

/// The top bar.
#[derive(Debug)]
pub struct Navbar {
    pub tabs: TabBar,
    pub buttons: Vec<Button>,
}

impl Session {
    /// The custom caption buttons that stand in for the native title bar.
    pub fn window_controls(&self) -> (r: Vec<Button>)
        ensures
            deep(r@) == navbar_buttons(self@).skip(3),
    {
        broadcast use lemma_deep_push;

        let mut r: Vec<Button> = Vec::new();
        r.push(
            Button::new("win-minimize", Action::Window(WindowAction::Minimize)).ghost().small().icon(
                IconName::Minimize,
            ),
        );
        let icon: IconName = if self.window_maximized {
            IconName::Restore
        } else {
            IconName::Maximize
        };
        r.push(
            Button::new(
                "win-maximize",
                Action::Window(WindowAction::ToggleMaximize),
            ).ghost().small().icon(icon),
        );
        r.push(
            Button::new("win-close", Action::Window(WindowAction::Close)).ghost().small().icon(
                IconName::Close,
            ),
        );
        assert(deep(r@) =~= navbar_buttons(self@).skip(3));
        r
    }

    /// The top bar: the two tabs, and its buttons.
    pub fn navbar(&self) -> (r: Navbar)
        ensures
            r.tabs.id@ == "navbar-tabs"@,
            deep(r.tabs.tabs@) == seq!["Home"@, "In Progress"@],
            r.tabs.selected == self@.tab.index_spec(),
            r.tabs.segmented,
            deep(r.buttons@) == navbar_buttons(self@),
    {
        broadcast use lemma_deep_push;

        let mut names: Vec<Tab> = Vec::new();
        names.push(Tab::new().label("Home"));
        names.push(Tab::new().label("In Progress"));
        let ghost listed_names = names@;
        assert(deep(names@) =~= seq!["Home"@, "In Progress"@]);
        let tabs: TabBar = TabBar::new("navbar-tabs").segmented().selected_index(
            self.tab.index(),
        ).children(names);
        assert(tabs.tabs@ =~= listed_names);

        let settings: bool = match self.route {
            Route::Settings => true,
            Route::Library => false,
        };
        let mut buttons: Vec<Button> = Vec::new();
        buttons.push(Button::new("new-download", Action::OpenModal).primary().icon(IconName::Plus));
        buttons.push(
            Button::new("convert-file", Action::PickFileToConvert).ghost().icon(IconName::Replace),
        );
        buttons.push(
            Button::new("settings", Action::ToggleSettings).ghost().selected(settings).icon(
                IconName::Settings,
            ),
        );
        let mut caption: Vec<Button> = self.window_controls();
        let ghost first = buttons@;
        let ghost last = caption@;
        buttons.append(&mut caption);
        proof {
            lemma_deep_add(first, last);
        }
        assert(deep(buttons@) =~= navbar_buttons(self@));
        Navbar { tabs, buttons }
    }
}

/// The notice that yt-dlp or the library could not be had.
#[derive(Debug)]
pub struct Toast {
    pub message: String,
    pub buttons: Vec<Button>,
}

/// The buttons of the notice.
pub open spec fn toast_buttons() -> Seq<ButtonView> {
    seq![
        ButtonView {
            size: ButtonSize::Small,
            icon: Some(IconName::Folder),
            label: Some("Open folder"@),
            ..plain_button("open-bin-dir"@, ActionView::OpenBinDir)
        },
        ButtonView {
            size: ButtonSize::Small,
            label: Some("Re-check"@),
            ..plain_button("banner-recheck"@, ActionView::RefreshYtdlp)
        },
    ]
}

impl Session {
    /// The notice that floats in a corner, where there is something to say.
    pub fn startup_error_toast(&self) -> (r: Option<Toast>)
        ensures
            match r {
                Some(t) => self@.startup_error == Some(t.message@) && deep(t.buttons@)
                    == toast_buttons(),
                None => self@.startup_error is None,
            },
    {
        broadcast use lemma_deep_push;

        match &self.startup_error {
            None => None,
            Some(message) => {
                let mut buttons: Vec<Button> = Vec::new();
                buttons.push(
                    Button::new("open-bin-dir", Action::OpenBinDir).small().icon(
                        IconName::Folder,
                    ).label("Open folder"),
                );
                buttons.push(
                    Button::new("banner-recheck", Action::RefreshYtdlp).small().label("Re-check"),
                );
                assert(deep(buttons@) =~= toast_buttons());
                Some(Toast { message: owned(message.as_str()), buttons })
            },
        }
    }
}

// ---------------------------------------------------------------------------
// Rows of jobs
// ---------------------------------------------------------------------------

/// A job's row.
#[derive(Debug)]
pub struct JobRow {
    pub id: String,
    pub title: String,
    pub note: Note,
    /// Whether the note tells of a failure.
    pub failed: bool,
    pub selected: bool,
    /// How much of the bar is filled, from zero to one; none shows no bar.
    pub progress: Option<Single>,
    pub action: Action,
}

/// How many videos a job has, in words.
pub open spec fn video_count(n: nat) -> Seq<char> {
    if n <= 1 {
        "1 video"@
    } else {
        decimal(n) + " videos"@
    }
}

/// The remark under a job's title: that it failed, how fast it runs, or how many
/// videos it has.
pub open spec fn row_note(job: JobView, live: Option<LiveView>) -> NoteView {
    match job.state {
        JobState::Failed => NoteView::Text("Failed"@),
        JobState::Running => match live {
            Some(l) => match l.speed {
                Some(r) => NoteView::Rate(r),
                None => NoteView::Text("Starting…"@),
            },
            None => NoteView::Text("Starting…"@),
        },
        _ => NoteView::Text(video_count(job.items.len())),
    }
}

/// The live state of a job, where there is one.
pub open spec fn live_state(s: SessionView, id: Seq<char>) -> Option<LiveView> {
    if s.live.dom().contains(id) {
        Some(s.live[id])
    } else {
        None
    }
}

/// Whether a row is that of a job.
pub open spec fn is_row_of(r: JobRow, s: SessionView, job: JobView) -> bool {
    &&& r.id@ == job.id
    &&& r.title@ == job.title
    &&& r.note@ == row_note(job, live_state(s, job.id))
    &&& r.failed == (job.state == JobState::Failed)
    &&& r.selected == (s.selected == Some(job.id) && s.route == Route::Library)
    &&& r.progress == (match live_state(s, job.id) {
        Some(l) => match l.fraction {
            Some(p) => Some(unit(p)),
            None => None,
        },
        None => None,
    })
    &&& r.action@ == (ActionView::OpenJob { job: job.id, item: None })
}

/// The list of what is still working.
#[derive(Debug)]
pub struct InProgress {
    pub rows: Vec<JobRow>,
    /// What to say where there is nothing.
    pub empty: Option<&'static str>,
}

impl Session {
    /// A job's row.
    pub fn job_row(&self, job: &Job) -> (r: JobRow)
        ensures
            is_row_of(r, self@, job@),
    {
        let mut speed: Option<Double> = None;
        let mut fraction: Option<Single> = None;
        match self.live.get(job.id.as_str()) {
            Some(l) => {
                speed = l.speed;
                fraction = l.fraction;
            },
            None => {},
        }
        let failed: bool = match job.state {
            JobState::Failed => true,
            _ => false,
        };
        let note: Note = match job.state {
            JobState::Failed => Note::Text(owned("Failed")),
            JobState::Running => match speed {
                Some(rate) => Note::Rate(rate),
                None => Note::Text(owned("Starting…")),
            },
            _ => {
                let n: usize = job.items.len();
                if n <= 1 {
                    Note::Text(owned("1 video"))
                } else {
                    Note::Text(concat(decimal_u64(n as u64).as_str(), " videos"))
                }
            },
        };
        let in_library: bool = match self.route {
            Route::Library => true,
            Route::Settings => false,
        };
        let selected: bool = match &self.selected {
            Some(id) => in_library && same(id.as_str(), job.id.as_str()),
            None => false,
        };
        let progress: Option<Single> = match fraction {
            Some(p) => Some(p.clamp_unit()),
            None => None,
        };
        JobRow {
            id: owned(job.id.as_str()),
            title: owned(job.title.as_str()),
            note,
            failed,
            selected,
            progress,
            action: Action::OpenJob { job: owned(job.id.as_str()), item: None },
        }
    }

    /// The list of what is still working, downloads and conversions alike, in
    /// their order.
    pub fn in_progress_pane(&self) -> (r: InProgress)
        ensures
            ({
                let jobs = listed(self@.jobs, SidebarTab::InProgress);
                &&& r.rows@.len() == jobs.len()
                &&& forall|i: int|
                    0 <= i < jobs.len() ==> is_row_of(#[trigger] r.rows@[i], self@, jobs[i])
                &&& match r.empty {
                    Some(text) => jobs.len() == 0 && text@ == "Nothing in progress"@,
                    None => jobs.len() > 0,
                }
            }),
    {
        let jobs: Vec<&Job> = filter_jobs(self.jobs.as_slice(), SidebarTab::InProgress);
        let ghost shown = listed(self@.jobs, SidebarTab::InProgress);
        let mut rows: Vec<JobRow> = Vec::new();
        let mut i: usize = 0;
        while i < jobs.len()
            invariant
                i <= jobs@.len(),
                deep(jobs@) == shown,
                rows@.len() == i,
                forall|k: int| 0 <= k < i ==> is_row_of(#[trigger] rows@[k], self@, shown[k]),
            decreases jobs@.len() - i,
        {
            assert(shown[i as int] == jobs@[i as int]@);
            rows.push(self.job_row(jobs[i]));
            i = i + 1;
        }
        let empty: Option<&'static str> = if jobs.len() == 0 {
            Some(SidebarTab::InProgress.empty_message())
        } else {
            None
        };
        InProgress { rows, empty }
    }
}

// ---------------------------------------------------------------------------
// The library
// ---------------------------------------------------------------------------

/// What happened to a job, in the one word there is room for on a tile, and
/// whether it went wrong.
pub fn job_status_chip(job: &Job) -> (r: (&'static str, bool))
    ensures
        r.0@ == (match job@.state {
            JobState::Failed => "Failed"@,
            JobState::Cancelled => "Cancelled"@,
            _ => match job@.kind {
                JobKind::Convert => "Converted"@,
                JobKind::Download => "Downloaded"@,
            },
        }),
        r.1 == retryable(job@.state),
{
    match job.state {
        JobState::Failed => ("Failed", true),
        JobState::Cancelled => ("Cancelled", true),
        _ => match job.kind {
            JobKind::Convert => ("Converted", false),
            JobKind::Download => ("Downloaded", false),
        },
    }
}

/// What a tile stands for: a job, and one of its items where it has any.
#[derive(Debug)]
pub struct TileRef<'a> {
    pub job: &'a Job,
    pub item: Option<&'a Item>,
}

/// The value of a `TileRef`.
#[verifier::ext_equal]
pub struct TileRefView {
    pub job: JobView,
    pub item: Option<ItemView>,
}

impl<'a> View for TileRef<'a> {
    type V = TileRefView;

    open spec fn view(&self) -> TileRefView {
        TileRefView {
            job: self.job@,
            item: match self.item {
                Some(i) => Some(i@),
                None => None,
            },
        }
    }
}

/// A list with the newest jobs first and one more job, behind those that are
/// not older.
pub open spec fn place_by_age(sorted: Seq<JobView>, job: JobView) -> Seq<JobView>
    decreases sorted.len(),
{
    if sorted.len() > 0 && sorted.last().created_at < job.created_at {
        place_by_age(sorted.drop_last(), job).push(sorted.last())
    } else {
        sorted.push(job)
    }
}

/// The jobs with the newest first; those of one second keep their order.
pub open spec fn newest_first(jobs: Seq<JobView>) -> Seq<JobView>
    decreases jobs.len(),
{
    if jobs.len() == 0 {
        jobs
    } else {
        place_by_age(newest_first(jobs.drop_last()), jobs.last())
    }
}

/// The tiles of one job: one for each item, or one for the job where it has
/// none.
pub open spec fn tiles_of(job: JobView) -> Seq<TileRefView> {
    if job.items.len() == 0 {
        seq![TileRefView { job, item: None }]
    } else {
        Seq::new(job.items.len(), |i: int| TileRefView { job, item: Some(job.items[i]) })
    }
}

/// The tiles of a list of jobs.
pub open spec fn all_tiles(jobs: Seq<JobView>) -> Seq<TileRefView>
    decreases jobs.len(),
{
    if jobs.len() == 0 {
        Seq::empty()
    } else {
        all_tiles(jobs.drop_last()) + tiles_of(jobs.last())
    }
}

/// The tiles of the library.
pub open spec fn library_tiles(s: SessionView) -> Seq<TileRefView> {
    all_tiles(newest_first(listed(s.jobs, SidebarTab::Home)))
}

proof fn lemma_place_by_age_insert(sorted: Seq<JobView>, job: JobView, i: int)
    requires
        0 <= i <= sorted.len(),
        i > 0 ==> sorted[i - 1].created_at >= job.created_at,
        forall|k: int| i <= k < sorted.len() ==> (#[trigger] sorted[k]).created_at < job.created_at,
    ensures
        place_by_age(sorted, job) == sorted.insert(i, job),
    decreases sorted.len(),
{
    if i < sorted.len() {
        let rest = sorted.drop_last();
        assert(sorted[sorted.len() - 1].created_at < job.created_at);
        lemma_place_by_age_insert(rest, job, i);
        assert(rest.insert(i, job).push(sorted.last()) =~= sorted.insert(i, job));
    } else {
        assert(sorted.push(job) =~= sorted.insert(i, job));
    }
}

fn place_job<'a>(sorted: &mut Vec<&'a Job>, job: &'a Job)
    ensures
        deep(final(sorted)@) == place_by_age(deep(old(sorted)@), job@),
{
    let ghost v = deep(sorted@);
    let mut i: usize = sorted.len();
    while i > 0 && sorted[i - 1].created_at < job.created_at
        invariant
            i <= sorted@.len(),
            sorted@ == old(sorted)@,
            v == deep(sorted@),
            forall|k: int| i <= k < v.len() ==> (#[trigger] v[k]).created_at < job@.created_at,
        decreases i,
    {
        assert(v[i - 1] == sorted@[i - 1]@);
        i = i - 1;
    }
    proof {
        if i > 0 {
            assert(v[i - 1] == sorted@[i - 1]@);
        }
        lemma_place_by_age_insert(v, job@, i as int);
    }
    sorted.insert(i, job);
    assert(deep(sorted@) =~= v.insert(i as int, job@));
}

fn sort_by_age<'a>(jobs: &Vec<&'a Job>) -> (r: Vec<&'a Job>)
    ensures
        deep(r@) == newest_first(deep(jobs@)),
{
    let ghost all = deep(jobs@);
    let mut out: Vec<&'a Job> = Vec::new();
    let mut i: usize = 0;
    assert(deep(out@) =~= newest_first(all.take(0)));
    while i < jobs.len()
        invariant
            i <= jobs@.len(),
            all == deep(jobs@),
            deep(out@) == newest_first(all.take(i as int)),
        decreases jobs@.len() - i,
    {
        let job: &'a Job = jobs[i];
        assert(all.take(i + 1).drop_last() =~= all.take(i as int));
        assert(all.take(i + 1).last() == job@);
        place_job(&mut out, job);
        i = i + 1;
    }
    assert(all.take(i as int) =~= all);
    out
}

fn push_tiles<'a>(out: &mut Vec<TileRef<'a>>, job: &'a Job)
    ensures
        deep(final(out)@) == deep(old(out)@) + tiles_of(job@),
{
    broadcast use lemma_deep_push;

    let ghost start = deep(out@);
    if job.items.len() == 0 {
        out.push(TileRef { job, item: None });
        assert(deep(out@) =~= start + tiles_of(job@));
        return ;
    }
    let mut i: usize = 0;
    while i < job.items.len()
        invariant
            i <= job.items@.len(),
            job.items@.len() > 0,
            deep(out@) == start + tiles_of(job@).take(i as int),
        decreases job.items@.len() - i,
    {
        broadcast use lemma_deep_push;

        let item: &'a Item = &job.items[i];
        let tile: TileRef<'a> = TileRef { job, item: Some(item) };
        let ghost before = deep(out@);
        assert(tiles_of(job@)[i as int] == tile@) by {
            assert(job@.items[i as int] == item@);
        }
        out.push(tile);
        i = i + 1;
        assert(deep(out@) =~= before.push(tile@));
        assert(deep(out@) =~= start + tiles_of(job@).take(i as int));
    }
    assert(tiles_of(job@).take(i as int) =~= tiles_of(job@));
}

impl Session {
    /// The tiles of the library: every finished download or conversion, the
    /// newest first, with a tile for each item.
    pub fn library(&self) -> (r: Vec<TileRef<'_>>)
        ensures
            deep(r@) == library_tiles(self@),
    {
        let finished: Vec<&Job> = filter_jobs(self.jobs.as_slice(), SidebarTab::Home);
        let jobs: Vec<&Job> = sort_by_age(&finished);
        let ghost all = deep(jobs@);
        let mut out: Vec<TileRef<'_>> = Vec::new();
        let mut i: usize = 0;
        assert(deep(out@) =~= all_tiles(all.take(0)));
        while i < jobs.len()
            invariant
                i <= jobs@.len(),
                all == deep(jobs@),
                deep(out@) == all_tiles(all.take(i as int)),
            decreases jobs@.len() - i,
        {
            assert(all.take(i + 1).drop_last() =~= all.take(i as int));
            assert(all.take(i + 1).last() == jobs@[i as int]@);
            push_tiles(&mut out, jobs[i]);
            i = i + 1;
        }
        assert(all.take(i as int) =~= all);
        out
    }
}

/// Whether a file can be played: video or sound.
pub open spec fn is_media(kind: FileKind) -> bool {
    kind == FileKind::Video || kind == FileKind::Audio
}

/// The path of the first file that can be played and is still there.
pub open spec fn playable(files: Seq<FileView>, present: Seq<bool>) -> Option<Seq<char>>
    decreases files.len(),
{
    if files.len() == 0 || present.len() == 0 {
        None
    } else if is_media(files[0].kind) && present[0] {
        Some(files[0].path)
    } else {
        playable(files.skip(1), present.skip(1))
    }
}

/// The bytes that files take, as far as their sizes are known.
pub open spec fn total_bytes(files: Seq<FileView>) -> int
    decreases files.len(),
{
    if files.len() == 0 {
        0
    } else {
        total_bytes(files.drop_last()) + (match files.last().bytes {
            Some(n) => n as int,
            None => 0,
        })
    }
}

/// The title of an item: its own, or the job's where it has none.
pub open spec fn shown_title(job: JobView, item: Option<ItemView>) -> Seq<char> {
    match item {
        Some(i) => if i.title.len() > 0 {
            i.title
        } else {
            job.title
        },
        None => job.title,
    }
}

/// The remarks under a tile's title: how long it is, and how large.
pub open spec fn tile_notes(item: Option<ItemView>) -> Seq<NoteView> {
    match item {
        None => Seq::empty(),
        Some(i) => {
            let length = match i.duration {
                Some(d) => seq![NoteView::Text(clock_text(whole_part(d)))],
                None => Seq::<NoteView>::empty(),
            };
            let size = if total_bytes(i.files) > 0 {
                seq![NoteView::Size(total_bytes(i.files))]
            } else {
                Seq::<NoteView>::empty()
            };
            length + size
        },
    }
}

/// A tile of the library.
#[derive(Debug)]
pub struct Tile {
    /// What the tile is known by: the item, or the job where it has none.
    pub key: String,
    pub id: String,
    pub title: String,
    pub thumb: Option<String>,
    pub notes: Vec<Note>,
    pub chip: &'static str,
    /// Whether the chip tells of something that went wrong.
    pub danger: bool,
    /// What plays while the pointer rests on it.
    pub preview: Option<String>,
    pub action: Action,
}

/// Whether a tile is that of a job and one of its items.
pub open spec fn is_tile_of(
    t: Tile,
    job: JobView,
    item: Option<ItemView>,
    present: Seq<bool>,
) -> bool {
    let key = match item {
        Some(i) => i.id,
        None => job.id,
    };
    &&& t.key@ == key
    &&& t.id@ == "tile-"@ + key
    &&& t.title@ == shown_title(job, item)
    &&& opt(t.thumb) == (match item {
        Some(i) => i.thumb_path,
        None => None,
    })
    &&& deep(t.notes@) == tile_notes(item)
    &&& t.chip@ == (match job.state {
        JobState::Failed => "Failed"@,
        JobState::Cancelled => "Cancelled"@,
        _ => match job.kind {
            JobKind::Convert => "Converted"@,
            JobKind::Download => "Downloaded"@,
        },
    })
    &&& t.danger == retryable(job.state)
    &&& opt(t.preview) == (match item {
        Some(i) => playable(i.files, present),
        None => None,
    })
    &&& t.action@ == (ActionView::OpenJob {
        job: job.id,
        item: match item {
            Some(i) => Some(i.id),
            None => None,
        },
    })
}

fn first_playable(files: &Vec<File>, present: &[bool]) -> (r: Option<String>)
    ensures
        opt(r) == playable(deep(files@), present@),
{
    let ghost all = deep(files@);
    let mut i: usize = 0;
    assert(all.skip(0) =~= all);
    assert(present@.skip(0) =~= present@);
    while i < files.len() && i < present.len()
        invariant
            i <= files@.len(),
            i <= present@.len(),
            all == deep(files@),
            playable(all, present@) == playable(all.skip(i as int), present@.skip(i as int)),
        decreases files@.len() - i,
    {
        assert(all.skip(i as int)[0] == files@[i as int]@);
        assert(present@.skip(i as int)[0] == present@[i as int]);
        let media: bool = match files[i].kind {
            FileKind::Video => true,
            FileKind::Audio => true,
            _ => false,
        };
        if media && present[i] {
            return Some(owned(files[i].path.as_str()));
        }
        assert(all.skip(i as int).skip(1) =~= all.skip(i + 1));
        assert(present@.skip(i as int).skip(1) =~= present@.skip(i + 1));
        i = i + 1;
    }
    None
}

proof fn lemma_total_bytes_bound(files: Seq<FileView>)
    ensures
        -0x8000_0000_0000_0000 * files.len() <= total_bytes(files) <= 0x7fff_ffff_ffff_ffff
            * files.len(),
    decreases files.len(),
{
    if files.len() > 0 {
        lemma_total_bytes_bound(files.drop_last());
    }
}

fn sum_bytes(files: &Vec<File>) -> (r: i128)
    ensures
        r == total_bytes(deep(files@)),
{
    let ghost all = deep(files@);
    let mut sum: i128 = 0;
    let mut i: usize = 0;
    while i < files.len()
        invariant
            i <= files@.len(),
            all == deep(files@),
            sum == total_bytes(all.take(i as int)),
        decreases files@.len() - i,
    {
        assert(all.take(i + 1).drop_last() =~= all.take(i as int));
        assert(all.take(i + 1).last() == files@[i as int]@);
        proof {
            lemma_total_bytes_bound(all.take(i as int));
            assert(0x7fff_ffff_ffff_ffff * (i as int) <= 0x7fff_ffff_ffff_ffff * (usize::MAX - 1));
            assert(0x8000_0000_0000_0000 * (i as int) <= 0x8000_0000_0000_0000 * (usize::MAX - 1));
        }
        match files[i].bytes {
            Some(n) => {
                sum = sum + n as i128;
            },
            None => {},
        }
        i = i + 1;
    }
    assert(all.take(i as int) =~= all);
    sum
}

fn title_of(job: &Job, item: Option<&Item>) -> (r: String)
    ensures
        r@ == shown_title(
            job@,
            match item {
                Some(i) => Some(i@),
                None => None,
            },
        ),
{
    match item {
        Some(i) => if i.title.as_str().is_empty() {
            owned(job.title.as_str())
        } else {
            owned(i.title.as_str())
        },
        None => owned(job.title.as_str()),
    }
}

/// A tile of the library. `present` says of each file of the item whether it is
/// still there.
pub fn library_tile(job: &Job, item: Option<&Item>, present: &[bool]) -> (r: Tile)
    ensures
        is_tile_of(
            r,
            job@,
            match item {
                Some(i) => Some(i@),
                None => None,
            },
            present@,
        ),
{
    broadcast use lemma_deep_push;

    let chip: (&'static str, bool) = job_status_chip(job);
    let mut notes: Vec<Note> = Vec::new();
    let mut key: String = owned(job.id.as_str());
    let mut thumb: Option<String> = None;
    let mut preview: Option<String> = None;
    let mut item_id: Option<String> = None;
    match item {
        Some(i) => {
            key = owned(i.id.as_str());
            thumb = copy_opt(&i.thumb_path);
            preview = first_playable(&i.files, present);
            item_id = Some(owned(i.id.as_str()));
            match i.duration {
                Some(d) => {
                    notes.push(Note::Text(human_duration(d)));
                },
                None => {},
            }
            let bytes: i128 = sum_bytes(&i.files);
            if bytes > 0 {
                notes.push(Note::Size(bytes));
            }
            assert(deep(notes@) =~= tile_notes(Some(i@)));
        },
        None => {
            assert(deep(notes@) =~= tile_notes(None));
        },
    }
    let id: String = concat("tile-", key.as_str());
    Tile {
        key,
        id,
        title: title_of(job, item),
        thumb,
        notes,
        chip: chip.0,
        danger: chip.1,
        preview,
        action: Action::OpenJob { job: owned(job.id.as_str()), item: item_id },
    }
}

// ---------------------------------------------------------------------------
// The card of an open item
// ---------------------------------------------------------------------------

/// A file of an item.
#[derive(Debug)]
pub struct FileRow {
    pub name: String,
    /// Whether it is still there. Files are moved and deleted behind the
    /// application's back, and a stale name that looks alive is worse than one
    /// that says so.
    pub present: bool,
    pub note: Note,
}

/// Whether a row is that of a file.
pub open spec fn is_file_row_of(r: FileRow, file: FileView, present: bool) -> bool {
    &&& r.name@ == file_name_spec(file.path)
    &&& r.present == present
    &&& r.note@ == (if !present {
        NoteView::Text("missing"@)
    } else {
        match file.bytes {
            Some(n) => NoteView::Size(n as int),
            None => NoteView::Text(file.kind.name()),
        }
    })
}

/// A small button with an icon and a label.
pub open spec fn media_button(
    id: Seq<char>,
    icon: IconName,
    label: Seq<char>,
    action: ActionView,
) -> ButtonView {
    ButtonView {
        size: ButtonSize::Small,
        icon: Some(icon),
        label: Some(label),
        ..plain_button(id, action)
    }
}

/// A small labelled button of a variant.
pub open spec fn job_button(
    id: Seq<char>,
    variant: ButtonVariant,
    label: Seq<char>,
    action: ActionView,
) -> ButtonView {
    ButtonView {
        size: ButtonSize::Small,
        variant,
        label: Some(label),
        ..plain_button(id, action)
    }
}

/// The buttons for what can be played.
pub open spec fn media_buttons(path: Option<Seq<char>>) -> Seq<ButtonView> {
    match path {
        Some(p) => seq![
            media_button(
                "open-externally"@,
                IconName::Play,
                "Open Externally"@,
                ActionView::OpenExternally(p),
            ),
            media_button("convert"@, IconName::Replace, "Convert"@, ActionView::Convert(p)),
            media_button("reveal"@, IconName::Folder, "Show in folder"@, ActionView::Reveal(p)),
        ],
        None => Seq::empty(),
    }
}

/// The buttons for the job: Cancel while it works, Retry where it stopped short,
/// Delete once it no longer works.
pub open spec fn state_buttons(job: JobView) -> Seq<ButtonView> {
    let cancel = if active(job.state) {
        seq![
            job_button(
                "cancel-job"@,
                ButtonVariant::Danger,
                "Cancel"@,
                ActionView::CancelJob(job.id),
            ),
        ]
    } else {
        Seq::empty()
    };
    let retry = if retryable(job.state) {
        seq![
            job_button(
                "retry-job"@,
                ButtonVariant::Primary,
                "Retry"@,
                ActionView::RetryJob(job.id),
            ),
        ]
    } else {
        Seq::empty()
    };
    let delete = if !active(job.state) {
        seq![
            job_button(
                "delete-job"@,
                ButtonVariant::Danger,
                "Delete"@,
                ActionView::DeleteJob(job.id),
            ),
        ]
    } else {
        Seq::empty()
    };
    cancel + retry + delete
}

/// What the details list of a job.
pub open spec fn job_facts(job: JobView) -> Seq<KeyValueView> {
    seq![
        KeyValueView { key: "State"@, value: job.state.name() },
        KeyValueView { key: "Preset"@, value: job.preset },
        KeyValueView { key: "Videos"@, value: decimal(job.items.len()) },
        KeyValueView { key: "Source"@, value: job.url },
    ]
}

/// What the card of an open item shows.
#[derive(Debug)]
pub struct Detail {
    pub title: String,
    /// The file to play.
    pub playable: Option<String>,
    /// The length recorded when it was downloaded.
    pub length: Option<Double>,
    /// The cover, until there is a frame.
    pub thumb: Option<String>,
    pub buttons: Vec<Button>,
    pub error: Option<String>,
    /// How much of the bar is filled; none shows no bar.
    pub progress: Option<Single>,
    pub facts: Vec<KeyValue>,
    pub files: Vec<FileRow>,
}

/// Whether a card is that of a job and one of its items.
pub open spec fn is_detail_of(
    d: Detail,
    s: SessionView,
    job: JobView,
    item: Option<ItemView>,
    present: Seq<bool>,
) -> bool {
    let path = match item {
        Some(i) => playable(i.files, present),
        None => None,
    };
    &&& d.title@ == shown_title(job, item)
    &&& opt(d.playable) == path
    &&& d.length == (match item {
        Some(i) => i.duration,
        None => None,
    })
    &&& opt(d.thumb) == (match item {
        Some(i) => i.thumb_path,
        None => None,
    })
    &&& deep(d.buttons@) == media_buttons(path) + state_buttons(job)
    &&& opt(d.error) == job.error
    &&& d.progress == (match live_state(s, job.id) {
        Some(l) => l.fraction,
        None => None,
    })
    &&& deep(d.facts@) == job_facts(job)
    &&& match item {
        Some(i) => {
            &&& d.files@.len() == i.files.len()
            &&& forall|k: int|
                0 <= k < i.files.len() ==> is_file_row_of(
                    #[trigger] d.files@[k],
                    i.files[k],
                    k < present.len() && present[k],
                )
        },
        None => d.files@.len() == 0,
    }
}

fn file_row(file: &File, present: bool) -> (r: FileRow)
    ensures
        is_file_row_of(r, file@, present),
{
    let note: Note = if !present {
        Note::Text(owned("missing"))
    } else {
        match file.bytes {
            Some(n) => Note::Size(n as i128),
            None => Note::Text(owned(file.kind.as_str())),
        }
    };
    FileRow { name: file_name(file.path.as_str()), present, note }
}

fn push_media_buttons(out: &mut Vec<Button>, path: &Option<String>)
    ensures
        deep(final(out)@) == deep(old(out)@) + media_buttons(opt(*path)),
{
    broadcast use lemma_deep_push;

    let ghost start = deep(out@);
    match path {
        Some(p) => {
            out.push(
                Button::new(
                    "open-externally",
                    Action::OpenExternally(owned(p.as_str())),
                ).small().icon(IconName::Play).label("Open Externally"),
            );
            out.push(
                Button::new("convert", Action::Convert(owned(p.as_str()))).small().icon(
                    IconName::Replace,
                ).label("Convert"),
            );
            out.push(
                Button::new("reveal", Action::Reveal(owned(p.as_str()))).small().icon(
                    IconName::Folder,
                ).label("Show in folder"),
            );
        },
        None => {},
    }
    assert(deep(out@) =~= start + media_buttons(opt(*path)));
}

fn push_state_buttons(out: &mut Vec<Button>, job: &Job)
    ensures
        deep(final(out)@) == deep(old(out)@) + state_buttons(job@),
{
    broadcast use lemma_deep_push;

    let ghost start = deep(out@);
    let running: bool = is_active(job.state);
    if running {
        out.push(
            Button::new(
                "cancel-job",
                Action::CancelJob(owned(job.id.as_str())),
            ).small().danger().label("Cancel"),
        );
    }
    if is_retryable(job.state) {
        out.push(
            Button::new(
                "retry-job",
                Action::RetryJob(owned(job.id.as_str())),
            ).small().primary().label("Retry"),
        );
    }
    if !running {
        out.push(
            Button::new(
                "delete-job",
                Action::DeleteJob(owned(job.id.as_str())),
            ).small().ghost().danger().label("Delete"),
        );
    }
    assert(deep(out@) =~= start + state_buttons(job@));
}

impl Session {
    /// What the card of an open item shows. `present` says of each file of the
    /// item whether it is still there.
    pub fn detail(&self, job: &Job, item: Option<&Item>, present: &[bool]) -> (r: Detail)
        ensures
            is_detail_of(
                r,
                self@,
                job@,
                match item {
                    Some(i) => Some(i@),
                    None => None,
                },
                present@,
            ),
    {
        broadcast use lemma_deep_push;

        let mut files: Vec<FileRow> = Vec::new();
        let mut path: Option<String> = None;
        let mut length: Option<Double> = None;
        let mut thumb: Option<String> = None;
        match item {
            Some(i) => {
                path = first_playable(&i.files, present);
                length = i.duration;
                thumb = copy_opt(&i.thumb_path);
                let ghost all = i@.files;
                let mut k: usize = 0;
                while k < i.files.len()
                    invariant
                        k <= i.files@.len(),
                        all == deep(i.files@),
                        files@.len() == k,
                        forall|m: int|
                            0 <= m < k ==> is_file_row_of(
                                #[trigger] files@[m],
                                all[m],
                                m < present@.len() && present@[m],
                            ),
                    decreases i.files@.len() - k,
                {
                    assert(all[k as int] == i.files@[k as int]@);
                    let there: bool = k < present.len() && present[k];
                    files.push(file_row(&i.files[k], there));
                    k = k + 1;
                }
            },
            None => {},
        }
        let mut buttons: Vec<Button> = Vec::new();
        push_media_buttons(&mut buttons, &path);
        push_state_buttons(&mut buttons, job);
        assert(deep(buttons@) =~= media_buttons(opt(path)) + state_buttons(job@));

        let mut facts: Vec<KeyValue> = Vec::new();
        facts.push(KeyValue::new("State", job.state.as_str()));
        facts.push(KeyValue::new("Preset", job.preset.as_str()));
        facts.push(KeyValue::new("Videos", decimal_u64(job.items.len() as u64).as_str()));
        facts.push(KeyValue::new("Source", job.url.as_str()));
        assert(deep(facts@) =~= job_facts(job@));

        let progress: Option<Single> = match self.live.get(job.id.as_str()) {
            Some(l) => l.fraction,
            None => None,
        };
        Detail {
            title: title_of(job, item),
            playable: path,
            length,
            thumb,
            buttons,
            error: copy_opt(&job.error),
            progress,
            facts,
            files,
        }
    }
}

/// Where the first item with an id stands; the number of items where there is
/// none.
pub open spec fn item_pos(items: Seq<ItemView>, id: Seq<char>) -> int
    decreases items.len(),
{
    if items.len() == 0 || items[0].id == id {
        0
    } else {
        1 + item_pos(items.skip(1), id)
    }
}

/// The item that the card is opened at: the one asked for, where the job has it;
/// the first one where none was asked for.
pub open spec fn open_item_of(s: SessionView, job: JobView) -> Option<ItemView> {
    match s.open_item {
        Some(id) => {
            let i = item_pos(job.items, id);
            if i < job.items.len() {
                Some(job.items[i])
            } else {
                None
            }
        },
        None => if job.items.len() > 0 {
            Some(job.items[0])
        } else {
            None
        },
    }
}

/// What the card over the library is opened at, where one is open.
pub open spec fn popover_of(s: SessionView) -> Option<TileRefView> {
    match s.selected {
        Some(id) => if has_job(s.jobs, id) {
            let job = job_at(s.jobs, id);
            Some(TileRefView { job, item: open_item_of(s, job) })
        } else {
            None
        },
        None => None,
    }
}

/// The two buttons in the card's corner.
pub open spec fn popover_buttons(s: SessionView) -> Seq<ButtonView> {
    seq![
        ButtonView {
            size: ButtonSize::Small,
            ..bar_button(
                "popover-fullscreen"@,
                if s.detail_fullscreen {
                    IconName::Restore
                } else {
                    IconName::Maximize
                },
                ActionView::ToggleFullscreen,
            )
        },
        ButtonView {
            size: ButtonSize::Small,
            ..bar_button("popover-close"@, IconName::Close, ActionView::ClosePopover)
        },
    ]
}

fn find_item(items: &Vec<Item>, id: &str) -> (r: usize)
    ensures
        r == item_pos(deep(items@), id@),
        r <= items@.len(),
{
    let ghost all = deep(items@);
    let mut i: usize = 0;
    assert(all.skip(0) =~= all);
    while i < items.len() && !same(items[i].id.as_str(), id)
        invariant
            i <= items@.len(),
            all == deep(items@),
            item_pos(all, id@) == i + item_pos(all.skip(i as int), id@),
        decreases items@.len() - i,
    {
        assert(all.skip(i as int)[0] == items@[i as int]@);
        assert(all.skip(i as int).skip(1) =~= all.skip(i + 1));
        i = i + 1;
    }
    if i < items.len() {
        assert(all.skip(i as int)[0] == items@[i as int]@);
    }
    i
}

impl Session {
    /// What the card over the library is opened at, where one is open.
    pub fn popover(&self) -> (r: Option<TileRef<'_>>)
        ensures
            opt(r) == popover_of(self@),
    {
        match &self.selected {
            None => None,
            Some(id) => {
                proof {
                    lemma_job_pos(self@.jobs, id@);
                }
                match self.find_job(id.as_str()) {
                    None => None,
                    Some(n) => {
                        let job: &Job = &self.jobs[n];
                        assert(job@ == job_at(self@.jobs, id@));
                        let item: Option<&Item> = match &self.open_item {
                            Some(item_id) => {
                                let i: usize = find_item(&job.items, item_id.as_str());
                                if i < job.items.len() {
                                    assert(job@.items[i as int] == job.items@[i as int]@);
                                    Some(&job.items[i])
                                } else {
                                    None
                                }
                            },
                            None => if job.items.len() > 0 {
                                assert(job@.items[0] == job.items@[0]@);
                                Some(&job.items[0])
                            } else {
                                None
                            },
                        };
                        Some(TileRef { job, item })
                    },
                }
            },
        }
    }

    /// The two buttons in the card's corner.
    pub fn popover_controls(&self) -> (r: Vec<Button>)
        ensures
            deep(r@) == popover_buttons(self@),
    {
        broadcast use lemma_deep_push;

        let icon: IconName = if self.detail_fullscreen {
            IconName::Restore
        } else {
            IconName::Maximize
        };
        let mut r: Vec<Button> = Vec::new();
        r.push(
            Button::new("popover-fullscreen", Action::ToggleFullscreen).ghost().small().icon(icon),
        );
        r.push(
            Button::new("popover-close", Action::ClosePopover).ghost().small().icon(
                IconName::Close,
            ),
        );
        assert(deep(r@) =~= popover_buttons(self@));
        r
    }
}

// ---------------------------------------------------------------------------
// Laws
// ---------------------------------------------------------------------------

/// Whether jobs stand with the newest first.
pub open spec fn is_newest_first(jobs: Seq<JobView>) -> bool {
    forall|i: int, j: int|
        0 <= i < j < jobs.len() ==> (#[trigger] jobs[i]).created_at >= (#[trigger] jobs[j]).created_at
}

proof fn lemma_place_by_age(sorted: Seq<JobView>, job: JobView)
    requires
        is_newest_first(sorted),
    ensures
        is_newest_first(place_by_age(sorted, job)),
        place_by_age(sorted, job).to_multiset() == sorted.to_multiset().insert(job),
        place_by_age(sorted, job).len() == sorted.len() + 1,
        forall|i: int|
            0 <= i < sorted.len() + 1 ==> (#[trigger] place_by_age(sorted, job)[i]) == job
                || sorted.contains(place_by_age(sorted, job)[i]),
    decreases sorted.len(),
{
    let r = place_by_age(sorted, job);
    if sorted.len() > 0 && sorted.last().created_at < job.created_at {
        let rest = sorted.drop_last();
        lemma_place_by_age(rest, job);
        let q = place_by_age(rest, job);
        assert forall|i: int, j: int| 0 <= i < j < r.len() implies (
        #[trigger] r[i]).created_at >= (#[trigger] r[j]).created_at by {
            if j < q.len() {
                assert(q[i].created_at >= q[j].created_at);
            } else {
                assert(r[i] == q[i]);
                if q[i] != job {
                    let k = choose|k: int| 0 <= k < rest.len() && rest[k] == q[i];
                    assert(sorted[k].created_at >= sorted[sorted.len() - 1].created_at);
                }
            }
        }
        assert forall|i: int| 0 <= i < r.len() implies (#[trigger] r[i]) == job || sorted.contains(
            r[i],
        ) by {
            if i < q.len() {
                assert(r[i] == q[i]);
                if q[i] != job {
                    let k = choose|k: int| 0 <= k < rest.len() && rest[k] == q[i];
                    assert(sorted[k] == r[i]);
                }
            } else {
                assert(sorted[sorted.len() - 1] == r[i]);
            }
        }
        vstd::seq_lib::to_multiset_build(q, sorted.last());
        vstd::seq_lib::to_multiset_build(rest, sorted.last());
        assert(rest.push(sorted.last()) =~= sorted);
        assert(r.to_multiset() =~= sorted.to_multiset().insert(job));
    } else {
        vstd::seq_lib::to_multiset_build(sorted, job);
        assert forall|i: int, j: int| 0 <= i < j < r.len() implies (
        #[trigger] r[i]).created_at >= (#[trigger] r[j]).created_at by {
            if j < sorted.len() {
                assert(sorted[i].created_at >= sorted[j].created_at);
            } else {
                if i < sorted.len() - 1 {
                    assert(sorted[i].created_at >= sorted[sorted.len() - 1].created_at);
                }
            }
        }
        assert forall|i: int| 0 <= i < r.len() implies (#[trigger] r[i]) == job || sorted.contains(
            r[i],
        ) by {
            if i < sorted.len() {
                assert(sorted[i] == r[i]);
            }
        }
    }
}

/// The library shows the newest first, and neither adds nor loses a job.
pub proof fn lemma_newest_first(jobs: Seq<JobView>)
    ensures
        is_newest_first(newest_first(jobs)),
        newest_first(jobs).to_multiset() == jobs.to_multiset(),
        newest_first(jobs).len() == jobs.len(),
    decreases jobs.len(),
{
    if jobs.len() > 0 {
        let rest = jobs.drop_last();
        lemma_newest_first(rest);
        lemma_place_by_age(newest_first(rest), jobs.last());
        vstd::seq_lib::to_multiset_build(rest, jobs.last());
        assert(rest.push(jobs.last()) =~= jobs);
    }
}

/// Every listed job shows at least one tile, and each of its items exactly one.
pub proof fn lemma_every_job_has_a_tile(jobs: Seq<JobView>)
    ensures
        all_tiles(jobs).len() >= jobs.len(),
        forall|i: int| #![trigger jobs[i]]
            0 <= i < jobs.len() ==> exists|k: int|
                0 <= k < all_tiles(jobs).len() && (#[trigger] all_tiles(jobs)[k]).job == jobs[i],
    decreases jobs.len(),
{
    if jobs.len() > 0 {
        let rest = jobs.drop_last();
        lemma_every_job_has_a_tile(rest);
        let before = all_tiles(rest);
        let all = all_tiles(jobs);
        assert(tiles_of(jobs.last()).len() >= 1);
        assert forall|i: int| #![trigger jobs[i]] 0 <= i < jobs.len() implies exists|k: int|
            0 <= k < all.len() && (#[trigger] all[k]).job == jobs[i] by {
            if i < rest.len() {
                assert(rest[i] == jobs[i]);
                let k = choose|k: int|
                    0 <= k < before.len() && (#[trigger] before[k]).job == rest[i];
                assert(all[k] == before[k]);
            } else {
                assert(all[before.len() as int] == tiles_of(jobs.last())[0]);
                assert(all[before.len() as int].job == jobs[i]);
            }
        }
    }
}

/// The lists and the card agree: Cancel is offered exactly for the jobs that In
/// Progress lists, Delete exactly for those that Home lists, and Retry for no
/// job that can be cancelled.
pub proof fn lemma_buttons_agree_with_the_lists(job: JobView)
    ensures
        state_buttons(job).len() > 0,
        lists(SidebarTab::InProgress, job) <==> state_buttons(job)[0].action
            == ActionView::CancelJob(job.id),
        lists(SidebarTab::Home, job) <==> state_buttons(job).last().action
            == ActionView::DeleteJob(job.id),
        lists(SidebarTab::InProgress, job) ==> state_buttons(job).len() == 1,
{
}

// ---------------------------------------------------------------------------
// What each part shows
// ---------------------------------------------------------------------------

/// The top bar holds, from left to right, a new download, a file to convert, the settings,
/// lit while they are open, and the window's own buttons, of which the middle one restores
/// a maximized window and maximizes any other.
pub proof fn lemma_buttons_of_the_top_bar(s: SessionView)
    ensures
        ({
            let b = navbar_buttons(s);
            &&& b.len() == 6
            &&& b[0].id == "new-download"@ && b[0].action is OpenModal && b[0].icon == Some(
                IconName::Plus,
            ) && b[0].variant is Primary && b[0].size is Medium
            &&& b[1].id == "convert-file"@ && b[1].action is PickFileToConvert && b[1].icon == Some(
                IconName::Replace,
            ) && b[1].variant is Subtle && b[1].size is Medium
            &&& b[2].id == "settings"@ && b[2].action is ToggleSettings && b[2].icon == Some(
                IconName::Settings,
            ) && b[2].variant is Subtle && b[2].size is Medium
            &&& b[2].selected == (s.route is Settings)
            &&& b[3].id == "win-minimize"@ && b[3].icon == Some(IconName::Minimize)
            &&& b[3].action == ActionView::Window(WindowAction::Minimize)
            &&& b[4].id == "win-maximize"@
            &&& s.window_maximized ==> b[4].icon == Some(IconName::Restore)
            &&& !s.window_maximized ==> b[4].icon == Some(IconName::Maximize)
            &&& b[4].action == ActionView::Window(WindowAction::ToggleMaximize)
            &&& b[5].id == "win-close"@ && b[5].icon == Some(IconName::Close)
            &&& b[5].action == ActionView::Window(WindowAction::Close)
            &&& forall|i: int|
                3 <= i < 6 ==> (#[trigger] b[i]).size is Small && b[i].variant is Subtle
            &&& forall|i: int|
                0 <= i < 6 ==> (#[trigger] b[i]).label is None && (i != 2 ==> !b[i].selected)
        }),
{
}

/// The notice offers to open the folder of the binaries and to look for them again.
pub proof fn lemma_buttons_of_the_notice()
    ensures
        ({
            let b = toast_buttons();
            &&& b.len() == 2
            &&& b[0].id == "open-bin-dir"@ && b[0].label == Some("Open folder"@) && b[0].icon
                == Some(IconName::Folder) && b[0].action is OpenBinDir
            &&& b[1].id == "banner-recheck"@ && b[1].label == Some("Re-check"@) && b[1].icon is None
                && b[1].action is RefreshYtdlp
            &&& b[0].size is Small && b[1].size is Small
            &&& b[0].variant is Default && b[1].variant is Default
            &&& !b[0].selected && !b[1].selected
        }),
{
}

/// A row tells of its job: its title; that it failed, how fast it runs or that it starts,
/// or how many videos it has; how far it is, within the bar. It is marked where the job is
/// selected in the library, and opens the job at none of its items.
pub proof fn lemma_row_tells_of_its_job(r: JobRow, s: SessionView, job: JobView)
    requires
        is_row_of(r, s, job),
    ensures
        ({
            let known = s.live.dom().contains(job.id);
            let speed = s.live[job.id].speed;
            let fraction = s.live[job.id].fraction;
            &&& r.id@ == job.id && r.title@ == job.title
            &&& job.state is Failed ==> r.note@ == NoteView::Text("Failed"@)
            &&& job.state is Running && known && speed is Some ==> r.note@ == NoteView::Rate(
                speed->0,
            )
            &&& job.state is Running && (!known || speed is None) ==> r.note@ == NoteView::Text(
                "Starting…"@,
            )
            &&& !(job.state is Failed) && !(job.state is Running) && job.items.len() <= 1
                ==> r.note@ == NoteView::Text("1 video"@)
            &&& !(job.state is Failed) && !(job.state is Running) && job.items.len() > 1 ==> r.note@
                == NoteView::Text(decimal(job.items.len()) + " videos"@)
            &&& r.failed == (job.state is Failed)
            &&& r.selected <==> s.selected == Some(job.id) && s.route is Library
            &&& known && fraction is Some ==> r.progress == Some(unit(fraction->0))
            &&& !known || fraction is None ==> r.progress is None
            &&& r.action@ == (ActionView::OpenJob { job: job.id, item: None })
        }),
{
}

/// A job without items has one tile, for itself; any other has one for each item, in
/// their order. The tiles of a list are those of its jobs, one after the other.
pub proof fn lemma_tiles_follow_the_items(jobs: Seq<JobView>, job: JobView, i: int)
    ensures
        job.items.len() == 0 ==> tiles_of(job) == seq![TileRefView { job, item: None }],
        job.items.len() > 0 ==> tiles_of(job).len() == job.items.len(),
        0 <= i < job.items.len() ==> tiles_of(job)[i] == (TileRefView {
            job,
            item: Some(job.items[i]),
        }),
        all_tiles(Seq::<JobView>::empty()).len() == 0,
        all_tiles(jobs.push(job)) == all_tiles(jobs) + tiles_of(job),
{
    assert(jobs.push(job).drop_last() =~= jobs);
}

/// The library's tiles are those of the jobs that no longer work, the newest first, none
/// lost.
pub proof fn lemma_library_shows_what_has_ended(s: SessionView)
    ensures
        exists|jobs: Seq<JobView>|
            {
                &&& #[trigger] all_tiles(jobs) == library_tiles(s)
                &&& is_newest_first(jobs)
                &&& jobs.to_multiset() == s.jobs.filter(
                    |j: JobView| j.state is Done || j.state is Failed || j.state is Cancelled,
                ).to_multiset()
            },
{
    crate::library::lemma_tabs_list_by_state(s.jobs);
    let jobs = newest_first(listed(s.jobs, SidebarTab::Home));
    lemma_newest_first(listed(s.jobs, SidebarTab::Home));
    assert(all_tiles(jobs) == library_tiles(s));
}

/// What plays is the first video or sound that is still there; where none is, nothing.
pub proof fn lemma_first_media_file_plays(files: Seq<FileView>, present: Seq<bool>, m: int)
    requires
        files.len() == present.len(),
    ensures
        ({
            &&& 0 <= m < files.len() && (files[m].kind is Video || files[m].kind is Audio)
                && present[m] && (forall|i: int|
                0 <= i < m ==> !(((#[trigger] files[i]).kind is Video || files[i].kind is Audio)
                    && present[i])) ==> playable(files, present) == Some(files[m].path)
            &&& (forall|i: int|
                0 <= i < files.len() ==> !(((#[trigger] files[i]).kind is Video || files[i].kind
                    is Audio) && present[i])) ==> playable(files, present) is None
        }),
    decreases files.len(),
{
    if files.len() > 0 {
        let (f, p) = (files.skip(1), present.skip(1));
        lemma_first_media_file_plays(f, p, m - 1);
        assert forall|i: int| 0 <= i < f.len() implies #[trigger] f[i] == files[i + 1] && p[i]
            == present[i + 1] by {}
    }
}

/// The size of files is the sum of those that are known.
pub proof fn lemma_sizes_add_up(files: Seq<FileView>, file: FileView)
    ensures
        total_bytes(Seq::<FileView>::empty()) == 0,
        file.bytes is Some ==> total_bytes(files.push(file)) == total_bytes(files)
            + file.bytes->0,
        file.bytes is None ==> total_bytes(files.push(file)) == total_bytes(files),
{
    assert(files.push(file).drop_last() =~= files);
}

/// A tile tells of its item, or of its job where it has none: the item's title unless that
/// is empty, its cover, its length and its size where they are known and the size is above
/// nothing; what became of the job; and what plays under the pointer. It opens the job at
/// the item.
pub proof fn lemma_tile_tells_of_its_item(
    t: Tile,
    job: JobView,
    item: Option<ItemView>,
    present: Seq<bool>,
)
    requires
        is_tile_of(t, job, item, present),
    ensures
        item is None ==> {
            &&& t.key@ == job.id && t.id@ == "tile-"@ + job.id && t.title@ == job.title
            &&& t.thumb is None && t.notes@.len() == 0 && t.preview is None
            &&& t.action@ == (ActionView::OpenJob { job: job.id, item: None })
        },
        item is Some ==> {
            let i = item->0;
            let sized = total_bytes(i.files) > 0;
            let notes = deep(t.notes@);
            &&& t.key@ == i.id && t.id@ == "tile-"@ + i.id
            &&& i.title.len() > 0 ==> t.title@ == i.title
            &&& i.title.len() == 0 ==> t.title@ == job.title
            &&& opt(t.thumb) == i.thumb_path
            &&& i.duration is Some && sized ==> notes == seq![
                NoteView::Text(clock_text(whole_part(i.duration->0))),
                NoteView::Size(total_bytes(i.files)),
            ]
            &&& i.duration is Some && !sized ==> notes == seq![
                NoteView::Text(clock_text(whole_part(i.duration->0))),
            ]
            &&& i.duration is None && sized ==> notes == seq![
                NoteView::Size(total_bytes(i.files)),
            ]
            &&& i.duration is None && !sized ==> notes.len() == 0
            &&& opt(t.preview) == playable(i.files, present)
            &&& t.action@ == (ActionView::OpenJob { job: job.id, item: Some(i.id) })
        },
        job.state is Failed ==> t.chip@ == "Failed"@,
        job.state is Cancelled ==> t.chip@ == "Cancelled"@,
        !(job.state is Failed) && !(job.state is Cancelled) && job.kind is Convert ==> t.chip@
            == "Converted"@,
        !(job.state is Failed) && !(job.state is Cancelled) && job.kind is Download ==> t.chip@
            == "Downloaded"@,
        t.danger <==> job.state is Failed || job.state is Cancelled,
{
    if item is Some {
        let i = item->0;
        let size = NoteView::Size(total_bytes(i.files));
        if i.duration is Some {
            let length = NoteView::Text(clock_text(whole_part(i.duration->0)));
            assert(seq![length] + seq![size] =~= seq![length, size]);
            assert(seq![length] + Seq::<NoteView>::empty() =~= seq![length]);
        } else {
            assert(Seq::<NoteView>::empty() + seq![size] =~= seq![size]);
        }
    } else {
        assert(deep(t.notes@).len() == t.notes@.len());
    }
}

/// A file is listed by its name; where it is gone, as missing, else with its size, or its
/// kind where that is not known.
pub proof fn lemma_file_row_tells_of_its_file(r: FileRow, file: FileView, present: bool)
    requires
        is_file_row_of(r, file, present),
    ensures
        r.name@ == file_name_spec(file.path) && r.present == present,
        !present ==> r.note@ == NoteView::Text("missing"@),
        present && file.bytes is Some ==> r.note@ == NoteView::Size(file.bytes->0 as int),
        present && file.bytes is None ==> r.note@ == NoteView::Text(file.kind.name()),
{
}

/// What can be played can be opened elsewhere, converted, and shown in its folder, each
/// with its own path; where nothing can be played, none of these is offered.
pub proof fn lemma_buttons_for_what_plays(p: Seq<char>)
    ensures
        media_buttons(None).len() == 0,
        ({
            let b = media_buttons(Some(p));
            &&& b.len() == 3
            &&& b[0].id == "open-externally"@ && b[0].label == Some("Open Externally"@)
            &&& b[0].icon == Some(IconName::Play) && b[0].action == ActionView::OpenExternally(p)
            &&& b[1].id == "convert"@ && b[1].label == Some("Convert"@)
            &&& b[1].icon == Some(IconName::Replace) && b[1].action == ActionView::Convert(p)
            &&& b[2].id == "reveal"@ && b[2].label == Some("Show in folder"@)
            &&& b[2].icon == Some(IconName::Folder) && b[2].action == ActionView::Reveal(p)
            &&& forall|i: int|
                0 <= i < 3 ==> (#[trigger] b[i]).size is Small && b[i].variant is Default
                    && !b[i].selected
        }),
{
}

/// A job at work can be cancelled; one that failed or was cancelled can be tried again or
/// deleted; one that is done can be deleted.
pub proof fn lemma_buttons_for_each_state(job: JobView)
    ensures
        ({
            let b = state_buttons(job);
            let cancel = ButtonView {
                id: "cancel-job"@,
                label: Some("Cancel"@),
                icon: None,
                variant: ButtonVariant::Danger,
                size: ButtonSize::Small,
                selected: false,
                action: ActionView::CancelJob(job.id),
            };
            let retry = ButtonView {
                id: "retry-job"@,
                label: Some("Retry"@),
                icon: None,
                variant: ButtonVariant::Primary,
                size: ButtonSize::Small,
                selected: false,
                action: ActionView::RetryJob(job.id),
            };
            let delete = ButtonView {
                id: "delete-job"@,
                label: Some("Delete"@),
                icon: None,
                variant: ButtonVariant::Danger,
                size: ButtonSize::Small,
                selected: false,
                action: ActionView::DeleteJob(job.id),
            };
            &&& job.state is Queued || job.state is Probing || job.state is Running ==> b == seq![
                cancel,
            ]
            &&& job.state is Failed || job.state is Cancelled ==> b == seq![retry, delete]
            &&& job.state is Done ==> b == seq![delete]
        }),
{
    let b = state_buttons(job);
    if active(job.state) {
        assert(b.len() == 1);
    } else if retryable(job.state) {
        assert(b.len() == 2);
    } else {
        assert(b.len() == 1);
    }
}

/// The card of a job tells what is to be played and shown of the item, the job's error as
/// it stands, how far it is, its state, preset, number of videos and source, and each file
/// of the item.
pub proof fn lemma_card_tells_of_its_job(
    d: Detail,
    s: SessionView,
    job: JobView,
    item: Option<ItemView>,
    present: Seq<bool>,
)
    requires
        is_detail_of(d, s, job, item, present),
    ensures
        opt(d.error) == job.error,
        s.live.dom().contains(job.id) ==> d.progress == s.live[job.id].fraction,
        !s.live.dom().contains(job.id) ==> d.progress is None,
        deep(d.facts@).len() == 4,
        deep(d.facts@)[0] == (KeyValueView { key: "State"@, value: job.state.name() }),
        deep(d.facts@)[1] == (KeyValueView { key: "Preset"@, value: job.preset }),
        deep(d.facts@)[2] == (KeyValueView { key: "Videos"@, value: decimal(job.items.len()) }),
        deep(d.facts@)[3] == (KeyValueView { key: "Source"@, value: job.url }),
        item is None ==> {
            &&& d.title@ == job.title && d.playable is None && d.length is None && d.thumb is None
            &&& d.files@.len() == 0
            &&& deep(d.buttons@) == state_buttons(job)
        },
        item is Some ==> {
            let i = item->0;
            &&& i.title.len() > 0 ==> d.title@ == i.title
            &&& i.title.len() == 0 ==> d.title@ == job.title
            &&& opt(d.playable) == playable(i.files, present)
            &&& d.length == i.duration && opt(d.thumb) == i.thumb_path
            &&& d.files@.len() == i.files.len()
            &&& deep(d.buttons@) == media_buttons(playable(i.files, present)) + state_buttons(job)
            &&& forall|k: int|
                0 <= k < i.files.len() ==> (#[trigger] d.files@[k]).name@ == file_name_spec(
                    i.files[k].path,
                ) && d.files@[k].present == (k < present.len() && present[k])
        },
{
    assert(Seq::<ButtonView>::empty() + state_buttons(job) =~= state_buttons(job));
    if item is Some {
        let i = item->0;
        assert forall|k: int| 0 <= k < i.files.len() implies (#[trigger] d.files@[k]).name@
            == file_name_spec(i.files[k].path) && d.files@[k].present == (k < present.len()
            && present[k]) by {
            assert(is_file_row_of(d.files@[k], i.files[k], k < present.len() && present[k]));
        }
    }
}

proof fn lemma_item_pos(items: Seq<ItemView>, id: Seq<char>, n: int)
    requires
        0 <= n <= items.len(),
        n < items.len() ==> items[n].id == id,
        forall|i: int| 0 <= i < n ==> (#[trigger] items[i]).id != id,
    ensures
        item_pos(items, id) == n,
    decreases items.len(),
{
    if n > 0 {
        let rest = items.skip(1);
        assert(items[0].id != id);
        assert forall|i: int| 0 <= i < n - 1 implies (#[trigger] rest[i]).id != id by {
            assert(rest[i] == items[i + 1]);
        }
        lemma_item_pos(rest, id, n - 1);
    }
}

/// The card is open over the first job of the selected id, at the first item of the id
/// asked for, at none where the job has no such item, and at the first item where none was
/// asked for. With nothing selected, or a job that is not listed, there is no card.
pub proof fn lemma_card_is_open_at_the_item_asked_for(s: SessionView, n: int, k: int)
    ensures
        s.selected is None ==> popover_of(s) is None,
        s.selected is Some && (forall|i: int|
            0 <= i < s.jobs.len() ==> (#[trigger] s.jobs[i]).id != s.selected->0) ==> popover_of(
            s,
        ) is None,
        s.selected is Some && is_first(s.jobs, s.selected->0, n) ==> {
            let job = s.jobs[n];
            let card = popover_of(s);
            &&& card is Some && card->0.job == job
            &&& s.open_item is None && job.items.len() > 0 ==> card->0.item == Some(job.items[0])
            &&& s.open_item is None && job.items.len() == 0 ==> card->0.item is None
            &&& s.open_item is Some && 0 <= k < job.items.len() && job.items[k].id
                == s.open_item->0 && (forall|i: int|
                0 <= i < k ==> (#[trigger] job.items[i]).id != s.open_item->0) ==> card->0.item
                == Some(job.items[k])
            &&& s.open_item is Some && (forall|i: int|
                0 <= i < job.items.len() ==> (#[trigger] job.items[i]).id != s.open_item->0)
                ==> card->0.item is None
        },
{
    if s.selected is Some {
        let id = s.selected->0;
        if forall|i: int| 0 <= i < s.jobs.len() ==> (#[trigger] s.jobs[i]).id != id {
            lemma_with_job_at(s.jobs, id, s.jobs[0], s.jobs.len() as int);
        }
        if is_first(s.jobs, id, n) {
            lemma_with_job_at(s.jobs, id, s.jobs[0], n);
            let items = s.jobs[n].items;
            if s.open_item is Some {
                let at = s.open_item->0;
                if 0 <= k < items.len() && items[k].id == at && (forall|i: int|
                    0 <= i < k ==> (#[trigger] items[i]).id != at) {
                    lemma_item_pos(items, at, k);
                }
                if forall|i: int| 0 <= i < items.len() ==> (#[trigger] items[i]).id != at {
                    lemma_item_pos(items, at, items.len() as int);
                }
            }
        }
    }
}

/// The card's corner holds a button for the full screen, and back, and one that closes it.
pub proof fn lemma_buttons_in_the_corner(s: SessionView)
    ensures
        ({
            let b = popover_buttons(s);
            &&& b.len() == 2
            &&& b[0].id == "popover-fullscreen"@ && b[0].action is ToggleFullscreen
            &&& s.detail_fullscreen ==> b[0].icon == Some(IconName::Restore)
            &&& !s.detail_fullscreen ==> b[0].icon == Some(IconName::Maximize)
            &&& b[1].id == "popover-close"@ && b[1].action is ClosePopover
            &&& b[1].icon == Some(IconName::Close)
            &&& forall|i: int|
                0 <= i < 2 ==> (#[trigger] b[i]).size is Small && b[i].variant is Subtle
                    && b[i].label is None && !b[i].selected
        }),
{
}

proof fn lemma_place_by_age_keeps_order(sorted: Seq<JobView>, job: JobView, at: i64)
    ensures
        place_by_age(sorted, job).filter(|j: JobView| j.created_at == at) == (if job.created_at
            == at {
            sorted.filter(|j: JobView| j.created_at == at).push(job)
        } else {
            sorted.filter(|j: JobView| j.created_at == at)
        }),
    decreases sorted.len(),
{
    reveal(Seq::filter);
    if sorted.len() > 0 && sorted.last().created_at < job.created_at {
        let rest = place_by_age(sorted.drop_last(), job);
        lemma_place_by_age_keeps_order(sorted.drop_last(), job, at);
        assert(rest.push(sorted.last()).drop_last() =~= rest);
    } else {
        assert(sorted.push(job).drop_last() =~= sorted);
    }
}

/// Jobs of one second keep the order they stood in.
pub proof fn lemma_jobs_of_one_second_keep_their_order(jobs: Seq<JobView>, at: i64)
    ensures
        newest_first(jobs).filter(|j: JobView| j.created_at == at) == jobs.filter(
            |j: JobView| j.created_at == at,
        ),
    decreases jobs.len(),
{
    reveal(Seq::filter);
    if jobs.len() > 0 {
        lemma_jobs_of_one_second_keep_their_order(jobs.drop_last(), at);
        lemma_place_by_age_keeps_order(newest_first(jobs.drop_last()), jobs.last(), at);
    }
}

} // verus!
