//! Downloads from the queue to their end: what each event of a run does, the
//! order in which runs are started, and how a new one is made.

use vstd::prelude::*;

use crate::model::{File, FileKind, Item, Job, JobState, Preset};
#[allow(unused_imports)]
use crate::model::{fresh_job, FileView, ItemView, JobKind, JobView, PresetView};
use crate::paths::classify;
#[allow(unused_imports)]
use crate::paths::{after_last_dot, kind_of_extension, lowercase};
#[allow(unused_imports)]
use crate::runner::newest_three;
use crate::runner::{tail_text, EXIT_FAIL_PREFIX, EXIT_OK};
use crate::session::{Live, PendingLaunch, ProbeState, Session};
#[allow(unused_imports)]
use crate::session::{
    blank_live, cancelled, cancelled_job, failed, failed_job, finished, finished_job, has_job, job_at, job_pos, lemma_job_pos, lemma_live_insert,
    differ_at, is_first, lemma_failure_marks_the_job, lemma_with_job_at, lemma_with_job_keeps_places, snapshot, with_job, without_pending, LiveView, PendingView,
    SessionView,
};
use crate::text::{concat, copy_opt, is_trimmed_empty, owned, same, strip_prefix, trim, words};
#[allow(unused_imports)]
use crate::text::{
    deep, has_prefix, is_blank, join_spec, lemma_deep_add, lemma_deep_push, lemma_deep_remove,
    lemma_deep_update, lemma_prefix_is_a_beginning, lemma_trim_empty_iff_blank, opt, trim_spec, words_spec,
};
#[allow(unused_imports)]
use crate::ytdlp::{default_options_view, OptionsView};
use crate::ytdlp::{Double, InfoLine, Single, YtdlpOptions};

verus! {

// ---------------------------------------------------------------------------
// Events of a run
// ---------------------------------------------------------------------------

/// One event of a run, with what the outside world was asked about it.
#[derive(Debug)]
pub enum JobEvent {
    /// How far the run is. `fraction` is none where the size is unknown.
    Progress { fraction: Option<Single>, speed: Option<Double>, eta: Option<Double> },
    /// A video's metadata, and the id that a new item would get.
    Info { info: InfoLine, item_id: String },
    /// A finished file: its size, the cover found beside it, and the ids that
    /// new files would get.
    File {
        path: String,
        bytes: Option<i64>,
        thumb: Option<String>,
        file_id: String,
        thumb_id: String,
    },
    /// Any other line.
    Log(String),
}

/// The live state of a job; a blank one where there is none.
pub open spec fn live_of(s: SessionView, id: Seq<char>) -> LiveView {
    if s.live.dom().contains(id) {
        s.live[id]
    } else {
        blank_live()
    }
}

/// A text, or the empty one.
pub open spec fn or_empty(t: Option<Seq<char>>) -> Seq<char> {
    match t {
        Some(t) => t,
        None => Seq::<char>::empty(),
    }
}

/// Where the first item stands that is for a page; the number of items where
/// there is none.
pub open spec fn page_pos(items: Seq<ItemView>, page: Seq<char>) -> int
    decreases items.len(),
{
    if items.len() == 0 || items[0].webpage_url == page {
        0
    } else {
        1 + page_pos(items.skip(1), page)
    }
}

proof fn lemma_page_pos(items: Seq<ItemView>, page: Seq<char>, n: int)
    requires
        0 <= n <= items.len(),
        n < items.len() ==> items[n].webpage_url == page,
        forall|k: int| 0 <= k < n ==> (#[trigger] items[k]).webpage_url != page,
    ensures
        page_pos(items, page) == n,
    decreases n,
{
    if n > 0 {
        assert(items[0].webpage_url != page);
        let rest = items.skip(1);
        assert forall|k: int| 0 <= k < n - 1 implies (#[trigger] rest[k]).webpage_url != page by {
            assert(rest[k] == items[k + 1]);
        }
        lemma_page_pos(rest, page, n - 1);
    }
}

proof fn lemma_page_pos_is_first(items: Seq<ItemView>, page: Seq<char>)
    ensures
        0 <= page_pos(items, page) <= items.len(),
        page_pos(items, page) < items.len() ==> items[page_pos(items, page)].webpage_url == page,
        forall|k: int|
            0 <= k < page_pos(items, page) ==> (#[trigger] items[k]).webpage_url != page,
    decreases items.len(),
{
    if items.len() > 0 && items[0].webpage_url != page {
        let rest = items.skip(1);
        lemma_page_pos_is_first(rest, page);
        assert forall|k: int| 0 <= k < page_pos(items, page) implies (
        #[trigger] items[k]).webpage_url != page by {
            if k > 0 {
                assert(items[k] == rest[k - 1]);
            }
        }
    }
}

/// Whether a file stands at the path.
pub open spec fn has_path(files: Seq<FileView>, path: Seq<char>) -> bool {
    exists|i: int| 0 <= i < files.len() && (#[trigger] files[i]).path == path
}

/// The item that a video's metadata makes.
pub open spec fn new_item(info: InfoLine, item_id: Seq<char>, count: nat) -> ItemView {
    ItemView {
        id: item_id,
        index: match info.playlist_index {
            Some(n) => n,
            None => count as i64,
        },
        title: or_empty(opt(info.title)),
        duration: info.duration,
        thumb_path: opt(info.thumbnail),
        webpage_url: or_empty(opt(info.webpage_url)),
        files: Seq::<FileView>::empty(),
    }
}

/// An item after its video's metadata came again: what it tells of the video is
/// told anew.
pub open spec fn informed_item(item: ItemView, info: InfoLine) -> ItemView {
    ItemView {
        title: or_empty(opt(info.title)),
        duration: info.duration,
        thumb_path: opt(info.thumbnail),
        ..item
    }
}

/// A job after a video's metadata came: a title that is still the URL gives way
/// to the real one; a page seen for the first time becomes an item, and the item
/// of a page seen before is brought up to date.
pub open spec fn informed_job(job: JobView, info: InfoLine, item_id: Seq<char>) -> JobView {
    let title = or_empty(opt(info.title));
    let at = page_pos(job.items, or_empty(opt(info.webpage_url)));
    JobView {
        title: if has_prefix(job.title, "http"@) && title.len() > 0 {
            title
        } else {
            job.title
        },
        items: if at < job.items.len() {
            job.items.update(at, informed_item(job.items[at], info))
        } else {
            job.items.push(new_item(info, item_id, job.items.len()))
        },
        ..job
    }
}

/// What a path's extension says of the file.
pub open spec fn path_kind(path: Seq<char>) -> FileKind {
    kind_of_extension(after_last_dot(lowercase(path)))
}

/// Files with one more, unless one stands at its path.
pub open spec fn with_file(files: Seq<FileView>, file: FileView) -> Seq<FileView> {
    if has_path(files, file.path) {
        files
    } else {
        files.push(file)
    }
}

/// An item after a file was finished, and the cover beside it, where there is
/// one.
pub open spec fn filed_item(
    item: ItemView,
    path: Seq<char>,
    bytes: Option<i64>,
    thumb: Option<Seq<char>>,
    file_id: Seq<char>,
    thumb_id: Seq<char>,
) -> ItemView {
    let files = with_file(
        item.files,
        FileView { id: file_id, path, kind: path_kind(path), format_id: None, bytes },
    );
    match thumb {
        None => ItemView { files, ..item },
        Some(t) => ItemView {
            files: with_file(
                files,
                FileView {
                    id: thumb_id,
                    path: t,
                    kind: FileKind::Thumbnail,
                    format_id: None,
                    bytes: None,
                },
            ),
            thumb_path: Some(t),
            ..item
        },
    }
}

/// A job after a file was finished: it goes to the newest item, the one that
/// yt-dlp is working through.
pub open spec fn filed_job(
    job: JobView,
    path: Seq<char>,
    bytes: Option<i64>,
    thumb: Option<Seq<char>>,
    file_id: Seq<char>,
    thumb_id: Seq<char>,
) -> JobView {
    if job.items.len() == 0 {
        job
    } else {
        JobView {
            items: job.items.update(
                job.items.len() - 1,
                filed_item(job.items.last(), path, bytes, thumb, file_id, thumb_id),
            ),
            ..job
        }
    }
}

/// A log with one more line. Only the tail matters for explaining a failure, so
/// the older half goes once there are more than two hundred.
pub open spec fn logged(log: Seq<Seq<char>>, line: Seq<char>) -> Seq<Seq<char>> {
    let all = log.push(line);
    if all.len() > 200 {
        all.skip(100)
    } else {
        all
    }
}

/// What a failed run is explained by: its exit code and the newest lines.
pub open spec fn exit_error(s: SessionView, id: Seq<char>, code: Seq<char>) -> Seq<char> {
    let tail = if s.live.dom().contains(id) {
        join_spec(newest_three(s.live[id].log), " | "@)
    } else {
        Seq::<char>::empty()
    };
    "yt-dlp exited "@ + code + ": "@ + tail
}

/// The state after an event of a job's run.
pub open spec fn applied(s: SessionView, id: Seq<char>, event: JobEvent) -> SessionView {
    match event {
        JobEvent::Progress { fraction, speed, eta } => {
            let l = live_of(s, id);
            SessionView {
                live: s.live.insert(
                    id,
                    LiveView {
                        fraction: if fraction is Some {
                            fraction
                        } else {
                            l.fraction
                        },
                        speed,
                        eta,
                        ..l
                    },
                ),
                ..s
            }
        },
        JobEvent::Info { info, item_id } => SessionView {
            jobs: with_job(s.jobs, id, informed_job(job_at(s.jobs, id), info, item_id@)),
            ..s
        },
        JobEvent::File { path, bytes, thumb, file_id, thumb_id } => SessionView {
            jobs: with_job(
                s.jobs,
                id,
                filed_job(
                    job_at(s.jobs, id),
                    path@,
                    bytes,
                    opt(thumb),
                    file_id@,
                    thumb_id@,
                ),
            ),
            ..s
        },
        JobEvent::Log(line) => if line@ == EXIT_OK@ {
            s
        } else if has_prefix(line@, EXIT_FAIL_PREFIX@) {
            failed(s, id, exit_error(s, id, line@.skip(EXIT_FAIL_PREFIX@.len() as int)))
        } else {
            let l = live_of(s, id);
            SessionView {
                live: s.live.insert(id, LiveView { log: logged(l.log, line@), ..l }),
                ..s
            }
        },
    }
}

/// Whether an event ends the run.
pub open spec fn ends_run(event: JobEvent) -> bool {
    event matches JobEvent::Log(line) && (line@ == EXIT_OK@ || has_prefix(
        line@,
        EXIT_FAIL_PREFIX@,
    ))
}

/// Whether an event ends the run as a failure.
pub open spec fn fails_run(event: JobEvent) -> bool {
    event matches JobEvent::Log(line) && line@ != EXIT_OK@ && has_prefix(
        line@,
        EXIT_FAIL_PREFIX@,
    )
}

fn text_or_empty(t: &Option<String>) -> (r: String)
    ensures
        r@ == or_empty(opt(*t)),
{
    match t {
        Some(t) => t.clone(),
        None => String::new(),
    }
}

fn page_place(items: &Vec<Item>, page: &str) -> (r: usize)
    ensures
        r == page_pos(deep(items@), page@),
        r <= items@.len(),
{
    let ghost v = deep(items@);
    let mut i: usize = 0;
    while i < items.len()
        invariant
            i <= items@.len(),
            v == deep(items@),
            forall|k: int| 0 <= k < i ==> (#[trigger] v[k]).webpage_url != page@,
        decreases items@.len() - i,
    {
        assert(v[i as int] == items@[i as int]@);
        if same(items[i].webpage_url.as_str(), page) {
            proof {
                lemma_page_pos(v, page@, i as int);
            }
            return i;
        }
        i = i + 1;
    }
    proof {
        lemma_page_pos(v, page@, i as int);
    }
    i
}

fn path_known(files: &Vec<File>, path: &str) -> (r: bool)
    ensures
        r == has_path(deep(files@), path@),
{
    let ghost v = deep(files@);
    let mut i: usize = 0;
    while i < files.len()
        invariant
            i <= files@.len(),
            v == deep(files@),
            forall|k: int| 0 <= k < i ==> (#[trigger] v[k]).path != path@,
        decreases files@.len() - i,
    {
        assert(v[i as int] == files@[i as int]@);
        if same(files[i].path.as_str(), path) {
            return true;
        }
        i = i + 1;
    }
    false
}

fn inform(job: &mut Job, info: &InfoLine, item_id: String)
    ensures
        final(job)@ == informed_job(old(job)@, *info, item_id@),
{
    broadcast use {lemma_deep_push, lemma_deep_update};

    let title: String = text_or_empty(&info.title);
    let webpage: String = text_or_empty(&info.webpage_url);
    let still_url: bool = strip_prefix(job.title.as_str(), "http").is_some();
    if still_url && !title.as_str().is_empty() {
        job.title = title.clone();
    }
    let at: usize = page_place(&job.items, webpage.as_str());
    if at < job.items.len() {
        let mut item: Item = job.items[at].clone();
        item.title = title;
        item.duration = info.duration;
        item.thumb_path = copy_opt(&info.thumbnail);
        assert(item@ =~= informed_item(old(job)@.items[at as int], *info));
        job.items.set(at, item);
    } else {
        let item: Item = Item {
            id: item_id,
            index: match info.playlist_index {
                Some(n) => n,
                None => job.items.len() as i64,
            },
            title,
            duration: info.duration,
            thumb_path: copy_opt(&info.thumbnail),
            webpage_url: webpage,
            files: Vec::new(),
        };
        assert(item@ =~= new_item(*info, item_id@, old(job)@.items.len()));
        job.items.push(item);
    }
    assert(job@ =~= informed_job(old(job)@, *info, item_id@));
}

fn add_file(files: &mut Vec<File>, file: File)
    ensures
        deep(final(files)@) == with_file(deep(old(files)@), file@),
{
    broadcast use lemma_deep_push;

    if !path_known(files, file.path.as_str()) {
        files.push(file);
    }
}

fn file_to_item(
    item: &mut Item,
    path: String,
    bytes: Option<i64>,
    thumb: Option<String>,
    file_id: String,
    thumb_id: String,
)
    ensures
        final(item)@ == filed_item(
            old(item)@,
            path@,
            bytes,
            opt(thumb),
            file_id@,
            thumb_id@,
        ),
{
    let kind: FileKind = classify(path.as_str());
    add_file(&mut item.files, File { id: file_id, path, kind, format_id: None, bytes });
    match thumb {
        Some(t) => {
            add_file(
                &mut item.files,
                File {
                    id: thumb_id,
                    path: t.clone(),
                    kind: FileKind::Thumbnail,
                    format_id: None,
                    bytes: None,
                },
            );
            item.thumb_path = Some(t);
        },
        None => {},
    }
    assert(item@ =~= filed_item(old(item)@, path@, bytes, opt(thumb), file_id@, thumb_id@));
}

fn file_to_job(
    job: &mut Job,
    path: String,
    bytes: Option<i64>,
    thumb: Option<String>,
    file_id: String,
    thumb_id: String,
)
    ensures
        final(job)@ == filed_job(old(job)@, path@, bytes, opt(thumb), file_id@, thumb_id@),
{
    broadcast use lemma_deep_update;

    let n: usize = job.items.len();
    if n > 0 {
        let mut item: Item = job.items[n - 1].clone();
        file_to_item(&mut item, path, bytes, thumb, file_id, thumb_id);
        job.items.set(n - 1, item);
    }
    assert(job@ =~= filed_job(old(job)@, path@, bytes, opt(thumb), file_id@, thumb_id@));
}

fn push_log(log: &mut Vec<String>, line: String)
    ensures
        deep(final(log)@) == logged(deep(old(log)@), line@),
{
    broadcast use lemma_deep_push;

    log.push(line);
    if log.len() > 200 {
        let ghost all = log@;
        let newer: Vec<String> = log.split_off(100);
        *log = newer;
        assert(log@ =~= all.skip(100));
        assert(deep(log@) =~= deep(all).skip(100));
    }
}

impl Session {
    pub(crate) fn live_or_blank(&self, job_id: &str) -> (r: Live)
        ensures
            r@ == live_of(self@, job_id@),
    {
        match self.live.get(job_id) {
            Some(l) => l.clone(),
            None => Live::blank(),
        }
    }

    pub(crate) fn replace_job(&mut self, at: usize, job_id: &str, job: Job)
        requires
            has_job(old(self)@.jobs, job_id@),
            at == job_pos(old(self)@.jobs, job_id@),
        ensures
            final(self)@ == (SessionView {
                jobs: with_job(old(self)@.jobs, job_id@, job@),
                ..old(self)@
            }),
    {
        broadcast use lemma_deep_update;

        self.jobs.set(at, job);
        assert(self@ =~= (SessionView {
            jobs: with_job(old(self)@.jobs, job_id@, job@),
            ..old(self)@
        }));
    }

    /// Folds one event of a run into the state. Gives back whether the run
    /// ended, and the job to save where it ended as a failure.
    pub fn apply_event(&mut self, job_id: &str, event: JobEvent) -> (r: (bool, Option<Job>))
        ensures
            final(self)@ == applied(old(self)@, job_id@, event),
            r.0 == ends_run(event),
            opt(r.1) == (if fails_run(event) {
                snapshot(final(self)@, job_id@)
            } else {
                None
            }),
    {
        broadcast use lemma_live_insert;

        proof {
            lemma_job_pos(self@.jobs, job_id@);
        }
        match event {
            JobEvent::Progress { fraction, speed, eta } => {
                let mut live: Live = self.live_or_blank(job_id);
                if fraction.is_some() {
                    live.fraction = fraction;
                }
                live.speed = speed;
                live.eta = eta;
                let ghost l = live@;
                self.live.insert(owned(job_id), live);
                assert(self@ =~= applied(old(self)@, job_id@, event));
                (false, None)
            },
            JobEvent::Info { info, item_id } => {
                match self.find_job(job_id) {
                    Some(i) => {
                        let mut job: Job = self.jobs[i].clone();
                        inform(&mut job, &info, item_id);
                        self.replace_job(i, job_id, job);
                    },
                    None => {},
                }
                (false, None)
            },
            JobEvent::File { path, bytes, thumb, file_id, thumb_id } => {
                match self.find_job(job_id) {
                    Some(i) => {
                        let mut job: Job = self.jobs[i].clone();
                        file_to_job(&mut job, path, bytes, thumb, file_id, thumb_id);
                        self.replace_job(i, job_id, job);
                    },
                    None => {},
                }
                (false, None)
            },
            JobEvent::Log(line) => {
                if same(line.as_str(), EXIT_OK) {
                    return (true, None);
                }
                match strip_prefix(line.as_str(), EXIT_FAIL_PREFIX) {
                    Some(code) => {
                        let tail: String = match self.live.get(job_id) {
                            Some(l) => tail_text(&l.log),
                            None => String::new(),
                        };
                        let mut error: String = concat("yt-dlp exited ", code.as_str());
                        error.append(": ");
                        error.append(tail.as_str());
                        assert(error@ =~= exit_error(self@, job_id@, code@));
                        let saved: Option<Job> = self.fail_job(job_id, error);
                        (true, saved)
                    },
                    None => {
                        let mut live: Live = self.live_or_blank(job_id);
                        push_log(&mut live.log, line);
                        self.live.insert(owned(job_id), live);
                        assert(self@ =~= applied(old(self)@, job_id@, event));
                        (false, None)
                    },
                }
            },
        }
    }
}

// ---------------------------------------------------------------------------
// The launch queue
// ---------------------------------------------------------------------------

/// The gap between two launches, in milliseconds. How many runs there are at
/// once is not limited; only that they do not all start in one instant.
pub const LAUNCH_STAGGER_MS: u64 = 400;

/// The extra wait after a failed launch, in milliseconds, times the attempts.
pub const LAUNCH_BACKOFF_MS: u64 = 2000;

/// How often a launch is attempted.
pub const MAX_LAUNCH_ATTEMPTS: u32 = 5;

/// What to do after a launch was attempted, with the job to save where its
/// state changed.
#[derive(Debug)]
pub enum LaunchStep {
    /// Wait that many milliseconds, and take the next turn.
    Wait { ms: u64, save: Option<Job> },
    /// Take the next turn at once.
    Next { save: Option<Job> },
}

/// The value of a `LaunchStep`.
pub enum LaunchStepView {
    Wait { ms: u64, save: Option<JobView> },
    Next { save: Option<JobView> },
}

impl View for LaunchStep {
    type V = LaunchStepView;

    open spec fn view(&self) -> LaunchStepView {
        match self {
            LaunchStep::Wait { ms, save } => LaunchStepView::Wait { ms: *ms, save: opt(*save) },
            LaunchStep::Next { save } => LaunchStepView::Next { save: opt(*save) },
        }
    }
}

/// A job whose run was started.
pub open spec fn running_job(job: JobView) -> JobView {
    JobView { state: JobState::Running, ..job }
}

/// What a launch that failed for good is explained by.
pub open spec fn launch_error(error: Seq<char>) -> Seq<char> {
    "could not start yt-dlp after retries: "@ + error
}

/// A launch that is to be attempted once more.
pub open spec fn again(p: PendingView) -> PendingView {
    PendingView { attempts: (p.attempts + 1) as u32, ..p }
}

/// The state after a launch was attempted: a run that started is running; one
/// that did not goes to the back of the queue, so that it cannot starve the
/// rest, until its attempts are used up.
pub open spec fn launched(s: SessionView, p: PendingView, error: Option<Seq<char>>) -> SessionView {
    match error {
        None => SessionView {
            cancels: s.cancels.insert(p.job_id),
            jobs: with_job(s.jobs, p.job_id, running_job(job_at(s.jobs, p.job_id))),
            ..s
        },
        Some(e) => if p.attempts + 1 < MAX_LAUNCH_ATTEMPTS {
            SessionView { pending: s.pending.push(again(p)), ..s }
        } else {
            failed(s, p.job_id, launch_error(e))
        },
    }
}

/// What to do after a launch was attempted.
pub open spec fn launch_step(
    s: SessionView,
    p: PendingView,
    error: Option<Seq<char>>,
) -> LaunchStepView {
    let save = snapshot(launched(s, p, error), p.job_id);
    match error {
        None => LaunchStepView::Wait { ms: LAUNCH_STAGGER_MS, save },
        Some(e) => if p.attempts + 1 < MAX_LAUNCH_ATTEMPTS {
            LaunchStepView::Wait {
                ms: (LAUNCH_BACKOFF_MS * (p.attempts + 1)) as u64,
                save: None,
            }
        } else {
            LaunchStepView::Next { save }
        },
    }
}

/// The state after the next launch was taken from the queue; with an empty
/// queue the launcher goes idle.
pub open spec fn next_taken(s: SessionView) -> SessionView {
    if s.pending.len() == 0 {
        SessionView { launcher_active: false, ..s }
    } else {
        SessionView { pending: s.pending.skip(1), ..s }
    }
}

impl Session {
    /// Makes the launcher active. Gives back whether it was idle, in which case
    /// the caller takes its first turn.
    pub fn ensure_launcher(&mut self) -> (r: bool)
        ensures
            final(self)@ == (SessionView { launcher_active: true, ..old(self)@ }),
            r == !old(self)@.launcher_active,
    {
        let idle: bool = !self.launcher_active;
        self.launcher_active = true;
        assert(self@ =~= (SessionView { launcher_active: true, ..old(self)@ }));
        idle
    }

    /// One turn of the launch queue: the launch to attempt, the oldest first.
    /// None, and an idle launcher, only where the queue is empty.
    pub fn launch_next(&mut self) -> (r: Option<PendingLaunch>)
        ensures
            final(self)@ == next_taken(old(self)@),
            opt(r) == (if old(self)@.pending.len() == 0 {
                None
            } else {
                Some(old(self)@.pending[0])
            }),
    {
        broadcast use lemma_deep_remove;

        if self.pending.len() == 0 {
            self.launcher_active = false;
            assert(self@ =~= next_taken(old(self)@));
            None
        } else {
            let next: PendingLaunch = self.pending.remove(0);
            assert(old(self)@.pending.remove(0) =~= old(self)@.pending.skip(1));
            assert(self@ =~= next_taken(old(self)@));
            Some(next)
        }
    }

    /// Takes in how an attempted launch went: started, or the error that kept
    /// it from starting.
    pub fn launch(&mut self, pending: PendingLaunch, error: Option<String>) -> (r: LaunchStep)
        ensures
            final(self)@ == launched(old(self)@, pending@, opt(error)),
            r@ == launch_step(old(self)@, pending@, opt(error)),
    {
        broadcast use lemma_deep_push;

        proof {
            lemma_job_pos(self@.jobs, pending.job_id@);
        }
        match error {
            None => {
                self.cancels.insert(pending.job_id.clone());
                let mut save: Option<Job> = None;
                match self.find_job(pending.job_id.as_str()) {
                    Some(i) => {
                        let mut job: Job = self.jobs[i].clone();
                        job.state = JobState::Running;
                        assert(job@ =~= running_job(job_at(self@.jobs, pending.job_id@)));
                        proof {
                            lemma_with_job_keeps_places(
                                self@.jobs,
                                pending.job_id@,
                                job@,
                                pending.job_id@,
                            );
                        }
                        save = Some(job.clone());
                        self.replace_job(i, pending.job_id.as_str(), job);
                    },
                    None => {},
                }
                assert(self@ =~= launched(old(self)@, pending@, None));
                LaunchStep::Wait { ms: LAUNCH_STAGGER_MS, save }
            },
            Some(e) => {
                if pending.attempts < MAX_LAUNCH_ATTEMPTS - 1 {
                    let attempts: u32 = pending.attempts + 1;
                    let mut next: PendingLaunch = pending;
                    next.attempts = attempts;
                    assert(next@ =~= again(pending@));
                    self.pending.push(next);
                    assert(self@ =~= launched(old(self)@, pending@, Some(e@)));
                    LaunchStep::Wait { ms: LAUNCH_BACKOFF_MS * attempts as u64, save: None }
                } else {
                    let text: String = concat(
                        "could not start yt-dlp after retries: ",
                        e.as_str(),
                    );
                    let save: Option<Job> = self.fail_job(pending.job_id.as_str(), text);
                    LaunchStep::Next { save }
                }
            },
        }
    }
}

// ---------------------------------------------------------------------------
// New downloads and retries
// ---------------------------------------------------------------------------

/// The options of a download that no preset is found for.
pub open spec fn fallback_options(dir: Seq<char>) -> OptionsView {
    OptionsView {
        download_dir: dir,
        container: Some("mp4"@),
        max_height: Some(1080),
        ..default_options_view()
    }
}

/// The options of a download that no preset is found for.
pub fn default_options(dir: &str) -> (r: YtdlpOptions)
    ensures
        r@ == fallback_options(dir@),
{
    let mut r: YtdlpOptions = YtdlpOptions::default();
    r.download_dir = owned(dir);
    r.container = Some(owned("mp4"));
    r.max_height = Some(1080);
    assert(r@ =~= fallback_options(dir@));
    r
}

/// The first preset with the name.
pub open spec fn preset_named(presets: Seq<PresetView>, name: Seq<char>) -> Option<PresetView>
    decreases presets.len(),
{
    if presets.len() == 0 {
        None
    } else if presets[0].name == name {
        Some(presets[0])
    } else {
        preset_named(presets.skip(1), name)
    }
}

/// The first preset that is the default.
pub open spec fn default_preset(presets: Seq<PresetView>) -> Option<PresetView>
    decreases presets.len(),
{
    if presets.len() == 0 {
        None
    } else if presets[0].is_default {
        Some(presets[0])
    } else {
        default_preset(presets.skip(1))
    }
}

/// The preset that a new download runs with: the chosen one, or else the
/// default one.
pub open spec fn run_preset(s: SessionView) -> Option<PresetView> {
    match s.chosen_preset {
        Some(name) => match preset_named(s.presets, name) {
            Some(p) => Some(p),
            None => default_preset(s.presets),
        },
        None => default_preset(s.presets),
    }
}

/// Options with a directory to download to, whatever they say.
pub open spec fn with_dir(o: OptionsView, dir: Seq<char>) -> OptionsView {
    if trim_spec(o.download_dir).len() == 0 {
        OptionsView { download_dir: dir, ..o }
    } else {
        o
    }
}

/// The options of a run: those of the preset, or else the fallback.
pub open spec fn options_of(preset: Option<PresetView>, dir: Seq<char>) -> OptionsView {
    with_dir(
        match preset {
            Some(p) => p.options,
            None => fallback_options(dir),
        },
        dir,
    )
}

/// The title that a new download starts with: what the probe found, or else the
/// URL.
pub open spec fn first_title(probe: ProbeState, url: Seq<char>) -> Seq<char> {
    match probe {
        ProbeState::Found(p) => match p.title {
            Some(t) => t@,
            None => url,
        },
        _ => url,
    }
}

/// The job that a new download is.
pub open spec fn download_job(s: SessionView, url: Seq<char>, id: Seq<char>, now: i64) -> JobView {
    let name = match run_preset(s) {
        Some(p) => p.name,
        None => "default"@,
    };
    JobView {
        title: first_title(s.probe, url),
        ..fresh_job(id, JobKind::Download, url, name, now)
    }
}

/// The launch that a new download waits for. The arguments for this run alone
/// come after the preset's own, so that they win.
pub open spec fn download_launch(
    s: SessionView,
    url: Seq<char>,
    extra: Seq<char>,
    dir: Seq<char>,
    id: Seq<char>,
) -> PendingView {
    let o = options_of(run_preset(s), dir);
    PendingView {
        job_id: id,
        url,
        opts: OptionsView { extra_args: o.extra_args + words_spec(extra), ..o },
        attempts: 0,
    }
}

/// The state after a new download was accepted.
pub open spec fn download_started(
    s: SessionView,
    url: Seq<char>,
    extra: Seq<char>,
    dir: Seq<char>,
    id: Seq<char>,
    now: i64,
) -> SessionView {
    SessionView {
        jobs: s.jobs.insert(0, download_job(s, url, id, now)),
        live: s.live.insert(id, blank_live()),
        selected: Some(id),
        open_item: None,
        modal: false,
        probe: ProbeState::Idle,
        pending: s.pending.push(download_launch(s, url, extra, dir, id)),
        launcher_active: true,
        ..s
    }
}

/// What a new or retried download asks for.
#[derive(Debug)]
pub struct Accepted {
    /// The job to save.
    pub save: Job,
    /// The directory to create.
    pub create_dir: String,
    /// Whether to take the launch queue's first turn.
    pub start_launcher: bool,
}

fn find_preset(presets: &Vec<Preset>, name: &str) -> (r: Option<Preset>)
    ensures
        opt(r) == preset_named(deep(presets@), name@),
{
    let ghost v = deep(presets@);
    let mut i: usize = 0;
    assert(v.skip(0) =~= v);
    while i < presets.len()
        invariant
            i <= presets@.len(),
            v == deep(presets@),
            preset_named(v, name@) == preset_named(v.skip(i as int), name@),
        decreases presets@.len() - i,
    {
        assert(v.skip(i as int)[0] == presets@[i as int]@);
        if same(presets[i].name.as_str(), name) {
            return Some(presets[i].clone());
        }
        assert(v.skip(i as int).skip(1) =~= v.skip(i + 1));
        i = i + 1;
    }
    None
}

fn find_default(presets: &Vec<Preset>) -> (r: Option<Preset>)
    ensures
        opt(r) == default_preset(deep(presets@)),
{
    let ghost v = deep(presets@);
    let mut i: usize = 0;
    assert(v.skip(0) =~= v);
    while i < presets.len()
        invariant
            i <= presets@.len(),
            v == deep(presets@),
            default_preset(v) == default_preset(v.skip(i as int)),
        decreases presets@.len() - i,
    {
        assert(v.skip(i as int)[0] == presets@[i as int]@);
        if presets[i].is_default {
            return Some(presets[i].clone());
        }
        assert(v.skip(i as int).skip(1) =~= v.skip(i + 1));
        i = i + 1;
    }
    None
}

fn options_for(preset: Option<Preset>, dir: &str) -> (r: YtdlpOptions)
    ensures
        r@ == options_of(opt(preset), dir@),
{
    let mut opts: YtdlpOptions = match preset {
        Some(p) => p.options,
        None => default_options(dir),
    };
    if is_trimmed_empty(opts.download_dir.as_str()) {
        opts.download_dir = owned(dir);
    }
    assert(opts@ =~= options_of(opt(preset), dir@));
    opts
}

impl Session {
    fn preset_for_run(&self) -> (r: Option<Preset>)
        ensures
            opt(r) == run_preset(self@),
    {
        match &self.chosen_preset {
            Some(name) => {
                match find_preset(&self.presets, name.as_str()) {
                    Some(p) => {
                        return Some(p);
                    },
                    None => {},
                }
            },
            None => {},
        }
        find_default(&self.presets)
    }

    /// Accepts the typed URL as a new download, unless it is blank or there is
    /// no yt-dlp to run. The preset is resolved here, so that the job records
    /// what it ran with even where the preset is edited later.
    pub fn start_download(
        &mut self,
        typed: &str,
        extra: &str,
        dir: &str,
        id: String,
        now: i64,
    ) -> (r: Option<Accepted>)
        ensures
            ({
                let url = trim_spec(typed@);
                let accepted = url.len() > 0 && old(self)@.ytdlp is Some;
                &&& r is Some <==> accepted
                &&& !accepted ==> final(self)@ == old(self)@
                &&& accepted ==> {
                    &&& final(self)@ == download_started(
                        old(self)@,
                        url,
                        extra@,
                        dir@,
                        id@,
                        now,
                    )
                    &&& r->0.save@ == download_job(old(self)@, url, id@, now)
                    &&& r->0.create_dir@ == download_launch(
                        old(self)@,
                        url,
                        extra@,
                        dir@,
                        id@,
                    ).opts.download_dir
                    &&& r->0.start_launcher == !old(self)@.launcher_active
                }
            }),
    {
        broadcast use {lemma_deep_push, lemma_live_insert};

        let url: String = trim(typed);
        if url.as_str().is_empty() || self.ytdlp.is_none() {
            return None;
        }
        let preset: Option<Preset> = self.preset_for_run();
        let name: String = match &preset {
            Some(p) => p.name.clone(),
            None => owned("default"),
        };
        let mut job: Job = Job::new(id.clone(), url.as_str(), name.as_str(), now);
        job.title = match &self.probe {
            ProbeState::Found(p) => match &p.title {
                Some(t) => t.clone(),
                None => url.clone(),
            },
            _ => url.clone(),
        };
        assert(job@ =~= download_job(self@, url@, id@, now));

        let mut opts: YtdlpOptions = options_for(preset, dir);
        let mut more: Vec<String> = words(extra);
        let ghost own = opts.extra_args@;
        let ghost added = more@;
        opts.extra_args.append(&mut more);
        assert(opts.extra_args@ =~= own + added);
        proof {
            lemma_deep_add(own, added);
        }
        let create_dir: String = opts.download_dir.clone();
        let launch: PendingLaunch = PendingLaunch {
            job_id: id.clone(),
            url: url.clone(),
            opts,
            attempts: 0,
        };
        assert(launch@ =~= download_launch(self@, url@, extra@, dir@, id@));

        let save: Job = job.clone();
        let ghost jobs_before = self.jobs@;
        self.jobs.insert(0, job);
        assert(deep(self.jobs@) =~= deep(jobs_before).insert(0, job@));
        self.live.insert(id.clone(), Live::blank());
        self.selected = Some(id);
        self.open_item = None;
        self.modal = false;
        self.probe = ProbeState::Idle;
        self.pending.push(launch);
        let start_launcher: bool = self.ensure_launcher();
        assert(self@ =~= download_started(old(self)@, url@, extra@, dir@, id@, now));
        Some(Accepted { save, create_dir, start_launcher })
    }
}

/// A job that is queued again.
pub open spec fn requeued_job(job: JobView) -> JobView {
    JobView { state: JobState::Queued, error: None, ..job }
}

/// The launch that a retried download waits for.
pub open spec fn retry_launch(s: SessionView, id: Seq<char>, dir: Seq<char>) -> PendingView {
    let job = job_at(s.jobs, id);
    PendingView {
        job_id: id,
        url: job.url,
        opts: options_of(preset_named(s.presets, job.preset), dir),
        attempts: 0,
    }
}

/// The state after a download was queued again.
pub open spec fn retried(s: SessionView, id: Seq<char>, dir: Seq<char>) -> SessionView {
    SessionView {
        jobs: with_job(s.jobs, id, requeued_job(job_at(s.jobs, id))),
        live: s.live.insert(id, blank_live()),
        pending: s.pending.push(retry_launch(s, id, dir)),
        launcher_active: true,
        ..s
    }
}

impl Session {
    /// Queues a failed or cancelled download again, with its preset as that is
    /// now. Partial files survive a kill, so yt-dlp resumes the transfer.
    pub fn retry_job(&mut self, job_id: &str, dir: &str) -> (r: Option<Accepted>)
        ensures
            ({
                let known = has_job(old(self)@.jobs, job_id@);
                &&& r is Some <==> known
                &&& !known ==> final(self)@ == old(self)@
                &&& known ==> {
                    &&& final(self)@ == retried(old(self)@, job_id@, dir@)
                    &&& r->0.save@ == requeued_job(job_at(old(self)@.jobs, job_id@))
                    &&& r->0.create_dir@ == retry_launch(
                        old(self)@,
                        job_id@,
                        dir@,
                    ).opts.download_dir
                    &&& r->0.start_launcher == !old(self)@.launcher_active
                }
            }),
    {
        broadcast use {lemma_deep_push, lemma_live_insert};

        proof {
            lemma_job_pos(self@.jobs, job_id@);
        }
        let at: usize = match self.find_job(job_id) {
            Some(i) => i,
            None => {
                return None;
            },
        };
        let mut job: Job = self.jobs[at].clone();
        let opts: YtdlpOptions = options_for(
            find_preset(&self.presets, job.preset.as_str()),
            dir,
        );
        let create_dir: String = opts.download_dir.clone();
        let launch: PendingLaunch = PendingLaunch {
            job_id: owned(job_id),
            url: job.url.clone(),
            opts,
            attempts: 0,
        };
        assert(launch@ =~= retry_launch(self@, job_id@, dir@));
        job.state = JobState::Queued;
        job.error = None;
        assert(job@ =~= requeued_job(job_at(self@.jobs, job_id@)));
        let save: Job = job.clone();
        self.replace_job(at, job_id, job);
        self.live.insert(owned(job_id), Live::blank());
        self.pending.push(launch);
        let start_launcher: bool = self.ensure_launcher();
        assert(self@ =~= retried(old(self)@, job_id@, dir@));
        Some(Accepted { save, create_dir, start_launcher })
    }
}

// ---------------------------------------------------------------------------
// What holds of every run
// ---------------------------------------------------------------------------

/// A deliberate cancel survives the failure that its own kill causes: whatever
/// error the run then reports, the job stays cancelled, without an error, and
/// stays so when its event stream ends.
pub proof fn lemma_cancel_survives_its_kill(s: SessionView, id: Seq<char>, error: Seq<char>)
    requires
        has_job(s.jobs, id),
    ensures
        ({
            let c = cancelled(s, id);
            let f = failed(c, id, error);
            let e = finished(f, id);
            &&& job_at(c.jobs, id).state == JobState::Cancelled
            &&& job_at(f.jobs, id).state == JobState::Cancelled
            &&& job_at(f.jobs, id).error is None
            &&& job_at(e.jobs, id) == job_at(c.jobs, id)
        }),
{
    lemma_job_pos(s.jobs, id);
    let job = cancelled_job(job_at(s.jobs, id));
    let c = cancelled(s, id);
    lemma_with_job_keeps_places(s.jobs, id, job, id);
    let f = failed(c, id, error);
    lemma_with_job_keeps_places(c.jobs, id, failed_job(job_at(c.jobs, id), error), id);
    lemma_with_job_keeps_places(f.jobs, id, finished_job(job_at(f.jobs, id)), id);
    assert(failed_job(job, error) =~= job);
    assert(finished_job(job) =~= job);
}

/// A run that failed is not called done when its event stream ends.
pub proof fn lemma_failure_survives_the_end(s: SessionView, id: Seq<char>, error: Seq<char>)
    requires
        has_job(s.jobs, id),
        job_at(s.jobs, id).state != JobState::Cancelled,
    ensures
        ({
            let e = finished(failed(s, id, error), id);
            &&& job_at(e.jobs, id).state == JobState::Failed
            &&& job_at(e.jobs, id).error == Some(error)
        }),
{
    lemma_job_pos(s.jobs, id);
    let f = failed(s, id, error);
    lemma_with_job_keeps_places(s.jobs, id, failed_job(job_at(s.jobs, id), error), id);
    lemma_with_job_keeps_places(f.jobs, id, finished_job(job_at(f.jobs, id)), id);
}

/// However a job ends, nothing live is left of it, and no other job's state,
/// live state or kill switch changes.
pub proof fn lemma_ending_concerns_one_job(
    s: SessionView,
    id: Seq<char>,
    error: Seq<char>,
    other: Seq<char>,
)
    requires
        other != id,
    ensures
        forall|e: SessionView|
            #![trigger e.live]
            e == failed(s, id, error) || e == finished(s, id) || e == cancelled(s, id) ==> {
                &&& !e.live.dom().contains(id)
                &&& !e.cancels.contains(id)
                &&& e.live.dom().contains(other) == s.live.dom().contains(other)
                &&& e.live[other] == s.live[other]
                &&& e.cancels.contains(other) == s.cancels.contains(other)
                &&& e.jobs.len() == s.jobs.len()
                &&& has_job(s.jobs, other) ==> has_job(e.jobs, other) && job_at(e.jobs, other)
                    == job_at(s.jobs, other)
            },
{
    lemma_job_pos(s.jobs, id);
    if has_job(s.jobs, id) {
        lemma_with_job_keeps_places(s.jobs, id, failed_job(job_at(s.jobs, id), error), other);
        lemma_with_job_keeps_places(s.jobs, id, finished_job(job_at(s.jobs, id)), other);
        lemma_with_job_keeps_places(s.jobs, id, cancelled_job(job_at(s.jobs, id)), other);
    }
}

proof fn lemma_without_pending(p: Seq<PendingView>, id: Seq<char>)
    ensures
        forall|i: int|
            0 <= i < without_pending(p, id).len() ==> (
            #[trigger] without_pending(p, id)[i]).job_id != id,
        forall|x: PendingView|
            x.job_id != id ==> (#[trigger] without_pending(p, id).contains(x) <==> p.contains(x)),
        without_pending(p, id).len() <= p.len(),
    decreases p.len(),
{
    if p.len() > 0 {
        let rest = p.drop_last();
        let w = without_pending(rest, id);
        lemma_without_pending(rest, id);
        assert forall|x: PendingView| x.job_id != id implies (#[trigger] without_pending(
            p,
            id,
        ).contains(x) <==> p.contains(x)) by {
            if p.contains(x) {
                let i = choose|i: int| 0 <= i < p.len() && p[i] == x;
                if i < rest.len() {
                    assert(rest[i] == x);
                    assert(rest.contains(x));
                    assert(w.contains(x));
                    let j = choose|j: int| 0 <= j < w.len() && w[j] == x;
                    assert(without_pending(p, id)[j] == x);
                } else {
                    assert(without_pending(p, id)[w.len() as int] == x);
                }
            }
            if without_pending(p, id).contains(x) {
                let j = choose|j: int|
                    0 <= j < without_pending(p, id).len() && without_pending(p, id)[j] == x;
                if j < w.len() {
                    assert(w[j] == x);
                    assert(w.contains(x));
                    let i = choose|i: int| 0 <= i < rest.len() && rest[i] == x;
                    assert(p[i] == x);
                } else {
                    assert(p[p.len() - 1] == x);
                }
            }
        }
        assert forall|i: int| 0 <= i < without_pending(p, id).len() implies (
        #[trigger] without_pending(p, id)[i]).job_id != id by {
            if i < w.len() {
                assert(w[i].job_id != id);
            }
        }
    }
}

/// A cancelled job that was still waiting is never launched, and the launches
/// of other jobs stay queued.
pub proof fn lemma_cancel_empties_the_queue_of_a_job(s: SessionView, id: Seq<char>)
    ensures
        forall|i: int|
            0 <= i < cancelled(s, id).pending.len() ==> (
            #[trigger] cancelled(s, id).pending[i]).job_id != id,
        forall|x: PendingView|
            x.job_id != id ==> (#[trigger] cancelled(s, id).pending.contains(x)
                <==> s.pending.contains(x)),
{
    lemma_without_pending(s.pending, id);
}

/// What every step of the launch queue keeps: with the launcher idle nothing
/// waits, and no launch has used up its attempts.
pub open spec fn queue_ok(s: SessionView) -> bool {
    &&& !s.launcher_active ==> s.pending.len() == 0
    &&& forall|i: int|
        0 <= i < s.pending.len() ==> (#[trigger] s.pending[i]).attempts < MAX_LAUNCH_ATTEMPTS
}

/// The queue is kept by every operation: accepting and retrying downloads,
/// taking a turn, taking in how a launch went, cancelling, and every end of a
/// run.
pub proof fn lemma_queue_is_kept(
    s: SessionView,
    p: PendingView,
    error: Option<Seq<char>>,
    url: Seq<char>,
    extra: Seq<char>,
    dir: Seq<char>,
    id: Seq<char>,
    now: i64,
)
    requires
        queue_ok(s),
    ensures
        queue_ok(download_started(s, url, extra, dir, id, now)),
        queue_ok(retried(s, id, dir)),
        queue_ok(next_taken(s)),
        s.launcher_active ==> queue_ok(launched(s, p, error)),
        queue_ok(cancelled(s, id)),
        queue_ok(finished(s, id)),
        queue_ok(failed(s, id, url)),
{
    lemma_without_pending(s.pending, id);
    let w = without_pending(s.pending, id);
    assert forall|i: int| 0 <= i < w.len() implies (#[trigger] w[i]).attempts
        < MAX_LAUNCH_ATTEMPTS by {
        let x = w[i];
        assert(w.contains(x));
        assert(s.pending.contains(x));
        let j = choose|j: int| 0 <= j < s.pending.len() && s.pending[j] == x;
        assert(s.pending[j].attempts < MAX_LAUNCH_ATTEMPTS);
    }
    assert forall|i: int| 0 <= i < next_taken(s).pending.len() implies (
    #[trigger] next_taken(s).pending[i]).attempts < MAX_LAUNCH_ATTEMPTS by {
        assert(next_taken(s).pending[i] == s.pending[i + 1]);
    }
}

/// A launch that keeps failing is attempted five times in all, each time after
/// a longer wait, and then its job fails with the last error.
pub proof fn lemma_attempts_are_bounded(s: SessionView, p: PendingView, error: Seq<char>)
    requires
        p.attempts < MAX_LAUNCH_ATTEMPTS,
    ensures
        p.attempts < 4 ==> {
            &&& launched(s, p, Some(error)).pending == s.pending.push(again(p))
            &&& again(p).attempts == p.attempts + 1
            &&& launch_step(s, p, Some(error)) == (LaunchStepView::Wait {
                ms: (2000 * (p.attempts + 1)) as u64,
                save: None,
            })
            &&& launched(s, p, Some(error)).jobs == s.jobs
        },
        p.attempts == 4 ==> {
            &&& launched(s, p, Some(error)) == failed(s, p.job_id, launch_error(error))
            &&& launch_step(s, p, Some(error)) is Next
        },
{
}

/// The queue is fair: a launch waits for no more turns than launches stood
/// before it, as every turn takes the first one and what fails goes to the
/// back.
pub proof fn lemma_queue_is_fair(s: SessionView, p: PendingView, error: Option<Seq<char>>, i: int)
    requires
        0 < i < s.pending.len(),
    ensures
        next_taken(s).pending[i - 1] == s.pending[i],
        i < launched(s, p, error).pending.len(),
        launched(s, p, error).pending[i] == s.pending[i],
{
}

/// Whether every log holds at most two hundred lines.
pub open spec fn logs_bounded(s: SessionView) -> bool {
    forall|id: Seq<char>| #[trigger] s.live.dom().contains(id) ==> s.live[id].log.len() <= 200
}

/// No event makes a log grow past two hundred lines.
pub proof fn lemma_logs_stay_bounded(s: SessionView, id: Seq<char>, event: JobEvent)
    requires
        logs_bounded(s),
    ensures
        logs_bounded(applied(s, id, event)),
{
    let a = applied(s, id, event);
    assert forall|k: Seq<char>| #[trigger] a.live.dom().contains(k) implies a.live[k].log.len()
        <= 200 by {
        if k != id {
            assert(s.live.dom().contains(k));
        } else if s.live.dom().contains(id) {
        }
    }
}

/// Whether no two items of a job stand for one page, and no two files of an
/// item stand at one path.
pub open spec fn no_doubles(job: JobView) -> bool {
    &&& forall|i: int, j: int|
        0 <= i < j < job.items.len() ==> (#[trigger] job.items[i]).webpage_url != (
        #[trigger] job.items[j]).webpage_url
    &&& forall|i: int| 0 <= i < job.items.len() ==> distinct_paths(#[trigger] job.items[i].files)
}

/// Whether no two files stand at one path.
pub open spec fn distinct_paths(files: Seq<FileView>) -> bool {
    forall|a: int, b: int|
        0 <= a < b < files.len() ==> (#[trigger] files[a]).path != (#[trigger] files[b]).path
}

proof fn lemma_with_file_distinct(files: Seq<FileView>, file: FileView)
    requires
        distinct_paths(files),
    ensures
        distinct_paths(with_file(files, file)),
{
}

/// However often metadata and files are reported, a job holds one item for each
/// page and each item one file for each path.
pub proof fn lemma_reports_never_double(
    job: JobView,
    info: InfoLine,
    item_id: Seq<char>,
    path: Seq<char>,
    bytes: Option<i64>,
    thumb: Option<Seq<char>>,
    file_id: Seq<char>,
    thumb_id: Seq<char>,
)
    requires
        no_doubles(job),
    ensures
        no_doubles(informed_job(job, info, item_id)),
        no_doubles(filed_job(job, path, bytes, thumb, file_id, thumb_id)),
{
    let a = informed_job(job, info, item_id);
    let page = or_empty(opt(info.webpage_url));
    lemma_page_pos_is_first(job.items, page);
    assert forall|i: int| 0 <= i < a.items.len() implies distinct_paths(
        #[trigger] a.items[i].files,
    ) by {
        if i < job.items.len() {
            assert(a.items[i].files == job.items[i].files);
        }
    }
    assert forall|i: int, j: int| 0 <= i < j < a.items.len() implies (
    #[trigger] a.items[i]).webpage_url != (#[trigger] a.items[j]).webpage_url by {
        assert(a.items[i].webpage_url == job.items[i].webpage_url);
        if j < job.items.len() {
            assert(a.items[j].webpage_url == job.items[j].webpage_url);
        }
    }
    if job.items.len() > 0 {
        let n = job.items.len() - 1;
        let item = job.items.last();
        let b = filed_job(job, path, bytes, thumb, file_id, thumb_id);
        let first = FileView { id: file_id, path, kind: path_kind(path), format_id: None, bytes };
        assert(distinct_paths(job.items[n].files));
        lemma_with_file_distinct(item.files, first);
        if thumb is Some {
            lemma_with_file_distinct(
                with_file(item.files, first),
                FileView {
                    id: thumb_id,
                    path: thumb->0,
                    kind: FileKind::Thumbnail,
                    format_id: None,
                    bytes: None,
                },
            );
        }
        assert forall|i: int, j: int| 0 <= i < j < b.items.len() implies (
        #[trigger] b.items[i]).webpage_url != (#[trigger] b.items[j]).webpage_url by {
            assert(b.items[i].webpage_url == job.items[i].webpage_url);
            assert(b.items[j].webpage_url == job.items[j].webpage_url);
        }
        assert forall|i: int| 0 <= i < b.items.len() implies distinct_paths(
            #[trigger] b.items[i].files,
        ) by {
            if i < n {
                assert(b.items[i] == job.items[i]);
            }
        }
    }
}

/// Metadata that comes again for a page brings the item of that page up to date:
/// there is no item more, it keeps its id, place and files, and no other item
/// changes.
pub proof fn lemma_info_again_updates_in_place(
    job: JobView,
    info: InfoLine,
    item_id: Seq<char>,
    at: int,
)
    requires
        no_doubles(job),
        0 <= at < job.items.len(),
        job.items[at].webpage_url == or_empty(opt(info.webpage_url)),
    ensures
        ({
            let a = informed_job(job, info, item_id);
            let (was, is) = (job.items[at], a.items[at]);
            &&& a.items.len() == job.items.len()
            &&& is.title == or_empty(opt(info.title))
            &&& is.duration == info.duration
            &&& is.thumb_path == opt(info.thumbnail)
            &&& is.id == was.id && is.index == was.index && is.files == was.files
            &&& is.webpage_url == was.webpage_url
            &&& forall|i: int| 0 <= i < job.items.len() && i != at ==> a.items[i] == job.items[i]
        }),
{
    let page = or_empty(opt(info.webpage_url));
    lemma_page_pos_is_first(job.items, page);
    let first = page_pos(job.items, page);
    if first < at {
        assert(job.items[first].webpage_url != job.items[at].webpage_url);
    }
}

/// An event of one job's run changes no other job and no other live state.
pub proof fn lemma_events_concern_one_job(
    s: SessionView,
    id: Seq<char>,
    event: JobEvent,
    other: Seq<char>,
)
    requires
        other != id,
    ensures
        has_job(s.jobs, other) ==> has_job(applied(s, id, event).jobs, other) && job_at(
            applied(s, id, event).jobs,
            other,
        ) == job_at(s.jobs, other),
        applied(s, id, event).jobs.len() == s.jobs.len(),
        applied(s, id, event).live.dom().contains(other) == s.live.dom().contains(other),
        applied(s, id, event).live[other] == s.live[other],
        applied(s, id, event).pending == s.pending,
        applied(s, id, event).selected == s.selected,
{
    lemma_job_pos(s.jobs, id);
    match event {
        JobEvent::Info { info, item_id } => {
            if has_job(s.jobs, id) {
                lemma_with_job_keeps_places(
                    s.jobs,
                    id,
                    informed_job(job_at(s.jobs, id), info, item_id@),
                    other,
                );
            }
        },
        JobEvent::File { path, bytes, thumb, file_id, thumb_id } => {
            if has_job(s.jobs, id) {
                lemma_with_job_keeps_places(
                    s.jobs,
                    id,
                    filed_job(
                        job_at(s.jobs, id),
                        path@,
                        bytes,
                        opt(thumb),
                        file_id@,
                        thumb_id@,
                    ),
                    other,
                );
            }
        },
        JobEvent::Log(line) => {
            if fails_run(event) {
                let e = exit_error(s, id, line@.skip(EXIT_FAIL_PREFIX@.len() as int));
                lemma_ending_concerns_one_job(s, id, e, other);
                let f = failed(s, id, e);
                assert(f.live == applied(s, id, event).live);
            }
        },
        _ => {},
    }
}

// ---------------------------------------------------------------------------
// What each step does
// ---------------------------------------------------------------------------

proof fn lemma_with_file(files: Seq<FileView>, file: FileView)
    ensures
        ({
            let more = with_file(files, file);
            &&& has_path(more, file.path)
            &&& has_path(files, file.path) ==> more == files
            &&& !has_path(files, file.path) ==> more == files.push(file)
            &&& forall|p: Seq<char>| #[trigger] has_path(files, p) ==> has_path(more, p)
            &&& forall|p: Seq<char>|
                p != file.path && #[trigger] has_path(more, p) ==> has_path(files, p)
        }),
{
    let more = with_file(files, file);
    if !has_path(files, file.path) {
        assert(more[files.len() as int].path == file.path);
        assert forall|p: Seq<char>| #[trigger] has_path(files, p) implies has_path(more, p) by {
            let i = choose|i: int| 0 <= i < files.len() && (#[trigger] files[i]).path == p;
            assert(more[i].path == p);
        }
        assert forall|p: Seq<char>|
            p != file.path && #[trigger] has_path(more, p) implies has_path(files, p) by {
            let i = choose|i: int| 0 <= i < more.len() && (#[trigger] more[i]).path == p;
            assert(files[i].path == p);
        }
    }
}

/// A finished file goes to the newest item of the first job with the id, the item
/// whose metadata came last: that item then holds a file at the path, behind the
/// files it had. No item before it changes, no other job, and nothing else.
pub proof fn lemma_finished_file_goes_to_the_newest_item(
    s: SessionView,
    id: Seq<char>,
    n: int,
    path: String,
    bytes: Option<i64>,
    thumb: Option<String>,
    file_id: String,
    thumb_id: String,
)
    requires
        is_first(s.jobs, id, n),
        s.jobs[n].items.len() > 0,
    ensures
        ({
            let t = applied(s, id, JobEvent::File { path, bytes, thumb, file_id, thumb_id });
            let (old_job, job) = (s.jobs[n], t.jobs[n]);
            let last = old_job.items.len() - 1;
            let (was, is) = (old_job.items[last], job.items[last]);
            let had = was.files.len() as int;
            &&& t == (SessionView { jobs: t.jobs, ..s })
            &&& differ_at(s.jobs, t.jobs, n)
            &&& job == (JobView { items: job.items, ..old_job })
            &&& job.items.len() == old_job.items.len()
            &&& forall|i: int| 0 <= i < last ==> #[trigger] job.items[i] == old_job.items[i]
            &&& is == (ItemView { files: is.files, thumb_path: is.thumb_path, ..was })
            &&& exists|i: int| 0 <= i < is.files.len() && (#[trigger] is.files[i]).path == path@
            &&& had <= is.files.len() && is.files.take(had) == was.files
            &&& (forall|i: int| 0 <= i < had ==> (#[trigger] was.files[i]).path != path@)
                ==> is.files.len() > had && is.files[had] == (FileView {
                id: file_id@,
                path: path@,
                kind: path_kind(path@),
                format_id: None,
                bytes,
            })
            &&& thumb is None ==> is.thumb_path == was.thumb_path && is.files.len() <= had + 1
            &&& thumb is None && (exists|i: int|
                0 <= i < had && (#[trigger] was.files[i]).path == path@) ==> is.files == was.files
            &&& thumb is Some ==> {
                let cover = thumb->0@;
                &&& is.thumb_path == Some(cover)
                &&& is.files.len() <= had + 2
                &&& exists|i: int|
                    0 <= i < is.files.len() && (#[trigger] is.files[i]).path == cover
                &&& cover != path@ && (forall|i: int|
                    0 <= i < had ==> (#[trigger] was.files[i]).path != cover) ==> is.files.last()
                    == (FileView {
                    id: thumb_id@,
                    path: cover,
                    kind: FileKind::Thumbnail,
                    format_id: None,
                    bytes: None,
                })
            }
        }),
{
    let new_job = filed_job(s.jobs[n], path@, bytes, opt(thumb), file_id@, thumb_id@);
    lemma_with_job_at(s.jobs, id, new_job, n);
    let was = s.jobs[n].items.last();
    let first = FileView {
        id: file_id@,
        path: path@,
        kind: path_kind(path@),
        format_id: None,
        bytes,
    };
    lemma_with_file(was.files, first);
    let one = with_file(was.files, first);
    let had = was.files.len() as int;
    assert(one.take(had) =~= was.files);
    if thumb is Some {
        let cover = FileView {
            id: thumb_id@,
            path: thumb->0@,
            kind: FileKind::Thumbnail,
            format_id: None,
            bytes: None,
        };
        lemma_with_file(one, cover);
        let two = with_file(one, cover);
        assert(two.take(had) =~= was.files);
        assert(has_path(two, path@));
        if cover.path != path@ && (forall|i: int|
            0 <= i < had ==> (#[trigger] was.files[i]).path != cover.path) {
            assert(!has_path(was.files, cover.path));
            assert(!has_path(one, cover.path));
        }
    }
}

/// A finished file of a job without an item, or of a job that is not listed, changes
/// nothing.
pub proof fn lemma_file_needs_an_item(
    s: SessionView,
    id: Seq<char>,
    n: int,
    path: String,
    bytes: Option<i64>,
    thumb: Option<String>,
    file_id: String,
    thumb_id: String,
)
    requires
        0 <= n <= s.jobs.len(),
        n < s.jobs.len() ==> is_first(s.jobs, id, n) && s.jobs[n].items.len() == 0,
        n == s.jobs.len() ==> forall|i: int| 0 <= i < n ==> (#[trigger] s.jobs[i]).id != id,
    ensures
        applied(s, id, JobEvent::File { path, bytes, thumb, file_id, thumb_id }) == s,
{
    let job = filed_job(job_at(s.jobs, id), path@, bytes, opt(thumb), file_id@, thumb_id@);
    lemma_with_job_at(s.jobs, id, job, n);
    if n < s.jobs.len() {
        assert(s.jobs.update(n, s.jobs[n]) =~= s.jobs);
    }
}

/// Metadata of a page that the job has no item for makes a new item, the last one,
/// with what the metadata tells and no file; its number is that in the playlist, or
/// else the number of items before it. A title that is still the URL gives way to the
/// video's. The items before, the other jobs and all else stay.
pub proof fn lemma_new_page_becomes_the_last_item(
    s: SessionView,
    id: Seq<char>,
    n: int,
    info: InfoLine,
    item_id: String,
    page: Seq<char>,
    title: Seq<char>,
)
    requires
        is_first(s.jobs, id, n),
        page == (match info.webpage_url {
            Some(u) => u@,
            None => Seq::<char>::empty(),
        }),
        title == (match info.title {
            Some(u) => u@,
            None => Seq::<char>::empty(),
        }),
        forall|i: int|
            0 <= i < s.jobs[n].items.len() ==> (#[trigger] s.jobs[n].items[i]).webpage_url != page,
    ensures
        ({
            let t = applied(s, id, JobEvent::Info { info, item_id });
            let (was, is) = (s.jobs[n], t.jobs[n]);
            let count = was.items.len() as int;
            &&& t == (SessionView { jobs: t.jobs, ..s })
            &&& differ_at(s.jobs, t.jobs, n)
            &&& is == (JobView { items: is.items, title: is.title, ..was })
            &&& is.items.len() == count + 1
            &&& is.items.take(count) == was.items
            &&& is.items[count].id == item_id@
            &&& info.playlist_index is Some ==> is.items[count].index == info.playlist_index->0
            &&& info.playlist_index is None ==> is.items[count].index == count as i64
            &&& is.items[count].title == title
            &&& is.items[count].duration == info.duration
            &&& is.items[count].thumb_path == (match info.thumbnail {
                Some(u) => Some(u@),
                None => None,
            })
            &&& is.items[count].webpage_url == page
            &&& is.items[count].files.len() == 0
            &&& title.len() > 0 && (exists|rest: Seq<char>| was.title == "http"@ + rest)
                ==> is.title == title
            &&& title.len() == 0 || !(exists|rest: Seq<char>| was.title == "http"@ + rest)
                ==> is.title == was.title
        }),
{
    lemma_with_job_at(s.jobs, id, informed_job(s.jobs[n], info, item_id@), n);
    lemma_page_pos(s.jobs[n].items, page, s.jobs[n].items.len() as int);
    lemma_prefix_is_a_beginning(s.jobs[n].title, "http"@);
    let is = applied(s, id, JobEvent::Info { info, item_id }).jobs[n];
    assert(is.items.take(s.jobs[n].items.len() as int) =~= s.jobs[n].items);
}

/// Metadata of a page that comes again changes what the first item of that page tells
/// of its video, and a title that is still the URL; nothing else.
pub proof fn lemma_known_page_is_told_anew(
    s: SessionView,
    id: Seq<char>,
    n: int,
    info: InfoLine,
    item_id: String,
    k: int,
    page: Seq<char>,
    title: Seq<char>,
)
    requires
        is_first(s.jobs, id, n),
        page == (match info.webpage_url {
            Some(u) => u@,
            None => Seq::<char>::empty(),
        }),
        title == (match info.title {
            Some(u) => u@,
            None => Seq::<char>::empty(),
        }),
        0 <= k < s.jobs[n].items.len(),
        s.jobs[n].items[k].webpage_url == page,
        forall|i: int| 0 <= i < k ==> (#[trigger] s.jobs[n].items[i]).webpage_url != page,
    ensures
        ({
            let t = applied(s, id, JobEvent::Info { info, item_id });
            let (was, is) = (s.jobs[n], t.jobs[n]);
            &&& t == (SessionView { jobs: t.jobs, ..s })
            &&& differ_at(s.jobs, t.jobs, n)
            &&& is == (JobView { items: is.items, title: is.title, ..was })
            &&& is.items.len() == was.items.len()
            &&& forall|i: int|
                0 <= i < was.items.len() && i != k ==> #[trigger] is.items[i] == was.items[i]
            &&& is.items[k] == (ItemView {
                title,
                duration: info.duration,
                thumb_path: match info.thumbnail {
                    Some(u) => Some(u@),
                    None => None,
                },
                ..was.items[k]
            })
            &&& title.len() > 0 && (exists|rest: Seq<char>| was.title == "http"@ + rest)
                ==> is.title == title
            &&& title.len() == 0 || !(exists|rest: Seq<char>| was.title == "http"@ + rest)
                ==> is.title == was.title
        }),
{
    lemma_with_job_at(s.jobs, id, informed_job(s.jobs[n], info, item_id@), n);
    lemma_page_pos(s.jobs[n].items, page, k);
    lemma_prefix_is_a_beginning(s.jobs[n].title, "http"@);
}

/// A report of progress is what is shown: the fraction stays where the size is
/// unknown, the speed and the time left are the reported ones, the log stays. No job
/// changes, nor anything live of another.
pub proof fn lemma_progress_is_shown(
    s: SessionView,
    id: Seq<char>,
    fraction: Option<Single>,
    speed: Option<Double>,
    eta: Option<Double>,
)
    ensures
        ({
            let t = applied(s, id, JobEvent::Progress { fraction, speed, eta });
            &&& t == (SessionView { live: t.live, ..s })
            &&& t.live == s.live.insert(id, t.live[id])
            &&& t.live[id].speed == speed
            &&& t.live[id].eta == eta
            &&& fraction is Some ==> t.live[id].fraction == fraction
            &&& fraction is None && s.live.dom().contains(id) ==> t.live[id].fraction
                == s.live[id].fraction
            &&& fraction is None && !s.live.dom().contains(id) ==> t.live[id].fraction is None
            &&& s.live.dom().contains(id) ==> t.live[id].log == s.live[id].log
            &&& !s.live.dom().contains(id) ==> t.live[id].log.len() == 0
            &&& !ends_run(JobEvent::Progress { fraction, speed, eta })
        }),
{
}

/// A line of a run's output becomes the last one of its log, and no job changes. While
/// the log has fewer than two hundred lines all are kept; with that many the older
/// hundred go.
pub proof fn lemma_line_becomes_the_last_of_the_log(s: SessionView, id: Seq<char>, line: String)
    requires
        line@ != "RDLP_EXIT ok"@,
        forall|rest: Seq<char>| line@ != #[trigger] ("RDLP_EXIT fail "@ + rest),
    ensures
        ({
            let t = applied(s, id, JobEvent::Log(line));
            let was = if s.live.dom().contains(id) {
                s.live[id].log
            } else {
                Seq::<Seq<char>>::empty()
            };
            let is = t.live[id].log;
            &&& t == (SessionView { live: t.live, ..s })
            &&& t.live == s.live.insert(id, t.live[id])
            &&& is.last() == line@
            &&& was.len() < 200 ==> is == was.push(line@)
            &&& was.len() >= 200 ==> is == was.skip(100).push(line@)
            &&& s.live.dom().contains(id) ==> t.live[id] == (LiveView { log: is, ..s.live[id] })
            &&& !ends_run(JobEvent::Log(line)) && !fails_run(JobEvent::Log(line))
        }),
{
    lemma_prefix_is_a_beginning(line@, "RDLP_EXIT fail "@);
    let was = live_of(s, id).log;
    if was.len() >= 200 {
        assert(was.push(line@).skip(100) =~= was.skip(100).push(line@));
    }
}

/// The line that a successful run ends with changes nothing by itself.
pub proof fn lemma_successful_end_changes_nothing(s: SessionView, id: Seq<char>, line: String)
    requires
        line@ == "RDLP_EXIT ok"@,
    ensures
        applied(s, id, JobEvent::Log(line)) == s,
        ends_run(JobEvent::Log(line)),
        !fails_run(JobEvent::Log(line)),
{
}

/// The line that a failed run ends with fails the job, with its exit code and the
/// newest three lines of its log, the newest first.
pub proof fn lemma_failed_end_is_explained_by_the_log(
    s: SessionView,
    id: Seq<char>,
    n: int,
    line: String,
    code: Seq<char>,
)
    requires
        is_first(s.jobs, id, n),
        !(s.jobs[n].state is Cancelled),
        line@ == "RDLP_EXIT fail "@ + code,
    ensures
        ({
            let t = applied(s, id, JobEvent::Log(line));
            let log = s.live[id].log;
            let (a, b, c) = (log[log.len() - 1], log[log.len() - 2], log[log.len() - 3]);
            let head = "yt-dlp exited "@ + code + ": "@;
            let known = s.live.dom().contains(id);
            &&& differ_at(s.jobs, t.jobs, n)
            &&& t.jobs[n].state is Failed
            &&& t.jobs[n] == (JobView { state: JobState::Failed, error: t.jobs[n].error, ..s.jobs[n] })
            &&& !known || log.len() == 0 ==> t.jobs[n].error == Some(head)
            &&& known && log.len() == 1 ==> t.jobs[n].error == Some(head + a)
            &&& known && log.len() == 2 ==> t.jobs[n].error == Some(head + (a + " | "@ + b))
            &&& known && log.len() >= 3 ==> t.jobs[n].error == Some(
                head + (a + " | "@ + b + " | "@ + c),
            )
            &&& !t.live.dom().contains(id) && !t.cancels.contains(id)
            &&& ends_run(JobEvent::Log(line)) && fails_run(JobEvent::Log(line))
        }),
{
    reveal_strlit("RDLP_EXIT fail ");
    reveal_strlit("RDLP_EXIT ok");
    assert(line@[10] == 'f');
    assert("RDLP_EXIT ok"@[10] == 'o');
    lemma_prefix_is_a_beginning(line@, "RDLP_EXIT fail "@);
    assert(line@.skip("RDLP_EXIT fail "@.len() as int) =~= code);
    let e = exit_error(s, id, code);
    lemma_failure_marks_the_job(s, id, e, n);
    assert(applied(s, id, JobEvent::Log(line)) == failed(s, id, e));
    let head = "yt-dlp exited "@ + code + ": "@;
    let log = s.live[id].log;
    let three = newest_three(log);
    assert(head + Seq::<char>::empty() =~= head);
    if log.len() == 0 {
        assert(join_spec(three, " | "@) =~= Seq::<char>::empty());
    } else if log.len() == 1 {
        assert(join_spec(three, " | "@) == log[0]);
    } else if log.len() == 2 {
        assert(three.drop_last() =~= seq![log[1]]);
        assert(join_spec(three.drop_last(), " | "@) == log[1]);
        assert(join_spec(three, " | "@) == log[1] + " | "@ + log[0]);
    } else {
        let two = three.drop_last();
        assert(two.drop_last() =~= seq![log[log.len() - 1]]);
        assert(join_spec(two.drop_last(), " | "@) == log[log.len() - 1]);
        assert(two.last() == log[log.len() - 2]);
        assert(join_spec(two, " | "@) == log[log.len() - 1] + " | "@ + log[log.len() - 2]);
        assert(three.last() == log[log.len() - 3]);
        assert(join_spec(three, " | "@) == join_spec(two, " | "@) + " | "@ + three.last());
    }
}

/// A launch that succeeded makes the job running, with a process to kill; the queue
/// and the other jobs stay. The job is saved, and the next launch comes 400 ms later.
pub proof fn lemma_started_launch_is_running(s: SessionView, p: PendingView, n: int)
    requires
        is_first(s.jobs, p.job_id, n),
    ensures
        ({
            let t = launched(s, p, None);
            &&& differ_at(s.jobs, t.jobs, n)
            &&& t.jobs[n] == (JobView { state: JobState::Running, ..s.jobs[n] })
            &&& t.cancels == s.cancels.insert(p.job_id)
            &&& t == (SessionView { jobs: t.jobs, cancels: t.cancels, ..s })
            &&& launch_step(s, p, None) == (LaunchStepView::Wait {
                ms: 400,
                save: Some(t.jobs[n]),
            })
        }),
{
    let job = running_job(s.jobs[n]);
    lemma_with_job_at(s.jobs, p.job_id, job, n);
    let t = launched(s, p, None);
    lemma_with_job_at(t.jobs, p.job_id, job, n);
}

/// A launch that failed goes to the back of the queue, with one attempt more and the
/// same job, URL and options, and nothing else changes; the wait grows by two seconds
/// with each attempt. The fifth failure fails the job.
pub proof fn lemma_failed_launch_is_attempted_again(
    s: SessionView,
    p: PendingView,
    error: Seq<char>,
    n: int,
)
    requires
        is_first(s.jobs, p.job_id, n),
    ensures
        ({
            let t = launched(s, p, Some(error));
            let step = launch_step(s, p, Some(error));
            &&& p.attempts < 4 ==> {
                &&& t == (SessionView { pending: t.pending, ..s })
                &&& t.pending.len() == s.pending.len() + 1
                &&& t.pending.drop_last() == s.pending
                &&& t.pending.last().job_id == p.job_id
                &&& t.pending.last().url == p.url
                &&& t.pending.last().opts == p.opts
                &&& t.pending.last().attempts == p.attempts + 1
                &&& step == (LaunchStepView::Wait {
                    ms: (2000 * (p.attempts + 1)) as u64,
                    save: None,
                })
            }
            &&& p.attempts >= 4 ==> {
                &&& t.pending == s.pending
                &&& differ_at(s.jobs, t.jobs, n)
                &&& !(s.jobs[n].state is Cancelled) ==> t.jobs[n] == (JobView {
                    state: JobState::Failed,
                    error: Some("could not start yt-dlp after retries: "@ + error),
                    ..s.jobs[n]
                })
                &&& s.jobs[n].state is Cancelled ==> t.jobs[n] == s.jobs[n]
                &&& step == (LaunchStepView::Next { save: Some(t.jobs[n]) })
            }
        }),
{
    let t = launched(s, p, Some(error));
    if p.attempts < 4 {
        assert(t.pending.drop_last() =~= s.pending);
    } else {
        lemma_failure_marks_the_job(s, p.job_id, "could not start yt-dlp after retries: "@ + error, n);
        lemma_with_job_at(t.jobs, p.job_id, t.jobs[n], n);
    }
}

/// The launches are taken one at a time, the oldest first; with none left the launcher
/// goes idle, and only then.
pub proof fn lemma_oldest_launch_is_taken_first(s: SessionView)
    ensures
        ({
            let t = next_taken(s);
            &&& s.pending.len() > 0 ==> {
                &&& t == (SessionView { pending: t.pending, ..s })
                &&& s.pending == seq![s.pending[0]] + t.pending
            }
            &&& s.pending.len() == 0 ==> t == (SessionView { launcher_active: false, ..s })
        }),
{
    if s.pending.len() > 0 {
        assert(s.pending =~= seq![s.pending[0]] + s.pending.skip(1));
    }
}

/// Whether the first preset with the name is the one at `m`.
pub open spec fn is_first_named(presets: Seq<PresetView>, name: Seq<char>, m: int) -> bool {
    0 <= m < presets.len() && presets[m].name == name && forall|i: int|
        0 <= i < m ==> (#[trigger] presets[i]).name != name
}

/// Whether the first preset that is the default is the one at `m`.
pub open spec fn is_first_default(presets: Seq<PresetView>, m: int) -> bool {
    0 <= m < presets.len() && presets[m].is_default && forall|i: int|
        0 <= i < m ==> !(#[trigger] presets[i]).is_default
}

proof fn lemma_preset_named(presets: Seq<PresetView>, name: Seq<char>, m: int)
    ensures
        is_first_named(presets, name, m) ==> preset_named(presets, name) == Some(presets[m]),
        (forall|i: int| 0 <= i < presets.len() ==> (#[trigger] presets[i]).name != name)
            ==> preset_named(presets, name) is None,
    decreases presets.len(),
{
    if presets.len() > 0 {
        let rest = presets.skip(1);
        lemma_preset_named(rest, name, m - 1);
        assert forall|i: int| 0 <= i < rest.len() implies rest[i] == presets[i + 1] by {}
    }
}

proof fn lemma_default_preset(presets: Seq<PresetView>, m: int)
    ensures
        is_first_default(presets, m) ==> default_preset(presets) == Some(presets[m]),
        (forall|i: int| 0 <= i < presets.len() ==> !(#[trigger] presets[i]).is_default)
            ==> default_preset(presets) is None,
    decreases presets.len(),
{
    if presets.len() > 0 {
        let rest = presets.skip(1);
        lemma_default_preset(rest, m - 1);
        assert forall|i: int| 0 <= i < rest.len() implies rest[i] == presets[i + 1] by {}
    }
}

/// A retry queues one launch behind the others: of the job's own URL, never attempted
/// yet. Its options are those of the first preset with the name that the job has for
/// its preset, whatever preset is the default or chosen; only a blank directory is
/// replaced by the given one.
pub proof fn lemma_retry_runs_the_preset_of_the_job(
    s: SessionView,
    id: Seq<char>,
    dir: Seq<char>,
    n: int,
    m: int,
)
    requires
        is_first(s.jobs, id, n),
        is_first_named(s.presets, s.jobs[n].preset, m),
    ensures
        ({
            let t = retried(s, id, dir);
            &&& t.pending.len() == s.pending.len() + 1
            &&& t.pending.drop_last() == s.pending
            &&& t.pending.last().job_id == id
            &&& t.pending.last().url == s.jobs[n].url
            &&& t.pending.last().attempts == 0
            &&& !is_blank(s.presets[m].options.download_dir) ==> t.pending.last().opts
                == s.presets[m].options
            &&& is_blank(s.presets[m].options.download_dir) ==> t.pending.last().opts
                == (OptionsView { download_dir: dir, ..s.presets[m].options })
        }),
{
    lemma_with_job_at(s.jobs, id, requeued_job(job_at(s.jobs, id)), n);
    lemma_preset_named(s.presets, s.jobs[n].preset, m);
    lemma_trim_empty_iff_blank(s.presets[m].options.download_dir);
    assert(retried(s, id, dir).pending.drop_last() =~= s.pending);
}

/// A retry of a job whose preset is gone runs with the best video of at most 1080 lines
/// as mp4, all else at its default, in the given directory.
pub proof fn lemma_retry_without_its_preset(s: SessionView, id: Seq<char>, dir: Seq<char>, n: int)
    requires
        is_first(s.jobs, id, n),
        forall|i: int|
            0 <= i < s.presets.len() ==> (#[trigger] s.presets[i]).name != s.jobs[n].preset,
    ensures
        ({
            let p = retried(s, id, dir).pending.last();
            &&& p.job_id == id && p.url == s.jobs[n].url && p.attempts == 0
            &&& is_fallback(p.opts, dir)
        }),
{
    lemma_with_job_at(s.jobs, id, requeued_job(job_at(s.jobs, id)), n);
    lemma_preset_named(s.presets, s.jobs[n].preset, 0);
}

/// Whether the options ask for the best video of at most 1080 lines as mp4 in a
/// directory, and nothing more.
pub open spec fn is_fallback(o: OptionsView, dir: Seq<char>) -> bool {
    &&& o.format is BestVideoAudio
    &&& o.max_height == Some(1080u32)
    &&& o.container == Some("mp4"@)
    &&& o.download_dir == dir
    &&& o.output_template == "%(title)s [%(id)s].%(ext)s"@
    &&& o.subtitle_langs.len() == 0 && o.extra_args.len() == 0
    &&& !o.embed_subs && !o.embed_thumbnail && !o.embed_metadata && !o.download_archive
    &&& o.sponsorblock_remove is None && o.rate_limit is None && o.cookies_from_browser is None
    &&& o.concurrent_fragments == 1 && o.retries == 10
}

/// What runs where no preset is found.
pub proof fn lemma_fallback_is_full_hd_mp4(dir: Seq<char>)
    ensures
        is_fallback(fallback_options(dir), dir),
{
}

/// A retry makes the job wait again, without its error, with its items; what was live
/// of it starts afresh. The other jobs and all else stay.
pub proof fn lemma_retry_queues_the_job(s: SessionView, id: Seq<char>, dir: Seq<char>, n: int)
    requires
        is_first(s.jobs, id, n),
    ensures
        ({
            let t = retried(s, id, dir);
            &&& differ_at(s.jobs, t.jobs, n)
            &&& t.jobs[n] == (JobView { state: JobState::Queued, error: None, ..s.jobs[n] })
            &&& t.live == s.live.insert(id, t.live[id])
            &&& t.live[id].fraction is None && t.live[id].speed is None && t.live[id].eta is None
            &&& t.live[id].log.len() == 0
            &&& t.launcher_active
            &&& t == (SessionView {
                jobs: t.jobs,
                live: t.live,
                pending: t.pending,
                launcher_active: true,
                ..s
            })
        }),
{
    lemma_with_job_at(s.jobs, id, requeued_job(job_at(s.jobs, id)), n);
}

/// A new download is the first job of the list, waiting, with its URL, nothing fetched
/// and no error, titled with what the probe found or else with the URL. Its launch
/// waits behind the others. The dialog closes on it, and it is selected. The jobs there
/// were, the presets and all else stay.
pub proof fn lemma_new_download_heads_the_list(
    s: SessionView,
    url: Seq<char>,
    extra: Seq<char>,
    dir: Seq<char>,
    id: Seq<char>,
    now: i64,
)
    ensures
        ({
            let t = download_started(s, url, extra, dir, id, now);
            let (job, p) = (t.jobs[0], t.pending.last());
            &&& t.jobs.len() == s.jobs.len() + 1 && t.jobs.skip(1) == s.jobs
            &&& job.id == id && job.url == url && job.kind is Download
            &&& job.state is Queued && job.error is None && job.created_at == now
            &&& job.items.len() == 0
            &&& match s.probe {
                ProbeState::Found(found) => match found.title {
                    Some(title) => job.title == title@,
                    None => job.title == url,
                },
                _ => job.title == url,
            }
            &&& t.pending.len() == s.pending.len() + 1 && t.pending.drop_last() == s.pending
            &&& p.job_id == id && p.url == url && p.attempts == 0
            &&& t.live == s.live.insert(id, t.live[id])
            &&& t.live[id].fraction is None && t.live[id].speed is None && t.live[id].eta is None
            &&& t.live[id].log.len() == 0
            &&& t == (SessionView {
                jobs: t.jobs,
                live: t.live,
                selected: Some(id),
                open_item: None,
                modal: false,
                probe: ProbeState::Idle,
                pending: t.pending,
                launcher_active: true,
                ..s
            })
        }),
{
    let t = download_started(s, url, extra, dir, id, now);
    assert(t.jobs.skip(1) =~= s.jobs);
    assert(t.pending.drop_last() =~= s.pending);
}

/// A new download runs with the first preset of the chosen name, or else with the first
/// default one, or else with the fallback; the job keeps the preset's name. A blank
/// directory gives way to the given one, the words typed for this run come behind the
/// preset's own arguments, and every other option is the preset's.
pub proof fn lemma_new_download_runs_the_chosen_preset(
    s: SessionView,
    url: Seq<char>,
    extra: Seq<char>,
    dir: Seq<char>,
    id: Seq<char>,
    now: i64,
    m: int,
)
    ensures
        ({
            let t = download_started(s, url, extra, dir, id, now);
            let opts = t.pending.last().opts;
            let chosen = s.chosen_preset is Some && exists|i: int|
                0 <= i < s.presets.len() && (#[trigger] s.presets[i]).name == s.chosen_preset->0;
            let own = s.presets[m].options;
            let found = if chosen {
                is_first_named(s.presets, s.chosen_preset->0, m)
            } else {
                is_first_default(s.presets, m)
            };
            &&& found ==> {
                &&& t.jobs[0].preset == s.presets[m].name
                &&& opts.extra_args == own.extra_args + words_spec(extra)
                &&& !is_blank(own.download_dir) ==> opts.download_dir == own.download_dir
                &&& is_blank(own.download_dir) ==> opts.download_dir == dir
                &&& opts == (OptionsView {
                    download_dir: opts.download_dir,
                    extra_args: opts.extra_args,
                    ..own
                })
            }
            &&& !chosen && (forall|i: int|
                0 <= i < s.presets.len() ==> !(#[trigger] s.presets[i]).is_default) ==> {
                &&& t.jobs[0].preset == "default"@
                &&& opts.extra_args == words_spec(extra)
                &&& is_fallback(OptionsView { extra_args: Seq::empty(), ..opts }, dir)
            }
        }),
{
    if s.chosen_preset is Some {
        lemma_preset_named(s.presets, s.chosen_preset->0, m);
    }
    lemma_default_preset(s.presets, m);
    lemma_trim_empty_iff_blank(s.presets[m].options.download_dir);
    assert(Seq::<Seq<char>>::empty() + words_spec(extra) =~= words_spec(extra));
}

} // verus!
