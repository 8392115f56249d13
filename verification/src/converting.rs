//! Conversions: from the choice of a target format to the converted file in
//! the library. A conversion is a job like a download, but starts at once.

use vstd::prelude::*;

use crate::model::{File, Item, Job, JobState};
#[allow(unused_imports)]
use crate::model::{fresh_job, FileView, ItemView, JobKind, JobView};
use crate::paths::{classify, file_name};
#[allow(unused_imports)]
use crate::paths::{after_last_dot, file_name_spec, kind_of_extension, lowercase};
use crate::runner::{ConvertEvent, ConvertFormat, EXIT_FAIL_PREFIX, EXIT_OK};
#[allow(unused_imports)]
use crate::runner::ConvertProgress;
use crate::session::{Live, Session};
#[allow(unused_imports)]
use crate::session::{
    blank_live, cancelled, differ_at, failed, has_job, is_first, job_at,
    lemma_failure_marks_the_job, lemma_job_pos, lemma_live_insert, lemma_with_job_at,
    lemma_with_job_keeps_places, settled, snapshot, with_job, LiveView, SessionView,
};
#[allow(unused_imports)]
use crate::downloads::live_of;
use crate::text::{concat, concat3, owned, same, strip_prefix};
#[allow(unused_imports)]
use crate::text::{deep, has_prefix, opt};
use crate::ytdlp::{Double, Single};

verus! {

// ---------------------------------------------------------------------------
// Starting
// ---------------------------------------------------------------------------

/// The job of a conversion, before anything has happened to it.
pub open spec fn convert_job(
    source: Seq<char>,
    format: ConvertFormat,
    id: Seq<char>,
    now: i64,
) -> JobView {
    JobView {
        title: file_name_spec(source) + " → "@ + format.label_spec(),
        ..fresh_job(id, JobKind::Convert, source, format.key(), now)
    }
}

/// The state after a conversion was asked for.
pub open spec fn convert_begun(
    s: SessionView,
    source: Seq<char>,
    format: ConvertFormat,
    id: Seq<char>,
    now: i64,
) -> SessionView {
    SessionView {
        convert_picker: None,
        jobs: s.jobs.insert(0, convert_job(source, format, id, now)),
        live: s.live.insert(id, blank_live()),
        selected: Some(id),
        open_item: None,
        ..s
    }
}

/// A job whose process was started.
pub open spec fn running_job(job: JobView) -> JobView {
    JobView { state: JobState::Running, ..job }
}

/// The state after a conversion's process was started.
pub open spec fn convert_running(s: SessionView, id: Seq<char>) -> SessionView {
    SessionView {
        cancels: s.cancels.insert(id),
        jobs: with_job(s.jobs, id, running_job(job_at(s.jobs, id))),
        ..s
    }
}

/// Why a conversion could not be started.
#[derive(Debug)]
pub enum ConvertFailure {
    /// There is no ffmpeg.
    Unavailable(String),
    /// ffmpeg could not be run.
    NotStarted(String),
}

/// What is said of a conversion that could not be started.
pub open spec fn convert_failure_text(failure: ConvertFailure) -> Seq<char> {
    match failure {
        ConvertFailure::Unavailable(e) => "ffmpeg not available: "@ + e@,
        ConvertFailure::NotStarted(e) => "could not start ffmpeg: "@ + e@,
    }
}

/// Whether an item has a file at a path.
pub open spec fn item_has_file(item: ItemView, path: Seq<char>) -> bool {
    exists|i: int| 0 <= i < item.files.len() && (#[trigger] item.files[i]).path == path
}

/// Where the first item with a file at a path stands; the number of items where
/// there is none.
pub open spec fn file_item_pos(items: Seq<ItemView>, path: Seq<char>) -> int
    decreases items.len(),
{
    if items.len() == 0 || item_has_file(items[0], path) {
        0
    } else {
        1 + file_item_pos(items.skip(1), path)
    }
}

/// The length recorded of a file: that of the first item, of any job, that has
/// it.
pub open spec fn recorded_length(jobs: Seq<JobView>, path: Seq<char>) -> Option<Double>
    decreases jobs.len(),
{
    if jobs.len() == 0 {
        None
    } else {
        let items = jobs[0].items;
        let i = file_item_pos(items, path);
        if i < items.len() {
            items[i].duration
        } else {
            recorded_length(jobs.skip(1), path)
        }
    }
}

fn has_file(item: &Item, path: &str) -> (r: bool)
    ensures
        r == item_has_file(item@, path@),
{
    let ghost files = item@.files;
    let mut i: usize = 0;
    while i < item.files.len()
        invariant
            i <= item.files@.len(),
            files == deep(item.files@),
            files == item@.files,
            forall|k: int| 0 <= k < i ==> (#[trigger] files[k]).path != path@,
        decreases item.files@.len() - i,
    {
        assert(files[i as int] == item.files@[i as int]@);
        if same(item.files[i].path.as_str(), path) {
            assert(item@.files[i as int].path == path@);
            return true;
        }
        i = i + 1;
    }
    false
}

fn find_file_item(items: &Vec<Item>, path: &str) -> (r: usize)
    ensures
        r == file_item_pos(deep(items@), path@),
        r <= items@.len(),
{
    let ghost all = deep(items@);
    let mut i: usize = 0;
    assert(all.skip(0) =~= all);
    while i < items.len()
        invariant
            i <= items@.len(),
            all == deep(items@),
            file_item_pos(all, path@) == i + file_item_pos(all.skip(i as int), path@),
        decreases items@.len() - i,
    {
        assert(all.skip(i as int)[0] == items@[i as int]@);
        if has_file(&items[i], path) {
            return i;
        }
        assert(all.skip(i as int).skip(1) =~= all.skip(i + 1));
        i = i + 1;
    }
    i
}

impl Session {
    /// Takes a conversion on: it is listed first, opened, and about to start.
    /// Gives back the job to save.
    pub fn begin_convert(&mut self, source: &str, format: ConvertFormat, id: String, now: i64) -> (r:
        Job)
        ensures
            final(self)@ == convert_begun(old(self)@, source@, format, id@, now),
            r@ == convert_job(source@, format, id@, now),
    {
        broadcast use lemma_live_insert;

        let mut job: Job = Job::new_convert(id.clone(), source, format.as_str(), now);
        job.title = concat3(file_name(source).as_str(), " → ", format.label());
        assert(job@ =~= convert_job(source@, format, id@, now));
        let save: Job = job.clone();
        let ghost before = self.jobs@;
        self.convert_picker = None;
        self.jobs.insert(0, job);
        assert(deep(self.jobs@) =~= deep(before).insert(0, job@));
        self.live.insert(id.clone(), Live::blank());
        self.selected = Some(id);
        self.open_item = None;
        assert(self@ =~= convert_begun(old(self)@, source@, format, id@, now));
        save
    }

    /// A conversion could not be started. Gives back the job to save.
    pub fn convert_failed(&mut self, job_id: &str, failure: ConvertFailure) -> (r: Option<Job>)
        ensures
            final(self)@ == failed(old(self)@, job_id@, convert_failure_text(failure)),
            opt(r) == snapshot(final(self)@, job_id@),
    {
        let text: String = match failure {
            ConvertFailure::Unavailable(e) => concat("ffmpeg not available: ", e.as_str()),
            ConvertFailure::NotStarted(e) => concat("could not start ffmpeg: ", e.as_str()),
        };
        self.fail_job(job_id, text)
    }

    /// A conversion's process was started: it runs, and can be killed. Gives
    /// back the job to save.
    pub fn convert_launched(&mut self, job_id: &str) -> (r: Option<Job>)
        ensures
            final(self)@ == convert_running(old(self)@, job_id@),
            opt(r) == snapshot(final(self)@, job_id@),
    {
        proof {
            lemma_job_pos(self@.jobs, job_id@);
        }
        self.cancels.insert(owned(job_id));
        match self.find_job(job_id) {
            Some(i) => {
                let mut job: Job = self.jobs[i].clone();
                job.state = JobState::Running;
                assert(job@ =~= running_job(job_at(old(self)@.jobs, job_id@)));
                let save: Job = job.clone();
                proof {
                    lemma_with_job_keeps_places(self@.jobs, job_id@, job@, job_id@);
                }
                self.replace_job(i, job_id, job);
                assert(self@ =~= convert_running(old(self)@, job_id@));
                Some(save)
            },
            None => {
                assert(self@ =~= convert_running(old(self)@, job_id@));
                None
            },
        }
    }

    /// The length recorded of a file, where a job has it. A file that was never
    /// downloaded has none, and its conversion shows no progress.
    pub fn recorded_length(&self, path: &str) -> (r: Option<Double>)
        ensures
            r == recorded_length(self@.jobs, path@),
    {
        let ghost jobs = self@.jobs;
        let mut i: usize = 0;
        assert(jobs.skip(0) =~= jobs);
        while i < self.jobs.len()
            invariant
                i <= self.jobs@.len(),
                jobs == deep(self.jobs@),
                jobs == self@.jobs,
                recorded_length(jobs, path@) == recorded_length(jobs.skip(i as int), path@),
            decreases self.jobs@.len() - i,
        {
            assert(jobs.skip(i as int)[0] == self.jobs@[i as int]@);
            let items: &Vec<Item> = &self.jobs[i].items;
            let k: usize = find_file_item(items, path);
            if k < items.len() {
                assert(deep(items@)[k as int] == items@[k as int]@);
                return items[k].duration;
            }
            assert(jobs.skip(i as int).skip(1) =~= jobs.skip(i + 1));
            i = i + 1;
        }
        None
    }
}

// ---------------------------------------------------------------------------
// Running and ending
// ---------------------------------------------------------------------------

/// Whether a conversion's progress can be measured: there is a time, and a
/// length above zero to hold it against.
pub open spec fn measurable(out_time: Option<Double>, length: Option<Double>) -> bool {
    out_time is Some && length is Some && length->0.positive()
}

/// The state after a running conversion reported something. `ratio` is the time
/// against the length, where both are there.
pub open spec fn convert_applied(
    s: SessionView,
    id: Seq<char>,
    length: Option<Double>,
    ratio: Single,
    event: ConvertEvent,
) -> SessionView {
    match event {
        ConvertEvent::Progress(p) => SessionView {
            live: s.live.insert(
                id,
                LiveView {
                    fraction: if measurable(p.out_time_secs, length) {
                        Some(ratio)
                    } else {
                        None
                    },
                    speed: p.speed,
                    ..live_of(s, id)
                },
            ),
            ..s
        },
        ConvertEvent::Log(line) => if line@ != EXIT_OK@ && has_prefix(line@, EXIT_FAIL_PREFIX@) {
            failed(s, id, "ffmpeg exited "@ + line@.skip(EXIT_FAIL_PREFIX@.len() as int))
        } else {
            s
        },
    }
}

/// Whether a report is the conversion's last.
pub open spec fn ends_convert(event: ConvertEvent) -> bool {
    match event {
        ConvertEvent::Progress(_) => false,
        ConvertEvent::Log(line) => line@ == EXIT_OK@ || has_prefix(line@, EXIT_FAIL_PREFIX@),
    }
}

/// Whether a report says that the conversion failed.
pub open spec fn fails_convert(event: ConvertEvent) -> bool {
    match event {
        ConvertEvent::Progress(_) => false,
        ConvertEvent::Log(line) => line@ != EXIT_OK@ && has_prefix(line@, EXIT_FAIL_PREFIX@),
    }
}

/// What the outside world knows of a converted file, and the ids that its
/// records get.
#[derive(Debug)]
pub struct Converted {
    pub path: String,
    pub bytes: Option<i64>,
    pub item_id: String,
    pub file_id: String,
}

/// The item of a converted file.
pub open spec fn converted_item(title: Seq<char>, c: Converted) -> ItemView {
    ItemView {
        id: c.item_id@,
        index: 0,
        title,
        duration: None,
        thumb_path: None,
        webpage_url: Seq::<char>::empty(),
        files: seq![
            FileView {
                id: c.file_id@,
                path: c.path@,
                kind: kind_of_extension(after_last_dot(lowercase(c.path@))),
                format_id: None,
                bytes: c.bytes,
            },
        ],
    }
}

/// A conversion after its reports ended: done, with its one file, unless it was
/// not running any more.
pub open spec fn converted_job(job: JobView, c: Converted) -> JobView {
    if job.state == JobState::Running {
        JobView { state: JobState::Done, items: seq![converted_item(job.title, c)], ..job }
    } else {
        job
    }
}

/// The state after a conversion's reports ended.
pub open spec fn convert_finished(s: SessionView, id: Seq<char>, c: Converted) -> SessionView {
    settled(SessionView { jobs: with_job(s.jobs, id, converted_job(job_at(s.jobs, id), c)), ..s }, id)
}

impl Session {
    /// A running conversion reported something. Says whether it was its last
    /// report, and gives back the job to save where it failed.
    pub fn apply_convert_event(
        &mut self,
        job_id: &str,
        length: Option<Double>,
        ratio: Single,
        event: ConvertEvent,
    ) -> (r: (bool, Option<Job>))
        ensures
            final(self)@ == convert_applied(old(self)@, job_id@, length, ratio, event),
            r.0 == ends_convert(event),
            opt(r.1) == (if fails_convert(event) {
                snapshot(final(self)@, job_id@)
            } else {
                None
            }),
    {
        broadcast use lemma_live_insert;

        match event {
            ConvertEvent::Progress(p) => {
                let mut live: Live = self.live_or_blank(job_id);
                live.fraction = match (p.out_time_secs, length) {
                    (Some(_), Some(d)) => if d.is_positive() {
                        Some(ratio)
                    } else {
                        None
                    },
                    _ => None,
                };
                live.speed = p.speed;
                self.live.insert(owned(job_id), live);
                assert(self@.live =~= convert_applied(
                    old(self)@,
                    job_id@,
                    length,
                    ratio,
                    event,
                ).live);
                assert(self@ =~= convert_applied(old(self)@, job_id@, length, ratio, event));
                (false, None)
            },
            ConvertEvent::Log(line) => {
                if same(line.as_str(), EXIT_OK) {
                    return (true, None);
                }
                match strip_prefix(line.as_str(), EXIT_FAIL_PREFIX) {
                    Some(code) => {
                        let saved: Option<Job> = self.fail_job(
                            job_id,
                            concat("ffmpeg exited ", code.as_str()),
                        );
                        (true, saved)
                    },
                    None => (false, None),
                }
            },
        }
    }

    /// A conversion's reports ended. The converted file becomes the job's one
    /// item, so that it is listed and played like a download. Gives back the job
    /// to save.
    pub fn finish_convert(&mut self, job_id: &str, c: Converted) -> (r: Option<Job>)
        ensures
            final(self)@ == convert_finished(old(self)@, job_id@, c),
            opt(r) == snapshot(final(self)@, job_id@),
    {
        proof {
            lemma_job_pos(self@.jobs, job_id@);
        }
        let mut saved: Option<Job> = None;
        match self.find_job(job_id) {
            Some(i) => {
                let mut job: Job = self.jobs[i].clone();
                let running: bool = match job.state {
                    JobState::Running => true,
                    _ => false,
                };
                if running {
                    let file: File = File {
                        id: owned(c.file_id.as_str()),
                        path: owned(c.path.as_str()),
                        kind: classify(c.path.as_str()),
                        format_id: None,
                        bytes: c.bytes,
                    };
                    let mut files: Vec<File> = Vec::new();
                    files.push(file);
                    let item: Item = Item {
                        id: owned(c.item_id.as_str()),
                        index: 0,
                        title: owned(job.title.as_str()),
                        duration: None,
                        thumb_path: None,
                        webpage_url: String::new(),
                        files,
                    };
                    assert(item@ =~= converted_item(job@.title, c)) by {
                        assert(deep(files@) =~= seq![file@]);
                        assert(file@ =~= converted_item(job@.title, c).files[0]);
                    }
                    let mut items: Vec<Item> = Vec::new();
                    items.push(item);
                    assert(deep(items@) =~= seq![item@]);
                    job.state = JobState::Done;
                    job.items = items;
                }
                assert(job@ =~= converted_job(job_at(self@.jobs, job_id@), c));
                proof {
                    lemma_with_job_keeps_places(self@.jobs, job_id@, job@, job_id@);
                }
                saved = Some(job.clone());
                self.replace_job(i, job_id, job);
            },
            None => {},
        }
        assert(self@ =~= (SessionView {
            jobs: with_job(
                old(self)@.jobs,
                job_id@,
                converted_job(job_at(old(self)@.jobs, job_id@), c),
            ),
            ..old(self)@
        }));
        self.settle(job_id);
        saved
    }
}

// ---------------------------------------------------------------------------
// Laws
// ---------------------------------------------------------------------------

/// A conversion that ran to its end is done and holds exactly the converted
/// file, under its own title.
pub proof fn lemma_converted_file_is_listed(s: SessionView, id: Seq<char>, c: Converted)
    requires
        has_job(s.jobs, id),
        job_at(s.jobs, id).state == JobState::Running,
    ensures
        ({
            let job = job_at(convert_finished(s, id, c).jobs, id);
            &&& job.state == JobState::Done
            &&& job.items.len() == 1
            &&& job.items[0].title == job_at(s.jobs, id).title
            &&& job.items[0].files.len() == 1
            &&& job.items[0].files[0].path == c.path@
        }),
{
    lemma_job_pos(s.jobs, id);
    let job = converted_job(job_at(s.jobs, id), c);
    lemma_with_job_keeps_places(s.jobs, id, job, id);
}

/// A conversion that was cancelled, or that failed, is not turned into a
/// finished one when its reports end, and gets no file.
pub proof fn lemma_ended_convert_stays_ended(s: SessionView, id: Seq<char>, c: Converted)
    requires
        has_job(s.jobs, id),
        job_at(s.jobs, id).state != JobState::Running,
    ensures
        job_at(convert_finished(s, id, c).jobs, id) == job_at(s.jobs, id),
{
    lemma_job_pos(s.jobs, id);
    let job = converted_job(job_at(s.jobs, id), c);
    lemma_with_job_keeps_places(s.jobs, id, job, id);
}

/// The kill that a cancel causes does not relabel the conversion.
pub proof fn lemma_convert_cancel_survives_its_kill(
    s: SessionView,
    id: Seq<char>,
    line: String,
    length: Option<Double>,
    ratio: Single,
)
    requires
        has_job(s.jobs, id),
    ensures
        ({
            let after = convert_applied(
                cancelled(s, id),
                id,
                length,
                ratio,
                ConvertEvent::Log(line),
            );
            job_at(after.jobs, id).state == JobState::Cancelled
        }),
{
    lemma_job_pos(s.jobs, id);
    let first = crate::session::cancelled_job(job_at(s.jobs, id));
    lemma_with_job_keeps_places(s.jobs, id, first, id);
    let c = cancelled(s, id);
    lemma_job_pos(c.jobs, id);
    let text = "ffmpeg exited "@ + line@.skip(EXIT_FAIL_PREFIX@.len() as int);
    let second = crate::session::failed_job(job_at(c.jobs, id), text);
    lemma_with_job_keeps_places(c.jobs, id, second, id);
}

/// Everything that a conversion does concerns its own job alone.
pub proof fn lemma_convert_concerns_one_job(
    s: SessionView,
    id: Seq<char>,
    other: Seq<char>,
    c: Converted,
    length: Option<Double>,
    ratio: Single,
    event: ConvertEvent,
)
    requires
        other != id,
        has_job(s.jobs, other),
    ensures
        job_at(convert_running(s, id).jobs, other) == job_at(s.jobs, other),
        job_at(convert_applied(s, id, length, ratio, event).jobs, other) == job_at(s.jobs, other),
        job_at(convert_finished(s, id, c).jobs, other) == job_at(s.jobs, other),
{
    lemma_job_pos(s.jobs, id);
    lemma_job_pos(s.jobs, other);
    let mine = job_at(s.jobs, id);
    if has_job(s.jobs, id) {
        lemma_with_job_keeps_places(s.jobs, id, running_job(mine), other);
        lemma_with_job_keeps_places(s.jobs, id, converted_job(mine, c), other);
        match event {
            ConvertEvent::Log(line) => {
                let text = "ffmpeg exited "@ + line@.skip(EXIT_FAIL_PREFIX@.len() as int);
                lemma_with_job_keeps_places(
                    s.jobs,
                    id,
                    crate::session::failed_job(mine, text),
                    other,
                );
            },
            ConvertEvent::Progress(_) => {},
        }
    }
}

// ---------------------------------------------------------------------------
// What each step does
// ---------------------------------------------------------------------------

/// A conversion heads the list, waiting, and is selected: a job for its source file and
/// target format, titled with the file's name and the format's, that nothing has happened
/// to. The picker closes. The jobs there were and all else stay.
pub proof fn lemma_new_conversion_heads_the_list(
    s: SessionView,
    source: Seq<char>,
    format: ConvertFormat,
    id: Seq<char>,
    now: i64,
)
    ensures
        ({
            let t = convert_begun(s, source, format, id, now);
            let job = t.jobs[0];
            &&& t.jobs.len() == s.jobs.len() + 1 && t.jobs.skip(1) == s.jobs
            &&& job.id == id && job.kind is Convert && job.url == source
            &&& job.preset == format.key()
            &&& job.title == file_name_spec(source) + " → "@ + format.label_spec()
            &&& job.state is Queued && job.error is None && job.created_at == now
            &&& job.items.len() == 0
            &&& t.live == s.live.insert(id, t.live[id])
            &&& t.live[id].fraction is None && t.live[id].speed is None && t.live[id].eta is None
            &&& t.live[id].log.len() == 0
            &&& t == (SessionView {
                convert_picker: None,
                jobs: t.jobs,
                live: t.live,
                selected: Some(id),
                open_item: None,
                ..s
            })
        }),
{
    assert(convert_begun(s, source, format, id, now).jobs.skip(1) =~= s.jobs);
}

/// A conversion whose process was started is running, and there is a process to kill. The
/// other jobs and all else stay.
pub proof fn lemma_started_conversion_is_running(s: SessionView, id: Seq<char>, n: int)
    requires
        is_first(s.jobs, id, n),
    ensures
        ({
            let t = convert_running(s, id);
            &&& differ_at(s.jobs, t.jobs, n)
            &&& t.jobs[n] == (JobView { state: JobState::Running, ..s.jobs[n] })
            &&& t.cancels == s.cancels.insert(id)
            &&& t == (SessionView { jobs: t.jobs, cancels: t.cancels, ..s })
        }),
{
    lemma_with_job_at(s.jobs, id, running_job(job_at(s.jobs, id)), n);
}

/// What is said of a conversion that could not be started tells whether ffmpeg was not
/// there or did not run, and why.
pub proof fn lemma_failed_start_is_explained(e: String)
    ensures
        convert_failure_text(ConvertFailure::Unavailable(e)) == "ffmpeg not available: "@ + e@,
        convert_failure_text(ConvertFailure::NotStarted(e)) == "could not start ffmpeg: "@ + e@,
{
}

proof fn lemma_file_item_pos(items: Seq<ItemView>, path: Seq<char>, k: int)
    requires
        0 <= k <= items.len(),
        k < items.len() ==> item_has_file(items[k], path),
        forall|i: int| 0 <= i < k ==> !item_has_file(#[trigger] items[i], path),
    ensures
        file_item_pos(items, path) == k,
    decreases items.len(),
{
    if k > 0 {
        let rest = items.skip(1);
        assert forall|i: int| 0 <= i < k - 1 implies !item_has_file(#[trigger] rest[i], path) by {
            assert(rest[i] == items[i + 1]);
        }
        lemma_file_item_pos(rest, path, k - 1);
    }
}

/// Whether some item of the job has a file at the path.
pub open spec fn job_has_file(job: JobView, path: Seq<char>) -> bool {
    exists|k: int, f: int|
        0 <= k < job.items.len() && 0 <= f < job.items[k].files.len() && (
        #[trigger] job.items[k].files[f]).path == path
}

/// The length recorded of a file is that of the first item that has it, in the first job
/// that has it; where none has it there is none.
pub proof fn lemma_length_is_that_of_the_first_item(
    jobs: Seq<JobView>,
    path: Seq<char>,
    n: int,
    k: int,
    f: int,
)
    requires
        forall|i: int| 0 <= i < n && i < jobs.len() ==> !job_has_file(#[trigger] jobs[i], path),
        0 <= n <= jobs.len(),
        n < jobs.len() ==> {
            &&& 0 <= k < jobs[n].items.len()
            &&& 0 <= f < jobs[n].items[k].files.len()
            &&& jobs[n].items[k].files[f].path == path
            &&& forall|i: int, g: int|
                0 <= i < k && 0 <= g < jobs[n].items[i].files.len() ==> (
                #[trigger] jobs[n].items[i].files[g]).path != path
        },
    ensures
        n < jobs.len() ==> recorded_length(jobs, path) == jobs[n].items[k].duration,
        n == jobs.len() ==> recorded_length(jobs, path) is None,
    decreases jobs.len(),
{
    if jobs.len() > 0 {
        let items = jobs[0].items;
        if n == 0 {
            assert forall|i: int| 0 <= i < k implies !item_has_file(#[trigger] items[i], path) by {
                if item_has_file(items[i], path) {
                    let g = choose|g: int|
                        0 <= g < items[i].files.len() && (#[trigger] items[i].files[g]).path
                            == path;
                    assert(jobs[n].items[i].files[g].path != path);
                }
            }
            lemma_file_item_pos(items, path, k);
        } else {
            assert(!job_has_file(jobs[0], path));
            assert forall|i: int| 0 <= i < items.len() implies !item_has_file(
                #[trigger] items[i],
                path,
            ) by {
                if item_has_file(items[i], path) {
                    let g = choose|g: int|
                        0 <= g < items[i].files.len() && (#[trigger] items[i].files[g]).path
                            == path;
                    assert(jobs[0].items[i].files[g].path == path);
                }
            }
            lemma_file_item_pos(items, path, items.len() as int);
            let rest = jobs.skip(1);
            assert forall|i: int| 0 <= i < n - 1 && i < rest.len() implies !job_has_file(
                #[trigger] rest[i],
                path,
            ) by {
                assert(rest[i] == jobs[i + 1]);
            }
            if n < jobs.len() {
                assert(rest[n - 1] == jobs[n]);
            }
            lemma_length_is_that_of_the_first_item(rest, path, n - 1, k, f);
        }
    }
}

/// A report of progress is shown: the speed, and the fraction where there is a time and a
/// length above zero to hold it against, else none. The log, the time left and every job
/// stay.
pub proof fn lemma_progress_of_a_conversion_is_shown(
    s: SessionView,
    id: Seq<char>,
    length: Option<Double>,
    ratio: Single,
    p: ConvertProgress,
)
    ensures
        ({
            let t = convert_applied(s, id, length, ratio, ConvertEvent::Progress(p));
            let known = p.out_time_secs is Some && length is Some && length->0.positive();
            &&& t == (SessionView { live: t.live, ..s })
            &&& t.live == s.live.insert(id, t.live[id])
            &&& t.live[id].speed == p.speed
            &&& known ==> t.live[id].fraction == Some(ratio)
            &&& !known ==> t.live[id].fraction is None
            &&& s.live.dom().contains(id) ==> t.live[id].log == s.live[id].log && t.live[id].eta
                == s.live[id].eta
            &&& !ends_convert(ConvertEvent::Progress(p))
            &&& !fails_convert(ConvertEvent::Progress(p))
        }),
{
}

/// The line that a failed conversion ends with fails the job, with its exit code; the line
/// of a successful end, and any other, change nothing.
pub proof fn lemma_lines_of_a_conversion(
    s: SessionView,
    id: Seq<char>,
    length: Option<Double>,
    ratio: Single,
    n: int,
    line: String,
    code: Seq<char>,
)
    requires
        is_first(s.jobs, id, n),
        !(s.jobs[n].state is Cancelled),
    ensures
        ({
            let event = ConvertEvent::Log(line);
            let t = convert_applied(s, id, length, ratio, event);
            let failing = exists|rest: Seq<char>| line@ == "RDLP_EXIT fail "@ + rest;
            &&& line@ == "RDLP_EXIT fail "@ + code ==> {
                &&& differ_at(s.jobs, t.jobs, n)
                &&& t.jobs[n] == (JobView {
                    state: JobState::Failed,
                    error: Some("ffmpeg exited "@ + code),
                    ..s.jobs[n]
                })
                &&& !t.live.dom().contains(id) && !t.cancels.contains(id)
                &&& ends_convert(event) && fails_convert(event)
            }
            &&& line@ == "RDLP_EXIT ok"@ ==> t == s && ends_convert(event) && !fails_convert(event)
            &&& line@ != "RDLP_EXIT ok"@ && !failing ==> t == s && !ends_convert(event)
                && !fails_convert(event)
        }),
{
    let fail = "RDLP_EXIT fail "@;
    reveal_strlit("RDLP_EXIT fail ");
    reveal_strlit("RDLP_EXIT ok");
    assert("RDLP_EXIT ok"@[10] == 'o');
    assert(fail[10] == 'f');
    if has_prefix(line@, fail) {
        assert(line@ =~= fail + line@.skip(fail.len() as int));
    }
    if line@ == fail + code {
        assert(line@[10] == 'f');
        assert(line@.take(fail.len() as int) =~= fail);
        assert(line@.skip(fail.len() as int) =~= code);
        lemma_failure_marks_the_job(s, id, "ffmpeg exited "@ + code, n);
    }
}

/// A conversion that was running when its reports ended is done, with one item for the one
/// file it made: under the job's title, of the kind its extension tells, with the file's
/// size. One that was not running keeps its state and its items. The other jobs stay, and
/// nothing is live of this one any more.
pub proof fn lemma_finished_conversion_holds_its_file(
    s: SessionView,
    id: Seq<char>,
    c: Converted,
    n: int,
)
    requires
        is_first(s.jobs, id, n),
    ensures
        ({
            let t = convert_finished(s, id, c);
            let (was, is) = (s.jobs[n], t.jobs[n]);
            &&& differ_at(s.jobs, t.jobs, n)
            &&& !(was.state is Running) ==> is == was
            &&& was.state is Running ==> {
                &&& is == (JobView { state: JobState::Done, items: is.items, ..was })
                &&& is.items.len() == 1
                &&& is.items[0].id == c.item_id@ && is.items[0].index == 0
                &&& is.items[0].title == was.title
                &&& is.items[0].duration is None && is.items[0].thumb_path is None
                &&& is.items[0].webpage_url.len() == 0
                &&& is.items[0].files.len() == 1
                &&& is.items[0].files[0] == (FileView {
                    id: c.file_id@,
                    path: c.path@,
                    kind: kind_of_extension(after_last_dot(lowercase(c.path@))),
                    format_id: None,
                    bytes: c.bytes,
                })
            }
            &&& !t.live.dom().contains(id) && !t.cancels.contains(id)
            &&& forall|k: Seq<char>|
                k != id ==> (t.live.dom().contains(k) <==> #[trigger] s.live.dom().contains(k))
                    && t.live[k] == s.live[k]
            &&& t == (SessionView { jobs: t.jobs, live: t.live, cancels: t.cancels, ..s })
        }),
{
    lemma_with_job_at(s.jobs, id, converted_job(job_at(s.jobs, id), c), n);
}

} // verus!
