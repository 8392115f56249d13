//! Jobs, their items and files, and the presets they run with.

use vstd::prelude::*;

use crate::text::{copy_opt, owned, padded_u64, same};
#[allow(unused_imports)]
use crate::text::{before, decimal, deep, digit, lemma_deep_push, lemma_parse_decimal, opt, padded};
#[allow(unused_imports)]
use crate::ytdlp::{default_options_view, Double, FormatMode, FormatView, OptionsView, YtdlpOptions};

verus! {

// ---------------------------------------------------------------------------
// Ids and the clock
// ---------------------------------------------------------------------------

/// The id made at `ms` milliseconds with counter `n`.
pub open spec fn id_text(prefix: Seq<char>, ms: nat, n: nat) -> Seq<char> {
    prefix + padded(ms, 13) + padded(n, 4)
}

/// A sortable id: the prefix, the milliseconds since the epoch in thirteen
/// digits, and a running counter in four.
pub fn new_id(prefix: &str, ms: u64, n: u64) -> (r: String)
    ensures
        r@ == id_text(prefix@, ms as nat, n as nat),
{
    let mut out: String = owned(prefix);
    let head: String = padded_u64(ms, 13);
    let tail: String = padded_u64(n, 4);
    out.append(head.as_str());
    out.append(tail.as_str());
    out
}

/// Hands out ids, counting up.
pub struct IdSource {
    pub next: u64,
}

impl IdSource {
    /// A source that has handed out nothing.
    pub fn new() -> (r: IdSource)
        ensures
            r.next == 0,
    {
        IdSource { next: 0 }
    }

    /// The next id, at `ms` milliseconds since the epoch. The counter wraps at
    /// the end of its range.
    pub fn next_id(&mut self, prefix: &str, ms: u64) -> (r: String)
        ensures
            r@ == id_text(prefix@, ms as nat, old(self).next as nat),
            final(self).next == (if old(self).next == u64::MAX {
                0
            } else {
                old(self).next + 1
            }),
    {
        let n: u64 = self.next;
        self.next = n.wrapping_add(1);
        new_id(prefix, ms, n)
    }
}

/// Seconds since the epoch, or zero where the clock stands before it.
pub fn now_secs(since_epoch: Option<u64>) -> (r: i64)
    ensures
        r == (match since_epoch {
            Some(secs) => secs as i64,
            None => 0,
        }),
{
    match since_epoch {
        Some(secs) => secs as i64,
        None => 0,
    }
}

spec fn pow10(w: nat) -> nat
    decreases w,
{
    if w == 0 {
        1
    } else {
        10 * pow10((w - 1) as nat)
    }
}

proof fn lemma_decimal_len(n: nat, w: nat)
    requires
        w >= 1,
        n < pow10(w),
    ensures
        1 <= decimal(n).len() <= w,
    decreases w,
{
    if n >= 10 {
        if w == 1 {
            assert(pow10(1) == 10) by {
                reveal_with_fuel(pow10, 2);
            }
        }
        lemma_decimal_len(n / 10, (w - 1) as nat);
    }
}

proof fn lemma_padded_step(n: nat, w: nat)
    requires
        w >= 2,
        n < pow10(w),
    ensures
        padded(n, w) == padded(n / 10, (w - 1) as nat).push(digit(n % 10)),
{
    lemma_decimal_len(n, w);
    if n < 10 {
        assert(n / 10 == 0);
        assert(decimal(0) =~= seq!['0']);
    }
    assert(padded(n, w) =~= padded(n / 10, (w - 1) as nat).push(digit(n % 10)));
}

proof fn lemma_padded_len(n: nat, w: nat)
    requires
        w >= 1,
        n < pow10(w),
    ensures
        padded(n, w).len() == w,
{
    lemma_decimal_len(n, w);
}

proof fn lemma_before_push(a: Seq<char>, b: Seq<char>, c: char, d: char)
    requires
        a.len() == b.len(),
    ensures
        before(a.push(c), b.push(d)) <==> before(a, b) || (a == b && c < d),
    decreases a.len(),
{
    let x = a.push(c);
    let y = b.push(d);
    if a.len() == 0 {
        assert(a =~= b);
        assert(x.skip(1) =~= Seq::<char>::empty());
        assert(y.skip(1) =~= Seq::<char>::empty());
        assert(!before(x.skip(1), y.skip(1)));
        assert(x[0] == c && y[0] == d);
    } else {
        assert(x[0] == a[0] && y[0] == b[0]);
        assert(x.skip(1) =~= a.skip(1).push(c));
        assert(y.skip(1) =~= b.skip(1).push(d));
        lemma_before_push(a.skip(1), b.skip(1), c, d);
        if a[0] == b[0] {
            if a.skip(1) == b.skip(1) {
                assert forall|i: int| 0 <= i < a.len() implies a[i] == b[i] by {
                    if i > 0 {
                        assert(a[i] == a.skip(1)[i - 1]);
                        assert(b[i] == b.skip(1)[i - 1]);
                    }
                }
                assert(a =~= b);
            }
        }
    }
}

/// Numbers of one width are in the order of their digits.
proof fn lemma_padded_order(m: nat, n: nat, w: nat)
    requires
        w >= 1,
        m < pow10(w),
        n < pow10(w),
    ensures
        before(padded(m, w), padded(n, w)) <==> m < n,
        padded(m, w) == padded(n, w) ==> m == n,
    decreases w,
{
    if w == 1 {
        assert(pow10(1) == 10) by {
            reveal_with_fuel(pow10, 2);
        }
        assert(padded(m, 1) == seq![digit(m)]);
        assert(padded(n, 1) == seq![digit(n)]);
        assert(padded(m, 1)[0] == digit(m));
        assert(padded(n, 1)[0] == digit(n));
        assert(padded(m, 1).skip(1) =~= Seq::<char>::empty());
        assert(padded(n, 1).skip(1) =~= Seq::<char>::empty());
        assert(!before(padded(m, 1).skip(1), padded(n, 1).skip(1)));
    } else {
        lemma_padded_step(m, w);
        lemma_padded_step(n, w);
        lemma_padded_order(m / 10, n / 10, (w - 1) as nat);
        lemma_padded_len(m / 10, (w - 1) as nat);
        lemma_padded_len(n / 10, (w - 1) as nat);
        let a = padded(m / 10, (w - 1) as nat);
        let b = padded(n / 10, (w - 1) as nat);
        let c = digit(m % 10);
        let d = digit(n % 10);
        lemma_before_push(a, b, c, d);
        assert(m == (m / 10) * 10 + m % 10);
        assert(n == (n / 10) * 10 + n % 10);
        assert(c < d <==> m % 10 < n % 10);
        if padded(m, w) == padded(n, w) {
            assert(a.push(c).drop_last() =~= a);
            assert(b.push(d).drop_last() =~= b);
            assert(a.push(c).last() == c);
            assert(b.push(d).last() == d);
        }
    }
}

proof fn lemma_before_prefix(p: Seq<char>, a: Seq<char>, b: Seq<char>)
    ensures
        before(p + a, p + b) == before(a, b),
    decreases p.len(),
{
    if p.len() == 0 {
        assert(p + a =~= a);
        assert(p + b =~= b);
    } else {
        assert((p + a).skip(1) =~= p.skip(1) + a);
        assert((p + b).skip(1) =~= p.skip(1) + b);
        lemma_before_prefix(p.skip(1), a, b);
        if (p + b).len() > 0 && (p + a).len() > 0 {
            assert((p + a)[0] == p[0]);
            assert((p + b)[0] == p[0]);
        }
    }
}

proof fn lemma_before_first(a: Seq<char>, b: Seq<char>, x: Seq<char>, y: Seq<char>)
    requires
        a.len() == b.len(),
        before(a, b),
    ensures
        before(a + x, b + y),
    decreases a.len(),
{
    assert((a + x)[0] == a[0]);
    assert((b + y)[0] == b[0]);
    if a[0] == b[0] {
        assert((a + x).skip(1) =~= a.skip(1) + x);
        assert((b + y).skip(1) =~= b.skip(1) + y);
        lemma_before_first(a.skip(1), b.skip(1), x, y);
    }
}

proof fn lemma_pow10_values()
    ensures
        pow10(4) == 10_000,
        pow10(13) == 10_000_000_000_000,
{
    reveal_with_fuel(pow10, 14);
}

/// Two ids with one prefix are equal only where they were made at one
/// millisecond with one counter value; the clock has thirteen digits until the
/// year 2286.
pub proof fn lemma_ids_distinct(prefix: Seq<char>, ms1: nat, n1: nat, ms2: nat, n2: nat)
    requires
        ms1 < 10_000_000_000_000,
        ms2 < 10_000_000_000_000,
        id_text(prefix, ms1, n1) == id_text(prefix, ms2, n2),
    ensures
        ms1 == ms2,
        n1 == n2,
{
    lemma_pow10_values();
    lemma_padded_len(ms1, 13);
    lemma_padded_len(ms2, 13);
    let a = id_text(prefix, ms1, n1);
    let b = id_text(prefix, ms2, n2);
    let k = prefix.len() as int;
    assert(padded(ms1, 13) =~= a.subrange(k, k + 13));
    assert(padded(ms2, 13) =~= b.subrange(k, k + 13));
    lemma_padded_order(ms1, ms2, 13);
    assert(padded(n1, 4) =~= a.skip(k + 13));
    assert(padded(n2, 4) =~= b.skip(k + 13));
    lemma_counter_injective(n1, n2);
}

proof fn lemma_zeros_value(z: nat, s: Seq<char>)
    ensures
        crate::text::digits_value(Seq::new(z, |i: int| '0') + s) == crate::text::digits_value(s),
    decreases s.len(), z,
{
    let t = Seq::new(z, |i: int| '0') + s;
    if s.len() > 0 {
        assert(t.drop_last() =~= Seq::new(z, |i: int| '0') + s.drop_last());
        lemma_zeros_value(z, s.drop_last());
    } else if z > 0 {
        assert(t.drop_last() =~= Seq::new((z - 1) as nat, |i: int| '0') + s);
        lemma_zeros_value((z - 1) as nat, s);
    } else {
        assert(t =~= s);
    }
}

proof fn lemma_counter_injective(n1: nat, n2: nat)
    requires
        padded(n1, 4) == padded(n2, 4),
    ensures
        n1 == n2,
{
    lemma_parse_decimal(n1);
    lemma_parse_decimal(n2);
    if decimal(n1).len() < 4 {
        lemma_zeros_value((4 - decimal(n1).len()) as nat, decimal(n1));
    }
    if decimal(n2).len() < 4 {
        lemma_zeros_value((4 - decimal(n2).len()) as nat, decimal(n2));
    }
}

/// Ids with one prefix are in the order in which they were made: by the
/// millisecond, and within one millisecond by the counter while it has four
/// digits.
pub proof fn lemma_ids_sort_by_time(prefix: Seq<char>, ms1: nat, n1: nat, ms2: nat, n2: nat)
    requires
        ms1 < 10_000_000_000_000,
        ms2 < 10_000_000_000_000,
        ms1 < ms2 || (ms1 == ms2 && n1 < n2 < 10_000),
    ensures
        before(id_text(prefix, ms1, n1), id_text(prefix, ms2, n2)),
{
    lemma_pow10_values();
    lemma_padded_len(ms1, 13);
    lemma_padded_len(ms2, 13);
    lemma_padded_order(ms1, ms2, 13);
    let a = padded(ms1, 13) + padded(n1, 4);
    let b = padded(ms2, 13) + padded(n2, 4);
    if ms1 < ms2 {
        lemma_before_first(padded(ms1, 13), padded(ms2, 13), padded(n1, 4), padded(n2, 4));
    } else {
        lemma_padded_order(n1, n2, 4);
        lemma_before_prefix(padded(ms1, 13), padded(n1, 4), padded(n2, 4));
    }
    lemma_before_prefix(prefix, a, b);
    assert(id_text(prefix, ms1, n1) =~= prefix + a);
    assert(id_text(prefix, ms2, n2) =~= prefix + b);
}

// ---------------------------------------------------------------------------
// States and kinds
// ---------------------------------------------------------------------------

#[derive(Debug, Clone, Copy, PartialEq, Eq, Structural)]
pub enum JobState {
    Queued,
    Probing,
    Running,
    Done,
    Failed,
    Cancelled,
}

impl JobState {
    /// The text that a state is stored as.
    pub open spec fn name(self) -> Seq<char> {
        match self {
            JobState::Queued => "queued"@,
            JobState::Probing => "probing"@,
            JobState::Running => "running"@,
            JobState::Done => "done"@,
            JobState::Failed => "failed"@,
            JobState::Cancelled => "cancelled"@,
        }
    }

    /// The state that a stored text stands for. An unknown one was written by a
    /// newer version, and is taken for failed: what is not understood is not
    /// resumed.
    pub open spec fn named(s: Seq<char>) -> JobState {
        if s == "queued"@ {
            JobState::Queued
        } else if s == "probing"@ {
            JobState::Probing
        } else if s == "running"@ {
            JobState::Running
        } else if s == "done"@ {
            JobState::Done
        } else if s == "cancelled"@ {
            JobState::Cancelled
        } else {
            JobState::Failed
        }
    }

    pub fn as_str(self) -> (r: &'static str)
        ensures
            r@ == self.name(),
    {
        match self {
            JobState::Queued => "queued",
            JobState::Probing => "probing",
            JobState::Running => "running",
            JobState::Done => "done",
            JobState::Failed => "failed",
            JobState::Cancelled => "cancelled",
        }
    }

    pub fn parse(s: &str) -> (r: JobState)
        ensures
            r == JobState::named(s@),
    {
        if same(s, "queued") {
            JobState::Queued
        } else if same(s, "probing") {
            JobState::Probing
        } else if same(s, "running") {
            JobState::Running
        } else if same(s, "done") {
            JobState::Done
        } else if same(s, "cancelled") {
            JobState::Cancelled
        } else {
            JobState::Failed
        }
    }
}

/// Reading back a stored state gives the state.
pub proof fn lemma_state_round_trip(state: JobState)
    ensures
        JobState::named(state.name()) == state,
{
    reveal_strlit("queued");
    reveal_strlit("probing");
    reveal_strlit("running");
    reveal_strlit("done");
    reveal_strlit("failed");
    reveal_strlit("cancelled");
    assert("queued"@.len() == 6);
    assert("probing"@.len() == 7 && "probing"@[0] == 'p');
    assert("running"@.len() == 7 && "running"@[0] == 'r');
    assert("done"@.len() == 4);
    assert("failed"@.len() == 6 && "failed"@[0] == 'f' && "queued"@[0] == 'q');
    assert("cancelled"@.len() == 9);
}

#[derive(Debug, Clone, Copy, PartialEq, Eq, Structural)]
pub enum FileKind {
    Video,
    Audio,
    Subtitle,
    Thumbnail,
    Info,
}

impl FileKind {
    /// The text that a kind is stored as.
    pub open spec fn name(self) -> Seq<char> {
        match self {
            FileKind::Video => "video"@,
            FileKind::Audio => "audio"@,
            FileKind::Subtitle => "subtitle"@,
            FileKind::Thumbnail => "thumbnail"@,
            FileKind::Info => "info"@,
        }
    }

    /// The kind that a stored text stands for; an unknown one is video.
    pub open spec fn named(s: Seq<char>) -> FileKind {
        if s == "audio"@ {
            FileKind::Audio
        } else if s == "subtitle"@ {
            FileKind::Subtitle
        } else if s == "thumbnail"@ {
            FileKind::Thumbnail
        } else if s == "info"@ {
            FileKind::Info
        } else {
            FileKind::Video
        }
    }

    pub fn as_str(self) -> (r: &'static str)
        ensures
            r@ == self.name(),
    {
        match self {
            FileKind::Video => "video",
            FileKind::Audio => "audio",
            FileKind::Subtitle => "subtitle",
            FileKind::Thumbnail => "thumbnail",
            FileKind::Info => "info",
        }
    }

    pub fn parse(s: &str) -> (r: FileKind)
        ensures
            r == FileKind::named(s@),
    {
        if same(s, "audio") {
            FileKind::Audio
        } else if same(s, "subtitle") {
            FileKind::Subtitle
        } else if same(s, "thumbnail") {
            FileKind::Thumbnail
        } else if same(s, "info") {
            FileKind::Info
        } else {
            FileKind::Video
        }
    }
}

/// Reading back a stored file kind gives the kind.
pub proof fn lemma_file_kind_round_trip(kind: FileKind)
    ensures
        FileKind::named(kind.name()) == kind,
{
    reveal_strlit("video");
    reveal_strlit("audio");
    reveal_strlit("subtitle");
    reveal_strlit("thumbnail");
    reveal_strlit("info");
    assert("video"@.len() == 5 && "video"@[0] == 'v');
    assert("audio"@.len() == 5 && "audio"@[0] == 'a');
    assert("subtitle"@.len() == 8);
    assert("thumbnail"@.len() == 9);
    assert("info"@.len() == 4);
}

/// What kind of work a job stands for. A download probes and fetches a URL; a
/// conversion re-encodes a local file. Both share one state machine.
#[derive(Debug, Clone, Copy, PartialEq, Eq, Structural)]
pub enum JobKind {
    Download,
    Convert,
}

impl JobKind {
    /// The text that a kind is stored as.
    pub open spec fn name(self) -> Seq<char> {
        match self {
            JobKind::Download => "download"@,
            JobKind::Convert => "convert"@,
        }
    }

    /// The kind that a stored text stands for; an unknown one is a download.
    pub open spec fn named(s: Seq<char>) -> JobKind {
        if s == "convert"@ {
            JobKind::Convert
        } else {
            JobKind::Download
        }
    }

    pub fn as_str(self) -> (r: &'static str)
        ensures
            r@ == self.name(),
    {
        match self {
            JobKind::Download => "download",
            JobKind::Convert => "convert",
        }
    }

    pub fn parse(s: &str) -> (r: JobKind)
        ensures
            r == JobKind::named(s@),
    {
        if same(s, "convert") {
            JobKind::Convert
        } else {
            JobKind::Download
        }
    }
}

/// Reading back a stored job kind gives the kind.
pub proof fn lemma_job_kind_round_trip(kind: JobKind)
    ensures
        JobKind::named(kind.name()) == kind,
{
    reveal_strlit("download");
    reveal_strlit("convert");
    assert("download"@.len() == 8);
    assert("convert"@.len() == 7);
}

// ---------------------------------------------------------------------------
// Files, items, jobs
// ---------------------------------------------------------------------------

#[derive(Debug, PartialEq)]
pub struct File {
    pub id: String,
    pub path: String,
    pub kind: FileKind,
    pub format_id: Option<String>,
    pub bytes: Option<i64>,
}

/// The value of a `File`.
#[verifier::ext_equal]
pub struct FileView {
    pub id: Seq<char>,
    pub path: Seq<char>,
    pub kind: FileKind,
    pub format_id: Option<Seq<char>>,
    pub bytes: Option<i64>,
}

impl View for File {
    type V = FileView;

    open spec fn view(&self) -> FileView {
        FileView {
            id: self.id@,
            path: self.path@,
            kind: self.kind,
            format_id: opt(self.format_id),
            bytes: self.bytes,
        }
    }
}

impl Clone for File {
    fn clone(&self) -> (r: File)
        ensures
            r@ == self@,
    {
        File {
            id: self.id.clone(),
            path: self.path.clone(),
            kind: self.kind,
            format_id: copy_opt(&self.format_id),
            bytes: self.bytes,
        }
    }
}

#[derive(Debug, PartialEq)]
pub struct Item {
    pub id: String,
    pub index: i64,
    pub title: String,
    pub duration: Option<Double>,
    pub thumb_path: Option<String>,
    pub webpage_url: String,
    pub files: Vec<File>,
}

/// The value of an `Item`.
#[verifier::ext_equal]
pub struct ItemView {
    pub id: Seq<char>,
    pub index: i64,
    pub title: Seq<char>,
    pub duration: Option<Double>,
    pub thumb_path: Option<Seq<char>>,
    pub webpage_url: Seq<char>,
    pub files: Seq<FileView>,
}

impl View for Item {
    type V = ItemView;

    open spec fn view(&self) -> ItemView {
        ItemView {
            id: self.id@,
            index: self.index,
            title: self.title@,
            duration: self.duration,
            thumb_path: opt(self.thumb_path),
            webpage_url: self.webpage_url@,
            files: deep(self.files@),
        }
    }
}

/// A copy of a list of files.
pub fn copy_files(v: &Vec<File>) -> (r: Vec<File>)
    ensures
        deep(r@) == deep(v@),
{
    broadcast use lemma_deep_push;

    let mut out: Vec<File> = Vec::new();
    let mut i: usize = 0;
    while i < v.len()
        invariant
            i <= v@.len(),
            deep(out@) == deep(v@).take(i as int),
        decreases v@.len() - i,
    {
        out.push(v[i].clone());
        i = i + 1;
        assert(deep(v@).take(i as int) =~= deep(v@).take(i - 1).push(v@[i - 1]@));
    }
    assert(deep(v@).take(i as int) =~= deep(v@));
    out
}

impl Clone for Item {
    fn clone(&self) -> (r: Item)
        ensures
            r@ == self@,
    {
        Item {
            id: self.id.clone(),
            index: self.index,
            title: self.title.clone(),
            duration: self.duration,
            thumb_path: copy_opt(&self.thumb_path),
            webpage_url: self.webpage_url.clone(),
            files: copy_files(&self.files),
        }
    }
}

/// A copy of a list of items.
pub fn copy_items(v: &Vec<Item>) -> (r: Vec<Item>)
    ensures
        deep(r@) == deep(v@),
{
    broadcast use lemma_deep_push;

    let mut out: Vec<Item> = Vec::new();
    let mut i: usize = 0;
    while i < v.len()
        invariant
            i <= v@.len(),
            deep(out@) == deep(v@).take(i as int),
        decreases v@.len() - i,
    {
        out.push(v[i].clone());
        i = i + 1;
        assert(deep(v@).take(i as int) =~= deep(v@).take(i - 1).push(v@[i - 1]@));
    }
    assert(deep(v@).take(i as int) =~= deep(v@));
    out
}

#[derive(Debug, PartialEq)]
pub struct Job {
    pub id: String,
    pub kind: JobKind,
    /// Download: the source URL. Convert: the source file path.
    pub url: String,
    pub title: String,
    /// Download: the preset name. Convert: the target format's key.
    pub preset: String,
    pub state: JobState,
    pub error: Option<String>,
    pub created_at: i64,
    pub items: Vec<Item>,
}

/// The value of a `Job`.
#[verifier::ext_equal]
pub struct JobView {
    pub id: Seq<char>,
    pub kind: JobKind,
    pub url: Seq<char>,
    pub title: Seq<char>,
    pub preset: Seq<char>,
    pub state: JobState,
    pub error: Option<Seq<char>>,
    pub created_at: i64,
    pub items: Seq<ItemView>,
}

impl View for Job {
    type V = JobView;

    open spec fn view(&self) -> JobView {
        JobView {
            id: self.id@,
            kind: self.kind,
            url: self.url@,
            title: self.title@,
            preset: self.preset@,
            state: self.state,
            error: opt(self.error),
            created_at: self.created_at,
            items: deep(self.items@),
        }
    }
}

impl Clone for Job {
    fn clone(&self) -> (r: Job)
        ensures
            r@ == self@,
    {
        Job {
            id: self.id.clone(),
            kind: self.kind,
            url: self.url.clone(),
            title: self.title.clone(),
            preset: self.preset.clone(),
            state: self.state,
            error: copy_opt(&self.error),
            created_at: self.created_at,
            items: copy_items(&self.items),
        }
    }
}

/// A job of `kind` that nothing has happened to.
pub open spec fn fresh_job(
    id: Seq<char>,
    kind: JobKind,
    url: Seq<char>,
    preset: Seq<char>,
    created_at: i64,
) -> JobView {
    JobView {
        id,
        kind,
        url,
        title: Seq::<char>::empty(),
        preset,
        state: JobState::Queued,
        error: None,
        created_at,
        items: Seq::<ItemView>::empty(),
    }
}

impl Job {
    /// A download of `url` with the named preset, queued.
    pub fn new(id: String, url: &str, preset: &str, created_at: i64) -> (r: Job)
        ensures
            r@ == fresh_job(id@, JobKind::Download, url@, preset@, created_at),
    {
        let r: Job = Job {
            id,
            kind: JobKind::Download,
            url: owned(url),
            title: String::new(),
            preset: owned(preset),
            state: JobState::Queued,
            error: None,
            created_at,
            items: Vec::new(),
        };
        assert(r@ =~= fresh_job(id@, JobKind::Download, url@, preset@, created_at));
        r
    }

    /// A conversion of the file at `source_path` to the named format, queued.
    pub fn new_convert(id: String, source_path: &str, format: &str, created_at: i64) -> (r: Job)
        ensures
            r@ == fresh_job(id@, JobKind::Convert, source_path@, format@, created_at),
    {
        let mut r: Job = Job::new(id, source_path, format, created_at);
        r.kind = JobKind::Convert;
        r
    }
}

// ---------------------------------------------------------------------------
// Presets
// ---------------------------------------------------------------------------

/// A named bundle of yt-dlp options.
///
/// Presets *are* the yt-dlp configuration: what a download did is always
/// explainable from the preset it names plus any override for that run.
#[derive(Debug, PartialEq, Eq)]
pub struct Preset {
    pub name: String,
    pub is_default: bool,
    pub options: YtdlpOptions,
}

/// The value of a `Preset`.
#[verifier::ext_equal]
pub struct PresetView {
    pub name: Seq<char>,
    pub is_default: bool,
    pub options: OptionsView,
}

impl View for Preset {
    type V = PresetView;

    open spec fn view(&self) -> PresetView {
        PresetView { name: self.name@, is_default: self.is_default, options: self.options@ }
    }
}

impl Clone for Preset {
    fn clone(&self) -> (r: Preset)
        ensures
            r@ == self@,
    {
        Preset {
            name: self.name.clone(),
            is_default: self.is_default,
            options: self.options.clone(),
        }
    }
}

/// What every seeded preset starts from.
pub open spec fn seed_base(download_dir: Seq<char>) -> OptionsView {
    OptionsView {
        download_dir,
        embed_thumbnail: true,
        embed_metadata: true,
        ..default_options_view()
    }
}

/// The presets of a fresh install.
pub open spec fn seed_presets(download_dir: Seq<char>) -> Seq<PresetView> {
    let base = seed_base(download_dir);
    seq![
        PresetView {
            name: "Best (1080p mp4)"@,
            is_default: true,
            options: OptionsView { max_height: Some(1080), container: Some("mp4"@), ..base },
        },
        PresetView { name: "Best available"@, is_default: false, options: base },
        PresetView {
            name: "MP3 audio"@,
            is_default: false,
            options: OptionsView { format: FormatView::AudioOnly { codec: "mp3"@ }, ..base },
        },
        PresetView {
            name: "M4A audio"@,
            is_default: false,
            options: OptionsView { format: FormatView::AudioOnly { codec: "m4a"@ }, ..base },
        },
    ]
}

impl Preset {
    fn seed(name: &str, is_default: bool, options: YtdlpOptions) -> (r: Preset)
        ensures
            r@ == (PresetView { name: name@, is_default, options: options@ }),
    {
        Preset { name: owned(name), is_default, options }
    }

    /// The presets of a fresh install, which is usable without opening Settings.
    pub fn seeds(download_dir: &str) -> (r: Vec<Preset>)
        ensures
            deep(r@) == seed_presets(download_dir@),
    {
        broadcast use lemma_deep_push;

        let mut base: YtdlpOptions = YtdlpOptions::default();
        base.download_dir = owned(download_dir);
        base.embed_thumbnail = true;
        base.embed_metadata = true;
        assert(base@ =~= seed_base(download_dir@));

        let mut best: YtdlpOptions = base.clone();
        best.max_height = Some(1080);
        best.container = Some(owned("mp4"));
        let mut mp3: YtdlpOptions = base.clone();
        mp3.format = FormatMode::AudioOnly { codec: owned("mp3") };
        let mut m4a: YtdlpOptions = base.clone();
        m4a.format = FormatMode::AudioOnly { codec: owned("m4a") };

        let mut out: Vec<Preset> = Vec::new();
        out.push(Preset::seed("Best (1080p mp4)", true, best));
        out.push(Preset::seed("Best available", false, base));
        out.push(Preset::seed("MP3 audio", false, mp3));
        out.push(Preset::seed("M4A audio", false, m4a));
        assert(deep(out@) =~= seed_presets(download_dir@));
        out
    }
}

/// How many presets are the default.
pub open spec fn default_count(p: Seq<PresetView>) -> nat
    decreases p.len(),
{
    if p.len() == 0 {
        0
    } else {
        default_count(p.drop_last()) + (if p.last().is_default {
            1nat
        } else {
            0nat
        })
    }
}

/// A fresh install has exactly one default preset.
pub proof fn lemma_seeds_have_one_default(download_dir: Seq<char>)
    ensures
        default_count(seed_presets(download_dir)) == 1,
{
    reveal_with_fuel(default_count, 5);
}

// ---------------------------------------------------------------------------
// What is stored, and what a fresh install holds
// ---------------------------------------------------------------------------

/// An id is its prefix, the milliseconds in thirteen digits and the counter in four.
pub proof fn lemma_parts_of_an_id(prefix: Seq<char>, ms: nat, n: nat)
    requires
        ms < 10_000_000_000_000,
        n < 10_000,
    ensures
        ({
            let id = id_text(prefix, ms, n);
            &&& id.len() == prefix.len() + 17
            &&& id.take(prefix.len() as int) == prefix
            &&& crate::text::digits_value(id.skip(prefix.len() as int).take(13)) == ms
            &&& crate::text::digits_value(id.skip((prefix.len() + 13) as int)) == n
        }),
{
    let id = id_text(prefix, ms, n);
    lemma_pow10_values();
    lemma_padded_len(ms, 13);
    lemma_padded_len(n, 4);
    assert(id.take(prefix.len() as int) =~= prefix);
    assert(id.skip(prefix.len() as int).take(13) =~= padded(ms, 13));
    assert(id.skip((prefix.len() + 13) as int) =~= padded(n, 4));
    lemma_padded_value(ms, 13);
    lemma_padded_value(n, 4);
}

proof fn lemma_padded_value(n: nat, w: nat)
    ensures
        crate::text::digits_value(padded(n, w)) == n,
{
    lemma_parse_decimal(n);
    let d = decimal(n);
    if d.len() < w {
        lemma_zeros_value((w - d.len()) as nat, d);
    }
}

/// Each state is stored under its own word, and an unknown word is read as failed.
pub proof fn lemma_words_of_the_states(text: Seq<char>)
    ensures
        JobState::Queued.name() == "queued"@,
        JobState::Probing.name() == "probing"@,
        JobState::Running.name() == "running"@,
        JobState::Done.name() == "done"@,
        JobState::Failed.name() == "failed"@,
        JobState::Cancelled.name() == "cancelled"@,
        text != "queued"@ && text != "probing"@ && text != "running"@ && text != "done"@ && text
            != "cancelled"@ ==> JobState::named(text) is Failed,
{
}

/// Each kind of file is stored under its own word, and an unknown word is read as video;
/// each kind of job too, and an unknown word is read as a download.
pub proof fn lemma_words_of_the_kinds(text: Seq<char>)
    ensures
        FileKind::Video.name() == "video"@,
        FileKind::Audio.name() == "audio"@,
        FileKind::Subtitle.name() == "subtitle"@,
        FileKind::Thumbnail.name() == "thumbnail"@,
        FileKind::Info.name() == "info"@,
        text != "audio"@ && text != "subtitle"@ && text != "thumbnail"@ && text != "info"@
            ==> FileKind::named(text) is Video,
        JobKind::Download.name() == "download"@,
        JobKind::Convert.name() == "convert"@,
        text != "convert"@ ==> JobKind::named(text) is Download,
{
}

/// A job that nothing has happened to waits, without a title, an error or an item.
pub proof fn lemma_fresh_job_waits(
    id: Seq<char>,
    kind: JobKind,
    url: Seq<char>,
    preset: Seq<char>,
    created_at: i64,
)
    ensures
        ({
            let job = fresh_job(id, kind, url, preset, created_at);
            &&& job.id == id && job.kind == kind && job.url == url && job.preset == preset
            &&& job.created_at == created_at
            &&& job.state is Queued && job.error is None
            &&& job.title.len() == 0 && job.items.len() == 0
        }),
{
}

/// A fresh install offers video of at most 1080 lines as mp4, which is the default, the
/// best there is, and sound as mp3 or m4a. Each goes to the given directory with its
/// thumbnail and metadata embedded, and is otherwise without options.
pub proof fn lemma_fresh_install_offers_four_presets(dir: Seq<char>, i: int)
    ensures
        ({
            let p = seed_presets(dir);
            &&& p.len() == 4
            &&& p[0].name == "Best (1080p mp4)"@ && p[0].is_default
            &&& p[0].options.format is BestVideoAudio
            &&& p[0].options.max_height == Some(1080u32) && p[0].options.container == Some("mp4"@)
            &&& p[1].name == "Best available"@ && !p[1].is_default
            &&& p[1].options.format is BestVideoAudio
            &&& p[2].name == "MP3 audio"@ && !p[2].is_default
            &&& p[2].options.format == (FormatView::AudioOnly { codec: "mp3"@ })
            &&& p[3].name == "M4A audio"@ && !p[3].is_default
            &&& p[3].options.format == (FormatView::AudioOnly { codec: "m4a"@ })
            &&& 1 <= i < 4 ==> p[i].options.max_height is None && p[i].options.container is None
            &&& 0 <= i < 4 ==> {
                let o = p[i].options;
                &&& o.download_dir == dir && o.embed_thumbnail && o.embed_metadata
                &&& o.output_template == "%(title)s [%(id)s].%(ext)s"@
                &&& o.subtitle_langs.len() == 0 && o.extra_args.len() == 0
                &&& !o.embed_subs && !o.download_archive
                &&& o.sponsorblock_remove is None && o.rate_limit is None
                &&& o.cookies_from_browser is None
                &&& o.concurrent_fragments == 1 && o.retries == 10
            }
        }),
{
}

} // verus!
