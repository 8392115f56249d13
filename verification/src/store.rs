//! The library database: the statements that each change consists of, and how
//! rows become jobs again.
//!
//! The application runs the statements and reads the rows; what the statements
//! do to the tables is modelled here, and the promises of the store are proved
//! of that model.

use vstd::prelude::*;

use crate::model::{File, FileKind, Item, Job, JobKind, JobState, Preset};
#[allow(unused_imports)]
use crate::model::{FileView, ItemView, JobView, PresetView};
use crate::text::{copy_opt, owned};
#[allow(unused_imports)]
use crate::text::{before, deep, lemma_deep_push, opt};
#[allow(unused_imports)]
use crate::ytdlp::default_options_view;
use crate::ytdlp::{Double, YtdlpOptions};

verus! {

// ---------------------------------------------------------------------------
// Rows
// ---------------------------------------------------------------------------

/// A row of the job table.
#[derive(Debug, PartialEq)]
pub struct JobRow {
    pub id: String,
    pub kind: String,
    pub url: String,
    pub title: String,
    pub preset: String,
    pub state: String,
    pub error: Option<String>,
    pub created_at: i64,
}

/// The value of a `JobRow`.
#[verifier::ext_equal]
pub struct JobRecord {
    pub id: Seq<char>,
    pub kind: Seq<char>,
    pub url: Seq<char>,
    pub title: Seq<char>,
    pub preset: Seq<char>,
    pub state: Seq<char>,
    pub error: Option<Seq<char>>,
    pub created_at: i64,
}

impl View for JobRow {
    type V = JobRecord;

    open spec fn view(&self) -> JobRecord {
        JobRecord {
            id: self.id@,
            kind: self.kind@,
            url: self.url@,
            title: self.title@,
            preset: self.preset@,
            state: self.state@,
            error: opt(self.error),
            created_at: self.created_at,
        }
    }
}

/// A row of the item table.
#[derive(Debug, PartialEq)]
pub struct ItemRow {
    pub id: String,
    pub job_id: String,
    pub idx: i64,
    pub title: String,
    pub duration: Option<Double>,
    pub thumb_path: Option<String>,
    pub webpage_url: String,
}

/// The value of an `ItemRow`.
#[verifier::ext_equal]
pub struct ItemRecord {
    pub id: Seq<char>,
    pub job_id: Seq<char>,
    pub idx: i64,
    pub title: Seq<char>,
    pub duration: Option<Double>,
    pub thumb_path: Option<Seq<char>>,
    pub webpage_url: Seq<char>,
}

impl View for ItemRow {
    type V = ItemRecord;

    open spec fn view(&self) -> ItemRecord {
        ItemRecord {
            id: self.id@,
            job_id: self.job_id@,
            idx: self.idx,
            title: self.title@,
            duration: self.duration,
            thumb_path: opt(self.thumb_path),
            webpage_url: self.webpage_url@,
        }
    }
}

/// A row of the file table.
#[derive(Debug, PartialEq)]
pub struct FileRow {
    pub id: String,
    pub item_id: String,
    pub path: String,
    pub kind: String,
    pub format_id: Option<String>,
    pub bytes: Option<i64>,
}

/// The value of a `FileRow`.
#[verifier::ext_equal]
pub struct FileRecord {
    pub id: Seq<char>,
    pub item_id: Seq<char>,
    pub path: Seq<char>,
    pub kind: Seq<char>,
    pub format_id: Option<Seq<char>>,
    pub bytes: Option<i64>,
}

impl View for FileRow {
    type V = FileRecord;

    open spec fn view(&self) -> FileRecord {
        FileRecord {
            id: self.id@,
            item_id: self.item_id@,
            path: self.path@,
            kind: self.kind@,
            format_id: opt(self.format_id),
            bytes: self.bytes,
        }
    }
}

/// A row of the preset table. The options are kept as text, so that a field
/// added later is a default and not a change of the tables.
#[derive(Debug, PartialEq)]
pub struct PresetRow {
    pub name: String,
    pub is_default: bool,
    pub options_json: String,
}

/// The value of a `PresetRow`.
#[verifier::ext_equal]
pub struct PresetRecord {
    pub name: Seq<char>,
    pub is_default: bool,
    pub options_json: Seq<char>,
}

impl View for PresetRow {
    type V = PresetRecord;

    open spec fn view(&self) -> PresetRecord {
        PresetRecord {
            name: self.name@,
            is_default: self.is_default,
            options_json: self.options_json@,
        }
    }
}

// ---------------------------------------------------------------------------
// Statements
// ---------------------------------------------------------------------------

/// The tables. No foreign keys: integrity is kept by the statements below,
/// which rewrite a job's children as a unit, in one transaction.
pub const SCHEMA: &'static str = "
CREATE TABLE IF NOT EXISTS job (
    id         TEXT PRIMARY KEY,
    kind       TEXT NOT NULL DEFAULT 'download',
    url        TEXT NOT NULL,
    title      TEXT NOT NULL,
    preset     TEXT NOT NULL,
    state      TEXT NOT NULL,
    error      TEXT,
    created_at INTEGER NOT NULL
);
CREATE TABLE IF NOT EXISTS item (
    id          TEXT PRIMARY KEY,
    job_id      TEXT NOT NULL,
    idx         INTEGER NOT NULL,
    title       TEXT NOT NULL,
    duration    REAL,
    thumb_path  TEXT,
    webpage_url TEXT NOT NULL
);
CREATE TABLE IF NOT EXISTS file (
    id        TEXT PRIMARY KEY,
    item_id   TEXT NOT NULL,
    path      TEXT NOT NULL,
    kind      TEXT NOT NULL,
    format_id TEXT,
    bytes     INTEGER
);
CREATE TABLE IF NOT EXISTS preset (
    name         TEXT PRIMARY KEY,
    is_default   INTEGER NOT NULL,
    options_json TEXT NOT NULL
);
CREATE TABLE IF NOT EXISTS app_setting (
    k TEXT PRIMARY KEY,
    v TEXT NOT NULL
);
";

/// Brings a database from before jobs had a kind up to date. It fails where the
/// column is there already, which is of no consequence.
pub const MIGRATION: &'static str =
    "ALTER TABLE job ADD COLUMN kind TEXT NOT NULL DEFAULT 'download'";

/// One change of the tables.
#[derive(Debug, PartialEq)]
pub enum Statement {
    /// Adds the job's row, or replaces it.
    UpsertJob(JobRow),
    /// Deletes every file of every item of the job.
    DeleteFilesOfJob(String),
    /// Deletes every item of the job.
    DeleteItemsOfJob(String),
    /// Adds an item; an id that is taken is an error.
    InsertItem(ItemRow),
    /// Adds a file; an id that is taken is an error.
    InsertFile(FileRow),
    /// Deletes the job's row.
    DeleteJob(String),
    /// Adds the preset, or replaces it.
    UpsertPreset(PresetRow),
    /// Makes no preset but the named one the default.
    ClearOtherDefaults(String),
    /// Deletes the preset.
    DeletePreset(String),
    /// Sets a setting, replacing its value.
    UpsertSetting { key: String, value: String },
}

/// The value of a `Statement`.
pub enum StatementView {
    UpsertJob(JobRecord),
    DeleteFilesOfJob(Seq<char>),
    DeleteItemsOfJob(Seq<char>),
    InsertItem(ItemRecord),
    InsertFile(FileRecord),
    DeleteJob(Seq<char>),
    UpsertPreset(PresetRecord),
    ClearOtherDefaults(Seq<char>),
    DeletePreset(Seq<char>),
    UpsertSetting { key: Seq<char>, value: Seq<char> },
}

impl View for Statement {
    type V = StatementView;

    open spec fn view(&self) -> StatementView {
        match self {
            Statement::UpsertJob(r) => StatementView::UpsertJob(r@),
            Statement::DeleteFilesOfJob(id) => StatementView::DeleteFilesOfJob(id@),
            Statement::DeleteItemsOfJob(id) => StatementView::DeleteItemsOfJob(id@),
            Statement::InsertItem(r) => StatementView::InsertItem(r@),
            Statement::InsertFile(r) => StatementView::InsertFile(r@),
            Statement::DeleteJob(id) => StatementView::DeleteJob(id@),
            Statement::UpsertPreset(r) => StatementView::UpsertPreset(r@),
            Statement::ClearOtherDefaults(name) => StatementView::ClearOtherDefaults(name@),
            Statement::DeletePreset(name) => StatementView::DeletePreset(name@),
            Statement::UpsertSetting { key, value } => StatementView::UpsertSetting {
                key: key@,
                value: value@,
            },
        }
    }
}

/// A parameter of a statement.
#[derive(Debug, PartialEq)]
pub enum Param {
    Text(String),
    Integer(i64),
    Real(Double),
    Null,
}

/// The value of a `Param`.
pub enum ParamView {
    Text(Seq<char>),
    Integer(i64),
    Real(Double),
    Null,
}

impl View for Param {
    type V = ParamView;

    open spec fn view(&self) -> ParamView {
        match self {
            Param::Text(t) => ParamView::Text(t@),
            Param::Integer(n) => ParamView::Integer(*n),
            Param::Real(d) => ParamView::Real(*d),
            Param::Null => ParamView::Null,
        }
    }
}

/// A text, or null where it is absent.
pub open spec fn opt_text_view(t: Option<Seq<char>>) -> ParamView {
    match t {
        Some(t) => ParamView::Text(t),
        None => ParamView::Null,
    }
}

/// An integer, or null where it is absent.
pub open spec fn opt_int_view(n: Option<i64>) -> ParamView {
    match n {
        Some(n) => ParamView::Integer(n),
        None => ParamView::Null,
    }
}

/// A number, or null where it is absent.
pub open spec fn opt_real_view(d: Option<Double>) -> ParamView {
    match d {
        Some(d) => ParamView::Real(d),
        None => ParamView::Null,
    }
}

fn text(t: &String) -> (r: Param)
    ensures
        r@ == ParamView::Text(t@),
{
    Param::Text(t.clone())
}

fn opt_text(t: &Option<String>) -> (r: Param)
    ensures
        r@ == opt_text_view(opt(*t)),
{
    match t {
        Some(t) => Param::Text(t.clone()),
        None => Param::Null,
    }
}

fn opt_int(n: Option<i64>) -> (r: Param)
    ensures
        r@ == opt_int_view(n),
{
    match n {
        Some(n) => Param::Integer(n),
        None => Param::Null,
    }
}

fn opt_real(d: Option<Double>) -> (r: Param)
    ensures
        r@ == opt_real_view(d),
{
    match d {
        Some(d) => Param::Real(d),
        None => Param::Null,
    }
}

impl StatementView {
    /// The statement's text.
    pub open spec fn sql(self) -> Seq<char> {
        match self {
            StatementView::UpsertJob(_) =>
                "INSERT INTO job (id, kind, url, title, preset, state, error, created_at) VALUES (?1, ?2, ?3, ?4, ?5, ?6, ?7, ?8) ON CONFLICT(id) DO UPDATE SET kind=?2, url=?3, title=?4, preset=?5, state=?6, error=?7, created_at=?8"@,
            StatementView::DeleteFilesOfJob(_) =>
                "DELETE FROM file WHERE item_id IN (SELECT id FROM item WHERE job_id = ?1)"@,
            StatementView::DeleteItemsOfJob(_) => "DELETE FROM item WHERE job_id = ?1"@,
            StatementView::InsertItem(_) =>
                "INSERT INTO item (id, job_id, idx, title, duration, thumb_path, webpage_url) VALUES (?1, ?2, ?3, ?4, ?5, ?6, ?7)"@,
            StatementView::InsertFile(_) =>
                "INSERT INTO file (id, item_id, path, kind, format_id, bytes) VALUES (?1, ?2, ?3, ?4, ?5, ?6)"@,
            StatementView::DeleteJob(_) => "DELETE FROM job WHERE id = ?1"@,
            StatementView::UpsertPreset(_) =>
                "INSERT INTO preset (name, is_default, options_json) VALUES (?1, ?2, ?3) ON CONFLICT(name) DO UPDATE SET is_default=?2, options_json=?3"@,
            StatementView::ClearOtherDefaults(_) =>
                "UPDATE preset SET is_default = 0 WHERE name <> ?1"@,
            StatementView::DeletePreset(_) => "DELETE FROM preset WHERE name = ?1"@,
            StatementView::UpsertSetting { .. } =>
                "INSERT INTO app_setting (k, v) VALUES (?1, ?2) ON CONFLICT(k) DO UPDATE SET v=?2"@,
        }
    }

    /// The statement's parameters, in order.
    pub open spec fn params(self) -> Seq<ParamView> {
        match self {
            StatementView::UpsertJob(r) => seq![
                ParamView::Text(r.id),
                ParamView::Text(r.kind),
                ParamView::Text(r.url),
                ParamView::Text(r.title),
                ParamView::Text(r.preset),
                ParamView::Text(r.state),
                opt_text_view(r.error),
                ParamView::Integer(r.created_at),
            ],
            StatementView::DeleteFilesOfJob(id) => seq![ParamView::Text(id)],
            StatementView::DeleteItemsOfJob(id) => seq![ParamView::Text(id)],
            StatementView::InsertItem(r) => seq![
                ParamView::Text(r.id),
                ParamView::Text(r.job_id),
                ParamView::Integer(r.idx),
                ParamView::Text(r.title),
                opt_real_view(r.duration),
                opt_text_view(r.thumb_path),
                ParamView::Text(r.webpage_url),
            ],
            StatementView::InsertFile(r) => seq![
                ParamView::Text(r.id),
                ParamView::Text(r.item_id),
                ParamView::Text(r.path),
                ParamView::Text(r.kind),
                opt_text_view(r.format_id),
                opt_int_view(r.bytes),
            ],
            StatementView::DeleteJob(id) => seq![ParamView::Text(id)],
            StatementView::UpsertPreset(r) => seq![
                ParamView::Text(r.name),
                ParamView::Integer(
                    if r.is_default {
                        1
                    } else {
                        0
                    },
                ),
                ParamView::Text(r.options_json),
            ],
            StatementView::ClearOtherDefaults(name) => seq![ParamView::Text(name)],
            StatementView::DeletePreset(name) => seq![ParamView::Text(name)],
            StatementView::UpsertSetting { key, value } => seq![
                ParamView::Text(key),
                ParamView::Text(value),
            ],
        }
    }
}

impl Statement {
    /// The statement's text.
    pub fn sql(&self) -> (r: &'static str)
        ensures
            r@ == self@.sql(),
    {
        match self {
            Statement::UpsertJob(_) =>
                "INSERT INTO job (id, kind, url, title, preset, state, error, created_at) VALUES (?1, ?2, ?3, ?4, ?5, ?6, ?7, ?8) ON CONFLICT(id) DO UPDATE SET kind=?2, url=?3, title=?4, preset=?5, state=?6, error=?7, created_at=?8",
            Statement::DeleteFilesOfJob(_) =>
                "DELETE FROM file WHERE item_id IN (SELECT id FROM item WHERE job_id = ?1)",
            Statement::DeleteItemsOfJob(_) => "DELETE FROM item WHERE job_id = ?1",
            Statement::InsertItem(_) =>
                "INSERT INTO item (id, job_id, idx, title, duration, thumb_path, webpage_url) VALUES (?1, ?2, ?3, ?4, ?5, ?6, ?7)",
            Statement::InsertFile(_) =>
                "INSERT INTO file (id, item_id, path, kind, format_id, bytes) VALUES (?1, ?2, ?3, ?4, ?5, ?6)",
            Statement::DeleteJob(_) => "DELETE FROM job WHERE id = ?1",
            Statement::UpsertPreset(_) =>
                "INSERT INTO preset (name, is_default, options_json) VALUES (?1, ?2, ?3) ON CONFLICT(name) DO UPDATE SET is_default=?2, options_json=?3",
            Statement::ClearOtherDefaults(_) => "UPDATE preset SET is_default = 0 WHERE name <> ?1",
            Statement::DeletePreset(_) => "DELETE FROM preset WHERE name = ?1",
            Statement::UpsertSetting { .. } =>
                "INSERT INTO app_setting (k, v) VALUES (?1, ?2) ON CONFLICT(k) DO UPDATE SET v=?2",
        }
    }

    /// The statement's parameters, in order.
    pub fn params(&self) -> (r: Vec<Param>)
        ensures
            deep(r@) == self@.params(),
    {
        broadcast use lemma_deep_push;

        let mut p: Vec<Param> = Vec::new();
        match self {
            Statement::UpsertJob(r) => {
                p.push(text(&r.id));
                p.push(text(&r.kind));
                p.push(text(&r.url));
                p.push(text(&r.title));
                p.push(text(&r.preset));
                p.push(text(&r.state));
                p.push(opt_text(&r.error));
                p.push(Param::Integer(r.created_at));
            },
            Statement::DeleteFilesOfJob(id) => {
                p.push(text(id));
            },
            Statement::DeleteItemsOfJob(id) => {
                p.push(text(id));
            },
            Statement::InsertItem(r) => {
                p.push(text(&r.id));
                p.push(text(&r.job_id));
                p.push(Param::Integer(r.idx));
                p.push(text(&r.title));
                p.push(opt_real(r.duration));
                p.push(opt_text(&r.thumb_path));
                p.push(text(&r.webpage_url));
            },
            Statement::InsertFile(r) => {
                p.push(text(&r.id));
                p.push(text(&r.item_id));
                p.push(text(&r.path));
                p.push(text(&r.kind));
                p.push(opt_text(&r.format_id));
                p.push(opt_int(r.bytes));
            },
            Statement::DeleteJob(id) => {
                p.push(text(id));
            },
            Statement::UpsertPreset(r) => {
                p.push(text(&r.name));
                p.push(
                    Param::Integer(
                        if r.is_default {
                            1
                        } else {
                            0
                        },
                    ),
                );
                p.push(text(&r.options_json));
            },
            Statement::ClearOtherDefaults(name) => {
                p.push(text(name));
            },
            Statement::DeletePreset(name) => {
                p.push(text(name));
            },
            Statement::UpsertSetting { key, value } => {
                p.push(text(key));
                p.push(text(value));
            },
        }
        assert(deep(p@) =~= self@.params());
        p
    }
}

// ---------------------------------------------------------------------------
// Changes
// ---------------------------------------------------------------------------

/// The row of a job.
pub open spec fn job_record(job: JobView) -> JobRecord {
    JobRecord {
        id: job.id,
        kind: job.kind.name(),
        url: job.url,
        title: job.title,
        preset: job.preset,
        state: job.state.name(),
        error: job.error,
        created_at: job.created_at,
    }
}

/// The row of an item.
pub open spec fn item_record(job_id: Seq<char>, item: ItemView) -> ItemRecord {
    ItemRecord {
        id: item.id,
        job_id,
        idx: item.index,
        title: item.title,
        duration: item.duration,
        thumb_path: item.thumb_path,
        webpage_url: item.webpage_url,
    }
}

/// The row of a file.
pub open spec fn file_record(item_id: Seq<char>, file: FileView) -> FileRecord {
    FileRecord {
        id: file.id,
        item_id,
        path: file.path,
        kind: file.kind.name(),
        format_id: file.format_id,
        bytes: file.bytes,
    }
}

/// The statements that add the files of an item.
pub open spec fn file_statements(item_id: Seq<char>, files: Seq<FileView>) -> Seq<StatementView> {
    Seq::new(files.len(), |i: int| StatementView::InsertFile(file_record(item_id, files[i])))
}

/// The statements that add the items of a job, each followed by its files.
pub open spec fn item_statements(job_id: Seq<char>, items: Seq<ItemView>) -> Seq<StatementView>
    decreases items.len(),
{
    if items.len() == 0 {
        Seq::<StatementView>::empty()
    } else {
        item_statements(job_id, items.drop_last()).push(
            StatementView::InsertItem(item_record(job_id, items.last())),
        ) + file_statements(items.last().id, items.last().files)
    }
}

/// The statements that take away the children of a job.
pub open spec fn clear_children(job_id: Seq<char>) -> Seq<StatementView> {
    seq![StatementView::DeleteFilesOfJob(job_id), StatementView::DeleteItemsOfJob(job_id)]
}

/// The statements that save a job: its row, then its children rewritten whole,
/// so that a shrinking list of items cannot leave any behind.
pub open spec fn save_job_spec(job: JobView) -> Seq<StatementView> {
    seq![StatementView::UpsertJob(job_record(job))] + clear_children(job.id) + item_statements(
        job.id,
        job.items,
    )
}

/// The statements that delete a job with its items and files.
pub open spec fn delete_job_spec(job_id: Seq<char>) -> Seq<StatementView> {
    clear_children(job_id) + seq![StatementView::DeleteJob(job_id)]
}

fn push_files(out: &mut Vec<Statement>, item_id: &String, files: &Vec<File>)
    ensures
        deep(final(out)@) == deep(old(out)@) + file_statements(item_id@, deep(files@)),
{
    broadcast use lemma_deep_push;

    let ghost all = file_statements(item_id@, deep(files@));
    let mut i: usize = 0;
    assert(deep(out@) =~= deep(old(out)@) + all.take(0));
    while i < files.len()
        invariant
            i <= files@.len(),
            all == file_statements(item_id@, deep(files@)),
            deep(out@) == deep(old(out)@) + all.take(i as int),
        decreases files@.len() - i,
    {
        let f: &File = &files[i];
        let next: Statement = Statement::InsertFile(
            FileRow {
                id: f.id.clone(),
                item_id: item_id.clone(),
                path: f.path.clone(),
                kind: owned(f.kind.as_str()),
                format_id: copy_opt(&f.format_id),
                bytes: f.bytes,
            },
        );
        assert(next@ == all[i as int]);
        let ghost before = deep(out@);
        out.push(next);
        assert(deep(out@) == before.push(all[i as int]));
        i = i + 1;
        assert(deep(out@) =~= deep(old(out)@) + all.take(i as int));
    }
    assert(all.take(i as int) =~= all);
}

/// The statements that write a job and everything below it, to be run in one
/// transaction: a failure halfway must not leave half a list of items.
///
/// For transitions of a job's state only, never for progress: that would mean
/// some ten disk writes a second for each active download.
pub fn save_job(job: &Job) -> (r: Vec<Statement>)
    ensures
        deep(r@) == save_job_spec(job@),
{
    broadcast use lemma_deep_push;

    let mut out: Vec<Statement> = Vec::new();
    out.push(
        Statement::UpsertJob(
            JobRow {
                id: job.id.clone(),
                kind: owned(job.kind.as_str()),
                url: job.url.clone(),
                title: job.title.clone(),
                preset: job.preset.clone(),
                state: owned(job.state.as_str()),
                error: copy_opt(&job.error),
                created_at: job.created_at,
            },
        ),
    );
    out.push(Statement::DeleteFilesOfJob(job.id.clone()));
    out.push(Statement::DeleteItemsOfJob(job.id.clone()));
    let ghost head = seq![StatementView::UpsertJob(job_record(job@))] + clear_children(job@.id);
    let ghost items = job@.items;
    assert(deep(out@) =~= head + item_statements(job@.id, items.take(0)));
    let mut i: usize = 0;
    while i < job.items.len()
        invariant
            i <= job.items@.len(),
            items == deep(job.items@),
            deep(out@) == head + item_statements(job@.id, items.take(i as int)),
        decreases job.items@.len() - i,
    {
        let item: &Item = &job.items[i];
        let next: Statement = Statement::InsertItem(
            ItemRow {
                id: item.id.clone(),
                job_id: job.id.clone(),
                idx: item.index,
                title: item.title.clone(),
                duration: item.duration,
                thumb_path: copy_opt(&item.thumb_path),
                webpage_url: item.webpage_url.clone(),
            },
        );
        assert(next@ == StatementView::InsertItem(item_record(job@.id, items[i as int])));
        let ghost before = deep(out@);
        out.push(next);
        assert(deep(out@) == before.push(next@));
        push_files(&mut out, &item.id, &item.files);
        proof {
            let t = items.take(i + 1);
            assert(t.drop_last() =~= items.take(i as int));
            assert(t.last() == item@);
        }
        i = i + 1;
        assert(deep(out@) =~= head + item_statements(job@.id, items.take(i as int)));
    }
    assert(items.take(i as int) =~= items);
    out
}

/// The statements that delete a job with its items and files, to be run in one
/// transaction.
pub fn delete_job(job_id: &str) -> (r: Vec<Statement>)
    ensures
        deep(r@) == delete_job_spec(job_id@),
{
    broadcast use lemma_deep_push;

    let mut out: Vec<Statement> = Vec::new();
    out.push(Statement::DeleteFilesOfJob(owned(job_id)));
    out.push(Statement::DeleteItemsOfJob(owned(job_id)));
    out.push(Statement::DeleteJob(owned(job_id)));
    assert(deep(out@) =~= delete_job_spec(job_id@));
    out
}

/// The statements that save a preset. Exactly one preset may be the default, so
/// saving a default one makes no other the default.
pub open spec fn save_preset_spec(
    name: Seq<char>,
    is_default: bool,
    json: Seq<char>,
) -> Seq<StatementView> {
    let upsert = StatementView::UpsertPreset(
        PresetRecord { name, is_default, options_json: json },
    );
    if is_default {
        seq![upsert, StatementView::ClearOtherDefaults(name)]
    } else {
        seq![upsert]
    }
}

/// The statements that save a preset whose options are `json` as text.
pub fn save_preset(preset: &Preset, json: &str) -> (r: Vec<Statement>)
    ensures
        deep(r@) == save_preset_spec(preset@.name, preset@.is_default, json@),
{
    broadcast use lemma_deep_push;

    let mut out: Vec<Statement> = Vec::new();
    out.push(
        Statement::UpsertPreset(
            PresetRow {
                name: preset.name.clone(),
                is_default: preset.is_default,
                options_json: owned(json),
            },
        ),
    );
    if preset.is_default {
        out.push(Statement::ClearOtherDefaults(preset.name.clone()));
    }
    assert(deep(out@) =~= save_preset_spec(preset@.name, preset@.is_default, json@));
    out
}

/// The statement that deletes a preset.
pub fn delete_preset(name: &str) -> (r: Statement)
    ensures
        r@ == StatementView::DeletePreset(name@),
{
    Statement::DeletePreset(owned(name))
}

/// The statement that sets a setting.
pub fn set_setting(key: &str, value: &str) -> (r: Statement)
    ensures
        r@ == (StatementView::UpsertSetting { key: key@, value: value@ }),
{
    Statement::UpsertSetting { key: owned(key), value: owned(value) }
}

// ---------------------------------------------------------------------------
// Reading
// ---------------------------------------------------------------------------

/// Reads every job, newest first.
pub const SELECT_JOBS: &'static str =
    "SELECT id, kind, url, title, preset, state, error, created_at FROM job ORDER BY created_at DESC, id DESC";

/// Reads the items of a job, by index.
pub const SELECT_ITEMS: &'static str =
    "SELECT id, idx, title, duration, thumb_path, webpage_url FROM item WHERE job_id = ?1 ORDER BY idx ASC";

/// Reads the files of an item, by id.
pub const SELECT_FILES: &'static str =
    "SELECT id, path, kind, format_id, bytes FROM file WHERE item_id = ?1 ORDER BY id ASC";

/// Reads every preset, by name.
pub const SELECT_PRESETS: &'static str =
    "SELECT name, is_default, options_json FROM preset ORDER BY name ASC";

/// Reads a setting.
pub const SELECT_SETTING: &'static str = "SELECT v FROM app_setting WHERE k = ?1";

/// The columns of a row of `SELECT_FILES`.
#[derive(Debug, PartialEq)]
pub struct FileColumns {
    pub id: Option<String>,
    pub path: Option<String>,
    pub kind: Option<String>,
    pub format_id: Option<String>,
    pub bytes: Option<i64>,
}

/// The columns of a row of `SELECT_ITEMS`, and the rows of its files.
#[derive(Debug, PartialEq)]
pub struct ItemColumns {
    pub id: Option<String>,
    pub idx: Option<i64>,
    pub title: Option<String>,
    pub duration: Option<Double>,
    pub thumb_path: Option<String>,
    pub webpage_url: Option<String>,
    pub files: Vec<FileColumns>,
}

/// The columns of a row of `SELECT_JOBS`, and the rows of its items.
#[derive(Debug, PartialEq)]
pub struct JobColumns {
    pub id: Option<String>,
    pub kind: Option<String>,
    pub url: Option<String>,
    pub title: Option<String>,
    pub preset: Option<String>,
    pub state: Option<String>,
    pub error: Option<String>,
    pub created_at: Option<i64>,
    pub items: Vec<ItemColumns>,
}

/// A text column; null reads as the empty text, as a library written by an
/// older version is not worth failing over.
pub open spec fn text_column(t: Option<String>) -> Seq<char> {
    match t {
        Some(t) => t@,
        None => Seq::<char>::empty(),
    }
}

fn text_at(t: Option<String>) -> (r: String)
    ensures
        r@ == text_column(t),
{
    match t {
        Some(t) => t,
        None => String::new(),
    }
}

/// The file that a row stands for.
pub open spec fn file_of(c: FileColumns) -> FileView {
    FileView {
        id: text_column(c.id),
        path: text_column(c.path),
        kind: FileKind::named(text_column(c.kind)),
        format_id: opt(c.format_id),
        bytes: c.bytes,
    }
}

/// The item that a row and the rows of its files stand for.
pub open spec fn item_of(c: ItemColumns) -> ItemView {
    ItemView {
        id: text_column(c.id),
        index: match c.idx {
            Some(n) => n,
            None => 0,
        },
        title: text_column(c.title),
        duration: c.duration,
        thumb_path: opt(c.thumb_path),
        webpage_url: text_column(c.webpage_url),
        files: Seq::new(c.files@.len(), |i: int| file_of(c.files@[i])),
    }
}

/// The job that a row and the rows of its items stand for.
pub open spec fn job_of(c: JobColumns) -> JobView {
    JobView {
        id: text_column(c.id),
        kind: JobKind::named(text_column(c.kind)),
        url: text_column(c.url),
        title: text_column(c.title),
        preset: text_column(c.preset),
        state: JobState::named(text_column(c.state)),
        error: opt(c.error),
        created_at: match c.created_at {
            Some(n) => n,
            None => 0,
        },
        items: Seq::new(c.items@.len(), |i: int| item_of(c.items@[i])),
    }
}

fn int_at(n: Option<i64>) -> (r: i64)
    ensures
        r == (match n {
            Some(n) => n,
            None => 0,
        }),
{
    match n {
        Some(n) => n,
        None => 0,
    }
}

/// The files that rows stand for, in their order.
pub fn load_files(rows: Vec<FileColumns>) -> (r: Vec<File>)
    ensures
        deep(r@) == Seq::new(rows@.len(), |i: int| file_of(rows@[i])),
{
    broadcast use lemma_deep_push;

    let ghost all = rows@;
    let ghost want = Seq::new(all.len(), |i: int| file_of(all[i]));
    let mut rest: Vec<FileColumns> = rows;
    let mut out: Vec<File> = Vec::new();
    while rest.len() > 0
        invariant
            rest@.len() <= all.len(),
            rest@ == all.skip(all.len() - rest@.len()),
            want == Seq::new(all.len(), |i: int| file_of(all[i])),
            deep(out@) == want.take(all.len() - rest@.len()),
        decreases rest@.len(),
    {
        let ghost k = all.len() - rest@.len();
        assert(rest@[0] == all[k]);
        let c: FileColumns = rest.remove(0);
        let file: File = File {
            id: text_at(c.id),
            path: text_at(c.path),
            kind: FileKind::parse(text_at(c.kind).as_str()),
            format_id: c.format_id,
            bytes: c.bytes,
        };
        assert(file@ == want[k]);
        let ghost before = deep(out@);
        out.push(file);
        assert(deep(out@) == before.push(want[k]));
        assert(rest@ =~= all.skip(all.len() - rest@.len()));
        assert(deep(out@) =~= want.take(k + 1));
    }
    assert(want.take(all.len() as int) =~= want);
    out
}

/// The items that rows stand for, in their order, with their files.
pub fn load_items(rows: Vec<ItemColumns>) -> (r: Vec<Item>)
    ensures
        deep(r@) == Seq::new(rows@.len(), |i: int| item_of(rows@[i])),
{
    broadcast use lemma_deep_push;

    let ghost all = rows@;
    let ghost want = Seq::new(all.len(), |i: int| item_of(all[i]));
    let mut rest: Vec<ItemColumns> = rows;
    let mut out: Vec<Item> = Vec::new();
    while rest.len() > 0
        invariant
            rest@.len() <= all.len(),
            rest@ == all.skip(all.len() - rest@.len()),
            want == Seq::new(all.len(), |i: int| item_of(all[i])),
            deep(out@) == want.take(all.len() - rest@.len()),
        decreases rest@.len(),
    {
        let ghost k = all.len() - rest@.len();
        assert(rest@[0] == all[k]);
        let c: ItemColumns = rest.remove(0);
        let item: Item = Item {
            id: text_at(c.id),
            index: int_at(c.idx),
            title: text_at(c.title),
            duration: c.duration,
            thumb_path: c.thumb_path,
            webpage_url: text_at(c.webpage_url),
            files: load_files(c.files),
        };
        assert(item@ =~= want[k]);
        let ghost before = deep(out@);
        out.push(item);
        assert(deep(out@) == before.push(want[k]));
        assert(rest@ =~= all.skip(all.len() - rest@.len()));
        assert(deep(out@) =~= want.take(k + 1));
    }
    assert(want.take(all.len() as int) =~= want);
    out
}

/// The jobs that rows stand for, in their order, with items and files attached.
pub fn load_jobs(rows: Vec<JobColumns>) -> (r: Vec<Job>)
    ensures
        deep(r@) == Seq::new(rows@.len(), |i: int| job_of(rows@[i])),
{
    broadcast use lemma_deep_push;

    let ghost all = rows@;
    let ghost want = Seq::new(all.len(), |i: int| job_of(all[i]));
    let mut rest: Vec<JobColumns> = rows;
    let mut out: Vec<Job> = Vec::new();
    while rest.len() > 0
        invariant
            rest@.len() <= all.len(),
            rest@ == all.skip(all.len() - rest@.len()),
            want == Seq::new(all.len(), |i: int| job_of(all[i])),
            deep(out@) == want.take(all.len() - rest@.len()),
        decreases rest@.len(),
    {
        let ghost k = all.len() - rest@.len();
        assert(rest@[0] == all[k]);
        let c: JobColumns = rest.remove(0);
        let job: Job = Job {
            id: text_at(c.id),
            kind: JobKind::parse(text_at(c.kind).as_str()),
            url: text_at(c.url),
            title: text_at(c.title),
            preset: text_at(c.preset),
            state: JobState::parse(text_at(c.state).as_str()),
            error: c.error,
            created_at: int_at(c.created_at),
            items: load_items(c.items),
        };
        assert(job@ =~= want[k]);
        let ghost before = deep(out@);
        out.push(job);
        assert(deep(out@) == before.push(want[k]));
        assert(rest@ =~= all.skip(all.len() - rest@.len()));
        assert(deep(out@) =~= want.take(k + 1));
    }
    assert(want.take(all.len() as int) =~= want);
    out
}

/// The columns of a row of `SELECT_PRESETS`; `options` is what its text was
/// read as, or none where it could not be read.
#[derive(Debug, PartialEq)]
pub struct PresetColumns {
    pub name: Option<String>,
    pub is_default: Option<i64>,
    pub options: Option<YtdlpOptions>,
}

/// The preset that a row stands for. Options that cannot be read become the
/// defaults: a preset that a newer version wrote must not break startup.
pub open spec fn preset_of(c: PresetColumns) -> PresetView {
    PresetView {
        name: text_column(c.name),
        is_default: c.is_default matches Some(n) && n != 0,
        options: match c.options {
            Some(o) => o@,
            None => default_options_view(),
        },
    }
}

/// The presets that rows stand for, in their order.
pub fn load_presets(rows: Vec<PresetColumns>) -> (r: Vec<Preset>)
    ensures
        deep(r@) == Seq::new(rows@.len(), |i: int| preset_of(rows@[i])),
{
    broadcast use lemma_deep_push;

    let ghost all = rows@;
    let ghost want = Seq::new(all.len(), |i: int| preset_of(all[i]));
    let mut rest: Vec<PresetColumns> = rows;
    let mut out: Vec<Preset> = Vec::new();
    while rest.len() > 0
        invariant
            rest@.len() <= all.len(),
            rest@ == all.skip(all.len() - rest@.len()),
            want == Seq::new(all.len(), |i: int| preset_of(all[i])),
            deep(out@) == want.take(all.len() - rest@.len()),
        decreases rest@.len(),
    {
        let ghost k = all.len() - rest@.len();
        assert(rest@[0] == all[k]);
        let c: PresetColumns = rest.remove(0);
        let preset: Preset = Preset {
            name: text_at(c.name),
            is_default: int_at(c.is_default) != 0,
            options: match c.options {
                Some(o) => o,
                None => YtdlpOptions::default(),
            },
        };
        assert(preset@ =~= want[k]);
        let ghost before = deep(out@);
        out.push(preset);
        assert(deep(out@) == before.push(want[k]));
        assert(rest@ =~= all.skip(all.len() - rest@.len()));
        assert(deep(out@) =~= want.take(k + 1));
    }
    assert(want.take(all.len() as int) =~= want);
    out
}

/// The value of a setting, given the rows of `SELECT_SETTING`: none where there
/// is no row.
pub fn get_setting(row: Option<Option<String>>) -> (r: Option<String>)
    ensures
        opt(r) == (match row {
            Some(v) => Some(text_column(v)),
            None => None,
        }),
{
    match row {
        Some(v) => Some(text_at(v)),
        None => None,
    }
}

// ---------------------------------------------------------------------------
// What is written and read, column by column
// ---------------------------------------------------------------------------

/// Each statement by its text: a job and a preset are added or replaced under their own
/// key, the children of a job are taken away by the job they belong to, an item and a file
/// are added.
pub proof fn lemma_texts_of_the_statements(s: StatementView)
    ensures
        s is UpsertJob ==> s.sql()
            == "INSERT INTO job (id, kind, url, title, preset, state, error, created_at) VALUES (?1, ?2, ?3, ?4, ?5, ?6, ?7, ?8) ON CONFLICT(id) DO UPDATE SET kind=?2, url=?3, title=?4, preset=?5, state=?6, error=?7, created_at=?8"@,
        s is DeleteFilesOfJob ==> s.sql()
            == "DELETE FROM file WHERE item_id IN (SELECT id FROM item WHERE job_id = ?1)"@,
        s is DeleteItemsOfJob ==> s.sql() == "DELETE FROM item WHERE job_id = ?1"@,
        s is InsertItem ==> s.sql()
            == "INSERT INTO item (id, job_id, idx, title, duration, thumb_path, webpage_url) VALUES (?1, ?2, ?3, ?4, ?5, ?6, ?7)"@,
        s is InsertFile ==> s.sql()
            == "INSERT INTO file (id, item_id, path, kind, format_id, bytes) VALUES (?1, ?2, ?3, ?4, ?5, ?6)"@,
        s is DeleteJob ==> s.sql() == "DELETE FROM job WHERE id = ?1"@,
        s is UpsertPreset ==> s.sql()
            == "INSERT INTO preset (name, is_default, options_json) VALUES (?1, ?2, ?3) ON CONFLICT(name) DO UPDATE SET is_default=?2, options_json=?3"@,
        s is ClearOtherDefaults ==> s.sql() == "UPDATE preset SET is_default = 0 WHERE name <> ?1"@,
        s is DeletePreset ==> s.sql() == "DELETE FROM preset WHERE name = ?1"@,
        s is UpsertSetting ==> s.sql()
            == "INSERT INTO app_setting (k, v) VALUES (?1, ?2) ON CONFLICT(k) DO UPDATE SET v=?2"@,
{
}

/// Jobs are read with the newest first, the items of a job by their index, the files of an
/// item by their id, presets by their name.
pub proof fn lemma_texts_of_the_queries()
    ensures
        SELECT_JOBS@
            == "SELECT id, kind, url, title, preset, state, error, created_at FROM job ORDER BY created_at DESC, id DESC"@,
        SELECT_ITEMS@
            == "SELECT id, idx, title, duration, thumb_path, webpage_url FROM item WHERE job_id = ?1 ORDER BY idx ASC"@,
        SELECT_FILES@
            == "SELECT id, path, kind, format_id, bytes FROM file WHERE item_id = ?1 ORDER BY id ASC"@,
        SELECT_PRESETS@ == "SELECT name, is_default, options_json FROM preset ORDER BY name ASC"@,
        SELECT_SETTING@ == "SELECT v FROM app_setting WHERE k = ?1"@,
        MIGRATION@ == "ALTER TABLE job ADD COLUMN kind TEXT NOT NULL DEFAULT 'download'"@,
{
}

/// Whether a parameter is a text, or null where that is absent.
pub open spec fn carries(p: ParamView, t: Option<Seq<char>>) -> bool {
    match t {
        Some(t) => p == ParamView::Text(t),
        None => p is Null,
    }
}

/// The parameters of the statements that save a job, each in the place that its statement
/// names it by: what is absent is null.
pub proof fn lemma_parameters_of_the_rows(job: JobRecord, item: ItemRecord, file: FileRecord)
    ensures
        ({
            let p = StatementView::UpsertJob(job).params();
            &&& p.len() == 8
            &&& p[0] == ParamView::Text(job.id) && p[1] == ParamView::Text(job.kind)
            &&& p[2] == ParamView::Text(job.url) && p[3] == ParamView::Text(job.title)
            &&& p[4] == ParamView::Text(job.preset) && p[5] == ParamView::Text(job.state)
            &&& carries(p[6], job.error) && p[7] == ParamView::Integer(job.created_at)
        }),
        ({
            let p = StatementView::InsertItem(item).params();
            &&& p.len() == 7
            &&& p[0] == ParamView::Text(item.id) && p[1] == ParamView::Text(item.job_id)
            &&& p[2] == ParamView::Integer(item.idx) && p[3] == ParamView::Text(item.title)
            &&& item.duration is Some ==> p[4] == ParamView::Real(item.duration->0)
            &&& item.duration is None ==> p[4] is Null
            &&& carries(p[5], item.thumb_path) && p[6] == ParamView::Text(item.webpage_url)
        }),
        ({
            let p = StatementView::InsertFile(file).params();
            &&& p.len() == 6
            &&& p[0] == ParamView::Text(file.id) && p[1] == ParamView::Text(file.item_id)
            &&& p[2] == ParamView::Text(file.path) && p[3] == ParamView::Text(file.kind)
            &&& carries(p[4], file.format_id)
            &&& file.bytes is Some ==> p[5] == ParamView::Integer(file.bytes->0)
            &&& file.bytes is None ==> p[5] is Null
        }),
{
}

/// The parameters of the other statements: the key they go by, and of a preset whether it
/// is the default, as one or zero, and its options.
pub proof fn lemma_parameters_of_the_rest(key: Seq<char>, value: Seq<char>, r: PresetRecord)
    ensures
        StatementView::DeleteFilesOfJob(key).params() == seq![ParamView::Text(key)],
        StatementView::DeleteItemsOfJob(key).params() == seq![ParamView::Text(key)],
        StatementView::DeleteJob(key).params() == seq![ParamView::Text(key)],
        StatementView::ClearOtherDefaults(key).params() == seq![ParamView::Text(key)],
        StatementView::DeletePreset(key).params() == seq![ParamView::Text(key)],
        (StatementView::UpsertSetting { key, value }).params() == seq![
            ParamView::Text(key),
            ParamView::Text(value),
        ],
        ({
            let p = StatementView::UpsertPreset(r).params();
            &&& p.len() == 3
            &&& p[0] == ParamView::Text(r.name) && p[2] == ParamView::Text(r.options_json)
            &&& r.is_default ==> p[1] == ParamView::Integer(1)
            &&& !r.is_default ==> p[1] == ParamView::Integer(0)
        }),
{
}

/// The rows of a job, an item and a file hold what these are, the kind and the state under
/// the words they are stored as, and whom they belong to.
pub proof fn lemma_rows_hold_what_they_are_of(job: JobView, item: ItemView, file: FileView)
    ensures
        ({
            let r = job_record(job);
            &&& r.id == job.id && r.url == job.url && r.title == job.title && r.preset == job.preset
            &&& r.kind == job.kind.name() && r.state == job.state.name()
            &&& r.error == job.error && r.created_at == job.created_at
        }),
        ({
            let r = item_record(job.id, item);
            &&& r.id == item.id && r.job_id == job.id && r.idx == item.index
            &&& r.title == item.title && r.duration == item.duration
            &&& r.thumb_path == item.thumb_path && r.webpage_url == item.webpage_url
        }),
        ({
            let r = file_record(item.id, file);
            &&& r.id == file.id && r.item_id == item.id && r.path == file.path
            &&& r.kind == file.kind.name() && r.format_id == file.format_id && r.bytes == file.bytes
        }),
{
}

/// A job is saved by its row, then its files and its items are taken away, then each item
/// is added with its files behind it, in order. It is deleted files first, then items, then
/// its row. A preset that becomes the default is saved before the others stop being it.
pub proof fn lemma_order_of_the_statements(
    job: JobView,
    items: Seq<ItemView>,
    item: ItemView,
    files: Seq<FileView>,
    file: FileView,
    json: Seq<char>,
)
    ensures
        ({
            let s = save_job_spec(job);
            &&& s.len() >= 3
            &&& s[0] == StatementView::UpsertJob(job_record(job))
            &&& s[1] == StatementView::DeleteFilesOfJob(job.id)
            &&& s[2] == StatementView::DeleteItemsOfJob(job.id)
            &&& s.skip(3) == item_statements(job.id, job.items)
        }),
        item_statements(job.id, Seq::<ItemView>::empty()).len() == 0,
        item_statements(job.id, items.push(item)) == item_statements(job.id, items) + seq![
            StatementView::InsertItem(item_record(job.id, item)),
        ] + file_statements(item.id, item.files),
        file_statements(item.id, Seq::<FileView>::empty()).len() == 0,
        file_statements(item.id, files.push(file)) == file_statements(item.id, files).push(
            StatementView::InsertFile(file_record(item.id, file)),
        ),
        delete_job_spec(job.id) == seq![
            StatementView::DeleteFilesOfJob(job.id),
            StatementView::DeleteItemsOfJob(job.id),
            StatementView::DeleteJob(job.id),
        ],
        save_preset_spec(job.id, false, json) == seq![
            StatementView::UpsertPreset(
                PresetRecord { name: job.id, is_default: false, options_json: json },
            ),
        ],
        save_preset_spec(job.id, true, json) == seq![
            StatementView::UpsertPreset(
                PresetRecord { name: job.id, is_default: true, options_json: json },
            ),
            StatementView::ClearOtherDefaults(job.id),
        ],
{
    let s = save_job_spec(job);
    assert(s.skip(3) =~= item_statements(job.id, job.items));
    assert(items.push(item).drop_last() =~= items);
    let a = item_statements(job.id, items);
    let one = StatementView::InsertItem(item_record(job.id, item));
    assert(a.push(one) =~= a + seq![one]);
    assert(file_statements(item.id, files.push(file)) =~= file_statements(item.id, files).push(
        StatementView::InsertFile(file_record(item.id, file)),
    ));
    assert(delete_job_spec(job.id) =~= seq![
        StatementView::DeleteFilesOfJob(job.id),
        StatementView::DeleteItemsOfJob(job.id),
        StatementView::DeleteJob(job.id),
    ]);
}

/// A row is read column by column. A text that is null reads as empty, a number that is
/// null as zero where it has to be one, and what may be absent as absent.
pub proof fn lemma_columns_are_read_as_they_are(f: FileColumns, i: ItemColumns, j: JobColumns, k: int)
    ensures
        ({
            let r = file_of(f);
            &&& f.id is Some ==> r.id == f.id->0@
            &&& f.id is None ==> r.id.len() == 0
            &&& f.path is Some ==> r.path == f.path->0@
            &&& f.path is None ==> r.path.len() == 0
            &&& f.kind is Some ==> r.kind == FileKind::named(f.kind->0@)
            &&& f.format_id is Some ==> r.format_id == Some(f.format_id->0@)
            &&& f.format_id is None ==> r.format_id is None
            &&& r.bytes == f.bytes
        }),
        ({
            let r = item_of(i);
            &&& i.id is Some ==> r.id == i.id->0@
            &&& i.id is None ==> r.id.len() == 0
            &&& i.idx is Some ==> r.index == i.idx->0
            &&& i.idx is None ==> r.index == 0
            &&& i.title is Some ==> r.title == i.title->0@
            &&& i.title is None ==> r.title.len() == 0
            &&& r.duration == i.duration
            &&& i.thumb_path is Some ==> r.thumb_path == Some(i.thumb_path->0@)
            &&& i.thumb_path is None ==> r.thumb_path is None
            &&& i.webpage_url is Some ==> r.webpage_url == i.webpage_url->0@
            &&& i.webpage_url is None ==> r.webpage_url.len() == 0
            &&& r.files.len() == i.files@.len()
            &&& 0 <= k < i.files@.len() ==> r.files[k] == file_of(i.files@[k])
        }),
        ({
            let r = job_of(j);
            &&& j.id is Some ==> r.id == j.id->0@
            &&& j.id is None ==> r.id.len() == 0
            &&& j.kind is Some ==> r.kind == JobKind::named(j.kind->0@)
            &&& j.url is Some ==> r.url == j.url->0@
            &&& j.url is None ==> r.url.len() == 0
            &&& j.title is Some ==> r.title == j.title->0@
            &&& j.title is None ==> r.title.len() == 0
            &&& j.preset is Some ==> r.preset == j.preset->0@
            &&& j.preset is None ==> r.preset.len() == 0
            &&& j.state is Some ==> r.state == JobState::named(j.state->0@)
            &&& j.error is Some ==> r.error == Some(j.error->0@)
            &&& j.error is None ==> r.error is None
            &&& j.created_at is Some ==> r.created_at == j.created_at->0
            &&& j.created_at is None ==> r.created_at == 0
            &&& r.items.len() == j.items@.len()
            &&& 0 <= k < j.items@.len() ==> r.items[k] == item_of(j.items@[k])
        }),
{
}

/// A preset is read by its name; it is the default where its mark is there and not zero;
/// options that could not be read are the defaults.
pub proof fn lemma_preset_is_read_with_what_could_be_read(c: PresetColumns)
    ensures
        ({
            let p = preset_of(c);
            &&& c.name is Some ==> p.name == c.name->0@
            &&& c.name is None ==> p.name.len() == 0
            &&& c.is_default is None ==> !p.is_default
            &&& c.is_default is Some ==> (p.is_default <==> c.is_default->0 != 0)
            &&& c.options is Some ==> p.options == c.options->0@
            &&& c.options is None ==> p.options == default_options_view()
        }),
{
}

} // verus!
