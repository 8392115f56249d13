//! The statements of the store, run by SQLite.

use rusqlite::types::Value as Sql;
use rusqlite::{params_from_iter, Connection, OptionalExtension, Row};
use serde_json::Value;

use rustydlp::model::{File, FileKind, IdSource, Item, Job, JobKind, JobState, Preset};
use rustydlp::store::{
    delete_job, delete_preset, get_setting, load_jobs, load_presets, save_job, save_preset,
    set_setting, FileColumns, ItemColumns, JobColumns, Param, PresetColumns, Statement, MIGRATION,
    SCHEMA, SELECT_FILES, SELECT_ITEMS, SELECT_JOBS, SELECT_PRESETS, SELECT_SETTING,
};
use rustydlp::ytdlp::{Double, FormatMode, YtdlpOptions};

fn open() -> Connection {
    let conn = Connection::open_in_memory().unwrap();
    conn.execute_batch(SCHEMA).unwrap();
    // A database made by the schema has the column already.
    let _ = conn.execute_batch(MIGRATION);
    conn
}

fn bound(p: Param) -> Sql {
    match p {
        Param::Text(t) => Sql::Text(t),
        Param::Integer(n) => Sql::Integer(n),
        Param::Real(d) => Sql::Real(f64::from_bits(d.bits)),
        Param::Null => Sql::Null,
    }
}

fn run(conn: &Connection, statements: Vec<Statement>) {
    for s in statements {
        conn.execute(s.sql(), params_from_iter(s.params().into_iter().map(bound)))
            .unwrap();
    }
}

fn double_at(row: &Row, i: usize) -> rusqlite::Result<Option<Double>> {
    Ok(row
        .get::<_, Option<f64>>(i)?
        .map(|d| Double { bits: d.to_bits() }))
}

fn files_of(conn: &Connection, item_id: &str) -> Vec<FileColumns> {
    let mut stmt = conn.prepare(SELECT_FILES).unwrap();
    let rows = stmt
        .query_map([item_id], |row| {
            Ok(FileColumns {
                id: row.get(0)?,
                path: row.get(1)?,
                kind: row.get(2)?,
                format_id: row.get(3)?,
                bytes: row.get(4)?,
            })
        })
        .unwrap();
    rows.map(|r| r.unwrap()).collect()
}

fn items_of(conn: &Connection, job_id: &str) -> Vec<ItemColumns> {
    let mut stmt = conn.prepare(SELECT_ITEMS).unwrap();
    let rows = stmt
        .query_map([job_id], |row| {
            Ok(ItemColumns {
                id: row.get(0)?,
                idx: row.get(1)?,
                title: row.get(2)?,
                duration: double_at(row, 3)?,
                thumb_path: row.get(4)?,
                webpage_url: row.get(5)?,
                files: Vec::new(),
            })
        })
        .unwrap();
    let mut items: Vec<ItemColumns> = rows.map(|r| r.unwrap()).collect();
    for item in &mut items {
        item.files = files_of(conn, item.id.as_deref().unwrap());
    }
    items
}

fn jobs(conn: &Connection) -> Vec<Job> {
    let mut stmt = conn.prepare(SELECT_JOBS).unwrap();
    let rows = stmt
        .query_map([], |row| {
            Ok(JobColumns {
                id: row.get(0)?,
                kind: row.get(1)?,
                url: row.get(2)?,
                title: row.get(3)?,
                preset: row.get(4)?,
                state: row.get(5)?,
                error: row.get(6)?,
                created_at: row.get(7)?,
                items: Vec::new(),
            })
        })
        .unwrap();
    let mut found: Vec<JobColumns> = rows.map(|r| r.unwrap()).collect();
    for job in &mut found {
        job.items = items_of(conn, job.id.as_deref().unwrap());
    }
    load_jobs(found)
}

fn put(map: &mut serde_json::Map<String, Value>, key: &str, value: Value) {
    map.insert(key.to_string(), value);
}

fn options_json(o: &YtdlpOptions) -> String {
    let mut m = serde_json::Map::new();
    put(
        &mut m,
        "format",
        match &o.format {
            FormatMode::BestVideoAudio => Value::from("best"),
            FormatMode::AudioOnly { codec } => Value::from(format!("audio:{codec}")),
            FormatMode::Custom(f) => Value::from(format!("custom:{f}")),
        },
    );
    put(&mut m, "max_height", Value::from(o.max_height));
    put(&mut m, "container", Value::from(o.container.clone()));
    Value::Object(m).to_string()
}

fn read_options(json: &str) -> Option<YtdlpOptions> {
    let v: Value = serde_json::from_str(json).ok()?;
    let format = v.get("format")?.as_str()?;
    Some(YtdlpOptions {
        format: if format == "best" {
            FormatMode::BestVideoAudio
        } else if let Some(codec) = format.strip_prefix("audio:") {
            FormatMode::AudioOnly {
                codec: codec.to_string(),
            }
        } else {
            FormatMode::Custom(format.strip_prefix("custom:")?.to_string())
        },
        max_height: v.get("max_height")?.as_u64().map(|h| h as u32),
        container: v.get("container")?.as_str().map(|c| c.to_string()),
        ..Default::default()
    })
}

fn presets(conn: &Connection) -> Vec<Preset> {
    let mut stmt = conn.prepare(SELECT_PRESETS).unwrap();
    let rows = stmt
        .query_map([], |row| {
            let json: Option<String> = row.get(2)?;
            Ok(PresetColumns {
                name: row.get(0)?,
                is_default: row.get(1)?,
                options: json.and_then(|j| read_options(&j)),
            })
        })
        .unwrap();
    load_presets(rows.map(|r| r.unwrap()).collect())
}

fn put_preset(conn: &Connection, p: &Preset) {
    run(conn, save_preset(p, &options_json(&p.options)));
}

fn setting(conn: &Connection, key: &str) -> Option<String> {
    let row: Option<Option<String>> = conn
        .query_row(SELECT_SETTING, [key], |row| row.get(0))
        .optional()
        .unwrap();
    get_setting(row)
}

fn sample_job() -> Job {
    let mut ids = IdSource::new();
    let mut job = Job::new(
        ids.next_id("job", 1),
        "https://example.com/playlist?list=abc",
        "1080p archive",
        1_700_000_000,
    );
    job.title = "Lo-fi beats — ąćęłń 日本語".into(); // non-ASCII round-trip
    job.state = JobState::Done;
    job.items = vec![
        Item {
            id: ids.next_id("itm", 1),
            index: 0,
            title: "01 Intro".into(),
            duration: Some(Double {
                bits: 212.5f64.to_bits(),
            }),
            thumb_path: Some(r"C:\dl\01.webp".into()),
            webpage_url: "https://example.com/watch?v=1".into(),
            files: vec![
                File {
                    id: ids.next_id("fil", 1),
                    path: r"C:\dl\01 Intro.mp4".into(),
                    kind: FileKind::Video,
                    format_id: Some("137+140".into()),
                    bytes: Some(412_000_000),
                },
                File {
                    id: ids.next_id("fil", 1),
                    path: r"C:\dl\01 Intro.en.srt".into(),
                    kind: FileKind::Subtitle,
                    format_id: None,
                    bytes: None,
                },
            ],
        },
        Item {
            id: ids.next_id("itm", 1),
            index: 1,
            title: "02 Rain".into(),
            duration: None,
            thumb_path: None,
            webpage_url: "https://example.com/watch?v=2".into(),
            files: vec![],
        },
    ];
    job
}

#[test]
fn job_round_trips_through_sqlite() {
    let conn = open();
    let job = sample_job();
    run(&conn, save_job(&job));

    let loaded = jobs(&conn);
    assert_eq!(loaded.len(), 1, "expected exactly one job");
    assert_eq!(loaded[0], job, "job did not survive the round trip");

    // Saving again must not duplicate rows or orphan children.
    run(&conn, save_job(&job));
    let again = jobs(&conn);
    assert_eq!(again.len(), 1, "re-saving duplicated the job");
    assert_eq!(again[0].items.len(), 2);
    assert_eq!(again[0].items[0].files.len(), 2);
}

#[test]
fn store_presets_round_trip_and_only_one_stays_default() {
    let conn = open();

    for p in Preset::seeds("D:/Videos") {
        put_preset(&conn, &p);
    }

    let loaded = presets(&conn);
    assert_eq!(loaded.len(), 4);
    assert_eq!(
        loaded.iter().filter(|p| p.is_default).count(),
        1,
        "exactly one preset may be default"
    );

    // Options must survive the JSON round trip intact.
    let best = loaded.iter().find(|p| p.name == "Best (1080p mp4)").unwrap();
    assert_eq!(best.options.max_height, Some(1080));
    assert_eq!(best.options.container.as_deref(), Some("mp4"));
    assert!(best.is_default);

    // Promoting another preset must demote the previous default.
    let mut mp3 = loaded.iter().find(|p| p.name == "MP3 audio").unwrap().clone();
    mp3.is_default = true;
    put_preset(&conn, &mp3);

    let after = presets(&conn);
    assert_eq!(after.iter().filter(|p| p.is_default).count(), 1);
    assert!(after.iter().find(|p| p.name == "MP3 audio").unwrap().is_default);
    assert!(!after.iter().find(|p| p.name == "Best (1080p mp4)").unwrap().is_default);

    run(&conn, vec![delete_preset("M4A audio")]);
    assert_eq!(presets(&conn).len(), 3);
}

#[test]
fn a_preset_that_cannot_be_read_falls_back_to_defaults() {
    let conn = open();
    let p = Preset {
        name: "Odd".to_string(),
        is_default: false,
        options: YtdlpOptions::default(),
    };
    run(&conn, save_preset(&p, "{from the future"));
    let loaded = presets(&conn);
    assert_eq!(loaded.len(), 1);
    assert_eq!(loaded[0].options, YtdlpOptions::default());
}

#[test]
fn store_settings_round_trip_and_overwrite() {
    let conn = open();

    assert_eq!(setting(&conn, "download_dir"), None);
    run(&conn, vec![set_setting("download_dir", "D:/Videos")]);
    assert_eq!(setting(&conn, "download_dir").as_deref(), Some("D:/Videos"));
    run(&conn, vec![set_setting("download_dir", "E:/Other")]);
    assert_eq!(
        setting(&conn, "download_dir").as_deref(),
        Some("E:/Other"),
        "second write must overwrite, not duplicate"
    );
}

/// A shrinking item list must not leave orphaned items/files behind.
#[test]
fn store_resaving_with_fewer_items_prunes_children() {
    let conn = open();
    let mut job = sample_job();
    run(&conn, save_job(&job));

    job.items.truncate(1);
    job.items[0].files.truncate(1);
    run(&conn, save_job(&job));

    let loaded = jobs(&conn);
    assert_eq!(loaded[0].items.len(), 1);
    assert_eq!(loaded[0].items[0].files.len(), 1);
    assert_eq!(loaded[0], job);
    let files: i64 = conn
        .query_row("SELECT COUNT(*) FROM file", [], |r| r.get(0))
        .unwrap();
    assert_eq!(files, 1);
}

#[test]
fn deleting_a_job_takes_its_children_and_no_others() {
    let conn = open();
    let job = sample_job();
    let mut other = Job::new("job-z".to_string(), "https://x/z", "Best", 5);
    other.items = vec![Item {
        id: "itm-z".to_string(),
        index: 0,
        title: "z".to_string(),
        duration: None,
        thumb_path: None,
        webpage_url: String::new(),
        files: vec![],
    }];
    run(&conn, save_job(&job));
    run(&conn, save_job(&other));
    run(&conn, delete_job(&job.id));

    assert_eq!(jobs(&conn), vec![other]);
    let files: i64 = conn
        .query_row("SELECT COUNT(*) FROM file", [], |r| r.get(0))
        .unwrap();
    assert_eq!(files, 0);
}

#[test]
fn jobs_are_listed_newest_first() {
    let conn = open();
    for (id, at) in [("a", 1), ("b", 3), ("c", 2)] {
        run(&conn, save_job(&Job::new(id.to_string(), "u", "p", at)));
    }
    let order: Vec<String> = jobs(&conn).into_iter().map(|j| j.id).collect();
    assert_eq!(order, ["b", "c", "a"]);
}

#[test]
fn empty_columns_read_as_the_empty_value() {
    let row = JobColumns {
        id: None,
        kind: None,
        url: None,
        title: None,
        preset: None,
        state: None,
        error: None,
        created_at: None,
        items: Vec::new(),
    };
    let loaded = load_jobs(vec![row]);
    assert_eq!(loaded[0].id, "");
    assert_eq!(loaded[0].kind, JobKind::Download);
    assert_eq!(loaded[0].created_at, 0);
}

/// A number column keeps numbers: what is not one is not kept, nor a zero's sign.
#[test]
fn lengths_are_kept_as_numbers() {
    let conn = open();
    let mut job = sample_job();
    for (given, kept) in [
        (f64::NAN, None),
        (-0.0, Some(0.0f64)),
        (-1.5, Some(-1.5)),
        (f64::INFINITY, Some(f64::INFINITY)),
        (7.0, Some(7.0)),
    ] {
        job.items[0].duration = Some(Double {
            bits: given.to_bits(),
        });
        run(&conn, save_job(&job));
        let read = jobs(&conn)[0].items[0].duration;
        assert_eq!(read, kept.map(|k| Double { bits: k.to_bits() }), "{given}");
    }
}

/// A job that takes an id of another is refused, and nothing of it is kept.
#[test]
fn a_refused_save_changes_nothing() {
    let conn = open();
    let job = sample_job();
    run(&conn, save_job(&job));
    let mut other = sample_job();
    other.id = "job-other".to_string();
    {
        let tx = conn.unchecked_transaction().unwrap();
        let mut refused = false;
        for s in save_job(&other) {
            let params = s.params().into_iter().map(bound);
            if tx.execute(s.sql(), rusqlite::params_from_iter(params)).is_err() {
                refused = true;
                break;
            }
        }
        assert!(refused);
    }
    assert_eq!(jobs(&conn), vec![job]);
}

/// Jobs are read newest first, and one saved again leaves the others as they were.
#[test]
fn saving_one_job_leaves_the_others_alone() {
    let conn = open();
    let mut old = sample_job();
    old.id = "job-a".to_string();
    run(&conn, save_job(&old));
    let mut new = Job::new("job-b".to_string(), "https://x/y", "p", old.created_at + 1);
    run(&conn, save_job(&new));
    new.title = "Changed".to_string();
    run(&conn, save_job(&new));
    assert_eq!(jobs(&conn), vec![new, old]);
}

#[test]
fn presets_are_read_by_name() {
    let conn = open();
    for name in ["b", "a", "c"] {
        put_preset(
            &conn,
            &Preset {
                name: name.to_string(),
                is_default: name == "a",
                options: YtdlpOptions::default(),
            },
        );
    }
    let before = presets(&conn);
    let names: Vec<&str> = before.iter().map(|p| p.name.as_str()).collect();
    assert_eq!(names, ["a", "b", "c"]);
    let mut b = before[1].clone();
    b.options.max_height = Some(720);
    put_preset(&conn, &b);
    let after = presets(&conn);
    assert_eq!(after, vec![before[0].clone(), b, before[2].clone()]);
    assert!(after[0].is_default, "one that is no default demotes none");
}

/// A state that a newer version wrote is not resumed.
#[test]
fn an_unknown_state_is_taken_for_failed() {
    let conn = open();
    let job = sample_job();
    run(&conn, save_job(&job));
    conn.execute("UPDATE job SET state = 'paused'", []).unwrap();
    assert_eq!(jobs(&conn)[0].state, JobState::Failed);
}
