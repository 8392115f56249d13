//! What the store's statements do to its tables, and what follows from it: that
//! what was saved is what is read, that nothing is left behind, and that no
//! other job is touched.

use vstd::prelude::*;

#[allow(unused_imports)]
use crate::model::{
    lemma_file_kind_round_trip, lemma_job_kind_round_trip, lemma_state_round_trip, FileView,
    ItemView, JobView, PresetView,
};
#[allow(unused_imports)]
use crate::store::{
    file_of, item_of, job_of, preset_of, text_column, FileColumns, ItemColumns, JobColumns,
    PresetColumns,
};
#[allow(unused_imports)]
use crate::store::{
    clear_children, delete_job_spec, file_record, file_statements, item_record, item_statements,
    job_record, save_job_spec, save_preset_spec, FileRecord, ItemRecord, JobRecord, PresetRecord,
    StatementView,
};
#[allow(unused_imports)]
use crate::text::{before, opt};
#[allow(unused_imports)]
use crate::ytdlp::{Double, OptionsView};

verus! {

/// The tables, each by its primary key.
#[verifier::ext_equal]
pub struct Db {
    pub jobs: Map<Seq<char>, JobRecord>,
    pub items: Map<Seq<char>, ItemRecord>,
    pub files: Map<Seq<char>, FileRecord>,
    pub presets: Map<Seq<char>, PresetRecord>,
    pub settings: Map<Seq<char>, Seq<char>>,
}

/// Whether the file belongs to an item of the job.
pub open spec fn file_in_job(db: Db, file: Seq<char>, job_id: Seq<char>) -> bool {
    let item = db.files[file].item_id;
    db.items.dom().contains(item) && db.items[item].job_id == job_id
}

/// The files that belong to no item of the job.
pub open spec fn files_outside(db: Db, job_id: Seq<char>) -> Map<Seq<char>, FileRecord> {
    Map::new(
        |k: Seq<char>| db.files.dom().contains(k) && !file_in_job(db, k, job_id),
        |k: Seq<char>| db.files[k],
    )
}

/// The items that do not belong to the job.
pub open spec fn items_outside(db: Db, job_id: Seq<char>) -> Map<Seq<char>, ItemRecord> {
    Map::new(
        |k: Seq<char>| db.items.dom().contains(k) && db.items[k].job_id != job_id,
        |k: Seq<char>| db.items[k],
    )
}

/// The presets with no default but the named one.
pub open spec fn with_defaults_cleared(
    presets: Map<Seq<char>, PresetRecord>,
    name: Seq<char>,
) -> Map<Seq<char>, PresetRecord> {
    Map::new(
        |k: Seq<char>| presets.dom().contains(k),
        |k: Seq<char>|
            if k == name {
                presets[k]
            } else {
                PresetRecord { is_default: false, ..presets[k] }
            },
    )
}

/// A number as it is stored: what is not a number is stored as nothing, and a zero
/// without its sign.
pub open spec fn kept_number(d: Option<Double>) -> Option<Double> {
    match d {
        Some(d) => if d.positive() || d.negative() {
            Some(d)
        } else if d.countable() {
            Some(Double { bits: 0 })
        } else {
            None
        },
        None => None,
    }
}

/// A row of the item table as it is stored.
pub open spec fn kept_item(r: ItemRecord) -> ItemRecord {
    ItemRecord { duration: kept_number(r.duration), ..r }
}

/// The row that an item is stored as.
pub open spec fn stored_item(job_id: Seq<char>, item: ItemView) -> ItemRecord {
    kept_item(item_record(job_id, item))
}

/// What a statement does to the tables; none where it violates a primary key.
pub open spec fn run(db: Db, s: StatementView) -> Option<Db> {
    match s {
        StatementView::UpsertJob(r) => Some(Db { jobs: db.jobs.insert(r.id, r), ..db }),
        StatementView::DeleteFilesOfJob(id) => Some(Db { files: files_outside(db, id), ..db }),
        StatementView::DeleteItemsOfJob(id) => Some(Db { items: items_outside(db, id), ..db }),
        StatementView::InsertItem(r) => if db.items.dom().contains(r.id) {
            None
        } else {
            Some(Db { items: db.items.insert(r.id, kept_item(r)), ..db })
        },
        StatementView::InsertFile(r) => if db.files.dom().contains(r.id) {
            None
        } else {
            Some(Db { files: db.files.insert(r.id, r), ..db })
        },
        StatementView::DeleteJob(id) => Some(Db { jobs: db.jobs.remove(id), ..db }),
        StatementView::UpsertPreset(r) => Some(Db { presets: db.presets.insert(r.name, r), ..db }),
        StatementView::ClearOtherDefaults(name) => Some(
            Db { presets: with_defaults_cleared(db.presets, name), ..db },
        ),
        StatementView::DeletePreset(name) => Some(Db { presets: db.presets.remove(name), ..db }),
        StatementView::UpsertSetting { key, value } => Some(
            Db { settings: db.settings.insert(key, value), ..db },
        ),
    }
}

/// What a transaction of statements does: all of them in order, or, where one
/// fails, nothing.
pub open spec fn run_all(db: Db, statements: Seq<StatementView>) -> Option<Db>
    decreases statements.len(),
{
    if statements.len() == 0 {
        Some(db)
    } else {
        match run_all(db, statements.drop_last()) {
            Some(d) => run(d, statements.last()),
            None => None,
        }
    }
}

proof fn lemma_run_all_add(db: Db, a: Seq<StatementView>, b: Seq<StatementView>)
    ensures
        run_all(db, a + b) == (match run_all(db, a) {
            Some(d) => run_all(d, b),
            None => None,
        }),
    decreases b.len(),
{
    if b.len() == 0 {
        assert(a + b =~= a);
    } else {
        assert((a + b).drop_last() =~= a + b.drop_last());
        lemma_run_all_add(db, a, b.drop_last());
    }
}

// ---------------------------------------------------------------------------
// Saving a job
// ---------------------------------------------------------------------------

/// The file table with the files of an item added.
pub open spec fn put_files(
    files: Map<Seq<char>, FileRecord>,
    item_id: Seq<char>,
    fs: Seq<FileView>,
) -> Map<Seq<char>, FileRecord>
    decreases fs.len(),
{
    if fs.len() == 0 {
        files
    } else {
        put_files(files, item_id, fs.drop_last()).insert(
            fs.last().id,
            file_record(item_id, fs.last()),
        )
    }
}

/// The tables with the items of a job and their files added.
pub open spec fn put_items(db: Db, job_id: Seq<char>, items: Seq<ItemView>) -> Db
    decreases items.len(),
{
    if items.len() == 0 {
        db
    } else {
        let d = put_items(db, job_id, items.drop_last());
        Db {
            items: d.items.insert(items.last().id, stored_item(job_id, items.last())),
            files: put_files(d.files, items.last().id, items.last().files),
            ..d
        }
    }
}

/// Whether `id` is that of the file `items[i].files[j]`.
pub open spec fn is_file_id(items: Seq<ItemView>, i: int, j: int, id: Seq<char>) -> bool {
    0 <= i < items.len() && 0 <= j < items[i].files.len() && items[i].files[j].id == id
}

/// Whether no two items, and no two files among them, have one id.
pub open spec fn ids_distinct(items: Seq<ItemView>) -> bool {
    &&& forall|i: int, j: int|
        0 <= i < j < items.len() ==> (#[trigger] items[i]).id != (#[trigger] items[j]).id
    &&& forall|i: int, j: int, k: int, l: int, id: Seq<char>|
        #[trigger] is_file_id(items, i, j, id) && #[trigger] is_file_id(items, k, l, id) ==> i == k
            && j == l
}

/// Whether none of the ids is taken.
pub open spec fn ids_free(db: Db, items: Seq<ItemView>) -> bool {
    &&& forall|i: int| 0 <= i < items.len() ==> !db.items.dom().contains((#[trigger] items[i]).id)
    &&& forall|i: int, j: int, id: Seq<char>| #[trigger]
        is_file_id(items, i, j, id) ==> !db.files.dom().contains(id)
}

proof fn lemma_put_files(
    files: Map<Seq<char>, FileRecord>,
    item_id: Seq<char>,
    fs: Seq<FileView>,
)
    ensures
        forall|k: Seq<char>| #[trigger]
            put_files(files, item_id, fs).dom().contains(k) <==> files.dom().contains(k) || exists|
                j: int,
            |
                0 <= j < fs.len() && (#[trigger] fs[j]).id == k,
        forall|k: Seq<char>|
            (forall|j: int| 0 <= j < fs.len() ==> (#[trigger] fs[j]).id != k) ==> #[trigger]
            put_files(files, item_id, fs)[k] == files[k],
    decreases fs.len(),
{
    if fs.len() > 0 {
        let rest = fs.drop_last();
        lemma_put_files(files, item_id, rest);
        let m = put_files(files, item_id, rest);
        let n = put_files(files, item_id, fs);
        assert forall|k: Seq<char>| #[trigger] n.dom().contains(k) <==> files.dom().contains(k)
            || exists|j: int| 0 <= j < fs.len() && (#[trigger] fs[j]).id == k by {
            if n.dom().contains(k) {
                if k != fs.last().id {
                    assert(m.dom().contains(k));
                    if !files.dom().contains(k) {
                        let j = choose|j: int| 0 <= j < rest.len() && (#[trigger] rest[j]).id == k;
                        assert(fs[j].id == k);
                    }
                } else {
                    assert(fs[fs.len() - 1].id == k);
                }
            }
            if exists|j: int| 0 <= j < fs.len() && (#[trigger] fs[j]).id == k {
                let j = choose|j: int| 0 <= j < fs.len() && (#[trigger] fs[j]).id == k;
                if j < rest.len() {
                    assert(rest[j].id == k);
                    assert(m.dom().contains(k));
                }
            }
            if files.dom().contains(k) {
                assert(m.dom().contains(k));
            }
        }
        assert forall|k: Seq<char>|
            (forall|j: int| 0 <= j < fs.len() ==> (#[trigger] fs[j]).id != k) implies #[trigger]
            n[k] == files[k] by {
            assert(fs[fs.len() - 1].id != k);
            assert forall|j: int| 0 <= j < rest.len() implies (#[trigger] rest[j]).id != k by {
                assert(fs[j].id != k);
            }
            assert(m[k] == files[k]);
        }
    }
}

proof fn lemma_put_files_value(
    files: Map<Seq<char>, FileRecord>,
    item_id: Seq<char>,
    fs: Seq<FileView>,
    j: int,
)
    requires
        0 <= j < fs.len(),
        forall|a: int, b: int|
            0 <= a < b < fs.len() ==> (#[trigger] fs[a]).id != (#[trigger] fs[b]).id,
    ensures
        put_files(files, item_id, fs)[fs[j].id] == file_record(item_id, fs[j]),
    decreases fs.len(),
{
    let rest = fs.drop_last();
    if j < fs.len() - 1 {
        assert(fs[j].id != fs[fs.len() - 1].id);
        assert forall|a: int, b: int| 0 <= a < b < rest.len() implies (#[trigger] rest[a]).id != (
        #[trigger] rest[b]).id by {
            assert(fs[a].id != fs[b].id);
        }
        lemma_put_files_value(files, item_id, rest, j);
        assert(rest[j] == fs[j]);
    }
}

proof fn lemma_put_items_dom(db: Db, job_id: Seq<char>, items: Seq<ItemView>)
    ensures
        forall|k: Seq<char>| #[trigger]
            put_items(db, job_id, items).items.dom().contains(k) <==> db.items.dom().contains(k)
                || exists|i: int| 0 <= i < items.len() && (#[trigger] items[i]).id == k,
        forall|k: Seq<char>| #[trigger]
            put_items(db, job_id, items).files.dom().contains(k) <==> db.files.dom().contains(k)
                || exists|i: int, j: int| #[trigger] is_file_id(items, i, j, k),
        put_items(db, job_id, items).jobs == db.jobs,
        put_items(db, job_id, items).presets == db.presets,
        put_items(db, job_id, items).settings == db.settings,
    decreases items.len(),
{
    if items.len() > 0 {
        let rest = items.drop_last();
        let last = items.last();
        lemma_put_items_dom(db, job_id, rest);
        let m = put_items(db, job_id, rest);
        let n = put_items(db, job_id, items);
        lemma_put_files(m.files, last.id, last.files);
        assert forall|k: Seq<char>| #[trigger]
            n.items.dom().contains(k) <==> db.items.dom().contains(k) || exists|i: int|
                0 <= i < items.len() && (#[trigger] items[i]).id == k by {
            if n.items.dom().contains(k) {
                if k == last.id {
                    assert(items[items.len() - 1].id == k);
                } else {
                    assert(m.items.dom().contains(k));
                    if !db.items.dom().contains(k) {
                        let i = choose|i: int|
                            0 <= i < rest.len() && (#[trigger] rest[i]).id == k;
                        assert(items[i].id == k);
                    }
                }
            }
            if exists|i: int| 0 <= i < items.len() && (#[trigger] items[i]).id == k {
                let i = choose|i: int| 0 <= i < items.len() && (#[trigger] items[i]).id == k;
                if i < rest.len() {
                    assert(rest[i].id == k);
                    assert(m.items.dom().contains(k));
                }
            }
            if db.items.dom().contains(k) {
                assert(m.items.dom().contains(k));
            }
        }
        assert forall|k: Seq<char>| #[trigger]
            n.files.dom().contains(k) <==> db.files.dom().contains(k) || exists|i: int, j: int|
                #[trigger] is_file_id(items, i, j, k) by {
            if n.files.dom().contains(k) {
                if m.files.dom().contains(k) {
                    if !db.files.dom().contains(k) {
                        let (i, j) = choose|i: int, j: int| #[trigger] is_file_id(rest, i, j, k);
                        assert(is_file_id(items, i, j, k));
                    }
                } else {
                    let j = choose|j: int|
                        0 <= j < last.files.len() && (#[trigger] last.files[j]).id == k;
                    assert(is_file_id(items, items.len() - 1, j, k));
                }
            }
            if exists|i: int, j: int| #[trigger] is_file_id(items, i, j, k) {
                let (i, j) = choose|i: int, j: int| #[trigger] is_file_id(items, i, j, k);
                if i < rest.len() {
                    assert(is_file_id(rest, i, j, k));
                    assert(m.files.dom().contains(k));
                } else {
                    assert(last.files[j].id == k);
                }
            }
            if db.files.dom().contains(k) {
                assert(m.files.dom().contains(k));
            }
        }
    }
}

/// What was there before stays as it was, under an id that is not added.
proof fn lemma_put_items_keep(db: Db, job_id: Seq<char>, items: Seq<ItemView>)
    ensures
        forall|k: Seq<char>|
            (forall|i: int| 0 <= i < items.len() ==> (#[trigger] items[i]).id != k) ==> #[trigger]
            put_items(db, job_id, items).items[k] == db.items[k],
        forall|k: Seq<char>|
            (forall|i: int, j: int| !#[trigger] is_file_id(items, i, j, k)) ==> #[trigger]
            put_items(db, job_id, items).files[k] == db.files[k],
    decreases items.len(),
{
    if items.len() > 0 {
        let rest = items.drop_last();
        let last = items.last();
        lemma_put_items_keep(db, job_id, rest);
        let m = put_items(db, job_id, rest);
        let n = put_items(db, job_id, items);
        lemma_put_files(m.files, last.id, last.files);
        assert forall|k: Seq<char>|
            (forall|i: int| 0 <= i < items.len() ==> (#[trigger] items[i]).id
                != k) implies #[trigger] n.items[k] == db.items[k] by {
            assert(items[items.len() - 1].id != k);
            assert forall|i: int| 0 <= i < rest.len() implies (#[trigger] rest[i]).id != k by {
                assert(items[i].id != k);
            }
            assert(m.items[k] == db.items[k]);
        }
        assert forall|k: Seq<char>|
            (forall|i: int, j: int| !#[trigger] is_file_id(items, i, j, k)) implies #[trigger]
            n.files[k] == db.files[k] by {
            assert forall|i: int, j: int| !#[trigger] is_file_id(rest, i, j, k) by {
                assert(!is_file_id(items, i, j, k));
            }
            assert forall|j: int| 0 <= j < last.files.len() implies (#[trigger] last.files[j]).id
                != k by {
                assert(!is_file_id(items, items.len() - 1, j, k));
            }
            assert(m.files[k] == db.files[k]);
        }
    }
}

proof fn lemma_distinct_rest(items: Seq<ItemView>)
    requires
        items.len() > 0,
        ids_distinct(items),
    ensures
        ids_distinct(items.drop_last()),
        forall|a: int, b: int|
            0 <= a < b < items.last().files.len() ==> (#[trigger] items.last().files[a]).id != (
            #[trigger] items.last().files[b]).id,
{
    let rest = items.drop_last();
    assert forall|i: int, j: int| 0 <= i < j < rest.len() implies (#[trigger] rest[i]).id != (
    #[trigger] rest[j]).id by {
        assert(items[i].id != items[j].id);
    }
    assert forall|i: int, j: int, k: int, l: int, id: Seq<char>|
        #[trigger] is_file_id(rest, i, j, id) && #[trigger] is_file_id(
            rest,
            k,
            l,
            id,
        ) implies i == k && j == l by {
        assert(is_file_id(items, i, j, id));
        assert(is_file_id(items, k, l, id));
    }
    let n = items.len() - 1;
    assert forall|a: int, b: int| 0 <= a < b < items.last().files.len() implies (
    #[trigger] items.last().files[a]).id != (#[trigger] items.last().files[b]).id by {
        if items.last().files[a].id == items.last().files[b].id {
            let id = items.last().files[a].id;
            assert(is_file_id(items, n, a, id));
            assert(is_file_id(items, n, b, id));
        }
    }
}

/// Under distinct ids, each item and each file that was added is there.
proof fn lemma_put_items_value(db: Db, job_id: Seq<char>, items: Seq<ItemView>, i: int)
    requires
        ids_distinct(items),
        0 <= i < items.len(),
    ensures
        put_items(db, job_id, items).items[items[i].id] == stored_item(job_id, items[i]),
        forall|j: int|
            0 <= j < items[i].files.len() ==> put_items(db, job_id, items).files[(
            #[trigger] items[i].files[j]).id] == file_record(items[i].id, items[i].files[j]),
    decreases items.len(),
{
    let rest = items.drop_last();
    let last = items.last();
    let m = put_items(db, job_id, rest);
    let n = put_items(db, job_id, items);
    lemma_distinct_rest(items);
    lemma_put_files(m.files, last.id, last.files);
    if i < items.len() - 1 {
        lemma_put_items_value(db, job_id, rest, i);
        assert(rest[i] == items[i]);
        assert(items[i].id != items[items.len() - 1].id);
        assert forall|j: int| 0 <= j < items[i].files.len() implies n.files[(
        #[trigger] items[i].files[j]).id] == file_record(items[i].id, items[i].files[j]) by {
            let id = items[i].files[j].id;
            assert(m.files[rest[i].files[j].id] == file_record(rest[i].id, rest[i].files[j]));
            assert forall|b: int| 0 <= b < last.files.len() implies (#[trigger] last.files[b]).id
                != id by {
                if last.files[b].id == id {
                    assert(is_file_id(items, i, j, id));
                    assert(is_file_id(items, items.len() - 1, b, id));
                }
            }
            assert(put_files(m.files, last.id, last.files)[id] == m.files[id]);
        }
    } else {
        assert forall|j: int| 0 <= j < items[i].files.len() implies n.files[(
        #[trigger] items[i].files[j]).id] == file_record(items[i].id, items[i].files[j]) by {
            lemma_put_files_value(m.files, last.id, last.files, j);
        }
    }
}

proof fn lemma_run_files(db: Db, item_id: Seq<char>, fs: Seq<FileView>)
    requires
        forall|j: int| 0 <= j < fs.len() ==> !db.files.dom().contains((#[trigger] fs[j]).id),
        forall|a: int, b: int|
            0 <= a < b < fs.len() ==> (#[trigger] fs[a]).id != (#[trigger] fs[b]).id,
    ensures
        run_all(db, file_statements(item_id, fs)) == Some(
            Db { files: put_files(db.files, item_id, fs), ..db },
        ),
    decreases fs.len(),
{
    let st = file_statements(item_id, fs);
    if fs.len() > 0 {
        let rest = fs.drop_last();
        assert(st.drop_last() =~= file_statements(item_id, rest));
        assert forall|a: int, b: int| 0 <= a < b < rest.len() implies (#[trigger] rest[a]).id != (
        #[trigger] rest[b]).id by {
            assert(fs[a].id != fs[b].id);
        }
        assert forall|j: int| 0 <= j < rest.len() implies !db.files.dom().contains(
            (#[trigger] rest[j]).id,
        ) by {
            assert(!db.files.dom().contains(fs[j].id));
        }
        lemma_run_files(db, item_id, rest);
        lemma_put_files(db.files, item_id, rest);
        let m = put_files(db.files, item_id, rest);
        assert(!m.dom().contains(fs.last().id)) by {
            assert(!db.files.dom().contains(fs[fs.len() - 1].id));
            if exists|j: int| 0 <= j < rest.len() && (#[trigger] rest[j]).id == fs.last().id {
                let j = choose|j: int|
                    0 <= j < rest.len() && (#[trigger] rest[j]).id == fs.last().id;
                assert(fs[j].id != fs[fs.len() - 1].id);
            }
        }
        assert(st.last() == StatementView::InsertFile(file_record(item_id, fs.last())));
    }
}

proof fn lemma_run_items(db: Db, job_id: Seq<char>, items: Seq<ItemView>)
    requires
        ids_distinct(items),
        ids_free(db, items),
    ensures
        run_all(db, item_statements(job_id, items)) == Some(put_items(db, job_id, items)),
    decreases items.len(),
{
    if items.len() > 0 {
        let rest = items.drop_last();
        let last = items.last();
        let n = items.len() - 1;
        lemma_distinct_rest(items);
        assert(ids_free(db, rest)) by {
            assert forall|i: int| 0 <= i < rest.len() implies !db.items.dom().contains(
                (#[trigger] rest[i]).id,
            ) by {
                assert(!db.items.dom().contains(items[i].id));
            }
            assert forall|i: int, j: int, id: Seq<char>| #[trigger]
                is_file_id(rest, i, j, id) implies !db.files.dom().contains(id) by {
                assert(is_file_id(items, i, j, id));
            }
        }
        lemma_run_items(db, job_id, rest);
        lemma_put_items_dom(db, job_id, rest);
        let m = put_items(db, job_id, rest);
        assert(!m.items.dom().contains(last.id)) by {
            assert(!db.items.dom().contains(items[n].id));
            if exists|i: int| 0 <= i < rest.len() && (#[trigger] rest[i]).id == last.id {
                let i = choose|i: int| 0 <= i < rest.len() && (#[trigger] rest[i]).id == last.id;
                assert(items[i].id != items[n].id);
            }
        }
        let insert = StatementView::InsertItem(item_record(job_id, last));
        let head = item_statements(job_id, rest).push(insert);
        assert(head.drop_last() =~= item_statements(job_id, rest));
        let d = Db { items: m.items.insert(last.id, stored_item(job_id, last)), ..m };
        assert(run_all(db, head) == Some(d));
        assert forall|j: int| 0 <= j < last.files.len() implies !d.files.dom().contains(
            (#[trigger] last.files[j]).id,
        ) by {
            let id = last.files[j].id;
            assert(is_file_id(items, n, j, id));
            if exists|a: int, b: int| #[trigger] is_file_id(rest, a, b, id) {
                let (a, b) = choose|a: int, b: int| #[trigger] is_file_id(rest, a, b, id);
                assert(is_file_id(items, a, b, id));
            }
        }
        lemma_run_files(d, last.id, last.files);
        lemma_run_all_add(db, head, file_statements(last.id, last.files));
    }
}

proof fn lemma_files_that_ran(db: Db, item_id: Seq<char>, fs: Seq<FileView>)
    requires
        run_all(db, file_statements(item_id, fs)) is Some,
    ensures
        forall|j: int| 0 <= j < fs.len() ==> !db.files.dom().contains((#[trigger] fs[j]).id),
        forall|a: int, b: int|
            0 <= a < b < fs.len() ==> (#[trigger] fs[a]).id != (#[trigger] fs[b]).id,
    decreases fs.len(),
{
    let st = file_statements(item_id, fs);
    if fs.len() > 0 {
        let rest = fs.drop_last();
        assert(st.drop_last() =~= file_statements(item_id, rest));
        assert(st.last() == StatementView::InsertFile(file_record(item_id, fs.last())));
        lemma_files_that_ran(db, item_id, rest);
        lemma_run_files(db, item_id, rest);
        lemma_put_files(db.files, item_id, rest);
        let m = put_files(db.files, item_id, rest);
        assert(!m.dom().contains(fs.last().id));
        assert forall|j: int| 0 <= j < fs.len() implies !db.files.dom().contains(
            (#[trigger] fs[j]).id,
        ) by {
            if j < rest.len() {
                assert(rest[j] == fs[j]);
            }
        }
        assert forall|a: int, b: int| 0 <= a < b < fs.len() implies (#[trigger] fs[a]).id != (
        #[trigger] fs[b]).id by {
            assert(rest[a] == fs[a]);
            if b < rest.len() {
                assert(rest[b] == fs[b]);
            } else {
                assert(m.dom().contains(rest[a].id));
            }
        }
    }
}

proof fn lemma_items_that_ran(db: Db, job_id: Seq<char>, items: Seq<ItemView>)
    requires
        run_all(db, item_statements(job_id, items)) is Some,
    ensures
        ids_distinct(items),
        ids_free(db, items),
    decreases items.len(),
{
    if items.len() > 0 {
        let rest = items.drop_last();
        let last = items.last();
        let n = items.len() - 1;
        let insert = StatementView::InsertItem(item_record(job_id, last));
        let head = item_statements(job_id, rest).push(insert);
        assert(head.drop_last() =~= item_statements(job_id, rest));
        lemma_run_all_add(db, head, file_statements(last.id, last.files));
        assert(run_all(db, head) is Some);
        lemma_items_that_ran(db, job_id, rest);
        lemma_run_items(db, job_id, rest);
        lemma_put_items_dom(db, job_id, rest);
        let m = put_items(db, job_id, rest);
        assert(!m.items.dom().contains(last.id));
        let d = Db { items: m.items.insert(last.id, stored_item(job_id, last)), ..m };
        assert(run_all(db, head) == Some(d));
        lemma_files_that_ran(d, last.id, last.files);
        assert(ids_free(db, items)) by {
            assert forall|i: int| 0 <= i < items.len() implies !db.items.dom().contains(
                (#[trigger] items[i]).id,
            ) by {
                if i < n {
                    assert(rest[i] == items[i]);
                }
            }
            assert forall|i: int, j: int, id: Seq<char>| #[trigger]
                is_file_id(items, i, j, id) implies !db.files.dom().contains(id) by {
                if i < n {
                    assert(is_file_id(rest, i, j, id));
                } else {
                    assert(last.files[j].id == id);
                    assert(!m.files.dom().contains(id));
                }
            }
        }
        assert forall|i: int, j: int| 0 <= i < j < items.len() implies (#[trigger] items[i]).id != (
        #[trigger] items[j]).id by {
            assert(rest[i] == items[i]);
            if j < n {
                assert(rest[j] == items[j]);
            } else {
                assert(m.items.dom().contains(rest[i].id));
            }
        }
        assert forall|i: int, j: int, k: int, l: int, id: Seq<char>|
            #[trigger] is_file_id(items, i, j, id) && #[trigger] is_file_id(
                items,
                k,
                l,
                id,
            ) implies i == k && j == l by {
            if i < n && k < n {
                assert(is_file_id(rest, i, j, id));
                assert(is_file_id(rest, k, l, id));
            } else if i == n && k == n {
                assert(last.files[j].id == last.files[l].id);
            } else if i < n {
                assert(is_file_id(rest, i, j, id));
                assert(m.files.dom().contains(id));
                assert(last.files[l].id == id);
            } else {
                assert(is_file_id(rest, k, l, id));
                assert(m.files.dom().contains(id));
                assert(last.files[j].id == id);
            }
        }
    }
}

/// The tables without the children of a job.
pub open spec fn without_children(db: Db, job_id: Seq<char>) -> Db {
    Db { items: items_outside(db, job_id), files: files_outside(db, job_id), ..db }
}

proof fn lemma_run_clear(db: Db, job_id: Seq<char>)
    ensures
        run_all(db, clear_children(job_id)) == Some(without_children(db, job_id)),
{
    let st = clear_children(job_id);
    let first = st.drop_last();
    assert(first.drop_last() =~= Seq::<StatementView>::empty());
    assert(run_all(db, first.drop_last()) == Some(db));
    assert(first.last() == StatementView::DeleteFilesOfJob(job_id));
    let d = Db { files: files_outside(db, job_id), ..db };
    assert(run_all(db, first) == Some(d));
    assert(items_outside(d, job_id) =~= items_outside(db, job_id));
}

/// Whether a job can be saved: no two of its items or files have one id, and
/// none has the id of another job's.
pub open spec fn can_save(db: Db, job: JobView) -> bool {
    &&& ids_distinct(job.items)
    &&& forall|i: int|
        0 <= i < job.items.len() && db.items.dom().contains((#[trigger] job.items[i]).id)
            ==> db.items[job.items[i].id].job_id == job.id
    &&& forall|i: int, j: int, id: Seq<char>| #[trigger]
        is_file_id(job.items, i, j, id) && db.files.dom().contains(id) ==> file_in_job(
            db,
            id,
            job.id,
        )
}

/// The tables after a job was saved.
pub open spec fn saved(db: Db, job: JobView) -> Db {
    let d = Db { jobs: db.jobs.insert(job.id, job_record(job)), ..db };
    put_items(without_children(d, job.id), job.id, job.items)
}

/// The tables after a transaction: as the statements leave them, or, where one
/// fails, as they were.
pub open spec fn committed(db: Db, statements: Seq<StatementView>) -> Db {
    match run_all(db, statements) {
        Some(d) => d,
        None => db,
    }
}

/// Saving a job runs through exactly where it can be saved. It then leaves the
/// tables with the job's row replaced and its children rewritten whole; a save that
/// is refused leaves them as they were.
pub proof fn lemma_save_job_runs(db: Db, job: JobView)
    ensures
        run_all(db, save_job_spec(job)) == (if can_save(db, job) {
            Some(saved(db, job))
        } else {
            None
        }),
        !can_save(db, job) ==> committed(db, save_job_spec(job)) == db,
{
    let upsert = seq![StatementView::UpsertJob(job_record(job))];
    let d = Db { jobs: db.jobs.insert(job.id, job_record(job)), ..db };
    assert(upsert.drop_last() =~= Seq::<StatementView>::empty());
    assert(run_all(db, upsert.drop_last()) == Some(db));
    assert(run_all(db, upsert) == Some(d));
    lemma_run_all_add(db, upsert, clear_children(job.id));
    lemma_run_clear(d, job.id);
    let e = without_children(d, job.id);
    lemma_run_all_add(
        db,
        upsert + clear_children(job.id),
        item_statements(job.id, job.items),
    );
    if can_save(db, job) {
        assert(ids_free(e, job.items)) by {
            assert forall|i: int, j: int, id: Seq<char>| #[trigger]
                is_file_id(job.items, i, j, id) implies !e.files.dom().contains(id) by {
                if d.files.dom().contains(id) {
                    assert(file_in_job(db, id, job.id));
                    assert(file_in_job(d, id, job.id));
                }
            }
        }
        lemma_run_items(e, job.id, job.items);
    } else if run_all(e, item_statements(job.id, job.items)) is Some {
        lemma_items_that_ran(e, job.id, job.items);
        assert forall|i: int|
            0 <= i < job.items.len() && db.items.dom().contains(
                (#[trigger] job.items[i]).id,
            ) implies db.items[job.items[i].id].job_id == job.id by {
            assert(!e.items.dom().contains(job.items[i].id));
        }
        assert forall|i: int, j: int, id: Seq<char>| #[trigger]
            is_file_id(job.items, i, j, id) && db.files.dom().contains(id) implies file_in_job(
            db,
            id,
            job.id,
        ) by {
            assert(!e.files.dom().contains(id));
            assert(file_in_job(d, id, job.id));
        }
        assert(can_save(db, job));
    }
}

/// After a job was saved, its rows are exactly its own: the item table holds of
/// the job the items saved and no other, and the file table the files of those
/// items and no other. A shrinking list leaves nothing behind.
pub proof fn lemma_saved_children_exact(db: Db, job: JobView)
    requires
        can_save(db, job),
    ensures
        saved(db, job).jobs == db.jobs.insert(job.id, job_record(job)),
        forall|i: int|
            0 <= i < job.items.len() ==> saved(db, job).items.dom().contains(
                (#[trigger] job.items[i]).id,
            ) && saved(db, job).items[job.items[i].id] == stored_item(job.id, job.items[i]),
        forall|k: Seq<char>| #[trigger]
            saved(db, job).items.dom().contains(k) && saved(db, job).items[k].job_id == job.id
                ==> exists|i: int| 0 <= i < job.items.len() && (#[trigger] job.items[i]).id == k,
        forall|i: int, j: int, id: Seq<char>| #[trigger]
            is_file_id(job.items, i, j, id) ==> saved(db, job).files.dom().contains(id) && saved(
                db,
                job,
            ).files[id] == file_record(job.items[i].id, job.items[i].files[j]),
{
    let d = Db { jobs: db.jobs.insert(job.id, job_record(job)), ..db };
    let e = without_children(d, job.id);
    let s = saved(db, job);
    lemma_put_items_dom(e, job.id, job.items);
    lemma_put_items_keep(e, job.id, job.items);
    assert forall|i: int| 0 <= i < job.items.len() implies s.items.dom().contains(
        (#[trigger] job.items[i]).id,
    ) && s.items[job.items[i].id] == stored_item(job.id, job.items[i]) by {
        lemma_put_items_value(e, job.id, job.items, i);
    }
    assert forall|k: Seq<char>| #[trigger]
        s.items.dom().contains(k) && s.items[k].job_id == job.id implies exists|i: int|
        0 <= i < job.items.len() && (#[trigger] job.items[i]).id == k by {
        if !(exists|i: int| 0 <= i < job.items.len() && (#[trigger] job.items[i]).id == k) {
            assert(s.items[k] == e.items[k]);
        }
    }
    assert forall|i: int, j: int, id: Seq<char>| #[trigger]
        is_file_id(job.items, i, j, id) implies s.files.dom().contains(id) && s.files[id]
        == file_record(job.items[i].id, job.items[i].files[j]) by {
        lemma_put_items_value(e, job.id, job.items, i);
        assert(job.items[i].files[j].id == id);
    }
}

/// Saving a job touches no row of another: other jobs keep their rows, and so
/// do items and files that belong to no item of the job.
pub proof fn lemma_save_keeps_other_jobs(db: Db, job: JobView)
    requires
        can_save(db, job),
    ensures
        forall|k: Seq<char>|
            k != job.id ==> (#[trigger] saved(db, job).jobs.dom().contains(k)
                <==> db.jobs.dom().contains(k)) && saved(db, job).jobs[k] == db.jobs[k],
        forall|k: Seq<char>| #[trigger]
            db.items.dom().contains(k) && db.items[k].job_id != job.id ==> saved(
                db,
                job,
            ).items.dom().contains(k) && saved(db, job).items[k] == db.items[k],
        forall|k: Seq<char>| #[trigger]
            db.files.dom().contains(k) && !file_in_job(db, k, job.id) ==> saved(
                db,
                job,
            ).files.dom().contains(k) && saved(db, job).files[k] == db.files[k],
        saved(db, job).presets == db.presets,
        saved(db, job).settings == db.settings,
{
    let d = Db { jobs: db.jobs.insert(job.id, job_record(job)), ..db };
    let e = without_children(d, job.id);
    let s = saved(db, job);
    lemma_put_items_dom(e, job.id, job.items);
    lemma_put_items_keep(e, job.id, job.items);
    assert forall|k: Seq<char>| #[trigger]
        db.items.dom().contains(k) && db.items[k].job_id != job.id implies s.items.dom().contains(k)
        && s.items[k] == db.items[k] by {
        assert(e.items.dom().contains(k));
        assert forall|i: int| 0 <= i < job.items.len() implies (#[trigger] job.items[i]).id != k by {
            if job.items[i].id == k {
                assert(db.items.dom().contains(job.items[i].id));
            }
        }
        assert(s.items[k] == e.items[k]);
    }
    assert forall|k: Seq<char>| #[trigger]
        db.files.dom().contains(k) && !file_in_job(db, k, job.id) implies s.files.dom().contains(k)
        && s.files[k] == db.files[k] by {
        assert(!file_in_job(d, k, job.id));
        assert(e.files.dom().contains(k));
        assert forall|i: int, j: int| !#[trigger] is_file_id(job.items, i, j, k) by {
        }
        assert(s.files[k] == e.files[k]);
    }
}

// ---------------------------------------------------------------------------
// Integrity
// ---------------------------------------------------------------------------

/// Whether every item belongs to a job and every file to an item.
pub open spec fn consistent(db: Db) -> bool {
    &&& forall|k: Seq<char>| #[trigger]
        db.items.dom().contains(k) ==> db.jobs.dom().contains(db.items[k].job_id)
    &&& forall|k: Seq<char>| #[trigger]
        db.files.dom().contains(k) ==> db.items.dom().contains(db.files[k].item_id)
}

/// Saving a job leaves no orphan.
pub proof fn lemma_save_keeps_integrity(db: Db, job: JobView)
    requires
        consistent(db),
        can_save(db, job),
    ensures
        consistent(saved(db, job)),
{
    let d = Db { jobs: db.jobs.insert(job.id, job_record(job)), ..db };
    let e = without_children(d, job.id);
    let s = saved(db, job);
    lemma_put_items_dom(e, job.id, job.items);
    lemma_put_items_keep(e, job.id, job.items);
    lemma_saved_children_exact(db, job);
    lemma_save_keeps_other_jobs(db, job);
    assert forall|k: Seq<char>| #[trigger] s.items.dom().contains(k) implies s.jobs.dom().contains(
        s.items[k].job_id,
    ) by {
        if exists|i: int| 0 <= i < job.items.len() && (#[trigger] job.items[i]).id == k {
            let i = choose|i: int| 0 <= i < job.items.len() && (#[trigger] job.items[i]).id == k;
            assert(s.items[job.items[i].id] == stored_item(job.id, job.items[i]));
        } else {
            assert(s.items[k] == e.items[k]);
            assert(e.items.dom().contains(k));
            assert(db.items.dom().contains(k));
        }
    }
    assert forall|k: Seq<char>| #[trigger] s.files.dom().contains(k) implies s.items.dom().contains(
        s.files[k].item_id,
    ) by {
        if exists|i: int, j: int| #[trigger] is_file_id(job.items, i, j, k) {
            let (i, j) = choose|i: int, j: int| #[trigger] is_file_id(job.items, i, j, k);
            assert(s.files[k] == file_record(job.items[i].id, job.items[i].files[j]));
            assert(s.items.dom().contains(job.items[i].id));
        } else {
            assert(s.files[k] == e.files[k]);
            assert(e.files.dom().contains(k));
            assert(db.files.dom().contains(k));
            let item = db.files[k].item_id;
            assert(db.items.dom().contains(item));
            assert(!file_in_job(d, k, job.id));
            assert(db.items[item].job_id != job.id);
            assert(s.items.dom().contains(item));
        }
    }
}

/// The tables after a job was deleted.
pub open spec fn deleted(db: Db, job_id: Seq<char>) -> Db {
    let d = without_children(db, job_id);
    Db { jobs: d.jobs.remove(job_id), ..d }
}

/// Deleting a job takes away its row, its items and their files, keeps every
/// other row, and leaves no orphan.
pub proof fn lemma_delete_job(db: Db, job_id: Seq<char>)
    ensures
        run_all(db, delete_job_spec(job_id)) == Some(deleted(db, job_id)),
        !deleted(db, job_id).jobs.dom().contains(job_id),
        forall|k: Seq<char>| #[trigger]
            deleted(db, job_id).items.dom().contains(k) <==> db.items.dom().contains(k)
                && db.items[k].job_id != job_id,
        forall|k: Seq<char>| #[trigger]
            deleted(db, job_id).files.dom().contains(k) <==> db.files.dom().contains(k)
                && !file_in_job(db, k, job_id),
        forall|k: Seq<char>|
            k != job_id ==> (#[trigger] deleted(db, job_id).jobs.dom().contains(k)
                <==> db.jobs.dom().contains(k)),
        consistent(db) ==> consistent(deleted(db, job_id)),
{
    lemma_run_clear(db, job_id);
    let last = seq![StatementView::DeleteJob(job_id)];
    lemma_run_all_add(db, clear_children(job_id), last);
    let d = without_children(db, job_id);
    assert(last.drop_last() =~= Seq::<StatementView>::empty());
    assert(run_all(d, last.drop_last()) == Some(d));
    assert(run_all(d, last) == Some(deleted(db, job_id)));
    if consistent(db) {
        let e = deleted(db, job_id);
        assert forall|k: Seq<char>| #[trigger]
            e.items.dom().contains(k) implies e.jobs.dom().contains(e.items[k].job_id) by {
            assert(db.items.dom().contains(k));
        }
        assert forall|k: Seq<char>| #[trigger]
            e.files.dom().contains(k) implies e.items.dom().contains(e.files[k].item_id) by {
            assert(db.files.dom().contains(k));
            assert(!file_in_job(db, k, job_id));
        }
    }
}

// ---------------------------------------------------------------------------
// Reading back
// ---------------------------------------------------------------------------

/// Whether `ids` answers the query for the items of a job: each of them once,
/// by index.
pub open spec fn item_answer(db: Db, job_id: Seq<char>, ids: Seq<Seq<char>>) -> bool {
    &&& ids.no_duplicates()
    &&& forall|k: Seq<char>| #[trigger]
        ids.contains(k) <==> db.items.dom().contains(k) && db.items[k].job_id == job_id
    &&& forall|a: int, b: int|
        0 <= a < b < ids.len() ==> db.items[#[trigger] ids[a]].idx <= db.items[#[trigger] ids[b]].idx
}

/// Whether `ids` answers the query for the files of an item: each of them once,
/// by id.
pub open spec fn file_answer(db: Db, item_id: Seq<char>, ids: Seq<Seq<char>>) -> bool {
    &&& ids.no_duplicates()
    &&& forall|k: Seq<char>| #[trigger]
        ids.contains(k) <==> db.files.dom().contains(k) && db.files[k].item_id == item_id
    &&& forall|a: int, b: int|
        0 <= a < b < ids.len() ==> before(#[trigger] ids[a], #[trigger] ids[b])
}

/// Whether the columns hold the row.
pub open spec fn holds_file(c: FileColumns, r: FileRecord) -> bool {
    &&& opt(c.id) == Some(r.id)
    &&& opt(c.path) == Some(r.path)
    &&& opt(c.kind) == Some(r.kind)
    &&& opt(c.format_id) == r.format_id
    &&& c.bytes == r.bytes
}

/// The ids of rows of files.
pub open spec fn file_ids(rows: Seq<FileColumns>) -> Seq<Seq<char>> {
    Seq::new(rows.len(), |i: int| text_column(rows[i].id))
}

/// Whether the columns hold the item's row, and the rows of its files those
/// that the query for them gives.
pub open spec fn reads_item(db: Db, item_id: Seq<char>, c: ItemColumns) -> bool {
    let r = db.items[item_id];
    &&& opt(c.id) == Some(item_id)
    &&& c.idx == Some(r.idx)
    &&& opt(c.title) == Some(r.title)
    &&& c.duration == r.duration
    &&& opt(c.thumb_path) == r.thumb_path
    &&& opt(c.webpage_url) == Some(r.webpage_url)
    &&& file_answer(db, item_id, file_ids(c.files@))
    &&& forall|j: int|
        0 <= j < c.files@.len() ==> holds_file(
            #[trigger] c.files@[j],
            db.files[text_column(c.files@[j].id)],
        )
}

/// The ids of rows of items.
pub open spec fn item_ids(rows: Seq<ItemColumns>) -> Seq<Seq<char>> {
    Seq::new(rows.len(), |i: int| text_column(rows[i].id))
}

/// Whether the columns hold the job's row, and the rows of its items those that
/// the query for them gives.
pub open spec fn reads_job(db: Db, job_id: Seq<char>, c: JobColumns) -> bool {
    let r = db.jobs[job_id];
    &&& opt(c.id) == Some(r.id)
    &&& opt(c.kind) == Some(r.kind)
    &&& opt(c.url) == Some(r.url)
    &&& opt(c.title) == Some(r.title)
    &&& opt(c.preset) == Some(r.preset)
    &&& opt(c.state) == Some(r.state)
    &&& opt(c.error) == r.error
    &&& c.created_at == Some(r.created_at)
    &&& item_answer(db, job_id, item_ids(c.items@))
    &&& forall|i: int|
        0 <= i < c.items@.len() ==> reads_item(
            db,
            text_column((#[trigger] c.items@[i]).id),
            c.items@[i],
        )
}

/// Two sequences of the same elements, without repetition, one in a strict
/// order and the other never against it, are equal.
proof fn lemma_same_order<K>(a: Seq<K>, b: Seq<K>, less: spec_fn(K, K) -> bool)
    requires
        a.no_duplicates(),
        b.no_duplicates(),
        forall|k: K| #[trigger] a.contains(k) <==> b.contains(k),
        forall|i: int, j: int| 0 <= i < j < b.len() ==> less(#[trigger] b[i], #[trigger] b[j]),
        forall|i: int, j: int| 0 <= i < j < a.len() ==> !less(#[trigger] a[j], #[trigger] a[i]),
    ensures
        a == b,
{
    a.unique_seq_to_set();
    b.unique_seq_to_set();
    assert(a.to_set() =~= b.to_set()) by {
        assert forall|k: K| a.to_set().contains(k) <==> b.to_set().contains(k) by {
            assert(a.contains(k) <==> b.contains(k));
        }
    }
    assert(a.len() == b.len());
    lemma_same_order_prefix(a, b, less, a.len() as int);
    assert(a =~= b);
}

proof fn lemma_same_order_prefix<K>(
    a: Seq<K>,
    b: Seq<K>,
    less: spec_fn(K, K) -> bool,
    n: int,
)
    requires
        a.no_duplicates(),
        b.no_duplicates(),
        a.len() == b.len(),
        0 <= n <= a.len(),
        forall|k: K| #[trigger] a.contains(k) <==> b.contains(k),
        forall|i: int, j: int| 0 <= i < j < b.len() ==> less(#[trigger] b[i], #[trigger] b[j]),
        forall|i: int, j: int| 0 <= i < j < a.len() ==> !less(#[trigger] a[j], #[trigger] a[i]),
    ensures
        forall|i: int| 0 <= i < n ==> #[trigger] a[i] == b[i],
    decreases n,
{
    if n > 0 {
        let i = n - 1;
        lemma_same_order_prefix(a, b, less, i);
        assert(a.contains(a[i]));
        assert(b.contains(a[i]));
        let p = choose|p: int| 0 <= p < b.len() && b[p] == a[i];
        assert(b.contains(b[i]));
        assert(a.contains(b[i]));
        let q = choose|q: int| 0 <= q < a.len() && a[q] == b[i];
        if p < i {
            assert(a[p] == b[p]);
        }
        if q < i {
            assert(a[q] == b[q]);
        }
        if p > i {
            assert(less(b[i], b[p]));
            assert(q > i);
            assert(!less(a[q], a[i]));
        }
    }
}

/// Whether the items are in strict order of index, and the files of each in
/// strict order of id.
pub open spec fn in_stored_order(items: Seq<ItemView>) -> bool {
    &&& forall|i: int, j: int|
        0 <= i < j < items.len() ==> (#[trigger] items[i]).index < (#[trigger] items[j]).index
    &&& forall|i: int, j: int, k: int|
        0 <= i < items.len() && 0 <= j < k < items[i].files.len() ==> before(
            (#[trigger] items[i].files[j]).id,
            (#[trigger] items[i].files[k]).id,
        )
}

/// Whether every length that is known is a number, and no zero with a sign.
pub open spec fn lengths_are_numbers(items: Seq<ItemView>) -> bool {
    forall|i: int|
        0 <= i < items.len() ==> kept_number((#[trigger] items[i]).duration) == items[i].duration
}

spec fn ids_of_items(items: Seq<ItemView>) -> Seq<Seq<char>> {
    Seq::new(items.len(), |i: int| items[i].id)
}

spec fn ids_of_files(files: Seq<FileView>) -> Seq<Seq<char>> {
    Seq::new(files.len(), |i: int| files[i].id)
}

proof fn lemma_files_read_back(db: Db, job: JobView, i: int, ids: Seq<Seq<char>>)
    requires
        consistent(db),
        can_save(db, job),
        in_stored_order(job.items),
        0 <= i < job.items.len(),
        file_answer(saved(db, job), job.items[i].id, ids),
    ensures
        ids == ids_of_files(job.items[i].files),
{
    let s = saved(db, job);
    let item = job.items[i];
    let want = ids_of_files(item.files);
    let less = |x: Seq<char>, y: Seq<char>| before(x, y);
    lemma_saved_children_exact(db, job);
    let d = Db { jobs: db.jobs.insert(job.id, job_record(job)), ..db };
    let e = without_children(d, job.id);
    lemma_put_items_dom(e, job.id, job.items);
    lemma_put_items_keep(e, job.id, job.items);
    assert forall|a: int, b: int| 0 <= a < b < want.len() implies less(
        #[trigger] want[a],
        #[trigger] want[b],
    ) by {
        assert(before(item.files[a].id, item.files[b].id));
    }
    assert(want.no_duplicates()) by {
        assert forall|a: int, b: int| 0 <= a < want.len() && 0 <= b < want.len() && a
            != b implies want[a] != want[b] by {
            if a < b {
                assert(before(item.files[a].id, item.files[b].id));
            } else {
                assert(before(item.files[b].id, item.files[a].id));
            }
            crate::text::lemma_before_total(want[a], want[b]);
        }
    }
    assert forall|k: Seq<char>| #[trigger] ids.contains(k) <==> want.contains(k) by {
        if want.contains(k) {
            let j = choose|j: int| 0 <= j < want.len() && want[j] == k;
            assert(is_file_id(job.items, i, j, k));
            assert(s.files[k] == file_record(item.id, item.files[j]));
        }
        if ids.contains(k) {
            assert(s.files.dom().contains(k) && s.files[k].item_id == item.id);
            if exists|a: int, b: int| #[trigger] is_file_id(job.items, a, b, k) {
                let (a, b) = choose|a: int, b: int| #[trigger] is_file_id(job.items, a, b, k);
                assert(s.files[k] == file_record(job.items[a].id, job.items[a].files[b]));
                assert(a == i);
                assert(want[b] == k);
            } else {
                assert(s.files[k] == e.files[k]);
                assert(e.files.dom().contains(k));
                assert(db.files.dom().contains(k));
                assert(db.items.dom().contains(item.id));
                assert(!file_in_job(d, k, job.id));
                assert(db.items[job.items[i].id].job_id == job.id);
            }
        }
    }
    assert forall|a: int, b: int| 0 <= a < b < ids.len() implies !less(
        #[trigger] ids[b],
        #[trigger] ids[a],
    ) by {
        assert(before(ids[a], ids[b]));
        crate::text::lemma_before_total(ids[a], ids[b]);
    }
    lemma_same_order(ids, want, less);
}

proof fn lemma_items_read_back(db: Db, job: JobView, ids: Seq<Seq<char>>)
    requires
        can_save(db, job),
        in_stored_order(job.items),
        item_answer(saved(db, job), job.id, ids),
    ensures
        ids == ids_of_items(job.items),
{
    let s = saved(db, job);
    let want = ids_of_items(job.items);
    let less = |x: Seq<char>, y: Seq<char>| s.items[x].idx < s.items[y].idx;
    lemma_saved_children_exact(db, job);
    assert forall|a: int, b: int| 0 <= a < b < want.len() implies less(
        #[trigger] want[a],
        #[trigger] want[b],
    ) by {
        assert(s.items[job.items[a].id] == stored_item(job.id, job.items[a]));
        assert(s.items[job.items[b].id] == stored_item(job.id, job.items[b]));
    }
    assert(want.no_duplicates()) by {
        assert forall|a: int, b: int| 0 <= a < want.len() && 0 <= b < want.len() && a
            != b implies want[a] != want[b] by {
            if a < b {
                assert(job.items[a].id != job.items[b].id);
            } else {
                assert(job.items[b].id != job.items[a].id);
            }
        }
    }
    assert forall|k: Seq<char>| #[trigger] ids.contains(k) <==> want.contains(k) by {
        if want.contains(k) {
            let i = choose|i: int| 0 <= i < want.len() && want[i] == k;
            assert(s.items[job.items[i].id] == stored_item(job.id, job.items[i]));
        }
        if ids.contains(k) {
            assert(s.items.dom().contains(k) && s.items[k].job_id == job.id);
            let i = choose|i: int| 0 <= i < job.items.len() && (#[trigger] job.items[i]).id == k;
            assert(want[i] == k);
        }
    }
    assert forall|a: int, b: int| 0 <= a < b < ids.len() implies !less(
        #[trigger] ids[b],
        #[trigger] ids[a],
    ) by {
        assert(s.items[ids[a]].idx <= s.items[ids[b]].idx);
    }
    lemma_same_order(ids, want, less);
}

/// What was saved is what is read: whatever rows the queries give for a job
/// that was just saved, they stand for that very job.
pub proof fn lemma_job_round_trip(db: Db, job: JobView, c: JobColumns)
    requires
        consistent(db),
        can_save(db, job),
        in_stored_order(job.items),
        lengths_are_numbers(job.items),
        reads_job(saved(db, job), job.id, c),
    ensures
        job_of(c) == job,
{
    let s = saved(db, job);
    lemma_saved_children_exact(db, job);
    lemma_state_round_trip(job.state);
    lemma_job_kind_round_trip(job.kind);
    lemma_items_read_back(db, job, item_ids(c.items@));
    assert(item_ids(c.items@).len() == job.items.len());
    assert forall|i: int| 0 <= i < job.items.len() implies item_of(c.items@[i])
        == #[trigger] job.items[i] by {
        let row = c.items@[i];
        let item = job.items[i];
        assert(item_ids(c.items@)[i] == ids_of_items(job.items)[i]);
        assert(text_column(row.id) == item.id);
        assert(reads_item(s, text_column(row.id), row));
        assert(s.items[item.id] == stored_item(job.id, item));
        lemma_files_read_back(db, job, i, file_ids(row.files@));
        assert(file_ids(row.files@).len() == item.files.len());
        assert forall|j: int| 0 <= j < item.files.len() implies file_of(row.files@[j])
            == #[trigger] item.files[j] by {
            let file = item.files[j];
            assert(file_ids(row.files@)[j] == ids_of_files(item.files)[j]);
            assert(text_column(row.files@[j].id) == file.id);
            assert(is_file_id(job.items, i, j, file.id));
            assert(holds_file(row.files@[j], s.files[file.id]));
            lemma_file_kind_round_trip(file.kind);
            assert(file_of(row.files@[j]) =~= file);
        }
        assert(item_of(row).files =~= item.files);
        assert(item_of(row) =~= item);
    }
    assert(job_of(c).items =~= job.items);
    assert(job_of(c) =~= job);
}

/// Saving a job again changes nothing.
pub proof fn lemma_resaving_is_idempotent(db: Db, job: JobView)
    requires
        consistent(db),
        can_save(db, job),
    ensures
        can_save(saved(db, job), job),
        saved(saved(db, job), job) == saved(db, job),
{
    let s = saved(db, job);
    let d = Db { jobs: db.jobs.insert(job.id, job_record(job)), ..db };
    let e = without_children(d, job.id);
    lemma_saved_children_exact(db, job);
    lemma_save_keeps_other_jobs(db, job);
    lemma_put_items_dom(e, job.id, job.items);
    lemma_put_items_keep(e, job.id, job.items);
    assert(can_save(s, job)) by {
        assert forall|i: int, j: int, id: Seq<char>| #[trigger]
            is_file_id(job.items, i, j, id) && s.files.dom().contains(id) implies file_in_job(
            s,
            id,
            job.id,
        ) by {
            assert(s.files[id] == file_record(job.items[i].id, job.items[i].files[j]));
            assert(s.items[job.items[i].id] == stored_item(job.id, job.items[i]));
        }
    }
    let d2 = Db { jobs: s.jobs.insert(job.id, job_record(job)), ..s };
    assert(d2.jobs =~= s.jobs);
    let e2 = without_children(d2, job.id);
    assert(e2.items =~= e.items) by {
        assert forall|k: Seq<char>| e2.items.dom().contains(k) <==> e.items.dom().contains(k) by {
            if e.items.dom().contains(k) {
                assert(db.items.dom().contains(k));
            }
            if s.items.dom().contains(k) && s.items[k].job_id != job.id {
                if exists|i: int| 0 <= i < job.items.len() && (#[trigger] job.items[i]).id == k {
                    let i = choose|i: int|
                        0 <= i < job.items.len() && (#[trigger] job.items[i]).id == k;
                    assert(s.items[job.items[i].id] == stored_item(job.id, job.items[i]));
                }
            }
        }
        assert forall|k: Seq<char>| #[trigger] e2.items.dom().contains(k) implies e2.items[k]
            == e.items[k] by {
            assert(db.items.dom().contains(k));
        }
    }
    assert(e2.files =~= e.files) by {
        assert forall|k: Seq<char>| e2.files.dom().contains(k) <==> e.files.dom().contains(k) by {
            if e.files.dom().contains(k) {
                assert(db.files.dom().contains(k));
                assert(!file_in_job(d, k, job.id));
                assert(!file_in_job(db, k, job.id));
                let item = db.files[k].item_id;
                assert(db.items.dom().contains(item));
                assert(s.items[item] == db.items[item]);
                assert(s.files[k] == db.files[k]);
                assert(!file_in_job(d2, k, job.id));
            }
            if s.files.dom().contains(k) && !e.files.dom().contains(k) {
                let (i, j) = choose|i: int, j: int| #[trigger] is_file_id(job.items, i, j, k);
                assert(s.files[k] == file_record(job.items[i].id, job.items[i].files[j]));
                assert(s.items[job.items[i].id] == stored_item(job.id, job.items[i]));
                assert(file_in_job(d2, k, job.id));
            }
        }
        assert forall|k: Seq<char>| #[trigger] e2.files.dom().contains(k) implies e2.files[k]
            == e.files[k] by {
            assert(e.files.dom().contains(k));
            assert(db.files.dom().contains(k));
            assert(!file_in_job(d, k, job.id));
            assert(!file_in_job(db, k, job.id));
        }
    }
    assert(e2 =~= e);
}

/// Whether a job, its items and their files are alike in two databases.
pub open spec fn alike(a: Db, b: Db, job_id: Seq<char>) -> bool {
    &&& a.jobs.dom().contains(job_id) <==> b.jobs.dom().contains(job_id)
    &&& a.jobs[job_id] == b.jobs[job_id]
    &&& forall|x: Seq<char>| #[trigger]
        a.items.dom().contains(x) && a.items[x].job_id == job_id ==> b.items.dom().contains(x)
            && b.items[x] == a.items[x]
    &&& forall|x: Seq<char>| #[trigger]
        b.items.dom().contains(x) && b.items[x].job_id == job_id ==> a.items.dom().contains(x)
            && a.items[x] == b.items[x]
    &&& forall|f: Seq<char>| #[trigger]
        a.files.dom().contains(f) && file_in_job(a, f, job_id) ==> b.files.dom().contains(f)
            && b.files[f] == a.files[f]
    &&& forall|f: Seq<char>| #[trigger]
        b.files.dom().contains(f) && file_in_job(b, f, job_id) ==> a.files.dom().contains(f)
            && a.files[f] == b.files[f]
}

/// Saving a job leaves every other one as it was.
pub proof fn lemma_save_leaves_others_alike(db: Db, job: JobView, other: Seq<char>)
    requires
        can_save(db, job),
        other != job.id,
    ensures
        alike(db, saved(db, job), other),
{
    let d = Db { jobs: db.jobs.insert(job.id, job_record(job)), ..db };
    let e = without_children(d, job.id);
    let s = saved(db, job);
    lemma_saved_children_exact(db, job);
    lemma_save_keeps_other_jobs(db, job);
    lemma_put_items_dom(e, job.id, job.items);
    lemma_put_items_keep(e, job.id, job.items);
    assert(s.jobs.dom().contains(other) <==> db.jobs.dom().contains(other));
    assert forall|x: Seq<char>| #[trigger]
        s.items.dom().contains(x) && s.items[x].job_id == other implies db.items.dom().contains(x)
        && db.items[x] == s.items[x] by {
        if exists|i: int| 0 <= i < job.items.len() && (#[trigger] job.items[i]).id == x {
            let i = choose|i: int| 0 <= i < job.items.len() && (#[trigger] job.items[i]).id == x;
            assert(s.items[job.items[i].id] == stored_item(job.id, job.items[i]));
        } else {
            assert(s.items[x] == e.items[x]);
            assert(e.items.dom().contains(x));
        }
    }
    assert forall|f: Seq<char>| #[trigger]
        s.files.dom().contains(f) && file_in_job(s, f, other) implies db.files.dom().contains(f)
        && db.files[f] == s.files[f] by {
        if exists|i: int, j: int| #[trigger] is_file_id(job.items, i, j, f) {
            let (i, j) = choose|i: int, j: int| #[trigger] is_file_id(job.items, i, j, f);
            assert(s.files[f] == file_record(job.items[i].id, job.items[i].files[j]));
            assert(s.items[job.items[i].id] == stored_item(job.id, job.items[i]));
        } else {
            assert(s.files[f] == e.files[f]);
            assert(e.files.dom().contains(f));
        }
    }
    assert forall|f: Seq<char>| #[trigger]
        db.files.dom().contains(f) && file_in_job(db, f, other) implies s.files.dom().contains(f)
        && s.files[f] == db.files[f] by {
        assert(!file_in_job(db, f, job.id));
    }
}

/// Where a job is alike in two databases, the rows that one gives for it are rows
/// that the other gives.
pub proof fn lemma_alike_is_read_alike(a: Db, b: Db, job_id: Seq<char>, c: JobColumns)
    requires
        alike(a, b, job_id),
        reads_job(a, job_id, c),
    ensures
        reads_job(b, job_id, c),
{
    let ids = item_ids(c.items@);
    assert(item_answer(b, job_id, ids)) by {
        assert forall|k: Seq<char>| #[trigger] ids.contains(k) <==> b.items.dom().contains(k)
            && b.items[k].job_id == job_id by {
            if ids.contains(k) {
                assert(a.items.dom().contains(k));
            }
        }
        assert forall|x: int, y: int| 0 <= x < y < ids.len() implies b.items[#[trigger] ids[x]].idx
            <= b.items[#[trigger] ids[y]].idx by {
            assert(ids.contains(ids[x]));
            assert(ids.contains(ids[y]));
            assert(a.items.dom().contains(ids[x]));
            assert(a.items.dom().contains(ids[y]));
        }
    }
    assert forall|i: int| 0 <= i < c.items@.len() implies reads_item(
        b,
        text_column((#[trigger] c.items@[i]).id),
        c.items@[i],
    ) by {
        let row = c.items@[i];
        let item = text_column(row.id);
        assert(ids[i] == item);
        assert(ids.contains(item));
        assert(a.items.dom().contains(item) && a.items[item].job_id == job_id);
        assert(reads_item(a, item, row));
        let files = file_ids(row.files@);
        assert forall|k: Seq<char>| #[trigger] files.contains(k) <==> b.files.dom().contains(k)
            && b.files[k].item_id == item by {
            if files.contains(k) {
                assert(a.files.dom().contains(k) && a.files[k].item_id == item);
                assert(file_in_job(a, k, job_id));
            }
            if b.files.dom().contains(k) && b.files[k].item_id == item {
                assert(file_in_job(b, k, job_id));
                assert(a.files.dom().contains(k));
            }
        }
        assert(file_answer(b, item, files));
        assert forall|j: int| 0 <= j < row.files@.len() implies holds_file(
            #[trigger] row.files@[j],
            b.files[text_column(row.files@[j].id)],
        ) by {
            let f = text_column(row.files@[j].id);
            assert(files[j] == f);
            assert(files.contains(f));
            assert(a.files.dom().contains(f) && a.files[f].item_id == item);
            assert(file_in_job(a, f, job_id));
        }
    }
}

/// The ids of rows of jobs.
pub open spec fn job_ids(rows: Seq<JobColumns>) -> Seq<Seq<char>> {
    Seq::new(rows.len(), |i: int| text_column(rows[i].id))
}

/// Whether one job comes before another: the newer one first, and of two of one
/// time the one with the greater id.
pub open spec fn comes_first(a: JobRecord, b: JobRecord) -> bool {
    a.created_at > b.created_at || (a.created_at == b.created_at && before(b.id, a.id))
}

/// Whether rows answer the query for all jobs: each of them once, newest first,
/// with the rows of its items.
pub open spec fn reads_jobs(db: Db, rows: Seq<JobColumns>) -> bool {
    &&& job_ids(rows).no_duplicates()
    &&& forall|k: Seq<char>| #[trigger] job_ids(rows).contains(k) <==> db.jobs.dom().contains(k)
    &&& forall|a: int, b: int|
        0 <= a < b < rows.len() ==> comes_first(
            db.jobs[#[trigger] job_ids(rows)[a]],
            db.jobs[#[trigger] job_ids(rows)[b]],
        )
    &&& forall|i: int|
        0 <= i < rows.len() ==> reads_job(db, text_column((#[trigger] rows[i]).id), rows[i])
}

/// Whether jobs hold one of an id exactly once.
pub open spec fn holds_once(jobs: Seq<JobView>, job: JobView) -> bool {
    &&& jobs.contains(job)
    &&& forall|i: int| 0 <= i < jobs.len() && (#[trigger] jobs[i]).id == job.id ==> jobs[i] == job
    &&& forall|i: int, j: int|
        0 <= i < jobs.len() && 0 <= j < jobs.len() && (#[trigger] jobs[i]).id == job.id && (
        #[trigger] jobs[j]).id == job.id ==> i == j
}

/// Whatever a save does: where it succeeds, loading gives the job once, as it was
/// saved, every other job is as it was, and saving it again changes nothing; where
/// it is refused, nothing has changed.
pub proof fn lemma_save_then_load(db: Db, job: JobView, rows: Seq<JobColumns>)
    requires
        consistent(db),
        in_stored_order(job.items),
        lengths_are_numbers(job.items),
        reads_jobs(committed(db, save_job_spec(job)), rows),
    ensures
        match run_all(db, save_job_spec(job)) {
            Some(after) => {
                &&& committed(db, save_job_spec(job)) == after
                &&& consistent(after)
                &&& holds_once(Seq::new(rows.len(), |i: int| job_of(rows[i])), job)
                &&& forall|k: Seq<char>| k != job.id ==> #[trigger] alike(db, after, k)
                &&& run_all(after, save_job_spec(job)) == Some(after)
            },
            None => committed(db, save_job_spec(job)) == db,
        },
{
    lemma_save_job_runs(db, job);
    if can_save(db, job) {
        let after = saved(db, job);
        let jobs = Seq::new(rows.len(), |i: int| job_of(rows[i]));
        lemma_save_keeps_integrity(db, job);
        lemma_saved_children_exact(db, job);
        lemma_resaving_is_idempotent(db, job);
        lemma_save_job_runs(after, job);
        assert forall|k: Seq<char>| k != job.id implies #[trigger] alike(db, after, k) by {
            lemma_save_leaves_others_alike(db, job, k);
        }
        let ids = job_ids(rows);
        assert(after.jobs.dom().contains(job.id));
        assert(ids.contains(job.id));
        let at = choose|at: int| 0 <= at < ids.len() && ids[at] == job.id;
        assert forall|i: int| 0 <= i < jobs.len() && (#[trigger] jobs[i]).id == job.id implies i
            == at && jobs[i] == job by {
            assert(ids[i] == job.id);
            assert(reads_job(after, text_column(rows[i].id), rows[i]));
            lemma_job_round_trip(db, job, rows[i]);
        }
        assert(text_column(rows[at].id) == job.id);
        assert(jobs[at].id == job.id);
        assert(jobs[at] == job);
    }
}

// ---------------------------------------------------------------------------
// Presets and settings
// ---------------------------------------------------------------------------

/// Whether at most one preset is the default.
pub open spec fn one_default(presets: Map<Seq<char>, PresetRecord>) -> bool {
    forall|a: Seq<char>, b: Seq<char>| #[trigger]
        presets.dom().contains(a) && #[trigger] presets.dom().contains(b) && presets[a].is_default
            && presets[b].is_default ==> a == b
}

/// Saving a preset stores it under its name and keeps every other's options; a
/// default one demotes the previous default, and is then the only one.
pub proof fn lemma_save_preset(db: Db, name: Seq<char>, is_default: bool, json: Seq<char>)
    ensures
        ({
            let after = run_all(db, save_preset_spec(name, is_default, json));
            &&& after is Some
            &&& after->0.presets.dom() == db.presets.dom().insert(name)
            &&& after->0.presets[name] == (PresetRecord { name, is_default, options_json: json })
            &&& forall|k: Seq<char>|
                k != name && db.presets.dom().contains(k) ==> (
                #[trigger] after->0.presets[k]).options_json == db.presets[k].options_json
                    && after->0.presets[k].is_default == (db.presets[k].is_default && !is_default)
            &&& is_default || one_default(db.presets) ==> one_default(after->0.presets)
            &&& after->0.jobs == db.jobs
            &&& after->0.settings == db.settings
        }),
{
    let rec = PresetRecord { name, is_default, options_json: json };
    let st = save_preset_spec(name, is_default, json);
    let d = Db { presets: db.presets.insert(name, rec), ..db };
    let first = seq![StatementView::UpsertPreset(rec)];
    assert(first.drop_last() =~= Seq::<StatementView>::empty());
    assert(run_all(db, first.drop_last()) == Some(db));
    assert(run_all(db, first) == Some(d));
    if is_default {
        assert(st.drop_last() =~= first);
        let after = Db { presets: with_defaults_cleared(d.presets, name), ..d };
        assert(run_all(db, st) == Some(after));
        assert(after.presets.dom() =~= db.presets.dom().insert(name));
    } else {
        assert(st =~= first);
        assert(d.presets.dom() =~= db.presets.dom().insert(name));
    }
}

/// The names of rows of presets.
pub open spec fn preset_names(rows: Seq<PresetColumns>) -> Seq<Seq<char>> {
    Seq::new(rows.len(), |i: int| text_column(rows[i].name))
}

/// Whether the columns hold the row. `read` is what a text of options is read as.
pub open spec fn holds_preset(
    c: PresetColumns,
    r: PresetRecord,
    read: spec_fn(Seq<char>) -> Option<OptionsView>,
) -> bool {
    &&& opt(c.name) == Some(r.name)
    &&& c.is_default == Some(
        if r.is_default {
            1i64
        } else {
            0i64
        },
    )
    &&& opt(c.options) == read(r.options_json)
}

/// Whether rows answer the query for all presets: each of them once, by name.
pub open spec fn reads_presets(
    db: Db,
    read: spec_fn(Seq<char>) -> Option<OptionsView>,
    rows: Seq<PresetColumns>,
) -> bool {
    &&& forall|k: Seq<char>| #[trigger]
        preset_names(rows).contains(k) <==> db.presets.dom().contains(k)
    &&& forall|a: int, b: int|
        0 <= a < b < rows.len() ==> before(
            #[trigger] preset_names(rows)[a],
            #[trigger] preset_names(rows)[b],
        )
    &&& forall|i: int|
        0 <= i < rows.len() ==> holds_preset(
            #[trigger] rows[i],
            db.presets[text_column(rows[i].name)],
            read,
        )
}

/// The presets that rows stand for.
pub open spec fn presets_of(rows: Seq<PresetColumns>) -> Seq<PresetView> {
    Seq::new(rows.len(), |i: int| preset_of(rows[i]))
}

/// Whether presets hold one like another, but that it is only the default where
/// nothing else became it.
pub open spec fn holds_like(presets: Seq<PresetView>, p: PresetView, replaced: bool) -> bool {
    exists|i: int|
        0 <= i < presets.len() && (#[trigger] presets[i]).name == p.name && presets[i].options
            == p.options && presets[i].is_default == (p.is_default && !replaced)
}

/// Loading after a preset was saved gives that preset once, as it was saved, and
/// the others of before, by name. Where it is the default, no other is; where it is
/// not, the others are what they were. The options of the saved preset are those
/// that its text is read as.
pub proof fn lemma_save_preset_then_load(
    db: Db,
    preset: PresetView,
    json: Seq<char>,
    read: spec_fn(Seq<char>) -> Option<OptionsView>,
    old_rows: Seq<PresetColumns>,
    new_rows: Seq<PresetColumns>,
)
    requires
        read(json) == Some(preset.options),
        reads_presets(db, read, old_rows),
        reads_presets(
            committed(db, save_preset_spec(preset.name, preset.is_default, json)),
            read,
            new_rows,
        ),
    ensures
        ({
            let was = presets_of(old_rows);
            let now = presets_of(new_rows);
            &&& forall|a: int, b: int|
                0 <= a < b < now.len() ==> before(
                    (#[trigger] now[a]).name,
                    (#[trigger] now[b]).name,
                )
            &&& now.contains(preset)
            &&& forall|i: int|
                0 <= i < now.len() && (#[trigger] now[i]).name == preset.name ==> now[i] == preset
            &&& forall|i: int|
                0 <= i < was.len() && (#[trigger] was[i]).name != preset.name ==> holds_like(
                    now,
                    was[i],
                    preset.is_default,
                )
            &&& forall|j: int|
                0 <= j < now.len() && (#[trigger] now[j]).name != preset.name ==> exists|i: int|
                    0 <= i < was.len() && (#[trigger] was[i]).name == now[j].name
        }),
{
    let after = committed(db, save_preset_spec(preset.name, preset.is_default, json));
    let was = presets_of(old_rows);
    let now = presets_of(new_rows);
    let old_names = preset_names(old_rows);
    let new_names = preset_names(new_rows);
    lemma_save_preset(db, preset.name, preset.is_default, json);
    assert forall|a: int, b: int| 0 <= a < b < now.len() implies before(
        (#[trigger] now[a]).name,
        (#[trigger] now[b]).name,
    ) by {
        assert(before(new_names[a], new_names[b]));
    }
    assert forall|i: int| 0 <= i < now.len() && (#[trigger] now[i]).name == preset.name implies now[i]
        == preset by {
        assert(holds_preset(new_rows[i], after.presets[text_column(new_rows[i].name)], read));
        assert(now[i] =~= preset);
    }
    assert(new_names.contains(preset.name));
    let at = choose|at: int| 0 <= at < new_names.len() && new_names[at] == preset.name;
    assert(now[at].name == preset.name);
    assert(now[at] == preset);
    assert forall|i: int| 0 <= i < was.len() && (#[trigger] was[i]).name != preset.name implies
        holds_like(now, was[i], preset.is_default) by {
        let name = was[i].name;
        assert(old_names[i] == name);
        assert(old_names.contains(name));
        assert(db.presets.dom().contains(name));
        assert(after.presets.dom().contains(name));
        assert(new_names.contains(name));
        let j = choose|j: int| 0 <= j < new_names.len() && new_names[j] == name;
        assert(holds_preset(old_rows[i], db.presets[text_column(old_rows[i].name)], read));
        assert(holds_preset(new_rows[j], after.presets[text_column(new_rows[j].name)], read));
        assert(now[j].name == name);
    }
    assert forall|j: int| 0 <= j < now.len() && (#[trigger] now[j]).name
        != preset.name implies exists|i: int|
        0 <= i < was.len() && (#[trigger] was[i]).name == now[j].name by {
        assert(new_names[j] == now[j].name);
        assert(new_names.contains(now[j].name));
        assert(db.presets.dom().contains(now[j].name));
        assert(old_names.contains(now[j].name));
        let i = choose|i: int| 0 <= i < old_names.len() && old_names[i] == now[j].name;
        assert(was[i].name == now[j].name);
    }
}

/// A setting reads as what was last written to it, and writing one keeps the
/// others.
pub proof fn lemma_settings_overwrite(db: Db, key: Seq<char>, first: Seq<char>, second: Seq<char>)
    ensures
        ({
            let once = run(db, StatementView::UpsertSetting { key, value: first })->0;
            let twice = run(once, StatementView::UpsertSetting { key, value: second })->0;
            &&& once.settings[key] == first
            &&& twice.settings[key] == second
            &&& twice.settings.dom() == db.settings.dom().insert(key)
            &&& forall|k: Seq<char>|
                k != key ==> (#[trigger] twice.settings.dom().contains(k)
                    <==> db.settings.dom().contains(k)) && twice.settings[k] == db.settings[k]
        }),
{
    let once = run(db, StatementView::UpsertSetting { key, value: first })->0;
    let twice = run(once, StatementView::UpsertSetting { key, value: second })->0;
    assert(twice.settings.dom() =~= db.settings.dom().insert(key));
}

/// Deleting a preset takes it away and keeps the others.
pub proof fn lemma_delete_preset(db: Db, name: Seq<char>)
    ensures
        ({
            let after = run(db, StatementView::DeletePreset(name))->0;
            &&& after == (Db { presets: db.presets.remove(name), ..db })
            &&& one_default(db.presets) ==> one_default(after.presets)
        }),
{
}

/// A number is stored as it is, a zero without its sign, and what is no number as nothing.
pub proof fn lemma_numbers_are_stored_as_they_are(d: Double)
    ensures
        kept_number(None) is None,
        0 < d.bits <= 0x7ff0_0000_0000_0000 ==> kept_number(Some(d)) == Some(d),
        0x8000_0000_0000_0000 < d.bits <= 0xfff0_0000_0000_0000 ==> kept_number(Some(d)) == Some(d),
        d.bits == 0 || d.bits == 0x8000_0000_0000_0000 ==> kept_number(Some(d)) == Some(
            Double { bits: 0 },
        ),
        0x7ff0_0000_0000_0000 < d.bits < 0x8000_0000_0000_0000 || 0xfff0_0000_0000_0000 < d.bits
            ==> kept_number(Some(d)) is None,
{
}

} // verus!
