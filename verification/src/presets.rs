//! The preset editor: from a preset to the texts of its fields, and back.

use vstd::prelude::*;

use crate::downloads::default_options;
#[allow(unused_imports)]
use crate::downloads::fallback_options;
use crate::model::Preset;
#[allow(unused_imports)]
use crate::model::PresetView;
use crate::session::Session;
#[allow(unused_imports)]
use crate::session::SessionView;
use crate::text::{decimal_u64, is_before, join, owned, parse_u32, same, split_trimmed, trim, words};
#[allow(unused_imports)]
use crate::text::{
    before, decimal, deep, is_blank, is_plain, is_word, join_spec, lemma_before_total,
    lemma_before_transitive, lemma_decimal_plain, lemma_deep_push, lemma_deep_remove,
    lemma_deep_update, lemma_join_plain, lemma_no_number_with_other_characters,
    lemma_numbers_are_read_up_to_the_limit, lemma_split_join, lemma_trim_plain,
    lemma_trim_takes_the_ends, lemma_trimmed_pieces_plain, lemma_words_join, opt, parsed,
    split_spec, trim_spec, trimmed_pieces, words_spec,
};
use crate::ytdlp::{FormatMode, YtdlpOptions};
#[allow(unused_imports)]
use crate::ytdlp::{default_template, FormatView, OptionsView};

verus! {

// ---------------------------------------------------------------------------
// The form
// ---------------------------------------------------------------------------

/// The texts of the editor's fields. Toggles and the choice of format live on
/// the preset being edited.
#[derive(Debug, PartialEq, Eq)]
pub struct PresetForm {
    pub name: String,
    pub max_height: String,
    pub container: String,
    pub output: String,
    pub dir: String,
    pub subs: String,
    pub extra: String,
    pub codec: String,
    pub custom_fmt: String,
}

/// The value of a `PresetForm`.
#[verifier::ext_equal]
pub struct FormView {
    pub name: Seq<char>,
    pub max_height: Seq<char>,
    pub container: Seq<char>,
    pub output: Seq<char>,
    pub dir: Seq<char>,
    pub subs: Seq<char>,
    pub extra: Seq<char>,
    pub codec: Seq<char>,
    pub custom_fmt: Seq<char>,
}

impl View for PresetForm {
    type V = FormView;

    open spec fn view(&self) -> FormView {
        FormView {
            name: self.name@,
            max_height: self.max_height@,
            container: self.container@,
            output: self.output@,
            dir: self.dir@,
            subs: self.subs@,
            extra: self.extra@,
            codec: self.codec@,
            custom_fmt: self.custom_fmt@,
        }
    }
}

/// A text, or the empty one.
pub open spec fn or_blank(t: Option<Seq<char>>) -> Seq<char> {
    match t {
        Some(t) => t,
        None => Seq::<char>::empty(),
    }
}

/// The texts that a preset puts into the fields.
pub open spec fn form_of(p: PresetView) -> FormView {
    let o = p.options;
    FormView {
        name: p.name,
        max_height: match o.max_height {
            Some(h) => decimal(h as nat),
            None => Seq::<char>::empty(),
        },
        container: or_blank(o.container),
        output: o.output_template,
        dir: o.download_dir,
        subs: join_spec(o.subtitle_langs, ","@),
        extra: join_spec(o.extra_args, " "@),
        codec: match o.format {
            FormatView::AudioOnly { codec } => codec,
            _ => Seq::<char>::empty(),
        },
        custom_fmt: match o.format {
            FormatView::Custom(s) => s,
            _ => Seq::<char>::empty(),
        },
    }
}

/// The text without whitespace at its ends, or the fallback where nothing is
/// left.
pub open spec fn filled(t: Seq<char>, fallback: Seq<char>) -> Seq<char> {
    if trim_spec(t).len() == 0 {
        fallback
    } else {
        trim_spec(t)
    }
}

/// A preset with the texts of the fields read back onto it. A height that is no
/// number means no cap; blank fields fall back.
pub open spec fn edited(p: PresetView, f: FormView) -> PresetView {
    PresetView {
        name: trim_spec(f.name),
        is_default: p.is_default,
        options: OptionsView {
            max_height: match parsed(trim_spec(f.max_height), u32::MAX as nat) {
                Some(v) => Some(v as u32),
                None => None,
            },
            container: if trim_spec(f.container).len() == 0 {
                None
            } else {
                Some(trim_spec(f.container))
            },
            output_template: filled(f.output, default_template()),
            download_dir: trim_spec(f.dir),
            subtitle_langs: trimmed_pieces(split_spec(trim_spec(f.subs), ',')),
            extra_args: words_spec(trim_spec(f.extra)),
            format: match p.options.format {
                FormatView::AudioOnly { codec } => FormatView::AudioOnly {
                    codec: filled(f.codec, "mp3"@),
                },
                FormatView::Custom(_) => FormatView::Custom(filled(f.custom_fmt, "bv*+ba/b"@)),
                FormatView::BestVideoAudio => FormatView::BestVideoAudio,
            },
            ..p.options
        },
    }
}

fn text_or_blank(t: &Option<String>) -> (r: String)
    ensures
        r@ == or_blank(opt(*t)),
{
    match t {
        Some(t) => t.clone(),
        None => String::new(),
    }
}

fn read_or(text: &String, fallback: &str) -> (r: String)
    ensures
        r@ == filled(text@, fallback@),
{
    let t: String = trim(text.as_str());
    if t.as_str().is_empty() {
        owned(fallback)
    } else {
        t
    }
}

/// The texts that a preset puts into the fields.
pub fn fill_form(p: &Preset) -> (r: PresetForm)
    ensures
        r@ == form_of(p@),
{
    let o: &YtdlpOptions = &p.options;
    PresetForm {
        name: p.name.clone(),
        max_height: match o.max_height {
            Some(h) => decimal_u64(h as u64),
            None => String::new(),
        },
        container: text_or_blank(&o.container),
        output: o.output_template.clone(),
        dir: o.download_dir.clone(),
        subs: join(&o.subtitle_langs, ","),
        extra: join(&o.extra_args, " "),
        codec: match &o.format {
            FormatMode::AudioOnly { codec } => codec.clone(),
            _ => String::new(),
        },
        custom_fmt: match &o.format {
            FormatMode::Custom(s) => s.clone(),
            _ => String::new(),
        },
    }
}

/// The preset with the texts of the fields read back onto it.
pub fn read_form(p: &Preset, f: &PresetForm) -> (r: Preset)
    ensures
        r@ == edited(p@, f@),
{
    let mut o: YtdlpOptions = p.options.clone();
    o.max_height = parse_u32(trim(f.max_height.as_str()).as_str());
    let container: String = trim(f.container.as_str());
    o.container = if container.as_str().is_empty() {
        None
    } else {
        Some(container)
    };
    o.output_template = read_or(&f.output, "%(title)s [%(id)s].%(ext)s");
    o.download_dir = trim(f.dir.as_str());
    o.subtitle_langs = split_trimmed(trim(f.subs.as_str()).as_str(), ',');
    o.extra_args = words(trim(f.extra.as_str()).as_str());
    o.format = match &p.options.format {
        FormatMode::AudioOnly { codec: _ } => FormatMode::AudioOnly {
            codec: read_or(&f.codec, "mp3"),
        },
        FormatMode::Custom(_) => FormatMode::Custom(read_or(&f.custom_fmt, "bv*+ba/b")),
        FormatMode::BestVideoAudio => FormatMode::BestVideoAudio,
    };
    let r: Preset = Preset {
        name: trim(f.name.as_str()),
        is_default: p.is_default,
        options: o,
    };
    assert(r@.options =~= edited(p@, f@).options);
    assert(r@ =~= edited(p@, f@));
    r
}

// ---------------------------------------------------------------------------
// The list of presets
// ---------------------------------------------------------------------------

/// Where the first preset with the name stands; the number of presets where
/// there is none.
pub open spec fn preset_pos(presets: Seq<PresetView>, name: Seq<char>) -> int
    decreases presets.len(),
{
    if presets.len() == 0 || presets[0].name == name {
        0
    } else {
        1 + preset_pos(presets.skip(1), name)
    }
}

/// The presets with the one of that name replaced, or the new one added.
pub open spec fn put_preset(
    presets: Seq<PresetView>,
    name: Seq<char>,
    preset: PresetView,
) -> Seq<PresetView> {
    let i = preset_pos(presets, name);
    if i < presets.len() {
        presets.update(i, preset)
    } else {
        presets.push(preset)
    }
}

/// The presets with those of the name as the only default.
pub open spec fn only_default(presets: Seq<PresetView>, name: Seq<char>) -> Seq<PresetView> {
    Seq::new(
        presets.len(),
        |i: int| PresetView { is_default: presets[i].name == name, ..presets[i] },
    )
}

/// A list in order of names with one more preset, after those of its own name.
pub open spec fn place(sorted: Seq<PresetView>, p: PresetView) -> Seq<PresetView>
    decreases sorted.len(),
{
    if sorted.len() > 0 && before(p.name, sorted.last().name) {
        place(sorted.drop_last(), p).push(sorted.last())
    } else {
        sorted.push(p)
    }
}

/// The presets in order of their names; those of one name keep their order.
pub open spec fn by_name(presets: Seq<PresetView>) -> Seq<PresetView>
    decreases presets.len(),
{
    if presets.len() == 0 {
        presets
    } else {
        place(by_name(presets.drop_last()), presets.last())
    }
}

/// The list after a preset was saved.
pub open spec fn saved_list(
    presets: Seq<PresetView>,
    previous: Seq<char>,
    preset: PresetView,
) -> Seq<PresetView> {
    let put = put_preset(presets, previous, preset);
    by_name(
        if preset.is_default {
            only_default(put, preset.name)
        } else {
            put
        },
    )
}

proof fn lemma_preset_pos(presets: Seq<PresetView>, name: Seq<char>, n: int)
    requires
        0 <= n <= presets.len(),
        n < presets.len() ==> presets[n].name == name,
        forall|i: int| 0 <= i < n ==> (#[trigger] presets[i]).name != name,
    ensures
        preset_pos(presets, name) == n,
    decreases presets.len(),
{
    if n > 0 {
        assert(presets[0].name != name);
        let rest = presets.skip(1);
        assert forall|i: int| 0 <= i < n - 1 implies (#[trigger] rest[i]).name != name by {
            assert(presets[i + 1].name != name);
        }
        lemma_preset_pos(rest, name, n - 1);
    }
}

fn find_pos(presets: &Vec<Preset>, name: &str) -> (r: usize)
    ensures
        r == preset_pos(deep(presets@), name@),
        r <= presets@.len(),
{
    let ghost v = deep(presets@);
    let mut i: usize = 0;
    while i < presets.len()
        invariant
            i <= presets@.len(),
            v == deep(presets@),
            forall|k: int| 0 <= k < i ==> (#[trigger] v[k]).name != name@,
        decreases presets@.len() - i,
    {
        assert(v[i as int] == presets@[i as int]@);
        if same(presets[i].name.as_str(), name) {
            proof {
                lemma_preset_pos(v, name@, i as int);
            }
            return i;
        }
        i = i + 1;
    }
    proof {
        lemma_preset_pos(v, name@, i as int);
    }
    i
}

fn clear_defaults(presets: &mut Vec<Preset>, name: &str)
    ensures
        deep(final(presets)@) == only_default(deep(old(presets)@), name@),
{
    broadcast use lemma_deep_update;

    let ghost v = deep(presets@);
    let mut i: usize = 0;
    while i < presets.len()
        invariant
            i <= presets@.len(),
            presets@.len() == v.len(),
            forall|k: int| 0 <= k < i ==> (#[trigger] presets@[k])@ == only_default(v, name@)[k],
            forall|k: int| i <= k < v.len() ==> (#[trigger] presets@[k])@ == v[k],
        decreases v.len() - i,
    {
        let mut p: Preset = presets[i].clone();
        p.is_default = same(p.name.as_str(), name);
        assert(p@ =~= only_default(v, name@)[i as int]);
        presets.set(i, p);
        i = i + 1;
    }
    assert(deep(presets@) =~= only_default(v, name@));
}

proof fn lemma_place_insert(sorted: Seq<PresetView>, p: PresetView, i: int)
    requires
        0 <= i <= sorted.len(),
        i > 0 ==> !before(p.name, sorted[i - 1].name),
        forall|k: int| i <= k < sorted.len() ==> before(p.name, (#[trigger] sorted[k]).name),
    ensures
        place(sorted, p) == sorted.insert(i, p),
    decreases sorted.len(),
{
    if i < sorted.len() {
        let rest = sorted.drop_last();
        assert(before(p.name, sorted[sorted.len() - 1].name));
        lemma_place_insert(rest, p, i);
        assert(rest.insert(i, p).push(sorted.last()) =~= sorted.insert(i, p));
    } else {
        assert(sorted.push(p) =~= sorted.insert(i, p));
    }
}

fn place_preset(sorted: &mut Vec<Preset>, p: Preset)
    ensures
        deep(final(sorted)@) == place(deep(old(sorted)@), p@),
{
    let ghost v = deep(sorted@);
    let mut i: usize = sorted.len();
    while i > 0 && is_before(p.name.as_str(), sorted[i - 1].name.as_str())
        invariant
            i <= sorted@.len(),
            sorted@ == old(sorted)@,
            v == deep(sorted@),
            forall|k: int| i <= k < v.len() ==> before(p@.name, (#[trigger] v[k]).name),
        decreases i,
    {
        assert(v[i - 1] == sorted@[i - 1]@);
        i = i - 1;
    }
    proof {
        if i > 0 {
            assert(v[i - 1] == sorted@[i - 1]@);
        }
        lemma_place_insert(v, p@, i as int);
    }
    sorted.insert(i, p);
    assert(deep(sorted@) =~= v.insert(i as int, p@));
}

/// The presets in order of their names; those of one name keep their order.
pub fn sort_presets(presets: Vec<Preset>) -> (r: Vec<Preset>)
    ensures
        deep(r@) == by_name(deep(presets@)),
{
    broadcast use lemma_deep_remove;

    let ghost all = deep(presets@);
    let ghost n = presets@.len();
    let mut rest: Vec<Preset> = presets;
    let mut out: Vec<Preset> = Vec::new();
    assert(deep(out@) =~= by_name(all.take(0)));
    assert(all.skip(0) =~= all);
    while rest.len() > 0
        invariant
            rest@.len() <= n,
            n == all.len(),
            deep(rest@) == all.skip(n - rest@.len()),
            deep(out@) == by_name(all.take(n - rest@.len())),
        decreases rest@.len(),
    {
        let ghost k = n - rest@.len();
        assert(deep(rest@)[0] == all[k]);
        let next: Preset = rest.remove(0);
        assert(next@ == all[k]);
        assert(all.skip(k).remove(0) =~= all.skip(k + 1));
        assert(all.take(k + 1).drop_last() =~= all.take(k));
        assert(all.take(k + 1).last() == next@);
        place_preset(&mut out, next);
    }
    assert(all.take(n as int) =~= all);
    out
}

// ---------------------------------------------------------------------------
// Editing
// ---------------------------------------------------------------------------

/// What saving the edited preset asks of the store.
#[derive(Debug)]
pub struct SavedPreset {
    /// The name under which the preset was known, where it was renamed: a name
    /// is the primary key, so renaming is a delete and an insert.
    pub delete: Option<String>,
    pub save: Preset,
}

/// The state after the edited preset was saved.
pub open spec fn editing_saved(s: SessionView, f: FormView) -> SessionView {
    let previous = s.editing->0.name;
    let preset = edited(s.editing->0, f);
    SessionView {
        presets: saved_list(s.presets, previous, preset),
        chosen_preset: if s.chosen_preset == Some(previous) {
            Some(preset.name)
        } else {
            s.chosen_preset
        },
        editing: Some(preset),
        ..s
    }
}

/// The presets without those of the name.
pub open spec fn without_preset(presets: Seq<PresetView>, name: Seq<char>) -> Seq<PresetView>
    decreases presets.len(),
{
    if presets.len() == 0 {
        presets
    } else if presets.last().name == name {
        without_preset(presets.drop_last(), name)
    } else {
        without_preset(presets.drop_last(), name).push(presets.last())
    }
}

/// The name of the first preset.
pub open spec fn first_name(presets: Seq<PresetView>) -> Option<Seq<char>> {
    if presets.len() == 0 {
        None
    } else {
        Some(presets[0].name)
    }
}

/// The state after the edited preset was deleted.
pub open spec fn editing_deleted(s: SessionView) -> SessionView {
    match s.editing {
        None => s,
        Some(p) => {
            let presets = without_preset(s.presets, p.name);
            SessionView {
                editing: None,
                presets,
                chosen_preset: if s.chosen_preset == Some(p.name) {
                    first_name(presets)
                } else {
                    s.chosen_preset
                },
                ..s
            }
        },
    }
}

/// The switches of the editor that stand for an option.
#[derive(Debug, Clone, Copy, PartialEq, Eq, Structural)]
pub enum Toggle {
    EmbedThumbnail,
    EmbedMetadata,
    EmbedSubs,
    DownloadArchive,
}

impl Toggle {
    /// How the switch stands.
    pub open spec fn reads(self, o: OptionsView) -> bool {
        match self {
            Toggle::EmbedThumbnail => o.embed_thumbnail,
            Toggle::EmbedMetadata => o.embed_metadata,
            Toggle::EmbedSubs => o.embed_subs,
            Toggle::DownloadArchive => o.download_archive,
        }
    }

    /// The options with the switch set.
    pub open spec fn sets(self, o: OptionsView, checked: bool) -> OptionsView {
        match self {
            Toggle::EmbedThumbnail => OptionsView { embed_thumbnail: checked, ..o },
            Toggle::EmbedMetadata => OptionsView { embed_metadata: checked, ..o },
            Toggle::EmbedSubs => OptionsView { embed_subs: checked, ..o },
            Toggle::DownloadArchive => OptionsView { download_archive: checked, ..o },
        }
    }

    /// How the switch stands.
    pub fn read(self, o: &YtdlpOptions) -> (r: bool)
        ensures
            r == self.reads(o@),
    {
        match self {
            Toggle::EmbedThumbnail => o.embed_thumbnail,
            Toggle::EmbedMetadata => o.embed_metadata,
            Toggle::EmbedSubs => o.embed_subs,
            Toggle::DownloadArchive => o.download_archive,
        }
    }
}

/// What the editor's source control offers.
#[derive(Debug, Clone, Copy, PartialEq, Eq, Structural)]
pub enum Source {
    Best,
    Audio,
    Custom,
}

impl Source {
    /// The source that a format stands for.
    pub open spec fn of(f: FormatView) -> Source {
        match f {
            FormatView::BestVideoAudio => Source::Best,
            FormatView::AudioOnly { codec: _ } => Source::Audio,
            FormatView::Custom(_) => Source::Custom,
        }
    }

    /// The format that choosing the source sets.
    pub open spec fn format(self) -> FormatView {
        match self {
            Source::Best => FormatView::BestVideoAudio,
            Source::Audio => FormatView::AudioOnly { codec: "mp3"@ },
            Source::Custom => FormatView::Custom("bv*+ba/b"@),
        }
    }

    /// The source that a format stands for.
    pub fn of_format(f: &FormatMode) -> (r: Source)
        ensures
            r == Source::of(f@),
    {
        match f {
            FormatMode::BestVideoAudio => Source::Best,
            FormatMode::AudioOnly { codec: _ } => Source::Audio,
            FormatMode::Custom(_) => Source::Custom,
        }
    }
}

impl Session {
    /// Opens a preset in the editor. Gives back the texts of its fields.
    pub fn edit_preset(&mut self, preset: Preset) -> (r: PresetForm)
        ensures
            final(self)@ == (SessionView { editing: Some(preset@), ..old(self)@ }),
            r@ == form_of(preset@),
    {
        let form: PresetForm = fill_form(&preset);
        self.editing = Some(preset);
        assert(self@ =~= (SessionView { editing: Some(preset@), ..old(self)@ }));
        form
    }

    /// Opens a new preset in the editor.
    pub fn new_preset(&mut self, dir: &str) -> (r: PresetForm)
        ensures
            ({
                let p = PresetView {
                    name: "New preset"@,
                    is_default: false,
                    options: fallback_options(dir@),
                };
                &&& final(self)@ == (SessionView { editing: Some(p), ..old(self)@ })
                &&& r@ == form_of(p)
            }),
    {
        let preset: Preset = Preset {
            name: owned("New preset"),
            is_default: false,
            options: default_options(dir),
        };
        self.edit_preset(preset)
    }

    /// Reads the fields back onto the preset being edited and saves it. Nothing
    /// happens where none is being edited or the name is blank.
    pub fn save_editing(&mut self, form: &PresetForm) -> (r: Option<SavedPreset>)
        ensures
            ({
                let saves = old(self)@.editing is Some && trim_spec(form@.name).len() > 0;
                &&& r is Some <==> saves
                &&& !saves ==> final(self)@ == old(self)@
                &&& saves ==> {
                    let previous = old(self)@.editing->0.name;
                    let preset = edited(old(self)@.editing->0, form@);
                    &&& final(self)@ == editing_saved(old(self)@, form@)
                    &&& r->0.save@ == preset
                    &&& opt(r->0.delete) == (if previous != preset.name {
                        Some(previous)
                    } else {
                        None
                    })
                }
            }),
    {
        broadcast use {lemma_deep_push, lemma_deep_update};

        let current: Preset = match &self.editing {
            Some(p) => p.clone(),
            None => {
                return None;
            },
        };
        let preset: Preset = read_form(&current, form);
        if preset.name.as_str().is_empty() {
            return None;
        }
        let previous: String = current.name;
        let ghost before_list = deep(self.presets@);
        let at: usize = find_pos(&self.presets, previous.as_str());
        if at < self.presets.len() {
            self.presets.set(at, preset.clone());
        } else {
            self.presets.push(preset.clone());
        }
        assert(deep(self.presets@) == put_preset(before_list, previous@, preset@));
        if preset.is_default {
            clear_defaults(&mut self.presets, preset.name.as_str());
        }
        let follows: bool = match &self.chosen_preset {
            Some(name) => same(name.as_str(), previous.as_str()),
            None => false,
        };
        if follows {
            self.chosen_preset = Some(preset.name.clone());
        }
        let mut list: Vec<Preset> = Vec::new();
        std::mem::swap(&mut list, &mut self.presets);
        self.presets = sort_presets(list);
        let renamed: bool = !same(previous.as_str(), preset.name.as_str());
        self.editing = Some(preset.clone());
        assert(self@ =~= editing_saved(old(self)@, form@));
        Some(
            SavedPreset {
                delete: if renamed {
                    Some(previous)
                } else {
                    None
                },
                save: preset,
            },
        )
    }

    /// Deletes the preset being edited from the list. Gives back its name, to
    /// be deleted from the store too.
    pub fn delete_editing(&mut self) -> (r: Option<String>)
        ensures
            final(self)@ == editing_deleted(old(self)@),
            opt(r) == (match old(self)@.editing {
                Some(p) => Some(p.name),
                None => None,
            }),
    {
        broadcast use {lemma_deep_push, lemma_deep_remove};

        let name: String = match &self.editing {
            Some(p) => p.name.clone(),
            None => {
                return None;
            },
        };
        self.editing = None;
        let ghost all = deep(self.presets@);
        let mut rest: Vec<Preset> = Vec::new();
        let mut kept: Vec<Preset> = Vec::new();
        std::mem::swap(&mut rest, &mut self.presets);
        assert(deep(kept@) =~= without_preset(all.take(0), name@));
        assert(all.skip(0) =~= all);
        let ghost n = rest@.len();
        while rest.len() > 0
            invariant
                rest@.len() <= n,
                n == all.len(),
                deep(rest@) == all.skip(n - rest@.len()),
                deep(kept@) == without_preset(all.take(n - rest@.len()), name@),
            decreases rest@.len(),
        {
            let ghost k = n - rest@.len();
            assert(deep(rest@)[0] == all[k]);
            let next: Preset = rest.remove(0);
            assert(next@ == all[k]);
            assert(all.skip(k).remove(0) =~= all.skip(k + 1));
            assert(all.take(k + 1).drop_last() =~= all.take(k));
            assert(all.take(k + 1).last() == next@);
            if !same(next.name.as_str(), name.as_str()) {
                kept.push(next);
            }
        }
        assert(all.take(n as int) =~= all);
        let follows: bool = match &self.chosen_preset {
            Some(chosen) => same(chosen.as_str(), name.as_str()),
            None => false,
        };
        if follows {
            self.chosen_preset = if kept.len() > 0 {
                Some(kept[0].name.clone())
            } else {
                None
            };
        }
        self.presets = kept;
        assert(self@ =~= editing_deleted(old(self)@));
        Some(name)
    }

    /// Chooses what the preset being edited fetches.
    pub fn set_source(&mut self, source: Source)
        ensures
            final(self)@ == (match old(self)@.editing {
                Some(p) => SessionView {
                    editing: Some(
                        PresetView {
                            options: OptionsView { format: source.format(), ..p.options },
                            ..p
                        },
                    ),
                    ..old(self)@
                },
                None => old(self)@,
            }),
    {
        match &self.editing {
            Some(p) => {
                let mut p: Preset = p.clone();
                p.options.format = match source {
                    Source::Best => FormatMode::BestVideoAudio,
                    Source::Audio => FormatMode::AudioOnly { codec: owned("mp3") },
                    Source::Custom => FormatMode::Custom(owned("bv*+ba/b")),
                };
                let ghost want = OptionsView { format: source.format(), ..old(
                    self,
                )@.editing->0.options };
                assert(p@.options =~= want);
                self.editing = Some(p);
                assert(self@.editing->0 =~= (PresetView {
                    options: want,
                    ..old(self)@.editing->0
                }));
            },
            None => {},
        }
    }

    /// Sets a switch of the preset being edited.
    pub fn set_toggle(&mut self, toggle: Toggle, checked: bool)
        ensures
            final(self)@ == (match old(self)@.editing {
                Some(p) => SessionView {
                    editing: Some(
                        PresetView { options: toggle.sets(p.options, checked), ..p },
                    ),
                    ..old(self)@
                },
                None => old(self)@,
            }),
    {
        match &self.editing {
            Some(p) => {
                let mut p: Preset = p.clone();
                match toggle {
                    Toggle::EmbedThumbnail => {
                        p.options.embed_thumbnail = checked;
                    },
                    Toggle::EmbedMetadata => {
                        p.options.embed_metadata = checked;
                    },
                    Toggle::EmbedSubs => {
                        p.options.embed_subs = checked;
                    },
                    Toggle::DownloadArchive => {
                        p.options.download_archive = checked;
                    },
                }
                let ghost want = toggle.sets(old(self)@.editing->0.options, checked);
                assert(p@.options =~= want);
                self.editing = Some(p);
                assert(self@.editing->0 =~= (PresetView {
                    options: want,
                    ..old(self)@.editing->0
                }));
            },
            None => {},
        }
    }

    /// Makes the preset being edited the default, or not.
    pub fn set_editing_default(&mut self, checked: bool)
        ensures
            final(self)@ == (match old(self)@.editing {
                Some(p) => SessionView {
                    editing: Some(PresetView { is_default: checked, ..p }),
                    ..old(self)@
                },
                None => old(self)@,
            }),
    {
        match &self.editing {
            Some(p) => {
                let mut p: Preset = p.clone();
                p.is_default = checked;
                self.editing = Some(p);
                assert(self@.editing->0 =~= (PresetView {
                    is_default: checked,
                    ..old(self)@.editing->0
                }));
            },
            None => {},
        }
    }
}

// ---------------------------------------------------------------------------
// What editing keeps
// ---------------------------------------------------------------------------

/// Whether the presets are in order of their names.
pub open spec fn names_in_order(presets: Seq<PresetView>) -> bool {
    forall|i: int, j: int|
        0 <= i < j < presets.len() ==> !before(
            (#[trigger] presets[j]).name,
            (#[trigger] presets[i]).name,
        )
}

proof fn lemma_place(sorted: Seq<PresetView>, p: PresetView)
    requires
        names_in_order(sorted),
    ensures
        names_in_order(place(sorted, p)),
        place(sorted, p).to_multiset() == sorted.to_multiset().insert(p),
        place(sorted, p).len() == sorted.len() + 1,
        forall|i: int|
            0 <= i < place(sorted, p).len() ==> (#[trigger] place(sorted, p)[i]) == p || exists|
                j: int,
            |
                0 <= j < sorted.len() && sorted[j] == place(sorted, p)[i],
    decreases sorted.len(),
{
    broadcast use vstd::multiset::group_multiset_axioms;

    let r = place(sorted, p);
    if sorted.len() > 0 && before(p.name, sorted.last().name) {
        let rest = sorted.drop_last();
        let last = sorted.last();
        lemma_place(rest, p);
        let q = place(rest, p);
        vstd::seq_lib::to_multiset_build(q, last);
        vstd::seq_lib::to_multiset_build(rest, last);
        assert(rest.push(last) =~= sorted);
        assert(r.to_multiset() =~= sorted.to_multiset().insert(p));
        assert forall|i: int, j: int| 0 <= i < j < r.len() implies !before(
            (#[trigger] r[j]).name,
            (#[trigger] r[i]).name,
        ) by {
            if j == q.len() {
                if q[i] == p {
                    lemma_before_total(p.name, last.name);
                } else {
                    let k = choose|k: int| 0 <= k < rest.len() && rest[k] == q[i];
                    assert(!before(sorted[sorted.len() - 1].name, sorted[k].name));
                }
            } else {
                assert(!before(q[j].name, q[i].name));
            }
        }
        assert forall|i: int| 0 <= i < r.len() implies (#[trigger] r[i]) == p || exists|j: int|
            0 <= j < sorted.len() && sorted[j] == r[i] by {
            if i < q.len() {
                if q[i] != p {
                    let k = choose|k: int| 0 <= k < rest.len() && rest[k] == q[i];
                    assert(sorted[k] == r[i]);
                }
            } else {
                assert(sorted[sorted.len() - 1] == r[i]);
            }
        }
    } else {
        vstd::seq_lib::to_multiset_build(sorted, p);
        assert forall|i: int, j: int| 0 <= i < j < r.len() implies !before(
            (#[trigger] r[j]).name,
            (#[trigger] r[i]).name,
        ) by {
            if j == sorted.len() {
                let n = sorted.len() - 1;
                if i < n {
                    assert(!before(sorted[n].name, sorted[i].name));
                    lemma_before_total(sorted[i].name, sorted[n].name);
                    lemma_before_total(sorted[n].name, p.name);
                    if before(p.name, sorted[i].name) {
                        if sorted[i].name != sorted[n].name {
                            lemma_before_transitive(p.name, sorted[i].name, sorted[n].name);
                        }
                    }
                }
            }
        }
        assert forall|i: int| 0 <= i < r.len() implies (#[trigger] r[i]) == p || exists|j: int|
            0 <= j < sorted.len() && sorted[j] == r[i] by {
            if i < sorted.len() {
                assert(sorted[i] == r[i]);
            }
        }
    }
}

/// Sorting puts the presets in order of their names, and neither adds nor loses
/// one.
pub proof fn lemma_by_name(presets: Seq<PresetView>)
    ensures
        names_in_order(by_name(presets)),
        by_name(presets).to_multiset() == presets.to_multiset(),
    decreases presets.len(),
{
    if presets.len() > 0 {
        let rest = presets.drop_last();
        lemma_by_name(rest);
        lemma_place(by_name(rest), presets.last());
        vstd::seq_lib::to_multiset_build(rest, presets.last());
        assert(rest.push(presets.last()) =~= presets);
    }
}

proof fn lemma_same_members(a: Seq<PresetView>, b: Seq<PresetView>, p: PresetView)
    requires
        a.to_multiset() == b.to_multiset(),
    ensures
        a.contains(p) <==> b.contains(p),
{
    vstd::seq_lib::to_multiset_contains(a, p);
    vstd::seq_lib::to_multiset_contains(b, p);
}

proof fn lemma_preset_pos_bound(presets: Seq<PresetView>, name: Seq<char>)
    ensures
        0 <= preset_pos(presets, name) <= presets.len(),
    decreases presets.len(),
{
    if presets.len() > 0 && presets[0].name != name {
        lemma_preset_pos_bound(presets.skip(1), name);
    }
}

/// After a preset was saved the list holds it and is in order of names; where it
/// is the default, no preset of another name is.
pub proof fn lemma_saved_preset_is_listed(
    presets: Seq<PresetView>,
    previous: Seq<char>,
    preset: PresetView,
)
    ensures
        names_in_order(saved_list(presets, previous, preset)),
        saved_list(presets, previous, preset).contains(preset),
        preset.is_default ==> forall|i: int|
            0 <= i < saved_list(presets, previous, preset).len() ==> (
            #[trigger] saved_list(presets, previous, preset)[i]).is_default == (saved_list(
                presets,
                previous,
                preset,
            )[i].name == preset.name),
{
    let put = put_preset(presets, previous, preset);
    let list = if preset.is_default {
        only_default(put, preset.name)
    } else {
        put
    };
    let r = by_name(list);
    lemma_by_name(list);
    lemma_preset_pos_bound(presets, previous);
    let at = preset_pos(presets, previous);
    assert(put[at] == preset);
    assert(list[at] =~= preset);
    assert(list.contains(preset));
    lemma_same_members(r, list, preset);
    if preset.is_default {
        assert forall|i: int| 0 <= i < r.len() implies (#[trigger] r[i]).is_default == (r[i].name
            == preset.name) by {
            assert(r.contains(r[i]));
            lemma_same_members(r, list, r[i]);
            let k = choose|k: int| 0 <= k < list.len() && list[k] == r[i];
            assert(list[k] == only_default(put, preset.name)[k]);
        }
    }
}

/// Whether a preset is as the editor writes it: no field with whitespace at its
/// ends, none blank that may not be, no comma in a language and no whitespace
/// in an argument.
pub open spec fn is_tidy(p: PresetView) -> bool {
    let o = p.options;
    &&& crate::text::is_plain(p.name)
    &&& o.container matches Some(c) ==> crate::text::is_plain(c)
    &&& crate::text::is_plain(o.output_template)
    &&& o.download_dir.len() == 0 || crate::text::is_plain(o.download_dir)
    &&& forall|i: int|
        0 <= i < o.subtitle_langs.len() ==> crate::text::is_plain(#[trigger] o.subtitle_langs[i])
            && !o.subtitle_langs[i].contains(',')
    &&& forall|i: int|
        0 <= i < o.extra_args.len() ==> crate::text::is_word(#[trigger] o.extra_args[i])
    &&& o.format matches FormatView::AudioOnly { codec } ==> crate::text::is_plain(codec)
    &&& o.format matches FormatView::Custom(sel) ==> crate::text::is_plain(sel)
}

/// Opening a preset in the editor and saving it untouched changes nothing.
pub proof fn lemma_editing_untouched_is_identity(p: PresetView)
    requires
        is_tidy(p),
    ensures
        edited(p, form_of(p)) == p,
{
    let o = p.options;
    let f = form_of(p);
    let e = edited(p, f);
    crate::text::lemma_trim_plain(p.name);
    crate::text::lemma_trim_plain(Seq::<char>::empty());
    match o.max_height {
        Some(h) => {
            crate::text::lemma_decimal_plain(h as nat);
            crate::text::lemma_trim_plain(decimal(h as nat));
            crate::text::lemma_parse_decimal(h as nat);
        },
        None => {},
    }
    assert(e.options.max_height == o.max_height);
    if o.container is Some {
        crate::text::lemma_trim_plain(o.container->0);
    }
    crate::text::lemma_trim_plain(o.output_template);
    crate::text::lemma_trim_plain(o.download_dir);

    let langs = o.subtitle_langs;
    reveal_strlit(",");
    assert(","@ =~= seq![',']);
    if langs.len() > 0 {
        assert forall|i: int| 0 <= i < langs.len() implies !(#[trigger] langs[i]).contains(
            ',',
        ) by {
            assert(crate::text::is_plain(langs[i]));
        }
        assert forall|i: int| 0 <= i < langs.len() implies crate::text::is_plain(
            #[trigger] langs[i],
        ) by {}
        crate::text::lemma_join_plain(langs, seq![',']);
        crate::text::lemma_trim_plain(f.subs);
        crate::text::lemma_split_join(langs, ',');
        crate::text::lemma_trimmed_pieces_plain(langs);
    } else {
        assert(f.subs =~= Seq::<char>::empty());
        let pieces = split_spec(f.subs, ',');
        assert(pieces =~= seq![Seq::<char>::empty()]);
        assert(pieces.drop_last() =~= Seq::<Seq<char>>::empty());
        assert(trimmed_pieces(pieces.drop_last()) =~= Seq::<Seq<char>>::empty());
        assert(langs =~= Seq::<Seq<char>>::empty());
    }
    assert(e.options.subtitle_langs == langs);

    let args = o.extra_args;
    reveal_strlit(" ");
    assert(" "@ =~= seq![' ']);
    assert forall|i: int| 0 <= i < args.len() implies crate::text::is_plain(
        #[trigger] args[i],
    ) by {
        assert(crate::text::is_word(args[i]));
        assert(args[i].last() == args[i][args[i].len() - 1]);
    }
    if args.len() > 0 {
        crate::text::lemma_join_plain(args, seq![' ']);
    } else {
        assert(f.extra =~= Seq::<char>::empty());
    }
    crate::text::lemma_trim_plain(f.extra);
    crate::text::lemma_words_join(args, ' ');
    assert(e.options.extra_args == args);

    match o.format {
        FormatView::AudioOnly { codec } => {
            crate::text::lemma_trim_plain(codec);
        },
        FormatView::Custom(sel) => {
            crate::text::lemma_trim_plain(sel);
        },
        FormatView::BestVideoAudio => {},
    }
    assert(e.options =~= o);
    assert(e =~= p);
}

proof fn lemma_without_preset(presets: Seq<PresetView>, name: Seq<char>)
    ensures
        forall|i: int|
            0 <= i < without_preset(presets, name).len() ==> (
            #[trigger] without_preset(presets, name)[i]).name != name,
        without_preset(presets, name).len() <= presets.len(),
    decreases presets.len(),
{
    if presets.len() > 0 {
        lemma_without_preset(presets.drop_last(), name);
    }
}

/// A deleted preset is listed no more, is open no more, and is chosen no more.
pub proof fn lemma_deleted_preset_is_gone(s: SessionView)
    requires
        s.editing is Some,
    ensures
        ({
            let d = editing_deleted(s);
            let name = s.editing->0.name;
            &&& d.editing is None
            &&& forall|i: int| 0 <= i < d.presets.len() ==> (#[trigger] d.presets[i]).name != name
            &&& d.chosen_preset != Some(name)
        }),
{
    lemma_without_preset(s.presets, s.editing->0.name);
}

// ---------------------------------------------------------------------------
// What each field and switch does
// ---------------------------------------------------------------------------

/// What a text field holds is taken over without the whitespace at its ends, whatever
/// the preset held before, and concerns nothing but its own option: the name, the
/// container, the output template, the folder.
pub proof fn lemma_text_fields_are_taken_over(
    p: PresetView,
    f: FormView,
    a: Seq<char>,
    d: Seq<char>,
    b: Seq<char>,
)
    requires
        is_blank(a),
        is_blank(b),
        is_plain(d),
    ensures
        ({
            let e = edited(p, f);
            let t = a + d + b;
            &&& edited(p, FormView { name: t, ..f }) == (PresetView { name: d, ..e })
            &&& edited(p, FormView { container: t, ..f }) == (PresetView {
                options: OptionsView { container: Some(d), ..e.options },
                ..e
            })
            &&& edited(p, FormView { output: t, ..f }) == (PresetView {
                options: OptionsView { output_template: d, ..e.options },
                ..e
            })
            &&& edited(p, FormView { dir: t, ..f }) == (PresetView {
                options: OptionsView { download_dir: d, ..e.options },
                ..e
            })
        }),
{
    lemma_trim_takes_the_ends(a, d, b);
}

/// The folder field on its own: without whitespace at its ends it is the preset's
/// directory as it stands.
pub proof fn lemma_folder_is_taken_over(p: PresetView, f: FormView)
    requires
        f.dir.len() == 0 || is_plain(f.dir),
    ensures
        edited(p, f).options.download_dir == f.dir,
{
    lemma_trim_plain(f.dir);
}

/// A blank field falls back: no container, no folder, the usual output template.
pub proof fn lemma_blank_fields_fall_back(p: PresetView, f: FormView, a: Seq<char>)
    requires
        is_blank(a),
    ensures
        ({
            let e = edited(p, f);
            &&& edited(p, FormView { container: a, ..f }) == (PresetView {
                options: OptionsView { container: None, ..e.options },
                ..e
            })
            &&& edited(p, FormView { output: a, ..f }) == (PresetView {
                options: OptionsView {
                    output_template: "%(title)s [%(id)s].%(ext)s"@,
                    ..e.options
                },
                ..e
            })
            &&& edited(p, FormView { dir: a, ..f }) == (PresetView {
                options: OptionsView { download_dir: Seq::empty(), ..e.options },
                ..e
            })
        }),
{
    lemma_trim_takes_the_ends(a, a, a);
}

/// The height field is the cap where it holds a number that fits, and no cap where it is
/// blank or holds anything else. It concerns nothing but the cap.
pub proof fn lemma_height_field_is_the_cap(
    p: PresetView,
    f: FormView,
    a: Seq<char>,
    h: u32,
    b: Seq<char>,
    d: Seq<char>,
    i: int,
)
    requires
        is_blank(a),
        is_blank(b),
    ensures
        ({
            let e = edited(p, f);
            let none = PresetView { options: OptionsView { max_height: None, ..e.options }, ..e };
            &&& edited(p, FormView { max_height: a + decimal(h as nat) + b, ..f })
                == (PresetView {
                options: OptionsView { max_height: Some(h), ..e.options },
                ..e
            })
            &&& edited(p, FormView { max_height: a, ..f }) == none
            &&& is_plain(d) && 0 <= i < d.len() && !('0' <= d[i] <= '9') && (i > 0 || d[i] != '+')
                ==> edited(p, FormView { max_height: a + d + b, ..f }) == none
        }),
{
    lemma_decimal_plain(h as nat);
    lemma_trim_takes_the_ends(a, decimal(h as nat), b);
    lemma_numbers_are_read_up_to_the_limit(h as nat, u32::MAX as nat);
    if is_plain(d) && 0 <= i < d.len() && !('0' <= d[i] <= '9') && (i > 0 || d[i] != '+') {
        lemma_trim_takes_the_ends(a, d, b);
        lemma_no_number_with_other_characters(d, i, u32::MAX as nat);
    }
}

/// The languages are those in the field with commas between; the arguments are the words
/// of theirs. Blank fields mean none. Neither field concerns anything else.
pub proof fn lemma_list_fields_are_taken_over(
    p: PresetView,
    f: FormView,
    langs: Seq<Seq<char>>,
    args: Seq<Seq<char>>,
    a: Seq<char>,
)
    requires
        is_blank(a),
        forall|i: int|
            0 <= i < langs.len() ==> is_plain(#[trigger] langs[i]) && !langs[i].contains(','),
        forall|i: int| 0 <= i < args.len() ==> is_word(#[trigger] args[i]),
    ensures
        ({
            let e = edited(p, f);
            &&& edited(p, FormView { subs: join_spec(langs, ","@), ..f }) == (PresetView {
                options: OptionsView { subtitle_langs: langs, ..e.options },
                ..e
            })
            &&& edited(p, FormView { extra: join_spec(args, " "@), ..f }) == (PresetView {
                options: OptionsView { extra_args: args, ..e.options },
                ..e
            })
            &&& edited(p, FormView { subs: a, ..f }) == (PresetView {
                options: OptionsView { subtitle_langs: Seq::empty(), ..e.options },
                ..e
            })
            &&& edited(p, FormView { extra: a, ..f }) == (PresetView {
                options: OptionsView { extra_args: Seq::empty(), ..e.options },
                ..e
            })
        }),
{
    let none = Seq::<Seq<char>>::empty();
    let nothing = Seq::<char>::empty();
    reveal_strlit(",");
    reveal_strlit(" ");
    assert(","@ =~= seq![',']);
    assert(" "@ =~= seq![' ']);
    lemma_trim_takes_the_ends(a, a, a);
    lemma_trim_plain(nothing);
    assert(split_spec(nothing, ',') =~= seq![nothing]);
    assert(seq![nothing].drop_last() =~= none);
    assert(trimmed_pieces(seq![nothing]) =~= none) by {
        reveal_with_fuel(trimmed_pieces, 2);
    }
    assert(words_spec(nothing) =~= none);
    if langs.len() > 0 {
        lemma_join_plain(langs, ","@);
        lemma_trim_plain(join_spec(langs, ","@));
        lemma_split_join(langs, ',');
        lemma_trimmed_pieces_plain(langs);
    } else {
        assert(langs =~= none);
        assert(join_spec(langs, ","@) =~= nothing);
    }
    if args.len() > 0 {
        assert forall|i: int| 0 <= i < args.len() implies is_plain(#[trigger] args[i]) by {
            assert(is_word(args[i]));
        }
        lemma_join_plain(args, " "@);
        lemma_trim_plain(join_spec(args, " "@));
        lemma_words_join(args, ' ');
    } else {
        assert(args =~= none);
        assert(join_spec(args, " "@) =~= nothing);
    }
}

/// The codec field is the codec of a preset for sound, the format field the selector of
/// one with a selector of its own; blank they mean mp3 and the best there is. To any
/// other preset they are nothing.
pub proof fn lemma_format_fields_are_taken_over(
    p: PresetView,
    f: FormView,
    a: Seq<char>,
    d: Seq<char>,
    b: Seq<char>,
)
    requires
        is_blank(a),
        is_blank(b),
        is_plain(d),
    ensures
        ({
            let e = edited(p, f);
            let t = a + d + b;
            let coded = edited(p, FormView { codec: t, ..f });
            let custom = edited(p, FormView { custom_fmt: t, ..f });
            &&& coded == (PresetView {
                options: OptionsView { format: coded.options.format, ..e.options },
                ..e
            })
            &&& custom == (PresetView {
                options: OptionsView { format: custom.options.format, ..e.options },
                ..e
            })
            &&& p.options.format is AudioOnly ==> {
                &&& coded.options.format == (FormatView::AudioOnly { codec: d })
                &&& edited(p, FormView { codec: a, ..f }).options.format
                    == (FormatView::AudioOnly { codec: "mp3"@ })
                &&& custom == e
            }
            &&& p.options.format is Custom ==> {
                &&& custom.options.format == FormatView::Custom(d)
                &&& edited(p, FormView { custom_fmt: a, ..f }).options.format == FormatView::Custom(
                    "bv*+ba/b"@,
                )
                &&& coded == e
            }
            &&& p.options.format is BestVideoAudio ==> coded == e && custom == e
                && e.options.format is BestVideoAudio
        }),
{
    lemma_trim_takes_the_ends(a, d, b);
}

/// What has no text field stays as it is on the preset.
pub proof fn lemma_saving_keeps_what_has_no_field(p: PresetView, f: FormView)
    ensures
        ({
            let (e, o) = (edited(p, f), p.options);
            &&& e.is_default == p.is_default
            &&& e.options.embed_subs == o.embed_subs
            &&& e.options.embed_thumbnail == o.embed_thumbnail
            &&& e.options.embed_metadata == o.embed_metadata
            &&& e.options.download_archive == o.download_archive
            &&& e.options.sponsorblock_remove == o.sponsorblock_remove
            &&& e.options.rate_limit == o.rate_limit
            &&& e.options.concurrent_fragments == o.concurrent_fragments
            &&& e.options.cookies_from_browser == o.cookies_from_browser
            &&& e.options.retries == o.retries
        }),
{
}

/// Each field shows its own option: a number in digits, a list with commas or spaces
/// between, and nothing where the option is not set.
pub proof fn lemma_fields_show_the_preset(p: PresetView)
    ensures
        ({
            let (f, o) = (form_of(p), p.options);
            &&& f.name == p.name && f.output == o.output_template && f.dir == o.download_dir
            &&& o.max_height is Some ==> f.max_height == decimal(o.max_height->0 as nat)
            &&& o.max_height is None ==> f.max_height.len() == 0
            &&& o.container is Some ==> f.container == o.container->0
            &&& o.container is None ==> f.container.len() == 0
            &&& f.subs == join_spec(o.subtitle_langs, ","@)
            &&& f.extra == join_spec(o.extra_args, " "@)
            &&& match o.format {
                FormatView::AudioOnly { codec } => f.codec == codec && f.custom_fmt.len() == 0,
                FormatView::Custom(sel) => f.custom_fmt == sel && f.codec.len() == 0,
                FormatView::BestVideoAudio => f.codec.len() == 0 && f.custom_fmt.len() == 0,
            }
        }),
{
}

/// A switch sets its own option and no other, and shows how that option stands.
pub proof fn lemma_switch_sets_its_own_option(o: OptionsView, checked: bool)
    ensures
        Toggle::EmbedThumbnail.sets(o, checked) == (OptionsView { embed_thumbnail: checked, ..o }),
        Toggle::EmbedMetadata.sets(o, checked) == (OptionsView { embed_metadata: checked, ..o }),
        Toggle::EmbedSubs.sets(o, checked) == (OptionsView { embed_subs: checked, ..o }),
        Toggle::DownloadArchive.sets(o, checked) == (OptionsView {
            download_archive: checked,
            ..o
        }),
        Toggle::EmbedThumbnail.reads(o) == o.embed_thumbnail,
        Toggle::EmbedMetadata.reads(o) == o.embed_metadata,
        Toggle::EmbedSubs.reads(o) == o.embed_subs,
        Toggle::DownloadArchive.reads(o) == o.download_archive,
        forall|t: Toggle, u: Toggle|
            #![trigger t.sets(o, checked), u.reads(o)]
            u.reads(t.sets(o, checked)) == (if t == u {
                checked
            } else {
                u.reads(o)
            }),
{
}

/// A chosen source is the one shown afterwards. Sound starts as mp3, a selector of one's
/// own as the best there is.
pub proof fn lemma_source_round_trip(source: Source, f: FormatView)
    ensures
        Source::of(source.format()) == source,
        source is Best ==> source.format() is BestVideoAudio,
        source is Audio ==> source.format() == (FormatView::AudioOnly { codec: "mp3"@ }),
        source is Custom ==> source.format() == FormatView::Custom("bv*+ba/b"@),
        Source::of(f) is Best <==> f is BestVideoAudio,
        Source::of(f) is Audio <==> f is AudioOnly,
        Source::of(f) is Custom <==> f is Custom,
{
}

/// The presets with the one at `m` replaced, or, with `m` past the last, with one more.
pub open spec fn replaced(presets: Seq<PresetView>, m: int, preset: PresetView) -> Seq<PresetView> {
    if m < presets.len() {
        presets.update(m, preset)
    } else {
        presets.push(preset)
    }
}

/// Saving replaces the preset of the name before, or adds one where there is none; every
/// other preset stays, but that it is no default any more where the saved one is.
pub proof fn lemma_saving_keeps_the_other_presets(
    presets: Seq<PresetView>,
    previous: Seq<char>,
    preset: PresetView,
    m: int,
)
    requires
        0 <= m <= presets.len(),
        m < presets.len() ==> presets[m].name == previous,
        forall|i: int| 0 <= i < m ==> (#[trigger] presets[i]).name != previous,
    ensures
        ({
            let list = saved_list(presets, previous, preset);
            let put = replaced(presets, m, preset);
            &&& names_in_order(list)
            &&& list.len() == put.len()
            &&& !preset.is_default ==> list.to_multiset() == put.to_multiset()
            &&& preset.is_default ==> list.to_multiset() == put.map_values(
                |q: PresetView| PresetView { is_default: q.name == preset.name, ..q },
            ).to_multiset()
        }),
{
    lemma_preset_pos(presets, previous, m);
    let put = replaced(presets, m, preset);
    let only = put.map_values(
        |q: PresetView| PresetView { is_default: q.name == preset.name, ..q },
    );
    assert(only_default(put, preset.name) =~= only);
    let before = if preset.is_default {
        only
    } else {
        put
    };
    lemma_by_name(before);
    broadcast use vstd::seq_lib::group_to_multiset_ensures;
    assert(by_name(before).len() == before.to_multiset().len());
}

/// Saving keeps the preset open as it was saved, and a choice of it follows its name; all
/// but the presets stays as it is.
pub proof fn lemma_saving_follows_a_rename(s: SessionView, f: FormView)
    requires
        s.editing is Some,
    ensures
        ({
            let t = editing_saved(s, f);
            let preset = edited(s.editing->0, f);
            &&& t.editing == Some(preset)
            &&& t.presets == saved_list(s.presets, s.editing->0.name, preset)
            &&& s.chosen_preset == Some(s.editing->0.name) ==> t.chosen_preset == Some(preset.name)
            &&& s.chosen_preset != Some(s.editing->0.name) ==> t.chosen_preset == s.chosen_preset
            &&& t == (SessionView {
                presets: t.presets,
                chosen_preset: t.chosen_preset,
                editing: t.editing,
                ..s
            })
        }),
{
}

proof fn lemma_without_preset_filters(presets: Seq<PresetView>, name: Seq<char>)
    ensures
        without_preset(presets, name) == presets.filter(|q: PresetView| q.name != name),
    decreases presets.len(),
{
    reveal(Seq::filter);
    if presets.len() > 0 {
        lemma_without_preset_filters(presets.drop_last(), name);
    }
}

/// Deleting takes the preset from the list and leaves the others in their order; where it
/// was chosen, the first one left is. All else stays, and with none open all does.
pub proof fn lemma_deleting_keeps_the_other_presets(s: SessionView)
    ensures
        s.editing is None ==> editing_deleted(s) == s,
        s.editing is Some ==> ({
            let t = editing_deleted(s);
            let name = s.editing->0.name;
            &&& t.presets == s.presets.filter(|q: PresetView| q.name != name)
            &&& t.editing is None
            &&& s.chosen_preset != Some(name) ==> t.chosen_preset == s.chosen_preset
            &&& s.chosen_preset == Some(name) && t.presets.len() > 0 ==> t.chosen_preset == Some(
                t.presets[0].name,
            )
            &&& s.chosen_preset == Some(name) && t.presets.len() == 0 ==> t.chosen_preset is None
            &&& t == (SessionView {
                presets: t.presets,
                chosen_preset: t.chosen_preset,
                editing: None,
                ..s
            })
        }),
{
    if s.editing is Some {
        lemma_without_preset_filters(s.presets, s.editing->0.name);
    }
}

proof fn lemma_place_keeps_order(sorted: Seq<PresetView>, p: PresetView, name: Seq<char>)
    ensures
        place(sorted, p).filter(|q: PresetView| q.name == name) == (if p.name == name {
            sorted.filter(|q: PresetView| q.name == name).push(p)
        } else {
            sorted.filter(|q: PresetView| q.name == name)
        }),
    decreases sorted.len(),
{
    reveal(Seq::filter);
    if sorted.len() > 0 && before(p.name, sorted.last().name) {
        let rest = place(sorted.drop_last(), p);
        lemma_before_total(p.name, sorted.last().name);
        lemma_place_keeps_order(sorted.drop_last(), p, name);
        assert(rest.push(sorted.last()).drop_last() =~= rest);
    } else {
        assert(sorted.push(p).drop_last() =~= sorted);
    }
}

/// Sorting keeps presets of one name in the order they stood in.
pub proof fn lemma_presets_of_one_name_keep_their_order(presets: Seq<PresetView>, name: Seq<char>)
    ensures
        by_name(presets).filter(|q: PresetView| q.name == name) == presets.filter(
            |q: PresetView| q.name == name,
        ),
    decreases presets.len(),
{
    reveal(Seq::filter);
    if presets.len() > 0 {
        lemma_presets_of_one_name_keep_their_order(presets.drop_last(), name);
        lemma_place_keeps_order(by_name(presets.drop_last()), presets.last(), name);
    }
}

} // verus!
