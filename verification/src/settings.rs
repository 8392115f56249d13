//! What the settings show: the general section, the list of presets, and the
//! editor of the one being edited.

use vstd::prelude::*;

use crate::model::Preset;
#[allow(unused_imports)]
use crate::model::PresetView;
use crate::presets::{Source, Toggle};
#[allow(unused_imports)]
use crate::paths::all_ascii;
use crate::routing::Focus;
#[allow(unused_imports)]
use crate::screens::bar_button;
use crate::session::Session;
#[allow(unused_imports)]
use crate::session::SessionView;
use crate::text::{concat, concat3, decimal_u64, owned, same};
#[allow(unused_imports)]
use crate::text::{decimal, deep, lemma_deep_push};
use crate::widget::{Action, Button, Field, IconName, Switch};
#[allow(unused_imports)]
use crate::widget::{
    plain_button, toggle_switch, ActionView, ButtonSize, ButtonVariant, ButtonView, FieldView,
    SwitchView,
};
use crate::ytdlp::{FormatMode, YtdlpOptions};
#[allow(unused_imports)]
use crate::ytdlp::{FormatView, OptionsView};

verus! {

/// The title of the screen, and the line under it.
pub const TITLE: &'static str = "Settings";

pub const SUBTITLE: &'static str =
    "App behavior, and presets for how yt-dlp fetches and saves a download.";

/// What stands in for the editor while no preset is being edited.
pub const NOTHING_EDITED: &'static str = "No preset selected";

pub const NOTHING_EDITED_HINT: &'static str = "Choose a preset on the left, or create a new one.";

/// What is said before any update of yt-dlp.
pub const NO_UPDATE_YET: &'static str = "Downloads start staggered; no concurrency cap.";

/// The badge of a setting that is laid out but does nothing yet.
pub const COMING_SOON: &'static str = "Coming soon";

// ---------------------------------------------------------------------------
// Presets
// ---------------------------------------------------------------------------

/// The uppercase form of a text, by Unicode's rules.
pub uninterp spec fn uppercase(s: Seq<char>) -> Seq<char>;

/// A Latin small letter as its capital; any other of the first 128 as it is.
pub open spec fn ascii_upper(c: char) -> char {
    if 'a' <= c <= 'z' {
        (c as int - 32) as char
    } else {
        c
    }
}

/// `str::to_uppercase`: the result depends on the text alone, and on text of
/// the first 128 characters it makes each small Latin letter a capital and keeps
/// the rest.
pub assume_specification[ str::to_uppercase ](string: &str) -> (raised: String)
    ensures
        raised@ == uppercase(string@),
        all_ascii(string@) ==> raised@ == string@.map_values(|c: char| ascii_upper(c)),
;

/// What a preset does, in one line. `codec` is the audio codec as it is shown.
pub open spec fn summary_text(o: OptionsView, codec: Seq<char>) -> Seq<char> {
    match o.format {
        FormatView::BestVideoAudio => match (o.max_height, o.container) {
            (Some(h), Some(c)) => "Up to "@ + decimal(h as nat) + "p · "@ + c,
            (Some(h), None) => "Up to "@ + decimal(h as nat) + "p"@,
            (None, Some(c)) => "Best quality · "@ + c,
            (None, None) => "Best video + audio"@,
        },
        FormatView::AudioOnly { codec: _ } => "Audio only · "@ + codec,
        FormatView::Custom(_) => "Custom format selector"@,
    }
}

/// The codec of options that fetch sound alone, in capitals.
pub open spec fn shown_codec(o: OptionsView) -> Seq<char> {
    match o.format {
        FormatView::AudioOnly { codec } => uppercase(codec),
        _ => Seq::empty(),
    }
}

/// What options do, in one line. `codec` is the audio codec as it is shown.
pub fn summary_with(o: &YtdlpOptions, codec: &str) -> (r: String)
    ensures
        r@ == summary_text(o@, codec@),
{
    match &o.format {
        FormatMode::BestVideoAudio => match (o.max_height, &o.container) {
            (Some(h), Some(c)) => {
                let head: String = concat3("Up to ", decimal_u64(h as u64).as_str(), "p · ");
                concat(head.as_str(), c.as_str())
            },
            (Some(h), None) => concat3("Up to ", decimal_u64(h as u64).as_str(), "p"),
            (None, Some(c)) => concat("Best quality · ", c.as_str()),
            (None, None) => owned("Best video + audio"),
        },
        FormatMode::AudioOnly { codec: _ } => concat("Audio only · ", codec),
        FormatMode::Custom(_) => owned("Custom format selector"),
    }
}

/// What options do, in one line.
pub fn preset_summary(o: &YtdlpOptions) -> (r: String)
    ensures
        r@ == summary_text(o@, shown_codec(o@)),
{
    let codec: String = match &o.format {
        FormatMode::AudioOnly { codec } => codec.as_str().to_uppercase(),
        _ => String::new(),
    };
    let r: String = summary_with(o, codec.as_str());
    r
}

/// A preset in the list.
#[derive(Debug)]
pub struct PresetRow {
    pub id: String,
    pub name: String,
    pub summary: String,
    pub is_default: bool,
    /// Whether it is the one being edited.
    pub active: bool,
    pub action: Action,
}

/// Whether a row is that of a preset.
pub open spec fn is_preset_row_of(r: PresetRow, s: SessionView, p: PresetView) -> bool {
    &&& r.id@ == "preset-"@ + p.name
    &&& r.name@ == p.name
    &&& r.summary@ == summary_text(p.options, shown_codec(p.options))
    &&& r.is_default == p.is_default
    &&& r.active == (s.editing is Some && s.editing->0.name == p.name)
    &&& r.action@ == ActionView::EditPreset(p.name)
}

// ---------------------------------------------------------------------------
// The editor
// ---------------------------------------------------------------------------

/// A control of the editor.
#[derive(Debug)]
pub enum Control {
    Field(Field),
    /// The choice of what to fetch, of which one is on.
    Source(Vec<Button>),
    Switch(Switch),
}

/// The value of a `Control`.
pub enum ControlView {
    Field(FieldView),
    Source(Seq<ButtonView>),
    Switch(SwitchView),
}

impl View for Control {
    type V = ControlView;

    open spec fn view(&self) -> ControlView {
        match self {
            Control::Field(f) => ControlView::Field(f@),
            Control::Source(b) => ControlView::Source(deep(b@)),
            Control::Switch(s) => ControlView::Switch(s@),
        }
    }
}

/// A card of the editor: its title, and its controls in rows.
#[derive(Debug)]
pub struct Section {
    pub title: String,
    pub rows: Vec<Row>,
}

/// Controls that stand side by side where there is room.
#[derive(Debug)]
pub struct Row {
    pub controls: Vec<Control>,
}

impl View for Row {
    type V = Seq<ControlView>;

    open spec fn view(&self) -> Seq<ControlView> {
        deep(self.controls@)
    }
}

/// The value of a `Section`.
#[verifier::ext_equal]
pub struct SectionView {
    pub title: Seq<char>,
    pub rows: Seq<Seq<ControlView>>,
}

impl View for Section {
    type V = SectionView;

    open spec fn view(&self) -> SectionView {
        SectionView { title: self.title@, rows: deep(self.rows@) }
    }
}

/// The editor of a preset.
#[derive(Debug)]
pub struct PresetEditor {
    pub sections: Vec<Section>,
    pub default_switch: Switch,
    pub delete: Button,
    pub save: Button,
}

/// A button of the source control.
pub open spec fn source_button(
    id: Seq<char>,
    label: Seq<char>,
    source: Source,
    chosen: Source,
) -> ButtonView {
    ButtonView {
        size: ButtonSize::Small,
        variant: ButtonVariant::Subtle,
        selected: source == chosen,
        label: Some(label),
        ..plain_button(id, ActionView::SetSource(source))
    }
}

/// The source control: exactly the chosen source is on.
pub open spec fn source_buttons(chosen: Source) -> Seq<ButtonView> {
    seq![
        source_button("fmt-best"@, "Video + audio"@, Source::Best, chosen),
        source_button("fmt-audio"@, "Audio only"@, Source::Audio, chosen),
        source_button("fmt-custom"@, "Custom -f"@, Source::Custom, chosen),
    ]
}

/// A field of the editor.
pub open spec fn field(label: Seq<char>, focus: Focus) -> ControlView {
    ControlView::Field(FieldView { label, focus })
}

/// The rows that belong to a source alone.
pub open spec fn source_rows(chosen: Source) -> Seq<Seq<ControlView>> {
    match chosen {
        Source::Audio => seq![seq![field("Audio codec"@, Focus::Codec)]],
        Source::Custom => seq![seq![field("Format selector"@, Focus::CustomFmt)]],
        Source::Best => seq![
            seq![field("Max height"@, Focus::MaxHeight), field("Container"@, Focus::Container)],
        ],
    }
}

/// The switches of the options.
pub open spec fn option_switches(o: OptionsView) -> Seq<ControlView> {
    seq![
        ControlView::Switch(
            toggle_switch(
                "sw-thumb"@,
                "Embed thumbnail"@,
                Toggle::EmbedThumbnail,
                o.embed_thumbnail,
            ),
        ),
        ControlView::Switch(
            toggle_switch(
                "sw-meta"@,
                "Embed metadata"@,
                Toggle::EmbedMetadata,
                o.embed_metadata,
            ),
        ),
        ControlView::Switch(
            toggle_switch("sw-subs"@, "Embed subtitles"@, Toggle::EmbedSubs, o.embed_subs),
        ),
        ControlView::Switch(
            toggle_switch(
                "sw-archive"@,
                "Skip already-downloaded (archive)"@,
                Toggle::DownloadArchive,
                o.download_archive,
            ),
        ),
    ]
}

/// The cards of the editor.
pub open spec fn editor_sections(o: OptionsView) -> Seq<SectionView> {
    let chosen = Source::of(o.format);
    seq![
        SectionView {
            title: "Format"@,
            rows: seq![
                seq![field("Name"@, Focus::Name)],
                seq![ControlView::Source(source_buttons(chosen))],
            ] + source_rows(chosen),
        },
        SectionView {
            title: "Output"@,
            rows: seq![
                seq![field("Output template"@, Focus::Output)],
                seq![
                    field("Download folder"@, Focus::Dir),
                    field("Subtitle languages"@, Focus::Subs),
                ],
            ],
        },
        SectionView { title: "Post-processing"@, rows: seq![option_switches(o)] },
        SectionView {
            title: "Advanced"@,
            rows: seq![seq![field("Additional arguments"@, Focus::Extra)]],
        },
    ]
}

/// Whether an editor is that of a preset.
pub open spec fn is_editor_of(e: PresetEditor, p: PresetView) -> bool {
    &&& deep(e.sections@) == editor_sections(p.options)
    &&& e.default_switch@ == (SwitchView {
        id: "sw-default"@,
        label: "Use as default"@,
        checked: p.is_default,
        action: ActionView::SetDefault(!p.is_default),
    })
    &&& e.delete@ == (ButtonView {
        variant: ButtonVariant::Subtle,
        label: Some("Delete"@),
        ..plain_button("preset-delete"@, ActionView::DeletePreset)
    })
    &&& e.save@ == (ButtonView {
        variant: ButtonVariant::Primary,
        label: Some("Save preset"@),
        ..plain_button("preset-save"@, ActionView::SavePreset)
    })
}

fn one(control: Control) -> (r: Row)
    ensures
        r@ == seq![control@],
{
    let mut controls: Vec<Control> = Vec::new();
    controls.push(control);
    assert(deep(controls@) =~= seq![control@]);
    Row { controls }
}

fn two(first: Control, second: Control) -> (r: Row)
    ensures
        r@ == seq![first@, second@],
{
    let mut controls: Vec<Control> = Vec::new();
    controls.push(first);
    controls.push(second);
    assert(deep(controls@) =~= seq![first@, second@]);
    Row { controls }
}

fn text_field(label: &str, focus: Focus) -> (r: Control)
    ensures
        r@ == field(label@, focus),
{
    Control::Field(Field::new(label, focus))
}

fn source_control(chosen: Source) -> (r: Vec<Button>)
    ensures
        deep(r@) == source_buttons(chosen),
{
    broadcast use lemma_deep_push;

    let mut r: Vec<Button> = Vec::new();
    r.push(
        Button::new("fmt-best", Action::SetSource(Source::Best)).ghost().small().selected(
            chosen == Source::Best,
        ).label("Video + audio"),
    );
    r.push(
        Button::new("fmt-audio", Action::SetSource(Source::Audio)).ghost().small().selected(
            chosen == Source::Audio,
        ).label("Audio only"),
    );
    r.push(
        Button::new("fmt-custom", Action::SetSource(Source::Custom)).ghost().small().selected(
            chosen == Source::Custom,
        ).label("Custom -f"),
    );
    assert(deep(r@) =~= source_buttons(chosen));
    r
}

fn format_section(chosen: Source) -> (r: Section)
    ensures
        r@ == (SectionView {
            title: "Format"@,
            rows: seq![
                seq![field("Name"@, Focus::Name)],
                seq![ControlView::Source(source_buttons(chosen))],
            ] + source_rows(chosen),
        }),
{
    broadcast use lemma_deep_push;

    let mut rows: Vec<Row> = Vec::new();
    rows.push(one(text_field("Name", Focus::Name)));
    rows.push(one(Control::Source(source_control(chosen))));
    match chosen {
        Source::Audio => {
            rows.push(one(text_field("Audio codec", Focus::Codec)));
        },
        Source::Custom => {
            rows.push(one(text_field("Format selector", Focus::CustomFmt)));
        },
        Source::Best => {
            rows.push(
                two(
                    text_field("Max height", Focus::MaxHeight),
                    text_field("Container", Focus::Container),
                ),
            );
        },
    }
    assert(deep(rows@) =~= seq![
        seq![field("Name"@, Focus::Name)],
        seq![ControlView::Source(source_buttons(chosen))],
    ] + source_rows(chosen));
    Section { title: owned("Format"), rows }
}

fn output_section() -> (r: Section)
    ensures
        r@ == (SectionView {
            title: "Output"@,
            rows: seq![
                seq![field("Output template"@, Focus::Output)],
                seq![
                    field("Download folder"@, Focus::Dir),
                    field("Subtitle languages"@, Focus::Subs),
                ],
            ],
        }),
{
    broadcast use lemma_deep_push;

    let mut rows: Vec<Row> = Vec::new();
    rows.push(one(text_field("Output template", Focus::Output)));
    rows.push(
        two(
            text_field("Download folder", Focus::Dir),
            text_field("Subtitle languages", Focus::Subs),
        ),
    );
    assert(deep(rows@) =~= seq![
        seq![field("Output template"@, Focus::Output)],
        seq![field("Download folder"@, Focus::Dir), field("Subtitle languages"@, Focus::Subs)],
    ]);
    Section { title: owned("Output"), rows }
}

fn switch_section(o: &YtdlpOptions) -> (r: Section)
    ensures
        r@ == (SectionView { title: "Post-processing"@, rows: seq![option_switches(o@)] }),
{
    broadcast use lemma_deep_push;

    let mut controls: Vec<Control> = Vec::new();
    controls.push(
        Control::Switch(
            Switch::toggle(
                "sw-thumb",
                "Embed thumbnail",
                Toggle::EmbedThumbnail,
                o.embed_thumbnail,
            ),
        ),
    );
    controls.push(
        Control::Switch(
            Switch::toggle("sw-meta", "Embed metadata", Toggle::EmbedMetadata, o.embed_metadata),
        ),
    );
    controls.push(
        Control::Switch(
            Switch::toggle("sw-subs", "Embed subtitles", Toggle::EmbedSubs, o.embed_subs),
        ),
    );
    controls.push(
        Control::Switch(
            Switch::toggle(
                "sw-archive",
                "Skip already-downloaded (archive)",
                Toggle::DownloadArchive,
                o.download_archive,
            ),
        ),
    );
    assert(deep(controls@) =~= option_switches(o@));
    let mut rows: Vec<Row> = Vec::new();
    rows.push(Row { controls });
    assert(deep(rows@) =~= seq![option_switches(o@)]);
    Section { title: owned("Post-processing"), rows }
}

fn advanced_section() -> (r: Section)
    ensures
        r@ == (SectionView {
            title: "Advanced"@,
            rows: seq![seq![field("Additional arguments"@, Focus::Extra)]],
        }),
{
    let mut rows: Vec<Row> = Vec::new();
    rows.push(one(text_field("Additional arguments", Focus::Extra)));
    assert(deep(rows@) =~= seq![seq![field("Additional arguments"@, Focus::Extra)]]);
    Section { title: owned("Advanced"), rows }
}

/// The editor of a preset.
pub fn preset_editor(p: &Preset) -> (r: PresetEditor)
    ensures
        is_editor_of(r, p@),
{
    broadcast use lemma_deep_push;

    let chosen: Source = Source::of_format(&p.options.format);
    let mut sections: Vec<Section> = Vec::new();
    sections.push(format_section(chosen));
    sections.push(output_section());
    sections.push(switch_section(&p.options));
    sections.push(advanced_section());
    assert(deep(sections@) =~= editor_sections(p@.options));
    PresetEditor {
        sections,
        default_switch: Switch {
            id: owned("sw-default"),
            label: owned("Use as default"),
            checked: p.is_default,
            action: Action::SetDefault(!p.is_default),
        },
        delete: Button::new("preset-delete", Action::DeletePreset).ghost().label("Delete"),
        save: Button::new("preset-save", Action::SavePreset).primary().label("Save preset"),
    }
}

// ---------------------------------------------------------------------------
// The screen
// ---------------------------------------------------------------------------

/// The settings.
#[derive(Debug)]
pub struct Settings {
    pub back: Button,
    /// Where yt-dlp is.
    pub ytdlp: String,
    /// Buttons for yt-dlp.
    pub tools: Vec<Button>,
    /// What the last update of yt-dlp came to.
    pub status: String,
    /// Settings that do nothing yet.
    pub coming_soon: Vec<&'static str>,
    pub presets: Vec<PresetRow>,
    pub new_preset: Button,
    /// None while no preset is being edited.
    pub editor: Option<PresetEditor>,
}

/// The buttons for yt-dlp.
pub open spec fn tool_buttons() -> Seq<ButtonView> {
    seq![
        ButtonView {
            size: ButtonSize::Small,
            variant: ButtonVariant::Subtle,
            label: Some("Re-check binaries"@),
            ..plain_button("recheck-bin"@, ActionView::RefreshYtdlp)
        },
        ButtonView {
            size: ButtonSize::Small,
            variant: ButtonVariant::Subtle,
            label: Some("Update yt-dlp"@),
            ..plain_button("update-ytdlp"@, ActionView::UpdateYtdlp)
        },
    ]
}

/// Whether a value is what the settings show of a state.
pub open spec fn is_settings_of(r: Settings, s: SessionView) -> bool {
    &&& r.back@ == bar_button("settings-back"@, IconName::ChevronLeft, ActionView::LeaveSettings)
    &&& r.ytdlp@ == (match s.ytdlp {
        Some(path) => path,
        None => "Not found"@,
    })
    &&& deep(r.tools@) == tool_buttons()
    &&& r.status@ == (match s.update_status {
        Some(text) => text,
        None => NO_UPDATE_YET@,
    })
    &&& deep(r.coming_soon@) == seq!["Minimize to tray on close"@, "Theme"@]
    &&& r.presets@.len() == s.presets.len()
    &&& forall|i: int|
        0 <= i < s.presets.len() ==> is_preset_row_of(#[trigger] r.presets@[i], s, s.presets[i])
    &&& r.new_preset@ == (ButtonView {
        label: Some("New preset"@),
        ..bar_button("preset-new"@, IconName::Plus, ActionView::NewPreset)
    })
    &&& match r.editor {
        Some(e) => s.editing is Some && is_editor_of(e, s.editing->0),
        None => s.editing is None,
    }
}

impl Session {
    fn preset_row(&self, p: &Preset) -> (r: PresetRow)
        ensures
            is_preset_row_of(r, self@, p@),
    {
        let active: bool = match &self.editing {
            Some(e) => same(e.name.as_str(), p.name.as_str()),
            None => false,
        };
        PresetRow {
            id: concat("preset-", p.name.as_str()),
            name: owned(p.name.as_str()),
            summary: preset_summary(&p.options),
            is_default: p.is_default,
            active,
            action: Action::EditPreset(owned(p.name.as_str())),
        }
    }

    /// What the settings show.
    pub fn settings(&self) -> (r: Settings)
        ensures
            is_settings_of(r, self@),
    {
        broadcast use lemma_deep_push;

        let ghost all = self@.presets;
        let mut presets: Vec<PresetRow> = Vec::new();
        let mut i: usize = 0;
        while i < self.presets.len()
            invariant
                i <= self.presets@.len(),
                all == deep(self.presets@),
                presets@.len() == i,
                forall|k: int|
                    0 <= k < i ==> is_preset_row_of(#[trigger] presets@[k], self@, all[k]),
            decreases self.presets@.len() - i,
        {
            assert(all[i as int] == self.presets@[i as int]@);
            presets.push(self.preset_row(&self.presets[i]));
            i = i + 1;
        }
        let editor: Option<PresetEditor> = match &self.editing {
            Some(p) => Some(preset_editor(p)),
            None => None,
        };
        let ytdlp: String = match &self.ytdlp {
            Some(path) => owned(path.as_str()),
            None => owned("Not found"),
        };
        let status: String = match &self.update_status {
            Some(text) => owned(text.as_str()),
            None => owned(NO_UPDATE_YET),
        };
        let mut tools: Vec<Button> = Vec::new();
        tools.push(
            Button::new("recheck-bin", Action::RefreshYtdlp).ghost().small().label(
                "Re-check binaries",
            ),
        );
        tools.push(
            Button::new("update-ytdlp", Action::UpdateYtdlp).ghost().small().label("Update yt-dlp"),
        );
        assert(deep(tools@) =~= tool_buttons());
        let mut coming_soon: Vec<&'static str> = Vec::new();
        coming_soon.push("Minimize to tray on close");
        coming_soon.push("Theme");
        assert(deep(coming_soon@) =~= seq!["Minimize to tray on close"@, "Theme"@]);
        Settings {
            back: Button::new("settings-back", Action::LeaveSettings).ghost().icon(
                IconName::ChevronLeft,
            ),
            ytdlp,
            tools,
            status,
            coming_soon,
            presets,
            new_preset: Button::new("preset-new", Action::NewPreset).ghost().icon(
                IconName::Plus,
            ).label("New preset"),
            editor,
        }
    }
}

/// Exactly one source is on, and the editor offers the fields of that source and
/// of no other.
pub proof fn lemma_one_source_is_chosen(chosen: Source, other: Source)
    ensures
        source_buttons(chosen).len() == 3,
        forall|i: int|
            0 <= i < 3 ==> ((#[trigger] source_buttons(chosen)[i]).selected <==> source_buttons(
                chosen,
            )[i].action == ActionView::SetSource(chosen)),
        other != chosen ==> source_rows(chosen)[0][0] != source_rows(other)[0][0],
{
}

// ---------------------------------------------------------------------------
// What each part shows
// ---------------------------------------------------------------------------

/// A preset is summed up by its cap and its container, each where there is one; by its
/// codec in capitals where it fetches sound alone; and as having a selector of its own.
pub proof fn lemma_preset_is_summed_up(o: OptionsView)
    ensures
        ({
            let text = summary_text(o, shown_codec(o));
            let (h, c) = (o.max_height, o.container);
            &&& o.format matches FormatView::AudioOnly { codec } ==> text == "Audio only · "@
                + uppercase(codec)
            &&& o.format is Custom ==> text == "Custom format selector"@
            &&& o.format is BestVideoAudio && h is Some && c is Some ==> text == "Up to "@
                + decimal(h->0 as nat) + "p · "@ + c->0
            &&& o.format is BestVideoAudio && h is Some && c is None ==> text == "Up to "@
                + decimal(h->0 as nat) + "p"@
            &&& o.format is BestVideoAudio && h is None && c is Some ==> text
                == "Best quality · "@ + c->0
            &&& o.format is BestVideoAudio && h is None && c is None ==> text
                == "Best video + audio"@
        }),
{
}

/// A preset is listed by its name with what it does, marked where it is the default and
/// where it is being edited, and opens in the editor.
pub proof fn lemma_row_tells_of_its_preset(r: PresetRow, s: SessionView, p: PresetView)
    requires
        is_preset_row_of(r, s, p),
    ensures
        r.id@ == "preset-"@ + p.name,
        r.name@ == p.name,
        r.summary@ == summary_text(p.options, shown_codec(p.options)),
        r.is_default == p.is_default,
        s.editing is None ==> !r.active,
        s.editing is Some ==> (r.active <==> s.editing->0.name == p.name),
        r.action@ == ActionView::EditPreset(p.name),
{
}

/// Each source has a button under its own name that chooses it.
pub proof fn lemma_buttons_of_the_sources(chosen: Source)
    ensures
        ({
            let b = source_buttons(chosen);
            &&& b.len() == 3
            &&& b[0].id == "fmt-best"@ && b[0].label == Some("Video + audio"@)
            &&& b[0].action == ActionView::SetSource(Source::Best)
            &&& b[0].selected == (chosen is Best)
            &&& b[1].id == "fmt-audio"@ && b[1].label == Some("Audio only"@)
            &&& b[1].action == ActionView::SetSource(Source::Audio)
            &&& b[1].selected == (chosen is Audio)
            &&& b[2].id == "fmt-custom"@ && b[2].label == Some("Custom -f"@)
            &&& b[2].action == ActionView::SetSource(Source::Custom)
            &&& b[2].selected == (chosen is Custom)
            &&& forall|i: int|
                0 <= i < 3 ==> (#[trigger] b[i]).size is Small && b[i].variant is Subtle
                    && b[i].icon is None
        }),
{
}

/// Whether a control is the text field of that label and place.
pub open spec fn is_field(c: ControlView, label: Seq<char>, focus: Focus) -> bool {
    c matches ControlView::Field(f) && f.label == label && f.focus == focus
}

/// Whether a control is the switch of that id and label for an option, standing as told.
pub open spec fn is_switch(
    c: ControlView,
    id: Seq<char>,
    label: Seq<char>,
    toggle: Toggle,
    checked: bool,
) -> bool {
    c matches ControlView::Switch(s) && s.id == id && s.label == label && s.checked == checked
        && s.action == ActionView::SetToggle(toggle, !checked)
}

/// The editor has a card for the format, with the name, the source and what belongs to the
/// chosen source; one for the output; one for the switches, each showing its own option;
/// and one for further arguments.
pub proof fn lemma_cards_of_the_editor(o: OptionsView)
    ensures
        ({
            let c = editor_sections(o);
            let (format, output, post, more) = (c[0].rows, c[1].rows, c[2].rows, c[3].rows);
            &&& c.len() == 4
            &&& c[0].title == "Format"@ && c[1].title == "Output"@
            &&& c[2].title == "Post-processing"@ && c[3].title == "Advanced"@
            &&& format.len() == 3
            &&& format[0].len() == 1 && is_field(format[0][0], "Name"@, Focus::Name)
            &&& format[1].len() == 1 && format[1][0] is Source
            &&& o.format is BestVideoAudio ==> {
                &&& format[1][0] == ControlView::Source(source_buttons(Source::Best))
                &&& format[2].len() == 2
                &&& is_field(format[2][0], "Max height"@, Focus::MaxHeight)
                &&& is_field(format[2][1], "Container"@, Focus::Container)
            }
            &&& o.format is AudioOnly ==> {
                &&& format[1][0] == ControlView::Source(source_buttons(Source::Audio))
                &&& format[2].len() == 1
                &&& is_field(format[2][0], "Audio codec"@, Focus::Codec)
            }
            &&& o.format is Custom ==> {
                &&& format[1][0] == ControlView::Source(source_buttons(Source::Custom))
                &&& format[2].len() == 1
                &&& is_field(format[2][0], "Format selector"@, Focus::CustomFmt)
            }
            &&& output.len() == 2 && output[0].len() == 1 && output[1].len() == 2
            &&& is_field(output[0][0], "Output template"@, Focus::Output)
            &&& is_field(output[1][0], "Download folder"@, Focus::Dir)
            &&& is_field(output[1][1], "Subtitle languages"@, Focus::Subs)
            &&& post.len() == 1 && post[0].len() == 4
            &&& is_switch(
                post[0][0],
                "sw-thumb"@,
                "Embed thumbnail"@,
                Toggle::EmbedThumbnail,
                o.embed_thumbnail,
            )
            &&& is_switch(
                post[0][1],
                "sw-meta"@,
                "Embed metadata"@,
                Toggle::EmbedMetadata,
                o.embed_metadata,
            )
            &&& is_switch(
                post[0][2],
                "sw-subs"@,
                "Embed subtitles"@,
                Toggle::EmbedSubs,
                o.embed_subs,
            )
            &&& is_switch(
                post[0][3],
                "sw-archive"@,
                "Skip already-downloaded (archive)"@,
                Toggle::DownloadArchive,
                o.download_archive,
            )
            &&& more.len() == 1 && more[0].len() == 1
            &&& is_field(more[0][0], "Additional arguments"@, Focus::Extra)
        }),
{
}

/// The editor's switch for the default shows whether the preset is it and moves it to the
/// other value; its buttons delete and save.
pub proof fn lemma_editor_saves_and_deletes(e: PresetEditor, p: PresetView)
    requires
        is_editor_of(e, p),
    ensures
        deep(e.sections@) == editor_sections(p.options),
        e.default_switch@.id == "sw-default"@,
        e.default_switch@.label == "Use as default"@,
        e.default_switch@.checked == p.is_default,
        e.default_switch@.action == ActionView::SetDefault(!p.is_default),
        e.delete@.id == "preset-delete"@ && e.delete@.label == Some("Delete"@),
        e.delete@.action is DeletePreset && e.delete@.variant is Subtle,
        e.save@.id == "preset-save"@ && e.save@.label == Some("Save preset"@),
        e.save@.action is SavePreset && e.save@.variant is Primary,
{
}

/// The settings tell where yt-dlp is, or that it was not found, and what its last update
/// came to; list the presets in their order; and hold the editor of the preset that is
/// being edited, where one is.
pub proof fn lemma_settings_tell_of_the_state(r: Settings, s: SessionView, i: int)
    requires
        is_settings_of(r, s),
    ensures
        r.back@.id == "settings-back"@ && r.back@.action is LeaveSettings,
        r.back@.icon == Some(IconName::ChevronLeft),
        s.ytdlp is Some ==> r.ytdlp@ == s.ytdlp->0,
        s.ytdlp is None ==> r.ytdlp@ == "Not found"@,
        s.update_status is Some ==> r.status@ == s.update_status->0,
        s.update_status is None ==> r.status@ == "Downloads start staggered; no concurrency cap."@,
        r.presets@.len() == s.presets.len(),
        0 <= i < s.presets.len() ==> r.presets@[i].name@ == s.presets[i].name
            && r.presets@[i].is_default == s.presets[i].is_default,
        r.new_preset@.id == "preset-new"@ && r.new_preset@.label == Some("New preset"@),
        r.new_preset@.action is NewPreset && r.new_preset@.icon == Some(IconName::Plus),
        r.editor is Some <==> s.editing is Some,
        r.editor is Some ==> is_editor_of(r.editor->0, s.editing->0),
        deep(r.tools@).len() == 2,
        deep(r.tools@)[0].id == "recheck-bin"@ && deep(r.tools@)[0].action is RefreshYtdlp,
        deep(r.tools@)[0].label == Some("Re-check binaries"@),
        deep(r.tools@)[1].id == "update-ytdlp"@ && deep(r.tools@)[1].action is UpdateYtdlp,
        deep(r.tools@)[1].label == Some("Update yt-dlp"@),
{
    if 0 <= i < s.presets.len() {
        assert(is_preset_row_of(r.presets@[i], s, s.presets[i]));
    }
}

/// The texts of the settings.
pub proof fn lemma_texts_of_the_settings()
    ensures
        TITLE@ == "Settings"@,
        SUBTITLE@ == "App behavior, and presets for how yt-dlp fetches and saves a download."@,
        NOTHING_EDITED@ == "No preset selected"@,
        NOTHING_EDITED_HINT@ == "Choose a preset on the left, or create a new one."@,
        NO_UPDATE_YET@ == "Downloads start staggered; no concurrency cap."@,
        COMING_SOON@ == "Coming soon"@,
{
}

} // verus!
