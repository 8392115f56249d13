//! What floats over the screens: the New Download dialog, the choice of a
//! target format, and which of the overlays is up.

use vstd::prelude::*;

use crate::paths::file_name;
#[allow(unused_imports)]
use crate::paths::file_name_spec;
use crate::readout::human_duration;
#[allow(unused_imports)]
use crate::readout::{clock_text, whole_part};
use crate::runner::{ConvertFormat, Probe};
#[allow(unused_imports)]
use crate::screens::popover_of;
use crate::session::{ProbeState, Session};
#[allow(unused_imports)]
use crate::session::SessionView;
use crate::text::{concat, concat3, decimal_u64, owned, same};
#[allow(unused_imports)]
use crate::text::{decimal, deep, lemma_deep_push};
use crate::widget::{Action, Button};
#[allow(unused_imports)]
use crate::widget::{plain_button, ActionView, ButtonSize, ButtonVariant, ButtonView};

verus! {

// ---------------------------------------------------------------------------
// New Download
// ---------------------------------------------------------------------------

/// The texts of the dialog.
pub const MODAL_TITLE: &'static str = "New download";

pub const PRESET_LABEL: &'static str = "Preset";

pub const OVERRIDE_LABEL: &'static str = "Override for this download (optional)";

/// What the dialog says of the typed address.
#[derive(Debug)]
pub enum Preview {
    Nothing,
    Note(String),
    Error(String),
    Found { title: String, about: String },
}

/// The value of a `Preview`.
pub enum PreviewView {
    Nothing,
    Note(Seq<char>),
    Error(Seq<char>),
    Found { title: Seq<char>, about: Seq<char> },
}

impl View for Preview {
    type V = PreviewView;

    open spec fn view(&self) -> PreviewView {
        match self {
            Preview::Nothing => PreviewView::Nothing,
            Preview::Note(t) => PreviewView::Note(t@),
            Preview::Error(t) => PreviewView::Error(t@),
            Preview::Found { title, about } => PreviewView::Found { title: title@, about: about@ },
        }
    }
}

/// How many videos a probe found.
pub open spec fn found_count(p: Probe) -> nat {
    if !p.playlist() {
        1
    } else if p.entries is Some {
        p.entries->0@.len()
    } else if p.playlist_count is Some {
        (p.playlist_count->0 as usize) as nat
    } else {
        0
    }
}

/// What is said of what a probe found.
pub open spec fn found_text(p: Probe) -> Seq<char> {
    if p.playlist() {
        "Playlist · "@ + decimal(found_count(p)) + " videos"@
    } else {
        match p.duration {
            Some(d) => "Video · "@ + clock_text(whole_part(d)),
            None => "Video"@,
        }
    }
}

/// What the dialog says of the typed address.
pub open spec fn preview_of(probe: ProbeState) -> PreviewView {
    match probe {
        ProbeState::Idle => PreviewView::Nothing,
        ProbeState::Running => PreviewView::Note("Fetching info…"@),
        ProbeState::Failed(e) => PreviewView::Error(e@),
        ProbeState::Found(p) => PreviewView::Found {
            title: match p.title {
                Some(t) => t@,
                None => Seq::empty(),
            },
            about: found_text(p),
        },
    }
}

/// The buttons that choose a preset.
pub open spec fn preset_buttons(s: SessionView) -> Seq<ButtonView> {
    Seq::new(
        s.presets.len(),
        |i: int|
            ButtonView {
                size: ButtonSize::Small,
                selected: s.chosen_preset == Some(s.presets[i].name),
                label: Some(s.presets[i].name),
                ..plain_button(
                    "pick-"@ + s.presets[i].name,
                    ActionView::ChoosePreset(s.presets[i].name),
                )
            },
    )
}

/// The New Download dialog.
#[derive(Debug)]
pub struct Modal {
    pub preview: Preview,
    pub presets: Vec<Button>,
    pub cancel: Button,
    pub go: Button,
}

/// Whether a value is the New Download dialog of a state.
pub open spec fn is_modal_of(m: Modal, s: SessionView) -> bool {
    &&& m.preview@ == preview_of(s.probe)
    &&& deep(m.presets@) == preset_buttons(s)
    &&& m.cancel@ == (ButtonView {
        variant: ButtonVariant::Subtle,
        label: Some("Cancel"@),
        ..plain_button("cancel"@, ActionView::CloseModal)
    })
    &&& m.go@ == (ButtonView {
        variant: ButtonVariant::Primary,
        label: Some("Download"@),
        ..plain_button("go"@, ActionView::StartDownload)
    })
}

fn describe(p: &Probe) -> (r: String)
    ensures
        r@ == found_text(*p),
{
    if p.is_playlist() {
        let count: usize = p.item_count();
        concat3("Playlist · ", decimal_u64(count as u64).as_str(), " videos")
    } else {
        match p.duration {
            Some(d) => concat("Video · ", human_duration(d).as_str()),
            None => owned("Video"),
        }
    }
}

impl Session {
    /// The New Download dialog.
    pub fn modal(&self) -> (r: Modal)
        ensures
            is_modal_of(r, self@),
    {
        broadcast use lemma_deep_push;

        let preview: Preview = match &self.probe {
            ProbeState::Idle => Preview::Nothing,
            ProbeState::Running => Preview::Note(owned("Fetching info…")),
            ProbeState::Failed(e) => Preview::Error(owned(e.as_str())),
            ProbeState::Found(p) => {
                let title: String = match &p.title {
                    Some(t) => owned(t.as_str()),
                    None => String::new(),
                };
                Preview::Found { title, about: describe(p) }
            },
        };
        assert(preview@ == preview_of(self@.probe)) by {
            match self.probe {
                ProbeState::Found(p) => {
                    assert(preview->Found_title@ =~= preview_of(self@.probe)->Found_title);
                },
                _ => {},
            }
        }
        let ghost wanted = preset_buttons(self@);
        let mut presets: Vec<Button> = Vec::new();
        let mut i: usize = 0;
        while i < self.presets.len()
            invariant
                i <= self.presets@.len(),
                wanted == preset_buttons(self@),
                deep(presets@) == wanted.take(i as int),
            decreases self.presets@.len() - i,
        {
            broadcast use lemma_deep_push;

            let name: &str = self.presets[i].name.as_str();
            assert(self@.presets[i as int] == self.presets@[i as int]@);
            let chosen: bool = match &self.chosen_preset {
                Some(c) => same(c.as_str(), name),
                None => false,
            };
            let button: Button = Button::new(
                concat("pick-", name).as_str(),
                Action::ChoosePreset(owned(name)),
            ).small().selected(chosen).label(name);
            let ghost before = deep(presets@);
            assert(button@ =~= wanted[i as int]);
            presets.push(button);
            i = i + 1;
            assert(deep(presets@) =~= before.push(button@));
            assert(deep(presets@) =~= wanted.take(i as int));
        }
        assert(wanted.take(i as int) =~= wanted);
        Modal {
            preview,
            presets,
            cancel: Button::new("cancel", Action::CloseModal).ghost().label("Cancel"),
            go: Button::new("go", Action::StartDownload).primary().label("Download"),
        }
    }
}

// ---------------------------------------------------------------------------
// The choice of a target format
// ---------------------------------------------------------------------------

pub const PICKER_TITLE: &'static str = "Convert to…";

/// The buttons that choose a target format.
pub open spec fn format_buttons(source: Seq<char>) -> Seq<ButtonView> {
    Seq::new(
        ConvertFormat::all_spec().len(),
        |i: int|
            ButtonView {
                label: Some(ConvertFormat::all_spec()[i].label_spec()),
                ..plain_button(
                    "convert-as-"@ + ConvertFormat::all_spec()[i].key(),
                    ActionView::StartConvert { source, format: ConvertFormat::all_spec()[i] },
                )
            },
    )
}

/// The choice of a target format.
#[derive(Debug)]
pub struct FormatPicker {
    /// The name of the file to convert.
    pub file: String,
    pub formats: Vec<Button>,
    pub cancel: Button,
}

/// Whether a value is the choice of a target format for a file.
pub open spec fn is_picker_of(p: FormatPicker, source: Seq<char>) -> bool {
    &&& p.file@ == file_name_spec(source)
    &&& deep(p.formats@) == format_buttons(source)
    &&& p.cancel@ == (ButtonView {
        variant: ButtonVariant::Subtle,
        label: Some("Cancel"@),
        ..plain_button("cancel-convert"@, ActionView::CancelConvert)
    })
}

impl Session {
    /// The choice of a target format, while one is being made.
    pub fn convert_format_picker(&self) -> (r: Option<FormatPicker>)
        ensures
            match r {
                Some(p) => self@.convert_picker is Some && is_picker_of(p, self@.convert_picker->0),
                None => self@.convert_picker is None,
            },
    {
        match &self.convert_picker {
            None => None,
            Some(source) => {
                let ghost wanted = format_buttons(source@);
                let all: Vec<ConvertFormat> = ConvertFormat::all();
                let mut formats: Vec<Button> = Vec::new();
                let mut i: usize = 0;
                while i < all.len()
                    invariant
                        i <= all@.len(),
                        all@ == ConvertFormat::all_spec(),
                        wanted == format_buttons(source@),
                        deep(formats@) == wanted.take(i as int),
                    decreases all@.len() - i,
                {
                    broadcast use lemma_deep_push;

                    let format: ConvertFormat = all[i];
                    let button: Button = Button::new(
                        concat("convert-as-", format.as_str()).as_str(),
                        Action::StartConvert { source: owned(source.as_str()), format },
                    ).label(format.label());
                    let ghost before = deep(formats@);
                    assert(button@ =~= wanted[i as int]);
                    formats.push(button);
                    i = i + 1;
                    assert(deep(formats@) =~= before.push(button@));
                    assert(deep(formats@) =~= wanted.take(i as int));
                }
                assert(wanted.take(i as int) =~= wanted);
                Some(
                    FormatPicker {
                        file: file_name(source.as_str()),
                        formats,
                        cancel: Button::new("cancel-convert", Action::CancelConvert).ghost().label(
                            "Cancel",
                        ),
                    },
                )
            },
        }
    }
}

// ---------------------------------------------------------------------------
// Overlays
// ---------------------------------------------------------------------------

/// Which overlays are up, from the bottom to the top.
#[derive(Debug, Clone, Copy, PartialEq, Eq, Structural)]
pub struct Overlays {
    pub popover: bool,
    pub modal: bool,
    pub picker: bool,
    pub toast: bool,
}

impl Session {
    /// Which overlays are up. While no card is open nothing plays, whichever way
    /// it was closed.
    pub fn overlays(&self) -> (r: Overlays)
        ensures
            r.popover == (popover_of(self@) is Some),
            r.modal == self@.modal,
            r.picker == (self@.convert_picker is Some),
            r.toast == (self@.startup_error is Some),
    {
        Overlays {
            popover: self.popover().is_some(),
            modal: self.modal,
            picker: self.convert_picker.is_some(),
            toast: self.startup_error.is_some(),
        }
    }
}

// ---------------------------------------------------------------------------
// What each part shows
// ---------------------------------------------------------------------------

/// A playlist has as many videos as entries, or as it says where they are not listed; any
/// other address has one.
pub proof fn lemma_videos_of_a_probe(p: Probe)
    ensures
        !p.playlist() ==> found_count(p) == 1,
        p.playlist() && p.entries is Some ==> found_count(p) == p.entries->0@.len(),
        p.playlist() && p.entries is None && p.playlist_count is None ==> found_count(p) == 0,
        p.playlist() && p.entries is None && p.playlist_count is Some && 0 <= p.playlist_count->0
            <= usize::MAX ==> found_count(p) == p.playlist_count->0,
{
}

/// The dialog says nothing of what was not probed, that a probe runs, why it failed, or
/// what it found: its title, and of a playlist how many videos, of a video how long it is
/// where that is known.
pub proof fn lemma_dialog_tells_of_the_probe(p: Probe, e: String)
    ensures
        preview_of(ProbeState::Idle) is Nothing,
        preview_of(ProbeState::Running) == PreviewView::Note("Fetching info…"@),
        preview_of(ProbeState::Failed(e)) == PreviewView::Error(e@),
        ({
            let found = preview_of(ProbeState::Found(p));
            &&& found is Found
            &&& p.title is Some ==> found->Found_title == p.title->0@
            &&& p.title is None ==> found->Found_title.len() == 0
            &&& p.playlist() ==> found->Found_about == "Playlist · "@ + decimal(found_count(p))
                + " videos"@
            &&& !p.playlist() && p.duration is Some ==> found->Found_about == "Video · "@
                + clock_text(whole_part(p.duration->0))
            &&& !p.playlist() && p.duration is None ==> found->Found_about == "Video"@
        }),
{
}

/// The dialog offers every preset by its name, in order, with the chosen one lit, a way
/// out, and the download.
pub proof fn lemma_dialog_offers_the_presets(m: Modal, s: SessionView, i: int)
    requires
        is_modal_of(m, s),
    ensures
        m.preview@ == preview_of(s.probe),
        deep(m.presets@).len() == s.presets.len(),
        0 <= i < s.presets.len() ==> {
            let b = deep(m.presets@)[i];
            &&& b.id == "pick-"@ + s.presets[i].name
            &&& b.label == Some(s.presets[i].name)
            &&& b.selected <==> s.chosen_preset == Some(s.presets[i].name)
            &&& b.action == ActionView::ChoosePreset(s.presets[i].name)
            &&& b.size is Small && b.variant is Default
        },
        m.cancel@.id == "cancel"@ && m.cancel@.label == Some("Cancel"@),
        m.cancel@.action is CloseModal && m.cancel@.variant is Subtle,
        m.go@.id == "go"@ && m.go@.label == Some("Download"@),
        m.go@.action is StartDownload && m.go@.variant is Primary,
{
}

/// The picker names the file, offers every format by its own name for that file, and a way
/// out.
pub proof fn lemma_picker_offers_the_formats(p: FormatPicker, source: Seq<char>)
    requires
        is_picker_of(p, source),
    ensures
        ({
            let b = deep(p.formats@);
            &&& p.file@ == file_name_spec(source)
            &&& b.len() == 4
            &&& b[0].label == Some("MP4 (H.264/AAC)"@) && b[0].id == "convert-as-"@ + "mp4"@
            &&& b[0].action == (ActionView::StartConvert {
                source,
                format: ConvertFormat::Mp4H264Aac,
            })
            &&& b[1].label == Some("MKV (H.264/AAC)"@) && b[1].id == "convert-as-"@ + "mkv"@
            &&& b[1].action == (ActionView::StartConvert {
                source,
                format: ConvertFormat::MkvH264Aac,
            })
            &&& b[2].label == Some("WebM (VP9/Opus)"@) && b[2].id == "convert-as-"@ + "webm"@
            &&& b[2].action == (ActionView::StartConvert {
                source,
                format: ConvertFormat::WebmVp9Opus,
            })
            &&& b[3].label == Some("MP3 (audio only)"@) && b[3].id == "convert-as-"@ + "mp3"@
            &&& b[3].action == (ActionView::StartConvert { source, format: ConvertFormat::Mp3Audio })
            &&& p.cancel@.id == "cancel-convert"@ && p.cancel@.label == Some("Cancel"@)
            &&& p.cancel@.action is CancelConvert && p.cancel@.variant is Subtle
        }),
{
}

/// The texts of the dialogs.
pub proof fn lemma_texts_of_the_dialogs()
    ensures
        MODAL_TITLE@ == "New download"@,
        PRESET_LABEL@ == "Preset"@,
        OVERRIDE_LABEL@ == "Override for this download (optional)"@,
        PICKER_TITLE@ == "Convert to…"@,
{
}

} // verus!
