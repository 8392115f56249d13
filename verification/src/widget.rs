//! Descriptions of the interface's controls: what a control is called, says and
//! does. How one is drawn is the application's affair.

use std::sync::Arc;

use vstd::prelude::*;

use crate::presets::{Source, Toggle};
use crate::routing::Focus;
use crate::runner::ConvertFormat;
use crate::session::WindowAction;
#[allow(unused_imports)]
use crate::text::{decimal, opt};
use crate::text::{concat, decimal_u64, owned};

verus! {

/// A string that is cheap to copy.
#[derive(Debug, PartialEq, Eq, PartialOrd, Ord, Hash)]
pub struct SharedString {
    pub text: Arc<String>,
}

impl View for SharedString {
    type V = Seq<char>;

    open spec fn view(&self) -> Seq<char> {
        self.text@
    }
}

impl SharedString {
    pub fn new(text: &str) -> (r: SharedString)
        ensures
            r@ == text@,
    {
        SharedString { text: Arc::new(owned(text)) }
    }

    pub fn as_str(&self) -> (r: &str)
        ensures
            r@ == self@,
    {
        self.text.as_str()
    }
}

impl Clone for SharedString {
    fn clone(&self) -> (r: SharedString)
        ensures
            r@ == self@,
    {
        SharedString { text: self.text.clone() }
    }
}

// ---------------------------------------------------------------------------
// Icons
// ---------------------------------------------------------------------------

/// The icons that the interface uses.
#[derive(Debug, Clone, Copy, PartialEq, Eq, Structural)]
pub enum IconName {
    ChevronLeft,
    ChevronRight,
    Close,
    Folder,
    Maximize,
    Minimize,
    Pause,
    Play,
    Plus,
    Replace,
    Restore,
    Settings,
}

impl IconName {
    pub open spec fn asset(self) -> Seq<char> {
        match self {
            IconName::ChevronLeft => "icons/chevron-left.svg"@,
            IconName::ChevronRight => "icons/chevron-right.svg"@,
            IconName::Close => "icons/close.svg"@,
            IconName::Folder => "icons/folder.svg"@,
            IconName::Maximize => "icons/maximize.svg"@,
            IconName::Minimize => "icons/minimize.svg"@,
            IconName::Pause => "icons/pause.svg"@,
            IconName::Play => "icons/play.svg"@,
            IconName::Plus => "icons/plus.svg"@,
            IconName::Replace => "icons/replace.svg"@,
            IconName::Restore => "icons/restore.svg"@,
            IconName::Settings => "icons/settings.svg"@,
        }
    }

    /// Where the icon's picture is kept among the assets.
    pub fn path(self) -> (r: &'static str)
        ensures
            r@ == self.asset(),
    {
        match self {
            IconName::ChevronLeft => "icons/chevron-left.svg",
            IconName::ChevronRight => "icons/chevron-right.svg",
            IconName::Close => "icons/close.svg",
            IconName::Folder => "icons/folder.svg",
            IconName::Maximize => "icons/maximize.svg",
            IconName::Minimize => "icons/minimize.svg",
            IconName::Pause => "icons/pause.svg",
            IconName::Play => "icons/play.svg",
            IconName::Plus => "icons/plus.svg",
            IconName::Replace => "icons/replace.svg",
            IconName::Restore => "icons/restore.svg",
            IconName::Settings => "icons/settings.svg",
        }
    }
}

// ---------------------------------------------------------------------------
// What a control does
// ---------------------------------------------------------------------------

/// What pressing a control asks for.
#[derive(Debug, PartialEq)]
pub enum Action {
    /// Nothing: the press is taken so that nothing behind it gets it.
    Swallow,
    SwitchTab(usize),
    OpenModal,
    CloseModal,
    StartDownload,
    ChoosePreset(String),
    PickFileToConvert,
    ToggleSettings,
    LeaveSettings,
    Window(WindowAction),
    OpenBinDir,
    RefreshYtdlp,
    UpdateYtdlp,
    OpenJob { job: String, item: Option<String> },
    OpenExternally(String),
    Convert(String),
    Reveal(String),
    CancelJob(String),
    RetryJob(String),
    DeleteJob(String),
    EditPreset(String),
    NewPreset,
    SetSource(Source),
    SetToggle(Toggle, bool),
    SetDefault(bool),
    DeletePreset,
    SavePreset,
    StartConvert { source: String, format: ConvertFormat },
    CancelConvert,
    ToggleFullscreen,
    ClosePopover,
    TogglePlay,
    ToggleMute,
}

/// The value of an `Action`.
pub enum ActionView {
    Swallow,
    SwitchTab(usize),
    OpenModal,
    CloseModal,
    StartDownload,
    ChoosePreset(Seq<char>),
    PickFileToConvert,
    ToggleSettings,
    LeaveSettings,
    Window(WindowAction),
    OpenBinDir,
    RefreshYtdlp,
    UpdateYtdlp,
    OpenJob { job: Seq<char>, item: Option<Seq<char>> },
    OpenExternally(Seq<char>),
    Convert(Seq<char>),
    Reveal(Seq<char>),
    CancelJob(Seq<char>),
    RetryJob(Seq<char>),
    DeleteJob(Seq<char>),
    EditPreset(Seq<char>),
    NewPreset,
    SetSource(Source),
    SetToggle(Toggle, bool),
    SetDefault(bool),
    DeletePreset,
    SavePreset,
    StartConvert { source: Seq<char>, format: ConvertFormat },
    CancelConvert,
    ToggleFullscreen,
    ClosePopover,
    TogglePlay,
    ToggleMute,
}

impl View for Action {
    type V = ActionView;

    open spec fn view(&self) -> ActionView {
        match self {
            Action::Swallow => ActionView::Swallow,
            Action::SwitchTab(ix) => ActionView::SwitchTab(*ix),
            Action::OpenModal => ActionView::OpenModal,
            Action::CloseModal => ActionView::CloseModal,
            Action::StartDownload => ActionView::StartDownload,
            Action::ChoosePreset(name) => ActionView::ChoosePreset(name@),
            Action::PickFileToConvert => ActionView::PickFileToConvert,
            Action::ToggleSettings => ActionView::ToggleSettings,
            Action::LeaveSettings => ActionView::LeaveSettings,
            Action::Window(a) => ActionView::Window(*a),
            Action::OpenBinDir => ActionView::OpenBinDir,
            Action::RefreshYtdlp => ActionView::RefreshYtdlp,
            Action::UpdateYtdlp => ActionView::UpdateYtdlp,
            Action::OpenJob { job, item } => ActionView::OpenJob { job: job@, item: opt(*item) },
            Action::OpenExternally(path) => ActionView::OpenExternally(path@),
            Action::Convert(path) => ActionView::Convert(path@),
            Action::Reveal(path) => ActionView::Reveal(path@),
            Action::CancelJob(id) => ActionView::CancelJob(id@),
            Action::RetryJob(id) => ActionView::RetryJob(id@),
            Action::DeleteJob(id) => ActionView::DeleteJob(id@),
            Action::EditPreset(name) => ActionView::EditPreset(name@),
            Action::NewPreset => ActionView::NewPreset,
            Action::SetSource(source) => ActionView::SetSource(*source),
            Action::SetToggle(toggle, on) => ActionView::SetToggle(*toggle, *on),
            Action::SetDefault(on) => ActionView::SetDefault(*on),
            Action::DeletePreset => ActionView::DeletePreset,
            Action::SavePreset => ActionView::SavePreset,
            Action::StartConvert { source, format } => ActionView::StartConvert {
                source: source@,
                format: *format,
            },
            Action::CancelConvert => ActionView::CancelConvert,
            Action::ToggleFullscreen => ActionView::ToggleFullscreen,
            Action::ClosePopover => ActionView::ClosePopover,
            Action::TogglePlay => ActionView::TogglePlay,
            Action::ToggleMute => ActionView::ToggleMute,
        }
    }
}

// ---------------------------------------------------------------------------
// Buttons
// ---------------------------------------------------------------------------

#[derive(Debug, Clone, Copy, PartialEq, Eq, Structural)]
pub enum ButtonVariant {
    Default,
    Primary,
    /// Without a face of its own until the pointer is over it.
    Subtle,
    Danger,
}

#[derive(Debug, Clone, Copy, PartialEq, Eq, Structural)]
pub enum ButtonSize {
    Small,
    Medium,
}

/// A button.
#[derive(Debug, PartialEq)]
pub struct Button {
    pub id: String,
    pub label: Option<String>,
    pub icon: Option<IconName>,
    pub variant: ButtonVariant,
    pub size: ButtonSize,
    pub selected: bool,
    pub action: Action,
}

/// The value of a `Button`.
#[verifier::ext_equal]
pub struct ButtonView {
    pub id: Seq<char>,
    pub label: Option<Seq<char>>,
    pub icon: Option<IconName>,
    pub variant: ButtonVariant,
    pub size: ButtonSize,
    pub selected: bool,
    pub action: ActionView,
}

impl View for Button {
    type V = ButtonView;

    open spec fn view(&self) -> ButtonView {
        ButtonView {
            id: self.id@,
            label: opt(self.label),
            icon: self.icon,
            variant: self.variant,
            size: self.size,
            selected: self.selected,
            action: self.action@,
        }
    }
}

/// A button as it starts out: medium, plain, with nothing on it.
pub open spec fn plain_button(id: Seq<char>, action: ActionView) -> ButtonView {
    ButtonView {
        id,
        label: None,
        icon: None,
        variant: ButtonVariant::Default,
        size: ButtonSize::Medium,
        selected: false,
        action,
    }
}

impl Button {
    /// A button with nothing on it.
    pub fn new(id: &str, action: Action) -> (r: Button)
        ensures
            r@ == plain_button(id@, action@),
    {
        Button {
            id: owned(id),
            label: None,
            icon: None,
            variant: ButtonVariant::Default,
            size: ButtonSize::Medium,
            selected: false,
            action,
        }
    }

    pub fn label(self, label: &str) -> (r: Button)
        ensures
            r@ == (ButtonView { label: Some(label@), ..self@ }),
    {
        let mut r: Button = self;
        r.label = Some(owned(label));
        r
    }

    pub fn icon(self, icon: IconName) -> (r: Button)
        ensures
            r@ == (ButtonView { icon: Some(icon), ..self@ }),
    {
        let mut r: Button = self;
        r.icon = Some(icon);
        r
    }

    pub fn small(self) -> (r: Button)
        ensures
            r@ == (ButtonView { size: ButtonSize::Small, ..self@ }),
    {
        let mut r: Button = self;
        r.size = ButtonSize::Small;
        r
    }

    pub fn primary(self) -> (r: Button)
        ensures
            r@ == (ButtonView { variant: ButtonVariant::Primary, ..self@ }),
    {
        let mut r: Button = self;
        r.variant = ButtonVariant::Primary;
        r
    }

    pub fn ghost(self) -> (r: Button)
        ensures
            r@ == (ButtonView { variant: ButtonVariant::Subtle, ..self@ }),
    {
        let mut r: Button = self;
        r.variant = ButtonVariant::Subtle;
        r
    }

    pub fn danger(self) -> (r: Button)
        ensures
            r@ == (ButtonView { variant: ButtonVariant::Danger, ..self@ }),
    {
        let mut r: Button = self;
        r.variant = ButtonVariant::Danger;
        r
    }

    pub fn selected(self, selected: bool) -> (r: Button)
        ensures
            r@ == (ButtonView { selected, ..self@ }),
    {
        let mut r: Button = self;
        r.selected = selected;
        r
    }

    /// The height of the button in pixels, and its width where it is fixed: a
    /// button without a label is square.
    pub fn extent(&self) -> (r: (u32, Option<u32>))
        ensures
            r.0 == (match self@.size {
                ButtonSize::Small => 24u32,
                ButtonSize::Medium => 32u32,
            }),
            r.1 == (if self@.label is None {
                Some(r.0)
            } else {
                None
            }),
    {
        let side: u32 = match self.size {
            ButtonSize::Small => 24,
            ButtonSize::Medium => 32,
        };
        if self.label.is_none() {
            (side, Some(side))
        } else {
            (side, None)
        }
    }
}

// ---------------------------------------------------------------------------
// Tabs
// ---------------------------------------------------------------------------

/// A tab of a tab bar.
#[derive(Debug, PartialEq, Eq)]
pub struct Tab {
    pub label: SharedString,
}

impl View for Tab {
    type V = Seq<char>;

    open spec fn view(&self) -> Seq<char> {
        self.label@
    }
}

impl Tab {
    /// A tab that says nothing.
    pub fn new() -> (r: Tab)
        ensures
            r@ == ""@,
    {
        Tab { label: SharedString::new("") }
    }

    pub fn label(self, label: &str) -> (r: Tab)
        ensures
            r@ == label@,
    {
        Tab { label: SharedString::new(label) }
    }
}

/// A bar of tabs, one of them chosen.
#[derive(Debug, PartialEq, Eq)]
pub struct TabBar {
    pub id: SharedString,
    pub tabs: Vec<Tab>,
    pub selected: usize,
    pub segmented: bool,
}

/// One segment of a tab bar.
#[derive(Debug, PartialEq, Eq)]
pub struct TabSegment {
    pub id: String,
    pub label: SharedString,
    pub active: bool,
    /// What a press on it reports: its place.
    pub index: usize,
}

impl TabBar {
    pub fn new(id: &str) -> (r: TabBar)
        ensures
            r.id@ == id@,
            r.tabs@ == Seq::<Tab>::empty(),
            r.selected == 0,
            !r.segmented,
    {
        TabBar { id: SharedString::new(id), tabs: Vec::new(), selected: 0, segmented: false }
    }

    pub fn segmented(self) -> (r: TabBar)
        ensures
            r == (TabBar { segmented: true, ..self }),
    {
        TabBar { segmented: true, ..self }
    }

    pub fn selected_index(self, index: usize) -> (r: TabBar)
        ensures
            r == (TabBar { selected: index, ..self }),
    {
        TabBar { selected: index, ..self }
    }

    pub fn children(self, tabs: Vec<Tab>) -> (r: TabBar)
        ensures
            r.tabs@ == self.tabs@ + tabs@,
            r.id == self.id,
            r.selected == self.selected,
            r.segmented == self.segmented,
    {
        let mut more: Vec<Tab> = tabs;
        let mut r: TabBar = self;
        r.tabs.append(&mut more);
        r
    }

    /// The segments of the bar, in order: each reports its own place, and only
    /// the chosen one is active.
    pub fn segments(&self) -> (r: Vec<TabSegment>)
        ensures
            r@.len() == self.tabs@.len(),
            forall|i: int|
                0 <= i < r@.len() ==> {
                    &&& (#[trigger] r@[i]).index == i
                    &&& r@[i].id@ == "tab-"@ + decimal(i as nat)
                    &&& r@[i].label@ == self.tabs@[i]@
                    &&& r@[i].active == (i == self.selected)
                },
    {
        let mut out: Vec<TabSegment> = Vec::new();
        let mut i: usize = 0;
        while i < self.tabs.len()
            invariant
                i <= self.tabs@.len(),
                out@.len() == i,
                forall|k: int|
                    0 <= k < i ==> {
                        &&& (#[trigger] out@[k]).index == k
                        &&& out@[k].id@ == "tab-"@ + decimal(k as nat)
                        &&& out@[k].label@ == self.tabs@[k]@
                        &&& out@[k].active == (k == self.selected)
                    },
            decreases self.tabs@.len() - i,
        {
            let segment: TabSegment = TabSegment {
                id: concat("tab-", decimal_u64(i as u64).as_str()),
                label: self.tabs[i].label.clone(),
                active: i == self.selected,
                index: i,
            };
            out.push(segment);
            i = i + 1;
        }
        out
    }
}

// ---------------------------------------------------------------------------
// Switches, fields and the rest
// ---------------------------------------------------------------------------

/// A labelled switch. Pressing it reports the value it moves to.
#[derive(Debug, PartialEq)]
pub struct Switch {
    pub id: String,
    pub label: String,
    pub checked: bool,
    pub action: Action,
}

/// The value of a `Switch`.
#[verifier::ext_equal]
pub struct SwitchView {
    pub id: Seq<char>,
    pub label: Seq<char>,
    pub checked: bool,
    pub action: ActionView,
}

impl View for Switch {
    type V = SwitchView;

    open spec fn view(&self) -> SwitchView {
        SwitchView {
            id: self.id@,
            label: self.label@,
            checked: self.checked,
            action: self.action@,
        }
    }
}

/// A switch of one of the options of the preset being edited.
pub open spec fn toggle_switch(
    id: Seq<char>,
    label: Seq<char>,
    toggle: Toggle,
    checked: bool,
) -> SwitchView {
    SwitchView { id, label, checked, action: ActionView::SetToggle(toggle, !checked) }
}

impl Switch {
    /// A switch of one of the options of the preset being edited.
    pub fn toggle(id: &str, label: &str, toggle: Toggle, checked: bool) -> (r: Switch)
        ensures
            r@ == toggle_switch(id@, label@, toggle, checked),
    {
        Switch {
            id: owned(id),
            label: owned(label),
            checked,
            action: Action::SetToggle(toggle, !checked),
        }
    }
}

/// A labelled text field.
#[derive(Debug, PartialEq)]
pub struct Field {
    pub label: String,
    pub focus: Focus,
}

/// The value of a `Field`.
#[verifier::ext_equal]
pub struct FieldView {
    pub label: Seq<char>,
    pub focus: Focus,
}

impl View for Field {
    type V = FieldView;

    open spec fn view(&self) -> FieldView {
        FieldView { label: self.label@, focus: self.focus }
    }
}

impl Field {
    pub fn new(label: &str, focus: Focus) -> (r: Field)
        ensures
            r@ == (FieldView { label: label@, focus }),
    {
        Field { label: owned(label), focus }
    }
}

/// A name and its value, as the details list them.
#[derive(Debug, PartialEq)]
pub struct KeyValue {
    pub key: String,
    pub value: String,
}

/// The value of a `KeyValue`.
#[verifier::ext_equal]
pub struct KeyValueView {
    pub key: Seq<char>,
    pub value: Seq<char>,
}

impl View for KeyValue {
    type V = KeyValueView;

    open spec fn view(&self) -> KeyValueView {
        KeyValueView { key: self.key@, value: self.value@ }
    }
}

impl KeyValue {
    pub fn new(key: &str, value: &str) -> (r: KeyValue)
        ensures
            r@ == (KeyValueView { key: key@, value: value@ }),
    {
        KeyValue { key: owned(key), value: owned(value) }
    }
}

// ---------------------------------------------------------------------------
// What a control starts out as
// ---------------------------------------------------------------------------

/// A button starts out medium and plain, with nothing on it, not lit, and does what it was
/// made for.
pub proof fn lemma_button_starts_out_plain(id: Seq<char>, action: ActionView)
    ensures
        ({
            let b = plain_button(id, action);
            &&& b.id == id && b.action == action
            &&& b.label is None && b.icon is None && !b.selected
            &&& b.variant is Default && b.size is Medium
        }),
{
}

/// A switch shows how its option stands, and a press moves that option to the other
/// value.
pub proof fn lemma_switch_moves_its_own_option(
    id: Seq<char>,
    label: Seq<char>,
    toggle: Toggle,
    checked: bool,
)
    ensures
        ({
            let s = toggle_switch(id, label, toggle, checked);
            &&& s.id == id && s.label == label && s.checked == checked
            &&& s.action == ActionView::SetToggle(toggle, !checked)
        }),
{
}

/// Each icon has a picture of its own name.
pub proof fn lemma_pictures_of_the_icons()
    ensures
        IconName::ChevronLeft.asset() == "icons/chevron-left.svg"@,
        IconName::ChevronRight.asset() == "icons/chevron-right.svg"@,
        IconName::Close.asset() == "icons/close.svg"@,
        IconName::Folder.asset() == "icons/folder.svg"@,
        IconName::Maximize.asset() == "icons/maximize.svg"@,
        IconName::Minimize.asset() == "icons/minimize.svg"@,
        IconName::Pause.asset() == "icons/pause.svg"@,
        IconName::Play.asset() == "icons/play.svg"@,
        IconName::Plus.asset() == "icons/plus.svg"@,
        IconName::Replace.asset() == "icons/replace.svg"@,
        IconName::Restore.asset() == "icons/restore.svg"@,
        IconName::Settings.asset() == "icons/settings.svg"@,
{
}

} // verus!
