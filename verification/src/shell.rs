//! The window's event loop, as far as it decides anything: what each event does
//! to the loop's own state, and what is to be done about it.

use vstd::prelude::*;

#[allow(unused_imports)]
use crate::readout::{at_most, below, is_nan};
use crate::routing::{
    dispatch_click, dispatch_hover, field_at, is_titlebar_drag_area, slider_at, Bounds, Box_, Focus,
    HoverStep, SliderKind,
};
#[allow(unused_imports)]
use crate::routing::{
    field_of, hover_steps, in_paint_order, is_target, slider_of, Wanted,
};
use crate::session::WindowAction;
use crate::text::copy_opt;
#[allow(unused_imports)]
use crate::text::opt;
use crate::ytdlp::Single;

verus! {

/// The size that the window opens at.
pub const WINDOW_WIDTH: u32 = 1180;

pub const WINDOW_HEIGHT: u32 = 760;

/// The size below which the window cannot be shrunk.
pub const MIN_WINDOW_WIDTH: u32 = 760;

pub const MIN_WINDOW_HEIGHT: u32 = 480;

/// How often a frame is drawn while something plays or moves, in milliseconds.
pub const FRAME_INTERVAL_MS: u64 = 16;

/// How close to the window's edge still takes hold of it, in pixels.
pub const RESIZE_BORDER: u32 = 6;

// ---------------------------------------------------------------------------
// The edge of the window
// ---------------------------------------------------------------------------

/// An edge or a corner of the window.
#[derive(Debug, Clone, Copy, PartialEq, Eq, Structural)]
pub enum ResizeDirection {
    East,
    North,
    NorthEast,
    NorthWest,
    South,
    SouthEast,
    SouthWest,
    West,
}

/// Which edge or corner a point takes hold of. `inner` is the window without
/// its border.
pub open spec fn grip(inner: Bounds, x: Single, y: Single) -> Option<ResizeDirection> {
    let left = at_most(x, inner.left);
    let right = at_most(inner.right, x);
    let top = at_most(y, inner.top);
    let bottom = at_most(inner.bottom, y);
    if left && top {
        Some(ResizeDirection::NorthWest)
    } else if right && top {
        Some(ResizeDirection::NorthEast)
    } else if left && bottom {
        Some(ResizeDirection::SouthWest)
    } else if right && bottom {
        Some(ResizeDirection::SouthEast)
    } else if left && !right {
        Some(ResizeDirection::West)
    } else if right && !left {
        Some(ResizeDirection::East)
    } else if top && !bottom && !left && !right {
        Some(ResizeDirection::North)
    } else if bottom && !top && !left && !right {
        Some(ResizeDirection::South)
    } else {
        None
    }
}

/// Which edge or corner a point takes hold of. Corners come first, so that the
/// last pixels at one resize both ways.
pub fn resize_direction_at(inner: &Bounds, x: Single, y: Single) -> (r: Option<ResizeDirection>)
    ensures
        r == grip(*inner, x, y),
{
    let left: bool = x.is_at_most(inner.left);
    let right: bool = inner.right.is_at_most(x);
    let top: bool = y.is_at_most(inner.top);
    let bottom: bool = inner.bottom.is_at_most(y);
    match (left, right, top, bottom) {
        (true, _, true, _) => Some(ResizeDirection::NorthWest),
        (_, true, true, _) => Some(ResizeDirection::NorthEast),
        (true, _, _, true) => Some(ResizeDirection::SouthWest),
        (_, true, _, true) => Some(ResizeDirection::SouthEast),
        (true, false, false, false) => Some(ResizeDirection::West),
        (false, true, false, false) => Some(ResizeDirection::East),
        (false, false, true, false) => Some(ResizeDirection::North),
        (false, false, false, true) => Some(ResizeDirection::South),
        _ => None,
    }
}

/// Inside its border the window is never resized.
pub proof fn lemma_interior_is_no_grip(inner: Bounds, x: Single, y: Single)
    requires
        crate::readout::below(inner.left, x),
        crate::readout::below(x, inner.right),
        crate::readout::below(inner.top, y),
        crate::readout::below(y, inner.bottom),
    ensures
        grip(inner, x, y) is None,
{
}

// ---------------------------------------------------------------------------
// Events
// ---------------------------------------------------------------------------

/// An event of the window.
#[derive(Debug, Clone, Copy, PartialEq, Eq, Structural)]
pub enum WindowInput {
    CloseRequested,
    Resized { width: u32, height: u32 },
    /// Whether the control key is down.
    Modifiers { ctrl: bool },
    CursorMoved { x: Single, y: Single },
    CursorLeft,
    /// The left button went down.
    Pressed,
    /// The left button went up.
    Released,
    /// Another button did either.
    OtherButton,
    Wheel,
    /// A key went down.
    Key,
    RedrawRequested,
    Other,
}

/// The shape of the pointer.
#[derive(Debug, Clone, Copy, PartialEq, Eq, Structural)]
pub enum Cursor {
    Default,
    Resize(ResizeDirection),
}

/// What an event asks for.
#[derive(Debug, Clone, Copy, PartialEq, Eq, Structural)]
pub enum Act {
    Nothing,
    /// End the loop.
    Exit,
    SetCursor(Cursor),
    /// Steer a slider to the point.
    Drag { slider: SliderKind, released: bool, x: Single, y: Single },
    /// Hand the press to the window system, which resizes from here on.
    Resize(ResizeDirection),
    /// Route a click.
    Click { x: Single, y: Single },
    /// Route a turn of the wheel.
    Scroll { x: Single, y: Single },
    /// Hand the key to the field with the caret.
    Key,
    /// Apply what came in, and draw.
    Redraw,
}

/// The state of the loop.
#[derive(Debug)]
pub struct Shell {
    pub pointer: Option<(Single, Single)>,
    pub ctrl: bool,
    /// The slider that the button went down on: a drag keeps steering it after
    /// the pointer has left it.
    pub dragging: Option<SliderKind>,
    /// Whether a frame is to be drawn.
    pub dirty: bool,
    pub width: u32,
    pub height: u32,
    /// The id of the box that the pointer was last said to be over.
    pub hovered: Option<String>,
    /// The field with the caret.
    pub focus: Option<Focus>,
}

/// The value of a `Shell`.
#[verifier::ext_equal]
pub struct ShellView {
    pub pointer: Option<(Single, Single)>,
    pub ctrl: bool,
    pub dragging: Option<SliderKind>,
    pub dirty: bool,
    pub width: u32,
    pub height: u32,
    pub hovered: Option<Seq<char>>,
    pub focus: Option<Focus>,
}

impl View for Shell {
    type V = ShellView;

    open spec fn view(&self) -> ShellView {
        ShellView {
            pointer: self.pointer,
            ctrl: self.ctrl,
            dragging: self.dragging,
            dirty: self.dirty,
            width: self.width,
            height: self.height,
            hovered: opt(self.hovered),
            focus: self.focus,
        }
    }
}

/// An extent that is never nothing.
pub open spec fn at_least_one(n: u32) -> u32 {
    if n == 0 {
        1
    } else {
        n
    }
}

/// The state after an event.
pub open spec fn after_input(s: ShellView, event: WindowInput) -> ShellView {
    match event {
        WindowInput::Resized { width, height } => ShellView {
            width: at_least_one(width),
            height: at_least_one(height),
            dirty: true,
            ..s
        },
        WindowInput::Modifiers { ctrl } => ShellView { ctrl, ..s },
        WindowInput::CursorMoved { x, y } => ShellView { pointer: Some((x, y)), dirty: true, ..s },
        WindowInput::CursorLeft => ShellView { pointer: None, dirty: true, ..s },
        WindowInput::Released => ShellView {
            dragging: None,
            dirty: s.dirty || (s.dragging is Some && s.pointer is Some),
            ..s
        },
        WindowInput::Wheel => ShellView { dirty: true, ..s },
        _ => s,
    }
}

/// What an event asks for. `inner` is the window without its border.
pub open spec fn act_of(s: ShellView, event: WindowInput, inner: Bounds) -> Act {
    match event {
        WindowInput::CloseRequested => Act::Exit,
        WindowInput::CursorMoved { x, y } => match s.dragging {
            Some(slider) => Act::Drag { slider, released: false, x, y },
            None => Act::SetCursor(
                match grip(inner, x, y) {
                    Some(d) => Cursor::Resize(d),
                    None => Cursor::Default,
                },
            ),
        },
        WindowInput::CursorLeft => Act::SetCursor(Cursor::Default),
        WindowInput::Pressed => match s.pointer {
            Some(p) => match grip(inner, p.0, p.1) {
                Some(d) => Act::Resize(d),
                None => Act::Click { x: p.0, y: p.1 },
            },
            None => Act::Nothing,
        },
        WindowInput::Released => match (s.dragging, s.pointer) {
            (Some(slider), Some(p)) => Act::Drag { slider, released: true, x: p.0, y: p.1 },
            _ => Act::Nothing,
        },
        WindowInput::Wheel => match s.pointer {
            Some(p) => Act::Scroll { x: p.0, y: p.1 },
            None => Act::Nothing,
        },
        WindowInput::Key => Act::Key,
        WindowInput::RedrawRequested => Act::Redraw,
        _ => Act::Nothing,
    }
}

impl Shell {
    /// The loop before any event: a frame is due.
    pub fn new() -> (r: Shell)
        ensures
            r@ == (ShellView {
                pointer: None,
                ctrl: false,
                dragging: None,
                dirty: true,
                width: WINDOW_WIDTH,
                height: WINDOW_HEIGHT,
                hovered: None,
                focus: None,
            }),
    {
        Shell {
            pointer: None,
            ctrl: false,
            dragging: None,
            dirty: true,
            width: WINDOW_WIDTH,
            height: WINDOW_HEIGHT,
            hovered: None,
            focus: None,
        }
    }

    /// Takes in an event of the window, and says what to do about it. `inner` is
    /// the window without its border.
    pub fn window_event(&mut self, event: WindowInput, inner: &Bounds) -> (r: Act)
        ensures
            final(self)@ == after_input(old(self)@, event),
            r == act_of(old(self)@, event, *inner),
    {
        match event {
            WindowInput::CloseRequested => Act::Exit,
            WindowInput::Resized { width, height } => {
                self.width = if width == 0 {
                    1
                } else {
                    width
                };
                self.height = if height == 0 {
                    1
                } else {
                    height
                };
                self.dirty = true;
                Act::Nothing
            },
            WindowInput::Modifiers { ctrl } => {
                self.ctrl = ctrl;
                Act::Nothing
            },
            WindowInput::CursorMoved { x, y } => {
                self.pointer = Some((x, y));
                self.dirty = true;
                match self.dragging {
                    Some(slider) => Act::Drag { slider, released: false, x, y },
                    None => match resize_direction_at(inner, x, y) {
                        Some(d) => Act::SetCursor(Cursor::Resize(d)),
                        None => Act::SetCursor(Cursor::Default),
                    },
                }
            },
            WindowInput::CursorLeft => {
                self.pointer = None;
                self.dirty = true;
                Act::SetCursor(Cursor::Default)
            },
            WindowInput::Pressed => match self.pointer {
                Some((x, y)) => match resize_direction_at(inner, x, y) {
                    Some(d) => Act::Resize(d),
                    None => Act::Click { x, y },
                },
                None => Act::Nothing,
            },
            WindowInput::Released => {
                let dragging: Option<SliderKind> = self.dragging;
                self.dragging = None;
                match (dragging, self.pointer) {
                    (Some(slider), Some((x, y))) => {
                        self.dirty = true;
                        Act::Drag { slider, released: true, x, y }
                    },
                    _ => Act::Nothing,
                }
            },
            WindowInput::Wheel => {
                self.dirty = true;
                match self.pointer {
                    Some((x, y)) => Act::Scroll { x, y },
                    None => Act::Nothing,
                }
            },
            WindowInput::Key => Act::Key,
            WindowInput::RedrawRequested => Act::Redraw,
            WindowInput::OtherButton | WindowInput::Other => Act::Nothing,
        }
    }
}

// ---------------------------------------------------------------------------
// Clicks
// ---------------------------------------------------------------------------

/// What a click does.
#[derive(Debug, Clone, Copy, PartialEq, Eq)]
pub struct ClickPlan {
    /// The slider that takes the press.
    pub slider: Option<SliderKind>,
    /// The box whose press is run, where no slider takes it.
    pub press: Option<usize>,
    /// Whether the window is moved from here on, where nothing takes it.
    pub move_window: bool,
    /// The field that gets the caret, and its left edge; none takes the caret
    /// away.
    pub field: Option<(Focus, Single)>,
}

/// Whether a plan is what a click does.
pub open spec fn is_click_plan(
    plan: ClickPlan,
    boxes: Seq<Box_>,
    x: Single,
    y: Single,
) -> bool {
    exists|slider: Option<int>, press: Option<int>, bar: Option<int>, field: Option<int>|
        {
            &&& #[trigger] is_target(boxes, x, y, Wanted::Slider, slider)
            &&& #[trigger] is_target(boxes, x, y, Wanted::Click, press)
            &&& #[trigger] is_target(boxes, x, y, Wanted::TitleBar, bar)
            &&& #[trigger] is_target(boxes, x, y, Wanted::Field, field)
            &&& plan.slider == (match slider {
                Some(i) => slider_of(boxes[i].id->0@),
                None => None,
            })
            &&& plan.press == (if slider is None && press is Some {
                Some(press->0 as usize)
            } else {
                None
            })
            &&& plan.move_window == (slider is None && press is None && bar is Some)
            &&& match (field, plan.field) {
                (Some(i), Some(found)) => boxes[i].id is Some && field_of(boxes[i].id->0@) == Some(
                    found.0,
                ) && found.1 == boxes[i].bounds.left,
                (None, None) => true,
                _ => false,
            }
        }
}

impl Shell {
    /// Routes a click. A slider takes the press, so that the drag can steer it;
    /// else whatever the click is on; else, on the top bar, the window itself.
    /// The caret goes to the field that was clicked, or away.
    pub fn on_click(&mut self, boxes: &[Box_], x: Single, y: Single) -> (r: ClickPlan)
        requires
            in_paint_order(boxes@),
        ensures
            is_click_plan(r, boxes@, x, y),
            final(self)@ == (ShellView {
                dragging: r.slider,
                focus: match r.field {
                    Some(f) => Some(f.0),
                    None => None,
                },
                dirty: true,
                ..old(self)@
            }),
    {
        let slider: Option<SliderKind> = slider_at(boxes, x, y);
        let ghost ts = choose|t: Option<int>| #[trigger]
            is_target(boxes@, x, y, Wanted::Slider, t) && slider == (match t {
                Some(i) => slider_of(boxes@[i].id->0@),
                None => None,
            });
        let found: Option<usize> = dispatch_click(boxes, x, y);
        let ghost tp: Option<int> = match found {
            Some(i) => Some(i as int),
            None => None,
        };
        let bar: bool = is_titlebar_drag_area(boxes, x, y);
        let ghost tb = choose|t: Option<int>| #[trigger]
            is_target(boxes@, x, y, Wanted::TitleBar, t) && bar == (t is Some);
        let field: Option<(Focus, Single)> = field_at(boxes, x, y);
        let ghost tf = choose|t: Option<int>| #[trigger]
            is_target(boxes@, x, y, Wanted::Field, t) && match (t, field) {
                (Some(i), Some(f)) => boxes@[i].id is Some && field_of(boxes@[i].id->0@) == Some(
                    f.0,
                ) && f.1 == boxes@[i].bounds.left,
                (None, None) => true,
                _ => false,
            };
        proof {
            lemma_slider_target_has_one(boxes@, x, y, ts);
        }
        let plan: ClickPlan = ClickPlan {
            slider,
            press: if slider.is_some() {
                None
            } else {
                found
            },
            move_window: slider.is_none() && found.is_none() && bar,
            field,
        };
        assert(is_target(boxes@, x, y, Wanted::Slider, ts));
        assert(is_target(boxes@, x, y, Wanted::Click, tp));
        assert(is_target(boxes@, x, y, Wanted::TitleBar, tb));
        assert(is_target(boxes@, x, y, Wanted::Field, tf));
        self.dragging = slider;
        self.focus = match field {
            Some((f, _)) => Some(f),
            None => None,
        };
        self.dirty = true;
        plan
    }

    /// The pointer is over another box than before, or over none. Gives back
    /// which boxes are to be told.
    pub fn on_hover(&mut self, boxes: &[Box_], current: Option<String>) -> (r: Vec<HoverStep>)
        ensures
            r@ == hover_steps(boxes@, old(self)@.hovered, opt(current)),
            final(self)@.hovered == opt(current),
            final(self)@ == (ShellView {
                hovered: opt(current),
                dirty: old(self)@.dirty || old(self)@.hovered != opt(current),
                ..old(self)@
            }),
    {
        let unchanged: bool = match (&self.hovered, &current) {
            (Some(a), Some(b)) => crate::text::same(a.as_str(), b.as_str()),
            (None, None) => true,
            _ => false,
        };
        let steps: Vec<HoverStep> = dispatch_hover(boxes, &self.hovered, &current);
        if !unchanged {
            self.dirty = true;
        }
        self.hovered = copy_opt(&current);
        assert(self@ =~= (ShellView {
            hovered: opt(current),
            dirty: old(self)@.dirty || old(self)@.hovered != opt(current),
            ..old(self)@
        }));
        steps
    }
}

proof fn lemma_nearest_has(boxes: Seq<Box_>, i: int, wanted: Wanted)
    ensures
        crate::routing::nearest(boxes, i, wanted) matches Some(k) ==> crate::routing::has(
            boxes[k],
            wanted,
        ),
    decreases i,
{
    if !crate::routing::has(boxes[i], wanted) {
        match boxes[i].parent {
            Some(p) => {
                if 0 <= i < boxes.len() && p < i {
                    lemma_nearest_has(boxes, p as int, wanted);
                }
            },
            None => {},
        }
    }
}

proof fn lemma_slider_target_has_one(boxes: Seq<Box_>, x: Single, y: Single, t: Option<int>)
    requires
        is_target(boxes, x, y, Wanted::Slider, t),
    ensures
        t matches Some(i) ==> boxes[i].id is Some && slider_of(boxes[i].id->0@) is Some,
{
    if t is Some {
        let i = choose|i: int| #[trigger]
            crate::routing::is_topmost(boxes, i, x, y) && t == crate::routing::nearest(
                boxes,
                i,
                Wanted::Slider,
            );
        lemma_nearest_has(boxes, i, Wanted::Slider);
    }
}

/// What steering a slider does.
#[derive(Debug, Clone, Copy, PartialEq, Eq, Structural)]
pub enum SliderStep {
    /// Move the readout alone.
    Scrub,
    /// Seek: the decoder is started anew.
    Seek,
    SetVolume,
}

/// Whether a drag is that of the seek bar.
pub fn drag_is_seek(drag: SliderKind) -> (r: bool)
    ensures
        r == (drag == SliderKind::Seek),
{
    match drag {
        SliderKind::Seek => true,
        SliderKind::Volume => false,
    }
}

/// What steering a slider does. The seek bar acts on release alone: a seek
/// starts the decoder anew, and doing so for every move of the pointer would
/// thrash.
pub fn slider_drag(drag: SliderKind, released: bool) -> (r: SliderStep)
    ensures
        r == (match drag {
            SliderKind::Volume => SliderStep::SetVolume,
            SliderKind::Seek => if released {
                SliderStep::Seek
            } else {
                SliderStep::Scrub
            },
        }),
{
    if !drag_is_seek(drag) {
        SliderStep::SetVolume
    } else if released {
        SliderStep::Seek
    } else {
        SliderStep::Scrub
    }
}

// ---------------------------------------------------------------------------
// Keys
// ---------------------------------------------------------------------------

/// A key.
#[derive(Debug)]
pub enum KeyInput {
    Backspace,
    Delete,
    ArrowLeft,
    ArrowRight,
    Home,
    End,
    /// A key with a character, as it is without modifiers.
    Character(String),
    Other,
}

/// Where the caret is moved to.
#[derive(Debug, Clone, Copy, PartialEq, Eq, Structural)]
pub enum Motion {
    Left,
    Right,
    Home,
    End,
}

/// What a key does to a text field.
#[derive(Debug)]
pub enum EditCommand {
    Backspace,
    Delete,
    Move(Motion),
    SelectAll,
    Copy,
    Cut,
    Paste,
    /// Types characters.
    Insert(Vec<char>),
    Nothing,
}

/// The value of an `EditCommand`.
pub enum EditCommandView {
    Backspace,
    Delete,
    Move(Motion),
    SelectAll,
    Copy,
    Cut,
    Paste,
    Insert(Seq<char>),
    Nothing,
}

impl View for EditCommand {
    type V = EditCommandView;

    open spec fn view(&self) -> EditCommandView {
        match self {
            EditCommand::Backspace => EditCommandView::Backspace,
            EditCommand::Delete => EditCommandView::Delete,
            EditCommand::Move(m) => EditCommandView::Move(*m),
            EditCommand::SelectAll => EditCommandView::SelectAll,
            EditCommand::Copy => EditCommandView::Copy,
            EditCommand::Cut => EditCommandView::Cut,
            EditCommand::Paste => EditCommandView::Paste,
            EditCommand::Insert(c) => EditCommandView::Insert(c@),
            EditCommand::Nothing => EditCommandView::Nothing,
        }
    }
}

/// Whether a character is a control character: one of the first 32, DEL, or one
/// of the 32 after it.
pub open spec fn is_control(c: char) -> bool {
    c <= '\u{1f}' || '\u{7f}' <= c <= '\u{9f}'
}

/// The characters of a text that are typed: all but control characters.
pub open spec fn typed(text: Seq<char>) -> Seq<char>
    decreases text.len(),
{
    if text.len() == 0 {
        text
    } else if is_control(text.last()) {
        typed(text.drop_last())
    } else {
        typed(text.drop_last()).push(text.last())
    }
}

/// What a key does to a text field. `text` is what the key types.
pub open spec fn command_of(key: KeyInput, ctrl: bool, text: Option<Seq<char>>) -> EditCommandView {
    match key {
        KeyInput::Backspace => EditCommandView::Backspace,
        KeyInput::Delete => EditCommandView::Delete,
        KeyInput::ArrowLeft => EditCommandView::Move(Motion::Left),
        KeyInput::ArrowRight => EditCommandView::Move(Motion::Right),
        KeyInput::Home => EditCommandView::Move(Motion::Home),
        KeyInput::End => EditCommandView::Move(Motion::End),
        KeyInput::Character(c) if ctrl => if c@ == "a"@ || c@ == "A"@ {
            EditCommandView::SelectAll
        } else if c@ == "c"@ || c@ == "C"@ {
            EditCommandView::Copy
        } else if c@ == "x"@ || c@ == "X"@ {
            EditCommandView::Cut
        } else if c@ == "v"@ || c@ == "V"@ {
            EditCommandView::Paste
        } else {
            EditCommandView::Nothing
        },
        _ => match text {
            Some(t) => EditCommandView::Insert(typed(t)),
            None => EditCommandView::Nothing,
        },
    }
}

fn typed_chars(text: &str) -> (r: Vec<char>)
    ensures
        r@ == typed(text@),
{
    let chars: Vec<char> = crate::text::chars_of(text);
    let mut out: Vec<char> = Vec::new();
    let mut i: usize = 0;
    assert(out@ =~= typed(chars@.take(0)));
    while i < chars.len()
        invariant
            i <= chars@.len(),
            out@ == typed(chars@.take(i as int)),
        decreases chars@.len() - i,
    {
        let c: char = chars[i];
        assert(chars@.take(i + 1).drop_last() =~= chars@.take(i as int));
        assert(chars@.take(i + 1).last() == c);
        if !(c <= '\u{1f}' || ('\u{7f}' <= c && c <= '\u{9f}')) {
            out.push(c);
        }
        i = i + 1;
    }
    assert(chars@.take(i as int) =~= chars@);
    out
}

fn is_either(text: &str, a: &str, b: &str) -> (r: bool)
    ensures
        r == (text@ == a@ || text@ == b@),
{
    crate::text::same(text, a) || crate::text::same(text, b)
}

/// What a key does to a text field. `text` is what the key types.
pub fn key_command(key: &KeyInput, ctrl: bool, text: Option<&str>) -> (r: EditCommand)
    ensures
        r@ == command_of(
            *key,
            ctrl,
            match text {
                Some(t) => Some(t@),
                None => None,
            },
        ),
{
    match key {
        KeyInput::Backspace => {
            return EditCommand::Backspace;
        },
        KeyInput::Delete => {
            return EditCommand::Delete;
        },
        KeyInput::ArrowLeft => {
            return EditCommand::Move(Motion::Left);
        },
        KeyInput::ArrowRight => {
            return EditCommand::Move(Motion::Right);
        },
        KeyInput::Home => {
            return EditCommand::Move(Motion::Home);
        },
        KeyInput::End => {
            return EditCommand::Move(Motion::End);
        },
        KeyInput::Character(c) => {
            if ctrl {
                let c: &str = c.as_str();
                if is_either(c, "a", "A") {
                    return EditCommand::SelectAll;
                }
                if is_either(c, "c", "C") {
                    return EditCommand::Copy;
                }
                if is_either(c, "x", "X") {
                    return EditCommand::Cut;
                }
                if is_either(c, "v", "V") {
                    return EditCommand::Paste;
                }
                return EditCommand::Nothing;
            }
        },
        KeyInput::Other => {},
    }
    match text {
        Some(t) => EditCommand::Insert(typed_chars(t)),
        None => EditCommand::Nothing,
    }
}

impl Shell {
    /// Takes in a key. Without a field that has the caret it does nothing; else
    /// a frame is due, and the result says what the key does and whether the
    /// address field is the one that was edited.
    pub fn on_key(&mut self, key: &KeyInput, text: Option<&str>) -> (r: Option<(EditCommand, bool)>)
        ensures
            match old(self)@.focus {
                None => r is None && final(self)@ == old(self)@,
                Some(f) => {
                    &&& r is Some
                    &&& (r->0).0@ == command_of(
                        *key,
                        old(self)@.ctrl,
                        match text {
                            Some(t) => Some(t@),
                            None => None,
                        },
                    )
                    &&& (r->0).1 == (f == Focus::Url)
                    &&& final(self)@ == (ShellView { dirty: true, ..old(self)@ })
                },
            },
    {
        match self.focus {
            None => None,
            Some(f) => {
                let command: EditCommand = key_command(key, self.ctrl, text);
                self.dirty = true;
                let url: bool = match f {
                    Focus::Url => true,
                    _ => false,
                };
                Some((command, url))
            },
        }
    }
}

// ---------------------------------------------------------------------------
// Waiting
// ---------------------------------------------------------------------------

/// How long the loop sleeps.
#[derive(Debug, Clone, Copy, PartialEq, Eq, Structural)]
pub enum Wait {
    /// Until the next event.
    Event,
    /// Until a time, or the next event.
    Until(u64),
}

/// What the loop does before it sleeps.
#[derive(Debug, Clone, Copy, PartialEq, Eq, Structural)]
pub struct Idle {
    pub redraw: bool,
    pub wait: Wait,
}

/// What a caption button's request comes to.
#[derive(Debug, Clone, Copy, PartialEq, Eq, Structural)]
pub enum WindowStep {
    Minimize,
    SetMaximized(bool),
    Exit,
}

/// What a caption button's request comes to, for a window that is maximized or
/// not.
pub fn window_step(action: WindowAction, maximized: bool) -> (r: WindowStep)
    ensures
        r == (match action {
            WindowAction::Minimize => WindowStep::Minimize,
            WindowAction::ToggleMaximize => WindowStep::SetMaximized(!maximized),
            WindowAction::Close => WindowStep::Exit,
        }),
{
    match action {
        WindowAction::Minimize => WindowStep::Minimize,
        WindowAction::ToggleMaximize => WindowStep::SetMaximized(!maximized),
        WindowAction::Close => WindowStep::Exit,
    }
}

impl Shell {
    /// Something came in from outside.
    pub fn mark_dirty(&mut self)
        ensures
            final(self)@ == (ShellView { dirty: true, ..old(self)@ }),
    {
        self.dirty = true;
    }

    /// A frame was drawn.
    pub fn drawn(&mut self)
        ensures
            final(self)@ == (ShellView { dirty: false, ..old(self)@ }),
    {
        self.dirty = false;
    }

    /// What the loop does before it sleeps. A motion has nothing else to prod the
    /// loop, so it makes a frame due itself; while something plays or moves, the
    /// loop wakes for the next frame, counted from when the last one began.
    pub fn about_to_wait(&mut self, playing: bool, animating: bool, last_redraw: u64) -> (r: Idle)
        requires
            last_redraw <= u64::MAX - FRAME_INTERVAL_MS,
        ensures
            final(self)@ == (ShellView { dirty: old(self)@.dirty || animating, ..old(self)@ }),
            r.redraw == (old(self)@.dirty || animating),
            r.wait == (if playing || animating {
                Wait::Until((last_redraw + FRAME_INTERVAL_MS) as u64)
            } else {
                Wait::Event
            }),
    {
        if animating {
            self.dirty = true;
        }
        let wait: Wait = if playing || animating {
            Wait::Until(last_redraw + FRAME_INTERVAL_MS)
        } else {
            Wait::Event
        };
        Idle { redraw: self.dirty, wait }
    }
}

// ---------------------------------------------------------------------------
// Laws
// ---------------------------------------------------------------------------

/// A drag keeps steering the slider that it began on, wherever the pointer
/// goes, and ends with the button: after it nothing is steered.
pub proof fn lemma_drag_lasts_until_release(
    s: ShellView,
    slider: SliderKind,
    x: Single,
    y: Single,
    inner: Bounds,
)
    requires
        s.dragging == Some(slider),
    ensures
        ({
            let moved = after_input(s, WindowInput::CursorMoved { x, y });
            let left = after_input(s, WindowInput::CursorLeft);
            let up = after_input(moved, WindowInput::Released);
            &&& moved.dragging == Some(slider)
            &&& left.dragging == Some(slider)
            &&& act_of(s, WindowInput::CursorMoved { x, y }, inner) == (Act::Drag {
                slider,
                released: false,
                x,
                y,
            })
            &&& act_of(moved, WindowInput::Released, inner) == (Act::Drag {
                slider,
                released: true,
                x,
                y,
            })
            &&& up.dragging is None
            &&& act_of(up, WindowInput::Released, inner) == Act::Nothing
        }),
{
}

/// A press within the border resizes the window and clicks nothing; anywhere
/// else it clicks and resizes nothing.
pub proof fn lemma_press_resizes_or_clicks(s: ShellView, inner: Bounds)
    ensures
        act_of(s, WindowInput::Pressed, inner) matches Act::Resize(d) ==> (
        s.pointer matches Some(p) && grip(inner, p.0, p.1) == Some(d)),
        act_of(s, WindowInput::Pressed, inner) matches Act::Click { x, y } ==> s.pointer == Some(
            (x, y),
        ) && grip(inner, x, y) is None,
        s.pointer is None ==> act_of(s, WindowInput::Pressed, inner) == Act::Nothing,
{
}

/// The window never has an extent of nothing.
pub proof fn lemma_window_has_an_extent(s: ShellView, event: WindowInput)
    requires
        s.width > 0,
        s.height > 0,
    ensures
        after_input(s, event).width > 0,
        after_input(s, event).height > 0,
{
}

/// Typing never puts a control character, and so no line break, into a field.
pub proof fn lemma_typing_is_printable(text: Seq<char>)
    ensures
        forall|i: int| 0 <= i < typed(text).len() ==> !is_control(#[trigger] typed(text)[i]),
    decreases text.len(),
{
    if text.len() > 0 {
        let rest = typed(text.drop_last());
        lemma_typing_is_printable(text.drop_last());
        assert forall|i: int| 0 <= i < typed(text).len() implies !is_control(
            #[trigger] typed(text)[i],
        ) by {
            if i < rest.len() {
                assert(typed(text)[i] == rest[i]);
            }
        }
    }
}

// ---------------------------------------------------------------------------
// What each event does
// ---------------------------------------------------------------------------

/// A point takes hold of the window at the edges it is at or beyond, of a corner where
/// there are two of them that meet. `inner` has its left edge before its right one and its
/// top before its bottom.
pub proof fn lemma_border_is_taken_hold_of(inner: Bounds, x: Single, y: Single)
    requires
        below(inner.left, inner.right),
        below(inner.top, inner.bottom),
        !is_nan(x),
        !is_nan(y),
    ensures
        ({
            let (west, east) = (!below(inner.left, x), !below(x, inner.right));
            let (north, south) = (!below(inner.top, y), !below(y, inner.bottom));
            let r = grip(inner, x, y);
            &&& west && north <==> r == Some(ResizeDirection::NorthWest)
            &&& east && north <==> r == Some(ResizeDirection::NorthEast)
            &&& west && south <==> r == Some(ResizeDirection::SouthWest)
            &&& east && south <==> r == Some(ResizeDirection::SouthEast)
            &&& west && !north && !south <==> r == Some(ResizeDirection::West)
            &&& east && !north && !south <==> r == Some(ResizeDirection::East)
            &&& north && !west && !east <==> r == Some(ResizeDirection::North)
            &&& south && !west && !east <==> r == Some(ResizeDirection::South)
            &&& !north && !south && !west && !east <==> r is None
        }),
{
}

/// The window opens at 1180 by 760 pixels, shrinks to 760 by 480 at the least, has a
/// border of six pixels, and is drawn every 16 ms while something moves.
pub proof fn lemma_sizes_of_the_window()
    ensures
        WINDOW_WIDTH == 1180 && WINDOW_HEIGHT == 760,
        MIN_WINDOW_WIDTH == 760 && MIN_WINDOW_HEIGHT == 480,
        RESIZE_BORDER == 6 && FRAME_INTERVAL_MS == 16,
{
}

/// A resize is taken over, an extent of nothing as one pixel, and makes a frame due, as a
/// move of the pointer does, its leaving and a turn of the wheel; the control key is kept;
/// a release ends a drag, and makes a frame due where one was steered. Nothing else of the
/// loop changes, and by any other event nothing.
pub proof fn lemma_what_events_change(
    s: ShellView,
    width: u32,
    height: u32,
    ctrl: bool,
    x: Single,
    y: Single,
)
    ensures
        ({
            let t = after_input(s, WindowInput::Resized { width, height });
            &&& width > 0 ==> t.width == width
            &&& width == 0 ==> t.width == 1
            &&& height > 0 ==> t.height == height
            &&& height == 0 ==> t.height == 1
            &&& t == (ShellView { width: t.width, height: t.height, dirty: true, ..s })
        }),
        after_input(s, WindowInput::Modifiers { ctrl }) == (ShellView { ctrl, ..s }),
        after_input(s, WindowInput::CursorMoved { x, y }) == (ShellView {
            pointer: Some((x, y)),
            dirty: true,
            ..s
        }),
        after_input(s, WindowInput::CursorLeft) == (ShellView { pointer: None, dirty: true, ..s }),
        s.dragging is Some && s.pointer is Some ==> after_input(s, WindowInput::Released) == (
        ShellView { dragging: None, dirty: true, ..s }),
        s.dragging is None || s.pointer is None ==> after_input(s, WindowInput::Released) == (
        ShellView { dragging: None, ..s }),
        after_input(s, WindowInput::Wheel) == (ShellView { dirty: true, ..s }),
        after_input(s, WindowInput::CloseRequested) == s,
        after_input(s, WindowInput::Pressed) == s,
        after_input(s, WindowInput::OtherButton) == s,
        after_input(s, WindowInput::Key) == s,
        after_input(s, WindowInput::RedrawRequested) == s,
        after_input(s, WindowInput::Other) == s,
{
}

/// Closing ends the loop. The pointer shows what it takes hold of while nothing is
/// dragged, and a press there resizes; elsewhere it clicks at the pointer, as the wheel
/// scrolls there. A key and a redraw are handed on, and all else asks for nothing.
pub proof fn lemma_what_events_ask_for(
    s: ShellView,
    inner: Bounds,
    x: Single,
    y: Single,
    width: u32,
    height: u32,
    ctrl: bool,
)
    ensures
        act_of(s, WindowInput::CloseRequested, inner) is Exit,
        s.dragging is None && grip(inner, x, y) is Some ==> act_of(
            s,
            WindowInput::CursorMoved { x, y },
            inner,
        ) == Act::SetCursor(Cursor::Resize(grip(inner, x, y)->0)),
        s.dragging is None && grip(inner, x, y) is None ==> act_of(
            s,
            WindowInput::CursorMoved { x, y },
            inner,
        ) == Act::SetCursor(Cursor::Default),
        act_of(s, WindowInput::CursorLeft, inner) == Act::SetCursor(Cursor::Default),
        s.pointer == Some((x, y)) ==> {
            &&& grip(inner, x, y) is Some ==> act_of(s, WindowInput::Pressed, inner) == Act::Resize(
                grip(inner, x, y)->0,
            )
            &&& grip(inner, x, y) is None ==> act_of(s, WindowInput::Pressed, inner) == (
            Act::Click { x, y })
            &&& act_of(s, WindowInput::Wheel, inner) == (Act::Scroll { x, y })
        },
        s.pointer is None ==> act_of(s, WindowInput::Wheel, inner) is Nothing && act_of(
            s,
            WindowInput::Released,
            inner,
        ) is Nothing,
        s.dragging is None ==> act_of(s, WindowInput::Released, inner) is Nothing,
        act_of(s, WindowInput::Key, inner) is Key,
        act_of(s, WindowInput::RedrawRequested, inner) is Redraw,
        act_of(s, WindowInput::Resized { width, height }, inner) is Nothing,
        act_of(s, WindowInput::Modifiers { ctrl }, inner) is Nothing,
        act_of(s, WindowInput::OtherButton, inner) is Nothing,
        act_of(s, WindowInput::Other, inner) is Nothing,
{
}

/// Typing keeps every character that is no control character, in order.
pub proof fn lemma_typing_keeps_what_is_printable(text: Seq<char>)
    ensures
        typed(text) == text.filter(|c: char| !(c < ' ' || '\u{7f}' <= c <= '\u{9f}')),
    decreases text.len(),
{
    reveal(Seq::filter);
    if text.len() > 0 {
        lemma_typing_keeps_what_is_printable(text.drop_last());
    }
}

/// What each key does: the keys for deleting and moving do as they say, control with a
/// letter of either case is a shortcut, and what is left types its text, where it has one.
pub proof fn lemma_what_keys_do(ctrl: bool, text: Option<Seq<char>>, c: String)
    ensures
        command_of(KeyInput::Backspace, ctrl, text) is Backspace,
        command_of(KeyInput::Delete, ctrl, text) is Delete,
        command_of(KeyInput::ArrowLeft, ctrl, text) == EditCommandView::Move(Motion::Left),
        command_of(KeyInput::ArrowRight, ctrl, text) == EditCommandView::Move(Motion::Right),
        command_of(KeyInput::Home, ctrl, text) == EditCommandView::Move(Motion::Home),
        command_of(KeyInput::End, ctrl, text) == EditCommandView::Move(Motion::End),
        ctrl ==> {
            let r = command_of(KeyInput::Character(c), ctrl, text);
            &&& c@ == "a"@ || c@ == "A"@ <==> r is SelectAll
            &&& c@ == "c"@ || c@ == "C"@ <==> r is Copy
            &&& c@ == "x"@ || c@ == "X"@ <==> r is Cut
            &&& c@ == "v"@ || c@ == "V"@ <==> r is Paste
            &&& r is SelectAll || r is Copy || r is Cut || r is Paste || r is Nothing
        },
        !ctrl && text is Some ==> command_of(KeyInput::Character(c), ctrl, text)
            == EditCommandView::Insert(typed(text->0)),
        text is Some ==> command_of(KeyInput::Other, ctrl, text) == EditCommandView::Insert(
            typed(text->0),
        ),
        text is None ==> command_of(KeyInput::Other, ctrl, text) is Nothing && (!ctrl
            ==> command_of(KeyInput::Character(c), ctrl, text) is Nothing),
{
    reveal_strlit("a");
    reveal_strlit("A");
    reveal_strlit("c");
    reveal_strlit("C");
    reveal_strlit("x");
    reveal_strlit("X");
    reveal_strlit("v");
    reveal_strlit("V");
    assert("a"@[0] == 'a' && "A"@[0] == 'A' && "c"@[0] == 'c' && "C"@[0] == 'C');
    assert("x"@[0] == 'x' && "X"@[0] == 'X' && "v"@[0] == 'v' && "V"@[0] == 'V');
}

/// A slider takes the press from all else; without one the innermost box that does
/// something takes it; without either, the top bar moves the window. The caret goes to the
/// field under the pointer whatever takes the press.
pub proof fn lemma_press_goes_to_one(
    plan: ClickPlan,
    boxes: Seq<Box_>,
    x: Single,
    y: Single,
    slider: Option<int>,
    press: Option<int>,
    bar: Option<int>,
    field: Option<int>,
)
    requires
        is_click_plan(plan, boxes, x, y),
        is_target(boxes, x, y, Wanted::Slider, slider),
        is_target(boxes, x, y, Wanted::Click, press),
        is_target(boxes, x, y, Wanted::TitleBar, bar),
        is_target(boxes, x, y, Wanted::Field, field),
    ensures
        slider is Some ==> plan.slider == slider_of(boxes[slider->0].id->0@) && plan.press is None
            && !plan.move_window,
        slider is None ==> plan.slider is None,
        slider is None && press is Some ==> plan.press == Some(press->0 as usize)
            && !plan.move_window,
        slider is None && press is None ==> plan.press is None && plan.move_window == (bar is Some),
        field is None ==> plan.field is None,
        field is Some ==> plan.field is Some && field_of(boxes[field->0].id->0@) == Some(
            (plan.field->0).0,
        ) && (plan.field->0).1 == boxes[field->0].bounds.left,
{
    let (s, p, b, f) = choose|s: Option<int>, p: Option<int>, b: Option<int>, f: Option<int>|
        {
            &&& #[trigger] is_target(boxes, x, y, Wanted::Slider, s)
            &&& #[trigger] is_target(boxes, x, y, Wanted::Click, p)
            &&& #[trigger] is_target(boxes, x, y, Wanted::TitleBar, b)
            &&& #[trigger] is_target(boxes, x, y, Wanted::Field, f)
            &&& plan.slider == (match s {
                Some(i) => slider_of(boxes[i].id->0@),
                None => None,
            })
            &&& plan.press == (if s is None && p is Some {
                Some(p->0 as usize)
            } else {
                None
            })
            &&& plan.move_window == (s is None && p is None && b is Some)
            &&& match (f, plan.field) {
                (Some(i), Some(found)) => boxes[i].id is Some && field_of(boxes[i].id->0@) == Some(
                    found.0,
                ) && found.1 == boxes[i].bounds.left,
                (None, None) => true,
                _ => false,
            }
        };
    crate::routing::lemma_target_is_unique(boxes, x, y, Wanted::Slider, s, slider);
    crate::routing::lemma_target_is_unique(boxes, x, y, Wanted::Click, p, press);
    crate::routing::lemma_target_is_unique(boxes, x, y, Wanted::TitleBar, b, bar);
    crate::routing::lemma_target_is_unique(boxes, x, y, Wanted::Field, f, field);
}

} // verus!
