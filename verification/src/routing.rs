//! Pointer routing: what is under the pointer, what a press reaches, what
//! scrolls.
//!
//! All of it reads the flat list of boxes that a frame was laid out into, in
//! the order they are painted. A rectangle is held by its four edges.

use vstd::hash_map::StringHashMap;
use vstd::prelude::*;

#[allow(unused_imports)]
use crate::readout::{at_most, below, equal, is_nan, larger, smaller};
use crate::text::{copy_opt, owned, same};
#[allow(unused_imports)]
use crate::text::opt;
use crate::ytdlp::Single;

verus! {

// ---------------------------------------------------------------------------
// Rectangles
// ---------------------------------------------------------------------------

/// A rectangle, by its edges.
#[derive(Debug, Clone, Copy, PartialEq, Eq, Structural)]
pub struct Bounds {
    pub left: Single,
    pub top: Single,
    pub right: Single,
    pub bottom: Single,
}

/// Whether a point lies in a rectangle. The left and top edges belong to it, the
/// others do not.
pub open spec fn covers(b: Bounds, x: Single, y: Single) -> bool {
    at_most(b.left, x) && at_most(b.top, y) && below(x, b.right) && below(y, b.bottom)
}

/// What two rectangles share, where they overlap.
pub open spec fn overlap(a: Bounds, b: Bounds) -> Option<Bounds> {
    let left = larger(a.left, b.left);
    let top = larger(a.top, b.top);
    let right = smaller(a.right, b.right);
    let bottom = smaller(a.bottom, b.bottom);
    if below(left, right) && below(top, bottom) {
        Some(Bounds { left, top, right, bottom })
    } else {
        None
    }
}

impl Bounds {
    /// Decides whether a point lies in the rectangle.
    pub fn contains(&self, x: Single, y: Single) -> (r: bool)
        ensures
            r == covers(*self, x, y),
    {
        self.left.is_at_most(x) && self.top.is_at_most(y) && x.is_below(self.right) && y.is_below(
            self.bottom,
        )
    }

    /// What two rectangles share, where they overlap.
    pub fn intersect(&self, other: &Bounds) -> (r: Option<Bounds>)
        ensures
            r == overlap(*self, *other),
    {
        let left: Single = self.left.or_larger(other.left);
        let top: Single = self.top.or_larger(other.top);
        let right: Single = self.right.or_smaller(other.right);
        let bottom: Single = self.bottom.or_smaller(other.bottom);
        if left.is_below(right) && top.is_below(bottom) {
            Some(Bounds { left, top, right, bottom })
        } else {
            None
        }
    }
}

/// Whether the edges of a rectangle are numbers.
pub open spec fn is_sound(b: Bounds) -> bool {
    !is_nan(b.left) && !is_nan(b.top) && !is_nan(b.right) && !is_nan(b.bottom)
}

/// What two rectangles share is exactly what lies in both.
pub proof fn lemma_overlap_is_what_both_cover(a: Bounds, b: Bounds, x: Single, y: Single)
    requires
        is_sound(a),
        is_sound(b),
    ensures
        covers(a, x, y) && covers(b, x, y) <==> (overlap(a, b) matches Some(c) && covers(c, x, y)),
        overlap(a, b) matches Some(c) ==> is_sound(c),
{
}

// ---------------------------------------------------------------------------
// Boxes
// ---------------------------------------------------------------------------

/// One laid-out box, as the pointer sees it.
#[derive(Debug)]
pub struct Box_ {
    pub bounds: Bounds,
    /// The place of the box it stands in.
    pub parent: Option<usize>,
    /// Whether what stands in it is cut off at its edges.
    pub clips: bool,
    /// Whether it takes part in routing at all. What is drawn on its way out
    /// does not.
    pub interactive: bool,
    pub id: Option<String>,
    /// Whether a press on it does something.
    pub clickable: bool,
    /// Whether the pointer coming or going does something.
    pub hoverable: bool,
    /// Whether the pointer is a hand over it.
    pub pointer: bool,
    pub scrolls: bool,
    /// How far it can scroll.
    pub scroll_max: Single,
}

/// Whether every box stands in one that was painted before it.
pub open spec fn in_paint_order(boxes: Seq<Box_>) -> bool {
    forall|i: int|
        0 <= i < boxes.len() ==> ((#[trigger] boxes[i]).parent matches Some(p) ==> p < i)
}

/// The region that a box is cut off at.
#[derive(Debug, Clone, Copy, PartialEq, Eq, Structural)]
pub enum Clip {
    /// Nothing cuts it off.
    Open,
    /// It shows within a region.
    Within(Bounds),
    /// It does not show at all.
    Hidden,
}

/// A region cut down by one more rectangle.
pub open spec fn narrowed(clip: Clip, b: Bounds) -> Clip {
    match clip {
        Clip::Open => Clip::Within(b),
        Clip::Within(c) => match overlap(c, b) {
            Some(d) => Clip::Within(d),
            None => Clip::Hidden,
        },
        Clip::Hidden => Clip::Hidden,
    }
}

/// Whether a region shows a point.
pub open spec fn shows(clip: Clip, x: Single, y: Single) -> bool {
    match clip {
        Clip::Open => true,
        Clip::Within(b) => covers(b, x, y),
        Clip::Hidden => false,
    }
}

/// Whether a region has no area, so that nothing shows in it.
pub open spec fn is_shut(clip: Clip) -> bool {
    match clip {
        Clip::Open => false,
        Clip::Within(b) => !(below(b.left, b.right) && below(b.top, b.bottom)),
        Clip::Hidden => true,
    }
}

/// A region without area is exactly one that shows no point.
pub proof fn lemma_shut_shows_nothing(clip: Clip)
    ensures
        is_shut(clip) <==> forall|x: Single, y: Single| !#[trigger] shows(clip, x, y),
{
    match clip {
        Clip::Open => {
            let zero = Single { bits: 0 };
            assert(shows(clip, zero, zero));
        },
        Clip::Within(b) => {
            if !is_shut(clip) {
                assert(shows(clip, b.left, b.top));
            }
        },
        Clip::Hidden => {},
    }
}

impl Clip {
    /// Decides whether the region has no area.
    pub fn has_no_area(&self) -> (r: bool)
        ensures
            r == is_shut(*self),
    {
        match self {
            Clip::Open => false,
            Clip::Within(b) => !(b.left.is_below(b.right) && b.top.is_below(b.bottom)),
            Clip::Hidden => true,
        }
    }
}

/// A region cut down by every box that the one at `i` stands in and that cuts
/// off.
pub open spec fn clip_from(boxes: Seq<Box_>, i: int, clip: Clip) -> Clip
    decreases i,
{
    match boxes[i].parent {
        Some(p) => if 0 <= i < boxes.len() && p < i {
            clip_from(
                boxes,
                p as int,
                if boxes[p as int].clips {
                    narrowed(clip, boxes[p as int].bounds)
                } else {
                    clip
                },
            )
        } else {
            clip
        },
        None => clip,
    }
}

/// Whether the pointer meets a box: it is over it, nothing cuts it off there,
/// and it takes part in routing.
pub open spec fn meets(boxes: Seq<Box_>, i: int, x: Single, y: Single) -> bool {
    &&& boxes[i].interactive
    &&& covers(boxes[i].bounds, x, y)
    &&& shows(clip_from(boxes, i, Clip::Open), x, y)
}

/// Whether a box is the one that the pointer meets: the last painted of all that
/// it is over.
pub open spec fn is_topmost(boxes: Seq<Box_>, i: int, x: Single, y: Single) -> bool {
    &&& 0 <= i < boxes.len()
    &&& meets(boxes, i, x, y)
    &&& forall|j: int| i < j < boxes.len() ==> !#[trigger] meets(boxes, j, x, y)
}

/// Whether the pointer meets no box.
pub open spec fn meets_none(boxes: Seq<Box_>, x: Single, y: Single) -> bool {
    forall|j: int| 0 <= j < boxes.len() ==> !#[trigger] meets(boxes, j, x, y)
}

/// The region that a box is cut off at.
pub fn inherited_clip(boxes: &[Box_], index: usize) -> (r: Clip)
    requires
        in_paint_order(boxes@),
        index < boxes@.len(),
    ensures
        r == clip_from(boxes@, index as int, Clip::Open),
{
    let mut clip: Clip = Clip::Open;
    let mut i: usize = index;
    loop
        invariant
            in_paint_order(boxes@),
            i < boxes@.len(),
            clip_from(boxes@, index as int, Clip::Open) == clip_from(boxes@, i as int, clip),
        decreases i,
    {
        match boxes[i].parent {
            Some(p) => {
                assert(boxes@[i as int].parent == Some(p));
                if boxes[p].clips {
                    clip = match clip {
                        Clip::Open => Clip::Within(boxes[p].bounds),
                        Clip::Within(c) => match c.intersect(&boxes[p].bounds) {
                            Some(d) => Clip::Within(d),
                            None => Clip::Hidden,
                        },
                        Clip::Hidden => Clip::Hidden,
                    };
                }
                i = p;
            },
            None => {
                return clip;
            },
        }
    }
}

fn visible_at(boxes: &[Box_], i: usize, x: Single, y: Single) -> (r: bool)
    requires
        in_paint_order(boxes@),
        i < boxes@.len(),
    ensures
        r == meets(boxes@, i as int, x, y),
{
    if !boxes[i].interactive || !boxes[i].bounds.contains(x, y) {
        return false;
    }
    match inherited_clip(boxes, i) {
        Clip::Open => true,
        Clip::Within(b) => b.contains(x, y),
        Clip::Hidden => false,
    }
}

/// The box that the pointer meets. A box is painted before what stands in it, so
/// an overlay takes the pointer from whatever it covers.
pub fn hit_test(boxes: &[Box_], x: Single, y: Single) -> (r: Option<usize>)
    requires
        in_paint_order(boxes@),
    ensures
        match r {
            Some(i) => is_topmost(boxes@, i as int, x, y),
            None => meets_none(boxes@, x, y),
        },
{
    let mut i: usize = boxes.len();
    while i > 0
        invariant
            i <= boxes@.len(),
            in_paint_order(boxes@),
            forall|j: int| i <= j < boxes@.len() ==> !#[trigger] meets(boxes@, j, x, y),
        decreases i,
    {
        i = i - 1;
        if visible_at(boxes, i, x, y) {
            return Some(i);
        }
    }
    None
}

// ---------------------------------------------------------------------------
// Looking upwards
// ---------------------------------------------------------------------------

/// A text field of the interface.
#[derive(Debug, Clone, Copy, PartialEq, Eq, Structural)]
pub enum Focus {
    Url,
    Override,
    Name,
    MaxHeight,
    Container,
    Output,
    Dir,
    Subs,
    Extra,
    Codec,
    CustomFmt,
}

impl Focus {
    pub open spec fn id(self) -> Seq<char> {
        match self {
            Focus::Url => "url"@,
            Focus::Override => "override"@,
            Focus::Name => "field-name"@,
            Focus::MaxHeight => "field-max-height"@,
            Focus::Container => "field-container"@,
            Focus::Output => "field-output"@,
            Focus::Dir => "field-dir"@,
            Focus::Subs => "field-subs"@,
            Focus::Extra => "field-extra"@,
            Focus::Codec => "field-codec"@,
            Focus::CustomFmt => "field-custom-fmt"@,
        }
    }

    /// The id of the field's box.
    pub fn element_id(self) -> (r: &'static str)
        ensures
            r@ == self.id(),
    {
        match self {
            Focus::Url => "url",
            Focus::Override => "override",
            Focus::Name => "field-name",
            Focus::MaxHeight => "field-max-height",
            Focus::Container => "field-container",
            Focus::Output => "field-output",
            Focus::Dir => "field-dir",
            Focus::Subs => "field-subs",
            Focus::Extra => "field-extra",
            Focus::Codec => "field-codec",
            Focus::CustomFmt => "field-custom-fmt",
        }
    }

    /// Every field.
    pub open spec fn every() -> Seq<Focus> {
        seq![
            Focus::Url,
            Focus::Override,
            Focus::Name,
            Focus::MaxHeight,
            Focus::Container,
            Focus::Output,
            Focus::Dir,
            Focus::Subs,
            Focus::Extra,
            Focus::Codec,
            Focus::CustomFmt,
        ]
    }

    /// Every field.
    pub fn all() -> (r: Vec<Focus>)
        ensures
            r@ == Focus::every(),
    {
        vec![
            Focus::Url,
            Focus::Override,
            Focus::Name,
            Focus::MaxHeight,
            Focus::Container,
            Focus::Output,
            Focus::Dir,
            Focus::Subs,
            Focus::Extra,
            Focus::Codec,
            Focus::CustomFmt,
        ]
    }
}

/// The field that an id belongs to.
pub open spec fn field_of(id: Seq<char>) -> Option<Focus> {
    if id == "url"@ {
        Some(Focus::Url)
    } else if id == "override"@ {
        Some(Focus::Override)
    } else if id == "field-name"@ {
        Some(Focus::Name)
    } else if id == "field-max-height"@ {
        Some(Focus::MaxHeight)
    } else if id == "field-container"@ {
        Some(Focus::Container)
    } else if id == "field-output"@ {
        Some(Focus::Output)
    } else if id == "field-dir"@ {
        Some(Focus::Dir)
    } else if id == "field-subs"@ {
        Some(Focus::Subs)
    } else if id == "field-extra"@ {
        Some(Focus::Extra)
    } else if id == "field-codec"@ {
        Some(Focus::Codec)
    } else if id == "field-custom-fmt"@ {
        Some(Focus::CustomFmt)
    } else {
        None
    }
}

/// Which of the two sliders of the player a drag belongs to.
#[derive(Debug, Clone, Copy, PartialEq, Eq, Structural)]
pub enum SliderKind {
    Seek,
    Volume,
}

/// The slider that an id belongs to.
pub open spec fn slider_of(id: Seq<char>) -> Option<SliderKind> {
    if id == "seek"@ {
        Some(SliderKind::Seek)
    } else if id == "volume"@ {
        Some(SliderKind::Volume)
    } else {
        None
    }
}

/// What is looked for in a box and in those it stands in.
#[derive(Debug, Clone, Copy, PartialEq, Eq, Structural)]
pub enum Wanted {
    Click,
    Hover,
    Scroll,
    Hand,
    Field,
    Slider,
    TitleBar,
}

/// Whether a box has what is looked for.
pub open spec fn has(b: Box_, wanted: Wanted) -> bool {
    match wanted {
        Wanted::Click => b.clickable,
        Wanted::Hover => b.hoverable,
        Wanted::Scroll => b.scrolls && b.id is Some,
        Wanted::Hand => b.pointer,
        Wanted::Field => b.id matches Some(id) && field_of(id@) is Some,
        Wanted::Slider => b.id matches Some(id) && slider_of(id@) is Some,
        Wanted::TitleBar => b.id matches Some(id) && id@ == "navbar"@,
    }
}

/// The innermost box with what is looked for, from the one at `i` outwards.
pub open spec fn nearest(boxes: Seq<Box_>, i: int, wanted: Wanted) -> Option<int>
    decreases i,
{
    if has(boxes[i], wanted) {
        Some(i)
    } else {
        match boxes[i].parent {
            Some(p) => if 0 <= i < boxes.len() && p < i {
                nearest(boxes, p as int, wanted)
            } else {
                None
            },
            None => None,
        }
    }
}

/// Whether `r` is the innermost box under the pointer with what is looked for.
pub open spec fn is_target(
    boxes: Seq<Box_>,
    x: Single,
    y: Single,
    wanted: Wanted,
    r: Option<int>,
) -> bool {
    ||| meets_none(boxes, x, y) && r is None
    ||| exists|i: int| #[trigger]
        is_topmost(boxes, i, x, y) && r == nearest(boxes, i, wanted)
}

fn field_named(id: &str) -> (r: Option<Focus>)
    ensures
        r == field_of(id@),
{
    if same(id, "url") {
        Some(Focus::Url)
    } else if same(id, "override") {
        Some(Focus::Override)
    } else if same(id, "field-name") {
        Some(Focus::Name)
    } else if same(id, "field-max-height") {
        Some(Focus::MaxHeight)
    } else if same(id, "field-container") {
        Some(Focus::Container)
    } else if same(id, "field-output") {
        Some(Focus::Output)
    } else if same(id, "field-dir") {
        Some(Focus::Dir)
    } else if same(id, "field-subs") {
        Some(Focus::Subs)
    } else if same(id, "field-extra") {
        Some(Focus::Extra)
    } else if same(id, "field-codec") {
        Some(Focus::Codec)
    } else if same(id, "field-custom-fmt") {
        Some(Focus::CustomFmt)
    } else {
        None
    }
}

fn slider_named(id: &str) -> (r: Option<SliderKind>)
    ensures
        r == slider_of(id@),
{
    if same(id, "seek") {
        Some(SliderKind::Seek)
    } else if same(id, "volume") {
        Some(SliderKind::Volume)
    } else {
        None
    }
}

fn box_has(b: &Box_, wanted: Wanted) -> (r: bool)
    ensures
        r == has(*b, wanted),
{
    match wanted {
        Wanted::Click => b.clickable,
        Wanted::Hover => b.hoverable,
        Wanted::Scroll => b.scrolls && b.id.is_some(),
        Wanted::Hand => b.pointer,
        Wanted::Field => match &b.id {
            Some(id) => field_named(id.as_str()).is_some(),
            None => false,
        },
        Wanted::Slider => match &b.id {
            Some(id) => slider_named(id.as_str()).is_some(),
            None => false,
        },
        Wanted::TitleBar => match &b.id {
            Some(id) => same(id.as_str(), "navbar"),
            None => false,
        },
    }
}

fn nearest_from(boxes: &[Box_], from: usize, wanted: Wanted) -> (r: Option<usize>)
    requires
        in_paint_order(boxes@),
        from < boxes@.len(),
    ensures
        match r {
            Some(i) => nearest(boxes@, from as int, wanted) == Some(i as int) && i <= from && has(
                boxes@[i as int],
                wanted,
            ),
            None => nearest(boxes@, from as int, wanted) is None,
        },
{
    let mut i: usize = from;
    loop
        invariant
            in_paint_order(boxes@),
            i <= from < boxes@.len(),
            nearest(boxes@, from as int, wanted) == nearest(boxes@, i as int, wanted),
        decreases i,
    {
        if box_has(&boxes[i], wanted) {
            return Some(i);
        }
        match boxes[i].parent {
            Some(p) => {
                assert(boxes@[i as int].parent == Some(p));
                i = p;
            },
            None => {
                return None;
            },
        }
    }
}

fn target(boxes: &[Box_], x: Single, y: Single, wanted: Wanted) -> (r: Option<usize>)
    requires
        in_paint_order(boxes@),
    ensures
        is_target(
            boxes@,
            x,
            y,
            wanted,
            match r {
                Some(i) => Some(i as int),
                None => None,
            },
        ),
        r matches Some(i) ==> i < boxes@.len() && has(boxes@[i as int], wanted),
{
    match hit_test(boxes, x, y) {
        Some(i) => {
            assert(is_topmost(boxes@, i as int, x, y));
            nearest_from(boxes, i, wanted)
        },
        None => None,
    }
}

/// The box whose press a click runs: the one that the pointer meets, or the
/// innermost around it that does something. A click on a row's text so reaches
/// the row.
pub fn dispatch_click(boxes: &[Box_], x: Single, y: Single) -> (r: Option<usize>)
    requires
        in_paint_order(boxes@),
    ensures
        is_target(
            boxes@,
            x,
            y,
            Wanted::Click,
            match r {
                Some(i) => Some(i as int),
                None => None,
            },
        ),
        r matches Some(i) ==> i < boxes@.len() && boxes@[i as int].clickable,
{
    target(boxes, x, y, Wanted::Click)
}

/// The id of the box that the pointer is said to be over.
pub fn hovered_id(boxes: &[Box_], x: Single, y: Single) -> (r: Option<String>)
    requires
        in_paint_order(boxes@),
    ensures
        exists|t: Option<int>| #[trigger]
            is_target(boxes@, x, y, Wanted::Hover, t) && opt(r) == (match t {
                Some(i) => opt(boxes@[i].id),
                None => None,
            }),
{
    let found: Option<usize> = target(boxes, x, y, Wanted::Hover);
    let ghost t: Option<int> = match found {
        Some(i) => Some(i as int),
        None => None,
    };
    assert(is_target(boxes@, x, y, Wanted::Hover, t));
    match found {
        Some(i) => copy_opt(&boxes[i].id),
        None => None,
    }
}

/// The region that a wheel turns: the innermost that scrolls, and how far it
/// can.
pub fn scroll_target(boxes: &[Box_], x: Single, y: Single) -> (r: Option<(String, Single)>)
    requires
        in_paint_order(boxes@),
    ensures
        exists|t: Option<int>| #[trigger]
            is_target(boxes@, x, y, Wanted::Scroll, t) && match (t, r) {
                (Some(i), Some(found)) => opt(boxes@[i].id) == Some(found.0@) && found.1
                    == boxes@[i].scroll_max,
                (None, None) => true,
                _ => false,
            },
{
    let found: Option<usize> = target(boxes, x, y, Wanted::Scroll);
    let ghost t: Option<int> = match found {
        Some(i) => Some(i as int),
        None => None,
    };
    assert(is_target(boxes@, x, y, Wanted::Scroll, t));
    match found {
        Some(i) => match &boxes[i].id {
            Some(id) => Some((owned(id.as_str()), boxes[i].scroll_max)),
            None => None,
        },
        None => None,
    }
}

/// Whether the pointer is a hand.
pub fn wants_pointer_cursor(boxes: &[Box_], x: Single, y: Single) -> (r: bool)
    requires
        in_paint_order(boxes@),
    ensures
        exists|t: Option<int>| #[trigger]
            is_target(boxes@, x, y, Wanted::Hand, t) && r == (t is Some),
{
    let found: Option<usize> = target(boxes, x, y, Wanted::Hand);
    let ghost t: Option<int> = match found {
        Some(i) => Some(i as int),
        None => None,
    };
    assert(is_target(boxes@, x, y, Wanted::Hand, t));
    found.is_some()
}

/// The text field under the pointer, and its left edge: from there the caret is
/// placed.
pub fn field_at(boxes: &[Box_], x: Single, y: Single) -> (r: Option<(Focus, Single)>)
    requires
        in_paint_order(boxes@),
    ensures
        exists|t: Option<int>| #[trigger]
            is_target(boxes@, x, y, Wanted::Field, t) && match (t, r) {
                (Some(i), Some(found)) => boxes@[i].id is Some && field_of(boxes@[i].id->0@)
                    == Some(found.0) && found.1 == boxes@[i].bounds.left,
                (None, None) => true,
                _ => false,
            },
{
    let found: Option<usize> = target(boxes, x, y, Wanted::Field);
    let ghost t: Option<int> = match found {
        Some(i) => Some(i as int),
        None => None,
    };
    assert(is_target(boxes@, x, y, Wanted::Field, t));
    match found {
        Some(i) => match &boxes[i].id {
            Some(id) => match field_named(id.as_str()) {
                Some(focus) => Some((focus, boxes[i].bounds.left)),
                None => None,
            },
            None => None,
        },
        None => None,
    }
}

/// The slider under the pointer.
pub fn slider_at(boxes: &[Box_], x: Single, y: Single) -> (r: Option<SliderKind>)
    requires
        in_paint_order(boxes@),
    ensures
        exists|t: Option<int>| #[trigger]
            is_target(boxes@, x, y, Wanted::Slider, t) && r == (match t {
                Some(i) => slider_of(boxes@[i].id->0@),
                None => None,
            }),
{
    let found: Option<usize> = target(boxes, x, y, Wanted::Slider);
    let ghost t: Option<int> = match found {
        Some(i) => Some(i as int),
        None => None,
    };
    assert(is_target(boxes@, x, y, Wanted::Slider, t));
    match found {
        Some(i) => match &boxes[i].id {
            Some(id) => slider_named(id.as_str()),
            None => None,
        },
        None => None,
    }
}

/// Whether a press that nothing took moves the window: on the top bar it does.
pub fn is_titlebar_drag_area(boxes: &[Box_], x: Single, y: Single) -> (r: bool)
    requires
        in_paint_order(boxes@),
    ensures
        exists|t: Option<int>| #[trigger]
            is_target(boxes@, x, y, Wanted::TitleBar, t) && r == (t is Some),
{
    let found: Option<usize> = target(boxes, x, y, Wanted::TitleBar);
    let ghost t: Option<int> = match found {
        Some(i) => Some(i as int),
        None => None,
    };
    assert(is_target(boxes@, x, y, Wanted::TitleBar, t));
    found.is_some()
}

// ---------------------------------------------------------------------------
// Boxes by id
// ---------------------------------------------------------------------------

/// Where the first box with an id stands; the number of boxes where there is
/// none.
pub open spec fn id_pos(boxes: Seq<Box_>, id: Seq<char>) -> int
    decreases boxes.len(),
{
    if boxes.len() == 0 || opt(boxes[0].id) == Some(id) {
        0
    } else {
        1 + id_pos(boxes.skip(1), id)
    }
}

fn find_id(boxes: &[Box_], id: &str) -> (r: Option<usize>)
    ensures
        match r {
            Some(i) => i == id_pos(boxes@, id@) && i < boxes@.len(),
            None => id_pos(boxes@, id@) == boxes@.len(),
        },
{
    let mut i: usize = 0;
    assert(boxes@.skip(0) =~= boxes@);
    while i < boxes.len()
        invariant
            i <= boxes@.len(),
            id_pos(boxes@, id@) == i + id_pos(boxes@.skip(i as int), id@),
        decreases boxes@.len() - i,
    {
        assert(boxes@.skip(i as int)[0] == boxes@[i as int]);
        let here: bool = match &boxes[i].id {
            Some(t) => same(t.as_str(), id),
            None => false,
        };
        if here {
            return Some(i);
        }
        assert(boxes@.skip(i as int).skip(1) =~= boxes@.skip(i + 1));
        i = i + 1;
    }
    None
}

/// The rectangle of the first box with an id: a slider's track, or a grid's
/// extent.
pub fn bounds_of(boxes: &[Box_], id: &str) -> (r: Option<Bounds>)
    ensures
        r == (if id_pos(boxes@, id@) < boxes@.len() {
            Some(boxes@[id_pos(boxes@, id@)].bounds)
        } else {
            None
        }),
{
    match find_id(boxes, id) {
        Some(i) => Some(boxes[i].bounds),
        None => None,
    }
}

/// One step of the pointer's move from one box to another.
#[derive(Debug, Clone, Copy, PartialEq, Eq, Structural)]
pub struct HoverStep {
    /// The box to tell.
    pub at: usize,
    /// Whether the pointer came, or went.
    pub entered: bool,
}

/// The step for the box of an id, where there is one that cares.
pub open spec fn hover_step(boxes: Seq<Box_>, id: Option<Seq<char>>, entered: bool) -> Seq<
    HoverStep,
> {
    match id {
        Some(t) => {
            let i = id_pos(boxes, t);
            if i < boxes.len() && boxes[i].hoverable {
                seq![HoverStep { at: i as usize, entered }]
            } else {
                Seq::empty()
            }
        },
        None => Seq::empty(),
    }
}

/// The steps of the pointer's move: it leaves the old box, then enters the new
/// one. Where they are one and the same, nothing happens.
pub open spec fn hover_steps(
    boxes: Seq<Box_>,
    previous: Option<Seq<char>>,
    current: Option<Seq<char>>,
) -> Seq<HoverStep> {
    if previous == current {
        Seq::empty()
    } else {
        hover_step(boxes, previous, false) + hover_step(boxes, current, true)
    }
}

fn push_step(out: &mut Vec<HoverStep>, boxes: &[Box_], id: &Option<String>, entered: bool)
    ensures
        final(out)@ == old(out)@ + hover_step(boxes@, opt(*id), entered),
{
    match id {
        Some(t) => {
            match find_id(boxes, t.as_str()) {
                Some(i) => {
                    if boxes[i].hoverable {
                        out.push(HoverStep { at: i, entered });
                        assert(out@ =~= old(out)@ + hover_step(boxes@, opt(*id), entered));
                        return ;
                    }
                },
                None => {},
            }
        },
        None => {},
    }
    assert(out@ =~= old(out)@ + hover_step(boxes@, opt(*id), entered));
}

/// The steps of the pointer's move from one box to another, by their ids: boxes
/// are laid out anew for every frame, so nothing else outlives one.
pub fn dispatch_hover(
    boxes: &[Box_],
    previous: &Option<String>,
    current: &Option<String>,
) -> (r: Vec<HoverStep>)
    ensures
        r@ == hover_steps(boxes@, opt(*previous), opt(*current)),
{
    let unchanged: bool = match (previous, current) {
        (Some(a), Some(b)) => same(a.as_str(), b.as_str()),
        (None, None) => true,
        _ => false,
    };
    let mut out: Vec<HoverStep> = Vec::new();
    if !unchanged {
        push_step(&mut out, boxes, previous, false);
        push_step(&mut out, boxes, current, true);
        assert(out@ =~= hover_steps(boxes@, opt(*previous), opt(*current)));
    }
    out
}

// ---------------------------------------------------------------------------
// Scrolling
// ---------------------------------------------------------------------------

/// How far each region is scrolled, by its id.
pub struct ScrollState {
    pub offsets: StringHashMap<Single>,
}

/// How far a region is scrolled; not at all where nothing is known of it.
pub open spec fn offset_of(offsets: Map<Seq<char>, Single>, id: Seq<char>) -> Single {
    if offsets.dom().contains(id) {
        offsets[id]
    } else {
        Single { bits: 0 }
    }
}

/// A number limited to the range from zero to another, or to zero where that is
/// below it.
pub open spec fn limited(v: Single, max: Single) -> Single {
    let zero = Single { bits: 0 };
    let top = larger(max, zero);
    if below(v, zero) {
        zero
    } else if below(top, v) {
        top
    } else {
        v
    }
}

impl ScrollState {
    pub fn new() -> (r: ScrollState)
        ensures
            r.offsets@ == Map::<Seq<char>, Single>::empty(),
    {
        ScrollState { offsets: StringHashMap::new() }
    }

    /// How far a region is scrolled.
    pub fn offset(&self, id: &str) -> (r: Single)
        ensures
            r == offset_of(self.offsets@, id@),
    {
        match self.offsets.get(id) {
            Some(v) => *v,
            None => Single { bits: 0 },
        }
    }

    /// Scrolls a region to an offset, within what it can. Says whether it moved:
    /// only then is there anything to draw.
    pub fn scroll_to(&mut self, id: &str, wanted: Single, max: Single) -> (moved: bool)
        ensures
            final(self).offsets@ == old(self).offsets@.insert(id@, limited(wanted, max)),
            moved == !equal(limited(wanted, max), offset_of(old(self).offsets@, id@)),
    {
        let zero: Single = Single { bits: 0 };
        let before: Single = self.offset(id);
        let top: Single = max.or_larger(zero);
        let next: Single = if wanted.is_below(zero) {
            zero
        } else if top.is_below(wanted) {
            top
        } else {
            wanted
        };
        self.offsets.insert(owned(id), next);
        !next.is_equal(before)
    }
}

/// A region stays within what it can scroll, and scrolling one leaves the others
/// where they are. At its end, scrolling on does not move it.
pub proof fn lemma_scroll_stays_within(
    offsets: Map<Seq<char>, Single>,
    id: Seq<char>,
    other: Seq<char>,
    wanted: Single,
    more: Single,
    max: Single,
)
    requires
        !is_nan(wanted),
        !is_nan(max),
        other != id,
    ensures
        ({
            let after = offsets.insert(id, limited(wanted, max));
            &&& at_most(Single { bits: 0 }, offset_of(after, id))
            &&& at_most(offset_of(after, id), larger(max, Single { bits: 0 }))
            &&& offset_of(after, other) == offset_of(offsets, other)
        }),
        at_most(larger(max, Single { bits: 0 }), wanted) && at_most(wanted, more) ==> equal(
            limited(wanted, max),
            limited(more, max),
        ),
{
}

// ---------------------------------------------------------------------------
// Painting order
// ---------------------------------------------------------------------------

/// One box of a flattened tree: the node it comes from, and the place of the box
/// it stands in.
#[derive(Debug, Clone, Copy, PartialEq, Eq, Structural)]
pub struct Flat {
    pub node: usize,
    pub parent: Option<usize>,
}

/// Whether a tree of nodes, given by the children of each, was built from its
/// leaves up: every child stands before its parent.
pub open spec fn built_upwards(kids: Seq<Vec<usize>>) -> bool {
    forall|n: int, k: int|
        0 <= n < kids.len() && 0 <= k < kids[n]@.len() ==> (#[trigger] kids[n]@[k]) < n
}

/// A tree flattened in painting order: a node, then each of its children with
/// all that stands in it. `base` is the place that the first of them takes.
pub open spec fn flat_tree(
    kids: Seq<Vec<usize>>,
    node: usize,
    parent: Option<usize>,
    base: nat,
) -> Seq<Flat>
    decreases node, kids[node as int]@.len() + 2,
{
    seq![Flat { node, parent }] + flat_kids(
        kids,
        node,
        kids[node as int]@.len(),
        base as usize,
        base + 1,
    )
}

/// The first `n` children of a node, flattened.
pub open spec fn flat_kids(
    kids: Seq<Vec<usize>>,
    node: usize,
    n: nat,
    parent: usize,
    base: nat,
) -> Seq<Flat>
    decreases node, n + 1,
{
    if n == 0 || n > kids[node as int]@.len() {
        Seq::empty()
    } else {
        let before = flat_kids(kids, node, (n - 1) as nat, parent, base);
        let child = kids[node as int]@[n - 1];
        if child < node {
            before + flat_tree(kids, child, Some(parent), base + before.len())
        } else {
            before
        }
    }
}

fn flatten_into(
    kids: &Vec<Vec<usize>>,
    node: usize,
    parent: Option<usize>,
    out: &mut Vec<Flat>,
)
    requires
        built_upwards(kids@),
        node < kids@.len(),
    ensures
        final(out)@ == old(out)@ + flat_tree(kids@, node, parent, old(out)@.len()),
    decreases node,
{
    let ghost start = out@;
    let me: usize = out.len();
    out.push(Flat { node, parent });
    let mut i: usize = 0;
    assert(out@ =~= start + seq![Flat { node, parent }] + flat_kids(
        kids@,
        node,
        0,
        me,
        me as nat + 1,
    ));
    while i < kids[node].len()
        invariant
            built_upwards(kids@),
            node < kids@.len(),
            i <= kids@[node as int]@.len(),
            me == start.len(),
            out@ == start + seq![Flat { node, parent }] + flat_kids(
                kids@,
                node,
                i as nat,
                me,
                me as nat + 1,
            ),
        decreases kids@[node as int]@.len() - i,
    {
        let child: usize = kids[node][i];
        assert(kids@[node as int]@[i as int] < node);
        let ghost before = flat_kids(kids@, node, i as nat, me, me as nat + 1);
        flatten_into(kids, child, Some(me), out);
        i = i + 1;
        assert(flat_kids(kids@, node, i as nat, me, me as nat + 1) =~= before + flat_tree(
            kids@,
            child,
            Some(me),
            me as nat + 1 + before.len(),
        ));
        assert(out@ =~= start + seq![Flat { node, parent }] + flat_kids(
            kids@,
            node,
            i as nat,
            me,
            me as nat + 1,
        ));
    }
    assert(out@ =~= start + flat_tree(kids@, node, parent, start.len()));
}

/// Flattens a tree in painting order: a box before what stands in it, and what
/// stands in it before whatever comes after.
pub fn flatten(kids: &Vec<Vec<usize>>, root: usize) -> (r: Vec<Flat>)
    requires
        built_upwards(kids@),
        root < kids@.len(),
    ensures
        r@ == flat_tree(kids@, root, None, 0),
        forall|i: int| 0 <= i < r@.len() ==> ((#[trigger] r@[i]).parent matches Some(p) ==> p < i),
{
    let mut out: Vec<Flat> = Vec::new();
    flatten_into(kids, root, None, &mut out);
    assert(out@ =~= flat_tree(kids@, root, None, 0));
    // A list's length is a machine number.
    assert(out.len() == out@.len());
    proof {
        lemma_flat_tree_order(kids@, root, None, 0);
    }
    out
}

/// In a flattened tree every box but the first stands in one that comes before
/// it, which is a box of its parent.
pub proof fn lemma_flat_tree_order(
    kids: Seq<Vec<usize>>,
    node: usize,
    parent: Option<usize>,
    base: nat,
)
    requires
        base + flat_tree(kids, node, parent, base).len() <= usize::MAX,
    ensures
        ({
            let flat = flat_tree(kids, node, parent, base);
            &&& flat.len() > 0
            &&& flat[0] == (Flat { node, parent })
            &&& forall|i: int|
                0 < i < flat.len() ==> ((#[trigger] flat[i]).parent matches Some(p) && base <= p
                    < base + i)
        }),
    decreases node, kids[node as int]@.len() + 2,
{
    let n = kids[node as int]@.len();
    let rest = flat_kids(kids, node, n, base as usize, base + 1);
    lemma_flat_kids_order(kids, node, n, base as usize, base + 1);
    let flat = flat_tree(kids, node, parent, base);
    assert forall|i: int| 0 < i < flat.len() implies ((#[trigger] flat[i]).parent matches Some(p)
        && base <= p < base + i) by {
        assert(flat[i] == rest[i - 1]);
    }
}

proof fn lemma_flat_kids_order(
    kids: Seq<Vec<usize>>,
    node: usize,
    n: nat,
    parent: usize,
    base: nat,
)
    requires
        parent < base,
        base + flat_kids(kids, node, n, parent, base).len() <= usize::MAX,
    ensures
        ({
            let flat = flat_kids(kids, node, n, parent, base);
            forall|i: int|
                0 <= i < flat.len() ==> ((#[trigger] flat[i]).parent matches Some(p) && parent <= p
                    < base + i)
        }),
    decreases node, n + 1,
{
    if n == 0 || n > kids[node as int]@.len() {
    } else {
        let before = flat_kids(kids, node, (n - 1) as nat, parent, base);
        let child = kids[node as int]@[n - 1];
        lemma_flat_kids_order(kids, node, (n - 1) as nat, parent, base);
        if child < node {
            let more = flat_tree(kids, child, Some(parent), base + before.len());
            lemma_flat_tree_order(kids, child, Some(parent), base + before.len());
            let flat = flat_kids(kids, node, n, parent, base);
            assert forall|i: int| 0 <= i < flat.len() implies ((
            #[trigger] flat[i]).parent matches Some(p) && parent <= p < base + i) by {
                if i < before.len() {
                    assert(flat[i] == before[i]);
                } else {
                    assert(flat[i] == more[i - before.len()]);
                }
            }
        }
    }
}

// ---------------------------------------------------------------------------
// Laws
// ---------------------------------------------------------------------------

/// Only one box can be the one that the pointer meets.
pub proof fn lemma_topmost_is_unique(boxes: Seq<Box_>, i: int, j: int, x: Single, y: Single)
    requires
        is_topmost(boxes, i, x, y),
        is_topmost(boxes, j, x, y),
    ensures
        i == j,
        !meets_none(boxes, x, y),
{
}

/// What a press, a wheel or the pointer reaches is determined by the boxes and
/// the point alone.
pub proof fn lemma_target_is_unique(
    boxes: Seq<Box_>,
    x: Single,
    y: Single,
    wanted: Wanted,
    a: Option<int>,
    b: Option<int>,
)
    requires
        is_target(boxes, x, y, wanted, a),
        is_target(boxes, x, y, wanted, b),
    ensures
        a == b,
{
    if !meets_none(boxes, x, y) {
        let i = choose|i: int| #[trigger]
            is_topmost(boxes, i, x, y) && a == nearest(boxes, i, wanted);
        let j = choose|j: int| #[trigger]
            is_topmost(boxes, j, x, y) && b == nearest(boxes, j, wanted);
        lemma_topmost_is_unique(boxes, i, j, x, y);
    } else {
        if exists|i: int| #[trigger] is_topmost(boxes, i, x, y) {
            let i = choose|i: int| #[trigger] is_topmost(boxes, i, x, y);
            assert(meets(boxes, i, x, y));
        }
    }
}

/// What an overlay covers gets no press: a box that the pointer meets takes it
/// from every box painted before it.
pub proof fn lemma_overlay_takes_the_pointer(
    boxes: Seq<Box_>,
    overlay: int,
    behind: int,
    x: Single,
    y: Single,
)
    requires
        0 <= behind < overlay < boxes.len(),
        meets(boxes, overlay, x, y),
    ensures
        !is_topmost(boxes, behind, x, y),
{
}

/// A box that takes no part in routing is never met, wherever it is painted.
pub proof fn lemma_inert_box_is_never_met(boxes: Seq<Box_>, i: int, x: Single, y: Single)
    requires
        !boxes[i].interactive,
    ensures
        !is_topmost(boxes, i, x, y),
{
}

proof fn lemma_clip_only_shrinks(boxes: Seq<Box_>, i: int, clip: Clip, x: Single, y: Single)
    requires
        in_paint_order(boxes),
        0 <= i < boxes.len(),
        forall|k: int| 0 <= k < boxes.len() ==> is_sound((#[trigger] boxes[k]).bounds),
        clip matches Clip::Within(b) ==> is_sound(b),
        shows(clip_from(boxes, i, clip), x, y),
    ensures
        shows(clip, x, y),
        boxes[i].parent matches Some(p) ==> (boxes[p as int].clips ==> covers(
            boxes[p as int].bounds,
            x,
            y,
        )),
    decreases i,
{
    match boxes[i].parent {
        Some(p) => {
            let b = boxes[p as int].bounds;
            let next = if boxes[p as int].clips {
                narrowed(clip, b)
            } else {
                clip
            };
            if boxes[p as int].clips {
                match clip {
                    Clip::Within(c) => {
                        lemma_overlap_is_what_both_cover(c, b, x, y);
                    },
                    _ => {},
                }
            }
            lemma_clip_only_shrinks(boxes, p as int, next, x, y);
        },
        None => {},
    }
}

/// Whether one box stands in another, at any depth.
pub open spec fn stands_in(boxes: Seq<Box_>, i: int, outer: int) -> bool
    decreases i,
{
    match boxes[i].parent {
        Some(p) => 0 <= p < i && (p == outer || stands_in(boxes, p as int, outer)),
        None => false,
    }
}

proof fn lemma_shown_within_every_clip(
    boxes: Seq<Box_>,
    i: int,
    outer: int,
    clip: Clip,
    x: Single,
    y: Single,
)
    requires
        in_paint_order(boxes),
        0 <= i < boxes.len(),
        forall|k: int| 0 <= k < boxes.len() ==> is_sound((#[trigger] boxes[k]).bounds),
        clip matches Clip::Within(b) ==> is_sound(b),
        shows(clip_from(boxes, i, clip), x, y),
        stands_in(boxes, i, outer),
        boxes[outer].clips,
    ensures
        covers(boxes[outer].bounds, x, y),
    decreases i,
{
    match boxes[i].parent {
        Some(p) => {
            lemma_clip_only_shrinks(boxes, i, clip, x, y);
            if p != outer {
                let next = if boxes[p as int].clips {
                    narrowed(clip, boxes[p as int].bounds)
                } else {
                    clip
                };
                if boxes[p as int].clips {
                    match clip {
                        Clip::Within(c) => {
                            lemma_overlap_is_what_both_cover(c, boxes[p as int].bounds, x, y);
                        },
                        _ => {},
                    }
                }
                lemma_shown_within_every_clip(boxes, p as int, outer, next, x, y);
            }
        },
        None => {},
    }
}

/// What is scrolled out of a region cannot be pressed: the pointer meets a box
/// only where it is within every box around it that cuts off.
pub proof fn lemma_scrolled_out_is_not_met(
    boxes: Seq<Box_>,
    i: int,
    outer: int,
    x: Single,
    y: Single,
)
    requires
        in_paint_order(boxes),
        0 <= i < boxes.len(),
        forall|k: int| 0 <= k < boxes.len() ==> is_sound((#[trigger] boxes[k]).bounds),
        stands_in(boxes, i, outer),
        boxes[outer].clips,
        !covers(boxes[outer].bounds, x, y),
    ensures
        !meets(boxes, i, x, y),
{
    if meets(boxes, i, x, y) {
        lemma_shown_within_every_clip(boxes, i, outer, Clip::Open, x, y);
    }
}

/// In a move from one box to another a leave always comes first, and at most one
/// box is entered.
pub proof fn lemma_hover_leaves_then_enters(
    boxes: Seq<Box_>,
    previous: Option<Seq<char>>,
    current: Option<Seq<char>>,
)
    ensures
        ({
            let steps = hover_steps(boxes, previous, current);
            &&& steps.len() <= 2
            &&& steps.len() == 2 ==> !steps[0].entered && steps[1].entered
            &&& previous == current ==> steps.len() == 0
        }),
{
}

proof fn lemma_field_ids_reveal()
    ensures
        "url"@.len() == 3,
        "override"@.len() == 8,
        "field-name"@.len() == 10,
        "field-max-height"@.len() == 16,
        "field-container"@.len() == 15,
        "field-output"@.len() == 12,
        "field-dir"@.len() == 9,
        "field-subs"@.len() == 10,
        "field-extra"@.len() == 11,
        "field-codec"@.len() == 11,
        "field-custom-fmt"@.len() == 16,
        "field-name"@[6] != "field-subs"@[6],
        "field-extra"@[6] != "field-codec"@[6],
        "field-max-height"@[6] != "field-custom-fmt"@[6],
{
    reveal_strlit("url");
    reveal_strlit("override");
    reveal_strlit("field-name");
    reveal_strlit("field-max-height");
    reveal_strlit("field-container");
    reveal_strlit("field-output");
    reveal_strlit("field-dir");
    reveal_strlit("field-subs");
    reveal_strlit("field-extra");
    reveal_strlit("field-codec");
    reveal_strlit("field-custom-fmt");
}

/// A field's id leads back to the field, so no two fields share one.
pub proof fn lemma_field_ids_are_distinct(a: Focus, b: Focus)
    ensures
        field_of(a.id()) == Some(a),
        a.id() == b.id() ==> a == b,
{
    lemma_field_ids_reveal();
}

// ---------------------------------------------------------------------------
// What each question comes to
// ---------------------------------------------------------------------------

/// A point of numbers lies in a rectangle where it is not left of it, not above it, and
/// left of its right and above its lower edge.
pub proof fn lemma_point_lies_between_the_edges(b: Bounds, x: Single, y: Single)
    requires
        is_sound(b),
        !is_nan(x),
        !is_nan(y),
    ensures
        covers(b, x, y) <==> !below(x, b.left) && !below(y, b.top) && below(x, b.right) && below(
            y,
            b.bottom,
        ),
{
}

proof fn lemma_shown_where_every_clip_covers(
    boxes: Seq<Box_>,
    i: int,
    clip: Clip,
    x: Single,
    y: Single,
)
    requires
        in_paint_order(boxes),
        0 <= i < boxes.len(),
        forall|k: int| 0 <= k < boxes.len() ==> is_sound((#[trigger] boxes[k]).bounds),
        clip matches Clip::Within(b) ==> is_sound(b),
        shows(clip, x, y),
        forall|o: int|
            #[trigger] stands_in(boxes, i, o) && boxes[o].clips ==> covers(boxes[o].bounds, x, y),
    ensures
        shows(clip_from(boxes, i, clip), x, y),
    decreases i,
{
    if let Some(p) = boxes[i].parent {
        let p = p as int;
        assert(p < i);
        assert(stands_in(boxes, i, p));
        let next = if boxes[p].clips {
            narrowed(clip, boxes[p].bounds)
        } else {
            clip
        };
        if boxes[p].clips {
            if let Clip::Within(c) = clip {
                lemma_overlap_is_what_both_cover(c, boxes[p].bounds, x, y);
            }
        }
        assert forall|o: int| #[trigger]
            stands_in(boxes, p, o) && boxes[o].clips implies covers(boxes[o].bounds, x, y) by {
            assert(stands_in(boxes, i, o));
        }
        lemma_shown_where_every_clip_covers(boxes, p, next, x, y);
    }
}

/// The pointer meets a box exactly where the box takes part in routing, the point lies in
/// it, and the point lies in every box around it that cuts off.
pub proof fn lemma_box_is_met_where_it_shows(boxes: Seq<Box_>, i: int, x: Single, y: Single)
    requires
        in_paint_order(boxes),
        0 <= i < boxes.len(),
        forall|k: int| 0 <= k < boxes.len() ==> is_sound((#[trigger] boxes[k]).bounds),
    ensures
        meets(boxes, i, x, y) <==> boxes[i].interactive && covers(boxes[i].bounds, x, y) && (
        forall|o: int|
            #[trigger] stands_in(boxes, i, o) && boxes[o].clips ==> covers(boxes[o].bounds, x, y)),
{
    if meets(boxes, i, x, y) {
        assert forall|o: int| #[trigger]
            stands_in(boxes, i, o) && boxes[o].clips implies covers(boxes[o].bounds, x, y) by {
            lemma_shown_within_every_clip(boxes, i, o, Clip::Open, x, y);
        }
    }
    if boxes[i].interactive && covers(boxes[i].bounds, x, y) && (forall|o: int|
        #[trigger] stands_in(boxes, i, o) && boxes[o].clips ==> covers(boxes[o].bounds, x, y)) {
        lemma_shown_where_every_clip_covers(boxes, i, Clip::Open, x, y);
    }
}

/// Each text field has a box of its own, by its id.
pub proof fn lemma_boxes_of_the_fields()
    ensures
        Focus::Url.id() == "url"@,
        Focus::Override.id() == "override"@,
        Focus::Name.id() == "field-name"@,
        Focus::MaxHeight.id() == "field-max-height"@,
        Focus::Container.id() == "field-container"@,
        Focus::Output.id() == "field-output"@,
        Focus::Dir.id() == "field-dir"@,
        Focus::Subs.id() == "field-subs"@,
        Focus::Extra.id() == "field-extra"@,
        Focus::Codec.id() == "field-codec"@,
        Focus::CustomFmt.id() == "field-custom-fmt"@,
        Focus::every().len() == 11,
        forall|f: Focus| #[trigger] Focus::every().contains(f),
{
    let all = Focus::every();
    assert forall|f: Focus| #[trigger] all.contains(f) by {
        assert(all[0] == Focus::Url && all[1] == Focus::Override && all[2] == Focus::Name);
        assert(all[3] == Focus::MaxHeight && all[4] == Focus::Container && all[5] == Focus::Output);
        assert(all[6] == Focus::Dir && all[7] == Focus::Subs && all[8] == Focus::Extra);
        assert(all[9] == Focus::Codec && all[10] == Focus::CustomFmt);
    }
}

/// A press on the box of a field reaches that field, and no other id is a field's; the two
/// sliders go by their ids alike.
pub proof fn lemma_ids_lead_to_their_fields(f: Focus, id: Seq<char>)
    ensures
        field_of(f.id()) == Some(f),
        field_of(id) is Some ==> id == field_of(id)->0.id(),
        slider_of("seek"@) == Some(SliderKind::Seek),
        slider_of("volume"@) == Some(SliderKind::Volume),
        slider_of(id) is Some ==> id == "seek"@ || id == "volume"@,
{
    reveal_strlit("url");
    reveal_strlit("override");
    reveal_strlit("field-name");
    reveal_strlit("field-max-height");
    reveal_strlit("field-container");
    reveal_strlit("field-output");
    reveal_strlit("field-dir");
    reveal_strlit("field-subs");
    reveal_strlit("field-extra");
    reveal_strlit("field-codec");
    reveal_strlit("field-custom-fmt");
    reveal_strlit("seek");
    reveal_strlit("volume");
    assert("url"@[0] == 'u' && "override"@[0] == 'o');
    assert("field-name"@[6] == 'n' && "field-max-height"@[6] == 'm' && "field-output"@[6] == 'o');
    assert("field-container"@[6] == 'c' && "field-container"@[8] == 'n');
    assert("field-codec"@[6] == 'c' && "field-codec"@[8] == 'd');
    assert("field-custom-fmt"@[6] == 'c' && "field-custom-fmt"@[7] == 'u');
    assert("field-dir"@[6] == 'd' && "field-subs"@[6] == 's' && "field-extra"@[6] == 'e');
    assert("seek"@[0] == 's' && "volume"@[0] == 'v');
}

/// What each kind of question looks for in a box.
pub proof fn lemma_what_is_looked_for(b: Box_)
    ensures
        has(b, Wanted::Click) == b.clickable,
        has(b, Wanted::Hover) == b.hoverable,
        has(b, Wanted::Scroll) == (b.scrolls && b.id is Some),
        has(b, Wanted::Hand) == b.pointer,
        has(b, Wanted::Field) == (b.id is Some && field_of(b.id->0@) is Some),
        has(b, Wanted::Slider) == (b.id is Some && slider_of(b.id->0@) is Some),
        has(b, Wanted::TitleBar) == (b.id is Some && b.id->0@ == "navbar"@),
{
}

/// What is found from a box outwards is the innermost that has what is looked for: the box
/// itself, or one that it stands in, with none between that has it. Nothing is found only
/// where none has it.
pub proof fn lemma_innermost_is_found(boxes: Seq<Box_>, i: int, wanted: Wanted, m: int)
    requires
        in_paint_order(boxes),
        0 <= i < boxes.len(),
    ensures
        nearest(boxes, i, wanted) matches Some(k) ==> {
            &&& 0 <= k <= i && has(boxes[k], wanted)
            &&& k == i || stands_in(boxes, i, k)
            &&& (m == i || stands_in(boxes, i, m)) && m > k ==> !(has(boxes[m], wanted))
        },
        nearest(boxes, i, wanted) is None ==> ((m == i || stands_in(boxes, i, m)) ==> !(has(
            boxes[m],
            wanted,
        ))),
    decreases i,
{
    if !(has(boxes[i], wanted)) {
        if let Some(p) = boxes[i].parent {
            assert(p < i);
            lemma_innermost_is_found(boxes, p as int, wanted, m);
        }
    } else if stands_in(boxes, i, m) {
        lemma_around_comes_before(boxes, i, m);
    }
}

proof fn lemma_around_comes_before(boxes: Seq<Box_>, i: int, outer: int)
    requires
        stands_in(boxes, i, outer),
    ensures
        outer < i,
    decreases i,
{
    if let Some(p) = boxes[i].parent {
        if p != outer {
            lemma_around_comes_before(boxes, p as int, outer);
        }
    }
}

/// A box is found by its id where it is the first of that id.
pub proof fn lemma_first_box_of_an_id(boxes: Seq<Box_>, id: Seq<char>, n: int)
    requires
        0 <= n <= boxes.len(),
        n < boxes.len() ==> boxes[n].id is Some && boxes[n].id->0@ == id,
        forall|i: int|
            0 <= i < n ==> (#[trigger] boxes[i]).id is None || boxes[i].id->0@ != id,
    ensures
        id_pos(boxes, id) == n,
    decreases boxes.len(),
{
    if n > 0 {
        let rest = boxes.skip(1);
        assert(boxes[0].id is None || boxes[0].id->0@ != id);
        assert forall|i: int| 0 <= i < n - 1 implies (#[trigger] rest[i]).id is None
            || rest[i].id->0@ != id by {
            assert(rest[i] == boxes[i + 1]);
        }
        lemma_first_box_of_an_id(rest, id, n - 1);
    }
}

/// The pointer going from one box to another tells the first box of the old id that it
/// went and the first of the new id that it came, each only where it cares, in that order;
/// staying tells none.
pub proof fn lemma_move_tells_both_boxes(
    boxes: Seq<Box_>,
    old_id: Seq<char>,
    new_id: Seq<char>,
    a: int,
    b: int,
)
    requires
        old_id != new_id,
        0 <= a < boxes.len() <= usize::MAX,
        0 <= b < boxes.len(),
        boxes[a].id is Some && boxes[a].id->0@ == old_id,
        boxes[b].id is Some && boxes[b].id->0@ == new_id,
        forall|i: int|
            0 <= i < a ==> (#[trigger] boxes[i]).id is None || boxes[i].id->0@ != old_id,
        forall|i: int|
            0 <= i < b ==> (#[trigger] boxes[i]).id is None || boxes[i].id->0@ != new_id,
    ensures
        ({
            let steps = hover_steps(boxes, Some(old_id), Some(new_id));
            let went = HoverStep { at: a as usize, entered: false };
            let came = HoverStep { at: b as usize, entered: true };
            &&& boxes[a].hoverable && boxes[b].hoverable ==> steps == seq![went, came]
            &&& boxes[a].hoverable && !boxes[b].hoverable ==> steps == seq![went]
            &&& !boxes[a].hoverable && boxes[b].hoverable ==> steps == seq![came]
            &&& !boxes[a].hoverable && !boxes[b].hoverable ==> steps.len() == 0
        }),
        hover_steps(boxes, Some(old_id), Some(old_id)).len() == 0,
        hover_steps(boxes, None, None).len() == 0,
{
    lemma_first_box_of_an_id(boxes, old_id, a);
    lemma_first_box_of_an_id(boxes, new_id, b);
    let steps = hover_steps(boxes, Some(old_id), Some(new_id));
    let went = HoverStep { at: a as usize, entered: false };
    let came = HoverStep { at: b as usize, entered: true };
    if boxes[a].hoverable && boxes[b].hoverable {
        assert(steps =~= seq![went, came]);
    } else if boxes[a].hoverable {
        assert(steps =~= seq![went]);
    } else if boxes[b].hoverable {
        assert(steps =~= seq![came]);
    }
}

/// An offset within what a region can scroll is kept as it is; below it is nothing, beyond
/// it is all there is. A region nothing is known of is not scrolled.
pub proof fn lemma_offset_within_the_range_is_kept(
    v: Single,
    max: Single,
    offsets: Map<Seq<char>, Single>,
    id: Seq<char>,
)
    requires
        !is_nan(v),
        !is_nan(max),
    ensures
        ({
            let zero = Single { bits: 0 };
            &&& below(v, zero) ==> limited(v, max) == zero
            &&& at_most(zero, v) && at_most(v, max) ==> limited(v, max) == v
            &&& at_most(zero, max) && below(max, v) ==> limited(v, max) == max
            &&& below(max, zero) && !below(v, zero) ==> equal(limited(v, max), zero)
            &&& offsets.dom().contains(id) ==> offset_of(offsets, id) == offsets[id]
            &&& !offsets.dom().contains(id) ==> offset_of(offsets, id) == zero
        }),
{
}

proof fn lemma_kids_begin_with_the_first(
    kids: Seq<Vec<usize>>,
    node: usize,
    n: nat,
    parent: usize,
    base: nat,
)
    requires
        built_upwards(kids),
        node < kids.len(),
        0 < n <= kids[node as int]@.len(),
    ensures
        ({
            let flat = flat_kids(kids, node, n, parent, base);
            &&& flat.len() > 0
            &&& flat[0] == (Flat { node: kids[node as int]@[0], parent: Some(parent) })
            &&& flat.contains(Flat { node: kids[node as int]@[n - 1], parent: Some(parent) })
        }),
    decreases n,
{
    let child = kids[node as int]@[n - 1];
    assert(child < node);
    let before = flat_kids(kids, node, (n - 1) as nat, parent, base);
    let flat = flat_kids(kids, node, n, parent, base);
    let tree = flat_tree(kids, child, Some(parent), base + before.len());
    assert(tree[0] == (Flat { node: child, parent: Some(parent) }));
    assert(flat[before.len() as int] == tree[0]);
    if n > 1 {
        lemma_kids_begin_with_the_first(kids, node, (n - 1) as nat, parent, base);
        assert(flat[0] == before[0]);
    } else {
        assert(before.len() == 0);
    }
}

proof fn lemma_kids_extend(
    kids: Seq<Vec<usize>>,
    node: usize,
    m: nat,
    n: nat,
    parent: usize,
    base: nat,
)
    requires
        m <= n <= kids[node as int]@.len(),
    ensures
        ({
            let (a, b) = (
                flat_kids(kids, node, m, parent, base),
                flat_kids(kids, node, n, parent, base),
            );
            a.len() <= b.len() && b.take(a.len() as int) == a
        }),
    decreases n,
{
    let a = flat_kids(kids, node, m, parent, base);
    let b = flat_kids(kids, node, n, parent, base);
    if m < n {
        lemma_kids_extend(kids, node, m, (n - 1) as nat, parent, base);
        let c = flat_kids(kids, node, (n - 1) as nat, parent, base);
        assert(b.take(a.len() as int) =~= c.take(a.len() as int));
    } else {
        assert(b.take(a.len() as int) =~= a);
    }
}

/// A node is painted first, then its first child, and every child somewhere behind it.
pub proof fn lemma_children_are_painted_behind_their_parent(
    kids: Seq<Vec<usize>>,
    node: usize,
    parent: Option<usize>,
    base: nat,
    k: nat,
)
    requires
        built_upwards(kids),
        node < kids.len(),
        base <= usize::MAX,
        k < kids[node as int]@.len(),
    ensures
        ({
            let flat = flat_tree(kids, node, parent, base);
            &&& flat[0] == (Flat { node, parent })
            &&& flat.len() > 1
            &&& flat[1] == (Flat { node: kids[node as int]@[0], parent: Some(base as usize) })
            &&& flat.contains(
                Flat { node: kids[node as int]@[k as int], parent: Some(base as usize) },
            )
        }),
{
    let n = kids[node as int]@.len();
    let all = flat_kids(kids, node, n, base as usize, base + 1);
    let some = flat_kids(kids, node, k + 1, base as usize, base + 1);
    lemma_kids_begin_with_the_first(kids, node, n, base as usize, base + 1);
    lemma_kids_begin_with_the_first(kids, node, k + 1, base as usize, base + 1);
    lemma_kids_extend(kids, node, k + 1, n, base as usize, base + 1);
    let child = Flat { node: kids[node as int]@[k as int], parent: Some(base as usize) };
    let i = choose|i: int| 0 <= i < some.len() && some[i] == child;
    assert(all.take(some.len() as int)[i] == child);
    let flat = flat_tree(kids, node, parent, base);
    assert(flat[i + 1] == all[i]);
    assert(flat[1] == all[0]);
}

/// What two rectangles share has an area, and there is something wherever some number lies
/// to the right of both left edges and to the left of both right ones, and likewise up and
/// down.
pub proof fn lemma_overlap_has_an_area(a: Bounds, b: Bounds)
    requires
        is_sound(a),
        is_sound(b),
    ensures
        overlap(a, b) matches Some(c) ==> below(c.left, c.right) && below(c.top, c.bottom),
        overlap(a, b) is Some <==> below(a.left, a.right) && below(a.left, b.right) && below(
            b.left,
            a.right,
        ) && below(b.left, b.right) && below(a.top, a.bottom) && below(a.top, b.bottom) && below(
            b.top,
            a.bottom,
        ) && below(b.top, b.bottom),
{
}

} // verus!
