//! From styles to what layout and painting are to do.
//!
//! The arithmetic of layout and of drawing is the application's; what is laid
//! out how, and which parts of a box are painted in which order, is decided
//! here.

use vstd::prelude::*;

#[allow(unused_imports)]
use crate::readout::{at_most, below, equal};
use crate::routing::{Bounds, Clip};
#[allow(unused_imports)]
use crate::routing::{covers, is_shut, shows};
use crate::style::{
    AlignItems, Edges, FlexDirection, JustifyContent, Length, ObjectFit, Rgba, StyleRefinement,
    ONE, ZERO,
};
#[allow(unused_imports)]
use crate::style::{all_sides, blank, is_visible, layered, num, or_zero, resolved_edges};
use crate::ytdlp::Single;

verus! {

// ---------------------------------------------------------------------------
// What a box takes over from those it stands in
// ---------------------------------------------------------------------------

/// What a box takes over from those it stands in.
#[derive(Debug, Clone, Copy, PartialEq, Eq, Structural)]
pub struct Inherited {
    pub font_size: Single,
    pub line_height: Single,
    pub color: Rgba,
    pub bold: bool,
    /// Whether text that does not fit ends in an ellipsis.
    pub truncate: bool,
    /// The opacities from the root down, multiplied.
    pub opacity: Single,
    /// Whether the pointer can meet it.
    pub interactive: bool,
}

/// What the boxes inside take over. `spaced` is the line height that goes with
/// the style's font size, `faded` the opacity so far times the style's own.
pub open spec fn refined(
    from: Inherited,
    style: StyleRefinement,
    spaced: Single,
    faded: Single,
) -> Inherited {
    Inherited {
        font_size: match style.font_size {
            Some(v) => v,
            None => from.font_size,
        },
        line_height: match (style.line_height, style.font_size) {
            (Some(v), _) => v,
            (None, Some(_)) => spaced,
            (None, None) => from.line_height,
        },
        color: match style.text_color {
            Some(c) => c,
            None => from.color,
        },
        bold: match style.font_bold {
            Some(b) => b,
            None => from.bold,
        },
        truncate: match style.truncate {
            Some(t) => t,
            None => from.truncate,
        },
        opacity: if style.opacity is Some {
            faded
        } else {
            from.opacity
        },
        interactive: from.interactive && style.pointer_events_none != Some(true),
    }
}

fn is_on(flag: Option<bool>) -> (r: bool)
    ensures
        r == (flag == Some(true)),
{
    match flag {
        Some(b) => b,
        None => false,
    }
}

impl Inherited {
    /// What the boxes inside take over.
    pub fn refine(self, style: &StyleRefinement, spaced: Single, faded: Single) -> (r: Inherited)
        ensures
            r == refined(self, *style, spaced, faded),
    {
        Inherited {
            font_size: match style.font_size {
                Some(v) => v,
                None => self.font_size,
            },
            line_height: match (style.line_height, style.font_size) {
                (Some(v), _) => v,
                (None, Some(_)) => spaced,
                (None, None) => self.line_height,
            },
            color: match style.text_color {
                Some(c) => c,
                None => self.color,
            },
            bold: match style.font_bold {
                Some(b) => b,
                None => self.bold,
            },
            truncate: match style.truncate {
                Some(t) => t,
                None => self.truncate,
            },
            opacity: if style.opacity.is_some() {
                faded
            } else {
                self.opacity
            },
            interactive: self.interactive && !is_on(style.pointer_events_none),
        }
    }
}

/// A style with nothing set passes everything on, and what was made inert stays
/// so all the way down.
pub proof fn lemma_inheritance(
    from: Inherited,
    style: StyleRefinement,
    spaced: Single,
    faded: Single,
)
    ensures
        refined(from, blank(), spaced, faded) == from,
        !from.interactive ==> !refined(from, style, spaced, faded).interactive,
{
}

// ---------------------------------------------------------------------------
// Layout
// ---------------------------------------------------------------------------

/// Where a box stands.
#[derive(Debug, Clone, Copy, PartialEq, Eq, Structural)]
pub enum Position {
    /// In its place.
    Static,
    /// In its place, drawn shifted.
    Relative,
    /// Off the flow, against the box it stands in.
    Absolute,
}

/// What becomes of what does not fit.
#[derive(Debug, Clone, Copy, PartialEq, Eq, Structural)]
pub enum Overflow {
    Visible,
    Hidden,
    /// Cut off, and scrolled up and down.
    Scroll,
}

/// What layout is asked for, with nothing left open.
#[derive(Debug, Clone, Copy, PartialEq, Eq)]
pub struct Flow {
    pub flex: bool,
    pub direction: FlexDirection,
    pub wrap: bool,
    pub grow: Single,
    pub shrink: Single,
    pub width: Length,
    pub height: Length,
    pub min_width: Length,
    pub min_height: Length,
    pub max_width: Length,
    pub padding: Edges<Single>,
    pub margin: Edges<Single>,
    pub border: Edges<Single>,
    pub gap: Single,
    pub align: Option<AlignItems>,
    pub justify: Option<JustifyContent>,
    pub position: Position,
    /// How far the box is shifted, or stands from each side; none is left open.
    pub inset: Edges<Option<Single>>,
    pub overflow: Overflow,
}

/// A length, left open where there is none.
pub open spec fn or_auto(l: Option<Length>) -> Length {
    match l {
        Some(v) => v,
        None => Length::Auto,
    }
}

/// Where a style places a box. A box that is placed absolutely is so even where
/// it also asks to be shifted.
pub open spec fn position_of(s: StyleRefinement) -> Position {
    if s.absolute == Some(true) {
        Position::Absolute
    } else if s.relative == Some(true) {
        Position::Relative
    } else {
        Position::Static
    }
}

/// What layout is asked for by a style.
pub open spec fn flow_of(s: StyleRefinement) -> Flow {
    Flow {
        flex: s.flex == Some(true),
        direction: if s.flex_direction == Some(FlexDirection::Column) {
            FlexDirection::Column
        } else {
            FlexDirection::Row
        },
        wrap: s.flex_wrap == Some(true),
        grow: or_zero(s.flex_grow),
        shrink: match s.flex_shrink {
            Some(v) => v,
            None => num(ONE),
        },
        width: or_auto(s.width),
        height: or_auto(s.height),
        min_width: or_auto(s.min_width),
        min_height: or_auto(s.min_height),
        max_width: or_auto(s.max_width),
        padding: resolved_edges(s.padding),
        margin: resolved_edges(s.margin),
        border: resolved_edges(s.border_widths),
        gap: or_zero(s.gap),
        align: s.align_items,
        justify: s.justify_content,
        position: position_of(s),
        inset: if position_of(s) == Position::Static {
            all_sides(None::<Single>)
        } else {
            s.inset
        },
        overflow: if s.overflow_y_scroll == Some(true) {
            Overflow::Scroll
        } else if s.overflow_hidden == Some(true) {
            Overflow::Hidden
        } else {
            Overflow::Visible
        },
    }
}

fn length_or_auto(l: Option<Length>) -> (r: Length)
    ensures
        r == or_auto(l),
{
    match l {
        Some(v) => v,
        None => Length::Auto,
    }
}

/// What layout is asked for by a style.
pub fn flow(s: &StyleRefinement) -> (r: Flow)
    ensures
        r == flow_of(*s),
{
    let position: Position = if is_on(s.absolute) {
        Position::Absolute
    } else if is_on(s.relative) {
        Position::Relative
    } else {
        Position::Static
    };
    let overflow: Overflow = if is_on(s.overflow_y_scroll) {
        Overflow::Scroll
    } else if is_on(s.overflow_hidden) {
        Overflow::Hidden
    } else {
        Overflow::Visible
    };
    let inset: Edges<Option<Single>> = match position {
        Position::Static => Edges::unset(),
        _ => s.inset,
    };
    Flow {
        flex: is_on(s.flex),
        direction: match s.flex_direction {
            Some(FlexDirection::Column) => FlexDirection::Column,
            _ => FlexDirection::Row,
        },
        wrap: is_on(s.flex_wrap),
        grow: match s.flex_grow {
            Some(v) => v,
            None => Single { bits: ZERO },
        },
        shrink: match s.flex_shrink {
            Some(v) => v,
            None => Single { bits: ONE },
        },
        width: length_or_auto(s.width),
        height: length_or_auto(s.height),
        min_width: length_or_auto(s.min_width),
        min_height: length_or_auto(s.min_height),
        max_width: length_or_auto(s.max_width),
        padding: s.padding.resolved(),
        margin: s.margin.resolved(),
        border: s.border_widths.resolved(),
        gap: match s.gap {
            Some(v) => v,
            None => Single { bits: ZERO },
        },
        align: s.align_items,
        justify: s.justify_content,
        position,
        inset,
        overflow,
    }
}

/// Whether a box cuts off what stands in it.
pub fn clips(s: &StyleRefinement) -> (r: bool)
    ensures
        r == (flow_of(*s).overflow != Overflow::Visible),
{
    is_on(s.overflow_hidden) || is_on(s.overflow_y_scroll)
}

// ---------------------------------------------------------------------------
// Painting
// ---------------------------------------------------------------------------

/// How the border of a box is drawn.
#[derive(Debug, Clone, Copy, PartialEq, Eq, Structural)]
pub enum BorderPlan {
    /// Not at all.
    Nothing,
    /// As one stroke of a width, inside the box.
    Stroke(Single),
    /// As a strip on each side that has one.
    Strips { top: bool, right: bool, bottom: bool, left: bool },
}

/// How the border of a box is drawn: as one stroke where all sides have one
/// width, else side by side.
pub open spec fn border_of(widths: Edges<Single>, color: Option<Rgba>) -> BorderPlan {
    if !(color matches Some(c) && is_visible(c)) {
        BorderPlan::Nothing
    } else if equal(widths.top, widths.right) && equal(widths.right, widths.bottom) && equal(
        widths.bottom,
        widths.left,
    ) && below(num(ZERO), widths.top) {
        BorderPlan::Stroke(widths.top)
    } else {
        BorderPlan::Strips {
            top: below(num(ZERO), widths.top),
            right: below(num(ZERO), widths.right),
            bottom: below(num(ZERO), widths.bottom),
            left: below(num(ZERO), widths.left),
        }
    }
}

/// How the corners of a box are rounded.
#[derive(Debug, Clone, Copy, PartialEq, Eq, Structural)]
pub enum Corner {
    /// By half the shorter side.
    Pill,
    Radius(Single),
}

/// How the corners of a box are rounded by a style.
pub open spec fn corner_of(s: StyleRefinement) -> Corner {
    if s.corner_pill == Some(true) {
        Corner::Pill
    } else {
        Corner::Radius(or_zero(s.corner_radius))
    }
}

/// What a box shows inside.
#[derive(Debug, Clone, Copy, PartialEq, Eq, Structural)]
pub enum Inside {
    /// Other boxes, which are painted on their own.
    Boxes,
    Text,
    Image,
    /// A drawing filled with the text colour.
    Mask,
    /// A drawing in its own colours.
    Drawing,
}

/// How one box is painted: its background, then its border, then what it shows
/// inside.
#[derive(Debug, Clone, Copy, PartialEq, Eq)]
pub struct PaintPlan {
    /// The style, with what applies under the pointer laid over it.
    pub style: StyleRefinement,
    pub corner: Corner,
    pub background: Option<Rgba>,
    pub border: BorderPlan,
    pub inside: Inside,
    /// How an image fills the box.
    pub fit: ObjectFit,
}

/// Whether a box has any area.
pub open spec fn has_area(width: Single, height: Single) -> bool {
    !at_most(width, num(ZERO)) && !at_most(height, num(ZERO))
}

/// Whether the pointer is over a box that shows there.
pub open spec fn is_under(
    bounds: Bounds,
    clip: Clip,
    pointer: Option<(Single, Single)>,
) -> bool {
    pointer matches Some(p) && covers(bounds, p.0, p.1) && shows(clip, p.0, p.1)
}

/// The style of a box with what applies under the pointer.
pub open spec fn style_under(
    style: StyleRefinement,
    hover: Option<StyleRefinement>,
    under: bool,
) -> StyleRefinement {
    match hover {
        Some(h) => if under {
            layered(style, h)
        } else {
            style
        },
        None => style,
    }
}

/// How one box is painted.
pub open spec fn plan_of(s: StyleRefinement, inside: Inside) -> PaintPlan {
    PaintPlan {
        style: s,
        corner: corner_of(s),
        background: match s.background {
            Some(c) => if is_visible(c) {
                Some(c)
            } else {
                None
            },
            None => None,
        },
        border: border_of(resolved_edges(s.border_widths), s.border_color),
        inside,
        fit: match s.object_fit {
            Some(f) => f,
            None => ObjectFit::Contain,
        },
    }
}

/// How a border is drawn.
pub fn border_plan(widths: Edges<Single>, color: Option<Rgba>) -> (r: BorderPlan)
    ensures
        r == border_of(widths, color),
{
    let zero: Single = Single { bits: ZERO };
    let seen: bool = match color {
        Some(c) => !c.is_transparent(),
        None => false,
    };
    if !seen {
        return BorderPlan::Nothing;
    }
    if widths.top.is_equal(widths.right) && widths.right.is_equal(widths.bottom)
        && widths.bottom.is_equal(widths.left) && zero.is_below(widths.top) {
        return BorderPlan::Stroke(widths.top);
    }
    BorderPlan::Strips {
        top: zero.is_below(widths.top),
        right: zero.is_below(widths.right),
        bottom: zero.is_below(widths.bottom),
        left: zero.is_below(widths.left),
    }
}

/// How one box is painted, where it is at all: not where it has no area, nor
/// where it is cut off entirely. `width` and `height` are those of its bounds.
pub fn paint_plan(
    bounds: &Bounds,
    width: Single,
    height: Single,
    clip: Clip,
    style: &StyleRefinement,
    hover: Option<StyleRefinement>,
    pointer: Option<(Single, Single)>,
    inside: Inside,
) -> (r: Option<PaintPlan>)
    ensures
        match r {
            Some(plan) => {
                &&& has_area(width, height)
                &&& !is_shut(clip)
                &&& plan == plan_of(
                    style_under(*style, hover, is_under(*bounds, clip, pointer)),
                    inside,
                )
            },
            None => !has_area(width, height) || is_shut(clip),
        },
{
    let zero: Single = Single { bits: ZERO };
    if width.is_at_most(zero) || height.is_at_most(zero) {
        return None;
    }
    if clip.has_no_area() {
        return None;
    }
    let under: bool = match pointer {
        Some((x, y)) => bounds.contains(x, y) && match clip {
            Clip::Open => true,
            Clip::Within(c) => c.contains(x, y),
            Clip::Hidden => false,
        },
        None => false,
    };
    let mut s: StyleRefinement = *style;
    match hover {
        Some(h) => {
            if under {
                s.layer(&h);
            }
        },
        None => {},
    }
    let corner: Corner = if is_on(s.corner_pill) {
        Corner::Pill
    } else {
        Corner::Radius(
            match s.corner_radius {
                Some(v) => v,
                None => zero,
            },
        )
    };
    let background: Option<Rgba> = match s.background {
        Some(c) => if c.is_transparent() {
            None
        } else {
            Some(c)
        },
        None => None,
    };
    let fit: ObjectFit = match s.object_fit {
        Some(f) => f,
        None => ObjectFit::Contain,
    };
    Some(
        PaintPlan {
            style: s,
            corner,
            background,
            border: border_plan(s.border_widths.resolved(), s.border_color),
            inside,
            fit,
        },
    )
}

/// Away from the pointer a box is painted in its own style, and under it only
/// what the hover style sets is different.
pub proof fn lemma_hover_overrides_only_what_it_sets(
    style: StyleRefinement,
    hover: StyleRefinement,
    under: bool,
)
    ensures
        style_under(style, Some(hover), false) == style,
        style_under(style, None, under) == style,
        style_under(style, Some(hover), true) == layered(style, hover),
        hover.text_color is None ==> style_under(style, Some(hover), under).text_color
            == style.text_color,
{
    crate::style::lemma_upper_none(style.text_color);
}

// ---------------------------------------------------------------------------
// What a style comes to
// ---------------------------------------------------------------------------

/// What a style sets of text replaces what was taken over, and what it does not set
/// stays. A new size brings its own line height along unless the style sets one. An
/// opacity is that so far times the style's own.
pub proof fn lemma_what_is_taken_over(
    from: Inherited,
    style: StyleRefinement,
    spaced: Single,
    faded: Single,
)
    ensures
        ({
            let r = refined(from, style, spaced, faded);
            &&& style.font_size is Some ==> r.font_size == style.font_size->0
            &&& style.font_size is None ==> r.font_size == from.font_size
            &&& style.line_height is Some ==> r.line_height == style.line_height->0
            &&& style.line_height is None && style.font_size is Some ==> r.line_height == spaced
            &&& style.line_height is None && style.font_size is None ==> r.line_height
                == from.line_height
            &&& style.text_color is Some ==> r.color == style.text_color->0
            &&& style.text_color is None ==> r.color == from.color
            &&& style.font_bold is Some ==> r.bold == style.font_bold->0
            &&& style.font_bold is None ==> r.bold == from.bold
            &&& style.truncate is Some ==> r.truncate == style.truncate->0
            &&& style.truncate is None ==> r.truncate == from.truncate
            &&& style.opacity is Some ==> r.opacity == faded
            &&& style.opacity is None ==> r.opacity == from.opacity
            &&& r.interactive <==> from.interactive && style.pointer_events_none != Some(true)
        }),
{
}

/// A box lies in its place unless it is shifted, or placed absolutely, which wins; only
/// then do its distances count. It scrolls before it merely cuts off.
pub proof fn lemma_where_a_box_stands(s: StyleRefinement)
    ensures
        ({
            let f = flow_of(s);
            let (on, off) = (s.absolute == Some(true), s.relative == Some(true));
            &&& on ==> f.position is Absolute && f.inset == s.inset
            &&& !on && off ==> f.position is Relative && f.inset == s.inset
            &&& !on && !off ==> f.position is Static && f.inset.top is None && f.inset.right is None
                && f.inset.bottom is None && f.inset.left is None
            &&& s.overflow_y_scroll == Some(true) ==> f.overflow is Scroll
            &&& s.overflow_y_scroll != Some(true) && s.overflow_hidden == Some(true)
                ==> f.overflow is Hidden
            &&& s.overflow_y_scroll != Some(true) && s.overflow_hidden != Some(true)
                ==> f.overflow is Visible
        }),
{
}

/// What is not set is laid out in a row, does not wrap or grow, shrinks, has no gap, and
/// leaves its sizes open; what is set is as it is set.
pub proof fn lemma_what_layout_is_asked_for(s: StyleRefinement)
    ensures
        ({
            let f = flow_of(s);
            &&& f.flex <==> s.flex == Some(true)
            &&& s.flex_direction == Some(FlexDirection::Column) ==> f.direction is Column
            &&& s.flex_direction != Some(FlexDirection::Column) ==> f.direction is Row
            &&& f.wrap <==> s.flex_wrap == Some(true)
            &&& s.flex_grow is Some ==> f.grow == s.flex_grow->0
            &&& s.flex_grow is None ==> f.grow.bits == 0
            &&& s.flex_shrink is Some ==> f.shrink == s.flex_shrink->0
            &&& s.flex_shrink is None ==> f.shrink.bits == 0x3f80_0000
            &&& s.width is Some ==> f.width == s.width->0
            &&& s.width is None ==> f.width is Auto
            &&& s.height is Some ==> f.height == s.height->0
            &&& s.height is None ==> f.height is Auto
            &&& s.min_width is Some ==> f.min_width == s.min_width->0
            &&& s.min_width is None ==> f.min_width is Auto
            &&& s.min_height is Some ==> f.min_height == s.min_height->0
            &&& s.min_height is None ==> f.min_height is Auto
            &&& s.max_width is Some ==> f.max_width == s.max_width->0
            &&& s.max_width is None ==> f.max_width is Auto
            &&& f.padding == resolved_edges(s.padding)
            &&& f.margin == resolved_edges(s.margin)
            &&& f.border == resolved_edges(s.border_widths)
            &&& s.gap is Some ==> f.gap == s.gap->0
            &&& s.gap is None ==> f.gap.bits == 0
            &&& f.align == s.align_items && f.justify == s.justify_content
        }),
{
}

/// A border shows where it has a colour that does: as one stroke where all sides have one
/// width above zero, else as a strip on each side that has one above zero.
pub proof fn lemma_how_a_border_is_drawn(widths: Edges<Single>, color: Option<Rgba>)
    ensures
        ({
            let r = border_of(widths, color);
            let zero = Single { bits: 0 };
            let even = equal(widths.top, widths.right) && equal(widths.right, widths.bottom)
                && equal(widths.bottom, widths.left) && below(zero, widths.top);
            let seen = color is Some && is_visible(color->0);
            &&& !seen ==> r is Nothing
            &&& seen && even ==> r == BorderPlan::Stroke(widths.top)
            &&& seen && !even ==> r == (BorderPlan::Strips {
                top: below(zero, widths.top),
                right: below(zero, widths.right),
                bottom: below(zero, widths.bottom),
                left: below(zero, widths.left),
            })
        }),
{
}

/// A box is painted by its own style: its corners as a pill or by their radius, its
/// background where that shows, its border, and an image contained unless it is to cover.
pub proof fn lemma_how_a_box_is_painted(s: StyleRefinement, inside: Inside)
    ensures
        ({
            let p = plan_of(s, inside);
            &&& p.style == s && p.inside == inside
            &&& s.corner_pill == Some(true) ==> p.corner is Pill
            &&& s.corner_pill != Some(true) && s.corner_radius is Some ==> p.corner
                == Corner::Radius(s.corner_radius->0)
            &&& s.corner_pill != Some(true) && s.corner_radius is None ==> p.corner
                == Corner::Radius(Single { bits: 0 })
            &&& s.background is Some && is_visible(s.background->0) ==> p.background
                == s.background
            &&& s.background is None || !is_visible(s.background->0) ==> p.background is None
            &&& p.border == border_of(resolved_edges(s.border_widths), s.border_color)
            &&& s.object_fit is Some ==> p.fit == s.object_fit->0
            &&& s.object_fit is None ==> p.fit is Contain
        }),
{
}

/// A box has area unless a side of it is at most zero, and the pointer is over it where it
/// lies in it and shows there.
pub proof fn lemma_area_and_pointer(
    width: Single,
    height: Single,
    bounds: Bounds,
    clip: Clip,
    x: Single,
    y: Single,
)
    ensures
        at_most(width, Single { bits: 0 }) ==> !has_area(width, height),
        at_most(height, Single { bits: 0 }) ==> !has_area(width, height),
        below(Single { bits: 0 }, width) && below(Single { bits: 0 }, height) ==> has_area(
            width,
            height,
        ),
        !is_under(bounds, clip, None),
        is_under(bounds, clip, Some((x, y))) <==> covers(bounds, x, y) && shows(clip, x, y),
{
}

} // verus!
