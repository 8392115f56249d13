//! Style: what a box asks of layout and of painting.
//!
//! Every property is none until it is set, and one style is laid over another
//! property by property: that is how a box looks different under the pointer.
//! Lengths are in pixels.

use vstd::prelude::*;

#[allow(unused_imports)]
use crate::readout::{is_nan, rank};
use crate::ytdlp::Single;

verus! {

// ---------------------------------------------------------------------------
// Numbers that the scale is made of
// ---------------------------------------------------------------------------

/// The bits of the whole numbers that the scale is made of.
pub const ZERO: u32 = 0x0000_0000;

pub const ONE: u32 = 0x3f80_0000;

pub const TWO: u32 = 0x4000_0000;

pub const FOUR: u32 = 0x4080_0000;

pub const SIX: u32 = 0x40c0_0000;

pub const EIGHT: u32 = 0x4100_0000;

pub const TWELVE: u32 = 0x4140_0000;

pub const FOURTEEN: u32 = 0x4160_0000;

pub const SIXTEEN: u32 = 0x4180_0000;

pub const TWENTY: u32 = 0x41a0_0000;

/// The bits of the smallest step above one.
pub const EPSILON: u32 = 0x3400_0000;

/// A number by its bits.
pub open spec fn num(bits: u32) -> Single {
    Single { bits }
}

// ---------------------------------------------------------------------------
// Properties
// ---------------------------------------------------------------------------

#[derive(Debug, Clone, Copy, PartialEq, Eq, Structural)]
pub enum FlexDirection {
    Row,
    Column,
}

#[derive(Debug, Clone, Copy, PartialEq, Eq, Structural)]
pub enum AlignItems {
    Start,
    Center,
    End,
}

#[derive(Debug, Clone, Copy, PartialEq, Eq, Structural)]
pub enum JustifyContent {
    Start,
    Center,
    End,
    SpaceBetween,
}

/// How an image fills its box.
#[derive(Debug, Clone, Copy, PartialEq, Eq, Structural)]
pub enum ObjectFit {
    /// The whole image shows, with bars beside it.
    Contain,
    /// The whole box is covered, and the image cropped.
    Cover,
}

/// A length: in pixels, as a fraction of what it stands in, or left open.
#[derive(Debug, Clone, Copy, PartialEq, Eq, Structural)]
pub enum Length {
    Px(Single),
    Fraction(Single),
    Auto,
}

/// A colour, with its opacity; each part lies between zero and one.
#[derive(Debug, Clone, Copy, PartialEq, Eq, Structural)]
pub struct Rgba {
    pub r: Single,
    pub g: Single,
    pub b: Single,
    pub a: Single,
}

/// Whether a colour shows at all.
pub open spec fn is_visible(c: Rgba) -> bool {
    is_nan(c.a) || rank(num(EPSILON)) < rank(c.a)
}

impl Rgba {
    /// Decides whether a colour does not show at all.
    pub fn is_transparent(&self) -> (r: bool)
        ensures
            r == !is_visible(*self),
    {
        self.a.is_at_most(Single { bits: EPSILON })
    }
}

/// A value for each side of a box.
#[derive(Debug, Copy, PartialEq, Eq)]
pub struct Edges<T> {
    pub top: T,
    pub right: T,
    pub bottom: T,
    pub left: T,
}

impl<T: Copy> Clone for Edges<T> {
    fn clone(&self) -> (r: Edges<T>)
        ensures
            r == *self,
    {
        *self
    }
}

/// The same value on all sides.
pub open spec fn all_sides<T>(v: T) -> Edges<T> {
    Edges { top: v, right: v, bottom: v, left: v }
}

/// A value, or zero where there is none.
pub open spec fn or_zero(v: Option<Single>) -> Single {
    match v {
        Some(n) => n,
        None => num(ZERO),
    }
}

/// The sides with zero where nothing was set.
pub open spec fn resolved_edges(e: Edges<Option<Single>>) -> Edges<Single> {
    Edges {
        top: or_zero(e.top),
        right: or_zero(e.right),
        bottom: or_zero(e.bottom),
        left: or_zero(e.left),
    }
}

fn value_or_zero(v: Option<Single>) -> (r: Single)
    ensures
        r == or_zero(v),
{
    match v {
        Some(n) => n,
        None => Single { bits: ZERO },
    }
}

impl Edges<Option<Single>> {
    /// Nothing set on any side.
    pub fn unset() -> (r: Edges<Option<Single>>)
        ensures
            r == all_sides(None::<Single>),
    {
        Edges { top: None, right: None, bottom: None, left: None }
    }

    /// The same value on all sides.
    pub fn all(v: Single) -> (r: Edges<Option<Single>>)
        ensures
            r == all_sides(Some(v)),
    {
        Edges { top: Some(v), right: Some(v), bottom: Some(v), left: Some(v) }
    }

    /// The sides with zero where nothing was set.
    pub fn resolved(&self) -> (r: Edges<Single>)
        ensures
            r == resolved_edges(*self),
    {
        Edges {
            top: value_or_zero(self.top),
            right: value_or_zero(self.right),
            bottom: value_or_zero(self.bottom),
            left: value_or_zero(self.left),
        }
    }
}

/// Every property of a box, each none until it is set.
#[derive(Debug, Clone, Copy, PartialEq, Eq)]
pub struct StyleRefinement {
    pub flex: Option<bool>,
    pub flex_direction: Option<FlexDirection>,
    pub flex_grow: Option<Single>,
    pub flex_shrink: Option<Single>,
    pub flex_wrap: Option<bool>,
    pub align_items: Option<AlignItems>,
    pub justify_content: Option<JustifyContent>,
    pub gap: Option<Single>,
    pub width: Option<Length>,
    pub height: Option<Length>,
    pub min_width: Option<Length>,
    pub min_height: Option<Length>,
    pub max_width: Option<Length>,
    pub absolute: Option<bool>,
    /// Laid out in its place, then drawn shifted.
    pub relative: Option<bool>,
    /// Scrolls, and so needs an id to be remembered by.
    pub overflow_y_scroll: Option<bool>,
    pub overflow_hidden: Option<bool>,
    /// Painted, but not there for the pointer.
    pub pointer_events_none: Option<bool>,
    pub background: Option<Rgba>,
    pub text_color: Option<Rgba>,
    pub font_size: Option<Single>,
    pub line_height: Option<Single>,
    pub font_bold: Option<bool>,
    pub corner_radius: Option<Single>,
    /// Half the shorter side, known once the box has a size.
    pub corner_pill: Option<bool>,
    pub border_color: Option<Rgba>,
    pub opacity: Option<Single>,
    pub truncate: Option<bool>,
    pub cursor_pointer: Option<bool>,
    pub object_fit: Option<ObjectFit>,
    pub padding: Edges<Option<Single>>,
    pub margin: Edges<Option<Single>>,
    pub inset: Edges<Option<Single>>,
    pub border_widths: Edges<Option<Single>>,
}

/// A style with nothing set.
pub open spec fn blank() -> StyleRefinement {
    StyleRefinement {
        flex: None,
        flex_direction: None,
        flex_grow: None,
        flex_shrink: None,
        flex_wrap: None,
        align_items: None,
        justify_content: None,
        gap: None,
        width: None,
        height: None,
        min_width: None,
        min_height: None,
        max_width: None,
        absolute: None,
        relative: None,
        overflow_y_scroll: None,
        overflow_hidden: None,
        pointer_events_none: None,
        background: None,
        text_color: None,
        font_size: None,
        line_height: None,
        font_bold: None,
        corner_radius: None,
        corner_pill: None,
        border_color: None,
        opacity: None,
        truncate: None,
        cursor_pointer: None,
        object_fit: None,
        padding: all_sides(None::<Single>),
        margin: all_sides(None::<Single>),
        inset: all_sides(None::<Single>),
        border_widths: all_sides(None::<Single>),
    }
}

/// The upper of two values where it is set, else the lower.
#[verifier::opaque]
pub open spec fn upper<T>(lower: Option<T>, upper: Option<T>) -> Option<T> {
    if upper is Some {
        upper
    } else {
        lower
    }
}

/// Sides laid over others, side by side.
pub open spec fn upper_edges(
    lower: Edges<Option<Single>>,
    over: Edges<Option<Single>>,
) -> Edges<Option<Single>> {
    Edges {
        top: upper(lower.top, over.top),
        right: upper(lower.right, over.right),
        bottom: upper(lower.bottom, over.bottom),
        left: upper(lower.left, over.left),
    }
}

/// A style laid over another: whatever it sets wins, the rest stays.
pub open spec fn layered(base: StyleRefinement, over: StyleRefinement) -> StyleRefinement {
    StyleRefinement {
        flex: upper(base.flex, over.flex),
        flex_direction: upper(base.flex_direction, over.flex_direction),
        flex_grow: upper(base.flex_grow, over.flex_grow),
        flex_shrink: upper(base.flex_shrink, over.flex_shrink),
        flex_wrap: upper(base.flex_wrap, over.flex_wrap),
        align_items: upper(base.align_items, over.align_items),
        justify_content: upper(base.justify_content, over.justify_content),
        gap: upper(base.gap, over.gap),
        width: upper(base.width, over.width),
        height: upper(base.height, over.height),
        min_width: upper(base.min_width, over.min_width),
        min_height: upper(base.min_height, over.min_height),
        max_width: upper(base.max_width, over.max_width),
        absolute: upper(base.absolute, over.absolute),
        relative: upper(base.relative, over.relative),
        overflow_y_scroll: upper(base.overflow_y_scroll, over.overflow_y_scroll),
        overflow_hidden: upper(base.overflow_hidden, over.overflow_hidden),
        pointer_events_none: upper(base.pointer_events_none, over.pointer_events_none),
        background: upper(base.background, over.background),
        text_color: upper(base.text_color, over.text_color),
        font_size: upper(base.font_size, over.font_size),
        line_height: upper(base.line_height, over.line_height),
        font_bold: upper(base.font_bold, over.font_bold),
        corner_radius: upper(base.corner_radius, over.corner_radius),
        corner_pill: upper(base.corner_pill, over.corner_pill),
        border_color: upper(base.border_color, over.border_color),
        opacity: upper(base.opacity, over.opacity),
        truncate: upper(base.truncate, over.truncate),
        cursor_pointer: upper(base.cursor_pointer, over.cursor_pointer),
        object_fit: upper(base.object_fit, over.object_fit),
        padding: upper_edges(base.padding, over.padding),
        margin: upper_edges(base.margin, over.margin),
        inset: upper_edges(base.inset, over.inset),
        border_widths: upper_edges(base.border_widths, over.border_widths),
    }
}

fn over<T: Copy>(lower: Option<T>, upper_value: Option<T>) -> (r: Option<T>)
    ensures
        r == upper(lower, upper_value),
{
    proof {
        reveal(upper);
    }
    if upper_value.is_some() {
        upper_value
    } else {
        lower
    }
}

fn over_edges(lower: Edges<Option<Single>>, upper_value: Edges<Option<Single>>) -> (r: Edges<
    Option<Single>,
>)
    ensures
        r == upper_edges(lower, upper_value),
{
    Edges {
        top: over(lower.top, upper_value.top),
        right: over(lower.right, upper_value.right),
        bottom: over(lower.bottom, upper_value.bottom),
        left: over(lower.left, upper_value.left),
    }
}

impl Default for StyleRefinement {
    fn default() -> (r: StyleRefinement)
        ensures
            r == blank(),
    {
        StyleRefinement {
            flex: None,
            flex_direction: None,
            flex_grow: None,
            flex_shrink: None,
            flex_wrap: None,
            align_items: None,
            justify_content: None,
            gap: None,
            width: None,
            height: None,
            min_width: None,
            min_height: None,
            max_width: None,
            absolute: None,
            relative: None,
            overflow_y_scroll: None,
            overflow_hidden: None,
            pointer_events_none: None,
            background: None,
            text_color: None,
            font_size: None,
            line_height: None,
            font_bold: None,
            corner_radius: None,
            corner_pill: None,
            border_color: None,
            opacity: None,
            truncate: None,
            cursor_pointer: None,
            object_fit: None,
            padding: Edges::unset(),
            margin: Edges::unset(),
            inset: Edges::unset(),
            border_widths: Edges::unset(),
        }
    }
}

impl StyleRefinement {
    /// Lays another style over this one.
    pub fn layer(&mut self, other: &StyleRefinement)
        ensures
            *final(self) == layered(*old(self), *other),
    {
        let base: StyleRefinement = *self;
        *self = StyleRefinement {
            flex: over(base.flex, other.flex),
            flex_direction: over(base.flex_direction, other.flex_direction),
            flex_grow: over(base.flex_grow, other.flex_grow),
            flex_shrink: over(base.flex_shrink, other.flex_shrink),
            flex_wrap: over(base.flex_wrap, other.flex_wrap),
            align_items: over(base.align_items, other.align_items),
            justify_content: over(base.justify_content, other.justify_content),
            gap: over(base.gap, other.gap),
            width: over(base.width, other.width),
            height: over(base.height, other.height),
            min_width: over(base.min_width, other.min_width),
            min_height: over(base.min_height, other.min_height),
            max_width: over(base.max_width, other.max_width),
            absolute: over(base.absolute, other.absolute),
            relative: over(base.relative, other.relative),
            overflow_y_scroll: over(base.overflow_y_scroll, other.overflow_y_scroll),
            overflow_hidden: over(base.overflow_hidden, other.overflow_hidden),
            pointer_events_none: over(base.pointer_events_none, other.pointer_events_none),
            background: over(base.background, other.background),
            text_color: over(base.text_color, other.text_color),
            font_size: over(base.font_size, other.font_size),
            line_height: over(base.line_height, other.line_height),
            font_bold: over(base.font_bold, other.font_bold),
            corner_radius: over(base.corner_radius, other.corner_radius),
            corner_pill: over(base.corner_pill, other.corner_pill),
            border_color: over(base.border_color, other.border_color),
            opacity: over(base.opacity, other.opacity),
            truncate: over(base.truncate, other.truncate),
            cursor_pointer: over(base.cursor_pointer, other.cursor_pointer),
            object_fit: over(base.object_fit, other.object_fit),
            padding: over_edges(base.padding, other.padding),
            margin: over_edges(base.margin, other.margin),
            inset: over_edges(base.inset, other.inset),
            border_widths: over_edges(base.border_widths, other.border_widths),
        };
    }
}

pub broadcast proof fn lemma_upper_none<T>(a: Option<T>)
    ensures
        #[trigger] upper(a, None::<T>) == a,
{
    reveal(upper);
}

pub broadcast proof fn lemma_none_upper<T>(a: Option<T>)
    ensures
        #[trigger] upper(None::<T>, a) == a,
{
    reveal(upper);
}

pub broadcast proof fn lemma_upper_twice<T>(a: Option<T>, b: Option<T>)
    ensures
        #[trigger] upper(upper(a, b), b) == upper(a, b),
{
    reveal(upper);
}

pub broadcast proof fn lemma_upper_joins<T>(a: Option<T>, b: Option<T>, c: Option<T>)
    ensures
        #[trigger] upper(upper(a, b), c) == upper(a, upper(b, c)),
{
    reveal(upper);
}

/// Only what the upper style sets is overridden: laying on nothing changes
/// nothing, laying on twice is laying on once, and layers can be put together
/// before they are laid on.
pub proof fn lemma_layering(a: StyleRefinement, b: StyleRefinement, c: StyleRefinement)
    ensures
        layered(a, blank()) == a,
        layered(blank(), a) == a,
        layered(layered(a, b), b) == layered(a, b),
        layered(layered(a, b), c) == layered(a, layered(b, c)),
{
    assert(layered(a, blank()) == a) by {
        broadcast use lemma_upper_none;

    }
    assert(layered(blank(), a) == a) by {
        broadcast use lemma_none_upper;

    }
    assert(layered(layered(a, b), b) == layered(a, b)) by {
        broadcast use lemma_upper_twice;

    }
    assert(layered(layered(a, b), c) == layered(a, layered(b, c))) by {
        broadcast use lemma_upper_joins;

    }
}

// ---------------------------------------------------------------------------
// Setting properties
// ---------------------------------------------------------------------------

/// Something with a style. Each method sets properties and gives the thing back.
pub trait Styled: Sized {
    /// The style.
    spec fn styling(self) -> StyleRefinement;

    fn style(&self) -> (r: StyleRefinement)
        ensures
            r == self.styling(),
    ;

    fn restyled(self, style: StyleRefinement) -> (r: Self)
        ensures
            r.styling() == style,
    ;

    fn flex(self) -> (r: Self)
        ensures
            r.styling() == (StyleRefinement {
                flex: Some(true),
                ..self.styling()
            }),
    {
        let base: StyleRefinement = self.style();
        self.restyled(StyleRefinement { flex: Some(true), ..base })
    }

    fn flex_col(self) -> (r: Self)
        ensures
            r.styling() == (StyleRefinement {
                flex: Some(true),
                flex_direction: Some(FlexDirection::Column),
                ..self.styling()
            }),
    {
        let base: StyleRefinement = self.style();
        self.restyled(StyleRefinement { flex: Some(true), flex_direction: Some(FlexDirection::Column), ..base })
    }

    fn flex_row(self) -> (r: Self)
        ensures
            r.styling() == (StyleRefinement {
                flex: Some(true),
                flex_direction: Some(FlexDirection::Row),
                ..self.styling()
            }),
    {
        let base: StyleRefinement = self.style();
        self.restyled(StyleRefinement { flex: Some(true), flex_direction: Some(FlexDirection::Row), ..base })
    }

    /// Takes the room that is left.
    fn flex_1(self) -> (r: Self)
        ensures
            r.styling() == (StyleRefinement {
                flex_grow: Some(num(ONE)),
                flex_shrink: Some(num(ONE)),
                ..self.styling()
            }),
    {
        let base: StyleRefinement = self.style();
        self.restyled(StyleRefinement { flex_grow: Some(Single { bits: ONE }), flex_shrink: Some(Single { bits: ONE }), ..base })
    }

    fn flex_grow(self, v: Single) -> (r: Self)
        ensures
            r.styling() == (StyleRefinement {
                flex_grow: Some(v),
                ..self.styling()
            }),
    {
        let base: StyleRefinement = self.style();
        self.restyled(StyleRefinement { flex_grow: Some(v), ..base })
    }

    fn flex_shrink_0(self) -> (r: Self)
        ensures
            r.styling() == (StyleRefinement {
                flex_shrink: Some(num(ZERO)),
                ..self.styling()
            }),
    {
        let base: StyleRefinement = self.style();
        self.restyled(StyleRefinement { flex_shrink: Some(Single { bits: ZERO }), ..base })
    }

    fn flex_wrap(self) -> (r: Self)
        ensures
            r.styling() == (StyleRefinement {
                flex_wrap: Some(true),
                ..self.styling()
            }),
    {
        let base: StyleRefinement = self.style();
        self.restyled(StyleRefinement { flex_wrap: Some(true), ..base })
    }

    fn items_center(self) -> (r: Self)
        ensures
            r.styling() == (StyleRefinement {
                align_items: Some(AlignItems::Center),
                ..self.styling()
            }),
    {
        let base: StyleRefinement = self.style();
        self.restyled(StyleRefinement { align_items: Some(AlignItems::Center), ..base })
    }

    fn justify_center(self) -> (r: Self)
        ensures
            r.styling() == (StyleRefinement {
                justify_content: Some(JustifyContent::Center),
                ..self.styling()
            }),
    {
        let base: StyleRefinement = self.style();
        self.restyled(StyleRefinement { justify_content: Some(JustifyContent::Center), ..base })
    }

    fn justify_end(self) -> (r: Self)
        ensures
            r.styling() == (StyleRefinement {
                justify_content: Some(JustifyContent::End),
                ..self.styling()
            }),
    {
        let base: StyleRefinement = self.style();
        self.restyled(StyleRefinement { justify_content: Some(JustifyContent::End), ..base })
    }

    fn justify_between(self) -> (r: Self)
        ensures
            r.styling() == (StyleRefinement {
                justify_content: Some(JustifyContent::SpaceBetween),
                ..self.styling()
            }),
    {
        let base: StyleRefinement = self.style();
        self.restyled(StyleRefinement { justify_content: Some(JustifyContent::SpaceBetween), ..base })
    }

    fn w(self, l: Length) -> (r: Self)
        ensures
            r.styling() == (StyleRefinement {
                width: Some(l),
                ..self.styling()
            }),
    {
        let base: StyleRefinement = self.style();
        self.restyled(StyleRefinement { width: Some(l), ..base })
    }

    fn h(self, l: Length) -> (r: Self)
        ensures
            r.styling() == (StyleRefinement {
                height: Some(l),
                ..self.styling()
            }),
    {
        let base: StyleRefinement = self.style();
        self.restyled(StyleRefinement { height: Some(l), ..base })
    }

    fn min_w(self, l: Length) -> (r: Self)
        ensures
            r.styling() == (StyleRefinement {
                min_width: Some(l),
                ..self.styling()
            }),
    {
        let base: StyleRefinement = self.style();
        self.restyled(StyleRefinement { min_width: Some(l), ..base })
    }

    fn min_h(self, l: Length) -> (r: Self)
        ensures
            r.styling() == (StyleRefinement {
                min_height: Some(l),
                ..self.styling()
            }),
    {
        let base: StyleRefinement = self.style();
        self.restyled(StyleRefinement { min_height: Some(l), ..base })
    }

    fn max_w(self, l: Length) -> (r: Self)
        ensures
            r.styling() == (StyleRefinement {
                max_width: Some(l),
                ..self.styling()
            }),
    {
        let base: StyleRefinement = self.style();
        self.restyled(StyleRefinement { max_width: Some(l), ..base })
    }

    fn w_full(self) -> (r: Self)
        ensures
            r.styling() == (StyleRefinement {
                width: Some(Length::Fraction(num(ONE))),
                ..self.styling()
            }),
    {
        let base: StyleRefinement = self.style();
        self.restyled(StyleRefinement { width: Some(Length::Fraction(Single { bits: ONE })), ..base })
    }

    fn h_full(self) -> (r: Self)
        ensures
            r.styling() == (StyleRefinement {
                height: Some(Length::Fraction(num(ONE))),
                ..self.styling()
            }),
    {
        let base: StyleRefinement = self.style();
        self.restyled(StyleRefinement { height: Some(Length::Fraction(Single { bits: ONE })), ..base })
    }

    fn size_full(self) -> (r: Self)
        ensures
            r.styling() == (StyleRefinement {
                width: Some(Length::Fraction(num(ONE))),
                height: Some(Length::Fraction(num(ONE))),
                ..self.styling()
            }),
    {
        let base: StyleRefinement = self.style();
        self.restyled(StyleRefinement { width: Some(Length::Fraction(Single { bits: ONE })), height: Some(Length::Fraction(Single { bits: ONE })), ..base })
    }

    /// Lets a box shrink below its content, without which nothing is cut off.
    fn min_w_0(self) -> (r: Self)
        ensures
            r.styling() == (StyleRefinement {
                min_width: Some(Length::Px(num(ZERO))),
                ..self.styling()
            }),
    {
        let base: StyleRefinement = self.style();
        self.restyled(StyleRefinement { min_width: Some(Length::Px(Single { bits: ZERO })), ..base })
    }

    fn min_h_0(self) -> (r: Self)
        ensures
            r.styling() == (StyleRefinement {
                min_height: Some(Length::Px(num(ZERO))),
                ..self.styling()
            }),
    {
        let base: StyleRefinement = self.style();
        self.restyled(StyleRefinement { min_height: Some(Length::Px(Single { bits: ZERO })), ..base })
    }

    fn gap(self, v: Single) -> (r: Self)
        ensures
            r.styling() == (StyleRefinement {
                gap: Some(v),
                ..self.styling()
            }),
    {
        let base: StyleRefinement = self.style();
        self.restyled(StyleRefinement { gap: Some(v), ..base })
    }

    fn gap_0p5(self) -> (r: Self)
        ensures
            r.styling() == (StyleRefinement {
                gap: Some(num(TWO)),
                ..self.styling()
            }),
    {
        let base: StyleRefinement = self.style();
        self.restyled(StyleRefinement { gap: Some(Single { bits: TWO }), ..base })
    }

    fn gap_1(self) -> (r: Self)
        ensures
            r.styling() == (StyleRefinement {
                gap: Some(num(FOUR)),
                ..self.styling()
            }),
    {
        let base: StyleRefinement = self.style();
        self.restyled(StyleRefinement { gap: Some(Single { bits: FOUR }), ..base })
    }

    fn gap_2(self) -> (r: Self)
        ensures
            r.styling() == (StyleRefinement {
                gap: Some(num(EIGHT)),
                ..self.styling()
            }),
    {
        let base: StyleRefinement = self.style();
        self.restyled(StyleRefinement { gap: Some(Single { bits: EIGHT }), ..base })
    }

    fn gap_3(self) -> (r: Self)
        ensures
            r.styling() == (StyleRefinement {
                gap: Some(num(TWELVE)),
                ..self.styling()
            }),
    {
        let base: StyleRefinement = self.style();
        self.restyled(StyleRefinement { gap: Some(Single { bits: TWELVE }), ..base })
    }

    fn gap_4(self) -> (r: Self)
        ensures
            r.styling() == (StyleRefinement {
                gap: Some(num(SIXTEEN)),
                ..self.styling()
            }),
    {
        let base: StyleRefinement = self.style();
        self.restyled(StyleRefinement { gap: Some(Single { bits: SIXTEEN }), ..base })
    }

    fn gap_5(self) -> (r: Self)
        ensures
            r.styling() == (StyleRefinement {
                gap: Some(num(TWENTY)),
                ..self.styling()
            }),
    {
        let base: StyleRefinement = self.style();
        self.restyled(StyleRefinement { gap: Some(Single { bits: TWENTY }), ..base })
    }

    fn p(self, v: Single) -> (r: Self)
        ensures
            r.styling() == (StyleRefinement {
                padding: all_sides(Some(v)),
                ..self.styling()
            }),
    {
        let base: StyleRefinement = self.style();
        self.restyled(StyleRefinement { padding: Edges::all(v), ..base })
    }

    fn p_2(self) -> (r: Self)
        ensures
            r.styling() == (StyleRefinement {
                padding: all_sides(Some(num(EIGHT))),
                ..self.styling()
            }),
    {
        let base: StyleRefinement = self.style();
        self.restyled(StyleRefinement { padding: Edges::all(Single { bits: EIGHT }), ..base })
    }

    fn p_3(self) -> (r: Self)
        ensures
            r.styling() == (StyleRefinement {
                padding: all_sides(Some(num(TWELVE))),
                ..self.styling()
            }),
    {
        let base: StyleRefinement = self.style();
        self.restyled(StyleRefinement { padding: Edges::all(Single { bits: TWELVE }), ..base })
    }

    fn p_4(self) -> (r: Self)
        ensures
            r.styling() == (StyleRefinement {
                padding: all_sides(Some(num(SIXTEEN))),
                ..self.styling()
            }),
    {
        let base: StyleRefinement = self.style();
        self.restyled(StyleRefinement { padding: Edges::all(Single { bits: SIXTEEN }), ..base })
    }

    fn p_5(self) -> (r: Self)
        ensures
            r.styling() == (StyleRefinement {
                padding: all_sides(Some(num(TWENTY))),
                ..self.styling()
            }),
    {
        let base: StyleRefinement = self.style();
        self.restyled(StyleRefinement { padding: Edges::all(Single { bits: TWENTY }), ..base })
    }

    fn px(self, v: Single) -> (r: Self)
        ensures
            r.styling() == (StyleRefinement {
                padding: Edges { left: Some(v), right: Some(v), ..self.styling().padding },
                ..self.styling()
            }),
    {
        let base: StyleRefinement = self.style();
        self.restyled(StyleRefinement { padding: Edges { left: Some(v), right: Some(v), ..base.padding }, ..base })
    }

    fn px_2(self) -> (r: Self)
        ensures
            r.styling() == (StyleRefinement {
                padding: Edges { left: Some(num(EIGHT)), right: Some(num(EIGHT)), ..self.styling().padding },
                ..self.styling()
            }),
    {
        let base: StyleRefinement = self.style();
        self.restyled(StyleRefinement { padding: Edges { left: Some(Single { bits: EIGHT }), right: Some(Single { bits: EIGHT }), ..base.padding }, ..base })
    }

    fn px_4(self) -> (r: Self)
        ensures
            r.styling() == (StyleRefinement {
                padding: Edges { left: Some(num(SIXTEEN)), right: Some(num(SIXTEEN)), ..self.styling().padding },
                ..self.styling()
            }),
    {
        let base: StyleRefinement = self.style();
        self.restyled(StyleRefinement { padding: Edges { left: Some(Single { bits: SIXTEEN }), right: Some(Single { bits: SIXTEEN }), ..base.padding }, ..base })
    }

    fn px_1p5(self) -> (r: Self)
        ensures
            r.styling() == (StyleRefinement {
                padding: Edges { left: Some(num(SIX)), right: Some(num(SIX)), ..self.styling().padding },
                ..self.styling()
            }),
    {
        let base: StyleRefinement = self.style();
        self.restyled(StyleRefinement { padding: Edges { left: Some(Single { bits: SIX }), right: Some(Single { bits: SIX }), ..base.padding }, ..base })
    }

    fn py(self, v: Single) -> (r: Self)
        ensures
            r.styling() == (StyleRefinement {
                padding: Edges { top: Some(v), bottom: Some(v), ..self.styling().padding },
                ..self.styling()
            }),
    {
        let base: StyleRefinement = self.style();
        self.restyled(StyleRefinement { padding: Edges { top: Some(v), bottom: Some(v), ..base.padding }, ..base })
    }

    fn py_1p5(self) -> (r: Self)
        ensures
            r.styling() == (StyleRefinement {
                padding: Edges { top: Some(num(SIX)), bottom: Some(num(SIX)), ..self.styling().padding },
                ..self.styling()
            }),
    {
        let base: StyleRefinement = self.style();
        self.restyled(StyleRefinement { padding: Edges { top: Some(Single { bits: SIX }), bottom: Some(Single { bits: SIX }), ..base.padding }, ..base })
    }

    fn py_2(self) -> (r: Self)
        ensures
            r.styling() == (StyleRefinement {
                padding: Edges { top: Some(num(EIGHT)), bottom: Some(num(EIGHT)), ..self.styling().padding },
                ..self.styling()
            }),
    {
        let base: StyleRefinement = self.style();
        self.restyled(StyleRefinement { padding: Edges { top: Some(Single { bits: EIGHT }), bottom: Some(Single { bits: EIGHT }), ..base.padding }, ..base })
    }

    fn pl(self, v: Single) -> (r: Self)
        ensures
            r.styling() == (StyleRefinement {
                padding: Edges { left: Some(v), ..self.styling().padding },
                ..self.styling()
            }),
    {
        let base: StyleRefinement = self.style();
        self.restyled(StyleRefinement { padding: Edges { left: Some(v), ..base.padding }, ..base })
    }

    fn pr(self, v: Single) -> (r: Self)
        ensures
            r.styling() == (StyleRefinement {
                padding: Edges { right: Some(v), ..self.styling().padding },
                ..self.styling()
            }),
    {
        let base: StyleRefinement = self.style();
        self.restyled(StyleRefinement { padding: Edges { right: Some(v), ..base.padding }, ..base })
    }

    fn pt(self, v: Single) -> (r: Self)
        ensures
            r.styling() == (StyleRefinement {
                padding: Edges { top: Some(v), ..self.styling().padding },
                ..self.styling()
            }),
    {
        let base: StyleRefinement = self.style();
        self.restyled(StyleRefinement { padding: Edges { top: Some(v), ..base.padding }, ..base })
    }

    fn pb(self, v: Single) -> (r: Self)
        ensures
            r.styling() == (StyleRefinement {
                padding: Edges { bottom: Some(v), ..self.styling().padding },
                ..self.styling()
            }),
    {
        let base: StyleRefinement = self.style();
        self.restyled(StyleRefinement { padding: Edges { bottom: Some(v), ..base.padding }, ..base })
    }

    fn ml(self, v: Single) -> (r: Self)
        ensures
            r.styling() == (StyleRefinement {
                margin: Edges { left: Some(v), ..self.styling().margin },
                ..self.styling()
            }),
    {
        let base: StyleRefinement = self.style();
        self.restyled(StyleRefinement { margin: Edges { left: Some(v), ..base.margin }, ..base })
    }

    fn mr(self, v: Single) -> (r: Self)
        ensures
            r.styling() == (StyleRefinement {
                margin: Edges { right: Some(v), ..self.styling().margin },
                ..self.styling()
            }),
    {
        let base: StyleRefinement = self.style();
        self.restyled(StyleRefinement { margin: Edges { right: Some(v), ..base.margin }, ..base })
    }

    fn mb(self, v: Single) -> (r: Self)
        ensures
            r.styling() == (StyleRefinement {
                margin: Edges { bottom: Some(v), ..self.styling().margin },
                ..self.styling()
            }),
    {
        let base: StyleRefinement = self.style();
        self.restyled(StyleRefinement { margin: Edges { bottom: Some(v), ..base.margin }, ..base })
    }

    fn top(self, v: Single) -> (r: Self)
        ensures
            r.styling() == (StyleRefinement {
                inset: Edges { top: Some(v), ..self.styling().inset },
                ..self.styling()
            }),
    {
        let base: StyleRefinement = self.style();
        self.restyled(StyleRefinement { inset: Edges { top: Some(v), ..base.inset }, ..base })
    }

    fn left(self, v: Single) -> (r: Self)
        ensures
            r.styling() == (StyleRefinement {
                inset: Edges { left: Some(v), ..self.styling().inset },
                ..self.styling()
            }),
    {
        let base: StyleRefinement = self.style();
        self.restyled(StyleRefinement { inset: Edges { left: Some(v), ..base.inset }, ..base })
    }

    fn right(self, v: Single) -> (r: Self)
        ensures
            r.styling() == (StyleRefinement {
                inset: Edges { right: Some(v), ..self.styling().inset },
                ..self.styling()
            }),
    {
        let base: StyleRefinement = self.style();
        self.restyled(StyleRefinement { inset: Edges { right: Some(v), ..base.inset }, ..base })
    }

    fn bottom(self, v: Single) -> (r: Self)
        ensures
            r.styling() == (StyleRefinement {
                inset: Edges { bottom: Some(v), ..self.styling().inset },
                ..self.styling()
            }),
    {
        let base: StyleRefinement = self.style();
        self.restyled(StyleRefinement { inset: Edges { bottom: Some(v), ..base.inset }, ..base })
    }

    fn pt_3(self) -> (r: Self)
        ensures
            r.styling() == (StyleRefinement {
                padding: Edges { top: Some(num(TWELVE)), ..self.styling().padding },
                ..self.styling()
            }),
    {
        let base: StyleRefinement = self.style();
        self.restyled(StyleRefinement { padding: Edges { top: Some(Single { bits: TWELVE }), ..base.padding }, ..base })
    }

    fn mt_1(self) -> (r: Self)
        ensures
            r.styling() == (StyleRefinement {
                margin: Edges { top: Some(num(FOUR)), ..self.styling().margin },
                ..self.styling()
            }),
    {
        let base: StyleRefinement = self.style();
        self.restyled(StyleRefinement { margin: Edges { top: Some(Single { bits: FOUR }), ..base.margin }, ..base })
    }

    fn mt_2(self) -> (r: Self)
        ensures
            r.styling() == (StyleRefinement {
                margin: Edges { top: Some(num(EIGHT)), ..self.styling().margin },
                ..self.styling()
            }),
    {
        let base: StyleRefinement = self.style();
        self.restyled(StyleRefinement { margin: Edges { top: Some(Single { bits: EIGHT }), ..base.margin }, ..base })
    }

    fn bg(self, c: Rgba) -> (r: Self)
        ensures
            r.styling() == (StyleRefinement {
                background: Some(c),
                ..self.styling()
            }),
    {
        let base: StyleRefinement = self.style();
        self.restyled(StyleRefinement { background: Some(c), ..base })
    }

    fn text_color(self, c: Rgba) -> (r: Self)
        ensures
            r.styling() == (StyleRefinement {
                text_color: Some(c),
                ..self.styling()
            }),
    {
        let base: StyleRefinement = self.style();
        self.restyled(StyleRefinement { text_color: Some(c), ..base })
    }

    fn border_color(self, c: Rgba) -> (r: Self)
        ensures
            r.styling() == (StyleRefinement {
                border_color: Some(c),
                ..self.styling()
            }),
    {
        let base: StyleRefinement = self.style();
        self.restyled(StyleRefinement { border_color: Some(c), ..base })
    }

    fn rounded(self, radius: Single) -> (r: Self)
        ensures
            r.styling() == (StyleRefinement {
                corner_radius: Some(radius),
                ..self.styling()
            }),
    {
        let base: StyleRefinement = self.style();
        self.restyled(StyleRefinement { corner_radius: Some(radius), ..base })
    }

    fn rounded_full(self) -> (r: Self)
        ensures
            r.styling() == (StyleRefinement {
                corner_pill: Some(true),
                ..self.styling()
            }),
    {
        let base: StyleRefinement = self.style();
        self.restyled(StyleRefinement { corner_pill: Some(true), ..base })
    }

    fn border_1(self) -> (r: Self)
        ensures
            r.styling() == (StyleRefinement {
                border_widths: all_sides(Some(num(ONE))),
                ..self.styling()
            }),
    {
        let base: StyleRefinement = self.style();
        self.restyled(StyleRefinement { border_widths: Edges::all(Single { bits: ONE }), ..base })
    }

    fn border_t_1(self) -> (r: Self)
        ensures
            r.styling() == (StyleRefinement {
                border_widths: Edges { top: Some(num(ONE)), ..self.styling().border_widths },
                ..self.styling()
            }),
    {
        let base: StyleRefinement = self.style();
        self.restyled(StyleRefinement { border_widths: Edges { top: Some(Single { bits: ONE }), ..base.border_widths }, ..base })
    }

    fn border_r_1(self) -> (r: Self)
        ensures
            r.styling() == (StyleRefinement {
                border_widths: Edges { right: Some(num(ONE)), ..self.styling().border_widths },
                ..self.styling()
            }),
    {
        let base: StyleRefinement = self.style();
        self.restyled(StyleRefinement { border_widths: Edges { right: Some(Single { bits: ONE }), ..base.border_widths }, ..base })
    }

    fn border_b_1(self) -> (r: Self)
        ensures
            r.styling() == (StyleRefinement {
                border_widths: Edges { bottom: Some(num(ONE)), ..self.styling().border_widths },
                ..self.styling()
            }),
    {
        let base: StyleRefinement = self.style();
        self.restyled(StyleRefinement { border_widths: Edges { bottom: Some(Single { bits: ONE }), ..base.border_widths }, ..base })
    }

    fn border_l_1(self) -> (r: Self)
        ensures
            r.styling() == (StyleRefinement {
                border_widths: Edges { left: Some(num(ONE)), ..self.styling().border_widths },
                ..self.styling()
            }),
    {
        let base: StyleRefinement = self.style();
        self.restyled(StyleRefinement { border_widths: Edges { left: Some(Single { bits: ONE }), ..base.border_widths }, ..base })
    }

    fn opacity(self, v: Single) -> (r: Self)
        ensures
            r.styling() == (StyleRefinement {
                opacity: Some(v),
                ..self.styling()
            }),
    {
        let base: StyleRefinement = self.style();
        self.restyled(StyleRefinement { opacity: Some(v), ..base })
    }

    fn text_size(self, size: Single, line_height: Single) -> (r: Self)
        ensures
            r.styling() == (StyleRefinement {
                font_size: Some(size),
                line_height: Some(line_height),
                ..self.styling()
            }),
    {
        let base: StyleRefinement = self.style();
        self.restyled(StyleRefinement { font_size: Some(size), line_height: Some(line_height), ..base })
    }

    fn text_xs(self) -> (r: Self)
        ensures
            r.styling() == (StyleRefinement {
                font_size: Some(num(TWELVE)),
                line_height: Some(num(SIXTEEN)),
                ..self.styling()
            }),
    {
        let base: StyleRefinement = self.style();
        self.restyled(StyleRefinement { font_size: Some(Single { bits: TWELVE }), line_height: Some(Single { bits: SIXTEEN }), ..base })
    }

    fn text_sm(self) -> (r: Self)
        ensures
            r.styling() == (StyleRefinement {
                font_size: Some(num(FOURTEEN)),
                line_height: Some(num(TWENTY)),
                ..self.styling()
            }),
    {
        let base: StyleRefinement = self.style();
        self.restyled(StyleRefinement { font_size: Some(Single { bits: FOURTEEN }), line_height: Some(Single { bits: TWENTY }), ..base })
    }

    fn font_bold(self) -> (r: Self)
        ensures
            r.styling() == (StyleRefinement {
                font_bold: Some(true),
                ..self.styling()
            }),
    {
        let base: StyleRefinement = self.style();
        self.restyled(StyleRefinement { font_bold: Some(true), ..base })
    }

    fn truncate(self) -> (r: Self)
        ensures
            r.styling() == (StyleRefinement {
                truncate: Some(true),
                ..self.styling()
            }),
    {
        let base: StyleRefinement = self.style();
        self.restyled(StyleRefinement { truncate: Some(true), ..base })
    }

    fn absolute(self) -> (r: Self)
        ensures
            r.styling() == (StyleRefinement {
                absolute: Some(true),
                ..self.styling()
            }),
    {
        let base: StyleRefinement = self.style();
        self.restyled(StyleRefinement { absolute: Some(true), ..base })
    }

    fn relative(self) -> (r: Self)
        ensures
            r.styling() == (StyleRefinement {
                relative: Some(true),
                ..self.styling()
            }),
    {
        let base: StyleRefinement = self.style();
        self.restyled(StyleRefinement { relative: Some(true), ..base })
    }

    fn overflow_y_scroll(self) -> (r: Self)
        ensures
            r.styling() == (StyleRefinement {
                overflow_y_scroll: Some(true),
                ..self.styling()
            }),
    {
        let base: StyleRefinement = self.style();
        self.restyled(StyleRefinement { overflow_y_scroll: Some(true), ..base })
    }

    fn overflow_hidden(self) -> (r: Self)
        ensures
            r.styling() == (StyleRefinement {
                overflow_hidden: Some(true),
                ..self.styling()
            }),
    {
        let base: StyleRefinement = self.style();
        self.restyled(StyleRefinement { overflow_hidden: Some(true), ..base })
    }

    fn cursor_pointer(self) -> (r: Self)
        ensures
            r.styling() == (StyleRefinement {
                cursor_pointer: Some(true),
                ..self.styling()
            }),
    {
        let base: StyleRefinement = self.style();
        self.restyled(StyleRefinement { cursor_pointer: Some(true), ..base })
    }

    fn pointer_events_none(self) -> (r: Self)
        ensures
            r.styling() == (StyleRefinement {
                pointer_events_none: Some(true),
                ..self.styling()
            }),
    {
        let base: StyleRefinement = self.style();
        self.restyled(StyleRefinement { pointer_events_none: Some(true), ..base })
    }

    fn inset_0(self) -> (r: Self)
        ensures
            r.styling() == (StyleRefinement {
                inset: all_sides(Some(num(ZERO))),
                ..self.styling()
            }),
    {
        let base: StyleRefinement = self.style();
        self.restyled(StyleRefinement { inset: Edges::all(Single { bits: ZERO }), ..base })
    }

    fn object_fit(self, fit: ObjectFit) -> (r: Self)
        ensures
            r.styling() == (StyleRefinement {
                object_fit: Some(fit),
                ..self.styling()
            }),
    {
        let base: StyleRefinement = self.style();
        self.restyled(StyleRefinement { object_fit: Some(fit), ..base })
    }
}

impl Styled for StyleRefinement {
    open spec fn styling(self) -> StyleRefinement {
        self
    }

    fn style(&self) -> (r: StyleRefinement) {
        *self
    }

    fn restyled(self, style: StyleRefinement) -> (r: StyleRefinement) {
        style
    }
}

// ---------------------------------------------------------------------------
// Building conditionally
// ---------------------------------------------------------------------------

/// Building a value step by step, some steps only where something holds.
pub trait FluentBuilder: Sized {
    fn map<U, F: FnOnce(Self) -> U>(self, f: F) -> (r: U)
        requires
            f.requires((self,)),
        ensures
            f.ensures((self,), r),
    {
        f(self)
    }

    fn when<F: FnOnce(Self) -> Self>(self, condition: bool, f: F) -> (r: Self)
        requires
            condition ==> f.requires((self,)),
        ensures
            condition ==> f.ensures((self,), r),
            !condition ==> r == self,
    {
        if condition {
            f(self)
        } else {
            self
        }
    }

    fn when_some<T, F: FnOnce(Self, T) -> Self>(self, option: Option<T>, f: F) -> (r: Self)
        requires
            option is Some ==> f.requires((self, option->0)),
        ensures
            option is Some ==> f.ensures((self, option->0), r),
            option is None ==> r == self,
    {
        match option {
            Some(value) => f(self, value),
            None => self,
        }
    }
}

impl<T: Sized> FluentBuilder for T {

}

// ---------------------------------------------------------------------------
// What wins
// ---------------------------------------------------------------------------

/// Laid over another, a style wins in every property of layout that it sets, and leaves
/// the others as they are.
pub proof fn lemma_upper_style_wins_in_layout(base: StyleRefinement, over: StyleRefinement)
    ensures
        ({
            let r = layered(base, over);
            &&& over.flex is Some ==> r.flex == over.flex
            &&& over.flex is None ==> r.flex == base.flex
            &&& over.flex_direction is Some ==> r.flex_direction == over.flex_direction
            &&& over.flex_direction is None ==> r.flex_direction == base.flex_direction
            &&& over.flex_grow is Some ==> r.flex_grow == over.flex_grow
            &&& over.flex_grow is None ==> r.flex_grow == base.flex_grow
            &&& over.flex_shrink is Some ==> r.flex_shrink == over.flex_shrink
            &&& over.flex_shrink is None ==> r.flex_shrink == base.flex_shrink
            &&& over.flex_wrap is Some ==> r.flex_wrap == over.flex_wrap
            &&& over.flex_wrap is None ==> r.flex_wrap == base.flex_wrap
            &&& over.align_items is Some ==> r.align_items == over.align_items
            &&& over.align_items is None ==> r.align_items == base.align_items
            &&& over.justify_content is Some ==> r.justify_content == over.justify_content
            &&& over.justify_content is None ==> r.justify_content == base.justify_content
            &&& over.gap is Some ==> r.gap == over.gap
            &&& over.gap is None ==> r.gap == base.gap
            &&& over.width is Some ==> r.width == over.width
            &&& over.width is None ==> r.width == base.width
            &&& over.height is Some ==> r.height == over.height
            &&& over.height is None ==> r.height == base.height
            &&& over.min_width is Some ==> r.min_width == over.min_width
            &&& over.min_width is None ==> r.min_width == base.min_width
            &&& over.min_height is Some ==> r.min_height == over.min_height
            &&& over.min_height is None ==> r.min_height == base.min_height
            &&& over.max_width is Some ==> r.max_width == over.max_width
            &&& over.max_width is None ==> r.max_width == base.max_width
            &&& over.absolute is Some ==> r.absolute == over.absolute
            &&& over.absolute is None ==> r.absolute == base.absolute
            &&& over.relative is Some ==> r.relative == over.relative
            &&& over.relative is None ==> r.relative == base.relative
            &&& over.overflow_y_scroll is Some ==> r.overflow_y_scroll == over.overflow_y_scroll
            &&& over.overflow_y_scroll is None ==> r.overflow_y_scroll == base.overflow_y_scroll
            &&& over.overflow_hidden is Some ==> r.overflow_hidden == over.overflow_hidden
            &&& over.overflow_hidden is None ==> r.overflow_hidden == base.overflow_hidden
            &&& over.pointer_events_none is Some ==> r.pointer_events_none == over.pointer_events_none
            &&& over.pointer_events_none is None ==> r.pointer_events_none == base.pointer_events_none
        }),
{
    reveal(upper);
}

/// Laid over another, a style wins in every property of painting that it sets, and leaves
/// the others as they are.
pub proof fn lemma_upper_style_wins_in_painting(base: StyleRefinement, over: StyleRefinement)
    ensures
        ({
            let r = layered(base, over);
            &&& over.background is Some ==> r.background == over.background
            &&& over.background is None ==> r.background == base.background
            &&& over.text_color is Some ==> r.text_color == over.text_color
            &&& over.text_color is None ==> r.text_color == base.text_color
            &&& over.font_size is Some ==> r.font_size == over.font_size
            &&& over.font_size is None ==> r.font_size == base.font_size
            &&& over.line_height is Some ==> r.line_height == over.line_height
            &&& over.line_height is None ==> r.line_height == base.line_height
            &&& over.font_bold is Some ==> r.font_bold == over.font_bold
            &&& over.font_bold is None ==> r.font_bold == base.font_bold
            &&& over.corner_radius is Some ==> r.corner_radius == over.corner_radius
            &&& over.corner_radius is None ==> r.corner_radius == base.corner_radius
            &&& over.corner_pill is Some ==> r.corner_pill == over.corner_pill
            &&& over.corner_pill is None ==> r.corner_pill == base.corner_pill
            &&& over.border_color is Some ==> r.border_color == over.border_color
            &&& over.border_color is None ==> r.border_color == base.border_color
            &&& over.opacity is Some ==> r.opacity == over.opacity
            &&& over.opacity is None ==> r.opacity == base.opacity
            &&& over.truncate is Some ==> r.truncate == over.truncate
            &&& over.truncate is None ==> r.truncate == base.truncate
            &&& over.cursor_pointer is Some ==> r.cursor_pointer == over.cursor_pointer
            &&& over.cursor_pointer is None ==> r.cursor_pointer == base.cursor_pointer
            &&& over.object_fit is Some ==> r.object_fit == over.object_fit
            &&& over.object_fit is None ==> r.object_fit == base.object_fit
        }),
{
    reveal(upper);
}

/// Laid over another, a style wins on every side that it sets, and leaves the others as
/// they are.
pub proof fn lemma_upper_style_wins_on_every_side(base: StyleRefinement, over: StyleRefinement)
    ensures
        ({
            let r = layered(base, over);
            &&& over.padding.top is Some ==> r.padding.top == over.padding.top
            &&& over.padding.top is None ==> r.padding.top == base.padding.top
            &&& over.padding.right is Some ==> r.padding.right == over.padding.right
            &&& over.padding.right is None ==> r.padding.right == base.padding.right
            &&& over.padding.bottom is Some ==> r.padding.bottom == over.padding.bottom
            &&& over.padding.bottom is None ==> r.padding.bottom == base.padding.bottom
            &&& over.padding.left is Some ==> r.padding.left == over.padding.left
            &&& over.padding.left is None ==> r.padding.left == base.padding.left
            &&& over.margin.top is Some ==> r.margin.top == over.margin.top
            &&& over.margin.top is None ==> r.margin.top == base.margin.top
            &&& over.margin.right is Some ==> r.margin.right == over.margin.right
            &&& over.margin.right is None ==> r.margin.right == base.margin.right
            &&& over.margin.bottom is Some ==> r.margin.bottom == over.margin.bottom
            &&& over.margin.bottom is None ==> r.margin.bottom == base.margin.bottom
            &&& over.margin.left is Some ==> r.margin.left == over.margin.left
            &&& over.margin.left is None ==> r.margin.left == base.margin.left
            &&& over.inset.top is Some ==> r.inset.top == over.inset.top
            &&& over.inset.top is None ==> r.inset.top == base.inset.top
            &&& over.inset.right is Some ==> r.inset.right == over.inset.right
            &&& over.inset.right is None ==> r.inset.right == base.inset.right
            &&& over.inset.bottom is Some ==> r.inset.bottom == over.inset.bottom
            &&& over.inset.bottom is None ==> r.inset.bottom == base.inset.bottom
            &&& over.inset.left is Some ==> r.inset.left == over.inset.left
            &&& over.inset.left is None ==> r.inset.left == base.inset.left
            &&& over.border_widths.top is Some ==> r.border_widths.top == over.border_widths.top
            &&& over.border_widths.top is None ==> r.border_widths.top == base.border_widths.top
            &&& over.border_widths.right is Some ==> r.border_widths.right == over.border_widths.right
            &&& over.border_widths.right is None ==> r.border_widths.right == base.border_widths.right
            &&& over.border_widths.bottom is Some ==> r.border_widths.bottom == over.border_widths.bottom
            &&& over.border_widths.bottom is None ==> r.border_widths.bottom == base.border_widths.bottom
            &&& over.border_widths.left is Some ==> r.border_widths.left == over.border_widths.left
            &&& over.border_widths.left is None ==> r.border_widths.left == base.border_widths.left
        }),
{
    reveal(upper);
}

/// A style with nothing set sets nothing, and sides that were not set are zero.
pub proof fn lemma_nothing_is_set(e: Edges<Option<Single>>, v: Option<Single>)
    ensures
        ({
            let b = blank();
            &&& b.flex is None
            &&& b.flex_direction is None
            &&& b.flex_grow is None
            &&& b.flex_shrink is None
            &&& b.flex_wrap is None
            &&& b.align_items is None
            &&& b.justify_content is None
            &&& b.gap is None
            &&& b.width is None
            &&& b.height is None
            &&& b.min_width is None
            &&& b.min_height is None
            &&& b.max_width is None
            &&& b.absolute is None
            &&& b.relative is None
            &&& b.overflow_y_scroll is None
            &&& b.overflow_hidden is None
            &&& b.pointer_events_none is None
            &&& b.background is None
            &&& b.text_color is None
            &&& b.font_size is None
            &&& b.line_height is None
            &&& b.font_bold is None
            &&& b.corner_radius is None
            &&& b.corner_pill is None
            &&& b.border_color is None
            &&& b.opacity is None
            &&& b.truncate is None
            &&& b.cursor_pointer is None
            &&& b.object_fit is None
            &&& b.padding.top is None
            &&& b.padding.right is None
            &&& b.padding.bottom is None
            &&& b.padding.left is None
            &&& b.margin.top is None
            &&& b.margin.right is None
            &&& b.margin.bottom is None
            &&& b.margin.left is None
            &&& b.inset.top is None
            &&& b.inset.right is None
            &&& b.inset.bottom is None
            &&& b.inset.left is None
            &&& b.border_widths.top is None
            &&& b.border_widths.right is None
            &&& b.border_widths.bottom is None
            &&& b.border_widths.left is None
        }),
        e.top is Some ==> resolved_edges(e).top == e.top->0,
        e.right is Some ==> resolved_edges(e).right == e.right->0,
        e.bottom is Some ==> resolved_edges(e).bottom == e.bottom->0,
        e.left is Some ==> resolved_edges(e).left == e.left->0,
        e.top is None ==> resolved_edges(e).top.bits == 0,
        e.right is None ==> resolved_edges(e).right.bits == 0,
        e.bottom is None ==> resolved_edges(e).bottom.bits == 0,
        e.left is None ==> resolved_edges(e).left.bits == 0,
        v is Some ==> or_zero(v) == v->0,
        v is None ==> or_zero(v).bits == 0,
        all_sides(v).top == v && all_sides(v).right == v && all_sides(v).bottom == v && all_sides(
            v,
        ).left == v,
{
}

/// The numbers of the scale, each by its exponent and mantissa: two to the power of the
/// one, and as many eighths of it above as the other says.
pub proof fn lemma_numbers_of_the_scale()
    ensures
        ZERO == 0,
        ONE == 127 * 0x80_0000,
        TWO == 128 * 0x80_0000,
        FOUR == 129 * 0x80_0000,
        SIX == 129 * 0x80_0000 + 4 * 0x10_0000,
        EIGHT == 130 * 0x80_0000,
        TWELVE == 130 * 0x80_0000 + 4 * 0x10_0000,
        FOURTEEN == 130 * 0x80_0000 + 6 * 0x10_0000,
        SIXTEEN == 131 * 0x80_0000,
        TWENTY == 131 * 0x80_0000 + 2 * 0x10_0000,
        EPSILON == 104 * 0x80_0000,
{
}

/// A colour shows where its opacity is above the smallest step above one; what is no
/// number counts as showing.
pub proof fn lemma_when_a_colour_shows(c: Rgba)
    ensures
        is_nan(c.a) ==> is_visible(c),
        0x3400_0000 < c.a.bits <= 0x7f80_0000 ==> is_visible(c),
        c.a.bits <= 0x3400_0000 ==> !is_visible(c),
        0x8000_0000 <= c.a.bits <= 0xff80_0000 ==> !is_visible(c),
{
}

} // verus!
