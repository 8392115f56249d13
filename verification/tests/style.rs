//! Styles, and what of them is painted.

use rustydlp::painting::{
    border_plan, clips, flow, paint_plan, BorderPlan, Corner, Inherited, Inside, Overflow, Position,
};
use rustydlp::routing::{Bounds, Clip};
use rustydlp::style::{Edges, FluentBuilder, Length, Rgba, StyleRefinement, Styled};
use rustydlp::ytdlp::Single;

fn n(v: f32) -> Single {
    Single { bits: v.to_bits() }
}

fn rgb(hex: u32) -> Rgba {
    let part = |shift: u32| n(((hex >> shift) & 0xff) as f32 / 255.0);
    Rgba {
        r: part(16),
        g: part(8),
        b: part(0),
        a: n(1.0),
    }
}

/// One step of the scale is 0.25rem against a 16px base.
#[test]
fn spacing_scale_matches_the_tailwind_steps_gpui_uses() {
    let s = StyleRefinement::default().gap_2();
    assert_eq!(s.gap, Some(n(8.0)));
    let s = StyleRefinement::default().py_1p5();
    assert_eq!(s.padding.top, Some(n(6.0)));
    assert_eq!(s.padding.left, None, "py must not touch the horizontal edges");
    let s = StyleRefinement::default().p_5();
    assert_eq!(s.padding.resolved().left, n(20.0));
}

/// Layering is how hover works: only the fields the hover closure set may
/// win, everything else must survive from the base style.
#[test]
fn layering_only_overrides_fields_that_were_set() {
    let mut base = StyleRefinement::default()
        .bg(rgb(0x111111))
        .text_color(rgb(0x222222));
    let hover = StyleRefinement::default().bg(rgb(0x333333));
    base.layer(&hover);
    assert_eq!(base.background, Some(rgb(0x333333)), "hover bg wins");
    assert_eq!(base.text_color, Some(rgb(0x222222)), "text colour survives");
}

/// Edges layer per-side, so `.border_1()` then a hover `.border_t_1()` does
/// not wipe the other three sides.
#[test]
fn edge_layering_is_per_side() {
    let mut base = StyleRefinement::default().border_1();
    let mut over = StyleRefinement::default();
    over.border_widths.top = Some(n(3.0));
    base.layer(&over);
    let e = base.border_widths.resolved();
    assert_eq!(
        (e.top, e.right, e.bottom, e.left),
        (n(3.0), n(1.0), n(1.0), n(1.0))
    );
}

#[test]
fn setters_fill_in_what_they_say() {
    let s = StyleRefinement::default().flex_1().min_h_0().w_full();
    assert_eq!(s.flex_grow, Some(n(1.0)));
    assert_eq!(s.min_height, Some(Length::Px(n(0.0))));
    assert_eq!(s.width, Some(Length::Fraction(n(1.0))));
    let f = flow(&s);
    assert_eq!((f.grow, f.width), (n(1.0), Length::Fraction(n(1.0))));
    assert_eq!(f.position, Position::Static);
    let a = flow(&StyleRefinement::default().absolute().inset_0());
    assert_eq!(a.position, Position::Absolute);
    assert_eq!(a.inset.top, Some(n(0.0)));
    let scroll = StyleRefinement::default().overflow_y_scroll();
    assert_eq!(flow(&scroll).overflow, Overflow::Scroll);
    assert!(clips(&scroll) && !clips(&StyleRefinement::default()));
}

#[test]
fn builders_apply_a_change_only_where_it_is_asked_for() {
    let base = StyleRefinement::default();
    assert_eq!(base.when(false, |s| s.gap_2()).gap, None);
    assert_eq!(base.when(true, |s| s.gap_2()).gap, Some(n(8.0)));
    assert_eq!(base.when_some(Some(n(3.0)), |s, v| s.gap(v)).gap, Some(n(3.0)));
    assert_eq!(base.when_some(None, |s, v| s.gap(v)).gap, None);
    assert_eq!(base.map(|s| s.gap_4().gap), Some(n(16.0)));
}

#[test]
fn text_takes_what_its_ancestors_set() {
    let root = Inherited {
        font_size: n(16.0),
        line_height: n(20.0),
        color: rgb(0xffffff),
        bold: false,
        truncate: false,
        opacity: n(1.0),
        interactive: true,
    };
    let style = StyleRefinement::default()
        .text_color(rgb(0xff0000))
        .font_bold()
        .opacity(n(0.5))
        .pointer_events_none();
    let r = root.refine(&style, n(20.0), n(0.5));
    assert_eq!(r.color, rgb(0xff0000));
    assert!(r.bold && !r.interactive);
    assert_eq!(r.opacity, n(0.5));
    let deeper = r.refine(&StyleRefinement::default(), n(20.0), n(0.5));
    assert_eq!(deeper.color, rgb(0xff0000));
    assert!(!deeper.interactive, "nothing turns an inert screen back on");
}

#[test]
fn a_border_is_one_stroke_where_its_sides_agree() {
    let all = |v: f32| Edges {
        top: n(v),
        right: n(v),
        bottom: n(v),
        left: n(v),
    };
    assert_eq!(border_plan(all(1.0), Some(rgb(0xffffff))), BorderPlan::Stroke(n(1.0)));
    assert_eq!(border_plan(all(1.0), None), BorderPlan::Nothing);
    let mut clear = rgb(0);
    clear.a = n(0.0);
    assert!(clear.is_transparent());
    assert_eq!(border_plan(all(1.0), Some(clear)), BorderPlan::Nothing);
    assert_eq!(
        border_plan(
            Edges {
                top: n(0.0),
                right: n(2.0),
                bottom: n(0.0),
                left: n(0.0)
            },
            Some(rgb(0xffffff))
        ),
        BorderPlan::Strips {
            top: false,
            right: true,
            bottom: false,
            left: false
        }
    );
}

#[test]
fn hovering_changes_only_what_the_hover_style_sets() {
    let base = StyleRefinement::default().bg(rgb(0x111111)).rounded_full();
    let hover = StyleRefinement::default().bg(rgb(0x222222));
    let area = Bounds {
        left: n(0.0),
        top: n(0.0),
        right: n(10.0),
        bottom: n(10.0),
    };
    let plan = |pointer: Option<(Single, Single)>, clip: Clip, width: f32| {
        paint_plan(&area, n(width), n(10.0), clip, &base, Some(hover), pointer, Inside::Boxes)
    };
    assert!(plan(None, Clip::Hidden, 10.0).is_none());
    for (right, bottom, painted) in [
        (5.0, 5.0, true),
        (0.0, 5.0, false),
        (5.0, 0.0, false),
        (-1.0, 5.0, false),
        (f32::NAN, 5.0, false),
    ] {
        let clip = Clip::Within(Bounds {
            right: n(right),
            bottom: n(bottom),
            ..area
        });
        assert_eq!(clip.has_no_area(), !painted);
        assert_eq!(plan(None, clip, 10.0).is_some(), painted);
    }
    assert!(plan(None, Clip::Open, 0.0).is_none());
    let still = plan(Some((n(50.0), n(5.0))), Clip::Open, 10.0).unwrap();
    let over = plan(Some((n(5.0), n(5.0))), Clip::Open, 10.0).unwrap();
    assert_eq!(still.background, Some(rgb(0x111111)));
    assert_eq!(over.background, Some(rgb(0x222222)));
    assert_eq!((still.corner, over.corner), (Corner::Pill, Corner::Pill));
}

fn root() -> Inherited {
    Inherited {
        font_size: n(16.0),
        line_height: n(20.0),
        color: rgb(0xfafafa),
        bold: false,
        truncate: false,
        opacity: n(1.0),
        interactive: true,
    }
}

/// What a box of a style hands on, in a box that was handed `from`.
fn inside(from: Inherited, style: &StyleRefinement) -> Inherited {
    let float = |v: Single| f32::from_bits(v.bits);
    let size = style.font_size.unwrap_or(from.font_size);
    let own = style.opacity.map_or(1.0, float);
    from.refine(style, n(float(size) * 1.25), n(float(from.opacity) * own))
}

/// Text takes its size and colour from the nearest ancestor that sets them.
#[test]
fn text_inherits_size_and_colour_from_its_ancestors() {
    let outer = StyleRefinement::default()
        .text_xs()
        .text_color(rgb(0xa3a3a3));
    let plain = StyleRefinement::default();
    let text = inside(inside(inside(root(), &outer), &plain), &plain);
    assert_eq!(text.font_size, n(12.0));
    assert_eq!(text.color, rgb(0xa3a3a3));
    assert_eq!(text.line_height, n(16.0), "the text_xs line box");
}

/// One opacity on a wrapper has to fade everything inside it.
#[test]
fn opacity_multiplies_all_the_way_down_the_tree() {
    let half = StyleRefinement::default().opacity(n(0.5));
    let plain = StyleRefinement::default();
    let wrapper = inside(root(), &half);
    assert_eq!(wrapper.opacity, n(0.5), "the wrapper itself");
    let child = inside(wrapper, &plain);
    assert_eq!(child.opacity, n(0.5), "a plain child inherits it");
    let dimmed = inside(child, &half);
    assert_eq!(dimmed.opacity, n(0.25), "and a dimmed one compounds with it");
    let text = inside(dimmed, &plain);
    assert_eq!(text.opacity, n(0.25), "text leaves are faded too");
}

/// The screen that leaves in a swap is painted but inert, and so is everything
/// inside it.
#[test]
fn pointer_events_none_makes_the_whole_subtree_inert() {
    let plain = StyleRefinement::default();
    let inert = StyleRefinement::default().pointer_events_none();
    let window = inside(root(), &plain);
    let ghost = inside(inside(inside(window, &inert), &plain), &plain);
    let live = inside(inside(window, &plain), &plain);
    assert!(!ghost.interactive, "inert all the way down");
    assert!(live.interactive, "and only inside that subtree");
}

/// What a caller sets on a widget wins over the widget's own style.
#[test]
fn caller_overrides_beat_the_widgets_defaults() {
    let mut button = StyleRefinement::default().flex_row().h(Length::Px(n(24.0)));
    button.layer(&StyleRefinement::default().w_full());
    assert_eq!(flow(&button).width, Length::Fraction(n(1.0)), "w_full beat the intrinsic width");
    assert_eq!(flow(&button).height, Length::Px(n(24.0)));
}
