//! Routing of clicks, hovers and scrolling, and the window around them.

use rustydlp::routing::{
    bounds_of, dispatch_click, dispatch_hover, field_at, flatten, hit_test, hovered_id,
    inherited_clip, is_titlebar_drag_area, scroll_target, slider_at, wants_pointer_cursor, Bounds,
    Box_, Clip, Focus, HoverStep, ScrollState, SliderKind,
};
use rustydlp::session::WindowAction;
use rustydlp::shell::{
    drag_is_seek, key_command, resize_direction_at, slider_drag, window_step, Act, Cursor,
    EditCommand, KeyInput, Motion, ResizeDirection, Shell, SliderStep, Wait, WindowInput,
    WindowStep, FRAME_INTERVAL_MS, MIN_WINDOW_HEIGHT, MIN_WINDOW_WIDTH, RESIZE_BORDER,
    WINDOW_HEIGHT, WINDOW_WIDTH,
};
use rustydlp::ytdlp::Single;

fn n(v: f32) -> Single {
    Single { bits: v.to_bits() }
}

fn bounds(x: f32, y: f32, w: f32, h: f32) -> Bounds {
    Bounds {
        left: n(x),
        top: n(y),
        right: n(x + w),
        bottom: n(y + h),
    }
}

fn plain(b: Bounds, parent: Option<usize>) -> Box_ {
    Box_ {
        bounds: b,
        parent,
        clips: false,
        interactive: true,
        id: None,
        clickable: false,
        hoverable: false,
        pointer: false,
        scrolls: false,
        scroll_max: n(0.0),
    }
}

fn click(b: Bounds, parent: Option<usize>) -> Box_ {
    Box_ {
        clickable: true,
        ..plain(b, parent)
    }
}

fn named(id: &str, b: Box_) -> Box_ {
    Box_ {
        id: Some(id.to_string()),
        ..b
    }
}

/// A click on a row's label must reach the row's handler, because that is
/// where the screens put it — on the row, not on the text inside it.
#[test]
fn a_click_bubbles_from_the_label_to_the_rows_handler() {
    let boxes = vec![
        plain(bounds(0.0, 0.0, 200.0, 200.0), None),
        click(bounds(0.0, 0.0, 200.0, 40.0), Some(0)),
        plain(bounds(0.0, 0.0, 120.0, 20.0), Some(1)),
    ];
    assert_eq!(hit_test(&boxes, n(50.0), n(10.0)), Some(2));
    assert_eq!(dispatch_click(&boxes, n(50.0), n(20.0)), Some(1));
    assert_eq!(dispatch_click(&boxes, n(50.0), n(100.0)), None);
}

/// The modal overlay covers the window, so a click anywhere must go to it and
/// never to the pane underneath.
#[test]
fn an_overlay_captures_clicks_from_what_it_covers() {
    let all = bounds(0.0, 0.0, 400.0, 300.0);
    let boxes = vec![
        plain(all, None),
        click(all, Some(0)),
        click(all, Some(0)),
    ];
    assert_eq!(
        dispatch_click(&boxes, n(200.0), n(150.0)),
        Some(2),
        "the overlay wins"
    );
}

/// A scroll offset is clamped to the content's overflow, so a short list cannot
/// be scrolled at all.
#[test]
fn scrolling_shifts_content_and_clamps_to_the_overflow() {
    let mut scroll = ScrollState::new();
    let max = n(200.0);
    assert!(scroll.scroll_to("job-list", n(50.0), max));
    assert_eq!(scroll.offset("job-list"), n(50.0));
    assert_eq!(scroll.offset("other"), n(0.0));

    // Past the end clamps, and a second attempt at the limit reports no move.
    scroll.scroll_to("job-list", n(50.0 + 9999.0), max);
    assert!(!scroll.scroll_to("job-list", n(200.0 + 10.0), max));
    assert_eq!(scroll.offset("job-list"), n(200.0), "clamped to the overflow");
    assert!(!scroll.scroll_to("short", n(30.0), n(-10.0)));
}

/// Moving the pointer from one hoverable tile to another must fire leave
/// on the old one and enter on the new one — never both entered at once,
/// and never a leave with nothing to pair it with.
#[test]
fn hover_fires_leave_then_enter_when_moving_between_tiles() {
    let tile = |id: &str, x: f32| Box_ {
        hoverable: true,
        ..named(id, plain(bounds(x, 0.0, 100.0, 100.0), Some(0)))
    };
    let boxes = vec![
        plain(bounds(0.0, 0.0, 200.0, 100.0), None),
        tile("tile-a", 0.0),
        tile("tile-b", 100.0),
    ];
    let mut state = (false, false);
    let mut previous: Option<String> = None;
    let mut go = |x: f32, y: f32, state: &mut (bool, bool)| {
        let current = hovered_id(&boxes, n(x), n(y));
        let steps = dispatch_hover(&boxes, &previous, &current);
        for s in &steps {
            if s.at == 1 {
                state.0 = s.entered;
            } else {
                state.1 = s.entered;
            }
        }
        previous = current;
        steps
    };

    go(50.0, 50.0, &mut state);
    assert_eq!(state, (true, false));

    let steps = go(150.0, 50.0, &mut state);
    assert_eq!(state, (false, true));
    assert_eq!(
        steps,
        vec![
            HoverStep {
                at: 1,
                entered: false
            },
            HoverStep {
                at: 2,
                entered: true
            }
        ]
    );
    assert_eq!(go(160.0, 50.0, &mut state), vec![]);

    go(50.0, 500.0, &mut state);
    assert_eq!(state, (false, false), "off both tiles, both left");
}

/// The outgoing screen of a page swap is painted over the whole pane for
/// the length of the crossfade. A click during it belongs to the screen
/// arriving, never to the one leaving.
#[test]
fn an_inert_subtree_answers_no_clicks() {
    let all = bounds(0.0, 0.0, 400.0, 300.0);
    let boxes = vec![
        plain(all, None),
        click(all, Some(0)),
        Box_ {
            interactive: false,
            pointer: true,
            ..plain(all, Some(0))
        },
        Box_ {
            interactive: false,
            ..click(all, Some(2))
        },
    ];
    assert_eq!(
        dispatch_click(&boxes, n(200.0), n(150.0)),
        Some(1),
        "the screen underneath takes it"
    );
    assert!(
        !wants_pointer_cursor(&boxes, n(200.0), n(150.0)),
        "and the pointer never turns into a hand over a screen that cannot answer"
    );
}

/// A row scrolled out of its region must not be clickable, or an invisible
/// row steals clicks meant for whatever is drawn there.
#[test]
fn a_row_scrolled_out_of_view_is_not_clickable() {
    let mut boxes = vec![Box_ {
        clips: true,
        scrolls: true,
        scroll_max: n(200.0),
        ..named("job-list", plain(bounds(0.0, 0.0, 200.0, 100.0), None))
    }];
    // The first row now sits at y -60..-30, above the region.
    boxes.push(click(bounds(0.0, -60.0, 200.0, 30.0), Some(0)));
    for i in 1..10 {
        boxes.push(plain(
            bounds(0.0, -60.0 + 30.0 * i as f32, 200.0, 30.0),
            Some(0),
        ));
    }
    assert_eq!(
        dispatch_click(&boxes, n(50.0), n(10.0)),
        None,
        "the scrolled-away row must not receive it"
    );
    assert_eq!(dispatch_click(&boxes, n(50.0), n(-45.0)), None);
    assert_eq!(
        scroll_target(&boxes, n(50.0), n(10.0)),
        Some(("job-list".to_string(), n(200.0)))
    );
    assert_eq!(inherited_clip(&boxes, 1), Clip::Within(boxes[0].bounds));
    assert_eq!(inherited_clip(&boxes, 0), Clip::Open);
}

#[test]
fn clips_narrow_on_the_way_down() {
    let clip = |b: Bounds, parent| Box_ {
        clips: true,
        ..plain(b, parent)
    };
    let boxes = vec![
        clip(bounds(0.0, 0.0, 100.0, 100.0), None),
        clip(bounds(50.0, 50.0, 100.0, 100.0), Some(0)),
        plain(bounds(0.0, 0.0, 300.0, 300.0), Some(1)),
        clip(bounds(200.0, 0.0, 10.0, 10.0), Some(1)),
        plain(bounds(200.0, 0.0, 10.0, 10.0), Some(3)),
    ];
    assert_eq!(
        inherited_clip(&boxes, 2),
        Clip::Within(bounds(50.0, 50.0, 50.0, 50.0))
    );
    assert_eq!(inherited_clip(&boxes, 4), Clip::Hidden);
    let a = bounds(0.0, 0.0, 10.0, 10.0);
    assert!(a.contains(n(0.0), n(0.0)) && !a.contains(n(10.0), n(0.0)));
    assert_eq!(a.intersect(&bounds(20.0, 0.0, 5.0, 5.0)), None);
}

#[test]
fn fields_sliders_and_the_top_bar_are_found_by_their_ids() {
    let boxes = vec![
        plain(bounds(0.0, 0.0, 400.0, 300.0), None),
        named(Focus::Url.element_id(), plain(bounds(10.0, 100.0, 80.0, 20.0), Some(0))),
        named("seek", plain(bounds(10.0, 200.0, 80.0, 20.0), Some(0))),
        named("volume", plain(bounds(110.0, 200.0, 80.0, 20.0), Some(0))),
        named("navbar", plain(bounds(0.0, 0.0, 400.0, 40.0), Some(0))),
    ];
    assert_eq!(field_at(&boxes, n(20.0), n(105.0)), Some((Focus::Url, n(10.0))));
    assert_eq!(field_at(&boxes, n(20.0), n(150.0)), None);
    assert_eq!(slider_at(&boxes, n(20.0), n(205.0)), Some(SliderKind::Seek));
    assert_eq!(slider_at(&boxes, n(120.0), n(205.0)), Some(SliderKind::Volume));
    assert!(is_titlebar_drag_area(&boxes, n(200.0), n(20.0)));
    assert!(!is_titlebar_drag_area(&boxes, n(200.0), n(150.0)));
    assert_eq!(bounds_of(&boxes, "navbar"), Some(boxes[4].bounds));
    assert_eq!(bounds_of(&boxes, "nothing"), None);
    let mut ids: Vec<&str> = Focus::all().into_iter().map(|f| f.element_id()).collect();
    let count = ids.len();
    ids.sort();
    ids.dedup();
    assert_eq!(ids.len(), count);
}

#[test]
fn a_tree_is_painted_parents_first() {
    // Children come before their parent where the tree is built.
    let kids = vec![vec![], vec![], vec![0, 1], vec![], vec![2, 3]];
    let flat = flatten(&kids, 4);
    let order: Vec<(usize, Option<usize>)> = flat.iter().map(|f| (f.node, f.parent)).collect();
    assert_eq!(
        order,
        vec![(4, None), (2, Some(0)), (0, Some(1)), (1, Some(1)), (3, Some(0))]
    );
}

const SIZE: (u32, u32) = (800, 600);

fn inner(size: (u32, u32)) -> Bounds {
    let b = RESIZE_BORDER as f32;
    Bounds {
        left: n(b),
        top: n(b),
        right: n(size.0 as f32 - b),
        bottom: n(size.1 as f32 - b),
    }
}

/// Every edge and corner has to actually resolve to a direction, not just the
/// ones near the origin.
#[test]
fn every_edge_and_corner_resolves_a_direction() {
    let (w, h) = (SIZE.0 as f32, SIZE.1 as f32);
    let cases = [
        (0.0, 0.0, ResizeDirection::NorthWest),
        (w - 1.0, 0.0, ResizeDirection::NorthEast),
        (0.0, h - 1.0, ResizeDirection::SouthWest),
        (w - 1.0, h - 1.0, ResizeDirection::SouthEast),
        (w / 2.0, 0.0, ResizeDirection::North),
        (w / 2.0, h - 1.0, ResizeDirection::South),
        (0.0, h / 2.0, ResizeDirection::West),
        (w - 1.0, h / 2.0, ResizeDirection::East),
    ];
    for (x, y, expected) in cases {
        assert_eq!(
            resize_direction_at(&inner(SIZE), n(x), n(y)),
            Some(expected),
            "at ({x}, {y})"
        );
    }
}

/// Anywhere well clear of an edge must not fight normal clicks and drags
/// for the press -- only the thin border should ever claim a resize.
#[test]
fn the_interior_is_not_a_resize_zone() {
    assert_eq!(resize_direction_at(&inner(SIZE), n(400.0), n(300.0)), None);
    // Just past the border, one pixel in from the edge case above.
    assert_eq!(
        resize_direction_at(&inner(SIZE), n(RESIZE_BORDER as f32 + 1.0), n(300.0)),
        None
    );
}

#[test]
fn a_window_has_an_extent_and_the_documented_size() {
    let mut s = Shell::new();
    assert_eq!((s.width, s.height), (WINDOW_WIDTH, WINDOW_HEIGHT));
    assert!(MIN_WINDOW_WIDTH <= WINDOW_WIDTH && MIN_WINDOW_HEIGHT <= WINDOW_HEIGHT);
    let act = s.window_event(
        WindowInput::Resized {
            width: 0,
            height: 5,
        },
        &inner(SIZE),
    );
    assert_eq!(act, Act::Nothing);
    assert_eq!((s.width, s.height), (1, 5));
    assert_eq!(s.window_event(WindowInput::CloseRequested, &inner(SIZE)), Act::Exit);
}

#[test]
fn a_press_on_the_border_resizes_and_elsewhere_clicks() {
    let mut s = Shell::new();
    assert_eq!(s.window_event(WindowInput::Pressed, &inner(SIZE)), Act::Nothing);
    let at = |x: f32, y: f32| WindowInput::CursorMoved { x: n(x), y: n(y) };
    assert_eq!(
        s.window_event(at(0.0, 300.0), &inner(SIZE)),
        Act::SetCursor(Cursor::Resize(ResizeDirection::West))
    );
    assert_eq!(
        s.window_event(WindowInput::Pressed, &inner(SIZE)),
        Act::Resize(ResizeDirection::West)
    );
    s.window_event(at(100.0, 300.0), &inner(SIZE));
    assert_eq!(
        s.window_event(WindowInput::Pressed, &inner(SIZE)),
        Act::Click {
            x: n(100.0),
            y: n(300.0)
        }
    );
    assert_eq!(
        s.window_event(WindowInput::Wheel, &inner(SIZE)),
        Act::Scroll {
            x: n(100.0),
            y: n(300.0)
        }
    );
    s.window_event(WindowInput::CursorLeft, &inner(SIZE));
    assert_eq!(s.pointer, None);
}

#[test]
fn a_slider_follows_the_pointer_until_it_is_let_go() {
    let boxes = vec![
        plain(bounds(0.0, 0.0, 800.0, 600.0), None),
        named("seek", click(bounds(10.0, 200.0, 80.0, 20.0), Some(0))),
    ];
    let mut s = Shell::new();
    let plan = s.on_click(&boxes, n(20.0), n(205.0));
    assert_eq!(plan.slider, Some(SliderKind::Seek));
    assert_eq!(plan.press, None, "the slider takes the press");
    let moved = WindowInput::CursorMoved {
        x: n(60.0),
        y: n(500.0),
    };
    assert!(matches!(
        s.window_event(moved, &inner(SIZE)),
        Act::Drag {
            slider: SliderKind::Seek,
            released: false,
            ..
        }
    ));
    assert!(matches!(
        s.window_event(WindowInput::Released, &inner(SIZE)),
        Act::Drag { released: true, .. }
    ));
    assert_eq!(s.dragging, None);
    assert_eq!(slider_drag(SliderKind::Seek, false), SliderStep::Scrub);
    assert_eq!(slider_drag(SliderKind::Seek, true), SliderStep::Seek);
    assert_eq!(slider_drag(SliderKind::Volume, false), SliderStep::SetVolume);
    assert!(drag_is_seek(SliderKind::Seek) && !drag_is_seek(SliderKind::Volume));
}

#[test]
fn a_click_gives_a_field_the_caret_and_takes_it_away() {
    let boxes = vec![
        named("navbar", plain(bounds(0.0, 0.0, 800.0, 600.0), None)),
        named(Focus::Name.element_id(), plain(bounds(10.0, 100.0, 80.0, 20.0), Some(0))),
    ];
    let mut s = Shell::new();
    let plan = s.on_click(&boxes, n(20.0), n(105.0));
    assert_eq!(plan.field, Some((Focus::Name, n(10.0))));
    assert_eq!(s.focus, Some(Focus::Name));
    let plan = s.on_click(&boxes, n(300.0), n(300.0));
    assert!(plan.move_window);
    assert_eq!(s.focus, None);
}

#[test]
fn keys_become_commands() {
    let key = |k: &str| KeyInput::Character(k.to_string());
    assert!(matches!(key_command(&key("a"), true, None), EditCommand::SelectAll));
    assert!(matches!(key_command(&key("C"), true, None), EditCommand::Copy));
    assert!(matches!(key_command(&key("x"), true, None), EditCommand::Cut));
    assert!(matches!(key_command(&key("v"), true, None), EditCommand::Paste));
    assert!(matches!(key_command(&KeyInput::Backspace, false, None), EditCommand::Backspace));
    assert!(matches!(
        key_command(&KeyInput::Home, false, None),
        EditCommand::Move(Motion::Home)
    ));
    match key_command(&KeyInput::Other, false, Some("a\u{7}b")) {
        EditCommand::Insert(chars) => assert_eq!(chars, vec!['a', 'b']),
        other => panic!("expected an insertion, got {other:?}"),
    }
}

#[test]
fn keys_go_to_the_focused_field_only() {
    let mut s = Shell::new();
    assert!(s.on_key(&KeyInput::Backspace, None).is_none());
    s.focus = Some(Focus::Url);
    let (command, _) = s.on_key(&KeyInput::Backspace, None).unwrap();
    assert!(matches!(command, EditCommand::Backspace));
}

#[test]
fn the_loop_sleeps_unless_something_moves() {
    let mut s = Shell::new();
    s.drawn();
    let idle = s.about_to_wait(false, false, 100);
    assert!(!idle.redraw);
    assert_eq!(idle.wait, Wait::Event);
    let idle = s.about_to_wait(true, false, 100);
    assert!(!idle.redraw);
    assert_eq!(idle.wait, Wait::Until(100 + FRAME_INTERVAL_MS));
    assert!(s.about_to_wait(false, true, 100).redraw);
    s.drawn();
    s.mark_dirty();
    assert!(s.about_to_wait(false, false, 100).redraw);
}

#[test]
fn caption_buttons_act_on_the_window() {
    assert_eq!(window_step(WindowAction::Minimize, true), WindowStep::Minimize);
    assert_eq!(
        window_step(WindowAction::ToggleMaximize, true),
        WindowStep::SetMaximized(false)
    );
    assert_eq!(window_step(WindowAction::Close, false), WindowStep::Exit);
}

/// The top bar is what the window is moved by, and nothing below it is.
#[test]
fn the_navbar_is_a_drag_region_and_nothing_below_it_is() {
    let (w, h) = (WINDOW_WIDTH as f32, WINDOW_HEIGHT as f32);
    let boxes = vec![
        plain(bounds(0.0, 0.0, w, h), None),
        named("navbar", plain(bounds(0.0, 0.0, w, 48.0), Some(0))),
        named("library-scroll", plain(bounds(0.0, 48.0, w, h - 48.0), Some(0))),
    ];
    assert!(is_titlebar_drag_area(&boxes, n(400.0), n(20.0)), "navbar background");
    assert!(!is_titlebar_drag_area(&boxes, n(400.0), n(60.0)), "just below the navbar");
    assert!(!is_titlebar_drag_area(&boxes, n(10.0), n(120.0)), "the left edge");
}

/// A click during a swap belongs to the screen arriving, never to the tile of the
/// one that leaves.
#[test]
fn the_outgoing_screen_takes_no_clicks_during_a_swap() {
    let pane = bounds(0.0, 48.0, 1180.0, 712.0);
    let tile = bounds(20.0, 100.0, 220.0, 180.0);
    let inert = |b: Box_| Box_ {
        interactive: false,
        ..b
    };
    let boxes = vec![
        plain(bounds(0.0, 0.0, 1180.0, 760.0), None),
        inert(plain(pane, Some(0))),
        inert(Box_ {
            pointer: true,
            ..named("tile-i1", click(tile, Some(1)))
        }),
        plain(pane, Some(0)),
    ];
    assert!(
        !wants_pointer_cursor(&boxes, n(130.0), n(190.0)),
        "no hand cursor over a screen on its way out"
    );
    assert_eq!(
        dispatch_click(&boxes, n(130.0), n(190.0)),
        None,
        "the tile underneath must not open"
    );
}
