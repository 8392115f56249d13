//! The parts that screens are made of.

use rustydlp::presets::Toggle;
use rustydlp::routing::Focus;
use rustydlp::slider::SliderState;
use rustydlp::truncation::{Shown, Truncation};
use rustydlp::widget::{
    Action, Button, ButtonVariant, Field, IconName, KeyValue, SharedString, Switch, Tab, TabBar,
};
use rustydlp::ytdlp::Single;

fn n(v: f32) -> Single {
    Single { bits: v.to_bits() }
}

/// A small labelled button is 24px tall.
#[test]
fn a_small_primary_button_paints_at_its_documented_size() {
    let b = Button::new("go", Action::StartDownload).small().primary().label("Download");
    assert_eq!(b.extent(), (24, None), "small + label is h_6");
    assert_eq!(b.variant, ButtonVariant::Primary);
}

/// An icon-only small button is square.
#[test]
fn an_icon_only_button_is_square() {
    let b = Button::new("play", Action::TogglePlay).small().icon(IconName::Play);
    assert_eq!(b.extent(), (24, Some(24)));
    let medium = Button::new("play", Action::TogglePlay).icon(IconName::Play);
    assert_eq!(medium.extent(), (32, Some(32)));
}

/// Clicking a tab reports its index, which is what drives SidebarTab.
#[test]
fn clicking_a_tab_reports_its_index() {
    let bar = TabBar::new("navbar-tabs").segmented().selected_index(0).children(vec![
        Tab::new().label("Download"),
        Tab::new().label("Convert"),
        Tab::new().label("In Progress"),
    ]);
    let segments = bar.segments();
    assert_eq!(segments.len(), 3);
    assert_eq!(segments[1].index, 1);
    assert_eq!(segments[1].label.as_str(), "Convert");
    assert!(segments[0].active && !segments[1].active);
    let mut ids: Vec<&String> = segments.iter().map(|s| &s.id).collect();
    ids.dedup();
    assert_eq!(ids.len(), 3);
}

/// A switch reports the value it is moving to, not the one it had.
#[test]
fn a_switch_reports_the_value_it_moves_to() {
    let on = Switch::toggle("sw", "Embed subtitles", Toggle::EmbedSubs, true);
    assert_eq!(
        on.action,
        Action::SetToggle(Toggle::EmbedSubs, false),
        "a checked switch moves to false"
    );
    let off = Switch::toggle("sw", "Embed subtitles", Toggle::EmbedSubs, false);
    assert_eq!(off.action, Action::SetToggle(Toggle::EmbedSubs, true));
}

#[test]
fn icons_live_among_the_assets() {
    assert_eq!(IconName::Play.path(), "icons/play.svg");
    assert_eq!(IconName::ChevronLeft.path(), "icons/chevron-left.svg");
}

#[test]
fn small_parts_carry_their_texts() {
    assert_eq!(SharedString::new("x").as_str(), "x");
    let f = Field::new("Name", Focus::Name);
    assert_eq!((f.label.as_str(), f.focus), ("Name", Focus::Name));
    let kv = KeyValue::new("URL", "https://x");
    assert_eq!((kv.key.as_str(), kv.value.as_str()), ("URL", "https://x"));
}

/// Values are clamped to the range, so a seek past the end cannot ask the
/// player for a position beyond the file.
#[test]
fn values_clamp_to_the_range() {
    let mut s = SliderState::new().min(n(0.0)).max(n(1.0));
    s.set_value(n(5.0));
    assert_eq!(s.value(), n(1.0));
    s.set_value(n(-1.0));
    assert_eq!(s.value(), n(0.0));
    s.set_value(n(0.25));
    assert_eq!(s.value(), n(0.25));
    assert_eq!(SliderState::new().step, n(0.01));
    assert_eq!(s.step(n(0.5)).default_value(n(0.75)).value(), n(0.75));
}

/// A text in a font where every character is ten wide.
fn fitted(text: &str, width: usize) -> (Option<Shown>, String) {
    let mut t = Truncation::new(text);
    while t.shown().is_none() {
        let fits = t.candidate().chars().count() * 10 <= width;
        t.answer(fits);
    }
    (t.shown(), t.candidate())
}

/// The truncated line has to actually fit, and be shorter than the same text
/// unconstrained.
#[test]
fn shape_truncated_fits_the_max_width() {
    let text = "a very long title that will certainly overflow a narrow sidebar column";
    let (shown, line) = fitted(text, 120);
    assert_eq!(shown, Some(Shown::Cut(11)));
    assert_eq!(line, "a very long\u{2026}");
    assert_eq!(fitted("日本語日本語", 40).1, "日本語\u{2026}");
}

/// Text that already fits must come back unchanged -- no ellipsis tacked
/// onto a title that was never going to overflow in the first place.
#[test]
fn shape_truncated_leaves_text_that_already_fits_alone() {
    assert_eq!(fitted("hi", 500), (Some(Shown::Whole), "hi".to_string()));
    assert_eq!(fitted("hi", 20), (Some(Shown::Whole), "hi".to_string()));
    assert_eq!(fitted("hi there", 10), (Some(Shown::Cut(0)), "\u{2026}".to_string()));
    assert_eq!(fitted("hi there", 5), (Some(Shown::Mark), "\u{2026}".to_string()));
}
