//! The card that grows out of a tile and goes back into it.

use vstd::prelude::*;

use crate::routing::Bounds;
use crate::text::{copy_opt, opt, owned};

verus! {

/// What stands for no card at all.
pub const CLOSED: u64 = 0;

/// The two rectangles that a card moves between.
#[derive(Debug)]
pub struct Morph {
    /// Which card it is, or `CLOSED` once that was dismissed.
    pub identity: u64,
    /// The tile that was clicked. It does not move under the animation.
    pub from: Bounds,
    /// Where the card rests. It follows the window.
    pub to: Bounds,
    /// The picture that tile and card have in common.
    pub thumb: Option<String>,
}

/// The value of a `Morph`.
#[verifier::ext_equal]
pub struct MorphView {
    pub identity: u64,
    pub from: Bounds,
    pub to: Bounds,
    pub thumb: Option<Seq<char>>,
}

impl View for Morph {
    type V = MorphView;

    open spec fn view(&self) -> MorphView {
        MorphView { identity: self.identity, from: self.from, to: self.to, thumb: opt(self.thumb) }
    }
}

/// The card's motion, and where the last click was.
#[derive(Debug)]
pub struct Motion {
    pub morph: Option<Morph>,
    pub click_origin: Option<Bounds>,
}

/// The value of a `Motion`.
#[verifier::ext_equal]
pub struct MotionView {
    pub morph: Option<MorphView>,
    pub click_origin: Option<Bounds>,
}

impl View for Motion {
    type V = MotionView;

    open spec fn view(&self) -> MotionView {
        MotionView { morph: opt(self.morph), click_origin: self.click_origin }
    }
}

/// Whether the card is on screen already.
pub open spec fn is_shown(s: MotionView, identity: u64) -> bool {
    s.morph is Some && s.morph->0.identity == identity
}

/// Where a card comes from: once it is on screen, whence it came; else from what
/// was clicked, or from `otherwise` where nothing was.
pub open spec fn origin(s: MotionView, identity: u64, otherwise: Bounds) -> Bounds {
    if is_shown(s, identity) {
        s.morph->0.from
    } else {
        match s.click_origin {
            Some(b) => b,
            None => otherwise,
        }
    }
}

/// The motion once a card is drawn.
pub open spec fn shown(
    s: MotionView,
    identity: u64,
    to: Bounds,
    thumb: Option<Seq<char>>,
    otherwise: Bounds,
) -> MotionView {
    MotionView {
        morph: Some(MorphView { identity, from: origin(s, identity, otherwise), to, thumb }),
        click_origin: if is_shown(s, identity) {
            s.click_origin
        } else {
            None
        },
    }
}

/// The motion once the card was dismissed. Its rectangles stay, to be run
/// backwards.
pub open spec fn dismissed(s: MotionView) -> MotionView {
    match s.morph {
        Some(m) => MotionView { morph: Some(MorphView { identity: CLOSED, ..m }), ..s },
        None => s,
    }
}

impl Motion {
    pub fn new() -> (r: Motion)
        ensures
            r@ == (MotionView { morph: None, click_origin: None }),
    {
        Motion { morph: None, click_origin: None }
    }

    /// Something was clicked: what opens next comes from there.
    pub fn set_click_origin(&mut self, rect: Bounds)
        ensures
            final(self)@ == (MotionView { click_origin: Some(rect), ..old(self)@ }),
    {
        self.click_origin = Some(rect);
    }

    /// A card is drawn with its resting place at `to`. Gives back where it comes
    /// from.
    pub fn show(
        &mut self,
        identity: u64,
        to: Bounds,
        thumb: Option<&str>,
        otherwise: Bounds,
    ) -> (from: Bounds)
        ensures
            from == origin(old(self)@, identity, otherwise),
            final(self)@ == shown(
                old(self)@,
                identity,
                to,
                match thumb {
                    Some(t) => Some(t@),
                    None => None,
                },
                otherwise,
            ),
    {
        let anchored: Option<Bounds> = match &self.morph {
            Some(m) => if m.identity == identity {
                Some(m.from)
            } else {
                None
            },
            None => None,
        };
        let from: Bounds = match anchored {
            Some(from) => from,
            None => {
                let clicked: Option<Bounds> = self.click_origin;
                self.click_origin = None;
                match clicked {
                    Some(b) => b,
                    None => otherwise,
                }
            },
        };
        let thumb: Option<String> = match thumb {
            Some(t) => Some(owned(t)),
            None => None,
        };
        self.morph = Some(Morph { identity, from, to, thumb });
        from
    }

    /// The card was dismissed.
    pub fn dismiss(&mut self)
        ensures
            final(self)@ == dismissed(old(self)@),
    {
        let next: Option<Morph> = match &self.morph {
            Some(m) => Some(
                Morph { identity: CLOSED, from: m.from, to: m.to, thumb: copy_opt(&m.thumb) },
            ),
            None => None,
        };
        if next.is_some() {
            self.morph = next;
        }
    }

    /// The rectangles to run backwards, where a card was on screen before none
    /// was.
    pub fn collapsing(&self, was_open: bool) -> (r: Option<&Morph>)
        ensures
            opt(r) == (if was_open {
                self@.morph
            } else {
                None
            }),
    {
        if was_open {
            self.morph.as_ref()
        } else {
            None
        }
    }
}

/// The tile that a card came from does not move under it, however often it is
/// drawn, wherever it rests and whatever is clicked meanwhile.
pub proof fn lemma_anchor_stays(
    s: MotionView,
    identity: u64,
    to: Bounds,
    thumb: Option<Seq<char>>,
    otherwise: Bounds,
    clicked: Bounds,
    again: Bounds,
)
    ensures
        ({
            let first = shown(s, identity, to, thumb, otherwise);
            let later = MotionView { click_origin: Some(clicked), ..first };
            &&& origin(first, identity, again) == origin(s, identity, otherwise)
            &&& origin(later, identity, again) == origin(s, identity, otherwise)
        }),
{
}

/// A card that is opened again comes from its new tile, be it the same card.
pub proof fn lemma_reopening_anchors_anew(
    s: MotionView,
    identity: u64,
    clicked: Bounds,
    otherwise: Bounds,
)
    requires
        identity != CLOSED,
    ensures
        ({
            let after = MotionView { click_origin: Some(clicked), ..dismissed(s) };
            origin(after, identity, otherwise) == clicked
        }),
{
}

/// A dismissed card collapses between the rectangles that it was shown with.
pub proof fn lemma_collapse_runs_back(
    s: MotionView,
    identity: u64,
    to: Bounds,
    thumb: Option<Seq<char>>,
    otherwise: Bounds,
)
    ensures
        ({
            let after = dismissed(shown(s, identity, to, thumb, otherwise));
            &&& after.morph is Some
            &&& after.morph->0.from == origin(s, identity, otherwise)
            &&& after.morph->0.to == to
            &&& after.morph->0.thumb == thumb
        }),
{
}

/// A card that is drawn comes from where it came before; a new one from what was clicked,
/// which is used up, or else from where it is told. It goes to its resting place with its
/// picture.
pub proof fn lemma_card_comes_from_the_click(
    s: MotionView,
    identity: u64,
    to: Bounds,
    thumb: Option<Seq<char>>,
    otherwise: Bounds,
)
    ensures
        ({
            let t = shown(s, identity, to, thumb, otherwise);
            let there = s.morph is Some && s.morph->0.identity == identity;
            &&& t.morph is Some
            &&& t.morph->0.identity == identity && t.morph->0.to == to && t.morph->0.thumb == thumb
            &&& t.morph->0.from == origin(s, identity, otherwise)
            &&& there ==> t.morph->0.from == s.morph->0.from && t.click_origin == s.click_origin
            &&& !there && s.click_origin is Some ==> t.morph->0.from == s.click_origin->0
            &&& !there && s.click_origin is None ==> t.morph->0.from == otherwise
            &&& !there ==> t.click_origin is None
        }),
        s.morph is None ==> dismissed(s) == s,
        s.morph is Some ==> dismissed(s) == (MotionView {
            morph: Some(MorphView { identity: 0, ..s.morph->0 }),
            ..s
        }),
{
}

} // verus!
