//! Cutting a line of text to a width.
//!
//! Only the fonts know how wide a text comes out, so the search for the longest
//! beginning that fits asks for one measurement at a time: what to measure next,
//! and what the answer leads to.

use vstd::prelude::*;

use crate::text::{chars_of, concat, owned, string_range};

verus! {

/// Stands at the end of a text that was cut.
pub const ELLIPSIS: &'static str = "\u{2026}";

/// What a line ends up showing.
#[derive(Debug, Clone, Copy, PartialEq, Eq, Structural)]
pub enum Shown {
    /// The text as it is.
    Whole,
    /// The mark alone. It may not fit either, but nothing shorter says that there
    /// is something to read.
    Mark,
    /// So many characters, and the mark.
    Cut(usize),
}

/// How far the search is.
#[derive(Debug, Clone, Copy, PartialEq, Eq, Structural)]
pub enum Stage {
    /// Does the whole text fit?
    Whole,
    /// Does the mark alone?
    Mark,
    /// `lo` characters and the mark do; more than `hi` do not.
    Between { lo: usize, hi: usize },
    Done(Shown),
}

/// The number of characters to try next: in the middle, rounded up.
pub open spec fn middle(lo: usize, hi: usize) -> int {
    lo + (hi - lo + 1) / 2
}

pub open spec fn narrowed(lo: int, hi: int) -> Stage {
    if lo < hi {
        Stage::Between { lo: lo as usize, hi: hi as usize }
    } else {
        Stage::Done(Shown::Cut(lo as usize))
    }
}

/// What an answer leads to, for a text of `len` characters.
pub open spec fn after(len: nat, stage: Stage, fits: bool) -> Stage {
    match stage {
        Stage::Whole => if fits {
            Stage::Done(Shown::Whole)
        } else {
            Stage::Mark
        },
        Stage::Mark => if fits {
            narrowed(0, len as int)
        } else {
            Stage::Done(Shown::Mark)
        },
        Stage::Between { lo, hi } => if fits {
            narrowed(middle(lo, hi), hi as int)
        } else {
            narrowed(lo as int, middle(lo, hi) - 1)
        },
        Stage::Done(shown) => stage,
    }
}

/// The beginning of a text, and the mark.
pub open spec fn cut(text: Seq<char>, kept: int) -> Seq<char> {
    text.take(kept) + ELLIPSIS@
}

/// What to measure at a stage, or at the end what to show.
pub open spec fn candidate(text: Seq<char>, stage: Stage) -> Seq<char> {
    match stage {
        Stage::Whole => text,
        Stage::Mark => ELLIPSIS@,
        Stage::Between { lo, hi } => cut(text, middle(lo, hi)),
        Stage::Done(Shown::Whole) => text,
        Stage::Done(Shown::Mark) => ELLIPSIS@,
        Stage::Done(Shown::Cut(kept)) => cut(text, kept as int),
    }
}

pub open spec fn stage_fits(len: nat, stage: Stage) -> bool {
    match stage {
        Stage::Between { lo, hi } => lo < hi <= len,
        Stage::Done(Shown::Cut(kept)) => kept <= len,
        _ => true,
    }
}

/// The search for one line.
#[derive(Debug)]
pub struct Truncation {
    pub text: Vec<char>,
    pub stage: Stage,
}

impl Truncation {
    pub open spec fn wf(self) -> bool {
        stage_fits(self.text@.len(), self.stage)
    }

    pub fn new(text: &str) -> (r: Truncation)
        ensures
            r.wf(),
            r.text@ == text@,
            r.stage == Stage::Whole,
    {
        Truncation { text: chars_of(text), stage: Stage::Whole }
    }

    /// What to measure now. Once the search is over, what to show.
    pub fn candidate(&self) -> (r: String)
        requires
            self.wf(),
        ensures
            r@ == candidate(self.text@, self.stage),
    {
        match self.stage {
            Stage::Whole => self.start(self.text.len()),
            Stage::Mark => owned(ELLIPSIS),
            Stage::Between { lo, hi } => concat(
                self.start(lo + (hi - lo) / 2 + (hi - lo) % 2).as_str(),
                ELLIPSIS,
            ),
            Stage::Done(Shown::Whole) => self.start(self.text.len()),
            Stage::Done(Shown::Mark) => owned(ELLIPSIS),
            Stage::Done(Shown::Cut(kept)) => concat(self.start(kept).as_str(), ELLIPSIS),
        }
    }

    fn start(&self, kept: usize) -> (r: String)
        requires
            kept <= self.text@.len(),
        ensures
            r@ == self.text@.take(kept as int),
    {
        let r: String = string_range(&self.text, 0, kept);
        assert(self.text@.subrange(0, kept as int) == self.text@.take(kept as int));
        r
    }

    /// Takes in whether the candidate fits.
    pub fn answer(&mut self, fits: bool)
        requires
            old(self).wf(),
        ensures
            final(self).wf(),
            final(self).text@ == old(self).text@,
            final(self).stage == after(old(self).text@.len(), old(self).stage, fits),
    {
        self.stage = match self.stage {
            Stage::Whole => if fits {
                Stage::Done(Shown::Whole)
            } else {
                Stage::Mark
            },
            Stage::Mark => if fits {
                narrow(0, self.text.len())
            } else {
                Stage::Done(Shown::Mark)
            },
            Stage::Between { lo, hi } => {
                let middle: usize = lo + (hi - lo) / 2 + (hi - lo) % 2;
                if fits {
                    narrow(middle, hi)
                } else {
                    narrow(lo, middle - 1)
                }
            },
            Stage::Done(shown) => Stage::Done(shown),
        };
    }

    /// What the line shows, once that is known.
    pub fn shown(&self) -> (r: Option<Shown>)
        ensures
            r == (match self.stage {
                Stage::Done(shown) => Some(shown),
                _ => None,
            }),
    {
        match self.stage {
            Stage::Done(shown) => Some(shown),
            _ => None,
        }
    }
}

fn narrow(lo: usize, hi: usize) -> (r: Stage)
    ensures
        r == narrowed(lo as int, hi as int),
{
    if lo < hi {
        Stage::Between { lo, hi }
    } else {
        Stage::Done(Shown::Cut(lo))
    }
}

// ---------------------------------------------------------------------------
// Laws
// ---------------------------------------------------------------------------

/// How many measurements a stage is from the end, at most.
pub open spec fn ahead(len: nat, stage: Stage) -> int {
    match stage {
        Stage::Whole => len as int + 3,
        Stage::Mark => len as int + 2,
        Stage::Between { lo, hi } => hi - lo + 1,
        Stage::Done(_) => 0,
    }
}

/// What is shown in the end, where `fits` answers every question.
pub open spec fn settled(
    text: Seq<char>,
    stage: Stage,
    fits: spec_fn(Seq<char>) -> bool,
) -> Seq<char>
    decreases ahead(text.len(), stage),
    when stage_fits(text.len(), stage) && text.len() <= usize::MAX
{
    match stage {
        Stage::Done(_) => candidate(text, stage),
        _ => settled(text, after(text.len(), stage, fits(candidate(text, stage))), fits),
    }
}

/// A longer beginning is never narrower than a shorter one.
pub open spec fn widens(text: Seq<char>, fits: spec_fn(Seq<char>) -> bool) -> bool {
    forall|j: int, k: int|
        0 <= j <= k <= text.len() && #[trigger] fits(cut(text, k)) ==> #[trigger] fits(
            cut(text, j),
        )
}

/// A beginning of the text that fits, and none longer does.
pub open spec fn is_longest(
    text: Seq<char>,
    fits: spec_fn(Seq<char>) -> bool,
    kept: int,
    hi: int,
) -> bool {
    &&& 0 <= kept <= hi <= text.len()
    &&& fits(cut(text, kept))
    &&& widens(text, fits) ==> forall|j: int|
        kept < j <= hi ==> !(#[trigger] fits(cut(text, j)))
}

proof fn lemma_narrowing(text: Seq<char>, stage: Stage, fits: spec_fn(Seq<char>) -> bool) -> (kept:
    int)
    requires
        stage_fits(text.len(), stage),
        text.len() <= usize::MAX,
        match stage {
            Stage::Between { lo, hi } => fits(cut(text, lo as int)),
            Stage::Done(Shown::Cut(kept)) => fits(cut(text, kept as int)),
            _ => false,
        },
    ensures
        settled(text, stage, fits) == cut(text, kept),
        match stage {
            Stage::Between { lo, hi } => lo <= kept && is_longest(text, fits, kept, hi as int),
            Stage::Done(Shown::Cut(k)) => kept == k,
            _ => false,
        },
    decreases ahead(text.len(), stage),
{
    match stage {
        Stage::Between { lo, hi } => {
            let mid = middle(lo, hi);
            let next = after(text.len(), stage, fits(candidate(text, stage)));
            let kept = lemma_narrowing(text, next, fits);
            if widens(text, fits) && !fits(cut(text, mid)) {
                assert forall|j: int| kept < j <= hi implies !(#[trigger] fits(cut(text, j))) by {
                    if j >= mid && fits(cut(text, j)) {
                        assert(fits(cut(text, mid)));
                    }
                }
            }
            kept
        },
        Stage::Done(Shown::Cut(k)) => k as int,
        _ => 0,
    }
}

/// A text that fits is shown as it is. One that does not is cut to the longest
/// beginning that fits beside the mark, or to the mark alone.
pub proof fn lemma_longest_beginning_is_shown(
    text: Seq<char>,
    fits: spec_fn(Seq<char>) -> bool,
)
    requires
        text.len() <= usize::MAX,
    ensures
        fits(text) ==> settled(text, Stage::Whole, fits) == text,
        !fits(text) && !fits(ELLIPSIS@) ==> settled(text, Stage::Whole, fits) == ELLIPSIS@,
        !fits(text) && fits(ELLIPSIS@) ==> exists|kept: int|
            settled(text, Stage::Whole, fits) == #[trigger] cut(text, kept) && is_longest(
                text,
                fits,
                kept,
                text.len() as int,
            ),
{
    let second = after(text.len(), Stage::Whole, fits(text));
    let third = after(text.len(), second, fits(candidate(text, second)));
    assert(settled(text, Stage::Whole, fits) == settled(text, second, fits));
    if !fits(text) {
        assert(settled(text, second, fits) == settled(text, third, fits));
        if fits(ELLIPSIS@) {
            assert(cut(text, 0) == ELLIPSIS@);
            let kept = lemma_narrowing(text, third, fits);
            assert(is_longest(text, fits, kept, text.len() as int));
        }
    }
}

/// A text is cut to its first characters with one ellipsis behind them.
pub proof fn lemma_cut_text_ends_with_an_ellipsis(text: Seq<char>, kept: int)
    requires
        0 <= kept <= text.len(),
    ensures
        cut(text, kept).len() == kept + 1,
        cut(text, kept).last() == '\u{2026}',
        forall|i: int| 0 <= i < kept ==> #[trigger] cut(text, kept)[i] == text[i],
        candidate(text, Stage::Whole) == text,
        candidate(text, Stage::Mark) == seq!['\u{2026}'],
{
    reveal_strlit("\u{2026}");
    assert(ELLIPSIS@ =~= seq!['\u{2026}']);
}

} // verus!
