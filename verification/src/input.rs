//! Single-line text fields.
//!
//! A field is edited by cosmic-text's editor, which knows where characters
//! begin and end and how text runs. What is stated here of the editor's own
//! operations is stated of its first line, its caret and its selection.

use cosmic_text::{
    Attrs, Buffer, Edit, Editor, FontSystem, Metrics, Selection, Shaping, Wrap,
};

use vstd::prelude::*;

use crate::shell::Motion;
#[allow(unused_imports)]
use crate::shell::is_control;
use crate::text::{chars_of, owned, same, string_of, string_range};
#[allow(unused_imports)]
use crate::text::{deep, opt};

verus! {

// ---------------------------------------------------------------------------
// The editor
// ---------------------------------------------------------------------------

#[verifier::external_type_specification]
#[verifier::external_body]
pub struct ExEditor<'buffer>(Editor<'buffer>);

#[verifier::external_type_specification]
#[verifier::external_body]
pub struct ExBuffer(Buffer);

#[verifier::external_type_specification]
#[verifier::external_body]
pub struct ExFontSystem(FontSystem);

/// The lines that an editor holds.
pub uninterp spec fn lines_of(editor: Editor<'static>) -> Seq<Seq<char>>;

/// How many characters stand before the caret on the first line. Where the caret
/// is on the first line but not between characters of it, one more than the line
/// has; where it is on another line, two more.
pub uninterp spec fn caret_of(editor: Editor<'static>) -> nat;

/// Where the selection began, in characters of the first line; none where
/// nothing is selected, and more than the line has where it began elsewhere or
/// takes in whole words or lines.
pub uninterp spec fn anchor_of(editor: Editor<'static>) -> Option<nat>;

/// Whether lines that are too long for an editor are laid out as several.
pub uninterp spec fn wraps(editor: Editor<'static>) -> bool;

/// The font size and the line height that a buffer was made with.
pub uninterp spec fn metrics_of(buffer: Buffer) -> (nat, nat);

/// Whether shaping plain text finds a font.
pub uninterp spec fn shapes(fonts: FontSystem) -> bool;

/// Whether shaping gives every word of printable ASCII, blanks included, glyphs
/// that reach from its start to its end, whichever of the faces can be read.
pub uninterp spec fn fills_words(fonts: FontSystem) -> bool;

/// Whether fonts still shape text, and fill words as they did before.
pub open spec fn still_shapes(before: FontSystem, after: FontSystem) -> bool {
    shapes(after) && fills_words(after) == fills_words(before)
}

/// The names of the families of each face.
pub uninterp spec fn families_of(fonts: FontSystem) -> Seq<Seq<Seq<char>>>;

/// Of each face whether it fits plain text.
pub uninterp spec fn fits_of(fonts: FontSystem) -> Seq<bool>;

/// Of each face whether it could be read. None where that was not tried yet.
pub uninterp spec fn read_of(fonts: FontSystem) -> Seq<Option<bool>>;

/// The families that shaping never falls back on.
pub uninterp spec fn forbidden_of(fonts: FontSystem) -> Set<Seq<char>>;

/// The family of faces that have a sign for everything and letters for nothing.
pub const LAST_RESORT: &'static str = ".LastResort";

/// Whether none of some families is forbidden.
pub open spec fn is_spared(families: Seq<Seq<char>>, forbidden: Set<Seq<char>>) -> bool {
    forall|i: int| 0 <= i < families.len() ==> !forbidden.contains(#[trigger] families[i])
}

/// Whether the face at a place fits plain text, could be read and is no last resort.
pub open spec fn is_usable(fonts: FontSystem, at: int) -> bool {
    &&& fits_of(fonts)[at]
    &&& read_of(fonts)[at] == Some(true)
    &&& is_spared(families_of(fonts)[at], set![LAST_RESORT@])
}

/// The characters that belong together around a place in a text: from the first
/// number up to the second.
pub uninterp spec fn cluster_at(text: Seq<char>, at: nat) -> (nat, nat);

/// Whether a text runs from right to left.
pub uninterp spec fn runs_left(text: Seq<char>) -> bool;

/// Where a click at a distance from the text's start puts the caret: the place that
/// the layout held by the editor has there, or, where it holds none, the place where
/// the caret is.
pub uninterp spec fn place_under(editor: Editor<'static>, x: i32) -> nat;

/// Whether a character is a line break.
pub open spec fn is_break(c: char) -> bool {
    c == '\n' || c == '\r'
}

/// Whether a character ends a paragraph without being a line break.
pub open spec fn ends_paragraph(c: char) -> bool {
    '\u{1c}' <= c <= '\u{1e}' || c == '\u{85}' || c == '\u{2029}'
}

/// Whether a character is of the scripts that run from right to left, or makes text
/// do so. Without any a paragraph runs from left to right.
pub open spec fn turns_line(c: char) -> bool {
    ||| '\u{590}' <= c <= '\u{8ff}'
    ||| c == '\u{200f}'
    ||| '\u{fb1d}' <= c <= '\u{fdff}'
    ||| '\u{fe70}' <= c <= '\u{feff}'
    ||| '\u{10800}' <= c <= '\u{10fff}'
    ||| '\u{1e800}' <= c <= '\u{1efff}'
}

/// Whether a character is of one of the two kinds that a line cannot mix.
pub open spec fn is_marked(c: char, turns: bool) -> bool {
    if turns {
        turns_line(c)
    } else {
        ends_paragraph(c)
    }
}

/// Whether a text has no character of a kind.
pub open spec fn is_free_of(text: Seq<char>, turns: bool) -> bool {
    forall|i: int| 0 <= i < text.len() ==> !is_marked(#[trigger] text[i], turns)
}

/// Whether a text has no line break.
pub open spec fn is_unbroken(text: Seq<char>) -> bool {
    forall|i: int| 0 <= i < text.len() ==> !is_break(#[trigger] text[i])
}

/// Whether a text is one line however much is taken out of it: it has no line break,
/// and no end of a paragraph beside characters that run from right to left. The
/// paragraphs of a line must all run the same way.
pub open spec fn is_one_line(text: Seq<char>) -> bool {
    is_unbroken(text) && (is_free_of(text, false) || is_free_of(text, true))
}

/// Whether a text is printable ASCII.
pub open spec fn is_plain(text: Seq<char>) -> bool {
    forall|i: int| 0 <= i < text.len() ==> ' ' <= #[trigger] text[i] <= '~'
}

/// Where a step to the left, or to the right, leads: over the characters that
/// belong together on that side. `leftward` is whether the text runs from right to
/// left; `before` and `behind` are where the characters before and behind the place
/// begin and end. A place amid such characters is only left backwards.
pub open spec fn step(
    line: Seq<char>,
    caret: nat,
    left: bool,
    leftward: bool,
    before: (nat, nat),
    behind: (nat, nat),
) -> nat {
    if left != leftward {
        if caret == 0 {
            0
        } else {
            before.0
        }
    } else if caret < line.len() && behind.0 == caret {
        behind.1
    } else {
        caret
    }
}

/// Where a step leads among printable ASCII.
pub open spec fn plain_step(line: Seq<char>, caret: nat, left: bool) -> nat {
    if left {
        if caret == 0 {
            0
        } else {
            (caret - 1) as nat
        }
    } else if caret < line.len() {
        caret + 1
    } else {
        caret
    }
}

/// Where a motion leads among printable ASCII.
pub open spec fn plain_motion(line: Seq<char>, caret: nat, motion: Motion) -> nat {
    match motion {
        Motion::Left => plain_step(line, caret, true),
        Motion::Right => plain_step(line, caret, false),
        Motion::Home => 0,
        Motion::End => line.len(),
    }
}

/// Whether `at` is where a step leads.
pub open spec fn is_step(
    line: Seq<char>,
    caret: nat,
    left: bool,
    leftward: bool,
    before: (nat, nat),
    behind: (nat, nat),
    at: nat,
) -> bool {
    &&& at == step(line, caret, left, leftward, before, behind)
    &&& at <= line.len()
    &&& is_plain(line) ==> at == plain_step(line, caret, left)
}

/// Whether an editor holds one line, with the caret and the selection in it.
pub open spec fn is_ready(e: Editor<'static>) -> bool {
    &&& lines_of(e).len() == 1
    &&& caret_of(e) <= lines_of(e)[0].len()
    &&& anchor_of(e) matches Some(a) ==> a <= lines_of(e)[0].len()
}

/// Whether the caret is on the first line, be it between its characters or not.
pub open spec fn is_on_first_line(e: Editor<'static>) -> bool {
    if lines_of(e).len() == 0 {
        caret_of(e) <= 1
    } else {
        caret_of(e) <= lines_of(e)[0].len() + 1
    }
}

/// The first and the last place of a selection.
pub open spec fn span(caret: nat, anchor: nat) -> (nat, nat) {
    if anchor < caret {
        (anchor, caret)
    } else {
        (caret, anchor)
    }
}

/// `Buffer::new`: a buffer of a font size and a line height. Without a line height
/// there is none.
#[verifier::external_body]
fn new_buffer(fonts: &mut FontSystem, font_size: u8, line_height: u8) -> (r: Buffer)
    requires
        shapes(*old(fonts)),
        line_height > 0,
    ensures
        still_shapes(*old(fonts), *final(fonts)),
        metrics_of(r) == (font_size as nat, line_height as nat),
{
    Buffer::new(fonts, Metrics::new(font_size.into(), line_height.into()))
}

/// `Editor::new`: the caret starts at the first line's start, and nothing is
/// selected. What the buffer holds is left unsaid.
#[verifier::external_body]
fn new_editor(buffer: Buffer) -> (r: Editor<'static>)
    requires
        metrics_of(buffer).1 > 0,
    ensures
        caret_of(r) == 0,
        anchor_of(r) is None,
{
    Editor::new(buffer)
}

/// `Buffer::set_wrap` with none: a line stays one however long it is, and nothing
/// else changes.
#[verifier::external_body]
fn stop_wrapping(editor: &mut Editor<'static>, fonts: &mut FontSystem)
    requires
        shapes(*old(fonts)),
        lines_of(*old(editor)).len() == 1,
        is_one_line(lines_of(*old(editor))[0]),
    ensures
        still_shapes(*old(fonts), *final(fonts)),
        !wraps(*final(editor)),
        lines_of(*final(editor)) == lines_of(*old(editor)),
        caret_of(*final(editor)) == caret_of(*old(editor)),
        anchor_of(*final(editor)) == anchor_of(*old(editor)),
{
    editor.with_buffer_mut(|b| b.set_wrap(fonts, Wrap::None));
}

/// `FontSystem::new`: the fonts of the machine. The families that its
/// `PlatformFallback` forbids are none but the last resort of one platform.
/// Which fonts there are is up to the machine, and left unsaid.
#[verifier::external_body]
fn new_fonts() -> (r: FontSystem)
    ensures
        forbidden_of(r).subset_of(set![LAST_RESORT@]),
{
    FontSystem::new()
}

/// `Database::len`: how many faces there are.
#[verifier::external_body]
fn face_count(fonts: &FontSystem) -> (r: usize)
    ensures
        r == families_of(*fonts).len(),
        r == fits_of(*fonts).len(),
        r == read_of(*fonts).len(),
{
    fonts.db().len()
}

/// The names in `FaceInfo::families` of the face at a place of `Database::faces`.
#[verifier::external_body]
fn family_names(fonts: &FontSystem, at: usize) -> (r: Vec<String>)
    requires
        at < families_of(*fonts).len(),
    ensures
        deep(r@) == families_of(*fonts)[at as int],
{
    let face = fonts.db().faces().nth(at);
    face.map(|f| f.families.iter().map(|(name, _)| name.clone()).collect()).unwrap_or_default()
}

/// `Attrs::matches` of plain text's attributes, on the face at a place of
/// `Database::faces`: whether the face fits.
#[verifier::external_body]
fn face_fits(fonts: &FontSystem, at: usize) -> (r: bool)
    requires
        at < fits_of(*fonts).len(),
    ensures
        r == fits_of(*fonts)[at as int],
{
    fonts.db().faces().nth(at).is_some_and(|face| Attrs::new().matches(face))
}

/// `FontSystem::get_font` of the face at a place of `Database::faces`: whether the
/// face can be read. What came of reading a face is kept, so it never changes;
/// nothing is said of a face that was not read before, since that is up to the
/// disk. Shaping falls back on any face that fits, could be read and is of no
/// forbidden family.
#[verifier::external_body]
fn face_reads(fonts: &mut FontSystem, at: usize) -> (r: bool)
    requires
        at < families_of(*old(fonts)).len(),
    ensures
        families_of(*final(fonts)) == families_of(*old(fonts)),
        fits_of(*final(fonts)) == fits_of(*old(fonts)),
        forbidden_of(*final(fonts)) == forbidden_of(*old(fonts)),
        fills_words(*final(fonts)) == fills_words(*old(fonts)),
        read_of(*final(fonts)) == read_of(*old(fonts)).update(at as int, Some(r)),
        read_of(*old(fonts))[at as int] matches Some(known) ==> r == known,
        r && fits_of(*old(fonts))[at as int] && is_spared(
            families_of(*old(fonts))[at as int],
            forbidden_of(*old(fonts)),
        ) ==> shapes(*final(fonts)),
{
    let id = fonts.db().faces().nth(at).map(|face| face.id);
    id.is_some_and(|id| fonts.get_font(id).is_some())
}

/// The text of the first of `Buffer::lines`.
#[verifier::external_body]
fn first_line(editor: &Editor<'static>) -> (r: String)
    requires
        lines_of(*editor).len() == 1,
    ensures
        r@ == lines_of(*editor)[0],
{
    editor.with_buffer(|b| b.lines.first().map(|l| l.text().to_string()).unwrap_or_default())
}

/// `Buffer::set_text`: a text without a line break becomes the only line. The
/// caret and the selection stay where they are, which may then be outside the
/// text.
#[verifier::external_body]
fn set_text(editor: &mut Editor<'static>, fonts: &mut FontSystem, text: &str)
    requires
        shapes(*old(fonts)),
        is_one_line(text@),
    ensures
        still_shapes(*old(fonts), *final(fonts)),
        wraps(*final(editor)) == wraps(*old(editor)),
        lines_of(*final(editor)) == seq![text@],
        is_on_first_line(*old(editor)) ==> is_on_first_line(*final(editor)),
        anchor_of(*old(editor)) is None ==> anchor_of(*final(editor)) is None,
{
    editor.with_buffer_mut(|b| b.set_text(fonts, text, &Attrs::new(), Shaping::Advanced));
}

/// `Edit::action` with a motion: the caret moves within the line, and nothing
/// else changes. A step goes by the direction of the text and by the characters
/// that belong together, which are Unicode's affair; printable ASCII runs from left
/// to right, and each of its characters stands for itself. Home and End go by the
/// first and the last glyph: where lines do not wrap and words are filled, these
/// are the two ends of printable ASCII. Of other text they depend on the fonts.
#[verifier::external_body]
fn move_caret(editor: &mut Editor<'static>, fonts: &mut FontSystem, motion: Motion)
    requires
        shapes(*old(fonts)),
        lines_of(*old(editor)).len() == 1,
        is_one_line(lines_of(*old(editor))[0]),
        is_on_first_line(*old(editor)),
    ensures
        still_shapes(*old(fonts), *final(fonts)),
        wraps(*final(editor)) == wraps(*old(editor)),
        lines_of(*final(editor)) == lines_of(*old(editor)),
        anchor_of(*final(editor)) == anchor_of(*old(editor)),
        motion == Motion::Home || motion == Motion::End ==> caret_of(*final(editor)) <= lines_of(
            *old(editor),
        )[0].len(),
        (motion == Motion::Left || motion == Motion::Right) && caret_of(*old(editor)) <= lines_of(
            *old(editor),
        )[0].len() ==> is_step(
            lines_of(*old(editor))[0],
            caret_of(*old(editor)),
            motion == Motion::Left,
            runs_left(lines_of(*old(editor))[0]),
            cluster_at(lines_of(*old(editor))[0], (caret_of(*old(editor)) - 1) as nat),
            cluster_at(lines_of(*old(editor))[0], caret_of(*old(editor))),
            caret_of(*final(editor)),
        ),
        !wraps(*old(editor)) && fills_words(*old(fonts)) && is_plain(lines_of(*old(editor))[0]) && (
        motion == Motion::Home || motion == Motion::End) ==> caret_of(*final(editor)) == (
        if motion == Motion::Home {
            0
        } else {
            lines_of(*old(editor))[0].len()
        }),
{
    let motion = match motion {
        Motion::Left => cosmic_text::Motion::Left,
        Motion::Right => cosmic_text::Motion::Right,
        Motion::Home => cosmic_text::Motion::Home,
        Motion::End => cosmic_text::Motion::End,
    };
    editor.action(fonts, cosmic_text::Action::Motion(motion));
}

/// `Edit::set_selection` with nothing: nothing is selected, and nothing else
/// changes.
#[verifier::external_body]
fn clear_selection(editor: &mut Editor<'static>)
    ensures
        wraps(*final(editor)) == wraps(*old(editor)),
        lines_of(*final(editor)) == lines_of(*old(editor)),
        caret_of(*final(editor)) == caret_of(*old(editor)),
        anchor_of(*final(editor)) is None,
{
    editor.set_selection(Selection::None);
}

/// `Edit::set_selection` with the caret: a selection begins at the caret, and
/// nothing else changes.
#[verifier::external_body]
fn anchor_here(editor: &mut Editor<'static>)
    requires
        is_ready(*old(editor)),
    ensures
        wraps(*final(editor)) == wraps(*old(editor)),
        lines_of(*final(editor)) == lines_of(*old(editor)),
        caret_of(*final(editor)) == caret_of(*old(editor)),
        anchor_of(*final(editor)) == Some(caret_of(*old(editor))),
{
    editor.set_selection(Selection::Normal(editor.cursor()));
}

/// A line without what is selected in it, and where the caret then is.
pub open spec fn erased(line: Seq<char>, caret: nat, anchor: Option<nat>) -> (Seq<char>, nat) {
    match anchor {
        Some(a) => {
            let (from, to) = span(caret, a);
            (line.take(from as int) + line.skip(to as int), from)
        },
        None => (line, caret),
    }
}

/// `Edit::delete_selection`: what is selected goes, and the caret takes its
/// place. Says whether anything was selected.
#[verifier::external_body]
fn delete_selection(editor: &mut Editor<'static>) -> (r: bool)
    requires
        is_ready(*old(editor)),
    ensures
        wraps(*final(editor)) == wraps(*old(editor)),
        r == (anchor_of(*old(editor)) is Some),
        lines_of(*final(editor)) == seq![
            erased(
                lines_of(*old(editor))[0],
                caret_of(*old(editor)),
                anchor_of(*old(editor)),
            ).0,
        ],
        caret_of(*final(editor)) == erased(
            lines_of(*old(editor))[0],
            caret_of(*old(editor)),
            anchor_of(*old(editor)),
        ).1,
        anchor_of(*final(editor)) is None,
{
    editor.delete_selection()
}

/// A text without its last character where that is a control character.
pub open spec fn without_last_control(text: Seq<char>) -> Seq<char> {
    if text.len() > 0 && is_control(text.last()) {
        text.drop_last()
    } else {
        text
    }
}

/// A line with a text put in place of what is selected, and where the caret then
/// is.
pub open spec fn inserted(
    line: Seq<char>,
    caret: nat,
    anchor: Option<nat>,
    text: Seq<char>,
) -> (Seq<char>, nat) {
    let (rest, at) = erased(line, caret, anchor);
    (rest.take(at as int) + text + rest.skip(at as int), at + text.len())
}

/// `Edit::insert_string`: a text without a line break takes the place of what is
/// selected, with the caret behind it. A control character at its very end is
/// left out.
#[verifier::external_body]
fn insert_string(editor: &mut Editor<'static>, text: &str)
    requires
        is_ready(*old(editor)),
        is_unbroken(text@),
    ensures
        wraps(*final(editor)) == wraps(*old(editor)),
        lines_of(*final(editor)) == seq![
            inserted(
                lines_of(*old(editor))[0],
                caret_of(*old(editor)),
                anchor_of(*old(editor)),
                without_last_control(text@),
            ).0,
        ],
        caret_of(*final(editor)) == inserted(
            lines_of(*old(editor))[0],
            caret_of(*old(editor)),
            anchor_of(*old(editor)),
            without_last_control(text@),
        ).1,
        anchor_of(*final(editor)) is None,
{
    editor.insert_string(text, None);
}

/// A line after a character was typed, and where the caret and the selection
/// then are. Control characters are not typed: a tab and U+0092 only take the
/// selection away, the others do nothing.
pub open spec fn typed_into(
    line: Seq<char>,
    caret: nat,
    anchor: Option<nat>,
    c: char,
) -> (Seq<char>, nat, Option<nat>) {
    if !is_control(c) {
        let (text, at) = inserted(line, caret, anchor, seq![c]);
        (text, at, None)
    } else if c == '\t' || c == '\u{92}' {
        let (text, at) = erased(line, caret, anchor);
        (text, at, None)
    } else {
        (line, caret, anchor)
    }
}

/// `Edit::action` with a character to insert, other than a line feed.
#[verifier::external_body]
fn type_char(editor: &mut Editor<'static>, fonts: &mut FontSystem, c: char)
    requires
        is_ready(*old(editor)),
        c != '\n',
        shapes(*old(fonts)),
    ensures
        still_shapes(*old(fonts), *final(fonts)),
        wraps(*final(editor)) == wraps(*old(editor)),
        lines_of(*final(editor)) == seq![
            typed_into(
                lines_of(*old(editor))[0],
                caret_of(*old(editor)),
                anchor_of(*old(editor)),
                c,
            ).0,
        ],
        caret_of(*final(editor)) == typed_into(
            lines_of(*old(editor))[0],
            caret_of(*old(editor)),
            anchor_of(*old(editor)),
            c,
        ).1,
        anchor_of(*final(editor)) == typed_into(
            lines_of(*old(editor))[0],
            caret_of(*old(editor)),
            anchor_of(*old(editor)),
            c,
        ).2,
{
    editor.action(fonts, cosmic_text::Action::Insert(c));
}

/// A line after a backspace, and where the caret then is: without what is
/// selected, or else without the character before the caret.
pub open spec fn backspaced(line: Seq<char>, caret: nat, anchor: Option<nat>) -> (Seq<char>, nat) {
    if anchor is Some {
        erased(line, caret, anchor)
    } else if caret > 0 {
        (line.take(caret - 1) + line.skip(caret as int), (caret - 1) as nat)
    } else {
        (line, caret)
    }
}

/// `Edit::action` with a backspace.
#[verifier::external_body]
fn backspace_key(editor: &mut Editor<'static>, fonts: &mut FontSystem)
    requires
        is_ready(*old(editor)),
        shapes(*old(fonts)),
    ensures
        still_shapes(*old(fonts), *final(fonts)),
        wraps(*final(editor)) == wraps(*old(editor)),
        lines_of(*final(editor)) == seq![
            backspaced(
                lines_of(*old(editor))[0],
                caret_of(*old(editor)),
                anchor_of(*old(editor)),
            ).0,
        ],
        caret_of(*final(editor)) == backspaced(
            lines_of(*old(editor))[0],
            caret_of(*old(editor)),
            anchor_of(*old(editor)),
        ).1,
        anchor_of(*final(editor)) is None,
{
    editor.action(fonts, cosmic_text::Action::Backspace);
}

/// A line after the delete key, and where the caret then is: without what is
/// selected, or else without the characters that belong together at the caret.
/// `cluster` is where those begin and end.
pub open spec fn deleted(
    line: Seq<char>,
    caret: nat,
    anchor: Option<nat>,
    cluster: (nat, nat),
) -> (Seq<char>, nat) {
    if anchor is Some {
        erased(line, caret, anchor)
    } else if caret < line.len() {
        (line.take(cluster.0 as int) + line.skip(cluster.1 as int), cluster.0)
    } else {
        (line, caret)
    }
}

/// Whether lines and a caret are what the delete key leaves.
pub open spec fn is_deletion(
    line: Seq<char>,
    caret: nat,
    anchor: Option<nat>,
    cluster: (nat, nat),
    lines: Seq<Seq<char>>,
    at: nat,
) -> bool {
    &&& lines == seq![deleted(line, caret, anchor, cluster).0]
    &&& at == deleted(line, caret, anchor, cluster).1
    &&& caret < line.len() ==> cluster.0 <= caret < cluster.1 <= line.len()
}

/// `Edit::action` with a delete. Which characters belong together is Unicode's
/// affair; those at the caret include the one behind it.
#[verifier::external_body]
fn delete_key(editor: &mut Editor<'static>, fonts: &mut FontSystem)
    requires
        is_ready(*old(editor)),
        shapes(*old(fonts)),
    ensures
        still_shapes(*old(fonts), *final(fonts)),
        wraps(*final(editor)) == wraps(*old(editor)),
        is_deletion(
            lines_of(*old(editor))[0],
            caret_of(*old(editor)),
            anchor_of(*old(editor)),
            cluster_at(lines_of(*old(editor))[0], caret_of(*old(editor))),
            lines_of(*final(editor)),
            caret_of(*final(editor)),
        ),
        anchor_of(*final(editor)) is None,
{
    editor.action(fonts, cosmic_text::Action::Delete);
}

/// `Edit::copy_selection`: what is selected.
#[verifier::external_body]
fn copy_selection(editor: &Editor<'static>) -> (r: Option<String>)
    requires
        is_ready(*editor),
    ensures
        opt(r) == selected_text(
            lines_of(*editor)[0],
            caret_of(*editor),
            anchor_of(*editor),
        ),
{
    editor.copy_selection()
}

/// What is selected of a line.
pub open spec fn selected_text(line: Seq<char>, caret: nat, anchor: Option<nat>) -> Option<
    Seq<char>,
> {
    match anchor {
        Some(a) => {
            let (from, to) = span(caret, a);
            Some(line.subrange(from as int, to as int))
        },
        None => None,
    }
}

/// `Edit::shape_as_needed`: the text is shaped; what it is does not change.
#[verifier::external_body]
fn shape(editor: &mut Editor<'static>, fonts: &mut FontSystem)
    requires
        is_ready(*old(editor)),
        is_one_line(lines_of(*old(editor))[0]),
        shapes(*old(fonts)),
    ensures
        still_shapes(*old(fonts), *final(fonts)),
        wraps(*final(editor)) == wraps(*old(editor)),
        lines_of(*final(editor)) == lines_of(*old(editor)),
        caret_of(*final(editor)) == caret_of(*old(editor)),
        anchor_of(*final(editor)) == anchor_of(*old(editor)),
{
    editor.shape_as_needed(fonts, false);
}

/// `Edit::action` with a click at a distance from the text's start: the caret
/// goes to the place under it (`Buffer::hit`), which is in the line, and nothing is
/// selected. The layout stays, and with it the places under other distances. Which
/// place is under a distance is up to the widths of the glyphs.
#[verifier::external_body]
fn click_at(editor: &mut Editor<'static>, fonts: &mut FontSystem, x: i32)
    requires
        is_ready(*old(editor)),
        shapes(*old(fonts)),
    ensures
        still_shapes(*old(fonts), *final(fonts)),
        wraps(*final(editor)) == wraps(*old(editor)),
        lines_of(*final(editor)) == lines_of(*old(editor)),
        caret_of(*final(editor)) == place_under(*old(editor), x),
        caret_of(*final(editor)) <= lines_of(*old(editor))[0].len(),
        forall|y: i32| #[trigger]
            place_under(*final(editor), y) == place_under(*old(editor), y),
        anchor_of(*final(editor)) is None,
{
    editor.action(fonts, cosmic_text::Action::Click { x, y: 0 });
}

/// `Edit::action` with a drag to a distance from the text's start: the caret
/// goes to the place under it (`Buffer::hit`), which is in the line, and the
/// selection reaches to it from where it began, or from where the caret was. The
/// layout stays, and with it the places under other distances.
#[verifier::external_body]
fn drag_to(editor: &mut Editor<'static>, fonts: &mut FontSystem, x: i32)
    requires
        is_ready(*old(editor)),
        shapes(*old(fonts)),
    ensures
        still_shapes(*old(fonts), *final(fonts)),
        wraps(*final(editor)) == wraps(*old(editor)),
        lines_of(*final(editor)) == lines_of(*old(editor)),
        caret_of(*final(editor)) == place_under(*old(editor), x),
        caret_of(*final(editor)) <= lines_of(*old(editor))[0].len(),
        forall|y: i32| #[trigger]
            place_under(*final(editor), y) == place_under(*old(editor), y),
        anchor_of(*final(editor)) == Some(
            match anchor_of(*old(editor)) {
                Some(a) => a,
                None => caret_of(*old(editor)),
            },
        ),
{
    editor.action(fonts, cosmic_text::Action::Drag { x, y: 0 });
}

/// Whether a face is a last resort.
fn is_last_resort(fonts: &FontSystem, at: usize) -> (r: bool)
    requires
        at < families_of(*fonts).len(),
    ensures
        r == !is_spared(families_of(*fonts)[at as int], set![LAST_RESORT@]),
{
    let names: Vec<String> = family_names(fonts, at);
    let ghost families = families_of(*fonts)[at as int];
    let mut i: usize = 0;
    while i < names.len()
        invariant
            i <= names@.len(),
            deep(names@) == families,
            families == families_of(*fonts)[at as int],
            forall|k: int| 0 <= k < i ==> #[trigger] families[k] != LAST_RESORT@,
        decreases names@.len() - i,
    {
        assert(families[i as int] == names@[i as int]@);
        if same(names[i].as_str(), LAST_RESORT) {
            assert(set![LAST_RESORT@].contains(families[i as int]));
            return true;
        }
        i = i + 1;
    }
    false
}

/// The fonts of the machine. None but last resorts are forbidden of them.
pub fn system_fonts() -> (r: FontSystem)
    ensures
        forbidden_of(r).subset_of(set![LAST_RESORT@]),
{
    new_fonts()
}

/// Decides whether text can be shaped with these fonts: whether one of the faces
/// fits plain text, can be read and is no last resort. Faces are read up to the first such
/// one. Where nothing but last resorts is forbidden, shaping then finds a font;
/// without any, no field can be made.
pub fn can_shape(fonts: &mut FontSystem) -> (r: bool)
    ensures
        families_of(*final(fonts)) == families_of(*old(fonts)),
        forbidden_of(*final(fonts)) == forbidden_of(*old(fonts)),
        fits_of(*final(fonts)) == fits_of(*old(fonts)),
        fills_words(*final(fonts)) == fills_words(*old(fonts)),
        read_of(*final(fonts)).len() == families_of(*final(fonts)).len(),
        forall|i: int|
            0 <= i < read_of(*old(fonts)).len() && read_of(*old(fonts))[i] is Some
                ==> #[trigger] read_of(*final(fonts))[i] == read_of(*old(fonts))[i],
        r == exists|i: int|
            0 <= i < families_of(*final(fonts)).len() && #[trigger] is_usable(*final(fonts), i),
        r && forbidden_of(*old(fonts)).subset_of(set![LAST_RESORT@]) ==> shapes(*final(fonts)),
{
    let count: usize = face_count(fonts);
    let mut at: usize = 0;
    while at < count
        invariant
            at <= count,
            count == families_of(*fonts).len(),
            count == fits_of(*fonts).len(),
            count == read_of(*fonts).len(),
            families_of(*fonts) == families_of(*old(fonts)),
            fits_of(*fonts) == fits_of(*old(fonts)),
            fills_words(*fonts) == fills_words(*old(fonts)),
            forbidden_of(*fonts) == forbidden_of(*old(fonts)),
            read_of(*old(fonts)).len() == count,
            forall|i: int|
                0 <= i < count && read_of(*old(fonts))[i] is Some ==> #[trigger] read_of(
                    *fonts,
                )[i] == read_of(*old(fonts))[i],
            forall|i: int| 0 <= i < at ==> !#[trigger] is_usable(*fonts, i),
        decreases count - at,
    {
        let ghost earlier = *fonts;
        let spared: bool = !is_last_resort(fonts, at);
        let fits: bool = face_fits(fonts, at);
        if fits && spared && face_reads(fonts, at) {
            assert(is_usable(*fonts, at as int));
            return true;
        }
        assert forall|i: int| 0 <= i < at + 1 implies !#[trigger] is_usable(*fonts, i) by {
            if i < at {
                assert(!is_usable(earlier, i));
            }
        }
        at = at + 1;
    }
    false
}

// ---------------------------------------------------------------------------
// Fields
// ---------------------------------------------------------------------------

/// A text without its line breaks.
pub open spec fn unbroken(text: Seq<char>) -> Seq<char>
    decreases text.len(),
{
    if text.len() == 0 {
        text
    } else if text.last() == '\n' || text.last() == '\r' {
        unbroken(text.drop_last())
    } else {
        unbroken(text.drop_last()).push(text.last())
    }
}

/// Nothing is left of the line breaks, and a text without any stays as it is.
pub proof fn lemma_unbroken_has_no_break(text: Seq<char>)
    ensures
        is_unbroken(unbroken(text)),
        is_unbroken(text) ==> unbroken(text) == text,
    decreases text.len(),
{
    if text.len() > 0 {
        let rest = text.drop_last();
        lemma_unbroken_has_no_break(rest);
        assert forall|i: int| 0 <= i < unbroken(text).len() implies !is_break(
            #[trigger] unbroken(text)[i],
        ) by {
            if i < unbroken(rest).len() {
                assert(unbroken(text)[i] == unbroken(rest)[i]);
            }
        }
        if is_unbroken(text) {
            assert(!is_break(text[text.len() - 1]));
            assert(is_unbroken(rest)) by {
                assert forall|i: int| 0 <= i < rest.len() implies !is_break(
                    #[trigger] rest[i],
                ) by {
                    assert(rest[i] == text[i]);
                }
            }
            assert(rest.push(text.last()) =~= text);
        }
    }
}

/// A text without its line breaks.
pub fn strip_newlines(text: &str) -> (r: String)
    ensures
        r@ == unbroken(text@),
{
    let chars: Vec<char> = chars_of(text);
    let mut out: Vec<char> = Vec::new();
    let mut i: usize = 0;
    assert(out@ =~= unbroken(chars@.take(0)));
    while i < chars.len()
        invariant
            i <= chars@.len(),
            out@ == unbroken(chars@.take(i as int)),
        decreases chars@.len() - i,
    {
        let c: char = chars[i];
        assert(chars@.take(i + 1).drop_last() =~= chars@.take(i as int));
        assert(chars@.take(i + 1).last() == c);
        if c != '\n' && c != '\r' {
            out.push(c);
        }
        i = i + 1;
    }
    assert(chars@.take(i as int) =~= chars@);
    string_of(out.as_slice())
}

/// How many characters of a kind a text has.
pub open spec fn tally(text: Seq<char>, turns: bool) -> nat
    decreases text.len(),
{
    if text.len() == 0 {
        0
    } else {
        tally(text.drop_last(), turns) + if is_marked(text.last(), turns) {
            1nat
        } else {
            0nat
        }
    }
}

proof fn lemma_tally_bounds(text: Seq<char>, turns: bool)
    ensures
        tally(text, turns) <= text.len(),
        tally(text, turns) == 0 <==> is_free_of(text, turns),
    decreases text.len(),
{
    if text.len() > 0 {
        let rest = text.drop_last();
        lemma_tally_bounds(rest, turns);
        if is_free_of(text, turns) {
            assert(!is_marked(text[text.len() - 1], turns));
            assert forall|i: int| 0 <= i < rest.len() implies !is_marked(
                #[trigger] rest[i],
                turns,
            ) by {
                assert(rest[i] == text[i]);
            }
        }
        if tally(text, turns) == 0 {
            assert forall|i: int| 0 <= i < text.len() implies !is_marked(
                #[trigger] text[i],
                turns,
            ) by {
                if i < rest.len() {
                    assert(rest[i] == text[i]);
                }
            }
        }
    }
}

proof fn lemma_tally_add(a: Seq<char>, b: Seq<char>, turns: bool)
    ensures
        tally(a + b, turns) == tally(a, turns) + tally(b, turns),
    decreases b.len(),
{
    if b.len() == 0 {
        assert(a + b =~= a);
    } else {
        assert((a + b).drop_last() =~= a + b.drop_last());
        lemma_tally_add(a, b.drop_last(), turns);
    }
}

/// What is put in place of a selection counts instead of it.
proof fn lemma_tally_inserted(
    line: Seq<char>,
    caret: nat,
    anchor: Option<nat>,
    text: Seq<char>,
    turns: bool,
)
    requires
        caret <= line.len(),
        anchor matches Some(a) ==> a <= line.len(),
    ensures
        tally(inserted(line, caret, anchor, text).0, turns) + (match selected_text(
            line,
            caret,
            anchor,
        ) {
            Some(taken) => tally(taken, turns),
            None => 0,
        }) == tally(line, turns) + tally(text, turns),
        selected_text(line, caret, anchor) matches Some(taken) ==> tally(taken, turns) <= tally(
            line,
            turns,
        ),
{
    let (rest, at) = erased(line, caret, anchor);
    let head = rest.take(at as int);
    let tail = rest.skip(at as int);
    lemma_tally_add(head + text, tail, turns);
    lemma_tally_add(head, text, turns);
    match anchor {
        Some(a) => {
            let (from, to) = span(caret, a);
            let taken = line.subrange(from as int, to as int);
            assert(head =~= line.take(from as int));
            assert(tail =~= line.skip(to as int));
            assert(line =~= head + taken + tail);
            lemma_tally_add(head + taken, tail, turns);
            lemma_tally_add(head, taken, turns);
        },
        None => {
            assert(line =~= head + tail);
            lemma_tally_add(head, tail, turns);
        },
    }
}

fn control(c: char) -> (r: bool)
    ensures
        r == is_control(c),
{
    c <= '\u{1f}' || ('\u{7f}' <= c && c <= '\u{9f}')
}

fn counts(c: char, turns: bool) -> (r: bool)
    ensures
        r == is_marked(c, turns),
{
    if turns {
        ('\u{590}' <= c && c <= '\u{8ff}') || c == '\u{200f}' || ('\u{fb1d}' <= c && c
            <= '\u{fdff}') || ('\u{fe70}' <= c && c <= '\u{feff}') || ('\u{10800}' <= c && c
            <= '\u{10fff}') || ('\u{1e800}' <= c && c <= '\u{1efff}')
    } else {
        ('\u{1c}' <= c && c <= '\u{1e}') || c == '\u{85}' || c == '\u{2029}'
    }
}

/// How many characters of a kind a text has.
fn count(text: &str, turns: bool) -> (r: usize)
    ensures
        r == tally(text@, turns),
{
    let chars: Vec<char> = chars_of(text);
    let mut n: usize = 0;
    let mut i: usize = 0;
    assert(chars@.take(0) =~= Seq::<char>::empty());
    while i < chars.len()
        invariant
            i <= chars@.len(),
            n <= i,
            n == tally(chars@.take(i as int), turns),
        decreases chars@.len() - i,
    {
        assert(chars@.take(i + 1).drop_last() =~= chars@.take(i as int));
        if counts(chars[i], turns) {
            n = n + 1;
        }
        i = i + 1;
    }
    assert(chars@.take(i as int) =~= chars@);
    n
}

/// Decides whether a text, without its line breaks, is one line.
pub fn fits_line(text: &str) -> (r: bool)
    ensures
        r == is_one_line(unbroken(text@)),
{
    let clean: String = strip_newlines(text);
    proof {
        lemma_unbroken_has_no_break(text@);
        lemma_tally_bounds(clean@, false);
        lemma_tally_bounds(clean@, true);
    }
    count(clean.as_str(), false) == 0 || count(clean.as_str(), true) == 0
}

/// The font size of a field.
pub const FONT_SIZE: u8 = 16;

/// The line height of a field.
pub const LINE_HEIGHT: u8 = 20;

/// A text field.
pub struct InputState {
    pub editor: Editor<'static>,
    pub placeholder: String,
    pub focused: bool,
}

/// The value of an `InputState`.
#[verifier::ext_equal]
pub struct InputView {
    pub text: Seq<char>,
    pub caret: nat,
    pub anchor: Option<nat>,
    pub placeholder: Seq<char>,
    pub focused: bool,
}

impl View for InputState {
    type V = InputView;

    open spec fn view(&self) -> InputView {
        InputView {
            text: lines_of(self.editor)[0],
            caret: caret_of(self.editor),
            anchor: anchor_of(self.editor),
            placeholder: self.placeholder@,
            focused: self.focused,
        }
    }
}

/// Whether a field stays one line when a text is pasted into it.
pub open spec fn takes(f: InputView, text: Seq<char>) -> bool {
    is_one_line(inserted(f.text, f.caret, f.anchor, without_last_control(unbroken(text))).0)
}

/// Whether a field stays one line when a character is typed into it.
pub open spec fn takes_char(f: InputView, c: char) -> bool {
    is_break(c) || is_one_line(typed_into(f.text, f.caret, f.anchor, c).0)
}

/// A field after a click that leads to a place.
pub open spec fn clicked(f: InputView, place: nat) -> InputView {
    InputView { caret: place, anchor: None, ..f }
}

/// A field after a drag that leads to a place.
pub open spec fn dragged(f: InputView, place: nat) -> InputView {
    InputView {
        caret: place,
        anchor: Some(
            match f.anchor {
                Some(a) => a,
                None => f.caret,
            },
        ),
        ..f
    }
}

/// A field with another text, caret and selection.
pub open spec fn edited(
    f: InputView,
    text: Seq<char>,
    caret: nat,
    anchor: Option<nat>,
) -> InputView {
    InputView { text, caret, anchor, ..f }
}

impl InputState {
    /// A field holds one line without a break in it, which does not wrap, and its
    /// caret and selection are within it.
    pub open spec fn wf(self) -> bool {
        is_ready(self.editor) && is_one_line(lines_of(self.editor)[0]) && !wraps(self.editor)
    }

    /// An empty field.
    pub fn new(fonts: &mut FontSystem) -> (r: InputState)
        requires
            shapes(*old(fonts)),
        ensures
            r.wf(),
            still_shapes(*old(fonts), *final(fonts)),
            r@ == (InputView {
                text: ""@,
                caret: 0,
                anchor: None,
                placeholder: ""@,
                focused: false,
            }),
    {
        proof {
            reveal_strlit("");
        }
        let buffer: Buffer = new_buffer(fonts, FONT_SIZE, LINE_HEIGHT);
        let mut editor: Editor<'static> = new_editor(buffer);
        assert(is_one_line(""@));
        set_text(&mut editor, fonts, "");
        stop_wrapping(&mut editor, fonts);
        move_caret(&mut editor, fonts, Motion::End);
        let r: InputState = InputState { editor, placeholder: owned(""), focused: false };
        assert(r@.text =~= ""@);
        assert(r@ =~= (InputView {
            text: ""@,
            caret: 0,
            anchor: None,
            placeholder: ""@,
            focused: false,
        }));
        r
    }

    /// The field with a text to show while it is empty.
    pub fn placeholder(self, placeholder: &str) -> (r: InputState)
        requires
            self.wf(),
        ensures
            r.wf(),
            r@ == (InputView { placeholder: placeholder@, ..self@ }),
    {
        InputState { editor: self.editor, placeholder: owned(placeholder), focused: self.focused }
    }

    pub fn focused(&self) -> (r: bool)
        ensures
            r == self@.focused,
    {
        self.focused
    }

    /// Gives the field the caret, or takes it away, and with it the selection.
    pub fn set_focused(&mut self, focused: bool)
        requires
            old(self).wf(),
        ensures
            final(self).wf(),
            final(self)@ == (InputView {
                focused,
                anchor: if focused {
                    old(self)@.anchor
                } else {
                    None
                },
                ..old(self)@
            }),
    {
        self.focused = focused;
        if !focused {
            clear_selection(&mut self.editor);
        }
    }

    /// The field's text.
    pub fn value(&self) -> (r: String)
        requires
            self.wf(),
        ensures
            r@ == self@.text,
            is_one_line(r@),
    {
        first_line(&self.editor)
    }

    /// Replaces the field's text. Line breaks are left out. The caret goes to where
    /// End leads: behind the text, where that is printable ASCII and the fonts fill
    /// its words.
    pub fn set_value(&mut self, fonts: &mut FontSystem, value: &str)
        requires
            old(self).wf(),
            shapes(*old(fonts)),
            is_one_line(unbroken(value@)),
        ensures
            final(self).wf(),
            still_shapes(*old(fonts), *final(fonts)),
            final(self)@ == edited(
                old(self)@,
                unbroken(value@),
                final(self)@.caret,
                None,
            ),
            fills_words(*old(fonts)) && is_plain(unbroken(value@)) ==> final(self)@.caret
                == unbroken(value@).len(),
    {
        let clean: String = strip_newlines(value);
        set_text(&mut self.editor, fonts, clean.as_str());
        move_caret(&mut self.editor, fonts, Motion::End);
        clear_selection(&mut self.editor);
        assert(self@ =~= edited(old(self)@, unbroken(value@), self@.caret, None));
    }

    /// Decides whether the field stays one line when a text without line breaks
    /// takes the place of what is selected.
    fn takes_in(&self, added: &str) -> (r: bool)
        requires
            self.wf(),
            is_unbroken(added@),
        ensures
            r == is_one_line(inserted(self@.text, self@.caret, self@.anchor, added@).0),
    {
        let value: String = first_line(&self.editor);
        let taken: String = match copy_selection(&self.editor) {
            Some(t) => t,
            None => String::new(),
        };
        let ghost whole = inserted(self@.text, self@.caret, self@.anchor, added@).0;
        proof {
            lemma_inserted_stays_unbroken(self@.text, self@.caret, self@.anchor, added@);
            lemma_tally_inserted(self@.text, self@.caret, self@.anchor, added@, false);
            lemma_tally_inserted(self@.text, self@.caret, self@.anchor, added@, true);
            lemma_tally_bounds(whole, false);
            lemma_tally_bounds(whole, true);
        }
        assert(tally(Seq::<char>::empty(), false) == 0 && tally(Seq::<char>::empty(), true) == 0);
        let ends: bool = count(value.as_str(), false) > count(taken.as_str(), false) || count(
            added,
            false,
        ) > 0;
        let turns: bool = count(value.as_str(), true) > count(taken.as_str(), true) || count(
            added,
            true,
        ) > 0;
        !ends || !turns
    }

    /// Decides whether a text can be pasted: whether the field stays one line.
    pub fn accepts(&self, text: &str) -> (r: bool)
        requires
            self.wf(),
        ensures
            r == takes(self@, text@),
    {
        let clean: String = strip_newlines(text);
        proof {
            lemma_unbroken_has_no_break(text@);
        }
        let chars: Vec<char> = chars_of(clean.as_str());
        let n: usize = chars.len();
        if n > 0 && control(chars[n - 1]) {
            let shorter: String = string_range(&chars, 0, n - 1);
            assert(shorter@ =~= without_last_control(clean@));
            self.takes_in(shorter.as_str())
        } else {
            self.takes_in(clean.as_str())
        }
    }

    /// Decides whether a character can be typed: whether the field stays one line.
    pub fn accepts_char(&self, c: char) -> (r: bool)
        requires
            self.wf(),
        ensures
            r == takes_char(self@, c),
    {
        proof {
            lemma_erased_stays_one_line(self@.text, self@.caret, self@.anchor);
        }
        if c == '\n' || c == '\r' || control(c) {
            return true;
        }
        let mut one: String = String::new();
        one.push(c);
        assert(one@ =~= seq![c]);
        self.takes_in(one.as_str())
    }

    /// Types a character. Line breaks are left out.
    pub fn insert_char(&mut self, fonts: &mut FontSystem, c: char)
        requires
            old(self).wf(),
            shapes(*old(fonts)),
            takes_char(old(self)@, c),
        ensures
            final(self).wf(),
            still_shapes(*old(fonts), *final(fonts)),
            final(self)@ == (if c == '\n' || c == '\r' {
                old(self)@
            } else {
                let t = typed_into(old(self)@.text, old(self)@.caret, old(self)@.anchor, c);
                edited(old(self)@, t.0, t.1, t.2)
            }),
    {
        if c == '\n' || c == '\r' {
            return ;
        }
        proof {
            lemma_typed_stays_in_line(self@.text, self@.caret, self@.anchor, c);
        }
        type_char(&mut self.editor, fonts, c);
        assert(self@ =~= {
            let t = typed_into(old(self)@.text, old(self)@.caret, old(self)@.anchor, c);
            edited(old(self)@, t.0, t.1, t.2)
        });
    }

    pub fn backspace(&mut self, fonts: &mut FontSystem)
        requires
            old(self).wf(),
            shapes(*old(fonts)),
        ensures
            final(self).wf(),
            still_shapes(*old(fonts), *final(fonts)),
            ({
                let b = backspaced(old(self)@.text, old(self)@.caret, old(self)@.anchor);
                final(self)@ == edited(old(self)@, b.0, b.1, None)
            }),
    {
        proof {
            let text = self@.text;
            let caret = self@.caret;
            lemma_erased_stays_one_line(text, caret, self@.anchor);
            lemma_cut_stays_one_line(text, caret - 1, caret as int);
        }
        backspace_key(&mut self.editor, fonts);
    }

    pub fn delete(&mut self, fonts: &mut FontSystem)
        requires
            old(self).wf(),
            shapes(*old(fonts)),
        ensures
            final(self).wf(),
            still_shapes(*old(fonts), *final(fonts)),
            ({
                let d = deleted(
                    old(self)@.text,
                    old(self)@.caret,
                    old(self)@.anchor,
                    cluster_at(old(self)@.text, old(self)@.caret),
                );
                final(self)@ == edited(old(self)@, d.0, d.1, None)
            }),
            ({
                let cluster = cluster_at(old(self)@.text, old(self)@.caret);
                old(self)@.caret < old(self)@.text.len() ==> cluster.0 <= old(self)@.caret
                    < cluster.1 <= old(self)@.text.len()
            }),
    {
        proof {
            let text = self@.text;
            let cluster = cluster_at(text, self@.caret);
            lemma_erased_stays_one_line(text, self@.caret, self@.anchor);
            lemma_cut_stays_one_line(text, cluster.0 as int, cluster.1 as int);
        }
        delete_key(&mut self.editor, fonts);
    }

    /// Moves the caret. What is selected reaches to it. A step goes over the
    /// characters that belong together; Home and End lead to the two ends of
    /// printable ASCII where the fonts fill its words.
    pub fn motion(&mut self, fonts: &mut FontSystem, motion: Motion)
        requires
            old(self).wf(),
            shapes(*old(fonts)),
        ensures
            final(self).wf(),
            still_shapes(*old(fonts), *final(fonts)),
            final(self)@ == (InputView { caret: final(self)@.caret, ..old(self)@ }),
            motion == Motion::Left || motion == Motion::Right ==> is_step(
                old(self)@.text,
                old(self)@.caret,
                motion == Motion::Left,
                runs_left(old(self)@.text),
                cluster_at(old(self)@.text, (old(self)@.caret - 1) as nat),
                cluster_at(old(self)@.text, old(self)@.caret),
                final(self)@.caret,
            ),
            fills_words(*old(fonts)) && is_plain(old(self)@.text) ==> final(self)@.caret
                == plain_motion(old(self)@.text, old(self)@.caret, motion),
    {
        move_caret(&mut self.editor, fonts, motion);
    }

    /// Places the caret from a click at a distance from the text's start. What is
    /// under other distances stays.
    pub fn click(&mut self, fonts: &mut FontSystem, x: i32)
        requires
            old(self).wf(),
            shapes(*old(fonts)),
        ensures
            final(self).wf(),
            still_shapes(*old(fonts), *final(fonts)),
            final(self)@ == clicked(old(self)@, place_under(old(self).editor, x)),
            forall|y: i32| #[trigger]
                place_under(final(self).editor, y) == place_under(old(self).editor, y),
    {
        click_at(&mut self.editor, fonts, x);
    }

    /// Extends the selection to a distance from the text's start. What is under other
    /// distances stays.
    pub fn drag(&mut self, fonts: &mut FontSystem, x: i32)
        requires
            old(self).wf(),
            shapes(*old(fonts)),
        ensures
            final(self).wf(),
            still_shapes(*old(fonts), *final(fonts)),
            final(self)@ == dragged(old(self)@, place_under(old(self).editor, x)),
            forall|y: i32| #[trigger]
                place_under(final(self).editor, y) == place_under(old(self).editor, y),
    {
        drag_to(&mut self.editor, fonts, x);
    }

    /// Selects from where Home leads to where End does: everything, where that is
    /// printable ASCII and the fonts fill its words.
    pub fn select_all(&mut self, fonts: &mut FontSystem)
        requires
            old(self).wf(),
            shapes(*old(fonts)),
        ensures
            final(self).wf(),
            still_shapes(*old(fonts), *final(fonts)),
            final(self)@.anchor is Some,
            final(self)@ == (InputView {
                caret: final(self)@.caret,
                anchor: final(self)@.anchor,
                ..old(self)@
            }),
            fills_words(*old(fonts)) && is_plain(old(self)@.text) ==> final(self)@ == edited(
                old(self)@,
                old(self)@.text,
                old(self)@.text.len(),
                Some(0),
            ),
    {
        move_caret(&mut self.editor, fonts, Motion::Home);
        anchor_here(&mut self.editor);
        move_caret(&mut self.editor, fonts, Motion::End);
    }

    /// What is selected.
    pub fn copy(&self) -> (r: Option<String>)
        requires
            self.wf(),
        ensures
            opt(r) == selected_text(self@.text, self@.caret, self@.anchor),
    {
        copy_selection(&self.editor)
    }

    /// Whether the selection spans any text: an empty one has no span.
    pub fn has_span(&self) -> (r: bool)
        requires
            self.wf(),
        ensures
            r == (self@.anchor matches Some(a) && a != self@.caret),
    {
        match copy_selection(&self.editor) {
            Some(text) => !text.as_str().is_empty(),
            None => false,
        }
    }

    /// Puts a text in place of what is selected. Line breaks are left out.
    pub fn paste(&mut self, fonts: &mut FontSystem, text: &str)
        requires
            old(self).wf(),
            shapes(*old(fonts)),
            takes(old(self)@, text@),
        ensures
            final(self).wf(),
            still_shapes(*old(fonts), *final(fonts)),
            ({
                let p = inserted(
                    old(self)@.text,
                    old(self)@.caret,
                    old(self)@.anchor,
                    without_last_control(unbroken(text@)),
                );
                final(self)@ == edited(old(self)@, p.0, p.1, None)
            }),
    {
        let clean: String = strip_newlines(text);
        proof {
            lemma_erased_stays_one_line(self@.text, self@.caret, self@.anchor);
            lemma_unbroken_has_no_break(text@);
        }
        let ghost before = self@;
        delete_selection(&mut self.editor);
        insert_string(&mut self.editor, clean.as_str());
        shape(&mut self.editor, fonts);
        assert(self@ =~= {
            let p = inserted(
                before.text,
                before.caret,
                before.anchor,
                without_last_control(unbroken(text@)),
            );
            edited(before, p.0, p.1, None)
        });
    }

    /// Takes out what is selected.
    pub fn cut(&mut self, fonts: &mut FontSystem) -> (r: Option<String>)
        requires
            old(self).wf(),
            shapes(*old(fonts)),
        ensures
            final(self).wf(),
            still_shapes(*old(fonts), *final(fonts)),
            opt(r) == selected_text(old(self)@.text, old(self)@.caret, old(self)@.anchor),
            ({
                let e = erased(old(self)@.text, old(self)@.caret, old(self)@.anchor);
                final(self)@ == edited(old(self)@, e.0, e.1, None)
            }),
    {
        proof {
            lemma_erased_stays_one_line(self@.text, self@.caret, self@.anchor);
        }
        let copied: Option<String> = copy_selection(&self.editor);
        if delete_selection(&mut self.editor) {
            shape(&mut self.editor, fonts);
        }
        copied
    }

    /// What the field shows: its text, or else the text for an empty one; and
    /// whether it is the latter.
    pub fn shown(&self) -> (r: (String, bool))
        requires
            self.wf(),
        ensures
            r.1 == (self@.text.len() == 0),
            r.0@ == (if self@.text.len() == 0 {
                self@.placeholder
            } else {
                self@.text
            }),
    {
        let value: String = self.value();
        if value.as_str().is_empty() {
            (owned(self.placeholder.as_str()), true)
        } else {
            (value, false)
        }
    }
}

// ---------------------------------------------------------------------------
// Laws
// ---------------------------------------------------------------------------

/// What has no other characters than a line is one line too.
proof fn lemma_part_is_one_line(line: Seq<char>, part: Seq<char>)
    requires
        is_one_line(line),
        forall|i: int| 0 <= i < part.len() ==> line.contains(#[trigger] part[i]),
    ensures
        is_one_line(part),
{
    assert forall|i: int| 0 <= i < part.len() implies !is_break(#[trigger] part[i]) by {
        let k = choose|k: int| 0 <= k < line.len() && line[k] == part[i];
        assert(!is_break(line[k]));
    }
    let turns = !is_free_of(line, false);
    assert(is_free_of(line, turns));
    assert forall|i: int| 0 <= i < part.len() implies !is_marked(#[trigger] part[i], turns) by {
        let k = choose|k: int| 0 <= k < line.len() && line[k] == part[i];
        assert(!is_marked(line[k], turns));
    }
    assert(is_free_of(part, turns));
}

proof fn lemma_cut_stays_one_line(line: Seq<char>, from: int, to: int)
    requires
        is_one_line(line),
    ensures
        0 <= from <= to <= line.len() ==> is_one_line(line.take(from) + line.skip(to)),
{
    if 0 <= from <= to <= line.len() {
        let r = line.take(from) + line.skip(to);
        assert forall|i: int| 0 <= i < r.len() implies line.contains(#[trigger] r[i]) by {
            if i < from {
                assert(r[i] == line[i]);
            } else {
                assert(r[i] == line[i - from + to]);
            }
        }
        lemma_part_is_one_line(line, r);
    }
}

proof fn lemma_erased_stays_one_line(line: Seq<char>, caret: nat, anchor: Option<nat>)
    requires
        is_one_line(line),
        caret <= line.len(),
        anchor matches Some(a) ==> a <= line.len(),
    ensures
        is_one_line(erased(line, caret, anchor).0),
        erased(line, caret, anchor).1 <= erased(line, caret, anchor).0.len(),
{
    match anchor {
        Some(a) => {
            let (from, to) = span(caret, a);
            lemma_cut_stays_one_line(line, from as int, to as int);
        },
        None => {},
    }
}

proof fn lemma_inserted_stays_unbroken(
    line: Seq<char>,
    caret: nat,
    anchor: Option<nat>,
    text: Seq<char>,
)
    requires
        is_one_line(line),
        caret <= line.len(),
        anchor matches Some(a) ==> a <= line.len(),
        is_unbroken(text),
    ensures
        is_unbroken(inserted(line, caret, anchor, text).0),
{
    lemma_erased_stays_one_line(line, caret, anchor);
    let (rest, at) = erased(line, caret, anchor);
    let r = rest.take(at as int) + text + rest.skip(at as int);
    assert forall|i: int| 0 <= i < r.len() implies !is_break(#[trigger] r[i]) by {
        if i < at {
            assert(r[i] == rest[i]);
        } else if i < at + text.len() {
            assert(r[i] == text[i - at]);
        } else {
            assert(r[i] == rest[i - text.len()]);
        }
    }
}

proof fn lemma_typed_stays_in_line(line: Seq<char>, caret: nat, anchor: Option<nat>, c: char)
    requires
        is_one_line(line),
        caret <= line.len(),
        anchor matches Some(a) ==> a <= line.len(),
    ensures
        typed_into(line, caret, anchor, c).1 <= typed_into(line, caret, anchor, c).0.len(),
        typed_into(line, caret, anchor, c).2 matches Some(a) ==> a <= typed_into(
            line,
            caret,
            anchor,
            c,
        ).0.len(),
{
    lemma_erased_stays_one_line(line, caret, anchor);
}

/// Without an end of a paragraph in it, a text can be pasted into any field that has
/// none; and so can any text into a field where nothing runs from right to left,
/// unless something in the text does.
pub proof fn lemma_ordinary_text_is_taken(f: InputView, text: Seq<char>, turns: bool)
    requires
        is_one_line(f.text),
        f.caret <= f.text.len(),
        f.anchor matches Some(a) ==> a <= f.text.len(),
        is_free_of(f.text, turns),
        is_free_of(text, turns),
    ensures
        takes(f, text),
{
    let clean = unbroken(text);
    let added = without_last_control(clean);
    lemma_unbroken_has_no_break(text);
    lemma_unbroken_is_part(text);
    assert forall|i: int| 0 <= i < added.len() implies !is_marked(#[trigger] added[i], turns)
        && !is_break(added[i]) by {
        assert(added[i] == clean[i]);
        assert(!is_break(clean[i]));
        let k = choose|k: int| 0 <= k < text.len() && text[k] == clean[i];
        assert(!is_marked(text[k], turns));
    }
    lemma_inserted_stays_unbroken(f.text, f.caret, f.anchor, added);
    lemma_tally_inserted(f.text, f.caret, f.anchor, added, turns);
    lemma_tally_bounds(f.text, turns);
    lemma_tally_bounds(added, turns);
    lemma_tally_bounds(inserted(f.text, f.caret, f.anchor, added).0, turns);
}

proof fn lemma_unbroken_is_part(text: Seq<char>)
    ensures
        forall|i: int| 0 <= i < unbroken(text).len() ==> text.contains(#[trigger] unbroken(text)[i]),
    decreases text.len(),
{
    if text.len() > 0 {
        let rest = text.drop_last();
        lemma_unbroken_is_part(rest);
        assert forall|i: int| 0 <= i < unbroken(text).len() implies text.contains(
            #[trigger] unbroken(text)[i],
        ) by {
            if i < unbroken(rest).len() {
                assert(unbroken(text)[i] == unbroken(rest)[i]);
                let k = choose|k: int| 0 <= k < rest.len() && rest[k] == unbroken(rest)[i];
                assert(text[k] == unbroken(text)[i]);
            } else {
                assert(text[text.len() - 1] == unbroken(text)[i]);
            }
        }
    }
}

/// A click and a drag select what lies between the two places, whichever comes
/// first.
pub proof fn lemma_click_and_drag_select(f: InputView, from: nat, to: nat)
    requires
        from <= f.text.len(),
        to <= f.text.len(),
    ensures
        ({
            let held = dragged(clicked(f, from), to);
            &&& held.text == f.text
            &&& held.caret == to
            &&& selected_text(held.text, held.caret, held.anchor) == Some(
                if from <= to {
                    f.text.subrange(from as int, to as int)
                } else {
                    f.text.subrange(to as int, from as int)
                },
            )
        }),
{
}

/// A backspace takes back what was typed: with nothing selected, the text and
/// the caret are as before.
pub proof fn lemma_backspace_undoes_typing(line: Seq<char>, caret: nat, c: char)
    requires
        caret <= line.len(),
        !is_control(c),
    ensures
        ({
            let t = typed_into(line, caret, None, c);
            backspaced(t.0, t.1, t.2) == (line, caret)
        }),
{
    let t = typed_into(line, caret, None, c);
    assert(t.0.take(caret as int) =~= line.take(caret as int));
    assert(t.0.skip((caret + 1) as int) =~= line.skip(caret as int));
    assert(line.take(caret as int) + line.skip(caret as int) =~= line);
}

/// With everything selected, a copy is the whole text, and a cut leaves nothing.
pub proof fn lemma_everything_selected(line: Seq<char>)
    ensures
        selected_text(line, line.len(), Some(0)) == Some(line),
        erased(line, line.len(), Some(0)) == (Seq::<char>::empty(), 0nat),
{
    assert(line.subrange(0, line.len() as int) =~= line);
    assert(line.take(0) + line.skip(line.len() as int) =~= Seq::<char>::empty());
}

/// Among printable ASCII a step to the left takes back one to the right, and the
/// other way round, but for the two ends, where a step stays.
pub proof fn lemma_plain_steps_undo(line: Seq<char>, caret: nat)
    requires
        caret <= line.len(),
    ensures
        caret < line.len() ==> plain_step(line, plain_step(line, caret, false), true) == caret,
        caret > 0 ==> plain_step(line, plain_step(line, caret, true), false) == caret,
        plain_step(line, 0, true) == 0,
        plain_step(line, line.len(), false) == line.len(),
{
}

/// What was cut can be pasted back: the text is as before.
pub proof fn lemma_paste_undoes_cut(line: Seq<char>, caret: nat, anchor: nat)
    requires
        caret <= line.len(),
        anchor <= line.len(),
    ensures
        ({
            let cut = selected_text(line, caret, Some(anchor))->0;
            let e = erased(line, caret, Some(anchor));
            inserted(e.0, e.1, None, cut).0 == line
        }),
{
    let (from, to) = span(caret, anchor);
    let cut = line.subrange(from as int, to as int);
    let e = erased(line, caret, Some(anchor));
    assert(e.0.take(from as int) =~= line.take(from as int));
    assert(e.0.skip(from as int) =~= line.skip(to as int));
    assert(line.take(from as int) + cut + line.skip(to as int) =~= line);
}

// ---------------------------------------------------------------------------
// What editing does to the parts of a line
// ---------------------------------------------------------------------------

/// A selected part is what stands between its two ends, whichever of them the caret is at.
/// Erasing takes it out and puts the caret in its place; what is inserted stands there
/// instead, with the caret behind it.
pub proof fn lemma_selection_is_what_stands_between(
    a: Seq<char>,
    part: Seq<char>,
    b: Seq<char>,
    text: Seq<char>,
)
    ensures
        ({
            let line = a + part + b;
            let (from, to) = (a.len(), a.len() + part.len());
            &&& selected_text(line, to, Some(from)) == Some(part)
            &&& selected_text(line, from, Some(to)) == Some(part)
            &&& selected_text(line, from, None) is None
            &&& erased(line, to, Some(from)) == (a + b, from)
            &&& erased(line, from, Some(to)) == (a + b, from)
            &&& erased(line, from, None) == (line, from)
            &&& inserted(line, to, Some(from), text) == (a + text + b, from + text.len())
            &&& inserted(line, from, Some(to), text) == (a + text + b, from + text.len())
        }),
{
    let line = a + part + b;
    let (from, to) = (a.len() as int, (a.len() + part.len()) as int);
    assert(line.subrange(from, to) =~= part);
    assert(line.take(from) =~= a);
    assert(line.skip(to) =~= b);
    assert(line.take(from) + line.skip(to) =~= a + b);
    assert((a + b).take(from) =~= a);
    assert((a + b).skip(from) =~= b);
}

/// With nothing selected, what is inserted stands at the caret, which goes behind it.
pub proof fn lemma_insertion_stands_at_the_caret(a: Seq<char>, b: Seq<char>, text: Seq<char>, c: char)
    ensures
        inserted(a + b, a.len(), None, text) == (a + text + b, a.len() + text.len()),
        !is_control(c) ==> typed_into(a + b, a.len(), None, c) == (
            a + seq![c] + b,
            a.len() + 1,
            None::<nat>,
        ),
        is_control(c) && c != '\t' && c != '\u{92}' ==> typed_into(a + b, a.len(), None, c) == (
            a + b,
            a.len(),
            None::<nat>,
        ),
{
    assert((a + b).take(a.len() as int) =~= a);
    assert((a + b).skip(a.len() as int) =~= b);
}

/// A backspace takes the character before the caret, the delete key those that belong
/// together behind it; at the two ends neither takes anything. With a selection both take
/// that.
pub proof fn lemma_deleting_takes_what_is_beside_the_caret(
    a: Seq<char>,
    c: char,
    part: Seq<char>,
    b: Seq<char>,
    cluster: (nat, nat),
)
    ensures
        backspaced(a.push(c) + b, a.len() + 1, None) == (a + b, a.len()),
        backspaced(b, 0, None) == (b, 0nat),
        part.len() > 0 && cluster == (a.len(), a.len() + part.len()) ==> deleted(
            a + part + b,
            a.len(),
            None,
            cluster,
        ) == (a + b, a.len()),
        deleted(a, a.len(), None, cluster) == (a, a.len()),
        backspaced(a + part + b, a.len(), Some(a.len() + part.len())) == (a + b, a.len()),
        deleted(a + part + b, a.len(), Some(a.len() + part.len()), cluster) == (a + b, a.len()),
{
    let line = a.push(c) + b;
    assert(line.take(a.len() as int) =~= a);
    assert(line.skip((a.len() + 1) as int) =~= b);
    let whole = a + part + b;
    assert(whole.take(a.len() as int) =~= a);
    assert(whole.skip((a.len() + part.len()) as int) =~= b);
    lemma_selection_is_what_stands_between(a, part, b, b);
}

/// A text loses its line breaks and keeps all else, in order; of a control character at its
/// very end nothing is pasted.
pub proof fn lemma_line_breaks_are_left_out(text: Seq<char>, c: char)
    ensures
        unbroken(text) == text.filter(|d: char| d != '\n' && d != '\r'),
        is_control(c) ==> without_last_control(text.push(c)) == text,
        !is_control(c) ==> without_last_control(text.push(c)) == text.push(c),
    decreases text.len(),
{
    reveal(Seq::filter);
    assert(text.push(c).drop_last() =~= text);
    if text.len() > 0 {
        lemma_line_breaks_are_left_out(text.drop_last(), c);
    }
}

/// A click puts the caret and drops the selection; a drag moves the caret and keeps where
/// the selection began, or begins it where the caret was. The text and all else stay.
pub proof fn lemma_pointer_moves_the_caret(f: InputView, place: nat)
    ensures
        clicked(f, place) == (InputView { caret: place, anchor: None, ..f }),
        f.anchor is Some ==> dragged(f, place) == (InputView { caret: place, ..f }),
        f.anchor is None ==> dragged(f, place) == (InputView {
            caret: place,
            anchor: Some(f.caret),
            ..f
        }),
{
}

/// Among printable ASCII, Home leads to the start and End behind the last character.
pub proof fn lemma_home_and_end(line: Seq<char>, caret: nat)
    ensures
        plain_motion(line, caret, Motion::Home) == 0,
        plain_motion(line, caret, Motion::End) == line.len(),
        0 < caret ==> plain_motion(line, caret, Motion::Left) == caret - 1,
        caret < line.len() ==> plain_motion(line, caret, Motion::Right) == caret + 1,
{
}

/// In text that runs from left to right a step to the left leads to where the characters
/// before the caret begin, and a step to the right to where those behind it end; in text
/// that runs the other way it is the other way round.
pub proof fn lemma_steps_go_over_what_belongs_together(
    line: Seq<char>,
    caret: nat,
    before: (nat, nat),
    behind: (nat, nat),
)
    requires
        0 < caret < line.len(),
        behind.0 == caret,
    ensures
        step(line, caret, true, false, before, behind) == before.0,
        step(line, caret, false, false, before, behind) == behind.1,
        step(line, caret, false, true, before, behind) == before.0,
        step(line, caret, true, true, before, behind) == behind.1,
{
}

/// A line is one as long as it has no break, and no end of a paragraph beside characters
/// that run from right to left.
pub proof fn lemma_what_makes_one_line(text: Seq<char>, i: int, j: int)
    ensures
        0 <= i < text.len() && (text[i] == '\n' || text[i] == '\r') ==> !is_one_line(text),
        0 <= i < text.len() && 0 <= j < text.len() && text[i] == '\u{2029}' && '\u{590}' <= text[j]
            <= '\u{6ff}' ==> !is_one_line(text),
        is_plain(text) ==> is_one_line(text),
{
    if 0 <= i < text.len() {
        if text[i] == '\n' || text[i] == '\r' {
            assert(is_break(text[i]));
        }
        if 0 <= j < text.len() && text[i] == '\u{2029}' && '\u{590}' <= text[j] <= '\u{6ff}' {
            assert(is_marked(text[i], false));
            assert(is_marked(text[j], true));
        }
    }
}

/// A field is set in 16 pixels on lines of 20.
pub proof fn lemma_size_of_a_field()
    ensures
        FONT_SIZE == 16 && LINE_HEIGHT == 20,
{
}

/// Hebrew and Arabic run from right to left, as does the mark that says so; printable ASCII
/// never does and ends no paragraph. A paragraph separator ends one.
pub proof fn lemma_which_way_characters_run(c: char)
    ensures
        ' ' <= c <= '~' ==> !turns_line(c) && !ends_paragraph(c) && !is_break(c),
        '\u{590}' <= c <= '\u{6ff}' || c == '\u{200f}' ==> turns_line(c),
        ends_paragraph(c) <==> c == '\u{1c}' || c == '\u{1d}' || c == '\u{1e}' || c == '\u{85}' || c
            == '\u{2029}',
        is_break(c) <==> c == '\n' || c == '\r',
{
}

} // verus!
