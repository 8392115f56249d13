//! Icons: drawings that are read once, and the masks drawn from them.

use resvg::usvg::{Options, Tree};

use vstd::prelude::*;

use crate::assets::{load, under, Asset, AssetView};
use crate::pixels::coverage;
use crate::text::{chars_of, deep, owned, same};

verus! {

/// A drawing, as the renderer holds it.
#[verifier::external_type_specification]
#[verifier::external_body]
pub struct ExTree(Tree);

/// The drawing that bytes are read as; none where they cannot be read.
pub uninterp spec fn drawing_of(bytes: Seq<u8>) -> Option<Tree>;

/// Whether a word stands at a place.
pub open spec fn stands_at(bytes: Seq<u8>, at: int, word: Seq<char>) -> bool {
    &&& at + word.len() <= bytes.len()
    &&& forall|j: int| 0 <= j < word.len() ==> bytes[at + j] as int == (#[trigger] word[j]) as int
}

/// Whether a word stands anywhere.
pub open spec fn mentions(bytes: Seq<u8>, word: Seq<char>) -> bool {
    exists|at: int| 0 <= at && #[trigger] stands_at(bytes, at, word)
}

/// Whether a byte is a visible ASCII character or white space, and begins no
/// reference to another one.
pub open spec fn is_plain_byte(b: u8) -> bool {
    (0x20 <= b <= 0x7e || b == 0x09 || b == 0x0a || b == 0x0d) && b != 0x26
}

/// Whether bytes are ASCII text without filters, without style sheets and text,
/// and without parts that can refer to each other in a circle. Groups, shapes,
/// gradients and everything else may occur.
pub open spec fn is_plain_drawing(bytes: Seq<u8>) -> bool {
    &&& forall|i: int| 0 <= i < bytes.len() ==> is_plain_byte(#[trigger] bytes[i])
    &&& !mentions(bytes, "filter"@)
    &&& !mentions(bytes, "href"@)
    &&& !mentions(bytes, "pattern"@)
    &&& !mentions(bytes, "mask"@)
    &&& !mentions(bytes, "clip-path"@)
    &&& !mentions(bytes, "marker"@)
    &&& !mentions(bytes, "<style"@)
    &&& !mentions(bytes, ":style"@)
    &&& !mentions(bytes, "<text"@)
    &&& !mentions(bytes, ":text"@)
}

/// `usvg::Tree::from_data` under `usvg::Options::default`: the drawing depends on
/// the bytes alone, since a plain one links no file and asks for no font. Only plain
/// drawings are read: a filter whose numbers are out of range ends the program,
/// as can an odd style sheet, and patterns, masks, clips and markers that go round
/// in a circle are followed without end. Text is left out, since the options hold no
/// font for it.
#[verifier::external_body]
fn read_drawing(bytes: &[u8]) -> (r: Option<Tree>)
    requires
        is_plain_drawing(bytes@),
    ensures
        r == drawing_of(bytes@),
{
    Tree::from_data(bytes, &Options::default()).ok()
}

/// A drawing that was looked for, and what came of it.
pub struct Drawing {
    pub path: String,
    pub tree: Option<Tree>,
}

/// A mask of one size.
#[derive(Debug)]
pub struct Mask {
    pub path: String,
    pub width: u32,
    pub height: u32,
    pub opacities: Vec<u8>,
}

/// Which drawing at which size.
#[verifier::ext_equal]
pub struct MaskKey {
    pub path: Seq<char>,
    pub width: u32,
    pub height: u32,
}

/// What is remembered: of each path the drawing under it, where there is one, and
/// the masks drawn so far.
#[verifier::ext_equal]
pub struct SvgView {
    pub drawings: Map<Seq<char>, Option<Tree>>,
    pub masks: Map<MaskKey, Seq<u8>>,
}

/// Icons that were looked for. A path that could not be read is remembered too, so
/// that a broken one is not read again for every frame.
pub struct SvgRenderer {
    pub drawings: Vec<Drawing>,
    pub masks: Vec<Mask>,
}

pub open spec fn drawings_of(list: Seq<Drawing>) -> Map<Seq<char>, Option<Tree>>
    decreases list.len(),
{
    if list.len() == 0 {
        Map::empty()
    } else {
        drawings_of(list.drop_last()).insert(list.last().path@, list.last().tree)
    }
}

pub open spec fn key_of(mask: Mask) -> MaskKey {
    MaskKey { path: mask.path@, width: mask.width, height: mask.height }
}

pub open spec fn masks_of(list: Seq<Mask>) -> Map<MaskKey, Seq<u8>>
    decreases list.len(),
{
    if list.len() == 0 {
        Map::empty()
    } else {
        masks_of(list.drop_last()).insert(key_of(list.last()), list.last().opacities@)
    }
}

impl View for SvgRenderer {
    type V = SvgView;

    open spec fn view(&self) -> SvgView {
        SvgView { drawings: drawings_of(self.drawings@), masks: masks_of(self.masks@) }
    }
}

/// The drawing under a path, where there is one.
pub open spec fn drawing_under(files: Seq<AssetView>, path: Seq<char>) -> Option<Tree> {
    match under(files, path) {
        Some(bytes) => drawing_of(bytes),
        None => None,
    }
}

/// Whether what is under a path, if anything, is a plain drawing.
pub open spec fn is_plain_under(files: Seq<AssetView>, path: Seq<char>) -> bool {
    under(files, path) matches Some(bytes) ==> is_plain_drawing(bytes)
}

/// What is remembered once a path was looked for, and `found` was under it.
pub open spec fn looked_for(s: SvgView, path: Seq<char>, found: Option<Tree>) -> SvgView {
    if s.drawings.contains_key(path) {
        s
    } else {
        SvgView { drawings: s.drawings.insert(path, found), ..s }
    }
}

/// The opacities of a picture, four bytes to a pixel.
pub open spec fn opacities(rgba: Seq<u8>) -> Seq<u8> {
    Seq::new(rgba.len() / 4, |i: int| rgba[4 * i + 3])
}

/// What is remembered once a drawing was drawn.
pub open spec fn drawn(s: SvgView, key: MaskKey, rgba: Seq<u8>) -> SvgView {
    if s.masks.contains_key(key) {
        s
    } else {
        SvgView { masks: s.masks.insert(key, opacities(rgba)), ..s }
    }
}

/// Decides whether a word stands anywhere.
fn mentions_word(bytes: &[u8], word: &str) -> (r: bool)
    ensures
        r == mentions(bytes@, word@),
{
    let letters: Vec<char> = chars_of(word);
    assert(letters.len() == letters@.len());
    let mut at: usize = 0;
    while at < bytes.len() && letters.len() <= bytes.len() - at
        invariant
            at <= bytes@.len(),
            letters@ == word@,
            forall|k: int| 0 <= k < at ==> !#[trigger] stands_at(bytes@, k, word@),
        decreases bytes@.len() - at,
    {
        let mut j: usize = 0;
        while j < letters.len() && bytes[at + j] as char == letters[j]
            invariant
                j <= letters.len(),
                at + letters.len() <= bytes.len(),
                letters@ == word@,
                forall|k: int|
                    0 <= k < j ==> bytes@[at + k] as int == (#[trigger] word@[k]) as int,
            decreases letters@.len() - j,
        {
            j = j + 1;
        }
        if j == letters.len() {
            assert(stands_at(bytes@, at as int, word@));
            return true;
        }
        assert(bytes@[at + j] as int != word@[j as int] as int);
        assert(!stands_at(bytes@, at as int, word@));
        at = at + 1;
    }
    if letters.len() == 0 {
        assert(stands_at(bytes@, 0, word@));
        return true;
    }
    assert forall|k: int| 0 <= k implies !#[trigger] stands_at(bytes@, k, word@) by {
    }
    false
}

/// Decides whether bytes are ASCII text without references.
fn is_plain_text(bytes: &[u8]) -> (r: bool)
    ensures
        r == forall|i: int| 0 <= i < bytes@.len() ==> is_plain_byte(#[trigger] bytes@[i]),
{
    let mut i: usize = 0;
    while i < bytes.len()
        invariant
            i <= bytes@.len(),
            forall|k: int| 0 <= k < i ==> is_plain_byte(#[trigger] bytes@[k]),
        decreases bytes@.len() - i,
    {
        let b: u8 = bytes[i];
        let plain: bool = (0x20 <= b && b <= 0x7e || b == 0x09 || b == 0x0a || b == 0x0d) && b
            != 0x26;
        if !plain {
            assert(!is_plain_byte(bytes@[i as int]));
            return false;
        }
        i = i + 1;
    }
    true
}

/// Decides whether bytes are a plain drawing.
pub fn plain_drawing(bytes: &[u8]) -> (r: bool)
    ensures
        r == is_plain_drawing(bytes@),
{
    is_plain_text(bytes) && !mentions_word(bytes, "filter") && !mentions_word(bytes, "href")
        && !mentions_word(bytes, "pattern") && !mentions_word(bytes, "mask")
        && !mentions_word(bytes, "clip-path") && !mentions_word(bytes, "marker")
        && !mentions_word(bytes, "<style") && !mentions_word(bytes, ":style")
        && !mentions_word(bytes, "<text") && !mentions_word(bytes, ":text")
}

/// Decides whether what is under a path, if anything, is a plain drawing.
pub fn plain_under(files: &Vec<Asset>, path: &str) -> (r: bool)
    ensures
        r == is_plain_under(deep(files@), path@),
{
    match load(files, path) {
        Some(bytes) => plain_drawing(bytes.as_slice()),
        None => true,
    }
}

impl SvgRenderer {
    pub fn new() -> (r: SvgRenderer)
        ensures
            r@ == (SvgView { drawings: Map::empty(), masks: Map::empty() }),
    {
        SvgRenderer { drawings: Vec::new(), masks: Vec::new() }
    }

    fn find(&self, path: &str) -> (r: Option<usize>)
        ensures
            match r {
                Some(i) => i < self.drawings@.len() && self@.drawings.contains_key(path@)
                    && self.drawings@[i as int].path@ == path@ && self@.drawings[path@]
                    == self.drawings@[i as int].tree,
                None => !self@.drawings.contains_key(path@),
            },
    {
        let mut i: usize = self.drawings.len();
        assert(self.drawings@.take(i as int) == self.drawings@);
        while i > 0
            invariant
                i <= self.drawings@.len(),
                drawings_of(self.drawings@).contains_key(path@) == drawings_of(
                    self.drawings@.take(i as int),
                ).contains_key(path@),
                drawings_of(self.drawings@).contains_key(path@) ==> drawings_of(
                    self.drawings@,
                )[path@] == drawings_of(self.drawings@.take(i as int))[path@],
            decreases i,
        {
            assert(self.drawings@.take(i as int).drop_last() == self.drawings@.take(i - 1));
            assert(self.drawings@.take(i as int).last() == self.drawings@[i - 1]);
            if same(self.drawings[i - 1].path.as_str(), path) {
                return Some(i - 1);
            }
            i = i - 1;
        }
        None
    }

    /// Makes sure that a path was looked for, and says whether there is a drawing
    /// under it.
    pub fn prepare(&mut self, files: &Vec<Asset>, path: &str) -> (r: bool)
        requires
            is_plain_under(deep(files@), path@),
        ensures
            final(self)@ == looked_for(old(self)@, path@, drawing_under(deep(files@), path@)),
            r == (final(self)@.drawings[path@] is Some),
    {
        match self.find(path) {
            Some(i) => self.drawings[i].tree.is_some(),
            None => {
                let tree: Option<Tree> = match load(files, path) {
                    Some(bytes) => read_drawing(bytes.as_slice()),
                    None => None,
                };
                let found: bool = tree.is_some();
                let ghost before = self.drawings@;
                self.drawings.push(Drawing { path: owned(path), tree });
                assert(self.drawings@.drop_last() == before);
                found
            },
        }
    }

    /// The drawing under a path, where it was looked for and there is one.
    pub fn tree(&self, path: &str) -> (r: Option<&Tree>)
        ensures
            match r {
                Some(tree) => self@.drawings.contains_key(path@) && self@.drawings[path@] == Some(
                    *tree,
                ),
                None => !self@.drawings.contains_key(path@) || self@.drawings[path@] is None,
            },
            r matches Some(tree) ==> exists|i: int|
                0 <= i < self.drawings@.len() && (#[trigger] self.drawings@[i]).path@ == path@
                    && self.drawings@[i].tree == Some(*tree),
    {
        match self.find(path) {
            Some(i) => self.drawings[i].tree.as_ref(),
            None => None,
        }
    }

    /// The mask of a drawing at a size, where it was drawn.
    pub fn mask(&self, path: &str, width: u32, height: u32) -> (r: Option<&Vec<u8>>)
        ensures
            ({
                let key = MaskKey { path: path@, width, height };
                match r {
                    Some(opacities) => self@.masks.contains_key(key) && self@.masks[key]
                        == opacities@,
                    None => !self@.masks.contains_key(key),
                }
            }),
    {
        let ghost key = MaskKey { path: path@, width, height };
        let mut i: usize = self.masks.len();
        assert(self.masks@.take(i as int) == self.masks@);
        while i > 0
            invariant
                i <= self.masks@.len(),
                key == (MaskKey { path: path@, width, height }),
                masks_of(self.masks@).contains_key(key) == masks_of(
                    self.masks@.take(i as int),
                ).contains_key(key),
                masks_of(self.masks@).contains_key(key) ==> masks_of(self.masks@)[key] == masks_of(
                    self.masks@.take(i as int),
                )[key],
            decreases i,
        {
            assert(self.masks@.take(i as int).drop_last() == self.masks@.take(i - 1));
            assert(self.masks@.take(i as int).last() == self.masks@[i - 1]);
            if self.masks[i - 1].width == width && self.masks[i - 1].height == height && same(
                self.masks[i - 1].path.as_str(),
                path,
            ) {
                return Some(&self.masks[i - 1].opacities);
            }
            i = i - 1;
        }
        None
    }

    /// Keeps the mask of a drawing that was drawn at a size, four bytes to a pixel.
    /// Only its opacities are wanted: the colour comes from where it is used.
    pub fn keep_mask(&mut self, path: &str, width: u32, height: u32, rgba: &[u8])
        ensures
            final(self)@ == drawn(
                old(self)@,
                MaskKey { path: path@, width, height },
                rgba@,
            ),
    {
        if self.mask(path, width, height).is_some() {
            return;
        }
        let ghost before = self.masks@;
        let opacities: Vec<u8> = coverage(rgba);
        self.masks.push(Mask { path: owned(path), width, height, opacities });
        assert(self.masks@.drop_last() == before);
        assert(self@.masks == drawn(
            old(self)@,
            MaskKey { path: path@, width, height },
            rgba@,
        ).masks);
    }
}

/// A path is read once, whatever is under it later: what could not be read stays
/// missing, and what could be read stays.
pub proof fn lemma_a_path_is_read_once(
    s: SvgView,
    path: Seq<char>,
    found: Option<Tree>,
    other: Seq<char>,
    later: Option<Tree>,
)
    ensures
        looked_for(looked_for(s, path, found), path, later) == looked_for(s, path, found),
        ({
            let after = looked_for(looked_for(s, path, found), other, later);
            after.drawings[path] == looked_for(s, path, found).drawings[path]
        }),
{
}

/// A mask is drawn once, and drawing another leaves it as it is.
pub proof fn lemma_a_mask_is_drawn_once(
    s: SvgView,
    key: MaskKey,
    rgba: Seq<u8>,
    other: MaskKey,
    again: Seq<u8>,
)
    ensures
        drawn(drawn(s, key, rgba), other, again).masks[key] == drawn(s, key, rgba).masks[key],
{
}

/// A path that was not looked for yet is remembered with what was found under it; one that
/// was stays. A mask is remembered by its path and size as the opacities of what was drawn,
/// which are the fourth of every four bytes.
pub proof fn lemma_what_is_remembered(
    s: SvgView,
    path: Seq<char>,
    found: Option<Tree>,
    key: MaskKey,
    rgba: Seq<u8>,
    i: int,
)
    ensures
        !s.drawings.contains_key(path) ==> looked_for(s, path, found) == (SvgView {
            drawings: s.drawings.insert(path, found),
            ..s
        }),
        s.drawings.contains_key(path) ==> looked_for(s, path, found) == s,
        s.masks.contains_key(key) ==> drawn(s, key, rgba) == s,
        !s.masks.contains_key(key) ==> {
            let t = drawn(s, key, rgba);
            &&& t == (SvgView { masks: t.masks, ..s })
            &&& t.masks == s.masks.insert(key, t.masks[key])
            &&& t.masks[key].len() == rgba.len() / 4
            &&& 0 <= i && 4 * i + 3 < rgba.len() ==> t.masks[key][i] == rgba[4 * i + 3]
        },
{
}

/// Bytes with one of these words in them, or with a byte that is no plain text, are no
/// plain drawing.
pub proof fn lemma_what_is_no_plain_drawing(head: Seq<u8>, word: Seq<u8>, tail: Seq<u8>, c: u8)
    ensures
        word =~= seq![0x66u8, 0x69, 0x6c, 0x74, 0x65, 0x72] ==> !is_plain_drawing(
            head + word + tail,
        ),
        word =~= seq![0x68u8, 0x72, 0x65, 0x66] ==> !is_plain_drawing(head + word + tail),
        word =~= seq![0x6du8, 0x61, 0x73, 0x6b] ==> !is_plain_drawing(head + word + tail),
        c < 0x09 || c == 0x26 || c > 0x7e ==> !is_plain_drawing(head.push(c) + tail),
{
    let all = head + word + tail;
    let at = head.len() as int;
    reveal_strlit("filter");
    reveal_strlit("href");
    reveal_strlit("mask");
    if word =~= seq![0x66u8, 0x69, 0x6c, 0x74, 0x65, 0x72] {
        assert forall|j: int| 0 <= j < "filter"@.len() implies all[at + j] as int == (
        #[trigger] "filter"@[j]) as int by {
            assert(all[at + j] == word[j]);
        }
        assert(stands_at(all, at, "filter"@));
    }
    if word =~= seq![0x68u8, 0x72, 0x65, 0x66] {
        assert forall|j: int| 0 <= j < "href"@.len() implies all[at + j] as int == (
        #[trigger] "href"@[j]) as int by {
            assert(all[at + j] == word[j]);
        }
        assert(stands_at(all, at, "href"@));
    }
    if word =~= seq![0x6du8, 0x61, 0x73, 0x6b] {
        assert forall|j: int| 0 <= j < "mask"@.len() implies all[at + j] as int == (
        #[trigger] "mask"@[j]) as int by {
            assert(all[at + j] == word[j]);
        }
        assert(stands_at(all, at, "mask"@));
    }
    if c < 0x09 || c == 0x26 || c > 0x7e {
        let other = head.push(c) + tail;
        assert(other[at] == c);
    }
}

/// None of the words that lead to what is not read stands in a plain drawing.
pub proof fn lemma_words_of_no_plain_drawing(bytes: Seq<u8>, at: int)
    requires
        0 <= at,
    ensures
        stands_at(bytes, at, "filter"@) ==> !is_plain_drawing(bytes),
        stands_at(bytes, at, "href"@) ==> !is_plain_drawing(bytes),
        stands_at(bytes, at, "pattern"@) ==> !is_plain_drawing(bytes),
        stands_at(bytes, at, "mask"@) ==> !is_plain_drawing(bytes),
        stands_at(bytes, at, "clip-path"@) ==> !is_plain_drawing(bytes),
        stands_at(bytes, at, "marker"@) ==> !is_plain_drawing(bytes),
        stands_at(bytes, at, "<style"@) ==> !is_plain_drawing(bytes),
        stands_at(bytes, at, ":style"@) ==> !is_plain_drawing(bytes),
        stands_at(bytes, at, "<text"@) ==> !is_plain_drawing(bytes),
        stands_at(bytes, at, ":text"@) ==> !is_plain_drawing(bytes),
{
}

} // verus!
