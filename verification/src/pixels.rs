//! Pixels: one colour over another, and a frame as the screen takes it.
//!
//! A pixel of a picture being drawn is premultiplied: its colours are already
//! scaled by its opacity, and so never above it.

use resvg::tiny_skia::PremultipliedColorU8;

use vstd::prelude::*;

verus! {

/// A premultiplied pixel.
#[derive(Debug, Clone, Copy, PartialEq, Eq, Structural)]
pub struct Pixel {
    pub r: u8,
    pub g: u8,
    pub b: u8,
    pub a: u8,
}

impl Pixel {
    /// No colour is above the opacity.
    pub open spec fn wf(self) -> bool {
        self.r <= self.a && self.g <= self.a && self.b <= self.a
    }
}

/// `PremultipliedColorU8::from_rgba`: a pixel of the four, where no colour is
/// above the opacity; else none.
#[verifier::external_body]
fn premultiplied(r: u8, g: u8, b: u8, a: u8) -> (p: Option<Pixel>)
    ensures
        p == (if r <= a && g <= a && b <= a {
            Some(Pixel { r, g, b, a })
        } else {
            None
        }),
{
    let color = PremultipliedColorU8::from_rgba(r, g, b, a)?;
    Some(Pixel { r: color.red(), g: color.green(), b: color.blue(), a: color.alpha() })
}

/// A colour of a premultiplied pixel as it is without its opacity.
pub uninterp spec fn straight(color: u8, opacity: u8) -> u8;

/// `PremultipliedColorU8::demultiply`: each colour depends on that colour and on
/// the opacity alone, and is as it was where the pixel is opaque.
#[verifier::external_body]
fn demultiplied(p: Pixel) -> (r: (u8, u8, u8))
    requires
        p.wf(),
    ensures
        r == (straight(p.r, p.a), straight(p.g, p.a), straight(p.b, p.a)),
        p.a == 255 ==> r == (p.r, p.g, p.b),
{
    let color = PremultipliedColorU8::from_rgba(p.r, p.g, p.b, p.a).unwrap().demultiply();
    (color.red(), color.green(), color.blue())
}

// ---------------------------------------------------------------------------
// One colour over another
// ---------------------------------------------------------------------------

/// The smaller of two numbers.
pub open spec fn least(a: int, b: int) -> int {
    if a < b {
        a
    } else {
        b
    }
}

/// The opacity of a colour of opacity `a` over a pixel.
pub open spec fn opacity_over(a: u8, under: Pixel) -> int {
    least(a as int + under.a as int * (255 - a as int) / 255, 255)
}

/// One colour of opacity `a` over that of a pixel.
pub open spec fn color_over(c: u8, a: u8, under: u8) -> int {
    least(c as int * a as int / 255 + under as int * (255 - a as int) / 255, 255)
}

/// A colour over a pixel.
pub open spec fn over(under: Pixel, r: u8, g: u8, b: u8, a: u8) -> Pixel {
    if a == 0 {
        under
    } else {
        let alpha = opacity_over(a, under);
        Pixel {
            r: least(color_over(r, a, under.r), alpha) as u8,
            g: least(color_over(g, a, under.g), alpha) as u8,
            b: least(color_over(b, a, under.b), alpha) as u8,
            a: alpha as u8,
        }
    }
}

fn scaled(n: u8, by: u32) -> (r: u32)
    requires
        by <= 255,
    ensures
        r == n as int * by as int / 255,
        r <= 255,
{
    assert(n * by <= 255 * 255) by (nonlinear_arith)
        requires
            n <= 255,
            by <= 255,
    ;
    let product: u32 = n as u32 * by;
    product / 255
}

fn channel(c: u8, a: u8, under: u8, limit: u8) -> (r: u8)
    ensures
        r == least(color_over(c, a, under), limit as int),
{
    let sum: u32 = scaled(c, a as u32) + scaled(under, 255 - a as u32);
    let capped: u32 = if sum < 255 {
        sum
    } else {
        255
    };
    if capped < limit as u32 {
        capped as u8
    } else {
        limit
    }
}

/// A colour with its opacity over a pixel.
fn blended(under: Pixel, r: u8, g: u8, b: u8, a: u8) -> (p: Pixel)
    requires
        under.wf(),
    ensures
        p == over(under, r, g, b, a),
        p.wf(),
{
    if a == 0 {
        return under;
    }
    let sum: u32 = a as u32 + scaled(under.a, 255 - a as u32);
    let alpha: u8 = if sum < 255 {
        sum as u8
    } else {
        255
    };
    let red: u8 = channel(r, a, under.r, alpha);
    let green: u8 = channel(g, a, under.g, alpha);
    let blue: u8 = channel(b, a, under.b, alpha);
    match premultiplied(red, green, blue, alpha) {
        Some(p) => p,
        None => under,
    }
}

/// What is opaque hides what is under it, and what is transparent shows it as it
/// is.
pub proof fn lemma_opaque_hides(under: Pixel, r: u8, g: u8, b: u8)
    requires
        under.wf(),
    ensures
        over(under, r, g, b, 255) == (Pixel { r, g, b, a: 255 }),
        over(under, r, g, b, 0) == under,
{
    assert(under.a as int * (255 - 255) == 0) by (nonlinear_arith);
    assert(under.r as int * (255 - 255) == 0) by (nonlinear_arith);
    assert(under.g as int * (255 - 255) == 0) by (nonlinear_arith);
    assert(under.b as int * (255 - 255) == 0) by (nonlinear_arith);
    assert(r as int * 255 / 255 == r as int);
    assert(g as int * 255 / 255 == g as int);
    assert(b as int * 255 / 255 == b as int);
}

/// Drawing over an opaque pixel leaves it opaque.
pub proof fn lemma_opaque_stays_opaque(under: Pixel, r: u8, g: u8, b: u8, a: u8)
    requires
        under.wf(),
        under.a == 255,
    ensures
        over(under, r, g, b, a).a == 255,
{
    assert(255 * (255 - a as int) / 255 == 255 - a as int);
}

// ---------------------------------------------------------------------------
// Pictures
// ---------------------------------------------------------------------------

/// A picture, row by row from its top.
#[derive(Debug)]
pub struct Picture {
    pub width: u32,
    pub height: u32,
    pub pixels: Vec<Pixel>,
}

impl Picture {
    pub open spec fn wf(self) -> bool {
        &&& self.pixels@.len() == self.width * self.height
        &&& forall|i: int| 0 <= i < self.pixels@.len() ==> (#[trigger] self.pixels@[i]).wf()
    }
}

/// The points of a picture from its first column and row up to, but not with,
/// its last.
#[derive(Debug, Clone, Copy, PartialEq, Eq, Structural)]
pub struct Region {
    pub x0: i64,
    pub y0: i64,
    pub x1: i64,
    pub y1: i64,
}

impl Region {
    pub open spec fn holds(self, x: int, y: int) -> bool {
        self.x0 <= x < self.x1 && self.y0 <= y < self.y1
    }

    /// Whether a point is in the region.
    pub fn contains(&self, x: i64, y: i64) -> (r: bool)
        ensures
            r == self.holds(x as int, y as int),
    {
        self.x0 <= x && x < self.x1 && self.y0 <= y && y < self.y1
    }
}

/// Where a point of a picture is kept: rows one behind the other.
pub open spec fn place(width: int, x: int, y: int) -> int {
    y * width + x
}

proof fn lemma_place(width: int, height: int, x: int, y: int)
    requires
        0 <= x < width,
        0 <= y < height,
    ensures
        0 <= place(width, x, y) < width * height,
        place(width, x, y) % width == x,
        place(width, x, y) / width == y,
{
    assert(0 <= y * width) by (nonlinear_arith)
        requires
            0 <= y,
            0 <= width,
    ;
    assert(y * width + x < width * height) by (nonlinear_arith)
        requires
            0 <= x < width,
            0 <= y < height,
    ;
    vstd::arithmetic::div_mod::lemma_fundamental_div_mod_converse(y * width + x, width, y, x);
}

fn place_of(width: u32, height: u32, x: i64, y: i64) -> (r: Option<usize>)
    requires
        width * height <= usize::MAX,
    ensures
        match r {
            Some(i) => 0 <= x < width && 0 <= y < height && i == place(
                width as int,
                x as int,
                y as int,
            ) && i < width * height,
            None => !(0 <= x < width && 0 <= y < height),
        },
{
    if x < 0 || y < 0 || x >= width as i64 || y >= height as i64 {
        return None;
    }
    proof {
        lemma_place(width as int, height as int, x as int, y as int);
        assert(0 <= y as int * width as int <= place(width as int, x as int, y as int));
        assert(y as int <= y as int * width as int) by (nonlinear_arith)
            requires
                0 <= y,
                1 <= width,
        ;
    }
    Some(y as usize * width as usize + x as usize)
}

/// A picture with a colour drawn over one of its points. Outside the picture
/// there is nothing to draw on.
pub open spec fn dotted(
    under: Picture,
    x: int,
    y: int,
    r: u8,
    g: u8,
    b: u8,
    a: u8,
) -> Seq<Pixel> {
    if 0 <= x < under.width && 0 <= y < under.height {
        let at = place(under.width as int, x, y);
        under.pixels@.update(at, over(under.pixels@[at], r, g, b, a))
    } else {
        under.pixels@
    }
}

/// Draws a colour with its opacity over one point of a picture.
pub fn blend_over(picture: &mut Picture, x: i64, y: i64, r: u8, g: u8, b: u8, a: u8)
    requires
        old(picture).wf(),
    ensures
        final(picture).wf(),
        final(picture).width == old(picture).width,
        final(picture).height == old(picture).height,
        final(picture).pixels@ == dotted(*old(picture), x as int, y as int, r, g, b, a),
{
    assert(picture.pixels.len() == picture.pixels@.len());
    match place_of(picture.width, picture.height, x, y) {
        Some(i) => {
            let p: Pixel = blended(picture.pixels[i], r, g, b, a);
            picture.pixels.set(i, p);
        },
        None => {},
    }
}

/// Which pixel of an image `width` wide falls on a point, the image's first one
/// at `(left, top)`. None is left of the image, right of it, or above it.
pub open spec fn source(left: int, top: int, width: int, x: int, y: int) -> int {
    if 0 <= x - left < width && top <= y {
        place(width, x - left, y - top)
    } else {
        -1
    }
}

/// A pixel of a picture with an image drawn over it: four bytes to each pixel of
/// the image, in rows of `width`, and nothing outside the region.
pub open spec fn drawn(
    under: Picture,
    left: int,
    top: int,
    width: int,
    rgba: Seq<u8>,
    region: Option<Region>,
    at: int,
) -> Pixel {
    let x = at % under.width as int;
    let y = at / under.width as int;
    let k = source(left, top, width, x, y);
    if 0 <= k < rgba.len() / 4 && (region matches Some(c) ==> c.holds(x, y)) {
        over(under.pixels@[at], rgba[4 * k], rgba[4 * k + 1], rgba[4 * k + 2], rgba[4 * k + 3])
    } else {
        under.pixels@[at]
    }
}

proof fn lemma_one_place(left: int, top: int, width: int, w: int, h: int, i: int, at: int)
    requires
        0 < width,
        0 < w,
        0 <= i,
        0 <= at < w * h,
    ensures
        source(left, top, width, at % w, at / w) == i <==> at % w == left + i % width && at / w
            == top + i / width,
{
    vstd::arithmetic::div_mod::lemma_fundamental_div_mod(i, width);
    vstd::arithmetic::div_mod::lemma_mod_bound(i, width);
    vstd::arithmetic::div_mod::lemma_div_pos_is_pos(i, width);
    let x = at % w;
    let y = at / w;
    if 0 <= x - left < width && top <= y {
        vstd::arithmetic::div_mod::lemma_fundamental_div_mod_converse(
            place(width, x - left, y - top),
            width,
            y - top,
            x - left,
        );
        assert(place(width, i % width, i / width) == i) by (nonlinear_arith)
            requires
                i == width * (i / width) + i % width,
                place(width, i % width, i / width) == (i / width) * width + i % width,
        ;
        if x == left + i % width && y == top + i / width {
            assert(place(width, x - left, y - top) == i);
        }
    }
}

/// Draws an image over a picture, its first pixel at `(left, top)`, within the
/// region.
pub fn draw_rgba(
    picture: &mut Picture,
    left: i32,
    top: i32,
    width: u32,
    rgba: &[u8],
    region: Option<Region>,
)
    requires
        old(picture).wf(),
        width > 0,
    ensures
        final(picture).wf(),
        final(picture).width == old(picture).width,
        final(picture).height == old(picture).height,
        forall|at: int|
            0 <= at < old(picture).pixels@.len() ==> (#[trigger] final(picture).pixels@[at])
                == drawn(
                *old(picture),
                left as int,
                top as int,
                width as int,
                rgba@,
                region,
                at,
            ),
{
    let len: usize = rgba.len() / 4;
    let mut i: usize = 0;
    let ghost before = *picture;
    let ghost w = picture.width as int;
    let ghost h = picture.height as int;
    assert forall|at: int| 0 <= at < before.pixels@.len() implies #[trigger] picture.pixels@[at]
        == drawn(
        before,
        left as int,
        top as int,
        width as int,
        rgba@.take(0),
        region,
        at,
    ) by {
        assert(rgba@.take(0).len() / 4 == 0);
    }
    while i < len
        invariant
            i <= len,
            len == rgba@.len() / 4,
            width > 0,
            picture.wf(),
            before == *old(picture),
            before.wf(),
            picture.width == before.width,
            picture.height == before.height,
            w == before.width,
            h == before.height,
            forall|at: int|
                0 <= at < before.pixels@.len() ==> (#[trigger] picture.pixels@[at]) == drawn(
                    before,
                    left as int,
                    top as int,
                    width as int,
                    rgba@.take(4 * i),
                    region,
                    at,
                ),
        decreases len - i,
    {
        let dx: usize = i % width as usize;
        let dy: usize = i / width as usize;
        let ghost x_ = left + dx;
        let ghost y_ = top + dy;
        let ghost was = picture.pixels@;
        proof {
            vstd::arithmetic::div_mod::lemma_div_nonincreasing(i as int, width as int);
            assert(4 * i + 3 < rgba@.len() == rgba.len());
        }
        let at: usize = 4 * i;
        let x: i64 = left as i64 + dx as i64;
        let y: i64 = top as i64 + dy as i64;
        let inside: bool = match region {
            Some(c) => c.contains(x, y),
            None => true,
        };
        if inside {
            blend_over(picture, x, y, rgba[at], rgba[at + 1], rgba[at + 2], rgba[at + 3]);
        }
        assert forall|p: int| 0 <= p < before.pixels@.len() implies #[trigger] picture.pixels@[p]
            == drawn(
            before,
            left as int,
            top as int,
            width as int,
            rgba@.take(4 * (i + 1)),
            region,
            p,
        ) by {
            assert(was[p] == drawn(
                before,
                left as int,
                top as int,
                width as int,
                rgba@.take(4 * i),
                region,
                p,
            ));
            assert(0 < w) by (nonlinear_arith)
                requires
                    0 <= p < w * h,
                    0 <= w,
            ;
            lemma_one_place(left as int, top as int, width as int, w, h, i as int, p);
            vstd::arithmetic::div_mod::lemma_fundamental_div_mod(p, w);
            vstd::arithmetic::div_mod::lemma_mod_bound(p, w);
            let k = source(left as int, top as int, width as int, p % w, p / w);
            assert(rgba@.take(4 * (i + 1)).len() / 4 == i + 1);
            assert(rgba@.take(4 * i).len() / 4 == i as int);
            if 0 <= k < i {
                assert(rgba@.take(4 * (i + 1))[4 * k] == rgba@.take(4 * i)[4 * k]);
                assert(rgba@.take(4 * (i + 1))[4 * k + 1] == rgba@.take(4 * i)[4 * k + 1]);
                assert(rgba@.take(4 * (i + 1))[4 * k + 2] == rgba@.take(4 * i)[4 * k + 2]);
                assert(rgba@.take(4 * (i + 1))[4 * k + 3] == rgba@.take(4 * i)[4 * k + 3]);
            }
            vstd::arithmetic::div_mod::lemma_div_nonincreasing(p, w);
            assert(p / w < h) by (nonlinear_arith)
                requires
                    p == w * (p / w) + p % w,
                    0 <= p % w < w,
                    p < w * h,
            ;
            vstd::arithmetic::div_mod::lemma_div_pos_is_pos(p, w);
            if p % w == x_ && p / w == y_ {
                assert(place(w, x_, y_) == p) by (nonlinear_arith)
                    requires
                        p == w * (p / w) + p % w,
                        p % w == x_,
                        p / w == y_,
                        place(w, x_, y_) == y_ * w + x_,
                ;
            } else if 0 <= x_ < w && 0 <= y_ < h {
                lemma_place(w, h, x_, y_);
            }
        }
        i = i + 1;
    }
    proof {
        assert forall|at: int| 0 <= at < before.pixels@.len() implies drawn(
            before,
            left as int,
            top as int,
            width as int,
            rgba@.take(4 * len),
            region,
            at,
        ) == drawn(before, left as int, top as int, width as int, rgba@, region, at) by {
            assert(rgba@.take(4 * len).len() / 4 == len as int);
        }
    }
}

/// The opacities of a picture, four bytes to a pixel.
pub fn coverage(rgba: &[u8]) -> (r: Vec<u8>)
    ensures
        r@ == Seq::new(rgba@.len() / 4, |i: int| rgba@[4 * i + 3]),
{
    let len: usize = rgba.len() / 4;
    let mut out: Vec<u8> = Vec::new();
    let mut i: usize = 0;
    while i < len
        invariant
            i <= len,
            len == rgba@.len() / 4,
            out@ == Seq::new(i as nat, |k: int| rgba@[4 * k + 3]),
        decreases len - i,
    {
        assert(4 * i + 3 < rgba@.len() == rgba.len());
        out.push(rgba[4 * i + 3]);
        i = i + 1;
    }
    out
}

/// An image of one colour with the given opacities, four bytes to a pixel.
pub open spec fn tint(opacities: Seq<u8>, r: u8, g: u8, b: u8) -> Seq<u8> {
    Seq::new(
        4 * opacities.len(),
        |i: int|
            if i % 4 == 0 {
                r
            } else if i % 4 == 1 {
                g
            } else if i % 4 == 2 {
                b
            } else {
                opacities[i / 4]
            },
    )
}

/// An image of one colour with the given opacities.
pub fn tinted(opacities: &[u8], r: u8, g: u8, b: u8) -> (out: Vec<u8>)
    ensures
        out@ == tint(opacities@, r, g, b),
{
    let mut out: Vec<u8> = Vec::new();
    let mut i: usize = 0;
    assert(out@ == tint(opacities@.take(0), r, g, b));
    while i < opacities.len()
        invariant
            i <= opacities@.len(),
            out@ == tint(opacities@.take(i as int), r, g, b),
        decreases opacities@.len() - i,
    {
        out.push(r);
        out.push(g);
        out.push(b);
        out.push(opacities[i]);
        assert(out@ == tint(opacities@.take(i + 1), r, g, b));
        i = i + 1;
    }
    assert(opacities@.take(i as int) == opacities@);
    out
}

/// A tinted image carries the opacities it was made of.
pub proof fn lemma_tint_keeps_coverage(opacities: Seq<u8>, r: u8, g: u8, b: u8)
    ensures
        Seq::new(
            tint(opacities, r, g, b).len() / 4,
            |i: int| tint(opacities, r, g, b)[4 * i + 3],
        ) == opacities,
{
}

/// A mask of a picture's size that lets a region through and nothing else.
pub open spec fn mask(width: u32, height: u32, region: Region) -> Seq<u8> {
    Seq::new(
        (width * height) as nat,
        |i: int|
            if region.holds(i % width as int, i / width as int) {
                255u8
            } else {
                0u8
            },
    )
}

/// A mask of a picture's size that lets a region through and nothing else.
pub fn clip_mask(width: u32, height: u32, region: Region) -> (r: Vec<u8>)
    requires
        width * height <= usize::MAX,
    ensures
        r@ == mask(width, height, region),
{
    let mut out: Vec<u8> = Vec::new();
    let mut y: u32 = 0;
    assert(0 * width as int == 0) by (nonlinear_arith);
    while y < height
        invariant
            y <= height,
            width * height <= usize::MAX,
            out@ == mask(width, y, region),
        decreases height - y,
    {
        let mut x: u32 = 0;
        assert(out@.len() == y * width) by (nonlinear_arith)
            requires
                out@.len() == width * y,
        ;
        while x < width
            invariant
                x <= width,
                y < height,
                out@.len() == place(width as int, x as int, y as int),
                forall|i: int|
                    0 <= i < out@.len() ==> #[trigger] out@[i] == (if region.holds(
                        i % width as int,
                        i / width as int,
                    ) {
                        255u8
                    } else {
                        0u8
                    }),
            decreases width - x,
        {
            proof {
                lemma_place(width as int, height as int, x as int, y as int);
            }
            let inside: bool = region.contains(x as i64, y as i64);
            out.push(
                if inside {
                    255
                } else {
                    0
                },
            );
            x = x + 1;
        }
        assert(width * (y + 1) == y * width + width) by (nonlinear_arith);
        y = y + 1;
        assert(out@ == mask(width, y, region));
    }
    assert(out@ == mask(width, height, region)) by {
        assert(y == height);
    }
    out
}

/// A pixel as the screen takes it: eight bits to a colour, red the highest.
pub open spec fn packed(r: u8, g: u8, b: u8) -> u32 {
    (r as int * 65536 + g as int * 256 + b as int) as u32
}

/// A pixel as it is shown: its colours without its opacity. With the opacity left
/// in, a translucent one would come out too dark.
pub open spec fn shown(p: Pixel) -> u32 {
    packed(straight(p.r, p.a), straight(p.g, p.a), straight(p.b, p.a))
}

/// A pixel as it is shown, given its colours without its opacity.
pub fn pack(r: u8, g: u8, b: u8) -> (n: u32)
    ensures
        n == packed(r, g, b),
{
    r as u32 * 65536 + g as u32 * 256 + b as u32
}

/// A picture as the screen takes it.
pub fn present(picture: &Picture) -> (r: Vec<u32>)
    requires
        picture.wf(),
    ensures
        r@ == Seq::new(picture.pixels@.len(), |i: int| shown(picture.pixels@[i])),
        forall|i: int|
            #![trigger r@[i]]
            0 <= i < r@.len() && picture.pixels@[i].a == 255 ==> r@[i] == packed(
                picture.pixels@[i].r,
                picture.pixels@[i].g,
                picture.pixels@[i].b,
            ),
{
    let mut out: Vec<u32> = Vec::new();
    let mut i: usize = 0;
    while i < picture.pixels.len()
        invariant
            i <= picture.pixels@.len(),
            picture.wf(),
            out@ == Seq::new(i as nat, |k: int| shown(picture.pixels@[k])),
            forall|k: int|
                #![trigger out@[k]]
                0 <= k < i && picture.pixels@[k].a == 255 ==> out@[k] == packed(
                    picture.pixels@[k].r,
                    picture.pixels@[k].g,
                    picture.pixels@[k].b,
                ),
        decreases picture.pixels@.len() - i,
    {
        let p: Pixel = picture.pixels[i];
        assert(p.wf());
        let (r, g, b) = demultiplied(p);
        out.push(pack(r, g, b));
        i = i + 1;
    }
    out
}

/// No two colours look the same on the screen.
pub proof fn lemma_packing_is_faithful(r: u8, g: u8, b: u8, s: u8, h: u8, c: u8)
    requires
        packed(r, g, b) == packed(s, h, c),
    ensures
        r == s && g == h && b == c,
{
}

// ---------------------------------------------------------------------------
// What each of these draws
// ---------------------------------------------------------------------------

/// A colour over a pixel: the share of its opacity of the colour, and the share that is
/// left of what was there, each rounded down; no colour above the opacity, which is that of
/// the colour and the rest of what was there.
pub proof fn lemma_a_colour_mixes_with_what_is_under_it(under: Pixel, r: u8, g: u8, b: u8, a: u8)
    requires
        under.wf(),
        a > 0,
    ensures
        ({
            let p = over(under, r, g, b, a);
            let rest = 255 - a as int;
            let red = r * a / 255 + under.r * rest / 255;
            let green = g * a / 255 + under.g * rest / 255;
            let blue = b * a / 255 + under.b * rest / 255;
            let alpha = a + under.a * rest / 255;
            &&& p.a == alpha
            &&& p.r == (if red < alpha {
                red
            } else {
                alpha
            })
            &&& p.g == (if green < alpha {
                green
            } else {
                alpha
            })
            &&& p.b == (if blue < alpha {
                blue
            } else {
                alpha
            })
            &&& p.wf()
        }),
{
    let rest = 255 - a as int;
    let u = under.a as int;
    assert(0 <= u * rest / 255 <= rest) by (nonlinear_arith)
        requires
            0 <= u <= 255,
            0 <= rest,
    ;
    lemma_share(r as int, a as int);
    lemma_share(g as int, a as int);
    lemma_share(b as int, a as int);
    lemma_share(under.r as int, rest);
    lemma_share(under.g as int, rest);
    lemma_share(under.b as int, rest);
}

proof fn lemma_share(c: int, by: int)
    requires
        0 <= c <= 255,
        0 <= by <= 255,
    ensures
        0 <= c * by / 255 <= by,
{
    assert(0 <= c * by / 255 <= by) by (nonlinear_arith)
        requires
            0 <= c <= 255,
            0 <= by <= 255,
    ;
}

/// A point of a picture is kept behind the rows above it and the points before it in its
/// row.
pub proof fn lemma_rows_stand_one_behind_the_other(width: int, x: int, y: int)
    ensures
        place(width, 0, 0) == 0,
        place(width, x + 1, y) == place(width, x, y) + 1,
        place(width, x, y + 1) == place(width, x, y) + width,
{
    assert((y + 1) * width == y * width + width) by (nonlinear_arith);
}

/// Drawing on a point changes that point, and one outside the picture none.
pub proof fn lemma_a_dot_changes_one_point(
    under: Picture,
    x: int,
    y: int,
    r: u8,
    g: u8,
    b: u8,
    a: u8,
    i: int,
)
    requires
        under.wf(),
        0 <= i < under.pixels@.len(),
    ensures
        ({
            let d = dotted(under, x, y, r, g, b, a);
            let inside = 0 <= x < under.width && 0 <= y < under.height;
            &&& d.len() == under.pixels@.len()
            &&& inside && i == y * under.width + x ==> d[i] == over(under.pixels@[i], r, g, b, a)
            &&& !inside || i != y * under.width + x ==> d[i] == under.pixels@[i]
        }),
{
    if 0 <= x < under.width && 0 <= y < under.height {
        lemma_place(under.width as int, under.height as int, x, y);
    }
}

/// A point of a picture shows the pixel of the image that falls on it: so many columns from
/// the image's left and rows from its top. It stays as it was where the image does not
/// reach, and outside the region.
pub proof fn lemma_an_image_is_drawn_point_by_point(
    under: Picture,
    left: int,
    top: int,
    width: int,
    rgba: Seq<u8>,
    region: Option<Region>,
    x: int,
    y: int,
)
    requires
        under.wf(),
        width > 0,
        0 <= x < under.width,
        0 <= y < under.height,
    ensures
        ({
            let at = y * under.width + x;
            let k = (y - top) * width + (x - left);
            let shown = drawn(under, left, top, width, rgba, region, at);
            let within = region is None || (region->0.x0 <= x < region->0.x1 && region->0.y0 <= y
                < region->0.y1);
            let covered = left <= x < left + width && top <= y && 4 * k + 3 < rgba.len();
            &&& within && covered ==> shown == over(
                under.pixels@[at],
                rgba[4 * k],
                rgba[4 * k + 1],
                rgba[4 * k + 2],
                rgba[4 * k + 3],
            )
            &&& !within || !covered ==> shown == under.pixels@[at]
        }),
{
    lemma_place(under.width as int, under.height as int, x, y);
    let k = (y - top) * width + (x - left);
    if left <= x < left + width && top <= y {
        assert(k >= 0) by (nonlinear_arith)
            requires
                k == (y - top) * width + (x - left),
                y >= top,
                x >= left,
                width > 0,
        ;
        assert(4 * k + 3 < rgba.len() <==> k < rgba.len() / 4);
    }
}

/// A tinted image has one colour everywhere, with the opacity of each pixel as given.
pub proof fn lemma_a_tint_has_one_colour(opacities: Seq<u8>, r: u8, g: u8, b: u8, i: int)
    requires
        0 <= i < opacities.len(),
    ensures
        ({
            let t = tint(opacities, r, g, b);
            &&& t.len() == 4 * opacities.len()
            &&& t[4 * i] == r && t[4 * i + 1] == g && t[4 * i + 2] == b
            &&& t[4 * i + 3] == opacities[i]
        }),
{
}

/// A mask is open on the points of its region and shut on all others.
pub proof fn lemma_a_mask_is_open_on_its_region(
    width: u32,
    height: u32,
    region: Region,
    x: int,
    y: int,
)
    requires
        0 <= x < width,
        0 <= y < height,
    ensures
        ({
            let m = mask(width, height, region);
            let at = y * width + x;
            let within = region.x0 <= x < region.x1 && region.y0 <= y < region.y1;
            &&& m.len() == width * height
            &&& within ==> m[at] == 255
            &&& !within ==> m[at] == 0
        }),
{
    lemma_place(width as int, height as int, x, y);
}

/// On the screen red stands highest, then green, then blue, eight bits each.
pub proof fn lemma_red_stands_highest(r: u8, g: u8, b: u8, p: Pixel)
    ensures
        packed(r, g, b) == 65536 * r + 256 * g + b,
        shown(p) == packed(straight(p.r, p.a), straight(p.g, p.a), straight(p.b, p.a)),
{
}

} // verus!
