//! Pixels, pictures and icons.

use rustydlp::assets::{load, AppAssets, Asset, ImageSource, Served};
use rustydlp::pixels::{
    blend_over, clip_mask, coverage, draw_rgba, pack, present, tinted, Picture, Pixel, Region,
};
use rustydlp::svg::{plain_drawing, plain_under, SvgRenderer};

fn px(r: u8, g: u8, b: u8, a: u8) -> Pixel {
    Pixel { r, g, b, a }
}

fn black(width: u32, height: u32) -> Picture {
    Picture {
        width,
        height,
        pixels: vec![px(0, 0, 0, 255); (width * height) as usize],
    }
}

#[test]
fn an_opaque_colour_hides_and_a_clear_one_does_not() {
    let mut p = black(2, 1);
    blend_over(&mut p, 1, 0, 10, 20, 30, 255);
    assert_eq!(p.pixels, vec![px(0, 0, 0, 255), px(10, 20, 30, 255)]);
    blend_over(&mut p, 1, 0, 99, 99, 99, 0);
    assert_eq!(p.pixels[1], px(10, 20, 30, 255));
}

#[test]
fn half_a_colour_lets_half_through() {
    let mut p = black(1, 1);
    blend_over(&mut p, 0, 0, 255, 100, 0, 128);
    assert_eq!(p.pixels[0], px(128, 50, 0, 255));
    let mut clear = Picture {
        width: 1,
        height: 1,
        pixels: vec![px(0, 0, 0, 0)],
    };
    blend_over(&mut clear, 0, 0, 255, 255, 255, 100);
    assert_eq!(clear.pixels[0], px(100, 100, 100, 100));
}

#[test]
fn nothing_is_drawn_outside_the_picture() {
    let mut p = black(2, 2);
    for (x, y) in [(-1, 0), (0, -1), (2, 0), (0, 2), (i64::MIN, 0)] {
        blend_over(&mut p, x, y, 9, 9, 9, 255);
    }
    assert_eq!(p.pixels, black(2, 2).pixels);
}

#[test]
fn an_image_lands_where_it_is_put_and_within_its_region() {
    let mut p = black(3, 2);
    // Two wide, two tall: red green / blue white.
    let image = [
        255, 0, 0, 255, 0, 255, 0, 255, 0, 0, 255, 255, 255, 255, 255, 255,
    ];
    draw_rgba(&mut p, 1, 0, 2, &image, None);
    let dark = px(0, 0, 0, 255);
    let (red, green) = (px(255, 0, 0, 255), px(0, 255, 0, 255));
    let (blue, white) = (px(0, 0, 255, 255), px(255, 255, 255, 255));
    assert_eq!(p.pixels, vec![dark, red, green, dark, blue, white]);

    let mut cut = black(3, 2);
    let region = Region {
        x0: 0,
        y0: 0,
        x1: 2,
        y1: 1,
    };
    draw_rgba(&mut cut, -1, 0, 2, &image, Some(region));
    assert_eq!(cut.pixels, vec![green, dark, dark, dark, dark, dark]);
}

#[test]
fn an_icon_takes_its_tint_and_keeps_its_coverage() {
    let t = tinted(&[0, 128, 255], 0xa3, 0xa3, 0xa3);
    assert_eq!(
        t,
        vec![0xa3, 0xa3, 0xa3, 0, 0xa3, 0xa3, 0xa3, 128, 0xa3, 0xa3, 0xa3, 255]
    );
    assert_eq!(coverage(&t), vec![0, 128, 255]);
}

#[test]
fn a_mask_lets_its_region_through() {
    let region = Region {
        x0: 1,
        y0: 0,
        x1: 9,
        y1: 1,
    };
    assert_eq!(clip_mask(3, 2, region), vec![0, 255, 255, 0, 0, 0]);
}

#[test]
fn the_screen_gets_colours_without_their_opacity() {
    let p = Picture {
        width: 3,
        height: 1,
        pixels: vec![px(1, 2, 3, 255), px(2, 3, 5, 40), px(0, 0, 0, 0)],
    };
    assert_eq!(present(&p), vec![0x010203, pack(13, 19, 32), 0]);
    assert_eq!(pack(0xff, 0, 1), 0xff0001);
}

fn file(path: &str, data: &str) -> Asset {
    Asset {
        path: path.to_string(),
        data: data.as_bytes().to_vec(),
    }
}

const PLAY: &str = r#"<svg xmlns="http://www.w3.org/2000/svg" width="24" height="24"><path d="M5 3l14 9-14 9z"/></svg>"#;

#[test]
fn our_own_assets_come_before_the_bundled_ones() {
    let assets = AppAssets {
        own: vec![file("icons/play.svg", PLAY), file("fonts/a.ttf", "x")],
    };
    assert!(matches!(assets.load(""), Served::Nothing));
    assert!(matches!(assets.load("icons/play.svg"), Served::Own(d) if d == PLAY.as_bytes()));
    assert!(matches!(assets.load("icons/star.svg"), Served::Bundled));
    assert_eq!(
        assets.list(vec!["icons/star.svg".to_string()], "icons/"),
        vec!["icons/star.svg", "icons/play.svg"]
    );
    assert!(load(&assets.own, "nope").is_none());
}

#[test]
fn a_frame_has_to_be_complete() {
    assert!(ImageSource::frame(2, 1, vec![0; 8], 7).is_some());
    assert!(ImageSource::frame(2, 1, vec![0; 7], 7).is_none());
    assert!(matches!(ImageSource::path("/a.png"), ImageSource::Path(p) if p == "/a.png"));
}

/// A missing path must be recorded, not retried, and must not panic.
#[test]
fn a_missing_icon_is_cached_as_a_failure() {
    let mut r = SvgRenderer::new();
    let none: Vec<Asset> = Vec::new();
    assert!(!r.prepare(&none, "icons/nope.svg"));
    assert!(r.drawings.iter().any(|d| d.path == "icons/nope.svg"), "the miss is remembered");
    assert!(!r.prepare(&vec![file("icons/nope.svg", PLAY)], "icons/nope.svg"));
    assert!(r.tree("icons/nope.svg").is_none());
    assert_eq!(r.drawings.len(), 1);
}

/// A drawing has to parse, rasterize to some coverage, and come back in the tint
/// colour rather than its own black.
#[test]
fn an_icon_rasterizes_to_a_mask_and_takes_the_tint() {
    let files = vec![file("icons/play.svg", PLAY), file("icons/bad.svg", "<svg")];
    assert!(plain_under(&files, "icons/play.svg") && plain_under(&files, "icons/bad.svg"));
    let mut r = SvgRenderer::new();
    assert!(r.prepare(&files, "icons/play.svg"));
    assert!(!r.prepare(&files, "icons/bad.svg"));
    let tree = r.tree("icons/play.svg").unwrap();
    let mut pixmap = resvg::tiny_skia::Pixmap::new(24, 24).unwrap();
    resvg::render(tree, resvg::tiny_skia::Transform::identity(), &mut pixmap.as_mut());
    let drawn = pixmap.data().to_vec();
    assert!(r.mask("icons/play.svg", 24, 24).is_none());
    r.keep_mask("icons/play.svg", 24, 24, &drawn);
    r.keep_mask("icons/play.svg", 24, 24, &[]);
    assert!(r.mask("icons/play.svg", 16, 16).is_none());
    let rgba = tinted(r.mask("icons/play.svg", 24, 24).unwrap(), 0xa3, 0xa3, 0xa3);
    assert_eq!(rgba.len(), 24 * 24 * 4);

    let covered: Vec<&[u8]> = rgba.chunks_exact(4).filter(|px| px[3] > 0).collect();
    assert!(!covered.is_empty(), "the icon drew nothing");
    for px in covered {
        assert_eq!(
            (px[0], px[1], px[2]),
            (0xa3, 0xa3, 0xa3),
            "covered pixels must carry the tint, not the drawing's own colour",
        );
    }
}

/// Per-shape opacity carries depth, and that has to survive into the mask as
/// partial coverage rather than being flattened.
#[test]
fn per_shape_opacity_becomes_partial_coverage() {
    let faded = r#"<svg xmlns="http://www.w3.org/2000/svg" width="8" height="8"><rect width="8" height="8" opacity="0.5"/></svg>"#;
    let mut r = SvgRenderer::new();
    assert!(r.prepare(&vec![file("f.svg", faded)], "f.svg"));
    let mut pixmap = resvg::tiny_skia::Pixmap::new(8, 8).unwrap();
    resvg::render(
        r.tree("f.svg").unwrap(),
        resvg::tiny_skia::Transform::identity(),
        &mut pixmap.as_mut(),
    );
    r.keep_mask("f.svg", 8, 8, pixmap.data());
    let alphas = r.mask("f.svg", 8, 8).unwrap();
    assert!(alphas.iter().any(|&a| a > 0 && a < 255), "expected partial coverage");
}

#[test]
fn a_region_ends_before_its_last_column_and_row() {
    let region = Region { x0: 1, y0: 2, x1: 4, y1: 5 };
    assert!(region.contains(1, 2));
    assert!(region.contains(3, 4));
    assert!(!region.contains(4, 4));
    assert!(!region.contains(3, 5));
    assert!(!region.contains(0, 2));
}

/// A box that hides what overflows it clips what stands in it.
#[test]
fn an_overflow_hidden_ancestor_clips_its_children() {
    let mut p = Picture {
        width: 100,
        height: 100,
        pixels: vec![px(0, 0, 0, 0); 100 * 100],
    };
    let white = vec![255u8; 4 * 100 * 200];
    let clip = Region { x0: 0, y0: 0, x1: 100, y1: 20 };
    draw_rgba(&mut p, 0, 0, 100, &white, Some(clip));
    assert_eq!(p.pixels[10 * 100 + 50], px(0xff, 0xff, 0xff, 0xff), "inside the clip");
    assert_eq!(p.pixels[50 * 100 + 50].a, 0, "below the clip, nothing drawn");
}

/// The drawing under a path is that very one, whatever else was read before it.
#[test]
fn a_path_leads_to_its_own_drawing() {
    let wide = r#"<svg xmlns="http://www.w3.org/2000/svg" width="30" height="8"><rect width="8" height="8"/></svg>"#;
    let files = vec![file("a.svg", PLAY), file("b.svg", wide)];
    let mut r = SvgRenderer::new();
    assert!(r.prepare(&files, "a.svg"));
    assert!(r.prepare(&files, "b.svg"));
    assert_eq!(r.tree("a.svg").unwrap().size().width(), 24.0);
    assert_eq!(r.tree("b.svg").unwrap().size().width(), 30.0);
    assert!(r.tree("c.svg").is_none());
}

#[test]
fn only_plain_drawings_are_read() {
    assert!(plain_drawing(PLAY.as_bytes()));
    assert!(plain_drawing(b""));
    assert!(plain_drawing(b"<svg><!-- clip-rule --><linearGradient id='a'/></svg>"));
    for barred in [
        "<svg><filter/></svg>",
        "<svg><use href='#a'/></svg>",
        "<svg><pattern/></svg>",
        "<svg><mask/></svg>",
        "<svg><g clip-path='none'/></svg>",
        "<svg><marker/></svg>",
        "<svg><style/></svg>",
        "<s:svg><s:style/></s:svg>",
        "<svg><text/></svg>",
        "<s:svg><s:text/></s:svg>",
        "<svg>&amp;</svg>",
        "<svg>\u{e9}</svg>",
    ] {
        assert!(!plain_drawing(barred.as_bytes()), "{barred}");
    }
    assert!(!plain_under(&vec![file("a.svg", "<filter/>")], "a.svg"));
    assert!(plain_under(&vec![file("a.svg", "<filter/>")], "b.svg"));
}
