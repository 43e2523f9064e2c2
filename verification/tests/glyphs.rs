//! Fonts and glyph coverage.
use cosmic_text::{Attrs, Buffer, Color, FontSystem, Metrics, Shaping, SwashCache};
use kirie_scene::assets::AssetSource;
use kirie_scene::glyphs::{
    bitmap_edge, ceil_clamp, chosen_family, clamp_edge, family_hint, font_file, h_align, has_box, is_blank,
    plot_glyphs, rasterize, v_align, written_lines, GlyphPixel, HAlign, TextFonts, TextRaster, VAlign,
    MAX_EDGE,
};

#[test]
fn family_hint_mapping() {
    assert_eq!(family_hint(""), None);
    assert_eq!(family_hint("   "), None);
    assert_eq!(family_hint("systemfont_arial").as_deref(), Some("arial"));
    assert_eq!(
        family_hint("fonts/VCR_OSD_MONO.ttf").as_deref(),
        Some("VCR_OSD_MONO")
    );
    assert_eq!(
        family_hint("workshop/123/My Font.otf").as_deref(),
        Some("My Font")
    );
}

/// Fonts without those of the machine.
fn no_fonts() -> TextFonts {
    let db = cosmic_text::fontdb::Database::new();
    TextFonts::new(FontSystem::new_with_locale_and_db("en-US".to_owned(), db), SwashCache::new())
}

/// A text laid out, drawn and plotted without padding. A text without a font
/// has its lines alone.
fn plotted(fonts: &mut TextFonts, text: &str, size: f32, bounds: [f32; 2]) -> Option<TextRaster> {
    let mut glyphs = Vec::new();
    let (mut lines, mut w, mut h) = (written_lines(text), 0.0f32, 0.0f32);
    if fonts.font_system.db().len() == 0 {
        h = lines as f32 * size * 1.2;
    } else {
        let mut buffer = Buffer::new(&mut fonts.font_system, Metrics::new(size, size * 1.2));
        buffer.set_size(None, None);
        buffer.set_text(text, &Attrs::new(), Shaping::Advanced, None);
        buffer.shape_until_scroll(&mut fonts.font_system, false);
        lines = 0;
        for run in buffer.layout_runs() {
            lines += 1;
            w = w.max(run.line_w);
            h = h.max(run.line_top + run.line_height);
        }
        let white = Color::rgba(255, 255, 255, 255);
        buffer.draw(&mut fonts.font_system, &mut fonts.swash, white, |x, y, w, h, c| {
            glyphs.push(GlyphPixel { x, y, w, h, a: c.a() });
        });
    }
    let width = bitmap_edge(bounds[0].to_bits(), w.to_bits());
    let height = bitmap_edge(bounds[1].to_bits(), h.to_bits());
    rasterize(text, &glyphs, lines, 0, 0, width, height)
}

fn system_fonts() -> TextFonts {
    TextFonts::new(FontSystem::new(), SwashCache::new())
}

#[test]
fn multiline_line_count_matches_newlines() {
    for mut fonts in [system_fonts(), no_fonts()] {
        let r = plotted(&mut fonts, "line one\nline two\nline three", 32.0, [0.0, 0.0])
            .expect("non-empty text rasterizes");
        assert_eq!(r.line_count, 3, "three newline-separated lines");
        assert!(r.height >= (32.0 * 1.2 * 2.0) as u32, "height {} spans multiple lines", r.height);
        assert!(r.width > 0 && r.height > 0, "non-degenerate bounds");
    }
}

#[test]
fn single_line_bounds() {
    for mut fonts in [system_fonts(), no_fonts()] {
        let r = plotted(&mut fonts, "Hello", 24.0, [0.0, 0.0]).expect("non-empty text rasterizes");
        assert_eq!(r.line_count, 1);
        assert!(r.height > 0);
        if fonts.font_system.db().len() > 0 {
            assert!(r.width > 1, "measured a non-empty advance");
            assert!(r.any_coverage, "rasterized real glyph coverage");
        } else {
            assert!(!r.any_coverage);
        }
    }
}

#[test]
fn box_size_sets_bitmap_dims() {
    for mut fonts in [system_fonts(), no_fonts()] {
        let r = plotted(&mut fonts, "x", 16.0, [200.0, 120.0]).expect("rasterizes");
        assert_eq!(r.width, 200);
        assert_eq!(r.height, 120);
        assert_eq!(r.pixels.len(), 200 * 120 * 4);
    }
}

#[test]
fn empty_text_is_none() {
    for mut fonts in [system_fonts(), no_fonts()] {
        assert!(plotted(&mut fonts, "", 32.0, [0.0, 0.0]).is_none());
        assert!(plotted(&mut fonts, "\r\n", 32.0, [0.0, 0.0]).is_none());
    }
}

#[test]
fn oversize_is_clamped() {
    let edge = |v: f32| ceil_clamp(v.to_bits());
    assert_eq!(edge(f32::INFINITY), 1);
    assert_eq!(edge(-5.0), 1);
    assert_eq!(edge(1_000_000.0), MAX_EDGE);
    assert_eq!(edge(63.2), 64);
}

#[test]
fn extents_are_rounded_up() {
    let edge = |v: f32| ceil_clamp(v.to_bits());
    for v in [1e-40f32, 1e-7, 0.5, 1.0, 1.0000001, 2.0, 3.999, 4095.0001, 4095.9, 4096.0, 4096.5, 8.4e6, 1e30] {
        assert_eq!(edge(v), (v.ceil() as u32).clamp(1, MAX_EDGE), "{}", v);
    }
    for v in [0.0f32, -0.0, f32::NAN, -f32::NAN, f32::NEG_INFINITY, -1e-40] {
        assert_eq!(edge(v), 1, "{}", v);
    }
}

#[test]
fn a_box_counts_above_one() {
    let boxed = |v: f32| has_box(v.to_bits());
    for v in [1.0000001f32, 2.0, f32::MAX, f32::INFINITY] {
        assert!(boxed(v), "{}", v);
    }
    for v in [1.0f32, 0.0, -2.0, f32::NAN, -f32::NAN, f32::NEG_INFINITY] {
        assert!(!boxed(v), "{}", v);
    }
    assert_eq!(bitmap_edge((20.5f32).to_bits(), (7.0f32).to_bits()), 21);
    assert_eq!(bitmap_edge((1.0f32).to_bits(), (7.25f32).to_bits()), 8);
}

#[test]
fn a_text_without_lines_gives_no_bitmap() {
    assert!(rasterize("x", &vec![], 0, 0, 0, 10, 10).is_none());
    let r = rasterize("x", &vec![], 1, 0, 0, 0, 5000).expect("one line");
    assert_eq!((r.width, r.height, r.line_count, r.any_coverage), (1, 4096, 1, false));
    assert_eq!(r.pixels.len(), 4096 * 4);
    assert_eq!((clamp_edge(0), clamp_edge(64), clamp_edge(1_000_000)), (1, 64, MAX_EDGE));
    assert_eq!((written_lines("a"), written_lines("a\n\nb\n")), (1, 4));
}

#[test]
fn the_strongest_coverage_counts() {
    let dot = |x: i32, y: i32, a: u8| GlyphPixel { x, y, w: 1, h: 1, a };
    let r = plot_glyphs(&vec![dot(0, 0, 9), dot(0, 0, 200), dot(0, 0, 30), dot(5, 5, 255)], 1, 0, 2, 1, 1);
    assert_eq!(r.pixels, [0, 0, 0, 0, 255, 255, 255, 200]);
    assert!(r.any_coverage);
    let empty = plot_glyphs(&vec![dot(9, 9, 255), dot(0, 0, 0)], 0, 0, 2, 1, 1);
    assert_eq!(empty.pixels, [0; 8]);
    assert!(!empty.any_coverage);
}

#[test]
fn control_characters_alone_are_blank() {
    assert!(is_blank(""));
    assert!(is_blank("\r\n\u{7f}\u{9f}"));
    assert!(!is_blank(" \n"));
    assert!(!is_blank("\na"));
}

/// A source that has one file, which is no font.
struct NoFont;

impl AssetSource for NoFont {
    fn load(&self, path: &str) -> Option<Vec<u8>> {
        if path == "fonts/a.ttf" {
            Some(b"this is no font".to_vec())
        } else {
            None
        }
    }
}

#[test]
fn bytes_that_are_no_font_give_no_family() {
    let mut fonts = no_fonts();
    assert_eq!(fonts.bundled_family(" fonts/a.ttf ", &NoFont), None);
    assert_eq!(fonts.bundled_family("fonts/a.ttf", &NoFont), None);
    assert_eq!(fonts.bundled_family("systemfont_arial", &NoFont), None);
    assert_eq!(fonts.bundled.len(), 1);
    assert!(font_file("x/Y.OTF") && !font_file("x/y.woff"));
}

#[test]
fn alignment_words() {
    assert_eq!(h_align("left"), HAlign::Left);
    assert_eq!(h_align("right"), HAlign::Right);
    assert_eq!(h_align("elsewhere"), HAlign::Center);
    assert_eq!(v_align("top"), VAlign::Top);
    assert_eq!(v_align("bottom"), VAlign::Bottom);
    assert_eq!(v_align(""), VAlign::Center);
}

#[test]
fn a_bundled_family_wins() {
    assert_eq!(
        chosen_family("fonts/A.ttf", Some("Real".to_owned())).as_deref(),
        Some("Real")
    );
    assert_eq!(chosen_family("fonts/A.ttf", None).as_deref(), Some("A"));
    assert_eq!(chosen_family("", None), None);
}
