//! Text objects: fonts, alignment and glyph coverage.
//!
//! Shaping and drawing are done by `cosmic_text` with the fonts of the machine.
//! This module chooses the font and the size of the bitmap, and collects what
//! was drawn in that bitmap.
use vstd::prelude::*;

use crate::assets::AssetSource;
use crate::table::Table;
use crate::text::{chars_of, same, slice_text, starts_with, trim};

verus! {

/// The fonts known to `cosmic_text`.
#[verifier::external_type_specification]
#[verifier::external_body]
pub struct ExFontSystem(cosmic_text::FontSystem);

/// The glyphs that `cosmic_text` rasterized.
#[verifier::external_type_specification]
#[verifier::external_body]
pub struct ExSwashCache(cosmic_text::SwashCache);

/// The first family name of the first face in a font file, if it holds one.
pub uninterp spec fn font_family_of(bytes: Seq<u8>) -> Option<Seq<char>>;

/// Calls `fontdb::Database::load_font_source` on the bytes of a font file and
/// looks up the first face that it added (`Database::face`). The result is the
/// first family name of that face and depends on the bytes alone. What the
/// database holds afterwards is left unsaid.
#[verifier::external_body]
fn load_face(fonts: &mut cosmic_text::FontSystem, bytes: Vec<u8>) -> (r: Option<String>)
    ensures
        crate::fields::opt_text(r) == font_family_of(bytes@),
{
    let data = std::sync::Arc::new(bytes);
    let db = fonts.db_mut();
    let ids = db.load_font_source(cosmic_text::fontdb::Source::Binary(data));
    let face = db.face(*ids.first()?)?;
    face.families.first().map(|f| f.0.clone())
}

/// One rectangle of glyph coverage.
#[derive(Clone, Copy, Debug, PartialEq, Eq, Structural)]
pub struct GlyphPixel {
    /// Left edge.
    pub x: i32,
    /// Top edge.
    pub y: i32,
    /// Width.
    pub w: u32,
    /// Height.
    pub h: u32,
    /// Coverage.
    pub a: u8,
}

/// The fonts of a scene's text objects.
pub struct TextFonts {
    /// The fonts of the machine, and those loaded from the scene.
    pub font_system: cosmic_text::FontSystem,
    /// Rasterized glyphs.
    pub swash: cosmic_text::SwashCache,
    /// For each font file that was asked for, the family that it holds.
    pub bundled: Table<Option<String>>,
}

/// An optional text as it is kept.
pub open spec fn families(t: Table<Option<String>>) -> Map<Seq<char>, Option<Seq<char>>> {
    t@.map_values(|f: Option<String>| crate::fields::opt_text(f))
}

/// One character in lower case, where it is a letter of ASCII.
pub open spec fn lowered(c: char) -> char {
    if 'A' <= c <= 'Z' {
        (c as u32 + 32) as char
    } else {
        c
    }
}

/// Whether a text ends in another, letters of ASCII in either case.
pub open spec fn ends_in(s: Seq<char>, tail: Seq<char>) -> bool {
    tail.len() <= s.len() && forall|i: int|
        0 <= i < tail.len() ==> lowered(#[trigger] s[s.len() - tail.len() + i]) == tail[i]
}

/// Whether a text names a font file.
pub open spec fn is_font_file(s: Seq<char>) -> bool {
    ends_in(s, ".ttf"@) || ends_in(s, ".otf"@) || ends_in(s, ".ttc"@)
}

/// One character in lower case, where it is a letter of ASCII.
fn lower(c: char) -> (r: char)
    ensures
        r == lowered(c),
{
    if 'A' <= c && c <= 'Z' {
        (c as u8 + 32) as char
    } else {
        c
    }
}

/// Whether a text ends in another, letters of ASCII in either case.
fn ends_with(s: &Vec<char>, tail: &str) -> (r: bool)
    ensures
        r == ends_in(s@, tail@),
{
    let t = chars_of(tail);
    if t.len() > s.len() {
        return false;
    }
    let n: usize = s.len();
    let off: usize = n - t.len();
    let mut i: usize = 0;
    while i < t.len()
        invariant
            i <= t@.len() <= s@.len(),
            n == s@.len(),
            t@ == tail@,
            off == s@.len() - t@.len(),
            forall|k: int| 0 <= k < i ==> lowered(#[trigger] s@[s@.len() - t@.len() + k]) == t@[k],
        decreases t@.len() - i,
    {
        if lower(s[off + i]) != t[i] {
            assert(lowered(s@[s@.len() - t@.len() + i]) != tail@[i as int]);
            return false;
        }
        i = i + 1;
    }
    true
}

/// Whether a text names a font file.
pub fn font_file(s: &str) -> (r: bool)
    ensures
        r == is_font_file(s@),
{
    let c = chars_of(s);
    ends_with(&c, ".ttf") || ends_with(&c, ".otf") || ends_with(&c, ".ttc")
}

/// What an answer of an asset source says of a font.
pub open spec fn family_in(answer: Option<Seq<u8>>) -> Option<Seq<char>> {
    match answer {
        Some(bytes) => font_family_of(bytes),
        None => None,
    }
}

proof fn lemma_families_insert(
    m: Map<Seq<char>, Option<String>>,
    k: Seq<char>,
    v: Option<String>,
)
    ensures
        m.insert(k, v).map_values(|f: Option<String>| crate::fields::opt_text(f)) == m.map_values(
            |f: Option<String>| crate::fields::opt_text(f),
        ).insert(k, crate::fields::opt_text(v)),
{
    assert(m.insert(k, v).map_values(|f: Option<String>| crate::fields::opt_text(f))
        =~= m.map_values(|f: Option<String>| crate::fields::opt_text(f)).insert(
        k,
        crate::fields::opt_text(v),
    ));
}

/// A copy of an optional text.
fn copy_family(f: &Option<String>) -> (r: Option<String>)
    ensures
        crate::fields::opt_text(r) == crate::fields::opt_text(*f),
{
    match f {
        Some(s) => Some(s.clone()),
        None => None,
    }
}

impl TextFonts {
    /// Each font file stands once.
    pub open spec fn wf(&self) -> bool {
        self.bundled.wf()
    }

    /// The fonts of the machine, with none of a scene.
    pub fn new(font_system: cosmic_text::FontSystem, swash: cosmic_text::SwashCache) -> (r: Self)
        ensures
            r.wf(),
            families(r.bundled) == Map::<Seq<char>, Option<Seq<char>>>::empty(),
            r.font_system == font_system,
            r.swash == swash,
    {
        let bundled: Table<Option<String>> = Table::new();
        assert(families(bundled) =~= Map::<Seq<char>, Option<Seq<char>>>::empty());
        TextFonts { font_system, swash, bundled }
    }

    /// The family of a font file that the scene brings along, loaded on first
    /// use. `None` where the text names no font file, or the file is missing
    /// or holds no font. A file is asked for once.
    pub fn bundled_family<S: AssetSource>(&mut self, font: &str, source: &S) -> (r: Option<String>)
        requires
            old(self).wf(),
        ensures
            final(self).wf(),
            ({
                let name = crate::text::trimmed(font@);
                let known = families(old(self).bundled);
                if !is_font_file(name) {
                    r is None && families(final(self).bundled) == known
                } else if known.dom().contains(name) {
                    crate::fields::opt_text(r) == known[name] && families(final(self).bundled)
                        == known
                } else {
                    exists|answer: Option<Seq<u8>>| #[trigger]
                        crate::assets::answered(source, name, answer) && crate::fields::opt_text(r)
                            == family_in(answer) && families(final(self).bundled) == known.insert(
                            name,
                            family_in(answer),
                        )
                }
            }),
    {
        let name = trim(font);
        if !font_file(name.as_str()) {
            return None;
        }
        if let Some(cached) = self.bundled.get(name.as_str()) {
            return copy_family(cached);
        }
        let path = name.as_str();
        let loaded = source.load(path);
        let ghost answer = crate::assets::bytes_of(loaded);
        assert(call_ensures(S::load, (source, path), loaded));
        assert(crate::assets::answered(source, name@, answer));
        let family = match loaded {
            Some(bytes) => load_face(&mut self.font_system, bytes),
            None => None,
        };
        let kept = copy_family(&family);
        proof {
            lemma_families_insert(self.bundled@, name@, kept);
        }
        self.bundled.insert(name.as_str(), kept);
        family
    }
}

/// Horizontal alignment of a text.
#[derive(Clone, Copy, Debug, PartialEq, Eq, Structural)]
pub enum HAlign {
    /// To the left.
    Left,
    /// In the middle.
    Center,
    /// To the right.
    Right,
}

/// Vertical alignment of a text.
#[derive(Clone, Copy, Debug, PartialEq, Eq, Structural)]
pub enum VAlign {
    /// At the top.
    Top,
    /// In the middle.
    Center,
    /// At the bottom.
    Bottom,
}

/// The horizontal alignment that a text names; the middle by default.
pub fn h_align(s: &str) -> (r: HAlign)
    ensures
        r == if s@ == "left"@ {
            HAlign::Left
        } else if s@ == "right"@ {
            HAlign::Right
        } else {
            HAlign::Center
        },
{
    if same(s, "left") {
        HAlign::Left
    } else if same(s, "right") {
        HAlign::Right
    } else {
        HAlign::Center
    }
}

/// The vertical alignment that a text names; the middle by default.
pub fn v_align(s: &str) -> (r: VAlign)
    ensures
        r == if s@ == "top"@ {
            VAlign::Top
        } else if s@ == "bottom"@ {
            VAlign::Bottom
        } else {
            VAlign::Center
        },
{
    if same(s, "top") {
        VAlign::Top
    } else if same(s, "bottom") {
        VAlign::Bottom
    } else {
        VAlign::Center
    }
}

/// The text behind the last slash or backslash.
pub open spec fn file_part(s: Seq<char>) -> Seq<char>
    decreases s.len(),
{
    if s.len() == 0 || s.last() == '/' || s.last() == '\\' {
        Seq::empty()
    } else {
        file_part(s.drop_last()).push(s.last())
    }
}

/// The text before the last dot; all of it where there is none.
pub open spec fn stem_part(s: Seq<char>) -> Seq<char> {
    match last_dot(s) {
        Some(i) => s.take(i),
        None => s,
    }
}

/// Where the last dot stands.
pub open spec fn last_dot(s: Seq<char>) -> Option<int>
    decreases s.len(),
{
    if s.len() == 0 {
        None
    } else if s.last() == '.' {
        Some(s.len() - 1)
    } else {
        last_dot(s.drop_last())
    }
}

/// A text, or nothing where it is empty.
pub open spec fn nonempty(s: Seq<char>) -> Option<Seq<char>> {
    if s.len() == 0 {
        None
    } else {
        Some(s)
    }
}

/// The font family that a font field hints at: the name behind `systemfont_`,
/// or the stem of a file name. Nothing where that leaves no name.
pub open spec fn hinted(font: Seq<char>) -> Option<Seq<char>> {
    let f = crate::text::trimmed(font);
    if f.len() == 0 {
        None
    } else if crate::text::begins(f, "systemfont_"@) {
        nonempty(crate::text::trimmed(f.skip("systemfont_"@.len() as int)))
    } else {
        nonempty(crate::text::trimmed(stem_part(file_part(f))))
    }
}

/// The text behind the last slash or backslash.
fn after_slash(s: &Vec<char>) -> (r: String)
    ensures
        r@ == file_part(s@),
{
    let mut n: usize = s.len();
    assert(s@.take(n as int) =~= s@);
    assert(file_part(s@) =~= file_part(s@.take(n as int)) + s@.skip(n as int));
    while n > 0 && s[n - 1] != '/' && s[n - 1] != '\\'
        invariant
            n <= s@.len(),
            file_part(s@) == file_part(s@.take(n as int)) + s@.skip(n as int),
        decreases n,
    {
        let ghost head = s@.take(n as int);
        assert(head.drop_last() =~= s@.take(n - 1));
        assert(seq![s@[n - 1]] + s@.skip(n as int) =~= s@.skip(n - 1));
        assert(file_part(head) =~= file_part(s@.take(n - 1)).push(s@[n - 1]));
        assert(file_part(s@) =~= file_part(s@.take(n - 1)) + s@.skip(n - 1));
        n = n - 1;
    }
    assert(file_part(s@.take(n as int)) =~= Seq::<char>::empty());
    assert(file_part(s@) =~= s@.subrange(n as int, s@.len() as int));
    slice_text(s, n, s.len())
}

/// The text before the last dot; all of it where there is none.
fn before_dot(s: &Vec<char>) -> (r: String)
    ensures
        r@ == stem_part(s@),
{
    let mut n: usize = s.len();
    assert(s@.take(n as int) =~= s@);
    while n > 0
        invariant
            n <= s@.len(),
            last_dot(s@) == last_dot(s@.take(n as int)),
        decreases n,
    {
        assert(s@.take(n as int).drop_last() =~= s@.take(n - 1));
        if s[n - 1] == '.' {
            assert(s@.take(n - 1) =~= s@.subrange(0, n - 1));
            return slice_text(s, 0, n - 1);
        }
        n = n - 1;
    }
    assert(s@ =~= s@.subrange(0, s@.len() as int));
    slice_text(s, 0, s.len())
}

/// A text without white space around it, or nothing where that is empty.
fn some_name(s: &str) -> (r: Option<String>)
    ensures
        crate::fields::opt_text(r) == nonempty(crate::text::trimmed(s@)),
{
    let t = trim(s);
    let n = chars_of(t.as_str());
    if n.len() == 0 {
        None
    } else {
        Some(t)
    }
}

/// The font family that a font field hints at.
pub fn family_hint(font: &str) -> (r: Option<String>)
    ensures
        crate::fields::opt_text(r) == hinted(font@),
{
    let f = trim(font);
    let chars = chars_of(f.as_str());
    if chars.len() == 0 {
        return None;
    }
    if starts_with(f.as_str(), "systemfont_") {
        let head = chars_of("systemfont_");
        let name = slice_text(&chars, head.len(), chars.len());
        assert(name@ =~= f@.skip("systemfont_"@.len() as int));
        return some_name(name.as_str());
    }
    let file = after_slash(&chars);
    let file_chars = chars_of(file.as_str());
    let stem = before_dot(&file_chars);
    some_name(stem.as_str())
}

/// The family to shape with: one that the scene brought along, else the
/// hinted one, else none in particular.
pub fn chosen_family(font: &str, bundled: Option<String>) -> (r: Option<String>)
    ensures
        crate::fields::opt_text(r) == match bundled {
            Some(b) => Some(b@),
            None => hinted(font@),
        },
{
    match bundled {
        Some(b) => Some(b),
        None => family_hint(font),
    }
}

/// The greatest width and height of a text bitmap.
pub const MAX_EDGE: u32 = 4096;

/// A rasterized text: white, with the coverage as alpha.
#[derive(Debug)]
pub struct TextRaster {
    /// The pixels, row by row, four bytes each.
    pub pixels: Vec<u8>,
    /// Width in pixels.
    pub width: u32,
    /// Height in pixels.
    pub height: u32,
    /// Lines laid out.
    pub line_count: usize,
    /// Whether anything is covered.
    pub any_coverage: bool,
}

/// Whether a glyph rectangle, moved by an offset, covers a pixel.
pub open spec fn covers(g: GlyphPixel, dx: int, dy: int, x: int, y: int) -> bool {
    &&& g.w <= 0x7fff_ffff
    &&& g.h <= 0x7fff_ffff
    &&& g.x + dx <= x < g.x + dx + g.w
    &&& g.y + dy <= y < g.y + dy + g.h
}

/// The strongest coverage of a pixel.
pub open spec fn strongest(glyphs: Seq<GlyphPixel>, dx: int, dy: int, x: int, y: int) -> u8
    decreases glyphs.len(),
{
    if glyphs.len() == 0 {
        0
    } else {
        let before = strongest(glyphs.drop_last(), dx, dy, x, y);
        let g = glyphs.last();
        if covers(g, dx, dy, x, y) && g.a > before {
            g.a
        } else {
            before
        }
    }
}

/// The coverage of a pixel is the greatest alpha of the rectangles that cover
/// it, and zero where none does.
pub proof fn law_strongest_is_greatest(
    glyphs: Seq<GlyphPixel>,
    dx: int,
    dy: int,
    x: int,
    y: int,
)
    ensures
        forall|i: int|
            0 <= i < glyphs.len() && covers(#[trigger] glyphs[i], dx, dy, x, y) ==> glyphs[i].a
                <= strongest(glyphs, dx, dy, x, y),
        strongest(glyphs, dx, dy, x, y) > 0 ==> exists|i: int|
            0 <= i < glyphs.len() && covers(#[trigger] glyphs[i], dx, dy, x, y) && glyphs[i].a
                == strongest(glyphs, dx, dy, x, y),
    decreases glyphs.len(),
{
    if glyphs.len() > 0 {
        let head = glyphs.drop_last();
        law_strongest_is_greatest(head, dx, dy, x, y);
        assert forall|i: int|
            0 <= i < glyphs.len() && covers(#[trigger] glyphs[i], dx, dy, x, y) implies glyphs[i].a
            <= strongest(glyphs, dx, dy, x, y) by {
            if i < head.len() {
                assert(head[i] == glyphs[i]);
            }
        }
        if strongest(glyphs, dx, dy, x, y) > 0 {
            let g = glyphs.last();
            if covers(g, dx, dy, x, y) && g.a > strongest(head, dx, dy, x, y) {
                assert(glyphs[glyphs.len() - 1] == g);
            } else {
                let i = choose|i: int|
                    0 <= i < head.len() && covers(#[trigger] head[i], dx, dy, x, y) && head[i].a
                        == strongest(head, dx, dy, x, y);
                assert(glyphs[i] == head[i]);
            }
        }
    }
}

/// One pixel of a coverage: white behind its alpha, black where nothing is.
pub open spec fn pixel_of(a: u8) -> Seq<u8> {
    if a == 0 {
        seq![0u8, 0, 0, 0]
    } else {
        seq![255u8, 255, 255, a]
    }
}

/// The first `n` pixels of a row of coverage.
pub open spec fn row_pixels(row: Seq<u8>, n: nat) -> Seq<u8>
    decreases n,
{
    if n == 0 {
        Seq::empty()
    } else {
        row_pixels(row, (n - 1) as nat) + pixel_of(row[n - 1])
    }
}

/// The pixels of the first `n` rows of coverage.
pub open spec fn image_pixels(rows: Seq<Seq<u8>>, n: nat) -> Seq<u8>
    decreases n,
{
    if n == 0 {
        Seq::empty()
    } else {
        image_pixels(rows, (n - 1) as nat) + row_pixels(rows[n - 1], rows[n - 1].len())
    }
}

/// The coverage of every pixel of a bitmap.
pub open spec fn coverage(
    glyphs: Seq<GlyphPixel>,
    dx: int,
    dy: int,
    width: nat,
    height: nat,
) -> Seq<Seq<u8>> {
    Seq::new(
        height,
        |y: int| Seq::new(width, |x: int| strongest(glyphs, dx, dy, x, y)),
    )
}

/// Rows as they are kept.
spec fn row_views(rows: Seq<Vec<u8>>) -> Seq<Seq<u8>> {
    Seq::new(rows.len(), |i: int| rows[i]@)
}

/// Raise part of a row to at least some coverage.
fn raise(row: &mut Vec<u8>, from: usize, to: usize, a: u8)
    requires
        from <= to <= old(row)@.len(),
    ensures
        final(row)@.len() == old(row)@.len(),
        forall|x: int|
            0 <= x < old(row)@.len() ==> #[trigger] final(row)@[x] == if from <= x < to && a
                > old(row)@[x] {
                a
            } else {
                old(row)@[x]
            },
{
    let ghost before = row@;
    let mut i: usize = from;
    while i < to
        invariant
            from <= i <= to <= row@.len(),
            row@.len() == before.len(),
            forall|x: int|
                0 <= x < before.len() ==> #[trigger] row@[x] == if from <= x < i && a > before[x] {
                    a
                } else {
                    before[x]
                },
        decreases to - i,
    {
        if a > row[i] {
            row.set(i, a);
        }
        i = i + 1;
    }
}

/// A coordinate brought between zero and an upper bound.
fn clipped(v: i64, bound: u32) -> (r: usize)
    ensures
        r <= bound,
        r == if v < 0 {
            0
        } else if v > bound {
            bound as int
        } else {
            v as int
        },
{
    if v < 0 {
        0
    } else if v > bound as i64 {
        bound as usize
    } else {
        v as usize
    }
}

/// Add one rectangle to the coverage.
fn plot(rows: &mut Vec<Vec<u8>>, g: &GlyphPixel, dx: i32, dy: i32, width: u32, height: u32)
    requires
        old(rows)@.len() == height,
        forall|y: int| 0 <= y < height ==> (#[trigger] old(rows)@[y])@.len() == width,
    ensures
        final(rows)@.len() == height,
        forall|y: int| 0 <= y < height ==> (#[trigger] final(rows)@[y])@.len() == width,
        forall|y: int, x: int|
            0 <= y < height && 0 <= x < width ==> #[trigger] final(rows)@[y]@[x] == if covers(
                *g,
                dx as int,
                dy as int,
                x,
                y,
            ) && g.a > old(rows)@[y]@[x] {
                g.a
            } else {
                old(rows)@[y]@[x]
            },
{
    if g.a == 0 || g.w > 0x7fff_ffff || g.h > 0x7fff_ffff {
        return;
    }
    let left: i64 = g.x as i64 + dx as i64;
    let top: i64 = g.y as i64 + dy as i64;
    let from: usize = clipped(left, width);
    let to: usize = clipped(left + g.w as i64, width);
    let first: usize = clipped(top, height);
    let last: usize = clipped(top + g.h as i64, height);
    let ghost before = rows@;
    let mut y: usize = first;
    while y < last
        invariant
            first <= y <= last <= height,
            from <= to <= width,
            rows@.len() == height,
            before.len() == height,
            forall|k: int| 0 <= k < height ==> (#[trigger] rows@[k])@.len() == width,
            forall|k: int| 0 <= k < height ==> (#[trigger] before[k])@.len() == width,
            forall|k: int| y <= k < height ==> #[trigger] rows@[k] == before[k],
            forall|k: int| 0 <= k < first ==> #[trigger] rows@[k] == before[k],
            forall|k: int, x: int|
                first <= k < y && 0 <= x < width ==> #[trigger] rows@[k]@[x] == if from <= x < to
                    && g.a > before[k]@[x] {
                    g.a
                } else {
                    before[k]@[x]
                },
        decreases last - y,
    {
        let ghost held = rows@;
        raise(&mut rows[y], from, to, g.a);
        proof {
            assert forall|k: int, x: int| first <= k < y + 1 && 0 <= x < width implies
                #[trigger] rows@[k]@[x] == if from <= x < to && g.a > before[k]@[x] {
                g.a
            } else {
                before[k]@[x]
            } by {
                if k < y {
                    assert(rows@[k] == held[k]);
                }
            }
        }
        y = y + 1;
    }
}

/// A bitmap without coverage.
fn blank_rows(width: u32, height: u32) -> (rows: Vec<Vec<u8>>)
    ensures
        rows@.len() == height,
        forall|y: int| 0 <= y < height ==> (#[trigger] rows@[y])@.len() == width,
        forall|y: int, x: int|
            0 <= y < height && 0 <= x < width ==> #[trigger] rows@[y]@[x] == 0,
{
    let mut rows: Vec<Vec<u8>> = Vec::new();
    let mut y: u32 = 0;
    while y < height
        invariant
            y <= height,
            rows@.len() == y,
            forall|k: int| 0 <= k < y ==> (#[trigger] rows@[k])@.len() == width,
            forall|k: int, x: int| 0 <= k < y && 0 <= x < width ==> #[trigger] rows@[k]@[x] == 0,
        decreases height - y,
    {
        let mut row: Vec<u8> = Vec::new();
        let mut x: u32 = 0;
        while x < width
            invariant
                x <= width,
                row@.len() == x,
                forall|i: int| 0 <= i < x ==> #[trigger] row@[i] == 0,
            decreases width - x,
        {
            row.push(0);
            x = x + 1;
        }
        rows.push(row);
        y = y + 1;
    }
    rows
}

/// Append the pixels of a row; says whether any of it is covered.
fn push_row(out: &mut Vec<u8>, row: &Vec<u8>) -> (any: bool)
    ensures
        final(out)@ == old(out)@ + row_pixels(row@, row@.len()),
        any == exists|x: int| 0 <= x < row@.len() && #[trigger] row@[x] > 0,
{
    let ghost before = out@;
    let mut any = false;
    let mut i: usize = 0;
    while i < row.len()
        invariant
            i <= row@.len(),
            out@ == before + row_pixels(row@, i as nat),
            any == exists|x: int| 0 <= x < i && #[trigger] row@[x] > 0,
        decreases row@.len() - i,
    {
        let ghost held = out@;
        let a = row[i];
        if a == 0 {
            out.push(0);
            out.push(0);
            out.push(0);
            out.push(0);
        } else {
            assert(row@[i as int] > 0);
            any = true;
            out.push(255);
            out.push(255);
            out.push(255);
            out.push(a);
        }
        assert(out@ =~= held + pixel_of(a));
        assert(out@ =~= before + row_pixels(row@, (i + 1) as nat));
        i = i + 1;
    }
    any
}

/// A bitmap shows the coverage of its pixels, and says whether there is any.
pub open spec fn shows(t: TextRaster, rows: Seq<Seq<u8>>) -> bool {
    &&& t.pixels@ == image_pixels(rows, t.height as nat)
    &&& t.any_coverage == exists|y: int, x: int|
        0 <= y < t.height && 0 <= x < t.width && #[trigger] rows[y][x] > 0
}

/// Collect glyph coverage in a bitmap. Where rectangles overlap the strongest
/// coverage counts; what lies outside is dropped.
pub fn plot_glyphs(
    glyphs: &Vec<GlyphPixel>,
    dx: i32,
    dy: i32,
    width: u32,
    height: u32,
    line_count: usize,
) -> (r: TextRaster)
    ensures
        r.width == width,
        r.height == height,
        r.line_count == line_count,
        shows(r, coverage(glyphs@, dx as int, dy as int, width as nat, height as nat)),
{
    let mut rows = blank_rows(width, height);
    let mut i: usize = 0;
    assert(glyphs@.take(0) =~= Seq::empty());
    while i < glyphs.len()
        invariant
            i <= glyphs@.len(),
            rows@.len() == height,
            forall|y: int| 0 <= y < height ==> (#[trigger] rows@[y])@.len() == width,
            forall|y: int, x: int|
                0 <= y < height && 0 <= x < width ==> #[trigger] rows@[y]@[x] == strongest(
                    glyphs@.take(i as int),
                    dx as int,
                    dy as int,
                    x,
                    y,
                ),
        decreases glyphs@.len() - i,
    {
        assert(glyphs@.take(i + 1).drop_last() =~= glyphs@.take(i as int));
        plot(&mut rows, &glyphs[i], dx, dy, width, height);
        i = i + 1;
    }
    assert(glyphs@.take(i as int) =~= glyphs@);
    let ghost cover = coverage(glyphs@, dx as int, dy as int, width as nat, height as nat);
    proof {
        assert forall|y: int| 0 <= y < height implies (#[trigger] rows@[y])@ == cover[y] by {
            assert(rows@[y]@ =~= cover[y]);
        }
        assert(row_views(rows@) =~= cover);
    }
    let mut pixels: Vec<u8> = Vec::new();
    let mut any_coverage = false;
    let mut y: usize = 0;
    while y < rows.len()
        invariant
            y <= rows@.len(),
            rows@.len() == height,
            row_views(rows@) == cover,
            cover.len() == height,
            forall|k: int| 0 <= k < height ==> (#[trigger] cover[k]).len() == width,
            pixels@ == image_pixels(cover, y as nat),
            any_coverage == exists|k: int, x: int|
                0 <= k < y && 0 <= x < width && #[trigger] cover[k][x] > 0,
        decreases rows@.len() - y,
    {
        assert(rows@[y as int]@ == cover[y as int]);
        let any = push_row(&mut pixels, &rows[y]);
        proof {
            if any {
                let x = choose|x: int|
                    0 <= x < rows@[y as int]@.len() && #[trigger] rows@[y as int]@[x] > 0;
                assert(cover[y as int][x] > 0);
            }
        }
        any_coverage = any_coverage || any;
        y = y + 1;
    }
    TextRaster { pixels, width, height, line_count, any_coverage }
}

/// Whether a character is a control character.
pub open spec fn is_control(c: char) -> bool {
    c as u32 <= 0x1f || 0x7f <= c as u32 <= 0x9f
}

/// A text without the control characters at its end.
pub open spec fn without_controls(s: Seq<char>) -> Seq<char>
    decreases s.len(),
{
    if s.len() > 0 && is_control(s.last()) {
        without_controls(s.drop_last())
    } else {
        s
    }
}

/// Whether nothing is left of a text without the control characters at its
/// end. Such a text has no bitmap.
pub fn is_blank(text: &str) -> (r: bool)
    ensures
        r == (without_controls(text@).len() == 0),
{
    let chars = chars_of(text);
    let mut n: usize = chars.len();
    assert(chars@.take(n as int) =~= chars@);
    while n > 0 && (chars[n - 1] as u32 <= 0x1f || (0x7f <= chars[n - 1] as u32 && chars[n - 1] as u32
        <= 0x9f))
        invariant
            n <= chars@.len(),
            without_controls(chars@) == without_controls(chars@.take(n as int)),
        decreases n,
    {
        assert(chars@.take(n as int).drop_last() =~= chars@.take(n - 1));
        n = n - 1;
    }
    n == 0
}

/// An edge of a bitmap: at least one pixel, at most [`MAX_EDGE`].
pub open spec fn edge_of(n: u32) -> u32 {
    if n < 1 {
        1
    } else if n > MAX_EDGE {
        MAX_EDGE
    } else {
        n
    }
}

/// An edge brought between one pixel and [`MAX_EDGE`].
pub fn clamp_edge(n: u32) -> (r: u32)
    ensures
        r == edge_of(n),
        1 <= r <= MAX_EDGE,
{
    if n < 1 {
        1
    } else if n > MAX_EDGE {
        MAX_EDGE
    } else {
        n
    }
}

/// The least whole number that is not below `m * 2^x`.
pub open spec fn ceiling(m: nat, x: int) -> nat {
    if x >= 0 {
        m * vstd::arithmetic::power2::pow2(x as nat)
    } else {
        let p = vstd::arithmetic::power2::pow2((-x) as nat);
        ((m + p - 1) / p as int) as nat
    }
}

/// The least whole number that is not below a finite single, given by its
/// bits without the sign.
pub open spec fn single_ceiling(bits: u32) -> nat {
    let e = crate::number::single_exponent(bits);
    let f = crate::number::single_fraction(bits);
    if e == 0 {
        ceiling(f, -149)
    } else {
        ceiling(f + 0x80_0000, e - 150)
    }
}

/// The edge of a bitmap for an extent, given by the bits of a single: rounded
/// up, at least one pixel and at most [`MAX_EDGE`]. One pixel where the extent
/// is not finite or not positive.
pub open spec fn edge_for(bits: u32) -> u32 {
    if 0 < bits < 0x7f80_0000 {
        let n = single_ceiling(bits);
        if n < 1 {
            1
        } else if n > MAX_EDGE {
            MAX_EDGE
        } else {
            n as u32
        }
    } else {
        1
    }
}

/// The edge of a bitmap for an extent, given by the bits of a single.
pub fn ceil_clamp(bits: u32) -> (r: u32)
    ensures
        r == edge_for(bits),
        1 <= r <= MAX_EDGE,
{
    if bits == 0 || bits >= 0x7f80_0000 {
        return 1;
    }
    let e: u32 = bits / 0x80_0000;
    let f: u32 = bits % 0x80_0000;
    assert(e == crate::number::single_exponent(bits) && f == crate::number::single_fraction(bits));
    if e >= 150 {
        proof {
            let p = vstd::arithmetic::power2::pow2((e - 150) as nat);
            vstd::arithmetic::power2::lemma_pow2_pos((e - 150) as nat);
            assert((f + 0x80_0000) * p >= f + 0x80_0000) by (nonlinear_arith)
                requires
                    p >= 1,
                    f >= 0,
            ;
        }
        return MAX_EDGE;
    }
    let m: u64 = if e == 0 {
        f as u64
    } else {
        (f + 0x80_0000) as u64
    };
    let n: u32 = if e == 0 {
        149
    } else {
        150 - e
    };
    assert(single_ceiling(bits) == ceiling(m as nat, -(n as int)));
    assert(0 < m < 0x100_0000);
    let mut p: u64 = 1;
    let mut i: u32 = 0;
    proof {
        vstd::arithmetic::power2::lemma2_to64();
    }
    while i < n && i < 24
        invariant
            i <= n,
            i <= 24,
            p == vstd::arithmetic::power2::pow2(i as nat),
            p <= 0x100_0000,
            i == 24 ==> p == 0x100_0000,
        decreases n - i,
    {
        proof {
            vstd::arithmetic::power2::lemma_pow2_unfold((i + 1) as nat);
            vstd::arithmetic::power2::lemma2_to64();
            if i < 23 {
                vstd::arithmetic::power2::lemma_pow2_strictly_increases((i + 1) as nat, 24);
            }
        }
        p = p * 2;
        i = i + 1;
    }
    let ghost whole = vstd::arithmetic::power2::pow2(n as nat);
    if i < n {
        proof {
            vstd::arithmetic::power2::lemma_pow2_strictly_increases(24, n as nat);
            vstd::arithmetic::div_mod::lemma_fundamental_div_mod_converse(
                m as int + whole - 1,
                whole as int,
                1,
                m as int - 1,
            );
        }
        return 1;
    }
    proof {
        vstd::arithmetic::power2::lemma_pow2_pos(n as nat);
    }
    let c: u64 = (m + p - 1) / p;
    if c < 1 {
        1
    } else if c > 4096 {
        MAX_EDGE
    } else {
        c as u32
    }
}

/// Whether the bits are those of a single above one: a text box of that size
/// bounds its text.
pub open spec fn above_one(bits: u32) -> bool {
    0x3f80_0000 < bits <= 0x7f80_0000
}

/// The edge of the bitmap of a text: of its box where it has one in that
/// direction, else of the text with its padding. Both are given by the bits of
/// a single.
pub fn bitmap_edge(boxed: u32, measured: u32) -> (r: u32)
    ensures
        r == edge_for(if above_one(boxed) { boxed } else { measured }),
        1 <= r <= MAX_EDGE,
{
    ceil_clamp(
        if has_box(boxed) {
            boxed
        } else {
            measured
        },
    )
}

/// Whether a text has a box in one direction, given the bits of its size.
pub fn has_box(boxed: u32) -> (r: bool)
    ensures
        r == above_one(boxed),
{
    0x3f80_0000 < boxed && boxed <= 0x7f80_0000
}

/// How many lines a text is written in.
pub fn written_lines(text: &str) -> (r: usize)
    ensures
        r == crate::text::pieces(text@, '\n').len(),
        r >= 1,
{
    let lines = crate::text::split_on(text, '\n');
    assert(crate::text::texts(lines@).len() == lines@.len());
    lines.len()
}

/// Rasterize a text into a bitmap of at least one and at most [`MAX_EDGE`]
/// pixels a side, given the rectangles that its glyphs were drawn in and the
/// number of lines that it was laid out in. Nothing for a blank text, or where
/// no line was laid out.
pub fn rasterize(
    text: &str,
    glyphs: &Vec<GlyphPixel>,
    line_count: usize,
    dx: i32,
    dy: i32,
    width: u32,
    height: u32,
) -> (r: Option<TextRaster>)
    ensures
        r is None <==> without_controls(text@).len() == 0 || line_count == 0,
        r matches Some(t) ==> {
            &&& t.width == edge_of(width)
            &&& t.height == edge_of(height)
            &&& t.line_count == line_count
            &&& shows(
                t,
                coverage(
                    glyphs@,
                    dx as int,
                    dy as int,
                    edge_of(width) as nat,
                    edge_of(height) as nat,
                ),
            )
        },
{
    if is_blank(text) || line_count == 0 {
        return None;
    }
    Some(plot_glyphs(glyphs, dx, dy, clamp_edge(width), clamp_edge(height), line_count))
}

/// The file part of a path is what follows the last slash of either kind, and
/// the stem is what stands before the last dot.
pub proof fn law_parts_of_path(s: Seq<char>)
    ensures
        file_part(s).len() <= s.len(),
        file_part(s) == s.skip(s.len() - file_part(s).len()),
        forall|i: int|
            0 <= i < file_part(s).len() ==> #[trigger] file_part(s)[i] != '/' && file_part(s)[i]
                != '\\',
        file_part(s).len() < s.len() ==> s[s.len() - file_part(s).len() - 1] == '/' || s[s.len()
            - file_part(s).len() - 1] == '\\',
        stem_part(s).len() <= s.len(),
        stem_part(s) == s.take(stem_part(s).len() as int),
        stem_part(s).len() < s.len() ==> s[stem_part(s).len() as int] == '.',
        stem_part(s).len() < s.len() ==> forall|i: int|
            stem_part(s).len() < i < s.len() ==> #[trigger] s[i] != '.',
        stem_part(s).len() == s.len() ==> !s.contains('.'),
{
    lemma_file_part(s);
    lemma_last_dot(s);
    assert(s.take(s.len() as int) =~= s);
}

/// What follows the last slash.
proof fn lemma_file_part(s: Seq<char>)
    ensures
        file_part(s).len() <= s.len(),
        file_part(s) == s.skip(s.len() - file_part(s).len()),
        forall|i: int|
            0 <= i < file_part(s).len() ==> #[trigger] file_part(s)[i] != '/' && file_part(s)[i]
                != '\\',
        file_part(s).len() < s.len() ==> s[s.len() - file_part(s).len() - 1] == '/' || s[s.len()
            - file_part(s).len() - 1] == '\\',
    decreases s.len(),
{
    if s.len() == 0 || s.last() == '/' || s.last() == '\\' {
        assert(s.skip(s.len() as int) =~= Seq::<char>::empty());
    } else {
        let t = s.drop_last();
        lemma_file_part(t);
        assert(file_part(s) =~= s.skip(s.len() - file_part(s).len()));
    }
}

/// Where the last dot stands.
proof fn lemma_last_dot(s: Seq<char>)
    ensures
        last_dot(s) matches Some(p) ==> 0 <= p < s.len() && s[p] == '.' && forall|i: int|
            p < i < s.len() ==> #[trigger] s[i] != '.',
        last_dot(s) is None ==> !s.contains('.'),
    decreases s.len(),
{
    if s.len() > 0 && s.last() != '.' {
        let t = s.drop_last();
        lemma_last_dot(t);
        if last_dot(t) is Some {
            let p = last_dot(t)->0;
            assert forall|i: int| p < i < s.len() implies #[trigger] s[i] != '.' by {
                if i < t.len() {
                    assert(t[i] == s[i]);
                }
            }
        } else if s.contains('.') {
            let i = choose|i: int| 0 <= i < s.len() && s[i] == '.';
            assert(t[i] == '.');
        }
    }
}

/// A family is hinted at by the name of a system font, or by the name of a file
/// without its directory and its ending; a text that is empty but for white
/// space hints at none.
pub proof fn law_hinted_family(font: Seq<char>)
    ensures
        ({
            let f = crate::text::trimmed(font);
            let system = crate::text::trimmed(f.skip("systemfont_"@.len() as int));
            let file = crate::text::trimmed(stem_part(file_part(f)));
            &&& f.len() == 0 ==> hinted(font) is None
            &&& f.len() > 0 && crate::text::begins(f, "systemfont_"@) && system.len() > 0
                ==> hinted(font) == Some(system)
            &&& f.len() > 0 && crate::text::begins(f, "systemfont_"@) && system.len() == 0
                ==> hinted(font) is None
            &&& f.len() > 0 && !crate::text::begins(f, "systemfont_"@) && file.len() > 0
                ==> hinted(font) == Some(file)
            &&& f.len() > 0 && !crate::text::begins(f, "systemfont_"@) && file.len() == 0
                ==> hinted(font) is None
        }),
{
}

/// The family that a scene brings along is shaped with, whatever is hinted at.
pub proof fn law_bundled_family_wins(font: &str, bundled: Option<String>, r: Option<String>)
    requires
        call_ensures(chosen_family, (font, bundled), r),
    ensures
        bundled matches Some(b) ==> r is Some && r->0@ == b@,
        bundled is None ==> crate::fields::opt_text(r) == hinted(font@),
{
}

/// Each pixel of a bitmap is white behind its coverage, and black where there is
/// none, row by row.
pub proof fn law_pixels_show_coverage(rows: Seq<Seq<u8>>, width: nat, y: int, x: int)
    requires
        forall|k: int| 0 <= k < rows.len() ==> (#[trigger] rows[k]).len() == width,
        0 <= y < rows.len(),
        0 <= x < width,
    ensures
        image_pixels(rows, rows.len()).len() == rows.len() * width * 4,
        ({
            let p = image_pixels(rows, rows.len());
            let at = (y * width + x) * 4;
            &&& p[at + 3] == rows[y][x]
            &&& rows[y][x] > 0 ==> p[at] == 255 && p[at + 1] == 255 && p[at + 2] == 255
            &&& rows[y][x] == 0 ==> p[at] == 0 && p[at + 1] == 0 && p[at + 2] == 0
        }),
{
    let p = image_pixels(rows, rows.len());
    lemma_image_len(rows, width, rows.len());
    lemma_image_pixel(rows, width, rows.len(), y, x, 0);
    lemma_image_pixel(rows, width, rows.len(), y, x, 1);
    lemma_image_pixel(rows, width, rows.len(), y, x, 2);
    lemma_image_pixel(rows, width, rows.len(), y, x, 3);
}

/// The bytes of the first pixels of a row.
proof fn lemma_row_pixel(row: Seq<u8>, n: nat, x: int, byte: int)
    requires
        n <= row.len(),
    ensures
        row_pixels(row, n).len() == n * 4,
        0 <= x < n && 0 <= byte < 4 ==> row_pixels(row, n)[x * 4 + byte] == pixel_of(row[x])[byte],
    decreases n,
{
    if n > 0 {
        lemma_row_pixel(row, (n - 1) as nat, x, byte);
    }
}

/// The size of the first rows.
proof fn lemma_image_len(rows: Seq<Seq<u8>>, width: nat, n: nat)
    requires
        forall|k: int| 0 <= k < rows.len() ==> (#[trigger] rows[k]).len() == width,
        n <= rows.len(),
    ensures
        image_pixels(rows, n).len() == n * width * 4,
    decreases n,
{
    if n > 0 {
        lemma_image_len(rows, width, (n - 1) as nat);
        lemma_row_pixel(rows[n - 1], width, 0, 0);
        assert(n * width * 4 == (n - 1) * width * 4 + width * 4) by (nonlinear_arith);
    } else {
        assert(0 * width * 4 == 0) by (nonlinear_arith);
    }
}

/// A byte of a pixel in the first rows.
proof fn lemma_image_pixel(rows: Seq<Seq<u8>>, width: nat, n: nat, y: int, x: int, byte: int)
    requires
        forall|k: int| 0 <= k < rows.len() ==> (#[trigger] rows[k]).len() == width,
        n <= rows.len(),
        0 <= y < n,
        0 <= x < width,
        0 <= byte < 4,
    ensures
        image_pixels(rows, n)[(y * width + x) * 4 + byte] == pixel_of(rows[y][x])[byte],
    decreases n,
{
    let m = (n - 1) as nat;
    let at = (y * width + x) * 4 + byte;
    lemma_image_len(rows, width, m);
    lemma_row_pixel(rows[n - 1], width, x, byte);
    if y < m {
        lemma_image_pixel(rows, width, m, y, x, byte);
        assert(0 <= at < m * width * 4) by (nonlinear_arith)
            requires
                at == (y * width + x) * 4 + byte,
                0 <= y < m,
                0 <= x < width,
                0 <= byte < 4,
        ;
    } else {
        assert(at == m * width * 4 + x * 4 + byte) by (nonlinear_arith)
            requires
                at == (y * width + x) * 4 + byte,
                y == m,
        ;
    }
}

/// A ceiling is the least whole number that is not below what it is of.
pub proof fn law_ceiling_is_least(m: nat, n: nat)
    ensures
        ({
            let p = vstd::arithmetic::power2::pow2(n);
            &&& ceiling(m, -(n as int)) * p >= m
            &&& m > 0 ==> (ceiling(m, -(n as int)) - 1) * p < m
            &&& m == 0 ==> ceiling(m, -(n as int)) == 0
            &&& ceiling(m, n as int) == m * p
        }),
{
    let p = vstd::arithmetic::power2::pow2(n);
    vstd::arithmetic::power2::lemma_pow2_pos(n);
    if n == 0 {
        vstd::arithmetic::power2::lemma2_to64();
        assert(p == 1);
        assert(m * 1 == m) by (nonlinear_arith);
    }
    let a = m + p - 1;
    let c = a / p as int;
    vstd::arithmetic::div_mod::lemma_fundamental_div_mod(a, p as int);
    vstd::arithmetic::div_mod::lemma_mod_bound(a, p as int);
    assert(p * c == c * p) by (nonlinear_arith);
    assert((c - 1) * p == c * p - p) by (nonlinear_arith);
    assert(c >= 0) by {
        vstd::arithmetic::div_mod::lemma_div_pos_is_pos(a, p as int);
    }
    if m == 0 {
        vstd::arithmetic::div_mod::lemma_fundamental_div_mod_converse(a, p as int, 0, p - 1);
    }
}

/// The edge of a bitmap is its extent, rounded up, between one pixel and the
/// greatest edge; one pixel for what is not finite or not positive.
pub proof fn law_edges(bits: u32, n: u32)
    ensures
        1 <= edge_for(bits) <= 4096,
        bits == 0 || bits >= 0x7f80_0000 ==> edge_for(bits) == 1,
        0 < bits < 0x7f80_0000 && 1 <= single_ceiling(bits) <= 4096 ==> edge_for(bits)
            == single_ceiling(bits),
        0 < bits < 0x7f80_0000 && single_ceiling(bits) > 4096 ==> edge_for(bits) == 4096,
        1 <= n <= 4096 ==> edge_of(n) == n,
        n == 0 ==> edge_of(n) == 1,
        n > 4096 ==> edge_of(n) == 4096,
{
}

/// A text has a box in one direction where that is larger than one pixel, and its
/// bitmap is then as large as the box; else it is as large as the text.
pub proof fn law_box_bounds_bitmap(boxed: u32, measured: u32, r: u32)
    requires
        call_ensures(bitmap_edge, (boxed, measured), r),
    ensures
        0x3f80_0000 < boxed <= 0x7f80_0000 ==> r == edge_for(boxed),
        boxed <= 0x3f80_0000 || boxed > 0x7f80_0000 ==> r == edge_for(measured),
{
}

/// Control characters are taken off the end of a text, and nothing else: a text
/// is blank where it is of these alone.
pub proof fn law_controls_are_taken_off(s: Seq<char>)
    ensures
        without_controls(s).len() <= s.len(),
        without_controls(s) == s.take(without_controls(s).len() as int),
        forall|i: int|
            without_controls(s).len() <= i < s.len() ==> is_control(#[trigger] s[i]),
        without_controls(s).len() > 0 ==> !is_control(without_controls(s).last()),
    decreases s.len(),
{
    if s.len() > 0 && is_control(s.last()) {
        let t = s.drop_last();
        law_controls_are_taken_off(t);
        let n = without_controls(s).len() as int;
        assert(t.take(n) =~= s.take(n));
        assert forall|i: int| n <= i < s.len() implies is_control(#[trigger] s[i]) by {
            if i < t.len() {
                assert(t[i] == s[i]);
            }
        }
    } else {
        assert(s.take(s.len() as int) =~= s);
    }
}

/// An alignment is what its word names, and the middle for any other word.
pub proof fn law_alignments(s: &str, h: HAlign, v: VAlign)
    requires
        call_ensures(h_align, (s,), h),
        call_ensures(v_align, (s,), v),
    ensures
        (h == HAlign::Left) == (s@ == "left"@),
        (h == HAlign::Right) == (s@ == "right"@),
        (v == VAlign::Top) == (s@ == "top"@),
        (v == VAlign::Bottom) == (s@ == "bottom"@),
{
    reveal_strlit("left");
    reveal_strlit("right");
    reveal_strlit("top");
    reveal_strlit("bottom");
    assert("left"@.len() != "right"@.len());
    assert("top"@.len() != "bottom"@.len());
}

/// A text is drawn where it is not blank and lines of it were laid out. Each
/// pixel of its bitmap has the coverage that the strongest of the rectangles over
/// it gives.
pub proof fn law_raster_of_text(
    text: &str,
    glyphs: &Vec<GlyphPixel>,
    line_count: usize,
    dx: i32,
    dy: i32,
    width: u32,
    height: u32,
    r: Option<TextRaster>,
    x: int,
    y: int,
)
    requires
        call_ensures(rasterize, (text, glyphs, line_count, dx, dy, width, height), r),
    ensures
        r is None == (without_controls(text@).len() == 0 || line_count == 0),
        r matches Some(t) ==> t.width == edge_of(width) && t.height == edge_of(height)
            && t.line_count == line_count,
        r matches Some(t) ==> 0 <= x < t.width && 0 <= y < t.height ==> {
            let at = (y * t.width + x) * 4;
            &&& t.pixels@.len() == t.height * t.width * 4
            &&& t.pixels@[at + 3] == strongest(glyphs@, dx as int, dy as int, x, y)
        },
{
    if r is Some {
        let t = r->0;
        let rows = coverage(glyphs@, dx as int, dy as int, t.width as nat, t.height as nat);
        if 0 <= x < t.width && 0 <= y < t.height {
            law_pixels_show_coverage(rows, t.width as nat, y, x);
        }
    }
}

/// A font file ends in `.ttf`, `.otf` or `.ttc`, in letters of either case, and
/// nothing else does.
pub proof fn law_font_files(stem: Seq<char>, s: Seq<char>)
    ensures
        is_font_file(stem + ".ttf"@),
        is_font_file(stem + ".otf"@),
        is_font_file(stem + ".ttc"@),
        is_font_file(stem + ".TTF"@),
        is_font_file(s) ==> s.len() >= 4 && s[s.len() - 4] == '.',
{
    reveal_strlit(".ttf");
    reveal_strlit(".otf");
    reveal_strlit(".ttc");
    reveal_strlit(".TTF");
    assert(ends_in(stem + ".ttf"@, ".ttf"@));
    assert(ends_in(stem + ".otf"@, ".otf"@));
    assert(ends_in(stem + ".ttc"@, ".ttc"@));
    assert(ends_in(stem + ".TTF"@, ".ttf"@));
    if is_font_file(s) {
        assert(s.len() >= 4);
        assert(lowered(s[s.len() - 4 + 0]) == '.');
    }
}

/// A finite extent is a significand and a power of two: below the least normal
/// one the significand is the fraction alone, and else it has its leading bit.
pub proof fn law_extent_of_bits(bits: u32)
    requires
        bits < 0x7f80_0000,
    ensures
        bits < 0x80_0000 ==> single_ceiling(bits) == ceiling(bits as nat, -149),
        bits >= 0x80_0000 ==> single_ceiling(bits) == ceiling(
            (bits % 0x80_0000 + 0x80_0000) as nat,
            bits as int / 0x80_0000 - 150,
        ),
{
}

} // verus!
