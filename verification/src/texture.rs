//! Texture contents before they are uploaded: atlases, crops and file names.
use vstd::prelude::*;

use crate::number::{Scalar, ScalarView};
use crate::value::{one, Vec2};

verus! {

/// One decoded page of a texture, four bytes a pixel.
#[derive(Debug)]
pub struct ImagePage {
    /// Width in pixels.
    pub width: u32,
    /// Height in pixels.
    pub height: u32,
    /// The pixels, row by row.
    pub pixels: Vec<u8>,
}

impl ImagePage {
    /// Every pixel is there.
    pub open spec fn wf(&self) -> bool {
        self.pixels@.len() >= self.width * self.height * 4
    }
}

/// Where one frame of a texture stands.
#[derive(Debug)]
pub struct FramePlacement {
    /// The page.
    pub page: usize,
    /// How long it shows, in seconds.
    pub duration: Scalar,
    /// Its corner, in parts of the page.
    pub translation: Vec2,
    /// Its two axes, in parts of the page.
    pub axes: [Scalar; 4],
}

/// How a texture is sampled.
#[derive(Clone, Copy, Debug, PartialEq, Eq, Structural)]
pub struct SamplerSpec {
    /// No interpolation.
    pub nearest: bool,
    /// No repetition.
    pub clamp_uvs: bool,
}

/// A decoded texture.
#[derive(Debug)]
pub struct ImageContent {
    /// Its pages.
    pub pages: Vec<ImagePage>,
    /// Its frames, in playback order.
    pub frames: Vec<FramePlacement>,
    /// How it is sampled.
    pub sampler: SamplerSpec,
    /// Width of what it shows.
    pub content_width: u32,
    /// Height of what it shows.
    pub content_height: u32,
}

/// Whether some frame stands on another page than the first.
pub open spec fn many_pages(frames: Seq<FramePlacement>) -> bool {
    exists|i: int| 0 <= i < frames.len() && (#[trigger] frames[i]).page != 0
}

/// Whether all pages have the size of the first.
pub open spec fn uniform_pages(pages: Seq<ImagePage>) -> bool {
    forall|i: int|
        0 <= i < pages.len() ==> (#[trigger] pages[i]).width == pages[0].width && pages[i].height
            == pages[0].height
}

/// Whether a texture animates, and how: `Some(false)` where only the placement
/// changes, `Some(true)` where pages of one size follow each other in one
/// texture, `None` where it stands still. `animated` says whether its frames
/// last for some time in all.
pub fn atlas_animates(content: &ImageContent, animated: bool) -> (r: Option<bool>)
    requires
        content.frames@.len() > 1 && animated && many_pages(content.frames@)
            ==> content.pages@.len() > 0,
    ensures
        r == if content.frames@.len() <= 1 || !animated {
            None
        } else if !many_pages(content.frames@) {
            Some(false)
        } else if uniform_pages(content.pages@) {
            Some(true)
        } else {
            None::<bool>
        },
{
    if content.frames.len() <= 1 || !animated {
        return None;
    }
    let mut multi_page = false;
    let mut i: usize = 0;
    while i < content.frames.len()
        invariant
            i <= content.frames@.len(),
            multi_page == exists|k: int|
                0 <= k < i && (#[trigger] content.frames@[k]).page != 0,
        decreases content.frames@.len() - i,
    {
        if content.frames[i].page != 0 {
            assert(content.frames@[i as int].page != 0);
            multi_page = true;
        }
        i = i + 1;
    }
    if multi_page {
        let w0: u32 = content.pages[0].width;
        let h0: u32 = content.pages[0].height;
        let mut p: usize = 0;
        while p < content.pages.len()
            invariant
                p <= content.pages@.len(),
                content.pages@.len() > 0,
                w0 == content.pages@[0].width,
                h0 == content.pages@[0].height,
                content.frames@.len() > 1,
                animated,
                many_pages(content.frames@),
                forall|k: int|
                    0 <= k < p ==> (#[trigger] content.pages@[k]).width == w0
                        && content.pages@[k].height == h0,
            decreases content.pages@.len() - p,
        {
            if content.pages[p].width != w0 || content.pages[p].height != h0 {
                assert(!uniform_pages(content.pages@)) by {
                    assert(content.pages@[p as int].width != w0 || content.pages@[p as int].height
                        != h0);
                }
                return None;
            }
            p = p + 1;
        }
    }
    Some(multi_page)
}

/// The part of the page that a still image takes: the two axes of its one
/// frame. Everything else takes the whole page.
pub open spec fn uv_crop_of(frames: Seq<FramePlacement>) -> Seq<ScalarView> {
    if frames.len() == 1 {
        seq![frames[0].axes@[0]@, frames[0].axes@[3]@]
    } else {
        seq![ScalarView::Whole(1), ScalarView::Whole(1)]
    }
}

/// The part of the page that a layer shows.
pub fn uv_crop(frames: &Vec<FramePlacement>) -> (r: Vec2)
    ensures
        crate::number::scalars(r@) == uv_crop_of(frames@),
{
    let r = if frames.len() == 1 {
        [frames[0].axes[0].copy(), frames[0].axes[3].copy()]
    } else {
        [one(), one()]
    };
    assert(crate::number::scalars(r@) =~= uv_crop_of(frames@));
    r
}

/// Whether a rectangle lies on a page.
pub open spec fn on_page(page: ImagePage, x: i64, y: i64, w: i64, h: i64) -> bool {
    0 <= x && 0 <= y && x + w <= page.width && y + h <= page.height
}

/// The bytes of one row of a rectangle.
pub open spec fn row_bytes(page: ImagePage, x: int, y: int, w: int) -> Seq<u8> {
    page.pixels@.subrange((y * page.width + x) * 4, (y * page.width + x + w) * 4)
}

/// The bytes of the first `n` rows of a rectangle.
pub open spec fn crop_of(page: ImagePage, x: int, y: int, w: int, n: nat) -> Seq<u8>
    decreases n,
{
    if n == 0 {
        Seq::empty()
    } else {
        crop_of(page, x, y, w, (n - 1) as nat) + row_bytes(page, x, y + n - 1, w)
    }
}

/// A rectangle cut from a page; nothing where it does not lie on the page.
pub fn crop(page: &ImagePage, x: i64, y: i64, w: i64, h: i64) -> (r: Option<Vec<u8>>)
    requires
        page.wf(),
        w >= 1,
        h >= 1,
    ensures
        match r {
            Some(b) => on_page(*page, x, y, w, h) && b@ == crop_of(
                *page,
                x as int,
                y as int,
                w as int,
                h as nat,
            ),
            None => !on_page(*page, x, y, w, h),
        },
{
    let tw: i64 = page.width as i64;
    let th: i64 = page.height as i64;
    if x < 0 || y < 0 || w > tw || h > th || x > tw - w || y > th - h {
        return None;
    }
    let len: usize = page.pixels.len();
    let mut out: Vec<u8> = Vec::new();
    let mut row: i64 = 0;
    while row < h
        invariant
            page.wf(),
            len == page.pixels@.len(),
            0 <= row <= h,
            1 <= w,
            0 <= x,
            0 <= y,
            x + w <= tw,
            y + h <= th,
            tw == page.width,
            th == page.height,
            out@ == crop_of(*page, x as int, y as int, w as int, row as nat),
        decreases h - row,
    {
        let ghost start = ((y + row) * page.width + x) * 4;
        let ghost end = ((y + row) * page.width + x + w) * 4;
        proof {
            lemma_row_fits(page.width as int, page.height as int, x as int, y + row, w as int);
        }
        let from: usize = (((y + row) as usize) * (tw as usize) + (x as usize)) * 4;
        let count: usize = (w as usize) * 4;
        let ghost before = out@;
        let mut i: usize = 0;
        while i < count
            invariant
                i <= count,
                count == w * 4,
                from == start,
                end == from + count,
                len == page.pixels@.len(),
                0 <= start <= end <= len,
                out@ == before + page.pixels@.subrange(start, start + i),
            decreases count - i,
        {
            out.push(page.pixels[from + i]);
            assert(page.pixels@.subrange(start, start + i + 1) =~= page.pixels@.subrange(
                start,
                start + i,
            ).push(page.pixels@[start + i]));
            i = i + 1;
        }
        assert(out@ =~= before + row_bytes(*page, x as int, y + row, w as int));
        row = row + 1;
    }
    Some(out)
}

/// A row of a rectangle on a page lies within the pixels, and those can be
/// counted.
proof fn lemma_row_fits(width: int, height: int, x: int, y: int, w: int)
    by (nonlinear_arith)
    requires
        0 <= x,
        0 <= y < height,
        1 <= w,
        x + w <= width,
        0 <= width,
        0 <= height,
    ensures
        0 <= (y * width + x) * 4,
        (y * width + x + w) * 4 == (y * width + x) * 4 + w * 4,
        (y * width + x + w) * 4 <= width * height * 4,
        0 <= y * width,
        y * width + x <= (y * width + x) * 4,
        y * width <= y * width + x,
{
}

/// A crop has one pixel for every place of the rectangle.
pub proof fn law_crop_is_full(page: ImagePage, x: i64, y: i64, w: i64, h: i64)
    requires
        page.wf(),
        1 <= w,
        1 <= h,
        on_page(page, x, y, w, h),
    ensures
        crop_of(page, x as int, y as int, w as int, h as nat).len() == w * h * 4,
{
    lemma_crop_len(page, x as int, y as int, w as int, h as nat);
}

proof fn lemma_crop_len(page: ImagePage, x: int, y: int, w: int, n: nat)
    requires
        page.wf(),
        0 <= x,
        0 <= y,
        1 <= w,
        x + w <= page.width,
        y + n <= page.height,
    ensures
        crop_of(page, x, y, w, n).len() == w * n * 4,
    decreases n,
{
    if n == 0 {
        assert(w * 0 * 4 == 0) by (nonlinear_arith);
    } else {
        lemma_crop_len(page, x, y, w, (n - 1) as nat);
        lemma_row_fits(page.width as int, page.height as int, x, y + n - 1, w);
        assert(w * n * 4 == w * (n - 1) * 4 + w * 4) by (nonlinear_arith);
    }
}

/// The size of an uploaded texture, at least one pixel, and how many bytes to
/// upload; nothing to upload where the buffer is too short.
pub fn upload_plan(width: u32, height: u32, available: usize) -> (r: (u32, u32, Option<usize>))
    ensures
        r.0 == if width == 0 {
            1
        } else {
            width
        },
        r.1 == if height == 0 {
            1
        } else {
            height
        },
        match r.2 {
            Some(n) => n == r.0 * r.1 * 4 && n <= available,
            None => r.0 * r.1 * 4 > available,
        },
{
    let w: u32 = if width == 0 {
        1
    } else {
        width
    };
    let h: u32 = if height == 0 {
        1
    } else {
        height
    };
    proof {
        assert(0 <= w * h <= 0xffff_ffff * 0xffff_ffff) by (nonlinear_arith)
            requires
                0 <= w <= 0xffff_ffff,
                0 <= h <= 0xffff_ffff,
        ;
    }
    let need: u128 = (w as u128) * (h as u128) * 4;
    if need <= available as u128 {
        (w, h, Some(need as usize))
    } else {
        (w, h, None)
    }
}

/// The file of a texture.
pub fn texture_path(name: &str) -> (r: String)
    ensures
        r@ == "materials/"@ + name@ + ".tex"@,
{
    let mut path = "materials/".to_owned();
    path.append(name);
    path.append(".tex");
    path
}

/// The key of the first frame of a sprite sheet.
pub open spec fn sprite_key_of(name: Seq<char>) -> Seq<char> {
    seq!['\0'] + "f0:"@ + name
}

/// The name under which the first frame of a particle texture is kept.
pub fn sprite_key(name: &str) -> (r: String)
    ensures
        r@ == sprite_key_of(name@),
{
    let mut key = String::new();
    key.push('\0');
    assert(key@ =~= seq!['\0']);
    key.append("f0:");
    key.append(name);
    key
}

/// The FNV-1a hash of some bytes.
pub open spec fn fnv1a(bytes: Seq<u8>) -> u64
    decreases bytes.len(),
{
    if bytes.len() == 0 {
        0xcbf2_9ce4_8422_2325
    } else {
        (fnv1a(bytes.drop_last()) ^ bytes.last() as u64).wrapping_mul(0x0000_0100_0000_01b3)
    }
}

/// The FNV-1a hash of a video, by which its staged file is named.
pub fn video_key(bytes: &[u8]) -> (r: u64)
    ensures
        r == fnv1a(bytes@),
{
    let mut key: u64 = 0xcbf2_9ce4_8422_2325;
    let mut i: usize = 0;
    assert(bytes@.take(0) =~= Seq::empty());
    while i < bytes.len()
        invariant
            i <= bytes@.len(),
            key == fnv1a(bytes@.take(i as int)),
        decreases bytes@.len() - i,
    {
        assert(bytes@.take(i + 1).drop_last() =~= bytes@.take(i as int));
        key = (key ^ (bytes[i] as u64)).wrapping_mul(0x0000_0100_0000_01b3);
        i = i + 1;
    }
    assert(bytes@.take(i as int) =~= bytes@);
    key
}

/// One hexadecimal digit.
pub open spec fn hex_digit(d: nat) -> char {
    if d < 10 {
        (48 + d) as char
    } else {
        (87 + d) as char
    }
}

/// The last `n` hexadecimal digits of a number.
pub open spec fn hex_digits(key: nat, n: nat) -> Seq<char>
    decreases n,
{
    if n == 0 {
        Seq::empty()
    } else {
        hex_digits(key / 16, (n - 1) as nat).push(hex_digit(key % 16))
    }
}

/// The last `n` hexadecimal digits of a number.
fn hex_text(key: u64, n: u8) -> (r: String)
    ensures
        r@ == hex_digits(key as nat, n as nat),
    decreases n,
{
    if n == 0 {
        let r = String::new();
        assert(r@ =~= Seq::<char>::empty());
        r
    } else {
        let mut s = hex_text(key / 16, n - 1);
        let d: u8 = (key % 16) as u8;
        let c: char = if d < 10 {
            (48 + d) as char
        } else {
            (87 + d) as char
        };
        s.push(c);
        s
    }
}

/// The name of the file in which a video is staged for its decoder.
pub fn staged_name(key: u64) -> (r: String)
    ensures
        r@ == "kirie-vtex-"@ + hex_digits(key as nat, 16) + ".mp4"@,
{
    let mut name = "kirie-vtex-".to_owned();
    let digits = hex_text(key, 16);
    name.append(digits.as_str());
    name.append(".mp4");
    name
}

/// The frame that is shown when a schedule names one; the last one where it
/// names one past the end.
pub fn frame_index(scheduled: usize, frames: usize) -> (r: usize)
    requires
        frames > 0,
    ensures
        r < frames,
        r == if scheduled < frames {
            scheduled as int
        } else {
            frames - 1
        },
{
    if scheduled < frames {
        scheduled
    } else {
        frames - 1
    }
}

/// Each pixel of a crop is the pixel of the page at the same place of the
/// rectangle.
pub proof fn law_crop_keeps_pixels(
    page: ImagePage,
    x: i64,
    y: i64,
    w: i64,
    h: i64,
    row: int,
    column: int,
    byte: int,
)
    requires
        page.wf(),
        1 <= w,
        1 <= h,
        on_page(page, x, y, w, h),
        0 <= row < h,
        0 <= column < w,
        0 <= byte < 4,
    ensures
        crop_of(page, x as int, y as int, w as int, h as nat)[(row * w + column) * 4 + byte]
            == page.pixels@[((y + row) * page.width + x + column) * 4 + byte],
{
    lemma_crop_pixel(page, x as int, y as int, w as int, h as nat, row, column, byte);
}

proof fn lemma_crop_pixel(
    page: ImagePage,
    x: int,
    y: int,
    w: int,
    n: nat,
    row: int,
    column: int,
    byte: int,
)
    requires
        page.wf(),
        0 <= x,
        0 <= y,
        1 <= w,
        x + w <= page.width,
        y + n <= page.height,
        0 <= row < n,
        0 <= column < w,
        0 <= byte < 4,
    ensures
        crop_of(page, x, y, w, n)[(row * w + column) * 4 + byte] == page.pixels@[((y + row)
            * page.width + x + column) * 4 + byte],
    decreases n,
{
    let m = (n - 1) as nat;
    let at = (row * w + column) * 4 + byte;
    lemma_crop_len(page, x, y, w, m);
    lemma_row_fits(page.width as int, page.height as int, x, y + n - 1, w);
    if row < n - 1 {
        lemma_crop_pixel(page, x, y, w, m, row, column, byte);
        assert(0 <= at < w * m * 4) by (nonlinear_arith)
            requires
                at == (row * w + column) * 4 + byte,
                0 <= row < m,
                0 <= column < w,
                0 <= byte < 4,
        ;
    } else {
        assert(at == w * m * 4 + column * 4 + byte) by (nonlinear_arith)
            requires
                at == (row * w + column) * 4 + byte,
                row == m,
        ;
        let line = row_bytes(page, x, y + n - 1, w);
        assert(line.len() == w * 4);
        assert(crop_of(page, x, y, w, n)[at] == line[column * 4 + byte]);
        assert(((y + row) * page.width + x) * 4 + column * 4 + byte == ((y + row) * page.width + x
            + column) * 4 + byte) by (nonlinear_arith);
    }
}

/// A still image takes the part of its page that its one frame spans: the width
/// of its first axis and the height of its second. Anything else takes all of
/// it.
pub proof fn law_still_image_takes_its_frame(frames: Seq<FramePlacement>)
    ensures
        uv_crop_of(frames).len() == 2,
        frames.len() == 1 ==> uv_crop_of(frames)[0] == frames[0].axes@[0]@,
        frames.len() == 1 ==> uv_crop_of(frames)[1] == frames[0].axes@[3]@,
        frames.len() != 1 ==> uv_crop_of(frames)[0] == ScalarView::Whole(1) && uv_crop_of(
            frames,
        )[1] == ScalarView::Whole(1),
{
}

/// A texture animates where it has more than one frame and these last. Pages
/// follow each other where some frame is on another page than the first, which
/// takes pages of one size.
pub proof fn law_atlas_animates(content: &ImageContent, animated: bool, r: Option<bool>)
    requires
        content.frames@.len() > 1 && animated && many_pages(content.frames@)
            ==> content.pages@.len() > 0,
        call_ensures(atlas_animates, (content, animated), r),
    ensures
        r is Some ==> animated && content.frames@.len() > 1,
        r == Some(false) ==> forall|i: int|
            0 <= i < content.frames@.len() ==> (#[trigger] content.frames@[i]).page == 0,
        r == Some(true) ==> exists|i: int|
            0 <= i < content.frames@.len() && (#[trigger] content.frames@[i]).page != 0,
        r == Some(true) ==> forall|i: int, k: int|
            0 <= i < content.pages@.len() && 0 <= k < content.pages@.len() ==> (
            #[trigger] content.pages@[i]).width == (#[trigger] content.pages@[k]).width
                && content.pages@[i].height == content.pages@[k].height,
        animated && content.frames@.len() > 1 && (forall|i: int|
            0 <= i < content.frames@.len() ==> (#[trigger] content.frames@[i]).page == 0) ==> r
            == Some(false),
        animated && content.frames@.len() > 1 && (forall|i: int, k: int|
            0 <= i < content.pages@.len() && 0 <= k < content.pages@.len() ==> (
            #[trigger] content.pages@[i]).width == (#[trigger] content.pages@[k]).width
                && content.pages@[i].height == content.pages@[k].height) ==> r is Some,
{
    if animated && content.frames@.len() > 1 && r is None {
        let i = choose|i: int|
            0 <= i < content.pages@.len() && !((#[trigger] content.pages@[i]).width
                == content.pages@[0].width && content.pages@[i].height == content.pages@[0].height);
        assert(content.pages@[i].width != content.pages@[0].width || content.pages@[i].height
            != content.pages@[0].height);
    }
}

/// An uploaded texture is never empty; it is uploaded where there are bytes for
/// all of its pixels, and only then.
pub proof fn law_upload_fits(width: u32, height: u32, available: usize, r: (u32, u32, Option<usize>))
    requires
        call_ensures(upload_plan, (width, height, available), r),
    ensures
        r.0 >= 1 && r.1 >= 1,
        width >= 1 ==> r.0 == width,
        height >= 1 ==> r.1 == height,
        width == 0 ==> r.0 == 1,
        height == 0 ==> r.1 == 1,
        r.2 is Some == (r.0 * r.1 * 4 <= available),
        r.2 matches Some(n) ==> n == r.0 * r.1 * 4,
{
}

/// The key of a sprite frame is that of its texture alone, and no file bears it.
pub proof fn law_sprite_keys_differ(a: Seq<char>, b: Seq<char>)
    ensures
        sprite_key_of(a) == sprite_key_of(b) ==> a == b,
        sprite_key_of(a).len() > 0 && sprite_key_of(a)[0] == '\0',
        a.len() == 0 || a[0] != '\0' ==> a != sprite_key_of(b),
{
    let head = seq!['\0'] + "f0:"@;
    assert(sprite_key_of(a).skip(head.len() as int) =~= a);
    assert(sprite_key_of(b).skip(head.len() as int) =~= b);
}

/// Sixteen to the power `n`.
pub open spec fn sixteens(n: nat) -> nat
    decreases n,
{
    if n == 0 {
        1
    } else {
        16 * sixteens((n - 1) as nat)
    }
}

/// As many hexadecimal digits as a number may need are as many characters, and
/// read as that number again.
pub proof fn law_hex_digits_read_back(key: nat, n: nat)
    requires
        key < sixteens(n),
    ensures
        hex_digits(key, n).len() == n,
        crate::value::hex_digits(hex_digits(key, n)) == Some(key),
    decreases n,
{
    if n > 0 {
        law_hex_digits_read_back(key / 16, (n - 1) as nat);
        let s = hex_digits(key, n);
        assert(s.drop_last() =~= hex_digits(key / 16, (n - 1) as nat));
        assert(s.last() == hex_digit(key % 16));
        lemma_hex_digit(key % 16);
    }
}

/// A hexadecimal digit reads as its number.
proof fn lemma_hex_digit(d: nat)
    requires
        d < 16,
    ensures
        crate::value::hex_digit(hex_digit(d)) == Some(d),
{
}

/// Two videos are staged under one name only where they have one key.
pub proof fn law_staged_names_differ(a: u64, b: u64)
    ensures
        "kirie-vtex-"@ + hex_digits(a as nat, 16) + ".mp4"@ == "kirie-vtex-"@ + hex_digits(
            b as nat,
            16,
        ) + ".mp4"@ ==> a == b,
{
    reveal_with_fuel(sixteens, 17);
    law_hex_digits_read_back(a as nat, 16);
    law_hex_digits_read_back(b as nat, 16);
    let head = "kirie-vtex-"@;
    let x = head + hex_digits(a as nat, 16) + ".mp4"@;
    let y = head + hex_digits(b as nat, 16) + ".mp4"@;
    assert(x.subrange(head.len() as int, head.len() + 16int) =~= hex_digits(a as nat, 16));
    assert(y.subrange(head.len() as int, head.len() + 16int) =~= hex_digits(b as nat, 16));
}

/// The hash of bytes goes by the bytes one after the other: each is mixed into
/// the low byte of what came before, and the whole is multiplied by the prime.
pub proof fn law_hash_by_bytes(bytes: Seq<u8>, last: u8)
    ensures
        fnv1a(Seq::empty()) == 0xcbf2_9ce4_8422_2325,
        fnv1a(bytes.push(last)) == (fnv1a(bytes) ^ (last as u64)).wrapping_mul(1099511628211),
{
    assert(bytes.push(last).drop_last() =~= bytes);
}

/// A scheduled frame is shown, and the last one where the schedule goes past it.
pub proof fn law_frame_of_schedule(scheduled: usize, frames: usize, r: usize)
    requires
        frames > 0,
        call_ensures(frame_index, (scheduled, frames), r),
    ensures
        scheduled < frames ==> r == scheduled,
        scheduled >= frames ==> r == frames - 1,
{
}

/// A crop is made where its rectangle lies on the page, and only there.
pub proof fn law_crop_lies_on_page(
    page: &ImagePage,
    x: i64,
    y: i64,
    w: i64,
    h: i64,
    r: Option<Vec<u8>>,
)
    requires
        page.wf(),
        w >= 1,
        h >= 1,
        call_ensures(crop, (page, x, y, w, h), r),
    ensures
        r is Some == (x >= 0 && y >= 0 && x + w <= page.width && y + h <= page.height),
        r matches Some(b) ==> b@.len() == w * h * 4 && b@ == crop_of(
            *page,
            x as int,
            y as int,
            w as int,
            h as nat,
        ),
{
    if r is Some {
        law_crop_is_full(*page, x, y, w, h);
    }
}

} // verus!
