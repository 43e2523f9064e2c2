//! Texture contents before they are uploaded.
use kirie_scene::bloom::{bloom_size, bloom_steps, BloomBuffer, BloomStep};
use kirie_scene::number::Scalar;
use kirie_scene::registry::{Lookup, TextureRegistry, VideoTexture};
use kirie_scene::texture::{
    atlas_animates, crop, uv_crop, frame_index, sprite_key, staged_name, texture_path, upload_plan, video_key,
    FramePlacement, ImageContent, ImagePage, SamplerSpec,
};

fn content(pages: Vec<(u32, u32)>, frames: Vec<(usize, f32)>) -> ImageContent {
    let w = |i: i64| Scalar::Whole(i);
    ImageContent {
        pages: pages
            .into_iter()
            .map(|(width, height)| ImagePage {
                width,
                height,
                pixels: vec![0; (width * height * 4) as usize],
            })
            .collect(),
        frames: frames
            .into_iter()
            .map(|(page, duration)| FramePlacement {
                page,
                duration: Scalar::Single(duration.to_bits()),
                translation: [w(0), w(0)],
                axes: [w(1), w(0), w(0), w(1)],
            })
            .collect(),
        sampler: SamplerSpec {
            nearest: false,
            clamp_uvs: true,
        },
        content_width: 4,
        content_height: 4,
    }
}

/// Whether a schedule of these durations moves at all.
fn moves(c: &ImageContent) -> bool {
    let total: f32 = c
        .frames
        .iter()
        .map(|f| match &f.duration {
            Scalar::Single(bits) => f32::from_bits(*bits),
            other => panic!("{:?}", other),
        })
        .sum();
    c.frames.len() > 1 && total > 0.0
}

#[test]
fn spritesheets_animate_without_page_streaming() {
    let c = content(vec![(8, 8)], vec![(0, 0.1), (0, 0.1)]);
    assert_eq!(atlas_animates(&c, moves(&c)), Some(false));
}

#[test]
fn uniform_multi_page_gifs_stream_pages() {
    let c = content(vec![(4, 4), (4, 4)], vec![(0, 0.1), (1, 0.1)]);
    assert_eq!(atlas_animates(&c, moves(&c)), Some(true));
}

#[test]
fn static_and_malformed_content_never_animates() {
    let single = content(vec![(4, 4)], vec![(0, 0.0)]);
    assert_eq!(atlas_animates(&single, moves(&single)), None);
    let zero = content(vec![(4, 4)], vec![(0, 0.0), (0, 0.0)]);
    assert_eq!(atlas_animates(&zero, moves(&zero)), None);
    let mismatched = content(vec![(4, 4), (8, 8)], vec![(0, 0.1), (1, 0.1)]);
    assert_eq!(atlas_animates(&mismatched, moves(&mismatched)), None);
}

#[test]
fn stills_show_their_part_of_the_page() {
    let mut still = content(vec![(8, 8)], vec![(0, 0.0)]);
    still.frames[0].axes = [
        Scalar::Single((0.5f32).to_bits()),
        Scalar::Whole(0),
        Scalar::Whole(0),
        Scalar::Single((0.25f32).to_bits()),
    ];
    let part = uv_crop(&still.frames);
    assert!(matches!(part[0], Scalar::Single(b) if f32::from_bits(b) == 0.5));
    assert!(matches!(part[1], Scalar::Single(b) if f32::from_bits(b) == 0.25));
    let moving = content(vec![(8, 8)], vec![(0, 0.1), (0, 0.1)]);
    assert!(matches!(uv_crop(&moving.frames), [Scalar::Whole(1), Scalar::Whole(1)]));
}

#[test]
fn crops_take_whole_pixels() {
    let page = ImagePage {
        width: 2,
        height: 2,
        pixels: (0..16).collect(),
    };
    assert_eq!(crop(&page, 1, 0, 1, 2).unwrap(), [4, 5, 6, 7, 12, 13, 14, 15]);
    assert_eq!(crop(&page, 0, 0, 2, 2).unwrap(), page.pixels);
    assert!(crop(&page, 1, 1, 2, 1).is_none());
    assert!(crop(&page, -1, 0, 1, 1).is_none());
}

#[test]
fn uploads_need_all_pixels() {
    assert_eq!(upload_plan(2, 3, 24), (2, 3, Some(24)));
    assert_eq!(upload_plan(2, 3, 23), (2, 3, None));
    assert_eq!(upload_plan(0, 3, 100), (1, 3, Some(12)));
}

#[test]
fn names_of_files_and_keys() {
    assert_eq!(texture_path("cave"), "materials/cave.tex");
    assert_ne!(sprite_key("cave"), "cave");
    assert_eq!(video_key(b""), 0xcbf29ce484222325);
    assert_eq!(video_key(b"a"), 0xaf63dc4c8601ec8c);
    assert!(staged_name(0xcbf29ce484222325).contains("cbf29ce484222325"));
    assert_eq!(frame_index(7, 5), 4);
    assert_eq!(frame_index(2, 5), 2);
}

#[test]
fn textures_are_loaded_once() {
    let mut r = TextureRegistry::new(0);
    assert_eq!(r.white(), 0);
    assert_eq!(r.get("cave"), Lookup::Missing);
    r.store("cave", Some(4));
    r.store("cave", Some(5));
    r.store("gone", None);
    assert_eq!(r.get("cave"), Lookup::Ready(4));
    assert_eq!(r.get("gone"), Lookup::Ready(0));
    assert_eq!(r.get_sprite_frame0("cave"), Lookup::Missing);
    r.store(&sprite_key("cave"), None);
    assert_eq!(r.get_sprite_frame0("cave"), Lookup::Ready(4));
    r.store(&sprite_key("sheet"), Some(9));
    assert_eq!(r.get_sprite_frame0("sheet"), Lookup::Ready(9));
}

#[test]
fn only_moving_textures_are_kept_moving() {
    let mut r = TextureRegistry::new(0);
    let still = content(vec![(4, 4)], vec![(0, 0.0)]);
    r.register_atlas("still", still, false, 1);
    assert!(r.atlas_for("still").is_none());
    let sheet = content(vec![(8, 8)], vec![(0, 0.1), (0, 0.1)]);
    r.register_atlas("sheet", sheet, true, 2);
    let a = r.atlas_for("sheet").unwrap();
    assert_eq!((a.frames.len(), a.pages.len(), a.gpu), (2, 0, 2));
    let gif = content(vec![(4, 4), (4, 4)], vec![(0, 0.1), (1, 0.1)]);
    r.register_atlas("gif", gif, true, 3);
    assert_eq!(r.atlas_for("gif").unwrap().pages.len(), 2);
    r.add_video(VideoTexture {
        gpu: 7,
        width: 16,
        height: 9,
    });
    assert_eq!(r.take_videos().len(), 1);
    assert!(r.take_videos().is_empty());
    assert_eq!(r.take_atlases().len(), 2);
    assert!(r.atlas_for("gif").is_none());
}

#[test]
fn the_glow_is_made_at_a_fraction_of_the_size() {
    assert_eq!(bloom_size(BloomBuffer::Quarter, 1920, 1080), (480, 270));
    assert_eq!(bloom_size(BloomBuffer::Eighth, 1920, 1080), (240, 135));
    assert_eq!(bloom_size(BloomBuffer::Bloom, 7, 100), (1, 12));
    assert_eq!(bloom_size(BloomBuffer::Scene, 7, 0), (7, 1));
    let steps = bloom_steps();
    assert_eq!(steps.len(), 5);
    assert_eq!(
        steps[4],
        BloomStep::Combine(BloomBuffer::Snapshot, BloomBuffer::Bloom, BloomBuffer::Scene)
    );
}
