//! The textures of a scene while it is built: which are there, which animate
//! and which play.
//!
//! Decoding and uploading are done outside. A [`TextureRegistry`] says what has
//! to be loaded, keeps what came of it under a number, and hands out what the
//! renderer keeps up to date.
use vstd::prelude::*;

use crate::table::Table;
use crate::texture::{atlas_animates, sprite_key, FramePlacement, ImageContent, ImagePage};

verus! {

/// A texture that animates.
#[derive(Debug)]
pub struct AtlasTexture {
    /// Its frames, in playback order.
    pub frames: Vec<FramePlacement>,
    /// Its pages, where they follow each other in one texture.
    pub pages: Vec<ImagePage>,
    /// The texture.
    pub gpu: usize,
}

/// A texture that plays a video.
#[derive(Clone, Copy, Debug, PartialEq, Eq, Structural)]
pub struct VideoTexture {
    /// The texture.
    pub gpu: usize,
    /// Width of a frame.
    pub width: u32,
    /// Height of a frame.
    pub height: u32,
}

/// What a registry has under a name.
#[derive(Clone, Copy, Debug, PartialEq, Eq, Structural)]
pub enum Lookup {
    /// A texture.
    Ready(usize),
    /// Nothing yet: it has to be loaded.
    Missing,
}

/// The textures of a scene while it is built.
#[derive(Debug)]
pub struct TextureRegistry {
    /// What was loaded under each name; nothing where that failed.
    pub cache: Table<Option<usize>>,
    /// Plain white.
    pub white: usize,
    /// The textures that play a video.
    pub videos: Vec<VideoTexture>,
    /// The textures that animate, by name.
    pub atlases: Table<AtlasTexture>,
}

/// What a registry answers for a name: what was loaded, or white where that
/// failed.
pub open spec fn answer(r: TextureRegistry, name: Seq<char>) -> Lookup {
    if r.cache@.dom().contains(name) {
        match r.cache@[name] {
            Some(t) => Lookup::Ready(t),
            None => Lookup::Ready(r.white),
        }
    } else {
        Lookup::Missing
    }
}

/// How a texture animates, if it does: whether its pages follow each other.
pub open spec fn animation(content: ImageContent, animated: bool) -> Option<bool> {
    if content.frames@.len() <= 1 || !animated {
        None
    } else if !crate::texture::many_pages(content.frames@) {
        Some(false)
    } else if crate::texture::uniform_pages(content.pages@) {
        Some(true)
    } else {
        None
    }
}

impl TextureRegistry {
    /// The tables are in order.
    pub open spec fn wf(&self) -> bool {
        &&& self.cache.wf()
        &&& self.atlases.wf()
    }

    /// An empty registry.
    pub fn new(white: usize) -> (r: TextureRegistry)
        ensures
            r.wf(),
            r.white == white,
            r.cache@ == Map::<Seq<char>, Option<usize>>::empty(),
            r.videos@ == Seq::<VideoTexture>::empty(),
            r.atlases@ == Map::<Seq<char>, AtlasTexture>::empty(),
    {
        TextureRegistry { cache: Table::new(), white, videos: Vec::new(), atlases: Table::new() }
    }

    /// Plain white.
    pub fn white(&self) -> (r: usize)
        ensures
            r == self.white,
    {
        self.white
    }

    /// The texture of a name: what was loaded, white where that failed.
    pub fn get(&self, name: &str) -> (r: Lookup)
        requires
            self.wf(),
        ensures
            r == answer(*self, name@),
    {
        match self.cache.get(name) {
            Some(Some(t)) => Lookup::Ready(*t),
            Some(None) => Lookup::Ready(self.white),
            None => Lookup::Missing,
        }
    }

    /// Keep what loading a name gave. What is there already stays.
    pub fn store(&mut self, name: &str, loaded: Option<usize>)
        requires
            old(self).wf(),
        ensures
            final(self).wf(),
            final(self).cache@ == if old(self).cache@.dom().contains(name@) {
                old(self).cache@
            } else {
                old(self).cache@.insert(name@, loaded)
            },
            final(self).white == old(self).white,
            final(self).videos == old(self).videos,
            final(self).atlases == old(self).atlases,
    {
        if self.cache.get(name).is_none() {
            self.cache.insert(name, loaded);
        }
    }

    /// The first frame of a sprite sheet, under a key of its own. Where the
    /// name is no sheet its texture is used as it is.
    pub fn get_sprite_frame0(&self, name: &str) -> (r: Lookup)
        requires
            self.wf(),
        ensures
            r == {
                let key = crate::texture::sprite_key_of(name@);
                if !self.cache@.dom().contains(key) {
                    Lookup::Missing
                } else {
                    match self.cache@[key] {
                        Some(t) => Lookup::Ready(t),
                        None => answer(*self, name@),
                    }
                }
            },
    {
        let key = sprite_key(name);
        match self.cache.get(key.as_str()) {
            Some(Some(t)) => Lookup::Ready(*t),
            Some(None) => self.get(name),
            None => Lookup::Missing,
        }
    }

    /// Keep a decoded texture that animates; `animated` says whether its frames
    /// last for some time in all. The pages stay only where they follow each
    /// other in one texture. Nothing is kept of a texture that stands still.
    pub fn register_atlas(&mut self, name: &str, content: ImageContent, animated: bool, gpu: usize)
        requires
            old(self).wf(),
            content.pages@.len() > 0,
        ensures
            final(self).wf(),
            final(self).cache == old(self).cache,
            final(self).white == old(self).white,
            final(self).videos == old(self).videos,
            match animation(content, animated) {
                None => final(self).atlases == old(self).atlases,
                Some(streams) => exists|a: AtlasTexture|
                    a.frames == content.frames && a.gpu == gpu && (if streams {
                        a.pages == content.pages
                    } else {
                        a.pages@ == Seq::<ImagePage>::empty()
                    }) && final(self).atlases@ == #[trigger] old(self).atlases@.insert(name@, a),
            },
    {
        match atlas_animates(&content, animated) {
            None => {},
            Some(streams) => {
                let pages = if streams {
                    content.pages
                } else {
                    Vec::new()
                };
                let atlas = AtlasTexture { frames: content.frames, pages, gpu };
                let ghost kept = atlas;
                self.atlases.insert(name, atlas);
                assert(self.atlases@ == old(self).atlases@.insert(name@, kept));
            },
        }
    }

    /// The texture of a name as it animates, if it does.
    pub fn atlas_for(&self, name: &str) -> (r: Option<&AtlasTexture>)
        requires
            self.wf(),
        ensures
            match r {
                Some(a) => self.atlases@.dom().contains(name@) && *a == self.atlases@[name@],
                None => !self.atlases@.dom().contains(name@),
            },
    {
        self.atlases.get(name)
    }

    /// Keep a texture that plays a video.
    pub fn add_video(&mut self, video: VideoTexture)
        ensures
            final(self).videos@ == old(self).videos@.push(video),
            final(self).cache == old(self).cache,
            final(self).white == old(self).white,
            final(self).atlases == old(self).atlases,
    {
        self.videos.push(video);
    }

    /// Hand out the textures that play a video.
    pub fn take_videos(&mut self) -> (r: Vec<VideoTexture>)
        ensures
            r == old(self).videos,
            final(self).videos@ == Seq::<VideoTexture>::empty(),
            final(self).cache == old(self).cache,
            final(self).white == old(self).white,
            final(self).atlases == old(self).atlases,
    {
        let mut taken: Vec<VideoTexture> = Vec::new();
        std::mem::swap(&mut taken, &mut self.videos);
        taken
    }

    /// Hand out the textures that animate, by name.
    pub fn take_atlases(&mut self) -> (r: Table<AtlasTexture>)
        requires
            old(self).wf(),
        ensures
            r == old(self).atlases,
            final(self).wf(),
            final(self).atlases@ == Map::<Seq<char>, AtlasTexture>::empty(),
            final(self).cache == old(self).cache,
            final(self).white == old(self).white,
            final(self).videos == old(self).videos,
    {
        let mut taken: Table<AtlasTexture> = Table::new();
        std::mem::swap(&mut taken, &mut self.atlases);
        taken
    }
}

/// Once a name was looked up and loaded, the registry never asks for it again,
/// whatever else is loaded: every answer stays.
pub proof fn law_answers_stay(
    before: TextureRegistry,
    after: TextureRegistry,
    name: Seq<char>,
    other: Seq<char>,
    loaded: Option<usize>,
)
    requires
        before.cache@.dom().contains(name),
        after.white == before.white,
        after.cache@ == if before.cache@.dom().contains(other) {
            before.cache@
        } else {
            before.cache@.insert(other, loaded)
        },
    ensures
        answer(after, name) == answer(before, name),
        answer(before, name) is Ready,
        answer(after, other) is Ready,
{
}

/// A name is answered by the texture that was loaded for it, by white where its
/// loading failed, and is asked for where it was not loaded yet.
pub proof fn law_answers_of_registry(r: TextureRegistry, name: Seq<char>, t: usize)
    ensures
        r.cache@.dom().contains(name) && r.cache@[name] == Some(t) ==> answer(r, name)
            == Lookup::Ready(t),
        r.cache@.dom().contains(name) && r.cache@[name] is None ==> answer(r, name)
            == Lookup::Ready(r.white),
        answer(r, name) is Missing == !r.cache@.dom().contains(name),
{
}

/// The first frame of a sheet is what was kept under its key; where that is
/// nothing, the texture of the name itself.
pub proof fn law_sprite_frame_or_texture(registry: &TextureRegistry, name: &str, r: Lookup)
    requires
        registry.wf(),
        call_ensures(TextureRegistry::get_sprite_frame0, (registry, name), r),
    ensures
        ({
            let key = crate::texture::sprite_key_of(name@);
            &&& !registry.cache@.dom().contains(key) ==> r is Missing
            &&& registry.cache@.dom().contains(key) && registry.cache@[key] is Some ==> r
                == Lookup::Ready(registry.cache@[key]->0)
            &&& registry.cache@.dom().contains(key) && registry.cache@[key] is None ==> r == answer(
                *registry,
                name@,
            )
        }),
{
}

/// A texture is kept as one that animates where it has more than one frame and
/// these last; its pages are kept where a frame is on another page than the
/// first, which takes pages of one size.
pub proof fn law_kept_animation(content: ImageContent, animated: bool)
    ensures
        animation(content, animated) is Some ==> animated && content.frames@.len() > 1,
        animated && content.frames@.len() > 1 && (forall|i: int|
            0 <= i < content.frames@.len() ==> (#[trigger] content.frames@[i]).page == 0)
            ==> animation(content, animated) == Some(false),
        animated && (exists|i: int|
            0 <= i < content.frames@.len() && (#[trigger] content.frames@[i]).page != 0)
            && content.frames@.len() > 1 && content.pages@.len() == 1 ==> animation(
            content,
            animated,
        ) == Some(true),
        animation(content, animated) == Some(true) ==> forall|i: int, k: int|
            0 <= i < content.pages@.len() && 0 <= k < content.pages@.len() ==> (
            #[trigger] content.pages@[i]).width == (#[trigger] content.pages@[k]).width
                && content.pages@[i].height == content.pages@[k].height,
        animated && content.frames@.len() > 1 && animation(content, animated) is None ==> exists|
            i: int,
        |
            0 <= i < content.pages@.len() && ((#[trigger] content.pages@[i]).width
                != content.pages@[0].width || content.pages@[i].height
                != content.pages@[0].height),
{
}

/// What was loaded first under a name stays, and nothing else changes.
pub proof fn law_first_load_stays(
    registry: &mut TextureRegistry,
    name: &str,
    loaded: Option<usize>,
    r: (),
)
    requires
        old(registry).wf(),
        call_ensures(TextureRegistry::store, (registry, name, loaded), r),
    ensures
        old(registry).cache@.dom().contains(name@) ==> final(registry).cache@ == old(registry).cache@,
        !old(registry).cache@.dom().contains(name@) ==> final(registry).cache@.dom().contains(name@)
            && final(registry).cache@[name@] == loaded,
        forall|k: Seq<char>|
            k != name@ && old(registry).cache@.dom().contains(k) ==> final(registry).cache@.dom().contains(k) && #[trigger] final(registry).cache@[k] == old(registry).cache@[k],
        final(registry).white == old(registry).white,
{
}

/// A texture that animates is kept under its name with all its frames, and one
/// that stands still is not kept.
pub proof fn law_animation_is_kept(
    registry: &mut TextureRegistry,
    name: &str,
    content: ImageContent,
    animated: bool,
    gpu: usize,
    r: (),
)
    requires
        old(registry).wf(),
        content.pages@.len() > 0,
        call_ensures(TextureRegistry::register_atlas, (registry, name, content, animated, gpu), r),
    ensures
        animation(content, animated) is None ==> final(registry).atlases == old(registry).atlases,
        animation(content, animated) matches Some(streams) ==> {
            let kept = final(registry).atlases@[name@];
            &&& final(registry).atlases@.dom().contains(name@)
            &&& kept.frames == content.frames
            &&& kept.gpu == gpu
            &&& streams ==> kept.pages == content.pages
            &&& !streams ==> kept.pages@.len() == 0
        },
{
}

} // verus!
