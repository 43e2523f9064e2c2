//! How the passes of an image that could be built feed each other, and what
//! their texture slots sample.
use vstd::prelude::*;

use crate::material::{Blending, TextureSlots};
use crate::object::{ImageObject, ImageObjectView};
use crate::pipeline::{BindKind, ModuleBinding};
use crate::plan::{pad_slots, Geometry, OutputView, PassOutput};
use crate::text::{same, starts_with};

verus! {

/// Whether a name refers to the scene as it is composited so far.
pub open spec fn names_scene(name: Seq<char>) -> bool {
    name == "_rt_FullFrameBuffer"@ || name == "_rt_MipMappedFrameBuffer"@
}

/// Whether a name refers to a render target, not to a texture file.
pub open spec fn names_target(name: Seq<char>) -> bool {
    crate::text::begins(name, "_rt_"@) || crate::text::begins(name, "_alias_"@)
}

/// Whether a name refers to the scene as it is composited so far.
pub fn is_scene_rt(name: &str) -> (r: bool)
    ensures
        r == names_scene(name@),
{
    same(name, "_rt_FullFrameBuffer") || same(name, "_rt_MipMappedFrameBuffer")
}

/// Whether a name refers to a render target, not to a texture file.
pub fn is_target_name(name: &str) -> (r: bool)
    ensures
        r == names_target(name@),
{
    starts_with(name, "_rt_") || starts_with(name, "_alias_")
}

/// A copy of a filled slot.
fn slot_text(textures: &TextureSlots, i: usize) -> (r: Option<String>)
    ensures
        crate::fields::opt_text(r) == if i < textures@.len() {
            crate::fields::opt_text(textures@[i as int])
        } else {
            None::<Seq<char>>
        },
{
    if i < textures.len() {
        match &textures[i] {
            Some(n) => Some(n.clone()),
            None => None,
        }
    } else {
        None
    }
}

/// The name in the first texture slot of an image's base material.
pub open spec fn layer_name(image: ImageObjectView) -> Option<Seq<char>> {
    match image.material {
        Some(p) => if p.len() > 0 && p[0].textures.len() > 0 {
            p[0].textures[0]
        } else {
            None
        },
        None => None,
    }
}

/// The name in the first texture slot of an image's base material.
pub fn base_layer_name(image: &ImageObject) -> (r: Option<String>)
    ensures
        crate::fields::opt_text(r) == layer_name(image@),
{
    match &image.material {
        Some(m) => {
            assert(image@.material == Some(crate::material::pass_views(m.passes@)));
            if m.passes.len() > 0 {
                assert(crate::material::pass_views(m.passes@)[0] == m.passes@[0]@);
                slot_text(&m.passes[0].textures, 0)
            } else {
                None
            }
        },
        None => None,
    }
}

/// The texture of an image's layer.
#[derive(Debug)]
pub enum LayerSource {
    /// The scene as it is composited so far.
    Scene,
    /// A texture file.
    Texture(String),
    /// Plain white.
    White,
}

/// What the layer of an image shows: the scene, a texture file, or white where
/// nothing is named or the name is that of another render target.
pub fn layer_source(image: &ImageObject) -> (r: LayerSource)
    ensures
        match layer_name(image@) {
            Some(n) => if names_scene(n) {
                r is Scene
            } else if names_target(n) {
                r is White
            } else {
                r matches LayerSource::Texture(t) && t@ == n
            },
            None => r is White,
        },
{
    match base_layer_name(image) {
        Some(n) => if is_scene_rt(n.as_str()) {
            LayerSource::Scene
        } else if is_target_name(n.as_str()) {
            LayerSource::White
        } else {
            LayerSource::Texture(n)
        },
        None => LayerSource::White,
    }
}

/// The blending a pass is drawn with: translucent for the base pass of a
/// deformable mesh, whose triangles overlap; else as planned.
pub fn effective_blending(is_puppet_base: bool, planned: Blending) -> (r: Blending)
    ensures
        r == if is_puppet_base {
            Blending::Translucent
        } else {
            planned
        },
{
    if is_puppet_base {
        Blending::Translucent
    } else {
        planned
    }
}

/// A pass that could be built.
#[derive(Debug)]
pub struct Survivor {
    /// Its texture slots.
    pub textures: TextureSlots,
    /// Its blending.
    pub blending: Blending,
    /// The scratch buffer that it names as its target.
    pub target: Option<String>,
    /// Texture slots and the buffers bound to them.
    pub binds: Vec<(u32, String)>,
    /// Whether a deformable mesh takes the place of its geometry.
    pub is_puppet_base: bool,
}

/// What a [`Survivor`] holds.
pub struct SurvivorView {
    /// Its texture slots.
    pub textures: Seq<Option<Seq<char>>>,
    /// Its blending.
    pub blending: Blending,
    /// Its target.
    pub target: Option<Seq<char>>,
    /// Its bound buffers.
    pub binds: Seq<(u32, Seq<char>)>,
    /// Whether it draws a deformable mesh.
    pub puppet: bool,
}

impl View for Survivor {
    type V = SurvivorView;

    open spec fn view(&self) -> SurvivorView {
        SurvivorView {
            textures: crate::material::slots(self.textures@),
            blending: self.blending,
            target: crate::fields::opt_text(self.target),
            binds: crate::plan::slot_binds(self.binds@),
            puppet: self.is_puppet_base,
        }
    }
}

/// What a list of passes holds.
pub open spec fn survivor_views(v: Seq<Survivor>) -> Seq<SurvivorView> {
    Seq::new(v.len(), |i: int| v[i]@)
}

/// What a pass samples.
#[derive(Clone, Copy, Debug, PartialEq, Eq, Structural)]
pub enum ChainInput {
    /// The texture of the layer.
    Layer,
    /// The scene as it is composited so far.
    Snapshot,
    /// One of the two image buffers.
    Front(usize),
}

/// What tells a shader the size of a texture.
#[derive(Debug)]
pub enum Resolution {
    /// The texture of the layer.
    Layer,
    /// The size of the target.
    Target,
    /// A texture file.
    Texture(String),
}

/// What a [`Resolution`] holds.
pub enum ResolutionView {
    /// The texture of the layer.
    Layer,
    /// The size of the target.
    Target,
    /// A texture file.
    Texture(Seq<char>),
}

impl View for Resolution {
    type V = ResolutionView;

    open spec fn view(&self) -> ResolutionView {
        match self {
            Resolution::Layer => ResolutionView::Layer,
            Resolution::Target => ResolutionView::Target,
            Resolution::Texture(n) => ResolutionView::Texture(n@),
        }
    }
}

/// What a list of sizes holds.
pub open spec fn resolution_views(v: Seq<Resolution>) -> Seq<ResolutionView> {
    Seq::new(v.len(), |i: int| v[i]@)
}

/// The number of texture slots that shaders are told the sizes of.
pub const RESOLUTION_SLOTS: usize = 8;

/// What tells the size of a named texture: of render targets the size of the
/// target, of files their own.
pub open spec fn named_resolution(name: Option<Seq<char>>) -> ResolutionView {
    match name {
        Some(n) => if names_target(n) {
            ResolutionView::Target
        } else {
            ResolutionView::Texture(n)
        },
        None => ResolutionView::Target,
    }
}

/// What tells the size of a named texture.
fn resolution_of(name: Option<String>) -> (r: Resolution)
    ensures
        r@ == named_resolution(crate::fields::opt_text(name)),
{
    match name {
        Some(n) => if is_target_name(n.as_str()) {
            Resolution::Target
        } else {
            Resolution::Texture(n)
        },
        None => Resolution::Target,
    }
}

/// A pass with its wiring.
#[derive(Debug)]
pub struct WiredPass {
    /// Its geometry.
    pub geometry: Geometry,
    /// Where it renders.
    pub output: PassOutput,
    /// What its first slot samples by default.
    pub input: ChainInput,
    /// What the names of the composite so far stand for.
    pub composite: ChainInput,
    /// Whether its texture coordinates are cut to the image in a padded page.
    pub cropped: bool,
    /// Its texture slots, with the bound buffers filled in.
    pub textures: TextureSlots,
    /// Its blending.
    pub blending: Blending,
    /// What tells the sizes of its textures.
    pub resolutions: Vec<Resolution>,
}

/// What a [`WiredPass`] holds.
pub struct WiredView {
    /// Its geometry.
    pub geometry: Geometry,
    /// Where it renders.
    pub output: OutputView,
    /// What its first slot samples by default.
    pub input: ChainInput,
    /// What the names of the composite so far stand for.
    pub composite: ChainInput,
    /// Whether its texture coordinates are cut.
    pub cropped: bool,
    /// Its texture slots.
    pub textures: Seq<Option<Seq<char>>>,
    /// Its blending.
    pub blending: Blending,
    /// What tells the sizes of its textures.
    pub resolutions: Seq<ResolutionView>,
}

impl View for WiredPass {
    type V = WiredView;

    open spec fn view(&self) -> WiredView {
        WiredView {
            geometry: self.geometry,
            output: self.output@,
            input: self.input,
            composite: self.composite,
            cropped: self.cropped,
            textures: crate::material::slots(self.textures@),
            blending: self.blending,
            resolutions: resolution_views(self.resolutions@),
        }
    }
}

/// What a list of wired passes holds.
pub open spec fn wired_views(v: Seq<WiredPass>) -> Seq<WiredView> {
    Seq::new(v.len(), |i: int| v[i]@)
}

/// The passes of an image with their wiring.
#[derive(Debug)]
pub struct WiredChain {
    /// The passes, in draw order.
    pub passes: Vec<WiredPass>,
    /// Whether the image needs its two buffers.
    pub buffers: bool,
    /// The buffer that holds the finished composite, if there is one.
    pub final_front: Option<usize>,
    /// Whether any pass samples the scene as it is composited so far.
    pub reads_scene: bool,
}

/// All that the wiring of an image depends on.
pub struct ChainView {
    /// The passes that could be built.
    pub passes: Seq<SurvivorView>,
    /// The names of the scratch buffers.
    pub declared: Seq<Seq<char>>,
    /// Whether the image is drawn for others to sample, not into the scene.
    pub donor: bool,
    /// Whether the image covers the screen whatever the camera.
    pub fullscreen: bool,
    /// Whether the layer shows the scene as it is composited so far.
    pub layer_reads_scene: bool,
}

/// Texture slots with bound buffers filled in where they are empty.
pub open spec fn with_binds(
    textures: Seq<Option<Seq<char>>>,
    binds: Seq<(u32, Seq<char>)>,
) -> Seq<Option<Seq<char>>>
    decreases binds.len(),
{
    if binds.len() == 0 {
        textures
    } else {
        let (slot, name) = binds.last();
        let before = crate::plan::padded(
            with_binds(textures, binds.drop_last()),
            (slot + 1) as nat,
        );
        if before[slot as int] is None {
            before.update(slot as int, Some(name))
        } else {
            before
        }
    }
}

/// Whether a pass adds to the composite: it names no scratch buffer.
pub open spec fn composites(c: ChainView, i: int) -> bool {
    match c.passes[i].target {
        None => true,
        Some(t) => !c.declared.contains(t),
    }
}

/// The last of the first `n` passes that adds to the composite.
pub open spec fn last_composite_of(c: ChainView, n: nat) -> Option<int>
    decreases n,
{
    if n == 0 {
        None
    } else if composites(c, n - 1) {
        Some(n - 1)
    } else {
        last_composite_of(c, (n - 1) as nat)
    }
}

/// The pass that ends the chain: the last that adds to the composite or, where
/// none does, the last.
pub open spec fn chain_end(c: ChainView) -> int {
    match last_composite_of(c, c.passes.len()) {
        Some(i) => i,
        None => c.passes.len() - 1,
    }
}

/// Whether a pass draws into the scene.
pub open spec fn draws_scene(c: ChainView, i: int) -> bool {
    i == chain_end(c) && !c.donor
}

/// The buffer that holds the composite before pass `i`.
pub open spec fn front_before(c: ChainView, i: nat) -> Option<int>
    decreases i,
{
    if i == 0 {
        None
    } else {
        let front = front_before(c, (i - 1) as nat);
        if !draws_scene(c, i - 1) && composites(c, i - 1) {
            Some(next_buffer(front))
        } else {
            front
        }
    }
}

/// The buffer to write next.
pub open spec fn next_buffer(front: Option<int>) -> int {
    match front {
        Some(k) => 1 - k,
        None => 0,
    }
}

/// What a buffer holds, where there is one; else something else.
pub open spec fn front_or(front: Option<int>, other: ChainInput) -> ChainInput {
    match front {
        Some(k) => ChainInput::Front(k as usize),
        None => other,
    }
}

/// What the first slot of a pass samples by default.
pub open spec fn input_of(c: ChainView, i: int) -> ChainInput {
    if i == 0 {
        if c.layer_reads_scene {
            ChainInput::Snapshot
        } else {
            ChainInput::Layer
        }
    } else {
        front_or(front_before(c, i as nat), ChainInput::Layer)
    }
}

/// The geometry of a pass.
pub open spec fn geometry_of(c: ChainView, i: int) -> Geometry {
    if c.passes[i].puppet {
        if draws_scene(c, i) {
            Geometry::Puppet
        } else {
            Geometry::PuppetCopy
        }
    } else if draws_scene(c, i) {
        if c.fullscreen {
            Geometry::Pass
        } else {
            Geometry::Scene
        }
    } else if i == 0 {
        Geometry::Copy
    } else {
        Geometry::Pass
    }
}

/// Where a pass renders.
pub open spec fn output_of(c: ChainView, i: int) -> OutputView {
    if draws_scene(c, i) {
        OutputView::Scene
    } else if composites(c, i) {
        OutputView::Fbo(next_buffer(front_before(c, i as nat)))
    } else {
        OutputView::Named(c.passes[i].target->0)
    }
}

/// The texture slots of a pass.
pub open spec fn textures_of(c: ChainView, i: int) -> Seq<Option<Seq<char>>> {
    with_binds(c.passes[i].textures, c.passes[i].binds)
}

/// What tells the sizes of a pass's textures.
pub open spec fn resolutions_of(c: ChainView, i: int) -> Seq<ResolutionView> {
    let textures = textures_of(c, i);
    Seq::new(
        RESOLUTION_SLOTS as nat,
        |s: int|
            if s == 0 {
                if i == 0 && !c.layer_reads_scene {
                    ResolutionView::Layer
                } else {
                    ResolutionView::Target
                }
            } else if s < textures.len() {
                named_resolution(textures[s])
            } else {
                ResolutionView::Target
            },
    )
}

/// A pass with its wiring.
pub open spec fn wired_pass(c: ChainView, i: int) -> WiredView {
    WiredView {
        geometry: geometry_of(c, i),
        output: output_of(c, i),
        input: input_of(c, i),
        composite: front_or(front_before(c, i as nat), input_of(c, i)),
        cropped: i == 0 && !c.layer_reads_scene && !c.passes[i].puppet,
        textures: textures_of(c, i),
        blending: if c.passes[i].puppet {
            Blending::Translucent
        } else {
            c.passes[i].blending
        },
        resolutions: resolutions_of(c, i),
    }
}

/// Whether a slot names the scene.
pub open spec fn slot_reads_scene(textures: Seq<Option<Seq<char>>>) -> bool {
    exists|s: int| 0 <= s < textures.len() && (#[trigger] textures[s] matches Some(n) && names_scene(
        n,
    ))
}

/// Whether an image samples the scene as it is composited so far.
pub open spec fn chain_reads_scene(c: ChainView) -> bool {
    c.layer_reads_scene || exists|i: int|
        0 <= i < c.passes.len() && slot_reads_scene(#[trigger] textures_of(c, i))
}

/// Whether the scratch buffers include one.
fn declared_name(declared: &Vec<String>, name: &str) -> (r: bool)
    ensures
        r == crate::text::texts(declared@).contains(name@),
{
    let ghost all = crate::text::texts(declared@);
    let mut i: usize = 0;
    while i < declared.len()
        invariant
            i <= declared@.len(),
            all == crate::text::texts(declared@),
            forall|k: int| 0 <= k < i ==> #[trigger] all[k] != name@,
        decreases declared@.len() - i,
    {
        assert(all[i as int] == declared@[i as int]@);
        if same(declared[i].as_str(), name) {
            return true;
        }
        i = i + 1;
    }
    false
}

/// Fill bound buffers into empty slots.
fn fill_binds(textures: &mut TextureSlots, binds: &Vec<(u32, String)>)
    requires
        forall|i: int| 0 <= i < binds@.len() ==> (#[trigger] binds@[i]).0 < usize::MAX,
    ensures
        crate::material::slots(final(textures)@) == with_binds(
            crate::material::slots(old(textures)@),
            crate::plan::slot_binds(binds@),
        ),
{
    let ghost first = crate::material::slots(textures@);
    let ghost all = crate::plan::slot_binds(binds@);
    let mut i: usize = 0;
    assert(all.take(0) =~= Seq::empty());
    while i < binds.len()
        invariant
            i <= binds@.len(),
            all == crate::plan::slot_binds(binds@),
            forall|k: int| 0 <= k < binds@.len() ==> (#[trigger] binds@[k]).0 < usize::MAX,
            crate::material::slots(textures@) == with_binds(first, all.take(i as int)),
        decreases binds@.len() - i,
    {
        assert(all.take(i + 1).drop_last() =~= all.take(i as int));
        assert(all.take(i + 1).last() == (binds@[i as int].0, binds@[i as int].1@));
        let slot: usize = binds[i].0 as usize;
        pad_slots(textures, slot + 1);
        let ghost grown = crate::material::slots(textures@);
        assert(grown[slot as int] == crate::fields::opt_text(textures@[slot as int]));
        if textures[slot].is_none() {
            let name = Some(binds[i].1.clone());
            textures.set(slot, name);
            assert(crate::material::slots(textures@) =~= grown.update(
                slot as int,
                Some(binds@[i as int].1@),
            ));
        }
        i = i + 1;
    }
    assert(all.take(i as int) =~= all);
}

/// Whether a slot names the scene.
fn any_scene(textures: &TextureSlots) -> (r: bool)
    ensures
        r == slot_reads_scene(crate::material::slots(textures@)),
{
    let ghost all = crate::material::slots(textures@);
    let mut i: usize = 0;
    while i < textures.len()
        invariant
            i <= textures@.len(),
            all == crate::material::slots(textures@),
            forall|s: int| 0 <= s < i ==> !(#[trigger] all[s] matches Some(n) && names_scene(n)),
        decreases textures@.len() - i,
    {
        assert(all[i as int] == crate::fields::opt_text(textures@[i as int]));
        if let Some(n) = &textures[i] {
            if is_scene_rt(n.as_str()) {
                return true;
            }
        }
        i = i + 1;
    }
    false
}

/// What tells the sizes of a pass's textures.
fn slot_resolutions(textures: &TextureSlots, samples_layer: bool) -> (r: Vec<Resolution>)
    ensures
        resolution_views(r@) == Seq::new(
            RESOLUTION_SLOTS as nat,
            |s: int|
                if s == 0 {
                    if samples_layer {
                        ResolutionView::Layer
                    } else {
                        ResolutionView::Target
                    }
                } else if s < textures@.len() {
                    named_resolution(crate::material::slots(textures@)[s])
                } else {
                    ResolutionView::Target
                },
        ),
{
    let ghost goal = Seq::new(
        RESOLUTION_SLOTS as nat,
        |s: int|
            if s == 0 {
                if samples_layer {
                    ResolutionView::Layer
                } else {
                    ResolutionView::Target
                }
            } else if s < textures@.len() {
                named_resolution(crate::material::slots(textures@)[s])
            } else {
                ResolutionView::Target
            },
    );
    let mut out: Vec<Resolution> = Vec::new();
    out.push(
        if samples_layer {
            Resolution::Layer
        } else {
            Resolution::Target
        },
    );
    let mut s: usize = 1;
    assert(resolution_views(out@) =~= goal.take(1));
    while s < RESOLUTION_SLOTS
        invariant
            1 <= s <= RESOLUTION_SLOTS,
            goal.len() == RESOLUTION_SLOTS,
            forall|k: int|
                1 <= k < RESOLUTION_SLOTS ==> #[trigger] goal[k] == if k < textures@.len() {
                    named_resolution(crate::material::slots(textures@)[k])
                } else {
                    ResolutionView::Target
                },
            resolution_views(out@) == goal.take(s as int),
        decreases RESOLUTION_SLOTS - s,
    {
        let ghost was = resolution_views(out@);
        let one = resolution_of(slot_text(textures, s));
        let ghost shown = one@;
        assert(shown == goal[s as int]);
        out.push(one);
        assert(resolution_views(out@) =~= was.push(shown));
        assert(goal.take(s + 1) =~= goal.take(s as int).push(goal[s as int]));
        s = s + 1;
    }
    assert(goal.take(s as int) =~= goal);
    out
}

/// The position of the pass that ends the chain.
fn find_end(passes: &Vec<Survivor>, declared: &Vec<String>, Ghost(c): Ghost<ChainView>) -> (r: usize)
    requires
        passes@.len() > 0,
        c.passes == survivor_views(passes@),
        c.declared == crate::text::texts(declared@),
    ensures
        r == chain_end(c),
        r < passes@.len(),
{
    let mut n: usize = passes.len();
    while n > 0
        invariant
            n <= passes@.len(),
            passes@.len() > 0,
            c.passes == survivor_views(passes@),
            c.declared == crate::text::texts(declared@),
            last_composite_of(c, c.passes.len()) == last_composite_of(c, n as nat),
        decreases n,
    {
        assert(c.passes[n - 1] == passes@[n - 1]@);
        if adds(&passes[n - 1].target, declared) {
            return n - 1;
        }
        n = n - 1;
    }
    passes.len() - 1
}

/// Whether a pass with some target adds to the composite.
fn adds(target: &Option<String>, declared: &Vec<String>) -> (r: bool)
    ensures
        r == match crate::fields::opt_text(*target) {
            None => true,
            Some(t) => !crate::text::texts(declared@).contains(t),
        },
{
    match target {
        None => true,
        Some(t) => !declared_name(declared, t.as_str()),
    }
}

/// Wire the passes of an image that could be built. Passes that name a scratch
/// buffer render there; the others take turns with the two image buffers, and
/// the last of them draws into the scene, unless the image is drawn for others
/// to sample. Nothing where no pass could be built.
pub fn wire_chain(
    passes: Vec<Survivor>,
    declared: &Vec<String>,
    offscreen_donor: bool,
    fullscreen: bool,
    layer_reads_scene: bool,
) -> (r: Option<WiredChain>)
    requires
        forall|i: int, k: int|
            0 <= i < passes@.len() && 0 <= k < passes@[i].binds@.len() ==> (
            #[trigger] passes@[i].binds@[k]).0 < usize::MAX,
    ensures
        ({
            let c = ChainView {
                passes: survivor_views(passes@),
                declared: crate::text::texts(declared@),
                donor: offscreen_donor,
                fullscreen,
                layer_reads_scene,
            };
            match r {
                None => passes@.len() == 0,
                Some(w) => {
                    &&& passes@.len() > 0
                    &&& wired_views(w.passes@) == Seq::new(
                        c.passes.len(),
                        |i: int| wired_pass(c, i),
                    )
                    &&& w.buffers == (c.passes.len() > 1 || offscreen_donor)
                    &&& w.final_front == match front_before(c, c.passes.len()) {
                        Some(k) => Some(k as usize),
                        None => None,
                    }
                    &&& w.reads_scene == chain_reads_scene(c)
                },
            }
        }),
{
    let ghost c = ChainView {
        passes: survivor_views(passes@),
        declared: crate::text::texts(declared@),
        donor: offscreen_donor,
        fullscreen,
        layer_reads_scene,
    };
    let n: usize = passes.len();
    if n == 0 {
        return None;
    }
    let end = find_end(&passes, declared, Ghost(c));
    let mut out: Vec<WiredPass> = Vec::new();
    let mut front: Option<usize> = None;
    let mut reads_scene = layer_reads_scene;
    let mut i: usize = 0;
    while i < n
        invariant
            i <= n,
            n == passes@.len(),
            c.passes == survivor_views(passes@),
            c.declared == crate::text::texts(declared@),
            c.donor == offscreen_donor,
            c.fullscreen == fullscreen,
            c.layer_reads_scene == layer_reads_scene,
            end == chain_end(c),
            forall|a: int, k: int|
                0 <= a < passes@.len() && 0 <= k < passes@[a].binds@.len() ==> (
                #[trigger] passes@[a].binds@[k]).0 < usize::MAX,
            out@.len() == i,
            forall|k: int| 0 <= k < i ==> (#[trigger] out@[k])@ == wired_pass(c, k),
            front matches Some(k) ==> k <= 1,
            front_before(c, i as nat) == match front {
                Some(k) => Some(k as int),
                None => None,
            },
            reads_scene == (layer_reads_scene || exists|k: int|
                0 <= k < i && slot_reads_scene(#[trigger] textures_of(c, k))),
        decreases n - i,
    {
        let p = &passes[i];
        assert(c.passes[i as int] == p@);
        let is_scene = i == end && !offscreen_donor;
        let composite = adds(&p.target, declared);
        let mut textures = crate::material::copy_slots(&p.textures);
        fill_binds(&mut textures, &p.binds);
        let samples_layer = i == 0 && !layer_reads_scene;
        let geometry = if p.is_puppet_base {
            if is_scene {
                Geometry::Puppet
            } else {
                Geometry::PuppetCopy
            }
        } else if is_scene {
            if fullscreen {
                Geometry::Pass
            } else {
                Geometry::Scene
            }
        } else if i == 0 {
            Geometry::Copy
        } else {
            Geometry::Pass
        };
        let input = if i == 0 {
            if layer_reads_scene {
                ChainInput::Snapshot
            } else {
                ChainInput::Layer
            }
        } else {
            match front {
                Some(k) => ChainInput::Front(k),
                None => ChainInput::Layer,
            }
        };
        let held = match front {
            Some(k) => ChainInput::Front(k),
            None => input,
        };
        if any_scene(&textures) {
            assert(slot_reads_scene(textures_of(c, i as int)));
            reads_scene = true;
        }
        let resolutions = slot_resolutions(&textures, samples_layer);
        assert(resolution_views(resolutions@) =~= resolutions_of(c, i as int));
        let output = if is_scene {
            PassOutput::Scene
        } else if composite {
            let dst: usize = match front {
                Some(k) => 1 - k,
                None => 0,
            };
            front = Some(dst);
            PassOutput::Fbo(dst)
        } else {
            match &p.target {
                Some(t) => PassOutput::Named(t.clone()),
                None => PassOutput::Scene,
            }
        };
        let wired = WiredPass {
            geometry,
            output,
            input,
            composite: held,
            cropped: samples_layer && !p.is_puppet_base,
            textures,
            blending: effective_blending(p.is_puppet_base, p.blending),
            resolutions,
        };
        assert(wired@ == wired_pass(c, i as int));
        out.push(wired);
        i = i + 1;
    }
    assert(wired_views(out@) =~= Seq::new(c.passes.len(), |k: int| wired_pass(c, k)));
    Some(
        WiredChain {
            passes: out,
            buffers: n > 1 || offscreen_donor,
            final_front: front,
            reads_scene,
        },
    )
}

/// The end of a chain is one of its passes.
proof fn lemma_chain_end(c: ChainView, n: nat)
    requires
        n <= c.passes.len(),
    ensures
        last_composite_of(c, n) matches Some(i) ==> 0 <= i < n && composites(c, i) && forall|k: int|
            i < k < n ==> !composites(c, k),
        last_composite_of(c, n) is None ==> forall|k: int| 0 <= k < n ==> !composites(c, k),
    decreases n,
{
    if n > 0 {
        lemma_chain_end(c, (n - 1) as nat);
    }
}

/// An image draws into the scene with exactly one of its passes, the one that
/// ends its chain; one that is drawn for others to sample does not at all.
pub proof fn law_scene_is_drawn_once(c: ChainView, i: int)
    requires
        0 <= i < c.passes.len(),
    ensures
        wired_pass(c, i).output == OutputView::Scene <==> i == chain_end(c) && !c.donor,
        0 <= chain_end(c) < c.passes.len(),
{
    lemma_chain_end(c, c.passes.len());
}

/// No pass renders into a buffer that it may sample.
pub proof fn law_no_feedback(c: ChainView, i: int)
    requires
        0 <= i < c.passes.len(),
    ensures
        wired_pass(c, i).output matches OutputView::Fbo(d) ==> 0 <= d <= 1 && wired_pass(c, i).input
            != ChainInput::Front(d as usize) && wired_pass(c, i).composite != ChainInput::Front(
            d as usize,
        ),
{
    lemma_front_range(c, i as nat);
}

proof fn lemma_front_range(c: ChainView, i: nat)
    ensures
        front_before(c, i) matches Some(k) ==> 0 <= k <= 1,
    decreases i,
{
    if i > 0 {
        lemma_front_range(c, (i - 1) as nat);
    }
}

/// A pass that samples an image buffer samples what the latest pass before it
/// left in one.
pub proof fn law_samples_the_latest(c: ChainView, i: int, k: int)
    requires
        0 <= i <= c.passes.len(),
        front_before(c, i as nat) == Some(k),
    ensures
        exists|j: int|
            0 <= j < i && #[trigger] output_of(c, j) == OutputView::Fbo(k) && forall|m: int|
                j < m < i ==> !(#[trigger] output_of(c, m) is Fbo),
    decreases i,
{
    if i > 0 {
        if !draws_scene(c, i - 1) && composites(c, i - 1) {
            assert(output_of(c, i - 1) == OutputView::Fbo(k));
        } else {
            law_samples_the_latest(c, i - 1, k);
            let j = choose|j: int|
                0 <= j < i - 1 && #[trigger] output_of(c, j) == OutputView::Fbo(k) && forall|m: int|
                    j < m < i - 1 ==> !(#[trigger] output_of(c, m) is Fbo);
            assert(!(output_of(c, i - 1) is Fbo));
            assert(output_of(c, j) == OutputView::Fbo(k));
        }
    }
}

/// Buffers are there whenever a pass renders into one.
pub proof fn law_buffers_when_needed(c: ChainView, i: int)
    requires
        0 <= i < c.passes.len(),
        output_of(c, i) is Fbo,
    ensures
        c.passes.len() > 1 || c.donor,
{
    lemma_chain_end(c, c.passes.len());
}

/// The buffer that the latest of the first `i` passes rendered into holds the
/// composite.
proof fn lemma_front_latest(c: ChainView, i: int, j: int)
    requires
        0 <= j < i <= c.passes.len(),
        output_of(c, j) is Fbo,
        forall|m: int| j < m < i ==> !(#[trigger] wired_pass(c, m).output is Fbo),
    ensures
        front_before(c, i as nat) == Some(output_of(c, j)->Fbo_0),
    decreases i,
{
    if j < i - 1 {
        assert(!(wired_pass(c, i - 1).output is Fbo));
        lemma_front_latest(c, i - 1, j);
    }
}

/// Without a pass that rendered into an image buffer there is no composite.
proof fn lemma_front_none(c: ChainView, i: int)
    requires
        0 <= i <= c.passes.len(),
        forall|m: int| 0 <= m < i ==> !(#[trigger] wired_pass(c, m).output is Fbo),
    ensures
        front_before(c, i as nat) is None,
    decreases i,
{
    if i > 0 {
        assert(!(wired_pass(c, i - 1).output is Fbo));
        lemma_front_none(c, i - 1);
    }
}

/// Every pass but the first samples what the latest pass before it drew into an
/// image buffer, and the names of the composite stand for that buffer; where
/// no pass before it drew into one it samples the layer. The first samples the
/// layer, or the scene where the layer shows the scene.
pub proof fn law_pass_reads_what_was_drawn_last(c: ChainView, i: int)
    requires
        0 <= i < c.passes.len(),
    ensures
        forall|j: int|
            0 <= j < i && (#[trigger] wired_pass(c, j).output) is Fbo && (forall|m: int|
                j < m < i ==> !(#[trigger] wired_pass(c, m).output is Fbo)) ==> {
                &&& wired_pass(c, i).input == ChainInput::Front(
                    wired_pass(c, j).output->Fbo_0 as usize,
                )
                &&& wired_pass(c, i).composite == ChainInput::Front(
                    wired_pass(c, j).output->Fbo_0 as usize,
                )
            },
        0 < i && (forall|m: int| 0 <= m < i ==> !(#[trigger] wired_pass(c, m).output is Fbo)) ==> {
            &&& wired_pass(c, i).input == ChainInput::Layer
            &&& wired_pass(c, i).composite == ChainInput::Layer
        },
        i == 0 && c.layer_reads_scene ==> {
            &&& wired_pass(c, i).input == ChainInput::Snapshot
            &&& wired_pass(c, i).composite == ChainInput::Snapshot
        },
        i == 0 && !c.layer_reads_scene ==> {
            &&& wired_pass(c, i).input == ChainInput::Layer
            &&& wired_pass(c, i).composite == ChainInput::Layer
        },
{
    assert forall|j: int|
        0 <= j < i && (#[trigger] wired_pass(c, j).output) is Fbo && (forall|m: int|
            j < m < i ==> !(#[trigger] wired_pass(c, m).output is Fbo)) implies {
        &&& wired_pass(c, i).input == ChainInput::Front(wired_pass(c, j).output->Fbo_0 as usize)
        &&& wired_pass(c, i).composite == ChainInput::Front(wired_pass(c, j).output->Fbo_0 as usize)
    } by {
        lemma_front_latest(c, i, j);
    }
    if 0 < i && (forall|m: int| 0 <= m < i ==> !(#[trigger] wired_pass(c, m).output is Fbo)) {
        lemma_front_none(c, i);
    }
}

/// Where the passes of an image render. A pass that names a declared scratch
/// buffer renders there and every other pass into an image buffer, but for one
/// pass of an image that is not drawn for others to sample, which renders into
/// the scene: the last that names no scratch buffer or, where all do, the last.
pub proof fn law_where_passes_render(c: ChainView, i: int)
    requires
        0 <= i < c.passes.len(),
    ensures
        wired_pass(c, i).output is Scene <==> !c.donor && (((c.passes[i].target matches Some(t)
            ==> !c.declared.contains(t)) && forall|k: int|
            i < k < c.passes.len() ==> ((#[trigger] c.passes[k]).target matches Some(t)
                && c.declared.contains(t))) || (i == c.passes.len() - 1 && forall|k: int|
            0 <= k < c.passes.len() ==> ((#[trigger] c.passes[k]).target matches Some(t)
                && c.declared.contains(t)))),
        !(wired_pass(c, i).output is Scene) ==> (c.passes[i].target matches Some(t)
            ==> c.declared.contains(t) ==> wired_pass(c, i).output == OutputView::Named(t)),
        !(wired_pass(c, i).output is Scene) && (c.passes[i].target matches Some(t)
            ==> !c.declared.contains(t)) ==> wired_pass(c, i).output is Fbo,
{
    lemma_chain_end(c, c.passes.len());
    let end = chain_end(c);
    assert(forall|k: int| 0 <= k < c.passes.len() ==> #[trigger] composites(c, k) == !((
    c.passes[k]).target matches Some(t) && c.declared.contains(t)));
    if forall|k: int|
        0 <= k < c.passes.len() ==> ((#[trigger] c.passes[k]).target matches Some(t)
            && c.declared.contains(t)) {
        assert forall|k: int| 0 <= k < c.passes.len() implies !composites(c, k) by {
            assert(c.passes[k].target is Some);
        }
        assert(last_composite_of(c, c.passes.len()) is None);
    } else {
        let k = choose|k: int|
            0 <= k < c.passes.len() && !((#[trigger] c.passes[k]).target matches Some(t)
                && c.declared.contains(t));
        assert(composites(c, k));
        assert(last_composite_of(c, c.passes.len()) is Some);
        assert(composites(c, end));
        if composites(c, i) && i < end {
            assert(!(c.passes[end].target matches Some(t) && c.declared.contains(t)));
        }
        if i == end {
            assert forall|k: int| i < k < c.passes.len() implies ((#[trigger] c.passes[k]).target matches Some(t)
                && c.declared.contains(t)) by {
                assert(!composites(c, k));
            }
        }
    }
}

/// The image buffers take turns: the first pass that renders into one takes the
/// first of the two, and of two such passes with none between them the later
/// takes the other one.
pub proof fn law_buffers_take_turns(c: ChainView, i: int)
    requires
        0 <= i < c.passes.len(),
        wired_pass(c, i).output is Fbo,
    ensures
        (forall|m: int| 0 <= m < i ==> !(#[trigger] wired_pass(c, m).output is Fbo)) ==> wired_pass(
            c,
            i,
        ).output == OutputView::Fbo(0),
        forall|j: int|
            0 <= j < i && (#[trigger] wired_pass(c, j).output) is Fbo && (forall|m: int|
                j < m < i ==> !(#[trigger] wired_pass(c, m).output is Fbo)) ==> wired_pass(
                c,
                i,
            ).output->Fbo_0 + wired_pass(c, j).output->Fbo_0 == 1,
{
    if forall|m: int| 0 <= m < i ==> !(#[trigger] wired_pass(c, m).output is Fbo) {
        lemma_front_none(c, i);
    }
    assert forall|j: int|
        0 <= j < i && (#[trigger] wired_pass(c, j).output) is Fbo && (forall|m: int|
            j < m < i ==> !(#[trigger] wired_pass(c, m).output is Fbo)) implies wired_pass(
        c,
        i,
    ).output->Fbo_0 + wired_pass(c, j).output->Fbo_0 == 1 by {
        lemma_front_latest(c, i, j);
    }
}

/// What a pass draws: its mesh where it has one, in the place that fits where it
/// renders; else a quad, placed by the camera only where it ends in the scene
/// and the image does not cover the screen.
pub proof fn law_geometry_fits_target(c: ChainView, i: int)
    requires
        0 <= i < c.passes.len(),
    ensures
        c.passes[i].puppet && wired_pass(c, i).output is Scene ==> wired_pass(c, i).geometry
            == Geometry::Puppet,
        c.passes[i].puppet && !(wired_pass(c, i).output is Scene) ==> wired_pass(c, i).geometry
            == Geometry::PuppetCopy,
        !c.passes[i].puppet ==> (wired_pass(c, i).geometry == Geometry::Scene <==> wired_pass(
            c,
            i,
        ).output is Scene && !c.fullscreen),
        !c.passes[i].puppet ==> (wired_pass(c, i).geometry == Geometry::Copy <==> i == 0 && !(
        wired_pass(c, i).output is Scene)),
        !c.passes[i].puppet && wired_pass(c, i).geometry != Geometry::Scene && wired_pass(c, i).geometry
            != Geometry::Copy ==> wired_pass(c, i).geometry == Geometry::Pass,
{
}

/// Bound buffers fill the texture slots that a pass leaves empty, and no others:
/// a filled slot keeps its texture, an empty one takes the first buffer bound
/// to it, and one that nothing is bound to stays empty.
pub proof fn law_binds_fill_empty_slots(
    textures: Seq<Option<Seq<char>>>,
    binds: Seq<(u32, Seq<char>)>,
    s: int,
)
    requires
        0 <= s < with_binds(textures, binds).len(),
    ensures
        with_binds(textures, binds).len() >= textures.len(),
        s < textures.len() && textures[s] is Some ==> with_binds(textures, binds)[s] == textures[s],
        forall|k: int|
            0 <= k < binds.len() && (#[trigger] binds[k]).0 == s && !(s < textures.len()
                && textures[s] is Some) && (forall|m: int|
                0 <= m < k ==> (#[trigger] binds[m]).0 != s) ==> with_binds(textures, binds)[s]
                == Some(binds[k].1),
        !(s < textures.len() && textures[s] is Some) && (forall|k: int|
            0 <= k < binds.len() ==> (#[trigger] binds[k]).0 != s) ==> with_binds(
            textures,
            binds,
        )[s] is None,
{
    lemma_bound_slot(textures, binds, s);
}

/// The bound buffers reach every slot that something is bound to.
pub proof fn law_binds_make_room(
    textures: Seq<Option<Seq<char>>>,
    binds: Seq<(u32, Seq<char>)>,
    k: int,
)
    requires
        0 <= k < binds.len(),
    ensures
        binds[k].0 < with_binds(textures, binds).len(),
    decreases binds.len(),
{
    if k < binds.len() - 1 {
        law_binds_make_room(textures, binds.drop_last(), k);
        assert(binds.drop_last()[k] == binds[k]);
    }
}

/// A slot of texture slots with bound buffers filled in.
proof fn lemma_bound_slot(
    textures: Seq<Option<Seq<char>>>,
    binds: Seq<(u32, Seq<char>)>,
    s: int,
)
    requires
        0 <= s,
    ensures
        with_binds(textures, binds).len() >= textures.len(),
        s < textures.len() && textures[s] is Some ==> with_binds(textures, binds)[s] == textures[s],
        forall|k: int|
            0 <= k < binds.len() && (#[trigger] binds[k]).0 == s && !(s < textures.len()
                && textures[s] is Some) && (forall|m: int|
                0 <= m < k ==> (#[trigger] binds[m]).0 != s) ==> s < with_binds(
                textures,
                binds,
            ).len() && with_binds(textures, binds)[s] == Some(binds[k].1),
        !(s < textures.len() && textures[s] is Some) && (forall|k: int|
            0 <= k < binds.len() ==> (#[trigger] binds[k]).0 != s) && s < with_binds(
            textures,
            binds,
        ).len() ==> with_binds(textures, binds)[s] is None,
    decreases binds.len(),
{
    if binds.len() > 0 {
        let head = binds.drop_last();
        let last = binds.len() - 1;
        lemma_bound_slot(textures, head, s);
        let filled = s < textures.len() && textures[s] is Some;
        assert forall|k: int|
            0 <= k < binds.len() && (#[trigger] binds[k]).0 == s && !filled && (forall|m: int|
                0 <= m < k ==> (#[trigger] binds[m]).0 != s) implies s < with_binds(
            textures,
            binds,
        ).len() && with_binds(textures, binds)[s] == Some(binds[k].1) by {
            if k < last {
                assert(head[k] == binds[k]);
                assert forall|m: int| 0 <= m < k implies (#[trigger] head[m]).0 != s by {
                    assert(head[m] == binds[m]);
                }
            } else {
                assert forall|m: int| 0 <= m < head.len() implies (#[trigger] head[m]).0 != s by {
                    assert(head[m] == binds[m]);
                }
            }
        }
        if forall|k: int| 0 <= k < binds.len() ==> (#[trigger] binds[k]).0 != s {
            assert(binds[last].0 != s);
            assert forall|m: int| 0 <= m < head.len() implies (#[trigger] head[m]).0 != s by {
                assert(head[m] == binds[m]);
            }
        }
    }
}

/// A wired pass keeps what the pass that was built brings: its textures with
/// the bound buffers filled in, and its blending but for a mesh, which is
/// translucent. Only the first pass, where it samples a layer that is a
/// picture, is cut to the image, and not where it draws a mesh.
pub proof fn law_wired_pass_keeps_its_own(c: ChainView, i: int)
    requires
        0 <= i < c.passes.len(),
    ensures
        wired_pass(c, i).textures == with_binds(c.passes[i].textures, c.passes[i].binds),
        wired_pass(c, i).blending == if c.passes[i].puppet {
            Blending::Translucent
        } else {
            c.passes[i].blending
        },
        wired_pass(c, i).cropped <==> wired_pass(c, i).input == ChainInput::Layer && i == 0
            && !c.passes[i].puppet,
{
}

/// What tells a shader the size of texture slot `s`: of a file its own size, of
/// a render target and of an empty slot the size of the target, and on the
/// first slot that of the layer where the pass samples it first of all.
pub proof fn law_sizes_of_slots(c: ChainView, i: int, s: int)
    requires
        0 <= i < c.passes.len(),
        0 <= s < 8,
    ensures
        wired_pass(c, i).resolutions.len() == 8,
        s == 0 ==> (wired_pass(c, i).resolutions[s] == ResolutionView::Layer <==> i == 0
            && wired_pass(c, i).input == ChainInput::Layer),
        s == 0 ==> !(wired_pass(c, i).resolutions[s] is Texture),
        0 < s < wired_pass(c, i).textures.len() ==> (wired_pass(c, i).textures[s] matches Some(n)
            ==> wired_pass(c, i).resolutions[s] == if crate::text::begins(n, "_rt_"@)
            || crate::text::begins(n, "_alias_"@) {
            ResolutionView::Target
        } else {
            ResolutionView::Texture(n)
        }),
        0 < s < wired_pass(c, i).textures.len() && wired_pass(c, i).textures[s] is None
            ==> wired_pass(c, i).resolutions[s] == ResolutionView::Target,
        s > 0 && wired_pass(c, i).textures.len() <= s ==> wired_pass(c, i).resolutions[s]
            == ResolutionView::Target,
{
}

/// An image samples the scene where its layer shows the scene, or where a
/// texture slot of one of its wired passes names the scene.
pub proof fn law_scene_is_read_by_name(c: ChainView)
    ensures
        chain_reads_scene(c) <==> c.layer_reads_scene || exists|i: int, s: int|
            0 <= i < c.passes.len() && 0 <= s < wired_pass(c, i).textures.len() && (
            #[trigger] wired_pass(c, i).textures[s] == Some("_rt_FullFrameBuffer"@) || wired_pass(
                c,
                i,
            ).textures[s] == Some("_rt_MipMappedFrameBuffer"@)),
{
    if chain_reads_scene(c) && !c.layer_reads_scene {
        let i = choose|i: int|
            0 <= i < c.passes.len() && slot_reads_scene(#[trigger] textures_of(c, i));
        let s = choose|s: int|
            0 <= s < textures_of(c, i).len() && (#[trigger] textures_of(c, i)[s] matches Some(n)
                && names_scene(n));
        assert(wired_pass(c, i).textures[s] == textures_of(c, i)[s]);
    }
    if exists|i: int, s: int|
        0 <= i < c.passes.len() && 0 <= s < wired_pass(c, i).textures.len() && (
        #[trigger] wired_pass(c, i).textures[s] == Some("_rt_FullFrameBuffer"@) || wired_pass(
            c,
            i,
        ).textures[s] == Some("_rt_MipMappedFrameBuffer"@)) {
        let (i, s) = choose|i: int, s: int|
            0 <= i < c.passes.len() && 0 <= s < wired_pass(c, i).textures.len() && (
            #[trigger] wired_pass(c, i).textures[s] == Some("_rt_FullFrameBuffer"@) || wired_pass(
                c,
                i,
            ).textures[s] == Some("_rt_MipMappedFrameBuffer"@));
        assert(textures_of(c, i)[s] is Some);
        assert(slot_reads_scene(textures_of(c, i)));
    }
}

/// The finished composite: what the latest pass that rendered into an image
/// buffer left there, where there is such a pass.
pub proof fn law_finished_composite(c: ChainView)
    ensures
        forall|i: int|
            0 <= i < c.passes.len() && (#[trigger] wired_pass(c, i).output) is Fbo && (forall|m: int|
                i < m < c.passes.len() ==> !(#[trigger] wired_pass(c, m).output is Fbo))
                ==> front_before(c, c.passes.len()) == Some(wired_pass(c, i).output->Fbo_0),
        (forall|m: int| 0 <= m < c.passes.len() ==> !(#[trigger] wired_pass(c, m).output is Fbo))
            ==> front_before(c, c.passes.len()) is None,
{
    let n = c.passes.len() as int;
    assert forall|i: int|
        0 <= i < n && (#[trigger] wired_pass(c, i).output) is Fbo && (forall|m: int|
            i < m < n ==> !(#[trigger] wired_pass(c, m).output is Fbo)) implies front_before(
        c,
        c.passes.len(),
    ) == Some(wired_pass(c, i).output->Fbo_0) by {
        lemma_front_latest(c, n, i);
    }
    if forall|m: int| 0 <= m < n ==> !(#[trigger] wired_pass(c, m).output is Fbo) {
        lemma_front_none(c, n);
    }
}

/// What [`wire_chain`] hands back beside the passes: one wired pass for each
/// pass that was built, buffers wherever a pass renders into one, and the
/// buffer that the latest of these left as the finished composite.
#[verifier::rlimit(60)]
pub proof fn law_chain_is_complete(
    passes: Vec<Survivor>,
    declared: &Vec<String>,
    donor: bool,
    fullscreen: bool,
    layer_reads_scene: bool,
    w: WiredChain,
)
    requires
        call_ensures(
            wire_chain,
            (passes, declared, donor, fullscreen, layer_reads_scene),
            Some(w),
        ),
    ensures
        passes@.len() > 0,
        w.passes@.len() == passes@.len(),
        forall|i: int|
            0 <= i < w.passes@.len() && (#[trigger] wired_views(w.passes@)[i]).output is Fbo
                ==> w.buffers,
        forall|i: int|
            0 <= i < w.passes@.len() && (#[trigger] wired_views(w.passes@)[i]).output is Fbo && (
            forall|m: int|
                i < m < w.passes@.len() ==> !((#[trigger] wired_views(w.passes@)[m]).output is Fbo))
                ==> w.final_front == Some(wired_views(w.passes@)[i].output->Fbo_0 as usize),
        (forall|i: int|
            0 <= i < w.passes@.len() ==> !((#[trigger] wired_views(w.passes@)[i]).output is Fbo))
            ==> w.final_front is None,
{
    let c = ChainView {
        passes: survivor_views(passes@),
        declared: crate::text::texts(declared@),
        donor,
        fullscreen,
        layer_reads_scene,
    };
    let n = c.passes.len();
    let all = wired_views(w.passes@);
    assert(all == Seq::new(n, |i: int| wired_pass(c, i)));
    assert(all.len() == w.passes@.len());
    assert(forall|i: int| 0 <= i < n ==> #[trigger] all[i] == wired_pass(c, i));
    law_finished_composite(c);
    assert forall|i: int| 0 <= i < n && (#[trigger] all[i]).output is Fbo implies w.buffers by {
        law_buffers_when_needed(c, i);
    }
    assert forall|i: int|
        0 <= i < n && (#[trigger] all[i]).output is Fbo && (forall|m: int|
            i < m < n ==> !((#[trigger] all[m]).output is Fbo)) implies w.final_front == Some(
        all[i].output->Fbo_0 as usize,
    ) by {
        assert forall|m: int| i < m < n implies !(#[trigger] wired_pass(c, m).output is Fbo) by {
            assert(!(all[m].output is Fbo));
        }
        assert(wired_pass(c, i).output is Fbo);
    }
    if forall|i: int| 0 <= i < n ==> !((#[trigger] all[i]).output is Fbo) {
        assert forall|m: int| 0 <= m < n implies !(#[trigger] wired_pass(c, m).output is Fbo) by {
            assert(!(all[m].output is Fbo));
        }
    }
}

/// A sampler that a stage declares.
#[derive(Debug)]
pub struct SamplerSlot {
    /// Its texture slot, if it has one.
    pub slot: Option<u32>,
    /// The texture it samples where the slot is empty.
    pub default_texture: Option<String>,
    /// The binding of its texture.
    pub texture_binding: u32,
    /// The binding of its sampler.
    pub sampler_binding: u32,
}

/// What a sampler samples.
#[derive(Debug)]
pub enum SlotSource {
    /// The input of the pass.
    Input,
    /// The scene as it is composited so far.
    Scene,
    /// A buffer, by name.
    Named(String),
    /// A texture file.
    Texture(String),
    /// Plain white.
    White,
}

/// Where the buffer that a sampler names is found.
#[derive(Clone, Copy, Debug, PartialEq, Eq, Structural)]
pub enum NamedBuffer {
    /// Among the scratch buffers of the image.
    Scratch,
    /// It is the composite of the image so far.
    Composite,
    /// Among the composites of other images.
    Donor,
}

/// Where a buffer is found by name: a scratch buffer wins over the composite,
/// which goes by `previous` and the image's own two names, and that over the
/// composites of other images.
pub open spec fn buffer_named(
    name: Seq<char>,
    scratch: Seq<Seq<char>>,
    own_a: Seq<char>,
    own_b: Seq<char>,
) -> NamedBuffer {
    if scratch.contains(name) {
        NamedBuffer::Scratch
    } else if name == "previous"@ || name == own_a || name == own_b {
        NamedBuffer::Composite
    } else {
        NamedBuffer::Donor
    }
}

/// Where the buffer `name` is found.
pub fn named_buffer(name: &str, scratch: &Vec<String>, own_a: &str, own_b: &str) -> (r: NamedBuffer)
    ensures
        r == buffer_named(name@, crate::text::texts(scratch@), own_a@, own_b@),
{
    if declared_name(scratch, name) {
        NamedBuffer::Scratch
    } else if same(name, "previous") || same(name, own_a) || same(name, own_b) {
        NamedBuffer::Composite
    } else {
        NamedBuffer::Donor
    }
}

/// What a [`SlotSource`] holds.
pub enum SourceView {
    /// The input of the pass.
    Input,
    /// The scene.
    Scene,
    /// A buffer.
    Named(Seq<char>),
    /// A texture file.
    Texture(Seq<char>),
    /// Plain white.
    White,
}

impl View for SlotSource {
    type V = SourceView;

    open spec fn view(&self) -> SourceView {
        match self {
            SlotSource::Input => SourceView::Input,
            SlotSource::Scene => SourceView::Scene,
            SlotSource::Named(n) => SourceView::Named(n@),
            SlotSource::Texture(n) => SourceView::Texture(n@),
            SlotSource::White => SourceView::White,
        }
    }
}

/// The name that a sampler goes by: what its slot holds, else its default.
pub open spec fn sampled_name(s: SamplerSlot, textures: Seq<Option<Seq<char>>>) -> Option<
    Seq<char>,
> {
    let held = match s.slot {
        Some(i) => if i < textures.len() {
            textures[i as int]
        } else {
            None
        },
        None => None,
    };
    match held {
        Some(n) => Some(n),
        None => crate::fields::opt_text(s.default_texture),
    }
}

/// What a sampler samples. A known buffer goes first, on any slot; then the
/// scene; then, on the first slot, the input of the pass; then texture files.
pub open spec fn source_of(
    s: SamplerSlot,
    textures: Seq<Option<Seq<char>>>,
    named: Seq<Seq<char>>,
) -> SourceView {
    let name = sampled_name(s, textures);
    if name matches Some(n) && named.contains(n) {
        SourceView::Named(name->0)
    } else if name matches Some(n) && names_scene(n) {
        SourceView::Scene
    } else if s.slot == Some(0u32) {
        SourceView::Input
    } else {
        match name {
            Some(n) => if names_target(n) {
                SourceView::White
            } else {
                SourceView::Texture(n)
            },
            None => SourceView::White,
        }
    }
}

/// What a sampler samples.
pub fn slot_source(s: &SamplerSlot, textures: &TextureSlots, named: &Vec<String>) -> (r: SlotSource)
    ensures
        r@ == source_of(
            *s,
            crate::material::slots(textures@),
            crate::text::texts(named@),
        ),
{
    let held = match s.slot {
        Some(i) => slot_text(textures, i as usize),
        None => None,
    };
    let name = match held {
        Some(n) => Some(n),
        None => match &s.default_texture {
            Some(d) => Some(d.clone()),
            None => None,
        },
    };
    assert(crate::fields::opt_text(name) == sampled_name(*s, crate::material::slots(textures@)));
    if let Some(n) = &name {
        if declared_name(named, n.as_str()) {
            return SlotSource::Named(n.clone());
        }
        if is_scene_rt(n.as_str()) {
            return SlotSource::Scene;
        }
    }
    if let Some(i) = s.slot {
        if i == 0 {
            return SlotSource::Input;
        }
    }
    match name {
        Some(n) => if is_target_name(n.as_str()) {
            SlotSource::White
        } else {
            SlotSource::Texture(n)
        },
        None => SlotSource::White,
    }
}

/// What is bound to a resource.
#[derive(Debug)]
pub enum BoundResource {
    /// The block of globals.
    Globals,
    /// A texture.
    Texture(SlotSource),
    /// The sampler of a texture.
    Sampler(SlotSource),
}

/// What a [`BoundResource`] holds.
pub enum BoundView {
    /// The block of globals.
    Globals,
    /// A texture.
    Texture(SourceView),
    /// The sampler of a texture.
    Sampler(SourceView),
}

impl View for BoundResource {
    type V = BoundView;

    open spec fn view(&self) -> BoundView {
        match self {
            BoundResource::Globals => BoundView::Globals,
            BoundResource::Texture(s) => BoundView::Texture(s@),
            BoundResource::Sampler(s) => BoundView::Sampler(s@),
        }
    }
}

/// What a list of bound resources holds.
pub open spec fn bound_views(v: Seq<(u32, BoundResource)>) -> Seq<(u32, BoundView)> {
    Seq::new(v.len(), |i: int| (v[i].0, v[i].1@))
}

/// The first sampler whose texture (or sampler) has a binding number.
pub open spec fn sampler_at(samplers: Seq<SamplerSlot>, binding: u32, texture: bool) -> Option<
    SamplerSlot,
>
    decreases samplers.len(),
{
    if samplers.len() == 0 {
        None
    } else {
        let s = samplers[0];
        if (if texture {
            s.texture_binding
        } else {
            s.sampler_binding
        }) == binding {
            Some(s)
        } else {
            sampler_at(samplers.skip(1), binding, texture)
        }
    }
}

/// What a resource that no sampler describes, or the sampler that describes
/// it, samples.
pub open spec fn source_at(
    samplers: Seq<SamplerSlot>,
    binding: u32,
    texture: bool,
    textures: Seq<Option<Seq<char>>>,
    named: Seq<Seq<char>>,
) -> SourceView {
    match sampler_at(samplers, binding, texture) {
        Some(s) => source_of(s, textures, named),
        None => SourceView::White,
    }
}

/// What is bound to the resources of a stage, in their order. A block of
/// globals is left out where there is no buffer for it.
pub open spec fn bound_of(
    bindings: Seq<ModuleBinding>,
    samplers: Seq<SamplerSlot>,
    textures: Seq<Option<Seq<char>>>,
    named: Seq<Seq<char>>,
    globals: bool,
) -> Seq<(u32, BoundView)>
    decreases bindings.len(),
{
    if bindings.len() == 0 {
        Seq::empty()
    } else {
        let before = bound_of(bindings.drop_last(), samplers, textures, named, globals);
        let b = bindings.last();
        match b.kind {
            BindKind::Ubo => if globals {
                before.push((b.binding, BoundView::Globals))
            } else {
                before
            },
            BindKind::Texture => before.push(
                (
                    b.binding,
                    BoundView::Texture(source_at(samplers, b.binding, true, textures, named)),
                ),
            ),
            BindKind::Sampler => before.push(
                (
                    b.binding,
                    BoundView::Sampler(source_at(samplers, b.binding, false, textures, named)),
                ),
            ),
        }
    }
}

/// What a resource samples.
fn find_source(
    samplers: &Vec<SamplerSlot>,
    binding: u32,
    texture: bool,
    textures: &TextureSlots,
    named: &Vec<String>,
) -> (r: SlotSource)
    ensures
        r@ == source_at(
            samplers@,
            binding,
            texture,
            crate::material::slots(textures@),
            crate::text::texts(named@),
        ),
{
    let mut i: usize = 0;
    assert(samplers@.skip(0) =~= samplers@);
    while i < samplers.len()
        invariant
            i <= samplers@.len(),
            sampler_at(samplers@, binding, texture) == sampler_at(
                samplers@.skip(i as int),
                binding,
                texture,
            ),
        decreases samplers@.len() - i,
    {
        assert(samplers@.skip(i as int).skip(1) =~= samplers@.skip(i + 1));
        assert(samplers@.skip(i as int)[0] == samplers@[i as int]);
        let at: u32 = if texture {
            samplers[i].texture_binding
        } else {
            samplers[i].sampler_binding
        };
        if at == binding {
            return slot_source(&samplers[i], textures, named);
        }
        i = i + 1;
    }
    SlotSource::White
}

/// What to bind to the resources of a stage.
pub fn build_bind_group(
    bindings: &Vec<ModuleBinding>,
    samplers: &Vec<SamplerSlot>,
    textures: &TextureSlots,
    named: &Vec<String>,
    globals: bool,
) -> (r: Vec<(u32, BoundResource)>)
    ensures
        bound_views(r@) == bound_of(
            bindings@,
            samplers@,
            crate::material::slots(textures@),
            crate::text::texts(named@),
            globals,
        ),
{
    let ghost slots = crate::material::slots(textures@);
    let ghost names = crate::text::texts(named@);
    let mut out: Vec<(u32, BoundResource)> = Vec::new();
    let mut i: usize = 0;
    assert(bindings@.take(0) =~= Seq::empty());
    assert(bound_views(out@) =~= Seq::<(u32, BoundView)>::empty());
    while i < bindings.len()
        invariant
            i <= bindings@.len(),
            slots == crate::material::slots(textures@),
            names == crate::text::texts(named@),
            bound_views(out@) == bound_of(
                bindings@.take(i as int),
                samplers@,
                slots,
                names,
                globals,
            ),
        decreases bindings@.len() - i,
    {
        assert(bindings@.take(i + 1).drop_last() =~= bindings@.take(i as int));
        let b = bindings[i];
        let resource = match b.kind {
            BindKind::Ubo => if globals {
                Some(BoundResource::Globals)
            } else {
                None
            },
            BindKind::Texture => Some(
                BoundResource::Texture(find_source(samplers, b.binding, true, textures, named)),
            ),
            BindKind::Sampler => Some(
                BoundResource::Sampler(find_source(samplers, b.binding, false, textures, named)),
            ),
        };
        if let Some(res) = resource {
            let ghost was = bound_views(out@);
            let ghost shown = (b.binding, res@);
            out.push((b.binding, res));
            assert(bound_views(out@) =~= was.push(shown));
        }
        i = i + 1;
    }
    assert(bindings@.take(i as int) =~= bindings@);
    out
}

/// Every declared resource is bound, in order, where there is a buffer for the
/// globals: the bindings fit the layout.
pub proof fn law_every_resource_is_bound(
    bindings: Seq<ModuleBinding>,
    samplers: Seq<SamplerSlot>,
    textures: Seq<Option<Seq<char>>>,
    named: Seq<Seq<char>>,
)
    ensures
        bound_of(bindings, samplers, textures, named, true).len() == bindings.len(),
        forall|i: int| 0 <= i < bindings.len() ==> (#[trigger] bound_of(
            bindings,
            samplers,
            textures,
            named,
            true,
        )[i]).0 == bindings[i].binding,
    decreases bindings.len(),
{
    if bindings.len() > 0 {
        law_every_resource_is_bound(bindings.drop_last(), samplers, textures, named);
        let before = bound_of(bindings.drop_last(), samplers, textures, named, true);
        let all = bound_of(bindings, samplers, textures, named, true);
        assert forall|i: int| 0 <= i < bindings.len() implies (#[trigger] all[i]).0
            == bindings[i].binding by {
            if i < before.len() {
                assert(all[i] == before[i]);
                assert(bindings.drop_last()[i] == bindings[i]);
            }
        }
    }
}

/// What a sampler on any slot but the first samples where it goes by `name`: a
/// known buffer; else the scene, where the name is one of its two; else white
/// for any other render target; else the texture file.
pub open spec fn goes_by(name: Seq<char>, named: Seq<Seq<char>>, r: SourceView) -> bool {
    &&& named.contains(name) ==> r == SourceView::Named(name)
    &&& !named.contains(name) && (name == "_rt_FullFrameBuffer"@ || name
        == "_rt_MipMappedFrameBuffer"@) ==> r == SourceView::Scene
    &&& !named.contains(name) && name != "_rt_FullFrameBuffer"@ && name
        != "_rt_MipMappedFrameBuffer"@ && (crate::text::begins(name, "_rt_"@)
        || crate::text::begins(name, "_alias_"@)) ==> r == SourceView::White
    &&& !named.contains(name) && !crate::text::begins(name, "_rt_"@) && !crate::text::begins(
        name,
        "_alias_"@,
    ) ==> r == SourceView::Texture(name)
}

/// The names of the scene are names of render targets.
proof fn lemma_scene_names()
    ensures
        forall|n: Seq<char>| #[trigger] names_scene(n) ==> crate::text::begins(n, "_rt_"@),
{
    reveal_strlit("_rt_");
    reveal_strlit("_rt_FullFrameBuffer");
    reveal_strlit("_rt_MipMappedFrameBuffer");
    assert("_rt_FullFrameBuffer"@.take(4) =~= "_rt_"@);
    assert("_rt_MipMappedFrameBuffer"@.take(4) =~= "_rt_"@);
}

/// A texture that a pass puts in the slot of a sampler is what the sampler goes
/// by, whatever its default; on the first slot the input of the pass takes the
/// place of what is neither a known buffer nor the scene.
pub proof fn law_slot_texture_wins(
    s: SamplerSlot,
    textures: Seq<Option<Seq<char>>>,
    named: Seq<Seq<char>>,
    slot: u32,
    name: Seq<char>,
)
    requires
        s.slot == Some(slot),
        slot < textures.len(),
        textures[slot as int] == Some(name),
    ensures
        slot > 0 ==> goes_by(name, named, source_of(s, textures, named)),
        slot == 0 && named.contains(name) ==> source_of(s, textures, named) == SourceView::Named(
            name,
        ),
        slot == 0 && !named.contains(name) && (name == "_rt_FullFrameBuffer"@ || name
            == "_rt_MipMappedFrameBuffer"@) ==> source_of(s, textures, named) == SourceView::Scene,
        slot == 0 && !named.contains(name) && name != "_rt_FullFrameBuffer"@ && name
            != "_rt_MipMappedFrameBuffer"@ ==> source_of(s, textures, named) == SourceView::Input,
{
    lemma_scene_names();
}

/// The default of a sampler counts only where nothing is in its slot, or where it
/// has none.
pub proof fn law_default_fills_empty_slot(
    s: SamplerSlot,
    textures: Seq<Option<Seq<char>>>,
    named: Seq<Seq<char>>,
)
    requires
        s.slot matches Some(i) ==> !(i < textures.len() && textures[i as int] is Some),
    ensures
        s.slot != Some(0u32) ==> (s.default_texture matches Some(d) ==> goes_by(
            d@,
            named,
            source_of(s, textures, named),
        )),
        s.slot != Some(0u32) && s.default_texture is None ==> source_of(s, textures, named)
            == SourceView::White,
        s.slot == Some(0u32) ==> (s.default_texture matches Some(d) ==> source_of(
            s,
            textures,
            named,
        ) == if named.contains(d@) {
            SourceView::Named(d@)
        } else if d@ == "_rt_FullFrameBuffer"@ || d@ == "_rt_MipMappedFrameBuffer"@ {
            SourceView::Scene
        } else {
            SourceView::Input
        }),
        s.slot == Some(0u32) && s.default_texture is None ==> source_of(s, textures, named)
            == SourceView::Input,
{
    lemma_scene_names();
}

/// The first sampler with a binding is the one found.
proof fn lemma_sampler_at(samplers: Seq<SamplerSlot>, binding: u32, texture: bool, k: int)
    requires
        0 <= k < samplers.len(),
        (if texture { samplers[k].texture_binding } else { samplers[k].sampler_binding }) == binding,
        forall|m: int|
            0 <= m < k ==> (if texture { (#[trigger] samplers[m]).texture_binding } else {
                samplers[m].sampler_binding
            }) != binding,
    ensures
        sampler_at(samplers, binding, texture) == Some(samplers[k]),
    decreases samplers.len(),
{
    if k > 0 {
        assert(samplers[0] == samplers[0]);
        let rest = samplers.skip(1);
        assert forall|m: int| 0 <= m < k - 1 implies (if texture {
            (#[trigger] rest[m]).texture_binding
        } else {
            rest[m].sampler_binding
        }) != binding by {
            assert(rest[m] == samplers[m + 1]);
        }
        lemma_sampler_at(rest, binding, texture, k - 1);
    }
}

/// Without a sampler with a binding none is found.
proof fn lemma_no_sampler_at(samplers: Seq<SamplerSlot>, binding: u32, texture: bool)
    requires
        forall|m: int|
            0 <= m < samplers.len() ==> (if texture { (#[trigger] samplers[m]).texture_binding } else {
                samplers[m].sampler_binding
            }) != binding,
    ensures
        sampler_at(samplers, binding, texture) is None,
    decreases samplers.len(),
{
    if samplers.len() > 0 {
        assert(samplers[0] == samplers[0]);
        let rest = samplers.skip(1);
        assert forall|m: int| 0 <= m < rest.len() implies (if texture {
            (#[trigger] rest[m]).texture_binding
        } else {
            rest[m].sampler_binding
        }) != binding by {
            assert(rest[m] == samplers[m + 1]);
        }
        lemma_no_sampler_at(rest, binding, texture);
    }
}

/// The last resource of a longer list is bound last.
proof fn lemma_bound_entry(
    bindings: Seq<ModuleBinding>,
    samplers: Seq<SamplerSlot>,
    textures: Seq<Option<Seq<char>>>,
    named: Seq<Seq<char>>,
    i: int,
)
    requires
        0 <= i < bindings.len(),
    ensures
        bound_of(bindings, samplers, textures, named, true).len() == bindings.len(),
        bound_of(bindings, samplers, textures, named, true)[i].0 == bindings[i].binding,
        bindings[i].kind == BindKind::Ubo ==> bound_of(bindings, samplers, textures, named, true)[i].1
            == BoundView::Globals,
        bindings[i].kind == BindKind::Texture ==> bound_of(
            bindings,
            samplers,
            textures,
            named,
            true,
        )[i].1 == BoundView::Texture(
            source_at(samplers, bindings[i].binding, true, textures, named),
        ),
        bindings[i].kind == BindKind::Sampler ==> bound_of(
            bindings,
            samplers,
            textures,
            named,
            true,
        )[i].1 == BoundView::Sampler(
            source_at(samplers, bindings[i].binding, false, textures, named),
        ),
    decreases bindings.len(),
{
    let head = bindings.drop_last();
    law_every_resource_is_bound(head, samplers, textures, named);
    law_every_resource_is_bound(bindings, samplers, textures, named);
    if i < bindings.len() - 1 {
        lemma_bound_entry(head, samplers, textures, named, i);
        assert(head[i] == bindings[i]);
    }
}

/// A texture resource shows what the first sampler with its number samples, and
/// a sampler resource belongs to the first sampler with its number; the
/// globals are bound to the block of globals.
pub proof fn law_resource_has_its_sampler(
    bindings: Seq<ModuleBinding>,
    samplers: Seq<SamplerSlot>,
    textures: Seq<Option<Seq<char>>>,
    named: Seq<Seq<char>>,
    i: int,
)
    requires
        0 <= i < bindings.len(),
    ensures
        bindings[i].kind == BindKind::Ubo ==> bound_of(bindings, samplers, textures, named, true)[i]
            == (bindings[i].binding, BoundView::Globals),
        forall|k: int|
            bindings[i].kind == BindKind::Texture && 0 <= k < samplers.len() && (
            #[trigger] samplers[k]).texture_binding == bindings[i].binding && (forall|m: int|
                0 <= m < k ==> (#[trigger] samplers[m]).texture_binding != bindings[i].binding)
                ==> bound_of(bindings, samplers, textures, named, true)[i] == (
                bindings[i].binding,
                BoundView::Texture(source_of(samplers[k], textures, named)),
            ),
        forall|k: int|
            bindings[i].kind == BindKind::Sampler && 0 <= k < samplers.len() && (
            #[trigger] samplers[k]).sampler_binding == bindings[i].binding && (forall|m: int|
                0 <= m < k ==> (#[trigger] samplers[m]).sampler_binding != bindings[i].binding)
                ==> bound_of(bindings, samplers, textures, named, true)[i] == (
                bindings[i].binding,
                BoundView::Sampler(source_of(samplers[k], textures, named)),
            ),
        bindings[i].kind == BindKind::Texture && (forall|m: int|
            0 <= m < samplers.len() ==> (#[trigger] samplers[m]).texture_binding
                != bindings[i].binding) ==> bound_of(bindings, samplers, textures, named, true)[i] == (
            bindings[i].binding,
            BoundView::Texture(SourceView::White),
        ),
        bindings[i].kind == BindKind::Sampler && (forall|m: int|
            0 <= m < samplers.len() ==> (#[trigger] samplers[m]).sampler_binding
                != bindings[i].binding) ==> bound_of(bindings, samplers, textures, named, true)[i] == (
            bindings[i].binding,
            BoundView::Sampler(SourceView::White),
        ),
{
    let at = bindings[i].binding;
    lemma_bound_entry(bindings, samplers, textures, named, i);
    assert forall|k: int|
        bindings[i].kind == BindKind::Texture && 0 <= k < samplers.len() && (
        #[trigger] samplers[k]).texture_binding == at && (forall|m: int|
            0 <= m < k ==> (#[trigger] samplers[m]).texture_binding != at) implies bound_of(
        bindings,
        samplers,
        textures,
        named,
        true,
    )[i] == (at, BoundView::Texture(source_of(samplers[k], textures, named))) by {
        lemma_sampler_at(samplers, at, true, k);
    }
    assert forall|k: int|
        bindings[i].kind == BindKind::Sampler && 0 <= k < samplers.len() && (
        #[trigger] samplers[k]).sampler_binding == at && (forall|m: int|
            0 <= m < k ==> (#[trigger] samplers[m]).sampler_binding != at) implies bound_of(
        bindings,
        samplers,
        textures,
        named,
        true,
    )[i] == (at, BoundView::Sampler(source_of(samplers[k], textures, named))) by {
        lemma_sampler_at(samplers, at, false, k);
    }
    if forall|m: int| 0 <= m < samplers.len() ==> (#[trigger] samplers[m]).texture_binding != at {
        lemma_no_sampler_at(samplers, at, true);
    }
    if forall|m: int| 0 <= m < samplers.len() ==> (#[trigger] samplers[m]).sampler_binding != at {
        lemma_no_sampler_at(samplers, at, false);
    }
}

/// Without a buffer for the globals their blocks alone are left out: all other
/// resources are bound as they would be with it, in the same order.
pub proof fn law_only_globals_are_left_out(
    bindings: Seq<ModuleBinding>,
    samplers: Seq<SamplerSlot>,
    textures: Seq<Option<Seq<char>>>,
    named: Seq<Seq<char>>,
)
    ensures
        bound_of(bindings, samplers, textures, named, false) == bound_of(
            bindings,
            samplers,
            textures,
            named,
            true,
        ).filter(|b: (u32, BoundView)| !(b.1 is Globals)),
    decreases bindings.len(),
{
    reveal(Seq::filter);
    if bindings.len() > 0 {
        let head = bindings.drop_last();
        law_only_globals_are_left_out(head, samplers, textures, named);
        let before = bound_of(head, samplers, textures, named, true);
        let all = bound_of(bindings, samplers, textures, named, true);
        assert(all.drop_last() =~= before);
    }
}

/// Whether a mesh samples the scene: by the default of a sampler or by a slot.
pub fn mesh_reads_scene(
    vs_samplers: &Vec<SamplerSlot>,
    fs_samplers: &Vec<SamplerSlot>,
    textures: &TextureSlots,
) -> (r: bool)
    ensures
        r == (defaults_to_scene(fs_samplers@) || defaults_to_scene(vs_samplers@)
            || slot_reads_scene(crate::material::slots(textures@))),
{
    any_default_scene(fs_samplers) || any_default_scene(vs_samplers) || any_scene(textures)
}

/// Whether a sampler samples the scene by default.
pub open spec fn defaults_to_scene(samplers: Seq<SamplerSlot>) -> bool {
    exists|i: int| 0 <= i < samplers.len() && (crate::fields::opt_text(
        (#[trigger] samplers[i]).default_texture,
    ) matches Some(n) && names_scene(n))
}

/// Whether a sampler samples the scene by default.
fn any_default_scene(samplers: &Vec<SamplerSlot>) -> (r: bool)
    ensures
        r == defaults_to_scene(samplers@),
{
    let mut i: usize = 0;
    while i < samplers.len()
        invariant
            i <= samplers@.len(),
            forall|k: int| 0 <= k < i ==> !(crate::fields::opt_text(
                (#[trigger] samplers@[k]).default_texture,
            ) matches Some(n) && names_scene(n)),
        decreases samplers@.len() - i,
    {
        if let Some(n) = &samplers[i].default_texture {
            if is_scene_rt(n.as_str()) {
                assert(crate::fields::opt_text(samplers@[i as int].default_texture) == Some(n@));
                return true;
            }
        }
        i = i + 1;
    }
    false
}

/// What tells the size of texture slot `s` of a mesh: its input on the first;
/// else what the last sampler of that slot samples; else the target.
pub open spec fn mesh_resolution(
    samplers: Seq<SamplerSlot>,
    textures: Seq<Option<Seq<char>>>,
    s: int,
) -> ResolutionView
    decreases samplers.len(),
{
    if s == 0 {
        ResolutionView::Layer
    } else if samplers.len() == 0 {
        ResolutionView::Target
    } else if samplers.last().slot matches Some(i) && i == s {
        named_resolution(sampled_name(samplers.last(), textures))
    } else {
        mesh_resolution(samplers.drop_last(), textures, s)
    }
}

/// What tells the size of a texture slot of a mesh goes by the last sampler of
/// that slot: by the texture in the slot or, where there is none, by the
/// default of that sampler. A file tells its own size, a render target that of
/// the target; so does a slot without a sampler, and the first slot is the
/// layer.
pub proof fn law_mesh_sizes(
    samplers: Seq<SamplerSlot>,
    textures: Seq<Option<Seq<char>>>,
    s: int,
    k: int,
)
    requires
        0 < s,
        0 <= k < samplers.len(),
        samplers[k].slot matches Some(i) && i == s,
        forall|m: int|
            k < m < samplers.len() ==> !((#[trigger] samplers[m]).slot matches Some(i) && i == s),
    ensures
        s < textures.len() ==> (textures[s] matches Some(n) ==> mesh_resolution(
            samplers,
            textures,
            s,
        ) == if crate::text::begins(n, "_rt_"@) || crate::text::begins(n, "_alias_"@) {
            ResolutionView::Target
        } else {
            ResolutionView::Texture(n)
        }),
        !(s < textures.len() && textures[s] is Some) ==> (samplers[k].default_texture matches Some(d)
            ==> mesh_resolution(samplers, textures, s) == if crate::text::begins(d@, "_rt_"@)
            || crate::text::begins(d@, "_alias_"@) {
            ResolutionView::Target
        } else {
            ResolutionView::Texture(d@)
        }),
        !(s < textures.len() && textures[s] is Some) && samplers[k].default_texture is None
            ==> mesh_resolution(samplers, textures, s) == ResolutionView::Target,
    decreases samplers.len(),
{
    if k < samplers.len() - 1 {
        let head = samplers.drop_last();
        assert(!(samplers[samplers.len() - 1].slot matches Some(i) && i == s));
        assert(head[k] == samplers[k]);
        assert forall|m: int| k < m < head.len() implies !((#[trigger] head[m]).slot matches Some(i)
            && i == s) by {
            assert(head[m] == samplers[m]);
        }
        law_mesh_sizes(head, textures, s, k);
    }
}

/// A slot of a mesh that no sampler has is as large as the target, and the first
/// as large as the layer.
pub proof fn law_mesh_sizes_without_sampler(
    samplers: Seq<SamplerSlot>,
    textures: Seq<Option<Seq<char>>>,
    s: int,
)
    ensures
        mesh_resolution(samplers, textures, 0) == ResolutionView::Layer,
        s > 0 && (forall|m: int|
            0 <= m < samplers.len() ==> !((#[trigger] samplers[m]).slot matches Some(i) && i == s))
            ==> mesh_resolution(samplers, textures, s) == ResolutionView::Target,
    decreases samplers.len(),
{
    if samplers.len() > 0 && s > 0 && forall|m: int|
        0 <= m < samplers.len() ==> !((#[trigger] samplers[m]).slot matches Some(i) && i == s) {
        let head = samplers.drop_last();
        assert(!(samplers[samplers.len() - 1].slot matches Some(i) && i == s));
        assert forall|m: int| 0 <= m < head.len() implies !((#[trigger] head[m]).slot matches Some(i)
            && i == s) by {
            assert(head[m] == samplers[m]);
        }
        law_mesh_sizes_without_sampler(head, textures, s);
    }
}

/// What tells the sizes of a mesh's textures.
pub fn build_tex_resolution(samplers: &Vec<SamplerSlot>, textures: &TextureSlots) -> (r: Vec<
    Resolution,
>)
    ensures
        resolution_views(r@) == Seq::new(
            RESOLUTION_SLOTS as nat,
            |s: int| mesh_resolution(samplers@, crate::material::slots(textures@), s),
        ),
{
    let ghost slots = crate::material::slots(textures@);
    let mut out: Vec<Resolution> = Vec::new();
    out.push(Resolution::Layer);
    while out.len() < RESOLUTION_SLOTS
        invariant
            1 <= out@.len() <= RESOLUTION_SLOTS,
            out@[0]@ == ResolutionView::Layer,
            forall|s: int| 1 <= s < out@.len() ==> (#[trigger] out@[s])@ == ResolutionView::Target,
        decreases RESOLUTION_SLOTS - out@.len(),
    {
        out.push(Resolution::Target);
    }
    let mut i: usize = 0;
    assert(samplers@.take(0) =~= Seq::empty());
    while i < samplers.len()
        invariant
            i <= samplers@.len(),
            slots == crate::material::slots(textures@),
            out@.len() == RESOLUTION_SLOTS,
            forall|s: int|
                0 <= s < RESOLUTION_SLOTS ==> (#[trigger] out@[s])@ == mesh_resolution(
                    samplers@.take(i as int),
                    slots,
                    s,
                ),
        decreases samplers@.len() - i,
    {
        assert(samplers@.take(i + 1).drop_last() =~= samplers@.take(i as int));
        if let Some(slot) = samplers[i].slot {
            if slot != 0 && (slot as usize) < RESOLUTION_SLOTS {
                let name = match slot_text(textures, slot as usize) {
                    Some(n) => Some(n),
                    None => match &samplers[i].default_texture {
                        Some(d) => Some(d.clone()),
                        None => None,
                    },
                };
                assert(crate::fields::opt_text(name) == sampled_name(samplers@[i as int], slots));
                let one = resolution_of(name);
                out.set(slot as usize, one);
            }
        }
        i = i + 1;
    }
    assert(samplers@.take(i as int) =~= samplers@);
    assert(resolution_views(out@) =~= Seq::new(
        RESOLUTION_SLOTS as nat,
        |s: int| mesh_resolution(samplers@, slots, s),
    ));
    out
}

/// What the layer of an image shows goes by the first slot of the first pass of
/// its material: the scene by its names, white for another render target, else
/// the texture of that name; white where there is no such slot.
pub proof fn law_layer_goes_by_first_slot(image: &ImageObject, r: LayerSource)
    requires
        call_ensures(layer_source, (image,), r),
    ensures
        ({
            let filled = image@.material is Some && image@.material->0.len() > 0
                && image@.material->0[0].textures.len() > 0
                && image@.material->0[0].textures[0] is Some;
            let n = image@.material->0[0].textures[0]->0;
            let scene = n == "_rt_FullFrameBuffer"@ || n == "_rt_MipMappedFrameBuffer"@;
            let target = crate::text::begins(n, "_rt_"@) || crate::text::begins(n, "_alias_"@);
            &&& !filled ==> r is White
            &&& filled && scene ==> r is Scene
            &&& filled && target && !scene ==> r is White
            &&& filled && !target ==> (r matches LayerSource::Texture(t) && t@ == n)
        }),
{
    lemma_scene_names();
}

/// The first pass of a mesh is translucent; every other is drawn as planned.
pub proof fn law_mesh_is_translucent(is_puppet_base: bool, planned: Blending, r: Blending)
    requires
        call_ensures(effective_blending, (is_puppet_base, planned), r),
    ensures
        is_puppet_base ==> r == Blending::Translucent,
        !is_puppet_base ==> r == planned,
{
}

/// A mesh samples the scene where a slot or the default of a sampler of either
/// stage names it, and only then.
pub proof fn law_mesh_reads_scene_by_name(
    vs_samplers: &Vec<SamplerSlot>,
    fs_samplers: &Vec<SamplerSlot>,
    textures: &TextureSlots,
    r: bool,
)
    requires
        call_ensures(mesh_reads_scene, (vs_samplers, fs_samplers, textures), r),
    ensures
        ({
            let scene = |t: Option<String>|
                t is Some && (t->0@ == "_rt_FullFrameBuffer"@ || t->0@
                    == "_rt_MipMappedFrameBuffer"@);
            &&& forall|i: int|
                0 <= i < vs_samplers@.len() && scene((#[trigger] vs_samplers@[i]).default_texture)
                    ==> r
            &&& forall|i: int|
                0 <= i < fs_samplers@.len() && scene((#[trigger] fs_samplers@[i]).default_texture)
                    ==> r
            &&& forall|i: int| 0 <= i < textures@.len() && scene(#[trigger] textures@[i]) ==> r
            &&& r ==> (exists|i: int|
                0 <= i < vs_samplers@.len() && scene((#[trigger] vs_samplers@[i]).default_texture))
                || (exists|i: int|
                0 <= i < fs_samplers@.len() && scene((#[trigger] fs_samplers@[i]).default_texture))
                || (exists|i: int| 0 <= i < textures@.len() && scene(#[trigger] textures@[i]))
        }),
{
    let slots = crate::material::slots(textures@);
    let scene = |t: Option<String>|
        t is Some && (t->0@ == "_rt_FullFrameBuffer"@ || t->0@ == "_rt_MipMappedFrameBuffer"@);
    assert forall|i: int| 0 <= i < textures@.len() && scene(#[trigger] textures@[i]) implies r by {
        assert(slots[i] == Some(textures@[i]->0@));
        assert(names_scene(slots[i]->0));
    }
    if slot_reads_scene(slots) {
        let i = choose|i: int|
            0 <= i < slots.len() && (#[trigger] slots[i] matches Some(n) && names_scene(n));
        assert(scene(textures@[i]));
    }
}

/// A buffer is found among the scratch buffers of an image first, then among its
/// own two, of which `previous` is one, and else it is that of another image.
pub proof fn law_buffers_are_found(
    name: &str,
    scratch: &Vec<String>,
    own_a: &str,
    own_b: &str,
    r: NamedBuffer,
)
    requires
        call_ensures(named_buffer, (name, scratch, own_a, own_b), r),
    ensures
        ({
            let listed = exists|i: int| 0 <= i < scratch@.len() && (#[trigger] scratch@[i])@ == name@;
            let own = name@ == "previous"@ || name@ == own_a@ || name@ == own_b@;
            &&& r == NamedBuffer::Scratch <==> listed
            &&& r == NamedBuffer::Composite <==> !listed && own
            &&& r == NamedBuffer::Donor <==> !listed && !own
        }),
{
    let all = crate::text::texts(scratch@);
    if all.contains(name@) {
        let i = choose|i: int| 0 <= i < all.len() && all[i] == name@;
        assert(scratch@[i]@ == name@);
    }
    if exists|i: int| 0 <= i < scratch@.len() && (#[trigger] scratch@[i])@ == name@ {
        let i = choose|i: int| 0 <= i < scratch@.len() && (#[trigger] scratch@[i])@ == name@;
        assert(all[i] == name@);
    }
}

/// The source of a sampler is the texture in its slot, as the pass gives it,
/// whatever the default of the sampler.
pub proof fn law_sampler_takes_slot(
    s: &SamplerSlot,
    textures: &TextureSlots,
    named: &Vec<String>,
    r: SlotSource,
    slot: u32,
)
    requires
        call_ensures(slot_source, (s, textures, named), r),
        s.slot == Some(slot),
        0 < slot < textures@.len(),
        textures@[slot as int] is Some,
    ensures
        goes_by(textures@[slot as int]->0@, crate::text::texts(named@), r@),
{
    let slots = crate::material::slots(textures@);
    assert(slots[slot as int] == Some(textures@[slot as int]->0@));
    law_slot_texture_wins(
        *s,
        slots,
        crate::text::texts(named@),
        slot,
        textures@[slot as int]->0@,
    );
}

} // verus!
