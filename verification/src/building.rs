//! What building the objects of a scene takes besides a graphics device: which
//! files are read, which passes are wired, and what becomes of the result.
use vstd::prelude::*;

use crate::assets::AssetSource;
use crate::compose::{
    base_layer_name, is_scene_rt, wire_chain, ChainView, Survivor, SurvivorView, WiredChain,
};
use crate::json::Json;
use crate::live::{LiveImage, LiveImageView, LivePass};
use crate::material::{copy_slots, copy_text, Material, Pass, PassView};
use crate::object::{ImageObject, ImageObjectView, Object};
use crate::plan::{plan_image, Geometry, ImagePlan, OutputView, PassOutput, PlanPassView};
use crate::renderer::SceneItem;
use crate::text::same;
use crate::value::copy_color;

verus! {

/// The text that UTF-8 bytes encode.
pub open spec fn text_in(bytes: Option<Seq<u8>>) -> Option<Seq<char>> {
    match bytes {
        Some(b) => if vstd::utf8::valid_utf8(b) {
            Some(vstd::utf8::decode_utf8(b))
        } else {
            None
        },
        None => None,
    }
}

/// Calls `std::string::String::from_utf8`: the text that the bytes encode, if
/// they are valid UTF-8; nothing, if they are not.
#[verifier::external_body]
fn utf8_text(bytes: Vec<u8>) -> (r: Option<String>)
    ensures
        crate::fields::opt_text(r) == text_in(Some(bytes@)),
{
    String::from_utf8(bytes).ok()
}

/// The text of a file that was read.
pub fn decode_text(bytes: Option<Vec<u8>>) -> (r: Option<String>)
    ensures
        crate::fields::opt_text(r) == text_in(crate::assets::bytes_of(bytes)),
{
    match bytes {
        Some(b) => utf8_text(b),
        None => None,
    }
}

/// The shader that copies a buffer; it is in no container.
pub const COPY_COMMAND_SHADER: &'static str = "commands/copy";

/// The vertex stage of the copy shader.
pub const COPY_COMMAND_VERT: &'static str = "attribute vec3 a_Position;\nattribute vec2 a_TexCoord;\nvarying vec2 v_TexCoord;\nvoid main() {\ngl_Position = vec4(a_Position, 1.0);\nv_TexCoord = a_TexCoord;\n}\n";

/// The fragment stage of the copy shader.
pub const COPY_COMMAND_FRAG: &'static str = "uniform sampler2D g_Texture0;\nvarying vec2 v_TexCoord;\nvoid main() {\ngl_FragColor = texSample2D(g_Texture0, v_TexCoord);\n}\n";

/// The files of a shader.
pub fn shader_files(shader: &str) -> (r: (String, String))
    ensures
        r.0@ == "shaders/"@ + shader@ + ".vert"@,
        r.1@ == "shaders/"@ + shader@ + ".frag"@,
{
    let mut v = crate::error::joined_message("shaders/", shader);
    let mut f = crate::error::joined_message("shaders/", shader);
    v.append(".vert");
    f.append(".frag");
    (v, f)
}

/// What two optional texts hold.
pub open spec fn both(v: Option<Seq<char>>, f: Option<Seq<char>>) -> Option<(Seq<char>, Seq<char>)> {
    match (v, f) {
        (Some(v), Some(f)) => Some((v, f)),
        _ => None,
    }
}

/// What an optional pair of texts holds.
pub open spec fn opt_pair(r: Option<(String, String)>) -> Option<(Seq<char>, Seq<char>)> {
    match r {
        Some(p) => Some((p.0@, p.1@)),
        None => None,
    }
}

/// The stages of a shader, from the bytes of its files: nothing, unless both
/// are there and hold text.
pub fn decode_shader(vert: Option<Vec<u8>>, frag: Option<Vec<u8>>) -> (r: Option<(String, String)>)
    ensures
        opt_pair(r) == both(
            text_in(crate::assets::bytes_of(vert)),
            text_in(crate::assets::bytes_of(frag)),
        ),
{
    match (decode_text(vert), decode_text(frag)) {
        (Some(v), Some(f)) => Some((v, f)),
        _ => None,
    }
}

/// The stages of a shader: those of the copy shader are built in, the others
/// are files.
pub fn load_shader<S: AssetSource>(source: &S, shader: &str) -> (r: Option<(String, String)>)
    ensures
        if shader@ == COPY_COMMAND_SHADER@ {
            opt_pair(r) == Some((COPY_COMMAND_VERT@, COPY_COMMAND_FRAG@))
        } else {
            exists|v: Option<Seq<u8>>, f: Option<Seq<u8>>|
                #[trigger] crate::assets::answered(source, "shaders/"@ + shader@ + ".vert"@, v)
                    && #[trigger] crate::assets::answered(
                    source,
                    "shaders/"@ + shader@ + ".frag"@,
                    f,
                ) && opt_pair(r) == both(text_in(v), text_in(f))
        },
{
    if same(shader, COPY_COMMAND_SHADER) {
        return Some((COPY_COMMAND_VERT.to_owned(), COPY_COMMAND_FRAG.to_owned()));
    }
    let (vert_file, frag_file) = shader_files(shader);
    let vert_path = vert_file.as_str();
    let frag_path = frag_file.as_str();
    let vert = source.load(vert_path);
    let frag = source.load(frag_path);
    proof {
        assert(call_ensures(S::load, (source, vert_path), vert));
        assert(call_ensures(S::load, (source, frag_path), frag));
        assert(crate::assets::answered(source, vert_path@, crate::assets::bytes_of(vert)));
        assert(crate::assets::answered(source, frag_path@, crate::assets::bytes_of(frag)));
    }
    decode_shader(vert, frag)
}

/// The text of a header that a shader names.
pub fn load_header<S: AssetSource>(source: &S, name: &str) -> (r: Option<String>)
    ensures
        exists|b: Option<Seq<u8>>|
            #[trigger] crate::assets::answered(source, "shaders/"@ + name@, b)
                && crate::fields::opt_text(r) == text_in(b),
{
    let file = crate::error::joined_message("shaders/", name);
    let path = file.as_str();
    let bytes = source.load(path);
    proof {
        assert(call_ensures(S::load, (source, path), bytes));
        assert(crate::assets::answered(source, path@, crate::assets::bytes_of(bytes)));
    }
    decode_text(bytes)
}

/// Whether the passes of an image are planned: of one that others sample
/// always, of another if it is visible as an image and as an object.
pub open spec fn plans(o: Object, image: ImageObjectView, donor: bool) -> bool {
    donor || (image.visible.value && o.base.visible.value)
}

/// The draw plan of an image. One that others sample is planned though it is
/// hidden.
pub fn object_plan(object: &Object, image: &ImageObject, donor: bool) -> (r: ImagePlan)
    requires
        image.wf(),
    ensures
        crate::plan::plan_wf(r.passes@),
        crate::plan::plan_views(r.passes@) == crate::plan::planned(
            image@,
            plans(*object, image@, donor),
        ),
        crate::material::fbo_views(r.named_fbos@) == if crate::plan::plan_views(r.passes@).len()
            == 0 {
            Seq::empty()
        } else {
            crate::plan::all_fbos(image@.effects)
        },
{
    let visible = donor || (image.visible.value && object.base.visible.value);
    plan_image(image, visible)
}

/// Whether an image covers the screen whatever the camera.
pub open spec fn covers_screen(image: ImageObjectView) -> bool {
    match image.model {
        Some(m) => m.fullscreen,
        None => false,
    }
}

/// The file of the deformable mesh of an image, if it has one. An image that
/// covers the screen has none.
pub open spec fn mesh_file(image: ImageObjectView) -> Option<Seq<char>> {
    match image.model {
        Some(m) => if m.fullscreen {
            None
        } else {
            m.puppet
        },
        None => None,
    }
}

/// The file of the deformable mesh of an image.
pub fn puppet_file(image: &ImageObject) -> (r: Option<String>)
    ensures
        crate::fields::opt_text(r) == mesh_file(image@),
{
    match &image.model {
        Some(m) => if m.fullscreen {
            None
        } else {
            copy_text(&m.puppet)
        },
        None => None,
    }
}

/// Of the first `n` planned passes, those that were built. A deformable mesh
/// takes the place of the geometry of the first.
pub open spec fn survivors_of(
    plan: Seq<PlanPassView>,
    built: Seq<bool>,
    mesh: bool,
    n: nat,
) -> Seq<SurvivorView>
    decreases n,
{
    if n == 0 {
        Seq::empty()
    } else {
        let before = survivors_of(plan, built, mesh, (n - 1) as nat);
        if built[n - 1] {
            before.push(
                SurvivorView {
                    textures: plan[n - 1].pass.textures,
                    blending: plan[n - 1].pass.blending,
                    target: plan[n - 1].target,
                    binds: plan[n - 1].binds,
                    puppet: mesh && n == 1,
                },
            )
        } else {
            before
        }
    }
}

/// A copy of slot bindings.
fn copy_binds(v: &Vec<(u32, String)>) -> (out: Vec<(u32, String)>)
    ensures
        crate::plan::slot_binds(out@) == crate::plan::slot_binds(v@),
{
    let mut out: Vec<(u32, String)> = Vec::new();
    let mut i: usize = 0;
    while i < v.len()
        invariant
            i <= v@.len(),
            out@.len() == i,
            forall|k: int| 0 <= k < i ==> (#[trigger] out@[k]).0 == v@[k].0 && out@[k].1@ == v@[k].1@,
        decreases v@.len() - i,
    {
        out.push((v[i].0, v[i].1.clone()));
        i = i + 1;
    }
    assert(crate::plan::slot_binds(out@) =~= crate::plan::slot_binds(v@));
    out
}

/// Every slot number of the bindings leaves room for a list that holds it.
pub open spec fn binds_fit(plan: Seq<PlanPassView>) -> bool {
    forall|i: int, k: int|
        0 <= i < plan.len() && 0 <= k < plan[i].binds.len() ==> (#[trigger] plan[i].binds[k]).0
            < usize::MAX
}

/// Of planned passes, those that were built.
pub fn survivors(plan: &ImagePlan, built: &Vec<bool>, mesh: bool) -> (out: Vec<Survivor>)
    requires
        built@.len() == plan.passes@.len(),
        crate::plan::plan_wf(plan.passes@),
    ensures
        crate::compose::survivor_views(out@) == survivors_of(
            crate::plan::plan_views(plan.passes@),
            built@,
            mesh,
            built@.len(),
        ),
        binds_fit(crate::plan::plan_views(plan.passes@)) ==> forall|i: int, k: int|
            0 <= i < out@.len() && 0 <= k < out@[i].binds@.len() ==> (
            #[trigger] out@[i].binds@[k]).0 < usize::MAX,
{
    let ghost views = crate::plan::plan_views(plan.passes@);
    let mut out: Vec<Survivor> = Vec::new();
    let mut i: usize = 0;
    assert(crate::compose::survivor_views(out@) =~= survivors_of(views, built@, mesh, 0));
    while i < plan.passes.len()
        invariant
            i <= plan.passes@.len(),
            built@.len() == plan.passes@.len(),
            crate::plan::plan_wf(plan.passes@),
            views == crate::plan::plan_views(plan.passes@),
            crate::compose::survivor_views(out@) == survivors_of(views, built@, mesh, i as nat),
            binds_fit(views) ==> forall|j: int, k: int|
                0 <= j < out@.len() && 0 <= k < out@[j].binds@.len() ==> (
                #[trigger] out@[j].binds@[k]).0 < usize::MAX,
        decreases plan.passes@.len() - i,
    {
        let p = &plan.passes[i];
        assert(views[i as int] == p@);
        if built[i] {
            let ghost was = out@;
            let s = Survivor {
                textures: copy_slots(&p.pass.textures),
                blending: p.blending,
                target: copy_text(&p.target),
                binds: copy_binds(&p.binds),
                is_puppet_base: mesh && i == 0,
            };
            assert(plan.passes@[i as int].wf());
            assert(s@.textures == views[i as int].pass.textures);
            proof {
                if binds_fit(views) {
                    assert forall|k: int| 0 <= k < s.binds@.len() implies (#[trigger] s.binds@[k]).0
                        < usize::MAX by {
                        assert(crate::plan::slot_binds(s.binds@)[k] == views[i as int].binds[k]);
                    }
                }
            }
            out.push(s);
            assert(crate::compose::survivor_views(out@) =~= crate::compose::survivor_views(
                was,
            ).push(s@));
        }
        i = i + 1;
    }
    out
}

/// The names of scratch buffers.
pub open spec fn fbo_names(v: Seq<crate::material::FboView>) -> Seq<Seq<char>> {
    Seq::new(v.len(), |i: int| v[i].name)
}

/// The names of the scratch buffers of a plan.
fn declared_names(plan: &ImagePlan) -> (out: Vec<String>)
    ensures
        crate::text::texts(out@) == fbo_names(crate::material::fbo_views(plan.named_fbos@)),
{
    let mut out: Vec<String> = Vec::new();
    let mut i: usize = 0;
    while i < plan.named_fbos.len()
        invariant
            i <= plan.named_fbos@.len(),
            out@.len() == i,
            forall|k: int| 0 <= k < i ==> (#[trigger] out@[k])@ == plan.named_fbos@[k].name@,
        decreases plan.named_fbos@.len() - i,
    {
        out.push(plan.named_fbos[i].name.clone());
        i = i + 1;
    }
    assert(crate::text::texts(out@) =~= fbo_names(crate::material::fbo_views(plan.named_fbos@)));
    out
}

/// All that the wiring of an image depends on, from its plan and what was
/// built of it.
pub open spec fn chain_of(
    image: ImageObjectView,
    plan: Seq<PlanPassView>,
    fbos: Seq<crate::material::FboView>,
    built: Seq<bool>,
    mesh: bool,
    donor: bool,
) -> ChainView {
    ChainView {
        passes: survivors_of(plan, built, mesh, built.len()),
        declared: fbo_names(fbos),
        donor,
        fullscreen: covers_screen(image),
        layer_reads_scene: crate::compose::layer_name(image) matches Some(n)
            && crate::compose::names_scene(n),
    }
}

/// Wire what was built of an image: the passes that failed drop out, and the
/// others are wired as if they alone had been planned. Nothing where none was
/// built.
pub fn wire_object(
    image: &ImageObject,
    plan: &ImagePlan,
    built: &Vec<bool>,
    mesh: bool,
    donor: bool,
) -> (r: Option<WiredChain>)
    requires
        built@.len() == plan.passes@.len(),
        crate::plan::plan_wf(plan.passes@),
        binds_fit(crate::plan::plan_views(plan.passes@)),
    ensures
        ({
            let c = chain_of(
                image@,
                crate::plan::plan_views(plan.passes@),
                crate::material::fbo_views(plan.named_fbos@),
                built@,
                mesh,
                donor,
            );
            match r {
                None => c.passes.len() == 0,
                Some(w) => {
                    &&& c.passes.len() > 0
                    &&& crate::compose::wired_views(w.passes@) == Seq::new(
                        c.passes.len(),
                        |i: int| crate::compose::wired_pass(c, i),
                    )
                    &&& w.buffers == (c.passes.len() > 1 || donor)
                    &&& w.final_front == match crate::compose::front_before(c, c.passes.len()) {
                        Some(k) => Some(k as usize),
                        None => None,
                    }
                    &&& w.reads_scene == crate::compose::chain_reads_scene(c)
                },
            }
        }),
{
    let passes = survivors(plan, built, mesh);
    assert(crate::compose::survivor_views(passes@).len() == passes@.len());
    let declared = declared_names(plan);
    let fullscreen = match &image.model {
        Some(m) => m.fullscreen,
        None => false,
    };
    let reads = match base_layer_name(image) {
        Some(n) => is_scene_rt(n.as_str()),
        None => false,
    };
    wire_chain(passes, &declared, donor, fullscreen, reads)
}

/// An image as it goes live.
pub fn live_image(
    object: &Object,
    image: &ImageObject,
    passes: Vec<LivePass>,
    reads_scene: bool,
    donor: bool,
) -> (r: LiveImage)
    requires
        crate::live::live_passes_wf(passes@),
    ensures
        r.wf(),
        r@ == (LiveImageView {
            id: object.base.id,
            parent: object.base.parent,
            passes: crate::live::live_pass_views(passes@),
            alpha: image@.alpha.value,
            brightness: image@.brightness.value,
            color: image@.color.value,
            visible: true,
            reads_scene,
            donor,
        }),
{
    LiveImage {
        id: object.base.id,
        parent: object.base.parent,
        passes,
        alpha: image.alpha.value.copy(),
        brightness: image.brightness.value.copy(),
        color: copy_color(&image.color.value),
        visible: true,
        reads_scene,
        offscreen_donor: donor,
    }
}

/// The first pass of the material in a file, if it is there.
pub open spec fn mesh_pass_in(bytes: Option<Seq<u8>>) -> Option<PassView> {
    match crate::assets::asset_value(bytes) {
        Some(v) => {
            let passes = crate::material::passes_of(crate::json::field(v, "passes"@));
            if passes.len() > 0 {
                Some(passes[0])
            } else {
                None
            }
        },
        None => None,
    }
}

/// What an optional pass holds.
pub open spec fn opt_pass(p: Option<Pass>) -> Option<PassView> {
    match p {
        Some(p) => Some(p@),
        None => None,
    }
}

/// The pass that a mesh is drawn with: the first of its material. Nothing
/// where the material is missing, is no JSON or has no pass.
pub fn decode_mesh_pass(bytes: Option<Vec<u8>>) -> (r: Option<Pass>)
    ensures
        opt_pass(r) == mesh_pass_in(crate::assets::bytes_of(bytes)),
        r matches Some(p) ==> p.wf(),
{
    match bytes {
        None => None,
        Some(bytes) => match Json::from_slice(bytes.as_slice()) {
            Err(_) => None,
            Ok(v) => {
                let material = Material::from_value(&v);
                assert(material@.len() == material.passes@.len());
                if material.passes.len() > 0 {
                    assert(material@[0] == material.passes@[0]@);
                    assert(material.passes@[0].wf());
                    Some(material.passes[0].copy())
                } else {
                    None
                }
            },
        },
    }
}

/// The pass that a mesh is drawn with.
pub fn load_mesh_pass<S: AssetSource>(source: &S, material: &str) -> (r: Option<Pass>)
    ensures
        r matches Some(p) ==> p.wf(),
        exists|b: Option<Seq<u8>>|
            #[trigger] crate::assets::answered(source, material@, b) && opt_pass(r)
                == mesh_pass_in(b),
{
    let bytes = source.load(material);
    proof {
        assert(call_ensures(S::load, (source, material), bytes));
        assert(crate::assets::answered(source, material@, crate::assets::bytes_of(bytes)));
    }
    decode_mesh_pass(bytes)
}

/// A model as it goes live, from what became of its meshes: for each that was
/// built, whether it samples the scene. Nothing where none was built.
pub fn live_model(object: &Object, meshes: &Vec<Option<bool>>) -> (r: Option<SceneItem>)
    ensures
        r == if exists|i: int| 0 <= i < meshes@.len() && (#[trigger] meshes@[i]) is Some {
            Some(
                SceneItem::Model {
                    visible: object.base.visible.value,
                    reads_scene: meshes@.contains(Some(true)),
                },
            )
        } else {
            None
        },
{
    let mut any = false;
    let mut reads = false;
    let mut i: usize = 0;
    while i < meshes.len()
        invariant
            i <= meshes@.len(),
            any == exists|k: int| 0 <= k < i && (#[trigger] meshes@[k]) is Some,
            reads == exists|k: int| 0 <= k < i && #[trigger] meshes@[k] == Some(true),
        decreases meshes@.len() - i,
    {
        match meshes[i] {
            Some(samples) => {
                assert(meshes@[i as int] is Some);
                any = true;
                if samples {
                    assert(meshes@[i as int] == Some(true));
                    reads = true;
                }
            },
            None => {},
        }
        i = i + 1;
    }
    assert(reads == meshes@.contains(Some(true)));
    if any {
        Some(SceneItem::Model { visible: object.base.visible.value, reads_scene: reads })
    } else {
        None
    }
}

/// Where a pass draws.
#[derive(Debug)]
pub enum DrawTarget {
    /// The scene, over what is there.
    Scene,
    /// An image buffer, which is cleared first.
    Buffer(usize),
    /// A scratch buffer, which is cleared first.
    Scratch(String),
    /// The scene, which is cleared first: the buffer is missing.
    ClearedScene,
}

/// What a [`DrawTarget`] holds.
pub enum TargetView {
    /// The scene.
    Scene,
    /// An image buffer.
    Buffer(int),
    /// A scratch buffer.
    Scratch(Seq<char>),
    /// The scene, cleared.
    ClearedScene,
}

impl View for DrawTarget {
    type V = TargetView;

    open spec fn view(&self) -> TargetView {
        match self {
            DrawTarget::Scene => TargetView::Scene,
            DrawTarget::Buffer(i) => TargetView::Buffer(*i as int),
            DrawTarget::Scratch(n) => TargetView::Scratch(n@),
            DrawTarget::ClearedScene => TargetView::ClearedScene,
        }
    }
}

/// Where a pass draws, given the buffers that there are.
pub open spec fn target_of(output: OutputView, buffers: bool, scratch: Seq<Seq<char>>) -> TargetView {
    match output {
        OutputView::Scene => TargetView::Scene,
        OutputView::Fbo(i) => if buffers && i < 2 {
            TargetView::Buffer(i)
        } else {
            TargetView::ClearedScene
        },
        OutputView::Named(n) => if scratch.contains(n) {
            TargetView::Scratch(n)
        } else {
            TargetView::ClearedScene
        },
    }
}

/// Where a pass draws, given the buffers that there are.
pub fn draw_target(output: &PassOutput, buffers: bool, scratch: &Vec<String>) -> (r: DrawTarget)
    ensures
        r@ == target_of(output@, buffers, crate::text::texts(scratch@)),
{
    match output {
        PassOutput::Scene => DrawTarget::Scene,
        PassOutput::Fbo(i) => if buffers && *i < 2 {
            DrawTarget::Buffer(*i)
        } else {
            DrawTarget::ClearedScene
        },
        PassOutput::Named(n) => if listed(scratch, n.as_str()) {
            DrawTarget::Scratch(n.clone())
        } else {
            DrawTarget::ClearedScene
        },
    }
}

/// Whether a list holds a name.
fn listed(v: &Vec<String>, name: &str) -> (r: bool)
    ensures
        r == crate::text::texts(v@).contains(name@),
{
    let ghost all = crate::text::texts(v@);
    let mut i: usize = 0;
    while i < v.len()
        invariant
            i <= v@.len(),
            all == crate::text::texts(v@),
            forall|k: int| 0 <= k < i ==> #[trigger] all[k] != name@,
        decreases v@.len() - i,
    {
        assert(all[i as int] == v@[i as int]@);
        if same(v[i].as_str(), name) {
            return true;
        }
        i = i + 1;
    }
    false
}

/// The transform that positions the vertices of a pass.
#[derive(Clone, Copy, Debug, PartialEq, Eq, Structural)]
pub enum Transform {
    /// Through the camera of the scene.
    Screen,
    /// From the pixels of the image into its buffer.
    Image,
    /// None: the vertices are in place.
    Identity,
}

/// The transform of a pass by its geometry.
pub fn forward_transform(g: Geometry) -> (r: Transform)
    ensures
        r == match g {
            Geometry::Scene => Transform::Screen,
            Geometry::Puppet => Transform::Screen,
            Geometry::PuppetCopy => Transform::Image,
            Geometry::Copy => Transform::Identity,
            Geometry::Pass => Transform::Identity,
        },
{
    match g {
        Geometry::Scene => Transform::Screen,
        Geometry::Puppet => Transform::Screen,
        Geometry::PuppetCopy => Transform::Image,
        Geometry::Copy => Transform::Identity,
        Geometry::Pass => Transform::Identity,
    }
}

/// The transform that shaders map the pointer back with.
#[derive(Clone, Copy, Debug, PartialEq, Eq, Structural)]
pub enum InverseTransform {
    /// The inverse of the camera after the placement of the image.
    ScreenAndImage,
    /// From the target to the pixels of the first texture.
    Pixels,
    /// The inverse of what positions the vertices.
    OfForward,
}

/// The transform that shaders map the pointer back with, by geometry.
pub fn inverse_transform(g: Geometry) -> (r: InverseTransform)
    ensures
        r == match g {
            Geometry::Scene => InverseTransform::ScreenAndImage,
            Geometry::Puppet => InverseTransform::ScreenAndImage,
            Geometry::PuppetCopy => InverseTransform::OfForward,
            Geometry::Copy => InverseTransform::Pixels,
            Geometry::Pass => InverseTransform::Pixels,
        },
{
    match g {
        Geometry::Scene => InverseTransform::ScreenAndImage,
        Geometry::Puppet => InverseTransform::ScreenAndImage,
        Geometry::PuppetCopy => InverseTransform::OfForward,
        Geometry::Copy => InverseTransform::Pixels,
        Geometry::Pass => InverseTransform::Pixels,
    }
}

/// The indices of a mesh as they are uploaded: an odd one out gets a companion,
/// which is never drawn.
pub fn padded_indices(indices: &Vec<u16>) -> (r: Vec<u16>)
    ensures
        r@ == if indices@.len() % 2 == 0 {
            indices@
        } else {
            indices@.push(0)
        },
{
    let mut out: Vec<u16> = Vec::new();
    let mut i: usize = 0;
    while i < indices.len()
        invariant
            i <= indices@.len(),
            out@ == indices@.take(i as int),
        decreases indices@.len() - i,
    {
        out.push(indices[i]);
        assert(indices@.take(i + 1) =~= indices@.take(i as int).push(indices@[i as int]));
        i = i + 1;
    }
    assert(indices@.take(i as int) =~= indices@);
    if indices.len() % 2 != 0 {
        out.push(0);
    }
    out
}

/// Whether the page of a frame has to be uploaded: it is another than the one
/// that is there, it is kept, and it has the size of the texture.
pub fn streams_page(frame_page: usize, uploaded: usize, pages: &Vec<(u32, u32)>, size: (u32, u32)) -> (r:
    bool)
    ensures
        r == (frame_page != uploaded && frame_page < pages@.len() && pages@[frame_page as int]
            == size),
{
    if frame_page == uploaded || frame_page >= pages.len() {
        return false;
    }
    let page = pages[frame_page];
    page.0 == size.0 && page.1 == size.1
}

/// The smallest vertex buffer for layers that scripts create, in bytes.
pub const RUNTIME_CAPACITY: usize = 4096;

/// The capacity of a new vertex buffer where the one that is there is too
/// small; nothing where it is not.
pub fn grown_capacity(current: Option<usize>, needed: usize) -> (r: Option<usize>)
    ensures
        r == if current matches Some(c) && c >= needed {
            None
        } else {
            Some(
                if needed > RUNTIME_CAPACITY {
                    needed
                } else {
                    RUNTIME_CAPACITY
                },
            )
        },
{
    if let Some(c) = current {
        if c >= needed {
            return None;
        }
    }
    if needed > RUNTIME_CAPACITY {
        Some(needed)
    } else {
        Some(RUNTIME_CAPACITY)
    }
}

/// Passes that failed drop out without a trace: what is wired is what would be
/// wired, had only the others been planned.
pub proof fn law_failed_passes_leave_no_trace(
    plan: Seq<PlanPassView>,
    built: Seq<bool>,
    mesh: bool,
    i: int,
)
    requires
        built.len() == plan.len(),
        0 <= i < plan.len(),
        !built[i],
        i > 0 || !mesh,
    ensures
        survivors_of(plan, built, mesh, built.len()) == survivors_of(
            plan.remove(i),
            built.remove(i),
            mesh,
            (built.len() - 1) as nat,
        ),
{
    lemma_drop(plan, built, mesh, i, built.len());
}

/// Up to and past a pass that failed.
proof fn lemma_drop(plan: Seq<PlanPassView>, built: Seq<bool>, mesh: bool, i: int, n: nat)
    requires
        built.len() == plan.len(),
        0 <= i < n <= plan.len(),
        !built[i],
        i > 0 || !mesh,
    ensures
        survivors_of(plan, built, mesh, n) == survivors_of(
            plan.remove(i),
            built.remove(i),
            mesh,
            (n - 1) as nat,
        ),
    decreases n,
{
    if n == i + 1 {
        lemma_same_start(plan, built, mesh, i, (n - 1) as nat);
    } else {
        lemma_drop(plan, built, mesh, i, (n - 1) as nat);
        assert(built.remove(i)[n - 2] == built[n - 1]);
        assert(plan.remove(i)[n - 2] == plan[n - 1]);
    }
}

/// Up to a pass that failed.
proof fn lemma_same_start(plan: Seq<PlanPassView>, built: Seq<bool>, mesh: bool, i: int, n: nat)
    requires
        built.len() == plan.len(),
        0 <= n <= i < plan.len(),
    ensures
        survivors_of(plan, built, mesh, n) == survivors_of(
            plan.remove(i),
            built.remove(i),
            mesh,
            n,
        ),
    decreases n,
{
    if n > 0 {
        lemma_same_start(plan, built, mesh, i, (n - 1) as nat);
        assert(built.remove(i)[n - 1] == built[n - 1]);
        assert(plan.remove(i)[n - 1] == plan[n - 1]);
    }
}

/// How many of the first `n` passes were built.
pub open spec fn built_before(built: Seq<bool>, n: nat) -> nat
    decreases n,
{
    if n == 0 {
        0
    } else {
        built_before(built, (n - 1) as nat) + if built[n - 1] {
            1nat
        } else {
            0nat
        }
    }
}

/// What stands at the place of a pass that was built, among the first `n`.
proof fn lemma_built_place(plan: Seq<PlanPassView>, built: Seq<bool>, mesh: bool, i: int, n: nat)
    requires
        0 <= i < n <= built.len(),
        built.len() == plan.len(),
        built[i],
    ensures
        built_before(built, i as nat) < survivors_of(plan, built, mesh, n).len(),
        survivors_of(plan, built, mesh, n)[built_before(built, i as nat) as int] == (SurvivorView {
            textures: plan[i].pass.textures,
            blending: plan[i].pass.blending,
            target: plan[i].target,
            binds: plan[i].binds,
            puppet: mesh && i == 0,
        }),
    decreases n,
{
    lemma_built_count(plan, built, mesh, (n - 1) as nat);
    if i < n - 1 {
        lemma_built_place(plan, built, mesh, i, (n - 1) as nat);
    }
}

/// As many passes go on as were built.
proof fn lemma_built_count(plan: Seq<PlanPassView>, built: Seq<bool>, mesh: bool, n: nat)
    requires
        n <= built.len(),
        built.len() == plan.len(),
    ensures
        survivors_of(plan, built, mesh, n).len() == built_before(built, n),
    decreases n,
{
    if n > 0 {
        lemma_built_count(plan, built, mesh, (n - 1) as nat);
    }
}

/// Every planned pass that was built goes on, with the textures, the blending,
/// the target and the bindings of its plan, at the place that the number of
/// built passes ahead of it gives. Only the first planned pass can take the
/// geometry of a mesh. Nothing else goes on.
pub proof fn law_built_passes_go_on(plan: Seq<PlanPassView>, built: Seq<bool>, mesh: bool, i: int)
    requires
        built.len() == plan.len(),
        0 <= i < plan.len(),
    ensures
        ({
            let all = survivors_of(plan, built, mesh, built.len());
            let place = built_before(built, i as nat) as int;
            &&& all.len() == built_before(built, built.len())
            &&& built[i] ==> 0 <= place < all.len()
            &&& built[i] ==> all[place].textures == plan[i].pass.textures
            &&& built[i] ==> all[place].blending == plan[i].pass.blending
            &&& built[i] ==> all[place].target == plan[i].target
            &&& built[i] ==> all[place].binds == plan[i].binds
            &&& built[i] ==> all[place].puppet == (mesh && i == 0)
        }),
{
    lemma_built_count(plan, built, mesh, built.len());
    if built[i] {
        lemma_built_place(plan, built, mesh, i, built.len());
    }
}

/// What the wiring of an image depends on: the buffers of its plan by name and
/// in order, whether others sample it, whether its model covers the screen, and
/// whether the first slot of the first pass of its material names the scene.
pub proof fn law_chain_of_image(
    image: ImageObjectView,
    plan: Seq<PlanPassView>,
    fbos: Seq<crate::material::FboView>,
    built: Seq<bool>,
    mesh: bool,
    donor: bool,
)
    ensures
        ({
            let c = chain_of(image, plan, fbos, built, mesh, donor);
            &&& c.passes == survivors_of(plan, built, mesh, built.len())
            &&& c.declared.len() == fbos.len()
            &&& forall|i: int| 0 <= i < fbos.len() ==> #[trigger] c.declared[i] == fbos[i].name
            &&& c.donor == donor
            &&& c.fullscreen == (image.model is Some && image.model->0.fullscreen)
            &&& c.layer_reads_scene == (image.material is Some && image.material->0.len() > 0
                && image.material->0[0].textures.len() > 0 && (image.material->0[0].textures[0]
                == Some("_rt_FullFrameBuffer"@) || image.material->0[0].textures[0] == Some(
                "_rt_MipMappedFrameBuffer"@,
            )))
        }),
{
}

/// An image that nothing samples and that is hidden, as an image or as an
/// object, has no passes and no buffers; a hidden one that others sample is
/// planned as if it were visible.
pub proof fn law_hidden_image_draws_nothing(
    object: &Object,
    image: &ImageObject,
    donor: bool,
    r: ImagePlan,
)
    requires
        image.wf(),
        call_ensures(object_plan, (object, image, donor), r),
    ensures
        !donor && !image.visible.value ==> r.passes@.len() == 0 && r.named_fbos@.len() == 0,
        !donor && !object.base.visible.value ==> r.passes@.len() == 0 && r.named_fbos@.len() == 0,
        donor ==> crate::plan::plan_views(r.passes@) == crate::plan::planned(image@, true),
        image.visible.value && object.base.visible.value ==> crate::plan::plan_views(r.passes@)
            == crate::plan::planned(image@, true),
{
    assert(crate::plan::plan_views(r.passes@).len() == r.passes@.len());
    assert(crate::material::fbo_views(r.named_fbos@).len() == r.named_fbos@.len());
}

/// The mesh of an image is that of its model, unless the model covers the
/// screen.
pub proof fn law_mesh_of_image(image: ImageObjectView)
    ensures
        image.model is None ==> mesh_file(image) is None,
        image.model matches Some(m) ==> m.fullscreen ==> mesh_file(image) is None,
        image.model matches Some(m) ==> !m.fullscreen ==> mesh_file(image) == m.puppet,
{
}

/// A mesh is drawn with the first pass of its material, and with nothing where
/// the material is no JSON or has no passes.
pub proof fn law_mesh_takes_first_pass(bytes: Option<Seq<u8>>)
    ensures
        bytes is None ==> mesh_pass_in(bytes) is None,
        crate::assets::asset_value(bytes) is None ==> mesh_pass_in(bytes) is None,
        crate::assets::asset_value(bytes) matches Some(v) ==> {
            let passes = crate::material::passes_of(crate::json::field(v, "passes"@));
            &&& passes.len() == 0 ==> mesh_pass_in(bytes) is None
            &&& passes.len() > 0 ==> mesh_pass_in(bytes) == Some(passes[0])
        },
{
}

/// A pass for the scene draws there over what is there. One for an image buffer
/// or a scratch buffer draws to that buffer, and clears the scene in its place
/// only where there is no such buffer.
pub proof fn law_target_of_pass(i: int, n: Seq<char>, buffers: bool, scratch: Seq<Seq<char>>)
    ensures
        target_of(OutputView::Scene, buffers, scratch) is Scene,
        buffers && 0 <= i < 2 ==> target_of(OutputView::Fbo(i), buffers, scratch)
            == TargetView::Buffer(i),
        !buffers || i >= 2 ==> target_of(OutputView::Fbo(i), buffers, scratch) is ClearedScene,
        scratch.contains(n) ==> target_of(OutputView::Named(n), buffers, scratch)
            == TargetView::Scratch(n),
        !scratch.contains(n) ==> target_of(
            OutputView::Named(n),
            buffers,
            scratch,
        ) is ClearedScene,
{
}

/// The stages of a shader are there only together, the vertex stage first.
pub proof fn law_stages_come_together(vert: Option<Vec<u8>>, frag: Option<Vec<u8>>, r: Option<(String, String)>)
    requires
        call_ensures(decode_shader, (vert, frag), r),
    ensures
        r is Some == (text_in(crate::assets::bytes_of(vert)) is Some && text_in(
            crate::assets::bytes_of(frag),
        ) is Some),
        r matches Some(p) ==> text_in(crate::assets::bytes_of(vert)) == Some(p.0@),
        r matches Some(p) ==> text_in(crate::assets::bytes_of(frag)) == Some(p.1@),
{
}

/// The indices of a mesh are uploaded in order and even in number, at most one
/// after them.
pub proof fn law_indices_are_even(indices: &Vec<u16>, r: Vec<u16>)
    requires
        call_ensures(padded_indices, (indices,), r),
    ensures
        r@.len() % 2 == 0,
        indices@.len() <= r@.len() <= indices@.len() + 1,
        r@.take(indices@.len() as int) == indices@,
{
    assert(r@.take(indices@.len() as int) =~= indices@);
}

/// A buffer is made anew where it is too small and only there; the new one has
/// room, and is never smaller than the least capacity.
pub proof fn law_capacity_suffices(current: Option<usize>, needed: usize, r: Option<usize>)
    requires
        call_ensures(grown_capacity, (current, needed), r),
    ensures
        r is None == (current is Some && current->0 >= needed),
        r matches Some(n) ==> n >= needed && n >= 4096 && (n == needed || n == 4096),
{
}

/// An image goes live with the values of the image and the place of the object.
pub proof fn law_live_image_shows_object(
    object: &Object,
    image: &ImageObject,
    passes: Vec<LivePass>,
    reads_scene: bool,
    donor: bool,
    r: LiveImage,
)
    requires
        crate::live::live_passes_wf(passes@),
        call_ensures(live_image, (object, image, passes, reads_scene, donor), r),
    ensures
        r@.id == object.base.id,
        r@.parent == object.base.parent,
        r@.passes == crate::live::live_pass_views(passes@),
        r@.alpha == image@.alpha.value,
        r@.brightness == image@.brightness.value,
        r@.color == image@.color.value,
        r@.visible,
        r@.reads_scene == reads_scene,
        r@.donor == donor,
{
}

/// A model goes live where one of its meshes was built, as visible as its
/// object, and reads the scene where one of these does.
pub proof fn law_live_model_shows_object(
    object: &Object,
    meshes: &Vec<Option<bool>>,
    r: Option<SceneItem>,
)
    requires
        call_ensures(live_model, (object, meshes), r),
    ensures
        (forall|i: int| 0 <= i < meshes@.len() ==> (#[trigger] meshes@[i]) is None) ==> r is None,
        forall|i: int|
            0 <= i < meshes@.len() && (#[trigger] meshes@[i]) is Some ==> r is Some && (r->0
                == SceneItem::Model {
                visible: object.base.visible.value,
                reads_scene: meshes@.contains(Some(true)),
            }),
{
}

/// A page is uploaded where another is there and it fits, and only then.
pub proof fn law_page_streams(
    frame_page: usize,
    uploaded: usize,
    pages: &Vec<(u32, u32)>,
    size: (u32, u32),
    r: bool,
)
    requires
        call_ensures(streams_page, (frame_page, uploaded, pages, size), r),
    ensures
        r ==> frame_page != uploaded && frame_page < pages@.len(),
        r ==> pages@[frame_page as int] == size,
        frame_page != uploaded && frame_page < pages@.len() && pages@[frame_page as int] == size
            ==> r,
{
}

/// Vertices that are drawn into the scene go through its camera, those of a mesh
/// in a buffer from its pixels, and all others are in place. The pointer is
/// mapped back by the camera where vertices go through it, by the inverse where
/// they go from pixels, and else to the pixels of the first texture.
pub proof fn law_transforms_of_geometry(g: Geometry, forward: Transform, back: InverseTransform)
    requires
        call_ensures(forward_transform, (g,), forward),
        call_ensures(inverse_transform, (g,), back),
    ensures
        forward == Transform::Screen <==> g == Geometry::Scene || g == Geometry::Puppet,
        forward == Transform::Image <==> g == Geometry::PuppetCopy,
        forward == Transform::Identity <==> g == Geometry::Copy || g == Geometry::Pass,
        back == InverseTransform::ScreenAndImage <==> forward == Transform::Screen,
        back == InverseTransform::OfForward <==> forward == Transform::Image,
        back == InverseTransform::Pixels <==> forward == Transform::Identity,
{
}

/// The copy shader is built in, and asks the source for nothing; any other is
/// read from its two files.
pub proof fn law_shader_is_read<S: AssetSource>(
    source: &S,
    files: Map<Seq<char>, Seq<u8>>,
    shader: &str,
    r: Option<(String, String)>,
)
    requires
        crate::assets::serves(source, files),
        call_ensures(load_shader, (source, shader), r),
    ensures
        shader@ == COPY_COMMAND_SHADER@ ==> r is Some && (r->0).0@ == COPY_COMMAND_VERT@ && (r->0).1@
            == COPY_COMMAND_FRAG@,
        ({
            let v = "shaders/"@ + shader@ + ".vert"@;
            let f = "shaders/"@ + shader@ + ".frag"@;
            shader@ != COPY_COMMAND_SHADER@ ==> {
                &&& !files.dom().contains(v) || !files.dom().contains(f) ==> r is None
                &&& files.dom().contains(v) && files.dom().contains(f) ==> r is Some == (text_in(
                    Some(files[v]),
                ) is Some && text_in(Some(files[f])) is Some)
                &&& r is Some ==> text_in(Some(files[v])) == Some((r->0).0@) && text_in(
                    Some(files[f]),
                ) == Some((r->0).1@)
            }
        }),
{
}

/// What is wired of an image is the chain of its built passes, in two buffers
/// where there is more than one or another image samples it.
pub proof fn law_wired_image(
    image: &ImageObject,
    plan: &ImagePlan,
    built: &Vec<bool>,
    mesh: bool,
    donor: bool,
    r: Option<WiredChain>,
)
    requires
        built@.len() == plan.passes@.len(),
        crate::plan::plan_wf(plan.passes@),
        binds_fit(crate::plan::plan_views(plan.passes@)),
        call_ensures(wire_object, (image, plan, built, mesh, donor), r),
    ensures
        r is None == (built_before(built@, built@.len()) == 0),
        r matches Some(w) ==> crate::compose::wired_views(w.passes@).len() == built_before(
            built@,
            built@.len(),
        ),
        r matches Some(w) ==> w.buffers == (built_before(built@, built@.len()) > 1 || donor),
{
    lemma_built_count(
        crate::plan::plan_views(plan.passes@),
        built@,
        mesh,
        built@.len(),
    );
}

} // verus!
