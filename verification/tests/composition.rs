//! Wired passes, live images and the frames of a running scene.
use std::collections::HashMap;

use kirie_scene::assets::AssetSource;
use kirie_scene::building::{
    decode_mesh_pass, decode_shader, decode_text, draw_target, forward_transform, grown_capacity,
    inverse_transform, live_image, live_model, load_header, load_mesh_pass, load_shader, object_plan,
    padded_indices, puppet_file, shader_files, streams_page, wire_object, DrawTarget,
    InverseTransform, Transform, COPY_COMMAND_FRAG, COPY_COMMAND_VERT,
};
use kirie_scene::compose::{
    base_layer_name, build_bind_group, build_tex_resolution, is_scene_rt, is_target_name, layer_source,
    mesh_reads_scene, named_buffer, slot_source, wire_chain, BoundResource, ChainInput, LayerSource,
    NamedBuffer, Resolution, SamplerSlot, SlotSource, Survivor,
};
use kirie_scene::error::SceneError;
use kirie_scene::json::Json;
use kirie_scene::live::{
    ancestors_visible, apply_runtime_updates, transform_chain, LivePass, RuntimeLayer,
};
use kirie_scene::material::{Blending, CullMode, DepthMode, Material, ModelFile, Pass};
use kirie_scene::number::Scalar;
use kirie_scene::object::{ImageObject, Object, ObjectKind};
use kirie_scene::params::{
    param_len, resolve_params, retain_constants, ParamDefault, ParamType, Parameter,
};
use kirie_scene::pipeline::{BindKind, ModuleBinding};
use kirie_scene::plan::{Geometry, PassOutput};
use kirie_scene::property::{Override, PropertyBag, PropertyValue, Reading};
use kirie_scene::renderer::{
    apply_script_updates, auto_projection, build_order, build_steps, clamp_code, composite_names,
    projection_size, BuildStep, ClampMode, DrawStep, ItemKind, ScalingMode, SceneItem, SceneOptions,
    SceneRenderer,
};
use kirie_scene::resolve::SceneModel;
use kirie_scene::scene::{Camera, General, Projection, Scene};
use kirie_scene::script_host::{SceneOp, ScriptHost, TickOutput};
use kirie_scene::scripting::{stage_scripts, PropTarget, PropUpdate, ScriptValue};
use kirie_scene::table::Table;
use kirie_scene::user::{parse_constant_values, UserSetting};

fn single(s: &Scalar) -> f32 {
    match s {
        Scalar::Single(bits) => f32::from_bits(*bits),
        Scalar::Double(bits) => f64::from_bits(*bits) as f32,
        Scalar::Text(t) => t.parse::<f32>().unwrap_or(0.0),
        Scalar::WideText(t) => t.parse::<f64>().unwrap_or(0.0) as f32,
        Scalar::Whole(i) => *i as f32,
        Scalar::WideWhole(i) => *i as f64 as f32,
        Scalar::Channel(i) => *i as f32 / 255.0,
    }
}

fn singles(v: &[Scalar]) -> Vec<f32> {
    v.iter().map(single).collect()
}

fn json(text: &str) -> Json {
    Json::from_slice(text.as_bytes()).unwrap()
}

fn pass(textures: &[Option<&str>]) -> Pass {
    Pass {
        blending: Blending::Normal,
        cullmode: CullMode::NoCull,
        depthtest: DepthMode::Disabled,
        depthwrite: DepthMode::Disabled,
        shader: "s".to_owned(),
        textures: textures.iter().map(|t| t.map(|n| n.to_owned())).collect(),
        usertextures: vec![],
        combos: Table::new(),
        constantshadervalues: Table::new(),
    }
}

fn object(text: &str) -> Object {
    Object::parse(&json(text)).unwrap()
}

/// An image whose base material has these passes.
fn image(passes: Vec<Pass>) -> ImageObject {
    match object(r#"{ "id": 1, "image": "m.json" }"#).kind {
        ObjectKind::Image(mut i) => {
            i.material = Some(Material { passes });
            *i
        }
        _ => panic!(),
    }
}

fn survivor(target: Option<&str>, binds: &[(u32, &str)]) -> Survivor {
    Survivor {
        textures: vec![],
        blending: Blending::Normal,
        target: target.map(|t| t.to_owned()),
        binds: binds.iter().map(|(i, n)| (*i, n.to_string())).collect(),
        is_puppet_base: false,
    }
}

#[test]
fn names_of_render_targets() {
    assert!(is_scene_rt("_rt_FullFrameBuffer") && is_scene_rt("_rt_MipMappedFrameBuffer"));
    assert!(!is_scene_rt("_rt_half"));
    assert!(is_target_name("_rt_half") && is_target_name("_alias_x") && !is_target_name("cave"));
    assert_eq!(
        composite_names(-3),
        (
            "_rt_imageLayerComposite_-3_a".to_owned(),
            "_rt_imageLayerComposite_-3_b".to_owned()
        )
    );
}

#[test]
fn layers_show_a_texture_the_scene_or_white() {
    assert_eq!(base_layer_name(&image(vec![pass(&[Some("cave")])])).as_deref(), Some("cave"));
    assert!(matches!(
        layer_source(&image(vec![pass(&[Some("cave")])])),
        LayerSource::Texture(n) if n == "cave"
    ));
    assert!(matches!(
        layer_source(&image(vec![pass(&[Some("_rt_FullFrameBuffer")])])),
        LayerSource::Scene
    ));
    assert!(matches!(layer_source(&image(vec![pass(&[Some("_rt_half")])])), LayerSource::White));
    assert!(matches!(layer_source(&image(vec![pass(&[])])), LayerSource::White));
}

#[test]
fn scratch_passes_leave_the_composite_alone() {
    let declared = vec!["_rt_half".to_owned()];
    let passes = vec![
        survivor(None, &[]),
        survivor(Some("_rt_half"), &[(0, "previous")]),
        survivor(None, &[(1, "_rt_half")]),
    ];
    let w = wire_chain(passes, &declared, false, false, false).unwrap();
    assert!(w.buffers && !w.reads_scene);
    assert!(matches!(w.passes[0].output, PassOutput::Fbo(0)));
    assert_eq!(w.passes[0].geometry, Geometry::Copy);
    assert_eq!(w.passes[0].input, ChainInput::Layer);
    assert!(w.passes[0].cropped);
    assert!(matches!(&w.passes[1].output, PassOutput::Named(n) if n == "_rt_half"));
    assert_eq!(w.passes[1].input, ChainInput::Front(0));
    assert_eq!(w.passes[1].textures, vec![Some("previous".to_owned())]);
    assert!(matches!(w.passes[2].output, PassOutput::Scene));
    assert_eq!(w.passes[2].geometry, Geometry::Scene);
    assert_eq!(w.passes[2].composite, ChainInput::Front(0));
    assert_eq!(w.passes[2].textures, vec![None, Some("_rt_half".to_owned())]);
    assert!(matches!(w.passes[2].resolutions[1], Resolution::Target));
    assert_eq!(w.final_front, Some(0));
}

#[test]
fn donors_never_draw_into_the_scene() {
    let w = wire_chain(vec![survivor(None, &[])], &vec![], true, false, true).unwrap();
    assert!(matches!(w.passes[0].output, PassOutput::Fbo(0)));
    assert_eq!(w.passes[0].input, ChainInput::Snapshot);
    assert!(w.buffers && w.reads_scene);
    assert_eq!(w.final_front, Some(0));
    assert!(wire_chain(vec![], &vec![], true, false, false).is_none());
}

#[test]
fn failed_passes_drop_out() {
    let img = image(vec![pass(&[Some("cave")]), pass(&[]), pass(&[])]);
    let o = object(r#"{ "id": 1, "image": "m.json" }"#);
    let plan = object_plan(&o, &img, false);
    assert_eq!(plan.passes.len(), 3);
    let w = wire_object(&img, &plan, &vec![true, false, true], false, false).unwrap();
    assert_eq!(w.passes.len(), 2);
    assert!(matches!(w.passes[1].output, PassOutput::Scene));
    assert_eq!(w.passes[1].input, ChainInput::Front(0));
    assert!(wire_object(&img, &plan, &vec![false, false, false], false, false).is_none());
    let mesh = wire_object(&img, &plan, &vec![true, false, false], true, false).unwrap();
    assert_eq!(mesh.passes[0].geometry, Geometry::Puppet);
    assert_eq!(mesh.passes[0].blending, Blending::Translucent);
}

#[test]
fn hidden_donors_are_planned() {
    let img = image(vec![pass(&[])]);
    let hidden = object(r#"{ "id": 1, "image": "m.json", "visible": false }"#);
    assert!(object_plan(&hidden, &img, false).passes.is_empty());
    assert_eq!(object_plan(&hidden, &img, true).passes.len(), 1);
}

fn sampler(slot: Option<u32>, default: Option<&str>, binding: u32) -> SamplerSlot {
    SamplerSlot {
        slot,
        default_texture: default.map(|d| d.to_owned()),
        texture_binding: binding,
        sampler_binding: binding + 1,
    }
}

#[test]
fn samplers_find_their_source() {
    let textures = vec![Some("cave".to_owned()), Some("previous".to_owned())];
    let named = vec!["previous".to_owned()];
    let source = |slot: Option<u32>, default: Option<&str>| slot_source(&sampler(slot, default, 1), &textures, &named);
    assert!(matches!(source(Some(0), None), SlotSource::Input));
    assert!(matches!(source(Some(1), None), SlotSource::Named(n) if n == "previous"));
    assert!(matches!(source(Some(2), Some("mask")), SlotSource::Texture(n) if n == "mask"));
    assert!(matches!(source(Some(2), Some("_rt_FullFrameBuffer")), SlotSource::Scene));
    assert!(matches!(source(Some(2), Some("_rt_other")), SlotSource::White));
    assert!(matches!(source(None, None), SlotSource::White));
}

#[test]
fn every_binding_gets_a_resource() {
    let bindings = vec![
        ModuleBinding {
            binding: 0,
            kind: BindKind::Ubo,
        },
        ModuleBinding {
            binding: 1,
            kind: BindKind::Texture,
        },
        ModuleBinding {
            binding: 2,
            kind: BindKind::Sampler,
        },
        ModuleBinding {
            binding: 9,
            kind: BindKind::Texture,
        },
    ];
    let bound = build_bind_group(&bindings, &vec![sampler(Some(0), None, 1)], &vec![], &vec![], true);
    assert_eq!(bound.iter().map(|b| b.0).collect::<Vec<u32>>(), [0, 1, 2, 9]);
    assert!(matches!(bound[0].1, BoundResource::Globals));
    assert!(matches!(bound[1].1, BoundResource::Texture(SlotSource::Input)));
    assert!(matches!(bound[2].1, BoundResource::Sampler(SlotSource::Input)));
    assert!(matches!(bound[3].1, BoundResource::Texture(SlotSource::White)));
    let without = build_bind_group(&bindings, &vec![], &vec![], &vec![], false);
    assert_eq!(without.len(), 3);
}

#[test]
fn meshes_know_their_textures() {
    let samplers = vec![
        sampler(Some(1), Some("normal"), 1),
        sampler(Some(3), Some("_rt_MipMappedFrameBuffer"), 3),
    ];
    assert!(mesh_reads_scene(&vec![], &samplers, &vec![]));
    assert!(!mesh_reads_scene(&vec![], &vec![], &vec![Some("x".to_owned())]));
    let r = build_tex_resolution(&samplers, &vec![]);
    assert_eq!(r.len(), 8);
    assert!(matches!(r[0], Resolution::Layer));
    assert!(matches!(&r[1], Resolution::Texture(n) if n == "normal"));
    assert!(matches!(r[3], Resolution::Target));
}

/// Files in memory.
struct Files;

impl AssetSource for Files {
    fn load(&self, path: &str) -> Option<Vec<u8>> {
        match path {
            "shaders/a.vert" => Some(b"v".to_vec()),
            "shaders/a.frag" => Some("\u{e9}".as_bytes().to_vec()),
            "shaders/common.h" => Some(b"#define X".to_vec()),
            "shaders/b.vert" => Some(b"v".to_vec()),
            "materials/mesh.json" => Some(br#"{ "passes": [{ "shader": "generic3" }] }"#.to_vec()),
            "materials/none.json" => Some(b"{}".to_vec()),
            _ => None,
        }
    }
}

#[test]
fn shaders_are_two_files_of_text() {
    assert_eq!(
        shader_files("a"),
        ("shaders/a.vert".to_owned(), "shaders/a.frag".to_owned())
    );
    assert_eq!(load_shader(&Files, "a"), Some(("v".to_owned(), "\u{e9}".to_owned())));
    assert_eq!(load_shader(&Files, "b"), None);
    assert_eq!(
        load_shader(&Files, "commands/copy"),
        Some((COPY_COMMAND_VERT.to_owned(), COPY_COMMAND_FRAG.to_owned()))
    );
    assert_eq!(load_header(&Files, "common.h").as_deref(), Some("#define X"));
    assert_eq!(load_header(&Files, "other.h"), None);
    assert_eq!(decode_text(Some(vec![0xff])), None);
    assert_eq!(decode_shader(Some(vec![0xff]), Some(b"f".to_vec())), None);
}

#[test]
fn meshes_are_drawn_with_the_first_pass() {
    assert_eq!(load_mesh_pass(&Files, "materials/mesh.json").unwrap().shader, "generic3");
    assert!(load_mesh_pass(&Files, "materials/none.json").is_none());
    assert!(load_mesh_pass(&Files, "materials/gone.json").is_none());
    assert!(decode_mesh_pass(Some(b"[".to_vec())).is_none());
    let o = object(r#"{ "id": 5, "model": "x.mdl" }"#);
    assert!(live_model(&o, &vec![None, None]).is_none());
    assert!(matches!(
        live_model(&o, &vec![None, Some(false), Some(true)]),
        Some(SceneItem::Model {
            visible: true,
            reads_scene: true
        })
    ));
}

#[test]
fn puppets_are_files_of_images_that_are_placed() {
    let mut img = image(vec![]);
    assert_eq!(puppet_file(&img), None);
    let model = |fullscreen: bool| ModelFile {
        material: "m".to_owned(),
        solidlayer: false,
        fullscreen,
        passthrough: false,
        autosize: false,
        nopadding: false,
        width: None,
        height: None,
        puppet: Some("p.mdl".to_owned()),
    };
    img.model = Some(model(false));
    assert_eq!(puppet_file(&img).as_deref(), Some("p.mdl"));
    img.model = Some(model(true));
    assert_eq!(puppet_file(&img), None);
}

#[test]
fn draws_go_where_there_is_a_buffer() {
    let scratch = vec!["_rt_half".to_owned()];
    assert!(matches!(draw_target(&PassOutput::Scene, true, &scratch), DrawTarget::Scene));
    assert!(matches!(draw_target(&PassOutput::Fbo(1), true, &scratch), DrawTarget::Buffer(1)));
    assert!(matches!(draw_target(&PassOutput::Fbo(1), false, &scratch), DrawTarget::ClearedScene));
    assert!(matches!(
        draw_target(&PassOutput::Named("_rt_half".to_owned()), true, &scratch),
        DrawTarget::Scratch(n) if n == "_rt_half"
    ));
    assert!(matches!(
        draw_target(&PassOutput::Named("_rt_x".to_owned()), true, &scratch),
        DrawTarget::ClearedScene
    ));
    assert_eq!(forward_transform(Geometry::Scene), Transform::Screen);
    assert_eq!(forward_transform(Geometry::PuppetCopy), Transform::Image);
    assert_eq!(forward_transform(Geometry::Pass), Transform::Identity);
    assert_eq!(inverse_transform(Geometry::Puppet), InverseTransform::ScreenAndImage);
    assert_eq!(inverse_transform(Geometry::Copy), InverseTransform::Pixels);
    assert_eq!(inverse_transform(Geometry::PuppetCopy), InverseTransform::OfForward);
}

#[test]
fn buffers_grow_and_pages_stream() {
    assert_eq!(grown_capacity(None, 10), Some(4096));
    assert_eq!(grown_capacity(Some(4096), 5000), Some(5000));
    assert_eq!(grown_capacity(Some(4096), 4096), None);
    assert_eq!(padded_indices(&vec![1, 2, 3]), [1, 2, 3, 0]);
    assert_eq!(padded_indices(&vec![1, 2]), [1, 2]);
    let pages = vec![(4, 4), (4, 4), (8, 8)];
    assert!(streams_page(1, 0, &pages, (4, 4)));
    assert!(!streams_page(0, 0, &pages, (4, 4)));
    assert!(!streams_page(2, 0, &pages, (4, 4)));
    assert!(!streams_page(3, 0, &pages, (4, 4)));
}

fn parameter(name: &str, material: &str, ty: ParamType, default: Option<ParamDefault>) -> Parameter {
    Parameter {
        name: name.to_owned(),
        material: material.to_owned(),
        ty,
        default,
    }
}

#[test]
fn parameters_take_constants_or_defaults() {
    let constants = parse_constant_values(Some(&json(r#"{ "speed": 2.5, "tint": "1 2", "x": 9 }"#)));
    let params = vec![
        parameter("u_Speed", "speed", ParamType::Float, None),
        parameter("u_Tint", "tint", ParamType::Vec3, None),
        parameter(
            "u_Gone",
            "gone",
            ParamType::Float,
            Some(ParamDefault::Scalar(Scalar::Whole(7))),
        ),
        parameter("u_None", "none", ParamType::Vec4, None),
    ];
    let values = resolve_params(&params, &constants);
    assert_eq!(singles(values.get("u_Speed").unwrap()), [2.5]);
    assert_eq!(singles(values.get("u_Tint").unwrap()), [1.0, 2.0, 0.0]);
    assert_eq!(singles(values.get("u_Gone").unwrap()), [7.0]);
    assert!(values.get("u_None").is_none());
    assert_eq!(param_len(ParamType::Vec4), 4);
    let kept = retain_constants(&constants, &params, &vec![]);
    assert!(kept.get("x").is_none() && kept.get("speed").is_some());
    let again = resolve_params(&params, &kept);
    assert_eq!(singles(again.get("u_Tint").unwrap()), [1.0, 2.0, 0.0]);
}

fn model(objects: &[&str], bloom: bool) -> SceneModel {
    let w = |i: i64| Scalar::Whole(i);
    let white = || UserSetting::literal([w(1), w(1), w(1), w(1)]);
    let off = || UserSetting::literal(false);
    let zero = || UserSetting::literal(w(0));
    let scene = Scene {
        camera: Camera {
            eye: [w(0), w(0), w(1)],
            center: [w(0), w(0), w(0)],
            up: [w(0), w(1), w(0)],
            fov: UserSetting::literal(w(50)),
            nearz: w(1),
            farz: w(1000),
            projection: Projection::Auto,
        },
        general: General {
            ambientcolor: white(),
            skylightcolor: white(),
            clearcolor: white(),
            camerafade: off(),
            bloom: UserSetting::literal(bloom),
            bloomstrength: zero(),
            bloomthreshold: zero(),
            cameraparallax: off(),
            cameraparallaxamount: zero(),
            cameraparallaxdelay: zero(),
            cameraparallaxmouseinfluence: zero(),
            camerashake: off(),
            camerashakeamplitude: zero(),
            camerashakeroughness: zero(),
            camerashakespeed: zero(),
            customsortorder: false,
        },
        objects: objects.iter().map(|o| object(o)).collect(),
    };
    SceneModel::resolve(scene, &PropertyBag::new())
}

#[test]
fn scene_sizes() {
    assert_eq!(
        projection_size(
            Projection::Orthogonal {
                width: 640,
                height: 480
            },
            (1, 1)
        ),
        (640, 480)
    );
    assert_eq!(projection_size(Projection::Auto, (300, 200)), (300, 200));
    assert_eq!(
        projection_size(
            Projection::Orthogonal {
                width: 0,
                height: 480
            },
            (0, 200)
        ),
        (1920, 1080)
    );
    assert_eq!(auto_projection(2, 0), (1920, 1080));
    assert_eq!(clamp_code(ClampMode::Clamp), 0);
    assert_eq!(clamp_code(ClampMode::Border), 1);
    assert_eq!(clamp_code(ClampMode::Repeat), 2);
}

#[test]
fn sampled_images_are_built_first() {
    let m = model(
        &[
            r#"{ "id": 1, "image": "a.json", "dependencies": [3, 1] }"#,
            r#"{ "id": 2, "sound": ["a.mp3"] }"#,
            r#"{ "id": 3, "image": "b.json" }"#,
            r#"{ "id": 4, "text": "t" }"#,
        ],
        false,
    );
    let order = build_order(&m);
    assert_eq!(order.donors, [2]);
    assert_eq!(order.order, [0, 1, 2, 3]);
    assert_eq!(
        build_steps(&m, &order.order, &vec![2]),
        [
            BuildStep::Build(0, ItemKind::Image),
            BuildStep::Built(2),
            BuildStep::Build(3, ItemKind::Text)
        ]
    );
    assert_eq!(
        build_steps(&m, &order.order, &vec![])[1],
        BuildStep::Build(2, ItemKind::Image)
    );
}

fn options() -> SceneOptions {
    SceneOptions {
        scaling: ScalingMode::Stretch,
        clamp: ClampMode::Clamp,
    }
}

fn item(id: i64, parent: Option<i64>, reads_scene: bool, donor: bool) -> SceneItem {
    let mut o = object(r#"{ "id": 1, "image": "m.json" }"#);
    o.base.id = id;
    o.base.parent = parent;
    let img = image(vec![]);
    let passes = vec![LivePass::new(Table::new(), vec![], vec![])];
    SceneItem::Image(live_image(&o, &img, passes, reads_scene, donor))
}

fn renderer(m: SceneModel, items: Vec<SceneItem>, script: Option<ScriptHost>) -> SceneRenderer {
    SceneRenderer::new(m, options(), (64, 32), items, &vec![], script).unwrap()
}

#[test]
fn scenes_need_a_size_and_something_to_draw() {
    let m = || model(&[], false);
    let none = SceneRenderer::new(m(), options(), (64, 32), vec![], &vec![], None).unwrap_err();
    assert!(matches!(none, SceneError::NoRenderableObjects));
    assert!(!none.message().is_empty());
    let flat = SceneRenderer::new(m(), options(), (64, 0), vec![SceneItem::Text], &vec![], None).unwrap_err();
    assert!(matches!(
        flat,
        SceneError::BadProjection {
            width: 64,
            height: 0
        }
    ));
    let r = renderer(m(), vec![SceneItem::Text], None);
    assert_eq!(r.projection_size(), (64, 32));
}

#[test]
fn frames_draw_donors_first_and_skip_what_is_hidden() {
    let m = model(
        &[
            r#"{ "id": 1, "image": "a.json" }"#,
            r#"{ "id": 2, "image": "b.json", "parent": 9 }"#,
            r#"{ "id": 9, "solid": true, "visible": false }"#,
        ],
        false,
    );
    let items = vec![
        item(1, None, true, false),
        item(2, Some(9), false, false),
        item(3, None, false, true),
        SceneItem::Particle,
        SceneItem::Text,
        SceneItem::Model {
            visible: true,
            reads_scene: true,
        },
        SceneItem::Model {
            visible: false,
            reads_scene: true,
        },
    ];
    let r = renderer(m, items, None);
    assert!(r.snapshot && r.model_depth);
    assert_eq!(
        r.frame(),
        [
            DrawStep::Image(2),
            DrawStep::Snapshot,
            DrawStep::Image(0),
            DrawStep::Particle(3),
            DrawStep::Text(4),
            DrawStep::Snapshot,
            DrawStep::Model(5),
        ]
    );
    assert_eq!(r.debug_pass_count(), 3);
    assert_eq!(r.debug_particle_count(), 1);
    assert_eq!(r.debug_text_count(), 1);
}

#[test]
fn a_copy_is_kept_only_for_readers_or_bloom() {
    let plain = renderer(model(&[], false), vec![item(1, None, false, false)], None);
    assert!(!plain.snapshot && !plain.model_depth);
    let bloom = renderer(model(&[], true), vec![item(1, None, false, false)], None);
    assert!(bloom.snapshot && bloom.bloom);
    assert_eq!(plain.frame(), [DrawStep::Image(0)]);
}

#[test]
fn scripts_change_a_running_scene() {
    let m = model(
        &[r#"{ "id": 1, "image": "a.json",
               "alpha": { "value": 1.0, "script": "export function update(v) { return 0; }" } }"#],
        false,
    );
    let staged = stage_scripts(&m);
    let host = ScriptHost::build(&m, staged, &vec![true], &vec![]);
    let center = singles(&m.scene.camera.center);
    let mut r = renderer(m, vec![item(1, None, false, false)], host);
    r.run(TickOutput {
        property_results: vec![("alpha_1".to_owned(), ScriptValue::Float(Scalar::Single((0.25f32).to_bits())))],
        ops: vec![
            SceneOp::CreateLayer {
                layer_id: -2,
                path: "bar.json".to_owned(),
            },
            SceneOp::SetProperty {
                layer_id: 1,
                name: "visible".to_owned(),
                value: ScriptValue::Bool(false),
            },
            SceneOp::SetCameraTransforms {
                eye: Some([Scalar::Whole(5), Scalar::Whole(6), Scalar::Whole(7)]),
                center: None,
                up: None,
                fov: Some(Scalar::Whole(70)),
            },
        ],
    });
    assert_eq!(singles(&r.camera.eye), [5.0, 6.0, 7.0]);
    assert_eq!(single(&r.camera.fov.value), 70.0);
    assert_eq!(singles(&r.camera.center), center);
    assert!(r.script.as_ref().unwrap().camera_op.is_none());
    match &r.items[0] {
        SceneItem::Image(img) => {
            assert_eq!(single(&img.alpha), 0.25);
            assert!(!img.visible);
        }
        other => panic!("{:?}", other),
    }
    assert_eq!(r.visible_by_id.get(&1), Some(&false));
    assert!(r.runtime_layers.contains_key(&-2));
    assert!(r.frame().is_empty());
}

/// What a parsed text is as a property value.
fn read(o: Override) -> PropertyValue {
    let reading = |t: &str| Reading {
        text: t.to_owned(),
        single: t.parse::<f32>().unwrap_or(0.0).to_bits(),
    };
    match o {
        Override::Number(t) => PropertyValue::Number {
            double: t.parse::<f64>().unwrap().to_bits(),
            reading: reading(&t),
        },
        Override::Bool(b) => PropertyValue::Bool(b),
        other => panic!("{:?}", other),
    }
}

#[test]
fn properties_change_a_running_scene() {
    let constants = parse_constant_values(Some(&json(
        r#"{ "speed": { "value": 1.0, "user": "speed" } }"#,
    )));
    let params = vec![parameter("u_Speed", "speed", ParamType::Float, None)];
    let o = object(r#"{ "id": 1, "image": "m.json" }"#);
    let passes = vec![LivePass::new(constants, params, vec![])];
    let img = live_image(&o, &image(vec![]), passes, false, false);
    let props = vec![(
        "speed".to_owned(),
        PropertyValue::Number {
            double: (1.0f64).to_bits(),
            reading: Reading {
                text: "1".to_owned(),
                single: (1.0f32).to_bits(),
            },
        },
    )];
    let mut r = SceneRenderer::new(
        model(&[], false),
        options(),
        (8, 8),
        vec![SceneItem::Image(img)],
        &props,
        None,
    )
    .unwrap();
    let speed = |r: &SceneRenderer| match &r.items[0] {
        SceneItem::Image(i) => single(&i.passes[0].vs_params.get("u_Speed").unwrap()[0]),
        other => panic!("{:?}", other),
    };
    assert_eq!(speed(&r), 1.0);
    assert!(r.set_property("speed", "4", &read));
    assert_eq!(speed(&r), 4.0);
    assert!(!r.set_property("speed", "fast", &read));
    assert!(!r.set_property("other", "1", &read));
    assert_eq!(speed(&r), 4.0);
}

#[test]
fn updates_reach_only_their_object() {
    let mut items = vec![item(1, None, false, false), item(2, None, false, false), SceneItem::Text];
    let updates = vec![PropUpdate {
        object_id: 2,
        target: PropTarget::Brightness,
        value: ScriptValue::Int(3),
    }];
    apply_script_updates(&mut items, &updates);
    let brightness = |i: &SceneItem| match i {
        SceneItem::Image(img) => single(&img.brightness),
        other => panic!("{:?}", other),
    };
    assert_eq!(brightness(&items[0]), 1.0);
    assert_eq!(brightness(&items[1]), 3.0);
}

#[test]
fn runtime_layers_follow_their_updates() {
    let mut layers = HashMap::new();
    layers.insert(-1, RuntimeLayer::default());
    assert_eq!(singles(&layers[&-1].scale), [1.0, 1.0, 1.0]);
    assert!(layers[&-1].visible);
    let update = |id: i64, target: PropTarget, value: ScriptValue| PropUpdate {
        object_id: id,
        target,
        value,
    };
    apply_runtime_updates(
        &mut layers,
        &vec![
            update(
                -1,
                PropTarget::Origin,
                ScriptValue::Vec3([Scalar::Whole(1), Scalar::Whole(2), Scalar::Whole(3)]),
            ),
            update(-1, PropTarget::Visible, ScriptValue::Bool(false)),
            update(-9, PropTarget::Alpha, ScriptValue::Int(0)),
        ],
    );
    assert_eq!(singles(&layers[&-1].origin), [1.0, 2.0, 3.0]);
    assert!(!layers[&-1].visible);
    assert_eq!(layers.len(), 1);
}

#[test]
fn ancestors_gate_and_place_their_children() {
    let mut parents = HashMap::new();
    parents.insert(1, Some(2));
    parents.insert(2, Some(3));
    parents.insert(3, None);
    parents.insert(7, Some(7));
    let mut visible = HashMap::new();
    visible.insert(3, false);
    assert!(!ancestors_visible(&parents, &visible, Some(1)));
    assert!(ancestors_visible(&parents, &visible, Some(7)));
    assert!(ancestors_visible(&parents, &visible, Some(99)));
    assert!(ancestors_visible(&parents, &visible, None));
    assert_eq!(transform_chain(&parents, 1), [1, 2, 3]);
    assert_eq!(transform_chain(&parents, 99), Vec::<i64>::new());
    assert_eq!(transform_chain(&parents, 7).len(), 64);
}

#[test]
fn named_buffers_are_found_in_order() {
    let scratch = vec!["_rt_blur".to_owned(), "previous".to_owned()];
    let none: Vec<String> = vec![];
    let of = |name: &str, scratch: &Vec<String>| named_buffer(name, scratch, "_rt_a_7", "_rt_b_7");
    assert_eq!(of("_rt_blur", &scratch), NamedBuffer::Scratch);
    assert_eq!(of("previous", &scratch), NamedBuffer::Scratch);
    assert_eq!(of("previous", &none), NamedBuffer::Composite);
    assert_eq!(of("_rt_a_7", &scratch), NamedBuffer::Composite);
    assert_eq!(of("_rt_b_7", &none), NamedBuffer::Composite);
    assert_eq!(of("_rt_a_8", &none), NamedBuffer::Donor);
    assert_eq!(of("_rt_blur", &none), NamedBuffer::Donor);
}
