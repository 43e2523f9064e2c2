//! Draw plans, blending and render order.
use kirie_scene::blend::{
    blend_state, cull_mode, depth_stencil_state, BlendComponent, BlendFactor, BlendOperation,
    DepthCompare, Face,
};
use kirie_scene::compose::effective_blending;
use kirie_scene::material::{
    Blending, CullMode, DepthMode, EffectFile, EffectPass, Material, ModelFile, Pass,
};
use kirie_scene::number::Scalar;
use kirie_scene::object::{Effect, ImageObject};
use kirie_scene::order::render_order;
use kirie_scene::plan::{plan_image, Geometry, PassInput, PassOutput};
use kirie_scene::table::Table;
use kirie_scene::user::UserSetting;

fn pass(shader: &str, blending: Blending) -> Pass {
    Pass {
        blending,
        cullmode: CullMode::NoCull,
        depthtest: DepthMode::Disabled,
        depthwrite: DepthMode::Disabled,
        shader: shader.to_string(),
        textures: vec![],
        usertextures: vec![],
        combos: Table::new(),
        constantshadervalues: Table::new(),
    }
}

fn image(passes: Vec<Pass>) -> ImageObject {
    let w = |i: i64| Scalar::Whole(i);
    ImageObject {
        image: "img.json".into(),
        model: None,
        material: Some(Material { passes }),
        scale: UserSetting::literal([w(1), w(1), w(1)]),
        angles: UserSetting::literal([w(0), w(0), w(0)]),
        visible: UserSetting::literal(true),
        alpha: UserSetting::literal(w(1)),
        color: UserSetting::literal([w(1), w(1), w(1), w(1)]),
        alignment: "center".into(),
        size: [w(0), w(0)],
        parallax_depth: UserSetting::literal([w(0), w(0)]),
        color_blend_mode: UserSetting::literal(0),
        brightness: UserSetting::literal(w(1)),
        effects: vec![],
        animationlayers: vec![],
        instance: None,
    }
}

fn passthrough_model() -> ModelFile {
    ModelFile {
        material: "materials/util/fullscreenlayer.json".into(),
        solidlayer: false,
        fullscreen: true,
        passthrough: true,
        autosize: false,
        nopadding: false,
        width: None,
        height: None,
        puppet: None,
    }
}

#[test]
fn hidden_image_plans_nothing() {
    let img = image(vec![pass("effect", Blending::Normal)]);
    assert!(plan_image(&img, false).passes.is_empty());
}

#[test]
fn passthrough_layer_without_visible_effects_is_skipped() {
    let mut img = image(vec![pass("passthrough", Blending::Translucent)]);
    img.model = Some(passthrough_model());
    assert!(plan_image(&img, true).passes.is_empty());
}

#[test]
fn passthrough_layer_with_visible_effect_renders() {
    let mut img = image(vec![pass("passthrough", Blending::Translucent)]);
    img.model = Some(passthrough_model());
    img.effects = vec![Effect {
        file: "effects/tint/effect.json".into(),
        id: -1,
        name: "tint".into(),
        visible: UserSetting::literal(true),
        passes: vec![],
        resolved: Some(EffectFile {
            name: String::new(),
            description: String::new(),
            group: String::new(),
            preview: String::new(),
            dependencies: vec![],
            fbos: vec![],
            passes: vec![EffectPass {
                material: Some("materials/effects/tint.json".into()),
                resolved: Some(Material {
                    passes: vec![pass("effects/tint", Blending::Normal)],
                }),
                bind: vec![],
                command: None,
                source: None,
                target: None,
            }],
        }),
    }];
    assert_eq!(plan_image(&img, true).passes.len(), 2);
}

#[test]
fn image_without_material_plans_nothing() {
    let mut img = image(vec![]);
    img.material = None;
    assert!(plan_image(&img, true).passes.is_empty());
}

#[test]
fn single_pass_composites_into_scene_from_layer() {
    let img = image(vec![pass("passthrough", Blending::Translucent)]);
    let plan = plan_image(&img, true);
    assert_eq!(plan.passes.len(), 1);
    let p = &plan.passes[0];
    assert_eq!(p.input, PassInput::Layer);
    assert!(matches!(p.output, PassOutput::Scene));
    assert_eq!(p.geometry, Geometry::Scene);
    assert_eq!(p.blending, Blending::Translucent);
}

#[test]
fn multi_pass_ping_pongs_and_ends_at_scene() {
    let img = image(vec![
        pass("a", Blending::Additive),
        pass("b", Blending::Normal),
        pass("c", Blending::Normal),
    ]);
    let plan = plan_image(&img, true);
    assert_eq!(plan.passes.len(), 3);

    assert_eq!(plan.passes[0].input, PassInput::Layer);
    assert!(matches!(plan.passes[0].output, PassOutput::Fbo(0)));
    assert_eq!(plan.passes[0].geometry, Geometry::Copy);

    assert_eq!(plan.passes[1].input, PassInput::Fbo(0));
    assert!(matches!(plan.passes[1].output, PassOutput::Fbo(1)));
    assert_eq!(plan.passes[1].geometry, Geometry::Pass);

    assert_eq!(plan.passes[2].input, PassInput::Fbo(1));
    assert!(matches!(plan.passes[2].output, PassOutput::Scene));
    assert_eq!(plan.passes[2].geometry, Geometry::Scene);
}

#[test]
fn blend_relocation_moves_first_to_last() {
    let img = image(vec![
        pass("a", Blending::Additive),
        pass("b", Blending::Translucent),
    ]);
    let plan = plan_image(&img, true);
    assert_eq!(plan.passes[0].blending, Blending::Normal, "first forced Normal");
    assert_eq!(
        plan.passes[1].blending,
        Blending::Additive,
        "first's blend relocated to last"
    );
}

#[test]
fn puppet_base_forces_translucent_blending() {
    for planned in [Blending::Normal, Blending::Translucent, Blending::Additive] {
        assert_eq!(effective_blending(true, planned), Blending::Translucent);
        assert_eq!(effective_blending(false, planned), planned);
    }
}

fn comp(src: BlendFactor, dst: BlendFactor) -> BlendComponent {
    BlendComponent {
        src_factor: src,
        dst_factor: dst,
        operation: BlendOperation::Add,
    }
}

#[test]
fn normal_is_replace() {
    let b = blend_state(Blending::Normal);
    assert_eq!(b.color, comp(BlendFactor::One, BlendFactor::Zero));
    assert_eq!(b.alpha, comp(BlendFactor::One, BlendFactor::Zero));
}

#[test]
fn translucent_uses_srcalpha_oneminus() {
    let b = blend_state(Blending::Translucent);
    assert_eq!(
        b.color,
        comp(BlendFactor::SrcAlpha, BlendFactor::OneMinusSrcAlpha)
    );
    assert_eq!(b.alpha, comp(BlendFactor::One, BlendFactor::OneMinusSrcAlpha));
}

#[test]
fn additive_uses_srcalpha_one() {
    let b = blend_state(Blending::Additive);
    let expect = comp(BlendFactor::SrcAlpha, BlendFactor::One);
    assert_eq!(b.color, expect);
    assert_eq!(b.alpha, expect);
}

#[test]
fn every_mode_maps_to_add_operation() {
    for mode in [Blending::Normal, Blending::Translucent, Blending::Additive] {
        let b = blend_state(mode);
        assert_eq!(b.color.operation, BlendOperation::Add);
        assert_eq!(b.alpha.operation, BlendOperation::Add);
    }
}

#[test]
fn cull_mapping() {
    assert_eq!(cull_mode(CullMode::NoCull), None);
    assert_eq!(cull_mode(CullMode::Normal), Some(Face::Back));
}

#[test]
fn depth_disabled_has_no_state() {
    assert!(depth_stencil_state(DepthMode::Disabled, DepthMode::Disabled).is_none());
    assert!(depth_stencil_state(DepthMode::Disabled, DepthMode::Enabled).is_none());
}

#[test]
fn depth_enabled_is_lequal_with_write_flag() {
    let on = depth_stencil_state(DepthMode::Enabled, DepthMode::Enabled).unwrap();
    assert_eq!(on.depth_compare, DepthCompare::LessEqual);
    assert!(on.depth_write_enabled);

    let off = depth_stencil_state(DepthMode::Enabled, DepthMode::Disabled).unwrap();
    assert_eq!(off.depth_compare, DepthCompare::LessEqual);
    assert!(!off.depth_write_enabled);
}

#[test]
fn custom_order_is_stable() {
    assert_eq!(render_order(&vec![3, 1, 3, 0], true), [3, 1, 0, 2]);
    assert_eq!(render_order(&vec![3, 1, 3, 0], false), [0, 1, 2, 3]);
    assert!(render_order(&vec![], true).is_empty());
}
