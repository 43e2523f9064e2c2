//! What scripts and the running scene share.
use kirie_scene::json::Json;
use kirie_scene::number::Scalar;
use kirie_scene::object::Object;
use kirie_scene::property::{PropertyBag, PropertyValue};
use kirie_scene::resolve::SceneModel;
use kirie_scene::scene::{Camera, General, Projection, Scene};
use kirie_scene::script_host::{sort_layer_apply, SceneOp, ScriptHost, TickOutput};
use kirie_scene::scripting::{
    as_f32, as_rgb, as_vec3, merge_camera, stage_scripts, LayerState, PropTarget, ScriptValue,
};
use kirie_scene::user::UserSetting;

fn single(s: &Scalar) -> f32 {
    match s {
        Scalar::Single(bits) => f32::from_bits(*bits),
        Scalar::Double(bits) => f64::from_bits(*bits) as f32,
        Scalar::Text(t) => t.parse::<f32>().unwrap_or(0.0),
        Scalar::WideText(t) => t.parse::<f64>().unwrap_or(0.0) as f32,
        Scalar::Whole(i) => *i as f32,
        Scalar::WideWhole(i) => *i as f64 as f32,
        Scalar::Channel(i) => *i as f32 / 255.0,
    }
}

fn float(v: f32) -> Scalar {
    Scalar::Single(v.to_bits())
}

fn three(a: f32, b: f32, c: f32) -> [Scalar; 3] {
    [float(a), float(b), float(c)]
}

fn singles(v: &[Scalar]) -> Vec<f32> {
    v.iter().map(single).collect()
}

fn layer_list(ids: &[i64]) -> Vec<LayerState> {
    ids.iter()
        .map(|&id| LayerState {
            id,
            name: String::new(),
            parent: None,
            origin: None,
            scale: None,
            angles: None,
            visible: None,
            alpha: None,
            color: None,
            point_size: None,
            text: None,
        })
        .collect()
}

fn ids(layers: &[LayerState]) -> Vec<i64> {
    layers.iter().map(|l| l.id).collect()
}

#[test]
fn sort_layer_moves_toward_bottom() {
    let mut layers = layer_list(&[10, 20, 30, 40]);
    assert!(sort_layer_apply(&mut layers, 30, 0));
    assert_eq!(ids(&layers), [30, 10, 20, 40]);
}

#[test]
fn sort_layer_moves_toward_top() {
    let mut layers = layer_list(&[10, 20, 30, 40]);
    assert!(sort_layer_apply(&mut layers, 10, 2));
    assert_eq!(ids(&layers), [20, 30, 10, 40]);
}

#[test]
fn sort_layer_negative_index_appends() {
    let mut layers = layer_list(&[10, 20, 30]);
    assert!(sort_layer_apply(&mut layers, 10, -1));
    assert_eq!(ids(&layers), [20, 30, 10]);
}

#[test]
fn sort_layer_past_end_appends() {
    let mut layers = layer_list(&[10, 20, 30]);
    assert!(sort_layer_apply(&mut layers, 20, 99));
    assert_eq!(ids(&layers), [10, 30, 20]);
}

#[test]
fn sort_layer_unknown_id_is_a_noop() {
    let mut layers = layer_list(&[10, 20, 30]);
    assert!(!sort_layer_apply(&mut layers, 77, 0));
    assert_eq!(ids(&layers), [10, 20, 30]);
}

#[test]
fn sort_layer_same_position_is_stable() {
    let mut layers = layer_list(&[10, 20, 30]);
    assert!(sort_layer_apply(&mut layers, 20, 1));
    assert_eq!(ids(&layers), [10, 20, 30]);
}

#[test]
fn camera_ops_merge_last_wins_per_field() {
    let mut slot = None;
    merge_camera(&mut slot, Some(three(1.0, 2.0, 3.0)), None, None, Some(float(60.0)));
    merge_camera(&mut slot, None, Some(three(4.0, 5.0, 6.0)), None, Some(float(45.0)));
    let op = slot.unwrap();
    assert_eq!(singles(&op.eye.unwrap()), [1.0, 2.0, 3.0]);
    assert_eq!(singles(&op.center.unwrap()), [4.0, 5.0, 6.0]);
    assert!(op.up.is_none());
    assert_eq!(single(&op.fov.unwrap()), 45.0);
}

fn model(objects: &[&str]) -> SceneModel {
    let w = |i: i64| Scalar::Whole(i);
    let white = || UserSetting::literal([w(1), w(1), w(1), w(1)]);
    let off = || UserSetting::literal(false);
    let zero = || UserSetting::literal(w(0));
    let scene = Scene {
        camera: Camera {
            eye: [w(0), w(0), w(100)],
            center: [w(0), w(0), w(0)],
            up: [w(0), w(1), w(0)],
            fov: UserSetting::literal(w(50)),
            nearz: w(1),
            farz: w(1000),
            projection: Projection::Orthogonal {
                width: 128,
                height: 128,
            },
        },
        general: General {
            ambientcolor: white(),
            skylightcolor: white(),
            clearcolor: white(),
            camerafade: off(),
            bloom: off(),
            bloomstrength: zero(),
            bloomthreshold: zero(),
            cameraparallax: off(),
            cameraparallaxamount: zero(),
            cameraparallaxdelay: zero(),
            cameraparallaxmouseinfluence: zero(),
            camerashake: off(),
            camerashakeamplitude: zero(),
            camerashakeroughness: zero(),
            camerashakespeed: zero(),
            customsortorder: false,
        },
        objects: objects
            .iter()
            .map(|o| Object::parse(&Json::from_slice(o.as_bytes()).unwrap()).unwrap())
            .collect(),
    };
    SceneModel::resolve(scene, &PropertyBag::new())
}

/// The host of a model all of whose scripts load.
fn host(model: &SceneModel) -> Option<ScriptHost> {
    let staged = stage_scripts(model);
    let loaded = vec![true; staged.pending.len()];
    ScriptHost::build(model, staged, &loaded, &vec![])
}

const RUNTIME_ALPHA: &str = r#"{
    "id": 7, "name": "layer", "image": "models/x.json",
    "alpha": { "value": 1.0, "script": "export function update(v) { return engine.runtime; }" }
}"#;

#[test]
fn scripted_alpha_changes_over_ticks() {
    let model = model(&[RUNTIME_ALPHA]);
    let staged = stage_scripts(&model);
    assert_eq!(staged.pending[0].source, "export function update(v) { return engine.runtime; }");
    let mut host = host(&model).expect("scene has a driveable script");

    let mut last = -1.0_f32;
    let mut saw_update = false;
    for tick in 1..=4 {
        // What the script of this field returns: the seconds since the start.
        let output = TickOutput {
            property_results: vec![("alpha_7".to_owned(), ScriptValue::Float(float(0.5 * tick as f32)))],
            ops: vec![],
        };
        for u in host.process_output(output) {
            if u.object_id == 7 && u.target == PropTarget::Alpha {
                let v = single(&as_f32(&u.value).expect("alpha is a scalar"));
                assert!(v > last, "scripted alpha must increase each tick: {v} !> {last}");
                last = v;
                saw_update = true;
            }
        }
    }
    assert!(saw_update, "the alpha script produced no property update");
    assert!(last > 0.5, "runtime-driven alpha advanced past the first frame: {last}");
}

#[test]
fn scene_without_scripts_spawns_no_host() {
    let model = model(&[
        r#"{ "id": 1, "name": "plain", "image": "models/x.json", "alpha": { "value": 0.5 } }"#,
    ]);
    assert!(host(&model).is_none());
}

#[test]
fn throwing_script_does_not_panic_and_leaves_value_alone() {
    let model = model(&[r#"{
        "id": 3, "name": "boom", "image": "models/x.json",
        "alpha": { "value": 1.0, "script": "export function update(v) { throw new Error('boom'); }" }
    }"#]);
    let mut host = host(&model).expect("script loads even if it throws at tick");
    for _ in 0..3 {
        // A script that throws returns nothing.
        let output = TickOutput {
            property_results: vec![],
            ops: vec![],
        };
        let updates = host.process_output(output);
        assert!(updates.iter().all(|u| u.object_id != 3));
    }
}

#[test]
fn scripts_that_do_not_load_leave_no_host() {
    let model = model(&[RUNTIME_ALPHA]);
    let staged = stage_scripts(&model);
    assert!(ScriptHost::build(&model, staged, &vec![false], &vec![]).is_none());
}

#[test]
fn requested_changes_are_taken_in() {
    let model = model(&[
        RUNTIME_ALPHA,
        r#"{ "id": 8, "name": "other", "image": "models/y.json" }"#,
    ]);
    let mut host = host(&model).unwrap();
    let output = TickOutput {
        property_results: vec![],
        ops: vec![
            SceneOp::SetProperty {
                layer_id: 8,
                name: "visible".to_owned(),
                value: ScriptValue::Bool(false),
            },
            SceneOp::CreateLayer {
                layer_id: -5,
                path: "models/bar.json".to_owned(),
            },
            SceneOp::SetCameraTransforms {
                eye: Some(three(1.0, 2.0, 3.0)),
                center: None,
                up: None,
                fov: None,
            },
            SceneOp::SortLayer {
                layer_id: 8,
                index: 0,
            },
        ],
    };
    let updates = host.process_output(output);
    assert!(updates.iter().any(|u| u.object_id == 8
        && u.target == PropTarget::Visible
        && matches!(u.value, ScriptValue::Bool(false))));
    assert_eq!(host.take_created(), [(-5, "models/bar.json".to_owned())]);
    assert!(host.take_created().is_empty());
    let camera = host.take_camera().unwrap();
    assert_eq!(singles(&camera.eye.unwrap()), [1.0, 2.0, 3.0]);
    assert!(host.take_camera().is_none());
    let order = host.take_layer_order().unwrap();
    assert_eq!(order[0], 8);
    assert!(host.take_layer_order().is_none());
}

#[test]
fn engines_copy_what_changed() {
    let model = model(&[RUNTIME_ALPHA]);
    let mut host = host(&model).unwrap();
    let first = host.refresh(false);
    assert!(first.scene && first.user_props);
    let second = host.refresh(true);
    assert!(!second.scene && !second.user_props);
    host.apply_user_property("tint", &PropertyValue::Bool(true));
    let third = host.refresh(true);
    assert!(!third.scene && third.user_props);
    assert!(matches!(host.user_props.get("tint"), Some(ScriptValue::Bool(true))));
}

#[test]
fn script_values_convert() {
    assert_eq!(single(&as_f32(&ScriptValue::Int(3)).unwrap()), 3.0);
    assert!(as_f32(&ScriptValue::Str("3".to_owned())).is_none());
    assert_eq!(
        singles(&as_vec3(&ScriptValue::Vec3(three(1.0, 2.0, 3.0))).unwrap()),
        [1.0, 2.0, 3.0]
    );
    assert!(as_rgb(&ScriptValue::Bool(true)).is_none());
    assert_eq!(PropTarget::from_field("alpha"), Some(PropTarget::Alpha));
    assert_eq!(PropTarget::from_field("nothing"), None);
}
