//! Property bags, resolution and asset loading.
use kirie_scene::assets::AssetSource;
use kirie_scene::error::{SceneError, SceneLoadError};
use kirie_scene::json::Json;
use kirie_scene::load::{
    apply_overrides, apply_property_override, load_outcome, open_model, open_scene, prepare_model,
    prepare_scene, snapshot_user_props, CompositeSource, Found,
};
use kirie_scene::number::Scalar;
use kirie_scene::object::{Object, ObjectKind};
use kirie_scene::property::{Override, PropertyBag, PropertyEntry, PropertyKind, PropertyValue, Reading};
use kirie_scene::resolve::SceneModel;
use kirie_scene::scene::{Camera, General, Projection, Scene};
use kirie_scene::user::UserSetting;

fn single(s: &Scalar) -> f32 {
    match s {
        Scalar::Single(bits) => f32::from_bits(*bits),
        Scalar::Double(bits) => f64::from_bits(*bits) as f32,
        Scalar::Text(t) => t.parse::<f32>().unwrap_or(0.0),
        Scalar::WideText(t) => t.parse::<f64>().unwrap_or(0.0) as f32,
        Scalar::Whole(i) => *i as f32,
        Scalar::WideWhole(i) => *i as f64 as f32,
        Scalar::Channel(i) => *i as f32 / 255.0,
    }
}

fn whole(i: i64) -> Scalar {
    Scalar::Whole(i)
}

fn reading(text: &str) -> Reading {
    Reading {
        text: text.to_owned(),
        single: text.parse::<f32>().unwrap_or(0.0).to_bits(),
    }
}

fn number(v: f64) -> PropertyValue {
    PropertyValue::Number {
        double: v.to_bits(),
        reading: Reading {
            text: format!("{}", v),
            single: (v as f32).to_bits(),
        },
    }
}

fn combo(text: &str) -> PropertyValue {
    PropertyValue::Combo(reading(text))
}

/// What a parsed text is as a property value.
fn read(o: Override) -> PropertyValue {
    match o {
        Override::Bool(b) => PropertyValue::Bool(b),
        Override::Number(t) => number(t.parse().unwrap()),
        Override::Color(c) => {
            let at = |i: usize| match c.get(i) {
                Some(t) => reading(t),
                None => reading(if i == 3 { "1" } else { "0" }),
            };
            PropertyValue::Color([at(0), at(1), at(2), at(3)])
        }
        Override::Combo(t) => combo(&t),
        Override::Text(t) => PropertyValue::Text(reading(&t)),
    }
}

fn camera() -> Camera {
    Camera {
        eye: [whole(0), whole(0), whole(1)],
        center: [whole(0), whole(0), whole(0)],
        up: [whole(0), whole(1), whole(0)],
        fov: UserSetting::literal(whole(50)),
        nearz: Scalar::Text("0.1".to_owned()),
        farz: whole(10000),
        projection: Projection::Auto,
    }
}

fn general() -> General {
    let white = || UserSetting::literal([whole(1), whole(1), whole(1), whole(1)]);
    let off = || UserSetting::literal(false);
    let zero = || UserSetting::literal(whole(0));
    General {
        ambientcolor: white(),
        skylightcolor: white(),
        clearcolor: white(),
        camerafade: off(),
        bloom: off(),
        bloomstrength: zero(),
        bloomthreshold: zero(),
        cameraparallax: off(),
        cameraparallaxamount: zero(),
        cameraparallaxdelay: zero(),
        cameraparallaxmouseinfluence: zero(),
        camerashake: off(),
        camerashakeamplitude: zero(),
        camerashakeroughness: zero(),
        camerashakespeed: zero(),
        customsortorder: false,
    }
}

fn scene(object: &str) -> Scene {
    let v = Json::from_slice(object.as_bytes()).unwrap();
    Scene {
        camera: camera(),
        general: general(),
        objects: vec![Object::parse(&v).unwrap()],
    }
}

#[test]
fn resolve_name_binding_overwrites() {
    let s = scene(
        r#"{ "id": 1, "name": "i", "image": "m.json", "alpha": { "value": 1.0, "user": "opacity" } }"#,
    );
    let mut bag = PropertyBag::new();
    bag.insert("opacity", number(0.25));
    let model = SceneModel::resolve(s, &bag);
    let ObjectKind::Image(img) = &model.scene.objects[0].kind else {
        panic!()
    };
    assert_eq!(single(&img.alpha.value), 0.25);
}

#[test]
fn resolve_conditional_binding_is_equality() {
    let make = || {
        scene(
            r#"{ "id": 1, "name": "i", "image": "m.json",
        "visible": { "value": true, "user": { "name": "style", "condition": "2" } } }"#,
        )
    };
    let mut bag = PropertyBag::new();
    bag.insert("style", combo("2"));
    let model = SceneModel::resolve(make(), &bag);
    let ObjectKind::Image(img) = &model.scene.objects[0].kind else {
        panic!()
    };
    assert!(img.visible.value);

    let mut bag2 = PropertyBag::new();
    bag2.insert("style", combo("1"));
    let model2 = SceneModel::resolve(make(), &bag2);
    let ObjectKind::Image(img2) = &model2.scene.objects[0].kind else {
        panic!()
    };
    assert!(!img2.visible.value);
}

#[test]
fn setproperty_only_touches_declared_keys() {
    let mut bag = PropertyBag::new();
    bag.insert("opacity", number(1.0));
    assert!(bag.set("opacity", number(0.5)));
    assert!(!bag.set("undeclared", number(0.5)));
    match bag.get("opacity") {
        Some(PropertyValue::Number { double, .. }) => assert_eq!(f64::from_bits(*double), 0.5),
        other => panic!("{:?}", other),
    }
}

#[test]
fn unbound_field_keeps_literal_when_property_absent() {
    let s = scene(
        r#"{ "id": 1, "name": "i", "image": "m.json", "alpha": { "value": 0.9, "user": "missing_prop" } }"#,
    );
    let model = SceneModel::resolve(s, &PropertyBag::new());
    let ObjectKind::Image(img) = &model.scene.objects[0].kind else {
        panic!()
    };
    assert_eq!(single(&img.alpha.value), 0.9);
}

/// Files in memory.
struct Files;

impl AssetSource for Files {
    fn load(&self, path: &str) -> Option<Vec<u8>> {
        match path {
            "models/test.json" => Some(br#"{ "material": "materials/test.json" }"#.to_vec()),
            "materials/test.json" => Some(
                br#"{ "passes": [ { "shader": "genericimage2", "blending": "translucent" } ] }"#.to_vec(),
            ),
            "models/broken.json" => Some(b"{".to_vec()),
            "models/bare.json" => Some(b"{}".to_vec()),
            _ => None,
        }
    }
}

fn build_direct(bag: &PropertyBag) -> SceneModel {
    let s = scene(
        r#"{ "image": "models/test.json", "origin": "1 2 3", "visible": { "value": true, "user": "show" } }"#,
    );
    let mut model = SceneModel::resolve(s, bag);
    let problems = model.load_assets(&Files, bag);
    assert!(problems.is_empty(), "{:?}", problems);
    model
}

fn printed(m: &SceneModel) -> String {
    format!("{:?}", m)
}

#[test]
fn defaults_bake_plus_reresolve_equals_direct() {
    let mut defaults = PropertyBag::new();
    defaults.insert("show", PropertyValue::Bool(true));
    let baked_model = build_direct(&defaults);
    assert!(baked_model.scene.objects[0].base.visible.value, "default visible");

    let mut overridden = PropertyBag::new();
    overridden.insert("show", PropertyValue::Bool(false));
    let mut from_bundle = build_direct(&defaults);
    from_bundle.reresolve(&overridden);

    let direct = build_direct(&overridden);
    assert_eq!(printed(&from_bundle), printed(&direct));
    assert!(!from_bundle.scene.objects[0].base.visible.value, "override applied");

    let mut back = from_bundle;
    back.reresolve(&defaults);
    assert_eq!(printed(&back), printed(&baked_model));
}

#[test]
fn missing_and_broken_assets_are_reported() {
    let bag = PropertyBag::new();
    let reasons = |file: &str| -> Vec<(String, String)> {
        let s = scene(&format!(r#"{{ "image": "{}" }}"#, file));
        let mut model = SceneModel::resolve(s, &bag);
        model
            .load_assets(&Files, &bag)
            .into_iter()
            .map(|p| (p.path, p.reason))
            .collect()
    };
    assert_eq!(
        reasons("models/none.json"),
        [("models/none.json".to_owned(), "asset not found".to_owned())]
    );
    let broken = reasons("models/broken.json");
    assert_eq!(broken.len(), 1);
    assert!(broken[0].1.starts_with("invalid JSON: "), "{}", broken[0].1);
    assert!(broken[0].1.len() > "invalid JSON: ".len());
    assert_eq!(
        reasons("models/bare.json")[0].1,
        "model file: required key `material` missing"
    );
}

#[test]
fn texts_are_read_in_the_type_of_the_property() {
    let mut bag = PropertyBag::new();
    bag.insert("n", number(1.0));
    bag.insert("b", PropertyValue::Bool(false));
    bag.insert("c", PropertyValue::Color([reading("0"), reading("0"), reading("0"), reading("1")]));
    bag.insert("o", combo("1"));
    assert!(bag.set_from_str("n", " 2.5 ", &read));
    assert!(matches!(bag.get("n"), Some(PropertyValue::Number { double, .. }) if f64::from_bits(*double) == 2.5));
    assert!(!bag.set_from_str("n", "two", &read));
    assert!(matches!(bag.get("n"), Some(PropertyValue::Number { double, .. }) if f64::from_bits(*double) == 2.5));
    assert!(bag.set_from_str("b", "true", &read));
    assert!(matches!(bag.get("b"), Some(PropertyValue::Bool(true))));
    assert!(bag.set_from_str("c", "0.25 0.5", &read));
    match bag.get("c") {
        Some(PropertyValue::Color(c)) => {
            assert_eq!([f32::from_bits(c[0].single), f32::from_bits(c[1].single)], [0.25, 0.5]);
            assert_eq!(f32::from_bits(c[3].single), 1.0);
        }
        other => panic!("{:?}", other),
    }
    assert!(bag.set_from_str("o", " 3 ", &read));
    assert!(matches!(bag.get("o"), Some(PropertyValue::Combo(r)) if r.text == "3"));
    assert!(!bag.set_from_str("absent", "1", &read));
    assert_eq!(bag.len(), 4);
    assert!(!bag.is_empty());
}

#[test]
fn projects_declare_their_properties() {
    let entries = vec![
        (
            "speed".to_owned(),
            PropertyEntry::Property {
                kind: PropertyKind::Slider {
                    double: (2.0f64).to_bits(),
                    reading: reading("2"),
                },
                text: reading("Speed"),
            },
        ),
        ("group".to_owned(), PropertyEntry::Other),
        (
            "tint".to_owned(),
            PropertyEntry::Property {
                kind: PropertyKind::Color {
                    value: [reading("0.5"), reading("0"), reading("1")],
                },
                text: reading("Tint"),
            },
        ),
    ];
    let bag = PropertyBag::from_project(&entries);
    assert_eq!(bag.len(), 2);
    assert!(bag.get("group").is_none());
    assert!(matches!(bag.get("tint"), Some(PropertyValue::Color(c)) if f32::from_bits(c[3].single) == 1.0));
    assert_eq!(bag.get("speed").unwrap().as_condition_string(), "2");
}

#[test]
fn overrides_are_applied_and_snapshots_taken() {
    let mut bag = PropertyBag::new();
    bag.insert("b", PropertyValue::Bool(false));
    bag.insert("a", number(1.0));
    assert!(apply_property_override(&mut bag, "b", "1", &read));
    assert!(!apply_property_override(&mut bag, "zzz", "1", &read));
    let asked = vec![
        ("a".to_owned(), "4".to_owned()),
        ("nope".to_owned(), "4".to_owned()),
    ];
    apply_overrides(&mut bag, &asked, &read);
    let names = vec!["b".to_owned(), "nope".to_owned(), "a".to_owned()];
    let snap = snapshot_user_props(&names, &bag);
    let shown: Vec<&str> = snap.iter().map(|p| p.0.as_str()).collect();
    assert_eq!(shown, ["b", "a"]);
    assert!(matches!(snap[0].1, PropertyValue::Bool(true)));
    assert!(matches!(&snap[1].1, PropertyValue::Number { double, .. } if f64::from_bits(*double) == 4.0));
}

#[test]
fn an_empty_scene_is_no_failure() {
    assert_eq!(load_outcome(Ok(7)).unwrap(), Some(7));
    assert_eq!(load_outcome::<i32>(Err(SceneError::NoRenderableObjects)).unwrap(), None);
    let e = load_outcome::<i32>(Err(SceneError::BadProjection { width: 0, height: 9 })).unwrap_err();
    assert!(matches!(e, SceneLoadError::Build(_)));
    assert!(e.message().contains("0") && e.message().contains("9"), "{}", e.message());
}

/// A source of one file.
struct One(&'static str, &'static [u8]);

impl AssetSource for One {
    fn load(&self, path: &str) -> Option<Vec<u8>> {
        if path == self.0 {
            Some(self.1.to_vec())
        } else {
            None
        }
    }
}

#[test]
fn packages_go_before_builtin_assets() {
    let both = CompositeSource {
        pkg: One("a", b"packed"),
        assets: Some(One("a", b"builtin")),
    };
    assert_eq!(both.load("a").unwrap(), b"packed");
    let fallback = CompositeSource {
        pkg: One("a", b"packed"),
        assets: Some(One("b", b"builtin")),
    };
    assert_eq!(fallback.load("b").unwrap(), b"builtin");
    assert!(fallback.load("c").is_none());
    let alone: CompositeSource<One, One> = CompositeSource {
        pkg: One("a", b"packed"),
        assets: None,
    };
    assert!(alone.load("b").is_none());
}

#[test]
fn prepared_scenes_open_with_the_chosen_values() {
    let parsed = || {
        scene(
            r#"{ "image": "models/test.json", "origin": "1 2 3",
                 "visible": { "value": true, "user": "show" } }"#,
        )
    };
    let mut defaults = PropertyBag::new();
    defaults.insert("show", PropertyValue::Bool(true));
    let mut chosen = PropertyBag::new();
    chosen.insert("show", PropertyValue::Bool(false));
    let (baked, problems) = prepare_model(parsed(), &defaults, &Files);
    assert!(problems.is_empty());
    assert!(baked.scene.objects[0].base.visible.value);
    let opened = open_model(baked, &chosen);
    let (direct, _) = prepare_model(parsed(), &chosen, &Files);
    assert!(!opened.scene.objects[0].base.visible.value);
    assert_eq!(printed(&opened), printed(&direct));
}

/// A project that declares one flag.
fn shown_by_default() -> Vec<(String, PropertyEntry)> {
    vec![(
        "show".to_owned(),
        PropertyEntry::Property {
            kind: PropertyKind::Bool { value: true },
            text: reading("Show"),
        },
    )]
}

fn described() -> Scene {
    scene(r#"{ "image": "models/test.json", "visible": { "value": false, "user": "show" } }"#)
}

#[test]
fn a_stored_scene_opens_like_a_new_one() {
    let entries = shown_by_default();
    let fresh = prepare_scene(Found::Parsed(described()), &entries, &Files).unwrap();
    assert!(fresh.fresh);
    assert!(fresh.problems.is_empty());
    assert!(fresh.model.scene.objects[0].base.visible.value, "the default applies");
    let as_prepared = printed(&fresh.model);
    let stored = prepare_scene(Found::Stored(fresh.model), &entries, &Files).unwrap();
    assert!(!stored.fresh);
    assert_eq!(printed(&stored.model), as_prepared);

    let asked = vec![("show".to_owned(), "false".to_owned()), ("nope".to_owned(), "1".to_owned())];
    let opened = open_scene(stored.model, &entries, &asked, &read);
    assert!(!opened.model.scene.objects[0].base.visible.value, "the override applies");
    assert_eq!(opened.user_props.len(), 1);
    assert_eq!(opened.user_props[0].0, "show");
    assert!(matches!(opened.user_props[0].1, PropertyValue::Bool(false)));

    let mut bag = PropertyBag::from_project(&entries);
    apply_overrides(&mut bag, &asked, &read);
    let (direct, _) = prepare_model(described(), &bag, &Files);
    assert_eq!(printed(&opened.model), printed(&direct));
}

#[test]
fn descriptions_that_cannot_be_used_are_reported() {
    let entries = shown_by_default();
    let unread = prepare_scene(Found::Unread("no entry".to_owned()), &entries, &Files).unwrap_err();
    assert_eq!(unread.message(), "cannot read scene.json from scene.pkg: no entry");
    let unparsed = prepare_scene(Found::Unparsed("not an object".to_owned()), &entries, &Files).unwrap_err();
    assert_eq!(unparsed.message(), "cannot parse scene.json: not an object");
}

/// A bag with a property of each kind.
fn all_kinds() -> PropertyBag {
    let mut bag = PropertyBag::new();
    bag.insert("n", number(1.0));
    bag.insert("b", PropertyValue::Bool(false));
    bag.insert("c", PropertyValue::Color([reading("0"), reading("0"), reading("0"), reading("1")]));
    bag.insert("o", combo("1"));
    bag.insert("t", PropertyValue::Text(reading("old")));
    bag
}

const RAW: [&str; 8] = ["", " 1 ", "true", "0.5 1 x", "0.5 0.25", "1 2 3 4 5", "two", "1e3"];

#[test]
fn an_override_keeps_the_kind_of_its_property() {
    for raw in RAW {
        let mut bag = all_kinds();
        for name in ["n", "b", "c", "o", "t"] {
            bag.set_from_str(name, raw, &read);
        }
        assert!(matches!(bag.get("n"), Some(PropertyValue::Number { .. })));
        assert!(matches!(bag.get("b"), Some(PropertyValue::Bool(_))));
        assert!(matches!(bag.get("c"), Some(PropertyValue::Color(_))));
        assert!(matches!(bag.get("o"), Some(PropertyValue::Combo(_))));
        assert!(matches!(bag.get("t"), Some(PropertyValue::Text(_))));
        assert_eq!(bag.len(), 5);
    }
    let mut bag = all_kinds();
    assert!(bag.set_from_str("c", "0.5", &read));
    match bag.get("c") {
        Some(PropertyValue::Color(c)) => {
            let texts: Vec<&str> = c.iter().map(|r| r.text.as_str()).collect();
            assert_eq!(texts, ["0.5", "0", "0", "1"]);
        }
        other => panic!("{:?}", other),
    }
}

#[test]
fn both_ways_to_override_agree() {
    for raw in RAW {
        for name in ["n", "b", "c", "o", "t", "absent"] {
            let mut one = all_kinds();
            let mut other = all_kinds();
            let applied = one.set_from_str(name, raw, &read);
            assert_eq!(apply_property_override(&mut other, name, raw, &read), applied);
            for k in ["n", "b", "c", "o", "t", "absent"] {
                assert_eq!(format!("{:?}", one.get(k)), format!("{:?}", other.get(k)));
            }
        }
    }
}

#[test]
fn a_name_that_no_binding_reads_may_go() {
    let make = || {
        scene(
            r#"{ "id": 1, "name": "i", "image": "m.json",
        "alpha": { "value": 1.0, "user": "opacity" },
        "visible": { "value": true, "user": { "name": "style", "condition": "2" } } }"#,
        )
    };
    let mut first = PropertyBag::new();
    first.insert("opacity", number(0.25));
    first.insert("style", combo("2"));
    first.insert("other", number(3.0));
    let mut second = PropertyBag::new();
    second.insert("opacity", number(0.5));
    let mut model = SceneModel::resolve(make(), &first);
    model.reresolve(&second);
    let direct = SceneModel::resolve(make(), &second);
    assert_eq!(format!("{:?}", model.scene), format!("{:?}", direct.scene));
    let ObjectKind::Image(img) = &model.scene.objects[0].kind else {
        panic!()
    };
    assert_eq!(single(&img.alpha.value), 0.5);
    assert!(!img.visible.value);
}
