//! Scene objects, materials and particle systems as they are parsed.
use kirie_scene::json::Json;
use kirie_scene::material::{
    Blending, CullMode, DepthMode, EffectFile, Material, ModelFile, PassCommand,
};
use kirie_scene::number::Scalar;
use kirie_scene::object::{Object, ObjectKind};
use kirie_scene::particle::ParticleSystem;

fn single(s: &Scalar) -> f32 {
    match s {
        Scalar::Single(bits) => f32::from_bits(*bits),
        Scalar::Double(bits) => f64::from_bits(*bits) as f32,
        Scalar::Text(t) => t.parse::<f32>().unwrap_or(0.0),
        Scalar::WideText(t) => t.parse::<f64>().unwrap_or(0.0) as f32,
        Scalar::Whole(i) => *i as f32,
        Scalar::WideWhole(i) => *i as f64 as f32,
        Scalar::Channel(i) => *i as f32 / 255.0,
    }
}

fn singles(v: &[Scalar]) -> Vec<f32> {
    v.iter().map(single).collect()
}

fn json(text: &str) -> Json {
    Json::from_slice(text.as_bytes()).unwrap()
}

/// The objects of a scene's object list.
fn parse(list: &str) -> Vec<Object> {
    match json(list) {
        Json::Array(items) => items.iter().map(|v| Object::parse(v).unwrap()).collect(),
        other => panic!("{:?}", other),
    }
}

#[test]
fn base_defaults_and_salvage() {
    let objects = parse(r#"[{ "particle": "p/x.json" }]"#);
    let o = &objects[0];
    assert_eq!(o.base.id, -1);
    assert_eq!(o.base.name, "unknown");
    assert_eq!(singles(&o.base.scale.value), [1.0, 1.0, 1.0]);
    assert!(o.base.visible.value);
}

#[test]
fn numeric_name_stringified() {
    let objects = parse(r#"[{ "particle": "p.json", "name": 42, "id": 3 }]"#);
    assert_eq!(objects[0].base.name, "42");
}

#[test]
fn dispatch_image_null_falls_through_to_particle() {
    let objects = parse(
        r#"[{ "id": 97, "name": "Sakura", "image": null, "model": null,
              "particle": "particles/presets/leaves5.json" }]"#,
    );
    assert!(matches!(objects[0].kind, ObjectKind::Particle(_)));
}

#[test]
fn all_kinds_dispatch() {
    let objects = parse(
        r#"[
        { "id": 1, "name": "img", "image": "models/cave.json" },
        { "id": 2, "name": "snd", "sound": ["sounds/a.mp3"], "playbackmode": "loop" },
        { "id": 3, "name": "par", "particle": "particles/x.json" },
        { "id": 4, "name": "txt", "text": "hi" },
        { "id": 5, "name": "mdl", "model": "models/x.mdl" },
        { "id": 6, "name": "lgt", "light": true, "radius": 100 },
        { "id": 7, "name": "shp", "shape": "sphere" },
        { "id": 8, "name": "grp", "solid": true }
    ]"#,
    );
    let kinds: Vec<_> = objects.iter().map(|o| &o.kind).collect();
    assert!(matches!(kinds[0], ObjectKind::Image(_)));
    assert!(matches!(kinds[1], ObjectKind::Sound(_)));
    assert!(matches!(kinds[2], ObjectKind::Particle(_)));
    assert!(matches!(kinds[3], ObjectKind::Text(_)));
    assert!(matches!(kinds[4], ObjectKind::Model(_)));
    assert!(matches!(kinds[5], ObjectKind::Light(_)));
    assert!(matches!(kinds[6], ObjectKind::Shape(_)));
    assert!(matches!(kinds[7], ObjectKind::Group));
}

#[test]
fn image_fields_and_alignment() {
    let objects = parse(
        r#"[{
        "id": 12, "name": "cave", "image": "models/cave.json",
        "size": "1920 1080", "parallaxDepth": "1 1", "colorBlendMode": 2,
        "brightness": 0.8, "alpha": 0.5, "alignment": "left", "horizontalalign": "right",
        "effects": [{ "file": "effects/waterwaves/effect.json", "visible": true,
                      "passes": [{ "combos": { "NOISE": 1 },
                                   "textures": [null, "masks/m.tex"],
                                   "constantshadervalues": { "speed": 2.5 } }] }]
    }]"#,
    );
    let ObjectKind::Image(img) = &objects[0].kind else {
        panic!()
    };
    assert_eq!(singles(&img.size), [1920.0, 1080.0]);
    assert_eq!(img.color_blend_mode.value, 2);
    assert_eq!(img.alignment, "right");
    assert_eq!(img.effects.len(), 1);
    let pass = &img.effects[0].passes[0];
    assert_eq!(pass.combos.get("NOISE"), Some(&1));
    assert_eq!(pass.textures, vec![None, Some("masks/m.tex".to_owned())]);
}

#[test]
fn material_pass_enums() {
    let m = Material::from_value(&json(
        r#"{
        "passes": [{ "blending": "translucent", "cullmode": "normal",
                     "depthtest": "enabled", "depthwrite": "disabled",
                     "shader": "genericimage2", "textures": ["cave", null],
                     "combos": { "VERTICAL": 1 } }]
    }"#,
    ));
    let p = &m.passes[0];
    assert_eq!(p.blending, Blending::Translucent);
    assert_eq!(p.cullmode, CullMode::Normal);
    assert_eq!(p.depthtest, DepthMode::Enabled);
    assert_eq!(p.depthwrite, DepthMode::Disabled);
    assert_eq!(p.shader, "genericimage2");
    assert_eq!(p.textures, vec![Some("cave".to_owned()), None]);
    let m2 = Material::from_value(&json(
        r#"{ "passes": [{ "blending": "bogus", "shader": "x" }] }"#,
    ));
    assert_eq!(m2.passes[0].blending, Blending::Normal);
}

#[test]
fn text_defaults() {
    let objects = parse(
        r#"[{ "id": 1, "name": "t", "text": { "value": "12:00",
        "script": "return time();", "scriptproperties": { "p": 1 } },
        "font": "fonts/VCR.ttf", "pointsize": 48, "verticalalign": "top" }]"#,
    );
    let ObjectKind::Text(t) = &objects[0].kind else {
        panic!()
    };
    assert_eq!(t.text.value, "12:00");
    assert!(t.text.script.is_some());
    assert_eq!(single(&t.pointsize.value), 48.0);
    assert_eq!(t.verticalalign, "top");
    assert_eq!(t.horizontalalign, "center");
}

#[test]
fn particle_instanceoverride_and_emitter() {
    let objects = parse(
        r#"[{
        "id": 97, "name": "leaves", "particle": {
            "material": "materials/presets/leaves.json", "maxcount": 500,
            "emitter": [{ "name": "sphererandom", "distancemax": 25, "rate": 20, "id": 10 }],
            "initializer": [{ "name": "colorrandom", "min": "255 255 255", "max": "255 192 248" }],
            "operator": [{ "name": "movement", "gravity": "0 -10 0" }]
        },
        "instanceoverride": { "count": 0.2, "lifetime": 0.25, "speed": 0.2 }
    }]"#,
    );
    let ObjectKind::Particle(p) = &objects[0].kind else {
        panic!()
    };
    assert_eq!(p.system.maxcount, 500);
    assert_eq!(singles(&p.system.emitters[0].distancemax), [25.0, 25.0, 25.0]);
    assert_eq!(p.system.emitters[0].name, "sphererandom");
    assert_eq!(single(&p.instanceoverride.count.value), 0.2);
    assert_eq!(p.system.renderers.len(), 1);
    assert_eq!(p.system.renderers[0].name, "sprite");
}

#[test]
fn no_object_is_parsed_from_anything_else() {
    assert!(Object::parse(&json("3")).is_none());
    assert!(Object::parse(&json("\"image\"")).is_none());
}

#[test]
fn dependencies_and_parent_are_kept() {
    let objects = parse(
        r#"[{ "id": 4, "image": "m.json", "dependencies": [7, 9], "parent": 2, "sortorder": 5 }]"#,
    );
    assert_eq!(objects[0].base.dependencies, vec![7, 9]);
    assert_eq!(objects[0].base.parent, Some(2));
    assert_eq!(objects[0].base.sortorder, 5);
}

#[test]
fn bindings_are_kept_beside_the_value() {
    let objects = parse(
        r#"[{ "id": 1, "image": "m.json",
              "alpha": { "value": 0.5, "user": "opacity" },
              "visible": { "value": true, "user": { "name": "style", "condition": "2" } } }]"#,
    );
    let ObjectKind::Image(img) = &objects[0].kind else {
        panic!()
    };
    assert_eq!(img.alpha.user.as_ref().unwrap().name(), "opacity");
    assert!(img.alpha.is_bound());
    assert_eq!(img.visible.user.as_ref().unwrap().name(), "style");
    assert!(!img.brightness.is_bound());
}

#[test]
fn model_files_need_a_material() {
    let m = ModelFile::from_value(&json(
        r#"{ "material": "materials/a.json", "fullscreen": true, "puppet": "p.mdl" }"#,
    ))
    .unwrap();
    assert_eq!(m.material, "materials/a.json");
    assert!(m.fullscreen && !m.passthrough);
    assert_eq!(m.puppet.as_deref(), Some("p.mdl"));
    let e = ModelFile::from_value(&json("{}")).unwrap_err();
    assert_eq!(e.message(), "model file: required key `material` missing");
}

#[test]
fn effect_files_list_passes_and_buffers() {
    let f = EffectFile::from_value(&json(
        r#"{ "name": "blur",
             "fbos": [{ "name": "_rt_half", "scale": 2, "format": "rgba8888" }],
             "passes": [
               { "material": "materials/a.json", "target": "_rt_half",
                 "bind": [{ "name": "previous", "index": 0 }] },
               { "command": "copy", "source": "_rt_half", "target": "_rt_b" }
             ] }"#,
    ));
    assert_eq!(f.name, "blur");
    assert_eq!(f.fbos.len(), 1);
    assert_eq!(f.fbos[0].name, "_rt_half");
    assert_eq!(single(&f.fbos[0].scale), 2.0);
    assert_eq!(f.passes[0].target.as_deref(), Some("_rt_half"));
    assert_eq!(f.passes[0].bind[0].name, "previous");
    assert!(matches!(f.passes[1].command, Some(PassCommand::Copy)));
}

#[test]
fn particle_defaults_hold() {
    let p = ParticleSystem::from_value(&json("{}"));
    assert_eq!(p.maxcount, 100);
    assert_eq!(p.animationmode, "sequence");
    assert_eq!(p.renderers.len(), 1);
    assert!(p.emitters.is_empty() && p.operators.is_empty());
}

#[test]
fn json_is_read_and_rendered() {
    let v = json(r#"{ "b": [1, -2, 0.5, null, true], "a": "x\"y" }"#);
    assert_eq!(v.get("a").unwrap().as_str(), Some("x\"y"));
    assert_eq!(v.render(), r#"{"a":"x\"y","b":[1,-2,0.5,null,true]}"#);
    assert!(Json::from_slice(b"{ \"open\": ").is_err());
    assert!(Json::from_slice(&[0xff, 0xfe]).is_err());
}

/// The parsed object without its list of members that were kept as they are.
fn shown(text: &str) -> String {
    let o = Object::parse(&json(text)).unwrap();
    format!("{:?} {:?}", o.base, o.kind)
}

#[test]
fn null_members_count_as_absent() {
    assert_eq!(
        shown(
            r#"{ "id": 4, "image": "i.json", "name": null, "parent": null, "origin": null, "scale": null,
                 "visible": null, "dependencies": null, "alpha": null, "color": null, "effects": null,
                 "size": null, "brightness": null, "animationlayers": null }"#,
        ),
        shown(r#"{ "id": 4, "image": "i.json" }"#),
    );
    assert_eq!(
        shown(r#"{ "text": "t", "font": null, "pointsize": null, "padding": null, "alpha": null, "image": null }"#),
        shown(r#"{ "text": "t" }"#),
    );
    assert_eq!(
        shown(r#"{ "particle": { "emitter": null, "maxcount": null }, "instanceoverride": null, "model": null }"#),
        shown(r#"{ "particle": {} }"#),
    );
    let pass = |text: &str| format!("{:?}", Material::from_value(&json(text)));
    assert_eq!(
        pass(r#"{ "passes": [{ "shader": "s", "blending": null, "textures": null, "combos": null }] }"#),
        pass(r#"{ "passes": [{ "shader": "s" }] }"#),
    );
    let model = |text: &str| format!("{:?}", ModelFile::from_value(&json(text)));
    assert_eq!(
        model(r#"{ "material": "m.json", "puppet": null, "width": null, "fullscreen": null }"#),
        model(r#"{ "material": "m.json" }"#),
    );
}

#[test]
fn entries_of_the_wrong_kind_are_passed_over() {
    assert_eq!(
        shown(
            r#"{ "id": 4, "image": "i.json", "dependencies": [1, [], null, 2, {}],
                 "effects": [7, { "file": "a.json" }, null, "e", { "file": "b.json" }] }"#,
        ),
        shown(
            r#"{ "id": 4, "image": "i.json", "dependencies": [1, 2],
                 "effects": [{ "file": "a.json" }, { "file": "b.json" }] }"#,
        ),
    );
    let passes = |text: &str| Material::from_value(&json(text)).passes.len();
    assert_eq!(passes(r#"{ "passes": [null, { "shader": "s" }, 3, []] }"#), 1);
    let system = |text: &str| ParticleSystem::from_value(&json(text)).emitters.len();
    assert_eq!(system(r#"{ "emitter": ["x", { "name": "boxrandom" }, null] }"#), 1);
}

#[test]
fn an_id_that_is_no_number_is_salvaged() {
    let id = |text: &str| {
        let objects = parse(&format!(r#"[{{ "particle": "p.json", "name": 42, "id": {} }}]"#, text));
        assert_eq!(objects[0].base.name, "42");
        objects[0].base.id
    };
    assert_eq!(id("\"abc\""), -1);
    assert_eq!(id("\"\""), -1);
    assert_eq!(id("\"-\""), -1);
    assert_eq!(id("null"), -1);
    assert_eq!(id("\" 17 \""), 17);
    assert_eq!(id("\"0\""), 0);
    assert_eq!(id("5"), 5);
}
