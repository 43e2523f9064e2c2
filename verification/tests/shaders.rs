//! Shader sources and what two translated stages must agree on.
use kirie_scene::material::{Blending, CullMode, DepthMode, Pass};
use kirie_scene::pipeline::{
    build_model_pass, build_pass, check_interface, globals_layout, highest_location, io_locations,
    module_bindings, shader_inputs, unite_combos, vertex_input, Attribute, BindKind, BuildPhase,
    BuildStep, GlobalShape, IoDir, IoShape, MemberShape, ModuleShape, PassBuildError, PassKind, Space,
    Translated, TypeShape, VertexFormat, MODEL_VERTEX_STRIDE, VERTEX_STRIDE,
};
use kirie_scene::table::Table;
use kirie_scene::varying::{
    count_matches, has_array_varying, is_const_return_function, lines, pin_varying_locations,
    replace_text, sanitize_glsl, strip_dead_fs_varyings, varying_decl_name, Stage,
};

fn pass() -> Pass {
    let mut combos = Table::new();
    combos.insert("BLUR", 1);
    Pass {
        blending: Blending::Normal,
        cullmode: CullMode::NoCull,
        depthtest: DepthMode::Disabled,
        depthwrite: DepthMode::Disabled,
        shader: "x".to_owned(),
        textures: vec![Some("a".to_owned()), None, Some("b".to_owned())],
        usertextures: vec![],
        combos,
        constantshadervalues: Table::new(),
    }
}

fn io(locations: &[u32]) -> IoShape {
    IoShape {
        location: None,
        members: locations.iter().map(|l| Some(*l)).collect(),
    }
}

fn module(outputs: &[u32], inputs: &[u32]) -> ModuleShape {
    ModuleShape {
        globals: vec![],
        result: Some(io(outputs)),
        arguments: vec![io(inputs)],
    }
}

fn stage(module: ModuleShape, attributes: &[&str]) -> Translated {
    let mut active_combos = Table::new();
    active_combos.insert("BLUR", 1);
    Translated {
        module,
        attributes: attributes
            .iter()
            .enumerate()
            .map(|(i, n)| Attribute {
                name: n.to_string(),
                location: i as u32,
            })
            .collect(),
        active_combos,
    }
}

#[test]
fn declared_links_are_found() {
    assert_eq!(varying_decl_name("varying vec2 v_TexCoord;").as_deref(), Some("v_TexCoord"));
    assert_eq!(varying_decl_name("uniform vec2 u;"), None);
    assert!(has_array_varying("varying vec2 v[3];\n"));
    assert!(!has_array_varying("varying vec2 v;\n"));
}

#[test]
fn linked_declarations_get_the_same_location() {
    let vs = "varying vec2 b;\nvarying vec2 a;\nvoid main() {}\n";
    let fs = "varying vec2 a;\nvarying vec2 b;\nvoid main() {}\n";
    let (v, f) = pin_varying_locations(vs, fs);
    let location = |src: &str, name: &str| -> String {
        let line = lines(src)
            .into_iter()
            .find(|l| l.contains(&format!(" {};", name)))
            .unwrap();
        assert!(line.contains("location"), "{}", line);
        line.chars().filter(|c| c.is_ascii_digit()).next().unwrap().to_string()
    };
    assert_eq!(location(&v, "a"), location(&f, "a"));
    assert_eq!(location(&v, "b"), location(&f, "b"));
    assert_ne!(location(&v, "a"), location(&v, "b"));
}

#[test]
fn unused_inputs_are_dropped() {
    let vs = "varying vec2 a;\nvoid main() { a = vec2(0.0); }\n";
    let fs = "varying vec2 a;\nvarying vec2 dead;\nvoid main() { gl_FragColor = vec4(a, 0.0, 1.0); }\n";
    let out = strip_dead_fs_varyings(vs, fs);
    assert!(!out.contains("dead"), "{}", out);
    assert!(out.contains("varying vec2 a;"));
}

#[test]
fn plain_sources_stay_as_they_are() {
    let src = "uniform float x;\nvoid main() {\n    gl_FragColor = vec4(x);\n}";
    assert_eq!(sanitize_glsl(src, Stage::Fragment), src);
    assert_eq!(
        sanitize_glsl("const vec2 f(vec2 p) {\nconst float x = 1.0;\n", Stage::Vertex),
        "vec2 f(vec2 p) {\nconst float x = 1.0;"
    );
    assert_eq!(sanitize_glsl("gl_Position.x", Stage::Fragment), "gl_FragCoord.x");
}

#[test]
fn text_tools_of_sources() {
    assert_eq!(lines("a\r\nb\n\nc"), ["a", "b", "", "c"]);
    assert_eq!(count_matches("aaaa", "aa"), 2);
    assert_eq!(replace_text("a-b-c", "-", "+"), "a+b+c");
    assert!(is_const_return_function("vec3 f(vec2 p) {"));
    assert!(!is_const_return_function("float x = 1.0;"));
}

#[test]
fn locations_of_both_sides() {
    let m = ModuleShape {
        globals: vec![],
        result: Some(IoShape {
            location: Some(4),
            members: vec![Some(9)],
        }),
        arguments: vec![io(&[2, 0]), IoShape { location: None, members: vec![None] }],
    };
    assert_eq!(io_locations(&m, IoDir::Output), [4]);
    assert_eq!(io_locations(&m, IoDir::Input), [0, 2]);
}

#[test]
fn stages_must_agree() {
    let vs = module(&[0, 1], &[]);
    assert!(check_interface(&vs, &module(&[], &[0, 1]), 16).is_none());
    let e = check_interface(&vs, &module(&[], &[0, 3]), 16).unwrap();
    assert!(matches!(e, PassBuildError::InterfaceMismatch(3)));
    assert_eq!(
        e.message(),
        "VS/FS interface mismatch: fragment reads location 3 the vertex stage does not write"
    );
    let far = module(&[0, 16], &[]);
    let e = check_interface(&far, &module(&[], &[0]), 16).unwrap();
    assert!(matches!(e, PassBuildError::TooManyVaryings(16, 16)));
    assert_eq!(e.message(), "inter-stage location 16 exceeds the device limit (16)");
    assert_eq!(highest_location(&far, &module(&[], &[0])), Some(16));
}

#[test]
fn bindings_are_listed_once_in_order() {
    let global = |binding: Option<u32>, space: Space, ty: TypeShape| GlobalShape { binding, space, ty };
    let m = ModuleShape {
        globals: vec![
            global(Some(2), Space::Handle, TypeShape::Sampler),
            global(Some(1), Space::Handle, TypeShape::Image),
            global(
                Some(0),
                Space::Uniform,
                TypeShape::Block {
                    members: vec![MemberShape {
                        name: Some("g_Time".to_owned()),
                        offset: 16,
                    }],
                    span: 32,
                },
            ),
            global(None, Space::Other, TypeShape::Other),
        ],
        result: None,
        arguments: vec![],
    };
    let b = module_bindings(&m);
    let shown: Vec<(u32, BindKind)> = b.iter().map(|x| (x.binding, x.kind)).collect();
    assert_eq!(
        shown,
        [(0, BindKind::Ubo), (1, BindKind::Texture), (2, BindKind::Sampler)]
    );
    let layout = globals_layout(&m, &vec!["g_Time".to_owned()]).unwrap();
    assert_eq!(layout.size, 32);
    assert_eq!(layout.members[0].name, "g_Time");
    assert_eq!(layout.members[0].offset, 16);
}

#[test]
fn vertices_are_read_by_name() {
    let flat = stage(module(&[], &[]), &["a_TexCoord", "a_Position"]);
    let v = vertex_input(PassKind::Flat, &flat.attributes).unwrap();
    assert_eq!((v.pos_location, v.uv_location), (1, Some(0)));
    assert_eq!(v.stride, VERTEX_STRIDE);
    assert!(v
        .attributes
        .iter()
        .any(|a| a.shader_location == 1 && a.format == VertexFormat::Float32x3 && a.offset == 0));
    let mesh = stage(module(&[], &[]), &["a_Position", "a_Normal"]);
    assert!(vertex_input(PassKind::Flat, &mesh.attributes).is_err());
    let m = vertex_input(PassKind::Model, &mesh.attributes).unwrap();
    assert_eq!(m.stride, MODEL_VERTEX_STRIDE);
}

#[test]
fn translations_are_told_of_combos_and_slots() {
    let inputs = shader_inputs(&pass());
    assert_eq!(inputs.combos.get("BLUR"), Some(&1));
    assert_eq!(inputs.populated_texture_slots, [0, 2]);
}

#[test]
fn defines_of_both_stages_are_united() {
    let mut vs = Table::new();
    vs.insert("A", 0);
    vs.insert("B", 2);
    let mut fs = Table::new();
    fs.insert("A", 3);
    fs.insert("B", 5);
    let u = unite_combos(&vs, &fs);
    assert_eq!(u.get("A"), Some(&3));
    assert_eq!(u.get("B"), Some(&5));
}

#[test]
fn agreeing_stages_are_built_at_once() {
    let b = build_pass(&pass(), "void main() {}", "void main() {}");
    assert_eq!(b.phase, BuildPhase::Independent);
    let vs = stage(module(&[0], &[]), &["a_Position"]);
    let fs = stage(module(&[], &[0]), &[]);
    assert!(matches!(b.step(&vs, &fs, 16), BuildStep::Built(_)));
}

#[test]
fn disagreeing_stages_are_translated_again() {
    let vs_src = "varying vec2 a;\nvoid main() {}\n";
    let fs_src = "varying vec2 a;\nvoid main() { a; }\n";
    let b = build_pass(&pass(), vs_src, fs_src);
    let vs = stage(module(&[0], &[]), &["a_Position"]);
    let fs = stage(module(&[], &[1]), &[]);
    let BuildStep::Again(b) = b.step(&vs, &fs, 16) else {
        panic!()
    };
    assert_eq!(b.phase, BuildPhase::Probe);
    assert!(b.vs_src.contains("location"), "{}", b.vs_src);
    let BuildStep::Again(b) = b.step(&vs, &fs, 16) else {
        panic!()
    };
    assert_eq!(b.phase, BuildPhase::Program);
    assert_eq!(b.inputs.override_combos.get("BLUR"), Some(&1));
    let BuildStep::Failed(e) = b.step(&vs, &fs, 16) else {
        panic!()
    };
    assert!(matches!(e, PassBuildError::InterfaceMismatch(1)));
}

#[test]
fn meshes_learn_their_defines_first() {
    let b = build_model_pass(&pass(), "varying vec2 a;\n", "varying vec2 a;\n");
    assert_eq!(b.phase, BuildPhase::Probe);
    assert_eq!(b.kind, PassKind::Model);
    let e = PassBuildError::Translate("no".to_owned());
    assert_eq!(e.message(), "no");
}
