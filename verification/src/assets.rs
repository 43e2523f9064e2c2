//! Loading the files that scene objects refer to.
use vstd::prelude::*;

use crate::json::{Json, JsonView};
use crate::material::{
    EffectFile, EffectFileView, EffectPass, EffectPassView, Material, ModelFile, PassView,
};
use crate::object::{
    Effect, EffectView, ImageObject, ImageObjectView, Object, ObjectKind, ObjectKindView, ObjectView,
    ParticleObject, ParticleObjectView,
};
use crate::particle::{ParticleSystem, ParticleSystemView};
use crate::property::PropertyBag;
use crate::resolve::{resolve_objects, SceneModel};

verus! {

/// A source of asset-file bytes by relative path (a package, a directory, …).
pub trait AssetSource {
    /// The raw bytes of `path`, or nothing if it is not available.
    fn load(&self, path: &str) -> Option<Vec<u8>>;
}

/// An asset that could not be loaded or parsed.
#[derive(Debug)]
pub struct AssetProblem {
    /// The referenced asset path.
    pub path: String,
    /// Why it failed.
    pub reason: String,
}

/// What an [`AssetProblem`] holds.
pub struct ProblemView {
    /// The referenced asset path.
    pub path: Seq<char>,
    /// Why it failed.
    pub reason: Seq<char>,
}

/// What a list of problems holds.
pub open spec fn problem_views(v: Seq<AssetProblem>) -> Seq<ProblemView> {
    Seq::new(v.len(), |i: int| ProblemView { path: v[i].path@, reason: v[i].reason@ })
}

/// The bytes a source gave.
pub open spec fn bytes_of(b: Option<Vec<u8>>) -> Option<Seq<u8>> {
    match b {
        Some(v) => Some(v@),
        None => None,
    }
}

/// The source was asked for `path` and may have answered `answer`.
pub open spec fn answered<S: AssetSource>(source: &S, path: Seq<char>, answer: Option<Seq<u8>>) -> bool {
    exists|p: &str, b: Option<Vec<u8>>|
        p@ == path && #[trigger] call_ensures(S::load, (source, p), b) && bytes_of(b) == answer
}

/// The JSON value in the bytes of an asset.
pub open spec fn asset_value(answer: Option<Seq<u8>>) -> Option<JsonView> {
    match answer {
        Some(bytes) => match crate::json::json_parsed(bytes) {
            Ok(v) => Some(v),
            Err(_) => None,
        },
        None => None,
    }
}

/// The problems with an asset: none when it holds JSON.
pub open spec fn asset_problems(path: Seq<char>, answer: Option<Seq<u8>>) -> Seq<ProblemView> {
    match answer {
        Some(bytes) => match crate::json::json_parsed(bytes) {
            Ok(_) => Seq::empty(),
            Err(e) => seq![ProblemView { path, reason: "invalid JSON: "@ + e }],
        },
        None => seq![ProblemView { path, reason: "asset not found"@ }],
    }
}

/// Parse the bytes that a source gave for `path`, recording why that failed.
pub fn decode_asset(path: &str, bytes: Option<Vec<u8>>, problems: &mut Vec<AssetProblem>) -> (r: Option<Json>)
    ensures
        crate::json::shown(opt_ref(&r)) == asset_value(bytes_of(bytes)),
        problem_views(final(problems)@) == problem_views(old(problems)@) + asset_problems(
            path@,
            bytes_of(bytes),
        ),
{
    let ghost before = problem_views(problems@);
    match bytes {
        None => {
            problems.push(AssetProblem { path: path.to_owned(), reason: "asset not found".to_owned() });
            assert(problem_views(problems@) =~= before + asset_problems(path@, None));
            None
        },
        Some(bytes) => match Json::from_slice(bytes.as_slice()) {
            Ok(v) => {
                assert(problem_views(problems@) =~= before + asset_problems(path@, Some(bytes@)));
                Some(v)
            },
            Err(e) => {
                let mut reason = "invalid JSON: ".to_owned();
                reason.append(e.as_str());
                problems.push(AssetProblem { path: path.to_owned(), reason });
                assert(problem_views(problems@) =~= before + asset_problems(path@, Some(bytes@)));
                None
            },
        },
    }
}

/// An option by reference.
pub open spec fn opt_ref(v: &Option<Json>) -> Option<&Json> {
    match v {
        Some(j) => Some(j),
        None => None,
    }
}

/// Asking `source` for `path` gave `value` and took the problems from
/// `before` to `after`.
pub open spec fn fetched<S: AssetSource>(
    source: &S,
    path: Seq<char>,
    value: Option<JsonView>,
    before: Seq<ProblemView>,
    after: Seq<ProblemView>,
) -> bool {
    exists|answer: Option<Seq<u8>>| #[trigger]
        answered(source, path, answer) && value == asset_value(answer) && after == before
            + asset_problems(path, answer)
}

/// Load and parse a JSON asset, recording a problem on failure.
pub fn load_json<S: AssetSource>(source: &S, path: &str, problems: &mut Vec<AssetProblem>) -> (r: Option<
    Json,
>)
    ensures
        fetched(
            source,
            path@,
            crate::json::shown(opt_ref(&r)),
            problem_views(old(problems)@),
            problem_views(final(problems)@),
        ),
{
    let bytes = source.load(path);
    assert(call_ensures(S::load, (source, path), bytes));
    assert(answered(source, path@, bytes_of(bytes)));
    decode_asset(path, bytes, problems)
}

/// The passes of the material in a JSON value.
pub open spec fn material_in(v: Option<JsonView>) -> Option<Seq<PassView>> {
    match v {
        Some(v) => Some(crate::material::passes_of(crate::json::field(v, "passes"@))),
        None => None,
    }
}

/// Load a material file.
fn load_material<S: AssetSource>(source: &S, path: &str, problems: &mut Vec<AssetProblem>) -> (r: Option<
    Material,
>)
    ensures
        crate::material::opt_material_wf(r),
        exists|value: Option<JsonView>| #[trigger]
            fetched(
                source,
                path@,
                value,
                problem_views(old(problems)@),
                problem_views(final(problems)@),
            ) && crate::material::opt_material(r) == material_in(value),
{
    let value = load_json(source, path, problems);
    let ghost shown = crate::json::shown(opt_ref(&value));
    assert(fetched(source, path@, shown, problem_views(old(problems)@), problem_views(problems@)));
    match value {
        Some(v) => Some(Material::from_value(&v)),
        None => None,
    }
}

/// The first of two options that is there.
pub open spec fn first_of<T>(a: Option<T>, b: Option<T>) -> Option<T> {
    match a {
        Some(_) => a,
        None => b,
    }
}

/// What loading the model file of an image and then its material did. A file
/// that fails leaves its part of the image as it was.
pub open spec fn model_loaded<S: AssetSource>(
    source: &S,
    was: ImageObjectView,
    now: ImageObjectView,
    before: Seq<ProblemView>,
    after: Seq<ProblemView>,
) -> bool {
    exists|value: Option<JsonView>, mid: Seq<ProblemView>| #[trigger]
        fetched(source, was.image, value, before, mid) && match value {
            None => now == was && after == mid,
            Some(v) => match crate::material::model_file_of(v) {
                None => now == was && after == mid.push(
                    ProblemView {
                        path: was.image,
                        reason: "model file: required key `material` missing"@,
                    },
                ),
                Some(m) => exists|material: Option<JsonView>| #[trigger]
                    fetched(source, m.material, material, mid, after) && now == (ImageObjectView {
                        model: Some(m),
                        material: first_of(material_in(material), was.material),
                        ..was
                    }),
            },
        }
}

/// Load an image object's model file and the material it names.
fn load_model<S: AssetSource>(img: &mut ImageObject, source: &S, problems: &mut Vec<AssetProblem>)
    requires
        old(img).wf(),
    ensures
        final(img).wf(),
        model_loaded(
            source,
            old(img)@,
            final(img)@,
            problem_views(old(problems)@),
            problem_views(final(problems)@),
        ),
{
    let ghost was = img@;
    let ghost before = problem_views(problems@);
    let value = load_json(source, img.image.as_str(), problems);
    let ghost mid = problem_views(problems@);
    assert(fetched(source, was.image, crate::json::shown(opt_ref(&value)), before, mid));
    match value {
        None => {},
        Some(value) => match ModelFile::from_value(&value) {
            Ok(model) => {
                let loaded = load_material(source, model.material.as_str(), problems);
                let ghost after = problem_views(problems@);
                let ghost found = choose|v: Option<JsonView>| #[trigger]
                    fetched(source, model@.material, v, mid, after) && crate::material::opt_material(
                        loaded,
                    ) == material_in(v);
                assert(fetched(source, model@.material, found, mid, after));
                match loaded {
                    Some(m) => {
                        img.material = Some(m);
                    },
                    None => {},
                }
                let ghost shown = model@;
                img.model = Some(model);
                assert(img@ == (ImageObjectView {
                    model: Some(shown),
                    material: first_of(material_in(found), was.material),
                    ..was
                }));
            },
            Err(e) => {
                problems.push(AssetProblem { path: img.image.clone(), reason: e.message() });
                assert(problem_views(problems@) =~= mid.push(
                    ProblemView {
                        path: img@.image,
                        reason: "model file: required key `material` missing"@,
                    },
                ));
            },
        },
    }
}

/// What loading the material of an effect pass did.
pub open spec fn effect_pass_loaded<S: AssetSource>(
    source: &S,
    was: EffectPassView,
    now: EffectPassView,
    before: Seq<ProblemView>,
    after: Seq<ProblemView>,
) -> bool {
    match was.material {
        None => now == was && after == before,
        Some(path) => exists|value: Option<JsonView>| #[trigger]
            fetched(source, path, value, before, after) && now == (EffectPassView {
                resolved: first_of(material_in(value), was.resolved),
                ..was
            }),
    }
}

/// Load the material of an effect pass.
fn load_effect_pass<S: AssetSource>(pass: &mut EffectPass, source: &S, problems: &mut Vec<AssetProblem>)
    requires
        old(pass).wf(),
    ensures
        final(pass).wf(),
        effect_pass_loaded(
            source,
            old(pass)@,
            final(pass)@,
            problem_views(old(problems)@),
            problem_views(final(problems)@),
        ),
{
    let ghost was = pass@;
    let ghost before = problem_views(problems@);
    let ghost mut found: Option<JsonView> = None;
    let loaded = match &pass.material {
        Some(path) => {
            let m = load_material(source, path.as_str(), problems);
            proof {
                found = choose|v: Option<JsonView>| #[trigger]
                    fetched(source, path@, v, before, problem_views(problems@))
                        && crate::material::opt_material(m) == material_in(v);
                assert(fetched(source, was.material->0, found, before, problem_views(problems@)));
            }
            m
        },
        None => None,
    };
    match loaded {
        Some(m) => {
            pass.resolved = Some(m);
        },
        None => {},
    }
}

/// What loading the materials of a list of effect passes did, one after the
/// other; `chain` are the problems before each and after the last.
pub open spec fn effect_passes_loaded<S: AssetSource>(
    source: &S,
    was: Seq<EffectPassView>,
    now: Seq<EffectPassView>,
    chain: Seq<Seq<ProblemView>>,
) -> bool {
    &&& now.len() == was.len()
    &&& chain.len() == was.len() + 1
    &&& forall|i: int|
        0 <= i < was.len() ==> effect_pass_loaded(
            source,
            #[trigger] was[i],
            now[i],
            chain[i],
            chain[i + 1],
        )
}

/// What loading an effect file and its materials did.
pub open spec fn effect_loaded<S: AssetSource>(
    source: &S,
    was: EffectView,
    now: EffectView,
    before: Seq<ProblemView>,
    after: Seq<ProblemView>,
) -> bool {
    exists|value: Option<JsonView>, mid: Seq<ProblemView>| #[trigger]
        fetched(source, was.file, value, before, mid) && match value {
            None => now == was && after == mid,
            Some(v) => exists|passes: Seq<EffectPassView>, chain: Seq<Seq<ProblemView>>| #[trigger]
                effect_passes_loaded(
                    source,
                    crate::material::effect_file_of(v).passes,
                    passes,
                    chain,
                ) && chain[0] == mid && chain.last() == after && now == (EffectView {
                    resolved: Some(
                        EffectFileView { passes, ..crate::material::effect_file_of(v) },
                    ),
                    ..was
                }),
        }
}

/// Load the materials of an effect file.
fn load_effect_passes<S: AssetSource>(file: &mut EffectFile, source: &S, problems: &mut Vec<AssetProblem>)
    requires
        old(file).wf(),
    ensures
        final(file).wf(),
        final(file)@ == (EffectFileView { passes: final(file)@.passes, ..old(file)@ }),
        exists|chain: Seq<Seq<ProblemView>>| #[trigger]
            effect_passes_loaded(source, old(file)@.passes, final(file)@.passes, chain) && chain[0]
                == problem_views(old(problems)@) && chain.last() == problem_views(final(problems)@),
{
    let ghost first = file@;
    let ghost was = file.passes@;
    let ghost mut chain: Seq<Seq<ProblemView>> = seq![problem_views(problems@)];
    let mut i: usize = 0;
    while i < file.passes.len()
        invariant
            i <= file.passes@.len(),
            file.passes@.len() == was.len(),
            crate::material::effect_passes_wf(file.passes@),
            file@ == (EffectFileView { passes: file@.passes, ..first }),
            first.passes == crate::material::effect_pass_views(was),
            chain.len() == i + 1,
            chain[0] == problem_views(old(problems)@),
            chain.last() == problem_views(problems@),
            forall|k: int|
                0 <= k < i ==> effect_pass_loaded(
                    source,
                    #[trigger] was[k]@,
                    file.passes@[k]@,
                    chain[k],
                    chain[k + 1],
                ),
            forall|k: int| i <= k < was.len() ==> #[trigger] file.passes@[k] == was[k],
        decreases file.passes@.len() - i,
    {
        let ghost before = file.passes@;
        let ghost old_chain = chain;
        assert(before[i as int].wf());
        load_effect_pass(&mut file.passes[i], source, problems);
        proof {
            chain = chain.push(problem_views(problems@));
            assert forall|k: int| 0 <= k < file.passes@.len() implies (#[trigger] file.passes@[k]).wf() by {
                if k != i {
                    assert(file.passes@[k] == before[k]);
                }
            }
            assert forall|k: int| 0 <= k < i + 1 implies effect_pass_loaded(
                source,
                #[trigger] was[k]@,
                file.passes@[k]@,
                chain[k],
                chain[k + 1],
            ) by {
                if k < i {
                    assert(file.passes@[k] == before[k]);
                    assert(chain[k] == old_chain[k] && chain[k + 1] == old_chain[k + 1]);
                }
            }
        }
        i = i + 1;
    }
    proof {
        let views = crate::material::effect_pass_views(was);
        assert forall|k: int| 0 <= k < views.len() implies effect_pass_loaded(
            source,
            #[trigger] views[k],
            file@.passes[k],
            chain[k],
            chain[k + 1],
        ) by {
            assert(views[k] == was[k]@);
        }
        assert(effect_passes_loaded(source, views, file@.passes, chain));
    }
}

/// Load an effect file and its materials.
fn load_effect<S: AssetSource>(effect: &mut Effect, source: &S, problems: &mut Vec<AssetProblem>)
    requires
        old(effect).wf(),
    ensures
        final(effect).wf(),
        effect_loaded(
            source,
            old(effect)@,
            final(effect)@,
            problem_views(old(problems)@),
            problem_views(final(problems)@),
        ),
{
    let ghost before = problem_views(problems@);
    let value = load_json(source, effect.file.as_str(), problems);
    let ghost mid = problem_views(problems@);
    assert(fetched(source, effect@.file, crate::json::shown(opt_ref(&value)), before, mid));
    match value {
        None => {},
        Some(value) => {
            let mut file = EffectFile::from_value(&value);
            load_effect_passes(&mut file, source, problems);
            effect.resolved = Some(file);
        },
    }
}

/// What loading the effects of an image did, one after the other.
pub open spec fn effects_loaded<S: AssetSource>(
    source: &S,
    was: Seq<EffectView>,
    now: Seq<EffectView>,
    chain: Seq<Seq<ProblemView>>,
) -> bool {
    &&& now.len() == was.len()
    &&& chain.len() == was.len() + 1
    &&& forall|i: int|
        0 <= i < was.len() ==> effect_loaded(source, #[trigger] was[i], now[i], chain[i], chain[i + 1])
}

/// What loading the files of an image did: its model, the model's material,
/// then each effect.
pub open spec fn image_loaded<S: AssetSource>(
    source: &S,
    was: ImageObjectView,
    now: ImageObjectView,
    before: Seq<ProblemView>,
    after: Seq<ProblemView>,
) -> bool {
    exists|with_model: ImageObjectView, chain: Seq<Seq<ProblemView>>|
        model_loaded(source, was, with_model, before, chain[0]) && #[trigger] effects_loaded(
            source,
            with_model.effects,
            now.effects,
            chain,
        ) && chain.last() == after && now == (ImageObjectView { effects: now.effects, ..with_model })
}

/// Load an image object's model file, its material, and every effect file with
/// its materials.
fn load_image_assets<S: AssetSource>(img: &mut ImageObject, source: &S, problems: &mut Vec<AssetProblem>)
    requires
        old(img).wf(),
    ensures
        final(img).wf(),
        image_loaded(
            source,
            old(img)@,
            final(img)@,
            problem_views(old(problems)@),
            problem_views(final(problems)@),
        ),
{
    load_model(img, source, problems);
    let ghost with_model = img@;
    let ghost was = img.effects@;
    let ghost mut chain: Seq<Seq<ProblemView>> = seq![problem_views(problems@)];
    let ghost start = chain[0];
    let mut i: usize = 0;
    while i < img.effects.len()
        invariant
            i <= img.effects@.len(),
            img.effects@.len() == was.len(),
            img.wf(),
            img@ == (ImageObjectView { effects: img@.effects, ..with_model }),
            with_model.effects == crate::object::effect_views(was),
            chain.len() == i + 1,
            chain[0] == start,
            chain.last() == problem_views(problems@),
            forall|k: int|
                0 <= k < i ==> effect_loaded(
                    source,
                    #[trigger] was[k]@,
                    img.effects@[k]@,
                    chain[k],
                    chain[k + 1],
                ),
            forall|k: int| i <= k < was.len() ==> #[trigger] img.effects@[k] == was[k],
        decreases img.effects@.len() - i,
    {
        let ghost before = img.effects@;
        let ghost old_chain = chain;
        assert(before[i as int].wf());
        load_effect(&mut img.effects[i], source, problems);
        proof {
            chain = chain.push(problem_views(problems@));
            assert forall|k: int| 0 <= k < img.effects@.len() implies (#[trigger] img.effects@[k]).wf() by {
                if k != i {
                    assert(img.effects@[k] == before[k]);
                }
            }
            assert forall|k: int| 0 <= k < i + 1 implies effect_loaded(
                source,
                #[trigger] was[k]@,
                img.effects@[k]@,
                chain[k],
                chain[k + 1],
            ) by {
                if k < i {
                    assert(img.effects@[k] == before[k]);
                    assert(chain[k] == old_chain[k] && chain[k + 1] == old_chain[k + 1]);
                }
            }
        }
        i = i + 1;
    }
    proof {
        let views = crate::object::effect_views(was);
        assert forall|k: int| 0 <= k < views.len() implies effect_loaded(
            source,
            #[trigger] views[k],
            img@.effects[k],
            chain[k],
            chain[k + 1],
        ) by {
            assert(views[k] == was[k]@);
        }
        assert(effects_loaded(source, with_model.effects, img@.effects, chain));
    }
}

/// What loading the definition of a particle system from its file did.
pub open spec fn definition_loaded<S: AssetSource>(
    source: &S,
    was: ParticleObjectView,
    now: ParticleObjectView,
    before: Seq<ProblemView>,
    after: Seq<ProblemView>,
) -> bool {
    match was.particle_file {
        None => now == was && after == before,
        Some(path) => exists|value: Option<JsonView>| #[trigger]
            fetched(source, path, value, before, after) && now == (match value {
                Some(v) => ParticleObjectView {
                    system: crate::particle::particle_system_of(v),
                    ..was
                },
                None => was,
            }),
    }
}

/// What loading the material of a particle system did.
pub open spec fn system_material_loaded<S: AssetSource>(
    source: &S,
    was: ParticleObjectView,
    now: ParticleObjectView,
    before: Seq<ProblemView>,
    after: Seq<ProblemView>,
) -> bool {
    match was.system.material {
        None => now == was && after == before,
        Some(path) => exists|value: Option<JsonView>| #[trigger]
            fetched(source, path, value, before, after) && now == (ParticleObjectView {
                system: ParticleSystemView {
                    resolved_material: first_of(material_in(value), was.system.resolved_material),
                    ..was.system
                },
                ..was
            }),
    }
}

/// What loading the files of a particle object did: its definition, then the
/// material that names.
pub open spec fn particle_loaded<S: AssetSource>(
    source: &S,
    was: ParticleObjectView,
    now: ParticleObjectView,
    before: Seq<ProblemView>,
    after: Seq<ProblemView>,
) -> bool {
    exists|defined: ParticleObjectView, mid: Seq<ProblemView>| #[trigger]
        definition_loaded(source, was, defined, before, mid) && system_material_loaded(
            source,
            defined,
            now,
            mid,
            after,
        )
}

/// Load a particle object's definition, if it is in a file, and its material.
fn load_particle_assets<S: AssetSource>(
    p: &mut ParticleObject,
    source: &S,
    problems: &mut Vec<AssetProblem>,
)
    requires
        old(p).system.wf(),
    ensures
        final(p).system.wf(),
        particle_loaded(
            source,
            old(p)@,
            final(p)@,
            problem_views(old(problems)@),
            problem_views(final(problems)@),
        ),
{
    let ghost was = p@;
    let ghost before = problem_views(problems@);
    let definition = match &p.particle_file {
        Some(path) => load_json(source, path.as_str(), problems),
        None => None,
    };
    proof {
        if was.particle_file is Some {
            assert(fetched(
                source,
                was.particle_file->0,
                crate::json::shown(opt_ref(&definition)),
                before,
                problem_views(problems@),
            ));
        }
    }
    match definition {
        Some(value) => {
            p.system = ParticleSystem::from_value(&value);
        },
        None => {},
    }
    let ghost defined = p@;
    let ghost mid = problem_views(problems@);
    assert(definition_loaded(source, was, defined, before, mid));
    let ghost mut found: Option<JsonView> = None;
    let material = match &p.system.material {
        Some(path) => {
            let m = load_material(source, path.as_str(), problems);
            proof {
                found = choose|v: Option<JsonView>| #[trigger]
                    fetched(source, path@, v, mid, problem_views(problems@))
                        && crate::material::opt_material(m) == material_in(v);
                assert(fetched(
                    source,
                    defined.system.material->0,
                    found,
                    mid,
                    problem_views(problems@),
                ));
            }
            m
        },
        None => None,
    };
    match material {
        Some(m) => {
            p.system.resolved_material = Some(m);
        },
        None => {},
    }
}

/// What loading the files of an object did. Only images and particle systems
/// refer to files.
pub open spec fn object_loaded<S: AssetSource>(
    source: &S,
    was: ObjectView,
    now: ObjectView,
    before: Seq<ProblemView>,
    after: Seq<ProblemView>,
) -> bool {
    match was.kind {
        ObjectKindView::Image(i) => exists|j: ImageObjectView| #[trigger]
            image_loaded(source, i, j, before, after) && now == (ObjectView {
                kind: ObjectKindView::Image(j),
                ..was
            }),
        ObjectKindView::Particle(p) => exists|q: ParticleObjectView| #[trigger]
            particle_loaded(source, p, q, before, after) && now == (ObjectView {
                kind: ObjectKindView::Particle(q),
                ..was
            }),
        _ => now == was && after == before,
    }
}

/// Load the files an object refers to.
fn load_object_assets<S: AssetSource>(o: &mut Object, source: &S, problems: &mut Vec<AssetProblem>)
    requires
        old(o).wf(),
    ensures
        final(o).wf(),
        object_loaded(
            source,
            old(o)@,
            final(o)@,
            problem_views(old(problems)@),
            problem_views(final(problems)@),
        ),
{
    match &mut o.kind {
        ObjectKind::Image(img) => load_image_assets(img, source, problems),
        ObjectKind::Particle(p) => load_particle_assets(p, source, problems),
        _ => {},
    }
}

/// What loading the files of a list of objects did, one after the other.
pub open spec fn objects_loaded<S: AssetSource>(
    source: &S,
    was: Seq<ObjectView>,
    now: Seq<ObjectView>,
    chain: Seq<Seq<ProblemView>>,
) -> bool {
    &&& now.len() == was.len()
    &&& chain.len() == was.len() + 1
    &&& forall|i: int|
        0 <= i < was.len() ==> object_loaded(source, #[trigger] was[i], now[i], chain[i], chain[i + 1])
}

impl SceneModel {
    /// Load every file that the objects refer to from `source`, then resolve
    /// the objects again, since the loaded materials carry bindings of their
    /// own. Returns the assets that could not be loaded or parsed.
    pub fn load_assets<S: AssetSource>(&mut self, source: &S, bag: &PropertyBag) -> (problems: Vec<
        AssetProblem,
    >)
        requires
            old(self).wf(),
            bag.wf(),
        ensures
            final(self).wf(),
            final(self).scene.camera == old(self).scene.camera,
            final(self).scene.general == old(self).scene.general,
            exists|loaded: Seq<ObjectView>, chain: Seq<Seq<ProblemView>>| #[trigger]
                objects_loaded(source, old(self).scene@.objects, loaded, chain) && chain[0]
                    == Seq::<ProblemView>::empty() && chain.last() == problem_views(problems@)
                    && final(self).scene@.objects == loaded.map_values(
                    |o: ObjectView| crate::resolve::resolved_object(o, bag@),
                ),
    {
        let mut problems: Vec<AssetProblem> = Vec::new();
        let ghost was = self.scene.objects@;
        let ghost mut chain: Seq<Seq<ProblemView>> = seq![problem_views(problems@)];
        assert(chain[0] =~= Seq::<ProblemView>::empty());
        let mut i: usize = 0;
        while i < self.scene.objects.len()
            invariant
                bag.wf(),
                i <= self.scene.objects@.len(),
                self.scene.objects@.len() == was.len(),
                self.wf(),
                self.scene.camera == old(self).scene.camera,
                self.scene.general == old(self).scene.general,
                chain.len() == i + 1,
                chain[0] == Seq::<ProblemView>::empty(),
                chain.last() == problem_views(problems@),
                forall|k: int|
                    0 <= k < i ==> object_loaded(
                        source,
                        #[trigger] was[k]@,
                        self.scene.objects@[k]@,
                        chain[k],
                        chain[k + 1],
                    ),
                forall|k: int| i <= k < was.len() ==> #[trigger] self.scene.objects@[k] == was[k],
            decreases self.scene.objects@.len() - i,
        {
            let ghost before = self.scene.objects@;
            let ghost old_chain = chain;
            assert(before[i as int].wf());
            load_object_assets(&mut self.scene.objects[i], source, &mut problems);
            proof {
                chain = chain.push(problem_views(problems@));
                assert forall|k: int| 0 <= k < self.scene.objects@.len() implies (
                #[trigger] self.scene.objects@[k]).wf() by {
                    if k != i {
                        assert(self.scene.objects@[k] == before[k]);
                    }
                }
                assert forall|k: int| 0 <= k < i + 1 implies object_loaded(
                    source,
                    #[trigger] was[k]@,
                    self.scene.objects@[k]@,
                    chain[k],
                    chain[k + 1],
                ) by {
                    if k < i {
                        assert(self.scene.objects@[k] == before[k]);
                        assert(chain[k] == old_chain[k] && chain[k + 1] == old_chain[k + 1]);
                    }
                }
            }
            i = i + 1;
        }
        let ghost loaded = crate::scene::object_views(self.scene.objects@);
        proof {
            let views = crate::scene::object_views(was);
            assert forall|k: int| 0 <= k < views.len() implies object_loaded(
                source,
                #[trigger] views[k],
                loaded[k],
                chain[k],
                chain[k + 1],
            ) by {
                assert(views[k] == was[k]@);
                assert(loaded[k] == self.scene.objects@[k]@);
            }
            assert(views == old(self).scene@.objects);
            assert(objects_loaded(source, old(self).scene@.objects, loaded, chain));
        }
        resolve_objects(&mut self.scene.objects, bag);
        assert(self.scene@.objects =~= loaded.map_values(
            |o: ObjectView| crate::resolve::resolved_object(o, bag@),
        ));
        problems
    }
}

/// Whether a source gives for every path what a map of files holds.
pub open spec fn serves<S: AssetSource>(source: &S, files: Map<Seq<char>, Seq<u8>>) -> bool {
    forall|path: Seq<char>, answer: Option<Seq<u8>>| #[trigger]
        answered(source, path, answer) ==> answer == (if files.dom().contains(path) {
            Some(files[path])
        } else {
            None
        })
}

/// The JSON value in a file, where there is one.
pub open spec fn value_in(files: Map<Seq<char>, Seq<u8>>, path: Seq<char>) -> Option<JsonView> {
    if files.dom().contains(path) && crate::json::json_parsed(files[path]) is Ok {
        Some(crate::json::json_parsed(files[path])->Ok_0)
    } else {
        None
    }
}

/// Asking for a file gives the value in it. What cannot be given is recorded, as
/// not found or as no JSON, behind what was recorded before.
pub proof fn law_asset_or_problem<S: AssetSource>(
    source: &S,
    files: Map<Seq<char>, Seq<u8>>,
    path: Seq<char>,
    value: Option<JsonView>,
    before: Seq<ProblemView>,
    after: Seq<ProblemView>,
)
    requires
        serves(source, files),
        fetched(source, path, value, before, after),
    ensures
        value == value_in(files, path),
        value is Some ==> after == before,
        value is None ==> after.len() == before.len() + 1 && after.drop_last() == before
            && after.last().path == path,
        !files.dom().contains(path) ==> after.last().reason == "asset not found"@,
        value is None && files.dom().contains(path) ==> after.last().reason == "invalid JSON: "@
            + crate::json::json_parsed(files[path])->Err_0,
{
    let answer = choose|answer: Option<Seq<u8>>| #[trigger]
        answered(source, path, answer) && value == asset_value(answer) && after == before
            + asset_problems(path, answer);
    if value is Some {
        assert(after =~= before);
    } else {
        assert(after.drop_last() =~= before);
    }
}

/// An image takes its model from the file that it names, and its material from
/// the file that the model names. A file that fails leaves its part as it was,
/// and nothing else of the image changes.
pub proof fn law_image_takes_model<S: AssetSource>(
    source: &S,
    files: Map<Seq<char>, Seq<u8>>,
    was: ImageObjectView,
    now: ImageObjectView,
    before: Seq<ProblemView>,
    after: Seq<ProblemView>,
)
    requires
        serves(source, files),
        model_loaded(source, was, now, before, after),
    ensures
        ({
            let v = value_in(files, was.image);
            let m = crate::material::model_file_of(v->0);
            let w = value_in(files, m->0.material);
            &&& v is None ==> now == was && after.len() == before.len() + 1
            &&& v is Some && m is None ==> now == was && after.len() == before.len() + 1
                && after.last().path == was.image && after.last().reason
                == "model file: required key `material` missing"@
            &&& v is Some && m is Some ==> now.model == m
            &&& v is Some && m is Some && w is Some ==> now.material == Some(
                crate::material::passes_of(crate::json::field(w->0, "passes"@)),
            ) && after == before
            &&& v is Some && m is Some && w is None ==> now.material == was.material && after.len()
                == before.len() + 1 && after.last().path == m->0.material
            &&& now == (ImageObjectView { model: now.model, material: now.material, ..was })
        }),
{
    let (value, mid) = choose|value: Option<JsonView>, mid: Seq<ProblemView>| #[trigger]
        fetched(source, was.image, value, before, mid) && match value {
            None => now == was && after == mid,
            Some(v) => match crate::material::model_file_of(v) {
                None => now == was && after == mid.push(
                    ProblemView {
                        path: was.image,
                        reason: "model file: required key `material` missing"@,
                    },
                ),
                Some(m) => exists|material: Option<JsonView>| #[trigger]
                    fetched(source, m.material, material, mid, after) && now == (ImageObjectView {
                        model: Some(m),
                        material: first_of(material_in(material), was.material),
                        ..was
                    }),
            },
        };
    law_asset_or_problem(source, files, was.image, value, before, mid);
    if value is Some {
        let m = crate::material::model_file_of(value->0);
        if m is Some {
            let material = choose|material: Option<JsonView>| #[trigger]
                fetched(source, m->0.material, material, mid, after) && now == (ImageObjectView {
                    model: m,
                    material: first_of(material_in(material), was.material),
                    ..was
                });
            law_asset_or_problem(source, files, m->0.material, material, mid, after);
        }
    }
}

/// A pass of an effect file takes its material from the file that it names; one
/// that names none, or whose file fails, stays as it was.
pub proof fn law_effect_pass_takes_material<S: AssetSource>(
    source: &S,
    files: Map<Seq<char>, Seq<u8>>,
    was: EffectPassView,
    now: EffectPassView,
    before: Seq<ProblemView>,
    after: Seq<ProblemView>,
)
    requires
        serves(source, files),
        effect_pass_loaded(source, was, now, before, after),
    ensures
        was.material is None ==> now == was && after == before,
        was.material matches Some(path) ==> value_in(files, path) is None ==> now == was,
        was.material matches Some(path) ==> value_in(files, path) matches Some(v) ==> now
            == (EffectPassView {
            resolved: Some(crate::material::passes_of(crate::json::field(v, "passes"@))),
            ..was
        }) && after == before,
{
    if was.material is Some {
        let path = was.material->0;
        let value = choose|value: Option<JsonView>| #[trigger]
            fetched(source, path, value, before, after) && now == (EffectPassView {
                resolved: first_of(material_in(value), was.resolved),
                ..was
            });
        law_asset_or_problem(source, files, path, value, before, after);
    }
}

/// An effect takes its file, and each pass of that its material; one whose file
/// fails stays as it was. What the object says of the effect stays.
pub proof fn law_effect_takes_file<S: AssetSource>(
    source: &S,
    files: Map<Seq<char>, Seq<u8>>,
    was: EffectView,
    now: EffectView,
    before: Seq<ProblemView>,
    after: Seq<ProblemView>,
)
    requires
        serves(source, files),
        effect_loaded(source, was, now, before, after),
    ensures
        now == (EffectView { resolved: now.resolved, ..was }),
        value_in(files, was.file) is None ==> now == was,
        value_in(files, was.file) matches Some(v) ==> {
            let file = crate::material::effect_file_of(v);
            &&& now.resolved is Some
            &&& now.resolved->0 == (EffectFileView { passes: now.resolved->0.passes, ..file })
            &&& now.resolved->0.passes.len() == file.passes.len()
            &&& forall|i: int|
                0 <= i < file.passes.len() ==> {
                    let pass = #[trigger] now.resolved->0.passes[i];
                    let path = file.passes[i].material;
                    &&& path is None ==> pass == file.passes[i]
                    &&& path is Some && value_in(files, path->0) is None ==> pass == file.passes[i]
                    &&& path is Some && value_in(files, path->0) is Some ==> pass
                        == (EffectPassView {
                        resolved: Some(
                            crate::material::passes_of(
                                crate::json::field(value_in(files, path->0)->0, "passes"@),
                            ),
                        ),
                        ..file.passes[i]
                    })
                }
        },
{
    let (value, mid) = choose|value: Option<JsonView>, mid: Seq<ProblemView>| #[trigger]
        fetched(source, was.file, value, before, mid) && match value {
            None => now == was && after == mid,
            Some(v) => exists|passes: Seq<EffectPassView>, chain: Seq<Seq<ProblemView>>| #[trigger]
                effect_passes_loaded(
                    source,
                    crate::material::effect_file_of(v).passes,
                    passes,
                    chain,
                ) && chain[0] == mid && chain.last() == after && now == (EffectView {
                    resolved: Some(
                        EffectFileView { passes, ..crate::material::effect_file_of(v) },
                    ),
                    ..was
                }),
        };
    law_asset_or_problem(source, files, was.file, value, before, mid);
    if value is Some {
        let file = crate::material::effect_file_of(value->0);
        let (passes, chain) = choose|passes: Seq<EffectPassView>, chain: Seq<Seq<ProblemView>>|
            #[trigger] effect_passes_loaded(source, file.passes, passes, chain) && chain[0] == mid
                && chain.last() == after && now == (EffectView {
                resolved: Some(EffectFileView { passes, ..file }),
                ..was
            });
        assert forall|i: int| 0 <= i < file.passes.len() implies {
            let pass = #[trigger] now.resolved->0.passes[i];
            let path = file.passes[i].material;
            &&& path is None ==> pass == file.passes[i]
            &&& path is Some && value_in(files, path->0) is None ==> pass == file.passes[i]
            &&& path is Some && value_in(files, path->0) is Some ==> pass == (EffectPassView {
                resolved: Some(
                    crate::material::passes_of(
                        crate::json::field(value_in(files, path->0)->0, "passes"@),
                    ),
                ),
                ..file.passes[i]
            })
        } by {
            law_effect_pass_takes_material(
                source,
                files,
                file.passes[i],
                passes[i],
                chain[i],
                chain[i + 1],
            );
        }
    }
}

/// An image takes its model and material, and each of its effects its file, and
/// nothing else of it changes.
pub proof fn law_image_takes_files<S: AssetSource>(
    source: &S,
    files: Map<Seq<char>, Seq<u8>>,
    was: ImageObjectView,
    now: ImageObjectView,
    before: Seq<ProblemView>,
    after: Seq<ProblemView>,
)
    requires
        serves(source, files),
        image_loaded(source, was, now, before, after),
    ensures
        ({
            let v = value_in(files, was.image);
            let m = crate::material::model_file_of(v->0);
            let w = value_in(files, m->0.material);
            &&& v is None || m is None ==> now.model == was.model && now.material == was.material
            &&& v is Some && m is Some ==> now.model == m
            &&& v is Some && m is Some && w is Some ==> now.material == Some(
                crate::material::passes_of(crate::json::field(w->0, "passes"@)),
            )
            &&& v is Some && m is Some && w is None ==> now.material == was.material
        }),
        now == (ImageObjectView {
            model: now.model,
            material: now.material,
            effects: now.effects,
            ..was
        }),
        now.effects.len() == was.effects.len(),
        forall|i: int|
            0 <= i < was.effects.len() ==> {
                let effect = #[trigger] now.effects[i];
                &&& effect == (EffectView { resolved: effect.resolved, ..was.effects[i] })
                &&& value_in(files, was.effects[i].file) is Some ==> effect.resolved is Some
                &&& value_in(files, was.effects[i].file) is None ==> effect == was.effects[i]
            },
{
    let (with_model, chain) = choose|with_model: ImageObjectView, chain: Seq<Seq<ProblemView>>|
        model_loaded(source, was, with_model, before, chain[0]) && #[trigger] effects_loaded(
            source,
            with_model.effects,
            now.effects,
            chain,
        ) && chain.last() == after && now == (ImageObjectView {
            effects: now.effects,
            ..with_model
        });
    law_image_takes_model(source, files, was, with_model, before, chain[0]);
    assert forall|i: int| 0 <= i < was.effects.len() implies {
        let effect = #[trigger] now.effects[i];
        &&& effect == (EffectView { resolved: effect.resolved, ..was.effects[i] })
        &&& value_in(files, was.effects[i].file) is Some ==> effect.resolved is Some
        &&& value_in(files, was.effects[i].file) is None ==> effect == was.effects[i]
    } by {
        law_effect_takes_file(
            source,
            files,
            was.effects[i],
            now.effects[i],
            chain[i],
            chain[i + 1],
        );
    }
}

/// A particle object takes its system from the file that it names, and the
/// system its material from the file that that names. A file that fails leaves
/// its part as it was, and nothing else of the object changes.
pub proof fn law_particle_takes_files<S: AssetSource>(
    source: &S,
    files: Map<Seq<char>, Seq<u8>>,
    was: ParticleObjectView,
    now: ParticleObjectView,
    before: Seq<ProblemView>,
    after: Seq<ProblemView>,
)
    requires
        serves(source, files),
        particle_loaded(source, was, now, before, after),
    ensures
        ({
            let from_file = was.particle_file is Some && value_in(
                files,
                was.particle_file->0,
            ) is Some;
            let system = if from_file {
                crate::particle::particle_system_of(value_in(files, was.particle_file->0)->0)
            } else {
                was.system
            };
            &&& now == (ParticleObjectView { system: now.system, ..was })
            &&& now.system == (ParticleSystemView {
                resolved_material: now.system.resolved_material,
                ..system
            })
            &&& system.material is None ==> now.system == system
            &&& system.material matches Some(path) ==> value_in(files, path) is None ==> now.system
                == system
            &&& system.material matches Some(path) ==> value_in(files, path) matches Some(v)
                ==> now.system.resolved_material == Some(
                crate::material::passes_of(crate::json::field(v, "passes"@)),
            )
        }),
{
    let (defined, mid) = choose|defined: ParticleObjectView, mid: Seq<ProblemView>| #[trigger]
        definition_loaded(source, was, defined, before, mid) && system_material_loaded(
            source,
            defined,
            now,
            mid,
            after,
        );
    if was.particle_file is Some {
        let path = was.particle_file->0;
        let value = choose|value: Option<JsonView>| #[trigger]
            fetched(source, path, value, before, mid) && defined == (match value {
                Some(v) => ParticleObjectView {
                    system: crate::particle::particle_system_of(v),
                    ..was
                },
                None => was,
            });
        law_asset_or_problem(source, files, path, value, before, mid);
    }
    if defined.system.material is Some {
        let path = defined.system.material->0;
        let value = choose|value: Option<JsonView>| #[trigger]
            fetched(source, path, value, mid, after) && now == (ParticleObjectView {
                system: ParticleSystemView {
                    resolved_material: first_of(
                        material_in(value),
                        defined.system.resolved_material,
                    ),
                    ..defined.system
                },
                ..defined
            });
        law_asset_or_problem(source, files, path, value, mid, after);
    }
}

/// Objects load one after the other, in order. Only images and particle systems
/// take files; base fields and what was read verbatim stay.
pub proof fn law_objects_take_files<S: AssetSource>(
    source: &S,
    was: Seq<ObjectView>,
    now: Seq<ObjectView>,
    chain: Seq<Seq<ProblemView>>,
    i: int,
)
    requires
        objects_loaded(source, was, now, chain),
        0 <= i < was.len(),
    ensures
        now.len() == was.len(),
        now[i].base == was[i].base,
        now[i].extra == was[i].extra,
        was[i].kind matches ObjectKindView::Image(a) ==> now[i].kind is Image && image_loaded(
            source,
            a,
            now[i].kind->Image_0,
            chain[i],
            chain[i + 1],
        ),
        was[i].kind matches ObjectKindView::Particle(a) ==> now[i].kind is Particle
            && particle_loaded(source, a, now[i].kind->Particle_0, chain[i], chain[i + 1]),
        !(was[i].kind is Image) && !(was[i].kind is Particle) ==> now[i] == was[i] && chain[i + 1]
            == chain[i],
{
    assert(object_loaded(source, was[i], now[i], chain[i], chain[i + 1]));
}

} // verus!
