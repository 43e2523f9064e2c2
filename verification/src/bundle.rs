//! Which prebuilt model belongs to a scene.
//!
//! A bundle holds a scene's model resolved against the defaults of its
//! project, and is found by a descriptor of everything that was read to build
//! it. Property values are no part of that: the model is resolved again after
//! it was taken from its bundle.
use vstd::prelude::*;

use crate::assets::{AssetSource, ProblemView};
use crate::json::JsonView;
use crate::material::EffectPassView;
use crate::object::{EffectView, ImageObjectView, ObjectKindView, ObjectView, ParticleObjectView};
use crate::particle::ParticleSystemView;
use crate::property::PropertyView;
use crate::scene::SceneView;

verus! {

/// The BLAKE3 digest of some bytes.
pub uninterp spec fn blake3_digest(bytes: Seq<u8>) -> Seq<u8>;

/// Calls `blake3::hash` and takes the bytes of its result (`Hash::as_bytes`):
/// the digest, 32 bytes that depend on the input alone.
#[verifier::external_body]
fn blake3_hash(bytes: &[u8]) -> (r: [u8; 32])
    ensures
        r@ == blake3_digest(bytes@),
{
    *blake3::hash(bytes).as_bytes()
}

/// The bytes of a number, the lowest first.
pub open spec fn le_bytes(n: nat) -> Seq<u8> {
    seq![
        (n % 256) as u8,
        (n / 256 % 256) as u8,
        (n / 65536 % 256) as u8,
        (n / 16777216 % 256) as u8,
    ]
}

/// A text of bytes behind its length in four bytes. A length that does not fit
/// is written as the greatest one that does.
pub open spec fn prefixed(bytes: Seq<u8>) -> Seq<u8> {
    le_bytes(
        if bytes.len() <= 0xffff_ffff {
            bytes.len()
        } else {
            0xffff_ffffnat
        },
    ) + bytes
}

/// Append bytes.
fn append_bytes(out: &mut Vec<u8>, bytes: &[u8])
    ensures
        final(out)@ == old(out)@ + bytes@,
{
    let ghost before = out@;
    let mut i: usize = 0;
    while i < bytes.len()
        invariant
            i <= bytes@.len(),
            out@ == before + bytes@.take(i as int),
        decreases bytes@.len() - i,
    {
        out.push(bytes[i]);
        assert(bytes@.take(i + 1) =~= bytes@.take(i as int).push(bytes@[i as int]));
        i = i + 1;
    }
    assert(bytes@.take(i as int) =~= bytes@);
}

/// Append bytes behind their length.
pub fn push_bytes(out: &mut Vec<u8>, bytes: &[u8])
    ensures
        final(out)@ == old(out)@ + prefixed(bytes@),
{
    let ghost before = out@;
    let n: u64 = bytes.len() as u64;
    let len: u32 = if n <= 0xffff_ffff {
        n as u32
    } else {
        0xffff_ffff
    };
    out.push((len % 256) as u8);
    out.push((len / 256 % 256) as u8);
    out.push((len / 65536 % 256) as u8);
    out.push((len / 16777216 % 256) as u8);
    assert(out@ =~= before + le_bytes(len as nat));
    append_bytes(out, bytes);
    assert(out@ =~= before + prefixed(bytes@));
}

/// The bytes that every descriptor begins with: a name, and the version of the
/// layout as the last byte.
pub open spec fn descriptor_tag() -> Seq<u8> {
    seq![
        0x6bu8, 0x69, 0x72, 0x69, 0x65, 0x2d, 0x73, 0x63, 0x65, 0x6e, 0x65, 0x2d, 0x62, 0x75, 0x6e,
        0x64, 0x6c, 0x65, 0x2d, 0x73, 0x72, 0x63, 0x02,
    ]
}

/// An optional part: a one and the part, or a zero.
pub open spec fn optional(part: Option<Seq<u8>>) -> Seq<u8> {
    match part {
        Some(b) => seq![1u8] + b,
        None => seq![0u8],
    }
}

/// The descriptor of a scene: the digests of its package and of its project
/// description, and the directory of the builtin assets.
pub open spec fn descriptor(
    pkg: Seq<u8>,
    project: Option<Seq<u8>>,
    assets_dir: Option<Seq<u8>>,
) -> Seq<u8> {
    descriptor_tag() + pkg + optional(project) + optional(
        match assets_dir {
            Some(d) => Some(prefixed(d)),
            None => None,
        },
    )
}

/// The digest of optional bytes.
pub open spec fn optional_digest(bytes: Option<&[u8]>) -> Option<Seq<u8>> {
    match bytes {
        Some(b) => Some(blake3_digest(b@)),
        None => None,
    }
}

/// Optional bytes.
pub open spec fn optional_bytes(bytes: Option<&[u8]>) -> Option<Seq<u8>> {
    match bytes {
        Some(b) => Some(b@),
        None => None,
    }
}

/// The descriptor by which the bundle of a scene is found. Property values are
/// no part of it.
pub fn bundle_source(
    pkg_bytes: &[u8],
    project_bytes: Option<&[u8]>,
    assets_dir: Option<&[u8]>,
) -> (r: Vec<u8>)
    ensures
        r@ == descriptor(
            blake3_digest(pkg_bytes@),
            optional_digest(project_bytes),
            optional_bytes(assets_dir),
        ),
        blake3_digest(pkg_bytes@).len() == 32,
        project_bytes matches Some(b) ==> blake3_digest(b@).len() == 32,
{
    let tag: [u8; 23] = [
        0x6b, 0x69, 0x72, 0x69, 0x65, 0x2d, 0x73, 0x63, 0x65, 0x6e, 0x65, 0x2d, 0x62, 0x75, 0x6e,
        0x64, 0x6c, 0x65, 0x2d, 0x73, 0x72, 0x63, 0x02,
    ];
    assert(tag@ =~= descriptor_tag());
    let mut src: Vec<u8> = Vec::new();
    append_bytes(&mut src, &tag);
    let pkg = blake3_hash(pkg_bytes);
    append_bytes(&mut src, &pkg);
    let ghost head = src@;
    assert(head =~= descriptor_tag() + blake3_digest(pkg_bytes@));
    match project_bytes {
        Some(bytes) => {
            src.push(1);
            let digest = blake3_hash(bytes);
            append_bytes(&mut src, &digest);
        },
        None => {
            src.push(0);
        },
    }
    let ghost middle = src@;
    assert(middle =~= head + optional(optional_digest(project_bytes)));
    match assets_dir {
        Some(dir) => {
            src.push(1);
            push_bytes(&mut src, dir);
            assert(src@ =~= middle + optional(Some(prefixed(dir@))));
        },
        None => {
            src.push(0);
            assert(src@ =~= middle + optional(None));
        },
    }
    src
}

/// What a store of bundles answered to a descriptor.
#[derive(Debug)]
pub enum StoreAnswer<M> {
    /// A bundle with this model.
    Held(M),
    /// A bundle whose model cannot be decoded.
    Damaged,
    /// There is no such bundle.
    Absent,
    /// The store cannot be used.
    Unavailable,
}

/// The model of a bundle, if there is one, and whether the bundle is to be
/// removed: a damaged one is, so that a new one takes its place.
pub fn try_load_model<M>(answer: StoreAnswer<M>) -> (r: (Option<M>, bool))
    ensures
        match answer {
            StoreAnswer::Held(m) => r == (Some(m), false),
            StoreAnswer::Damaged => r == (None::<M>, true),
            StoreAnswer::Absent => r == (None::<M>, false),
            StoreAnswer::Unavailable => r == (None::<M>, false),
        },
{
    match answer {
        StoreAnswer::Held(model) => (Some(model), false),
        StoreAnswer::Damaged => (None, true),
        StoreAnswer::Absent => (None, false),
        StoreAnswer::Unavailable => (None, false),
    }
}

/// Descriptors tell scenes apart: equal ones come from equal digests and from
/// the same directory.
pub proof fn law_descriptor_injective(
    pkg: Seq<u8>,
    project: Option<Seq<u8>>,
    dir: Option<Seq<u8>>,
    other_pkg: Seq<u8>,
    other_project: Option<Seq<u8>>,
    other_dir: Option<Seq<u8>>,
)
    requires
        pkg.len() == 32,
        other_pkg.len() == 32,
        project matches Some(p) ==> p.len() == 32,
        other_project matches Some(p) ==> p.len() == 32,
        descriptor(pkg, project, dir) == descriptor(other_pkg, other_project, other_dir),
    ensures
        pkg == other_pkg,
        project == other_project,
        dir == other_dir,
{
    let a = descriptor(pkg, project, dir);
    let b = descriptor(other_pkg, other_project, other_dir);
    assert(descriptor_tag().len() == 23);
    assert(a.subrange(23, 55) =~= pkg);
    assert(b.subrange(23, 55) =~= other_pkg);
    assert(a[55] == optional(project)[0]);
    assert(b[55] == optional(other_project)[0]);
    let at = match project {
        Some(p) => {
            assert(a.subrange(56, 88) =~= p);
            assert(b.subrange(56, 88) =~= other_project->0);
            88int
        },
        None => 56int,
    };
    assert(project == other_project);
    let tail = optional(match dir {
        Some(d) => Some(prefixed(d)),
        None => None,
    });
    let other_tail = optional(match other_dir {
        Some(d) => Some(prefixed(d)),
        None => None,
    });
    assert(a.skip(at) =~= tail);
    assert(b.skip(at) =~= other_tail);
    assert(tail[0] == other_tail[0]);
    match dir {
        Some(d) => {
            assert(tail.skip(5) =~= d);
            assert(other_tail.skip(5) =~= other_dir->0);
        },
        None => {},
    }
}

/// One way to load the files of an effect is a way to load them after another
/// resolution, and comes to the same once both are resolved alike.
proof fn lemma_effect_moves<S: AssetSource>(
    source: &S,
    parsed: EffectView,
    now: EffectView,
    first: Map<Seq<char>, PropertyView>,
    second: Map<Seq<char>, PropertyView>,
    before: Seq<ProblemView>,
    after: Seq<ProblemView>,
) -> (other: EffectView)
    requires
        first.dom().subset_of(second.dom()),
        crate::assets::effect_loaded(
            source,
            crate::resolve::resolved_effect(parsed, first),
            now,
            before,
            after,
        ),
    ensures
        crate::assets::effect_loaded(
            source,
            crate::resolve::resolved_effect(parsed, second),
            other,
            before,
            after,
        ),
        crate::resolve::resolved_effect(other, second) == crate::resolve::resolved_effect(
            now,
            second,
        ),
{
    let was = crate::resolve::resolved_effect(parsed, first);
    let moved = crate::resolve::resolved_effect(parsed, second);
    crate::resolve_laws::lemma_effect(parsed, first, second);
    crate::resolve_laws::lemma_effect(parsed, second, second);
    let (value, mid) = choose|value: Option<JsonView>, mid: Seq<ProblemView>| #[trigger]
        crate::assets::fetched(source, was.file, value, before, mid) && match value {
            None => now == was && after == mid,
            Some(v) => exists|passes: Seq<EffectPassView>, chain: Seq<Seq<ProblemView>>| #[trigger]
                crate::assets::effect_passes_loaded(
                    source,
                    crate::material::effect_file_of(v).passes,
                    passes,
                    chain,
                ) && chain[0] == mid && chain.last() == after && now == (EffectView {
                    resolved: Some(
                        crate::material::EffectFileView {
                            passes,
                            ..crate::material::effect_file_of(v)
                        },
                    ),
                    ..was
                }),
        };
    assert(crate::assets::fetched(source, moved.file, value, before, mid));
    match value {
        None => moved,
        Some(_) => {
            let other = EffectView { resolved: now.resolved, ..moved };
            assert(crate::resolve::resolved_effect(other, second)
                == crate::resolve::resolved_effect(now, second)) by {
                let a = crate::resolve::resolved_effect(moved, second);
                let b = crate::resolve::resolved_effect(was, second);
                assert(a == b);
                assert(crate::resolve::resolved_effect(other, second) == (EffectView {
                    resolved: crate::resolve::resolved_effect(other, second).resolved,
                    ..a
                }));
                assert(crate::resolve::resolved_effect(now, second) == (EffectView {
                    resolved: crate::resolve::resolved_effect(now, second).resolved,
                    ..b
                }));
            }
            other
        },
    }
}

/// Whether an effect is one way to load the files of the `i`-th effect, and
/// comes to the same as another way once both are resolved alike.
spec fn stands_in<S: AssetSource>(
    source: &S,
    was: Seq<EffectView>,
    other: EffectView,
    now: Seq<EffectView>,
    bag: Map<Seq<char>, PropertyView>,
    chain: Seq<Seq<ProblemView>>,
    i: int,
) -> bool {
    &&& crate::assets::effect_loaded(source, was[i], other, chain[i], chain[i + 1])
    &&& crate::resolve::resolved_effect(other, bag) == crate::resolve::resolved_effect(now[i], bag)
}

/// The same of the effects of an image.
proof fn lemma_effects_move<S: AssetSource>(
    source: &S,
    parsed: Seq<EffectView>,
    now: Seq<EffectView>,
    first: Map<Seq<char>, PropertyView>,
    second: Map<Seq<char>, PropertyView>,
    chain: Seq<Seq<ProblemView>>,
) -> (other: Seq<EffectView>)
    requires
        first.dom().subset_of(second.dom()),
        crate::assets::effects_loaded(
            source,
            parsed.map_values(|e: EffectView| crate::resolve::resolved_effect(e, first)),
            now,
            chain,
        ),
    ensures
        crate::assets::effects_loaded(
            source,
            parsed.map_values(|e: EffectView| crate::resolve::resolved_effect(e, second)),
            other,
            chain,
        ),
        other.map_values(|e: EffectView| crate::resolve::resolved_effect(e, second))
            == now.map_values(|e: EffectView| crate::resolve::resolved_effect(e, second)),
{
    let was = parsed.map_values(|e: EffectView| crate::resolve::resolved_effect(e, first));
    let moved = parsed.map_values(|e: EffectView| crate::resolve::resolved_effect(e, second));
    let other = Seq::new(
        parsed.len(),
        |i: int| choose|x: EffectView| #[trigger] stands_in(source, moved, x, now, second, chain, i),
    );
    assert forall|i: int| 0 <= i < parsed.len() implies stands_in(
        source,
        moved,
        #[trigger] other[i],
        now,
        second,
        chain,
        i,
    ) by {
        assert(crate::assets::effect_loaded(source, was[i], now[i], chain[i], chain[i + 1]));
        let x = lemma_effect_moves(
            source,
            parsed[i],
            now[i],
            first,
            second,
            chain[i],
            chain[i + 1],
        );
        assert(moved[i] == crate::resolve::resolved_effect(parsed[i], second));
        assert(stands_in(source, moved, x, now, second, chain, i));
    }
    assert forall|i: int| 0 <= i < moved.len() implies crate::assets::effect_loaded(
        source,
        #[trigger] moved[i],
        other[i],
        chain[i],
        chain[i + 1],
    ) by {
        assert(stands_in(source, moved, other[i], now, second, chain, i));
    }
    assert(other.map_values(|e: EffectView| crate::resolve::resolved_effect(e, second))
        =~= now.map_values(|e: EffectView| crate::resolve::resolved_effect(e, second))) by {
        assert forall|i: int| 0 <= i < parsed.len() implies crate::resolve::resolved_effect(
            #[trigger] other[i],
            second,
        ) == crate::resolve::resolved_effect(now[i], second) by {
            assert(stands_in(source, moved, other[i], now, second, chain, i));
        }
    }
    other
}

/// The same of an image.
proof fn lemma_image_moves<S: AssetSource>(
    source: &S,
    parsed: ImageObjectView,
    now: ImageObjectView,
    first: Map<Seq<char>, PropertyView>,
    second: Map<Seq<char>, PropertyView>,
    before: Seq<ProblemView>,
    after: Seq<ProblemView>,
) -> (other: ImageObjectView)
    requires
        first.dom().subset_of(second.dom()),
        crate::assets::image_loaded(
            source,
            crate::resolve::resolved_image(parsed, first),
            now,
            before,
            after,
        ),
    ensures
        crate::assets::image_loaded(
            source,
            crate::resolve::resolved_image(parsed, second),
            other,
            before,
            after,
        ),
        crate::resolve::resolved_image(other, second) == crate::resolve::resolved_image(now, second),
{
    let was = crate::resolve::resolved_image(parsed, first);
    let moved = crate::resolve::resolved_image(parsed, second);
    crate::resolve_laws::lemma_image(parsed, first, second);
    crate::resolve_laws::lemma_image(parsed, second, second);
    let (with_model, chain) = choose|with_model: ImageObjectView, chain: Seq<Seq<ProblemView>>|
        crate::assets::model_loaded(source, was, with_model, before, chain[0]) && #[trigger]
            crate::assets::effects_loaded(source, with_model.effects, now.effects, chain)
            && chain.last() == after && now == (ImageObjectView {
            effects: now.effects,
            ..with_model
        });
    let (value, mid) = choose|value: Option<JsonView>, mid: Seq<ProblemView>| #[trigger]
        crate::assets::fetched(source, was.image, value, before, mid) && match value {
            None => with_model == was && chain[0] == mid,
            Some(v) => match crate::material::model_file_of(v) {
                None => with_model == was && chain[0] == mid.push(
                    ProblemView {
                        path: was.image,
                        reason: "model file: required key `material` missing"@,
                    },
                ),
                Some(m) => exists|material: Option<JsonView>| #[trigger]
                    crate::assets::fetched(source, m.material, material, mid, chain[0])
                        && with_model == (ImageObjectView {
                        model: Some(m),
                        material: crate::assets::first_of(
                            crate::assets::material_in(material),
                            was.material,
                        ),
                        ..was
                    }),
            },
        };
    assert(crate::assets::fetched(source, moved.image, value, before, mid));
    assert(with_model.effects == was.effects);
    let mut grown = moved;
    if let Some(v) = value {
        if let Some(m) = crate::material::model_file_of(v) {
            let material = choose|material: Option<JsonView>| #[trigger]
                crate::assets::fetched(source, m.material, material, mid, chain[0]) && with_model
                    == (ImageObjectView {
                    model: Some(m),
                    material: crate::assets::first_of(
                        crate::assets::material_in(material),
                        was.material,
                    ),
                    ..was
                });
            grown =
            ImageObjectView {
                model: Some(m),
                material: crate::assets::first_of(
                    crate::assets::material_in(material),
                    moved.material,
                ),
                ..moved
            };
            assert(crate::assets::fetched(source, m.material, material, mid, chain[0]));
        }
    }
    assert(crate::assets::model_loaded(source, moved, grown, before, chain[0]));
    let effects = lemma_effects_move(source, parsed.effects, now.effects, first, second, chain);
    let other = ImageObjectView { effects, ..grown };
    assert(grown.effects == moved.effects);
    assert(crate::assets::effects_loaded(source, grown.effects, other.effects, chain));
    assert(crate::assets::image_loaded(source, moved, other, before, after));
    let a = crate::resolve::resolved_image(moved, second);
    let b = crate::resolve::resolved_image(was, second);
    assert(a == b);
    assert(a.material == crate::resolve::resolved_material(moved.material, second));
    assert(b.material == crate::resolve::resolved_material(was.material, second));
    assert(crate::resolve::resolved_image(other, second) == (ImageObjectView {
        model: other.model,
        material: crate::resolve::resolved_material(other.material, second),
        effects: other.effects.map_values(
            |e: EffectView| crate::resolve::resolved_effect(e, second),
        ),
        ..a
    }));
    assert(crate::resolve::resolved_image(now, second) == (ImageObjectView {
        model: now.model,
        material: crate::resolve::resolved_material(now.material, second),
        effects: now.effects.map_values(|e: EffectView| crate::resolve::resolved_effect(e, second)),
        ..b
    }));
    other
}

/// The same of a particle system.
proof fn lemma_particle_moves<S: AssetSource>(
    source: &S,
    parsed: ParticleObjectView,
    now: ParticleObjectView,
    first: Map<Seq<char>, PropertyView>,
    second: Map<Seq<char>, PropertyView>,
    before: Seq<ProblemView>,
    after: Seq<ProblemView>,
) -> (other: ParticleObjectView)
    requires
        first.dom().subset_of(second.dom()),
        crate::assets::particle_loaded(
            source,
            crate::resolve::resolved_particle(parsed, first),
            now,
            before,
            after,
        ),
    ensures
        crate::assets::particle_loaded(
            source,
            crate::resolve::resolved_particle(parsed, second),
            other,
            before,
            after,
        ),
        crate::resolve::resolved_particle(other, second) == crate::resolve::resolved_particle(
            now,
            second,
        ),
{
    let was = crate::resolve::resolved_particle(parsed, first);
    let moved = crate::resolve::resolved_particle(parsed, second);
    crate::resolve_laws::lemma_particle(parsed, first, second);
    crate::resolve_laws::lemma_particle(parsed, second, second);
    let (defined, mid) = choose|defined: ParticleObjectView, mid: Seq<ProblemView>| #[trigger]
        crate::assets::definition_loaded(source, was, defined, before, mid)
            && crate::assets::system_material_loaded(source, defined, now, mid, after);
    let mut redefined = moved;
    if let Some(path) = was.particle_file {
        let value = choose|value: Option<JsonView>| #[trigger]
            crate::assets::fetched(source, path, value, before, mid) && defined == (match value {
                Some(v) => ParticleObjectView {
                    system: crate::particle::particle_system_of(v),
                    ..was
                },
                None => was,
            });
        assert(crate::assets::fetched(source, path, value, before, mid));
        if let Some(v) = value {
            redefined =
            ParticleObjectView { system: crate::particle::particle_system_of(v), ..moved };
        }
    }
    assert(crate::assets::definition_loaded(source, moved, redefined, before, mid));
    assert(redefined.system.material == defined.system.material);
    let mut other = redefined;
    if let Some(path) = defined.system.material {
        let value = choose|value: Option<JsonView>| #[trigger]
            crate::assets::fetched(source, path, value, mid, after) && now == (ParticleObjectView {
                system: ParticleSystemView {
                    resolved_material: crate::assets::first_of(
                        crate::assets::material_in(value),
                        defined.system.resolved_material,
                    ),
                    ..defined.system
                },
                ..defined
            });
        assert(crate::assets::fetched(source, path, value, mid, after));
        other =
        ParticleObjectView {
            system: ParticleSystemView {
                resolved_material: crate::assets::first_of(
                    crate::assets::material_in(value),
                    redefined.system.resolved_material,
                ),
                ..redefined.system
            },
            ..redefined
        };
    }
    assert(crate::assets::system_material_loaded(source, redefined, other, mid, after));
    assert(crate::assets::particle_loaded(source, moved, other, before, after));
    let a = crate::resolve::resolved_particle(moved, second);
    let b = crate::resolve::resolved_particle(was, second);
    assert(a == b);
    assert(a.system == crate::resolve::resolved_system(moved.system, second));
    assert(b.system == crate::resolve::resolved_system(was.system, second));
    assert(crate::resolve::resolved_particle(other, second) == (ParticleObjectView {
        system: crate::resolve::resolved_system(other.system, second),
        ..a
    }));
    assert(crate::resolve::resolved_particle(now, second) == (ParticleObjectView {
        system: crate::resolve::resolved_system(now.system, second),
        ..b
    }));
    let sa = crate::resolve::resolved_system(redefined.system, second);
    let sb = crate::resolve::resolved_system(defined.system, second);
    assert(sa == sb);
    assert(crate::resolve::resolved_system(other.system, second) == (ParticleSystemView {
        resolved_material: crate::resolve::resolved_material(
            other.system.resolved_material,
            second,
        ),
        ..sa
    }));
    assert(crate::resolve::resolved_system(now.system, second) == (ParticleSystemView {
        resolved_material: crate::resolve::resolved_material(now.system.resolved_material, second),
        ..sb
    }));
    assert(sa.resolved_material == crate::resolve::resolved_material(
        redefined.system.resolved_material,
        second,
    ));
    assert(sb.resolved_material == crate::resolve::resolved_material(
        defined.system.resolved_material,
        second,
    ));
    other
}

/// The same of an object.
proof fn lemma_object_moves<S: AssetSource>(
    source: &S,
    parsed: ObjectView,
    now: ObjectView,
    first: Map<Seq<char>, PropertyView>,
    second: Map<Seq<char>, PropertyView>,
    before: Seq<ProblemView>,
    after: Seq<ProblemView>,
) -> (other: ObjectView)
    requires
        first.dom().subset_of(second.dom()),
        crate::assets::object_loaded(
            source,
            crate::resolve::resolved_object(parsed, first),
            now,
            before,
            after,
        ),
    ensures
        crate::assets::object_loaded(
            source,
            crate::resolve::resolved_object(parsed, second),
            other,
            before,
            after,
        ),
        crate::resolve::resolved_object(other, second) == crate::resolve::resolved_object(
            now,
            second,
        ),
{
    let was = crate::resolve::resolved_object(parsed, first);
    let moved = crate::resolve::resolved_object(parsed, second);
    crate::resolve_laws::law_object_reresolves(parsed, first, second);
    crate::resolve_laws::law_object_reresolves(parsed, second, second);
    assert(crate::resolve::resolved_object(was, second) == crate::resolve::resolved_object(
        moved,
        second,
    ));
    match parsed.kind {
        ObjectKindView::Image(i) => {
            let j = choose|j: ImageObjectView| #[trigger]
                crate::assets::image_loaded(
                    source,
                    crate::resolve::resolved_image(i, first),
                    j,
                    before,
                    after,
                ) && now == (ObjectView { kind: ObjectKindView::Image(j), ..was });
            let k = lemma_image_moves(source, i, j, first, second, before, after);
            ObjectView { kind: ObjectKindView::Image(k), ..moved }
        },
        ObjectKindView::Particle(p) => {
            let q = choose|q: ParticleObjectView| #[trigger]
                crate::assets::particle_loaded(
                    source,
                    crate::resolve::resolved_particle(p, first),
                    q,
                    before,
                    after,
                ) && now == (ObjectView { kind: ObjectKindView::Particle(q), ..was });
            let k = lemma_particle_moves(source, p, q, first, second, before, after);
            ObjectView { kind: ObjectKindView::Particle(k), ..moved }
        },
        _ => moved,
    }
}

/// Whether an object is one way to load the files of the `i`-th object, and
/// comes to the same as another way once both are resolved alike.
spec fn object_stands_in<S: AssetSource>(
    source: &S,
    was: Seq<ObjectView>,
    other: ObjectView,
    now: Seq<ObjectView>,
    bag: Map<Seq<char>, PropertyView>,
    chain: Seq<Seq<ProblemView>>,
    i: int,
) -> bool {
    &&& crate::assets::object_loaded(source, was[i], other, chain[i], chain[i + 1])
    &&& crate::resolve::resolved_object(other, bag) == crate::resolve::resolved_object(now[i], bag)
}

/// A scene resolved against a bag.
pub open spec fn objects_resolved(
    objects: Seq<ObjectView>,
    bag: Map<Seq<char>, PropertyView>,
) -> Seq<ObjectView> {
    objects.map_values(|o: ObjectView| crate::resolve::resolved_object(o, bag))
}

/// One bundle serves every choice of properties. Take a scene that was
/// resolved against the defaults and then had its files loaded, giving
/// `baked`. To resolve that again against bag `bag` gives what one gets by
/// resolving the parsed scene against `bag` to begin with and loading the same
/// files with the same problems, as long as `bag` declares whatever the
/// defaults do.
pub proof fn law_bundle_serves_every_bag<S: AssetSource>(
    source: &S,
    parsed: SceneView,
    loaded: Seq<ObjectView>,
    chain: Seq<Seq<ProblemView>>,
    defaults: Map<Seq<char>, PropertyView>,
    bag: Map<Seq<char>, PropertyView>,
)
    requires
        defaults.dom().subset_of(bag.dom()),
        crate::assets::objects_loaded(
            source,
            crate::resolve::resolved_scene(parsed, defaults).objects,
            loaded,
            chain,
        ),
    ensures
        ({
            let baked = SceneView {
                objects: objects_resolved(loaded, defaults),
                ..crate::resolve::resolved_scene(parsed, defaults)
            };
            exists|direct: Seq<ObjectView>| #[trigger]
                crate::assets::objects_loaded(
                    source,
                    crate::resolve::resolved_scene(parsed, bag).objects,
                    direct,
                    chain,
                ) && crate::resolve::resolved_scene(baked, bag) == (SceneView {
                    objects: objects_resolved(direct, bag),
                    ..crate::resolve::resolved_scene(parsed, bag)
                })
        }),
{
    let was = crate::resolve::resolved_scene(parsed, defaults).objects;
    let moved = crate::resolve::resolved_scene(parsed, bag).objects;
    let direct = Seq::new(
        parsed.objects.len(),
        |i: int|
            choose|x: ObjectView| #[trigger]
                object_stands_in(source, moved, x, loaded, bag, chain, i),
    );
    assert forall|i: int| 0 <= i < moved.len() implies object_stands_in(
        source,
        moved,
        #[trigger] direct[i],
        loaded,
        bag,
        chain,
        i,
    ) by {
        assert(crate::assets::object_loaded(source, was[i], loaded[i], chain[i], chain[i + 1]));
        let x = lemma_object_moves(
            source,
            parsed.objects[i],
            loaded[i],
            defaults,
            bag,
            chain[i],
            chain[i + 1],
        );
        assert(moved[i] == crate::resolve::resolved_object(parsed.objects[i], bag));
        assert(object_stands_in(source, moved, x, loaded, bag, chain, i));
    }
    assert(crate::assets::objects_loaded(source, moved, direct, chain)) by {
        assert forall|i: int| 0 <= i < moved.len() implies crate::assets::object_loaded(
            source,
            #[trigger] moved[i],
            direct[i],
            chain[i],
            chain[i + 1],
        ) by {
            assert(object_stands_in(source, moved, direct[i], loaded, bag, chain, i));
        }
    }
    let baked = SceneView {
        objects: objects_resolved(loaded, defaults),
        ..crate::resolve::resolved_scene(parsed, defaults)
    };
    crate::resolve_laws::law_general_reresolves(parsed.general, defaults, bag);
    assert(crate::resolve::resolved_scene(baked, bag).objects =~= objects_resolved(direct, bag)) by {
        assert forall|i: int| 0 <= i < loaded.len() implies crate::resolve::resolved_object(
            crate::resolve::resolved_object(loaded[i], defaults),
            bag,
        ) == crate::resolve::resolved_object(#[trigger] direct[i], bag) by {
            crate::resolve_laws::law_object_reresolves(loaded[i], defaults, bag);
            assert(object_stands_in(source, moved, direct[i], loaded, bag, chain, i));
        }
    }
}

/// The four bytes of a number write it, the lowest first, and bytes stand behind
/// their number.
pub proof fn law_length_precedes_bytes(bytes: Seq<u8>)
    requires
        bytes.len() <= 0xffff_ffff,
    ensures
        prefixed(bytes).len() == bytes.len() + 4,
        prefixed(bytes).skip(4) == bytes,
        prefixed(bytes)[0] + 256 * prefixed(bytes)[1] + 65536 * prefixed(bytes)[2] + 16777216
            * prefixed(bytes)[3] == bytes.len(),
{
    assert(prefixed(bytes).skip(4) =~= bytes);
    let n: nat = bytes.len();
    assert(n / 256 / 256 == n / 65536);
    assert(n / 65536 / 256 == n / 16777216);
}

/// A descriptor begins with its tag, then the digest of the package; what there
/// is of the project and of a directory of assets follows a one, and a zero
/// stands for what there is not.
pub proof fn law_descriptor_parts(
    pkg: Seq<u8>,
    project: Option<Seq<u8>>,
    assets_dir: Option<Seq<u8>>,
)
    ensures
        descriptor(pkg, None, None) == descriptor_tag() + pkg + seq![0u8] + seq![0u8],
        project matches Some(p) ==> descriptor(pkg, project, None) == descriptor_tag() + pkg + (
        seq![1u8] + p) + seq![0u8],
        assets_dir matches Some(d) ==> descriptor(pkg, None, assets_dir) == descriptor_tag() + pkg
            + seq![0u8] + (seq![1u8] + prefixed(d)),
        descriptor_tag().len() == 23,
        descriptor_tag().last() == 2,
{
}

/// A bundle is used where its model can be read, and removed only where it is
/// there and cannot be.
pub proof fn law_damaged_bundle_goes<M>(answer: StoreAnswer<M>, r: (Option<M>, bool))
    requires
        call_ensures(try_load_model::<M>, (answer,), r),
    ensures
        r.1 == (answer is Damaged),
        answer matches StoreAnswer::Held(m) ==> r.0 == Some(m),
        !(answer is Held) ==> r.0 is None,
{
}

} // verus!
