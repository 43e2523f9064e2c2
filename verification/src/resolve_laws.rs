//! What property resolution promises of a scene as a whole.
use vstd::prelude::*;

use crate::material::{EffectFileView, EffectPassView, PassView};
use crate::number::Scalar;
use crate::object::{
    AnimationLayerView, BaseObjectView, EffectView, ImageObjectView, ObjectKindView, ObjectView,
    ParticleObjectView, PassOverrideView, TextObjectView,
};
use crate::particle::{InstanceOverrideView, NamedStageView, ParticleSystemView};
use crate::property::{PropertyView, Resolvable};
use crate::scene::{CameraView, GeneralView, SceneView};
use crate::user::{SettingView, UserRefView};
use crate::value::{DynamicValue, DynamicView};

verus! {

/// A setting without a property binding keeps its value.
pub proof fn law_unbound_setting_stays<T: Resolvable>(
    us: SettingView<T::Shown>,
    bag: Map<Seq<char>, PropertyView>,
)
    requires
        us.user is None,
    ensures
        crate::resolve::resolved::<T>(us, bag) == us,
{
}

/// A setting bound to a name that is not declared keeps its value.
pub proof fn law_undeclared_setting_stays<T: Resolvable>(
    us: SettingView<T::Shown>,
    name: Seq<char>,
    bag: Map<Seq<char>, PropertyView>,
)
    requires
        us.user == Some(UserRefView::Name(name)),
        !bag.dom().contains(name),
    ensures
        crate::resolve::resolved::<T>(us, bag) == us,
{
}

/// The names whose values may be read again after the first bag gave way to the
/// second: those that the second declares, and those that the first did not.
pub open spec fn kept_names(
    first: Map<Seq<char>, PropertyView>,
    second: Map<Seq<char>, PropertyView>,
) -> Set<Seq<char>> {
    Set::new(|n: Seq<char>| first.dom().contains(n) ==> second.dom().contains(n))
}

/// Whether the name that a setting is plainly bound to, if it is, is among
/// some.
pub open spec fn setting_reads<S>(us: SettingView<S>, names: Set<Seq<char>>) -> bool {
    us.user matches Some(UserRefView::Name(name)) ==> names.contains(name)
}

/// Whether the names that constants are plainly bound to are among some.
pub open spec fn constants_read(
    v: Map<Seq<char>, SettingView<DynamicView>>,
    names: Set<Seq<char>>,
) -> bool {
    forall|k: Seq<char>| v.dom().contains(k) ==> setting_reads(#[trigger] v[k], names)
}

/// Whether the names that the constants of passes are plainly bound to are
/// among some.
pub open spec fn passes_read(v: Seq<PassView>, names: Set<Seq<char>>) -> bool {
    forall|i: int| 0 <= i < v.len() ==> constants_read((#[trigger] v[i]).constants, names)
}

/// Whether the names that a material is plainly bound to are among some.
pub open spec fn material_reads(v: Option<Seq<PassView>>, names: Set<Seq<char>>) -> bool {
    v matches Some(passes) ==> passes_read(passes, names)
}

/// Whether the names that an effect file is plainly bound to are among some.
pub open spec fn effect_file_reads(v: EffectFileView, names: Set<Seq<char>>) -> bool {
    forall|i: int| 0 <= i < v.passes.len() ==> material_reads((#[trigger] v.passes[i]).resolved, names)
}

/// Whether the names that an effect is plainly bound to are among some.
pub open spec fn effect_reads(v: EffectView, names: Set<Seq<char>>) -> bool {
    &&& setting_reads(v.visible, names)
    &&& forall|i: int|
        0 <= i < v.passes.len() ==> constants_read(
            (#[trigger] v.passes[i]).constantshadervalues,
            names,
        )
    &&& v.resolved matches Some(file) ==> effect_file_reads(file, names)
}

/// Whether the names that an animation layer is plainly bound to are among
/// some.
pub open spec fn layer_reads(v: AnimationLayerView, names: Set<Seq<char>>) -> bool {
    &&& setting_reads(v.rate, names)
    &&& setting_reads(v.visible, names)
    &&& setting_reads(v.blend, names)
    &&& setting_reads(v.animation, names)
}

/// Whether the names that an image is plainly bound to are among some.
pub open spec fn image_reads(v: ImageObjectView, names: Set<Seq<char>>) -> bool {
    &&& setting_reads(v.scale, names)
    &&& setting_reads(v.angles, names)
    &&& setting_reads(v.visible, names)
    &&& setting_reads(v.alpha, names)
    &&& setting_reads(v.color, names)
    &&& setting_reads(v.parallax_depth, names)
    &&& setting_reads(v.color_blend_mode, names)
    &&& setting_reads(v.brightness, names)
    &&& material_reads(v.material, names)
    &&& forall|i: int| 0 <= i < v.effects.len() ==> effect_reads(#[trigger] v.effects[i], names)
    &&& forall|i: int|
        0 <= i < v.animationlayers.len() ==> layer_reads(#[trigger] v.animationlayers[i], names)
}

/// Whether the names that the stages of a particle system are plainly bound to
/// are among some.
pub open spec fn stages_read(v: Seq<NamedStageView>, names: Set<Seq<char>>) -> bool {
    forall|i: int| 0 <= i < v.len() ==> constants_read((#[trigger] v[i]).params, names)
}

/// Whether the names that the overrides of a particle system are plainly bound
/// to are among some.
pub open spec fn instance_reads(v: InstanceOverrideView, names: Set<Seq<char>>) -> bool {
    &&& setting_reads(v.enabled, names)
    &&& setting_reads(v.alpha, names)
    &&& setting_reads(v.size, names)
    &&& setting_reads(v.lifetime, names)
    &&& setting_reads(v.rate, names)
    &&& setting_reads(v.speed, names)
    &&& setting_reads(v.count, names)
    &&& setting_reads(v.color, names)
    &&& setting_reads(v.colorn, names)
}

/// Whether the names that a particle system is plainly bound to are among
/// some.
pub open spec fn system_reads(v: ParticleSystemView, names: Set<Seq<char>>) -> bool {
    &&& stages_read(v.initializers, names)
    &&& stages_read(v.operators, names)
    &&& material_reads(v.resolved_material, names)
}

/// Whether the names that a particle object is plainly bound to are among
/// some.
pub open spec fn particle_reads(v: ParticleObjectView, names: Set<Seq<char>>) -> bool {
    &&& setting_reads(v.scale, names)
    &&& setting_reads(v.angles, names)
    &&& setting_reads(v.visible, names)
    &&& setting_reads(v.parallax_depth, names)
    &&& instance_reads(v.instanceoverride, names)
    &&& system_reads(v.system, names)
}

/// Whether the names that a text object is plainly bound to are among some.
pub open spec fn text_reads(v: TextObjectView, names: Set<Seq<char>>) -> bool {
    &&& setting_reads(v.text, names)
    &&& setting_reads(v.pointsize, names)
    &&& setting_reads(v.scale, names)
    &&& setting_reads(v.color, names)
    &&& setting_reads(v.alpha, names)
    &&& setting_reads(v.visible, names)
}

/// Whether the names that the base fields of an object are plainly bound to are
/// among some.
pub open spec fn base_reads(v: BaseObjectView, names: Set<Seq<char>>) -> bool {
    &&& setting_reads(v.origin, names)
    &&& setting_reads(v.scale, names)
    &&& setting_reads(v.angles, names)
    &&& setting_reads(v.visible, names)
}

/// Whether the names that the fields of an object's kind are plainly bound to
/// are among some.
pub open spec fn kind_reads(v: ObjectKindView, names: Set<Seq<char>>) -> bool {
    match v {
        ObjectKindView::Image(i) => image_reads(i, names),
        ObjectKindView::Particle(p) => particle_reads(p, names),
        ObjectKindView::Text(t) => text_reads(t, names),
        _ => true,
    }
}

/// Whether the names that an object is plainly bound to are among some.
pub open spec fn object_reads(v: ObjectView, names: Set<Seq<char>>) -> bool {
    base_reads(v.base, names) && kind_reads(v.kind, names)
}

/// Whether the names that the general settings are plainly bound to are among
/// some.
pub open spec fn general_reads(v: GeneralView, names: Set<Seq<char>>) -> bool {
    &&& setting_reads(v.ambientcolor, names)
    &&& setting_reads(v.skylightcolor, names)
    &&& setting_reads(v.clearcolor, names)
    &&& setting_reads(v.camerafade, names)
    &&& setting_reads(v.bloom, names)
    &&& setting_reads(v.bloomstrength, names)
    &&& setting_reads(v.bloomthreshold, names)
    &&& setting_reads(v.cameraparallax, names)
    &&& setting_reads(v.cameraparallaxamount, names)
    &&& setting_reads(v.cameraparallaxdelay, names)
    &&& setting_reads(v.cameraparallaxmouseinfluence, names)
    &&& setting_reads(v.camerashake, names)
    &&& setting_reads(v.camerashakeamplitude, names)
    &&& setting_reads(v.camerashakeroughness, names)
    &&& setting_reads(v.camerashakespeed, names)
}

/// Whether the names that a scene is plainly bound to are among some.
pub open spec fn scene_reads(v: SceneView, names: Set<Seq<char>>) -> bool {
    &&& general_reads(v.general, names)
    &&& forall|i: int| 0 <= i < v.objects.len() ==> object_reads(#[trigger] v.objects[i], names)
}

/// A material whose names are among some has them among more.
proof fn lemma_material_reads(
    v: Option<Seq<PassView>>,
    some: Set<Seq<char>>,
    more: Set<Seq<char>>,
)
    requires
        material_reads(v, some),
        some.subset_of(more),
    ensures
        material_reads(v, more),
{
}

/// An image whose names are among some has them among more.
proof fn lemma_image_reads(v: ImageObjectView, some: Set<Seq<char>>, more: Set<Seq<char>>)
    requires
        image_reads(v, some),
        some.subset_of(more),
    ensures
        image_reads(v, more),
{
    lemma_material_reads(v.material, some, more);
    assert forall|i: int| 0 <= i < v.effects.len() implies effect_reads(
        #[trigger] v.effects[i],
        more,
    ) by {
        assert(effect_reads(v.effects[i], some));
        if let Some(file) = v.effects[i].resolved {
            assert forall|k: int| 0 <= k < file.passes.len() implies material_reads(
                (#[trigger] file.passes[k]).resolved,
                more,
            ) by {
                lemma_material_reads(file.passes[k].resolved, some, more);
            }
        }
    }
}

/// Resolving again gives what resolving the parsed setting against the second
/// bag alone would give, as long as the second bag declares the name that the
/// setting is plainly bound to, if the first one did. In particular resolving
/// twice changes nothing.
pub proof fn law_setting_reresolves<T: Resolvable>(
    us: SettingView<T::Shown>,
    first: Map<Seq<char>, PropertyView>,
    second: Map<Seq<char>, PropertyView>,
)
    requires
        first.dom().subset_of(second.dom()) || setting_reads(us, kept_names(first, second)),
    ensures
        crate::resolve::resolved::<T>(crate::resolve::resolved::<T>(us, first), second)
            == crate::resolve::resolved::<T>(us, second),
{
}

proof fn lemma_constants(
    v: Map<Seq<char>, SettingView<DynamicView>>,
    first: Map<Seq<char>, PropertyView>,
    second: Map<Seq<char>, PropertyView>,
)
    requires
        first.dom().subset_of(second.dom()) || constants_read(v, kept_names(first, second)),
    ensures
        crate::resolve::resolved_constants(crate::resolve::resolved_constants(v, first), second) == crate::resolve::resolved_constants(v, second),
{
    let a = crate::resolve::resolved_constants(crate::resolve::resolved_constants(v, first), second);
    let b = crate::resolve::resolved_constants(v, second);
    assert forall|k: Seq<char>| a.dom().contains(k) implies a[k] == b[k] by {
        law_setting_reresolves::<DynamicValue>(v[k], first, second);
    }
    assert(a =~= b);
}

proof fn lemma_pass(
    v: PassView,
    first: Map<Seq<char>, PropertyView>,
    second: Map<Seq<char>, PropertyView>,
)
    requires
        first.dom().subset_of(second.dom()) || constants_read(v.constants, kept_names(first, second)),
    ensures
        crate::resolve::resolved_pass(crate::resolve::resolved_pass(v, first), second) == crate::resolve::resolved_pass(v, second),
{
    lemma_constants(v.constants, first, second);
}

proof fn lemma_passes(
    v: Seq<PassView>,
    first: Map<Seq<char>, PropertyView>,
    second: Map<Seq<char>, PropertyView>,
)
    requires
        first.dom().subset_of(second.dom()) || passes_read(v, kept_names(first, second)),
    ensures
        crate::resolve::resolved_passes(crate::resolve::resolved_passes(v, first), second) == crate::resolve::resolved_passes(v, second),
{
    assert(crate::resolve::resolved_passes(crate::resolve::resolved_passes(v, first), second) =~= crate::resolve::resolved_passes(v, second)) by {
        assert forall|i: int| 0 <= i < v.len() implies #[trigger] crate::resolve::resolved_passes(crate::resolve::resolved_passes(v, first), second)[i] == crate::resolve::resolved_passes(v, second)[i] by {
            lemma_pass(v[i], first, second);
        }
    }
}

pub proof fn lemma_material(
    v: Option<Seq<PassView>>,
    first: Map<Seq<char>, PropertyView>,
    second: Map<Seq<char>, PropertyView>,
)
    requires
        first.dom().subset_of(second.dom()) || material_reads(v, kept_names(first, second)),
    ensures
        crate::resolve::resolved_material(crate::resolve::resolved_material(v, first), second) == crate::resolve::resolved_material(v, second),
{
    if v is Some {
        lemma_passes(v->0, first, second);
    }
}

proof fn lemma_override(
    v: PassOverrideView,
    first: Map<Seq<char>, PropertyView>,
    second: Map<Seq<char>, PropertyView>,
)
    requires
        first.dom().subset_of(second.dom()) || constants_read(v.constantshadervalues, kept_names(first, second)),
    ensures
        crate::resolve::resolved_override(crate::resolve::resolved_override(v, first), second) == crate::resolve::resolved_override(v, second),
{
    lemma_constants(v.constantshadervalues, first, second);
}

proof fn lemma_effect_pass(
    v: EffectPassView,
    first: Map<Seq<char>, PropertyView>,
    second: Map<Seq<char>, PropertyView>,
)
    requires
        first.dom().subset_of(second.dom()) || material_reads(v.resolved, kept_names(first, second)),
    ensures
        crate::resolve::resolved_effect_pass(crate::resolve::resolved_effect_pass(v, first), second) == crate::resolve::resolved_effect_pass(v, second),
{
    lemma_material(v.resolved, first, second);
}

proof fn lemma_effect_file(
    v: EffectFileView,
    first: Map<Seq<char>, PropertyView>,
    second: Map<Seq<char>, PropertyView>,
)
    requires
        first.dom().subset_of(second.dom()) || effect_file_reads(v, kept_names(first, second)),
    ensures
        crate::resolve::resolved_effect_file(crate::resolve::resolved_effect_file(v, first), second) == crate::resolve::resolved_effect_file(v, second),
{
    assert(crate::resolve::resolved_effect_file(crate::resolve::resolved_effect_file(v, first), second).passes =~= crate::resolve::resolved_effect_file(v, second).passes) by {
        assert forall|i: int| 0 <= i < v.passes.len() implies #[trigger] crate::resolve::resolved_effect_file(crate::resolve::resolved_effect_file(v, first), second).passes[i] == crate::resolve::resolved_effect_file(v, second).passes[i] by {
            lemma_effect_pass(v.passes[i], first, second);
        }
    }
}

pub proof fn lemma_effect(
    v: EffectView,
    first: Map<Seq<char>, PropertyView>,
    second: Map<Seq<char>, PropertyView>,
)
    requires
        first.dom().subset_of(second.dom()) || effect_reads(v, kept_names(first, second)),
    ensures
        crate::resolve::resolved_effect(crate::resolve::resolved_effect(v, first), second) == crate::resolve::resolved_effect(v, second),
{
    law_setting_reresolves::<bool>(v.visible, first, second);
    assert(crate::resolve::resolved_effect(crate::resolve::resolved_effect(v, first), second).passes =~= crate::resolve::resolved_effect(v, second).passes) by {
        assert forall|i: int| 0 <= i < v.passes.len() implies #[trigger] crate::resolve::resolved_effect(crate::resolve::resolved_effect(v, first), second).passes[i] == crate::resolve::resolved_effect(v, second).passes[i] by {
            lemma_override(v.passes[i], first, second);
        }
    }
    if v.resolved is Some {
        lemma_effect_file(v.resolved->0, first, second);
    }
}

proof fn lemma_layer(
    v: AnimationLayerView,
    first: Map<Seq<char>, PropertyView>,
    second: Map<Seq<char>, PropertyView>,
)
    requires
        first.dom().subset_of(second.dom()) || layer_reads(v, kept_names(first, second)),
    ensures
        crate::resolve::resolved_layer(crate::resolve::resolved_layer(v, first), second) == crate::resolve::resolved_layer(v, second),
{
    law_setting_reresolves::<Scalar>(v.rate, first, second);
    law_setting_reresolves::<bool>(v.visible, first, second);
    law_setting_reresolves::<Scalar>(v.blend, first, second);
    law_setting_reresolves::<i64>(v.animation, first, second);
}

pub proof fn lemma_image(
    v: ImageObjectView,
    first: Map<Seq<char>, PropertyView>,
    second: Map<Seq<char>, PropertyView>,
)
    requires
        first.dom().subset_of(second.dom()) || image_reads(v, kept_names(first, second)),
    ensures
        crate::resolve::resolved_image(crate::resolve::resolved_image(v, first), second) == crate::resolve::resolved_image(v, second),
{
    law_setting_reresolves::<[Scalar; 3]>(v.scale, first, second);
    law_setting_reresolves::<[Scalar; 3]>(v.angles, first, second);
    law_setting_reresolves::<bool>(v.visible, first, second);
    law_setting_reresolves::<Scalar>(v.alpha, first, second);
    law_setting_reresolves::<[Scalar; 4]>(v.color, first, second);
    law_setting_reresolves::<[Scalar; 2]>(v.parallax_depth, first, second);
    law_setting_reresolves::<i64>(v.color_blend_mode, first, second);
    law_setting_reresolves::<Scalar>(v.brightness, first, second);
    lemma_material(v.material, first, second);
    assert(crate::resolve::resolved_image(crate::resolve::resolved_image(v, first), second).effects =~= crate::resolve::resolved_image(v, second).effects) by {
        assert forall|i: int| 0 <= i < v.effects.len() implies #[trigger] crate::resolve::resolved_image(crate::resolve::resolved_image(v, first), second).effects[i] == crate::resolve::resolved_image(v, second).effects[i] by {
            lemma_effect(v.effects[i], first, second);
        }
    }
    assert(crate::resolve::resolved_image(crate::resolve::resolved_image(v, first), second).animationlayers =~= crate::resolve::resolved_image(v, second).animationlayers) by {
        assert forall|i: int| 0 <= i < v.animationlayers.len() implies #[trigger] crate::resolve::resolved_image(crate::resolve::resolved_image(v, first), second).animationlayers[i] == crate::resolve::resolved_image(v, second).animationlayers[i] by {
            lemma_layer(v.animationlayers[i], first, second);
        }
    }
}

proof fn lemma_stage(
    v: NamedStageView,
    first: Map<Seq<char>, PropertyView>,
    second: Map<Seq<char>, PropertyView>,
)
    requires
        first.dom().subset_of(second.dom()) || constants_read(v.params, kept_names(first, second)),
    ensures
        crate::resolve::resolved_stage(crate::resolve::resolved_stage(v, first), second) == crate::resolve::resolved_stage(v, second),
{
    lemma_constants(v.params, first, second);
}

proof fn lemma_instance(
    v: InstanceOverrideView,
    first: Map<Seq<char>, PropertyView>,
    second: Map<Seq<char>, PropertyView>,
)
    requires
        first.dom().subset_of(second.dom()) || instance_reads(v, kept_names(first, second)),
    ensures
        crate::resolve::resolved_instance(crate::resolve::resolved_instance(v, first), second) == crate::resolve::resolved_instance(v, second),
{
    law_setting_reresolves::<bool>(v.enabled, first, second);
    law_setting_reresolves::<Scalar>(v.alpha, first, second);
    law_setting_reresolves::<Scalar>(v.size, first, second);
    law_setting_reresolves::<Scalar>(v.lifetime, first, second);
    law_setting_reresolves::<Scalar>(v.rate, first, second);
    law_setting_reresolves::<Scalar>(v.speed, first, second);
    law_setting_reresolves::<Scalar>(v.count, first, second);
    law_setting_reresolves::<[Scalar; 3]>(v.color, first, second);
    law_setting_reresolves::<[Scalar; 3]>(v.colorn, first, second);
}

pub proof fn lemma_system(
    v: ParticleSystemView,
    first: Map<Seq<char>, PropertyView>,
    second: Map<Seq<char>, PropertyView>,
)
    requires
        first.dom().subset_of(second.dom()) || system_reads(v, kept_names(first, second)),
    ensures
        crate::resolve::resolved_system(crate::resolve::resolved_system(v, first), second) == crate::resolve::resolved_system(v, second),
{
    assert(crate::resolve::resolved_system(crate::resolve::resolved_system(v, first), second).initializers =~= crate::resolve::resolved_system(v, second).initializers) by {
        assert forall|i: int| 0 <= i < v.initializers.len() implies #[trigger] crate::resolve::resolved_system(crate::resolve::resolved_system(v, first), second).initializers[i] == crate::resolve::resolved_system(v, second).initializers[i] by {
            lemma_stage(v.initializers[i], first, second);
        }
    }
    assert(crate::resolve::resolved_system(crate::resolve::resolved_system(v, first), second).operators =~= crate::resolve::resolved_system(v, second).operators) by {
        assert forall|i: int| 0 <= i < v.operators.len() implies #[trigger] crate::resolve::resolved_system(crate::resolve::resolved_system(v, first), second).operators[i] == crate::resolve::resolved_system(v, second).operators[i] by {
            lemma_stage(v.operators[i], first, second);
        }
    }
    lemma_material(v.resolved_material, first, second);
}

pub proof fn lemma_particle(
    v: ParticleObjectView,
    first: Map<Seq<char>, PropertyView>,
    second: Map<Seq<char>, PropertyView>,
)
    requires
        first.dom().subset_of(second.dom()) || particle_reads(v, kept_names(first, second)),
    ensures
        crate::resolve::resolved_particle(crate::resolve::resolved_particle(v, first), second) == crate::resolve::resolved_particle(v, second),
{
    law_setting_reresolves::<[Scalar; 3]>(v.scale, first, second);
    law_setting_reresolves::<[Scalar; 3]>(v.angles, first, second);
    law_setting_reresolves::<bool>(v.visible, first, second);
    law_setting_reresolves::<[Scalar; 2]>(v.parallax_depth, first, second);
    lemma_instance(v.instanceoverride, first, second);
    lemma_system(v.system, first, second);
}

proof fn lemma_text(
    v: TextObjectView,
    first: Map<Seq<char>, PropertyView>,
    second: Map<Seq<char>, PropertyView>,
)
    requires
        first.dom().subset_of(second.dom()) || text_reads(v, kept_names(first, second)),
    ensures
        crate::resolve::resolved_text(crate::resolve::resolved_text(v, first), second) == crate::resolve::resolved_text(v, second),
{
    law_setting_reresolves::<String>(v.text, first, second);
    law_setting_reresolves::<Scalar>(v.pointsize, first, second);
    law_setting_reresolves::<[Scalar; 3]>(v.scale, first, second);
    law_setting_reresolves::<[Scalar; 4]>(v.color, first, second);
    law_setting_reresolves::<Scalar>(v.alpha, first, second);
    law_setting_reresolves::<bool>(v.visible, first, second);
}

proof fn lemma_base(
    v: BaseObjectView,
    first: Map<Seq<char>, PropertyView>,
    second: Map<Seq<char>, PropertyView>,
)
    requires
        first.dom().subset_of(second.dom()) || base_reads(v, kept_names(first, second)),
    ensures
        crate::resolve::resolved_base(crate::resolve::resolved_base(v, first), second) == crate::resolve::resolved_base(v, second),
{
    law_setting_reresolves::<[Scalar; 3]>(v.origin, first, second);
    law_setting_reresolves::<[Scalar; 3]>(v.scale, first, second);
    law_setting_reresolves::<[Scalar; 3]>(v.angles, first, second);
    law_setting_reresolves::<bool>(v.visible, first, second);
}

proof fn lemma_kind(
    v: ObjectKindView,
    first: Map<Seq<char>, PropertyView>,
    second: Map<Seq<char>, PropertyView>,
)
    requires
        first.dom().subset_of(second.dom()) || kind_reads(v, kept_names(first, second)),
    ensures
        crate::resolve::resolved_kind(crate::resolve::resolved_kind(v, first), second) == crate::resolve::resolved_kind(v, second),
{
    match v {
        ObjectKindView::Image(i) => lemma_image(i, first, second),
        ObjectKindView::Particle(p) => lemma_particle(p, first, second),
        ObjectKindView::Text(t) => lemma_text(t, first, second),
        _ => {},
    }
}

/// Resolving an object again gives what resolving it against the second bag
/// alone would give, as long as that declares what the first one did of the
/// names that the object is plainly bound to.
pub proof fn law_object_reresolves(
    v: ObjectView,
    first: Map<Seq<char>, PropertyView>,
    second: Map<Seq<char>, PropertyView>,
)
    requires
        first.dom().subset_of(second.dom()) || object_reads(v, kept_names(first, second)),
    ensures
        crate::resolve::resolved_object(crate::resolve::resolved_object(v, first), second) == crate::resolve::resolved_object(v, second),
{
    lemma_base(v.base, first, second);
    lemma_kind(v.kind, first, second);
}

/// Resolving the general settings again gives what resolving them against the
/// second bag alone would give, as long as that declares what the first one
/// did of the names that they are plainly bound to.
pub proof fn law_general_reresolves(
    v: GeneralView,
    first: Map<Seq<char>, PropertyView>,
    second: Map<Seq<char>, PropertyView>,
)
    requires
        first.dom().subset_of(second.dom()) || general_reads(v, kept_names(first, second)),
    ensures
        crate::resolve::resolved_general(crate::resolve::resolved_general(v, first), second) == crate::resolve::resolved_general(v, second),
{
    law_setting_reresolves::<[Scalar; 4]>(v.ambientcolor, first, second);
    law_setting_reresolves::<[Scalar; 4]>(v.skylightcolor, first, second);
    law_setting_reresolves::<[Scalar; 4]>(v.clearcolor, first, second);
    law_setting_reresolves::<bool>(v.camerafade, first, second);
    law_setting_reresolves::<bool>(v.bloom, first, second);
    law_setting_reresolves::<Scalar>(v.bloomstrength, first, second);
    law_setting_reresolves::<Scalar>(v.bloomthreshold, first, second);
    law_setting_reresolves::<bool>(v.cameraparallax, first, second);
    law_setting_reresolves::<Scalar>(v.cameraparallaxamount, first, second);
    law_setting_reresolves::<Scalar>(v.cameraparallaxdelay, first, second);
    law_setting_reresolves::<Scalar>(v.cameraparallaxmouseinfluence, first, second);
    law_setting_reresolves::<bool>(v.camerashake, first, second);
    law_setting_reresolves::<Scalar>(v.camerashakeamplitude, first, second);
    law_setting_reresolves::<Scalar>(v.camerashakeroughness, first, second);
    law_setting_reresolves::<Scalar>(v.camerashakespeed, first, second);
}

/// A bag that declares every name that a scene is plainly bound to keeps all of
/// them, whatever bag came before it.
pub proof fn law_declared_names_kept(
    v: SceneView,
    first: Map<Seq<char>, PropertyView>,
    second: Map<Seq<char>, PropertyView>,
)
    requires
        scene_reads(v, second.dom()),
    ensures
        scene_reads(v, kept_names(first, second)),
{
    let some = second.dom();
    let more = kept_names(first, second);
    assert forall|i: int| 0 <= i < v.objects.len() implies object_reads(
        #[trigger] v.objects[i],
        more,
    ) by {
        assert(object_reads(v.objects[i], some));
        match v.objects[i].kind {
            ObjectKindView::Image(image) => {
                lemma_image_reads(image, some, more);
            },
            ObjectKindView::Particle(particle) => {
                lemma_material_reads(particle.system.resolved_material, some, more);
            },
            _ => {},
        }
    }
}

/// A resolved scene can be resolved again after a property changes: the result
/// is the scene resolved against the new bag alone, as long as that declares
/// what the first one did of the names that the scene is plainly bound to. It
/// does wherever it declares all of these, and where it declares whatever the
/// first one did: resolving twice against one bag changes nothing.
pub proof fn law_scene_reresolves(
    v: SceneView,
    first: Map<Seq<char>, PropertyView>,
    second: Map<Seq<char>, PropertyView>,
)
    requires
        first.dom().subset_of(second.dom()) || scene_reads(v, kept_names(first, second)),
    ensures
        crate::resolve::resolved_scene(crate::resolve::resolved_scene(v, first), second) == crate::resolve::resolved_scene(v, second),
{
    law_general_reresolves(v.general, first, second);
    assert(crate::resolve::resolved_scene(crate::resolve::resolved_scene(v, first), second).objects =~= crate::resolve::resolved_scene(v, second).objects) by {
        assert forall|i: int| 0 <= i < v.objects.len() implies #[trigger] crate::resolve::resolved_scene(crate::resolve::resolved_scene(v, first), second).objects[i] == crate::resolve::resolved_scene(v, second).objects[i] by {
            law_object_reresolves(v.objects[i], first, second);
        }
    }
}

/// Setting a declared property never takes a name away, so that a resolved
/// scene may be resolved again after it.
pub proof fn law_set_keeps_names(bag: Map<Seq<char>, PropertyView>, name: Seq<char>, value: PropertyView)
    requires
        bag.dom().contains(name),
    ensures
        bag.insert(name, value).dom() == bag.dom(),
        bag.dom().subset_of(bag.insert(name, value).dom()),
{
    assert(bag.insert(name, value).dom() =~= bag.dom());
}

/// Whether a setting, after its resolution, is what its binding asks for: the
/// declared property that it names, whether the property that it names has the
/// text that it waits for, or, with neither, what it was. Where it is bound to
/// stays as it was.
pub open spec fn follows<T: Resolvable>(
    before: SettingView<T::Shown>,
    after: SettingView<T::Shown>,
    bag: Map<Seq<char>, PropertyView>,
) -> bool {
    &&& after.user == before.user
    &&& after.script == before.script
    &&& before.user is None ==> after.value == before.value
    &&& before.user matches Some(UserRefView::Name(name)) ==> bag.dom().contains(name)
        ==> after.value == T::of_property(bag[name])
    &&& before.user matches Some(UserRefView::Name(name)) ==> !bag.dom().contains(name)
        ==> after.value == before.value
    &&& before.user matches Some(UserRefView::Conditional { name, condition })
        ==> bag.dom().contains(name) && crate::property::condition_text(bag[name]) == condition
        ==> after.value == T::of_bool(true)
    &&& before.user matches Some(UserRefView::Conditional { name, condition })
        ==> !bag.dom().contains(name) || crate::property::condition_text(bag[name]) != condition
        ==> after.value == T::of_bool(false)
}

/// A setting follows its binding.
pub proof fn law_setting_follows<T: Resolvable>(
    us: SettingView<T::Shown>,
    bag: Map<Seq<char>, PropertyView>,
)
    ensures
        follows::<T>(us, crate::resolve::resolved::<T>(us, bag), bag),
{
}

/// Whether constants, after their resolution, are those that stood there, each
/// following its binding.
pub open spec fn constants_follow(
    before: Map<Seq<char>, SettingView<DynamicView>>,
    after: Map<Seq<char>, SettingView<DynamicView>>,
    bag: Map<Seq<char>, PropertyView>,
) -> bool {
    &&& after.dom() == before.dom()
    &&& forall|k: Seq<char>|
        before.dom().contains(k) ==> follows::<DynamicValue>(before[k], #[trigger] after[k], bag)
}

/// Whether passes, after their resolution, are the passes that stood there with
/// constants that follow their bindings.
pub open spec fn passes_follow(
    before: Seq<PassView>,
    after: Seq<PassView>,
    bag: Map<Seq<char>, PropertyView>,
) -> bool {
    &&& after.len() == before.len()
    &&& forall|i: int|
        0 <= i < before.len() ==> {
            &&& constants_follow(before[i].constants, (#[trigger] after[i]).constants, bag)
            &&& after[i] == (PassView { constants: after[i].constants, ..before[i] })
        }
}

/// The constants of every pass of a material follow their bindings, and nothing
/// else of it changes.
pub proof fn law_material_follows(v: Seq<PassView>, bag: Map<Seq<char>, PropertyView>)
    ensures
        passes_follow(v, crate::resolve::resolved_passes(v, bag), bag),
        crate::resolve::resolved_material(Some(v), bag) == Some(
            crate::resolve::resolved_passes(v, bag),
        ),
        crate::resolve::resolved_material(None, bag) is None,
{
    let after = crate::resolve::resolved_passes(v, bag);
    assert forall|i: int| 0 <= i < v.len() implies {
        &&& constants_follow(v[i].constants, (#[trigger] after[i]).constants, bag)
        &&& after[i] == (PassView { constants: after[i].constants, ..v[i] })
    } by {
        law_constants_follow(v[i].constants, bag);
    }
}

/// Constants follow their bindings.
pub proof fn law_constants_follow(
    v: Map<Seq<char>, SettingView<DynamicView>>,
    bag: Map<Seq<char>, PropertyView>,
)
    ensures
        constants_follow(v, crate::resolve::resolved_constants(v, bag), bag),
{
    let after = crate::resolve::resolved_constants(v, bag);
    assert(after.dom() =~= v.dom());
    assert forall|k: Seq<char>| v.dom().contains(k) implies follows::<DynamicValue>(
        v[k],
        #[trigger] after[k],
        bag,
    ) by {
        law_setting_follows::<DynamicValue>(v[k], bag);
    }
}

/// An effect follows its bindings: whether it is visible, the constants that it
/// overrides, and those of the materials of its file. Nothing else of it
/// changes.
pub proof fn law_effect_follows(v: EffectView, bag: Map<Seq<char>, PropertyView>)
    ensures
        follows::<bool>(v.visible, crate::resolve::resolved_effect(v, bag).visible, bag),
        crate::resolve::resolved_effect(v, bag).file == v.file,
        crate::resolve::resolved_effect(v, bag).id == v.id,
        crate::resolve::resolved_effect(v, bag).name == v.name,
        crate::resolve::resolved_effect(v, bag).passes.len() == v.passes.len(),
        forall|i: int|
            0 <= i < v.passes.len() ==> {
                let after = #[trigger] crate::resolve::resolved_effect(v, bag).passes[i];
                &&& constants_follow(
                    v.passes[i].constantshadervalues,
                    after.constantshadervalues,
                    bag,
                )
                &&& after == (PassOverrideView {
                    constantshadervalues: after.constantshadervalues,
                    ..v.passes[i]
                })
            },
        v.resolved is None ==> crate::resolve::resolved_effect(v, bag).resolved is None,
        v.resolved is Some ==> crate::resolve::resolved_effect(v, bag).resolved is Some,
        v.resolved matches Some(f) ==> {
            let after = crate::resolve::resolved_effect(v, bag).resolved->0;
            &&& after.passes.len() == f.passes.len()
            &&& after == (EffectFileView { passes: after.passes, ..f })
            &&& forall|i: int|
                0 <= i < f.passes.len() ==> {
                    &&& (#[trigger] after.passes[i]) == (EffectPassView {
                        resolved: after.passes[i].resolved,
                        ..f.passes[i]
                    })
                    &&& after.passes[i].resolved is Some == f.passes[i].resolved is Some
                    &&& f.passes[i].resolved is Some ==> passes_follow(
                        f.passes[i].resolved->0,
                        after.passes[i].resolved->0,
                        bag,
                    )
                }
        },
{
    let whole = crate::resolve::resolved_effect(v, bag);
    law_setting_follows::<bool>(v.visible, bag);
    assert forall|i: int| 0 <= i < v.passes.len() implies {
        let after = #[trigger] whole.passes[i];
        &&& constants_follow(v.passes[i].constantshadervalues, after.constantshadervalues, bag)
        &&& after == (PassOverrideView {
            constantshadervalues: after.constantshadervalues,
            ..v.passes[i]
        })
    } by {
        law_constants_follow(v.passes[i].constantshadervalues, bag);
    }
    if v.resolved is Some {
        let f = v.resolved->0;
        let after = whole.resolved->0;
        assert forall|i: int| 0 <= i < f.passes.len() implies {
            &&& (#[trigger] after.passes[i]) == (EffectPassView {
                resolved: after.passes[i].resolved,
                ..f.passes[i]
            })
            &&& after.passes[i].resolved is Some == f.passes[i].resolved is Some
            &&& f.passes[i].resolved is Some ==> passes_follow(
                f.passes[i].resolved->0,
                after.passes[i].resolved->0,
                bag,
            )
        } by {
            if f.passes[i].resolved is Some {
                law_material_follows(f.passes[i].resolved->0, bag);
            }
        }
    }
}

/// Every bound field of an animation layer follows its binding.
pub proof fn law_layer_follows(v: AnimationLayerView, bag: Map<Seq<char>, PropertyView>)
    ensures
        follows::<Scalar>(v.rate, crate::resolve::resolved_layer(v, bag).rate, bag),
        follows::<bool>(v.visible, crate::resolve::resolved_layer(v, bag).visible, bag),
        follows::<Scalar>(v.blend, crate::resolve::resolved_layer(v, bag).blend, bag),
        follows::<i64>(v.animation, crate::resolve::resolved_layer(v, bag).animation, bag),
        crate::resolve::resolved_layer(v, bag).id == v.id,
{
    law_setting_follows::<Scalar>(v.rate, bag);
    law_setting_follows::<bool>(v.visible, bag);
    law_setting_follows::<Scalar>(v.blend, bag);
    law_setting_follows::<i64>(v.animation, bag);
}

/// Every bound field of an image follows its binding, its material, its effects
/// and its animation layers do so in turn, and nothing else of it changes.
pub proof fn law_image_follows(v: ImageObjectView, bag: Map<Seq<char>, PropertyView>)
    ensures
        follows::<[Scalar; 3]>(v.scale, crate::resolve::resolved_image(v, bag).scale, bag),
        follows::<[Scalar; 3]>(v.angles, crate::resolve::resolved_image(v, bag).angles, bag),
        follows::<bool>(v.visible, crate::resolve::resolved_image(v, bag).visible, bag),
        follows::<Scalar>(v.alpha, crate::resolve::resolved_image(v, bag).alpha, bag),
        follows::<[Scalar; 4]>(v.color, crate::resolve::resolved_image(v, bag).color, bag),
        follows::<[Scalar; 2]>(v.parallax_depth, crate::resolve::resolved_image(v, bag).parallax_depth, bag),
        follows::<i64>(v.color_blend_mode, crate::resolve::resolved_image(v, bag).color_blend_mode, bag),
        follows::<Scalar>(v.brightness, crate::resolve::resolved_image(v, bag).brightness, bag),
        crate::resolve::resolved_image(v, bag).image == v.image,
        crate::resolve::resolved_image(v, bag).model == v.model,
        crate::resolve::resolved_image(v, bag).alignment == v.alignment,
        crate::resolve::resolved_image(v, bag).size == v.size,
        crate::resolve::resolved_image(v, bag).instance == v.instance,
        v.material is None ==> crate::resolve::resolved_image(v, bag).material is None,
        v.material is Some ==> crate::resolve::resolved_image(v, bag).material is Some,
        v.material matches Some(m) ==> passes_follow(
            m,
            crate::resolve::resolved_image(v, bag).material->0,
            bag,
        ),
        crate::resolve::resolved_image(v, bag).effects.len() == v.effects.len(),
        forall|i: int|
            0 <= i < v.effects.len() ==> #[trigger] crate::resolve::resolved_image(
                v,
                bag,
            ).effects[i] == crate::resolve::resolved_effect(v.effects[i], bag),
        crate::resolve::resolved_image(v, bag).animationlayers.len() == v.animationlayers.len(),
        forall|i: int|
            0 <= i < v.animationlayers.len() ==> #[trigger] crate::resolve::resolved_image(
                v,
                bag,
            ).animationlayers[i] == crate::resolve::resolved_layer(v.animationlayers[i], bag),
{
    law_setting_follows::<[Scalar; 3]>(v.scale, bag);
    law_setting_follows::<[Scalar; 3]>(v.angles, bag);
    law_setting_follows::<bool>(v.visible, bag);
    law_setting_follows::<Scalar>(v.alpha, bag);
    law_setting_follows::<[Scalar; 4]>(v.color, bag);
    law_setting_follows::<[Scalar; 2]>(v.parallax_depth, bag);
    law_setting_follows::<i64>(v.color_blend_mode, bag);
    law_setting_follows::<Scalar>(v.brightness, bag);
    if v.material is Some {
        law_material_follows(v.material->0, bag);
    }
}

/// Every override of a particle system follows its binding.
pub proof fn law_instance_follows(v: InstanceOverrideView, bag: Map<Seq<char>, PropertyView>)
    ensures
        follows::<bool>(v.enabled, crate::resolve::resolved_instance(v, bag).enabled, bag),
        follows::<Scalar>(v.alpha, crate::resolve::resolved_instance(v, bag).alpha, bag),
        follows::<Scalar>(v.size, crate::resolve::resolved_instance(v, bag).size, bag),
        follows::<Scalar>(v.lifetime, crate::resolve::resolved_instance(v, bag).lifetime, bag),
        follows::<Scalar>(v.rate, crate::resolve::resolved_instance(v, bag).rate, bag),
        follows::<Scalar>(v.speed, crate::resolve::resolved_instance(v, bag).speed, bag),
        follows::<Scalar>(v.count, crate::resolve::resolved_instance(v, bag).count, bag),
        follows::<[Scalar; 3]>(v.color, crate::resolve::resolved_instance(v, bag).color, bag),
        follows::<[Scalar; 3]>(v.colorn, crate::resolve::resolved_instance(v, bag).colorn, bag),
{
    law_setting_follows::<bool>(v.enabled, bag);
    law_setting_follows::<Scalar>(v.alpha, bag);
    law_setting_follows::<Scalar>(v.size, bag);
    law_setting_follows::<Scalar>(v.lifetime, bag);
    law_setting_follows::<Scalar>(v.rate, bag);
    law_setting_follows::<Scalar>(v.speed, bag);
    law_setting_follows::<Scalar>(v.count, bag);
    law_setting_follows::<[Scalar; 3]>(v.color, bag);
    law_setting_follows::<[Scalar; 3]>(v.colorn, bag);
}

/// The parameters of every initializer and operator of a particle system follow
/// their bindings, its material does so in turn, and nothing else of it changes.
pub proof fn law_system_follows(v: ParticleSystemView, bag: Map<Seq<char>, PropertyView>)
    ensures
        crate::resolve::resolved_system(v, bag).initializers.len() == v.initializers.len(),
        forall|i: int|
            0 <= i < v.initializers.len() ==> {
                let after = #[trigger] crate::resolve::resolved_system(v, bag).initializers[i];
                &&& after == (NamedStageView { params: after.params, ..v.initializers[i] })
                &&& constants_follow(v.initializers[i].params, after.params, bag)
            },
        crate::resolve::resolved_system(v, bag).operators.len() == v.operators.len(),
        forall|i: int|
            0 <= i < v.operators.len() ==> {
                let after = #[trigger] crate::resolve::resolved_system(v, bag).operators[i];
                &&& after == (NamedStageView { params: after.params, ..v.operators[i] })
                &&& constants_follow(v.operators[i].params, after.params, bag)
            },
        v.resolved_material is None ==> crate::resolve::resolved_system(
            v,
            bag,
        ).resolved_material is None,
        v.resolved_material is Some ==> crate::resolve::resolved_system(
            v,
            bag,
        ).resolved_material is Some,
        v.resolved_material matches Some(m) ==> passes_follow(
            m,
            crate::resolve::resolved_system(v, bag).resolved_material->0,
            bag,
        ),
        ({
            let after = crate::resolve::resolved_system(v, bag);
            after == (ParticleSystemView {
                initializers: after.initializers,
                operators: after.operators,
                resolved_material: after.resolved_material,
                ..v
            })
        }),
{
    let whole = crate::resolve::resolved_system(v, bag);
    assert forall|i: int| 0 <= i < v.initializers.len() implies {
        let after = #[trigger] whole.initializers[i];
        &&& after == (NamedStageView { params: after.params, ..v.initializers[i] })
        &&& constants_follow(v.initializers[i].params, after.params, bag)
    } by {
        law_constants_follow(v.initializers[i].params, bag);
    }
    assert forall|i: int| 0 <= i < v.operators.len() implies {
        let after = #[trigger] whole.operators[i];
        &&& after == (NamedStageView { params: after.params, ..v.operators[i] })
        &&& constants_follow(v.operators[i].params, after.params, bag)
    } by {
        law_constants_follow(v.operators[i].params, bag);
    }
    if v.resolved_material is Some {
        law_material_follows(v.resolved_material->0, bag);
    }
}

/// Every bound field of a particle object follows its binding, its overrides and
/// its system do so in turn, and nothing else of it changes.
pub proof fn law_particle_follows(v: ParticleObjectView, bag: Map<Seq<char>, PropertyView>)
    ensures
        follows::<[Scalar; 3]>(v.scale, crate::resolve::resolved_particle(v, bag).scale, bag),
        follows::<[Scalar; 3]>(v.angles, crate::resolve::resolved_particle(v, bag).angles, bag),
        follows::<bool>(v.visible, crate::resolve::resolved_particle(v, bag).visible, bag),
        follows::<[Scalar; 2]>(v.parallax_depth, crate::resolve::resolved_particle(v, bag).parallax_depth, bag),
        crate::resolve::resolved_particle(v, bag).particle_file == v.particle_file,
        crate::resolve::resolved_particle(v, bag).instanceoverride
            == crate::resolve::resolved_instance(v.instanceoverride, bag),
        crate::resolve::resolved_particle(v, bag).system == crate::resolve::resolved_system(
            v.system,
            bag,
        ),
{
    law_setting_follows::<[Scalar; 3]>(v.scale, bag);
    law_setting_follows::<[Scalar; 3]>(v.angles, bag);
    law_setting_follows::<bool>(v.visible, bag);
    law_setting_follows::<[Scalar; 2]>(v.parallax_depth, bag);
}

/// Every bound field of a text object follows its binding, and nothing else of it
/// changes.
pub proof fn law_text_follows(v: TextObjectView, bag: Map<Seq<char>, PropertyView>)
    ensures
        follows::<String>(v.text, crate::resolve::resolved_text(v, bag).text, bag),
        follows::<Scalar>(v.pointsize, crate::resolve::resolved_text(v, bag).pointsize, bag),
        follows::<[Scalar; 3]>(v.scale, crate::resolve::resolved_text(v, bag).scale, bag),
        follows::<[Scalar; 4]>(v.color, crate::resolve::resolved_text(v, bag).color, bag),
        follows::<Scalar>(v.alpha, crate::resolve::resolved_text(v, bag).alpha, bag),
        follows::<bool>(v.visible, crate::resolve::resolved_text(v, bag).visible, bag),
        crate::resolve::resolved_text(v, bag).font == v.font,
        crate::resolve::resolved_text(v, bag).size == v.size,
        crate::resolve::resolved_text(v, bag).horizontalalign == v.horizontalalign,
        crate::resolve::resolved_text(v, bag).verticalalign == v.verticalalign,
        crate::resolve::resolved_text(v, bag).padding == v.padding,
{
    law_setting_follows::<String>(v.text, bag);
    law_setting_follows::<Scalar>(v.pointsize, bag);
    law_setting_follows::<[Scalar; 3]>(v.scale, bag);
    law_setting_follows::<[Scalar; 4]>(v.color, bag);
    law_setting_follows::<Scalar>(v.alpha, bag);
    law_setting_follows::<bool>(v.visible, bag);
}

/// Every bound field that all objects have follows its binding, and nothing else
/// of them changes.
pub proof fn law_base_follows(v: BaseObjectView, bag: Map<Seq<char>, PropertyView>)
    ensures
        follows::<[Scalar; 3]>(v.origin, crate::resolve::resolved_base(v, bag).origin, bag),
        follows::<[Scalar; 3]>(v.scale, crate::resolve::resolved_base(v, bag).scale, bag),
        follows::<[Scalar; 3]>(v.angles, crate::resolve::resolved_base(v, bag).angles, bag),
        follows::<bool>(v.visible, crate::resolve::resolved_base(v, bag).visible, bag),
        crate::resolve::resolved_base(v, bag).id == v.id,
        crate::resolve::resolved_base(v, bag).name == v.name,
        crate::resolve::resolved_base(v, bag).sortorder == v.sortorder,
        crate::resolve::resolved_base(v, bag).dependencies == v.dependencies,
        crate::resolve::resolved_base(v, bag).parent == v.parent,
        crate::resolve::resolved_base(v, bag).angles_animation == v.angles_animation,
{
    law_setting_follows::<[Scalar; 3]>(v.origin, bag);
    law_setting_follows::<[Scalar; 3]>(v.scale, bag);
    law_setting_follows::<[Scalar; 3]>(v.angles, bag);
    law_setting_follows::<bool>(v.visible, bag);
}

/// Every bound general setting follows its binding, and nothing else of them
/// changes.
pub proof fn law_general_follows(v: GeneralView, bag: Map<Seq<char>, PropertyView>)
    ensures
        follows::<[Scalar; 4]>(v.ambientcolor, crate::resolve::resolved_general(v, bag).ambientcolor, bag),
        follows::<[Scalar; 4]>(v.skylightcolor, crate::resolve::resolved_general(v, bag).skylightcolor, bag),
        follows::<[Scalar; 4]>(v.clearcolor, crate::resolve::resolved_general(v, bag).clearcolor, bag),
        follows::<bool>(v.camerafade, crate::resolve::resolved_general(v, bag).camerafade, bag),
        follows::<bool>(v.bloom, crate::resolve::resolved_general(v, bag).bloom, bag),
        follows::<Scalar>(v.bloomstrength, crate::resolve::resolved_general(v, bag).bloomstrength, bag),
        follows::<Scalar>(v.bloomthreshold, crate::resolve::resolved_general(v, bag).bloomthreshold, bag),
        follows::<bool>(v.cameraparallax, crate::resolve::resolved_general(v, bag).cameraparallax, bag),
        follows::<Scalar>(v.cameraparallaxamount, crate::resolve::resolved_general(v, bag).cameraparallaxamount, bag),
        follows::<Scalar>(v.cameraparallaxdelay, crate::resolve::resolved_general(v, bag).cameraparallaxdelay, bag),
        follows::<Scalar>(v.cameraparallaxmouseinfluence, crate::resolve::resolved_general(v, bag).cameraparallaxmouseinfluence, bag),
        follows::<bool>(v.camerashake, crate::resolve::resolved_general(v, bag).camerashake, bag),
        follows::<Scalar>(v.camerashakeamplitude, crate::resolve::resolved_general(v, bag).camerashakeamplitude, bag),
        follows::<Scalar>(v.camerashakeroughness, crate::resolve::resolved_general(v, bag).camerashakeroughness, bag),
        follows::<Scalar>(v.camerashakespeed, crate::resolve::resolved_general(v, bag).camerashakespeed, bag),
        crate::resolve::resolved_general(v, bag).customsortorder == v.customsortorder,
{
    law_setting_follows::<[Scalar; 4]>(v.ambientcolor, bag);
    law_setting_follows::<[Scalar; 4]>(v.skylightcolor, bag);
    law_setting_follows::<[Scalar; 4]>(v.clearcolor, bag);
    law_setting_follows::<bool>(v.camerafade, bag);
    law_setting_follows::<bool>(v.bloom, bag);
    law_setting_follows::<Scalar>(v.bloomstrength, bag);
    law_setting_follows::<Scalar>(v.bloomthreshold, bag);
    law_setting_follows::<bool>(v.cameraparallax, bag);
    law_setting_follows::<Scalar>(v.cameraparallaxamount, bag);
    law_setting_follows::<Scalar>(v.cameraparallaxdelay, bag);
    law_setting_follows::<Scalar>(v.cameraparallaxmouseinfluence, bag);
    law_setting_follows::<bool>(v.camerashake, bag);
    law_setting_follows::<Scalar>(v.camerashakeamplitude, bag);
    law_setting_follows::<Scalar>(v.camerashakeroughness, bag);
    law_setting_follows::<Scalar>(v.camerashakespeed, bag);
}

/// The field of view of a camera follows its binding, and nothing else of it
/// changes.
pub proof fn law_camera_follows(v: CameraView, bag: Map<Seq<char>, PropertyView>)
    ensures
        follows::<Scalar>(v.fov, crate::resolve::resolved_camera(v, bag).fov, bag),
        crate::resolve::resolved_camera(v, bag).eye == v.eye,
        crate::resolve::resolved_camera(v, bag).center == v.center,
        crate::resolve::resolved_camera(v, bag).up == v.up,
        crate::resolve::resolved_camera(v, bag).nearz == v.nearz,
        crate::resolve::resolved_camera(v, bag).farz == v.farz,
        crate::resolve::resolved_camera(v, bag).projection == v.projection,
{
    law_setting_follows::<Scalar>(v.fov, bag);
}

/// Resolving a scene keeps its camera and the number and order of its objects,
/// resolves its general settings, and of each object the base fields and what
/// it is; nothing but an image, a particle system or a text changes in kind.
pub proof fn law_scene_follows(v: SceneView, bag: Map<Seq<char>, PropertyView>)
    ensures
        crate::resolve::resolved_scene(v, bag).camera == v.camera,
        crate::resolve::resolved_scene(v, bag).general == crate::resolve::resolved_general(
            v.general,
            bag,
        ),
        crate::resolve::resolved_scene(v, bag).objects.len() == v.objects.len(),
        forall|i: int|
            0 <= i < v.objects.len() ==> {
                let before = v.objects[i];
                let after = #[trigger] crate::resolve::resolved_scene(v, bag).objects[i];
                &&& after.base == crate::resolve::resolved_base(before.base, bag)
                &&& after.extra == before.extra
                &&& before.kind matches ObjectKindView::Image(k) ==> after.kind
                    == ObjectKindView::Image(crate::resolve::resolved_image(k, bag))
                &&& before.kind matches ObjectKindView::Particle(k) ==> after.kind
                    == ObjectKindView::Particle(crate::resolve::resolved_particle(k, bag))
                &&& before.kind matches ObjectKindView::Text(k) ==> after.kind
                    == ObjectKindView::Text(crate::resolve::resolved_text(k, bag))
                &&& !(before.kind is Image || before.kind is Particle || before.kind is Text)
                    ==> after.kind == before.kind
            },
{
}

} // verus!
