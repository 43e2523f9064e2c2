//! Property resolution: every bound field takes the value of its property.
use vstd::prelude::*;

use crate::material::{EffectFile, EffectFileView, EffectPassView, Material, PassView};
use crate::number::Scalar;
use crate::object::{
    AnimationLayer, AnimationLayerView, BaseObjectView, Effect, EffectView, ImageObject, ImageObjectView,
    Object, ObjectKind, ObjectKindView, ObjectView, ParticleObject, ParticleObjectView, PassOverride,
    PassOverrideView, TextObject, TextObjectView,
};
use crate::particle::{InstanceOverrideView, NamedStage, NamedStageView, ParticleSystemView};
use crate::property::{PropertyBag, PropertyView, Resolvable};
use crate::scene::{Camera, CameraView, General, GeneralView, Scene, SceneView};
use crate::text::same;
use crate::user::{ConstantValues, SettingView, UserRef, UserRefView, UserSetting};
use crate::value::{DynamicValue, DynamicView};

verus! {

/// A setting against the bag: one bound by name takes the value of a declared
/// property, one bound by a condition takes whether the property is declared
/// and equal to it, and any other keeps its value. The bindings stay.
pub open spec fn resolved<T: Resolvable>(
    us: SettingView<T::Shown>,
    bag: Map<Seq<char>, PropertyView>,
) -> SettingView<T::Shown> {
    SettingView {
        value: match us.user {
            Some(UserRefView::Name(name)) => if bag.dom().contains(name) {
                T::of_property(bag[name])
            } else {
                us.value
            },
            Some(UserRefView::Conditional { name, condition }) => T::of_bool(
                bag.dom().contains(name) && crate::property::condition_text(bag[name]) == condition,
            ),
            None => us.value,
        },
        user: us.user,
        script: us.script,
    }
}

/// Resolve one setting against the bag. Scripts are left for the runtime.
pub fn resolve_us<T: Resolvable>(us: &mut UserSetting<T>, bag: &PropertyBag)
    requires
        bag.wf(),
    ensures
        crate::user::setting(*final(us)) == resolved::<T>(crate::user::setting(*old(us)), bag@),
{
    let outcome: Option<T> = match &us.user {
        Some(UserRef::Name(name)) => match bag.get(name.as_str()) {
            Some(v) => Some(T::from_property(v)),
            None => None,
        },
        Some(UserRef::Conditional { name, condition }) => {
            let equal = match bag.get(name.as_str()) {
                Some(v) => {
                    let text = v.as_condition_string();
                    same(text.as_str(), condition.as_str())
                },
                None => false,
            };
            Some(T::from_bool(equal))
        },
        None => None,
    };
    match outcome {
        Some(v) => {
            us.value = v;
        },
        None => {},
    }
}

/// Constants against the bag.
pub open spec fn resolved_constants(
    c: Map<Seq<char>, SettingView<DynamicView>>,
    bag: Map<Seq<char>, PropertyView>,
) -> Map<Seq<char>, SettingView<DynamicView>> {
    c.map_values(|us: SettingView<DynamicView>| resolved::<DynamicValue>(us, bag))
}

/// Resolve a map of constants.
pub fn resolve_constants(constants: &mut ConstantValues, bag: &PropertyBag)
    requires
        bag.wf(),
        old(constants).wf(),
    ensures
        final(constants).wf(),
        crate::user::constants(*final(constants)) == resolved_constants(
            crate::user::constants(*old(constants)),
            bag@,
        ),
{
    let ghost was = constants.entries@;
    let mut i: usize = 0;
    while i < constants.entries.len()
        invariant
            bag.wf(),
            i <= constants.entries@.len(),
            constants.entries@.len() == was.len(),
            forall|k: int| 0 <= k < was.len() ==> (#[trigger] constants.entries@[k]).0 == was[k].0,
            forall|k: int|
                0 <= k < i ==> crate::user::setting((#[trigger] constants.entries@[k]).1) == resolved::<
                    DynamicValue,
                >(crate::user::setting(was[k].1), bag@),
            forall|k: int| i <= k < was.len() ==> (#[trigger] constants.entries@[k]).1 == was[k].1,
        decreases constants.entries@.len() - i,
    {
        resolve_us(&mut constants.entries[i].1, bag);
        i = i + 1;
    }
    proof {
        let now = constants.entries@;
        assert(crate::table::ordered(now)) by {
            assert forall|x: int, y: int| 0 <= x < y < now.len() implies crate::text::before(
                #[trigger] now[x].0@,
                #[trigger] now[y].0@,
            ) by {
                assert(crate::text::before(was[x].0@, was[y].0@));
            }
        }
        let a = crate::user::constants(*constants);
        let b = resolved_constants(crate::user::constants(*old(constants)), bag@);
        assert forall|k: Seq<char>| a.dom().contains(k) == b.dom().contains(k) by {
            if a.dom().contains(k) {
                let j = choose|j: int| crate::table::named(now, k, j);
                assert(crate::table::named(was, k, j));
            }
            if b.dom().contains(k) {
                let j = choose|j: int| crate::table::named(was, k, j);
                assert(crate::table::named(now, k, j));
            }
        }
        assert forall|k: Seq<char>| a.dom().contains(k) implies a[k] == b[k] by {
            let j = choose|j: int| crate::table::named(now, k, j);
            crate::table::lemma_entry(now, j);
            crate::table::lemma_entry(was, j);
            assert(crate::table::named(was, k, j));
        }
        assert(a =~= b);
    }
}

/// General settings against the bag.
pub open spec fn resolved_general(v: GeneralView, bag: Map<Seq<char>, PropertyView>) -> GeneralView {
    GeneralView {
        ambientcolor: resolved::<[Scalar; 4]>(v.ambientcolor, bag),
        skylightcolor: resolved::<[Scalar; 4]>(v.skylightcolor, bag),
        clearcolor: resolved::<[Scalar; 4]>(v.clearcolor, bag),
        camerafade: resolved::<bool>(v.camerafade, bag),
        bloom: resolved::<bool>(v.bloom, bag),
        bloomstrength: resolved::<Scalar>(v.bloomstrength, bag),
        bloomthreshold: resolved::<Scalar>(v.bloomthreshold, bag),
        cameraparallax: resolved::<bool>(v.cameraparallax, bag),
        cameraparallaxamount: resolved::<Scalar>(v.cameraparallaxamount, bag),
        cameraparallaxdelay: resolved::<Scalar>(v.cameraparallaxdelay, bag),
        cameraparallaxmouseinfluence: resolved::<Scalar>(v.cameraparallaxmouseinfluence, bag),
        camerashake: resolved::<bool>(v.camerashake, bag),
        camerashakeamplitude: resolved::<Scalar>(v.camerashakeamplitude, bag),
        camerashakeroughness: resolved::<Scalar>(v.camerashakeroughness, bag),
        camerashakespeed: resolved::<Scalar>(v.camerashakespeed, bag),
        ..v
    }
}

impl General {
    /// Resolve every property-bound field against the bag.
    pub fn resolve(&mut self, bag: &PropertyBag)
        requires
            bag.wf(),
        ensures
            final(self)@ == resolved_general(old(self)@, bag@),
    {
        resolve_us(&mut self.ambientcolor, bag);
        resolve_us(&mut self.skylightcolor, bag);
        resolve_us(&mut self.clearcolor, bag);
        resolve_us(&mut self.camerafade, bag);
        resolve_us(&mut self.bloom, bag);
        resolve_us(&mut self.bloomstrength, bag);
        resolve_us(&mut self.bloomthreshold, bag);
        resolve_us(&mut self.cameraparallax, bag);
        resolve_us(&mut self.cameraparallaxamount, bag);
        resolve_us(&mut self.cameraparallaxdelay, bag);
        resolve_us(&mut self.cameraparallaxmouseinfluence, bag);
        resolve_us(&mut self.camerashake, bag);
        resolve_us(&mut self.camerashakeamplitude, bag);
        resolve_us(&mut self.camerashakeroughness, bag);
        resolve_us(&mut self.camerashakespeed, bag);
    }
}

/// A camera against the bag: its field of view.
pub open spec fn resolved_camera(v: CameraView, bag: Map<Seq<char>, PropertyView>) -> CameraView {
    CameraView { fov: resolved::<Scalar>(v.fov, bag), ..v }
}

impl Camera {
    /// Resolve the field of view against the bag.
    pub fn reresolve(&mut self, bag: &PropertyBag)
        requires
            bag.wf(),
        ensures
            final(self)@ == resolved_camera(old(self)@, bag@),
    {
        resolve_us(&mut self.fov, bag);
    }
}

/// A pass against the bag.
pub open spec fn resolved_pass(p: PassView, bag: Map<Seq<char>, PropertyView>) -> PassView {
    PassView { constants: resolved_constants(p.constants, bag), ..p }
}

/// Passes against the bag.
pub open spec fn resolved_passes(v: Seq<PassView>, bag: Map<Seq<char>, PropertyView>) -> Seq<PassView> {
    v.map_values(|p: PassView| resolved_pass(p, bag))
}

/// Resolve the constants of every pass of a material.
pub fn resolve_material(material: &mut Material, bag: &PropertyBag)
    requires
        bag.wf(),
        old(material).wf(),
    ensures
        final(material).wf(),
        final(material)@ == resolved_passes(old(material)@, bag@),
{
    let ghost was = material.passes@;
    let mut i: usize = 0;
    while i < material.passes.len()
        invariant
            bag.wf(),
            i <= material.passes@.len(),
            material.passes@.len() == was.len(),
            crate::material::passes_wf(material.passes@),
            forall|k: int|
                0 <= k < i ==> (#[trigger] material.passes@[k])@ == resolved_pass(was[k]@, bag@),
            forall|k: int| i <= k < was.len() ==> #[trigger] material.passes@[k] == was[k],
        decreases material.passes@.len() - i,
    {
        let ghost before = material.passes@;
        assert(before[i as int].wf());
        resolve_constants(&mut material.passes[i].constantshadervalues, bag);
        assert forall|k: int| 0 <= k < material.passes@.len() implies (#[trigger] material.passes@[k]).wf() by {
            if k != i {
                assert(material.passes@[k] == before[k]);
            }
        }
        i = i + 1;
    }
    assert(material@ =~= resolved_passes(old(material)@, bag@));
}

/// An optional material against the bag.
pub open spec fn resolved_material(
    m: Option<Seq<PassView>>,
    bag: Map<Seq<char>, PropertyView>,
) -> Option<Seq<PassView>> {
    match m {
        Some(p) => Some(resolved_passes(p, bag)),
        None => None,
    }
}

/// Resolve a material that may not be loaded.
fn resolve_opt_material(m: &mut Option<Material>, bag: &PropertyBag)
    requires
        bag.wf(),
        crate::material::opt_material_wf(*old(m)),
    ensures
        crate::material::opt_material_wf(*final(m)),
        crate::material::opt_material(*final(m)) == resolved_material(
            crate::material::opt_material(*old(m)),
            bag@,
        ),
{
    match m {
        Some(material) => resolve_material(material, bag),
        None => {},
    }
}

/// An override of an effect pass against the bag.
pub open spec fn resolved_override(
    p: PassOverrideView,
    bag: Map<Seq<char>, PropertyView>,
) -> PassOverrideView {
    PassOverrideView {
        constantshadervalues: resolved_constants(p.constantshadervalues, bag),
        ..p
    }
}

/// A pass of an effect file against the bag.
pub open spec fn resolved_effect_pass(
    p: EffectPassView,
    bag: Map<Seq<char>, PropertyView>,
) -> EffectPassView {
    EffectPassView { resolved: resolved_material(p.resolved, bag), ..p }
}

/// An effect file against the bag.
pub open spec fn resolved_effect_file(
    f: EffectFileView,
    bag: Map<Seq<char>, PropertyView>,
) -> EffectFileView {
    EffectFileView {
        passes: f.passes.map_values(|p: EffectPassView| resolved_effect_pass(p, bag)),
        ..f
    }
}

/// An effect against the bag.
pub open spec fn resolved_effect(e: EffectView, bag: Map<Seq<char>, PropertyView>) -> EffectView {
    EffectView {
        visible: resolved::<bool>(e.visible, bag),
        passes: e.passes.map_values(|p: PassOverrideView| resolved_override(p, bag)),
        resolved: match e.resolved {
            Some(f) => Some(resolved_effect_file(f, bag)),
            None => None,
        },
        ..e
    }
}

/// Resolve the overrides of an effect.
fn resolve_overrides(v: &mut Vec<PassOverride>, bag: &PropertyBag)
    requires
        bag.wf(),
        crate::object::overrides_wf(old(v)@),
    ensures
        crate::object::overrides_wf(final(v)@),
        crate::object::override_views(final(v)@) == crate::object::override_views(old(v)@).map_values(
            |p: PassOverrideView| resolved_override(p, bag@),
        ),
{
    let ghost was = v@;
    let mut i: usize = 0;
    while i < v.len()
        invariant
            bag.wf(),
            i <= v@.len(),
            v@.len() == was.len(),
            crate::object::overrides_wf(v@),
            forall|k: int| 0 <= k < i ==> (#[trigger] v@[k])@ == resolved_override(was[k]@, bag@),
            forall|k: int| i <= k < was.len() ==> #[trigger] v@[k] == was[k],
        decreases v@.len() - i,
    {
        let ghost before = v@;
        assert(before[i as int].wf());
        resolve_constants(&mut v[i].constantshadervalues, bag);
        assert forall|k: int| 0 <= k < v@.len() implies (#[trigger] v@[k]).wf() by {
            if k != i {
                assert(v@[k] == before[k]);
            }
        }
        i = i + 1;
    }
    assert(crate::object::override_views(v@) =~= crate::object::override_views(was).map_values(
        |p: PassOverrideView| resolved_override(p, bag@),
    ));
}

/// Resolve the materials of an effect file.
fn resolve_effect_file(f: &mut EffectFile, bag: &PropertyBag)
    requires
        bag.wf(),
        old(f).wf(),
    ensures
        final(f).wf(),
        final(f)@ == resolved_effect_file(old(f)@, bag@),
{
    let ghost was = f.passes@;
    let ghost first = f@;
    let mut i: usize = 0;
    while i < f.passes.len()
        invariant
            bag.wf(),
            i <= f.passes@.len(),
            f.passes@.len() == was.len(),
            crate::material::effect_passes_wf(f.passes@),
            f@ == (EffectFileView { passes: f@.passes, ..first }),
            forall|k: int|
                0 <= k < i ==> (#[trigger] f.passes@[k])@ == resolved_effect_pass(was[k]@, bag@),
            forall|k: int| i <= k < was.len() ==> #[trigger] f.passes@[k] == was[k],
        decreases f.passes@.len() - i,
    {
        let ghost before = f.passes@;
        assert(before[i as int].wf());
        resolve_opt_material(&mut f.passes[i].resolved, bag);
        assert forall|k: int| 0 <= k < f.passes@.len() implies (#[trigger] f.passes@[k]).wf() by {
            if k != i {
                assert(f.passes@[k] == before[k]);
            }
        }
        i = i + 1;
    }
    assert(f@.passes =~= resolved_effect_file(first, bag@).passes);
}

impl Effect {
    /// Resolve the visibility, the overrides and the loaded materials.
    pub fn resolve(&mut self, bag: &PropertyBag)
        requires
            bag.wf(),
            old(self).wf(),
        ensures
            final(self).wf(),
            final(self)@ == resolved_effect(old(self)@, bag@),
    {
        resolve_us(&mut self.visible, bag);
        resolve_overrides(&mut self.passes, bag);
        match &mut self.resolved {
            Some(file) => resolve_effect_file(file, bag),
            None => {},
        }
    }
}

/// An animation layer against the bag.
pub open spec fn resolved_layer(v: AnimationLayerView, bag: Map<Seq<char>, PropertyView>) -> AnimationLayerView {
    AnimationLayerView {
        rate: resolved::<Scalar>(v.rate, bag),
        visible: resolved::<bool>(v.visible, bag),
        blend: resolved::<Scalar>(v.blend, bag),
        animation: resolved::<i64>(v.animation, bag),
        ..v
    }
}

/// An image against the bag.
pub open spec fn resolved_image(v: ImageObjectView, bag: Map<Seq<char>, PropertyView>) -> ImageObjectView {
    ImageObjectView {
        scale: resolved::<[Scalar; 3]>(v.scale, bag),
        angles: resolved::<[Scalar; 3]>(v.angles, bag),
        visible: resolved::<bool>(v.visible, bag),
        alpha: resolved::<Scalar>(v.alpha, bag),
        color: resolved::<[Scalar; 4]>(v.color, bag),
        parallax_depth: resolved::<[Scalar; 2]>(v.parallax_depth, bag),
        color_blend_mode: resolved::<i64>(v.color_blend_mode, bag),
        brightness: resolved::<Scalar>(v.brightness, bag),
        material: resolved_material(v.material, bag),
        effects: v.effects.map_values(|e: EffectView| resolved_effect(e, bag)),
        animationlayers: v.animationlayers.map_values(
            |l: AnimationLayerView| resolved_layer(l, bag),
        ),
        ..v
    }
}

/// Resolve the effects of an image.
fn resolve_effects(v: &mut Vec<Effect>, bag: &PropertyBag)
    requires
        bag.wf(),
        crate::object::effects_wf(old(v)@),
    ensures
        crate::object::effects_wf(final(v)@),
        crate::object::effect_views(final(v)@) == crate::object::effect_views(old(v)@).map_values(
            |x: EffectView| resolved_effect(x, bag@),
        ),
{
    let ghost was = v@;
    let mut i: usize = 0;
    while i < v.len()
        invariant
            bag.wf(),
            i <= v@.len(),
            v@.len() == was.len(),
            crate::object::effects_wf(v@),
            forall|k: int| 0 <= k < i ==> (#[trigger] v@[k])@ == resolved_effect(was[k]@, bag@),
            forall|k: int| i <= k < was.len() ==> #[trigger] v@[k] == was[k],
        decreases v@.len() - i,
    {
        let ghost before = v@;
        assert(before[i as int].wf());
        v[i].resolve(bag);
        assert forall|k: int| 0 <= k < v@.len() implies (#[trigger] v@[k]).wf() by {
            if k != i {
                assert(v@[k] == before[k]);
            }
        }
        i = i + 1;
    }
    assert(crate::object::effect_views(v@) =~= crate::object::effect_views(was).map_values(|x: EffectView| resolved_effect(x, bag@)));
}

/// Resolve the animation layers of an image.
fn resolve_layers(v: &mut Vec<AnimationLayer>, bag: &PropertyBag)
    requires
        bag.wf(),
    ensures
        crate::object::layer_views(final(v)@) == crate::object::layer_views(old(v)@).map_values(
            |x: AnimationLayerView| resolved_layer(x, bag@),
        ),
{
    let ghost was = v@;
    let mut i: usize = 0;
    while i < v.len()
        invariant
            bag.wf(),
            i <= v@.len(),
            v@.len() == was.len(),
            forall|k: int| 0 <= k < i ==> (#[trigger] v@[k])@ == resolved_layer(was[k]@, bag@),
            forall|k: int| i <= k < was.len() ==> #[trigger] v@[k] == was[k],
        decreases v@.len() - i,
    {
        let ghost before = v@;
        resolve_us(&mut v[i].rate, bag);
        resolve_us(&mut v[i].visible, bag);
        resolve_us(&mut v[i].blend, bag);
        resolve_us(&mut v[i].animation, bag);
        i = i + 1;
    }
    assert(crate::object::layer_views(v@) =~= crate::object::layer_views(was).map_values(|x: AnimationLayerView| resolved_layer(x, bag@)));
}

impl ImageObject {
    /// Resolve every property-bound field of the image, its loaded material,
    /// its effects and its animation layers.
    pub fn resolve(&mut self, bag: &PropertyBag)
        requires
            bag.wf(),
            old(self).wf(),
        ensures
            final(self).wf(),
            final(self)@ == resolved_image(old(self)@, bag@),
    {
        resolve_us(&mut self.scale, bag);
        resolve_us(&mut self.angles, bag);
        resolve_us(&mut self.visible, bag);
        resolve_us(&mut self.alpha, bag);
        resolve_us(&mut self.color, bag);
        resolve_us(&mut self.parallax_depth, bag);
        resolve_us(&mut self.color_blend_mode, bag);
        resolve_us(&mut self.brightness, bag);
        resolve_opt_material(&mut self.material, bag);
        resolve_effects(&mut self.effects, bag);
        resolve_layers(&mut self.animationlayers, bag);
    }
}

/// A stage of a particle system against the bag.
pub open spec fn resolved_stage(s: NamedStageView, bag: Map<Seq<char>, PropertyView>) -> NamedStageView {
    NamedStageView { params: resolved_constants(s.params, bag), ..s }
}

/// Resolve the parameters of particle stages.
fn resolve_stages(v: &mut Vec<NamedStage>, bag: &PropertyBag)
    requires
        bag.wf(),
        crate::particle::stages_wf(old(v)@),
    ensures
        crate::particle::stages_wf(final(v)@),
        final(v)@.map_values(|s: NamedStage| s@) == old(v)@.map_values(|s: NamedStage| s@).map_values(
            |x: NamedStageView| resolved_stage(x, bag@),
        ),
{
    let ghost was = v@;
    let mut i: usize = 0;
    while i < v.len()
        invariant
            bag.wf(),
            i <= v@.len(),
            v@.len() == was.len(),
            crate::particle::stages_wf(v@),
            forall|k: int| 0 <= k < i ==> (#[trigger] v@[k])@ == resolved_stage(was[k]@, bag@),
            forall|k: int| i <= k < was.len() ==> #[trigger] v@[k] == was[k],
        decreases v@.len() - i,
    {
        let ghost before = v@;
        assert(before[i as int].wf());
        resolve_constants(&mut v[i].params, bag);
        assert forall|k: int| 0 <= k < v@.len() implies (#[trigger] v@[k]).wf() by {
            if k != i {
                assert(v@[k] == before[k]);
            }
        }
        i = i + 1;
    }
    assert(v@.map_values(|s: NamedStage| s@) =~= was.map_values(|s: NamedStage| s@).map_values(|x: NamedStageView| resolved_stage(x, bag@)));
}

/// An instance override against the bag.
pub open spec fn resolved_instance(v: InstanceOverrideView, bag: Map<Seq<char>, PropertyView>) -> InstanceOverrideView {
    InstanceOverrideView {
        enabled: resolved::<bool>(v.enabled, bag),
        alpha: resolved::<Scalar>(v.alpha, bag),
        size: resolved::<Scalar>(v.size, bag),
        lifetime: resolved::<Scalar>(v.lifetime, bag),
        rate: resolved::<Scalar>(v.rate, bag),
        speed: resolved::<Scalar>(v.speed, bag),
        count: resolved::<Scalar>(v.count, bag),
        color: resolved::<[Scalar; 3]>(v.color, bag),
        colorn: resolved::<[Scalar; 3]>(v.colorn, bag),
        ..v
    }
}

/// A particle system against the bag: its initializers, its operators and its
/// loaded material.
pub open spec fn resolved_system(
    s: ParticleSystemView,
    bag: Map<Seq<char>, PropertyView>,
) -> ParticleSystemView {
    ParticleSystemView {
        initializers: s.initializers.map_values(|x: NamedStageView| resolved_stage(x, bag)),
        operators: s.operators.map_values(|x: NamedStageView| resolved_stage(x, bag)),
        resolved_material: resolved_material(s.resolved_material, bag),
        ..s
    }
}

/// A particle object against the bag.
pub open spec fn resolved_particle(v: ParticleObjectView, bag: Map<Seq<char>, PropertyView>) -> ParticleObjectView {
    ParticleObjectView {
        scale: resolved::<[Scalar; 3]>(v.scale, bag),
        angles: resolved::<[Scalar; 3]>(v.angles, bag),
        visible: resolved::<bool>(v.visible, bag),
        parallax_depth: resolved::<[Scalar; 2]>(v.parallax_depth, bag),
        instanceoverride: resolved_instance(v.instanceoverride, bag),
        system: resolved_system(v.system, bag),
        ..v
    }
}

impl ParticleObject {
    /// Resolve every property-bound field of the object, its overrides, the
    /// parameters of its stages and its loaded material.
    pub fn resolve(&mut self, bag: &PropertyBag)
        requires
            bag.wf(),
            old(self).system.wf(),
        ensures
            final(self).system.wf(),
            final(self)@ == resolved_particle(old(self)@, bag@),
    {
        resolve_us(&mut self.scale, bag);
        resolve_us(&mut self.angles, bag);
        resolve_us(&mut self.visible, bag);
        resolve_us(&mut self.parallax_depth, bag);
        resolve_us(&mut self.instanceoverride.enabled, bag);
        resolve_us(&mut self.instanceoverride.alpha, bag);
        resolve_us(&mut self.instanceoverride.size, bag);
        resolve_us(&mut self.instanceoverride.lifetime, bag);
        resolve_us(&mut self.instanceoverride.rate, bag);
        resolve_us(&mut self.instanceoverride.speed, bag);
        resolve_us(&mut self.instanceoverride.count, bag);
        resolve_us(&mut self.instanceoverride.color, bag);
        resolve_us(&mut self.instanceoverride.colorn, bag);
        resolve_stages(&mut self.system.initializers, bag);
        resolve_stages(&mut self.system.operators, bag);
        resolve_opt_material(&mut self.system.resolved_material, bag);
    }
}

/// A text object against the bag.
pub open spec fn resolved_text(v: TextObjectView, bag: Map<Seq<char>, PropertyView>) -> TextObjectView {
    TextObjectView {
        text: resolved::<String>(v.text, bag),
        pointsize: resolved::<Scalar>(v.pointsize, bag),
        scale: resolved::<[Scalar; 3]>(v.scale, bag),
        color: resolved::<[Scalar; 4]>(v.color, bag),
        alpha: resolved::<Scalar>(v.alpha, bag),
        visible: resolved::<bool>(v.visible, bag),
        ..v
    }
}

/// Base fields against the bag.
pub open spec fn resolved_base(v: BaseObjectView, bag: Map<Seq<char>, PropertyView>) -> BaseObjectView {
    BaseObjectView {
        origin: resolved::<[Scalar; 3]>(v.origin, bag),
        scale: resolved::<[Scalar; 3]>(v.scale, bag),
        angles: resolved::<[Scalar; 3]>(v.angles, bag),
        visible: resolved::<bool>(v.visible, bag),
        ..v
    }
}

/// An object kind against the bag. Sounds, models, lights, shapes and groups
/// have no bound fields.
pub open spec fn resolved_kind(k: ObjectKindView, bag: Map<Seq<char>, PropertyView>) -> ObjectKindView {
    match k {
        ObjectKindView::Image(i) => ObjectKindView::Image(resolved_image(i, bag)),
        ObjectKindView::Particle(p) => ObjectKindView::Particle(resolved_particle(p, bag)),
        ObjectKindView::Text(t) => ObjectKindView::Text(resolved_text(t, bag)),
        _ => k,
    }
}

/// An object against the bag.
pub open spec fn resolved_object(o: ObjectView, bag: Map<Seq<char>, PropertyView>) -> ObjectView {
    ObjectView { base: resolved_base(o.base, bag), kind: resolved_kind(o.kind, bag), extra: o.extra }
}

/// Resolve the fields of a text object.
fn resolve_text(t: &mut TextObject, bag: &PropertyBag)
    requires
        bag.wf(),
    ensures
        final(t)@ == resolved_text(old(t)@, bag@),
{
    resolve_us(&mut t.text, bag);
    resolve_us(&mut t.pointsize, bag);
    resolve_us(&mut t.scale, bag);
    resolve_us(&mut t.color, bag);
    resolve_us(&mut t.alpha, bag);
    resolve_us(&mut t.visible, bag);
}

impl Object {
    /// Resolve every property-bound field of this object against the bag.
    pub fn resolve(&mut self, bag: &PropertyBag)
        requires
            bag.wf(),
            old(self).wf(),
        ensures
            final(self).wf(),
            final(self)@ == resolved_object(old(self)@, bag@),
    {
        resolve_us(&mut self.base.origin, bag);
        resolve_us(&mut self.base.scale, bag);
        resolve_us(&mut self.base.angles, bag);
        resolve_us(&mut self.base.visible, bag);
        match &mut self.kind {
            ObjectKind::Image(img) => img.resolve(bag),
            ObjectKind::Particle(p) => p.resolve(bag),
            ObjectKind::Text(t) => resolve_text(t, bag),
            _ => {},
        }
    }
}

/// Resolve every object.
pub fn resolve_objects(v: &mut Vec<Object>, bag: &PropertyBag)
    requires
        bag.wf(),
        crate::scene::objects_wf(old(v)@),
    ensures
        crate::scene::objects_wf(final(v)@),
        crate::scene::object_views(final(v)@) == crate::scene::object_views(old(v)@).map_values(
            |x: ObjectView| resolved_object(x, bag@),
        ),
{
    let ghost was = v@;
    let mut i: usize = 0;
    while i < v.len()
        invariant
            bag.wf(),
            i <= v@.len(),
            v@.len() == was.len(),
            crate::scene::objects_wf(v@),
            forall|k: int| 0 <= k < i ==> (#[trigger] v@[k])@ == resolved_object(was[k]@, bag@),
            forall|k: int| i <= k < was.len() ==> #[trigger] v@[k] == was[k],
        decreases v@.len() - i,
    {
        let ghost before = v@;
        assert(before[i as int].wf());
        v[i].resolve(bag);
        assert forall|k: int| 0 <= k < v@.len() implies (#[trigger] v@[k]).wf() by {
            if k != i {
                assert(v@[k] == before[k]);
            }
        }
        i = i + 1;
    }
    assert(crate::scene::object_views(v@) =~= crate::scene::object_views(was).map_values(|x: ObjectView| resolved_object(x, bag@)));
}

/// A scene against the bag: its general settings and its objects.
pub open spec fn resolved_scene(s: SceneView, bag: Map<Seq<char>, PropertyView>) -> SceneView {
    SceneView {
        camera: s.camera,
        general: resolved_general(s.general, bag),
        objects: s.objects.map_values(|o: ObjectView| resolved_object(o, bag)),
    }
}

/// The resolved scene that a renderer consumes.
#[derive(Debug)]
pub struct SceneModel {
    /// The resolved scene graph.
    pub scene: Scene,
}

impl SceneModel {
    /// The scene is well formed.
    pub open spec fn wf(&self) -> bool {
        self.scene.wf()
    }

    /// Resolve a parsed scene against a bag: every property binding becomes
    /// its current value.
    pub fn resolve(scene: Scene, bag: &PropertyBag) -> (r: SceneModel)
        requires
            scene.wf(),
            bag.wf(),
        ensures
            r.wf(),
            r.scene@ == resolved_scene(scene@, bag@),
    {
        let mut scene = scene;
        scene.general.resolve(bag);
        resolve_objects(&mut scene.objects, bag);
        SceneModel { scene }
    }

    /// Resolve the model again, after the bag changed. Bindings stay, so this
    /// may be done any number of times.
    pub fn reresolve(&mut self, bag: &PropertyBag)
        requires
            old(self).wf(),
            bag.wf(),
        ensures
            final(self).wf(),
            final(self).scene@ == resolved_scene(old(self).scene@, bag@),
    {
        self.scene.general.resolve(bag);
        resolve_objects(&mut self.scene.objects, bag);
    }
}

/// A model is its scene resolved against the bag, and resolving it again
/// resolves the scene that it holds.
pub proof fn law_model_is_resolved(
    scene: Scene,
    bag: &PropertyBag,
    r: SceneModel,
    m: &mut SceneModel,
    done: (),
)
    requires
        scene.wf(),
        bag.wf(),
        old(m).wf(),
        call_ensures(SceneModel::resolve, (scene, bag), r),
        call_ensures(SceneModel::reresolve, (m, bag), done),
    ensures
        r.scene@ == resolved_scene(scene@, bag@),
        final(m).scene@ == resolved_scene(old(m).scene@, bag@),
{
}

} // verus!
