//! Scene objects: base fields, kind dispatch, and every object kind.
use vstd::prelude::*;

use crate::fields::{flag_or, int_field, int_or, ints, objects, strings, text_field, text_or};
use crate::json::{Json, JsonView, Members};
use crate::literal::{has_int, int_or_zero};
use crate::material::{
    parse_combos, parse_textures, Combos, EffectFile, EffectFileView, Material, ModelFile, ModelFileView,
    PassView, TextureSlots,
};
use crate::number::{Scalar, ScalarView};
use crate::particle::{InstanceOverride, InstanceOverrideView, ParticleSystem, ParticleSystemView};
use crate::text::same;
use crate::user::{
    parse_constant_values, user_bool, user_color, user_f32, user_i64, user_string, user_vec2, user_vec3,
    ConstantValues, SettingView, UserSetting,
};
use crate::value::{coerce_f64, one, zero, Color, DynamicView, Vec2, Vec3};

verus! {

/// One keyframe of an angle-animation channel.
#[derive(Debug)]
pub struct Keyframe {
    /// Frame index.
    pub frame: Scalar,
    /// Channel value at that frame.
    pub value: Scalar,
}

/// Loop mode of an animation track.
#[derive(Clone, Copy, Debug, PartialEq, Eq, Structural, Default)]
pub enum AnimMode {
    /// `"mirror"` goes back and forth.
    Mirror,
    /// Anything else loops.
    #[default]
    Loop,
}

/// A keyframe track on `angles`, a channel for each component.
#[derive(Debug)]
pub struct AnimationTrack {
    /// `c0`: X channel keyframes.
    pub c0: Vec<Keyframe>,
    /// `c1`: Y channel keyframes.
    pub c1: Vec<Keyframe>,
    /// `c2`: Z channel keyframes.
    pub c2: Vec<Keyframe>,
    /// `options.fps`, default 30.
    pub fps: Scalar,
    /// `options.length`, default 0.
    pub length: Scalar,
    /// `options.mode`.
    pub mode: AnimMode,
    /// `relative`, default true.
    pub relative: bool,
}

/// What a value of [`AnimationTrack`] holds.
pub struct AnimationTrackView {
    /// X channel.
    pub c0: Seq<(ScalarView, ScalarView)>,
    /// Y channel.
    pub c1: Seq<(ScalarView, ScalarView)>,
    /// Z channel.
    pub c2: Seq<(ScalarView, ScalarView)>,
    /// Frames per second.
    pub fps: ScalarView,
    /// Length.
    pub length: ScalarView,
    /// Loop mode.
    pub mode: AnimMode,
    /// Whether the track adds to the base.
    pub relative: bool,
}

/// What a list of keyframes holds.
pub open spec fn keyframes(v: Seq<Keyframe>) -> Seq<(ScalarView, ScalarView)> {
    Seq::new(v.len(), |i: int| (v[i].frame@, v[i].value@))
}

impl View for AnimationTrack {
    type V = AnimationTrackView;

    open spec fn view(&self) -> AnimationTrackView {
        AnimationTrackView {
            c0: keyframes(self.c0@),
            c1: keyframes(self.c1@),
            c2: keyframes(self.c2@),
            fps: self.fps@,
            length: self.length@,
            mode: self.mode,
            relative: self.relative,
        }
    }
}

/// The keyframes among a list of objects: those with a frame and a value.
pub open spec fn keyframes_among(o: Seq<Seq<(Seq<char>, JsonView)>>) -> Seq<(ScalarView, ScalarView)>
    decreases o.len(),
{
    if o.len() == 0 {
        Seq::empty()
    } else {
        let before = keyframes_among(o.drop_last());
        match (
            crate::fields::scalar_at(o.last(), "frame"@),
            crate::fields::scalar_at(o.last(), "value"@),
        ) {
            (Some(frame), Some(value)) => before.push((frame, value)),
            _ => before,
        }
    }
}

/// The members of the object under `key`, none when there is no object.
pub open spec fn inner(o: Seq<(Seq<char>, JsonView)>, key: Seq<char>) -> Seq<(Seq<char>, JsonView)> {
    crate::fields::value_or(crate::json::object_of(crate::json::member(o, key)), Seq::empty())
}

/// The track that an object spells.
pub open spec fn track_of(o: Seq<(Seq<char>, JsonView)>) -> AnimationTrackView {
    let options = inner(o, "options"@);
    AnimationTrackView {
        c0: keyframes_among(crate::fields::objects_of(crate::json::member(o, "c0"@))),
        c1: keyframes_among(crate::fields::objects_of(crate::json::member(o, "c1"@))),
        c2: keyframes_among(crate::fields::objects_of(crate::json::member(o, "c2"@))),
        fps: crate::fields::value_or(crate::fields::scalar_at(options, "fps"@), ScalarView::Whole(30)),
        length: crate::fields::value_or(
            crate::fields::scalar_at(options, "length"@),
            ScalarView::Whole(0),
        ),
        mode: if crate::fields::text_at(options, "mode"@) == Some("mirror"@) {
            AnimMode::Mirror
        } else {
            AnimMode::Loop
        },
        relative: crate::fields::value_or(crate::fields::flag_at(o, "relative"@), true),
    }
}

/// The member `key` read as a number.
fn number_field(obj: &Members, key: &str) -> (r: Option<Scalar>)
    ensures
        match r {
            Some(n) => crate::fields::scalar_at(obj@, key@) == Some(n@),
            None => crate::fields::scalar_at(obj@, key@) is None,
        },
{
    match obj.get(key) {
        Some(v) => coerce_f64(v),
        None => None,
    }
}

/// Parse the keyframes of one channel.
fn parse_channel(value: Option<&Json>) -> (out: Vec<Keyframe>)
    ensures
        keyframes(out@) == keyframes_among(crate::fields::objects_of(crate::json::shown(value))),
{
    let list = objects(value);
    let ghost all = crate::fields::members_of(list@);
    let mut out: Vec<Keyframe> = Vec::new();
    let mut i: usize = 0;
    assert(keyframes(out@) =~= Seq::<(ScalarView, ScalarView)>::empty());
    while i < list.len()
        invariant
            i <= list@.len(),
            all == crate::fields::members_of(list@),
            keyframes(out@) == keyframes_among(all.take(i as int)),
        decreases list@.len() - i,
    {
        let ghost was = keyframes(out@);
        assert(all.take(i as int + 1).drop_last() == all.take(i as int));
        assert(all.take(i as int + 1).last() == list@[i as int]@);
        match (number_field(list[i], "frame"), number_field(list[i], "value")) {
            (Some(frame), Some(value)) => {
                let ghost shown = (frame@, value@);
                out.push(Keyframe { frame, value });
                assert(keyframes(out@) =~= was.push(shown));
            },
            _ => {},
        }
        i = i + 1;
    }
    assert(all.take(all.len() as int) == all);
    out
}

impl AnimationTrack {
    /// Parse an `angles.animation` object.
    fn parse(obj: &Members) -> (r: AnimationTrack)
        ensures
            r@ == track_of(obj@),
    {
        let none = Members::new();
        let options = object_or(obj, "options", &none);
        let fps = crate::fields::scalar_or(options, "fps", Scalar::Whole(30));
        let length = crate::fields::scalar_or(options, "length", zero());
        let mode = match text_field(options, "mode") {
            Some(m) => if same(m.as_str(), "mirror") {
                AnimMode::Mirror
            } else {
                AnimMode::Loop
            },
            None => AnimMode::Loop,
        };
        AnimationTrack {
            c0: parse_channel(obj.get("c0")),
            c1: parse_channel(obj.get("c1")),
            c2: parse_channel(obj.get("c2")),
            fps,
            length,
            mode,
            relative: flag_or(obj, "relative", true),
        }
    }
}

/// The object under `key`, or `none`.
fn object_or<'a>(obj: &'a Members, key: &str, none: &'a Members) -> (r: &'a Members)
    requires
        none@.len() == 0,
    ensures
        r@ == inner(obj@, key@),
{
    match obj.get(key) {
        Some(Json::Object(o)) => {
            proof {
                crate::json::lemma_object_view(*o);
            }
            o
        },
        _ => {
            assert(none@ =~= Seq::<(Seq<char>, JsonView)>::empty());
            none
        },
    }
}

/// Base fields common to every object.
#[derive(Debug)]
pub struct BaseObject {
    /// `id`, -1 when it is no number and no text that starts with one.
    pub id: i64,
    /// `name`; a number is taken as its text, anything else is "unknown".
    pub name: String,
    /// `sortorder`, default 0.
    pub sortorder: i64,
    /// `dependencies`: ids that must render first.
    pub dependencies: Vec<i64>,
    /// `parent` id for transform inheritance.
    pub parent: Option<i64>,
    /// `origin`, default (0,0,0).
    pub origin: UserSetting<Vec3>,
    /// `scale`, default (1,1,1).
    pub scale: UserSetting<Vec3>,
    /// `angles`, default (0,0,0).
    pub angles: UserSetting<Vec3>,
    /// `angles.animation` keyframe track, if present.
    pub angles_animation: Option<AnimationTrack>,
    /// `visible`, default true.
    pub visible: UserSetting<bool>,
}

/// What a value of [`BaseObject`] holds.
pub struct BaseObjectView {
    /// Identifier.
    pub id: i64,
    /// Name.
    pub name: Seq<char>,
    /// Sort order.
    pub sortorder: i64,
    /// Dependencies.
    pub dependencies: Seq<i64>,
    /// Parent.
    pub parent: Option<i64>,
    /// Origin.
    pub origin: SettingView<Seq<ScalarView>>,
    /// Scale.
    pub scale: SettingView<Seq<ScalarView>>,
    /// Angles.
    pub angles: SettingView<Seq<ScalarView>>,
    /// Angle animation.
    pub angles_animation: Option<AnimationTrackView>,
    /// Visibility.
    pub visible: SettingView<bool>,
}

/// What an optional track holds.
pub open spec fn opt_track(t: Option<AnimationTrack>) -> Option<AnimationTrackView> {
    match t {
        Some(t) => Some(t@),
        None => None,
    }
}

impl View for BaseObject {
    type V = BaseObjectView;

    open spec fn view(&self) -> BaseObjectView {
        BaseObjectView {
            id: self.id,
            name: self.name@,
            sortorder: self.sortorder,
            dependencies: self.dependencies@,
            parent: self.parent,
            origin: crate::user::setting(self.origin),
            scale: crate::user::setting(self.scale),
            angles: crate::user::setting(self.angles),
            angles_animation: opt_track(self.angles_animation),
            visible: crate::user::setting(self.visible),
        }
    }
}

/// Three zeros.
pub open spec fn zeros3() -> Seq<ScalarView> {
    seq![ScalarView::Whole(0), ScalarView::Whole(0), ScalarView::Whole(0)]
}

/// Three ones.
pub open spec fn ones3() -> Seq<ScalarView> {
    seq![ScalarView::Whole(1), ScalarView::Whole(1), ScalarView::Whole(1)]
}

/// Two zeros.
pub open spec fn zeros2() -> Seq<ScalarView> {
    seq![ScalarView::Whole(0), ScalarView::Whole(0)]
}

/// Opaque white.
pub open spec fn white() -> Seq<ScalarView> {
    seq![ScalarView::Whole(1), ScalarView::Whole(1), ScalarView::Whole(1), ScalarView::Whole(1)]
}

/// The zero vector.
fn zero3() -> (r: Vec3)
    ensures
        crate::number::scalars(r@) == zeros3(),
{
    let r = [zero(), zero(), zero()];
    assert(crate::number::scalars(r@) =~= zeros3());
    r
}

/// The vector of ones.
fn one3() -> (r: Vec3)
    ensures
        crate::number::scalars(r@) == ones3(),
{
    let r = [one(), one(), one()];
    assert(crate::number::scalars(r@) =~= ones3());
    r
}

/// The zero vector of two components.
fn zero2() -> (r: Vec2)
    ensures
        crate::number::scalars(r@) == zeros2(),
{
    let r = [zero(), zero()];
    assert(crate::number::scalars(r@) =~= zeros2());
    r
}

/// Opaque white.
fn white4() -> (r: Color)
    ensures
        crate::number::scalars(r@) == white(),
{
    let r = [one(), one(), one(), one()];
    assert(crate::number::scalars(r@) =~= white());
    r
}

/// The `id` that an object spells: -1 when it is neither a number or a flag
/// nor a text with an integer at its start.
pub open spec fn id_of(o: Seq<(Seq<char>, JsonView)>) -> i64 {
    match crate::json::member(o, "id"@) {
        Some(JsonView::String(s)) => if crate::literal::int_lead(
            crate::literal::after_space(s),
        ).len() == 0 {
            (-1) as i64
        } else {
            crate::literal::read_int(s)
        },
        _ => crate::fields::value_or(crate::fields::int_at(o, "id"@), (-1) as i64),
    }
}

/// The base fields that an object spells.
pub open spec fn base_of(o: Seq<(Seq<char>, JsonView)>) -> BaseObjectView {
    BaseObjectView {
        id: id_of(o),
        name: match crate::json::member(o, "name"@) {
            Some(JsonView::String(s)) => s,
            Some(JsonView::Number(n)) => crate::json::number_text(n),
            _ => "unknown"@,
        },
        sortorder: crate::fields::value_or(crate::fields::int_at(o, "sortorder"@), 0),
        dependencies: crate::fields::ints_of(crate::json::member(o, "dependencies"@)),
        parent: crate::fields::int_at(o, "parent"@),
        origin: crate::user::vec3_setting(o, "origin"@, zeros3()),
        scale: crate::user::vec3_setting(o, "scale"@, ones3()),
        angles: crate::user::vec3_setting(o, "angles"@, zeros3()),
        angles_animation: match crate::json::object_of(
            crate::json::member(inner(o, "angles"@), "animation"@),
        ) {
            Some(t) => Some(track_of(t)),
            None => None,
        },
        visible: crate::user::bool_setting(o, "visible"@, true),
    }
}

impl BaseObject {
    /// Parse the base fields off an object.
    fn parse(obj: &Members) -> (r: BaseObject)
        ensures
            r@ == base_of(obj@),
    {
        let name = match obj.get("name") {
            Some(Json::String(s)) => s.clone(),
            Some(Json::Number(n)) => n.to_text(),
            _ => "unknown".to_owned(),
        };
        let id = match obj.get("id") {
            Some(Json::String(s)) => {
                if has_int(s.as_str()) {
                    int_or_zero(s.as_str())
                } else {
                    -1
                }
            },
            _ => int_or(obj, "id", -1),
        };
        let none = Members::new();
        let angles = object_or(obj, "angles", &none);
        let angles_animation = match angles.get("animation") {
            Some(Json::Object(o)) => {
                proof {
                    crate::json::lemma_object_view(*o);
                }
                Some(AnimationTrack::parse(o))
            },
            _ => None,
        };
        BaseObject {
            id,
            name,
            sortorder: int_or(obj, "sortorder", 0),
            dependencies: ints(obj.get("dependencies")),
            parent: int_field(obj, "parent"),
            origin: user_vec3(obj, "origin", zero3()),
            scale: user_vec3(obj, "scale", one3()),
            angles: user_vec3(obj, "angles", zero3()),
            angles_animation,
            visible: user_bool(obj, "visible", true),
        }
    }
}

/// What an effect changes of one of its passes, by position.
#[derive(Debug)]
pub struct PassOverride {
    /// `id`, default -1.
    pub id: i64,
    /// `combos` merged over those of the material pass.
    pub combos: Combos,
    /// `constantshadervalues` uniform overrides.
    pub constantshadervalues: ConstantValues,
    /// `textures` slot overrides.
    pub textures: TextureSlots,
    /// `usertextures` slot overrides.
    pub usertextures: TextureSlots,
}

/// What a value of [`PassOverride`] holds.
pub struct PassOverrideView {
    /// `id`, default -1.
    pub id: i64,
    /// `combos` merged over those of the material pass.
    pub combos: Map<Seq<char>, i64>,
    /// `constantshadervalues` uniform overrides.
    pub constantshadervalues: Map<Seq<char>, SettingView<DynamicView>>,
    /// `textures` slot overrides.
    pub textures: Seq<Option<Seq<char>>>,
    /// `usertextures` slot overrides.
    pub usertextures: Seq<Option<Seq<char>>>,
}

impl View for PassOverride {
    type V = PassOverrideView;

    open spec fn view(&self) -> PassOverrideView {
        PassOverrideView {
            id: self.id,
            combos: self.combos@,
            constantshadervalues: crate::user::constants(self.constantshadervalues),
            textures: crate::material::slots(self.textures@),
            usertextures: crate::material::slots(self.usertextures@),
        }
    }
}

/// The override that an object spells.
pub open spec fn pass_override_of(o: Seq<(Seq<char>, JsonView)>) -> PassOverrideView {
    PassOverrideView {
        id: crate::fields::value_or(crate::fields::int_at(o, "id"@), (-1) as i64),
        combos: crate::material::combos_of(crate::json::member(o, "combos"@)),
        constantshadervalues: crate::user::constant_map(crate::json::member(o, "constantshadervalues"@)),
        textures: crate::material::slots_of(crate::json::member(o, "textures"@)),
        usertextures: crate::material::slots_of(crate::json::member(o, "usertextures"@)),
    }
}

impl PassOverride {
    /// The maps are well formed.
    pub open spec fn wf(&self) -> bool {
        self.combos.wf() && self.constantshadervalues.wf()
    }

    /// Parse one pass override.
    fn parse(obj: &Members) -> (r: PassOverride)
        ensures
            r.wf(),
            r@ == pass_override_of(obj@),
    {
        PassOverride {
            id: int_or(obj, "id", -1),
            combos: parse_combos(obj.get("combos")),
            constantshadervalues: parse_constant_values(obj.get("constantshadervalues")),
            textures: parse_textures(obj.get("textures")),
            usertextures: parse_textures(obj.get("usertextures")),
        }
    }
}

/// An effect entry on an image object.
#[derive(Debug)]
pub struct Effect {
    /// `file` (required): path to the effect file.
    pub file: String,
    /// `id`, default -1.
    pub id: i64,
    /// `name`, default `"Effect without name"`.
    pub name: String,
    /// `visible`, default true.
    pub visible: UserSetting<bool>,
    /// `passes`: overrides by position.
    pub passes: Vec<PassOverride>,
    /// The loaded effect file.
    pub resolved: Option<EffectFile>,
}

/// What a value of [`Effect`] holds.
pub struct EffectView {
    /// Path.
    pub file: Seq<char>,
    /// Identifier.
    pub id: i64,
    /// Name.
    pub name: Seq<char>,
    /// Visibility.
    pub visible: SettingView<bool>,
    /// Overrides.
    pub passes: Seq<PassOverrideView>,
    /// The loaded effect file.
    pub resolved: Option<EffectFileView>,
}

/// What a list of overrides holds.
pub open spec fn override_views(v: Seq<PassOverride>) -> Seq<PassOverrideView> {
    Seq::new(v.len(), |i: int| v[i]@)
}

/// What an optional effect file holds.
pub open spec fn opt_effect_file(f: Option<EffectFile>) -> Option<EffectFileView> {
    match f {
        Some(f) => Some(f@),
        None => None,
    }
}

impl View for Effect {
    type V = EffectView;

    open spec fn view(&self) -> EffectView {
        EffectView {
            file: self.file@,
            id: self.id,
            name: self.name@,
            visible: crate::user::setting(self.visible),
            passes: override_views(self.passes@),
            resolved: opt_effect_file(self.resolved),
        }
    }
}

/// Every override is well formed.
pub open spec fn overrides_wf(v: Seq<PassOverride>) -> bool {
    forall|i: int| 0 <= i < v.len() ==> (#[trigger] v[i]).wf()
}

/// The effect that an object spells, when it has its `file`.
pub open spec fn effect_of(o: Seq<(Seq<char>, JsonView)>) -> Option<EffectView> {
    match crate::fields::text_at(o, "file"@) {
        None => None,
        Some(file) => Some(
            EffectView {
                file,
                id: crate::fields::value_or(crate::fields::int_at(o, "id"@), (-1) as i64),
                name: crate::fields::value_or(
                    crate::fields::text_at(o, "name"@),
                    "Effect without name"@,
                ),
                visible: crate::user::bool_setting(o, "visible"@, true),
                passes: overrides_of(
                    crate::fields::objects_of(crate::json::member(o, "passes"@)),
                ),
                resolved: None,
            },
        ),
    }
}

/// The overrides that a list of objects spells.
pub open spec fn overrides_of(o: Seq<Seq<(Seq<char>, JsonView)>>) -> Seq<PassOverrideView> {
    Seq::new(o.len(), |i: int| pass_override_of(o[i]))
}

impl Effect {
    /// The overrides and the loaded file are well formed.
    pub open spec fn wf(&self) -> bool {
        &&& overrides_wf(self.passes@)
        &&& match self.resolved {
            Some(f) => f.wf(),
            None => true,
        }
    }

    /// Parse one effect entry; nothing without its `file`.
    fn parse(obj: &Members) -> (r: Option<Effect>)
        ensures
            match r {
                Some(e) => e.wf() && effect_of(obj@) == Some(e@),
                None => effect_of(obj@) is None,
            },
    {
        let file = match text_field(obj, "file") {
            Some(f) => f,
            None => {
                return None;
            },
        };
        let list = objects(obj.get("passes"));
        let ghost all = crate::fields::members_of(list@);
        let mut passes: Vec<PassOverride> = Vec::new();
        let mut i: usize = 0;
        while i < list.len()
            invariant
                i <= list@.len(),
                all == crate::fields::members_of(list@),
                passes@.len() == i,
                overrides_wf(passes@),
                forall|k: int| 0 <= k < i ==> (#[trigger] passes@[k])@ == pass_override_of(all[k]),
            decreases list@.len() - i,
        {
            assert(all[i as int] == list@[i as int]@);
            passes.push(PassOverride::parse(list[i]));
            i = i + 1;
        }
        assert(override_views(passes@) =~= overrides_of(all));
        Some(
            Effect {
                file,
                id: int_or(obj, "id", -1),
                name: text_or(obj, "name", "Effect without name"),
                visible: user_bool(obj, "visible", true),
                passes,
                resolved: None,
            },
        )
    }
}

/// A puppet-warp animation layer.
#[derive(Debug)]
pub struct AnimationLayer {
    /// `id` (required).
    pub id: i64,
    /// `rate`, default 1.
    pub rate: UserSetting<Scalar>,
    /// `visible`, default false.
    pub visible: UserSetting<bool>,
    /// `blend`, default 1.
    pub blend: UserSetting<Scalar>,
    /// `animation` index, default 0.
    pub animation: UserSetting<i64>,
}

/// What a value of [`AnimationLayer`] holds.
pub struct AnimationLayerView {
    /// `id` (required).
    pub id: i64,
    /// `rate`, default 1.
    pub rate: SettingView<ScalarView>,
    /// `visible`, default false.
    pub visible: SettingView<bool>,
    /// `blend`, default 1.
    pub blend: SettingView<ScalarView>,
    /// `animation` index, default 0.
    pub animation: SettingView<i64>,
}

impl View for AnimationLayer {
    type V = AnimationLayerView;

    open spec fn view(&self) -> AnimationLayerView {
        AnimationLayerView {
            id: self.id,
            rate: crate::user::setting(self.rate),
            visible: crate::user::setting(self.visible),
            blend: crate::user::setting(self.blend),
            animation: crate::user::setting(self.animation),
        }
    }
}

/// The layer that an object spells, when it has its `id`.
pub open spec fn layer_of(o: Seq<(Seq<char>, JsonView)>) -> Option<AnimationLayerView> {
    match crate::fields::int_at(o, "id"@) {
        None => None,
        Some(id) => Some(
            AnimationLayerView {
                id,
                rate: crate::user::scalar_setting(o, "rate"@, ScalarView::Whole(1)),
                visible: crate::user::bool_setting(o, "visible"@, false),
                blend: crate::user::scalar_setting(o, "blend"@, ScalarView::Whole(1)),
                animation: crate::user::int_setting(o, "animation"@, 0),
            },
        ),
    }
}

impl AnimationLayer {
    /// Parse one animation layer; nothing without its `id`.
    fn parse(obj: &Members) -> (r: Option<AnimationLayer>)
        ensures
            match r {
                Some(l) => layer_of(obj@) == Some(l@),
                None => layer_of(obj@) is None,
            },
    {
        match int_field(obj, "id") {
            None => None,
            Some(id) => Some(
                AnimationLayer {
                    id,
                    rate: user_f32(obj, "rate", one()),
                    visible: user_bool(obj, "visible", false),
                    blend: user_f32(obj, "blend", one()),
                    animation: user_i64(obj, "animation", 0),
                },
            ),
        }
    }
}

/// A texture override of the first pass of an object.
#[derive(Debug)]
pub struct Instance {
    /// `instance.textures`.
    pub textures: TextureSlots,
    /// `instance.usertextures`.
    pub usertextures: TextureSlots,
}

/// What an optional [`Instance`] holds: its two lists of slots.
pub open spec fn opt_instance(i: Option<Instance>) -> Option<
    (Seq<Option<Seq<char>>>, Seq<Option<Seq<char>>>),
> {
    match i {
        Some(i) => Some(
            (crate::material::slots(i.textures@), crate::material::slots(i.usertextures@)),
        ),
        None => None,
    }
}

/// An image object.
#[derive(Debug)]
pub struct ImageObject {
    /// `image` (required): path to the model file.
    pub image: String,
    /// The loaded model file.
    pub model: Option<ModelFile>,
    /// The loaded material of the model.
    pub material: Option<Material>,
    /// `scale`, default (1,1,1).
    pub scale: UserSetting<Vec3>,
    /// `angles`, default (0,0,0).
    pub angles: UserSetting<Vec3>,
    /// `visible`, default true.
    pub visible: UserSetting<bool>,
    /// `alpha`, default 1.
    pub alpha: UserSetting<Scalar>,
    /// `color`, default white.
    pub color: UserSetting<Color>,
    /// `horizontalalign`, else `alignment`, default `"center"`.
    pub alignment: String,
    /// `size`, default (0,0).
    pub size: Vec2,
    /// `parallaxDepth`, default (0,0).
    pub parallax_depth: UserSetting<Vec2>,
    /// `colorBlendMode`, default 0.
    pub color_blend_mode: UserSetting<i64>,
    /// `brightness`, default 1.
    pub brightness: UserSetting<Scalar>,
    /// `effects`.
    pub effects: Vec<Effect>,
    /// `animationlayers`.
    pub animationlayers: Vec<AnimationLayer>,
    /// `instance` first-pass override.
    pub instance: Option<Instance>,
}

/// What a value of [`ImageObject`] holds.
pub struct ImageObjectView {
    /// Path.
    pub image: Seq<char>,
    /// The loaded model file.
    pub model: Option<ModelFileView>,
    /// The passes of the loaded material.
    pub material: Option<Seq<PassView>>,
    /// Scale.
    pub scale: SettingView<Seq<ScalarView>>,
    /// Angles.
    pub angles: SettingView<Seq<ScalarView>>,
    /// Visibility.
    pub visible: SettingView<bool>,
    /// Alpha.
    pub alpha: SettingView<ScalarView>,
    /// Color.
    pub color: SettingView<Seq<ScalarView>>,
    /// Alignment.
    pub alignment: Seq<char>,
    /// Size.
    pub size: Seq<ScalarView>,
    /// Parallax depth.
    pub parallax_depth: SettingView<Seq<ScalarView>>,
    /// Color blend mode.
    pub color_blend_mode: SettingView<i64>,
    /// Brightness.
    pub brightness: SettingView<ScalarView>,
    /// Effects.
    pub effects: Seq<EffectView>,
    /// Animation layers.
    pub animationlayers: Seq<AnimationLayerView>,
    /// First-pass override.
    pub instance: Option<(Seq<Option<Seq<char>>>, Seq<Option<Seq<char>>>)>,
}

/// What an optional model file holds.
pub open spec fn opt_model_file(m: Option<ModelFile>) -> Option<ModelFileView> {
    match m {
        Some(m) => Some(m@),
        None => None,
    }
}

/// What a list of effects holds.
pub open spec fn effect_views(v: Seq<Effect>) -> Seq<EffectView> {
    Seq::new(v.len(), |i: int| v[i]@)
}

/// Every effect is well formed.
pub open spec fn effects_wf(v: Seq<Effect>) -> bool {
    forall|i: int| 0 <= i < v.len() ==> (#[trigger] v[i]).wf()
}

/// What a list of animation layers holds.
pub open spec fn layer_views(v: Seq<AnimationLayer>) -> Seq<AnimationLayerView> {
    Seq::new(v.len(), |i: int| v[i]@)
}

impl View for ImageObject {
    type V = ImageObjectView;

    open spec fn view(&self) -> ImageObjectView {
        ImageObjectView {
            image: self.image@,
            model: opt_model_file(self.model),
            material: crate::material::opt_material(self.material),
            scale: crate::user::setting(self.scale),
            angles: crate::user::setting(self.angles),
            visible: crate::user::setting(self.visible),
            alpha: crate::user::setting(self.alpha),
            color: crate::user::setting(self.color),
            alignment: self.alignment@,
            size: crate::number::scalars(self.size@),
            parallax_depth: crate::user::setting(self.parallax_depth),
            color_blend_mode: crate::user::setting(self.color_blend_mode),
            brightness: crate::user::setting(self.brightness),
            effects: effect_views(self.effects@),
            animationlayers: layer_views(self.animationlayers@),
            instance: opt_instance(self.instance),
        }
    }
}

impl ImageObject {
    /// The loaded material and the effects are well formed.
    pub open spec fn wf(&self) -> bool {
        crate::material::opt_material_wf(self.material) && effects_wf(self.effects@)
    }
}

/// The effects among a list of objects: those with a `file`.
pub open spec fn effects_among(o: Seq<Seq<(Seq<char>, JsonView)>>) -> Seq<EffectView>
    decreases o.len(),
{
    if o.len() == 0 {
        Seq::empty()
    } else {
        match effect_of(o.last()) {
            Some(e) => effects_among(o.drop_last()).push(e),
            None => effects_among(o.drop_last()),
        }
    }
}

/// The layers among a list of objects: those with an `id`.
pub open spec fn layers_among(o: Seq<Seq<(Seq<char>, JsonView)>>) -> Seq<AnimationLayerView>
    decreases o.len(),
{
    if o.len() == 0 {
        Seq::empty()
    } else {
        match layer_of(o.last()) {
            Some(l) => layers_among(o.drop_last()).push(l),
            None => layers_among(o.drop_last()),
        }
    }
}

/// The horizontal alignment: `horizontalalign` wins over `alignment`.
pub open spec fn alignment_of(o: Seq<(Seq<char>, JsonView)>) -> Seq<char> {
    match crate::fields::text_at(o, "horizontalalign"@) {
        Some(s) => s,
        None => crate::fields::value_or(crate::fields::text_at(o, "alignment"@), "center"@),
    }
}

/// The horizontal alignment of an object.
fn parse_alignment(obj: &Members) -> (r: String)
    ensures
        r@ == alignment_of(obj@),
{
    match text_field(obj, "horizontalalign") {
        Some(s) => s,
        None => text_or(obj, "alignment", "center"),
    }
}

/// Parse the effects of an image.
fn parse_effects(value: Option<&Json>) -> (out: Vec<Effect>)
    ensures
        effects_wf(out@),
        effect_views(out@) == effects_among(crate::fields::objects_of(crate::json::shown(value))),
{
    let list = objects(value);
    let ghost all = crate::fields::members_of(list@);
    let mut out: Vec<Effect> = Vec::new();
    let mut i: usize = 0;
    assert(effect_views(out@) =~= Seq::<EffectView>::empty());
    while i < list.len()
        invariant
            i <= list@.len(),
            all == crate::fields::members_of(list@),
            effects_wf(out@),
            effect_views(out@) == effects_among(all.take(i as int)),
        decreases list@.len() - i,
    {
        let ghost was = effect_views(out@);
        assert(all.take(i as int + 1).drop_last() == all.take(i as int));
        assert(all.take(i as int + 1).last() == list@[i as int]@);
        match Effect::parse(list[i]) {
            Some(e) => {
                let ghost shown = e@;
                out.push(e);
                assert(effect_views(out@) =~= was.push(shown));
            },
            None => {},
        }
        i = i + 1;
    }
    assert(all.take(all.len() as int) == all);
    out
}

/// Parse the animation layers of an image.
fn parse_layers(value: Option<&Json>) -> (out: Vec<AnimationLayer>)
    ensures
        layer_views(out@) == layers_among(crate::fields::objects_of(crate::json::shown(value))),
{
    let list = objects(value);
    let ghost all = crate::fields::members_of(list@);
    let mut out: Vec<AnimationLayer> = Vec::new();
    let mut i: usize = 0;
    assert(layer_views(out@) =~= Seq::<AnimationLayerView>::empty());
    while i < list.len()
        invariant
            i <= list@.len(),
            all == crate::fields::members_of(list@),
            layer_views(out@) == layers_among(all.take(i as int)),
        decreases list@.len() - i,
    {
        let ghost was = layer_views(out@);
        assert(all.take(i as int + 1).drop_last() == all.take(i as int));
        assert(all.take(i as int + 1).last() == list@[i as int]@);
        match AnimationLayer::parse(list[i]) {
            Some(l) => {
                let ghost shown = l@;
                out.push(l);
                assert(layer_views(out@) =~= was.push(shown));
            },
            None => {},
        }
        i = i + 1;
    }
    assert(all.take(all.len() as int) == all);
    out
}

/// The image that an object spells.
pub open spec fn image_of(o: Seq<(Seq<char>, JsonView)>) -> ImageObjectView {
    ImageObjectView {
        image: crate::fields::value_or(crate::fields::text_at(o, "image"@), ""@),
        model: None,
        material: None,
        scale: crate::user::vec3_setting(o, "scale"@, ones3()),
        angles: crate::user::vec3_setting(o, "angles"@, zeros3()),
        visible: crate::user::bool_setting(o, "visible"@, true),
        alpha: crate::user::scalar_setting(o, "alpha"@, ScalarView::Whole(1)),
        color: crate::user::color_setting(o, "color"@, white()),
        alignment: alignment_of(o),
        size: crate::user::vec2_setting(o, "size"@, zeros2()).value,
        parallax_depth: crate::user::vec2_setting(o, "parallaxDepth"@, zeros2()),
        color_blend_mode: crate::user::int_setting(o, "colorBlendMode"@, 0),
        brightness: crate::user::scalar_setting(o, "brightness"@, ScalarView::Whole(1)),
        effects: effects_among(crate::fields::objects_of(crate::json::member(o, "effects"@))),
        animationlayers: layers_among(
            crate::fields::objects_of(crate::json::member(o, "animationlayers"@)),
        ),
        instance: match crate::json::object_of(crate::json::member(o, "instance"@)) {
            Some(i) => Some(
                (
                    crate::material::slots_of(crate::json::member(i, "textures"@)),
                    crate::material::slots_of(crate::json::member(i, "usertextures"@)),
                ),
            ),
            None => None,
        },
    }
}

/// Parse the image-specific fields.
fn parse_image(obj: &Members) -> (r: ImageObject)
    ensures
        r.wf(),
        r@ == image_of(obj@),
{
    let size = user_vec2(obj, "size", zero2());
    let instance = match obj.get("instance") {
        Some(Json::Object(o)) => {
            proof {
                crate::json::lemma_object_view(*o);
            }
            Some(
                Instance {
                    textures: parse_textures(o.get("textures")),
                    usertextures: parse_textures(o.get("usertextures")),
                },
            )
        },
        _ => None,
    };
    ImageObject {
        image: text_or(obj, "image", ""),
        model: None,
        material: None,
        scale: user_vec3(obj, "scale", one3()),
        angles: user_vec3(obj, "angles", zero3()),
        visible: user_bool(obj, "visible", true),
        alpha: user_f32(obj, "alpha", one()),
        color: user_color(obj, "color", white4()),
        alignment: parse_alignment(obj),
        size: size.value,
        parallax_depth: user_vec2(obj, "parallaxDepth", zero2()),
        color_blend_mode: user_i64(obj, "colorBlendMode", 0),
        brightness: user_f32(obj, "brightness", one()),
        effects: parse_effects(obj.get("effects")),
        animationlayers: parse_layers(obj.get("animationlayers")),
        instance,
    }
}

/// A text object.
#[derive(Debug)]
pub struct TextObject {
    /// `text` (required).
    pub text: UserSetting<String>,
    /// `font`, default empty.
    pub font: String,
    /// `pointsize`, default 32.
    pub pointsize: UserSetting<Scalar>,
    /// `size` of the bounding box, default (0,0).
    pub size: Vec2,
    /// `scale`, default (1,1,1).
    pub scale: UserSetting<Vec3>,
    /// `color`, default white.
    pub color: UserSetting<Color>,
    /// `alpha`, default 1.
    pub alpha: UserSetting<Scalar>,
    /// `visible`, default true.
    pub visible: UserSetting<bool>,
    /// `horizontalalign`, else `alignment`, default `"center"`.
    pub horizontalalign: String,
    /// `verticalalign`, default `"center"`.
    pub verticalalign: String,
    /// `padding`, default 0.
    pub padding: i64,
}

/// What a value of [`TextObject`] holds.
pub struct TextObjectView {
    /// `text` (required).
    pub text: SettingView<Seq<char>>,
    /// `font`, default empty.
    pub font: Seq<char>,
    /// `pointsize`, default 32.
    pub pointsize: SettingView<ScalarView>,
    /// `size` of the bounding box, default (0,0).
    pub size: Seq<ScalarView>,
    /// `scale`, default (1,1,1).
    pub scale: SettingView<Seq<ScalarView>>,
    /// `color`, default white.
    pub color: SettingView<Seq<ScalarView>>,
    /// `alpha`, default 1.
    pub alpha: SettingView<ScalarView>,
    /// `visible`, default true.
    pub visible: SettingView<bool>,
    /// `horizontalalign`, else `alignment`, default `"center"`.
    pub horizontalalign: Seq<char>,
    /// `verticalalign`, default `"center"`.
    pub verticalalign: Seq<char>,
    /// `padding`, default 0.
    pub padding: i64,
}

impl View for TextObject {
    type V = TextObjectView;

    open spec fn view(&self) -> TextObjectView {
        TextObjectView {
            text: crate::user::setting(self.text),
            font: self.font@,
            pointsize: crate::user::setting(self.pointsize),
            size: crate::number::scalars(self.size@),
            scale: crate::user::setting(self.scale),
            color: crate::user::setting(self.color),
            alpha: crate::user::setting(self.alpha),
            visible: crate::user::setting(self.visible),
            horizontalalign: self.horizontalalign@,
            verticalalign: self.verticalalign@,
            padding: self.padding,
        }
    }
}

/// The text that an object spells.
pub open spec fn text_object_of(o: Seq<(Seq<char>, JsonView)>) -> TextObjectView {
    TextObjectView {
        text: crate::user::text_setting(o, "text"@, ""@),
        font: crate::fields::value_or(crate::fields::text_at(o, "font"@), ""@),
        pointsize: crate::user::scalar_setting(o, "pointsize"@, ScalarView::Whole(32)),
        size: crate::user::vec2_setting(o, "size"@, zeros2()).value,
        scale: crate::user::vec3_setting(o, "scale"@, ones3()),
        color: crate::user::color_setting(o, "color"@, white()),
        alpha: crate::user::scalar_setting(o, "alpha"@, ScalarView::Whole(1)),
        visible: crate::user::bool_setting(o, "visible"@, true),
        horizontalalign: alignment_of(o),
        verticalalign: crate::fields::value_or(
            crate::fields::text_at(o, "verticalalign"@),
            "center"@,
        ),
        padding: crate::fields::value_or(crate::fields::int_at(o, "padding"@), 0),
    }
}

/// Parse the text-specific fields.
fn parse_text(obj: &Members) -> (r: TextObject)
    ensures
        r@ == text_object_of(obj@),
{
    let size = user_vec2(obj, "size", zero2());
    TextObject {
        text: user_string(obj, "text", ""),
        font: text_or(obj, "font", ""),
        pointsize: user_f32(obj, "pointsize", Scalar::Whole(32)),
        size: size.value,
        scale: user_vec3(obj, "scale", one3()),
        color: user_color(obj, "color", white4()),
        alpha: user_f32(obj, "alpha", one()),
        visible: user_bool(obj, "visible", true),
        horizontalalign: parse_alignment(obj),
        verticalalign: text_or(obj, "verticalalign", "center"),
        padding: int_or(obj, "padding", 0),
    }
}

/// A sound object.
#[derive(Debug)]
pub struct SoundObject {
    /// `sound` file paths (required).
    pub sound: Vec<String>,
    /// `playbackmode`; `"loop"` repeats.
    pub playbackmode: Option<String>,
}

/// A 3D model object.
#[derive(Debug)]
pub struct ModelObject {
    /// `model`: path to the mesh.
    pub model: String,
}

/// A particle object.
#[derive(Debug)]
pub struct ParticleObject {
    /// `scale`, default (1,1,1).
    pub scale: UserSetting<Vec3>,
    /// `angles`, default (0,0,0).
    pub angles: UserSetting<Vec3>,
    /// `visible`, default true.
    pub visible: UserSetting<bool>,
    /// `parallaxDepth`, default (0,0).
    pub parallax_depth: UserSetting<Vec2>,
    /// `particle` file path, when the definition is in a file.
    pub particle_file: Option<String>,
    /// The particle system definition.
    pub system: ParticleSystem,
    /// `instanceoverride`.
    pub instanceoverride: InstanceOverride,
}

/// What a value of [`ParticleObject`] holds.
pub struct ParticleObjectView {
    /// Scale.
    pub scale: SettingView<Seq<ScalarView>>,
    /// Angles.
    pub angles: SettingView<Seq<ScalarView>>,
    /// Visibility.
    pub visible: SettingView<bool>,
    /// Parallax depth.
    pub parallax_depth: SettingView<Seq<ScalarView>>,
    /// File path.
    pub particle_file: Option<Seq<char>>,
    /// Definition.
    pub system: ParticleSystemView,
    /// Overrides.
    pub instanceoverride: InstanceOverrideView,
}

impl View for ParticleObject {
    type V = ParticleObjectView;

    open spec fn view(&self) -> ParticleObjectView {
        ParticleObjectView {
            scale: crate::user::setting(self.scale),
            angles: crate::user::setting(self.angles),
            visible: crate::user::setting(self.visible),
            parallax_depth: crate::user::setting(self.parallax_depth),
            particle_file: crate::fields::opt_text(self.particle_file),
            system: self.system@,
            instanceoverride: self.instanceoverride@,
        }
    }
}

/// The particle object that an object spells: a string names a file, an
/// object is the definition itself.
pub open spec fn particle_object_of(o: Seq<(Seq<char>, JsonView)>) -> ParticleObjectView {
    let particle = crate::json::member(o, "particle"@);
    ParticleObjectView {
        scale: crate::user::vec3_setting(o, "scale"@, ones3()),
        angles: crate::user::vec3_setting(o, "angles"@, zeros3()),
        visible: crate::user::bool_setting(o, "visible"@, true),
        parallax_depth: crate::user::vec2_setting(o, "parallaxDepth"@, zeros2()),
        particle_file: crate::json::text_of(particle),
        system: match particle {
            Some(JsonView::Object(p)) => crate::particle::particle_system_of(JsonView::Object(p)),
            _ => crate::particle::no_system(),
        },
        instanceoverride: match crate::json::object_of(
            crate::json::member(o, "instanceoverride"@),
        ) {
            Some(i) => crate::particle::override_of(i),
            None => crate::particle::no_override(),
        },
    }
}

/// Parse the particle-specific fields.
fn parse_particle(obj: &Members) -> (r: ParticleObject)
    ensures
        r.system.wf(),
        r@ == particle_object_of(obj@),
{
    let particle = obj.get("particle");
    let particle_file = match particle {
        Some(Json::String(s)) => Some(s.clone()),
        _ => None,
    };
    let system = match particle {
        Some(v) => match v {
            Json::Object(o) => {
                proof {
                    crate::json::lemma_object_view(*o);
                }
                ParticleSystem::from_value(v)
            },
            _ => ParticleSystem::default(),
        },
        None => ParticleSystem::default(),
    };
    let instanceoverride = match obj.get("instanceoverride") {
        Some(Json::Object(o)) => {
            proof {
                crate::json::lemma_object_view(*o);
            }
            InstanceOverride::parse(o)
        },
        _ => InstanceOverride::default(),
    };
    ParticleObject {
        scale: user_vec3(obj, "scale", one3()),
        angles: user_vec3(obj, "angles", zero3()),
        visible: user_bool(obj, "visible", true),
        parallax_depth: user_vec2(obj, "parallaxDepth", zero2()),
        particle_file,
        system,
        instanceoverride,
    }
}

/// The kind-specific part of an object.
#[derive(Debug)]
pub enum ObjectKind {
    /// Image object (`image` is a string).
    Image(Box<ImageObject>),
    /// Sound object (`sound` is an array).
    Sound(SoundObject),
    /// Particle object (`particle` present).
    Particle(Box<ParticleObject>),
    /// Text object (`text` present).
    Text(Box<TextObject>),
    /// 3D model object (`model` is a string).
    Model(ModelObject),
    /// Light; fields preserved raw.
    Light(Members),
    /// Volume light; fields preserved raw.
    Shape(Members),
    /// Plain group.
    Group,
}

/// What an [`ObjectKind`] holds.
pub enum ObjectKindView {
    /// Image object.
    Image(ImageObjectView),
    /// Sound object: its files and its playback mode.
    Sound(Seq<Seq<char>>, Option<Seq<char>>),
    /// Particle object.
    Particle(ParticleObjectView),
    /// Text object.
    Text(TextObjectView),
    /// 3D model object: its path.
    Model(Seq<char>),
    /// Light.
    Light(Seq<(Seq<char>, JsonView)>),
    /// Volume light.
    Shape(Seq<(Seq<char>, JsonView)>),
    /// Plain group.
    Group,
}

impl View for ObjectKind {
    type V = ObjectKindView;

    open spec fn view(&self) -> ObjectKindView {
        match self {
            ObjectKind::Image(i) => ObjectKindView::Image((**i)@),
            ObjectKind::Sound(s) => ObjectKindView::Sound(
                crate::text::texts(s.sound@),
                crate::fields::opt_text(s.playbackmode),
            ),
            ObjectKind::Particle(p) => ObjectKindView::Particle((**p)@),
            ObjectKind::Text(t) => ObjectKindView::Text((**t)@),
            ObjectKind::Model(m) => ObjectKindView::Model(m.model@),
            ObjectKind::Light(m) => ObjectKindView::Light(m@),
            ObjectKind::Shape(m) => ObjectKindView::Shape(m@),
            ObjectKind::Group => ObjectKindView::Group,
        }
    }
}

impl ObjectKind {
    /// What the kind holds is well formed.
    pub open spec fn wf(&self) -> bool {
        match self {
            ObjectKind::Image(i) => i.wf(),
            ObjectKind::Particle(p) => p.system.wf(),
            _ => true,
        }
    }
}

/// A scene object: base fields plus the kind.
#[derive(Debug)]
pub struct Object {
    /// Common base fields.
    pub base: BaseObject,
    /// Kind-specific part.
    pub kind: ObjectKind,
    /// All fields, verbatim.
    pub extra: Members,
}

/// What an [`Object`] holds.
pub struct ObjectView {
    /// Base fields.
    pub base: BaseObjectView,
    /// Kind-specific part.
    pub kind: ObjectKindView,
    /// All fields.
    pub extra: Seq<(Seq<char>, JsonView)>,
}

impl View for Object {
    type V = ObjectView;

    open spec fn view(&self) -> ObjectView {
        ObjectView { base: self.base@, kind: self.kind@, extra: self.extra@ }
    }
}

/// A member is present and not `null`.
pub open spec fn is_present(o: Seq<(Seq<char>, JsonView)>, key: Seq<char>) -> bool {
    match crate::json::member(o, key) {
        None => false,
        Some(JsonView::Null) => false,
        Some(_) => true,
    }
}

/// Whether a member is present and not `null`.
fn present(obj: &Members, key: &str) -> (r: bool)
    ensures
        r == is_present(obj@, key@),
{
    match obj.get(key) {
        None => false,
        Some(Json::Null) => false,
        Some(_) => true,
    }
}

/// The kind that an object spells: the first of these members decides —
/// `image` as a string, `sound` as an array, `particle`, `text`, `model` as a
/// string, `light`, `shape`; without any it is a group.
pub open spec fn kind_of(o: Seq<(Seq<char>, JsonView)>) -> ObjectKindView {
    if crate::fields::text_at(o, "image"@) is Some {
        ObjectKindView::Image(image_of(o))
    } else if crate::json::member(o, "sound"@) matches Some(JsonView::Array(_)) {
        ObjectKindView::Sound(
            crate::fields::texts_of(crate::json::member(o, "sound"@)),
            crate::fields::text_at(o, "playbackmode"@),
        )
    } else if is_present(o, "particle"@) {
        ObjectKindView::Particle(particle_object_of(o))
    } else if is_present(o, "text"@) {
        ObjectKindView::Text(text_object_of(o))
    } else if crate::fields::text_at(o, "model"@) is Some {
        ObjectKindView::Model(crate::fields::text_at(o, "model"@)->0)
    } else if is_present(o, "light"@) {
        ObjectKindView::Light(o)
    } else if is_present(o, "shape"@) {
        ObjectKindView::Shape(o)
    } else {
        ObjectKindView::Group
    }
}

/// The scene object that a value spells; nothing when it is no JSON object.
pub open spec fn object_of_value(v: JsonView) -> Option<ObjectView> {
    match v {
        JsonView::Object(o) => Some(ObjectView { base: base_of(o), kind: kind_of(o), extra: o }),
        _ => None,
    }
}

/// Whether a member is an array.
fn is_array(obj: &Members, key: &str) -> (r: bool)
    ensures
        r == (crate::json::member(obj@, key@) matches Some(JsonView::Array(_))),
{
    match obj.get(key) {
        Some(Json::Array(_)) => true,
        _ => false,
    }
}

/// Parse the sound-specific fields.
fn parse_sound(obj: &Members) -> (r: ObjectKind)
    ensures
        r is Sound,
        r@ == ObjectKindView::Sound(
            crate::fields::texts_of(crate::json::member(obj@, "sound"@)),
            crate::fields::text_at(obj@, "playbackmode"@),
        ),
{
    ObjectKind::Sound(
        SoundObject { sound: strings(obj.get("sound")), playbackmode: text_field(obj, "playbackmode") },
    )
}

/// Parse the kind-specific part of an object.
fn parse_kind(obj: &Members) -> (r: ObjectKind)
    ensures
        r.wf(),
        r@ == kind_of(obj@),
{
    match text_field(obj, "image") {
        Some(_) => {
            return ObjectKind::Image(Box::new(parse_image(obj)));
        },
        None => {},
    }
    if is_array(obj, "sound") {
        return parse_sound(obj);
    }
    if present(obj, "particle") {
        return ObjectKind::Particle(Box::new(parse_particle(obj)));
    }
    if present(obj, "text") {
        return ObjectKind::Text(Box::new(parse_text(obj)));
    }
    match text_field(obj, "model") {
        Some(model) => {
            return ObjectKind::Model(ModelObject { model });
        },
        None => {},
    }
    if present(obj, "light") {
        return ObjectKind::Light(obj.copy());
    }
    if present(obj, "shape") {
        return ObjectKind::Shape(obj.copy());
    }
    ObjectKind::Group
}

impl Object {
    /// What the object holds is well formed.
    pub open spec fn wf(&self) -> bool {
        self.kind.wf()
    }

    /// Parse one scene object; nothing when the value is no JSON object.
    pub fn parse(value: &Json) -> (r: Option<Object>)
        ensures
            match r {
                Some(o) => o.wf() && object_of_value(value@) == Some(o@),
                None => object_of_value(value@) is None,
            },
    {
        match value {
            Json::Object(obj) => {
                proof {
                    crate::json::lemma_object_view(*obj);
                }
                Some(Object { base: BaseObject::parse(obj), kind: parse_kind(obj), extra: obj.copy() })
            },
            _ => None,
        }
    }
}

} // verus!
