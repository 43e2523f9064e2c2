//! Particle system definitions.
//!
//! A particle object carries a transform and instance overrides; the system
//! itself — emitters, initializers, operators, renderers, control points,
//! child systems — is inline or in a file of its own.
use vstd::prelude::*;

use crate::fields::{flag_or, int_or, objects, scalar_or, text_field, text_or, unsigned_or};
use crate::json::{Json, JsonView, Members};
use crate::material::Material;
use crate::number::{Scalar, ScalarView};
use crate::text::same;
use crate::user::{
    read_constants, user_bool, user_f32, user_vec3, ConstantValues, SettingView, UserSetting,
};
use crate::value::{
    coerce_f64, coerce_i64, number_to_scalar, one, parse_vec2, parse_vec3, zero, DynamicView, Vec2, Vec3,
};

verus! {

/// A number given as a decimal literal.
pub fn decimal(text: &str) -> (r: Scalar)
    ensures
        r@ == ScalarView::Text(text@),
{
    Scalar::Text(text.to_owned())
}

/// Component `i` of an array, or the default.
pub open spec fn component(a: Seq<JsonView>, i: int, default: ScalarView) -> ScalarView {
    if i < a.len() {
        crate::fields::value_or(crate::value::as_scalar(a[i]), default)
    } else {
        default
    }
}

/// Component `i` of an array, or the default.
fn read_component(a: &Vec<Json>, i: usize, default: Scalar) -> (r: Scalar)
    ensures
        r@ == component(crate::json::views(a@), i as int, default@),
{
    if i < a.len() {
        assert(crate::json::views(a@)[i as int] == a@[i as int]@);
        match coerce_f64(&a[i]) {
            Some(n) => n,
            None => default,
        }
    } else {
        default
    }
}

/// The 3-component vector that a value spells: a `"x y z"` string, an array,
/// whose unreadable components take the default's, or one number for all
/// three.
pub open spec fn bvec3_of(v: Option<JsonView>, default: Seq<ScalarView>) -> Seq<ScalarView> {
    match v {
        Some(JsonView::String(s)) => crate::fields::value_or(crate::value::vec3_of(s), default),
        Some(JsonView::Array(a)) => seq![
            component(a, 0, default[0]),
            component(a, 1, default[1]),
            component(a, 2, default[2]),
        ],
        Some(JsonView::Number(n)) => {
            let x = crate::value::number_scalar(n);
            seq![x, x, x]
        },
        _ => default,
    }
}

/// Parse a broadcastable vec3: a `"x y z"` string, an `[x, y, z]` array, or a
/// single number for all three.
pub fn parse_bvec3(value: Option<&Json>, default: Vec3) -> (r: Vec3)
    ensures
        crate::number::scalars(r@) == bvec3_of(
            crate::json::shown(value),
            crate::number::scalars(default@),
        ),
{
    match value {
        Some(Json::String(s)) => match parse_vec3(s.as_str()) {
            Some(v) => v,
            None => default,
        },
        Some(Json::Array(a)) => {
            proof {
                crate::json::lemma_array_view(*a);
            }
            let r = [
                read_component(a, 0, default[0].copy()),
                read_component(a, 1, default[1].copy()),
                read_component(a, 2, default[2].copy()),
            ];
            assert(crate::number::scalars(r@) =~= bvec3_of(
                crate::json::shown(value),
                crate::number::scalars(default@),
            ));
            r
        },
        Some(Json::Number(n)) => {
            let r = [number_to_scalar(n), number_to_scalar(n), number_to_scalar(n)];
            assert(crate::number::scalars(r@) =~= bvec3_of(
                crate::json::shown(value),
                crate::number::scalars(default@),
            ));
            r
        },
        _ => default,
    }
}

/// The 2-component vector that a value spells: a `"x y"` string or an array,
/// whose unreadable components take the default's.
pub open spec fn bvec2_of(v: Option<JsonView>, default: Seq<ScalarView>) -> Seq<ScalarView> {
    match v {
        Some(JsonView::String(s)) => crate::fields::value_or(crate::value::vec2_of(s), default),
        Some(JsonView::Array(a)) => seq![component(a, 0, default[0]), component(a, 1, default[1])],
        _ => default,
    }
}

/// Parse a vec2 from a `"x y"` string or an `[x, y]` array, without
/// broadcasting.
fn parse_bvec2(value: Option<&Json>, default: Vec2) -> (r: Vec2)
    ensures
        crate::number::scalars(r@) == bvec2_of(
            crate::json::shown(value),
            crate::number::scalars(default@),
        ),
{
    match value {
        Some(Json::String(s)) => match parse_vec2(s.as_str()) {
            Some(v) => v,
            None => default,
        },
        Some(Json::Array(a)) => {
            proof {
                crate::json::lemma_array_view(*a);
            }
            let r = [read_component(a, 0, default[0].copy()), read_component(a, 1, default[1].copy())];
            assert(crate::number::scalars(r@) =~= bvec2_of(
                crate::json::shown(value),
                crate::number::scalars(default@),
            ));
            r
        },
        _ => default,
    }
}

/// Component `i` of an integer array, zero when it is missing or unreadable.
/// Bits beyond 32 are cut off.
pub open spec fn int_component(a: Seq<JsonView>, i: int) -> i32 {
    if i < a.len() {
        match crate::value::as_int(a[i]) {
            Some(v) => v as i32,
            None => 0,
        }
    } else {
        0
    }
}

/// The integer vector that an array spells; zero for any other value.
pub open spec fn ivec3_of(v: Option<JsonView>) -> Seq<i32> {
    let a = crate::json::elements(v);
    seq![int_component(a, 0), int_component(a, 1), int_component(a, 2)]
}

/// Component `i` of an integer array.
fn read_int_component(a: &Vec<Json>, i: usize) -> (r: i32)
    ensures
        r == int_component(crate::json::views(a@), i as int),
{
    if i < a.len() {
        assert(crate::json::views(a@)[i as int] == a@[i as int]@);
        match coerce_i64(&a[i]) {
            Some(v) => #[verifier::truncate]
            (v as i32),
            None => 0,
        }
    } else {
        0
    }
}

/// Parse an integer vector, in array form only.
fn parse_ivec3(value: Option<&Json>) -> (r: [i32; 3])
    ensures
        r@ == ivec3_of(crate::json::shown(value)),
{
    match value {
        Some(Json::Array(a)) => {
            proof {
                crate::json::lemma_array_view(*a);
            }
            let r = [read_int_component(a, 0), read_int_component(a, 1), read_int_component(a, 2)];
            assert(r@ =~= ivec3_of(crate::json::shown(value)));
            r
        },
        _ => {
            let r = [0, 0, 0];
            assert(r@ =~= ivec3_of(crate::json::shown(value)));
            r
        },
    }
}


/// An emitter.
#[derive(Debug)]
pub struct Emitter {
    /// `id`, default -1.
    pub id: i64,
    /// `name`: the shape, default empty.
    pub name: String,
    /// `directions`, default (1,1,0).
    pub directions: Vec3,
    /// `distancemin`, default (0,0,0).
    pub distancemin: Vec3,
    /// `distancemax`, default (256,256,0).
    pub distancemax: Vec3,
    /// `origin`, default (0,0,0).
    pub origin: Vec3,
    /// `sign`, array form only, default (0,0,0).
    pub sign: [i32; 3],
    /// `instantaneous`, default 0.
    pub instantaneous: u32,
    /// `speedmin`, default 0.
    pub speedmin: Scalar,
    /// `speedmax`, default 0.
    pub speedmax: Scalar,
    /// `rate`, default 10.
    pub rate: Scalar,
    /// `controlpoint`, default 0.
    pub controlpoint: i64,
    /// `flags`, default 0.
    pub flags: u32,
    /// `cone`, default 0.
    pub cone: Scalar,
    /// `delay`, default 0.
    pub delay: Scalar,
    /// `duration`, default 0.
    pub duration: Scalar,
    /// `audioprocessingbounds`, default (0.8, 1.0).
    pub audioprocessingbounds: Vec2,
    /// `audioprocessingexponent`, default 2.
    pub audioprocessingexponent: i64,
    /// `audioprocessingfrequencystart`, default 0.
    pub audioprocessingfrequencystart: i64,
    /// `audioprocessingfrequencyend`, default 1.
    pub audioprocessingfrequencyend: i64,
    /// `audioprocessingmode`, default 0.
    pub audioprocessingmode: i64,
    /// `minperiodicdelay`, default 1.
    pub minperiodicdelay: Scalar,
    /// `maxperiodicdelay`, default 2.
    pub maxperiodicdelay: Scalar,
    /// `minperiodicduration`, default 2.
    pub minperiodicduration: Scalar,
    /// `maxperiodicduration`, default 3.
    pub maxperiodicduration: Scalar,
}

/// What a value of [`Emitter`] holds.
pub struct EmitterView {
    /// `id`, default -1.
    pub id: i64,
    /// `name`: the shape, default empty.
    pub name: Seq<char>,
    /// `directions`, default (1,1,0).
    pub directions: Seq<ScalarView>,
    /// `distancemin`, default (0,0,0).
    pub distancemin: Seq<ScalarView>,
    /// `distancemax`, default (256,256,0).
    pub distancemax: Seq<ScalarView>,
    /// `origin`, default (0,0,0).
    pub origin: Seq<ScalarView>,
    /// `sign`, array form only, default (0,0,0).
    pub sign: Seq<i32>,
    /// `instantaneous`, default 0.
    pub instantaneous: u32,
    /// `speedmin`, default 0.
    pub speedmin: ScalarView,
    /// `speedmax`, default 0.
    pub speedmax: ScalarView,
    /// `rate`, default 10.
    pub rate: ScalarView,
    /// `controlpoint`, default 0.
    pub controlpoint: i64,
    /// `flags`, default 0.
    pub flags: u32,
    /// `cone`, default 0.
    pub cone: ScalarView,
    /// `delay`, default 0.
    pub delay: ScalarView,
    /// `duration`, default 0.
    pub duration: ScalarView,
    /// `audioprocessingbounds`, default (0.8, 1.0).
    pub audioprocessingbounds: Seq<ScalarView>,
    /// `audioprocessingexponent`, default 2.
    pub audioprocessingexponent: i64,
    /// `audioprocessingfrequencystart`, default 0.
    pub audioprocessingfrequencystart: i64,
    /// `audioprocessingfrequencyend`, default 1.
    pub audioprocessingfrequencyend: i64,
    /// `audioprocessingmode`, default 0.
    pub audioprocessingmode: i64,
    /// `minperiodicdelay`, default 1.
    pub minperiodicdelay: ScalarView,
    /// `maxperiodicdelay`, default 2.
    pub maxperiodicdelay: ScalarView,
    /// `minperiodicduration`, default 2.
    pub minperiodicduration: ScalarView,
    /// `maxperiodicduration`, default 3.
    pub maxperiodicduration: ScalarView,
}

impl View for Emitter {
    type V = EmitterView;

    open spec fn view(&self) -> EmitterView {
        EmitterView {
            id: self.id,
            name: self.name@,
            directions: crate::number::scalars(self.directions@),
            distancemin: crate::number::scalars(self.distancemin@),
            distancemax: crate::number::scalars(self.distancemax@),
            origin: crate::number::scalars(self.origin@),
            sign: self.sign@,
            instantaneous: self.instantaneous,
            speedmin: self.speedmin@,
            speedmax: self.speedmax@,
            rate: self.rate@,
            controlpoint: self.controlpoint,
            flags: self.flags,
            cone: self.cone@,
            delay: self.delay@,
            duration: self.duration@,
            audioprocessingbounds: crate::number::scalars(self.audioprocessingbounds@),
            audioprocessingexponent: self.audioprocessingexponent,
            audioprocessingfrequencystart: self.audioprocessingfrequencystart,
            audioprocessingfrequencyend: self.audioprocessingfrequencyend,
            audioprocessingmode: self.audioprocessingmode,
            minperiodicdelay: self.minperiodicdelay@,
            maxperiodicdelay: self.maxperiodicdelay@,
            minperiodicduration: self.minperiodicduration@,
            maxperiodicduration: self.maxperiodicduration@,
        }
    }
}

/// The emitter that an object spells.
pub open spec fn emitter_of(o: Seq<(Seq<char>, JsonView)>) -> EmitterView {
    EmitterView {
        id: crate::fields::value_or(crate::fields::int_at(o, "id"@), (-1) as i64),
        name: crate::fields::value_or(crate::fields::text_at(o, "name"@), ""@),
        directions: bvec3_of(crate::json::member(o, "directions"@), seq![ScalarView::Whole(1), ScalarView::Whole(1), ScalarView::Whole(0)]),
        distancemin: bvec3_of(crate::json::member(o, "distancemin"@), seq![ScalarView::Whole(0), ScalarView::Whole(0), ScalarView::Whole(0)]),
        distancemax: bvec3_of(crate::json::member(o, "distancemax"@), seq![ScalarView::Whole(256), ScalarView::Whole(256), ScalarView::Whole(0)]),
        origin: bvec3_of(crate::json::member(o, "origin"@), seq![ScalarView::Whole(0), ScalarView::Whole(0), ScalarView::Whole(0)]),
        sign: ivec3_of(crate::json::member(o, "sign"@)),
        instantaneous: crate::fields::value_or(crate::fields::unsigned_at(o, "instantaneous"@), 0),
        speedmin: crate::fields::value_or(crate::fields::scalar_at(o, "speedmin"@), ScalarView::Whole(0)),
        speedmax: crate::fields::value_or(crate::fields::scalar_at(o, "speedmax"@), ScalarView::Whole(0)),
        rate: crate::fields::value_or(crate::fields::scalar_at(o, "rate"@), ScalarView::Whole(10)),
        controlpoint: crate::fields::value_or(crate::fields::int_at(o, "controlpoint"@), 0),
        flags: crate::fields::value_or(crate::fields::unsigned_at(o, "flags"@), 0),
        cone: crate::fields::value_or(crate::fields::scalar_at(o, "cone"@), ScalarView::Whole(0)),
        delay: crate::fields::value_or(crate::fields::scalar_at(o, "delay"@), ScalarView::Whole(0)),
        duration: crate::fields::value_or(crate::fields::scalar_at(o, "duration"@), ScalarView::Whole(0)),
        audioprocessingbounds: bvec2_of(crate::json::member(o, "audioprocessingbounds"@), seq![ScalarView::Text("0.8"@), ScalarView::Whole(1)]),
        audioprocessingexponent: crate::fields::value_or(crate::fields::int_at(o, "audioprocessingexponent"@), 2),
        audioprocessingfrequencystart: crate::fields::value_or(crate::fields::int_at(o, "audioprocessingfrequencystart"@), 0),
        audioprocessingfrequencyend: crate::fields::value_or(crate::fields::int_at(o, "audioprocessingfrequencyend"@), 1),
        audioprocessingmode: crate::fields::value_or(crate::fields::int_at(o, "audioprocessingmode"@), 0),
        minperiodicdelay: crate::fields::value_or(crate::fields::scalar_at(o, "minperiodicdelay"@), ScalarView::Whole(1)),
        maxperiodicdelay: crate::fields::value_or(crate::fields::scalar_at(o, "maxperiodicdelay"@), ScalarView::Whole(2)),
        minperiodicduration: crate::fields::value_or(crate::fields::scalar_at(o, "minperiodicduration"@), ScalarView::Whole(2)),
        maxperiodicduration: crate::fields::value_or(crate::fields::scalar_at(o, "maxperiodicduration"@), ScalarView::Whole(3)),
    }
}

impl Emitter {
    /// Parse one emitter object.
    pub fn parse(obj: &Members) -> (r: Emitter)
        ensures
            r@ == emitter_of(obj@),
    {
        let directions_default = [one(), one(), zero()];
        assert(crate::number::scalars(directions_default@) =~= seq![ScalarView::Whole(1), ScalarView::Whole(1), ScalarView::Whole(0)]);
        let distancemin_default = [zero(), zero(), zero()];
        assert(crate::number::scalars(distancemin_default@) =~= seq![ScalarView::Whole(0), ScalarView::Whole(0), ScalarView::Whole(0)]);
        let distancemax_default = [Scalar::Whole(256), Scalar::Whole(256), zero()];
        assert(crate::number::scalars(distancemax_default@) =~= seq![ScalarView::Whole(256), ScalarView::Whole(256), ScalarView::Whole(0)]);
        let origin_default = [zero(), zero(), zero()];
        assert(crate::number::scalars(origin_default@) =~= seq![ScalarView::Whole(0), ScalarView::Whole(0), ScalarView::Whole(0)]);
        let audioprocessingbounds_default = [decimal("0.8"), one()];
        assert(crate::number::scalars(audioprocessingbounds_default@) =~= seq![ScalarView::Text("0.8"@), ScalarView::Whole(1)]);
        Emitter {
            id: int_or(obj, "id", -1),
            name: text_or(obj, "name", ""),
            directions: parse_bvec3(obj.get("directions"), directions_default),
            distancemin: parse_bvec3(obj.get("distancemin"), distancemin_default),
            distancemax: parse_bvec3(obj.get("distancemax"), distancemax_default),
            origin: parse_bvec3(obj.get("origin"), origin_default),
            sign: parse_ivec3(obj.get("sign")),
            instantaneous: unsigned_or(obj, "instantaneous", 0),
            speedmin: scalar_or(obj, "speedmin", zero()),
            speedmax: scalar_or(obj, "speedmax", zero()),
            rate: scalar_or(obj, "rate", Scalar::Whole(10)),
            controlpoint: int_or(obj, "controlpoint", 0),
            flags: unsigned_or(obj, "flags", 0),
            cone: scalar_or(obj, "cone", zero()),
            delay: scalar_or(obj, "delay", zero()),
            duration: scalar_or(obj, "duration", zero()),
            audioprocessingbounds: parse_bvec2(obj.get("audioprocessingbounds"), audioprocessingbounds_default),
            audioprocessingexponent: int_or(obj, "audioprocessingexponent", 2),
            audioprocessingfrequencystart: int_or(obj, "audioprocessingfrequencystart", 0),
            audioprocessingfrequencyend: int_or(obj, "audioprocessingfrequencyend", 1),
            audioprocessingmode: int_or(obj, "audioprocessingmode", 0),
            minperiodicdelay: scalar_or(obj, "minperiodicdelay", one()),
            maxperiodicdelay: scalar_or(obj, "maxperiodicdelay", Scalar::Whole(2)),
            minperiodicduration: scalar_or(obj, "minperiodicduration", Scalar::Whole(2)),
            maxperiodicduration: scalar_or(obj, "maxperiodicduration", Scalar::Whole(3)),
        }
    }
}

/// Parse the objects of a list as values of [`Emitter`].
fn parse_emitter_list(value: Option<&Json>) -> (out: Vec<Emitter>)
    ensures
        out@.len() == crate::fields::objects_of(crate::json::shown(value)).len(),
        forall|k: int|
            0 <= k < out@.len() ==> (#[trigger] out@[k])@ == emitter_of(
                crate::fields::objects_of(crate::json::shown(value))[k],
            ),
{
    let list = objects(value);
    let ghost all = crate::fields::members_of(list@);
    let mut out: Vec<Emitter> = Vec::new();
    let mut i: usize = 0;
    while i < list.len()
        invariant
            i <= list@.len(),
            all == crate::fields::members_of(list@),
            out@.len() == i,
            forall|k: int| 0 <= k < i ==> (#[trigger] out@[k])@ == emitter_of(all[k]),
        decreases list@.len() - i,
    {
        assert(all[i as int] == list@[i as int]@);
        out.push(Emitter::parse(list[i]));
        i = i + 1;
    }
    assert(all.len() == list@.len());
    out
}

/// A particle initializer or operator: its name, and every other member as a
/// user setting, so that property-bound parameters survive.
#[derive(Debug)]
pub struct NamedStage {
    /// `id`, default -1.
    pub id: i64,
    /// The name that says what the stage does.
    pub name: String,
    /// Every remaining member as a user setting.
    pub params: ConstantValues,
}

/// What a value of [`NamedStage`] holds.
pub struct NamedStageView {
    /// Identifier.
    pub id: i64,
    /// Name.
    pub name: Seq<char>,
    /// Parameters.
    pub params: Map<Seq<char>, SettingView<DynamicView>>,
}

impl View for NamedStage {
    type V = NamedStageView;

    open spec fn view(&self) -> NamedStageView {
        NamedStageView {
            id: self.id,
            name: self.name@,
            params: crate::user::constants(self.params),
        }
    }
}

/// The stage that an object spells.
pub open spec fn stage_of(o: Seq<(Seq<char>, JsonView)>) -> NamedStageView {
    NamedStageView {
        id: crate::fields::value_or(crate::fields::int_at(o, "id"@), (-1) as i64),
        name: crate::fields::value_or(crate::fields::text_at(o, "name"@), ""@),
        params: crate::user::constants_of(o, set!["id"@, "name"@]),
    }
}

impl NamedStage {
    /// The parameters are well formed.
    pub open spec fn wf(&self) -> bool {
        self.params.wf()
    }

    /// Parse an initializer or operator object.
    pub fn parse(obj: &Members) -> (r: NamedStage)
        ensures
            r.wf(),
            r@ == stage_of(obj@),
    {
        let mut skip: Vec<String> = Vec::new();
        skip.push("id".to_owned());
        skip.push("name".to_owned());
        let params = read_constants(obj, &skip);
        proof {
            let t = crate::text::texts(skip@);
            assert(t.len() == 2 && t[0] == "id"@ && t[1] == "name"@);
            assert(t.to_set() =~= set!["id"@, "name"@]) by {
                assert forall|k: Seq<char>| t.contains(k) == set!["id"@, "name"@].contains(k) by {
                    if k == "id"@ {
                        assert(t[0] == k);
                    }
                    if k == "name"@ {
                        assert(t[1] == k);
                    }
                }
            }
        }
        NamedStage { id: int_or(obj, "id", -1), name: text_or(obj, "name", ""), params }
    }
}

/// Every stage is well formed.
pub open spec fn stages_wf(v: Seq<NamedStage>) -> bool {
    forall|i: int| 0 <= i < v.len() ==> (#[trigger] v[i]).wf()
}

/// Parse the objects of a list as stages.
fn parse_stage_list(value: Option<&Json>) -> (out: Vec<NamedStage>)
    ensures
        stages_wf(out@),
        out@.len() == crate::fields::objects_of(crate::json::shown(value)).len(),
        forall|k: int|
            0 <= k < out@.len() ==> (#[trigger] out@[k])@ == stage_of(
                crate::fields::objects_of(crate::json::shown(value))[k],
            ),
{
    let list = objects(value);
    let ghost all = crate::fields::members_of(list@);
    let mut out: Vec<NamedStage> = Vec::new();
    let mut i: usize = 0;
    while i < list.len()
        invariant
            i <= list@.len(),
            all == crate::fields::members_of(list@),
            out@.len() == i,
            stages_wf(out@),
            forall|k: int| 0 <= k < i ==> (#[trigger] out@[k])@ == stage_of(all[k]),
        decreases list@.len() - i,
    {
        assert(all[i as int] == list@[i as int]@);
        out.push(NamedStage::parse(list[i]));
        i = i + 1;
    }
    assert(all.len() == list@.len());
    out
}

/// A particle renderer.
#[derive(Debug)]
pub struct Renderer {
    /// `name`, default `"sprite"`.
    pub name: String,
    /// `length`, default 0.05 (1.0 for `ropetrail`).
    pub length: Scalar,
    /// `maxlength`, default 10.
    pub maxlength: Scalar,
    /// `minlength`, default 0.
    pub minlength: Scalar,
    /// `subdivision`, default 1 (4 for `rope`).
    pub subdivision: Scalar,
    /// `segments`, default 4.
    pub segments: Scalar,
    /// `uvscale`, default 1.
    pub uvscale: Scalar,
    /// `uvscrolling`, default false.
    pub uvscrolling: bool,
    /// `uvsmoothing`, default true.
    pub uvsmoothing: bool,
    /// `fadealpha`, default false.
    pub fadealpha: bool,
    /// `fadesize`, default false.
    pub fadesize: bool,
}

/// What a value of [`Renderer`] holds.
pub struct RendererView {
    /// `name`, default `"sprite"`.
    pub name: Seq<char>,
    /// `length`, default 0.05 (1.0 for `ropetrail`).
    pub length: ScalarView,
    /// `maxlength`, default 10.
    pub maxlength: ScalarView,
    /// `minlength`, default 0.
    pub minlength: ScalarView,
    /// `subdivision`, default 1 (4 for `rope`).
    pub subdivision: ScalarView,
    /// `segments`, default 4.
    pub segments: ScalarView,
    /// `uvscale`, default 1.
    pub uvscale: ScalarView,
    /// `uvscrolling`, default false.
    pub uvscrolling: bool,
    /// `uvsmoothing`, default true.
    pub uvsmoothing: bool,
    /// `fadealpha`, default false.
    pub fadealpha: bool,
    /// `fadesize`, default false.
    pub fadesize: bool,
}

impl View for Renderer {
    type V = RendererView;

    open spec fn view(&self) -> RendererView {
        RendererView {
            name: self.name@,
            length: self.length@,
            maxlength: self.maxlength@,
            minlength: self.minlength@,
            subdivision: self.subdivision@,
            segments: self.segments@,
            uvscale: self.uvscale@,
            uvscrolling: self.uvscrolling,
            uvsmoothing: self.uvsmoothing,
            fadealpha: self.fadealpha,
            fadesize: self.fadesize,
        }
    }
}

/// The renderer that an object spells: some defaults go by its name.
pub open spec fn renderer_of(o: Seq<(Seq<char>, JsonView)>) -> RendererView {
    let name = crate::fields::value_or(crate::fields::text_at(o, "name"@), "sprite"@);
    RendererView {
        name,
        length: crate::fields::value_or(crate::fields::scalar_at(o, "length"@), if name == "ropetrail"@ { ScalarView::Whole(1) } else { ScalarView::Text("0.05"@) }),
        maxlength: crate::fields::value_or(crate::fields::scalar_at(o, "maxlength"@), ScalarView::Whole(10)),
        minlength: crate::fields::value_or(crate::fields::scalar_at(o, "minlength"@), ScalarView::Whole(0)),
        subdivision: crate::fields::value_or(crate::fields::scalar_at(o, "subdivision"@), if name == "rope"@ { ScalarView::Whole(4) } else { ScalarView::Whole(1) }),
        segments: crate::fields::value_or(crate::fields::scalar_at(o, "segments"@), ScalarView::Whole(4)),
        uvscale: crate::fields::value_or(crate::fields::scalar_at(o, "uvscale"@), ScalarView::Whole(1)),
        uvscrolling: crate::fields::value_or(crate::fields::flag_at(o, "uvscrolling"@), false),
        uvsmoothing: crate::fields::value_or(crate::fields::flag_at(o, "uvsmoothing"@), true),
        fadealpha: crate::fields::value_or(crate::fields::flag_at(o, "fadealpha"@), false),
        fadesize: crate::fields::value_or(crate::fields::flag_at(o, "fadesize"@), false),
    }
}

/// The renderer of a system that names none.
pub open spec fn sprite_view() -> RendererView {
    RendererView {
        name: "sprite"@,
        length: ScalarView::Text("0.05"@),
        maxlength: ScalarView::Whole(10),
        minlength: ScalarView::Whole(0),
        subdivision: ScalarView::Whole(1),
        segments: ScalarView::Whole(4),
        uvscale: ScalarView::Whole(1),
        uvscrolling: false,
        uvsmoothing: true,
        fadealpha: false,
        fadesize: false,
    }
}

/// An object without members spells the default sprite renderer.
pub proof fn law_empty_renderer_is_sprite()
    ensures
        renderer_of(Seq::empty()) == sprite_view(),
{
    reveal_strlit("sprite");
    reveal_strlit("rope");
    reveal_strlit("ropetrail");
    assert("sprite"@.len() == 6 && "rope"@.len() == 4 && "ropetrail"@.len() == 9);
}

impl Renderer {
    /// The default sprite renderer.
    pub fn default_sprite() -> (r: Renderer)
        ensures
            r@ == sprite_view(),
    {
        Renderer {
            name: "sprite".to_owned(),
            length: decimal("0.05"),
            maxlength: Scalar::Whole(10),
            minlength: zero(),
            subdivision: one(),
            segments: Scalar::Whole(4),
            uvscale: one(),
            uvscrolling: false,
            uvsmoothing: true,
            fadealpha: false,
            fadesize: false,
        }
    }

    /// Parse one renderer object.
    pub fn parse(obj: &Members) -> (r: Renderer)
        ensures
            r@ == renderer_of(obj@),
    {
        let name = text_or(obj, "name", "sprite");
        let length_default = if same(name.as_str(), "ropetrail") {
            one()
        } else {
            decimal("0.05")
        };
        let subdivision_default = if same(name.as_str(), "rope") {
            Scalar::Whole(4)
        } else {
            one()
        };
        Renderer {
            length: scalar_or(obj, "length", length_default),
            maxlength: scalar_or(obj, "maxlength", Scalar::Whole(10)),
            minlength: scalar_or(obj, "minlength", zero()),
            subdivision: scalar_or(obj, "subdivision", subdivision_default),
            segments: scalar_or(obj, "segments", Scalar::Whole(4)),
            uvscale: scalar_or(obj, "uvscale", one()),
            uvscrolling: flag_or(obj, "uvscrolling", false),
            uvsmoothing: flag_or(obj, "uvsmoothing", true),
            fadealpha: flag_or(obj, "fadealpha", false),
            fadesize: flag_or(obj, "fadesize", false),
            name,
        }
    }
}

/// Parse the objects of a list as values of [`Renderer`].
fn parse_renderer_list(value: Option<&Json>) -> (out: Vec<Renderer>)
    ensures
        out@.len() == crate::fields::objects_of(crate::json::shown(value)).len(),
        forall|k: int|
            0 <= k < out@.len() ==> (#[trigger] out@[k])@ == renderer_of(
                crate::fields::objects_of(crate::json::shown(value))[k],
            ),
{
    let list = objects(value);
    let ghost all = crate::fields::members_of(list@);
    let mut out: Vec<Renderer> = Vec::new();
    let mut i: usize = 0;
    while i < list.len()
        invariant
            i <= list@.len(),
            all == crate::fields::members_of(list@),
            out@.len() == i,
            forall|k: int| 0 <= k < i ==> (#[trigger] out@[k])@ == renderer_of(all[k]),
        decreases list@.len() - i,
    {
        assert(all[i as int] == list@[i as int]@);
        out.push(Renderer::parse(list[i]));
        i = i + 1;
    }
    assert(all.len() == list@.len());
    out
}

/// A control point.
#[derive(Debug)]
pub struct ControlPoint {
    /// `id`, default -1.
    pub id: i64,
    /// `flags`, default 0.
    pub flags: u32,
    /// `offset`, string form only, default (0,0,0).
    pub offset: Vec3,
    /// `locktopointer`, default false.
    pub locktopointer: bool,
}

/// What a value of [`ControlPoint`] holds.
pub struct ControlPointView {
    /// `id`, default -1.
    pub id: i64,
    /// `flags`, default 0.
    pub flags: u32,
    /// `offset`, string form only, default (0,0,0).
    pub offset: Seq<ScalarView>,
    /// `locktopointer`, default false.
    pub locktopointer: bool,
}

impl View for ControlPoint {
    type V = ControlPointView;

    open spec fn view(&self) -> ControlPointView {
        ControlPointView {
            id: self.id,
            flags: self.flags,
            offset: crate::number::scalars(self.offset@),
            locktopointer: self.locktopointer,
        }
    }
}

/// The zero vector.
pub open spec fn zeros() -> Seq<ScalarView> {
    seq![ScalarView::Whole(0), ScalarView::Whole(0), ScalarView::Whole(0)]
}

/// The control point that an object spells.
pub open spec fn control_point_of(o: Seq<(Seq<char>, JsonView)>) -> ControlPointView {
    ControlPointView {
        id: crate::fields::value_or(crate::fields::int_at(o, "id"@), (-1) as i64),
        flags: crate::fields::value_or(crate::fields::unsigned_at(o, "flags"@), 0),
        offset: match crate::fields::text_at(o, "offset"@) {
            Some(s) => crate::fields::value_or(crate::value::vec3_of(s), zeros()),
            None => zeros(),
        },
        locktopointer: crate::fields::value_or(crate::fields::flag_at(o, "locktopointer"@), false),
    }
}

impl ControlPoint {
    /// Parse one control point object.
    pub fn parse(obj: &Members) -> (r: ControlPoint)
        ensures
            r@ == control_point_of(obj@),
    {
        let origin = [zero(), zero(), zero()];
        assert(crate::number::scalars(origin@) =~= zeros());
        let offset = match text_field(obj, "offset") {
            Some(s) => match parse_vec3(s.as_str()) {
                Some(v) => v,
                None => origin,
            },
            None => origin,
        };
        ControlPoint {
            id: int_or(obj, "id", -1),
            flags: unsigned_or(obj, "flags", 0),
            offset,
            locktopointer: flag_or(obj, "locktopointer", false),
        }
    }
}

/// Parse the objects of a list as values of [`ControlPoint`].
fn parse_controlpoint_list(value: Option<&Json>) -> (out: Vec<ControlPoint>)
    ensures
        out@.len() == crate::fields::objects_of(crate::json::shown(value)).len(),
        forall|k: int|
            0 <= k < out@.len() ==> (#[trigger] out@[k])@ == control_point_of(
                crate::fields::objects_of(crate::json::shown(value))[k],
            ),
{
    let list = objects(value);
    let ghost all = crate::fields::members_of(list@);
    let mut out: Vec<ControlPoint> = Vec::new();
    let mut i: usize = 0;
    while i < list.len()
        invariant
            i <= list@.len(),
            all == crate::fields::members_of(list@),
            out@.len() == i,
            forall|k: int| 0 <= k < i ==> (#[trigger] out@[k])@ == control_point_of(all[k]),
        decreases list@.len() - i,
    {
        assert(all[i as int] == list@[i as int]@);
        out.push(ControlPoint::parse(list[i]));
        i = i + 1;
    }
    assert(all.len() == list@.len());
    out
}

/// A child particle system.
#[derive(Debug)]
pub struct ChildSystem {
    /// `type`, default `"static"`.
    pub kind: String,
    /// `name`, default empty.
    pub name: String,
    /// `maxcount`, default 20.
    pub maxcount: u32,
    /// `controlpointstartindex`, default 0.
    pub controlpointstartindex: i64,
    /// `probability`, default 1.
    pub probability: Scalar,
    /// `angles`, default (0,0,0).
    pub angles: Vec3,
    /// `origin`, default (0,0,0).
    pub origin: Vec3,
    /// `scale`, default (1,1,1).
    pub scale: Vec3,
    /// `particle`: path of the child definition.
    pub particle: Option<String>,
}

/// What a value of [`ChildSystem`] holds.
pub struct ChildSystemView {
    /// `type`, default `"static"`.
    pub kind: Seq<char>,
    /// `name`, default empty.
    pub name: Seq<char>,
    /// `maxcount`, default 20.
    pub maxcount: u32,
    /// `controlpointstartindex`, default 0.
    pub controlpointstartindex: i64,
    /// `probability`, default 1.
    pub probability: ScalarView,
    /// `angles`, default (0,0,0).
    pub angles: Seq<ScalarView>,
    /// `origin`, default (0,0,0).
    pub origin: Seq<ScalarView>,
    /// `scale`, default (1,1,1).
    pub scale: Seq<ScalarView>,
    /// `particle`: path of the child definition.
    pub particle: Option<Seq<char>>,
}

impl View for ChildSystem {
    type V = ChildSystemView;

    open spec fn view(&self) -> ChildSystemView {
        ChildSystemView {
            kind: self.kind@,
            name: self.name@,
            maxcount: self.maxcount,
            controlpointstartindex: self.controlpointstartindex,
            probability: self.probability@,
            angles: crate::number::scalars(self.angles@),
            origin: crate::number::scalars(self.origin@),
            scale: crate::number::scalars(self.scale@),
            particle: crate::fields::opt_text(self.particle),
        }
    }
}

/// The child system that an object spells.
pub open spec fn child_of(o: Seq<(Seq<char>, JsonView)>) -> ChildSystemView {
    ChildSystemView {
        kind: crate::fields::value_or(crate::fields::text_at(o, "type"@), "static"@),
        name: crate::fields::value_or(crate::fields::text_at(o, "name"@), ""@),
        maxcount: crate::fields::value_or(crate::fields::unsigned_at(o, "maxcount"@), 20),
        controlpointstartindex: crate::fields::value_or(crate::fields::int_at(o, "controlpointstartindex"@), 0),
        probability: crate::fields::value_or(crate::fields::scalar_at(o, "probability"@), ScalarView::Whole(1)),
        angles: bvec3_of(crate::json::member(o, "angles"@), seq![ScalarView::Whole(0), ScalarView::Whole(0), ScalarView::Whole(0)]),
        origin: bvec3_of(crate::json::member(o, "origin"@), seq![ScalarView::Whole(0), ScalarView::Whole(0), ScalarView::Whole(0)]),
        scale: bvec3_of(crate::json::member(o, "scale"@), seq![ScalarView::Whole(1), ScalarView::Whole(1), ScalarView::Whole(1)]),
        particle: crate::fields::text_at(o, "particle"@),
    }
}

impl ChildSystem {
    /// Parse one child system object.
    pub fn parse(obj: &Members) -> (r: ChildSystem)
        ensures
            r@ == child_of(obj@),
    {
        let angles_default = [zero(), zero(), zero()];
        assert(crate::number::scalars(angles_default@) =~= seq![ScalarView::Whole(0), ScalarView::Whole(0), ScalarView::Whole(0)]);
        let origin_default = [zero(), zero(), zero()];
        assert(crate::number::scalars(origin_default@) =~= seq![ScalarView::Whole(0), ScalarView::Whole(0), ScalarView::Whole(0)]);
        let scale_default = [one(), one(), one()];
        assert(crate::number::scalars(scale_default@) =~= seq![ScalarView::Whole(1), ScalarView::Whole(1), ScalarView::Whole(1)]);
        ChildSystem {
            kind: text_or(obj, "type", "static"),
            name: text_or(obj, "name", ""),
            maxcount: unsigned_or(obj, "maxcount", 20),
            controlpointstartindex: int_or(obj, "controlpointstartindex", 0),
            probability: scalar_or(obj, "probability", one()),
            angles: parse_bvec3(obj.get("angles"), angles_default),
            origin: parse_bvec3(obj.get("origin"), origin_default),
            scale: parse_bvec3(obj.get("scale"), scale_default),
            particle: text_field(obj, "particle"),
        }
    }
}

/// Parse the objects of a list as values of [`ChildSystem`].
fn parse_childsystem_list(value: Option<&Json>) -> (out: Vec<ChildSystem>)
    ensures
        out@.len() == crate::fields::objects_of(crate::json::shown(value)).len(),
        forall|k: int|
            0 <= k < out@.len() ==> (#[trigger] out@[k])@ == child_of(
                crate::fields::objects_of(crate::json::shown(value))[k],
            ),
{
    let list = objects(value);
    let ghost all = crate::fields::members_of(list@);
    let mut out: Vec<ChildSystem> = Vec::new();
    let mut i: usize = 0;
    while i < list.len()
        invariant
            i <= list@.len(),
            all == crate::fields::members_of(list@),
            out@.len() == i,
            forall|k: int| 0 <= k < i ==> (#[trigger] out@[k])@ == child_of(all[k]),
        decreases list@.len() - i,
    {
        assert(all[i as int] == list@[i as int]@);
        out.push(ChildSystem::parse(list[i]));
        i = i + 1;
    }
    assert(all.len() == list@.len());
    out
}

/// What a scene object changes of its particle system.
#[derive(Debug)]
pub struct InstanceOverride {
    /// `enabled`, default true.
    pub enabled: UserSetting<bool>,
    /// `alpha` multiplier, default 1.
    pub alpha: UserSetting<Scalar>,
    /// `size` multiplier, default 1.
    pub size: UserSetting<Scalar>,
    /// `lifetime` multiplier, default 1.
    pub lifetime: UserSetting<Scalar>,
    /// `rate` multiplier, default 1.
    pub rate: UserSetting<Scalar>,
    /// `speed` multiplier, default 1.
    pub speed: UserSetting<Scalar>,
    /// `count` multiplier, default 1.
    pub count: UserSetting<Scalar>,
    /// `color` in place of the particle color, default (1,1,1).
    pub color: UserSetting<Vec3>,
    /// `colorn` times the particle color, default (1,1,1).
    pub colorn: UserSetting<Vec3>,
}

/// What a value of [`InstanceOverride`] holds.
pub struct InstanceOverrideView {
    /// `enabled`, default true.
    pub enabled: SettingView<bool>,
    /// `alpha` multiplier, default 1.
    pub alpha: SettingView<ScalarView>,
    /// `size` multiplier, default 1.
    pub size: SettingView<ScalarView>,
    /// `lifetime` multiplier, default 1.
    pub lifetime: SettingView<ScalarView>,
    /// `rate` multiplier, default 1.
    pub rate: SettingView<ScalarView>,
    /// `speed` multiplier, default 1.
    pub speed: SettingView<ScalarView>,
    /// `count` multiplier, default 1.
    pub count: SettingView<ScalarView>,
    /// `color` in place of the particle color, default (1,1,1).
    pub color: SettingView<Seq<ScalarView>>,
    /// `colorn` times the particle color, default (1,1,1).
    pub colorn: SettingView<Seq<ScalarView>>,
}

impl View for InstanceOverride {
    type V = InstanceOverrideView;

    open spec fn view(&self) -> InstanceOverrideView {
        InstanceOverrideView {
            enabled: crate::user::setting(self.enabled),
            alpha: crate::user::setting(self.alpha),
            size: crate::user::setting(self.size),
            lifetime: crate::user::setting(self.lifetime),
            rate: crate::user::setting(self.rate),
            speed: crate::user::setting(self.speed),
            count: crate::user::setting(self.count),
            color: crate::user::setting(self.color),
            colorn: crate::user::setting(self.colorn),
        }
    }
}

/// The override that an object spells.
pub open spec fn override_of(o: Seq<(Seq<char>, JsonView)>) -> InstanceOverrideView {
    InstanceOverrideView {
        enabled: crate::user::bool_setting(o, "enabled"@, true),
        alpha: crate::user::scalar_setting(o, "alpha"@, ScalarView::Whole(1)),
        size: crate::user::scalar_setting(o, "size"@, ScalarView::Whole(1)),
        lifetime: crate::user::scalar_setting(o, "lifetime"@, ScalarView::Whole(1)),
        rate: crate::user::scalar_setting(o, "rate"@, ScalarView::Whole(1)),
        speed: crate::user::scalar_setting(o, "speed"@, ScalarView::Whole(1)),
        count: crate::user::scalar_setting(o, "count"@, ScalarView::Whole(1)),
        color: crate::user::vec3_setting(o, "color"@, seq![ScalarView::Whole(1), ScalarView::Whole(1), ScalarView::Whole(1)]),
        colorn: crate::user::vec3_setting(o, "colorn"@, seq![ScalarView::Whole(1), ScalarView::Whole(1), ScalarView::Whole(1)]),
    }
}

/// The override of an object that gives none.
pub open spec fn no_override() -> InstanceOverrideView {
    let ones = seq![ScalarView::Whole(1), ScalarView::Whole(1), ScalarView::Whole(1)];
    InstanceOverrideView {
        enabled: crate::user::plain(true),
        alpha: crate::user::plain(ScalarView::Whole(1)),
        size: crate::user::plain(ScalarView::Whole(1)),
        lifetime: crate::user::plain(ScalarView::Whole(1)),
        rate: crate::user::plain(ScalarView::Whole(1)),
        speed: crate::user::plain(ScalarView::Whole(1)),
        count: crate::user::plain(ScalarView::Whole(1)),
        color: crate::user::plain(ones),
        colorn: crate::user::plain(ones),
    }
}

/// An override object without members changes nothing.
pub proof fn law_empty_override_is_default()
    ensures
        override_of(Seq::empty()) == no_override(),
{
}

impl Default for InstanceOverride {
    fn default() -> (r: InstanceOverride)
        ensures
            r@ == no_override(),
    {
        let color = [one(), one(), one()];
        let colorn = [one(), one(), one()];
        assert(crate::number::scalars(color@) =~= no_override().color.value);
        assert(crate::number::scalars(colorn@) =~= no_override().colorn.value);
        InstanceOverride {
            enabled: UserSetting::literal(true),
            alpha: UserSetting::literal(one()),
            size: UserSetting::literal(one()),
            lifetime: UserSetting::literal(one()),
            rate: UserSetting::literal(one()),
            speed: UserSetting::literal(one()),
            count: UserSetting::literal(one()),
            color: UserSetting::literal(color),
            colorn: UserSetting::literal(colorn),
        }
    }
}

impl InstanceOverride {
    /// Parse an `instanceoverride` object.
    pub fn parse(obj: &Members) -> (r: InstanceOverride)
        ensures
            r@ == override_of(obj@),
    {
        let color_default = [one(), one(), one()];
        assert(crate::number::scalars(color_default@) =~= seq![ScalarView::Whole(1), ScalarView::Whole(1), ScalarView::Whole(1)]);
        let colorn_default = [one(), one(), one()];
        assert(crate::number::scalars(colorn_default@) =~= seq![ScalarView::Whole(1), ScalarView::Whole(1), ScalarView::Whole(1)]);
        InstanceOverride {
            enabled: user_bool(obj, "enabled", true),
            alpha: user_f32(obj, "alpha", one()),
            size: user_f32(obj, "size", one()),
            lifetime: user_f32(obj, "lifetime", one()),
            rate: user_f32(obj, "rate", one()),
            speed: user_f32(obj, "speed", one()),
            count: user_f32(obj, "count", one()),
            color: user_vec3(obj, "color", color_default),
            colorn: user_vec3(obj, "colorn", colorn_default),
        }
    }
}

/// A particle system definition.
#[derive(Debug)]
pub struct ParticleSystem {
    /// `material` path, if any.
    pub material: Option<String>,
    /// The loaded material.
    pub resolved_material: Option<Material>,
    /// `animationmode`, default `"sequence"`.
    pub animationmode: String,
    /// `sequencemultiplier`, default 1.
    pub sequencemultiplier: Scalar,
    /// `maxcount`, default 100.
    pub maxcount: u32,
    /// `starttime`, default 0.
    pub starttime: u32,
    /// `flags`, default 0.
    pub flags: u32,
    /// `emitter` entries.
    pub emitters: Vec<Emitter>,
    /// `initializer` entries.
    pub initializers: Vec<NamedStage>,
    /// `operator` entries.
    pub operators: Vec<NamedStage>,
    /// `renderer` entries, a default sprite renderer when there are none.
    pub renderers: Vec<Renderer>,
    /// `controlpoint` entries.
    pub controlpoints: Vec<ControlPoint>,
    /// `children` entries.
    pub children: Vec<ChildSystem>,
}

/// What a value of [`ParticleSystem`] holds.
pub struct ParticleSystemView {
    /// Material path.
    pub material: Option<Seq<char>>,
    /// The passes of the loaded material.
    pub resolved_material: Option<Seq<crate::material::PassView>>,
    /// Animation mode.
    pub animationmode: Seq<char>,
    /// Sequence multiplier.
    pub sequencemultiplier: ScalarView,
    /// Maximum particle count.
    pub maxcount: u32,
    /// Start time.
    pub starttime: u32,
    /// Flags.
    pub flags: u32,
    /// Emitters.
    pub emitters: Seq<EmitterView>,
    /// Initializers.
    pub initializers: Seq<NamedStageView>,
    /// Operators.
    pub operators: Seq<NamedStageView>,
    /// Renderers.
    pub renderers: Seq<RendererView>,
    /// Control points.
    pub controlpoints: Seq<ControlPointView>,
    /// Child systems.
    pub children: Seq<ChildSystemView>,
}

impl View for ParticleSystem {
    type V = ParticleSystemView;

    open spec fn view(&self) -> ParticleSystemView {
        ParticleSystemView {
            material: crate::fields::opt_text(self.material),
            resolved_material: crate::material::opt_material(self.resolved_material),
            animationmode: self.animationmode@,
            sequencemultiplier: self.sequencemultiplier@,
            maxcount: self.maxcount,
            starttime: self.starttime,
            flags: self.flags,
            emitters: self.emitters@.map_values(|e: Emitter| e@),
            initializers: self.initializers@.map_values(|s: NamedStage| s@),
            operators: self.operators@.map_values(|s: NamedStage| s@),
            renderers: self.renderers@.map_values(|r: Renderer| r@),
            controlpoints: self.controlpoints@.map_values(|c: ControlPoint| c@),
            children: self.children@.map_values(|c: ChildSystem| c@),
        }
    }
}

/// The objects of the array under `key`.
pub open spec fn list_at(o: Seq<(Seq<char>, JsonView)>, key: Seq<char>) -> Seq<
    Seq<(Seq<char>, JsonView)>,
> {
    crate::fields::objects_of(crate::json::member(o, key))
}

/// The renderers that a list of objects spells: never none.
pub open spec fn renderers_of(o: Seq<Seq<(Seq<char>, JsonView)>>) -> Seq<RendererView> {
    if o.len() == 0 {
        seq![sprite_view()]
    } else {
        o.map_values(|r: Seq<(Seq<char>, JsonView)>| renderer_of(r))
    }
}

/// The particle system that a value spells.
pub open spec fn particle_system_of(v: JsonView) -> ParticleSystemView {
    let o = crate::material::members_or_none(v);
    ParticleSystemView {
        material: crate::fields::text_at(o, "material"@),
        resolved_material: None,
        animationmode: crate::fields::value_or(
            crate::fields::text_at(o, "animationmode"@),
            "sequence"@,
        ),
        sequencemultiplier: crate::fields::value_or(
            crate::fields::scalar_at(o, "sequencemultiplier"@),
            ScalarView::Whole(1),
        ),
        maxcount: crate::fields::value_or(crate::fields::unsigned_at(o, "maxcount"@), 100),
        starttime: crate::fields::value_or(crate::fields::unsigned_at(o, "starttime"@), 0),
        flags: crate::fields::value_or(crate::fields::unsigned_at(o, "flags"@), 0),
        emitters: list_at(o, "emitter"@).map_values(
            |e: Seq<(Seq<char>, JsonView)>| emitter_of(e),
        ),
        initializers: list_at(o, "initializer"@).map_values(
            |s: Seq<(Seq<char>, JsonView)>| stage_of(s),
        ),
        operators: list_at(o, "operator"@).map_values(
            |s: Seq<(Seq<char>, JsonView)>| stage_of(s),
        ),
        renderers: renderers_of(list_at(o, "renderer"@)),
        controlpoints: list_at(o, "controlpoint"@).map_values(
            |c: Seq<(Seq<char>, JsonView)>| control_point_of(c),
        ),
        children: list_at(o, "children"@).map_values(
            |c: Seq<(Seq<char>, JsonView)>| child_of(c),
        ),
    }
}

/// The system of an object that has none: nothing in it.
pub open spec fn no_system() -> ParticleSystemView {
    ParticleSystemView {
        material: None,
        resolved_material: None,
        animationmode: ""@,
        sequencemultiplier: ScalarView::Whole(0),
        maxcount: 0,
        starttime: 0,
        flags: 0,
        emitters: Seq::empty(),
        initializers: Seq::empty(),
        operators: Seq::empty(),
        renderers: Seq::empty(),
        controlpoints: Seq::empty(),
        children: Seq::empty(),
    }
}

impl Default for ParticleSystem {
    fn default() -> (r: ParticleSystem)
        ensures
            r.wf(),
            r@ == no_system(),
    {
        let r = ParticleSystem {
            material: None,
            resolved_material: None,
            animationmode: "".to_owned(),
            sequencemultiplier: zero(),
            maxcount: 0,
            starttime: 0,
            flags: 0,
            emitters: Vec::new(),
            initializers: Vec::new(),
            operators: Vec::new(),
            renderers: Vec::new(),
            controlpoints: Vec::new(),
            children: Vec::new(),
        };
        assert(r@.emitters =~= no_system().emitters);
        assert(r@.initializers =~= no_system().initializers);
        assert(r@.operators =~= no_system().operators);
        assert(r@.renderers =~= no_system().renderers);
        assert(r@.controlpoints =~= no_system().controlpoints);
        assert(r@.children =~= no_system().children);
        r
    }
}

impl ParticleSystem {
    /// The stages and the loaded material are well formed.
    pub open spec fn wf(&self) -> bool {
        &&& stages_wf(self.initializers@)
        &&& stages_wf(self.operators@)
        &&& crate::material::opt_material_wf(self.resolved_material)
    }

    /// Parse a particle definition. Note the singular names of its arrays.
    pub fn from_value(value: &Json) -> (r: ParticleSystem)
        ensures
            r.wf(),
            r@ == particle_system_of(value@),
    {
        let none = Members::new();
        let obj = match value {
            Json::Object(o) => {
                proof {
                    crate::json::lemma_object_view(*o);
                }
                o
            },
            _ => &none,
        };
        assert(obj@ == crate::material::members_or_none(value@));
        let mut renderers = parse_renderer_list(obj.get("renderer"));
        if renderers.len() == 0 {
            renderers.push(Renderer::default_sprite());
        }
        let r = ParticleSystem {
            material: text_field(obj, "material"),
            resolved_material: None,
            animationmode: text_or(obj, "animationmode", "sequence"),
            sequencemultiplier: scalar_or(obj, "sequencemultiplier", one()),
            maxcount: unsigned_or(obj, "maxcount", 100),
            starttime: unsigned_or(obj, "starttime", 0),
            flags: unsigned_or(obj, "flags", 0),
            emitters: parse_emitter_list(obj.get("emitter")),
            initializers: parse_stage_list(obj.get("initializer")),
            operators: parse_stage_list(obj.get("operator")),
            renderers,
            controlpoints: parse_controlpoint_list(obj.get("controlpoint")),
            children: parse_childsystem_list(obj.get("children")),
        };
        proof {
            let s = particle_system_of(value@);
            assert(r@.emitters =~= s.emitters);
            assert(r@.initializers =~= s.initializers);
            assert(r@.operators =~= s.operators);
            assert(r@.renderers =~= s.renderers);
            assert(r@.controlpoints =~= s.controlpoints);
            assert(r@.children =~= s.children);
        }
        r
    }
}

} // verus!
