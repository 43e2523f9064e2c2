//! What holds of every file that is parsed: `null` counts as absent, entries of
//! the wrong kind are passed over, and each field comes from its own member.
use vstd::prelude::*;

use crate::json::JsonView;
use crate::number::ScalarView;
use crate::object::ObjectKindView;
use crate::user::{SettingView, UserRefView};

verus! {

/// A member that counts: not `null`.
pub open spec fn filled(v: Option<JsonView>) -> Option<JsonView> {
    match v {
        Some(JsonView::Null) => None,
        _ => v,
    }
}

/// Two objects with the same members, those that are `null` not counted.
pub open spec fn alike(a: Seq<(Seq<char>, JsonView)>, b: Seq<(Seq<char>, JsonView)>) -> bool {
    forall|key: Seq<char>| #[trigger] alike_at(a, b, key)
}

/// Two objects with the same member of a name, if it is not `null`.
pub open spec fn alike_at(a: Seq<(Seq<char>, JsonView)>, b: Seq<(Seq<char>, JsonView)>, key: Seq<char>) -> bool {
    filled(crate::json::member(a, key)) == filled(crate::json::member(b, key))
}

/// Every way to read a member takes `null` as absent.
proof fn lemma_reads_alike(a: Seq<(Seq<char>, JsonView)>, b: Seq<(Seq<char>, JsonView)>, key: Seq<char>)
    requires
        alike(a, b),
    ensures
        crate::fields::text_at(a, key) == crate::fields::text_at(b, key),
        crate::fields::int_at(a, key) == crate::fields::int_at(b, key),
        crate::fields::flag_at(a, key) == crate::fields::flag_at(b, key),
        crate::fields::scalar_at(a, key) == crate::fields::scalar_at(b, key),
        crate::fields::unsigned_at(a, key) == crate::fields::unsigned_at(b, key),
        crate::json::elements(crate::json::member(a, key)) == crate::json::elements(
            crate::json::member(b, key),
        ),
        crate::json::object_of(crate::json::member(a, key)) == crate::json::object_of(
            crate::json::member(b, key),
        ),
        crate::object::is_present(a, key) == crate::object::is_present(b, key),
        crate::object::is_present(a, key) ==> crate::json::member(a, key) == crate::json::member(
            b,
            key,
        ),
{
    assert(alike_at(a, b, key));
}

/// Every setting takes `null` as absent.
proof fn lemma_settings_alike(a: Seq<(Seq<char>, JsonView)>, b: Seq<(Seq<char>, JsonView)>, key: Seq<char>)
    requires
        alike(a, b),
    ensures
        forall|d: bool| #[trigger]
            crate::user::bool_setting(a, key, d) == crate::user::bool_setting(b, key, d),
        forall|d: i64| #[trigger]
            crate::user::int_setting(a, key, d) == crate::user::int_setting(b, key, d),
        forall|d: ScalarView| #[trigger]
            crate::user::scalar_setting(a, key, d) == crate::user::scalar_setting(b, key, d),
        forall|d: Seq<char>| #[trigger]
            crate::user::text_setting(a, key, d) == crate::user::text_setting(b, key, d),
        forall|d: Seq<ScalarView>| #[trigger]
            crate::user::vec2_setting(a, key, d) == crate::user::vec2_setting(b, key, d),
        forall|d: Seq<ScalarView>| #[trigger]
            crate::user::vec3_setting(a, key, d) == crate::user::vec3_setting(b, key, d),
        forall|d: Seq<ScalarView>| #[trigger]
            crate::user::color_setting(a, key, d) == crate::user::color_setting(b, key, d),
{
    assert(alike_at(a, b, key));
}

/// Every collection takes `null` as absent.
proof fn lemma_collections_alike(a: Seq<(Seq<char>, JsonView)>, b: Seq<(Seq<char>, JsonView)>, key: Seq<char>)
    requires
        alike(a, b),
    ensures
        crate::material::combos_of(crate::json::member(a, key)) == crate::material::combos_of(
            crate::json::member(b, key),
        ),
        crate::material::slots_of(crate::json::member(a, key)) == crate::material::slots_of(
            crate::json::member(b, key),
        ),
        crate::user::constant_map(crate::json::member(a, key)) == crate::user::constant_map(
            crate::json::member(b, key),
        ),
        crate::particle::ivec3_of(crate::json::member(a, key)) == crate::particle::ivec3_of(
            crate::json::member(b, key),
        ),
        forall|d: Seq<ScalarView>| #[trigger]
            crate::particle::bvec3_of(crate::json::member(a, key), d) == crate::particle::bvec3_of(
                crate::json::member(b, key),
                d,
            ),
        forall|d: Seq<ScalarView>| #[trigger]
            crate::particle::bvec2_of(crate::json::member(a, key), d) == crate::particle::bvec2_of(
                crate::json::member(b, key),
                d,
            ),
{
    assert(alike_at(a, b, key));
}

/// Of the fields that every object has, `null` counts as absent.
pub proof fn law_null_base_field_is_absent(a: Seq<(Seq<char>, JsonView)>, b: Seq<(Seq<char>, JsonView)>)
    requires
        alike(a, b),
    ensures
        crate::object::base_of(a) == crate::object::base_of(b),
{
    lemma_reads_alike(a, b, "id"@);
    lemma_reads_alike(a, b, "name"@);
    lemma_reads_alike(a, b, "sortorder"@);
    lemma_reads_alike(a, b, "dependencies"@);
    lemma_reads_alike(a, b, "parent"@);
    lemma_reads_alike(a, b, "angles"@);
    lemma_settings_alike(a, b, "origin"@);
    lemma_settings_alike(a, b, "scale"@);
    lemma_settings_alike(a, b, "angles"@);
    lemma_settings_alike(a, b, "visible"@);
    assert(alike_at(a, b, "name"@));
}

/// Of the fields of an image, `null` counts as absent.
pub proof fn law_null_image_field_is_absent(a: Seq<(Seq<char>, JsonView)>, b: Seq<(Seq<char>, JsonView)>)
    requires
        alike(a, b),
    ensures
        crate::object::image_of(a) == crate::object::image_of(b),
{
    lemma_reads_alike(a, b, "image"@);
    lemma_reads_alike(a, b, "effects"@);
    lemma_reads_alike(a, b, "animationlayers"@);
    lemma_reads_alike(a, b, "instance"@);
    lemma_reads_alike(a, b, "horizontalalign"@);
    lemma_reads_alike(a, b, "alignment"@);
    lemma_settings_alike(a, b, "scale"@);
    lemma_settings_alike(a, b, "angles"@);
    lemma_settings_alike(a, b, "visible"@);
    lemma_settings_alike(a, b, "alpha"@);
    lemma_settings_alike(a, b, "color"@);
    lemma_settings_alike(a, b, "size"@);
    lemma_settings_alike(a, b, "parallaxDepth"@);
    lemma_settings_alike(a, b, "colorBlendMode"@);
    lemma_settings_alike(a, b, "brightness"@);
}

/// Of the fields of a text, `null` counts as absent.
pub proof fn law_null_text_field_is_absent(a: Seq<(Seq<char>, JsonView)>, b: Seq<(Seq<char>, JsonView)>)
    requires
        alike(a, b),
    ensures
        crate::object::text_object_of(a) == crate::object::text_object_of(b),
{
    lemma_reads_alike(a, b, "font"@);
    lemma_reads_alike(a, b, "verticalalign"@);
    lemma_reads_alike(a, b, "padding"@);
    lemma_reads_alike(a, b, "horizontalalign"@);
    lemma_reads_alike(a, b, "alignment"@);
    lemma_settings_alike(a, b, "text"@);
    lemma_settings_alike(a, b, "pointsize"@);
    lemma_settings_alike(a, b, "size"@);
    lemma_settings_alike(a, b, "scale"@);
    lemma_settings_alike(a, b, "color"@);
    lemma_settings_alike(a, b, "alpha"@);
    lemma_settings_alike(a, b, "visible"@);
}

/// Of the fields of a particle object, `null` counts as absent.
pub proof fn law_null_particle_field_is_absent(a: Seq<(Seq<char>, JsonView)>, b: Seq<(Seq<char>, JsonView)>)
    requires
        alike(a, b),
    ensures
        crate::object::particle_object_of(a) == crate::object::particle_object_of(b),
{
    lemma_reads_alike(a, b, "particle"@);
    lemma_reads_alike(a, b, "instanceoverride"@);
    lemma_settings_alike(a, b, "scale"@);
    lemma_settings_alike(a, b, "angles"@);
    lemma_settings_alike(a, b, "visible"@);
    lemma_settings_alike(a, b, "parallaxDepth"@);
    assert(alike_at(a, b, "particle"@));
}

/// `null` counts as absent in the choice of what an object is, and in all that
/// follows from it. Lights and shapes keep their members as they are written.
pub proof fn law_null_member_is_absent(a: Seq<(Seq<char>, JsonView)>, b: Seq<(Seq<char>, JsonView)>)
    requires
        alike(a, b),
    ensures
        crate::object::base_of(a) == crate::object::base_of(b),
        match crate::object::kind_of(a) {
            ObjectKindView::Light(_) => crate::object::kind_of(b) is Light,
            ObjectKindView::Shape(_) => crate::object::kind_of(b) is Shape,
            kind => crate::object::kind_of(b) == kind,
        },
{
    law_null_base_field_is_absent(a, b);
    law_null_image_field_is_absent(a, b);
    law_null_text_field_is_absent(a, b);
    law_null_particle_field_is_absent(a, b);
    lemma_reads_alike(a, b, "image"@);
    lemma_reads_alike(a, b, "sound"@);
    lemma_reads_alike(a, b, "playbackmode"@);
    lemma_reads_alike(a, b, "particle"@);
    lemma_reads_alike(a, b, "text"@);
    lemma_reads_alike(a, b, "model"@);
    lemma_reads_alike(a, b, "light"@);
    lemma_reads_alike(a, b, "shape"@);
    assert(alike_at(a, b, "sound"@));
}

/// Of the fields of an effect on an image, `null` counts as absent.
pub proof fn law_null_effect_field_is_absent(a: Seq<(Seq<char>, JsonView)>, b: Seq<(Seq<char>, JsonView)>)
    requires
        alike(a, b),
    ensures
        crate::object::effect_of(a) == crate::object::effect_of(b),
{
    lemma_reads_alike(a, b, "file"@);
    lemma_reads_alike(a, b, "id"@);
    lemma_reads_alike(a, b, "name"@);
    lemma_reads_alike(a, b, "passes"@);
    lemma_settings_alike(a, b, "visible"@);
}

/// Of the fields of a material pass, `null` counts as absent.
pub proof fn law_null_pass_field_is_absent(a: Seq<(Seq<char>, JsonView)>, b: Seq<(Seq<char>, JsonView)>)
    requires
        alike(a, b),
    ensures
        crate::material::pass_of(a) == crate::material::pass_of(b),
{
    lemma_reads_alike(a, b, "blending"@);
    lemma_reads_alike(a, b, "cullmode"@);
    lemma_reads_alike(a, b, "depthtest"@);
    lemma_reads_alike(a, b, "depthwrite"@);
    lemma_reads_alike(a, b, "shader"@);
    lemma_collections_alike(a, b, "textures"@);
    lemma_collections_alike(a, b, "usertextures"@);
    lemma_collections_alike(a, b, "combos"@);
    lemma_collections_alike(a, b, "constantshadervalues"@);
}

/// Of the fields of a model file, `null` counts as absent.
pub proof fn law_null_model_file_field_is_absent(a: Seq<(Seq<char>, JsonView)>, b: Seq<(Seq<char>, JsonView)>)
    requires
        alike(a, b),
    ensures
        crate::material::model_file_of(JsonView::Object(a)) == crate::material::model_file_of(
            JsonView::Object(b),
        ),
{
    lemma_reads_alike(a, b, "material"@);
    lemma_reads_alike(a, b, "solidlayer"@);
    lemma_reads_alike(a, b, "fullscreen"@);
    lemma_reads_alike(a, b, "passthrough"@);
    lemma_reads_alike(a, b, "autosize"@);
    lemma_reads_alike(a, b, "nopadding"@);
    lemma_reads_alike(a, b, "width"@);
    lemma_reads_alike(a, b, "height"@);
    lemma_reads_alike(a, b, "puppet"@);
}

/// Of the fields of an effect file, `null` counts as absent.
pub proof fn law_null_effect_file_field_is_absent(a: Seq<(Seq<char>, JsonView)>, b: Seq<(Seq<char>, JsonView)>)
    requires
        alike(a, b),
    ensures
        crate::material::effect_file_of(JsonView::Object(a)) == crate::material::effect_file_of(
            JsonView::Object(b),
        ),
{
    lemma_reads_alike(a, b, "name"@);
    lemma_reads_alike(a, b, "description"@);
    lemma_reads_alike(a, b, "group"@);
    lemma_reads_alike(a, b, "preview"@);
    lemma_reads_alike(a, b, "dependencies"@);
    lemma_reads_alike(a, b, "passes"@);
    lemma_reads_alike(a, b, "fbos"@);
}

/// Of the fields of a pass of an effect file, `null` counts as absent.
pub proof fn law_null_effect_pass_field_is_absent(a: Seq<(Seq<char>, JsonView)>, b: Seq<(Seq<char>, JsonView)>)
    requires
        alike(a, b),
    ensures
        crate::material::effect_pass_of(a) == crate::material::effect_pass_of(b),
{
    lemma_reads_alike(a, b, "material"@);
    lemma_reads_alike(a, b, "bind"@);
    lemma_reads_alike(a, b, "command"@);
    lemma_reads_alike(a, b, "source"@);
    lemma_reads_alike(a, b, "target"@);
}

/// Of the fields of an emitter, `null` counts as absent.
pub proof fn law_null_emitter_field_is_absent(a: Seq<(Seq<char>, JsonView)>, b: Seq<(Seq<char>, JsonView)>)
    requires
        alike(a, b),
    ensures
        crate::particle::emitter_of(a) == crate::particle::emitter_of(b),
{
    lemma_reads_alike(a, b, "id"@);
    lemma_reads_alike(a, b, "name"@);
    lemma_reads_alike(a, b, "instantaneous"@);
    lemma_reads_alike(a, b, "speedmin"@);
    lemma_reads_alike(a, b, "speedmax"@);
    lemma_reads_alike(a, b, "rate"@);
    lemma_reads_alike(a, b, "controlpoint"@);
    lemma_reads_alike(a, b, "flags"@);
    lemma_reads_alike(a, b, "cone"@);
    lemma_reads_alike(a, b, "delay"@);
    lemma_reads_alike(a, b, "duration"@);
    lemma_reads_alike(a, b, "audioprocessingexponent"@);
    lemma_reads_alike(a, b, "audioprocessingfrequencystart"@);
    lemma_reads_alike(a, b, "audioprocessingfrequencyend"@);
    lemma_reads_alike(a, b, "audioprocessingmode"@);
    lemma_reads_alike(a, b, "minperiodicdelay"@);
    lemma_reads_alike(a, b, "maxperiodicdelay"@);
    lemma_reads_alike(a, b, "minperiodicduration"@);
    lemma_reads_alike(a, b, "maxperiodicduration"@);
    lemma_collections_alike(a, b, "directions"@);
    lemma_collections_alike(a, b, "distancemin"@);
    lemma_collections_alike(a, b, "distancemax"@);
    lemma_collections_alike(a, b, "origin"@);
    lemma_collections_alike(a, b, "sign"@);
    lemma_collections_alike(a, b, "audioprocessingbounds"@);
}

/// Of the fields of a particle system, `null` counts as absent.
pub proof fn law_null_system_field_is_absent(a: Seq<(Seq<char>, JsonView)>, b: Seq<(Seq<char>, JsonView)>)
    requires
        alike(a, b),
    ensures
        crate::particle::particle_system_of(JsonView::Object(a)) == crate::particle::particle_system_of(
            JsonView::Object(b),
        ),
{
    lemma_reads_alike(a, b, "material"@);
    lemma_reads_alike(a, b, "animationmode"@);
    lemma_reads_alike(a, b, "sequencemultiplier"@);
    lemma_reads_alike(a, b, "maxcount"@);
    lemma_reads_alike(a, b, "starttime"@);
    lemma_reads_alike(a, b, "flags"@);
    lemma_reads_alike(a, b, "emitter"@);
    lemma_reads_alike(a, b, "initializer"@);
    lemma_reads_alike(a, b, "operator"@);
    lemma_reads_alike(a, b, "renderer"@);
    lemma_reads_alike(a, b, "controlpoint"@);
    lemma_reads_alike(a, b, "children"@);
}

/// An entry of a list that is of the wrong kind is passed over: it changes
/// nothing in what the list gives.
pub proof fn law_malformed_entry_is_skipped(a: Seq<JsonView>, i: int, x: JsonView)
    requires
        0 <= i <= a.len(),
    ensures
        x !is Object ==> crate::fields::objects_among(a.insert(i, x)) == crate::fields::objects_among(
            a,
        ),
        x !is String ==> crate::fields::texts_among(a.insert(i, x)) == crate::fields::texts_among(a),
        crate::value::as_int(x) is None ==> crate::fields::ints_among(a.insert(i, x))
            == crate::fields::ints_among(a),
    decreases a.len(),
{
    let b = a.insert(i, x);
    if i == a.len() {
        assert(b.drop_last() =~= a);
    } else {
        assert(b.drop_last() =~= a.drop_last().insert(i, x));
        assert(b.last() == a.last());
        law_malformed_entry_is_skipped(a.drop_last(), i, x);
    }
}

/// The member of a name is the last one that bears it, and there is one where
/// one bears it.
pub proof fn law_last_member_counts(o: Seq<(Seq<char>, JsonView)>, key: Seq<char>)
    ensures
        (forall|i: int| 0 <= i < o.len() ==> (#[trigger] o[i]).0 != key) ==> crate::json::member(
            o,
            key,
        ) is None,
        forall|i: int|
            0 <= i < o.len() && (#[trigger] o[i]).0 == key && (forall|j: int|
                i < j < o.len() ==> (#[trigger] o[j]).0 != key) ==> crate::json::member(o, key)
                == Some(o[i].1),
    decreases o.len(),
{
    if o.len() > 0 {
        let shorter = o.drop_last();
        law_last_member_counts(shorter, key);
        assert(o.last() == o[o.len() - 1]);
        if o.last().0 != key {
            assert forall|i: int|
                0 <= i < o.len() && (#[trigger] o[i]).0 == key && (forall|j: int|
                    i < j < o.len() ==> (#[trigger] o[j]).0 != key) implies crate::json::member(
                o,
                key,
            ) == Some(o[i].1) by {
                assert(shorter[i] == o[i]);
                assert forall|j: int| i < j < shorter.len() implies (#[trigger] shorter[j]).0
                    != key by {
                    assert(shorter[j] == o[j]);
                }
            }
            if forall|i: int| 0 <= i < o.len() ==> (#[trigger] o[i]).0 != key {
                assert forall|i: int| 0 <= i < shorter.len() implies (#[trigger] shorter[i]).0
                    != key by {
                    assert(shorter[i] == o[i]);
                }
            }
        }
    }
}

/// Whether a field is what its member reads as: what `parse` makes of it, or the
/// default where the member is missing or does not parse.
pub open spec fn taken<T>(
    o: Seq<(Seq<char>, JsonView)>,
    key: Seq<char>,
    parse: spec_fn(JsonView) -> Option<T>,
    default: T,
    r: T,
) -> bool {
    &&& crate::json::member(o, key) is None ==> r == default
    &&& crate::json::member(o, key) matches Some(x) ==> parse(x) is None ==> r == default
    &&& crate::json::member(o, key) matches Some(x) ==> parse(x) matches Some(y) ==> r == y
}

/// Whether a text field is the string under its name, or the default.
pub open spec fn text_taken(
    o: Seq<(Seq<char>, JsonView)>,
    key: Seq<char>,
    default: Seq<char>,
    r: Seq<char>,
) -> bool {
    &&& !(crate::json::member(o, key) matches Some(JsonView::String(_))) ==> r == default
    &&& crate::json::member(o, key) matches Some(JsonView::String(s)) ==> r == s
}

/// Whether an optional text field is the string under its name, or missing.
pub open spec fn text_or_none(
    o: Seq<(Seq<char>, JsonView)>,
    key: Seq<char>,
    r: Option<Seq<char>>,
) -> bool {
    &&& !(crate::json::member(o, key) matches Some(JsonView::String(_))) ==> r is None
    &&& crate::json::member(o, key) matches Some(JsonView::String(s)) ==> r == Some(s)
}

/// Whether a setting is what its member spells. A literal is its value, `null`
/// and nothing are the default. An object has its literal under `value`, a
/// property under `user`, by name alone or by name and condition, and a script
/// under `script`, with the properties under `scriptproperties`.
pub open spec fn spelled<S>(
    o: Seq<(Seq<char>, JsonView)>,
    key: Seq<char>,
    parse: spec_fn(JsonView) -> Option<S>,
    default: S,
    r: SettingView<S>,
) -> bool {
    let j = crate::json::member(o, key);
    &&& !(j matches Some(JsonView::Object(_))) ==> r.user is None && r.script is None
    &&& j is None || j == Some(JsonView::Null) ==> r.value == default
    &&& j matches Some(x) ==> !(x is Object) && !(x is Null) ==> parse(x) is None ==> r.value
        == default
    &&& j matches Some(x) ==> parse(x) matches Some(y) ==> !(x is Object) && !(x is Null)
        ==> r.value == y
    &&& j matches Some(JsonView::Object(m)) ==> {
        &&& taken(m, "value"@, parse, default, r.value)
        &&& crate::json::member(m, "user"@) is None ==> r.user is None
        &&& crate::json::member(m, "user"@) matches Some(JsonView::String(n)) ==> r.user == Some(
            UserRefView::Name(n),
        )
        &&& crate::json::member(m, "user"@) matches Some(JsonView::Object(u))
            ==> crate::json::member(u, "name"@) matches Some(JsonView::String(name))
            ==> crate::json::member(u, "condition"@) matches Some(JsonView::String(condition))
            ==> r.user == Some(UserRefView::Conditional { name, condition })
        &&& crate::json::member(m, "user"@) matches Some(JsonView::Object(u))
            ==> crate::json::member(u, "name"@) is None || crate::json::member(
            u,
            "condition"@,
        ) is None ==> r.user is None
        &&& !(crate::json::member(m, "script"@) matches Some(JsonView::String(_)))
            ==> r.script is None
        &&& crate::json::member(m, "script"@) matches Some(JsonView::String(source)) ==> {
            &&& r.script is Some
            &&& r.script->0.source == source
            &&& crate::json::member(m, "scriptproperties"@) matches Some(JsonView::Object(p))
                ==> r.script->0.properties == p
            &&& !(crate::json::member(m, "scriptproperties"@) matches Some(JsonView::Object(_)))
                ==> r.script->0.properties.len() == 0
        }
    }
}

/// The members that the fields of an image come from, and what they are without.
pub proof fn law_members_of_image(o: Seq<(Seq<char>, JsonView)>)
    ensures
        text_taken(o, "image"@, ""@, crate::object::image_of(o).image),
        crate::object::image_of(o).model is None,
        crate::object::image_of(o).material is None,
        crate::object::image_of(o).size == crate::user::vec2_setting(o, "size"@, seq![ScalarView::Whole(0), ScalarView::Whole(0)]).value,
        crate::object::image_of(o).effects == crate::object::effects_among(crate::fields::objects_of(crate::json::member(o, "effects"@))),
        crate::object::image_of(o).animationlayers == crate::object::layers_among(crate::fields::objects_of(crate::json::member(o, "animationlayers"@))),
        !(crate::json::member(o, "instance"@) matches Some(JsonView::Object(_))) ==> crate::object::image_of(o).instance is None,
        crate::json::member(o, "instance"@) matches Some(JsonView::Object(i)) ==> crate::object::image_of(o).instance == Some((crate::material::slots_of(crate::json::member(i, "textures"@)), crate::material::slots_of(crate::json::member(i, "usertextures"@)))),
        crate::json::member(o, "horizontalalign"@) matches Some(JsonView::String(s)) ==> crate::object::image_of(o).alignment == s,
        !(crate::json::member(o, "horizontalalign"@) matches Some(JsonView::String(_))) ==> text_taken(o, "alignment"@, "center"@, crate::object::image_of(o).alignment),
{
}

/// The members that the settings of an image come from, and what they are
/// without.
#[verifier::rlimit(80)]
#[verifier::spinoff_prover]
pub proof fn law_settings_of_image(o: Seq<(Seq<char>, JsonView)>)
    ensures
        spelled(o, "scale"@, |j: JsonView| crate::user::vec3_value(j), seq![ScalarView::Whole(1), ScalarView::Whole(1), ScalarView::Whole(1)], crate::object::image_of(o).scale),
        spelled(o, "angles"@, |j: JsonView| crate::user::vec3_value(j), seq![ScalarView::Whole(0), ScalarView::Whole(0), ScalarView::Whole(0)], crate::object::image_of(o).angles),
        spelled(o, "visible"@, |j: JsonView| crate::value::as_flag(j), true, crate::object::image_of(o).visible),
        spelled(o, "alpha"@, |j: JsonView| crate::value::as_scalar(j), ScalarView::Whole(1), crate::object::image_of(o).alpha),
        spelled(o, "color"@, |j: JsonView| crate::user::color_value(j), seq![ScalarView::Whole(1), ScalarView::Whole(1), ScalarView::Whole(1), ScalarView::Whole(1)], crate::object::image_of(o).color),
        spelled(o, "parallaxDepth"@, |j: JsonView| crate::user::vec2_value(j), seq![ScalarView::Whole(0), ScalarView::Whole(0)], crate::object::image_of(o).parallax_depth),
        spelled(o, "colorBlendMode"@, |j: JsonView| crate::value::as_int(j), 0, crate::object::image_of(o).color_blend_mode),
        spelled(o, "brightness"@, |j: JsonView| crate::value::as_scalar(j), ScalarView::Whole(1), crate::object::image_of(o).brightness),
{
}

/// The members that the fields of a text come from, and what they are without.
#[verifier::rlimit(80)]
#[verifier::spinoff_prover]
pub proof fn law_members_of_text(o: Seq<(Seq<char>, JsonView)>)
    ensures
        spelled(o, "text"@, |j: JsonView| crate::json::text_of(Some(j)), ""@, crate::object::text_object_of(o).text),
        text_taken(o, "font"@, ""@, crate::object::text_object_of(o).font),
        spelled(o, "pointsize"@, |j: JsonView| crate::value::as_scalar(j), ScalarView::Whole(32), crate::object::text_object_of(o).pointsize),
        crate::object::text_object_of(o).size == crate::user::vec2_setting(o, "size"@, seq![ScalarView::Whole(0), ScalarView::Whole(0)]).value,
        spelled(o, "scale"@, |j: JsonView| crate::user::vec3_value(j), seq![ScalarView::Whole(1), ScalarView::Whole(1), ScalarView::Whole(1)], crate::object::text_object_of(o).scale),
        spelled(o, "color"@, |j: JsonView| crate::user::color_value(j), seq![ScalarView::Whole(1), ScalarView::Whole(1), ScalarView::Whole(1), ScalarView::Whole(1)], crate::object::text_object_of(o).color),
        spelled(o, "alpha"@, |j: JsonView| crate::value::as_scalar(j), ScalarView::Whole(1), crate::object::text_object_of(o).alpha),
        spelled(o, "visible"@, |j: JsonView| crate::value::as_flag(j), true, crate::object::text_object_of(o).visible),
        text_taken(o, "verticalalign"@, "center"@, crate::object::text_object_of(o).verticalalign),
        taken(o, "padding"@, |j: JsonView| crate::value::as_int(j), 0i64, crate::object::text_object_of(o).padding),
        crate::json::member(o, "horizontalalign"@) matches Some(JsonView::String(s)) ==> crate::object::text_object_of(o).horizontalalign == s,
        !(crate::json::member(o, "horizontalalign"@) matches Some(JsonView::String(_))) ==> text_taken(o, "alignment"@, "center"@, crate::object::text_object_of(o).horizontalalign),
{
}

/// The members that the fields of a particle object come from: a file where
/// `particle` is a string, the system itself where it is an object.
#[verifier::rlimit(80)]
#[verifier::spinoff_prover]
pub proof fn law_members_of_particle(o: Seq<(Seq<char>, JsonView)>)
    ensures
        spelled(o, "scale"@, |j: JsonView| crate::user::vec3_value(j), seq![ScalarView::Whole(1), ScalarView::Whole(1), ScalarView::Whole(1)], crate::object::particle_object_of(o).scale),
        spelled(o, "angles"@, |j: JsonView| crate::user::vec3_value(j), seq![ScalarView::Whole(0), ScalarView::Whole(0), ScalarView::Whole(0)], crate::object::particle_object_of(o).angles),
        spelled(o, "visible"@, |j: JsonView| crate::value::as_flag(j), true, crate::object::particle_object_of(o).visible),
        spelled(o, "parallaxDepth"@, |j: JsonView| crate::user::vec2_value(j), seq![ScalarView::Whole(0), ScalarView::Whole(0)], crate::object::particle_object_of(o).parallax_depth),
        text_or_none(o, "particle"@, crate::object::particle_object_of(o).particle_file),
        crate::json::member(o, "particle"@) matches Some(JsonView::Object(p)) ==> crate::object::particle_object_of(o).system == crate::particle::particle_system_of(JsonView::Object(p)),
        !(crate::json::member(o, "particle"@) matches Some(JsonView::Object(_))) ==> crate::object::particle_object_of(o).system == crate::particle::no_system(),
        crate::json::member(o, "instanceoverride"@) matches Some(JsonView::Object(p)) ==> crate::object::particle_object_of(o).instanceoverride == crate::particle::override_of(p),
        !(crate::json::member(o, "instanceoverride"@) matches Some(JsonView::Object(_))) ==> crate::object::particle_object_of(o).instanceoverride == crate::particle::override_of(Seq::empty()),
{
    crate::particle::law_empty_override_is_default();
}

/// The members that the fields of every object come from, and what they are
/// without.
#[verifier::rlimit(80)]
#[verifier::spinoff_prover]
pub proof fn law_members_of_object(o: Seq<(Seq<char>, JsonView)>)
    ensures
        taken(o, "sortorder"@, |j: JsonView| crate::value::as_int(j), 0i64, crate::object::base_of(o).sortorder),
        crate::json::member(o, "parent"@) is None ==> crate::object::base_of(o).parent is None,
        crate::json::member(o, "parent"@) matches Some(x) ==> crate::object::base_of(o).parent == crate::value::as_int(x),
        spelled(o, "origin"@, |j: JsonView| crate::user::vec3_value(j), seq![ScalarView::Whole(0), ScalarView::Whole(0), ScalarView::Whole(0)], crate::object::base_of(o).origin),
        spelled(o, "scale"@, |j: JsonView| crate::user::vec3_value(j), seq![ScalarView::Whole(1), ScalarView::Whole(1), ScalarView::Whole(1)], crate::object::base_of(o).scale),
        spelled(o, "angles"@, |j: JsonView| crate::user::vec3_value(j), seq![ScalarView::Whole(0), ScalarView::Whole(0), ScalarView::Whole(0)], crate::object::base_of(o).angles),
        spelled(o, "visible"@, |j: JsonView| crate::value::as_flag(j), true, crate::object::base_of(o).visible),
        crate::object::base_of(o).dependencies == crate::fields::ints_of(crate::json::member(o, "dependencies"@)),
        crate::json::member(o, "name"@) matches Some(JsonView::String(s)) ==> crate::object::base_of(o).name == s,
        crate::json::member(o, "name"@) matches Some(JsonView::Number(n)) ==> crate::object::base_of(o).name == crate::json::number_text(n),
        crate::json::member(o, "name"@) is None ==> crate::object::base_of(o).name == "unknown"@,
        crate::json::member(o, "id"@) is None ==> crate::object::base_of(o).id == -1,
        crate::json::member(o, "id"@) matches Some(x) ==> !(x is String) ==> taken(o, "id"@, |j: JsonView| crate::value::as_int(j), (-1) as i64, crate::object::base_of(o).id),
        crate::json::member(o, "id"@) matches Some(JsonView::String(s)) ==> crate::literal::int_lead(crate::literal::after_space(s)).len() > 0 ==> crate::object::base_of(o).id == crate::literal::read_int(s),
        crate::json::member(o, "id"@) matches Some(JsonView::String(s)) ==> crate::literal::int_lead(crate::literal::after_space(s)).len() == 0 ==> crate::object::base_of(o).id == -1,
        !(crate::json::member(o, "angles"@) matches Some(JsonView::Object(_))) ==> crate::object::base_of(o).angles_animation is None,
        crate::json::member(o, "angles"@) matches Some(JsonView::Object(a)) ==> crate::json::member(a, "animation"@) matches Some(JsonView::Object(t)) ==> crate::object::base_of(o).angles_animation == Some(crate::object::track_of(t)),
        crate::json::member(o, "angles"@) matches Some(JsonView::Object(a)) ==> !(crate::json::member(a, "animation"@) matches Some(JsonView::Object(_))) ==> crate::object::base_of(o).angles_animation is None,
{
}

/// The members that the fields of an animation track come from, and what they are
/// without.
pub proof fn law_members_of_track(o: Seq<(Seq<char>, JsonView)>)
    ensures
        crate::object::track_of(o).c0 == crate::object::keyframes_among(crate::fields::objects_of(crate::json::member(o, "c0"@))),
        crate::object::track_of(o).c1 == crate::object::keyframes_among(crate::fields::objects_of(crate::json::member(o, "c1"@))),
        crate::object::track_of(o).c2 == crate::object::keyframes_among(crate::fields::objects_of(crate::json::member(o, "c2"@))),
        taken(o, "relative"@, |j: JsonView| crate::value::as_flag(j), true, crate::object::track_of(o).relative),
        !(crate::json::member(o, "options"@) matches Some(JsonView::Object(_))) ==> crate::object::track_of(o).fps == ScalarView::Whole(30) && crate::object::track_of(o).length == ScalarView::Whole(0) && crate::object::track_of(o).mode is Loop,
        crate::json::member(o, "options"@) matches Some(JsonView::Object(p)) ==> taken(p, "fps"@, |j: JsonView| crate::value::as_scalar(j), ScalarView::Whole(30), crate::object::track_of(o).fps),
        crate::json::member(o, "options"@) matches Some(JsonView::Object(p)) ==> taken(p, "length"@, |j: JsonView| crate::value::as_scalar(j), ScalarView::Whole(0), crate::object::track_of(o).length),
        crate::json::member(o, "options"@) matches Some(JsonView::Object(p)) ==> (crate::object::track_of(o).mode is Mirror == (crate::json::member(p, "mode"@) == Some(JsonView::String("mirror"@)))),
{
}

/// An animation layer needs its `id`; the members that its other fields come
/// from, and what they are without.
pub proof fn law_members_of_layer(o: Seq<(Seq<char>, JsonView)>)
    ensures
        crate::json::member(o, "id"@) is None ==> crate::object::layer_of(o) is None,
        crate::json::member(o, "id"@) matches Some(x) ==> crate::value::as_int(x) is None ==> crate::object::layer_of(o) is None,
        crate::json::member(o, "id"@) matches Some(x) ==> crate::value::as_int(x) matches Some(id) ==> crate::object::layer_of(o) is Some && crate::object::layer_of(o)->0.id == id,
        crate::object::layer_of(o) is Some ==> spelled(o, "rate"@, |j: JsonView| crate::value::as_scalar(j), ScalarView::Whole(1), crate::object::layer_of(o)->0.rate),
        crate::object::layer_of(o) is Some ==> spelled(o, "visible"@, |j: JsonView| crate::value::as_flag(j), false, crate::object::layer_of(o)->0.visible),
        crate::object::layer_of(o) is Some ==> spelled(o, "blend"@, |j: JsonView| crate::value::as_scalar(j), ScalarView::Whole(1), crate::object::layer_of(o)->0.blend),
        crate::object::layer_of(o) is Some ==> spelled(o, "animation"@, |j: JsonView| crate::value::as_int(j), 0, crate::object::layer_of(o)->0.animation),
{
}

/// An effect needs its `file`; the members that its other fields come from, and
/// what they are without.
pub proof fn law_members_of_effect(o: Seq<(Seq<char>, JsonView)>)
    ensures
        crate::object::effect_of(o) is Some == (crate::json::member(o, "file"@) matches Some(JsonView::String(_))),
        crate::object::effect_of(o) is Some ==> (text_taken(o, "file"@, ""@, crate::object::effect_of(o)->0.file)),
        crate::object::effect_of(o) is Some ==> (taken(o, "id"@, |j: JsonView| crate::value::as_int(j), (-1) as i64, crate::object::effect_of(o)->0.id)),
        crate::object::effect_of(o) is Some ==> (text_taken(o, "name"@, "Effect without name"@, crate::object::effect_of(o)->0.name)),
        crate::object::effect_of(o) is Some ==> (spelled(o, "visible"@, |j: JsonView| crate::value::as_flag(j), true, crate::object::effect_of(o)->0.visible)),
        crate::object::effect_of(o) is Some ==> (crate::object::effect_of(o)->0.resolved is None),
        crate::object::effect_of(o) is Some ==> crate::object::effect_of(o)->0.passes.len() == crate::fields::objects_of(crate::json::member(o, "passes"@)).len(),
        crate::object::effect_of(o) is Some ==> forall|i: int| 0 <= i < crate::fields::objects_of(crate::json::member(o, "passes"@)).len() ==> #[trigger] crate::object::effect_of(o)->0.passes[i] == crate::object::pass_override_of(crate::fields::objects_of(crate::json::member(o, "passes"@))[i]),
{
}

/// The members that the fields of a pass override come from.
pub proof fn law_members_of_override(o: Seq<(Seq<char>, JsonView)>)
    ensures
        taken(o, "id"@, |j: JsonView| crate::value::as_int(j), (-1) as i64, crate::object::pass_override_of(o).id),
        crate::object::pass_override_of(o).combos == crate::material::combos_of(crate::json::member(o, "combos"@)),
        crate::object::pass_override_of(o).constantshadervalues == crate::user::constant_map(crate::json::member(o, "constantshadervalues"@)),
        crate::object::pass_override_of(o).textures == crate::material::slots_of(crate::json::member(o, "textures"@)),
        crate::object::pass_override_of(o).usertextures == crate::material::slots_of(crate::json::member(o, "usertextures"@)),
{
}

/// The members that the overrides of a particle system come from, and what they
/// are without.
#[verifier::rlimit(80)]
#[verifier::spinoff_prover]
pub proof fn law_members_of_instance(o: Seq<(Seq<char>, JsonView)>)
    ensures
        spelled(o, "enabled"@, |j: JsonView| crate::value::as_flag(j), true, crate::particle::override_of(o).enabled),
        spelled(o, "alpha"@, |j: JsonView| crate::value::as_scalar(j), ScalarView::Whole(1), crate::particle::override_of(o).alpha),
        spelled(o, "size"@, |j: JsonView| crate::value::as_scalar(j), ScalarView::Whole(1), crate::particle::override_of(o).size),
        spelled(o, "lifetime"@, |j: JsonView| crate::value::as_scalar(j), ScalarView::Whole(1), crate::particle::override_of(o).lifetime),
        spelled(o, "rate"@, |j: JsonView| crate::value::as_scalar(j), ScalarView::Whole(1), crate::particle::override_of(o).rate),
        spelled(o, "speed"@, |j: JsonView| crate::value::as_scalar(j), ScalarView::Whole(1), crate::particle::override_of(o).speed),
        spelled(o, "count"@, |j: JsonView| crate::value::as_scalar(j), ScalarView::Whole(1), crate::particle::override_of(o).count),
        spelled(o, "color"@, |j: JsonView| crate::user::vec3_value(j), seq![ScalarView::Whole(1), ScalarView::Whole(1), ScalarView::Whole(1)], crate::particle::override_of(o).color),
        spelled(o, "colorn"@, |j: JsonView| crate::user::vec3_value(j), seq![ScalarView::Whole(1), ScalarView::Whole(1), ScalarView::Whole(1)], crate::particle::override_of(o).colorn),
{
}

/// The members that the fields of a material pass come from: a mode is what its
/// word names, and what a pass is without where it names none.
pub proof fn law_members_of_pass(o: Seq<(Seq<char>, JsonView)>)
    ensures
        crate::json::member(o, "blending"@) == Some(JsonView::String("translucent"@)) ==> crate::material::pass_of(o).blending is Translucent,
        crate::json::member(o, "blending"@) == Some(JsonView::String("additive"@)) ==> crate::material::pass_of(o).blending is Additive,
        crate::json::member(o, "blending"@) != Some(JsonView::String("translucent"@)) && crate::json::member(o, "blending"@) != Some(JsonView::String("additive"@)) ==> crate::material::pass_of(o).blending is Normal,
        crate::json::member(o, "cullmode"@) == Some(JsonView::String("normal"@)) ==> crate::material::pass_of(o).cullmode is Normal,
        crate::json::member(o, "cullmode"@) != Some(JsonView::String("normal"@)) ==> crate::material::pass_of(o).cullmode is NoCull,
        crate::json::member(o, "depthtest"@) == Some(JsonView::String("enabled"@)) ==> crate::material::pass_of(o).depthtest is Enabled,
        crate::json::member(o, "depthtest"@) != Some(JsonView::String("enabled"@)) ==> crate::material::pass_of(o).depthtest is Disabled,
        crate::json::member(o, "depthwrite"@) == Some(JsonView::String("enabled"@)) ==> crate::material::pass_of(o).depthwrite is Enabled,
        crate::json::member(o, "depthwrite"@) != Some(JsonView::String("enabled"@)) ==> crate::material::pass_of(o).depthwrite is Disabled,
        text_taken(o, "shader"@, ""@, crate::material::pass_of(o).shader),
        crate::material::pass_of(o).textures == crate::material::slots_of(crate::json::member(o, "textures"@)),
        crate::material::pass_of(o).usertextures == crate::material::slots_of(crate::json::member(o, "usertextures"@)),
        crate::material::pass_of(o).combos == crate::material::combos_of(crate::json::member(o, "combos"@)),
        crate::material::pass_of(o).constants == crate::user::constant_map(crate::json::member(o, "constantshadervalues"@)),
{
    reveal_strlit("translucent");
    reveal_strlit("additive");
    assert("translucent"@.len() != "additive"@.len());
}

/// A model file needs its `material`; the members that its other fields come
/// from, and what they are without.
pub proof fn law_members_of_model(o: Seq<(Seq<char>, JsonView)>)
    ensures
        crate::material::model_file_of(JsonView::Object(o)) is Some == (crate::json::member(o, "material"@) matches Some(JsonView::String(_))),
        crate::material::model_file_of(JsonView::Object(o)) is Some ==> (text_taken(o, "material"@, ""@, crate::material::model_file_of(JsonView::Object(o))->0.material)),
        crate::material::model_file_of(JsonView::Object(o)) is Some ==> (taken(o, "solidlayer"@, |j: JsonView| crate::value::as_flag(j), false, crate::material::model_file_of(JsonView::Object(o))->0.solidlayer)),
        crate::material::model_file_of(JsonView::Object(o)) is Some ==> (taken(o, "fullscreen"@, |j: JsonView| crate::value::as_flag(j), false, crate::material::model_file_of(JsonView::Object(o))->0.fullscreen)),
        crate::material::model_file_of(JsonView::Object(o)) is Some ==> (taken(o, "passthrough"@, |j: JsonView| crate::value::as_flag(j), false, crate::material::model_file_of(JsonView::Object(o))->0.passthrough)),
        crate::material::model_file_of(JsonView::Object(o)) is Some ==> (taken(o, "autosize"@, |j: JsonView| crate::value::as_flag(j), false, crate::material::model_file_of(JsonView::Object(o))->0.autosize)),
        crate::material::model_file_of(JsonView::Object(o)) is Some ==> (taken(o, "nopadding"@, |j: JsonView| crate::value::as_flag(j), false, crate::material::model_file_of(JsonView::Object(o))->0.nopadding)),
        crate::material::model_file_of(JsonView::Object(o)) is Some ==> (crate::json::member(o, "width"@) is None ==> crate::material::model_file_of(JsonView::Object(o))->0.width is None),
        crate::material::model_file_of(JsonView::Object(o)) is Some ==> (crate::json::member(o, "width"@) matches Some(x) ==> crate::material::model_file_of(JsonView::Object(o))->0.width == crate::value::as_int(x)),
        crate::material::model_file_of(JsonView::Object(o)) is Some ==> (crate::json::member(o, "height"@) is None ==> crate::material::model_file_of(JsonView::Object(o))->0.height is None),
        crate::material::model_file_of(JsonView::Object(o)) is Some ==> (crate::json::member(o, "height"@) matches Some(x) ==> crate::material::model_file_of(JsonView::Object(o))->0.height == crate::value::as_int(x)),
        crate::material::model_file_of(JsonView::Object(o)) is Some ==> (text_or_none(o, "puppet"@, crate::material::model_file_of(JsonView::Object(o))->0.puppet)),
{
}

/// The members that the fields of an effect file come from.
pub proof fn law_members_of_effect_file(o: Seq<(Seq<char>, JsonView)>)
    ensures
        text_taken(o, "name"@, ""@, crate::material::effect_file_of(JsonView::Object(o)).name),
        text_taken(o, "description"@, ""@, crate::material::effect_file_of(JsonView::Object(o)).description),
        text_taken(o, "group"@, ""@, crate::material::effect_file_of(JsonView::Object(o)).group),
        text_taken(o, "preview"@, ""@, crate::material::effect_file_of(JsonView::Object(o)).preview),
        crate::material::effect_file_of(JsonView::Object(o)).dependencies == crate::fields::texts_of(crate::json::member(o, "dependencies"@)),
        crate::material::effect_file_of(JsonView::Object(o)).fbos == crate::material::fbos_among(crate::fields::objects_of(crate::json::member(o, "fbos"@))),
        crate::material::effect_file_of(JsonView::Object(o)).passes.len() == crate::fields::objects_of(crate::json::member(o, "passes"@)).len(),
        forall|i: int| 0 <= i < crate::fields::objects_of(crate::json::member(o, "passes"@)).len() ==> #[trigger] crate::material::effect_file_of(JsonView::Object(o)).passes[i] == crate::material::effect_pass_of(crate::fields::objects_of(crate::json::member(o, "passes"@))[i]),
{
}

/// The members that the fields of a pass of an effect file come from: a command
/// other than `copy` swaps.
pub proof fn law_members_of_effect_pass(o: Seq<(Seq<char>, JsonView)>)
    ensures
        text_or_none(o, "material"@, crate::material::effect_pass_of(o).material),
        text_or_none(o, "source"@, crate::material::effect_pass_of(o).source),
        text_or_none(o, "target"@, crate::material::effect_pass_of(o).target),
        crate::material::effect_pass_of(o).resolved is None,
        crate::material::effect_pass_of(o).bind == crate::material::binds_among(crate::fields::objects_of(crate::json::member(o, "bind"@))),
        !(crate::json::member(o, "command"@) matches Some(JsonView::String(_))) ==> crate::material::effect_pass_of(o).command is None,
        crate::json::member(o, "command"@) matches Some(JsonView::String(s)) ==> s == "copy"@ ==> crate::material::effect_pass_of(o).command == Some(crate::material::PassCommand::Copy),
        crate::json::member(o, "command"@) matches Some(JsonView::String(s)) ==> s != "copy"@ ==> crate::material::effect_pass_of(o).command == Some(crate::material::PassCommand::Swap),
{
}

/// A scratch buffer needs its `name`; the members that its other fields come from,
/// and what they are without.
pub proof fn law_members_of_fbo(o: Seq<(Seq<char>, JsonView)>)
    ensures
        crate::material::fbo_of(o) is Some == (crate::json::member(o, "name"@) matches Some(JsonView::String(_))),
        crate::material::fbo_of(o) is Some ==> (text_taken(o, "name"@, ""@, crate::material::fbo_of(o)->0.name)),
        crate::material::fbo_of(o) is Some ==> (text_taken(o, "format"@, "rgba8888"@, crate::material::fbo_of(o)->0.format)),
        crate::material::fbo_of(o) is Some ==> (taken(o, "scale"@, |j: JsonView| crate::value::as_scalar(j), ScalarView::Whole(1), crate::material::fbo_of(o)->0.scale)),
        crate::material::fbo_of(o) is Some ==> (taken(o, "unique"@, |j: JsonView| crate::value::as_flag(j), false, crate::material::fbo_of(o)->0.unique)),
{
}

/// The members that the fields of an emitter come from, and what they are
/// without.
pub proof fn law_members_of_emitter(o: Seq<(Seq<char>, JsonView)>)
    ensures
        taken(o, "id"@, |j: JsonView| crate::value::as_int(j), (-1) as i64, crate::particle::emitter_of(o).id),
        text_taken(o, "name"@, ""@, crate::particle::emitter_of(o).name),
        crate::particle::emitter_of(o).directions == crate::particle::bvec3_of(crate::json::member(o, "directions"@), seq![ScalarView::Whole(1), ScalarView::Whole(1), ScalarView::Whole(0)]),
        crate::particle::emitter_of(o).distancemin == crate::particle::bvec3_of(crate::json::member(o, "distancemin"@), seq![ScalarView::Whole(0), ScalarView::Whole(0), ScalarView::Whole(0)]),
        crate::particle::emitter_of(o).distancemax == crate::particle::bvec3_of(crate::json::member(o, "distancemax"@), seq![ScalarView::Whole(256), ScalarView::Whole(256), ScalarView::Whole(0)]),
        crate::particle::emitter_of(o).origin == crate::particle::bvec3_of(crate::json::member(o, "origin"@), seq![ScalarView::Whole(0), ScalarView::Whole(0), ScalarView::Whole(0)]),
        crate::particle::emitter_of(o).sign == crate::particle::ivec3_of(crate::json::member(o, "sign"@)),
        crate::particle::emitter_of(o).audioprocessingbounds == crate::particle::bvec2_of(crate::json::member(o, "audioprocessingbounds"@), seq![ScalarView::Text("0.8"@), ScalarView::Whole(1)]),
        taken(o, "instantaneous"@, |j: JsonView| crate::value::as_unsigned(j), 0u32, crate::particle::emitter_of(o).instantaneous),
        taken(o, "flags"@, |j: JsonView| crate::value::as_unsigned(j), 0u32, crate::particle::emitter_of(o).flags),
        taken(o, "speedmin"@, |j: JsonView| crate::value::as_scalar(j), ScalarView::Whole(0), crate::particle::emitter_of(o).speedmin),
        taken(o, "speedmax"@, |j: JsonView| crate::value::as_scalar(j), ScalarView::Whole(0), crate::particle::emitter_of(o).speedmax),
        taken(o, "rate"@, |j: JsonView| crate::value::as_scalar(j), ScalarView::Whole(10), crate::particle::emitter_of(o).rate),
        taken(o, "cone"@, |j: JsonView| crate::value::as_scalar(j), ScalarView::Whole(0), crate::particle::emitter_of(o).cone),
        taken(o, "delay"@, |j: JsonView| crate::value::as_scalar(j), ScalarView::Whole(0), crate::particle::emitter_of(o).delay),
        taken(o, "duration"@, |j: JsonView| crate::value::as_scalar(j), ScalarView::Whole(0), crate::particle::emitter_of(o).duration),
        taken(o, "minperiodicdelay"@, |j: JsonView| crate::value::as_scalar(j), ScalarView::Whole(1), crate::particle::emitter_of(o).minperiodicdelay),
        taken(o, "maxperiodicdelay"@, |j: JsonView| crate::value::as_scalar(j), ScalarView::Whole(2), crate::particle::emitter_of(o).maxperiodicdelay),
        taken(o, "minperiodicduration"@, |j: JsonView| crate::value::as_scalar(j), ScalarView::Whole(2), crate::particle::emitter_of(o).minperiodicduration),
        taken(o, "maxperiodicduration"@, |j: JsonView| crate::value::as_scalar(j), ScalarView::Whole(3), crate::particle::emitter_of(o).maxperiodicduration),
        taken(o, "controlpoint"@, |j: JsonView| crate::value::as_int(j), 0i64, crate::particle::emitter_of(o).controlpoint),
        taken(o, "audioprocessingexponent"@, |j: JsonView| crate::value::as_int(j), 2i64, crate::particle::emitter_of(o).audioprocessingexponent),
        taken(o, "audioprocessingfrequencystart"@, |j: JsonView| crate::value::as_int(j), 0i64, crate::particle::emitter_of(o).audioprocessingfrequencystart),
        taken(o, "audioprocessingfrequencyend"@, |j: JsonView| crate::value::as_int(j), 1i64, crate::particle::emitter_of(o).audioprocessingfrequencyend),
        taken(o, "audioprocessingmode"@, |j: JsonView| crate::value::as_int(j), 0i64, crate::particle::emitter_of(o).audioprocessingmode),
{
}

/// The members that the fields of a particle stage come from: whatever is neither
/// `id` nor `name` is a parameter.
pub proof fn law_members_of_stage(o: Seq<(Seq<char>, JsonView)>)
    ensures
        taken(o, "id"@, |j: JsonView| crate::value::as_int(j), (-1) as i64, crate::particle::stage_of(o).id),
        text_taken(o, "name"@, ""@, crate::particle::stage_of(o).name),
        !crate::particle::stage_of(o).params.dom().contains("id"@),
        !crate::particle::stage_of(o).params.dom().contains("name"@),
        forall|k: Seq<char>| k != "id"@ && k != "name"@ ==> (#[trigger] crate::particle::stage_of(o).params.dom().contains(k)) == (crate::json::member(o, k) is Some),
        forall|k: Seq<char>| #[trigger] crate::particle::stage_of(o).params.dom().contains(k) ==> crate::particle::stage_of(o).params[k] == crate::user::constant_of(crate::json::member(o, k)->0),
{
}

/// The members that the fields of a particle renderer come from, and what they
/// are without: a rope trail is longer, and a rope has more subdivisions.
pub proof fn law_members_of_renderer(o: Seq<(Seq<char>, JsonView)>)
    ensures
        text_taken(o, "name"@, "sprite"@, crate::particle::renderer_of(o).name),
        crate::particle::renderer_of(o).name == "ropetrail"@ ==> taken(o, "length"@, |j: JsonView| crate::value::as_scalar(j), ScalarView::Whole(1), crate::particle::renderer_of(o).length),
        crate::particle::renderer_of(o).name != "ropetrail"@ ==> taken(o, "length"@, |j: JsonView| crate::value::as_scalar(j), ScalarView::Text("0.05"@), crate::particle::renderer_of(o).length),
        crate::particle::renderer_of(o).name == "rope"@ ==> taken(o, "subdivision"@, |j: JsonView| crate::value::as_scalar(j), ScalarView::Whole(4), crate::particle::renderer_of(o).subdivision),
        crate::particle::renderer_of(o).name != "rope"@ ==> taken(o, "subdivision"@, |j: JsonView| crate::value::as_scalar(j), ScalarView::Whole(1), crate::particle::renderer_of(o).subdivision),
        taken(o, "maxlength"@, |j: JsonView| crate::value::as_scalar(j), ScalarView::Whole(10), crate::particle::renderer_of(o).maxlength),
        taken(o, "minlength"@, |j: JsonView| crate::value::as_scalar(j), ScalarView::Whole(0), crate::particle::renderer_of(o).minlength),
        taken(o, "segments"@, |j: JsonView| crate::value::as_scalar(j), ScalarView::Whole(4), crate::particle::renderer_of(o).segments),
        taken(o, "uvscale"@, |j: JsonView| crate::value::as_scalar(j), ScalarView::Whole(1), crate::particle::renderer_of(o).uvscale),
        taken(o, "uvscrolling"@, |j: JsonView| crate::value::as_flag(j), false, crate::particle::renderer_of(o).uvscrolling),
        taken(o, "uvsmoothing"@, |j: JsonView| crate::value::as_flag(j), true, crate::particle::renderer_of(o).uvsmoothing),
        taken(o, "fadealpha"@, |j: JsonView| crate::value::as_flag(j), false, crate::particle::renderer_of(o).fadealpha),
        taken(o, "fadesize"@, |j: JsonView| crate::value::as_flag(j), false, crate::particle::renderer_of(o).fadesize),
{
}

/// The members that the fields of a control point come from, and what they are
/// without.
pub proof fn law_members_of_control_point(o: Seq<(Seq<char>, JsonView)>)
    ensures
        taken(o, "id"@, |j: JsonView| crate::value::as_int(j), (-1) as i64, crate::particle::control_point_of(o).id),
        taken(o, "flags"@, |j: JsonView| crate::value::as_unsigned(j), 0u32, crate::particle::control_point_of(o).flags),
        taken(o, "locktopointer"@, |j: JsonView| crate::value::as_flag(j), false, crate::particle::control_point_of(o).locktopointer),
        taken(o, "offset"@, |j: JsonView| crate::user::vec3_value(j), seq![ScalarView::Whole(0), ScalarView::Whole(0), ScalarView::Whole(0)], crate::particle::control_point_of(o).offset),
{
}

/// The members that the fields of a child system come from, and what they are
/// without.
pub proof fn law_members_of_child(o: Seq<(Seq<char>, JsonView)>)
    ensures
        text_taken(o, "type"@, "static"@, crate::particle::child_of(o).kind),
        text_taken(o, "name"@, ""@, crate::particle::child_of(o).name),
        taken(o, "maxcount"@, |j: JsonView| crate::value::as_unsigned(j), 20u32, crate::particle::child_of(o).maxcount),
        taken(o, "controlpointstartindex"@, |j: JsonView| crate::value::as_int(j), 0i64, crate::particle::child_of(o).controlpointstartindex),
        taken(o, "probability"@, |j: JsonView| crate::value::as_scalar(j), ScalarView::Whole(1), crate::particle::child_of(o).probability),
        crate::particle::child_of(o).angles == crate::particle::bvec3_of(crate::json::member(o, "angles"@), seq![ScalarView::Whole(0), ScalarView::Whole(0), ScalarView::Whole(0)]),
        crate::particle::child_of(o).origin == crate::particle::bvec3_of(crate::json::member(o, "origin"@), seq![ScalarView::Whole(0), ScalarView::Whole(0), ScalarView::Whole(0)]),
        crate::particle::child_of(o).scale == crate::particle::bvec3_of(crate::json::member(o, "scale"@), seq![ScalarView::Whole(1), ScalarView::Whole(1), ScalarView::Whole(1)]),
        text_or_none(o, "particle"@, crate::particle::child_of(o).particle),
{
}

/// The members that the fields of a particle system come from, and what they are
/// without: a system that names no renderer draws sprites.
pub proof fn law_members_of_system(o: Seq<(Seq<char>, JsonView)>)
    ensures
        text_or_none(o, "material"@, crate::particle::particle_system_of(JsonView::Object(o)).material),
        crate::particle::particle_system_of(JsonView::Object(o)).resolved_material is None,
        text_taken(o, "animationmode"@, "sequence"@, crate::particle::particle_system_of(JsonView::Object(o)).animationmode),
        taken(o, "sequencemultiplier"@, |j: JsonView| crate::value::as_scalar(j), ScalarView::Whole(1), crate::particle::particle_system_of(JsonView::Object(o)).sequencemultiplier),
        taken(o, "maxcount"@, |j: JsonView| crate::value::as_unsigned(j), 100u32, crate::particle::particle_system_of(JsonView::Object(o)).maxcount),
        taken(o, "starttime"@, |j: JsonView| crate::value::as_unsigned(j), 0u32, crate::particle::particle_system_of(JsonView::Object(o)).starttime),
        taken(o, "flags"@, |j: JsonView| crate::value::as_unsigned(j), 0u32, crate::particle::particle_system_of(JsonView::Object(o)).flags),
        crate::particle::particle_system_of(JsonView::Object(o)).emitters.len() == crate::fields::objects_of(crate::json::member(o, "emitter"@)).len(),
        forall|i: int| 0 <= i < crate::fields::objects_of(crate::json::member(o, "emitter"@)).len() ==> #[trigger] crate::particle::particle_system_of(JsonView::Object(o)).emitters[i] == crate::particle::emitter_of(crate::fields::objects_of(crate::json::member(o, "emitter"@))[i]),
        crate::particle::particle_system_of(JsonView::Object(o)).initializers.len() == crate::fields::objects_of(crate::json::member(o, "initializer"@)).len(),
        forall|i: int| 0 <= i < crate::fields::objects_of(crate::json::member(o, "initializer"@)).len() ==> #[trigger] crate::particle::particle_system_of(JsonView::Object(o)).initializers[i] == crate::particle::stage_of(crate::fields::objects_of(crate::json::member(o, "initializer"@))[i]),
        crate::particle::particle_system_of(JsonView::Object(o)).operators.len() == crate::fields::objects_of(crate::json::member(o, "operator"@)).len(),
        forall|i: int| 0 <= i < crate::fields::objects_of(crate::json::member(o, "operator"@)).len() ==> #[trigger] crate::particle::particle_system_of(JsonView::Object(o)).operators[i] == crate::particle::stage_of(crate::fields::objects_of(crate::json::member(o, "operator"@))[i]),
        crate::particle::particle_system_of(JsonView::Object(o)).controlpoints.len() == crate::fields::objects_of(crate::json::member(o, "controlpoint"@)).len(),
        forall|i: int| 0 <= i < crate::fields::objects_of(crate::json::member(o, "controlpoint"@)).len() ==> #[trigger] crate::particle::particle_system_of(JsonView::Object(o)).controlpoints[i] == crate::particle::control_point_of(crate::fields::objects_of(crate::json::member(o, "controlpoint"@))[i]),
        crate::particle::particle_system_of(JsonView::Object(o)).children.len() == crate::fields::objects_of(crate::json::member(o, "children"@)).len(),
        forall|i: int| 0 <= i < crate::fields::objects_of(crate::json::member(o, "children"@)).len() ==> #[trigger] crate::particle::particle_system_of(JsonView::Object(o)).children[i] == crate::particle::child_of(crate::fields::objects_of(crate::json::member(o, "children"@))[i]),
        crate::fields::objects_of(crate::json::member(o, "renderer"@)).len() == 0 ==> crate::particle::particle_system_of(JsonView::Object(o)).renderers == seq![crate::particle::renderer_of(Seq::empty())],
        crate::fields::objects_of(crate::json::member(o, "renderer"@)).len() > 0 ==> crate::particle::particle_system_of(JsonView::Object(o)).renderers.len() == crate::fields::objects_of(crate::json::member(o, "renderer"@)).len(),
        forall|i: int| 0 <= i < crate::fields::objects_of(crate::json::member(o, "renderer"@)).len() ==> #[trigger] crate::particle::particle_system_of(JsonView::Object(o)).renderers[i] == crate::particle::renderer_of(crate::fields::objects_of(crate::json::member(o, "renderer"@))[i]),
{
    crate::particle::law_empty_renderer_is_sprite();
}

/// What an object is, the first of these members decides that is there and of the
/// right kind: `image`, `sound`, `particle`, `text`, `model`, `light`, `shape`.
/// Without any it is a group.
pub proof fn law_first_member_decides(o: Seq<(Seq<char>, JsonView)>)
    ensures
        (crate::json::member(o, "image"@) matches Some(JsonView::String(_))) ==> crate::object::kind_of(o) is Image,
        !(crate::json::member(o, "image"@) matches Some(JsonView::String(_))) && (crate::json::member(o, "sound"@) matches Some(JsonView::Array(_))) ==> crate::object::kind_of(o) is Sound,
        !(crate::json::member(o, "image"@) matches Some(JsonView::String(_))) && !(crate::json::member(o, "sound"@) matches Some(JsonView::Array(_))) && (crate::json::member(o, "particle"@) is Some && crate::json::member(o, "particle"@) != Some(JsonView::Null)) ==> crate::object::kind_of(o) is Particle,
        !(crate::json::member(o, "image"@) matches Some(JsonView::String(_))) && !(crate::json::member(o, "sound"@) matches Some(JsonView::Array(_))) && !(crate::json::member(o, "particle"@) is Some && crate::json::member(o, "particle"@) != Some(JsonView::Null)) && (crate::json::member(o, "text"@) is Some && crate::json::member(o, "text"@) != Some(JsonView::Null)) ==> crate::object::kind_of(o) is Text,
        !(crate::json::member(o, "image"@) matches Some(JsonView::String(_))) && !(crate::json::member(o, "sound"@) matches Some(JsonView::Array(_))) && !(crate::json::member(o, "particle"@) is Some && crate::json::member(o, "particle"@) != Some(JsonView::Null)) && !(crate::json::member(o, "text"@) is Some && crate::json::member(o, "text"@) != Some(JsonView::Null)) && (crate::json::member(o, "model"@) matches Some(JsonView::String(_))) ==> crate::object::kind_of(o) is Model,
        !(crate::json::member(o, "image"@) matches Some(JsonView::String(_))) && !(crate::json::member(o, "sound"@) matches Some(JsonView::Array(_))) && !(crate::json::member(o, "particle"@) is Some && crate::json::member(o, "particle"@) != Some(JsonView::Null)) && !(crate::json::member(o, "text"@) is Some && crate::json::member(o, "text"@) != Some(JsonView::Null)) && !(crate::json::member(o, "model"@) matches Some(JsonView::String(_))) && (crate::json::member(o, "light"@) is Some && crate::json::member(o, "light"@) != Some(JsonView::Null)) ==> crate::object::kind_of(o) is Light,
        !(crate::json::member(o, "image"@) matches Some(JsonView::String(_))) && !(crate::json::member(o, "sound"@) matches Some(JsonView::Array(_))) && !(crate::json::member(o, "particle"@) is Some && crate::json::member(o, "particle"@) != Some(JsonView::Null)) && !(crate::json::member(o, "text"@) is Some && crate::json::member(o, "text"@) != Some(JsonView::Null)) && !(crate::json::member(o, "model"@) matches Some(JsonView::String(_))) && !(crate::json::member(o, "light"@) is Some && crate::json::member(o, "light"@) != Some(JsonView::Null)) && (crate::json::member(o, "shape"@) is Some && crate::json::member(o, "shape"@) != Some(JsonView::Null)) ==> crate::object::kind_of(o) is Shape,
        !(crate::json::member(o, "image"@) matches Some(JsonView::String(_))) && !(crate::json::member(o, "sound"@) matches Some(JsonView::Array(_))) && !(crate::json::member(o, "particle"@) is Some && crate::json::member(o, "particle"@) != Some(JsonView::Null)) && !(crate::json::member(o, "text"@) is Some && crate::json::member(o, "text"@) != Some(JsonView::Null)) && !(crate::json::member(o, "model"@) matches Some(JsonView::String(_))) && !(crate::json::member(o, "light"@) is Some && crate::json::member(o, "light"@) != Some(JsonView::Null)) && !(crate::json::member(o, "shape"@) is Some && crate::json::member(o, "shape"@) != Some(JsonView::Null)) ==> crate::object::kind_of(o) is Group,
        crate::object::kind_of(o) matches crate::object::ObjectKindView::Image(x) ==> x == crate::object::image_of(o),
        crate::object::kind_of(o) matches crate::object::ObjectKindView::Sound(files, mode) ==> files == crate::fields::texts_of(crate::json::member(o, "sound"@)) && text_or_none(o, "playbackmode"@, mode),
        crate::object::kind_of(o) matches crate::object::ObjectKindView::Particle(x) ==> x == crate::object::particle_object_of(o),
        crate::object::kind_of(o) matches crate::object::ObjectKindView::Text(x) ==> x == crate::object::text_object_of(o),
        crate::object::kind_of(o) matches crate::object::ObjectKindView::Model(x) ==> crate::json::member(o, "model"@) == Some(JsonView::String(x)),
        crate::object::kind_of(o) matches crate::object::ObjectKindView::Light(x) ==> x == o,
        crate::object::kind_of(o) matches crate::object::ObjectKindView::Shape(x) ==> x == o,
        crate::object::object_of_value(JsonView::Object(o)) is Some,
        crate::object::object_of_value(JsonView::Object(o))->0.base == crate::object::base_of(o),
        crate::object::object_of_value(JsonView::Object(o))->0.kind == crate::object::kind_of(o),
        crate::object::object_of_value(JsonView::Object(o))->0.extra == o,
{
}

/// The objects of a list are those among its entries, in order.
pub proof fn law_objects_in_order(a: Seq<JsonView>, b: Seq<JsonView>, x: JsonView)
    ensures
        crate::fields::objects_among(a + b) == crate::fields::objects_among(a) + crate::fields::objects_among(b),
        crate::fields::objects_among(Seq::empty()).len() == 0,
        x matches JsonView::Object(o) ==> crate::fields::objects_among(seq![x]) == seq![o],
        !(x is Object) ==> crate::fields::objects_among(seq![x]).len() == 0,
        crate::fields::objects_of(Some(JsonView::Array(a))) == crate::fields::objects_among(a),
        !(x is Array) ==> crate::fields::objects_of(Some(x)).len() == 0,
        crate::fields::objects_of(None).len() == 0,
    decreases b.len(),
{
    assert(crate::fields::objects_among(Seq::<JsonView>::empty()).len() == 0);
    assert(seq![x].drop_last() =~= Seq::<JsonView>::empty());
    assert(seq![x].last() == x);
    lemma_objects_in_order(a, b);
}

/// A list of two parts gives what the parts give, in order.
proof fn lemma_objects_in_order(a: Seq<JsonView>, b: Seq<JsonView>)
    ensures
        crate::fields::objects_among(a + b) == crate::fields::objects_among(a) + crate::fields::objects_among(b),
    decreases b.len(),
{
    if b.len() == 0 {
        assert(a + b =~= a);
        assert(crate::fields::objects_among(a) + crate::fields::objects_among(b) =~= crate::fields::objects_among(a));
    } else {
        lemma_objects_in_order(a, b.drop_last());
        assert((a + b).drop_last() =~= a + b.drop_last());
        assert((a + b).last() == b.last());
        assert(crate::fields::objects_among(a + b) =~= crate::fields::objects_among(a) + crate::fields::objects_among(b));
    }
}

/// The texts of a list are the strings among its entries, in order.
pub proof fn law_texts_in_order(a: Seq<JsonView>, b: Seq<JsonView>, x: JsonView)
    ensures
        crate::fields::texts_among(a + b) == crate::fields::texts_among(a) + crate::fields::texts_among(b),
        crate::fields::texts_among(Seq::empty()).len() == 0,
        x matches JsonView::String(s) ==> crate::fields::texts_among(seq![x]) == seq![s],
        !(x is String) ==> crate::fields::texts_among(seq![x]).len() == 0,
        crate::fields::texts_of(Some(JsonView::Array(a))) == crate::fields::texts_among(a),
        !(x is Array) ==> crate::fields::texts_of(Some(x)).len() == 0,
        crate::fields::texts_of(None).len() == 0,
    decreases b.len(),
{
    assert(crate::fields::texts_among(Seq::<JsonView>::empty()).len() == 0);
    assert(seq![x].drop_last() =~= Seq::<JsonView>::empty());
    assert(seq![x].last() == x);
    lemma_texts_in_order(a, b);
}

/// A list of two parts gives what the parts give, in order.
proof fn lemma_texts_in_order(a: Seq<JsonView>, b: Seq<JsonView>)
    ensures
        crate::fields::texts_among(a + b) == crate::fields::texts_among(a) + crate::fields::texts_among(b),
    decreases b.len(),
{
    if b.len() == 0 {
        assert(a + b =~= a);
        assert(crate::fields::texts_among(a) + crate::fields::texts_among(b) =~= crate::fields::texts_among(a));
    } else {
        lemma_texts_in_order(a, b.drop_last());
        assert((a + b).drop_last() =~= a + b.drop_last());
        assert((a + b).last() == b.last());
        assert(crate::fields::texts_among(a + b) =~= crate::fields::texts_among(a) + crate::fields::texts_among(b));
    }
}

/// The integers of a list are what its entries read as, in order.
pub proof fn law_integers_in_order(a: Seq<JsonView>, b: Seq<JsonView>, x: JsonView)
    ensures
        crate::fields::ints_among(a + b) == crate::fields::ints_among(a) + crate::fields::ints_among(b),
        crate::fields::ints_among(Seq::empty()).len() == 0,
        crate::value::as_int(x) matches Some(i) ==> crate::fields::ints_among(seq![x]) == seq![i],
        crate::value::as_int(x) is None ==> crate::fields::ints_among(seq![x]).len() == 0,
        crate::fields::ints_of(Some(JsonView::Array(a))) == crate::fields::ints_among(a),
        !(x is Array) ==> crate::fields::ints_of(Some(x)).len() == 0,
        crate::fields::ints_of(None).len() == 0,
    decreases b.len(),
{
    assert(crate::fields::ints_among(Seq::<JsonView>::empty()).len() == 0);
    assert(seq![x].drop_last() =~= Seq::<JsonView>::empty());
    assert(seq![x].last() == x);
    lemma_integers_in_order(a, b);
}

/// A list of two parts gives what the parts give, in order.
proof fn lemma_integers_in_order(a: Seq<JsonView>, b: Seq<JsonView>)
    ensures
        crate::fields::ints_among(a + b) == crate::fields::ints_among(a) + crate::fields::ints_among(b),
    decreases b.len(),
{
    if b.len() == 0 {
        assert(a + b =~= a);
        assert(crate::fields::ints_among(a) + crate::fields::ints_among(b) =~= crate::fields::ints_among(a));
    } else {
        lemma_integers_in_order(a, b.drop_last());
        assert((a + b).drop_last() =~= a + b.drop_last());
        assert((a + b).last() == b.last());
        assert(crate::fields::ints_among(a + b) =~= crate::fields::ints_among(a) + crate::fields::ints_among(b));
    }
}

/// The effects of a list are those that its objects spell, in order.
pub proof fn law_effects_in_order(a: Seq<Seq<(Seq<char>, JsonView)>>, b: Seq<Seq<(Seq<char>, JsonView)>>, x: Seq<(Seq<char>, JsonView)>)
    ensures
        crate::object::effects_among(a + b) == crate::object::effects_among(a) + crate::object::effects_among(b),
        crate::object::effects_among(Seq::empty()).len() == 0,
        crate::object::effect_of(x) matches Some(e) ==> crate::object::effects_among(seq![x]) == seq![e],
        crate::object::effect_of(x) is None ==> crate::object::effects_among(seq![x]).len() == 0,
    decreases b.len(),
{
    assert(crate::object::effects_among(Seq::<Seq<(Seq<char>, JsonView)>>::empty()).len() == 0);
    assert(seq![x].drop_last() =~= Seq::<Seq<(Seq<char>, JsonView)>>::empty());
    assert(seq![x].last() == x);
    lemma_effects_in_order(a, b);
}

/// A list of two parts gives what the parts give, in order.
proof fn lemma_effects_in_order(a: Seq<Seq<(Seq<char>, JsonView)>>, b: Seq<Seq<(Seq<char>, JsonView)>>)
    ensures
        crate::object::effects_among(a + b) == crate::object::effects_among(a) + crate::object::effects_among(b),
    decreases b.len(),
{
    if b.len() == 0 {
        assert(a + b =~= a);
        assert(crate::object::effects_among(a) + crate::object::effects_among(b) =~= crate::object::effects_among(a));
    } else {
        lemma_effects_in_order(a, b.drop_last());
        assert((a + b).drop_last() =~= a + b.drop_last());
        assert((a + b).last() == b.last());
        assert(crate::object::effects_among(a + b) =~= crate::object::effects_among(a) + crate::object::effects_among(b));
    }
}

/// The animation layers of a list are those that its objects spell, in order.
pub proof fn law_layers_in_order(a: Seq<Seq<(Seq<char>, JsonView)>>, b: Seq<Seq<(Seq<char>, JsonView)>>, x: Seq<(Seq<char>, JsonView)>)
    ensures
        crate::object::layers_among(a + b) == crate::object::layers_among(a) + crate::object::layers_among(b),
        crate::object::layers_among(Seq::empty()).len() == 0,
        crate::object::layer_of(x) matches Some(e) ==> crate::object::layers_among(seq![x]) == seq![e],
        crate::object::layer_of(x) is None ==> crate::object::layers_among(seq![x]).len() == 0,
    decreases b.len(),
{
    assert(crate::object::layers_among(Seq::<Seq<(Seq<char>, JsonView)>>::empty()).len() == 0);
    assert(seq![x].drop_last() =~= Seq::<Seq<(Seq<char>, JsonView)>>::empty());
    assert(seq![x].last() == x);
    lemma_layers_in_order(a, b);
}

/// A list of two parts gives what the parts give, in order.
proof fn lemma_layers_in_order(a: Seq<Seq<(Seq<char>, JsonView)>>, b: Seq<Seq<(Seq<char>, JsonView)>>)
    ensures
        crate::object::layers_among(a + b) == crate::object::layers_among(a) + crate::object::layers_among(b),
    decreases b.len(),
{
    if b.len() == 0 {
        assert(a + b =~= a);
        assert(crate::object::layers_among(a) + crate::object::layers_among(b) =~= crate::object::layers_among(a));
    } else {
        lemma_layers_in_order(a, b.drop_last());
        assert((a + b).drop_last() =~= a + b.drop_last());
        assert((a + b).last() == b.last());
        assert(crate::object::layers_among(a + b) =~= crate::object::layers_among(a) + crate::object::layers_among(b));
    }
}

/// The scratch buffers of a list are those that its objects declare, in order.
pub proof fn law_fbos_in_order(a: Seq<Seq<(Seq<char>, JsonView)>>, b: Seq<Seq<(Seq<char>, JsonView)>>, x: Seq<(Seq<char>, JsonView)>)
    ensures
        crate::material::fbos_among(a + b) == crate::material::fbos_among(a) + crate::material::fbos_among(b),
        crate::material::fbos_among(Seq::empty()).len() == 0,
        crate::material::fbo_of(x) matches Some(e) ==> crate::material::fbos_among(seq![x]) == seq![e],
        crate::material::fbo_of(x) is None ==> crate::material::fbos_among(seq![x]).len() == 0,
    decreases b.len(),
{
    assert(crate::material::fbos_among(Seq::<Seq<(Seq<char>, JsonView)>>::empty()).len() == 0);
    assert(seq![x].drop_last() =~= Seq::<Seq<(Seq<char>, JsonView)>>::empty());
    assert(seq![x].last() == x);
    lemma_fbos_in_order(a, b);
}

/// A list of two parts gives what the parts give, in order.
proof fn lemma_fbos_in_order(a: Seq<Seq<(Seq<char>, JsonView)>>, b: Seq<Seq<(Seq<char>, JsonView)>>)
    ensures
        crate::material::fbos_among(a + b) == crate::material::fbos_among(a) + crate::material::fbos_among(b),
    decreases b.len(),
{
    if b.len() == 0 {
        assert(a + b =~= a);
        assert(crate::material::fbos_among(a) + crate::material::fbos_among(b) =~= crate::material::fbos_among(a));
    } else {
        lemma_fbos_in_order(a, b.drop_last());
        assert((a + b).drop_last() =~= a + b.drop_last());
        assert((a + b).last() == b.last());
        assert(crate::material::fbos_among(a + b) =~= crate::material::fbos_among(a) + crate::material::fbos_among(b));
    }
}

/// The keyframes of a list are its objects with a `frame` and a `value`, in order.
pub proof fn law_keyframes_in_order(a: Seq<Seq<(Seq<char>, JsonView)>>, b: Seq<Seq<(Seq<char>, JsonView)>>, x: Seq<(Seq<char>, JsonView)>)
    ensures
        crate::object::keyframes_among(a + b) == crate::object::keyframes_among(a) + crate::object::keyframes_among(b),
        crate::object::keyframes_among(Seq::empty()).len() == 0,
        crate::fields::scalar_at(x, "frame"@) matches Some(a) ==> crate::fields::scalar_at(x, "value"@) matches Some(b) ==> crate::object::keyframes_among(seq![x]) == seq![(a, b)],
        crate::fields::scalar_at(x, "frame"@) is None || crate::fields::scalar_at(x, "value"@) is None ==> crate::object::keyframes_among(seq![x]).len() == 0,
    decreases b.len(),
{
    assert(crate::object::keyframes_among(Seq::<Seq<(Seq<char>, JsonView)>>::empty()).len() == 0);
    assert(seq![x].drop_last() =~= Seq::<Seq<(Seq<char>, JsonView)>>::empty());
    assert(seq![x].last() == x);
    lemma_keyframes_in_order(a, b);
}

/// A list of two parts gives what the parts give, in order.
proof fn lemma_keyframes_in_order(a: Seq<Seq<(Seq<char>, JsonView)>>, b: Seq<Seq<(Seq<char>, JsonView)>>)
    ensures
        crate::object::keyframes_among(a + b) == crate::object::keyframes_among(a) + crate::object::keyframes_among(b),
    decreases b.len(),
{
    if b.len() == 0 {
        assert(a + b =~= a);
        assert(crate::object::keyframes_among(a) + crate::object::keyframes_among(b) =~= crate::object::keyframes_among(a));
    } else {
        lemma_keyframes_in_order(a, b.drop_last());
        assert((a + b).drop_last() =~= a + b.drop_last());
        assert((a + b).last() == b.last());
        assert(crate::object::keyframes_among(a + b) =~= crate::object::keyframes_among(a) + crate::object::keyframes_among(b));
    }
}

/// The binds of a list are its objects with a `name` and an `index`, in order.
pub proof fn law_binds_in_order(a: Seq<Seq<(Seq<char>, JsonView)>>, b: Seq<Seq<(Seq<char>, JsonView)>>, x: Seq<(Seq<char>, JsonView)>)
    ensures
        crate::material::binds_among(a + b) == crate::material::binds_among(a) + crate::material::binds_among(b),
        crate::material::binds_among(Seq::empty()).len() == 0,
        crate::fields::text_at(x, "name"@) matches Some(n) ==> crate::fields::int_at(x, "index"@) matches Some(i) ==> crate::material::binds_among(seq![x]) == seq![(n, i)],
        crate::fields::text_at(x, "name"@) is None || crate::fields::int_at(x, "index"@) is None ==> crate::material::binds_among(seq![x]).len() == 0,
    decreases b.len(),
{
    assert(crate::material::binds_among(Seq::<Seq<(Seq<char>, JsonView)>>::empty()).len() == 0);
    assert(seq![x].drop_last() =~= Seq::<Seq<(Seq<char>, JsonView)>>::empty());
    assert(seq![x].last() == x);
    lemma_binds_in_order(a, b);
}

/// A list of two parts gives what the parts give, in order.
proof fn lemma_binds_in_order(a: Seq<Seq<(Seq<char>, JsonView)>>, b: Seq<Seq<(Seq<char>, JsonView)>>)
    ensures
        crate::material::binds_among(a + b) == crate::material::binds_among(a) + crate::material::binds_among(b),
    decreases b.len(),
{
    if b.len() == 0 {
        assert(a + b =~= a);
        assert(crate::material::binds_among(a) + crate::material::binds_among(b) =~= crate::material::binds_among(a));
    } else {
        lemma_binds_in_order(a, b.drop_last());
        assert((a + b).drop_last() =~= a + b.drop_last());
        assert((a + b).last() == b.last());
        assert(crate::material::binds_among(a + b) =~= crate::material::binds_among(a) + crate::material::binds_among(b));
    }
}

/// A member read one way or another is the value under its name, read so.
pub proof fn law_member_reads(o: Seq<(Seq<char>, JsonView)>, key: Seq<char>)
    ensures
        text_or_none(o, key, crate::fields::text_at(o, key)),
        crate::json::member(o, key) is None ==> crate::fields::flag_at(o, key) is None
            && crate::fields::int_at(o, key) is None && crate::fields::scalar_at(o, key) is None
            && crate::fields::unsigned_at(o, key) is None,
        crate::json::member(o, key) matches Some(x) ==> crate::fields::flag_at(o, key)
            == crate::value::as_flag(x) && crate::fields::int_at(o, key) == crate::value::as_int(x)
            && crate::fields::scalar_at(o, key) == crate::value::as_scalar(x)
            && crate::fields::unsigned_at(o, key) == crate::value::as_unsigned(x),
{
}

/// A list of texture slots has one for each entry: a string that is not empty
/// and the `name` of an object fill it, and nothing else does.
pub proof fn law_slots_of_list(a: Seq<JsonView>, i: int)
    requires
        0 <= i < a.len(),
    ensures
        crate::material::slots_of(Some(JsonView::Array(a))).len() == a.len(),
        crate::material::slots_of(None).len() == 0,
        ({
            let slot = crate::material::slots_of(Some(JsonView::Array(a)))[i];
            &&& a[i] matches JsonView::String(s) ==> s.len() > 0 ==> slot == Some(s)
            &&& a[i] matches JsonView::String(s) ==> s.len() == 0 ==> slot is None
            &&& a[i] matches JsonView::Object(o) ==> text_or_none(o, "name"@, slot)
            &&& !(a[i] is String) && !(a[i] is Object) ==> slot is None
        }),
{
}

/// The defines of a pass are the members of an object, each the integer that it
/// reads as, and zero where it reads as none.
pub proof fn law_combos_of_object(o: Seq<(Seq<char>, JsonView)>, key: Seq<char>)
    ensures
        ({
            let combos = crate::material::combos_of(Some(JsonView::Object(o)));
            &&& combos.dom().contains(key) == (crate::json::member(o, key) is Some)
            &&& crate::json::member(o, key) is Some ==> taken(
                o,
                key,
                |j: JsonView| crate::value::as_int(j),
                0i64,
                combos[key],
            )
        }),
        crate::material::combos_of(None) == Map::<Seq<char>, i64>::empty(),
{
}

/// The constants of a pass are the members of an object. Each is a setting, whose
/// literal decodes by its type; one without a literal is null.
pub proof fn law_constants_of_object(o: Seq<(Seq<char>, JsonView)>, key: Seq<char>)
    ensures
        ({
            let constants = crate::user::constant_map(Some(JsonView::Object(o)));
            &&& constants.dom().contains(key) == (crate::json::member(o, key) is Some)
            &&& crate::json::member(o, key) is Some ==> spelled(
                o,
                key,
                |j: JsonView| Some(crate::value::decoded(j, false)),
                crate::value::DynamicView::Null,
                constants[key],
            )
        }),
        crate::user::constant_map(None).dom() == Set::<Seq<char>>::empty(),
{
}

/// A vector that may be given in several forms: a string of three numbers, an
/// array, whose unreadable entries keep their default, and one number for all.
pub proof fn law_vector_forms(v: JsonView, default: Seq<ScalarView>, i: int)
    requires
        default.len() == 3,
        0 <= i < 3,
    ensures
        ({
            let r = crate::particle::bvec3_of(Some(v), default);
            &&& v matches JsonView::String(s) ==> crate::value::vec3_of(s) matches Some(x) ==> r == x
            &&& v matches JsonView::String(s) ==> crate::value::vec3_of(s) is None ==> r == default
            &&& v matches JsonView::Array(a) ==> r.len() == 3
            &&& v matches JsonView::Array(a) ==> i >= a.len() ==> r[i] == default[i]
            &&& v matches JsonView::Array(a) ==> crate::value::as_scalar(a[i]) matches Some(x)
                ==> i < a.len() ==> r[i] == x
            &&& v matches JsonView::Array(a) ==> i < a.len() ==> crate::value::as_scalar(
                a[i],
            ) is None ==> r[i] == default[i]
            &&& v matches JsonView::Number(n) ==> r.len() == 3 && r[i]
                == crate::value::number_scalar(n)
            &&& !(v is String) && !(v is Array) && !(v is Number) ==> r == default
        }),
        crate::particle::bvec3_of(None, default) == default,
{
}

} // verus!
