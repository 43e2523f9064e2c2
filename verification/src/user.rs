//! Fields that a property or a script may drive.
//!
//! Nearly every leaf of a scene object is a *user setting*: a plain literal,
//! or an object with a `"value"` plus an optional `"user"` property binding
//! and an optional `"script"`.
use vstd::prelude::*;

use crate::json::{Json, JsonView, Members};
use crate::number::{Scalar, ScalarView};
use crate::property::Resolvable;
use crate::table::Table;
use crate::value::{
    coerce_bool, coerce_f64, coerce_i64, one, parse_color, parse_vec2, parse_vec3, Color, DynamicValue,
    DynamicView, Vec2, Vec3,
};

verus! {

/// A property binding target.
#[derive(Debug)]
pub enum UserRef {
    /// `"user": "name"`: the property's value overwrites the setting's value.
    Name(String),
    /// `"user": { "name": N, "condition": C }`: the setting becomes whether
    /// the property equals `C`.
    Conditional {
        /// The bound property name.
        name: String,
        /// The text the property's value is compared against.
        condition: String,
    },
}

/// What a [`UserRef`] holds.
pub enum UserRefView {
    /// The bound property.
    Name(Seq<char>),
    /// The bound property and the text it is compared against.
    Conditional {
        /// The bound property name.
        name: Seq<char>,
        /// The text the property's value is compared against.
        condition: Seq<char>,
    },
}

impl View for UserRef {
    type V = UserRefView;

    open spec fn view(&self) -> UserRefView {
        match self {
            UserRef::Name(n) => UserRefView::Name(n@),
            UserRef::Conditional { name, condition } => UserRefView::Conditional {
                name: name@,
                condition: condition@,
            },
        }
    }
}

/// The property a binding reads.
pub open spec fn bound_name(r: UserRefView) -> Seq<char> {
    match r {
        UserRefView::Name(n) => n,
        UserRefView::Conditional { name, condition: _ } => name,
    }
}

impl UserRef {
    /// The property name this binding reads, regardless of form.
    pub fn name(&self) -> (r: &str)
        ensures
            r@ == bound_name(self@),
    {
        match self {
            UserRef::Name(n) => n.as_str(),
            UserRef::Conditional { name, condition: _ } => name.as_str(),
        }
    }

    /// An equal binding.
    pub fn copy(&self) -> (r: UserRef)
        ensures
            r@ == self@,
    {
        match self {
            UserRef::Name(n) => UserRef::Name(n.clone()),
            UserRef::Conditional { name, condition } => UserRef::Conditional {
                name: name.clone(),
                condition: condition.clone(),
            },
        }
    }
}

/// A script that drives a setting: its source and its own properties,
/// verbatim.
#[derive(Debug)]
pub struct ScriptBinding {
    /// Script source.
    pub source: String,
    /// `scriptproperties`, each value itself a user setting.
    pub properties: Members,
}

/// What a [`ScriptBinding`] holds.
pub struct ScriptView {
    /// Script source.
    pub source: Seq<char>,
    /// The script's properties.
    pub properties: Seq<(Seq<char>, JsonView)>,
}

impl View for ScriptBinding {
    type V = ScriptView;

    open spec fn view(&self) -> ScriptView {
        ScriptView { source: self.source@, properties: self.properties@ }
    }
}

impl ScriptBinding {
    /// An equal binding.
    pub fn copy(&self) -> (r: ScriptBinding)
        ensures
            r@ == self@,
    {
        ScriptBinding { source: self.source.clone(), properties: self.properties.copy() }
    }
}

/// A leaf field: an initial value plus optional bindings. Resolution replaces
/// the value and keeps the bindings.
#[derive(Debug)]
pub struct UserSetting<T> {
    /// The literal in `"value"` (or the field default) and, after resolution,
    /// the current value.
    pub value: T,
    /// Optional project-property binding.
    pub user: Option<UserRef>,
    /// Optional script.
    pub script: Option<ScriptBinding>,
}

/// What a [`UserSetting`] holds.
pub struct SettingView<S> {
    /// The value.
    pub value: S,
    /// The property binding.
    pub user: Option<UserRefView>,
    /// The script.
    pub script: Option<ScriptView>,
}

/// What an optional property binding holds.
pub open spec fn user_view(u: Option<UserRef>) -> Option<UserRefView> {
    match u {
        Some(r) => Some(r@),
        None => None,
    }
}

/// What an optional script holds.
pub open spec fn script_view(s: Option<ScriptBinding>) -> Option<ScriptView> {
    match s {
        Some(b) => Some(b@),
        None => None,
    }
}

/// What a setting holds.
pub open spec fn setting<T: Resolvable>(us: UserSetting<T>) -> SettingView<T::Shown> {
    SettingView {
        value: us.value.shown(),
        user: user_view(us.user),
        script: script_view(us.script),
    }
}

/// A setting without bindings.
pub open spec fn plain<S>(value: S) -> SettingView<S> {
    SettingView { value, user: None, script: None }
}

impl<T> UserSetting<T> {
    /// A plain literal setting with no bindings.
    pub fn literal(value: T) -> (r: Self)
        ensures
            r.value == value,
            r.user is None,
            r.script is None,
    {
        UserSetting { value, user: None, script: None }
    }

    /// Whether this field is bound to a property or a script.
    pub fn is_bound(&self) -> (r: bool)
        ensures
            r == (self.user is Some || self.script is Some),
    {
        self.user.is_some() || self.script.is_some()
    }
}

/// The property binding of a setting object: a name, or an object with a
/// `name` string and a `condition`.
pub open spec fn user_binding(o: Seq<(Seq<char>, JsonView)>) -> Option<UserRefView> {
    match crate::json::member(o, "user"@) {
        Some(JsonView::String(n)) => Some(UserRefView::Name(n)),
        Some(JsonView::Object(u)) => match (
            crate::json::member(u, "name"@),
            crate::json::member(u, "condition"@),
        ) {
            (Some(JsonView::String(name)), Some(c)) => Some(
                UserRefView::Conditional {
                    name,
                    condition: match c {
                        JsonView::String(s) => s,
                        _ => Seq::empty(),
                    },
                },
            ),
            _ => None,
        },
        _ => None,
    }
}

/// The script of a setting object.
pub open spec fn script_binding(o: Seq<(Seq<char>, JsonView)>) -> Option<ScriptView> {
    match crate::json::member(o, "script"@) {
        Some(JsonView::String(source)) => Some(
            ScriptView {
                source,
                properties: match crate::json::member(o, "scriptproperties"@) {
                    Some(JsonView::Object(p)) => p,
                    _ => Seq::empty(),
                },
            },
        ),
        _ => None,
    }
}

/// The literal of the setting that a value spells: `null` and nothing have
/// none, an object has its `value` member, anything else is its own literal.
pub open spec fn literal_of(v: Option<JsonView>) -> Option<JsonView> {
    match v {
        None => None,
        Some(JsonView::Null) => None,
        Some(JsonView::Object(o)) => crate::json::member(o, "value"@),
        Some(other) => Some(other),
    }
}

/// The bindings of the setting that a value spells.
pub open spec fn user_of(v: Option<JsonView>) -> Option<UserRefView> {
    match v {
        Some(JsonView::Object(o)) => user_binding(o),
        _ => None,
    }
}

/// The script of the setting that a value spells.
pub open spec fn script_of(v: Option<JsonView>) -> Option<ScriptView> {
    match v {
        Some(JsonView::Object(o)) => script_binding(o),
        _ => None,
    }
}

/// The setting that a value spells: what its literal parses to, or the
/// default, with the bindings of an object.
pub open spec fn setting_of<S>(
    v: Option<JsonView>,
    default: S,
    parse: spec_fn(JsonView) -> Option<S>,
) -> SettingView<S> {
    SettingView {
        value: match literal_of(v) {
            None => default,
            Some(j) => match parse(j) {
                Some(x) => x,
                None => default,
            },
        },
        user: user_of(v),
        script: script_of(v),
    }
}

/// Parse the bindings off a user-setting object.
fn parse_bindings(obj: &Members) -> (r: (Option<UserRef>, Option<ScriptBinding>))
    ensures
        user_view(r.0) == user_binding(obj@),
        script_view(r.1) == script_binding(obj@),
{
    let user = match obj.get("user") {
        Some(Json::String(name)) => Some(UserRef::Name(name.clone())),
        Some(Json::Object(o)) => {
            proof {
                crate::json::lemma_object_view(*o);
            }
            match (o.get("name"), o.get("condition")) {
                (Some(Json::String(name)), Some(condition)) => {
                    let condition = match condition {
                        Json::String(s) => s.clone(),
                        _ => String::new(),
                    };
                    Some(UserRef::Conditional { name: name.clone(), condition })
                },
                _ => None,
            }
        },
        _ => None,
    };
    let script = match obj.get("script") {
        Some(Json::String(source)) => {
            let properties = match obj.get("scriptproperties") {
                Some(Json::Object(p)) => {
                    proof {
                        crate::json::lemma_object_view(*p);
                    }
                    p.copy()
                },
                _ => Members::new(),
            };
            Some(ScriptBinding { source: source.clone(), properties })
        },
        _ => None,
    };
    (user, script)
}

/// `value` is what `parse` made of the literal `v`, or `default`.
pub open spec fn parsed_or<T, F: Fn(&Json) -> Option<T>>(
    parse: F,
    v: Option<JsonView>,
    default: T,
    value: T,
) -> bool {
    match literal_of(v) {
        None => value == default,
        Some(j) => exists|from: &Json, o: Option<T>|
            from@ == j && #[trigger] parse.ensures((from,), o) && value == (match o {
                Some(x) => x,
                None => default,
            }),
    }
}

/// Read the setting that `raw` spells.
fn read_raw<T, F: Fn(&Json) -> Option<T>>(raw: Option<&Json>, default: T, parse: F) -> (r: UserSetting<T>)
    requires
        forall|j: &Json| parse.requires((j,)),
    ensures
        parsed_or(parse, crate::json::shown(raw), default, r.value),
        user_view(r.user) == user_of(crate::json::shown(raw)),
        script_view(r.script) == script_of(crate::json::shown(raw)),
{
    match raw {
        None => UserSetting::literal(default),
        Some(Json::Null) => UserSetting::literal(default),
        Some(Json::Object(obj)) => {
            proof {
                crate::json::lemma_object_view(*obj);
            }
            let (user, script) = parse_bindings(obj);
            let value = match obj.get("value") {
                None => default,
                Some(j) => {
                    let o = parse(j);
                    assert(parse.ensures((j,), o));
                    match o {
                        Some(x) => x,
                        None => default,
                    }
                },
            };
            UserSetting { value, user, script }
        },
        Some(other) => {
            let o = parse(other);
            assert(parse.ensures((other,), o));
            let value = match o {
                Some(x) => x,
                None => default,
            };
            UserSetting { value, user: None, script: None }
        },
    }
}

/// Read a user setting off `map[key]` with a value parser and default.
///
/// An object takes its literal from its `"value"` member. A literal that is
/// missing, or that the parser rejects, falls back to `default`.
pub fn read_user<T, F: Fn(&Json) -> Option<T>>(map: &Members, key: &str, default: T, parse: F) -> (r:
    UserSetting<T>)
    requires
        forall|j: &Json| parse.requires((j,)),
    ensures
        parsed_or(parse, crate::json::member(map@, key@), default, r.value),
        user_view(r.user) == user_of(crate::json::member(map@, key@)),
        script_view(r.script) == script_of(crate::json::member(map@, key@)),
{
    read_raw(map.get(key), default, parse)
}

/// The flag setting under `key`.
pub open spec fn bool_setting(o: Seq<(Seq<char>, JsonView)>, key: Seq<char>, default: bool) -> SettingView<
    bool,
> {
    setting_of(crate::json::member(o, key), default, |j: JsonView| crate::value::as_flag(j))
}

/// The number setting under `key`.
pub open spec fn scalar_setting(
    o: Seq<(Seq<char>, JsonView)>,
    key: Seq<char>,
    default: ScalarView,
) -> SettingView<ScalarView> {
    setting_of(crate::json::member(o, key), default, |j: JsonView| crate::value::as_scalar(j))
}

/// The integer setting under `key`.
pub open spec fn int_setting(o: Seq<(Seq<char>, JsonView)>, key: Seq<char>, default: i64) -> SettingView<
    i64,
> {
    setting_of(crate::json::member(o, key), default, |j: JsonView| crate::value::as_int(j))
}

/// The text setting under `key`.
pub open spec fn text_setting(
    o: Seq<(Seq<char>, JsonView)>,
    key: Seq<char>,
    default: Seq<char>,
) -> SettingView<Seq<char>> {
    setting_of(crate::json::member(o, key), default, |j: JsonView| crate::json::text_of(Some(j)))
}

/// The 2-component vector that a value spells.
pub open spec fn vec2_value(j: JsonView) -> Option<Seq<ScalarView>> {
    match j {
        JsonView::String(s) => crate::value::vec2_of(s),
        _ => None,
    }
}

/// The 3-component vector that a value spells.
pub open spec fn vec3_value(j: JsonView) -> Option<Seq<ScalarView>> {
    match j {
        JsonView::String(s) => crate::value::vec3_of(s),
        _ => None,
    }
}

/// The color that a value spells; three components get an alpha of one.
pub open spec fn color_value(j: JsonView) -> Option<Seq<ScalarView>> {
    match j {
        JsonView::String(s) => match crate::value::color_of(s, ScalarView::Whole(1), false) {
            Ok(c) => Some(c),
            Err(_) => None,
        },
        _ => None,
    }
}

/// The 2-component vector setting under `key`.
pub open spec fn vec2_setting(
    o: Seq<(Seq<char>, JsonView)>,
    key: Seq<char>,
    default: Seq<ScalarView>,
) -> SettingView<Seq<ScalarView>> {
    setting_of(crate::json::member(o, key), default, |j: JsonView| vec2_value(j))
}

/// The 3-component vector setting under `key`.
pub open spec fn vec3_setting(
    o: Seq<(Seq<char>, JsonView)>,
    key: Seq<char>,
    default: Seq<ScalarView>,
) -> SettingView<Seq<ScalarView>> {
    setting_of(crate::json::member(o, key), default, |j: JsonView| vec3_value(j))
}

/// The color setting under `key`.
pub open spec fn color_setting(
    o: Seq<(Seq<char>, JsonView)>,
    key: Seq<char>,
    default: Seq<ScalarView>,
) -> SettingView<Seq<ScalarView>> {
    setting_of(crate::json::member(o, key), default, |j: JsonView| color_value(j))
}

/// User bool field with the given default.
pub fn user_bool(map: &Members, key: &str, default: bool) -> (r: UserSetting<bool>)
    ensures
        setting(r) == bool_setting(map@, key@, default),
{
    read_user(map, key, default, coerce_bool)
}

/// User float field with the given default.
pub fn user_f32(map: &Members, key: &str, default: Scalar) -> (r: UserSetting<Scalar>)
    ensures
        setting(r) == scalar_setting(map@, key@, default@),
{
    read_user(map, key, default, coerce_f64)
}

/// User int field with the given default.
pub fn user_i64(map: &Members, key: &str, default: i64) -> (r: UserSetting<i64>)
    ensures
        setting(r) == int_setting(map@, key@, default),
{
    read_user(map, key, default, coerce_i64)
}

/// The text of a string value.
fn read_text(v: &Json) -> (o: Option<String>)
    ensures
        match o {
            Some(s) => crate::json::text_of(Some(v@)) == Some(s@),
            None => crate::json::text_of(Some(v@)) is None,
        },
{
    match v {
        Json::String(s) => Some(s.clone()),
        _ => None,
    }
}

/// User string field with the given default (non-strings keep the default).
pub fn user_string(map: &Members, key: &str, default: &str) -> (r: UserSetting<String>)
    ensures
        setting(r) == text_setting(map@, key@, default@),
{
    read_user(map, key, default.to_owned(), read_text)
}

/// The 2-component vector that a value spells.
fn read_vec2(v: &Json) -> (o: Option<Vec2>)
    ensures
        match o {
            Some(x) => vec2_value(v@) == Some(crate::number::scalars(x@)),
            None => vec2_value(v@) is None,
        },
{
    match v {
        Json::String(s) => parse_vec2(s.as_str()),
        _ => None,
    }
}

/// User vec2 field (`"x y"`) with the given default.
pub fn user_vec2(map: &Members, key: &str, default: Vec2) -> (r: UserSetting<Vec2>)
    ensures
        setting(r) == vec2_setting(map@, key@, crate::number::scalars(default@)),
{
    read_user(map, key, default, read_vec2)
}

/// The 3-component vector that a value spells.
fn read_vec3(v: &Json) -> (o: Option<Vec3>)
    ensures
        match o {
            Some(x) => vec3_value(v@) == Some(crate::number::scalars(x@)),
            None => vec3_value(v@) is None,
        },
{
    match v {
        Json::String(s) => parse_vec3(s.as_str()),
        _ => None,
    }
}

/// User vec3 field (`"x y z"`) with the given default.
pub fn user_vec3(map: &Members, key: &str, default: Vec3) -> (r: UserSetting<Vec3>)
    ensures
        setting(r) == vec3_setting(map@, key@, crate::number::scalars(default@)),
{
    read_user(map, key, default, read_vec3)
}

/// The color that a value spells.
fn read_color(v: &Json) -> (o: Option<Color>)
    ensures
        match o {
            Some(x) => color_value(v@) == Some(crate::number::scalars(x@)),
            None => color_value(v@) is None,
        },
{
    match v {
        Json::String(s) => match parse_color(s.as_str(), one(), false) {
            Ok(c) => Some(c),
            Err(_) => None,
        },
        _ => None,
    }
}

/// User color field with the given default: components are integers from 0 to
/// 255 unless the string carries a point.
pub fn user_color(map: &Members, key: &str, default: Color) -> (r: UserSetting<Color>)
    ensures
        setting(r) == color_setting(map@, key@, crate::number::scalars(default@)),
{
    read_user(map, key, default, read_color)
}

/// Uniform-constant names and their settings.
pub type ConstantValues = Table<UserSetting<DynamicValue>>;

/// What a map of constants holds.
pub open spec fn constants(t: ConstantValues) -> Map<Seq<char>, SettingView<DynamicView>> {
    t@.map_values(|us: UserSetting<DynamicValue>| setting(us))
}

/// The constant that a value spells.
pub open spec fn constant_of(v: JsonView) -> SettingView<DynamicView> {
    setting_of(
        Some(v),
        DynamicView::Null,
        |j: JsonView| Some(crate::value::decoded(j, false)),
    )
}

/// The constants of the members of `o` other than those in `skip`: the last
/// one of a name standing.
pub open spec fn constants_of(o: Seq<(Seq<char>, JsonView)>, skip: Set<Seq<char>>) -> Map<
    Seq<char>,
    SettingView<DynamicView>,
> {
    Map::new(
        |k: Seq<char>| crate::json::member(o, k) is Some && !skip.contains(k),
        |k: Seq<char>| constant_of(crate::json::member(o, k)->0),
    )
}

/// Read one constant.
pub fn read_constant(raw: &Json) -> (r: UserSetting<DynamicValue>)
    ensures
        setting(r) == constant_of(raw@),
{
    read_raw(Some(raw), DynamicValue::Null, decode_constant)
}

/// Decode the literal of a constant.
fn decode_constant(v: &Json) -> (o: Option<DynamicValue>)
    ensures
        o is Some,
        o->0@ == crate::value::decoded(v@, false),
{
    Some(DynamicValue::decode(v, false))
}

/// Inserting a constant changes its view and no other.
pub proof fn lemma_constants_insert(
    m: Map<Seq<char>, UserSetting<DynamicValue>>,
    k: Seq<char>,
    us: UserSetting<DynamicValue>,
)
    ensures
        m.insert(k, us).map_values(|us: UserSetting<DynamicValue>| setting(us)) == m.map_values(
            |us: UserSetting<DynamicValue>| setting(us),
        ).insert(k, setting(us)),
{
    assert(m.insert(k, us).map_values(|us: UserSetting<DynamicValue>| setting(us)) =~= m.map_values(
        |us: UserSetting<DynamicValue>| setting(us),
    ).insert(k, setting(us)));
}

/// Read the constants of an object, but for the members named in `skip`.
pub fn read_constants(obj: &Members, skip: &Vec<String>) -> (out: ConstantValues)
    ensures
        out.wf(),
        constants(out) == constants_of(obj@, crate::text::texts(skip@).to_set()),
{
    let ghost all = obj@;
    let ghost left_out = crate::text::texts(skip@).to_set();
    proof {
        crate::json::lemma_object_view(*obj);
    }
    let mut out: ConstantValues = Table::new();
    let mut i: usize = 0;
    assert(constants(out) =~= constants_of(all.take(0), left_out));
    while i < obj.entries.len()
        invariant
            i <= obj.entries@.len(),
            all == obj@,
            all.len() == obj.entries@.len(),
            left_out == crate::text::texts(skip@).to_set(),
            forall|i: int|
                0 <= i < all.len() ==> (#[trigger] all[i]).0 == obj.entries@[i].0@ && all[i].1
                    == obj.entries@[i].1@,
            out.wf(),
            constants(out) == constants_of(all.take(i as int), left_out),
        decreases obj.entries@.len() - i,
    {
        let ghost head = all.take(i as int + 1);
        let ghost was = constants_of(all.take(i as int), left_out);
        let name = obj.entries[i].0.as_str();
        assert(head.drop_last() == all.take(i as int));
        assert(head.last() == all[i as int]);
        if listed(skip, name) {
            assert(constants_of(head, left_out) =~= was);
        } else {
            let us = read_constant(&obj.entries[i].1);
            proof {
                lemma_constants_insert(out@, name@, us);
                assert(constants_of(head, left_out) =~= was.insert(name@, setting(us)));
            }
            out.insert(name, us);
        }
        i = i + 1;
    }
    assert(all.take(all.len() as int) == all);
    out
}

/// Whether `name` is in the list.
fn listed(list: &Vec<String>, name: &str) -> (r: bool)
    ensures
        r == crate::text::texts(list@).to_set().contains(name@),
{
    let ghost all = crate::text::texts(list@);
    let mut i: usize = 0;
    while i < list.len()
        invariant
            i <= list@.len(),
            all == crate::text::texts(list@),
            forall|k: int| 0 <= k < i ==> all[k] != name@,
        decreases list@.len() - i,
    {
        assert(all[i as int] == list@[i as int]@);
        if crate::text::same(list[i].as_str(), name) {
            assert(all.contains(name@));
            return true;
        }
        i = i + 1;
    }
    assert(!all.contains(name@));
    false
}

/// The constants that an optional value spells: those of an object, none for
/// anything else.
pub open spec fn constant_map(v: Option<JsonView>) -> Map<Seq<char>, SettingView<DynamicView>> {
    match v {
        Some(JsonView::Object(o)) => constants_of(o, Set::empty()),
        _ => Map::empty(),
    }
}

/// Parse a `constantshadervalues` object; anything else is empty.
pub fn parse_constant_values(value: Option<&Json>) -> (out: ConstantValues)
    ensures
        out.wf(),
        constants(out) == constant_map(crate::json::shown(value)),
{
    match value {
        Some(Json::Object(obj)) => {
            let skip: Vec<String> = Vec::new();
            proof {
                crate::json::lemma_object_view(*obj);
                assert(crate::text::texts(skip@).to_set() =~= Set::<Seq<char>>::empty());
            }
            read_constants(obj, &skip)
        },
        _ => {
            let out: ConstantValues = Table::new();
            assert(constants(out) =~= Map::<Seq<char>, SettingView<DynamicView>>::empty());
            out
        },
    }
}

} // verus!
