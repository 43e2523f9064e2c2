//! Scene scripts: which fields they drive, what they see of the scene, and
//! what their output changes.
//!
//! The script engine runs elsewhere. This module says which scripts to load,
//! keeps the layer list that scripts read, and turns an engine's output into
//! typed updates of the live objects.
use vstd::prelude::*;

use crate::json::{decimal_int_text, Json, JsonView, Members};
use crate::number::{Scalar, ScalarView};
use crate::object::{Object, ObjectKind, ObjectKindView, ObjectView};
use crate::order::render_order;
use crate::property::{PropertyValue, PropertyView};
use crate::resolve::SceneModel;

use crate::text::same;
use crate::user::{ScriptBinding, ScriptView};
use crate::value::{flag, one, zero, Color, Vec2, Vec3};

verus! {

/// Which live value a script drives.
#[derive(Clone, Copy, Debug, PartialEq, Eq, Structural)]
pub enum PropTarget {
    /// Object alpha.
    Alpha,
    /// Object brightness.
    Brightness,
    /// Object color.
    Color,
    /// Object visibility.
    Visible,
    /// Text content.
    Text,
    /// Layer translation.
    Origin,
    /// Layer scale.
    Scale,
    /// Layer rotation.
    Angles,
}

/// The target that a field name stands for.
pub open spec fn target_of(name: Seq<char>) -> Option<PropTarget> {
    if name == "alpha"@ {
        Some(PropTarget::Alpha)
    } else if name == "brightness"@ {
        Some(PropTarget::Brightness)
    } else if name == "color"@ {
        Some(PropTarget::Color)
    } else if name == "visible"@ {
        Some(PropTarget::Visible)
    } else if name == "text"@ {
        Some(PropTarget::Text)
    } else if name == "origin"@ {
        Some(PropTarget::Origin)
    } else if name == "scale"@ {
        Some(PropTarget::Scale)
    } else if name == "angles"@ {
        Some(PropTarget::Angles)
    } else {
        None
    }
}

impl PropTarget {
    /// Map a field name to a target, if scripts drive it.
    pub fn from_field(name: &str) -> (r: Option<PropTarget>)
        ensures
            r == target_of(name@),
    {
        if same(name, "alpha") {
            Some(PropTarget::Alpha)
        } else if same(name, "brightness") {
            Some(PropTarget::Brightness)
        } else if same(name, "color") {
            Some(PropTarget::Color)
        } else if same(name, "visible") {
            Some(PropTarget::Visible)
        } else if same(name, "text") {
            Some(PropTarget::Text)
        } else if same(name, "origin") {
            Some(PropTarget::Origin)
        } else if same(name, "scale") {
            Some(PropTarget::Scale)
        } else if same(name, "angles") {
            Some(PropTarget::Angles)
        } else {
            None
        }
    }
}

/// A value that scripts read and return.
#[derive(Debug)]
pub enum ScriptValue {
    /// A flag.
    Bool(bool),
    /// An integer.
    Int(i64),
    /// A floating-point number.
    Float(Scalar),
    /// A text.
    Str(String),
    /// Two numbers.
    Vec2(Vec2),
    /// Three numbers.
    Vec3(Vec3),
    /// Four numbers.
    Vec4(Color),
    /// Anything else.
    Other,
}

/// What a [`ScriptValue`] holds.
pub enum ScriptValueView {
    /// A flag.
    Bool(bool),
    /// An integer.
    Int(i64),
    /// A floating-point number.
    Float(ScalarView),
    /// A text.
    Str(Seq<char>),
    /// Two numbers.
    Vec2(Seq<ScalarView>),
    /// Three numbers.
    Vec3(Seq<ScalarView>),
    /// Four numbers.
    Vec4(Seq<ScalarView>),
    /// Anything else.
    Other,
}

impl View for ScriptValue {
    type V = ScriptValueView;

    open spec fn view(&self) -> ScriptValueView {
        match self {
            ScriptValue::Bool(b) => ScriptValueView::Bool(*b),
            ScriptValue::Int(i) => ScriptValueView::Int(*i),
            ScriptValue::Float(f) => ScriptValueView::Float(f@),
            ScriptValue::Str(s) => ScriptValueView::Str(s@),
            ScriptValue::Vec2(v) => ScriptValueView::Vec2(crate::number::scalars(v@)),
            ScriptValue::Vec3(v) => ScriptValueView::Vec3(crate::number::scalars(v@)),
            ScriptValue::Vec4(v) => ScriptValueView::Vec4(crate::number::scalars(v@)),
            ScriptValue::Other => ScriptValueView::Other,
        }
    }
}

/// A script value as one number.
pub open spec fn script_scalar(v: ScriptValueView) -> Option<ScalarView> {
    match v {
        ScriptValueView::Float(f) => Some(f),
        ScriptValueView::Int(i) => Some(ScalarView::Whole(i)),
        ScriptValueView::Bool(b) => Some(crate::value::flag_scalar(b)),
        _ => None,
    }
}

/// A script value as a vector; one number stands for all three components.
pub open spec fn script_vec3(v: ScriptValueView) -> Option<Seq<ScalarView>> {
    match v {
        ScriptValueView::Vec3(a) => Some(a),
        ScriptValueView::Float(f) => Some(seq![f, f, f]),
        _ => None,
    }
}

/// A script value as red, green and blue; one number stands for all three.
pub open spec fn script_rgb(v: ScriptValueView) -> Option<Seq<ScalarView>> {
    match v {
        ScriptValueView::Vec3(c) => Some(c),
        ScriptValueView::Vec4(c) => Some(seq![c[0], c[1], c[2]]),
        ScriptValueView::Vec2(c) => Some(seq![c[0], c[1], ScalarView::Whole(0)]),
        ScriptValueView::Float(f) => Some(seq![f, f, f]),
        _ => None,
    }
}

/// What an optional vector holds.
pub open spec fn opt_vec3(v: Option<Vec3>) -> Option<Seq<ScalarView>> {
    match v {
        Some(a) => Some(crate::number::scalars(a@)),
        None => None,
    }
}

/// What an optional number holds.
pub open spec fn opt_scalar(v: Option<Scalar>) -> Option<ScalarView> {
    match v {
        Some(a) => Some(a@),
        None => None,
    }
}

/// A copy of a vector.
pub fn copy_vec3(v: &Vec3) -> (r: Vec3)
    ensures
        crate::number::scalars(r@) == crate::number::scalars(v@),
{
    let r = [v[0].copy(), v[1].copy(), v[2].copy()];
    assert(crate::number::scalars(r@) =~= crate::number::scalars(v@));
    r
}

/// One number three times.
fn splat(f: &Scalar) -> (r: Vec3)
    ensures
        crate::number::scalars(r@) == seq![f@, f@, f@],
{
    let r = [f.copy(), f.copy(), f.copy()];
    assert(crate::number::scalars(r@) =~= seq![f@, f@, f@]);
    r
}

/// Coerce a script value to a number.
pub fn as_f32(v: &ScriptValue) -> (r: Option<Scalar>)
    ensures
        opt_scalar(r) == script_scalar(v@),
{
    match v {
        ScriptValue::Float(f) => Some(f.copy()),
        ScriptValue::Int(i) => Some(Scalar::Whole(*i)),
        ScriptValue::Bool(b) => Some(flag(*b)),
        _ => None,
    }
}

/// Coerce a script value to a vector.
pub fn as_vec3(v: &ScriptValue) -> (r: Option<Vec3>)
    ensures
        opt_vec3(r) == script_vec3(v@),
{
    match v {
        ScriptValue::Vec3(a) => Some(copy_vec3(a)),
        ScriptValue::Float(f) => Some(splat(f)),
        _ => None,
    }
}

/// Coerce a script value to red, green and blue.
pub fn as_rgb(v: &ScriptValue) -> (r: Option<Vec3>)
    ensures
        opt_vec3(r) == script_rgb(v@),
{
    match v {
        ScriptValue::Vec3(c) => Some(copy_vec3(c)),
        ScriptValue::Vec4(c) => {
            let r = [c[0].copy(), c[1].copy(), c[2].copy()];
            assert(crate::number::scalars(r@) =~= script_rgb(v@)->0);
            Some(r)
        },
        ScriptValue::Vec2(c) => {
            let r = [c[0].copy(), c[1].copy(), zero()];
            assert(crate::number::scalars(r@) =~= script_rgb(v@)->0);
            Some(r)
        },
        ScriptValue::Float(f) => Some(splat(f)),
        _ => None,
    }
}

/// The first three channels of a color.
pub open spec fn rgb(c: Seq<ScalarView>) -> Seq<ScalarView> {
    seq![c[0], c[1], c[2]]
}

/// The first three channels of a color.
fn rgb_of(c: &Color) -> (r: Vec3)
    ensures
        crate::number::scalars(r@) == rgb(crate::number::scalars(c@)),
{
    let r = [c[0].copy(), c[1].copy(), c[2].copy()];
    assert(crate::number::scalars(r@) =~= rgb(crate::number::scalars(c@)));
    r
}

/// A property as scripts read it: options and texts as texts, sliders as
/// numbers, colors as red, green and blue.
pub open spec fn property_script(v: PropertyView) -> ScriptValueView {
    match v {
        PropertyView::Bool(b) => ScriptValueView::Bool(b),
        PropertyView::Number { double, reading: _ } => ScriptValueView::Float(
            ScalarView::Double(double),
        ),
        PropertyView::Color(c) => ScriptValueView::Vec3(
            seq![
                ScalarView::Single(c[0].single),
                ScalarView::Single(c[1].single),
                ScalarView::Single(c[2].single),
            ],
        ),
        PropertyView::Combo(r) => ScriptValueView::Str(r.text),
        PropertyView::Text(r) => ScriptValueView::Str(r.text),
    }
}

/// A property as scripts read it.
pub fn prop_to_script(v: &PropertyValue) -> (r: ScriptValue)
    ensures
        r@ == property_script(v@),
{
    match v {
        PropertyValue::Bool(b) => ScriptValue::Bool(*b),
        PropertyValue::Number { double, reading: _ } => ScriptValue::Float(Scalar::Double(*double)),
        PropertyValue::Color(c) => {
            let a = [
                Scalar::Single(c[0].single),
                Scalar::Single(c[1].single),
                Scalar::Single(c[2].single),
            ];
            assert(ScriptValueView::Vec3(crate::number::scalars(a@)) == property_script(v@)) by {
                assert(crate::number::scalars(a@) =~= property_script(v@)->Vec3_0);
            }
            ScriptValue::Vec3(a)
        },
        PropertyValue::Combo(r) => ScriptValue::Str(r.text.clone()),
        PropertyValue::Text(r) => ScriptValue::Str(r.text.clone()),
    }
}

/// A change of a live value.
#[derive(Debug)]
pub struct PropUpdate {
    /// Target object.
    pub object_id: i64,
    /// Which live value to write.
    pub target: PropTarget,
    /// The new value.
    pub value: ScriptValue,
}

/// What a [`PropUpdate`] holds.
pub struct UpdateView {
    /// Target object.
    pub object_id: i64,
    /// Which live value to write.
    pub target: PropTarget,
    /// The new value.
    pub value: ScriptValueView,
}

impl View for PropUpdate {
    type V = UpdateView;

    open spec fn view(&self) -> UpdateView {
        UpdateView { object_id: self.object_id, target: self.target, value: self.value@ }
    }
}

/// What a list of updates holds.
pub open spec fn update_views(v: Seq<PropUpdate>) -> Seq<UpdateView> {
    Seq::new(v.len(), |i: int| v[i]@)
}

/// The camera changes that the scripts of a frame asked for. Each field is
/// independent: one that no call named stays as it is.
#[derive(Debug)]
pub struct CameraOp {
    /// New eye position.
    pub eye: Option<Vec3>,
    /// New point looked at.
    pub center: Option<Vec3>,
    /// New up direction.
    pub up: Option<Vec3>,
    /// New field of view.
    pub fov: Option<Scalar>,
}

/// What a [`CameraOp`] holds.
pub struct CameraOpView {
    /// New eye position.
    pub eye: Option<Seq<ScalarView>>,
    /// New point looked at.
    pub center: Option<Seq<ScalarView>>,
    /// New up direction.
    pub up: Option<Seq<ScalarView>>,
    /// New field of view.
    pub fov: Option<ScalarView>,
}

impl View for CameraOp {
    type V = CameraOpView;

    open spec fn view(&self) -> CameraOpView {
        CameraOpView {
            eye: opt_vec3(self.eye),
            center: opt_vec3(self.center),
            up: opt_vec3(self.up),
            fov: opt_scalar(self.fov),
        }
    }
}

/// What an optional camera change holds.
pub open spec fn opt_camera(c: Option<CameraOp>) -> Option<CameraOpView> {
    match c {
        Some(c) => Some(c@),
        None => None,
    }
}

/// The newer of two values, where there is one.
pub open spec fn newer<T>(old_value: Option<T>, new_value: Option<T>) -> Option<T> {
    match new_value {
        Some(_) => new_value,
        None => old_value,
    }
}

/// A pending camera change with a further one merged in: the further one wins
/// in each field that it names.
pub open spec fn merged_camera(slot: Option<CameraOpView>, op: CameraOpView) -> CameraOpView {
    match slot {
        None => op,
        Some(c) => CameraOpView {
            eye: newer(c.eye, op.eye),
            center: newer(c.center, op.center),
            up: newer(c.up, op.up),
            fov: newer(c.fov, op.fov),
        },
    }
}

/// Merge one camera call into the pending change, the last one winning in each
/// field.
pub fn merge_camera(
    slot: &mut Option<CameraOp>,
    eye: Option<Vec3>,
    center: Option<Vec3>,
    up: Option<Vec3>,
    fov: Option<Scalar>,
)
    ensures
        opt_camera(*final(slot)) == Some(
            merged_camera(
                opt_camera(*old(slot)),
                CameraOpView {
                    eye: opt_vec3(eye),
                    center: opt_vec3(center),
                    up: opt_vec3(up),
                    fov: opt_scalar(fov),
                },
            ),
        ),
{
    let pending = slot.take();
    let merged = match pending {
        None => CameraOp { eye, center, up, fov },
        Some(c) => CameraOp {
            eye: if eye.is_some() {
                eye
            } else {
                c.eye
            },
            center: if center.is_some() {
                center
            } else {
                c.center
            },
            up: if up.is_some() {
                up
            } else {
                c.up
            },
            fov: if fov.is_some() {
                fov
            } else {
                c.fov
            },
        },
    };
    *slot = Some(merged);
}

/// Two camera calls of one frame act like one after the other: merging is
/// associative.
pub proof fn law_camera_merge_associative(
    slot: Option<CameraOpView>,
    a: CameraOpView,
    b: CameraOpView,
)
    ensures
        merged_camera(Some(merged_camera(slot, a)), b) == merged_camera(
            slot,
            merged_camera(Some(a), b),
        ),
{
}

/// What scripts see of one layer.
#[derive(Debug)]
pub struct LayerState {
    /// Object id.
    pub id: i64,
    /// Name.
    pub name: String,
    /// Parent object.
    pub parent: Option<i64>,
    /// Translation.
    pub origin: Option<Vec3>,
    /// Scale.
    pub scale: Option<Vec3>,
    /// Rotation.
    pub angles: Option<Vec3>,
    /// Visibility.
    pub visible: Option<bool>,
    /// Alpha.
    pub alpha: Option<Scalar>,
    /// Red, green and blue.
    pub color: Option<Vec3>,
    /// Text size.
    pub point_size: Option<Scalar>,
    /// Text content.
    pub text: Option<String>,
}

/// What a [`LayerState`] holds.
pub struct LayerView {
    /// Object id.
    pub id: i64,
    /// Name.
    pub name: Seq<char>,
    /// Parent object.
    pub parent: Option<i64>,
    /// Translation.
    pub origin: Option<Seq<ScalarView>>,
    /// Scale.
    pub scale: Option<Seq<ScalarView>>,
    /// Rotation.
    pub angles: Option<Seq<ScalarView>>,
    /// Visibility.
    pub visible: Option<bool>,
    /// Alpha.
    pub alpha: Option<ScalarView>,
    /// Red, green and blue.
    pub color: Option<Seq<ScalarView>>,
    /// Text size.
    pub point_size: Option<ScalarView>,
    /// Text content.
    pub text: Option<Seq<char>>,
}

impl View for LayerState {
    type V = LayerView;

    open spec fn view(&self) -> LayerView {
        LayerView {
            id: self.id,
            name: self.name@,
            parent: self.parent,
            origin: opt_vec3(self.origin),
            scale: opt_vec3(self.scale),
            angles: opt_vec3(self.angles),
            visible: self.visible,
            alpha: opt_scalar(self.alpha),
            color: opt_vec3(self.color),
            point_size: opt_scalar(self.point_size),
            text: crate::fields::opt_text(self.text),
        }
    }
}

/// What a list of layers holds.
pub open spec fn layer_views(v: Seq<LayerState>) -> Seq<LayerView> {
    Seq::new(v.len(), |i: int| v[i]@)
}

/// What scripts see of an object.
pub open spec fn layer_of(o: ObjectView) -> LayerView {
    let base = LayerView {
        id: o.base.id,
        name: o.base.name,
        parent: o.base.parent,
        origin: Some(o.base.origin.value),
        scale: Some(o.base.scale.value),
        angles: Some(o.base.angles.value),
        visible: Some(o.base.visible.value),
        alpha: None,
        color: None,
        point_size: None,
        text: None,
    };
    match o.kind {
        ObjectKindView::Image(img) => LayerView {
            color: Some(rgb(img.color.value)),
            alpha: Some(img.alpha.value),
            visible: Some(img.visible.value && o.base.visible.value),
            ..base
        },
        ObjectKindView::Text(txt) => LayerView {
            color: Some(rgb(txt.color.value)),
            alpha: Some(txt.alpha.value),
            visible: Some(txt.visible.value && o.base.visible.value),
            point_size: Some(txt.pointsize.value),
            text: Some(txt.text.value),
            ..base
        },
        _ => base,
    }
}

/// Snapshot what scripts see of an object.
pub fn layer_state(object: &Object) -> (r: LayerState)
    ensures
        r@ == layer_of(object@),
{
    let base = &object.base;
    let mut ls = LayerState {
        id: base.id,
        name: base.name.clone(),
        parent: base.parent,
        origin: Some(copy_vec3(&base.origin.value)),
        scale: Some(copy_vec3(&base.scale.value)),
        angles: Some(copy_vec3(&base.angles.value)),
        visible: Some(base.visible.value),
        alpha: None,
        color: None,
        point_size: None,
        text: None,
    };
    match &object.kind {
        ObjectKind::Image(img) => {
            ls.color = Some(rgb_of(&img.color.value));
            ls.alpha = Some(img.alpha.value.copy());
            ls.visible = Some(img.visible.value && base.visible.value);
        },
        ObjectKind::Text(txt) => {
            ls.color = Some(rgb_of(&txt.color.value));
            ls.alpha = Some(txt.alpha.value.copy());
            ls.visible = Some(txt.visible.value && base.visible.value);
            ls.point_size = Some(txt.pointsize.value.copy());
            ls.text = Some(txt.text.value.clone());
        },
        _ => {},
    }
    ls
}

/// One property script bound to a field of an object.
#[derive(Debug)]
pub struct ScriptedProp {
    /// `"<field>_<objectId>"`, the name of the script's module.
    pub key: String,
    /// The owning object.
    pub object_id: i64,
    /// The live value it drives.
    pub target: PropTarget,
}

/// What a [`ScriptedProp`] holds.
pub struct PropView {
    /// The name of the script's module.
    pub key: Seq<char>,
    /// The owning object.
    pub object_id: i64,
    /// The live value it drives.
    pub target: PropTarget,
}

impl View for ScriptedProp {
    type V = PropView;

    open spec fn view(&self) -> PropView {
        PropView { key: self.key@, object_id: self.object_id, target: self.target }
    }
}

/// What a list of scripted fields holds.
pub open spec fn prop_views(v: Seq<ScriptedProp>) -> Seq<PropView> {
    Seq::new(v.len(), |i: int| v[i]@)
}

/// A scripted field before its script is loaded.
#[derive(Debug)]
pub struct Pending {
    /// The field.
    pub prop: ScriptedProp,
    /// Script source.
    pub source: String,
    /// The value the field starts with.
    pub initial: ScriptValue,
    /// The script's own properties, flattened.
    pub script_props: Json,
}

/// What a [`Pending`] holds.
pub struct PendingView {
    /// The field.
    pub prop: PropView,
    /// Script source.
    pub source: Seq<char>,
    /// The value the field starts with.
    pub initial: ScriptValueView,
    /// The script's own properties.
    pub script_props: JsonView,
}

impl View for Pending {
    type V = PendingView;

    open spec fn view(&self) -> PendingView {
        PendingView {
            prop: self.prop@,
            source: self.source@,
            initial: self.initial@,
            script_props: self.script_props@,
        }
    }
}

/// What a list of pending scripts holds.
pub open spec fn pending_views(v: Seq<Pending>) -> Seq<PendingView> {
    Seq::new(v.len(), |i: int| v[i]@)
}

/// A script property as the script reads it: an object gives its `value`
/// member, if it has one.
pub open spec fn flat_value(v: JsonView) -> JsonView {
    match v {
        JsonView::Object(o) => crate::fields::value_or(crate::json::member(o, "value"@), v),
        _ => v,
    }
}

/// The properties of a script, flattened.
pub open spec fn flattened(o: Seq<(Seq<char>, JsonView)>) -> JsonView {
    JsonView::Object(Seq::new(o.len(), |i: int| (o[i].0, flat_value(o[i].1))))
}

/// Flatten the properties of a script to the values it reads.
pub fn flatten_props(props: &Members) -> (r: Json)
    ensures
        r@ == flattened(props@),
{
    proof {
        crate::json::lemma_object_view(*props);
    }
    let mut entries: Vec<(String, Json)> = Vec::new();
    let mut i: usize = 0;
    while i < props.entries.len()
        invariant
            i <= props.entries@.len(),
            entries@.len() == i,
            forall|k: int|
                0 <= k < i ==> (#[trigger] entries@[k]).0@ == props.entries@[k].0@ && entries@[k].1@
                    == flat_value(props.entries@[k].1@),
        decreases props.entries@.len() - i,
    {
        let raw = &props.entries[i].1;
        let value = match raw {
            Json::Object(o) => {
                proof {
                    crate::json::lemma_object_view(*o);
                }
                match o.get("value") {
                    Some(v) => v.copy(),
                    None => raw.copy(),
                }
            },
            _ => raw.copy(),
        };
        entries.push((props.entries[i].0.clone(), value));
        i = i + 1;
    }
    let m = Members { entries };
    proof {
        crate::json::lemma_object_view(m);
        assert(m@ =~= flattened(props@)->Object_0);
    }
    Json::Object(m)
}

/// The script on a field of an object, staged; nothing when the field has
/// none.
#[verifier::opaque]
pub open spec fn staged(
    id: i64,
    field: Seq<char>,
    script: Option<ScriptView>,
    initial: ScriptValueView,
) -> Seq<PendingView> {
    match (target_of(field), script) {
        (Some(target), Some(b)) => seq![
            PendingView {
                prop: PropView {
                    key: field.push('_') + crate::json::decimal_int(id as int),
                    object_id: id,
                    target,
                },
                source: b.source,
                initial,
                script_props: flattened(b.properties),
            },
        ],
        _ => Seq::empty(),
    }
}

/// Stage the script on a field, if it has one that drives a live value.
pub fn collect(
    out: &mut Vec<Pending>,
    id: i64,
    field: &str,
    binding: &Option<ScriptBinding>,
    initial: ScriptValue,
)
    ensures
        pending_views(final(out)@) == pending_views(old(out)@) + staged(
            id,
            field@,
            crate::user::script_view(*binding),
            initial@,
        ),
{
    let ghost before = pending_views(out@);
    reveal(staged);
    match (PropTarget::from_field(field), binding) {
        (Some(target), Some(b)) => {
            let mut key = field.to_owned();
            key.push('_');
            let number = decimal_int_text(id);
            key.append(number.as_str());
            let p = Pending {
                prop: ScriptedProp { key, object_id: id, target },
                source: b.source.clone(),
                initial,
                script_props: flatten_props(&b.properties),
            };
            let ghost shown = p@;
            out.push(p);
            assert(pending_views(out@) =~= before.push(shown));
            assert(before.push(shown) =~= before + staged(
                id,
                field@,
                crate::user::script_view(*binding),
                initial@,
            ));
        },
        _ => {
            assert(before =~= before + staged(
                id,
                field@,
                crate::user::script_view(*binding),
                initial@,
            ));
        },
    }
}

/// The scripts on the fields of an object: alpha, brightness, color and
/// visibility of an image; text, alpha, color and visibility of a text.
pub open spec fn object_scripts(o: ObjectView) -> Seq<PendingView> {
    let id = o.base.id;
    match o.kind {
        ObjectKindView::Image(img) => staged(
            id,
            "alpha"@,
            img.alpha.script,
            ScriptValueView::Float(img.alpha.value),
        ) + staged(
            id,
            "brightness"@,
            img.brightness.script,
            ScriptValueView::Float(img.brightness.value),
        ) + staged(
            id,
            "color"@,
            img.color.script,
            ScriptValueView::Vec3(rgb(img.color.value)),
        ) + staged(
            id,
            "visible"@,
            img.visible.script,
            ScriptValueView::Bool(img.visible.value),
        ),
        ObjectKindView::Text(txt) => staged(
            id,
            "text"@,
            txt.text.script,
            ScriptValueView::Str(txt.text.value),
        ) + staged(
            id,
            "alpha"@,
            txt.alpha.script,
            ScriptValueView::Float(txt.alpha.value),
        ) + staged(
            id,
            "color"@,
            txt.color.script,
            ScriptValueView::Vec3(rgb(txt.color.value)),
        ) + staged(
            id,
            "visible"@,
            txt.visible.script,
            ScriptValueView::Bool(txt.visible.value),
        ),
        _ => Seq::empty(),
    }
}

/// Stage the scripts on the fields of an object.
fn collect_object(out: &mut Vec<Pending>, object: &Object)
    ensures
        pending_views(final(out)@) == pending_views(old(out)@) + object_scripts(object@),
{
    let ghost before = pending_views(out@);
    let id = object.base.id;
    match &object.kind {
        ObjectKind::Image(img) => {
            collect(out, id, "alpha", &img.alpha.script, ScriptValue::Float(img.alpha.value.copy()));
            collect(
                out,
                id,
                "brightness",
                &img.brightness.script,
                ScriptValue::Float(img.brightness.value.copy()),
            );
            collect(out, id, "color", &img.color.script, ScriptValue::Vec3(rgb_of(&img.color.value)));
            collect(out, id, "visible", &img.visible.script, ScriptValue::Bool(img.visible.value));
        },
        ObjectKind::Text(txt) => {
            collect(out, id, "text", &txt.text.script, ScriptValue::Str(txt.text.value.clone()));
            collect(out, id, "alpha", &txt.alpha.script, ScriptValue::Float(txt.alpha.value.copy()));
            collect(out, id, "color", &txt.color.script, ScriptValue::Vec3(rgb_of(&txt.color.value)));
            collect(out, id, "visible", &txt.visible.script, ScriptValue::Bool(txt.visible.value));
        },
        _ => {},
    }
    assert(pending_views(out@) =~= before + object_scripts(object@));
}

/// The scripts on the first `n` objects of a render order.
pub open spec fn ordered_scripts(objects: Seq<ObjectView>, order: Seq<usize>, n: nat) -> Seq<
    PendingView,
>
    decreases n,
{
    if n == 0 {
        Seq::empty()
    } else {
        ordered_scripts(objects, order, (n - 1) as nat) + object_scripts(
            objects[order[n - 1] as int],
        )
    }
}

/// The sort orders of a list of objects.
pub open spec fn sort_orders(objects: Seq<ObjectView>) -> Seq<i64> {
    Seq::new(objects.len(), |i: int| objects[i].base.sortorder)
}

/// The scripts and layers of a scene, in render order.
#[derive(Debug)]
pub struct Staged {
    /// The scripts to load.
    pub pending: Vec<Pending>,
    /// Every object as a layer.
    pub layers: Vec<LayerState>,
}

/// The order in which the objects of a scene draw.
pub fn scene_order(model: &SceneModel) -> (r: Vec<usize>)
    ensures
        crate::order::is_render_order(
            r@,
            sort_orders(model.scene@.objects),
            model.scene.general.customsortorder,
            model.scene@.objects.len(),
        ),
{
    let mut orders: Vec<i64> = Vec::new();
    let mut i: usize = 0;
    while i < model.scene.objects.len()
        invariant
            i <= model.scene.objects@.len(),
            orders@.len() == i,
            forall|k: int|
                0 <= k < i ==> #[trigger] orders@[k] == model.scene.objects@[k].base.sortorder,
        decreases model.scene.objects@.len() - i,
    {
        orders.push(model.scene.objects[i].base.sortorder);
        i = i + 1;
    }
    assert(orders@ =~= sort_orders(model.scene@.objects));
    render_order(&orders, model.scene.general.customsortorder)
}

/// Collect the scripts and layers of a scene in render order.
pub fn stage_scripts(model: &SceneModel) -> (r: Staged)
    ensures
        exists|order: Seq<usize>|
            crate::order::is_render_order(
                order,
                sort_orders(model.scene@.objects),
                model.scene.general.customsortorder,
                model.scene@.objects.len(),
            ) && pending_views(r.pending@) == #[trigger] ordered_scripts(
                model.scene@.objects,
                order,
                order.len(),
            ) && layer_views(r.layers@) == order.map_values(
                |i: usize| layer_of(model.scene@.objects[i as int]),
            ),
{
    let order = scene_order(model);
    let ghost all = model.scene@.objects;
    let mut pending: Vec<Pending> = Vec::new();
    let mut layers: Vec<LayerState> = Vec::new();
    let mut n: usize = 0;
    assert(pending_views(pending@) =~= Seq::<PendingView>::empty());
    while n < order.len()
        invariant
            n <= order@.len(),
            all == crate::scene::object_views(model.scene.objects@),
            forall|i: int| 0 <= i < order@.len() ==> (#[trigger] order@[i]) < all.len(),
            pending_views(pending@) == ordered_scripts(all, order@, n as nat),
            layers@.len() == n,
            forall|k: int| 0 <= k < n ==> (#[trigger] layers@[k])@ == layer_of(all[order@[k] as int]),
        decreases order@.len() - n,
    {
        let oi = order[n];
        assert(oi < all.len());
        assert(all[oi as int] == model.scene.objects@[oi as int]@);
        layers.push(layer_state(&model.scene.objects[oi]));
        collect_object(&mut pending, &model.scene.objects[oi]);
        n = n + 1;
    }
    proof {
        assert(layer_views(layers@) =~= order@.map_values(|i: usize| layer_of(all[i as int])));
        assert(pending_views(pending@) == ordered_scripts(all, order@, order@.len()));
    }
    Staged { pending, layers }
}

/// Whether a staged script is the one on a field of an object: its module is
/// named after the field and the object, it drives that field, and it starts
/// with what the field holds.
pub open spec fn scripts_field(
    p: PendingView,
    id: i64,
    field: Seq<char>,
    target: PropTarget,
    script: ScriptView,
    initial: ScriptValueView,
) -> bool {
    &&& p.prop.key == field.push('_') + crate::json::decimal_int(id as int)
    &&& p.prop.object_id == id
    &&& p.prop.target == target
    &&& p.source == script.source
    &&& p.initial == initial
    &&& p.script_props matches JsonView::Object(o) && {
        &&& o.len() == script.properties.len()
        &&& forall|i: int|
            0 <= i < o.len() ==> (#[trigger] o[i]).0 == script.properties[i].0 && match script.properties[i].1 {
                JsonView::Object(m) => o[i].1 == match crate::json::member(m, "value"@) {
                    Some(v) => v,
                    None => script.properties[i].1,
                },
                other => o[i].1 == other,
            }
    }
}

/// The scripted fields of an object: field, target, script and what the field
/// holds, for each field that scripts drive and that has one.
pub open spec fn scripted_fields(o: ObjectView) -> Seq<
    (Seq<char>, PropTarget, Option<ScriptView>, ScriptValueView),
> {
    match o.kind {
        ObjectKindView::Image(img) => seq![
            (
                "alpha"@,
                PropTarget::Alpha,
                img.alpha.script,
                ScriptValueView::Float(img.alpha.value),
            ),
            (
                "brightness"@,
                PropTarget::Brightness,
                img.brightness.script,
                ScriptValueView::Float(img.brightness.value),
            ),
            (
                "color"@,
                PropTarget::Color,
                img.color.script,
                ScriptValueView::Vec3(img.color.value.take(3)),
            ),
            (
                "visible"@,
                PropTarget::Visible,
                img.visible.script,
                ScriptValueView::Bool(img.visible.value),
            ),
        ],
        ObjectKindView::Text(txt) => seq![
            ("text"@, PropTarget::Text, txt.text.script, ScriptValueView::Str(txt.text.value)),
            (
                "alpha"@,
                PropTarget::Alpha,
                txt.alpha.script,
                ScriptValueView::Float(txt.alpha.value),
            ),
            (
                "color"@,
                PropTarget::Color,
                txt.color.script,
                ScriptValueView::Vec3(txt.color.value.take(3)),
            ),
            (
                "visible"@,
                PropTarget::Visible,
                txt.visible.script,
                ScriptValueView::Bool(txt.visible.value),
            ),
        ],
        _ => Seq::empty(),
    }
}

/// Colors have four channels.
pub open spec fn colors_whole(o: ObjectView) -> bool {
    match o.kind {
        ObjectKindView::Image(img) => img.color.value.len() == 4,
        ObjectKindView::Text(txt) => txt.color.value.len() == 4,
        _ => true,
    }
}

/// The names of the fields that scripts drive are told apart.
proof fn lemma_field_names()
    ensures
        target_of("alpha"@) == Some(PropTarget::Alpha),
        target_of("brightness"@) == Some(PropTarget::Brightness),
        target_of("color"@) == Some(PropTarget::Color),
        target_of("visible"@) == Some(PropTarget::Visible),
        target_of("text"@) == Some(PropTarget::Text),
        target_of("origin"@) == Some(PropTarget::Origin),
        target_of("scale"@) == Some(PropTarget::Scale),
        target_of("angles"@) == Some(PropTarget::Angles),
{
    reveal_strlit("alpha");
    reveal_strlit("brightness");
    reveal_strlit("color");
    reveal_strlit("visible");
    reveal_strlit("text");
    reveal_strlit("origin");
    reveal_strlit("scale");
    reveal_strlit("angles");
    assert("alpha"@[0] == 'a' && "alpha"@.len() == 5);
    assert("brightness"@.len() == 10);
    assert("color"@[0] == 'c' && "color"@.len() == 5);
    assert("visible"@.len() == 7);
    assert("text"@.len() == 4);
    assert("origin"@[0] == 'o' && "origin"@.len() == 6);
    assert("scale"@[0] == 's' && "scale"@.len() == 5);
    assert("angles"@[0] == 'a' && "angles"@.len() == 6);
}

/// A scripted field is staged once, another not at all.
proof fn lemma_staged(
    id: i64,
    field: Seq<char>,
    target: PropTarget,
    script: Option<ScriptView>,
    initial: ScriptValueView,
)
    requires
        target_of(field) == Some(target),
    ensures
        script is None ==> staged(id, field, script, initial).len() == 0,
        script matches Some(b) ==> staged(id, field, script, initial).len() == 1 && scripts_field(
            staged(id, field, script, initial)[0],
            id,
            field,
            target,
            b,
            initial,
        ),
{
    reveal(staged);
}

/// The scripts of an object are one for each of its scripted fields and no
/// others: of an image those on alpha, brightness, color and visibility; of a
/// text those on the text, alpha, color and visibility.
pub proof fn law_scripts_of_an_object(o: ObjectView)
    requires
        colors_whole(o),
    ensures
        forall|f: int|
            0 <= f < scripted_fields(o).len() && (#[trigger] scripted_fields(o)[f]).2 is Some
                ==> exists|i: int|
                0 <= i < object_scripts(o).len() && scripts_field(
                    #[trigger] object_scripts(o)[i],
                    o.base.id,
                    scripted_fields(o)[f].0,
                    scripted_fields(o)[f].1,
                    scripted_fields(o)[f].2->0,
                    scripted_fields(o)[f].3,
                ),
        forall|i: int|
            0 <= i < object_scripts(o).len() ==> exists|f: int|
                0 <= f < scripted_fields(o).len() && (#[trigger] scripted_fields(o)[f]).2 is Some
                    && scripts_field(
                    #[trigger] object_scripts(o)[i],
                    o.base.id,
                    scripted_fields(o)[f].0,
                    scripted_fields(o)[f].1,
                    scripted_fields(o)[f].2->0,
                    scripted_fields(o)[f].3,
                ),
        object_scripts(o).len() == scripted_fields(o).filter(
            |f: (Seq<char>, PropTarget, Option<ScriptView>, ScriptValueView)| f.2 is Some,
        ).len(),
{
    lemma_field_names();
    let id = o.base.id;
    let fields = scripted_fields(o);
    match o.kind {
        ObjectKindView::Image(_) | ObjectKindView::Text(_) => {
            let c = fields[2].3->Vec3_0;
            assert(fields.len() == 4);
            match o.kind {
                ObjectKindView::Image(img) => {
                    assert(c =~= rgb(img.color.value));
                },
                ObjectKindView::Text(txt) => {
                    assert(c =~= rgb(txt.color.value));
                },
                _ => {},
            }
            let a0 = staged(id, fields[0].0, fields[0].2, fields[0].3);
            let a1 = staged(id, fields[1].0, fields[1].2, fields[1].3);
            let a2 = staged(id, fields[2].0, fields[2].2, fields[2].3);
            let a3 = staged(id, fields[3].0, fields[3].2, fields[3].3);
            lemma_staged(id, fields[0].0, fields[0].1, fields[0].2, fields[0].3);
            lemma_staged(id, fields[1].0, fields[1].1, fields[1].2, fields[1].3);
            lemma_staged(id, fields[2].0, fields[2].1, fields[2].2, fields[2].3);
            lemma_staged(id, fields[3].0, fields[3].1, fields[3].2, fields[3].3);
            let all = a0 + a1 + a2 + a3;
            assert(object_scripts(o) == all);
            assert(fields[0].2 is Some ==> all[0] == a0[0]);
            assert(fields[1].2 is Some ==> all[a0.len() as int] == a1[0]);
            assert(fields[2].2 is Some ==> all[(a0 + a1).len() as int] == a2[0]);
            assert(fields[3].2 is Some ==> all[(a0 + a1 + a2).len() as int] == a3[0]);
            assert forall|i: int| 0 <= i < all.len() implies exists|f: int|
                0 <= f < fields.len() && (#[trigger] fields[f]).2 is Some && scripts_field(
                    #[trigger] all[i],
                    id,
                    fields[f].0,
                    fields[f].1,
                    fields[f].2->0,
                    fields[f].3,
                ) by {
                if i < a0.len() {
                    assert(all[i] == a0[0] && fields[0].2 is Some);
                } else if i < a0.len() + a1.len() {
                    assert(all[i] == a1[0] && fields[1].2 is Some);
                } else if i < a0.len() + a1.len() + a2.len() {
                    assert(all[i] == a2[0] && fields[2].2 is Some);
                } else {
                    assert(all[i] == a3[0] && fields[3].2 is Some);
                }
            }
            reveal_with_fuel(Seq::filter, 5);
            let pred = |f: (Seq<char>, PropTarget, Option<ScriptView>, ScriptValueView)|
                f.2 is Some;
            let f3 = fields.drop_last();
            let f2 = f3.drop_last();
            let f1 = f2.drop_last();
            assert(f1.drop_last().len() == 0);
            assert(f3.last() == fields[2] && f2.last() == fields[1] && f1.last() == fields[0]);
            assert(fields.filter(pred).len() == all.len());
        },
        _ => {
            reveal(Seq::filter);
        },
    }
}

/// The scripts that are staged before and after one object of the order.
proof fn lemma_ordered_scripts(objects: Seq<ObjectView>, order: Seq<usize>, n: nat, k: int, i: int)
    requires
        n <= order.len(),
        0 <= k < n,
        0 <= i < object_scripts(objects[order[k] as int]).len(),
    ensures
        ordered_scripts(objects, order, k as nat).len() + i < ordered_scripts(
            objects,
            order,
            n,
        ).len(),
        ordered_scripts(objects, order, n)[ordered_scripts(objects, order, k as nat).len() + i]
            == object_scripts(objects[order[k] as int])[i],
    decreases n,
{
    if k < n - 1 {
        lemma_ordered_scripts(objects, order, (n - 1) as nat, k, i);
    }
}

/// The staged scripts of a scene are those of its objects, object after object in
/// render order, and each object's in the order of its fields; there are no
/// others.
pub proof fn law_scene_scripts_in_order(objects: Seq<ObjectView>, order: Seq<usize>, n: nat)
    requires
        n <= order.len(),
    ensures
        forall|k: int, i: int|
            0 <= k < n && 0 <= i < object_scripts(objects[#[trigger] order[k] as int]).len()
                ==> ordered_scripts(objects, order, n).contains(
                #[trigger] object_scripts(objects[order[k] as int])[i],
            ),
        forall|j: int|
            0 <= j < ordered_scripts(objects, order, n).len() ==> exists|k: int|
                0 <= k < n && object_scripts(objects[#[trigger] order[k] as int]).contains(
                    #[trigger] ordered_scripts(objects, order, n)[j],
                ),
        n > 0 ==> ordered_scripts(objects, order, n).len() == ordered_scripts(
            objects,
            order,
            (n - 1) as nat,
        ).len() + object_scripts(objects[order[n - 1] as int]).len(),
    decreases n,
{
    let all = ordered_scripts(objects, order, n);
    assert forall|k: int, i: int|
        0 <= k < n && 0 <= i < object_scripts(objects[#[trigger] order[k] as int]).len() implies all.contains(
        #[trigger] object_scripts(objects[order[k] as int])[i],
    ) by {
        lemma_ordered_scripts(objects, order, n, k, i);
    }
    if n > 0 {
        law_scene_scripts_in_order(objects, order, (n - 1) as nat);
        let before = ordered_scripts(objects, order, (n - 1) as nat);
        assert forall|j: int| 0 <= j < all.len() implies exists|k: int|
            0 <= k < n && object_scripts(objects[#[trigger] order[k] as int]).contains(
                #[trigger] all[j],
            ) by {
            if j < before.len() {
                assert(all[j] == before[j]);
                let k = choose|k: int|
                    0 <= k < n - 1 && object_scripts(objects[#[trigger] order[k] as int]).contains(
                        before[j],
                    );
                assert(object_scripts(objects[order[k] as int]).contains(all[j]));
            } else {
                let last = object_scripts(objects[order[n - 1] as int]);
                assert(all[j] == last[j - before.len()]);
                assert(last.contains(all[j]));
            }
        }
    }
}

/// Every scripted field of every object is among the scripts of the scene,
/// whatever the order in which the objects draw.
pub proof fn law_every_script_is_staged(
    objects: Seq<ObjectView>,
    order: Seq<usize>,
    custom: bool,
    oi: usize,
    f: int,
)
    requires
        crate::order::is_render_order(order, sort_orders(objects), custom, objects.len()),
        oi < objects.len(),
        colors_whole(objects[oi as int]),
        0 <= f < scripted_fields(objects[oi as int]).len(),
        scripted_fields(objects[oi as int])[f].2 is Some,
    ensures
        exists|j: int|
            0 <= j < ordered_scripts(objects, order, order.len()).len() && scripts_field(
                #[trigger] ordered_scripts(objects, order, order.len())[j],
                objects[oi as int].base.id,
                scripted_fields(objects[oi as int])[f].0,
                scripted_fields(objects[oi as int])[f].1,
                scripted_fields(objects[oi as int])[f].2->0,
                scripted_fields(objects[oi as int])[f].3,
            ),
{
    let o = objects[oi as int];
    assert(order.contains(oi as int as usize));
    let k = choose|k: int| 0 <= k < order.len() && order[k] == oi;
    law_scripts_of_an_object(o);
    assert(scripted_fields(o)[f].2 is Some);
    let i = choose|i: int|
        0 <= i < object_scripts(o).len() && scripts_field(
            #[trigger] object_scripts(o)[i],
            o.base.id,
            scripted_fields(o)[f].0,
            scripted_fields(o)[f].1,
            scripted_fields(o)[f].2->0,
            scripted_fields(o)[f].3,
        );
    lemma_ordered_scripts(objects, order, order.len(), k, i);
}

/// What scripts see of an object: its place, name and parent, whether it and
/// what it shows are visible, and of images and texts their color and alpha;
/// of texts the text and its size too.
pub proof fn law_layer_shows_object(o: ObjectView)
    ensures
        layer_of(o).id == o.base.id,
        layer_of(o).name == o.base.name,
        layer_of(o).parent == o.base.parent,
        layer_of(o).origin == Some(o.base.origin.value),
        layer_of(o).scale == Some(o.base.scale.value),
        layer_of(o).angles == Some(o.base.angles.value),
        !o.base.visible.value ==> layer_of(o).visible == Some(false),
        o.kind matches ObjectKindView::Image(img) ==> {
            &&& layer_of(o).visible == Some(img.visible.value && o.base.visible.value)
            &&& layer_of(o).alpha == Some(img.alpha.value)
            &&& img.color.value.len() == 4 ==> layer_of(o).color == Some(img.color.value.take(3))
            &&& layer_of(o).text is None
            &&& layer_of(o).point_size is None
        },
        o.kind matches ObjectKindView::Text(txt) ==> {
            &&& layer_of(o).visible == Some(txt.visible.value && o.base.visible.value)
            &&& layer_of(o).alpha == Some(txt.alpha.value)
            &&& txt.color.value.len() == 4 ==> layer_of(o).color == Some(txt.color.value.take(3))
            &&& layer_of(o).text == Some(txt.text.value)
            &&& layer_of(o).point_size == Some(txt.pointsize.value)
        },
        !(o.kind is Image) && !(o.kind is Text) ==> {
            &&& layer_of(o).visible == Some(o.base.visible.value)
            &&& layer_of(o).alpha is None
            &&& layer_of(o).color is None
            &&& layer_of(o).text is None
            &&& layer_of(o).point_size is None
        },
{
    if let ObjectKindView::Image(img) = o.kind {
        if img.color.value.len() == 4 {
            assert(rgb(img.color.value) =~= img.color.value.take(3));
        }
    }
    if let ObjectKindView::Text(txt) = o.kind {
        if txt.color.value.len() == 4 {
            assert(rgb(txt.color.value) =~= txt.color.value.take(3));
        }
    }
}

/// The fields that scripts drive go by their own names, and no other name drives
/// one.
pub proof fn law_field_names(name: Seq<char>)
    ensures
        target_of(name) == Some(PropTarget::Alpha) <==> name == "alpha"@,
        target_of(name) == Some(PropTarget::Brightness) <==> name == "brightness"@,
        target_of(name) == Some(PropTarget::Color) <==> name == "color"@,
        target_of(name) == Some(PropTarget::Visible) <==> name == "visible"@,
        target_of(name) == Some(PropTarget::Text) <==> name == "text"@,
        target_of(name) == Some(PropTarget::Origin) <==> name == "origin"@,
        target_of(name) == Some(PropTarget::Scale) <==> name == "scale"@,
        target_of(name) == Some(PropTarget::Angles) <==> name == "angles"@,
{
    lemma_field_names();
}

/// A further camera call wins in each field that it names and leaves the others
/// as they are pending.
pub proof fn law_camera_call_wins(slot: Option<CameraOpView>, op: CameraOpView)
    ensures
        op.eye is Some ==> merged_camera(slot, op).eye == op.eye,
        op.center is Some ==> merged_camera(slot, op).center == op.center,
        op.up is Some ==> merged_camera(slot, op).up == op.up,
        op.fov is Some ==> merged_camera(slot, op).fov == op.fov,
        op.eye is None ==> merged_camera(slot, op).eye == (match slot {
            Some(c) => c.eye,
            None => None,
        }),
        op.center is None ==> merged_camera(slot, op).center == (match slot {
            Some(c) => c.center,
            None => None,
        }),
        op.up is None ==> merged_camera(slot, op).up == (match slot {
            Some(c) => c.up,
            None => None,
        }),
        op.fov is None ==> merged_camera(slot, op).fov == (match slot {
            Some(c) => c.fov,
            None => None,
        }),
{
}

/// How script values are read: as one number a number, a whole number or a
/// flag; as a vector or a color one number stands for all three components,
/// and a color drops its alpha or gets a blue of zero.
pub proof fn law_script_values_read(f: ScalarView, i: int, n: i64, b: bool, v: Seq<ScalarView>)
    requires
        v.len() >= 3,
    ensures
        script_scalar(ScriptValueView::Float(f)) == Some(f),
        script_scalar(ScriptValueView::Int(n)) == Some(ScalarView::Whole(n)),
        script_scalar(ScriptValueView::Bool(b)) == Some(
            ScalarView::Whole(
                if b {
                    1
                } else {
                    0
                },
            ),
        ),
        script_scalar(ScriptValueView::Vec3(v)) is None,
        0 <= i < 3 ==> script_vec3(ScriptValueView::Float(f))->0[i] == f,
        script_vec3(ScriptValueView::Vec3(v)) == Some(v),
        script_vec3(ScriptValueView::Int(n)) is None,
        0 <= i < 3 ==> script_rgb(ScriptValueView::Float(f))->0[i] == f,
        script_rgb(ScriptValueView::Vec3(v)) == Some(v),
        0 <= i < 3 ==> script_rgb(ScriptValueView::Vec4(v))->0[i] == v[i],
        0 <= i < 2 ==> script_rgb(ScriptValueView::Vec2(v))->0[i] == v[i],
        script_rgb(ScriptValueView::Vec2(v))->0[2] == ScalarView::Whole(0),
        script_rgb(ScriptValueView::Int(n)) is None,
{
}

/// How scripts read properties: a switch as a flag, a slider as its number, a
/// color as red, green and blue, options and texts as their text.
pub proof fn law_properties_as_scripts_read_them(
    b: bool,
    double: u64,
    reading: crate::property::ReadingView,
    c: Seq<crate::property::ReadingView>,
    i: int,
)
    requires
        0 <= i < 3,
    ensures
        property_script(PropertyView::Bool(b)) == ScriptValueView::Bool(b),
        property_script(PropertyView::Number { double, reading }) == ScriptValueView::Float(
            ScalarView::Double(double),
        ),
        property_script(PropertyView::Combo(reading)) == ScriptValueView::Str(reading.text),
        property_script(PropertyView::Text(reading)) == ScriptValueView::Str(reading.text),
        property_script(PropertyView::Color(c)) is Vec3,
        property_script(PropertyView::Color(c))->Vec3_0.len() == 3,
        property_script(PropertyView::Color(c))->Vec3_0[i] == ScalarView::Single(c[i].single),
{
}

/// What scripts see of the scene as a whole. Colors are red, green and blue.
#[derive(Debug)]
pub struct SceneState {
    /// Clear color.
    pub clearcolor: Vec3,
    /// Ambient color.
    pub ambientcolor: Vec3,
    /// Sky light color.
    pub skylightcolor: Vec3,
    /// Bloom.
    pub bloom: bool,
    /// Bloom strength; scripts read its whole part.
    pub bloomstrength: Scalar,
    /// Bloom threshold; scripts read its whole part.
    pub bloomthreshold: Scalar,
    /// Field of view.
    pub fov: Scalar,
    /// Near plane.
    pub nearz: Scalar,
    /// Far plane.
    pub farz: Scalar,
    /// Eye position of the authored camera.
    pub eye: Vec3,
    /// Point the authored camera looks at.
    pub center: Vec3,
    /// Up direction of the authored camera.
    pub up: Vec3,
}

/// What a [`SceneState`] holds.
pub struct SceneStateView {
    /// Clear color.
    pub clearcolor: Seq<ScalarView>,
    /// Ambient color.
    pub ambientcolor: Seq<ScalarView>,
    /// Sky light color.
    pub skylightcolor: Seq<ScalarView>,
    /// Bloom.
    pub bloom: bool,
    /// Bloom strength.
    pub bloomstrength: ScalarView,
    /// Bloom threshold.
    pub bloomthreshold: ScalarView,
    /// Field of view.
    pub fov: ScalarView,
    /// Near plane.
    pub nearz: ScalarView,
    /// Far plane.
    pub farz: ScalarView,
    /// Eye position.
    pub eye: Seq<ScalarView>,
    /// Point looked at.
    pub center: Seq<ScalarView>,
    /// Up direction.
    pub up: Seq<ScalarView>,
}

impl View for SceneState {
    type V = SceneStateView;

    open spec fn view(&self) -> SceneStateView {
        SceneStateView {
            clearcolor: crate::number::scalars(self.clearcolor@),
            ambientcolor: crate::number::scalars(self.ambientcolor@),
            skylightcolor: crate::number::scalars(self.skylightcolor@),
            bloom: self.bloom,
            bloomstrength: self.bloomstrength@,
            bloomthreshold: self.bloomthreshold@,
            fov: self.fov@,
            nearz: self.nearz@,
            farz: self.farz@,
            eye: crate::number::scalars(self.eye@),
            center: crate::number::scalars(self.center@),
            up: crate::number::scalars(self.up@),
        }
    }
}

/// What scripts see of a scene before any of them has run.
pub open spec fn scene_state_of(s: crate::scene::SceneView) -> SceneStateView {
    SceneStateView {
        clearcolor: rgb(s.general.clearcolor.value),
        ambientcolor: rgb(s.general.ambientcolor.value),
        skylightcolor: rgb(s.general.skylightcolor.value),
        bloom: s.general.bloom.value,
        bloomstrength: s.general.bloomstrength.value,
        bloomthreshold: s.general.bloomthreshold.value,
        fov: s.camera.fov.value,
        nearz: s.camera.nearz,
        farz: s.camera.farz,
        eye: s.camera.eye,
        center: s.camera.center,
        up: s.camera.up,
    }
}

/// Scripts see the settings and the camera that the scene was authored with.
pub proof fn law_scripts_see_the_scene(s: crate::scene::SceneView)
    requires
        s.general.clearcolor.value.len() == 4,
        s.general.ambientcolor.value.len() == 4,
        s.general.skylightcolor.value.len() == 4,
    ensures
        scene_state_of(s).clearcolor == s.general.clearcolor.value.take(3),
        scene_state_of(s).ambientcolor == s.general.ambientcolor.value.take(3),
        scene_state_of(s).skylightcolor == s.general.skylightcolor.value.take(3),
        scene_state_of(s).bloom == s.general.bloom.value,
        scene_state_of(s).bloomstrength == s.general.bloomstrength.value,
        scene_state_of(s).bloomthreshold == s.general.bloomthreshold.value,
        scene_state_of(s).fov == s.camera.fov.value,
        scene_state_of(s).nearz == s.camera.nearz,
        scene_state_of(s).farz == s.camera.farz,
        scene_state_of(s).eye == s.camera.eye,
        scene_state_of(s).center == s.camera.center,
        scene_state_of(s).up == s.camera.up,
{
    assert(rgb(s.general.clearcolor.value) =~= s.general.clearcolor.value.take(3));
    assert(rgb(s.general.ambientcolor.value) =~= s.general.ambientcolor.value.take(3));
    assert(rgb(s.general.skylightcolor.value) =~= s.general.skylightcolor.value.take(3));
}

/// Snapshot what scripts see of a scene.
pub fn scene_state(model: &SceneModel) -> (r: SceneState)
    ensures
        r@ == scene_state_of(model.scene@),
{
    let g = &model.scene.general;
    let cam = &model.scene.camera;
    SceneState {
        clearcolor: rgb_of(&g.clearcolor.value),
        ambientcolor: rgb_of(&g.ambientcolor.value),
        skylightcolor: rgb_of(&g.skylightcolor.value),
        bloom: g.bloom.value,
        bloomstrength: g.bloomstrength.value.copy(),
        bloomthreshold: g.bloomthreshold.value.copy(),
        fov: cam.fov.value.copy(),
        nearz: cam.nearz.copy(),
        farz: cam.farz.copy(),
        eye: copy_vec3(&cam.eye),
        center: copy_vec3(&cam.center),
        up: copy_vec3(&cam.up),
    }
}

/// The scripts that are staged are those of the scene, object by object in the
/// order in which these draw, and the layers that scripts see are its objects in
/// that order.
pub proof fn law_staged_scripts_of_scene(model: &SceneModel, r: Staged)
    requires
        call_ensures(stage_scripts, (model,), r),
    ensures
        exists|order: Seq<usize>|
            crate::order::is_render_order(
                order,
                sort_orders(model.scene@.objects),
                model.scene@.general.customsortorder,
                model.scene@.objects.len(),
            ) && pending_views(r.pending@) == #[trigger] ordered_scripts(
                model.scene@.objects,
                order,
                order.len(),
            ) && r.layers@.len() == model.scene@.objects.len() && forall|i: int|
                0 <= i < order.len() ==> (#[trigger] r.layers@[i])@ == layer_of(
                    model.scene@.objects[order[i] as int],
                ),
{
    let order = choose|order: Seq<usize>|
        crate::order::is_render_order(
            order,
            sort_orders(model.scene@.objects),
            model.scene.general.customsortorder,
            model.scene@.objects.len(),
        ) && pending_views(r.pending@) == #[trigger] ordered_scripts(
            model.scene@.objects,
            order,
            order.len(),
        ) && layer_views(r.layers@) == order.map_values(
            |i: usize| layer_of(model.scene@.objects[i as int]),
        );
    assert(layer_views(r.layers@).len() == r.layers@.len());
    assert forall|i: int| 0 <= i < order.len() implies (#[trigger] r.layers@[i])@ == layer_of(
        model.scene@.objects[order[i] as int],
    ) by {
        assert(layer_views(r.layers@)[i] == r.layers@[i]@);
    }
    assert(ordered_scripts(model.scene@.objects, order, order.len()) == pending_views(r.pending@));
}

} // verus!
