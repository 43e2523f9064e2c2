//! The state that a scene's scripts share with the renderer.
//!
//! [`ScriptHost`] keeps the layers, the scene and the user properties as
//! scripts read them, and folds what a script engine hands back into that
//! state. The engine itself runs outside.
use vstd::prelude::*;

use crate::number::{Scalar, ScalarView};
use crate::property::{PropertyValue, PropertyView};
use crate::resolve::SceneModel;
use crate::scripting::{
    as_f32, as_rgb, as_vec3, merge_camera, prop_to_script, scene_state, CameraOp, CameraOpView,
    LayerState, LayerView, PendingView, PropTarget, PropUpdate, PropView, SceneState,
    SceneStateView, ScriptValue, ScriptValueView, ScriptedProp, Staged, UpdateView,
};
use crate::table::Table;
use crate::text::same;
use crate::value::{one, zero, Vec3};

verus! {

/// A change of the scene that a script asked for.
#[derive(Debug)]
pub enum SceneOp {
    /// Write a property of a layer.
    SetProperty {
        /// The layer.
        layer_id: i64,
        /// The field's name.
        name: String,
        /// The new value.
        value: ScriptValue,
    },
    /// Add a layer.
    CreateLayer {
        /// The id chosen for it.
        layer_id: i64,
        /// The asset it shows.
        path: String,
    },
    /// Move the camera.
    SetCameraTransforms {
        /// New eye position.
        eye: Option<Vec3>,
        /// New point looked at.
        center: Option<Vec3>,
        /// New up direction.
        up: Option<Vec3>,
        /// New field of view.
        fov: Option<Scalar>,
    },
    /// Move a layer to a position of the layer order.
    SortLayer {
        /// The layer.
        layer_id: i64,
        /// The position.
        index: i64,
    },
    /// Give a layer another parent.
    SetParent {
        /// The layer.
        layer_id: i64,
        /// The new parent.
        parent: Option<i64>,
    },
}

/// What a [`SceneOp`] holds.
pub enum OpView {
    /// Write a property of a layer.
    SetProperty {
        /// The layer.
        layer_id: i64,
        /// The field's name.
        name: Seq<char>,
        /// The new value.
        value: ScriptValueView,
    },
    /// Add a layer.
    CreateLayer {
        /// The id chosen for it.
        layer_id: i64,
        /// The asset it shows.
        path: Seq<char>,
    },
    /// Move the camera.
    SetCameraTransforms(CameraOpView),
    /// Move a layer to a position of the layer order.
    SortLayer {
        /// The layer.
        layer_id: i64,
        /// The position.
        index: i64,
    },
    /// Give a layer another parent.
    SetParent {
        /// The layer.
        layer_id: i64,
        /// The new parent.
        parent: Option<i64>,
    },
}

impl View for SceneOp {
    type V = OpView;

    open spec fn view(&self) -> OpView {
        match self {
            SceneOp::SetProperty { layer_id, name, value } => OpView::SetProperty {
                layer_id: *layer_id,
                name: name@,
                value: value@,
            },
            SceneOp::CreateLayer { layer_id, path } => OpView::CreateLayer {
                layer_id: *layer_id,
                path: path@,
            },
            SceneOp::SetCameraTransforms { eye, center, up, fov } => OpView::SetCameraTransforms(
                CameraOpView {
                    eye: crate::scripting::opt_vec3(*eye),
                    center: crate::scripting::opt_vec3(*center),
                    up: crate::scripting::opt_vec3(*up),
                    fov: crate::scripting::opt_scalar(*fov),
                },
            ),
            SceneOp::SortLayer { layer_id, index } => OpView::SortLayer {
                layer_id: *layer_id,
                index: *index,
            },
            SceneOp::SetParent { layer_id, parent } => OpView::SetParent {
                layer_id: *layer_id,
                parent: *parent,
            },
        }
    }
}

/// What a list of operations holds.
pub open spec fn op_views(v: Seq<SceneOp>) -> Seq<OpView> {
    Seq::new(v.len(), |i: int| v[i]@)
}

/// What a list of script results holds.
pub open spec fn result_views(v: Seq<(String, ScriptValue)>) -> Seq<(Seq<char>, ScriptValueView)> {
    Seq::new(v.len(), |i: int| (v[i].0@, v[i].1@))
}

/// What one run of the scripts handed back.
#[derive(Debug)]
pub struct TickOutput {
    /// Returned values, by the script's module name.
    pub property_results: Vec<(String, ScriptValue)>,
    /// Requested changes, in order.
    pub ops: Vec<SceneOp>,
}

/// The state that scripts and renderer share.
#[derive(Debug)]
pub struct ScriptHost {
    /// The loaded property scripts.
    pub props: Vec<ScriptedProp>,
    /// Every layer as scripts read it, bottom to top.
    pub layers: Vec<LayerState>,
    /// The scene as scripts read it.
    pub scene: SceneState,
    /// The user properties as scripts read them.
    pub user_props: Table<ScriptValue>,
    /// Layers created by scripts and not yet taken by the renderer.
    pub created: Vec<(i64, String)>,
    /// Camera change not yet taken by the renderer.
    pub camera_op: Option<CameraOp>,
    /// The layers were reordered since the renderer last took their order.
    pub order_dirty: bool,
    /// The scene changed since the engine last got a copy.
    pub scene_dirty: bool,
    /// A user property changed since the engine last got a copy.
    pub user_props_dirty: bool,
}

/// What a [`ScriptHost`] holds.
#[verifier::ext_equal]
pub struct HostView {
    /// The loaded property scripts.
    pub props: Seq<PropView>,
    /// Every layer, bottom to top.
    pub layers: Seq<LayerView>,
    /// The scene.
    pub scene: SceneStateView,
    /// The user properties.
    pub user_props: Map<Seq<char>, ScriptValueView>,
    /// Layers created and not yet taken.
    pub created: Seq<(i64, Seq<char>)>,
    /// Camera change not yet taken.
    pub camera_op: Option<CameraOpView>,
    /// The layers were reordered.
    pub order_dirty: bool,
    /// The scene changed.
    pub scene_dirty: bool,
    /// A user property changed.
    pub user_props_dirty: bool,
}

/// What a list of created layers holds.
pub open spec fn created_views(v: Seq<(i64, String)>) -> Seq<(i64, Seq<char>)> {
    Seq::new(v.len(), |i: int| (v[i].0, v[i].1@))
}

/// What a table of script values holds.
pub open spec fn script_values(t: Table<ScriptValue>) -> Map<Seq<char>, ScriptValueView> {
    t@.map_values(|v: ScriptValue| v@)
}

impl View for ScriptHost {
    type V = HostView;

    open spec fn view(&self) -> HostView {
        HostView {
            props: crate::scripting::prop_views(self.props@),
            layers: crate::scripting::layer_views(self.layers@),
            scene: self.scene@,
            user_props: script_values(self.user_props),
            created: created_views(self.created@),
            camera_op: crate::scripting::opt_camera(self.camera_op),
            order_dirty: self.order_dirty,
            scene_dirty: self.scene_dirty,
            user_props_dirty: self.user_props_dirty,
        }
    }
}

/// The first layer with an id, if there is one.
pub open spec fn layer_at(layers: Seq<LayerView>, id: i64) -> Option<int>
    decreases layers.len(),
{
    if layers.len() == 0 {
        None
    } else {
        match layer_at(layers.drop_last(), id) {
            Some(i) => Some(i),
            None => if layers.last().id == id {
                Some(layers.len() - 1)
            } else {
                None
            },
        }
    }
}

/// The position that [`layer_at`] gives is that of the first layer with the id.
pub proof fn lemma_layer_at(layers: Seq<LayerView>, id: i64)
    ensures
        layer_at(layers, id) matches Some(i) ==> 0 <= i < layers.len() && layers[i].id == id
            && forall|k: int| 0 <= k < i ==> (#[trigger] layers[k]).id != id,
        layer_at(layers, id) is None ==> forall|k: int|
            0 <= k < layers.len() ==> (#[trigger] layers[k]).id != id,
    decreases layers.len(),
{
    if layers.len() > 0 {
        lemma_layer_at(layers.drop_last(), id);
        assert forall|k: int| 0 <= k < layers.len() - 1 implies layers[k]
            == layers.drop_last()[k] by {}
    }
}

/// Whatever is found first is what [`layer_at`] gives.
proof fn lemma_layer_found(layers: Seq<LayerView>, id: i64, n: int)
    requires
        0 <= n <= layers.len(),
        forall|k: int| 0 <= k < n ==> (#[trigger] layers[k]).id != id,
        n < layers.len() ==> layers[n].id == id,
    ensures
        layer_at(layers, id) == if n < layers.len() {
            Some(n)
        } else {
            None::<int>
        },
{
    lemma_layer_at(layers, id);
    match layer_at(layers, id) {
        Some(i) => {
            if i < n {
                assert(layers[i].id != id);
            } else if n < i {
                assert(layers[n].id != id);
            }
        },
        None => {
            if n < layers.len() {
                assert(layers[n].id != id);
            }
        },
    }
}

/// A layer after a value was written to one of its fields. A value of a kind
/// that the field does not take, and a field that scripts cannot read back,
/// change nothing.
pub open spec fn written(l: LayerView, target: PropTarget, value: ScriptValueView) -> LayerView {
    match target {
        PropTarget::Alpha => match crate::scripting::script_scalar(value) {
            Some(a) => LayerView { alpha: Some(a), ..l },
            None => l,
        },
        PropTarget::Color => match crate::scripting::script_rgb(value) {
            Some(c) => LayerView { color: Some(c), ..l },
            None => l,
        },
        PropTarget::Visible => match value {
            ScriptValueView::Bool(b) => LayerView { visible: Some(b), ..l },
            _ => l,
        },
        PropTarget::Text => match value {
            ScriptValueView::Str(s) => LayerView { text: Some(s), ..l },
            _ => l,
        },
        PropTarget::Origin => match crate::scripting::script_vec3(value) {
            Some(v) => LayerView { origin: Some(v), ..l },
            None => l,
        },
        PropTarget::Scale => match crate::scripting::script_vec3(value) {
            Some(v) => LayerView { scale: Some(v), ..l },
            None => l,
        },
        PropTarget::Angles => match crate::scripting::script_vec3(value) {
            Some(v) => LayerView { angles: Some(v), ..l },
            None => l,
        },
        PropTarget::Brightness => l,
    }
}

/// The layers after a value was written to a field of the first layer with an
/// id; unchanged where there is none.
pub open spec fn recorded(
    layers: Seq<LayerView>,
    id: i64,
    target: PropTarget,
    value: ScriptValueView,
) -> Seq<LayerView> {
    match layer_at(layers, id) {
        Some(i) => layers.update(i, written(layers[i], target, value)),
        None => layers,
    }
}

/// Write a value to a field of a layer.
fn write_layer(layer: &mut LayerState, target: PropTarget, value: &ScriptValue)
    ensures
        final(layer)@ == written(old(layer)@, target, value@),
{
    match target {
        PropTarget::Alpha => {
            if let Some(a) = as_f32(value) {
                layer.alpha = Some(a);
            }
        },
        PropTarget::Color => {
            if let Some(c) = as_rgb(value) {
                layer.color = Some(c);
            }
        },
        PropTarget::Visible => {
            if let ScriptValue::Bool(b) = value {
                layer.visible = Some(*b);
            }
        },
        PropTarget::Text => {
            if let ScriptValue::Str(s) = value {
                layer.text = Some(s.clone());
            }
        },
        PropTarget::Origin => {
            if let Some(v) = as_vec3(value) {
                layer.origin = Some(v);
            }
        },
        PropTarget::Scale => {
            if let Some(v) = as_vec3(value) {
                layer.scale = Some(v);
            }
        },
        PropTarget::Angles => {
            if let Some(v) = as_vec3(value) {
                layer.angles = Some(v);
            }
        },
        PropTarget::Brightness => {},
    }
}

/// The position of the first layer with an id.
fn find_layer(layers: &Vec<LayerState>, id: i64) -> (r: Option<usize>)
    ensures
        match r {
            Some(i) => i < layers@.len() && layer_at(
                crate::scripting::layer_views(layers@),
                id,
            ) == Some(i as int),
            None => layer_at(crate::scripting::layer_views(layers@), id) is None,
        },
{
    let ghost shown = crate::scripting::layer_views(layers@);
    let mut i: usize = 0;
    while i < layers.len()
        invariant
            i <= layers@.len(),
            shown == crate::scripting::layer_views(layers@),
            forall|k: int| 0 <= k < i ==> (#[trigger] shown[k]).id != id,
        decreases layers@.len() - i,
    {
        assert(shown[i as int] == layers@[i as int]@);
        if layers[i].id == id {
            proof {
                lemma_layer_found(shown, id, i as int);
            }
            return Some(i);
        }
        i = i + 1;
    }
    proof {
        lemma_layer_found(shown, id, i as int);
    }
    None
}

/// The layers after one was moved: it is taken out, then put in at `index`, or
/// on top where the index is negative or past the end. Unchanged where no
/// layer has the id.
pub open spec fn moved(layers: Seq<LayerView>, id: i64, index: i64) -> Seq<LayerView> {
    match layer_at(layers, id) {
        Some(i) => {
            let rest = layers.remove(i);
            let at = if index < 0 || index > rest.len() {
                rest.len() as int
            } else {
                index as int
            };
            rest.insert(at, layers[i])
        },
        None => layers,
    }
}

/// Move a layer to a position of the layer order. Returns whether there was
/// such a layer.
pub fn sort_layer_apply(layers: &mut Vec<LayerState>, layer_id: i64, index: i64) -> (r: bool)
    ensures
        crate::scripting::layer_views(final(layers)@) == moved(
            crate::scripting::layer_views(old(layers)@),
            layer_id,
            index,
        ),
        r == layer_at(crate::scripting::layer_views(old(layers)@), layer_id) is Some,
        !r ==> final(layers)@ == old(layers)@,
{
    let ghost before = crate::scripting::layer_views(layers@);
    match find_layer(layers, layer_id) {
        None => false,
        Some(pos) => {
            let layer = layers.remove(pos);
            let ghost rest = before.remove(pos as int);
            assert(crate::scripting::layer_views(layers@) =~= rest);
            let at: usize = if index < 0 || index as u64 > layers.len() as u64 {
                layers.len()
            } else {
                index as usize
            };
            layers.insert(at, layer);
            assert(crate::scripting::layer_views(layers@) =~= rest.insert(
                at as int,
                before[pos as int],
            ));
            true
        },
    }
}

/// Moving a layer keeps every layer: only the order changes.
pub proof fn law_sort_layer_permutes(layers: Seq<LayerView>, id: i64, index: i64)
    ensures
        moved(layers, id, index).to_multiset() == layers.to_multiset(),
        moved(layers, id, index).len() == layers.len(),
{
    broadcast use vstd::seq_lib::group_to_multiset_ensures;

    lemma_layer_at(layers, id);
    match layer_at(layers, id) {
        Some(i) => {
            let rest = layers.remove(i);
            let at = if index < 0 || index > rest.len() {
                rest.len() as int
            } else {
                index as int
            };
            vstd::seq_lib::to_multiset_insert(rest, at, layers[i]);
            vstd::seq_lib::to_multiset_remove(layers, i);
            assert(layers.to_multiset().contains(layers[i]));
            assert(layers.to_multiset().remove(layers[i]).insert(layers[i])
                =~= layers.to_multiset());
        },
        None => {},
    }
}

/// Moving a layer keeps the relative order of all others.
pub proof fn law_sort_layer_keeps_others(layers: Seq<LayerView>, id: i64, index: i64)
    ensures
        match layer_at(layers, id) {
            Some(i) => exists|j: int|
                0 <= j < layers.len() && (#[trigger] moved(layers, id, index)[j]) == layers[i]
                    && moved(layers, id, index).remove(j) == layers.remove(i),
            None => moved(layers, id, index) == layers,
        },
{
    lemma_layer_at(layers, id);
    match layer_at(layers, id) {
        Some(i) => {
            let rest = layers.remove(i);
            let at = if index < 0 || index > rest.len() {
                rest.len() as int
            } else {
                index as int
            };
            assert(moved(layers, id, index)[at] == layers[i]);
            assert(moved(layers, id, index).remove(at) =~= rest);
        },
        None => {},
    }
}

/// The first scripted field whose module has a name.
pub open spec fn prop_named(props: Seq<PropView>, key: Seq<char>) -> Option<PropView>
    decreases props.len(),
{
    if props.len() == 0 {
        None
    } else {
        match prop_named(props.drop_last(), key) {
            Some(p) => Some(p),
            None => if props.last().key == key {
                Some(props.last())
            } else {
                None
            },
        }
    }
}

/// A host and the updates that its renderer is to apply.
pub struct Step {
    /// The host.
    pub host: HostView,
    /// The updates, in order.
    pub updates: Seq<UpdateView>,
}

/// A step after a value was written to a field of an object.
pub open spec fn after_write(
    s: Step,
    object_id: i64,
    target: PropTarget,
    value: ScriptValueView,
) -> Step {
    Step {
        host: HostView { layers: recorded(s.host.layers, object_id, target, value), ..s.host },
        updates: s.updates.push(UpdateView { object_id, target, value }),
    }
}

/// A step after the value that a property script returned. Values of unknown
/// scripts are dropped.
pub open spec fn after_result(s: Step, key: Seq<char>, value: ScriptValueView) -> Step {
    match prop_named(s.host.props, key) {
        Some(p) => after_write(s, p.object_id, p.target, value),
        None => s,
    }
}

/// A step after all the values that property scripts returned.
pub open spec fn after_results(s: Step, results: Seq<(Seq<char>, ScriptValueView)>) -> Step
    decreases results.len(),
{
    if results.len() == 0 {
        s
    } else {
        after_result(after_results(s, results.drop_last()), results.last().0, results.last().1)
    }
}

/// A layer as a script creates it: visible, opaque, white, of unit scale, in
/// the origin, under the name of its asset.
pub open spec fn fresh_layer(id: i64, path: Seq<char>) -> LayerView {
    let nil = ScalarView::Whole(0);
    let unit = ScalarView::Whole(1);
    LayerView {
        id,
        name: path,
        parent: None,
        origin: Some(seq![nil, nil, nil]),
        scale: Some(seq![unit, unit, unit]),
        angles: Some(seq![nil, nil, nil]),
        visible: Some(true),
        alpha: Some(unit),
        color: Some(seq![unit, unit, unit]),
        point_size: None,
        text: None,
    }
}

/// A host after a script moved the camera. Scripts read back the new field of
/// view and, of everything else, the authored camera.
pub open spec fn after_camera(h: HostView, c: CameraOpView) -> HostView {
    let merged = HostView {
        camera_op: Some(crate::scripting::merged_camera(h.camera_op, c)),
        ..h
    };
    match c.fov {
        Some(f) => HostView {
            scene: SceneStateView { fov: f, ..h.scene },
            scene_dirty: true,
            ..merged
        },
        None => merged,
    }
}

/// A step after one requested change.
pub open spec fn after_op(s: Step, op: OpView) -> Step {
    match op {
        OpView::SetProperty { layer_id, name, value } => match crate::scripting::target_of(name) {
            Some(target) => after_write(s, layer_id, target, value),
            None => s,
        },
        OpView::CreateLayer { layer_id, path } => Step {
            host: HostView {
                layers: s.host.layers.push(fresh_layer(layer_id, path)),
                created: s.host.created.push((layer_id, path)),
                ..s.host
            },
            updates: s.updates,
        },
        OpView::SetCameraTransforms(c) => Step {
            host: after_camera(s.host, c),
            updates: s.updates,
        },
        OpView::SortLayer { layer_id, index } => Step {
            host: HostView {
                layers: moved(s.host.layers, layer_id, index),
                order_dirty: s.host.order_dirty || layer_at(s.host.layers, layer_id) is Some,
                ..s.host
            },
            updates: s.updates,
        },
        OpView::SetParent { layer_id: _, parent: _ } => s,
    }
}

/// A step after all requested changes.
pub open spec fn after_ops(s: Step, ops: Seq<OpView>) -> Step
    decreases ops.len(),
{
    if ops.len() == 0 {
        s
    } else {
        after_op(after_ops(s, ops.drop_last()), ops.last())
    }
}

/// A host after an engine's output, and the updates to apply: first what the
/// property scripts returned, then the requested changes, each in order.
pub open spec fn after_output(
    h: HostView,
    results: Seq<(Seq<char>, ScriptValueView)>,
    ops: Seq<OpView>,
) -> Step {
    after_ops(after_results(Step { host: h, updates: Seq::empty() }, results), ops)
}

/// The fields whose scripts were loaded.
pub open spec fn loaded_props(pending: Seq<PendingView>, loaded: Seq<bool>) -> Seq<PropView>
    decreases pending.len(),
{
    if pending.len() == 0 {
        Seq::empty()
    } else {
        let before = loaded_props(pending.drop_last(), loaded);
        if pending.len() <= loaded.len() && loaded[pending.len() - 1] {
            before.push(pending.last().prop)
        } else {
            before
        }
    }
}

/// User properties as scripts read them; of two with one name the later holds.
pub open spec fn script_props_of(props: Seq<(Seq<char>, PropertyView)>) -> Map<
    Seq<char>,
    ScriptValueView,
>
    decreases props.len(),
{
    if props.len() == 0 {
        Map::empty()
    } else {
        script_props_of(props.drop_last()).insert(
            props.last().0,
            crate::scripting::property_script(props.last().1),
        )
    }
}

/// What a list of named properties holds.
pub open spec fn named_views(v: Seq<(String, PropertyValue)>) -> Seq<(Seq<char>, PropertyView)> {
    Seq::new(v.len(), |i: int| (v[i].0@, v[i].1@))
}

/// Which parts of its copy of the host an engine has to renew.
#[derive(Clone, Copy, Debug, PartialEq, Eq, Structural)]
pub struct Refresh {
    /// The scene.
    pub scene: bool,
    /// The user properties.
    pub user_props: bool,
}

proof fn lemma_script_values_insert(
    m: Map<Seq<char>, ScriptValue>,
    k: Seq<char>,
    v: ScriptValue,
)
    ensures
        m.insert(k, v).map_values(|v: ScriptValue| v@) == m.map_values(
            |v: ScriptValue| v@,
        ).insert(k, v@),
{
    assert(m.insert(k, v).map_values(|v: ScriptValue| v@) =~= m.map_values(
        |v: ScriptValue| v@,
    ).insert(k, v@));
}

/// Three times zero.
fn nil3() -> (r: Vec3)
    ensures
        crate::number::scalars(r@) == seq![
            ScalarView::Whole(0),
            ScalarView::Whole(0),
            ScalarView::Whole(0),
        ],
{
    let r = [zero(), zero(), zero()];
    assert(crate::number::scalars(r@) =~= seq![
        ScalarView::Whole(0),
        ScalarView::Whole(0),
        ScalarView::Whole(0),
    ]);
    r
}

/// Three times one.
fn unit3() -> (r: Vec3)
    ensures
        crate::number::scalars(r@) == seq![
            ScalarView::Whole(1),
            ScalarView::Whole(1),
            ScalarView::Whole(1),
        ],
{
    let r = [one(), one(), one()];
    assert(crate::number::scalars(r@) =~= seq![
        ScalarView::Whole(1),
        ScalarView::Whole(1),
        ScalarView::Whole(1),
    ]);
    r
}

impl ScriptHost {
    /// Whether the table of user properties is in order.
    pub open spec fn wf(&self) -> bool {
        self.user_props.wf()
    }

    /// The host of a scene whose scripts were staged and handed to an engine;
    /// `loaded` says which of them the engine took. `None` when it took none.
    pub fn build(
        model: &SceneModel,
        staged: Staged,
        loaded: &Vec<bool>,
        user_props: &Vec<(String, PropertyValue)>,
    ) -> (r: Option<ScriptHost>)
        ensures
            ({
                let props = loaded_props(
                    crate::scripting::pending_views(staged.pending@),
                    loaded@,
                );
                match r {
                    None => props.len() == 0,
                    Some(h) => props.len() > 0 && h.wf() && h@ == (HostView {
                        props,
                        layers: crate::scripting::layer_views(staged.layers@),
                        scene: crate::scripting::scene_state_of(model.scene@),
                        user_props: script_props_of(named_views(user_props@)),
                        created: Seq::empty(),
                        camera_op: None,
                        order_dirty: false,
                        scene_dirty: false,
                        user_props_dirty: false,
                    }),
                }
            }),
    {
        let mut props: Vec<ScriptedProp> = Vec::new();
        let ghost all = crate::scripting::pending_views(staged.pending@);
        let layers = staged.layers;
        let pending = staged.pending;
        let mut i: usize = 0;
        assert(all.take(0) =~= Seq::empty());
        assert(crate::scripting::prop_views(props@) =~= Seq::<PropView>::empty());
        while i < pending.len()
            invariant
                i <= pending@.len(),
                all == crate::scripting::pending_views(pending@),
                crate::scripting::prop_views(props@) == loaded_props(all.take(i as int), loaded@),
            decreases pending@.len() - i,
        {
            let ghost before = crate::scripting::prop_views(props@);
            assert(all.take(i + 1).drop_last() =~= all.take(i as int));
            if i < loaded.len() && loaded[i] {
                let p = &pending[i].prop;
                let kept = ScriptedProp {
                    key: p.key.clone(),
                    object_id: p.object_id,
                    target: p.target,
                };
                let ghost shown = kept@;
                props.push(kept);
                assert(shown == all[i as int].prop);
                assert(crate::scripting::prop_views(props@) =~= before.push(shown));
            }
            i = i + 1;
        }
        assert(all.take(all.len() as int) =~= all);
        if props.len() == 0 {
            return None;
        }
        let mut values: Table<ScriptValue> = Table::new();
        let ghost named = named_views(user_props@);
        let mut k: usize = 0;
        assert(named.take(0) =~= Seq::empty());
        assert(script_values(values) =~= Map::<Seq<char>, ScriptValueView>::empty());
        while k < user_props.len()
            invariant
                k <= user_props@.len(),
                named == named_views(user_props@),
                values.wf(),
                script_values(values) == script_props_of(named.take(k as int)),
            decreases user_props@.len() - k,
        {
            assert(named.take(k + 1).drop_last() =~= named.take(k as int));
            let value = prop_to_script(&user_props[k].1);
            proof {
                lemma_script_values_insert(values@, user_props@[k as int].0@, value);
            }
            values.insert(user_props[k].0.as_str(), value);
            k = k + 1;
        }
        assert(named.take(named.len() as int) =~= named);
        let created: Vec<(i64, String)> = Vec::new();
        assert(created_views(created@) =~= Seq::<(i64, Seq<char>)>::empty());
        Some(
            ScriptHost {
                props,
                layers,
                scene: scene_state(model),
                user_props: values,
                created,
                camera_op: None,
                order_dirty: false,
                scene_dirty: false,
                user_props_dirty: false,
            },
        )
    }

    /// Say what an engine has to copy before its next run: what changed since
    /// the last copy, or everything where it kept none. The layers it copies
    /// every time.
    pub fn refresh(&mut self, retained: bool) -> (r: Refresh)
        ensures
            r.scene == (!retained || old(self)@.scene_dirty),
            r.user_props == (!retained || old(self)@.user_props_dirty),
            final(self)@ == (HostView { scene_dirty: false, user_props_dirty: false, ..old(self)@ }),
            final(self).user_props == old(self).user_props,
    {
        let r = Refresh {
            scene: !retained || self.scene_dirty,
            user_props: !retained || self.user_props_dirty,
        };
        self.scene_dirty = false;
        self.user_props_dirty = false;
        r
    }

    /// Take in a changed user property, before the scripts are told of it.
    pub fn apply_user_property(&mut self, key: &str, value: &PropertyValue)
        requires
            old(self).wf(),
        ensures
            final(self).wf(),
            final(self)@ == (HostView {
                user_props: old(self)@.user_props.insert(
                    key@,
                    crate::scripting::property_script(value@),
                ),
                user_props_dirty: true,
                ..old(self)@
            }),
    {
        let sv = prop_to_script(value);
        proof {
            lemma_script_values_insert(self.user_props@, key@, sv);
        }
        self.user_props.insert(key, sv);
        self.user_props_dirty = true;
    }

    /// Hand over the layers that scripts created since the last call.
    pub fn take_created(&mut self) -> (r: Vec<(i64, String)>)
        ensures
            created_views(r@) == old(self)@.created,
            final(self)@ == (HostView { created: Seq::empty(), ..old(self)@ }),
            final(self).user_props == old(self).user_props,
    {
        let mut out: Vec<(i64, String)> = Vec::new();
        std::mem::swap(&mut out, &mut self.created);
        assert(created_views(self.created@) =~= Seq::<(i64, Seq<char>)>::empty());
        out
    }

    /// Hand over the pending camera change.
    pub fn take_camera(&mut self) -> (r: Option<CameraOp>)
        ensures
            crate::scripting::opt_camera(r) == old(self)@.camera_op,
            final(self)@ == (HostView { camera_op: None, ..old(self)@ }),
            final(self).user_props == old(self).user_props,
    {
        self.camera_op.take()
    }

    /// Hand over the order of the layers, bottom to top, where it changed since
    /// the last call.
    pub fn take_layer_order(&mut self) -> (r: Option<Vec<i64>>)
        ensures
            match r {
                Some(ids) => old(self)@.order_dirty && ids@ == old(self)@.layers.map_values(
                    |l: LayerView| l.id,
                ),
                None => !old(self)@.order_dirty,
            },
            final(self)@ == (HostView { order_dirty: false, ..old(self)@ }),
            final(self).user_props == old(self).user_props,
    {
        if !self.order_dirty {
            return None;
        }
        self.order_dirty = false;
        let mut ids: Vec<i64> = Vec::new();
        let mut i: usize = 0;
        while i < self.layers.len()
            invariant
                i <= self.layers@.len(),
                ids@.len() == i,
                forall|k: int| 0 <= k < i ==> #[trigger] ids@[k] == self.layers@[k].id,
            decreases self.layers@.len() - i,
        {
            ids.push(self.layers[i].id);
            i = i + 1;
        }
        assert(ids@ =~= self@.layers.map_values(|l: LayerView| l.id));
        Some(ids)
    }

    /// Keep the layer that scripts read in step with a written value.
    pub fn record_layer(&mut self, id: i64, target: PropTarget, value: &ScriptValue)
        ensures
            final(self)@ == (HostView {
                layers: recorded(old(self)@.layers, id, target, value@),
                ..old(self)@
            }),
            final(self).user_props == old(self).user_props,
    {
        let ghost before = self@.layers;
        if let Some(i) = find_layer(&self.layers, id) {
            write_layer(&mut self.layers[i], target, value);
            assert(self@.layers =~= before.update(
                i as int,
                written(before[i as int], target, value@),
            ));
        }
    }

    /// The scripted field whose module has a name.
    fn find_prop(&self, key: &str) -> (r: Option<(i64, PropTarget)>)
        ensures
            r == match prop_named(self@.props, key@) {
                Some(p) => Some((p.object_id, p.target)),
                None => None,
            },
    {
        let ghost all = self@.props;
        let mut i: usize = 0;
        assert(all.take(0) =~= Seq::empty());
        while i < self.props.len()
            invariant
                i <= self.props@.len(),
                all == self@.props,
                prop_named(all.take(i as int), key@) is None,
            decreases self.props@.len() - i,
        {
            assert(all.take(i + 1).drop_last() =~= all.take(i as int));
            assert(all.take(i + 1).last() == self.props@[i as int]@);
            if same(self.props[i].key.as_str(), key) {
                proof {
                    lemma_prop_prefix(all, i + 1, key@);
                }
                return Some((self.props[i].object_id, self.props[i].target));
            }
            i = i + 1;
        }
        assert(all.take(all.len() as int) =~= all);
        None
    }

    /// Take in one value that a property script returned.
    fn take_result(&mut self, updates: &mut Vec<PropUpdate>, key: String, value: ScriptValue)
        ensures
            ({
                let s = after_result(
                    Step {
                        host: old(self)@,
                        updates: crate::scripting::update_views(old(updates)@),
                    },
                    key@,
                    value@,
                );
                final(self)@ == s.host && crate::scripting::update_views(final(updates)@)
                    == s.updates
            }),
            final(self).user_props == old(self).user_props,
    {
        if let Some((object_id, target)) = self.find_prop(key.as_str()) {
            self.take_write(updates, object_id, target, value);
        }
    }

    /// Take in a value written to a field of an object.
    fn take_write(
        &mut self,
        updates: &mut Vec<PropUpdate>,
        object_id: i64,
        target: PropTarget,
        value: ScriptValue,
    )
        ensures
            ({
                let s = after_write(
                    Step {
                        host: old(self)@,
                        updates: crate::scripting::update_views(old(updates)@),
                    },
                    object_id,
                    target,
                    value@,
                );
                final(self)@ == s.host && crate::scripting::update_views(final(updates)@)
                    == s.updates
            }),
            final(self).user_props == old(self).user_props,
    {
        let ghost before = crate::scripting::update_views(updates@);
        self.record_layer(object_id, target, &value);
        let update = PropUpdate { object_id, target, value };
        let ghost shown = update@;
        updates.push(update);
        assert(crate::scripting::update_views(updates@) =~= before.push(shown));
    }

    /// Take in one requested change.
    fn take_op(&mut self, updates: &mut Vec<PropUpdate>, op: SceneOp)
        ensures
            ({
                let s = after_op(
                    Step {
                        host: old(self)@,
                        updates: crate::scripting::update_views(old(updates)@),
                    },
                    op@,
                );
                final(self)@ == s.host && crate::scripting::update_views(final(updates)@)
                    == s.updates
            }),
            final(self).user_props == old(self).user_props,
    {
        let ghost before = self@;
        match op {
            SceneOp::SetProperty { layer_id, name, value } => {
                if let Some(target) = PropTarget::from_field(name.as_str()) {
                    self.take_write(updates, layer_id, target, value);
                }
            },
            SceneOp::CreateLayer { layer_id, path } => {
                let fresh = LayerState {
                    id: layer_id,
                    name: path.clone(),
                    parent: None,
                    origin: Some(nil3()),
                    scale: Some(unit3()),
                    angles: Some(nil3()),
                    visible: Some(true),
                    alpha: Some(one()),
                    color: Some(unit3()),
                    point_size: None,
                    text: None,
                };
                assert(fresh@ == fresh_layer(layer_id, path@));
                let ghost shown = path@;
                self.layers.push(fresh);
                self.created.push((layer_id, path));
                assert(self@.layers =~= before.layers.push(fresh_layer(layer_id, shown)));
                assert(self@.created =~= before.created.push((layer_id, shown)));
            },
            SceneOp::SetCameraTransforms { eye, center, up, fov } => {
                let seen = match &fov {
                    Some(f) => Some(f.copy()),
                    None => None,
                };
                merge_camera(&mut self.camera_op, eye, center, up, fov);
                if let Some(f) = seen {
                    self.scene.fov = f;
                    self.scene_dirty = true;
                }
            },
            SceneOp::SortLayer { layer_id, index } => {
                if sort_layer_apply(&mut self.layers, layer_id, index) {
                    self.order_dirty = true;
                }
            },
            SceneOp::SetParent { layer_id: _, parent: _ } => {},
        }
    }

    /// Take in what one run of the scripts handed back, and list the updates
    /// that the renderer is to apply.
    pub fn process_output(&mut self, output: TickOutput) -> (r: Vec<PropUpdate>)
        requires
            old(self).wf(),
        ensures
            ({
                let s = after_output(
                    old(self)@,
                    result_views(output.property_results@),
                    op_views(output.ops@),
                );
                final(self)@ == s.host && crate::scripting::update_views(r@) == s.updates
            }),
            final(self).wf(),
    {
        let ghost start = Step { host: self@, updates: Seq::empty() };
        let ghost results = result_views(output.property_results@);
        let ghost ops = op_views(output.ops@);
        let mut updates: Vec<PropUpdate> = Vec::new();
        assert(crate::scripting::update_views(updates@) =~= Seq::<UpdateView>::empty());
        let mut left = output.property_results;
        let mut n: usize = 0;
        let total: usize = left.len();
        assert(results.take(0) =~= Seq::empty());
        assert(result_views(left@) =~= results.skip(0));
        while left.len() > 0
            invariant
                n + left@.len() == total,
                total == results.len(),
                result_views(left@) == results.skip(n as int),
                self.wf(),
                ({
                    let s = after_results(start, results.take(n as int));
                    self@ == s.host && crate::scripting::update_views(updates@) == s.updates
                }),
            decreases left@.len(),
        {
            let ghost held = left@;
            let (key, value) = left.remove(0);
            proof {
                assert(result_views(held)[0] == (key@, value@));
                assert(results.skip(n as int)[0] == results[n as int]);
                assert(results.take(n + 1).drop_last() =~= results.take(n as int));
                assert(results.take(n + 1).last() == (key@, value@));
                assert(result_views(left@) =~= results.skip(n + 1)) by {
                    assert forall|i: int| 0 <= i < left@.len() implies result_views(left@)[i]
                        == results.skip(n + 1)[i] by {
                        assert(left@[i] == held[i + 1]);
                        assert(result_views(held)[i + 1] == results.skip(n as int)[i + 1]);
                    }
                }
            }
            self.take_result(&mut updates, key, value);
            n = n + 1;
        }
        assert(results.take(n as int) =~= results);
        let ghost middle = after_results(start, results);
        let mut todo = output.ops;
        let mut m: usize = 0;
        let count: usize = todo.len();
        assert(ops.take(0) =~= Seq::empty());
        assert(op_views(todo@) =~= ops.skip(0));
        while todo.len() > 0
            invariant
                m + todo@.len() == count,
                count == ops.len(),
                op_views(todo@) == ops.skip(m as int),
                self.wf(),
                ({
                    let s = after_ops(middle, ops.take(m as int));
                    self@ == s.host && crate::scripting::update_views(updates@) == s.updates
                }),
            decreases todo@.len(),
        {
            let ghost held = todo@;
            let op = todo.remove(0);
            proof {
                assert(op_views(held)[0] == op@);
                assert(ops.skip(m as int)[0] == ops[m as int]);
                assert(ops.take(m + 1).drop_last() =~= ops.take(m as int));
                assert(ops.take(m + 1).last() == op@);
                assert(op_views(todo@) =~= ops.skip(m + 1)) by {
                    assert forall|i: int| 0 <= i < todo@.len() implies op_views(todo@)[i]
                        == ops.skip(m + 1)[i] by {
                        assert(todo@[i] == held[i + 1]);
                        assert(op_views(held)[i + 1] == ops.skip(m as int)[i + 1]);
                    }
                }
            }
            self.take_op(&mut updates, op);
            m = m + 1;
        }
        assert(ops.take(m as int) =~= ops);
        updates
    }
}

/// What is found in a beginning of the list is what is found in the list.
proof fn lemma_prop_prefix(all: Seq<PropView>, n: int, key: Seq<char>)
    requires
        0 <= n <= all.len(),
        prop_named(all.take(n), key) is Some,
    ensures
        prop_named(all, key) == prop_named(all.take(n), key),
    decreases all.len() - n,
{
    if n < all.len() {
        assert(all.take(n + 1).drop_last() =~= all.take(n));
        lemma_prop_prefix(all, n + 1, key);
    } else {
        assert(all.take(n) =~= all);
    }
}

/// Whether an engine's copies of the scene and of the user properties agree
/// with a host, as far as the host does not say that they are out of date.
pub open spec fn in_step(
    h: HostView,
    scene: SceneStateView,
    user_props: Map<Seq<char>, ScriptValueView>,
) -> bool {
    &&& !h.scene_dirty ==> scene == h.scene
    &&& !h.user_props_dirty ==> user_props == h.user_props
}

/// An engine that renews what [`ScriptHost::refresh`] names has exact copies.
pub proof fn law_refreshed_copy_is_exact(
    h: HostView,
    retained: bool,
    scene: SceneStateView,
    user_props: Map<Seq<char>, ScriptValueView>,
)
    requires
        retained ==> in_step(h, scene, user_props),
    ensures
        ({
            let renew_scene = !retained || h.scene_dirty;
            let renew_props = !retained || h.user_props_dirty;
            &&& (if renew_scene {
                h.scene
            } else {
                scene
            }) == h.scene
            &&& (if renew_props {
                h.user_props
            } else {
                user_props
            }) == h.user_props
        }),
{
}

/// No engine output puts an engine's copies out of step, and none drops a
/// script, a user property or a layer.
pub proof fn law_output_keeps_step(
    h: HostView,
    results: Seq<(Seq<char>, ScriptValueView)>,
    ops: Seq<OpView>,
    scene: SceneStateView,
    user_props: Map<Seq<char>, ScriptValueView>,
)
    requires
        in_step(h, scene, user_props),
    ensures
        in_step(after_output(h, results, ops).host, scene, user_props),
        after_output(h, results, ops).host.props == h.props,
        after_output(h, results, ops).host.user_props == h.user_props,
        after_output(h, results, ops).host.layers.len() >= h.layers.len(),
{
    let start = Step { host: h, updates: Seq::empty() };
    lemma_results_keep(start, results);
    lemma_ops_keep(after_results(start, results), ops, scene, user_props);
}

/// Returned values change nothing but the layers.
proof fn lemma_results_keep(s: Step, results: Seq<(Seq<char>, ScriptValueView)>)
    ensures
        after_results(s, results).host == (HostView {
            layers: after_results(s, results).host.layers,
            ..s.host
        }),
        after_results(s, results).host.layers.len() == s.host.layers.len(),
    decreases results.len(),
{
    if results.len() > 0 {
        lemma_results_keep(s, results.drop_last());
        let mid = after_results(s, results.drop_last());
        if let Some(p) = prop_named(mid.host.props, results.last().0) {
            lemma_layer_at(mid.host.layers, p.object_id);
        }
    }
}

/// Requested changes keep an engine's copies in step and every layer.
proof fn lemma_ops_keep(
    s: Step,
    ops: Seq<OpView>,
    scene: SceneStateView,
    user_props: Map<Seq<char>, ScriptValueView>,
)
    requires
        in_step(s.host, scene, user_props),
    ensures
        in_step(after_ops(s, ops).host, scene, user_props),
        after_ops(s, ops).host.props == s.host.props,
        after_ops(s, ops).host.user_props == s.host.user_props,
        after_ops(s, ops).host.layers.len() >= s.host.layers.len(),
    decreases ops.len(),
{
    if ops.len() > 0 {
        lemma_ops_keep(s, ops.drop_last(), scene, user_props);
        let mid = after_ops(s, ops.drop_last());
        match ops.last() {
            OpView::SortLayer { layer_id, index } => {
                law_sort_layer_permutes(mid.host.layers, layer_id, index);
            },
            OpView::SetProperty { layer_id, name: _, value: _ } => {
                lemma_layer_at(mid.host.layers, layer_id);
            },
            _ => {},
        }
    }
}

/// A written value is what scripts read back from the layer.
pub proof fn law_written_value_reads_back(
    layers: Seq<LayerView>,
    id: i64,
    target: PropTarget,
    value: ScriptValueView,
)
    requires
        layer_at(layers, id) is Some,
    ensures
        layer_at(recorded(layers, id, target, value), id) == layer_at(layers, id),
        ({
            let l = recorded(layers, id, target, value)[layer_at(layers, id)->0];
            match target {
                PropTarget::Alpha => crate::scripting::script_scalar(value) is Some ==> l.alpha
                    == crate::scripting::script_scalar(value),
                PropTarget::Color => crate::scripting::script_rgb(value) is Some ==> l.color
                    == crate::scripting::script_rgb(value),
                PropTarget::Visible => value matches ScriptValueView::Bool(b) ==> l.visible == Some(
                    b,
                ),
                PropTarget::Text => value matches ScriptValueView::Str(s) ==> l.text == Some(s),
                PropTarget::Origin => crate::scripting::script_vec3(value) is Some ==> l.origin
                    == crate::scripting::script_vec3(value),
                PropTarget::Scale => crate::scripting::script_vec3(value) is Some ==> l.scale
                    == crate::scripting::script_vec3(value),
                PropTarget::Angles => crate::scripting::script_vec3(value) is Some ==> l.angles
                    == crate::scripting::script_vec3(value),
                PropTarget::Brightness => l == layers[layer_at(layers, id)->0],
            }
        }),
{
    lemma_layer_at(layers, id);
    let i = layer_at(layers, id)->0;
    let after = recorded(layers, id, target, value);
    assert forall|k: int| 0 <= k < i implies (#[trigger] after[k]).id != id by {
        assert(after[k] == layers[k]);
    }
    lemma_layer_found(after, id, i);
}

/// A moved layer ends up at the position that was asked for, or on top where
/// there is no such position.
pub proof fn law_sort_layer_places(layers: Seq<LayerView>, i: int, index: i64)
    requires
        0 <= i < layers.len(),
        forall|k: int| 0 <= k < i ==> (#[trigger] layers[k]).id != layers[i].id,
    ensures
        0 <= index < layers.len() ==> moved(layers, layers[i].id, index)[index as int] == layers[i],
        index < 0 || index >= layers.len() ==> moved(layers, layers[i].id, index).last()
            == layers[i],
        moved(layers, layers[i].id, index).len() == layers.len(),
{
    lemma_layer_found(layers, layers[i].id, i);
}

/// A value that is written to a layer changes that layer alone: all others stay
/// as they are and where they are. Without such a layer nothing changes.
pub proof fn law_write_leaves_others(
    layers: Seq<LayerView>,
    id: i64,
    target: PropTarget,
    value: ScriptValueView,
    k: int,
)
    requires
        0 <= k < layers.len(),
    ensures
        recorded(layers, id, target, value).len() == layers.len(),
        layers[k].id != id ==> recorded(layers, id, target, value)[k] == layers[k],
        (exists|j: int| 0 <= j < k && (#[trigger] layers[j]).id == id) ==> recorded(
            layers,
            id,
            target,
            value,
        )[k] == layers[k],
        recorded(layers, id, target, value)[k].id == layers[k].id,
        recorded(layers, id, target, value)[k].name == layers[k].name,
        recorded(layers, id, target, value)[k].parent == layers[k].parent,
        target != PropTarget::Alpha ==> recorded(layers, id, target, value)[k].alpha
            == layers[k].alpha,
        target != PropTarget::Color ==> recorded(layers, id, target, value)[k].color
            == layers[k].color,
        target != PropTarget::Visible ==> recorded(layers, id, target, value)[k].visible
            == layers[k].visible,
        target != PropTarget::Text ==> recorded(layers, id, target, value)[k].text == layers[k].text,
        target != PropTarget::Origin ==> recorded(layers, id, target, value)[k].origin
            == layers[k].origin,
        target != PropTarget::Scale ==> recorded(layers, id, target, value)[k].scale
            == layers[k].scale,
        target != PropTarget::Angles ==> recorded(layers, id, target, value)[k].angles
            == layers[k].angles,
{
    lemma_layer_at(layers, id);
}

/// The first scripted field with a name is found, and none where none has it.
pub proof fn lemma_prop_named(props: Seq<PropView>, key: Seq<char>, i: int)
    ensures
        0 <= i < props.len() && props[i].key == key && (forall|k: int|
            0 <= k < i ==> (#[trigger] props[k]).key != key) ==> prop_named(props, key) == Some(
            props[i],
        ),
        (forall|k: int| 0 <= k < props.len() ==> (#[trigger] props[k]).key != key) ==> prop_named(
            props,
            key,
        ) is None,
    decreases props.len(),
{
    if props.len() > 0 {
        let head = props.drop_last();
        let last = props.len() - 1;
        lemma_prop_named(head, key, i);
        assert(forall|k: int| 0 <= k < head.len() ==> #[trigger] head[k] == props[k]);
        assert(props[last] == props.last());
        if 0 <= i < last {
            assert(head[i] == props[i]);
        }
        if 0 <= i == last && (forall|k: int| 0 <= k < i ==> (#[trigger] props[k]).key != key) {
            assert(forall|k: int| 0 <= k < head.len() ==> (#[trigger] head[k]).key != key);
        }
    }
}

/// What a property script returns becomes an update of the field it drives, and
/// the layer that scripts read follows; a value of a script that is not known
/// is dropped.
pub proof fn law_returned_value_is_an_update(
    s: Step,
    key: Seq<char>,
    value: ScriptValueView,
    i: int,
)
    ensures
        0 <= i < s.host.props.len() && s.host.props[i].key == key && (forall|k: int|
            0 <= k < i ==> (#[trigger] s.host.props[k]).key != key) ==> {
            let after = after_results(s, seq![(key, value)]);
            &&& after.updates == s.updates.push(
                UpdateView {
                    object_id: s.host.props[i].object_id,
                    target: s.host.props[i].target,
                    value,
                },
            )
            &&& after.host.layers == recorded(
                s.host.layers,
                s.host.props[i].object_id,
                s.host.props[i].target,
                value,
            )
        },
        (forall|k: int| 0 <= k < s.host.props.len() ==> (#[trigger] s.host.props[k]).key != key)
            ==> after_results(s, seq![(key, value)]) == s,
        after_results(s, seq![(key, value)]).host == (HostView {
            layers: after_results(s, seq![(key, value)]).host.layers,
            ..s.host
        }),
{
    let one = seq![(key, value)];
    assert(one.drop_last() =~= Seq::empty());
    assert(after_results(s, Seq::<(Seq<char>, ScriptValueView)>::empty()) == s);
    assert(after_results(s, one) == after_result(s, key, value));
    lemma_prop_named(s.host.props, key, i);
}

/// Returned values are taken in their order.
pub proof fn law_results_in_order(
    s: Step,
    a: Seq<(Seq<char>, ScriptValueView)>,
    b: Seq<(Seq<char>, ScriptValueView)>,
)
    ensures
        after_results(s, a + b) == after_results(after_results(s, a), b),
    decreases b.len(),
{
    if b.len() > 0 {
        assert((a + b).drop_last() =~= a + b.drop_last());
        law_results_in_order(s, a, b.drop_last());
    } else {
        assert(a + b =~= a);
    }
}

/// Requested changes are taken in their order.
pub proof fn law_ops_in_order(s: Step, a: Seq<OpView>, b: Seq<OpView>)
    ensures
        after_ops(s, a + b) == after_ops(after_ops(s, a), b),
    decreases b.len(),
{
    if b.len() > 0 {
        assert((a + b).drop_last() =~= a + b.drop_last());
        law_ops_in_order(s, a, b.drop_last());
    } else {
        assert(a + b =~= a);
    }
}

/// Values that scripts return are taken before the changes that they request.
pub proof fn law_results_before_ops(
    h: HostView,
    results: Seq<(Seq<char>, ScriptValueView)>,
    ops: Seq<OpView>,
)
    ensures
        after_output(h, results, Seq::empty()) == after_results(
            Step { host: h, updates: Seq::empty() },
            results,
        ),
        after_output(h, Seq::empty(), ops) == after_ops(
            Step { host: h, updates: Seq::empty() },
            ops,
        ),
        after_output(h, results, ops) == after_ops(after_output(h, results, Seq::empty()), ops),
{
}

/// A step after one change, as the first of several.
proof fn lemma_one_op(s: Step, op: OpView)
    ensures
        after_ops(s, seq![op]) == after_op(s, op),
{
    let one = seq![op];
    assert(one.drop_last() =~= Seq::empty());
    assert(after_ops(s, Seq::<OpView>::empty()) == s);
}

/// A write that a script requests is an update of the field that it names, and
/// the layer that scripts read follows; a name that is no field is dropped.
pub proof fn law_requested_write_is_an_update(
    s: Step,
    layer_id: i64,
    name: Seq<char>,
    value: ScriptValueView,
    target: PropTarget,
)
    ensures
        ({
            let after = after_ops(s, seq![OpView::SetProperty { layer_id, name, value }]);
            let field = match target {
                PropTarget::Alpha => "alpha"@,
                PropTarget::Brightness => "brightness"@,
                PropTarget::Color => "color"@,
                PropTarget::Visible => "visible"@,
                PropTarget::Text => "text"@,
                PropTarget::Origin => "origin"@,
                PropTarget::Scale => "scale"@,
                PropTarget::Angles => "angles"@,
            };
            &&& name == field ==> after.updates == s.updates.push(
                UpdateView { object_id: layer_id, target, value },
            )
            &&& name == field ==> after.host == (HostView {
                layers: recorded(s.host.layers, layer_id, target, value),
                ..s.host
            })
            &&& name != "alpha"@ && name != "brightness"@ && name != "color"@ && name != "visible"@
                && name != "text"@ && name != "origin"@ && name != "scale"@ && name != "angles"@
                ==> after == s
        }),
{
    lemma_one_op(s, OpView::SetProperty { layer_id, name, value });
    crate::scripting::law_field_names(name);
}

/// A layer that a script creates is on top of the others and handed to the
/// renderer, under its id and the name of its asset: visible, opaque, white,
/// of unit scale, in the origin and without a parent.
pub proof fn law_created_layer(s: Step, layer_id: i64, path: Seq<char>)
    ensures
        ({
            let after = after_ops(s, seq![OpView::CreateLayer { layer_id, path }]);
            let l = after.host.layers.last();
            let nil = ScalarView::Whole(0);
            let unit = ScalarView::Whole(1);
            &&& after.updates == s.updates
            &&& after.host.layers.len() == s.host.layers.len() + 1
            &&& after.host.layers.drop_last() == s.host.layers
            &&& after.host.created == s.host.created.push((layer_id, path))
            &&& l.id == layer_id
            &&& l.name == path
            &&& l.parent is None
            &&& l.visible == Some(true)
            &&& l.alpha == Some(unit)
            &&& l.color == Some(seq![unit, unit, unit])
            &&& l.scale == Some(seq![unit, unit, unit])
            &&& l.origin == Some(seq![nil, nil, nil])
            &&& l.angles == Some(seq![nil, nil, nil])
            &&& l.text is None
            &&& l.point_size is None
            &&& after.host.props == s.host.props
            &&& after.host.scene == s.host.scene
            &&& after.host.user_props == s.host.user_props
            &&& after.host.camera_op == s.host.camera_op
        }),
{
    lemma_one_op(s, OpView::CreateLayer { layer_id, path });
    assert(s.host.layers.push(fresh_layer(layer_id, path)).drop_last() =~= s.host.layers);
}

/// A camera call is kept for the renderer, the fields of the last call winning;
/// scripts read its field of view back, and of everything else the authored
/// camera.
pub proof fn law_camera_call_is_kept(s: Step, c: CameraOpView)
    ensures
        ({
            let after = after_ops(s, seq![OpView::SetCameraTransforms(c)]);
            &&& after.updates == s.updates
            &&& after.host.layers == s.host.layers
            &&& after.host.created == s.host.created
            &&& after.host.camera_op is Some
            &&& c.eye is Some ==> after.host.camera_op->0.eye == c.eye
            &&& c.center is Some ==> after.host.camera_op->0.center == c.center
            &&& c.up is Some ==> after.host.camera_op->0.up == c.up
            &&& c.fov is Some ==> after.host.camera_op->0.fov == c.fov
            &&& s.host.camera_op is Some && c.eye is None ==> after.host.camera_op->0.eye
                == s.host.camera_op->0.eye
            &&& s.host.camera_op is Some && c.center is None ==> after.host.camera_op->0.center
                == s.host.camera_op->0.center
            &&& s.host.camera_op is Some && c.up is None ==> after.host.camera_op->0.up
                == s.host.camera_op->0.up
            &&& s.host.camera_op is Some && c.fov is None ==> after.host.camera_op->0.fov
                == s.host.camera_op->0.fov
            &&& c.fov matches Some(f) ==> after.host.scene.fov == f && after.host.scene_dirty
            &&& c.fov is None ==> after.host.scene == s.host.scene
            &&& after.host.scene.eye == s.host.scene.eye
            &&& after.host.scene.center == s.host.scene.center
            &&& after.host.scene.up == s.host.scene.up
        }),
{
    lemma_one_op(s, OpView::SetCameraTransforms(c));
}

/// A layer that a script sorts is moved, and the renderer is told where there is
/// such a layer; another parent for a layer changes nothing.
pub proof fn law_sorted_layer(s: Step, layer_id: i64, index: i64, parent: Option<i64>)
    ensures
        ({
            let after = after_ops(s, seq![OpView::SortLayer { layer_id, index }]);
            &&& after.updates == s.updates
            &&& after.host.layers == moved(s.host.layers, layer_id, index)
            &&& (exists|k: int|
                0 <= k < s.host.layers.len() && (#[trigger] s.host.layers[k]).id == layer_id)
                ==> after.host.order_dirty
            &&& !(exists|k: int|
                0 <= k < s.host.layers.len() && (#[trigger] s.host.layers[k]).id == layer_id)
                ==> after == s
        }),
        after_ops(s, seq![OpView::SetParent { layer_id, parent }]) == s,
{
    lemma_one_op(s, OpView::SortLayer { layer_id, index });
    lemma_one_op(s, OpView::SetParent { layer_id, parent });
    lemma_layer_at(s.host.layers, layer_id);
}

/// The scripts of a host are those that the engine took, in their order.
pub proof fn law_loaded_scripts(pending: Seq<PendingView>, loaded: Seq<bool>)
    requires
        pending.len() <= loaded.len(),
    ensures
        forall|i: int|
            0 <= i < pending.len() && loaded[i] ==> loaded_props(pending, loaded).contains(
                (#[trigger] pending[i]).prop,
            ),
        forall|j: int|
            0 <= j < loaded_props(pending, loaded).len() ==> exists|i: int|
                0 <= i < pending.len() && loaded[i] && (#[trigger] pending[i]).prop
                    == #[trigger] loaded_props(pending, loaded)[j],
        pending.len() > 0 ==> loaded_props(pending, loaded).len() == loaded_props(
            pending.drop_last(),
            loaded,
        ).len() + (if loaded[pending.len() - 1] {
            1nat
        } else {
            0
        }),
        pending.len() > 0 && loaded[pending.len() - 1] ==> loaded_props(pending, loaded).last()
            == pending.last().prop,
    decreases pending.len(),
{
    let all = loaded_props(pending, loaded);
    if pending.len() > 0 {
        let head = pending.drop_last();
        let last = pending.len() - 1;
        law_loaded_scripts(head, loaded);
        let before = loaded_props(head, loaded);
        assert forall|i: int| 0 <= i < pending.len() && loaded[i] implies all.contains(
            (#[trigger] pending[i]).prop,
        ) by {
            if i < last {
                assert(head[i] == pending[i]);
                let j = choose|j: int| 0 <= j < before.len() && before[j] == head[i].prop;
                assert(all[j] == pending[i].prop);
            } else {
                assert(all[all.len() - 1] == pending[i].prop);
            }
        }
        assert forall|j: int| 0 <= j < all.len() implies exists|i: int|
            0 <= i < pending.len() && loaded[i] && (#[trigger] pending[i]).prop
                == #[trigger] all[j] by {
            if j < before.len() {
                let i = choose|i: int|
                    0 <= i < head.len() && loaded[i] && (#[trigger] head[i]).prop == before[j];
                assert(pending[i].prop == all[j]);
            } else {
                assert(pending[last].prop == all[j]);
            }
        }
    }
}

/// Scripts read each user property under its name, the later of two with one
/// name, and no others.
pub proof fn law_user_properties_of_scripts(
    props: Seq<(Seq<char>, PropertyView)>,
    i: int,
    name: Seq<char>,
)
    ensures
        0 <= i < props.len() && props[i].0 == name && (forall|k: int|
            i < k < props.len() ==> (#[trigger] props[k]).0 != name) ==> script_props_of(
            props,
        ).dom().contains(name) && script_props_of(props)[name]
            == crate::scripting::property_script(props[i].1),
        (forall|k: int| 0 <= k < props.len() ==> (#[trigger] props[k]).0 != name)
            ==> !script_props_of(props).dom().contains(name),
    decreases props.len(),
{
    if props.len() > 0 {
        let head = props.drop_last();
        let last = props.len() - 1;
        law_user_properties_of_scripts(head, i, name);
        assert(forall|k: int| 0 <= k < head.len() ==> #[trigger] head[k] == props[k]);
        assert(props[last] == props.last());
        if 0 <= i < last {
            assert(head[i] == props[i]);
        }
    }
}

/// An engine copies what changed since it last did, and everything where it
/// kept nothing; after that nothing is left to copy, and nothing else changes.
pub proof fn law_refresh_copies_changes(h: &mut ScriptHost, retained: bool, r: Refresh)
    requires
        call_ensures(ScriptHost::refresh, (h, retained), r),
    ensures
        !retained ==> r.scene && r.user_props,
        old(h)@.scene_dirty ==> r.scene,
        old(h)@.user_props_dirty ==> r.user_props,
        retained && !old(h)@.scene_dirty ==> !r.scene,
        retained && !old(h)@.user_props_dirty ==> !r.user_props,
        !final(h)@.scene_dirty && !final(h)@.user_props_dirty,
        final(h)@.layers == old(h)@.layers,
        final(h)@.props == old(h)@.props,
{
}

/// A changed user property is what scripts read next, and they are told of it.
pub proof fn law_user_property_reaches_scripts(
    h: &mut ScriptHost,
    key: &str,
    value: &PropertyValue,
    r: (),
)
    requires
        old(h).wf(),
        call_ensures(ScriptHost::apply_user_property, (h, key, value), r),
    ensures
        final(h)@.user_props.dom().contains(key@),
        final(h)@.user_props[key@] == crate::scripting::property_script(value@),
        forall|k: Seq<char>|
            k != key@ && old(h)@.user_props.dom().contains(k) ==> #[trigger] final(h)@.user_props[k]
                == old(h)@.user_props[k],
        final(h)@.user_props_dirty,
        final(h)@.layers == old(h)@.layers,
        final(h)@.props == old(h)@.props,
{
}

/// Created layers and a changed order are handed over once; the order is that of
/// the layers, bottom to top.
pub proof fn law_changes_are_handed_over(
    a: &mut ScriptHost,
    created: Vec<(i64, String)>,
    b: &mut ScriptHost,
    order: Option<Vec<i64>>,
)
    requires
        call_ensures(ScriptHost::take_created, (a,), created),
        call_ensures(ScriptHost::take_layer_order, (b,), order),
    ensures
        created_views(created@) == old(a)@.created,
        final(a)@.created.len() == 0,
        final(a)@.layers == old(a)@.layers,
        order is Some == old(b)@.order_dirty,
        order matches Some(ids) ==> ids@.len() == old(b)@.layers.len() && forall|i: int|
            0 <= i < ids@.len() ==> #[trigger] ids@[i] == old(b)@.layers[i].id,
        !final(b)@.order_dirty,
        final(b)@.layers == old(b)@.layers,
{
}

/// What a run of the scripts does to the host is what its results do, in order,
/// and then what its requests do; the updates are listed in that order.
pub proof fn law_output_is_taken_in(h: &mut ScriptHost, output: TickOutput, r: Vec<PropUpdate>)
    requires
        old(h).wf(),
        call_ensures(ScriptHost::process_output, (h, output), r),
    ensures
        ({
            let start = Step { host: old(h)@, updates: Seq::empty() };
            let mid = after_results(start, result_views(output.property_results@));
            let end = after_ops(mid, op_views(output.ops@));
            final(h)@ == end.host && crate::scripting::update_views(r@) == end.updates
        }),
{
}

/// A host runs the scripts that the engine took, and there is none where it took
/// none. It begins with the layers of the scene and nothing to tell.
pub proof fn law_host_of_scene(
    model: &SceneModel,
    staged: Staged,
    loaded: &Vec<bool>,
    user_props: &Vec<(String, PropertyValue)>,
    r: Option<ScriptHost>,
)
    requires
        call_ensures(ScriptHost::build, (model, staged, loaded, user_props), r),
    ensures
        ({
            let props = loaded_props(crate::scripting::pending_views(staged.pending@), loaded@);
            &&& r is Some == (props.len() > 0)
            &&& r matches Some(h) ==> h@.props == props
            &&& r matches Some(h) ==> h@.layers == crate::scripting::layer_views(staged.layers@)
            &&& r matches Some(h) ==> h@.scene == crate::scripting::scene_state_of(model.scene@)
            &&& r matches Some(h) ==> h@.user_props == script_props_of(named_views(user_props@))
            &&& r matches Some(h) ==> h@.created.len() == 0 && h@.camera_op is None
                && !h@.order_dirty && !h@.scene_dirty && !h@.user_props_dirty
        }),
{
}

} // verus!
