//! What is live in a running scene: images, runtime layers, visibility, and
//! the updates that change them.
use vstd::prelude::*;

use std::collections::HashMap;

use crate::number::{Scalar, ScalarView};
use crate::params::{
    resolve_params, ParamValues, Parameter, ParameterView,
};
use crate::property::{PropertyBag, PropertyView};
use crate::resolve::resolve_constants;
use crate::scripting::{
    as_f32, as_rgb, as_vec3, PropTarget, PropUpdate, ScriptValue, ScriptValueView, UpdateView,
};
use crate::user::{ConstantValues, SettingView};
use crate::value::{one, zero, Color, DynamicView, Vec3};

verus! {

/// A pass whose constants may change while the scene runs.
#[derive(Debug)]
pub struct LivePass {
    /// The constants of its material that some parameter reads.
    pub constants: ConstantValues,
    /// Parameters of the vertex stage.
    pub params_vs: Vec<Parameter>,
    /// Parameters of the fragment stage.
    pub params_fs: Vec<Parameter>,
    /// Values of the parameters of the vertex stage.
    pub vs_params: ParamValues,
    /// Values of the parameters of the fragment stage.
    pub fs_params: ParamValues,
}

/// What a [`LivePass`] holds. The values of its parameters follow from the
/// rest.
pub struct LivePassView {
    /// The constants.
    pub constants: Map<Seq<char>, SettingView<DynamicView>>,
    /// Parameters of the vertex stage.
    pub vs: Seq<ParameterView>,
    /// Parameters of the fragment stage.
    pub fs: Seq<ParameterView>,
}

impl View for LivePass {
    type V = LivePassView;

    open spec fn view(&self) -> LivePassView {
        LivePassView {
            constants: crate::user::constants(self.constants),
            vs: crate::params::parameter_views(self.params_vs@),
            fs: crate::params::parameter_views(self.params_fs@),
        }
    }
}

/// A pass after a change of properties.
pub open spec fn resolved_live_pass(
    p: LivePassView,
    bag: Map<Seq<char>, PropertyView>,
) -> LivePassView {
    LivePassView { constants: crate::resolve::resolved_constants(p.constants, bag), ..p }
}

impl LivePass {
    /// The values of the parameters are those that the constants give.
    pub open spec fn wf(&self) -> bool {
        &&& self.constants.wf()
        &&& self.vs_params.wf()
        &&& self.fs_params.wf()
        &&& crate::params::param_values(self.vs_params) == crate::params::params_of(
            self@.vs,
            self@.constants,
        )
        &&& crate::params::param_values(self.fs_params) == crate::params::params_of(
            self@.fs,
            self@.constants,
        )
    }

    /// A pass with its constants and parameters.
    pub fn new(
        constants: ConstantValues,
        params_vs: Vec<Parameter>,
        params_fs: Vec<Parameter>,
    ) -> (r: LivePass)
        requires
            constants.wf(),
        ensures
            r.wf(),
            r@ == (LivePassView {
                constants: crate::user::constants(constants),
                vs: crate::params::parameter_views(params_vs@),
                fs: crate::params::parameter_views(params_fs@),
            }),
    {
        let vs_params = resolve_params(&params_vs, &constants);
        let fs_params = resolve_params(&params_fs, &constants);
        LivePass { constants, params_vs, params_fs, vs_params, fs_params }
    }

    /// Follow a change of properties.
    pub fn resolve(&mut self, bag: &PropertyBag)
        requires
            old(self).wf(),
            bag.wf(),
        ensures
            final(self).wf(),
            final(self)@ == resolved_live_pass(old(self)@, bag@),
    {
        resolve_constants(&mut self.constants, bag);
        self.vs_params = resolve_params(&self.params_vs, &self.constants);
        self.fs_params = resolve_params(&self.params_fs, &self.constants);
    }
}

/// An image that is drawn.
#[derive(Debug)]
pub struct LiveImage {
    /// Object id.
    pub id: i64,
    /// Parent object.
    pub parent: Option<i64>,
    /// Its passes.
    pub passes: Vec<LivePass>,
    /// Alpha.
    pub alpha: Scalar,
    /// Brightness.
    pub brightness: Scalar,
    /// Color.
    pub color: Color,
    /// Visibility.
    pub visible: bool,
    /// Whether it samples the scene as it is composited so far.
    pub reads_scene: bool,
    /// Whether it is drawn for others to sample, not into the scene.
    pub offscreen_donor: bool,
}

/// What a [`LiveImage`] holds.
pub struct LiveImageView {
    /// Object id.
    pub id: i64,
    /// Parent object.
    pub parent: Option<i64>,
    /// Its passes.
    pub passes: Seq<LivePassView>,
    /// Alpha.
    pub alpha: ScalarView,
    /// Brightness.
    pub brightness: ScalarView,
    /// Color.
    pub color: Seq<ScalarView>,
    /// Visibility.
    pub visible: bool,
    /// Whether it samples the scene.
    pub reads_scene: bool,
    /// Whether it is drawn for others to sample.
    pub donor: bool,
}

/// What a list of passes holds.
pub open spec fn live_pass_views(v: Seq<LivePass>) -> Seq<LivePassView> {
    Seq::new(v.len(), |i: int| v[i]@)
}

/// Every pass is well formed.
pub open spec fn live_passes_wf(v: Seq<LivePass>) -> bool {
    forall|i: int| 0 <= i < v.len() ==> (#[trigger] v[i]).wf()
}

impl View for LiveImage {
    type V = LiveImageView;

    open spec fn view(&self) -> LiveImageView {
        LiveImageView {
            id: self.id,
            parent: self.parent,
            passes: live_pass_views(self.passes@),
            alpha: self.alpha@,
            brightness: self.brightness@,
            color: crate::number::scalars(self.color@),
            visible: self.visible,
            reads_scene: self.reads_scene,
            donor: self.offscreen_donor,
        }
    }
}

/// An image after a change of properties.
pub open spec fn resolved_live_image(
    v: LiveImageView,
    bag: Map<Seq<char>, PropertyView>,
) -> LiveImageView {
    LiveImageView {
        passes: v.passes.map_values(|p: LivePassView| resolved_live_pass(p, bag)),
        ..v
    }
}

/// An image after an update that is addressed to it. Alpha, brightness, color
/// and visibility are live; a color keeps its alpha.
pub open spec fn updated_image(v: LiveImageView, u: UpdateView) -> LiveImageView {
    if v.id != u.object_id {
        v
    } else {
        match u.target {
            PropTarget::Alpha => match crate::scripting::script_scalar(u.value) {
                Some(a) => LiveImageView { alpha: a, ..v },
                None => v,
            },
            PropTarget::Brightness => match crate::scripting::script_scalar(u.value) {
                Some(b) => LiveImageView { brightness: b, ..v },
                None => v,
            },
            PropTarget::Color => match crate::scripting::script_rgb(u.value) {
                Some(c) => LiveImageView { color: seq![c[0], c[1], c[2], v.color[3]], ..v },
                None => v,
            },
            PropTarget::Visible => match u.value {
                ScriptValueView::Bool(b) => LiveImageView { visible: b, ..v },
                _ => v,
            },
            _ => v,
        }
    }
}

impl LiveImage {
    /// Every pass is well formed.
    pub open spec fn wf(&self) -> bool {
        live_passes_wf(self.passes@)
    }

    /// Follow a change of properties.
    pub fn resolve(&mut self, bag: &PropertyBag)
        requires
            old(self).wf(),
            bag.wf(),
        ensures
            final(self).wf(),
            final(self)@ == resolved_live_image(old(self)@, bag@),
    {
        let ghost was = self.passes@;
        let mut i: usize = 0;
        while i < self.passes.len()
            invariant
                i <= self.passes@.len(),
                self.passes@.len() == was.len(),
                bag.wf(),
                self.wf(),
                self.id == old(self).id,
                self.parent == old(self).parent,
                self.alpha == old(self).alpha,
                self.brightness == old(self).brightness,
                self.color == old(self).color,
                self.visible == old(self).visible,
                self.reads_scene == old(self).reads_scene,
                self.offscreen_donor == old(self).offscreen_donor,
                forall|k: int|
                    0 <= k < i ==> (#[trigger] self.passes@[k])@ == resolved_live_pass(
                        was[k]@,
                        bag@,
                    ),
                forall|k: int| i <= k < was.len() ==> #[trigger] self.passes@[k] == was[k],
            decreases self.passes@.len() - i,
        {
            let ghost held = self.passes@;
            assert(held[i as int].wf());
            self.passes[i].resolve(bag);
            assert forall|k: int| 0 <= k < self.passes@.len() implies (
            #[trigger] self.passes@[k]).wf() by {
                if k != i {
                    assert(self.passes@[k] == held[k]);
                }
            }
            i = i + 1;
        }
        assert(live_pass_views(self.passes@) =~= live_pass_views(was).map_values(
            |p: LivePassView| resolved_live_pass(p, bag@),
        ));
    }

    /// Take in an update, if it is addressed to this image.
    pub fn update(&mut self, u: &PropUpdate)
        requires
            old(self).wf(),
        ensures
            final(self).wf(),
            final(self)@ == updated_image(old(self)@, u@),
    {
        if self.id != u.object_id {
            return;
        }
        match u.target {
            PropTarget::Alpha => {
                if let Some(a) = as_f32(&u.value) {
                    self.alpha = a;
                }
            },
            PropTarget::Brightness => {
                if let Some(b) = as_f32(&u.value) {
                    self.brightness = b;
                }
            },
            PropTarget::Color => {
                if let Some(c) = as_rgb(&u.value) {
                    let color: Color = [
                        c[0].copy(),
                        c[1].copy(),
                        c[2].copy(),
                        self.color[3].copy(),
                    ];
                    assert(crate::number::scalars(color@) =~= updated_image(self@, u@).color);
                    self.color = color;
                }
            },
            PropTarget::Visible => {
                if let ScriptValue::Bool(b) = &u.value {
                    self.visible = *b;
                }
            },
            _ => {},
        }
    }
}

/// A layer that a script created.
#[derive(Debug)]
pub struct RuntimeLayer {
    /// Translation.
    pub origin: Vec3,
    /// Scale.
    pub scale: Vec3,
    /// Rotation.
    pub angles: Vec3,
    /// Red, green and blue.
    pub color: Vec3,
    /// Alpha.
    pub alpha: Scalar,
    /// Visibility.
    pub visible: bool,
}

/// What a [`RuntimeLayer`] holds.
pub struct RuntimeView {
    /// Translation.
    pub origin: Seq<ScalarView>,
    /// Scale.
    pub scale: Seq<ScalarView>,
    /// Rotation.
    pub angles: Seq<ScalarView>,
    /// Red, green and blue.
    pub color: Seq<ScalarView>,
    /// Alpha.
    pub alpha: ScalarView,
    /// Visibility.
    pub visible: bool,
}

impl View for RuntimeLayer {
    type V = RuntimeView;

    open spec fn view(&self) -> RuntimeView {
        RuntimeView {
            origin: crate::number::scalars(self.origin@),
            scale: crate::number::scalars(self.scale@),
            angles: crate::number::scalars(self.angles@),
            color: crate::number::scalars(self.color@),
            alpha: self.alpha@,
            visible: self.visible,
        }
    }
}

/// A layer as it is created: in the origin, of unit scale, white, opaque,
/// visible.
pub open spec fn new_runtime() -> RuntimeView {
    let nil = ScalarView::Whole(0);
    let unit = ScalarView::Whole(1);
    RuntimeView {
        origin: seq![nil, nil, nil],
        scale: seq![unit, unit, unit],
        angles: seq![nil, nil, nil],
        color: seq![unit, unit, unit],
        alpha: unit,
        visible: true,
    }
}

impl Default for RuntimeLayer {
    /// A layer as it is created.
    fn default() -> (r: RuntimeLayer)
        ensures
            r@ == new_runtime(),
    {
        let r = RuntimeLayer {
            origin: [zero(), zero(), zero()],
            scale: [one(), one(), one()],
            angles: [zero(), zero(), zero()],
            color: [one(), one(), one()],
            alpha: one(),
            visible: true,
        };
        assert(r@.origin =~= new_runtime().origin);
        assert(r@.scale =~= new_runtime().scale);
        assert(r@.angles =~= new_runtime().angles);
        assert(r@.color =~= new_runtime().color);
        r
    }
}

/// A runtime layer after an update: everything but brightness and text is
/// live.
pub open spec fn updated_runtime(v: RuntimeView, u: UpdateView) -> RuntimeView {
    match u.target {
        PropTarget::Origin => match crate::scripting::script_vec3(u.value) {
            Some(a) => RuntimeView { origin: a, ..v },
            None => v,
        },
        PropTarget::Scale => match crate::scripting::script_vec3(u.value) {
            Some(a) => RuntimeView { scale: a, ..v },
            None => v,
        },
        PropTarget::Angles => match crate::scripting::script_vec3(u.value) {
            Some(a) => RuntimeView { angles: a, ..v },
            None => v,
        },
        PropTarget::Color => match crate::scripting::script_rgb(u.value) {
            Some(c) => RuntimeView { color: c, ..v },
            None => v,
        },
        PropTarget::Alpha => match crate::scripting::script_scalar(u.value) {
            Some(a) => RuntimeView { alpha: a, ..v },
            None => v,
        },
        PropTarget::Visible => match u.value {
            ScriptValueView::Bool(b) => RuntimeView { visible: b, ..v },
            _ => v,
        },
        _ => v,
    }
}

impl RuntimeLayer {
    /// Take in an update.
    pub fn update(&mut self, u: &PropUpdate)
        ensures
            final(self)@ == updated_runtime(old(self)@, u@),
    {
        match u.target {
            PropTarget::Origin => {
                if let Some(v) = as_vec3(&u.value) {
                    self.origin = v;
                }
            },
            PropTarget::Scale => {
                if let Some(v) = as_vec3(&u.value) {
                    self.scale = v;
                }
            },
            PropTarget::Angles => {
                if let Some(v) = as_vec3(&u.value) {
                    self.angles = v;
                }
            },
            PropTarget::Color => {
                if let Some(c) = as_rgb(&u.value) {
                    self.color = c;
                }
            },
            PropTarget::Alpha => {
                if let Some(a) = as_f32(&u.value) {
                    self.alpha = a;
                }
            },
            PropTarget::Visible => {
                if let ScriptValue::Bool(b) = &u.value {
                    self.visible = *b;
                }
            },
            _ => {},
        }
    }
}

/// What runtime layers hold, by id.
pub open spec fn runtime_views(m: Map<i64, RuntimeLayer>) -> Map<i64, RuntimeView> {
    m.map_values(|l: RuntimeLayer| l@)
}

/// Runtime layers after one update.
pub open spec fn runtime_step(m: Map<i64, RuntimeView>, u: UpdateView) -> Map<i64, RuntimeView> {
    if m.dom().contains(u.object_id) {
        m.insert(u.object_id, updated_runtime(m[u.object_id], u))
    } else {
        m
    }
}

/// Runtime layers after updates.
pub open spec fn runtime_after(m: Map<i64, RuntimeView>, updates: Seq<UpdateView>) -> Map<
    i64,
    RuntimeView,
>
    decreases updates.len(),
{
    if updates.len() == 0 {
        m
    } else {
        runtime_step(runtime_after(m, updates.drop_last()), updates.last())
    }
}

/// Apply updates to the runtime layers that they are addressed to.
pub fn apply_runtime_updates(layers: &mut HashMap<i64, RuntimeLayer>, updates: &Vec<PropUpdate>)
    ensures
        runtime_views(final(layers)@) == runtime_after(
            runtime_views(old(layers)@),
            crate::scripting::update_views(updates@),
        ),
{
    broadcast use vstd::std_specs::hash::group_hash_axioms;

    let ghost first = runtime_views(layers@);
    let ghost all = crate::scripting::update_views(updates@);
    let mut i: usize = 0;
    assert(all.take(0) =~= Seq::empty());
    while i < updates.len()
        invariant
            i <= updates@.len(),
            all == crate::scripting::update_views(updates@),
            runtime_views(layers@) == runtime_after(first, all.take(i as int)),
        decreases updates@.len() - i,
    {
        broadcast use vstd::std_specs::hash::group_hash_axioms;

        assert(all.take(i + 1).drop_last() =~= all.take(i as int));
        assert(all.take(i + 1).last() == updates@[i as int]@);
        let u = &updates[i];
        let ghost was = layers@;
        if let Some(mut l) = layers.remove(&u.object_id) {
            let ghost before = l@;
            l.update(u);
            layers.insert(u.object_id, l);
            assert(runtime_views(layers@) =~= runtime_views(was).insert(
                u.object_id,
                updated_runtime(before, u@),
            ));
        } else {
            assert(layers@ =~= was);
        }
        i = i + 1;
    }
    assert(all.take(i as int) =~= all);
}

/// Runtime layers after some were created; one that is there stays as it is.
pub open spec fn runtime_created(
    m: Map<i64, RuntimeView>,
    created: Seq<(i64, Seq<char>)>,
) -> Map<i64, RuntimeView>
    decreases created.len(),
{
    if created.len() == 0 {
        m
    } else {
        let before = runtime_created(m, created.drop_last());
        let id = created.last().0;
        if before.dom().contains(id) {
            before
        } else {
            before.insert(id, new_runtime())
        }
    }
}

/// Add the runtime layers that scripts created.
pub fn add_created(layers: &mut HashMap<i64, RuntimeLayer>, created: &Vec<(i64, String)>)
    ensures
        runtime_views(final(layers)@) == runtime_created(
            runtime_views(old(layers)@),
            crate::script_host::created_views(created@),
        ),
{
    let ghost first = runtime_views(layers@);
    let ghost all = crate::script_host::created_views(created@);
    let mut i: usize = 0;
    assert(all.take(0) =~= Seq::empty());
    while i < created.len()
        invariant
            i <= created@.len(),
            all == crate::script_host::created_views(created@),
            runtime_views(layers@) == runtime_created(first, all.take(i as int)),
        decreases created@.len() - i,
    {
        broadcast use vstd::std_specs::hash::group_hash_axioms;

        assert(all.take(i + 1).drop_last() =~= all.take(i as int));
        assert(all.take(i + 1).last() == (created@[i as int].0, created@[i as int].1@));
        let id = created[i].0;
        let ghost was = layers@;
        if !layers.contains_key(&id) {
            let fresh = RuntimeLayer::default();
            layers.insert(id, fresh);
            assert(runtime_views(layers@) =~= runtime_views(was).insert(id, new_runtime()));
        }
        i = i + 1;
    }
    assert(all.take(i as int) =~= all);
}

/// The visibility of objects after updates: what scripts set last.
pub open spec fn visible_after(m: Map<i64, bool>, updates: Seq<UpdateView>) -> Map<i64, bool>
    decreases updates.len(),
{
    if updates.len() == 0 {
        m
    } else {
        let before = visible_after(m, updates.drop_last());
        let u = updates.last();
        match (u.target, u.value) {
            (PropTarget::Visible, ScriptValueView::Bool(b)) => before.insert(u.object_id, b),
            _ => before,
        }
    }
}

/// Keep the visibility of objects in step with updates.
pub fn apply_visibility(visible: &mut HashMap<i64, bool>, updates: &Vec<PropUpdate>)
    ensures
        final(visible)@ == visible_after(
            old(visible)@,
            crate::scripting::update_views(updates@),
        ),
{
    let ghost first = visible@;
    let ghost all = crate::scripting::update_views(updates@);
    let mut i: usize = 0;
    assert(all.take(0) =~= Seq::empty());
    while i < updates.len()
        invariant
            i <= updates@.len(),
            all == crate::scripting::update_views(updates@),
            visible@ == visible_after(first, all.take(i as int)),
        decreases updates@.len() - i,
    {
        broadcast use vstd::std_specs::hash::group_hash_axioms;

        assert(all.take(i + 1).drop_last() =~= all.take(i as int));
        assert(all.take(i + 1).last() == updates@[i as int]@);
        let u = &updates[i];
        if u.target == PropTarget::Visible {
            if let ScriptValue::Bool(b) = &u.value {
                visible.insert(u.object_id, *b);
            }
        }
        i = i + 1;
    }
    assert(all.take(i as int) =~= all);
}

/// Whether an object and its parents are visible, as far as `n` steps up. An
/// object that is not known counts as visible.
pub open spec fn chain_visible(
    parents: Map<i64, Option<i64>>,
    visible: Map<i64, bool>,
    cur: Option<i64>,
    n: nat,
) -> bool
    decreases n,
{
    match cur {
        None => true,
        Some(id) => n == 0 || ((visible.dom().contains(id) ==> visible[id]) && chain_visible(
            parents,
            visible,
            parent_of(parents, id),
            (n - 1) as nat,
        )),
    }
}

/// The parent of an object, if it is known and has one.
pub open spec fn parent_of(parents: Map<i64, Option<i64>>, id: i64) -> Option<i64> {
    if parents.dom().contains(id) {
        parents[id]
    } else {
        None
    }
}

/// How far chains of parents are followed.
pub const CHAIN_LIMIT: usize = 64;

/// The parent of an object, if it is known and has one.
fn parent(parents: &HashMap<i64, Option<i64>>, id: i64) -> (r: Option<i64>)
    ensures
        r == parent_of(parents@, id),
{
    broadcast use vstd::std_specs::hash::group_hash_axioms;

    match parents.get(&id) {
        Some(p) => *p,
        None => None,
    }
}

/// Whether every ancestor of a layer is visible. Chains without end are
/// followed only so far.
pub fn ancestors_visible(
    parent_by_id: &HashMap<i64, Option<i64>>,
    visible_by_id: &HashMap<i64, bool>,
    start: Option<i64>,
) -> (r: bool)
    ensures
        r == chain_visible(parent_by_id@, visible_by_id@, start, CHAIN_LIMIT as nat),
{
    let mut cur = start;
    let mut n: usize = 0;
    while n < CHAIN_LIMIT
        invariant
            n <= CHAIN_LIMIT,
            chain_visible(parent_by_id@, visible_by_id@, start, CHAIN_LIMIT as nat)
                == chain_visible(
                parent_by_id@,
                visible_by_id@,
                cur,
                (CHAIN_LIMIT - n) as nat,
            ),
        decreases CHAIN_LIMIT - n,
    {
        broadcast use vstd::std_specs::hash::group_hash_axioms;

        match cur {
            None => {
                return true;
            },
            Some(id) => {
                if let Some(v) = visible_by_id.get(&id) {
                    if !*v {
                        return false;
                    }
                }
                cur = parent(parent_by_id, id);
            },
        }
        n = n + 1;
    }
    true
}

/// An object and its parents, as far as `n` steps up or until one is not
/// known.
pub open spec fn lineage(parents: Map<i64, Option<i64>>, cur: Option<i64>, n: nat) -> Seq<i64>
    decreases n,
{
    match cur {
        None => Seq::empty(),
        Some(id) => if n == 0 || !parents.dom().contains(id) {
            Seq::empty()
        } else {
            seq![id] + lineage(parents, parents[id], (n - 1) as nat)
        },
    }
}

/// The objects whose transforms place an object: itself, its parent, and so on
/// up to the root.
pub fn transform_chain(parent_by_id: &HashMap<i64, Option<i64>>, id: i64) -> (r: Vec<i64>)
    ensures
        r@ == lineage(parent_by_id@, Some(id), CHAIN_LIMIT as nat),
{
    let mut out: Vec<i64> = Vec::new();
    let mut cur = Some(id);
    let mut n: usize = 0;
    let ghost goal = lineage(parent_by_id@, Some(id), CHAIN_LIMIT as nat);
    assert(goal =~= out@ + lineage(parent_by_id@, cur, CHAIN_LIMIT as nat));
    while n < CHAIN_LIMIT
        invariant
            n <= CHAIN_LIMIT,
            goal == lineage(parent_by_id@, Some(id), CHAIN_LIMIT as nat),
            goal == out@ + lineage(parent_by_id@, cur, (CHAIN_LIMIT - n) as nat),
        decreases CHAIN_LIMIT - n,
    {
        broadcast use vstd::std_specs::hash::group_hash_axioms;

        let c = match cur {
            None => {
                assert(goal =~= out@);
                return out;
            },
            Some(c) => c,
        };
        let next = match parent_by_id.get(&c) {
            None => {
                assert(goal =~= out@);
                return out;
            },
            Some(p) => *p,
        };
        let ghost was = out@;
        out.push(c);
        assert(was + (seq![c] + lineage(parent_by_id@, next, (CHAIN_LIMIT - n - 1) as nat))
            =~= out@ + lineage(parent_by_id@, next, (CHAIN_LIMIT - n - 1) as nat));
        cur = next;
        n = n + 1;
    }
    assert(goal =~= out@);
    out
}

/// Hiding an object hides every layer below it, as far as chains are followed.
pub proof fn law_hidden_ancestor_hides(
    parents: Map<i64, Option<i64>>,
    visible: Map<i64, bool>,
    start: Option<i64>,
    hidden: int,
)
    requires
        0 <= hidden < lineage(parents, start, CHAIN_LIMIT as nat).len(),
        ({
            let id = lineage(parents, start, CHAIN_LIMIT as nat)[hidden];
            visible.dom().contains(id) && !visible[id]
        }),
    ensures
        !chain_visible(parents, visible, start, CHAIN_LIMIT as nat),
{
    lemma_hidden(parents, visible, start, CHAIN_LIMIT as nat, hidden);
}

proof fn lemma_hidden(
    parents: Map<i64, Option<i64>>,
    visible: Map<i64, bool>,
    cur: Option<i64>,
    n: nat,
    hidden: int,
)
    requires
        0 <= hidden < lineage(parents, cur, n).len(),
        visible.dom().contains(lineage(parents, cur, n)[hidden]),
        !visible[lineage(parents, cur, n)[hidden]],
    ensures
        !chain_visible(parents, visible, cur, n),
    decreases n,
{
    let id = cur->0;
    let rest = lineage(parents, parents[id], (n - 1) as nat);
    if hidden > 0 {
        assert(lineage(parents, cur, n)[hidden] == rest[hidden - 1]);
        lemma_hidden(parents, visible, parents[id], (n - 1) as nat, hidden - 1);
    }
}

/// An update reaches the image that it is addressed to, in the one value that it
/// names and with what the script gave; an image keeps its color's alpha, and
/// everything that the update does not name.
pub proof fn law_update_reaches_image(v: LiveImageView, u: UpdateView)
    requires
        v.color.len() == 4,
    ensures
        u.object_id != v.id ==> updated_image(v, u) == v,
        updated_image(v, u).id == v.id,
        updated_image(v, u).parent == v.parent,
        updated_image(v, u).passes == v.passes,
        updated_image(v, u).reads_scene == v.reads_scene,
        updated_image(v, u).donor == v.donor,
        u.object_id == v.id && u.target == PropTarget::Alpha ==> match u.value {
            ScriptValueView::Float(f) => updated_image(v, u).alpha == f,
            ScriptValueView::Int(n) => updated_image(v, u).alpha == ScalarView::Whole(n),
            ScriptValueView::Bool(b) => updated_image(v, u).alpha == crate::value::flag_scalar(b),
            _ => updated_image(v, u).alpha == v.alpha,
        },
        u.target != PropTarget::Alpha ==> updated_image(v, u).alpha == v.alpha,
        u.object_id == v.id && u.target == PropTarget::Brightness ==> match u.value {
            ScriptValueView::Float(f) => updated_image(v, u).brightness == f,
            ScriptValueView::Int(n) => updated_image(v, u).brightness == ScalarView::Whole(n),
            ScriptValueView::Bool(b) => updated_image(v, u).brightness == crate::value::flag_scalar(
                b,
            ),
            _ => updated_image(v, u).brightness == v.brightness,
        },
        u.target != PropTarget::Brightness ==> updated_image(v, u).brightness == v.brightness,
        updated_image(v, u).color.len() == 4,
        updated_image(v, u).color[3] == v.color[3],
        u.object_id == v.id && u.target == PropTarget::Color ==> match u.value {
            ScriptValueView::Vec3(c) => updated_image(v, u).color[0] == c[0] && updated_image(
                v,
                u,
            ).color[1] == c[1] && updated_image(v, u).color[2] == c[2],
            ScriptValueView::Vec4(c) => updated_image(v, u).color[0] == c[0] && updated_image(
                v,
                u,
            ).color[1] == c[1] && updated_image(v, u).color[2] == c[2],
            ScriptValueView::Float(f) => updated_image(v, u).color[0] == f && updated_image(
                v,
                u,
            ).color[1] == f && updated_image(v, u).color[2] == f,
            ScriptValueView::Vec2(c) => updated_image(v, u).color[0] == c[0] && updated_image(
                v,
                u,
            ).color[1] == c[1] && updated_image(v, u).color[2] == ScalarView::Whole(0),
            _ => updated_image(v, u).color == v.color,
        },
        u.target != PropTarget::Color ==> updated_image(v, u).color == v.color,
        u.object_id == v.id && u.target == PropTarget::Visible ==> match u.value {
            ScriptValueView::Bool(b) => updated_image(v, u).visible == b,
            _ => updated_image(v, u).visible == v.visible,
        },
        u.target != PropTarget::Visible ==> updated_image(v, u).visible == v.visible,
{
}

/// A change of properties reaches the constants of every pass of an image and
/// nothing else of it.
pub proof fn law_properties_reach_passes(
    v: LiveImageView,
    bag: Map<Seq<char>, PropertyView>,
    i: int,
    k: Seq<char>,
)
    requires
        0 <= i < v.passes.len(),
        v.passes[i].constants.dom().contains(k),
    ensures
        resolved_live_image(v, bag).passes.len() == v.passes.len(),
        resolved_live_image(v, bag).passes[i].vs == v.passes[i].vs,
        resolved_live_image(v, bag).passes[i].fs == v.passes[i].fs,
        resolved_live_image(v, bag).passes[i].constants.dom() == v.passes[i].constants.dom(),
        resolved_live_image(v, bag).passes[i].constants[k].user == v.passes[i].constants[k].user,
        v.passes[i].constants[k].user matches Some(crate::user::UserRefView::Name(n))
            ==> bag.dom().contains(n) ==> resolved_live_image(v, bag).passes[i].constants[k].value
            == <crate::value::DynamicValue as crate::property::Resolvable>::of_property(bag[n]),
        v.passes[i].constants[k].user is None ==> resolved_live_image(
            v,
            bag,
        ).passes[i].constants[k] == v.passes[i].constants[k],
        resolved_live_image(v, bag).alpha == v.alpha,
        resolved_live_image(v, bag).brightness == v.brightness,
        resolved_live_image(v, bag).color == v.color,
        resolved_live_image(v, bag).visible == v.visible,
        resolved_live_image(v, bag).id == v.id,
        resolved_live_image(v, bag).parent == v.parent,
        resolved_live_image(v, bag).reads_scene == v.reads_scene,
        resolved_live_image(v, bag).donor == v.donor,
{
    assert(resolved_live_image(v, bag).passes[i].constants.dom() =~= v.passes[i].constants.dom());
}

/// An update reaches the runtime layer that it is addressed to, in the one value
/// that it names; all other layers and values stay, and none appears.
pub proof fn law_update_reaches_runtime_layer(
    m: Map<i64, RuntimeView>,
    u: UpdateView,
    id: i64,
)
    requires
        m.dom().contains(id),
    ensures
        runtime_after(m, seq![u]).dom() == m.dom(),
        u.object_id != id ==> runtime_after(m, seq![u])[id] == m[id],
        u.object_id == id && u.target == PropTarget::Origin ==> match u.value {
            ScriptValueView::Vec3(a) => runtime_after(m, seq![u])[id].origin == a,
            ScriptValueView::Float(f) => runtime_after(m, seq![u])[id].origin == seq![f, f, f],
            _ => runtime_after(m, seq![u])[id] == m[id],
        },
        u.target != PropTarget::Origin ==> runtime_after(m, seq![u])[id].origin == m[id].origin,
        u.object_id == id && u.target == PropTarget::Scale ==> match u.value {
            ScriptValueView::Vec3(a) => runtime_after(m, seq![u])[id].scale == a,
            ScriptValueView::Float(f) => runtime_after(m, seq![u])[id].scale == seq![f, f, f],
            _ => runtime_after(m, seq![u])[id] == m[id],
        },
        u.target != PropTarget::Scale ==> runtime_after(m, seq![u])[id].scale == m[id].scale,
        u.object_id == id && u.target == PropTarget::Angles ==> match u.value {
            ScriptValueView::Vec3(a) => runtime_after(m, seq![u])[id].angles == a,
            ScriptValueView::Float(f) => runtime_after(m, seq![u])[id].angles == seq![f, f, f],
            _ => runtime_after(m, seq![u])[id] == m[id],
        },
        u.target != PropTarget::Angles ==> runtime_after(m, seq![u])[id].angles == m[id].angles,
        u.object_id == id && u.target == PropTarget::Color ==> match u.value {
            ScriptValueView::Vec3(c) => runtime_after(m, seq![u])[id].color == c,
            ScriptValueView::Float(f) => runtime_after(m, seq![u])[id].color == seq![f, f, f],
            ScriptValueView::Vec4(c) => runtime_after(m, seq![u])[id].color == seq![c[0], c[1], c[2]],
            _ => true,
        },
        u.target != PropTarget::Color ==> runtime_after(m, seq![u])[id].color == m[id].color,
        u.object_id == id && u.target == PropTarget::Alpha ==> match u.value {
            ScriptValueView::Float(f) => runtime_after(m, seq![u])[id].alpha == f,
            ScriptValueView::Int(n) => runtime_after(m, seq![u])[id].alpha == ScalarView::Whole(n),
            ScriptValueView::Str(_) => runtime_after(m, seq![u])[id] == m[id],
            _ => true,
        },
        u.target != PropTarget::Alpha ==> runtime_after(m, seq![u])[id].alpha == m[id].alpha,
        u.object_id == id && u.target == PropTarget::Visible ==> match u.value {
            ScriptValueView::Bool(b) => runtime_after(m, seq![u])[id].visible == b,
            _ => runtime_after(m, seq![u])[id] == m[id],
        },
        u.target != PropTarget::Visible ==> runtime_after(m, seq![u])[id].visible == m[id].visible,
{
    let one = seq![u];
    assert(one.drop_last() =~= Seq::empty());
    assert(runtime_after(m, Seq::<UpdateView>::empty()) == m);
    assert(runtime_after(m, one) == runtime_step(m, u));
    assert(runtime_after(m, one).dom() =~= m.dom());
}

/// Updates apply in order: those of two batches act like one batch.
pub proof fn law_runtime_updates_in_order(
    m: Map<i64, RuntimeView>,
    a: Seq<UpdateView>,
    b: Seq<UpdateView>,
)
    ensures
        runtime_after(m, a + b) == runtime_after(runtime_after(m, a), b),
    decreases b.len(),
{
    if b.len() > 0 {
        assert((a + b).drop_last() =~= a + b.drop_last());
        law_runtime_updates_in_order(m, a, b.drop_last());
    } else {
        assert(a + b =~= a);
    }
}

/// A created layer is there, as new layers are: in the origin, of unit scale,
/// not turned, white, opaque and visible. A layer that was there stays as it
/// was, and no other appears.
pub proof fn law_created_layers_appear(
    m: Map<i64, RuntimeView>,
    created: Seq<(i64, Seq<char>)>,
    id: i64,
)
    ensures
        runtime_created(m, created).dom().contains(id) <==> m.dom().contains(id) || exists|i: int|
            0 <= i < created.len() && (#[trigger] created[i]).0 == id,
        m.dom().contains(id) ==> runtime_created(m, created)[id] == m[id],
        runtime_created(m, created).dom().contains(id) && !m.dom().contains(id) ==> {
            let l = runtime_created(m, created)[id];
            let nil = ScalarView::Whole(0);
            let unit = ScalarView::Whole(1);
            &&& l.origin == seq![nil, nil, nil]
            &&& l.scale == seq![unit, unit, unit]
            &&& l.angles == seq![nil, nil, nil]
            &&& l.color == seq![unit, unit, unit]
            &&& l.alpha == unit
            &&& l.visible
        },
    decreases created.len(),
{
    if created.len() > 0 {
        let head = created.drop_last();
        law_created_layers_appear(m, head, id);
        let last = created.len() - 1;
        assert(created[last] == created.last());
        if exists|i: int| 0 <= i < head.len() && (#[trigger] head[i]).0 == id {
            let i = choose|i: int| 0 <= i < head.len() && (#[trigger] head[i]).0 == id;
            assert(created[i].0 == id);
        }
        if exists|i: int| 0 <= i < created.len() && (#[trigger] created[i]).0 == id {
            let i = choose|i: int| 0 <= i < created.len() && (#[trigger] created[i]).0 == id;
            if i < last {
                assert(head[i].0 == id);
            }
        }
    }
}

/// An object is as visible as the last update that sets its visibility to a flag
/// says, and as before where there is none.
pub proof fn law_last_visibility_counts(m: Map<i64, bool>, updates: Seq<UpdateView>, i: int, id: i64)
    ensures
        0 <= i < updates.len() && updates[i].object_id == id && updates[i].target
            == PropTarget::Visible && updates[i].value is Bool && (forall|k: int|
            i < k < updates.len() ==> !((#[trigger] updates[k]).object_id == id && updates[k].target
                == PropTarget::Visible && updates[k].value is Bool)) ==> {
            &&& visible_after(m, updates).dom().contains(id)
            &&& visible_after(m, updates)[id] == updates[i].value->Bool_0
        },
        (forall|k: int|
            0 <= k < updates.len() ==> !((#[trigger] updates[k]).object_id == id && updates[k].target
                == PropTarget::Visible && updates[k].value is Bool)) ==> {
            &&& visible_after(m, updates).dom().contains(id) == m.dom().contains(id)
            &&& m.dom().contains(id) ==> visible_after(m, updates)[id] == m[id]
        },
    decreases updates.len(),
{
    if updates.len() > 0 {
        let head = updates.drop_last();
        let last = updates.len() - 1;
        law_last_visibility_counts(m, head, i, id);
        assert(updates[last] == updates.last());
        assert(forall|k: int| 0 <= k < head.len() ==> #[trigger] head[k] == updates[k]);
        if 0 <= i < last {
            assert(head[i] == updates[i]);
        }
    }
}

/// The ancestor `k` steps above an object, the object itself for none.
pub open spec fn ancestor(parents: Map<i64, Option<i64>>, start: Option<i64>, k: nat) -> Option<i64>
    decreases k,
{
    if k == 0 {
        start
    } else {
        match start {
            Some(id) => if parents.dom().contains(id) {
                ancestor(parents, parents[id], (k - 1) as nat)
            } else {
                None
            },
            None => None,
        }
    }
}

/// A layer is visible through its ancestors exactly where none of the first 64,
/// itself counted, is known to be hidden.
pub proof fn law_visible_through_ancestors(
    parents: Map<i64, Option<i64>>,
    visible: Map<i64, bool>,
    start: Option<i64>,
)
    ensures
        chain_visible(parents, visible, start, CHAIN_LIMIT as nat) <==> forall|k: nat|
            k < 64 ==> ((#[trigger] ancestor(parents, start, k)) matches Some(id)
                ==> visible.dom().contains(id) ==> visible[id]),
{
    lemma_chain_visible(parents, visible, start, CHAIN_LIMIT as nat);
}

/// A layer is visible as far as its ancestors are.
proof fn lemma_chain_visible(
    parents: Map<i64, Option<i64>>,
    visible: Map<i64, bool>,
    start: Option<i64>,
    n: nat,
)
    ensures
        chain_visible(parents, visible, start, n) <==> forall|k: nat|
            k < n ==> ((#[trigger] ancestor(parents, start, k)) matches Some(id)
                ==> visible.dom().contains(id) ==> visible[id]),
    decreases n,
{
    if n > 0 {
        match start {
            None => {
                assert forall|k: nat| k < n implies #[trigger] ancestor(parents, start, k) is None by {}
            },
            Some(id) => {
                let up = parent_of(parents, id);
                lemma_chain_visible(parents, visible, up, (n - 1) as nat);
                assert(ancestor(parents, start, 0) == Some(id));
                assert forall|k: nat| k < n - 1 implies #[trigger] ancestor(parents, up, k)
                    == ancestor(parents, start, k + 1) by {
                    if !parents.dom().contains(id) {
                        lemma_no_ancestor(parents, k);
                    }
                }
                if chain_visible(parents, visible, start, n) {
                    assert forall|k: nat| k < n implies ((#[trigger] ancestor(parents, start, k)) matches Some(a)
                        ==> visible.dom().contains(a) ==> visible[a]) by {
                        if k > 0 {
                            assert(ancestor(parents, up, (k - 1) as nat) == ancestor(
                                parents,
                                start,
                                k,
                            ));
                        }
                    }
                }
                if forall|k: nat|
                    k < n ==> ((#[trigger] ancestor(parents, start, k)) matches Some(a)
                        ==> visible.dom().contains(a) ==> visible[a]) {
                    assert forall|k: nat| k < n - 1 implies ((#[trigger] ancestor(parents, up, k)) matches Some(a)
                        ==> visible.dom().contains(a) ==> visible[a]) by {
                        assert(ancestor(parents, start, k + 1) == ancestor(parents, up, k));
                    }
                }
            },
        }
    }
}

/// Nothing has no ancestors.
proof fn lemma_no_ancestor(parents: Map<i64, Option<i64>>, k: nat)
    ensures
        ancestor(parents, None, k) is None,
{
}

/// The objects whose transforms place an object are its ancestors from itself on
/// up, as long as they are known, at most 64 of them.
pub proof fn law_transforms_of_ancestors(parents: Map<i64, Option<i64>>, id: i64, i: int)
    requires
        0 <= i < lineage(parents, Some(id), CHAIN_LIMIT as nat).len(),
    ensures
        ancestor(parents, Some(id), i as nat) == Some(
            lineage(parents, Some(id), CHAIN_LIMIT as nat)[i],
        ),
        parents.dom().contains(lineage(parents, Some(id), CHAIN_LIMIT as nat)[i]),
        lineage(parents, Some(id), CHAIN_LIMIT as nat).len() <= 64,
{
    lemma_lineage(parents, Some(id), CHAIN_LIMIT as nat, i);
}

/// Every known ancestor within reach places the object.
pub proof fn law_no_transform_is_skipped(parents: Map<i64, Option<i64>>, id: i64, k: nat)
    requires
        k < 64,
        forall|j: nat|
            j <= k ==> ((#[trigger] ancestor(parents, Some(id), j)) matches Some(a)
                && parents.dom().contains(a)),
    ensures
        k < lineage(parents, Some(id), CHAIN_LIMIT as nat).len(),
{
    lemma_lineage_reaches(parents, Some(id), CHAIN_LIMIT as nat, k);
}

/// What a lineage lists.
proof fn lemma_lineage(parents: Map<i64, Option<i64>>, cur: Option<i64>, n: nat, i: int)
    ensures
        lineage(parents, cur, n).len() <= n,
        0 <= i < lineage(parents, cur, n).len() ==> ancestor(parents, cur, i as nat) == Some(
            lineage(parents, cur, n)[i],
        ) && parents.dom().contains(lineage(parents, cur, n)[i]),
    decreases n,
{
    if let Some(id) = cur {
        if n > 0 && parents.dom().contains(id) {
            lemma_lineage(parents, parents[id], (n - 1) as nat, i - 1);
        }
    }
}

/// How far a lineage goes.
proof fn lemma_lineage_reaches(parents: Map<i64, Option<i64>>, cur: Option<i64>, n: nat, k: nat)
    requires
        k < n,
        forall|j: nat|
            j <= k ==> ((#[trigger] ancestor(parents, cur, j)) matches Some(a)
                && parents.dom().contains(a)),
    ensures
        k < lineage(parents, cur, n).len(),
    decreases n,
{
    assert(ancestor(parents, cur, 0) == cur);
    let id = cur->0;
    if k > 0 {
        assert forall|j: nat| j <= k - 1 implies ((#[trigger] ancestor(parents, parents[id], j)) matches Some(a)
            && parents.dom().contains(a)) by {
            assert(ancestor(parents, cur, j + 1) == ancestor(parents, parents[id], j));
        }
        lemma_lineage_reaches(parents, parents[id], (n - 1) as nat, (k - 1) as nat);
    }
}

} // verus!
