//! The scene renderer without its graphics device: what is built and in what
//! order, what is drawn in a frame, and how a running scene changes.
use vstd::prelude::*;

use std::collections::HashMap;

use crate::error::SceneError;
use crate::live::{
    add_created, ancestors_visible, apply_runtime_updates, apply_visibility, LiveImage,
    LiveImageView, RuntimeLayer, RuntimeView,
};
use crate::load::apply_property_override;
use crate::object::{Object, ObjectKind, ObjectKindView, ObjectView};
use crate::property::{Override, PropertyBag, PropertyValue, PropertyView};
use crate::resolve::SceneModel;
use crate::scene::{Camera, CameraView, General, GeneralView, Projection};
use crate::script_host::{HostView, OpView, ScriptHost, TickOutput};
use crate::scripting::{CameraOp, CameraOpView, PropUpdate, ScriptValueView, UpdateView};
use crate::user::SettingView;

verus! {

/// How the scene is fitted to the output.
#[derive(Clone, Copy, Debug, PartialEq, Eq, Structural)]
pub enum ScalingMode {
    /// Both axes on their own.
    Stretch,
    /// The whole scene is shown.
    Fit,
    /// The whole output is covered.
    Fill,
}

/// What is shown beyond the edges of the scene.
#[derive(Clone, Copy, Debug, PartialEq, Eq, Structural)]
pub enum ClampMode {
    /// The edge.
    Clamp,
    /// Nothing.
    Border,
    /// The scene again.
    Repeat,
}

/// How a scene is presented.
#[derive(Clone, Copy, Debug, PartialEq, Eq, Structural)]
pub struct SceneOptions {
    /// How it is fitted to the output.
    pub scaling: ScalingMode,
    /// What is shown beyond its edges.
    pub clamp: ClampMode,
}

/// The number by which the presenting shader knows a clamp mode.
pub fn clamp_code(mode: ClampMode) -> (r: u32)
    ensures
        r == match mode {
            ClampMode::Clamp => 0u32,
            ClampMode::Border => 1u32,
            ClampMode::Repeat => 2u32,
        },
{
    match mode {
        ClampMode::Clamp => 0,
        ClampMode::Border => 1,
        ClampMode::Repeat => 2,
    }
}

/// The size of a scene whose extents round to `w` and `h`: these or, where one
/// is zero, that of a full-HD screen.
pub fn auto_projection(w: u32, h: u32) -> (r: (u32, u32))
    ensures
        r == if w == 0 || h == 0 {
            (1920u32, 1080u32)
        } else {
            (w, h)
        },
{
    if w == 0 || h == 0 {
        (1920, 1080)
    } else {
        (w, h)
    }
}

/// The size of a scene: the explicit one, if both its axes are positive; else
/// the one that follows from its extents.
pub open spec fn projection_of(p: Projection, extents: (u32, u32)) -> (u32, u32) {
    match p {
        Projection::Orthogonal { width, height } => if width > 0 && height > 0 {
            (width as u32, height as u32)
        } else {
            auto_of(extents)
        },
        Projection::Auto => auto_of(extents),
    }
}

/// The size that follows from extents.
pub open spec fn auto_of(extents: (u32, u32)) -> (u32, u32) {
    if extents.0 == 0 || extents.1 == 0 {
        (1920u32, 1080u32)
    } else {
        extents
    }
}

/// The size of a scene.
pub fn projection_size(projection: Projection, extents: (u32, u32)) -> (r: (u32, u32))
    ensures
        r == projection_of(projection, extents),
{
    match projection {
        Projection::Orthogonal { width, height } => if width > 0 && height > 0 {
            (
                #[verifier::truncate] (width as u32),
                #[verifier::truncate] (height as u32),
            )
        } else {
            auto_projection(extents.0, extents.1)
        },
        Projection::Auto => auto_projection(extents.0, extents.1),
    }
}

/// Whether some other object depends on the object with an id.
pub open spec fn depended_on(objects: Seq<ObjectView>, id: i64) -> bool {
    exists|i: int|
        0 <= i < objects.len() && (#[trigger] objects[i]).base.id != id
            && objects[i].base.dependencies.contains(id)
}

/// Whether some image has an id.
pub open spec fn is_image_id(objects: Seq<ObjectView>, id: i64) -> bool {
    exists|i: int|
        0 <= i < objects.len() && (#[trigger] objects[i]).base.id == id && objects[i].kind is Image
}

/// Whether the image with an id is drawn for others to sample: another object
/// depends on it. An object that depends on itself does not count.
pub open spec fn is_donor(objects: Seq<ObjectView>, id: i64) -> bool {
    depended_on(objects, id) && is_image_id(objects, id)
}

/// Whether a list holds a number.
fn has_id(v: &Vec<i64>, id: i64) -> (r: bool)
    ensures
        r == v@.contains(id),
{
    let mut i: usize = 0;
    while i < v.len()
        invariant
            i <= v@.len(),
            forall|k: int| 0 <= k < i ==> #[trigger] v@[k] != id,
        decreases v@.len() - i,
    {
        if v[i] == id {
            assert(v@[i as int] == id);
            return true;
        }
        i = i + 1;
    }
    false
}

/// Whether the image with an id is drawn for others to sample.
pub fn donor(objects: &Vec<Object>, id: i64) -> (r: bool)
    ensures
        r == is_donor(crate::scene::object_views(objects@), id),
{
    let ghost all = crate::scene::object_views(objects@);
    let mut wanted = false;
    let mut image = false;
    let mut i: usize = 0;
    while i < objects.len()
        invariant
            i <= objects@.len(),
            all == crate::scene::object_views(objects@),
            wanted == exists|k: int|
                0 <= k < i && (#[trigger] all[k]).base.id != id
                    && all[k].base.dependencies.contains(id),
            image == exists|k: int|
                0 <= k < i && (#[trigger] all[k]).base.id == id && all[k].kind is Image,
        decreases objects@.len() - i,
    {
        let o = &objects[i];
        assert(all[i as int] == o@);
        if o.base.id != id && has_id(&o.base.dependencies, id) {
            assert(all[i as int].base.dependencies.contains(id));
            wanted = true;
        }
        if o.base.id == id {
            if let ObjectKind::Image(_) = &o.kind {
                assert(all[i as int].kind is Image);
                image = true;
            }
        }
        i = i + 1;
    }
    wanted && image
}

/// The objects of a scene in the order in which they are built.
#[derive(Debug)]
pub struct BuildOrder {
    /// The images that others sample, to be built first.
    pub donors: Vec<usize>,
    /// All objects, as they draw.
    pub order: Vec<usize>,
}

/// Of an order, the images that others sample.
pub open spec fn donors_in(objects: Seq<ObjectView>, order: Seq<usize>) -> Seq<usize>
    decreases order.len(),
{
    if order.len() == 0 {
        Seq::empty()
    } else {
        let before = donors_in(objects, order.drop_last());
        let o = objects[order.last() as int];
        if is_donor(objects, o.base.id) && o.kind is Image {
            before.push(order.last())
        } else {
            before
        }
    }
}

/// The objects of a scene in the order in which they are built: images that
/// others sample come first, so that the others can be given what to sample.
pub fn build_order(model: &SceneModel) -> (r: BuildOrder)
    ensures
        crate::order::is_render_order(
            r.order@,
            crate::scripting::sort_orders(model.scene@.objects),
            model.scene.general.customsortorder,
            model.scene@.objects.len(),
        ),
        r.donors@ == donors_in(model.scene@.objects, r.order@),
{
    let order = crate::scripting::scene_order(model);
    let ghost all = model.scene@.objects;
    let mut donors: Vec<usize> = Vec::new();
    let mut i: usize = 0;
    assert(order@.take(0) =~= Seq::empty());
    while i < order.len()
        invariant
            i <= order@.len(),
            all == crate::scene::object_views(model.scene.objects@),
            forall|k: int| 0 <= k < order@.len() ==> (#[trigger] order@[k]) < all.len(),
            donors@ == donors_in(all, order@.take(i as int)),
        decreases order@.len() - i,
    {
        assert(order@.take(i + 1).drop_last() =~= order@.take(i as int));
        let oi = order[i];
        assert(oi < all.len());
        assert(all[oi as int] == model.scene.objects@[oi as int]@);
        let o = &model.scene.objects[oi];
        let image = match &o.kind {
            ObjectKind::Image(_) => true,
            _ => false,
        };
        if donor(&model.scene.objects, o.base.id) && image {
            donors.push(oi);
        }
        i = i + 1;
    }
    assert(order@.take(i as int) =~= order@);
    BuildOrder { donors, order }
}

/// What becomes of an object.
#[derive(Clone, Copy, Debug, PartialEq, Eq, Structural)]
pub enum ItemKind {
    /// An image layer.
    Image,
    /// A particle system.
    Particle,
    /// A text.
    Text,
    /// A model.
    Model,
    /// Nothing is drawn.
    NotDrawn,
}

/// What becomes of an object: images, particle systems, texts and models are
/// drawn, lights, shapes, sounds and groups are not.
pub open spec fn kind_of(k: ObjectKindView) -> ItemKind {
    match k {
        ObjectKindView::Image(_) => ItemKind::Image,
        ObjectKindView::Particle(_) => ItemKind::Particle,
        ObjectKindView::Text(_) => ItemKind::Text,
        ObjectKindView::Model(_) => ItemKind::Model,
        _ => ItemKind::NotDrawn,
    }
}

/// What becomes of an object.
pub fn item_kind(object: &Object) -> (r: ItemKind)
    ensures
        r == kind_of(object@.kind),
{
    match &object.kind {
        ObjectKind::Image(_) => ItemKind::Image,
        ObjectKind::Particle(_) => ItemKind::Particle,
        ObjectKind::Text(_) => ItemKind::Text,
        ObjectKind::Model(_) => ItemKind::Model,
        _ => ItemKind::NotDrawn,
    }
}

/// How an object is built once the images that others sample were.
#[derive(Clone, Copy, Debug, PartialEq, Eq, Structural)]
pub enum BuildStep {
    /// It was built already, for others to sample.
    Built(usize),
    /// It is to be built.
    Build(usize, ItemKind),
}

/// How an object is built in its turn: one that was built for others to sample
/// is used as it is; another, also one for which that failed, is built by its
/// kind; one that is not drawn is passed over.
pub open spec fn turn_of(objects: Seq<ObjectView>, built: Seq<usize>, oi: usize) -> Seq<BuildStep> {
    if built.contains(oi) {
        seq![BuildStep::Built(oi)]
    } else {
        match kind_of(objects[oi as int].kind) {
            ItemKind::NotDrawn => Seq::empty(),
            kind => seq![BuildStep::Build(oi, kind)],
        }
    }
}

/// How the objects of a scene are built in their turn.
pub open spec fn turns_of(objects: Seq<ObjectView>, built: Seq<usize>, order: Seq<usize>) -> Seq<
    BuildStep,
>
    decreases order.len(),
{
    if order.len() == 0 {
        Seq::empty()
    } else {
        turns_of(objects, built, order.drop_last()) + turn_of(objects, built, order.last())
    }
}

/// Whether a list holds an index.
fn has_index(v: &Vec<usize>, x: usize) -> (r: bool)
    ensures
        r == v@.contains(x),
{
    let mut i: usize = 0;
    while i < v.len()
        invariant
            i <= v@.len(),
            forall|k: int| 0 <= k < i ==> #[trigger] v@[k] != x,
        decreases v@.len() - i,
    {
        if v[i] == x {
            assert(v@[i as int] == x);
            return true;
        }
        i = i + 1;
    }
    false
}

/// How the objects of a scene are built, in draw order, once the images that
/// others sample were tried; `built` lists those that succeeded.
pub fn build_steps(model: &SceneModel, order: &Vec<usize>, built: &Vec<usize>) -> (r: Vec<BuildStep>)
    requires
        forall|k: int| 0 <= k < order@.len() ==> (#[trigger] order@[k]) < model.scene@.objects.len(),
    ensures
        r@ == turns_of(model.scene@.objects, built@, order@),
{
    let ghost all = model.scene@.objects;
    let mut out: Vec<BuildStep> = Vec::new();
    let mut i: usize = 0;
    assert(order@.take(0) =~= Seq::empty());
    while i < order.len()
        invariant
            i <= order@.len(),
            all == crate::scene::object_views(model.scene.objects@),
            forall|k: int| 0 <= k < order@.len() ==> (#[trigger] order@[k]) < all.len(),
            out@ == turns_of(all, built@, order@.take(i as int)),
        decreases order@.len() - i,
    {
        assert(order@.take(i + 1).drop_last() =~= order@.take(i as int));
        let oi = order[i];
        assert(oi < all.len());
        assert(all[oi as int] == model.scene.objects@[oi as int]@);
        let ghost was = out@;
        if has_index(built, oi) {
            out.push(BuildStep::Built(oi));
        } else {
            match item_kind(&model.scene.objects[oi]) {
                ItemKind::NotDrawn => {},
                kind => {
                    out.push(BuildStep::Build(oi, kind));
                },
            }
        }
        assert(out@ =~= was + turn_of(all, built@, oi));
        i = i + 1;
    }
    assert(order@.take(i as int) =~= order@);
    out
}

/// The names under which others sample the composite of an image.
pub open spec fn composite_name(id: i64, letter: Seq<char>) -> Seq<char> {
    "_rt_imageLayerComposite_"@ + crate::json::decimal_int(id as int) + letter
}

/// The two names under which the composite of an image goes.
pub fn composite_names(id: i64) -> (r: (String, String))
    ensures
        r.0@ == composite_name(id, "_a"@),
        r.1@ == composite_name(id, "_b"@),
{
    let number = crate::json::decimal_int_text(id);
    let mut a = crate::error::joined_message("_rt_imageLayerComposite_", number.as_str());
    let mut b = crate::error::joined_message("_rt_imageLayerComposite_", number.as_str());
    a.append("_a");
    b.append("_b");
    (a, b)
}

/// The parent of every object; of two objects with one id the later counts.
pub open spec fn parents_of(objects: Seq<ObjectView>) -> Map<i64, Option<i64>>
    decreases objects.len(),
{
    if objects.len() == 0 {
        Map::empty()
    } else {
        parents_of(objects.drop_last()).insert(objects.last().base.id, objects.last().base.parent)
    }
}

/// The visibility of every object by its own flag; of two objects with one id
/// the later counts.
pub open spec fn flags_of(objects: Seq<ObjectView>) -> Map<i64, bool>
    decreases objects.len(),
{
    if objects.len() == 0 {
        Map::empty()
    } else {
        flags_of(objects.drop_last()).insert(
            objects.last().base.id,
            objects.last().base.visible.value,
        )
    }
}

/// Whether an object is an image that is hidden by the flag of the image.
pub open spec fn image_hidden(o: ObjectView) -> bool {
    o.kind matches ObjectKindView::Image(img) && !img.visible.value
}

/// Visibility with hidden images folded in.
pub open spec fn hiding_images(m: Map<i64, bool>, objects: Seq<ObjectView>) -> Map<i64, bool>
    decreases objects.len(),
{
    if objects.len() == 0 {
        m
    } else {
        let before = hiding_images(m, objects.drop_last());
        if image_hidden(objects.last()) {
            before.insert(objects.last().base.id, false)
        } else {
            before
        }
    }
}

/// The visibility of every object, drawn or not.
pub open spec fn visibility_of(objects: Seq<ObjectView>) -> Map<i64, bool> {
    hiding_images(flags_of(objects), objects)
}

/// The parent of every object.
pub fn parent_map(objects: &Vec<Object>) -> (r: HashMap<i64, Option<i64>>)
    ensures
        r@ == parents_of(crate::scene::object_views(objects@)),
{
    broadcast use vstd::std_specs::hash::group_hash_axioms;

    let ghost all = crate::scene::object_views(objects@);
    let mut out: HashMap<i64, Option<i64>> = HashMap::new();
    let mut i: usize = 0;
    assert(all.take(0) =~= Seq::empty());
    assert(out@ =~= Map::<i64, Option<i64>>::empty());
    while i < objects.len()
        invariant
            i <= objects@.len(),
            all == crate::scene::object_views(objects@),
            out@ == parents_of(all.take(i as int)),
        decreases objects@.len() - i,
    {
        broadcast use vstd::std_specs::hash::group_hash_axioms;

        assert(all.take(i + 1).drop_last() =~= all.take(i as int));
        assert(all.take(i + 1).last() == objects@[i as int]@);
        out.insert(objects[i].base.id, objects[i].base.parent);
        i = i + 1;
    }
    assert(all.take(i as int) =~= all);
    out
}

/// The visibility of every object, drawn or not.
pub fn visibility_map(objects: &Vec<Object>) -> (r: HashMap<i64, bool>)
    ensures
        r@ == visibility_of(crate::scene::object_views(objects@)),
{
    broadcast use vstd::std_specs::hash::group_hash_axioms;

    let ghost all = crate::scene::object_views(objects@);
    let mut out: HashMap<i64, bool> = HashMap::new();
    let mut i: usize = 0;
    assert(all.take(0) =~= Seq::empty());
    assert(out@ =~= Map::<i64, bool>::empty());
    while i < objects.len()
        invariant
            i <= objects@.len(),
            all == crate::scene::object_views(objects@),
            out@ == flags_of(all.take(i as int)),
        decreases objects@.len() - i,
    {
        broadcast use vstd::std_specs::hash::group_hash_axioms;

        assert(all.take(i + 1).drop_last() =~= all.take(i as int));
        assert(all.take(i + 1).last() == objects@[i as int]@);
        out.insert(objects[i].base.id, objects[i].base.visible.value);
        i = i + 1;
    }
    assert(all.take(i as int) =~= all);
    let ghost flags = flags_of(all);
    let mut k: usize = 0;
    while k < objects.len()
        invariant
            k <= objects@.len(),
            all == crate::scene::object_views(objects@),
            out@ == hiding_images(flags, all.take(k as int)),
        decreases objects@.len() - k,
    {
        broadcast use vstd::std_specs::hash::group_hash_axioms;

        assert(all.take(k + 1).drop_last() =~= all.take(k as int));
        assert(all.take(k + 1).last() == objects@[k as int]@);
        if let ObjectKind::Image(img) = &objects[k].kind {
            if !img.visible.value {
                out.insert(objects[k].base.id, false);
            }
        }
        k = k + 1;
    }
    assert(all.take(k as int) =~= all);
    out
}

/// An object that is drawn.
#[derive(Debug)]
pub enum SceneItem {
    /// An image layer.
    Image(LiveImage),
    /// A particle system.
    Particle,
    /// A text.
    Text,
    /// A model.
    Model {
        /// Visibility.
        visible: bool,
        /// Whether it samples the scene as it is composited so far.
        reads_scene: bool,
    },
}

/// What a [`SceneItem`] holds.
pub enum ItemView {
    /// An image layer.
    Image(LiveImageView),
    /// A particle system.
    Particle,
    /// A text.
    Text,
    /// A model.
    Model {
        /// Visibility.
        visible: bool,
        /// Whether it samples the scene.
        reads_scene: bool,
    },
}

impl View for SceneItem {
    type V = ItemView;

    open spec fn view(&self) -> ItemView {
        match self {
            SceneItem::Image(i) => ItemView::Image(i@),
            SceneItem::Particle => ItemView::Particle,
            SceneItem::Text => ItemView::Text,
            SceneItem::Model { visible, reads_scene } => ItemView::Model {
                visible: *visible,
                reads_scene: *reads_scene,
            },
        }
    }
}

/// What a list of items holds.
pub open spec fn item_views(v: Seq<SceneItem>) -> Seq<ItemView> {
    Seq::new(v.len(), |i: int| v[i]@)
}

/// An item is well formed.
pub open spec fn item_wf(i: SceneItem) -> bool {
    i matches SceneItem::Image(img) ==> img.wf()
}

/// Every item is well formed.
pub open spec fn items_wf(v: Seq<SceneItem>) -> bool {
    forall|i: int| 0 <= i < v.len() ==> item_wf(#[trigger] v[i])
}

/// Whether an item samples the scene as it is composited so far.
pub open spec fn item_reads_scene(i: ItemView) -> bool {
    match i {
        ItemView::Image(img) => img.reads_scene,
        ItemView::Model { visible: _, reads_scene } => reads_scene,
        _ => false,
    }
}

/// An item after a change of properties.
pub open spec fn resolved_item(i: ItemView, bag: Map<Seq<char>, PropertyView>) -> ItemView {
    match i {
        ItemView::Image(img) => ItemView::Image(crate::live::resolved_live_image(img, bag)),
        _ => i,
    }
}

/// An item after an update.
pub open spec fn updated_item(i: ItemView, u: UpdateView) -> ItemView {
    match i {
        ItemView::Image(img) => ItemView::Image(crate::live::updated_image(img, u)),
        _ => i,
    }
}

/// An item after updates.
pub open spec fn item_after(i: ItemView, updates: Seq<UpdateView>) -> ItemView
    decreases updates.len(),
{
    if updates.len() == 0 {
        i
    } else {
        updated_item(item_after(i, updates.drop_last()), updates.last())
    }
}

/// Items after updates.
pub open spec fn items_after(items: Seq<ItemView>, updates: Seq<UpdateView>) -> Seq<ItemView> {
    items.map_values(|i: ItemView| item_after(i, updates))
}

/// Apply updates to the images that they are addressed to.
pub fn apply_script_updates(items: &mut Vec<SceneItem>, updates: &Vec<PropUpdate>)
    requires
        items_wf(old(items)@),
    ensures
        items_wf(final(items)@),
        item_views(final(items)@) == items_after(
            item_views(old(items)@),
            crate::scripting::update_views(updates@),
        ),
{
    let ghost first = item_views(items@);
    let ghost all = crate::scripting::update_views(updates@);
    let mut n: usize = 0;
    assert(all.take(0) =~= Seq::empty());
    assert(item_views(items@) =~= items_after(first, all.take(0)));
    while n < updates.len()
        invariant
            n <= updates@.len(),
            all == crate::scripting::update_views(updates@),
            items_wf(items@),
            items@.len() == first.len(),
            item_views(items@) == items_after(first, all.take(n as int)),
        decreases updates@.len() - n,
    {
        let ghost before = items@;
        let ghost shown = item_views(items@);
        let u = &updates[n];
        assert(all.take(n + 1).drop_last() =~= all.take(n as int));
        assert(all.take(n + 1).last() == u@);
        let mut i: usize = 0;
        while i < items.len()
            invariant
                i <= items@.len(),
                items@.len() == before.len(),
                items_wf(items@),
                items_wf(before),
                forall|k: int| 0 <= k < i ==> (#[trigger] items@[k])@ == updated_item(before[k]@, u@),
                forall|k: int| i <= k < before.len() ==> #[trigger] items@[k] == before[k],
            decreases items@.len() - i,
        {
            let ghost held = items@;
            assert(item_wf(held[i as int]));
            update_item(&mut items[i], u);
            assert forall|k: int| 0 <= k < items@.len() implies item_wf(#[trigger] items@[k]) by {
                if k != i {
                    assert(items@[k] == held[k]);
                }
            }
            i = i + 1;
        }
        assert(item_views(items@) =~= items_after(first, all.take(n + 1))) by {
            assert forall|k: int| 0 <= k < items@.len() implies item_views(items@)[k]
                == items_after(first, all.take(n + 1))[k] by {
                assert(shown[k] == before[k]@);
                assert(shown[k] == item_after(first[k], all.take(n as int)));
            }
        }
        n = n + 1;
    }
    assert(all.take(n as int) =~= all);
}

/// Take in an update, if it is addressed to an item.
fn update_item(item: &mut SceneItem, u: &PropUpdate)
    requires
        item_wf(*old(item)),
    ensures
        item_wf(*final(item)),
        final(item)@ == updated_item(old(item)@, u@),
{
    match item {
        SceneItem::Image(img) => img.update(u),
        _ => {},
    }
}

/// Follow a change of properties.
fn resolve_item(item: &mut SceneItem, bag: &PropertyBag)
    requires
        item_wf(*old(item)),
        bag.wf(),
    ensures
        item_wf(*final(item)),
        final(item)@ == resolved_item(old(item)@, bag@),
{
    match item {
        SceneItem::Image(img) => img.resolve(bag),
        _ => {},
    }
}

/// Follow a change of properties.
fn resolve_items(items: &mut Vec<SceneItem>, bag: &PropertyBag)
    requires
        items_wf(old(items)@),
        bag.wf(),
    ensures
        items_wf(final(items)@),
        item_views(final(items)@) == item_views(old(items)@).map_values(
            |i: ItemView| resolved_item(i, bag@),
        ),
{
    let ghost before = items@;
    let mut i: usize = 0;
    while i < items.len()
        invariant
            i <= items@.len(),
            items@.len() == before.len(),
            bag.wf(),
            items_wf(items@),
            items_wf(before),
            forall|k: int| 0 <= k < i ==> (#[trigger] items@[k])@ == resolved_item(before[k]@, bag@),
            forall|k: int| i <= k < before.len() ==> #[trigger] items@[k] == before[k],
        decreases items@.len() - i,
    {
        let ghost held = items@;
        assert(item_wf(held[i as int]));
        resolve_item(&mut items[i], bag);
        assert forall|k: int| 0 <= k < items@.len() implies item_wf(#[trigger] items@[k]) by {
            if k != i {
                assert(items@[k] == held[k]);
            }
        }
        i = i + 1;
    }
    assert(item_views(items@) =~= item_views(before).map_values(
        |i: ItemView| resolved_item(i, bag@),
    ));
}

/// One step of drawing a frame.
#[derive(Clone, Copy, Debug, PartialEq, Eq, Structural)]
pub enum DrawStep {
    /// Keep a copy of the scene as it is composited so far.
    Snapshot,
    /// Draw the passes of an image.
    Image(usize),
    /// Advance and draw a particle system.
    Particle(usize),
    /// Draw a text.
    Text(usize),
    /// Draw a model.
    Model(usize),
}

/// A running scene.
#[derive(Debug)]
pub struct SceneRenderer {
    /// Width of the scene.
    pub proj_w: u32,
    /// Height of the scene.
    pub proj_h: u32,
    /// How it is presented.
    pub options: SceneOptions,
    /// What is drawn, bottom to top.
    pub items: Vec<SceneItem>,
    /// The layers that scripts created, by id.
    pub runtime_layers: HashMap<i64, RuntimeLayer>,
    /// Whether a copy of the scene is kept for those that sample it.
    pub snapshot: bool,
    /// Whether there is a depth buffer for models.
    pub model_depth: bool,
    /// Whether bright parts glow.
    pub bloom: bool,
    /// The properties.
    pub bag: PropertyBag,
    /// The settings of the scene as a whole.
    pub general: General,
    /// The camera.
    pub camera: Camera,
    /// What scripts share with the scene, if there are any.
    pub script: Option<ScriptHost>,
    /// The parent of every object.
    pub parent_by_id: HashMap<i64, Option<i64>>,
    /// The visibility of every object.
    pub visible_by_id: HashMap<i64, bool>,
}

/// What a [`SceneRenderer`] holds.
#[verifier::ext_equal]
pub struct RendererView {
    /// Size of the scene.
    pub size: (u32, u32),
    /// How it is presented.
    pub options: SceneOptions,
    /// What is drawn.
    pub items: Seq<ItemView>,
    /// The layers that scripts created.
    pub runtime: Map<i64, RuntimeView>,
    /// Whether a copy of the scene is kept.
    pub snapshot: bool,
    /// Whether there is a depth buffer.
    pub depth: bool,
    /// Whether bright parts glow.
    pub bloom: bool,
    /// The properties.
    pub bag: Map<Seq<char>, PropertyView>,
    /// The settings of the scene as a whole.
    pub general: GeneralView,
    /// The camera.
    pub camera: CameraView,
    /// What scripts share with the scene.
    pub script: Option<HostView>,
    /// The parent of every object.
    pub parents: Map<i64, Option<i64>>,
    /// The visibility of every object.
    pub visible: Map<i64, bool>,
}

/// What an optional host holds.
pub open spec fn opt_host(h: Option<ScriptHost>) -> Option<HostView> {
    match h {
        Some(h) => Some(h@),
        None => None,
    }
}

impl View for SceneRenderer {
    type V = RendererView;

    open spec fn view(&self) -> RendererView {
        RendererView {
            size: (self.proj_w, self.proj_h),
            options: self.options,
            items: item_views(self.items@),
            runtime: crate::live::runtime_views(self.runtime_layers@),
            snapshot: self.snapshot,
            depth: self.model_depth,
            bloom: self.bloom,
            bag: self.bag@,
            general: self.general@,
            camera: self.camera@,
            script: opt_host(self.script),
            parents: self.parent_by_id@,
            visible: self.visible_by_id@,
        }
    }
}

/// What scripts get of properties is a bag: of two with one name the later
/// holds.
pub open spec fn bag_of(props: Seq<(Seq<char>, PropertyView)>) -> Map<Seq<char>, PropertyView>
    decreases props.len(),
{
    if props.len() == 0 {
        Map::empty()
    } else {
        bag_of(props.drop_last()).insert(props.last().0, props.last().1)
    }
}

/// A bag of named properties.
fn bag_from(props: &Vec<(String, PropertyValue)>) -> (r: PropertyBag)
    ensures
        r.wf(),
        r@ == bag_of(crate::script_host::named_views(props@)),
{
    let ghost all = crate::script_host::named_views(props@);
    let mut bag = PropertyBag::new();
    let mut i: usize = 0;
    assert(all.take(0) =~= Seq::empty());
    while i < props.len()
        invariant
            i <= props@.len(),
            all == crate::script_host::named_views(props@),
            bag.wf(),
            bag@ == bag_of(all.take(i as int)),
        decreases props@.len() - i,
    {
        assert(all.take(i + 1).drop_last() =~= all.take(i as int));
        assert(all.take(i + 1).last() == (props@[i as int].0@, props@[i as int].1@));
        bag.insert(props[i].0.as_str(), props[i].1.copy());
        i = i + 1;
    }
    assert(all.take(i as int) =~= all);
    bag
}

/// The number of passes of the images among the first `n` items.
pub open spec fn passes_up_to(items: Seq<ItemView>, n: nat) -> nat
    decreases n,
{
    if n == 0 {
        0
    } else {
        passes_up_to(items, (n - 1) as nat) + match items[n - 1] {
            ItemView::Image(img) => img.passes.len(),
            _ => 0,
        }
    }
}

/// More items have no fewer passes.
proof fn lemma_passes_grow(items: Seq<ItemView>, a: nat, b: nat)
    requires
        a <= b,
    ensures
        passes_up_to(items, a) <= passes_up_to(items, b),
    decreases b,
{
    if a < b {
        lemma_passes_grow(items, a, (b - 1) as nat);
    }
}

/// Whether any item samples the scene.
pub open spec fn any_reads_scene(items: Seq<ItemView>) -> bool {
    exists|i: int| 0 <= i < items.len() && item_reads_scene(#[trigger] items[i])
}

/// Whether any item is a model.
pub open spec fn any_model(items: Seq<ItemView>) -> bool {
    exists|i: int| 0 <= i < items.len() && (#[trigger] items[i]) is Model
}

/// Whether any item samples the scene, and whether any is a model.
fn survey(items: &Vec<SceneItem>) -> (r: (bool, bool))
    ensures
        r.0 == any_reads_scene(item_views(items@)),
        r.1 == any_model(item_views(items@)),
{
    let ghost all = item_views(items@);
    let mut reads = false;
    let mut model = false;
    let mut i: usize = 0;
    while i < items.len()
        invariant
            i <= items@.len(),
            all == item_views(items@),
            reads == exists|k: int| 0 <= k < i && item_reads_scene(#[trigger] all[k]),
            model == exists|k: int| 0 <= k < i && (#[trigger] all[k]) is Model,
        decreases items@.len() - i,
    {
        assert(all[i as int] == items@[i as int]@);
        match &items[i] {
            SceneItem::Image(img) => {
                if img.reads_scene {
                    assert(item_reads_scene(all[i as int]));
                    reads = true;
                }
            },
            SceneItem::Model { visible: _, reads_scene } => {
                assert(all[i as int] is Model);
                model = true;
                if *reads_scene {
                    assert(item_reads_scene(all[i as int]));
                    reads = true;
                }
            },
            _ => {},
        }
        i = i + 1;
    }
    (reads, model)
}

/// Whether an item draws for others to sample.
pub open spec fn donates(i: ItemView) -> bool {
    i matches ItemView::Image(img) && img.donor
}

/// The steps that draw, among the first `n` items, those that others sample.
pub open spec fn donor_steps(items: Seq<ItemView>, n: nat) -> Seq<DrawStep>
    decreases n,
{
    if n == 0 {
        Seq::empty()
    } else {
        let before = donor_steps(items, (n - 1) as nat);
        if donates(items[n - 1]) {
            before.push(DrawStep::Image((n - 1) as usize))
        } else {
            before
        }
    }
}

/// A copy of the scene before an item that samples it.
pub open spec fn copy_first(reads: bool, snapshot: bool) -> Seq<DrawStep> {
    if reads && snapshot {
        seq![DrawStep::Snapshot]
    } else {
        Seq::empty()
    }
}

/// The steps that draw one item in its turn.
pub open spec fn item_steps(r: RendererView, i: int) -> Seq<DrawStep> {
    match r.items[i] {
        ItemView::Image(img) => if img.donor || !img.visible || !crate::live::chain_visible(
            r.parents,
            r.visible,
            img.parent,
            crate::live::CHAIN_LIMIT as nat,
        ) {
            Seq::empty()
        } else {
            copy_first(img.reads_scene, r.snapshot).push(DrawStep::Image(i as usize))
        },
        ItemView::Particle => seq![DrawStep::Particle(i as usize)],
        ItemView::Text => seq![DrawStep::Text(i as usize)],
        ItemView::Model { visible, reads_scene } => if !visible {
            Seq::empty()
        } else if r.depth {
            copy_first(reads_scene, r.snapshot).push(DrawStep::Model(i as usize))
        } else {
            copy_first(reads_scene, r.snapshot)
        },
    }
}

/// The steps that draw the first `n` items in their turn.
pub open spec fn turn_steps(r: RendererView, n: nat) -> Seq<DrawStep>
    decreases n,
{
    if n == 0 {
        Seq::empty()
    } else {
        turn_steps(r, (n - 1) as nat) + item_steps(r, n - 1)
    }
}

/// The steps of a frame: first the images that others sample, seen or not;
/// then all visible items in their turn, each after a copy of the scene where
/// it samples that.
pub open spec fn frame_of(r: RendererView) -> Seq<DrawStep> {
    donor_steps(r.items, r.items.len()) + turn_steps(r, r.items.len())
}

/// A camera after scripts moved it: what they named is replaced, the rest
/// stays.
pub open spec fn moved_camera(c: CameraView, op: Option<CameraOpView>) -> CameraView {
    match op {
        Some(o) => CameraView {
            eye: match o.eye {
                Some(v) => v,
                None => c.eye,
            },
            center: match o.center {
                Some(v) => v,
                None => c.center,
            },
            up: match o.up {
                Some(v) => v,
                None => c.up,
            },
            fov: match o.fov {
                Some(v) => SettingView { value: v, ..c.fov },
                None => c.fov,
            },
            ..c
        },
        None => c,
    }
}

/// Move the camera as scripts asked for.
pub fn move_camera(camera: &mut Camera, op: Option<CameraOp>)
    ensures
        final(camera)@ == moved_camera(old(camera)@, crate::scripting::opt_camera(op)),
{
    if let Some(o) = op {
        if let Some(eye) = o.eye {
            camera.eye = eye;
        }
        if let Some(center) = o.center {
            camera.center = center;
        }
        if let Some(up) = o.up {
            camera.up = up;
        }
        if let Some(fov) = o.fov {
            camera.fov.value = fov;
        }
    }
}

/// A running scene after what its scripts asked for.
pub open spec fn after_updates(
    r: RendererView,
    host: HostView,
    created: Seq<(i64, Seq<char>)>,
    updates: Seq<UpdateView>,
) -> RendererView {
    RendererView {
        script: Some(HostView { created: Seq::empty(), camera_op: None, ..host }),
        camera: moved_camera(r.camera, host.camera_op),
        visible: crate::live::visible_after(r.visible, updates),
        runtime: crate::live::runtime_after(
            crate::live::runtime_created(r.runtime, created),
            updates,
        ),
        items: items_after(r.items, updates),
        ..r
    }
}

/// A running scene after one run of its scripts.
pub open spec fn after_run(
    r: RendererView,
    results: Seq<(Seq<char>, ScriptValueView)>,
    ops: Seq<OpView>,
) -> RendererView {
    match r.script {
        Some(h) => {
            let s = crate::script_host::after_output(h, results, ops);
            after_updates(r, s.host, s.host.created, s.updates)
        },
        None => r,
    }
}

/// A running scene whose bag was replaced and everything live resolved again.
pub open spec fn with_bag(
    r: RendererView,
    bag: Map<Seq<char>, PropertyView>,
    key: Seq<char>,
) -> RendererView {
    RendererView {
        bag,
        items: r.items.map_values(|i: ItemView| resolved_item(i, bag)),
        camera: crate::resolve::resolved_camera(r.camera, bag),
        general: crate::resolve::resolved_general(r.general, bag),
        script: match r.script {
            Some(h) => Some(
                HostView {
                    user_props: h.user_props.insert(
                        key,
                        crate::scripting::property_script(bag[key]),
                    ),
                    user_props_dirty: true,
                    ..h
                },
            ),
            None => None,
        },
        ..r
    }
}

impl SceneRenderer {
    /// Everything that is live is well formed.
    pub open spec fn wf(&self) -> bool {
        &&& items_wf(self.items@)
        &&& self.bag.wf()
        &&& (self.script matches Some(h) ==> h.wf())
    }

    /// A running scene of some items. Refused where the scene has no extent,
    /// or nothing to draw.
    pub fn new(
        model: SceneModel,
        options: SceneOptions,
        size: (u32, u32),
        items: Vec<SceneItem>,
        user_props: &Vec<(String, PropertyValue)>,
        script: Option<ScriptHost>,
    ) -> (r: Result<SceneRenderer, SceneError>)
        requires
            items_wf(items@),
            script matches Some(h) ==> h.wf(),
        ensures
            match r {
                Err(SceneError::BadProjection { width, height }) => (size.0 == 0 || size.1 == 0)
                    && (width, height) == size,
                Err(SceneError::NoRenderableObjects) => size.0 != 0 && size.1 != 0 && items@.len()
                    == 0,
                Ok(s) => {
                    let bloom = model.scene@.general.bloom.value;
                    &&& size.0 != 0 && size.1 != 0 && items@.len() > 0
                    &&& s.wf()
                    &&& s@ == (RendererView {
                        size,
                        options,
                        items: item_views(items@),
                        runtime: Map::empty(),
                        snapshot: bloom || any_reads_scene(item_views(items@)),
                        depth: any_model(item_views(items@)),
                        bloom,
                        bag: bag_of(crate::script_host::named_views(user_props@)),
                        general: model.scene@.general,
                        camera: model.scene@.camera,
                        script: opt_host(script),
                        parents: parents_of(model.scene@.objects),
                        visible: visibility_of(model.scene@.objects),
                    })
                },
            },
    {
        if size.0 == 0 || size.1 == 0 {
            return Err(SceneError::BadProjection { width: size.0, height: size.1 });
        }
        if items.len() == 0 {
            return Err(SceneError::NoRenderableObjects);
        }
        let (reads, model_depth) = survey(&items);
        let parent_by_id = parent_map(&model.scene.objects);
        let visible_by_id = visibility_map(&model.scene.objects);
        let runtime_layers: HashMap<i64, RuntimeLayer> = HashMap::new();
        assert(crate::live::runtime_views(runtime_layers@) =~= Map::<i64, RuntimeView>::empty());
        let bloom = model.scene.general.bloom.value;
        Ok(
            SceneRenderer {
                proj_w: size.0,
                proj_h: size.1,
                options,
                items,
                runtime_layers,
                snapshot: bloom || reads,
                model_depth,
                bloom,
                bag: bag_from(user_props),
                general: model.scene.general,
                camera: model.scene.camera,
                script,
                parent_by_id,
                visible_by_id,
            },
        )
    }

    /// The size of the scene.
    pub fn projection_size(&self) -> (r: (u32, u32))
        ensures
            r == self@.size,
    {
        (self.proj_w, self.proj_h)
    }

    /// The number of passes of all images.
    pub fn debug_pass_count(&self) -> (n: usize)
        requires
            passes_up_to(self@.items, self@.items.len()) <= usize::MAX,
        ensures
            n == passes_up_to(self@.items, self@.items.len()),
    {
        let ghost all = self@.items;
        let mut n: usize = 0;
        let mut i: usize = 0;
        while i < self.items.len()
            invariant
                i <= self.items@.len(),
                all == item_views(self.items@),
                passes_up_to(all, all.len()) <= usize::MAX,
                n == passes_up_to(all, i as nat),
            decreases self.items@.len() - i,
        {
            assert(all[i as int] == self.items@[i as int]@);
            proof {
                lemma_passes_grow(all, (i + 1) as nat, all.len());
            }
            if let SceneItem::Image(img) = &self.items[i] {
                n = n + img.passes.len();
            }
            i = i + 1;
        }
        n
    }

    /// The number of particle systems.
    pub fn debug_particle_count(&self) -> (n: usize)
        ensures
            n == self@.items.filter(|i: ItemView| i is Particle).len(),
    {
        self.count_kind(ItemKind::Particle)
    }

    /// The number of texts.
    pub fn debug_text_count(&self) -> (n: usize)
        ensures
            n == self@.items.filter(|i: ItemView| i is Text).len(),
    {
        self.count_kind(ItemKind::Text)
    }

    /// The number of particle systems or of texts.
    fn count_kind(&self, kind: ItemKind) -> (n: usize)
        requires
            kind == ItemKind::Particle || kind == ItemKind::Text,
        ensures
            kind == ItemKind::Particle ==> n == self@.items.filter(
                |i: ItemView| i is Particle,
            ).len(),
            kind == ItemKind::Text ==> n == self@.items.filter(|i: ItemView| i is Text).len(),
    {
        reveal(Seq::filter);
        let ghost particle = |i: ItemView| i is Particle;
        let ghost text = |i: ItemView| i is Text;
        let ghost all = self@.items;
        let mut n: usize = 0;
        let mut i: usize = 0;
        assert(all.take(0) =~= Seq::empty());
        while i < self.items.len()
            invariant
                i <= self.items@.len(),
                n <= i,
                all == item_views(self.items@),
                particle == (|i: ItemView| i is Particle),
                text == (|i: ItemView| i is Text),
                kind == ItemKind::Particle || kind == ItemKind::Text,
                kind == ItemKind::Particle ==> n == all.take(i as int).filter(particle).len(),
                kind == ItemKind::Text ==> n == all.take(i as int).filter(text).len(),
            decreases self.items@.len() - i,
        {
            reveal(Seq::filter);
            assert(all.take(i + 1).drop_last() =~= all.take(i as int));
            assert(all.take(i + 1).last() == self.items@[i as int]@);
            let hit = match &self.items[i] {
                SceneItem::Particle => kind == ItemKind::Particle,
                SceneItem::Text => kind == ItemKind::Text,
                _ => false,
            };
            if hit {
                n = n + 1;
            }
            i = i + 1;
        }
        assert(all.take(i as int) =~= all);
        n
    }

    /// What to draw in a frame, in order.
    pub fn frame(&self) -> (r: Vec<DrawStep>)
        ensures
            r@ == frame_of(self@),
    {
        let ghost v = self@;
        let mut out: Vec<DrawStep> = Vec::new();
        let mut i: usize = 0;
        while i < self.items.len()
            invariant
                i <= self.items@.len(),
                v == self@,
                out@ == donor_steps(v.items, i as nat),
            decreases self.items@.len() - i,
        {
            assert(v.items[i as int] == self.items@[i as int]@);
            if let SceneItem::Image(img) = &self.items[i] {
                if img.offscreen_donor {
                    out.push(DrawStep::Image(i));
                }
            }
            i = i + 1;
        }
        let ghost donors = out@;
        let mut k: usize = 0;
        assert(out@ =~= donors + turn_steps(v, 0));
        while k < self.items.len()
            invariant
                k <= self.items@.len(),
                v == self@,
                out@ == donors + turn_steps(v, k as nat),
            decreases self.items@.len() - k,
        {
            assert(v.items[k as int] == self.items@[k as int]@);
            let ghost was = out@;
            self.push_item(&mut out, k);
            assert(out@ =~= donors + turn_steps(v, (k + 1) as nat));
            k = k + 1;
        }
        out
    }

    /// Append the steps that draw one item in its turn.
    fn push_item(&self, out: &mut Vec<DrawStep>, i: usize)
        requires
            i < self.items@.len(),
        ensures
            final(out)@ == old(out)@ + item_steps(self@, i as int),
    {
        let ghost was = out@;
        assert(self@.items[i as int] == self.items@[i as int]@);
        match &self.items[i] {
            SceneItem::Image(img) => {
                if img.offscreen_donor || !img.visible || !ancestors_visible(
                    &self.parent_by_id,
                    &self.visible_by_id,
                    img.parent,
                ) {
                    assert(out@ =~= was + item_steps(self@, i as int));
                    return;
                }
                if img.reads_scene && self.snapshot {
                    out.push(DrawStep::Snapshot);
                }
                out.push(DrawStep::Image(i));
            },
            SceneItem::Particle => {
                out.push(DrawStep::Particle(i));
            },
            SceneItem::Text => {
                out.push(DrawStep::Text(i));
            },
            SceneItem::Model { visible, reads_scene } => {
                if *visible {
                    if *reads_scene && self.snapshot {
                        out.push(DrawStep::Snapshot);
                    }
                    if self.model_depth {
                        out.push(DrawStep::Model(i));
                    }
                }
            },
        }
        assert(out@ =~= was + item_steps(self@, i as int));
    }

    /// Take in what one run of the scripts handed back. Without scripts nothing
    /// changes.
    pub fn run(&mut self, output: TickOutput)
        requires
            old(self).wf(),
        ensures
            final(self).wf(),
            final(self)@ == after_run(
                old(self)@,
                crate::script_host::result_views(output.property_results@),
                crate::script_host::op_views(output.ops@),
            ),
    {
        match &mut self.script {
            Some(host) => {
                let updates = host.process_output(output);
                let created = host.take_created();
                let op = host.take_camera();
                move_camera(&mut self.camera, op);
                apply_visibility(&mut self.visible_by_id, &updates);
                add_created(&mut self.runtime_layers, &created);
                apply_runtime_updates(&mut self.runtime_layers, &updates);
                apply_script_updates(&mut self.items, &updates);
            },
            None => {},
        }
    }

    /// Change a property of the running scene: shader parameters, the camera
    /// and the settings of the scene follow, and scripts read the new value.
    /// Returns whether it applied: an undeclared name or a text that does not
    /// parse changes nothing.
    pub fn set_property<F: Fn(Override) -> PropertyValue>(
        &mut self,
        key: &str,
        value: &str,
        read: &F,
    ) -> (r: bool)
        requires
            old(self).wf(),
            crate::property::reads_overrides(*read),
        ensures
            final(self).wf(),
            r == crate::property::accepts(old(self)@.bag, key@, value@),
            !r ==> final(self)@ == old(self)@,
            r ==> exists|bag: Map<Seq<char>, PropertyView>|
                crate::property::overridden(old(self)@.bag, key@, value@, *read, bag)
                    && crate::property::changes_value(old(self)@.bag, key@, bag)
                    && final(self)@ == #[trigger] with_bag(old(self)@, bag, key@),
    {
        let ghost before = self@;
        if !apply_property_override(&mut self.bag, key, value, read) {
            return false;
        }
        let ghost bag = self.bag@;
        resolve_items(&mut self.items, &self.bag);
        self.camera.reresolve(&self.bag);
        self.general.resolve(&self.bag);
        match &mut self.script {
            Some(host) => {
                if let Some(v) = self.bag.get(key) {
                    host.apply_user_property(key, v);
                }
            },
            None => {},
        }
        assert(self@ =~= with_bag(before, bag, key@));
        true
    }
}

/// Only images that others sample are drawn before all else.
proof fn lemma_donor_steps(items: Seq<ItemView>, n: nat, s: DrawStep)
    requires
        n <= items.len(),
        items.len() <= usize::MAX,
    ensures
        donor_steps(items, n).contains(s) <==> (s matches DrawStep::Image(i) && i < n && donates(
            items[i as int],
        )),
    decreases n,
{
    if n > 0 {
        lemma_donor_steps(items, (n - 1) as nat, s);
        let before = donor_steps(items, (n - 1) as nat);
        let d = DrawStep::Image((n - 1) as usize);
        if donates(items[n - 1]) {
            let now = donor_steps(items, n);
            assert(now == before.push(d));
            if before.contains(s) {
                let k = choose|k: int| 0 <= k < before.len() && before[k] == s;
                assert(now[k] == s);
            }
            if s == d {
                assert(now[before.len() as int] == s);
            }
            if now.contains(s) && s != d {
                let k = choose|k: int| 0 <= k < now.len() && now[k] == s;
                assert(before[k] == s);
            }
        }
    }
}

/// What is drawn in its turn is what the steps of one item say.
proof fn lemma_turn_steps(r: RendererView, n: nat, s: DrawStep)
    requires
        n <= r.items.len(),
    ensures
        turn_steps(r, n).contains(s) <==> exists|i: int|
            0 <= i < n && #[trigger] item_steps(r, i).contains(s),
    decreases n,
{
    if n > 0 {
        lemma_turn_steps(r, (n - 1) as nat, s);
        let before = turn_steps(r, (n - 1) as nat);
        let own = item_steps(r, n - 1);
        let now = turn_steps(r, n);
        assert(now == before + own);
        if before.contains(s) {
            let k = choose|k: int| 0 <= k < before.len() && before[k] == s;
            assert(now[k] == s);
        }
        if own.contains(s) {
            let k = choose|k: int| 0 <= k < own.len() && own[k] == s;
            assert(now[before.len() + k] == s);
        }
        if now.contains(s) {
            let k = choose|k: int| 0 <= k < now.len() && now[k] == s;
            if k < before.len() {
                assert(before[k] == s);
            } else {
                assert(own[k - before.len()] == s);
            }
        }
    }
}

/// A frame draws an image if and only if others sample it, or it is visible
/// with all its ancestors.
pub proof fn law_image_drawn_iff_visible(r: RendererView, i: usize)
    requires
        i < r.items.len(),
        r.items.len() <= usize::MAX,
        r.items[i as int] is Image,
    ensures
        frame_of(r).contains(DrawStep::Image(i)) <==> {
            let img = r.items[i as int]->Image_0;
            img.donor || (img.visible && crate::live::chain_visible(
                r.parents,
                r.visible,
                img.parent,
                crate::live::CHAIN_LIMIT as nat,
            ))
        },
{
    let s = DrawStep::Image(i);
    let n = r.items.len();
    lemma_donor_steps(r.items, n, s);
    lemma_turn_steps(r, n, s);
    let first = donor_steps(r.items, n);
    let rest = turn_steps(r, n);
    let all = frame_of(r);
    let own = item_steps(r, i as int);
    let img = r.items[i as int]->Image_0;
    if !img.donor && img.visible && crate::live::chain_visible(
        r.parents,
        r.visible,
        img.parent,
        crate::live::CHAIN_LIMIT as nat,
    ) {
        assert(own.last() == s);
        assert(own[own.len() - 1] == s);
        assert(own.contains(s));
        assert(rest.contains(s));
    }
    if first.contains(s) {
        let k = choose|k: int| 0 <= k < first.len() && first[k] == s;
        assert(all[k] == s);
    }
    if rest.contains(s) {
        let k = choose|k: int| 0 <= k < rest.len() && rest[k] == s;
        assert(all[first.len() + k] == s);
    }
    if all.contains(s) {
        let k = choose|k: int| 0 <= k < all.len() && all[k] == s;
        if k < first.len() {
            assert(first[k] == s);
        } else {
            assert(rest[k - first.len()] == s);
        }
    }
    if rest.contains(s) {
        let j = choose|j: int| 0 <= j < n && #[trigger] item_steps(r, j).contains(s);
        let steps = item_steps(r, j);
        let k = choose|k: int| 0 <= k < steps.len() && steps[k] == s;
        assert(j == i);
    }
}

/// What others sample is drawn before anything that is drawn in its turn: every
/// step that draws into the scene comes after every step of such an image.
pub proof fn law_donors_come_first(r: RendererView, i: usize)
    requires
        i < r.items.len(),
        r.items.len() <= usize::MAX,
        donates(r.items[i as int]),
    ensures
        exists|k: int|
            0 <= k < donor_steps(r.items, r.items.len()).len() && #[trigger] frame_of(r)[k]
                == DrawStep::Image(i),
        frame_of(r).skip(donor_steps(r.items, r.items.len()).len() as int) == turn_steps(
            r,
            r.items.len(),
        ),
        !turn_steps(r, r.items.len()).contains(DrawStep::Image(i)),
{
    let s = DrawStep::Image(i);
    let n = r.items.len();
    let first = donor_steps(r.items, n);
    lemma_donor_steps(r.items, n, s);
    lemma_turn_steps(r, n, s);
    let k = choose|k: int| 0 <= k < first.len() && first[k] == s;
    assert(frame_of(r)[k] == s);
    assert(frame_of(r).skip(first.len() as int) =~= turn_steps(r, n));
    if turn_steps(r, n).contains(s) {
        let j = choose|j: int| 0 <= j < n && #[trigger] item_steps(r, j).contains(s);
        let steps = item_steps(r, j);
        let k = choose|k: int| 0 <= k < steps.len() && steps[k] == s;
        assert(j == i);
    }
}

/// What an item that samples the scene gets to see is the scene directly
/// before it: where a copy is kept at all, each such item is drawn right after
/// a copy was made.
pub proof fn law_copy_precedes_reader(r: RendererView, i: int)
    requires
        0 <= i < r.items.len(),
        r.snapshot,
        item_reads_scene(r.items[i]),
        item_steps(r, i).len() > 0,
    ensures
        item_steps(r, i)[0] == DrawStep::Snapshot,
        item_steps(r, i).len() <= 2,
{
}

/// Wherever an item samples the scene, a new renderer keeps a copy for it.
pub proof fn law_readers_have_a_copy(items: Seq<ItemView>, i: int, bloom: bool)
    requires
        0 <= i < items.len(),
        item_reads_scene(items[i]),
    ensures
        bloom || any_reads_scene(items),
{
}

/// An update that is addressed to one object leaves every other item as it is.
pub proof fn law_update_elsewhere_keeps_item(i: ItemView, u: UpdateView)
    requires
        i matches ItemView::Image(img) ==> img.id != u.object_id,
    ensures
        updated_item(i, u) == i,
{
}

/// The item that a step draws, if it draws one.
pub open spec fn item_of(s: DrawStep) -> Option<usize> {
    match s {
        DrawStep::Snapshot => None,
        DrawStep::Image(i) => Some(i),
        DrawStep::Particle(i) => Some(i),
        DrawStep::Text(i) => Some(i),
        DrawStep::Model(i) => Some(i),
    }
}

/// Every step of an item in its turn draws that item or copies the scene.
proof fn lemma_own_steps(r: RendererView, i: int, k: int)
    requires
        0 <= i < r.items.len(),
        r.items.len() <= usize::MAX,
        0 <= k < item_steps(r, i).len(),
    ensures
        item_of(item_steps(r, i)[k]) matches Some(j) ==> j == i,
        item_of(item_steps(r, i)[k]) is None ==> item_steps(r, i)[k] == DrawStep::Snapshot,
{
}

/// The steps of the first items lie before those of the others.
proof fn lemma_turns_ordered(r: RendererView, n: nat, k: int)
    requires
        n <= r.items.len(),
        r.items.len() <= usize::MAX,
        0 <= k < turn_steps(r, n).len(),
    ensures
        item_of(turn_steps(r, n)[k]) matches Some(j) ==> j < n,
        forall|m: int|
            0 <= m < k ==> ((item_of(#[trigger] turn_steps(r, n)[m]) matches Some(i) ==> (item_of(
                turn_steps(r, n)[k],
            ) matches Some(j) ==> i <= j))),
    decreases n,
{
    if n > 0 {
        let before = turn_steps(r, (n - 1) as nat);
        let own = item_steps(r, n - 1);
        let all = turn_steps(r, n);
        assert(all == before + own);
        if k < before.len() {
            lemma_turns_ordered(r, (n - 1) as nat, k);
            assert(all[k] == before[k]);
            assert forall|m: int| 0 <= m < k implies (item_of(#[trigger] all[m]) matches Some(i) ==> (
            item_of(all[k]) matches Some(j) ==> i <= j)) by {
                assert(all[m] == before[m]);
            }
        } else {
            lemma_own_steps(r, n - 1, k - before.len());
            assert(all[k] == own[k - before.len()]);
            assert forall|m: int| 0 <= m < k implies (item_of(#[trigger] all[m]) matches Some(i) ==> (
            item_of(all[k]) matches Some(j) ==> i <= j)) by {
                if m < before.len() {
                    lemma_turns_ordered(r, (n - 1) as nat, m);
                    assert(all[m] == before[m]);
                } else {
                    lemma_own_steps(r, n - 1, m - before.len());
                }
            }
        }
    }
}

/// A frame draws bottom to top: after the images that others sample, of two
/// steps the later never draws an item further down.
pub proof fn law_frame_draws_bottom_to_top(r: RendererView, a: int, b: int)
    requires
        r.items.len() <= usize::MAX,
        donor_steps(r.items, r.items.len()).len() <= a < b < frame_of(r).len(),
    ensures
        item_of(frame_of(r)[a]) matches Some(i) ==> (item_of(frame_of(r)[b]) matches Some(j) ==> i
            <= j),
{
    let n = r.items.len();
    let d = donor_steps(r.items, n).len();
    lemma_turns_ordered(r, n, b - d);
    assert(frame_of(r)[a] == turn_steps(r, n)[a - d]);
    assert(frame_of(r)[b] == turn_steps(r, n)[b - d]);
}

/// What stands in a frame stands among the images that others sample or among
/// what is drawn in its turn.
proof fn lemma_frame_contains(r: RendererView, s: DrawStep)
    ensures
        frame_of(r).contains(s) <==> donor_steps(r.items, r.items.len()).contains(s) || turn_steps(
            r,
            r.items.len(),
        ).contains(s),
{
    let first = donor_steps(r.items, r.items.len());
    let rest = turn_steps(r, r.items.len());
    let all = frame_of(r);
    if first.contains(s) {
        let k = choose|k: int| 0 <= k < first.len() && first[k] == s;
        assert(all[k] == s);
    }
    if rest.contains(s) {
        let k = choose|k: int| 0 <= k < rest.len() && rest[k] == s;
        assert(all[first.len() + k] == s);
    }
    if all.contains(s) {
        let k = choose|k: int| 0 <= k < all.len() && all[k] == s;
        if k < first.len() {
            assert(first[k] == s);
        } else {
            assert(rest[k - first.len()] == s);
        }
    }
}

/// A frame draws every particle system and every text, and every visible model
/// where there is a depth buffer; each step draws an item of its kind.
pub proof fn law_frame_draws_the_rest(r: RendererView, i: usize)
    requires
        i < r.items.len(),
        r.items.len() <= usize::MAX,
    ensures
        frame_of(r).contains(DrawStep::Particle(i)) <==> r.items[i as int] is Particle,
        frame_of(r).contains(DrawStep::Text(i)) <==> r.items[i as int] is Text,
        frame_of(r).contains(DrawStep::Model(i)) <==> r.depth && (
        r.items[i as int] matches ItemView::Model { visible, reads_scene: _ } && visible),
        frame_of(r).contains(DrawStep::Image(i)) ==> r.items[i as int] is Image,
{
    let n = r.items.len();
    let own = item_steps(r, i as int);
    if own.len() > 0 {
        assert(own[own.len() - 1] == own.last());
    }
    lemma_step_of_item(r, DrawStep::Particle(i), i);
    lemma_step_of_item(r, DrawStep::Text(i), i);
    lemma_step_of_item(r, DrawStep::Model(i), i);
    lemma_step_of_item(r, DrawStep::Image(i), i);
    if r.items[i as int] is Particle {
        assert(own[0] == DrawStep::Particle(i));
    }
    if r.items[i as int] is Text {
        assert(own[0] == DrawStep::Text(i));
    }
    if r.depth && (r.items[i as int] matches ItemView::Model { visible, reads_scene: _ } && visible) {
        assert(own[own.len() - 1] == DrawStep::Model(i));
    }
}

/// A step that draws an item comes from that item.
proof fn lemma_step_of_item(r: RendererView, s: DrawStep, i: usize)
    requires
        i < r.items.len(),
        r.items.len() <= usize::MAX,
        item_of(s) == Some(i),
    ensures
        frame_of(r).contains(s) <==> item_steps(r, i as int).contains(s) || (s == DrawStep::Image(i)
            && donates(r.items[i as int])),
{
    let n = r.items.len();
    lemma_frame_contains(r, s);
    lemma_donor_steps(r.items, n, s);
    lemma_turn_steps(r, n, s);
    if turn_steps(r, n).contains(s) {
        let j = choose|j: int| 0 <= j < n && #[trigger] item_steps(r, j).contains(s);
        let steps = item_steps(r, j);
        let k = choose|k: int| 0 <= k < steps.len() && steps[k] == s;
        lemma_own_steps(r, j, k);
        assert(j == i);
    }
}

/// An item that samples the scene and is drawn in its turn is drawn right after
/// a copy of the scene, where one is kept.
pub proof fn law_reader_sees_a_fresh_copy(r: RendererView, i: usize)
    requires
        i < r.items.len(),
        r.snapshot,
        (r.items[i as int] matches ItemView::Image(img) && img.reads_scene && !img.donor
            && img.visible && crate::live::chain_visible(r.parents, r.visible, img.parent, 64)) || (
        r.depth && (r.items[i as int] matches ItemView::Model { visible, reads_scene } && visible
            && reads_scene)),
    ensures
        exists|p: int|
            1 <= p < frame_of(r).len() && item_of(#[trigger] frame_of(r)[p]) == Some(i)
                && frame_of(r)[p - 1] == DrawStep::Snapshot,
{
    let n = r.items.len();
    let own = item_steps(r, i as int);
    assert(own.len() == 2);
    assert(own[0] == DrawStep::Snapshot);
    lemma_turn_at(r, n, i as int, 0);
    lemma_turn_at(r, n, i as int, 1);
    let p: int = donor_steps(r.items, n).len() + turn_steps(r, i as nat).len() + 1int;
    assert(frame_of(r)[p] == own[1]);
    assert(frame_of(r)[p - 1] == own[0]);
}

/// Where the steps of an item stand in their turn.
proof fn lemma_turn_at(r: RendererView, n: nat, i: int, k: int)
    requires
        0 <= i < n <= r.items.len(),
        0 <= k < item_steps(r, i).len(),
    ensures
        turn_steps(r, i as nat).len() + k < turn_steps(r, n).len(),
        turn_steps(r, n)[turn_steps(r, i as nat).len() + k] == item_steps(r, i)[k],
    decreases n,
{
    if i < n - 1 {
        lemma_turn_at(r, (n - 1) as nat, i, k);
    }
}

/// A copy of the scene is made only for an item that samples it, and only where
/// one is kept.
pub proof fn law_no_idle_copy(r: RendererView)
    requires
        frame_of(r).contains(DrawStep::Snapshot),
        r.items.len() <= usize::MAX,
    ensures
        r.snapshot,
        exists|i: int|
            0 <= i < r.items.len() && match #[trigger] r.items[i] {
                ItemView::Image(img) => img.reads_scene,
                ItemView::Model { visible: _, reads_scene } => reads_scene,
                _ => false,
            },
{
    let n = r.items.len();
    lemma_frame_contains(r, DrawStep::Snapshot);
    lemma_donor_steps(r.items, n, DrawStep::Snapshot);
    lemma_turn_steps(r, n, DrawStep::Snapshot);
    let j = choose|j: int| 0 <= j < n && #[trigger] item_steps(r, j).contains(DrawStep::Snapshot);
    let steps = item_steps(r, j);
    let k = choose|k: int| 0 <= k < steps.len() && steps[k] == DrawStep::Snapshot;
    assert(r.items[j] == r.items[j]);
}

/// Updates reach the items in their order, and each item for itself.
pub proof fn law_item_updates_in_order(
    items: Seq<ItemView>,
    a: Seq<UpdateView>,
    b: Seq<UpdateView>,
    i: int,
)
    requires
        0 <= i < items.len(),
    ensures
        items_after(items, a + b) == items_after(items_after(items, a), b),
        items_after(items, a).len() == items.len(),
        forall|u: UpdateView| #[trigger]
            items_after(items, seq![u])[i] == match items[i] {
                ItemView::Image(img) => ItemView::Image(crate::live::updated_image(img, u)),
                other => other,
            },
{
    assert forall|k: int| 0 <= k < items.len() implies #[trigger] items_after(items, a + b)[k]
        == items_after(items_after(items, a), b)[k] by {
        lemma_item_after(items[k], a, b);
    }
    assert(items_after(items, a + b) =~= items_after(items_after(items, a), b));
    assert forall|u: UpdateView| #[trigger]
        items_after(items, seq![u])[i] == match items[i] {
            ItemView::Image(img) => ItemView::Image(crate::live::updated_image(img, u)),
            other => other,
        } by {
        let one = seq![u];
        assert(one.drop_last() =~= Seq::empty());
        assert(item_after(items[i], Seq::<UpdateView>::empty()) == items[i]);
        assert(item_after(items[i], one) == updated_item(items[i], u));
    }
}

/// An item after two batches of updates.
proof fn lemma_item_after(i: ItemView, a: Seq<UpdateView>, b: Seq<UpdateView>)
    ensures
        item_after(i, a + b) == item_after(item_after(i, a), b),
    decreases b.len(),
{
    if b.len() > 0 {
        assert((a + b).drop_last() =~= a + b.drop_last());
        lemma_item_after(i, a, b.drop_last());
    } else {
        assert(a + b =~= a);
    }
}

/// What one run of the scripts changes of a running scene: the updates that the
/// host lists reach the items, the created layers and the visibility of
/// objects; the camera moves as the host says; all else stays, and without
/// scripts everything does. The host keeps nothing that was handed over.
pub proof fn law_run_applies_output(
    r: RendererView,
    results: Seq<(Seq<char>, ScriptValueView)>,
    ops: Seq<OpView>,
)
    ensures
        r.script is None ==> after_run(r, results, ops) == r,
        r.script matches Some(h) ==> {
            let s = crate::script_host::after_output(h, results, ops);
            let after = after_run(r, results, ops);
            &&& after.items == items_after(r.items, s.updates)
            &&& after.visible == crate::live::visible_after(r.visible, s.updates)
            &&& after.runtime == crate::live::runtime_after(
                crate::live::runtime_created(r.runtime, s.host.created),
                s.updates,
            )
            &&& s.host.camera_op is None ==> after.camera == r.camera
            &&& s.host.camera_op matches Some(c) ==> {
                &&& c.eye matches Some(v) ==> after.camera.eye == v
                &&& c.center matches Some(v) ==> after.camera.center == v
                &&& c.up matches Some(v) ==> after.camera.up == v
                &&& c.fov matches Some(v) ==> after.camera.fov.value == v
                &&& c.eye is None ==> after.camera.eye == r.camera.eye
                &&& c.center is None ==> after.camera.center == r.camera.center
                &&& c.up is None ==> after.camera.up == r.camera.up
                &&& c.fov is None ==> after.camera.fov == r.camera.fov
                &&& after.camera.fov.user == r.camera.fov.user
                &&& after.camera.nearz == r.camera.nearz
                &&& after.camera.farz == r.camera.farz
                &&& after.camera.projection == r.camera.projection
            }
            &&& after.script is Some
            &&& after.script->0.created.len() == 0
            &&& after.script->0.camera_op is None
            &&& after.script->0.layers == s.host.layers
            &&& after.script->0.props == s.host.props
            &&& after.script->0.user_props == s.host.user_props
            &&& after.script->0.scene == s.host.scene
            &&& after.bag == r.bag
            &&& after.general == r.general
            &&& after.size == r.size
            &&& after.options == r.options
            &&& after.snapshot == r.snapshot
            &&& after.depth == r.depth
            &&& after.bloom == r.bloom
            &&& after.parents == r.parents
        },
{
}

/// What a changed property changes of a running scene: the bag, whatever of the
/// items, the camera and the general settings is bound to properties, and what
/// scripts read of the property.
pub proof fn law_property_reaches_scene(
    r: RendererView,
    bag: Map<Seq<char>, PropertyView>,
    key: Seq<char>,
    i: int,
)
    requires
        0 <= i < r.items.len(),
    ensures
        with_bag(r, bag, key).bag == bag,
        with_bag(r, bag, key).items.len() == r.items.len(),
        r.items[i] matches ItemView::Image(img) ==> with_bag(r, bag, key).items[i]
            == ItemView::Image(crate::live::resolved_live_image(img, bag)),
        !(r.items[i] is Image) ==> with_bag(r, bag, key).items[i] == r.items[i],
        with_bag(r, bag, key).camera == crate::resolve::resolved_camera(r.camera, bag),
        with_bag(r, bag, key).general == crate::resolve::resolved_general(r.general, bag),
        r.script is None ==> with_bag(r, bag, key).script is None,
        r.script matches Some(h) ==> {
            let after = with_bag(r, bag, key).script;
            &&& after is Some
            &&& after->0.user_props.dom().contains(key)
            &&& after->0.user_props[key] == crate::scripting::property_script(bag[key])
            &&& forall|k: Seq<char>|
                k != key && h.user_props.dom().contains(k) ==> #[trigger] after->0.user_props[k]
                    == h.user_props[k]
            &&& after->0.user_props_dirty
            &&& after->0.layers == h.layers
            &&& after->0.props == h.props
            &&& after->0.scene == h.scene
        },
        with_bag(r, bag, key).visible == r.visible,
        with_bag(r, bag, key).parents == r.parents,
        with_bag(r, bag, key).runtime == r.runtime,
        with_bag(r, bag, key).size == r.size,
        with_bag(r, bag, key).snapshot == r.snapshot,
{
}

/// The parent of every object is known; of two objects with one id the later
/// counts, and nothing else is known.
pub proof fn law_parents_of_objects(objects: Seq<ObjectView>, i: int, id: i64)
    ensures
        0 <= i < objects.len() && objects[i].base.id == id && (forall|k: int|
            i < k < objects.len() ==> (#[trigger] objects[k]).base.id != id) ==> {
            &&& parents_of(objects).dom().contains(id)
            &&& parents_of(objects)[id] == objects[i].base.parent
            &&& flags_of(objects).dom().contains(id)
            &&& flags_of(objects)[id] == objects[i].base.visible.value
        },
        (forall|k: int| 0 <= k < objects.len() ==> (#[trigger] objects[k]).base.id != id) ==> {
            &&& !parents_of(objects).dom().contains(id)
            &&& !flags_of(objects).dom().contains(id)
        },
    decreases objects.len(),
{
    if objects.len() > 0 {
        let head = objects.drop_last();
        let last = objects.len() - 1;
        law_parents_of_objects(head, i, id);
        assert(forall|k: int| 0 <= k < head.len() ==> #[trigger] head[k] == objects[k]);
        assert(objects[last] == objects.last());
        if 0 <= i < last {
            assert(head[i] == objects[i]);
        }
    }
}

/// An object starts visible exactly where its own flag says so and, of images,
/// that of the image too.
pub proof fn law_visibility_of_objects(objects: Seq<ObjectView>, i: int)
    requires
        0 <= i < objects.len(),
        forall|k: int|
            0 <= k < objects.len() && k != i ==> (#[trigger] objects[k]).base.id
                != objects[i].base.id,
    ensures
        visibility_of(objects).dom().contains(objects[i].base.id),
        visibility_of(objects)[objects[i].base.id] == (objects[i].base.visible.value && (
        objects[i].kind matches ObjectKindView::Image(img) ==> img.visible.value)),
{
    law_parents_of_objects(objects, i, objects[i].base.id);
    lemma_hiding(flags_of(objects), objects, objects.len(), i);
    assert(objects.take(objects.len() as int) =~= objects);
}

/// What hidden images do to the visibility of objects.
proof fn lemma_hiding(m: Map<i64, bool>, objects: Seq<ObjectView>, n: nat, i: int)
    requires
        n <= objects.len(),
        0 <= i < objects.len(),
        m.dom().contains(objects[i].base.id),
        forall|k: int|
            0 <= k < objects.len() && k != i ==> (#[trigger] objects[k]).base.id
                != objects[i].base.id,
    ensures
        hiding_images(m, objects.take(n as int)).dom().contains(objects[i].base.id),
        hiding_images(m, objects.take(n as int))[objects[i].base.id] == if i < n && (
        objects[i].kind matches ObjectKindView::Image(img) && !img.visible.value) {
            false
        } else {
            m[objects[i].base.id]
        },
    decreases n,
{
    if n > 0 {
        let head = objects.take(n as int);
        assert(head.drop_last() =~= objects.take(n - 1));
        assert(head.last() == objects[n - 1]);
        lemma_hiding(m, objects, (n - 1) as nat, i);
    }
}

/// The images that others sample are built first: those of the order, in their
/// order, that are images and that some other object depends on.
pub proof fn law_donors_are_depended_on(objects: Seq<ObjectView>, order: Seq<usize>, oi: usize)
    requires
        forall|k: int| 0 <= k < order.len() ==> (#[trigger] order[k]) < objects.len(),
    ensures
        donors_in(objects, order).contains(oi) ==> {
            &&& order.contains(oi)
            &&& objects[oi as int].kind is Image
            &&& exists|j: int, d: int|
                0 <= j < objects.len() && objects[j].base.id != objects[oi as int].base.id && 0 <= d
                    < objects[j].base.dependencies.len()
                    && #[trigger] objects[j].base.dependencies[d] == objects[oi as int].base.id
        },
        order.contains(oi) && objects[oi as int].kind is Image && (exists|j: int, d: int|
            0 <= j < objects.len() && objects[j].base.id != objects[oi as int].base.id && 0 <= d
                < objects[j].base.dependencies.len()
                && #[trigger] objects[j].base.dependencies[d] == objects[oi as int].base.id)
            ==> donors_in(objects, order).contains(oi),
    decreases order.len(),
{
    let all = donors_in(objects, order);
    if order.len() > 0 {
        let head = order.drop_last();
        let last = order.len() - 1;
        assert forall|k: int| 0 <= k < head.len() implies (#[trigger] head[k]) < objects.len() by {
            assert(head[k] == order[k]);
        }
        law_donors_are_depended_on(objects, head, oi);
        let before = donors_in(objects, head);
        assert(order[last] == order.last());
        let o = objects[order.last() as int];
        let id = o.base.id;
        if head.contains(oi) {
            let k = choose|k: int| 0 <= k < head.len() && head[k] == oi;
            assert(order[k] == oi);
        }
        if order.contains(oi) && order.last() != oi {
            let k = choose|k: int| 0 <= k < order.len() && order[k] == oi;
            assert(head[k] == oi);
        }
        if before.contains(oi) {
            let k = choose|k: int| 0 <= k < before.len() && before[k] == oi;
            assert(all[k] == oi);
        }
        if all.contains(oi) && !before.contains(oi) {
            let k = choose|k: int| 0 <= k < all.len() && all[k] == oi;
            if k < before.len() {
                assert(before[k] == oi);
            }
            assert(oi == order.last());
        }
        if is_donor(objects, id) {
            assert(depended_on(objects, id));
            let j = choose|j: int|
                0 <= j < objects.len() && (#[trigger] objects[j]).base.id != id
                    && objects[j].base.dependencies.contains(id);
            let d = choose|d: int|
                0 <= d < objects[j].base.dependencies.len() && objects[j].base.dependencies[d] == id;
            assert(objects[j].base.dependencies[d] == id);
        }
        if oi == order.last() && o.kind is Image && (exists|j: int, d: int|
            0 <= j < objects.len() && objects[j].base.id != id && 0 <= d
                < objects[j].base.dependencies.len()
                && #[trigger] objects[j].base.dependencies[d] == id) {
            let (j, d) = choose|j: int, d: int|
                0 <= j < objects.len() && objects[j].base.id != id && 0 <= d
                    < objects[j].base.dependencies.len()
                    && #[trigger] objects[j].base.dependencies[d] == id;
            assert(objects[j].base.dependencies.contains(id));
            assert(depended_on(objects, id));
            assert(objects[oi as int].base.id == id);
            assert(is_image_id(objects, id));
            assert(all[all.len() - 1] == oi);
        }
    }
}

/// How the objects are built in their turn: in their order, one that was built
/// for others to sample as it is, every other drawn object by its kind, and
/// lights, shapes, sounds and groups not at all.
pub proof fn law_turns_of_objects(
    objects: Seq<ObjectView>,
    built: Seq<usize>,
    order: Seq<usize>,
    oi: usize,
)
    requires
        order.len() > 0,
        order.last() == oi,
    ensures
        ({
            let before = turns_of(objects, built, order.drop_last());
            let all = turns_of(objects, built, order);
            let kind = objects[oi as int].kind;
            &&& built.contains(oi) ==> all == before.push(BuildStep::Built(oi))
            &&& !built.contains(oi) && kind is Image ==> all == before.push(
                BuildStep::Build(oi, ItemKind::Image),
            )
            &&& !built.contains(oi) && kind is Particle ==> all == before.push(
                BuildStep::Build(oi, ItemKind::Particle),
            )
            &&& !built.contains(oi) && kind is Text ==> all == before.push(
                BuildStep::Build(oi, ItemKind::Text),
            )
            &&& !built.contains(oi) && kind is Model ==> all == before.push(
                BuildStep::Build(oi, ItemKind::Model),
            )
            &&& !built.contains(oi) && !(kind is Image) && !(kind is Particle) && !(kind is Text)
                && !(kind is Model) ==> all == before
        }),
{
    let before = turns_of(objects, built, order.drop_last());
    let step = turn_of(objects, built, oi);
    if step.len() == 1 {
        assert(before + step =~= before.push(step[0]));
    } else {
        assert(before + step =~= before);
    }
}

/// A scene is as large as it says where both axes are positive; else as its
/// extents or, where one of these is zero, as a full-HD screen.
pub proof fn law_size_of_scene(width: i64, height: i64, extents: (u32, u32))
    ensures
        0 < width <= u32::MAX && 0 < height <= u32::MAX ==> projection_of(
            Projection::Orthogonal { width, height },
            extents,
        ) == (width as u32, height as u32),
        (width <= 0 || height <= 0) && extents.0 > 0 && extents.1 > 0 ==> projection_of(
            Projection::Orthogonal { width, height },
            extents,
        ) == extents,
        (width <= 0 || height <= 0) && (extents.0 == 0 || extents.1 == 0) ==> projection_of(
            Projection::Orthogonal { width, height },
            extents,
        ) == (1920u32, 1080u32),
        extents.0 > 0 && extents.1 > 0 ==> projection_of(Projection::Auto, extents) == extents,
        extents.0 == 0 || extents.1 == 0 ==> projection_of(Projection::Auto, extents) == (
            1920u32,
            1080u32,
        ),
{
}

/// The bag of a running scene holds each property that it was given, the later
/// of two with one name, and no others.
pub proof fn law_bag_of_properties(
    props: Seq<(Seq<char>, PropertyView)>,
    i: int,
    name: Seq<char>,
)
    ensures
        0 <= i < props.len() && props[i].0 == name && (forall|k: int|
            i < k < props.len() ==> (#[trigger] props[k]).0 != name) ==> bag_of(
            props,
        ).dom().contains(name) && bag_of(props)[name] == props[i].1,
        (forall|k: int| 0 <= k < props.len() ==> (#[trigger] props[k]).0 != name) ==> !bag_of(
            props,
        ).dom().contains(name),
    decreases props.len(),
{
    if props.len() > 0 {
        let head = props.drop_last();
        let last = props.len() - 1;
        law_bag_of_properties(head, i, name);
        assert(forall|k: int| 0 <= k < head.len() ==> #[trigger] head[k] == props[k]);
        assert(props[last] == props.last());
        if 0 <= i < last {
            assert(head[i] == props[i]);
        }
    }
}

/// A scene is refused where it has no extent or nothing to draw. A new one draws
/// the items that were built, keeps a copy of the scene where something reads it
/// or bright parts glow, and depth where a model is among them.
pub proof fn law_new_scene(
    model: SceneModel,
    options: SceneOptions,
    size: (u32, u32),
    items: Vec<SceneItem>,
    user_props: &Vec<(String, PropertyValue)>,
    script: Option<ScriptHost>,
    r: Result<SceneRenderer, SceneError>,
)
    requires
        items_wf(items@),
        script matches Some(h) ==> h.wf(),
        call_ensures(SceneRenderer::new, (model, options, size, items, user_props, script), r),
    ensures
        r is Ok == (size.0 > 0 && size.1 > 0 && items@.len() > 0),
        size.0 == 0 || size.1 == 0 ==> r->Err_0 == (SceneError::BadProjection {
            width: size.0,
            height: size.1,
        }),
        size.0 > 0 && size.1 > 0 && items@.len() == 0 ==> r->Err_0
            == SceneError::NoRenderableObjects,
        r matches Ok(s) ==> {
            &&& s@.size == size
            &&& s@.items == item_views(items@)
            &&& s@.camera == model.scene@.camera
            &&& s@.general == model.scene@.general
            &&& s@.bloom == model.scene@.general.bloom.value
            &&& s@.snapshot == (s@.bloom || any_reads_scene(s@.items))
            &&& s@.depth == any_model(s@.items)
            &&& s@.parents == parents_of(model.scene@.objects)
            &&& s@.visible == visibility_of(model.scene@.objects)
            &&& s@.bag == bag_of(crate::script_host::named_views(user_props@))
            &&& s@.script == opt_host(script)
            &&& s@.runtime == Map::<i64, crate::live::RuntimeView>::empty()
        },
{
}

/// A set property applies where it is declared and its text parses, and changes
/// nothing otherwise; where it applies, the whole scene follows the new bag.
pub proof fn law_set_property_reaches_scene<F: Fn(Override) -> PropertyValue>(
    s: &mut SceneRenderer,
    key: &str,
    value: &str,
    read: &F,
    r: bool,
)
    requires
        old(s).wf(),
        crate::property::reads_overrides(*read),
        call_ensures(SceneRenderer::set_property, (s, key, value, read), r),
    ensures
        r == crate::property::accepts(old(s)@.bag, key@, value@),
        !r ==> final(s)@ == old(s)@,
        r ==> final(s)@ == with_bag(old(s)@, final(s)@.bag, key@),
        r ==> crate::property::changes_value(old(s)@.bag, key@, final(s)@.bag),
        r ==> crate::property::stands_for(
            crate::property::override_of(old(s)@.bag[key@], value@)->0,
            final(s)@.bag[key@],
        ),
{
    if r {
        let bag = choose|bag: Map<Seq<char>, PropertyView>|
            crate::property::overridden(old(s)@.bag, key@, value@, *read, bag)
                && crate::property::changes_value(old(s)@.bag, key@, bag) && final(s)@
                == #[trigger] with_bag(old(s)@, bag, key@);
        crate::property::law_override_keeps_kind(old(s)@.bag, key@, value@, *read, bag);
        assert(final(s)@.bag == bag);
    }
}

/// A frame is drawn as the laws above say, and a run of the scripts changes the
/// scene as they say.
pub proof fn law_frames_and_runs(
    s: &SceneRenderer,
    steps: Vec<DrawStep>,
    m: &mut SceneRenderer,
    output: TickOutput,
    r: (),
)
    requires
        call_ensures(SceneRenderer::frame, (s,), steps),
        old(m).wf(),
        call_ensures(SceneRenderer::run, (m, output), r),
    ensures
        steps@ == frame_of(s@),
        final(m)@ == after_run(
            old(m)@,
            crate::script_host::result_views(output.property_results@),
            crate::script_host::op_views(output.ops@),
        ),
{
}

/// Clamping, a border and repetition each have a number of their own, in this
/// order.
pub proof fn law_clamp_codes(mode: ClampMode, r: u32)
    requires
        call_ensures(clamp_code, (mode,), r),
    ensures
        r == 0 <==> mode == ClampMode::Clamp,
        r == 1 <==> mode == ClampMode::Border,
        r == 2 <==> mode == ClampMode::Repeat,
{
}

/// The two names of an image's composite are told apart by their ends, and tell
/// images apart.
pub proof fn law_composite_names(id: i64, r: (String, String), other: i64, s: (String, String))
    requires
        call_ensures(composite_names, (id,), r),
        call_ensures(composite_names, (other,), s),
    ensures
        r.0@ == "_rt_imageLayerComposite_"@ + crate::json::decimal_int(id as int) + "_a"@,
        r.1@ == "_rt_imageLayerComposite_"@ + crate::json::decimal_int(id as int) + "_b"@,
        r.0@ == s.0@ ==> id == other,
        r.1@ == s.1@ ==> id == other,
{
    let head = "_rt_imageLayerComposite_"@;
    let a = crate::json::decimal_int(id as int);
    let b = crate::json::decimal_int(other as int);
    reveal_strlit("_a");
    reveal_strlit("_b");
    crate::json::law_integer_reads_back(id);
    crate::json::law_integer_reads_back(other);
    assert(r.0@.subrange(head.len() as int, r.0@.len() - 2) =~= a);
    assert(s.0@.subrange(head.len() as int, s.0@.len() - 2) =~= b);
    assert(r.1@.subrange(head.len() as int, r.1@.len() - 2) =~= a);
    assert(s.1@.subrange(head.len() as int, s.1@.len() - 2) =~= b);
}

/// Images, particle systems, texts and models are drawn as what they are, and
/// nothing else is.
pub proof fn law_kinds_of_items(k: ObjectKindView)
    ensures
        kind_of(k) == ItemKind::Image <==> k is Image,
        kind_of(k) == ItemKind::Particle <==> k is Particle,
        kind_of(k) == ItemKind::Text <==> k is Text,
        kind_of(k) == ItemKind::Model <==> k is Model,
        kind_of(k) == ItemKind::NotDrawn <==> k is Sound || k is Light || k is Shape || k is Group,
{
}

/// An item reads the scene where it is an image or a model that does; the scene
/// needs a copy of itself where one of its items does, and depth where one of
/// them is a model.
pub proof fn law_needs_of_items(items: Seq<ItemView>, i: int)
    requires
        0 <= i < items.len(),
    ensures
        items[i] matches ItemView::Image(img) ==> img.reads_scene ==> any_reads_scene(items),
        items[i] matches ItemView::Model { visible, reads_scene } ==> reads_scene
            ==> any_reads_scene(items),
        items[i] is Model ==> any_model(items),
        (forall|k: int| 0 <= k < items.len() ==> !((#[trigger] items[k]) is Model)) ==> !any_model(
            items,
        ),
        any_reads_scene(items) ==> exists|k: int|
            0 <= k < items.len() && ((#[trigger] items[k] matches ItemView::Image(img)
                && img.reads_scene) || (items[k] matches ItemView::Model { visible, reads_scene }
                && reads_scene)),
{
    assert(item_reads_scene(items[i]) ==> any_reads_scene(items));
    if any_reads_scene(items) {
        let k = choose|k: int| 0 <= k < items.len() && item_reads_scene(#[trigger] items[k]);
        assert(items[k] is Image || items[k] is Model);
    }
}

/// The passes of a scene are those of its images, counted one item after the
/// other.
pub proof fn law_passes_are_counted(items: Seq<ItemView>, last: ItemView)
    ensures
        passes_up_to(Seq::empty(), 0) == 0,
        last matches ItemView::Image(img) ==> passes_up_to(items.push(last), items.len() + 1)
            == passes_up_to(items, items.len()) + img.passes.len(),
        !(last is Image) ==> passes_up_to(items.push(last), items.len() + 1) == passes_up_to(
            items,
            items.len(),
        ),
{
    lemma_passes_prefix(items, items.push(last), items.len());
}

/// The passes of the first items do not depend on the others.
proof fn lemma_passes_prefix(a: Seq<ItemView>, b: Seq<ItemView>, n: nat)
    requires
        n <= a.len() <= b.len(),
        forall|i: int| 0 <= i < n ==> #[trigger] a[i] == b[i],
    ensures
        passes_up_to(a, n) == passes_up_to(b, n),
    decreases n,
{
    if n > 0 {
        lemma_passes_prefix(a, b, (n - 1) as nat);
        assert(a[n - 1] == b[n - 1]);
    }
}

} // verus!
