//! The steps that turn a packaged scene into a renderer.
use vstd::prelude::*;

use crate::assets::{AssetProblem, AssetSource, ProblemView};
use crate::error::{SceneError, SceneLoadError};
use crate::object::ObjectView;
use crate::property::{Override, PropertyBag, PropertyEntry, PropertyValue, PropertyView};
use crate::resolve::SceneModel;
use crate::scene::{Scene, SceneView};

verus! {

/// Read a raw override in the type of the property it names, and apply it.
/// Returns whether it applied.
pub fn apply_property_override<F: Fn(Override) -> PropertyValue>(
    bag: &mut PropertyBag,
    name: &str,
    raw: &str,
    read: &F,
) -> (r: bool)
    requires
        old(bag).wf(),
        crate::property::reads_overrides(*read),
    ensures
        final(bag).wf(),
        r == crate::property::accepts(old(bag)@, name@, raw@),
        crate::property::overridden(old(bag)@, name@, raw@, *read, final(bag)@),
        !r ==> final(bag)@ == old(bag)@,
        crate::property::changes_value(old(bag)@, name@, final(bag)@),
        r ==> crate::property::stands_for(
            crate::property::override_of(old(bag)@[name@], raw@)->0,
            final(bag)@[name@],
        ),
{
    match bag.parse_override(name, raw) {
        None => false,
        Some(o) => {
            let v = read(o);
            assert(read.ensures((o,), v));
            let r = bag.set(name, v);
            proof {
                crate::property::law_override_keeps_kind(old(bag)@, name@, raw@, *read, bag@);
            }
            r
        },
    }
}

/// What raw overrides do to a bag, one after the other.
pub open spec fn all_overridden<F: Fn(Override) -> PropertyValue>(
    before: Map<Seq<char>, PropertyView>,
    overrides: Seq<(String, String)>,
    read: F,
    after: Map<Seq<char>, PropertyView>,
) -> bool {
    exists|steps: Seq<Map<Seq<char>, PropertyView>>|
        #![trigger steps.len()]
        steps.len() == overrides.len() + 1 && steps[0] == before && steps.last() == after
            && forall|i: int|
            0 <= i < overrides.len() ==> crate::property::overridden(
                steps[i],
                (#[trigger] overrides[i]).0@,
                overrides[i].1@,
                read,
                steps[i + 1],
            )
}

/// Apply overrides one after the other.
pub fn apply_overrides<F: Fn(Override) -> PropertyValue>(
    bag: &mut PropertyBag,
    overrides: &Vec<(String, String)>,
    read: &F,
)
    requires
        old(bag).wf(),
        crate::property::reads_overrides(*read),
    ensures
        final(bag).wf(),
        final(bag)@.dom() == old(bag)@.dom(),
        forall|k: Seq<char>|
            old(bag)@.dom().contains(k) ==> crate::property::same_kind(
                old(bag)@[k],
                #[trigger] final(bag)@[k],
            ),
        all_overridden(old(bag)@, overrides@, *read, final(bag)@),
{
    let ghost mut steps: Seq<Map<Seq<char>, PropertyView>> = seq![bag@];
    let mut i: usize = 0;
    while i < overrides.len()
        invariant
            i <= overrides@.len(),
            bag.wf(),
            crate::property::reads_overrides(*read),
            bag@.dom() == old(bag)@.dom(),
            forall|k: Seq<char>|
                old(bag)@.dom().contains(k) ==> crate::property::same_kind(
                    old(bag)@[k],
                    #[trigger] bag@[k],
                ),
            steps.len() == i + 1,
            steps[0] == old(bag)@,
            steps.last() == bag@,
            forall|k: int|
                0 <= k < i ==> crate::property::overridden(
                    steps[k],
                    (#[trigger] overrides@[k]).0@,
                    overrides@[k].1@,
                    *read,
                    steps[k + 1],
                ),
        decreases overrides@.len() - i,
    {
        let ghost before = bag@;
        let ghost held = steps;
        let (name, raw) = &overrides[i];
        let _ = apply_property_override(bag, name.as_str(), raw.as_str(), read);
        proof {
            steps = steps.push(bag@);
            assert(bag@.dom() =~= before.dom());
            assert forall|k: Seq<char>| old(bag)@.dom().contains(k) implies crate::property::same_kind(
                old(bag)@[k],
                #[trigger] bag@[k],
            ) by {
                assert(crate::property::same_kind(old(bag)@[k], before[k]));
                if k != name@ {
                    assert(bag@[k] == before[k]);
                }
            }
            assert forall|k: int| 0 <= k < i + 1 implies crate::property::overridden(
                steps[k],
                (#[trigger] overrides@[k]).0@,
                overrides@[k].1@,
                *read,
                steps[k + 1],
            ) by {
                if k < i {
                    assert(steps[k] == held[k] && steps[k + 1] == held[k + 1]);
                }
            }
        }
        i = i + 1;
    }
    assert(steps.len() == overrides@.len() + 1);
}

/// The values that a bag holds of some names, in the order of the names.
pub open spec fn snapshot_of(
    names: Seq<Seq<char>>,
    bag: Map<Seq<char>, PropertyView>,
) -> Seq<(Seq<char>, PropertyView)>
    decreases names.len(),
{
    if names.len() == 0 {
        Seq::empty()
    } else {
        let before = snapshot_of(names.drop_last(), bag);
        let name = names.last();
        if bag.dom().contains(name) {
            before.push((name, bag[name]))
        } else {
            before
        }
    }
}

/// The values of the declared properties, as scripts get them; names without a
/// value are left out.
pub fn snapshot_user_props(names: &Vec<String>, bag: &PropertyBag) -> (r: Vec<
    (String, PropertyValue),
>)
    requires
        bag.wf(),
    ensures
        crate::script_host::named_views(r@) == snapshot_of(crate::text::texts(names@), bag@),
{
    let mut out: Vec<(String, PropertyValue)> = Vec::new();
    let mut i: usize = 0;
    let ghost shown = crate::text::texts(names@);
    assert(shown.take(0) =~= Seq::empty());
    assert(crate::script_host::named_views(out@) =~= Seq::<(Seq<char>, PropertyView)>::empty());
    while i < names.len()
        invariant
            i <= names@.len(),
            bag.wf(),
            shown == crate::text::texts(names@),
            crate::script_host::named_views(out@) == snapshot_of(shown.take(i as int), bag@),
        decreases names@.len() - i,
    {
        let ghost before = crate::script_host::named_views(out@);
        assert(shown.take(i + 1).drop_last() =~= shown.take(i as int));
        if let Some(v) = bag.get(names[i].as_str()) {
            let entry = (names[i].clone(), v.copy());
            let ghost pair = (entry.0@, entry.1@);
            out.push(entry);
            assert(crate::script_host::named_views(out@) =~= before.push(pair));
        }
        i = i + 1;
    }
    assert(shown.take(i as int) =~= shown);
    out
}

/// Files from a package and, where that lacks one, from a directory of builtin
/// assets.
#[derive(Debug)]
pub struct CompositeSource<P: AssetSource, Q: AssetSource> {
    /// The package.
    pub pkg: P,
    /// The builtin assets, if there are any.
    pub assets: Option<Q>,
}

impl<P: AssetSource, Q: AssetSource> AssetSource for CompositeSource<P, Q> {
    fn load(&self, path: &str) -> (r: Option<Vec<u8>>)
        ensures
            exists|b: Option<Vec<u8>>| #[trigger]
                call_ensures(P::load, (&self.pkg, path), b) && match b {
                    Some(_) => r == b,
                    None => match self.assets {
                        Some(q) => call_ensures(Q::load, (&q, path), r),
                        None => r is None,
                    },
                },
    {
        let packed = self.pkg.load(path);
        assert(call_ensures(P::load, (&self.pkg, path), packed));
        match packed {
            Some(bytes) => Some(bytes),
            None => match &self.assets {
                Some(q) => q.load(path),
                None => None,
            },
        }
    }
}

/// What a parsed scene becomes when it is resolved against a bag, its files
/// are loaded, and it is resolved again.
pub open spec fn prepared<S: AssetSource>(
    source: &S,
    parsed: SceneView,
    bag: Map<Seq<char>, PropertyView>,
    model: SceneView,
    problems: Seq<ProblemView>,
) -> bool {
    let first = crate::resolve::resolved_scene(parsed, bag);
    exists|loaded: Seq<ObjectView>, chain: Seq<Seq<ProblemView>>| #[trigger]
        crate::assets::objects_loaded(source, first.objects, loaded, chain) && chain[0] == Seq::<
            ProblemView,
        >::empty() && chain.last() == problems && model == (SceneView {
            objects: crate::bundle::objects_resolved(loaded, bag),
            ..first
        })
}

/// Prepare a parsed scene with the defaults of its properties, so that the
/// result does not depend on the values that a user chose. Returns the model
/// and the assets that could not be loaded.
pub fn prepare_model<S: AssetSource>(scene: Scene, defaults: &PropertyBag, source: &S) -> (r: (
    SceneModel,
    Vec<AssetProblem>,
))
    requires
        scene.wf(),
        defaults.wf(),
    ensures
        r.0.wf(),
        prepared(
            source,
            scene@,
            defaults@,
            r.0.scene@,
            crate::assets::problem_views(r.1@),
        ),
{
    let mut model = SceneModel::resolve(scene, defaults);
    let ghost first = model.scene@;
    let problems = model.load_assets(source, defaults);
    proof {
        let shown = crate::assets::problem_views(problems@);
        let (loaded, chain) = choose|loaded: Seq<ObjectView>, chain: Seq<Seq<ProblemView>>|
            #[trigger] crate::assets::objects_loaded(source, first.objects, loaded, chain)
                && chain[0] == Seq::<ProblemView>::empty() && chain.last() == shown
                && model.scene@.objects == loaded.map_values(
                |o: ObjectView| crate::resolve::resolved_object(o, defaults@),
            );
        assert(crate::assets::objects_loaded(source, first.objects, loaded, chain));
        assert(model.scene@ == (SceneView {
            objects: crate::bundle::objects_resolved(loaded, defaults@),
            ..first
        }));
    }
    (model, problems)
}

/// What was found of a scene.
#[derive(Debug)]
pub enum Found {
    /// A model that was prepared before.
    Stored(SceneModel),
    /// The parsed description of the scene.
    Parsed(Scene),
    /// The description cannot be read: why.
    Unread(String),
    /// The description cannot be parsed: why.
    Unparsed(String),
}

impl Found {
    /// What was found is well formed.
    pub open spec fn wf(&self) -> bool {
        match *self {
            Found::Stored(m) => m.wf(),
            Found::Parsed(s) => s.wf(),
            _ => true,
        }
    }
}

/// A scene that was prepared with the defaults of its properties.
#[derive(Debug)]
pub struct Prepared {
    /// The model.
    pub model: SceneModel,
    /// Whether it was prepared now, and is to be stored.
    pub fresh: bool,
    /// The assets that could not be loaded.
    pub problems: Vec<AssetProblem>,
}

/// The prepared model of a scene: one that was stored is taken as it is, and a
/// parsed description is prepared with the defaults that its project declares.
pub fn prepare_scene<S: AssetSource>(
    found: Found,
    entries: &Vec<(String, PropertyEntry)>,
    source: &S,
) -> (r: Result<Prepared, SceneLoadError>)
    requires
        found.wf(),
    ensures
        match (found, r) {
            (Found::Stored(m), Ok(p)) => p.model == m && !p.fresh && p.problems@.len() == 0,
            (Found::Parsed(s), Ok(p)) => p.fresh && p.model.wf() && prepared(
                source,
                s@,
                crate::property::declared(entries@),
                p.model.scene@,
                crate::assets::problem_views(p.problems@),
            ),
            (Found::Unread(why), Err(e)) => e == SceneLoadError::SceneJson(why),
            (Found::Unparsed(why), Err(e)) => e == SceneLoadError::Parse(why),
            _ => false,
        },
{
    match found {
        Found::Stored(model) => Ok(Prepared { model, fresh: false, problems: Vec::new() }),
        Found::Parsed(scene) => {
            let defaults = PropertyBag::from_project(entries);
            let (model, problems) = prepare_model(scene, &defaults, source);
            Ok(Prepared { model, fresh: true, problems })
        },
        Found::Unread(why) => Err(SceneLoadError::SceneJson(why)),
        Found::Unparsed(why) => Err(SceneLoadError::Parse(why)),
    }
}

/// The names that a project declares.
pub open spec fn entry_names(entries: Seq<(String, PropertyEntry)>) -> Seq<Seq<char>> {
    Seq::new(entries.len(), |i: int| entries[i].0@)
}

/// A scene with the values that the user chose.
#[derive(Debug)]
pub struct Opened {
    /// The model.
    pub model: SceneModel,
    /// The values of the declared properties, as scripts get them.
    pub user_props: Vec<(String, PropertyValue)>,
}

/// Open a prepared scene: the defaults of its project are overridden, and the
/// scene is resolved against the outcome.
pub fn open_scene<F: Fn(Override) -> PropertyValue>(
    model: SceneModel,
    entries: &Vec<(String, PropertyEntry)>,
    overrides: &Vec<(String, String)>,
    read: &F,
) -> (r: Opened)
    requires
        model.wf(),
        crate::property::reads_overrides(*read),
    ensures
        r.model.wf(),
        exists|bag: Map<Seq<char>, PropertyView>| #[trigger]
            all_overridden(crate::property::declared(entries@), overrides@, *read, bag)
                && bag.dom() == crate::property::declared(entries@).dom() && (forall|k: Seq<char>|
                bag.dom().contains(k) ==> crate::property::same_kind(
                    crate::property::declared(entries@)[k],
                    #[trigger] bag[k],
                )) && r.model.scene@
                == crate::resolve::resolved_scene(model.scene@, bag)
                && crate::script_host::named_views(r.user_props@) == snapshot_of(
                entry_names(entries@),
                bag,
            ),
{
    let mut bag = PropertyBag::from_project(entries);
    apply_overrides(&mut bag, overrides, read);
    let mut names: Vec<String> = Vec::new();
    let mut i: usize = 0;
    while i < entries.len()
        invariant
            i <= entries@.len(),
            crate::text::texts(names@) == entry_names(entries@).take(i as int),
        decreases entries@.len() - i,
    {
        let ghost before = crate::text::texts(names@);
        let name = entries[i].0.clone();
        let ghost shown = name@;
        names.push(name);
        assert(crate::text::texts(names@) =~= before.push(shown));
        assert(entry_names(entries@).take(i + 1) =~= entry_names(entries@).take(i as int).push(
            shown,
        ));
        i = i + 1;
    }
    assert(entry_names(entries@).take(i as int) =~= entry_names(entries@));
    let user_props = snapshot_user_props(&names, &bag);
    assert(all_overridden(crate::property::declared(entries@), overrides@, *read, bag@));
    Opened { model: open_model(model, &bag), user_props }
}

/// A prepared model with the values of a bag.
pub fn open_model(prepared: SceneModel, bag: &PropertyBag) -> (r: SceneModel)
    requires
        prepared.wf(),
        bag.wf(),
    ensures
        r.wf(),
        r.scene@ == crate::resolve::resolved_scene(prepared.scene@, bag@),
{
    let mut model = prepared;
    model.reresolve(bag);
    model
}

/// What is drawn does not depend on whether a scene was prepared before: a
/// prepared scene with the values of a bag is what one gets by preparing the
/// parsed scene with that bag, as long as the bag declares whatever the
/// defaults do.
pub proof fn law_prepared_scene_opens_as_new<S: AssetSource>(
    source: &S,
    parsed: SceneView,
    defaults: Map<Seq<char>, PropertyView>,
    bag: Map<Seq<char>, PropertyView>,
    model: SceneView,
    problems: Seq<ProblemView>,
)
    requires
        defaults.dom().subset_of(bag.dom()),
        prepared(source, parsed, defaults, model, problems),
    ensures
        prepared(
            source,
            parsed,
            bag,
            crate::resolve::resolved_scene(model, bag),
            problems,
        ),
{
    let first = crate::resolve::resolved_scene(parsed, defaults);
    let (loaded, chain) = choose|loaded: Seq<ObjectView>, chain: Seq<Seq<ProblemView>>| #[trigger]
        crate::assets::objects_loaded(source, first.objects, loaded, chain) && chain[0] == Seq::<
            ProblemView,
        >::empty() && chain.last() == problems && model == (SceneView {
            objects: crate::bundle::objects_resolved(loaded, defaults),
            ..first
        });
    crate::bundle::law_bundle_serves_every_bag(source, parsed, loaded, chain, defaults, bag);
    let second = crate::resolve::resolved_scene(parsed, bag);
    let direct = choose|direct: Seq<ObjectView>| #[trigger]
        crate::assets::objects_loaded(source, second.objects, direct, chain)
            && crate::resolve::resolved_scene(model, bag) == (SceneView {
            objects: crate::bundle::objects_resolved(direct, bag),
            ..second
        });
    assert(crate::assets::objects_loaded(source, second.objects, direct, chain));
}

/// What to present once a renderer was built or not: the renderer; the
/// scene's clear color where nothing can be drawn; or an error.
pub fn load_outcome<R>(built: Result<R, SceneError>) -> (r: Result<Option<R>, SceneLoadError>)
    ensures
        match built {
            Ok(renderer) => r == Ok::<Option<R>, SceneLoadError>(Some(renderer)),
            Err(SceneError::NoRenderableObjects) => r == Ok::<Option<R>, SceneLoadError>(None),
            Err(e) => r == Err::<Option<R>, SceneLoadError>(SceneLoadError::Build(e)),
        },
{
    match built {
        Ok(renderer) => Ok(Some(renderer)),
        Err(SceneError::NoRenderableObjects) => Ok(None),
        Err(e) => Err(SceneLoadError::Build(e)),
    }
}

/// What scripts get of the properties: the names of two lists together give what
/// the lists give, in order, and a name gives its value where it has one.
pub proof fn law_snapshot_in_order(
    a: Seq<Seq<char>>,
    b: Seq<Seq<char>>,
    name: Seq<char>,
    bag: Map<Seq<char>, PropertyView>,
)
    ensures
        snapshot_of(a + b, bag) == snapshot_of(a, bag) + snapshot_of(b, bag),
        bag.dom().contains(name) ==> snapshot_of(seq![name], bag) == seq![(name, bag[name])],
        !bag.dom().contains(name) ==> snapshot_of(seq![name], bag).len() == 0,
{
    lemma_snapshot_parts(a, b, bag);
    assert(seq![name].drop_last() =~= Seq::<Seq<char>>::empty());
    assert(snapshot_of(Seq::<Seq<char>>::empty(), bag) =~= Seq::empty());
}

/// The names of two lists give what the lists give.
proof fn lemma_snapshot_parts(
    a: Seq<Seq<char>>,
    b: Seq<Seq<char>>,
    bag: Map<Seq<char>, PropertyView>,
)
    ensures
        snapshot_of(a + b, bag) == snapshot_of(a, bag) + snapshot_of(b, bag),
    decreases b.len(),
{
    if b.len() == 0 {
        assert(a + b =~= a);
        assert(snapshot_of(a, bag) + snapshot_of(b, bag) =~= snapshot_of(a, bag));
    } else {
        lemma_snapshot_parts(a, b.drop_last(), bag);
        assert((a + b).drop_last() =~= a + b.drop_last());
        assert(snapshot_of(a + b, bag) =~= snapshot_of(a, bag) + snapshot_of(b, bag));
    }
}

/// Overrides apply one after the other: none changes nothing, and the last one
/// applies to what the others left.
pub proof fn law_overrides_in_order<F: Fn(Override) -> PropertyValue>(
    before: Map<Seq<char>, PropertyView>,
    overrides: Seq<(String, String)>,
    last: (String, String),
    read: F,
    after: Map<Seq<char>, PropertyView>,
)
    ensures
        all_overridden(before, Seq::empty(), read, after) ==> after == before,
        all_overridden(before, overrides.push(last), read, after) ==> exists|
            mid: Map<Seq<char>, PropertyView>,
        | #[trigger]
            all_overridden(before, overrides, read, mid) && crate::property::overridden(
                mid,
                last.0@,
                last.1@,
                read,
                after,
            ),
{
    let all = overrides.push(last);
    if all_overridden(before, all, read, after) {
        let steps = choose|steps: Seq<Map<Seq<char>, PropertyView>>|
            #![trigger steps.len()]
            steps.len() == all.len() + 1 && steps[0] == before && steps.last() == after
                && forall|i: int|
                0 <= i < all.len() ==> crate::property::overridden(
                    steps[i],
                    (#[trigger] all[i]).0@,
                    all[i].1@,
                    read,
                    steps[i + 1],
                );
        let mid = steps[overrides.len() as int];
        let fewer = steps.drop_last();
        assert forall|i: int| 0 <= i < overrides.len() implies crate::property::overridden(
            fewer[i],
            (#[trigger] overrides[i]).0@,
            overrides[i].1@,
            read,
            fewer[i + 1],
        ) by {
            assert(all[i] == overrides[i]);
        }
        assert(fewer.len() == overrides.len() + 1 && fewer[0] == before && fewer.last() == mid);
        assert(all_overridden(before, overrides, read, mid));
        assert(all[overrides.len() as int] == last);
    }
}

/// A file is taken from the package where that has it, and from the builtin
/// assets only where it does not.
pub proof fn law_package_comes_first<P: AssetSource, Q: AssetSource>(
    source: CompositeSource<P, Q>,
    path: &str,
    r: Option<Vec<u8>>,
)
    requires
        call_ensures(CompositeSource::<P, Q>::load, (&source, path), r),
    ensures
        (forall|b: Option<Vec<u8>>| #[trigger]
            call_ensures(P::load, (&source.pkg, path), b) ==> b is Some) ==> call_ensures(
            P::load,
            (&source.pkg, path),
            r,
        ),
        (forall|b: Option<Vec<u8>>| #[trigger]
            call_ensures(P::load, (&source.pkg, path), b) ==> b is None) && source.assets is None
            ==> r is None,
        (forall|b: Option<Vec<u8>>| #[trigger]
            call_ensures(P::load, (&source.pkg, path), b) ==> b is None) && source.assets is Some
            ==> call_ensures(Q::load, (&source.assets->0, path), r),
{
}

/// A scene with nothing to draw is no failure: its clear color is shown. Any
/// other failure to build one is.
pub proof fn law_empty_scene_is_shown<R>(
    built: Result<R, SceneError>,
    r: Result<Option<R>, SceneLoadError>,
)
    requires
        call_ensures(load_outcome::<R>, (built,), r),
    ensures
        built is Ok ==> r is Ok && r->Ok_0 == Some(built->Ok_0),
        built is Err && built->Err_0 is NoRenderableObjects ==> r is Ok && r->Ok_0 is None,
        built is Err && !(built->Err_0 is NoRenderableObjects) ==> r is Err && r->Err_0
            == SceneLoadError::Build(built->Err_0),
{
}

/// A stored model is taken as it is; a parsed scene is prepared with the
/// defaults of its project, and is then to be stored. What cannot be read and
/// what cannot be parsed are told apart.
pub proof fn law_scene_is_prepared_once<S: AssetSource>(
    found: Found,
    entries: &Vec<(String, PropertyEntry)>,
    source: &S,
    r: Result<Prepared, SceneLoadError>,
)
    requires
        found.wf(),
        call_ensures(prepare_scene, (found, entries, source), r),
    ensures
        r is Ok == (found is Stored || found is Parsed),
        found matches Found::Stored(m) ==> r->Ok_0.model == m && !r->Ok_0.fresh,
        found matches Found::Parsed(s) ==> r->Ok_0.fresh && prepared(
            source,
            s@,
            crate::property::declared(entries@),
            r->Ok_0.model.scene@,
            crate::assets::problem_views(r->Ok_0.problems@),
        ),
        found matches Found::Unread(why) ==> r is Err && r->Err_0 == SceneLoadError::SceneJson(why),
        found matches Found::Unparsed(why) ==> r is Err && r->Err_0 == SceneLoadError::Parse(why),
{
}

} // verus!
