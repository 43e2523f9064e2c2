//! The pass list of an image and how its passes feed each other.
//!
//! Given the base material and the visible effects, the plan lists the draws
//! in order. Each knows what it reads (the layer texture for the first, the
//! previous output for the others), what it renders into (one of two image
//! buffers in turn, the scene for the last) and what geometry it draws.
use vstd::prelude::*;

use crate::material::{
    copy_text, merge_combos, merge_constants, Bind, Blending, CullMode, DepthMode, Fbo, FboView, Pass,
    PassView,
};
use crate::object::{Effect, EffectView, ImageObject, ImageObjectView, PassOverride, PassOverrideView};
use crate::text::same;

verus! {

/// Where a planned pass reads its first texture from.
#[derive(Debug, Clone, Copy, PartialEq, Eq, Structural)]
pub enum PassInput {
    /// The image's layer texture.
    Layer,
    /// One of the two image buffers.
    Fbo(usize),
}

/// Where a planned pass renders.
#[derive(Debug, PartialEq, Eq)]
pub enum PassOutput {
    /// One of the two image buffers.
    Fbo(usize),
    /// A scratch buffer of an effect, by name.
    Named(String),
    /// The scene.
    Scene,
}

/// What a [`PassOutput`] names.
pub enum OutputView {
    /// One of the two image buffers.
    Fbo(int),
    /// A scratch buffer.
    Named(Seq<char>),
    /// The scene.
    Scene,
}

impl View for PassOutput {
    type V = OutputView;

    open spec fn view(&self) -> OutputView {
        match self {
            PassOutput::Fbo(i) => OutputView::Fbo(*i as int),
            PassOutput::Named(n) => OutputView::Named(n@),
            PassOutput::Scene => OutputView::Scene,
        }
    }
}

/// The geometry of a pass.
#[derive(Debug, Clone, Copy, PartialEq, Eq, Structural)]
pub enum Geometry {
    /// The first pass: texture into an image buffer.
    Copy,
    /// An intermediate effect pass.
    Pass,
    /// Composite into the scene.
    Scene,
    /// A deformable mesh drawn straight into the scene.
    Puppet,
    /// A deformable mesh drawn into an image buffer.
    PuppetCopy,
}

/// One pass with its wiring.
#[derive(Debug)]
pub struct PlanPass {
    /// Shader base name.
    pub shader: String,
    /// Blending after relocation.
    pub blending: Blending,
    /// Cull mode.
    pub cull: CullMode,
    /// Depth test.
    pub depthtest: DepthMode,
    /// Depth write.
    pub depthwrite: DepthMode,
    /// The material pass, overrides applied.
    pub pass: Pass,
    /// Texture input.
    pub input: PassInput,
    /// Render target.
    pub output: PassOutput,
    /// Geometry.
    pub geometry: Geometry,
    /// The scratch buffer the effect pass names as its target.
    pub target: Option<String>,
    /// Texture slots and the buffers bound to them.
    pub binds: Vec<(u32, String)>,
}

/// What a [`PlanPass`] holds.
pub struct PlanPassView {
    /// The material pass.
    pub pass: PassView,
    /// Texture input.
    pub input: PassInput,
    /// Render target.
    pub output: OutputView,
    /// Geometry.
    pub geometry: Geometry,
    /// Scratch buffer.
    pub target: Option<Seq<char>>,
    /// Bound buffers.
    pub binds: Seq<(u32, Seq<char>)>,
}

impl View for PlanPass {
    type V = PlanPassView;

    open spec fn view(&self) -> PlanPassView {
        PlanPassView {
            pass: self.pass@,
            input: self.input,
            output: self.output@,
            geometry: self.geometry,
            target: crate::fields::opt_text(self.target),
            binds: slot_binds(self.binds@),
        }
    }
}

/// What a list of slot bindings holds.
pub open spec fn slot_binds(v: Seq<(u32, String)>) -> Seq<(u32, Seq<char>)> {
    Seq::new(v.len(), |i: int| (v[i].0, v[i].1@))
}

impl PlanPass {
    /// The state of the draw is that of its material pass.
    pub open spec fn wf(&self) -> bool {
        &&& self.pass.wf()
        &&& self.shader@ == self.pass.shader@
        &&& self.blending == self.pass.blending
        &&& self.cull == self.pass.cullmode
        &&& self.depthtest == self.pass.depthtest
        &&& self.depthwrite == self.pass.depthwrite
    }
}

/// The planned draws of one image.
#[derive(Debug)]
pub struct ImagePlan {
    /// Passes in draw order; none when the image is not drawn.
    pub passes: Vec<PlanPass>,
    /// The scratch buffers of the visible effects.
    pub named_fbos: Vec<Fbo>,
}

/// What a list of planned passes holds.
pub open spec fn plan_views(v: Seq<PlanPass>) -> Seq<PlanPassView> {
    Seq::new(v.len(), |i: int| v[i]@)
}

/// Texture slots with the slots of `over` put over them: a slot of `over` that
/// is filled wins, the list grows as far as that needs.
pub open spec fn overlaid(base: Seq<Option<Seq<char>>>, over: Seq<Option<Seq<char>>>) -> Seq<
    Option<Seq<char>>,
>
    decreases over.len(),
{
    if over.len() == 0 {
        base
    } else {
        let before = overlaid(base, over.drop_last());
        match over.last() {
            Some(name) => padded(before, over.len()).update(over.len() - 1, Some(name)),
            None => before,
        }
    }
}

/// Texture slots with empty ones added up to `n`.
pub open spec fn padded(v: Seq<Option<Seq<char>>>, n: nat) -> Seq<Option<Seq<char>>> {
    if v.len() >= n {
        v
    } else {
        v + Seq::new((n - v.len()) as nat, |i: int| None::<Seq<char>>)
    }
}

/// A pass with an override applied: its defines, constants and filled texture
/// slots win.
pub open spec fn overridden(p: PassView, ov: PassOverrideView) -> PassView {
    PassView {
        combos: p.combos.union_prefer_right(ov.combos),
        constants: p.constants.union_prefer_right(ov.constantshadervalues),
        textures: overlaid(p.textures, ov.textures),
        ..p
    }
}

/// Add empty slots up to `n`.
pub fn pad_slots(v: &mut Vec<Option<String>>, n: usize)
    ensures
        crate::material::slots(final(v)@) == padded(crate::material::slots(old(v)@), n as nat),
        final(v)@.len() >= n,
        forall|i: int| 0 <= i < old(v)@.len() ==> #[trigger] final(v)@[i] == old(v)@[i],
        final(v)@.len() >= old(v)@.len(),
{
    let ghost was = v@;
    while v.len() < n
        invariant
            v@.len() >= was.len(),
            v@.len() <= n || v@ == was,
            forall|i: int| 0 <= i < was.len() ==> #[trigger] v@[i] == was[i],
            forall|i: int| was.len() <= i < v@.len() ==> (#[trigger] v@[i]) is None,
        decreases n - v@.len(),
    {
        v.push(None);
    }
    assert(crate::material::slots(v@) =~= padded(crate::material::slots(was), n as nat));
}

/// Put the filled slots of `over` over those of `base`.
fn overlay_slots(base: &mut Vec<Option<String>>, over: &Vec<Option<String>>)
    ensures
        crate::material::slots(final(base)@) == overlaid(
            crate::material::slots(old(base)@),
            crate::material::slots(over@),
        ),
{
    let ghost first = crate::material::slots(base@);
    let ghost all = crate::material::slots(over@);
    let mut i: usize = 0;
    while i < over.len()
        invariant
            i <= over@.len(),
            all == crate::material::slots(over@),
            crate::material::slots(base@) == overlaid(first, all.take(i as int)),
        decreases over@.len() - i,
    {
        let ghost head = all.take(i as int + 1);
        assert(head.drop_last() == all.take(i as int));
        assert(head.last() == crate::fields::opt_text(over@[i as int]));
        match &over[i] {
            Some(name) => {
                pad_slots(base, i + 1);
                let ghost grown = crate::material::slots(base@);
                let slot = Some(name.clone());
                base.set(i, slot);
                assert(crate::material::slots(base@) =~= grown.update(i as int, Some(name@)));
            },
            None => {},
        }
        i = i + 1;
    }
    assert(all.take(all.len() as int) == all);
}

/// Merge an override onto a material pass: the override wins.
pub fn apply_override(pass: Pass, ov: &PassOverride) -> (r: Pass)
    requires
        pass.wf(),
        ov.wf(),
    ensures
        r.wf(),
        r@ == overridden(pass@, ov@),
{
    let mut pass = pass;
    merge_combos(&mut pass.combos, &ov.combos);
    merge_constants(&mut pass.constantshadervalues, &ov.constantshadervalues);
    overlay_slots(&mut pass.textures, &ov.textures);
    pass
}

/// A material pass with the routing of its effect pass.
pub struct SrcPass {
    /// The material pass.
    pub pass: Pass,
    /// The scratch buffer it renders into.
    pub target: Option<String>,
    /// Texture slots and the buffers bound to them.
    pub binds: Vec<(u32, String)>,
}

/// What a [`SrcPass`] holds.
pub struct SrcPassView {
    /// The material pass.
    pub pass: PassView,
    /// The scratch buffer it renders into.
    pub target: Option<Seq<char>>,
    /// Bound buffers.
    pub binds: Seq<(u32, Seq<char>)>,
}

impl View for SrcPass {
    type V = SrcPassView;

    open spec fn view(&self) -> SrcPassView {
        SrcPassView {
            pass: self.pass@,
            target: crate::fields::opt_text(self.target),
            binds: slot_binds(self.binds@),
        }
    }
}

/// What a list of source passes holds.
pub open spec fn src_views(v: Seq<SrcPass>) -> Seq<SrcPassView> {
    Seq::new(v.len(), |i: int| v[i]@)
}

/// Every source pass is well formed.
pub open spec fn srcs_wf(v: Seq<SrcPass>) -> bool {
    forall|i: int| 0 <= i < v.len() ==> (#[trigger] v[i]).pass.wf()
}

/// The passes of the base material of an image.
pub open spec fn base_sources(image: ImageObjectView) -> Seq<SrcPassView> {
    match image.material {
        Some(p) => Seq::new(
            p.len(),
            |i: int| SrcPassView { pass: p[i], target: None, binds: Seq::empty() },
        ),
        None => Seq::empty(),
    }
}

/// The binds whose index is a texture slot.
pub open spec fn usable_binds(b: Seq<(Seq<char>, i64)>) -> Seq<(u32, Seq<char>)>
    decreases b.len(),
{
    if b.len() == 0 {
        Seq::empty()
    } else {
        let before = usable_binds(b.drop_last());
        let (name, index) = b.last();
        if 0 <= index <= u32::MAX {
            before.push((index as u32, name))
        } else {
            before
        }
    }
}

/// The passes that pass `i` of an effect contributes: those of its material,
/// with the override at that position applied. Only the first of them keeps
/// the binds.
pub open spec fn effect_pass_sources(e: EffectView, i: int) -> Seq<SrcPassView>
    recommends
        e.resolved is Some,
        0 <= i < e.resolved->0.passes.len(),
{
    let ep = e.resolved->0.passes[i];
    match ep.resolved {
        None => Seq::empty(),
        Some(m) => Seq::new(
            m.len(),
            |k: int|
                SrcPassView {
                    pass: if i < e.passes.len() { overridden(m[k], e.passes[i]) } else { m[k] },
                    target: ep.target,
                    binds: if k == 0 { usable_binds(ep.bind) } else { Seq::empty() },
                },
        ),
    }
}

/// The passes that the first `n` passes of an effect contribute.
pub open spec fn effect_sources(e: EffectView, n: nat) -> Seq<SrcPassView>
    decreases n,
{
    if n == 0 {
        Seq::empty()
    } else {
        effect_sources(e, (n - 1) as nat) + effect_pass_sources(e, n - 1)
    }
}

/// An effect is drawn: it is visible and its file is loaded.
pub open spec fn is_drawn(e: EffectView) -> bool {
    e.visible.value && e.resolved is Some
}

/// The passes that a list of effects contributes, in order; those that are not
/// drawn contribute none.
pub open spec fn all_effect_sources(effects: Seq<EffectView>) -> Seq<SrcPassView>
    decreases effects.len(),
{
    if effects.len() == 0 {
        Seq::empty()
    } else {
        let before = all_effect_sources(effects.drop_last());
        let e = effects.last();
        if is_drawn(e) {
            before + effect_sources(e, e.resolved->0.passes.len())
        } else {
            before
        }
    }
}

/// The passes of the base material.
fn base_passes(image: &ImageObject) -> (out: Vec<SrcPass>)
    requires
        image.wf(),
    ensures
        srcs_wf(out@),
        src_views(out@) == base_sources(image@),
{
    let mut out: Vec<SrcPass> = Vec::new();
    match &image.material {
        None => {
            assert(src_views(out@) =~= base_sources(image@));
        },
        Some(m) => {
            let mut i: usize = 0;
            while i < m.passes.len()
                invariant
                    i <= m.passes@.len(),
                    m.wf(),
                    out@.len() == i,
                    srcs_wf(out@),
                    forall|k: int|
                        0 <= k < i ==> (#[trigger] out@[k])@ == (SrcPassView {
                            pass: m.passes@[k]@,
                            target: None,
                            binds: Seq::empty(),
                        }),
                decreases m.passes@.len() - i,
            {
                let pass = m.passes[i].copy();
                let binds: Vec<(u32, String)> = Vec::new();
                assert(slot_binds(binds@) =~= Seq::<(u32, Seq<char>)>::empty());
                out.push(SrcPass { pass, target: None, binds });
                i = i + 1;
            }
            assert(src_views(out@) =~= base_sources(image@));
        },
    }
    out
}

/// The binds whose index is a texture slot.
fn slot_bindings(bind: &Vec<Bind>) -> (out: Vec<(u32, String)>)
    ensures
        slot_binds(out@) == usable_binds(crate::material::bind_views(bind@)),
{
    let ghost all = crate::material::bind_views(bind@);
    let mut out: Vec<(u32, String)> = Vec::new();
    let mut i: usize = 0;
    assert(slot_binds(out@) =~= Seq::<(u32, Seq<char>)>::empty());
    while i < bind.len()
        invariant
            i <= bind@.len(),
            all == crate::material::bind_views(bind@),
            slot_binds(out@) == usable_binds(all.take(i as int)),
        decreases bind@.len() - i,
    {
        let ghost was = slot_binds(out@);
        assert(all.take(i as int + 1).drop_last() == all.take(i as int));
        assert(all.take(i as int + 1).last() == (bind@[i as int].name@, bind@[i as int].index));
        let index: i64 = bind[i].index;
        if 0 <= index && index <= 0xffff_ffff {
            out.push((index as u32, bind[i].name.clone()));
            assert(slot_binds(out@) =~= was.push((index as u32, bind@[i as int].name@)));
        }
        i = i + 1;
    }
    assert(all.take(all.len() as int) == all);
    out
}

/// Copies of slot bindings.
fn copy_binds(v: &Vec<(u32, String)>) -> (out: Vec<(u32, String)>)
    ensures
        slot_binds(out@) == slot_binds(v@),
{
    let mut out: Vec<(u32, String)> = Vec::new();
    let mut i: usize = 0;
    while i < v.len()
        invariant
            i <= v@.len(),
            out@.len() == i,
            forall|k: int| 0 <= k < i ==> (#[trigger] out@[k]).0 == v@[k].0 && out@[k].1@ == v@[k].1@,
        decreases v@.len() - i,
    {
        out.push((v[i].0, v[i].1.clone()));
        i = i + 1;
    }
    assert(slot_binds(out@) =~= slot_binds(v@));
    out
}

/// Append the passes of one effect.
fn push_effect(effect: &Effect, out: &mut Vec<SrcPass>)
    requires
        effect.wf(),
        effect.resolved is Some,
        srcs_wf(old(out)@),
    ensures
        srcs_wf(final(out)@),
        src_views(final(out)@) == src_views(old(out)@) + effect_sources(
            effect@,
            effect@.resolved->0.passes.len(),
        ),
{
    let ghost start = src_views(out@);
    let ghost e = effect@;
    match &effect.resolved {
        None => {},
        Some(file) => {
            let mut i: usize = 0;
            assert(start + effect_sources(e, 0) =~= start);
            while i < file.passes.len()
                invariant
                    i <= file.passes@.len(),
                    e == effect@,
                    effect.wf(),
                    effect.resolved == Some(*file),
                    file.wf(),
                    srcs_wf(out@),
                    src_views(out@) == start + effect_sources(e, i as nat),
                decreases file.passes@.len() - i,
            {
                let ghost before = src_views(out@);
                let ghost added = effect_pass_sources(e, i as int);
                assert(file.passes@[i as int].wf());
                assert(e.resolved->0.passes[i as int] == file.passes@[i as int]@);
                match &file.passes[i].resolved {
                    None => {
                        assert(added =~= Seq::<SrcPassView>::empty());
                        assert(before + added =~= before);
                    },
                    Some(material) => {
                        let binds = slot_bindings(&file.passes[i].bind);
                        let mut k: usize = 0;
                        assert(before + added.take(0) =~= before);
                        while k < material.passes.len()
                            invariant
                                i < file.passes@.len(),
                                k <= material.passes@.len(),
                                e == effect@,
                                effect.wf(),
                                effect.resolved == Some(*file),
                                file.passes@[i as int].resolved == Some(*material),
                                e.resolved->0.passes[i as int] == file.passes@[i as int]@,
                                material.wf(),
                                slot_binds(binds@) == usable_binds(e.resolved->0.passes[i as int].bind),
                                added == effect_pass_sources(e, i as int),
                                added.len() == material.passes@.len(),
                                srcs_wf(out@),
                                src_views(out@) == before + added.take(k as int),
                            decreases material.passes@.len() - k,
                        {
                            let ghost was = src_views(out@);
                            assert(material.passes@[k as int].wf());
                            let copied = material.passes[k].copy();
                            let pass = if i < effect.passes.len() {
                                assert(effect.passes@[i as int].wf());
                                assert(e.passes[i as int] == effect.passes@[i as int]@);
                                apply_override(copied, &effect.passes[i])
                            } else {
                                copied
                            };
                            let kept = if k == 0 {
                                copy_binds(&binds)
                            } else {
                                let none: Vec<(u32, String)> = Vec::new();
                                assert(slot_binds(none@) =~= Seq::<(u32, Seq<char>)>::empty());
                                none
                            };
                            let target = copy_text(&file.passes[i].target);
                            let src = SrcPass { pass, target, binds: kept };
                            assert(src@ == added[k as int]);
                            out.push(src);
                            assert(src_views(out@) =~= was.push(added[k as int]));
                            assert(before + added.take(k as int + 1) =~= (before + added.take(
                                k as int,
                            )).push(added[k as int]));
                            k = k + 1;
                        }
                        assert(added.take(added.len() as int) =~= added);
                    },
                }
                assert(start + effect_sources(e, (i + 1) as nat) =~= (start + effect_sources(
                    e,
                    i as nat,
                )) + added);
                i = i + 1;
            }
        },
    }
}

/// The passes of the image's visible effects, in effect order.
fn effect_passes(image: &ImageObject) -> (out: Vec<SrcPass>)
    requires
        image.wf(),
    ensures
        srcs_wf(out@),
        src_views(out@) == all_effect_sources(image@.effects),
{
    let ghost all = image@.effects;
    let mut out: Vec<SrcPass> = Vec::new();
    let mut i: usize = 0;
    assert(src_views(out@) =~= Seq::<SrcPassView>::empty());
    while i < image.effects.len()
        invariant
            i <= image.effects@.len(),
            image.wf(),
            all == crate::object::effect_views(image.effects@),
            srcs_wf(out@),
            src_views(out@) == all_effect_sources(all.take(i as int)),
        decreases image.effects@.len() - i,
    {
        assert(all.take(i as int + 1).drop_last() == all.take(i as int));
        assert(all.take(i as int + 1).last() == image.effects@[i as int]@);
        assert(image.effects@[i as int].wf());
        if image.effects[i].visible.value && image.effects[i].resolved.is_some() {
            push_effect(&image.effects[i], &mut out);
        }
        i = i + 1;
    }
    assert(all.take(all.len() as int) == all);
    out
}

/// `name` is declared in a list of buffers.
pub open spec fn declares(v: Seq<FboView>, name: Seq<char>) -> bool {
    exists|i: int| 0 <= i < v.len() && (#[trigger] v[i]).name == name
}

/// A list of buffers with those of `more` added whose name is new.
pub open spec fn with_new(v: Seq<FboView>, more: Seq<FboView>) -> Seq<FboView>
    decreases more.len(),
{
    if more.len() == 0 {
        v
    } else {
        let before = with_new(v, more.drop_last());
        if declares(before, more.last().name) {
            before
        } else {
            before.push(more.last())
        }
    }
}

/// The scratch buffers of the drawn effects, each name once.
pub open spec fn all_fbos(effects: Seq<EffectView>) -> Seq<FboView>
    decreases effects.len(),
{
    if effects.len() == 0 {
        Seq::empty()
    } else {
        let before = all_fbos(effects.drop_last());
        if is_drawn(effects.last()) {
            with_new(before, effects.last().resolved->0.fbos)
        } else {
            before
        }
    }
}

/// Whether a list of buffers declares `name`.
fn has_fbo(v: &Vec<Fbo>, name: &str) -> (r: bool)
    ensures
        r == declares(crate::material::fbo_views(v@), name@),
{
    let ghost all = crate::material::fbo_views(v@);
    let mut i: usize = 0;
    while i < v.len()
        invariant
            i <= v@.len(),
            all == crate::material::fbo_views(v@),
            forall|k: int| 0 <= k < i ==> (#[trigger] all[k]).name != name@,
        decreases v@.len() - i,
    {
        assert(all[i as int].name == v@[i as int].name@);
        if same(v[i].name.as_str(), name) {
            return true;
        }
        i = i + 1;
    }
    false
}

/// The scratch buffers of the visible effects, each name once.
fn effect_fbos(image: &ImageObject) -> (out: Vec<Fbo>)
    ensures
        crate::material::fbo_views(out@) == all_fbos(image@.effects),
{
    let ghost all = image@.effects;
    let mut out: Vec<Fbo> = Vec::new();
    let mut i: usize = 0;
    assert(crate::material::fbo_views(out@) =~= Seq::<FboView>::empty());
    while i < image.effects.len()
        invariant
            i <= image.effects@.len(),
            all == crate::object::effect_views(image.effects@),
            crate::material::fbo_views(out@) == all_fbos(all.take(i as int)),
        decreases image.effects@.len() - i,
    {
        assert(all.take(i as int + 1).drop_last() == all.take(i as int));
        assert(all.take(i as int + 1).last() == image.effects@[i as int]@);
        if image.effects[i].visible.value {
            match &image.effects[i].resolved {
                None => {},
                Some(file) => {
                    let ghost before = crate::material::fbo_views(out@);
                    let ghost more = crate::material::fbo_views(file.fbos@);
                    let mut k: usize = 0;
                    while k < file.fbos.len()
                        invariant
                            k <= file.fbos@.len(),
                            more == crate::material::fbo_views(file.fbos@),
                            crate::material::fbo_views(out@) == with_new(before, more.take(k as int)),
                        decreases file.fbos@.len() - k,
                    {
                        let ghost was = crate::material::fbo_views(out@);
                        assert(more.take(k as int + 1).drop_last() == more.take(k as int));
                        assert(more.take(k as int + 1).last() == file.fbos@[k as int]@);
                        if !has_fbo(&out, file.fbos[k].name.as_str()) {
                            let copy = file.fbos[k].copy();
                            out.push(copy);
                            assert(crate::material::fbo_views(out@) =~= was.push(more[k as int]));
                        }
                        k = k + 1;
                    }
                    assert(more.take(more.len() as int) == more);
                },
            }
        }
        i = i + 1;
    }
    assert(all.take(all.len() as int) == all);
    out
}

/// A source pass with another blend mode.
pub open spec fn reblended(s: SrcPassView, blending: Blending) -> SrcPassView {
    SrcPassView { pass: PassView { blending, ..s.pass }, ..s }
}

/// The blend mode of the first pass moves to the last one: layers blend where
/// they are composited into the scene. The first pass then replaces what it
/// draws over, unless it draws a deformable mesh, whose triangles overlap.
pub open spec fn relocated(v: Seq<SrcPassView>, puppet: bool) -> Seq<SrcPassView> {
    if v.len() > 1 {
        let first = if puppet { v } else { v.update(0, reblended(v[0], Blending::Normal)) };
        first.update(v.len() - 1, reblended(first[v.len() - 1], v[0].pass.blending))
    } else {
        v
    }
}

/// What pass `i` of `n` reads: the layer texture first, then the buffer that
/// the pass before it wrote.
pub open spec fn input_at(i: int) -> PassInput {
    if i == 0 {
        PassInput::Layer
    } else {
        PassInput::Fbo(((i - 1) % 2) as usize)
    }
}

/// What pass `i` of `n` renders into: the two buffers in turn, the scene last.
pub open spec fn output_at(i: int, n: int) -> OutputView {
    if i == n - 1 {
        OutputView::Scene
    } else {
        OutputView::Fbo(i % 2)
    }
}

/// The geometry of pass `i` of `n`.
pub open spec fn geometry_at(i: int, n: int) -> Geometry {
    if i == n - 1 {
        Geometry::Scene
    } else if i == 0 {
        Geometry::Copy
    } else {
        Geometry::Pass
    }
}

/// A list of source passes with their wiring.
pub open spec fn wired(v: Seq<SrcPassView>) -> Seq<PlanPassView> {
    Seq::new(
        v.len(),
        |i: int|
            PlanPassView {
                pass: v[i].pass,
                input: input_at(i),
                output: output_at(i, v.len() as int),
                geometry: geometry_at(i, v.len() as int),
                target: v[i].target,
                binds: v[i].binds,
            },
    )
}

/// The image draws a deformable mesh.
pub open spec fn has_puppet(image: ImageObjectView) -> bool {
    image.model is Some && image.model->0.puppet is Some
}

/// The image only passes on what is below it.
pub open spec fn is_passthrough(image: ImageObjectView) -> bool {
    image.model is Some && image.model->0.passthrough
}

/// The source passes of an image that is drawn: those of its base material,
/// then those of its effects. None when it is hidden, or when it only passes
/// on what is below it and no effect changes that.
pub open spec fn sources(image: ImageObjectView, visible: bool) -> Seq<SrcPassView> {
    let effects = all_effect_sources(image.effects);
    if !visible || (is_passthrough(image) && effects.len() == 0) {
        Seq::empty()
    } else {
        base_sources(image) + effects
    }
}

/// The planned passes of an image.
pub open spec fn planned(image: ImageObjectView, visible: bool) -> Seq<PlanPassView> {
    wired(relocated(sources(image, visible), has_puppet(image)))
}

/// Every planned pass is well formed.
pub open spec fn plan_wf(v: Seq<PlanPass>) -> bool {
    forall|i: int| 0 <= i < v.len() ==> (#[trigger] v[i]).wf()
}

/// Move the blend mode of the first pass to the last one.
fn relocate_blending(v: &mut Vec<SrcPass>, puppet: bool)
    requires
        srcs_wf(old(v)@),
    ensures
        srcs_wf(final(v)@),
        src_views(final(v)@) == relocated(src_views(old(v)@), puppet),
{
    let ghost was = v@;
    let n = v.len();
    if n > 1 {
        let first_blend = v[0].pass.blending;
        assert(was[0].pass.wf());
        assert(was[n - 1].pass.wf());
        if !puppet {
            v[0].pass.blending = Blending::Normal;
        }
        let ghost mid = v@;
        assert(forall|i: int| 0 < i < n ==> #[trigger] mid[i] == was[i]);
        v[n - 1].pass.blending = first_blend;
        assert forall|i: int| 0 <= i < v@.len() implies (#[trigger] v@[i]).pass.wf() by {
            if 0 < i < n - 1 {
                assert(v@[i] == was[i]);
                assert(was[i].pass.wf());
            }
        }
        assert(src_views(v@) =~= relocated(src_views(was), puppet));
    }
}

/// Wire the passes: the two image buffers in turn, the last pass into the
/// scene.
fn wire(passes: Vec<SrcPass>) -> (out: Vec<PlanPass>)
    requires
        srcs_wf(passes@),
    ensures
        plan_wf(out@),
        plan_views(out@) == wired(src_views(passes@)),
{
    let ghost all = passes@;
    let n = passes.len();
    let mut out: Vec<PlanPass> = Vec::new();
    let mut input = PassInput::Layer;
    let mut cur_out: usize = 0;
    let mut i: usize = 0;
    let mut rest = passes;
    while i < n
        invariant
            i <= n,
            n == all.len(),
            srcs_wf(all),
            rest@ == all.skip(i as int),
            out@.len() == i,
            plan_wf(out@),
            i < n ==> input == input_at(i as int),
            cur_out == i % 2 || i == n,
            forall|k: int| 0 <= k < i ==> (#[trigger] out@[k])@ == wired(src_views(all))[k],
        decreases n - i,
    {
        assert(rest@[0] == all[i as int]);
        let src = rest.remove(0);
        assert(rest@ =~= all.skip(i as int + 1));
        let is_last = i == n - 1;
        let output = if is_last {
            PassOutput::Scene
        } else {
            PassOutput::Fbo(cur_out)
        };
        let geometry = if is_last {
            Geometry::Scene
        } else if i == 0 {
            Geometry::Copy
        } else {
            Geometry::Pass
        };
        let p = PlanPass {
            shader: src.pass.shader.clone(),
            blending: src.pass.blending,
            cull: src.pass.cullmode,
            depthtest: src.pass.depthtest,
            depthwrite: src.pass.depthwrite,
            pass: src.pass,
            input,
            output,
            geometry,
            target: src.target,
            binds: src.binds,
        };
        assert(all[i as int].pass.wf());
        assert(p@ == wired(src_views(all))[i as int]);
        out.push(p);
        if !is_last {
            input = PassInput::Fbo(cur_out);
            cur_out = 1 - cur_out;
        }
        i = i + 1;
    }
    assert(plan_views(out@) =~= wired(src_views(all)));
    out
}

/// Build the draw plan for an image. A hidden image plans nothing, nor does
/// one that only passes on what is below it without a visible effect.
pub fn plan_image(image: &ImageObject, visible: bool) -> (r: ImagePlan)
    requires
        image.wf(),
    ensures
        plan_wf(r.passes@),
        plan_views(r.passes@) == planned(image@, visible),
        crate::material::fbo_views(r.named_fbos@) == if planned(image@, visible).len() == 0 {
            Seq::empty()
        } else {
            all_fbos(image@.effects)
        },
{
    if !visible {
        return empty_plan();
    }
    let passthrough = match &image.model {
        Some(m) => m.passthrough,
        None => false,
    };
    let mut effects = effect_passes(image);
    let ghost shown = src_views(effects@);
    assert(shown.len() == effects@.len());
    if passthrough && effects.len() == 0 {
        return empty_plan();
    }
    let mut passes = base_passes(image);
    let ghost base = src_views(passes@);
    let ghost before = passes@;
    let ghost added = effects@;
    passes.append(&mut effects);
    proof {
        assert(passes@ =~= before + added);
        assert(src_views(passes@) =~= base + shown);
        assert forall|i: int| 0 <= i < passes@.len() implies (#[trigger] passes@[i]).pass.wf() by {
            if i < before.len() {
                assert(passes@[i] == before[i]);
            } else {
                assert(passes@[i] == added[i - before.len()]);
            }
        }
    }
    if passes.len() == 0 {
        assert(src_views(passes@).len() == 0);
        return empty_plan();
    }
    assert(src_views(passes@).len() > 0);
    let puppet = match &image.model {
        Some(m) => m.puppet.is_some(),
        None => false,
    };
    relocate_blending(&mut passes, puppet);
    ImagePlan { passes: wire(passes), named_fbos: effect_fbos(image) }
}

/// The plan of an image that is not drawn.
fn empty_plan() -> (r: ImagePlan)
    ensures
        r.passes@.len() == 0,
        r.named_fbos@.len() == 0,
        plan_views(r.passes@) == wired(relocated(Seq::empty(), true)),
        plan_views(r.passes@) == wired(relocated(Seq::empty(), false)),
        crate::material::fbo_views(r.named_fbos@) == Seq::<FboView>::empty(),
{
    let r = ImagePlan { passes: Vec::new(), named_fbos: Vec::new() };
    assert(plan_views(r.passes@) =~= wired(relocated(Seq::empty(), true)));
    assert(plan_views(r.passes@) =~= wired(relocated(Seq::empty(), false)));
    assert(crate::material::fbo_views(r.named_fbos@) =~= Seq::<FboView>::empty());
    r
}

/// The chain of a plan: the first pass reads the layer texture, each other
/// pass reads the buffer that the pass before it wrote, no pass reads the
/// buffer it writes, and the last pass and no other renders into the scene.
pub proof fn law_plan_is_a_chain(image: ImageObjectView, visible: bool)
    ensures
        ({
            let p = planned(image, visible);
            &&& p.len() > 0 ==> p[0].input == PassInput::Layer
            &&& forall|i: int|
                0 <= i < p.len() ==> ((#[trigger] p[i]).output is Scene <==> i == p.len() - 1)
            &&& forall|i: int|
                0 < i < p.len() ==> (#[trigger] p[i]).input is Fbo && p[i - 1].output
                    == OutputView::Fbo(p[i].input->Fbo_0 as int)
            &&& forall|i: int|
                0 < i < p.len() - 1 ==> (#[trigger] p[i]).output != OutputView::Fbo(
                    p[i].input->Fbo_0 as int,
                )
        }),
{
}

/// Relocation changes blend modes only: every other part of a pass, and the
/// number of passes, stays. A single pass keeps its blend mode; of several the
/// last one gets that of the first.
pub proof fn law_relocation_moves_blending(v: Seq<SrcPassView>, puppet: bool)
    ensures
        relocated(v, puppet).len() == v.len(),
        forall|i: int|
            0 <= i < v.len() ==> reblended(#[trigger] relocated(v, puppet)[i], v[i].pass.blending)
                == v[i],
        v.len() == 1 ==> relocated(v, puppet) == v,
        v.len() > 1 ==> relocated(v, puppet).last().pass.blending == v[0].pass.blending,
        v.len() > 1 ==> relocated(v, puppet)[0].pass.blending == if puppet {
            v[0].pass.blending
        } else {
            Blending::Normal
        },
        forall|i: int| 0 < i < v.len() - 1 ==> #[trigger] relocated(v, puppet)[i] == v[i],
{
}

/// An overlaid slot holds the override where that is filled and the base's
/// texture otherwise.
pub proof fn law_override_slots(base: Seq<Option<Seq<char>>>, over: Seq<Option<Seq<char>>>)
    ensures
        overlaid(base, over).len() >= base.len(),
        forall|i: int|
            0 <= i < overlaid(base, over).len() ==> #[trigger] overlaid(base, over)[i] == if i
                < over.len() && over[i] is Some {
                over[i]
            } else if i < base.len() {
                base[i]
            } else {
                None
            },
        forall|i: int|
            0 <= i < over.len() && (#[trigger] over[i]) is Some ==> i < overlaid(base, over).len(),
    decreases over.len(),
{
    if over.len() > 0 {
        law_override_slots(base, over.drop_last());
        assert forall|i: int|
            0 <= i < over.len() && (#[trigger] over[i]) is Some implies i < overlaid(base, over).len() by {
            if i < over.len() - 1 {
                assert(over.drop_last()[i] == over[i]);
            }
        }
    }
}

/// The scratch buffers of a plan have distinct names, and every buffer that a
/// drawn effect declares is among them.
pub proof fn law_fbo_names_distinct(effects: Seq<EffectView>)
    ensures
        forall|i: int, j: int|
            0 <= i < j < all_fbos(effects).len() ==> (#[trigger] all_fbos(effects)[i]).name != (
            #[trigger] all_fbos(effects)[j]).name,
        forall|k: int, i: int|
            0 <= k < effects.len() && is_drawn(#[trigger] effects[k]) && 0 <= i
                < effects[k].resolved->0.fbos.len() ==> declares(
                all_fbos(effects),
                (#[trigger] effects[k].resolved->0.fbos[i]).name,
            ),
    decreases effects.len(),
{
    if effects.len() > 0 {
        let before = effects.drop_last();
        law_fbo_names_distinct(before);
        if is_drawn(effects.last()) {
            lemma_with_new(all_fbos(before), effects.last().resolved->0.fbos);
        }
        assert forall|k: int, i: int|
            0 <= k < effects.len() && is_drawn(#[trigger] effects[k]) && 0 <= i
                < effects[k].resolved->0.fbos.len() implies declares(
            all_fbos(effects),
            (#[trigger] effects[k].resolved->0.fbos[i]).name,
        ) by {
            if k < effects.len() - 1 {
                assert(before[k] == effects[k]);
                assert(declares(all_fbos(before), before[k].resolved->0.fbos[i].name));
            }
        }
    }
}

/// Adding buffers keeps names distinct and loses none.
proof fn lemma_with_new(v: Seq<FboView>, more: Seq<FboView>)
    requires
        forall|i: int, j: int|
            0 <= i < j < v.len() ==> (#[trigger] v[i]).name != (#[trigger] v[j]).name,
    ensures
        forall|i: int, j: int|
            0 <= i < j < with_new(v, more).len() ==> (#[trigger] with_new(v, more)[i]).name != (
            #[trigger] with_new(v, more)[j]).name,
        forall|n: Seq<char>| declares(v, n) ==> #[trigger] declares(with_new(v, more), n),
        forall|i: int| 0 <= i < more.len() ==> declares(with_new(v, more), (#[trigger] more[i]).name),
    decreases more.len(),
{
    if more.len() > 0 {
        let head = more.drop_last();
        lemma_with_new(v, head);
        let before = with_new(v, head);
        let after = with_new(v, more);
        let last = more.last();
        if !declares(before, last.name) {
            assert(after == before.push(last));
            assert forall|n: Seq<char>| declares(before, n) implies #[trigger] declares(after, n) by {
                let i = choose|i: int| 0 <= i < before.len() && (#[trigger] before[i]).name == n;
                assert(after[i] == before[i]);
            }
            assert(after[after.len() - 1] == last);
            assert(declares(after, last.name));
            assert forall|i: int, j: int| 0 <= i < j < after.len() implies (#[trigger] after[i]).name != (
            #[trigger] after[j]).name by {
                if j == after.len() - 1 {
                    assert(before[i] == after[i]);
                } else {
                    assert(before[i] == after[i] && before[j] == after[j]);
                }
            }
        }
        assert forall|i: int| 0 <= i < more.len() implies declares(after, (#[trigger] more[i]).name) by {
            if i < more.len() - 1 {
                assert(head[i] == more[i]);
                assert(declares(before, head[i].name));
            }
        }
    }
}

/// How many passes the first `n` passes of an effect file bring: those of their
/// materials.
pub open spec fn passes_in(e: EffectView, n: nat) -> nat
    decreases n,
{
    if n == 0 {
        0
    } else {
        passes_in(e, (n - 1) as nat) + match e.resolved->0.passes[n - 1].resolved {
            Some(m) => m.len(),
            None => 0,
        }
    }
}

/// How many passes the first `n` effects of a list bring: those that are visible
/// and loaded.
pub open spec fn passes_of(effects: Seq<EffectView>, n: nat) -> nat
    decreases n,
{
    if n == 0 {
        0
    } else {
        let e = effects[n - 1];
        passes_of(effects, (n - 1) as nat) + if e.visible.value && e.resolved is Some {
            passes_in(e, e.resolved->0.passes.len())
        } else {
            0
        }
    }
}

/// How many passes the base material of an image has.
pub open spec fn base_count(image: ImageObjectView) -> nat {
    match image.material {
        Some(p) => p.len(),
        None => 0,
    }
}

/// Whether a pass is a material pass with an override put over it, blending
/// aside: each define, constant and filled texture slot of the override holds,
/// all else is the material's.
pub open spec fn carries(p: PassView, m: PassView, over: Option<PassOverrideView>) -> bool {
    &&& p.shader == m.shader
    &&& p.cullmode == m.cullmode
    &&& p.depthtest == m.depthtest
    &&& p.depthwrite == m.depthwrite
    &&& p.usertextures == m.usertextures
    &&& match over {
        None => p.combos == m.combos && p.constants == m.constants && p.textures == m.textures,
        Some(o) => {
            &&& forall|k: Seq<char>| #[trigger]
                o.combos.dom().contains(k) ==> p.combos.dom().contains(k) && p.combos[k]
                    == o.combos[k]
            &&& forall|k: Seq<char>| #[trigger]
                m.combos.dom().contains(k) && !o.combos.dom().contains(k)
                    ==> p.combos.dom().contains(k) && p.combos[k] == m.combos[k]
            &&& forall|k: Seq<char>| #[trigger]
                p.combos.dom().contains(k) ==> m.combos.dom().contains(k) || o.combos.dom().contains(k)
            &&& forall|k: Seq<char>| #[trigger]
                o.constantshadervalues.dom().contains(k) ==> p.constants.dom().contains(k)
                    && p.constants[k] == o.constantshadervalues[k]
            &&& forall|k: Seq<char>| #[trigger]
                m.constants.dom().contains(k) && !o.constantshadervalues.dom().contains(k)
                    ==> p.constants.dom().contains(k) && p.constants[k] == m.constants[k]
            &&& forall|k: Seq<char>| #[trigger]
                p.constants.dom().contains(k) ==> m.constants.dom().contains(k)
                    || o.constantshadervalues.dom().contains(k)
            &&& forall|s: int|
                0 <= s < o.textures.len() && (#[trigger] o.textures[s]) is Some ==> s < p.textures.len()
                    && p.textures[s] == o.textures[s]
            &&& forall|s: int|
                0 <= s < p.textures.len() && !(s < o.textures.len() && o.textures[s] is Some) ==> (
                #[trigger] p.textures[s]) == if s < m.textures.len() {
                    m.textures[s]
                } else {
                    None
                }
            &&& p.textures.len() >= m.textures.len()
        },
    }
}

/// An override that is applied is carried.
proof fn lemma_override_carried(m: PassView, o: PassOverrideView)
    ensures
        carries(overridden(m, o), m, Some(o)),
{
    law_override_slots(m.textures, o.textures);
    let p = overridden(m, o);
    assert forall|s: int| 0 <= s < o.textures.len() && (#[trigger] o.textures[s]) is Some implies s
        < p.textures.len() && p.textures[s] == o.textures[s] by {}
}

/// Where the passes of an effect pass stand among those of the effect.
proof fn lemma_effect_sources_at(e: EffectView, n: nat, i: int, k: int)
    requires
        e.resolved is Some,
        n <= e.resolved->0.passes.len(),
    ensures
        effect_sources(e, n).len() == passes_in(e, n),
        0 <= i < n ==> (e.resolved->0.passes[i].resolved matches Some(m) ==> 0 <= k < m.len() ==> {
            &&& 0 <= passes_in(e, i as nat) + k < passes_in(e, n)
            &&& effect_sources(e, n)[passes_in(e, i as nat) + k] == effect_pass_sources(e, i)[k]
        }),
    decreases n,
{
    if n > 0 {
        lemma_effect_sources_at(e, (n - 1) as nat, i, k);
    }
}

/// Where the passes of an effect stand among those of a list of effects.
proof fn lemma_all_sources_at(effects: Seq<EffectView>, n: nat, ei: int, j: int)
    requires
        n <= effects.len(),
    ensures
        all_effect_sources(effects.take(n as int)).len() == passes_of(effects, n),
        0 <= ei < n && effects[ei].visible.value && effects[ei].resolved is Some && 0 <= j
            < passes_in(effects[ei], effects[ei].resolved->0.passes.len()) ==> {
            &&& 0 <= passes_of(effects, ei as nat) + j < passes_of(effects, n)
            &&& all_effect_sources(effects.take(n as int))[passes_of(effects, ei as nat) + j]
                == effect_sources(effects[ei], effects[ei].resolved->0.passes.len())[j]
        },
    decreases n,
{
    let head = effects.take(n as int);
    if n > 0 {
        assert(head.drop_last() =~= effects.take(n - 1));
        assert(head.last() == effects[n - 1]);
        lemma_all_sources_at(effects, (n - 1) as nat, ei, j);
        if effects[n - 1].resolved is Some {
            lemma_effect_sources_at(
                effects[n - 1],
                effects[n - 1].resolved->0.passes.len(),
                0,
                0,
            );
        }
    }
}

/// How many passes an image is drawn in: those of its base material and of its
/// visible, loaded effects; none where it is hidden, and none where it only
/// passes on what is below it and no effect adds a pass.
pub proof fn law_plan_counts_passes(image: ImageObjectView, visible: bool)
    ensures
        !visible ==> planned(image, visible).len() == 0,
        visible && (image.model matches Some(m) && m.passthrough) && passes_of(
            image.effects,
            image.effects.len(),
        ) == 0 ==> planned(image, visible).len() == 0,
        visible && !((image.model matches Some(m) && m.passthrough) && passes_of(
            image.effects,
            image.effects.len(),
        ) == 0) ==> planned(image, visible).len() == base_count(image) + passes_of(
            image.effects,
            image.effects.len(),
        ),
{
    lemma_all_sources_at(image.effects, image.effects.len(), 0, 0);
    assert(image.effects.take(image.effects.len() as int) =~= image.effects);
}

/// The passes of the base material come first, in their order, as they are but
/// for the blending of the first and the last pass of the plan.
pub proof fn law_base_passes_come_first(image: ImageObjectView, k: int)
    requires
        image.material is Some,
        0 <= k < image.material->0.len(),
        planned(image, true).len() > 0,
    ensures
        k < planned(image, true).len(),
        carries(planned(image, true)[k].pass, image.material->0[k], None),
        planned(image, true)[k].target is None,
        planned(image, true)[k].binds.len() == 0,
        0 < k < planned(image, true).len() - 1 ==> planned(image, true)[k].pass.blending
            == image.material->0[k].blending,
{
    let v = sources(image, true);
    law_relocation_moves_blending(v, has_puppet(image));
    assert(v[k] == base_sources(image)[k]);
    assert(reblended(relocated(v, has_puppet(image))[k], v[k].pass.blending) == v[k]);
}

/// Every pass of every material of every visible, loaded effect is planned, in
/// that order, after the passes of the base material. It holds what the scene
/// sets on the effect at the position of its effect pass, renders where that
/// effect pass says, and the first of each material has the buffers that the
/// effect pass binds.
pub proof fn law_effect_passes_follow(image: ImageObjectView, ei: int, i: int, k: int)
    requires
        0 <= ei < image.effects.len(),
        image.effects[ei].visible.value,
        image.effects[ei].resolved is Some,
        0 <= i < image.effects[ei].resolved->0.passes.len(),
        image.effects[ei].resolved->0.passes[i].resolved is Some,
        0 <= k < image.effects[ei].resolved->0.passes[i].resolved->0.len(),
    ensures
        ({
            let e = image.effects[ei];
            let ep = e.resolved->0.passes[i];
            let p = planned(image, true);
            let j = base_count(image) + passes_of(image.effects, ei as nat) + passes_in(e, i as nat)
                + k;
            &&& 0 <= j < p.len()
            &&& carries(
                p[j].pass,
                ep.resolved->0[k],
                if i < e.passes.len() {
                    Some(e.passes[i])
                } else {
                    None
                },
            )
            &&& p[j].target == ep.target
            &&& 0 < j < p.len() - 1 ==> p[j].pass.blending == ep.resolved->0[k].blending
            &&& k > 0 ==> p[j].binds.len() == 0
            &&& k == 0 ==> p[j].binds == ep.bind.filter(
                |b: (Seq<char>, i64)| 0 <= b.1 <= 0xffff_ffff,
            ).map_values(|b: (Seq<char>, i64)| (b.1 as u32, b.0))
        }),
{
    let e = image.effects[ei];
    let ep = e.resolved->0.passes[i];
    let n = image.effects.len();
    let at = passes_in(e, i as nat) + k;
    lemma_effect_sources_at(e, e.resolved->0.passes.len(), i, k);
    lemma_all_sources_at(image.effects, n, ei, at);
    assert(image.effects.take(n as int) =~= image.effects);
    let v = sources(image, true);
    let j = base_count(image) + passes_of(image.effects, ei as nat) + at;
    assert(base_sources(image).len() == base_count(image));
    assert(v == base_sources(image) + all_effect_sources(image.effects));
    assert(v[j] == effect_pass_sources(e, i)[k]);
    law_relocation_moves_blending(v, has_puppet(image));
    assert(reblended(relocated(v, has_puppet(image))[j], v[j].pass.blending) == v[j]);
    if i < e.passes.len() {
        lemma_override_carried(ep.resolved->0[k], e.passes[i]);
    }
    lemma_usable_binds(ep.bind);
}

/// The binds whose index is a texture slot, in order.
proof fn lemma_usable_binds(b: Seq<(Seq<char>, i64)>)
    ensures
        usable_binds(b) == b.filter(|b: (Seq<char>, i64)| 0 <= b.1 <= 0xffff_ffff).map_values(
            |b: (Seq<char>, i64)| (b.1 as u32, b.0),
        ),
    decreases b.len(),
{
    reveal(Seq::filter);
    let kept = b.filter(|b: (Seq<char>, i64)| 0 <= b.1 <= 0xffff_ffff).map_values(
        |b: (Seq<char>, i64)| (b.1 as u32, b.0),
    );
    if b.len() > 0 {
        lemma_usable_binds(b.drop_last());
        assert(usable_binds(b) =~= kept);
    } else {
        assert(usable_binds(b) =~= kept);
    }
}

/// Blending is decided where an image meets the scene: the last of several
/// passes blends as the first pass of the base material says, and the first
/// then replaces what it draws over, unless it draws a mesh. A single pass
/// blends as it says.
pub proof fn law_plan_blends_at_the_end(image: ImageObjectView)
    requires
        image.material is Some,
        image.material->0.len() > 0,
        planned(image, true).len() > 0,
    ensures
        planned(image, true).last().pass.blending == image.material->0[0].blending,
        planned(image, true).len() > 1 && !(image.model matches Some(m) && m.puppet is Some)
            ==> planned(image, true)[0].pass.blending == Blending::Normal,
        planned(image, true).len() > 1 && (image.model matches Some(m) && m.puppet is Some)
            ==> planned(image, true)[0].pass.blending == image.material->0[0].blending,
{
    let v = sources(image, true);
    law_relocation_moves_blending(v, has_puppet(image));
    assert(v[0] == base_sources(image)[0]);
}

/// What the passes of a plan draw: the first of several copies into a buffer,
/// the last is composited into the scene, those between are plain passes.
pub proof fn law_plan_geometry(image: ImageObjectView, visible: bool, i: int)
    requires
        0 <= i < planned(image, visible).len(),
    ensures
        planned(image, visible)[i].geometry == Geometry::Scene <==> planned(
            image,
            visible,
        )[i].output is Scene,
        planned(image, visible)[i].geometry == Geometry::Copy <==> i == 0 && !(planned(
            image,
            visible,
        )[i].output is Scene),
        planned(image, visible)[i].geometry != Geometry::Puppet,
        planned(image, visible)[i].geometry != Geometry::PuppetCopy,
        planned(image, visible)[i].output matches OutputView::Fbo(d) ==> d == i % 2,
{
}

/// Every scratch buffer of a plan is one that a visible, loaded effect declares.
pub proof fn law_fbos_are_declared(effects: Seq<EffectView>, i: int)
    requires
        0 <= i < all_fbos(effects).len(),
    ensures
        exists|k: int, j: int|
            0 <= k < effects.len() && effects[k].visible.value && effects[k].resolved is Some && 0
                <= j < effects[k].resolved->0.fbos.len() && #[trigger] effects[k].resolved->0.fbos[j]
                == all_fbos(effects)[i],
    decreases effects.len(),
{
    let head = effects.drop_last();
    let before = all_fbos(head);
    let e = effects.last();
    let last = effects.len() - 1;
    assert(effects[last] == e);
    if is_drawn(e) {
        lemma_with_new_from(before, e.resolved->0.fbos, i);
    }
    if i < before.len() && all_fbos(effects)[i] == before[i] {
        law_fbos_are_declared(head, i);
        let (k, j) = choose|k: int, j: int|
            0 <= k < head.len() && head[k].visible.value && head[k].resolved is Some && 0 <= j
                < head[k].resolved->0.fbos.len() && #[trigger] head[k].resolved->0.fbos[j] == before[i];
        assert(effects[k].resolved->0.fbos[j] == all_fbos(effects)[i]);
    } else {
        let j = choose|j: int|
            0 <= j < e.resolved->0.fbos.len() && #[trigger] e.resolved->0.fbos[j] == all_fbos(
                effects,
            )[i];
        assert(effects[last].resolved->0.fbos[j] == all_fbos(effects)[i]);
    }
}

/// What adding buffers leaves in a list: the old ones in their places, then some
/// of the added ones.
proof fn lemma_with_new_from(v: Seq<FboView>, more: Seq<FboView>, i: int)
    requires
        0 <= i < with_new(v, more).len(),
    ensures
        with_new(v, more).len() >= v.len(),
        i < v.len() ==> with_new(v, more)[i] == v[i],
        i >= v.len() ==> exists|j: int| 0 <= j < more.len() && #[trigger] more[j] == with_new(
            v,
            more,
        )[i],
    decreases more.len(),
{
    if more.len() > 0 {
        let head = more.drop_last();
        let before = with_new(v, head);
        lemma_with_new_grows(v, head);
        if i < before.len() {
            lemma_with_new_from(v, head, i);
            if i >= v.len() {
                let j = choose|j: int| 0 <= j < head.len() && #[trigger] head[j] == before[i];
                assert(more[j] == with_new(v, more)[i]);
            }
        } else {
            assert(more[more.len() - 1] == with_new(v, more)[i]);
        }
    }
}

/// Adding buffers loses none.
proof fn lemma_with_new_grows(v: Seq<FboView>, more: Seq<FboView>)
    ensures
        with_new(v, more).len() >= v.len(),
    decreases more.len(),
{
    if more.len() > 0 {
        lemma_with_new_grows(v, more.drop_last());
    }
}

/// Of several scratch buffers with one name the first that a visible, loaded
/// effect declares is taken.
pub proof fn law_first_fbo_wins(effects: Seq<EffectView>, k: int, j: int)
    requires
        0 <= k < effects.len(),
        effects[k].visible.value,
        effects[k].resolved is Some,
        0 <= j < effects[k].resolved->0.fbos.len(),
        forall|a: int, b: int|
            0 <= a < k && effects[a].visible.value && effects[a].resolved is Some && 0 <= b
                < effects[a].resolved->0.fbos.len() ==> (
            #[trigger] effects[a].resolved->0.fbos[b]).name != effects[k].resolved->0.fbos[j].name,
        forall|b: int|
            0 <= b < j ==> (#[trigger] effects[k].resolved->0.fbos[b]).name
                != effects[k].resolved->0.fbos[j].name,
    ensures
        all_fbos(effects).contains(effects[k].resolved->0.fbos[j]),
    decreases effects.len(),
{
    let head = effects.drop_last();
    let before = all_fbos(head);
    let e = effects.last();
    let f = effects[k].resolved->0.fbos[j];
    if k < effects.len() - 1 {
        assert(head[k] == effects[k]);
        assert forall|a: int, b: int|
            0 <= a < k && head[a].visible.value && head[a].resolved is Some && 0 <= b
                < head[a].resolved->0.fbos.len() implies (#[trigger] head[a].resolved->0.fbos[b]).name
            != head[k].resolved->0.fbos[j].name by {
            assert(head[a] == effects[a]);
            assert(effects[a].resolved->0.fbos[b].name != f.name);
        }
        law_first_fbo_wins(head, k, j);
        let i = choose|i: int| 0 <= i < before.len() && before[i] == f;
        if is_drawn(e) {
            lemma_with_new_grows(before, e.resolved->0.fbos);
            lemma_with_new_from(before, e.resolved->0.fbos, i);
        }
        assert(all_fbos(effects)[i] == f);
    } else {
        assert(!declares(before, f.name)) by {
            if declares(before, f.name) {
                let i = choose|i: int| 0 <= i < before.len() && (#[trigger] before[i]).name == f.name;
                law_fbos_are_declared(head, i);
                let (a, b) = choose|a: int, b: int|
                    0 <= a < head.len() && head[a].visible.value && head[a].resolved is Some && 0 <= b
                        < head[a].resolved->0.fbos.len() && #[trigger] head[a].resolved->0.fbos[b]
                        == before[i];
                assert(head[a] == effects[a]);
                assert(effects[a].resolved->0.fbos[b].name != f.name);
            }
        }
        lemma_with_new_first(before, e.resolved->0.fbos, j);
    }
}

/// A buffer with a new name is added.
proof fn lemma_with_new_first(v: Seq<FboView>, more: Seq<FboView>, j: int)
    requires
        0 <= j < more.len(),
        !declares(v, more[j].name),
        forall|b: int| 0 <= b < j ==> (#[trigger] more[b]).name != more[j].name,
    ensures
        with_new(v, more).contains(more[j]),
    decreases more.len(),
{
    let head = more.drop_last();
    let before = with_new(v, head);
    let all = with_new(v, more);
    if j < more.len() - 1 {
        assert(head[j] == more[j]);
        assert forall|b: int| 0 <= b < j implies (#[trigger] head[b]).name != head[j].name by {
            assert(head[b] == more[b]);
        }
        lemma_with_new_first(v, head, j);
        let i = choose|i: int| 0 <= i < before.len() && before[i] == more[j];
        assert(all[i] == more[j]);
    } else {
        assert(!declares(before, more[j].name)) by {
            if declares(before, more[j].name) {
                let i = choose|i: int|
                    0 <= i < before.len() && (#[trigger] before[i]).name == more[j].name;
                lemma_with_new_from(v, head, i);
                if i < v.len() {
                    assert(v[i].name == more[j].name);
                } else {
                    let b = choose|b: int| 0 <= b < head.len() && #[trigger] head[b] == before[i];
                    assert(more[b].name != more[j].name);
                }
            }
        }
        assert(all[all.len() - 1] == more[j]);
    }
}

/// The plan of an image is made of the image: it is empty where that is hidden,
/// and otherwise holds what the laws above say, with the scratch buffers of its
/// effects.
pub proof fn law_plan_of_image(image: &ImageObject, visible: bool, r: ImagePlan)
    requires
        image.wf(),
        call_ensures(plan_image, (image, visible), r),
    ensures
        plan_views(r.passes@) == planned(image@, visible),
        !visible ==> r.passes@.len() == 0,
        r.passes@.len() == 0 ==> r.named_fbos@.len() == 0,
        r.passes@.len() > 0 ==> crate::material::fbo_views(r.named_fbos@) == all_fbos(
            image@.effects,
        ),
{
    assert(plan_views(r.passes@).len() == r.passes@.len());
    assert(crate::material::fbo_views(r.named_fbos@).len() == r.named_fbos@.len());
    law_plan_counts_passes(image@, visible);
}

} // verus!
