//! Material, effect and model files: the chain from effect to material to
//! pass.
use vstd::prelude::*;

use crate::fields::{flag_or, int_field, objects, scalar_or, strings, text_field, text_or};
use crate::json::{Json, JsonView, Members};
use crate::number::{Scalar, ScalarView};
use crate::table::Table;
use crate::text::same;
use crate::user::{parse_constant_values, ConstantValues, SettingView, UserSetting};
use crate::value::{coerce_i64, one, DynamicValue, DynamicView};

verus! {

/// Pass blend mode.
#[derive(Clone, Copy, Debug, PartialEq, Eq, Structural, Default)]
pub enum Blending {
    /// `"normal"`, the default.
    #[default]
    Normal,
    /// `"translucent"`.
    Translucent,
    /// `"additive"`.
    Additive,
}

/// The blend mode a text names; unknown texts are normal.
pub open spec fn blending_of(s: Seq<char>) -> Blending {
    if s == "translucent"@ {
        Blending::Translucent
    } else if s == "additive"@ {
        Blending::Additive
    } else {
        Blending::Normal
    }
}

impl Blending {
    /// Parse a blending string, defaulting on unknown values.
    pub fn parse(s: &str) -> (r: Self)
        ensures
            r == blending_of(s@),
    {
        if same(s, "translucent") {
            Blending::Translucent
        } else if same(s, "additive") {
            Blending::Additive
        } else {
            Blending::Normal
        }
    }
}

/// Face-cull mode.
#[derive(Clone, Copy, Debug, PartialEq, Eq, Structural, Default)]
pub enum CullMode {
    /// `"nocull"`, the default.
    #[default]
    NoCull,
    /// `"normal"`.
    Normal,
}

/// The cull mode a text names; unknown texts do not cull.
pub open spec fn cull_of(s: Seq<char>) -> CullMode {
    if s == "normal"@ {
        CullMode::Normal
    } else {
        CullMode::NoCull
    }
}

impl CullMode {
    /// Parse a cull-mode string, defaulting on unknown values.
    pub fn parse(s: &str) -> (r: Self)
        ensures
            r == cull_of(s@),
    {
        if same(s, "normal") {
            CullMode::Normal
        } else {
            CullMode::NoCull
        }
    }
}

/// Depth-test or depth-write toggle.
#[derive(Clone, Copy, Debug, PartialEq, Eq, Structural, Default)]
pub enum DepthMode {
    /// `"disabled"`, the default.
    #[default]
    Disabled,
    /// `"enabled"`.
    Enabled,
}

/// The depth mode a text names; unknown texts are disabled.
pub open spec fn depth_of(s: Seq<char>) -> DepthMode {
    if s == "enabled"@ {
        DepthMode::Enabled
    } else {
        DepthMode::Disabled
    }
}

impl DepthMode {
    /// Parse a depth string, defaulting on unknown values.
    pub fn parse(s: &str) -> (r: Self)
        ensures
            r == depth_of(s@),
    {
        if same(s, "enabled") {
            DepthMode::Enabled
        } else {
            DepthMode::Disabled
        }
    }
}

/// Texture slots of a pass: the index is the binding slot, an empty slot keeps
/// what the shader or the previous pass provides.
pub type TextureSlots = Vec<Option<String>>;

/// What texture slots hold.
pub open spec fn slots(v: Seq<Option<String>>) -> Seq<Option<Seq<char>>> {
    Seq::new(v.len(), |i: int| crate::fields::opt_text(v[i]))
}

/// The slot that an array element spells: `null` and the empty string are
/// empty, an object names its texture.
pub open spec fn slot_of(v: JsonView) -> Option<Seq<char>> {
    match v {
        JsonView::String(s) => if s.len() == 0 { None } else { Some(s) },
        JsonView::Object(o) => crate::fields::text_at(o, "name"@),
        _ => None,
    }
}

/// The slots that a value spells: one for each element of an array.
pub open spec fn slots_of(v: Option<JsonView>) -> Seq<Option<Seq<char>>> {
    let a = crate::json::elements(v);
    Seq::new(a.len(), |i: int| slot_of(a[i]))
}

/// Parse a `textures` array; anything else is empty.
pub fn parse_textures(value: Option<&Json>) -> (out: TextureSlots)
    ensures
        slots(out@) == slots_of(crate::json::shown(value)),
{
    let mut out: TextureSlots = Vec::new();
    match value {
        Some(Json::Array(a)) => {
            let ghost all = crate::json::views(a@);
            proof {
                crate::json::lemma_array_view(*a);
            }
            let mut i: usize = 0;
            while i < a.len()
                invariant
                    i <= a@.len(),
                    out@.len() == i,
                    all == crate::json::views(a@),
                    forall|k: int|
                        0 <= k < i ==> crate::fields::opt_text(#[trigger] out@[k]) == slot_of(all[k]),
                decreases a@.len() - i,
            {
                assert(all[i as int] == a@[i as int]@);
                let slot = match &a[i] {
                    Json::String(s) => {
                        if s.as_str().is_empty() {
                            None
                        } else {
                            Some(s.clone())
                        }
                    },
                    Json::Object(o) => {
                        proof {
                            crate::json::lemma_object_view(*o);
                        }
                        text_field(o, "name")
                    },
                    _ => None,
                };
                out.push(slot);
                i = i + 1;
            }
            assert(slots(out@) =~= slots_of(crate::json::shown(value)));
        },
        _ => {
            assert(slots(out@) =~= slots_of(crate::json::shown(value)));
        },
    }
    out
}

/// Preprocessor define names and their integers.
pub type Combos = Table<i64>;

/// The defines that a value spells: those of an object, none for anything
/// else.
pub open spec fn combos_of(v: Option<JsonView>) -> Map<Seq<char>, i64> {
    match v {
        Some(JsonView::Object(o)) => Map::new(
            |k: Seq<char>| crate::json::member(o, k) is Some,
            |k: Seq<char>| crate::fields::value_or(crate::fields::int_at(o, k), 0),
        ),
        _ => Map::empty(),
    }
}

/// Parse a `combos` object; anything else is empty. A value that is no integer
/// counts as zero.
pub fn parse_combos(value: Option<&Json>) -> (out: Combos)
    ensures
        out.wf(),
        out@ == combos_of(crate::json::shown(value)),
{
    let mut out: Combos = Table::new();
    match value {
        Some(Json::Object(obj)) => {
            let ghost all = obj@;
            proof {
                crate::json::lemma_object_view(*obj);
                assert(out@ =~= combos_of(Some(JsonView::Object(all.take(0)))));
            }
            let mut i: usize = 0;
            while i < obj.entries.len()
                invariant
                    i <= obj.entries@.len(),
                    all == obj@,
                    all.len() == obj.entries@.len(),
                    forall|i: int|
                        0 <= i < all.len() ==> (#[trigger] all[i]).0 == obj.entries@[i].0@ && all[i].1
                            == obj.entries@[i].1@,
                    out.wf(),
                    out@ == combos_of(Some(JsonView::Object(all.take(i as int)))),
                decreases obj.entries@.len() - i,
            {
                let ghost head = all.take(i as int + 1);
                assert(head.drop_last() == all.take(i as int));
                assert(head.last() == all[i as int]);
                let n: i64 = match coerce_i64(&obj.entries[i].1) {
                    Some(n) => n,
                    None => 0,
                };
                proof {
                    let k = all[i as int].0;
                    assert(combos_of(Some(JsonView::Object(head))) =~= out@.insert(k, n));
                }
                out.insert(obj.entries[i].0.as_str(), n);
                i = i + 1;
            }
            assert(all.take(all.len() as int) == all);
        },
        _ => {},
    }
    out
}

/// A material pass.
#[derive(Debug)]
pub struct Pass {
    /// `blending`, default `normal`.
    pub blending: Blending,
    /// `cullmode`, default `nocull`.
    pub cullmode: CullMode,
    /// `depthtest`, default `disabled`.
    pub depthtest: DepthMode,
    /// `depthwrite`, default `disabled`.
    pub depthwrite: DepthMode,
    /// `shader` base name: `shaders/<name>.vert` and `.frag`.
    pub shader: String,
    /// `textures` slots.
    pub textures: TextureSlots,
    /// `usertextures` slots.
    pub usertextures: TextureSlots,
    /// `combos` preprocessor defines.
    pub combos: Combos,
    /// `constantshadervalues` uniform overrides.
    pub constantshadervalues: ConstantValues,
}

/// What a [`Pass`] holds.
pub struct PassView {
    /// Blend mode.
    pub blending: Blending,
    /// Cull mode.
    pub cullmode: CullMode,
    /// Depth test.
    pub depthtest: DepthMode,
    /// Depth write.
    pub depthwrite: DepthMode,
    /// Shader base name.
    pub shader: Seq<char>,
    /// Texture slots.
    pub textures: Seq<Option<Seq<char>>>,
    /// User texture slots.
    pub usertextures: Seq<Option<Seq<char>>>,
    /// Defines.
    pub combos: Map<Seq<char>, i64>,
    /// Uniform overrides.
    pub constants: Map<Seq<char>, SettingView<DynamicView>>,
}

impl View for Pass {
    type V = PassView;

    open spec fn view(&self) -> PassView {
        PassView {
            blending: self.blending,
            cullmode: self.cullmode,
            depthtest: self.depthtest,
            depthwrite: self.depthwrite,
            shader: self.shader@,
            textures: slots(self.textures@),
            usertextures: slots(self.usertextures@),
            combos: self.combos@,
            constants: crate::user::constants(self.constantshadervalues),
        }
    }
}

/// The pass that an object spells.
pub open spec fn pass_of(o: Seq<(Seq<char>, JsonView)>) -> PassView {
    PassView {
        blending: match crate::fields::text_at(o, "blending"@) {
            Some(s) => blending_of(s),
            None => Blending::Normal,
        },
        cullmode: match crate::fields::text_at(o, "cullmode"@) {
            Some(s) => cull_of(s),
            None => CullMode::NoCull,
        },
        depthtest: match crate::fields::text_at(o, "depthtest"@) {
            Some(s) => depth_of(s),
            None => DepthMode::Disabled,
        },
        depthwrite: match crate::fields::text_at(o, "depthwrite"@) {
            Some(s) => depth_of(s),
            None => DepthMode::Disabled,
        },
        shader: crate::fields::value_or(crate::fields::text_at(o, "shader"@), ""@),
        textures: slots_of(crate::json::member(o, "textures"@)),
        usertextures: slots_of(crate::json::member(o, "usertextures"@)),
        combos: combos_of(crate::json::member(o, "combos"@)),
        constants: crate::user::constant_map(crate::json::member(o, "constantshadervalues"@)),
    }
}

/// Copies of texture slots.
pub fn copy_slots(v: &TextureSlots) -> (out: TextureSlots)
    ensures
        slots(out@) == slots(v@),
        out@.len() == v@.len(),
{
    let mut out: TextureSlots = Vec::new();
    let mut i: usize = 0;
    while i < v.len()
        invariant
            i <= v@.len(),
            out@.len() == i,
            forall|k: int|
                0 <= k < i ==> crate::fields::opt_text(#[trigger] out@[k]) == crate::fields::opt_text(
                    v@[k],
                ),
        decreases v@.len() - i,
    {
        out.push(copy_text(&v[i]));
        i = i + 1;
    }
    assert(slots(out@) =~= slots(v@));
    out
}

/// A copy of an optional text.
pub fn copy_text(s: &Option<String>) -> (r: Option<String>)
    ensures
        crate::fields::opt_text(r) == crate::fields::opt_text(*s),
{
    match s {
        Some(t) => Some(t.clone()),
        None => None,
    }
}

/// A copy of a define map.
pub fn copy_combos(c: &Combos) -> (out: Combos)
    requires
        c.wf(),
    ensures
        out.wf(),
        out@ == c@,
{
    let mut out: Combos = Table::new();
    merge_combos(&mut out, c);
    assert(Map::<Seq<char>, i64>::empty().union_prefer_right(c@) =~= c@);
    out
}

/// Put every define of `from` into `into`, in place of what was there.
pub fn merge_combos(into: &mut Combos, from: &Combos)
    requires
        old(into).wf(),
        from.wf(),
    ensures
        final(into).wf(),
        final(into)@ == old(into)@.union_prefer_right(from@),
{
    let ghost base = into@;
    let ghost e = from.entries@;
    let mut i: usize = 0;
    assert(into@ =~= base.union_prefer_right(crate::table::map_of(e.take(0))));
    while i < from.entries.len()
        invariant
            i <= from.entries@.len(),
            e == from.entries@,
            crate::table::ordered(e),
            into.wf(),
            into@ == base.union_prefer_right(crate::table::map_of(e.take(i as int))),
        decreases from.entries@.len() - i,
    {
        proof {
            crate::table::lemma_map_step(e, i as int);
            assert(base.union_prefer_right(crate::table::map_of(e.take(i as int + 1)))
                =~= base.union_prefer_right(crate::table::map_of(e.take(i as int))).insert(
                e[i as int].0@,
                e[i as int].1,
            ));
        }
        into.insert(from.entries[i].0.as_str(), from.entries[i].1);
        i = i + 1;
    }
    assert(e.take(e.len() as int) == e);
}

/// A copy of a setting of a constant.
pub fn copy_constant(us: &UserSetting<DynamicValue>) -> (r: UserSetting<DynamicValue>)
    ensures
        crate::user::setting(r) == crate::user::setting(*us),
{
    UserSetting {
        value: us.value.copy(),
        user: match &us.user {
            Some(u) => Some(u.copy()),
            None => None,
        },
        script: match &us.script {
            Some(s) => Some(s.copy()),
            None => None,
        },
    }
}

/// A copy of a map of constants.
pub fn copy_constants(c: &ConstantValues) -> (out: ConstantValues)
    requires
        c.wf(),
    ensures
        out.wf(),
        crate::user::constants(out) == crate::user::constants(*c),
{
    let mut out: ConstantValues = Table::new();
    merge_constants(&mut out, c);
    assert(crate::user::constants(out) =~= crate::user::constants(*c));
    out
}

/// Put every constant of `from` into `into`, in place of what was there.
pub fn merge_constants(into: &mut ConstantValues, from: &ConstantValues)
    requires
        old(into).wf(),
        from.wf(),
    ensures
        final(into).wf(),
        crate::user::constants(*final(into)) == crate::user::constants(*old(into)).union_prefer_right(
            crate::user::constants(*from),
        ),
{
    let ghost base = crate::user::constants(*into);
    let ghost e = from.entries@;
    let mut i: usize = 0;
    assert(crate::user::constants(*into) =~= base.union_prefer_right(constants_in(e.take(0))));
    while i < from.entries.len()
        invariant
            i <= from.entries@.len(),
            e == from.entries@,
            crate::table::ordered(e),
            into.wf(),
            crate::user::constants(*into) == base.union_prefer_right(constants_in(e.take(i as int))),
        decreases from.entries@.len() - i,
    {
        let us = copy_constant(&from.entries[i].1);
        proof {
            let k = e[i as int].0@;
            crate::table::lemma_map_step(e, i as int);
            crate::user::lemma_constants_insert(into@, k, us);
            crate::user::lemma_constants_insert(
                crate::table::map_of(e.take(i as int)),
                k,
                e[i as int].1,
            );
            assert(base.union_prefer_right(constants_in(e.take(i as int + 1)))
                =~= base.union_prefer_right(constants_in(e.take(i as int))).insert(
                k,
                crate::user::setting(us),
            ));
        }
        into.insert(from.entries[i].0.as_str(), us);
        i = i + 1;
    }
    assert(e.take(e.len() as int) == e);
}

/// What a list of constants holds.
spec fn constants_in(e: Seq<(String, UserSetting<DynamicValue>)>) -> Map<
    Seq<char>,
    SettingView<DynamicView>,
> {
    crate::table::map_of(e).map_values(|us: UserSetting<DynamicValue>| crate::user::setting(us))
}

impl Pass {
    /// The maps of the pass are well formed.
    pub open spec fn wf(&self) -> bool {
        self.combos.wf() && self.constantshadervalues.wf()
    }

    /// Parse one pass object. Missing members take their defaults, so that a
    /// malformed pass never aborts the whole load.
    pub fn parse(obj: &Members) -> (r: Pass)
        ensures
            r.wf(),
            r@ == pass_of(obj@),
    {
        Pass {
            blending: match text_field(obj, "blending") {
                Some(s) => Blending::parse(s.as_str()),
                None => Blending::Normal,
            },
            cullmode: match text_field(obj, "cullmode") {
                Some(s) => CullMode::parse(s.as_str()),
                None => CullMode::NoCull,
            },
            depthtest: match text_field(obj, "depthtest") {
                Some(s) => DepthMode::parse(s.as_str()),
                None => DepthMode::Disabled,
            },
            depthwrite: match text_field(obj, "depthwrite") {
                Some(s) => DepthMode::parse(s.as_str()),
                None => DepthMode::Disabled,
            },
            shader: text_or(obj, "shader", ""),
            textures: parse_textures(obj.get("textures")),
            usertextures: parse_textures(obj.get("usertextures")),
            combos: parse_combos(obj.get("combos")),
            constantshadervalues: parse_constant_values(obj.get("constantshadervalues")),
        }
    }

    /// An equal pass.
    pub fn copy(&self) -> (r: Pass)
        requires
            self.wf(),
        ensures
            r.wf(),
            r@ == self@,
    {
        Pass {
            blending: self.blending,
            cullmode: self.cullmode,
            depthtest: self.depthtest,
            depthwrite: self.depthwrite,
            shader: self.shader.clone(),
            textures: copy_slots(&self.textures),
            usertextures: copy_slots(&self.usertextures),
            combos: copy_combos(&self.combos),
            constantshadervalues: copy_constants(&self.constantshadervalues),
        }
    }
}

/// A material file: `{"passes": [ … ]}`.
#[derive(Debug)]
pub struct Material {
    /// The material's passes.
    pub passes: Vec<Pass>,
}

/// What a list of passes holds.
pub open spec fn pass_views(v: Seq<Pass>) -> Seq<PassView> {
    Seq::new(v.len(), |i: int| v[i]@)
}

/// What a list of objects parses to as passes.
pub open spec fn passes_of(v: Option<JsonView>) -> Seq<PassView> {
    let o = crate::fields::objects_of(v);
    Seq::new(o.len(), |i: int| pass_of(o[i]))
}

/// Every pass is well formed.
pub open spec fn passes_wf(v: Seq<Pass>) -> bool {
    forall|i: int| 0 <= i < v.len() ==> (#[trigger] v[i]).wf()
}

impl View for Material {
    type V = Seq<PassView>;

    open spec fn view(&self) -> Seq<PassView> {
        pass_views(self.passes@)
    }
}

impl Material {
    /// Every pass is well formed.
    pub open spec fn wf(&self) -> bool {
        passes_wf(self.passes@)
    }

    /// Parse a material file: the objects in its `passes` array.
    pub fn from_value(value: &Json) -> (r: Material)
        ensures
            r.wf(),
            r@ == passes_of(crate::json::field(value@, "passes"@)),
    {
        let list = objects(value.get("passes"));
        let mut passes: Vec<Pass> = Vec::new();
        let mut i: usize = 0;
        while i < list.len()
            invariant
                i <= list@.len(),
                passes@.len() == i,
                passes_wf(passes@),
                forall|k: int| 0 <= k < i ==> (#[trigger] passes@[k])@ == pass_of(list@[k]@),
            decreases list@.len() - i,
        {
            passes.push(Pass::parse(list[i]));
            i = i + 1;
        }
        let r = Material { passes };
        proof {
            let all = crate::fields::members_of(list@);
            assert(forall|k: int| 0 <= k < all.len() ==> all[k] == (#[trigger] list@[k])@);
            assert(r@ =~= passes_of(crate::json::field(value@, "passes"@)));
        }
        r
    }
}

/// A model file, which an image object's `image` field names.
#[derive(Debug)]
pub struct ModelFile {
    /// `material` path (required).
    pub material: String,
    /// `solidlayer`, default false.
    pub solidlayer: bool,
    /// `fullscreen`, default false.
    pub fullscreen: bool,
    /// `passthrough`, default false.
    pub passthrough: bool,
    /// `autosize`, default false.
    pub autosize: bool,
    /// `nopadding`, default false.
    pub nopadding: bool,
    /// `width` (optional).
    pub width: Option<i64>,
    /// `height` (optional).
    pub height: Option<i64>,
    /// `puppet` path (optional).
    pub puppet: Option<String>,
}

/// Error parsing a model file.
#[derive(Debug, PartialEq, Eq, Structural)]
pub enum ModelFileError {
    /// The required key `material` is absent or no string.
    MaterialMissing,
}

impl ModelFileError {
    /// The message of the error.
    pub fn message(&self) -> (r: String)
        ensures
            r@ == "model file: required key `material` missing"@,
    {
        "model file: required key `material` missing".to_owned()
    }
}

/// What a [`ModelFile`] holds.
pub struct ModelFileView {
    /// Material path.
    pub material: Seq<char>,
    /// Solid layer.
    pub solidlayer: bool,
    /// Full screen.
    pub fullscreen: bool,
    /// Pass-through.
    pub passthrough: bool,
    /// Automatic size.
    pub autosize: bool,
    /// No padding.
    pub nopadding: bool,
    /// Width.
    pub width: Option<i64>,
    /// Height.
    pub height: Option<i64>,
    /// Puppet path.
    pub puppet: Option<Seq<char>>,
}

impl View for ModelFile {
    type V = ModelFileView;

    open spec fn view(&self) -> ModelFileView {
        ModelFileView {
            material: self.material@,
            solidlayer: self.solidlayer,
            fullscreen: self.fullscreen,
            passthrough: self.passthrough,
            autosize: self.autosize,
            nopadding: self.nopadding,
            width: self.width,
            height: self.height,
            puppet: crate::fields::opt_text(self.puppet),
        }
    }
}

/// The members of a value, none when it is no object.
pub open spec fn members_or_none(v: JsonView) -> Seq<(Seq<char>, JsonView)> {
    match v {
        JsonView::Object(o) => o,
        _ => Seq::empty(),
    }
}

/// The model file that a value spells, when it has its `material`.
pub open spec fn model_file_of(v: JsonView) -> Option<ModelFileView> {
    let o = members_or_none(v);
    match crate::fields::text_at(o, "material"@) {
        None => None,
        Some(material) => Some(
            ModelFileView {
                material,
                solidlayer: crate::fields::value_or(crate::fields::flag_at(o, "solidlayer"@), false),
                fullscreen: crate::fields::value_or(crate::fields::flag_at(o, "fullscreen"@), false),
                passthrough: crate::fields::value_or(
                    crate::fields::flag_at(o, "passthrough"@),
                    false,
                ),
                autosize: crate::fields::value_or(crate::fields::flag_at(o, "autosize"@), false),
                nopadding: crate::fields::value_or(crate::fields::flag_at(o, "nopadding"@), false),
                width: crate::fields::int_at(o, "width"@),
                height: crate::fields::int_at(o, "height"@),
                puppet: crate::fields::text_at(o, "puppet"@),
            },
        ),
    }
}

impl ModelFile {
    /// Parse a model file. Its `material` is required.
    pub fn from_value(value: &Json) -> (r: Result<ModelFile, ModelFileError>)
        ensures
            match r {
                Ok(m) => model_file_of(value@) == Some(m@),
                Err(ModelFileError::MaterialMissing) => model_file_of(value@) is None,
            },
    {
        match value {
            Json::Object(obj) => {
                proof {
                    crate::json::lemma_object_view(*obj);
                }
                match text_field(obj, "material") {
                    None => Err(ModelFileError::MaterialMissing),
                    Some(material) => Ok(
                        ModelFile {
                            material,
                            solidlayer: flag_or(obj, "solidlayer", false),
                            fullscreen: flag_or(obj, "fullscreen", false),
                            passthrough: flag_or(obj, "passthrough", false),
                            autosize: flag_or(obj, "autosize", false),
                            nopadding: flag_or(obj, "nopadding", false),
                            width: int_field(obj, "width"),
                            height: int_field(obj, "height"),
                            puppet: text_field(obj, "puppet"),
                        },
                    ),
                }
            },
            _ => Err(ModelFileError::MaterialMissing),
        }
    }
}

/// A buffer command on an effect pass.
#[derive(Clone, Copy, Debug, PartialEq, Eq, Structural)]
pub enum PassCommand {
    /// `"copy"`: copy the source buffer to the target.
    Copy,
    /// Anything else present: swap.
    Swap,
}

/// A texture-slot bind on an effect pass.
#[derive(Debug)]
pub struct Bind {
    /// Buffer name; `"previous"` is the previous pass output.
    pub name: String,
    /// Texture slot the source binds to.
    pub index: i64,
}

/// What a list of binds holds.
pub open spec fn bind_views(v: Seq<Bind>) -> Seq<(Seq<char>, i64)> {
    Seq::new(v.len(), |i: int| (v[i].name@, v[i].index))
}

/// The binds that a list of objects spells: those with a `name` string and an
/// `index`.
pub open spec fn binds_among(o: Seq<Seq<(Seq<char>, JsonView)>>) -> Seq<(Seq<char>, i64)>
    decreases o.len(),
{
    if o.len() == 0 {
        Seq::empty()
    } else {
        let before = binds_among(o.drop_last());
        match (crate::fields::text_at(o.last(), "name"@), crate::fields::int_at(o.last(), "index"@)) {
            (Some(name), Some(index)) => before.push((name, index)),
            _ => before,
        }
    }
}

/// One pass of an effect file.
#[derive(Debug)]
pub struct EffectPass {
    /// `material` path.
    pub material: Option<String>,
    /// The loaded material.
    pub resolved: Option<Material>,
    /// `bind` entries.
    pub bind: Vec<Bind>,
    /// `command` instead of a draw.
    pub command: Option<PassCommand>,
    /// `source` buffer of a command.
    pub source: Option<String>,
    /// `target` buffer to render into instead of the chain.
    pub target: Option<String>,
}

/// What an [`EffectPass`] holds.
pub struct EffectPassView {
    /// Material path.
    pub material: Option<Seq<char>>,
    /// The passes of the loaded material.
    pub resolved: Option<Seq<PassView>>,
    /// Binds.
    pub bind: Seq<(Seq<char>, i64)>,
    /// Command.
    pub command: Option<PassCommand>,
    /// Source buffer.
    pub source: Option<Seq<char>>,
    /// Target buffer.
    pub target: Option<Seq<char>>,
}

/// What an optional material holds.
pub open spec fn opt_material(m: Option<Material>) -> Option<Seq<PassView>> {
    match m {
        Some(m) => Some(m@),
        None => None,
    }
}

/// An optional material is well formed.
pub open spec fn opt_material_wf(m: Option<Material>) -> bool {
    match m {
        Some(m) => m.wf(),
        None => true,
    }
}

impl View for EffectPass {
    type V = EffectPassView;

    open spec fn view(&self) -> EffectPassView {
        EffectPassView {
            material: crate::fields::opt_text(self.material),
            resolved: opt_material(self.resolved),
            bind: bind_views(self.bind@),
            command: self.command,
            source: crate::fields::opt_text(self.source),
            target: crate::fields::opt_text(self.target),
        }
    }
}

/// The effect pass that an object spells.
pub open spec fn effect_pass_of(o: Seq<(Seq<char>, JsonView)>) -> EffectPassView {
    EffectPassView {
        material: crate::fields::text_at(o, "material"@),
        resolved: None,
        bind: binds_among(crate::fields::objects_of(crate::json::member(o, "bind"@))),
        command: match crate::fields::text_at(o, "command"@) {
            Some(c) => Some(if c == "copy"@ { PassCommand::Copy } else { PassCommand::Swap }),
            None => None,
        },
        source: crate::fields::text_at(o, "source"@),
        target: crate::fields::text_at(o, "target"@),
    }
}

/// Parse the binds of an effect pass.
fn parse_binds(value: Option<&Json>) -> (out: Vec<Bind>)
    ensures
        bind_views(out@) == binds_among(crate::fields::objects_of(crate::json::shown(value))),
{
    let list = objects(value);
    let ghost all = crate::fields::members_of(list@);
    let mut out: Vec<Bind> = Vec::new();
    let mut i: usize = 0;
    assert(bind_views(out@) =~= Seq::<(Seq<char>, i64)>::empty());
    while i < list.len()
        invariant
            i <= list@.len(),
            all == crate::fields::members_of(list@),
            bind_views(out@) == binds_among(all.take(i as int)),
        decreases list@.len() - i,
    {
        let ghost was = bind_views(out@);
        assert(all.take(i as int + 1).drop_last() == all.take(i as int));
        assert(all.take(i as int + 1).last() == list@[i as int]@);
        match (text_field(list[i], "name"), int_field(list[i], "index")) {
            (Some(name), Some(index)) => {
                let ghost shown = name@;
                out.push(Bind { name, index });
                assert(bind_views(out@) =~= was.push((shown, index)));
            },
            _ => {},
        }
        i = i + 1;
    }
    assert(all.take(all.len() as int) == all);
    out
}

impl EffectPass {
    /// The loaded material is well formed.
    pub open spec fn wf(&self) -> bool {
        opt_material_wf(self.resolved)
    }

    /// Parse one effect-file pass.
    pub fn parse(obj: &Members) -> (r: EffectPass)
        ensures
            r.wf(),
            r@ == effect_pass_of(obj@),
    {
        let command = match text_field(obj, "command") {
            Some(c) => Some(
                if same(c.as_str(), "copy") {
                    PassCommand::Copy
                } else {
                    PassCommand::Swap
                },
            ),
            None => None,
        };
        EffectPass {
            material: text_field(obj, "material"),
            resolved: None,
            bind: parse_binds(obj.get("bind")),
            command,
            source: text_field(obj, "source"),
            target: text_field(obj, "target"),
        }
    }
}

/// A buffer declaration in an effect file.
#[derive(Debug)]
pub struct Fbo {
    /// `name` (required).
    pub name: String,
    /// `format`, default `"rgba8888"`.
    pub format: String,
    /// `scale`, a divisor of the image render size (2 is half resolution).
    pub scale: Scalar,
    /// `unique`, default false.
    pub unique: bool,
}

/// What an [`Fbo`] holds.
pub struct FboView {
    /// Name.
    pub name: Seq<char>,
    /// Format.
    pub format: Seq<char>,
    /// Size divisor.
    pub scale: ScalarView,
    /// Unique.
    pub unique: bool,
}

impl View for Fbo {
    type V = FboView;

    open spec fn view(&self) -> FboView {
        FboView {
            name: self.name@,
            format: self.format@,
            scale: self.scale@,
            unique: self.unique,
        }
    }
}

/// The buffer that an object declares, when it has its `name`.
pub open spec fn fbo_of(o: Seq<(Seq<char>, JsonView)>) -> Option<FboView> {
    match crate::fields::text_at(o, "name"@) {
        None => None,
        Some(name) => Some(
            FboView {
                name,
                format: crate::fields::value_or(crate::fields::text_at(o, "format"@), "rgba8888"@),
                scale: crate::fields::value_or(
                    crate::fields::scalar_at(o, "scale"@),
                    ScalarView::Whole(1),
                ),
                unique: crate::fields::value_or(crate::fields::flag_at(o, "unique"@), false),
            },
        ),
    }
}

/// What a list of buffers holds.
pub open spec fn fbo_views(v: Seq<Fbo>) -> Seq<FboView> {
    Seq::new(v.len(), |i: int| v[i]@)
}

/// The buffers that a list of objects declares.
pub open spec fn fbos_among(o: Seq<Seq<(Seq<char>, JsonView)>>) -> Seq<FboView>
    decreases o.len(),
{
    if o.len() == 0 {
        Seq::empty()
    } else {
        match fbo_of(o.last()) {
            Some(f) => fbos_among(o.drop_last()).push(f),
            None => fbos_among(o.drop_last()),
        }
    }
}

impl Fbo {
    /// Parse one buffer declaration; nothing without a `name`.
    pub fn parse(obj: &Members) -> (r: Option<Fbo>)
        ensures
            match r {
                Some(f) => fbo_of(obj@) == Some(f@),
                None => fbo_of(obj@) is None,
            },
    {
        match text_field(obj, "name") {
            None => None,
            Some(name) => Some(
                Fbo {
                    name,
                    format: text_or(obj, "format", "rgba8888"),
                    scale: scalar_or(obj, "scale", one()),
                    unique: flag_or(obj, "unique", false),
                },
            ),
        }
    }

    /// An equal declaration.
    pub fn copy(&self) -> (r: Fbo)
        ensures
            r@ == self@,
    {
        Fbo {
            name: self.name.clone(),
            format: self.format.clone(),
            scale: self.scale.copy(),
            unique: self.unique,
        }
    }
}

/// An effect file.
#[derive(Debug)]
pub struct EffectFile {
    /// `name`, default empty.
    pub name: String,
    /// `description`, default empty.
    pub description: String,
    /// `group`, default empty.
    pub group: String,
    /// `preview`, default empty.
    pub preview: String,
    /// `dependencies` file list.
    pub dependencies: Vec<String>,
    /// `passes`.
    pub passes: Vec<EffectPass>,
    /// `fbos` declarations.
    pub fbos: Vec<Fbo>,
}

/// What an [`EffectFile`] holds.
pub struct EffectFileView {
    /// Name.
    pub name: Seq<char>,
    /// Description.
    pub description: Seq<char>,
    /// Group.
    pub group: Seq<char>,
    /// Preview.
    pub preview: Seq<char>,
    /// File list.
    pub dependencies: Seq<Seq<char>>,
    /// Passes.
    pub passes: Seq<EffectPassView>,
    /// Buffers.
    pub fbos: Seq<FboView>,
}

/// What a list of effect passes holds.
pub open spec fn effect_pass_views(v: Seq<EffectPass>) -> Seq<EffectPassView> {
    Seq::new(v.len(), |i: int| v[i]@)
}

/// Every effect pass is well formed.
pub open spec fn effect_passes_wf(v: Seq<EffectPass>) -> bool {
    forall|i: int| 0 <= i < v.len() ==> (#[trigger] v[i]).wf()
}

impl View for EffectFile {
    type V = EffectFileView;

    open spec fn view(&self) -> EffectFileView {
        EffectFileView {
            name: self.name@,
            description: self.description@,
            group: self.group@,
            preview: self.preview@,
            dependencies: crate::text::texts(self.dependencies@),
            passes: effect_pass_views(self.passes@),
            fbos: fbo_views(self.fbos@),
        }
    }
}

/// The effect file that a value spells.
pub open spec fn effect_file_of(v: JsonView) -> EffectFileView {
    let o = members_or_none(v);
    let p = crate::fields::objects_of(crate::json::member(o, "passes"@));
    EffectFileView {
        name: crate::fields::value_or(crate::fields::text_at(o, "name"@), ""@),
        description: crate::fields::value_or(crate::fields::text_at(o, "description"@), ""@),
        group: crate::fields::value_or(crate::fields::text_at(o, "group"@), ""@),
        preview: crate::fields::value_or(crate::fields::text_at(o, "preview"@), ""@),
        dependencies: crate::fields::texts_of(crate::json::member(o, "dependencies"@)),
        passes: Seq::new(p.len(), |i: int| effect_pass_of(p[i])),
        fbos: fbos_among(crate::fields::objects_of(crate::json::member(o, "fbos"@))),
    }
}

/// Parse the passes of an effect file.
fn parse_effect_passes(value: Option<&Json>) -> (out: Vec<EffectPass>)
    ensures
        effect_passes_wf(out@),
        out@.len() == crate::fields::objects_of(crate::json::shown(value)).len(),
        forall|k: int|
            0 <= k < out@.len() ==> (#[trigger] out@[k])@ == effect_pass_of(
                crate::fields::objects_of(crate::json::shown(value))[k],
            ),
{
    let list = objects(value);
    let ghost all = crate::fields::members_of(list@);
    let mut out: Vec<EffectPass> = Vec::new();
    let mut i: usize = 0;
    while i < list.len()
        invariant
            i <= list@.len(),
            all == crate::fields::members_of(list@),
            out@.len() == i,
            effect_passes_wf(out@),
            forall|k: int| 0 <= k < i ==> (#[trigger] out@[k])@ == effect_pass_of(all[k]),
        decreases list@.len() - i,
    {
        assert(all[i as int] == list@[i as int]@);
        out.push(EffectPass::parse(list[i]));
        i = i + 1;
    }
    assert(all.len() == list@.len());
    out
}

/// Parse the buffers of an effect file.
fn parse_fbos(value: Option<&Json>) -> (out: Vec<Fbo>)
    ensures
        fbo_views(out@) == fbos_among(crate::fields::objects_of(crate::json::shown(value))),
{
    let list = objects(value);
    let ghost all = crate::fields::members_of(list@);
    let mut out: Vec<Fbo> = Vec::new();
    let mut i: usize = 0;
    assert(fbo_views(out@) =~= Seq::<FboView>::empty());
    while i < list.len()
        invariant
            i <= list@.len(),
            all == crate::fields::members_of(list@),
            fbo_views(out@) == fbos_among(all.take(i as int)),
        decreases list@.len() - i,
    {
        let ghost was = fbo_views(out@);
        assert(all.take(i as int + 1).drop_last() == all.take(i as int));
        assert(all.take(i as int + 1).last() == list@[i as int]@);
        match Fbo::parse(list[i]) {
            Some(f) => {
                let ghost shown = f@;
                out.push(f);
                assert(fbo_views(out@) =~= was.push(shown));
            },
            None => {},
        }
        i = i + 1;
    }
    assert(all.take(all.len() as int) == all);
    out
}

impl EffectFile {
    /// Every pass is well formed.
    pub open spec fn wf(&self) -> bool {
        effect_passes_wf(self.passes@)
    }

    /// Parse an effect file.
    pub fn from_value(value: &Json) -> (r: EffectFile)
        ensures
            r.wf(),
            r@ == effect_file_of(value@),
    {
        let none = Members::new();
        let obj = match value {
            Json::Object(o) => {
                proof {
                    crate::json::lemma_object_view(*o);
                }
                o
            },
            _ => &none,
        };
        assert(obj@ == members_or_none(value@));
        let passes = parse_effect_passes(obj.get("passes"));
        let r = EffectFile {
            name: text_or(obj, "name", ""),
            description: text_or(obj, "description", ""),
            group: text_or(obj, "group", ""),
            preview: text_or(obj, "preview", ""),
            dependencies: strings(obj.get("dependencies")),
            passes,
            fbos: parse_fbos(obj.get("fbos")),
        };
        assert(r@.passes =~= effect_file_of(value@).passes);
        r
    }
}

} // verus!
