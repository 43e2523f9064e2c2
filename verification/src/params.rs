//! Shader parameters: the values that a pass hands to its shaders.
use vstd::prelude::*;

use crate::material::copy_constant;
use crate::number::{Scalar, ScalarView};
use crate::table::Table;
use crate::text::same;
use crate::user::{ConstantValues, SettingView};
use crate::value::{copy_scalars, zero, DynamicValue, DynamicView};

verus! {

/// The type of a parameter.
#[derive(Clone, Copy, Debug, PartialEq, Eq, Structural)]
pub enum ParamType {
    /// A number.
    Float,
    /// A whole number.
    Int,
    /// Two numbers.
    Vec2,
    /// Three numbers.
    Vec3,
    /// Four numbers.
    Vec4,
}

/// The value of a parameter that a material leaves out.
#[derive(Debug)]
pub enum ParamDefault {
    /// A number.
    Scalar(Scalar),
    /// Several numbers.
    Vector(Vec<Scalar>),
}

/// A parameter of a shader.
#[derive(Debug)]
pub struct Parameter {
    /// Its name in the shader.
    pub name: String,
    /// The name under which a material sets it.
    pub material: String,
    /// Its type.
    pub ty: ParamType,
    /// The value where no material sets it.
    pub default: Option<ParamDefault>,
}

/// What a [`Parameter`] holds.
pub struct ParameterView {
    /// Its name in the shader.
    pub name: Seq<char>,
    /// The name under which a material sets it.
    pub material: Seq<char>,
    /// Its type.
    pub ty: ParamType,
    /// The value where no material sets it.
    pub default: Option<Seq<ScalarView>>,
}

/// The components of a default value.
pub open spec fn default_view(d: Option<ParamDefault>) -> Option<Seq<ScalarView>> {
    match d {
        Some(ParamDefault::Scalar(s)) => Some(seq![s@]),
        Some(ParamDefault::Vector(v)) => Some(crate::number::scalars(v@)),
        None => None,
    }
}

impl View for Parameter {
    type V = ParameterView;

    open spec fn view(&self) -> ParameterView {
        ParameterView {
            name: self.name@,
            material: self.material@,
            ty: self.ty,
            default: default_view(self.default),
        }
    }
}

/// What a list of parameters holds.
pub open spec fn parameter_views(v: Seq<Parameter>) -> Seq<ParameterView> {
    Seq::new(v.len(), |i: int| v[i]@)
}

/// How many components a parameter has.
pub open spec fn component_count(ty: ParamType) -> nat {
    match ty {
        ParamType::Float => 1,
        ParamType::Int => 1,
        ParamType::Vec2 => 2,
        ParamType::Vec3 => 3,
        ParamType::Vec4 => 4,
    }
}

/// How many components a parameter has.
pub fn param_len(ty: ParamType) -> (n: usize)
    ensures
        n == component_count(ty),
{
    match ty {
        ParamType::Float => 1,
        ParamType::Int => 1,
        ParamType::Vec2 => 2,
        ParamType::Vec3 => 3,
        ParamType::Vec4 => 4,
    }
}

/// The components that a value has by itself.
pub open spec fn own_components(v: DynamicView) -> Seq<ScalarView> {
    match v {
        DynamicView::Vec(c) => c,
        DynamicView::Color(c) => c,
        _ => seq![crate::value::dynamic_scalar(v)],
    }
}

/// The first `n` components, filled up with zeros.
pub open spec fn fitted(c: Seq<ScalarView>, n: nat) -> Seq<ScalarView> {
    Seq::new(
        n,
        |i: int|
            if i < c.len() {
                c[i]
            } else {
                ScalarView::Whole(0)
            },
    )
}

/// The components of a value for a parameter: as many as the parameter has.
pub fn dynamic_components(dv: &DynamicValue, ty: ParamType) -> (r: Vec<Scalar>)
    ensures
        crate::number::scalars(r@) == fitted(own_components(dv@), component_count(ty)),
{
    let own = match dv {
        DynamicValue::Vec(v) => copy_scalars(v),
        DynamicValue::Color(c) => {
            let mut v: Vec<Scalar> = Vec::new();
            v.push(c[0].copy());
            v.push(c[1].copy());
            v.push(c[2].copy());
            v.push(c[3].copy());
            assert(crate::number::scalars(v@) =~= crate::number::scalars(c@));
            v
        },
        _ => {
            let mut v: Vec<Scalar> = Vec::new();
            v.push(dv.as_f32());
            assert(crate::number::scalars(v@) =~= seq![crate::value::dynamic_scalar(dv@)]);
            v
        },
    };
    let ghost shown = own_components(dv@);
    assert(crate::number::scalars(own@) == shown);
    let n = param_len(ty);
    let mut out: Vec<Scalar> = Vec::new();
    while out.len() < n
        invariant
            out@.len() <= n,
            crate::number::scalars(own@) == shown,
            forall|i: int|
                0 <= i < out@.len() ==> (#[trigger] out@[i])@ == if i < shown.len() {
                    shown[i]
                } else {
                    ScalarView::Whole(0)
                },
        decreases n - out@.len(),
    {
        let i: usize = out.len();
        if i < own.len() {
            assert(shown[i as int] == own@[i as int]@);
            out.push(own[i].copy());
        } else {
            out.push(zero());
        }
    }
    assert(crate::number::scalars(out@) =~= fitted(shown, component_count(ty)));
    out
}

/// The components of a default value.
pub fn default_components(d: &ParamDefault) -> (r: Vec<Scalar>)
    ensures
        Some(crate::number::scalars(r@)) == default_view(Some(*d)),
{
    match d {
        ParamDefault::Scalar(s) => {
            let mut v: Vec<Scalar> = Vec::new();
            v.push(s.copy());
            assert(crate::number::scalars(v@) =~= seq![s@]);
            v
        },
        ParamDefault::Vector(v) => copy_scalars(v),
    }
}

/// The value of a parameter: what the material sets, else its default.
pub open spec fn param_value(
    p: ParameterView,
    constants: Map<Seq<char>, SettingView<DynamicView>>,
) -> Option<Seq<ScalarView>> {
    if constants.dom().contains(p.material) {
        Some(fitted(own_components(constants[p.material].value), component_count(p.ty)))
    } else {
        p.default
    }
}

/// The values of parameters by name; of two with one name the later holds.
pub open spec fn params_of(
    params: Seq<ParameterView>,
    constants: Map<Seq<char>, SettingView<DynamicView>>,
) -> Map<Seq<char>, Seq<ScalarView>>
    decreases params.len(),
{
    if params.len() == 0 {
        Map::empty()
    } else {
        let before = params_of(params.drop_last(), constants);
        match param_value(params.last(), constants) {
            Some(v) => before.insert(params.last().name, v),
            None => before,
        }
    }
}

/// Values of parameters, by name.
pub type ParamValues = Table<Vec<Scalar>>;

/// What values of parameters hold.
pub open spec fn param_values(t: ParamValues) -> Map<Seq<char>, Seq<ScalarView>> {
    t@.map_values(|v: Vec<Scalar>| crate::number::scalars(v@))
}

proof fn lemma_params_insert(m: Map<Seq<char>, Vec<Scalar>>, k: Seq<char>, v: Vec<Scalar>)
    ensures
        m.insert(k, v).map_values(|v: Vec<Scalar>| crate::number::scalars(v@)) == m.map_values(
            |v: Vec<Scalar>| crate::number::scalars(v@),
        ).insert(k, crate::number::scalars(v@)),
{
    assert(m.insert(k, v).map_values(|v: Vec<Scalar>| crate::number::scalars(v@))
        =~= m.map_values(|v: Vec<Scalar>| crate::number::scalars(v@)).insert(
        k,
        crate::number::scalars(v@),
    ));
}

/// The values that a pass hands to the parameters of a stage.
pub fn resolve_params(params: &Vec<Parameter>, constants: &ConstantValues) -> (r: ParamValues)
    requires
        constants.wf(),
    ensures
        r.wf(),
        param_values(r) == params_of(
            parameter_views(params@),
            crate::user::constants(*constants),
        ),
{
    let ghost all = parameter_views(params@);
    let ghost shown = crate::user::constants(*constants);
    let mut out: ParamValues = Table::new();
    let mut i: usize = 0;
    assert(all.take(0) =~= Seq::empty());
    assert(param_values(out) =~= Map::<Seq<char>, Seq<ScalarView>>::empty());
    while i < params.len()
        invariant
            i <= params@.len(),
            constants.wf(),
            all == parameter_views(params@),
            shown == crate::user::constants(*constants),
            out.wf(),
            param_values(out) == params_of(all.take(i as int), shown),
        decreases params@.len() - i,
    {
        assert(all.take(i + 1).drop_last() =~= all.take(i as int));
        assert(all.take(i + 1).last() == params@[i as int]@);
        let p = &params[i];
        let value = match constants.get(p.material.as_str()) {
            Some(us) => Some(dynamic_components(&us.value, p.ty)),
            None => match &p.default {
                Some(d) => Some(default_components(d)),
                None => None,
            },
        };
        if let Some(v) = value {
            proof {
                lemma_params_insert(out@, p.name@, v);
            }
            out.insert(p.name.as_str(), v);
        }
        i = i + 1;
    }
    assert(all.take(i as int) =~= all);
    out
}

/// Whether some parameter is set under a name.
pub open spec fn is_read(params: Seq<ParameterView>, name: Seq<char>) -> bool {
    exists|i: int| 0 <= i < params.len() && (#[trigger] params[i]).material == name
}

/// Whether some parameter is set under a name.
fn reads(params: &Vec<Parameter>, name: &str) -> (r: bool)
    ensures
        r == is_read(parameter_views(params@), name@),
{
    let ghost all = parameter_views(params@);
    let mut i: usize = 0;
    while i < params.len()
        invariant
            i <= params@.len(),
            all == parameter_views(params@),
            forall|k: int| 0 <= k < i ==> (#[trigger] all[k]).material != name@,
        decreases params@.len() - i,
    {
        assert(all[i as int] == params@[i as int]@);
        if same(params[i].material.as_str(), name) {
            return true;
        }
        i = i + 1;
    }
    false
}

/// Constants without those that no parameter reads.
pub open spec fn kept_constants(
    constants: Map<Seq<char>, SettingView<DynamicView>>,
    vs: Seq<ParameterView>,
    fs: Seq<ParameterView>,
) -> Map<Seq<char>, SettingView<DynamicView>> {
    constants.restrict(constants.dom().filter(|k: Seq<char>| is_read(vs, k) || is_read(fs, k)))
}

/// Drop the constants that no parameter reads.
pub fn retain_constants(
    constants: &ConstantValues,
    vs: &Vec<Parameter>,
    fs: &Vec<Parameter>,
) -> (r: ConstantValues)
    requires
        constants.wf(),
    ensures
        r.wf(),
        crate::user::constants(r) == kept_constants(
            crate::user::constants(*constants),
            parameter_views(vs@),
            parameter_views(fs@),
        ),
{
    let ghost e = constants.entries@;
    let ghost a = parameter_views(vs@);
    let ghost b = parameter_views(fs@);
    let mut out: ConstantValues = Table::new();
    let mut i: usize = 0;
    assert(crate::user::constants(out) =~= kept_constants(constants_upto(e, 0), a, b));
    while i < constants.entries.len()
        invariant
            i <= constants.entries@.len(),
            e == constants.entries@,
            crate::table::ordered(e),
            a == parameter_views(vs@),
            b == parameter_views(fs@),
            out.wf(),
            crate::user::constants(out) == kept_constants(constants_upto(e, i as int), a, b),
        decreases constants.entries@.len() - i,
    {
        let name = constants.entries[i].0.as_str();
        let ghost was = constants_upto(e, i as int);
        let ghost next = constants_upto(e, i + 1);
        proof {
            crate::table::lemma_map_step(e, i as int);
            crate::user::lemma_constants_insert(
                crate::table::map_of(e.take(i as int)),
                e[i as int].0@,
                e[i as int].1,
            );
            assert(next == was.insert(e[i as int].0@, crate::user::setting(e[i as int].1)));
        }
        if reads(vs, name) || reads(fs, name) {
            let copy = copy_constant(&constants.entries[i].1);
            proof {
                crate::user::lemma_constants_insert(out@, name@, copy);
                assert(kept_constants(next, a, b) =~= kept_constants(was, a, b).insert(
                    name@,
                    crate::user::setting(copy),
                ));
            }
            out.insert(name, copy);
        } else {
            assert(kept_constants(next, a, b) =~= kept_constants(was, a, b)) by {
                assert(!was.dom().contains(name@)) by {
                    lemma_not_before(e, i as int);
                }
            }
        }
        i = i + 1;
    }
    assert(e.take(e.len() as int) =~= e);
    out
}

/// A name in order does not stand among those before it.
proof fn lemma_not_before<V>(e: Seq<(String, V)>, i: int)
    requires
        crate::table::ordered(e),
        0 <= i < e.len(),
    ensures
        !crate::table::map_of(e.take(i)).dom().contains(e[i].0@),
{
    let name = e[i].0@;
    if crate::table::map_of(e.take(i)).dom().contains(name) {
        let j = choose|j: int| crate::table::named(e.take(i), name, j);
        assert(crate::table::named(e.take(i), name, j));
        assert(e.take(i)[j] == e[j]);
        assert(crate::text::before(e[j].0@, e[i].0@));
        crate::text::lemma_before_total(name, name);
    }
}

/// The constants of the first `n` entries.
spec fn constants_upto(e: Seq<(String, crate::user::UserSetting<DynamicValue>)>, n: int) -> Map<
    Seq<char>,
    SettingView<DynamicView>,
> {
    crate::table::map_of(e.take(n)).map_values(
        |us: crate::user::UserSetting<DynamicValue>| crate::user::setting(us),
    )
}

/// Dropping constants that no parameter reads changes no parameter.
pub proof fn law_retained_constants_suffice(
    constants: Map<Seq<char>, SettingView<DynamicView>>,
    vs: Seq<ParameterView>,
    fs: Seq<ParameterView>,
)
    ensures
        params_of(vs, kept_constants(constants, vs, fs)) == params_of(vs, constants),
        params_of(fs, kept_constants(constants, vs, fs)) == params_of(fs, constants),
{
    lemma_params_agree(vs, constants, kept_constants(constants, vs, fs));
    lemma_params_agree(fs, constants, kept_constants(constants, vs, fs));
}

/// Parameters depend only on the constants that they read.
proof fn lemma_params_agree(
    params: Seq<ParameterView>,
    a: Map<Seq<char>, SettingView<DynamicView>>,
    b: Map<Seq<char>, SettingView<DynamicView>>,
)
    requires
        forall|k: Seq<char>| #[trigger]
            is_read(params, k) ==> (a.dom().contains(k) <==> b.dom().contains(k)) && (
            a.dom().contains(k) ==> a[k] == b[k]),
    ensures
        params_of(params, a) == params_of(params, b),
    decreases params.len(),
{
    if params.len() > 0 {
        let head = params.drop_last();
        assert forall|k: Seq<char>| #[trigger] is_read(head, k) implies (a.dom().contains(k)
            <==> b.dom().contains(k)) && (a.dom().contains(k) ==> a[k] == b[k]) by {
            let i = choose|i: int| 0 <= i < head.len() && (#[trigger] head[i]).material == k;
            assert(params[i].material == k);
            assert(is_read(params, k));
        }
        lemma_params_agree(head, a, b);
        assert(params[params.len() - 1].material == params.last().material);
        assert(is_read(params, params.last().material));
    }
}

/// What stands under the name of the last parameter that has it.
proof fn lemma_param_at(
    params: Seq<ParameterView>,
    constants: Map<Seq<char>, SettingView<DynamicView>>,
    i: int,
)
    requires
        0 <= i < params.len(),
        forall|m: int| i < m < params.len() ==> (#[trigger] params[m]).name != params[i].name,
    ensures
        param_value(params[i], constants) matches Some(v) ==> params_of(
            params,
            constants,
        ).dom().contains(params[i].name) && params_of(params, constants)[params[i].name] == v,
    decreases params.len(),
{
    if i < params.len() - 1 {
        let head = params.drop_last();
        assert(params[params.len() - 1].name != params[i].name);
        assert(head[i] == params[i]);
        assert forall|m: int| i < m < head.len() implies (#[trigger] head[m]).name != head[i].name by {
            assert(head[m] == params[m]);
        }
        lemma_param_at(head, constants, i);
    }
}

/// A constant of the material is what a parameter gets, whatever its default:
/// the components of the constant, cut or filled up with zeros to the length of
/// the parameter's type.
pub proof fn law_constant_reaches_parameter(
    params: Seq<ParameterView>,
    constants: Map<Seq<char>, SettingView<DynamicView>>,
    i: int,
)
    requires
        0 <= i < params.len(),
        forall|m: int| i < m < params.len() ==> (#[trigger] params[m]).name != params[i].name,
        constants.dom().contains(params[i].material),
    ensures
        ({
            let p = params[i];
            let all = params_of(params, constants);
            let own = match constants[p.material].value {
                DynamicView::Vec(c) => c,
                DynamicView::Color(c) => c,
                DynamicView::Float(f) => seq![f],
                DynamicView::Int(n) => seq![ScalarView::Whole(n)],
                DynamicView::Null => seq![ScalarView::Whole(0)],
                DynamicView::Bool(b) => seq![crate::value::flag_scalar(b)],
                DynamicView::Str(s) => seq![crate::value::read_scalar(s)],
            };
            &&& all.dom().contains(p.name)
            &&& p.ty == ParamType::Float || p.ty == ParamType::Int ==> all[p.name].len() == 1
            &&& p.ty == ParamType::Vec2 ==> all[p.name].len() == 2
            &&& p.ty == ParamType::Vec3 ==> all[p.name].len() == 3
            &&& p.ty == ParamType::Vec4 ==> all[p.name].len() == 4
            &&& forall|k: int|
                0 <= k < all[p.name].len() && k < own.len() ==> #[trigger] all[p.name][k] == own[k]
            &&& forall|k: int|
                own.len() <= k < all[p.name].len() ==> #[trigger] all[p.name][k]
                    == ScalarView::Whole(0)
        }),
{
    lemma_param_at(params, constants, i);
}

/// A parameter whose constant the material leaves out gets its default, as it
/// is.
pub proof fn law_default_without_constant(
    params: Seq<ParameterView>,
    constants: Map<Seq<char>, SettingView<DynamicView>>,
    i: int,
)
    requires
        0 <= i < params.len(),
        forall|m: int| i < m < params.len() ==> (#[trigger] params[m]).name != params[i].name,
        !constants.dom().contains(params[i].material),
        params[i].default is Some,
    ensures
        params_of(params, constants).dom().contains(params[i].name),
        params_of(params, constants)[params[i].name] == params[i].default->0,
{
    lemma_param_at(params, constants, i);
}

/// Only parameters that have a constant or a default get a value.
pub proof fn law_values_are_of_parameters(
    params: Seq<ParameterView>,
    constants: Map<Seq<char>, SettingView<DynamicView>>,
    name: Seq<char>,
)
    requires
        params_of(params, constants).dom().contains(name),
    ensures
        exists|i: int|
            0 <= i < params.len() && (#[trigger] params[i]).name == name && (
            constants.dom().contains(params[i].material) || params[i].default is Some),
    decreases params.len(),
{
    let head = params.drop_last();
    let last = params.len() - 1;
    if params.len() > 0 {
        assert(params[last] == params.last());
        if params_of(head, constants).dom().contains(name) {
            law_values_are_of_parameters(head, constants, name);
            let i = choose|i: int|
                0 <= i < head.len() && (#[trigger] head[i]).name == name && (constants.dom().contains(
                    head[i].material,
                ) || head[i].default is Some);
            assert(params[i].name == name);
        }
    }
}

/// The constants that are kept for later are those that some parameter of either
/// stage reads, unchanged.
pub proof fn law_kept_constants(
    constants: Map<Seq<char>, SettingView<DynamicView>>,
    vs: Seq<ParameterView>,
    fs: Seq<ParameterView>,
    name: Seq<char>,
)
    ensures
        kept_constants(constants, vs, fs).dom().contains(name) <==> constants.dom().contains(name)
            && ((exists|i: int| 0 <= i < vs.len() && (#[trigger] vs[i]).material == name) || (exists|
            i: int,
        |
            0 <= i < fs.len() && (#[trigger] fs[i]).material == name)),
        kept_constants(constants, vs, fs).dom().contains(name) ==> kept_constants(
            constants,
            vs,
            fs,
        )[name] == constants[name],
{
}

/// The values of a pass are those that the laws above speak of: each parameter
/// with a constant of its name in the material gets that, and one without gets
/// its default.
pub proof fn law_values_of_pass(
    params: &Vec<Parameter>,
    constants: &ConstantValues,
    r: ParamValues,
    i: int,
)
    requires
        constants.wf(),
        call_ensures(resolve_params, (params, constants), r),
        0 <= i < params@.len(),
        forall|m: int| i < m < params@.len() ==> (#[trigger] params@[m]).name@ != params@[i].name@,
    ensures
        ({
            let held = crate::user::constants(*constants);
            let p = params@[i]@;
            &&& held.dom().contains(p.material) ==> param_values(r).dom().contains(p.name)
            &&& held.dom().contains(p.material) ==> (held[p.material].value matches DynamicView::Float(f)
                ==> param_values(r)[p.name].len() > 0 && param_values(r)[p.name][0] == f)
            &&& !held.dom().contains(p.material) && p.default is Some ==> param_values(
                r,
            ).dom().contains(p.name) && param_values(r)[p.name] == p.default->0
        }),
{
    let views = parameter_views(params@);
    let held = crate::user::constants(*constants);
    assert(views[i] == params@[i]@);
    assert forall|m: int| i < m < views.len() implies (#[trigger] views[m]).name != views[i].name by {
        assert(views[m] == params@[m]@);
    }
    if held.dom().contains(views[i].material) {
        law_constant_reaches_parameter(views, held, i);
    } else if views[i].default is Some {
        law_default_without_constant(views, held, i);
    }
}

} // verus!
