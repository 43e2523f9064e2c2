//! How two shader stages become one pass: what to translate, what the
//! translated stages must agree on, and how the pass is bound.
//!
//! Translating is done outside. A [`PassBuild`] says what to translate next and
//! takes in what came of it, until the pass is built or refused.
use vstd::prelude::*;

use crate::error::joined_message;
use crate::json::decimal_text;
use crate::material::Pass;
use crate::order::render_order;
use crate::table::Table;
use crate::text::same;
use crate::varying::{
    has_array_varying, pin_varying_locations, sanitize_glsl, strip_dead_fs_varyings, Stage,
};

verus! {

/// Why a pass cannot be built.
#[derive(Debug)]
pub enum PassBuildError {
    /// A stage does not translate.
    Translate(String),
    /// The fragment stage reads a location that the vertex stage does not
    /// write.
    InterfaceMismatch(u32),
    /// A location beyond what the device offers: the location and the limit.
    TooManyVaryings(u32, u32),
}

/// What a [`PassBuildError`] holds.
pub enum BuildErrorView {
    /// A stage does not translate.
    Translate(Seq<char>),
    /// The fragment stage reads what the vertex stage does not write.
    InterfaceMismatch(u32),
    /// A location beyond what the device offers.
    TooManyVaryings(u32, u32),
}

impl View for PassBuildError {
    type V = BuildErrorView;

    open spec fn view(&self) -> BuildErrorView {
        match self {
            PassBuildError::Translate(s) => BuildErrorView::Translate(s@),
            PassBuildError::InterfaceMismatch(l) => BuildErrorView::InterfaceMismatch(*l),
            PassBuildError::TooManyVaryings(l, m) => BuildErrorView::TooManyVaryings(*l, *m),
        }
    }
}

/// The message of a [`PassBuildError`].
pub open spec fn build_message(e: BuildErrorView) -> Seq<char> {
    match e {
        BuildErrorView::Translate(s) => s,
        BuildErrorView::InterfaceMismatch(l) =>
            "VS/FS interface mismatch: fragment reads location "@ + crate::json::decimal(l as nat)
                + " the vertex stage does not write"@,
        BuildErrorView::TooManyVaryings(l, m) => "inter-stage location "@ + crate::json::decimal(
            l as nat,
        ) + " exceeds the device limit ("@ + crate::json::decimal(m as nat) + ")"@,
    }
}

impl PassBuildError {
    /// The message for a user.
    pub fn message(&self) -> (r: String)
        ensures
            r@ == build_message(self@),
    {
        match self {
            PassBuildError::Translate(s) => s.clone(),
            PassBuildError::InterfaceMismatch(l) => {
                let n = decimal_text(*l as u64);
                let mut m = joined_message(
                    "VS/FS interface mismatch: fragment reads location ",
                    n.as_str(),
                );
                m.append(" the vertex stage does not write");
                m
            },
            PassBuildError::TooManyVaryings(l, limit) => {
                let n = decimal_text(*l as u64);
                let k = decimal_text(*limit as u64);
                let mut m = joined_message("inter-stage location ", n.as_str());
                m.append(" exceeds the device limit (");
                m.append(k.as_str());
                m.append(")");
                m
            },
        }
    }
}

/// A member of a structure in a translated module.
#[derive(Debug)]
pub struct MemberShape {
    /// Its name, where it was kept.
    pub name: Option<String>,
    /// Its offset in bytes.
    pub offset: u32,
}

/// What a translated module says of a type.
#[derive(Debug)]
pub enum TypeShape {
    /// An image.
    Image,
    /// A sampler.
    Sampler,
    /// A structure of a size in bytes.
    Block {
        /// Its members.
        members: Vec<MemberShape>,
        /// Its size.
        span: u32,
    },
    /// Anything else.
    Other,
}

/// Where a global variable lives.
#[derive(Clone, Copy, Debug, PartialEq, Eq, Structural)]
pub enum Space {
    /// In a uniform buffer.
    Uniform,
    /// Behind a handle.
    Handle,
    /// Anywhere else.
    Other,
}

/// A global variable of a translated module.
#[derive(Debug)]
pub struct GlobalShape {
    /// Its binding number, if it is bound.
    pub binding: Option<u32>,
    /// Where it lives.
    pub space: Space,
    /// Its type.
    pub ty: TypeShape,
}

/// An argument or the result of an entry point.
#[derive(Debug)]
pub struct IoShape {
    /// Its location, if it has one of its own.
    pub location: Option<u32>,
    /// The locations of its members, if it is a structure.
    pub members: Vec<Option<u32>>,
}

/// What a translated module holds, as far as a pass depends on it.
#[derive(Debug)]
pub struct ModuleShape {
    /// Its global variables.
    pub globals: Vec<GlobalShape>,
    /// The result of its entry point, if it has one.
    pub result: Option<IoShape>,
    /// The arguments of its entry point.
    pub arguments: Vec<IoShape>,
}

/// Which side of an entry point.
#[derive(Clone, Copy, Debug, PartialEq, Eq, Structural)]
pub enum IoDir {
    /// The result.
    Output,
    /// The arguments.
    Input,
}

/// Whether an argument or result takes a location: its own or, where it has
/// none, that of a member.
pub open spec fn takes(io: IoShape, loc: u32) -> bool {
    match io.location {
        Some(l) => l == loc,
        None => io.members@.contains(Some(loc)),
    }
}

/// Whether one side of an entry point takes a location.
pub open spec fn side_takes(m: ModuleShape, dir: IoDir, loc: u32) -> bool {
    match dir {
        IoDir::Output => m.result matches Some(io) && takes(io, loc),
        IoDir::Input => exists|i: int|
            0 <= i < m.arguments@.len() && takes(#[trigger] m.arguments@[i], loc),
    }
}

/// Numbers in ascending order, each once.
pub open spec fn ascending(s: Seq<u32>) -> bool {
    forall|i: int, j: int| 0 <= i < j < s.len() ==> s[i] < s[j]
}

/// Add a number to an ascending list.
fn add_ascending(out: &mut Vec<u32>, n: u32)
    requires
        ascending(old(out)@),
    ensures
        ascending(final(out)@),
        forall|x: u32| #[trigger] final(out)@.contains(x) <==> old(out)@.contains(x) || x == n,
{
    let ghost was = out@;
    let mut at: usize = 0;
    while at < out.len() && out[at] < n
        invariant
            at <= out@.len(),
            out@ == was,
            ascending(was),
            forall|k: int| 0 <= k < at ==> #[trigger] was[k] < n,
        decreases out@.len() - at,
    {
        at = at + 1;
    }
    if at < out.len() && out[at] == n {
        assert(was.contains(n));
        return;
    }
    out.insert(at, n);
    let ghost now = out@;
    proof {
        assert(now =~= was.insert(at as int, n));
        assert forall|i: int, j: int| 0 <= i < j < now.len() implies now[i] < now[j] by {
            if i == at {
                assert(now[j] == was[j - 1]);
                if j - 1 > at {
                    assert(was[at as int] < was[j - 1]);
                }
            } else if j == at {
                assert(now[i] == was[i]);
            }
        }
        assert forall|x: u32| #[trigger] now.contains(x) <==> was.contains(x) || x == n by {
            if now.contains(x) {
                let i = choose|i: int| 0 <= i < now.len() && now[i] == x;
                if i < at {
                    assert(was[i] == x);
                } else if i > at {
                    assert(was[i - 1] == x);
                }
            }
            if was.contains(x) {
                let i = choose|i: int| 0 <= i < was.len() && was[i] == x;
                assert(now[if i < at {
                    i
                } else {
                    i + 1
                }] == x);
            }
            if x == n {
                assert(now[at as int] == n);
            }
        }
    }
}

/// Collect the locations of an argument or result.
fn collect_io(out: &mut Vec<u32>, io: &IoShape)
    requires
        ascending(old(out)@),
    ensures
        ascending(final(out)@),
        forall|x: u32| #[trigger] final(out)@.contains(x) <==> old(out)@.contains(x) || takes(*io, x),
{
    match io.location {
        Some(l) => {
            add_ascending(out, l);
        },
        None => {
            let ghost was = out@;
            let mut i: usize = 0;
            while i < io.members.len()
                invariant
                    i <= io.members@.len(),
                    ascending(out@),
                    forall|x: u32| #[trigger]
                        out@.contains(x) <==> was.contains(x) || io.members@.take(
                            i as int,
                        ).contains(Some(x)),
                decreases io.members@.len() - i,
            {
                let ghost head = io.members@.take(i as int);
                assert(io.members@.take(i + 1) =~= head.push(io.members@[i as int]));
                if let Some(l) = io.members[i] {
                    add_ascending(out, l);
                }
                proof {
                    assert forall|x: u32| #[trigger]
                        out@.contains(x) <==> was.contains(x) || io.members@.take(
                            i + 1,
                        ).contains(Some(x)) by {
                        let next = head.push(io.members@[i as int]);
                        if next.contains(Some(x)) {
                            let k = choose|k: int| 0 <= k < next.len() && next[k] == Some(x);
                            if k < head.len() {
                                assert(head[k] == Some(x));
                            }
                        }
                        if head.contains(Some(x)) {
                            let k = choose|k: int| 0 <= k < head.len() && head[k] == Some(x);
                            assert(next[k] == Some(x));
                        }
                        if io.members@[i as int] == Some(x) {
                            assert(next[head.len() as int] == Some(x));
                        }
                    }
                }
                i = i + 1;
            }
            assert(io.members@.take(i as int) =~= io.members@);
        },
    }
}

/// The locations that one side of a module's entry point takes, in ascending
/// order.
pub fn io_locations(module: &ModuleShape, dir: IoDir) -> (r: Vec<u32>)
    ensures
        ascending(r@),
        forall|x: u32| #[trigger] r@.contains(x) <==> side_takes(*module, dir, x),
{
    let mut out: Vec<u32> = Vec::new();
    match dir {
        IoDir::Output => {
            if let Some(io) = &module.result {
                collect_io(&mut out, io);
            }
        },
        IoDir::Input => {
            let mut i: usize = 0;
            while i < module.arguments.len()
                invariant
                    i <= module.arguments@.len(),
                    ascending(out@),
                    forall|x: u32| #[trigger]
                        out@.contains(x) <==> exists|k: int|
                            0 <= k < i && takes(#[trigger] module.arguments@[k], x),
                decreases module.arguments@.len() - i,
            {
                let ghost was = out@;
                collect_io(&mut out, &module.arguments[i]);
                proof {
                    assert forall|x: u32| #[trigger]
                        out@.contains(x) <==> exists|k: int|
                            0 <= k < i + 1 && takes(#[trigger] module.arguments@[k], x) by {
                        assert(out@.contains(x) <==> was.contains(x) || takes(
                            module.arguments@[i as int],
                            x,
                        ));
                    }
                }
                i = i + 1;
            }
        },
    }
    out
}

/// The kind of a resource.
#[derive(Clone, Copy, Debug, PartialEq, Eq, Structural)]
pub enum BindKind {
    /// A uniform buffer.
    Ubo,
    /// A texture.
    Texture,
    /// A sampler.
    Sampler,
}

/// A resource that a module declares.
#[derive(Clone, Copy, Debug, PartialEq, Eq, Structural)]
pub struct ModuleBinding {
    /// Its binding number.
    pub binding: u32,
    /// Its kind.
    pub kind: BindKind,
}

/// The resource that a global variable declares, if it is bound and of a kind
/// that passes use.
pub open spec fn binding_of(g: GlobalShape) -> Option<ModuleBinding> {
    match g.binding {
        None => None,
        Some(binding) => match g.space {
            Space::Uniform => Some(ModuleBinding { binding, kind: BindKind::Ubo }),
            Space::Handle => match g.ty {
                TypeShape::Image => Some(ModuleBinding { binding, kind: BindKind::Texture }),
                TypeShape::Sampler => Some(ModuleBinding { binding, kind: BindKind::Sampler }),
                _ => None,
            },
            Space::Other => None,
        },
    }
}

/// The resources that global variables declare, as they stand.
pub open spec fn declared_bindings(globals: Seq<GlobalShape>) -> Seq<ModuleBinding>
    decreases globals.len(),
{
    if globals.len() == 0 {
        Seq::empty()
    } else {
        match binding_of(globals.last()) {
            Some(b) => declared_bindings(globals.drop_last()).push(b),
            None => declared_bindings(globals.drop_last()),
        }
    }
}

/// The binding numbers of resources.
pub open spec fn binding_keys(b: Seq<ModuleBinding>) -> Seq<i64> {
    Seq::new(b.len(), |i: int| b[i].binding as i64)
}

/// Whether a list holds the resources of global variables by binding number,
/// those with one number as they stand.
pub open spec fn lists_bindings(r: Seq<ModuleBinding>, globals: Seq<GlobalShape>) -> bool {
    let all = declared_bindings(globals);
    exists|order: Seq<usize>| #[trigger]
        crate::order::is_render_order(order, binding_keys(all), true, all.len()) && r
            == order.map_values(|i: usize| all[i as int])
}

/// The resources of a module by binding number.
pub fn module_bindings(module: &ModuleShape) -> (r: Vec<ModuleBinding>)
    ensures
        lists_bindings(r@, module.globals@),
{
    let mut all: Vec<ModuleBinding> = Vec::new();
    let mut keys: Vec<i64> = Vec::new();
    let mut i: usize = 0;
    assert(module.globals@.take(0) =~= Seq::empty());
    while i < module.globals.len()
        invariant
            i <= module.globals@.len(),
            all@ == declared_bindings(module.globals@.take(i as int)),
            keys@ == binding_keys(all@),
        decreases module.globals@.len() - i,
    {
        assert(module.globals@.take(i + 1).drop_last() =~= module.globals@.take(i as int));
        let g = &module.globals[i];
        let found = match g.binding {
            None => None,
            Some(binding) => match g.space {
                Space::Uniform => Some(ModuleBinding { binding, kind: BindKind::Ubo }),
                Space::Handle => match &g.ty {
                    TypeShape::Image => Some(ModuleBinding { binding, kind: BindKind::Texture }),
                    TypeShape::Sampler => Some(ModuleBinding { binding, kind: BindKind::Sampler }),
                    _ => None,
                },
                Space::Other => None,
            },
        };
        if let Some(b) = found {
            all.push(b);
            keys.push(b.binding as i64);
            assert(keys@ =~= binding_keys(all@));
        }
        i = i + 1;
    }
    assert(module.globals@.take(i as int) =~= module.globals@);
    let order = render_order(&keys, true);
    let mut out: Vec<ModuleBinding> = Vec::new();
    let mut k: usize = 0;
    while k < order.len()
        invariant
            k <= order@.len(),
            forall|j: int| 0 <= j < order@.len() ==> (#[trigger] order@[j]) < all@.len(),
            out@.len() == k,
            forall|j: int| 0 <= j < k ==> #[trigger] out@[j] == all@[order@[j] as int],
        decreases order@.len() - k,
    {
        assert(order@[k as int] < all@.len());
        out.push(all[order[k]]);
        k = k + 1;
    }
    assert(out@ =~= order@.map_values(|j: usize| all@[j as int]));
    assert(crate::order::is_render_order(order@, binding_keys(all@), true, all@.len()));
    out
}

/// The resources of a module are determined by it.
pub proof fn law_bindings_unique(
    a: Seq<ModuleBinding>,
    b: Seq<ModuleBinding>,
    globals: Seq<GlobalShape>,
)
    requires
        lists_bindings(a, globals),
        lists_bindings(b, globals),
        declared_bindings(globals).len() <= usize::MAX,
    ensures
        a == b,
{
    let all = declared_bindings(globals);
    let x = choose|order: Seq<usize>| #[trigger]
        crate::order::is_render_order(order, binding_keys(all), true, all.len()) && a
            == order.map_values(|i: usize| all[i as int]);
    let y = choose|order: Seq<usize>| #[trigger]
        crate::order::is_render_order(order, binding_keys(all), true, all.len()) && b
            == order.map_values(|i: usize| all[i as int]);
    crate::order::law_render_order_unique(x, y, binding_keys(all), true, all.len());
}

/// A member of a block of globals.
#[derive(Debug)]
pub struct GlobalMember {
    /// Its name.
    pub name: String,
    /// Its offset in bytes.
    pub offset: u32,
}

/// How a block of globals is laid out.
#[derive(Debug)]
pub struct GlobalsLayout {
    /// Its members.
    pub members: Vec<GlobalMember>,
    /// Its size in bytes.
    pub size: u32,
}

/// What a [`GlobalsLayout`] holds.
pub struct LayoutView {
    /// Names and offsets of the members.
    pub members: Seq<(Seq<char>, u32)>,
    /// Size in bytes.
    pub size: u32,
}

impl View for GlobalsLayout {
    type V = LayoutView;

    open spec fn view(&self) -> LayoutView {
        LayoutView {
            members: Seq::new(
                self.members@.len(),
                |i: int| (self.members@[i].name@, self.members@[i].offset),
            ),
            size: self.size,
        }
    }
}

/// The name of the `i`-th member of a block: its own or, where it was not
/// kept, the one declared at its place, if any.
pub open spec fn member_name(m: MemberShape, block: Seq<String>, i: int) -> Seq<char> {
    match m.name {
        Some(n) => n@,
        None => if i < block.len() {
            block[i]@
        } else {
            Seq::empty()
        },
    }
}

/// The first global variable in a uniform buffer.
pub open spec fn first_uniform(globals: Seq<GlobalShape>) -> Option<GlobalShape>
    decreases globals.len(),
{
    if globals.len() == 0 {
        None
    } else if globals[0].space == Space::Uniform {
        Some(globals[0])
    } else {
        first_uniform(globals.skip(1))
    }
}

/// The layout of a module's block of globals, where it has one.
pub open spec fn layout_of(globals: Seq<GlobalShape>, block: Seq<String>) -> Option<LayoutView> {
    match first_uniform(globals) {
        Some(g) => match g.ty {
            TypeShape::Block { members, span } => Some(
                LayoutView {
                    members: Seq::new(
                        members@.len(),
                        |i: int| (member_name(members@[i], block, i), members@[i].offset),
                    ),
                    size: span,
                },
            ),
            _ => None,
        },
        None => None,
    }
}

/// What an optional layout holds.
pub open spec fn opt_layout(l: Option<GlobalsLayout>) -> Option<LayoutView> {
    match l {
        Some(l) => Some(l@),
        None => None,
    }
}

/// The layout of a module's block of globals as it was translated. `None`
/// where the module has no such block, so that the layout has to be computed
/// from the declared names.
pub fn globals_layout(module: &ModuleShape, globals_block: &Vec<String>) -> (r: Option<
    GlobalsLayout,
>)
    ensures
        opt_layout(r) == layout_of(module.globals@, globals_block@),
{
    let mut i: usize = 0;
    assert(module.globals@.skip(0) =~= module.globals@);
    while i < module.globals.len()
        invariant
            i <= module.globals@.len(),
            first_uniform(module.globals@) == first_uniform(module.globals@.skip(i as int)),
        decreases module.globals@.len() - i,
    {
        assert(module.globals@.skip(i as int).skip(1) =~= module.globals@.skip(i + 1));
        assert(module.globals@.skip(i as int)[0] == module.globals@[i as int]);
        if module.globals[i].space == Space::Uniform {
            return match &module.globals[i].ty {
                TypeShape::Block { members, span } => {
                    let mut out: Vec<GlobalMember> = Vec::new();
                    let mut k: usize = 0;
                    while k < members.len()
                        invariant
                            k <= members@.len(),
                            out@.len() == k,
                            forall|j: int|
                                0 <= j < k ==> (#[trigger] out@[j]).name@ == member_name(
                                    members@[j],
                                    globals_block@,
                                    j,
                                ) && out@[j].offset == members@[j].offset,
                        decreases members@.len() - k,
                    {
                        let name = match &members[k].name {
                            Some(n) => n.clone(),
                            None => if k < globals_block.len() {
                                globals_block[k].clone()
                            } else {
                                let s = String::new();
                                assert(s@ =~= Seq::<char>::empty());
                                s
                            },
                        };
                        out.push(GlobalMember { name, offset: members[k].offset });
                        k = k + 1;
                    }
                    let layout = GlobalsLayout { members: out, size: *span };
                    assert(layout@.members =~= layout_of(
                        module.globals@,
                        globals_block@,
                    )->0.members);
                    Some(layout)
                },
                _ => None,
            };
        }
        i = i + 1;
    }
    None
}

/// A vertex attribute that a translated stage reads.
#[derive(Debug)]
pub struct Attribute {
    /// Its name.
    pub name: String,
    /// Its location.
    pub location: u32,
}

/// What a list of attributes holds.
pub open spec fn attribute_views(v: Seq<Attribute>) -> Seq<(Seq<char>, u32)> {
    Seq::new(v.len(), |i: int| (v[i].name@, v[i].location))
}

/// The format of a vertex attribute.
#[derive(Clone, Copy, Debug, PartialEq, Eq, Structural)]
pub enum VertexFormat {
    /// Two numbers.
    Float32x2,
    /// Three numbers.
    Float32x3,
    /// Four numbers.
    Float32x4,
}

/// Where a vertex attribute stands in a vertex.
#[derive(Clone, Copy, Debug, PartialEq, Eq, Structural)]
pub struct VertexAttribute {
    /// Its format.
    pub format: VertexFormat,
    /// Its offset in bytes.
    pub offset: u64,
    /// The location that reads it.
    pub shader_location: u32,
}

/// Size of a vertex of a layer: position, then texture coordinate.
pub const VERTEX_STRIDE: u64 = 20;

/// Size of a vertex of a model: position, normal, tangent, texture coordinate.
pub const MODEL_VERTEX_STRIDE: u64 = 48;

/// What a pass draws.
#[derive(Clone, Copy, Debug, PartialEq, Eq, Structural)]
pub enum PassKind {
    /// A flat layer.
    Flat,
    /// A mesh of a model.
    Model,
}

/// Format and offset of an attribute of a kind of pass, where it has it.
pub open spec fn attribute_slot(kind: PassKind, name: Seq<char>) -> Option<(VertexFormat, u64)> {
    match kind {
        PassKind::Flat => if name == "a_Position"@ {
            Some((VertexFormat::Float32x3, 0))
        } else if name == "a_TexCoord"@ {
            Some((VertexFormat::Float32x2, 12))
        } else {
            None
        },
        PassKind::Model => if name == "a_Position"@ {
            Some((VertexFormat::Float32x3, 0))
        } else if name == "a_Normal"@ {
            Some((VertexFormat::Float32x3, 12))
        } else if name == "a_Tangent4"@ {
            Some((VertexFormat::Float32x4, 24))
        } else if name == "a_TexCoord"@ {
            Some((VertexFormat::Float32x2, 40))
        } else {
            None
        },
    }
}

/// The first attribute that a kind of pass does not have.
pub open spec fn first_unknown(kind: PassKind, attrs: Seq<(Seq<char>, u32)>) -> Option<Seq<char>>
    decreases attrs.len(),
{
    if attrs.len() == 0 {
        None
    } else {
        match first_unknown(kind, attrs.drop_last()) {
            Some(n) => Some(n),
            None => if attribute_slot(kind, attrs.last().0) is None {
                Some(attrs.last().0)
            } else {
                None
            },
        }
    }
}

/// The location of the last attribute with a name.
pub open spec fn last_location(attrs: Seq<(Seq<char>, u32)>, name: Seq<char>) -> Option<u32>
    decreases attrs.len(),
{
    if attrs.len() == 0 {
        None
    } else if attrs.last().0 == name {
        Some(attrs.last().1)
    } else {
        last_location(attrs.drop_last(), name)
    }
}

/// The attributes of a mesh as they are declared.
pub open spec fn mesh_attributes(attrs: Seq<(Seq<char>, u32)>) -> Seq<VertexAttribute> {
    Seq::new(
        attrs.len(),
        |i: int|
            VertexAttribute {
                format: (attribute_slot(PassKind::Model, attrs[i].0)->0).0,
                offset: (attribute_slot(PassKind::Model, attrs[i].0)->0).1,
                shader_location: attrs[i].1,
            },
    )
}

/// The locations of attributes.
pub open spec fn location_keys(a: Seq<VertexAttribute>) -> Seq<i64> {
    Seq::new(a.len(), |i: int| a[i].shader_location as i64)
}

/// Whether a list holds the vertex attributes of a pass: of a layer the
/// position and, where it is read, the texture coordinate; of a mesh all that
/// are declared, by location.
pub open spec fn lists_attributes(
    r: Seq<VertexAttribute>,
    kind: PassKind,
    attrs: Seq<(Seq<char>, u32)>,
) -> bool {
    match kind {
        PassKind::Flat => {
            let pos = VertexAttribute {
                format: VertexFormat::Float32x3,
                offset: 0,
                shader_location: position_of(attrs),
            };
            r == match last_location(attrs, "a_TexCoord"@) {
                Some(uv) => seq![
                    pos,
                    VertexAttribute {
                        format: VertexFormat::Float32x2,
                        offset: 12,
                        shader_location: uv,
                    },
                ],
                None => seq![pos],
            }
        },
        PassKind::Model => {
            let all = mesh_attributes(attrs);
            exists|order: Seq<usize>| #[trigger]
                crate::order::is_render_order(order, location_keys(all), true, all.len()) && r
                    == order.map_values(|i: usize| all[i as int])
        },
    }
}

/// The location of the position; zero where it is not read.
pub open spec fn position_of(attrs: Seq<(Seq<char>, u32)>) -> u32 {
    match last_location(attrs, "a_Position"@) {
        Some(l) => l,
        None => 0,
    }
}

/// The message on an attribute that a kind of pass does not have.
pub open spec fn unknown_message(kind: PassKind, name: Seq<char>) -> Seq<char> {
    match kind {
        PassKind::Flat => "unsupported vertex attribute "@ + name,
        PassKind::Model => "unsupported model vertex attribute "@ + name,
    }
}

/// Format and offset of an attribute of a kind of pass.
fn slot_of(kind: PassKind, name: &str) -> (r: Option<(VertexFormat, u64)>)
    ensures
        r == attribute_slot(kind, name@),
{
    match kind {
        PassKind::Flat => if same(name, "a_Position") {
            Some((VertexFormat::Float32x3, 0))
        } else if same(name, "a_TexCoord") {
            Some((VertexFormat::Float32x2, 12))
        } else {
            None
        },
        PassKind::Model => if same(name, "a_Position") {
            Some((VertexFormat::Float32x3, 0))
        } else if same(name, "a_Normal") {
            Some((VertexFormat::Float32x3, 12))
        } else if same(name, "a_Tangent4") {
            Some((VertexFormat::Float32x4, 24))
        } else if same(name, "a_TexCoord") {
            Some((VertexFormat::Float32x2, 40))
        } else {
            None
        },
    }
}

/// The vertex input of a pass.
#[derive(Debug)]
pub struct VertexInput {
    /// The location of the position.
    pub pos_location: u32,
    /// The location of the texture coordinate, where it is read.
    pub uv_location: Option<u32>,
    /// The attributes of a vertex.
    pub attributes: Vec<VertexAttribute>,
    /// The size of a vertex.
    pub stride: u64,
}

/// Whether a vertex input is that of a pass with some attributes.
pub open spec fn is_input(v: VertexInput, kind: PassKind, attrs: Seq<(Seq<char>, u32)>) -> bool {
    &&& v.pos_location == position_of(attrs)
    &&& v.uv_location == last_location(attrs, "a_TexCoord"@)
    &&& lists_attributes(v.attributes@, kind, attrs)
    &&& v.stride == match kind {
        PassKind::Flat => VERTEX_STRIDE,
        PassKind::Model => MODEL_VERTEX_STRIDE,
    }
}

/// The vertex input of a pass, or the first attribute that it cannot have.
pub fn vertex_input(kind: PassKind, attributes: &Vec<Attribute>) -> (r: Result<
    VertexInput,
    PassBuildError,
>)
    ensures
        match r {
            Ok(v) => first_unknown(kind, attribute_views(attributes@)) is None && is_input(
                v,
                kind,
                attribute_views(attributes@),
            ),
            Err(e) => first_unknown(kind, attribute_views(attributes@)) matches Some(n) && e@
                == BuildErrorView::Translate(unknown_message(kind, n)),
        },
{
    let ghost attrs = attribute_views(attributes@);
    let mut pos_location: u32 = 0;
    let mut uv_location: Option<u32> = None;
    let mut all: Vec<VertexAttribute> = Vec::new();
    let mut keys: Vec<i64> = Vec::new();
    let mut i: usize = 0;
    assert(attrs.take(0) =~= Seq::empty());
    assert(attrs.take(attrs.len() as int) =~= attrs);
    while i < attributes.len()
        invariant
            i <= attributes@.len(),
            attrs == attribute_views(attributes@),
            attrs.take(attrs.len() as int) == attrs,
            first_unknown(kind, attrs.take(i as int)) is None,
            pos_location == position_of(attrs.take(i as int)),
            uv_location == last_location(attrs.take(i as int), "a_TexCoord"@),
            kind == PassKind::Model ==> all@ == mesh_attributes(attrs.take(i as int)) && keys@
                == location_keys(all@),
        decreases attributes@.len() - i,
    {
        let a = &attributes[i];
        let ghost head = attrs.take(i as int);
        let ghost next = attrs.take(i + 1);
        assert(next.drop_last() =~= head);
        assert(next.last() == (a.name@, a.location));
        match slot_of(kind, a.name.as_str()) {
            None => {
                proof {
                    lemma_unknown_prefix(kind, attrs, i + 1);
                }
                return Err(
                    PassBuildError::Translate(
                        match kind {
                            PassKind::Flat => joined_message(
                                "unsupported vertex attribute ",
                                a.name.as_str(),
                            ),
                            PassKind::Model => joined_message(
                                "unsupported model vertex attribute ",
                                a.name.as_str(),
                            ),
                        },
                    ),
                );
            },
            Some((format, offset)) => {
                if same(a.name.as_str(), "a_Position") {
                    pos_location = a.location;
                }
                if same(a.name.as_str(), "a_TexCoord") {
                    uv_location = Some(a.location);
                }
                if kind == PassKind::Model {
                    all.push(VertexAttribute { format, offset, shader_location: a.location });
                    keys.push(a.location as i64);
                    assert(all@ =~= mesh_attributes(next));
                    assert(keys@ =~= location_keys(all@));
                }
            },
        }
        i = i + 1;
    }
    let input = match kind {
        PassKind::Flat => {
            let mut attributes: Vec<VertexAttribute> = Vec::new();
            attributes.push(
                VertexAttribute {
                    format: VertexFormat::Float32x3,
                    offset: 0,
                    shader_location: pos_location,
                },
            );
            let ghost pos = attributes@[0];
            assert(attributes@ =~= seq![pos]);
            if let Some(uv) = uv_location {
                let coordinate = VertexAttribute {
                    format: VertexFormat::Float32x2,
                    offset: 12,
                    shader_location: uv,
                };
                attributes.push(coordinate);
                assert(attributes@ =~= seq![pos, coordinate]);
            }
            assert(lists_attributes(attributes@, kind, attrs));
            VertexInput { pos_location, uv_location, attributes, stride: VERTEX_STRIDE }
        },
        PassKind::Model => {
            let order = render_order(&keys, true);
            let mut attributes: Vec<VertexAttribute> = Vec::new();
            let mut k: usize = 0;
            while k < order.len()
                invariant
                    k <= order@.len(),
                    forall|j: int| 0 <= j < order@.len() ==> (#[trigger] order@[j]) < all@.len(),
                    attributes@.len() == k,
                    forall|j: int| 0 <= j < k ==> #[trigger] attributes@[j] == all@[order@[j] as int],
                decreases order@.len() - k,
            {
                assert(order@[k as int] < all@.len());
                attributes.push(all[order[k]]);
                k = k + 1;
            }
            assert(attributes@ =~= order@.map_values(|j: usize| all@[j as int]));
            assert(crate::order::is_render_order(order@, location_keys(all@), true, all@.len()));
            assert(lists_attributes(attributes@, kind, attrs));
            VertexInput { pos_location, uv_location, attributes, stride: MODEL_VERTEX_STRIDE }
        },
    };
    Ok(input)
}

/// The first unknown attribute of a beginning of the list is that of the list.
proof fn lemma_unknown_prefix(kind: PassKind, attrs: Seq<(Seq<char>, u32)>, n: int)
    requires
        0 <= n <= attrs.len(),
        first_unknown(kind, attrs.take(n)) is Some,
    ensures
        first_unknown(kind, attrs) == first_unknown(kind, attrs.take(n)),
    decreases attrs.len() - n,
{
    if n < attrs.len() {
        assert(attrs.take(n + 1).drop_last() =~= attrs.take(n));
        lemma_unknown_prefix(kind, attrs, n + 1);
    } else {
        assert(attrs.take(n) =~= attrs);
    }
}

/// Whether the fragment stage reads a location that the vertex stage does not
/// write.
pub open spec fn unwritten(vs: ModuleShape, fs: ModuleShape, loc: u32) -> bool {
    side_takes(fs, IoDir::Input, loc) && !side_takes(vs, IoDir::Output, loc)
}

/// Whether the stages do not fit.
pub open spec fn mismatched(vs: ModuleShape, fs: ModuleShape) -> bool {
    exists|loc: u32| #[trigger] unwritten(vs, fs, loc)
}

/// The lowest location that the fragment stage reads and the vertex stage does
/// not write.
pub fn first_unwritten(vs: &ModuleShape, fs: &ModuleShape) -> (r: Option<u32>)
    ensures
        match r {
            Some(l) => unwritten(*vs, *fs, l) && forall|k: u32| #[trigger]
                unwritten(*vs, *fs, k) ==> l <= k,
            None => !mismatched(*vs, *fs),
        },
{
    let outs = io_locations(vs, IoDir::Output);
    let ins = io_locations(fs, IoDir::Input);
    let mut i: usize = 0;
    while i < ins.len()
        invariant
            i <= ins@.len(),
            ascending(ins@),
            forall|x: u32| #[trigger] ins@.contains(x) <==> side_takes(*fs, IoDir::Input, x),
            forall|x: u32| #[trigger] outs@.contains(x) <==> side_takes(*vs, IoDir::Output, x),
            forall|k: int| 0 <= k < i ==> outs@.contains(#[trigger] ins@[k]),
        decreases ins@.len() - i,
    {
        let l = ins[i];
        assert(ins@.contains(l));
        if !holds(&outs, l) {
            proof {
                assert(unwritten(*vs, *fs, l));
                assert forall|k: u32| #[trigger] unwritten(*vs, *fs, k) implies l <= k by {
                    assert(ins@.contains(k));
                    let j = choose|j: int| 0 <= j < ins@.len() && ins@[j] == k;
                    if j < i {
                        assert(outs@.contains(ins@[j]));
                    } else if i < j {
                        assert(ins@[i as int] < ins@[j]);
                    }
                }
            }
            return Some(l);
        }
        i = i + 1;
    }
    assert(!mismatched(*vs, *fs)) by {
        if mismatched(*vs, *fs) {
            let loc = choose|loc: u32| #[trigger] unwritten(*vs, *fs, loc);
            assert(ins@.contains(loc));
            let j = choose|j: int| 0 <= j < ins@.len() && ins@[j] == loc;
            assert(outs@.contains(ins@[j]));
        }
    }
    None
}

/// Whether a list holds a number.
fn holds(v: &Vec<u32>, n: u32) -> (r: bool)
    ensures
        r == v@.contains(n),
{
    let mut i: usize = 0;
    while i < v.len()
        invariant
            i <= v@.len(),
            forall|k: int| 0 <= k < i ==> #[trigger] v@[k] != n,
        decreases v@.len() - i,
    {
        if v[i] == n {
            assert(v@[i as int] == n);
            return true;
        }
        i = i + 1;
    }
    false
}

/// Whether a location passes between the stages.
pub open spec fn passes_between(vs: ModuleShape, fs: ModuleShape, loc: u32) -> bool {
    side_takes(vs, IoDir::Output, loc) || side_takes(fs, IoDir::Input, loc)
}

/// The highest location that passes between the stages.
pub fn highest_location(vs: &ModuleShape, fs: &ModuleShape) -> (r: Option<u32>)
    ensures
        match r {
            Some(l) => passes_between(*vs, *fs, l) && forall|k: u32| #[trigger]
                passes_between(*vs, *fs, k) ==> k <= l,
            None => forall|k: u32| !#[trigger] passes_between(*vs, *fs, k),
        },
{
    let outs = io_locations(vs, IoDir::Output);
    let ins = io_locations(fs, IoDir::Input);
    let n: usize = outs.len();
    let m: usize = ins.len();
    proof {
        assert forall|k: u32| #[trigger] passes_between(*vs, *fs, k) <==> outs@.contains(k)
            || ins@.contains(k) by {}
        lemma_ascending_last(outs@);
        lemma_ascending_last(ins@);
        if n > 0 {
            assert(outs@.contains(outs@[n - 1]));
            assert(passes_between(*vs, *fs, outs@[n - 1]));
        }
        if m > 0 {
            assert(ins@.contains(ins@[m - 1]));
            assert(passes_between(*vs, *fs, ins@[m - 1]));
        }
    }
    if n > 0 && m > 0 {
        if outs[n - 1] >= ins[m - 1] {
            Some(outs[n - 1])
        } else {
            Some(ins[m - 1])
        }
    } else if n > 0 {
        Some(outs[n - 1])
    } else if m > 0 {
        Some(ins[m - 1])
    } else {
        None
    }
}

/// The last of ascending numbers is the greatest.
proof fn lemma_ascending_last(s: Seq<u32>)
    requires
        ascending(s),
    ensures
        forall|x: u32| #[trigger] s.contains(x) ==> s.len() > 0 && x <= s[s.len() - 1],
{
    assert forall|x: u32| #[trigger] s.contains(x) implies s.len() > 0 && x <= s[s.len() - 1] by {
        let i = choose|i: int| 0 <= i < s.len() && s[i] == x;
        if i < s.len() - 1 {
            assert(s[i] < s[s.len() - 1]);
        }
    }
}

/// Why two stages do not fit together on a device, if they do not: first a
/// location that is read and not written, then one beyond the limit.
pub open spec fn interface_error(
    vs: ModuleShape,
    fs: ModuleShape,
    limit: u32,
    e: Option<BuildErrorView>,
) -> bool {
    if mismatched(vs, fs) {
        exists|l: u32| #[trigger]
            unwritten(vs, fs, l) && (forall|k: u32| #[trigger] unwritten(vs, fs, k) ==> l <= k) && e
                == Some(BuildErrorView::InterfaceMismatch(l))
    } else if exists|l: u32| #[trigger] passes_between(vs, fs, l) && l >= limit {
        exists|l: u32| #[trigger]
            passes_between(vs, fs, l) && (forall|k: u32| #[trigger]
                passes_between(vs, fs, k) ==> k <= l) && e == Some(
                BuildErrorView::TooManyVaryings(l, limit),
            )
    } else {
        e is None
    }
}

/// What an optional error holds.
pub open spec fn opt_error(e: Option<PassBuildError>) -> Option<BuildErrorView> {
    match e {
        Some(e) => Some(e@),
        None => None,
    }
}

/// Check that two stages fit together on a device.
pub fn check_interface(vs: &ModuleShape, fs: &ModuleShape, limit: u32) -> (r: Option<
    PassBuildError,
>)
    ensures
        interface_error(*vs, *fs, limit, opt_error(r)),
{
    if let Some(l) = first_unwritten(vs, fs) {
        assert(unwritten(*vs, *fs, l));
        return Some(PassBuildError::InterfaceMismatch(l));
    }
    if let Some(l) = highest_location(vs, fs) {
        assert(passes_between(*vs, *fs, l));
        if l >= limit {
            return Some(PassBuildError::TooManyVaryings(l, limit));
        }
    }
    None
}

/// What a translation is told: the defines of the material, those forced on
/// both stages, and the texture slots that are filled.
#[derive(Debug)]
pub struct ShaderInputs {
    /// Defines of the material.
    pub combos: Table<i32>,
    /// Defines forced on both stages.
    pub override_combos: Table<i32>,
    /// Filled texture slots, in ascending order.
    pub populated_texture_slots: Vec<u32>,
}

/// What [`ShaderInputs`] hold.
pub struct InputsView {
    /// Defines of the material.
    pub combos: Map<Seq<char>, i32>,
    /// Defines forced on both stages.
    pub override_combos: Map<Seq<char>, i32>,
    /// Filled texture slots.
    pub slots: Seq<u32>,
}

impl View for ShaderInputs {
    type V = InputsView;

    open spec fn view(&self) -> InputsView {
        InputsView {
            combos: self.combos@,
            override_combos: self.override_combos@,
            slots: self.populated_texture_slots@,
        }
    }
}

impl ShaderInputs {
    /// The defines stand in order, each once.
    pub open spec fn wf(&self) -> bool {
        self.combos.wf() && self.override_combos.wf()
    }
}

/// The filled slots among the first `n`: always the first, then those with a
/// texture.
pub open spec fn filled_slots(textures: Seq<Option<String>>, n: nat) -> Seq<u32>
    decreases n,
{
    if n == 0 {
        Seq::empty()
    } else if n == 1 || textures[n - 1] is Some {
        filled_slots(textures, (n - 1) as nat).push((n - 1) as u32)
    } else {
        filled_slots(textures, (n - 1) as nat)
    }
}

/// The filled slots of a pass. The first is always filled: the input of the
/// pass goes there.
pub open spec fn slots_of(textures: Seq<Option<String>>) -> Seq<u32> {
    if textures.len() == 0 {
        seq![0u32]
    } else {
        filled_slots(textures, textures.len())
    }
}

/// Defines, as the shader sees them.
pub open spec fn narrowed(combos: Map<Seq<char>, i64>) -> Map<Seq<char>, i32> {
    combos.map_values(|v: i64| v as i32)
}

/// What the translation of a pass is told to begin with.
pub open spec fn inputs_of(pass: Pass) -> InputsView {
    InputsView {
        combos: narrowed(pass.combos@),
        override_combos: Map::empty(),
        slots: slots_of(pass.textures@),
    }
}

/// What the translation of a pass is told to begin with.
pub fn shader_inputs(pass: &Pass) -> (r: ShaderInputs)
    requires
        pass.wf(),
    ensures
        r.wf(),
        r@ == inputs_of(*pass),
{
    let mut combos: Table<i32> = Table::new();
    let ghost e = pass.combos.entries@;
    let mut i: usize = 0;
    assert(combos@ =~= narrowed(crate::table::map_of(e.take(0))));
    while i < pass.combos.entries.len()
        invariant
            i <= pass.combos.entries@.len(),
            e == pass.combos.entries@,
            crate::table::ordered(e),
            combos.wf(),
            combos@ == narrowed(crate::table::map_of(e.take(i as int))),
        decreases pass.combos.entries@.len() - i,
    {
        let v: i32 = #[verifier::truncate]
        (pass.combos.entries[i].1 as i32);
        proof {
            crate::table::lemma_map_step(e, i as int);
            assert(narrowed(crate::table::map_of(e.take(i + 1))) =~= narrowed(
                crate::table::map_of(e.take(i as int)),
            ).insert(e[i as int].0@, v));
        }
        combos.insert(pass.combos.entries[i].0.as_str(), v);
        i = i + 1;
    }
    assert(e.take(e.len() as int) =~= e);
    let mut slots: Vec<u32> = Vec::new();
    if pass.textures.len() == 0 {
        slots.push(0);
        assert(slots@ =~= slots_of(pass.textures@));
    } else {
        let mut k: usize = 0;
        while k < pass.textures.len()
            invariant
                k <= pass.textures@.len(),
                slots@ == filled_slots(pass.textures@, k as nat),
            decreases pass.textures@.len() - k,
        {
            if k == 0 || pass.textures[k].is_some() {
                slots.push(#[verifier::truncate] (k as u32));
            }
            k = k + 1;
        }
    }
    let override_combos: Table<i32> = Table::new();
    assert(override_combos@ =~= Map::<Seq<char>, i32>::empty());
    ShaderInputs { combos, override_combos, populated_texture_slots: slots }
}

/// The defines of a whole program: a define that is active in either stage is
/// active in both.
pub open spec fn united(vs: Map<Seq<char>, i32>, fs: Map<Seq<char>, i32>) -> Map<Seq<char>, i32> {
    Map::new(
        |k: Seq<char>| vs.dom().contains(k) || fs.dom().contains(k),
        |k: Seq<char>|
            if fs.dom().contains(k) && (fs[k] != 0 || !vs.dom().contains(k)) {
                fs[k]
            } else {
                vs[k]
            },
    )
}

/// The defines of a whole program.
pub fn unite_combos(vs: &Table<i32>, fs: &Table<i32>) -> (r: Table<i32>)
    requires
        vs.wf(),
        fs.wf(),
    ensures
        r.wf(),
        r@ == united(vs@, fs@),
{
    let mut out = copy_combos(vs);
    let ghost e = fs.entries@;
    let mut i: usize = 0;
    assert(out@ =~= united(vs@, crate::table::map_of(e.take(0))));
    while i < fs.entries.len()
        invariant
            i <= fs.entries@.len(),
            e == fs.entries@,
            crate::table::ordered(e),
            out.wf(),
            out@ == united(vs@, crate::table::map_of(e.take(i as int))),
            vs.wf(),
        decreases fs.entries@.len() - i,
    {
        let name = fs.entries[i].0.as_str();
        let v = fs.entries[i].1;
        proof {
            crate::table::lemma_map_step(e, i as int);
        }
        let ghost was = crate::table::map_of(e.take(i as int));
        let ghost next = crate::table::map_of(e.take(i + 1));
        let known = vs.get(name).is_some();
        if v != 0 || !known {
            out.insert(name, v);
        }
        proof {
            assert(!was.dom().contains(name@)) by {
                if was.dom().contains(name@) {
                    let j = choose|j: int| crate::table::named(e.take(i as int), name@, j);
                    assert(crate::table::named(e.take(i as int), name@, j));
                    assert(e.take(i as int)[j] == e[j]);
                    assert(crate::text::before(e[j].0@, e[i as int].0@));
                    crate::text::lemma_before_total(name@, name@);
                }
            }
            assert(out@ =~= united(vs@, next));
        }
        i = i + 1;
    }
    assert(e.take(e.len() as int) =~= e);
    out
}

/// A copy of defines.
fn copy_combos(from: &Table<i32>) -> (r: Table<i32>)
    requires
        from.wf(),
    ensures
        r.wf(),
        r@ == from@,
{
    let mut out: Table<i32> = Table::new();
    let ghost e = from.entries@;
    let mut i: usize = 0;
    assert(out@ =~= crate::table::map_of(e.take(0)));
    while i < from.entries.len()
        invariant
            i <= from.entries@.len(),
            e == from.entries@,
            crate::table::ordered(e),
            out.wf(),
            out@ == crate::table::map_of(e.take(i as int)),
        decreases from.entries@.len() - i,
    {
        proof {
            crate::table::lemma_map_step(e, i as int);
        }
        out.insert(from.entries[i].0.as_str(), from.entries[i].1);
        i = i + 1;
    }
    assert(e.take(e.len() as int) =~= e);
    out
}

/// Both stages see the same defines, and none that was active is lost.
pub proof fn law_united_defines(vs: Map<Seq<char>, i32>, fs: Map<Seq<char>, i32>, name: Seq<char>)
    requires
        vs.dom().contains(name) || fs.dom().contains(name),
    ensures
        united(vs, fs).dom().contains(name),
        fs.dom().contains(name) && fs[name] != 0 ==> united(vs, fs)[name] == fs[name],
        vs.dom().contains(name) && !(fs.dom().contains(name) && fs[name] != 0) ==> united(
            vs,
            fs,
        )[name] == vs[name],
        united(vs, fs)[name] == 0 ==> (vs.dom().contains(name) ==> vs[name] == 0) && (
        fs.dom().contains(name) ==> fs[name] == 0),
{
}

/// What came of translating one stage.
#[derive(Debug)]
pub struct Translated {
    /// The module.
    pub module: ModuleShape,
    /// The vertex attributes that it reads.
    pub attributes: Vec<Attribute>,
    /// The defines that were in force.
    pub active_combos: Table<i32>,
}

/// How far a pass is built.
#[derive(Clone, Copy, Debug, PartialEq, Eq, Structural)]
pub enum BuildPhase {
    /// Each stage is translated by itself.
    Independent,
    /// Each stage is translated by itself to learn its defines.
    Probe,
    /// Both stages are translated with the defines of the whole program.
    Program,
}

/// A pass that is being built: what to translate next.
#[derive(Debug)]
pub struct PassBuild {
    /// What the pass draws.
    pub kind: PassKind,
    /// How far it is.
    pub phase: BuildPhase,
    /// The vertex source.
    pub vs_src: String,
    /// The fragment source.
    pub fs_src: String,
    /// What the translation is told.
    pub inputs: ShaderInputs,
}

/// What a [`PassBuild`] holds.
pub struct BuildView {
    /// What the pass draws.
    pub kind: PassKind,
    /// How far it is.
    pub phase: BuildPhase,
    /// The vertex source.
    pub vs: Seq<char>,
    /// The fragment source.
    pub fs: Seq<char>,
    /// What the translation is told.
    pub inputs: InputsView,
}

impl View for PassBuild {
    type V = BuildView;

    open spec fn view(&self) -> BuildView {
        BuildView {
            kind: self.kind,
            phase: self.phase,
            vs: self.vs_src@,
            fs: self.fs_src@,
            inputs: self.inputs@,
        }
    }
}

/// How a built pass is bound.
#[derive(Debug)]
pub struct PassInterface {
    /// Its vertex input.
    pub vertex: VertexInput,
    /// The resources of the vertex stage, in the first group.
    pub g0_bindings: Vec<ModuleBinding>,
    /// The resources of the fragment stage, in the second group.
    pub g1_bindings: Vec<ModuleBinding>,
}

/// What follows a translation.
#[derive(Debug)]
pub enum BuildStep {
    /// Translate again.
    Again(PassBuild),
    /// The pass is built.
    Built(PassInterface),
    /// The pass is refused.
    Failed(PassBuildError),
}

/// Whether a source declares an array that links stages.
pub open spec fn links_array(src: Seq<char>) -> bool {
    exists|i: int| 0 <= i < crate::varying::lines_of(src).len() && crate::varying::declares_array(
        #[trigger] crate::varying::lines_of(src)[i],
    )
}

/// Two sources brought to agree: without dead declarations and, unless an
/// array stands in the way, with what links them pinned to locations.
pub open spec fn reconciled(vs: Seq<char>, fs: Seq<char>) -> (Seq<char>, Seq<char>) {
    let live = crate::varying::stripped(vs, fs);
    if links_array(vs) || links_array(live) {
        (vs, live)
    } else {
        (
            crate::varying::pinned(vs, crate::varying::linked_names(vs, live)),
            crate::varying::pinned(live, crate::varying::linked_names(vs, live)),
        )
    }
}

/// What a refused or built pass comes to.
pub open spec fn finished(
    kind: PassKind,
    vs: Translated,
    fs: Translated,
    limit: u32,
    step: BuildStep,
) -> bool {
    let attrs = attribute_views(vs.attributes@);
    match first_unknown(kind, attrs) {
        Some(n) => step matches BuildStep::Failed(e) && e@ == BuildErrorView::Translate(
            unknown_message(kind, n),
        ),
        None => match step {
            BuildStep::Again(_) => false,
            BuildStep::Failed(e) => interface_error(vs.module, fs.module, limit, Some(e@)),
            BuildStep::Built(p) => interface_error(vs.module, fs.module, limit, None) && is_input(
                p.vertex,
                kind,
                attrs,
            ) && lists_bindings(p.g0_bindings@, vs.module.globals@) && lists_bindings(
                p.g1_bindings@,
                fs.module.globals@,
            ),
        },
    }
}

/// What follows a translation in some phase. Stages that do not fit when
/// translated by themselves are brought to agree and translated with the
/// defines of the whole program.
pub open spec fn follows(
    b: BuildView,
    vs: Translated,
    fs: Translated,
    limit: u32,
    step: BuildStep,
) -> bool {
    if b.phase == BuildPhase::Independent && mismatched(vs.module, fs.module) {
        step matches BuildStep::Again(next) && next@ == (BuildView {
            phase: BuildPhase::Probe,
            vs: reconciled(b.vs, b.fs).0,
            fs: reconciled(b.vs, b.fs).1,
            ..b
        })
    } else if b.phase == BuildPhase::Probe {
        step matches BuildStep::Again(next) && next@ == (BuildView {
            phase: BuildPhase::Program,
            inputs: InputsView {
                override_combos: united(vs.active_combos@, fs.active_combos@),
                ..b.inputs
            },
            ..b
        })
    } else {
        finished(b.kind, vs, fs, limit, step)
    }
}

/// Two sources brought to agree.
fn reconcile(vs_src: &str, fs_src: &str) -> (r: (String, String))
    ensures
        (r.0@, r.1@) == reconciled(vs_src@, fs_src@),
{
    let live = strip_dead_fs_varyings(vs_src, fs_src);
    if has_array_varying(vs_src) || has_array_varying(live.as_str()) {
        (vs_src.to_owned(), live)
    } else {
        pin_varying_locations(vs_src, live.as_str())
    }
}

/// Build a pass from two translated stages, or refuse it.
fn finish(kind: PassKind, vs: &Translated, fs: &Translated, limit: u32) -> (r: BuildStep)
    ensures
        finished(kind, *vs, *fs, limit, r),
{
    let vertex = match vertex_input(kind, &vs.attributes) {
        Err(e) => {
            return BuildStep::Failed(e);
        },
        Ok(v) => v,
    };
    if let Some(e) = check_interface(&vs.module, &fs.module, limit) {
        return BuildStep::Failed(e);
    }
    BuildStep::Built(
        PassInterface {
            vertex,
            g0_bindings: module_bindings(&vs.module),
            g1_bindings: module_bindings(&fs.module),
        },
    )
}

impl PassBuild {
    /// The defines stand in order, each once.
    pub open spec fn wf(&self) -> bool {
        self.inputs.wf()
    }

    /// Take in the two translated stages. `limit` is the number of locations
    /// that the device offers between stages.
    pub fn step(self, vs: &Translated, fs: &Translated, limit: u32) -> (r: BuildStep)
        requires
            self.wf(),
            vs.active_combos.wf(),
            fs.active_combos.wf(),
        ensures
            follows(self@, *vs, *fs, limit, r),
            r matches BuildStep::Again(next) ==> next.wf(),
    {
        match self.phase {
            BuildPhase::Independent => {
                if first_unwritten(&vs.module, &fs.module).is_some() {
                    let (v, f) = reconcile(self.vs_src.as_str(), self.fs_src.as_str());
                    BuildStep::Again(
                        PassBuild {
                            kind: self.kind,
                            phase: BuildPhase::Probe,
                            vs_src: v,
                            fs_src: f,
                            inputs: self.inputs,
                        },
                    )
                } else {
                    finish(self.kind, vs, fs, limit)
                }
            },
            BuildPhase::Probe => BuildStep::Again(
                PassBuild {
                    kind: self.kind,
                    phase: BuildPhase::Program,
                    vs_src: self.vs_src,
                    fs_src: self.fs_src,
                    inputs: ShaderInputs {
                        combos: self.inputs.combos,
                        override_combos: unite_combos(&vs.active_combos, &fs.active_combos),
                        populated_texture_slots: self.inputs.populated_texture_slots,
                    },
                },
            ),
            BuildPhase::Program => finish(self.kind, vs, fs, limit),
        }
    }
}

/// Begin to build a pass of a layer: both stages are translated by
/// themselves.
pub fn build_pass(pass: &Pass, vs_src: &str, fs_src: &str) -> (r: PassBuild)
    requires
        pass.wf(),
    ensures
        r.wf(),
        r@ == (BuildView {
            kind: PassKind::Flat,
            phase: BuildPhase::Independent,
            vs: crate::varying::sanitized(vs_src@, false),
            fs: crate::varying::sanitized(fs_src@, true),
            inputs: inputs_of(*pass),
        }),
{
    PassBuild {
        kind: PassKind::Flat,
        phase: BuildPhase::Independent,
        vs_src: sanitize_glsl(vs_src, Stage::Vertex),
        fs_src: sanitize_glsl(fs_src, Stage::Fragment),
        inputs: shader_inputs(pass),
    }
}

/// Begin to build a pass of a mesh: what links the stages is pinned, and
/// the defines of both are learned first.
pub fn build_model_pass(pass: &Pass, vs_src: &str, fs_src: &str) -> (r: PassBuild)
    requires
        pass.wf(),
    ensures
        r.wf(),
        r@ == (BuildView {
            kind: PassKind::Model,
            phase: BuildPhase::Probe,
            vs: crate::varying::pinned(
                vs_src@,
                crate::varying::linked_names(vs_src@, fs_src@),
            ),
            fs: crate::varying::pinned(
                fs_src@,
                crate::varying::linked_names(vs_src@, fs_src@),
            ),
            inputs: inputs_of(*pass),
        }),
{
    let (vs, fs) = pin_varying_locations(vs_src, fs_src);
    PassBuild {
        kind: PassKind::Model,
        phase: BuildPhase::Probe,
        vs_src: vs,
        fs_src: fs,
        inputs: shader_inputs(pass),
    }
}

/// How many translations of both stages may still follow.
pub open spec fn rounds_left(phase: BuildPhase) -> nat {
    match phase {
        BuildPhase::Independent => 3,
        BuildPhase::Probe => 2,
        BuildPhase::Program => 1,
    }
}

/// Building comes to an end: every further translation brings it nearer.
pub proof fn law_build_ends(
    b: BuildView,
    vs: Translated,
    fs: Translated,
    limit: u32,
    step: BuildStep,
)
    requires
        follows(b, vs, fs, limit, step),
    ensures
        step matches BuildStep::Again(next) ==> rounds_left(next@.phase) < rounds_left(b.phase),
        b.phase == BuildPhase::Program ==> !(step is Again),
{
}

/// A built pass links: the vertex stage writes whatever the fragment stage
/// reads, every location is within the limit of the device, and every
/// attribute is one that the pass can have.
pub proof fn law_built_pass_links(
    b: BuildView,
    vs: Translated,
    fs: Translated,
    limit: u32,
    step: BuildStep,
)
    requires
        follows(b, vs, fs, limit, step),
        step is Built,
    ensures
        forall|l: u32| side_takes(fs.module, IoDir::Input, l) ==> #[trigger] side_takes(
            vs.module,
            IoDir::Output,
            l,
        ),
        forall|l: u32| #[trigger] passes_between(vs.module, fs.module, l) ==> l < limit,
        forall|i: int| 0 <= i < vs.attributes@.len() ==> attribute_slot(
            b.kind,
            (#[trigger] vs.attributes@[i]).name@,
        ) is Some,
{
    assert forall|l: u32| side_takes(fs.module, IoDir::Input, l) implies #[trigger] side_takes(
        vs.module,
        IoDir::Output,
        l,
    ) by {
        if !side_takes(vs.module, IoDir::Output, l) {
            assert(unwritten(vs.module, fs.module, l));
        }
    }
    let attrs = attribute_views(vs.attributes@);
    assert forall|i: int| 0 <= i < vs.attributes@.len() implies attribute_slot(
        b.kind,
        (#[trigger] vs.attributes@[i]).name@,
    ) is Some by {
        lemma_all_known(b.kind, attrs, i);
        assert(attrs[i].0 == vs.attributes@[i].name@);
    }
}

/// Where none is unknown, every attribute is known.
proof fn lemma_all_known(kind: PassKind, attrs: Seq<(Seq<char>, u32)>, i: int)
    requires
        first_unknown(kind, attrs) is None,
        0 <= i < attrs.len(),
    ensures
        attribute_slot(kind, attrs[i].0) is Some,
    decreases attrs.len(),
{
    if i < attrs.len() - 1 {
        assert(attrs.drop_last()[i] == attrs[i]);
        lemma_all_known(kind, attrs.drop_last(), i);
    }
}

/// The resources that global variables declare stand in order: a bound variable
/// in a uniform buffer is a buffer, one behind a handle a texture or a sampler,
/// by its type. Anything else is no resource.
pub proof fn law_declared_resources(a: Seq<GlobalShape>, b: Seq<GlobalShape>, g: GlobalShape)
    ensures
        declared_bindings(a + b) == declared_bindings(a) + declared_bindings(b),
        ({
            let r = declared_bindings(seq![g]);
            &&& g.binding is None ==> r.len() == 0
            &&& g.space == Space::Other ==> r.len() == 0
            &&& g.binding matches Some(n) ==> g.space == Space::Uniform ==> r == seq![
                ModuleBinding { binding: n, kind: BindKind::Ubo },
            ]
            &&& g.binding matches Some(n) ==> g.space == Space::Handle && g.ty is Image ==> r
                == seq![ModuleBinding { binding: n, kind: BindKind::Texture }]
            &&& g.binding matches Some(n) ==> g.space == Space::Handle && g.ty is Sampler ==> r
                == seq![ModuleBinding { binding: n, kind: BindKind::Sampler }]
            &&& g.space == Space::Handle && !(g.ty is Image) && !(g.ty is Sampler) ==> r.len() == 0
        }),
{
    lemma_declared_parts(a, b);
    assert(seq![g].drop_last() =~= Seq::<GlobalShape>::empty());
    assert(declared_bindings(Seq::<GlobalShape>::empty()) =~= Seq::<ModuleBinding>::empty());
    assert(seq![g].last() == g);
    assert(declared_bindings(seq![g]) == match binding_of(g) {
        Some(b) => Seq::<ModuleBinding>::empty().push(b),
        None => Seq::empty(),
    });
}

/// The variables of two lists declare what the lists declare.
proof fn lemma_declared_parts(a: Seq<GlobalShape>, b: Seq<GlobalShape>)
    ensures
        declared_bindings(a + b) == declared_bindings(a) + declared_bindings(b),
    decreases b.len(),
{
    if b.len() == 0 {
        assert(a + b =~= a);
        assert(declared_bindings(a) + declared_bindings(b) =~= declared_bindings(a));
    } else {
        lemma_declared_parts(a, b.drop_last());
        assert((a + b).drop_last() =~= a + b.drop_last());
        assert(declared_bindings(a + b) =~= declared_bindings(a) + declared_bindings(b));
    }
}

/// The resources of a module are all that it declares, by binding number.
pub proof fn law_resources_by_number(
    r: Seq<ModuleBinding>,
    globals: Seq<GlobalShape>,
    i: int,
    j: int,
)
    requires
        lists_bindings(r, globals),
        declared_bindings(globals).len() <= usize::MAX,
        0 <= i < j < r.len(),
    ensures
        r.len() == declared_bindings(globals).len(),
        r[i].binding <= r[j].binding,
        declared_bindings(globals).contains(r[i]),
        forall|k: int|
            0 <= k < declared_bindings(globals).len() ==> r.contains(
                #[trigger] declared_bindings(globals)[k],
            ),
{
    let all = declared_bindings(globals);
    let order = choose|order: Seq<usize>| #[trigger]
        crate::order::is_render_order(order, binding_keys(all), true, all.len()) && r
            == order.map_values(|i: usize| all[i as int]);
    crate::order::law_custom_order(order, binding_keys(all), all.len(), i, j);
    assert(order[i] < all.len());
    assert(all[order[i] as int] == r[i]);
    assert forall|k: int| 0 <= k < all.len() implies r.contains(#[trigger] all[k]) by {
        assert(order.contains(k as usize));
        let m = choose|m: int| 0 <= m < order.len() && order[m] == k as usize;
        assert(r[m] == all[k]);
    }
}

/// The block of globals is the type of the first variable in a uniform buffer,
/// where that is a structure. Its members keep their offsets, and their names or,
/// where these were not kept, those that were declared at their places.
pub proof fn law_layout_of_block(globals: Seq<GlobalShape>, block: Seq<String>, i: int)
    requires
        0 <= i < globals.len(),
        globals[i].space == Space::Uniform,
        forall|k: int| 0 <= k < i ==> (#[trigger] globals[k]).space != Space::Uniform,
    ensures
        first_uniform(globals) == Some(globals[i]),
        !(globals[i].ty is Block) ==> layout_of(globals, block) is None,
        globals[i].ty matches TypeShape::Block { members, span } ==> {
            &&& layout_of(globals, block) is Some
            &&& layout_of(globals, block)->0.size == span
            &&& layout_of(globals, block)->0.members.len() == members@.len()
            &&& forall|k: int|
                0 <= k < members@.len() ==> {
                    let (name, offset) = #[trigger] layout_of(globals, block)->0.members[k];
                    &&& offset == members@[k].offset
                    &&& members@[k].name matches Some(n) ==> name == n@
                    &&& members@[k].name is None && k < block.len() ==> name == block[k]@
                    &&& members@[k].name is None && k >= block.len() ==> name.len() == 0
                }
        },
    decreases globals.len(),
{
    if i > 0 {
        let rest = globals.skip(1);
        assert(globals[0].space != Space::Uniform);
        assert forall|k: int| 0 <= k < i - 1 implies (#[trigger] rest[k]).space
            != Space::Uniform by {
            assert(rest[k] == globals[k + 1]);
        }
        assert(rest[i - 1] == globals[i]);
        law_layout_of_block(rest, block, i - 1);
    }
}

/// How many bytes a vertex format takes.
pub open spec fn format_size(f: VertexFormat) -> int {
    match f {
        VertexFormat::Float32x2 => 8,
        VertexFormat::Float32x3 => 12,
        VertexFormat::Float32x4 => 16,
    }
}

/// The attributes of a vertex lie within it and do not overlap, and every pass
/// has a position of three numbers at the start and a texture coordinate of two
/// numbers at the end.
pub proof fn law_attributes_fill_vertex(kind: PassKind, a: Seq<char>, b: Seq<char>)
    ensures
        ({
            let stride = match kind {
                PassKind::Flat => VERTEX_STRIDE,
                PassKind::Model => MODEL_VERTEX_STRIDE,
            };
            &&& attribute_slot(kind, "a_Position"@) == Some((VertexFormat::Float32x3, 0u64))
            &&& attribute_slot(kind, "a_TexCoord"@) is Some
            &&& (attribute_slot(kind, "a_TexCoord"@)->0).0 == VertexFormat::Float32x2
            &&& (attribute_slot(kind, "a_TexCoord"@)->0).1 + 8 == stride
            &&& attribute_slot(kind, a) matches Some(x) ==> x.1 + format_size(x.0) <= stride
            &&& attribute_slot(kind, a) matches Some(x) ==> attribute_slot(kind, b) matches Some(y)
                ==> a != b ==> x.1 + format_size(x.0) <= y.1 || y.1 + format_size(y.0) <= x.1
            &&& attribute_slot(kind, a) is Some && kind == PassKind::Flat ==> a == "a_Position"@
                || a == "a_TexCoord"@
            &&& attribute_slot(kind, a) is Some && kind == PassKind::Model ==> a == "a_Position"@
                || a == "a_Normal"@ || a == "a_Tangent4"@ || a == "a_TexCoord"@
        }),
        attribute_slot(PassKind::Model, "a_Normal"@) == Some((VertexFormat::Float32x3, 12u64)),
        attribute_slot(PassKind::Model, "a_Tangent4"@) == Some((VertexFormat::Float32x4, 24u64)),
{
    reveal_strlit("a_Position");
    reveal_strlit("a_TexCoord");
    reveal_strlit("a_Normal");
    reveal_strlit("a_Tangent4");
    assert("a_Position"@[2] == 'P' && "a_TexCoord"@[2] == 'T' && "a_Normal"@[2] == 'N'
        && "a_Tangent4"@[2] == 'T' && "a_TexCoord"@[3] == 'e' && "a_Tangent4"@[3] == 'a');
}

/// A pass is refused for the first attribute that it does not have; where an
/// attribute is given twice the last one counts.
pub proof fn law_attributes_by_name(kind: PassKind, attrs: Seq<(Seq<char>, u32)>, i: int)
    requires
        0 <= i < attrs.len(),
    ensures
        attribute_slot(kind, attrs[i].0) is None && (forall|k: int|
            0 <= k < i ==> attribute_slot(kind, (#[trigger] attrs[k]).0) is Some) ==> first_unknown(
            kind,
            attrs,
        ) == Some(attrs[i].0),
        (forall|k: int|
            0 <= k < attrs.len() ==> attribute_slot(kind, (#[trigger] attrs[k]).0) is Some)
            ==> first_unknown(kind, attrs) is None,
        (forall|k: int| i < k < attrs.len() ==> (#[trigger] attrs[k]).0 != attrs[i].0)
            ==> last_location(attrs, attrs[i].0) == Some(attrs[i].1),
        forall|n: Seq<char>|
            (forall|k: int| 0 <= k < attrs.len() ==> (#[trigger] attrs[k]).0 != n)
                ==> #[trigger] last_location(attrs, n) is None,
    decreases attrs.len(),
{
    let fewer = attrs.drop_last();
    assert forall|k: int| 0 <= k < fewer.len() implies #[trigger] fewer[k] == attrs[k] by {}
    assert(attrs.last() == attrs[attrs.len() - 1]);
    lemma_known(kind, fewer);
    if i < fewer.len() {
        law_attributes_by_name(kind, fewer, i);
    }
    assert forall|n: Seq<char>|
        (forall|k: int| 0 <= k < attrs.len() ==> (#[trigger] attrs[k]).0 != n) implies
        #[trigger] last_location(attrs, n) is None by {
        lemma_no_location(attrs, n);
    }
}

/// Where every attribute is known, none is the first unknown one.
proof fn lemma_known(kind: PassKind, attrs: Seq<(Seq<char>, u32)>)
    ensures
        (forall|k: int|
            0 <= k < attrs.len() ==> attribute_slot(kind, (#[trigger] attrs[k]).0) is Some)
            ==> first_unknown(kind, attrs) is None,
    decreases attrs.len(),
{
    if attrs.len() > 0 {
        lemma_known(kind, attrs.drop_last());
        assert(attrs.last() == attrs[attrs.len() - 1]);
        if forall|k: int|
            0 <= k < attrs.len() ==> attribute_slot(kind, (#[trigger] attrs[k]).0) is Some {
            assert forall|k: int| 0 <= k < attrs.drop_last().len() implies attribute_slot(
                kind,
                (#[trigger] attrs.drop_last()[k]).0,
            ) is Some by {
                assert(attrs.drop_last()[k] == attrs[k]);
            }
        }
    }
}

/// A name that no attribute has has no location.
proof fn lemma_no_location(attrs: Seq<(Seq<char>, u32)>, n: Seq<char>)
    requires
        forall|k: int| 0 <= k < attrs.len() ==> (#[trigger] attrs[k]).0 != n,
    ensures
        last_location(attrs, n) is None,
    decreases attrs.len(),
{
    if attrs.len() > 0 {
        let fewer = attrs.drop_last();
        assert(attrs.last() == attrs[attrs.len() - 1]);
        assert forall|k: int| 0 <= k < fewer.len() implies (#[trigger] fewer[k]).0 != n by {
            assert(fewer[k] == attrs[k]);
        }
        lemma_no_location(fewer, n);
    }
}

/// The first slot of a pass is always filled, another where it has a texture;
/// the filled slots stand in order.
pub proof fn law_filled_slots(textures: Seq<Option<String>>, k: u32)
    requires
        textures.len() <= u32::MAX,
    ensures
        slots_of(textures).contains(0),
        slots_of(textures).contains(k) <==> k == 0 || (k < textures.len()
            && textures[k as int] is Some),
        ascending(slots_of(textures)),
{
    if textures.len() == 0 {
        assert(slots_of(textures)[0] == 0);
    } else {
        lemma_filled_slots(textures, textures.len(), k);
        lemma_filled_slots(textures, textures.len(), 0);
    }
}

/// The filled slots among the first.
proof fn lemma_filled_slots(textures: Seq<Option<String>>, n: nat, k: u32)
    requires
        n <= textures.len() <= u32::MAX,
    ensures
        filled_slots(textures, n).contains(k) <==> k < n && (k == 0 || textures[k as int] is Some),
        ascending(filled_slots(textures, n)),
        forall|i: int|
            0 <= i < filled_slots(textures, n).len() ==> (#[trigger] filled_slots(textures, n)[i])
                < n,
    decreases n,
{
    if n > 0 {
        lemma_filled_slots(textures, (n - 1) as nat, k);
        let before = filled_slots(textures, (n - 1) as nat);
        let now = filled_slots(textures, n);
        if n == 1 || textures[n - 1] is Some {
            assert(now == before.push((n - 1) as u32));
            if before.contains(k) {
                let i = choose|i: int| 0 <= i < before.len() && before[i] == k;
                assert(now[i] == k);
            }
            if k == n - 1 {
                assert(now[before.len() as int] == k);
            }
            if now.contains(k) && k != n - 1 {
                let i = choose|i: int| 0 <= i < now.len() && now[i] == k;
                assert(before[i] == k);
            }
        }
    }
}

/// What the translation of a pass is told: its defines by name and value, none
/// that are forced, and its filled slots.
pub proof fn law_inputs_of_pass(pass: Pass, name: Seq<char>)
    requires
        pass.combos@.dom().contains(name),
    ensures
        inputs_of(pass).combos.dom() == pass.combos@.dom(),
        i32::MIN <= pass.combos@[name] <= i32::MAX ==> inputs_of(pass).combos[name]
            == pass.combos@[name],
        inputs_of(pass).override_combos.dom() == Set::<Seq<char>>::empty(),
        inputs_of(pass).slots == slots_of(pass.textures@),
{
    assert(inputs_of(pass).combos.dom() =~= pass.combos@.dom());
    assert(inputs_of(pass).override_combos.dom() =~= Set::<Seq<char>>::empty());
}

/// Stages fit where the vertex stage writes whatever the fragment stage reads and
/// no location is beyond the limit; otherwise the least location that is not
/// written, or the greatest that there is, is named.
pub proof fn law_interface_errors(
    vs: ModuleShape,
    fs: ModuleShape,
    limit: u32,
    e: Option<BuildErrorView>,
)
    requires
        interface_error(vs, fs, limit, e),
    ensures
        e is None <==> (forall|l: u32| #[trigger]
            side_takes(fs, IoDir::Input, l) ==> side_takes(vs, IoDir::Output, l)) && (forall|
            l: u32,
        |
            #[trigger] side_takes(fs, IoDir::Input, l) || side_takes(vs, IoDir::Output, l) ==> l
                < limit),
        e matches Some(BuildErrorView::InterfaceMismatch(l)) ==> side_takes(fs, IoDir::Input, l)
            && !side_takes(vs, IoDir::Output, l) && forall|k: u32|
            k < l && #[trigger] side_takes(fs, IoDir::Input, k) ==> side_takes(
                vs,
                IoDir::Output,
                k,
            ),
        e matches Some(BuildErrorView::TooManyVaryings(l, m)) ==> m == limit && l >= limit
            && forall|k: u32|
            k > l ==> !(#[trigger] side_takes(fs, IoDir::Input, k)) && !side_takes(
                vs,
                IoDir::Output,
                k,
            ),
        !(e matches Some(BuildErrorView::Translate(_))),
{
    assert forall|k: u32| #[trigger] side_takes(fs, IoDir::Input, k) implies unwritten(vs, fs, k)
        == !side_takes(vs, IoDir::Output, k) by {}
    assert forall|k: u32| #![trigger side_takes(fs, IoDir::Input, k)] #![trigger side_takes(vs, IoDir::Output, k)]
        passes_between(vs, fs, k) == (side_takes(fs, IoDir::Input, k) || side_takes(
        vs,
        IoDir::Output,
        k,
    )) by {}
    if mismatched(vs, fs) {
        let l = choose|l: u32| #[trigger] unwritten(vs, fs, l);
        assert(side_takes(fs, IoDir::Input, l));
    } else {
        assert forall|l: u32| #[trigger] side_takes(fs, IoDir::Input, l) implies side_takes(
            vs,
            IoDir::Output,
            l,
        ) by {
            assert(!unwritten(vs, fs, l));
        }
        if exists|l: u32| #[trigger] passes_between(vs, fs, l) && l >= limit {
            let l = choose|l: u32| #[trigger] passes_between(vs, fs, l) && l >= limit;
            assert(side_takes(fs, IoDir::Input, l) || side_takes(vs, IoDir::Output, l));
        } else {
            assert forall|l: u32|
                #[trigger] side_takes(fs, IoDir::Input, l) || side_takes(vs, IoDir::Output, l) implies l
                < limit by {
                assert(passes_between(vs, fs, l));
            }
        }
    }
}

/// How a pass goes on: stages that fit by themselves are not translated again.
/// Those that do not are brought to agree, translated once to learn their
/// defines, and once more with the defines of both, what else the translation
/// was told staying as it was.
pub proof fn law_build_goes_on(
    b: BuildView,
    vs: Translated,
    fs: Translated,
    limit: u32,
    step: BuildStep,
    name: Seq<char>,
)
    requires
        follows(b, vs, fs, limit, step),
    ensures
        step is Again == (b.phase == BuildPhase::Probe || (b.phase == BuildPhase::Independent
            && mismatched(vs.module, fs.module))),
        step matches BuildStep::Again(next) ==> {
            &&& next@.kind == b.kind
            &&& next@.inputs.combos == b.inputs.combos
            &&& next@.inputs.slots == b.inputs.slots
            &&& b.phase == BuildPhase::Independent ==> next@.phase == BuildPhase::Probe
                && next@.inputs == b.inputs && (next@.vs, next@.fs) == reconciled(b.vs, b.fs)
            &&& b.phase == BuildPhase::Probe ==> next@.phase == BuildPhase::Program && next@.vs
                == b.vs && next@.fs == b.fs
            &&& b.phase == BuildPhase::Probe ==> next@.inputs.override_combos.dom().contains(name)
                == (vs.active_combos@.dom().contains(name) || fs.active_combos@.dom().contains(
                name,
            ))
            &&& b.phase == BuildPhase::Probe && fs.active_combos@.dom().contains(name)
                && fs.active_combos@[name] != 0 ==> next@.inputs.override_combos[name]
                == fs.active_combos@[name]
            &&& b.phase == BuildPhase::Probe && vs.active_combos@.dom().contains(name) && !(
            fs.active_combos@.dom().contains(name) && fs.active_combos@[name] != 0)
                ==> next@.inputs.override_combos[name] == vs.active_combos@[name]
        },
{
}

/// Sources that are brought to agree: the fragment source loses its dead
/// declarations, and what links the two is pinned to the same locations in
/// both, unless one of them links an array.
pub proof fn law_sources_agree(vs: Seq<char>, fs: Seq<char>)
    ensures
        ({
            let live = crate::varying::stripped(vs, fs);
            let names = crate::varying::linked_names(vs, live);
            &&& links_array(vs) ==> reconciled(vs, fs) == (vs, live)
            &&& links_array(live) ==> reconciled(vs, fs) == (vs, live)
            &&& !links_array(vs) && !links_array(live) ==> reconciled(vs, fs).0
                == crate::varying::pinned(vs, names) && reconciled(vs, fs).1
                == crate::varying::pinned(live, names)
        }),
{
}

/// A pass of a layer begins with its two sources cleaned, each as its stage; one
/// of a mesh with what links them pinned. Both are told of their pass alone.
pub proof fn law_builds_begin(pass: &Pass, vs_src: &str, fs_src: &str, flat: PassBuild, mesh: PassBuild)
    requires
        pass.wf(),
        call_ensures(build_pass, (pass, vs_src, fs_src), flat),
        call_ensures(build_model_pass, (pass, vs_src, fs_src), mesh),
    ensures
        flat@.kind == PassKind::Flat,
        flat@.phase == BuildPhase::Independent,
        flat@.vs == crate::varying::sanitized(vs_src@, false),
        flat@.fs == crate::varying::sanitized(fs_src@, true),
        flat@.inputs == inputs_of(*pass),
        mesh@.kind == PassKind::Model,
        mesh@.phase == BuildPhase::Probe,
        mesh@.inputs == inputs_of(*pass),
        ({
            let names = crate::varying::linked_names(vs_src@, fs_src@);
            mesh@.vs == crate::varying::pinned(vs_src@, names) && mesh@.fs
                == crate::varying::pinned(fs_src@, names)
        }),
{
}

/// The vertex input of a pass: every attribute is one that it can have, the
/// position is at the last location that is given for it, and so is the texture
/// coordinate, if there is one. A layer reads these two, a mesh all that are
/// declared, by location.
pub proof fn law_vertex_input_of_pass(
    kind: PassKind,
    attributes: &Vec<Attribute>,
    r: Result<VertexInput, PassBuildError>,
)
    requires
        call_ensures(vertex_input, (kind, attributes), r),
        attributes@.len() <= usize::MAX,
    ensures
        ({
            let attrs = attribute_views(attributes@);
            &&& r is Ok <==> forall|i: int|
                0 <= i < attributes@.len() ==> attribute_slot(
                    kind,
                    (#[trigger] attributes@[i]).name@,
                ) is Some
            &&& r matches Ok(v) ==> v.stride == (match kind {
                PassKind::Flat => 20u64,
                PassKind::Model => 48u64,
            })
            &&& r matches Ok(v) ==> v.uv_location == last_location(attrs, "a_TexCoord"@)
            &&& r matches Ok(v) ==> last_location(attrs, "a_Position"@) matches Some(l)
                ==> v.pos_location == l
            &&& r matches Ok(v) ==> last_location(attrs, "a_Position"@) is None ==> v.pos_location
                == 0
            &&& r matches Ok(v) ==> kind == PassKind::Flat ==> {
                &&& v.attributes@.len() == (if v.uv_location is Some {
                    2nat
                } else {
                    1nat
                })
                &&& v.attributes@[0].shader_location == v.pos_location
                &&& v.attributes@[0].offset == 0 && v.attributes@[0].format
                    == VertexFormat::Float32x3
                &&& v.uv_location matches Some(l) ==> v.attributes@[1].shader_location == l
                    && v.attributes@[1].offset == 12 && v.attributes@[1].format
                    == VertexFormat::Float32x2
            }
            &&& r matches Ok(v) ==> kind == PassKind::Model ==> {
                &&& v.attributes@.len() == attributes@.len()
                &&& forall|i: int, j: int|
                    0 <= i < j < v.attributes@.len() ==> (#[trigger] v.attributes@[i]).shader_location
                        <= (#[trigger] v.attributes@[j]).shader_location
            }
        }),
{
    let attrs = attribute_views(attributes@);
    lemma_known(kind, attrs);
    assert forall|i: int| 0 <= i < attrs.len() implies #[trigger] attrs[i] == (
        attributes@[i].name@,
        attributes@[i].location,
    ) by {}
    if r is Ok {
        assert forall|i: int| 0 <= i < attributes@.len() implies attribute_slot(
            kind,
            (#[trigger] attributes@[i]).name@,
        ) is Some by {
            lemma_all_known(kind, attrs, i);
            assert(attrs[i].0 == attributes@[i].name@);
        }
        if kind == PassKind::Model {
            let v = r->Ok_0;
            let all = mesh_attributes(attrs);
            let order = choose|order: Seq<usize>| #[trigger]
                crate::order::is_render_order(order, location_keys(all), true, all.len())
                    && v.attributes@ == order.map_values(|i: usize| all[i as int]);
            assert forall|i: int, j: int| 0 <= i < j < v.attributes@.len() implies (
            #[trigger] v.attributes@[i]).shader_location <= (
            #[trigger] v.attributes@[j]).shader_location by {
                crate::order::law_custom_order(order, location_keys(all), all.len(), i, j);
                assert(order[i] < all.len() && order[j] < all.len());
            }
        }
    } else if forall|i: int|
        0 <= i < attributes@.len() ==> attribute_slot(
            kind,
            (#[trigger] attributes@[i]).name@,
        ) is Some {
        assert forall|k: int| 0 <= k < attrs.len() implies attribute_slot(
            kind,
            (#[trigger] attrs[k]).0,
        ) is Some by {
            assert(attribute_slot(kind, attributes@[k].name@) is Some);
        }
    }
}

/// A location of its own counts for an argument or a result; one without takes
/// those of its members.
pub proof fn law_locations_of_interface(io: IoShape, loc: u32)
    ensures
        io.location is Some ==> takes(io, loc) == (io.location == Some(loc)),
        io.location is None ==> takes(io, loc) == exists|i: int|
            0 <= i < io.members@.len() && #[trigger] io.members@[i] == Some(loc),
{
}

/// A source links an array where one of its lines declares one, and only then.
pub proof fn law_array_is_linked_by_a_line(src: Seq<char>, i: int)
    requires
        0 <= i < crate::varying::lines_of(src).len(),
    ensures
        crate::varying::declares_array(crate::varying::lines_of(src)[i]) ==> links_array(src),
        (forall|k: int|
            0 <= k < crate::varying::lines_of(src).len() ==> !crate::varying::declares_array(
                #[trigger] crate::varying::lines_of(src)[k],
            )) ==> !links_array(src),
{
}

} // verus!
