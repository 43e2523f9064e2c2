//! Fixed-function state of a pass: blending, culling and depth.
use vstd::prelude::*;

use crate::material::{Blending, CullMode, DepthMode};

verus! {

/// What a color is multiplied with before it is added.
#[derive(Clone, Copy, Debug, PartialEq, Eq, Structural)]
pub enum BlendFactor {
    /// Nothing remains.
    Zero,
    /// All remains.
    One,
    /// The alpha drawn.
    SrcAlpha,
    /// One minus the alpha drawn.
    OneMinusSrcAlpha,
}

/// How two weighted colors are joined.
#[derive(Clone, Copy, Debug, PartialEq, Eq, Structural)]
pub enum BlendOperation {
    /// By their sum.
    Add,
}

/// How one component is blended.
#[derive(Clone, Copy, Debug, PartialEq, Eq, Structural)]
pub struct BlendComponent {
    /// Weight of what is drawn.
    pub src_factor: BlendFactor,
    /// Weight of what was there.
    pub dst_factor: BlendFactor,
    /// How the two are joined.
    pub operation: BlendOperation,
}

/// How color and alpha are blended.
#[derive(Clone, Copy, Debug, PartialEq, Eq, Structural)]
pub struct BlendState {
    /// Red, green and blue.
    pub color: BlendComponent,
    /// Alpha.
    pub alpha: BlendComponent,
}

/// Which faces are not drawn.
#[derive(Clone, Copy, Debug, PartialEq, Eq, Structural)]
pub enum Face {
    /// Those that look to the viewer.
    Front,
    /// Those that look away.
    Back,
}

/// When a fragment passes the depth test.
#[derive(Clone, Copy, Debug, PartialEq, Eq, Structural)]
pub enum DepthCompare {
    /// When it is not behind what was drawn.
    LessEqual,
}

/// Depth state of a pass that tests depth.
#[derive(Clone, Copy, Debug, PartialEq, Eq, Structural)]
pub struct DepthState {
    /// Whether passing fragments write their depth.
    pub depth_write_enabled: bool,
    /// The depth test.
    pub depth_compare: DepthCompare,
}

/// A sum with two weights.
pub open spec fn weighted(src: BlendFactor, dst: BlendFactor) -> BlendComponent {
    BlendComponent { src_factor: src, dst_factor: dst, operation: BlendOperation::Add }
}

/// The blend state of a blending mode. Normal replaces; translucent is the
/// straight-alpha "over"; additive adds, weighted by the alpha drawn. Where
/// translucent layers pile up in a target of their own, the alpha has to grow
/// to one, so its weight is one there.
pub open spec fn blend_of(mode: Blending) -> BlendState {
    match mode {
        Blending::Normal => BlendState {
            color: weighted(BlendFactor::One, BlendFactor::Zero),
            alpha: weighted(BlendFactor::One, BlendFactor::Zero),
        },
        Blending::Translucent => BlendState {
            color: weighted(BlendFactor::SrcAlpha, BlendFactor::OneMinusSrcAlpha),
            alpha: weighted(BlendFactor::One, BlendFactor::OneMinusSrcAlpha),
        },
        Blending::Additive => BlendState {
            color: weighted(BlendFactor::SrcAlpha, BlendFactor::One),
            alpha: weighted(BlendFactor::SrcAlpha, BlendFactor::One),
        },
    }
}

/// A sum with two weights.
fn component(src: BlendFactor, dst: BlendFactor) -> (r: BlendComponent)
    ensures
        r == weighted(src, dst),
{
    BlendComponent { src_factor: src, dst_factor: dst, operation: BlendOperation::Add }
}

/// The blend state of a blending mode.
pub fn blend_state(mode: Blending) -> (r: BlendState)
    ensures
        r == blend_of(mode),
{
    let (src, dst) = match mode {
        Blending::Normal => (BlendFactor::One, BlendFactor::Zero),
        Blending::Translucent => (BlendFactor::SrcAlpha, BlendFactor::OneMinusSrcAlpha),
        Blending::Additive => (BlendFactor::SrcAlpha, BlendFactor::One),
    };
    let alpha = match mode {
        Blending::Translucent => component(BlendFactor::One, BlendFactor::OneMinusSrcAlpha),
        _ => component(src, dst),
    };
    BlendState { color: component(src, dst), alpha }
}

/// The faces that a cull mode leaves out.
pub fn cull_mode(mode: CullMode) -> (r: Option<Face>)
    ensures
        r == match mode {
            CullMode::Normal => Some(Face::Back),
            CullMode::NoCull => None,
        },
{
    match mode {
        CullMode::Normal => Some(Face::Back),
        CullMode::NoCull => None,
    }
}

/// The depth state of a pass; none where depth is not tested.
pub fn depth_stencil_state(depthtest: DepthMode, depthwrite: DepthMode) -> (r: Option<DepthState>)
    ensures
        r == match depthtest {
            DepthMode::Disabled => None,
            DepthMode::Enabled => Some(
                DepthState {
                    depth_write_enabled: depthwrite == DepthMode::Enabled,
                    depth_compare: DepthCompare::LessEqual,
                },
            ),
        },
{
    match depthtest {
        DepthMode::Disabled => None,
        DepthMode::Enabled => Some(
            DepthState {
                depth_write_enabled: match depthwrite {
                    DepthMode::Enabled => true,
                    DepthMode::Disabled => false,
                },
                depth_compare: DepthCompare::LessEqual,
            },
        ),
    }
}

/// Every mode adds, and only the translucent one weights alpha and color
/// differently.
pub proof fn law_blending_adds(mode: Blending)
    ensures
        blend_of(mode).color.operation == BlendOperation::Add,
        blend_of(mode).alpha.operation == BlendOperation::Add,
        blend_of(mode).color == blend_of(mode).alpha <==> mode != Blending::Translucent,
        blend_of(mode).color.dst_factor == blend_of(mode).alpha.dst_factor,
{
}

/// What a factor weighs where the alpha drawn is `alpha` out of `full`.
pub open spec fn weight(f: BlendFactor, alpha: int, full: int) -> int {
    match f {
        BlendFactor::Zero => 0,
        BlendFactor::One => full,
        BlendFactor::SrcAlpha => alpha,
        BlendFactor::OneMinusSrcAlpha => full - alpha,
    }
}

/// Normal drawing replaces what was there, whatever the alpha. Translucent
/// drawing covers as much of it as the alpha drawn says: the weights of the two
/// colors make up the whole, and the alpha that was there is kept as far as it
/// is not covered. Additive drawing keeps all that was there and adds what is
/// drawn by its alpha.
pub proof fn law_blend_weights(alpha: int, full: int)
    ensures
        ({
            let s = blend_of(Blending::Normal);
            &&& weight(s.color.src_factor, alpha, full) == full
            &&& weight(s.color.dst_factor, alpha, full) == 0
            &&& weight(s.alpha.src_factor, alpha, full) == full
            &&& weight(s.alpha.dst_factor, alpha, full) == 0
        }),
        ({
            let s = blend_of(Blending::Translucent);
            &&& weight(s.color.src_factor, alpha, full) == alpha
            &&& weight(s.color.src_factor, alpha, full) + weight(s.color.dst_factor, alpha, full)
                == full
            &&& weight(s.alpha.src_factor, alpha, full) == full
            &&& weight(s.alpha.dst_factor, alpha, full) == full - alpha
        }),
        ({
            let s = blend_of(Blending::Additive);
            &&& weight(s.color.src_factor, alpha, full) == alpha
            &&& weight(s.color.dst_factor, alpha, full) == full
            &&& weight(s.alpha.src_factor, alpha, full) == alpha
            &&& weight(s.alpha.dst_factor, alpha, full) == full
        }),
{
}

/// Faces are left out only where culling is asked for, and then those that look
/// away.
pub proof fn law_culling(mode: CullMode, r: Option<Face>)
    requires
        call_ensures(cull_mode, (mode,), r),
    ensures
        r is Some == (mode == CullMode::Normal),
        r is Some ==> r == Some(Face::Back),
{
}

/// Depth is written only where it is tested and its writing is asked for.
pub proof fn law_depth_is_tested_to_be_written(
    depthtest: DepthMode,
    depthwrite: DepthMode,
    r: Option<DepthState>,
)
    requires
        call_ensures(depth_stencil_state, (depthtest, depthwrite), r),
    ensures
        r is Some == (depthtest == DepthMode::Enabled),
        r matches Some(s) ==> s.depth_write_enabled == (depthwrite == DepthMode::Enabled),
        r matches Some(s) ==> s.depth_compare == DepthCompare::LessEqual,
{
}

} // verus!
