//! The glow of bright parts: the buffers and the passes that make it.
use vstd::prelude::*;

verus! {

/// A buffer of the glow.
#[derive(Clone, Copy, Debug, PartialEq, Eq, Structural)]
pub enum BloomBuffer {
    /// The composited scene.
    Scene,
    /// A copy of the composited scene.
    Snapshot,
    /// Bright parts, at a quarter of the size.
    Quarter,
    /// Bright parts blurred along one axis, at an eighth of the size.
    Eighth,
    /// Bright parts blurred along both axes, at an eighth of the size.
    Bloom,
}

/// A step of the glow.
#[derive(Clone, Copy, Debug, PartialEq, Eq, Structural)]
pub enum BloomStep {
    /// Keep the bright parts of one buffer in another.
    Bright(BloomBuffer, BloomBuffer),
    /// Blur one buffer along its width into another.
    BlurX(BloomBuffer, BloomBuffer),
    /// Blur one buffer along its height into another.
    BlurY(BloomBuffer, BloomBuffer),
    /// Copy one buffer to another.
    Copy(BloomBuffer, BloomBuffer),
    /// Add two buffers up in a third.
    Combine(BloomBuffer, BloomBuffer, BloomBuffer),
}

/// The steps of the glow.
pub open spec fn bloom_order() -> Seq<BloomStep> {
    seq![
        BloomStep::Bright(BloomBuffer::Scene, BloomBuffer::Quarter),
        BloomStep::BlurX(BloomBuffer::Quarter, BloomBuffer::Eighth),
        BloomStep::BlurY(BloomBuffer::Eighth, BloomBuffer::Bloom),
        BloomStep::Copy(BloomBuffer::Scene, BloomBuffer::Snapshot),
        BloomStep::Combine(BloomBuffer::Snapshot, BloomBuffer::Bloom, BloomBuffer::Scene),
    ]
}

/// The steps of the glow: bright parts are taken from the scene, blurred along
/// both axes, and added to a copy of the scene.
pub fn bloom_steps() -> (r: Vec<BloomStep>)
    ensures
        r@ == bloom_order(),
{
    let r = vec![
        BloomStep::Bright(BloomBuffer::Scene, BloomBuffer::Quarter),
        BloomStep::BlurX(BloomBuffer::Quarter, BloomBuffer::Eighth),
        BloomStep::BlurY(BloomBuffer::Eighth, BloomBuffer::Bloom),
        BloomStep::Copy(BloomBuffer::Scene, BloomBuffer::Snapshot),
        BloomStep::Combine(BloomBuffer::Snapshot, BloomBuffer::Bloom, BloomBuffer::Scene),
    ];
    assert(r@ =~= bloom_order());
    r
}

/// The size of a buffer of the glow, never empty.
pub open spec fn buffer_size(b: BloomBuffer, width: u32, height: u32) -> (nat, nat) {
    let part: nat = match b {
        BloomBuffer::Scene => 1,
        BloomBuffer::Snapshot => 1,
        BloomBuffer::Quarter => 4,
        BloomBuffer::Eighth => 8,
        BloomBuffer::Bloom => 8,
    };
    (at_least_one(width as nat / part), at_least_one(height as nat / part))
}

/// A number, or one where it is zero.
pub open spec fn at_least_one(n: nat) -> nat {
    if n == 0 {
        1
    } else {
        n
    }
}

/// A part of a length, never empty.
fn part_of(n: u32, part: u32) -> (r: u32)
    requires
        part > 0,
    ensures
        r == at_least_one(n as nat / part as nat),
{
    let m = n / part;
    if m == 0 {
        1
    } else {
        m
    }
}

/// The size of a buffer of the glow of a scene.
pub fn bloom_size(b: BloomBuffer, width: u32, height: u32) -> (r: (u32, u32))
    ensures
        (r.0 as nat, r.1 as nat) == buffer_size(b, width, height),
{
    let part: u32 = match b {
        BloomBuffer::Scene => 1,
        BloomBuffer::Snapshot => 1,
        BloomBuffer::Quarter => 4,
        BloomBuffer::Eighth => 8,
        BloomBuffer::Bloom => 8,
    };
    (part_of(width, part), part_of(height, part))
}

/// Whether a step reads a buffer.
pub open spec fn reads(s: BloomStep, b: BloomBuffer) -> bool {
    match s {
        BloomStep::Bright(from, _) => from == b,
        BloomStep::BlurX(from, _) => from == b,
        BloomStep::BlurY(from, _) => from == b,
        BloomStep::Copy(from, _) => from == b,
        BloomStep::Combine(one, two, _) => one == b || two == b,
    }
}

/// The buffer that a step writes.
pub open spec fn writes(s: BloomStep) -> BloomBuffer {
    match s {
        BloomStep::Bright(_, to) => to,
        BloomStep::BlurX(_, to) => to,
        BloomStep::BlurY(_, to) => to,
        BloomStep::Copy(_, to) => to,
        BloomStep::Combine(_, _, to) => to,
    }
}

/// No step reads what it writes, and every step reads only the scene or what an
/// earlier step wrote.
pub proof fn law_bloom_never_feeds_back(i: int, b: BloomBuffer)
    requires
        0 <= i < bloom_order().len(),
        reads(bloom_order()[i], b),
    ensures
        writes(bloom_order()[i]) != b,
        b == BloomBuffer::Scene || exists|k: int| 0 <= k < i && writes(#[trigger] bloom_order()[k]) == b,
{
    let s = bloom_order();
    assert(writes(s[0]) == BloomBuffer::Quarter);
    assert(writes(s[1]) == BloomBuffer::Eighth);
    assert(writes(s[2]) == BloomBuffer::Bloom);
    assert(writes(s[3]) == BloomBuffer::Snapshot);
}

/// The glow ends in the scene: the last step adds up what the steps made of the
/// bright parts and a copy of the scene that was taken before. What it adds was
/// taken from the scene, then blurred along one axis, then along the other.
pub proof fn law_bloom_ends_in_scene()
    ensures
        bloom_order().len() == 5,
        writes(bloom_order().last()) == BloomBuffer::Scene,
        bloom_order()[0] is Bright && reads(bloom_order()[0], BloomBuffer::Scene),
        bloom_order()[1] is BlurX && reads(bloom_order()[1], writes(bloom_order()[0])),
        bloom_order()[2] is BlurY && reads(bloom_order()[2], writes(bloom_order()[1])),
        bloom_order()[3] is Copy && reads(bloom_order()[3], BloomBuffer::Scene),
        bloom_order()[4] is Combine && reads(bloom_order()[4], writes(bloom_order()[2])) && reads(
            bloom_order()[4],
            writes(bloom_order()[3]),
        ),
        forall|i: int|
            0 <= i < 4 ==> writes(#[trigger] bloom_order()[i]) != BloomBuffer::Scene,
{
}

/// A copy of the scene is as large as the scene, the bright parts a quarter of
/// it along each side and blurred an eighth, cut off, and none is empty.
pub proof fn law_bloom_sizes(width: u32, height: u32)
    ensures
        width >= 1 ==> buffer_size(BloomBuffer::Scene, width, height).0 == width,
        height >= 1 ==> buffer_size(BloomBuffer::Scene, width, height).1 == height,
        buffer_size(BloomBuffer::Snapshot, width, height) == buffer_size(
            BloomBuffer::Scene,
            width,
            height,
        ),
        buffer_size(BloomBuffer::Bloom, width, height) == buffer_size(
            BloomBuffer::Eighth,
            width,
            height,
        ),
        width >= 4 ==> 4 * buffer_size(BloomBuffer::Quarter, width, height).0 <= width < 4
            * buffer_size(BloomBuffer::Quarter, width, height).0 + 4,
        height >= 4 ==> 4 * buffer_size(BloomBuffer::Quarter, width, height).1 <= height < 4
            * buffer_size(BloomBuffer::Quarter, width, height).1 + 4,
        width >= 8 ==> 8 * buffer_size(BloomBuffer::Eighth, width, height).0 <= width < 8
            * buffer_size(BloomBuffer::Eighth, width, height).0 + 8,
        height >= 8 ==> 8 * buffer_size(BloomBuffer::Eighth, width, height).1 <= height < 8
            * buffer_size(BloomBuffer::Eighth, width, height).1 + 8,
        forall|b: BloomBuffer|
            (#[trigger] buffer_size(b, width, height)).0 >= 1 && buffer_size(b, width, height).1
                >= 1,
        width < 4 ==> buffer_size(BloomBuffer::Quarter, width, height).0 == 1,
        height < 4 ==> buffer_size(BloomBuffer::Quarter, width, height).1 == 1,
        width < 8 ==> buffer_size(BloomBuffer::Eighth, width, height).0 == 1,
        height < 8 ==> buffer_size(BloomBuffer::Eighth, width, height).1 == 1,
{
}

} // verus!
