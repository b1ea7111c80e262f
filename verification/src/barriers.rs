use vstd::prelude::*;

verus! {

/// The layouts an image moves between while it is filled and sampled.
#[derive(Debug, Clone, Copy, PartialEq, Eq, Structural)]
pub enum ImageLayout {
    Undefined,
    TransferDstOptimal,
    ShaderReadOnlyOptimal,
    /// Any other layout, by its Vulkan code.
    Other(i32),
}

/// Memory accesses a barrier orders.
#[derive(Debug, Clone, Copy, PartialEq, Eq, Structural)]
pub enum Access {
    NoAccess,
    TransferWrite,
    ShaderRead,
}

/// Pipeline stages a barrier waits on or blocks.
#[derive(Debug, Clone, Copy, PartialEq, Eq, Structural)]
pub enum Stage {
    TopOfPipe,
    Copy,
    FragmentShader,
}

/// Access and stage masks of a layout transition.
#[derive(Debug, Clone, Copy, PartialEq, Eq, Structural)]
pub struct TransitionMasks {
    pub src_access: Access,
    pub dst_access: Access,
    pub src_stage: Stage,
    pub dst_stage: Stage,
}

/// A layout transition the renderer has no masks for.
#[derive(Debug, Clone, Copy, PartialEq, Eq, Structural)]
pub struct UnsupportedTransition {
    pub old_layout: ImageLayout,
    pub new_layout: ImageLayout,
}

impl UnsupportedTransition {
    /// The message the renderer reports.
    pub fn message(&self) -> (r: &'static str)
        ensures
            r@ == "Unsupported image layout transition!"@,
    {
        "Unsupported image layout transition!"
    }
}

/// The masks of a transition from `old` to `new`: into a copy destination
/// nothing is waited for and the copy's writes are blocked; from a copy
/// destination to shader reads the copy's writes are made visible to
/// fragment shaders.
pub open spec fn transition_spec(old: ImageLayout, new: ImageLayout) -> Option<TransitionMasks> {
    if (old == ImageLayout::Undefined || old == ImageLayout::TransferDstOptimal) && new
        == ImageLayout::TransferDstOptimal {
        Some(
            TransitionMasks {
                src_access: Access::NoAccess,
                dst_access: Access::TransferWrite,
                src_stage: Stage::TopOfPipe,
                dst_stage: Stage::Copy,
            },
        )
    } else if old == ImageLayout::TransferDstOptimal && new == ImageLayout::ShaderReadOnlyOptimal {
        Some(
            TransitionMasks {
                src_access: Access::TransferWrite,
                dst_access: Access::ShaderRead,
                src_stage: Stage::Copy,
                dst_stage: Stage::FragmentShader,
            },
        )
    } else {
        None
    }
}

/// The access and stage masks of the barrier that moves an image from
/// layout `old` to `new`.
pub fn transition_masks(old: ImageLayout, new: ImageLayout) -> (r: Result<TransitionMasks, UnsupportedTransition>)
    ensures
        match transition_spec(old, new) {
            Some(m) => r == Ok::<TransitionMasks, UnsupportedTransition>(m),
            None => r == Err::<TransitionMasks, UnsupportedTransition>(
                UnsupportedTransition { old_layout: old, new_layout: new },
            ),
        },
{
    match (old, new) {
        (ImageLayout::Undefined, ImageLayout::TransferDstOptimal) => Ok(
            TransitionMasks {
                src_access: Access::NoAccess,
                dst_access: Access::TransferWrite,
                src_stage: Stage::TopOfPipe,
                dst_stage: Stage::Copy,
            },
        ),
        (ImageLayout::TransferDstOptimal, ImageLayout::TransferDstOptimal) => Ok(
            TransitionMasks {
                src_access: Access::NoAccess,
                dst_access: Access::TransferWrite,
                src_stage: Stage::TopOfPipe,
                dst_stage: Stage::Copy,
            },
        ),
        (ImageLayout::TransferDstOptimal, ImageLayout::ShaderReadOnlyOptimal) => Ok(
            TransitionMasks {
                src_access: Access::TransferWrite,
                dst_access: Access::ShaderRead,
                src_stage: Stage::Copy,
                dst_stage: Stage::FragmentShader,
            },
        ),
        _ => Err(UnsupportedTransition { old_layout: old, new_layout: new }),
    }
}

/// The queue family index that tells Vulkan a barrier moves no ownership.
pub const QUEUE_FAMILY_IGNORED: u32 = 0xffff_ffff;

/// Source and destination queue families of a barrier: the pair handed
/// over for an ownership transfer, else both ignored.
pub fn barrier_queue_families(transfer: Option<(u32, u32)>) -> (r: (u32, u32))
    ensures
        r == match transfer {
            Some(pair) => pair,
            None => (QUEUE_FAMILY_IGNORED, QUEUE_FAMILY_IGNORED),
        },
{
    match transfer {
        Some(pair) => pair,
        None => (QUEUE_FAMILY_IGNORED, QUEUE_FAMILY_IGNORED),
    }
}

} // verus!
