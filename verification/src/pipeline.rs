//! The fixed policy of the render pipeline that draws a scene. The pipeline
//! itself is built by the host from this policy, with the device of the
//! backend.

use vstd::prelude::*;

verus! {

/// How a fragment is combined with what the target already holds.
#[derive(Clone, Copy, Debug, PartialEq, Eq, Structural)]
pub enum BlendMode {
    /// The fragment replaces the target.
    Replace,
    /// Standard blending by the alpha of the fragment, not premultiplied.
    AlphaBlending,
    /// Standard blending by the alpha of the fragment, premultiplied.
    PremultipliedAlphaBlending,
}

/// The color channels that the pipeline writes.
#[derive(Clone, Copy, Debug, PartialEq, Eq, Structural)]
pub struct ColorChannels {
    pub red: bool,
    pub green: bool,
    pub blue: bool,
    pub alpha: bool,
}

/// What is decided once for every pipeline of the scene layer.
#[derive(Clone, Copy, Debug, PartialEq, Eq)]
pub struct PipelinePolicy {
    /// The entry point of the vertex stage in the shader module.
    pub vertex_entry: &'static str,
    /// The entry point of the fragment stage in the shader module.
    pub fragment_entry: &'static str,
    pub blend: BlendMode,
    pub color_writes: ColorChannels,
    /// Whether the pipeline tests or writes depth and stencil.
    pub depth_stencil: bool,
    /// The number of samples per pixel.
    pub sample_count: u32,
    /// The samples of a pixel that the pipeline may modify, one bit each.
    pub sample_mask: u64,
    pub alpha_to_coverage: bool,
    /// The number of views rendered at once, if more than one.
    pub multiview: Option<u32>,
}

/// The policy: entry points `vs_main` and `fs_main`, standard alpha blending,
/// all color channels written, no depth or stencil, one sample per pixel with
/// every sample enabled, no multiview.
pub open spec fn fixed_policy() -> PipelinePolicy {
    PipelinePolicy {
        vertex_entry: "vs_main",
        fragment_entry: "fs_main",
        blend: BlendMode::AlphaBlending,
        color_writes: ColorChannels { red: true, green: true, blue: true, alpha: true },
        depth_stencil: false,
        sample_count: 1,
        sample_mask: 0xffff_ffff_ffff_ffff,
        alpha_to_coverage: false,
        multiview: None,
    }
}

/// The policy of the pipeline that draws the scene.
pub fn pipeline_policy() -> (policy: PipelinePolicy)
    ensures
        policy == fixed_policy(),
{
    PipelinePolicy {
        vertex_entry: "vs_main",
        fragment_entry: "fs_main",
        blend: BlendMode::AlphaBlending,
        color_writes: ColorChannels { red: true, green: true, blue: true, alpha: true },
        depth_stencil: false,
        sample_count: 1,
        sample_mask: 0xffff_ffff_ffff_ffff,
        alpha_to_coverage: false,
        multiview: None,
    }
}

} // verus!
