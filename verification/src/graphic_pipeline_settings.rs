//! Per-pipeline settings.
use vstd::prelude::*;

verus! {

/// How a pipeline uses the depth buffer.
#[derive(Clone, Copy, Debug, PartialEq, Eq, Structural)]
pub enum DepthSetting {
    /// The pipeline neither reads nor writes depth.
    Disabled,
    Read,
    Write,
    ReadWrite,
}

pub struct GraphicPipelineSettings {
    depth: DepthSetting,
}

impl GraphicPipelineSettings {
    /// The depth setting of the pipeline.
    pub closed spec fn depth_spec(&self) -> DepthSetting {
        self.depth
    }

    /// The same settings, with the given depth setting.
    pub fn depth(self, depth: DepthSetting) -> (r: GraphicPipelineSettings)
        ensures
            r.depth_spec() == depth,
    {
        Self { depth }
    }

    /// The depth setting of the pipeline.
    pub fn depth_setting(&self) -> (r: DepthSetting)
        ensures
            r == self.depth_spec(),
    {
        self.depth
    }
}

impl Default for GraphicPipelineSettings {
    /// Pipelines read and write depth unless told otherwise.
    fn default() -> (r: Self)
        ensures
            r.depth_spec() == DepthSetting::ReadWrite,
    {
        GraphicPipelineSettings { depth: DepthSetting::ReadWrite }
    }
}

/// The shader stages a pipeline is built from.
#[derive(Debug, Clone, Copy, PartialEq, Eq, Hash, Structural)]
pub enum ShaderStage {
    Vertex,
    Fragment,
}

} // verus!
