use propellant::graphic_pipeline_settings::{DepthSetting, GraphicPipelineSettings, ShaderStage};
use propellant::depth_format::{
    get_depth_format, get_supported_format, DepthFormat, FormatProperties, ImageTiling, RenderingError,
    DEPTH_STENCIL_ATTACHMENT,
};

#[test]
fn default_settings_read_and_write_depth() {
    let settings = GraphicPipelineSettings::default();
    assert_eq!(settings.depth_setting(), DepthSetting::ReadWrite);
}

#[test]
fn depth_builder_sets_depth() {
    let settings = GraphicPipelineSettings::default().depth(DepthSetting::Disabled);
    assert_eq!(settings.depth_setting(), DepthSetting::Disabled);
    let settings = settings.depth(DepthSetting::Read);
    assert_eq!(settings.depth_setting(), DepthSetting::Read);
}

#[test]
fn shader_stages_differ() {
    assert_ne!(ShaderStage::Vertex, ShaderStage::Fragment);
}

const NONE: FormatProperties = FormatProperties { linear_tiling_features: 0, optimal_tiling_features: 0 };
const DEPTH_OPTIMAL: FormatProperties =
    FormatProperties { linear_tiling_features: 0, optimal_tiling_features: DEPTH_STENCIL_ATTACHMENT | 1 };
const DEPTH_LINEAR: FormatProperties =
    FormatProperties { linear_tiling_features: DEPTH_STENCIL_ATTACHMENT, optimal_tiling_features: 0 };

#[test]
fn depth_format_prefers_d32() {
    assert_eq!(get_depth_format(DEPTH_OPTIMAL, DEPTH_OPTIMAL, DEPTH_OPTIMAL), Ok(DepthFormat::D32Sfloat));
    assert_eq!(get_depth_format(NONE, DEPTH_OPTIMAL, DEPTH_OPTIMAL), Ok(DepthFormat::D32SfloatS8Uint));
    assert_eq!(get_depth_format(DEPTH_LINEAR, NONE, DEPTH_OPTIMAL), Ok(DepthFormat::D24UnormS8Uint));
}

#[test]
fn depth_format_missing() {
    assert_eq!(
        get_depth_format(DEPTH_LINEAR, NONE, NONE),
        Err(RenderingError::NoSupportedDepthFormat)
    );
}

#[test]
fn supported_format_by_tiling() {
    let candidates = [("a", NONE), ("b", DEPTH_LINEAR), ("c", DEPTH_OPTIMAL)];
    assert_eq!(get_supported_format(&candidates, ImageTiling::Linear, DEPTH_STENCIL_ATTACHMENT), Ok("b"));
    assert_eq!(get_supported_format(&candidates, ImageTiling::Optimal, DEPTH_STENCIL_ATTACHMENT), Ok("c"));
    assert_eq!(get_supported_format(&candidates, ImageTiling::Optimal, 1), Ok("c"));
    assert_eq!(get_supported_format(&candidates, ImageTiling::Optimal, 2), Err(RenderingError::NoSupportedDepthFormat));
    assert_eq!(
        get_supported_format(&candidates, ImageTiling::Other, 0),
        Err(RenderingError::NoSupportedDepthFormat)
    );
    // no feature asked: the first candidate fits
    assert_eq!(get_supported_format(&candidates, ImageTiling::Linear, 0), Ok("a"));
}
