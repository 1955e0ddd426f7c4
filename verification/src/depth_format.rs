//! Choosing the format of the depth attachment: the first candidate format
//! whose features, for the image tiling in use, hold every required feature.
use vstd::prelude::*;

verus! {

/// The features a device offers for a format, as Vulkan feature bit masks.
#[derive(Clone, Copy, Debug, PartialEq, Eq, Structural)]
pub struct FormatProperties {
    /// Features of images with linear tiling.
    pub linear_tiling_features: u32,
    /// Features of images with optimal tiling.
    pub optimal_tiling_features: u32,
}

/// How the texels of an image are laid out.
#[derive(Clone, Copy, Debug, PartialEq, Eq, Structural)]
pub enum ImageTiling {
    Linear,
    Optimal,
    /// Any other tiling: no format is accepted for it.
    Other,
}

/// The formats tried for the depth attachment, in order of preference.
#[derive(Clone, Copy, Debug, PartialEq, Eq, Structural)]
pub enum DepthFormat {
    D32Sfloat,
    D32SfloatS8Uint,
    D24UnormS8Uint,
}

/// Errors of the rendering setup.
#[derive(Clone, Copy, Debug, PartialEq, Eq, Structural)]
pub enum RenderingError {
    /// No candidate format supports what the depth attachment needs.
    NoSupportedDepthFormat,
}

/// The feature bits that hold for the tiling; none for an unknown tiling.
pub open spec fn supports(properties: FormatProperties, tiling: ImageTiling, features: u32) -> bool {
    match tiling {
        ImageTiling::Linear => properties.linear_tiling_features & features == features,
        ImageTiling::Optimal => properties.optimal_tiling_features & features == features,
        ImageTiling::Other => false,
    }
}

/// The Vulkan bit of the depth stencil attachment format feature.
pub const DEPTH_STENCIL_ATTACHMENT: u32 = 0x200;

fn is_supported(properties: FormatProperties, tiling: ImageTiling, features: u32) -> (r: bool)
    ensures
        r == supports(properties, tiling, features),
{
    match tiling {
        ImageTiling::Linear => properties.linear_tiling_features & features == features,
        ImageTiling::Optimal => properties.optimal_tiling_features & features == features,
        ImageTiling::Other => false,
    }
}

/// The first candidate whose properties support `features` with `tiling`,
/// or `NoSupportedDepthFormat` when none does.
pub fn get_supported_format<F: Copy>(
    candidates: &[(F, FormatProperties)],
    tiling: ImageTiling,
    features: u32,
) -> (r: Result<F, RenderingError>)
    ensures
        match r {
            Ok(f) => exists|i: int|
                0 <= i < candidates@.len() && candidates@[i].0 == f && supports(
                    candidates@[i].1,
                    tiling,
                    features,
                ) && forall|j: int|
                    0 <= j < i ==> !supports(#[trigger] candidates@[j].1, tiling, features),
            Err(e) => e == RenderingError::NoSupportedDepthFormat && forall|j: int|
                0 <= j < candidates@.len() ==> !supports(#[trigger] candidates@[j].1, tiling, features),
        },
{
    let mut i: usize = 0;
    while i < candidates.len()
        invariant
            0 <= i <= candidates@.len(),
            forall|j: int| 0 <= j < i ==> !supports(#[trigger] candidates@[j].1, tiling, features),
        decreases candidates@.len() - i,
    {
        let (format, properties) = candidates[i];
        if is_supported(properties, tiling, features) {
            return Ok(format);
        }
        i = i + 1;
    }
    Err(RenderingError::NoSupportedDepthFormat)
}

/// The depth format: the first of `D32Sfloat`, `D32SfloatS8Uint` and
/// `D24UnormS8Uint` whose optimal tiling supports depth stencil attachments,
/// given the device's properties of each.
pub fn get_depth_format(
    d32_sfloat: FormatProperties,
    d32_sfloat_s8_uint: FormatProperties,
    d24_unorm_s8_uint: FormatProperties,
) -> (r: Result<DepthFormat, RenderingError>)
    ensures
        supports(d32_sfloat, ImageTiling::Optimal, DEPTH_STENCIL_ATTACHMENT) ==> r == Ok::<
            DepthFormat,
            RenderingError,
        >(DepthFormat::D32Sfloat),
        !supports(d32_sfloat, ImageTiling::Optimal, DEPTH_STENCIL_ATTACHMENT) && supports(
            d32_sfloat_s8_uint,
            ImageTiling::Optimal,
            DEPTH_STENCIL_ATTACHMENT,
        ) ==> r == Ok::<DepthFormat, RenderingError>(DepthFormat::D32SfloatS8Uint),
        !supports(d32_sfloat, ImageTiling::Optimal, DEPTH_STENCIL_ATTACHMENT) && !supports(
            d32_sfloat_s8_uint,
            ImageTiling::Optimal,
            DEPTH_STENCIL_ATTACHMENT,
        ) && supports(d24_unorm_s8_uint, ImageTiling::Optimal, DEPTH_STENCIL_ATTACHMENT) ==> r
            == Ok::<DepthFormat, RenderingError>(DepthFormat::D24UnormS8Uint),
        !supports(d32_sfloat, ImageTiling::Optimal, DEPTH_STENCIL_ATTACHMENT) && !supports(
            d32_sfloat_s8_uint,
            ImageTiling::Optimal,
            DEPTH_STENCIL_ATTACHMENT,
        ) && !supports(d24_unorm_s8_uint, ImageTiling::Optimal, DEPTH_STENCIL_ATTACHMENT) ==> r
            == Err::<DepthFormat, RenderingError>(RenderingError::NoSupportedDepthFormat),
{
    let candidates = [
        (DepthFormat::D32Sfloat, d32_sfloat),
        (DepthFormat::D32SfloatS8Uint, d32_sfloat_s8_uint),
        (DepthFormat::D24UnormS8Uint, d24_unorm_s8_uint),
    ];
    let slice = candidates.as_slice();
    let r = get_supported_format(slice, ImageTiling::Optimal, DEPTH_STENCIL_ATTACHMENT);
    proof {
        assert(slice@ == candidates@);
        assert(slice@.len() == 3);
        assert(candidates@[0] == (DepthFormat::D32Sfloat, d32_sfloat));
        assert(candidates@[1] == (DepthFormat::D32SfloatS8Uint, d32_sfloat_s8_uint));
        assert(candidates@[2] == (DepthFormat::D24UnormS8Uint, d24_unorm_s8_uint));
        if let Ok(f) = r {
            let i = choose|i: int|
                0 <= i < candidates@.len() && candidates@[i].0 == f && supports(
                    candidates@[i].1,
                    ImageTiling::Optimal,
                    DEPTH_STENCIL_ATTACHMENT,
                ) && forall|j: int|
                    0 <= j < i ==> !supports(
                        #[trigger] candidates@[j].1,
                        ImageTiling::Optimal,
                        DEPTH_STENCIL_ATTACHMENT,
                    );
            if i > 0 {
                assert(!supports(candidates@[0].1, ImageTiling::Optimal, DEPTH_STENCIL_ATTACHMENT));
            }
            if i > 1 {
                assert(!supports(candidates@[1].1, ImageTiling::Optimal, DEPTH_STENCIL_ATTACHMENT));
            }
        } else {
            assert(!supports(candidates@[0].1, ImageTiling::Optimal, DEPTH_STENCIL_ATTACHMENT));
            assert(!supports(candidates@[1].1, ImageTiling::Optimal, DEPTH_STENCIL_ATTACHMENT));
            assert(!supports(candidates@[2].1, ImageTiling::Optimal, DEPTH_STENCIL_ATTACHMENT));
        }
    }
    r
}

} // verus!
