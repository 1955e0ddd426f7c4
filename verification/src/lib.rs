//! Propellant's rendering bookkeeping: how scene objects are packed into
//! instanced draw calls and uniform buffers, and how GPU resource slots are
//! tracked between frames.
pub mod key_order;
pub mod rendering_map;
pub mod mesh_library;
pub mod draw;
pub mod graphic_pipeline_settings;
pub mod texture_library;
pub mod font_atlas;
pub mod texture_uniform;
pub mod descriptor;
pub mod uniform_buffer;
pub mod image_uniform_buffer;
pub mod object_uniform;
pub mod depth_format;
pub mod per_object_uniforms;
pub mod set_order;
pub mod frame_uniform;
