# propellant

Rendering bookkeeping of the Propellant engine, verified with Verus.

`src/` holds the logic with its contracts and laws:

- `rendering_map`: packing scene objects into per mesh instance ranges, and
  the slot of every object in the per object buffers;
- `draw`: the instanced draw calls that follow from those ranges;
- `mesh_library`, `texture_library`: resources waiting for upload and
  resources living on the GPU; textures get slots in the shaders' array;
- `texture_uniform`: the growing texture descriptor set and which slots are
  still to be written to it;
- `uniform_buffer`, `image_uniform_buffer`, `object_uniform`,
  `per_object_uniforms`: where each uniform lives in its GPU buffer, when a
  buffer must grow, and what the descriptor sets point to;
- `descriptor`: descriptor pool sizes;
- `set_order`: the order of a pipeline's descriptor sets and layouts;
- `frame_uniform`: where each image's copy of a per frame uniform lives;
- `depth_format`: choosing the depth attachment format;
- `font_atlas`: laying out rasterized glyphs in the font atlas;
- `graphic_pipeline_settings`: per pipeline settings.

GPU handles are carried through as type parameters. `app/` holds the
Vulkan values of the library's enums, the device queries, font rasterization
and the uniform update timers, which work on floating point.
