# raytracer

Verified core of a small voxel ray tracer.

- `src/color.rs`: byte RGB colors — clamping constructor, `0xRRGGBB` conversions,
  saturating sum, and their text form; laws on hex round trips and on the sum.
- `src/lines.rs`: Bresenham rasterization of a segment, specified pixel by pixel
  (major axis one step per pixel, minor axis the ideal line rounded to the nearest
  pixel); laws on end points and connectivity.
- `src/materials.rs`: the texture store that hands out indices for loaded textures.
- `app/`: the window, lighting, materials and vector math, which work on `f32`
  values and call the library for the integer logic.
