# Apollo 18 renderer

A software renderer that draws a flat triangle, a rotating cube and a terrain-shaded Moon
from NASA lunar data, written in Verus.

## Layout

- `src/` is the verified library:
  - `framebuffer`: RGBA frames, their allocation limits and pixel writes;
  - `image`: sRGB images and JPEG decoding through the `image` crate;
  - `color`: packed sRGB colors;
  - `sequence`: frame-sequence command lines and frame file names;
  - `ephemeris`: validation of hourly NASA ephemeris records, with date parsing through the
    `time` crate;
  - `octasphere`: the octahedron and its subdivision into an octasphere mesh;
  - `surface`: proofs that every subdivision level is a closed surface and how many vertices
    it has;
  - `elevation`: which elevation samples the terrain slopes are taken from;
  - `lunar`, `web`: error types shared with the application;
  - `text`: decimal formatting used in messages and file names.
- `app/` holds the rest: floating-point geometry, shading and rasterization, PNG, TIFF and
  JSON input and output, the native programs and the WebAssembly page.
- `tests/` exercises the library.
