# launch

A toolkit for app launches: app icons for every platform, device mockups of
screenshots, collages, generated starter logos, and screenshot capture from
simulators, Android devices and desktop windows.

## Layout

- `src/` is the library, written in Verus. Its functions carry contracts
  that Verus proves, except the few trusted wrappers that call the `image`
  and `png` crates (`imaging`) or std (`text::push_char` and, in `naming`,
  the lowercase and alphanumeric tests): their contracts are assumed, and
  their doc comments say what they claim.
  - `rng`, `generate_logo`, `symbols`: the seeded random choices and the integer
    geometry of a generated logo, and the cleaning of its wordmark;
  - `raster`, `output_image`, `resize`, `imaging`: pixel buffers, blending onto
    white, icon resizing and PNG encoding (the `image` crate does the
    decoding, resampling and encoding, behind the trusted items of `imaging`);
  - `edge_blend`, `mockup`: composing a screenshot into a device frame from
    the frame's encoded template and mask, and recognising finished mockups;
  - `collage`: the grid a collage is laid out on, and its cell-sized images;
  - `text`, `capture`, `naming`: reading what the capture tools print, and
    naming captured files.
- `tests/` exercises the library on concrete values.
- `app/` is the command-line program around the library: argument parsing,
  files, processes, drawing and the other floating-point work.
