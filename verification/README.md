# sample_range

A Vulkan-rendered driving range that replays or live-streams golf shots from
a FlightScope launch monitor (live shots arrive through the flighthook
WebSocket relay).

- `src/` is the verified library: CSV record and session-export parsing,
  unit-tagged relay measurements and which of them a live shot requires, the
  reading of relay messages (through serde_json, over a model of the JSON
  document) and the choice of which carry a shot, the relay client's
  reconnect steps, the ball animation's phase machine and trail, mesh index lists, glyph
  atlas packing, the presentation choices of the renderer (surface format,
  present mode, swapchain size, queue families, layout barriers), screenshot
  and SPIR-V byte conversions, and the command line.
- `app/` is the program around it: window and event loop (winit), Vulkan
  (ash, gpu-allocator), font rasterising (fontdue), the WebSocket I/O
  (tungstenite), PNG output, and every floating-point
  computation (shot values, ball flight, camera, HUD layout, vertices).
- `tests/` runs the library on concrete inputs.

At run time the program reads `assets/font.ttf` and the compiled shaders
`shaders/spirv/*.spv`, looking for them below the working directory, then
below the executable's directory and each directory above it; compile each
GLSL shader with `glslangValidator -V shaders/<name> -o shaders/spirv/<name>.spv`.
