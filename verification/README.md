# workplacesim

A live picture of coding agents at work: hooks report agents starting,
stopping, using tools and visiting rooms; a small office scene shows each
agent as a sprite that walks to a desk, the meeting room or the lab.

- `src/` is the verified library (Verus): the agent state machine
  (`state`), its configuration (`config`), and the renderer's logic
  (`render`): seats and routes, the sprites and their glyphs, the effects,
  the static scene, dirty rectangles, scaling into a framebuffer or a
  window buffer, and the layout of the overlays.
- `app/` is the program around it: the HTTP server and event stream, the
  configuration file, mDNS, and the render loops on `/dev/fb0` (`--fb`) or
  in a window (`--desktop`), where sprite motion, alpha fades and font
  rasterisation happen.
- `tests/` runs the library on concrete inputs.
