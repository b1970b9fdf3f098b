# screenzoom

A screen recorder that zooms automatically on the user's clicks. A take is
recorded together with a log of the pointer; clicks close in time are grouped
into clusters, each cluster gets a zoom-in keyframe and, after a pause, a
zoom-out back to the full frame. The export composes every frame (crop and
scale on the GPU, then background, padding, rounded corners, shadow, motion
blur and a reconstructed cursor) and encodes it with `ffmpeg`.

## Layout

- `src/` — the verified library (Verus): the zoom keyframe planner, the
  camera and cursor timelines, manual keyframe edits, background presets,
  the input log format and its reader, capture bookkeeping, frame buffer
  arithmetic, the `ffmpeg` command lines, error texts and the preview
  encoding.
- `tests/` — tests of the library.
- `app/` — the command-line program around it: platform capture
  (`windows-capture`), input hooks (`rdev`), the GPU pass (`wgpu`), the
  floating-point styling and interpolation, project files (`serde`), and
  the child `ffmpeg` processes.
