# compositor

The logic of a conference recording compositor, verified with Verus: which streams of the
participants are visible and in which order, where each visible stream is placed in the
output picture, how the recorded Matroska stream is cut into parts for an S3 multipart
upload, and the text styles of the overlays.

## Layout

- `src/` — the verified library.
  - `scene.rs`: the streams of a talk, the visible ones and the speaker, with the rules
    for showing, hiding, speaking and removing streams.
  - `grid.rs`, `speaker.rs`, `recording_layout.rs`, `layout.rs`: picture layouts.
  - `chunker.rs`, `upload.rs`: cutting a Matroska stream into upload parts, and what the
    completed upload holds.
  - `cli.rs`: settings of the demo program and reading a resolution such as `1920x1080`.
  - `text.rs`, `text_style.rs`, `overlays.rs`, `sinks.rs`, `debug_names.rs`: texts,
    styles and parameters of overlays and outputs.
- `tests/` — tests of the library.
- `app/` — the demo program around the library: command line, the GStreamer pipeline, the
  upload sink element, and the layouts' floating point computations.

The library's contracts are stated as `requires`/`ensures`; the properties that span
several functions are public proof functions whose names start with `law_`.
