# ferricast

A screen recorder and editor for GNOME, built around a library that Verus verifies.

- `src/` is the library: the cursor's path and its file format, smoothing, zoom effects and their
  keyframes, the timeline, timecodes, recording, exporting. Every function states what it returns
  or changes. What is to be done outside (saving, pushing, drawing) is returned to the caller, who
  does it and tells the outcome. The laws of the library are public proof functions whose names
  begin with `law_`.
- `app/` is the application around it: GTK windows, GStreamer pipelines, the PipeWire stream,
  files, and everything that computes with floating-point numbers. The library holds such numbers
  by their bit patterns (`double::Double`), compares and converts them, and asks its caller for
  the rest.
- `tests/` holds the library's tests.

What the library takes on trust is marked `external_body`: reading UTF-8, replacing a path's
extension and feeding a hasher from the standard library, making and encoding pictures with
`image`, and setting up an encoder with `gifski`.
