# fisheye_defish

A verified library for fisheye photos, and `defish`, a command-line tool around
it. `defish` flattens the photos of a Laowa 8-15mm fisheye to a panoramic strip,
wraps flat photos into a fisheye disc, warps the center of a photo, and animates
the flattening.

- `src/` is the library: sampling and remapping, image-circle detection, the
  lens table and the search for a focal length, camera bodies, EXIF, the stamp
  by which a flatten inverts a refish, the timeline of an animation, ffmpeg's
  arguments, JPEG output with its settings, and the default subcommand. Every
  function states what it returns, and Verus proves it.
- `app/` is the tool: arguments, files, ffmpeg's pipe, and the floating-point
  trigonometry, which the library takes as closures and numerals.
- `tests/` runs the library on drawn photos and on files.

## What is trusted

The image decoder's pixels, the drawing canvas, the JPEG encoder, the parallel
iterator, the EXIF reader and writer, and Unicode lower-casing are called through
small wrappers whose contracts are believed. Each says above it what is claimed.

## Promises that are proved

- A bare `flatten` takes from a refished file the very geometry that was stamped
  into it.
- A command line without a subcommand means what it means with `flatten`.
- The last frame of an animation is the full flatten pixel by pixel, however it
  starts; the first shows the strip or the whole photo, and a crop phase ends on
  the strip; no two frames share a
  file, and none is wider than the cap.
- `refish` is black outside the disc; a tunnel ray ends within the frame.
- A circle's radius is one that a ray shows, or lies within the frame's sides.
- Every focal length, clamped to the lens's range, lies in a segment of the
  table. Where predicted radii meet the measured one, at a prediction or between
  two, there is one candidate, and the candidates are in order.
- What is recorded in a file is ASCII, whatever the source is called.
