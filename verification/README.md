# infinishield

Invisible, password-protected watermarks for raster images, SVG drawings and
video.

- `src/` is the verified core (Verus): repetition error correction and the
  short frames used by the feature-point and SVG modes, byte/bit packing and
  per-copy majority voting, the ChaCha20 Fisher-Yates scrambling (a function
  of the password's SHA-256 seed and the bit count), the pseudo-noise sign
  sequences, the scanning of SVG path data and the text surgery that writes
  coordinates back, the video loop's packet and frame decisions and its copy
  between strided picture planes and packed RGB, the choice of engine for a
  file, and the engines' decisions and reports (modes, capacities,
  intensities, dry-run refusals, the info each engine returns, messages).
- `app/` is the command-line program: image and video I/O, the DWT, the
  spread-spectrum and QIM arithmetic (floating point), keypoint detection,
  and the counts the engines read off a file (keypoints, subband blocks,
  a video's duration in seconds).
- `tests/` exercises the library.
