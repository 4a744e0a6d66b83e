# clip_recorder

A screen and audio clip recorder for Windows: it keeps the last seconds of
the desktop and of every process's audio in memory, and saves them as an
mp4 file when a keyboard shortcut is pressed.

- `src/` is the verified core: the packet ring buffers and the laws they
  keep, the AAC framing of captured PCM with silence for capture gaps,
  stereo plane splitting, pixel-format conversions, shortcut tracking,
  capture pacing, and the naming and timestamp rules of a save.
- `app/` is the program around it: WASAPI and Direct3D capture, the media
  library's encoders and muxer, the keyboard hook and the main loop.
- `tests/` runs the library on concrete values.
