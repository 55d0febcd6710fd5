# rawdev

A RAW photo developer whose decision and indexing logic is verified with Verus.

- `src/` — the verified library: colour-filter-array patterns and their
  shifting (`cfa`), choosing the camera colour matrix and cropping the sensor
  data to its active area (`decode`), the sites that feed bilinear and RCD
  demosaicing (`demosaic`), colour-matrix adaptation, DCP profile planning and
  3-D table addressing (`color`), reading a DCP profile's layout from its
  bytes: the TIFF/DCP header and first directory (`dcp`), PPM framing and output-format choice
  (`output`).
- `app/` — the command-line program: RAW decoding through `rawler`, the
  floating-point pixel arithmetic, DCP file access and image writing.
- `tests/` — tests of the library on concrete values.
