# pointcloud_cli

A point cloud and surface reconstruction tool whose file-format and
bookkeeping logic is a Verus-verified library.

- `src/` — the verified library: PLY, PCD, LAS, OBJ and STL header and body
  decoding (coordinates kept as IEEE-754 bit patterns), the binary PLY
  writers for meshes and point clouds with read-back laws, format detection,
  output path resolution, union-find with path compression, report text
  helpers, the integer part of a diff of two pipeline reports (sorted file
  union, presence counts, face and time changes) and the decisions of the
  command line tool.
- `tests/` — tests of the library on concrete files and values.
- `app/` — the command line program: file I/O, floating-point algorithms
  (filtering, downsampling, normal estimation, reconstruction, measurement)
  and printing, built on the library.

The program offers the `info`, `convert`, `measure` and `example-config`
commands. It has no `run`, `diff`, `batch` or `benchmark` command: a
pipeline runner, a printer of report diffs, a batch driver and a benchmark
harness are not part of it, though the library holds verified decisions such
commands build on (output paths, dry-run verdicts, the integer part of a
report diff).
