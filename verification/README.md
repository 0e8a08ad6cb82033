# dof

`dof` lists Docker containers with their CPU and memory use, health, status
and published ports, as a colored table.

- `src/` is the verified library (Verus): the cell formatting (`format`,
  `ansi`), the parsing of cgroup files and the matching of container ids to
  cgroup directories (`cgroup`), the command line (`cli`), the memory column
  and the choice of where figures come from (`stats`), the table rows and
  their layout through `tabled` (`listing`), character-level helpers
  (`text`), and properties proved of all of these (`laws`).
- `app/` is the program around it: the Docker API calls, the reading of
  files, the timing and the floating-point CPU shares, and the printing.
- `tests/` runs the library on concrete values.
