# mycel

The MycelOS tools — `mycel` (system manager), `mycel-pkg` (package manager),
`mycel-compose` (service composer) and `fessus-init` (desktop configuration) —
as a verified library with a thin program around it.

* `src/` — the library, verified with Verus. The tools' decisions are here,
  with a contract: weaving service declarations into an s6-rc tree
  (`compose`), planning a switch, a rollback, a purge and the boot menu
  (`commands`, `system`), the package index and overlay fetch plans
  (`resolver`), recipes, checksums, install layouts and search (`pkg`), and
  the configuration files (`config`, `fessus`). `text`, `num` and `order` hold
  the string, number and ordering primitives the rest is specified with.
* `tests/` — tests of the library on concrete values.
* `app/` — one binary that acts as `mycel`, `mycel-pkg`, `mycel-compose` or
  `fessus-init` by the name it is run under: argument parsing, files, processes,
  downloads, archives, TOML (de)serialisation and terminal output. It also
  sequences the commands that recompile and swap the s6-rc service database,
  stopping at the first that fails; which database to build and which old
  ones to prune is decided in `src/`.
