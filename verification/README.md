# bear (verified core)

The verified core of a compilation database generator, written in Verus.

- `src/` is the library. Every function of it is verified except the seven trusted
  wrappers of `std` and `path-absolutize` calls (marked `external_body`):
  - `semantic` — compiler passes, compiler calls, recognised commands and executions;
  - `paths` — `PathBuf` and its bytes; Unix paths compared by components as
    `std::path::Path` does, and the normal form of an absolute path;
  - `source` — telling source files from flags by their extension;
  - `generic` — recognising a compiler by its executable and reading its command line;
  - `formatter` — turning compiler calls into compilation database entries
    (`clang::Entry`), with paths made absolute through `path-absolutize`;
  - `intercept` — the `PATH`-like variable and the environment of an intercepted
    build, and the exit code passed on from it;
  - `text` — UTF-8 decoding of path bytes and string helpers.
- `app/` holds what touches the machine: the collector threads, the temporary
  directory of wrapper executables and the run of the build command.
- `tests/` runs the library on concrete values.

Paths are held as `std::path::PathBuf` and specified by their bytes; command line
arguments are held as text.
