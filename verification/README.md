# eli-lib

The verified core of `eli`, a command-line tool for Edgeless boot disks:
finding and choosing boot disks, reading and changing their configuration,
lifecycle hooks, kernels (Beta ISOs and Alpha WIMs), plugin packages and
LocalBoost repositories, NesPak archives and boot load screens.

## Layout

- `src/` is the library. Every function in it carries a `requires`/`ensures`
  contract that Verus proves; the public proof functions (`lemma_*`) state
  what holds across functions, such as that a version identifier reads back
  as it was written or that a text file is given back byte for byte.
  Calls into other crates (`regex`, `image`) and a few `std` conversions sit
  behind small trusted wrappers whose doc comments say what is assumed of them.
- `tests/` exercises the library on concrete values.
- `app/` is the program around the library: argument parsing, files, disks,
  network requests, threads, progress bars and the Windows APIs. It asks the
  library for every decision and hands back what it found.
