# yapraq

A terminal workspace for looking after a machine: a live system monitor,
installed applications and packages, a file browser, disk usage, a junk-file
cleaner, USB devices and machine details.

The crate is split in two:

- `src/` is the library, verified with Verus. It holds the state of every
  view and how keys become actions and actions change the state; the rules of
  the file browser (paths, safe names, what may be deleted); the orders in
  which lists are shown; the parsers for the output of package managers; and
  the formatting of sizes, percentages and error messages. Work that reaches
  outside the program is returned as an `Effect`, and its outcome is handed
  back to the library.
- `app/` is the program around it: the terminal, the event loop, the scans of
  the disk and the package managers, the USB bus, the system samplers and the
  drawing of each view.

`tests/` runs the library on concrete values, among them comparisons with the
floating-point and `std::path` computations that the library's integer and
character models stand for.
