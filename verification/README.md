# deepcis_os

The verified core of a small x86_64 hobby kernel, written in Verus.

`src/` is the library. Its functions are proved against their contracts,
except a few small wrappers around calls into `x86_64`, `bit_field` and
`arrayvec`, whose contracts are taken from those crates' sources and
believed without proof:

- `graphics`: points, sizes and rectangles over `i32` and `usize`, colors,
  and the text forms of these values.
- `framebuffer`: drawing pixels into a linear framebuffer in RGB, BGR or
  grayscale layout, filled and outlined rectangles.
- `font`, `font_text`: drawing 8x16 glyphs and strings of them, and reading
  the font table from its text form.
- `console`: a 25x80 text console with scrolling, and a writer that draws
  what a write changed.
- `memory`, `memory_regions`: a bitmap allocator of 4 KiB physical frames
  fed from the boot memory map, and the merging of adjacent regions of that
  map.
- `pci`, `pci_scan`: configuration addresses, register decoding, and the
  bus scan and base address register reads as step functions that a
  driver feeds with register values; what a whole scan finds.
- `text`: hexadecimal and decimal digits.

`app/` is the kernel around it: the boot entry point, the page table
mapper, the I/O ports of the PCI configuration space, the global state
behind spin locks and the `print!` macros.
