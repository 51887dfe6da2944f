use vstd::prelude::*;

verus! {

/// The kind of a physical memory region reported at boot.
#[derive(Debug, Clone, Copy, PartialEq, Eq, Structural)]
pub enum MemoryRegionKind {
    /// Unused conventional memory, can be used by the kernel.
    Usable,
    /// Memory the bootloader created mappings in; not for the kernel.
    Bootloader,
    /// An unknown region reported by the UEFI firmware, with its memory type.
    UnknownUefi(u32),
    /// An unknown region reported by the BIOS firmware, with its memory type.
    UnknownBios(u32),
}

/// A physical memory region `[start, end)` reported at boot.
#[derive(Debug, Clone, Copy, PartialEq, Eq, Structural)]
pub struct MemoryRegion {
    pub start: u64,
    pub end: u64,
    pub kind: MemoryRegionKind,
}

/// The byte layout of a pixel in the framebuffer.
#[derive(Debug, Clone, Copy, PartialEq, Eq, Structural)]
pub enum PixelFormat {
    /// One byte red, then one byte green, then one byte blue.
    RGB,
    /// One byte blue, then one byte green, then one byte red.
    BGR,
    /// A single grayscale byte.
    U8,
    /// A layout this kernel cannot draw in.
    Other,
}

/// The geometry of a linear framebuffer.
#[derive(Debug, Clone, Copy, PartialEq, Eq, Structural)]
pub struct FrameBufferInfo {
    /// The total size in bytes.
    pub byte_len: usize,
    /// The width in pixels.
    pub horizontal_resolution: usize,
    /// The height in pixels.
    pub vertical_resolution: usize,
    /// The color format of each pixel.
    pub pixel_format: PixelFormat,
    /// The number of bytes per pixel.
    pub bytes_per_pixel: usize,
    /// The distance between the starts of two lines.
    pub stride: usize,
}

} // verus!
