pub mod boot_info;
pub mod console;
pub mod error;
pub mod font;
pub mod font_text;
pub mod framebuffer;
pub mod graphics;
pub mod memory;
pub mod memory_regions;
pub mod pci;
pub mod text;
pub mod pci_scan;
