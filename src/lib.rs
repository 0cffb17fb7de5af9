//! Sparse, page-granular memory for a simulated processor, filled from the
//! sections of an ELF image.

pub mod elf;
pub mod image;
pub mod memory;
pub mod section;

pub use elf::{load_sections, loadelf, ElfLoadError, SectionEntry};
pub use memory::{MemPages, Memory};
pub use section::{SecList, Section, ShFlags};
