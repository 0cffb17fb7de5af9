use elfmem::image::read_elf;
use elfmem::{load_sections, loadelf, ElfLoadError, MemPages, Memory, SecList, SectionEntry};

fn entry(name: &str, flags: u64, progbits: bool, offset: usize, size: usize, address: usize) -> SectionEntry {
    SectionEntry { name: name.to_string(), flags, progbits, offset, size, address }
}

fn put16(b: &mut Vec<u8>, at: usize, v: u16) {
    b[at..at + 2].copy_from_slice(&v.to_le_bytes());
}

fn put32(b: &mut Vec<u8>, at: usize, v: u32) {
    b[at..at + 4].copy_from_slice(&v.to_le_bytes());
}

fn put64(b: &mut Vec<u8>, at: usize, v: u64) {
    b[at..at + 8].copy_from_slice(&v.to_le_bytes());
}

/// A little-endian ELF64 executable with entry 0x1000 and three sections: the
/// null section, `.text` (PROGBITS, alloc + exec, 8 bytes at 0x1000) and
/// `.shstrtab` (STRTAB, not allocatable, at address 0).
fn tiny_elf() -> Vec<u8> {
    let mut b = vec![0u8; 288];
    b[0..4].copy_from_slice(&[0x7f, b'E', b'L', b'F']);
    b[4] = 2;
    b[5] = 1;
    b[6] = 1;
    put16(&mut b, 16, 2);
    put16(&mut b, 18, 0x3e);
    put32(&mut b, 20, 1);
    put64(&mut b, 24, 0x1000);
    put64(&mut b, 40, 96);
    put16(&mut b, 52, 64);
    put16(&mut b, 54, 56);
    put16(&mut b, 58, 64);
    put16(&mut b, 60, 3);
    put16(&mut b, 62, 2);
    b[64..72].copy_from_slice(&[1, 2, 3, 4, 5, 6, 7, 8]);
    b[72..89].copy_from_slice(b"\0.text\0.shstrtab\0");
    let text = 96 + 64;
    put32(&mut b, text, 1);
    put32(&mut b, text + 4, 1);
    put64(&mut b, text + 8, 0x6);
    put64(&mut b, text + 16, 0x1000);
    put64(&mut b, text + 24, 64);
    put64(&mut b, text + 32, 8);
    put64(&mut b, text + 48, 4);
    let strtab = 96 + 128;
    put32(&mut b, strtab, 7);
    put32(&mut b, strtab + 4, 3);
    put64(&mut b, strtab + 24, 72);
    put64(&mut b, strtab + 32, 17);
    put64(&mut b, strtab + 48, 1);
    b
}

#[test]
fn progbits_section_lands_at_its_address() {
    let bytes = tiny_elf();
    let mut memory = MemPages::new();
    let mut table: SecList = Vec::new();
    let r = loadelf(&bytes, &mut memory, &mut table);
    assert_eq!(r, Ok(0x1000));
    for i in 0..8usize {
        assert_eq!(memory.read8(0x1000 + i), (i + 1) as u8);
    }
    assert_eq!(memory.read32(0x1000), 0x0403_0201);
    assert_eq!(memory.read32(0x1004), 0x0807_0605);
    assert_eq!(memory.read8(0x1008), 0);
}

#[test]
fn every_section_is_recorded_in_order() {
    let bytes = tiny_elf();
    let mut memory = MemPages::new();
    let mut table: SecList = Vec::new();
    loadelf(&bytes, &mut memory, &mut table).unwrap();
    assert_eq!(table.len(), 3);
    assert_eq!(table[0].get_name(), "");
    assert!(!table[0].get_flag().alloc);
    assert_eq!(table[1].get_name(), ".text");
    assert!(table[1].get_flag().alloc && table[1].get_flag().execute);
    assert_eq!(table[1].get_stad(), 0x1000);
    assert_eq!(table[1].get_size(), 8);
    assert_eq!(table[2].get_name(), ".shstrtab");
    assert!(!table[2].get_flag().alloc);
    assert_eq!(table[2].stad, 0);
    assert_eq!(table[2].size, 17);
}

#[test]
fn read_elf_reports_entry_and_sections() {
    let bytes = tiny_elf();
    let (entry, secs) = read_elf(&bytes).unwrap();
    assert_eq!(entry, 0x1000);
    assert_eq!(secs.len(), 3);
    assert_eq!(secs[1].name, ".text");
    assert_eq!(secs[1].flags, 0x6);
    assert!(secs[1].progbits);
    assert_eq!((secs[1].offset, secs[1].size, secs[1].address), (64, 8, 0x1000));
    assert!(!secs[2].progbits);
}

#[test]
fn truncated_header_is_a_format_error() {
    let bytes = tiny_elf();
    assert_eq!(read_elf(&bytes[..40]).err(), Some(ElfLoadError::FormatError));
}

#[test]
fn big_endian_image_is_a_format_error() {
    let mut bytes = tiny_elf();
    bytes[5] = 2;
    assert_eq!(read_elf(&bytes).err(), Some(ElfLoadError::FormatError));
}

#[test]
fn section_table_past_end_is_a_format_error() {
    let mut bytes = tiny_elf();
    put16(&mut bytes, 60, 4);
    let mut memory = MemPages::new();
    let mut table: SecList = Vec::new();
    assert_eq!(loadelf(&bytes, &mut memory, &mut table), Err(ElfLoadError::FormatError));
    assert!(table.is_empty());
}

#[test]
fn unterminated_name_is_a_format_error() {
    let mut bytes = tiny_elf();
    // point the name of `.text` at the last byte of the file, which is not zero
    put32(&mut bytes, 96 + 64, 288 - 72 - 1);
    bytes[287] = b'x';
    assert_eq!(read_elf(&bytes).err(), Some(ElfLoadError::FormatError));
}

#[test]
fn name_that_is_not_utf8_is_a_format_error() {
    let mut bytes = tiny_elf();
    bytes[73] = 0xff;
    assert_eq!(read_elf(&bytes).err(), Some(ElfLoadError::FormatError));
}

#[test]
fn progbits_past_end_of_file_is_a_format_error() {
    let mut bytes = tiny_elf();
    put64(&mut bytes, 96 + 64 + 32, 1000);
    let mut memory = MemPages::new();
    let mut table: SecList = Vec::new();
    assert_eq!(loadelf(&bytes, &mut memory, &mut table), Err(ElfLoadError::FormatError));
    assert!(table.is_empty());
    assert_eq!(memory.read8(0x1000), 0);
}

#[test]
fn string_table_leaves_memory_zero() {
    let bytes = tiny_elf();
    let mut memory = MemPages::new();
    let mut table: SecList = Vec::new();
    loadelf(&bytes, &mut memory, &mut table).unwrap();
    for ad in 0..17usize {
        assert_eq!(memory.read8(ad), 0);
    }
}

#[test]
fn not_an_elf_is_a_format_error() {
    let mut memory = MemPages::new();
    memory.write32(0, 9);
    let mut table: SecList = Vec::new();
    let r = loadelf(b"definitely not an elf image", &mut memory, &mut table);
    assert_eq!(r, Err(ElfLoadError::FormatError));
    assert!(table.is_empty());
    assert_eq!(memory.read32(0), 9);
}

#[test]
fn sections_copy_zero_fill_or_skip() {
    let bytes: Vec<u8> = (10u8..30).collect();
    let secs = vec![
        entry(".text", 0x6, true, 2, 4, 0x100),
        entry(".bss", 0x3, false, 0, 3, 0x200),
        entry(".symtab", 0x0, false, 0, 8, 0x300),
        entry(".comment", 0x0, true, 0, 8, 0x400),
    ];
    let mut memory = MemPages::new();
    memory.write32(0x200, 0xffff_ffff);
    memory.write32(0x300, 0xaaaa_aaaa);
    let mut table: SecList = Vec::new();
    assert_eq!(load_sections(&bytes, &secs, &mut memory, &mut table), Ok(()));
    assert_eq!(memory.read32(0x100), u32::from_le_bytes([12, 13, 14, 15]));
    // zero fill covers three bytes; the fourth keeps its old value
    assert_eq!(memory.read32(0x200), 0xff00_0000);
    // non-allocatable sections write nothing
    assert_eq!(memory.read32(0x300), 0xaaaa_aaaa);
    assert_eq!(memory.read64(0x400), 0);
    assert_eq!(table.len(), 4);
    let names: Vec<&str> = table.iter().map(|s| s.get_name()).collect();
    assert_eq!(names, vec![".text", ".bss", ".symtab", ".comment"]);
}

#[test]
fn later_section_overwrites_earlier() {
    let bytes: Vec<u8> = vec![1, 2, 3, 4];
    let secs = vec![entry("a", 0x2, true, 0, 4, 0x10), entry("b", 0x2, false, 0, 2, 0x11)];
    let mut memory = MemPages::new();
    let mut table: SecList = Vec::new();
    assert_eq!(load_sections(&bytes, &secs, &mut memory, &mut table), Ok(()));
    assert_eq!(memory.read32(0x10), u32::from_le_bytes([1, 0, 0, 4]));
}

#[test]
fn section_past_end_of_file_is_a_format_error() {
    let bytes: Vec<u8> = vec![1, 2, 3, 4];
    let secs = vec![entry("ok", 0x2, true, 0, 4, 0x10), entry("bad", 0x2, true, 2, 4, 0x20)];
    let mut memory = MemPages::new();
    let mut table: SecList = Vec::new();
    assert_eq!(load_sections(&bytes, &secs, &mut memory, &mut table), Err(ElfLoadError::FormatError));
    assert!(table.is_empty());
    assert_eq!(memory.read32(0x10), 0);
}

#[test]
fn section_past_end_of_address_space_is_a_format_error() {
    let bytes: Vec<u8> = vec![];
    let secs = vec![entry(".bss", 0x2, false, 0, 16, usize::MAX - 4)];
    let mut memory = MemPages::new();
    let mut table: SecList = Vec::new();
    assert_eq!(load_sections(&bytes, &secs, &mut memory, &mut table), Err(ElfLoadError::FormatError));
    assert!(table.is_empty());
}

#[test]
fn unallocated_section_may_lie_outside_file() {
    let bytes: Vec<u8> = vec![];
    let secs = vec![entry(".debug", 0x0, true, 100, 100, usize::MAX)];
    let mut memory = MemPages::new();
    let mut table: SecList = Vec::new();
    assert_eq!(load_sections(&bytes, &secs, &mut memory, &mut table), Ok(()));
    assert_eq!(table.len(), 1);
}
