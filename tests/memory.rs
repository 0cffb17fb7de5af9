use elfmem::{MemPages, Memory};

#[test]
fn it_works() {
    let mut memory = MemPages::new();
    memory.write32(0, 10);
    memory.write32(100, 255);
    memory.write32(1800, 111111);
    assert_eq!(memory.read32(0), 10);
    assert_eq!(memory.read32(100), 255);
    assert_eq!(memory.read32(1800), 111111);
}

#[test]
fn untouched_neighbour_reads_zero() {
    let mut memory = MemPages::new();
    memory.write32(0, 10);
    memory.write32(100, 255);
    memory.write32(1800, 111111);
    assert_eq!(memory.read32(4), 0);
}

#[test]
fn fresh_memory_reads_zero() {
    let memory = MemPages::new();
    for ad in [0usize, 1, 3, 4095, 16384, 0x1234_5678, usize::MAX] {
        assert_eq!(memory.read8(ad), 0);
        assert_eq!(memory.read16(ad), 0);
        assert_eq!(memory.read32(ad), 0);
        assert_eq!(memory.read64(ad), 0);
    }
}

#[test]
fn reads_do_not_disturb_later_writes() {
    let mut memory = MemPages::new();
    assert_eq!(memory.read32(0x8000), 0);
    memory.write8(0x8001, 0xab);
    assert_eq!(memory.read32(0x8000), 0x0000_ab00);
}

#[test]
fn round_trip_each_width() {
    let mut memory = MemPages::new();
    memory.write8(0x103, 0x7f);
    assert_eq!(memory.read8(0x103), 0x7f);
    memory.write16(0x202, 0xbeef);
    assert_eq!(memory.read16(0x202), 0xbeef);
    memory.write32(0x300, 0xdead_beef);
    assert_eq!(memory.read32(0x300), 0xdead_beef);
    memory.write64(0x408, 0x0123_4567_89ab_cdef);
    assert_eq!(memory.read64(0x408), 0x0123_4567_89ab_cdef);
}

#[test]
fn byte_write_keeps_other_lanes() {
    let mut memory = MemPages::new();
    memory.write32(0x40, 0x4433_2211);
    memory.write8(0x42, 0xff);
    assert_eq!(memory.read8(0x40), 0x11);
    assert_eq!(memory.read8(0x41), 0x22);
    assert_eq!(memory.read8(0x42), 0xff);
    assert_eq!(memory.read8(0x43), 0x44);
    assert_eq!(memory.read32(0x40), 0x44ff_2211);
}

#[test]
fn half_write_keeps_other_lane() {
    let mut memory = MemPages::new();
    memory.write32(0x40, 0x4433_2211);
    memory.write16(0x42, 0xabcd);
    assert_eq!(memory.read16(0x40), 0x2211);
    assert_eq!(memory.read16(0x42), 0xabcd);
    assert_eq!(memory.read32(0x40), 0xabcd_2211);
}

#[test]
fn lanes_are_little_endian() {
    let mut memory = MemPages::new();
    memory.write64(0x10, 0x8877_6655_4433_2211);
    assert_eq!(memory.read32(0x10), 0x4433_2211);
    assert_eq!(memory.read32(0x14), 0x8877_6655);
    assert_eq!(memory.read16(0x16), 0x8877);
    assert_eq!(memory.read8(0x15), 0x66);
}

#[test]
fn pages_do_not_alias() {
    let mut memory = MemPages::new();
    // word address 0 and word address 4096 share a page index but not a tag
    memory.write32(0, 1);
    memory.write32(4 * 4096, 2);
    assert_eq!(memory.read32(0), 1);
    assert_eq!(memory.read32(4 * 4096), 2);
}

#[test]
fn dword_write_at_page_end_stays_in_page() {
    let mut memory = MemPages::new();
    // byte address of the last word of page 0
    let last = 4 * 4095;
    memory.write64(last, 0x1111_2222_3333_4444);
    assert_eq!(memory.read64(last), 0x1111_2222_3333_4444);
    // the doubleword is the aligned pair of words 4094 and 4095
    assert_eq!(memory.read32(4 * 4094), 0x3333_4444);
    assert_eq!(memory.read32(last), 0x1111_2222);
    // the next page is untouched
    assert_eq!(memory.read32(4 * 4096), 0);
    assert_eq!(memory.read64(4 * 4096), 0);
}

#[test]
fn dword_access_is_aligned_down() {
    let mut memory = MemPages::new();
    memory.write64(0x23, 0x0102_0304_0506_0708);
    assert_eq!(memory.read64(0x20), 0x0102_0304_0506_0708);
    assert_eq!(memory.read64(0x27), 0x0102_0304_0506_0708);
}

#[test]
fn highest_address() {
    let mut memory = MemPages::new();
    memory.write8(usize::MAX, 0x5a);
    assert_eq!(memory.read8(usize::MAX), 0x5a);
    assert_eq!(memory.read32(usize::MAX), 0x5a00_0000);
    assert_eq!(memory.read8(usize::MAX - 1), 0);
}
