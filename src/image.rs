use crate::elf::{infos, ElfLoadError, SectionEntry, SectionInfo};
use vstd::prelude::*;
use vstd::slice::slice_subrange;

verus! {

/// What `std::str::from_utf8` makes of a byte sequence: its characters, or
/// `None` where the bytes are not valid UTF-8.
pub uninterp spec fn utf8_of(b: Seq<u8>) -> Option<Seq<char>>;

/// Relies on std's `str::from_utf8`: decodes `b`, and fails exactly when `b`
/// is not valid UTF-8. The result depends on the bytes alone.
#[verifier::external_body]
fn decode_utf8(b: &[u8]) -> (r: Option<&str>)
    ensures
        r is Some <==> utf8_of(b@) is Some,
        r matches Some(s) ==> utf8_of(b@) == Some(s@),
{
    std::str::from_utf8(b).ok()
}

/// Little-endian 16-bit value at `at`.
pub open spec fn le16(b: Seq<u8>, at: int) -> int {
    b[at] + 256 * b[at + 1]
}

/// Little-endian 32-bit value at `at`.
pub open spec fn le32(b: Seq<u8>, at: int) -> int {
    le16(b, at) + 65536 * le16(b, at + 2)
}

/// Little-endian 64-bit value at `at`.
pub open spec fn le64(b: Seq<u8>, at: int) -> int {
    le32(b, at) + 4294967296 * le32(b, at + 4)
}

/// The image is of class ELF64 (else ELF32).
pub open spec fn is64(b: Seq<u8>) -> bool {
    b[4] == 2
}

/// The ELF header: magic number, class 32 or 64 bits, little-endian data, and
/// room for the whole header of that class.
pub open spec fn header_ok(b: Seq<u8>) -> bool {
    &&& b.len() >= 16
    &&& b[0] == 0x7f && b[1] == 0x45 && b[2] == 0x4c && b[3] == 0x46
    &&& b[4] == 1 || b[4] == 2
    &&& b[5] == 1
    &&& b.len() >= if is64(b) { 64int } else { 52int }
}

/// Entry point field of the ELF header.
pub open spec fn e_entry(b: Seq<u8>) -> int {
    if is64(b) { le64(b, 24) } else { le32(b, 24) }
}

/// File offset of the section header table.
pub open spec fn e_shoff(b: Seq<u8>) -> int {
    if is64(b) { le64(b, 40) } else { le32(b, 32) }
}

/// Size of one section header.
pub open spec fn e_shentsize(b: Seq<u8>) -> int {
    if is64(b) { le16(b, 58) } else { le16(b, 46) }
}

/// Number of section headers.
pub open spec fn e_shnum(b: Seq<u8>) -> int {
    if is64(b) { le16(b, 60) } else { le16(b, 48) }
}

/// Index of the section that holds the section names.
pub open spec fn e_shstrndx(b: Seq<u8>) -> int {
    if is64(b) { le16(b, 62) } else { le16(b, 50) }
}

/// The section header table: entries large enough for the class, all inside
/// the file, and a name section among them when there is any section.
pub open spec fn table_ok(b: Seq<u8>) -> bool {
    &&& e_shentsize(b) >= if is64(b) { 64int } else { 40int }
    &&& e_shoff(b) + e_shnum(b) * e_shentsize(b) <= b.len()
    &&& e_shnum(b) > 0 ==> e_shstrndx(b) < e_shnum(b)
}

/// File offset of section header `i`.
pub open spec fn sh_at(b: Seq<u8>, i: int) -> int {
    e_shoff(b) + i * e_shentsize(b)
}

/// Offset of the name of section `i` in the name section.
pub open spec fn sh_name(b: Seq<u8>, i: int) -> int {
    le32(b, sh_at(b, i))
}

/// Type of section `i`.
pub open spec fn sh_type(b: Seq<u8>, i: int) -> int {
    le32(b, sh_at(b, i) + 4)
}

/// Raw flag mask of section `i`.
pub open spec fn sh_flags(b: Seq<u8>, i: int) -> int {
    if is64(b) { le64(b, sh_at(b, i) + 8) } else { le32(b, sh_at(b, i) + 8) }
}

/// Virtual address of section `i`.
pub open spec fn sh_addr(b: Seq<u8>, i: int) -> int {
    if is64(b) { le64(b, sh_at(b, i) + 16) } else { le32(b, sh_at(b, i) + 12) }
}

/// File offset of the bytes of section `i`.
pub open spec fn sh_offset(b: Seq<u8>, i: int) -> int {
    if is64(b) { le64(b, sh_at(b, i) + 24) } else { le32(b, sh_at(b, i) + 16) }
}

/// Size in bytes of section `i`.
pub open spec fn sh_size(b: Seq<u8>, i: int) -> int {
    if is64(b) { le64(b, sh_at(b, i) + 32) } else { le32(b, sh_at(b, i) + 20) }
}

/// File offset where the name of section `i` starts.
pub open spec fn name_start(b: Seq<u8>, i: int) -> int {
    sh_offset(b, e_shstrndx(b)) + sh_name(b, i)
}

/// `j` is the first zero byte at or after `s`.
pub open spec fn first_nul(b: Seq<u8>, s: int, j: int) -> bool {
    &&& s <= j < b.len()
    &&& b[j] == 0
    &&& forall|k: int| s <= k < j ==> b[k] != 0
}

/// The bytes of the zero-terminated name of section `i`.
pub open spec fn name_bytes(b: Seq<u8>, i: int) -> Seq<u8> {
    let s = name_start(b, i);
    b.subrange(s, choose|j: int| first_nul(b, s, j))
}

/// Section `i` can be read: its name is zero-terminated inside the file and
/// valid UTF-8, and its offset, size and address fit a `usize`.
pub open spec fn section_ok(b: Seq<u8>, i: int) -> bool {
    &&& exists|j: int| first_nul(b, name_start(b, i), j)
    &&& utf8_of(name_bytes(b, i)) is Some
    &&& sh_offset(b, i) <= usize::MAX
    &&& sh_size(b, i) <= usize::MAX
    &&& sh_addr(b, i) <= usize::MAX
}

/// The image is a well-formed little-endian ELF file whose every section can be read.
pub open spec fn elf_ok(b: Seq<u8>) -> bool {
    &&& header_ok(b)
    &&& table_ok(b)
    &&& e_entry(b) <= usize::MAX
    &&& forall|i: int| 0 <= i < e_shnum(b) ==> #[trigger] section_ok(b, i)
}

/// Section `i` of the image: a section of type 1 (PROGBITS) has its bytes in the file.
pub open spec fn elf_section(b: Seq<u8>, i: int) -> SectionInfo {
    SectionInfo {
        name: match utf8_of(name_bytes(b, i)) {
            Some(n) => n,
            None => Seq::empty(),
        },
        flags: sh_flags(b, i) as u64,
        progbits: sh_type(b, i) == 1,
        offset: sh_offset(b, i) as usize,
        size: sh_size(b, i) as usize,
        address: sh_addr(b, i) as usize,
    }
}

/// All sections of the image, in file order.
pub open spec fn elf_sections(b: Seq<u8>) -> Seq<SectionInfo> {
    Seq::new(e_shnum(b) as nat, |i: int| elf_section(b, i))
}

/// The little-endian 16-bit value at `at`.
fn read16(b: &[u8], at: usize) -> (r: u64)
    requires
        at + 2 <= b@.len(),
    ensures
        r == le16(b@, at as int),
        r <= 0xffff,
{
    b[at] as u64 + 256 * (b[at + 1] as u64)
}

/// The little-endian 32-bit value at `at`.
fn read32(b: &[u8], at: usize) -> (r: u64)
    requires
        at + 4 <= b@.len(),
    ensures
        r == le32(b@, at as int),
        r <= 0xffff_ffff,
{
    let _n = b.len();
    read16(b, at) + 65536 * read16(b, at + 2)
}

/// The little-endian 64-bit value at `at`.
fn read64(b: &[u8], at: usize) -> (r: u64)
    requires
        at + 8 <= b@.len(),
    ensures
        r == le64(b@, at as int),
{
    let _n = b.len();
    read32(b, at) + 4294967296 * read32(b, at + 4)
}

/// A field of the class's width: 8 bytes for ELF64, 4 for ELF32.
fn read_word(b: &[u8], wide: bool, at64: usize, at32: usize) -> (r: u64)
    requires
        wide ==> at64 + 8 <= b@.len(),
        !wide ==> at32 + 4 <= b@.len(),
    ensures
        r == if wide { le64(b@, at64 as int) } else { le32(b@, at32 as int) },
{
    if wide {
        read64(b, at64)
    } else {
        read32(b, at32)
    }
}

/// Reads the zero-terminated UTF-8 name that starts at `start`.
fn read_name(b: &[u8], start: u64) -> (r: Option<String>)
    ensures
        r is Some <==> (exists|j: int| first_nul(b@, start as int, j)) && utf8_of(
            b@.subrange(start as int, choose|j: int| first_nul(b@, start as int, j)),
        ) is Some,
        r matches Some(n) ==> Some(n@) == utf8_of(
            b@.subrange(start as int, choose|j: int| first_nul(b@, start as int, j)),
        ),
{
    let len = b.len();
    if start >= len as u64 {
        assert(!exists|j: int| first_nul(b@, start as int, j));
        return None;
    }
    let s = start as usize;
    let mut j: usize = s;
    while j < len && b[j] != 0
        invariant
            s <= j <= len,
            len == b@.len(),
            forall|k: int| s <= k < j ==> b@[k] != 0,
        decreases len - j,
    {
        j = j + 1;
    }
    if j == len {
        assert(!exists|j: int| first_nul(b@, start as int, j));
        return None;
    }
    assert(first_nul(b@, s as int, j as int));
    let ghost c = choose|x: int| first_nul(b@, start as int, x);
    assert(c == j) by {
        assert(first_nul(b@, s as int, c));
        if c < j {
            assert(b@[c] != 0);
        } else if c > j {
            assert(b@[j as int] != 0);
        }
    }
    match decode_utf8(slice_subrange(b, s, j)) {
        Some(n) => Some(n.to_owned()),
        None => None,
    }
}

/// Reads the entry point and the section headers of the ELF image `b`, in
/// file order. Fails with `FormatError` exactly when the image is not a
/// well-formed little-endian ELF file, or a section cannot be read.
pub fn read_elf(b: &[u8]) -> (r: Result<(usize, Vec<SectionEntry>), ElfLoadError>)
    ensures
        r is Ok <==> elf_ok(b@),
        !elf_ok(b@) ==> r == Err::<(usize, Vec<SectionEntry>), ElfLoadError>(
            ElfLoadError::FormatError,
        ),
        r matches Ok((e, v)) ==> e == e_entry(b@) && infos(v@) == elf_sections(b@),
{
    let len = b.len();
    if len < 16 || b[0] != 0x7f || b[1] != 0x45 || b[2] != 0x4c || b[3] != 0x46 {
        return Err(ElfLoadError::FormatError);
    }
    if (b[4] != 1 && b[4] != 2) || b[5] != 1 {
        return Err(ElfLoadError::FormatError);
    }
    let wide = b[4] == 2;
    if (wide && len < 64) || (!wide && len < 52) {
        return Err(ElfLoadError::FormatError);
    }
    let entry = read_word(b, wide, 24, 24);
    let shoff = read_word(b, wide, 40, 32);
    let ent = if wide { read16(b, 58) } else { read16(b, 46) };
    let shnum = if wide { read16(b, 60) } else { read16(b, 48) };
    let strndx = if wide { read16(b, 62) } else { read16(b, 50) };
    if entry > usize::MAX as u64 {
        return Err(ElfLoadError::FormatError);
    }
    if (wide && ent < 64) || (!wide && ent < 40) {
        return Err(ElfLoadError::FormatError);
    }
    assert(shnum * ent <= 0xffff * 0xffff) by (nonlinear_arith)
        requires
            shnum <= 0xffff,
            ent <= 0xffff,
    ;
    let tsize: u64 = shnum * ent;
    if shoff > len as u64 || tsize > len as u64 - shoff {
        return Err(ElfLoadError::FormatError);
    }
    if shnum > 0 && strndx >= shnum {
        return Err(ElfLoadError::FormatError);
    }
    let ghost bb = b@;
    assert(header_ok(bb) && table_ok(bb));
    let mut stroff: u64 = 0;
    if shnum > 0 {
        assert(strndx * ent + ent <= shnum * ent) by (nonlinear_arith)
            requires
                strndx < shnum,
        ;
        let base = (shoff + strndx * ent) as usize;
        stroff = read_word(b, wide, base + 24, base + 16);
        assert(stroff == sh_offset(bb, e_shstrndx(bb)));
    }
    let mut v: Vec<SectionEntry> = Vec::new();
    let mut i: u64 = 0;
    while i < shnum
        invariant
            bb == b@,
            len == b@.len(),
            header_ok(bb),
            table_ok(bb),
            e_entry(bb) <= usize::MAX,
            wide == is64(bb),
            shoff == e_shoff(bb),
            ent == e_shentsize(bb),
            shnum == e_shnum(bb),
            shnum > 0 ==> stroff == sh_offset(bb, e_shstrndx(bb)),
            i <= shnum,
            v@.len() == i,
            forall|j: int| 0 <= j < i ==> #[trigger] section_ok(bb, j),
            forall|j: int| 0 <= j < i ==> v@[j]@ == #[trigger] elf_section(bb, j),
        decreases shnum - i,
    {
        assert(i * ent + ent <= shnum * ent) by (nonlinear_arith)
            requires
                i < shnum,
        ;
        let base = (shoff + i * ent) as usize;
        assert(base == sh_at(bb, i as int));
        let name_off = read32(b, base);
        let ty = read32(b, base + 4);
        let flags = read_word(b, wide, base + 8, base + 8);
        let addr = read_word(b, wide, base + 16, base + 12);
        let offset = read_word(b, wide, base + 24, base + 16);
        let size = read_word(b, wide, base + 32, base + 20);
        if name_off > u64::MAX - stroff {
            assert(!exists|j: int| first_nul(bb, name_start(bb, i as int), j));
            assert(!section_ok(bb, i as int));
            return Err(ElfLoadError::FormatError);
        }
        let name = match read_name(b, stroff + name_off) {
            Some(n) => n,
            None => {
                assert(!section_ok(bb, i as int));
                return Err(ElfLoadError::FormatError);
            },
        };
        if offset > usize::MAX as u64 || size > usize::MAX as u64 || addr > usize::MAX as u64 {
            assert(!section_ok(bb, i as int));
            return Err(ElfLoadError::FormatError);
        }
        assert(section_ok(bb, i as int));
        let e = SectionEntry {
            name,
            flags,
            progbits: ty == 1,
            offset: offset as usize,
            size: size as usize,
            address: addr as usize,
        };
        assert(e@ == elf_section(bb, i as int));
        v.push(e);
        i = i + 1;
    }
    assert(infos(v@) =~= elf_sections(bb));
    Ok((entry as usize, v))
}

} // verus!
