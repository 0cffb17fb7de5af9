use crate::memory::{
    lemma_byte_write_keeps_others, lemma_round_trip8, mem_byte, tag_of, word_of, MemPages, Memory,
};
use crate::section::{flags_of, SecList, Section, ShFlags};
use crate::image::{e_entry, elf_ok, elf_sections, read_elf};
use vstd::prelude::*;

verus! {

/// Why loading an image failed.
#[derive(Clone, Copy, Debug, PartialEq, Eq, Structural)]
pub enum ElfLoadError {
    /// The file could not be opened or read.
    IoError,
    /// The bytes are not a well-formed ELF image.
    FormatError,
    /// The load pass rejected the image.
    LoadError,
}

/// What the loader reads of one section header.
pub struct SectionEntry {
    pub name: String,
    /// Raw flag mask.
    pub flags: u64,
    /// The section's type is PROGBITS: its bytes are in the file.
    pub progbits: bool,
    /// Offset of the section's bytes in the file.
    pub offset: usize,
    /// Size of the section in bytes.
    pub size: usize,
    /// Virtual address of the section's first byte.
    pub address: usize,
}

/// The mathematical content of a `SectionEntry`.
pub struct SectionInfo {
    pub name: Seq<char>,
    pub flags: u64,
    pub progbits: bool,
    pub offset: usize,
    pub size: usize,
    pub address: usize,
}

impl View for SectionEntry {
    type V = SectionInfo;

    open spec fn view(&self) -> SectionInfo {
        SectionInfo {
            name: self.name@,
            flags: self.flags,
            progbits: self.progbits,
            offset: self.offset,
            size: self.size,
            address: self.address,
        }
    }
}

/// The views of a sequence of entries.
pub open spec fn infos(secs: Seq<SectionEntry>) -> Seq<SectionInfo> {
    secs.map_values(|e: SectionEntry| e@)
}

/// The section asks for memory at load time.
pub open spec fn is_alloc(s: SectionInfo) -> bool {
    flags_of(s.flags).alloc
}

/// Byte address `ad` lies in the address range of section `s`.
pub open spec fn covers(s: SectionInfo, ad: usize) -> bool {
    s.address <= ad < s.address + s.size
}

/// The byte that section `s` places at address `ad` (inside its range): the file
/// byte at the same distance from its offset for PROGBITS, else zero.
pub open spec fn section_byte(bytes: Seq<u8>, s: SectionInfo, ad: usize) -> u8 {
    if s.progbits {
        bytes[s.offset + (ad - s.address)]
    } else {
        0
    }
}

/// Section `s` can be placed: an allocatable section's address range stays
/// within the address space and, for PROGBITS, its file range within the file.
pub open spec fn section_fits(len: nat, s: SectionInfo) -> bool {
    is_alloc(s) ==> {
        &&& s.address + s.size <= usize::MAX
        &&& s.progbits ==> s.offset + s.size <= len
    }
}

/// Every section of `secs` can be placed.
pub open spec fn all_fit(len: nat, secs: Seq<SectionInfo>) -> bool {
    forall|i: int| 0 <= i < secs.len() ==> section_fits(len, #[trigger] secs[i])
}

/// The byte at address `ad` after the first `n` sections of `secs` have been
/// placed, in order, over memory `m`: a later section overwrites an earlier one.
pub open spec fn image_byte(
    bytes: Seq<u8>,
    secs: Seq<SectionInfo>,
    n: nat,
    m: MemPages,
    ad: usize,
) -> u8
    decreases n,
{
    if n == 0 || n > secs.len() {
        mem_byte(m, ad)
    } else {
        let s = secs[n - 1];
        if is_alloc(s) && covers(s, ad) {
            section_byte(bytes, s, ad)
        } else {
            image_byte(bytes, secs, (n - 1) as nat, m, ad)
        }
    }
}

/// Tags of the pages that hold byte addresses in `[s.address, s.address + k)`.
pub open spec fn tags_below(s: SectionInfo, k: int) -> Set<usize> {
    Set::new(|t: usize| exists|ad: usize| s.address <= ad < s.address + k && t == tag_of(word_of(ad)))
}

/// Tags of the pages that the allocatable sections among the first `n` of
/// `secs` reach.
pub open spec fn placed_tags(secs: Seq<SectionInfo>, n: int) -> Set<usize> {
    Set::new(
        |t: usize|
            exists|i: int|
                0 <= i < n && is_alloc(secs[i]) && #[trigger] tags_below(secs[i], secs[i].size as int).contains(t),
    )
}

/// Entry `t` of a section table records section `s`.
pub open spec fn records(t: Section, s: SectionInfo) -> bool {
    &&& t.name_view() == s.name
    &&& t.flag_view() == flags_of(s.flags)
    &&& t.start_view() == s.address
    &&& t.size_view() == s.size
}

/// `post` is `pre` followed by one record for each section of `secs`, in order.
pub open spec fn table_extended(pre: Seq<Section>, post: Seq<Section>, secs: Seq<SectionInfo>) -> bool {
    &&& post.len() == pre.len() + secs.len()
    &&& post.subrange(0, pre.len() as int) == pre
    &&& forall|j: int| 0 <= j < secs.len() ==> records(#[trigger] post[pre.len() + j], secs[j])
}

/// An address that no allocatable section among the first `n` covers keeps the
/// byte that memory held before loading.
proof fn lemma_image_untouched(bytes: Seq<u8>, secs: Seq<SectionInfo>, n: nat, m: MemPages, ad: usize)
    requires
        n <= secs.len(),
        forall|j: int| 0 <= j < n ==> !(is_alloc(#[trigger] secs[j]) && covers(secs[j], ad)),
    ensures
        image_byte(bytes, secs, n, m, ad) == mem_byte(m, ad),
    decreases n,
{
    if n > 0 {
        lemma_image_untouched(bytes, secs, (n - 1) as nat, m, ad);
    }
}

/// A section that is not allocatable writes nothing: every address that no
/// allocatable section covers reads after loading as it did before, whatever
/// other sections the image holds.
pub proof fn lemma_unallocated_left_alone(
    bytes: Seq<u8>,
    secs: Seq<SectionInfo>,
    m: MemPages,
    ad: usize,
)
    requires
        forall|j: int| 0 <= j < secs.len() ==> !(is_alloc(#[trigger] secs[j]) && covers(secs[j], ad)),
    ensures
        image_byte(bytes, secs, secs.len(), m, ad) == mem_byte(m, ad),
{
    lemma_image_untouched(bytes, secs, secs.len(), m, ad);
}

/// After the first `n` sections, an address of allocatable section `i < n` that no
/// later allocatable section covers holds the byte that section `i` gives it.
proof fn lemma_image_backed(
    bytes: Seq<u8>,
    secs: Seq<SectionInfo>,
    n: nat,
    m: MemPages,
    i: int,
    ad: usize,
)
    requires
        n <= secs.len(),
        0 <= i < n,
        is_alloc(secs[i]),
        covers(secs[i], ad),
        forall|j: int| i < j < n ==> !(is_alloc(#[trigger] secs[j]) && covers(secs[j], ad)),
    ensures
        image_byte(bytes, secs, n, m, ad) == section_byte(bytes, secs[i], ad),
    decreases n,
{
    if n - 1 > i {
        lemma_image_backed(bytes, secs, (n - 1) as nat, m, i, ad);
    }
}

/// Every allocatable section is backed in memory: each address in its range
/// that no later allocatable section covers holds, after loading, the file
/// byte at the same distance from the section's offset for PROGBITS, and zero
/// otherwise.
pub proof fn lemma_allocated_backed(
    bytes: Seq<u8>,
    secs: Seq<SectionInfo>,
    m: MemPages,
    i: int,
    ad: usize,
)
    requires
        0 <= i < secs.len(),
        is_alloc(secs[i]),
        covers(secs[i], ad),
        forall|j: int| i < j < secs.len() ==> !(is_alloc(#[trigger] secs[j]) && covers(secs[j], ad)),
    ensures
        image_byte(bytes, secs, secs.len(), m, ad) == if secs[i].progbits {
            bytes[secs[i].offset + (ad - secs[i].address)]
        } else {
            0u8
        },
{
    lemma_image_backed(bytes, secs, secs.len(), m, i, ad);
}

/// Whether section `s` can be placed, tested without overflow.
fn fits(len: usize, s: &SectionEntry) -> (r: bool)
    ensures
        r == section_fits(len as nat, s@),
{
    let alloc = ShFlags::from(s.flags).alloc;
    if !alloc {
        return true;
    }
    if s.size > usize::MAX - s.address {
        return false;
    }
    !s.progbits || (s.offset <= len && s.size <= len - s.offset)
}

/// Writes the bytes of allocatable section `s` into memory, one byte at a time
/// in increasing address order: the file's bytes for PROGBITS, else zeros.
fn fill_section(memory: &mut MemPages, bytes: &[u8], s: &SectionEntry)
    requires
        old(memory).inv(),
        is_alloc(s@),
        section_fits(bytes@.len(), s@),
    ensures
        final(memory).inv(),
        final(memory).pages() == old(memory).pages().union(tags_below(s@, s@.size as int)),
        forall|ad: usize|
            #[trigger] mem_byte(*final(memory), ad) == if covers(s@, ad) {
                section_byte(bytes@, s@, ad)
            } else {
                mem_byte(*old(memory), ad)
            },
{
    let len = bytes.len();
    let mut k: usize = 0;
    while k < s.size
        invariant
            len == bytes@.len(),
            memory.inv(),
            k <= s.size,
            is_alloc(s@),
            section_fits(bytes@.len(), s@),
            memory.pages() == old(memory).pages().union(tags_below(s@, k as int)),
            forall|ad: usize|
                #[trigger] mem_byte(*memory, ad) == if s.address <= ad < s.address + k {
                    section_byte(bytes@, s@, ad)
                } else {
                    mem_byte(*old(memory), ad)
                },
        decreases s.size - k,
    {
        let mad = s.address + k;
        let b: u8 = if s.progbits {
            bytes[s.offset + k]
        } else {
            0
        };
        let ghost pre = *memory;
        memory.write8(mad, b);
        proof {
            let tm = tag_of(word_of(mad));
            assert(tags_below(s@, k + 1) =~= tags_below(s@, k as int).insert(tm)) by {
                assert forall|t: usize| tags_below(s@, k + 1).contains(t) implies tags_below(
                    s@,
                    k as int,
                ).insert(tm).contains(t) by {
                    let ad = choose|ad: usize|
                        s.address <= ad < s.address + k + 1 && t == tag_of(word_of(ad));
                    if ad != mad {
                        assert(s.address <= ad < s.address + k && t == tag_of(word_of(ad)));
                    }
                }
                assert(s.address <= mad < s.address + k + 1 && tm == tag_of(word_of(mad)));
            }
            assert(memory.pages() =~= old(memory).pages().union(tags_below(s@, k + 1)));
            assert forall|ad: usize| #[trigger]
                mem_byte(*memory, ad) == if s.address <= ad < s.address + k + 1 {
                    section_byte(bytes@, s@, ad)
                } else {
                    mem_byte(*old(memory), ad)
                } by {
                if ad == mad {
                    lemma_round_trip8(pre, *memory, mad, b);
                } else {
                    lemma_byte_write_keeps_others(pre, *memory, mad, b, ad);
                    assert(mem_byte(*memory, ad) == mem_byte(pre, ad));
                }
            }
        }
        k = k + 1;
    }
}

/// Places the sections of `secs`, in order, into memory and records each of
/// them in the section table, allocatable or not.
///
/// An allocatable section gets its address range written byte by byte: from
/// the file bytes at its offset for PROGBITS, with zeros otherwise. Other
/// sections are recorded and leave memory untouched. When some section cannot
/// be placed (its range leaves the address space or the file), nothing is
/// changed and the image is reported malformed.
pub fn load_sections(
    bytes: &[u8],
    secs: &Vec<SectionEntry>,
    memory: &mut MemPages,
    table: &mut SecList,
) -> (r: Result<(), ElfLoadError>)
    requires
        old(memory).inv(),
    ensures
        final(memory).inv(),
        !all_fit(bytes@.len(), infos(secs@)) ==> {
            &&& r == Err::<(), ElfLoadError>(ElfLoadError::FormatError)
            &&& *final(memory) == *old(memory)
            &&& *final(table) == *old(table)
        },
        all_fit(bytes@.len(), infos(secs@)) ==> {
            &&& r == Ok::<(), ElfLoadError>(())
            &&& table_extended(old(table)@, final(table)@, infos(secs@))
            &&& final(memory).pages() == old(memory).pages().union(
                placed_tags(infos(secs@), secs@.len() as int),
            )
            &&& forall|ad: usize|
                #[trigger] mem_byte(*final(memory), ad) == image_byte(
                    bytes@,
                    infos(secs@),
                    infos(secs@).len(),
                    *old(memory),
                    ad,
                )
        },
{
    let mut i: usize = 0;
    while i < secs.len()
        invariant
            i <= secs.len(),
            *memory == *old(memory),
            *table == *old(table),
            memory.inv(),
            forall|j: int| 0 <= j < i ==> section_fits(bytes@.len(), #[trigger] infos(secs@)[j]),
        decreases secs.len() - i,
    {
        assert(infos(secs@)[i as int] == secs@[i as int]@);
        if !fits(bytes.len(), &secs[i]) {
            return Err(ElfLoadError::FormatError);
        }
        i = i + 1;
    }
    let ghost table0 = table@;
    let mut i: usize = 0;
    while i < secs.len()
        invariant
            i <= secs.len(),
            all_fit(bytes@.len(), infos(secs@)),
            memory.inv(),
            table@.len() == table0.len() + i,
            memory.pages() == old(memory).pages().union(placed_tags(infos(secs@), i as int)),
            table@.subrange(0, table0.len() as int) == table0,
            forall|j: int| 0 <= j < i ==> records(#[trigger] table@[table0.len() + j], infos(secs@)[j]),
            forall|ad: usize|
                #[trigger] mem_byte(*memory, ad) == image_byte(
                    bytes@,
                    infos(secs@),
                    i as nat,
                    *old(memory),
                    ad,
                ),
        decreases secs.len() - i,
    {
        let s = &secs[i];
        assert(section_fits(bytes@.len(), infos(secs@)[i as int]));
        table.push(Section::new(s.name.as_str(), s.flags, s.address, s.size));
        let ghost pre = *memory;
        if ShFlags::from(s.flags).alloc {
            fill_section(memory, bytes, s);
        }
        proof {
            let si = infos(secs@)[i as int];
            let grown = if is_alloc(si) {
                tags_below(si, si.size as int)
            } else {
                Set::<usize>::empty()
            };
            assert(placed_tags(infos(secs@), i + 1) =~= placed_tags(infos(secs@), i as int).union(
                grown,
            )) by {
                assert forall|t: usize| placed_tags(infos(secs@), i + 1).contains(t) implies placed_tags(
                    infos(secs@),
                    i as int,
                ).union(grown).contains(t) by {
                    let j = choose|j: int|
                        0 <= j < i + 1 && is_alloc(infos(secs@)[j]) && #[trigger] tags_below(
                            infos(secs@)[j],
                            infos(secs@)[j].size as int,
                        ).contains(t);
                    if j < i {
                        assert(placed_tags(infos(secs@), i as int).contains(t));
                    }
                }
                assert forall|t: usize| grown.contains(t) implies placed_tags(
                    infos(secs@),
                    i + 1,
                ).contains(t) by {
                    assert(tags_below(infos(secs@)[i as int], infos(secs@)[i as int].size as int).contains(t));
                }
                assert forall|t: usize| placed_tags(infos(secs@), i as int).contains(t) implies placed_tags(
                    infos(secs@),
                    i + 1,
                ).contains(t) by {
                    let j = choose|j: int|
                        0 <= j < i && is_alloc(infos(secs@)[j]) && #[trigger] tags_below(
                            infos(secs@)[j],
                            infos(secs@)[j].size as int,
                        ).contains(t);
                    assert(0 <= j < i + 1);
                }
            }
            assert(memory.pages() =~= old(memory).pages().union(placed_tags(infos(secs@), i + 1)));
            assert forall|ad: usize| #[trigger]
                mem_byte(*memory, ad) == image_byte(
                    bytes@,
                    infos(secs@),
                    (i + 1) as nat,
                    *old(memory),
                    ad,
                ) by {
                assert(mem_byte(pre, ad) == image_byte(bytes@, infos(secs@), i as nat, *old(memory), ad));
            }
            assert(table@.subrange(0, table0.len() as int) =~= table0);
        }
        i = i + 1;
    }
    Ok(())
}

/// Loads the ELF image `bytes`: records every section in `section`, in file
/// order, places the allocatable ones into memory as `load_sections` does, and
/// returns the entry point.
///
/// Fails with `FormatError`, changing nothing, when the image is not a
/// well-formed ELF file (see `read_elf`) or one of its sections cannot be placed.
pub fn loadelf(bytes: &[u8], memory: &mut MemPages, section: &mut SecList) -> (r: Result<
    usize,
    ElfLoadError,
>)
    requires
        old(memory).inv(),
    ensures
        final(memory).inv(),
        elf_ok(bytes@) && all_fit(bytes@.len(), elf_sections(bytes@)) ==> {
            &&& r == Ok::<usize, ElfLoadError>(e_entry(bytes@) as usize)
            &&& table_extended(old(section)@, final(section)@, elf_sections(bytes@))
            &&& final(memory).pages() == old(memory).pages().union(
                placed_tags(elf_sections(bytes@), elf_sections(bytes@).len() as int),
            )
            &&& forall|ad: usize|
                #[trigger] mem_byte(*final(memory), ad) == image_byte(
                    bytes@,
                    elf_sections(bytes@),
                    elf_sections(bytes@).len(),
                    *old(memory),
                    ad,
                )
        },
        !(elf_ok(bytes@) && all_fit(bytes@.len(), elf_sections(bytes@))) ==> {
            &&& r == Err::<usize, ElfLoadError>(ElfLoadError::FormatError)
            &&& *final(memory) == *old(memory)
            &&& *final(section) == *old(section)
        },
{
    let (entry, secs) = match read_elf(bytes) {
        Ok(p) => p,
        Err(e) => return Err(e),
    };
    match load_sections(bytes, &secs, memory, section) {
        Ok(()) => Ok(entry),
        Err(e) => Err(e),
    }
}

} // verus!
