use vstd::prelude::*;

verus! {

/// Bit of a section's flag mask that marks it writable.
pub const SHF_WRITE: u64 = 0x1;

/// Bit of a section's flag mask that asks for memory at load time.
pub const SHF_ALLOC: u64 = 0x2;

/// Bit of a section's flag mask that marks it executable.
pub const SHF_EXECINSTR: u64 = 0x4;

/// The write, alloc and exec flags of a section.
#[derive(Clone, Copy, Debug, PartialEq, Eq, Structural)]
pub struct ShFlags {
    pub write: bool,
    pub alloc: bool,
    pub execute: bool,
}

/// The flags that the raw mask `flag` sets: bit 0 write, bit 1 alloc, bit 2 exec.
pub open spec fn flags_of(flag: u64) -> ShFlags {
    ShFlags {
        write: flag & SHF_WRITE == SHF_WRITE,
        alloc: flag & SHF_ALLOC == SHF_ALLOC,
        execute: flag & SHF_EXECINSTR == SHF_EXECINSTR,
    }
}

impl From<u64> for ShFlags {
    fn from(flag: u64) -> (r: ShFlags)
        ensures
            r == flags_of(flag),
    {
        let write: bool = (flag & SHF_WRITE) == SHF_WRITE;
        let alloc: bool = (flag & SHF_ALLOC) == SHF_ALLOC;
        let execute: bool = (flag & SHF_EXECINSTR) == SHF_EXECINSTR;
        ShFlags { write, alloc, execute }
    }
}

impl vstd::std_specs::convert::FromSpecImpl<u64> for ShFlags {
    open spec fn obeys_from_spec() -> bool {
        true
    }

    open spec fn from_spec(v: u64) -> ShFlags {
        flags_of(v)
    }
}

/// One entry of the section table: a section's name, flags, start address and
/// size in bytes.
pub struct Section {
    name: String,
    flag: ShFlags,
    pub stad: usize,
    pub size: usize,
}

impl Section {
    /// The name of the section.
    pub closed spec fn name_view(&self) -> Seq<char> {
        self.name@
    }

    /// The decoded flags of the section.
    pub closed spec fn flag_view(&self) -> ShFlags {
        self.flag
    }

    /// The start address of the section.
    pub closed spec fn start_view(&self) -> usize {
        self.stad
    }

    /// The size of the section in bytes.
    pub closed spec fn size_view(&self) -> usize {
        self.size
    }

    /// A record with the given name, the flags decoded from `flag`, start address
    /// `stad` and size `size`.
    pub fn new(name: &str, flag: u64, stad: usize, size: usize) -> (r: Section)
        ensures
            r.name_view() == name@,
            r.flag_view() == flags_of(flag),
            r.start_view() == stad,
            r.size_view() == size,
    {
        Section { name: name.to_owned(), flag: ShFlags::from(flag), stad, size }
    }

    /// The name of the section.
    pub fn get_name(&self) -> (r: &str)
        ensures
            r@ == self.name_view(),
    {
        self.name.as_str()
    }

    /// The start address of the section.
    pub fn get_stad(&self) -> (r: usize)
        ensures
            r == self.start_view(),
    {
        self.stad
    }

    /// The size of the section in bytes.
    pub fn get_size(&self) -> (r: usize)
        ensures
            r == self.size_view(),
    {
        self.size
    }

    /// The decoded flags of the section.
    pub fn get_flag(&self) -> (r: &ShFlags)
        ensures
            *r == self.flag_view(),
    {
        &self.flag
    }
}

/// The section table: every section of an image, in the order they were reported.
pub type SecList = Vec<Section>;

} // verus!
