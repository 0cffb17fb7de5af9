use std::collections::HashMap;
use vstd::prelude::*;

verus! {

broadcast use vstd::std_specs::hash::group_hash_axioms;

/// Number of 32-bit words held by one page.
pub const PAGE_WORDS: usize = 4096;

/// Page that holds the word at word address `wad`.
pub open spec fn tag_of(wad: usize) -> usize {
    wad / 4096
}

/// Position of the word at word address `wad` within its page.
pub open spec fn index_of(wad: usize) -> usize {
    wad % 4096
}

/// Word address of the word that holds byte address `ad`.
pub open spec fn word_of(ad: usize) -> usize {
    ad / 4
}

/// Byte lane (0..4) of byte address `ad` within its word.
pub open spec fn byte_sel(ad: usize) -> u32 {
    (ad % 4) as u32
}

/// Half-word lane (0 or 1) of byte address `ad` within its word.
pub open spec fn half_sel(ad: usize) -> u32 {
    ((ad / 2) % 2) as u32
}

/// Word address of the low word of the doubleword that holds byte address `ad`.
/// A doubleword is 8-byte aligned, so its two words always share a page.
pub open spec fn dword_of(ad: usize) -> usize {
    ((ad / 8) * 2) as usize
}

/// Byte lane `sel` of word `w`: bits `[8 * sel, 8 * sel + 8)`.
pub open spec fn byte_lane(w: u32, sel: u32) -> u8 {
    ((w >> (8 * sel) as u32) & 0xff) as u8
}

/// Half-word lane `sel` of word `w`: bits `[16 * sel, 16 * sel + 16)`.
pub open spec fn half_lane(w: u32, sel: u32) -> u16 {
    ((w >> (16 * sel) as u32) & 0xffff) as u16
}

/// Word `w` with byte lane `sel` replaced by `v`.
pub open spec fn with_byte(w: u32, sel: u32, v: u8) -> u32 {
    (w & (0xffff_ffffu32 ^ (0xffu32 << (8 * sel) as u32))) | ((v as u32) << (8 * sel) as u32)
}

/// Word `w` with half-word lane `sel` replaced by `v`.
pub open spec fn with_half(w: u32, sel: u32, v: u16) -> u32 {
    (w & (0xffff_ffffu32 ^ (0xffffu32 << (16 * sel) as u32))) | ((v as u32) << (16 * sel) as u32)
}

/// The 64-bit value whose low half is `lo` and whose high half is `hi`.
pub open spec fn join_words(lo: u32, hi: u32) -> u64 {
    ((hi as u64) << 32u64) | (lo as u64)
}

/// `post` is `pre` after the byte `v` was written at byte address `ad`: the
/// byte's lane of its word changes, and nothing else. This is what
/// `Memory::write8` ensures; the same holds of the other widths below.
pub open spec fn wrote8<M: Memory>(pre: M, post: M, ad: usize, v: u8) -> bool {
    forall|w: usize|
        #[trigger] post.word(w) == if w == word_of(ad) {
            with_byte(pre.word(w), byte_sel(ad), v)
        } else {
            pre.word(w)
        }
}

/// `post` is `pre` after the half-word `v` was written at byte address `ad`.
pub open spec fn wrote16<M: Memory>(pre: M, post: M, ad: usize, v: u16) -> bool {
    forall|w: usize|
        #[trigger] post.word(w) == if w == word_of(ad) {
            with_half(pre.word(w), half_sel(ad), v)
        } else {
            pre.word(w)
        }
}

/// `post` is `pre` after the word `v` was written at byte address `ad`.
pub open spec fn wrote32<M: Memory>(pre: M, post: M, ad: usize, v: u32) -> bool {
    forall|w: usize|
        #[trigger] post.word(w) == if w == word_of(ad) {
            v
        } else {
            pre.word(w)
        }
}

/// `post` is `pre` after the doubleword `v` was written at byte address `ad`:
/// its low half goes to the lower word of the aligned pair, its high half to
/// the next word.
pub open spec fn wrote64<M: Memory>(pre: M, post: M, ad: usize, v: u64) -> bool {
    forall|w: usize|
        #[trigger] post.word(w) == if w == dword_of(ad) {
            v as u32
        } else if w == dword_of(ad) + 1 {
            (v >> 32u64) as u32
        } else {
            pre.word(w)
        }
}

/// The byte that memory `m` holds at byte address `ad`.
pub open spec fn mem_byte<M: Memory>(m: M, ad: usize) -> u8 {
    byte_lane(m.word(word_of(ad)), byte_sel(ad))
}

/// Splits a word address into its position within a page and its page tag.
fn addr_dec(ad: usize) -> (r: (usize, usize))
    ensures
        r.0 == index_of(ad),
        r.1 == tag_of(ad),
        r.0 < PAGE_WORDS,
{
    let laddr = ad & 0xfff;
    let tag = ad >> 12;
    assert(ad & 0xfff == ad % 4096 && ad >> 12 == ad / 4096) by (bit_vector);
    (laddr, tag)
}

/// Lane arithmetic: storing a byte into a lane and reading lanes back.
proof fn lemma_byte_lanes(w: u32, s: u32, t: u32, v: u8)
    requires
        s < 4,
        t < 4,
    ensures
        byte_lane(with_byte(w, s, v), t) == if s == t {
            v
        } else {
            byte_lane(w, t)
        },
{
    assert(byte_lane(with_byte(w, s, v), t) == if s == t {
        v
    } else {
        byte_lane(w, t)
    }) by (bit_vector)
        requires
            s < 4,
            t < 4,
    ;
}

/// Lane arithmetic: storing a half-word into a lane and reading lanes back.
proof fn lemma_half_lanes(w: u32, s: u32, t: u32, v: u16)
    requires
        s < 2,
        t < 2,
    ensures
        half_lane(with_half(w, s, v), t) == if s == t {
            v
        } else {
            half_lane(w, t)
        },
{
    assert(half_lane(with_half(w, s, v), t) == if s == t {
        v
    } else {
        half_lane(w, t)
    }) by (bit_vector)
        requires
            s < 2,
            t < 2,
    ;
}

/// A memory whose words are all zero, as `Memory::new` returns it, reads zero
/// at every address and every width.
pub proof fn lemma_fresh_reads_zero<M: Memory>(m: M, ad: usize)
    requires
        forall|w: usize| #[trigger] m.word(w) == 0,
    ensures
        byte_lane(m.word(word_of(ad)), byte_sel(ad)) == 0,
        half_lane(m.word(word_of(ad)), half_sel(ad)) == 0,
        m.word(word_of(ad)) == 0,
        join_words(m.word(dword_of(ad)), m.word((dword_of(ad) + 1) as usize)) == 0,
{
    let z = 0u32;
    let b = byte_sel(ad);
    let h = half_sel(ad);
    assert(byte_lane(z, b) == 0 && half_lane(z, h) == 0 && join_words(z, z) == 0)
        by (bit_vector)
        requires
            z == 0,
    ;
}

/// In a well-formed `MemPages`, an address whose page does not exist reads
/// zero at every width: a page that no write reached holds only zeros.
pub proof fn lemma_absent_page_reads_zero(m: MemPages, ad: usize)
    requires
        m.inv(),
        !m.pages().contains(tag_of(word_of(ad))),
    ensures
        m.word(word_of(ad)) == 0,
        byte_lane(m.word(word_of(ad)), byte_sel(ad)) == 0,
        half_lane(m.word(word_of(ad)), half_sel(ad)) == 0,
        join_words(m.word(dword_of(ad)), m.word((dword_of(ad) + 1) as usize)) == 0,
{
    assert(tag_of(dword_of(ad)) == tag_of(word_of(ad)));
    assert(tag_of((dword_of(ad) + 1) as usize) == tag_of(word_of(ad)));
    let z = 0u32;
    let b = byte_sel(ad);
    let h = half_sel(ad);
    assert(byte_lane(z, b) == 0 && half_lane(z, h) == 0 && join_words(z, z) == 0)
        by (bit_vector)
        requires
            z == 0,
    ;
}

/// Reading back a byte just written at the same address gives that byte.
pub proof fn lemma_round_trip8<M: Memory>(pre: M, post: M, ad: usize, v: u8)
    requires
        wrote8(pre, post, ad, v),
    ensures
        byte_lane(post.word(word_of(ad)), byte_sel(ad)) == v,
{
    lemma_byte_lanes(pre.word(word_of(ad)), byte_sel(ad), byte_sel(ad), v);
}

/// Reading back a half-word just written at the same address gives that value.
pub proof fn lemma_round_trip16<M: Memory>(pre: M, post: M, ad: usize, v: u16)
    requires
        wrote16(pre, post, ad, v),
    ensures
        half_lane(post.word(word_of(ad)), half_sel(ad)) == v,
{
    lemma_half_lanes(pre.word(word_of(ad)), half_sel(ad), half_sel(ad), v);
}

/// Reading back a word just written at the same address gives that word.
pub proof fn lemma_round_trip32<M: Memory>(pre: M, post: M, ad: usize, v: u32)
    requires
        wrote32(pre, post, ad, v),
    ensures
        post.word(word_of(ad)) == v,
{
    assert(post.word(word_of(ad)) == v);
}

/// Reading back a doubleword just written at the same address gives that value.
pub proof fn lemma_round_trip64<M: Memory>(pre: M, post: M, ad: usize, v: u64)
    requires
        wrote64(pre, post, ad, v),
    ensures
        join_words(post.word(dword_of(ad)), post.word((dword_of(ad) + 1) as usize)) == v,
{
    let lo = post.word(dword_of(ad));
    let hi = post.word((dword_of(ad) + 1) as usize);
    assert(lo == v as u32 && hi == (v >> 32u64) as u32);
    assert(join_words(v as u32, (v >> 32u64) as u32) == v) by (bit_vector);
}

/// Writing a byte leaves every other byte address reading as before, in
/// particular the other three bytes of the same word.
pub proof fn lemma_byte_write_keeps_others<M: Memory>(
    pre: M,
    post: M,
    ad: usize,
    v: u8,
    other: usize,
)
    requires
        wrote8(pre, post, ad, v),
        other != ad,
    ensures
        byte_lane(post.word(word_of(other)), byte_sel(other)) == byte_lane(
            pre.word(word_of(other)),
            byte_sel(other),
        ),
{
    if word_of(other) == word_of(ad) {
        assert(byte_sel(other) != byte_sel(ad));
        lemma_byte_lanes(pre.word(word_of(ad)), byte_sel(ad), byte_sel(other), v);
    }
}

/// A word pattern `p` written at `ad`, then one of its bytes overwritten with
/// `v` at `bad`: that byte reads `v` and the other three bytes of the word still
/// read as the lanes of `p`.
pub proof fn lemma_pattern_then_byte<M: Memory>(
    m0: M,
    m1: M,
    m2: M,
    ad: usize,
    p: u32,
    bad: usize,
    v: u8,
    other: usize,
)
    requires
        wrote32(m0, m1, ad, p),
        wrote8(m1, m2, bad, v),
        word_of(bad) == word_of(ad),
        word_of(other) == word_of(ad),
    ensures
        byte_lane(m2.word(word_of(bad)), byte_sel(bad)) == v,
        other != bad ==> byte_lane(m2.word(word_of(other)), byte_sel(other)) == byte_lane(
            p,
            byte_sel(other),
        ),
{
    lemma_round_trip8(m1, m2, bad, v);
    if other != bad {
        lemma_byte_write_keeps_others(m1, m2, bad, v, other);
    }
}

/// The two words of a doubleword lie in one page: a 64-bit access never
/// crosses a page boundary, and a 64-bit write changes no word of any other page.
pub proof fn lemma_dword_in_one_page<M: Memory>(pre: M, post: M, ad: usize, v: u64, w: usize)
    requires
        wrote64(pre, post, ad, v),
    ensures
        tag_of((dword_of(ad) + 1) as usize) == tag_of(dword_of(ad)),
        index_of(dword_of(ad)) < PAGE_WORDS - 1,
        tag_of(w) != tag_of(dword_of(ad)) ==> post.word(w) == pre.word(w),
{
}

/// A byte, half-word or word written at `ad` changes no word of another page.
pub proof fn lemma_pages_independent<M: Memory>(
    pre: M,
    post: M,
    ad: usize,
    b: u8,
    h: u16,
    v: u32,
    w: usize,
)
    requires
        wrote8(pre, post, ad, b) || wrote16(pre, post, ad, h) || wrote32(pre, post, ad, v),
        tag_of(w) != tag_of(word_of(ad)),
    ensures
        post.word(w) == pre.word(w),
{
    assert(w != word_of(ad));
}

/// Word-addressed memory with 8, 16, 32 and 64-bit accessors on byte addresses.
/// Every word reads as zero until it is written.
pub trait Memory: Sized {
    /// The representation is well formed.
    spec fn inv(&self) -> bool;

    /// The word at word address `wad`.
    spec fn word(&self, wad: usize) -> u32;

    /// Tags of the pages that exist: those that some write has reached.
    spec fn pages(&self) -> Set<usize>;

    /// An empty memory: no pages, every word zero.
    fn new() -> (r: Self)
        ensures
            r.inv(),
            r.pages() == Set::<usize>::empty(),
            forall|w: usize| #[trigger] r.word(w) == 0,
    ;

    /// Stores `dt` in the 8-byte aligned doubleword that holds `ad`: its low half
    /// in the lower word, its high half in the next one.
    fn write64(&mut self, ad: usize, dt: u64)
        requires
            old(self).inv(),
        ensures
            final(self).inv(),
            final(self).pages() == old(self).pages().insert(tag_of(dword_of(ad))),
            forall|w: usize|
                #[trigger] final(self).word(w) == if w == dword_of(ad) {
                    dt as u32
                } else if w == dword_of(ad) + 1 {
                    (dt >> 32u64) as u32
                } else {
                    old(self).word(w)
                },
    ;

    /// Stores `dt` in the word that holds `ad`.
    fn write32(&mut self, ad: usize, dt: u32)
        requires
            old(self).inv(),
        ensures
            final(self).inv(),
            final(self).pages() == old(self).pages().insert(tag_of(word_of(ad))),
            forall|w: usize|
                #[trigger] final(self).word(w) == if w == word_of(ad) {
                    dt
                } else {
                    old(self).word(w)
                },
    ;

    /// Stores `dt` in the half-word lane that holds `ad`, keeping the other lane.
    fn write16(&mut self, ad: usize, dt: u16)
        requires
            old(self).inv(),
        ensures
            final(self).inv(),
            final(self).pages() == old(self).pages().insert(tag_of(word_of(ad))),
            forall|w: usize|
                #[trigger] final(self).word(w) == if w == word_of(ad) {
                    with_half(old(self).word(w), half_sel(ad), dt)
                } else {
                    old(self).word(w)
                },
    ;

    /// Stores `dt` in the byte lane that holds `ad`, keeping the other three.
    fn write8(&mut self, ad: usize, dt: u8)
        requires
            old(self).inv(),
        ensures
            final(self).inv(),
            final(self).pages() == old(self).pages().insert(tag_of(word_of(ad))),
            forall|w: usize|
                #[trigger] final(self).word(w) == if w == word_of(ad) {
                    with_byte(old(self).word(w), byte_sel(ad), dt)
                } else {
                    old(self).word(w)
                },
    ;

    /// The doubleword that holds `ad`.
    fn read64(&self, ad: usize) -> (r: u64)
        requires
            self.inv(),
        ensures
            r == join_words(self.word(dword_of(ad)), self.word((dword_of(ad) + 1) as usize)),
    ;

    /// The word that holds `ad`.
    fn read32(&self, ad: usize) -> (r: u32)
        requires
            self.inv(),
        ensures
            r == self.word(word_of(ad)),
    ;

    /// The half-word that holds `ad`.
    fn read16(&self, ad: usize) -> (r: u16)
        requires
            self.inv(),
        ensures
            r == half_lane(self.word(word_of(ad)), half_sel(ad)),
    ;

    /// The byte at `ad`.
    fn read8(&self, ad: usize) -> (r: u8)
        requires
            self.inv(),
        ensures
            r == byte_lane(self.word(word_of(ad)), byte_sel(ad)),
    ;
}

/// Sparse memory: a map from page tag to a page of `PAGE_WORDS` words, a page
/// being created on the first write that reaches it.
pub struct MemPages {
    pages: HashMap<usize, Vec<u32>>,
}

impl MemPages {
    /// The word at word address `wad`, zero where its page does not exist.
    fn load_word(&self, wad: usize) -> (r: u32)
        requires
            self.inv(),
        ensures
            r == self.word(wad),
    {
        let (laddr, tag) = addr_dec(wad);
        match self.pages.get(&tag) {
            Some(page) => page[laddr],
            None => 0,
        }
    }

    /// Stores `v` at word address `wad`, creating its page (zero-filled) if needed.
    fn store_word(&mut self, wad: usize, v: u32)
        requires
            old(self).inv(),
        ensures
            final(self).inv(),
            final(self).pages() == old(self).pages().insert(tag_of(wad)),
            forall|w: usize|
                #[trigger] final(self).word(w) == if w == wad {
                    v
                } else {
                    old(self).word(w)
                },
    {
        let (laddr, tag) = addr_dec(wad);
        let ghost pre = self.pages@;
        let mut page = match self.pages.remove(&tag) {
            Some(p) => p,
            None => {
                let p: Vec<u32> = vec![0u32; PAGE_WORDS];
                assert(forall|i: int| 0 <= i < PAGE_WORDS ==> p@[i] == 0u32);
                p
            },
        };
        page.set(laddr, v);
        self.pages.insert(tag, page);
        assert(self.pages() =~= pre.dom().insert(tag));
        assert forall|w: usize| #[trigger] self.word(w) == if w == wad {
            v
        } else {
            old(self).word(w)
        } by {
            if tag_of(w) == tag && index_of(w) == laddr {
                assert(w == 4096 * tag_of(w) + index_of(w));
                assert(wad == 4096 * tag_of(wad) + index_of(wad));
            }
        }
    }
}

impl Memory for MemPages {
    closed spec fn inv(&self) -> bool {
        forall|t: usize| #[trigger] self.pages@.contains_key(t) ==> self.pages@[t]@.len() == PAGE_WORDS
    }

    closed spec fn word(&self, wad: usize) -> u32 {
        if self.pages@.contains_key(tag_of(wad)) {
            self.pages@[tag_of(wad)]@[index_of(wad) as int]
        } else {
            0
        }
    }

    closed spec fn pages(&self) -> Set<usize> {
        self.pages@.dom()
    }

    fn new() -> (r: Self) {
        let r = MemPages { pages: HashMap::new() };
        assert(r.pages@.dom() =~= Set::<usize>::empty());
        r
    }

    fn write64(&mut self, ad: usize, dt: u64) {
        let ldt: u32 = (dt & 0xffff_ffff) as u32;
        let hdt: u32 = ((dt >> 32) & 0xffff_ffff) as u32;
        assert(ldt == dt as u32 && hdt == (dt >> 32u64) as u32) by (bit_vector)
            requires
                ldt == (dt & 0xffff_ffff) as u32,
                hdt == ((dt >> 32) & 0xffff_ffff) as u32,
        ;
        let dwad = ad >> 3;
        let wad = dwad << 1;
        assert(ad >> 3 == ad / 8) by (bit_vector);
        assert(dwad << 1 == dwad * 2) by (bit_vector)
            requires
                dwad == ad >> 3,
        ;
        assert(tag_of((wad + 1) as usize) == tag_of(wad));
        self.store_word(wad, ldt);
        self.store_word(wad + 1, hdt);
        assert(self.pages() =~= old(self).pages().insert(tag_of(dword_of(ad))));
    }

    fn write32(&mut self, ad: usize, dt: u32) {
        let wad = ad >> 2;
        assert(ad >> 2 == ad / 4) by (bit_vector);
        self.store_word(wad, dt);
    }

    fn write16(&mut self, ad: usize, dt: u16) {
        let hwad = ad >> 1;
        let wad = hwad >> 1;
        let sel = hwad & 0x1;
        assert(ad >> 1 >> 1 == ad / 4 && (ad >> 1) & 0x1 == (ad / 2) % 2) by (bit_vector);
        let shift: u32 = (sel * 16) as u32;
        let wdt: u32 = (dt as u32) << shift;
        let mask: u32 = 0xffff_ffff ^ (0xffff << shift);
        let w = self.load_word(wad);
        self.store_word(wad, (w & mask) | wdt);
    }

    fn write8(&mut self, ad: usize, dt: u8) {
        let wad = ad >> 2;
        let sel = ad & 0x3;
        assert(ad >> 2 == ad / 4 && ad & 0x3 == ad % 4) by (bit_vector);
        let shift: u32 = (sel * 8) as u32;
        let wdt: u32 = (dt as u32) << shift;
        let mask: u32 = 0xffff_ffff ^ (0xff << shift);
        let w = self.load_word(wad);
        self.store_word(wad, (w & mask) | wdt);
    }

    fn read64(&self, ad: usize) -> (r: u64) {
        let dwad = ad >> 3;
        let wad = dwad << 1;
        assert(ad >> 3 == ad / 8) by (bit_vector);
        assert(dwad << 1 == dwad * 2) by (bit_vector)
            requires
                dwad == ad >> 3,
        ;
        let ldt: u64 = self.load_word(wad) as u64;
        let hdt: u64 = self.load_word(wad + 1) as u64;
        (hdt << 32) | ldt
    }

    fn read32(&self, ad: usize) -> (r: u32) {
        let wad = ad >> 2;
        assert(ad >> 2 == ad / 4) by (bit_vector);
        self.load_word(wad)
    }

    fn read16(&self, ad: usize) -> (r: u16) {
        let hwad = ad >> 1;
        let wad = hwad >> 1;
        let sel = hwad & 0x1;
        assert(ad >> 1 >> 1 == ad / 4 && (ad >> 1) & 0x1 == (ad / 2) % 2) by (bit_vector);
        let shift: u32 = (sel * 16) as u32;
        let w = self.load_word(wad);
        assert((w >> shift) & 0xffff <= 0xffff) by (bit_vector);
        ((w >> shift) & 0xffff) as u16
    }

    fn read8(&self, ad: usize) -> (r: u8) {
        let wad = ad >> 2;
        let sel = ad & 0x3;
        assert(ad >> 2 == ad / 4 && ad & 0x3 == ad % 4) by (bit_vector);
        let shift: u32 = (sel * 8) as u32;
        let w = self.load_word(wad);
        assert((w >> shift) & 0xff <= 0xff) by (bit_vector);
        ((w >> shift) & 0xff) as u8
    }
}

} // verus!
