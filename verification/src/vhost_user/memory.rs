//! Guest memory: the regions of a memory table, mapped, and the two address
//! spaces in which they are found.
//!
//! The two must not be mixed up: the wrong one does not fail, it reads and
//! writes the wrong bytes.
//!
//! - Guest-physical addresses ([`AddrSpace::Gpa`]) are what the guest's driver
//!   writes into descriptors, to say where a request or a reply goes.
//! - User addresses ([`AddrSpace::User`]) are what the front-end reports for
//!   the rings themselves.
//!
//! Both lead into the same regions; which of them a number is depends on where
//! it came from. The contracts speak of memory that nobody else changes while
//! a call runs; the guest must not touch what it has published.
use crate::le;
use crate::vhost_user::payload::MemoryRegion;
use vstd::prelude::*;
use vstd::slice::slice_subrange;

verus! {

/// Which address space an address is in.
#[derive(Debug, Clone, Copy, PartialEq, Eq, Structural)]
pub enum AddrSpace {
    /// Guest-physical.
    Gpa,
    /// The front-end's own.
    User,
}

/// A mapped region, as a value.
#[verifier::ext_equal]
pub struct RegionView {
    pub gpa: u64,
    pub user_addr: u64,
    pub bytes: Seq<u8>,
}

impl RegionView {
    /// Where the region starts in an address space.
    pub open spec fn base(self, space: AddrSpace) -> u64 {
        match space {
            AddrSpace::Gpa => self.gpa,
            AddrSpace::User => self.user_addr,
        }
    }

    /// Whether `len` bytes at `addr` lie in the region.
    pub open spec fn holds(self, space: AddrSpace, addr: u64, len: int) -> bool {
        self.base(space) <= addr && addr - self.base(space) + len <= self.bytes.len()
    }
}

/// Guest memory, as a value.
pub type MemView = Seq<RegionView>;

/// The first region from `i` on that holds `len` bytes at `addr`, or the
/// number of regions if none does.
pub open spec fn region_from(m: MemView, space: AddrSpace, addr: u64, len: int, i: int) -> int
    decreases m.len() - i,
{
    if i >= m.len() || m[i].holds(space, addr, len) {
        i
    } else {
        region_from(m, space, addr, len, i + 1)
    }
}

/// The region that serves `len` bytes at `addr`.
pub open spec fn region_for(m: MemView, space: AddrSpace, addr: u64, len: int) -> int {
    region_from(m, space, addr, len, 0)
}

/// Whether `len` bytes at `addr` are mapped, in one region.
pub open spec fn mapped(m: MemView, space: AddrSpace, addr: u64, len: int) -> bool {
    region_for(m, space, addr, len) < m.len()
}

/// Where `addr` is in the region that serves it.
pub open spec fn offset_of(m: MemView, space: AddrSpace, addr: u64, len: int) -> int {
    addr - m[region_for(m, space, addr, len)].base(space)
}

/// The `len` bytes at `addr`.
pub open spec fn bytes_at(m: MemView, space: AddrSpace, addr: u64, len: int) -> Seq<u8> {
    let o = offset_of(m, space, addr, len);
    m[region_for(m, space, addr, len)].bytes.subrange(o, o + len)
}

/// Guest memory with `data` in place of the `len` bytes at `addr`.
pub open spec fn replaced(m: MemView, space: AddrSpace, addr: u64, len: int, data: Seq<u8>) -> MemView {
    let i = region_for(m, space, addr, len);
    let o = offset_of(m, space, addr, len);
    m.update(
        i,
        RegionView { bytes: m[i].bytes.take(o) + data + m[i].bytes.skip(o + len), ..m[i] },
    )
}

/// Guest memory with `data` written at `addr`.
pub open spec fn stored(m: MemView, space: AddrSpace, addr: u64, data: Seq<u8>) -> MemView {
    replaced(m, space, addr, data.len() as int, data)
}

/// Guest memory with `data` written at `addr`, if all of it is mapped there.
#[verifier::opaque]
pub open spec fn put(m: MemView, space: AddrSpace, addr: u64, data: Seq<u8>) -> Option<MemView> {
    if mapped(m, space, addr, data.len() as int) {
        Some(stored(m, space, addr, data))
    } else {
        None
    }
}

/// The 16-bit integer at `addr`, if it is mapped.
#[verifier::opaque]
pub open spec fn u16_at(m: MemView, space: AddrSpace, addr: u64) -> Option<u16> {
    if mapped(m, space, addr, 2) {
        Some(le::le16_at(bytes_at(m, space, addr, 2), 0))
    } else {
        None
    }
}

/// The 32-bit integer at `addr`, if it is mapped.
#[verifier::opaque]
pub open spec fn u32_at(m: MemView, space: AddrSpace, addr: u64) -> Option<u32> {
    if mapped(m, space, addr, 4) {
        Some(le::le32_at(bytes_at(m, space, addr, 4), 0))
    } else {
        None
    }
}

/// The 64-bit integer at `addr`, if it is mapped.
#[verifier::opaque]
pub open spec fn u64_at(m: MemView, space: AddrSpace, addr: u64) -> Option<u64> {
    if mapped(m, space, addr, 8) {
        Some(le::le64_at(bytes_at(m, space, addr, 8), 0))
    } else {
        None
    }
}

/// What `region_for` says is what it says.
pub proof fn lemma_region_from(m: MemView, space: AddrSpace, addr: u64, len: int, i: int)
    requires
        0 <= i <= m.len(),
    ensures
        i <= region_from(m, space, addr, len, i) <= m.len(),
        region_from(m, space, addr, len, i) < m.len() ==> m[region_from(
            m,
            space,
            addr,
            len,
            i,
        )].holds(space, addr, len),
        forall|j: int|
            i <= j < region_from(m, space, addr, len, i) ==> !(#[trigger] m[j]).holds(
                space,
                addr,
                len,
            ),
    decreases m.len() - i,
{
    if i < m.len() && !m[i].holds(space, addr, len) {
        lemma_region_from(m, space, addr, len, i + 1);
    }
}

/// A mapped region.
pub struct Region<'a> {
    gpa: u64,
    user_addr: u64,
    bytes: &'a mut [u8],
}

impl<'a> View for Region<'a> {
    type V = RegionView;

    closed spec fn view(&self) -> RegionView {
        RegionView { gpa: self.gpa, user_addr: self.user_addr, bytes: self.bytes@ }
    }
}

impl<'a> Region<'a> {
    fn window_mut(&mut self, o: usize, len: usize) -> (r: &mut [u8])
        requires
            o + len <= old(self)@.bytes.len(),
        ensures
            r@ == old(self)@.bytes.subrange(o as int, o + len),
            final(self)@ == (RegionView {
                bytes: old(self)@.bytes.take(o as int) + final(r)@ + old(self)@.bytes.skip(o + len),
                ..old(self)@
            }),
    {
        window(self.bytes, o, len)
    }

    fn base_for(&self, space: AddrSpace) -> (r: u64)
        ensures
            r == self@.base(space),
    {
        match space {
            AddrSpace::Gpa => self.gpa,
            AddrSpace::User => self.user_addr,
        }
    }
}

/// The `len` bytes of `s` from `o` on, to be changed.
fn window(s: &mut [u8], o: usize, len: usize) -> (r: &mut [u8])
    requires
        o + len <= old(s)@.len(),
    ensures
        r@ == old(s)@.subrange(o as int, o + len),
        final(s)@ == old(s)@.take(o as int) + final(r)@ + old(s)@.skip(o + len),
{
    let (_before, tail) = s.split_at_mut(o);
    let (middle, _after) = tail.split_at_mut(len);
    middle
}

/// Copies `src` into `dst`.
fn copy_into(dst: &mut [u8], src: &[u8])
    requires
        old(dst)@.len() == src@.len(),
    ensures
        final(dst)@ == src@,
{
    let mut k: usize = 0;
    while k < src.len()
        invariant
            k <= src.len(),
            dst@.len() == src@.len(),
            forall|j: int| 0 <= j < k ==> dst@[j] == src@[j],
        decreases src.len() - k,
    {
        dst[k] = src[k];
        k += 1;
    }
    assert(dst@ =~= src@);
}

/// Guest memory: one or more mapped regions.
pub struct GuestMemory<'a> {
    regions: Vec<Region<'a>>,
}

impl<'a> View for GuestMemory<'a> {
    type V = Seq<RegionView>;

    closed spec fn view(&self) -> Seq<RegionView> {
        self.regions@.map_values(|r: Region<'a>| r@)
    }
}

impl<'a> GuestMemory<'a> {
    /// No memory.
    pub fn new() -> (m: Self)
        ensures
            m@ == Seq::<RegionView>::empty(),
    {
        let m = GuestMemory { regions: Vec::new() };
        assert(m@ =~= Seq::<RegionView>::empty());
        m
    }

    /// Adds a region that is mapped as `bytes`.
    pub fn add_region(&mut self, gpa: u64, user_addr: u64, bytes: &'a mut [u8])
        ensures
            final(self)@ == old(self)@.push(RegionView { gpa, user_addr, bytes: old(bytes)@ }),
    {
        let region = Region { gpa, user_addr, bytes };
        self.regions.push(region);
        assert(self@ =~= old(self)@.push(region@));
    }

    /// The index of the region that serves `len` bytes at `addr`.
    fn find(&self, space: AddrSpace, addr: u64, len: u64) -> (r: usize)
        ensures
            r == region_for(self@, space, addr, len as int),
            r <= self@.len(),
            r < self@.len() ==> self@[r as int].holds(space, addr, len as int),
            self@.len() == self.regions@.len(),
    {
        let mut i: usize = 0;
        while i < self.regions.len()
            invariant
                i <= self.regions@.len(),
                self@.len() == self.regions@.len(),
                region_from(self@, space, addr, len as int, i as int) == region_for(
                    self@,
                    space,
                    addr,
                    len as int,
                ),
            decreases self.regions@.len() - i,
        {
            let base: u64 = self.regions[i].base_for(space);
            let size: u64 = self.regions[i].bytes.len() as u64;
            assert(self@[i as int] == self.regions@[i as int]@);
            if addr >= base && len <= size && addr - base <= size - len {
                return i;
            }
            i += 1;
        }
        i
    }

    /// The `len` bytes at `addr`, if they are mapped.
    pub fn get_slice(&self, space: AddrSpace, addr: u64, len: u64) -> (r: Option<&[u8]>)
        ensures
            mapped(self@, space, addr, len as int) ==> (r matches Some(s) && s@ == bytes_at(
                self@,
                space,
                addr,
                len as int,
            )),
            !mapped(self@, space, addr, len as int) ==> r is None,
            r matches Some(s) ==> s@.len() == len,
    {
        let i: usize = self.find(space, addr, len);
        if i == self.regions.len() {
            return None;
        }
        assert(self@[i as int] == self.regions@[i as int]@);
        let size: usize = self.regions[i].bytes.len();
        assert(addr - self@[i as int].base(space) + len <= size);
        let o: usize = (addr - self.regions[i].base_for(space)) as usize;
        Some(slice_subrange(&*self.regions[i].bytes, o, o + len as usize))
    }

    /// The `len` bytes at `addr`, to be changed, if they are mapped.
    pub fn get_slice_mut(&mut self, space: AddrSpace, addr: u64, len: u64) -> (r: Option<&mut [u8]>)
        ensures
            mapped(old(self)@, space, addr, len as int) ==> {
                &&& r matches Some(s)
                &&& s@ == bytes_at(old(self)@, space, addr, len as int)
                &&& s@.len() == len
                &&& final(self)@ == replaced(old(self)@, space, addr, len as int, final(s)@)
            },
            !mapped(old(self)@, space, addr, len as int) ==> r is None && final(self)@ == old(self)@,
    {
        let i: usize = self.find(space, addr, len);
        if i == self.regions.len() {
            return None;
        }
        assert(self@[i as int] == self.regions@[i as int]@);
        let size: usize = self.regions[i].bytes.len();
        assert(addr - self@[i as int].base(space) + len <= size);
        let o: usize = (addr - self.regions[i].base_for(space)) as usize;
        Some(self.regions[i].window_mut(o, len as usize))
    }

    /// Writes `data` at `addr`, if all of it is mapped there.
    pub fn write_slice(&mut self, space: AddrSpace, addr: u64, data: &[u8]) -> (r: Option<()>)
        ensures
            mapped(old(self)@, space, addr, data@.len() as int) ==> r == Some(()) && final(self)@
                == stored(old(self)@, space, addr, data@),
            !mapped(old(self)@, space, addr, data@.len() as int) ==> r is None && final(self)@
                == old(self)@,
    {
        match self.get_slice_mut(space, addr, data.len() as u64) {
            Some(window) => {
                copy_into(window, data);
                Some(())
            },
            None => None,
        }
    }

    pub fn read_u16(&self, space: AddrSpace, addr: u64) -> (r: Option<u16>)
        ensures
            r == u16_at(self@, space, addr),
    {
        proof {
            reveal(u16_at);
        }
        match self.get_slice(space, addr, 2) {
            Some(s) => Some(le::read_u16_at(s, 0)),
            None => None,
        }
    }

    pub fn read_u32(&self, space: AddrSpace, addr: u64) -> (r: Option<u32>)
        ensures
            r == u32_at(self@, space, addr),
    {
        proof {
            reveal(u32_at);
        }
        match self.get_slice(space, addr, 4) {
            Some(s) => Some(le::read_u32_at(s, 0)),
            None => None,
        }
    }

    pub fn read_u64(&self, space: AddrSpace, addr: u64) -> (r: Option<u64>)
        ensures
            r == u64_at(self@, space, addr),
    {
        proof {
            reveal(u64_at);
        }
        match self.get_slice(space, addr, 8) {
            Some(s) => Some(le::read_u64_at(s, 0)),
            None => None,
        }
    }

    pub fn write_u16(&mut self, space: AddrSpace, addr: u64, val: u16) -> (r: Option<()>)
        ensures
            mapped(old(self)@, space, addr, 2) ==> r == Some(()) && final(self)@ == stored(
                old(self)@,
                space,
                addr,
                le::u16_bytes(val),
            ),
            !mapped(old(self)@, space, addr, 2) ==> r is None && final(self)@ == old(self)@,
    {
        self.write_slice(space, addr, &le::u16_array(val))
    }

    pub fn write_u32(&mut self, space: AddrSpace, addr: u64, val: u32) -> (r: Option<()>)
        ensures
            mapped(old(self)@, space, addr, 4) ==> r == Some(()) && final(self)@ == stored(
                old(self)@,
                space,
                addr,
                le::u32_bytes(val),
            ),
            !mapped(old(self)@, space, addr, 4) ==> r is None && final(self)@ == old(self)@,
    {
        self.write_slice(space, addr, &le::u32_array(val))
    }
}

/// How a region is to be mapped: from a page-aligned offset of its file on,
/// with a few bytes more than it has, which are in front of it.
#[derive(Debug, Clone, Copy, PartialEq, Eq, Structural)]
pub struct Mapping {
    /// The offset in the file.
    pub offset: u64,
    /// How many bytes to map.
    pub len: u64,
    /// How many of them are in front of the region.
    pub skip: u64,
}

/// How to map a region where pages are `page_size` bytes long.
pub open spec fn mapping_for(region: MemoryRegion, page_size: u64) -> Mapping {
    let skip = region.mmap_offset % page_size;
    Mapping {
        offset: (region.mmap_offset - skip) as u64,
        len: (region.memory_size + skip) as u64,
        skip,
    }
}

/// How to map a region where pages are `page_size` bytes long.
pub fn mapping_of(region: &MemoryRegion, page_size: u64) -> (r: Mapping)
    requires
        page_size > 0,
        region.memory_size + region.mmap_offset % page_size <= u64::MAX,
    ensures
        r.skip == region.mmap_offset % page_size,
        r.offset == region.mmap_offset - r.skip,
        r.len == region.memory_size + r.skip,
        r.offset % page_size == 0,
        r == mapping_for(*region, page_size),
{
    proof {
        let whole = region.mmap_offset as int;
        let page = page_size as int;
        vstd::arithmetic::div_mod::lemma_fundamental_div_mod(whole, page);
        vstd::arithmetic::div_mod::lemma_mod_multiples_basic(whole / page, page);
        vstd::arithmetic::div_mod::lemma_mod_bound(whole, page);
        assert(page * (whole / page) == (whole / page) * page) by (nonlinear_arith);
        assert(0 <= (whole / page) * page) by (nonlinear_arith)
            requires
                0 <= whole,
                0 < page,
        ;
    }
    let skip: u64 = region.mmap_offset % page_size;
    let offset: u64 = region.mmap_offset - skip;
    Mapping { offset, len: region.memory_size + skip, skip }
}

/// A mapping starts on a page, and has the region in it from its first byte to its last:
/// what is skipped in front of it is less than a page.
pub proof fn law_mapping_has_its_region(region: MemoryRegion, page_size: u64)
    requires
        page_size > 0,
        region.memory_size + region.mmap_offset % page_size <= u64::MAX,
    ensures
        ({
            let r = mapping_for(region, page_size);
            &&& r.offset + r.skip == region.mmap_offset
            &&& r.len == r.skip + region.memory_size
            &&& r.skip < page_size
            &&& r.offset as int % page_size as int == 0
        }),
{
    let whole = region.mmap_offset as int;
    let page = page_size as int;
    vstd::arithmetic::div_mod::lemma_fundamental_div_mod(whole, page);
    vstd::arithmetic::div_mod::lemma_mod_multiples_basic(whole / page, page);
    vstd::arithmetic::div_mod::lemma_mod_bound(whole, page);
    assert(page * (whole / page) == (whole / page) * page) by (nonlinear_arith);
    assert(0 <= (whole / page) * page) by (nonlinear_arith)
        requires
            0 <= whole,
            0 < page,
    ;
}

/// Whether two memories have the same regions, but for the bytes in them.
pub open spec fn same_layout(a: MemView, b: MemView) -> bool {
    &&& a.len() == b.len()
    &&& forall|i: int|
        0 <= i < a.len() ==> (#[trigger] a[i]).gpa == b[i].gpa && a[i].user_addr == b[i].user_addr
            && a[i].bytes.len() == b[i].bytes.len()
}

/// Memories with the same layout have the same addresses mapped, at the same
/// places.
pub proof fn lemma_same_layout(
    a: MemView,
    b: MemView,
    space: AddrSpace,
    addr: u64,
    len: int,
    i: int,
)
    requires
        same_layout(a, b),
        0 <= i <= a.len(),
    ensures
        region_from(a, space, addr, len, i) == region_from(b, space, addr, len, i),
    decreases a.len() - i,
{
    if i < a.len() {
        lemma_same_layout(a, b, space, addr, len, i + 1);
    }
}

/// Some bytes are mapped exactly if a region holds all of them.
pub proof fn law_mapped_means_in_a_region(m: MemView, space: AddrSpace, addr: u64, len: int)
    ensures
        mapped(m, space, addr, len) <==> exists|i: int|
            0 <= i < m.len() && (#[trigger] m[i]).holds(space, addr, len),
        mapped(m, space, addr, len) ==> m[region_for(m, space, addr, len)].holds(space, addr, len),
{
    lemma_region_from(m, space, addr, len, 0);
}

/// What is written at an address is read there, and the layout stays.
pub proof fn law_memory_read_back(m: MemView, space: AddrSpace, addr: u64, data: Seq<u8>)
    requires
        mapped(m, space, addr, data.len() as int),
    ensures
        same_layout(m, stored(m, space, addr, data)),
        mapped(stored(m, space, addr, data), space, addr, data.len() as int),
        bytes_at(stored(m, space, addr, data), space, addr, data.len() as int) == data,
{
    let len = data.len() as int;
    let after = stored(m, space, addr, data);
    lemma_region_from(m, space, addr, len, 0);
    lemma_same_layout(m, after, space, addr, len, 0);
    assert(bytes_at(after, space, addr, len) =~= data);
}

/// An integer written at an address is read there.
pub proof fn law_integers_read_back(m: MemView, space: AddrSpace, addr: u64, a: u16, b: u32)
    ensures
        mapped(m, space, addr, 2) ==> u16_at(
            stored(m, space, addr, le::u16_bytes(a)),
            space,
            addr,
        ) == Some(a),
        mapped(m, space, addr, 4) ==> u32_at(
            stored(m, space, addr, le::u32_bytes(b)),
            space,
            addr,
        ) == Some(b),
{
    reveal(u16_at);
    reveal(u32_at);
    if mapped(m, space, addr, 2) {
        law_memory_read_back(m, space, addr, le::u16_bytes(a));
        le::law_u16_roundtrip(a);
    }
    if mapped(m, space, addr, 4) {
        law_memory_read_back(m, space, addr, le::u32_bytes(b));
        le::law_u32_roundtrip(b);
    }
}

/// Whether two ranges of bytes, in whatever spaces, have no byte in common.
pub open spec fn apart(
    m: MemView,
    space: AddrSpace,
    addr: u64,
    len: int,
    other_space: AddrSpace,
    other: u64,
    other_len: int,
) -> bool {
    ||| region_for(m, space, addr, len) != region_for(m, other_space, other, other_len)
    ||| offset_of(m, space, addr, len) + len <= offset_of(m, other_space, other, other_len)
    ||| offset_of(m, other_space, other, other_len) + other_len <= offset_of(m, space, addr, len)
}

/// A write changes nothing but the bytes it writes.
pub proof fn law_memory_frame(
    m: MemView,
    space: AddrSpace,
    addr: u64,
    data: Seq<u8>,
    other_space: AddrSpace,
    other: u64,
    len: int,
)
    requires
        mapped(m, space, addr, data.len() as int),
        mapped(m, other_space, other, len),
        0 <= len,
        apart(m, space, addr, data.len() as int, other_space, other, len),
    ensures
        mapped(stored(m, space, addr, data), other_space, other, len),
        bytes_at(stored(m, space, addr, data), other_space, other, len) == bytes_at(
            m,
            other_space,
            other,
            len,
        ),
{
    let after = stored(m, space, addr, data);
    law_memory_read_back(m, space, addr, data);
    lemma_region_from(m, space, addr, data.len() as int, 0);
    lemma_region_from(m, other_space, other, len, 0);
    lemma_same_layout(m, after, other_space, other, len, 0);
    assert(bytes_at(after, other_space, other, len) =~= bytes_at(m, other_space, other, len));
}

/// The address spaces are independent: what one of them finds does not depend
/// on where the regions are in the other.
pub proof fn law_address_spaces_are_independent(a: MemView, b: MemView, space: AddrSpace, addr: u64, len: int)
    requires
        a.len() == b.len(),
        forall|i: int|
            0 <= i < a.len() ==> (#[trigger] a[i]).bytes == b[i].bytes && a[i].base(space)
                == b[i].base(space),
    ensures
        mapped(a, space, addr, len) == mapped(b, space, addr, len),
        mapped(a, space, addr, len) ==> bytes_at(a, space, addr, len) == bytes_at(
            b,
            space,
            addr,
            len,
        ),
{
    lemma_same_bases(a, b, space, addr, len, 0);
    lemma_region_from(a, space, addr, len, 0);
}

proof fn lemma_same_bases(a: MemView, b: MemView, space: AddrSpace, addr: u64, len: int, i: int)
    requires
        a.len() == b.len(),
        forall|i: int|
            0 <= i < a.len() ==> (#[trigger] a[i]).bytes == b[i].bytes && a[i].base(space)
                == b[i].base(space),
        0 <= i <= a.len(),
    ensures
        region_from(a, space, addr, len, i) == region_from(b, space, addr, len, i),
    decreases a.len() - i,
{
    if i < a.len() {
        lemma_same_bases(a, b, space, addr, len, i + 1);
    }
}

/// A guest-physical address leads into the region that has it by its
/// guest-physical base, and a user address into the one that has it by its user
/// base: the bytes at an address are those that lie as far into that region as
/// the address lies behind the base. If several regions have the address, the
/// first does. What no region has is not mapped.
pub proof fn law_addresses_lead_into_their_regions(m: MemView, i: int, addr: u64, len: int)
    requires
        0 <= i < m.len(),
        0 <= len,
    ensures
        m[i].gpa <= addr && addr + len <= m[i].gpa + m[i].bytes.len() && (forall|j: int|
            0 <= j < i ==> !((#[trigger] m[j]).gpa <= addr && addr + len <= m[j].gpa
                + m[j].bytes.len())) ==> {
            let o = addr - m[i].gpa;
            &&& mapped(m, AddrSpace::Gpa, addr, len)
            &&& bytes_at(m, AddrSpace::Gpa, addr, len) == m[i].bytes.subrange(o, o + len)
        },
        m[i].user_addr <= addr && addr + len <= m[i].user_addr + m[i].bytes.len() && (forall|j: int|
            0 <= j < i ==> !((#[trigger] m[j]).user_addr <= addr && addr + len <= m[j].user_addr
                + m[j].bytes.len())) ==> {
            let o = addr - m[i].user_addr;
            &&& mapped(m, AddrSpace::User, addr, len)
            &&& bytes_at(m, AddrSpace::User, addr, len) == m[i].bytes.subrange(o, o + len)
        },
        (forall|j: int|
            0 <= j < m.len() ==> !((#[trigger] m[j]).gpa <= addr && addr + len <= m[j].gpa
                + m[j].bytes.len())) ==> !mapped(m, AddrSpace::Gpa, addr, len),
        (forall|j: int|
            0 <= j < m.len() ==> !((#[trigger] m[j]).user_addr <= addr && addr + len
                <= m[j].user_addr + m[j].bytes.len())) ==> !mapped(m, AddrSpace::User, addr, len),
{
    lemma_region_from(m, AddrSpace::Gpa, addr, len, 0);
    lemma_region_from(m, AddrSpace::User, addr, len, 0);
    let g = region_for(m, AddrSpace::Gpa, addr, len);
    let u = region_for(m, AddrSpace::User, addr, len);
    assert(g < m.len() ==> m[g].gpa <= addr && addr + len <= m[g].gpa + m[g].bytes.len());
    assert(u < m.len() ==> m[u].user_addr <= addr && addr + len <= m[u].user_addr
        + m[u].bytes.len());
    assert(g > i ==> !m[i].holds(AddrSpace::Gpa, addr, len));
    assert(u > i ==> !m[i].holds(AddrSpace::User, addr, len));
}

/// A write puts its bytes, in order, where the address leads to, and leaves every
/// other byte of every region as it was.
pub proof fn law_write_changes_its_bytes_only(
    m: MemView,
    space: AddrSpace,
    addr: u64,
    data: Seq<u8>,
    i: int,
    j: int,
)
    requires
        mapped(m, space, addr, data.len() as int),
        0 <= i < m.len(),
        0 <= j < m[i].bytes.len(),
    ensures
        ({
            let after = stored(m, space, addr, data);
            let base = match space {
                AddrSpace::Gpa => m[i].gpa,
                AddrSpace::User => m[i].user_addr,
            };
            let here = i == region_for(m, space, addr, data.len() as int);
            let k = base + j - addr;
            &&& after.len() == m.len()
            &&& after[i].gpa == m[i].gpa
            &&& after[i].user_addr == m[i].user_addr
            &&& after[i].bytes.len() == m[i].bytes.len()
            &&& here && 0 <= k < data.len() ==> after[i].bytes[j] == data[k]
            &&& !(here && 0 <= k < data.len()) ==> after[i].bytes[j] == m[i].bytes[j]
        }),
{
    lemma_region_from(m, space, addr, data.len() as int, 0);
}

/// An integer in memory is the little-endian value of the bytes at its address.
pub proof fn law_integers_are_the_bytes_there(m: MemView, space: AddrSpace, addr: u64)
    ensures
        u16_at(m, space, addr) is Some <==> mapped(m, space, addr, 2),
        u32_at(m, space, addr) is Some <==> mapped(m, space, addr, 4),
        u64_at(m, space, addr) is Some <==> mapped(m, space, addr, 8),
        u16_at(m, space, addr) matches Some(v) ==> v == le::le16_at(
            bytes_at(m, space, addr, 2),
            0,
        ),
        u32_at(m, space, addr) matches Some(v) ==> v == le::le32_at(
            bytes_at(m, space, addr, 4),
            0,
        ),
        u64_at(m, space, addr) matches Some(v) ==> v == le::le64_at(
            bytes_at(m, space, addr, 8),
            0,
        ),
{
    reveal(u16_at);
    reveal(u32_at);
    reveal(u64_at);
}

/// A region that starts elsewhere in the other space is not found there by an
/// address of this space.
pub proof fn law_wrong_space_is_not_mapped(region: RegionView, addr: u64, len: int)
    requires
        region.holds(AddrSpace::Gpa, addr, len),
        len > 0,
        addr < region.user_addr || addr >= region.user_addr + region.bytes.len(),
    ensures
        mapped(seq![region], AddrSpace::Gpa, addr, len),
        !mapped(seq![region], AddrSpace::User, addr, len),
{
    law_mapped_means_in_a_region(seq![region], AddrSpace::Gpa, addr, len);
    law_mapped_means_in_a_region(seq![region], AddrSpace::User, addr, len);
    assert(seq![region][0] == region);
}

} // verus!
