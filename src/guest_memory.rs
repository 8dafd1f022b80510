//! Guest physical memory: regions of guest address space, each backed by a byte window
//! of a host object, gathered in one container that translates guest addresses and
//! performs bounds-checked I/O.
use vstd::multiset::Multiset;
use vstd::prelude::*;

use crate::guest_address::GuestAddress;
use crate::plain_data::PlainData;

verus! {

broadcast use vstd::seq_lib::group_to_multiset_ensures;

/// The host page size; sizes of regions laid out from a flat range list, and offsets of
/// mappings into a backing object, are multiples of it.
pub const PAGE_SIZE: u64 = 4096;

/// Why a mapping of a backing object, or an access through it, was refused.
#[derive(Clone, Copy, Debug, PartialEq, Eq, Structural)]
pub enum MmapError {
    /// The offset into the backing object is not page aligned.
    InvalidOffset,
    /// The window `(offset, count)` does not fit in an object or mapping of the given size.
    InvalidRange(u64, u64, u64),
}

/// Why a slice of a mapping could not be taken.
#[derive(Clone, Copy, Debug, PartialEq, Eq, Structural)]
pub enum VolatileMemoryError {
    /// The slice would end at `addr`, past the end of the mapping.
    OutOfBounds { addr: u64 },
    /// `base + offset` does not fit in a `usize`.
    Overflow { base: u64, offset: u64 },
}

/// The errors of guest memory construction, translation and I/O.
#[derive(Clone, Copy, Debug, PartialEq, Eq, Structural)]
pub enum Error {
    InvalidGuestAddress(GuestAddress),
    InvalidOffset(u64),
    InvalidSize(u64),
    MemoryAccess(GuestAddress, MmapError),
    MemoryMappingFailed(MmapError),
    MemoryNotAligned,
    MemoryRegionOverlap,
    MemoryRegionTooLarge(u128),
    ShortRead { expected: u64, completed: u64 },
    ShortWrite { expected: u64, completed: u64 },
    VolatileMemoryAccess(VolatileMemoryError),
}

/// The host object that supplies the bytes of one or more regions, with its length in
/// bytes: an anonymous shared-memory segment or a file. A value describes an object by its
/// kind and length only; each container owns the bytes of its own regions, so two
/// containers never share them, even where their objects compare equal.
#[derive(Clone, Copy, Debug, PartialEq, Eq, Structural)]
pub enum BackingObject {
    Shm { size: u64 },
    File { size: u64 },
}

impl BackingObject {
    pub open spec fn spec_size(self) -> nat {
        match self {
            BackingObject::Shm { size } => size as nat,
            BackingObject::File { size } => size as nat,
        }
    }

    /// Returns the length of the object in bytes.
    pub fn size(&self) -> (r: u64)
        ensures
            r == self.spec_size(),
    {
        match self {
            BackingObject::Shm { size } => *size,
            BackingObject::File { size } => *size,
        }
    }
}

/// What a region is, mathematically: the guest address it starts at, the object and
/// offset its bytes come from, and its current bytes.
pub struct RegionView {
    pub base: nat,
    pub obj: BackingObject,
    pub obj_offset: nat,
    pub bytes: Seq<u8>,
}

/// The first guest address past the region.
pub open spec fn region_end(r: RegionView) -> int {
    (r.base + r.bytes.len()) as int
}

/// Whether guest address `a` lies in `[base, end)` of the region.
pub open spec fn region_contains(r: RegionView, a: int) -> bool {
    r.base <= a < region_end(r)
}

/// A region is non-empty, does not wrap past the 64-bit boundary, and its window lies
/// inside its backing object.
pub open spec fn region_wf(r: RegionView) -> bool {
    &&& r.bytes.len() > 0
    &&& region_end(r) <= u64::MAX
    &&& r.bytes.len() <= usize::MAX
    &&& r.obj_offset + r.bytes.len() <= r.obj.spec_size()
}

/// Whether the two regions share no guest address.
pub open spec fn regions_disjoint(a: RegionView, b: RegionView) -> bool {
    region_end(a) <= b.base || region_end(b) <= a.base
}

/// Every region is well formed, and the regions are sorted by base address and do not
/// overlap.
pub open spec fn layout_wf(rs: Seq<RegionView>) -> bool {
    &&& forall|i: int| 0 <= i < rs.len() ==> region_wf(#[trigger] rs[i])
    &&& forall|i: int, j: int|
        0 <= i < j < rs.len() ==> region_end(#[trigger] rs[i]) <= (#[trigger] rs[j]).base
}

/// Whether some region contains guest address `a`.
pub open spec fn addr_in(rs: Seq<RegionView>, a: int) -> bool {
    exists|i: int| 0 <= i < rs.len() && region_contains(#[trigger] rs[i], a)
}

/// The index of the region that contains `a` (meaningful when `addr_in(rs, a)`).
pub open spec fn region_of(rs: Seq<RegionView>, a: int) -> int {
    choose|i: int| 0 <= i < rs.len() && region_contains(#[trigger] rs[i], a)
}

/// The offset of `a` inside the region that contains it.
pub open spec fn offset_in_region(rs: Seq<RegionView>, a: int) -> int {
    a - rs[region_of(rs, a)].base
}

/// The bytes left in the containing region from `a` up to its end.
pub open spec fn room_at(rs: Seq<RegionView>, a: int) -> int {
    region_end(rs[region_of(rs, a)]) - a
}

/// The byte at guest address `a` (meaningful when `addr_in(rs, a)`).
pub open spec fn byte_at(rs: Seq<RegionView>, a: int) -> u8 {
    rs[region_of(rs, a)].bytes[offset_in_region(rs, a)]
}

/// The offset inside its backing object of the byte at guest address `a`.
pub open spec fn obj_offset_of(rs: Seq<RegionView>, a: int) -> int {
    rs[region_of(rs, a)].obj_offset + offset_in_region(rs, a)
}

/// Whether `[start, start + len)` is non-empty and lies inside a single region.
pub open spec fn span_in_one_region(rs: Seq<RegionView>, start: int, len: int) -> bool {
    len > 0 && exists|i: int|
        0 <= i < rs.len() && (#[trigger] rs[i]).base <= start && start + len <= region_end(rs[i])
}

/// Whether `[start, end)` is non-empty and meets some region.
pub open spec fn overlaps_some(rs: Seq<RegionView>, start: int, end: int) -> bool {
    start < end && exists|i: int| 0 <= i < rs.len() && (#[trigger] rs[i]).base < end && start < region_end(rs[i])
}

/// The sum of the sizes of all regions.
pub open spec fn total_bytes(rs: Seq<RegionView>) -> nat
    decreases rs.len(),
{
    if rs.len() == 0 {
        0
    } else {
        (total_bytes(rs.drop_last()) + rs.last().bytes.len()) as nat
    }
}

/// `rs` with the bytes of region `i` from `off` on replaced by `data`.
pub open spec fn write_bytes(rs: Seq<RegionView>, i: int, off: int, data: Seq<u8>) -> Seq<
    RegionView,
> {
    let r = rs[i];
    rs.update(
        i,
        RegionView {
            bytes: r.bytes.subrange(0, off) + data + r.bytes.subrange(
                off + data.len(),
                r.bytes.len() as int,
            ),
            ..r
        },
    )
}

/// `rs` after writing `data` at guest address `a`, clipped to the containing region.
pub open spec fn write_at(rs: Seq<RegionView>, a: int, data: Seq<u8>) -> Seq<RegionView> {
    let n = if data.len() <= room_at(rs, a) { data.len() as int } else { room_at(rs, a) };
    write_bytes(rs, region_of(rs, a), offset_in_region(rs, a), data.take(n))
}

/// The `n` bytes from guest address `a` on, taken from the containing region.
pub open spec fn read_at(rs: Seq<RegionView>, a: int, n: int) -> Seq<u8> {
    rs[region_of(rs, a)].bytes.subrange(offset_in_region(rs, a), offset_in_region(rs, a) + n)
}

/// Two regions that contain one address are the same region.
pub proof fn lemma_region_unique(rs: Seq<RegionView>, a: int, i: int, j: int)
    requires
        layout_wf(rs),
        0 <= i < rs.len(),
        0 <= j < rs.len(),
        region_contains(rs[i], a),
        region_contains(rs[j], a),
    ensures
        i == j,
{
    if i < j {
        assert(region_end(rs[i]) <= rs[j].base);
    } else if j < i {
        assert(region_end(rs[j]) <= rs[i].base);
    }
}

/// The region that `region_of` names contains the address.
pub proof fn lemma_region_of_contains(rs: Seq<RegionView>, a: int)
    requires
        addr_in(rs, a),
    ensures
        0 <= region_of(rs, a) < rs.len(),
        region_contains(rs[region_of(rs, a)], a),
        0 <= offset_in_region(rs, a) < rs[region_of(rs, a)].bytes.len(),
        room_at(rs, a) > 0,
        room_at(rs, a) == rs[region_of(rs, a)].bytes.len() - offset_in_region(rs, a),
{
}

/// The containing region found by index is the one that `region_of` names.
pub proof fn lemma_region_of(rs: Seq<RegionView>, a: int, i: int)
    requires
        layout_wf(rs),
        0 <= i < rs.len(),
        region_contains(rs[i], a),
    ensures
        addr_in(rs, a),
        region_of(rs, a) == i,
{
    assert(addr_in(rs, a));
    let k = region_of(rs, a);
    lemma_region_unique(rs, a, i, k);
}

/// One contiguous range of guest physical address space, with the host-side bytes that
/// back it: a window of `size` bytes at `obj_offset` in `shared_obj`.
#[derive(Debug)]
pub struct MemoryRegion {
    mapping: Vec<u8>,
    guest_base: GuestAddress,
    shared_obj: BackingObject,
    obj_offset: u64,
}

impl View for MemoryRegion {
    type V = RegionView;

    closed spec fn view(&self) -> RegionView {
        RegionView {
            base: self.guest_base.0 as nat,
            obj: self.shared_obj,
            obj_offset: self.obj_offset as nat,
            bytes: self.mapping@,
        }
    }
}

/// Why mapping `size` bytes at `offset` of an object of `obj_size` bytes, for guest
/// address `base`, fails; `None` when it succeeds.
pub open spec fn mapping_fault(size: u64, base: u64, offset: u64, obj_size: u64) -> Option<Error> {
    if offset % PAGE_SIZE != 0 {
        Some(Error::MemoryMappingFailed(MmapError::InvalidOffset))
    } else if size == 0 || offset + size > obj_size {
        Some(Error::MemoryMappingFailed(MmapError::InvalidRange(offset, size, obj_size)))
    } else if size > usize::MAX || base + size > u64::MAX {
        Some(Error::MemoryRegionTooLarge((base + size) as u128))
    } else {
        None
    }
}

impl MemoryRegion {
    /// Maps `size` bytes of `shm` from `offset` on, to appear at `guest_base` in the
    /// guest. A fresh shared-memory segment reads as zeros.
    pub fn new_from_shm(size: u64, guest_base: GuestAddress, offset: u64, shm: BackingObject) -> (r:
        Result<MemoryRegion, Error>)
        requires
            shm is Shm,
        ensures
            match mapping_fault(size, guest_base.0, offset, shm.spec_size() as u64) {
                Some(e) => r == Err::<MemoryRegion, Error>(e),
                None => r is Ok && r->Ok_0@ == (RegionView {
                    base: guest_base.0 as nat,
                    obj: shm,
                    obj_offset: offset as nat,
                    bytes: Seq::new(size as nat, |k: int| 0u8),
                }),
            },
            r is Ok ==> region_wf(r->Ok_0@),
    {
        let obj_size = shm.size();
        if let Some(e) = Self::check_mapping(size, guest_base, offset, obj_size) {
            return Err(e);
        }
        let n = size as usize;
        let mut mapping: Vec<u8> = Vec::new();
        while mapping.len() < n
            invariant
                n == size,
                mapping.len() <= size,
                forall|k: int| 0 <= k < mapping.len() ==> mapping@[k] == 0u8,
            decreases size - mapping.len(),
        {
            mapping.push(0u8);
        }
        assert(mapping@ =~= Seq::new(size as nat, |k: int| 0u8));
        Ok(MemoryRegion { mapping, guest_base, shared_obj: shm, obj_offset: offset })
    }

    /// Maps `size` bytes of the file whose contents are `file`, from `offset` on, to
    /// appear at `guest_base` in the guest.
    pub fn new_from_file(size: u64, guest_base: GuestAddress, offset: u64, file: &[u8]) -> (r:
        Result<MemoryRegion, Error>)
        ensures
            match mapping_fault(size, guest_base.0, offset, file@.len() as u64) {
                Some(e) => r == Err::<MemoryRegion, Error>(e),
                None => r is Ok && r->Ok_0@ == (RegionView {
                    base: guest_base.0 as nat,
                    obj: BackingObject::File { size: file@.len() as u64 },
                    obj_offset: offset as nat,
                    bytes: file@.subrange(offset as int, offset + size),
                }),
            },
            r is Ok ==> region_wf(r->Ok_0@),
    {
        let obj_size = file.len() as u64;
        if let Some(e) = Self::check_mapping(size, guest_base, offset, obj_size) {
            return Err(e);
        }
        let start = offset as usize;
        let end = (offset + size) as usize;
        let mut mapping: Vec<u8> = Vec::new();
        let mut k: usize = start;
        while k < end
            invariant
                start <= k <= end <= file@.len(),
                mapping@ == file@.subrange(start as int, k as int),
            decreases end - k,
        {
            mapping.push(file[k]);
            k = k + 1;
            assert(mapping@ =~= file@.subrange(start as int, k as int));
        }
        Ok(
            MemoryRegion {
                mapping,
                guest_base,
                shared_obj: BackingObject::File { size: obj_size },
                obj_offset: offset,
            },
        )
    }

    fn check_mapping(size: u64, guest_base: GuestAddress, offset: u64, obj_size: u64) -> (r: Option<
        Error,
    >)
        ensures
            r == mapping_fault(size, guest_base.0, offset, obj_size),
    {
        if offset % PAGE_SIZE != 0 {
            Some(Error::MemoryMappingFailed(MmapError::InvalidOffset))
        } else if size == 0 || offset > obj_size || size > obj_size - offset {
            Some(Error::MemoryMappingFailed(MmapError::InvalidRange(offset, size, obj_size)))
        } else if size > usize::MAX as u64 || size > u64::MAX - guest_base.0 {
            Some(Error::MemoryRegionTooLarge(guest_base.0 as u128 + size as u128))
        } else {
            None
        }
    }

    /// Copies as much of `buf` as fits between `offset` and the end of the mapping;
    /// returns how many bytes were copied.
    fn write_slice(&mut self, buf: &[u8], offset: usize) -> (n: usize)
        requires
            offset < old(self)@.bytes.len(),
        ensures
            n == (if buf@.len() <= old(self)@.bytes.len() - offset {
                buf@.len() as int
            } else {
                old(self)@.bytes.len() - offset
            }),
            final(self)@ == (RegionView {
                bytes: old(self)@.bytes.subrange(0, offset as int) + buf@.take(n as int)
                    + old(self)@.bytes.subrange(offset + n, old(self)@.bytes.len() as int),
                ..old(self)@
            }),
    {
        let room = self.mapping.len() - offset;
        let n = if buf.len() <= room {
            buf.len()
        } else {
            room
        };
        let ghost old_bytes = self.mapping@;
        let len = self.mapping.len();
        let mut j: usize = 0;
        while j < n
            invariant
                j <= n,
                offset + n <= len,
                offset + n <= old_bytes.len(),
                n <= buf@.len(),
                self.guest_base == old(self).guest_base,
                self.shared_obj == old(self).shared_obj,
                self.obj_offset == old(self).obj_offset,
                old_bytes == old(self).mapping@,
                self.mapping@.len() == old_bytes.len(),
                len == old_bytes.len(),
                self.mapping@ == old_bytes.subrange(0, offset as int) + buf@.take(j as int)
                    + old_bytes.subrange(offset + j, old_bytes.len() as int),
            decreases n - j,
        {
            self.mapping[offset + j] = buf[j];
            j = j + 1;
            assert(self.mapping@ =~= old_bytes.subrange(0, offset as int) + buf@.take(j as int)
                + old_bytes.subrange(offset + j, old_bytes.len() as int));
        }
        n
    }

    /// Copies the `n` bytes at `offset` of the mapping into the front of `buf`.
    fn read_slice(&self, buf: &mut [u8], offset: usize, n: usize)
        requires
            offset + n <= self@.bytes.len(),
            n <= old(buf)@.len(),
        ensures
            final(buf)@ == self@.bytes.subrange(offset as int, offset + n) + old(buf)@.subrange(
                n as int,
                old(buf)@.len() as int,
            ),
    {
        let ghost old_buf = buf@;
        let len = self.mapping.len();
        let mut j: usize = 0;
        while j < n
            invariant
                j <= n,
                offset + n <= self@.bytes.len(),
                offset + n <= len,
                len == self.mapping@.len(),
                n <= old_buf.len(),
                buf@.len() == old_buf.len(),
                buf@ == self@.bytes.subrange(offset as int, offset + j) + old_buf.subrange(
                    j as int,
                    old_buf.len() as int,
                ),
            decreases n - j,
        {
            buf[j] = self.mapping[offset + j];
            j = j + 1;
            assert(buf@ =~= self@.bytes.subrange(offset as int, offset + j) + old_buf.subrange(
                j as int,
                old_buf.len() as int,
            ));
        }
    }

    /// The first guest address of the region.
    pub fn start(&self) -> (r: GuestAddress)
        ensures
            r.0 == self@.base,
    {
        self.guest_base
    }

    /// The number of bytes in the region.
    pub fn size(&self) -> (r: u64)
        ensures
            r == self@.bytes.len(),
    {
        self.mapping.len() as u64
    }

    /// The first guest address past the region.
    pub fn end(&self) -> (r: GuestAddress)
        requires
            region_wf(self@),
        ensures
            r.0 == region_end(self@),
    {
        self.guest_base.unchecked_add(self.mapping.len() as u64)
    }

    /// Whether `addr` lies in `[start, end)`.
    pub fn contains(&self, addr: GuestAddress) -> (r: bool)
        requires
            region_wf(self@),
        ensures
            r == region_contains(self@, addr.0 as int),
    {
        addr.0 >= self.guest_base.0 && addr.0 < self.end().0
    }

    /// The object that backs the region.
    pub fn backing_object(&self) -> (r: BackingObject)
        ensures
            r == self@.obj,
    {
        self.shared_obj
    }

    /// The offset inside the backing object where the region's bytes begin.
    pub fn obj_offset(&self) -> (r: u64)
        ensures
            r == self@.obj_offset,
    {
        self.obj_offset
    }
}

/// The sum of the sizes in a flat range list.
pub open spec fn sizes_sum(ranges: Seq<(GuestAddress, u64)>) -> nat
    decreases ranges.len(),
{
    if ranges.len() == 0 {
        0
    } else {
        sizes_sum(ranges.drop_last()) + ranges.last().1 as nat
    }
}

/// Every size in the range list is a multiple of the page size.
pub open spec fn all_page_aligned(ranges: Seq<(GuestAddress, u64)>) -> bool {
    forall|i: int| 0 <= i < ranges.len() ==> (#[trigger] ranges[i]).1 % PAGE_SIZE == 0
}

/// Why range `k` of a flat range list cannot become a region: it begins before the end
/// of range `k - 1`, or its window of the shared object cannot be mapped.
pub open spec fn range_fault(ranges: Seq<(GuestAddress, u64)>, k: int) -> Option<Error> {
    if k > 0 && ranges[k - 1].0.0 + ranges[k - 1].1 > ranges[k].0.0 {
        Some(Error::MemoryRegionOverlap)
    } else {
        mapping_fault(
            ranges[k].1,
            ranges[k].0.0,
            sizes_sum(ranges.take(k)) as u64,
            sizes_sum(ranges) as u64,
        )
    }
}

/// No range of the list has a fault.
pub open spec fn no_range_fault(ranges: Seq<(GuestAddress, u64)>) -> bool {
    forall|k: int| 0 <= k < ranges.len() ==> (#[trigger] range_fault(ranges, k)) is None
}

/// The regions laid out from a flat range list: one per range, in order, each a window
/// of one zero-filled shared object sized to the sum of all ranges, at increasing offsets.
pub open spec fn flat_layout(ranges: Seq<(GuestAddress, u64)>) -> Seq<RegionView> {
    Seq::new(
        ranges.len(),
        |i: int|
            RegionView {
                base: ranges[i].0.0 as nat,
                obj: BackingObject::Shm { size: sizes_sum(ranges) as u64 },
                obj_offset: sizes_sum(ranges.take(i)) as nat,
                bytes: Seq::new(ranges[i].1 as nat, |k: int| 0u8),
            },
    )
}

/// The outcome of laying out guest memory from a flat range list: misaligned sizes are
/// refused first, then a total that does not fit in 64 bits, then the first range with a
/// fault; otherwise the regions of `flat_layout`.
pub open spec fn flat_outcome_ok(ranges: Seq<(GuestAddress, u64)>) -> bool {
    all_page_aligned(ranges) && sizes_sum(ranges) <= u64::MAX && no_range_fault(ranges)
}

proof fn lemma_sizes_sum_step(ranges: Seq<(GuestAddress, u64)>, k: int)
    requires
        0 <= k < ranges.len(),
    ensures
        sizes_sum(ranges.take(k + 1)) == sizes_sum(ranges.take(k)) + ranges[k].1,
{
    assert(ranges.take(k + 1).drop_last() =~= ranges.take(k));
}

proof fn lemma_sizes_sum_mono(ranges: Seq<(GuestAddress, u64)>, j: int, k: int)
    requires
        0 <= j <= k <= ranges.len(),
    ensures
        sizes_sum(ranges.take(j)) <= sizes_sum(ranges.take(k)),
    decreases k - j,
{
    if j < k {
        lemma_sizes_sum_step(ranges, k - 1);
        lemma_sizes_sum_mono(ranges, j, k - 1);
    }
}

proof fn lemma_flat_push(
    ranges: Seq<(GuestAddress, u64)>,
    k: int,
    old_v: Seq<RegionView>,
    rv: RegionView,
)
    requires
        0 <= k < ranges.len(),
        old_v.len() == k,
        layout_wf(old_v),
        forall|j: int| 0 <= j < k ==> (#[trigger] old_v[j]) == flat_layout(ranges)[j],
        rv == flat_layout(ranges)[k],
        region_wf(rv),
        range_fault(ranges, k) is None,
    ensures
        layout_wf(old_v.push(rv)),
{
    let new_v = old_v.push(rv);
    assert forall|i: int, j: int| 0 <= i < j < new_v.len() implies region_end(
        #[trigger] new_v[i],
    ) <= (#[trigger] new_v[j]).base by {
        if j == k {
            assert(old_v[k - 1] == flat_layout(ranges)[k - 1]);
            if i < k - 1 {
                assert(region_end(old_v[i]) <= old_v[k - 1].base);
            }
        }
    }
}

/// The views of a sequence of regions.
pub open spec fn region_views(rs: Seq<MemoryRegion>) -> Seq<RegionView> {
    rs.map_values(|m: MemoryRegion| m@)
}

/// What the region listing reports of one region.
#[derive(Clone, Copy, Debug, PartialEq, Eq, Structural)]
pub struct RegionInfo {
    pub index: usize,
    pub guest_addr: GuestAddress,
    pub size: usize,
    pub shm: BackingObject,
    pub shm_offset: u64,
}

/// Proves that the sizes of sorted, disjoint regions add up to no more than the end of
/// the last one.
proof fn lemma_total_bounded(rs: Seq<RegionView>)
    requires
        layout_wf(rs),
        rs.len() > 0,
    ensures
        total_bytes(rs) <= region_end(rs.last()),
    decreases rs.len(),
{
    let p = rs.drop_last();
    assert(total_bytes(rs) == total_bytes(p) + rs.last().bytes.len());
    if p.len() == 0 {
        assert(total_bytes(p) == 0);
    } else {
        assert(layout_wf(p));
        lemma_total_bounded(p);
        assert(region_end(p.last()) <= rs.last().base);
    }
}

/// Two layouts whose regions differ only in their bytes.
pub open spec fn same_shape(a: Seq<RegionView>, b: Seq<RegionView>) -> bool {
    &&& a.len() == b.len()
    &&& forall|i: int|
        0 <= i < a.len() ==> (#[trigger] a[i]).base == b[i].base && a[i].obj == b[i].obj
            && a[i].obj_offset == b[i].obj_offset && a[i].bytes.len() == b[i].bytes.len()
}

proof fn lemma_same_shape(a: Seq<RegionView>, b: Seq<RegionView>, x: int)
    requires
        same_shape(a, b),
    ensures
        layout_wf(a) ==> layout_wf(b),
        addr_in(a, x) == addr_in(b, x),
        layout_wf(a) && addr_in(a, x) ==> region_of(a, x) == region_of(b, x),
{
    if addr_in(a, x) {
        let i = choose|i: int| 0 <= i < a.len() && region_contains(#[trigger] a[i], x);
        assert(region_contains(b[i], x));
    }
    if addr_in(b, x) {
        let i = choose|i: int| 0 <= i < b.len() && region_contains(#[trigger] b[i], x);
        assert(region_contains(a[i], x));
    }
    if layout_wf(a) {
        assert forall|i: int| 0 <= i < b.len() implies region_wf(#[trigger] b[i]) by {
            assert(region_wf(a[i]));
        }
        assert forall|i: int, j: int| 0 <= i < j < b.len() implies region_end(#[trigger] b[i])
            <= (#[trigger] b[j]).base by {
            assert(region_end(a[i]) <= a[j].base);
        }
        if addr_in(a, x) {
            let i = region_of(a, x);
            lemma_region_of(b, x, i);
        }
    }
}

/// A validated span of guest memory: `len` bytes from `guest_addr` on, inside a single
/// region of the container that handed it out.
#[derive(Clone, Copy, Debug, PartialEq, Eq, Structural)]
pub struct VolatileSlice {
    pub guest_addr: GuestAddress,
    pub len: usize,
}

/// Whether region `r` is a window of `obj` that holds `[offset, offset + len)` of it.
pub open spec fn window_holds(r: RegionView, obj: BackingObject, offset: int, len: int) -> bool {
    r.obj == obj && r.obj_offset <= offset && offset + len <= r.obj_offset + r.bytes.len()
}

/// What taking a slice of `len` bytes at `addr` gives: the address must lie in a region,
/// and the span must neither overflow nor pass the end of that region.
pub open spec fn slice_outcome(rs: Seq<RegionView>, addr: GuestAddress, len: usize) -> Result<
    VolatileSlice,
    Error,
> {
    let off = offset_in_region(rs, addr.0 as int);
    if !addr_in(rs, addr.0 as int) {
        Err(Error::InvalidGuestAddress(addr))
    } else if off + len > usize::MAX {
        Err(
            Error::VolatileMemoryAccess(
                VolatileMemoryError::Overflow { base: off as u64, offset: len as u64 },
            ),
        )
    } else if len > room_at(rs, addr.0 as int) {
        Err(Error::VolatileMemoryAccess(VolatileMemoryError::OutOfBounds { addr: (off + len) as u64 }))
    } else {
        Ok(VolatileSlice { guest_addr: addr, len })
    }
}

/// Where a guest address lies on the host side: the index of the region's mapping and the
/// byte offset inside it.
#[derive(Clone, Copy, Debug, PartialEq, Eq, Structural)]
pub struct HostAddress {
    pub mapping: usize,
    pub offset: usize,
}

/// A validated location of one `T` in guest memory, for loads and stores of whole values.
pub struct VolatileRef<T> {
    pub guest_addr: GuestAddress,
    pub marker: core::marker::PhantomData<T>,
}

/// Tracks memory regions and where they are mapped in the guest.
#[derive(Debug)]
pub struct GuestMemory {
    regions: Vec<MemoryRegion>,
}

impl View for GuestMemory {
    type V = Seq<RegionView>;

    closed spec fn view(&self) -> Seq<RegionView> {
        self.regions@.map_values(|r: MemoryRegion| r@)
    }
}

impl GuestMemory {
    /// The container's invariant: its regions are well formed, sorted by base address
    /// and pairwise disjoint.
    pub open spec fn inv(&self) -> bool {
        layout_wf(self@)
    }

    /// Builds the region for range `k` of a flat range list, at `offset` in `shm`.
    fn flat_region(ranges: &[(GuestAddress, u64)], k: usize, offset: u64, shm: BackingObject) -> (r:
        Result<MemoryRegion, Error>)
        requires
            k < ranges@.len(),
            sizes_sum(ranges@) <= u64::MAX,
            offset == sizes_sum(ranges@.take(k as int)),
            shm == (BackingObject::Shm { size: sizes_sum(ranges@) as u64 }),
        ensures
            match range_fault(ranges@, k as int) {
                Some(e) => r == Err::<MemoryRegion, Error>(e),
                None => r is Ok && r->Ok_0@ == flat_layout(ranges@)[k as int] && region_wf(
                    r->Ok_0@,
                ),
            },
    {
        let (base, size) = ranges[k];
        if k > 0 {
            let (prev_base, prev_size) = ranges[k - 1];
            if prev_size > u64::MAX - prev_base.0 || prev_base.0 + prev_size > base.0 {
                return Err(Error::MemoryRegionOverlap);
            }
        }
        MemoryRegion::new_from_shm(size, base, offset, shm)
    }

    fn check_ranges(ranges: &[(GuestAddress, u64)]) -> (r: Result<u64, Error>)
        ensures
            r is Ok ==> all_page_aligned(ranges@) && sizes_sum(ranges@) <= u64::MAX,
            !all_page_aligned(ranges@) ==> r == Err::<u64, Error>(Error::MemoryNotAligned),
            all_page_aligned(ranges@) && sizes_sum(ranges@) <= u64::MAX ==> r == Ok::<u64, Error>(
                sizes_sum(ranges@) as u64,
            ),
            all_page_aligned(ranges@) && sizes_sum(ranges@) > u64::MAX ==> exists|k: int|
                0 <= k < ranges@.len() && sizes_sum(ranges@.take(k)) <= u64::MAX && sizes_sum(
                    #[trigger] ranges@.take(k + 1),
                ) > u64::MAX && r == Err::<u64, Error>(
                    Error::MemoryRegionTooLarge(sizes_sum(ranges@.take(k + 1)) as u128),
                ),
    {
        let mut i: usize = 0;
        while i < ranges.len()
            invariant
                i <= ranges@.len(),
                forall|j: int| 0 <= j < i ==> (#[trigger] ranges@[j]).1 % PAGE_SIZE == 0,
            decreases ranges.len() - i,
        {
            if ranges[i].1 % PAGE_SIZE != 0 {
                return Err(Error::MemoryNotAligned);
            }
            i = i + 1;
        }
        let mut total: u64 = 0;
        let mut i: usize = 0;
        while i < ranges.len()
            invariant
                i <= ranges@.len(),
                all_page_aligned(ranges@),
                total == sizes_sum(ranges@.take(i as int)),
            decreases ranges.len() - i,
        {
            proof {
                lemma_sizes_sum_step(ranges@, i as int);
            }
            let size = ranges[i].1;
            if size > u64::MAX - total {
                proof {
                    lemma_sizes_sum_mono(ranges@, i + 1, ranges@.len() as int);
                    assert(ranges@.take(ranges@.len() as int) =~= ranges@);
                }
                return Err(Error::MemoryRegionTooLarge(total as u128 + size as u128));
            }
            total = total + size;
            i = i + 1;
        }
        assert(ranges@.take(ranges@.len() as int) =~= ranges@);
        Ok(total)
    }

    /// Creates a container for guest memory regions from `(address, size)` ranges sorted by
    /// address: one zero-filled shared object sized to the sum of all ranges, sliced into
    /// one region per range at increasing offsets.
    #[verifier::rlimit(50)]
    pub fn new(ranges: &[(GuestAddress, u64)]) -> (r: Result<GuestMemory, Error>)
        ensures
            r is Ok <==> flat_outcome_ok(ranges@),
            r is Ok ==> r->Ok_0@ == flat_layout(ranges@) && r->Ok_0.inv(),
            !all_page_aligned(ranges@) ==> r == Err::<GuestMemory, Error>(Error::MemoryNotAligned),
            all_page_aligned(ranges@) && sizes_sum(ranges@) > u64::MAX ==> exists|k: int|
                0 <= k < ranges@.len() && sizes_sum(ranges@.take(k)) <= u64::MAX && sizes_sum(
                    #[trigger] ranges@.take(k + 1),
                ) > u64::MAX && r == Err::<GuestMemory, Error>(
                    Error::MemoryRegionTooLarge(sizes_sum(ranges@.take(k + 1)) as u128),
                ),
            all_page_aligned(ranges@) && sizes_sum(ranges@) <= u64::MAX && !no_range_fault(
                ranges@,
            ) ==> exists|k: int|
                0 <= k < ranges@.len() && (forall|j: int|
                    0 <= j < k ==> (#[trigger] range_fault(ranges@, j)) is None) && range_fault(
                    ranges@,
                    k,
                ) == Some(r->Err_0) && r is Err,
    {
        let total = match Self::check_ranges(ranges) {
            Ok(t) => t,
            Err(e) => return Err(e),
        };
        let shm = BackingObject::Shm { size: total };
        let mut regions: Vec<MemoryRegion> = Vec::new();
        let mut offset: u64 = 0;
        let mut k: usize = 0;
        while k < ranges.len()
            invariant
                k <= ranges@.len(),
                flat_outcome_ok(ranges@) || !no_range_fault(ranges@),
                all_page_aligned(ranges@),
                sizes_sum(ranges@) <= u64::MAX,
                total == sizes_sum(ranges@),
                shm == (BackingObject::Shm { size: total }),
                offset == sizes_sum(ranges@.take(k as int)),
                regions@.len() == k,
                forall|j: int| 0 <= j < k ==> (#[trigger] range_fault(ranges@, j)) is None,
                forall|j: int|
                    0 <= j < k ==> (#[trigger] regions@[j])@ == flat_layout(ranges@)[j],
                layout_wf(regions@.map_values(|r: MemoryRegion| r@)),
            decreases ranges.len() - k,
        {
            proof {
                lemma_sizes_sum_step(ranges@, k as int);
                lemma_sizes_sum_mono(ranges@, k + 1, ranges@.len() as int);
                assert(ranges@.take(ranges@.len() as int) =~= ranges@);
            }
            let region = match Self::flat_region(ranges, k, offset, shm) {
                Ok(region) => region,
                Err(e) => {
                    return Err(e);
                },
            };
            let size = ranges[k].1;
            assert(range_fault(ranges@, k as int) is None);
            proof {
                let old_v = regions@.map_values(|r: MemoryRegion| r@);
                assert(regions@.push(region).map_values(|r: MemoryRegion| r@) =~= old_v.push(
                    region@,
                ));
                lemma_flat_push(ranges@, k as int, old_v, region@);
            }
            regions.push(region);
            offset = offset + size;
            k = k + 1;
        }
        let gm = GuestMemory { regions };
        assert(gm@ =~= flat_layout(ranges@));
        Ok(gm)
    }

    /// Creates a container from regions built separately (possibly over different
    /// backing objects): the regions are sorted by base address, and construction fails
    /// when any two of them overlap.
    pub fn from_regions(regions: Vec<MemoryRegion>) -> (r: Result<GuestMemory, Error>)
        requires
            forall|i: int|
                0 <= i < regions@.len() ==> region_wf(#[trigger] region_views(regions@)[i]),
        ensures
            r is Ok <==> (forall|i: int, j: int|
                0 <= i < regions@.len() && 0 <= j < regions@.len() && i != j ==> regions_disjoint(
                    #[trigger] region_views(regions@)[i],
                    #[trigger] region_views(regions@)[j],
                )),
            r is Err ==> r == Err::<GuestMemory, Error>(Error::MemoryRegionOverlap),
            r is Ok ==> r->Ok_0.inv() && r->Ok_0@.to_multiset() == region_views(
                regions@,
            ).to_multiset(),
    {
        let ghost orig = region_views(regions@);
        assert(orig.len() == regions@.len());
        assert forall|i: int| 0 <= i < regions@.len() implies region_wf(#[trigger] regions@[i]@) by {
            assert(orig[i] == regions@[i]@);
        }
        let mut rest = regions;
        let mut sorted: Vec<MemoryRegion> = Vec::new();
        while rest.len() > 0
            invariant
                orig == region_views(regions@),
                forall|i: int| 0 <= i < rest@.len() ==> region_wf(#[trigger] rest@[i]@),
                forall|i: int| 0 <= i < sorted@.len() ==> region_wf(#[trigger] sorted@[i]@),
                forall|i: int, j: int|
                    0 <= i < j < sorted@.len() ==> (#[trigger] sorted@[i])@.base <= (
                    #[trigger] sorted@[j])@.base,
                forall|i: int, j: int|
                    0 <= i < sorted@.len() && 0 <= j < rest@.len() ==> (#[trigger] sorted@[i])@.base
                        <= (#[trigger] rest@[j])@.base,
                sorted@.map_values(|m: MemoryRegion| m@).to_multiset().add(
                    rest@.map_values(|m: MemoryRegion| m@).to_multiset(),
                ) == orig.to_multiset(),
            decreases rest.len(),
        {
            let mut min: usize = 0;
            let mut i: usize = 1;
            while i < rest.len()
                invariant
                    0 <= min < i <= rest@.len(),
                    forall|j: int| 0 <= j < i ==> rest@[min as int]@.base <= (#[trigger] rest@[j])@.base,
                decreases rest.len() - i,
            {
                if rest[i].guest_base.0 < rest[min].guest_base.0 {
                    min = i;
                }
                i = i + 1;
            }
            let ghost rest_v = rest@.map_values(|m: MemoryRegion| m@);
            let ghost sorted_v = sorted@.map_values(|m: MemoryRegion| m@);
            let region = rest.remove(min);
            proof {
                assert(rest@.map_values(|m: MemoryRegion| m@) =~= rest_v.remove(min as int));
                assert(sorted@.push(region).map_values(|m: MemoryRegion| m@) =~= sorted_v.push(
                    region@,
                ));
                assert(rest_v[min as int] == region@);
            }
            sorted.push(region);
        }
        proof {
            assert(rest@.map_values(|m: MemoryRegion| m@) =~= Seq::<RegionView>::empty());
            assert(rest@.map_values(|m: MemoryRegion| m@).to_multiset() =~= Multiset::empty());
        }
        let gm = GuestMemory { regions: sorted };
        let ghost v = gm@;
        assert(v.to_multiset() =~= orig.to_multiset());
        let mut i: usize = 1;
        while i < gm.regions.len()
            invariant
                orig == region_views(regions@),
                v == gm@,
                v.to_multiset() == orig.to_multiset(),
                1 <= i,
                i <= v.len() || v.len() == 0,
                forall|k: int| 0 <= k < v.len() ==> region_wf(#[trigger] v[k]),
                forall|a: int, b: int| 0 <= a < b < v.len() ==> (#[trigger] v[a]).base <= (#[trigger] v[b]).base,
                forall|a: int, b: int|
                    0 <= a < b < i && b < v.len() ==> region_end(#[trigger] v[a]) <= (#[trigger] v[b]).base,
            decreases gm.regions.len() - i,
        {
            let prev_end = gm.regions[i - 1].end();
            if prev_end.0 > gm.regions[i].guest_base.0 {
                proof {
                    Self::lemma_overlap_found(orig, v, i as int - 1, i as int);
                }
                return Err(Error::MemoryRegionOverlap);
            }
            proof {
                assert forall|a: int, b: int|
                    0 <= a < b < i + 1 && b < v.len() implies region_end(#[trigger] v[a]) <= (
                    #[trigger] v[b]).base by {
                    if b == i && a < i - 1 {
                        assert(region_end(v[a]) <= v[i - 1].base);
                    }
                }
            }
            i = i + 1;
        }
        proof {
            assert(layout_wf(v));
            Self::lemma_all_disjoint(orig, v);
        }
        Ok(gm)
    }

    proof fn lemma_overlap_found(orig: Seq<RegionView>, v: Seq<RegionView>, a: int, b: int)
        requires
            v.to_multiset() == orig.to_multiset(),
            0 <= a < b < v.len(),
            !regions_disjoint(v[a], v[b]),
            forall|k: int| 0 <= k < v.len() ==> region_wf(#[trigger] v[k]),
        ensures
            exists|i: int, j: int|
                0 <= i < orig.len() && 0 <= j < orig.len() && i != j && !regions_disjoint(
                    #[trigger] orig[i],
                    #[trigger] orig[j],
                ),
    {
        assert(v.to_multiset().count(v[a]) > 0);
        assert(v.to_multiset().count(v[b]) > 0);
        assert(orig.contains(v[a]));
        assert(orig.contains(v[b]));
        let i = choose|i: int| 0 <= i < orig.len() && orig[i] == v[a];
        if v[a] == v[b] {
            assert(v.to_multiset().count(v[a]) >= 2) by {
                Self::lemma_count_two(v, a, b);
            }
            assert(orig.to_multiset().count(v[a]) >= 2);
            Self::lemma_second_index(orig, i);
        } else {
            let j = choose|j: int| 0 <= j < orig.len() && orig[j] == v[b];
            assert(i != j);
        }
    }

    proof fn lemma_count_two(v: Seq<RegionView>, a: int, b: int)
        requires
            0 <= a < b < v.len(),
            v[a] == v[b],
        ensures
            v.to_multiset().count(v[a]) >= 2,
    {
        let w = v.remove(b);
        assert(w[a] == v[a]);
        assert(w.to_multiset().count(v[a]) > 0);
        assert(v.remove(b).to_multiset() == v.to_multiset().remove(v[b]));
    }

    proof fn lemma_second_index(orig: Seq<RegionView>, i: int)
        requires
            0 <= i < orig.len(),
            orig.to_multiset().count(orig[i]) >= 2,
            region_wf(orig[i]),
        ensures
            exists|p: int, q: int|
                0 <= p < orig.len() && 0 <= q < orig.len() && p != q && !regions_disjoint(
                    #[trigger] orig[p],
                    #[trigger] orig[q],
                ),
    {
        let w = orig.remove(i);
        assert(orig.remove(i).to_multiset() == orig.to_multiset().remove(orig[i]));
        assert(w.to_multiset().count(orig[i]) >= 1);
        assert(w.contains(orig[i]));
        let k = choose|k: int| 0 <= k < w.len() && w[k] == orig[i];
        let q = if k < i { k } else { k + 1 };
        assert(orig[q] == orig[i]);
        assert(!regions_disjoint(orig[i], orig[q]));
    }

    proof fn lemma_all_disjoint(orig: Seq<RegionView>, v: Seq<RegionView>)
        requires
            v.to_multiset() == orig.to_multiset(),
            layout_wf(v),
        ensures
            forall|i: int, j: int|
                0 <= i < orig.len() && 0 <= j < orig.len() && i != j ==> regions_disjoint(
                    #[trigger] orig[i],
                    #[trigger] orig[j],
                ),
    {
        assert forall|i: int, j: int|
            0 <= i < orig.len() && 0 <= j < orig.len() && i != j implies regions_disjoint(
            #[trigger] orig[i],
            #[trigger] orig[j],
        ) by {
            if !regions_disjoint(orig[i], orig[j]) {
                assert(orig.to_multiset().count(orig[i]) > 0);
                assert(orig.to_multiset().count(orig[j]) > 0);
                assert(v.contains(orig[i]));
                assert(v.contains(orig[j]));
                let a = choose|a: int| 0 <= a < v.len() && v[a] == orig[i];
                let b = choose|b: int| 0 <= b < v.len() && v[b] == orig[j];
                if a == b {
                    // The same region twice in `orig`: it would appear twice in `v` too.
                    let (lo, hi) = if i < j { (i, j) } else { (j, i) };
                    Self::lemma_count_two(orig, lo, hi);
                    assert(v.to_multiset().count(v[a]) >= 2);
                    let w = v.remove(a);
                    assert(v.remove(a).to_multiset() == v.to_multiset().remove(v[a]));
                    assert(w.to_multiset().count(v[a]) >= 1);
                    assert(w.contains(v[a]));
                    let k = choose|k: int| 0 <= k < w.len() && w[k] == v[a];
                    let c = if k < a { k } else { k + 1 };
                    assert(v[c] == v[a]);
                    if c < a {
                        assert(region_end(v[c]) <= v[a].base);
                    } else {
                        assert(region_end(v[a]) <= v[c].base);
                    }
                } else if a < b {
                    assert(region_end(v[a]) <= v[b].base);
                } else {
                    assert(region_end(v[b]) <= v[a].base);
                }
            }
        }
    }

    /// Finds the region that contains `addr`.
    fn find_region(&self, addr: GuestAddress) -> (r: Option<usize>)
        requires
            self.inv(),
        ensures
            match r {
                Some(i) => i < self@.len() && region_contains(self@[i as int], addr.0 as int)
                    && addr_in(self@, addr.0 as int) && region_of(self@, addr.0 as int) == i,
                None => !addr_in(self@, addr.0 as int),
            },
    {
        let mut i: usize = 0;
        while i < self.regions.len()
            invariant
                self.inv(),
                i <= self@.len(),
                forall|j: int| 0 <= j < i ==> !region_contains(#[trigger] self@[j], addr.0 as int),
            decreases self.regions.len() - i,
        {
            assert(self@[i as int] == self.regions@[i as int]@);
            if self.regions[i].contains(addr) {
                proof {
                    lemma_region_of(self@, addr.0 as int, i as int);
                }
                return Some(i);
            }
            i = i + 1;
        }
        None
    }

    /// Locates the region that contains `guest_addr`: its index and the offset of the
    /// address inside it. Every access to guest memory goes through this lookup.
    pub fn do_in_region(&self, guest_addr: GuestAddress) -> (r: Result<(usize, u64), Error>)
        requires
            self.inv(),
        ensures
            !addr_in(self@, guest_addr.0 as int) ==> r == Err::<(usize, u64), Error>(
                Error::InvalidGuestAddress(guest_addr),
            ),
            addr_in(self@, guest_addr.0 as int) ==> r is Ok && r->Ok_0.0 as int == region_of(
                self@,
                guest_addr.0 as int,
            ) && r->Ok_0.1 as int == offset_in_region(self@, guest_addr.0 as int),
            addr_in(self@, guest_addr.0 as int) ==> 0 <= region_of(self@, guest_addr.0 as int)
                < self@.len() && region_contains(
                self@[region_of(self@, guest_addr.0 as int)],
                guest_addr.0 as int,
            ) && room_at(self@, guest_addr.0 as int) == self@[region_of(
                self@,
                guest_addr.0 as int,
            )].bytes.len() - offset_in_region(self@, guest_addr.0 as int),
    {
        proof {
            if addr_in(self@, guest_addr.0 as int) {
                lemma_region_of_contains(self@, guest_addr.0 as int);
            }
        }
        match self.find_region(guest_addr) {
            Some(i) => {
                assert(self@[i as int] == self.regions@[i as int]@);
                Ok((i, guest_addr.offset_from(self.regions[i].start())))
            },
            None => Err(Error::InvalidGuestAddress(guest_addr)),
        }
    }

    /// Returns the end address of memory: the end of the region with the highest base
    /// address, or zero when there are no regions.
    pub fn end_addr(&self) -> (r: GuestAddress)
        requires
            self.inv(),
        ensures
            self@.len() == 0 ==> r.0 == 0,
            self@.len() > 0 ==> r.0 == region_end(self@.last()),
            forall|i: int| 0 <= i < self@.len() ==> region_end(#[trigger] self@[i]) <= r.0,
    {
        let n = self.regions.len();
        if n == 0 {
            GuestAddress(0)
        } else {
            assert(self@[n - 1] == self.regions@[n - 1]@);
            assert(region_wf(self@[n - 1]));
            let r = self.regions[n - 1].end();
            assert forall|i: int| 0 <= i < self@.len() implies region_end(#[trigger] self@[i])
                <= r.0 by {
                if i < n - 1 {
                    assert(region_end(self@[i]) <= self@[n - 1].base);
                }
            }
            r
        }
    }

    /// Returns the total size of memory in bytes.
    pub fn memory_size(&self) -> (r: u64)
        requires
            self.inv(),
        ensures
            r == total_bytes(self@),
    {
        let mut total: u64 = 0;
        let mut i: usize = 0;
        while i < self.regions.len()
            invariant
                self.inv(),
                i <= self@.len(),
                total == total_bytes(self@.take(i as int)),
            decreases self.regions.len() - i,
        {
            let ghost pre = self@.take(i as int + 1);
            proof {
                assert(pre.drop_last() =~= self@.take(i as int));
                assert(layout_wf(pre));
                lemma_total_bounded(pre);
                assert(self@[i as int] == self.regions@[i as int]@);
            }
            total = total + self.regions[i].size();
            i = i + 1;
        }
        assert(self@.take(self@.len() as int) =~= self@);
        total
    }

    /// Returns true if the given address is within the memory range available to the guest.
    pub fn address_in_range(&self, addr: GuestAddress) -> (r: bool)
        requires
            self.inv(),
        ensures
            r == addr_in(self@, addr.0 as int),
    {
        self.find_region(addr).is_some()
    }

    /// Returns true if `[start, end)` is non-empty and meets the memory available to the
    /// guest.
    pub fn range_overlap(&self, start: GuestAddress, end: GuestAddress) -> (r: bool)
        requires
            self.inv(),
        ensures
            r == overlaps_some(self@, start.0 as int, end.0 as int),
    {
        if start.0 >= end.0 {
            return false;
        }
        let mut i: usize = 0;
        while i < self.regions.len()
            invariant
                self.inv(),
                start.0 < end.0,
                i <= self@.len(),
                forall|j: int|
                    0 <= j < i ==> !((#[trigger] self@[j]).base < end.0 && start.0 < region_end(
                        self@[j],
                    )),
            decreases self.regions.len() - i,
        {
            assert(self@[i as int] == self.regions@[i as int]@);
            if self.regions[i].start().0 < end.0 && start.0 < self.regions[i].end().0 {
                return true;
            }
            i = i + 1;
        }
        false
    }

    /// Returns `addr + offset` if that sum does not overflow and lands in some region.
    /// Only the end point is checked, not the span up to it: use `is_valid_range` for that.
    pub fn checked_offset(&self, addr: GuestAddress, offset: u64) -> (r: Option<GuestAddress>)
        requires
            self.inv(),
        ensures
            r == (if addr.0 + offset <= u64::MAX && addr_in(self@, addr.0 + offset) {
                Some(GuestAddress((addr.0 + offset) as u64))
            } else {
                None::<GuestAddress>
            }),
    {
        match addr.checked_add(offset) {
            Some(a) => {
                if self.address_in_range(a) {
                    Some(a)
                } else {
                    None
                }
            },
            None => None,
        }
    }

    /// Returns true if `[start, start + length)` is non-empty and lies inside a single
    /// region: a span that crosses from one region into the next is not valid, since
    /// adjacent guest regions need not be adjacent in host memory.
    pub fn is_valid_range(&self, start: GuestAddress, length: u64) -> (r: bool)
        requires
            self.inv(),
        ensures
            r == span_in_one_region(self@, start.0 as int, length as int),
    {
        if length == 0 {
            return false;
        }
        let end = match start.checked_add(length - 1) {
            Some(end) => end,
            None => {
                assert forall|i: int| 0 <= i < self@.len() implies !((#[trigger] self@[i]).base
                    <= start.0 && start.0 + length <= region_end(self@[i])) by {
                    assert(region_wf(self@[i]));
                }
                return false;
            },
        };
        let mut i: usize = 0;
        while i < self.regions.len()
            invariant
                self.inv(),
                i <= self@.len(),
                length > 0,
                end.0 == start.0 + length - 1,
                forall|j: int|
                    0 <= j < i ==> !((#[trigger] self@[j]).base <= start.0 && start.0 + length
                        <= region_end(self@[j])),
            decreases self.regions.len() - i,
        {
            assert(self@[i as int] == self.regions@[i as int]@);
            if self.regions[i].start().0 <= start.0 && end.0 < self.regions[i].end().0 {
                return true;
            }
            i = i + 1;
        }
        false
    }

    /// Returns the number of regions.
    pub fn num_regions(&self) -> (r: u64)
        ensures
            r == self@.len(),
    {
        self.regions.len() as u64
    }

    /// Describes each region, in order: its index, guest base address, size, backing
    /// object and offset inside that object. These are what registering the memory with a
    /// hypervisor, or handing it to a peer process, needs.
    pub fn with_regions(&self) -> (r: Vec<RegionInfo>)
        requires
            self.inv(),
        ensures
            r@.len() == self@.len(),
            forall|i: int|
                0 <= i < r@.len() ==> (#[trigger] r@[i]) == (RegionInfo {
                    index: i as usize,
                    guest_addr: GuestAddress(self@[i].base as u64),
                    size: self@[i].bytes.len() as usize,
                    shm: self@[i].obj,
                    shm_offset: self@[i].obj_offset as u64,
                }),
    {
        let mut out: Vec<RegionInfo> = Vec::new();
        let mut i: usize = 0;
        while i < self.regions.len()
            invariant
                self.inv(),
                i <= self@.len(),
                out@.len() == i,
                forall|j: int|
                    0 <= j < i ==> (#[trigger] out@[j]) == (RegionInfo {
                        index: j as usize,
                        guest_addr: GuestAddress(self@[j].base as u64),
                        size: self@[j].bytes.len() as usize,
                        shm: self@[j].obj,
                        shm_offset: self@[j].obj_offset as u64,
                    }),
            decreases self.regions.len() - i,
        {
            assert(self@[i as int] == self.regions@[i as int]@);
            let region = &self.regions[i];
            out.push(
                RegionInfo {
                    index: i,
                    guest_addr: region.start(),
                    size: region.mapping.len(),
                    shm: region.backing_object(),
                    shm_offset: region.obj_offset(),
                },
            );
            i = i + 1;
        }
        out
    }

    /// Returns the backing object of the region that contains `guest_addr`.
    pub fn shm_region(&self, guest_addr: GuestAddress) -> (r: Result<BackingObject, Error>)
        requires
            self.inv(),
        ensures
            !addr_in(self@, guest_addr.0 as int) ==> r == Err::<BackingObject, Error>(
                Error::InvalidGuestAddress(guest_addr),
            ),
            addr_in(self@, guest_addr.0 as int) ==> r == Ok::<BackingObject, Error>(
                self@[region_of(self@, guest_addr.0 as int)].obj,
            ),
    {
        match self.find_region(guest_addr) {
            Some(i) => {
                assert(self@[i as int] == self.regions@[i as int]@);
                Ok(self.regions[i].backing_object())
            },
            None => Err(Error::InvalidGuestAddress(guest_addr)),
        }
    }

    /// Returns the backing object of the region that contains the address `offset` bytes
    /// past the base of the first region.
    pub fn offset_region(&self, offset: u64) -> (r: Result<BackingObject, Error>)
        requires
            self.inv(),
        ensures
            self@.len() == 0 ==> r == Err::<BackingObject, Error>(Error::InvalidOffset(offset)),
            self@.len() > 0 ==> {
                let a = self@[0].base + offset;
                if a <= u64::MAX && addr_in(self@, a) {
                    r == Ok::<BackingObject, Error>(self@[region_of(self@, a)].obj)
                } else {
                    r == Err::<BackingObject, Error>(Error::InvalidOffset(offset))
                }
            },
    {
        if self.regions.len() == 0 {
            return Err(Error::InvalidOffset(offset));
        }
        assert(self@[0] == self.regions@[0]@);
        match self.checked_offset(self.regions[0].start(), offset) {
            Some(a) => self.shm_region(a),
            None => Err(Error::InvalidOffset(offset)),
        }
    }

    /// Converts a guest address into the offset, inside its backing object, of the byte
    /// that the address names.
    pub fn offset_from_base(&self, guest_addr: GuestAddress) -> (r: Result<u64, Error>)
        requires
            self.inv(),
        ensures
            !addr_in(self@, guest_addr.0 as int) ==> r == Err::<u64, Error>(
                Error::InvalidGuestAddress(guest_addr),
            ),
            addr_in(self@, guest_addr.0 as int) ==> r == Ok::<u64, Error>(
                obj_offset_of(self@, guest_addr.0 as int) as u64,
            ),
    {
        match self.find_region(guest_addr) {
            Some(i) => {
                assert(self@[i as int] == self.regions@[i as int]@);
                assert(region_wf(self@[i as int]));
                let region = &self.regions[i];
                Ok(region.obj_offset() + guest_addr.offset_from(region.start()))
            },
            None => Err(Error::InvalidGuestAddress(guest_addr)),
        }
    }

    proof fn lemma_write_keeps_shape(
        old_v: Seq<RegionView>,
        new_v: Seq<RegionView>,
        i: int,
        nr: RegionView,
    )
        requires
            layout_wf(old_v),
            0 <= i < old_v.len(),
            new_v == old_v.update(i, nr),
            nr.base == old_v[i].base,
            nr.obj == old_v[i].obj,
            nr.obj_offset == old_v[i].obj_offset,
            nr.bytes.len() == old_v[i].bytes.len(),
        ensures
            same_shape(old_v, new_v),
            layout_wf(new_v),
    {
        lemma_same_shape(old_v, new_v, 0);
    }

    /// Writes as much of `buf` as fits in the region that contains `guest_addr`, from that
    /// address on; returns the number of bytes written, which is less than `buf.len()` when
    /// the buffer would cross the end of the region.
    pub fn write_at_addr(&mut self, buf: &[u8], guest_addr: GuestAddress) -> (r: Result<
        usize,
        Error,
    >)
        requires
            old(self).inv(),
        ensures
            final(self).inv(),
            same_shape(old(self)@, final(self)@),
            !addr_in(old(self)@, guest_addr.0 as int) ==> r == Err::<usize, Error>(
                Error::InvalidGuestAddress(guest_addr),
            ) && final(self)@ == old(self)@,
            addr_in(old(self)@, guest_addr.0 as int) ==> {
                let room = room_at(old(self)@, guest_addr.0 as int);
                &&& r == Ok::<usize, Error>(
                    (if buf@.len() <= room {
                        buf@.len() as int
                    } else {
                        room
                    }) as usize,
                )
                &&& final(self)@ == write_at(old(self)@, guest_addr.0 as int, buf@)
            },
    {
        let (i, off) = match self.do_in_region(guest_addr) {
            Ok(loc) => loc,
            Err(e) => return Err(e),
        };
        let ghost old_v = self@;
        assert(old_v[i as int] == self.regions@[i as int]@);
        let n = self.regions[i].write_slice(buf, off as usize);
        proof {
            let nr = self.regions@[i as int]@;
            assert(self@ =~= old_v.update(i as int, nr));
            Self::lemma_write_keeps_shape(old_v, self@, i as int, nr);
        }
        Ok(n)
    }

    /// Writes all of `buf` at `guest_addr`. Fails with `ShortWrite` when the region that
    /// contains the address ends before the buffer does; the bytes that fit have been
    /// written nevertheless.
    pub fn write_all_at_addr(&mut self, buf: &[u8], guest_addr: GuestAddress) -> (r: Result<
        (),
        Error,
    >)
        requires
            old(self).inv(),
        ensures
            final(self).inv(),
            same_shape(old(self)@, final(self)@),
            !addr_in(old(self)@, guest_addr.0 as int) ==> r == Err::<(), Error>(
                Error::InvalidGuestAddress(guest_addr),
            ) && final(self)@ == old(self)@,
            addr_in(old(self)@, guest_addr.0 as int) ==> {
                let room = room_at(old(self)@, guest_addr.0 as int);
                &&& final(self)@ == write_at(old(self)@, guest_addr.0 as int, buf@)
                &&& buf@.len() <= room ==> r == Ok::<(), Error>(())
                &&& buf@.len() > room ==> r == Err::<(), Error>(
                    Error::ShortWrite { expected: buf@.len() as u64, completed: room as u64 },
                )
            },
    {
        let expected = buf.len();
        let completed = self.write_at_addr(buf, guest_addr)?;
        if expected == completed {
            Ok(())
        } else {
            Err(Error::ShortWrite { expected: expected as u64, completed: completed as u64 })
        }
    }

    /// Reads into `buf` as many bytes as the region that contains `guest_addr` holds from
    /// that address on; returns the number of bytes read.
    pub fn read_at_addr(&self, buf: &mut [u8], guest_addr: GuestAddress) -> (r: Result<
        usize,
        Error,
    >)
        requires
            self.inv(),
        ensures
            !addr_in(self@, guest_addr.0 as int) ==> r == Err::<usize, Error>(
                Error::InvalidGuestAddress(guest_addr),
            ) && final(buf)@ == old(buf)@,
            addr_in(self@, guest_addr.0 as int) ==> {
                let room = room_at(self@, guest_addr.0 as int);
                let n = if old(buf)@.len() <= room {
                    old(buf)@.len() as int
                } else {
                    room
                };
                &&& r == Ok::<usize, Error>(n as usize)
                &&& final(buf)@ == read_at(self@, guest_addr.0 as int, n) + old(buf)@.subrange(
                    n,
                    old(buf)@.len() as int,
                )
            },
    {
        let (i, off) = match self.do_in_region(guest_addr) {
            Ok(loc) => loc,
            Err(e) => return Err(e),
        };
        assert(self@[i as int] == self.regions@[i as int]@);
        let room = self.regions[i].mapping.len() - off as usize;
        let n = if buf.len() <= room {
            buf.len()
        } else {
            room
        };
        self.regions[i].read_slice(buf, off as usize, n);
        Ok(n)
    }

    /// Fills all of `buf` from `guest_addr` on. Fails with `ShortRead` when the region that
    /// contains the address ends before the buffer is full.
    pub fn read_exact_at_addr(&self, buf: &mut [u8], guest_addr: GuestAddress) -> (r: Result<
        (),
        Error,
    >)
        requires
            self.inv(),
        ensures
            !addr_in(self@, guest_addr.0 as int) ==> r == Err::<(), Error>(
                Error::InvalidGuestAddress(guest_addr),
            ) && final(buf)@ == old(buf)@,
            addr_in(self@, guest_addr.0 as int) ==> {
                let room = room_at(self@, guest_addr.0 as int);
                &&& old(buf)@.len() <= room ==> r == Ok::<(), Error>(()) && final(buf)@ == read_at(
                    self@,
                    guest_addr.0 as int,
                    old(buf)@.len() as int,
                )
                &&& old(buf)@.len() > room ==> r == Err::<(), Error>(
                    Error::ShortRead { expected: old(buf)@.len() as u64, completed: room as u64 },
                ) && final(buf)@ == read_at(self@, guest_addr.0 as int, room) + old(
                    buf,
                )@.subrange(room, old(buf)@.len() as int)
            },
    {
        let expected = buf.len();
        let completed = self.read_at_addr(buf, guest_addr)?;
        if expected == completed {
            assert(buf@ =~= read_at(self@, guest_addr.0 as int, expected as int));
            Ok(())
        } else {
            Err(Error::ShortRead { expected: expected as u64, completed: completed as u64 })
        }
    }

    /// Checks that `count` bytes from `guest_addr` on lie in one region; returns the region
    /// and the offset of the address in it.
    fn locate_span(&self, guest_addr: GuestAddress, count: usize) -> (r: Result<
        (usize, usize),
        Error,
    >)
        requires
            self.inv(),
        ensures
            !addr_in(self@, guest_addr.0 as int) ==> r == Err::<(usize, usize), Error>(
                Error::InvalidGuestAddress(guest_addr),
            ),
            addr_in(self@, guest_addr.0 as int) && count > room_at(self@, guest_addr.0 as int)
                ==> r == Err::<(usize, usize), Error>(
                Error::MemoryAccess(
                    guest_addr,
                    MmapError::InvalidRange(
                        offset_in_region(self@, guest_addr.0 as int) as u64,
                        count as u64,
                        self@[region_of(self@, guest_addr.0 as int)].bytes.len() as u64,
                    ),
                ),
            ),
            addr_in(self@, guest_addr.0 as int) && count <= room_at(self@, guest_addr.0 as int)
                ==> r is Ok && r->Ok_0.0 as int == region_of(self@, guest_addr.0 as int)
                && r->Ok_0.1 as int == offset_in_region(self@, guest_addr.0 as int),
    {
        let (i, off) = match self.do_in_region(guest_addr) {
            Ok(loc) => loc,
            Err(e) => return Err(e),
        };
        assert(self@[i as int] == self.regions@[i as int]@);
        let size = self.regions[i].mapping.len();
        let off = off as usize;
        if count > size - off {
            return Err(
                Error::MemoryAccess(
                    guest_addr,
                    MmapError::InvalidRange(off as u64, count as u64, size as u64),
                ),
            );
        }
        Ok((i, off))
    }

    /// Reads a `T` from its little-endian bytes at `guest_addr`. The whole value must lie
    /// in the region that contains the address.
    pub fn read_obj_from_addr<T: PlainData>(&self, guest_addr: GuestAddress) -> (r: Result<
        T,
        Error,
    >)
        requires
            self.inv(),
        ensures
            !addr_in(self@, guest_addr.0 as int) ==> r == Err::<T, Error>(
                Error::InvalidGuestAddress(guest_addr),
            ),
            addr_in(self@, guest_addr.0 as int) && T::byte_len() > room_at(
                self@,
                guest_addr.0 as int,
            ) ==> r == Err::<T, Error>(
                Error::MemoryAccess(
                    guest_addr,
                    MmapError::InvalidRange(
                        offset_in_region(self@, guest_addr.0 as int) as u64,
                        T::byte_len() as u64,
                        self@[region_of(self@, guest_addr.0 as int)].bytes.len() as u64,
                    ),
                ),
            ),
            addr_in(self@, guest_addr.0 as int) && T::byte_len() <= room_at(
                self@,
                guest_addr.0 as int,
            ) ==> r == Ok::<T, Error>(
                T::spec_from_bytes(read_at(self@, guest_addr.0 as int, T::byte_len() as int)),
            ),
    {
        let size = T::size();
        let (i, off) = self.locate_span(guest_addr, size)?;
        assert(self@[i as int] == self.regions@[i as int]@);
        let len = self.regions[i].mapping.len();
        let mut bytes: Vec<u8> = Vec::new();
        let mut j: usize = 0;
        while j < size
            invariant
                j <= size,
                off + size <= len,
                len == self.regions@[i as int].mapping@.len(),
                off + size <= self@[i as int].bytes.len(),
                self@[i as int] == self.regions@[i as int]@,
                i < self.regions@.len(),
                bytes@ == self@[i as int].bytes.subrange(off as int, off + j),
            decreases size - j,
        {
            bytes.push(self.regions[i].mapping[off + j]);
            j = j + 1;
            assert(bytes@ =~= self@[i as int].bytes.subrange(off as int, off + j));
        }
        Ok(T::from_bytes(bytes.as_slice()))
    }

    /// Writes the little-endian bytes of `val` at `guest_addr`. The whole value must lie in
    /// the region that contains the address.
    pub fn write_obj_at_addr<T: PlainData>(&mut self, val: T, guest_addr: GuestAddress) -> (r:
        Result<(), Error>)
        requires
            old(self).inv(),
        ensures
            final(self).inv(),
            same_shape(old(self)@, final(self)@),
            !addr_in(old(self)@, guest_addr.0 as int) ==> r == Err::<(), Error>(
                Error::InvalidGuestAddress(guest_addr),
            ) && final(self)@ == old(self)@,
            addr_in(old(self)@, guest_addr.0 as int) && T::byte_len() > room_at(
                old(self)@,
                guest_addr.0 as int,
            ) ==> r == Err::<(), Error>(
                Error::MemoryAccess(
                    guest_addr,
                    MmapError::InvalidRange(
                        offset_in_region(old(self)@, guest_addr.0 as int) as u64,
                        T::byte_len() as u64,
                        old(self)@[region_of(old(self)@, guest_addr.0 as int)].bytes.len() as u64,
                    ),
                ),
            ) && final(self)@ == old(self)@,
            addr_in(old(self)@, guest_addr.0 as int) && T::byte_len() <= room_at(
                old(self)@,
                guest_addr.0 as int,
            ) ==> r == Ok::<(), Error>(()) && final(self)@ == write_at(
                old(self)@,
                guest_addr.0 as int,
                val.spec_to_bytes(),
            ),
    {
        let bytes = val.to_bytes();
        self.locate_span(guest_addr, bytes.len())?;
        let _ = self.write_at_addr(bytes.as_slice(), guest_addr);
        Ok(())
    }

    /// Returns a handle on the `len` bytes from `addr` on, which must lie in the region
    /// that contains `addr`.
    pub fn get_slice_at_addr(&self, addr: GuestAddress, len: usize) -> (r: Result<
        VolatileSlice,
        Error,
    >)
        requires
            self.inv(),
        ensures
            r == slice_outcome(self@, addr, len),
    {
        let (i, off) = self.do_in_region(addr)?;
        assert(self@[i as int] == self.regions@[i as int]@);
        let off = off as usize;
        if len > usize::MAX - off {
            return Err(
                Error::VolatileMemoryAccess(
                    VolatileMemoryError::Overflow { base: off as u64, offset: len as u64 },
                ),
            );
        }
        if off + len > self.regions[i].mapping.len() {
            return Err(
                Error::VolatileMemoryAccess(
                    VolatileMemoryError::OutOfBounds { addr: (off + len) as u64 },
                ),
            );
        }
        Ok(VolatileSlice { guest_addr: addr, len })
    }

    /// Returns a handle on the `T` at `addr`, whose bytes must lie in the region that
    /// contains `addr`.
    pub fn get_ref_at_addr<T: PlainData>(&self, addr: GuestAddress) -> (r: Result<
        VolatileRef<T>,
        Error,
    >)
        requires
            self.inv(),
        ensures
            r is Ok <==> slice_outcome(self@, addr, T::byte_len() as usize) is Ok,
            r is Ok ==> r->Ok_0.guest_addr == addr,
            r is Err ==> r->Err_0 == slice_outcome(self@, addr, T::byte_len() as usize)->Err_0,
    {
        let s = self.get_slice_at_addr(addr, T::size())?;
        Ok(VolatileRef { guest_addr: s.guest_addr, marker: core::marker::PhantomData })
    }

    /// Fills the `count` bytes from `guest_addr` on with the first `count` bytes that were
    /// read from a source. The span must lie in one region, and the source must have
    /// supplied `count` bytes.
    pub fn read_to_memory(&mut self, guest_addr: GuestAddress, src: &[u8], count: usize) -> (r:
        Result<(), Error>)
        requires
            old(self).inv(),
        ensures
            final(self).inv(),
            same_shape(old(self)@, final(self)@),
            !addr_in(old(self)@, guest_addr.0 as int) ==> r == Err::<(), Error>(
                Error::InvalidGuestAddress(guest_addr),
            ) && final(self)@ == old(self)@,
            addr_in(old(self)@, guest_addr.0 as int) && count > room_at(
                old(self)@,
                guest_addr.0 as int,
            ) ==> r == Err::<(), Error>(
                Error::MemoryAccess(
                    guest_addr,
                    MmapError::InvalidRange(
                        offset_in_region(old(self)@, guest_addr.0 as int) as u64,
                        count as u64,
                        old(self)@[region_of(old(self)@, guest_addr.0 as int)].bytes.len() as u64,
                    ),
                ),
            ) && final(self)@ == old(self)@,
            addr_in(old(self)@, guest_addr.0 as int) && count <= room_at(
                old(self)@,
                guest_addr.0 as int,
            ) && src@.len() < count ==> r == Err::<(), Error>(
                Error::ShortRead { expected: count as u64, completed: src@.len() as u64 },
            ) && final(self)@ == old(self)@,
            addr_in(old(self)@, guest_addr.0 as int) && count <= room_at(
                old(self)@,
                guest_addr.0 as int,
            ) && src@.len() >= count ==> r == Ok::<(), Error>(()) && final(self)@ == write_at(
                old(self)@,
                guest_addr.0 as int,
                src@.take(count as int),
            ),
    {
        self.locate_span(guest_addr, count)?;
        if src.len() < count {
            return Err(Error::ShortRead { expected: count as u64, completed: src.len() as u64 });
        }
        let mut data: Vec<u8> = Vec::new();
        let mut j: usize = 0;
        while j < count
            invariant
                j <= count <= src@.len(),
                data@ == src@.take(j as int),
            decreases count - j,
        {
            data.push(src[j]);
            j = j + 1;
            assert(data@ =~= src@.take(j as int));
        }
        let _ = self.write_at_addr(data.as_slice(), guest_addr);
        Ok(())
    }

    /// Returns the `count` bytes from `guest_addr` on, to be handed to a sink. The span
    /// must lie in one region.
    pub fn write_from_memory(&self, guest_addr: GuestAddress, count: usize) -> (r: Result<
        Vec<u8>,
        Error,
    >)
        requires
            self.inv(),
        ensures
            !addr_in(self@, guest_addr.0 as int) ==> r == Err::<Vec<u8>, Error>(
                Error::InvalidGuestAddress(guest_addr),
            ),
            addr_in(self@, guest_addr.0 as int) && count > room_at(self@, guest_addr.0 as int)
                ==> r == Err::<Vec<u8>, Error>(
                Error::MemoryAccess(
                    guest_addr,
                    MmapError::InvalidRange(
                        offset_in_region(self@, guest_addr.0 as int) as u64,
                        count as u64,
                        self@[region_of(self@, guest_addr.0 as int)].bytes.len() as u64,
                    ),
                ),
            ),
            addr_in(self@, guest_addr.0 as int) && count <= room_at(self@, guest_addr.0 as int)
                ==> r is Ok && r->Ok_0@ == read_at(self@, guest_addr.0 as int, count as int),
    {
        let (i, off) = self.locate_span(guest_addr, count)?;
        let mut out: Vec<u8> = Vec::new();
        let mut k: usize = 0;
        while k < count
            invariant
                k <= count,
                out@.len() == k,
            decreases count - k,
        {
            out.push(0u8);
            k = k + 1;
        }
        assert(self@[i as int] == self.regions@[i as int]@);
        self.regions[i].read_slice(out.as_mut_slice(), off, count);
        assert(out@ =~= read_at(self@, guest_addr.0 as int, count as int));
        Ok(out)
    }

    /// Returns the host-side location of the byte at `guest_addr`.
    pub fn get_host_address(&self, guest_addr: GuestAddress) -> (r: Result<HostAddress, Error>)
        requires
            self.inv(),
        ensures
            !addr_in(self@, guest_addr.0 as int) ==> r == Err::<HostAddress, Error>(
                Error::InvalidGuestAddress(guest_addr),
            ),
            addr_in(self@, guest_addr.0 as int) ==> r is Ok && r->Ok_0.mapping as int
                == region_of(self@, guest_addr.0 as int) && r->Ok_0.offset as int
                == offset_in_region(self@, guest_addr.0 as int),
    {
        let (i, off) = self.do_in_region(guest_addr)?;
        assert(self@[i as int] == self.regions@[i as int]@);
        Ok(HostAddress { mapping: i, offset: off as usize })
    }

    /// Returns the host-side location of the `size` bytes from `guest_addr` on, which must
    /// be at least one byte and lie in one region.
    pub fn get_host_address_range(&self, guest_addr: GuestAddress, size: usize) -> (r: Result<
        HostAddress,
        Error,
    >)
        requires
            self.inv(),
        ensures
            size == 0 ==> r == Err::<HostAddress, Error>(Error::InvalidSize(0)),
            size > 0 && !(addr_in(self@, guest_addr.0 as int) && size <= room_at(
                self@,
                guest_addr.0 as int,
            )) ==> r == Err::<HostAddress, Error>(Error::InvalidGuestAddress(guest_addr)),
            size > 0 && addr_in(self@, guest_addr.0 as int) && size <= room_at(
                self@,
                guest_addr.0 as int,
            ) ==> r is Ok && r->Ok_0.mapping as int == region_of(self@, guest_addr.0 as int)
                && r->Ok_0.offset as int == offset_in_region(self@, guest_addr.0 as int),
    {
        if size == 0 {
            return Err(Error::InvalidSize(0));
        }
        let (i, off) = self.do_in_region(guest_addr)?;
        assert(self@[i as int] == self.regions@[i as int]@);
        let off = off as usize;
        if self.regions[i].mapping.len() - off < size {
            return Err(Error::InvalidGuestAddress(guest_addr));
        }
        Ok(HostAddress { mapping: i, offset: off })
    }

    /// Reads `len` bytes at `offset` of the backing object `obj`, as a peer that maps the
    /// exported object sees them: through the first region that is a window of `obj`
    /// holding that span.
    pub fn map_object(&self, obj: BackingObject, offset: u64, len: usize) -> (r: Result<
        Vec<u8>,
        Error,
    >)
        requires
            self.inv(),
        ensures
            (forall|i: int|
                0 <= i < self@.len() ==> !window_holds(
                    #[trigger] self@[i],
                    obj,
                    offset as int,
                    len as int,
                )) ==> r == Err::<Vec<u8>, Error>(Error::InvalidOffset(offset)),
            forall|i: int|
                0 <= i < self@.len() && window_holds(#[trigger] self@[i], obj, offset as int, len as int)
                    && (forall|j: int|
                    0 <= j < i ==> !window_holds(#[trigger] self@[j], obj, offset as int, len as int))
                    ==> r is Ok && r->Ok_0@ == self@[i].bytes.subrange(
                    offset - self@[i].obj_offset,
                    offset - self@[i].obj_offset + len,
                ),
    {
        let mut i: usize = 0;
        while i < self.regions.len()
            invariant
                self.inv(),
                i <= self@.len(),
                forall|j: int|
                    0 <= j < i ==> !window_holds(#[trigger] self@[j], obj, offset as int, len as int),
            decreases self.regions.len() - i,
        {
            assert(self@[i as int] == self.regions@[i as int]@);
            let region = &self.regions[i];
            let size = region.mapping.len();
            if region.shared_obj == obj && region.obj_offset <= offset && offset - region.obj_offset
                <= size as u64 && len <= size - (offset - region.obj_offset) as usize {
                let start = (offset - region.obj_offset) as usize;
                let mut out: Vec<u8> = Vec::new();
                let mut k: usize = 0;
                while k < len
                    invariant
                        k <= len,
                        start + len <= size,
                        size == region.mapping@.len(),
                        out@ == region.mapping@.subrange(start as int, start + k),
                    decreases len - k,
                {
                    out.push(region.mapping[start + k]);
                    k = k + 1;
                    assert(out@ =~= region.mapping@.subrange(start as int, start + k));
                }
                return Ok(out);
            }
            i = i + 1;
        }
        Err(Error::InvalidOffset(offset))
    }
}

impl<T: PlainData> VolatileRef<T> {
    /// Loads the value that the handle names from `mem`.
    pub fn load(&self, mem: &GuestMemory) -> (r: T)
        requires
            mem.inv(),
            addr_in(mem@, self.guest_addr.0 as int),
            T::byte_len() <= room_at(mem@, self.guest_addr.0 as int),
        ensures
            r == T::spec_from_bytes(read_at(mem@, self.guest_addr.0 as int, T::byte_len() as int)),
    {
        match mem.read_obj_from_addr(self.guest_addr) {
            Ok(v) => v,
            Err(_) => {
                assert(false);
                T::from_bytes(&[])
            },
        }
    }

    /// Stores `val` into `mem` at the place that the handle names.
    pub fn store(&self, mem: &mut GuestMemory, val: T)
        requires
            old(mem).inv(),
            addr_in(old(mem)@, self.guest_addr.0 as int),
            T::byte_len() <= room_at(old(mem)@, self.guest_addr.0 as int),
        ensures
            final(mem).inv(),
            final(mem)@ == write_at(old(mem)@, self.guest_addr.0 as int, val.spec_to_bytes()),
    {
        let _ = mem.write_obj_at_addr(val, self.guest_addr);
    }
}

impl VolatileSlice {
    /// Whether the span lies in one region of `rs`, as a slice handed out by a container
    /// with these regions does.
    pub open spec fn valid_in(&self, rs: Seq<RegionView>) -> bool {
        addr_in(rs, self.guest_addr.0 as int) && self.len <= room_at(rs, self.guest_addr.0 as int)
    }

    /// Reads the bytes of the span from `mem`.
    pub fn read(&self, mem: &GuestMemory) -> (r: Vec<u8>)
        requires
            mem.inv(),
            self.valid_in(mem@),
        ensures
            r@ == read_at(mem@, self.guest_addr.0 as int, self.len as int),
    {
        match mem.write_from_memory(self.guest_addr, self.len) {
            Ok(bytes) => bytes,
            Err(_) => {
                assert(false);
                Vec::new()
            },
        }
    }

    /// Writes `data` into the span of `mem`, from its start; `data` must fit in the span.
    pub fn write(&self, mem: &mut GuestMemory, data: &[u8])
        requires
            old(mem).inv(),
            self.valid_in(old(mem)@),
            data@.len() <= self.len,
        ensures
            final(mem).inv(),
            same_shape(old(mem)@, final(mem)@),
            final(mem)@ == write_at(old(mem)@, self.guest_addr.0 as int, data@),
            read_at(final(mem)@, self.guest_addr.0 as int, data@.len() as int) == data@,
    {
        proof {
            crate::layout_laws::lemma_write_then_read(old(mem)@, self.guest_addr.0 as int, data@);
        }
        let _ = mem.write_at_addr(data, self.guest_addr);
    }
}

} // verus!
