//! Laws of the guest memory layout and its I/O, stated over the container's model and
//! proved from the definitions that the container's contracts use.
use vstd::prelude::*;

use crate::guest_address::GuestAddress;
use crate::guest_memory::{
    addr_in, all_page_aligned, byte_at, flat_layout, flat_outcome_ok, layout_wf, lemma_region_of, lemma_region_unique,
    lemma_region_of_contains, no_range_fault, obj_offset_of, offset_in_region,
    range_fault, read_at, region_contains, window_holds, region_end, region_of, room_at, same_shape,
    sizes_sum, span_in_one_region, total_bytes, write_at, write_bytes, GuestMemory, RegionView,
    PAGE_SIZE,
};

verus! {

/// No guest address is mapped by two regions of one container: the region that contains
/// an address is unique.
pub proof fn lemma_address_in_one_region(gm: &GuestMemory, a: int, i: int, j: int)
    requires
        gm.inv(),
        0 <= i < gm@.len(),
        0 <= j < gm@.len(),
        region_contains(gm@[i], a),
        region_contains(gm@[j], a),
    ensures
        i == j,
{
    lemma_region_unique(gm@, a, i, j);
}

proof fn lemma_flat_ordered(ranges: Seq<(GuestAddress, u64)>, p: int, q: int)
    requires
        no_range_fault(ranges),
        0 <= p < q < ranges.len(),
    ensures
        ranges[p].0.0 + ranges[p].1 <= ranges[q].0.0,
    decreases q - p,
{
    assert(range_fault(ranges, q) is None);
    if p < q - 1 {
        lemma_flat_ordered(ranges, p, q - 1);
        assert(range_fault(ranges, q - 1) is None);
        assert(ranges[q - 1].1 > 0);
    }
}

/// A flat range list in which two ranges share an address is refused: laying out guest
/// memory from it fails.
pub proof fn lemma_overlapping_ranges_refused(ranges: Seq<(GuestAddress, u64)>, p: int, q: int)
    requires
        0 <= p < ranges.len(),
        0 <= q < ranges.len(),
        p != q,
        ranges[p].0.0 < ranges[q].0.0 + ranges[q].1,
        ranges[q].0.0 < ranges[p].0.0 + ranges[p].1,
    ensures
        !flat_outcome_ok(ranges),
{
    if flat_outcome_ok(ranges) {
        if p < q {
            lemma_flat_ordered(ranges, p, q);
        } else {
            lemma_flat_ordered(ranges, q, p);
        }
    }
}

/// A flat range list with a size that is not a multiple of the page size is refused.
pub proof fn lemma_unaligned_range_refused(ranges: Seq<(GuestAddress, u64)>, k: int)
    requires
        0 <= k < ranges.len(),
        ranges[k].1 % PAGE_SIZE != 0,
    ensures
        !all_page_aligned(ranges),
        !flat_outcome_ok(ranges),
{
    assert(!(ranges[k].1 % PAGE_SIZE == 0));
}

proof fn lemma_sizes_sum_bounded(ranges: Seq<(GuestAddress, u64)>)
    requires
        ranges.len() > 0,
        forall|k: int| 0 <= k < ranges.len() ==> (#[trigger] ranges[k]).0.0 + ranges[k].1 <= u64::MAX,
        forall|k: int|
            0 < k < ranges.len() ==> ranges[k - 1].0.0 + ranges[k - 1].1 <= (#[trigger] ranges[k]).0.0,
    ensures
        sizes_sum(ranges) <= ranges.last().0.0 + ranges.last().1,
    decreases ranges.len(),
{
    let p = ranges.drop_last();
    assert(sizes_sum(ranges) == sizes_sum(p) + ranges.last().1);
    assert(ranges.last() == ranges[ranges.len() - 1]);
    if p.len() == 0 {
        assert(sizes_sum(p) == 0);
    } else {
        assert forall|k: int| 0 < k < p.len() implies p[k - 1].0.0 + p[k - 1].1 <= (
        #[trigger] p[k]).0.0 by {
            assert(ranges[k] == p[k]);
            assert(ranges[k - 1] == p[k - 1]);
        }
        assert forall|k: int| 0 <= k < p.len() implies (#[trigger] p[k]).0.0 + p[k].1
            <= u64::MAX by {
            assert(ranges[k] == p[k]);
        }
        lemma_sizes_sum_bounded(p);
        assert(ranges[ranges.len() - 2] == p.last());
        assert(ranges[ranges.len() - 2].0.0 + ranges[ranges.len() - 2].1 <= ranges[ranges.len()
            - 1].0.0);
    }
}

proof fn lemma_sizes_sum_take_bounded(ranges: Seq<(GuestAddress, u64)>, k: int)
    requires
        0 <= k <= ranges.len(),
    ensures
        sizes_sum(ranges.take(k)) <= sizes_sum(ranges),
    decreases ranges.len() - k,
{
    if k < ranges.len() {
        lemma_sizes_sum_take_bounded(ranges, k + 1);
        assert(ranges.take(k + 1).drop_last() =~= ranges.take(k));
    } else {
        assert(ranges.take(k) =~= ranges);
    }
}

/// A flat range list whose sizes are positive multiples of the page size that fit in a
/// `usize`, whose ranges do not wrap past the 64-bit boundary, and in which each range
/// starts at or after the end of the one before, is accepted.
pub proof fn lemma_well_formed_ranges_accepted(ranges: Seq<(GuestAddress, u64)>)
    requires
        forall|k: int|
            0 <= k < ranges.len() ==> (#[trigger] ranges[k]).1 % PAGE_SIZE == 0 && ranges[k].1 > 0
                && ranges[k].1 <= usize::MAX && ranges[k].0.0 + ranges[k].1 <= u64::MAX,
        forall|k: int|
            0 < k < ranges.len() ==> ranges[k - 1].0.0 + ranges[k - 1].1 <= (#[trigger] ranges[k]).0.0,
    ensures
        flat_outcome_ok(ranges),
{
    if ranges.len() > 0 {
        lemma_sizes_sum_bounded(ranges);
    }
    assert forall|k: int| 0 <= k < ranges.len() implies (#[trigger] range_fault(ranges, k)) is None by {
        lemma_sizes_sum_take_bounded(ranges, k + 1);
        assert(ranges.take(k + 1).drop_last() =~= ranges.take(k));
        assert(sizes_sum(ranges.take(k)) as int % PAGE_SIZE as int == 0) by {
            lemma_prefix_aligned(ranges, k);
        }
    }
}

proof fn lemma_prefix_aligned(ranges: Seq<(GuestAddress, u64)>, k: int)
    requires
        0 <= k <= ranges.len(),
        forall|j: int| 0 <= j < ranges.len() ==> (#[trigger] ranges[j]).1 % PAGE_SIZE == 0,
    ensures
        sizes_sum(ranges.take(k)) as int % PAGE_SIZE as int == 0,
    decreases k,
{
    if k > 0 {
        lemma_prefix_aligned(ranges, k - 1);
        assert(ranges.take(k).drop_last() =~= ranges.take(k - 1));
        let a = sizes_sum(ranges.take(k - 1)) as int;
        let b = ranges[k - 1].1 as int;
        assert(b % 4096 == 0);
        assert((a + b) % 4096 == 0) by (nonlinear_arith)
            requires
                a % 4096 == 0,
                b % 4096 == 0,
        ;
    }
}

/// Writing bytes that fit in the containing region and then reading the same number of
/// bytes from the same address gives back the bytes written.
pub proof fn lemma_write_then_read(rs: Seq<RegionView>, a: int, data: Seq<u8>)
    requires
        layout_wf(rs),
        addr_in(rs, a),
        data.len() <= room_at(rs, a),
    ensures
        addr_in(write_at(rs, a, data), a),
        room_at(write_at(rs, a, data), a) == room_at(rs, a),
        read_at(write_at(rs, a, data), a, data.len() as int) == data,
{
    lemma_region_of_contains(rs, a);
    let i = region_of(rs, a);
    let off = offset_in_region(rs, a);
    let w = write_at(rs, a, data);
    assert(data.take(data.len() as int) =~= data);
    assert(w == write_bytes(rs, i, off, data));
    let nb = rs[i].bytes.subrange(0, off) + data + rs[i].bytes.subrange(
        off + data.len(),
        rs[i].bytes.len() as int,
    );
    assert(w[i].bytes == nb);
    assert(nb.len() == rs[i].bytes.len());
    assert(region_contains(w[i], a));
    assert forall|j: int| 0 <= j < w.len() && j != i implies (#[trigger] w[j]) == rs[j] by {}
    assert(same_shape(rs, w));
    assert(layout_wf(w)) by {
        assert forall|k: int| 0 <= k < w.len() implies crate::guest_memory::region_wf(
            #[trigger] w[k],
        ) by {
            assert(crate::guest_memory::region_wf(rs[k]));
        }
        assert forall|p: int, q: int| 0 <= p < q < w.len() implies region_end(#[trigger] w[p])
            <= (#[trigger] w[q]).base by {
            assert(region_end(rs[p]) <= rs[q].base);
        }
    }
    lemma_region_of(w, a, i);
    assert(nb.subrange(off, off + data.len()) =~= data);
}

/// A span that starts in one region and ends in another is not a valid range, even when
/// every address of it lies in some region.
pub proof fn lemma_span_across_regions_invalid(
    rs: Seq<RegionView>,
    start: int,
    len: int,
    i: int,
    j: int,
)
    requires
        layout_wf(rs),
        len > 0,
        0 <= i < rs.len(),
        0 <= j < rs.len(),
        i != j,
        region_contains(rs[i], start),
        region_contains(rs[j], start + len - 1),
    ensures
        !span_in_one_region(rs, start, len),
{
    if span_in_one_region(rs, start, len) {
        let k = choose|k: int|
            0 <= k < rs.len() && (#[trigger] rs[k]).base <= start && start + len <= region_end(
                rs[k],
            );
        assert(region_contains(rs[k], start));
        assert(region_contains(rs[k], start + len - 1));
        lemma_region_of(rs, start, i);
        lemma_region_of(rs, start, k);
        lemma_region_of(rs, start + len - 1, j);
        lemma_region_of(rs, start + len - 1, k);
    }
}

/// A non-empty span that lies inside one region is a valid range.
pub proof fn lemma_span_inside_region_valid(rs: Seq<RegionView>, start: int, len: int, i: int)
    requires
        0 <= i < rs.len(),
        len > 0,
        rs[i].base <= start,
        start + len <= region_end(rs[i]),
    ensures
        span_in_one_region(rs, start, len),
{
    assert(rs[i].base <= start && start + len <= region_end(rs[i]));
}

/// Laying out guest memory twice from the same flat range list gives two containers with
/// the same regions, hence the same answer for every address: whether it is in range,
/// which region holds it, its byte, and its offset in the backing object.
pub proof fn lemma_layout_deterministic(
    ranges: Seq<(GuestAddress, u64)>,
    a: &GuestMemory,
    b: &GuestMemory,
)
    requires
        a@ == flat_layout(ranges),
        b@ == flat_layout(ranges),
    ensures
        a@ == b@,
        forall|x: int|
            addr_in(a@, x) == addr_in(b@, x) && region_of(a@, x) == region_of(b@, x) && byte_at(
                a@,
                x,
            ) == byte_at(b@, x) && obj_offset_of(a@, x) == obj_offset_of(b@, x),
{
}

/// The bytes of a backing object that the regions tile one after another.
pub open spec fn object_bytes(rs: Seq<RegionView>) -> Seq<u8>
    decreases rs.len(),
{
    if rs.len() == 0 {
        Seq::empty()
    } else {
        object_bytes(rs.drop_last()) + rs.last().bytes
    }
}

/// Each region's window starts where the windows of the regions before it end.
pub open spec fn tiles_object(rs: Seq<RegionView>) -> bool {
    forall|i: int| 0 <= i < rs.len() ==> (#[trigger] rs[i]).obj_offset == total_bytes(rs.take(i))
}

proof fn lemma_object_bytes_index(rs: Seq<RegionView>, i: int, k: int)
    requires
        0 <= i < rs.len(),
        0 <= k < rs[i].bytes.len(),
    ensures
        object_bytes(rs).len() == total_bytes(rs),
        total_bytes(rs.take(i)) + k < object_bytes(rs).len(),
        object_bytes(rs)[total_bytes(rs.take(i)) + k] == rs[i].bytes[k],
    decreases rs.len(),
{
    let p = rs.drop_last();
    lemma_object_bytes_len(rs);
    lemma_object_bytes_len(p);
    assert(object_bytes(rs) == object_bytes(p) + rs.last().bytes);
    if i == rs.len() - 1 {
        assert(rs.take(i) =~= p);
        assert(rs.last() == rs[i]);
    } else {
        lemma_object_bytes_index(p, i, k);
        assert(p.take(i) =~= rs.take(i));
        assert(p[i] == rs[i]);
        lemma_total_take_bounded(p, i + 1);
        assert(p.take(i + 1).drop_last() =~= p.take(i));
        assert(p.take(i + 1).last() == p[i]);
        assert(total_bytes(p.take(i + 1)) == total_bytes(p.take(i)) + p[i].bytes.len());
        let idx = total_bytes(rs.take(i)) + k;
        assert(idx < object_bytes(p).len());
        assert(object_bytes(rs)[idx] == object_bytes(p)[idx]);
    }
}

proof fn lemma_total_take_bounded(rs: Seq<RegionView>, k: int)
    requires
        0 <= k <= rs.len(),
    ensures
        total_bytes(rs.take(k)) <= total_bytes(rs),
    decreases rs.len() - k,
{
    if k < rs.len() {
        lemma_total_take_bounded(rs, k + 1);
        assert(rs.take(k + 1).drop_last() =~= rs.take(k));
    } else {
        assert(rs.take(k) =~= rs);
    }
}

proof fn lemma_object_bytes_len(rs: Seq<RegionView>)
    ensures
        object_bytes(rs).len() == total_bytes(rs),
    decreases rs.len(),
{
    if rs.len() > 0 {
        lemma_object_bytes_len(rs.drop_last());
    }
}

/// When the regions tile one backing object, the offset that `offset_from_base` reports
/// for an address names, in that object, the very byte that a read through the container
/// returns: mapping the exported object at that offset shows the same bytes.
pub proof fn lemma_export_consistent(rs: Seq<RegionView>, a: int)
    requires
        layout_wf(rs),
        tiles_object(rs),
        addr_in(rs, a),
    ensures
        0 <= obj_offset_of(rs, a) < object_bytes(rs).len(),
        object_bytes(rs)[obj_offset_of(rs, a)] == byte_at(rs, a),
{
    lemma_region_of_contains(rs, a);
    let i = region_of(rs, a);
    lemma_object_bytes_index(rs, i, offset_in_region(rs, a));
}

proof fn lemma_flat_prefix_total(ranges: Seq<(GuestAddress, u64)>, k: int)
    requires
        0 <= k <= ranges.len(),
    ensures
        total_bytes(flat_layout(ranges).take(k)) == sizes_sum(ranges.take(k)),
    decreases k,
{
    if k > 0 {
        lemma_flat_prefix_total(ranges, k - 1);
        assert(flat_layout(ranges).take(k).drop_last() =~= flat_layout(ranges).take(k - 1));
        assert(ranges.take(k).drop_last() =~= ranges.take(k - 1));
    }
}

/// The regions that a flat range list is laid out into tile their shared object.
pub proof fn lemma_flat_layout_tiles(ranges: Seq<(GuestAddress, u64)>)
    ensures
        tiles_object(flat_layout(ranges)),
{
    assert forall|i: int| 0 <= i < flat_layout(ranges).len() implies (#[trigger] flat_layout(
        ranges,
    )[i]).obj_offset == total_bytes(flat_layout(ranges).take(i)) by {
        lemma_flat_prefix_total(ranges, i);
    }
}

proof fn lemma_same_shape_total(a: Seq<RegionView>, b: Seq<RegionView>)
    requires
        same_shape(a, b),
    ensures
        total_bytes(a) == total_bytes(b),
    decreases a.len(),
{
    if a.len() > 0 {
        lemma_same_shape_total(a.drop_last(), b.drop_last());
    }
}

/// Writes change bytes only, so regions that tiled their object still do.
pub proof fn lemma_same_shape_tiles(a: Seq<RegionView>, b: Seq<RegionView>)
    requires
        same_shape(a, b),
        tiles_object(a),
    ensures
        tiles_object(b),
{
    assert forall|i: int| 0 <= i < b.len() implies (#[trigger] b[i]).obj_offset == total_bytes(
        b.take(i),
    ) by {
        assert(a[i].obj_offset == total_bytes(a.take(i)));
        assert(same_shape(a.take(i), b.take(i))) by {
            assert forall|j: int| 0 <= j < a.take(i).len() implies (#[trigger] a.take(i)[j]).base
                == b.take(i)[j].base && a.take(i)[j].obj == b.take(i)[j].obj && a.take(i)[j].obj_offset
                == b.take(i)[j].obj_offset && a.take(i)[j].bytes.len() == b.take(i)[j].bytes.len() by {
                assert(a.take(i)[j] == a[j]);
                assert(b.take(i)[j] == b[j]);
            }
        }
        lemma_same_shape_total(a.take(i), b.take(i));
    }
}

proof fn lemma_total_take_step(rs: Seq<RegionView>, k: int)
    requires
        0 <= k < rs.len(),
    ensures
        total_bytes(rs.take(k + 1)) == total_bytes(rs.take(k)) + rs[k].bytes.len(),
{
    assert(rs.take(k + 1).drop_last() =~= rs.take(k));
}

proof fn lemma_total_take_mono(rs: Seq<RegionView>, j: int, k: int)
    requires
        0 <= j <= k <= rs.len(),
    ensures
        total_bytes(rs.take(j)) <= total_bytes(rs.take(k)),
    decreases k - j,
{
    if j < k {
        lemma_total_take_step(rs, k - 1);
        lemma_total_take_mono(rs, j, k - 1);
    }
}

/// When the regions tile one backing object, the one region whose window of that object
/// holds the byte at `offset_from_base(a)` is the region that contains `a`, and that byte
/// of the window is the byte a read at `a` returns: mapping the exported object at that
/// offset shows what the container shows.
pub proof fn lemma_export_window(rs: Seq<RegionView>, a: int)
    requires
        layout_wf(rs),
        tiles_object(rs),
        addr_in(rs, a),
    ensures
        forall|j: int|
            0 <= j < rs.len() ==> (window_holds(
                #[trigger] rs[j],
                rs[region_of(rs, a)].obj,
                obj_offset_of(rs, a),
                1,
            ) <==> j == region_of(rs, a)),
        ({
            let i = region_of(rs, a);
            let o = obj_offset_of(rs, a) - rs[i].obj_offset;
            rs[i].bytes.subrange(o, o + 1) == seq![byte_at(rs, a)]
        }),
{
    lemma_region_of_contains(rs, a);
    let i = region_of(rs, a);
    let o = obj_offset_of(rs, a);
    assert forall|j: int| 0 <= j < rs.len() implies (window_holds(
        #[trigger] rs[j],
        rs[i].obj,
        o,
        1,
    ) <==> j == i) by {
        lemma_total_take_step(rs, j);
        lemma_total_take_step(rs, i);
        if j < i {
            lemma_total_take_mono(rs, j + 1, i);
        } else if j > i {
            lemma_total_take_mono(rs, i + 1, j);
        }
    }
    assert(rs[i].bytes.subrange(o - rs[i].obj_offset, o - rs[i].obj_offset + 1) =~= seq![
        byte_at(rs, a),
    ]);
}

} // verus!
