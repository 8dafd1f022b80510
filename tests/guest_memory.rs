use vm_memory::guest_address::GuestAddress;
use vm_memory::guest_memory::{
    BackingObject, Error, GuestMemory, HostAddress, MemoryRegion, MmapError, RegionInfo,
    VolatileMemoryError, VolatileSlice,
};

#[test]
fn test_alignment() {
    let start_addr1 = GuestAddress(0x0);
    let start_addr2 = GuestAddress(0x10000);

    assert!(GuestMemory::new(&[(start_addr1, 0x100), (start_addr2, 0x400)]).is_err());
    assert!(GuestMemory::new(&[(start_addr1, 0x10000), (start_addr2, 0x10000)]).is_ok());
}

#[test]
fn two_regions() {
    let start_addr1 = GuestAddress(0x0);
    let start_addr2 = GuestAddress(0x10000);
    // The memory regions are `[0x0, 0x10000)`, `[0x10000, 0x20000)`.
    let gm = GuestMemory::new(&[(start_addr1, 0x10000), (start_addr2, 0x10000)]).unwrap();

    // Every address of `[0x0, 0x20000)` is valid, yet a range across both regions is not.
    assert!(gm.is_valid_range(GuestAddress(0x5000), 0x5000));
    assert!(gm.is_valid_range(GuestAddress(0x10000), 0x5000));
    assert!(!gm.is_valid_range(GuestAddress(0x5000), 0x10000));
}

#[test]
fn overlap_memory() {
    let start_addr1 = GuestAddress(0x0);
    let start_addr2 = GuestAddress(0x10000);
    assert!(GuestMemory::new(&[(start_addr1, 0x20000), (start_addr2, 0x20000)]).is_err());
}

#[test]
fn region_hole() {
    let start_addr1 = GuestAddress(0x0);
    let start_addr2 = GuestAddress(0x40000);
    // The memory regions are `[0x0, 0x20000)`, `[0x40000, 0x60000)`.
    let gm = GuestMemory::new(&[(start_addr1, 0x20000), (start_addr2, 0x20000)]).unwrap();

    assert!(gm.address_in_range(GuestAddress(0x10000)));
    assert!(!gm.address_in_range(GuestAddress(0x30000)));
    assert!(gm.address_in_range(GuestAddress(0x50000)));
    assert!(!gm.address_in_range(GuestAddress(0x60000)));
    assert!(!gm.address_in_range(GuestAddress(0x60000)));
    assert!(gm.range_overlap(GuestAddress(0x10000), GuestAddress(0x30000)),);
    assert!(!gm.range_overlap(GuestAddress(0x30000), GuestAddress(0x40000)),);
    assert!(gm.range_overlap(GuestAddress(0x30000), GuestAddress(0x70000)),);
    assert_eq!(gm.checked_offset(GuestAddress(0x10000), 0x10000), None);
    assert_eq!(
        gm.checked_offset(GuestAddress(0x50000), 0x8000),
        Some(GuestAddress(0x58000))
    );
    assert_eq!(gm.checked_offset(GuestAddress(0x50000), 0x10000), None);
    assert!(gm.is_valid_range(GuestAddress(0x0), 0x10000));
    assert!(gm.is_valid_range(GuestAddress(0x0), 0x20000));
    assert!(!gm.is_valid_range(GuestAddress(0x0), 0x20000 + 1));

    // The end point 0x50000 is valid, but the span up to it crosses the hole.
    assert_eq!(
        gm.checked_offset(GuestAddress(0x10000), 0x40000),
        Some(GuestAddress(0x50000))
    );
    assert!(!gm.is_valid_range(GuestAddress(0x10000), 0x40000));
}

#[test]
fn test_read_u64() {
    let start_addr1 = GuestAddress(0x0);
    let start_addr2 = GuestAddress(0x10000);
    let mut gm = GuestMemory::new(&[(start_addr1, 0x10000), (start_addr2, 0x10000)]).unwrap();

    let val1: u64 = 0xaa55aa55aa55aa55;
    let val2: u64 = 0x55aa55aa55aa55aa;
    gm.write_obj_at_addr(val1, GuestAddress(0x500)).unwrap();
    gm.write_obj_at_addr(val2, GuestAddress(0x10000 + 32)).unwrap();
    let num1: u64 = gm.read_obj_from_addr(GuestAddress(0x500)).unwrap();
    let num2: u64 = gm.read_obj_from_addr(GuestAddress(0x10000 + 32)).unwrap();
    assert_eq!(val1, num1);
    assert_eq!(val2, num2);
}

#[test]
fn test_ref_load_u64() {
    let start_addr1 = GuestAddress(0x0);
    let start_addr2 = GuestAddress(0x10000);
    let mut gm = GuestMemory::new(&[(start_addr1, 0x10000), (start_addr2, 0x10000)]).unwrap();

    let val1: u64 = 0xaa55aa55aa55aa55;
    let val2: u64 = 0x55aa55aa55aa55aa;
    gm.write_obj_at_addr(val1, GuestAddress(0x500)).unwrap();
    gm.write_obj_at_addr(val2, GuestAddress(0x10000 + 32)).unwrap();
    let num1: u64 = gm
        .get_ref_at_addr::<u64>(GuestAddress(0x500))
        .unwrap()
        .load(&gm);
    let num2: u64 = gm
        .get_ref_at_addr::<u64>(GuestAddress(0x10000 + 32))
        .unwrap()
        .load(&gm);
    assert_eq!(val1, num1);
    assert_eq!(val2, num2);
}

#[test]
fn test_ref_store_u64() {
    let start_addr1 = GuestAddress(0x0);
    let start_addr2 = GuestAddress(0x10000);
    let mut gm = GuestMemory::new(&[(start_addr1, 0x10000), (start_addr2, 0x10000)]).unwrap();

    let val1: u64 = 0xaa55aa55aa55aa55;
    let val2: u64 = 0x55aa55aa55aa55aa;
    let r1 = gm.get_ref_at_addr::<u64>(GuestAddress(0x500)).unwrap();
    r1.store(&mut gm, val1);
    let r2 = gm.get_ref_at_addr::<u64>(GuestAddress(0x1000 + 32)).unwrap();
    r2.store(&mut gm, val2);
    let num1: u64 = gm.read_obj_from_addr(GuestAddress(0x500)).unwrap();
    let num2: u64 = gm.read_obj_from_addr(GuestAddress(0x1000 + 32)).unwrap();
    assert_eq!(val1, num1);
    assert_eq!(val2, num2);
}

#[test]
fn test_memory_size() {
    let start_region1 = GuestAddress(0x0);
    let size_region1 = 0x10000;
    let start_region2 = GuestAddress(0x10000);
    let size_region2 = 0x20000;
    let gm = GuestMemory::new(&[(start_region1, size_region1), (start_region2, size_region2)])
        .unwrap();

    let mem_size = gm.memory_size();
    assert_eq!(mem_size, size_region1 + size_region2);
}

// The host-side location of the start of the mapping that holds `addr`.
fn get_mapping(mem: &GuestMemory, addr: GuestAddress) -> Result<HostAddress, Error> {
    mem.do_in_region(addr)
        .map(|(index, _)| HostAddress { mapping: index, offset: 0 })
}

#[test]
fn guest_to_host() {
    let start_addr1 = GuestAddress(0x0);
    let start_addr2 = GuestAddress(0x10000);
    let mem = GuestMemory::new(&[(start_addr1, 0x10000), (start_addr2, 0x40000)]).unwrap();

    let addr1_base = get_mapping(&mem, start_addr1).unwrap();
    let addr2_base = get_mapping(&mem, start_addr2).unwrap();
    let host_addr1 = mem.get_host_address(start_addr1).unwrap();
    let host_addr2 = mem.get_host_address(start_addr2).unwrap();
    assert_eq!(host_addr1, addr1_base);
    assert_eq!(host_addr2, addr2_base);

    // A bad address gives an error.
    let bad_addr = GuestAddress(0x123456);
    assert!(mem.get_host_address(bad_addr).is_err());
}

#[test]
fn guest_to_host_range() {
    let start_addr1 = GuestAddress(0x0);
    let start_addr2 = GuestAddress(0x10000);
    let mem = GuestMemory::new(&[(start_addr1, 0x10000), (start_addr2, 0x40000)]).unwrap();

    let addr1_base = get_mapping(&mem, start_addr1).unwrap();
    let addr2_base = get_mapping(&mem, start_addr2).unwrap();
    let host_addr1 = mem.get_host_address_range(start_addr1, 0x10000).unwrap();
    let host_addr2 = mem.get_host_address_range(start_addr2, 0x10000).unwrap();
    assert_eq!(host_addr1, addr1_base);
    assert_eq!(host_addr2, addr2_base);

    let host_addr3 = mem.get_host_address_range(start_addr2, 0x20000).unwrap();
    assert_eq!(host_addr3, addr2_base);

    // A valid guest address with a size past its region gives an error.
    assert!(mem.get_host_address_range(start_addr1, 0x20000).is_err());

    // A bad address gives an error.
    let bad_addr = GuestAddress(0x123456);
    assert!(mem.get_host_address_range(bad_addr, 0x10000).is_err());
}

#[test]
fn shm_offset() {
    let start_region1 = GuestAddress(0x0);
    let size_region1 = 0x10000;
    let start_region2 = GuestAddress(0x10000);
    let size_region2 = 0x20000;
    let mut gm = GuestMemory::new(&[(start_region1, size_region1), (start_region2, size_region2)])
        .unwrap();

    gm.write_obj_at_addr(0x1337u16, GuestAddress(0x0)).unwrap();
    gm.write_obj_at_addr(0x0420u16, GuestAddress(0x10000)).unwrap();

    for info in gm.with_regions() {
        match info.shm {
            BackingObject::Shm { .. } => {}
            _ => panic!("backing object isn't SharedMemory"),
        }
        let bytes = gm.map_object(info.shm, info.shm_offset, info.size).unwrap();
        let value = u16::from_le_bytes([bytes[0], bytes[1]]);
        if info.index == 0 {
            assert!(value == 0x1337u16);
        }
        if info.index == 1 {
            assert!(value == 0x0420u16);
        }
    }
}

#[test]
fn alignment_examples() {
    assert_eq!(
        GuestMemory::new(&[(GuestAddress(0x0), 0x100)]).unwrap_err(),
        Error::MemoryNotAligned
    );
    assert!(GuestMemory::new(&[(GuestAddress(0x0), 0x10000), (GuestAddress(0x10000), 0x10000)])
        .is_ok());
}

#[test]
fn overlap_is_refused_and_regions_do_not_share_addresses() {
    assert_eq!(
        GuestMemory::new(&[(GuestAddress(0x0), 0x2000), (GuestAddress(0x1000), 0x1000)])
            .unwrap_err(),
        Error::MemoryRegionOverlap
    );
    let gm = GuestMemory::new(&[(GuestAddress(0x0), 0x1000), (GuestAddress(0x1000), 0x1000)])
        .unwrap();
    assert_eq!(gm.do_in_region(GuestAddress(0xfff)).unwrap(), (0, 0xfff));
    assert_eq!(gm.do_in_region(GuestAddress(0x1000)).unwrap(), (1, 0));
}

#[test]
fn wrapping_range_is_too_large() {
    assert_eq!(
        GuestMemory::new(&[(GuestAddress(0xffff_ffff_ffff_f000), 0x2000)]).unwrap_err(),
        Error::MemoryRegionTooLarge(0xffff_ffff_ffff_f000u128 + 0x2000)
    );
}

#[test]
fn zero_sized_range_cannot_be_mapped() {
    assert_eq!(
        GuestMemory::new(&[(GuestAddress(0x0), 0x0)]).unwrap_err(),
        Error::MemoryMappingFailed(MmapError::InvalidRange(0, 0, 0))
    );
}

#[test]
fn empty_range_list() {
    let gm = GuestMemory::new(&[]).unwrap();
    assert_eq!(gm.num_regions(), 0);
    assert_eq!(gm.memory_size(), 0);
    assert_eq!(gm.end_addr(), GuestAddress(0));
    assert!(!gm.address_in_range(GuestAddress(0)));
    assert_eq!(gm.offset_region(0), Err(Error::InvalidOffset(0)));
}

#[test]
fn write_all_then_read_exact_round_trip() {
    let mut gm = GuestMemory::new(&[(GuestAddress(0x1000), 0x1000)]).unwrap();
    let data = [9u8, 8, 7, 6, 5, 4, 3];
    gm.write_all_at_addr(&data, GuestAddress(0x1ff9)).unwrap();
    let mut back = [0u8; 7];
    gm.read_exact_at_addr(&mut back, GuestAddress(0x1ff9)).unwrap();
    assert_eq!(back, data);
}

#[test]
fn partial_write_and_short_errors() {
    let mut gm = GuestMemory::new(&[(GuestAddress(0x1000), 0x1000)]).unwrap();
    assert_eq!(gm.write_at_addr(&[1, 2, 3, 4], GuestAddress(0x1ffe)), Ok(2));
    let mut buf = [0u8; 4];
    assert_eq!(gm.read_at_addr(&mut buf, GuestAddress(0x1ffe)), Ok(2));
    assert_eq!(buf, [1, 2, 0, 0]);
    assert_eq!(
        gm.write_all_at_addr(&[5, 6, 7], GuestAddress(0x1fff)),
        Err(Error::ShortWrite { expected: 3, completed: 1 })
    );
    assert_eq!(
        gm.read_exact_at_addr(&mut buf, GuestAddress(0x1fff)),
        Err(Error::ShortRead { expected: 4, completed: 1 })
    );
    assert_eq!(buf[0], 5);
    assert_eq!(
        gm.write_at_addr(&[1], GuestAddress(0x3000)),
        Err(Error::InvalidGuestAddress(GuestAddress(0x3000)))
    );
}

#[test]
fn scalar_fit_at_region_end() {
    let mut gm = GuestMemory::new(&[(GuestAddress(0x0), 0x1000)]).unwrap();
    assert_eq!(
        gm.write_obj_at_addr(0x0102030405060708u64, GuestAddress(0xff9)),
        Err(Error::MemoryAccess(
            GuestAddress(0xff9),
            MmapError::InvalidRange(0xff9, 8, 0x1000)
        ))
    );
    assert_eq!(gm.write_obj_at_addr(0x0102030405060708u64, GuestAddress(0xff8)), Ok(()));
    assert_eq!(
        gm.read_obj_from_addr::<u64>(GuestAddress(0xff8)),
        Ok(0x0102030405060708u64)
    );
    let mut bytes = [0u8; 8];
    gm.read_exact_at_addr(&mut bytes, GuestAddress(0xff8)).unwrap();
    assert_eq!(bytes, [8, 7, 6, 5, 4, 3, 2, 1]);
}

#[test]
fn construction_is_deterministic() {
    let ranges = [(GuestAddress(0x0), 0x2000), (GuestAddress(0x4000), 0x1000)];
    let a = GuestMemory::new(&ranges).unwrap();
    let b = GuestMemory::new(&ranges).unwrap();
    for addr in [0x0u64, 0x1fff, 0x2000, 0x3fff, 0x4000, 0x4fff, 0x5000] {
        let addr = GuestAddress(addr);
        assert_eq!(a.address_in_range(addr), b.address_in_range(addr));
        assert_eq!(a.do_in_region(addr), b.do_in_region(addr));
        assert_eq!(a.offset_from_base(addr), b.offset_from_base(addr));
    }
    assert_eq!(a.with_regions(), b.with_regions());
}

#[test]
fn descriptor_export_matches_reads() {
    let mut gm = GuestMemory::new(&[(GuestAddress(0x0), 0x1000), (GuestAddress(0x8000), 0x2000)])
        .unwrap();
    gm.write_all_at_addr(&[0xab, 0xcd], GuestAddress(0x8ffe)).unwrap();
    let off = gm.offset_from_base(GuestAddress(0x8ffe)).unwrap();
    assert_eq!(off, 0x1000 + 0xffe);
    let obj = gm.shm_region(GuestAddress(0x8ffe)).unwrap();
    assert_eq!(obj, BackingObject::Shm { size: 0x3000 });
    assert_eq!(gm.map_object(obj, off, 2).unwrap(), vec![0xab, 0xcd]);
    assert_eq!(gm.offset_region(0x8000), Ok(obj));
    assert_eq!(gm.offset_region(0x4000), Err(Error::InvalidOffset(0x4000)));
    assert_eq!(
        gm.offset_from_base(GuestAddress(0x4000)),
        Err(Error::InvalidGuestAddress(GuestAddress(0x4000)))
    );
}

#[test]
fn region_listing_and_end() {
    let gm = GuestMemory::new(&[(GuestAddress(0x0), 0x1000), (GuestAddress(0x8000), 0x2000)])
        .unwrap();
    assert_eq!(gm.end_addr(), GuestAddress(0xa000));
    assert_eq!(gm.num_regions(), 2);
    assert_eq!(gm.memory_size(), 0x3000);
    assert_eq!(
        gm.with_regions(),
        vec![
            RegionInfo {
                index: 0,
                guest_addr: GuestAddress(0x0),
                size: 0x1000,
                shm: BackingObject::Shm { size: 0x3000 },
                shm_offset: 0,
            },
            RegionInfo {
                index: 1,
                guest_addr: GuestAddress(0x8000),
                size: 0x2000,
                shm: BackingObject::Shm { size: 0x3000 },
                shm_offset: 0x1000,
            },
        ]
    );
}

#[test]
fn from_regions_sorts_and_rejects_overlap() {
    let file: Vec<u8> = (0..0x2000u32).map(|i| (i % 251) as u8).collect();
    let shm = BackingObject::Shm { size: 0x1000 };
    let high = MemoryRegion::new_from_file(0x1000, GuestAddress(0x10000), 0x1000, &file).unwrap();
    let low = MemoryRegion::new_from_shm(0x1000, GuestAddress(0x0), 0, shm).unwrap();
    let gm = GuestMemory::from_regions(vec![high, low]).unwrap();
    let infos = gm.with_regions();
    assert_eq!(infos[0].guest_addr, GuestAddress(0x0));
    assert_eq!(infos[1].guest_addr, GuestAddress(0x10000));
    assert_eq!(gm.read_obj_from_addr::<u8>(GuestAddress(0x10000)), Ok(file[0x1000]));
    assert_eq!(gm.read_obj_from_addr::<u8>(GuestAddress(0x0)), Ok(0));

    let a = MemoryRegion::new_from_shm(0x2000, GuestAddress(0x0), 0, BackingObject::Shm { size: 0x2000 })
        .unwrap();
    let b = MemoryRegion::new_from_shm(0x1000, GuestAddress(0x1000), 0, shm).unwrap();
    assert_eq!(GuestMemory::from_regions(vec![a, b]).unwrap_err(), Error::MemoryRegionOverlap);
}

#[test]
fn region_constructor_errors() {
    let shm = BackingObject::Shm { size: 0x2000 };
    assert_eq!(
        MemoryRegion::new_from_shm(0x1000, GuestAddress(0), 0x800, shm).unwrap_err(),
        Error::MemoryMappingFailed(MmapError::InvalidOffset)
    );
    assert_eq!(
        MemoryRegion::new_from_shm(0x2000, GuestAddress(0), 0x1000, shm).unwrap_err(),
        Error::MemoryMappingFailed(MmapError::InvalidRange(0x1000, 0x2000, 0x2000))
    );
    let r = MemoryRegion::new_from_shm(0x1000, GuestAddress(0x5000), 0x1000, shm).unwrap();
    assert_eq!(r.start(), GuestAddress(0x5000));
    assert_eq!(r.end(), GuestAddress(0x6000));
    assert_eq!(r.size(), 0x1000);
    assert!(r.contains(GuestAddress(0x5fff)));
    assert!(!r.contains(GuestAddress(0x6000)));
    assert_eq!(r.obj_offset(), 0x1000);
}

#[test]
fn slices_and_transfers() {
    let mut gm = GuestMemory::new(&[(GuestAddress(0x0), 0x1000)]).unwrap();
    assert_eq!(
        gm.get_slice_at_addr(GuestAddress(0xf00), 0x100),
        Ok(VolatileSlice { guest_addr: GuestAddress(0xf00), len: 0x100 })
    );
    assert_eq!(
        gm.get_slice_at_addr(GuestAddress(0xf00), 0x101),
        Err(Error::VolatileMemoryAccess(VolatileMemoryError::OutOfBounds { addr: 0x1001 }))
    );
    assert_eq!(
        gm.get_slice_at_addr(GuestAddress(0x1000), 1),
        Err(Error::InvalidGuestAddress(GuestAddress(0x1000)))
    );
    assert_eq!(gm.read_to_memory(GuestAddress(0x10), &[1, 2, 3, 4], 3), Ok(()));
    assert_eq!(gm.write_from_memory(GuestAddress(0x10), 4), Ok(vec![1, 2, 3, 0]));
    assert_eq!(
        gm.read_to_memory(GuestAddress(0x10), &[1], 2),
        Err(Error::ShortRead { expected: 2, completed: 1 })
    );
    assert_eq!(
        gm.write_from_memory(GuestAddress(0xfff), 2),
        Err(Error::MemoryAccess(
            GuestAddress(0xfff),
            MmapError::InvalidRange(0xfff, 2, 0x1000)
        ))
    );
    assert_eq!(gm.get_host_address_range(GuestAddress(0x0), 0), Err(Error::InvalidSize(0)));
}

#[test]
fn containers_from_one_list_are_independent() {
    let ranges = [(GuestAddress(0x0), 0x1000), (GuestAddress(0x2000), 0x1000)];
    let mut a = GuestMemory::new(&ranges).unwrap();
    let b = GuestMemory::new(&ranges).unwrap();
    a.write_all_at_addr(&[1, 2, 3], GuestAddress(0x2000)).unwrap();
    let mut from_b = [9u8; 3];
    b.read_exact_at_addr(&mut from_b, GuestAddress(0x2000)).unwrap();
    assert_eq!(from_b, [0, 0, 0]);
    let mut from_a = [0u8; 3];
    a.read_exact_at_addr(&mut from_a, GuestAddress(0x2000)).unwrap();
    assert_eq!(from_a, [1, 2, 3]);
}

#[test]
fn empty_or_reversed_interval_overlaps_nothing() {
    let gm = GuestMemory::new(&[(GuestAddress(0x0), 0x10000)]).unwrap();
    assert!(!gm.range_overlap(GuestAddress(0x5000), GuestAddress(0x5000)));
    assert!(!gm.range_overlap(GuestAddress(0x6000), GuestAddress(0x5000)));
    assert!(gm.range_overlap(GuestAddress(0x5000), GuestAddress(0x5001)));
}

#[test]
fn slice_reads_and_writes_its_span() {
    let mut gm = GuestMemory::new(&[(GuestAddress(0x0), 0x1000)]).unwrap();
    let s = gm.get_slice_at_addr(GuestAddress(0xffc), 4).unwrap();
    s.write(&mut gm, &[0xde, 0xad]);
    assert_eq!(s.read(&gm), vec![0xde, 0xad, 0, 0]);
    assert_eq!(gm.read_obj_from_addr::<u16>(GuestAddress(0xffc)), Ok(0xadde));
}
