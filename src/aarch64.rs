//! The aarch64 guest physical address layout: where RAM, the kernel, the BIOS, the device
//! tree and the protected-VM firmware go.
use vstd::prelude::*;

use crate::guest_address::GuestAddress;
use crate::guest_memory::{addr_in, read_at, room_at, write_at, Error as GuestMemoryError, GuestMemory};
use crate::kernel_cmdline::Cmdline;

verus! {

/// The kernel is placed 8 MiB into RAM.
pub const AARCH64_KERNEL_OFFSET: u64 = 0x800000;

pub const AARCH64_FDT_MAX_SIZE: u64 = 0x200000;

/// The start of DRAM inside the physical address space.
pub const AARCH64_PHYS_MEM_START: u64 = 0x80000000;

/// The device tree is placed at the front of RAM when booting in BIOS mode.
pub const AARCH64_FDT_OFFSET_IN_BIOS_MODE: u64 = 0x0;

/// The BIOS is placed after the device tree in memory.
pub const AARCH64_BIOS_OFFSET: u64 = 0x200000;

pub const AARCH64_PROTECTED_VM_FW_MAX_SIZE: u64 = 0x400000;

/// The protected-VM firmware sits just below RAM.
pub const AARCH64_PROTECTED_VM_FW_START: u64 = 0x7fc00000;

/// The page size the base kernel command line is bounded by.
pub const AARCH64_CMDLINE_CAPACITY: usize = 4096;

/// The aarch64 architecture.
pub struct AArch64;

/// Why a debugger's access to guest memory failed.
#[derive(Clone, Copy, Debug, PartialEq, Eq, Structural)]
pub enum Error {
    ReadGuestMemory(GuestMemoryError),
    WriteGuestMemory(GuestMemoryError),
}

/// The guest address where the kernel image is loaded.
pub fn get_kernel_addr() -> (r: GuestAddress)
    ensures
        r.0 == AARCH64_PHYS_MEM_START + AARCH64_KERNEL_OFFSET,
{
    GuestAddress(AARCH64_PHYS_MEM_START + AARCH64_KERNEL_OFFSET)
}

/// The guest address where the BIOS image is loaded.
pub fn get_bios_addr() -> (r: GuestAddress)
    ensures
        r.0 == AARCH64_PHYS_MEM_START + AARCH64_BIOS_OFFSET,
{
    GuestAddress(AARCH64_PHYS_MEM_START + AARCH64_BIOS_OFFSET)
}

/// The offset in RAM of the device tree: at the front when booting a BIOS, else near the
/// top of a RAM of `mem_size` bytes, which must then hold the tree and 64 KiB more.
pub fn fdt_offset(mem_size: u64, has_bios: bool) -> (r: u64)
    requires
        !has_bios ==> mem_size >= AARCH64_FDT_MAX_SIZE + 0x10000,
    ensures
        has_bios ==> r == AARCH64_FDT_OFFSET_IN_BIOS_MODE,
        !has_bios ==> r == mem_size - AARCH64_FDT_MAX_SIZE - 0x10000,
{
    if has_bios {
        AARCH64_FDT_OFFSET_IN_BIOS_MODE
    } else {
        mem_size - AARCH64_FDT_MAX_SIZE - 0x10000
    }
}

impl AArch64 {
    /// The flat range list of guest memory: RAM of `memory_size` bytes at the start of
    /// DRAM, then, when the VM runs protected firmware, the firmware's region.
    pub fn guest_memory_layout(memory_size: u64, has_protected_firmware: bool) -> (r: Vec<
        (GuestAddress, u64),
    >)
        ensures
            !has_protected_firmware ==> r@ == seq![(GuestAddress(AARCH64_PHYS_MEM_START), memory_size)],
            has_protected_firmware ==> r@ == seq![
                (GuestAddress(AARCH64_PHYS_MEM_START), memory_size),
                (GuestAddress(AARCH64_PROTECTED_VM_FW_START), AARCH64_PROTECTED_VM_FW_MAX_SIZE),
            ],
    {
        let mut regions: Vec<(GuestAddress, u64)> = Vec::new();
        regions.push((GuestAddress(AARCH64_PHYS_MEM_START), memory_size));
        if has_protected_firmware {
            regions.push(
                (GuestAddress(AARCH64_PROTECTED_VM_FW_START), AARCH64_PROTECTED_VM_FW_MAX_SIZE),
            );
        }
        assert(regions@ =~= (if has_protected_firmware {
            seq![
                (GuestAddress(AARCH64_PHYS_MEM_START), memory_size),
                (GuestAddress(AARCH64_PROTECTED_VM_FW_START), AARCH64_PROTECTED_VM_FW_MAX_SIZE),
            ]
        } else {
            seq![(GuestAddress(AARCH64_PHYS_MEM_START), memory_size)]
        }));
        regions
    }

    /// Reads `len` bytes of guest memory at `vaddr` for a debugger; they must all lie in the
    /// region that contains `vaddr`.
    pub fn read_memory(guest_mem: &GuestMemory, vaddr: GuestAddress, len: usize) -> (r: Result<
        Vec<u8>,
        Error,
    >)
        requires
            guest_mem.inv(),
        ensures
            !addr_in(guest_mem@, vaddr.0 as int) ==> r == Err::<Vec<u8>, Error>(
                Error::ReadGuestMemory(GuestMemoryError::InvalidGuestAddress(vaddr)),
            ),
            addr_in(guest_mem@, vaddr.0 as int) && len > room_at(guest_mem@, vaddr.0 as int)
                ==> r == Err::<Vec<u8>, Error>(
                Error::ReadGuestMemory(
                    GuestMemoryError::ShortRead {
                        expected: len as u64,
                        completed: room_at(guest_mem@, vaddr.0 as int) as u64,
                    },
                ),
            ),
            addr_in(guest_mem@, vaddr.0 as int) && len <= room_at(guest_mem@, vaddr.0 as int)
                ==> r is Ok && r->Ok_0@ == read_at(guest_mem@, vaddr.0 as int, len as int),
    {
        let mut buf: Vec<u8> = Vec::new();
        let mut k: usize = 0;
        while k < len
            invariant
                k <= len,
                buf@.len() == k,
            decreases len - k,
        {
            buf.push(0u8);
            k = k + 1;
        }
        match guest_mem.read_exact_at_addr(buf.as_mut_slice(), vaddr) {
            Ok(()) => Ok(buf),
            Err(e) => Err(Error::ReadGuestMemory(e)),
        }
    }

    /// Writes all of `buf` into guest memory at `vaddr` for a debugger.
    pub fn write_memory(guest_mem: &mut GuestMemory, vaddr: GuestAddress, buf: &[u8]) -> (r:
        Result<(), Error>)
        requires
            old(guest_mem).inv(),
        ensures
            final(guest_mem).inv(),
            !addr_in(old(guest_mem)@, vaddr.0 as int) ==> r == Err::<(), Error>(
                Error::WriteGuestMemory(GuestMemoryError::InvalidGuestAddress(vaddr)),
            ) && final(guest_mem)@ == old(guest_mem)@,
            addr_in(old(guest_mem)@, vaddr.0 as int) ==> final(guest_mem)@ == write_at(
                old(guest_mem)@,
                vaddr.0 as int,
                buf@,
            ),
            addr_in(old(guest_mem)@, vaddr.0 as int) && buf@.len() > room_at(
                old(guest_mem)@,
                vaddr.0 as int,
            ) ==> r == Err::<(), Error>(
                Error::WriteGuestMemory(
                    GuestMemoryError::ShortWrite {
                        expected: buf@.len() as u64,
                        completed: room_at(old(guest_mem)@, vaddr.0 as int) as u64,
                    },
                ),
            ),
            addr_in(old(guest_mem)@, vaddr.0 as int) && buf@.len() <= room_at(
                old(guest_mem)@,
                vaddr.0 as int,
            ) ==> r == Ok::<(), Error>(()),
    {
        match guest_mem.write_all_at_addr(buf, vaddr) {
            Ok(()) => Ok(()),
            Err(e) => Err(Error::WriteGuestMemory(e)),
        }
    }

    /// The base part of the kernel command line for this architecture: `panic=-1`.
    pub fn get_base_linux_cmdline() -> (r: Cmdline)
        ensures
            r.wf(),
            r.line() == "panic=-1"@,
    {
        let mut cmdline = Cmdline::new(AARCH64_CMDLINE_CAPACITY);
        proof {
            reveal_strlit("panic=-1");
        }
        let _ = cmdline.insert_str("panic=-1");
        cmdline
    }
}

/// Model-specific register handlers; aarch64 has none, so every access is refused.
pub struct MsrHandlers;

impl MsrHandlers {
    pub fn new() -> (r: Self) {
        Self {  }
    }

    /// Reads register `index`: always `None`.
    pub fn read(&self, index: u32) -> (r: Option<u64>)
        ensures
            r is None,
    {
        None
    }

    /// Writes `data` to register `index`: always `None`.
    pub fn write(&self, index: u32, data: u64) -> (r: Option<()>)
        ensures
            r is None,
    {
        None
    }
}

} // verus!
