use vm_memory::aarch64::{fdt_offset, get_bios_addr, get_kernel_addr, AArch64, Error as ArchError, MsrHandlers};
use vm_memory::gpu::{
    default_refresh_rate, do_gpu_display_add, do_gpu_display_list, do_gpu_display_remove,
    modify_gpu_result, DisplayMode, DisplayParameters, GpuControlCommand, GpuControlResult,
    ModifyGpuError, VmResponse,
};
use vm_memory::guest_address::GuestAddress;
use vm_memory::guest_memory::{Error as MemError, GuestMemory};
use vm_memory::serial::{LineState, SyncAction, SyncEvent, SyncWorker};

#[test]
fn aarch64_addresses() {
    assert_eq!(get_kernel_addr(), GuestAddress(0x80800000));
    assert_eq!(get_bios_addr(), GuestAddress(0x80200000));
    assert_eq!(fdt_offset(0x1000_0000, true), 0);
    assert_eq!(fdt_offset(0x1000_0000, false), 0x1000_0000 - 0x200000 - 0x10000);
}

#[test]
fn aarch64_layout_builds_guest_memory() {
    let plain = AArch64::guest_memory_layout(0x100000, false);
    assert_eq!(plain, vec![(GuestAddress(0x80000000), 0x100000)]);
    let protected = AArch64::guest_memory_layout(0x100000, true);
    assert_eq!(
        protected,
        vec![
            (GuestAddress(0x80000000), 0x100000),
            (GuestAddress(0x7fc00000), 0x400000)
        ]
    );
    // The firmware range lies below RAM, so the list is not sorted and is refused.
    assert!(GuestMemory::new(&protected).is_err());
    assert!(GuestMemory::new(&plain).is_ok());
}

#[test]
fn aarch64_base_cmdline() {
    assert_eq!(AArch64::get_base_linux_cmdline().as_str(), "panic=-1");
}

#[test]
fn msr_handlers_refuse_everything() {
    let h = MsrHandlers::new();
    assert_eq!(h.read(0x10), None);
    assert_eq!(h.write(0x10, 7), None);
}

#[test]
fn display_parameters() {
    assert_eq!(default_refresh_rate(), 60);
    let p = DisplayParameters::default_with_mode(DisplayMode::Windowed(800, 600));
    assert_eq!(p, DisplayParameters::new(DisplayMode::Windowed(800, 600), false, 60));
    assert_eq!(p.get_virtual_display_size(), (800, 600));
    assert_eq!(DisplayParameters::default().get_virtual_display_size(), (1280, 1024));
}

#[test]
fn gpu_commands_and_results() {
    let p = DisplayParameters::new(DisplayMode::Windowed(640, 480), true, 30);
    match do_gpu_display_add(vec![p]) {
        GpuControlCommand::AddDisplays { displays } => assert_eq!(displays, vec![p]),
        _ => panic!("wrong command"),
    }
    assert!(matches!(do_gpu_display_list(), GpuControlCommand::ListDisplays));
    match do_gpu_display_remove(vec![3, 4]) {
        GpuControlCommand::RemoveDisplays { display_ids } => assert_eq!(display_ids, vec![3, 4]),
        _ => panic!("wrong command"),
    }
    assert!(matches!(modify_gpu_result(Err(())), Err(ModifyGpuError::SocketFailed)));
    assert!(matches!(
        modify_gpu_result(Ok(VmResponse::GpuResponse(GpuControlResult::TooManyDisplays(2)))),
        Ok(GpuControlResult::TooManyDisplays(2))
    ));
    assert!(matches!(
        modify_gpu_result(Ok(VmResponse::Other("ok".to_string()))),
        Err(ModifyGpuError::UnexpectedResponse(VmResponse::Other(_)))
    ));
}

#[test]
fn serial_timestamps_start_each_line() {
    let s = LineState::NeverWritten;
    assert_eq!(s.on_output_byte(false, b'a'), (false, LineState::NeverWritten));
    let (stamp, s) = s.on_output_byte(true, b'a');
    assert!(stamp);
    assert_eq!(s, LineState::Midline);
    let (stamp, s) = s.on_output_byte(true, b'\n');
    assert!(!stamp);
    assert_eq!(s, LineState::Newline);
    assert_eq!(s.on_output_byte(true, b'b'), (true, LineState::Midline));
}

#[test]
fn debugger_memory_access() {
    let mut gm = GuestMemory::new(&[(GuestAddress(0x80000000), 0x2000)]).unwrap();
    assert_eq!(AArch64::write_memory(&mut gm, GuestAddress(0x80001000), &[1, 2, 3]), Ok(()));
    assert_eq!(
        AArch64::read_memory(&gm, GuestAddress(0x80001000), 4),
        Ok(vec![1, 2, 3, 0])
    );
    assert_eq!(
        AArch64::read_memory(&gm, GuestAddress(0x80001ffe), 4),
        Err(ArchError::ReadGuestMemory(MemError::ShortRead { expected: 4, completed: 2 }))
    );
    assert_eq!(
        AArch64::write_memory(&mut gm, GuestAddress(0x1000), &[1]),
        Err(ArchError::WriteGuestMemory(MemError::InvalidGuestAddress(GuestAddress(0x1000))))
    );
}

#[test]
fn sync_worker_flushes_until_killed() {
    let (s, a) = SyncWorker::Idle.run(SyncEvent::Timer);
    assert_eq!((s, a), (SyncWorker::Syncing { stopping: false }, SyncAction::Fsync));
    let (s, a) = s.run(SyncEvent::FsyncDone { ok: true });
    assert_eq!((s, a), (SyncWorker::Idle, SyncAction::Wait));
    let (s, a) = s.run(SyncEvent::Kill);
    assert_eq!((s, a), (SyncWorker::Syncing { stopping: true }, SyncAction::Fsync));
    let (s, a) = s.run(SyncEvent::FsyncDone { ok: true });
    assert_eq!((s, a), (SyncWorker::Stopped, SyncAction::Stop));
    let failed = SyncWorker::Syncing { stopping: false }.run(SyncEvent::FsyncDone { ok: false });
    assert_eq!(failed, (SyncWorker::Stopped, SyncAction::Stop));
}
