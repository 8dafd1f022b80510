//! Guest physical memory for a virtual machine monitor: the guest address type, the
//! regions that back guest physical memory, and the container that translates guest
//! addresses and performs bounds-checked I/O on them, with the laws they obey.
//!
//! Around it stand the pieces of VM set-up that feed it or read from it: the aarch64
//! memory layout, the kernel command line builder, the EDID block and display parameters
//! of the virtual GPU, and the timestamping of serial output.
pub mod guest_address;
pub mod guest_memory;
pub mod plain_data;
pub mod layout_laws;
pub mod kernel_cmdline;
pub mod gpu;
pub mod aarch64;
pub mod serial;
pub mod edid;
