//! Emulation support for a small ARM microcontroller: a memory-mapped I/O
//! fabric with per-peripheral register tables, a NOR-flash controller state
//! machine, an ARM semihosting handler, firmware image loaders, and the
//! bootloader logic that runs on such a device.

pub mod bytes;
pub mod device;
pub mod elfload;
pub mod errors;
pub mod flash;
pub mod intelhex;
pub mod lz4;
pub mod mspm0;
pub mod nanoboot;
pub mod peripherals;
pub mod regs;
pub mod semihost;
pub mod session;
