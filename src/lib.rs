//! Core logic of a multi-firmware stage-2 bootloader: memory-area bookkeeping,
//! page-table construction, boot-environment assembly, video-mode selection and
//! the parsing of firmware and image data, each stated and proved with Verus.

pub mod area;
pub mod kernel_args;
pub mod os;

pub mod paging;
pub mod paging_aarch64;
pub mod paging_riscv64;
pub mod paging_x86;
pub mod paging_x86_64;
pub mod cpu;

pub mod thunk;
pub mod disk;
pub mod firmware;
pub mod acpi;
pub mod hwdesc;
pub mod device;

pub mod image;
pub mod password;
pub mod select;
pub mod env;
