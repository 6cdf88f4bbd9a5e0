//! Values that pass between the firmware adapters and the boot logic.

use vstd::prelude::*;

verus! {

/// The firmware's hardware descriptor, staged at `base` with `size` bytes.
#[derive(Clone, Copy, Debug, PartialEq, Eq, Structural)]
pub enum OsHwDesc {
    Acpi(u64, u64),
    DeviceTree(u64, u64),
    NotFound,
}

/// A keystroke.
#[derive(Clone, Copy, Debug, PartialEq, Eq, Structural)]
pub enum OsKey {
    Left,
    Right,
    Up,
    Down,
    Backspace,
    Delete,
    Enter,
    Char(char),
    Other,
}

/// A video mode: `stride` is in pixels per scanline, and `base`, the
/// framebuffer's physical address, is meaningful once the mode is set.
#[derive(Clone, Copy, Debug, PartialEq, Eq, Structural)]
pub struct OsVideoMode {
    pub id: u32,
    pub width: u32,
    pub height: u32,
    pub stride: u32,
    pub base: u64,
}

impl OsHwDesc {
    /// The staged region, or zeros when nothing was found.
    pub fn region(&self) -> (r: (u64, u64))
        ensures
            r == match *self {
                OsHwDesc::Acpi(b, s) => (b, s),
                OsHwDesc::DeviceTree(b, s) => (b, s),
                OsHwDesc::NotFound => (0u64, 0u64),
            },
    {
        match *self {
            OsHwDesc::Acpi(b, s) => (b, s),
            OsHwDesc::DeviceTree(b, s) => (b, s),
            OsHwDesc::NotFound => (0, 0),
        }
    }
}

} // verus!
