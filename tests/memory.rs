use redox_bootloader::area::{area_add, AreaError, AreaTable, OsMemoryEntry, OsMemoryKind, AREA_CAPACITY};
use redox_bootloader::paging::{FrameAlloc, PageTables};
use redox_bootloader::paging_riscv64;
use redox_bootloader::paging_aarch64;
use redox_bootloader::paging_x86;
use redox_bootloader::paging_x86_64::{
    paging_create, paging_create_frames, paging_framebuffer, KERNEL_BASE, PHYS_OFFSET,
};

fn entry(base: u64, size: u64, kind: OsMemoryKind) -> OsMemoryEntry {
    OsMemoryEntry { base, size, kind }
}

#[test]
fn area_merges_adjacent_free_regions() {
    let mut t = AreaTable::new();
    assert_eq!(area_add(&mut t, entry(0x1000, 0x1000, OsMemoryKind::Free)), Ok(()));
    assert_eq!(area_add(&mut t, entry(0x2000, 0x1000, OsMemoryKind::Free)), Ok(()));
    assert_eq!(t.entries(), &[entry(0x1000, 0x2000, OsMemoryKind::Free)]);
}

#[test]
fn area_merges_region_in_front() {
    let mut t = AreaTable::new();
    area_add(&mut t, entry(0x2000, 0x1000, OsMemoryKind::Free)).unwrap();
    area_add(&mut t, entry(0x1000, 0x1000, OsMemoryKind::Free)).unwrap();
    assert_eq!(t.entries(), &[entry(0x1000, 0x2000, OsMemoryKind::Free)]);
}

#[test]
fn area_keeps_kinds_apart() {
    let mut t = AreaTable::new();
    area_add(&mut t, entry(0x1000, 0x1000, OsMemoryKind::Free)).unwrap();
    area_add(&mut t, entry(0x2000, 0x1000, OsMemoryKind::Reserved)).unwrap();
    assert_eq!(t.len(), 2);
}

#[test]
fn area_adjacent_order_does_not_matter() {
    let a = entry(0x10_0000, 0x3000, OsMemoryKind::Reclaim);
    let b = entry(0x10_3000, 0x5000, OsMemoryKind::Reclaim);
    let other = entry(0x40_0000, 0x1000, OsMemoryKind::Reserved);
    let mut t1 = AreaTable::new();
    area_add(&mut t1, other).unwrap();
    area_add(&mut t1, a).unwrap();
    area_add(&mut t1, b).unwrap();
    let mut t2 = AreaTable::new();
    area_add(&mut t2, other).unwrap();
    area_add(&mut t2, b).unwrap();
    area_add(&mut t2, a).unwrap();
    assert_eq!(t1.entries(), t2.entries());
    assert_eq!(t1.entries()[1], entry(0x10_0000, 0x8000, OsMemoryKind::Reclaim));
}

#[test]
fn area_full_table_is_reported() {
    let mut t = AreaTable::new();
    for i in 0..AREA_CAPACITY as u64 {
        area_add(&mut t, entry(i * 0x2000, 0x1000, OsMemoryKind::Free)).unwrap();
    }
    assert_eq!(t.len(), AREA_CAPACITY);
    let far = entry(0x1_0000_0000, 0x1000, OsMemoryKind::Free);
    assert_eq!(area_add(&mut t, far), Err(AreaError::Overflow));
    assert_eq!(t.len(), AREA_CAPACITY);
    // A region that merges still fits.
    assert_eq!(area_add(&mut t, entry(0x1000, 0x1000, OsMemoryKind::Free)), Ok(()));
    assert_eq!(t.entries()[0], entry(0, 0x2000, OsMemoryKind::Free));
}

/// Walks the tables the way the processor does.
fn walk(t: &PageTables, root: u64, v: u64) -> Option<u64> {
    let frame = |p: u64| t.frames().iter().find(|f| f.phys == p).map(|f| f.entries.clone());
    let mask = 0x000F_FFFF_FFFF_F000u64;
    let e4 = frame(root)?[((v >> 39) & 0x1ff) as usize];
    if e4 & 1 == 0 {
        return None;
    }
    let e3 = frame(e4 & mask)?[((v >> 30) & 0x1ff) as usize];
    if e3 & 1 == 0 {
        return None;
    }
    let e2 = frame(e3 & mask)?[((v >> 21) & 0x1ff) as usize];
    if e2 & 1 == 0 {
        return None;
    }
    if e2 & 0x80 != 0 {
        return Some((e2 & 0x000F_FFFF_FFE0_0000) | (v & 0x1f_ffff));
    }
    let e1 = frame(e2 & mask)?[((v >> 12) & 0x1ff) as usize];
    if e1 & 1 == 0 {
        return None;
    }
    Some((e1 & mask) | (v & 0xfff))
}

#[test]
fn paging_maps_identity_and_kernel() {
    let kernel_phys = 0x20_0000u64;
    let kernel_size = 0x30_1234u64;
    let mut alloc = FrameAlloc::new(0x100_0000, 0x40_0000);
    let (t, root) = paging_create(&mut alloc, kernel_phys, kernel_size).unwrap();
    assert_eq!(root, 0x100_0000);
    assert_eq!(paging_create_frames(kernel_size), 14);
    assert_eq!(t.frames().len(), 14);
    for p in [0u64, 0x1234, 0x20_0000, 0x1_2345_6789, 0x1_FFFF_FFFF] {
        assert_eq!(walk(&t, root, p + PHYS_OFFSET), Some(p));
        assert_eq!(walk(&t, root, p), Some(p));
    }
    assert_eq!(walk(&t, root, 0x2_0000_0000 + PHYS_OFFSET), None);
    for k in [0u64, 1, 0xfff, 0x1000, 0x20_0000, kernel_size - 1] {
        assert_eq!(walk(&t, root, KERNEL_BASE + k), Some(kernel_phys + k));
    }
    assert_eq!(KERNEL_BASE, 0xFFFF_FF7F_8000_0000);
}

#[test]
fn paging_create_needs_enough_frames() {
    let mut alloc = FrameAlloc::new(0x100_0000, 12 * 4096);
    assert!(paging_create(&mut alloc, 0x20_0000, 0x1000).is_none());
    assert_eq!(alloc.free_pages(), 12);
}

#[test]
fn framebuffer_below_identity_limit_is_free() {
    let mut alloc = FrameAlloc::new(0x100_0000, 0x40_0000);
    let (mut t, root) = paging_create(&mut alloc, 0x20_0000, 0x1000).unwrap();
    let before = alloc.free_pages();
    let frames = t.frames().len();
    let virt = paging_framebuffer(&mut t, &mut alloc, root, 0x8000_0000, 1024 * 768 * 4).unwrap();
    assert_eq!(virt, 0x8000_0000 + PHYS_OFFSET);
    assert_eq!(alloc.free_pages(), before);
    assert_eq!(t.frames().len(), frames);
}

#[test]
fn framebuffer_above_identity_limit_is_mapped() {
    let mut alloc = FrameAlloc::new(0x100_0000, 0x40_0000);
    let (mut t, root) = paging_create(&mut alloc, 0x20_0000, 0x1000).unwrap();
    let before = alloc.free_pages();
    let base = 0x3_0000_0000u64;
    let size = 1920 * 1080 * 4;
    let virt = paging_framebuffer(&mut t, &mut alloc, root, base, size).unwrap();
    assert_eq!(virt, base + PHYS_OFFSET);
    assert_eq!(before - alloc.free_pages(), 1);
    for f in [0u64, 0x1000, 0x20_0000, size - 1] {
        assert_eq!(walk(&t, root, virt + f), Some(base + f));
    }
    // The kernel mapping is untouched.
    assert_eq!(walk(&t, root, KERNEL_BASE), Some(0x20_0000));
}

#[test]
fn framebuffer_across_a_gigabyte_boundary() {
    let mut alloc = FrameAlloc::new(0x100_0000, 0x40_0000);
    let (mut t, root) = paging_create(&mut alloc, 0x20_0000, 0x1000).unwrap();
    let before = alloc.free_pages();
    let base = 0x3_3FE0_0000u64;
    let size = 0x40_0000u64;
    let virt = paging_framebuffer(&mut t, &mut alloc, root, base, size).unwrap();
    assert_eq!(before - alloc.free_pages(), 2);
    for f in [0u64, 0x1f_ffff, 0x20_0000, size - 1] {
        assert_eq!(walk(&t, root, virt + f), Some(base + f));
    }
}

#[test]
fn framebuffer_without_frames_fails_cleanly() {
    let mut alloc = FrameAlloc::new(0x100_0000, 13 * 4096);
    let (mut t, root) = paging_create(&mut alloc, 0x20_0000, 0x1000).unwrap();
    assert_eq!(alloc.free_pages(), 0);
    let frames = t.frames().len();
    assert!(paging_framebuffer(&mut t, &mut alloc, root, 0x3_0000_0000, 0x1000).is_none());
    assert_eq!(t.frames().len(), frames);
}

#[test]
fn frame_allocator_reports_used_area() {
    let mut alloc = FrameAlloc::new(0x100_0000, 0x10_0000);
    assert_eq!(alloc.alloc_pages(3), Some(0x100_0000));
    let used = alloc.used_area();
    assert_eq!(used, entry(0x100_0000, 0x3000, OsMemoryKind::Reclaim));
    assert_eq!(alloc.alloc_pages(0x100), None);
}

/// Walks Sv48 tables the way the processor does.
fn walk_sv48(t: &PageTables, root: u64, v: u64) -> Option<u64> {
    let frame = |p: u64| t.frames().iter().find(|f| f.phys == p).map(|f| f.entries.clone());
    let addr = |e: u64| ((e >> 10) & 0xFFF_FFFF_FFFF) << 12;
    let e0 = frame(root)?[((v >> 39) & 0x1ff) as usize];
    if e0 & 1 == 0 || e0 & 0xE != 0 {
        return None;
    }
    let e1 = frame(addr(e0))?[((v >> 30) & 0x1ff) as usize];
    if e1 & 1 == 0 {
        return None;
    }
    if e1 & 0xE != 0 {
        return Some((addr(e1) & !0x3fff_ffff) | (v & 0x3fff_ffff));
    }
    let e2 = frame(addr(e1))?[((v >> 21) & 0x1ff) as usize];
    if e2 & 1 == 0 {
        return None;
    }
    if e2 & 0xE != 0 {
        return Some((addr(e2) & !0x1f_ffff) | (v & 0x1f_ffff));
    }
    let e3 = frame(addr(e2))?[((v >> 12) & 0x1ff) as usize];
    if e3 & 1 == 0 || e3 & 0xE == 0 {
        return None;
    }
    Some(addr(e3) | (v & 0xfff))
}

#[test]
fn riscv_paging_maps_identity_and_kernel() {
    let kernel_phys = 0x8020_0000u64;
    let kernel_size = 0x40_2000u64;
    let mut alloc = FrameAlloc::new(0x9000_0000, 0x40_0000);
    let (t, root) = paging_riscv64::paging_create(&mut alloc, kernel_phys, kernel_size).unwrap();
    assert_eq!(paging_riscv64::paging_create_frames(kernel_size), 3 + 1 + 3);
    for p in [0u64, 0x8000_1234, 0x1_FFFF_FFFF] {
        assert_eq!(walk_sv48(&t, root, p + paging_riscv64::PHYS_OFFSET), Some(p));
        assert_eq!(walk_sv48(&t, root, p), Some(p));
    }
    for k in [0u64, 0x1000, 0x20_0000, 0x40_0000, kernel_size - 1] {
        assert_eq!(walk_sv48(&t, root, paging_riscv64::KERNEL_BASE + k), Some(kernel_phys + k));
    }
}

#[test]
fn riscv_physmem_above_identity_limit() {
    let mut alloc = FrameAlloc::new(0x9000_0000, 0x40_0000);
    let (mut t, root) = paging_riscv64::paging_create(&mut alloc, 0x8020_0000, 0x1000).unwrap();
    let before = alloc.free_pages();
    let base = 0x3_0000_0000u64;
    let size = 1920 * 1080 * 4;
    let virt = paging_riscv64::paging_physmem(&mut t, &mut alloc, root, base, size).unwrap();
    assert_eq!(virt, base + paging_riscv64::PHYS_OFFSET);
    assert_eq!(before - alloc.free_pages(), 1);
    for f in [0u64, 0x20_0000, size - 1] {
        assert_eq!(walk_sv48(&t, root, virt + f), Some(base + f));
    }
    assert_eq!(paging_riscv64::paging_physmem(&mut t, &mut alloc, root, 0x1000, 0x1000), Some(0x1000 + paging_riscv64::PHYS_OFFSET));
}

/// Walks AArch64 tables; returns the final descriptor and the address.
fn walk_aarch64(t: &PageTables, root: u64, v: u64) -> Option<(u64, u64)> {
    let frame = |p: u64| t.frames().iter().find(|f| f.phys == p).map(|f| f.entries.clone());
    let mask = 0x000F_FFFF_FFFF_F000u64;
    let e0 = frame(root)?[((v >> 39) & 0x1ff) as usize];
    if e0 & 3 != 3 {
        return None;
    }
    let e1 = frame(e0 & mask)?[((v >> 30) & 0x1ff) as usize];
    if e1 & 3 != 3 {
        return None;
    }
    let e2 = frame(e1 & mask)?[((v >> 21) & 0x1ff) as usize];
    if e2 & 1 == 0 {
        return None;
    }
    if e2 & 2 == 0 {
        return Some((e2, (e2 & 0x000F_FFFF_FFE0_0000) | (v & 0x1f_ffff)));
    }
    let e3 = frame(e2 & mask)?[((v >> 12) & 0x1ff) as usize];
    if e3 & 3 != 3 {
        return None;
    }
    Some((e3, (e3 & mask) | (v & 0xfff)))
}

#[test]
fn aarch64_paging_maps_ram_and_devices() {
    let kernel_phys = 0x4020_0000u64;
    let kernel_size = 0x21_0000u64;
    let dev = [(0x0800_0000u64, 0x0100_0000u64)];
    let mut alloc = FrameAlloc::new(0x5000_0000, 0x40_0000);
    let (t, root) = paging_aarch64::paging_create(&mut alloc, kernel_phys, kernel_size, &dev).unwrap();
    assert_eq!(paging_aarch64::paging_create_frames(kernel_size), 11 + 1 + 2);
    let attr = |e: u64| (e >> 2) & 7;
    let (e, p) = walk_aarch64(&t, root, 0x0812_3456 + paging_aarch64::PHYS_OFFSET).unwrap();
    assert_eq!((p, attr(e)), (0x0812_3456, 2));
    let (e, p) = walk_aarch64(&t, root, 0x4000_0010).unwrap();
    assert_eq!((p, attr(e)), (0x4000_0010, 0));
    for k in [0u64, 0x1000, 0x20_0000, kernel_size - 1] {
        let (e, p) = walk_aarch64(&t, root, paging_aarch64::KERNEL_BASE + k).unwrap();
        assert_eq!((p, attr(e)), (kernel_phys + k, 0));
    }
}

/// Walks 32-bit x86 tables, whose 32-bit entries lie in pairs in the words.
fn walk_x86(t: &PageTables, root: u64, v: u32) -> Option<u32> {
    let entry = |p: u64, i: u32| -> Option<u32> {
        let f = t.frames().iter().find(|f| f.phys == p)?;
        let w = f.entries[(i / 2) as usize];
        Some(if i % 2 == 0 { w as u32 } else { (w >> 32) as u32 })
    };
    let pde = entry(root, v >> 22)?;
    if pde & 1 == 0 {
        return None;
    }
    if pde & 0x80 != 0 {
        return Some((pde & 0xFFC0_0000) | (v & 0x3F_FFFF));
    }
    let pte = entry((pde & 0xFFFF_F000) as u64, (v >> 12) & 0x3ff)?;
    if pte & 1 == 0 {
        return None;
    }
    Some((pte & 0xFFFF_F000) | (v & 0xfff))
}

#[test]
fn x86_paging_maps_identity_and_kernel() {
    let kernel_phys = 0x40_0000u64;
    let kernel_size = 0x50_0800u64;
    let mut alloc = FrameAlloc::new(0x100_0000, 0x10_0000);
    let (t, root) = paging_x86::paging_create(&mut alloc, kernel_phys, kernel_size).unwrap();
    assert_eq!(paging_x86::paging_create_frames(kernel_size), 3);
    for p in [0u32, 0x1234, 0x3FFF_FFFF] {
        assert_eq!(walk_x86(&t, root, p), Some(p));
        assert_eq!(walk_x86(&t, root, p + paging_x86::PHYS_OFFSET), Some(p));
    }
    for k in [0u32, 0xfff, 0x40_0000, (kernel_size - 1) as u32] {
        assert_eq!(walk_x86(&t, root, paging_x86::KERNEL_BASE + k), Some(kernel_phys as u32 + k));
    }
    assert_eq!(walk_x86(&t, root, paging_x86::FRAMEBUFFER_BASE), None);
}

#[test]
fn x86_framebuffer_is_mapped_at_its_window() {
    let mut alloc = FrameAlloc::new(0x100_0000, 0x10_0000);
    let (mut t, root) = paging_x86::paging_create(&mut alloc, 0x40_0000, 0x1000).unwrap();
    let before = alloc.free_pages();
    let base = 0xE000_0000u64;
    let size = 1024 * 768 * 4;
    let virt = paging_x86::paging_framebuffer(&mut t, &mut alloc, root, base, size).unwrap();
    assert_eq!(virt, 0xD000_0000);
    assert_eq!(before - alloc.free_pages(), 1);
    for f in [0u32, 0x1234, (size - 1) as u32] {
        assert_eq!(walk_x86(&t, root, paging_x86::FRAMEBUFFER_BASE + f), Some(base as u32 + f));
    }
    assert_eq!(walk_x86(&t, root, paging_x86::KERNEL_BASE), Some(0x40_0000));
}

#[test]
fn aarch64_framebuffer_above_identity_limit() {
    let mut alloc = FrameAlloc::new(0x5000_0000, 0x40_0000);
    let (mut t, root) = paging_aarch64::paging_create(&mut alloc, 0x4020_0000, 0x1000, &[]).unwrap();
    let before = alloc.free_pages();
    let base = 0x3_0000_0000u64;
    let size = 1920 * 1080 * 4;
    let virt = paging_aarch64::paging_framebuffer(&mut t, &mut alloc, root, base, size).unwrap();
    assert_eq!(virt, base + paging_aarch64::PHYS_OFFSET);
    assert_eq!(before - alloc.free_pages(), 1);
    for f in [0u64, 0x20_0000, size - 1] {
        let (e, p) = walk_aarch64(&t, root, virt + f).unwrap();
        assert_eq!((p, (e >> 2) & 7), (base + f, 0));
    }
}
