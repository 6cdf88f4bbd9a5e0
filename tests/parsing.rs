use redox_bootloader::acpi::{search_rsdp, validate_rsdp, RsdpError, Rsdp, Xsdp};
use redox_bootloader::device::{
    device_path_relation, disk_device_priority, parse_device_path, DevicePathNode, DevicePathRelation,
};
use redox_bootloader::disk::{
    chs_read_frame, ext_present, geometry_from, live_range, needs_bounce, read_plan, DiskAddressPacket, DiskEfi,
    DiskError,
};
use redox_bootloader::firmware::{
    bios_key, distinct_outputs, e820_entry, efi_best_resolution, e820_frame, e820_kind, edid_resolution, efi_key, find_heap, max_text_mode, vbe_mode,
    FirmwareError, MemoryMapIter, MemoryMapError, VbeCardInfo, VbeFarPtr, VideoModeIter,
};
use redox_bootloader::area::{OsMemoryEntry, OsMemoryKind};
use redox_bootloader::image::{elf_entry, has_magic, page_aligned_size, ElfError, Filetype};
use redox_bootloader::os::OsKey;
use redox_bootloader::thunk::ThunkData;

#[test]
fn elf_entry_points() {
    let mut h = vec![0u8; 0x40];
    h[..4].copy_from_slice(b"\x7FELF");
    h[4] = 2;
    h[5] = 1;
    h[0x18..0x20].copy_from_slice(&0xFFFF_FFFF_8010_0000u64.to_le_bytes());
    assert!(has_magic(&h, Filetype::Elf));
    assert!(!has_magic(&h, Filetype::Initfs));
    assert_eq!(elf_entry(&h), Ok((0xFFFF_FFFF_8010_0000, true)));
    h[4] = 1;
    h[5] = 2;
    h[0x18..0x1c].copy_from_slice(&0xC010_0000u32.to_be_bytes());
    assert_eq!(elf_entry(&h), Ok((0xC010_0000, false)));
    h[4] = 3;
    assert_eq!(elf_entry(&h), Err(ElfError::Unsupported { class: 3, data: 2 }));
    assert_eq!(elf_entry(&h[..0x10]), Err(ElfError::Truncated));
    assert!(has_magic(b"RedoxFtw....", Filetype::Initfs));
    assert!(!has_magic(b"Redox", Filetype::Initfs));
    assert_eq!(page_aligned_size(5000), 8192);
    assert_eq!(page_aligned_size(4096), 4096);
}

fn rsdp_v1() -> Vec<u8> {
    let mut b = vec![0u8; 20];
    b[..8].copy_from_slice(b"RSD PTR ");
    b[9..15].copy_from_slice(b"BOCHS ");
    let sum: u8 = b.iter().fold(0u8, |a, x| a.wrapping_add(*x));
    b[8] = 0u8.wrapping_sub(sum);
    b
}

#[test]
fn rsdp_validation() {
    let v1 = rsdp_v1();
    assert_eq!(validate_rsdp(&v1), Ok(20));
    let mut bad = v1.clone();
    bad[8] = bad[8].wrapping_add(1);
    assert_eq!(validate_rsdp(&bad), Err(RsdpError::BadChecksum));
    let mut sig = v1.clone();
    sig[0] = b'X';
    assert_eq!(validate_rsdp(&sig), Err(RsdpError::BadSignature));
    assert_eq!(validate_rsdp(&v1[..10]), Err(RsdpError::Truncated));
    let mut v2 = v1.clone();
    v2[15] = 2;
    v2[8] = v2[8].wrapping_sub(2);
    v2.extend_from_slice(&[0u8; 16]);
    v2[20..24].copy_from_slice(&36u32.to_le_bytes());
    assert_eq!(validate_rsdp(&v2), Err(RsdpError::BadExtendedChecksum));
    let sum: u8 = v2.iter().fold(0u8, |a, x| a.wrapping_add(*x));
    v2[32] = 0u8.wrapping_sub(sum);
    assert_eq!(validate_rsdp(&v2), Ok(36));
    let x = Xsdp::from_bytes(&v2).unwrap();
    assert_eq!(x.length, 36);
    assert_eq!(Rsdp::from_bytes(&v1).unwrap().revision, 0);
}

#[test]
fn rsdp_scan_finds_aligned_signature() {
    let mut mem = vec![0u8; 0x100];
    mem[0x13..0x13 + 20].copy_from_slice(&rsdp_v1());
    mem[0x45..0x45 + 20].copy_from_slice(&rsdp_v1());
    assert_eq!(search_rsdp(&mem, 0xE0000), None);
    mem[0x50..0x50 + 20].copy_from_slice(&rsdp_v1());
    assert_eq!(search_rsdp(&mem, 0xE0000), Some((0xE0050, 20)));
    assert_eq!(search_rsdp(&mem[0x3..], 0xE0003), Some((0xE0050, 20)));
}

#[test]
fn disk_address_packet_and_chs() {
    let dap = DiskAddressPacket::from_block(0x200, 15);
    assert_eq!(dap.sectors, 120);
    assert_eq!(dap.address, 0x1000);
    assert_eq!(dap.segment, 0x7000);
    assert_eq!(dap.buffer, 0);
    let frame = chs_read_frame(0x80, &dap, 16, 63).unwrap();
    // Sector 0x1000 = 4096: track 65, sector 2; head 1, cylinder 4.
    assert_eq!(frame.eax, 0x0200 | 120);
    assert_eq!(frame.ecx & 0x3f, 2);
    assert_eq!(frame.ecx >> 8, 4);
    assert_eq!(frame.edx, 0x80 | (1 << 8));
    let far = DiskAddressPacket::from_block(0x100_0000, 1);
    assert_eq!(chs_read_frame(0x80, &far, 16, 63), Err(DiskError::OutOfGeometry));
}

#[test]
fn disk_probe_and_geometry() {
    let mut probe = ThunkData::new();
    probe.ebx = 0xAA55;
    assert!(ext_present(&probe));
    probe.ebx = 0x55AA;
    assert!(!ext_present(&probe));
    let mut g = ThunkData::new();
    g.ecx = 0xFFFF;
    g.edx = 0x0F00;
    assert_eq!(geometry_from(&g), Ok((1023, 16, 63)));
    g.eax = 0x0100;
    assert_eq!(geometry_from(&g), Err(DiskError::Bios(1)));
}

#[test]
fn reads_are_split_and_served_from_memory() {
    assert_eq!(read_plan(10, 16 * 4096), vec![(10, 15), (25, 1)]);
    assert_eq!(read_plan(10, 0), vec![]);
    assert_eq!(live_range(0x210, 4096, 0x200, 0x20000), Some((0x10000, 0x11000)));
    assert_eq!(live_range(0x1ff, 4096, 0x200, 0x20000), None);
    assert_eq!(live_range(0x21f, 8192, 0x200, 0x20000), None);
    assert_eq!(needs_bounce(0x1003, 512, 4, 4096), Ok(true));
    assert_eq!(needs_bounce(0x1003, 8192, 4, 4096), Err(DiskError::Misaligned));
    assert_eq!(needs_bounce(0x1003, 8192, 0, 4096), Ok(false));
    let disk = DiskEfi { block_size: 512, io_align: 0, bounce_len: 4096 };
    assert_eq!(disk.read_request(3, 0x1000, 4096), Ok((24, false)));
}

#[test]
fn e820_entries_and_heap() {
    let frame = e820_frame(5);
    assert_eq!((frame.eax, frame.ebx, frame.ecx, frame.edx), (0xE820, 5, 20, 0x534D4150));
    let mut raw = vec![0u8; 20];
    raw[0..8].copy_from_slice(&0x10_0000u64.to_le_bytes());
    raw[8..16].copy_from_slice(&0x3FF0_0000u64.to_le_bytes());
    raw[16..20].copy_from_slice(&1u32.to_le_bytes());
    let mut ok = ThunkData::new();
    ok.eax = 0x534D4150;
    ok.ecx = 20;
    let e = e820_entry(&ok, &raw).unwrap();
    assert_eq!(e, OsMemoryEntry { base: 0x10_0000, size: 0x3FF0_0000, kind: OsMemoryKind::Free });
    assert_eq!(e820_entry(&ThunkData::new(), &raw), Err(FirmwareError::BadE820));
    assert_eq!(e820_kind(3), OsMemoryKind::Reclaim);
    assert_eq!(e820_kind(0), OsMemoryKind::Null);
    assert_eq!(e820_kind(2), OsMemoryKind::Reserved);
    let low = OsMemoryEntry { base: 0, size: 0x9F000, kind: OsMemoryKind::Free };
    assert_eq!(find_heap(&[low, e]), Some((0x10_0000, 0x3FF0_0000)));
    assert_eq!(find_heap(&[low]), None);
}

#[test]
fn uefi_memory_map_walk() {
    let mut map = vec![0u8; 48 * 2];
    map[0..4].copy_from_slice(&7u32.to_le_bytes());
    map[8..16].copy_from_slice(&0x10_0000u64.to_le_bytes());
    map[24..32].copy_from_slice(&16u64.to_le_bytes());
    map[48..52].copy_from_slice(&11u32.to_le_bytes());
    map[56..64].copy_from_slice(&0xFEC0_0000u64.to_le_bytes());
    map[72..80].copy_from_slice(&1u64.to_le_bytes());
    assert_eq!(MemoryMapIter::new(map.clone(), 96, 32, 1).err(), Some(MemoryMapError::DescriptorTooSmall));
    assert_eq!(MemoryMapIter::new(map.clone(), 96, 48, 2).err(), Some(MemoryMapError::BadVersion));
    let mut it = MemoryMapIter::new(map, 96, 48, 1).ok().unwrap();
    assert_eq!(it.next(), Some(OsMemoryEntry { base: 0x10_0000, size: 0x10000, kind: OsMemoryKind::Free }));
    assert_eq!(it.next(), Some(OsMemoryEntry { base: 0xFEC0_0000, size: 0x1000, kind: OsMemoryKind::Reserved }));
    assert_eq!(it.next(), None);
    it.rewind();
    assert!(it.next().is_some());
    it.identity_map_virtual();
    let m = it.map();
    assert_eq!(&m[16..24], &0x10_0000u64.to_le_bytes());
    assert_eq!(&m[64..72], &0xFEC0_0000u64.to_le_bytes());
    assert_eq!(&m[8..16], &0x10_0000u64.to_le_bytes());
}

#[test]
fn vbe_and_edid_decoding() {
    let mut card = vec![0u8; 512];
    card[14..16].copy_from_slice(&0x0022u16.to_le_bytes());
    card[16..18].copy_from_slice(&0xC000u16.to_le_bytes());
    let info = VbeCardInfo::from_bytes(&card).unwrap();
    assert_eq!(info.videomodeptr.as_ptr(), 0xC0022);
    assert_eq!(VbeFarPtr { offset: 0x10, segment: 0x1 }.as_ptr(), 0x20);
    let mut m = vec![0u8; 256];
    m[16..18].copy_from_slice(&4096u16.to_le_bytes());
    m[18..20].copy_from_slice(&1024u16.to_le_bytes());
    m[20..22].copy_from_slice(&768u16.to_le_bytes());
    m[25] = 32;
    m[40..44].copy_from_slice(&0xFD00_0000u32.to_le_bytes());
    let mode = vbe_mode(0x4118, &m).unwrap().unwrap();
    assert_eq!((mode.width, mode.height, mode.stride, mode.base), (1024, 768, 1024, 0xFD00_0000));
    m[25] = 24;
    assert_eq!(vbe_mode(0x4118, &m), Ok(None));
    assert_eq!(vbe_mode(0x4118, &m[..10]), Err(FirmwareError::Truncated));
    let mut edid = vec![0u8; 128];
    edid[0x38] = 0x80;
    edid[0x3A] = 0x70;
    edid[0x3B] = 0x38;
    edid[0x3D] = 0x40;
    assert_eq!(edid_resolution(&edid), Some((1920, 1080)));
    assert_eq!(edid_resolution(&edid[..0x3D]), None);
}

#[test]
fn keystrokes_and_text_modes() {
    assert_eq!(bios_key(0x4B00), OsKey::Left);
    assert_eq!(bios_key(0x1C0D), OsKey::Enter);
    assert_eq!(bios_key(0x1E61), OsKey::Char('a'));
    assert_eq!(bios_key(0x0000), OsKey::Other);
    assert_eq!(efi_key(0, 0x41), OsKey::Char('A'));
    assert_eq!(efi_key(0, 0xD800), OsKey::Other);
    assert_eq!(efi_key(0, 8), OsKey::Backspace);
    assert_eq!(efi_key(2, 0), OsKey::Down);
    assert_eq!(efi_key(9, 0), OsKey::Other);
    let modes = vec![Some((80, 25)), None, Some((100, 31)), Some((90, 40)), Some((128, 48))];
    assert_eq!(max_text_mode(&modes), Some((4, 128, 48)));
    assert_eq!(max_text_mode(&vec![None, None]), None);
    let mut it = VideoModeIter::new(2);
    assert_eq!(it.next_id(), Some(0));
    assert_eq!(it.next_id(), Some(1));
    assert_eq!(it.next_id(), None);
    assert_eq!(VideoModeIter::mode(1, 800, 600, 800).base, 0);
}

fn node(t: u8, s: u8, data: &[u8]) -> Vec<u8> {
    let mut v = vec![t, s];
    v.extend_from_slice(&((data.len() + 4) as u16).to_le_bytes());
    v.extend_from_slice(data);
    v
}

fn path(nodes: &[Vec<u8>]) -> Vec<DevicePathNode> {
    let mut bytes: Vec<u8> = nodes.concat();
    bytes.extend_from_slice(&[0x7F, 0xFF, 4, 0]);
    parse_device_path(&bytes).unwrap()
}

#[test]
fn device_paths_and_disk_priority() {
    let pci = node(1, 1, &[0, 2]);
    let sata = node(3, 18, &[0, 0, 0xff, 0xff, 0, 0]);
    let other = node(3, 18, &[1, 0, 0xff, 0xff, 0, 0]);
    let part1 = node(4, 1, &[1, 0, 0, 0]);
    let part2 = node(4, 1, &[2, 0, 0, 0]);
    let disk = path(&[pci.clone(), sata.clone()]);
    let esp = path(&[pci.clone(), sata.clone(), part1.clone()]);
    let redox = path(&[pci.clone(), sata.clone(), part2.clone()]);
    let second = path(&[pci.clone(), other.clone()]);
    assert_eq!(device_path_relation(&disk, &esp), DevicePathRelation::Parent(0));
    assert_eq!(device_path_relation(&redox, &disk), DevicePathRelation::Child(0));
    assert_eq!(device_path_relation(&esp, &esp), DevicePathRelation::This);
    assert_eq!(device_path_relation(&second, &disk), DevicePathRelation::Unrelated);
    let mut bad = node(1, 1, &[]);
    bad[2] = 2;
    assert!(parse_device_path(&bad).is_none());
    // Devices: second disk, ESP, boot disk, Redox partition.
    let paths = vec![second, path(&[pci.clone(), sata.clone(), part1]), disk, redox];
    let is_esp = vec![false, true, false, false];
    assert_eq!(disk_device_priority(&paths, &is_esp, &esp), vec![3, 2, 0, 1]);
}

#[test]
fn uefi_outputs_and_resolution() {
    let bases = vec![0x8000_0000u64, 0, 0x8000_0000, 0x9000_0000];
    assert_eq!(distinct_outputs(&bases), vec![0, 3]);
    let mut edid = vec![0u8; 128];
    edid[0x38] = 0x00;
    edid[0x3A] = 0x50;
    edid[0x3B] = 0x20;
    edid[0x3D] = 0x30;
    assert_eq!(efi_best_resolution(Some(&edid), (800, 600)), (1280, 800));
    assert_eq!(efi_best_resolution(Some(&edid[..10]), (800, 600)), (800, 600));
    assert_eq!(efi_best_resolution(None, (640, 480)), (640, 480));
}
