use redox_bootloader::env::{build_env, push_dec, push_hex16, BootEnv, FramebufferEnv};
use redox_bootloader::os::{OsHwDesc, OsKey, OsVideoMode};
use redox_bootloader::password::{password_key, submitted, unlock_step, PromptEcho, UnlockStep, UNLOCK_ATTEMPTS};
use redox_bootloader::select::{aspect_ratio, sort_modes, usable_modes, ModeMenu};
use redox_bootloader::thunk::{ThunkData, THUNK_FRAME_SIZE};
use redox_bootloader::cpu::{satp_value, sctlr_value, tcr_value, SCTLR_CLEAR, SCTLR_SET};
use redox_bootloader::hwdesc::{choose_rsdp, dtb_size, is_in_dev_mem_region};

fn mode(id: u32, width: u32, height: u32) -> OsVideoMode {
    OsVideoMode { id, width, height, stride: width, base: 0 }
}

fn base_env() -> BootEnv {
    BootEnv {
        name: String::from("x86/BIOS"),
        hwdesc: OsHwDesc::NotFound,
        live: None,
        block: 0x200,
        uuid: (0u8..16).collect(),
        password: None,
        hart_id: None,
        framebuffer: None,
        outputs: Vec::new(),
    }
}

fn env_text(e: &BootEnv) -> String {
    String::from_utf8(build_env(e)).expect("environment is UTF-8")
}

#[test]
fn hex_and_decimal_formatting() {
    let mut v = Vec::new();
    push_hex16(&mut v, 0x1234_abcd);
    assert_eq!(v, b"000000001234abcd");
    let mut d = Vec::new();
    push_dec(&mut d, 1080);
    assert_eq!(d, b"1080");
    let mut z = Vec::new();
    push_dec(&mut z, 0);
    assert_eq!(z, b"0");
}

#[test]
fn bios_boot_environment() {
    let candidates = vec![mode(0x112, 640, 480), mode(0x118, 1024, 768), mode(0x11B, 1280, 1024)];
    let mut menu = ModeMenu::new(&candidates, Some((1024, 768))).unwrap();
    assert_eq!(menu.modes()[menu.selected()].id, 0x118);
    let chosen = menu.key(OsKey::Enter).unwrap();
    assert_eq!(chosen.id, 0x118);
    let mut e = base_env();
    e.framebuffer = Some(FramebufferEnv {
        addr: 0xFD00_0000,
        virt: 0xFD00_0000 + 0xFFFF_8000_0000_0000,
        width: chosen.width,
        height: chosen.height,
        stride: chosen.stride,
    });
    let text = env_text(&e);
    assert!(text.starts_with("BOOT_MODE=x86/BIOS\n"));
    assert!(text.contains("FRAMEBUFFER_WIDTH=0000000000000400\n"));
    assert!(text.contains("FRAMEBUFFER_HEIGHT=0000000000000300\n"));
    assert!(text.contains("REDOXFS_BLOCK=0000000000000200\n"));
    assert!(text.contains("REDOXFS_UUID=00010203-0405-0607-0809-0a0b0c0d0e0f\n"));
    assert_eq!(text.lines().filter(|l| l.starts_with("REDOXFS_BLOCK=")).count(), 1);
}

#[test]
fn live_disk_environment_has_block_zero() {
    let mut e = base_env();
    e.live = Some((0x4000_0000, 0x100_0000));
    e.hwdesc = OsHwDesc::Acpi(0x7000, 0x24);
    let text = env_text(&e);
    assert!(text.contains("RSDP_ADDR=0000000000007000\nRSDP_SIZE=0000000000000024\n"));
    assert!(text.contains("DISK_LIVE_ADDR=0000000040000000\nDISK_LIVE_SIZE=0000000001000000\n"));
    assert!(text.contains("REDOXFS_BLOCK=0000000000000000\n"));
    assert_eq!(text.lines().filter(|l| l.starts_with("REDOXFS_BLOCK=")).count(), 1);
}

#[test]
fn extra_outputs_are_listed() {
    let mut e = base_env();
    e.name = String::from("x86_64/UEFI ✓");
    e.outputs = vec![(1, OsVideoMode { id: 3, width: 800, height: 600, stride: 832, base: 0xC000_0000 })];
    let text = env_text(&e);
    assert!(text.starts_with("BOOT_MODE=x86_64/UEFI ✓\n"));
    assert!(text.ends_with("FRAMEBUFFER1=0xc0000000,800,600,832\n"));
}

#[test]
fn encrypted_filesystem_unlocks_on_third_attempt() {
    assert_eq!(unlock_step(0, 126), UnlockStep::Retry(1));
    let mut typed = Vec::new();
    for c in "wrong".chars() {
        assert_eq!(password_key(&mut typed, OsKey::Char(c)), PromptEcho::Star);
    }
    assert_eq!(password_key(&mut typed, OsKey::Enter), PromptEcho::Submit);
    assert_eq!(unlock_step(1, 126), UnlockStep::Retry(2));
    let mut typed = Vec::new();
    for c in "secrex".chars() {
        password_key(&mut typed, OsKey::Char(c));
    }
    assert_eq!(password_key(&mut typed, OsKey::Backspace), PromptEcho::Erase);
    password_key(&mut typed, OsKey::Char('t'));
    assert_eq!(password_key(&mut typed, OsKey::Up), PromptEcho::Nothing);
    let password: String = submitted(typed).unwrap().into_iter().collect();
    assert_eq!(password, "secret");
    let mut e = base_env();
    e.password = Some((0x7F00_0000, password.len() as u64));
    let text = env_text(&e);
    assert!(text.contains("REDOXFS_PASSWORD_ADDR=000000007f000000\n"));
    assert!(text.contains("REDOXFS_PASSWORD_SIZE=0000000000000006\n"));
}

#[test]
fn unlock_gives_up_and_fails_on_other_errors() {
    assert_eq!(unlock_step(UNLOCK_ATTEMPTS, 126), UnlockStep::Exhausted);
    assert_eq!(unlock_step(0, 2), UnlockStep::Fatal(2));
    assert!(submitted(Vec::new()).is_none());
    let mut empty = Vec::new();
    assert_eq!(password_key(&mut empty, OsKey::Delete), PromptEcho::Nothing);
}

#[test]
fn device_tree_is_reported_with_its_size() {
    let mut blob = vec![0u8; 0x48];
    blob[0..4].copy_from_slice(&0xd00d_feedu32.to_be_bytes());
    blob[4..8].copy_from_slice(&0x48u32.to_be_bytes());
    assert_eq!(dtb_size(&blob), Some(0x48));
    assert_eq!(dtb_size(&blob[..0x40]), None);
    blob[0] = 0;
    assert_eq!(dtb_size(&blob), None);
    let mut e = base_env();
    e.hwdesc = OsHwDesc::DeviceTree(0x4000_0000, 0x48);
    let text = env_text(&e);
    assert!(text.contains("DTB_ADDR=0000000040000000\nDTB_SIZE=0000000000000048\n"));
}

#[test]
fn riscv_boot_hart_and_satp() {
    let mut e = base_env();
    e.hart_id = Some(3);
    assert!(env_text(&e).contains("BOOT_HART_ID=0000000000000003\n"));
    let satp = satp_value(0x8020_0000);
    assert_eq!(satp >> 60, 9);
    assert_eq!(satp & 0xFFF_FFFF_FFFF, 0x80200);
}

#[test]
fn aarch64_control_registers() {
    assert_eq!(tcr_value(0x5), 0x15_8510_0510);
    let s = sctlr_value(0xFFFF_FFFF_FFFF_FFFF);
    assert_eq!(s & SCTLR_CLEAR, 0);
    assert_eq!(s & SCTLR_SET, SCTLR_SET);
}

#[test]
fn thunk_frame_round_trip() {
    let d = ThunkData { es: 0x1234, edi: 1, esi: 0xdead_beef, ebp: 3, ebx: 0x55AA, edx: 0x80, ecx: 7, eax: 0x4200 };
    let image = d.save();
    assert_eq!(image.len(), THUNK_FRAME_SIZE);
    assert_eq!(&image[0..6], &[0x34, 0x12, 1, 0, 0, 0]);
    let mut back = ThunkData::new();
    back.load(&image);
    assert_eq!(back, d);
}

#[test]
fn narrow_modes_are_excluded() {
    let candidates = vec![mode(1, 1366, 768), mode(2, 1366, 1024)];
    assert!(usable_modes(&candidates).is_empty());
    assert!(ModeMenu::new(&candidates, None).is_none());
    let mixed = vec![mode(1, 1366, 768), mode(2, 800, 600)];
    assert_eq!(usable_modes(&mixed), vec![mode(2, 800, 600)]);
}

#[test]
fn modes_sorted_by_area_keep_order_of_ties() {
    let modes = vec![mode(1, 800, 600), mode(2, 1920, 1080), mode(3, 600, 800), mode(4, 1024, 768)];
    let ids: Vec<u32> = sort_modes(&modes).iter().map(|m| m.id).collect();
    assert_eq!(ids, vec![2, 4, 1, 3]);
}

#[test]
fn mode_menu_navigation() {
    let modes: Vec<OsVideoMode> = (0..30u32).map(|i| mode(i, 4000 - i * 4, 1000)).collect();
    let mut menu = ModeMenu::new(&modes, None).unwrap();
    assert_eq!(menu.selected(), 0);
    assert_eq!(menu.key(OsKey::Up), None);
    assert_eq!(menu.selected(), 11);
    menu.key(OsKey::Down);
    assert_eq!(menu.selected(), 0);
    menu.key(OsKey::Right);
    assert_eq!(menu.selected(), 12);
    menu.key(OsKey::Right);
    assert_eq!(menu.selected(), 24);
    menu.key(OsKey::Right);
    assert_eq!(menu.selected(), 0);
    menu.key(OsKey::Left);
    assert_eq!(menu.selected(), 24);
    menu.key(OsKey::Down);
    menu.key(OsKey::Down);
    menu.key(OsKey::Down);
    menu.key(OsKey::Down);
    menu.key(OsKey::Down);
    assert_eq!(menu.selected(), 29);
    menu.key(OsKey::Down);
    assert_eq!(menu.selected(), 24);
    assert_eq!(ModeMenu::cell(29), (2, 5));
    assert_eq!(menu.key(OsKey::Enter).unwrap().id, 24);
}

#[test]
fn device_memory_regions_and_rsdp_choice() {
    let regions = [(0x0800_0000u64, 0x0100_0000u64), (0x1000_0000, 0x1000)];
    assert!(is_in_dev_mem_region(&regions, 0x0800_0000));
    assert!(!is_in_dev_mem_region(&regions, 0x0900_0000));
    assert!(is_in_dev_mem_region(&regions, 0x1000_0fff));
    assert_eq!(choose_rsdp(Some((1, 20)), Some((2, 36))), Some((2, 36)));
    assert_eq!(choose_rsdp(Some((1, 20)), None), Some((1, 20)));
}

#[test]
fn mode_labels_show_reduced_aspect_ratio() {
    assert_eq!(aspect_ratio(1920, 1080), (16, 9));
    assert_eq!(aspect_ratio(1024, 768), (4, 3));
    assert_eq!(aspect_ratio(1280, 1024), (5, 4));
    assert_eq!(aspect_ratio(2, 3), (2, 3));
}
