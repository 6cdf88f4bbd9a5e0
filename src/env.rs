//! The boot environment handed to the kernel: newline-terminated
//! `KEY=value` lines, numbers as 16 lowercase hexadecimal digits unless a
//! line says otherwise.

use vstd::prelude::*;
use vstd::utf8::*;

use crate::os::{OsHwDesc, OsVideoMode};

verus! {

/// The keys of the environment's lines.
#[derive(Clone, Copy, Debug, PartialEq, Eq, Structural)]
pub enum EnvKey {
    BootMode,
    RsdpAddr,
    RsdpSize,
    DtbAddr,
    DtbSize,
    DiskLiveAddr,
    DiskLiveSize,
    RedoxfsBlock,
    RedoxfsUuid,
    RedoxfsPasswordAddr,
    RedoxfsPasswordSize,
    BootHartId,
    FramebufferAddr,
    FramebufferVirt,
    FramebufferWidth,
    FramebufferHeight,
    FramebufferStride,
    Framebuffer,
}

/// The text of a key, `=` included except for `Framebuffer`, which is
/// followed by an output number.
pub open spec fn key_text(k: EnvKey) -> Seq<u8> {
    match k {
        EnvKey::BootMode => seq![0x42u8, 0x4fu8, 0x4fu8, 0x54u8, 0x5fu8, 0x4du8, 0x4fu8, 0x44u8, 0x45u8, 0x3du8],
        EnvKey::RsdpAddr => seq![0x52u8, 0x53u8, 0x44u8, 0x50u8, 0x5fu8, 0x41u8, 0x44u8, 0x44u8, 0x52u8, 0x3du8],
        EnvKey::RsdpSize => seq![0x52u8, 0x53u8, 0x44u8, 0x50u8, 0x5fu8, 0x53u8, 0x49u8, 0x5au8, 0x45u8, 0x3du8],
        EnvKey::DtbAddr => seq![0x44u8, 0x54u8, 0x42u8, 0x5fu8, 0x41u8, 0x44u8, 0x44u8, 0x52u8, 0x3du8],
        EnvKey::DtbSize => seq![0x44u8, 0x54u8, 0x42u8, 0x5fu8, 0x53u8, 0x49u8, 0x5au8, 0x45u8, 0x3du8],
        EnvKey::DiskLiveAddr => seq![0x44u8, 0x49u8, 0x53u8, 0x4bu8, 0x5fu8, 0x4cu8, 0x49u8, 0x56u8, 0x45u8, 0x5fu8, 0x41u8, 0x44u8, 0x44u8, 0x52u8, 0x3du8],
        EnvKey::DiskLiveSize => seq![0x44u8, 0x49u8, 0x53u8, 0x4bu8, 0x5fu8, 0x4cu8, 0x49u8, 0x56u8, 0x45u8, 0x5fu8, 0x53u8, 0x49u8, 0x5au8, 0x45u8, 0x3du8],
        EnvKey::RedoxfsBlock => seq![0x52u8, 0x45u8, 0x44u8, 0x4fu8, 0x58u8, 0x46u8, 0x53u8, 0x5fu8, 0x42u8, 0x4cu8, 0x4fu8, 0x43u8, 0x4bu8, 0x3du8],
        EnvKey::RedoxfsUuid => seq![0x52u8, 0x45u8, 0x44u8, 0x4fu8, 0x58u8, 0x46u8, 0x53u8, 0x5fu8, 0x55u8, 0x55u8, 0x49u8, 0x44u8, 0x3du8],
        EnvKey::RedoxfsPasswordAddr => seq![0x52u8, 0x45u8, 0x44u8, 0x4fu8, 0x58u8, 0x46u8, 0x53u8, 0x5fu8, 0x50u8, 0x41u8, 0x53u8, 0x53u8, 0x57u8, 0x4fu8, 0x52u8, 0x44u8, 0x5fu8, 0x41u8, 0x44u8, 0x44u8, 0x52u8, 0x3du8],
        EnvKey::RedoxfsPasswordSize => seq![0x52u8, 0x45u8, 0x44u8, 0x4fu8, 0x58u8, 0x46u8, 0x53u8, 0x5fu8, 0x50u8, 0x41u8, 0x53u8, 0x53u8, 0x57u8, 0x4fu8, 0x52u8, 0x44u8, 0x5fu8, 0x53u8, 0x49u8, 0x5au8, 0x45u8, 0x3du8],
        EnvKey::BootHartId => seq![0x42u8, 0x4fu8, 0x4fu8, 0x54u8, 0x5fu8, 0x48u8, 0x41u8, 0x52u8, 0x54u8, 0x5fu8, 0x49u8, 0x44u8, 0x3du8],
        EnvKey::FramebufferAddr => seq![0x46u8, 0x52u8, 0x41u8, 0x4du8, 0x45u8, 0x42u8, 0x55u8, 0x46u8, 0x46u8, 0x45u8, 0x52u8, 0x5fu8, 0x41u8, 0x44u8, 0x44u8, 0x52u8, 0x3du8],
        EnvKey::FramebufferVirt => seq![0x46u8, 0x52u8, 0x41u8, 0x4du8, 0x45u8, 0x42u8, 0x55u8, 0x46u8, 0x46u8, 0x45u8, 0x52u8, 0x5fu8, 0x56u8, 0x49u8, 0x52u8, 0x54u8, 0x3du8],
        EnvKey::FramebufferWidth => seq![0x46u8, 0x52u8, 0x41u8, 0x4du8, 0x45u8, 0x42u8, 0x55u8, 0x46u8, 0x46u8, 0x45u8, 0x52u8, 0x5fu8, 0x57u8, 0x49u8, 0x44u8, 0x54u8, 0x48u8, 0x3du8],
        EnvKey::FramebufferHeight => seq![0x46u8, 0x52u8, 0x41u8, 0x4du8, 0x45u8, 0x42u8, 0x55u8, 0x46u8, 0x46u8, 0x45u8, 0x52u8, 0x5fu8, 0x48u8, 0x45u8, 0x49u8, 0x47u8, 0x48u8, 0x54u8, 0x3du8],
        EnvKey::FramebufferStride => seq![0x46u8, 0x52u8, 0x41u8, 0x4du8, 0x45u8, 0x42u8, 0x55u8, 0x46u8, 0x46u8, 0x45u8, 0x52u8, 0x5fu8, 0x53u8, 0x54u8, 0x52u8, 0x49u8, 0x44u8, 0x45u8, 0x3du8],
        EnvKey::Framebuffer => seq![0x46u8, 0x52u8, 0x41u8, 0x4du8, 0x45u8, 0x42u8, 0x55u8, 0x46u8, 0x46u8, 0x45u8, 0x52u8],
    }
}

/// The text of `k`.
pub fn key_bytes(k: EnvKey) -> (r: Vec<u8>)
    ensures
        r@ == key_text(k),
{
    let r = match k {
        EnvKey::BootMode => vec![0x42u8, 0x4f, 0x4f, 0x54, 0x5f, 0x4d, 0x4f, 0x44, 0x45, 0x3d],
        EnvKey::RsdpAddr => vec![0x52u8, 0x53, 0x44, 0x50, 0x5f, 0x41, 0x44, 0x44, 0x52, 0x3d],
        EnvKey::RsdpSize => vec![0x52u8, 0x53, 0x44, 0x50, 0x5f, 0x53, 0x49, 0x5a, 0x45, 0x3d],
        EnvKey::DtbAddr => vec![0x44u8, 0x54, 0x42, 0x5f, 0x41, 0x44, 0x44, 0x52, 0x3d],
        EnvKey::DtbSize => vec![0x44u8, 0x54, 0x42, 0x5f, 0x53, 0x49, 0x5a, 0x45, 0x3d],
        EnvKey::DiskLiveAddr => vec![0x44u8, 0x49, 0x53, 0x4b, 0x5f, 0x4c, 0x49, 0x56, 0x45, 0x5f, 0x41, 0x44, 0x44, 0x52, 0x3d],
        EnvKey::DiskLiveSize => vec![0x44u8, 0x49, 0x53, 0x4b, 0x5f, 0x4c, 0x49, 0x56, 0x45, 0x5f, 0x53, 0x49, 0x5a, 0x45, 0x3d],
        EnvKey::RedoxfsBlock => vec![0x52u8, 0x45, 0x44, 0x4f, 0x58, 0x46, 0x53, 0x5f, 0x42, 0x4c, 0x4f, 0x43, 0x4b, 0x3d],
        EnvKey::RedoxfsUuid => vec![0x52u8, 0x45, 0x44, 0x4f, 0x58, 0x46, 0x53, 0x5f, 0x55, 0x55, 0x49, 0x44, 0x3d],
        EnvKey::RedoxfsPasswordAddr => vec![0x52u8, 0x45, 0x44, 0x4f, 0x58, 0x46, 0x53, 0x5f, 0x50, 0x41, 0x53, 0x53, 0x57, 0x4f, 0x52, 0x44, 0x5f, 0x41, 0x44, 0x44, 0x52, 0x3d],
        EnvKey::RedoxfsPasswordSize => vec![0x52u8, 0x45, 0x44, 0x4f, 0x58, 0x46, 0x53, 0x5f, 0x50, 0x41, 0x53, 0x53, 0x57, 0x4f, 0x52, 0x44, 0x5f, 0x53, 0x49, 0x5a, 0x45, 0x3d],
        EnvKey::BootHartId => vec![0x42u8, 0x4f, 0x4f, 0x54, 0x5f, 0x48, 0x41, 0x52, 0x54, 0x5f, 0x49, 0x44, 0x3d],
        EnvKey::FramebufferAddr => vec![0x46u8, 0x52, 0x41, 0x4d, 0x45, 0x42, 0x55, 0x46, 0x46, 0x45, 0x52, 0x5f, 0x41, 0x44, 0x44, 0x52, 0x3d],
        EnvKey::FramebufferVirt => vec![0x46u8, 0x52, 0x41, 0x4d, 0x45, 0x42, 0x55, 0x46, 0x46, 0x45, 0x52, 0x5f, 0x56, 0x49, 0x52, 0x54, 0x3d],
        EnvKey::FramebufferWidth => vec![0x46u8, 0x52, 0x41, 0x4d, 0x45, 0x42, 0x55, 0x46, 0x46, 0x45, 0x52, 0x5f, 0x57, 0x49, 0x44, 0x54, 0x48, 0x3d],
        EnvKey::FramebufferHeight => vec![0x46u8, 0x52, 0x41, 0x4d, 0x45, 0x42, 0x55, 0x46, 0x46, 0x45, 0x52, 0x5f, 0x48, 0x45, 0x49, 0x47, 0x48, 0x54, 0x3d],
        EnvKey::FramebufferStride => vec![0x46u8, 0x52, 0x41, 0x4d, 0x45, 0x42, 0x55, 0x46, 0x46, 0x45, 0x52, 0x5f, 0x53, 0x54, 0x52, 0x49, 0x44, 0x45, 0x3d],
        EnvKey::Framebuffer => vec![0x46u8, 0x52, 0x41, 0x4d, 0x45, 0x42, 0x55, 0x46, 0x46, 0x45, 0x52],
    };
    assert(r@ =~= key_text(k));
    r
}

/// The ASCII character of hexadecimal digit `d`, lower case.
pub open spec fn hex_char(d: int) -> u8 {
    if d < 10 { (0x30 + d) as u8 } else { (0x61 + d - 10) as u8 }
}

/// The ASCII character of decimal digit `d`.
pub open spec fn dec_char(d: int) -> u8 {
    (0x30 + d) as u8
}

/// The last `n` hexadecimal digits of `x`, most significant first.
pub open spec fn hex_digits(x: nat, n: nat) -> Seq<u8>
    decreases n,
{
    if n == 0 {
        Seq::empty()
    } else {
        hex_digits(x / 16, (n - 1) as nat).push(hex_char((x % 16) as int))
    }
}

/// `x` in hexadecimal without leading zeros (a single `0` for zero).
pub open spec fn hex_min(x: nat) -> Seq<u8>
    decreases x,
{
    if x < 16 {
        seq![hex_char(x as int)]
    } else {
        hex_min(x / 16).push(hex_char((x % 16) as int))
    }
}

/// `x` in decimal without leading zeros (a single `0` for zero).
pub open spec fn dec_text(x: nat) -> Seq<u8>
    decreases x,
{
    if x < 10 {
        seq![dec_char(x as int)]
    } else {
        dec_text(x / 10).push(dec_char((x % 10) as int))
    }
}

/// `x` as 16 zero-padded lowercase hexadecimal digits.
pub open spec fn hex16(x: u64) -> Seq<u8> {
    hex_digits(x as nat, 16)
}

fn hex_char_of(d: u64) -> (r: u8)
    requires
        d < 16,
    ensures
        r == hex_char(d as int),
{
    if d < 10 {
        (0x30 + d) as u8
    } else {
        (0x61 + d - 10) as u8
    }
}

/// Appends `x` as 16 zero-padded lowercase hexadecimal digits.
pub fn push_hex16(out: &mut Vec<u8>, x: u64)
    ensures
        final(out)@ == old(out)@ + hex16(x),
{
    let mut digits: Vec<u8> = Vec::new();
    let mut y: u64 = x;
    let mut k: u64 = 0;
    while k < 16
        invariant
            k <= 16,
            hex16(x) == hex_digits(y as nat, (16 - k) as nat) + digits@,
        decreases 16 - k,
    {
        let c = hex_char_of(y % 16);
        proof {
            let d = digits@;
            assert(hex_digits(y as nat, (16 - k) as nat) == hex_digits((y / 16) as nat, (16 - k - 1) as nat).push(c));
            assert(hex_digits((y / 16) as nat, (16 - k - 1) as nat).push(c) + d =~= hex_digits(
                (y / 16) as nat,
                (16 - k - 1) as nat,
            ) + (seq![c] + d));
        }
        digits.insert(0, c);
        y = y / 16;
        k = k + 1;
    }
    assert(hex_digits(y as nat, 0) =~= Seq::<u8>::empty());
    assert(hex16(x) =~= digits@);
    out.append(&mut digits);
}

/// Appends `x` in hexadecimal without leading zeros.
pub fn push_hex_min(out: &mut Vec<u8>, x: u64)
    ensures
        final(out)@ == old(out)@ + hex_min(x as nat),
{
    let mut digits: Vec<u8> = Vec::new();
    let mut y: u64 = x;
    let c = hex_char_of(y % 16);
    digits.insert(0, c);
    y = y / 16;
    proof {
        if x < 16 {
            assert(digits@ =~= hex_min(x as nat));
        } else {
            assert(hex_min(x as nat) == hex_min(y as nat).push(c));
            assert(hex_min(y as nat).push(c) =~= hex_min(y as nat) + digits@);
        }
    }
    while y > 0
        invariant
            y > 0 ==> hex_min(x as nat) == hex_min(y as nat) + digits@,
            y == 0 ==> hex_min(x as nat) == digits@,
        decreases y,
    {
        let c = hex_char_of(y % 16);
        proof {
            let d = digits@;
            if y >= 16 {
                assert(hex_min(y as nat) == hex_min((y / 16) as nat).push(c));
                assert(hex_min((y / 16) as nat).push(c) + d =~= hex_min((y / 16) as nat) + (seq![c] + d));
            } else {
                assert(hex_min(y as nat) == seq![c]);
                assert(seq![c] + d =~= seq![c] + d);
            }
        }
        digits.insert(0, c);
        y = y / 16;
    }
    out.append(&mut digits);
}

/// Appends `x` in decimal without leading zeros.
pub fn push_dec(out: &mut Vec<u8>, x: u64)
    ensures
        final(out)@ == old(out)@ + dec_text(x as nat),
{
    let mut digits: Vec<u8> = Vec::new();
    let mut y: u64 = x / 10;
    let c = (0x30 + x % 10) as u8;
    digits.insert(0, c);
    proof {
        if x < 10 {
            assert(digits@ =~= dec_text(x as nat));
        } else {
            assert(dec_text(x as nat) == dec_text(y as nat).push(c));
            assert(dec_text(y as nat).push(c) =~= dec_text(y as nat) + digits@);
        }
    }
    while y > 0
        invariant
            y > 0 ==> dec_text(x as nat) == dec_text(y as nat) + digits@,
            y == 0 ==> dec_text(x as nat) == digits@,
        decreases y,
    {
        let c = (0x30 + y % 10) as u8;
        proof {
            let d = digits@;
            if y >= 10 {
                assert(dec_text(y as nat) == dec_text((y / 10) as nat).push(c));
                assert(dec_text((y / 10) as nat).push(c) + d =~= dec_text((y / 10) as nat) + (seq![c] + d));
            } else {
                assert(dec_text(y as nat) == seq![c]);
            }
        }
        digits.insert(0, c);
        y = y / 10;
    }
    out.append(&mut digits);
}

/// The framebuffer lines of the first output.
#[derive(Clone, Copy, Debug, PartialEq, Eq, Structural)]
pub struct FramebufferEnv {
    pub addr: u64,
    pub virt: u64,
    pub width: u32,
    pub height: u32,
    pub stride: u32,
}

/// What the environment records.
pub struct BootEnv {
    /// The firmware adapter's name.
    pub name: String,
    pub hwdesc: OsHwDesc,
    /// The in-memory copy of the filesystem, as address and size, if any.
    pub live: Option<(u64, u64)>,
    /// The block at which the filesystem starts on disk.
    pub block: u64,
    /// The filesystem's 16-byte identifier.
    pub uuid: Vec<u8>,
    /// The staged password, as address and size, if one was entered.
    pub password: Option<(u64, u64)>,
    /// The boot hart, on RISC-V.
    pub hart_id: Option<u64>,
    /// The first output's framebuffer, if a mode was chosen for it.
    pub framebuffer: Option<FramebufferEnv>,
    /// The other outputs with a chosen mode, each with its number.
    pub outputs: Vec<(u64, OsVideoMode)>,
}

/// A line: the key's text followed by the value.
pub open spec fn line(k: EnvKey, v: Seq<u8>) -> Seq<u8> {
    key_text(k) + v
}

/// A line whose value is a number as 16 hexadecimal digits.
pub open spec fn hex_line(k: EnvKey, x: u64) -> Seq<u8> {
    line(k, hex16(x))
}

/// The first `n` bytes of the identifier `u` as two hexadecimal digits
/// each, with a dash before bytes 4, 6, 8 and 10.
pub open spec fn uuid_text(u: Seq<u8>, n: nat) -> Seq<u8>
    decreases n,
{
    if n == 0 {
        Seq::empty()
    } else {
        let i = (n - 1) as nat;
        let dash: Seq<u8> = if i == 4 || i == 6 || i == 8 || i == 10 { seq![0x2du8] } else { Seq::empty() };
        uuid_text(u, i) + dash + hex_digits(u[i as int] as nat, 2)
    }
}

/// The line of an additional output: `FRAMEBUFFERn=0xBASE,W,H,STRIDE`.
pub open spec fn output_line(n: u64, m: OsVideoMode) -> Seq<u8> {
    key_text(EnvKey::Framebuffer) + dec_text(n as nat) + seq![0x3du8, 0x30u8, 0x78u8] + hex_min(m.base as nat)
        + seq![0x2cu8] + dec_text(m.width as nat) + seq![0x2cu8] + dec_text(m.height as nat) + seq![0x2cu8]
        + dec_text(m.stride as nat)
}

/// The lines of the hardware descriptor.
pub open spec fn hw_lines(h: OsHwDesc) -> Seq<Seq<u8>> {
    match h {
        OsHwDesc::Acpi(a, s) => seq![hex_line(EnvKey::RsdpAddr, a), hex_line(EnvKey::RsdpSize, s)],
        OsHwDesc::DeviceTree(a, s) => seq![hex_line(EnvKey::DtbAddr, a), hex_line(EnvKey::DtbSize, s)],
        OsHwDesc::NotFound => Seq::empty(),
    }
}

/// The lines of the filesystem's location: in memory, the block is zero.
pub open spec fn disk_lines(live: Option<(u64, u64)>, block: u64) -> Seq<Seq<u8>> {
    match live {
        Some((a, s)) => seq![
            hex_line(EnvKey::DiskLiveAddr, a),
            hex_line(EnvKey::DiskLiveSize, s),
            hex_line(EnvKey::RedoxfsBlock, 0),
        ],
        None => seq![hex_line(EnvKey::RedoxfsBlock, block)],
    }
}

/// The lines of the password.
pub open spec fn password_lines(p: Option<(u64, u64)>) -> Seq<Seq<u8>> {
    match p {
        Some((a, s)) => seq![hex_line(EnvKey::RedoxfsPasswordAddr, a), hex_line(EnvKey::RedoxfsPasswordSize, s)],
        None => Seq::empty(),
    }
}

/// The line of the boot hart.
pub open spec fn hart_lines(h: Option<u64>) -> Seq<Seq<u8>> {
    match h {
        Some(id) => seq![hex_line(EnvKey::BootHartId, id)],
        None => Seq::empty(),
    }
}

/// The lines of the first output's framebuffer.
pub open spec fn fb_lines(f: Option<FramebufferEnv>) -> Seq<Seq<u8>> {
    match f {
        Some(fb) => seq![
            hex_line(EnvKey::FramebufferAddr, fb.addr),
            hex_line(EnvKey::FramebufferVirt, fb.virt),
            hex_line(EnvKey::FramebufferWidth, fb.width as u64),
            hex_line(EnvKey::FramebufferHeight, fb.height as u64),
            hex_line(EnvKey::FramebufferStride, fb.stride as u64),
        ],
        None => Seq::empty(),
    }
}

/// The lines of the additional outputs.
pub open spec fn output_lines(o: Seq<(u64, OsVideoMode)>) -> Seq<Seq<u8>> {
    Seq::new(o.len(), |i: int| output_line(o[i].0, o[i].1))
}

/// The lines of the environment, in order.
pub open spec fn env_lines(e: BootEnv) -> Seq<Seq<u8>> {
    seq![line(EnvKey::BootMode, encode_utf8(e.name@))] + hw_lines(e.hwdesc) + disk_lines(e.live, e.block) + seq![
        line(EnvKey::RedoxfsUuid, uuid_text(e.uuid@, 16)),
    ] + password_lines(e.password) + hart_lines(e.hart_id) + fb_lines(e.framebuffer) + output_lines(e.outputs@)
}

/// The lines, each followed by a newline.
pub open spec fn join_lines(ls: Seq<Seq<u8>>) -> Seq<u8>
    decreases ls.len(),
{
    if ls.len() == 0 {
        Seq::empty()
    } else {
        join_lines(ls.drop_last()) + ls.last() + seq![0x0au8]
    }
}

/// The text of the environment.
pub open spec fn env_text(e: BootEnv) -> Seq<u8> {
    join_lines(env_lines(e))
}

/// Appends the line `l` and a newline.
fn push_line(text: &mut Vec<u8>, l: &mut Vec<u8>, Ghost(lines): Ghost<Seq<Seq<u8>>>)
    requires
        old(text)@ == join_lines(lines),
    ensures
        final(text)@ == join_lines(lines.push(old(l)@)),
{
    let ghost lv = l@;
    text.append(l);
    text.push(0x0a);
    assert(lines.push(lv).drop_last() =~= lines);
    assert(final(text)@ =~= join_lines(lines) + lv + seq![0x0au8]);
}

/// Appends a line whose value is `x` as 16 hexadecimal digits.
fn push_hex_line(text: &mut Vec<u8>, k: EnvKey, x: u64, Ghost(lines): Ghost<Seq<Seq<u8>>>)
    requires
        old(text)@ == join_lines(lines),
    ensures
        final(text)@ == join_lines(lines.push(hex_line(k, x))),
{
    let mut l = key_bytes(k);
    push_hex16(&mut l, x);
    push_line(text, &mut l, Ghost(lines));
}

/// Appends the identifier `u` in its dashed form.
fn push_uuid(out: &mut Vec<u8>, u: &Vec<u8>)
    requires
        u@.len() == 16,
    ensures
        final(out)@ == old(out)@ + uuid_text(u@, 16),
{
    let mut i: usize = 0;
    while i < 16
        invariant
            i <= 16,
            u@.len() == 16,
            out@ == old(out)@ + uuid_text(u@, i as nat),
        decreases 16 - i,
    {
        let ghost before = out@;
        if i == 4 || i == 6 || i == 8 || i == 10 {
            out.push(0x2d);
        }
        let b = u[i] as u64;
        out.push(hex_char_of(b / 16));
        out.push(hex_char_of(b % 16));
        proof {
            assert(hex_digits(b as nat, 2) =~= seq![hex_char((b / 16) as int), hex_char((b % 16) as int)]) by {
                assert(hex_digits((b / 16) as nat, 1) == hex_digits((b / 16 / 16) as nat, 0).push(hex_char(((b / 16) % 16) as int)));
                assert((b / 16) % 16 == b / 16);
            }
            let dash: Seq<u8> = if i == 4 || i == 6 || i == 8 || i == 10 { seq![0x2du8] } else { Seq::empty() };
            assert(uuid_text(u@, (i + 1) as nat) == uuid_text(u@, i as nat) + dash + hex_digits(u@[i as int] as nat, 2));
            assert(out@ =~= old(out)@ + uuid_text(u@, (i + 1) as nat));
        }
        i = i + 1;
    }
}

/// The line of an additional output.
fn output_line_vec(n: u64, m: &OsVideoMode) -> (r: Vec<u8>)
    ensures
        r@ == output_line(n, *m),
{
    let mut l = key_bytes(EnvKey::Framebuffer);
    push_dec(&mut l, n);
    l.push(0x3d);
    l.push(0x30);
    l.push(0x78);
    push_hex_min(&mut l, m.base);
    l.push(0x2c);
    push_dec(&mut l, m.width as u64);
    l.push(0x2c);
    push_dec(&mut l, m.height as u64);
    l.push(0x2c);
    push_dec(&mut l, m.stride as u64);
    assert(l@ =~= output_line(n, *m));
    l
}

/// Appends the lines of the hardware descriptor.
fn push_hw(text: &mut Vec<u8>, h: OsHwDesc, Ghost(lines): Ghost<Seq<Seq<u8>>>)
    requires
        old(text)@ == join_lines(lines),
    ensures
        final(text)@ == join_lines(lines + hw_lines(h)),
{
    match h {
        OsHwDesc::Acpi(a, s) => {
            push_hex_line(text, EnvKey::RsdpAddr, a, Ghost(lines));
            push_hex_line(text, EnvKey::RsdpSize, s, Ghost(lines.push(hex_line(EnvKey::RsdpAddr, a))));
            assert(lines.push(hex_line(EnvKey::RsdpAddr, a)).push(hex_line(EnvKey::RsdpSize, s)) =~= lines + hw_lines(h));
        },
        OsHwDesc::DeviceTree(a, s) => {
            push_hex_line(text, EnvKey::DtbAddr, a, Ghost(lines));
            push_hex_line(text, EnvKey::DtbSize, s, Ghost(lines.push(hex_line(EnvKey::DtbAddr, a))));
            assert(lines.push(hex_line(EnvKey::DtbAddr, a)).push(hex_line(EnvKey::DtbSize, s)) =~= lines + hw_lines(h));
        },
        OsHwDesc::NotFound => {
            assert(lines + hw_lines(h) =~= lines);
        },
    }
}

/// Appends the lines of the filesystem's location.
fn push_disk(text: &mut Vec<u8>, live: Option<(u64, u64)>, block: u64, Ghost(lines): Ghost<Seq<Seq<u8>>>)
    requires
        old(text)@ == join_lines(lines),
    ensures
        final(text)@ == join_lines(lines + disk_lines(live, block)),
{
    match live {
        Some((a, s)) => {
            let ghost l1 = lines.push(hex_line(EnvKey::DiskLiveAddr, a));
            let ghost l2 = l1.push(hex_line(EnvKey::DiskLiveSize, s));
            push_hex_line(text, EnvKey::DiskLiveAddr, a, Ghost(lines));
            push_hex_line(text, EnvKey::DiskLiveSize, s, Ghost(l1));
            push_hex_line(text, EnvKey::RedoxfsBlock, 0, Ghost(l2));
            assert(l2.push(hex_line(EnvKey::RedoxfsBlock, 0)) =~= lines + disk_lines(live, block));
        },
        None => {
            push_hex_line(text, EnvKey::RedoxfsBlock, block, Ghost(lines));
            assert(lines.push(hex_line(EnvKey::RedoxfsBlock, block)) =~= lines + disk_lines(live, block));
        },
    }
}

/// Appends the lines of the password and of the boot hart.
fn push_password_hart(text: &mut Vec<u8>, p: Option<(u64, u64)>, h: Option<u64>, Ghost(lines): Ghost<Seq<Seq<u8>>>)
    requires
        old(text)@ == join_lines(lines),
    ensures
        final(text)@ == join_lines(lines + password_lines(p) + hart_lines(h)),
{
    let ghost mid = lines + password_lines(p);
    match p {
        Some((a, s)) => {
            push_hex_line(text, EnvKey::RedoxfsPasswordAddr, a, Ghost(lines));
            push_hex_line(text, EnvKey::RedoxfsPasswordSize, s, Ghost(lines.push(hex_line(EnvKey::RedoxfsPasswordAddr, a))));
            assert(lines.push(hex_line(EnvKey::RedoxfsPasswordAddr, a)).push(hex_line(EnvKey::RedoxfsPasswordSize, s)) =~= mid);
        },
        None => {
            assert(lines =~= mid);
        },
    }
    match h {
        Some(id) => {
            push_hex_line(text, EnvKey::BootHartId, id, Ghost(mid));
            assert(mid.push(hex_line(EnvKey::BootHartId, id)) =~= mid + hart_lines(h));
        },
        None => {
            assert(mid =~= mid + hart_lines(h));
        },
    }
}

/// Appends the lines of the first output's framebuffer.
fn push_fb(text: &mut Vec<u8>, f: Option<FramebufferEnv>, Ghost(lines): Ghost<Seq<Seq<u8>>>)
    requires
        old(text)@ == join_lines(lines),
    ensures
        final(text)@ == join_lines(lines + fb_lines(f)),
{
    match f {
        Some(fb) => {
            let ghost l1 = lines.push(hex_line(EnvKey::FramebufferAddr, fb.addr));
            let ghost l2 = l1.push(hex_line(EnvKey::FramebufferVirt, fb.virt));
            let ghost l3 = l2.push(hex_line(EnvKey::FramebufferWidth, fb.width as u64));
            let ghost l4 = l3.push(hex_line(EnvKey::FramebufferHeight, fb.height as u64));
            push_hex_line(text, EnvKey::FramebufferAddr, fb.addr, Ghost(lines));
            push_hex_line(text, EnvKey::FramebufferVirt, fb.virt, Ghost(l1));
            push_hex_line(text, EnvKey::FramebufferWidth, fb.width as u64, Ghost(l2));
            push_hex_line(text, EnvKey::FramebufferHeight, fb.height as u64, Ghost(l3));
            push_hex_line(text, EnvKey::FramebufferStride, fb.stride as u64, Ghost(l4));
            assert(l4.push(hex_line(EnvKey::FramebufferStride, fb.stride as u64)) =~= lines + fb_lines(f));
        },
        None => {
            assert(lines =~= lines + fb_lines(f));
        },
    }
}

/// Appends the lines of the additional outputs.
fn push_outputs(text: &mut Vec<u8>, outputs: &Vec<(u64, OsVideoMode)>, Ghost(head): Ghost<Seq<Seq<u8>>>)
    requires
        old(text)@ == join_lines(head),
    ensures
        final(text)@ == join_lines(head + output_lines(outputs@)),
{
    let ghost mut lines = head;
    let mut j: usize = 0;
    while j < outputs.len()
        invariant
            j <= outputs@.len(),
            lines == head + output_lines(outputs@.take(j as int)),
            text@ == join_lines(lines),
        decreases outputs@.len() - j,
    {
        let (n, m) = outputs[j];
        let mut l = output_line_vec(n, &m);
        push_line(text, &mut l, Ghost(lines));
        proof {
            lines = lines.push(output_line(n, m));
            assert(output_lines(outputs@.take(j + 1)) =~= output_lines(outputs@.take(j as int)).push(output_line(n, m)));
            assert(lines =~= head + output_lines(outputs@.take(j + 1)));
        }
        j = j + 1;
    }
    assert(outputs@.take(outputs@.len() as int) =~= outputs@);
}

/// Writes the environment: the adapter's name, the hardware descriptor,
/// where the filesystem is, its identifier, the password, the boot hart and
/// the framebuffers, one `KEY=value` line each.
#[verifier::spinoff_prover]
pub fn build_env(e: &BootEnv) -> (r: Vec<u8>)
    requires
        e.uuid@.len() == 16,
    ensures
        r@ == env_text(*e),
{
    let mut text: Vec<u8> = Vec::new();
    let mut l = key_bytes(EnvKey::BootMode);
    let name_bytes = e.name.as_str().as_bytes();
    let mut i: usize = 0;
    while i < name_bytes.len()
        invariant
            i <= name_bytes@.len(),
            l@ == key_text(EnvKey::BootMode) + name_bytes@.take(i as int),
        decreases name_bytes@.len() - i,
    {
        l.push(name_bytes[i]);
        proof {
            assert(name_bytes@.take(i + 1) =~= name_bytes@.take(i as int).push(name_bytes@[i as int]));
        }
        i = i + 1;
    }
    proof {
        assert(name_bytes@.take(name_bytes@.len() as int) =~= name_bytes@);
        assert(join_lines(Seq::<Seq<u8>>::empty()) == Seq::<u8>::empty());
    }
    let ghost l0 = seq![line(EnvKey::BootMode, encode_utf8(e.name@))];
    push_line(&mut text, &mut l, Ghost(Seq::empty()));
    proof {
        assert(Seq::<Seq<u8>>::empty().push(line(EnvKey::BootMode, encode_utf8(e.name@))) =~= l0);
    }
    push_hw(&mut text, e.hwdesc, Ghost(l0));
    let ghost l1 = l0 + hw_lines(e.hwdesc);
    push_disk(&mut text, e.live, e.block, Ghost(l1));
    let ghost l2 = l1 + disk_lines(e.live, e.block);
    let mut l = key_bytes(EnvKey::RedoxfsUuid);
    push_uuid(&mut l, &e.uuid);
    push_line(&mut text, &mut l, Ghost(l2));
    let ghost l3 = l2.push(line(EnvKey::RedoxfsUuid, uuid_text(e.uuid@, 16)));
    push_password_hart(&mut text, e.password, e.hart_id, Ghost(l3));
    let ghost l4 = l3 + password_lines(e.password) + hart_lines(e.hart_id);
    push_fb(&mut text, e.framebuffer, Ghost(l4));
    let ghost l5 = l4 + fb_lines(e.framebuffer);
    push_outputs(&mut text, &e.outputs, Ghost(l5));
    proof {
        assert(l5 + output_lines(e.outputs@) =~= env_lines(*e));
    }
    text
}

/// `l` begins with `p`.
pub open spec fn starts_with(l: Seq<u8>, p: Seq<u8>) -> bool {
    p.len() <= l.len() && l.take(p.len() as int) == p
}

/// The number of lines of `ls` that begin with `p`.
pub open spec fn count_starting(ls: Seq<Seq<u8>>, p: Seq<u8>) -> nat
    decreases ls.len(),
{
    if ls.len() == 0 {
        0
    } else {
        count_starting(ls.drop_last(), p) + if starts_with(ls.last(), p) { 1nat } else { 0nat }
    }
}

/// Every byte of `s` is ASCII.
pub open spec fn is_ascii(s: Seq<u8>) -> bool {
    forall|i: int| 0 <= i < s.len() ==> #[trigger] s[i] < 0x80
}

proof fn lemma_count_concat(a: Seq<Seq<u8>>, b: Seq<Seq<u8>>, p: Seq<u8>)
    ensures
        count_starting(a + b, p) == count_starting(a, p) + count_starting(b, p),
    decreases b.len(),
{
    if b.len() == 0 {
        assert(a + b =~= a);
    } else {
        lemma_count_concat(a, b.drop_last(), p);
        assert((a + b).drop_last() =~= a + b.drop_last());
    }
}

proof fn lemma_differs_at(l: Seq<u8>, p: Seq<u8>, i: int)
    requires
        0 <= i < p.len(),
        i < l.len(),
        l[i] != p[i],
    ensures
        !starts_with(l, p),
{
    if starts_with(l, p) {
        assert(l.take(p.len() as int)[i] == p[i]);
    }
}

/// The line of `k` begins with the block key only when `k` is that key.
proof fn lemma_key_line_block(k: EnvKey, v: Seq<u8>)
    ensures
        starts_with(line(k, v), key_text(EnvKey::RedoxfsBlock)) <==> k == EnvKey::RedoxfsBlock,
{
    let p = key_text(EnvKey::RedoxfsBlock);
    let l = line(k, v);
    let kt = key_text(k);
    if k == EnvKey::RedoxfsBlock {
        assert(l.take(p.len() as int) =~= p);
    } else {
        let i: int = match k {
            EnvKey::RsdpAddr | EnvKey::RsdpSize => 1,
            EnvKey::RedoxfsUuid | EnvKey::RedoxfsPasswordAddr | EnvKey::RedoxfsPasswordSize => 8,
            _ => 0,
        };
        assert(l[i] == kt[i]);
        lemma_differs_at(l, p, i);
    }
}

proof fn lemma_count_push(ls: Seq<Seq<u8>>, l: Seq<u8>, p: Seq<u8>)
    ensures
        count_starting(ls.push(l), p) == count_starting(ls, p) + if starts_with(l, p) { 1nat } else { 0nat },
{
    assert(ls.push(l).drop_last() =~= ls);
}

/// Exactly one line of the environment gives the filesystem's block.
#[verifier::spinoff_prover]
pub proof fn lemma_env_block_line(e: BootEnv)
    ensures
        count_starting(env_lines(e), key_text(EnvKey::RedoxfsBlock)) == 1,
{
    let p = key_text(EnvKey::RedoxfsBlock);
    let s0 = seq![line(EnvKey::BootMode, encode_utf8(e.name@))];
    let s1 = hw_lines(e.hwdesc);
    let s2 = disk_lines(e.live, e.block);
    let s3 = seq![line(EnvKey::RedoxfsUuid, uuid_text(e.uuid@, 16))];
    let s4 = password_lines(e.password);
    let s5 = hart_lines(e.hart_id);
    let s6 = fb_lines(e.framebuffer);
    let s7 = output_lines(e.outputs@);
    lemma_count_concat(s0, s1, p);
    lemma_count_concat(s0 + s1, s2, p);
    lemma_count_concat(s0 + s1 + s2, s3, p);
    lemma_count_concat(s0 + s1 + s2 + s3, s4, p);
    lemma_count_concat(s0 + s1 + s2 + s3 + s4, s5, p);
    lemma_count_concat(s0 + s1 + s2 + s3 + s4 + s5, s6, p);
    lemma_count_concat(s0 + s1 + s2 + s3 + s4 + s5 + s6, s7, p);
    lemma_count_one(EnvKey::BootMode, encode_utf8(e.name@));
    lemma_count_one(EnvKey::RedoxfsUuid, uuid_text(e.uuid@, 16));
    match e.hwdesc {
        OsHwDesc::Acpi(a, s) => lemma_count_two(EnvKey::RsdpAddr, hex16(a), EnvKey::RsdpSize, hex16(s)),
        OsHwDesc::DeviceTree(a, s) => lemma_count_two(EnvKey::DtbAddr, hex16(a), EnvKey::DtbSize, hex16(s)),
        OsHwDesc::NotFound => {},
    }
    match e.live {
        Some((a, s)) => {
            lemma_count_two(EnvKey::DiskLiveAddr, hex16(a), EnvKey::DiskLiveSize, hex16(s));
            lemma_count_push(seq![hex_line(EnvKey::DiskLiveAddr, a), hex_line(EnvKey::DiskLiveSize, s)], hex_line(EnvKey::RedoxfsBlock, 0), p);
            lemma_key_line_block(EnvKey::RedoxfsBlock, hex16(0));
            assert(seq![hex_line(EnvKey::DiskLiveAddr, a), hex_line(EnvKey::DiskLiveSize, s)].push(hex_line(EnvKey::RedoxfsBlock, 0)) =~= s2);
        },
        None => {
            lemma_count_one(EnvKey::RedoxfsBlock, hex16(e.block));
        },
    }
    match e.password {
        Some((a, s)) => lemma_count_two(EnvKey::RedoxfsPasswordAddr, hex16(a), EnvKey::RedoxfsPasswordSize, hex16(s)),
        None => {},
    }
    match e.hart_id {
        Some(id) => lemma_count_one(EnvKey::BootHartId, hex16(id)),
        None => {},
    }
    match e.framebuffer {
        Some(fb) => {
            lemma_count_two(EnvKey::FramebufferAddr, hex16(fb.addr), EnvKey::FramebufferVirt, hex16(fb.virt));
            let l2 = seq![hex_line(EnvKey::FramebufferAddr, fb.addr), hex_line(EnvKey::FramebufferVirt, fb.virt)];
            let l3 = l2.push(hex_line(EnvKey::FramebufferWidth, fb.width as u64));
            let l4 = l3.push(hex_line(EnvKey::FramebufferHeight, fb.height as u64));
            lemma_count_push(l2, hex_line(EnvKey::FramebufferWidth, fb.width as u64), p);
            lemma_count_push(l3, hex_line(EnvKey::FramebufferHeight, fb.height as u64), p);
            lemma_count_push(l4, hex_line(EnvKey::FramebufferStride, fb.stride as u64), p);
            lemma_key_line_block(EnvKey::FramebufferWidth, hex16(fb.width as u64));
            lemma_key_line_block(EnvKey::FramebufferHeight, hex16(fb.height as u64));
            lemma_key_line_block(EnvKey::FramebufferStride, hex16(fb.stride as u64));
            assert(l4.push(hex_line(EnvKey::FramebufferStride, fb.stride as u64)) =~= s6);
        },
        None => {},
    }
    lemma_outputs_count(e.outputs@, e.outputs@.len() as int);
    assert(e.outputs@.take(e.outputs@.len() as int) =~= e.outputs@);
    assert(env_lines(e) == s0 + s1 + s2 + s3 + s4 + s5 + s6 + s7);
}

proof fn lemma_count_one(k: EnvKey, v: Seq<u8>)
    ensures
        count_starting(seq![line(k, v)], key_text(EnvKey::RedoxfsBlock)) == if k == EnvKey::RedoxfsBlock { 1nat } else { 0nat },
{
    lemma_count_push(Seq::empty(), line(k, v), key_text(EnvKey::RedoxfsBlock));
    assert(Seq::<Seq<u8>>::empty().push(line(k, v)) =~= seq![line(k, v)]);
    assert(count_starting(Seq::<Seq<u8>>::empty(), key_text(EnvKey::RedoxfsBlock)) == 0);
    lemma_key_line_block(k, v);
}

proof fn lemma_count_two(k1: EnvKey, v1: Seq<u8>, k2: EnvKey, v2: Seq<u8>)
    requires
        k1 != EnvKey::RedoxfsBlock,
        k2 != EnvKey::RedoxfsBlock,
    ensures
        count_starting(seq![line(k1, v1), line(k2, v2)], key_text(EnvKey::RedoxfsBlock)) == 0,
{
    lemma_count_one(k1, v1);
    lemma_count_push(seq![line(k1, v1)], line(k2, v2), key_text(EnvKey::RedoxfsBlock));
    assert(seq![line(k1, v1)].push(line(k2, v2)) =~= seq![line(k1, v1), line(k2, v2)]);
    lemma_key_line_block(k2, v2);
}

proof fn lemma_outputs_count(o: Seq<(u64, OsVideoMode)>, n: int)
    requires
        0 <= n <= o.len(),
    ensures
        count_starting(output_lines(o.take(n)), key_text(EnvKey::RedoxfsBlock)) == 0,
    decreases n,
{
    if n > 0 {
        lemma_outputs_count(o, n - 1);
        let ls = output_lines(o.take(n));
        assert(ls.drop_last() =~= output_lines(o.take(n - 1)));
        let l = ls.last();
        let kt = key_text(EnvKey::Framebuffer);
        assert(l == output_line(o[n - 1].0, o[n - 1].1));
        assert(l[0] == kt[0]);
        lemma_differs_at(l, key_text(EnvKey::RedoxfsBlock), 0);
    } else {
        assert(output_lines(o.take(0)) =~= Seq::<Seq<u8>>::empty());
    }
}

proof fn lemma_ascii_byte_valid(b: u8)
    requires
        b < 0x80,
    ensures
        valid_utf8(seq![b]),
{
    reveal_with_fuel(valid_utf8, 2);
    let s = seq![b];
    assert(is_leading_byte_width_1(b));
    assert(pop_first_scalar(s) =~= Seq::<u8>::empty());
}

proof fn lemma_ascii_valid(s: Seq<u8>)
    requires
        is_ascii(s),
    ensures
        valid_utf8(s),
    decreases s.len(),
{
    if s.len() == 0 {
        reveal_with_fuel(valid_utf8, 1);
    } else {
        let t = s.drop_last();
        assert(is_ascii(t)) by {
            assert forall|i: int| 0 <= i < t.len() implies #[trigger] t[i] < 0x80 by {
                assert(t[i] == s[i]);
            }
        }
        lemma_ascii_valid(t);
        lemma_ascii_byte_valid(s.last());
        valid_utf8_concat(t, seq![s.last()]);
        assert(t + seq![s.last()] =~= s);
    }
}

proof fn lemma_ascii_concat(a: Seq<u8>, b: Seq<u8>)
    requires
        is_ascii(a),
        is_ascii(b),
    ensures
        is_ascii(a + b),
{
    assert forall|i: int| 0 <= i < (a + b).len() implies #[trigger] (a + b)[i] < 0x80 by {
        if i < a.len() {
            assert((a + b)[i] == a[i]);
        } else {
            assert((a + b)[i] == b[i - a.len()]);
        }
    }
}

proof fn lemma_ascii_push(a: Seq<u8>, c: u8)
    requires
        is_ascii(a),
        c < 0x80,
    ensures
        is_ascii(a.push(c)),
{
    assert forall|i: int| 0 <= i < a.push(c).len() implies #[trigger] a.push(c)[i] < 0x80 by {
        if i < a.len() {
            assert(a.push(c)[i] == a[i]);
        }
    }
}

proof fn lemma_key_ascii(k: EnvKey)
    ensures
        is_ascii(key_text(k)),
{
    let t = key_text(k);
    assert forall|i: int| 0 <= i < t.len() implies #[trigger] t[i] < 0x80 by {
        assert(t[i] < 0x80);
    }
}

proof fn lemma_hex_digits_ascii(x: nat, n: nat)
    ensures
        is_ascii(hex_digits(x, n)),
    decreases n,
{
    if n > 0 {
        lemma_hex_digits_ascii(x / 16, (n - 1) as nat);
        lemma_ascii_push(hex_digits(x / 16, (n - 1) as nat), hex_char((x % 16) as int));
    }
}

proof fn lemma_hex_min_ascii(x: nat)
    ensures
        is_ascii(hex_min(x)),
    decreases x,
{
    if x >= 16 {
        lemma_hex_min_ascii(x / 16);
        lemma_ascii_push(hex_min(x / 16), hex_char((x % 16) as int));
    } else {
        lemma_ascii_push(Seq::empty(), hex_char(x as int));
        assert(Seq::<u8>::empty().push(hex_char(x as int)) =~= hex_min(x));
    }
}

proof fn lemma_dec_ascii(x: nat)
    ensures
        is_ascii(dec_text(x)),
    decreases x,
{
    if x >= 10 {
        lemma_dec_ascii(x / 10);
        lemma_ascii_push(dec_text(x / 10), dec_char((x % 10) as int));
    } else {
        lemma_ascii_push(Seq::empty(), dec_char(x as int));
        assert(Seq::<u8>::empty().push(dec_char(x as int)) =~= dec_text(x));
    }
}

proof fn lemma_uuid_ascii(u: Seq<u8>, n: nat)
    ensures
        is_ascii(uuid_text(u, n)),
    decreases n,
{
    if n > 0 {
        let i = (n - 1) as nat;
        lemma_uuid_ascii(u, i);
        let dash: Seq<u8> = if i == 4 || i == 6 || i == 8 || i == 10 { seq![0x2du8] } else { Seq::empty() };
        assert(is_ascii(dash));
        lemma_hex_digits_ascii(u[i as int] as nat, 2);
        lemma_ascii_concat(uuid_text(u, i), dash);
        lemma_ascii_concat(uuid_text(u, i) + dash, hex_digits(u[i as int] as nat, 2));
    }
}

proof fn lemma_hex_line_valid(k: EnvKey, x: u64)
    ensures
        valid_utf8(hex_line(k, x)),
{
    lemma_key_ascii(k);
    lemma_hex_digits_ascii(x as nat, 16);
    lemma_ascii_concat(key_text(k), hex16(x));
    lemma_ascii_valid(hex_line(k, x));
}

proof fn lemma_output_line_valid(n: u64, m: OsVideoMode)
    ensures
        valid_utf8(output_line(n, m)),
{
    let k = key_text(EnvKey::Framebuffer);
    let eq: Seq<u8> = seq![0x3du8, 0x30u8, 0x78u8];
    let comma: Seq<u8> = seq![0x2cu8];
    lemma_key_ascii(EnvKey::Framebuffer);
    lemma_dec_ascii(n as nat);
    lemma_hex_min_ascii(m.base as nat);
    lemma_dec_ascii(m.width as nat);
    lemma_dec_ascii(m.height as nat);
    lemma_dec_ascii(m.stride as nat);
    assert(is_ascii(eq));
    assert(is_ascii(comma));
    let p1 = k + dec_text(n as nat);
    lemma_ascii_concat(k, dec_text(n as nat));
    let p2 = p1 + eq;
    lemma_ascii_concat(p1, eq);
    let p3 = p2 + hex_min(m.base as nat);
    lemma_ascii_concat(p2, hex_min(m.base as nat));
    let p4 = p3 + comma;
    lemma_ascii_concat(p3, comma);
    let p5 = p4 + dec_text(m.width as nat);
    lemma_ascii_concat(p4, dec_text(m.width as nat));
    let p6 = p5 + comma;
    lemma_ascii_concat(p5, comma);
    let p7 = p6 + dec_text(m.height as nat);
    lemma_ascii_concat(p6, dec_text(m.height as nat));
    let p8 = p7 + comma;
    lemma_ascii_concat(p7, comma);
    lemma_ascii_concat(p8, dec_text(m.stride as nat));
    lemma_ascii_valid(output_line(n, m));
}

/// Every line of `ls` is valid UTF-8.
pub open spec fn lines_valid(ls: Seq<Seq<u8>>) -> bool {
    forall|i: int| 0 <= i < ls.len() ==> valid_utf8(#[trigger] ls[i])
}

proof fn lemma_join_valid(ls: Seq<Seq<u8>>)
    requires
        lines_valid(ls),
    ensures
        valid_utf8(join_lines(ls)),
    decreases ls.len(),
{
    if ls.len() == 0 {
        reveal_with_fuel(valid_utf8, 1);
    } else {
        let t = ls.drop_last();
        assert(lines_valid(t)) by {
            assert forall|i: int| 0 <= i < t.len() implies valid_utf8(#[trigger] t[i]) by {
                assert(t[i] == ls[i]);
            }
        }
        lemma_join_valid(t);
        assert(valid_utf8(ls.last()));
        lemma_ascii_byte_valid(0x0a);
        valid_utf8_concat(join_lines(t), ls.last());
        valid_utf8_concat(join_lines(t) + ls.last(), seq![0x0au8]);
    }
}

proof fn lemma_concat_lines_valid(a: Seq<Seq<u8>>, b: Seq<Seq<u8>>)
    requires
        lines_valid(a),
        lines_valid(b),
    ensures
        lines_valid(a + b),
{
    assert forall|i: int| 0 <= i < (a + b).len() implies valid_utf8(#[trigger] (a + b)[i]) by {
        if i < a.len() {
            assert((a + b)[i] == a[i]);
        } else {
            assert((a + b)[i] == b[i - a.len()]);
        }
    }
}

/// The environment's text is valid UTF-8.
#[verifier::spinoff_prover]
pub proof fn lemma_env_utf8(e: BootEnv)
    ensures
        valid_utf8(env_text(e)),
{
    let s0 = seq![line(EnvKey::BootMode, encode_utf8(e.name@))];
    let s1 = hw_lines(e.hwdesc);
    let s2 = disk_lines(e.live, e.block);
    let s3 = seq![line(EnvKey::RedoxfsUuid, uuid_text(e.uuid@, 16))];
    let s4 = password_lines(e.password);
    let s5 = hart_lines(e.hart_id);
    let s6 = fb_lines(e.framebuffer);
    let s7 = output_lines(e.outputs@);
    lemma_key_ascii(EnvKey::BootMode);
    lemma_ascii_valid(key_text(EnvKey::BootMode));
    encode_utf8_valid_utf8(e.name@);
    valid_utf8_concat(key_text(EnvKey::BootMode), encode_utf8(e.name@));
    assert(lines_valid(s0));
    match e.hwdesc {
        OsHwDesc::Acpi(a, s) => {
            lemma_hex_line_valid(EnvKey::RsdpAddr, a);
            lemma_hex_line_valid(EnvKey::RsdpSize, s);
        },
        OsHwDesc::DeviceTree(a, s) => {
            lemma_hex_line_valid(EnvKey::DtbAddr, a);
            lemma_hex_line_valid(EnvKey::DtbSize, s);
        },
        OsHwDesc::NotFound => {},
    }
    assert(lines_valid(s1));
    match e.live {
        Some((a, s)) => {
            lemma_hex_line_valid(EnvKey::DiskLiveAddr, a);
            lemma_hex_line_valid(EnvKey::DiskLiveSize, s);
            lemma_hex_line_valid(EnvKey::RedoxfsBlock, 0);
        },
        None => {
            lemma_hex_line_valid(EnvKey::RedoxfsBlock, e.block);
        },
    }
    assert(lines_valid(s2));
    lemma_key_ascii(EnvKey::RedoxfsUuid);
    lemma_uuid_ascii(e.uuid@, 16);
    lemma_ascii_concat(key_text(EnvKey::RedoxfsUuid), uuid_text(e.uuid@, 16));
    lemma_ascii_valid(line(EnvKey::RedoxfsUuid, uuid_text(e.uuid@, 16)));
    assert(lines_valid(s3));
    match e.password {
        Some((a, s)) => {
            lemma_hex_line_valid(EnvKey::RedoxfsPasswordAddr, a);
            lemma_hex_line_valid(EnvKey::RedoxfsPasswordSize, s);
        },
        None => {},
    }
    assert(lines_valid(s4));
    match e.hart_id {
        Some(id) => lemma_hex_line_valid(EnvKey::BootHartId, id),
        None => {},
    }
    assert(lines_valid(s5));
    match e.framebuffer {
        Some(fb) => {
            lemma_hex_line_valid(EnvKey::FramebufferAddr, fb.addr);
            lemma_hex_line_valid(EnvKey::FramebufferVirt, fb.virt);
            lemma_hex_line_valid(EnvKey::FramebufferWidth, fb.width as u64);
            lemma_hex_line_valid(EnvKey::FramebufferHeight, fb.height as u64);
            lemma_hex_line_valid(EnvKey::FramebufferStride, fb.stride as u64);
        },
        None => {},
    }
    assert(lines_valid(s6));
    assert forall|i: int| 0 <= i < s7.len() implies valid_utf8(#[trigger] s7[i]) by {
        lemma_output_line_valid(e.outputs@[i].0, e.outputs@[i].1);
    }
    lemma_concat_lines_valid(s0, s1);
    lemma_concat_lines_valid(s0 + s1, s2);
    lemma_concat_lines_valid(s0 + s1 + s2, s3);
    lemma_concat_lines_valid(s0 + s1 + s2 + s3, s4);
    lemma_concat_lines_valid(s0 + s1 + s2 + s3 + s4, s5);
    lemma_concat_lines_valid(s0 + s1 + s2 + s3 + s4 + s5, s6);
    lemma_concat_lines_valid(s0 + s1 + s2 + s3 + s4 + s5 + s6, s7);
    assert(env_lines(e) == s0 + s1 + s2 + s3 + s4 + s5 + s6 + s7);
    lemma_join_valid(env_lines(e));
}

} // verus!
