//! The bootloader core: it validates the firmware image in the flash area
//! (a size word at a fixed offset, the image, and its CRC-32 right after),
//! finds and checks a pending update, and streams a plain update into the
//! HAL's programming interface.
//!
//! The flash area is handed in as the bytes it currently holds; offsets are
//! alignment-checked relative to its word-aligned start, as the in-place
//! reads on the device demand.

use vstd::prelude::*;

use crate::bytes::{align_up, le32, read_le32};
use vstd::slice::slice_subrange;

verus! {

/// Why the bootloader refuses to boot or to take an update.
#[derive(Clone, Copy, Debug, PartialEq, Eq, Structural)]
pub enum NanoReason {
    /// The HAL failed, with its own code.
    HalError(u16),
    /// The firmware size word is unreadable or out of range.
    FwSizeInvalid,
    /// The firmware checksum does not match its image.
    FwCrcMismatch,
}

pub type NanoResult<T = ()> = Result<T, NanoReason>;

/// `Some` exactly when the condition holds.
pub fn ensure(b: bool) -> (r: Option<()>)
    ensures
        r.is_some() <==> b,
{
    if b {
        Some(())
    } else {
        None
    }
}

/// The CRC-32 checksum the bootloader uses; a function of the bytes alone.
pub uninterp spec fn crc32_of(data: Seq<u8>) -> u32;

/// Relies on crc::Crc::<u32>::checksum with the crc::CRC_32_ISO_HDLC
/// algorithm: the checksum depends on the input bytes alone.
#[verifier::external_body]
pub fn crc32(data: &[u8]) -> (r: u32)
    ensures
        r == crc32_of(data@),
{
    crc::Crc::<u32>::new(&crc::CRC_32_ISO_HDLC).checksum(data)
}

/// The programming side of the hardware abstraction the bootloader drives.
/// An implementation accepts bytes one at a time and commits them to the
/// firmware area; `programmed` reports the bytes accepted so far. Finishing
/// may pad the tail (for instance to a whole flash word).
pub trait NanoHal {
    /// The bytes accepted for programming so far. An implementation outside
    /// the verified world may leave this at its default.
    open spec fn programmed(&self) -> Seq<u8> {
        Seq::<u8>::empty()
    }

    /// Where a pending update header sits, if the HAL knows of one.
    fn update_address(&mut self) -> (r: Option<usize>);

    /// Forget the pending update.
    fn update_clear(&mut self);

    fn program_start(&mut self) -> (r: NanoResult)
        ensures
            r.is_ok() ==> final(self).programmed() == Seq::<u8>::empty(),
    ;

    fn program_write(&mut self, value: u8) -> (r: NanoResult)
        ensures
            r.is_ok() ==> final(self).programmed() == old(self).programmed().push(value),
    ;

    fn program_read(&mut self, offset: usize) -> (r: NanoResult<u8>);

    fn program_finish(&mut self) -> (r: NanoResult)
        ensures
            r.is_ok() ==> exists|pad: Seq<u8>|
                final(self).programmed() == old(self).programmed() + pad,
    ;
}

/// What validating the firmware area yields: the size word must be readable
/// and word-aligned, the image and its trailing checksum must fit, and the
/// checksum must match.
pub open spec fn check_firmware_spec(fw: Seq<u8>, size_off: int) -> Result<(), NanoReason> {
    if !(0 <= size_off && size_off % 4 == 0 && size_off + 4 <= fw.len()) {
        Err(NanoReason::FwSizeInvalid)
    } else {
        let fwsize = le32(fw.subrange(size_off, size_off + 4)) as int;
        if !(fwsize % 4 == 0 && fwsize + 4 <= fw.len()) {
            Err(NanoReason::FwSizeInvalid)
        } else if crc32_of(fw.subrange(0, fwsize)) == le32(fw.subrange(fwsize, fwsize + 4)) {
            Ok(())
        } else {
            Err(NanoReason::FwCrcMismatch)
        }
    }
}

/// Validate the firmware image held in `fwarea`: read its size word at
/// `size_off`, and check the CRC-32 stored right after the image against the
/// image itself.
pub fn check_firmware(fwarea: &[u8], size_off: usize) -> (r: NanoResult)
    ensures
        r == check_firmware_spec(fwarea@, size_off as int),
{
    if !(size_off % 4 == 0 && size_off <= fwarea.len() && fwarea.len() - size_off >= 4) {
        return Err(NanoReason::FwSizeInvalid);
    }
    let fwsize = read_le32(fwarea, size_off) as usize;
    if !(fwsize % 4 == 0 && fwsize <= fwarea.len() && fwarea.len() - fwsize >= 4) {
        return Err(NanoReason::FwSizeInvalid);
    }
    let image = slice_subrange(fwarea, 0, fwsize);
    let actual = crc32(image);
    let stored = read_le32(fwarea, fwsize);
    if actual == stored {
        Ok(())
    } else {
        Err(NanoReason::FwCrcMismatch)
    }
}

/// The header in front of a pending update.
#[derive(Clone, Copy, Debug, PartialEq, Eq, Structural)]
pub struct UpdateInfo {
    /// CRC-32 of the whole update except this field.
    pub checksum: u32,
    /// Size of the whole update in bytes, this header included.
    pub upsize: u32,
    /// Update type; only `UPDATE_TYPE_PLAIN` is installed.
    pub uptype: u32,
    /// Size of the firmware once unpacked.
    pub fwsize: u32,
}

/// The one update type this bootloader installs: the firmware image as-is.
pub const UPDATE_TYPE_PLAIN: u32 = 0;

/// Size of the update header in bytes.
pub const UPDATE_INFO_SIZE: usize = 16;

/// What checking for an update at `up_addr` yields: the header must sit
/// word-aligned inside the area, the update must fit, and its checksum must
/// cover everything after the checksum field. The result is the header and
/// the payload's position in the area.
pub open spec fn check_update_spec(fw: Seq<u8>, fw_start: int, up_addr: int) -> Option<
    (UpdateInfo, int, int),
> {
    let off = up_addr - fw_start;
    if !(0 <= off && off % 4 == 0 && off + 16 <= fw.len()) {
        None
    } else {
        let info = UpdateInfo {
            checksum: le32(fw.subrange(off, off + 4)),
            upsize: le32(fw.subrange(off + 4, off + 8)),
            uptype: le32(fw.subrange(off + 8, off + 12)),
            fwsize: le32(fw.subrange(off + 12, off + 16)),
        };
        if !(info.upsize >= 16 && off + info.upsize <= fw.len()) {
            None
        } else if crc32_of(fw.subrange(off + 4, off + info.upsize)) != info.checksum {
            None
        } else {
            Some((info, off + 16, info.upsize - 16))
        }
    }
}

/// Check for a pending update whose header sits at address `up_addr`, inside
/// the firmware area starting at address `fw_start`. On success, the header
/// and the payload's offset and length in the area come back.
pub fn check_update(fwarea: &[u8], fw_start: usize, up_addr: usize) -> (r: Option<
    (UpdateInfo, usize, usize),
>)
    ensures
        match r {
            Some(t) => check_update_spec(fwarea@, fw_start as int, up_addr as int) == Some(
                (t.0, t.1 as int, t.2 as int),
            ),
            None => check_update_spec(fwarea@, fw_start as int, up_addr as int).is_none(),
        },
{
    if up_addr < fw_start {
        return None;
    }
    let off = up_addr - fw_start;
    if !(off % 4 == 0 && off <= fwarea.len() && fwarea.len() - off >= UPDATE_INFO_SIZE) {
        return None;
    }
    let info = UpdateInfo {
        checksum: read_le32(fwarea, off),
        upsize: read_le32(fwarea, off + 4),
        uptype: read_le32(fwarea, off + 8),
        fwsize: read_le32(fwarea, off + 12),
    };
    if !(info.upsize as usize >= UPDATE_INFO_SIZE && info.upsize as usize <= fwarea.len() - off) {
        return None;
    }
    let upslice = slice_subrange(fwarea, off + 4, off + info.upsize as usize);
    let checksum = crc32(upslice);
    if checksum != info.checksum {
        return None;
    }
    Some((info, off + UPDATE_INFO_SIZE, info.upsize as usize - UPDATE_INFO_SIZE))
}

/// The pure checks an update must pass before it is streamed: the payload is
/// exactly the announced firmware, and the image rounded up to whole pages
/// leaves the update itself (sitting above it) untouched.
pub open spec fn install_checks(
    info: UpdateInfo,
    data_len: int,
    fw_start: usize,
    fw_page_sz: usize,
    update_addr: usize,
) -> bool {
    &&& info.fwsize == data_len
    &&& crate::bytes::align_up_spec(info.fwsize as usize, fw_page_sz) <= usize::MAX
    &&& fw_start + crate::bytes::align_up_spec(info.fwsize as usize, fw_page_sz) <= usize::MAX
    &&& fw_start + crate::bytes::align_up_spec(info.fwsize as usize, fw_page_sz) <= update_addr
}

/// Install a plain update: after the `install_checks`, stream every payload
/// byte into the HAL's programming interface. On success the checks held and
/// every byte was accepted in order (the HAL may pad the tail when
/// finishing); failing checks yield `None` without starting, and a HAL
/// refusal is the only other source of `None`.
pub fn install_plain<H: NanoHal>(
    hal: &mut H,
    info: UpdateInfo,
    data: &[u8],
    fw_start: usize,
    fw_page_sz: usize,
    update_addr: usize,
) -> (r: Option<()>)
    requires
        fw_page_sz > 0,
    ensures
        r.is_some() ==> install_checks(info, data@.len() as int, fw_start, fw_page_sz, update_addr)
            && (exists|pad: Seq<u8>| final(hal).programmed() == data@ + pad),
        !install_checks(info, data@.len() as int, fw_start, fw_page_sz, update_addr)
            ==> r.is_none() && *final(hal) == *old(hal),
{
    if !(info.fwsize as usize == data.len()) {
        return None;
    }
    let size = match align_up(info.fwsize as usize, fw_page_sz) {
        Some(v) => v,
        None => {
            return None;
        },
    };
    if fw_start > usize::MAX - size {
        return None;
    }
    if !(fw_start + size <= update_addr) {
        return None;
    }
    match hal.program_start() {
        Ok(_) => {},
        Err(_) => {
            return None;
        },
    }
    let n = data.len();
    let mut i: usize = 0;
    while i < n
        invariant
            n == data@.len(),
            0 <= i <= n,
            install_checks(info, data@.len() as int, fw_start, fw_page_sz, update_addr),
            hal.programmed() == data@.subrange(0, i as int),
        decreases n - i,
    {
        match hal.program_write(data[i]) {
            Ok(_) => {},
            Err(_) => {
                return None;
            },
        }
        proof {
            assert(data@.subrange(0, i as int).push(data@[i as int]) =~= data@.subrange(
                0,
                i + 1,
            ));
        }
        i = i + 1;
    }
    proof {
        assert(data@.subrange(0, n as int) =~= data@);
    }
    match hal.program_finish() {
        Ok(_) => Some(()),
        Err(_) => None,
    }
}

/// Process a pending update: with a candidate address from the HAL, check it
/// and install a plain update. The result says whether a valid update was
/// found; the caller then re-validates the firmware area and clears the
/// update only if the device now holds a bootable image.
pub fn process_update<H: NanoHal>(
    hal: &mut H,
    fwarea: &[u8],
    upinfo_addr: Option<usize>,
    fw_start: usize,
    fw_page_sz: usize,
) -> (r: bool)
    requires
        fw_page_sz > 0,
    ensures
        r == (match upinfo_addr {
            Some(a) => check_update_spec(fwarea@, fw_start as int, a as int).is_some(),
            None => false,
        }),
{
    let up_addr = match upinfo_addr {
        Some(a) => a,
        None => {
            return false;
        },
    };
    match check_update(fwarea, fw_start, up_addr) {
        None => false,
        Some((info, doff, dlen)) => {
            if info.uptype == UPDATE_TYPE_PLAIN {
                let flen: usize = fwarea.len();
                assert(doff + dlen <= flen);
                let data = slice_subrange(fwarea, doff, doff + dlen);
                install_plain(hal, info, data, fw_start, fw_page_sz, up_addr);
            }
            true
        },
    }
}

} // verus!
