//! The ELF loader: from a 32-bit little-endian ELF image, the loadable
//! segments — every program header of type `PT_LOAD` with bytes in the file
//! — each as its physical address and its file bytes.

use vstd::prelude::*;

use crate::bytes::{le16, le32, read_le16, read_le32};
use crate::errors::EmuError;
use crate::intelhex::{segs_view, Segment};
use vstd::slice::slice_subrange;

verus! {

/// The program header type whose bytes are loaded into memory.
pub const PT_LOAD: u32 = 1;

/// The image starts with the ELF magic, is 32-bit, little-endian, and holds
/// a program header table.
pub open spec fn elf_header_ok(d: Seq<u8>) -> bool {
    &&& d.len() >= 52
    &&& d[0] == 0x7fu8 && d[1] == 0x45u8 && d[2] == 0x4cu8 && d[3] == 0x46u8
    &&& d[4] == 1u8 && d[5] == 1u8
    &&& le32(d.subrange(28, 32)) != 0
}

/// Offset of the program header table.
pub open spec fn elf_phoff(d: Seq<u8>) -> int {
    le32(d.subrange(28, 32)) as int
}

/// Size of one program header table entry.
pub open spec fn elf_phentsize(d: Seq<u8>) -> int {
    le16(d.subrange(42, 44)) as int
}

/// Number of program header table entries.
pub open spec fn elf_phnum(d: Seq<u8>) -> int {
    le16(d.subrange(44, 46)) as int
}

/// The loadable segments from program header `i` on: each `PT_LOAD` entry
/// with bytes in the file becomes its physical address and those bytes;
/// `None` where a header or its bytes lie outside the image.
pub open spec fn elf_collect(d: Seq<u8>, i: int) -> Option<Seq<(int, Seq<u8>)>>
    decreases elf_phnum(d) - i,
{
    if i < 0 || i >= elf_phnum(d) {
        Some(Seq::<(int, Seq<u8>)>::empty())
    } else {
        let base = elf_phoff(d) + i * elf_phentsize(d);
        if base < 0 || base + 32 > d.len() {
            None
        } else {
            let ptype = le32(d.subrange(base, base + 4));
            let off = le32(d.subrange(base + 4, base + 8)) as int;
            let paddr = le32(d.subrange(base + 12, base + 16));
            let filesz = le32(d.subrange(base + 16, base + 20)) as int;
            if ptype == PT_LOAD && filesz > 0 {
                if off + filesz > d.len() {
                    None
                } else {
                    match elf_collect(d, i + 1) {
                        Some(rest) => Some(
                            seq![(paddr as int, d.subrange(off, off + filesz))] + rest,
                        ),
                        None => None,
                    }
                }
            } else {
                elf_collect(d, i + 1)
            }
        }
    }
}

/// What parsing the whole image yields.
pub open spec fn elf_segments_spec(d: Seq<u8>) -> Option<Seq<(int, Seq<u8>)>> {
    if !elf_header_ok(d) {
        None
    } else {
        elf_collect(d, 0)
    }
}

/// `o` with `pre` prepended to its contents.
pub open spec fn opt_prepend(pre: Seq<(int, Seq<u8>)>, o: Option<Seq<(int, Seq<u8>)>>) -> Option<
    Seq<(int, Seq<u8>)>,
> {
    match o {
        Some(t) => Some(pre + t),
        None => None,
    }
}

/// Parse a 32-bit little-endian ELF image into its loadable segments.
pub fn elf_segments(elfdata: &[u8]) -> (r: Result<Vec<Segment>, EmuError>)
    ensures
        match r {
            Ok(v) => elf_segments_spec(elfdata@) == Some(segs_view(v@)) && (forall|i: int|
                0 <= i < v@.len() ==> (#[trigger] v@[i]).address <= u32::MAX),
            Err(e) => e == EmuError::MalformedElf && elf_segments_spec(elfdata@).is_none(),
        },
{
    let n = elfdata.len();
    if n < 52 {
        return Err(EmuError::MalformedElf);
    }
    if !(elfdata[0] == 0x7f && elfdata[1] == 0x45 && elfdata[2] == 0x4c && elfdata[3] == 0x46
        && elfdata[4] == 1 && elfdata[5] == 1) {
        return Err(EmuError::MalformedElf);
    }
    let phoff = read_le32(elfdata, 28);
    if phoff == 0 {
        return Err(EmuError::MalformedElf);
    }
    let phentsize = read_le16(elfdata, 42);
    let phnum = read_le16(elfdata, 44);
    let mut acc: Vec<Segment> = Vec::new();
    let mut i: usize = 0;
    proof {
        assert(segs_view(acc@) =~= Seq::<(int, Seq<u8>)>::empty());
        match elf_collect(elfdata@, 0) {
            Some(t) => {
                assert(Seq::<(int, Seq<u8>)>::empty() + t =~= t);
            },
            None => {},
        }
    }
    while i < phnum as usize
        invariant
            n == elfdata@.len(),
            n >= 52,
            elf_header_ok(elfdata@),
            phoff == le32(elfdata@.subrange(28, 32)),
            phentsize as int == elf_phentsize(elfdata@),
            phnum as int == elf_phnum(elfdata@),
            0 <= i <= phnum as int,
            opt_prepend(segs_view(acc@), elf_collect(elfdata@, i as int)) == elf_collect(
                elfdata@,
                0,
            ),
            forall|k: int| 0 <= k < acc@.len() ==> (#[trigger] acc@[k]).address <= u32::MAX,
        decreases phnum as int - i,
    {
        proof {
            assert((i as u64) * (phentsize as u64) < 0x1_0000_0000u64) by (nonlinear_arith)
                requires
                    (i as u64) < 0x10000u64,
                    (phentsize as u64) <= 0xffffu64,
            ;
        }
        let base_w: u64 = phoff as u64 + (i as u64) * (phentsize as u64);
        if base_w + 32 > n as u64 {
            return Err(EmuError::MalformedElf);
        }
        let base: usize = base_w as usize;
        let ptype = read_le32(elfdata, base);
        let off = read_le32(elfdata, base + 4);
        let paddr = read_le32(elfdata, base + 12);
        let filesz = read_le32(elfdata, base + 16);
        proof {
            assert(elfdata@.subrange(base as int, base + 4) =~= elfdata@.subrange(
                elf_phoff(elfdata@) + (i as int) * elf_phentsize(elfdata@),
                elf_phoff(elfdata@) + (i as int) * elf_phentsize(elfdata@) + 4,
            ));
        }
        if ptype == PT_LOAD && filesz > 0 {
            if off as u64 + filesz as u64 > n as u64 {
                return Err(EmuError::MalformedElf);
            }
            let data = slice_subrange(elfdata, off as usize, off as usize + filesz as usize);
            let ghost accv = segs_view(acc@);
            let mut bytes: Vec<u8> = Vec::new();
            let mut t: usize = 0;
            let dn = data.len();
            while t < dn
                invariant
                    dn == data@.len(),
                    0 <= t <= dn,
                    bytes@ =~= data@.subrange(0, t as int),
                decreases dn - t,
            {
                bytes.push(data[t]);
                t = t + 1;
            }
            proof {
                assert(bytes@ =~= data@);
            }
            let seg = Segment { address: paddr as usize, data: bytes };
            let ghost segv = (paddr as int, seg.data@);
            acc.push(seg);
            proof {
                assert(segs_view(acc@) =~= accv.push(segv));
                match elf_collect(elfdata@, i + 1) {
                    Some(rest) => {
                        assert(accv + (seq![segv] + rest) =~= accv.push(segv) + rest);
                    },
                    None => {},
                }
            }
        }
        i = i + 1;
    }
    proof {
        assert(elf_collect(elfdata@, phnum as int) == Some(Seq::<(int, Seq<u8>)>::empty()));
        match elf_collect(elfdata@, 0) {
            Some(t) => {
                assert(segs_view(acc@) + Seq::<(int, Seq<u8>)>::empty() =~= segs_view(acc@));
            },
            None => {},
        }
    }
    Ok(acc)
}

} // verus!
