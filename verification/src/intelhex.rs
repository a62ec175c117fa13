//! The Intel HEX loader: it parses the record text and coalesces consecutive
//! Data records into segments.
//!
//! A rolling address base is kept by Extended Segment / Extended Linear
//! Address records. A Data record whose absolute address exactly continues
//! the current segment grows it; any gap closes the segment and starts a new
//! one. An End-Of-File record finalizes and returns the segments; running
//! out of input without one is an error.

use vstd::prelude::*;

use crate::errors::EmuError;
use crate::semihost::{is_utf8, utf8_ok};

verus! {

use vstd::slice::slice_subrange;

/// One contiguous run of bytes a loader places into memory.
#[derive(Debug)]
pub struct Segment {
    pub address: usize,
    pub data: Vec<u8>,
}

/// The value of a hexadecimal digit, or 16 for any other byte.
pub open spec fn hex_nib(c: u8) -> int {
    if 0x30 <= c <= 0x39 {
        c - 0x30
    } else if 0x41 <= c <= 0x46 {
        c - 0x41 + 10
    } else if 0x61 <= c <= 0x66 {
        c - 0x61 + 10
    } else {
        16
    }
}

/// Every byte after the leading colon is a hex digit, in whole pairs.
pub open spec fn hex_pairs_ok(line: Seq<u8>) -> bool {
    &&& (line.len() - 1) % 2 == 0
    &&& forall|i: int| 1 <= i < line.len() ==> hex_nib(#[trigger] line[i]) < 16
}

/// The record bytes encoded by the hex digit pairs of `line`.
pub open spec fn rec_bytes(line: Seq<u8>) -> Seq<u8> {
    Seq::new(
        ((line.len() - 1) / 2) as nat,
        |k: int| (hex_nib(line[1 + 2 * k]) * 16 + hex_nib(line[2 + 2 * k])) as u8,
    )
}

/// The plain sum of a byte sequence.
pub open spec fn sum_bytes(s: Seq<u8>) -> int
    decreases s.len(),
{
    if s.len() == 0 {
        0
    } else {
        sum_bytes(s.drop_last()) + s.last()
    }
}

/// `line` frames a record: a colon, whole hex pairs, at least the five
/// framing bytes, a length byte matching the payload, and a zero checksum.
pub open spec fn frame_ok(line: Seq<u8>) -> bool {
    &&& line.len() >= 1
    &&& line[0] == 0x3au8
    &&& hex_pairs_ok(line)
    &&& rec_bytes(line).len() >= 5
    &&& rec_bytes(line)[0] == rec_bytes(line).len() - 5
    &&& sum_bytes(rec_bytes(line)) % 256 == 0
}

/// One parsed record, as the loader distinguishes them.
pub enum SpecRecord {
    Data { addr: u16, bytes: Seq<u8> },
    EndOfFile,
    ExtSegment(u16),
    ExtLinear(u16),
    Other,
}

/// Parse one non-empty line into a record, if it is well formed.
pub open spec fn parse_record_spec(line: Seq<u8>) -> Option<SpecRecord> {
    if !frame_ok(line) {
        None
    } else {
        let b = rec_bytes(line);
        let payload = b.subrange(4, b.len() - 1);
        if b[3] == 0 {
            Some(SpecRecord::Data { addr: (b[1] * 256 + b[2]) as u16, bytes: payload })
        } else if b[3] == 1 {
            if payload.len() == 0 {
                Some(SpecRecord::EndOfFile)
            } else {
                None
            }
        } else if b[3] == 2 {
            if payload.len() == 2 {
                Some(SpecRecord::ExtSegment((payload[0] * 256 + payload[1]) as u16))
            } else {
                None
            }
        } else if b[3] == 4 {
            if payload.len() == 2 {
                Some(SpecRecord::ExtLinear((payload[0] * 256 + payload[1]) as u16))
            } else {
                None
            }
        } else {
            Some(SpecRecord::Other)
        }
    }
}

/// Index of the first line feed of `t`, or its length.
pub open spec fn find_nl(t: Seq<u8>) -> int
    decreases t.len(),
{
    if t.len() == 0 {
        0
    } else if t[0] == 10u8 {
        0
    } else {
        1 + find_nl(t.drop_first())
    }
}

/// `find_nl` is exactly the first index holding a line feed.
pub proof fn lemma_find_nl(t: Seq<u8>, k: int)
    requires
        0 <= k <= t.len(),
        forall|j: int| 0 <= j < k ==> t[j] != 10u8,
        k < t.len() ==> t[k] == 10u8,
    ensures
        find_nl(t) == k,
    decreases t.len(),
{
    if t.len() == 0 {
    } else if t[0] == 10u8 {
    } else {
        lemma_find_nl(t.drop_first(), k - 1);
    }
}

/// The first line feed index never exceeds the length.
pub proof fn lemma_find_nl_bounds(t: Seq<u8>)
    ensures
        0 <= find_nl(t) <= t.len(),
    decreases t.len(),
{
    if t.len() == 0 {
    } else if t[0] == 10u8 {
    } else {
        lemma_find_nl_bounds(t.drop_first());
    }
}

/// The loader state machine over the remaining text: `base` is the rolling
/// address base, `start`/`buf` the open segment, `acc` the closed segments.
pub open spec fn ih_run(
    t: Seq<u8>,
    base: int,
    start: int,
    buf: Seq<u8>,
    acc: Seq<(int, Seq<u8>)>,
) -> Result<Seq<(int, Seq<u8>)>, EmuError>
    decreases t.len(),
    via ih_run_decreases
{
    if t.len() == 0 {
        Err(EmuError::MalformedIntelHex)
    } else {
        let i = find_nl(t);
        let rawline = t.subrange(0, i);
        let rest = if i < t.len() {
            t.subrange(i + 1, t.len() as int)
        } else {
            Seq::<u8>::empty()
        };
        let line = if rawline.len() > 0 && rawline.last() == 13u8 {
            rawline.drop_last()
        } else {
            rawline
        };
        if line.len() == 0 {
            ih_run(rest, base, start, buf, acc)
        } else {
            match parse_record_spec(line) {
                None => Err(EmuError::MalformedIntelHex),
                Some(SpecRecord::Data { addr, bytes }) => {
                    let a = base + addr;
                    if a == start + buf.len() {
                        ih_run(rest, base, start, buf + bytes, acc)
                    } else if buf.len() > 0 {
                        ih_run(rest, base, a, bytes, acc.push((start, buf)))
                    } else {
                        ih_run(rest, base, a, bytes, acc)
                    }
                },
                Some(SpecRecord::EndOfFile) => Ok(
                    if buf.len() > 0 {
                        acc.push((start, buf))
                    } else {
                        acc
                    },
                ),
                Some(SpecRecord::ExtSegment(v)) => ih_run(rest, v * 16, start, buf, acc),
                Some(SpecRecord::ExtLinear(v)) => ih_run(rest, v * 0x10000, start, buf, acc),
                Some(SpecRecord::Other) => ih_run(rest, base, start, buf, acc),
            }
        }
    }
}

#[via_fn]
proof fn ih_run_decreases(
    t: Seq<u8>,
    base: int,
    start: int,
    buf: Seq<u8>,
    acc: Seq<(int, Seq<u8>)>,
) {
    lemma_find_nl_bounds(t);
}

/// What the loader produces from the whole text.
pub open spec fn segments_spec(t: Seq<u8>) -> Result<Seq<(int, Seq<u8>)>, EmuError> {
    ih_run(t, 0, 0, Seq::<u8>::empty(), Seq::<(int, Seq<u8>)>::empty())
}

/// The addresses and contents of a segment list.
pub open spec fn segs_view(v: Seq<Segment>) -> Seq<(int, Seq<u8>)> {
    v.map_values(|s: Segment| (s.address as int, s.data@))
}

/// The value of one hex digit, 16 for any other byte.
fn hex_nib_x(c: u8) -> (r: u8)
    ensures
        r == hex_nib(c),
{
    if 0x30 <= c && c <= 0x39 {
        c - 0x30
    } else if 0x41 <= c && c <= 0x46 {
        c - 0x41 + 10
    } else if 0x61 <= c && c <= 0x66 {
        c - 0x61 + 10
    } else {
        16
    }
}

/// One parsed record with its payload.
pub enum HexRecord {
    Data { addr: u16, bytes: Vec<u8> },
    EndOfFile,
    ExtSegment(u16),
    ExtLinear(u16),
    Other,
}

/// The exec record carries the same content as the spec record.
pub open spec fn rec_matches(e: HexRecord, s: SpecRecord) -> bool {
    match (e, s) {
        (HexRecord::Data { addr: a1, bytes: b1 }, SpecRecord::Data { addr: a2, bytes: b2 }) => a1
            == a2 && b1@ == b2,
        (HexRecord::EndOfFile, SpecRecord::EndOfFile) => true,
        (HexRecord::ExtSegment(v1), SpecRecord::ExtSegment(v2)) => v1 == v2,
        (HexRecord::ExtLinear(v1), SpecRecord::ExtLinear(v2)) => v1 == v2,
        (HexRecord::Other, SpecRecord::Other) => true,
    _ => false,
    }
}

/// Parse one non-empty record line.
fn parse_record(line: &[u8]) -> (r: Result<HexRecord, EmuError>)
    requires
        line@.len() > 0,
    ensures
        match r {
            Ok(rec) => parse_record_spec(line@).is_some() && rec_matches(
                rec,
                parse_record_spec(line@).unwrap(),
            ),
            Err(e) => e == EmuError::MalformedIntelHex && parse_record_spec(line@).is_none(),
        },
{
    let n = line.len();
    if line[0] != 0x3a || (n - 1) % 2 != 0 {
        return Err(EmuError::MalformedIntelHex);
    }
    let nbytes: usize = (n - 1) / 2;
    let mut bytes: Vec<u8> = Vec::new();
    let mut sum: u32 = 0;
    let mut k: usize = 0;
    while k < nbytes
        invariant
            n == line@.len(),
            nbytes == ((n - 1) / 2) as int,
            n >= 1,
            (n - 1) % 2 == 0,
            0 <= k <= nbytes,
            line@[0] == 0x3au8,
            bytes@.len() == k,
            forall|j: int| 0 <= j < k ==> hex_nib(#[trigger] line@[1 + 2 * j]) < 16 && hex_nib(
                line@[2 + 2 * j],
            ) < 16,
            forall|j: int| 0 <= j < k ==> #[trigger] bytes@[j] == rec_bytes(line@)[j],
            sum == sum_bytes(bytes@) % 256,
        decreases nbytes - k,
    {
        let hi = hex_nib_x(line[1 + 2 * k]);
        let lo = hex_nib_x(line[2 + 2 * k]);
        if hi >= 16 || lo >= 16 {
            proof {
                let i = if hi >= 16 {
                    1 + 2 * (k as int)
                } else {
                    2 + 2 * (k as int)
                };
                assert(1 <= i < line@.len() && hex_nib(line@[i]) >= 16);
                assert(!hex_pairs_ok(line@));
            }
            return Err(EmuError::MalformedIntelHex);
        }
        let b: u8 = hi * 16 + lo;
        let ghost pre = bytes@;
        bytes.push(b);
        proof {
            assert(bytes@.drop_last() =~= pre);
            assert(rec_bytes(line@)[k as int] == b);
            assert(sum_bytes(bytes@) == sum_bytes(pre) + b);
            vstd::arithmetic::div_mod::lemma_add_mod_noop(sum_bytes(pre), b as int, 256);
            vstd::arithmetic::div_mod::lemma_mod_twice(sum_bytes(pre), 256);
            vstd::arithmetic::div_mod::lemma_small_mod(b as nat, 256);
        }
        sum = (sum + b as u32) % 256;
        k = k + 1;
    }
    proof {
        assert(bytes@ =~= rec_bytes(line@));
    }
    if nbytes < 5 {
        return Err(EmuError::MalformedIntelHex);
    }
    if bytes[0] as usize != nbytes - 5 {
        return Err(EmuError::MalformedIntelHex);
    }
    if sum != 0 {
        return Err(EmuError::MalformedIntelHex);
    }
    proof {
        assert forall|i: int| 1 <= i < line@.len() implies hex_nib(#[trigger] line@[i]) < 16 by {
            let j = (i - 1) / 2;
            if (i - 1) % 2 == 0 {
                assert(i == 1 + 2 * j);
            } else {
                assert(i == 2 + 2 * j);
            }
            assert(0 <= j < nbytes);
            assert(hex_nib(line@[1 + 2 * j]) < 16 && hex_nib(line@[2 + 2 * j]) < 16);
        }
        assert(frame_ok(line@));
    }
    let rectype = bytes[3];
    let addr: u16 = (bytes[1] as u16) * 256 + (bytes[2] as u16);
    let mut payload: Vec<u8> = Vec::new();
    let mut j: usize = 4;
    while j < nbytes - 1
        invariant
            nbytes >= 5,
            nbytes == bytes@.len(),
            4 <= j <= nbytes - 1,
            payload@ =~= bytes@.subrange(4, j as int),
        decreases nbytes - 1 - j,
    {
        payload.push(bytes[j]);
        j = j + 1;
    }
    proof {
        assert(payload@ =~= rec_bytes(line@).subrange(4, rec_bytes(line@).len() - 1));
    }
    if rectype == 0 {
        Ok(HexRecord::Data { addr, bytes: payload })
    } else if rectype == 1 {
        if payload.len() == 0 {
            Ok(HexRecord::EndOfFile)
        } else {
            Err(EmuError::MalformedIntelHex)
        }
    } else if rectype == 2 {
        if payload.len() == 2 {
            let v: u16 = (payload[0] as u16) * 256 + (payload[1] as u16);
            Ok(HexRecord::ExtSegment(v))
        } else {
            Err(EmuError::MalformedIntelHex)
        }
    } else if rectype == 4 {
        if payload.len() == 2 {
            let v: u16 = (payload[0] as u16) * 256 + (payload[1] as u16);
            Ok(HexRecord::ExtLinear(v))
        } else {
            Err(EmuError::MalformedIntelHex)
        }
    } else {
        Ok(HexRecord::Other)
    }
}

/// Parse an Intel HEX text and assemble its Data records into segments.
pub fn segments(hexdata: &[u8]) -> (r: Result<Vec<Segment>, EmuError>)
    ensures
        match r {
            Ok(v) => is_utf8(hexdata@) && segments_spec(hexdata@) == Ok::<_, EmuError>(
                segs_view(v@),
            ) && (forall|i: int| 0 <= i < v@.len() ==> (#[trigger] v@[i]).address <= u32::MAX),
            Err(e) => (e == EmuError::InvalidUtf8 && !is_utf8(hexdata@)) || (is_utf8(hexdata@)
                && segments_spec(hexdata@) == Err::<Seq<(int, Seq<u8>)>, _>(e)),
        },
{
    if !utf8_ok(hexdata) {
        return Err(EmuError::InvalidUtf8);
    }
    let n = hexdata.len();
    let mut pos: usize = 0;
    let mut base: u32 = 0;
    let mut start: u32 = 0;
    let mut buf: Vec<u8> = Vec::new();
    let mut acc: Vec<Segment> = Vec::new();
    proof {
        assert(hexdata@.subrange(0, n as int) =~= hexdata@);
        assert(segs_view(acc@) =~= Seq::<(int, Seq<u8>)>::empty());
    }
    while pos < n
        invariant
            n == hexdata@.len(),
            0 <= pos <= n,
            is_utf8(hexdata@),
            base <= 0xffff_0000u32,
            forall|t: int| 0 <= t < acc@.len() ==> (#[trigger] acc@[t]).address <= u32::MAX,
            ih_run(hexdata@.subrange(pos as int, n as int), base as int, start as int, buf@,
                segs_view(acc@)) == segments_spec(hexdata@),
        decreases n - pos,
    {
        let ghost rem = hexdata@.subrange(pos as int, n as int);
        let ghost base0 = base as int;
        let ghost start0 = start as int;
        let ghost buf0 = buf@;
        let ghost acc0 = segs_view(acc@);
        let mut e: usize = pos;
        while e < n && hexdata[e] != 10
            invariant
                pos <= e <= n,
                n == hexdata@.len(),
                forall|j: int| pos <= j < e ==> hexdata@[j] != 10u8,
            decreases n - e,
        {
            e = e + 1;
        }
        proof {
            lemma_find_nl(rem, e - pos);
            assert(rem.subrange(0, e - pos) =~= hexdata@.subrange(pos as int, e as int));
        }
        let mut le: usize = e;
        if le > pos && hexdata[le - 1] == 13 {
            le = le - 1;
        }
        let ghost next_rem = if (e as int) < (n as int) {
            hexdata@.subrange(e + 1, n as int)
        } else {
            Seq::<u8>::empty()
        };
        proof {
            let i = find_nl(rem);
            let rawline = rem.subrange(0, i);
            let line_s = if rawline.len() > 0 && rawline.last() == 13u8 {
                rawline.drop_last()
            } else {
                rawline
            };
            assert(line_s =~= hexdata@.subrange(pos as int, le as int));
            if i < rem.len() {
                assert(next_rem =~= rem.subrange(i + 1, rem.len() as int));
            }
        }
        if le > pos {
            let line = slice_subrange(hexdata, pos, le);
            match parse_record(line) {
                Err(err) => {
                    proof {
                        assert(ih_run(rem, base0, start0, buf0, acc0) == Err::<
                            Seq<(int, Seq<u8>)>,
                            EmuError,
                        >(EmuError::MalformedIntelHex));
                    }
                    return Err(err);
                },
                Ok(HexRecord::Data { addr, bytes }) => {
                    let a: u32 = base + addr as u32;
                    if a >= start && ((a - start) as usize) == buf.len() {
                        let bb = bytes;
                        let ghost pre = buf@;
                        let bn = bb.len();
                        let mut t: usize = 0;
                        while t < bn
                            invariant
                                bn == bb@.len(),
                                0 <= t <= bn,
                                buf@ == pre + bb@.subrange(0, t as int),
                            decreases bn - t,
                        {
                            buf.push(bb[t]);
                            proof {
                                assert(pre + bb@.subrange(0, t as int) + seq![bb@[t as int]]
                                    =~= pre + bb@.subrange(0, t + 1));
                            }
                            t = t + 1;
                        }
                        proof {
                            assert(bb@.subrange(0, bn as int) =~= bb@);
                            assert(buf@ == buf0 + bb@);
                            assert(ih_run(rem, base0, start0, buf0, acc0) == ih_run(next_rem,
                                base0, start0, buf0 + bb@, acc0));
                        }
                    } else {
                        if buf.len() > 0 {
                            let seg = Segment { address: start as usize, data: buf };
                            let ghost segv = (start as int, seg.data@);
                            acc.push(seg);
                            buf = bytes;
                            start = a;
                            proof {
                                assert(segs_view(acc@) =~= acc0.push(segv));
                                assert(ih_run(rem, base0, start0, buf0, acc0) == ih_run(next_rem,
                                    base0, a as int, buf@, acc0.push((start0, buf0))));
                            }
                        } else {
                            buf = bytes;
                            start = a;
                            proof {
                                assert(ih_run(rem, base0, start0, buf0, acc0) == ih_run(next_rem,
                                    base0, a as int, buf@, acc0));
                            }
                        }
                    }
                },
                Ok(HexRecord::EndOfFile) => {
                    if buf.len() > 0 {
                        let seg = Segment { address: start as usize, data: buf };
                        let ghost segv = (start as int, seg.data@);
                        acc.push(seg);
                        proof {
                            assert(segs_view(acc@) =~= acc0.push(segv));
                            assert(ih_run(rem, base0, start0, buf0, acc0) == Ok::<
                                _,
                                EmuError,
                            >(segs_view(acc@)));
                        }
                        return Ok(acc);
                    }
                    proof {
                        assert(ih_run(rem, base0, start0, buf0, acc0) == Ok::<_, EmuError>(
                            segs_view(acc@),
                        ));
                    }
                    return Ok(acc);
                },
                Ok(HexRecord::ExtSegment(v)) => {
                    base = (v as u32) * 16;
                    proof {
                        assert(ih_run(rem, base0, start0, buf0, acc0) == ih_run(next_rem,
                            base as int, start0, buf@, acc0));
                    }
                },
                Ok(HexRecord::ExtLinear(v)) => {
                    base = (v as u32) * 0x10000;
                    proof {
                        assert(ih_run(rem, base0, start0, buf0, acc0) == ih_run(next_rem,
                            base as int, start0, buf@, acc0));
                    }
                },
                Ok(HexRecord::Other) => {
                    proof {
                        assert(ih_run(rem, base0, start0, buf0, acc0) == ih_run(next_rem, base0,
                            start0, buf@, acc0));
                    }
                },
            }
        } else {
            proof {
                assert(ih_run(rem, base0, start0, buf0, acc0) == ih_run(next_rem, base0, start0,
                    buf@, acc0));
            }
        }
        pos = if e < n {
            e + 1
        } else {
            n
        };
        proof {
            assert(hexdata@.subrange(pos as int, n as int) =~= next_rem);
        }
    }
    proof {
        assert(hexdata@.subrange(pos as int, n as int) =~= Seq::<u8>::empty());
    }
    Err(EmuError::MalformedIntelHex)
}

} // verus!
